use vstd::prelude::*;
use crate::checkpoint::{
    lemma_checkpoint_state_roundtrip, lemma_values_by_parts, part_values, restore_outcome, shape_product,
    split_into_tensors, tensor_fault, tensor_parts, tensor_values, tensors_parts, value_count_total,
    CheckpointTensor,
};
use crate::stories::lemma_flatten_concat;
use crate::model::{
    layer_parameter_count, layer_parameter_shapes, matrix_shape, model_parameter_count_spec,
    model_parameter_shapes,
};

verus! {

// ---------------------------------------------------------------------------
// The nested parameters of the model
// ---------------------------------------------------------------------------

/// The attention weights of one layer, each weight matrix followed by its
/// biases. A matrix is a list of rows, one row per output.
#[derive(Clone, Debug)]
pub struct AttentionParameters<T> {
    pub query_weights: Vec<Vec<T>>,
    pub query_biases: Vec<T>,
    pub key_weights: Vec<Vec<T>>,
    pub key_biases: Vec<T>,
    pub value_weights: Vec<Vec<T>>,
    pub value_biases: Vec<T>,
    pub output_projection_weights: Vec<Vec<T>>,
    pub output_projection_biases: Vec<T>,
}

/// The feed-forward weights of one layer, each weight matrix followed by its
/// biases.
#[derive(Clone, Debug)]
pub struct FeedForwardParameters<T> {
    pub expansion_weights: Vec<Vec<T>>,
    pub expansion_biases: Vec<T>,
    pub gate_weights: Vec<Vec<T>>,
    pub gate_biases: Vec<T>,
    pub projection_weights: Vec<Vec<T>>,
    pub projection_biases: Vec<T>,
}

/// One Transformer layer: the norm gain before attention, attention, the
/// norm gain before the feed-forward block, the feed-forward block.
#[derive(Clone, Debug)]
pub struct TransformerLayerParameters<T> {
    pub attention_norm_gain: Vec<T>,
    pub attention: AttentionParameters<T>,
    pub feed_forward_norm_gain: Vec<T>,
    pub feed_forward: FeedForwardParameters<T>,
}

/// All trainable parameters of the model. The element type is left open:
/// training holds autodiff nodes, checkpoints hold numbers.
#[derive(Clone, Debug)]
pub struct TransformerModelParameters<T> {
    pub token_embedding: Vec<Vec<T>>,
    pub position_embedding: Vec<Vec<T>>,
    pub language_model_head: Vec<Vec<T>>,
    pub language_model_head_biases: Vec<T>,
    pub final_norm_gain: Vec<T>,
    pub layers: Vec<TransformerLayerParameters<T>>,
}

// ---------------------------------------------------------------------------
// The flat order of the parameters
// ---------------------------------------------------------------------------

/// The entries of a matrix, row after row.
pub open spec fn rows_values<T>(rows: Seq<Vec<T>>) -> Seq<T>
    decreases rows.len(),
{
    if rows.len() == 0 {
        Seq::empty()
    } else {
        rows_values(rows.drop_last()) + rows.last()@
    }
}

/// The attention parameters in flat order: each weight matrix row by row,
/// then its biases; query, key, value, output projection.
pub open spec fn attention_values<T>(a: AttentionParameters<T>) -> Seq<T> {
    rows_values(a.query_weights@) + a.query_biases@ + rows_values(a.key_weights@) + a.key_biases@
        + rows_values(a.value_weights@) + a.value_biases@ + rows_values(a.output_projection_weights@)
        + a.output_projection_biases@
}

/// The feed-forward parameters in flat order: expansion, gate, projection,
/// each weight matrix row by row, then its biases.
pub open spec fn feed_forward_values<T>(f: FeedForwardParameters<T>) -> Seq<T> {
    rows_values(f.expansion_weights@) + f.expansion_biases@ + rows_values(f.gate_weights@) + f.gate_biases@
        + rows_values(f.projection_weights@) + f.projection_biases@
}

/// The parameters of one layer in flat order.
pub open spec fn layer_values<T>(l: TransformerLayerParameters<T>) -> Seq<T> {
    l.attention_norm_gain@ + attention_values(l.attention) + l.feed_forward_norm_gain@
        + feed_forward_values(l.feed_forward)
}

/// The parameters of the layers in flat order, layer after layer.
pub open spec fn layers_values<T>(layers: Seq<TransformerLayerParameters<T>>) -> Seq<T>
    decreases layers.len(),
{
    if layers.len() == 0 {
        Seq::empty()
    } else {
        layers_values(layers.drop_last()) + layer_values(layers.last())
    }
}

/// The one flat order of all parameters, which the optimizer state and the
/// checkpoints share: token embedding, position embedding, language-model
/// head, its biases, final norm gain, then the layers.
pub open spec fn parameter_values<T>(m: TransformerModelParameters<T>) -> Seq<T> {
    rows_values(m.token_embedding@) + rows_values(m.position_embedding@) + rows_values(
        m.language_model_head@,
    ) + m.language_model_head_biases@ + m.final_norm_gain@ + layers_values(m.layers@)
}

// ---------------------------------------------------------------------------
// Shapes
// ---------------------------------------------------------------------------

/// Two matrices have the same number of rows and rows of the same lengths.
pub open spec fn same_rows_shape<T, U>(a: Seq<Vec<T>>, b: Seq<Vec<U>>) -> bool {
    &&& a.len() == b.len()
    &&& forall|i: int| #![trigger a[i]] #![trigger b[i]] 0 <= i < a.len() ==> a[i]@.len() == b[i]@.len()
}

pub open spec fn same_attention_shape<T, U>(a: AttentionParameters<T>, b: AttentionParameters<U>) -> bool {
    &&& same_rows_shape(a.query_weights@, b.query_weights@)
    &&& a.query_biases@.len() == b.query_biases@.len()
    &&& same_rows_shape(a.key_weights@, b.key_weights@)
    &&& a.key_biases@.len() == b.key_biases@.len()
    &&& same_rows_shape(a.value_weights@, b.value_weights@)
    &&& a.value_biases@.len() == b.value_biases@.len()
    &&& same_rows_shape(a.output_projection_weights@, b.output_projection_weights@)
    &&& a.output_projection_biases@.len() == b.output_projection_biases@.len()
}

pub open spec fn same_feed_forward_shape<T, U>(a: FeedForwardParameters<T>, b: FeedForwardParameters<U>) -> bool {
    &&& same_rows_shape(a.expansion_weights@, b.expansion_weights@)
    &&& a.expansion_biases@.len() == b.expansion_biases@.len()
    &&& same_rows_shape(a.gate_weights@, b.gate_weights@)
    &&& a.gate_biases@.len() == b.gate_biases@.len()
    &&& same_rows_shape(a.projection_weights@, b.projection_weights@)
    &&& a.projection_biases@.len() == b.projection_biases@.len()
}

pub open spec fn same_layer_shape<T, U>(a: TransformerLayerParameters<T>, b: TransformerLayerParameters<U>) -> bool {
    &&& a.attention_norm_gain@.len() == b.attention_norm_gain@.len()
    &&& same_attention_shape(a.attention, b.attention)
    &&& a.feed_forward_norm_gain@.len() == b.feed_forward_norm_gain@.len()
    &&& same_feed_forward_shape(a.feed_forward, b.feed_forward)
}

/// Two models have the same tensors with the same shapes.
pub open spec fn same_parameter_shape<T, U>(a: TransformerModelParameters<T>, b: TransformerModelParameters<U>) -> bool {
    &&& same_rows_shape(a.token_embedding@, b.token_embedding@)
    &&& same_rows_shape(a.position_embedding@, b.position_embedding@)
    &&& same_rows_shape(a.language_model_head@, b.language_model_head@)
    &&& a.language_model_head_biases@.len() == b.language_model_head_biases@.len()
    &&& a.final_norm_gain@.len() == b.final_norm_gain@.len()
    &&& a.layers@.len() == b.layers@.len()
    &&& forall|i: int| #![trigger a.layers@[i]] #![trigger b.layers@[i]]
        0 <= i < a.layers@.len() ==> same_layer_shape(a.layers@[i], b.layers@[i])
}

// ---------------------------------------------------------------------------
// A queue over a vector
// ---------------------------------------------------------------------------

/// The items a queue still holds, front first: the vector holds them back
/// to front, so that taking the front is a `pop`.
pub open spec fn queued<U>(queue: Seq<U>) -> Seq<U> {
    queue.reverse()
}

/// The vector as a queue, its first item at the front.
fn into_queue<U>(values: Vec<U>) -> (queue: Vec<U>)
    ensures
        queued(queue@) == values@,
{
    let ghost all = values@;
    let mut values = values;
    let mut queue: Vec<U> = Vec::new();
    while values.len() > 0
        invariant
            queue@.len() + values@.len() == all.len(),
            values@ == all.take(values@.len() as int),
            queued(queue@) == all.skip(values@.len() as int),
        decreases values@.len(),
    {
        let ghost before = queue@;
        let ghost n = values@.len() as int;
        let item = values.pop().unwrap();
        queue.push(item);
        assert(queued(queue@) =~= seq![all[n - 1]] + queued(before));
        assert(all.skip(n - 1) =~= seq![all[n - 1]] + all.skip(n));
        assert(values@ =~= all.take(n - 1));
    }
    assert(all.skip(0) =~= all);
    queue
}

/// Takes the front item of a queue.
fn take_front<U>(queue: &mut Vec<U>) -> (item: U)
    requires
        queued(old(queue)@).len() > 0,
    ensures
        item == queued(old(queue)@)[0],
        queued(final(queue)@) == queued(old(queue)@).drop_first(),
{
    let ghost before = queue@;
    let item = queue.pop().unwrap();
    assert(queued(queue@) =~= queued(before).drop_first());
    item
}

/// Takes the first `count` items of a queue, in order.
fn take_vector<U>(queue: &mut Vec<U>, count: usize) -> (taken: Vec<U>)
    requires
        count <= queued(old(queue)@).len(),
    ensures
        taken@ == queued(old(queue)@).take(count as int),
        queued(final(queue)@) == queued(old(queue)@).skip(count as int),
{
    let ghost q0 = queued(queue@);
    let mut taken: Vec<U> = Vec::new();
    let mut k: usize = 0;
    assert(q0.skip(0) =~= q0);
    while k < count
        invariant
            k <= count,
            count <= q0.len(),
            taken@ == q0.take(k as int),
            queued(queue@) == q0.skip(k as int),
        decreases count - k,
    {
        let item = take_front(queue);
        taken.push(item);
        assert(taken@ =~= q0.take(k + 1));
        assert(queued(queue@) =~= q0.skip(k + 1));
        k = k + 1;
    }
    taken
}

// ---------------------------------------------------------------------------
// Flattening
// ---------------------------------------------------------------------------

/// Appends the entries of a matrix, row after row.
fn append_rows<T>(out: &mut Vec<T>, rows: Vec<Vec<T>>)
    ensures
        final(out)@ == old(out)@ + rows_values(rows@),
{
    let ghost start = out@;
    let ghost all = rows@;
    let n = rows.len();
    let mut queue = into_queue(rows);
    let mut k: usize = 0;
    assert(all.take(0) =~= Seq::<Vec<T>>::empty());
    assert(all.skip(0) =~= all);
    while queue.len() > 0
        invariant
            k <= all.len(),
            all.len() == n,
            queue@.len() == all.len() - k,
            out@ == start + rows_values(all.take(k as int)),
            queued(queue@) == all.skip(k as int),
        decreases all.len() - k,
    {
        let mut row = take_front(&mut queue);
        assert(all.take(k + 1).drop_last() =~= all.take(k as int));
        assert(queued(queue@) =~= all.skip(k + 1));
        out.append(&mut row);
        assert(out@ =~= start + rows_values(all.take(k + 1)));
        k = k + 1;
    }
    assert(all.take(k as int) =~= all);
}

/// Appends a vector's entries.
fn append_vector<T>(out: &mut Vec<T>, values: Vec<T>)
    ensures
        final(out)@ == old(out)@ + values@,
{
    let mut values = values;
    out.append(&mut values);
}

fn append_attention<T>(out: &mut Vec<T>, a: AttentionParameters<T>)
    ensures
        final(out)@ == old(out)@ + attention_values(a),
{
    let ghost start = out@;
    let ghost whole = a;
    append_rows(out, a.query_weights);
    append_vector(out, a.query_biases);
    append_rows(out, a.key_weights);
    append_vector(out, a.key_biases);
    append_rows(out, a.value_weights);
    append_vector(out, a.value_biases);
    append_rows(out, a.output_projection_weights);
    append_vector(out, a.output_projection_biases);
    assert(out@ =~= start + attention_values(whole));
}

fn append_feed_forward<T>(out: &mut Vec<T>, f: FeedForwardParameters<T>)
    ensures
        final(out)@ == old(out)@ + feed_forward_values(f),
{
    let ghost start = out@;
    let ghost whole = f;
    append_rows(out, f.expansion_weights);
    append_vector(out, f.expansion_biases);
    append_rows(out, f.gate_weights);
    append_vector(out, f.gate_biases);
    append_rows(out, f.projection_weights);
    append_vector(out, f.projection_biases);
    assert(out@ =~= start + feed_forward_values(whole));
}

fn append_layer<T>(out: &mut Vec<T>, l: TransformerLayerParameters<T>)
    ensures
        final(out)@ == old(out)@ + layer_values(l),
{
    let ghost start = out@;
    let ghost whole = l;
    append_vector(out, l.attention_norm_gain);
    append_attention(out, l.attention);
    append_vector(out, l.feed_forward_norm_gain);
    append_feed_forward(out, l.feed_forward);
    assert(out@ =~= start + layer_values(whole));
}

impl<T> TransformerModelParameters<T> {
    /// All parameters in their one flat order.
    pub fn into_values(self) -> (values: Vec<T>)
        ensures
            values@ == parameter_values(self),
    {
        let ghost whole = self;
        let mut values: Vec<T> = Vec::new();
        append_rows(&mut values, self.token_embedding);
        append_rows(&mut values, self.position_embedding);
        append_rows(&mut values, self.language_model_head);
        append_vector(&mut values, self.language_model_head_biases);
        append_vector(&mut values, self.final_norm_gain);
        let ghost before_layers = values@;
        let ghost layers = self.layers@;
        let n = self.layers.len();
        let mut queue = into_queue(self.layers);
        let mut k: usize = 0;
        assert(layers.take(0) =~= Seq::<TransformerLayerParameters<T>>::empty());
        assert(layers.skip(0) =~= layers);
        while queue.len() > 0
            invariant
                k <= layers.len(),
                layers.len() == n,
                queue@.len() == layers.len() - k,
                values@ == before_layers + layers_values(layers.take(k as int)),
                queued(queue@) == layers.skip(k as int),
            decreases layers.len() - k,
        {
            let layer = take_front(&mut queue);
            assert(layers.take(k + 1).drop_last() =~= layers.take(k as int));
            assert(queued(queue@) =~= layers.skip(k + 1));
            append_layer(&mut values, layer);
            assert(values@ =~= before_layers + layers_values(layers.take(k + 1)));
            k = k + 1;
        }
        assert(layers.take(k as int) =~= layers);
        assert(values@ =~= parameter_values(whole));
        values
    }
}

// ---------------------------------------------------------------------------
// Rebuilding from a flat list
// ---------------------------------------------------------------------------

proof fn lemma_take_then<U>(q: Seq<U>, a: int, b: int)
    requires
        0 <= a,
        0 <= b,
        a + b <= q.len(),
    ensures
        q.take(a) + q.skip(a).take(b) == q.take(a + b),
        q.skip(a).skip(b) == q.skip(a + b),
{
    assert(q.take(a) + q.skip(a).take(b) =~= q.take(a + b));
    assert(q.skip(a).skip(b) =~= q.skip(a + b));
}

proof fn lemma_rows_values_prefix<T>(rows: Seq<Vec<T>>, i: int)
    requires
        0 <= i <= rows.len(),
    ensures
        rows_values(rows.take(i)).len() <= rows_values(rows).len(),
    decreases rows.len() - i,
{
    if i < rows.len() {
        lemma_rows_values_prefix(rows, i + 1);
        assert(rows.take(i + 1).drop_last() =~= rows.take(i));
    } else {
        assert(rows.take(i) =~= rows);
    }
}

/// Takes the entries of a matrix shaped like `template` from the front of
/// the queue, row after row.
fn take_rows<T, U>(queue: &mut Vec<U>, template: &Vec<Vec<T>>) -> (rows: Vec<Vec<U>>)
    requires
        rows_values(template@).len() <= queued(old(queue)@).len(),
    ensures
        same_rows_shape(template@, rows@),
        rows_values(rows@) == queued(old(queue)@).take(rows_values(template@).len() as int),
        queued(final(queue)@) == queued(old(queue)@).skip(rows_values(template@).len() as int),
{
    let ghost q0 = queued(queue@);
    let ghost t = template@;
    let mut rows: Vec<Vec<U>> = Vec::new();
    let mut i: usize = 0;
    assert(t.take(0) =~= Seq::<Vec<T>>::empty());
    assert(q0.take(0) =~= Seq::<U>::empty());
    assert(q0.skip(0) =~= q0);
    while i < template.len()
        invariant
            i <= t.len(),
            t == template@,
            rows_values(t).len() <= q0.len(),
            rows@.len() == i,
            forall|j: int| #![trigger rows@[j]] 0 <= j < i ==> rows@[j]@.len() == t[j]@.len(),
            rows_values(rows@) == q0.take(rows_values(t.take(i as int)).len() as int),
            queued(queue@) == q0.skip(rows_values(t.take(i as int)).len() as int),
        decreases t.len() - i,
    {
        let ghost offset = rows_values(t.take(i as int)).len() as int;
        proof {
            assert(t.take(i + 1).drop_last() =~= t.take(i as int));
            lemma_rows_values_prefix(t, i + 1);
        }
        let row = take_vector(queue, template[i].len());
        proof {
            lemma_take_then(q0, offset, t[i as int]@.len() as int);
        }
        let ghost before = rows@;
        rows.push(row);
        assert(rows@.drop_last() =~= before);
        i = i + 1;
    }
    assert(t.take(i as int) =~= t);
    rows
}

/// Takes the attention parameters shaped like `template` from the front of
/// the queue, in flat order.
fn take_attention<T, U>(queue: &mut Vec<U>, template: &AttentionParameters<T>) -> (a: AttentionParameters<U>)
    requires
        attention_values(*template).len() <= queued(old(queue)@).len(),
    ensures
        same_attention_shape(*template, a),
        attention_values(a) == queued(old(queue)@).take(attention_values(*template).len() as int),
        queued(final(queue)@) == queued(old(queue)@).skip(attention_values(*template).len() as int),
{
    let ghost q0 = queued(queue@);
    let ghost mut off: int = 0;
    assert(q0.skip(0) =~= q0);
    assert(q0.take(0) =~= Seq::<U>::empty());
    let query_weights = take_rows(queue, &template.query_weights);
    proof { lemma_take_then(q0, off, rows_values(template.query_weights@).len() as int); off = off + rows_values(template.query_weights@).len(); }
    let query_biases = take_vector(queue, template.query_biases.len());
    proof { lemma_take_then(q0, off, template.query_biases@.len() as int); off = off + template.query_biases@.len(); }
    let key_weights = take_rows(queue, &template.key_weights);
    proof { lemma_take_then(q0, off, rows_values(template.key_weights@).len() as int); off = off + rows_values(template.key_weights@).len(); }
    let key_biases = take_vector(queue, template.key_biases.len());
    proof { lemma_take_then(q0, off, template.key_biases@.len() as int); off = off + template.key_biases@.len(); }
    let value_weights = take_rows(queue, &template.value_weights);
    proof { lemma_take_then(q0, off, rows_values(template.value_weights@).len() as int); off = off + rows_values(template.value_weights@).len(); }
    let value_biases = take_vector(queue, template.value_biases.len());
    proof { lemma_take_then(q0, off, template.value_biases@.len() as int); off = off + template.value_biases@.len(); }
    let output_projection_weights = take_rows(queue, &template.output_projection_weights);
    proof { lemma_take_then(q0, off, rows_values(template.output_projection_weights@).len() as int); off = off + rows_values(template.output_projection_weights@).len(); }
    let output_projection_biases = take_vector(queue, template.output_projection_biases.len());
    proof { lemma_take_then(q0, off, template.output_projection_biases@.len() as int); }
    AttentionParameters {
        query_weights,
        query_biases,
        key_weights,
        key_biases,
        value_weights,
        value_biases,
        output_projection_weights,
        output_projection_biases,
    }
}

/// Takes the feed-forward parameters shaped like `template` from the front
/// of the queue, in flat order.
fn take_feed_forward<T, U>(queue: &mut Vec<U>, template: &FeedForwardParameters<T>) -> (f: FeedForwardParameters<U>)
    requires
        feed_forward_values(*template).len() <= queued(old(queue)@).len(),
    ensures
        same_feed_forward_shape(*template, f),
        feed_forward_values(f) == queued(old(queue)@).take(feed_forward_values(*template).len() as int),
        queued(final(queue)@) == queued(old(queue)@).skip(feed_forward_values(*template).len() as int),
{
    let ghost q0 = queued(queue@);
    let ghost mut off: int = 0;
    assert(q0.skip(0) =~= q0);
    assert(q0.take(0) =~= Seq::<U>::empty());
    let expansion_weights = take_rows(queue, &template.expansion_weights);
    proof { lemma_take_then(q0, off, rows_values(template.expansion_weights@).len() as int); off = off + rows_values(template.expansion_weights@).len(); }
    let expansion_biases = take_vector(queue, template.expansion_biases.len());
    proof { lemma_take_then(q0, off, template.expansion_biases@.len() as int); off = off + template.expansion_biases@.len(); }
    let gate_weights = take_rows(queue, &template.gate_weights);
    proof { lemma_take_then(q0, off, rows_values(template.gate_weights@).len() as int); off = off + rows_values(template.gate_weights@).len(); }
    let gate_biases = take_vector(queue, template.gate_biases.len());
    proof { lemma_take_then(q0, off, template.gate_biases@.len() as int); off = off + template.gate_biases@.len(); }
    let projection_weights = take_rows(queue, &template.projection_weights);
    proof { lemma_take_then(q0, off, rows_values(template.projection_weights@).len() as int); off = off + rows_values(template.projection_weights@).len(); }
    let projection_biases = take_vector(queue, template.projection_biases.len());
    proof { lemma_take_then(q0, off, template.projection_biases@.len() as int); }
    FeedForwardParameters {
        expansion_weights,
        expansion_biases,
        gate_weights,
        gate_biases,
        projection_weights,
        projection_biases,
    }
}

/// Takes one layer shaped like `template` from the front of the queue, in
/// flat order.
fn take_layer<T, U>(queue: &mut Vec<U>, template: &TransformerLayerParameters<T>) -> (l: TransformerLayerParameters<U>)
    requires
        layer_values(*template).len() <= queued(old(queue)@).len(),
    ensures
        same_layer_shape(*template, l),
        layer_values(l) == queued(old(queue)@).take(layer_values(*template).len() as int),
        queued(final(queue)@) == queued(old(queue)@).skip(layer_values(*template).len() as int),
{
    let ghost q0 = queued(queue@);
    let ghost mut off: int = 0;
    assert(q0.skip(0) =~= q0);
    assert(q0.take(0) =~= Seq::<U>::empty());
    let attention_norm_gain = take_vector(queue, template.attention_norm_gain.len());
    proof { lemma_take_then(q0, off, template.attention_norm_gain@.len() as int); off = off + template.attention_norm_gain@.len(); }
    let attention = take_attention(queue, &template.attention);
    proof { lemma_take_then(q0, off, attention_values(template.attention).len() as int); off = off + attention_values(template.attention).len(); }
    let feed_forward_norm_gain = take_vector(queue, template.feed_forward_norm_gain.len());
    proof { lemma_take_then(q0, off, template.feed_forward_norm_gain@.len() as int); off = off + template.feed_forward_norm_gain@.len(); }
    let feed_forward = take_feed_forward(queue, &template.feed_forward);
    proof { lemma_take_then(q0, off, feed_forward_values(template.feed_forward).len() as int); }
    TransformerLayerParameters { attention_norm_gain, attention, feed_forward_norm_gain, feed_forward }
}

proof fn lemma_layers_values_prefix<T>(layers: Seq<TransformerLayerParameters<T>>, i: int)
    requires
        0 <= i <= layers.len(),
    ensures
        layers_values(layers.take(i)).len() <= layers_values(layers).len(),
    decreases layers.len() - i,
{
    if i < layers.len() {
        lemma_layers_values_prefix(layers, i + 1);
        assert(layers.take(i + 1).drop_last() =~= layers.take(i));
    } else {
        assert(layers.take(i) =~= layers);
    }
}

/// Takes layers shaped like `template` from the front of the queue, layer
/// after layer.
fn take_layers<T, U>(queue: &mut Vec<U>, template: &Vec<TransformerLayerParameters<T>>) -> (layers: Vec<TransformerLayerParameters<U>>)
    requires
        layers_values(template@).len() <= queued(old(queue)@).len(),
    ensures
        layers@.len() == template@.len(),
        forall|i: int| #![trigger layers@[i]] 0 <= i < layers@.len() ==> same_layer_shape(template@[i], layers@[i]),
        layers_values(layers@) == queued(old(queue)@).take(layers_values(template@).len() as int),
        queued(final(queue)@) == queued(old(queue)@).skip(layers_values(template@).len() as int),
{
    let ghost q0 = queued(queue@);
    let ghost t = template@;
    let mut layers: Vec<TransformerLayerParameters<U>> = Vec::new();
    let mut i: usize = 0;
    assert(t.take(0) =~= Seq::<TransformerLayerParameters<T>>::empty());
    assert(q0.take(0) =~= Seq::<U>::empty());
    assert(q0.skip(0) =~= q0);
    while i < template.len()
        invariant
            i <= t.len(),
            t == template@,
            layers_values(t).len() <= q0.len(),
            layers@.len() == i,
            forall|j: int| #![trigger layers@[j]] 0 <= j < i ==> same_layer_shape(t[j], layers@[j]),
            layers_values(layers@) == q0.take(layers_values(t.take(i as int)).len() as int),
            queued(queue@) == q0.skip(layers_values(t.take(i as int)).len() as int),
        decreases t.len() - i,
    {
        let ghost offset = layers_values(t.take(i as int)).len() as int;
        proof {
            assert(t.take(i + 1).drop_last() =~= t.take(i as int));
            lemma_layers_values_prefix(t, i + 1);
        }
        let layer = take_layer(queue, &template[i]);
        proof {
            lemma_take_then(q0, offset, layer_values(t[i as int]).len() as int);
        }
        let ghost before = layers@;
        layers.push(layer);
        assert(layers@.drop_last() =~= before);
        i = i + 1;
    }
    assert(t.take(i as int) =~= t);
    layers
}

impl<T> TransformerModelParameters<T> {
    /// A model shaped like this one whose parameters, in the one flat order,
    /// are `values`: the inverse of `into_values`.
    pub fn with_values<U>(&self, values: Vec<U>) -> (m: TransformerModelParameters<U>)
        requires
            values@.len() == parameter_values(*self).len(),
        ensures
            same_parameter_shape(*self, m),
            parameter_values(m) == values@,
    {
        let ghost all = values@;
        let mut queue = into_queue(values);
        let ghost q0 = queued(queue@);
        let ghost mut off: int = 0;
        assert(q0.skip(0) =~= q0);
        assert(q0.take(0) =~= Seq::<U>::empty());
        let template = self;
        let token_embedding = take_rows(&mut queue, &template.token_embedding);
        proof { lemma_take_then(q0, off, rows_values(template.token_embedding@).len() as int); off = off + rows_values(template.token_embedding@).len(); }
        let position_embedding = take_rows(&mut queue, &template.position_embedding);
        proof { lemma_take_then(q0, off, rows_values(template.position_embedding@).len() as int); off = off + rows_values(template.position_embedding@).len(); }
        let language_model_head = take_rows(&mut queue, &template.language_model_head);
        proof { lemma_take_then(q0, off, rows_values(template.language_model_head@).len() as int); off = off + rows_values(template.language_model_head@).len(); }
        let language_model_head_biases = take_vector(&mut queue, template.language_model_head_biases.len());
        proof { lemma_take_then(q0, off, template.language_model_head_biases@.len() as int); off = off + template.language_model_head_biases@.len(); }
        let final_norm_gain = take_vector(&mut queue, template.final_norm_gain.len());
        proof { lemma_take_then(q0, off, template.final_norm_gain@.len() as int); off = off + template.final_norm_gain@.len(); }
        let layers = take_layers(&mut queue, &template.layers);
        proof {
            lemma_take_then(q0, off, layers_values(template.layers@).len() as int);
            assert(q0.take(q0.len() as int) =~= q0);
        }
        TransformerModelParameters {
            token_embedding,
            position_embedding,
            language_model_head,
            language_model_head_biases,
            final_norm_gain,
            layers,
        }
    }
}

// ---------------------------------------------------------------------------
// The flat order follows the checkpoint layout
// ---------------------------------------------------------------------------

/// The shape a matrix is saved with: its row count and the length of its
/// first row (0 without rows).
pub open spec fn rows_shape<T>(rows: Seq<Vec<T>>) -> Seq<usize> {
    seq![rows.len() as usize, if rows.len() > 0 { rows[0]@.len() as usize } else { 0 }]
}

/// The tensor shapes of the attention parameters, in flat order.
pub open spec fn attention_shapes<T>(a: AttentionParameters<T>) -> Seq<Seq<usize>> {
    seq![
        rows_shape(a.query_weights@), seq![a.query_biases@.len() as usize],
        rows_shape(a.key_weights@), seq![a.key_biases@.len() as usize],
        rows_shape(a.value_weights@), seq![a.value_biases@.len() as usize],
        rows_shape(a.output_projection_weights@), seq![a.output_projection_biases@.len() as usize],
    ]
}

/// The tensor shapes of the feed-forward parameters, in flat order.
pub open spec fn feed_forward_shapes<T>(f: FeedForwardParameters<T>) -> Seq<Seq<usize>> {
    seq![
        rows_shape(f.expansion_weights@), seq![f.expansion_biases@.len() as usize],
        rows_shape(f.gate_weights@), seq![f.gate_biases@.len() as usize],
        rows_shape(f.projection_weights@), seq![f.projection_biases@.len() as usize],
    ]
}

/// The tensor shapes of one layer, in flat order.
pub open spec fn layer_shapes<T>(l: TransformerLayerParameters<T>) -> Seq<Seq<usize>> {
    seq![seq![l.attention_norm_gain@.len() as usize]] + attention_shapes(l.attention) + seq![
        seq![l.feed_forward_norm_gain@.len() as usize],
    ] + feed_forward_shapes(l.feed_forward)
}

/// The tensor shapes of the layers, layer after layer.
pub open spec fn layers_shapes<T>(layers: Seq<TransformerLayerParameters<T>>) -> Seq<Seq<usize>>
    decreases layers.len(),
{
    if layers.len() == 0 {
        Seq::empty()
    } else {
        layers_shapes(layers.drop_last()) + layer_shapes(layers.last())
    }
}

/// The shapes of the model's tensors in the flat order of its values.
pub open spec fn parameter_shapes<T>(m: TransformerModelParameters<T>) -> Seq<Seq<usize>> {
    seq![
        rows_shape(m.token_embedding@), rows_shape(m.position_embedding@),
        rows_shape(m.language_model_head@), seq![m.language_model_head_biases@.len() as usize],
        seq![m.final_norm_gain@.len() as usize],
    ] + layers_shapes(m.layers@)
}

/// `rows` is a `row_count` by `column_count` matrix.
pub open spec fn is_matrix<T>(rows: Seq<Vec<T>>, row_count: nat, column_count: nat) -> bool {
    &&& rows.len() == row_count
    &&& forall|i: int| 0 <= i < rows.len() ==> #[trigger] rows[i]@.len() == column_count
}

/// A layer of embedding size `e` (feed-forward width `3 e`).
pub open spec fn has_layer_shape<T>(l: TransformerLayerParameters<T>, e: nat) -> bool {
    let f = 3 * e;
    &&& l.attention_norm_gain@.len() == e
    &&& is_matrix(l.attention.query_weights@, e, e) && l.attention.query_biases@.len() == e
    &&& is_matrix(l.attention.key_weights@, e, e) && l.attention.key_biases@.len() == e
    &&& is_matrix(l.attention.value_weights@, e, e) && l.attention.value_biases@.len() == e
    &&& is_matrix(l.attention.output_projection_weights@, e, e) && l.attention.output_projection_biases@.len() == e
    &&& l.feed_forward_norm_gain@.len() == e
    &&& is_matrix(l.feed_forward.expansion_weights@, f, e) && l.feed_forward.expansion_biases@.len() == f
    &&& is_matrix(l.feed_forward.gate_weights@, f, e) && l.feed_forward.gate_biases@.len() == f
    &&& is_matrix(l.feed_forward.projection_weights@, e, f) && l.feed_forward.projection_biases@.len() == e
}

/// A model of vocabulary size `v`, context window `c`, embedding size `e`
/// and `layer_count` layers.
pub open spec fn has_model_shape<T>(m: TransformerModelParameters<T>, v: nat, c: nat, e: nat, layer_count: nat) -> bool {
    &&& is_matrix(m.token_embedding@, v, e)
    &&& is_matrix(m.position_embedding@, c, e)
    &&& is_matrix(m.language_model_head@, v, e)
    &&& m.language_model_head_biases@.len() == v
    &&& m.final_norm_gain@.len() == e
    &&& m.layers@.len() == layer_count
    &&& forall|i: int| 0 <= i < m.layers@.len() ==> has_layer_shape(#[trigger] m.layers@[i], e)
}

proof fn lemma_matrix_parts<T>(rows: Seq<Vec<T>>, r: usize, c: usize)
    requires
        is_matrix(rows, r as nat, c as nat),
    ensures
        rows_shape(rows) == matrix_shape(r, c),
        rows_values(rows).len() == r * c,
    decreases rows.len(),
{
    if rows.len() > 0 {
        assert(rows[0]@.len() == c);
        let shorter = rows.drop_last();
        assert(is_matrix(shorter, (r - 1) as nat, c as nat)) by {
            assert forall|i: int| 0 <= i < shorter.len() implies #[trigger] shorter[i]@.len() == c by {
                assert(shorter[i] == rows[i]);
            }
        }
        lemma_matrix_parts(shorter, (r - 1) as usize, c);
        assert(rows.last()@.len() == c);
        assert((r - 1) * c + c == r * c) by (nonlinear_arith);
    }
    assert(rows_shape(rows) =~= matrix_shape(r, c));
}

proof fn lemma_layer_parts<T>(l: TransformerLayerParameters<T>, e: usize)
    requires
        3 * e <= usize::MAX,
        has_layer_shape(l, e as nat),
    ensures
        layer_shapes(l) == layer_parameter_shapes(e),
        layer_values(l).len() == layer_parameter_count(e as int),
{
    let f = (3 * e) as usize;
    lemma_matrix_parts(l.attention.query_weights@, e, e);
    lemma_matrix_parts(l.attention.key_weights@, e, e);
    lemma_matrix_parts(l.attention.value_weights@, e, e);
    lemma_matrix_parts(l.attention.output_projection_weights@, e, e);
    lemma_matrix_parts(l.feed_forward.expansion_weights@, f, e);
    lemma_matrix_parts(l.feed_forward.gate_weights@, f, e);
    lemma_matrix_parts(l.feed_forward.projection_weights@, e, f);
    assert(layer_shapes(l) =~= layer_parameter_shapes(e));
    let ei = e as int;
    assert(4 * (ei * ei + ei) + ei + ei + 2 * ((3 * ei) * ei + 3 * ei) + ei * (3 * ei) + ei
        == 13 * (ei * ei) + 13 * ei) by (nonlinear_arith);
}

proof fn lemma_layers_parts<T>(
    layers: Seq<TransformerLayerParameters<T>>,
    v: usize,
    c: usize,
    e: usize,
)
    requires
        3 * e <= usize::MAX,
        forall|i: int| 0 <= i < layers.len() ==> has_layer_shape(#[trigger] layers[i], e as nat),
    ensures
        model_parameter_shapes(v, c, e, 0) + layers_shapes(layers) == model_parameter_shapes(v, c, e, layers.len()),
        layers_values(layers).len() == layers.len() * layer_parameter_count(e as int),
    decreases layers.len(),
{
    if layers.len() == 0 {
        assert(model_parameter_shapes(v, c, e, 0) + layers_shapes(layers) =~= model_parameter_shapes(v, c, e, 0));
    } else {
        let shorter = layers.drop_last();
        assert forall|i: int| 0 <= i < shorter.len() implies has_layer_shape(#[trigger] shorter[i], e as nat) by {
            assert(shorter[i] == layers[i]);
        }
        lemma_layers_parts(shorter, v, c, e);
        lemma_layer_parts(layers.last(), e);
        assert(model_parameter_shapes(v, c, e, 0) + layers_shapes(layers) =~= (model_parameter_shapes(v, c, e, 0)
            + layers_shapes(shorter)) + layer_shapes(layers.last()));
        let n = layers.len() as int;
        let p = layer_parameter_count(e as int);
        assert((n - 1) * p + p == n * p) by (nonlinear_arith);
    }
}

/// The shapes of tensors given by their parts.
pub open spec fn part_shapes<T>(parts: Seq<(Seq<usize>, Seq<T>)>) -> Seq<Seq<usize>> {
    parts.map_values(|p: (Seq<usize>, Seq<T>)| p.0)
}

proof fn lemma_layers_part_shapes<T>(layers: Seq<TransformerLayerParameters<T>>)
    ensures
        part_shapes(layers_parts(layers)) == layers_shapes(layers),
    decreases layers.len(),
{
    if layers.len() > 0 {
        let shorter = layers.drop_last();
        lemma_layers_part_shapes(shorter);
        let l = layers.last();
        assert(part_shapes(layer_parts(l)) =~= layer_shapes(l));
        assert(part_shapes(layers_parts(shorter) + layer_parts(l)) =~= part_shapes(layers_parts(shorter))
            + part_shapes(layer_parts(l)));
    } else {
        assert(part_shapes(layers_parts(layers)) =~= layers_shapes(layers));
    }
}

proof fn lemma_parameter_part_shapes<T>(m: TransformerModelParameters<T>)
    ensures
        part_shapes(parameter_parts(m)) == parameter_shapes(m),
{
    lemma_layers_part_shapes(m.layers@);
    let head = seq![
        matrix_part(m.token_embedding@), matrix_part(m.position_embedding@),
        matrix_part(m.language_model_head@), vector_part(m.language_model_head_biases@),
        vector_part(m.final_norm_gain@),
    ];
    assert(part_shapes(head + layers_parts(m.layers@)) =~= part_shapes(head) + part_shapes(layers_parts(m.layers@)));
    assert(part_shapes(parameter_parts(m)) =~= parameter_shapes(m));
}

/// The one flat order of a model's values runs through its tensors in the
/// checkpoint layout: a model of vocabulary size `v`, context window `c`,
/// embedding size `e` and `layer_count` layers has the tensor shapes that
/// `model_parameter_shapes` lists, in that order, both as its flat order
/// runs and as its checkpoint tensors are saved, and as many values as the
/// parameter count.
pub proof fn lemma_parameter_order_is_checkpoint_layout<T>(
    m: TransformerModelParameters<T>,
    v: usize,
    c: usize,
    e: usize,
    layer_count: nat,
)
    requires
        3 * e <= usize::MAX,
        has_model_shape(m, v as nat, c as nat, e as nat, layer_count),
    ensures
        parameter_shapes(m) == model_parameter_shapes(v, c, e, layer_count),
        part_shapes(parameter_parts(m)) == model_parameter_shapes(v, c, e, layer_count),
        parameter_values(m).len() == model_parameter_count_spec(v as int, c as int, e as int, layer_count as int),
{
    lemma_parameter_part_shapes(m);
    lemma_matrix_parts(m.token_embedding@, v, e);
    lemma_matrix_parts(m.position_embedding@, c, e);
    lemma_matrix_parts(m.language_model_head@, v, e);
    lemma_layers_parts(m.layers@, v, c, e);
    assert(seq![
        rows_shape(m.token_embedding@), rows_shape(m.position_embedding@),
        rows_shape(m.language_model_head@), seq![m.language_model_head_biases@.len() as usize],
        seq![m.final_norm_gain@.len() as usize],
    ] =~= model_parameter_shapes(v, c, e, 0));
}

// ---------------------------------------------------------------------------
// Checkpoint tensors
// ---------------------------------------------------------------------------

/// A matrix as a saved tensor: its shape and its entries row after row.
pub open spec fn matrix_part<T>(rows: Seq<Vec<T>>) -> (Seq<usize>, Seq<T>) {
    (rows_shape(rows), rows_values(rows))
}

/// A vector as a saved tensor.
pub open spec fn vector_part<T>(values: Seq<T>) -> (Seq<usize>, Seq<T>) {
    (seq![values.len() as usize], values)
}

pub open spec fn attention_parts<T>(a: AttentionParameters<T>) -> Seq<(Seq<usize>, Seq<T>)> {
    seq![
        matrix_part(a.query_weights@), vector_part(a.query_biases@),
        matrix_part(a.key_weights@), vector_part(a.key_biases@),
        matrix_part(a.value_weights@), vector_part(a.value_biases@),
        matrix_part(a.output_projection_weights@), vector_part(a.output_projection_biases@),
    ]
}

pub open spec fn feed_forward_parts<T>(f: FeedForwardParameters<T>) -> Seq<(Seq<usize>, Seq<T>)> {
    seq![
        matrix_part(f.expansion_weights@), vector_part(f.expansion_biases@),
        matrix_part(f.gate_weights@), vector_part(f.gate_biases@),
        matrix_part(f.projection_weights@), vector_part(f.projection_biases@),
    ]
}

pub open spec fn layer_parts<T>(l: TransformerLayerParameters<T>) -> Seq<(Seq<usize>, Seq<T>)> {
    seq![vector_part(l.attention_norm_gain@)] + attention_parts(l.attention) + seq![
        vector_part(l.feed_forward_norm_gain@),
    ] + feed_forward_parts(l.feed_forward)
}

pub open spec fn layers_parts<T>(layers: Seq<TransformerLayerParameters<T>>) -> Seq<(Seq<usize>, Seq<T>)>
    decreases layers.len(),
{
    if layers.len() == 0 {
        Seq::empty()
    } else {
        layers_parts(layers.drop_last()) + layer_parts(layers.last())
    }
}

/// The model's tensors as a checkpoint saves them: shape and values of each,
/// in the one flat order.
pub open spec fn parameter_parts<T>(m: TransformerModelParameters<T>) -> Seq<(Seq<usize>, Seq<T>)> {
    seq![
        matrix_part(m.token_embedding@), matrix_part(m.position_embedding@),
        matrix_part(m.language_model_head@), vector_part(m.language_model_head_biases@),
        vector_part(m.final_norm_gain@),
    ] + layers_parts(m.layers@)
}

proof fn lemma_part_values_concat<T>(a: Seq<(Seq<usize>, Seq<T>)>, b: Seq<(Seq<usize>, Seq<T>)>)
    ensures
        part_values(a + b) == part_values(a) + part_values(b),
{
    assert((a + b).map_values(|p: (Seq<usize>, Seq<T>)| p.1) =~= a.map_values(|p: (Seq<usize>, Seq<T>)| p.1)
        + b.map_values(|p: (Seq<usize>, Seq<T>)| p.1));
    lemma_flatten_concat(a.map_values(|p: (Seq<usize>, Seq<T>)| p.1), b.map_values(|p: (Seq<usize>, Seq<T>)| p.1));
}

proof fn lemma_part_values_push<T>(a: Seq<(Seq<usize>, Seq<T>)>, x: (Seq<usize>, Seq<T>))
    ensures
        part_values(a.push(x)) == part_values(a) + x.1,
{
    assert(a.push(x).map_values(|p: (Seq<usize>, Seq<T>)| p.1) =~= a.map_values(|p: (Seq<usize>, Seq<T>)| p.1).push(x.1));
    a.map_values(|p: (Seq<usize>, Seq<T>)| p.1).lemma_flatten_push(x.1);
}

proof fn lemma_single_part_values<T>(x: (Seq<usize>, Seq<T>))
    ensures
        part_values(seq![x]) == x.1,
{
    let e = Seq::<(Seq<usize>, Seq<T>)>::empty();
    assert(e.map_values(|p: (Seq<usize>, Seq<T>)| p.1) =~= Seq::<Seq<T>>::empty());
    lemma_part_values_push(e, x);
    assert(e.push(x) =~= seq![x]);
    assert(Seq::<T>::empty() + x.1 =~= x.1);
}

proof fn lemma_attention_part_values<T>(a: AttentionParameters<T>)
    ensures
        part_values(attention_parts(a)) == attention_values(a),
{
    let parts = attention_parts(a);
    lemma_part_values_prefix(parts, 8);
    assert(parts.take(8) =~= parts);
    reveal_with_fuel(parts_values_upto, 9);
    assert(attention_values(a) =~= parts_values_upto(parts, 8));
}

proof fn lemma_feed_forward_part_values<T>(f: FeedForwardParameters<T>)
    ensures
        part_values(feed_forward_parts(f)) == feed_forward_values(f),
{
    let parts = feed_forward_parts(f);
    lemma_part_values_prefix(parts, 6);
    assert(parts.take(6) =~= parts);
    reveal_with_fuel(parts_values_upto, 7);
    assert(feed_forward_values(f) =~= parts_values_upto(parts, 6));
}

proof fn lemma_layer_part_values<T>(l: TransformerLayerParameters<T>)
    ensures
        part_values(layer_parts(l)) == layer_values(l),
{
    let first = seq![vector_part(l.attention_norm_gain@)];
    let middle = seq![vector_part(l.feed_forward_norm_gain@)];
    lemma_single_part_values(vector_part(l.attention_norm_gain@));
    lemma_single_part_values(vector_part(l.feed_forward_norm_gain@));
    lemma_attention_part_values(l.attention);
    lemma_feed_forward_part_values(l.feed_forward);
    lemma_part_values_concat(first, attention_parts(l.attention));
    lemma_part_values_concat(first + attention_parts(l.attention), middle);
    lemma_part_values_concat(first + attention_parts(l.attention) + middle, feed_forward_parts(l.feed_forward));
}

/// The values of the first `k` parts, concatenated from the front.
spec fn parts_values_upto<T>(parts: Seq<(Seq<usize>, Seq<T>)>, k: int) -> Seq<T>
    decreases k,
{
    if k <= 0 {
        Seq::empty()
    } else {
        parts_values_upto(parts, k - 1) + parts[k - 1].1
    }
}

proof fn lemma_part_values_prefix<T>(parts: Seq<(Seq<usize>, Seq<T>)>, k: int)
    requires
        0 <= k <= parts.len(),
    ensures
        part_values(parts.take(k)) == parts_values_upto(parts, k),
    decreases k,
{
    if k == 0 {
        assert(parts.take(0).map_values(|p: (Seq<usize>, Seq<T>)| p.1) =~= Seq::<Seq<T>>::empty());
    } else {
        lemma_part_values_prefix(parts, k - 1);
        assert(parts.take(k) =~= parts.take(k - 1).push(parts[k - 1]));
        lemma_part_values_push(parts.take(k - 1), parts[k - 1]);
    }
}


proof fn lemma_layers_part_values<T>(layers: Seq<TransformerLayerParameters<T>>)
    ensures
        part_values(layers_parts(layers)) == layers_values(layers),
    decreases layers.len(),
{
    if layers.len() == 0 {
        assert(layers_parts(layers).map_values(|p: (Seq<usize>, Seq<T>)| p.1) =~= Seq::<Seq<T>>::empty());
    } else {
        lemma_layers_part_values(layers.drop_last());
        lemma_layer_part_values(layers.last());
        lemma_part_values_concat(layers_parts(layers.drop_last()), layer_parts(layers.last()));
    }
}

/// A model's checkpoint tensors hold its values in the one flat order: their
/// values, tensor after tensor, are exactly the model's flat values.
pub proof fn lemma_parameter_parts_hold_values<T>(m: TransformerModelParameters<T>)
    ensures
        part_values(parameter_parts(m)) == parameter_values(m),
{
    let head = seq![
        matrix_part(m.token_embedding@), matrix_part(m.position_embedding@),
        matrix_part(m.language_model_head@), vector_part(m.language_model_head_biases@),
        vector_part(m.final_norm_gain@),
    ];
    lemma_part_values_prefix(head, 5);
    assert(head.take(5) =~= head);
    reveal_with_fuel(parts_values_upto, 6);
    lemma_layers_part_values(m.layers@);
    lemma_part_values_concat(head, layers_parts(m.layers@));
    assert(parameter_values(m) =~= parts_values_upto(head, 5) + layers_values(m.layers@));
}

/// Appends copies of a vector's entries.
fn push_vector<T: Copy>(out: &mut Vec<T>, values: &Vec<T>)
    ensures
        final(out)@ == old(out)@ + values@,
{
    let ghost start = out@;
    let mut i: usize = 0;
    while i < values.len()
        invariant
            i <= values@.len(),
            out@ == start + values@.take(i as int),
        decreases values@.len() - i,
    {
        out.push(values[i]);
        i = i + 1;
        assert(out@ =~= start + values@.take(i as int));
    }
    assert(values@.take(i as int) =~= values@);
}

/// Appends copies of a matrix's entries, row after row.
fn push_rows<T: Copy>(out: &mut Vec<T>, rows: &Vec<Vec<T>>)
    ensures
        final(out)@ == old(out)@ + rows_values(rows@),
{
    let ghost start = out@;
    let mut i: usize = 0;
    assert(rows@.take(0) =~= Seq::<Vec<T>>::empty());
    while i < rows.len()
        invariant
            i <= rows@.len(),
            out@ == start + rows_values(rows@.take(i as int)),
        decreases rows@.len() - i,
    {
        push_vector(out, &rows[i]);
        assert(rows@.take(i + 1).drop_last() =~= rows@.take(i as int));
        i = i + 1;
        assert(out@ =~= start + rows_values(rows@.take(i as int)));
    }
    assert(rows@.take(i as int) =~= rows@);
}

/// A matrix as a saved tensor.
fn matrix_tensor<T: Copy>(rows: &Vec<Vec<T>>) -> (tensor: CheckpointTensor<T>)
    ensures
        tensor_parts(tensor) == matrix_part(rows@),
{
    let mut values: Vec<T> = Vec::new();
    push_rows(&mut values, rows);
    let column_count: usize = if rows.len() > 0 { rows[0].len() } else { 0 };
    let tensor = CheckpointTensor { shape: vec![rows.len(), column_count], values };
    assert(tensor.shape@ =~= rows_shape(rows@));
    assert(values@ =~= Seq::<T>::empty() + rows_values(rows@));
    tensor
}

/// A vector as a saved tensor.
fn vector_tensor<T: Copy>(values: &Vec<T>) -> (tensor: CheckpointTensor<T>)
    ensures
        tensor_parts(tensor) == vector_part(values@),
{
    let mut copy: Vec<T> = Vec::new();
    push_vector(&mut copy, values);
    let tensor = CheckpointTensor { shape: vec![values.len()], values: copy };
    assert(tensor.shape@ =~= seq![values@.len() as usize]);
    assert(tensor.values@ =~= values@);
    tensor
}

fn push_tensor<T>(out: &mut Vec<CheckpointTensor<T>>, tensor: CheckpointTensor<T>)
    ensures
        tensors_parts(final(out)@) == tensors_parts(old(out)@).push(tensor_parts(tensor)),
{
    let ghost parts = tensor_parts(tensor);
    out.push(tensor);
    assert(tensors_parts(out@) =~= tensors_parts(old(out)@).push(parts));
}

fn push_attention_tensors<T: Copy>(out: &mut Vec<CheckpointTensor<T>>, a: &AttentionParameters<T>)
    ensures
        tensors_parts(final(out)@) == tensors_parts(old(out)@) + attention_parts(*a),
{
    let ghost start = tensors_parts(out@);
    push_tensor(out, matrix_tensor(&a.query_weights));
    push_tensor(out, vector_tensor(&a.query_biases));
    push_tensor(out, matrix_tensor(&a.key_weights));
    push_tensor(out, vector_tensor(&a.key_biases));
    push_tensor(out, matrix_tensor(&a.value_weights));
    push_tensor(out, vector_tensor(&a.value_biases));
    push_tensor(out, matrix_tensor(&a.output_projection_weights));
    push_tensor(out, vector_tensor(&a.output_projection_biases));
    assert(tensors_parts(out@) =~= start + attention_parts(*a));
}

fn push_feed_forward_tensors<T: Copy>(out: &mut Vec<CheckpointTensor<T>>, f: &FeedForwardParameters<T>)
    ensures
        tensors_parts(final(out)@) == tensors_parts(old(out)@) + feed_forward_parts(*f),
{
    let ghost start = tensors_parts(out@);
    push_tensor(out, matrix_tensor(&f.expansion_weights));
    push_tensor(out, vector_tensor(&f.expansion_biases));
    push_tensor(out, matrix_tensor(&f.gate_weights));
    push_tensor(out, vector_tensor(&f.gate_biases));
    push_tensor(out, matrix_tensor(&f.projection_weights));
    push_tensor(out, vector_tensor(&f.projection_biases));
    assert(tensors_parts(out@) =~= start + feed_forward_parts(*f));
}

fn push_layer_tensors<T: Copy>(out: &mut Vec<CheckpointTensor<T>>, l: &TransformerLayerParameters<T>)
    ensures
        tensors_parts(final(out)@) == tensors_parts(old(out)@) + layer_parts(*l),
{
    let ghost start = tensors_parts(out@);
    push_tensor(out, vector_tensor(&l.attention_norm_gain));
    push_attention_tensors(out, &l.attention);
    push_tensor(out, vector_tensor(&l.feed_forward_norm_gain));
    push_feed_forward_tensors(out, &l.feed_forward);
    assert(tensors_parts(out@) =~= start + layer_parts(*l));
}

impl<T: Copy> TransformerModelParameters<T> {
    /// The model's tensors as a checkpoint saves them: each matrix with shape
    /// `[rows, length of the first row]` and its entries row after row, each
    /// vector with shape `[length]`, in the one flat order.
    pub fn checkpoint_tensors(&self) -> (tensors: Vec<CheckpointTensor<T>>)
        ensures
            tensors_parts(tensors@) == parameter_parts(*self),
    {
        let mut tensors: Vec<CheckpointTensor<T>> = Vec::new();
        push_tensor(&mut tensors, matrix_tensor(&self.token_embedding));
        push_tensor(&mut tensors, matrix_tensor(&self.position_embedding));
        push_tensor(&mut tensors, matrix_tensor(&self.language_model_head));
        push_tensor(&mut tensors, vector_tensor(&self.language_model_head_biases));
        push_tensor(&mut tensors, vector_tensor(&self.final_norm_gain));
        let ghost head = tensors_parts(tensors@);
        let ghost layers = self.layers@;
        assert(layers.take(0) =~= Seq::<TransformerLayerParameters<T>>::empty());
        assert(head =~= seq![
            matrix_part(self.token_embedding@), matrix_part(self.position_embedding@),
            matrix_part(self.language_model_head@), vector_part(self.language_model_head_biases@),
            vector_part(self.final_norm_gain@),
        ]);
        let mut k: usize = 0;
        while k < self.layers.len()
            invariant
                k <= layers.len(),
                layers == self.layers@,
                tensors_parts(tensors@) == head + layers_parts(layers.take(k as int)),
            decreases layers.len() - k,
        {
            push_layer_tensors(&mut tensors, &self.layers[k]);
            assert(layers.take(k + 1).drop_last() =~= layers.take(k as int));
            k = k + 1;
            assert(tensors_parts(tensors@) =~= head + layers_parts(layers.take(k as int)));
        }
        assert(layers.take(k as int) =~= layers);
        tensors
    }

    /// All parameters in their one flat order.
    pub fn values(&self) -> (values: Vec<T>)
        ensures
            values@ == parameter_values(*self),
    {
        let tensors = self.checkpoint_tensors();
        let ghost parts = tensors_parts(tensors@);
        let mut values: Vec<T> = Vec::new();
        let mut i: usize = 0;
        assert(parts.take(0).map_values(|p: (Seq<usize>, Seq<T>)| p.1) =~= Seq::<Seq<T>>::empty());
        while i < tensors.len()
            invariant
                i <= tensors@.len(),
                parts == tensors_parts(tensors@),
                values@ == part_values(parts.take(i as int)),
            decreases tensors@.len() - i,
        {
            push_vector(&mut values, &tensors[i].values);
            proof {
                assert(parts.take(i + 1) =~= parts.take(i as int).push(parts[i as int]));
                lemma_part_values_push(parts.take(i as int), parts[i as int]);
            }
            i = i + 1;
        }
        assert(parts.take(i as int) =~= parts);
        proof {
            lemma_parameter_parts_hold_values(*self);
        }
        values
    }
}

// ---------------------------------------------------------------------------
// Counting
// ---------------------------------------------------------------------------

/// The number of entries of a matrix.
fn rows_value_count<T>(rows: &Vec<Vec<T>>) -> (count: usize)
    requires
        rows_values(rows@).len() <= usize::MAX,
    ensures
        count == rows_values(rows@).len(),
{
    let mut count: usize = 0;
    let mut i: usize = 0;
    assert(rows@.take(0) =~= Seq::<Vec<T>>::empty());
    while i < rows.len()
        invariant
            i <= rows@.len(),
            rows_values(rows@).len() <= usize::MAX,
            count == rows_values(rows@.take(i as int)).len(),
        decreases rows@.len() - i,
    {
        proof {
            lemma_rows_values_prefix(rows@, i + 1);
        }
        assert(rows@.take(i + 1).drop_last() =~= rows@.take(i as int));
        count = count + rows[i].len();
        i = i + 1;
    }
    assert(rows@.take(i as int) =~= rows@);
    count
}

fn attention_value_count<T>(a: &AttentionParameters<T>) -> (count: usize)
    requires
        attention_values(*a).len() <= usize::MAX,
    ensures
        count == attention_values(*a).len(),
{
    rows_value_count(&a.query_weights) + a.query_biases.len() + rows_value_count(&a.key_weights)
        + a.key_biases.len() + rows_value_count(&a.value_weights) + a.value_biases.len()
        + rows_value_count(&a.output_projection_weights) + a.output_projection_biases.len()
}

fn feed_forward_value_count<T>(f: &FeedForwardParameters<T>) -> (count: usize)
    requires
        feed_forward_values(*f).len() <= usize::MAX,
    ensures
        count == feed_forward_values(*f).len(),
{
    rows_value_count(&f.expansion_weights) + f.expansion_biases.len() + rows_value_count(&f.gate_weights)
        + f.gate_biases.len() + rows_value_count(&f.projection_weights) + f.projection_biases.len()
}

fn layer_value_count<T>(l: &TransformerLayerParameters<T>) -> (count: usize)
    requires
        layer_values(*l).len() <= usize::MAX,
    ensures
        count == layer_values(*l).len(),
{
    l.attention_norm_gain.len() + attention_value_count(&l.attention) + l.feed_forward_norm_gain.len()
        + feed_forward_value_count(&l.feed_forward)
}

impl<T> TransformerModelParameters<T> {
    /// The number of trainable values, the length of the flat order.
    pub fn parameter_count(&self) -> (count: usize)
        requires
            parameter_values(*self).len() <= usize::MAX,
        ensures
            count == parameter_values(*self).len(),
    {
        let mut count: usize = rows_value_count(&self.token_embedding) + rows_value_count(&self.position_embedding)
            + rows_value_count(&self.language_model_head) + self.language_model_head_biases.len()
            + self.final_norm_gain.len();
        let ghost head = count;
        let ghost layers = self.layers@;
        assert(layers.take(0) =~= Seq::<TransformerLayerParameters<T>>::empty());
        let mut k: usize = 0;
        while k < self.layers.len()
            invariant
                k <= layers.len(),
                layers == self.layers@,
                head + layers_values(layers).len() == parameter_values(*self).len(),
                parameter_values(*self).len() <= usize::MAX,
                count == head + layers_values(layers.take(k as int)).len(),
            decreases layers.len() - k,
        {
            proof {
                lemma_layers_values_prefix(layers, k + 1);
            }
            assert(layers.take(k + 1).drop_last() =~= layers.take(k as int));
            assert(layers.take(k + 1).last() == layers[k as int]);
            count = count + layer_value_count(&self.layers[k]);
            k = k + 1;
        }
        assert(layers.take(k as int) =~= layers);
        count
    }
}

// ---------------------------------------------------------------------------
// Saving and restoring a model
// ---------------------------------------------------------------------------

/// The shape and the value count of each part.
pub open spec fn part_sizes<T>(parts: Seq<(Seq<usize>, Seq<T>)>) -> Seq<(Seq<usize>, nat)> {
    parts.map_values(|p: (Seq<usize>, Seq<T>)| (p.0, p.1.len()))
}

/// Each part holds as many values as its shape has entries.
pub open spec fn parts_fit<T>(parts: Seq<(Seq<usize>, Seq<T>)>) -> bool {
    forall|i: int| 0 <= i < parts.len() ==> #[trigger] parts[i].1.len() == shape_product(parts[i].0)
}

proof fn lemma_part_sizes_concat<T, U>(
    a: Seq<(Seq<usize>, Seq<T>)>,
    b: Seq<(Seq<usize>, Seq<T>)>,
    c: Seq<(Seq<usize>, Seq<U>)>,
    d: Seq<(Seq<usize>, Seq<U>)>,
)
    requires
        part_sizes(a) == part_sizes(c),
        part_sizes(b) == part_sizes(d),
    ensures
        part_sizes(a + b) == part_sizes(c + d),
{
    assert(part_sizes(a + b) =~= part_sizes(a) + part_sizes(b));
    assert(part_sizes(c + d) =~= part_sizes(c) + part_sizes(d));
}

proof fn lemma_parts_fit_concat<T>(a: Seq<(Seq<usize>, Seq<T>)>, b: Seq<(Seq<usize>, Seq<T>)>)
    requires
        parts_fit(a),
        parts_fit(b),
    ensures
        parts_fit(a + b),
{
    assert forall|i: int| 0 <= i < (a + b).len() implies #[trigger] (a + b)[i].1.len() == shape_product((a + b)[i].0) by {
        if i < a.len() {
            assert((a + b)[i] == a[i]);
        } else {
            assert((a + b)[i] == b[i - a.len()]);
        }
    }
}

proof fn lemma_same_rows_sizes<T, U>(a: Seq<Vec<T>>, b: Seq<Vec<U>>)
    requires
        same_rows_shape(a, b),
    ensures
        rows_shape(a) == rows_shape(b),
        rows_values(a).len() == rows_values(b).len(),
    decreases a.len(),
{
    if a.len() > 0 {
        assert(a[0]@.len() == b[0]@.len());
        assert(a.last()@.len() == b.last()@.len());
        let (sa, sb) = (a.drop_last(), b.drop_last());
        assert forall|i: int| 0 <= i < sa.len() implies sa[i]@.len() == sb[i]@.len() by {
            assert(sa[i] == a[i] && sb[i] == b[i]);
        }
        lemma_same_rows_sizes(sa, sb);
    }
    assert(rows_shape(a) =~= rows_shape(b));
}

proof fn lemma_same_layer_sizes<T, U>(a: TransformerLayerParameters<T>, b: TransformerLayerParameters<U>)
    requires
        same_layer_shape(a, b),
    ensures
        part_sizes(layer_parts(a)) == part_sizes(layer_parts(b)),
{
    lemma_same_rows_sizes(a.attention.query_weights@, b.attention.query_weights@);
    lemma_same_rows_sizes(a.attention.key_weights@, b.attention.key_weights@);
    lemma_same_rows_sizes(a.attention.value_weights@, b.attention.value_weights@);
    lemma_same_rows_sizes(a.attention.output_projection_weights@, b.attention.output_projection_weights@);
    lemma_same_rows_sizes(a.feed_forward.expansion_weights@, b.feed_forward.expansion_weights@);
    lemma_same_rows_sizes(a.feed_forward.gate_weights@, b.feed_forward.gate_weights@);
    lemma_same_rows_sizes(a.feed_forward.projection_weights@, b.feed_forward.projection_weights@);
    assert(part_sizes(layer_parts(a)) =~= part_sizes(layer_parts(b)));
}

proof fn lemma_same_layers_sizes<T, U>(a: Seq<TransformerLayerParameters<T>>, b: Seq<TransformerLayerParameters<U>>)
    requires
        a.len() == b.len(),
        forall|i: int| 0 <= i < a.len() ==> same_layer_shape(#[trigger] a[i], b[i]),
    ensures
        part_sizes(layers_parts(a)) == part_sizes(layers_parts(b)),
    decreases a.len(),
{
    if a.len() > 0 {
        let (sa, sb) = (a.drop_last(), b.drop_last());
        assert forall|i: int| 0 <= i < sa.len() implies same_layer_shape(#[trigger] sa[i], sb[i]) by {
            assert(sa[i] == a[i] && sb[i] == b[i]);
        }
        lemma_same_layers_sizes(sa, sb);
        lemma_same_layer_sizes(a.last(), b.last());
        lemma_part_sizes_concat(layers_parts(sa), layer_parts(a.last()), layers_parts(sb), layer_parts(b.last()));
    } else {
        assert(part_sizes(layers_parts(a)) =~= part_sizes(layers_parts(b)));
    }
}

proof fn lemma_same_parameter_sizes<T, U>(a: TransformerModelParameters<T>, b: TransformerModelParameters<U>)
    requires
        same_parameter_shape(a, b),
    ensures
        part_sizes(parameter_parts(a)) == part_sizes(parameter_parts(b)),
{
    lemma_same_rows_sizes(a.token_embedding@, b.token_embedding@);
    lemma_same_rows_sizes(a.position_embedding@, b.position_embedding@);
    lemma_same_rows_sizes(a.language_model_head@, b.language_model_head@);
    lemma_same_layers_sizes(a.layers@, b.layers@);
    let head_a = seq![
        matrix_part(a.token_embedding@), matrix_part(a.position_embedding@),
        matrix_part(a.language_model_head@), vector_part(a.language_model_head_biases@),
        vector_part(a.final_norm_gain@),
    ];
    let head_b = seq![
        matrix_part(b.token_embedding@), matrix_part(b.position_embedding@),
        matrix_part(b.language_model_head@), vector_part(b.language_model_head_biases@),
        vector_part(b.final_norm_gain@),
    ];
    assert(part_sizes(head_a) =~= part_sizes(head_b));
    lemma_part_sizes_concat(head_a, layers_parts(a.layers@), head_b, layers_parts(b.layers@));
}

proof fn lemma_matrix_part_fits<T>(rows: Seq<Vec<T>>, r: usize, c: usize)
    requires
        is_matrix(rows, r as nat, c as nat),
    ensures
        matrix_part(rows).1.len() == shape_product(matrix_part(rows).0),
{
    lemma_matrix_parts(rows, r, c);
    let shape = rows_shape(rows);
    assert(shape == matrix_shape(r, c));
    assert(shape.drop_last().drop_last() =~= Seq::<usize>::empty());
    assert(shape.drop_last() =~= seq![r]);
    assert(shape_product(shape.drop_last().drop_last()) == 1);
    assert(shape_product(shape.drop_last()) == r);
    assert(shape_product(shape) == r * shape.last());
    if r == 0 {
        assert(r * c == 0);
    }
    assert(shape_product(shape) == r * c);
}

proof fn lemma_vector_part_fits<T>(values: Seq<T>, n: usize)
    requires
        values.len() == n,
    ensures
        vector_part(values).1.len() == shape_product(vector_part(values).0),
{
    let shape = vector_part(values).0;
    assert(shape.drop_last() =~= Seq::<usize>::empty());
    assert(shape_product(shape.drop_last()) == 1);
    assert(shape.last() == n);
}

proof fn lemma_layer_parts_fit<T>(l: TransformerLayerParameters<T>, e: usize)
    requires
        3 * e <= usize::MAX,
        has_layer_shape(l, e as nat),
    ensures
        parts_fit(layer_parts(l)),
{
    let f = (3 * e) as usize;
    lemma_vector_part_fits(l.attention_norm_gain@, e);
    lemma_matrix_part_fits(l.attention.query_weights@, e, e);
    lemma_vector_part_fits(l.attention.query_biases@, e);
    lemma_matrix_part_fits(l.attention.key_weights@, e, e);
    lemma_vector_part_fits(l.attention.key_biases@, e);
    lemma_matrix_part_fits(l.attention.value_weights@, e, e);
    lemma_vector_part_fits(l.attention.value_biases@, e);
    lemma_matrix_part_fits(l.attention.output_projection_weights@, e, e);
    lemma_vector_part_fits(l.attention.output_projection_biases@, e);
    lemma_vector_part_fits(l.feed_forward_norm_gain@, e);
    lemma_matrix_part_fits(l.feed_forward.expansion_weights@, f, e);
    lemma_vector_part_fits(l.feed_forward.expansion_biases@, f);
    lemma_matrix_part_fits(l.feed_forward.gate_weights@, f, e);
    lemma_vector_part_fits(l.feed_forward.gate_biases@, f);
    lemma_matrix_part_fits(l.feed_forward.projection_weights@, e, f);
    lemma_vector_part_fits(l.feed_forward.projection_biases@, e);
    let parts = layer_parts(l);
    assert(parts =~= seq![
        vector_part(l.attention_norm_gain@),
        matrix_part(l.attention.query_weights@), vector_part(l.attention.query_biases@),
        matrix_part(l.attention.key_weights@), vector_part(l.attention.key_biases@),
        matrix_part(l.attention.value_weights@), vector_part(l.attention.value_biases@),
        matrix_part(l.attention.output_projection_weights@), vector_part(l.attention.output_projection_biases@),
        vector_part(l.feed_forward_norm_gain@),
        matrix_part(l.feed_forward.expansion_weights@), vector_part(l.feed_forward.expansion_biases@),
        matrix_part(l.feed_forward.gate_weights@), vector_part(l.feed_forward.gate_biases@),
        matrix_part(l.feed_forward.projection_weights@), vector_part(l.feed_forward.projection_biases@),
    ]);
}

proof fn lemma_layers_parts_fit<T>(layers: Seq<TransformerLayerParameters<T>>, e: usize)
    requires
        3 * e <= usize::MAX,
        forall|i: int| 0 <= i < layers.len() ==> has_layer_shape(#[trigger] layers[i], e as nat),
    ensures
        parts_fit(layers_parts(layers)),
    decreases layers.len(),
{
    if layers.len() > 0 {
        let shorter = layers.drop_last();
        assert forall|i: int| 0 <= i < shorter.len() implies has_layer_shape(#[trigger] shorter[i], e as nat) by {
            assert(shorter[i] == layers[i]);
        }
        lemma_layers_parts_fit(shorter, e);
        lemma_layer_parts_fit(layers.last(), e);
        lemma_parts_fit_concat(layers_parts(shorter), layer_parts(layers.last()));
    }
}

proof fn lemma_parameter_parts_fit<T>(m: TransformerModelParameters<T>, v: usize, c: usize, e: usize, layer_count: nat)
    requires
        3 * e <= usize::MAX,
        has_model_shape(m, v as nat, c as nat, e as nat, layer_count),
    ensures
        parts_fit(parameter_parts(m)),
{
    lemma_matrix_part_fits(m.token_embedding@, v, e);
    lemma_matrix_part_fits(m.position_embedding@, c, e);
    lemma_matrix_part_fits(m.language_model_head@, v, e);
    lemma_vector_part_fits(m.language_model_head_biases@, v);
    lemma_vector_part_fits(m.final_norm_gain@, e);
    lemma_layers_parts_fit(m.layers@, e);
    let head = seq![
        matrix_part(m.token_embedding@), matrix_part(m.position_embedding@),
        matrix_part(m.language_model_head@), vector_part(m.language_model_head_biases@),
        vector_part(m.final_norm_gain@),
    ];
    lemma_parts_fit_concat(head, layers_parts(m.layers@));
}

/// Saving a model and restoring it gives its values back: the checkpoint
/// tensors of a model, read against the checkpoint tensors of a template of
/// the same shape (vocabulary size `v`, context window `c`, embedding size
/// `e`, `layer_count` layers), pass every check and restore the model's
/// values in the one flat order, beside the optimizer moments that were
/// saved with them; rebuilding the template from those values with
/// `with_values` then gives the saved model's values in its shape.
pub proof fn lemma_model_checkpoint_roundtrip<T>(
    saved: TransformerModelParameters<T>,
    template: TransformerModelParameters<T>,
    v: usize,
    c: usize,
    e: usize,
    layer_count: nat,
    parameters: Seq<CheckpointTensor<T>>,
    expected: Seq<CheckpointTensor<T>>,
    first_moment_tensors: Seq<CheckpointTensor<T>>,
    second_moment_tensors: Seq<CheckpointTensor<T>>,
    first_moments: Seq<T>,
    second_moments: Seq<T>,
    parameter_fill: T,
    moment_fill: T,
)
    requires
        3 * e <= usize::MAX,
        has_model_shape(template, v as nat, c as nat, e as nat, layer_count),
        same_parameter_shape(template, saved),
        tensors_parts(parameters) == parameter_parts(saved),
        tensors_parts(expected) == parameter_parts(template),
        first_moments.len() == value_count_total(expected),
        second_moments.len() == value_count_total(expected),
        tensors_parts(first_moment_tensors) == split_into_tensors(first_moments, expected),
        tensors_parts(second_moment_tensors) == split_into_tensors(second_moments, expected),
    ensures
        restore_outcome(
            parameters,
            first_moment_tensors,
            second_moment_tensors,
            expected,
            layer_count,
            parameter_fill,
            moment_fill,
        ) == Ok::<(Seq<T>, Seq<T>, Seq<T>), Seq<char>>((parameter_values(saved), first_moments, second_moments)),
{
    lemma_same_parameter_sizes(template, saved);
    lemma_parameter_parts_fit(template, v, c, e, layer_count);
    let saved_parts = parameter_parts(saved);
    let template_parts = parameter_parts(template);
    assert(part_sizes(saved_parts).len() == saved_parts.len());
    assert(parameters.len() == expected.len());
    assert forall|i: int| 0 <= i < expected.len() implies #[trigger] expected[i].values@.len() == shape_product(
        expected[i].shape@,
    ) by {
        assert(tensors_parts(expected)[i] == tensor_parts(expected[i]));
        assert(template_parts[i].1.len() == shape_product(template_parts[i].0));
    }
    assert forall|i: int| 0 <= i < parameters.len() implies tensor_fault(i as nat, #[trigger] parameters[i], expected[i])
        is None by {
        assert(tensors_parts(expected)[i] == tensor_parts(expected[i]));
        assert(tensors_parts(parameters)[i] == tensor_parts(parameters[i]));
        assert(part_sizes(saved_parts)[i] == part_sizes(template_parts)[i]);
        assert(template_parts[i].1.len() == shape_product(template_parts[i].0));
    }
    lemma_checkpoint_state_roundtrip(
        parameters,
        first_moment_tensors,
        second_moment_tensors,
        first_moments,
        second_moments,
        expected,
        layer_count,
        parameter_fill,
        moment_fill,
    );
    lemma_values_by_parts(parameters);
    lemma_parameter_parts_hold_values(saved);
}

} // verus!
