use vstd::prelude::*;
use std::collections::HashMap;
use crate::text::chars_of;
use crate::checkpoint::shape_product;

verus! {

// ---------------------------------------------------------------------------
// Transformer shape
// ---------------------------------------------------------------------------

/// The shape of the Transformer: layers, embedding width, context length and
/// attention heads. The embedding splits evenly over the heads.
#[derive(Clone, Copy, Debug, PartialEq, Eq, Structural)]
pub struct TransformerConfig {
    pub layer_count: usize,
    pub embedding_size: usize,
    pub context_window_size: usize,
    pub attention_head_count: usize,
    pub attention_head_size: usize,
}

impl TransformerConfig {
    /// The configuration is internally consistent: every size is positive and
    /// the heads split the embedding evenly.
    pub open spec fn wf(&self) -> bool {
        &&& self.layer_count > 0
        &&& self.embedding_size > 0
        &&& self.context_window_size > 0
        &&& self.attention_head_count > 0
        &&& self.attention_head_size * self.attention_head_count == self.embedding_size
    }

    /// A configuration with the given sizes, or the first size that is not
    /// positive, or an error if the embedding does not split evenly over the
    /// heads. The head size is the embedding size divided by the head count.
    pub fn new(
        layer_count: usize,
        embedding_size: usize,
        context_window_size: usize,
        attention_head_count: usize,
    ) -> (config: Result<Self, String>)
        ensures
            layer_count == 0 ==> (config matches Err(m) && m@ == "layer_count must be positive"@),
            layer_count > 0 && embedding_size == 0 ==> (config matches Err(m) && m@
                == "embedding_size must be positive"@),
            layer_count > 0 && embedding_size > 0 && context_window_size == 0 ==> (config matches Err(m)
                && m@ == "context_window_size must be positive"@),
            layer_count > 0 && embedding_size > 0 && context_window_size > 0 && attention_head_count
                == 0 ==> (config matches Err(m) && m@ == "attention_head_count must be positive"@),
            layer_count > 0 && embedding_size > 0 && context_window_size > 0 && attention_head_count > 0
                && embedding_size % attention_head_count != 0 ==> (config matches Err(m) && m@
                == "embedding_size must be divisible by attention_head_count"@),
            config is Ok <==> (layer_count > 0 && embedding_size > 0 && context_window_size > 0
                && attention_head_count > 0 && embedding_size % attention_head_count == 0),
            config matches Ok(c) ==> c.wf() && c.layer_count == layer_count && c.embedding_size
                == embedding_size && c.context_window_size == context_window_size
                && c.attention_head_count == attention_head_count && c.attention_head_size
                == embedding_size / attention_head_count,
    {
        if layer_count == 0 {
            return Err(String::from_str("layer_count must be positive"));
        }
        if embedding_size == 0 {
            return Err(String::from_str("embedding_size must be positive"));
        }
        if context_window_size == 0 {
            return Err(String::from_str("context_window_size must be positive"));
        }
        if attention_head_count == 0 {
            return Err(String::from_str("attention_head_count must be positive"));
        }
        if embedding_size % attention_head_count != 0 {
            return Err(String::from_str("embedding_size must be divisible by attention_head_count"));
        }
        let attention_head_size = embedding_size / attention_head_count;
        proof {
            vstd::arithmetic::div_mod::lemma_fundamental_div_mod(embedding_size as int, attention_head_count as int);
            vstd::arithmetic::mul::lemma_mul_is_commutative(attention_head_size as int, attention_head_count as int);
        }
        Ok(TransformerConfig {
            layer_count,
            embedding_size,
            context_window_size,
            attention_head_count,
            attention_head_size,
        })
    }
}

// ---------------------------------------------------------------------------
// Parameter layout
// ---------------------------------------------------------------------------

/// The shape a weight matrix is saved with: its row count, and the length
/// of its rows (0 when it has no rows).
pub open spec fn matrix_shape(rows: usize, columns: usize) -> Seq<usize> {
    seq![rows, if rows > 0 { columns } else { 0 }]
}

/// The shapes of the sixteen parameter tensors of one Transformer layer, in
/// saving order: attention norm gain; query, key, value and output weights
/// each followed by their biases; feed-forward norm gain; expansion, gate
/// and projection weights each followed by their biases. The feed-forward
/// width is three times the embedding size.
pub open spec fn layer_parameter_shapes(embedding_size: usize) -> Seq<Seq<usize>> {
    let e = embedding_size;
    let f = (3 * embedding_size) as usize;
    seq![
        seq![e], matrix_shape(e, e), seq![e], matrix_shape(e, e), seq![e], matrix_shape(e, e), seq![e],
        matrix_shape(e, e), seq![e], seq![e], matrix_shape(f, e), seq![f], matrix_shape(f, e), seq![f],
        matrix_shape(e, f), seq![e],
    ]
}

/// The shapes of all parameter tensors of a model, in saving order: token
/// embedding, position embedding, language-model head and its biases,
/// final norm gain, then the tensors of each layer.
pub open spec fn model_parameter_shapes(
    vocabulary_size: usize,
    context_window_size: usize,
    embedding_size: usize,
    layers: nat,
) -> Seq<Seq<usize>>
    decreases layers,
{
    if layers == 0 {
        seq![
            matrix_shape(vocabulary_size, embedding_size),
            matrix_shape(context_window_size, embedding_size),
            matrix_shape(vocabulary_size, embedding_size),
            seq![vocabulary_size],
            seq![embedding_size],
        ]
    } else {
        model_parameter_shapes(vocabulary_size, context_window_size, embedding_size, (layers - 1) as nat)
            + layer_parameter_shapes(embedding_size)
    }
}

fn vector_shape(size: usize) -> (shape: Vec<usize>)
    ensures
        shape@ == seq![size],
{
    let mut shape: Vec<usize> = Vec::new();
    shape.push(size);
    assert(shape@ =~= seq![size]);
    shape
}

fn matrix_shape_of(rows: usize, columns: usize) -> (shape: Vec<usize>)
    ensures
        shape@ == matrix_shape(rows, columns),
{
    let mut shape: Vec<usize> = Vec::new();
    shape.push(rows);
    shape.push(if rows > 0 { columns } else { 0 });
    assert(shape@ =~= matrix_shape(rows, columns));
    shape
}

/// The shapes of the parameter tensors of a model with the given sizes, in
/// the order checkpoints store them.
pub fn parameter_tensor_shapes(
    vocabulary_size: usize,
    context_window_size: usize,
    embedding_size: usize,
    layer_count: usize,
) -> (shapes: Vec<Vec<usize>>)
    requires
        3 * embedding_size <= usize::MAX,
    ensures
        shapes@.map_values(|shape: Vec<usize>| shape@) == model_parameter_shapes(
            vocabulary_size,
            context_window_size,
            embedding_size,
            layer_count as nat,
        ),
{
    let e = embedding_size;
    let f = 3 * embedding_size;
    let mut shapes: Vec<Vec<usize>> = Vec::new();
    shapes.push(matrix_shape_of(vocabulary_size, e));
    shapes.push(matrix_shape_of(context_window_size, e));
    shapes.push(matrix_shape_of(vocabulary_size, e));
    shapes.push(vector_shape(vocabulary_size));
    shapes.push(vector_shape(e));
    assert(shapes@.map_values(|shape: Vec<usize>| shape@) =~= model_parameter_shapes(vocabulary_size, context_window_size, e, 0));
    let mut layer: usize = 0;
    while layer < layer_count
        invariant
            layer <= layer_count,
            e == embedding_size,
            f == 3 * embedding_size,
            shapes@.map_values(|shape: Vec<usize>| shape@) == model_parameter_shapes(
                vocabulary_size,
                context_window_size,
                e,
                layer as nat,
            ),
        decreases layer_count - layer,
    {
        let ghost before = shapes@.map_values(|shape: Vec<usize>| shape@);
        shapes.push(vector_shape(e));
        shapes.push(matrix_shape_of(e, e));
        shapes.push(vector_shape(e));
        shapes.push(matrix_shape_of(e, e));
        shapes.push(vector_shape(e));
        shapes.push(matrix_shape_of(e, e));
        shapes.push(vector_shape(e));
        shapes.push(matrix_shape_of(e, e));
        shapes.push(vector_shape(e));
        shapes.push(vector_shape(e));
        shapes.push(matrix_shape_of(f, e));
        shapes.push(vector_shape(f));
        shapes.push(matrix_shape_of(f, e));
        shapes.push(vector_shape(f));
        shapes.push(matrix_shape_of(e, f));
        shapes.push(vector_shape(e));
        assert(shapes@.map_values(|shape: Vec<usize>| shape@) =~= before + layer_parameter_shapes(e));
        layer = layer + 1;
    }
    shapes
}

/// A model of `layer_count` layers saves five tensors before its layers
/// and sixteen per layer.
pub proof fn lemma_model_parameter_count(
    vocabulary_size: usize,
    context_window_size: usize,
    embedding_size: usize,
    layers: nat,
)
    ensures
        model_parameter_shapes(vocabulary_size, context_window_size, embedding_size, layers).len() == 5 + 16 * layers,
    decreases layers,
{
    if layers > 0 {
        lemma_model_parameter_count(vocabulary_size, context_window_size, embedding_size, (layers - 1) as nat);
    }
}

/// The number of values the tensors of these shapes hold together.
pub open spec fn shapes_value_total(shapes: Seq<Seq<usize>>) -> int
    decreases shapes.len(),
{
    if shapes.len() == 0 {
        0
    } else {
        shapes_value_total(shapes.drop_last()) + shape_product(shapes.last())
    }
}

/// The number of parameters of one layer: `13 e^2 + 13 e` for embedding
/// size `e`.
pub open spec fn layer_parameter_count(embedding_size: int) -> int {
    13 * (embedding_size * embedding_size) + 13 * embedding_size
}

/// The number of parameters of a model: the embeddings and the head
/// (`2 v e + c e + v + e`) and the layers.
pub open spec fn model_parameter_count_spec(
    vocabulary_size: int,
    context_window_size: int,
    embedding_size: int,
    layers: int,
) -> int {
    2 * (vocabulary_size * embedding_size) + context_window_size * embedding_size + vocabulary_size
        + embedding_size + layers * layer_parameter_count(embedding_size)
}

proof fn lemma_shapes_total_concat(a: Seq<Seq<usize>>, b: Seq<Seq<usize>>)
    ensures
        shapes_value_total(a + b) == shapes_value_total(a) + shapes_value_total(b),
    decreases b.len(),
{
    if b.len() == 0 {
        assert(a + b =~= a);
    } else {
        lemma_shapes_total_concat(a, b.drop_last());
        assert((a + b).drop_last() =~= a + b.drop_last());
        assert((a + b).last() == b.last());
    }
}

proof fn lemma_vector_product(n: usize)
    ensures
        shape_product(seq![n]) == n,
{
    assert(seq![n].drop_last() =~= Seq::<usize>::empty());
    assert(shape_product(Seq::<usize>::empty()) == 1);
    assert(seq![n].last() == n);
}

proof fn lemma_matrix_product(rows: usize, columns: usize)
    ensures
        shape_product(matrix_shape(rows, columns)) == rows * columns,
{
    let m = matrix_shape(rows, columns);
    assert(m.drop_last() =~= seq![rows]);
    assert(m.last() == if rows > 0 { columns } else { 0 });
    lemma_vector_product(rows);
    if rows == 0 {
        assert(rows * columns == 0);
    }
}

/// The sizes of the first `k` tensors of `shapes`, summed from the front.
spec fn product_sum(shapes: Seq<Seq<usize>>, k: int) -> int
    decreases k,
{
    if k <= 0 {
        0
    } else {
        product_sum(shapes, k - 1) + shape_product(shapes[k - 1])
    }
}

/// The first `k` tensors hold `product_sum(shapes, k)` values.
proof fn lemma_total_take(shapes: Seq<Seq<usize>>, k: int)
    requires
        0 <= k <= shapes.len(),
    ensures
        shapes_value_total(shapes.take(k)) == product_sum(shapes, k),
    decreases k,
{
    if k == 0 {
        assert(shapes.take(0) =~= Seq::<Seq<usize>>::empty());
    } else {
        lemma_total_take(shapes, k - 1);
        assert(shapes.take(k).drop_last() =~= shapes.take(k - 1));
    }
}

proof fn lemma_layer_total(embedding_size: usize)
    requires
        3 * embedding_size <= usize::MAX,
    ensures
        shapes_value_total(layer_parameter_shapes(embedding_size)) == layer_parameter_count(embedding_size as int),
{
    let e = embedding_size;
    let f = (3 * embedding_size) as usize;
    let s = layer_parameter_shapes(e);
    lemma_vector_product(e);
    lemma_vector_product(f);
    lemma_matrix_product(e, e);
    lemma_matrix_product(f, e);
    lemma_matrix_product(e, f);
    lemma_total_take(s, 16);
    assert(s.take(16) =~= s);
    reveal_with_fuel(product_sum, 17);
    let total = shapes_value_total(s);
    let ei = e as int;
    assert(total == 4 * ei + 4 * (ei * ei) + ei + ei + 2 * (f * ei) + 2 * (f as int) + ei * (f as int) + ei);
    assert(4 * ei + 4 * (ei * ei) + ei + ei + 2 * ((3 * ei) * ei) + 2 * (3 * ei) + ei * (3 * ei) + ei
        == 13 * (ei * ei) + 13 * ei) by (nonlinear_arith);
}

/// The parameter tensors of a model hold `model_parameter_count_spec` values
/// together.
pub proof fn lemma_model_parameter_total(
    vocabulary_size: usize,
    context_window_size: usize,
    embedding_size: usize,
    layers: nat,
)
    requires
        3 * embedding_size <= usize::MAX,
    ensures
        shapes_value_total(model_parameter_shapes(vocabulary_size, context_window_size, embedding_size, layers))
            == model_parameter_count_spec(vocabulary_size as int, context_window_size as int, embedding_size as int, layers as int),
    decreases layers,
{
    let v = vocabulary_size;
    let c = context_window_size;
    let e = embedding_size;
    if layers == 0 {
        let s = model_parameter_shapes(v, c, e, 0);
        lemma_matrix_product(v, e);
        lemma_matrix_product(c, e);
        lemma_vector_product(v);
        lemma_vector_product(e);
        reveal_with_fuel(shapes_value_total, 6);
        assert(s.drop_last().drop_last().drop_last().drop_last().drop_last() =~= Seq::<Seq<usize>>::empty());
    } else {
        lemma_model_parameter_total(v, c, e, (layers - 1) as nat);
        lemma_shapes_total_concat(model_parameter_shapes(v, c, e, (layers - 1) as nat), layer_parameter_shapes(e));
        lemma_layer_total(e);
        let l = layers as int;
        let p = layer_parameter_count(e as int);
        assert((l - 1) * p + p == l * p) by (nonlinear_arith);
    }
}

/// The number of parameters of a model with these sizes, or `None` when it
/// does not fit a `usize`.
pub fn checked_model_parameter_count(
    vocabulary_size: usize,
    context_window_size: usize,
    embedding_size: usize,
    layer_count: usize,
) -> (count: Option<usize>)
    ensures
        ({
            let total = model_parameter_count_spec(
                vocabulary_size as int,
                context_window_size as int,
                embedding_size as int,
                layer_count as int,
            );
            &&& total <= usize::MAX ==> count == Some(total as usize)
            &&& total > usize::MAX ==> count is None
        }),
{
    let (v, c, e, l) = (vocabulary_size, context_window_size, embedding_size, layer_count);
    let ghost total = model_parameter_count_spec(v as int, c as int, e as int, l as int);
    let ghost (vi, ci, ei, li) = (v as int, c as int, e as int, l as int);
    proof {
        assert(0 <= vi * ei && 0 <= ci * ei && 0 <= ei * ei && 0 <= li * (13 * (ei * ei) + 13 * ei)) by (nonlinear_arith)
            requires vi >= 0, ci >= 0, ei >= 0, li >= 0;
        assert(l == 0 || 13 * (ei * ei) + 13 * ei <= li * (13 * (ei * ei) + 13 * ei)) by (nonlinear_arith)
            requires li >= 0, ei >= 0, li == l;
    }
    let ve = match v.checked_mul(e) {
        Some(x) => x,
        None => return None,
    };
    let two_ve = match ve.checked_mul(2) {
        Some(x) => x,
        None => return None,
    };
    let ce = match c.checked_mul(e) {
        Some(x) => x,
        None => return None,
    };
    let embeddings = match two_ve.checked_add(ce) {
        Some(x) => match x.checked_add(v) {
            Some(y) => match y.checked_add(e) {
                Some(z) => z,
                None => return None,
            },
            None => return None,
        },
        None => return None,
    };
    if l == 0 {
        return Some(embeddings);
    }
    let ee = match e.checked_mul(e) {
        Some(x) => x,
        None => return None,
    };
    let per_layer = match ee.checked_mul(13) {
        Some(x) => match e.checked_mul(13) {
            Some(y) => match x.checked_add(y) {
                Some(z) => z,
                None => return None,
            },
            None => return None,
        },
        None => return None,
    };
    let layers = match l.checked_mul(per_layer) {
        Some(x) => x,
        None => return None,
    };
    embeddings.checked_add(layers)
}

/// The number of parameters of a model with these sizes: the number of
/// values its parameter tensors hold.
pub fn model_parameter_count(
    vocabulary_size: usize,
    context_window_size: usize,
    embedding_size: usize,
    layer_count: usize,
) -> (count: usize)
    requires
        3 * embedding_size <= usize::MAX,
        model_parameter_count_spec(vocabulary_size as int, context_window_size as int, embedding_size as int, layer_count as int)
            <= usize::MAX,
    ensures
        count == model_parameter_count_spec(vocabulary_size as int, context_window_size as int, embedding_size as int, layer_count as int),
        count == shapes_value_total(model_parameter_shapes(vocabulary_size, context_window_size, embedding_size, layer_count as nat)),
{
    let v = vocabulary_size;
    let c = context_window_size;
    let e = embedding_size;
    let l = layer_count;
    proof {
        lemma_model_parameter_total(v, c, e, l as nat);
        let (vi, ci, ei, li) = (v as int, c as int, e as int, l as int);
        assert(0 <= vi * ei && 0 <= ci * ei && 0 <= ei * ei && 0 <= li * (13 * (ei * ei) + 13 * ei)) by (nonlinear_arith)
            requires vi >= 0, ci >= 0, ei >= 0, li >= 0;
        assert(ei * ei <= 13 * (ei * ei) + 13 * ei);
        assert(13 * (ei * ei) + 13 * ei <= li * (13 * (ei * ei) + 13 * ei) || li == 0) by (nonlinear_arith)
            requires li >= 0, ei >= 0;
    }
    let embeddings = 2 * (v * e) + c * e + v + e;
    if l == 0 {
        return embeddings;
    }
    let per_layer = 13 * (e * e) + 13 * e;
    embeddings + l * per_layer
}

// ---------------------------------------------------------------------------
// Character tokenizer
// ---------------------------------------------------------------------------

/// The token id of each character code, built by giving `chars[i]` the id
/// `i` in order (a character listed twice keeps its last position).
pub open spec fn token_map(chars: Seq<char>) -> Map<u32, usize>
    decreases chars.len(),
{
    if chars.len() == 0 {
        Map::empty()
    } else {
        token_map(chars.drop_last()).insert(chars.last() as u32, (chars.len() - 1) as usize)
    }
}

/// The token ids of the known characters of `s`, in order; characters
/// without a token are skipped.
pub open spec fn known_tokens(map: Map<u32, usize>, s: Seq<char>) -> Seq<usize>
    decreases s.len(),
{
    if s.len() == 0 {
        seq![]
    } else if map.contains_key(s.last() as u32) {
        known_tokens(map, s.drop_last()).push(map[s.last() as u32])
    } else {
        known_tokens(map, s.drop_last())
    }
}

/// Maps each known character to a token id and back. The id after the last
/// character marks the start and the end of a sequence.
#[derive(Clone, Debug)]
pub struct CharacterTokenizer {
    pub unique_characters: Vec<char>,
    pub sequence_boundary_token_id: usize,
    pub character_to_token_id: HashMap<u32, usize>,
}

impl CharacterTokenizer {
    /// The lookup table matches the character list.
    pub open spec fn wf(&self) -> bool {
        self.character_to_token_id@ == token_map(self.unique_characters@)
    }

    /// A tokenizer over `unique_characters`; `unique_characters[i]` gets the
    /// id `i`.
    pub fn new(unique_characters: Vec<char>, sequence_boundary_token_id: usize) -> (tokenizer: Self)
        ensures
            tokenizer.wf(),
            tokenizer.unique_characters@ == unique_characters@,
            tokenizer.sequence_boundary_token_id == sequence_boundary_token_id,
    {
        let mut character_to_token_id: HashMap<u32, usize> = HashMap::new();
        let mut index: usize = 0;
        while index < unique_characters.len()
            invariant
                index <= unique_characters@.len(),
                character_to_token_id@ == token_map(unique_characters@.take(index as int)),
            decreases unique_characters@.len() - index,
        {
            assert(unique_characters@.take(index + 1).drop_last() =~= unique_characters@.take(index as int));
            character_to_token_id.insert(unique_characters[index] as u32, index);
            index = index + 1;
        }
        assert(unique_characters@.take(index as int) =~= unique_characters@);
        CharacterTokenizer { unique_characters, sequence_boundary_token_id, character_to_token_id }
    }

    /// The number of token ids: one per character plus the boundary.
    pub fn vocabulary_size(&self) -> (size: usize)
        requires
            self.unique_characters@.len() < usize::MAX,
        ensures
            size == self.unique_characters@.len() + 1,
    {
        self.unique_characters.len() + 1
    }

    /// The token id of `c`, if the tokenizer knows it.
    pub fn token_id(&self, c: char) -> (id: Option<usize>)
        requires
            self.wf(),
        ensures
            token_map(self.unique_characters@).contains_key(c as u32) ==> id == Some(token_map(self.unique_characters@)[c as u32]),
            !token_map(self.unique_characters@).contains_key(c as u32) ==> id is None,
    {
        match self.character_to_token_id.get(&(c as u32)) {
            Some(id) => Some(*id),
            None => None,
        }
    }

    /// The token ids of a document between two boundary tokens; characters
    /// the tokenizer does not know are skipped.
    pub fn encode_document(&self, document: &str) -> (encoded: Vec<usize>)
        requires
            self.wf(),
        ensures
            encoded@ == seq![self.sequence_boundary_token_id] + known_tokens(
                token_map(self.unique_characters@),
                document@,
            ) + seq![self.sequence_boundary_token_id],
    {
        let ghost map = token_map(self.unique_characters@);
        let chars = chars_of(document);
        let mut encoded: Vec<usize> = Vec::new();
        encoded.push(self.sequence_boundary_token_id);
        let mut i: usize = 0;
        while i < chars.len()
            invariant
                i <= chars@.len(),
                chars@ == document@,
                self.wf(),
                map == token_map(self.unique_characters@),
                encoded@ == seq![self.sequence_boundary_token_id] + known_tokens(map, chars@.take(i as int)),
            decreases chars@.len() - i,
        {
            assert(chars@.take(i + 1).drop_last() =~= chars@.take(i as int));
            match self.token_id(chars[i]) {
                Some(id) => {
                    encoded.push(id);
                    assert(encoded@ =~= seq![self.sequence_boundary_token_id] + known_tokens(map, chars@.take(i + 1)));
                },
                None => {},
            }
            i = i + 1;
        }
        assert(chars@.take(i as int) =~= document@);
        encoded.push(self.sequence_boundary_token_id);
        encoded
    }
}

/// Every id in the table points back at its character: the character with
/// code `k` has an id below the number of characters, and the character at
/// that id has code `k`.
pub proof fn lemma_token_map_points_back(chars: Seq<char>, k: u32)
    requires
        chars.len() <= usize::MAX,
    ensures
        token_map(chars).contains_key(k) ==> token_map(chars)[k] < chars.len() && chars[token_map(chars)[k] as int] as u32 == k,
        (exists|i: int| 0 <= i < chars.len() && chars[i] as u32 == k) ==> token_map(chars).contains_key(k),
    decreases chars.len(),
{
    if chars.len() > 0 {
        lemma_token_map_points_back(chars.drop_last(), k);
        let prefix = chars.drop_last();
        if k == chars.last() as u32 {
            assert(token_map(chars)[k] == chars.len() - 1);
        } else if token_map(prefix).contains_key(k) {
            assert(token_map(chars)[k] == token_map(prefix)[k]);
            assert(chars[token_map(prefix)[k] as int] == prefix[token_map(prefix)[k] as int]);
        }
        if exists|i: int| 0 <= i < chars.len() && chars[i] as u32 == k {
            let i = choose|i: int| 0 <= i < chars.len() && chars[i] as u32 == k;
            if i < chars.len() - 1 {
                assert(chars.drop_last()[i] as u32 == k);
            }
        }
    }
}

/// Decoding the tokens of a document gives back the document without the
/// characters the tokenizer does not know: between the boundaries, the
/// character at each token id has the code of the document character that
/// gave the token, in order.
pub proof fn lemma_encode_decodes(chars: Seq<char>, document: Seq<char>)
    requires
        chars.len() <= usize::MAX,
    ensures
        known_tokens(token_map(chars), document).map_values(|id: usize| chars[id as int] as u32)
            == document.filter(|c: char| token_map(chars).contains_key(c as u32)).map_values(|c: char| c as u32),
    decreases document.len(),
{
    reveal_with_fuel(Seq::filter, 1);
    let map = token_map(chars);
    if document.len() > 0 {
        lemma_encode_decodes(chars, document.drop_last());
        let c = document.last();
        lemma_token_map_points_back(chars, c as u32);
        let prefix = known_tokens(map, document.drop_last());
        let kept = document.drop_last().filter(|c: char| token_map(chars).contains_key(c as u32));
        if map.contains_key(c as u32) {
            assert(prefix.push(map[c as u32]).map_values(|id: usize| chars[id as int] as u32) =~= prefix.map_values(|id: usize| chars[id as int] as u32).push(chars[map[c as u32] as int] as u32));
            assert(kept.push(c).map_values(|c: char| c as u32) =~= kept.map_values(|c: char| c as u32).push(c as u32));
        }
    } else {
        assert(document.filter(|c: char| token_map(chars).contains_key(c as u32)) =~= Seq::<char>::empty());
    }
}

} // verus!
