use vstd::prelude::*;
use crate::model::{CharacterTokenizer, token_map, known_tokens};

verus! {

/// The SplitMix64 mixing function.
#[verifier::opaque]
pub open spec fn splitmix64_spec(value: u64) -> u64 {
    let v = value.wrapping_add(0x9e37_79b9_7f4a_7c15u64);
    let m1 = (v ^ (v >> 30u64)).wrapping_mul(0xbf58_476d_1ce4_e5b9u64);
    let m2 = (m1 ^ (m1 >> 27u64)).wrapping_mul(0x94d0_49bb_1331_11ebu64);
    m2 ^ (m2 >> 31u64)
}

/// Scrambles a 64-bit value with SplitMix64.
pub fn splitmix64(value: u64) -> (mixed: u64)
    ensures
        mixed == splitmix64_spec(value),
{
    proof {
        reveal(splitmix64_spec);
    }
    let v = value.wrapping_add(0x9e37_79b9_7f4a_7c15u64);
    let m1 = (v ^ (v >> 30u64)).wrapping_mul(0xbf58_476d_1ce4_e5b9u64);
    let m2 = (m1 ^ (m1 >> 27u64)).wrapping_mul(0x94d0_49bb_1331_11ebu64);
    m2 ^ (m2 >> 31u64)
}

/// Multiplying by `factor` modulo 2^64 can be undone by multiplying by
/// `inverse` when their product is 1 modulo 2^64.
proof fn lemma_wrapping_mul_undone(x: u64, factor: u64, inverse: u64)
    requires
        (factor as int * inverse as int) % 0x1_0000_0000_0000_0000int == 1,
    ensures
        (((x as int * factor as int) % 0x1_0000_0000_0000_0000int) * inverse as int) % 0x1_0000_0000_0000_0000int == x,
{
    let m = 0x1_0000_0000_0000_0000int;
    let (xi, f, g) = (x as int, factor as int, inverse as int);
    vstd::arithmetic::div_mod::lemma_mul_mod_noop_left(xi * f, g, m);
    vstd::arithmetic::mul::lemma_mul_is_associative(xi, f, g);
    vstd::arithmetic::div_mod::lemma_mul_mod_noop_right(xi, f * g, m);
    vstd::arithmetic::div_mod::lemma_small_mod(xi as nat, m as nat);
}

/// Multiplying by an odd `factor` with `inverse` modulo 2^64 is one-to-one.
proof fn lemma_wrapping_mul_injective(x: u64, y: u64, factor: u64, inverse: u64)
    requires
        (factor as int * inverse as int) % 0x1_0000_0000_0000_0000int == 1,
        x.wrapping_mul(factor) == y.wrapping_mul(factor),
    ensures
        x == y,
{
    lemma_wrapping_mul_undone(x, factor, inverse);
    lemma_wrapping_mul_undone(y, factor, inverse);
}

/// Each xor-shift step of SplitMix64 can be undone, so none of them maps two
/// values to one.
proof fn lemma_xor_shifts_undone(x: u64)
    ensures
        ({ let y = x ^ (x >> 30u64); y ^ (y >> 30u64) ^ (y >> 60u64) }) == x,
        ({ let y = x ^ (x >> 27u64); y ^ (y >> 27u64) ^ (y >> 54u64) }) == x,
        ({ let y = x ^ (x >> 31u64); y ^ (y >> 31u64) ^ (y >> 62u64) }) == x,
{
    assert(({ let y = x ^ (x >> 30u64); y ^ (y >> 30u64) ^ (y >> 60u64) }) == x) by (bit_vector);
    assert(({ let y = x ^ (x >> 27u64); y ^ (y >> 27u64) ^ (y >> 54u64) }) == x) by (bit_vector);
    assert(({ let y = x ^ (x >> 31u64); y ^ (y >> 31u64) ^ (y >> 62u64) }) == x) by (bit_vector);
}

/// SplitMix64 is one-to-one on 64-bit values: distinct inputs give distinct
/// outputs (each of its steps, an addition, xor-shifts and multiplications
/// by odd constants, all modulo 2^64, can be undone).
pub proof fn lemma_splitmix64_injective(a: u64, b: u64)
    requires
        a != b,
    ensures
        splitmix64_spec(a) != splitmix64_spec(b),
{
    reveal(splitmix64_spec);
    let va = a.wrapping_add(0x9e37_79b9_7f4a_7c15u64);
    let vb = b.wrapping_add(0x9e37_79b9_7f4a_7c15u64);
    let xa = va ^ (va >> 30u64);
    let xb = vb ^ (vb >> 30u64);
    let m1a = xa.wrapping_mul(0xbf58_476d_1ce4_e5b9u64);
    let m1b = xb.wrapping_mul(0xbf58_476d_1ce4_e5b9u64);
    let ya = m1a ^ (m1a >> 27u64);
    let yb = m1b ^ (m1b >> 27u64);
    let m2a = ya.wrapping_mul(0x94d0_49bb_1331_11ebu64);
    let m2b = yb.wrapping_mul(0x94d0_49bb_1331_11ebu64);
    assert((0xbf58_476d_1ce4_e5b9int * 0x96de_1b17_3f11_9089int) % 0x1_0000_0000_0000_0000int == 1);
    assert((0x94d0_49bb_1331_11ebint * 0x3196_42b2_d24d_8ec3int) % 0x1_0000_0000_0000_0000int == 1);
    if splitmix64_spec(a) == splitmix64_spec(b) {
        lemma_xor_shifts_undone(m2a);
        lemma_xor_shifts_undone(m2b);
        assert(m2a == m2b);
        lemma_wrapping_mul_injective(ya, yb, 0x94d0_49bb_1331_11ebu64, 0x3196_42b2_d24d_8ec3u64);
        lemma_xor_shifts_undone(m1a);
        lemma_xor_shifts_undone(m1b);
        assert(m1a == m1b);
        lemma_wrapping_mul_injective(xa, xb, 0xbf58_476d_1ce4_e5b9u64, 0x96de_1b17_3f11_9089u64);
        lemma_xor_shifts_undone(va);
        lemma_xor_shifts_undone(vb);
        assert(va == vb);
        assert(false);
    }
}

/// The seed that a training step, a batch position and a salt give.
pub open spec fn batch_seed(step: usize, batch_offset: usize, salt: u64) -> u64 {
    (step as u64).wrapping_mul(0xa076_1d64_78bd_642fu64).wrapping_add(
        (batch_offset as u64).wrapping_mul(0xe703_7ed1_a0b4_28dbu64),
    ).wrapping_add(salt)
}

/// The index in `0..upper_bound` that a training step and batch position
/// pick, reproducibly; 0 when there is at most one choice.
pub open spec fn deterministic_index_spec(step: usize, batch_offset: usize, salt: u64, upper_bound: usize) -> usize {
    if upper_bound <= 1 {
        0
    } else {
        ((splitmix64_spec(batch_seed(step, batch_offset, salt)) as usize) % upper_bound) as usize
    }
}

/// A reproducible pseudo-random index in `0..upper_bound` for a training step
/// and batch position; 0 when there is at most one choice.
pub fn deterministic_index(step: usize, batch_offset: usize, salt: u64, upper_bound: usize) -> (index: usize)
    ensures
        index == deterministic_index_spec(step, batch_offset, salt, upper_bound),
        upper_bound > 0 ==> index < upper_bound,
{
    if upper_bound <= 1 {
        return 0;
    }
    let mixed = splitmix64(
        (step as u64).wrapping_mul(0xa076_1d64_78bd_642fu64).wrapping_add(
            (batch_offset as u64).wrapping_mul(0xe703_7ed1_a0b4_28dbu64),
        ).wrapping_add(salt),
    );
    (mixed as usize) % upper_bound
}

/// One training example: a window of tokens, the token that follows each
/// position, and which positions count towards the loss.
#[derive(Clone, Debug)]
pub struct TrainingTokenWindow {
    pub input_tokens: Vec<usize>,
    pub target_tokens: Vec<usize>,
    pub loss_mask: Vec<bool>,
    pub batch_offset: usize,
}

/// How many positions of a window over `token_count` tokens predict a token.
pub open spec fn prediction_count(token_count: nat, context_window_size: nat) -> nat {
    if token_count == 0 {
        0
    } else if ((token_count - 1) as nat) < context_window_size {
        (token_count - 1) as nat
    } else {
        context_window_size
    }
}

/// Where the window starts in the tokens: at 0 when the tokens fit,
/// otherwise at a reproducible offset chosen by the step and batch position.
#[verifier::opaque]
pub open spec fn window_start(token_count: nat, step: usize, batch_offset: usize, context_window_size: nat) -> nat {
    let max_start = if token_count > context_window_size + 1 {
        (token_count - (context_window_size + 1)) as nat
    } else {
        0
    };
    if max_start == 0 {
        0
    } else {
        deterministic_index_spec(step, batch_offset, 0xd1b5u64, (max_start + 1) as usize) as nat
    }
}

/// The window the tokens give: position `p` holds token `start + p` as input
/// and token `start + p + 1` as target while `p` is below the prediction
/// count; the rest is padding that the loss ignores.
pub open spec fn window_matches(
    window: TrainingTokenWindow,
    tokens: Seq<usize>,
    step: usize,
    batch_offset: usize,
    context_window_size: nat,
    pad_token_id: usize,
) -> bool {
    let count = prediction_count(tokens.len(), context_window_size);
    let start = window_start(tokens.len(), step, batch_offset, context_window_size);
    &&& window.input_tokens@.len() == context_window_size
    &&& window.target_tokens@.len() == context_window_size
    &&& window.loss_mask@.len() == context_window_size
    &&& forall|p: int|
        0 <= p < context_window_size ==> {
            &&& #[trigger] window.input_tokens@[p] == if p < count { tokens[start + p] } else { pad_token_id }
            &&& window.target_tokens@[p] == if p < count { tokens[start + p + 1] } else { pad_token_id }
            &&& window.loss_mask@[p] == (p < count)
        }
    &&& window.batch_offset == batch_offset
}

/// The prediction count and start of a window over `token_count` tokens.
fn window_bounds(token_count: usize, step: usize, batch_offset: usize, context_window_size: usize) -> (bounds: (usize, usize))
    requires
        context_window_size < usize::MAX,
    ensures
        bounds.0 == prediction_count(token_count as nat, context_window_size as nat),
        bounds.1 == window_start(token_count as nat, step, batch_offset, context_window_size as nat),
        bounds.0 <= context_window_size,
        bounds.1 + bounds.0 + 1 <= token_count || bounds.0 == 0,
        start_plus_count_fits(token_count as nat, step, batch_offset, context_window_size as nat),
{
    reveal(window_start);
    let count = if token_count == 0 {
        0
    } else if token_count - 1 < context_window_size {
        token_count - 1
    } else {
        context_window_size
    };
    let max_start = if token_count > context_window_size + 1 {
        token_count - (context_window_size + 1)
    } else {
        0
    };
    let start = if max_start == 0 {
        0
    } else {
        deterministic_index(step, batch_offset, 0xd1b5u64, max_start + 1)
    };
    (count, start)
}

/// `tokens[start + shift + p]` for each position `p` below `count`, then
/// padding up to `context_window_size` positions.
fn shifted_window(
    tokens: &Vec<usize>,
    start: usize,
    count: usize,
    context_window_size: usize,
    pad_token_id: usize,
    shift: usize,
) -> (window: Vec<usize>)
    requires
        shift <= 1,
        count <= context_window_size,
        count == 0 || start + count + 1 <= tokens@.len(),
    ensures
        window@ == Seq::new(
            context_window_size as nat,
            |p: int| if p < count { tokens@[start + p + shift] } else { pad_token_id },
        ),
{
    let mut window: Vec<usize> = Vec::new();
    let mut p: usize = 0;
    while p < context_window_size
        invariant
            p <= context_window_size,
            shift <= 1,
            count <= context_window_size,
            count == 0 || start + count + 1 <= tokens.len(),
            window@ == Seq::new(p as nat, |q: int| if q < count { tokens@[start + q + shift] } else { pad_token_id }),
        decreases context_window_size - p,
    {
        if p < count {
            window.push(tokens[start + p + shift]);
        } else {
            window.push(pad_token_id);
        }
        p = p + 1;
        assert(window@ =~= Seq::new(p as nat, |q: int| if q < count { tokens@[start + q + shift] } else { pad_token_id }));
    }
    window
}

/// `true` for each position below `count`, then `false` up to
/// `context_window_size` positions.
fn prediction_mask(count: usize, context_window_size: usize) -> (mask: Vec<bool>)
    ensures
        mask@ == Seq::new(context_window_size as nat, |p: int| p < count),
{
    let mut mask: Vec<bool> = Vec::new();
    let mut p: usize = 0;
    while p < context_window_size
        invariant
            p <= context_window_size,
            mask@ == Seq::new(p as nat, |q: int| q < count),
        decreases context_window_size - p,
    {
        mask.push(p < count);
        p = p + 1;
        assert(mask@ =~= Seq::new(p as nat, |q: int| q < count));
    }
    mask
}

/// A training window over `tokens` for a training step and batch position:
/// as many next-token predictions as fit the context window, from a
/// reproducible start, padded with `pad_token_id`.
pub fn token_window_from_tokens(
    tokens: &Vec<usize>,
    step: usize,
    batch_offset: usize,
    context_window_size: usize,
    pad_token_id: usize,
) -> (window: TrainingTokenWindow)
    requires
        context_window_size < usize::MAX,
    ensures
        window_matches(window, tokens@, step, batch_offset, context_window_size as nat, pad_token_id),
        start_plus_count_fits(tokens@.len(), step, batch_offset, context_window_size as nat),
{
    let (count, start) = window_bounds(tokens.len(), step, batch_offset, context_window_size);
    let input_tokens = shifted_window(tokens, start, count, context_window_size, pad_token_id, 0);
    let target_tokens = shifted_window(tokens, start, count, context_window_size, pad_token_id, 1);
    let loss_mask = prediction_mask(count, context_window_size);
    let ghost n = context_window_size as nat;
    assert(input_tokens@ =~= Seq::new(n, |p: int| if p < count { tokens@[start + p] } else { pad_token_id }));
    assert(target_tokens@ =~= Seq::new(n, |p: int| if p < count { tokens@[start + p + 1] } else { pad_token_id }));
    let window = TrainingTokenWindow { input_tokens, target_tokens, loss_mask, batch_offset };
    proof {
        let c = prediction_count(tokens@.len(), n);
        let st = window_start(tokens@.len(), step, batch_offset, n);
        assert(c == count && st == start);
        assert(window.input_tokens@ =~= Seq::new(n, |p: int| if p < c { tokens@[st + p] } else { pad_token_id }));
        assert(window.target_tokens@ =~= Seq::new(n, |p: int| if p < c { tokens@[st + p + 1] } else { pad_token_id }));
        assert(window.loss_mask@ =~= Seq::new(n, |p: int| p < c));
    }
    window
}

/// The window's predictions stay inside the tokens.
pub open spec fn start_plus_count_fits(token_count: nat, step: usize, batch_offset: usize, context_window_size: nat) -> bool {
    let count = prediction_count(token_count, context_window_size);
    count == 0 || window_start(token_count, step, batch_offset, context_window_size) + count + 1 <= token_count
}

/// The tokens of a document for a tokenizer: its known characters between
/// two boundary tokens.
pub open spec fn encoded_document(tokenizer: CharacterTokenizer, document: Seq<char>) -> Seq<usize> {
    seq![tokenizer.sequence_boundary_token_id] + known_tokens(token_map(tokenizer.unique_characters@), document)
        + seq![tokenizer.sequence_boundary_token_id]
}

/// The document that batch position `batch_offset` of a training step draws.
pub open spec fn batch_document_index(step: usize, batch_offset: usize, document_count: usize) -> usize {
    deterministic_index_spec(step, batch_offset, 0x9e37u64, document_count)
}

/// The windows of one training batch: position `b` of the batch draws a
/// document reproducibly from the step and `b`, encodes it and takes a
/// window of it, padded with the boundary token.
pub fn training_batch_token_windows(
    documents: &[String],
    tokenizer: &CharacterTokenizer,
    step: usize,
    batch_document_count: usize,
    context_window_size: usize,
) -> (windows: Vec<TrainingTokenWindow>)
    requires
        tokenizer.wf(),
        context_window_size < usize::MAX,
        batch_document_count > 0 ==> documents@.len() > 0,
    ensures
        windows@.len() == batch_document_count,
        forall|b: int|
            0 <= b < batch_document_count ==> window_matches(
                #[trigger] windows@[b],
                encoded_document(*tokenizer, documents@[batch_document_index(step, b as usize, documents@.len() as usize) as int]@),
                step,
                b as usize,
                context_window_size as nat,
                tokenizer.sequence_boundary_token_id,
            ),
{
    let mut windows: Vec<TrainingTokenWindow> = Vec::new();
    let mut batch_offset: usize = 0;
    while batch_offset < batch_document_count
        invariant
            batch_offset <= batch_document_count,
            tokenizer.wf(),
            context_window_size < usize::MAX,
            batch_document_count > 0 ==> documents@.len() > 0,
            windows@.len() == batch_offset,
            forall|b: int|
                0 <= b < batch_offset ==> window_matches(
                    #[trigger] windows@[b],
                    encoded_document(*tokenizer, documents@[batch_document_index(step, b as usize, documents@.len() as usize) as int]@),
                    step,
                    b as usize,
                    context_window_size as nat,
                    tokenizer.sequence_boundary_token_id,
                ),
        decreases batch_document_count - batch_offset,
    {
        let document_index = deterministic_index(step, batch_offset, 0x9e37u64, documents.len());
        let tokens = tokenizer.encode_document(documents[document_index].as_str());
        let window = token_window_from_tokens(
            &tokens,
            step,
            batch_offset,
            context_window_size,
            tokenizer.sequence_boundary_token_id,
        );
        windows.push(window);
        batch_offset = batch_offset + 1;
    }
    windows
}

/// In a training window the target at each predicting position is the input
/// at the next one: the model learns to predict the following token.
pub proof fn lemma_window_targets_follow_inputs(
    window: TrainingTokenWindow,
    tokens: Seq<usize>,
    step: usize,
    batch_offset: usize,
    context_window_size: nat,
    pad_token_id: usize,
    p: int,
)
    requires
        window_matches(window, tokens, step, batch_offset, context_window_size, pad_token_id),
        0 <= p,
        p + 1 < prediction_count(tokens.len(), context_window_size),
    ensures
        window.target_tokens@[p] == window.input_tokens@[p + 1],
        window.loss_mask@[p],
{
    assert(prediction_count(tokens.len(), context_window_size) <= context_window_size);
    let st = window_start(tokens.len(), step, batch_offset, context_window_size);
    assert(window.input_tokens@[p] == tokens[st + p]);
    assert(window.input_tokens@[p + 1] == tokens[window_start(tokens.len(), step, batch_offset, context_window_size) + (p + 1)]);
}

} // verus!
