use vstd::prelude::*;
use crate::format::{append_str, debug_list, debug_usize_list, decimal, usize_to_decimal};

verus! {

// ---------------------------------------------------------------------------
// Checkpoint file framing
// ---------------------------------------------------------------------------

/// The eight bytes `MGPTCKP1` that open every checkpoint file.
pub open spec fn checkpoint_magic() -> Seq<u8> {
    seq![0x4du8, 0x47u8, 0x50u8, 0x54u8, 0x43u8, 0x4bu8, 0x50u8, 0x31u8]
}

fn magic_bytes() -> (magic: Vec<u8>)
    ensures
        magic@ == checkpoint_magic(),
{
    let magic: Vec<u8> = vec![0x4du8, 0x47u8, 0x50u8, 0x54u8, 0x43u8, 0x4bu8, 0x50u8, 0x31u8];
    assert(magic@ =~= checkpoint_magic());
    magic
}

/// The bytes of a checkpoint file: the magic, then the serialized checkpoint.
pub fn frame_checkpoint_payload(payload: &[u8]) -> (bytes: Vec<u8>)
    ensures
        bytes@ == checkpoint_magic() + payload@,
{
    let mut bytes = magic_bytes();
    let mut i: usize = 0;
    while i < payload.len()
        invariant
            i <= payload@.len(),
            bytes@ == checkpoint_magic() + payload@.take(i as int),
        decreases payload@.len() - i,
    {
        bytes.push(payload[i]);
        i = i + 1;
        assert(bytes@ =~= checkpoint_magic() + payload@.take(i as int));
    }
    assert(payload@.take(i as int) =~= payload@);
    bytes
}

/// The message of a file that does not start with the magic.
pub open spec fn not_a_checkpoint_message() -> Seq<char> {
    "not a sentence-gpt-rs-mlx checkpoint file"@
}

/// The serialized checkpoint inside the bytes of a checkpoint file, or an
/// error if the bytes do not start with the magic.
pub fn checkpoint_payload(bytes: &[u8]) -> (payload: Result<Vec<u8>, String>)
    ensures
        bytes@.len() >= 8 && bytes@.take(8) == checkpoint_magic() ==> (payload matches Ok(p) && p@
            == bytes@.skip(8)),
        !(bytes@.len() >= 8 && bytes@.take(8) == checkpoint_magic()) ==> (payload matches Err(m)
            && m@ == not_a_checkpoint_message()),
{
    let magic = magic_bytes();
    if bytes.len() < 8 {
        return Err(String::from_str("not a sentence-gpt-rs-mlx checkpoint file"));
    }
    let mut i: usize = 0;
    while i < 8
        invariant
            i <= 8,
            8 <= bytes@.len(),
            magic@ == checkpoint_magic(),
            forall|k: int| 0 <= k < i ==> bytes@[k] == magic@[k],
        decreases 8 - i,
    {
        if bytes[i] != magic[i] {
            assert(bytes@.take(8)[i as int] != checkpoint_magic()[i as int]);
            return Err(String::from_str("not a sentence-gpt-rs-mlx checkpoint file"));
        }
        i = i + 1;
    }
    assert(bytes@.take(8) =~= checkpoint_magic());
    let mut payload: Vec<u8> = Vec::new();
    let mut j: usize = 8;
    while j < bytes.len()
        invariant
            8 <= j <= bytes@.len(),
            payload@ == bytes@.subrange(8, j as int),
        decreases bytes@.len() - j,
    {
        payload.push(bytes[j]);
        j = j + 1;
        assert(payload@ =~= bytes@.subrange(8, j as int));
    }
    assert(bytes@.subrange(8, j as int) =~= bytes@.skip(8));
    Ok(payload)
}

/// Reading back the bytes of a framed checkpoint gives the framed payload.
pub proof fn lemma_checkpoint_framing_roundtrip(payload: Seq<u8>)
    ensures
        (checkpoint_magic() + payload).len() >= 8,
        (checkpoint_magic() + payload).take(8) == checkpoint_magic(),
        (checkpoint_magic() + payload).skip(8) == payload,
{
    assert((checkpoint_magic() + payload).take(8) =~= checkpoint_magic());
    assert((checkpoint_magic() + payload).skip(8) =~= payload);
}

// ---------------------------------------------------------------------------
// Checkpoint tensors
// ---------------------------------------------------------------------------

/// One saved parameter tensor: its shape and its values in row-major order.
/// The value type is left open; the trainer stores `f64`.
#[derive(Clone, Debug)]
pub struct CheckpointTensor<T> {
    pub shape: Vec<usize>,
    pub values: Vec<T>,
}

/// The product of the dimensions of a shape (1 for no dimension).
pub open spec fn shape_product(shape: Seq<usize>) -> int
    decreases shape.len(),
{
    if shape.len() == 0 {
        1
    } else {
        shape_product(shape.drop_last()) * shape.last()
    }
}

/// Multiplying the dimensions from the first one on never leaves `usize`.
pub open spec fn product_fits(shape: Seq<usize>) -> bool {
    forall|k: int| 0 <= k <= shape.len() ==> #[trigger] shape_product(shape.take(k)) <= usize::MAX
}

proof fn lemma_shape_product_nonnegative(shape: Seq<usize>)
    ensures
        shape_product(shape) >= 0,
    decreases shape.len(),
{
    if shape.len() > 0 {
        lemma_shape_product_nonnegative(shape.drop_last());
        let p = shape_product(shape.drop_last());
        let d = shape.last() as int;
        assert(p * d >= 0) by (nonlinear_arith)
            requires
                p >= 0,
                d >= 0,
        ;
    }
}

/// The number of values a tensor of this shape holds.
pub fn shape_value_count(shape: &Vec<usize>) -> (count: usize)
    requires
        product_fits(shape@),
    ensures
        count == shape_product(shape@),
{
    let mut count: usize = 1;
    let mut k: usize = 0;
    assert(shape@.take(0) =~= Seq::<usize>::empty());
    while k < shape.len()
        invariant
            k <= shape.len(),
            product_fits(shape@),
            count == shape_product(shape@.take(k as int)),
        decreases shape.len() - k,
    {
        assert(shape@.take(k + 1).drop_last() =~= shape@.take(k as int));
        assert(shape_product(shape@.take(k + 1)) <= usize::MAX);
        proof {
            lemma_shape_product_nonnegative(shape@.take(k as int));
        }
        count = count * shape[k];
        k = k + 1;
    }
    assert(shape@.take(k as int) =~= shape@);
    count
}

/// The shape and values of a tensor.
pub open spec fn tensor_parts<T>(tensor: CheckpointTensor<T>) -> (Seq<usize>, Seq<T>) {
    (tensor.shape@, tensor.values@)
}

/// The shapes and values of tensors.
pub open spec fn tensors_parts<T>(tensors: Seq<CheckpointTensor<T>>) -> Seq<(Seq<usize>, Seq<T>)> {
    tensors.map_values(|t: CheckpointTensor<T>| tensor_parts(t))
}

fn copy_vec<T: Copy>(v: &Vec<T>) -> (copy: Vec<T>)
    ensures
        copy@ == v@,
{
    let mut copy: Vec<T> = Vec::new();
    let mut i: usize = 0;
    while i < v.len()
        invariant
            i <= v.len(),
            copy@ == v@.take(i as int),
        decreases v.len() - i,
    {
        copy.push(v[i]);
        i = i + 1;
        assert(copy@ =~= v@.take(i as int));
    }
    assert(v@.take(i as int) =~= v@);
    copy
}

/// The message of a tensor whose value count does not fit its shape.
pub open spec fn tensor_size_message(shape: Seq<usize>, value_count: nat) -> Seq<char> {
    "tensor shape "@ + debug_list(shape) + " expects "@ + decimal(shape_product(shape) as nat)
        + " values, got "@ + decimal(value_count)
}

impl<T: Copy> CheckpointTensor<T> {
    /// A tensor of the given shape, if `values` holds exactly as many values
    /// as the shape has entries.
    pub fn new(shape: Vec<usize>, values: Vec<T>) -> (tensor: Result<Self, String>)
        requires
            product_fits(shape@),
        ensures
            values@.len() == shape_product(shape@) ==> (tensor matches Ok(t) && t.shape@ == shape@
                && t.values@ == values@),
            values@.len() != shape_product(shape@) ==> (tensor matches Err(m) && m@
                == tensor_size_message(shape@, values@.len())),
    {
        let expected_value_count = shape_value_count(&shape);
        if values.len() != expected_value_count {
            let mut message = String::from_str("tensor shape ");
            let shape_text = debug_usize_list(&shape);
            append_str(&mut message, shape_text.as_str());
            append_str(&mut message, " expects ");
            let expected_text = usize_to_decimal(expected_value_count);
            append_str(&mut message, expected_text.as_str());
            append_str(&mut message, " values, got ");
            let got_text = usize_to_decimal(values.len());
            append_str(&mut message, got_text.as_str());
            return Err(message);
        }
        Ok(CheckpointTensor { shape, values })
    }

    /// A copy of the tensor.
    pub fn copy(&self) -> (copy: Self)
        ensures
            tensor_parts(copy) == tensor_parts(*self),
    {
        CheckpointTensor { shape: copy_vec(&self.shape), values: copy_vec(&self.values) }
    }
}

/// A tensor with the shape and value count of `expected`, every value `value`.
pub open spec fn filled_parts<T>(expected: CheckpointTensor<T>, value: T) -> (Seq<usize>, Seq<T>) {
    (expected.shape@, Seq::new(expected.values@.len(), |i: int| value))
}

/// A tensor shaped like `expected` whose values are all `value`.
pub fn filled_checkpoint_tensor<T: Copy>(expected_tensor: &CheckpointTensor<T>, value: T) -> (tensor: CheckpointTensor<T>)
    ensures
        tensor_parts(tensor) == filled_parts(*expected_tensor, value),
{
    let mut values: Vec<T> = Vec::new();
    let mut i: usize = 0;
    while i < expected_tensor.values.len()
        invariant
            i <= expected_tensor.values.len(),
            values@ == Seq::new(i as nat, |k: int| value),
        decreases expected_tensor.values.len() - i,
    {
        values.push(value);
        i = i + 1;
        assert(values@ =~= Seq::new(i as nat, |k: int| value));
    }
    let tensor = CheckpointTensor { shape: copy_vec(&expected_tensor.shape), values };
    assert(tensor_parts(tensor) =~= filled_parts(*expected_tensor, value));
    tensor
}

/// Whether two shapes are equal.
pub fn same_shape(left: &Vec<usize>, right: &Vec<usize>) -> (same: bool)
    ensures
        same == (left@ == right@),
{
    if left.len() != right.len() {
        return false;
    }
    let mut i: usize = 0;
    while i < left.len()
        invariant
            i <= left.len(),
            left@.len() == right@.len(),
            forall|k: int| 0 <= k < i ==> left@[k] == right@[k],
        decreases left.len() - i,
    {
        if left[i] != right[i] {
            return false;
        }
        i = i + 1;
    }
    assert(left@ =~= right@);
    true
}

/// The message of a checkpoint with the wrong number of tensors.
pub open spec fn tensor_count_message(count: nat, expected_count: nat) -> Seq<char> {
    "checkpoint has "@ + decimal(count) + " parameter tensors, expected "@ + decimal(expected_count)
}

/// What is wrong with the tensor at `index`, compared with the expected one:
/// its shape differs, or its value count does not fit its shape.
pub open spec fn tensor_fault<T>(index: nat, tensor: CheckpointTensor<T>, expected: CheckpointTensor<T>) -> Option<Seq<char>> {
    if tensor.shape@ != expected.shape@ {
        Some(
            "checkpoint tensor "@ + decimal(index) + " has shape "@ + debug_list(tensor.shape@)
                + ", expected "@ + debug_list(expected.shape@),
        )
    } else if tensor.values@.len() != shape_product(tensor.shape@) {
        Some(
            "checkpoint tensor "@ + decimal(index) + " has "@ + decimal(tensor.values@.len())
                + " values, expected "@ + decimal(shape_product(tensor.shape@) as nat),
        )
    } else {
        None
    }
}

/// The fault of the first tensor at or after `from` that has one.
pub open spec fn first_tensor_fault<T>(
    tensors: Seq<CheckpointTensor<T>>,
    expected: Seq<CheckpointTensor<T>>,
    from: nat,
) -> Option<Seq<char>>
    decreases tensors.len() - from,
{
    if from >= tensors.len() {
        None
    } else {
        match tensor_fault(from, tensors[from as int], expected[from as int]) {
            Some(message) => Some(message),
            None => first_tensor_fault(tensors, expected, from + 1),
        }
    }
}

/// The values of all tensors, tensor after tensor.
pub open spec fn tensor_values<T>(tensors: Seq<CheckpointTensor<T>>) -> Seq<T> {
    tensors.map_values(|t: CheckpointTensor<T>| t.values@).flatten()
}

/// Every expected tensor's shape can be multiplied out within `usize`.
pub open spec fn shapes_fit<T>(expected: Seq<CheckpointTensor<T>>) -> bool {
    forall|i: int| 0 <= i < expected.len() ==> product_fits(#[trigger] expected[i].shape@)
}

/// The values of checkpoint tensors in order, after checking that there are as
/// many tensors as expected, each has the expected shape, and each holds as
/// many values as its shape has entries.
pub fn flatten_checkpoint_tensors<T: Copy>(
    tensors: &[CheckpointTensor<T>],
    expected_tensors: &[CheckpointTensor<T>],
) -> (values: Result<Vec<T>, String>)
    requires
        shapes_fit(expected_tensors@),
    ensures
        tensors@.len() != expected_tensors@.len() ==> (values matches Err(m) && m@
            == tensor_count_message(tensors@.len(), expected_tensors@.len())),
        tensors@.len() == expected_tensors@.len() ==> match first_tensor_fault(
            tensors@,
            expected_tensors@,
            0,
        ) {
            Some(fault) => values matches Err(m) && m@ == fault,
            None => values matches Ok(v) && v@ == tensor_values(tensors@),
        },
{
    broadcast use Seq::lemma_flatten_push;
    if tensors.len() != expected_tensors.len() {
        let mut message = String::from_str("checkpoint has ");
        let count_text = usize_to_decimal(tensors.len());
        append_str(&mut message, count_text.as_str());
        append_str(&mut message, " parameter tensors, expected ");
        let expected_text = usize_to_decimal(expected_tensors.len());
        append_str(&mut message, expected_text.as_str());
        return Err(message);
    }
    let mut values: Vec<T> = Vec::new();
    let mut i: usize = 0;
    while i < tensors.len()
        invariant
            i <= tensors@.len(),
            tensors@.len() == expected_tensors@.len(),
            shapes_fit(expected_tensors@),
            first_tensor_fault(tensors@, expected_tensors@, 0) == first_tensor_fault(tensors@, expected_tensors@, i as nat),
            values@ == tensor_values(tensors@.take(i as int)),
        decreases tensors@.len() - i,
    {
        let tensor = &tensors[i];
        let expected = &expected_tensors[i];
        if !same_shape(&tensor.shape, &expected.shape) {
            let mut message = String::from_str("checkpoint tensor ");
            let index_text = usize_to_decimal(i);
            append_str(&mut message, index_text.as_str());
            append_str(&mut message, " has shape ");
            let shape_text = debug_usize_list(&tensor.shape);
            append_str(&mut message, shape_text.as_str());
            append_str(&mut message, ", expected ");
            let expected_text = debug_usize_list(&expected.shape);
            append_str(&mut message, expected_text.as_str());
            return Err(message);
        }
        assert(product_fits(expected_tensors@[i as int].shape@));
        let expected_value_count = shape_value_count(&tensor.shape);
        if tensor.values.len() != expected_value_count {
            let mut message = String::from_str("checkpoint tensor ");
            let index_text = usize_to_decimal(i);
            append_str(&mut message, index_text.as_str());
            append_str(&mut message, " has ");
            let count_text = usize_to_decimal(tensor.values.len());
            append_str(&mut message, count_text.as_str());
            append_str(&mut message, " values, expected ");
            let expected_text = usize_to_decimal(expected_value_count);
            append_str(&mut message, expected_text.as_str());
            return Err(message);
        }
        let ghost before = values@;
        let mut k: usize = 0;
        while k < tensor.values.len()
            invariant
                k <= tensor.values@.len(),
                values@ == before + tensor.values@.take(k as int),
            decreases tensor.values@.len() - k,
        {
            values.push(tensor.values[k]);
            k = k + 1;
            assert(values@ =~= before + tensor.values@.take(k as int));
        }
        proof {
            assert(tensor.values@.take(k as int) =~= tensor.values@);
            let prefix = tensors@.take(i as int).map_values(|t: CheckpointTensor<T>| t.values@);
            assert(tensors@.take(i + 1).map_values(|t: CheckpointTensor<T>| t.values@) =~= prefix.push(tensor.values@));
            prefix.lemma_flatten_push(tensor.values@);
        }
        i = i + 1;
    }
    assert(tensors@.take(i as int) =~= tensors@);
    Ok(values)
}

/// The number of values the expected tensors hold together.
pub open spec fn value_count_total<T>(expected: Seq<CheckpointTensor<T>>) -> int
    decreases expected.len(),
{
    if expected.len() == 0 {
        0
    } else {
        value_count_total(expected.drop_last()) + expected.last().values@.len()
    }
}

/// Where the values of tensor `i` start in a flat list of all values.
pub open spec fn value_offset<T>(expected: Seq<CheckpointTensor<T>>, i: int) -> int {
    value_count_total(expected.take(i))
}

/// A flat list of values cut into tensors shaped and sized like the expected
/// ones, in order.
pub open spec fn split_into_tensors<T>(values: Seq<T>, expected: Seq<CheckpointTensor<T>>) -> Seq<(Seq<usize>, Seq<T>)> {
    Seq::new(
        expected.len(),
        |i: int|
            (
                expected[i].shape@,
                values.subrange(value_offset(expected, i), value_offset(expected, i) + expected[i].values@.len()),
            ),
    )
}

/// The message of optimizer state with the wrong number of values.
pub open spec fn optimizer_state_size_message(count: nat, expected_count: nat) -> Seq<char> {
    "optimizer state has "@ + decimal(count) + " values, expected "@ + decimal(expected_count)
}

proof fn lemma_value_count_total_monotone<T>(expected: Seq<CheckpointTensor<T>>, i: int)
    requires
        0 <= i <= expected.len(),
    ensures
        0 <= value_count_total(expected.take(i)) <= value_count_total(expected),
    decreases expected.len() - i,
{
    if i < expected.len() {
        lemma_value_count_total_monotone(expected, i + 1);
        assert(expected.take(i + 1).drop_last() =~= expected.take(i));
        lemma_value_count_total_nonnegative(expected.take(i));
        assert(value_count_total(expected.take(i + 1)) == value_count_total(expected.take(i)) + expected.take(i + 1).last().values@.len());
    } else {
        assert(expected.take(i) =~= expected);
        lemma_value_count_total_nonnegative(expected);
    }
}

proof fn lemma_value_count_total_nonnegative<T>(expected: Seq<CheckpointTensor<T>>)
    ensures
        value_count_total(expected) >= 0,
    decreases expected.len(),
{
    if expected.len() > 0 {
        lemma_value_count_total_nonnegative(expected.drop_last());
    }
}

/// Cuts a flat list of optimizer values into tensors shaped like the expected
/// ones, after checking that it holds exactly as many values as they do.
pub fn flat_values_to_checkpoint_tensors<T: Copy>(
    values: &[T],
    expected_tensors: &[CheckpointTensor<T>],
) -> (tensors: Result<Vec<CheckpointTensor<T>>, String>)
    requires
        value_count_total(expected_tensors@) <= usize::MAX,
    ensures
        values@.len() != value_count_total(expected_tensors@) ==> (tensors matches Err(m) && m@
            == optimizer_state_size_message(values@.len(), value_count_total(expected_tensors@) as nat)),
        values@.len() == value_count_total(expected_tensors@) ==> (tensors matches Ok(ts)
            && tensors_parts(ts@) == split_into_tensors(values@, expected_tensors@)),
{
    let mut expected_value_count: usize = 0;
    let mut i: usize = 0;
    while i < expected_tensors.len()
        invariant
            i <= expected_tensors@.len(),
            value_count_total(expected_tensors@) <= usize::MAX,
            expected_value_count == value_count_total(expected_tensors@.take(i as int)),
        decreases expected_tensors@.len() - i,
    {
        assert(expected_tensors@.take(i + 1).drop_last() =~= expected_tensors@.take(i as int));
        proof {
            lemma_value_count_total_monotone(expected_tensors@, i + 1);
        }
        expected_value_count = expected_value_count + expected_tensors[i].values.len();
        i = i + 1;
    }
    assert(expected_tensors@.take(i as int) =~= expected_tensors@);
    if values.len() != expected_value_count {
        let mut message = String::from_str("optimizer state has ");
        let count_text = usize_to_decimal(values.len());
        append_str(&mut message, count_text.as_str());
        append_str(&mut message, " values, expected ");
        let expected_text = usize_to_decimal(expected_value_count);
        append_str(&mut message, expected_text.as_str());
        return Err(message);
    }
    let mut tensors: Vec<CheckpointTensor<T>> = Vec::new();
    let mut value_offset_now: usize = 0;
    let mut j: usize = 0;
    while j < expected_tensors.len()
        invariant
            j <= expected_tensors@.len(),
            values@.len() == value_count_total(expected_tensors@),
            value_offset_now == value_offset(expected_tensors@, j as int),
            tensors_parts(tensors@) == split_into_tensors(values@, expected_tensors@).take(j as int),
        decreases expected_tensors@.len() - j,
    {
        let expected = &expected_tensors[j];
        let value_count = expected.values.len();
        proof {
            assert(expected_tensors@.take(j + 1).drop_last() =~= expected_tensors@.take(j as int));
            lemma_value_count_total_monotone(expected_tensors@, j + 1);
            assert(value_offset(expected_tensors@, j + 1) == value_offset_now + value_count);
            assert(value_offset_now + value_count <= values.len());
        }
        let mut chunk: Vec<T> = Vec::new();
        let mut k: usize = 0;
        while k < value_count
            invariant
                k <= value_count,
                value_count == expected.values@.len(),
                value_offset_now + value_count <= values@.len(),
                values@.len() == values.len(),
                chunk@ == values@.subrange(value_offset_now as int, value_offset_now + k),
            decreases value_count - k,
        {
            chunk.push(values[value_offset_now + k]);
            k = k + 1;
            assert(chunk@ =~= values@.subrange(value_offset_now as int, value_offset_now + k));
        }
        let tensor = CheckpointTensor { shape: copy_vec(&expected.shape), values: chunk };
        let ghost before = tensors_parts(tensors@);
        tensors.push(tensor);
        assert(tensors_parts(tensors@) =~= split_into_tensors(values@, expected_tensors@).take(j + 1)) by {
            assert(tensors_parts(tensors@) =~= before.push(tensor_parts(tensor)));
        }
        value_offset_now = value_offset_now + value_count;
        j = j + 1;
    }
    assert(split_into_tensors(values@, expected_tensors@).take(j as int) =~= split_into_tensors(values@, expected_tensors@));
    Ok(tensors)
}

proof fn lemma_no_fault_from<T>(tensors: Seq<CheckpointTensor<T>>, expected: Seq<CheckpointTensor<T>>, from: nat)
    requires
        tensors.len() == expected.len(),
        forall|i: int| 0 <= i < tensors.len() ==> tensor_fault(i as nat, #[trigger] tensors[i], expected[i]) is None,
    ensures
        first_tensor_fault(tensors, expected, from) is None,
    decreases tensors.len() - from,
{
    if from < tensors.len() {
        assert(tensor_fault(from, tensors[from as int], expected[from as int]) is None);
        lemma_no_fault_from(tensors, expected, from + 1);
    }
}

proof fn lemma_chunks_flatten<T>(
    values: Seq<T>,
    expected: Seq<CheckpointTensor<T>>,
    tensors: Seq<CheckpointTensor<T>>,
    i: int,
)
    requires
        0 <= i <= tensors.len(),
        tensors.len() == expected.len(),
        values.len() == value_count_total(expected),
        tensors_parts(tensors) == split_into_tensors(values, expected),
    ensures
        tensors.map_values(|t: CheckpointTensor<T>| t.values@).take(i).flatten() == values.take(value_offset(expected, i)),
    decreases i,
{
    let chunks = tensors.map_values(|t: CheckpointTensor<T>| t.values@);
    if i == 0 {
        assert(chunks.take(0).flatten() =~= values.take(value_offset(expected, 0)));
    } else {
        let j = i - 1;
        lemma_chunks_flatten(values, expected, tensors, j);
        assert(chunks.take(i) =~= chunks.take(j).push(chunks[j]));
        chunks.take(j).lemma_flatten_push(chunks[j]);
        assert(tensors_parts(tensors)[j] == tensor_parts(tensors[j]));
        lemma_value_count_total_monotone(expected, i);
        assert(expected.take(i).drop_last() =~= expected.take(j));
        lemma_value_count_total_monotone(expected, j);
        assert(value_offset(expected, i) == value_offset(expected, j) + expected[j].values@.len());
        assert(values.take(value_offset(expected, i)) =~= values.take(value_offset(expected, j)) + chunks[j]);
    }
}

/// Cutting a flat list of values into tensors shaped like the expected ones
/// and then flattening those tensors against the same expected tensors gives
/// back the list: optimizer state survives a checkpoint unchanged.
pub proof fn lemma_optimizer_state_roundtrip<T>(
    values: Seq<T>,
    expected: Seq<CheckpointTensor<T>>,
    tensors: Seq<CheckpointTensor<T>>,
)
    requires
        values.len() == value_count_total(expected),
        forall|i: int| 0 <= i < expected.len() ==> #[trigger] expected[i].values@.len() == shape_product(expected[i].shape@),
        tensors_parts(tensors) == split_into_tensors(values, expected),
    ensures
        tensors.len() == expected.len(),
        first_tensor_fault(tensors, expected, 0) is None,
        tensor_values(tensors) == values,
{
    broadcast use Seq::lemma_flatten_push;
    assert(tensors_parts(tensors).len() == tensors.len());
    let n = tensors.len() as int;
    assert forall|i: int| 0 <= i < n implies tensor_fault(i as nat, #[trigger] tensors[i], expected[i]) is None by {
        assert(tensors_parts(tensors)[i] == tensor_parts(tensors[i]));
        assert(split_into_tensors(values, expected)[i].0 == expected[i].shape@);
        lemma_value_count_total_monotone(expected, i + 1);
        assert(expected.take(i + 1).drop_last() =~= expected.take(i));
        lemma_value_count_total_monotone(expected, i);
    }
    lemma_no_fault_from(tensors, expected, 0);
    let chunks = tensors.map_values(|t: CheckpointTensor<T>| t.values@);
    lemma_chunks_flatten(values, expected, tensors, n);
    assert(chunks.take(n) =~= chunks);
    assert(expected.take(n) =~= expected);
    assert(values.take(value_offset(expected, n)) =~= values);
}

// ---------------------------------------------------------------------------
// Checkpoints written before the norm gains were learned
// ---------------------------------------------------------------------------

/// The tensors a legacy checkpoint holds for a model of `layer_count`
/// layers: four model tensors and fourteen per layer, without the final and
/// per-layer RMSNorm gains.
pub open spec fn legacy_tensor_count(layer_count: nat) -> int {
    (4 + 14 * layer_count) as int
}

/// The first five upgraded tensors: the four legacy model tensors and a
/// final norm gain filled with `inserted`.
pub open spec fn legacy_prefix<T>(
    tensors: Seq<CheckpointTensor<T>>,
    expected: Seq<CheckpointTensor<T>>,
    inserted: T,
) -> Seq<(Seq<usize>, Seq<T>)> {
    tensors_parts(tensors.take(4)).push(filled_parts(expected[4], inserted))
}

/// The sixteen upgraded tensors of one layer: an attention norm gain, the
/// eight legacy attention tensors, a feed-forward norm gain and the six
/// legacy feed-forward tensors; the gains are filled with `inserted`.
pub open spec fn legacy_layer_block<T>(
    tensors: Seq<CheckpointTensor<T>>,
    expected: Seq<CheckpointTensor<T>>,
    layer: int,
    inserted: T,
) -> Seq<(Seq<usize>, Seq<T>)> {
    let e = 5 + 16 * layer;
    let t = 4 + 14 * layer;
    seq![filled_parts(expected[e], inserted)] + tensors_parts(tensors.subrange(t, t + 8)) + seq![
        filled_parts(expected[e + 9], inserted),
    ] + tensors_parts(tensors.subrange(t + 8, t + 14))
}

/// The tensors of a legacy checkpoint in the current layout, for the first
/// `layers` layers.
pub open spec fn legacy_upgrade<T>(
    tensors: Seq<CheckpointTensor<T>>,
    expected: Seq<CheckpointTensor<T>>,
    layers: nat,
    inserted: T,
) -> Seq<(Seq<usize>, Seq<T>)>
    decreases layers,
{
    if layers == 0 {
        legacy_prefix(tensors, expected, inserted)
    } else {
        legacy_upgrade(tensors, expected, (layers - 1) as nat, inserted) + legacy_layer_block(
            tensors,
            expected,
            layers - 1,
            inserted,
        )
    }
}

/// Upgrading a legacy checkpoint of `layers` layers gives five tensors
/// before the layers and sixteen per layer: the tensor count of the current
/// layout.
pub proof fn lemma_legacy_upgrade_len<T>(
    tensors: Seq<CheckpointTensor<T>>,
    expected: Seq<CheckpointTensor<T>>,
    layers: nat,
    inserted: T,
)
    requires
        tensors.len() >= legacy_tensor_count(layers),
    ensures
        legacy_upgrade(tensors, expected, layers, inserted).len() == 5 + 16 * layers,
    decreases layers,
{
    if layers > 0 {
        lemma_legacy_upgrade_len(tensors, expected, (layers - 1) as nat, inserted);
    }
}

proof fn lemma_legacy_upgrade_prefix<T>(
    tensors: Seq<CheckpointTensor<T>>,
    expected: Seq<CheckpointTensor<T>>,
    layers: nat,
    m: nat,
    inserted: T,
)
    requires
        m <= layers,
        tensors.len() >= legacy_tensor_count(layers),
    ensures
        legacy_upgrade(tensors, expected, layers, inserted).take(5 + 16 * m as int) == legacy_upgrade(tensors, expected, m, inserted),
    decreases layers,
{
    lemma_legacy_upgrade_len(tensors, expected, layers, inserted);
    if layers == m {
        assert(legacy_upgrade(tensors, expected, layers, inserted).take(5 + 16 * m as int) =~= legacy_upgrade(
            tensors,
            expected,
            m,
            inserted,
        ));
    } else {
        let shorter = (layers - 1) as nat;
        lemma_legacy_upgrade_prefix(tensors, expected, shorter, m, inserted);
        lemma_legacy_upgrade_len(tensors, expected, shorter, inserted);
        let a = legacy_upgrade(tensors, expected, shorter, inserted);
        let b = legacy_layer_block(tensors, expected, shorter as int, inserted);
        assert((a + b).take(5 + 16 * m as int) =~= a.take(5 + 16 * m as int));
    }
}

/// Where each tensor of an upgraded legacy checkpoint comes from. The four
/// model tensors come first as they were; then the final norm gain; then,
/// for each layer `k`, an attention norm gain, the layer's eight legacy
/// attention tensors, a feed-forward norm gain and its six legacy
/// feed-forward tensors. Each inserted gain has the shape of the expected
/// tensor at its position (4, `5 + 16 k`, `14 + 16 k`) and as many values
/// as that tensor, all `inserted`.
pub proof fn lemma_legacy_upgrade_positions<T>(
    tensors: Seq<CheckpointTensor<T>>,
    expected: Seq<CheckpointTensor<T>>,
    layers: nat,
    inserted: T,
    k: int,
    r: int,
)
    requires
        tensors.len() == legacy_tensor_count(layers),
        expected.len() == 5 + 16 * layers,
    ensures
        ({
            let upgraded = legacy_upgrade(tensors, expected, layers, inserted);
            let gain_at = |i: int|
                upgraded[i].0 == expected[i].shape@ && upgraded[i].1 == Seq::new(
                    expected[i].values@.len(),
                    |j: int| inserted,
                );
            &&& upgraded.len() == 5 + 16 * layers
            &&& 0 <= r < 4 ==> upgraded[r] == tensor_parts(tensors[r])
            &&& gain_at(4)
            &&& 0 <= k < layers ==> gain_at(5 + 16 * k)
            &&& 0 <= k < layers && 0 <= r < 8 ==> upgraded[6 + 16 * k + r] == tensor_parts(tensors[4 + 14 * k + r])
            &&& 0 <= k < layers ==> gain_at(14 + 16 * k)
            &&& 0 <= k < layers && 0 <= r < 6 ==> upgraded[15 + 16 * k + r] == tensor_parts(tensors[12 + 14 * k + r])
        }),
{
    let upgraded = legacy_upgrade(tensors, expected, layers, inserted);
    lemma_legacy_upgrade_len(tensors, expected, layers, inserted);
    lemma_legacy_upgrade_prefix(tensors, expected, layers, 0, inserted);
    let first = legacy_upgrade(tensors, expected, 0, inserted);
    assert(upgraded[4] == first[4]);
    assert(first[4] == filled_parts(expected[4], inserted));
    assert(filled_parts(expected[4], inserted).1 =~= Seq::new(expected[4].values@.len(), |j: int| inserted));
    if 0 <= r < 4 {
        assert(upgraded[r] == first[r]);
        assert(first[r] == tensors_parts(tensors.take(4))[r]);
    }
    if 0 <= k < layers {
        lemma_legacy_upgrade_prefix(tensors, expected, layers, (k + 1) as nat, inserted);
        lemma_legacy_upgrade_len(tensors, expected, k as nat, inserted);
        let upto = legacy_upgrade(tensors, expected, (k + 1) as nat, inserted);
        let before = legacy_upgrade(tensors, expected, k as nat, inserted);
        let block = legacy_layer_block(tensors, expected, k, inserted);
        assert(upto == before + block);
        let e = 5 + 16 * k;
        let t = 4 + 14 * k;
        assert(upgraded[e] == upto[e]);
        assert(upto[e] == block[0]);
        assert(block[0] == filled_parts(expected[e], inserted));
        assert(filled_parts(expected[e], inserted).1 =~= Seq::new(expected[e].values@.len(), |j: int| inserted));
        assert(upgraded[e + 9] == upto[e + 9]);
        assert(upto[e + 9] == block[9]);
        assert(block[9] == filled_parts(expected[e + 9], inserted));
        assert(filled_parts(expected[e + 9], inserted).1 =~= Seq::new(expected[e + 9].values@.len(), |j: int| inserted));
        if 0 <= r < 8 {
            assert(upgraded[e + 1 + r] == upto[e + 1 + r]);
            assert(upto[e + 1 + r] == block[1 + r]);
            assert(block[1 + r] == tensors_parts(tensors.subrange(t, t + 8))[r]);
        }
        if 0 <= r < 6 {
            assert(upgraded[e + 10 + r] == upto[e + 10 + r]);
            assert(upto[e + 10 + r] == block[10 + r]);
            assert(block[10 + r] == tensors_parts(tensors.subrange(t + 8, t + 14))[r]);
        }
    }
}

/// Appends copies of `tensors[from..to]` to `out`.
fn append_tensor_copies<T: Copy>(out: &mut Vec<CheckpointTensor<T>>, tensors: &[CheckpointTensor<T>], from: usize, to: usize)
    requires
        from <= to <= tensors@.len(),
    ensures
        tensors_parts(final(out)@) == tensors_parts(old(out)@) + tensors_parts(tensors@.subrange(from as int, to as int)),
{
    let ghost start = tensors_parts(out@);
    let mut k: usize = from;
    while k < to
        invariant
            from <= k <= to,
            to <= tensors@.len(),
            tensors_parts(out@) == start + tensors_parts(tensors@.subrange(from as int, k as int)),
        decreases to - k,
    {
        let ghost before = tensors_parts(out@);
        let copy = tensors[k].copy();
        out.push(copy);
        assert(tensors_parts(out@) =~= before.push(tensor_parts(tensors@[k as int])));
        k = k + 1;
        assert(tensors_parts(out@) =~= start + tensors_parts(tensors@.subrange(from as int, k as int)));
    }
}

/// Brings checkpoint tensors into the current layout. Tensors already in the
/// current layout (as many as expected) are kept. A legacy checkpoint, which
/// lacks the RMSNorm gains, gets the gains inserted at their places, filled
/// with `inserted_value`. Any other tensor count is an error.
pub fn upgrade_legacy_checkpoint_tensors_for_norm_gains<T: Copy>(
    tensors: &[CheckpointTensor<T>],
    expected_tensors: &[CheckpointTensor<T>],
    layer_count: usize,
    inserted_value: T,
) -> (upgraded: Result<Vec<CheckpointTensor<T>>, String>)
    requires
        tensors@.len() != expected_tensors@.len() ==> legacy_tensor_count(layer_count as nat) <= usize::MAX,
        tensors@.len() != expected_tensors@.len() && tensors@.len() == legacy_tensor_count(layer_count as nat)
            ==> expected_tensors@.len() >= 5 + 16 * layer_count,
    ensures
        tensors@.len() == expected_tensors@.len() ==> (upgraded matches Ok(ts) && tensors_parts(ts@)
            == tensors_parts(tensors@)),
        tensors@.len() != expected_tensors@.len() && tensors@.len() != legacy_tensor_count(layer_count as nat)
            ==> (upgraded matches Err(m) && m@ == tensor_count_message(tensors@.len(), expected_tensors@.len())),
        tensors@.len() != expected_tensors@.len() && tensors@.len() == legacy_tensor_count(layer_count as nat)
            ==> (upgraded matches Ok(ts) && tensors_parts(ts@) == legacy_upgrade(
            tensors@,
            expected_tensors@,
            layer_count as nat,
            inserted_value,
        )),
{
    if tensors.len() == expected_tensors.len() {
        let mut copies: Vec<CheckpointTensor<T>> = Vec::new();
        append_tensor_copies(&mut copies, tensors, 0, tensors.len());
        assert(tensors@.subrange(0, tensors@.len() as int) =~= tensors@);
        assert(tensors_parts(copies@) =~= tensors_parts(tensors@));
        return Ok(copies);
    }
    let legacy_count = 4 + layer_count * 14;
    if tensors.len() != legacy_count {
        let mut message = String::from_str("checkpoint has ");
        let count_text = usize_to_decimal(tensors.len());
        append_str(&mut message, count_text.as_str());
        append_str(&mut message, " parameter tensors, expected ");
        let expected_text = usize_to_decimal(expected_tensors.len());
        append_str(&mut message, expected_text.as_str());
        return Err(message);
    }
    let mut upgraded: Vec<CheckpointTensor<T>> = Vec::new();
    append_tensor_copies(&mut upgraded, tensors, 0, 4);
    assert(tensors@.subrange(0, 4) =~= tensors@.take(4));
    let gain = filled_checkpoint_tensor(&expected_tensors[4], inserted_value);
    let ghost before = tensors_parts(upgraded@);
    upgraded.push(gain);
    assert(tensors_parts(upgraded@) =~= before.push(tensor_parts(gain)));
    assert(tensors_parts(upgraded@) =~= legacy_upgrade(tensors@, expected_tensors@, 0, inserted_value));
    let mut layer: usize = 0;
    while layer < layer_count
        invariant
            layer <= layer_count,
            tensors@.len() == 4 + 14 * layer_count,
            expected_tensors@.len() >= 5 + 16 * layer_count,
            expected_tensors@.len() == expected_tensors.len(),
            tensors_parts(upgraded@) == legacy_upgrade(tensors@, expected_tensors@, layer as nat, inserted_value),
        decreases layer_count - layer,
    {
        let e = 5 + 16 * layer;
        let t = 4 + 14 * layer;
        let ghost start = tensors_parts(upgraded@);
        let attention_gain = filled_checkpoint_tensor(&expected_tensors[e], inserted_value);
        upgraded.push(attention_gain);
        assert(tensors_parts(upgraded@) =~= start.push(tensor_parts(attention_gain)));
        append_tensor_copies(&mut upgraded, tensors, t, t + 8);
        let ghost middle = tensors_parts(upgraded@);
        let feed_forward_gain = filled_checkpoint_tensor(&expected_tensors[e + 9], inserted_value);
        upgraded.push(feed_forward_gain);
        assert(tensors_parts(upgraded@) =~= middle.push(tensor_parts(feed_forward_gain)));
        append_tensor_copies(&mut upgraded, tensors, t + 8, t + 14);
        assert(tensors_parts(upgraded@) =~= start + legacy_layer_block(tensors@, expected_tensors@, layer as int, inserted_value));
        layer = layer + 1;
    }
    Ok(upgraded)
}

// ---------------------------------------------------------------------------
// Restoring the training state of a checkpoint
// ---------------------------------------------------------------------------

/// What is wrong with the tensor given by its shape and values at `index`,
/// compared with the expected tensor; as `tensor_fault` on the parts.
pub open spec fn part_fault<T>(index: nat, part: (Seq<usize>, Seq<T>), expected: CheckpointTensor<T>) -> Option<Seq<char>> {
    if part.0 != expected.shape@ {
        Some(
            "checkpoint tensor "@ + decimal(index) + " has shape "@ + debug_list(part.0)
                + ", expected "@ + debug_list(expected.shape@),
        )
    } else if part.1.len() != shape_product(part.0) {
        Some(
            "checkpoint tensor "@ + decimal(index) + " has "@ + decimal(part.1.len())
                + " values, expected "@ + decimal(shape_product(part.0) as nat),
        )
    } else {
        None
    }
}

/// The fault of the first tensor, given by its parts, at or after `from`.
pub open spec fn first_part_fault<T>(
    parts: Seq<(Seq<usize>, Seq<T>)>,
    expected: Seq<CheckpointTensor<T>>,
    from: nat,
) -> Option<Seq<char>>
    decreases parts.len() - from,
{
    if from >= parts.len() {
        None
    } else {
        match part_fault(from, parts[from as int], expected[from as int]) {
            Some(message) => Some(message),
            None => first_part_fault(parts, expected, from + 1),
        }
    }
}

/// The values of tensors given by their parts, tensor after tensor.
pub open spec fn part_values<T>(parts: Seq<(Seq<usize>, Seq<T>)>) -> Seq<T> {
    parts.map_values(|p: (Seq<usize>, Seq<T>)| p.1).flatten()
}

proof fn lemma_first_fault_by_parts<T>(tensors: Seq<CheckpointTensor<T>>, expected: Seq<CheckpointTensor<T>>, from: nat)
    ensures
        first_tensor_fault(tensors, expected, from) == first_part_fault(tensors_parts(tensors), expected, from),
    decreases tensors.len() - from,
{
    if from < tensors.len() {
        lemma_first_fault_by_parts(tensors, expected, from + 1);
        assert(tensors_parts(tensors)[from as int] == tensor_parts(tensors[from as int]));
    }
}

pub(crate) proof fn lemma_values_by_parts<T>(tensors: Seq<CheckpointTensor<T>>)
    ensures
        tensor_values(tensors) == part_values(tensors_parts(tensors)),
{
    assert(tensors.map_values(|t: CheckpointTensor<T>| t.values@) =~= tensors_parts(tensors).map_values(
        |p: (Seq<usize>, Seq<T>)| p.1,
    ));
}

/// The tensors of a checkpoint in the current layout: kept as they are when
/// there are as many as expected, upgraded from the legacy layout when there
/// are as many as that has, otherwise the tensor count error.
pub open spec fn upgraded_parts<T>(
    tensors: Seq<CheckpointTensor<T>>,
    expected: Seq<CheckpointTensor<T>>,
    layer_count: nat,
    inserted: T,
) -> Result<Seq<(Seq<usize>, Seq<T>)>, Seq<char>> {
    if tensors.len() == expected.len() {
        Ok(tensors_parts(tensors))
    } else if tensors.len() == legacy_tensor_count(layer_count) {
        Ok(legacy_upgrade(tensors, expected, layer_count, inserted))
    } else {
        Err(tensor_count_message(tensors.len(), expected.len()))
    }
}

/// The values of tensors in the current layout, or the first fault.
pub open spec fn flattened_parts<T>(
    parts: Seq<(Seq<usize>, Seq<T>)>,
    expected: Seq<CheckpointTensor<T>>,
) -> Result<Seq<T>, Seq<char>> {
    if parts.len() != expected.len() {
        Err(tensor_count_message(parts.len(), expected.len()))
    } else {
        match first_part_fault(parts, expected, 0) {
            Some(message) => Err(message),
            None => Ok(part_values(parts)),
        }
    }
}

/// The parameters and the two optimizer moments of a checkpoint as flat
/// values: all three are brought into the current layout first (parameters
/// with gains of `parameter_fill`, moments with `moment_fill`), then all
/// three are checked and flattened; the first error in that order is the
/// outcome.
pub open spec fn restore_outcome<T>(
    parameters: Seq<CheckpointTensor<T>>,
    first_moments: Seq<CheckpointTensor<T>>,
    second_moments: Seq<CheckpointTensor<T>>,
    expected: Seq<CheckpointTensor<T>>,
    layer_count: nat,
    parameter_fill: T,
    moment_fill: T,
) -> Result<(Seq<T>, Seq<T>, Seq<T>), Seq<char>> {
    match upgraded_parts(parameters, expected, layer_count, parameter_fill) {
        Err(m) => Err(m),
        Ok(p) => match upgraded_parts(first_moments, expected, layer_count, moment_fill) {
            Err(m) => Err(m),
            Ok(f) => match upgraded_parts(second_moments, expected, layer_count, moment_fill) {
                Err(m) => Err(m),
                Ok(s) => match flattened_parts(p, expected) {
                    Err(m) => Err(m),
                    Ok(pv) => match flattened_parts(f, expected) {
                        Err(m) => Err(m),
                        Ok(fv) => match flattened_parts(s, expected) {
                            Err(m) => Err(m),
                            Ok(sv) => Ok((pv, fv, sv)),
                        },
                    },
                },
            },
        },
    }
}

/// A checkpoint read back restores what was saved: parameter tensors shaped
/// and sized as expected, and optimizer moments cut into tensors shaped like
/// the expected ones, come back as the parameter values and the very same
/// moment values.
pub proof fn lemma_checkpoint_state_roundtrip<T>(
    parameters: Seq<CheckpointTensor<T>>,
    first_moment_tensors: Seq<CheckpointTensor<T>>,
    second_moment_tensors: Seq<CheckpointTensor<T>>,
    first_moments: Seq<T>,
    second_moments: Seq<T>,
    expected: Seq<CheckpointTensor<T>>,
    layer_count: nat,
    parameter_fill: T,
    moment_fill: T,
)
    requires
        parameters.len() == expected.len(),
        forall|i: int| 0 <= i < parameters.len() ==> tensor_fault(i as nat, #[trigger] parameters[i], expected[i]) is None,
        forall|i: int| 0 <= i < expected.len() ==> #[trigger] expected[i].values@.len() == shape_product(expected[i].shape@),
        first_moments.len() == value_count_total(expected),
        second_moments.len() == value_count_total(expected),
        tensors_parts(first_moment_tensors) == split_into_tensors(first_moments, expected),
        tensors_parts(second_moment_tensors) == split_into_tensors(second_moments, expected),
    ensures
        restore_outcome(
            parameters,
            first_moment_tensors,
            second_moment_tensors,
            expected,
            layer_count,
            parameter_fill,
            moment_fill,
        ) == Ok::<(Seq<T>, Seq<T>, Seq<T>), Seq<char>>((tensor_values(parameters), first_moments, second_moments)),
{
    lemma_optimizer_state_roundtrip(first_moments, expected, first_moment_tensors);
    lemma_optimizer_state_roundtrip(second_moments, expected, second_moment_tensors);
    lemma_no_fault_from(parameters, expected, 0);
    lemma_first_fault_by_parts(parameters, expected, 0);
    lemma_first_fault_by_parts(first_moment_tensors, expected, 0);
    lemma_first_fault_by_parts(second_moment_tensors, expected, 0);
    lemma_values_by_parts(parameters);
    lemma_values_by_parts(first_moment_tensors);
    lemma_values_by_parts(second_moment_tensors);
}

/// The flat parameter values and optimizer moments restored from a
/// checkpoint.
pub struct RestoredTrainingValues<T> {
    pub parameters: Vec<T>,
    pub first_moment_estimates: Vec<T>,
    pub second_moment_estimates: Vec<T>,
}

fn upgrade_tensors<T: Copy>(
    tensors: &[CheckpointTensor<T>],
    expected_tensors: &[CheckpointTensor<T>],
    layer_count: usize,
    fill: T,
) -> (upgraded: Result<Vec<CheckpointTensor<T>>, String>)
    requires
        expected_tensors.len() == 5 + 16 * layer_count,
    ensures
        match upgraded_parts(tensors@, expected_tensors@, layer_count as nat, fill) {
            Ok(parts) => upgraded matches Ok(ts) && tensors_parts(ts@) == parts && parts.len() == expected_tensors@.len(),
            Err(m) => upgraded matches Err(e) && e@ == m,
        },
{
    let upgraded = upgrade_legacy_checkpoint_tensors_for_norm_gains(tensors, expected_tensors, layer_count, fill);
    proof {
        if tensors@.len() != expected_tensors@.len() && tensors@.len() == legacy_tensor_count(layer_count as nat) {
            lemma_legacy_upgrade_len(tensors@, expected_tensors@, layer_count as nat, fill);
        }
    }
    upgraded
}

fn flatten_tensors<T: Copy>(
    tensors: &[CheckpointTensor<T>],
    expected_tensors: &[CheckpointTensor<T>],
) -> (values: Result<Vec<T>, String>)
    requires
        shapes_fit(expected_tensors@),
        tensors@.len() == expected_tensors@.len(),
    ensures
        match flattened_parts(tensors_parts(tensors@), expected_tensors@) {
            Ok(v) => values matches Ok(w) && w@ == v,
            Err(m) => values matches Err(e) && e@ == m,
        },
{
    proof {
        lemma_first_fault_by_parts(tensors@, expected_tensors@, 0);
        lemma_values_by_parts(tensors@);
    }
    flatten_checkpoint_tensors(tensors, expected_tensors)
}

/// Restores the flat parameter values and optimizer moments of a
/// checkpoint: brings the three tensor lists into the current layout, then
/// checks and flattens them, stopping at the first error.
pub fn restore_checkpoint_values<T: Copy>(
    parameters: &[CheckpointTensor<T>],
    first_moments: &[CheckpointTensor<T>],
    second_moments: &[CheckpointTensor<T>],
    expected_tensors: &[CheckpointTensor<T>],
    layer_count: usize,
    parameter_fill: T,
    moment_fill: T,
) -> (restored: Result<RestoredTrainingValues<T>, String>)
    requires
        expected_tensors.len() == 5 + 16 * layer_count,
        shapes_fit(expected_tensors@),
    ensures
        match restore_outcome(
            parameters@,
            first_moments@,
            second_moments@,
            expected_tensors@,
            layer_count as nat,
            parameter_fill,
            moment_fill,
        ) {
            Ok((p, f, s)) => restored matches Ok(r) && r.parameters@ == p && r.first_moment_estimates@ == f
                && r.second_moment_estimates@ == s,
            Err(m) => restored matches Err(e) && e@ == m,
        },
{
    let p = match upgrade_tensors(parameters, expected_tensors, layer_count, parameter_fill) {
        Ok(p) => p,
        Err(e) => return Err(e),
    };
    let f = match upgrade_tensors(first_moments, expected_tensors, layer_count, moment_fill) {
        Ok(f) => f,
        Err(e) => return Err(e),
    };
    let s = match upgrade_tensors(second_moments, expected_tensors, layer_count, moment_fill) {
        Ok(s) => s,
        Err(e) => return Err(e),
    };
    let parameter_values = match flatten_tensors(p.as_slice(), expected_tensors) {
        Ok(v) => v,
        Err(e) => return Err(e),
    };
    let first_values = match flatten_tensors(f.as_slice(), expected_tensors) {
        Ok(v) => v,
        Err(e) => return Err(e),
    };
    let second_values = match flatten_tensors(s.as_slice(), expected_tensors) {
        Ok(v) => v,
        Err(e) => return Err(e),
    };
    Ok(RestoredTrainingValues {
        parameters: parameter_values,
        first_moment_estimates: first_values,
        second_moment_estimates: second_values,
    })
}

} // verus!
