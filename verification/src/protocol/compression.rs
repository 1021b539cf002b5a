//! Delta coding of inputs: each is told by the bits in which it differs from the one
//! before it, and the bits are run-length coded.
use super::bitfield;
use crate::input_value::InputValue;
use vstd::arithmetic::div_mod::{lemma_div_by_multiple, lemma_fundamental_div_mod};
use vstd::arithmetic::mul::{lemma_mul_inequality, lemma_mul_is_distributive_add_other_way};
use vstd::prelude::*;

verus! {

/// The maximum supported size of the raw buffer.
pub const MAX_BUFFER_SIZE: usize = 65535;

/// Why bytes of plain data could not be read as a value, in the words of `bytemuck`.
#[verifier::external_type_specification]
#[verifier::external_body]
pub struct ExPodCastError(bytemuck::PodCastError);

/// Why a set of values could not be encoded.
#[derive(Debug)]
pub enum EncodeError {
    /// The delta encoded bytes are more than the buffer may hold.
    TooBig { len: usize },
}

/// Why a buffer could not be decoded.
#[derive(Debug)]
pub enum DecodeError {
    /// The bytes of a value are not those of the input type.
    Cast(bytemuck::PodCastError),
    /// The last run of the bitfield ends behind the buffer.
    InvalidRLEBitfield { offset: usize, len: usize },
    /// The decoded bytes are more than the buffer may hold.
    TooBig { len: usize },
}

impl From<bytemuck::PodCastError> for DecodeError {
    fn from(value: bytemuck::PodCastError) -> (r: Self) {
        Self::Cast(value)
    }
}

impl vstd::std_specs::convert::FromSpecImpl<bytemuck::PodCastError> for DecodeError {
    open spec fn obeys_from_spec() -> bool {
        true
    }

    open spec fn from_spec(value: bytemuck::PodCastError) -> Self {
        DecodeError::Cast(value)
    }
}

/// The bits in which two strings of bytes differ.
pub open spec fn xor(a: Seq<u8>, b: Seq<u8>) -> Seq<u8> {
    Seq::new(a.len(), |i: int| a[i] ^ b[i])
}

/// The value that the value at `i` is told by.
pub open spec fn reference<T>(base: T, data: Seq<T>, i: int) -> T {
    if i == 0 {
        base
    } else {
        data[i - 1]
    }
}

/// The differences between each value and the one before it, in order.
pub open spec fn delta<T: InputValue>(base: T, data: Seq<T>) -> Seq<u8>
    decreases data.len(),
{
    if data.len() == 0 {
        Seq::empty()
    } else {
        delta(base, data.drop_last()) + xor(
            reference(base, data, data.len() - 1).bytes(),
            data.last().bytes(),
        )
    }
}

/// Whether values fit in the buffer.
pub open spec fn fits<T: InputValue>(count: int) -> bool {
    count * T::size() <= MAX_BUFFER_SIZE
}

/// Whether `len` is the size of as few values as do not fit in the buffer.
pub open spec fn first_overflow<T: InputValue>(len: int) -> bool {
    &&& len % T::size() as int == 0
    &&& MAX_BUFFER_SIZE < len <= MAX_BUFFER_SIZE + T::size()
}

/// The bytes of the value at `i` that the differences tell.
pub open spec fn undelta(base: Seq<u8>, delta: Seq<u8>, i: int) -> Seq<u8>
    decreases i,
{
    let size = base.len() as int;
    let difference = delta.subrange(i * size, i * size + size);
    if i <= 0 {
        xor(base, difference)
    } else {
        xor(undelta(base, delta, i - 1), difference)
    }
}

/// The values that the differences tell, relative to a reference value.
pub open spec fn is_undelta<T: InputValue>(base: T, delta: Seq<u8>, values: Seq<T>) -> bool {
    &&& values.len() == delta.len() / T::size()
    &&& forall|i: int|
        0 <= i < values.len() ==> (#[trigger] values[i]).bytes() == undelta(base.bytes(), delta, i)
}

/// Encodes a set of values into a byte buffer relative to a reference snapshot.
///
/// This function fails if the delta encoded output is bigger than `MAX_BUFFER_SIZE` to
/// prevent memory exhaustion.
pub fn encode<T: InputValue>(base: &T, data: &[T]) -> (r: Result<Vec<u8>, EncodeError>)
    ensures
        match r {
            Ok(bits) => fits::<T>(data@.len() as int) && bits@ == bitfield::encoded(
                delta(*base, data@),
            ),
            Err(EncodeError::TooBig { len }) => !fits::<T>(data@.len() as int)
                && first_overflow::<T>(len as int),
        },
{
    match delta_encode(base, data) {
        Ok(bytes) => {
            proof {
                lemma_delta_len(*base, data@);
            }
            Ok(bitfield::encode(bytes.as_slice()))
        },
        Err(err) => Err(err),
    }
}

proof fn lemma_delta_len<T: InputValue>(base: T, data: Seq<T>)
    ensures
        delta(base, data).len() == data.len() * T::size(),
    decreases data.len(),
{
    if data.len() > 0 {
        lemma_delta_len(base, data.drop_last());
        reference(base, data, data.len() - 1).lemma_bytes_len();
        lemma_mul_is_distributive_add_other_way(T::size() as int, data.len() - 1, 1);
    }
}

/// The differences between each value and the one before it.
fn delta_encode<T: InputValue>(base: &T, data: &[T]) -> (r: Result<Vec<u8>, EncodeError>)
    ensures
        match r {
            Ok(bytes) => fits::<T>(data@.len() as int) && bytes@ == delta(*base, data@),
            Err(EncodeError::TooBig { len }) => !fits::<T>(data@.len() as int)
                && first_overflow::<T>(len as int),
        },
{
    let mut bits: Vec<u8> = base.to_bytes();
    let mut bytes: Vec<u8> = Vec::new();
    let mut idx: usize = 0;
    assert(data@.take(0) =~= Seq::<T>::empty());
    while idx < data.len()
        invariant
            idx <= data@.len(),
            bits@ == reference(*base, data@, idx as int).bytes(),
            bytes@ == delta(*base, data@.take(idx as int)),
            fits::<T>(idx as int),
        decreases data@.len() - idx,
    {
        let datum_bytes: Vec<u8> = data[idx].to_bytes();
        let ghost before = bytes@;
        let ghost old_bits = bits@;
        proof {
            data[idx as int].lemma_bytes_len();
            reference(*base, data@, idx as int).lemma_bytes_len();
            lemma_delta_len(*base, data@.take(idx as int));
        }
        let mut i: usize = 0;
        while i < bits.len()
            invariant
                i <= bits@.len(),
                bits@.len() == old_bits.len(),
                datum_bytes@.len() == bits@.len(),
                bytes@ == before + xor(old_bits, datum_bytes@).take(i as int),
                bits@ == datum_bytes@.take(i as int) + old_bits.skip(i as int),
            decreases bits@.len() - i,
        {
            bytes.push(bits[i] ^ datum_bytes[i]);
            bits.set(i, datum_bytes[i]);
            i += 1;
            assert(bytes@ =~= before + xor(old_bits, datum_bytes@).take(i as int));
            assert(bits@ =~= datum_bytes@.take(i as int) + old_bits.skip(i as int));
        }
        proof {
            assert(xor(old_bits, datum_bytes@).take(i as int) =~= xor(old_bits, datum_bytes@));
            assert(bits@ =~= datum_bytes@);
            assert(data@.take(idx + 1).drop_last() =~= data@.take(idx as int));
            lemma_delta_len(*base, data@.take(idx + 1));
        }
        idx += 1;
        if bytes.len() > MAX_BUFFER_SIZE {
            proof {
                lemma_mul_inequality(idx as int, data@.len() as int, T::size() as int);
                lemma_mul_is_distributive_add_other_way(T::size() as int, idx - 1, 1);
                vstd::arithmetic::div_mod::lemma_mod_multiples_basic(idx as int, T::size() as int);
            }
            return Err(EncodeError::TooBig { len: bytes.len() });
        }
    }
    assert(data@.take(idx as int) =~= data@);
    Ok(bytes)
}

/// Decodes a set of delta encoded bytes into a buffer of values relative to a reference
/// snapshot.
///
/// This function fails if the delta encoded output is bigger than `MAX_BUFFER_SIZE` to
/// prevent memory exhaustion.
pub fn decode<T: InputValue>(base: &T, data: &[u8]) -> (r: Result<Vec<T>, DecodeError>)
    requires
        T::size() > 0,
        bitfield::is_bitfield(data@, 0),
    ensures
        match r {
            Ok(values) => {
                &&& bitfield::decoded_end(data@, 0) == data@.len()
                &&& bitfield::decoded(data@, 0).len() <= MAX_BUFFER_SIZE
                &&& is_undelta(*base, bitfield::decoded(data@, 0), values@)
            },
            Err(DecodeError::InvalidRLEBitfield { offset, len }) => {
                &&& bitfield::decoded_end(data@, 0) > data@.len()
                &&& offset == bitfield::decoded_end(data@, 0)
                &&& len == data@.len()
            },
            Err(DecodeError::TooBig { len }) => {
                &&& bitfield::decoded_end(data@, 0) == data@.len()
                &&& len == bitfield::decoded(data@, 0).len()
                &&& len > MAX_BUFFER_SIZE
            },
            Err(DecodeError::Cast(_)) => false,
        },
{
    match read_delta(data) {
        Ok(delta) => apply_delta(base, delta.as_slice()),
        Err(err) => Err(err),
    }
}

/// Reads the differences that a buffer holds.
pub fn read_delta(data: &[u8]) -> (r: Result<Vec<u8>, DecodeError>)
    requires
        bitfield::is_bitfield(data@, 0),
    ensures
        match r {
            Ok(delta) => {
                &&& bitfield::decoded_end(data@, 0) == data@.len()
                &&& bitfield::decoded(data@, 0).len() <= MAX_BUFFER_SIZE
                &&& delta@ == bitfield::decoded(data@, 0)
            },
            Err(DecodeError::InvalidRLEBitfield { offset, len }) => {
                &&& bitfield::decoded_end(data@, 0) > data@.len()
                &&& offset == bitfield::decoded_end(data@, 0)
                &&& len == data@.len()
            },
            Err(DecodeError::TooBig { len }) => {
                &&& bitfield::decoded_end(data@, 0) == data@.len()
                &&& len == bitfield::decoded(data@, 0).len()
                &&& len > MAX_BUFFER_SIZE
            },
            Err(DecodeError::Cast(_)) => false,
        },
{
    let delta_len: usize = match bitfield::decode_len(data) {
        Ok(delta_len) => delta_len,
        Err(err) => {
            return Err(err);
        },
    };
    if delta_len > MAX_BUFFER_SIZE {
        return Err(DecodeError::TooBig { len: delta_len });
    }
    bitfield::decode(data)
}

/// The values that differences tell, relative to a reference snapshot.
pub fn apply_delta<T: InputValue>(base: &T, delta: &[u8]) -> (r: Result<Vec<T>, DecodeError>)
    requires
        T::size() > 0,
    ensures
        match r {
            Ok(values) => is_undelta(*base, delta@, values@),
            Err(_) => false,
        },
{
    let mut bits: Vec<u8> = base.to_bytes();
    let stride: usize = bits.len();
    proof {
        base.lemma_bytes_len();
    }
    let output_size: usize = delta.len() / stride;
    let mut output: Vec<T> = Vec::with_capacity(output_size);
    proof {
        lemma_fundamental_div_mod(delta@.len() as int, stride as int);
    }
    let mut idx: usize = 0;
    while idx < output_size
        invariant
            stride == T::size(),
            stride > 0,
            base.bytes().len() == stride,
            bits@.len() == stride,
            idx <= output_size,
            output@.len() == idx,
            output_size == delta@.len() / stride as nat,
            stride * output_size <= delta@.len(),
            bits@ == (if idx == 0 {
                base.bytes()
            } else {
                undelta(base.bytes(), delta@, idx - 1)
            }),
            forall|i: int|
                0 <= i < idx ==> (#[trigger] output@[i]).bytes() == undelta(
                    base.bytes(),
                    delta@,
                    i,
                ),
        decreases output_size - idx,
    {
        let ghost before = bits@;
        let ghost size = stride as int;
        let ghost difference = delta@.subrange(idx * size, idx * size + size);
        assert(0 <= idx * size && idx * size + size <= delta@.len() && idx * size == idx * stride
            && idx * stride + stride <= delta.len()) by {
            lemma_mul_inequality(idx + 1, output_size as int, size);
            lemma_mul_is_distributive_add_other_way(size, idx as int, 1);
            vstd::arithmetic::mul::lemma_mul_is_commutative(size, output_size as int);
            vstd::arithmetic::mul::lemma_mul_nonnegative(idx as int, size);
        }
        let mut local_idx: usize = 0;
        while local_idx < bits.len()
            invariant
                local_idx <= bits@.len(),
                bits@.len() == stride,
                before.len() == stride,
                size == stride,
                idx * stride + stride <= delta.len(),
                0 <= idx * stride,
                difference == delta@.subrange(idx * size, idx * size + size),
                bits@ == xor(before, difference).take(local_idx as int) + before.skip(
                    local_idx as int,
                ),
            decreases bits@.len() - local_idx,
        {
            let byte: u8 = bits[local_idx] ^ delta[idx * stride + local_idx];
            assert(difference[local_idx as int] == delta@[idx * stride + local_idx]);
            bits.set(local_idx, byte);
            local_idx += 1;
            assert(bits@ =~= xor(before, difference).take(local_idx as int) + before.skip(
                local_idx as int,
            ));
        }
        assert(bits@ =~= xor(before, difference));
        match T::from_bytes(bits.as_slice()) {
            Ok(value) => output.push(value),
            Err(err) => {
                return Err(DecodeError::from(err));
            },
        }
        idx += 1;
    }
    Ok(output)
}

/// Decoding relative to the same snapshot gives back the values that were encoded.
pub proof fn law_decode_of_encode<T: InputValue>(base: T, data: Seq<T>, values: Seq<T>)
    requires
        T::size() > 0,
        fits::<T>(data.len() as int),
    ensures
        ({
            let bits = bitfield::encoded(delta(base, data));
            &&& bitfield::is_bitfield(bits, 0)
            &&& bitfield::decoded_end(bits, 0) == bits.len()
            &&& bitfield::decoded(bits, 0) == delta(base, data)
            &&& bitfield::decoded(bits, 0).len() <= MAX_BUFFER_SIZE
            &&& is_undelta(base, bitfield::decoded(bits, 0), values) <==> values == data
        }),
{
    let d = delta(base, data);
    lemma_delta_len(base, data);
    bitfield::law_decode_of_encode(d);
    law_rest_is_told_by_the_last_value(base, data, 0, values);
    assert(d.skip(0) =~= d);
    assert(data.skip(0) =~= data);
}

/// Whoever has the first values already is told the others by the rest of the differences,
/// relative to the last value that it has.
pub proof fn law_rest_is_told_by_the_last_value<T: InputValue>(
    base: T,
    data: Seq<T>,
    first: int,
    values: Seq<T>,
)
    requires
        T::size() > 0,
        0 <= first <= data.len(),
    ensures
        0 <= first * T::size() <= delta(base, data).len(),
        delta(base, data).len() / T::size() == data.len(),
        is_undelta(
            reference(base, data, first),
            delta(base, data).skip(first * T::size()),
            values,
        ) <==> values == data.skip(first),
{
    let last = reference(base, data, first);
    let rest = data.skip(first);
    lemma_delta_skip(base, data, first);
    let d = delta(last, rest);
    lemma_delta_len(base, data);
    lemma_delta_len(last, rest);
    lemma_div_by_multiple(rest.len() as int, T::size() as int);
    lemma_div_by_multiple(data.len() as int, T::size() as int);
    assert forall|i: int| 0 <= i < rest.len() implies rest[i].bytes() == undelta(
        last.bytes(),
        d,
        i,
    ) by {
        lemma_undelta_of_delta(last, rest, i);
    }
    if is_undelta(last, d, values) {
        assert forall|i: int| 0 <= i < values.len() implies values[i] == rest[i] by {
            values[i].lemma_bytes_tell(rest[i]);
        }
        assert(values =~= rest);
    }
}

proof fn lemma_delta_skip<T: InputValue>(base: T, data: Seq<T>, first: int)
    requires
        0 <= first <= data.len(),
    ensures
        0 <= first * T::size() <= delta(base, data).len(),
        delta(base, data).skip(first * T::size()) == delta(
            reference(base, data, first),
            data.skip(first),
        ),
    decreases data.len(),
{
    let size = T::size() as int;
    lemma_delta_len(base, data);
    vstd::arithmetic::mul::lemma_mul_nonnegative(first, size);
    vstd::arithmetic::mul::lemma_mul_inequality(first, data.len() as int, size);
    let rest = data.skip(first);
    if first == data.len() {
        assert(delta(base, data).skip(first * size) =~= Seq::<u8>::empty());
    } else {
        lemma_delta_skip(base, data.drop_last(), first);
        assert(data.drop_last().skip(first) =~= rest.drop_last());
        let before = reference(base, data, data.len() - 1);
        assert(reference(reference(base, data, first), rest, rest.len() - 1) == before);
        assert(delta(base, data).skip(first * size) =~= delta(base, data.drop_last()).skip(
            first * size,
        ) + xor(before.bytes(), data.last().bytes()));
    }
}

/// The differences at `i` are those between the value at `i` and the one before it.
proof fn lemma_delta_at<T: InputValue>(base: T, data: Seq<T>, i: int)
    requires
        0 <= i < data.len(),
    ensures
        0 <= i * T::size(),
        i * T::size() + T::size() <= delta(base, data).len(),
        delta(base, data).subrange(i * T::size(), i * T::size() + T::size()) == xor(
            reference(base, data, i).bytes(),
            data[i].bytes(),
        ),
    decreases data.len(),
{
    let size = T::size() as int;
    lemma_delta_len(base, data);
    lemma_delta_len(base, data.drop_last());
    reference(base, data, data.len() - 1).lemma_bytes_len();
    lemma_mul_is_distributive_add_other_way(size, data.len() - 1, 1);
    vstd::arithmetic::mul::lemma_mul_nonnegative(i, size);
    if i < data.len() - 1 {
        lemma_delta_at(base, data.drop_last(), i);
        assert(delta(base, data).subrange(i * size, i * size + size) =~= delta(
            base,
            data.drop_last(),
        ).subrange(i * size, i * size + size));
    } else {
        assert(delta(base, data).subrange(i * size, i * size + size) =~= xor(
            reference(base, data, i).bytes(),
            data[i].bytes(),
        ));
    }
}

proof fn lemma_undelta_of_delta<T: InputValue>(base: T, data: Seq<T>, i: int)
    requires
        0 <= i < data.len(),
    ensures
        undelta(base.bytes(), delta(base, data), i) == data[i].bytes(),
    decreases i,
{
    base.lemma_bytes_len();
    lemma_delta_at(base, data, i);
    let a = reference(base, data, i).bytes();
    let b = data[i].bytes();
    reference(base, data, i).lemma_bytes_len();
    data[i].lemma_bytes_len();
    if i > 0 {
        lemma_undelta_of_delta(base, data, i - 1);
    }
    assert forall|k: int| 0 <= k < a.len() implies a[k] ^ (a[k] ^ b[k]) == b[k] by {
        let x = a[k];
        let y = b[k];
        assert(x ^ (x ^ y) == y) by (bit_vector);
    }
    assert(xor(a, xor(a, b)) =~= b);
}

/// A difference holds the bits in which a byte of a value differs from the one of the value
/// before it, or of the reference value for the first.
pub proof fn law_differences_are_bitwise<T: InputValue>(base: T, data: Seq<T>, i: int, k: int)
    requires
        0 <= i < data.len(),
        0 <= k < T::size(),
    ensures
        delta(base, data).len() == data.len() * T::size(),
        0 <= i * T::size() + k < delta(base, data).len(),
        delta(base, data)[i * T::size() + k] == (if i == 0 {
            base.bytes()[k]
        } else {
            data[i - 1].bytes()[k]
        }) ^ data[i].bytes()[k],
    decreases data.len(),
{
    let rest = data.drop_last();
    let last = reference(base, data, data.len() - 1);
    lemma_delta_len(base, data);
    lemma_delta_len(base, rest);
    last.lemma_bytes_len();
    vstd::arithmetic::mul::lemma_mul_nonnegative(i, T::size() as int);
    lemma_mul_inequality(i + 1, data.len() as int, T::size() as int);
    lemma_mul_is_distributive_add_other_way(T::size() as int, i, 1);
    if i < data.len() - 1 {
        law_differences_are_bitwise(base, rest, i, k);
    }
}

/// Values fit if they have no more than 65535 bytes. What is told of values that do not is the
/// size up to the first that does not fit.
pub proof fn law_buffers_hold_65535_bytes<T: InputValue>(count: int, len: int)
    requires
        T::size() > 0,
        0 <= count,
    ensures
        fits::<T>(count) <==> count * T::size() <= 65535,
        first_overflow::<T>(len) ==> len > 65535 && len - T::size() <= 65535 && len
            % T::size() as int == 0,
        first_overflow::<T>((count + 1) * T::size()) <==> fits::<T>(count) && !fits::<T>(count + 1),
{
    lemma_mul_is_distributive_add_other_way(T::size() as int, count, 1);
    vstd::arithmetic::div_mod::lemma_mod_multiples_basic(count + 1, T::size() as int);
}

/// A byte of a value is told by the difference from the byte of the value before it.
pub proof fn law_differences_add_up(base: Seq<u8>, delta: Seq<u8>, i: int, k: int)
    requires
        0 <= i,
        0 <= k < base.len(),
        i * base.len() + base.len() <= delta.len(),
    ensures
        undelta(base, delta, i).len() == base.len(),
        undelta(base, delta, i)[k] == (if i == 0 {
            base[k]
        } else {
            undelta(base, delta, i - 1)[k]
        }) ^ delta[i * base.len() + k],
    decreases i,
{
    vstd::arithmetic::mul::lemma_mul_nonnegative(i, base.len() as int);
    if i > 0 {
        lemma_mul_is_distributive_add_other_way(base.len() as int, i - 1, 1);
        law_differences_add_up(base, delta, i - 1, k);
    }
}

} // verus!
