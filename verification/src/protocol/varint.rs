//! Variable-length integers, seven bits to a byte, least significant group first.
//!
//! The bytes are written and read by the `varinteger` crate. The contracts of the three
//! functions that the bitfield codec calls are stated here and are not proved.
use vstd::prelude::*;

verus! {

/// The bytes of `n`: every byte but the last carries the continuation bit.
pub open spec fn varint(n: nat) -> Seq<u8>
    decreases n,
{
    if n < 128 {
        seq![n as u8]
    } else {
        seq![(n % 128 + 128) as u8] + varint(n / 128)
    }
}

/// Just past the varint that starts at `at`; past the end of `s` if no byte from `at` on
/// ends one.
pub open spec fn varint_end(s: Seq<u8>, at: int) -> int
    decreases s.len() - at,
{
    if at >= s.len() {
        s.len() + 1int
    } else if s[at] < 128 {
        at + 1
    } else {
        varint_end(s, at + 1)
    }
}

/// The number whose groups of seven bits are the low bits of the bytes of `s`.
pub open spec fn varint_value(s: Seq<u8>) -> nat
    decreases s.len(),
{
    if s.len() == 0 {
        0
    } else {
        (s[0] % 128) as nat + 128 * varint_value(s.drop_first())
    }
}

/// The groups of the varint at `at` that count: a 64-bit number has at most ten, and
/// those after the tenth are passed over.
pub open spec fn varint_groups(s: Seq<u8>, at: int) -> Seq<u8> {
    let end = varint_end(s, at);
    s.subrange(at, if end - at > 10 { at + 10 } else { end })
}

/// The number that the varint at `at` stands for.
pub open spec fn varint_at(s: Seq<u8>, at: int) -> nat {
    varint_value(varint_groups(s, at))
}

/// Whether a varint starts at `at`, ends inside `s` and fits in 64 bits.
pub open spec fn is_varint_at(s: Seq<u8>, at: int) -> bool {
    &&& 0 <= at
    &&& varint_end(s, at) <= s.len()
    &&& varint_at(s, at) <= u64::MAX
}

/// `varinteger::length` returns how many bytes `varinteger::encode` writes.
pub assume_specification[ varinteger::length ](value: u64) -> (r: usize)
    ensures
        r == varint(value as nat).len(),
;

/// `varinteger::encode` writes the bytes of the value at the start of the buffer, leaves
/// the rest of the buffer alone and returns how many bytes it wrote. It panics where the
/// buffer is shorter than that.
pub assume_specification[ varinteger::encode ](value: u64, buf: &mut [u8]) -> (r: usize)
    requires
        varint(value as nat).len() <= old(buf)@.len(),
    ensures
        r == varint(value as nat).len(),
        final(buf)@ == varint(value as nat) + old(buf)@.skip(r as int),
;

/// `varinteger::decode_with_offset` reads one varint and returns how many bytes it took.
/// It panics where the buffer ends inside the varint, or the number is over 64 bits.
pub assume_specification[ varinteger::decode_with_offset ](
    buf: &[u8],
    offset: usize,
    value: &mut u64,
) -> (r: usize)
    requires
        is_varint_at(buf@, offset as int),
    ensures
        r == varint_end(buf@, offset as int) - offset,
        *final(value) == varint_at(buf@, offset as int),
;

/// A varint has at least one byte, and at most ten of a 64-bit number.
pub proof fn lemma_varint_len(n: nat)
    ensures
        1 <= varint(n).len(),
        n <= u64::MAX ==> varint(n).len() <= 10,
{
    reveal_with_fuel(varint, 11);
}

/// Where a varint ends, it ends past its start.
pub proof fn lemma_varint_end_bounds(s: Seq<u8>, at: int)
    requires
        0 <= at,
    ensures
        at < varint_end(s, at) || at > s.len(),
        varint_end(s, at) <= s.len() + 1,
    decreases s.len() - at,
{
    if at < s.len() && s[at] >= 128 {
        lemma_varint_end_bounds(s, at + 1);
    }
}

/// The bytes of `n`, wherever they stand in `s`, are read back as `n`, and reading stops
/// right behind them.
pub proof fn lemma_varint_reads_back(n: nat, s: Seq<u8>, at: int)
    requires
        n <= u64::MAX,
        0 <= at,
        at + varint(n).len() <= s.len(),
        s.subrange(at, at + varint(n).len()) == varint(n),
    ensures
        varint_end(s, at) == at + varint(n).len(),
        varint_at(s, at) == n,
{
    lemma_varint_len(n);
    lemma_varint_end(n, s, at);
    lemma_varint_value(n);
    assert(varint_groups(s, at) =~= varint(n));
}

proof fn lemma_varint_end(n: nat, s: Seq<u8>, at: int)
    requires
        0 <= at,
        at + varint(n).len() <= s.len(),
        s.subrange(at, at + varint(n).len()) == varint(n),
    ensures
        varint_end(s, at) == at + varint(n).len(),
    decreases n,
{
    let v = varint(n);
    assert(s.subrange(at, at + v.len())[0] == s[at]);
    if n >= 128 {
        assert(v.drop_first() =~= varint(n / 128));
        assert(s.subrange(at + 1, at + 1 + varint(n / 128).len()) =~= s.subrange(
            at,
            at + v.len(),
        ).drop_first());
        lemma_varint_end(n / 128, s, at + 1);
    }
}

proof fn lemma_varint_value(n: nat)
    ensures
        varint_value(varint(n)) == n,
    decreases n,
{
    if n >= 128 {
        lemma_varint_value(n / 128);
        assert(varint(n).drop_first() =~= varint(n / 128));
    } else {
        assert(varint(n).drop_first() =~= Seq::<u8>::empty());
        assert(varint_value(varint(n).drop_first()) == 0);
    }
}

proof fn lemma_varint_value_fits(s: Seq<u8>)
    requires
        s.len() <= 10,
    ensures
        varint_value(s) <= u64::MAX <==> (s.len() < 10 || s[9] % 128 <= 1),
{
    reveal_with_fuel(varint_value, 11);
}

/// Tells whether `varinteger::decode_with_offset` may be called.
pub fn is_readable(buf: &[u8], offset: usize) -> (r: bool)
    ensures
        r == is_varint_at(buf@, offset as int),
{
    let mut at: usize = offset;
    while at < buf.len() && buf[at] >= 128
        invariant
            offset <= at,
            offset <= buf@.len() ==> at <= buf@.len(),
            offset > buf@.len() ==> at == offset,
            varint_end(buf@, offset as int) == varint_end(buf@, at as int),
        decreases buf@.len() - at,
    {
        at += 1;
    }
    if at >= buf.len() {
        return false;
    }
    proof {
        lemma_varint_value_fits(varint_groups(buf@, offset as int));
    }
    at - offset < 9 || buf[offset + 9] % 128 <= 1
}

} // verus!
