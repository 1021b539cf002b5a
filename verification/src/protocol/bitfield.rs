//! Run-length coding of byte strings.
//!
//! A byte string is cut into runs: of the byte 0, of the byte 255, and of other bytes. A
//! run of a repeated byte is written as one varint, `4 * length + 1`, with 2 more for the
//! byte 255. A run of other bytes is written as the varint `2 * length`, followed by the
//! bytes themselves. The empty string is written as an empty run.
use super::compression::DecodeError;
use super::varint;
use vstd::prelude::*;

verus! {

/// Whether runs of this byte are written by their length alone.
pub open spec fn is_fill(b: u8) -> bool {
    b == 0 || b == 255
}

/// Whether `b` goes on with the run that `a` is in.
pub open spec fn same_run(a: u8, b: u8) -> bool {
    if is_fill(a) {
        a == b
    } else {
        !is_fill(b)
    }
}

/// How long the first run of `s` is.
pub open spec fn run_len(s: Seq<u8>) -> nat
    decreases s.len(),
{
    if s.len() <= 1 {
        s.len()
    } else if same_run(s[0], s[1]) {
        1 + run_len(s.drop_first())
    } else {
        1
    }
}

/// The number written for a run of a repeated byte.
pub open spec fn fill_code(b: u8, len: nat) -> nat {
    4 * len + (if b == 255 {
        3nat
    } else {
        1nat
    })
}

/// The bytes written for one run.
pub open spec fn encoded_run(run: Seq<u8>) -> Seq<u8> {
    if is_fill(run[0]) {
        varint::varint(fill_code(run[0], run.len()))
    } else {
        varint::varint(2 * run.len()) + run
    }
}

/// The bytes written for the runs of `s`.
pub open spec fn encoded_runs(s: Seq<u8>) -> Seq<u8>
    decreases s.len(),
{
    if s.len() == 0 {
        Seq::empty()
    } else {
        proof {
            lemma_run_len(s);
        }
        encoded_run(s.take(run_len(s) as int)) + encoded_runs(s.skip(run_len(s) as int))
    }
}

/// The encoded form of `s`.
pub open spec fn encoded(s: Seq<u8>) -> Seq<u8> {
    if s.len() == 0 {
        varint::varint(0)
    } else {
        encoded_runs(s)
    }
}

/// Whether a string of this length has an encoded form that machine integers can count.
pub open spec fn encodable(len: int) -> bool {
    &&& 2 * len <= usize::MAX
    &&& 4 * len + 3 <= u64::MAX
}

/// How many bytes the run at `at` stands for.
pub open spec fn chunk_len(buf: Seq<u8>, at: int) -> nat {
    let n = varint::varint_at(buf, at);
    if n % 2 == 1 {
        n / 4
    } else {
        n / 2
    }
}

/// The bytes that the run at `at` stands for.
pub open spec fn chunk(buf: Seq<u8>, at: int) -> Seq<u8> {
    let n = varint::varint_at(buf, at);
    if n % 2 == 1 {
        Seq::new(
            n / 4,
            |i: int|
                if (n / 2) % 2 == 1 {
                    255u8
                } else {
                    0u8
                },
        )
    } else {
        buf.subrange(varint::varint_end(buf, at), varint::varint_end(buf, at) + n / 2)
    }
}

/// Where the run at `at` ends.
pub open spec fn chunk_end(buf: Seq<u8>, at: int) -> int {
    if varint::varint_at(buf, at) % 2 == 1 {
        varint::varint_end(buf, at)
    } else {
        varint::varint_end(buf, at) + varint::varint_at(buf, at) / 2
    }
}

/// Where the last of the runs from `at` on ends; inside the buffer, at its end.
pub open spec fn decoded_end(buf: Seq<u8>, at: int) -> int
    decreases
            (if at < buf.len() {
                buf.len() - at
            } else {
                0
            }),
{
    if at < 0 || at >= buf.len() || !varint::is_varint_at(buf, at) {
        at
    } else {
        proof {
            varint::lemma_varint_end_bounds(buf, at);
        }
        decoded_end(buf, chunk_end(buf, at))
    }
}

/// How many bytes the runs from `at` on stand for.
pub open spec fn decoded_len(buf: Seq<u8>, at: int) -> nat
    decreases
            (if at < buf.len() {
                buf.len() - at
            } else {
                0
            }),
{
    if at < 0 || at >= buf.len() || !varint::is_varint_at(buf, at) {
        0
    } else {
        proof {
            varint::lemma_varint_end_bounds(buf, at);
        }
        chunk_len(buf, at) + decoded_len(buf, chunk_end(buf, at))
    }
}

/// The bytes that the runs from `at` on stand for.
pub open spec fn decoded(buf: Seq<u8>, at: int) -> Seq<u8>
    decreases
            (if at < buf.len() {
                buf.len() - at
            } else {
                0
            }),
{
    if at < 0 || at >= buf.len() || !varint::is_varint_at(buf, at) {
        Seq::empty()
    } else {
        proof {
            varint::lemma_varint_end_bounds(buf, at);
        }
        chunk(buf, at) + decoded(buf, chunk_end(buf, at))
    }
}

/// Whether every run from `at` on starts with a varint.
pub open spec fn has_runs(buf: Seq<u8>, at: int) -> bool
    decreases
            (if at < buf.len() {
                buf.len() - at
            } else {
                0
            }),
{
    if at < 0 {
        false
    } else if at >= buf.len() {
        true
    } else if !varint::is_varint_at(buf, at) {
        false
    } else {
        proof {
            varint::lemma_varint_end_bounds(buf, at);
        }
        has_runs(buf, chunk_end(buf, at))
    }
}

/// Whether the runs from `at` on can be read, and machine integers can count what they
/// stand for.
pub open spec fn is_bitfield(buf: Seq<u8>, at: int) -> bool {
    &&& has_runs(buf, at)
    &&& decoded_len(buf, at) <= usize::MAX
    &&& decoded_end(buf, at) <= usize::MAX
}

/// The first run is not empty, and no longer than the string.
pub proof fn lemma_run_len(s: Seq<u8>)
    ensures
        run_len(s) <= s.len(),
        s.len() > 0 ==> run_len(s) >= 1,
    decreases s.len(),
{
    if s.len() > 1 {
        lemma_run_len(s.drop_first());
    }
}

/// The bytes from `j` to `i` are one run, which ends at `i`.
spec fn is_run(s: Seq<u8>, j: int, i: int) -> bool {
    &&& 0 <= j < i <= s.len()
    &&& forall|k: int| j <= k < i ==> same_run(#[trigger] s[k], s[j]) && same_run(s[j], s[k])
    &&& i < s.len() ==> !same_run(s[j], s[i])
}

proof fn lemma_run(s: Seq<u8>, j: int, i: int)
    requires
        is_run(s, j, i),
    ensures
        run_len(s.skip(j)) == i - j,
    decreases i - j,
{
    let t = s.skip(j);
    if i == j + 1 {
        if t.len() > 1 {
            assert(t[1] == s[i]);
        }
    } else {
        assert(t.drop_first() =~= s.skip(j + 1));
        assert(same_run(s[j], s[j + 1]));
        assert forall|k: int| j + 1 <= k < i implies same_run(#[trigger] s[k], s[j + 1])
            && same_run(s[j + 1], s[k]) by {
            assert(same_run(s[k], s[j]) && same_run(s[j], s[k]));
        }
        lemma_run(s, j + 1, i);
    }
}

/// The first run of `s` from `j` on is written first, and the rest behind it.
proof fn lemma_run_first(s: Seq<u8>, j: int, i: int)
    requires
        is_run(s, j, i),
    ensures
        encoded_runs(s.skip(j)) == encoded_run(s.subrange(j, i)) + encoded_runs(s.skip(i)),
{
    lemma_run(s, j, i);
    assert(s.skip(j).take(i - j) =~= s.subrange(j, i));
    assert(s.skip(j).skip(i - j) =~= s.skip(i));
}

proof fn lemma_encoded_run_len(run: Seq<u8>)
    requires
        run.len() > 0,
    ensures
        encoded_run(run).len() <= 2 * run.len(),
{
    if is_fill(run[0]) {
        lemma_varint_short(fill_code(run[0], run.len()));
    } else {
        lemma_varint_short(2 * run.len());
    }
}

proof fn lemma_varint_short(n: nat)
    ensures
        varint::varint(n).len() <= 1 || varint::varint(n).len() <= n / 4,
    decreases n,
{
    if n >= 128 {
        lemma_varint_short(n / 128);
    }
}

/// The encoded form is at most twice as long as what it stands for.
proof fn lemma_encoded_runs_len(s: Seq<u8>)
    ensures
        encoded_runs(s).len() <= 2 * s.len(),
    decreases s.len(),
{
    if s.len() > 0 {
        lemma_run_len(s);
        lemma_encoded_run_len(s.take(run_len(s) as int));
        lemma_encoded_runs_len(s.skip(run_len(s) as int));
    }
}

/// Encode a bitfield.
pub fn encode(buf: &[u8]) -> (r: Vec<u8>)
    requires
        encodable(buf@.len() as int),
    ensures
        r@ == encoded(buf@),
{
    let (enc, _) = encode_with_offset(buf, 0);
    assert(buf@.skip(0) =~= buf@);
    enc
}

/// Encode a bitfield at a specific offset. Returns how many bytes were encoded beside
/// the result.
pub fn encode_with_offset(buf: &[u8], offset: usize) -> (r: (Vec<u8>, usize))
    requires
        offset <= buf@.len(),
        encodable(buf@.len() - offset),
    ensures
        r.0@ == encoded(buf@.skip(offset as int)),
        r.1 == buf@.len() - offset,
{
    let ghost s = buf@.skip(offset as int);
    let count: usize = buf.len() - offset;
    let mut len: u64 = 0;
    let mut contiguous = false;
    let mut prev_bits: u8 = 0;
    let mut noncontiguous_bits: Vec<u8> = Vec::new();
    let mut enc: Vec<u8> = Vec::with_capacity(encode_len_with_offset(buf, offset));
    let mut i: usize = 0;
    let ghost mut start: int = 0;
    assert(s.skip(0) =~= s);

    while i < count
        invariant
            s == buf@.skip(offset as int),
            offset <= buf@.len(),
            encodable(count as int),
            count == s.len(),
            offset + count == buf.len(),
            0 <= start <= i <= count,
            i > 0 ==> start < i,
            enc@ + encoded_runs(s.skip(start)) == encoded_runs(s),
            contiguous ==> {
                &&& i > 0
                &&& is_fill(prev_bits)
                &&& len == i - start
                &&& noncontiguous_bits@.len() == 0
                &&& forall|k: int| start <= k < i ==> #[trigger] s[k] == prev_bits
            },
            !contiguous ==> {
                &&& noncontiguous_bits@ == s.subrange(start, i as int)
                &&& forall|k: int| start <= k < i ==> !is_fill(#[trigger] s[k])
            },
        decreases count - i,
    {
        let byte: u8 = buf[offset + i];
        assert(byte == s[i as int]);
        if contiguous && byte == prev_bits {
            len += 1;
        } else {
            if contiguous {
                write_contiguous(&mut enc, len, prev_bits);
                proof {
                    lemma_run_first(s, start, i as int);
                    start = i as int;
                }
            }
            if byte == 0 || byte == 255 {
                if !contiguous && i > 0 {
                    write_noncontiguous(&mut enc, &mut noncontiguous_bits);
                    proof {
                        lemma_run_first(s, start, i as int);
                        start = i as int;
                    }
                }
                len = 1;
                prev_bits = byte;
                contiguous = true;
            } else if !contiguous {
                noncontiguous_bits.push(byte);
            } else {
                contiguous = false;
                noncontiguous_bits.push(byte);
            }
        }
        i += 1;
    }

    proof {
        if count > 0 {
            lemma_run_first(s, start, count as int);
        }
        assert(s.skip(count as int) =~= Seq::<u8>::empty());
    }
    if contiguous {
        write_contiguous(&mut enc, len, prev_bits);
    } else {
        write_noncontiguous(&mut enc, &mut noncontiguous_bits);
    }
    (enc, count)
}

/// Writes a run of a repeated byte to the encoded bitfield.
fn write_contiguous(enc: &mut Vec<u8>, len: u64, prev_bits: u8)
    requires
        4 * len + 3 <= u64::MAX,
    ensures
        final(enc)@ == old(enc)@ + varint::varint(fill_code(prev_bits, len as nat)),
{
    assert(4 * len + 3 <= u64::MAX ==> len << 2 == 4 * len) by (bit_vector);
    let mut code: u64 = len << 2;
    code += 1;
    if prev_bits == 255 {
        code += 2;
    }
    let mut bytes: Vec<u8> = vec![0u8;varinteger::length(code)];
    varinteger::encode(code, bytes.as_mut_slice());
    assert(bytes@ =~= varint::varint(code as nat));
    enc.append(&mut bytes);
}

/// Writes a run of other bytes to the encoded bitfield, and empties it.
fn write_noncontiguous(enc: &mut Vec<u8>, noncontiguous_bits: &mut Vec<u8>)
    requires
        4 * old(noncontiguous_bits)@.len() + 3 <= u64::MAX,
    ensures
        final(enc)@ == old(enc)@ + varint::varint(2 * old(noncontiguous_bits)@.len())
            + old(noncontiguous_bits)@,
        final(noncontiguous_bits)@.len() == 0,
{
    let len: u64 = noncontiguous_bits.len() as u64;
    assert(4 * len + 3 <= u64::MAX ==> len << 1 == 2 * len) by (bit_vector);
    let code: u64 = len << 1;
    let mut bytes: Vec<u8> = vec![0u8;varinteger::length(code)];
    varinteger::encode(code, bytes.as_mut_slice());
    assert(bytes@ =~= varint::varint(code as nat));
    enc.append(&mut bytes);
    enc.append(noncontiguous_bits);
}

proof fn lemma_varint_len_by_quarter(n: nat, m: nat)
    requires
        n / 4 == m / 4,
    ensures
        varint::varint(n).len() == varint::varint(m).len(),
{
    reveal_with_fuel(varint::varint, 2);
}

/// Returns how many bytes an encoded bitfield will use, starting at a specific offset.
pub fn encode_len_with_offset(buf: &[u8], offset: usize) -> (r: usize)
    requires
        offset <= buf@.len(),
        encodable(buf@.len() - offset),
    ensures
        r == encoded(buf@.skip(offset as int)).len(),
{
    let ghost s = buf@.skip(offset as int);
    let count: usize = buf.len() - offset;
    let mut len: u64 = 0;
    let mut partial_len: u64 = 0;
    let mut contiguous = false;
    let mut prev_bits: u8 = 0;
    let mut i: usize = 0;
    let ghost mut start: int = 0;
    proof {
        assert(s.skip(0) =~= s);
        lemma_encoded_runs_len(s);
    }

    while i < count
        invariant
            s == buf@.skip(offset as int),
            offset <= buf@.len(),
            encodable(count as int),
            count == s.len(),
            offset + count == buf.len(),
            0 <= start <= i <= count,
            i > 0 ==> start < i,
            len + encoded_runs(s.skip(start)).len() == encoded_runs(s).len(),
            encoded_runs(s).len() <= 2 * count,
            partial_len == i - start,
            contiguous ==> {
                &&& i > 0
                &&& is_fill(prev_bits)
                &&& forall|k: int| start <= k < i ==> #[trigger] s[k] == prev_bits
            },
            !contiguous ==> forall|k: int| start <= k < i ==> !is_fill(#[trigger] s[k]),
        decreases count - i,
    {
        let byte: u8 = buf[offset + i];
        assert(byte == s[i as int]);
        assert(4 * partial_len + 3 <= u64::MAX ==> partial_len << 2 == 4 * partial_len
            && partial_len << 1 == 2 * partial_len) by (bit_vector);
        if contiguous && byte == prev_bits {
            partial_len += 1;
        } else {
            proof {
                if i > 0 && (contiguous || is_fill(byte)) {
                    lemma_run_first(s, start, i as int);
                    lemma_varint_len_by_quarter(
                        (4 * partial_len) as nat,
                        fill_code(prev_bits, partial_len as nat),
                    );
                }
            }
            if contiguous {
                len += varinteger::length(partial_len << 2) as u64;
                proof {
                    start = i as int;
                }
            }
            if byte == 0 || byte == 255 {
                if !contiguous && i > 0 {
                    len += partial_len;
                    len += varinteger::length(partial_len << 1) as u64;
                    proof {
                        start = i as int;
                    }
                }
                partial_len = 1;
                prev_bits = byte;
                contiguous = true;
            } else if !contiguous {
                partial_len += 1;
            } else {
                partial_len = 1;
                contiguous = false;
            }
        }
        i += 1;
    }

    proof {
        if count > 0 {
            lemma_run_first(s, start, count as int);
            lemma_varint_len_by_quarter(
                (4 * partial_len) as nat,
                fill_code(prev_bits, partial_len as nat),
            );
        }
        assert(s.skip(count as int) =~= Seq::<u8>::empty());
    }
    assert(4 * partial_len + 3 <= u64::MAX ==> partial_len << 2 == 4 * partial_len
        && partial_len << 1 == 2 * partial_len) by (bit_vector);
    if contiguous {
        len += varinteger::length(partial_len << 2) as u64;
    } else {
        len += partial_len;
        len += varinteger::length(partial_len << 1) as u64;
    }
    len as usize
}

/// Decode an encoded bitfield.
pub fn decode(buf: &[u8]) -> (r: Result<Vec<u8>, DecodeError>)
    requires
        is_bitfield(buf@, 0),
    ensures
        match r {
            Ok(bits) => decoded_end(buf@, 0) == buf@.len() && bits@ == decoded(buf@, 0),
            Err(e) => decoded_end(buf@, 0) > buf@.len() && e
                == (DecodeError::InvalidRLEBitfield {
                offset: decoded_end(buf@, 0) as usize,
                len: buf@.len() as usize,
            }),
        },
{
    match decode_with_offset(buf, 0) {
        Ok((bitfield, _)) => Ok(bitfield),
        Err(err) => Err(err),
    }
}

/// Decode an encoded bitfield, starting at a specific offset. Returns how many bytes
/// stand behind the bitfield beside the result.
pub fn decode_with_offset(buf: &[u8], offset: usize) -> (r: Result<(Vec<u8>, usize), DecodeError>)
    requires
        is_bitfield(buf@, offset as int),
    ensures
        match r {
            Ok((bits, rest)) => {
                &&& decoded_end(buf@, offset as int) == buf@.len()
                &&& bits@ == decoded(buf@, offset as int)
                &&& rest == 0
            },
            Err(e) => decoded_end(buf@, offset as int) > buf@.len() && e
                == (DecodeError::InvalidRLEBitfield {
                offset: decoded_end(buf@, offset as int) as usize,
                len: buf@.len() as usize,
            }),
        },
{
    let total: usize = match decode_len_with_offset(buf, offset) {
        Ok(total) => total,
        Err(err) => {
            return Err(err);
        },
    };
    let mut bitfield: Vec<u8> = vec![0u8;total];
    let mut next: u64 = 0;
    let mut ptr: usize = 0;
    let mut at: usize = offset;

    while at < buf.len()
        invariant
            has_runs(buf@, at as int),
            decoded_end(buf@, at as int) == buf@.len(),
            bitfield@.len() == total,
            ptr + decoded_len(buf@, at as int) == total,
            bitfield@.take(ptr as int) + decoded(buf@, at as int) == decoded(buf@, offset as int),
            forall|k: int| ptr <= k < total ==> bitfield@[k] == 0,
        decreases
            (if at < buf@.len() {
                buf@.len() - at
            } else {
                0
            }),
    {
        let ghost run = at as int;
        let ghost before = bitfield@;
        proof {
            varint::lemma_varint_end_bounds(buf@, run);
            lemma_decoded_end(buf@, chunk_end(buf@, run));
        }
        at += varinteger::decode_with_offset(buf, at, &mut next);
        assert(next & 1 == next % 2 && next >> 2 == next / 4 && next >> 1 == next / 2 && (next & 2
            > 0) == ((next / 2) % 2 == 1)) by (bit_vector);
        let repeat: u64 = next & 1;
        let len: usize = if repeat > 0 {
            (next >> 2) as usize
        } else {
            (next >> 1) as usize
        };
        if repeat > 0 {
            if next & 2 > 0 {
                let mut i: usize = 0;
                while i < len
                    invariant
                        i <= len,
                        ptr + len <= total,
                        bitfield@.len() == total,
                        bitfield@.take(ptr as int) == before.take(ptr as int),
                        forall|k: int| ptr <= k < ptr + i ==> bitfield@[k] == 255,
                        forall|k: int| ptr + i <= k < total ==> bitfield@[k] == 0,
                    decreases len - i,
                {
                    bitfield.set(ptr + i, 255);
                    i += 1;
                    assert(bitfield@.take(ptr as int) =~= before.take(ptr as int));
                }
            }
        } else {
            let mut i: usize = 0;
            while i < len
                invariant
                    i <= len,
                    ptr + len <= total,
                    at + len <= buf.len(),
                    bitfield@.len() == total,
                    bitfield@.take(ptr as int) == before.take(ptr as int),
                    forall|k: int| ptr <= k < ptr + i ==> bitfield@[k] == buf@[at + k - ptr],
                    forall|k: int| ptr + i <= k < total ==> bitfield@[k] == 0,
                decreases len - i,
            {
                bitfield.set(ptr + i, buf[at + i]);
                i += 1;
                assert(bitfield@.take(ptr as int) =~= before.take(ptr as int));
            }
            at += len;
        }
        assert(bitfield@.take(ptr + len) =~= before.take(ptr as int) + chunk(buf@, run));
        ptr += len;
        assert(bitfield@.take(ptr as int) + decoded(buf@, at as int) =~= before.take(ptr - len)
            + decoded(buf@, run));
    }
    assert(bitfield@.take(ptr as int) =~= bitfield@);
    Ok((bitfield, buf.len() - at))
}

/// Returns how many bytes a decoded bitfield will use.
pub fn decode_len(buf: &[u8]) -> (r: Result<usize, DecodeError>)
    requires
        is_bitfield(buf@, 0),
    ensures
        match r {
            Ok(len) => decoded_end(buf@, 0) == buf@.len() && len == decoded(buf@, 0).len(),
            Err(e) => decoded_end(buf@, 0) > buf@.len() && e
                == (DecodeError::InvalidRLEBitfield {
                offset: decoded_end(buf@, 0) as usize,
                len: buf@.len() as usize,
            }),
        },
{
    proof {
        if decoded_end(buf@, 0) <= buf@.len() {
            lemma_decoded_len(buf@, 0);
        }
    }
    decode_len_with_offset(buf, 0)
}

/// Returns how many bytes a decoded bitfield will use, starting at a specific offset.
pub fn decode_len_with_offset(buf: &[u8], offset: usize) -> (r: Result<usize, DecodeError>)
    requires
        is_bitfield(buf@, offset as int),
    ensures
        match r {
            Ok(len) => decoded_end(buf@, offset as int) == buf@.len() && len == decoded_len(
                buf@,
                offset as int,
            ),
            Err(e) => decoded_end(buf@, offset as int) > buf@.len() && e
                == (DecodeError::InvalidRLEBitfield {
                offset: decoded_end(buf@, offset as int) as usize,
                len: buf@.len() as usize,
            }),
        },
{
    let mut len: usize = 0;
    let mut next: u64 = 0;
    let mut at: usize = offset;

    while at < buf.len()
        invariant
            is_bitfield(buf@, offset as int),
            has_runs(buf@, at as int),
            decoded_end(buf@, at as int) == decoded_end(buf@, offset as int),
            len + decoded_len(buf@, at as int) == decoded_len(buf@, offset as int),
        decreases
            (if at < buf@.len() {
                buf@.len() - at
            } else {
                0
            }),
    {
        proof {
            varint::lemma_varint_end_bounds(buf@, at as int);
            lemma_decoded_end(buf@, chunk_end(buf@, at as int));
        }
        at += varinteger::decode_with_offset(buf, at, &mut next);
        assert(next & 1 == next % 2 && next >> 2 == next / 4 && next >> 1 == next / 2)
            by (bit_vector);
        let repeat: u64 = next & 1;
        let slice: usize = if repeat > 0 {
            (next >> 2) as usize
        } else {
            (next >> 1) as usize
        };
        len += slice;
        if repeat == 0 {
            at += slice;
        }
    }

    if at > buf.len() {
        return Err(DecodeError::InvalidRLEBitfield { offset: at, len: buf.len() });
    }
    Ok(len)
}

proof fn lemma_decoded_end(buf: Seq<u8>, at: int)
    requires
        has_runs(buf, at),
    ensures
        decoded_end(buf, at) >= at,
        decoded_end(buf, at) >= buf.len(),
    decreases
            (if at < buf.len() {
                buf.len() - at
            } else {
                0
            }),
{
    if at < buf.len() {
        varint::lemma_varint_end_bounds(buf, at);
        lemma_decoded_end(buf, chunk_end(buf, at));
    }
}

/// The runs stand for as many bytes as their lengths add up to.
pub proof fn lemma_decoded_len(buf: Seq<u8>, at: int)
    requires
        has_runs(buf, at),
        decoded_end(buf, at) <= buf.len(),
    ensures
        decoded(buf, at).len() == decoded_len(buf, at),
    decreases
            (if at < buf.len() {
                buf.len() - at
            } else {
                0
            }),
{
    if at < buf.len() {
        varint::lemma_varint_end_bounds(buf, at);
        lemma_decoded_end(buf, chunk_end(buf, at));
        lemma_decoded_len(buf, chunk_end(buf, at));
    }
}

/// Tells whether a buffer can be decoded, starting at a specific offset: it is where the
/// runs end that decides between the result and the error.
pub fn is_decodable(buf: &[u8], offset: usize) -> (r: bool)
    ensures
        r == is_bitfield(buf@, offset as int),
{
    let mut len: usize = 0;
    let mut next: u64 = 0;
    let mut at: usize = offset;

    while at < buf.len()
        invariant
            has_runs(buf@, at as int) == has_runs(buf@, offset as int),
            decoded_end(buf@, at as int) == decoded_end(buf@, offset as int),
            len + decoded_len(buf@, at as int) == decoded_len(buf@, offset as int),
        decreases
            (if at < buf@.len() {
                buf@.len() - at
            } else {
                0
            }),
    {
        if !varint::is_readable(buf, at) {
            return false;
        }
        let ghost run = at as int;
        proof {
            varint::lemma_varint_end_bounds(buf@, run);
        }
        at += varinteger::decode_with_offset(buf, at, &mut next);
        assert(next & 1 == next % 2 && next >> 2 == next / 4 && next >> 1 == next / 2)
            by (bit_vector);
        let repeat: u64 = next & 1;
        let slice: u64 = if repeat > 0 {
            next >> 2
        } else {
            next >> 1
        };
        if slice > usize::MAX as u64 || slice as usize > usize::MAX - len {
            return false;
        }
        len += slice as usize;
        if repeat == 0 {
            if slice as usize > usize::MAX - at {
                proof {
                    if has_runs(buf@, offset as int) {
                        lemma_decoded_end(buf@, chunk_end(buf@, run));
                    }
                }
                return false;
            }
            at += slice as usize;
        }
    }
    true
}

proof fn lemma_runs_read_back(pre: Seq<u8>, s: Seq<u8>)
    requires
        4 * s.len() + 3 <= u64::MAX,
    ensures
        ({
            let buf = pre + encoded_runs(s);
            &&& has_runs(buf, pre.len() as int)
            &&& decoded_end(buf, pre.len() as int) == buf.len()
            &&& decoded_len(buf, pre.len() as int) == s.len()
            &&& decoded(buf, pre.len() as int) == s
        }),
    decreases s.len(),
{
    let buf = pre + encoded_runs(s);
    let at = pre.len() as int;
    if s.len() > 0 {
        lemma_run_len(s);
        let n = run_len(s) as int;
        let run = s.take(n);
        let code = if is_fill(run[0]) {
            fill_code(run[0], run.len())
        } else {
            2 * run.len()
        };
        varint::lemma_varint_len(code);
        assert(buf.subrange(at, at + varint::varint(code).len()) =~= varint::varint(code));
        varint::lemma_varint_reads_back(code, buf, at);
        assert(chunk(buf, at) =~= run) by {
            lemma_first_run_is_homogeneous(s);
        }
        assert(buf =~= (pre + encoded_run(run)) + encoded_runs(s.skip(n)));
        lemma_runs_read_back(pre + encoded_run(run), s.skip(n));
        assert(chunk_end(buf, at) == at + encoded_run(run).len());
        assert(run + s.skip(n) =~= s);
    }
}

proof fn lemma_first_run_is_homogeneous(s: Seq<u8>)
    ensures
        forall|k: int| 0 <= k < run_len(s) ==> same_run(s[0], #[trigger] s[k]),
    decreases s.len(),
{
    if s.len() > 1 && same_run(s[0], s[1]) {
        lemma_run_len(s);
        lemma_first_run_is_homogeneous(s.drop_first());
        assert forall|k: int| 0 <= k < run_len(s) implies same_run(s[0], #[trigger] s[k]) by {
            if k > 0 {
                assert(s.drop_first()[k - 1] == s[k]);
            }
        }
    }
}

/// Decoding gives back what was encoded, whole and with nothing left over.
pub proof fn law_decode_of_encode(s: Seq<u8>)
    requires
        encodable(s.len() as int),
    ensures
        is_bitfield(encoded(s), 0),
        decoded_end(encoded(s), 0) == encoded(s).len(),
        decoded(encoded(s), 0) == s,
{
    if s.len() == 0 {
        assert(varint::varint(0).subrange(0, 1) =~= varint::varint(0));
        varint::lemma_varint_reads_back(0, varint::varint(0), 0);
        assert(chunk_end(varint::varint(0), 0) == 1);
        assert(has_runs(varint::varint(0), 1));
        assert(decoded_end(varint::varint(0), 1) == 1 && decoded_len(varint::varint(0), 1) == 0);
        assert(chunk(varint::varint(0), 0) + decoded(varint::varint(0), 1) =~= s);
    } else {
        lemma_encoded_runs_len(s);
        lemma_runs_read_back(Seq::empty(), s);
        assert(Seq::<u8>::empty() + encoded_runs(s) =~= encoded_runs(s));
    }
}

/// From the start on, `encode_len_with_offset` tells how long the result of `encode` is, and
/// `encode_with_offset` gives that same result.
pub proof fn law_offset_zero_is_the_whole(s: Seq<u8>)
    ensures
        encoded(s.skip(0)) == encoded(s),
        encoded(s.skip(0)).len() == encoded(s).len(),
{
    assert(s.skip(0) =~= s);
}

/// The encoded form is at most twice as long as the string, or the one byte that stands
/// for the empty string.
pub proof fn law_encoded_is_short(s: Seq<u8>)
    ensures
        encoded(s).len() <= 2 * s.len() || (s.len() == 0 && encoded(s) == seq![0u8]),
{
    lemma_encoded_runs_len(s);
}

/// A run of zeros is written as the number `4 * length + 1`, a run of the byte 255 as
/// `4 * length + 3`, and a run of other bytes as `2 * length` and the bytes themselves.
pub proof fn law_runs_are_written_by_their_length(s: Seq<u8>)
    requires
        s.len() > 0,
    ensures
        (forall|i: int| 0 <= i < s.len() ==> #[trigger] s[i] == 0) ==> encoded(s) == varint::varint(
            4 * s.len() + 1,
        ),
        (forall|i: int| 0 <= i < s.len() ==> #[trigger] s[i] == 255) ==> encoded(s)
            == varint::varint(4 * s.len() + 3),
        (forall|i: int| 0 <= i < s.len() ==> #[trigger] s[i] != 0 && s[i] != 255) ==> encoded(s)
            == varint::varint(2 * s.len()) + s,
{
    if forall|i: int| 0 <= i < s.len() ==> same_run(s[0], #[trigger] s[i]) {
        lemma_whole_run(s);
        assert(s.take(s.len() as int) =~= s);
        assert(encoded_runs(s.skip(s.len() as int)) =~= Seq::<u8>::empty());
        assert(encoded_run(s) + Seq::<u8>::empty() =~= encoded_run(s));
        assert(encoded(s) == encoded_run(s));
    }
}

proof fn lemma_whole_run(s: Seq<u8>)
    requires
        forall|i: int| 0 <= i < s.len() ==> same_run(s[0], #[trigger] s[i]),
    ensures
        run_len(s) == s.len(),
    decreases s.len(),
{
    if s.len() > 1 {
        let rest = s.drop_first();
        assert(same_run(s[0], s[1]));
        assert forall|i: int| 0 <= i < rest.len() implies same_run(rest[0], #[trigger] rest[i]) by {
            assert(same_run(s[0], s[i + 1]));
        }
        lemma_whole_run(rest);
    }
}

/// Strings are written one behind the other, where no run goes on from one into the next.
pub proof fn law_runs_are_written_in_turn(a: Seq<u8>, b: Seq<u8>)
    requires
        a.len() > 0,
        b.len() > 0,
        a.last() == 0 ==> b[0] != 0,
        a.last() == 255 ==> b[0] != 255,
        a.last() == 0 || a.last() == 255 || b[0] == 0 || b[0] == 255,
    ensures
        encoded(a + b) == encoded(a) + encoded(b),
    decreases a.len(),
{
    lemma_run_len(a);
    lemma_run_len_joins(a, b);
    let n = run_len(a) as int;
    assert((a + b).take(n) =~= a.take(n));
    let rest = a.skip(n);
    if rest.len() > 0 {
        law_runs_are_written_in_turn(rest, b);
        assert((a + b).skip(n) =~= rest + b);
    } else {
        assert((a + b).skip(n) =~= b);
        assert(encoded_runs(rest) =~= Seq::<u8>::empty());
    }
    assert(encoded(a + b) =~= encoded(a) + encoded(b));
}

proof fn lemma_run_len_joins(a: Seq<u8>, b: Seq<u8>)
    requires
        a.len() > 0,
        b.len() > 0,
        !same_run(a.last(), b[0]),
    ensures
        run_len(a + b) == run_len(a),
    decreases a.len(),
{
    let s = a + b;
    if a.len() == 1 {
        assert(s[0] == a[0] && s[1] == b[0]);
    } else {
        assert(s[0] == a[0] && s[1] == a[1]);
        lemma_run_len_joins(a.drop_first(), b);
        assert(s.drop_first() =~= a.drop_first() + b);
    }
}

/// A number that leaves 1 when it is divided by 4 stands for zeros, one that leaves 3 for the
/// byte 255, a fourth of the number each. An even number stands for the bytes behind it, half
/// of the number. What follows is read in the same way.
pub proof fn law_runs_are_read_by_their_length(buf: Seq<u8>, at: int)
    requires
        0 <= at < buf.len(),
        varint::is_varint_at(buf, at),
    ensures
        ({
            let n = varint::varint_at(buf, at);
            let end = varint::varint_end(buf, at);
            &&& n % 4 == 1 ==> {
                &&& decoded(buf, at) == Seq::new(n / 4, |i: int| 0u8) + decoded(buf, end)
                &&& decoded_len(buf, at) == n / 4 + decoded_len(buf, end)
                &&& decoded_end(buf, at) == decoded_end(buf, end)
            }
            &&& n % 4 == 3 ==> {
                &&& decoded(buf, at) == Seq::new(n / 4, |i: int| 255u8) + decoded(buf, end)
                &&& decoded_len(buf, at) == n / 4 + decoded_len(buf, end)
                &&& decoded_end(buf, at) == decoded_end(buf, end)
            }
            &&& n % 2 == 0 ==> {
                let behind = (end + n / 2) as int;
                &&& decoded(buf, at) == buf.subrange(end, behind) + decoded(buf, behind)
                &&& decoded_len(buf, at) == n / 2 + decoded_len(buf, behind)
                &&& decoded_end(buf, at) == decoded_end(buf, behind)
            }
        }),
{
    let n = varint::varint_at(buf, at);
    if n % 4 == 1 {
        assert(chunk(buf, at) =~= Seq::new(n / 4, |i: int| 0u8));
    }
    if n % 4 == 3 {
        assert(chunk(buf, at) =~= Seq::new(n / 4, |i: int| 255u8));
    }
}

} // verus!
