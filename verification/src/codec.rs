//! Variable-length integer codec of the binary handshake protocol.
//!
//! A value is encoded little-endian in groups of seven bits; every byte
//! carries seven data bits in its low bits, and its high bit is set exactly
//! when more bytes follow. Decoding accumulates the groups and fails when the
//! continuation chain would exceed the 32 bits of the value, or when the
//! input ends before a terminating byte.

use vstd::prelude::*;

verus! {

/// How a varint decode can fail: a malformed or oversized value, or an input
/// that ended before the value was complete.
#[derive(Debug, Clone, Copy, PartialEq, Eq, Structural)]
pub enum DecodeError {
    /// The continuation chain exceeds the 32 bits of a value.
    Protocol,
    /// The byte source was exhausted before a terminating byte.
    Transport,
}

/// The continuation flag of a varint byte: set when more bytes follow.
pub open spec fn varint_has_more(b: u8) -> bool {
    b & 0x80 != 0
}

/// The seven data bits of a varint byte.
pub open spec fn varint_data(b: u8) -> u8 {
    b & 0x7f
}

/// The encoding of a value: its low seven bits with the continuation flag
/// while more bits remain, then the final byte with the flag clear. Even 0
/// is encoded as one byte.
pub open spec fn varint_encode(n: u32) -> Seq<u8>
    decreases n,
    via varint_encode_decreases
{
    if n < 0x80 {
        seq![n as u8]
    } else {
        seq![((n & 0x7f) | 0x80) as u8] + varint_encode(n >> 7)
    }
}

#[via_fn]
proof fn varint_encode_decreases(n: u32) {
    assert(n >= 0x80 ==> (n >> 7) < n) by (bit_vector);
}

/// One decoding pass starting at position `i` with the bits gathered so far.
/// `acc` holds the groups already read, `shift` the bit position of the next
/// group. Groups past bit 31 are discarded, as the accumulator is 32 bits
/// wide; a continuation flag that would push the shift to 32 or beyond is a
/// protocol error.
pub open spec fn varint_decode_at(bytes: Seq<u8>, i: int, acc: u32, shift: u32) -> Result<
    (u32, int),
    DecodeError,
>
    decreases bytes.len() - i,
{
    if i < 0 || i >= bytes.len() {
        Err(DecodeError::Transport)
    } else {
        let b = bytes[i];
        let acc2 = acc | ((varint_data(b) as u32) << shift);
        if !varint_has_more(b) {
            Ok((acc2, i + 1))
        } else if shift + 7 >= 32 {
            Err(DecodeError::Protocol)
        } else {
            varint_decode_at(bytes, i + 1, acc2, (shift + 7) as u32)
        }
    }
}

/// The decoding of the front of a byte sequence: the value and the number of
/// bytes consumed, or the error.
pub open spec fn varint_decode(bytes: Seq<u8>) -> Result<(u32, int), DecodeError> {
    varint_decode_at(bytes, 0, 0, 0)
}

/// Appends the encoding of `val` to `buf`.
pub fn write_varint(val: u32, buf: &mut Vec<u8>)
    ensures
        final(buf)@ == old(buf)@ + varint_encode(val),
    decreases val,
{
    if val < 0x80 {
        buf.push(val as u8);
        assert(buf@ =~= old(buf)@ + varint_encode(val));
    } else {
        let byte: u8 = ((val & 0x7f) as u8) | 0x80;
        buf.push(byte);
        proof {
            assert((val >> 7) < val && (((val & 0x7f) as u8) | 0x80) == ((val & 0x7f)
                | 0x80) as u8) by (bit_vector)
                requires
                    val >= 0x80,
            ;
        }
        write_varint(val >> 7, buf);
        assert(buf@ =~= old(buf)@ + varint_encode(val));
    }
}

/// Decodes one varint from the front of `bytes`, returning the value and the
/// number of bytes consumed, exactly as `varint_decode` describes.
pub fn read_varint(bytes: &[u8]) -> (r: Result<(u32, usize), DecodeError>)
    ensures
        match r {
            Ok(p) => varint_decode(bytes@) == Ok::<(u32, int), DecodeError>((p.0, p.1 as int)),
            Err(e) => varint_decode(bytes@) == Err::<(u32, int), DecodeError>(e),
        },
{
    let mut i: usize = 0;
    let mut acc: u32 = 0;
    let mut shift: u32 = 0;
    loop
        invariant
            i <= bytes@.len(),
            shift == 7 * i,
            shift <= 28,
            varint_decode(bytes@) == varint_decode_at(bytes@, i as int, acc, shift),
        decreases bytes@.len() - i,
    {
        let ghost i0: usize = i;
        let ghost acc0: u32 = acc;
        let ghost shift0: u32 = shift;
        if i >= bytes.len() {
            return Err(DecodeError::Transport);
        }
        let b = bytes[i];
        i = i + 1;
        acc = acc | (((b & 0x7f) as u32) << shift);
        if b & 0x80 == 0 {
            assert(varint_decode_at(bytes@, i0 as int, acc0, shift0) == Ok::<
                (u32, int),
                DecodeError,
            >((acc, i as int)));
            return Ok((acc, i));
        }
        if shift + 7 >= 32 {
            return Err(DecodeError::Protocol);
        }
        shift = shift + 7;
        assert(varint_decode_at(bytes@, i0 as int, acc0, shift0) == varint_decode_at(
            bytes@,
            i as int,
            acc,
            shift,
        ));
    }
}

/// Decoding an encoding placed at position `i` of a longer sequence finds the
/// encoded value, shifted into the bits above `shift` and joined with the
/// groups already gathered in `acc`.
proof fn lemma_decode_encode_at(bytes: Seq<u8>, i: int, acc: u32, shift: u32, n: u32)
    requires
        0 <= i,
        i + varint_encode(n).len() <= bytes.len(),
        bytes.subrange(i, i + varint_encode(n).len() as int) == varint_encode(n),
        shift <= 28,
        shift % 7 == 0,
        acc < (1u32 << shift),
        ((n as u64) << (shift as u64)) <= 0xffff_ffffu64,
    ensures
        varint_decode_at(bytes, i, acc, shift) == Ok::<(u32, int), DecodeError>(
            (acc | (n << shift), i + varint_encode(n).len()),
        ),
    decreases n,
{
    if n < 0x80 {
        assert(varint_encode(n)[0] == bytes[i]);
        assert(bytes[i] == (n as u8));
        assert(!varint_has_more(n as u8) && (varint_data(n as u8) as u32) == n) by (bit_vector)
            requires
                n < 0x80,
        ;
    } else {
        let b: u8 = ((n & 0x7f) | 0x80) as u8;
        let d: u32 = varint_data(b) as u32;
        assert(varint_encode(n)[0] == bytes[i]);
        assert(bytes[i] == b);
        let acc2: u32 = acc | (d << shift);
        assert(varint_has_more(b) && d == (n & 0x7f)) by (bit_vector)
            requires
                b == ((n & 0x7f) | 0x80) as u8,
                d == (b & 0x7f) as u32,
                n >= 0x80,
        ;
        // At shift 28 the value bound would put the value below 2^4, yet the
        // continuation flag says it is at least 2^7; so the shift is at most
        // 21 and the chain continues.
        assert(shift <= 21) by {
            if shift == 28 {
                assert(!(n >= 0x80 && ((n as u64) << 28u64) <= 0xffff_ffffu64)) by (bit_vector);
                assert(false);
            }
        }
        let rest = varint_encode(n >> 7);
        assert(varint_encode(n) == seq![b] + rest);
        assert forall|j: int| 0 <= j < rest.len() implies bytes[i + 1 + j] == rest[j] by {
            assert(bytes.subrange(i, i + varint_encode(n).len() as int)[j + 1] == bytes[i + 1 + j]);
            assert(varint_encode(n)[j + 1] == rest[j]);
        }
        assert(bytes.subrange(i + 1, i + 1 + rest.len() as int) =~= rest);
        assert({
            &&& acc2 < (1u32 << ((shift + 7) as u32))
            &&& (((n >> 7) as u64) << (((shift + 7) as u32) as u64)) <= 0xffff_ffffu64
            &&& (n >> 7) < n
        }) by (bit_vector)
            requires
                acc2 == acc | (d << shift),
                d == (n & 0x7f),
                acc < (1u32 << shift),
                shift <= 21,
                n >= 0x80,
                ((n as u64) << (shift as u64)) <= 0xffff_ffffu64,
        ;
        lemma_decode_encode_at(bytes, i + 1, acc2, (shift + 7) as u32, n >> 7);
        assert(acc2 | ((n >> 7) << ((shift + 7) as u32)) == acc | (n << shift)) by (bit_vector)
            requires
                acc2 == acc | (d << shift),
                d == (n & 0x7f),
                acc < (1u32 << shift),
                shift <= 21,
                ((n as u64) << (shift as u64)) <= 0xffff_ffffu64,
        ;
    }
}

/// Law: decoding an encoded value yields the value back and consumes the
/// whole encoding.
pub proof fn lemma_varint_round_trip(n: u32)
    ensures
        varint_decode(varint_encode(n)) == Ok::<(u32, int), DecodeError>(
            (n, varint_encode(n).len() as int),
        ),
{
    let bytes = varint_encode(n);
    assert(bytes.subrange(0, bytes.len() as int) =~= bytes);
    assert(0u32 < (1u32 << 0u32) && ((n as u64) << 0u64) <= 0xffff_ffffu64 && (0u32 | (n << 0u32))
        == n) by (bit_vector);
    lemma_decode_encode_at(bytes, 0, 0, 0, n);
}

/// Law: a stream whose first five bytes all carry the continuation flag is
/// rejected as a protocol error, whatever follows.
pub proof fn lemma_varint_overlong_rejected(bytes: Seq<u8>)
    requires
        bytes.len() >= 5,
        forall|j: int| 0 <= j < 5 ==> #[trigger] (bytes[j] & 0x80) != 0,
    ensures
        varint_decode(bytes) == Err::<(u32, int), DecodeError>(DecodeError::Protocol),
{
    let a0: u32 = 0;
    let a1 = a0 | ((varint_data(bytes[0]) as u32) << 0u32);
    let a2 = a1 | ((varint_data(bytes[1]) as u32) << 7u32);
    let a3 = a2 | ((varint_data(bytes[2]) as u32) << 14u32);
    let a4 = a3 | ((varint_data(bytes[3]) as u32) << 21u32);
    assert(varint_decode_at(bytes, 0, a0, 0) == varint_decode_at(bytes, 1, a1, 7));
    assert(varint_decode_at(bytes, 1, a1, 7) == varint_decode_at(bytes, 2, a2, 14));
    assert(varint_decode_at(bytes, 2, a2, 14) == varint_decode_at(bytes, 3, a3, 21));
    assert(varint_decode_at(bytes, 3, a3, 21) == varint_decode_at(bytes, 4, a4, 28));
    assert(varint_decode_at(bytes, 4, a4, 28) == Err::<(u32, int), DecodeError>(
        DecodeError::Protocol,
    ));
}

/// The exact length of an encoding: one byte for each started group of seven
/// bits, at most five for a 32-bit value.
pub proof fn lemma_varint_encode_len(n: u32)
    ensures
        varint_encode(n).len() == (if n < 0x80 {
            1int
        } else if n < 0x4000 {
            2int
        } else if n < 0x20_0000 {
            3int
        } else if n < 0x1000_0000 {
            4int
        } else {
            5int
        }),
    decreases n,
{
    if n >= 0x80 {
        assert({
            &&& (n >> 7) < n
            &&& ((n >> 7) < 0x80 <==> n < 0x4000)
            &&& ((n >> 7) < 0x4000 <==> n < 0x20_0000)
            &&& ((n >> 7) < 0x20_0000 <==> n < 0x1000_0000)
            &&& (n >> 7) < 0x1000_0000
        }) by (bit_vector)
            requires
                n >= 0x80,
        ;
        lemma_varint_encode_len(n >> 7);
    }
}

} // verus!

