//! Variable-length integers in the QUIC style: the two top bits of the first
//! byte select a width of 1, 2, 4 or 8 bytes, and the remaining 6, 14, 30 or
//! 62 bits hold the value big-endian. Values at or above 2^62 have no
//! encoding.

use vstd::prelude::*;
use vstd::arithmetic::div_mod::{lemma_div_denominator, lemma_fundamental_div_mod};

use crate::object::{DecodeError, EncodeError};

verus! {

/// The largest value the variable-length encoding can carry: 2^62 - 1.
pub const VARINT_MAX: u64 = 0x3FFF_FFFF_FFFF_FFFF;

/// How many bytes the encoding of `v` takes.
pub open spec fn varint_len(v: u64) -> int {
    if v < 0x40 {
        1
    } else if v < 0x4000 {
        2
    } else if v < 0x4000_0000 {
        4
    } else {
        8
    }
}

/// The canonical encoding of `v`: the shortest width that fits, the width
/// marker folded into the top two bits of the first byte.
#[verifier::opaque]
pub open spec fn varint_bytes(v: u64) -> Seq<u8>
    recommends
        v <= VARINT_MAX,
{
    if v < 0x40 {
        seq![v as u8]
    } else if v < 0x4000 {
        let x = v + 0x4000;
        seq![(x / 0x100) as u8, (x % 0x100) as u8]
    } else if v < 0x4000_0000 {
        let x = v + 0x8000_0000;
        seq![
            (x / 0x100_0000) as u8,
            ((x / 0x1_0000) % 0x100) as u8,
            ((x / 0x100) % 0x100) as u8,
            (x % 0x100) as u8,
        ]
    } else {
        let x = v + 0xC000_0000_0000_0000;
        seq![
            (x / 0x100_0000_0000_0000) as u8,
            ((x / 0x1_0000_0000_0000) % 0x100) as u8,
            ((x / 0x100_0000_0000) % 0x100) as u8,
            ((x / 0x1_0000_0000) % 0x100) as u8,
            ((x / 0x100_0000) % 0x100) as u8,
            ((x / 0x1_0000) % 0x100) as u8,
            ((x / 0x100) % 0x100) as u8,
            (x % 0x100) as u8,
        ]
    }
}

/// What decoding reads at `pos`: the value and the position just past it,
/// or `None` when the buffer ends before the field is complete. Widths are
/// taken from the first byte, so non-canonical (overlong) encodings decode
/// too.
#[verifier::opaque]
pub open spec fn varint_decode(s: Seq<u8>, pos: int) -> Option<(u64, int)> {
    if pos < 0 || pos >= s.len() {
        None
    } else {
        let b0 = s[pos] as int;
        if b0 < 0x40 {
            Some((s[pos] as u64, pos + 1))
        } else if b0 < 0x80 {
            if pos + 2 <= s.len() {
                Some((((b0 - 0x40) * 0x100 + s[pos + 1]) as u64, pos + 2))
            } else {
                None
            }
        } else if b0 < 0xC0 {
            if pos + 4 <= s.len() {
                Some(
                    ((
                    (b0 - 0x80) * 0x100_0000 + s[pos + 1] * 0x1_0000 + s[pos + 2] * 0x100 + s[pos
                        + 3]) as u64, pos + 4),
                )
            } else {
                None
            }
        } else {
            if pos + 8 <= s.len() {
                Some(
                    ((
                    (b0 - 0xC0) * 0x100_0000_0000_0000 + s[pos + 1] * 0x1_0000_0000_0000 + s[pos
                        + 2] * 0x100_0000_0000 + s[pos + 3] * 0x1_0000_0000 + s[pos + 4]
                        * 0x100_0000 + s[pos + 5] * 0x1_0000 + s[pos + 6] * 0x100 + s[pos
                        + 7]) as u64, pos + 8),
                )
            } else {
                None
            }
        }
    }
}

/// Appends the encoding of `v` to `w`; rejects values above `VARINT_MAX`
/// without writing anything.
pub fn encode_varint(v: u64, w: &mut Vec<u8>) -> (r: Result<(), EncodeError>)
    ensures
        v <= VARINT_MAX ==> r is Ok && final(w)@ == old(w)@ + varint_bytes(v),
        v > VARINT_MAX ==> r == Err::<(), EncodeError>(EncodeError::BoundsExceeded) && final(w)@
            == old(w)@,
{
    if v < 0x40 {
        w.push(v as u8);
        proof {
            reveal(varint_bytes);
            assert(w@ =~= old(w)@ + varint_bytes(v));
        }
        Ok(())
    } else if v < 0x4000 {
        let x = v + 0x4000;
        w.push((x / 0x100) as u8);
        w.push((x % 0x100) as u8);
        proof {
            reveal(varint_bytes);
            assert(w@ =~= old(w)@ + varint_bytes(v));
        }
        Ok(())
    } else if v < 0x4000_0000 {
        let x = v + 0x8000_0000;
        w.push((x / 0x100_0000) as u8);
        w.push(((x / 0x1_0000) % 0x100) as u8);
        w.push(((x / 0x100) % 0x100) as u8);
        w.push((x % 0x100) as u8);
        proof {
            reveal(varint_bytes);
            assert(w@ =~= old(w)@ + varint_bytes(v));
        }
        Ok(())
    } else if v <= VARINT_MAX {
        let x = v + 0xC000_0000_0000_0000;
        w.push((x / 0x100_0000_0000_0000) as u8);
        w.push(((x / 0x1_0000_0000_0000) % 0x100) as u8);
        w.push(((x / 0x100_0000_0000) % 0x100) as u8);
        w.push(((x / 0x1_0000_0000) % 0x100) as u8);
        w.push(((x / 0x100_0000) % 0x100) as u8);
        w.push(((x / 0x1_0000) % 0x100) as u8);
        w.push(((x / 0x100) % 0x100) as u8);
        w.push((x % 0x100) as u8);
        proof {
            reveal(varint_bytes);
            assert(w@ =~= old(w)@ + varint_bytes(v));
        }
        Ok(())
    } else {
        Err(EncodeError::BoundsExceeded)
    }
}

/// Reads one variable-length integer from `buf` at `pos`.
pub fn decode_varint(buf: &[u8], pos: usize) -> (r: Result<(u64, usize), DecodeError>)
    ensures
        varint_decode(buf@, pos as int) is Some ==> r is Ok && r->Ok_0.0 == varint_decode(
            buf@,
            pos as int,
        )->Some_0.0 && r->Ok_0.1 == varint_decode(buf@, pos as int)->Some_0.1,
        varint_decode(buf@, pos as int) is None ==> r == Err::<(u64, usize), DecodeError>(
            DecodeError::UnexpectedEnd,
        ),
{
    proof {
        reveal(varint_decode);
    }
    if pos >= buf.len() {
        return Err(DecodeError::UnexpectedEnd);
    }
    let b0 = buf[pos];
    if b0 < 0x40 {
        Ok((b0 as u64, pos + 1))
    } else if b0 < 0x80 {
        if buf.len() - pos < 2 {
            return Err(DecodeError::UnexpectedEnd);
        }
        let v = ((b0 - 0x40) as u64) * 0x100 + (buf[pos + 1] as u64);
        Ok((v, pos + 2))
    } else if b0 < 0xC0 {
        if buf.len() - pos < 4 {
            return Err(DecodeError::UnexpectedEnd);
        }
        let v = ((b0 - 0x80) as u64) * 0x100_0000 + (buf[pos + 1] as u64) * 0x1_0000 + (buf[pos
            + 2] as u64) * 0x100 + (buf[pos + 3] as u64);
        Ok((v, pos + 4))
    } else {
        if buf.len() - pos < 8 {
            return Err(DecodeError::UnexpectedEnd);
        }
        let v = ((b0 - 0xC0) as u64) * 0x100_0000_0000_0000 + (buf[pos + 1] as u64)
            * 0x1_0000_0000_0000 + (buf[pos + 2] as u64) * 0x100_0000_0000 + (buf[pos
            + 3] as u64) * 0x1_0000_0000 + (buf[pos + 4] as u64) * 0x100_0000 + (buf[pos
            + 5] as u64) * 0x1_0000 + (buf[pos + 6] as u64) * 0x100 + (buf[pos + 7] as u64);
        Ok((v, pos + 8))
    }
}

/// Splitting a non-negative integer into base-256 digits, one level at a
/// time: each quotient is its next quotient times 256 plus its own low byte.
proof fn lemma_byte_chain(x: int)
    requires
        0 <= x,
    ensures
        x == (x / 0x100) * 0x100 + x % 0x100,
        x / 0x100 == (x / 0x1_0000) * 0x100 + (x / 0x100) % 0x100,
        x / 0x1_0000 == (x / 0x100_0000) * 0x100 + (x / 0x1_0000) % 0x100,
        x / 0x100_0000 == (x / 0x1_0000_0000) * 0x100 + (x / 0x100_0000) % 0x100,
        x / 0x1_0000_0000 == (x / 0x100_0000_0000) * 0x100 + (x / 0x1_0000_0000) % 0x100,
        x / 0x100_0000_0000 == (x / 0x1_0000_0000_0000) * 0x100 + (x / 0x100_0000_0000) % 0x100,
        x / 0x1_0000_0000_0000 == (x / 0x100_0000_0000_0000) * 0x100 + (x / 0x1_0000_0000_0000)
            % 0x100,
{
    lemma_fundamental_div_mod(x, 0x100);
    lemma_div_denominator(x, 0x100, 0x100);
    lemma_fundamental_div_mod(x / 0x100, 0x100);
    lemma_div_denominator(x, 0x1_0000, 0x100);
    lemma_fundamental_div_mod(x / 0x1_0000, 0x100);
    lemma_div_denominator(x, 0x100_0000, 0x100);
    lemma_fundamental_div_mod(x / 0x100_0000, 0x100);
    lemma_div_denominator(x, 0x1_0000_0000, 0x100);
    lemma_fundamental_div_mod(x / 0x1_0000_0000, 0x100);
    lemma_div_denominator(x, 0x100_0000_0000, 0x100);
    lemma_fundamental_div_mod(x / 0x100_0000_0000, 0x100);
    lemma_div_denominator(x, 0x1_0000_0000_0000, 0x100);
    lemma_fundamental_div_mod(x / 0x1_0000_0000_0000, 0x100);
}

/// The encoding's length is what `varint_len` says.
pub proof fn lemma_varint_bytes_len(v: u64)
    ensures
        varint_bytes(v).len() == varint_len(v),
{
    reveal(varint_bytes);
}

/// Round-trip within a larger buffer: decoding starts right after `pre`,
/// reads the encoding of `v`, and stops where `post` begins.
pub proof fn lemma_varint_decode_concat(s: Seq<u8>, pre: Seq<u8>, v: u64, post: Seq<u8>)
    requires
        v <= VARINT_MAX,
        s == pre + varint_bytes(v) + post,
    ensures
        varint_decode(s, pre.len() as int) == Some((v, pre.len() + varint_len(v))),
{
    lemma_varint_bytes_len(v);
    assert(s.subrange(pre.len() as int, pre.len() + varint_len(v)) =~= varint_bytes(v));
    lemma_varint_round_trip(s, pre.len() as int, v);
}

/// Round-trip: wherever a buffer holds the canonical encoding of `v`,
/// decoding at that position yields `v` and stops just past it.
pub proof fn lemma_varint_round_trip(s: Seq<u8>, pos: int, v: u64)
    requires
        v <= VARINT_MAX,
        0 <= pos,
        pos + varint_len(v) <= s.len(),
        s.subrange(pos, pos + varint_len(v)) == varint_bytes(v),
    ensures
        varint_decode(s, pos) == Some((v, pos + varint_len(v))),
{
    reveal(varint_bytes);
    reveal(varint_decode);
    let n = varint_len(v);
    let enc = varint_bytes(v);
    assert(enc.len() == n);
    assert forall|i: int| 0 <= i < n implies s[pos + i] == enc[i] by {
        assert(s.subrange(pos, pos + n)[i] == s[pos + i]);
    }
    if v < 0x40 {
        assert(s[pos] == enc[0]);
    } else if v < 0x4000 {
        let x = v + 0x4000;
        lemma_byte_chain(x);
        assert(s[pos] as int == x / 0x100);
        assert(s[pos + 1] as int == x % 0x100);
        assert(0x40 <= (s[pos] as int) && (s[pos] as int) < 0x80);
        assert((s[pos] as int - 0x40) * 0x100 + s[pos + 1] == v);
    } else if v < 0x4000_0000 {
        let x = v + 0x8000_0000;
        lemma_byte_chain(x);
        assert(s[pos] as int == x / 0x100_0000);
        assert(s[pos + 1] as int == (x / 0x1_0000) % 0x100);
        assert(s[pos + 2] as int == (x / 0x100) % 0x100);
        assert(s[pos + 3] as int == x % 0x100);
        assert(0x80 <= (s[pos] as int) && (s[pos] as int) < 0xC0);
        assert((s[pos] as int - 0x80) * 0x100_0000 + s[pos + 1] * 0x1_0000 + s[pos + 2] * 0x100
            + s[pos + 3] == v);
    } else {
        let x = v + 0xC000_0000_0000_0000;
        lemma_byte_chain(x);
        assert(s[pos] as int == x / 0x100_0000_0000_0000);
        assert(s[pos + 1] as int == (x / 0x1_0000_0000_0000) % 0x100);
        assert(s[pos + 2] as int == (x / 0x100_0000_0000) % 0x100);
        assert(s[pos + 3] as int == (x / 0x1_0000_0000) % 0x100);
        assert(s[pos + 4] as int == (x / 0x100_0000) % 0x100);
        assert(s[pos + 5] as int == (x / 0x1_0000) % 0x100);
        assert(s[pos + 6] as int == (x / 0x100) % 0x100);
        assert(s[pos + 7] as int == x % 0x100);
        assert(0xC0 <= (s[pos] as int) && (s[pos] as int) < 0x100);
        assert((s[pos] as int - 0xC0) * 0x100_0000_0000_0000 + s[pos + 1] * 0x1_0000_0000_0000
            + s[pos + 2] * 0x100_0000_0000 + s[pos + 3] * 0x1_0000_0000 + s[pos + 4] * 0x100_0000
            + s[pos + 5] * 0x1_0000 + s[pos + 6] * 0x100 + s[pos + 7] == v);
    }
}

} // verus!
