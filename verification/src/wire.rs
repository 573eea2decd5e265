use vstd::prelude::*;

verus! {

use crate::errors::DecodeError;

/// The two bytes of `v` in big-endian order.
pub open spec fn spec_u16_be(v: u16) -> Seq<u8> {
    seq![(v / 256) as u8, (v % 256) as u8]
}

/// The two bytes of `v` in little-endian order.
pub open spec fn spec_u16_le(v: u16) -> Seq<u8> {
    seq![(v % 256) as u8, (v / 256) as u8]
}

/// The 16-bit value read big-endian at `pos`, with the position after it,
/// or `UnexpectedEnd` when fewer than two bytes remain.
pub open spec fn spec_read_u16_be(s: Seq<u8>, pos: int) -> Result<(u16, int), DecodeError> {
    if 0 <= pos && pos + 2 <= s.len() {
        Ok((((s[pos] as int) * 256 + (s[pos + 1] as int)) as u16, pos + 2))
    } else {
        Err(DecodeError::UnexpectedEnd)
    }
}

/// The 16-bit value read little-endian at `pos`, with the position after it,
/// or `UnexpectedEnd` when fewer than two bytes remain.
pub open spec fn spec_read_u16_le(s: Seq<u8>, pos: int) -> Result<(u16, int), DecodeError> {
    if 0 <= pos && pos + 2 <= s.len() {
        Ok((((s[pos + 1] as int) * 256 + (s[pos] as int)) as u16, pos + 2))
    } else {
        Err(DecodeError::UnexpectedEnd)
    }
}

pub fn write_u16_be(v: u16, out: &mut Vec<u8>)
    ensures
        final(out)@ == old(out)@ + spec_u16_be(v),
{
    out.push((v / 256) as u8);
    out.push((v % 256) as u8);
    assert(out@ =~= old(out)@ + spec_u16_be(v));
}

pub fn write_u16_le(v: u16, out: &mut Vec<u8>)
    ensures
        final(out)@ == old(out)@ + spec_u16_le(v),
{
    out.push((v % 256) as u8);
    out.push((v / 256) as u8);
    assert(out@ =~= old(out)@ + spec_u16_le(v));
}

pub fn read_u16_be(bytes: &[u8], pos: &mut usize) -> (r: Result<u16, DecodeError>)
    requires
        *old(pos) <= bytes@.len(),
    ensures
        *old(pos) <= *final(pos) <= bytes@.len(),
        match r {
            Ok(v) => spec_read_u16_be(bytes@, *old(pos) as int) == Ok::<(u16, int), DecodeError>(
                (v, *final(pos) as int),
            ),
            Err(e) => spec_read_u16_be(bytes@, *old(pos) as int) == Err::<(u16, int), DecodeError>(
                e,
            ) && *final(pos) == *old(pos),
        },
{
    if bytes.len() - *pos < 2 {
        return Err(DecodeError::UnexpectedEnd);
    }
    let b0 = bytes[*pos];
    let b1 = bytes[*pos + 1];
    *pos += 2;
    Ok((b0 as u16) * 256 + (b1 as u16))
}

pub fn read_u16_le(bytes: &[u8], pos: &mut usize) -> (r: Result<u16, DecodeError>)
    requires
        *old(pos) <= bytes@.len(),
    ensures
        *old(pos) <= *final(pos) <= bytes@.len(),
        match r {
            Ok(v) => spec_read_u16_le(bytes@, *old(pos) as int) == Ok::<(u16, int), DecodeError>(
                (v, *final(pos) as int),
            ),
            Err(e) => spec_read_u16_le(bytes@, *old(pos) as int) == Err::<(u16, int), DecodeError>(
                e,
            ) && *final(pos) == *old(pos),
        },
{
    if bytes.len() - *pos < 2 {
        return Err(DecodeError::UnexpectedEnd);
    }
    let b0 = bytes[*pos];
    let b1 = bytes[*pos + 1];
    *pos += 2;
    Ok((b1 as u16) * 256 + (b0 as u16))
}

/// A window into a sequence that equals `enc` gives, window-relative, the
/// matching piece of `enc`.
pub proof fn lemma_subrange_at(s: Seq<u8>, pos: int, enc: Seq<u8>, a: int, b: int)
    requires
        0 <= pos,
        pos + enc.len() <= s.len(),
        s.subrange(pos, pos + enc.len()) == enc,
        0 <= a <= b <= enc.len(),
    ensures
        s.subrange(pos + a, pos + b) == enc.subrange(a, b),
{
    assert(s.subrange(pos + a, pos + b) =~= enc.subrange(a, b)) by {
        assert forall|k: int| 0 <= k < b - a implies s.subrange(pos + a, pos + b)[k]
            == enc.subrange(a, b)[k] by {
            assert(s[pos + a + k] == s.subrange(pos, pos + enc.len())[a + k]);
        }
    }
}

/// Reading two big-endian bytes back gives the value they were written from.
pub proof fn lemma_read_u16_be_at(s: Seq<u8>, pos: int, v: u16)
    requires
        0 <= pos,
        pos + 2 <= s.len(),
        s.subrange(pos, pos + 2) == spec_u16_be(v),
    ensures
        spec_read_u16_be(s, pos) == Ok::<(u16, int), DecodeError>((v, pos + 2)),
{
    assert(s[pos] == spec_u16_be(v)[0]);
    assert(s[pos + 1] == spec_u16_be(v)[1]);
}

} // verus!
