use vstd::prelude::*;

verus! {

use crate::errors::DecodeError;
use vstd::arithmetic::div_mod::{
    lemma_fundamental_div_mod,
    lemma_mod_multiples_vanish,
    lemma_small_mod,
};

/// 128 to the power `i`: the place value of the `i`-th byte of a
/// variable-length integer.
pub open spec fn pow128(i: nat) -> nat
    decreases i,
{
    if i == 0 {
        1
    } else {
        128 * pow128((i - 1) as nat)
    }
}

/// The wire bytes of `v` as a variable-length integer: seven value bits per
/// byte, low-order bits first, bit 7 set on every byte but the last.
pub open spec fn spec_varint(v: nat) -> Seq<u8>
    decreases v,
{
    if v < 128 {
        seq![v as u8]
    } else {
        seq![(v % 128 + 128) as u8] + spec_varint(v / 128)
    }
}

/// One step of the variable-length integer decode: `i` bytes already
/// consumed, their value bits accumulated in `acc`.  Stops with
/// `MalformedVarint` when a fifth byte still carries the continuation flag,
/// since five bytes exhaust a 32-bit value.
pub open spec fn spec_read_packed_rec(s: Seq<u8>, pos: int, i: nat, acc: nat) -> Result<
    (u32, int),
    DecodeError,
>
    decreases 5 - i,
        when i <= 4
{
    if pos < 0 || pos >= s.len() {
        Err(DecodeError::UnexpectedEnd)
    } else {
        let b = s[pos];
        if b < 128 {
            Ok(((((acc + (b as nat) * pow128(i)) % 0x1_0000_0000) as u32), pos + 1))
        } else if i == 4 {
            Err(DecodeError::MalformedVarint)
        } else {
            spec_read_packed_rec(s, pos + 1, (i + 1) as nat, acc + ((b - 128) as nat) * pow128(i))
        }
    }
}

/// The variable-length integer read at `pos`: its 32-bit value (higher bits
/// of an overlong encoding are dropped) and the position after it.
pub open spec fn spec_read_packed(s: Seq<u8>, pos: int) -> Result<(u32, int), DecodeError> {
    spec_read_packed_rec(s, pos, 0, 0)
}

pub proof fn lemma_pow128_values()
    ensures
        pow128(0) == 1,
        pow128(1) == 128,
        pow128(2) == 0x4000,
        pow128(3) == 0x20_0000,
        pow128(4) == 0x1000_0000,
{
    reveal_with_fuel(pow128, 5);
}

pub proof fn lemma_pow128_pos(i: nat)
    ensures
        pow128(i) >= 1,
    decreases i,
{
    if i > 0 {
        lemma_pow128_pos((i - 1) as nat);
    }
}

pub proof fn lemma_pow128_ordered(i: nat, j: nat)
    requires
        i <= j,
    ensures
        pow128(i) <= pow128(j),
    decreases j,
{
    if i < j {
        lemma_pow128_ordered(i, (j - 1) as nat);
        lemma_pow128_pos((j - 1) as nat);
    }
}

/// Decodes a variable-length 32-bit integer from `bytes` at `*pos`,
/// advancing `*pos` past the bytes consumed.
pub fn read_packed(bytes: &[u8], pos: &mut usize) -> (r: Result<u32, DecodeError>)
    requires
        *old(pos) <= bytes@.len(),
    ensures
        *old(pos) <= *final(pos) <= bytes@.len(),
        match r {
            Ok(v) => spec_read_packed(bytes@, *old(pos) as int) == Ok::<(u32, int), DecodeError>(
                (v, *final(pos) as int),
            ),
            Err(e) => spec_read_packed(bytes@, *old(pos) as int) == Err::<(u32, int), DecodeError>(
                e,
            ),
        },
{
    let mut acc: u32 = 0;
    let mut mult: u32 = 1;
    let mut i: usize = 0;
    proof {
        lemma_pow128_values();
    }
    loop
        invariant
            i <= 4,
            *old(pos) <= *pos <= bytes@.len(),
            mult == pow128(i as nat),
            acc < pow128(i as nat),
            spec_read_packed(bytes@, *old(pos) as int) == spec_read_packed_rec(
                bytes@,
                *pos as int,
                i as nat,
                acc as nat,
            ),
        decreases 5 - i,
    {
        proof {
            lemma_pow128_values();
            lemma_pow128_ordered(i as nat, 4);
        }
        if *pos >= bytes.len() {
            return Err(DecodeError::UnexpectedEnd);
        }
        let b = bytes[*pos];
        *pos += 1;
        let low = b % 128;
        if b < 128 {
            // Terminating byte: its value bits take the next place.
            if i < 4 {
                proof {
                    assert(acc + (low as nat) * pow128(i as nat) < pow128((i + 1) as nat))
                        by (nonlinear_arith)
                        requires
                            acc < pow128(i as nat),
                            low < 128,
                            pow128((i + 1) as nat) == 128 * pow128(i as nat),
                    ;
                    lemma_pow128_ordered((i + 1) as nat, 4);
                    lemma_small_mod((acc + (low as nat) * mult) as nat, 0x1_0000_0000);
                }
                return Ok(acc + (low as u32) * mult);
            } else {
                let hi = low % 16;
                proof {
                    lemma_varint_truncated_term(acc as nat, low as nat);
                }
                return Ok(acc + (hi as u32) * mult);
            }
        }
        if i == 4 {
            return Err(DecodeError::MalformedVarint);
        }
        proof {
            assert(acc + (low as nat) * pow128(i as nat) < pow128((i + 1) as nat))
                by (nonlinear_arith)
                requires
                    acc < pow128(i as nat),
                    low < 128,
                    pow128((i + 1) as nat) == 128 * pow128(i as nat),
            ;
            lemma_pow128_ordered((i + 1) as nat, 4);
        }
        acc = acc + (low as u32) * mult;
        mult = mult * 128;
        i += 1;
    }
}

/// The fifth byte of an encoding can only contribute its low four value
/// bits to a 32-bit result; the rest fall off the top.
proof fn lemma_varint_truncated_term(acc: nat, low: nat)
    requires
        acc < 0x1000_0000,
        low < 128,
    ensures
        (acc + low * 0x1000_0000) % 0x1_0000_0000 == acc + (low % 16) * 0x1000_0000,
{
    assert(low * 0x1000_0000 == (low / 16) * 0x1_0000_0000 + (low % 16) * 0x1000_0000)
        by (nonlinear_arith);
    assert((low % 16) * 0x1000_0000 <= 15 * 0x1000_0000) by (nonlinear_arith)
        requires
            low % 16 <= 15,
    ;
    lemma_mod_multiples_vanish(
        (low / 16) as int,
        (acc + (low % 16) * 0x1000_0000) as int,
        0x1_0000_0000,
    );
    lemma_small_mod((acc + (low % 16) * 0x1000_0000) as nat, 0x1_0000_0000);
}

/// Encodes `value` as a variable-length integer appended to `out`,
/// returning how many bytes were written.
pub fn write_packed(value: u32, out: &mut Vec<u8>) -> (n: usize)
    ensures
        final(out)@ == old(out)@ + spec_varint(value as nat),
        n == spec_varint(value as nat).len(),
{
    let ghost orig = out@;
    let start = out.len();
    let mut v = value;
    loop
        invariant
            orig == old(out)@,
            start == orig.len(),
            orig.len() <= out@.len(),
            out@.subrange(0, orig.len() as int) == orig,
            spec_varint(value as nat) == out@.subrange(orig.len() as int, out@.len() as int)
                + spec_varint(v as nat),
        decreases v,
    {
        let ghost emitted = out@.subrange(orig.len() as int, out@.len() as int);
        let low = (v % 128) as u8;
        if v >= 128 {
            out.push(low + 128);
            proof {
                assert(out@.subrange(0, orig.len() as int) =~= orig);
                assert(out@.subrange(orig.len() as int, out@.len() as int) =~= emitted + seq![
                    (v % 128 + 128) as u8,
                ]);
                assert(spec_varint(v as nat) == seq![(v % 128 + 128) as u8] + spec_varint(
                    (v / 128) as nat,
                ));
                assert(spec_varint(value as nat) =~= (emitted + seq![(v % 128 + 128) as u8])
                    + spec_varint((v / 128) as nat));
            }
            v = v / 128;
        } else {
            out.push(low);
            proof {
                assert(out@.subrange(0, orig.len() as int) =~= orig);
                assert(out@.subrange(orig.len() as int, out@.len() as int) =~= emitted + seq![
                    v as u8,
                ]);
                assert(spec_varint(v as nat) == seq![v as u8]);
                assert(out@ =~= orig + spec_varint(value as nat));
            }
            return out.len() - start;
        }
    }
}

/// No 32-bit value needs more than five bytes (nor fewer than one).
pub proof fn lemma_varint_len(v: nat)
    requires
        v < 0x1_0000_0000,
    ensures
        1 <= spec_varint(v).len() <= 5,
{
    lemma_pow128_values();
    assert(pow128(5) == 128 * pow128(4)) by {
        reveal_with_fuel(pow128, 6);
    }
    lemma_varint_len_bound(v, 5);
}

proof fn lemma_varint_len_bound(v: nat, k: nat)
    requires
        k >= 1,
        v < pow128(k),
    ensures
        1 <= spec_varint(v).len() <= k,
    decreases k,
{
    if v >= 128 {
        assert(pow128(k) == 128 * pow128((k - 1) as nat));
        assert(v / 128 < pow128((k - 1) as nat)) by (nonlinear_arith)
            requires
                v < 128 * pow128((k - 1) as nat),
        ;
        lemma_varint_len_bound(v / 128, (k - 1) as nat);
    }
}

/// Reading a variable-length integer back from where its encoding stands
/// gives the value it was written from.
pub proof fn lemma_read_varint_at(s: Seq<u8>, pos: int, v: u32)
    requires
        0 <= pos,
        pos + spec_varint(v as nat).len() <= s.len(),
        s.subrange(pos, pos + spec_varint(v as nat).len()) == spec_varint(v as nat),
    ensures
        spec_read_packed(s, pos) == Ok::<(u32, int), DecodeError>(
            (v, pos + spec_varint(v as nat).len()),
        ),
{
    lemma_varint_len(v as nat);
    lemma_pow128_values();
    lemma_read_varint_rec(s, pos, 0, 0, v as nat);
}

proof fn lemma_read_varint_rec(s: Seq<u8>, pos: int, i: nat, acc: nat, v: nat)
    requires
        0 <= pos,
        i + spec_varint(v).len() <= 5,
        acc < pow128(i),
        acc + v * pow128(i) < 0x1_0000_0000,
        pos + spec_varint(v).len() <= s.len(),
        s.subrange(pos, pos + spec_varint(v).len()) == spec_varint(v),
    ensures
        spec_read_packed_rec(s, pos, i, acc) == Ok::<(u32, int), DecodeError>(
            (((acc + v * pow128(i)) as u32), pos + spec_varint(v).len()),
        ),
    decreases v,
{
    let enc = spec_varint(v);
    assert(s[pos] == enc[0]);
    if v < 128 {
        assert(enc[0] == v as u8);
        lemma_small_mod((acc + v * pow128(i)) as nat, 0x1_0000_0000);
    } else {
        let b = enc[0];
        assert(b == (v % 128 + 128) as u8);
        let acc2 = acc + (v % 128) * pow128(i);
        let rest = spec_varint(v / 128);
        assert(enc =~= seq![b] + rest);
        assert(rest.len() >= 1) by {
            reveal_with_fuel(spec_varint, 2);
        }
        assert(i + 2 <= i + enc.len());
        assert(s.subrange(pos + 1, pos + 1 + rest.len()) =~= rest) by {
            assert forall|k: int| 0 <= k < rest.len() implies s.subrange(
                pos + 1,
                pos + 1 + rest.len(),
            )[k] == rest[k] by {
                assert(s[pos + 1 + k] == s.subrange(pos, pos + enc.len())[k + 1]);
                assert(rest[k] == enc[k + 1]);
            }
        }
        assert(pow128((i + 1) as nat) == 128 * pow128(i));
        assert(acc2 < pow128((i + 1) as nat)) by (nonlinear_arith)
            requires
                acc < pow128(i),
                v % 128 < 128,
                acc2 == acc + (v % 128) * pow128(i),
                pow128((i + 1) as nat) == 128 * pow128(i),
        ;
        assert(acc2 + (v / 128) * pow128((i + 1) as nat) == acc + v * pow128(i))
            by (nonlinear_arith)
            requires
                acc2 == acc + (v % 128) * pow128(i),
                pow128((i + 1) as nat) == 128 * pow128(i),
                v == 128 * (v / 128) + v % 128,
        ;
        lemma_fundamental_div_mod(v as int, 128);
        lemma_read_varint_rec(s, pos + 1, (i + 1) as nat, acc2, v / 128);
    }
}

/// A successful variable-length integer decode consumes at least one byte
/// and stays within the sequence.
pub proof fn lemma_read_packed_advances(s: Seq<u8>, pos: int)
    ensures
        spec_read_packed(s, pos) matches Ok((v, p2)) ==> pos < p2 <= s.len(),
{
    lemma_read_packed_rec_advances(s, pos, 0, 0);
}

proof fn lemma_read_packed_rec_advances(s: Seq<u8>, pos: int, i: nat, acc: nat)
    requires
        i <= 4,
    ensures
        spec_read_packed_rec(s, pos, i, acc) matches Ok((v, p2)) ==> pos < p2 <= s.len(),
    decreases 5 - i,
{
    if 0 <= pos < s.len() {
        let b = s[pos];
        if b >= 128 && i < 4 {
            lemma_read_packed_rec_advances(
                s,
                pos + 1,
                (i + 1) as nat,
                acc + ((b - 128) as nat) * pow128(i),
            );
        }
    }
}

/// A variable-length integer decodes back to the value it encodes.
pub proof fn lemma_varint_round_trip(v: u32)
    ensures
        spec_read_packed(spec_varint(v as nat), 0) == Ok::<(u32, int), DecodeError>(
            (v, spec_varint(v as nat).len() as int),
        ),
{
    let enc = spec_varint(v as nat);
    lemma_varint_len(v as nat);
    assert(enc.subrange(0, enc.len() as int) =~= enc);
    lemma_read_varint_at(enc, 0, v);
}

} // verus!
