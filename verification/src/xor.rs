//! The bitwise exclusive-or of two words, as a decomposable instruction.

use vstd::prelude::*;
use vstd::arithmetic::div_mod::*;
use vstd::arithmetic::power2::*;
use crate::field::{field_add, field_mul, field_sub, JoltField};
use crate::instruction::JoltInstruction;
use crate::math::{ceil_log2, spec_ceil_log2};
use crate::poly::field_scalars;
use crate::witness::{spec_access_sequences, valid_access_sequences};

verus! {

/// One lookup of the exclusive-or of two words of `WORD_SIZE` bits.
///
/// The operands are cut into `c` chunks of `log_m / 2` bits each, the most
/// significant first. The address of a dimension joins the two chunks of
/// that position, the left operand's on top; the one subtable maps such an
/// address to the exclusive-or of its halves.
#[derive(Clone, Copy, Debug)]
pub struct XORInstruction<const WORD_SIZE: usize>(pub u64, pub u64);

/// The mask of the low `bits` bits, for `bits` below 32.
pub open spec fn spec_low_mask(bits: nat) -> u64 {
    ((1u64 << (bits as u64)) - 1) as u64
}

/// The `bits` bits of `x` that start at bit `shift`: zero where the word
/// has no such bits.
pub open spec fn spec_chunk(x: u64, shift: nat, bits: nat) -> u64 {
    if shift >= 64 {
        0
    } else {
        (x >> (shift as u64)) & spec_low_mask(bits)
    }
}

/// The address that joins the chunk of `x` and the chunk of `y` that start
/// at bit `shift`. Chunks of 32 bits or more are not supported: the address
/// is then 0.
pub open spec fn spec_xor_index(x: u64, y: u64, shift: nat, bits: nat) -> usize {
    if bits >= 32 {
        0
    } else {
        ((spec_chunk(x, shift, bits) << (bits as u64)) | spec_chunk(y, shift, bits)) as usize
    }
}

/// The entry of the subtable at `index`: the exclusive-or of the upper and
/// of the lower `bits` bits of the address.
pub open spec fn spec_xor_entry(index: nat, bits: nat) -> u32 {
    if bits >= 32 {
        0
    } else {
        (spec_chunk(index as u64, bits, bits) ^ spec_chunk(index as u64, 0, bits)) as u32
    }
}

/// The exclusive-or of two field elements that stand for bits:
/// `(1 - x) * y + x * (1 - y)`.
pub open spec fn spec_xor_bit(x: nat, y: nat, p: nat) -> nat {
    field_add(field_mul(field_sub(1, x, p), y, p), field_mul(x, field_sub(1, y, p), p), p)
}

/// The multilinear extension of the subtable over its first `upto` pairs of
/// bits. The point holds the bits of the upper half, most significant
/// first, then those of the lower half.
pub open spec fn spec_xor_mle_upto(point: Seq<nat>, upto: int, p: nat) -> nat
    decreases upto,
{
    if upto <= 0 {
        0
    } else {
        let half = (point.len() / 2) as int;
        field_add(
            field_mul(2, spec_xor_mle_upto(point, upto - 1, p), p),
            spec_xor_bit(point[upto - 1], point[half + upto - 1], p),
            p,
        )
    }
}

/// The values of the chunks joined into one word, the first value on top:
/// each later value is added after a shift by `shift`.
pub open spec fn spec_concatenate_lookups(vals: Seq<nat>, shift: nat, p: nat) -> nat
    decreases vals.len(),
{
    if vals.len() == 0 {
        0
    } else {
        field_add(
            field_mul(shift, spec_concatenate_lookups(vals.drop_last(), shift, p), p),
            vals.last(),
            p,
        )
    }
}

/// The low-bit mask, for `bits` below 32.
fn low_mask(bits: usize) -> (mask: u64)
    requires
        bits < 32,
    ensures
        mask == spec_low_mask(bits as nat),
{
    let b: u64 = bits as u64;
    assert((1u64 << b) >= 1) by (bit_vector)
        requires
            b < 32,
    ;
    (1u64 << b) - 1
}

/// The `bits` bits of `x` that start at bit `steps * bits`.
fn chunk(x: u64, steps: usize, bits: usize) -> (r: u64)
    requires
        bits < 32,
    ensures
        r == spec_chunk(x, (steps * bits) as nat, bits as nat),
{
    if bits == 0 {
        assert(steps * bits == 0) by (nonlinear_arith)
            requires
                bits == 0,
        ;
        (x >> 0u64) & low_mask(bits)
    } else if steps >= 64 {
        assert(steps * bits >= 64) by (nonlinear_arith)
            requires
                steps >= 64,
                bits >= 1,
        ;
        0
    } else {
        assert(steps * bits <= 63 * 31) by (nonlinear_arith)
            requires
                steps < 64,
                bits < 32,
        ;
        let shift: usize = steps * bits;
        if shift >= 64 {
            0
        } else {
            (x >> (shift as u64)) & low_mask(bits)
        }
    }
}

impl<const WORD_SIZE: usize> JoltInstruction for XORInstruction<WORD_SIZE> {
    open spec fn spec_num_subtables(c: nat, m: nat) -> nat {
        1
    }

    open spec fn spec_subtable_entry(subtable: nat, index: nat, c: nat, m: nat) -> u32 {
        spec_xor_entry(index, spec_ceil_log2(m) / 2)
    }

    open spec fn spec_subtable_mle(subtable: nat, point: Seq<nat>, c: nat, m: nat, modulus: nat) -> nat {
        spec_xor_mle_upto(point, (point.len() / 2) as int, modulus)
    }

    open spec fn spec_to_indices(&self, c: nat, log_m: nat) -> Seq<usize> {
        Seq::new(
            c,
            |i: int| spec_xor_index(self.0, self.1, ((c - 1 - i) * (log_m / 2)) as nat, log_m / 2),
        )
    }

    open spec fn spec_combine_lookups(vals: Seq<nat>, c: nat, m: nat, modulus: nat) -> nat {
        spec_concatenate_lookups(vals, pow2(spec_ceil_log2(m) / 2) % modulus, modulus)
    }

    open spec fn spec_g_poly_degree(c: nat) -> nat {
        1
    }

    fn num_subtables(c: usize, m: usize) -> (n: usize) {
        1
    }

    fn materialize_subtable(subtable: usize, c: usize, m: usize) -> (table: Vec<u32>) {
        let bits: usize = ceil_log2(m) / 2;
        let mut table: Vec<u32> = Vec::new();
        let mut index: usize = 0;
        while index < m
            invariant
                index <= m,
                bits == spec_ceil_log2(m as nat) / 2,
                table@.len() == index,
                forall|i: int|
                    0 <= i < index ==> table@[i] == spec_xor_entry(i as nat, bits as nat),
            decreases m - index,
        {
            let entry: u32 = if bits >= 32 {
                0
            } else {
                let upper = chunk(index as u64, 1, bits);
                let lower = chunk(index as u64, 0, bits);
                assert(1 * bits == bits && 0 * bits == 0);
                #[verifier::truncate]
                ((upper ^ lower) as u32)
            };
            table.push(entry);
            index += 1;
        }
        table
    }

    fn evaluate_subtable_mle<F: JoltField>(subtable: usize, point: &[F], c: usize, m: usize) -> (r:
        F) {
        let half: usize = point.len() / 2;
        let one = F::one();
        let two = F::from_u64(2);
        let mut result = F::zero();
        let ghost p = F::modulus();
        let ghost values = field_scalars(point@);
        proof {
            F::lemma_modulus_bound();
        }
        let mut i: usize = 0;
        while i < half
            invariant
                i <= half,
                half == point@.len() / 2,
                p == F::modulus(),
                p > 1,
                one.value() == 1,
                two.value() == 2nat % p,
                values == field_scalars(point@),
                result.value() == spec_xor_mle_upto(values, i as int, p),
            decreases half - i,
        {
            let x = point[i];
            let y = point[half + i];
            let bit = one.sub(&x).mul(&y).add(&x.mul(&one.sub(&y)));
            let ghost before = result.value();
            result = two.mul(&result).add(&bit);
            proof {
                lemma_mul_mod_noop_left(2, before as int, p as int);
                assert(bit.value() == spec_xor_bit(values[i as int], values[half + i], p));
            }
            i += 1;
        }
        result
    }

    fn to_indices(&self, c: usize, log_m: usize) -> (indices: Vec<usize>) {
        let bits: usize = log_m / 2;
        let mut indices: Vec<usize> = Vec::new();
        let mut i: usize = 0;
        while i < c
            invariant
                i <= c,
                bits == log_m / 2,
                indices@.len() == i,
                forall|j: int|
                    0 <= j < i ==> indices@[j] == spec_xor_index(
                        self.0,
                        self.1,
                        ((c - 1 - j) * bits) as nat,
                        bits as nat,
                    ),
            decreases c - i,
        {
            let index: usize = if bits >= 32 {
                0
            } else {
                let steps: usize = c - 1 - i;
                let left = chunk(self.0, steps, bits);
                let right = chunk(self.1, steps, bits);
                #[verifier::truncate]
                (((left << (bits as u64)) | right) as usize)
            };
            indices.push(index);
            i += 1;
        }
        assert(indices@ =~= self.spec_to_indices(c as nat, log_m as nat));
        indices
    }

    fn combine_lookups<F: JoltField>(vals: &[F], c: usize, m: usize) -> (r: F) {
        let bits: usize = ceil_log2(m) / 2;
        proof {
            lemma2_to64();
            assert(bits <= 32);
            lemma_pow2_pos(bits as nat);
            if bits < 32 {
                lemma_pow2_strictly_increases(bits as nat, 32);
            }
            vstd::bits::lemma_u64_shl_is_mul(1, bits as u64);
        }
        let shift = F::from_u64(1u64 << (bits as u64));
        let ghost p = F::modulus();
        let ghost values = field_scalars(vals@);
        let mut sum = F::zero();
        let mut i: usize = 0;
        proof {
            assert(values.take(0).len() == 0);
        }
        while i < vals.len()
            invariant
                i <= vals@.len(),
                p == F::modulus(),
                values == field_scalars(vals@),
                shift.value() == pow2(bits as nat) % p,
                sum.value() == spec_concatenate_lookups(values.take(i as int), shift.value(), p),
            decreases vals@.len() - i,
        {
            proof {
                assert(values.take(i + 1).drop_last() =~= values.take(i as int));
                assert(values.take(i + 1).last() == vals@[i as int].value());
            }
            sum = shift.mul(&sum).add(&vals[i]);
            i += 1;
        }
        proof {
            assert(values.take(vals@.len() as int) =~= values);
        }
        sum
    }

    fn g_poly_degree(c: usize) -> (d: usize) {
        1
    }
}

/// Joining two chunks of `bits` bits gives an address of `2 * bits` bits.
proof fn lemma_xor_index_bound(x: u64, y: u64, shift: nat, bits: nat)
    requires
        bits <= 16,
    ensures
        spec_xor_index(x, y, shift, bits) < pow2(2 * bits),
        spec_xor_index(x, y, shift, bits) == ((spec_chunk(x, shift, bits) << (bits as u64))
            | spec_chunk(y, shift, bits)),
{
    let b = bits as u64;
    let mask = spec_low_mask(bits);
    let l = spec_chunk(x, shift, bits);
    let r = spec_chunk(y, shift, bits);
    assert(mask == ((1u64 << b) - 1) as u64);
    assert((1u64 << b) >= 1) by (bit_vector)
        requires
            b <= 16,
    ;
    let m: u64 = ((1u64 << b) - 1) as u64;
    assert(l & m == l) by {
        if shift < 64 {
            let s = shift as u64;
            assert(((x >> s) & m) & m == (x >> s) & m) by (bit_vector);
        } else {
            assert(0u64 & m == 0u64) by (bit_vector);
        }
    }
    assert(r & m == r) by {
        if shift < 64 {
            let s = shift as u64;
            assert(((y >> s) & m) & m == (y >> s) & m) by (bit_vector);
        } else {
            assert(0u64 & m == 0u64) by (bit_vector);
        }
    }
    let joined: u64 = (l << b) | r;
    assert(joined < (1u64 << ((2 * b) as u64)) && (1u64 << ((2 * b) as u64)) <= 0x1_0000_0000u64)
        by (bit_vector)
        requires
            b <= 16,
            m == ((1u64 << b) - 1) as u64,
            l & m == l,
            r & m == r,
            joined == (l << b) | r,
    ;
    lemma2_to64();
    lemma_pow2_pos(2 * bits);
    if 2 * bits < 32 {
        lemma_pow2_strictly_increases(2 * bits, 32);
    }
    vstd::bits::lemma_u64_shl_is_mul(1, (2 * b) as u64);
    assert(joined as usize == joined);
}

/// Where the subtables have a power of two of entries, at most 2^32, every
/// lookup decomposes into `c` addresses of the subtable.
pub proof fn lemma_xor_indices_valid<const WORD_SIZE: usize>(
    op: XORInstruction<WORD_SIZE>,
    c: nat,
    m: nat,
)
    requires
        m == pow2(spec_ceil_log2(m)),
        m <= 0x1_0000_0000,
    ensures
        op.spec_to_indices(c, spec_ceil_log2(m)).len() == c,
        forall|d: int| 0 <= d < c ==> #[trigger] op.spec_to_indices(c, spec_ceil_log2(m))[d] < m,
{
    let log_m = spec_ceil_log2(m);
    let bits = log_m / 2;
    lemma2_to64();
    if log_m > 32 {
        lemma_pow2_strictly_increases(32, log_m);
    }
    assert(bits <= 16);
    if 2 * bits < log_m {
        lemma_pow2_strictly_increases(2 * bits, log_m);
    }
    assert forall|d: int| 0 <= d < c implies #[trigger] op.spec_to_indices(c, log_m)[d] < m by {
        lemma_xor_index_bound(op.0, op.1, ((c - 1 - d) * bits) as nat, bits);
    }
}

/// Where the subtables have a power of two of entries, at most 2^32, all
/// lookups are what witness generation takes.
pub proof fn lemma_xor_lookups_are_valid<const WORD_SIZE: usize>(
    ops: Seq<XORInstruction<WORD_SIZE>>,
    c: nat,
    m: nat,
)
    requires
        m == pow2(spec_ceil_log2(m)),
        m <= 0x1_0000_0000,
    ensures
        valid_access_sequences(spec_access_sequences(ops, c, spec_ceil_log2(m)), c, m),
{
    let sequences = spec_access_sequences(ops, c, spec_ceil_log2(m));
    assert forall|j: int| 0 <= j < sequences.len() implies (#[trigger] sequences[j]).len() == c by {
        lemma_xor_indices_valid(ops[j], c, m);
    }
    assert forall|j: int, d: int| 0 <= j < sequences.len() && 0 <= d < c implies #[trigger] sequences[j][d]
        < m by {
        lemma_xor_indices_valid(ops[j], c, m);
        assert(ops[j].spec_to_indices(c, spec_ceil_log2(m))[d] < m);
    }
}

} // verus!
