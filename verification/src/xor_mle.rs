//! The extension that the exclusive-or instruction computes for its
//! subtable is the multilinear extension of the subtable.

use vstd::prelude::*;
use vstd::arithmetic::div_mod::*;
use vstd::arithmetic::power2::*;
use crate::instruction::JoltInstruction;
use crate::math::lemma_ceil_log2_pow2;
use crate::mle::{
    int_eq_bit, int_eq_weight, int_mle_dot, int_weight_sum, lemma_mle_sum_reduces,
    lemma_weights_sum_to_one, spec_mle_evaluate,
};
use crate::preprocessing::spec_materialized_subtable;
use crate::reconstruction::{family_extends_subtables, spec_table_values};
use crate::xor::{
    spec_chunk, spec_xor_bit, spec_xor_entry, spec_xor_mle_upto, XORInstruction,
};

verus! {

/// The exclusive-or of two numbers of at most 32 bits.
pub open spec fn spec_xor(u: nat, l: nat) -> nat {
    ((u as u64) ^ (l as u64)) as nat
}

/// The exclusive-or of two bits as a polynomial over the integers:
/// `(1 - x) * y + x * (1 - y)`.
pub open spec fn int_xor_bit(x: nat, y: nat) -> int {
    (1 - x) * y + x * (1 - y)
}

/// The sum, over the first `upto` numbers `l`, of the exclusive-or of `u`
/// and `l` times the weight of `l` at `py`.
pub open spec fn int_xor_row(u: nat, py: Seq<nat>, upto: int) -> int
    decreases upto,
{
    if upto <= 0 {
        0
    } else {
        int_xor_row(u, py, upto - 1) + spec_xor(u, (upto - 1) as nat) * int_eq_weight(
            py,
            (upto - 1) as nat,
        )
    }
}

/// The exclusive-or splits into that of the upper bits and that of the
/// lowest bit.
proof fn lemma_xor_splits(u: nat, l: nat)
    requires
        u < 0x1_0000_0000,
        l < 0x1_0000_0000,
    ensures
        spec_xor(u, l) == 2 * spec_xor(u / 2, l / 2) + spec_xor(u % 2, l % 2),
        spec_xor(u, l) < 0x1_0000_0000,
        u % 2 == 0 && l % 2 == 0 ==> spec_xor(u % 2, l % 2) == 0,
        u % 2 == 0 && l % 2 == 1 ==> spec_xor(u % 2, l % 2) == 1,
        u % 2 == 1 && l % 2 == 0 ==> spec_xor(u % 2, l % 2) == 1,
        u % 2 == 1 && l % 2 == 1 ==> spec_xor(u % 2, l % 2) == 0,
{
    let a = u as u64;
    let b = l as u64;
    assert((a ^ b) == 2 * ((a / 2) ^ (b / 2)) + ((a % 2) ^ (b % 2)) && (a ^ b) < 0x1_0000_0000u64)
        by (bit_vector)
        requires
            a < 0x1_0000_0000u64,
            b < 0x1_0000_0000u64,
    ;
    assert(0u64 ^ 0u64 == 0u64) by (bit_vector);
    assert(0u64 ^ 1u64 == 1u64) by (bit_vector);
    assert(1u64 ^ 0u64 == 1u64) by (bit_vector);
    assert(1u64 ^ 1u64 == 0u64) by (bit_vector);
    assert((a / 2) as nat == u / 2 && (a % 2) as nat == u % 2);
    assert((b / 2) as nat == l / 2 && (b % 2) as nat == l % 2);
}

/// The numbers come in pairs that differ in the lowest bit: over the first
/// `2 * pairs` numbers, the row of `u` is twice the row of the upper bits of
/// `u` over the first `pairs` numbers of one bit less, plus the exclusive-or
/// of the lowest bit of `u` with the last coordinate for each of these.
proof fn lemma_xor_row_pairs(u: nat, py: Seq<nat>, pairs: int)
    requires
        py.len() > 0,
        u < 0x1_0000_0000,
        0 <= pairs <= 0x8000_0000,
    ensures
        int_xor_row(u, py, 2 * pairs) == 2 * int_xor_row(u / 2, py.drop_last(), pairs)
            + int_xor_bit(u % 2, py.last()) * int_weight_sum(py.drop_last(), pairs),
    decreases pairs,
{
    let bit = int_xor_bit(u % 2, py.last());
    if pairs > 0 {
        lemma_xor_row_pairs(u, py, pairs - 1);
        let half = (pairs - 1) as nat;
        let even = (2 * pairs - 2) as nat;
        let odd = (2 * pairs - 1) as nat;
        assert(even / 2 == half && even % 2 == 0);
        assert(odd / 2 == half && odd % 2 == 1);
        lemma_xor_splits(u, even);
        lemma_xor_splits(u, odd);
        let w = int_eq_weight(py.drop_last(), half);
        let y = py.last() as int;
        let x = spec_xor(u / 2, half) as int;
        let u0 = (u % 2) as int;
        assert(int_eq_weight(py, even) == w * (1 - y));
        assert(int_eq_weight(py, odd) == w * y);
        // the lowest bit of u against an unset and against a set bit
        let against_unset = spec_xor(u % 2, 0) as int;
        let against_set = spec_xor(u % 2, 1) as int;
        assert(against_unset == u0 && against_set == 1 - u0);
        assert(spec_xor(u, even) == 2 * x + u0);
        assert(spec_xor(u, odd) == 2 * x + (1 - u0));
        assert(int_xor_row(u, py, 2 * pairs) == int_xor_row(u, py, 2 * pairs - 2) + (2 * x + u0)
            * (w * (1 - y)) + (2 * x + (1 - u0)) * (w * y)) by {
            assert(int_xor_row(u, py, 2 * pairs) == int_xor_row(u, py, 2 * pairs - 1) + spec_xor(
                u,
                odd,
            ) * int_eq_weight(py, odd));
            assert(int_xor_row(u, py, 2 * pairs - 1) == int_xor_row(u, py, 2 * pairs - 2)
                + spec_xor(u, even) * int_eq_weight(py, even));
        }
        lemma_pair_of_terms(x, u0, w, y);
        assert(bit == (1 - u0) * y + u0 * (1 - y));
        let rows = int_xor_row(u / 2, py.drop_last(), pairs - 1);
        let total = int_weight_sum(py.drop_last(), pairs - 1);
        assert(bit * (total + w) == bit * total + bit * w) by (nonlinear_arith);
    } else {
        assert(bit * 0 == 0);
    }
}

/// The two terms of a pair, added: `(2x + u)(w(1 - y)) + (2x + 1 - u)(wy)`
/// is `2xw + ((1 - u)y + u(1 - y))w`.
proof fn lemma_pair_of_terms(x: int, u: int, w: int, y: int)
    ensures
        (2 * x + u) * (w * (1 - y)) + (2 * x + (1 - u)) * (w * y) == 2 * (x * w) + ((1 - u) * y + u
            * (1 - y)) * w,
{
    let wy = w * y;
    assert(w * (1 - y) == w - wy) by (nonlinear_arith)
        requires
            wy == w * y,
    ;
    let xw = x * w;
    let xwy = x * wy;
    let uw = u * w;
    let uwy = u * wy;
    assert((2 * x + u) * (w - wy) == 2 * xw - 2 * xwy + uw - uwy) by (nonlinear_arith)
        requires
            xw == x * w,
            xwy == x * wy,
            uw == u * w,
            uwy == u * wy,
    ;
    assert((2 * x + (1 - u)) * wy == 2 * xwy + wy - uwy) by (nonlinear_arith)
        requires
            xwy == x * wy,
            uwy == u * wy,
    ;
    let uy = u * y;
    assert(uwy == uy * w) by (nonlinear_arith)
        requires
            uwy == u * wy,
            wy == w * y,
            uy == u * y,
    ;
    assert(((1 - u) * y + u * (1 - y)) * w == wy + uw - 2 * (uy * w)) by (nonlinear_arith)
        requires
            wy == w * y,
            uw == u * w,
            uy == u * y,
    ;
}

/// Over all numbers of as many bits as `py` has coordinates, the row of `u`
/// is twice the row of the upper bits of `u` over one bit less, plus the
/// exclusive-or of the lowest bit of `u` with the last coordinate.
proof fn lemma_xor_row_step(u: nat, py: Seq<nat>)
    requires
        0 < py.len() <= 32,
        u < 0x1_0000_0000,
    ensures
        int_xor_row(u, py, pow2(py.len()) as int) == 2 * int_xor_row(
            u / 2,
            py.drop_last(),
            pow2((py.len() - 1) as nat) as int,
        ) + int_xor_bit(u % 2, py.last()),
{
    lemma2_to64();
    lemma_pow2_unfold(py.len());
    let shorter = (py.len() - 1) as nat;
    if shorter < 31 {
        lemma_pow2_strictly_increases(shorter, 31);
    }
    lemma_xor_row_pairs(u, py, pow2(shorter) as int);
    lemma_weights_sum_to_one(py.drop_last());
    assert(int_xor_bit(u % 2, py.last()) * 1 == int_xor_bit(u % 2, py.last()));
}

/// The sum, over the first `upto` numbers `u`, of the weight of `u` at `px`
/// times the row of `u` over all numbers of as many bits as `py` has
/// coordinates.
pub open spec fn int_xor_square(px: Seq<nat>, py: Seq<nat>, upto: int) -> int
    decreases upto,
{
    if upto <= 0 {
        0
    } else {
        int_xor_square(px, py, upto - 1) + int_eq_weight(px, (upto - 1) as nat) * int_xor_row(
            (upto - 1) as nat,
            py,
            pow2(py.len()) as int,
        )
    }
}

/// The exclusive-or of the first `upto` bits of one half of `point` with
/// those of the other half, which starts at `half`, as a polynomial over
/// the integers: every pair of bits counts twice as much as the next.
pub open spec fn int_xor_mle_upto(point: Seq<nat>, half: int, upto: int) -> int
    decreases upto,
{
    if upto <= 0 {
        0
    } else {
        2 * int_xor_mle_upto(point, half, upto - 1) + int_xor_bit(
            point[upto - 1],
            point[half + upto - 1],
        )
    }
}

/// The exclusive-or of an unset bit with `y` is `y`, that of a set bit is
/// `1 - y`.
proof fn lemma_xor_bit_of_bits(y: nat)
    ensures
        int_xor_bit(0, y) == y,
        int_xor_bit(1, y) == 1 - y,
{
    let yi = y as int;
    assert((1 - 0) * yi == yi) by (nonlinear_arith);
    assert(0 * (1 - yi) == 0) by (nonlinear_arith);
    assert((1 - 1) * yi == 0) by (nonlinear_arith);
    assert(1 * (1 - yi) == 1 - yi) by (nonlinear_arith);
}

/// The two rows of a pair, weighted and added:
/// `w(1 - x)(2r + y) + wx(2r + 1 - y)` is `2wr + ((1 - x)y + x(1 - y))w`.
proof fn lemma_pair_of_rows(r: int, w: int, x: int, y: int)
    ensures
        (w * (1 - x)) * (2 * r + y) + (w * x) * (2 * r + (1 - y)) == 2 * (w * r) + ((1 - x) * y + x
            * (1 - y)) * w,
{
    let wx = w * x;
    assert(w * (1 - x) == w - wx) by (nonlinear_arith)
        requires
            wx == w * x,
    ;
    let wr = w * r;
    let wxr = wx * r;
    let wy = w * y;
    let wxy = wx * y;
    assert((w - wx) * (2 * r + y) == 2 * wr + wy - 2 * wxr - wxy) by (nonlinear_arith)
        requires
            wr == w * r,
            wxr == wx * r,
            wy == w * y,
            wxy == wx * y,
    ;
    assert(wx * (2 * r + (1 - y)) == 2 * wxr + wx - wxy) by (nonlinear_arith)
        requires
            wxr == wx * r,
            wxy == wx * y,
    ;
    let xy = x * y;
    assert(wxy == xy * w) by (nonlinear_arith)
        requires
            wxy == wx * y,
            wx == w * x,
            xy == x * y,
    ;
    assert(((1 - x) * y + x * (1 - y)) * w == wy + wx - 2 * (xy * w)) by (nonlinear_arith)
        requires
            wy == w * y,
            wx == w * x,
            xy == x * y,
    ;
}

/// Over the first `2 * pairs` numbers, the square is twice the square of one
/// bit less over the first `pairs` numbers, plus the exclusive-or of the
/// last coordinates for each of these.
proof fn lemma_xor_square_pairs(px: Seq<nat>, py: Seq<nat>, pairs: int)
    requires
        px.len() > 0,
        0 < py.len() <= 32,
        0 <= pairs <= 0x8000_0000,
    ensures
        int_xor_square(px, py, 2 * pairs) == 2 * int_xor_square(
            px.drop_last(),
            py.drop_last(),
            pairs,
        ) + int_xor_bit(px.last(), py.last()) * int_weight_sum(px.drop_last(), pairs),
    decreases pairs,
{
    let bit = int_xor_bit(px.last(), py.last());
    if pairs > 0 {
        lemma_xor_square_pairs(px, py, pairs - 1);
        let half = (pairs - 1) as nat;
        let even = (2 * pairs - 2) as nat;
        let odd = (2 * pairs - 1) as nat;
        assert(even / 2 == half && even % 2 == 0);
        assert(odd / 2 == half && odd % 2 == 1);
        lemma_xor_row_step(even, py);
        lemma_xor_row_step(odd, py);
        let full = pow2(py.len()) as int;
        let shorter = pow2((py.len() - 1) as nat) as int;
        let w = int_eq_weight(px.drop_last(), half);
        let x = px.last() as int;
        let y = py.last() as int;
        let r = int_xor_row(half, py.drop_last(), shorter);
        assert(int_eq_weight(px, even) == w * (1 - x));
        assert(int_eq_weight(px, odd) == w * x);
        lemma_xor_bit_of_bits(py.last());
        assert(int_xor_bit(0, py.last()) == y);
        assert(int_xor_bit(1, py.last()) == 1 - y);
        assert(int_xor_row(even, py, full) == 2 * r + y);
        assert(int_xor_row(odd, py, full) == 2 * r + (1 - y));
        assert(int_xor_square(px, py, 2 * pairs) == int_xor_square(px, py, 2 * pairs - 2) + (w * (1
            - x)) * (2 * r + y) + (w * x) * (2 * r + (1 - y))) by {
            assert(int_xor_square(px, py, 2 * pairs) == int_xor_square(px, py, 2 * pairs - 1)
                + int_eq_weight(px, odd) * int_xor_row(odd, py, full));
            assert(int_xor_square(px, py, 2 * pairs - 1) == int_xor_square(px, py, 2 * pairs - 2)
                + int_eq_weight(px, even) * int_xor_row(even, py, full));
        }
        lemma_pair_of_rows(r, w, x, y);
        let total = int_weight_sum(px.drop_last(), pairs - 1);
        assert(bit * (total + w) == bit * total + bit * w) by (nonlinear_arith);
    } else {
        assert(bit * 0 == 0);
    }
}

/// The square over all numbers of `upto` bits, for the first `upto`
/// coordinates of both halves of `point`, is the exclusive-or polynomial of
/// these coordinates.
proof fn lemma_xor_square_is_mle(point: Seq<nat>, half: int, upto: int)
    requires
        0 <= upto <= half <= 32,
        point.len() == 2 * half,
    ensures
        int_xor_square(
            point.subrange(0, upto),
            point.subrange(half, half + upto),
            pow2(upto as nat) as int,
        ) == int_xor_mle_upto(point, half, upto),
    decreases upto,
{
    lemma2_to64();
    let px = point.subrange(0, upto);
    let py = point.subrange(half, half + upto);
    if upto == 0 {
        assert(0u64 ^ 0u64 == 0u64) by (bit_vector);
        assert(int_xor_row(0, py, 1) == int_xor_row(0, py, 0) + spec_xor(0, 0) * int_eq_weight(
            py,
            0,
        ));
        assert(int_xor_square(px, py, 1) == int_xor_square(px, py, 0) + int_eq_weight(px, 0)
            * int_xor_row(0, py, 1));
    } else {
        lemma_xor_square_is_mle(point, half, upto - 1);
        assert(px.drop_last() =~= point.subrange(0, upto - 1));
        assert(py.drop_last() =~= point.subrange(half, half + upto - 1));
        assert(px.last() == point[upto - 1]);
        assert(py.last() == point[half + upto - 1]);
        lemma_pow2_unfold(upto as nat);
        let shorter = (upto - 1) as nat;
        if shorter < 31 {
            lemma_pow2_strictly_increases(shorter, 31);
        }
        lemma_xor_square_pairs(px, py, pow2(shorter) as int);
        lemma_weights_sum_to_one(px.drop_last());
        assert(int_xor_bit(px.last(), py.last()) * 1 == int_xor_bit(px.last(), py.last()));
    }
}

/// The weight of a corner whose index joins `u` and `l` factorizes: at the
/// point that joins `px` and `py`, it is the weight of `u` at `px` times the
/// weight of `l` at `py`.
proof fn lemma_weight_factorizes(px: Seq<nat>, py: Seq<nat>, u: nat, l: nat)
    requires
        l < pow2(py.len()),
    ensures
        int_eq_weight(px + py, u * pow2(py.len()) + l) == int_eq_weight(px, u) * int_eq_weight(
            py,
            l,
        ),
    decreases py.len(),
{
    lemma2_to64();
    if py.len() == 0 {
        assert(px + py =~= px);
        assert(u * 1 == u) by (nonlinear_arith);
        assert(int_eq_weight(px, u) * 1 == int_eq_weight(px, u));
    } else {
        let shorter = pow2((py.len() - 1) as nat);
        lemma_pow2_unfold(py.len());
        let index = u * pow2(py.len()) + l;
        assert(u * (2 * shorter) == 2 * (u * shorter)) by (nonlinear_arith);
        assert(index == 2 * (u * shorter) + l);
        assert(index / 2 == u * shorter + l / 2);
        assert(index % 2 == l % 2);
        assert((px + py).drop_last() =~= px + py.drop_last());
        assert((px + py).last() == py.last());
        lemma_weight_factorizes(px, py.drop_last(), u, l / 2);
        let wu = int_eq_weight(px, u);
        let wl = int_eq_weight(py.drop_last(), l / 2);
        let bit = int_eq_bit(py.last(), l % 2 == 1);
        assert((wu * wl) * bit == wu * (wl * bit)) by (nonlinear_arith);
    }
}

/// Whether `table` holds, for all numbers `u` and `l` of `bits` bits, their
/// exclusive-or at the address that joins them.
pub open spec fn is_xor_table(table: Seq<nat>, bits: nat) -> bool {
    &&& table.len() == pow2(2 * bits)
    &&& forall|u: nat, l: nat|
        u < pow2(bits) && l < pow2(bits) ==> #[trigger] table[(u * pow2(bits) + l) as int]
            == spec_xor(u, l)
}

/// Within the block of the addresses whose upper half is `u`, the sum that
/// extends the table grows as the row of `u` does, weighted by `u`.
proof fn lemma_xor_block(table: Seq<nat>, px: Seq<nat>, py: Seq<nat>, u: nat, upto: int)
    requires
        is_xor_table(table, py.len()),
        u < pow2(py.len()),
        0 <= upto <= pow2(py.len()),
    ensures
        int_mle_dot(table, px + py, u * pow2(py.len()) + upto) == int_mle_dot(
            table,
            px + py,
            (u * pow2(py.len())) as int,
        ) + int_eq_weight(px, u) * int_xor_row(u, py, upto),
    decreases upto,
{
    let base = u * pow2(py.len());
    let wu = int_eq_weight(px, u);
    if upto > 0 {
        lemma_xor_block(table, px, py, u, upto - 1);
        let l = (upto - 1) as nat;
        lemma_weight_factorizes(px, py, u, l);
        assert(table[(u * pow2(py.len()) + l) as int] == spec_xor(u, l));
        let x = spec_xor(u, l) as int;
        let wl = int_eq_weight(py, l);
        let row = int_xor_row(u, py, upto - 1);
        assert(int_mle_dot(table, px + py, base + upto) == int_mle_dot(
            table,
            px + py,
            base + upto - 1,
        ) + table[base + upto - 1] * int_eq_weight(px + py, (base + upto - 1) as nat));
        assert(x * (wu * wl) == wu * (x * wl)) by (nonlinear_arith);
        assert(wu * (row + x * wl) == wu * row + wu * (x * wl)) by (nonlinear_arith);
    } else {
        assert(wu * 0 == 0);
    }
}

/// Over the addresses whose upper half is below `upto`, the sum that
/// extends the table is the square.
proof fn lemma_xor_blocks(table: Seq<nat>, px: Seq<nat>, py: Seq<nat>, upto: int)
    requires
        is_xor_table(table, py.len()),
        0 <= upto <= pow2(py.len()),
    ensures
        int_mle_dot(table, px + py, upto * pow2(py.len())) == int_xor_square(px, py, upto),
    decreases upto,
{
    let width = pow2(py.len()) as int;
    if upto > 0 {
        lemma_xor_blocks(table, px, py, upto - 1);
        lemma_xor_block(table, px, py, (upto - 1) as nat, width);
        assert((upto - 1) * width + width == upto * width) by (nonlinear_arith);
    } else {
        assert(0 * width == 0);
    }
}

/// The entry of the subtable at the address that joins `u` and `l`, two
/// numbers of `bits` bits, is their exclusive-or.
proof fn lemma_xor_entry_of_joined(u: nat, l: nat, bits: nat)
    requires
        bits < 32,
        u < pow2(bits),
        l < pow2(bits),
    ensures
        spec_xor_entry(u * pow2(bits) + l, bits) as nat == spec_xor(u, l),
        u * pow2(bits) + l < pow2(2 * bits),
{
    lemma2_to64();
    lemma_pow2_strictly_increases(bits, 32);
    let b = bits as u64;
    vstd::bits::lemma_u64_shl_is_mul(1, b);
    let width: u64 = 1u64 << b;
    assert(width == pow2(bits));
    let uu = u as u64;
    let ll = l as u64;
    lemma_pow2_adds(bits, bits);
    assert(u * pow2(bits) + l < pow2(2 * bits)) by (nonlinear_arith)
        requires
            u < pow2(bits),
            l < pow2(bits),
            pow2(2 * bits) == pow2(bits) * pow2(bits),
    ;
    let index = u * pow2(bits) + l;
    assert(index < 0x1_0000_0000 * 0x1_0000_0000) by (nonlinear_arith)
        requires
            index == u * pow2(bits) + l,
            u < pow2(bits),
            l < pow2(bits),
            pow2(bits) <= 0x1_0000_0000,
    ;
    let a = index as u64;
    assert(a == uu * width + ll);
    let mask: u64 = ((1u64 << b) - 1) as u64;
    assert((1u64 << b) >= 1) by (bit_vector)
        requires
            b < 32,
    ;
    assert(((a >> b) & mask) == uu && ((a >> 0u64) & mask) == ll && (uu ^ ll) < 0x1_0000_0000u64)
        by (bit_vector)
        requires
            b < 32,
            width == 1u64 << b,
            mask == ((1u64 << b) - 1) as u64,
            uu < width,
            ll < width,
            a == uu * width + ll,
    ;
    assert(spec_chunk(a, bits, bits) == uu);
    assert(spec_chunk(a, 0, bits) == ll);
}

/// The subtable of the exclusive-or instruction with `2^(2 * bits)` entries
/// holds the exclusive-or of the halves of every address.
pub proof fn lemma_xor_subtable_is_xor_table<const WORD_SIZE: usize>(c: nat, bits: nat)
    requires
        bits < 32,
    ensures
        is_xor_table(
            spec_table_values(
                spec_materialized_subtable::<XORInstruction<WORD_SIZE>>(0, c, pow2(2 * bits)),
            ),
            bits,
        ),
{
    let m = pow2(2 * bits);
    let table = spec_table_values(spec_materialized_subtable::<XORInstruction<WORD_SIZE>>(0, c, m));
    lemma_ceil_log2_pow2(2 * bits);
    assert((2 * bits) / 2 == bits);
    assert forall|u: nat, l: nat| u < pow2(bits) && l < pow2(bits) implies #[trigger] table[(u
        * pow2(bits) + l) as int] == spec_xor(u, l) by {
        lemma_xor_entry_of_joined(u, l, bits);
        let index = (u * pow2(bits) + l) as int;
        assert(table[index] == spec_materialized_subtable::<XORInstruction<WORD_SIZE>>(0, c, m)[index]
            as nat);
    }
}

/// The factor of one pair of bits in the field is the factor over the
/// integers, reduced.
proof fn lemma_xor_bit_reduces(x: nat, y: nat, p: nat)
    requires
        p > 0,
    ensures
        spec_xor_bit(x, y, p) == int_xor_bit(x, y) % (p as int),
{
    let pi = p as int;
    let xi = x as int;
    let yi = y as int;
    lemma_mul_mod_noop_left(1 - xi, yi, pi);
    lemma_mul_mod_noop_right(xi, 1 - yi, pi);
    lemma_mod_bound(1 - xi, pi);
    lemma_mod_bound(1 - yi, pi);
    lemma_add_mod_noop((1 - xi) * yi, xi * (1 - yi), pi);
    lemma_mod_bound((1 - xi) * yi, pi);
    lemma_mod_bound(xi * (1 - yi), pi);
}

/// The extension that the instruction computes is the exclusive-or
/// polynomial over the integers, reduced.
proof fn lemma_xor_mle_reduces(point: Seq<nat>, upto: int, p: nat)
    requires
        p > 0,
    ensures
        spec_xor_mle_upto(point, upto, p) == int_xor_mle_upto(
            point,
            (point.len() / 2) as int,
            upto,
        ) % (p as int),
    decreases upto,
{
    let pi = p as int;
    let half = (point.len() / 2) as int;
    if upto > 0 {
        lemma_xor_mle_reduces(point, upto - 1, p);
        lemma_xor_bit_reduces(point[upto - 1], point[half + upto - 1], p);
        let before = int_xor_mle_upto(point, half, upto - 1);
        let bit = int_xor_bit(point[upto - 1], point[half + upto - 1]);
        lemma_mul_mod_noop_right(2, before, pi);
        lemma_add_mod_noop(2 * before, bit, pi);
        lemma_mod_bound(2 * before, pi);
        lemma_mod_bound(before, pi);
        lemma_mod_bound(bit, pi);
    } else {
        lemma_small_mod(0, p);
    }
}

/// What the exclusive-or instruction computes as the extension of its
/// subtable is the multilinear extension of the subtable: for subtables of
/// `2^(2 * bits)` entries, at every point of `2 * bits` coordinates.
pub proof fn lemma_xor_extends_subtable<const WORD_SIZE: usize>(
    point: Seq<nat>,
    c: nat,
    bits: nat,
    p: nat,
)
    requires
        p > 0,
        bits < 32,
        point.len() == 2 * bits,
    ensures
        XORInstruction::<WORD_SIZE>::spec_subtable_mle(0, point, c, pow2(2 * bits), p)
            == spec_mle_evaluate(
            spec_table_values(
                spec_materialized_subtable::<XORInstruction<WORD_SIZE>>(0, c, pow2(2 * bits)),
            ),
            point,
            p,
        ),
        family_extends_subtables::<XORInstruction<WORD_SIZE>>(c, pow2(2 * bits), point, p),
{
    let m = pow2(2 * bits);
    let table = spec_table_values(spec_materialized_subtable::<XORInstruction<WORD_SIZE>>(0, c, m));
    let half = bits as int;
    let px = point.subrange(0, half);
    let py = point.subrange(half, 2 * half);
    assert(px + py =~= point);
    lemma_xor_subtable_is_xor_table::<WORD_SIZE>(c, bits);
    lemma_pow2_adds(bits, bits);
    lemma_xor_blocks(table, px, py, pow2(bits) as int);
    lemma_xor_square_is_mle(point, half, half);
    lemma_xor_mle_reduces(point, half, p);
    lemma_mle_sum_reduces(table, point, m as int, p);
}

} // verus!
