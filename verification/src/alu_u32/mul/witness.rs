//! Rows that meet the multiplication chip's congruences, and outputs that
//! the congruences exclude.

use crate::alu_u32::mul::columns::{lemma_model_fields, Mul32Cols, MulRow};
use crate::alu_u32::mul::stark::{
    mul_congruences_hold, mul_flags_hold, partial_product, pi_row, pi_sum,
};
use crate::field::{
    congruent, is_prime, lemma_multiple_vanishes, lemma_one_at_most, lemma_prime_factor,
    lemma_same_remainder, vanishes,
};
use crate::word::{lemma_limbs_value, limbs_of, low_limbs_value, radix, word_of};
use vstd::arithmetic::div_mod::*;
use vstd::arithmetic::power2::*;
use vstd::prelude::*;

verus! {

/// The 32-bit product: the low half of the full product.
pub open spec fn product_output(a: u32, b: u32) -> u32 {
    ((a as int * b as int) % 0x1_0000_0000) as u32
}

/// The row that certifies `a * b`: the limbs of the operands and of the
/// product, and the quotients that the two congruences ask for.
pub open spec fn mul_witness(a: u32, b: u32, counter: int, p: int) -> MulRow {
    let x = limbs_of(a);
    let y = limbs_of(b);
    let out = product_output(a, b);
    MulRow {
        input_1: x,
        input_2: y,
        output: limbs_of(out),
        r: ((partial_product(x, y, 4) - out) / 2) % p,
        s: ((partial_product(x, y, 2) - out % 65536) / 65536) % p,
        is_mul: 1,
        is_mulhs: 0,
        is_mulhu: 0,
        counter,
    }
}

/// The partial products of two words, term by term.
pub proof fn lemma_partial_product_unfolded(a: Seq<int>, b: Seq<int>)
    ensures
        partial_product(a, b, 2) == a[3] * b[3] + 256 * a[3] * b[2] + 256 * a[2] * b[3],
        partial_product(a, b, 4) == a[3] * b[3] + 256 * a[3] * b[2] + 65536 * a[3] * b[1] + 16777216
            * a[3] * b[0] + 256 * a[2] * b[3] + 65536 * a[2] * b[2] + 16777216 * a[2] * b[1] + 65536
            * a[1] * b[3] + 16777216 * a[1] * b[2] + 16777216 * a[0] * b[3],
{
    reveal_with_fuel(pi_sum, 5);
    reveal_with_fuel(pi_row, 5);
    let base = radix();
    assert(base[0] == 1 && base[1] == 256 && base[2] == 65536 && base[3] == 16777216);
    assert(1 * a[3] * b[3] == a[3] * b[3]);
}

/// A limb of the first number times the whole second number, term by term.
proof fn lemma_limb_times_word(x: int, b0: int, b1: int, b2: int, b3: int)
    ensures
        x * (b0 * 16777216 + b1 * 65536 + b2 * 256 + b3) == 16777216 * (x * b0) + 65536 * (x * b1)
            + 256 * (x * b2) + x * b3,
{
    assert(x * (b0 * 16777216 + b1 * 65536 + b2 * 256 + b3) == 16777216 * (x * b0) + 65536 * (x
        * b1) + 256 * (x * b2) + x * b3) by (nonlinear_arith);
}

/// The product of two four-limb numbers is the partial product of four
/// limbs plus a multiple of 2^32, and the partial product of two limbs plus
/// a multiple of 2^16.
proof fn lemma_product_split(
    a0: int,
    a1: int,
    a2: int,
    a3: int,
    b0: int,
    b1: int,
    b2: int,
    b3: int,
) -> (h: (int, int))
    ensures
        (a0 * 16777216 + a1 * 65536 + a2 * 256 + a3) * (b0 * 16777216 + b1 * 65536 + b2 * 256 + b3)
            == (a3 * b3 + 256 * (a3 * b2) + 65536 * (a3 * b1) + 16777216 * (a3 * b0) + 256 * (a2
            * b3) + 65536 * (a2 * b2) + 16777216 * (a2 * b1) + 65536 * (a1 * b3) + 16777216 * (a1
            * b2) + 16777216 * (a0 * b3)) + 4294967296 * h.0,
        (a0 * 16777216 + a1 * 65536 + a2 * 256 + a3) * (b0 * 16777216 + b1 * 65536 + b2 * 256 + b3)
            == (a3 * b3 + 256 * (a3 * b2) + 256 * (a2 * b3)) + 65536 * h.1,
{
    let bb = b0 * 16777216 + b1 * 65536 + b2 * 256 + b3;
    let h0 = a2 * b0 + a1 * b1 + a0 * b2 + 256 * (a1 * b0 + a0 * b1) + 65536 * (a0 * b0);
    let h1 = a3 * b1 + a2 * b2 + a1 * b3 + 256 * (a3 * b0 + a2 * b1 + a1 * b2 + a0 * b3) + 65536
        * h0;
    lemma_limb_times_word(a0, b0, b1, b2, b3);
    lemma_limb_times_word(a1, b0, b1, b2, b3);
    lemma_limb_times_word(a2, b0, b1, b2, b3);
    lemma_limb_times_word(a3, b0, b1, b2, b3);
    assert((a0 * 16777216 + a1 * 65536 + a2 * 256 + a3) * bb == 16777216 * (a0 * bb) + 65536 * (a1
        * bb) + 256 * (a2 * bb) + a3 * bb) by (nonlinear_arith);
    (h0, h1)
}

/// A product of two byte limbs is bounded, and a weight may be folded into
/// it from the left.
proof fn lemma_limb_product(u: int, v: int)
    requires
        0 <= u < 256,
        0 <= v < 256,
    ensures
        0 <= u * v <= 65025,
        256 * u * v == 256 * (u * v),
        65536 * u * v == 65536 * (u * v),
        16777216 * u * v == 16777216 * (u * v),
{
    assert(0 <= u * v <= 65025 && 256 * u * v == 256 * (u * v) && 65536 * u * v == 65536 * (u * v)
        && 16777216 * u * v == 16777216 * (u * v)) by (nonlinear_arith)
        requires
            0 <= u < 256,
            0 <= v < 256,
    ;
}

/// The partial products agree with the true product modulo 2^32 and modulo
/// 2^16, and are not negative.
pub proof fn lemma_partial_products_mod(a: u32, b: u32)
    ensures
        partial_product(limbs_of(a), limbs_of(b), 4) % 0x1_0000_0000 == product_output(a, b),
        partial_product(limbs_of(a), limbs_of(b), 2) % 65536 == product_output(a, b) % 65536,
        0 <= partial_product(limbs_of(a), limbs_of(b), 2) <= partial_product(
            limbs_of(a),
            limbs_of(b),
            4,
        ) < 0x1000_0000_0000,
{
    let x = limbs_of(a);
    let y = limbs_of(b);
    lemma_limbs_value(a);
    lemma_limbs_value(b);
    crate::word::lemma_weighted_sum_unfolded(radix(), x);
    crate::word::lemma_weighted_sum_unfolded(radix(), y);
    let base = radix();
    assert(base[0] == 1 && base[1] == 256 && base[2] == 65536 && base[3] == 16777216);
    lemma_partial_product_unfolded(x, y);
    let h = lemma_product_split(x[0], x[1], x[2], x[3], y[0], y[1], y[2], y[3]);
    let full = a as int * b as int;
    let pi4 = partial_product(x, y, 4);
    let pi2 = partial_product(x, y, 2);
    lemma_limb_product(x[3], y[3]);
    lemma_limb_product(x[3], y[2]);
    lemma_limb_product(x[3], y[1]);
    lemma_limb_product(x[3], y[0]);
    lemma_limb_product(x[2], y[3]);
    lemma_limb_product(x[2], y[2]);
    lemma_limb_product(x[2], y[1]);
    lemma_limb_product(x[1], y[3]);
    lemma_limb_product(x[1], y[2]);
    lemma_limb_product(x[0], y[3]);
    assert(a as int == x[0] * 16777216 + x[1] * 65536 + x[2] * 256 + x[3]);
    assert(b as int == y[0] * 16777216 + y[1] * 65536 + y[2] * 256 + y[3]);
    lemma_same_remainder(full, pi4, h.0, 0x1_0000_0000);
    lemma_same_remainder(full, pi2, h.1, 65536);
    lemma_mod_bound(full, 0x1_0000_0000);
    let out = full % 0x1_0000_0000;
    lemma_fundamental_div_mod(full, 0x1_0000_0000);
    lemma_same_remainder(full, out, 65536 * (full / 0x1_0000_0000), 65536);
}

/// A multiple of `c` is congruent to `c` times its quotient by `c`, and so
/// to `c` times that quotient's canonical form.
proof fn lemma_exact_quotient(diff: int, k: int, c: int, p: int)
    requires
        p > 0,
        c > 0,
        diff == c * k,
    ensures
        diff / c == k,
        congruent(diff, (k % p) * c, p),
{
    lemma_fundamental_div_mod(k, p);
    let q = k / p;
    let r = k % p;
    assert(diff - r * c == p * (q * c)) by (nonlinear_arith)
        requires
            diff == c * k,
            k == p * q + r,
    ;
    lemma_multiple_vanishes(q * c, p);
    lemma_div_multiples_vanish(k, c);
    assert(c * k == k * c) by (nonlinear_arith);
}

/// For every pair of operands there is a row that meets both congruences:
/// the one with the product as output and the exact quotients as witnesses.
pub proof fn lemma_product_row_holds(a: u32, b: u32, counter: int, p: int)
    requires
        p > 0,
    ensures
        mul_congruences_hold(mul_witness(a, b, counter, p), p),
{
    let row = mul_witness(a, b, counter, p);
    let x = limbs_of(a);
    let y = limbs_of(b);
    let out = product_output(a, b);
    let pi4 = partial_product(x, y, 4);
    let pi2 = partial_product(x, y, 2);
    lemma_partial_products_mod(a, b);
    lemma_limbs_value(out);
    lemma_fundamental_div_mod(pi4, 0x1_0000_0000);
    lemma_fundamental_div_mod(pi2, 65536);
    let k4 = pi4 / 0x1_0000_0000;
    let k2 = pi2 / 65536;
    assert(low_limbs_value(row.output, 4) == out);
    assert(low_limbs_value(row.output, 2) == out % 65536);
    lemma_exact_quotient(pi4 - out, 2147483648 * k4, 2, p);
    lemma_exact_quotient(pi2 - out % 65536, k2, 65536, p);
    assert(row.r == ((2147483648 * k4) % p));
    assert(row.s == (k2 % p));
}

/// The row that certifies a product selects the plain product alone.
pub proof fn lemma_product_row_selects(a: u32, b: u32, counter: int, p: int)
    requires
        p > 0,
    ensures
        mul_flags_hold(mul_witness(a, b, counter, p), p),
{
    lemma_multiple_vanishes(0, p);
}

/// Modulo a prime above 3, a row with canonical selectors that meets the
/// constraints on them selects one operation at most: each selector is zero
/// or one, and no two are one.
pub proof fn lemma_one_operation_at_most(row: MulRow, p: int)
    requires
        is_prime(p),
        p > 3,
        0 <= row.is_mul < p,
        0 <= row.is_mulhs < p,
        0 <= row.is_mulhu < p,
        mul_flags_hold(row, p),
    ensures
        row.is_mul == 0 || row.is_mul == 1,
        row.is_mulhs == 0 || row.is_mulhs == 1,
        row.is_mulhu == 0 || row.is_mulhu == 1,
        row.is_mul + row.is_mulhs + row.is_mulhu <= 1,
{
    lemma_one_at_most(row.is_mul, row.is_mulhs, row.is_mulhu, p);
}

/// With the witnesses left as they are, any output whose value differs from
/// the product by something the field does not take for zero breaks the
/// congruence modulo 2^32.
pub proof fn lemma_wrong_output_fails(a: u32, b: u32, counter: int, wrong: u32, p: int)
    requires
        p > 0,
        !vanishes(wrong - product_output(a, b), p),
    ensures
        !mul_congruences_hold(
            (MulRow { output: limbs_of(wrong), ..mul_witness(a, b, counter, p) }),
            p,
        ),
{
    let good = mul_witness(a, b, counter, p);
    let bad = MulRow { output: limbs_of(wrong), ..good };
    let out = product_output(a, b);
    let pi4 = partial_product(good.input_1, good.input_2, 4);
    lemma_product_row_holds(a, b, counter, p);
    lemma_limbs_value(out);
    lemma_limbs_value(wrong);
    if mul_congruences_hold(bad, p) {
        let u = pi4 - out - good.r * 2;
        let v = pi4 - wrong - good.r * 2;
        assert(u % p == 0);
        assert(v % p == 0);
        lemma_mod_equivalence(u, v, p);
        assert(u - v == wrong - out);
    }
}

/// No power of two vanishes modulo an odd prime.
pub proof fn lemma_power_of_two_survives(k: nat, p: int)
    requires
        is_prime(p),
        p > 2,
    ensures
        !vanishes(pow2(k) as int, p),
        !vanishes(-(pow2(k) as int), p),
    decreases k,
{
    if k == 0 {
        lemma2_to64();
        lemma_small_mod(1, p as nat);
    } else {
        lemma_power_of_two_survives((k - 1) as nat, p);
        lemma_pow2_unfold(k);
        lemma_small_mod(2, p as nat);
        if vanishes(pow2(k) as int, p) {
            lemma_prime_factor(2, pow2((k - 1) as nat) as int, p);
        }
    }
    if vanishes(-(pow2(k) as int), p) {
        lemma_mod_equivalence(0, pow2(k) as int, p);
        lemma_small_mod(0, p as nat);
    }
}

/// Flipping one bit moves a value by a power of two, up or down.
pub proof fn lemma_flip_moves_by_power(x: u32, k: u32)
    requires
        k < 32,
    ensures
        (x ^ (1u32 << k)) - x == pow2(k as nat) || (x ^ (1u32 << k)) - x == -(pow2(k as nat) as int),
{
    let m = 1u32 << k;
    assert(m == pow2(k as nat)) by {
        vstd::bits::lemma_u32_pow2_no_overflow(k as nat);
        assert(1 * pow2(k as nat) == pow2(k as nat));
        vstd::bits::lemma_u32_shl_is_mul(1, k);
    }
    assert(x & m == 0 ==> (x ^ m) == x + m) by (bit_vector)
        requires
            m == 1u32 << k,
            k < 32,
    ;
    assert(x & m != 0 ==> (x ^ m) == x - m) by (bit_vector)
        requires
            m == 1u32 << k,
            k < 32,
    ;
}

/// Modulo an odd prime, flipping any single bit of the output while the
/// witnesses stay as they are breaks the congruence modulo 2^32.
pub proof fn lemma_flipped_bit_fails(a: u32, b: u32, counter: int, k: u32, p: int)
    requires
        is_prime(p),
        p > 2,
        k < 32,
    ensures
        !mul_congruences_hold(
            (MulRow {
                output: limbs_of(product_output(a, b) ^ (1u32 << k)),
                ..mul_witness(a, b, counter, p)
            }),
            p,
        ),
{
    let out = product_output(a, b);
    lemma_flip_moves_by_power(out, k);
    lemma_power_of_two_survives(k as nat, p);
    lemma_wrong_output_fails(a, b, counter, out ^ (1u32 << k), p);
}

/// The product of two byte limbs.
fn limb_product(u: u64, v: u64) -> (t: u64)
    requires
        u < 256,
        v < 256,
    ensures
        t == u * v,
        t <= 65025,
        256 * u * v == 256 * t,
        65536 * u * v == 65536 * t,
        16777216 * u * v == 16777216 * t,
{
    proof {
        lemma_limb_product(u as int, v as int);
    }
    u * v
}

impl Mul32Cols<u64> {
    /// The row that certifies `a * b` modulo `p`, with the given counter:
    /// the limbs of the operands and of the product, the two quotients, and
    /// the flag of the plain product.
    pub fn product_row(a: u32, b: u32, counter: u64, p: u64) -> (row: Self)
        requires
            p > 0,
        ensures
            row.ints() == mul_witness(a, b, counter as int, p as int),
    {
        let x = word_of(a);
        let y = word_of(b);
        proof {
            assert(a * b <= 0xffff_ffff * 0xffff_ffff) by (nonlinear_arith)
                requires
                    0 <= a <= 0xffff_ffff,
                    0 <= b <= 0xffff_ffff,
            ;
        }
        let full: u64 = (a as u64) * (b as u64);
        let out: u32 = (full % 0x1_0000_0000) as u32;
        let (x0, x1, x2, x3) = (x.limb(0), x.limb(1), x.limb(2), x.limb(3));
        let (y0, y1, y2, y3) = (y.limb(0), y.limb(1), y.limb(2), y.limb(3));
        let low: u64 = limb_product(x3, y3) + 256 * limb_product(x3, y2) + 256 * limb_product(
            x2,
            y3,
        );
        let pi: u64 = limb_product(x3, y3) + 256 * limb_product(x3, y2) + 65536 * limb_product(
            x3,
            y1,
        ) + 16777216 * limb_product(x3, y0) + 256 * limb_product(x2, y3) + 65536 * limb_product(
            x2,
            y2,
        ) + 16777216 * limb_product(x2, y1) + 65536 * limb_product(x1, y3) + 16777216
            * limb_product(x1, y2) + 16777216 * limb_product(x0, y3);
        proof {
            let xs = limbs_of(a);
            let ys = limbs_of(b);
            assert(xs[0] == x0 && xs[1] == x1 && xs[2] == x2 && xs[3] == x3) by {
                let m = x@.map_values(|l: u64| l as int);
                assert(m[0] == x0 && m[1] == x1 && m[2] == x2 && m[3] == x3);
            }
            assert(ys[0] == y0 && ys[1] == y1 && ys[2] == y2 && ys[3] == y3) by {
                let m = y@.map_values(|l: u64| l as int);
                assert(m[0] == y0 && m[1] == y1 && m[2] == y2 && m[3] == y3);
            }
            lemma_partial_product_unfolded(xs, ys);
            lemma_partial_products_mod(a, b);
            assert(pi == partial_product(xs, ys, 4));
            assert(low == partial_product(xs, ys, 2));
            lemma_fundamental_div_mod(pi as int, 0x1_0000_0000);
            lemma_fundamental_div_mod(low as int, 65536);
            assert(out == product_output(a, b));
        }
        let r: u64 = ((pi - out as u64) / 2) % p;
        let s: u64 = ((low - (out % 65536) as u64) / 65536) % p;
        let row = Mul32Cols {
            input_1: x,
            input_2: y,
            output: word_of(out),
            r,
            s,
            is_mul: 1,
            is_mulhs: 0,
            is_mulhu: 0,
            counter,
        };
        proof {
            lemma_model_fields(row, |v: u64| v as int);
            let model = row.ints();
            let goal = mul_witness(a, b, counter as int, p as int);
            assert(model.input_1 == goal.input_1);
            assert(model.input_2 == goal.input_2);
            assert(model.output == goal.output);
            assert(model.r == goal.r);
            assert(model.s == goal.s);
        }
        row
    }
}

} // verus!
