//! Integer arithmetic on balances: a product followed by a division, exact
//! even where the product does not fit in 128 bits.
use vstd::arithmetic::div_mod::{
    lemma_div_denominator, lemma_fundamental_div_mod, lemma_fundamental_div_mod_converse_div,
    lemma_hoist_over_denominator,
};
use vstd::arithmetic::power::pow;
use vstd::arithmetic::power2::{lemma2_to64_rest, lemma_pow2, lemma_pow2_adds, lemma_pow2_pos, lemma_pow2_unfold, pow2};
use vstd::prelude::*;

verus! {

/// The exact value of `a * b / divisor`, rounded down.
pub open spec fn product_div(a: int, b: int, divisor: int) -> int {
    a * b / divisor
}

proof fn lemma_step(a: int, d: int, q: int, r: int, pre: int, bit: int)
    requires
        0 <= a < d,
        0 <= r < d,
        0 <= q,
        0 <= pre,
        a * pre == q * d + r,
        bit == 0 || bit == 1,
    ensures
        a * (2 * pre + bit) == 2 * q * d + (2 * r + bit * a),
{
    assert(a * (2 * pre + bit) == 2 * (a * pre) + bit * a) by (nonlinear_arith);
    assert(2 * (q * d + r) == 2 * q * d + 2 * r) by (nonlinear_arith);
}

proof fn lemma_quotient_below(a: int, d: int, q: int, r: int, pre: int)
    requires
        0 <= a < d,
        0 <= r,
        0 <= q,
        0 <= pre,
        a * pre == q * d + r,
    ensures
        q <= pre,
{
    assert(a * pre <= d * pre) by (nonlinear_arith)
        requires 0 <= a < d, 0 <= pre;
    assert(q * d <= d * pre);
    assert(q <= pre) by (nonlinear_arith)
        requires q * d <= d * pre, d > 0;
}

/// `floor(a * b / d)` for `a < d`, by long division over the bits of `b`.
fn product_div_below(a: u128, b: u128, d: u128) -> (r: u128)
    requires
        a < d,
    ensures
        r as int == product_div(a as int, b as int, d as int),
{
    let mut q: u128 = 0;
    let mut rem: u128 = 0;
    let mut p: u128 = 0x8000_0000_0000_0000_0000_0000_0000_0000;
    let ghost mut k: nat = 128;
    proof {
        lemma2_to64_rest();
        lemma_pow2_adds(64, 64);
        assert(pow2(128) == 0x1_0000_0000_0000_0000_0000_0000_0000_0000);
        assert(b as int / pow2(128) as int == 0) by {
            vstd::arithmetic::div_mod::lemma_basic_div(b as int, pow2(128) as int);
        }
        assert(p as int == pow2(128) as int / 2);
    }
    while p > 0
        invariant
            a < d,
            rem < d,
            pow2(k) >= 1,
            p > 0 ==> k >= 1,
            p as int == pow2(k) as int / 2,
            a as int * (b as int / pow2(k) as int) == q as int * d as int + rem as int,
        decreases p,
    {
        let ghost pre: int = b as int / pow2(k) as int;
        proof {
            lemma_pow2_unfold(k);
            lemma_pow2_pos((k - 1) as nat);
            assert(p as int == pow2((k - 1) as nat));
            lemma_div_denominator(b as int, p as int, 2);
            assert(pow2(k) as int == p as int * 2);
            lemma_fundamental_div_mod(b as int / p as int, 2);
        }
        let bit: u128 = (b / p) % 2;
        proof {
            assert(b as int / p as int == 2 * pre + bit);
            lemma_step(a as int, d as int, q as int, rem as int, pre, bit as int);
        }
        let c1: u128;
        let r1: u128;
        if rem >= d - rem {
            c1 = 1;
            r1 = rem - (d - rem);
        } else {
            c1 = 0;
            r1 = rem + rem;
        }
        let c2: u128;
        let r2: u128;
        if bit == 1 && r1 >= d - a {
            c2 = 1;
            r2 = r1 - (d - a);
        } else if bit == 1 {
            c2 = 0;
            r2 = r1 + a;
        } else {
            c2 = 0;
            r2 = r1;
        }
        let ghost pre2: int = 2 * pre + bit;
        proof {
            assert(a as int * pre2 == (2 * q as int + c1 as int + c2 as int) * d as int + r2 as int)
                by (nonlinear_arith)
                requires
                    a as int * pre2 == 2 * q as int * d as int + (2 * rem as int + bit as int * a as int),
                    2 * rem as int + bit as int * a as int == (c1 as int + c2 as int) * d as int + r2 as int;
            lemma_quotient_below(a as int, d as int, 2 * q as int + c1 as int + c2 as int, r2 as int, pre2);
            vstd::arithmetic::div_mod::lemma_div_is_ordered_by_denominator(b as int, 1, p as int);
        }
        q = 2 * q + c1 + c2;
        rem = r2;
        p = p / 2;
        proof {
            k = (k - 1) as nat;
            if k == 0 {
                lemma_pow2(0);
                reveal(pow);
            }
        }
    }
    proof {
        if k == 0 {
            lemma_pow2(0);
            reveal(pow);
        }
        assert(pow2(k) == 1);
        assert(b as int / 1 == b as int);
        lemma_fundamental_div_mod_converse_div(a as int * b as int, d as int, q as int, rem as int);
    }
    q
}

/// `a * b / divisor`, rounded down, with the product taken at full width so
/// that it cannot overflow before the division.
pub fn calc_product(a: u128, b: u128, divisor: u128) -> (r: u128)
    requires
        divisor > 0,
        product_div(a as int, b as int, divisor as int) <= u128::MAX,
    ensures
        r as int == product_div(a as int, b as int, divisor as int),
{
    let qa = a / divisor;
    let ra = a % divisor;
    let low = product_div_below(ra, b, divisor);
    proof {
        lemma_fundamental_div_mod(a as int, divisor as int);
        assert(a as int * b as int == ra as int * b as int + (qa as int * b as int) * divisor as int)
            by (nonlinear_arith)
            requires a as int == divisor as int * qa as int + ra as int;
        lemma_hoist_over_denominator(ra as int * b as int, qa as int * b as int, divisor as nat);
        assert(0 <= ra as int * b as int / divisor as int) by {
            assert(0 <= ra as int * b as int) by (nonlinear_arith)
                requires 0 <= ra, 0 <= b;
            vstd::arithmetic::div_mod::lemma_div_pos_is_pos(ra as int * b as int, divisor as int);
        }
        assert(0 <= qa as int * b as int) by (nonlinear_arith)
            requires 0 <= qa, 0 <= b;
    }
    qa * b + low
}

} // verus!
