//! What linear combinations and constraints mean under an assignment of
//! values to the variables: the arithmetic of combinations agrees with the
//! field's, and the boolean constraint admits exactly 0 and 1.

use vstd::arithmetic::div_mod::{lemma_add_mod_noop, lemma_mod_equivalence, lemma_mul_mod_noop_left};
use vstd::prelude::*;

use crate::flattener::{bool_constraint, lc_sub, one_lc, var_lc};
use crate::r1cs::{
    coeff_or_zero, coeffs_bounded, neg_coeff, spec_lc_add, spec_lc_neg, spec_lc_scale,
    SpecConstraint,
};

verus! {

/// The value of the first `n` terms of a combination under the assignment
/// `w`: the sum of `coefficient(k) * w[k]` for `k < n`.
pub open spec fn value_upto(m: Map<usize, nat>, w: Seq<int>, n: nat) -> int
    decreases n,
{
    if n == 0 {
        0
    } else {
        value_upto(m, w, (n - 1) as nat) + coeff_or_zero(m, (n - 1) as usize) * w[n - 1]
    }
}

/// The value of a combination under the assignment `w` of a value to each
/// variable `0..w.len()`.
pub open spec fn lc_value(m: Map<usize, nat>, w: Seq<int>) -> int {
    value_upto(m, w, w.len())
}

/// Whether the assignment `w` satisfies `a * b = c` modulo `p`.
pub open spec fn constraint_holds(c: SpecConstraint, w: Seq<int>, p: nat) -> bool {
    (lc_value(c.a, w) * lc_value(c.b, w) - lc_value(c.c, w)) % (p as int) == 0
}

/// Whether `p` is prime.
pub open spec fn is_prime(p: nat) -> bool {
    &&& p > 1
    &&& forall|d: nat| 1 < d < p ==> #[trigger] (p % d) != 0
}

/// A sum of multiples of `p` is one.
pub(crate) proof fn lemma_multiple_add(x: int, y: int, p: int)
    requires
        p > 0,
        x % p == 0,
        y % p == 0,
    ensures
        (x + y) % p == 0,
{
    lemma_add_mod_noop(x, y, p);
    vstd::arithmetic::div_mod::lemma_small_mod(0, p as nat);
}

/// A multiple of a multiple of `p` is one.
pub(crate) proof fn lemma_multiple_mul(x: int, y: int, p: int)
    requires
        p > 0,
        x % p == 0,
    ensures
        (x * y) % p == 0,
{
    lemma_mul_mod_noop_left(x, y, p);
    vstd::arithmetic::div_mod::lemma_small_mod(0, p as nat);
}

/// When each coefficient of `m1` agrees modulo `p` with `x2` times that of
/// `m2` plus `x3` times that of `m3`, so do the values.
proof fn lemma_value_combination(
    m1: Map<usize, nat>,
    m2: Map<usize, nat>,
    m3: Map<usize, nat>,
    x2: int,
    x3: int,
    w: Seq<int>,
    n: nat,
    p: nat,
)
    requires
        p > 0,
        n <= w.len(),
        forall|k: usize|
            (coeff_or_zero(m1, k) - (x2 * coeff_or_zero(m2, k) + x3 * coeff_or_zero(m3, k))) % (
            p as int) == 0,
    ensures
        (value_upto(m1, w, n) - (x2 * value_upto(m2, w, n) + x3 * value_upto(m3, w, n))) % (
        p as int) == 0,
    decreases n,
{
    if n > 0 {
        lemma_value_combination(m1, m2, m3, x2, x3, w, (n - 1) as nat, p);
        let k = (n - 1) as usize;
        let c1 = coeff_or_zero(m1, k) as int;
        let c2 = coeff_or_zero(m2, k) as int;
        let c3 = coeff_or_zero(m3, k) as int;
        let v1 = value_upto(m1, w, (n - 1) as nat);
        let v2 = value_upto(m2, w, (n - 1) as nat);
        let v3 = value_upto(m3, w, (n - 1) as nat);
        let x = w[n - 1];
        assert(value_upto(m1, w, n) == v1 + c1 * x);
        assert(value_upto(m2, w, n) == v2 + c2 * x);
        assert(value_upto(m3, w, n) == v3 + c3 * x);
        let d = v1 - (x2 * v2 + x3 * v3);
        let e = c1 - (x2 * c2 + x3 * c3);
        assert(e % (p as int) == 0);
        lemma_multiple_mul(e, x, p as int);
        lemma_multiple_add(d, e * x, p as int);
        vstd::arithmetic::mul::lemma_mul_is_distributive_add(x2, v2, c2 * x);
        vstd::arithmetic::mul::lemma_mul_is_distributive_add(x3, v3, c3 * x);
        vstd::arithmetic::mul::lemma_mul_is_associative(x2, c2, x);
        vstd::arithmetic::mul::lemma_mul_is_associative(x3, c3, x);
        vstd::arithmetic::mul::lemma_mul_is_distributive_sub_other_way(x, c1, x2 * c2 + x3 * c3);
        vstd::arithmetic::mul::lemma_mul_is_distributive_add_other_way(x, x2 * c2, x3 * c3);
        assert((v1 + c1 * x) - (x2 * (v2 + c2 * x) + x3 * (v3 + c3 * x)) == d + e * x);
    } else {
        assert(x2 * 0 + x3 * 0 == 0) by (nonlinear_arith);
        vstd::arithmetic::div_mod::lemma_small_mod(0, p);
    }
}

/// Adding combinations adds their values, modulo `p`.
pub proof fn lemma_lc_add_value(a: Map<usize, nat>, b: Map<usize, nat>, w: Seq<int>, p: nat)
    requires
        p > 0,
    ensures
        lc_value(spec_lc_add(a, b, p), w) % (p as int) == (lc_value(a, w) + lc_value(b, w)) % (
        p as int),
{
    let s = spec_lc_add(a, b, p);
    assert forall|k: usize|
        (coeff_or_zero(s, k) - (1 * coeff_or_zero(a, k) + 1 * coeff_or_zero(b, k))) % (p as int)
            == 0 by {
        let ca = coeff_or_zero(a, k) as int;
        let cb = coeff_or_zero(b, k) as int;
        assert(1 * ca + 1 * cb == ca + cb);
        vstd::arithmetic::div_mod::lemma_small_mod(0, p);
        if b.contains_key(k) {
            assert(coeff_or_zero(s, k) == (ca + cb) % (p as int));
            lemma_mod_equivalence((ca + cb) % (p as int), ca + cb, p as int);
            vstd::arithmetic::div_mod::lemma_mod_twice(ca + cb, p as int);
        } else {
            assert(coeff_or_zero(s, k) == ca);
            assert(cb == 0);
        }
    }
    lemma_value_combination(s, a, b, 1, 1, w, w.len(), p);
    lemma_mod_equivalence(lc_value(s, w), lc_value(a, w) + lc_value(b, w), p as int);
}

/// Negating a combination whose coefficients are at most `p` negates its
/// value, modulo `p`.
pub proof fn lemma_lc_neg_value(b: Map<usize, nat>, w: Seq<int>, p: nat)
    requires
        p > 0,
        coeffs_bounded(b, p),
    ensures
        lc_value(spec_lc_neg(b, p), w) % (p as int) == (-lc_value(b, w)) % (p as int),
{
    let s = spec_lc_neg(b, p);
    assert forall|k: usize|
        (coeff_or_zero(s, k) - (-1 * coeff_or_zero(b, k) + 0 * coeff_or_zero(b, k))) % (p as int)
            == 0 by {
        vstd::arithmetic::div_mod::lemma_small_mod(0, p);
        if b.contains_key(k) {
            let v = b[k];
            assert(coeff_or_zero(s, k) == neg_coeff(v, p));
            if v != 0 {
                assert(neg_coeff(v, p) - (-1 * v + 0 * v) == p as int);
                vstd::arithmetic::div_mod::lemma_mod_self_0(p as int);
            } else {
                assert(neg_coeff(v, p) - (-1 * v + 0 * v) == 0);
            }
        } else {
            assert(coeff_or_zero(s, k) - (-1 * coeff_or_zero(b, k) + 0 * coeff_or_zero(b, k)) == 0);
        }
    }
    lemma_value_combination(s, b, b, -1, 0, w, w.len(), p);
    assert(-1 * lc_value(b, w) + 0 * lc_value(b, w) == -lc_value(b, w));
    lemma_mod_equivalence(lc_value(s, w), -lc_value(b, w), p as int);
}

/// `a - b` (as `LinearCombination::sub` forms it) has the value of `a`
/// minus that of `b`, modulo `p`, when `b`'s coefficients are at most `p`.
pub proof fn lemma_lc_sub_value(a: Map<usize, nat>, b: Map<usize, nat>, w: Seq<int>, p: nat)
    requires
        p > 0,
        coeffs_bounded(b, p),
    ensures
        lc_value(lc_sub(a, b, p), w) % (p as int) == (lc_value(a, w) - lc_value(b, w)) % (p as int),
{
    let n = spec_lc_neg(b, p);
    lemma_lc_add_value(a, n, w, p);
    lemma_lc_neg_value(b, w, p);
    let pi = p as int;
    lemma_add_mod_noop(lc_value(a, w), lc_value(n, w), pi);
    lemma_add_mod_noop(lc_value(a, w), -lc_value(b, w), pi);
}

/// Scaling a combination scales its value, modulo `p`.
pub proof fn lemma_lc_scale_value(a: Map<usize, nat>, s: nat, w: Seq<int>, p: nat)
    requires
        p > 0,
    ensures
        lc_value(spec_lc_scale(a, s, p), w) % (p as int) == (s * lc_value(a, w)) % (p as int),
{
    let r = spec_lc_scale(a, s, p);
    assert forall|k: usize|
        (coeff_or_zero(r, k) - (s * coeff_or_zero(a, k) + 0 * coeff_or_zero(a, k))) % (p as int)
            == 0 by {
        let ca = coeff_or_zero(a, k) as int;
        vstd::arithmetic::div_mod::lemma_small_mod(0, p);
        if a.contains_key(k) {
            assert(coeff_or_zero(r, k) == (ca * s) % (p as int));
            vstd::arithmetic::div_mod::lemma_mod_twice(ca * s, p as int);
            lemma_mod_equivalence((ca * s) % (p as int), ca * s, p as int);
            assert(s * ca + 0 * ca == ca * s) by (nonlinear_arith);
        } else {
            assert(coeff_or_zero(r, k) == 0);
            assert(s * ca + 0 * ca == 0) by (nonlinear_arith)
                requires
                    ca == 0,
            ;
        }
    }
    lemma_value_combination(r, a, a, s as int, 0, w, w.len(), p);
    assert(s * lc_value(a, w) + 0 * lc_value(a, w) == s * lc_value(a, w));
    lemma_mod_equivalence(lc_value(r, w), s * lc_value(a, w), p as int);
}

/// The value of the single-term combination `1 * v_i` over the first `n`
/// variables.
pub(crate) proof fn lemma_var_value(i: usize, w: Seq<int>, n: nat)
    requires
        n <= w.len(),
        w.len() <= usize::MAX,
    ensures
        value_upto(var_lc(i), w, n) == (if i < n {
            w[i as int]
        } else {
            0
        }),
    decreases n,
{
    if n > 0 {
        lemma_var_value(i, w, (n - 1) as nat);
        let k = (n - 1) as usize;
        assert(k as int == n - 1);
        assert(value_upto(var_lc(i), w, n) == value_upto(var_lc(i), w, (n - 1) as nat)
            + coeff_or_zero(var_lc(i), k) * w[n - 1]);
        if k == i {
            assert(coeff_or_zero(var_lc(i), k) == 1);
            assert(value_upto(var_lc(i), w, (n - 1) as nat) == 0);
            assert(value_upto(var_lc(i), w, n) == w[n - 1]);
        } else {
            assert(coeff_or_zero(var_lc(i), k) == 0);
            assert(value_upto(var_lc(i), w, n) == value_upto(var_lc(i), w, (n - 1) as nat));
        }
    }
}

/// The empty combination is worth zero.
pub(crate) proof fn lemma_empty_value(w: Seq<int>, n: nat)
    requires
        n <= w.len(),
    ensures
        value_upto(Map::<usize, nat>::empty(), w, n) == 0,
    decreases n,
{
    if n > 0 {
        lemma_empty_value(w, (n - 1) as nat);
    }
}

/// Euclid's lemma: a prime that divides `a * b`, for `0 < a < p`, divides
/// `b`.
proof fn lemma_prime_divides_factor(p: nat, a: int, b: int)
    requires
        is_prime(p),
        0 < a < p,
        (a * b) % (p as int) == 0,
    ensures
        b % (p as int) == 0,
    decreases a,
{
    let pi = p as int;
    if a > 1 {
        let q = pi / a;
        let r = pi % a;
        vstd::arithmetic::div_mod::lemma_fundamental_div_mod(pi, a);
        assert(p % (a as nat) != 0);
        assert(r == (p % (a as nat)) as int);
        assert(0 < r < a);
        // r * b = p * b - q * (a * b), a multiple of p.
        vstd::arithmetic::mul::lemma_mul_is_distributive_sub_other_way(b, pi, a * q);
        vstd::arithmetic::mul::lemma_mul_is_associative(q, a, b);
        vstd::arithmetic::mul::lemma_mul_is_commutative(a, q);
        assert(r * b == pi * b - q * (a * b));
        vstd::arithmetic::div_mod::lemma_mod_multiples_basic(b, pi);
        vstd::arithmetic::mul::lemma_mul_is_commutative(pi, b);
        lemma_multiple_mul(a * b, -q, pi);
        vstd::arithmetic::mul::lemma_mul_is_commutative(a * b, -q);
        assert(-q * (a * b) == -(q * (a * b))) by (nonlinear_arith);
        lemma_multiple_add(pi * b, -q * (a * b), pi);
        lemma_prime_divides_factor(p, r, b);
    } else {
        assert(a == 1);
        assert(a * b == b) by (nonlinear_arith)
            requires
                a == 1,
        ;
    }
}

/// For a prime `p`, `x * (1 - x)` is a multiple of `p` only for `x` 0 or 1
/// (taking `x` in `[0, p)`).
proof fn lemma_boolean_roots(p: nat, x: int)
    requires
        is_prime(p),
        0 <= x < p,
    ensures
        (x * (1 - x)) % (p as int) == 0 <==> (x == 0 || x == 1),
{
    let pi = p as int;
    vstd::arithmetic::div_mod::lemma_small_mod(0, p);
    if x == 0 || x == 1 {
        assert(x * (1 - x) == 0) by (nonlinear_arith)
            requires
                x == 0 || x == 1,
        ;
    } else if (x * (1 - x)) % pi == 0 {
        lemma_prime_divides_factor(p, x, 1 - x);
        vstd::arithmetic::div_mod::lemma_mod_multiples_vanish(1, 1 - x, pi);
        vstd::arithmetic::div_mod::lemma_small_mod((pi + 1 - x) as nat, p);
        assert(false);
    }
}

/// The boolean constraint `v * (1 - v) = 0` on a variable `i` holds exactly
/// when the variable's value is 0 or 1, over a prime field, the constant
/// wire 0 being worth one.
pub proof fn lemma_bool_constraint_sound(i: usize, w: Seq<int>, p: nat)
    requires
        is_prime(p),
        0 < i < w.len(),
        w.len() <= usize::MAX,
        w[0] == 1,
        0 <= w[i as int] < p,
    ensures
        constraint_holds(bool_constraint(i, p), w, p) <==> (w[i as int] == 0 || w[i as int] == 1),
{
    let pi = p as int;
    let x = w[i as int];
    let c = bool_constraint(i, p);
    lemma_var_value(i, w, w.len());
    lemma_var_value(0, w, w.len());
    assert(one_lc() == var_lc(0));
    lemma_empty_value(w, w.len());
    assert(coeffs_bounded(var_lc(i), p));
    lemma_lc_sub_value(one_lc(), var_lc(i), w, p);
    let vb = lc_value(c.b, w);
    assert(vb % pi == (1 - x) % pi);
    assert(lc_value(c.a, w) == x);
    assert(lc_value(c.c, w) == 0);
    vstd::arithmetic::div_mod::lemma_mul_mod_noop_right(x, vb, pi);
    vstd::arithmetic::div_mod::lemma_mul_mod_noop_right(x, 1 - x, pi);
    assert((x * vb) % pi == (x * (1 - x)) % pi);
    lemma_boolean_roots(p, x);
}

} // verus!
