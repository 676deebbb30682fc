//! Arithmetic modulo the number of elements of a prime field, as far as the meaning of
//! the gates needs it.

use vstd::prelude::*;
use vstd::arithmetic::div_mod::{
    lemma_fundamental_div_mod, lemma_mod_bound, lemma_mod_multiples_basic, lemma_mod_multiples_vanish,
    lemma_small_mod,
};

verus! {

/// `p` is a prime number.
pub open spec fn is_prime(p: int) -> bool {
    &&& p > 1
    &&& forall|d: int| 1 < d < p ==> #[trigger] (p % d) != 0
}

/// `a` and `b` are the same element of the field of `p` elements.
pub open spec fn congruent(a: int, b: int, p: int) -> bool {
    (a - b) % p == 0
}

/// A multiple of `p` is zero modulo `p`.
pub proof fn lemma_multiple_vanishes(k: int, p: int)
    requires
        p > 0,
    ensures
        (k * p) % p == 0,
        (p * k) % p == 0,
{
    lemma_mod_multiples_basic(k, p);
    assert(k * p == p * k) by (nonlinear_arith);
}

/// What is zero modulo `p` is a multiple of `p`.
pub proof fn lemma_vanishing_is_multiple(x: int, p: int)
    requires
        p > 0,
        x % p == 0,
    ensures
        x == p * (x / p),
{
    lemma_fundamental_div_mod(x, p);
}

/// Adding a multiple of `p` changes nothing modulo `p`.
pub proof fn lemma_shift_by_multiple(x: int, k: int, p: int)
    requires
        p > 0,
    ensures
        (x + k * p) % p == x % p,
{
    lemma_mod_multiples_vanish(k, x, p);
    assert(p * k + x == x + k * p) by (nonlinear_arith);
}

/// The sum of two numbers that are zero modulo `p` is zero modulo `p`, and with one of
/// them zero the sum is zero exactly where the other is.
pub proof fn lemma_sum_vanishes(x: int, y: int, p: int)
    requires
        p > 0,
        y % p == 0,
    ensures
        (x + y) % p == x % p,
        (x - y) % p == x % p,
{
    lemma_vanishing_is_multiple(y, p);
    let k = y / p;
    lemma_shift_by_multiple(x, k, p);
    lemma_shift_by_multiple(x, -k, p);
    assert(k * p == y) by (nonlinear_arith)
        requires
            y == p * k,
    ;
    assert((-k) * p == -y) by (nonlinear_arith)
        requires
            y == p * k,
    ;
}

/// A number is zero modulo `p` exactly where its negation is.
pub proof fn lemma_negation_vanishes(x: int, p: int)
    requires
        p > 0,
    ensures
        ((-x) % p == 0) == (x % p == 0),
{
    if x % p == 0 {
        lemma_sum_vanishes(0, x, p);
        lemma_small_mod(0, p as nat);
    }
    if (-x) % p == 0 {
        lemma_sum_vanishes(0, -x, p);
        lemma_small_mod(0, p as nat);
    }
}

/// A product with a factor that is zero modulo `p` is zero modulo `p`.
pub proof fn lemma_product_vanishes(a: int, b: int, p: int)
    requires
        p > 0,
        a % p == 0 || b % p == 0,
    ensures
        (a * b) % p == 0,
{
    if a % p == 0 {
        lemma_vanishing_is_multiple(a, p);
        let k = a / p;
        assert(a * b == (k * b) * p) by (nonlinear_arith)
            requires
                a == p * k,
        ;
        lemma_multiple_vanishes(k * b, p);
    } else {
        lemma_vanishing_is_multiple(b, p);
        let k = b / p;
        assert(a * b == (a * k) * p) by (nonlinear_arith)
            requires
                b == p * k,
        ;
        lemma_multiple_vanishes(a * k, p);
    }
}

/// Congruence modulo `p` is an equivalence.
pub proof fn lemma_congruent_is_equivalence(a: int, b: int, c: int, p: int)
    requires
        p > 0,
    ensures
        congruent(a, a, p),
        congruent(a, b, p) ==> congruent(b, a, p),
        congruent(a, b, p) && congruent(b, c, p) ==> congruent(a, c, p),
{
    lemma_small_mod(0, p as nat);
    if congruent(a, b, p) {
        lemma_negation_vanishes(a - b, p);
        assert(-(a - b) == b - a);
        if congruent(b, c, p) {
            lemma_sum_vanishes(a - b, b - c, p);
            assert((a - b) + (b - c) == a - c);
        }
    }
}

/// Congruent numbers stay congruent when the same number is added to both, and when
/// both are multiplied by the same number.
pub proof fn lemma_congruent_is_compatible(a: int, b: int, c: int, p: int)
    requires
        p > 0,
        congruent(a, b, p),
    ensures
        congruent(a + c, b + c, p),
        congruent(a * c, b * c, p),
        congruent(c * a, c * b, p),
{
    assert((a + c) - (b + c) == a - b);
    lemma_product_vanishes(a - b, c, p);
    assert((a - b) * c == a * c - b * c) by (nonlinear_arith);
    assert((a - b) * c == c * a - c * b) by (nonlinear_arith);
}

/// Two numbers in `0..p` that are congruent modulo `p` are equal.
pub proof fn lemma_congruent_residues_are_equal(a: int, b: int, p: int)
    requires
        p > 0,
        0 <= a < p,
        0 <= b < p,
        congruent(a, b, p),
    ensures
        a == b,
{
    if a >= b {
        lemma_small_mod((a - b) as nat, p as nat);
    } else {
        lemma_negation_vanishes(a - b, p);
        assert(-(a - b) == b - a);
        lemma_small_mod((b - a) as nat, p as nat);
    }
}

/// Euclid's lemma for a factor that is not negative.
proof fn lemma_prime_divides_factor_nat(a: int, b: int, p: int)
    requires
        0 <= a,
        is_prime(p),
        (a * b) % p == 0,
    ensures
        a % p == 0 || b % p == 0,
    decreases a,
{
    if a == 0 {
        lemma_small_mod(0, p as nat);
    } else if a >= p {
        assert((a - p) * b == a * b + (-b) * p) by (nonlinear_arith);
        lemma_shift_by_multiple(a * b, -b, p);
        lemma_prime_divides_factor_nat(a - p, b, p);
        if (a - p) % p == 0 {
            lemma_shift_by_multiple(a - p, 1, p);
            assert(a - p + 1 * p == a);
        }
    } else if a == 1 {
        assert(a * b == b) by (nonlinear_arith)
            requires
                a == 1,
        ;
    } else {
        let r = p % a;
        let k = p / a;
        lemma_fundamental_div_mod(p, a);
        lemma_mod_bound(p, a);
        assert(r != 0);
        lemma_vanishing_is_multiple(a * b, p);
        let m = (a * b) / p;
        assert(r * b == (b - k * m) * p) by (nonlinear_arith)
            requires
                p == a * k + r,
                a * b == p * m,
        ;
        lemma_multiple_vanishes(b - k * m, p);
        lemma_prime_divides_factor_nat(r, b, p);
        lemma_small_mod(r as nat, p as nat);
    }
}

/// Euclid's lemma: a prime that divides a product divides one of its factors.
pub proof fn lemma_prime_divides_factor(a: int, b: int, p: int)
    requires
        is_prime(p),
        (a * b) % p == 0,
    ensures
        a % p == 0 || b % p == 0,
{
    if a >= 0 {
        lemma_prime_divides_factor_nat(a, b, p);
    } else {
        lemma_negation_vanishes(a * b, p);
        assert((-a) * b == -(a * b)) by (nonlinear_arith);
        lemma_prime_divides_factor_nat(-a, b, p);
        lemma_negation_vanishes(a, p);
    }
}

} // verus!
