//! The two bases that a lane is held in beside binary, and integer powers.

use vstd::prelude::*;
use vstd::arithmetic::power::{pow, lemma_pow0, lemma_pow_increases};

verus! {

/// The base in which the sum of up to twelve bits fits in one digit.
pub const B13: u64 = 13;

/// The base in which the sum of up to eight bits fits in one digit.
pub const B9: u64 = 9;

/// One more factor gives the next power.
pub proof fn lemma_pow_next(base: int, exp: nat)
    ensures
        pow(base, exp + 1) == pow(base, exp) * base,
{
    reveal(pow);
    assert(pow(base, exp + 1) == base * pow(base, exp));
    assert(base * pow(base, exp) == pow(base, exp) * base) by (nonlinear_arith);
}

/// `base` to the power of `exp`.
pub fn pow_u64(base: u64, exp: u32) -> (power: u64)
    requires
        pow(base as int, exp as nat) <= u64::MAX,
    ensures
        power == pow(base as int, exp as nat),
{
    let mut power: u64 = 1;
    let mut done: u32 = 0;
    proof {
        lemma_pow0(base as int);
    }
    while done < exp
        invariant
            done <= exp,
            power == pow(base as int, done as nat),
            pow(base as int, exp as nat) <= u64::MAX,
        decreases exp - done,
    {
        proof {
            lemma_pow_next(base as int, done as nat);
            if base > 0 {
                lemma_pow_increases(base as nat, (done + 1) as nat, exp as nat);
            } else {
                assert(power * base == 0) by (nonlinear_arith)
                    requires
                        base == 0,
                ;
            }
        }
        power = power * base;
        done = done + 1;
    }
    power
}

} // verus!
