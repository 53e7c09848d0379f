//! Greatest common divisors, with zero read as "no evidence yet".

use vstd::prelude::*;
use num::Integer;

verus! {

/// The greatest common divisor of two naturals, with `gcd(a, 0) == a`.
pub open spec fn gcd(a: nat, b: nat) -> nat
    decreases b,
{
    if b == 0 {
        a
    } else {
        gcd(b, a % b)
    }
}

/// `d` divides `n`; zero divides only zero.
pub open spec fn divides(d: nat, n: nat) -> bool {
    if d == 0 {
        n == 0
    } else {
        n % d == 0
    }
}

/// GCD where zero is the identity on either side.
pub open spec fn spec_maybe_gcd(x: nat, y: nat) -> nat {
    if x == 0 {
        y
    } else if y == 0 {
        x
    } else {
        gcd(x, y)
    }
}

/// Relies on num's `Integer::gcd` for `u32`: the greatest common divisor of
/// two positive integers.
#[verifier::external_body]
fn num_gcd(x: u32, y: u32) -> (r: u32)
    requires
        x > 0,
        y > 0,
    ensures
        r as nat == gcd(x as nat, y as nat),
{
    x.gcd(&y)
}

/// Combines two units, treating zero as "no evidence".
pub fn maybe_gcd(x: u32, y: u32) -> (r: u32)
    ensures
        r as nat == spec_maybe_gcd(x as nat, y as nat),
{
    if x == 0 {
        y
    } else if y == 0 {
        x
    } else {
        num_gcd(x, y)
    }
}

/// A common divisor of `a` and `b` is exactly a divisor of `gcd(a, b)`.
pub proof fn lemma_gcd_divisors(a: nat, b: nat, d: nat)
    ensures
        divides(d, gcd(a, b)) <==> (divides(d, a) && divides(d, b)),
    decreases b,
{
    if b > 0 {
        lemma_gcd_divisors(b, a % b, d);
        if d > 0 {
            let q = a / b;
            let r = a % b;
            assert(a == b * q + r) by (nonlinear_arith)
                requires
                    b > 0,
                    q == a / b,
                    r == a % b,
            ;
            if b % d == 0 && r % d == 0 {
                lemma_div_mod_parts(b as int, d as int);
                lemma_div_mod_parts(r as int, d as int);
                let k = (b / d) * q + r / d;
                assert(a == k * d) by (nonlinear_arith)
                    requires
                        a == b * q + r,
                        b == d * (b / d),
                        r == d * (r / d),
                        k == (b / d) * q + r / d,
                ;
                vstd::arithmetic::div_mod::lemma_mod_multiples_basic(k as int, d as int);
            }
            if b % d == 0 && a % d == 0 {
                lemma_div_mod_parts(b as int, d as int);
                lemma_div_mod_parts(a as int, d as int);
                let k: int = (a / d) as int - (b / d) * q;
                assert(r == k * d) by (nonlinear_arith)
                    requires
                        a == b * q + r,
                        b == d * (b / d),
                        a == d * (a / d),
                        k == (a / d) as int - (b / d) * q,
                ;
                vstd::arithmetic::div_mod::lemma_mod_multiples_basic(k, d as int);
            }
        } else {
            assert(a % b < b);
        }
    }
}

/// `spec_maybe_gcd` is the plain gcd.
pub proof fn lemma_maybe_gcd_is_gcd(x: nat, y: nat)
    ensures
        spec_maybe_gcd(x, y) == gcd(x, y),
{
    if x == 0 && y > 0 {
        assert(0nat % y == 0);
        assert(gcd(y, 0) == y);
    }
}

/// A natural is `d` times its quotient by `d` plus its remainder.
proof fn lemma_div_mod_parts(n: int, d: int)
    requires
        n >= 0,
        d > 0,
    ensures
        n == d * (n / d) + n % d,
{
    vstd::arithmetic::div_mod::lemma_fundamental_div_mod(n, d);
}

/// Two naturals that divide each other are equal.
pub proof fn lemma_divides_antisymmetric(a: nat, b: nat)
    requires
        divides(a, b),
        divides(b, a),
    ensures
        a == b,
{
    if a > 0 && b > 0 {
        assert(a <= b) by (nonlinear_arith)
            requires
                a > 0,
                b > 0,
                b % a == 0,
        ;
        assert(b <= a) by (nonlinear_arith)
            requires
                a > 0,
                b > 0,
                a % b == 0,
        ;
    }
}

/// Zero is an identity of `maybe_gcd` on both sides, and `maybe_gcd` is
/// commutative.
pub proof fn lemma_maybe_gcd_identity_commutative(x: nat, y: nat)
    ensures
        spec_maybe_gcd(0, y) == y,
        spec_maybe_gcd(x, 0) == x,
        spec_maybe_gcd(x, y) == spec_maybe_gcd(y, x),
{
    lemma_maybe_gcd_is_gcd(x, y);
    lemma_maybe_gcd_is_gcd(y, x);
    let g1 = gcd(x, y);
    let g2 = gcd(y, x);
    lemma_divides_self(g1);
    lemma_divides_self(g2);
    lemma_gcd_divisors(x, y, g1);
    lemma_gcd_divisors(y, x, g1);
    lemma_gcd_divisors(x, y, g2);
    lemma_gcd_divisors(y, x, g2);
    lemma_divides_antisymmetric(g1, g2);
}

/// Every natural divides itself.
pub proof fn lemma_divides_self(n: nat)
    ensures
        divides(n, n),
{
    if n > 0 {
        vstd::arithmetic::div_mod::lemma_mod_self_0(n as int);
    }
}

} // verus!
