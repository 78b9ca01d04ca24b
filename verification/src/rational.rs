//! Exact rational numbers for the value model.
//!
//! A `Rational` is a fraction held in lowest terms with a positive
//! denominator, so that structural equality of two well-formed rationals
//! coincides with equality of the numbers they denote. Construction reduces
//! the fraction by the greatest common divisor of numerator and denominator.

use vstd::prelude::*;
use vstd::arithmetic::div_mod::*;
use vstd::arithmetic::mul::*;

verus! {

/// Magnitude of an integer, as a natural number.
pub open spec fn mag(x: int) -> nat {
    if x < 0 {
        (-x) as nat
    } else {
        x as nat
    }
}

/// Greatest common divisor by the Euclidean recurrence.
pub open spec fn gcd(a: nat, b: nat) -> nat
    decreases b,
{
    if b == 0 {
        a
    } else {
        gcd(b, a % b)
    }
}

/// The gcd of two numbers, not both zero, is positive.
pub proof fn lemma_gcd_pos(a: nat, b: nat)
    requires
        a > 0 || b > 0,
    ensures
        gcd(a, b) > 0,
    decreases b,
{
    if b != 0 {
        lemma_gcd_pos(b, a % b);
    }
}

/// The gcd divides both of its arguments.
pub proof fn lemma_gcd_divides(a: nat, b: nat)
    requires
        gcd(a, b) > 0,
    ensures
        a % gcd(a, b) == 0,
        b % gcd(a, b) == 0,
    decreases b,
{
    let g = gcd(a, b);
    if b == 0 {
        lemma_mod_self_0(a as int);
        lemma_small_mod(0nat, g);
    } else {
        let r = a % b;
        lemma_gcd_divides(b, r);
        lemma_fundamental_div_mod(a as int, b as int);
        assert(a == b * (a / b) + r);
        assert((b as int * ((a / b) as int)) % (g as int) == 0) by {
            lemma_mul_mod_noop_left(b as int, (a / b) as int, g as int);
            assert(b % g == 0);
            lemma_mul_basics((a / b) as int);
            assert((0int * ((a / b) as int)) % (g as int) == 0int) by {
                lemma_mul_basics((a / b) as int);
                lemma_small_mod(0nat, g);
            }
        }
        assert(a % g == 0) by {
            lemma_add_mod_noop(b as int * ((a / b) as int), r as int, g as int);
            lemma_small_mod(0nat, g);
        }
    }
}

/// Every common divisor of `a` and `b` divides their gcd.
pub proof fn lemma_common_divisor_divides_gcd(a: nat, b: nat, d: nat)
    requires
        d > 0,
        a % d == 0,
        b % d == 0,
    ensures
        gcd(a, b) % d == 0,
    decreases b,
{
    if b == 0 {
    } else {
        let r = a % b;
        lemma_fundamental_div_mod(a as int, b as int);
        assert(r == a - b * (a / b));
        assert((b as int * ((a / b) as int)) % (d as int) == 0) by {
            lemma_mul_mod_noop_left(b as int, (a / b) as int, d as int);
            lemma_mul_basics((a / b) as int);
            lemma_small_mod(0nat, d);
        }
        assert(r % d == 0) by {
            lemma_sub_mod_noop(a as int, b as int * ((a / b) as int), d as int);
            lemma_small_mod(0nat, d);
        }
        lemma_common_divisor_divides_gcd(b, r, d);
    }
}

/// A positive divisor of a positive number is no larger than it.
proof fn lemma_divisor_le(n: nat, d: nat)
    requires
        d > 0,
        n > 0,
        n % d == 0,
    ensures
        d <= n,
{
    lemma_fundamental_div_mod(n as int, d as int);
    assert(n == d * (n / d));
    if n / d <= 0 {
        assert(d as int * ((n / d) as int) <= 0) by {
            lemma_mul_inequality((n / d) as int, 0int, d as int);
            lemma_mul_is_commutative(d as int, (n / d) as int);
            lemma_mul_basics(d as int);
        }
        assert(false);
    }
    lemma_mul_inequality(1int, (n / d) as int, d as int);
    lemma_mul_is_commutative(d as int, (n / d) as int);
    lemma_mul_basics(d as int);
}

/// After dividing two numbers by their gcd, the quotients are coprime.
pub proof fn lemma_coprime_after_reduction(a: nat, b: nat)
    requires
        b > 0,
    ensures
        gcd(a / gcd(a, b), b / gcd(a, b)) == 1,
{
    let g = gcd(a, b);
    lemma_gcd_pos(a, b);
    lemma_gcd_divides(a, b);
    let a1 = a / g;
    let b1 = b / g;
    lemma_fundamental_div_mod(a as int, g as int);
    lemma_fundamental_div_mod(b as int, g as int);
    assert(a == g * a1);
    assert(b == g * b1);
    assert(b1 > 0) by {
        if b1 == 0 {
            assert(b == g * 0);
            lemma_mul_basics(g as int);
            assert(false);
        }
    }
    let d = gcd(a1, b1);
    lemma_gcd_pos(a1, b1);
    lemma_gcd_divides(a1, b1);
    if d != 1 {
        assert(d >= 2);
        // d divides a1 and b1, so d * g divides a and b.
        lemma_fundamental_div_mod(a1 as int, d as int);
        lemma_fundamental_div_mod(b1 as int, d as int);
        let qa = a1 / d;
        let qb = b1 / d;
        assert(a1 == d * qa);
        assert(b1 == d * qb);
        assert(a == (d * g) * qa) by {
            assert(a == g * (d * qa));
            lemma_mul_is_associative(g as int, d as int, qa as int);
            lemma_mul_is_commutative(g as int, d as int);
            lemma_mul_is_associative(d as int, g as int, qa as int);
        }
        assert(b == (d * g) * qb) by {
            assert(b == g * (d * qb));
            lemma_mul_is_associative(g as int, d as int, qb as int);
            lemma_mul_is_commutative(g as int, d as int);
            lemma_mul_is_associative(d as int, g as int, qb as int);
        }
        assert(d * g > 0) by {
            lemma_mul_strictly_positive(d as int, g as int);
        }
        assert(a % (d * g) == 0) by {
            lemma_mod_multiples_basic(qa as int, (d * g) as int);
            lemma_mul_is_commutative((d * g) as int, qa as int);
        }
        assert(b % (d * g) == 0) by {
            lemma_mod_multiples_basic(qb as int, (d * g) as int);
            lemma_mul_is_commutative((d * g) as int, qb as int);
        }
        lemma_common_divisor_divides_gcd(a, b, d * g);
        assert(g % (d * g) == 0);
        assert(d * g > g) by {
            lemma_mul_inequality(2int, d as int, g as int);
            lemma_mul_is_commutative(d as int, g as int);
            lemma_mul_basics(g as int);
        }
        lemma_divisor_le(g, d * g);
        assert(false);
    }
}

/// Numerator of `n/d` in lowest terms, carrying the sign.
pub open spec fn red_num(n: int, d: int) -> int {
    let g = gcd(mag(n), mag(d)) as int;
    if (n < 0) == (d < 0) {
        mag(n) as int / g
    } else {
        -(mag(n) as int / g)
    }
}

/// Denominator of `n/d` in lowest terms; positive when `d != 0`.
pub open spec fn red_den(n: int, d: int) -> int {
    mag(d) as int / gcd(mag(n), mag(d)) as int
}

/// The reduced fraction denotes the same rational number:
/// `red_num(n,d) / red_den(n,d) == n / d` by cross-multiplication.
pub proof fn lemma_reduction_represents(n: int, d: int)
    requires
        d != 0,
    ensures
        red_num(n, d) * d == n * red_den(n, d),
{
    let ma = mag(n);
    let mb = mag(d);
    let g = gcd(ma, mb);
    lemma_gcd_pos(ma, mb);
    lemma_gcd_divides(ma, mb);
    let a1 = ma / g;
    let b1 = mb / g;
    lemma_fundamental_div_mod(ma as int, g as int);
    lemma_fundamental_div_mod(mb as int, g as int);
    assert(ma == g * a1);
    assert(mb == g * b1);
    assert(a1 as int * (g as int * b1 as int) == (g as int * a1 as int) * (b1 as int)) by {
        lemma_mul_is_associative(a1 as int, g as int, b1 as int);
        lemma_mul_is_commutative(a1 as int, g as int);
        lemma_mul_is_associative(g as int, a1 as int, b1 as int);
    }
    if n >= 0 && d > 0 {
        assert(red_num(n, d) * d == a1 as int * (g as int * b1 as int));
        assert(n * red_den(n, d) == (g as int * a1 as int) * b1 as int);
    } else if n >= 0 && d < 0 {
        assert(red_num(n, d) * d == -(a1 as int) * d);
        assert(d == -(g as int * b1 as int));
        assert(-(a1 as int) * -(g as int * b1 as int) == a1 as int * (g as int * b1 as int)) by {
            lemma_mul_unary_negation(a1 as int, -(g as int * b1 as int));
            lemma_mul_unary_negation(a1 as int, (g as int * b1 as int));
        }
        assert(n * red_den(n, d) == (g as int * a1 as int) * b1 as int);
    } else if n < 0 && d > 0 {
        assert(red_num(n, d) * d == -(a1 as int) * d);
        assert(n == -(g as int * a1 as int));
        assert(-(a1 as int) * (g as int * b1 as int) == -(a1 as int * (g as int * b1 as int))) by {
            lemma_mul_unary_negation(a1 as int, g as int * b1 as int);
        }
        assert(-(g as int * a1 as int) * (b1 as int) == -((g as int * a1 as int) * b1 as int)) by {
            lemma_mul_unary_negation(g as int * a1 as int, b1 as int);
        }
    } else {
        assert(n < 0 && d < 0);
        assert(red_num(n, d) * d == a1 as int * d);
        assert(n == -(g as int * a1 as int));
        assert(d == -(g as int * b1 as int));
        assert(a1 as int * -(g as int * b1 as int) == -(a1 as int * (g as int * b1 as int))) by {
            lemma_mul_unary_negation2(a1 as int, g as int * b1 as int);
        }
        assert(-(g as int * a1 as int) * (b1 as int) == -((g as int * a1 as int) * b1 as int)) by {
            lemma_mul_unary_negation(g as int * a1 as int, b1 as int);
        }
    }
}

/// An exact rational number: numerator `num`, denominator `den`,
/// well-formed when `den >= 1` and the fraction is in lowest terms.
#[derive(Clone, Copy, PartialEq, Eq, Structural, Debug)]
pub struct Rational {
    pub num: i64,
    pub den: i64,
}

impl Rational {
    /// Well-formedness: positive denominator, fraction in lowest terms.
    pub open spec fn wf(self) -> bool {
        &&& self.den >= 1
        &&& gcd(mag(self.num as int), self.den as nat) == 1
    }

    /// The rational denoting the integer `n`.
    pub fn from_int(n: i64) -> (r: Rational)
        ensures
            r.wf(),
            r.num == n,
            r.den == 1,
    {
        proof {
            let a = mag(n as int);
            assert(a % 1 == 0) by {
                lemma_mod_self_0(1int);
                lemma_fundamental_div_mod(a as int, 1int);
            }
            assert(gcd(a, 1) == gcd(1, 0));
        }
        Rational { num: n, den: 1 }
    }

    /// Builds `n/d` in lowest terms. Returns `None` exactly when the
    /// reduced numerator or denominator does not fit in an `i64`.
    fn make(n: i128, d: i128) -> (r: Option<Rational>)
        requires
            d >= 1,
            n > i128::MIN,
        ensures
            (r is Some) <==> (i64::MIN <= red_num(n as int, d as int) <= i64::MAX
                && red_den(n as int, d as int) <= i64::MAX),
            r is Some ==> {
                let q = r->Some_0;
                &&& q.wf()
                &&& q.num == red_num(n as int, d as int)
                &&& q.den == red_den(n as int, d as int)
            },
    {
        let na: u128 = if n < 0 {
            (-n) as u128
        } else {
            n as u128
        };
        let da: u128 = d as u128;
        assert(na == mag(n as int));
        assert(da == mag(d as int));
        let g = gcd_u128(na, da);
        proof {
            lemma_gcd_pos(na as nat, da as nat);
            lemma_gcd_divides(na as nat, da as nat);
        }
        let rn = na / g;
        let rd = da / g;
        proof {
            lemma_coprime_after_reduction(na as nat, da as nat);
            assert(rd >= 1) by {
                lemma_fundamental_div_mod(da as int, g as int);
                if rd == 0 {
                    lemma_mul_basics(g as int);
                    assert(false);
                }
            }
        }
        let neg = n < 0;
        if rd > i64::MAX as u128 {
            return None;
        }
        if neg {
            if rn > i64::MAX as u128 + 1 {
                return None;
            }
            let num: i64 = if rn == i64::MAX as u128 + 1 {
                i64::MIN
            } else {
                -((rn as i64))
            };
            assert(num == red_num(n as int, d as int));
            assert(mag(num as int) == rn);
            Some(Rational { num, den: rd as i64 })
        } else {
            if rn > i64::MAX as u128 {
                return None;
            }
            Some(Rational { num: rn as i64, den: rd as i64 })
        }
    }

    /// Builds the rational `n/d` in lowest terms.
    /// Returns `None` exactly when `d == 0` or the reduced fraction
    /// does not fit in `i64` components.
    pub fn new(n: i64, d: i64) -> (r: Option<Rational>)
        ensures
            (r is Some) <==> (d != 0 && i64::MIN <= red_num(n as int, d as int) <= i64::MAX
                && red_den(n as int, d as int) <= i64::MAX),
            r is Some ==> {
                let q = r->Some_0;
                &&& q.wf()
                &&& q.num == red_num(n as int, d as int)
                &&& q.den == red_den(n as int, d as int)
                &&& q.num * d == n * q.den
            },
    {
        if d == 0 {
            return None;
        }
        proof {
            lemma_reduction_represents(n as int, d as int);
        }
        if d < 0 {
            let r = Self::make(-(n as i128), -(d as i128));
            proof {
                assert(mag(-(n as int)) == mag(n as int));
                assert(mag(-(d as int)) == mag(d as int));
                let g = gcd(mag(n as int), mag(d as int)) as int;
                if n == 0 {
                    assert(g > 0) by {
                        lemma_gcd_pos(mag(n as int), mag(d as int));
                    }
                    assert(0int / g == 0) by {
                        lemma_div_of0(g);
                    }
                }
                assert(red_num(-(n as int), -(d as int)) == red_num(n as int, d as int));
                assert(red_den(-(n as int), -(d as int)) == red_den(n as int, d as int));
            }
            r
        } else {
            Self::make(n as i128, d as i128)
        }
    }

    /// Exact product of two rationals, in lowest terms. Returns `None`
    /// exactly when the reduced product does not fit in `i64` components.
    pub fn mul(self, other: Rational) -> (r: Option<Rational>)
        requires
            self.den >= 1,
            other.den >= 1,
        ensures
            ({
                let pn = self.num as int * other.num as int;
                let pd = self.den as int * other.den as int;
                &&& ((r is Some) <==> (i64::MIN <= red_num(pn, pd) <= i64::MAX
                    && red_den(pn, pd) <= i64::MAX))
                &&& (r is Some ==> {
                    let q = r->Some_0;
                    &&& q.wf()
                    &&& q.num == red_num(pn, pd)
                    &&& q.den == red_den(pn, pd)
                    &&& q.num as int * pd == pn * q.den as int
                })
            }),
    {
        proof {
            lemma_mul_bounds_magnitude(self.num as int, other.num as int);
            lemma_mul_bounds_magnitude(self.den as int, other.den as int);
            lemma_mul_strictly_positive(self.den as int, other.den as int);
        }
        let pn: i128 = self.num as i128 * other.num as i128;
        let pd: i128 = self.den as i128 * other.den as i128;
        proof {
            lemma_reduction_represents(pn as int, pd as int);
        }
        Self::make(pn, pd)
    }
}

/// The product of two `i64` values is strictly above `i128::MIN`.
proof fn lemma_mul_bounds_magnitude(a: int, b: int)
    requires
        -0x8000_0000_0000_0000 <= a <= 0x7fff_ffff_ffff_ffff,
        -0x8000_0000_0000_0000 <= b <= 0x7fff_ffff_ffff_ffff,
    ensures
        a * b > i128::MIN,
        a * b <= i128::MAX,
{
    assert(a * b > i128::MIN && a * b <= i128::MAX) by (nonlinear_arith)
        requires
            -0x8000_0000_0000_0000 <= a <= 0x7fff_ffff_ffff_ffff,
            -0x8000_0000_0000_0000 <= b <= 0x7fff_ffff_ffff_ffff,
    ;
}

/// `x * -y == -(x * y)`, companion to `lemma_mul_unary_negation`.
proof fn lemma_mul_unary_negation2(x: int, y: int)
    ensures
        x * -y == -(x * y),
{
    lemma_mul_is_commutative(x, -y);
    lemma_mul_unary_negation(y, x);
    lemma_mul_is_commutative(y, x);
}

/// Euclid's algorithm, matching the `gcd` specification.
fn gcd_u128(a: u128, b: u128) -> (g: u128)
    ensures
        g == gcd(a as nat, b as nat),
{
    let mut x = a;
    let mut y = b;
    while y != 0
        invariant
            gcd(x as nat, y as nat) == gcd(a as nat, b as nat),
        decreases y,
    {
        let r = x % y;
        x = y;
        y = r;
    }
    x
}

} // verus!
