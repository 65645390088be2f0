//! The 64-bit integers as elements: the ring of the integers modulo
//! `2^64`, each class written by its member in the range of `i64`.

use crate::scalar::{Extrema, Order, Ring, Scalar, Signed};
use vstd::arithmetic::div_mod::{lemma_fundamental_div_mod, lemma_mod_bound, lemma_mod_multiples_vanish};
use vstd::prelude::*;

verus! {

/// The number of values of an `i64`.
pub open spec fn modulus() -> int {
    0x1_0000_0000_0000_0000
}

/// The `i64` that differs from `x` by a multiple of `modulus()`.
pub open spec fn wrap(x: int) -> i64 {
    let m = x % modulus();
    if m > i64::MAX {
        (m - modulus()) as i64
    } else {
        m as i64
    }
}

/// The quotient of `a` by `b`, rounded towards zero.
pub open spec fn quotient(a: int, b: int) -> int
    recommends
        b != 0,
{
    if a >= 0 && b > 0 {
        a / b
    } else if a < 0 && b < 0 {
        (-a) / (-b)
    } else if a < 0 {
        -((-a) / b)
    } else {
        -(a / (-b))
    }
}

/// `wrap(x)` and `x` differ by `k` times the modulus.
pub proof fn lemma_wrap_offset(x: int) -> (k: int)
    ensures
        wrap(x) == x + k * modulus(),
{
    lemma_fundamental_div_mod(x, modulus());
    lemma_mod_bound(x, modulus());
    let q = x / modulus();
    assert(modulus() * q == q * modulus()) by (nonlinear_arith);
    if x % modulus() > i64::MAX {
        assert((-q - 1) * modulus() == -(q * modulus()) - modulus()) by (nonlinear_arith);
        -q - 1
    } else {
        assert((-q) * modulus() == -(q * modulus())) by (nonlinear_arith);
        -q
    }
}

/// Adding a multiple of the modulus does not change what `wrap` gives.
pub proof fn lemma_wrap_shift(x: int, k: int)
    ensures
        wrap(x + k * modulus()) == wrap(x),
{
    lemma_mod_multiples_vanish(k, x, modulus());
    assert(modulus() * k + x == x + k * modulus()) by (nonlinear_arith);
}

/// A value in the range of `i64` is left as it is.
pub proof fn lemma_wrap_small(x: int)
    requires
        i64::MIN <= x <= i64::MAX,
    ensures
        wrap(x) == x,
{
    if x >= 0 {
        vstd::arithmetic::div_mod::lemma_small_mod(x as nat, modulus() as nat);
    } else {
        lemma_mod_multiples_vanish(1, x, modulus());
        vstd::arithmetic::div_mod::lemma_small_mod((x + modulus()) as nat, modulus() as nat);
    }
}

/// `wrap` of a sum may be taken after wrapping the summands.
pub proof fn lemma_wrap_plus(x: int, y: int)
    ensures
        wrap(wrap(x) + wrap(y)) == wrap(x + y),
{
    let k = lemma_wrap_offset(x);
    let l = lemma_wrap_offset(y);
    assert(wrap(x) + wrap(y) == (x + y) + (k + l) * modulus()) by (nonlinear_arith)
        requires
            wrap(x) == x + k * modulus(),
            wrap(y) == y + l * modulus(),
    ;
    lemma_wrap_shift(x + y, k + l);
}

/// `wrap` of a product may be taken after wrapping the factors.
pub proof fn lemma_wrap_times(x: int, y: int)
    ensures
        wrap(wrap(x) * wrap(y)) == wrap(x * y),
{
    let k = lemma_wrap_offset(x);
    let l = lemma_wrap_offset(y);
    let m = modulus();
    assert(wrap(x) * wrap(y) == x * y + (x * l + k * y + k * l * m) * m) by (nonlinear_arith)
        requires
            wrap(x) == x + k * m,
            wrap(y) == y + l * m,
    ;
    lemma_wrap_shift(x * y, x * l + k * y + k * l * m);
}

/// Sums, differences and products wrap at the ends of the range; a
/// quotient is rounded towards zero, and every element but zero divides.
impl Scalar for i64 {
    open spec fn zero_value() -> i64 {
        0
    }

    open spec fn one_value() -> i64 {
        1
    }

    open spec fn plus(self, rhs: i64) -> i64 {
        wrap(self + rhs)
    }

    open spec fn minus(self, rhs: i64) -> i64 {
        wrap(self - rhs)
    }

    open spec fn times(self, rhs: i64) -> i64 {
        wrap(self * rhs)
    }

    open spec fn is_divisor(self) -> bool {
        self != 0
    }

    open spec fn over(self, rhs: i64) -> i64 {
        wrap(quotient(self as int, rhs as int))
    }

    fn zero() -> (r: i64) {
        0
    }

    fn one() -> (r: i64) {
        1
    }

    fn add(self, rhs: i64) -> (r: i64) {
        proof {
            lemma_wrap_shift(self + rhs, 1);
            lemma_wrap_shift(self + rhs, -1);
            if i64::MIN <= self + rhs <= i64::MAX {
                lemma_wrap_small(self + rhs);
            } else if self + rhs > i64::MAX {
                lemma_wrap_small(self + rhs - modulus());
            } else {
                lemma_wrap_small(self + rhs + modulus());
            }
        }
        self.wrapping_add(rhs)
    }

    fn sub(self, rhs: i64) -> (r: i64) {
        proof {
            lemma_wrap_shift(self - rhs, 1);
            lemma_wrap_shift(self - rhs, -1);
            if i64::MIN <= self - rhs <= i64::MAX {
                lemma_wrap_small(self - rhs);
            } else if self - rhs > i64::MAX {
                lemma_wrap_small(self - rhs - modulus());
            } else {
                lemma_wrap_small(self - rhs + modulus());
            }
        }
        self.wrapping_sub(rhs)
    }

    fn mul(self, rhs: i64) -> (r: i64) {
        self.wrapping_mul(rhs)
    }

    fn can_divide(self) -> (r: bool) {
        self != 0
    }

    fn div(self, rhs: i64) -> (r: i64) {
        match self.checked_div(rhs) {
            Some(q) => {
                proof {
                    lemma_wrap_small(q as int);
                }
                q
            },
            None => {
                proof {
                    lemma_wrap_shift(quotient(self as int, rhs as int), -1);
                    lemma_wrap_small(i64::MIN as int);
                }
                i64::MIN
            },
        }
    }
}

/// The laws hold because `wrap` respects sums and products.
impl Ring for i64 {
    proof fn plus_commutes(a: i64, b: i64) {
    }

    proof fn plus_associates(a: i64, b: i64, c: i64) {
        lemma_wrap_small(c as int);
        lemma_wrap_plus(a + b, c as int);
        lemma_wrap_small(a as int);
        lemma_wrap_plus(a as int, b + c);
    }

    proof fn plus_zero(a: i64) {
        lemma_wrap_small(a as int);
    }

    proof fn minus_is_plus_negation(a: i64, b: i64) {
        lemma_wrap_small(a as int);
        lemma_wrap_plus(a as int, 0 - b);
    }

    proof fn plus_negation(a: i64) {
        lemma_wrap_small(a as int);
        lemma_wrap_plus(a as int, 0 - a);
    }

    proof fn times_commutes(a: i64, b: i64) {
        assert(a * b == b * a) by (nonlinear_arith);
    }

    proof fn times_associates(a: i64, b: i64, c: i64) {
        lemma_wrap_small(c as int);
        lemma_wrap_times(a * b, c as int);
        lemma_wrap_small(a as int);
        lemma_wrap_times(a as int, b * c);
        assert((a * b) * c == a * (b * c)) by (nonlinear_arith);
    }

    proof fn times_one(a: i64) {
        lemma_wrap_small(a as int);
        assert(a * 1 == a) by (nonlinear_arith);
    }

    proof fn times_distributes(a: i64, b: i64, c: i64) {
        lemma_wrap_small(a as int);
        lemma_wrap_times(a as int, b + c);
        lemma_wrap_plus(a * b, a * c);
        assert(a * (b + c) == a * b + a * c) by (nonlinear_arith);
    }
}

/// The order of the integers.
impl Extrema for i64 {
    open spec fn at_most(self, other: i64) -> bool {
        self <= other
    }

    fn maximum(self, other: i64) -> (r: i64) {
        if self <= other {
            other
        } else {
            self
        }
    }

    fn minimum(self, other: i64) -> (r: i64) {
        if self <= other {
            self
        } else {
            other
        }
    }
}

impl Order for i64 {
    proof fn at_most_total(a: i64, b: i64) {
    }

    proof fn at_most_antisymmetric(a: i64, b: i64) {
    }

    proof fn at_most_transitive(a: i64, b: i64, c: i64) {
    }
}

/// The absolute value, which wraps for the one element that has none in
/// range.
impl Signed for i64 {
    open spec fn magnitude(self) -> i64 {
        if self < 0 {
            wrap(-self)
        } else {
            self
        }
    }

    fn abs(self) -> (r: i64) {
        if self < 0 {
            proof {
                lemma_wrap_shift(-self, -1);
                if self == i64::MIN {
                    lemma_wrap_small(i64::MIN as int);
                } else {
                    lemma_wrap_small(-self);
                }
            }
            0i64.wrapping_sub(self)
        } else {
            self
        }
    }
}

} // verus!
