//! The scalar values that the complex numbers and polynomials are built from.
//!
//! A `Scalar` carries a mathematical model (`m`, an integer) and names, once
//! and for all, what each arithmetic operation does to that model (`add_m`,
//! `sub_m`, ...). Every contract in this crate is stated over those models, so
//! a result is pinned down exactly for any scalar that meets this trait.
//!
//! The crate implements the trait for `i64` with saturating semantics: the
//! model is the value itself, and every operation clips its exact integer
//! result into the `i64` range.

use vstd::prelude::*;

verus! {

/// A scalar with an integer model and fixed arithmetic semantics.
pub trait Scalar: Sized + Copy {
    /// The mathematical value this scalar stands for. (The model functions
    /// carry placeholder defaults so that unverified code, which sees the
    /// trait with its specification layer erased, can still supply a scalar
    /// of its own; a verified scalar overrides every one of them.)
    open spec fn m(self) -> int {
        0int
    }

    /// What `add` does to the models.
    open spec fn add_m(a: int, b: int) -> int {
        0int
    }

    /// What `sub` does to the models.
    open spec fn sub_m(a: int, b: int) -> int {
        0int
    }

    /// What `mul` does to the models.
    open spec fn mul_m(a: int, b: int) -> int {
        0int
    }

    /// What `div` does to the models.
    open spec fn div_m(a: int, b: int) -> int {
        0int
    }

    /// What `neg` does to the model.
    open spec fn neg_m(a: int) -> int {
        0int
    }

    /// What `sqrt` does to the model.
    open spec fn sqrt_m(a: int) -> int {
        0int
    }

    /// The scalar standing for the integer `n`.
    fn of_int(n: i64) -> (r: Self)
        ensures
            r.m() == n as int,
    ;

    fn add(self, other: Self) -> (r: Self)
        ensures
            r.m() == Self::add_m(self.m(), other.m()),
    ;

    fn sub(self, other: Self) -> (r: Self)
        ensures
            r.m() == Self::sub_m(self.m(), other.m()),
    ;

    fn mul(self, other: Self) -> (r: Self)
        ensures
            r.m() == Self::mul_m(self.m(), other.m()),
    ;

    fn div(self, other: Self) -> (r: Self)
        ensures
            r.m() == Self::div_m(self.m(), other.m()),
    ;

    fn neg(self) -> (r: Self)
        ensures
            r.m() == Self::neg_m(self.m()),
    ;

    fn sqrt(self) -> (r: Self)
        ensures
            r.m() == Self::sqrt_m(self.m()),
    ;

    /// Strict order on the models.
    fn lt(self, other: Self) -> (r: bool)
        ensures
            r == (self.m() < other.m()),
    ;

    /// Whether the model is exactly zero.
    fn is_zero(self) -> (r: bool)
        ensures
            r == (self.m() == 0),
    ;
}

/// The exact integer `v` clipped into the `i64` range.
pub open spec fn clip(v: int) -> int {
    if v < i64::MIN as int {
        i64::MIN as int
    } else if v > i64::MAX as int {
        i64::MAX as int
    } else {
        v
    }
}

/// The integer square root, rounded down; zero for negative input.
pub open spec fn floor_sqrt(n: int) -> int
    decreases n,
{
    if n < 1 {
        0int
    } else {
        let p = floor_sqrt(n - 1);
        if (p + 1) * (p + 1) <= n {
            p + 1
        } else {
            p
        }
    }
}

/// `floor_sqrt(n)` is the unique non-negative root whose square is at most
/// `n` while the next square is above it.
pub proof fn lemma_floor_sqrt_bounds(n: int)
    requires
        n >= 0,
    ensures
        floor_sqrt(n) >= 0,
        floor_sqrt(n) * floor_sqrt(n) <= n,
        n < (floor_sqrt(n) + 1) * (floor_sqrt(n) + 1),
    decreases n,
{
    if n == 0 {
    } else {
        lemma_floor_sqrt_bounds(n - 1);
        let p = floor_sqrt(n - 1);
        if (p + 1) * (p + 1) <= n {
            assert(n - 1 < (p + 1) * (p + 1));
            assert(n == (p + 1) * (p + 1));
            assert((p + 1) * (p + 1) < (p + 2) * (p + 2)) by (nonlinear_arith)
                requires
                    p >= 0,
            ;
        }
    }
}

/// Two non-negative values whose squares bracket `n` the same way are equal.
proof fn lemma_floor_sqrt_unique(n: int, r: int, s: int)
    requires
        r >= 0,
        s >= 0,
        r * r <= n,
        n < (r + 1) * (r + 1),
        s * s <= n,
        n < (s + 1) * (s + 1),
    ensures
        r == s,
{
    assert(r == s) by (nonlinear_arith)
        requires
            r >= 0,
            s >= 0,
            r * r <= n,
            n < (r + 1) * (r + 1),
            s * s <= n,
            n < (s + 1) * (s + 1),
    ;
}

/// Division truncated toward zero, as the machine divides.
pub open spec fn trunc_div(a: int, b: int) -> int {
    if a == 0 {
        0
    } else if a > 0 && b > 0 {
        a / b
    } else if a < 0 && b < 0 {
        (a * -1) / (b * -1)
    } else if a < 0 {
        ((a * -1) / b) * -1
    } else {
        (a / (b * -1)) * -1
    }
}

impl Scalar for i64 {
    open spec fn m(self) -> int {
        self as int
    }

    open spec fn add_m(a: int, b: int) -> int {
        clip(a + b)
    }

    open spec fn sub_m(a: int, b: int) -> int {
        clip(a - b)
    }

    open spec fn mul_m(a: int, b: int) -> int {
        clip(a * b)
    }

    open spec fn div_m(a: int, b: int) -> int {
        if b == 0 {
            0
        } else {
            clip(trunc_div(a, b))
        }
    }

    open spec fn neg_m(a: int) -> int {
        clip(-a)
    }

    open spec fn sqrt_m(a: int) -> int {
        floor_sqrt(a)
    }

    fn of_int(n: i64) -> (r: Self) {
        n
    }

    fn add(self, other: Self) -> (r: Self) {
        if other >= 0 {
            if self <= i64::MAX - other {
                self + other
            } else {
                i64::MAX
            }
        } else {
            if self >= i64::MIN - other {
                self + other
            } else {
                i64::MIN
            }
        }
    }

    fn sub(self, other: Self) -> (r: Self) {
        if other >= 0 {
            if self >= i64::MIN + other {
                self - other
            } else {
                i64::MIN
            }
        } else {
            if self <= i64::MAX + other {
                self - other
            } else {
                i64::MAX
            }
        }
    }

    fn mul(self, other: Self) -> (r: Self) {
        proof {
            assert(i64::MIN as int * i64::MAX as int <= (self as int) * (other as int)
                <= i64::MIN as int * i64::MIN as int) by (nonlinear_arith)
                requires
                    i64::MIN as int <= self as int <= i64::MAX as int,
                    i64::MIN as int <= other as int <= i64::MAX as int,
            ;
        }
        let wide: i128 = (self as i128) * (other as i128);
        if wide > i64::MAX as i128 {
            i64::MAX
        } else if wide < i64::MIN as i128 {
            i64::MIN
        } else {
            wide as i64
        }
    }

    fn div(self, other: Self) -> (r: Self) {
        if other == 0 {
            0
        } else {
            match self.checked_div(other) {
                Some(v) => v,
                None => {
                    proof {
                        lemma_trunc_div_in_range(self as int, other as int);
                    }
                    i64::MAX
                },
            }
        }
    }

    fn neg(self) -> (r: Self) {
        if self == i64::MIN {
            i64::MAX
        } else {
            -self
        }
    }

    fn sqrt(self) -> (r: Self) {
        if self <= 0 {
            return 0;
        }
        // 3037000500 is the least value whose square exceeds i64::MAX
        let mut lo: i64 = 0;
        let mut hi: i64 = 3037000500;
        proof {
            assert((hi as int) * (hi as int) > i64::MAX as int) by (nonlinear_arith)
                requires
                    hi as int == 3037000500,
            ;
        }
        while lo + 1 < hi
            invariant
                0 <= lo < hi <= 3037000500,
                (lo as int) * (lo as int) <= self as int,
                (self as int) < (hi as int) * (hi as int),
                self > 0,
            decreases hi - lo,
        {
            let gap: u64 = (hi - lo) as u64;
            let mid: i64 = lo + (gap / 2) as i64;
            proof {
                assert(lo < mid < hi);
                assert(0 <= (mid as int) * (mid as int) <= 3037000500int * 3037000500int)
                    by (nonlinear_arith)
                    requires
                        0 <= mid as int <= 3037000500int,
                ;
            }
            let sq: i128 = (mid as i128) * (mid as i128);
            if sq <= self as i128 {
                lo = mid;
            } else {
                hi = mid;
            }
        }
        proof {
            lemma_floor_sqrt_bounds(self as int);
            assert((self as int) < (lo + 1) * (lo + 1));
            lemma_floor_sqrt_unique(self as int, floor_sqrt(self as int), lo as int);
        }
        lo
    }

    fn lt(self, other: Self) -> (r: bool) {
        self < other
    }

    fn is_zero(self) -> (r: bool) {
        self == 0
    }
}

/// Truncating division of one `i64`-ranged value by another lands in
/// `[i64::MIN, i64::MAX]` except for `i64::MIN / -1`, which lands one above.
proof fn lemma_trunc_div_in_range(a: int, b: int)
    requires
        i64::MIN as int <= a <= i64::MAX as int,
        i64::MIN as int <= b <= i64::MAX as int,
        b != 0,
    ensures
        i64::MIN as int <= trunc_div(a, b) <= i64::MAX as int + 1,
        trunc_div(a, b) == i64::MAX as int + 1 ==> a == i64::MIN as int && b == -1,
{
    if a == 0 {
    } else if a > 0 && b > 0 {
        lemma_div_bound(a, b);
    } else if a < 0 && b < 0 {
        lemma_div_bound(a * -1, b * -1);
        if a == i64::MIN as int && b == -1 {
            assert(a * -1 == i64::MAX as int + 1);
            assert((a * -1) / (b * -1) == i64::MAX as int + 1);
        } else if b == -1 {
            assert(trunc_div(a, b) == (a * -1) / 1);
            assert((a * -1) / 1 == a * -1);
        } else {
            assert(b * -1 >= 2);
            assert((a * -1) / (b * -1) <= (a * -1) / 2) by {
                lemma_div_denominator_order(a * -1, 2, b * -1);
            }
            assert((a * -1) / 2 <= i64::MAX as int) by (nonlinear_arith)
                requires
                    a >= i64::MIN as int,
            ;
        }
    } else if a < 0 {
        lemma_div_bound(a * -1, b);
    } else {
        lemma_div_bound(a, b * -1);
    }
}

/// For non-negative `x` and positive `d`, Euclidean `x / d` stays in `[0, x]`.
proof fn lemma_div_bound(x: int, d: int)
    requires
        x >= 0,
        d >= 1,
    ensures
        0 <= x / d <= x,
{
    assert(0 <= x / d <= x) by (nonlinear_arith)
        requires
            x >= 0,
            d >= 1,
    ;
}

/// Dividing by a larger positive denominator gives a result no larger.
proof fn lemma_div_denominator_order(x: int, d1: int, d2: int)
    requires
        x >= 0,
        1 <= d1 <= d2,
    ensures
        x / d2 <= x / d1,
{
    assert(x / d2 <= x / d1) by (nonlinear_arith)
        requires
            x >= 0,
            1 <= d1 <= d2,
    ;
}

} // verus!
