//! A complex number in Cartesian form, over any [`Scalar`].
//!
//! Every operation is a pure value: it returns a new complex number and
//! mutates nothing. Each contract states the result's model exactly, through
//! the model functions below, which spell the textbook formulas out over the
//! scalar's own arithmetic semantics.

use vstd::prelude::*;
use crate::scalar::Scalar;
use crate::scalar::clip;
use crate::scalar::trunc_div;
use vstd::arithmetic::div_mod::lemma_div_multiples_vanish;

verus! {

/// A complex number `re + i*im`.
#[derive(Clone, Copy)]
pub struct Complex<T: Scalar> {
    /// Real portion of the complex number.
    pub re: T,
    /// Imaginary portion of the complex number.
    pub im: T,
}

/// Model of component-wise addition.
pub open spec fn cadd_m<T: Scalar>(a: (int, int), b: (int, int)) -> (int, int) {
    (T::add_m(a.0, b.0), T::add_m(a.1, b.1))
}

/// Model of component-wise subtraction.
pub open spec fn csub_m<T: Scalar>(a: (int, int), b: (int, int)) -> (int, int) {
    (T::sub_m(a.0, b.0), T::sub_m(a.1, b.1))
}

/// Model of the product `(a.0*b.0 - a.1*b.1) + i*(a.0*b.1 + a.1*b.0)`.
pub open spec fn cmul_m<T: Scalar>(a: (int, int), b: (int, int)) -> (int, int) {
    (
        T::sub_m(T::mul_m(a.0, b.0), T::mul_m(a.1, b.1)),
        T::add_m(T::mul_m(a.0, b.1), T::mul_m(a.1, b.0)),
    )
}

/// Model of the squared norm `a.0*a.0 + a.1*a.1`.
pub open spec fn cnorm_sqr_m<T: Scalar>(a: (int, int)) -> int {
    T::add_m(T::mul_m(a.0, a.0), T::mul_m(a.1, a.1))
}

/// Model of the quotient: multiply by the conjugate of `b`, divide both
/// components by the squared norm of `b`.
pub open spec fn cdiv_m<T: Scalar>(a: (int, int), b: (int, int)) -> (int, int) {
    let n = cnorm_sqr_m::<T>(b);
    (
        T::div_m(T::add_m(T::mul_m(a.0, b.0), T::mul_m(a.1, b.1)), n),
        T::div_m(T::sub_m(T::mul_m(a.1, b.0), T::mul_m(a.0, b.1)), n),
    )
}

/// Model of negation.
pub open spec fn cneg_m<T: Scalar>(a: (int, int)) -> (int, int) {
    (T::neg_m(a.0), T::neg_m(a.1))
}

/// Model of conjugation.
pub open spec fn cconj_m<T: Scalar>(a: (int, int)) -> (int, int) {
    (a.0, T::neg_m(a.1))
}

/// Model of multiplication by the scalar `t`.
pub open spec fn cscale_m<T: Scalar>(a: (int, int), t: int) -> (int, int) {
    (T::mul_m(a.0, t), T::mul_m(a.1, t))
}

/// Model of division by the scalar `t`.
pub open spec fn cunscale_m<T: Scalar>(a: (int, int), t: int) -> (int, int) {
    (T::div_m(a.0, t), T::div_m(a.1, t))
}

/// Model of the reciprocal: the conjugate divided component-wise by the
/// squared norm.
pub open spec fn cinv_m<T: Scalar>(a: (int, int)) -> (int, int) {
    let n = cnorm_sqr_m::<T>(a);
    (T::div_m(a.0, n), T::div_m(T::neg_m(a.1), n))
}

/// Model of `a` raised to the power `n`: `n` multiplications starting from
/// the multiplicative identity.
pub open spec fn cpow_m<T: Scalar>(a: (int, int), n: nat) -> (int, int)
    decreases n,
{
    if n == 0 {
        (1int, 0int)
    } else {
        cmul_m::<T>(cpow_m::<T>(a, (n - 1) as nat), a)
    }
}

impl<T: Scalar> Complex<T> {
    /// The pair of component models.
    pub open spec fn m(&self) -> (int, int) {
        (self.re.m(), self.im.m())
    }

    /// Create a new Complex.
    pub fn new(re: T, im: T) -> (r: Complex<T>)
        ensures
            r.m() == (re.m(), im.m()),
    {
        Complex { re, im }
    }

    /// The square of the norm, `re*re + im*im`; preferred over the norm for
    /// threshold comparisons since it needs no square root.
    pub fn norm_sqr(&self) -> (r: T)
        ensures
            r.m() == cnorm_sqr_m::<T>(self.m()),
    {
        self.re.mul(self.re).add(self.im.mul(self.im))
    }

    /// The norm: the square root of the squared norm, in the scalar's own
    /// square-root semantics.
    pub fn norm(&self) -> (r: T)
        ensures
            r.m() == T::sqrt_m(cnorm_sqr_m::<T>(self.m())),
    {
        self.norm_sqr().sqrt()
    }

    /// The complex conjugate, `re - i*im`.
    pub fn conj(&self) -> (r: Complex<T>)
        ensures
            r.m() == cconj_m::<T>(self.m()),
    {
        Complex::new(self.re, self.im.neg())
    }

    /// Multiplies `self` by the scalar `t`.
    pub fn scale(&self, t: T) -> (r: Complex<T>)
        ensures
            r.m() == cscale_m::<T>(self.m(), t.m()),
    {
        Complex::new(self.re.mul(t), self.im.mul(t))
    }

    /// Divides `self` by the scalar `t`.
    pub fn unscale(&self, t: T) -> (r: Complex<T>)
        ensures
            r.m() == cunscale_m::<T>(self.m(), t.m()),
    {
        Complex::new(self.re.div(t), self.im.div(t))
    }

    /// The reciprocal `1/self`: the conjugate divided by the squared norm.
    pub fn inv(&self) -> (r: Complex<T>)
        ensures
            r.m() == cinv_m::<T>(self.m()),
    {
        let norm_sqr = self.norm_sqr();
        Complex::new(self.re.div(norm_sqr), self.im.neg().div(norm_sqr))
    }

    /// `self` raised to the power `deg` by repeated multiplication starting
    /// from the multiplicative identity; `deg == 0` gives `1 + 0i` for every
    /// base, the origin included.
    pub fn pow(&self, deg: usize) -> (r: Complex<T>)
        ensures
            r.m() == cpow_m::<T>(self.m(), deg as nat),
    {
        let mut out = Complex::new(T::of_int(1), T::of_int(0));
        let mut k: usize = 0;
        while k < deg
            invariant
                k <= deg,
                out.m() == cpow_m::<T>(self.m(), k as nat),
            decreases deg - k,
        {
            out = out.mul(self);
            k = k + 1;
        }
        out
    }

    /// Component-wise sum.
    pub fn add(&self, other: &Complex<T>) -> (r: Complex<T>)
        ensures
            r.m() == cadd_m::<T>(self.m(), other.m()),
    {
        Complex::new(self.re.add(other.re), self.im.add(other.im))
    }

    /// Component-wise difference.
    pub fn sub(&self, other: &Complex<T>) -> (r: Complex<T>)
        ensures
            r.m() == csub_m::<T>(self.m(), other.m()),
    {
        Complex::new(self.re.sub(other.re), self.im.sub(other.im))
    }

    /// The product `(a + i b) * (c + i d) == (a*c - b*d) + i*(a*d + b*c)`.
    pub fn mul(&self, other: &Complex<T>) -> (r: Complex<T>)
        ensures
            r.m() == cmul_m::<T>(self.m(), other.m()),
    {
        Complex::new(
            self.re.mul(other.re).sub(self.im.mul(other.im)),
            self.re.mul(other.im).add(self.im.mul(other.re)),
        )
    }

    /// The quotient: multiply by the conjugate of `other` and divide both
    /// components by the squared norm of `other`. With a zero `other` the
    /// scalar's own division-by-zero semantics decides the components.
    pub fn div(&self, other: &Complex<T>) -> (r: Complex<T>)
        ensures
            r.m() == cdiv_m::<T>(self.m(), other.m()),
    {
        let norm_sqr = other.norm_sqr();
        Complex::new(
            self.re.mul(other.re).add(self.im.mul(other.im)).div(norm_sqr),
            self.im.mul(other.re).sub(self.re.mul(other.im)).div(norm_sqr),
        )
    }

    /// Component-wise negation.
    pub fn neg(&self) -> (r: Complex<T>)
        ensures
            r.m() == cneg_m::<T>(self.m()),
    {
        Complex::new(self.re.neg(), self.im.neg())
    }
}

/// Whether `v` lies in the `i64` range, so that saturating `i64` arithmetic
/// on it is exact.
pub open spec fn in_i64(v: int) -> bool {
    i64::MIN as int <= v <= i64::MAX as int
}

/// Raising any complex value to the zeroth power gives the multiplicative
/// identity `1 + 0i`, for every scalar and every base, the origin included.
pub proof fn lemma_pow_zero<T: Scalar>(a: (int, int))
    ensures
        cpow_m::<T>(a, 0) == (1int, 0int),
{
}

/// Over the `i64` scalar, dividing a product by one of its factors gives the
/// other factor back exactly: `(a*b) / b == a` whenever `b` is not zero and
/// no intermediate value saturates.
pub proof fn lemma_mul_div_cancel(a: (int, int), b: (int, int))
    requires
        b != (0int, 0int),
        in_i64(a.0) && in_i64(a.1) && in_i64(b.0) && in_i64(b.1),
        in_i64(a.0 * b.0) && in_i64(a.1 * b.1) && in_i64(a.0 * b.1) && in_i64(a.1 * b.0),
        in_i64(a.0 * b.0 - a.1 * b.1) && in_i64(a.0 * b.1 + a.1 * b.0),
        in_i64(b.0 * b.0) && in_i64(b.1 * b.1) && in_i64(b.0 * b.0 + b.1 * b.1),
        in_i64((a.0 * b.0 - a.1 * b.1) * b.0) && in_i64((a.0 * b.1 + a.1 * b.0) * b.1),
        in_i64((a.0 * b.1 + a.1 * b.0) * b.0) && in_i64((a.0 * b.0 - a.1 * b.1) * b.1),
        in_i64(a.0 * (b.0 * b.0 + b.1 * b.1)) && in_i64(a.1 * (b.0 * b.0 + b.1 * b.1)),
    ensures
        cdiv_m::<i64>(cmul_m::<i64>(a, b), b) == a,
{
    let n = b.0 * b.0 + b.1 * b.1;
    assert(n > 0) by (nonlinear_arith)
        requires
            b.0 != 0 || b.1 != 0,
            n == b.0 * b.0 + b.1 * b.1,
    ;
    let p = cmul_m::<i64>(a, b);
    assert(p.0 == a.0 * b.0 - a.1 * b.1);
    assert(p.1 == a.0 * b.1 + a.1 * b.0);
    assert(cnorm_sqr_m::<i64>(b) == n);
    assert(p.0 * b.0 + p.1 * b.1 == a.0 * n) by (nonlinear_arith)
        requires
            p.0 == a.0 * b.0 - a.1 * b.1,
            p.1 == a.0 * b.1 + a.1 * b.0,
            n == b.0 * b.0 + b.1 * b.1,
    ;
    assert(p.1 * b.0 - p.0 * b.1 == a.1 * n) by (nonlinear_arith)
        requires
            p.0 == a.0 * b.0 - a.1 * b.1,
            p.1 == a.0 * b.1 + a.1 * b.0,
            n == b.0 * b.0 + b.1 * b.1,
    ;
    lemma_trunc_div_exact(a.0, n);
    lemma_trunc_div_exact(a.1, n);
    assert(cdiv_m::<i64>(p, b).0 == a.0);
    assert(cdiv_m::<i64>(p, b).1 == a.1);
}

/// Truncating division returns an exact multiple's factor: for positive `n`,
/// `trunc_div(x * n, n) == x`.
proof fn lemma_trunc_div_exact(x: int, n: int)
    requires
        n > 0,
    ensures
        trunc_div(x * n, n) == x,
{
    if x == 0 {
        assert(trunc_div(0 * n, n) == 0);
    } else if x > 0 {
        assert(x * n > 0) by (nonlinear_arith)
            requires
                x > 0,
                n > 0,
        ;
        lemma_div_multiples_vanish(x, n);
        assert((n * x) / n == x);
        assert(x * n == n * x) by (nonlinear_arith);
    } else {
        assert(x * n < 0) by (nonlinear_arith)
            requires
                x < 0,
                n > 0,
        ;
        assert((x * n) * -1 == (-x) * n) by (nonlinear_arith);
        lemma_div_multiples_vanish(-x, n);
        assert((n * -x) / n == -x);
        assert((-x) * n == n * -x) by (nonlinear_arith);
        assert(trunc_div(x * n, n) == (((x * n) * -1) / n) * -1);
    }
}

/// Over the `i64` scalar, a complex value of squared norm one times its
/// reciprocal is exactly the multiplicative identity. (Squared norm one is
/// also the only case in which the reciprocal's integer divisions are exact:
/// if the squared norm divides both components, it divides their squares'
/// sum, which is itself, so it is one.)
pub proof fn lemma_mul_inv_unit(a: (int, int))
    requires
        in_i64(a.0) && in_i64(a.1),
        cnorm_sqr_m::<i64>(a) == 1,
    ensures
        cmul_m::<i64>(a, cinv_m::<i64>(a)) == (1int, 0int),
{
    assert(a.0 * a.0 >= 0 && a.1 * a.1 >= 0) by (nonlinear_arith);
    if clip(a.0 * a.0) + clip(a.1 * a.1) > i64::MAX as int {
        assert(cnorm_sqr_m::<i64>(a) == i64::MAX as int);
        assert(false);
    }
    assert(clip(a.0 * a.0) + clip(a.1 * a.1) == 1);
    if clip(a.0 * a.0) == 1 {
        assert(clip(a.1 * a.1) == 0);
        assert(a.1 * a.1 == 0);
        assert(a.1 == 0) by (nonlinear_arith)
            requires
                a.1 * a.1 == 0,
        ;
        assert(a.0 * a.0 == 1);
        assert(a.0 == 1 || a.0 == -1) by (nonlinear_arith)
            requires
                a.0 * a.0 == 1,
        ;
    } else {
        assert(clip(a.0 * a.0) == 0 && clip(a.1 * a.1) == 1);
        assert(a.0 * a.0 == 0);
        assert(a.0 == 0) by (nonlinear_arith)
            requires
                a.0 * a.0 == 0,
        ;
        assert(a.1 * a.1 == 1);
        assert(a.1 == 1 || a.1 == -1) by (nonlinear_arith)
            requires
                a.1 * a.1 == 1,
        ;
    }
    if a.0 == 1 && a.1 == 0 {
        assert(cmul_m::<i64>(a, cinv_m::<i64>(a)) == (1int, 0int));
    } else if a.0 == -1 && a.1 == 0 {
        assert(cmul_m::<i64>(a, cinv_m::<i64>(a)) == (1int, 0int));
    } else if a.0 == 0 && a.1 == 1 {
        assert(cmul_m::<i64>(a, cinv_m::<i64>(a)) == (1int, 0int));
    } else {
        assert(a.0 == 0 && a.1 == -1);
        assert(cmul_m::<i64>(a, cinv_m::<i64>(a)) == (1int, 0int));
    }
}

} // verus!
