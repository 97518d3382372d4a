//! A complex-valued polynomial with scalar coefficients.
//!
//! The first coefficient is the constant term; the coefficient at index `k`
//! belongs to degree `k`. A polynomial holds at least one coefficient: an
//! empty coefficient sequence is invalid input. Evaluation uses Horner's rule
//! over complex arguments, with an explicit branch for the exact origin,
//! which returns the constant term directly.

use vstd::prelude::*;
use crate::scalar::Scalar;
use crate::complex::Complex;
use crate::complex::cadd_m;
use crate::complex::cmul_m;

verus! {

/// A polynomial over the scalar `T`, evaluated at complex points.
pub struct CPolynomial<T: Scalar> {
    coeff: Vec<T>,
}

/// The models of a sequence of scalars.
pub open spec fn seq_m<T: Scalar>(s: Seq<T>) -> Seq<int> {
    s.map(|i: int, c: T| c.m())
}

/// The coefficient at index `i`, taking indices past the end as zero.
pub open spec fn padded(s: Seq<int>, i: int) -> int {
    if 0 <= i < s.len() {
        s[i]
    } else {
        0int
    }
}

/// The coefficient the sum of two polynomials has at index `i`: the
/// coefficient-wise sum where both operands reach, and the longer operand's
/// own coefficient past the shorter one's end.
pub open spec fn padd_m<T: Scalar>(p: Seq<int>, q: Seq<int>, i: int) -> int {
    if i < p.len() && i < q.len() {
        T::add_m(p[i], q[i])
    } else if i < p.len() {
        p[i]
    } else {
        q[i]
    }
}

/// The coefficient the difference of two polynomials has at index `i`: the
/// coefficient-wise difference where both operands reach; past an end, the
/// left operand's coefficient stands, the right operand's is negated.
pub open spec fn psub_m<T: Scalar>(p: Seq<int>, q: Seq<int>, i: int) -> int {
    if i < p.len() && i < q.len() {
        T::sub_m(p[i], q[i])
    } else if i < p.len() {
        p[i]
    } else {
        T::neg_m(q[i])
    }
}

/// The first `j` terms of the degree-`k` convolution coefficient, folded left
/// to right: the sum over `i < j` of `p[i] * q[k - i]`, entries past either
/// end taken as zero.
pub open spec fn conv_partial_m<T: Scalar>(p: Seq<int>, q: Seq<int>, k: int, j: nat) -> int
    decreases j,
{
    if j == 0 {
        0int
    } else {
        T::add_m(
            conv_partial_m::<T>(p, q, k, (j - 1) as nat),
            T::mul_m(padded(p, j - 1), padded(q, k - (j - 1))),
        )
    }
}

/// The degree-`k` coefficient of the product of two polynomials: the full
/// convolution sum at `k`.
pub open spec fn conv_m<T: Scalar>(p: Seq<int>, q: Seq<int>, k: int) -> int {
    conv_partial_m::<T>(p, q, k, (k + 1) as nat)
}

/// Horner's fold over the coefficients from the highest degree down to the
/// constant term: each step multiplies the accumulator by `x` and adds the
/// next coefficient as a complex value with zero imaginary part.
pub open spec fn horner_m<T: Scalar>(s: Seq<int>, x: (int, int)) -> (int, int)
    decreases s.len(),
{
    if s.len() == 0 {
        (0int, 0int)
    } else {
        cadd_m::<T>(cmul_m::<T>(horner_m::<T>(s.drop_first(), x), x), (s[0], 0int))
    }
}

/// What evaluation returns: at the exact origin, the constant term directly;
/// anywhere else, Horner's fold.
pub open spec fn eval_m<T: Scalar>(s: Seq<int>, x: (int, int)) -> (int, int) {
    if x == (0int, 0int) {
        (s[0], 0int)
    } else {
        horner_m::<T>(s, x)
    }
}

impl<T: Scalar> CPolynomial<T> {
    /// The models of the coefficients, constant term first.
    pub closed spec fn m(&self) -> Seq<int> {
        seq_m(self.coeff@)
    }

    /// A polynomial holds at least one coefficient.
    pub closed spec fn wf(&self) -> bool {
        self.coeff@.len() > 0
    }

    /// Wrap a coefficient vector, constant term first. The vector must not be
    /// empty: a constant polynomial has one coefficient.
    pub fn new(v: Vec<T>) -> (r: CPolynomial<T>)
        requires
            v@.len() > 0,
        ensures
            r.wf(),
            r.m() == seq_m(v@),
    {
        CPolynomial { coeff: v }
    }

    /// The coefficients, constant term first.
    pub fn coeffs(&self) -> (r: &Vec<T>)
        ensures
            seq_m(r@) == self.m(),
    {
        &self.coeff
    }

    /// Evaluate at the complex point `x` by Horner's rule; at the exact
    /// origin the constant term is returned directly instead, with a zero
    /// imaginary part.
    pub fn eval(&self, x: Complex<T>) -> (r: Complex<T>)
        requires
            self.wf(),
        ensures
            r.m() == eval_m::<T>(self.m(), x.m()),
    {
        if x.re.is_zero() && x.im.is_zero() {
            return Complex::new(self.coeff[0], T::of_int(0));
        }
        let ghost s = self.m();
        let mut c = Complex::new(T::of_int(0), T::of_int(0));
        let mut i: usize = self.coeff.len();
        while i > 0
            invariant
                i <= self.coeff.len(),
                s == self.m(),
                s.len() == self.coeff@.len(),
                c.m() == horner_m::<T>(s.subrange(i as int, s.len() as int), x.m()),
            decreases i,
        {
            i = i - 1;
            let term = Complex::new(self.coeff[i], T::of_int(0));
            c = c.mul(&x).add(&term);
            proof {
                let tail = s.subrange(i + 1, s.len() as int);
                let cur = s.subrange(i as int, s.len() as int);
                assert(cur.drop_first() =~= tail);
                assert(cur[0] == s[i as int]);
            }
        }
        proof {
            assert(s.subrange(0, s.len() as int) =~= s);
        }
        c
    }

    /// The coefficient-wise sum, sized to the longer operand; the shorter
    /// operand contributes zero for the missing high-degree terms.
    pub fn add(&self, other: &CPolynomial<T>) -> (r: CPolynomial<T>)
        requires
            self.wf(),
            other.wf(),
        ensures
            r.wf(),
            r.m().len() == vstd::math::max(self.m().len() as int, other.m().len() as int),
            forall|i: int|
                0 <= i < r.m().len() ==> r.m()[i] == padd_m::<T>(self.m(), other.m(), i),
    {
        let mut new_coeff: Vec<T> = Vec::new();
        if self.coeff.len() < other.coeff.len() {
            let mut i: usize = 0;
            while i < self.coeff.len()
                invariant
                    i <= self.coeff@.len(),
                    self.coeff@.len() < other.coeff@.len(),
                    new_coeff@.len() == i,
                    forall|j: int|
                        0 <= j < i ==> new_coeff@[j].m() == padd_m::<T>(
                            self.m(),
                            other.m(),
                            j,
                        ),
                decreases self.coeff@.len() - i,
            {
                new_coeff.push(self.coeff[i].add(other.coeff[i]));
                i = i + 1;
            }
            while i < other.coeff.len()
                invariant
                    self.coeff@.len() <= i <= other.coeff@.len(),
                    new_coeff@.len() == i,
                    forall|j: int|
                        0 <= j < i ==> new_coeff@[j].m() == padd_m::<T>(
                            self.m(),
                            other.m(),
                            j,
                        ),
                decreases other.coeff@.len() - i,
            {
                new_coeff.push(other.coeff[i]);
                i = i + 1;
            }
        } else {
            let mut i: usize = 0;
            while i < other.coeff.len()
                invariant
                    i <= other.coeff@.len(),
                    other.coeff@.len() <= self.coeff@.len(),
                    new_coeff@.len() == i,
                    forall|j: int|
                        0 <= j < i ==> new_coeff@[j].m() == padd_m::<T>(
                            self.m(),
                            other.m(),
                            j,
                        ),
                decreases other.coeff@.len() - i,
            {
                new_coeff.push(self.coeff[i].add(other.coeff[i]));
                i = i + 1;
            }
            while i < self.coeff.len()
                invariant
                    other.coeff@.len() <= i <= self.coeff@.len(),
                    new_coeff@.len() == i,
                    forall|j: int|
                        0 <= j < i ==> new_coeff@[j].m() == padd_m::<T>(
                            self.m(),
                            other.m(),
                            j,
                        ),
                decreases self.coeff@.len() - i,
            {
                new_coeff.push(self.coeff[i]);
                i = i + 1;
            }
        }
        CPolynomial { coeff: new_coeff }
    }

    /// The coefficient-wise difference, sized to the longer operand; where
    /// only `other` reaches, its coefficient is negated.
    pub fn sub(&self, other: &CPolynomial<T>) -> (r: CPolynomial<T>)
        requires
            self.wf(),
            other.wf(),
        ensures
            r.wf(),
            r.m().len() == vstd::math::max(self.m().len() as int, other.m().len() as int),
            forall|i: int|
                0 <= i < r.m().len() ==> r.m()[i] == psub_m::<T>(self.m(), other.m(), i),
    {
        let mut new_coeff: Vec<T> = Vec::new();
        if self.coeff.len() < other.coeff.len() {
            let mut i: usize = 0;
            while i < self.coeff.len()
                invariant
                    i <= self.coeff@.len(),
                    self.coeff@.len() < other.coeff@.len(),
                    new_coeff@.len() == i,
                    forall|j: int|
                        0 <= j < i ==> new_coeff@[j].m() == psub_m::<T>(
                            self.m(),
                            other.m(),
                            j,
                        ),
                decreases self.coeff@.len() - i,
            {
                new_coeff.push(self.coeff[i].sub(other.coeff[i]));
                i = i + 1;
            }
            while i < other.coeff.len()
                invariant
                    self.coeff@.len() <= i <= other.coeff@.len(),
                    new_coeff@.len() == i,
                    forall|j: int|
                        0 <= j < i ==> new_coeff@[j].m() == psub_m::<T>(
                            self.m(),
                            other.m(),
                            j,
                        ),
                decreases other.coeff@.len() - i,
            {
                new_coeff.push(other.coeff[i].neg());
                i = i + 1;
            }
        } else {
            let mut i: usize = 0;
            while i < other.coeff.len()
                invariant
                    i <= other.coeff@.len(),
                    other.coeff@.len() <= self.coeff@.len(),
                    new_coeff@.len() == i,
                    forall|j: int|
                        0 <= j < i ==> new_coeff@[j].m() == psub_m::<T>(
                            self.m(),
                            other.m(),
                            j,
                        ),
                decreases other.coeff@.len() - i,
            {
                new_coeff.push(self.coeff[i].sub(other.coeff[i]));
                i = i + 1;
            }
            while i < self.coeff.len()
                invariant
                    other.coeff@.len() <= i <= self.coeff@.len(),
                    new_coeff@.len() == i,
                    forall|j: int|
                        0 <= j < i ==> new_coeff@[j].m() == psub_m::<T>(
                            self.m(),
                            other.m(),
                            j,
                        ),
                decreases self.coeff@.len() - i,
            {
                new_coeff.push(self.coeff[i]);
                i = i + 1;
            }
        }
        CPolynomial { coeff: new_coeff }
    }

    /// The product by true convolution: the degree of the result is the sum
    /// of the operands' degrees, and the coefficient at index `k` is the sum
    /// over `i` of `p[i] * q[k - i]`.
    pub fn mul(&self, other: &CPolynomial<T>) -> (r: CPolynomial<T>)
        requires
            self.wf(),
            other.wf(),
            self.m().len() + other.m().len() - 1 <= usize::MAX,
        ensures
            r.wf(),
            r.m().len() == self.m().len() + other.m().len() - 1,
            forall|k: int|
                0 <= k < r.m().len() ==> r.m()[k] == conv_m::<T>(self.m(), other.m(), k),
    {
        let lp = self.coeff.len();
        let lq = other.coeff.len();
        let out_len = lp - 1 + lq;
        let mut new_coeff: Vec<T> = Vec::new();
        let mut k: usize = 0;
        while k < out_len
            invariant
                k <= out_len,
                out_len == self.coeff@.len() + other.coeff@.len() - 1,
                lp == self.coeff@.len(),
                lq == other.coeff@.len(),
                new_coeff@.len() == k,
                forall|j: int|
                    0 <= j < k ==> new_coeff@[j].m() == conv_m::<T>(self.m(), other.m(), j),
            decreases out_len - k,
        {
            let mut acc = T::of_int(0);
            let mut i: usize = 0;
            while i <= k
                invariant
                    i <= k + 1,
                    k < out_len,
                    out_len == self.coeff@.len() + other.coeff@.len() - 1,
                    lp == self.coeff@.len(),
                    lq == other.coeff@.len(),
                    acc.m() == conv_partial_m::<T>(self.m(), other.m(), k as int, i as nat),
                decreases k + 1 - i,
            {
                let pi = if i < lp {
                    self.coeff[i]
                } else {
                    T::of_int(0)
                };
                let qj = if k - i < lq {
                    other.coeff[k - i]
                } else {
                    T::of_int(0)
                };
                acc = acc.add(pi.mul(qj));
                i = i + 1;
            }
            new_coeff.push(acc);
            k = k + 1;
        }
        CPolynomial { coeff: new_coeff }
    }
}

/// Evaluating any non-empty polynomial at the exact origin yields exactly the
/// constant term, with a zero imaginary part, over every scalar.
pub proof fn lemma_eval_at_origin<T: Scalar>(s: Seq<int>)
    requires
        s.len() > 0,
    ensures
        eval_m::<T>(s, (0int, 0int)) == (s[0], 0int),
{
}

/// Subtracting a polynomial from itself yields all-zero coefficients over the
/// `i64` scalar.
pub proof fn lemma_sub_self_zero(s: Seq<int>)
    ensures
        forall|i: int| 0 <= i < s.len() ==> psub_m::<i64>(s, s, i) == 0,
{
}

} // verus!
