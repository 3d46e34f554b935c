//! Coefficient-first polynomials (highest power first), with the
//! degree-1 by degree-1 product that yields a degree-2 polynomial.

use vstd::prelude::*;
use vstd::arithmetic::div_mod::{lemma_add_mod_noop, lemma_mul_mod_noop_general,
    lemma_mul_mod_noop_left, lemma_small_mod};
use crate::algebra::{fadd, fmul, lemma_horner_step_add, p};
use crate::field::FieldElement;

verus! {

/// `a x + b`
#[derive(Clone, Copy, Debug)]
pub struct LinearPoly {
    pub a: FieldElement,
    pub b: FieldElement,
}

/// `a x^2 + b x + c`
#[derive(Clone, Copy, Debug)]
pub struct QuadraticPoly {
    pub a: FieldElement,
    pub b: FieldElement,
    pub c: FieldElement,
}

/// `a x^5 + b x^4 + c x^3 + d x^2 + e x + f`
#[derive(Clone, Copy, Debug)]
pub struct QuintuplePoly {
    pub a: FieldElement,
    pub b: FieldElement,
    pub c: FieldElement,
    pub d: FieldElement,
    pub e: FieldElement,
    pub f: FieldElement,
}

impl LinearPoly {
    pub open spec fn valid(self) -> bool {
        self.a.valid() && self.b.valid()
    }

    pub open spec fn eval_spec(self, x: nat) -> nat {
        fadd(fmul(self.a.as_nat(), x), self.b.as_nat())
    }

    pub fn new(a: FieldElement, b: FieldElement) -> (r: Self)
        ensures
            r.a == a,
            r.b == b,
    {
        LinearPoly { a, b }
    }

    pub fn eval(&self, x: &FieldElement) -> (r: FieldElement)
        requires
            self.valid(),
            x.valid(),
        ensures
            r.valid(),
            r.as_nat() == self.eval_spec(x.as_nat()),
    {
        self.a.mul(x).add(&self.b)
    }

    pub fn add(self, rhs: Self) -> (r: Self)
        requires
            self.valid(),
            rhs.valid(),
        ensures
            r.valid(),
            r.a.as_nat() == fadd(self.a.as_nat(), rhs.a.as_nat()),
            r.b.as_nat() == fadd(self.b.as_nat(), rhs.b.as_nat()),
    {
        LinearPoly { a: self.a.add(&rhs.a), b: self.b.add(&rhs.b) }
    }

    pub fn add_assign(&mut self, rhs: Self)
        requires
            old(self).valid(),
            rhs.valid(),
        ensures
            final(self).valid(),
            final(self).a.as_nat() == fadd(old(self).a.as_nat(), rhs.a.as_nat()),
            final(self).b.as_nat() == fadd(old(self).b.as_nat(), rhs.b.as_nat()),
    {
        *self = self.add(rhs);
    }

    /// `(a1 x + b1)(a2 x + b2) = (a1 a2) x^2 + (a1 b2 + a2 b1) x + b1 b2`
    pub fn mul(self, rhs: Self) -> (r: QuadraticPoly)
        requires
            self.valid(),
            rhs.valid(),
        ensures
            r.valid(),
            r.a.as_nat() == fmul(self.a.as_nat(), rhs.a.as_nat()),
            r.b.as_nat() == fadd(
                fmul(self.a.as_nat(), rhs.b.as_nat()),
                fmul(rhs.a.as_nat(), self.b.as_nat()),
            ),
            r.c.as_nat() == fmul(self.b.as_nat(), rhs.b.as_nat()),
    {
        QuadraticPoly {
            a: self.a.mul(&rhs.a),
            b: self.a.mul(&rhs.b).add(&rhs.a.mul(&self.b)),
            c: self.b.mul(&rhs.b),
        }
    }
}

/// Law: the degree-2 polynomial that `mul` builds evaluates to the
/// product of its two degree-1 factors' values at every point.
pub proof fn lemma_linear_poly_mul_eval(p1: LinearPoly, p2: LinearPoly, q: QuadraticPoly, x: nat)
    requires
        p1.valid(),
        p2.valid(),
        q.a.as_nat() == fmul(p1.a.as_nat(), p2.a.as_nat()),
        q.b.as_nat() == fadd(
            fmul(p1.a.as_nat(), p2.b.as_nat()),
            fmul(p2.a.as_nat(), p1.b.as_nat()),
        ),
        q.c.as_nat() == fmul(p1.b.as_nat(), p2.b.as_nat()),
    ensures
        q.eval_spec(x) == fmul(p1.eval_spec(x), p2.eval_spec(x)),
{
    let pi = p() as int;
    let a1 = p1.a.as_nat();
    let b1 = p1.b.as_nat();
    let a2 = p2.a.as_nat();
    let b2 = p2.b.as_nat();
    lemma_mul_mod_noop_left((a1 * a2) as int, x as int, pi);
    lemma_add_mod_noop((a1 * b2) as int, (a2 * b1) as int, pi);
    lemma_add_mod_noop((a1 * a2 * x) as int, (a1 * b2 + a2 * b1) as int, pi);
    lemma_mul_mod_noop_left((a1 * a2 * x + (a1 * b2 + a2 * b1)) as int, x as int, pi);
    lemma_add_mod_noop(((a1 * a2 * x + (a1 * b2 + a2 * b1)) * x) as int, (b1 * b2) as int, pi);
    lemma_small_mod(b1, p());
    lemma_small_mod(b2, p());
    lemma_add_mod_noop((a1 * x) as int, b1 as int, pi);
    lemma_add_mod_noop((a2 * x) as int, b2 as int, pi);
    lemma_mul_mod_noop_general((a1 * x + b1) as int, (a2 * x + b2) as int, pi);
    assert(((a1 * a2 * x + (a1 * b2 + a2 * b1)) * x + b1 * b2) as int == ((a1 * x + b1) * (a2 * x
        + b2)) as int) by (nonlinear_arith);
}

/// Law: adding these degree-1 polynomials coefficient-wise adds their
/// values at every point.
pub proof fn lemma_linear_poly_add_eval(p1: LinearPoly, p2: LinearPoly, s: LinearPoly, x: nat)
    requires
        s.a.as_nat() == fadd(p1.a.as_nat(), p2.a.as_nat()),
        s.b.as_nat() == fadd(p1.b.as_nat(), p2.b.as_nat()),
    ensures
        s.eval_spec(x) == fadd(p1.eval_spec(x), p2.eval_spec(x)),
{
    lemma_horner_step_add(p1.a.as_nat(), p2.a.as_nat(), p1.b.as_nat(), p2.b.as_nat(), x);
}

impl QuadraticPoly {
    pub open spec fn valid(self) -> bool {
        self.a.valid() && self.b.valid() && self.c.valid()
    }

    pub open spec fn eval_spec(self, x: nat) -> nat {
        fadd(fmul(fadd(fmul(self.a.as_nat(), x), self.b.as_nat()), x), self.c.as_nat())
    }

    pub fn new(a: FieldElement, b: FieldElement, c: FieldElement) -> (r: Self)
        ensures
            r.a == a,
            r.b == b,
            r.c == c,
    {
        QuadraticPoly { a, b, c }
    }

    pub fn eval(&self, x: &FieldElement) -> (r: FieldElement)
        requires
            self.valid(),
            x.valid(),
        ensures
            r.valid(),
            r.as_nat() == self.eval_spec(x.as_nat()),
    {
        self.a.mul(x).add(&self.b).mul(x).add(&self.c)
    }

    pub fn add(self, rhs: Self) -> (r: Self)
        requires
            self.valid(),
            rhs.valid(),
        ensures
            r.valid(),
            r.a.as_nat() == fadd(self.a.as_nat(), rhs.a.as_nat()),
            r.b.as_nat() == fadd(self.b.as_nat(), rhs.b.as_nat()),
            r.c.as_nat() == fadd(self.c.as_nat(), rhs.c.as_nat()),
    {
        QuadraticPoly { a: self.a.add(&rhs.a), b: self.b.add(&rhs.b), c: self.c.add(&rhs.c) }
    }

    pub fn add_assign(&mut self, rhs: Self)
        requires
            old(self).valid(),
            rhs.valid(),
        ensures
            final(self).valid(),
            final(self).a.as_nat() == fadd(old(self).a.as_nat(), rhs.a.as_nat()),
            final(self).b.as_nat() == fadd(old(self).b.as_nat(), rhs.b.as_nat()),
            final(self).c.as_nat() == fadd(old(self).c.as_nat(), rhs.c.as_nat()),
    {
        *self = self.add(rhs);
    }
}

/// Law: adding these degree-2 polynomials coefficient-wise adds their
/// values at every point.
pub proof fn lemma_quadratic_poly_add_eval(
    p1: QuadraticPoly,
    p2: QuadraticPoly,
    s: QuadraticPoly,
    x: nat,
)
    requires
        s.a.as_nat() == fadd(p1.a.as_nat(), p2.a.as_nat()),
        s.b.as_nat() == fadd(p1.b.as_nat(), p2.b.as_nat()),
        s.c.as_nat() == fadd(p1.c.as_nat(), p2.c.as_nat()),
    ensures
        s.eval_spec(x) == fadd(p1.eval_spec(x), p2.eval_spec(x)),
{
    let h1a = fadd(fmul(p1.a.as_nat(), x), p1.b.as_nat());
    let h1b = fadd(fmul(p2.a.as_nat(), x), p2.b.as_nat());
    lemma_horner_step_add(p1.a.as_nat(), p2.a.as_nat(), p1.b.as_nat(), p2.b.as_nat(), x);
    lemma_horner_step_add(h1a, h1b, p1.c.as_nat(), p2.c.as_nat(), x);
}

impl QuintuplePoly {
    pub open spec fn valid(self) -> bool {
        self.a.valid() && self.b.valid() && self.c.valid() && self.d.valid() && self.e.valid()
            && self.f.valid()
    }

    pub open spec fn eval_spec(self, x: nat) -> nat {
        fadd(
            fmul(
                fadd(
                    fmul(
                        fadd(
                            fmul(
                                fadd(
                                    fmul(fadd(fmul(self.a.as_nat(), x), self.b.as_nat()), x),
                                    self.c.as_nat(),
                                ),
                                x,
                            ),
                            self.d.as_nat(),
                        ),
                        x,
                    ),
                    self.e.as_nat(),
                ),
                x,
            ),
            self.f.as_nat(),
        )
    }

    pub fn new(
        a: FieldElement,
        b: FieldElement,
        c: FieldElement,
        d: FieldElement,
        e: FieldElement,
        f: FieldElement,
    ) -> (r: Self)
        ensures
            r.a == a,
            r.b == b,
            r.c == c,
            r.d == d,
            r.e == e,
            r.f == f,
    {
        QuintuplePoly { a, b, c, d, e, f }
    }

    pub fn eval(&self, x: &FieldElement) -> (r: FieldElement)
        requires
            self.valid(),
            x.valid(),
        ensures
            r.valid(),
            r.as_nat() == self.eval_spec(x.as_nat()),
    {
        self.a.mul(x).add(&self.b).mul(x).add(&self.c).mul(x).add(&self.d).mul(x).add(
            &self.e,
        ).mul(x).add(&self.f)
    }

    pub fn add(self, rhs: Self) -> (r: Self)
        requires
            self.valid(),
            rhs.valid(),
        ensures
            r.valid(),
            r.a.as_nat() == fadd(self.a.as_nat(), rhs.a.as_nat()),
            r.b.as_nat() == fadd(self.b.as_nat(), rhs.b.as_nat()),
            r.c.as_nat() == fadd(self.c.as_nat(), rhs.c.as_nat()),
            r.d.as_nat() == fadd(self.d.as_nat(), rhs.d.as_nat()),
            r.e.as_nat() == fadd(self.e.as_nat(), rhs.e.as_nat()),
            r.f.as_nat() == fadd(self.f.as_nat(), rhs.f.as_nat()),
    {
        QuintuplePoly {
            a: self.a.add(&rhs.a),
            b: self.b.add(&rhs.b),
            c: self.c.add(&rhs.c),
            d: self.d.add(&rhs.d),
            e: self.e.add(&rhs.e),
            f: self.f.add(&rhs.f),
        }
    }

    pub fn add_assign(&mut self, rhs: Self)
        requires
            old(self).valid(),
            rhs.valid(),
        ensures
            final(self).valid(),
            final(self).a.as_nat() == fadd(old(self).a.as_nat(), rhs.a.as_nat()),
            final(self).b.as_nat() == fadd(old(self).b.as_nat(), rhs.b.as_nat()),
            final(self).c.as_nat() == fadd(old(self).c.as_nat(), rhs.c.as_nat()),
            final(self).d.as_nat() == fadd(old(self).d.as_nat(), rhs.d.as_nat()),
            final(self).e.as_nat() == fadd(old(self).e.as_nat(), rhs.e.as_nat()),
            final(self).f.as_nat() == fadd(old(self).f.as_nat(), rhs.f.as_nat()),
    {
        *self = self.add(rhs);
    }
}

/// Law: adding these degree-5 polynomials coefficient-wise adds their
/// values at every point.
pub proof fn lemma_quintuple_poly_add_eval(
    p1: QuintuplePoly,
    p2: QuintuplePoly,
    s: QuintuplePoly,
    x: nat,
)
    requires
        s.a.as_nat() == fadd(p1.a.as_nat(), p2.a.as_nat()),
        s.b.as_nat() == fadd(p1.b.as_nat(), p2.b.as_nat()),
        s.c.as_nat() == fadd(p1.c.as_nat(), p2.c.as_nat()),
        s.d.as_nat() == fadd(p1.d.as_nat(), p2.d.as_nat()),
        s.e.as_nat() == fadd(p1.e.as_nat(), p2.e.as_nat()),
        s.f.as_nat() == fadd(p1.f.as_nat(), p2.f.as_nat()),
    ensures
        s.eval_spec(x) == fadd(p1.eval_spec(x), p2.eval_spec(x)),
{
    let h1a = fadd(fmul(p1.a.as_nat(), x), p1.b.as_nat());
    let h1b = fadd(fmul(p2.a.as_nat(), x), p2.b.as_nat());
    let h2a = fadd(fmul(h1a, x), p1.c.as_nat());
    let h2b = fadd(fmul(h1b, x), p2.c.as_nat());
    let h3a = fadd(fmul(h2a, x), p1.d.as_nat());
    let h3b = fadd(fmul(h2b, x), p2.d.as_nat());
    let h4a = fadd(fmul(h3a, x), p1.e.as_nat());
    let h4b = fadd(fmul(h3b, x), p2.e.as_nat());
    lemma_horner_step_add(p1.a.as_nat(), p2.a.as_nat(), p1.b.as_nat(), p2.b.as_nat(), x);
    lemma_horner_step_add(h1a, h1b, p1.c.as_nat(), p2.c.as_nat(), x);
    lemma_horner_step_add(h2a, h2b, p1.d.as_nat(), p2.d.as_nat(), x);
    lemma_horner_step_add(h3a, h3b, p1.e.as_nat(), p2.e.as_nat(), x);
    lemma_horner_step_add(h4a, h4b, p1.f.as_nat(), p2.f.as_nat(), x);
}

} // verus!
