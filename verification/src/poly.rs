//! Fixed-degree dense polynomials over the field: Horner evaluation and
//! coefficient-wise addition, the carrier for per-round protocol messages.

use vstd::prelude::*;
use crate::algebra::{fadd, fmul, lemma_fadd_exchange, lemma_fmul_distrib, lemma_fmul_distrib_r,
    lemma_horner_step_add};
use crate::field::FieldElement;

verus! {

/// `a + b x`
#[derive(Clone, Copy, Debug)]
pub struct Linear {
    pub a: FieldElement,
    pub b: FieldElement,
}

/// `a + b x + c x^2`
#[derive(Clone, Copy, Debug)]
pub struct Quadratic {
    pub a: FieldElement,
    pub b: FieldElement,
    pub c: FieldElement,
}

/// `a + b x + c x^2 + d x^3`
#[derive(Clone, Copy, Debug)]
pub struct Cubic {
    pub a: FieldElement,
    pub b: FieldElement,
    pub c: FieldElement,
    pub d: FieldElement,
}

/// `a + b x + c x^2 + d x^3 + e x^4`
#[derive(Clone, Copy, Debug)]
pub struct Quadruple {
    pub a: FieldElement,
    pub b: FieldElement,
    pub c: FieldElement,
    pub d: FieldElement,
    pub e: FieldElement,
}

/// `a + b x + c x^2 + d x^3 + e x^4 + f x^5`
#[derive(Clone, Copy, Debug)]
pub struct Quintuple {
    pub a: FieldElement,
    pub b: FieldElement,
    pub c: FieldElement,
    pub d: FieldElement,
    pub e: FieldElement,
    pub f: FieldElement,
}

impl Linear {
    pub open spec fn valid(self) -> bool {
        self.a.valid() && self.b.valid()
    }

    pub open spec fn eval_spec(self, x: nat) -> nat {
        fadd(self.a.as_nat(), fmul(self.b.as_nat(), x))
    }

    pub fn eval(&self, x: &FieldElement) -> (r: FieldElement)
        requires
            self.valid(),
            x.valid(),
        ensures
            r.valid(),
            r.as_nat() == self.eval_spec(x.as_nat()),
    {
        self.a.add(&self.b.mul(x))
    }

    pub fn add(self, rhs: Self) -> (r: Self)
        requires
            self.valid(),
            rhs.valid(),
        ensures
            r.valid(),
            r.a.as_nat() == fadd(self.a.as_nat(), rhs.a.as_nat()),
            r.b.as_nat() == fadd(self.b.as_nat(), rhs.b.as_nat()),
    {
        Linear { a: self.a.add(&rhs.a), b: self.b.add(&rhs.b) }
    }

    pub fn add_assign(&mut self, rhs: Self)
        requires
            old(self).valid(),
            rhs.valid(),
        ensures
            final(self).valid(),
            final(self).a.as_nat() == fadd(old(self).a.as_nat(), rhs.a.as_nat()),
            final(self).b.as_nat() == fadd(old(self).b.as_nat(), rhs.b.as_nat()),
    {
        *self = self.add(rhs);
    }
}

/// Law: adding degree-1 polynomials coefficient-wise adds their values at
/// every point.
pub proof fn lemma_linear_add_eval(p1: Linear, p2: Linear, s: Linear, x: nat)
    requires
        s.a.as_nat() == fadd(p1.a.as_nat(), p2.a.as_nat()),
        s.b.as_nat() == fadd(p1.b.as_nat(), p2.b.as_nat()),
    ensures
        s.eval_spec(x) == fadd(p1.eval_spec(x), p2.eval_spec(x)),
{
    lemma_fmul_distrib_r(p1.b.as_nat(), p2.b.as_nat(), x);
    lemma_fadd_exchange(p1.a.as_nat(), p2.a.as_nat(), fmul(p1.b.as_nat(), x), fmul(
        p2.b.as_nat(),
        x,
    ));
}

impl Quadratic {
    pub open spec fn valid(self) -> bool {
        self.a.valid() && self.b.valid() && self.c.valid()
    }

    pub open spec fn eval_spec(self, x: nat) -> nat {
        fadd(self.a.as_nat(), fmul(x, fadd(self.b.as_nat(), fmul(self.c.as_nat(), x))))
    }

    pub fn eval(&self, x: &FieldElement) -> (r: FieldElement)
        requires
            self.valid(),
            x.valid(),
        ensures
            r.valid(),
            r.as_nat() == self.eval_spec(x.as_nat()),
    {
        self.a.add(&x.mul(&self.b.add(&self.c.mul(x))))
    }

    pub fn add(self, rhs: Self) -> (r: Self)
        requires
            self.valid(),
            rhs.valid(),
        ensures
            r.valid(),
            r.a.as_nat() == fadd(self.a.as_nat(), rhs.a.as_nat()),
            r.b.as_nat() == fadd(self.b.as_nat(), rhs.b.as_nat()),
            r.c.as_nat() == fadd(self.c.as_nat(), rhs.c.as_nat()),
    {
        Quadratic { a: self.a.add(&rhs.a), b: self.b.add(&rhs.b), c: self.c.add(&rhs.c) }
    }

    pub fn add_assign(&mut self, rhs: Self)
        requires
            old(self).valid(),
            rhs.valid(),
        ensures
            final(self).valid(),
            final(self).a.as_nat() == fadd(old(self).a.as_nat(), rhs.a.as_nat()),
            final(self).b.as_nat() == fadd(old(self).b.as_nat(), rhs.b.as_nat()),
            final(self).c.as_nat() == fadd(old(self).c.as_nat(), rhs.c.as_nat()),
    {
        *self = self.add(rhs);
    }
}

/// Law: adding degree-2 polynomials coefficient-wise adds their values at
/// every point.
pub proof fn lemma_quadratic_add_eval(p1: Quadratic, p2: Quadratic, s: Quadratic, x: nat)
    requires
        s.a.as_nat() == fadd(p1.a.as_nat(), p2.a.as_nat()),
        s.b.as_nat() == fadd(p1.b.as_nat(), p2.b.as_nat()),
        s.c.as_nat() == fadd(p1.c.as_nat(), p2.c.as_nat()),
    ensures
        s.eval_spec(x) == fadd(p1.eval_spec(x), p2.eval_spec(x)),
{
    let i1 = fadd(p1.b.as_nat(), fmul(p1.c.as_nat(), x));
    let i2 = fadd(p2.b.as_nat(), fmul(p2.c.as_nat(), x));
    lemma_fmul_distrib_r(p1.c.as_nat(), p2.c.as_nat(), x);
    lemma_fadd_exchange(p1.b.as_nat(), p2.b.as_nat(), fmul(p1.c.as_nat(), x), fmul(
        p2.c.as_nat(),
        x,
    ));
    lemma_fmul_distrib(x, i1, i2);
    lemma_fadd_exchange(p1.a.as_nat(), p2.a.as_nat(), fmul(x, i1), fmul(x, i2));
}

impl Cubic {
    pub open spec fn valid(self) -> bool {
        self.a.valid() && self.b.valid() && self.c.valid() && self.d.valid()
    }

    pub open spec fn eval_spec(self, x: nat) -> nat {
        fadd(
            fmul(
                fadd(fmul(fadd(fmul(self.d.as_nat(), x), self.c.as_nat()), x), self.b.as_nat()),
                x,
            ),
            self.a.as_nat(),
        )
    }

    pub fn eval(&self, x: &FieldElement) -> (r: FieldElement)
        requires
            self.valid(),
            x.valid(),
        ensures
            r.valid(),
            r.as_nat() == self.eval_spec(x.as_nat()),
    {
        self.d.mul(x).add(&self.c).mul(x).add(&self.b).mul(x).add(&self.a)
    }

    pub fn add(self, rhs: Self) -> (r: Self)
        requires
            self.valid(),
            rhs.valid(),
        ensures
            r.valid(),
            r.a.as_nat() == fadd(self.a.as_nat(), rhs.a.as_nat()),
            r.b.as_nat() == fadd(self.b.as_nat(), rhs.b.as_nat()),
            r.c.as_nat() == fadd(self.c.as_nat(), rhs.c.as_nat()),
            r.d.as_nat() == fadd(self.d.as_nat(), rhs.d.as_nat()),
    {
        Cubic {
            a: self.a.add(&rhs.a),
            b: self.b.add(&rhs.b),
            c: self.c.add(&rhs.c),
            d: self.d.add(&rhs.d),
        }
    }

    pub fn add_assign(&mut self, rhs: Self)
        requires
            old(self).valid(),
            rhs.valid(),
        ensures
            final(self).valid(),
            final(self).a.as_nat() == fadd(old(self).a.as_nat(), rhs.a.as_nat()),
            final(self).b.as_nat() == fadd(old(self).b.as_nat(), rhs.b.as_nat()),
            final(self).c.as_nat() == fadd(old(self).c.as_nat(), rhs.c.as_nat()),
            final(self).d.as_nat() == fadd(old(self).d.as_nat(), rhs.d.as_nat()),
    {
        *self = self.add(rhs);
    }
}

/// Law: adding degree-3 polynomials coefficient-wise adds their values at
/// every point.
pub proof fn lemma_cubic_add_eval(p1: Cubic, p2: Cubic, s: Cubic, x: nat)
    requires
        s.a.as_nat() == fadd(p1.a.as_nat(), p2.a.as_nat()),
        s.b.as_nat() == fadd(p1.b.as_nat(), p2.b.as_nat()),
        s.c.as_nat() == fadd(p1.c.as_nat(), p2.c.as_nat()),
        s.d.as_nat() == fadd(p1.d.as_nat(), p2.d.as_nat()),
    ensures
        s.eval_spec(x) == fadd(p1.eval_spec(x), p2.eval_spec(x)),
{
    let h1a = fadd(fmul(p1.d.as_nat(), x), p1.c.as_nat());
    let h1b = fadd(fmul(p2.d.as_nat(), x), p2.c.as_nat());
    let h2a = fadd(fmul(h1a, x), p1.b.as_nat());
    let h2b = fadd(fmul(h1b, x), p2.b.as_nat());
    lemma_horner_step_add(p1.d.as_nat(), p2.d.as_nat(), p1.c.as_nat(), p2.c.as_nat(), x);
    lemma_horner_step_add(h1a, h1b, p1.b.as_nat(), p2.b.as_nat(), x);
    lemma_horner_step_add(h2a, h2b, p1.a.as_nat(), p2.a.as_nat(), x);
}

impl Quadruple {
    pub open spec fn valid(self) -> bool {
        self.a.valid() && self.b.valid() && self.c.valid() && self.d.valid() && self.e.valid()
    }

    pub open spec fn eval_spec(self, x: nat) -> nat {
        fadd(
            fmul(
                fadd(
                    fmul(
                        fadd(
                            fmul(fadd(fmul(self.e.as_nat(), x), self.d.as_nat()), x),
                            self.c.as_nat(),
                        ),
                        x,
                    ),
                    self.b.as_nat(),
                ),
                x,
            ),
            self.a.as_nat(),
        )
    }

    pub fn eval(&self, x: &FieldElement) -> (r: FieldElement)
        requires
            self.valid(),
            x.valid(),
        ensures
            r.valid(),
            r.as_nat() == self.eval_spec(x.as_nat()),
    {
        self.e.mul(x).add(&self.d).mul(x).add(&self.c).mul(x).add(&self.b).mul(x).add(&self.a)
    }

    pub fn add(self, rhs: Self) -> (r: Self)
        requires
            self.valid(),
            rhs.valid(),
        ensures
            r.valid(),
            r.a.as_nat() == fadd(self.a.as_nat(), rhs.a.as_nat()),
            r.b.as_nat() == fadd(self.b.as_nat(), rhs.b.as_nat()),
            r.c.as_nat() == fadd(self.c.as_nat(), rhs.c.as_nat()),
            r.d.as_nat() == fadd(self.d.as_nat(), rhs.d.as_nat()),
            r.e.as_nat() == fadd(self.e.as_nat(), rhs.e.as_nat()),
    {
        Quadruple {
            a: self.a.add(&rhs.a),
            b: self.b.add(&rhs.b),
            c: self.c.add(&rhs.c),
            d: self.d.add(&rhs.d),
            e: self.e.add(&rhs.e),
        }
    }

    pub fn add_assign(&mut self, rhs: Self)
        requires
            old(self).valid(),
            rhs.valid(),
        ensures
            final(self).valid(),
            final(self).a.as_nat() == fadd(old(self).a.as_nat(), rhs.a.as_nat()),
            final(self).b.as_nat() == fadd(old(self).b.as_nat(), rhs.b.as_nat()),
            final(self).c.as_nat() == fadd(old(self).c.as_nat(), rhs.c.as_nat()),
            final(self).d.as_nat() == fadd(old(self).d.as_nat(), rhs.d.as_nat()),
            final(self).e.as_nat() == fadd(old(self).e.as_nat(), rhs.e.as_nat()),
    {
        *self = self.add(rhs);
    }
}

/// Law: adding degree-4 polynomials coefficient-wise adds their values at
/// every point.
pub proof fn lemma_quadruple_add_eval(p1: Quadruple, p2: Quadruple, s: Quadruple, x: nat)
    requires
        s.a.as_nat() == fadd(p1.a.as_nat(), p2.a.as_nat()),
        s.b.as_nat() == fadd(p1.b.as_nat(), p2.b.as_nat()),
        s.c.as_nat() == fadd(p1.c.as_nat(), p2.c.as_nat()),
        s.d.as_nat() == fadd(p1.d.as_nat(), p2.d.as_nat()),
        s.e.as_nat() == fadd(p1.e.as_nat(), p2.e.as_nat()),
    ensures
        s.eval_spec(x) == fadd(p1.eval_spec(x), p2.eval_spec(x)),
{
    let h1a = fadd(fmul(p1.e.as_nat(), x), p1.d.as_nat());
    let h1b = fadd(fmul(p2.e.as_nat(), x), p2.d.as_nat());
    let h2a = fadd(fmul(h1a, x), p1.c.as_nat());
    let h2b = fadd(fmul(h1b, x), p2.c.as_nat());
    let h3a = fadd(fmul(h2a, x), p1.b.as_nat());
    let h3b = fadd(fmul(h2b, x), p2.b.as_nat());
    lemma_horner_step_add(p1.e.as_nat(), p2.e.as_nat(), p1.d.as_nat(), p2.d.as_nat(), x);
    lemma_horner_step_add(h1a, h1b, p1.c.as_nat(), p2.c.as_nat(), x);
    lemma_horner_step_add(h2a, h2b, p1.b.as_nat(), p2.b.as_nat(), x);
    lemma_horner_step_add(h3a, h3b, p1.a.as_nat(), p2.a.as_nat(), x);
}

impl Quintuple {
    pub open spec fn valid(self) -> bool {
        self.a.valid() && self.b.valid() && self.c.valid() && self.d.valid() && self.e.valid()
            && self.f.valid()
    }

    pub open spec fn eval_spec(self, x: nat) -> nat {
        fadd(
            fmul(
                fadd(
                    fmul(
                        fadd(
                            fmul(
                                fadd(
                                    fmul(fadd(fmul(self.f.as_nat(), x), self.e.as_nat()), x),
                                    self.d.as_nat(),
                                ),
                                x,
                            ),
                            self.c.as_nat(),
                        ),
                        x,
                    ),
                    self.b.as_nat(),
                ),
                x,
            ),
            self.a.as_nat(),
        )
    }

    pub fn eval(&self, x: &FieldElement) -> (r: FieldElement)
        requires
            self.valid(),
            x.valid(),
        ensures
            r.valid(),
            r.as_nat() == self.eval_spec(x.as_nat()),
    {
        self.f.mul(x).add(&self.e).mul(x).add(&self.d).mul(x).add(&self.c).mul(x).add(
            &self.b,
        ).mul(x).add(&self.a)
    }

    pub fn add(self, rhs: Self) -> (r: Self)
        requires
            self.valid(),
            rhs.valid(),
        ensures
            r.valid(),
            r.a.as_nat() == fadd(self.a.as_nat(), rhs.a.as_nat()),
            r.b.as_nat() == fadd(self.b.as_nat(), rhs.b.as_nat()),
            r.c.as_nat() == fadd(self.c.as_nat(), rhs.c.as_nat()),
            r.d.as_nat() == fadd(self.d.as_nat(), rhs.d.as_nat()),
            r.e.as_nat() == fadd(self.e.as_nat(), rhs.e.as_nat()),
            r.f.as_nat() == fadd(self.f.as_nat(), rhs.f.as_nat()),
    {
        Quintuple {
            a: self.a.add(&rhs.a),
            b: self.b.add(&rhs.b),
            c: self.c.add(&rhs.c),
            d: self.d.add(&rhs.d),
            e: self.e.add(&rhs.e),
            f: self.f.add(&rhs.f),
        }
    }

    pub fn add_assign(&mut self, rhs: Self)
        requires
            old(self).valid(),
            rhs.valid(),
        ensures
            final(self).valid(),
            final(self).a.as_nat() == fadd(old(self).a.as_nat(), rhs.a.as_nat()),
            final(self).b.as_nat() == fadd(old(self).b.as_nat(), rhs.b.as_nat()),
            final(self).c.as_nat() == fadd(old(self).c.as_nat(), rhs.c.as_nat()),
            final(self).d.as_nat() == fadd(old(self).d.as_nat(), rhs.d.as_nat()),
            final(self).e.as_nat() == fadd(old(self).e.as_nat(), rhs.e.as_nat()),
            final(self).f.as_nat() == fadd(old(self).f.as_nat(), rhs.f.as_nat()),
    {
        *self = self.add(rhs);
    }
}

/// Law: adding degree-5 polynomials coefficient-wise adds their values at
/// every point.
pub proof fn lemma_quintuple_add_eval(p1: Quintuple, p2: Quintuple, s: Quintuple, x: nat)
    requires
        s.a.as_nat() == fadd(p1.a.as_nat(), p2.a.as_nat()),
        s.b.as_nat() == fadd(p1.b.as_nat(), p2.b.as_nat()),
        s.c.as_nat() == fadd(p1.c.as_nat(), p2.c.as_nat()),
        s.d.as_nat() == fadd(p1.d.as_nat(), p2.d.as_nat()),
        s.e.as_nat() == fadd(p1.e.as_nat(), p2.e.as_nat()),
        s.f.as_nat() == fadd(p1.f.as_nat(), p2.f.as_nat()),
    ensures
        s.eval_spec(x) == fadd(p1.eval_spec(x), p2.eval_spec(x)),
{
    let h1a = fadd(fmul(p1.f.as_nat(), x), p1.e.as_nat());
    let h1b = fadd(fmul(p2.f.as_nat(), x), p2.e.as_nat());
    let h2a = fadd(fmul(h1a, x), p1.d.as_nat());
    let h2b = fadd(fmul(h1b, x), p2.d.as_nat());
    let h3a = fadd(fmul(h2a, x), p1.c.as_nat());
    let h3b = fadd(fmul(h2b, x), p2.c.as_nat());
    let h4a = fadd(fmul(h3a, x), p1.b.as_nat());
    let h4b = fadd(fmul(h3b, x), p2.b.as_nat());
    lemma_horner_step_add(p1.f.as_nat(), p2.f.as_nat(), p1.e.as_nat(), p2.e.as_nat(), x);
    lemma_horner_step_add(h1a, h1b, p1.d.as_nat(), p2.d.as_nat(), x);
    lemma_horner_step_add(h2a, h2b, p1.c.as_nat(), p2.c.as_nat(), x);
    lemma_horner_step_add(h3a, h3b, p1.b.as_nat(), p2.b.as_nat(), x);
    lemma_horner_step_add(h4a, h4b, p1.a.as_nat(), p2.a.as_nat(), x);
}


/// The Horner value of a dense coefficient vector (lowest power first)
/// at point `x`: `c[0] + x (c[1] + x (c[2] + ...))`.
pub open spec fn poly_eval(c: Seq<nat>, x: nat) -> nat
    decreases c.len(),
{
    if c.len() == 0 {
        0
    } else {
        fadd(c[0], fmul(x, poly_eval(c.drop_first(), x)))
    }
}

/// A dense polynomial of arbitrary degree, lowest coefficient first.
pub struct Polynomial(pub Vec<FieldElement>);

impl Polynomial {
    pub open spec fn valid(self) -> bool {
        forall|i: int| 0 <= i < self.0@.len() ==> (#[trigger] self.0@[i]).valid()
    }

    pub fn new(coeffs: Vec<FieldElement>) -> (r: Self)
        ensures
            r.0 == coeffs,
    {
        Polynomial(coeffs)
    }

    /// Horner evaluation at a field point.
    pub fn evaluate(&self, x: &FieldElement) -> (r: FieldElement)
        requires
            self.valid(),
            x.valid(),
        ensures
            r.valid(),
            r.as_nat() == poly_eval(
                self.0@.map_values(|f: FieldElement| f.as_nat()),
                x.as_nat(),
            ),
    {
        let ghost cs = self.0@.map_values(|f: FieldElement| f.as_nat());
        let n = self.0.len();
        let mut acc = FieldElement::zero();
        let mut i: usize = n;
        proof {
            assert(cs.skip(n as int) =~= Seq::<nat>::empty());
        }
        while i > 0
            invariant
                i <= n,
                n == self.0@.len(),
                cs == self.0@.map_values(|f: FieldElement| f.as_nat()),
                cs.len() == n,
                self.valid(),
                x.valid(),
                acc.valid(),
                acc.as_nat() == poly_eval(cs.skip(i as int), x.as_nat()),
            decreases i,
        {
            i = i - 1;
            proof {
                assert(cs[i as int] == self.0@[i as int].as_nat());
                assert(cs.skip(i as int).drop_first() =~= cs.skip(i as int + 1));
                assert(cs.skip(i as int)[0] == cs[i as int]);
            }
            acc = self.0[i].add(&x.mul(&acc));
        }
        proof {
            assert(cs.skip(0) =~= cs);
        }
        acc
    }
}

} // verus!
