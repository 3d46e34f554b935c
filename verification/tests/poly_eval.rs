use linear_gkr::field::FieldElement;
use linear_gkr::poly::{Cubic, Linear, Polynomial, Quadratic, Quadruple, Quintuple};
use linear_gkr::quad::{LinearPoly, QuadraticPoly, QuintuplePoly};

fn fe(x: u64) -> FieldElement {
    FieldElement::from_u64(x)
}

#[test]
fn linear_eval_exact() {
    // 1 + 2x at x = 3
    let p = Linear { a: fe(1), b: fe(2) };
    assert_eq!(p.eval(&fe(3)), fe(7));
}

#[test]
fn quadratic_eval_exact() {
    // 1 + 2x + 3x^2 at x = 2
    let p = Quadratic { a: fe(1), b: fe(2), c: fe(3) };
    assert_eq!(p.eval(&fe(2)), fe(17));
}

#[test]
fn cubic_eval_exact() {
    // 1 + x + x^2 + x^3 at x = 2
    let p = Cubic { a: fe(1), b: fe(1), c: fe(1), d: fe(1) };
    assert_eq!(p.eval(&fe(2)), fe(15));
}

#[test]
fn quadruple_eval_exact() {
    // 5 + 4x + 3x^2 + 2x^3 + x^4 at x = 3
    let p = Quadruple { a: fe(5), b: fe(4), c: fe(3), d: fe(2), e: fe(1) };
    assert_eq!(p.eval(&fe(3)), fe(5 + 12 + 27 + 54 + 81));
}

#[test]
fn quintuple_eval_exact() {
    // 1 + x^5 at x = 2
    let p = Quintuple { a: fe(1), b: fe(0), c: fe(0), d: fe(0), e: fe(0), f: fe(1) };
    assert_eq!(p.eval(&fe(2)), fe(33));
}

#[test]
fn linear_addition_is_pointwise() {
    let p1 = Linear { a: fe(1), b: fe(2) };
    let p2 = Linear { a: fe(10), b: fe(20) };
    let s = p1.add(p2);
    let x = fe(7);
    assert_eq!(s.eval(&x), p1.eval(&x).add(&p2.eval(&x)));
}

#[test]
fn quintuple_addition_is_pointwise() {
    let p1 = Quintuple { a: fe(1), b: fe(2), c: fe(3), d: fe(4), e: fe(5), f: fe(6) };
    let p2 = Quintuple { a: fe(9), b: fe(8), c: fe(7), d: fe(6), e: fe(5), f: fe(4) };
    let s = p1.add(p2);
    let x = fe(11);
    assert_eq!(s.eval(&x), p1.eval(&x).add(&p2.eval(&x)));
}

#[test]
fn add_assign_matches_add() {
    let p1 = Quadratic { a: fe(1), b: fe(2), c: fe(3) };
    let p2 = Quadratic { a: fe(4), b: fe(5), c: fe(6) };
    let s = p1.add(p2);
    let mut t = p1;
    t.add_assign(p2);
    assert_eq!(t.eval(&fe(9)), s.eval(&fe(9)));
}

#[test]
fn linear_poly_eval_exact() {
    // 2x + 3 at x = 4
    let p = LinearPoly::new(fe(2), fe(3));
    assert_eq!(p.eval(&fe(4)), fe(11));
}

#[test]
fn quadratic_poly_eval_exact() {
    // 2x^2 + 5x + 3 at x = 2
    let p = QuadraticPoly::new(fe(2), fe(5), fe(3));
    assert_eq!(p.eval(&fe(2)), fe(21));
}

#[test]
fn quintuple_poly_eval_exact() {
    // x^5 + 1 at x = 2
    let p = QuintuplePoly::new(fe(1), fe(0), fe(0), fe(0), fe(0), fe(1));
    assert_eq!(p.eval(&fe(2)), fe(33));
}

#[test]
fn linear_poly_mul_gives_the_product_polynomial() {
    // (x + 1)(2x + 3) = 2x^2 + 5x + 3
    let p1 = LinearPoly::new(fe(1), fe(1));
    let p2 = LinearPoly::new(fe(2), fe(3));
    let q = p1.mul(p2);
    assert_eq!(q.a, fe(2));
    assert_eq!(q.b, fe(5));
    assert_eq!(q.c, fe(3));
    // product evaluates as the product of evaluations
    let x = fe(6);
    assert_eq!(q.eval(&x), p1.eval(&x).mul(&p2.eval(&x)));
}

#[test]
fn linear_poly_addition_is_pointwise() {
    let p1 = LinearPoly::new(fe(3), fe(4));
    let p2 = LinearPoly::new(fe(5), fe(6));
    let s = p1.add(p2);
    let x = fe(13);
    assert_eq!(s.eval(&x), p1.eval(&x).add(&p2.eval(&x)));
}

#[test]
fn dense_polynomial_horner_eval() {
    // 1 + 2x + 3x^2 at x = 4: 1 + 8 + 48 = 57
    let p = Polynomial::new(vec![fe(1), fe(2), fe(3)]);
    assert_eq!(p.evaluate(&fe(4)), fe(57));
    // the empty polynomial is zero everywhere
    let z = Polynomial::new(vec![]);
    assert_eq!(z.evaluate(&fe(9)), fe(0));
}
