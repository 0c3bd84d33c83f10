//! Tests of the five canonicalization rules and the error path.

use symbolic_math::{CoeffError, Expr};

#[test]
fn flatten_nested_add() {
    let x = Expr::symbol("x");
    let inner = Expr::add_node(2, vec![(x.clone(), 1)]);
    let outer = Expr::add_node(1, vec![(inner, 3)]);
    // 1 + 3 * (2 + x) reduces to 7 + 3 * x
    assert_eq!(
        outer.canonicalize().unwrap(),
        Expr::add_node(7, vec![(x.clone(), 3)])
    );
}

#[test]
fn flatten_nested_mul() {
    let x = Expr::symbol("x");
    let inner = Expr::mul_node(2, vec![(x.clone(), 1)]);
    let outer = Expr::mul_node(3, vec![(inner, 2)]);
    // 3 * (2 * x)^2 reduces to 12 * x^2
    assert_eq!(
        outer.canonicalize().unwrap(),
        Expr::mul_node(12, vec![(x.clone(), 2)])
    );
}

#[test]
fn empty_dictionary_collapses() {
    assert_eq!(
        Expr::add_node(5, vec![]).canonicalize().unwrap(),
        Expr::number(5)
    );
    assert_eq!(
        Expr::mul_node(5, vec![]).canonicalize().unwrap(),
        Expr::number(5)
    );
}

#[test]
fn number_child_is_absorbed() {
    // 1 + 2 * 4 reduces to 9
    let add = Expr::add_node(1, vec![(Expr::number(4), 2)]);
    assert_eq!(add.canonicalize().unwrap(), Expr::number(9));
    // 3 * 2^3 reduces to 24
    let mul = Expr::mul_node(3, vec![(Expr::number(2), 3)]);
    assert_eq!(mul.canonicalize().unwrap(), Expr::number(24));
}

#[test]
fn zero_coefficient_mul_collapses() {
    let x = Expr::symbol("x");
    let product = Expr::number(0).mul(&x);
    assert_eq!(product.canonicalize().unwrap(), Expr::number(0));
    let raw = Expr::mul_node(0, vec![(x.clone(), 5)]);
    assert_eq!(raw.canonicalize().unwrap(), Expr::number(0));
}

#[test]
fn single_term_identity_collapses() {
    let x = Expr::symbol("x");
    assert_eq!(
        Expr::add_node(0, vec![(x.clone(), 1)]).canonicalize().unwrap(),
        x
    );
    assert_eq!(
        Expr::mul_node(1, vec![(x.clone(), 1)]).canonicalize().unwrap(),
        x
    );
}

#[test]
fn zero_coefficient_collapses_before_folding() {
    // the zero-coefficient collapse fires unconditionally, so a child
    // whose power would have no exact value is never folded
    let raw = Expr::mul_node(0, vec![(Expr::number(2), -1)]);
    assert_eq!(raw.canonicalize().unwrap(), Expr::number(0));
}

#[test]
fn undefined_power_is_an_error() {
    let bad = Expr::mul_node(1, vec![(Expr::number(2), -1)]);
    assert_eq!(bad.canonicalize(), Err(CoeffError::UndefinedPower));
    // a base of one is exact for any exponent
    let ok = Expr::mul_node(3, vec![(Expr::number(1), -5)]);
    assert_eq!(ok.canonicalize().unwrap(), Expr::number(3));
    let minus_one = Expr::mul_node(3, vec![(Expr::number(-1), -3)]);
    assert_eq!(minus_one.canonicalize().unwrap(), Expr::number(-3));
}

#[test]
fn mul_combinator_mirrors_add() {
    let x = Expr::symbol("x");
    let y = Expr::symbol("y");
    assert_eq!(Expr::number(3).mul(&Expr::number(4)), Expr::number(12));
    assert_eq!(x.mul(&y), y.mul(&x));
    // matching keys add their exponents
    assert_eq!(x.mul(&x), Expr::mul_node(1, vec![(x.clone(), 2)]));
    assert_eq!(
        Expr::number(2).mul(&x),
        Expr::mul_node(2, vec![(x.clone(), 1)])
    );
}

#[test]
fn render_forms() {
    let x = Expr::symbol("x");
    assert_eq!(Expr::number(-5).render(), "-5");
    assert_eq!(Expr::mul_node(2, vec![(x.clone(), 3)]).render(), "(2 * x ^ 3)");
    assert_eq!(
        Expr::add_node(1, vec![(x.clone(), -2)]).render(),
        "(1 + -2 * x)"
    );
}
