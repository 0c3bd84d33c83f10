//! Tests of the expression kernel: combinators, equality, hashing,
//! rendering and canonicalization.

use std::collections::hash_map::DefaultHasher;
use std::hash::{Hash, Hasher};

use symbolic_math::{Expr, Expression};

#[test]
fn lib_it_works() {}

#[test]
fn test_canonicify() {
    let x = Expr::symbol("x");
    let y = Expr::symbol("y");
    assert_eq!(
        Expr::number(1).add(&x).add(&Expr::number(2)),
        Expr::number(3).add(&x)
    );
    assert_eq!(
        Expr::number(1).add(&x).add(&y),
        Expr::number(1).add(&x.add(&y))
    );
}

#[test]
fn test_fmt() {
    assert_eq!(Expression::from(1).render(), "1");
    assert_eq!(Expr::symbol("x_0").render(), "x_0");
    assert_eq!(Expr::number(2).add(&Expr::symbol("x")).render(), "(2 + x)");
}

#[test]
fn test_hash() {
    let mut hasher1 = DefaultHasher::new();
    let mut hasher2 = DefaultHasher::new();
    Expr::number(2).hash(&mut hasher1);
    Expr::symbol("2").hash(&mut hasher2);
    assert_ne!(hasher1.finish(), hasher2.finish());
}

#[test]
fn test_add() {
    let num1 = Expr::from_expression(Expression::from(1));
    let num2 = Expr::from_expression(Expression::from(2));
    let num3 = Expr::from_expression(Expression::from(3));
    let num1_clone = Expr::from_expression(Expression::from(1));
    let num2_clone = Expr::from_expression(Expression::Number(2));
    let sym_x = Expr::from_expression(Expression::Symbol("x".to_string()));
    assert_eq!(num1.add(&num2), num2_clone.add(&num1_clone));
    assert_eq!(num1.add(&num2), num3);
    assert_eq!(sym_x.add(&num1), num1.add(&sym_x));
    assert_eq!(sym_x.add(&num1).add(&num2), sym_x.add(&num3));
    assert_eq!(
        sym_x.add(&num1).add(&sym_x),
        sym_x.add(&sym_x).add(&num1)
    );
}

#[test]
fn test_sub() {
    let num0 = Expr::from_expression(Expression::from(0));
    let num1 = Expr::from_expression(Expression::from(1));
    let num2 = Expr::from_expression(Expression::from(2));
    let sym_x = Expr::from_expression(Expression::Symbol("x".to_string()));
    assert_eq!(num1.neg(), Expr::number(-1));
    assert_eq!(num2.sub(&num1), num1);
    assert_eq!(sym_x.sub(&sym_x).canonicalize().unwrap(), num0);
}

#[test]
fn commutativity_concrete() {
    let x = Expr::symbol("x");
    let a = Expr::number(2).add(&x);
    let b = Expr::symbol("y");
    assert_eq!(a.add(&b), b.add(&a));
    assert_eq!(
        a.add(&b).canonicalize().unwrap(),
        b.add(&a).canonicalize().unwrap()
    );
}

#[test]
fn associativity_concrete() {
    let x = Expr::symbol("x");
    let y = Expr::symbol("y");
    let a = Expr::number(4);
    let b = x.mul(&y);
    let c = y.add(&Expr::number(1));
    assert_eq!(a.add(&b).add(&c), a.add(&b.add(&c)));
    assert_eq!(x.add(&y).add(&x), x.add(&y.add(&x)));
}

#[test]
fn additive_identity_concrete() {
    let zero = Expr::number(0);
    for e in [
        Expr::symbol("x"),
        Expr::number(7),
        Expr::number(1).add(&Expr::symbol("x")),
        Expr::symbol("x").mul(&Expr::symbol("y")),
    ] {
        assert_eq!(
            e.add(&zero).canonicalize().unwrap(),
            e.canonicalize().unwrap()
        );
    }
}

#[test]
fn idempotence_concrete() {
    let x = Expr::symbol("x");
    let inner = Expr::add_node(2, vec![(x.clone(), 1)]);
    let nested = Expr::add_node(1, vec![(inner, 3)]);
    let once = nested.canonicalize().unwrap();
    let twice = once.canonicalize().unwrap();
    assert_eq!(once, twice);
}

#[test]
fn numeric_folding() {
    let x = Expr::symbol("x");
    let lhs = Expr::number(1).add(&x).add(&Expr::number(2));
    let rhs = Expr::number(3).add(&x);
    assert_eq!(lhs.canonicalize().unwrap(), rhs.canonicalize().unwrap());
}

#[test]
fn self_addition_coalesces() {
    let x = Expr::symbol("x");
    let sum = x.add(&x);
    assert_eq!(sum, Expr::add_node(0, vec![(x.clone(), 2)]));
    let trivial_product = Expr::mul_node(1, vec![(x.clone(), 1)]);
    assert_eq!(trivial_product.canonicalize().unwrap(), x);
}

#[test]
fn negation() {
    let x = Expr::symbol("x");
    assert_eq!(Expr::number(1).neg().canonicalize().unwrap(), Expr::number(-1));
    assert_eq!(x.sub(&x).canonicalize().unwrap(), Expr::number(0));
}

#[test]
fn end_to_end_example() {
    let x = Expr::symbol("x");
    let y = Expr::symbol("y");
    let e = Expr::number(3).add(&x).add(&y);
    let canonical = e.canonicalize().unwrap();
    assert_eq!(
        canonical,
        Expr::add_node(3, vec![(x.clone(), 1), (y.clone(), 1)])
    );
    assert_eq!(canonical.render(), "(3 + x + y)");
}

#[test]
fn structural_vs_semantic_equality() {
    assert_ne!(Expr::number(2), Expr::symbol("2"));
    assert_ne!(
        Expr::from_expression(Expression::Number(2)),
        Expr::from_expression(Expression::Symbol("2".to_string()))
    );
}

#[test]
fn equality_is_order_independent() {
    let x = Expr::symbol("x");
    let y = Expr::symbol("y");
    let one_way = Expr::add_node(1, vec![(x.clone(), 1), (y.clone(), 2)]);
    let other_way = Expr::add_node(1, vec![(y.clone(), 2), (x.clone(), 1)]);
    assert_eq!(one_way, other_way);
    let off_by_value = Expr::add_node(1, vec![(x.clone(), 1), (y.clone(), 3)]);
    assert_ne!(one_way, off_by_value);
    // raw nodes with permuted entry lists still compare equal as term maps
    let raw_one = Expr::from_expression(Expression::Add {
        coeff: 1,
        dict: vec![(x.clone(), 1), (y.clone(), 2)],
    });
    let raw_two = Expr::from_expression(Expression::Add {
        coeff: 1,
        dict: vec![(y.clone(), 2), (x.clone(), 1)],
    });
    assert_eq!(raw_one, raw_two);
}

#[test]
fn hash_agrees_with_equality_on_built_nodes() {
    let x = Expr::symbol("x");
    let y = Expr::symbol("y");
    let one_way = Expr::add_node(1, vec![(x.clone(), 1), (y.clone(), 2)]);
    let other_way = Expr::add_node(1, vec![(y.clone(), 2), (x.clone(), 1)]);
    assert_eq!(one_way, other_way);
    let mut hasher1 = DefaultHasher::new();
    let mut hasher2 = DefaultHasher::new();
    one_way.hash(&mut hasher1);
    other_way.hash(&mut hasher2);
    assert_eq!(hasher1.finish(), hasher2.finish());
    // duplicate keys are summed, zero values dropped
    let merged = Expr::add_node(0, vec![(x.clone(), 1), (x.clone(), 1), (y.clone(), 0)]);
    assert_eq!(merged, Expr::add_node(0, vec![(x.clone(), 2)]));
}

#[test]
fn function_nodes_compare_by_name() {
    let x = Expr::symbol("x");
    assert_eq!(Expr::func("exp", x.clone()), Expr::func("exp", x.clone()));
    assert_ne!(Expr::func("exp", x.clone()), Expr::func("ln", x.clone()));
    assert_eq!(Expr::func("exp", x.clone()).render(), "exp(x)");
}
