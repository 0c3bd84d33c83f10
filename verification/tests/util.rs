//! Tests of the exact-term layer, the extended integers and the
//! dictionary utilities.

use num::bigint::BigInt;
use num::rational::BigRational;

use symbolic_math::{remove_zeros, Expr, ExtendI, Symbol, Term};

#[test]
fn add_it_works() {
    let sum = Term::from(3).add(Term::from(5));
    match sum.apply() {
        Term::Integer(val) => assert_eq!(val, BigInt::from(8)),
        _ => panic!(),
    }
    let sum = sum.add(Term::from(5));
    match sum.apply() {
        Term::Integer(val) => assert_eq!(val, BigInt::from(13)),
        _ => panic!(),
    }
}

#[test]
fn rational_promotion() {
    let half = BigRational::new(BigInt::from(1), BigInt::from(2));
    let sum = Term::from(half).add(Term::from(3));
    match sum.apply() {
        Term::Rational(val) => {
            assert_eq!(val, BigRational::new(BigInt::from(7), BigInt::from(2)));
        },
        _ => panic!(),
    }
}

#[test]
fn symbols_stay_deferred() {
    let sum = Term::from("x".to_string()).add(Term::from(1));
    match sum.apply() {
        Term::Expression(e) => {
            assert!(matches!(e.lhs, Term::Symbol(_)));
            assert!(matches!(e.rhs, Term::Integer(_)));
        },
        _ => panic!(),
    }
}

#[test]
fn test_extend() {
    assert!(ExtendI::Int(910) < ExtendI::PosInf);
    assert!(ExtendI::PosInf > ExtendI::Int(114514));
    assert!(ExtendI::Int(1919810) > ExtendI::Int(114514));
    assert!(ExtendI::Int(1) == ExtendI::Int(1));
    assert!(ExtendI::NegInf < ExtendI::Int(-10));
    assert!(ExtendI::Int(-10) > ExtendI::NegInf);
}

#[test]
fn test_arithmetic() {
    assert_eq!(ExtendI::Int(123).add(ExtendI::PosInf), Some(ExtendI::PosInf));
    assert_eq!(ExtendI::Int(123).add(ExtendI::Int(456)), Some(ExtendI::Int(579)));
    assert_eq!(ExtendI::NegInf.add(ExtendI::Int(456)), Some(ExtendI::NegInf));
    assert_eq!(ExtendI::PosInf.add(ExtendI::NegInf), None);
}

#[test]
fn extend_sub_mul() {
    assert_eq!(ExtendI::Int(5).sub(ExtendI::Int(3)), Some(ExtendI::Int(2)));
    assert_eq!(ExtendI::Int(3).neg(), ExtendI::Int(-3));
    assert_eq!(ExtendI::PosInf.neg(), ExtendI::NegInf);
    assert_eq!(ExtendI::PosInf.mul(ExtendI::Int(0)), None);
    assert_eq!(ExtendI::PosInf.mul(ExtendI::Int(-2)), Some(ExtendI::NegInf));
    assert_eq!(ExtendI::NegInf.mul(ExtendI::NegInf), Some(ExtendI::PosInf));
    assert_eq!(ExtendI::Int(6).mul(ExtendI::Int(7)), Some(ExtendI::Int(42)));
    assert_eq!(ExtendI::Int(i64::MAX).add(ExtendI::Int(1)), None);
}

#[test]
fn remove_zeros_drops_only_zero_entries() {
    let x = Expr::symbol("x");
    let y = Expr::symbol("y");
    let mut dict = vec![(x.clone(), 1i64), (y.clone(), 0i64), (x.clone(), -2i64)];
    remove_zeros(&mut dict);
    assert_eq!(dict.len(), 2);
    assert_eq!(dict[0].0, x);
    assert_eq!(dict[0].1, 1);
    assert_eq!(dict[1].0, x);
    assert_eq!(dict[1].1, -2);
}

#[test]
fn well_formedness_checks_the_denominator() {
    let half = BigRational::new(BigInt::from(1), BigInt::from(2));
    assert!(Term::from(half).well_formed());
    assert!(Term::from(3).well_formed());
    assert!(Term::from("x".to_string()).add(Term::from(1)).well_formed());
    let bad = BigRational::new_raw(BigInt::from(1), BigInt::from(0));
    assert!(!Term::from(bad).well_formed());
}

#[test]
fn symbols_compare_by_name() {
    let a = Symbol::new("alpha");
    let b = Symbol::new("alpha");
    let c = Symbol::new("beta");
    assert_eq!(a, b);
    assert_ne!(a, c);
    assert_eq!(a.name(), "alpha");
    assert_eq!(a.to_expr(), Expr::symbol("alpha"));
}
