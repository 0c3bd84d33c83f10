//! Arithmetic combinators: `+`, unary `-` and binary `-` on handles.
//!
//! Each combinator normalizes one level at the top of the new tree; the
//! full reduction to canonical form is the canonicalizer's job.

use vstd::prelude::*;
use crate::coeff::{wadd, wmul, wneg};
use crate::dict::{clone_dict, dict_insert_x, dict_merge_x, dict_negv_x};
use crate::expression::{abs_dict, lemma_abs_dict, Expr, Expression};
use crate::model::{dict_insert, dict_merge, dict_negv, ExprS};

verus! {

/// What addition builds: both constants fold, a constant is absorbed
/// into an `Add` coefficient, two `Add` nodes merge their dictionaries
/// key-wise, an `Add` absorbs any other term into its dictionary, and
/// two plain terms build a fresh `Add` with coefficient zero.
pub open spec fn add_s(a: ExprS, b: ExprS) -> ExprS {
    match (a, b) {
        (ExprS::Num(x), ExprS::Num(y)) => ExprS::Num(wadd(x, y)),
        (ExprS::Num(x), ExprS::AddS { coeff, dict }) => ExprS::AddS {
            coeff: wadd(x, coeff),
            dict,
        },
        (ExprS::AddS { coeff, dict }, ExprS::Num(x)) => ExprS::AddS {
            coeff: wadd(x, coeff),
            dict,
        },
        (ExprS::AddS { coeff: c1, dict: d1 }, ExprS::AddS { coeff: c2, dict: d2 }) => ExprS::AddS {
            coeff: wadd(c1, c2),
            dict: dict_merge(d1, d2),
        },
        (ExprS::AddS { coeff, dict }, _) => ExprS::AddS {
            coeff,
            dict: dict_insert(dict, b, 1),
        },
        (_, ExprS::AddS { coeff, dict }) => ExprS::AddS {
            coeff,
            dict: dict_insert(dict, a, 1),
        },
        (ExprS::Num(x), _) => ExprS::AddS { coeff: x, dict: seq![(b, 1i64)] },
        (_, ExprS::Num(x)) => ExprS::AddS { coeff: x, dict: seq![(a, 1i64)] },
        _ => ExprS::AddS {
            coeff: 0,
            dict: dict_insert(dict_insert(Seq::empty(), a, 1), b, 1),
        },
    }
}

/// What negation builds: a constant flips, an `Add` flips its
/// coefficient and every dictionary value, a `Mul` flips only its
/// coefficient, and any other term becomes an `Add` entry with value -1.
pub open spec fn neg_s(a: ExprS) -> ExprS {
    match a {
        ExprS::Num(x) => ExprS::Num(wneg(x)),
        ExprS::AddS { coeff, dict } => ExprS::AddS {
            coeff: wneg(coeff),
            dict: dict_negv(dict),
        },
        ExprS::MulS { coeff, dict } => ExprS::MulS { coeff: wneg(coeff), dict },
        _ => ExprS::AddS { coeff: 0, dict: seq![(a, -1i64)] },
    }
}

/// Subtraction is addition of the negation.
pub open spec fn sub_s(a: ExprS, b: ExprS) -> ExprS {
    add_s(a, neg_s(b))
}

/// What multiplication builds: the multiplicative mirror of `add_s` —
/// coefficients multiply, dictionary values are exponents, and merging
/// adds the exponents of shared keys.
pub open spec fn mul_s(a: ExprS, b: ExprS) -> ExprS {
    match (a, b) {
        (ExprS::Num(x), ExprS::Num(y)) => ExprS::Num(wmul(x, y)),
        (ExprS::Num(x), ExprS::MulS { coeff, dict }) => ExprS::MulS {
            coeff: wmul(x, coeff),
            dict,
        },
        (ExprS::MulS { coeff, dict }, ExprS::Num(x)) => ExprS::MulS {
            coeff: wmul(x, coeff),
            dict,
        },
        (ExprS::MulS { coeff: c1, dict: d1 }, ExprS::MulS { coeff: c2, dict: d2 }) => ExprS::MulS {
            coeff: wmul(c1, c2),
            dict: dict_merge(d1, d2),
        },
        (ExprS::MulS { coeff, dict }, _) => ExprS::MulS {
            coeff,
            dict: dict_insert(dict, b, 1),
        },
        (_, ExprS::MulS { coeff, dict }) => ExprS::MulS {
            coeff,
            dict: dict_insert(dict, a, 1),
        },
        (ExprS::Num(x), _) => ExprS::MulS { coeff: x, dict: seq![(b, 1i64)] },
        (_, ExprS::Num(x)) => ExprS::MulS { coeff: x, dict: seq![(a, 1i64)] },
        _ => ExprS::MulS {
            coeff: 1,
            dict: dict_insert(dict_insert(Seq::empty(), a, 1), b, 1),
        },
    }
}

impl Expr {
    /// Sum of two expressions, normalized one level at the top.
    pub fn add(&self, rhs: &Expr) -> (r: Expr)
        ensures
            r@ == add_s(self@, rhs@),
    {
        match (&*self.0, &*rhs.0) {
            (Expression::Number(x), Expression::Number(y)) => Expr::number(x.wrapping_add(*y)),
            (Expression::Number(x), Expression::Add { coeff, dict }) => Expr::raw_add_node(
                x.wrapping_add(*coeff),
                clone_dict(dict),
            ),
            (Expression::Add { coeff, dict }, Expression::Number(x)) => Expr::raw_add_node(
                x.wrapping_add(*coeff),
                clone_dict(dict),
            ),
            (
                Expression::Add { coeff: c1, dict: d1 },
                Expression::Add { coeff: c2, dict: d2 },
            ) => Expr::raw_add_node(c1.wrapping_add(*c2), dict_merge_x(d1, d2)),
            (Expression::Add { coeff, dict }, _) => Expr::raw_add_node(
                *coeff,
                dict_insert_x(dict, rhs.clone(), 1),
            ),
            (_, Expression::Add { coeff, dict }) => Expr::raw_add_node(
                *coeff,
                dict_insert_x(dict, self.clone(), 1),
            ),
            (Expression::Number(x), _) => {
                let mut d: Vec<(Expr, i64)> = Vec::new();
                d.push((rhs.clone(), 1));
                proof {
                    lemma_abs_dict(d@);
                    assert(abs_dict(d@) =~= seq![(rhs@, 1i64)]);
                }
                Expr::raw_add_node(*x, d)
            },
            (_, Expression::Number(x)) => {
                let mut d: Vec<(Expr, i64)> = Vec::new();
                d.push((self.clone(), 1));
                proof {
                    lemma_abs_dict(d@);
                    assert(abs_dict(d@) =~= seq![(self@, 1i64)]);
                }
                Expr::raw_add_node(*x, d)
            },
            _ => {
                let empty: Vec<(Expr, i64)> = Vec::new();
                proof {
                    assert(abs_dict(empty@) =~= Seq::<(ExprS, i64)>::empty());
                }
                let one = dict_insert_x(&empty, self.clone(), 1);
                let two = dict_insert_x(&one, rhs.clone(), 1);
                Expr::raw_add_node(0, two)
            },
        }
    }

    /// Negation of an expression.
    pub fn neg(&self) -> (r: Expr)
        ensures
            r@ == neg_s(self@),
    {
        match &*self.0 {
            Expression::Number(x) => Expr::number((0i64).wrapping_sub(*x)),
            Expression::Add { coeff, dict } => Expr::raw_add_node(
                (0i64).wrapping_sub(*coeff),
                dict_negv_x(dict),
            ),
            Expression::Mul { coeff, dict } => Expr::raw_mul_node(
                (0i64).wrapping_sub(*coeff),
                clone_dict(dict),
            ),
            _ => {
                let mut d: Vec<(Expr, i64)> = Vec::new();
                d.push((self.clone(), -1));
                proof {
                    lemma_abs_dict(d@);
                    assert(abs_dict(d@) =~= seq![(self@, -1i64)]);
                }
                Expr::raw_add_node(0, d)
            },
        }
    }

    /// Difference of two expressions: the sum with the negation.
    pub fn sub(&self, rhs: &Expr) -> (r: Expr)
        ensures
            r@ == sub_s(self@, rhs@),
    {
        self.add(&rhs.neg())
    }

    /// Product of two expressions, normalized one level at the top.
    pub fn mul(&self, rhs: &Expr) -> (r: Expr)
        ensures
            r@ == mul_s(self@, rhs@),
    {
        match (&*self.0, &*rhs.0) {
            (Expression::Number(x), Expression::Number(y)) => Expr::number(x.wrapping_mul(*y)),
            (Expression::Number(x), Expression::Mul { coeff, dict }) => Expr::raw_mul_node(
                x.wrapping_mul(*coeff),
                clone_dict(dict),
            ),
            (Expression::Mul { coeff, dict }, Expression::Number(x)) => Expr::raw_mul_node(
                x.wrapping_mul(*coeff),
                clone_dict(dict),
            ),
            (
                Expression::Mul { coeff: c1, dict: d1 },
                Expression::Mul { coeff: c2, dict: d2 },
            ) => Expr::raw_mul_node(c1.wrapping_mul(*c2), dict_merge_x(d1, d2)),
            (Expression::Mul { coeff, dict }, _) => Expr::raw_mul_node(
                *coeff,
                dict_insert_x(dict, rhs.clone(), 1),
            ),
            (_, Expression::Mul { coeff, dict }) => Expr::raw_mul_node(
                *coeff,
                dict_insert_x(dict, self.clone(), 1),
            ),
            (Expression::Number(x), _) => {
                let mut d: Vec<(Expr, i64)> = Vec::new();
                d.push((rhs.clone(), 1));
                proof {
                    lemma_abs_dict(d@);
                    assert(abs_dict(d@) =~= seq![(rhs@, 1i64)]);
                }
                Expr::raw_mul_node(*x, d)
            },
            (_, Expression::Number(x)) => {
                let mut d: Vec<(Expr, i64)> = Vec::new();
                d.push((self.clone(), 1));
                proof {
                    lemma_abs_dict(d@);
                    assert(abs_dict(d@) =~= seq![(self@, 1i64)]);
                }
                Expr::raw_mul_node(*x, d)
            },
            _ => {
                let empty: Vec<(Expr, i64)> = Vec::new();
                proof {
                    assert(abs_dict(empty@) =~= Seq::<(ExprS, i64)>::empty());
                }
                let one = dict_insert_x(&empty, self.clone(), 1);
                let two = dict_insert_x(&one, rhs.clone(), 1);
                Expr::raw_mul_node(1, two)
            },
        }
    }
}

} // verus!
