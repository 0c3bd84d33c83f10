//! Executable expression nodes and the shared `Expr` handle.

use vstd::prelude::*;
use std::rc::Rc;
use crate::model::{dict_merge, ExprS};

verus! {

/// Descriptor of a named single-argument function (for example `exp`).
///
/// Two descriptors are the same function exactly when their names are
/// equal; the callable that evaluates the function numerically is kept by
/// unverified front ends, never inside the tree.
#[derive(Debug, Hash)]
pub struct SingleArgFunc {
    pub name: String,
}

/// One node of a symbolic expression tree.
///
/// `Add { coeff, dict }` denotes `coeff + sum of value * key`;
/// `Mul { coeff, dict }` denotes `coeff * product of key ^ value`.
#[derive(Debug, Hash)]
pub enum Expression {
    /// An exact constant.
    Number(i64),
    /// A named atom; two symbols are equal exactly when their names are.
    Symbol(String),
    /// `coeff + sum of value * key` over the dictionary entries.
    Add { coeff: i64, dict: Vec<(Expr, i64)> },
    /// `coeff * product of key ^ value` over the dictionary entries.
    Mul { coeff: i64, dict: Vec<(Expr, i64)> },
    /// A call of a registered single-argument function.
    SingleArgFunc { base: SingleArgFunc, arg: Expr },
}

/// A shared, immutable, reference-counted handle to one expression node.
///
/// Cloning the handle shares the node; nodes are never mutated, every
/// rewrite builds new nodes.
#[derive(Debug, Hash)]
pub struct Expr(pub Rc<Expression>);

/// Ghost value of a node: the tree it stands for.
pub open spec fn abs_expression(e: Expression) -> ExprS
    decreases e,
{
    match e {
        Expression::Number(n) => ExprS::Num(n),
        Expression::Symbol(s) => ExprS::Sym(s@),
        Expression::Add { coeff, dict } => ExprS::AddS { coeff, dict: abs_dict(dict@) },
        Expression::Mul { coeff, dict } => ExprS::MulS { coeff, dict: abs_dict(dict@) },
        Expression::SingleArgFunc { base, arg } => ExprS::FuncS {
            name: base.name@,
            arg: Box::new(abs_expression(*arg.0)),
        },
    }
}

/// Ghost value of a dictionary: each key replaced by the tree it stands for.
pub open spec fn abs_dict(d: Seq<(Expr, i64)>) -> Seq<(ExprS, i64)>
    decreases d,
{
    if d.len() == 0 {
        Seq::empty()
    } else {
        seq![(abs_expression(*d[0].0.0), d[0].1)] + abs_dict(d.drop_first())
    }
}

/// Length and entries of the ghost value of a dictionary.
pub proof fn lemma_abs_dict(d: Seq<(Expr, i64)>)
    ensures
        abs_dict(d).len() == d.len(),
        forall|i: int| 0 <= i < d.len() ==> abs_dict(d)[i] == (((#[trigger] d[i]).0)@, d[i].1),
    decreases d,
{
    if d.len() > 0 {
        lemma_abs_dict(d.drop_first());
        assert forall|i: int|
            0 <= i < d.len() implies abs_dict(d)[i] == (((#[trigger] d[i]).0)@, d[i].1) by {
            if i > 0 {
                assert(d.drop_first()[i - 1] == d[i]);
                assert(abs_dict(d)[i] == abs_dict(d.drop_first())[i - 1]);
            }
        }
    }
}

/// The ghost value of a node is the same variant as the node.
pub proof fn lemma_abs_variant(e: Expression)
    ensures
        (e is Number <==> abs_expression(e) is Num),
        (e is Symbol <==> abs_expression(e) is Sym),
        (e is Add <==> abs_expression(e) is AddS),
        (e is Mul <==> abs_expression(e) is MulS),
        (e is SingleArgFunc <==> abs_expression(e) is FuncS),
{
}

impl View for Expr {
    type V = ExprS;

    open spec fn view(&self) -> ExprS {
        abs_expression(*self.0)
    }
}

impl View for Expression {
    type V = ExprS;

    open spec fn view(&self) -> ExprS {
        abs_expression(*self)
    }
}

impl From<i64> for Expression {
    /// A constant node from its value.
    fn from(value: i64) -> (r: Self) {
        Expression::Number(value)
    }
}

impl vstd::std_specs::convert::FromSpecImpl<i64> for Expression {
    open spec fn obeys_from_spec() -> bool {
        true
    }

    open spec fn from_spec(t: i64) -> Self {
        Expression::Number(t)
    }
}

impl Clone for Expr {
    /// Share the pointed-to node; the tree the handle stands for is kept.
    fn clone(&self) -> (r: Self)
        ensures
            r == *self,
    {
        Expr(self.0.clone())
    }
}

impl Expr {
    /// Wrap a node in a fresh handle.
    pub fn from_expression(e: Expression) -> (r: Expr)
        ensures
            r@ == e@,
    {
        Expr(Rc::new(e))
    }

    /// Leaf constructor: an exact numeric constant.
    pub fn number(value: i64) -> (r: Expr)
        ensures
            r@ == ExprS::Num(value),
    {
        Expr(Rc::new(Expression::Number(value)))
    }

    /// Leaf constructor: a named symbol.
    pub fn symbol(name: &str) -> (r: Expr)
        ensures
            r@ == ExprS::Sym(name@),
    {
        Expr(Rc::new(Expression::Symbol(name.to_owned())))
    }

    /// An `Add` node holding the entries exactly as computed; the
    /// combinators and the canonicalizer build only sorted entry lists.
    pub(crate) fn raw_add_node(coeff: i64, dict: Vec<(Expr, i64)>) -> (r: Expr)
        ensures
            r@ == (ExprS::AddS { coeff, dict: abs_dict(dict@) }),
    {
        Expr(Rc::new(Expression::Add { coeff, dict }))
    }

    /// A `Mul` node holding the entries exactly as computed.
    pub(crate) fn raw_mul_node(coeff: i64, dict: Vec<(Expr, i64)>) -> (r: Expr)
        ensures
            r@ == (ExprS::MulS { coeff, dict: abs_dict(dict@) }),
    {
        Expr(Rc::new(Expression::Mul { coeff, dict }))
    }

    /// Node constructor: an `Add` node with the given coefficient and
    /// entries. The entries are folded into a term map in sorted order,
    /// values of duplicate keys summed and zero values dropped, so that
    /// equal term maps get one representation and the derived hash
    /// agrees with equality.
    pub fn add_node(coeff: i64, dict: Vec<(Expr, i64)>) -> (r: Expr)
        ensures
            r@ == (ExprS::AddS {
                coeff,
                dict: dict_merge(Seq::empty(), abs_dict(dict@)),
            }),
    {
        let empty: Vec<(Expr, i64)> = Vec::new();
        proof {
            assert(abs_dict(empty@) =~= Seq::<(ExprS, i64)>::empty());
        }
        let entries = crate::dict::dict_merge_x(&empty, &dict);
        Expr(Rc::new(Expression::Add { coeff, dict: entries }))
    }

    /// Node constructor: a `Mul` node with the given coefficient and
    /// entries, normalized the same way as `add_node`.
    pub fn mul_node(coeff: i64, dict: Vec<(Expr, i64)>) -> (r: Expr)
        ensures
            r@ == (ExprS::MulS {
                coeff,
                dict: dict_merge(Seq::empty(), abs_dict(dict@)),
            }),
    {
        let empty: Vec<(Expr, i64)> = Vec::new();
        proof {
            assert(abs_dict(empty@) =~= Seq::<(ExprS, i64)>::empty());
        }
        let entries = crate::dict::dict_merge_x(&empty, &dict);
        Expr(Rc::new(Expression::Mul { coeff, dict: entries }))
    }

    /// Node constructor: a call of a named single-argument function.
    pub fn func(name: &str, arg: Expr) -> (r: Expr)
        ensures
            r@ == (ExprS::FuncS { name: name@, arg: Box::new(arg@) }),
    {
        Expr(
            Rc::new(
                Expression::SingleArgFunc {
                    base: SingleArgFunc { name: name.to_owned() },
                    arg,
                },
            ),
        )
    }
}

} // verus!
