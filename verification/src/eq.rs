//! Structural equality of expression trees.
//!
//! Trees are compared variant by variant; `Add` and `Mul` dictionaries
//! are compared as term maps — same size, every entry matched by key
//! equality on the other side — never positionally.

use vstd::prelude::*;
use crate::expression::{abs_dict, lemma_abs_dict, lemma_abs_variant, Expr, Expression, SingleArgFunc};
use crate::model::{dict_eq_s, dict_has_rev_s, dict_has_s, eq_s, ExprS};

verus! {

/// Whether some entry of `d` has a key equal to `k` and the value `v`.
fn dict_find(d: &Vec<(Expr, i64)>, k: &Expr, v: i64) -> (r: bool)
    ensures
        r == dict_has_s(abs_dict(d@), k@, v),
    decreases *k, 1nat,
{
    let ghost da = abs_dict(d@);
    proof {
        lemma_abs_dict(d@);
    }
    let n = d.len();
    let mut j: usize = 0;
    while j < n
        invariant
            j <= n,
            n == d@.len(),
            da == abs_dict(d@),
            da.len() == n,
            forall|t: int| 0 <= t < n ==> da[t] == (((#[trigger] d@[t]).0)@, d@[t].1),
            forall|t: int| 0 <= t < j ==> !(eq_s(k@, (#[trigger] da[t]).0) && v == da[t].1),
        decreases n - j,
    {
        if expr_eq(&k.0, &d[j].0.0) && v == d[j].1 {
            proof {
                assert(0 <= j < da.len() && eq_s(k@, da[j as int].0) && v == da[j as int].1);
            }
            return true;
        }
        j = j + 1;
    }
    proof {
        assert(!dict_has_s(da, k@, v));
    }
    false
}

/// Whether some entry of `d` has a key that `k` equals and the value `v`.
fn dict_find_rev(d: &Vec<(Expr, i64)>, k: &Expr, v: i64) -> (r: bool)
    ensures
        r == dict_has_rev_s(abs_dict(d@), k@, v),
    decreases *d, 1nat,
{
    let ghost da = abs_dict(d@);
    proof {
        lemma_abs_dict(d@);
    }
    let n = d.len();
    let mut j: usize = 0;
    while j < n
        invariant
            j <= n,
            n == d@.len(),
            da == abs_dict(d@),
            da.len() == n,
            forall|t: int| 0 <= t < n ==> da[t] == (((#[trigger] d@[t]).0)@, d@[t].1),
            forall|t: int| 0 <= t < j ==> !(eq_s((#[trigger] da[t]).0, k@) && da[t].1 == v),
        decreases n - j,
    {
        if expr_eq(&d[j].0.0, &k.0) && d[j].1 == v {
            proof {
                assert(0 <= j < da.len() && eq_s(da[j as int].0, k@) && da[j as int].1 == v);
            }
            return true;
        }
        j = j + 1;
    }
    proof {
        assert(!dict_has_rev_s(da, k@, v));
    }
    false
}

/// Order-independent equality of two dictionaries as term maps.
fn dict_eq(d1: &Vec<(Expr, i64)>, d2: &Vec<(Expr, i64)>) -> (r: bool)
    ensures
        r == dict_eq_s(abs_dict(d1@), abs_dict(d2@)),
    decreases *d1, 2nat,
{
    let ghost da = abs_dict(d1@);
    let ghost db = abs_dict(d2@);
    proof {
        lemma_abs_dict(d1@);
        lemma_abs_dict(d2@);
    }
    let n1 = d1.len();
    let n2 = d2.len();
    if n1 != n2 {
        return false;
    }
    let mut i: usize = 0;
    while i < n1
        invariant
            i <= n1,
            n1 == d1@.len(),
            da == abs_dict(d1@),
            da.len() == n1,
            forall|t: int| 0 <= t < n1 ==> da[t] == (((#[trigger] d1@[t]).0)@, d1@[t].1),
            db == abs_dict(d2@),
            forall|t: int| 0 <= t < i ==> dict_has_s(db, (#[trigger] da[t]).0, da[t].1),
        decreases n1 - i,
    {
        if !dict_find(d2, &d1[i].0, d1[i].1) {
            return false;
        }
        proof {
            assert(da[i as int] == ((d1@[i as int].0)@, d1@[i as int].1));
            assert(dict_has_s(db, da[i as int].0, da[i as int].1));
        }
        i = i + 1;
    }
    let mut j: usize = 0;
    while j < n2
        invariant
            j <= n2,
            n2 == d2@.len(),
            db == abs_dict(d2@),
            db.len() == n2,
            forall|t: int| 0 <= t < n2 ==> db[t] == (((#[trigger] d2@[t]).0)@, d2@[t].1),
            da == abs_dict(d1@),
            n1 == d1@.len(),
            forall|t: int| 0 <= t < n1 ==> dict_has_s(db, (#[trigger] da[t]).0, da[t].1),
            n1 == n2,
            da.len() == n1,
            forall|t: int| 0 <= t < j ==> dict_has_rev_s(da, (#[trigger] db[t]).0, db[t].1),
        decreases n2 - j,
    {
        if !dict_find_rev(d1, &d2[j].0, d2[j].1) {
            return false;
        }
        proof {
            assert(db[j as int] == ((d2@[j as int].0)@, d2@[j as int].1));
            assert(dict_has_rev_s(da, db[j as int].0, db[j as int].1));
        }
        j = j + 1;
    }
    true
}

/// Structural equality of two trees. Only the tree structure counts: no
/// rewriting or simplification is performed.
pub fn expr_eq(a: &Expression, b: &Expression) -> (r: bool)
    ensures
        r == eq_s(a@, b@),
    decreases *a, 0nat,
{
    match (a, b) {
        (Expression::Number(x), Expression::Number(y)) => {
            proof {
                assert(a@ == ExprS::Num(*x));
                assert(b@ == ExprS::Num(*y));
                assert(eq_s(a@, b@) == (*x == *y));
            }
            *x == *y
        },
        (Expression::Symbol(x), Expression::Symbol(y)) => {
            proof {
                assert(a@ == ExprS::Sym(x@));
                assert(b@ == ExprS::Sym(y@));
                assert(eq_s(a@, b@) == (x@ == y@));
            }
            *x == *y
        },
        (
            Expression::Add { coeff: c1, dict: d1 },
            Expression::Add { coeff: c2, dict: d2 },
        ) => {
            proof {
                assert(a@ == (ExprS::AddS { coeff: *c1, dict: abs_dict(d1@) }));
                assert(b@ == (ExprS::AddS { coeff: *c2, dict: abs_dict(d2@) }));
                assert(eq_s(a@, b@) == (*c1 == *c2 && dict_eq_s(abs_dict(d1@), abs_dict(d2@))));
            }
            *c1 == *c2 && dict_eq(d1, d2)
        },
        (
            Expression::Mul { coeff: c1, dict: d1 },
            Expression::Mul { coeff: c2, dict: d2 },
        ) => {
            proof {
                assert(a@ == (ExprS::MulS { coeff: *c1, dict: abs_dict(d1@) }));
                assert(b@ == (ExprS::MulS { coeff: *c2, dict: abs_dict(d2@) }));
            }
            *c1 == *c2 && dict_eq(d1, d2)
        },
        (
            Expression::SingleArgFunc { base: f1, arg: a1 },
            Expression::SingleArgFunc { base: f2, arg: a2 },
        ) => {
            proof {
                assert(a@ == (ExprS::FuncS { name: f1.name@, arg: Box::new(a1@) }));
                assert(b@ == (ExprS::FuncS { name: f2.name@, arg: Box::new(a2@) }));
            }
            f1.name == f2.name && expr_eq(&a1.0, &a2.0)
        },
        _ => {
            proof {
                lemma_abs_variant(*a);
                lemma_abs_variant(*b);
                assert(!eq_s(a@, b@));
            }
            false
        },
    }
}

impl PartialEq for Expression {
    /// Structural equality of the two trees.
    fn eq(&self, other: &Self) -> (r: bool) {
        expr_eq(self, other)
    }
}

impl vstd::std_specs::cmp::PartialEqSpecImpl for Expression {
    open spec fn obeys_eq_spec() -> bool {
        true
    }

    open spec fn eq_spec(&self, other: &Self) -> bool {
        eq_s(self@, other@)
    }
}

impl Eq for Expression {}

impl PartialEq for Expr {
    /// Structural equality of the pointed-to trees.
    fn eq(&self, other: &Self) -> (r: bool) {
        expr_eq(&self.0, &other.0)
    }
}

impl vstd::std_specs::cmp::PartialEqSpecImpl for Expr {
    open spec fn obeys_eq_spec() -> bool {
        true
    }

    open spec fn eq_spec(&self, other: &Self) -> bool {
        eq_s(self@, other@)
    }
}

impl Eq for Expr {}

impl PartialEq for SingleArgFunc {
    /// Two descriptors are the same function exactly when their names
    /// are equal.
    fn eq(&self, other: &Self) -> (r: bool) {
        self.name == other.name
    }
}

impl vstd::std_specs::cmp::PartialEqSpecImpl for SingleArgFunc {
    open spec fn obeys_eq_spec() -> bool {
        true
    }

    open spec fn eq_spec(&self, other: &Self) -> bool {
        self.name@ == other.name@
    }
}

impl Eq for SingleArgFunc {}

} // verus!
