//! Executable total order on expression trees.
//!
//! `cmp_expr` computes the structural order `cmp_s` that sorted
//! dictionaries are keyed by.

use vstd::prelude::*;
use crate::expression::{abs_dict, lemma_abs_dict, Expr, Expression};
use crate::model::{cmp_chars_s, cmp_dict_s, cmp_i64_s, cmp_s, rank_s};

verus! {

/// Three-way comparison of two coefficients.
pub(crate) fn cmp_vals(a: i64, b: i64) -> (r: i8)
    ensures
        r as int == cmp_i64_s(a, b),
{
    if a < b {
        -1
    } else if a > b {
        1
    } else {
        0
    }
}

/// Rank of a node's variant in the structural order.
fn rank_of(e: &Expression) -> (r: i8)
    ensures
        r as int == rank_s(e@),
{
    match e {
        Expression::Number(_) => 0,
        Expression::Symbol(_) => 1,
        Expression::Add { .. } => 2,
        Expression::Mul { .. } => 3,
        Expression::SingleArgFunc { .. } => 4,
    }
}

/// Lexicographic three-way comparison of two strings.
pub(crate) fn cmp_str(a: &str, b: &str) -> (r: i8)
    ensures
        r as int == cmp_chars_s(a@, b@),
{
    let alen = a.unicode_len();
    let blen = b.unicode_len();
    let mut i: usize = 0;
    proof {
        assert(a@.skip(0) =~= a@);
        assert(b@.skip(0) =~= b@);
    }
    loop
        invariant
            i <= alen,
            i <= blen,
            alen == a@.len(),
            blen == b@.len(),
            cmp_chars_s(a@, b@) == cmp_chars_s(a@.skip(i as int), b@.skip(i as int)),
        decreases alen - i,
    {
        let ghost sa = a@.skip(i as int);
        let ghost sb = b@.skip(i as int);
        if i == alen && i == blen {
            assert(sa.len() == 0 && sb.len() == 0);
            return 0;
        }
        if i == alen {
            assert(sa.len() == 0 && sb.len() > 0);
            return -1;
        }
        if i == blen {
            return 1;
        }
        let ca = a.get_char(i);
        let cb = b.get_char(i);
        proof {
            assert(sa[0] == a@[i as int]);
            assert(sb[0] == b@[i as int]);
        }
        if ca != cb {
            if (ca as u32) < (cb as u32) {
                return -1;
            } else {
                return 1;
            }
        }
        proof {
            assert(sa.drop_first() =~= a@.skip(i as int + 1));
            assert(sb.drop_first() =~= b@.skip(i as int + 1));
        }
        i = i + 1;
    }
}

/// Lexicographic three-way comparison of two dictionaries.
fn cmp_dicts(d1: &Vec<(Expr, i64)>, d2: &Vec<(Expr, i64)>) -> (r: i8)
    ensures
        r as int == cmp_dict_s(abs_dict(d1@), abs_dict(d2@)),
    decreases *d1,
{
    let ghost va = abs_dict(d1@);
    let ghost vb = abs_dict(d2@);
    proof {
        lemma_abs_dict(d1@);
        lemma_abs_dict(d2@);
        assert(va.skip(0) =~= va);
        assert(vb.skip(0) =~= vb);
    }
    let n1 = d1.len();
    let n2 = d2.len();
    let mut i: usize = 0;
    loop
        invariant
            i <= n1,
            i <= n2,
            n1 == d1@.len(),
            n2 == d2@.len(),
            va == abs_dict(d1@),
            vb == abs_dict(d2@),
            va.len() == n1,
            vb.len() == n2,
            forall|k: int| 0 <= k < n1 ==> va[k] == (((#[trigger] d1@[k]).0)@, d1@[k].1),
            forall|k: int| 0 <= k < n2 ==> vb[k] == (((#[trigger] d2@[k]).0)@, d2@[k].1),
            cmp_dict_s(va, vb) == cmp_dict_s(va.skip(i as int), vb.skip(i as int)),
        decreases n1 - i,
    {
        let ghost sa = va.skip(i as int);
        let ghost sb = vb.skip(i as int);
        if i == n1 && i == n2 {
            assert(sa.len() == 0 && sb.len() == 0);
            return 0;
        }
        if i == n1 {
            return -1;
        }
        if i == n2 {
            return 1;
        }
        proof {
            assert(sa[0] == va[i as int]);
            assert(sb[0] == vb[i as int]);
        }
        let c = cmp_expr(&d1[i].0.0, &d2[i].0.0);
        if c != 0 {
            return c;
        }
        let v1 = d1[i].1;
        let v2 = d2[i].1;
        if v1 != v2 {
            return cmp_vals(v1, v2);
        }
        proof {
            assert(sa.drop_first() =~= va.skip(i as int + 1));
            assert(sb.drop_first() =~= vb.skip(i as int + 1));
        }
        i = i + 1;
    }
}

/// Three-way comparison of two expression trees in the structural order.
pub fn cmp_expr(a: &Expression, b: &Expression) -> (r: i8)
    ensures
        r as int == cmp_s(a@, b@),
    decreases *a,
{
    match (a, b) {
        (Expression::Number(x), Expression::Number(y)) => cmp_vals(*x, *y),
        (Expression::Symbol(x), Expression::Symbol(y)) => cmp_str(x.as_str(), y.as_str()),
        (
            Expression::Add { coeff: c1, dict: d1 },
            Expression::Add { coeff: c2, dict: d2 },
        ) => {
            let c = cmp_vals(*c1, *c2);
            if c != 0 {
                c
            } else {
                cmp_dicts(d1, d2)
            }
        },
        (
            Expression::Mul { coeff: c1, dict: d1 },
            Expression::Mul { coeff: c2, dict: d2 },
        ) => {
            let c = cmp_vals(*c1, *c2);
            if c != 0 {
                c
            } else {
                cmp_dicts(d1, d2)
            }
        },
        (
            Expression::SingleArgFunc { base: f1, arg: a1 },
            Expression::SingleArgFunc { base: f2, arg: a2 },
        ) => {
            let c = cmp_str(f1.name.as_str(), f2.name.as_str());
            if c != 0 {
                c
            } else {
                cmp_expr(&a1.0, &a2.0)
            }
        },
        _ => cmp_vals(rank_of(a) as i64, rank_of(b) as i64),
    }
}

} // verus!
