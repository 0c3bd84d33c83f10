//! The algebraic laws of the kernel, stated and proved over the ghost
//! model that the executable contracts are written against.

use vstd::prelude::*;
use crate::coeff::{
    lemma_wadd_assoc, lemma_wadd_comm, lemma_wadd_zero, lemma_wmul_assoc, lemma_wmul_comm,
    lemma_wmul_one, wadd, wneg, wmul,
};
use crate::model::{
    combine_opt, combine_val, cmp_s, dict_get, dict_insert, dict_merge, dict_merge_scaled,
    dict_no_zero, dict_sorted, dict_wf, eq_s, lemma_cmp_antisym, lemma_cmp_eq, lemma_eq_refl,
    lemma_insert_get, lemma_insert_key_p, lemma_insert_no_zero, lemma_insert_sorted,
    lemma_merge_get, lemma_merge_key_p, lemma_merge_no_zero, lemma_merge_sorted,
    lemma_sorted_unique, wf_s, ExprS,
};
use crate::op::{add_s, mul_s, neg_s, sub_s};

verus! {

/// The number a stored value stands for: zero when absent.
pub open spec fn opt_val(o: Option<i64>) -> i64 {
    match o {
        Option::None => 0,
        Option::Some(u) => u,
    }
}

/// An absent entry is the only way to store zero.
pub open spec fn zero_free(o: Option<i64>) -> bool {
    o matches Some(u) ==> u != 0
}

/// Zero-free stored values are determined by the number they stand for.
proof fn lemma_opt_ext(o1: Option<i64>, o2: Option<i64>)
    requires
        zero_free(o1),
        zero_free(o2),
        opt_val(o1) == opt_val(o2),
    ensures
        o1 == o2,
{
}

/// Looking a key up in a zero-free dictionary gives a zero-free value.
proof fn lemma_get_zero_free(d: Seq<(ExprS, i64)>, k: ExprS)
    requires
        dict_no_zero(d),
    ensures
        zero_free(dict_get(d, k)),
    decreases d,
{
    if d.len() > 0 && d[0].0 != k {
        assert forall|t: int| 0 <= t < d.drop_first().len() implies (#[trigger] d.drop_first()[
            t]).1 != 0 by {
            assert(d.drop_first()[t] == d[t + 1]);
        }
        lemma_get_zero_free(d.drop_first(), k);
    }
}

/// What an update stores, as a number.
proof fn lemma_combine_val_val(o: Option<i64>, v: i64)
    ensures
        opt_val(combine_val(o, v)) == wadd(opt_val(o), v),
        zero_free(combine_val(o, v)),
{
    lemma_wadd_zero(v);
    lemma_wadd_comm(opt_val(o), v);
}

/// What a merge stores, as a number.
proof fn lemma_combine_opt_val(o1: Option<i64>, o2: Option<i64>)
    requires
        zero_free(o1),
    ensures
        opt_val(combine_opt(o1, o2)) == wadd(opt_val(o1), opt_val(o2)),
        zero_free(combine_opt(o1, o2)),
{
    match o2 {
        Option::None => {
            lemma_wadd_zero(opt_val(o1));
        },
        Option::Some(v) => {
            lemma_combine_val_val(o1, v);
        },
    }
}

/// Merging into the empty dictionary rebuilds the other side.
proof fn lemma_merge_empty(d: Seq<(ExprS, i64)>)
    requires
        dict_sorted(d),
        dict_no_zero(d),
    ensures
        dict_merge(Seq::empty(), d) == d,
{
    let e = Seq::<(ExprS, i64)>::empty();
    lemma_merge_sorted(e, d);
    assert forall|k: ExprS| #[trigger] dict_get(dict_merge(e, d), k) == dict_get(d, k) by {
        lemma_merge_get(e, d, k);
        lemma_get_zero_free(d, k);
        lemma_combine_opt_val(dict_get(e, k), dict_get(d, k));
        lemma_merge_no_zero(e, d);
        lemma_get_zero_free(dict_merge(e, d), k);
        lemma_wadd_zero(opt_val(dict_get(d, k)));
        lemma_opt_ext(dict_get(dict_merge(e, d), k), dict_get(d, k));
    }
    lemma_sorted_unique(dict_merge(e, d), d);
}

/// Merging one dictionary into another is symmetric.
proof fn lemma_merge_comm(d1: Seq<(ExprS, i64)>, d2: Seq<(ExprS, i64)>)
    requires
        dict_sorted(d1),
        dict_sorted(d2),
        dict_no_zero(d1),
        dict_no_zero(d2),
    ensures
        dict_merge(d1, d2) == dict_merge(d2, d1),
{
    let l = dict_merge(d1, d2);
    let r = dict_merge(d2, d1);
    lemma_merge_sorted(d1, d2);
    lemma_merge_sorted(d2, d1);
    lemma_merge_no_zero(d1, d2);
    lemma_merge_no_zero(d2, d1);
    assert forall|k: ExprS| #[trigger] dict_get(l, k) == dict_get(r, k) by {
        lemma_merge_get(d1, d2, k);
        lemma_merge_get(d2, d1, k);
        lemma_get_zero_free(d1, k);
        lemma_get_zero_free(d2, k);
        lemma_combine_opt_val(dict_get(d1, k), dict_get(d2, k));
        lemma_combine_opt_val(dict_get(d2, k), dict_get(d1, k));
        lemma_wadd_comm(opt_val(dict_get(d1, k)), opt_val(dict_get(d2, k)));
        lemma_opt_ext(dict_get(l, k), dict_get(r, k));
    }
    lemma_sorted_unique(l, r);
}

/// Merging is associative.
proof fn lemma_merge_assoc(a: Seq<(ExprS, i64)>, b: Seq<(ExprS, i64)>, c: Seq<(ExprS, i64)>)
    requires
        dict_sorted(a),
        dict_sorted(b),
        dict_sorted(c),
        dict_no_zero(a),
        dict_no_zero(b),
        dict_no_zero(c),
    ensures
        dict_merge(dict_merge(a, b), c) == dict_merge(a, dict_merge(b, c)),
{
    let l = dict_merge(dict_merge(a, b), c);
    let r = dict_merge(a, dict_merge(b, c));
    lemma_merge_sorted(a, b);
    lemma_merge_sorted(b, c);
    lemma_merge_sorted(dict_merge(a, b), c);
    lemma_merge_sorted(a, dict_merge(b, c));
    lemma_merge_no_zero(a, b);
    lemma_merge_no_zero(b, c);
    lemma_merge_no_zero(dict_merge(a, b), c);
    lemma_merge_no_zero(a, dict_merge(b, c));
    assert forall|k: ExprS| #[trigger] dict_get(l, k) == dict_get(r, k) by {
        lemma_merge_get(dict_merge(a, b), c, k);
        lemma_merge_get(a, b, k);
        lemma_merge_get(a, dict_merge(b, c), k);
        lemma_merge_get(b, c, k);
        lemma_get_zero_free(a, k);
        lemma_get_zero_free(b, k);
        lemma_get_zero_free(c, k);
        let va = opt_val(dict_get(a, k));
        let vb = opt_val(dict_get(b, k));
        let vc = opt_val(dict_get(c, k));
        lemma_combine_opt_val(dict_get(a, k), dict_get(b, k));
        lemma_combine_opt_val(dict_get(b, k), dict_get(c, k));
        lemma_combine_opt_val(dict_get(dict_merge(a, b), k), dict_get(c, k));
        lemma_combine_opt_val(dict_get(a, k), dict_get(dict_merge(b, c), k));
        lemma_wadd_assoc(va, vb, vc);
        lemma_opt_ext(dict_get(l, k), dict_get(r, k));
    }
    lemma_sorted_unique(l, r);
}

/// Updating one side before a merge is updating the merged result.
proof fn lemma_merge_insert_left(
    d1: Seq<(ExprS, i64)>,
    d2: Seq<(ExprS, i64)>,
    k: ExprS,
    v: i64,
)
    requires
        dict_sorted(d1),
        dict_sorted(d2),
        dict_no_zero(d1),
        dict_no_zero(d2),
    ensures
        dict_merge(dict_insert(d1, k, v), d2) == dict_insert(dict_merge(d1, d2), k, v),
{
    let l = dict_merge(dict_insert(d1, k, v), d2);
    let r = dict_insert(dict_merge(d1, d2), k, v);
    lemma_insert_sorted(d1, k, v);
    lemma_insert_no_zero(d1, k, v);
    lemma_merge_sorted(dict_insert(d1, k, v), d2);
    lemma_merge_no_zero(dict_insert(d1, k, v), d2);
    lemma_merge_sorted(d1, d2);
    lemma_merge_no_zero(d1, d2);
    lemma_insert_sorted(dict_merge(d1, d2), k, v);
    lemma_insert_no_zero(dict_merge(d1, d2), k, v);
    assert forall|q: ExprS| #[trigger] dict_get(l, q) == dict_get(r, q) by {
        lemma_merge_get(dict_insert(d1, k, v), d2, q);
        lemma_insert_get(d1, k, v, q);
        lemma_insert_get(dict_merge(d1, d2), k, v, q);
        lemma_merge_get(d1, d2, q);
        lemma_get_zero_free(d1, q);
        lemma_get_zero_free(d2, q);
        lemma_get_zero_free(d1, k);
        let g1 = dict_get(d1, q);
        let g2 = dict_get(d2, q);
        lemma_combine_val_val(dict_get(d1, k), v);
        lemma_combine_opt_val(dict_get(dict_insert(d1, k, v), q), g2);
        lemma_combine_opt_val(g1, g2);
        lemma_combine_val_val(dict_get(dict_merge(d1, d2), q), v);
        if q == k {
            lemma_wadd_assoc(opt_val(g1), v, opt_val(g2));
            lemma_wadd_comm(v, opt_val(g2));
            lemma_wadd_assoc(opt_val(g1), opt_val(g2), v);
        }
        lemma_opt_ext(dict_get(l, q), dict_get(r, q));
    }
    lemma_sorted_unique(l, r);
}

/// Coefficient a term contributes when absorbed by addition.
pub open spec fn addend_coeff(x: ExprS) -> i64 {
    match x {
        ExprS::Num(n) => n,
        ExprS::AddS { coeff, .. } => coeff,
        _ => 0,
    }
}

/// Dictionary a term contributes when absorbed by addition.
pub open spec fn addend_dict(x: ExprS) -> Seq<(ExprS, i64)> {
    match x {
        ExprS::Num(_) => Seq::empty(),
        ExprS::AddS { dict, .. } => dict,
        _ => seq![(x, 1i64)],
    }
}

/// The contributed dictionary of a well-formed term is well-formed.
proof fn lemma_addend_dict_wf(x: ExprS)
    requires
        wf_s(x),
    ensures
        dict_sorted(addend_dict(x)),
        dict_no_zero(addend_dict(x)),
        forall|i: int| 0 <= i < addend_dict(x).len() ==> wf_s((#[trigger] addend_dict(x)[i]).0),
{
    let d = addend_dict(x);
    match x {
        ExprS::Num(_) => {
            assert(d.len() == 0);
            assert(dict_sorted(d));
            assert(dict_no_zero(d));
        },
        ExprS::AddS { coeff, dict } => {
            assert(wf_s(x) == dict_wf(dict));
            assert(dict_sorted(d));
            assert(dict_no_zero(d));
        },
        _ => {
            assert(d == seq![(x, 1i64)]);
            assert(d.len() == 1);
            assert(d[0] == (x, 1i64));
            assert(dict_sorted(d));
            assert(dict_no_zero(d));
        },
    }
}

/// Unless both operands are constants, addition builds the `Add` node
/// whose coefficient adds the contributed coefficients and whose
/// dictionary merges the contributed dictionaries.
proof fn lemma_add_char(a: ExprS, b: ExprS)
    requires
        wf_s(a),
        wf_s(b),
        !(a is Num && b is Num),
    ensures
        add_s(a, b) == (ExprS::AddS {
            coeff: wadd(addend_coeff(a), addend_coeff(b)),
            dict: dict_merge(addend_dict(a), addend_dict(b)),
        }),
{
    lemma_addend_dict_wf(a);
    lemma_addend_dict_wf(b);
    let e = Seq::<(ExprS, i64)>::empty();
    match (a, b) {
        (ExprS::Num(x), ExprS::AddS { coeff, dict }) => {
            lemma_merge_empty(dict);
        },
        (ExprS::AddS { coeff, dict }, ExprS::Num(x)) => {
            lemma_wadd_comm(x, coeff);
            assert(dict_merge(dict, e) == dict);
        },
        (ExprS::AddS { coeff: c1, dict: d1 }, ExprS::AddS { coeff: c2, dict: d2 }) => {},
        (ExprS::AddS { coeff, dict }, _) => {
            lemma_wadd_zero(coeff);
            assert(addend_dict(b) == seq![(b, 1i64)]);
            assert(dict_merge(dict, seq![(b, 1i64)]) == dict_insert(dict, b, 1)) by {
                assert(seq![(b, 1i64)].drop_first() =~= e);
                assert(dict_merge(dict_insert(dict, b, 1), e) == dict_insert(dict, b, 1));
            }
        },
        (_, ExprS::AddS { coeff, dict }) => {
            lemma_wadd_zero(coeff);
            assert(seq![(a, 1i64)] == dict_insert(e, a, 1)) by {
                assert(seq![(a, 1i64)] =~= dict_insert(e, a, 1));
            }
            lemma_merge_insert_left(e, dict, a, 1);
            lemma_merge_empty(dict);
        },
        (ExprS::Num(x), _) => {
            lemma_wadd_zero(x);
            lemma_wadd_comm(x, 0);
            assert(dict_merge(e, seq![(b, 1i64)]) == seq![(b, 1i64)]) by {
                assert(seq![(b, 1i64)].drop_first() =~= e);
                assert(dict_insert(e, b, 1) =~= seq![(b, 1i64)]);
                assert(dict_merge(dict_insert(e, b, 1), e) == dict_insert(e, b, 1));
            }
        },
        (_, ExprS::Num(x)) => {
            lemma_wadd_zero(x);
            assert(dict_merge(seq![(a, 1i64)], e) == seq![(a, 1i64)]);
        },
        _ => {
            lemma_wadd_zero(0);
            assert(dict_insert(e, a, 1) =~= seq![(a, 1i64)]);
            assert(seq![(b, 1i64)].drop_first() =~= e);
            assert(dict_merge(seq![(a, 1i64)], seq![(b, 1i64)]) == dict_insert(
                dict_insert(e, a, 1),
                b,
                1,
            )) by {
                assert(dict_merge(dict_insert(seq![(a, 1i64)], b, 1), e) == dict_insert(
                    seq![(a, 1i64)],
                    b,
                    1,
                ));
            }
        },
    }
}

/// The sum of two well-formed trees is well-formed.
pub proof fn lemma_add_wf(a: ExprS, b: ExprS)
    requires
        wf_s(a),
        wf_s(b),
    ensures
        wf_s(add_s(a, b)),
{
    if a is Num && b is Num {
    } else {
        lemma_add_char(a, b);
        lemma_addend_dict_wf(a);
        lemma_addend_dict_wf(b);
        let m = dict_merge(addend_dict(a), addend_dict(b));
        lemma_merge_sorted(addend_dict(a), addend_dict(b));
        lemma_merge_no_zero(addend_dict(a), addend_dict(b));
        let p = |x: ExprS| wf_s(x);
        assert forall|i: int| 0 <= i < addend_dict(a).len() implies p(
            (#[trigger] addend_dict(a)[i]).0,
        ) by {}
        assert forall|i: int| 0 <= i < addend_dict(b).len() implies p(
            (#[trigger] addend_dict(b)[i]).0,
        ) by {}
        lemma_merge_key_p(addend_dict(a), addend_dict(b), p);
        assert forall|i: int| 0 <= i < m.len() implies wf_s((#[trigger] m[i]).0) by {
            assert(p(m[i].0));
        }
        assert(dict_wf(m));
        assert(wf_s(add_s(a, b)));
    }
}

/// Commutativity: for all expressions `a`, `b`, the sum `a + b` is the
/// same tree as `b + a`, so the two canonicalize alike and compare
/// equal.
pub proof fn lemma_add_commutative(a: ExprS, b: ExprS)
    requires
        wf_s(a),
        wf_s(b),
    ensures
        add_s(a, b) == add_s(b, a),
        eq_s(crate::canonical::canon_s(add_s(a, b)), crate::canonical::canon_s(add_s(b, a))),
{
    if a is Num && b is Num {
        lemma_wadd_comm(addend_coeff(a), addend_coeff(b));
    } else {
        lemma_add_char(a, b);
        lemma_add_char(b, a);
        lemma_addend_dict_wf(a);
        lemma_addend_dict_wf(b);
        lemma_wadd_comm(addend_coeff(a), addend_coeff(b));
        lemma_merge_comm(addend_dict(a), addend_dict(b));
    }
    lemma_eq_refl(crate::canonical::canon_s(add_s(a, b)));
}

/// Associativity: for all expressions `a`, `b`, `c`, the sums
/// `(a + b) + c` and `a + (b + c)` are the same tree, so the two
/// canonicalize alike and compare equal.
pub proof fn lemma_add_associative(a: ExprS, b: ExprS, c: ExprS)
    requires
        wf_s(a),
        wf_s(b),
        wf_s(c),
    ensures
        add_s(add_s(a, b), c) == add_s(a, add_s(b, c)),
        eq_s(
            crate::canonical::canon_s(add_s(add_s(a, b), c)),
            crate::canonical::canon_s(add_s(a, add_s(b, c))),
        ),
{
    let ab = add_s(a, b);
    let bc = add_s(b, c);
    lemma_add_wf(a, b);
    lemma_add_wf(b, c);
    lemma_addend_dict_wf(a);
    lemma_addend_dict_wf(b);
    lemma_addend_dict_wf(c);
    if a is Num && b is Num && c is Num {
        lemma_wadd_assoc(addend_coeff(a), addend_coeff(b), addend_coeff(c));
    } else if a is Num && b is Num {
        // the left sum is the folded constant; the right sum absorbs it
        lemma_add_char(ab, c);
        lemma_add_char(b, c);
        lemma_add_char(a, bc);
        lemma_wadd_assoc(addend_coeff(a), addend_coeff(b), addend_coeff(c));
        lemma_merge_sorted(Seq::empty(), addend_dict(c));
        lemma_merge_no_zero(Seq::empty(), addend_dict(c));
        lemma_merge_empty(addend_dict(c));
        lemma_merge_empty(dict_merge(Seq::empty(), addend_dict(c)));
    } else if b is Num && c is Num {
        // the right sum is the folded constant; the left sum absorbs it
        lemma_add_char(a, b);
        lemma_add_char(ab, c);
        lemma_add_char(a, bc);
        lemma_wadd_assoc(addend_coeff(a), addend_coeff(b), addend_coeff(c));
        assert(dict_merge(addend_dict(a), Seq::empty()) == addend_dict(a));
        assert(addend_dict(ab) == dict_merge(addend_dict(a), Seq::empty()));
    } else {
        lemma_add_char(a, b);
        lemma_add_char(b, c);
        lemma_add_char(ab, c);
        lemma_add_char(a, bc);
        lemma_wadd_assoc(addend_coeff(a), addend_coeff(b), addend_coeff(c));
        lemma_merge_assoc(addend_dict(a), addend_dict(b), addend_dict(c));
    }
    lemma_eq_refl(crate::canonical::canon_s(add_s(add_s(a, b), c)));
}


/// Coefficient a term contributes when absorbed by multiplication.
pub open spec fn factor_coeff(x: ExprS) -> i64 {
    match x {
        ExprS::Num(n) => n,
        ExprS::MulS { coeff, .. } => coeff,
        _ => 1,
    }
}

/// Dictionary a term contributes when absorbed by multiplication.
pub open spec fn factor_dict(x: ExprS) -> Seq<(ExprS, i64)> {
    match x {
        ExprS::Num(_) => Seq::empty(),
        ExprS::MulS { dict, .. } => dict,
        _ => seq![(x, 1i64)],
    }
}

/// The contributed dictionary of a well-formed factor is well-formed.
proof fn lemma_factor_dict_wf(x: ExprS)
    requires
        wf_s(x),
    ensures
        dict_sorted(factor_dict(x)),
        dict_no_zero(factor_dict(x)),
        forall|i: int| 0 <= i < factor_dict(x).len() ==> wf_s((#[trigger] factor_dict(x)[i]).0),
{
    let d = factor_dict(x);
    match x {
        ExprS::Num(_) => {
            assert(d.len() == 0);
            assert(dict_sorted(d));
            assert(dict_no_zero(d));
        },
        ExprS::MulS { coeff, dict } => {
            assert(wf_s(x) == dict_wf(dict));
            assert(dict_sorted(d));
            assert(dict_no_zero(d));
        },
        _ => {
            assert(d == seq![(x, 1i64)]);
            assert(d.len() == 1);
            assert(d[0] == (x, 1i64));
            assert(dict_sorted(d));
            assert(dict_no_zero(d));
        },
    }
}

/// Unless both operands are constants, multiplication builds the `Mul`
/// node whose coefficient multiplies the contributed coefficients and
/// whose dictionary merges the contributed dictionaries, adding the
/// exponents of shared keys.
proof fn lemma_mul_char(a: ExprS, b: ExprS)
    requires
        wf_s(a),
        wf_s(b),
        !(a is Num && b is Num),
    ensures
        mul_s(a, b) == (ExprS::MulS {
            coeff: wmul(factor_coeff(a), factor_coeff(b)),
            dict: dict_merge(factor_dict(a), factor_dict(b)),
        }),
{
    lemma_factor_dict_wf(a);
    lemma_factor_dict_wf(b);
    let e = Seq::<(ExprS, i64)>::empty();
    match (a, b) {
        (ExprS::Num(x), ExprS::MulS { coeff, dict }) => {
            lemma_merge_empty(dict);
        },
        (ExprS::MulS { coeff, dict }, ExprS::Num(x)) => {
            lemma_wmul_comm(x, coeff);
            assert(dict_merge(dict, e) == dict);
        },
        (ExprS::MulS { coeff: c1, dict: d1 }, ExprS::MulS { coeff: c2, dict: d2 }) => {},
        (ExprS::MulS { coeff, dict }, _) => {
            lemma_wmul_one(coeff);
            assert(factor_dict(b) == seq![(b, 1i64)]);
            assert(dict_merge(dict, seq![(b, 1i64)]) == dict_insert(dict, b, 1)) by {
                assert(seq![(b, 1i64)].drop_first() =~= e);
                assert(dict_merge(dict_insert(dict, b, 1), e) == dict_insert(dict, b, 1));
            }
        },
        (_, ExprS::MulS { coeff, dict }) => {
            lemma_wmul_one(coeff);
            assert(seq![(a, 1i64)] == dict_insert(e, a, 1)) by {
                assert(seq![(a, 1i64)] =~= dict_insert(e, a, 1));
            }
            lemma_merge_insert_left(e, dict, a, 1);
            lemma_merge_empty(dict);
        },
        (ExprS::Num(x), _) => {
            lemma_wmul_one(x);
            assert(dict_merge(e, seq![(b, 1i64)]) == seq![(b, 1i64)]) by {
                assert(seq![(b, 1i64)].drop_first() =~= e);
                assert(dict_insert(e, b, 1) =~= seq![(b, 1i64)]);
                assert(dict_merge(dict_insert(e, b, 1), e) == dict_insert(e, b, 1));
            }
        },
        (_, ExprS::Num(x)) => {
            lemma_wmul_one(x);
            assert(dict_merge(seq![(a, 1i64)], e) == seq![(a, 1i64)]);
        },
        _ => {
            lemma_wmul_one(1);
            assert(dict_insert(e, a, 1) =~= seq![(a, 1i64)]);
            assert(seq![(b, 1i64)].drop_first() =~= e);
            assert(dict_merge(seq![(a, 1i64)], seq![(b, 1i64)]) == dict_insert(
                dict_insert(e, a, 1),
                b,
                1,
            )) by {
                assert(dict_merge(dict_insert(seq![(a, 1i64)], b, 1), e) == dict_insert(
                    seq![(a, 1i64)],
                    b,
                    1,
                ));
            }
        },
    }
}

/// The product of two well-formed trees is well-formed.
pub proof fn lemma_mul_wf(a: ExprS, b: ExprS)
    requires
        wf_s(a),
        wf_s(b),
    ensures
        wf_s(mul_s(a, b)),
{
    if a is Num && b is Num {
    } else {
        lemma_mul_char(a, b);
        lemma_factor_dict_wf(a);
        lemma_factor_dict_wf(b);
        let m = dict_merge(factor_dict(a), factor_dict(b));
        lemma_merge_sorted(factor_dict(a), factor_dict(b));
        lemma_merge_no_zero(factor_dict(a), factor_dict(b));
        let p = |x: ExprS| wf_s(x);
        assert forall|i: int| 0 <= i < factor_dict(a).len() implies p(
            (#[trigger] factor_dict(a)[i]).0,
        ) by {}
        assert forall|i: int| 0 <= i < factor_dict(b).len() implies p(
            (#[trigger] factor_dict(b)[i]).0,
        ) by {}
        lemma_merge_key_p(factor_dict(a), factor_dict(b), p);
        assert forall|i: int| 0 <= i < m.len() implies wf_s((#[trigger] m[i]).0) by {
            assert(p(m[i].0));
        }
        assert(dict_wf(m));
        assert(wf_s(mul_s(a, b)));
    }
}

/// Commutativity of multiplication: for all expressions `a`, `b`, the
/// product `a * b` is the same tree as `b * a`.
pub proof fn lemma_mul_commutative(a: ExprS, b: ExprS)
    requires
        wf_s(a),
        wf_s(b),
    ensures
        mul_s(a, b) == mul_s(b, a),
{
    if a is Num && b is Num {
        lemma_wmul_comm(factor_coeff(a), factor_coeff(b));
    } else {
        lemma_mul_char(a, b);
        lemma_mul_char(b, a);
        lemma_factor_dict_wf(a);
        lemma_factor_dict_wf(b);
        lemma_wmul_comm(factor_coeff(a), factor_coeff(b));
        lemma_merge_comm(factor_dict(a), factor_dict(b));
    }
}

/// Associativity of multiplication: for all expressions `a`, `b`, `c`,
/// the products `(a * b) * c` and `a * (b * c)` are the same tree.
pub proof fn lemma_mul_associative(a: ExprS, b: ExprS, c: ExprS)
    requires
        wf_s(a),
        wf_s(b),
        wf_s(c),
    ensures
        mul_s(mul_s(a, b), c) == mul_s(a, mul_s(b, c)),
{
    let ab = mul_s(a, b);
    let bc = mul_s(b, c);
    lemma_mul_wf(a, b);
    lemma_mul_wf(b, c);
    lemma_factor_dict_wf(a);
    lemma_factor_dict_wf(b);
    lemma_factor_dict_wf(c);
    if a is Num && b is Num && c is Num {
        lemma_wmul_assoc(factor_coeff(a), factor_coeff(b), factor_coeff(c));
    } else if a is Num && b is Num {
        lemma_mul_char(ab, c);
        lemma_mul_char(b, c);
        lemma_mul_char(a, bc);
        lemma_wmul_assoc(factor_coeff(a), factor_coeff(b), factor_coeff(c));
        lemma_merge_sorted(Seq::empty(), factor_dict(c));
        lemma_merge_no_zero(Seq::empty(), factor_dict(c));
        lemma_merge_empty(factor_dict(c));
        lemma_merge_empty(dict_merge(Seq::empty(), factor_dict(c)));
    } else if b is Num && c is Num {
        lemma_mul_char(a, b);
        lemma_mul_char(ab, c);
        lemma_mul_char(a, bc);
        lemma_wmul_assoc(factor_coeff(a), factor_coeff(b), factor_coeff(c));
        assert(dict_merge(factor_dict(a), Seq::empty()) == factor_dict(a));
        assert(factor_dict(ab) == dict_merge(factor_dict(a), Seq::empty()));
    } else {
        lemma_mul_char(a, b);
        lemma_mul_char(b, c);
        lemma_mul_char(ab, c);
        lemma_mul_char(a, bc);
        lemma_wmul_assoc(factor_coeff(a), factor_coeff(b), factor_coeff(c));
        lemma_merge_assoc(factor_dict(a), factor_dict(b), factor_dict(c));
    }
}

/// A tree in canonical form: no rule fires anywhere. Dictionaries are
/// nonempty, sorted and zero-free; their keys are canonical and are
/// neither constants nor nodes of the same kind as their parent; and no
/// node is a bare `0 + x` or `1 * x`.
pub open spec fn canonical_s(e: ExprS) -> bool
    decreases e,
{
    match e {
        ExprS::Num(_) => true,
        ExprS::Sym(_) => true,
        ExprS::FuncS { .. } => true,
        ExprS::AddS { coeff, dict } => {
            &&& dict.len() >= 1
            &&& dict_sorted(dict)
            &&& dict_no_zero(dict)
            &&& !(coeff == 0 && dict.len() == 1 && dict[0].1 == 1)
            &&& (forall|i: int|
                0 <= i < dict.len() ==> canonical_s((#[trigger] dict[i]).0) && !(dict[i].0 is Num)
                    && !(dict[i].0 is AddS))
        },
        ExprS::MulS { coeff, dict } => {
            &&& coeff != 0
            &&& dict.len() >= 1
            &&& dict_sorted(dict)
            &&& dict_no_zero(dict)
            &&& !(coeff == 1 && dict.len() == 1 && dict[0].1 == 1)
            &&& (forall|i: int|
                0 <= i < dict.len() ==> canonical_s((#[trigger] dict[i]).0) && !(dict[i].0 is Num)
                    && !(dict[i].0 is MulS))
        },
    }
}

/// All keys of a dictionary come before `k` in the structural order.
pub open spec fn keys_below(d: Seq<(ExprS, i64)>, k: ExprS) -> bool {
    forall|i: int| 0 <= i < d.len() ==> cmp_s((#[trigger] d[i]).0, k) < 0
}

/// Adding an entry whose key follows every present key appends it.
proof fn lemma_insert_append(d: Seq<(ExprS, i64)>, k: ExprS, v: i64)
    requires
        keys_below(d, k),
        v != 0,
    ensures
        dict_insert(d, k, v) == d + seq![(k, v)],
    decreases d,
{
    if d.len() == 0 {
        assert(dict_insert(d, k, v) =~= d + seq![(k, v)]);
    } else {
        lemma_cmp_antisym(k, d[0].0);
        assert(cmp_s(k, d[0].0) > 0);
        let tail = d.drop_first();
        assert forall|i: int| 0 <= i < tail.len() implies cmp_s((#[trigger] tail[i]).0, k)
            < 0 by {
            assert(tail[i] == d[i + 1]);
        }
        lemma_insert_append(tail, k, v);
        assert(seq![d[0]] + (tail + seq![(k, v)]) =~= d + seq![(k, v)]);
    }
}

/// Scaled merging keeps the accumulator sorted.
proof fn lemma_merge_scaled_sorted(acc: Seq<(ExprS, i64)>, sd: Seq<(ExprS, i64)>, f: i64)
    requires
        dict_sorted(acc),
    ensures
        dict_sorted(dict_merge_scaled(acc, sd, f)),
    decreases sd,
{
    if sd.len() > 0 {
        lemma_insert_sorted(acc, sd[0].0, wmul(sd[0].1, f));
        lemma_merge_scaled_sorted(dict_insert(acc, sd[0].0, wmul(sd[0].1, f)), sd.drop_first(), f);
    }
}

/// Scaled merging never introduces a zero value.
proof fn lemma_merge_scaled_no_zero(acc: Seq<(ExprS, i64)>, sd: Seq<(ExprS, i64)>, f: i64)
    requires
        dict_no_zero(acc),
    ensures
        dict_no_zero(dict_merge_scaled(acc, sd, f)),
    decreases sd,
{
    if sd.len() > 0 {
        lemma_insert_no_zero(acc, sd[0].0, wmul(sd[0].1, f));
        lemma_merge_scaled_no_zero(dict_insert(acc, sd[0].0, wmul(sd[0].1, f)), sd.drop_first(), f);
    }
}

/// Every key after a scaled merge comes from one of the two sides.
proof fn lemma_merge_scaled_key_p(
    acc: Seq<(ExprS, i64)>,
    sd: Seq<(ExprS, i64)>,
    f: i64,
    p: spec_fn(ExprS) -> bool,
)
    requires
        forall|i: int| 0 <= i < acc.len() ==> p((#[trigger] acc[i]).0),
        forall|i: int| 0 <= i < sd.len() ==> p((#[trigger] sd[i]).0),
    ensures
        forall|i: int|
            0 <= i < dict_merge_scaled(acc, sd, f).len() ==> p(
                (#[trigger] dict_merge_scaled(acc, sd, f)[i]).0,
            ),
    decreases sd,
{
    if sd.len() > 0 {
        lemma_insert_key_p(acc, sd[0].0, wmul(sd[0].1, f), p);
        assert forall|i: int| 0 <= i < sd.drop_first().len() implies p(
            (#[trigger] sd.drop_first()[i]).0,
        ) by {
            assert(sd.drop_first()[i] == sd[i + 1]);
        }
        lemma_merge_scaled_key_p(
            dict_insert(acc, sd[0].0, wmul(sd[0].1, f)),
            sd.drop_first(),
            f,
            p,
        );
        assert(dict_merge_scaled(acc, sd, f) == dict_merge_scaled(
            dict_insert(acc, sd[0].0, wmul(sd[0].1, f)),
            sd.drop_first(),
            f,
        ));
    }
}

/// Scaling by one and merging into a sorted prefix appends the entries.
proof fn lemma_merge_scaled_one_id(acc: Seq<(ExprS, i64)>, sd: Seq<(ExprS, i64)>)
    requires
        dict_sorted(acc + sd),
        dict_no_zero(acc + sd),
    ensures
        dict_merge_scaled(acc, sd, 1) == acc + sd,
    decreases sd,
{
    let whole = acc + sd;
    if sd.len() == 0 {
        assert(acc + sd =~= acc);
    } else {
        let k = sd[0].0;
        let v = sd[0].1;
        lemma_wmul_one(v);
        assert(whole[acc.len() as int] == sd[0]);
        assert(v != 0);
        assert forall|i: int| 0 <= i < acc.len() implies cmp_s((#[trigger] acc[i]).0, k) < 0 by {
            assert(whole[i] == acc[i]);
        }
        lemma_insert_append(acc, k, v);
        assert((acc + seq![(k, v)]) + sd.drop_first() =~= acc + sd);
        lemma_merge_scaled_one_id(acc + seq![(k, v)], sd.drop_first());
    }
}

/// Folding a dictionary whose keys are already canonical, non-constant
/// and not nested rebuilds it unchanged.
proof fn lemma_fold_id_add(c: i64, acc: Seq<(ExprS, i64)>, d: Seq<(ExprS, i64)>)
    requires
        dict_sorted(acc + d),
        dict_no_zero(acc + d),
        forall|i: int|
            0 <= i < d.len() ==> canonical_s((#[trigger] d[i]).0) && !(d[i].0 is Num) && !(d[i].0
                is AddS),
    ensures
        crate::canonical::canon_add_fold(c, acc, d) == (c, acc + d),
    decreases d, 0nat,
{
    let whole = acc + d;
    if d.len() == 0 {
        assert(acc + d =~= acc);
    } else {
        let k0 = d[0].0;
        let v = d[0].1;
        lemma_canonical_fix(k0);
        assert(crate::canonical::canon_s(k0) == k0);
        assert(whole[acc.len() as int] == d[0]);
        assert(v != 0);
        assert forall|i: int| 0 <= i < acc.len() implies cmp_s((#[trigger] acc[i]).0, k0) < 0 by {
            assert(whole[i] == acc[i]);
        }
        lemma_insert_append(acc, k0, v);
        assert((acc + seq![(k0, v)]) + d.drop_first() =~= acc + d);
        assert forall|i: int|
            0 <= i < d.drop_first().len() implies canonical_s((#[trigger] d.drop_first()[i]).0)
            && !(d.drop_first()[i].0 is Num) && !(d.drop_first()[i].0 is AddS) by {
            assert(d.drop_first()[i] == d[i + 1]);
        }
        lemma_fold_id_add(c, acc + seq![(k0, v)], d.drop_first());
    }
}

/// The multiplicative mirror of the previous lemma.
proof fn lemma_fold_id_mul(c: i64, acc: Seq<(ExprS, i64)>, d: Seq<(ExprS, i64)>)
    requires
        dict_sorted(acc + d),
        dict_no_zero(acc + d),
        forall|i: int|
            0 <= i < d.len() ==> canonical_s((#[trigger] d[i]).0) && !(d[i].0 is Num) && !(d[i].0
                is MulS),
    ensures
        crate::canonical::canon_mul_fold(c, acc, d) == (c, acc + d),
    decreases d, 0nat,
{
    let whole = acc + d;
    if d.len() == 0 {
        assert(acc + d =~= acc);
    } else {
        let k0 = d[0].0;
        let v = d[0].1;
        lemma_canonical_fix(k0);
        assert(crate::canonical::canon_s(k0) == k0);
        assert(whole[acc.len() as int] == d[0]);
        assert(v != 0);
        assert forall|i: int| 0 <= i < acc.len() implies cmp_s((#[trigger] acc[i]).0, k0) < 0 by {
            assert(whole[i] == acc[i]);
        }
        lemma_insert_append(acc, k0, v);
        assert((acc + seq![(k0, v)]) + d.drop_first() =~= acc + d);
        assert forall|i: int|
            0 <= i < d.drop_first().len() implies canonical_s((#[trigger] d.drop_first()[i]).0)
            && !(d.drop_first()[i].0 is Num) && !(d.drop_first()[i].0 is MulS) by {
            assert(d.drop_first()[i] == d[i + 1]);
        }
        lemma_fold_id_mul(c, acc + seq![(k0, v)], d.drop_first());
    }
}

/// A canonical tree is a fixed point of canonicalization.
pub proof fn lemma_canonical_fix(e: ExprS)
    requires
        canonical_s(e),
    ensures
        crate::canonical::canon_s(e) == e,
    decreases e, 1nat,
{
    match e {
        ExprS::AddS { coeff, dict } => {
            assert(Seq::<(ExprS, i64)>::empty() + dict =~= dict);
            lemma_fold_id_add(coeff, Seq::empty(), dict);
            assert(crate::canonical::canon_add_fold(coeff, Seq::empty(), dict) == (coeff, dict));
        },
        ExprS::MulS { coeff, dict } => {
            assert(Seq::<(ExprS, i64)>::empty() + dict =~= dict);
            lemma_fold_id_mul(coeff, Seq::empty(), dict);
            assert(crate::canonical::canon_mul_fold(coeff, Seq::empty(), dict) == (coeff, dict));
        },
        _ => {},
    }
}


/// Requirements on one accumulated entry of an `Add` fold.
pub open spec fn add_entry_ok(x: ExprS) -> bool {
    canonical_s(x) && wf_s(x) && !(x is Num) && !(x is AddS)
}

/// Requirements on one accumulated entry of a `Mul` fold.
pub open spec fn mul_entry_ok(x: ExprS) -> bool {
    canonical_s(x) && wf_s(x) && !(x is Num) && !(x is MulS)
}

/// Folding an `Add` dictionary with well-formed keys accumulates a
/// sorted, zero-free dictionary of canonical keys that are neither
/// constants nor nested `Add` nodes.
proof fn lemma_fold_shape_add(c: i64, acc: Seq<(ExprS, i64)>, d: Seq<(ExprS, i64)>)
    requires
        dict_sorted(acc),
        dict_no_zero(acc),
        forall|i: int| 0 <= i < acc.len() ==> add_entry_ok((#[trigger] acc[i]).0),
        forall|i: int| 0 <= i < d.len() ==> wf_s((#[trigger] d[i]).0),
    ensures
        dict_sorted(crate::canonical::canon_add_fold(c, acc, d).1),
        dict_no_zero(crate::canonical::canon_add_fold(c, acc, d).1),
        forall|i: int|
            0 <= i < crate::canonical::canon_add_fold(c, acc, d).1.len() ==> add_entry_ok(
                (#[trigger] crate::canonical::canon_add_fold(c, acc, d).1[i]).0,
            ),
    decreases d, 0nat,
{
    if d.len() > 0 {
        let k = crate::canonical::canon_s(d[0].0);
        let v = d[0].1;
        assert(wf_s(d[0].0));
        lemma_canon_shape(d[0].0);
        assert forall|i: int| 0 <= i < d.drop_first().len() implies wf_s(
            (#[trigger] d.drop_first()[i]).0,
        ) by {
            assert(d.drop_first()[i] == d[i + 1]);
        }
        match k {
            ExprS::Num(n) => {
                lemma_fold_shape_add(wadd(c, wmul(n, v)), acc, d.drop_first());
            },
            ExprS::AddS { coeff: sc, dict: sd } => {
                let acc2 = dict_merge_scaled(acc, sd, v);
                lemma_merge_scaled_sorted(acc, sd, v);
                lemma_merge_scaled_no_zero(acc, sd, v);
                assert forall|i: int| 0 <= i < sd.len() implies add_entry_ok(
                    (#[trigger] sd[i]).0,
                ) by {
                    assert(canonical_s(k));
                    assert(canonical_s(sd[i].0) && !(sd[i].0 is Num) && !(sd[i].0 is AddS));
                    assert(wf_s(k));
                    assert(dict_wf(sd));
                    assert(wf_s(sd[i].0));
                }
                lemma_merge_scaled_key_p(acc, sd, v, |x: ExprS| add_entry_ok(x));
                assert forall|i: int| 0 <= i < acc2.len() implies add_entry_ok(
                    (#[trigger] acc2[i]).0,
                ) by {
                    assert((|x: ExprS| add_entry_ok(x))(acc2[i].0));
                }
                lemma_fold_shape_add(wadd(c, wmul(sc, v)), acc2, d.drop_first());
            },
            _ => {
                let acc2 = dict_insert(acc, k, v);
                lemma_insert_sorted(acc, k, v);
                lemma_insert_no_zero(acc, k, v);
                lemma_insert_key_p(acc, k, v, |x: ExprS| add_entry_ok(x));
                assert forall|i: int| 0 <= i < acc2.len() implies add_entry_ok(
                    (#[trigger] acc2[i]).0,
                ) by {
                    assert((|x: ExprS| add_entry_ok(x))(acc2[i].0));
                }
                lemma_fold_shape_add(c, acc2, d.drop_first());
            },
        }
    }
}

/// The multiplicative mirror of the previous lemma.
proof fn lemma_fold_shape_mul(c: i64, acc: Seq<(ExprS, i64)>, d: Seq<(ExprS, i64)>)
    requires
        dict_sorted(acc),
        dict_no_zero(acc),
        forall|i: int| 0 <= i < acc.len() ==> mul_entry_ok((#[trigger] acc[i]).0),
        forall|i: int| 0 <= i < d.len() ==> wf_s((#[trigger] d[i]).0),
    ensures
        dict_sorted(crate::canonical::canon_mul_fold(c, acc, d).1),
        dict_no_zero(crate::canonical::canon_mul_fold(c, acc, d).1),
        forall|i: int|
            0 <= i < crate::canonical::canon_mul_fold(c, acc, d).1.len() ==> mul_entry_ok(
                (#[trigger] crate::canonical::canon_mul_fold(c, acc, d).1[i]).0,
            ),
    decreases d, 0nat,
{
    if d.len() > 0 {
        let k = crate::canonical::canon_s(d[0].0);
        let v = d[0].1;
        assert(wf_s(d[0].0));
        lemma_canon_shape(d[0].0);
        assert forall|i: int| 0 <= i < d.drop_first().len() implies wf_s(
            (#[trigger] d.drop_first()[i]).0,
        ) by {
            assert(d.drop_first()[i] == d[i + 1]);
        }
        match k {
            ExprS::Num(n) => {
                lemma_fold_shape_mul(wmul(c, crate::coeff::wpow(n, v)), acc, d.drop_first());
            },
            ExprS::MulS { coeff: sc, dict: sd } => {
                let acc2 = dict_merge_scaled(acc, sd, v);
                lemma_merge_scaled_sorted(acc, sd, v);
                lemma_merge_scaled_no_zero(acc, sd, v);
                assert forall|i: int| 0 <= i < sd.len() implies mul_entry_ok(
                    (#[trigger] sd[i]).0,
                ) by {
                    assert(canonical_s(k));
                    assert(canonical_s(sd[i].0) && !(sd[i].0 is Num) && !(sd[i].0 is MulS));
                    assert(wf_s(k));
                    assert(dict_wf(sd));
                    assert(wf_s(sd[i].0));
                }
                lemma_merge_scaled_key_p(acc, sd, v, |x: ExprS| mul_entry_ok(x));
                assert forall|i: int| 0 <= i < acc2.len() implies mul_entry_ok(
                    (#[trigger] acc2[i]).0,
                ) by {
                    assert((|x: ExprS| mul_entry_ok(x))(acc2[i].0));
                }
                lemma_fold_shape_mul(wmul(c, crate::coeff::wpow(sc, v)), acc2, d.drop_first());
            },
            _ => {
                let acc2 = dict_insert(acc, k, v);
                lemma_insert_sorted(acc, k, v);
                lemma_insert_no_zero(acc, k, v);
                lemma_insert_key_p(acc, k, v, |x: ExprS| mul_entry_ok(x));
                assert forall|i: int| 0 <= i < acc2.len() implies mul_entry_ok(
                    (#[trigger] acc2[i]).0,
                ) by {
                    assert((|x: ExprS| mul_entry_ok(x))(acc2[i].0));
                }
                lemma_fold_shape_mul(c, acc2, d.drop_first());
            },
        }
    }
}

/// Canonicalizing a well-formed tree gives a well-formed canonical tree.
pub proof fn lemma_canon_shape(e: ExprS)
    requires
        wf_s(e),
    ensures
        wf_s(crate::canonical::canon_s(e)),
        canonical_s(crate::canonical::canon_s(e)),
    decreases e, 1nat,
{
    match e {
        ExprS::AddS { coeff, dict } => {
            let f = crate::canonical::canon_add_fold(coeff, Seq::empty(), dict);
            assert(dict_wf(dict));
            assert forall|i: int| 0 <= i < dict.len() implies wf_s((#[trigger] dict[i]).0) by {
                assert(wf_s(dict[i].0));
            }
            lemma_fold_shape_add(coeff, Seq::empty(), dict);
            if f.1.len() == 0 {
            } else if f.0 == 0 && f.1.len() == 1 && f.1[0].1 == 1 {
                assert(add_entry_ok(f.1[0].0));
            } else {
                assert forall|i: int| 0 <= i < f.1.len() implies wf_s((#[trigger] f.1[i]).0) by {
                    assert(add_entry_ok(f.1[i].0));
                }
                assert(dict_wf(f.1));
            }
        },
        ExprS::MulS { coeff, dict } => {
            let f = crate::canonical::canon_mul_fold(coeff, Seq::empty(), dict);
            assert(dict_wf(dict));
            assert forall|i: int| 0 <= i < dict.len() implies wf_s((#[trigger] dict[i]).0) by {
                assert(wf_s(dict[i].0));
            }
            lemma_fold_shape_mul(coeff, Seq::empty(), dict);
            if f.0 == 0 {
            } else if f.1.len() == 0 {
            } else if f.0 == 1 && f.1.len() == 1 && f.1[0].1 == 1 {
                assert(mul_entry_ok(f.1[0].0));
            } else {
                assert forall|i: int| 0 <= i < f.1.len() implies wf_s((#[trigger] f.1[i]).0) by {
                    assert(mul_entry_ok(f.1[i].0));
                }
                assert(dict_wf(f.1));
            }
        },
        _ => {},
    }
}

/// A canonical tree canonicalizes without error.
pub proof fn lemma_canonical_ok(e: ExprS)
    requires
        canonical_s(e),
    ensures
        crate::canonical::canon_ok(e),
    decreases e,
{
    match e {
        ExprS::AddS { coeff, dict } => {
            assert forall|i: int| 0 <= i < dict.len() implies crate::canonical::canon_ok(
                (#[trigger] dict[i]).0,
            ) by {
                lemma_canonical_ok(dict[i].0);
            }
        },
        ExprS::MulS { coeff, dict } => {
            assert forall|i: int| 0 <= i < dict.len() implies crate::canonical::canon_ok(
                (#[trigger] dict[i]).0,
            ) by {
                lemma_canonical_ok(dict[i].0);
            }
            assert forall|i: int| 0 <= i < dict.len() implies crate::canonical::mul_child_ok(
                crate::canonical::canon_s((#[trigger] dict[i]).0),
                dict[i].1,
            ) by {
                lemma_canonical_fix(dict[i].0);
            }
        },
        _ => {},
    }
}

/// Idempotence: canonicalizing a canonicalized tree changes nothing,
/// and a canonicalized well-formed tree canonicalizes without error.
pub proof fn lemma_canonicalize_idempotent(x: ExprS)
    requires
        wf_s(x),
    ensures
        crate::canonical::canon_s(crate::canonical::canon_s(x)) == crate::canonical::canon_s(x),
        wf_s(crate::canonical::canon_s(x)),
        crate::canonical::canon_ok(crate::canonical::canon_s(x)),
{
    lemma_canon_shape(x);
    lemma_canonical_fix(crate::canonical::canon_s(x));
    lemma_canonical_ok(crate::canonical::canon_s(x));
}


/// Additive identity: adding the constant zero never changes the
/// canonical form.
pub proof fn lemma_add_zero_identity(a: ExprS)
    requires
        wf_s(a),
    ensures
        crate::canonical::canon_s(add_s(a, ExprS::Num(0))) == crate::canonical::canon_s(a),
        eq_s(crate::canonical::canon_s(add_s(a, ExprS::Num(0))), crate::canonical::canon_s(a)),
{
    let e = Seq::<(ExprS, i64)>::empty();
    match a {
        ExprS::Num(n) => {
            lemma_wadd_zero(n);
        },
        ExprS::AddS { coeff, dict } => {
            lemma_wadd_zero(coeff);
        },
        _ => {
            let x = add_s(a, ExprS::Num(0));
            let d0 = seq![(a, 1i64)];
            assert(x == (ExprS::AddS { coeff: 0, dict: d0 }));
            let k = crate::canonical::canon_s(a);
            lemma_canon_shape(a);
            assert(d0[0] == (a, 1i64));
            assert(d0.drop_first() =~= e);
            match k {
                ExprS::Num(n) => {
                    lemma_wmul_one(n);
                    lemma_wadd_zero(n);
                    assert(crate::canonical::canon_add_fold(0, e, d0)
                        == crate::canonical::canon_add_fold(n, e, d0.drop_first()));
                    assert(crate::canonical::canon_s(x) == ExprS::Num(n));
                },
                ExprS::AddS { coeff: sc, dict: sd } => {
                    lemma_wmul_one(sc);
                    lemma_wadd_zero(sc);
                    assert(e + sd =~= sd);
                    lemma_merge_scaled_one_id(e, sd);
                    assert(dict_merge_scaled(e, sd, 1) == sd);
                    assert(crate::canonical::canon_add_fold(0, e, d0)
                        == crate::canonical::canon_add_fold(sc, sd, d0.drop_first()));
                    assert(crate::canonical::canon_add_fold(0, e, d0) == (sc, sd));
                    assert(sd.len() >= 1);
                    assert(!(sc == 0 && sd.len() == 1 && sd[0].1 == 1));
                    assert(crate::canonical::canon_s(x) == (ExprS::AddS { coeff: sc, dict: sd }));
                },
                _ => {
                    let one = dict_insert(e, k, 1);
                    assert(one =~= seq![(k, 1i64)]);
                    assert(crate::canonical::canon_add_fold(0, e, d0)
                        == crate::canonical::canon_add_fold(0, one, d0.drop_first()));
                    assert(crate::canonical::canon_add_fold(0, e, d0) == (0i64, one));
                    assert(crate::canonical::canon_s(x) == one[0].0);
                },
            }
        },
    }
    lemma_eq_refl(crate::canonical::canon_s(a));
}

/// Self-addition coalesces: adding a plain term to itself builds one
/// dictionary entry with the value two, never two entries.
pub proof fn lemma_self_addition(x: ExprS)
    requires
        wf_s(x),
        !(x is Num),
        !(x is AddS),
    ensures
        add_s(x, x) == (ExprS::AddS { coeff: 0, dict: seq![(x, 2i64)] }),
{
    let e = Seq::<(ExprS, i64)>::empty();
    let one = dict_insert(e, x, 1);
    assert(one =~= seq![(x, 1i64)]);
    lemma_cmp_eq(x, x);
    assert(cmp_s(x, one[0].0) == 0);
    assert(dict_insert(one, x, 1) =~= seq![(x, 2i64)]) by {
        assert(one.drop_first() =~= e);
        assert(seq![(x, 2i64)] + one.drop_first() =~= seq![(x, 2i64)]);
    }
}

/// Negating a constant folds to the negated constant at once.
pub proof fn lemma_negate_constant(n: i64)
    ensures
        neg_s(ExprS::Num(n)) == ExprS::Num(wneg(n)),
        crate::canonical::canon_s(neg_s(ExprS::Num(n))) == ExprS::Num(wneg(n)),
{
}

/// Subtracting a symbol from itself canonicalizes to zero.
pub proof fn lemma_subtract_self(x: ExprS)
    requires
        x is Sym,
    ensures
        crate::canonical::canon_s(sub_s(x, x)) == ExprS::Num(0),
{
    let e = Seq::<(ExprS, i64)>::empty();
    let m = seq![(x, -1i64)];
    assert(neg_s(x) == (ExprS::AddS { coeff: 0, dict: m }));
    lemma_cmp_eq(x, x);
    assert(cmp_s(x, m[0].0) == 0);
    assert(wadd(-1i64, 1) == 0);
    assert(dict_insert(m, x, 1) == m.drop_first());
    assert(m.drop_first() =~= e);
    assert(sub_s(x, x) == (ExprS::AddS { coeff: 0, dict: e }));
    assert(crate::canonical::canon_add_fold(0, e, e) == (0i64, e));
    assert(crate::canonical::canon_s(sub_s(x, x)) == ExprS::Num(0));
}

} // verus!
