//! Mathematical model of expression trees.
//!
//! `ExprS` is the ghost counterpart of the executable `Expr` handle: the
//! `Add` / `Mul` dictionaries become sequences of `(key, value)` pairs.
//! Well-formed trees keep those sequences strictly sorted by the total
//! structural order `cmp_s`, so every term map has a unique representation.

use vstd::prelude::*;
use crate::coeff::{wadd, wmul, wneg};

verus! {

broadcast use vstd::seq::axiom_seq_index_decreases;

/// Ghost model of one expression node.
///
/// `Num` is an exact constant, `Sym` a named atom, `AddS` denotes
/// `coeff + sum of value * key`, `MulS` denotes
/// `coeff * product of key ^ value`, and `FuncS` a call of a named
/// single-argument function.
pub enum ExprS {
    Num(i64),
    Sym(Seq<char>),
    AddS { coeff: i64, dict: Seq<(ExprS, i64)> },
    MulS { coeff: i64, dict: Seq<(ExprS, i64)> },
    FuncS { name: Seq<char>, arg: Box<ExprS> },
}

/// Order in which the variants are ranked by the structural order.
pub open spec fn rank_s(e: ExprS) -> int {
    match e {
        ExprS::Num(_) => 0,
        ExprS::Sym(_) => 1,
        ExprS::AddS { .. } => 2,
        ExprS::MulS { .. } => 3,
        ExprS::FuncS { .. } => 4,
    }
}

/// Three-way comparison of integers: -1, 0 or 1.
pub open spec fn cmp_i64_s(a: i64, b: i64) -> int {
    if a < b {
        -1
    } else if a > b {
        1
    } else {
        0
    }
}

/// Lexicographic three-way comparison of character sequences.
pub open spec fn cmp_chars_s(a: Seq<char>, b: Seq<char>) -> int
    decreases a.len(),
{
    if a.len() == 0 && b.len() == 0 {
        0
    } else if a.len() == 0 {
        -1
    } else if b.len() == 0 {
        1
    } else if a[0] != b[0] {
        if a[0] < b[0] {
            -1
        } else {
            1
        }
    } else {
        cmp_chars_s(a.drop_first(), b.drop_first())
    }
}

/// Total structural order on expression trees: variants are ranked,
/// equally ranked nodes are compared by their fields, and dictionaries
/// lexicographically entry by entry.
pub open spec fn cmp_s(a: ExprS, b: ExprS) -> int
    decreases a,
{
    match (a, b) {
        (ExprS::Num(x), ExprS::Num(y)) => cmp_i64_s(x, y),
        (ExprS::Sym(x), ExprS::Sym(y)) => cmp_chars_s(x, y),
        (ExprS::AddS { coeff: c1, dict: d1 }, ExprS::AddS { coeff: c2, dict: d2 }) => {
            if cmp_i64_s(c1, c2) != 0 {
                cmp_i64_s(c1, c2)
            } else {
                cmp_dict_s(d1, d2)
            }
        },
        (ExprS::MulS { coeff: c1, dict: d1 }, ExprS::MulS { coeff: c2, dict: d2 }) => {
            if cmp_i64_s(c1, c2) != 0 {
                cmp_i64_s(c1, c2)
            } else {
                cmp_dict_s(d1, d2)
            }
        },
        (ExprS::FuncS { name: n1, arg: a1 }, ExprS::FuncS { name: n2, arg: a2 }) => {
            if cmp_chars_s(n1, n2) != 0 {
                cmp_chars_s(n1, n2)
            } else {
                cmp_s(*a1, *a2)
            }
        },
        _ => cmp_i64_s(rank_s(a) as i64, rank_s(b) as i64),
    }
}

/// Lexicographic three-way comparison of dictionary entry sequences.
pub open spec fn cmp_dict_s(d1: Seq<(ExprS, i64)>, d2: Seq<(ExprS, i64)>) -> int
    decreases d1,
{
    if d1.len() == 0 && d2.len() == 0 {
        0
    } else if d1.len() == 0 {
        -1
    } else if d2.len() == 0 {
        1
    } else if cmp_s(d1[0].0, d2[0].0) != 0 {
        cmp_s(d1[0].0, d2[0].0)
    } else if d1[0].1 != d2[0].1 {
        cmp_i64_s(d1[0].1, d2[0].1)
    } else {
        cmp_dict_s(d1.drop_first(), d2.drop_first())
    }
}


/// Entries are strictly increasing in the structural order, so every
/// key appears at most once and the representation of a term map is
/// unique.
pub open spec fn dict_sorted(d: Seq<(ExprS, i64)>) -> bool {
    forall|i: int, j: int|
        0 <= i < j < d.len() ==> cmp_s(#[trigger] d[i].0, #[trigger] d[j].0) < 0
}

/// No entry carries the value zero.
pub open spec fn dict_no_zero(d: Seq<(ExprS, i64)>) -> bool {
    forall|i: int| 0 <= i < d.len() ==> (#[trigger] d[i]).1 != 0
}

/// A well-formed dictionary: strictly sorted, free of zero values, and
/// with well-formed keys.
pub open spec fn dict_wf(d: Seq<(ExprS, i64)>) -> bool
    decreases d,
{
    dict_sorted(d) && dict_no_zero(d) && (forall|i: int|
        0 <= i < d.len() ==> wf_s(#[trigger] d[i].0))
}

/// Well-formed trees keep every dictionary in them well-formed.
pub open spec fn wf_s(e: ExprS) -> bool
    decreases e,
{
    match e {
        ExprS::Num(_) => true,
        ExprS::Sym(_) => true,
        ExprS::AddS { dict, .. } => dict_wf(dict),
        ExprS::MulS { dict, .. } => dict_wf(dict),
        ExprS::FuncS { arg, .. } => wf_s(*arg),
    }
}

/// Value stored under a key, if any; the first occurrence decides.
pub open spec fn dict_get(d: Seq<(ExprS, i64)>, k: ExprS) -> Option<i64>
    decreases d,
{
    if d.len() == 0 {
        None
    } else if d[0].0 == k {
        Some(d[0].1)
    } else {
        dict_get(d.drop_first(), k)
    }
}

/// Add `v` to a stored value, dropping the entry when the sum is zero.
pub open spec fn combine_val(o: Option<i64>, v: i64) -> Option<i64> {
    match o {
        Option::None => if v == 0 {
            Option::None
        } else {
            Option::Some(v)
        },
        Option::Some(u) => if wadd(u, v) == 0 {
            Option::None
        } else {
            Option::Some(wadd(u, v))
        },
    }
}

/// Pointwise account of merging one dictionary into another.
pub open spec fn combine_opt(o1: Option<i64>, o2: Option<i64>) -> Option<i64> {
    match o2 {
        Option::None => o1,
        Option::Some(v) => combine_val(o1, v),
    }
}

/// Add `v` to the entry keyed `k`, keeping the sequence sorted: an
/// existing entry is updated (and removed when the sum becomes zero),
/// otherwise a new entry is placed at its ordered position. Adding zero
/// to an absent key changes nothing.
pub open spec fn dict_insert(d: Seq<(ExprS, i64)>, k: ExprS, v: i64) -> Seq<(ExprS, i64)>
    decreases d,
{
    if d.len() == 0 {
        if v == 0 {
            Seq::empty()
        } else {
            seq![(k, v)]
        }
    } else {
        let c = cmp_s(k, d[0].0);
        if c < 0 {
            if v == 0 {
                d
            } else {
                seq![(k, v)] + d
            }
        } else if c == 0 {
            let s = wadd(d[0].1, v);
            if s == 0 {
                d.drop_first()
            } else {
                seq![(k, s)] + d.drop_first()
            }
        } else {
            seq![d[0]] + dict_insert(d.drop_first(), k, v)
        }
    }
}

/// Merge every entry of `d2` into `d1`, key by key.
pub open spec fn dict_merge(d1: Seq<(ExprS, i64)>, d2: Seq<(ExprS, i64)>) -> Seq<(ExprS, i64)>
    decreases d2,
{
    if d2.len() == 0 {
        d1
    } else {
        dict_merge(dict_insert(d1, d2[0].0, d2[0].1), d2.drop_first())
    }
}

/// Negate every value, keeping the keys.
pub open spec fn dict_negv(d: Seq<(ExprS, i64)>) -> Seq<(ExprS, i64)> {
    Seq::new(d.len(), |i: int| (d[i].0, wneg(d[i].1)))
}

/// The character order is a partial equivalence: zero means equal.
pub proof fn lemma_cmp_chars_eq(x: Seq<char>, y: Seq<char>)
    ensures
        (cmp_chars_s(x, y) == 0) <==> (x == y),
    decreases x.len(),
{
    if x.len() == 0 && y.len() == 0 {
        assert(x =~= y);
    } else if x.len() == 0 || y.len() == 0 {
        assert(x != y);
    } else if x[0] != y[0] {
        assert(x != y);
    } else {
        lemma_cmp_chars_eq(x.drop_first(), y.drop_first());
        if cmp_chars_s(x, y) == 0 {
            assert forall|i: int| 0 <= i < x.len() implies x[i] == y[i] by {
                if i > 0 {
                    assert(x.drop_first()[i - 1] == x[i]);
                    assert(y.drop_first()[i - 1] == y[i]);
                }
            }
            assert(x.len() == y.len());
            assert(x =~= y);
        } else {
            if x == y {
                assert(x.drop_first() =~= y.drop_first());
            }
        }
    }
}

/// The structural order is reflexive exactly on equal trees.
pub proof fn lemma_cmp_eq(a: ExprS, b: ExprS)
    ensures
        (cmp_s(a, b) == 0) <==> (a == b),
    decreases a,
{
    match (a, b) {
        (ExprS::Num(x), ExprS::Num(y)) => {},
        (ExprS::Sym(x), ExprS::Sym(y)) => {
            lemma_cmp_chars_eq(x, y);
        },
        (ExprS::AddS { coeff: c1, dict: d1 }, ExprS::AddS { coeff: c2, dict: d2 }) => {
            lemma_cmp_dict_eq(d1, d2);
        },
        (ExprS::MulS { coeff: c1, dict: d1 }, ExprS::MulS { coeff: c2, dict: d2 }) => {
            lemma_cmp_dict_eq(d1, d2);
        },
        (ExprS::FuncS { name: n1, arg: a1 }, ExprS::FuncS { name: n2, arg: a2 }) => {
            lemma_cmp_chars_eq(n1, n2);
            lemma_cmp_eq(*a1, *a2);
        },
        _ => {},
    }
}

/// The dictionary order is zero exactly on equal sequences.
pub proof fn lemma_cmp_dict_eq(d1: Seq<(ExprS, i64)>, d2: Seq<(ExprS, i64)>)
    ensures
        (cmp_dict_s(d1, d2) == 0) <==> (d1 == d2),
    decreases d1,
{
    if d1.len() == 0 && d2.len() == 0 {
        assert(d1 =~= d2);
    } else if d1.len() == 0 || d2.len() == 0 {
        assert(d1 != d2);
    } else {
        lemma_cmp_eq(d1[0].0, d2[0].0);
        if cmp_s(d1[0].0, d2[0].0) != 0 || d1[0].1 != d2[0].1 {
            assert(d1[0] != d2[0]);
            assert(d1 != d2);
        } else {
            lemma_cmp_dict_eq(d1.drop_first(), d2.drop_first());
            assert(d1[0] == d2[0]);
            if cmp_dict_s(d1, d2) == 0 {
                assert forall|i: int| 0 <= i < d1.len() implies d1[i] == d2[i] by {
                    if i > 0 {
                        assert(d1.drop_first()[i - 1] == d1[i]);
                        assert(d2.drop_first()[i - 1] == d2[i]);
                    }
                }
                assert(d1 =~= d2);
            } else {
                if d1 == d2 {
                    assert(d1.drop_first() =~= d2.drop_first());
                }
            }
        }
    }
}

/// Swapping the operands flips the sign of the character order.
pub proof fn lemma_cmp_chars_antisym(x: Seq<char>, y: Seq<char>)
    ensures
        cmp_chars_s(x, y) == -cmp_chars_s(y, x),
    decreases x.len(),
{
    if x.len() > 0 && y.len() > 0 && x[0] == y[0] {
        lemma_cmp_chars_antisym(x.drop_first(), y.drop_first());
    }
}

/// Swapping the operands flips the sign of the structural order.
pub proof fn lemma_cmp_antisym(a: ExprS, b: ExprS)
    ensures
        cmp_s(a, b) == -cmp_s(b, a),
    decreases a,
{
    match (a, b) {
        (ExprS::Sym(x), ExprS::Sym(y)) => {
            lemma_cmp_chars_antisym(x, y);
        },
        (ExprS::AddS { coeff: c1, dict: d1 }, ExprS::AddS { coeff: c2, dict: d2 }) => {
            lemma_cmp_dict_antisym(d1, d2);
        },
        (ExprS::MulS { coeff: c1, dict: d1 }, ExprS::MulS { coeff: c2, dict: d2 }) => {
            lemma_cmp_dict_antisym(d1, d2);
        },
        (ExprS::FuncS { name: n1, arg: a1 }, ExprS::FuncS { name: n2, arg: a2 }) => {
            lemma_cmp_chars_antisym(n1, n2);
            lemma_cmp_antisym(*a1, *a2);
        },
        _ => {},
    }
}

/// Swapping the operands flips the sign of the dictionary order.
pub proof fn lemma_cmp_dict_antisym(d1: Seq<(ExprS, i64)>, d2: Seq<(ExprS, i64)>)
    ensures
        cmp_dict_s(d1, d2) == -cmp_dict_s(d2, d1),
    decreases d1,
{
    if d1.len() > 0 && d2.len() > 0 {
        lemma_cmp_antisym(d1[0].0, d2[0].0);
        lemma_cmp_eq(d1[0].0, d2[0].0);
        lemma_cmp_eq(d2[0].0, d1[0].0);
        if cmp_s(d1[0].0, d2[0].0) == 0 && d1[0].1 == d2[0].1 {
            lemma_cmp_dict_antisym(d1.drop_first(), d2.drop_first());
        }
    }
}

/// How the ranks relate when the structural order decides by variant.
pub proof fn lemma_cmp_rank(a: ExprS, b: ExprS)
    ensures
        cmp_s(a, b) < 0 ==> rank_s(a) <= rank_s(b),
        cmp_s(a, b) > 0 ==> rank_s(a) >= rank_s(b),
        rank_s(a) < rank_s(b) ==> cmp_s(a, b) < 0,
        rank_s(a) > rank_s(b) ==> cmp_s(a, b) > 0,
{
}

/// The character order is transitive.
pub proof fn lemma_cmp_chars_trans(x: Seq<char>, y: Seq<char>, z: Seq<char>)
    requires
        cmp_chars_s(x, y) < 0,
        cmp_chars_s(y, z) < 0,
    ensures
        cmp_chars_s(x, z) < 0,
    decreases x.len(),
{
    if x.len() > 0 && y.len() > 0 && z.len() > 0 && x[0] == y[0] && y[0] == z[0] {
        lemma_cmp_chars_trans(x.drop_first(), y.drop_first(), z.drop_first());
    }
}

/// The structural order is transitive.
pub proof fn lemma_cmp_trans(a: ExprS, b: ExprS, c: ExprS)
    requires
        cmp_s(a, b) < 0,
        cmp_s(b, c) < 0,
    ensures
        cmp_s(a, c) < 0,
    decreases a,
{
    lemma_cmp_rank(a, b);
    lemma_cmp_rank(b, c);
    lemma_cmp_rank(a, c);
    if rank_s(a) == rank_s(b) && rank_s(b) == rank_s(c) {
        match (a, b, c) {
            (ExprS::Num(x), ExprS::Num(y), ExprS::Num(z)) => {},
            (ExprS::Sym(x), ExprS::Sym(y), ExprS::Sym(z)) => {
                lemma_cmp_chars_trans(x, y, z);
            },
            (
                ExprS::AddS { coeff: c1, dict: d1 },
                ExprS::AddS { coeff: c2, dict: d2 },
                ExprS::AddS { coeff: c3, dict: d3 },
            ) => {
                if c1 == c2 && c2 == c3 {
                    lemma_cmp_dict_trans(d1, d2, d3);
                }
            },
            (
                ExprS::MulS { coeff: c1, dict: d1 },
                ExprS::MulS { coeff: c2, dict: d2 },
                ExprS::MulS { coeff: c3, dict: d3 },
            ) => {
                if c1 == c2 && c2 == c3 {
                    lemma_cmp_dict_trans(d1, d2, d3);
                }
            },
            (
                ExprS::FuncS { name: n1, arg: a1 },
                ExprS::FuncS { name: n2, arg: a2 },
                ExprS::FuncS { name: n3, arg: a3 },
            ) => {
                lemma_cmp_chars_eq(n1, n2);
                lemma_cmp_chars_eq(n2, n3);
                if cmp_chars_s(n1, n2) < 0 && cmp_chars_s(n2, n3) < 0 {
                    lemma_cmp_chars_trans(n1, n2, n3);
                } else if cmp_chars_s(n1, n2) == 0 && cmp_chars_s(n2, n3) == 0 {
                    lemma_cmp_trans(*a1, *a2, *a3);
                }
            },
            _ => {},
        }
    }
}

/// The dictionary order is transitive.
pub proof fn lemma_cmp_dict_trans(
    d1: Seq<(ExprS, i64)>,
    d2: Seq<(ExprS, i64)>,
    d3: Seq<(ExprS, i64)>,
)
    requires
        cmp_dict_s(d1, d2) < 0,
        cmp_dict_s(d2, d3) < 0,
    ensures
        cmp_dict_s(d1, d3) < 0,
    decreases d1,
{
    if d1.len() > 0 && d2.len() > 0 && d3.len() > 0 {
        let h1 = d1[0].0;
        let h2 = d2[0].0;
        let h3 = d3[0].0;
        lemma_cmp_eq(h1, h2);
        lemma_cmp_eq(h2, h3);
        lemma_cmp_eq(h1, h3);
        if cmp_s(h1, h2) < 0 && cmp_s(h2, h3) < 0 {
            lemma_cmp_trans(h1, h2, h3);
        } else if cmp_s(h1, h2) == 0 && cmp_s(h2, h3) == 0 {
            if d1[0].1 == d2[0].1 && d2[0].1 == d3[0].1 {
                lemma_cmp_dict_trans(d1.drop_first(), d2.drop_first(), d3.drop_first());
            }
        }
    }
}

/// A key that appears nowhere has no stored value.
pub proof fn lemma_get_absent(d: Seq<(ExprS, i64)>, k: ExprS)
    requires
        forall|i: int| 0 <= i < d.len() ==> (#[trigger] d[i]).0 != k,
    ensures
        dict_get(d, k) is None,
    decreases d,
{
    if d.len() > 0 {
        assert forall|i: int| 0 <= i < d.drop_first().len() implies (#[trigger] d.drop_first()[i]).0
            != k by {
            assert(d.drop_first()[i] == d[i + 1]);
        }
        lemma_get_absent(d.drop_first(), k);
    }
}

/// In a sorted dictionary a key below the head is absent.
pub proof fn lemma_get_below_head(d: Seq<(ExprS, i64)>, k: ExprS)
    requires
        dict_sorted(d),
        d.len() > 0,
        cmp_s(k, d[0].0) < 0,
    ensures
        dict_get(d, k) is None,
{
    assert forall|i: int| 0 <= i < d.len() implies (#[trigger] d[i]).0 != k by {
        if i == 0 {
            lemma_cmp_eq(k, d[0].0);
        } else {
            lemma_cmp_trans(k, d[0].0, d[i].0);
            lemma_cmp_eq(k, d[i].0);
        }
    }
    lemma_get_absent(d, k);
}

/// The tail of a sorted dictionary is sorted.
pub proof fn lemma_sorted_tail(d: Seq<(ExprS, i64)>)
    requires
        dict_sorted(d),
        d.len() > 0,
    ensures
        dict_sorted(d.drop_first()),
{
    assert forall|i: int, j: int| 0 <= i < j < d.drop_first().len() implies cmp_s(
        #[trigger] d.drop_first()[i].0,
        #[trigger] d.drop_first()[j].0,
    ) < 0 by {
        assert(d.drop_first()[i] == d[i + 1]);
        assert(d.drop_first()[j] == d[j + 1]);
    }
}

/// Every key of an updated dictionary is the new key or an old key.
pub proof fn lemma_insert_key_p(d: Seq<(ExprS, i64)>, k: ExprS, v: i64, p: spec_fn(ExprS) -> bool)
    requires
        forall|i: int| 0 <= i < d.len() ==> p((#[trigger] d[i]).0),
        p(k),
    ensures
        forall|i: int|
            0 <= i < dict_insert(d, k, v).len() ==> p((#[trigger] dict_insert(d, k, v)[i]).0),
    decreases d,
{
    let r = dict_insert(d, k, v);
    if d.len() == 0 {
    } else {
        let c = cmp_s(k, d[0].0);
        assert forall|i: int| 0 <= i < d.drop_first().len() implies p(
            (#[trigger] d.drop_first()[i]).0,
        ) by {
            assert(d.drop_first()[i] == d[i + 1]);
        }
        if c < 0 {
            if v != 0 {
                assert forall|i: int| 0 <= i < r.len() implies p((#[trigger] r[i]).0) by {
                    if i > 0 {
                        assert(r[i] == d[i - 1]);
                    }
                }
            }
        } else if c == 0 {
            let s = wadd(d[0].1, v);
            if s != 0 {
                assert forall|i: int| 0 <= i < r.len() implies p((#[trigger] r[i]).0) by {
                    if i > 0 {
                        assert(r[i] == d[i]);
                    }
                }
            } else {
                assert forall|i: int| 0 <= i < r.len() implies p((#[trigger] r[i]).0) by {
                    assert(r[i] == d[i + 1]);
                }
            }
        } else {
            lemma_insert_key_p(d.drop_first(), k, v, p);
            let rt = dict_insert(d.drop_first(), k, v);
            assert forall|i: int| 0 <= i < r.len() implies p((#[trigger] r[i]).0) by {
                if i > 0 {
                    assert(r[i] == rt[i - 1]);
                }
            }
        }
    }
}

/// Updating keeps a dictionary sorted.
pub proof fn lemma_insert_sorted(d: Seq<(ExprS, i64)>, k: ExprS, v: i64)
    requires
        dict_sorted(d),
    ensures
        dict_sorted(dict_insert(d, k, v)),
    decreases d,
{
    let r = dict_insert(d, k, v);
    if d.len() == 0 {
    } else {
        let c = cmp_s(k, d[0].0);
        lemma_sorted_tail(d);
        if c < 0 {
            if v != 0 {
                assert forall|i: int, j: int| 0 <= i < j < r.len() implies cmp_s(
                    #[trigger] r[i].0,
                    #[trigger] r[j].0,
                ) < 0 by {
                    if i == 0 {
                        if j == 1 {
                        } else {
                            lemma_cmp_trans(k, d[0].0, d[j - 1].0);
                        }
                    } else {
                        assert(r[i] == d[i - 1]);
                        assert(r[j] == d[j - 1]);
                    }
                }
            }
        } else if c == 0 {
            lemma_cmp_eq(k, d[0].0);
            let s = wadd(d[0].1, v);
            if s != 0 {
                assert forall|i: int, j: int| 0 <= i < j < r.len() implies cmp_s(
                    #[trigger] r[i].0,
                    #[trigger] r[j].0,
                ) < 0 by {
                    if i == 0 {
                        assert(r[j] == d[j]);
                    } else {
                        assert(r[i] == d[i]);
                        assert(r[j] == d[j]);
                    }
                }
            }
        } else {
            lemma_insert_sorted(d.drop_first(), k, v);
            lemma_cmp_antisym(k, d[0].0);
            lemma_insert_key_p(
                d.drop_first(),
                k,
                v,
                |x: ExprS| cmp_s(d[0].0, x) < 0,
            );
            let rt = dict_insert(d.drop_first(), k, v);
            assert forall|i: int, j: int| 0 <= i < j < r.len() implies cmp_s(
                #[trigger] r[i].0,
                #[trigger] r[j].0,
            ) < 0 by {
                if i == 0 {
                    assert(r[j] == rt[j - 1]);
                } else {
                    assert(r[i] == rt[i - 1]);
                    assert(r[j] == rt[j - 1]);
                }
            }
        }
    }
}

/// Updating never introduces a zero value.
pub proof fn lemma_insert_no_zero(d: Seq<(ExprS, i64)>, k: ExprS, v: i64)
    requires
        dict_no_zero(d),
    ensures
        dict_no_zero(dict_insert(d, k, v)),
    decreases d,
{
    let r = dict_insert(d, k, v);
    if d.len() == 0 {
    } else {
        assert forall|i: int| 0 <= i < d.drop_first().len() implies (#[trigger] d.drop_first()[
            i]).1 != 0 by {
            assert(d.drop_first()[i] == d[i + 1]);
        }
        let c = cmp_s(k, d[0].0);
        if c > 0 {
            lemma_insert_no_zero(d.drop_first(), k, v);
            let rt = dict_insert(d.drop_first(), k, v);
            assert forall|i: int| 0 <= i < r.len() implies (#[trigger] r[i]).1 != 0 by {
                if i > 0 {
                    assert(r[i] == rt[i - 1]);
                }
            }
        } else if c == 0 {
            let s = wadd(d[0].1, v);
            if s != 0 {
                assert forall|i: int| 0 <= i < r.len() implies (#[trigger] r[i]).1 != 0 by {
                    if i > 0 {
                        assert(r[i] == d[i]);
                    }
                }
            }
        } else {
            if v != 0 {
                assert forall|i: int| 0 <= i < r.len() implies (#[trigger] r[i]).1 != 0 by {
                    if i > 0 {
                        assert(r[i] == d[i - 1]);
                    }
                }
            }
        }
    }
}

/// What updating stores under each key.
pub proof fn lemma_insert_get(d: Seq<(ExprS, i64)>, k: ExprS, v: i64, q: ExprS)
    requires
        dict_sorted(d),
    ensures
        dict_get(dict_insert(d, k, v), q) == (if q == k {
            combine_val(dict_get(d, k), v)
        } else {
            dict_get(d, q)
        }),
    decreases d,
{
    let r = dict_insert(d, k, v);
    let target = if q == k {
        combine_val(dict_get(d, k), v)
    } else {
        dict_get(d, q)
    };
    if d.len() == 0 {
        assert(dict_get(d, k) is None);
        assert(dict_get(d, q) is None);
        if v != 0 {
            assert(r =~= seq![(k, v)]);
            assert(r.len() == 1);
            assert(r[0] == (k, v));
            assert(r.drop_first() =~= Seq::<(ExprS, i64)>::empty());
            if q == k {
                assert(dict_get(r, q) == Some(v));
            } else {
                assert(r[0].0 != q);
                assert(dict_get(r, q) == dict_get(r.drop_first(), q));
                assert(dict_get(r, q) is None);
            }
        } else {
            assert(r.len() == 0);
            assert(dict_get(r, q) is None);
        }
        assert(dict_get(r, q) == target);
    } else {
        let c = cmp_s(k, d[0].0);
        let tail = d.drop_first();
        lemma_cmp_eq(k, d[0].0);
        lemma_sorted_tail(d);
        if c < 0 {
            lemma_get_below_head(d, k);
            assert(dict_get(d, k) is None);
            if v != 0 {
                assert(r[0] == (k, v));
                assert(r.drop_first() =~= d);
                if q == k {
                    assert(dict_get(r, q) == Some(v));
                } else {
                    assert(dict_get(r, q) == dict_get(d, q));
                }
            }
            assert(dict_get(r, q) == target);
        } else if c == 0 {
            assert(k == d[0].0);
            let s = wadd(d[0].1, v);
            assert(dict_get(d, k) == Some(d[0].1));
            if s == 0 {
                assert(r == tail);
                if q == k {
                    if tail.len() > 0 {
                        assert(cmp_s(k, tail[0].0) < 0) by {
                            assert(tail[0] == d[1]);
                        }
                        lemma_get_below_head(tail, k);
                    }
                    assert(dict_get(r, q) is None);
                } else {
                    assert(dict_get(d, q) == dict_get(tail, q));
                }
            } else {
                assert(r[0] == (k, s));
                assert(r.drop_first() =~= tail);
                if q == k {
                    assert(dict_get(r, q) == Some(s));
                } else {
                    assert(dict_get(r, q) == dict_get(tail, q));
                    assert(dict_get(d, q) == dict_get(tail, q));
                }
            }
            assert(dict_get(r, q) == target);
        } else {
            lemma_insert_get(tail, k, v, q);
            let rt = dict_insert(tail, k, v);
            assert(r == seq![d[0]] + rt);
            assert(r[0] == d[0]);
            assert(r.drop_first() =~= rt);
            assert(k != d[0].0);
            assert(dict_get(d, k) == dict_get(tail, k));
            if q == d[0].0 {
                assert(q != k);
                assert(dict_get(r, q) == Some(d[0].1));
                assert(dict_get(d, q) == Some(d[0].1));
            } else {
                assert(dict_get(r, q) == dict_get(rt, q));
                assert(dict_get(d, q) == dict_get(tail, q));
            }
            assert(dict_get(r, q) == target);
        }
    }
}

/// Merging keeps the accumulating dictionary sorted.
pub proof fn lemma_merge_sorted(d1: Seq<(ExprS, i64)>, d2: Seq<(ExprS, i64)>)
    requires
        dict_sorted(d1),
    ensures
        dict_sorted(dict_merge(d1, d2)),
    decreases d2,
{
    if d2.len() > 0 {
        lemma_insert_sorted(d1, d2[0].0, d2[0].1);
        lemma_merge_sorted(dict_insert(d1, d2[0].0, d2[0].1), d2.drop_first());
    }
}

/// Merging never introduces a zero value.
pub proof fn lemma_merge_no_zero(d1: Seq<(ExprS, i64)>, d2: Seq<(ExprS, i64)>)
    requires
        dict_no_zero(d1),
    ensures
        dict_no_zero(dict_merge(d1, d2)),
    decreases d2,
{
    if d2.len() > 0 {
        lemma_insert_no_zero(d1, d2[0].0, d2[0].1);
        lemma_merge_no_zero(dict_insert(d1, d2[0].0, d2[0].1), d2.drop_first());
    }
}

/// Every key of a merged dictionary comes from one of the two sides.
pub proof fn lemma_merge_key_p(
    d1: Seq<(ExprS, i64)>,
    d2: Seq<(ExprS, i64)>,
    p: spec_fn(ExprS) -> bool,
)
    requires
        forall|i: int| 0 <= i < d1.len() ==> p((#[trigger] d1[i]).0),
        forall|i: int| 0 <= i < d2.len() ==> p((#[trigger] d2[i]).0),
    ensures
        forall|i: int|
            0 <= i < dict_merge(d1, d2).len() ==> p((#[trigger] dict_merge(d1, d2)[i]).0),
    decreases d2,
{
    if d2.len() > 0 {
        lemma_insert_key_p(d1, d2[0].0, d2[0].1, p);
        assert forall|i: int| 0 <= i < d2.drop_first().len() implies p(
            (#[trigger] d2.drop_first()[i]).0,
        ) by {
            assert(d2.drop_first()[i] == d2[i + 1]);
        }
        lemma_merge_key_p(dict_insert(d1, d2[0].0, d2[0].1), d2.drop_first(), p);
        assert(dict_merge(d1, d2) == dict_merge(dict_insert(d1, d2[0].0, d2[0].1), d2.drop_first()));
    }
}

/// What merging stores under each key.
pub proof fn lemma_merge_get(d1: Seq<(ExprS, i64)>, d2: Seq<(ExprS, i64)>, q: ExprS)
    requires
        dict_sorted(d1),
        dict_sorted(d2),
    ensures
        dict_get(dict_merge(d1, d2), q) == combine_opt(dict_get(d1, q), dict_get(d2, q)),
    decreases d2,
{
    if d2.len() > 0 {
        let h2 = d2[0].0;
        let v2 = d2[0].1;
        let d1x = dict_insert(d1, h2, v2);
        lemma_insert_sorted(d1, h2, v2);
        lemma_sorted_tail(d2);
        lemma_merge_get(d1x, d2.drop_first(), q);
        lemma_insert_get(d1, h2, v2, q);
        if q == h2 && d2.drop_first().len() > 0 {
            lemma_get_below_head(d2.drop_first(), h2);
        }
    }
}

/// Sorted dictionaries with the same stored values are the same sequence.
pub proof fn lemma_sorted_unique(d1: Seq<(ExprS, i64)>, d2: Seq<(ExprS, i64)>)
    requires
        dict_sorted(d1),
        dict_sorted(d2),
        forall|k: ExprS| #[trigger] dict_get(d1, k) == dict_get(d2, k),
    ensures
        d1 == d2,
    decreases d1.len(),
{
    if d1.len() == 0 && d2.len() == 0 {
        assert(d1 =~= d2);
    } else if d1.len() == 0 {
        assert(dict_get(d2, d2[0].0) == Some(d2[0].1));
        assert(dict_get(d1, d2[0].0) is None);
    } else if d2.len() == 0 {
        assert(dict_get(d1, d1[0].0) == Some(d1[0].1));
        assert(dict_get(d2, d1[0].0) is None);
    } else {
        let h1 = d1[0].0;
        let h2 = d2[0].0;
        lemma_cmp_eq(h1, h2);
        lemma_cmp_antisym(h1, h2);
        if cmp_s(h1, h2) < 0 {
            lemma_get_below_head(d2, h1);
            assert(dict_get(d1, h1) == Some(d1[0].1));
        } else if cmp_s(h1, h2) > 0 {
            lemma_get_below_head(d1, h2);
            assert(dict_get(d2, h2) == Some(d2[0].1));
        } else {
            assert(h1 == h2);
            assert(dict_get(d1, h1) == Some(d1[0].1));
            assert(dict_get(d2, h1) == Some(d2[0].1));
            lemma_sorted_tail(d1);
            lemma_sorted_tail(d2);
            let t1 = d1.drop_first();
            let t2 = d2.drop_first();
            assert forall|k: ExprS| #[trigger] dict_get(t1, k) == dict_get(t2, k) by {
                if k == h1 {
                    if t1.len() > 0 {
                        lemma_get_below_head(t1, k);
                    }
                    if t2.len() > 0 {
                        lemma_get_below_head(t2, k);
                    }
                } else {
                    assert(dict_get(d1, k) == dict_get(t1, k));
                    assert(dict_get(d2, k) == dict_get(t2, k));
                }
            }
            lemma_sorted_unique(t1, t2);
            assert forall|i: int| 0 <= i < d1.len() implies d1[i] == d2[i] by {
                if i > 0 {
                    assert(t1[i - 1] == d1[i]);
                    assert(t2[i - 1] == d2[i]);
                }
            }
            assert(d1 =~= d2);
        }
    }
}


/// Structural equality of trees: variant by variant, with dictionaries
/// compared as order-independent term maps, not positionally.
pub open spec fn eq_s(a: ExprS, b: ExprS) -> bool
    decreases a, 0nat,
{
    match (a, b) {
        (ExprS::Num(x), ExprS::Num(y)) => x == y,
        (ExprS::Sym(x), ExprS::Sym(y)) => x == y,
        (ExprS::AddS { coeff: c1, dict: d1 }, ExprS::AddS { coeff: c2, dict: d2 }) => c1 == c2
            && dict_eq_s(d1, d2),
        (ExprS::MulS { coeff: c1, dict: d1 }, ExprS::MulS { coeff: c2, dict: d2 }) => c1 == c2
            && dict_eq_s(d1, d2),
        (ExprS::FuncS { name: n1, arg: a1 }, ExprS::FuncS { name: n2, arg: a2 }) => n1 == n2
            && eq_s(*a1, *a2),
        _ => false,
    }
}

/// Some entry of `d` has a key equal to `k` and the value `v`.
pub open spec fn dict_has_s(d: Seq<(ExprS, i64)>, k: ExprS, v: i64) -> bool
    decreases k, 1nat,
{
    exists|j: int| 0 <= j < d.len() && eq_s(k, (#[trigger] d[j]).0) && v == d[j].1
}

/// Some entry of `d` has a key that `k` follows by equality and the value `v`.
pub open spec fn dict_has_rev_s(d: Seq<(ExprS, i64)>, k: ExprS, v: i64) -> bool
    decreases d, 1nat,
{
    exists|j: int| 0 <= j < d.len() && eq_s((#[trigger] d[j]).0, k) && d[j].1 == v
}

/// Order-independent equality of term maps: same size, and every entry
/// of each side has an entry with an equal key and the same value on the
/// other side.
pub open spec fn dict_eq_s(d1: Seq<(ExprS, i64)>, d2: Seq<(ExprS, i64)>) -> bool
    decreases d1, 2nat,
{
    &&& d1.len() == d2.len()
    &&& (forall|i: int| 0 <= i < d1.len() ==> dict_has_s(d2, (#[trigger] d1[i]).0, d1[i].1))
    &&& (forall|j: int| 0 <= j < d2.len() ==> dict_has_rev_s(d1, (#[trigger] d2[j]).0, d2[j].1))
}

/// Structural equality is reflexive.
pub proof fn lemma_eq_refl(a: ExprS)
    ensures
        eq_s(a, a),
    decreases a,
{
    match a {
        ExprS::AddS { coeff, dict } => {
            lemma_dict_eq_refl(dict);
        },
        ExprS::MulS { coeff, dict } => {
            lemma_dict_eq_refl(dict);
        },
        ExprS::FuncS { name, arg } => {
            lemma_eq_refl(*arg);
        },
        _ => {},
    }
}

/// Term-map equality is reflexive.
pub proof fn lemma_dict_eq_refl(d: Seq<(ExprS, i64)>)
    ensures
        dict_eq_s(d, d),
    decreases d,
{
    assert forall|i: int| 0 <= i < d.len() implies dict_has_s(d, (#[trigger] d[i]).0, d[i].1) by {
        lemma_eq_refl(d[i].0);
        assert(0 <= i < d.len() && eq_s(d[i].0, d[i].0) && d[i].1 == d[i].1);
    }
    assert forall|j: int| 0 <= j < d.len() implies dict_has_rev_s(d, (#[trigger] d[j]).0, d[j].1)
        by {
        lemma_eq_refl(d[j].0);
        assert(0 <= j < d.len() && eq_s(d[j].0, d[j].0) && d[j].1 == d[j].1);
    }
}


/// Merge every entry of `sd`, its value scaled by `f`, into `acc`.
pub open spec fn dict_merge_scaled(
    acc: Seq<(ExprS, i64)>,
    sd: Seq<(ExprS, i64)>,
    f: i64,
) -> Seq<(ExprS, i64)>
    decreases sd,
{
    if sd.len() == 0 {
        acc
    } else {
        dict_merge_scaled(dict_insert(acc, sd[0].0, wmul(sd[0].1, f)), sd.drop_first(), f)
    }
}

} // verus!
