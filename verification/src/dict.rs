//! Executable dictionary operations on sorted term maps.

use vstd::prelude::*;
use crate::expression::{abs_dict, lemma_abs_dict, Expr};
use crate::model::{cmp_s, dict_insert, dict_merge, dict_merge_scaled, dict_negv, lemma_cmp_eq, ExprS};
use crate::order::cmp_expr;
use crate::coeff::{wadd, wmul, wneg};

verus! {

/// Updating splits at the position of the first key the new key does not
/// follow: the prefix is kept as it is.
proof fn lemma_insert_split(d: Seq<(ExprS, i64)>, k: ExprS, v: i64, j: int)
    requires
        0 <= j <= d.len(),
        forall|t: int| 0 <= t < j ==> cmp_s(k, (#[trigger] d[t]).0) > 0,
    ensures
        dict_insert(d, k, v) == d.take(j) + dict_insert(d.skip(j), k, v),
    decreases j,
{
    if j == 0 {
        assert(d.take(0) =~= Seq::empty());
        assert(d.skip(0) =~= d);
        assert(d.take(0) + dict_insert(d, k, v) =~= dict_insert(d, k, v));
    } else {
        let tail = d.drop_first();
        assert forall|t: int| 0 <= t < j - 1 implies cmp_s(k, (#[trigger] tail[t]).0) > 0 by {
            assert(tail[t] == d[t + 1]);
        }
        lemma_insert_split(tail, k, v, j - 1);
        assert(tail.take(j - 1) =~= d.subrange(1, j));
        assert(tail.skip(j - 1) =~= d.skip(j));
        assert(seq![d[0]] + (tail.take(j - 1) + dict_insert(d.skip(j), k, v)) =~= d.take(j)
            + dict_insert(d.skip(j), k, v));
    }
}

/// Copy of a dictionary; the entries share the pointed-to key nodes.
pub(crate) fn clone_dict(d: &Vec<(Expr, i64)>) -> (r: Vec<(Expr, i64)>)
    ensures
        r@ == d@,
{
    let mut out: Vec<(Expr, i64)> = Vec::new();
    let n = d.len();
    let mut i: usize = 0;
    while i < n
        invariant
            i <= n,
            n == d@.len(),
            out@ == d@.take(i as int),
        decreases n - i,
    {
        out.push((d[i].0.clone(), d[i].1));
        proof {
            assert(d@[i as int] == (d@[i as int].0, d@[i as int].1));
            assert(d@.take(i as int).push(d@[i as int]) =~= d@.take(i as int + 1));
        }
        i = i + 1;
    }
    proof {
        assert(d@.take(n as int) =~= d@);
    }
    out
}

/// Append the entries `d[from..to]` to `out`.
fn push_range(out: &mut Vec<(Expr, i64)>, d: &Vec<(Expr, i64)>, from: usize, to: usize)
    requires
        from <= to <= d@.len(),
    ensures
        final(out)@ == old(out)@ + d@.subrange(from as int, to as int),
{
    let mut i: usize = from;
    proof {
        assert(old(out)@ + d@.subrange(from as int, from as int) =~= old(out)@);
    }
    while i < to
        invariant
            from <= i <= to <= d@.len(),
            out@ == old(out)@ + d@.subrange(from as int, i as int),
        decreases to - i,
    {
        out.push((d[i].0.clone(), d[i].1));
        proof {
            assert(d@[i as int] == (d@[i as int].0, d@[i as int].1));
            assert((old(out)@ + d@.subrange(from as int, i as int)).push(d@[i as int]) =~= old(
                out,
            )@ + d@.subrange(from as int, i as int + 1));
        }
        i = i + 1;
    }
}

/// Add `v` to the entry of `d` keyed by `k`, keeping the sorted order;
/// an entry whose value becomes zero is removed.
pub(crate) fn dict_insert_x(d: &Vec<(Expr, i64)>, k: Expr, v: i64) -> (r: Vec<(Expr, i64)>)
    ensures
        abs_dict(r@) == dict_insert(abs_dict(d@), k@, v),
{
    let ghost da = abs_dict(d@);
    proof {
        lemma_abs_dict(d@);
    }
    let n = d.len();
    let mut j: usize = 0;
    let mut c: i8 = 1;
    while j < n && c > 0
        invariant
            j <= n,
            n == d@.len(),
            da == abs_dict(d@),
            da.len() == n,
            forall|t: int| 0 <= t < n ==> da[t] == (((#[trigger] d@[t]).0)@, d@[t].1),
            forall|t: int| 0 <= t < j ==> cmp_s(k@, (#[trigger] da[t]).0) > 0,
            j < n && c <= 0 ==> c as int == cmp_s(k@, da[j as int].0),
            c > 0 || j < n,
        decreases n - j + (if c > 0 { 1int } else { 0int }),
    {
        c = cmp_expr(&k.0, &d[j].0.0);
        if c > 0 {
            j = j + 1;
        }
    }
    proof {
        lemma_insert_split(da, k@, v, j as int);
    }
    let mut out: Vec<(Expr, i64)> = Vec::new();
    push_range(&mut out, d, 0, j);
    proof {
        lemma_abs_dict(out@);
        assert forall|t: int| 0 <= t < j implies abs_dict(out@)[t] == da[t] by {
            assert(out@[t] == d@[t]);
        }
        assert(abs_dict(out@) =~= da.take(j as int));
    }
    let ghost prefix = abs_dict(out@);
    let ghost suffix = da.skip(j as int);
    if j == n {
        if v != 0 {
            out.push((k, v));
        }
        proof {
            assert(suffix.len() == 0);
            lemma_abs_dict(out@);
            let target = prefix + dict_insert(suffix, k@, v);
            assert forall|t: int| 0 <= t < abs_dict(out@).len() implies abs_dict(out@)[t]
                == target[t] by {
                if t < j {
                    assert(out@[t] == d@[t]);
                } else {
                    assert(out@[t] == (k, v));
                }
            }
            assert(abs_dict(out@) =~= target);
        }
        return out;
    }
    proof {
        assert(suffix[0] == da[j as int]);
    }
    if c < 0 {
        if v != 0 {
            out.push((k, v));
        }
        push_range(&mut out, d, j, n);
        proof {
            lemma_abs_dict(out@);
            let target = prefix + dict_insert(suffix, k@, v);
            let off: int = if v != 0 { 1 } else { 0 };
            assert forall|t: int| 0 <= t < abs_dict(out@).len() implies abs_dict(out@)[t]
                == target[t] by {
                if t < j {
                    assert(out@[t] == d@[t]);
                } else if v != 0 && t == j {
                    assert(out@[t] == (k, v));
                } else {
                    assert(out@[t] == d@[t - off]);
                    assert(suffix[t - off - j] == da[t - off]);
                }
            }
            assert(abs_dict(out@) =~= target);
        }
        out
    } else {
        let s = d[j].1.wrapping_add(v);
        proof {
            lemma_cmp_eq(k@, da[j as int].0);
            assert(k@ == da[j as int].0);
            assert(wadd(da[j as int].1, v) == s);
            assert(suffix.drop_first() =~= da.skip(j as int + 1));
        }
        if s != 0 {
            out.push((k, s));
        }
        push_range(&mut out, d, j + 1, n);
        proof {
            lemma_abs_dict(out@);
            let target = prefix + dict_insert(suffix, k@, v);
            let off: int = if s != 0 { 1 } else { 0 };
            assert forall|t: int| 0 <= t < abs_dict(out@).len() implies abs_dict(out@)[t]
                == target[t] by {
                if t < j {
                    assert(out@[t] == d@[t]);
                } else if s != 0 && t == j {
                    assert(out@[t] == (k, s));
                } else {
                    assert(out@[t] == d@[t - off + 1]);
                    assert(suffix.drop_first()[t - off - j] == da[t - off + 1]);
                }
            }
            assert(abs_dict(out@) =~= target);
        }
        out
    }
}

/// Merge every entry of `d2` into `d1`.
pub(crate) fn dict_merge_x(d1: &Vec<(Expr, i64)>, d2: &Vec<(Expr, i64)>) -> (r: Vec<(Expr, i64)>)
    ensures
        abs_dict(r@) == dict_merge(abs_dict(d1@), abs_dict(d2@)),
{
    let ghost db = abs_dict(d2@);
    proof {
        lemma_abs_dict(d2@);
        assert(db.skip(0) =~= db);
    }
    let mut out = clone_dict(d1);
    let n = d2.len();
    let mut i: usize = 0;
    while i < n
        invariant
            i <= n,
            n == d2@.len(),
            db == abs_dict(d2@),
            db.len() == n,
            forall|t: int| 0 <= t < n ==> db[t] == (((#[trigger] d2@[t]).0)@, d2@[t].1),
            dict_merge(abs_dict(d1@), db) == dict_merge(abs_dict(out@), db.skip(i as int)),
        decreases n - i,
    {
        let ghost s = db.skip(i as int);
        proof {
            assert(s[0] == db[i as int]);
            assert(s.drop_first() =~= db.skip(i as int + 1));
        }
        let entry_key = d2[i].0.clone();
        let entry_val = d2[i].1;
        out = dict_insert_x(&out, entry_key, entry_val);
        i = i + 1;
    }
    proof {
        assert(db.skip(n as int).len() == 0);
    }
    out
}

/// Negate every value of the dictionary, keeping the keys.
pub(crate) fn dict_negv_x(d: &Vec<(Expr, i64)>) -> (r: Vec<(Expr, i64)>)
    ensures
        abs_dict(r@) == dict_negv(abs_dict(d@)),
{
    let ghost da = abs_dict(d@);
    proof {
        lemma_abs_dict(d@);
    }
    let mut out: Vec<(Expr, i64)> = Vec::new();
    let n = d.len();
    let mut i: usize = 0;
    while i < n
        invariant
            i <= n,
            n == d@.len(),
            da == abs_dict(d@),
            da.len() == n,
            forall|t: int| 0 <= t < n ==> da[t] == (((#[trigger] d@[t]).0)@, d@[t].1),
            out@.len() == i,
            forall|t: int|
                0 <= t < i ==> (#[trigger] out@[t]) == (d@[t].0, wneg(da[t].1)),
        decreases n - i,
    {
        out.push((d[i].0.clone(), (0i64).wrapping_sub(d[i].1)));
        i = i + 1;
    }
    proof {
        lemma_abs_dict(out@);
        assert forall|t: int| 0 <= t < n implies abs_dict(out@)[t] == dict_negv(da)[t] by {
            assert(out@[t] == (d@[t].0, wneg(da[t].1)));
        }
        assert(abs_dict(out@) =~= dict_negv(da));
    }
    out
}

/// Remove every entry whose value is zero.
pub fn remove_zeros(dict: &mut Vec<(Expr, i64)>)
    ensures
        abs_dict(final(dict)@) == abs_dict(old(dict)@).filter(|p: (ExprS, i64)| p.1 != 0),
{
    let ghost da = abs_dict(old(dict)@);
    proof {
        lemma_abs_dict(old(dict)@);
        reveal(Seq::filter);
        assert(da.take(0) =~= Seq::<(ExprS, i64)>::empty());
        assert(da.take(0).filter(|p: (ExprS, i64)| p.1 != 0) =~= Seq::<(ExprS, i64)>::empty());
    }
    let mut out: Vec<(Expr, i64)> = Vec::new();
    let n = dict.len();
    let mut i: usize = 0;
    while i < n
        invariant
            i <= n,
            n == old(dict)@.len(),
            dict@ == old(dict)@,
            da == abs_dict(old(dict)@),
            da.len() == n,
            forall|t: int|
                0 <= t < n ==> da[t] == (((#[trigger] old(dict)@[t]).0)@, old(dict)@[t].1),
            abs_dict(out@) == da.take(i as int).filter(|p: (ExprS, i64)| p.1 != 0),
        decreases n - i,
    {
        let ghost pred = |p: (ExprS, i64)| p.1 != 0;
        proof {
            reveal(Seq::filter);
            assert(da.take(i as int + 1).drop_last() =~= da.take(i as int));
            assert(da.take(i as int + 1).last() == da[i as int]);
        }
        let ghost out0 = out@;
        if dict[i].1 != 0 {
            out.push((dict[i].0.clone(), dict[i].1));
        }
        proof {
            lemma_abs_dict(out@);
            lemma_abs_dict(out0);
            let step = da.take(i as int + 1).filter(pred);
            assert(step == da.take(i as int).filter(pred) + (if pred(da[i as int]) {
                seq![da[i as int]]
            } else {
                Seq::empty()
            }));
            if dict@[i as int].1 != 0 {
                assert(out@ == out0.push((old(dict)@[i as int].0, old(dict)@[i as int].1)));
                assert forall|t: int| 0 <= t < abs_dict(out@).len() implies abs_dict(out@)[t]
                    == step[t] by {
                    if t < out0.len() {
                        assert(out@[t] == out0[t]);
                        assert(abs_dict(out0)[t] == step[t]);
                    } else {
                        assert(out@[t] == (old(dict)@[i as int].0, old(dict)@[i as int].1));
                    }
                }
                assert(abs_dict(out@) =~= step);
            } else {
                assert(abs_dict(out@) =~= step);
            }
        }
        i = i + 1;
    }
    proof {
        assert(da.take(n as int) =~= da);
    }
    *dict = out;
}


/// Merge every entry of `sd`, its value scaled by `f`, into `acc`.
pub(crate) fn dict_merge_scaled_x(acc: &Vec<(Expr, i64)>, sd: &Vec<(Expr, i64)>, f: i64) -> (r:
    Vec<(Expr, i64)>)
    ensures
        abs_dict(r@) == dict_merge_scaled(abs_dict(acc@), abs_dict(sd@), f),
{
    let ghost db = abs_dict(sd@);
    proof {
        lemma_abs_dict(sd@);
        assert(db.skip(0) =~= db);
    }
    let mut out = clone_dict(acc);
    let n = sd.len();
    let mut i: usize = 0;
    while i < n
        invariant
            i <= n,
            n == sd@.len(),
            db == abs_dict(sd@),
            db.len() == n,
            forall|t: int| 0 <= t < n ==> db[t] == (((#[trigger] sd@[t]).0)@, sd@[t].1),
            dict_merge_scaled(abs_dict(acc@), db, f) == dict_merge_scaled(
                abs_dict(out@),
                db.skip(i as int),
                f,
            ),
        decreases n - i,
    {
        let ghost s = db.skip(i as int);
        proof {
            assert(s[0] == db[i as int]);
            assert(s.drop_first() =~= db.skip(i as int + 1));
        }
        let entry_key = sd[i].0.clone();
        let entry_val = sd[i].1.wrapping_mul(f);
        out = dict_insert_x(&out, entry_key, entry_val);
        i = i + 1;
    }
    proof {
        assert(db.skip(n as int).len() == 0);
    }
    out
}

} // verus!
