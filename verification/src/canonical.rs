//! The canonicalizer: bottom-up rewriting to the unique reduced form.
//!
//! Five rules are applied until none fires, children before parents:
//! nested `Add`-in-`Add` (resp. `Mul`-in-`Mul`) nodes are flattened; an
//! `Add` or `Mul` with an empty dictionary collapses to its coefficient;
//! a child that reduces to a constant is folded into the coefficient; a
//! `Mul` with coefficient zero collapses to zero; and `0 + x` or `1 * x`
//! collapses to `x` alone.

use vstd::prelude::*;
use crate::coeff::{pow_ok, wadd, wmul, wpow};
use crate::dict::{dict_insert_x, dict_merge_scaled_x};
use crate::expression::{abs_dict, lemma_abs_dict, Expr, Expression};
use crate::model::{dict_insert, dict_merge_scaled, ExprS};

verus! {

/// Failure of the numeric capability: an exponentiation with no exact
/// integer value (a constant other than `1` or `-1` raised to a
/// negative power).
#[derive(Debug, Clone, Copy, PartialEq, Eq, Structural)]
pub enum CoeffError {
    UndefinedPower,
}

/// One folding step of an `Add` node over its already-canonicalized
/// child: a constant child joins the coefficient, a child `Add` is
/// flattened into the parent, anything else becomes a dictionary entry.
pub open spec fn canon_add_fold(
    c: i64,
    acc: Seq<(ExprS, i64)>,
    d: Seq<(ExprS, i64)>,
) -> (i64, Seq<(ExprS, i64)>)
    decreases d, 0nat,
{
    if d.len() == 0 {
        (c, acc)
    } else {
        let k = canon_s(d[0].0);
        let v = d[0].1;
        let step = match k {
            ExprS::Num(n) => (wadd(c, wmul(n, v)), acc),
            ExprS::AddS { coeff: sc, dict: sd } => (
                wadd(c, wmul(sc, v)),
                dict_merge_scaled(acc, sd, v),
            ),
            _ => (c, dict_insert(acc, k, v)),
        };
        canon_add_fold(step.0, step.1, d.drop_first())
    }
}

/// One folding step of a `Mul` node over its already-canonicalized
/// child, with multiplicative semantics: a constant child is raised to
/// its exponent and multiplied into the coefficient, a child `Mul` is
/// flattened, anything else becomes a dictionary entry.
pub open spec fn canon_mul_fold(
    c: i64,
    acc: Seq<(ExprS, i64)>,
    d: Seq<(ExprS, i64)>,
) -> (i64, Seq<(ExprS, i64)>)
    decreases d, 0nat,
{
    if d.len() == 0 {
        (c, acc)
    } else {
        let k = canon_s(d[0].0);
        let v = d[0].1;
        let step = match k {
            ExprS::Num(n) => (wmul(c, wpow(n, v)), acc),
            ExprS::MulS { coeff: sc, dict: sd } => (
                wmul(c, wpow(sc, v)),
                dict_merge_scaled(acc, sd, v),
            ),
            _ => (c, dict_insert(acc, k, v)),
        };
        canon_mul_fold(step.0, step.1, d.drop_first())
    }
}

/// The canonical form of a tree: children first, then the five rules at
/// the node itself — except that a `Mul` whose stated coefficient is
/// zero collapses to zero unconditionally, whatever its dictionary
/// holds. Constants, symbols and function calls are already canonical;
/// the argument of a function call is left as it is.
pub open spec fn canon_s(e: ExprS) -> ExprS
    decreases e, 1nat,
{
    match e {
        ExprS::Num(_) => e,
        ExprS::Sym(_) => e,
        ExprS::FuncS { .. } => e,
        ExprS::AddS { coeff, dict } => {
            let f = canon_add_fold(coeff, Seq::empty(), dict);
            if f.1.len() == 0 {
                ExprS::Num(f.0)
            } else if f.0 == 0 && f.1.len() == 1 && f.1[0].1 == 1 {
                f.1[0].0
            } else {
                ExprS::AddS { coeff: f.0, dict: f.1 }
            }
        },
        ExprS::MulS { coeff, dict } => {
            if coeff == 0 {
                ExprS::Num(0)
            } else {
                let f = canon_mul_fold(coeff, Seq::empty(), dict);
                if f.0 == 0 {
                    ExprS::Num(0)
                } else if f.1.len() == 0 {
                ExprS::Num(f.0)
                } else if f.0 == 1 && f.1.len() == 1 && f.1[0].1 == 1 {
                    f.1[0].0
                } else {
                    ExprS::MulS { coeff: f.0, dict: f.1 }
                }
            }
        },
    }
}

/// Whether a canonicalized child of a `Mul` can be folded exactly: a
/// constant child, and the coefficient of a flattened child `Mul`, must
/// each have an exact power at the exponent they are raised to.
pub open spec fn mul_child_ok(k: ExprS, v: i64) -> bool {
    match k {
        ExprS::Num(n) => pow_ok(n, v),
        ExprS::MulS { coeff, .. } => pow_ok(coeff, v),
        _ => true,
    }
}

/// Whether canonicalization succeeds: every exponentiation it must
/// perform has an exact integer value.
pub open spec fn canon_ok(e: ExprS) -> bool
    decreases e, 2nat,
{
    match e {
        ExprS::Num(_) => true,
        ExprS::Sym(_) => true,
        ExprS::FuncS { .. } => true,
        ExprS::AddS { coeff, dict } => forall|i: int|
            0 <= i < dict.len() ==> canon_ok((#[trigger] dict[i]).0),
        ExprS::MulS { coeff, dict } => coeff == 0 || ((forall|i: int|
            0 <= i < dict.len() ==> canon_ok((#[trigger] dict[i]).0)) && (forall|i: int|
            0 <= i < dict.len() ==> mul_child_ok(canon_s((#[trigger] dict[i]).0), dict[i].1))),
    }
}

/// Wrapping power of a coefficient, for the exponents `pow_ok` allows.
fn pow_coeff(base: i64, exp: i64) -> (r: i64)
    requires
        pow_ok(base, exp),
    ensures
        r == wpow(base, exp),
{
    if exp < 0 {
        if base == 1 {
            1
        } else {
            let even = if exp == i64::MIN {
                true
            } else {
                (-exp) % 2 == 0
            };
            proof {
                assert(even <==> (exp as int) % 2 == 0) by (nonlinear_arith)
                    requires
                        exp < 0,
                        even <==> (if exp == i64::MIN {
                            true
                        } else {
                            (-(exp as int)) % 2 == 0
                        }),
                ;
            }
            if even {
                1
            } else {
                -1
            }
        }
    } else {
        let mut r: i64 = 1;
        let mut i: i64 = 0;
        while i < exp
            invariant
                0 <= i <= exp,
                r == wpow(base, i),
            decreases exp - i,
        {
            r = base.wrapping_mul(r);
            i = i + 1;
        }
        r
    }
}

impl Expr {
    /// Rewrite the expression to its canonical form.
    ///
    /// Fails exactly when some rewrite step needs an exponentiation
    /// without an exact integer value; the error of the coefficient
    /// operation is surfaced unchanged.
    pub fn canonicalize(&self) -> (r: Result<Expr, CoeffError>)
        ensures
            r is Ok <==> canon_ok(self@),
            r matches Ok(e) ==> e@ == canon_s(self@),
        decreases self@,
    {
        match &*self.0 {
            Expression::Number(_) => Ok(self.clone()),
            Expression::Symbol(_) => Ok(self.clone()),
            Expression::SingleArgFunc { .. } => Ok(self.clone()),
            Expression::Add { coeff, dict } => {
                let ghost da = abs_dict(dict@);
                proof {
                    lemma_abs_dict(dict@);
                    assert(da.skip(0) =~= da);
                }
                let ghost c0: i64 = *coeff;
                let mut c: i64 = *coeff;
                let mut acc: Vec<(Expr, i64)> = Vec::new();
                proof {
                    assert(abs_dict(acc@) =~= Seq::<(ExprS, i64)>::empty());
                }
                let n = dict.len();
                let mut i: usize = 0;
                while i < n
                    invariant
                        i <= n,
                        n == dict@.len(),
                        self@ == (ExprS::AddS { coeff: c0, dict: da }),
                        da == abs_dict(dict@),
                        da.len() == n,
                        forall|t: int|
                            0 <= t < n ==> da[t] == (((#[trigger] dict@[t]).0)@, dict@[t].1),
                        forall|t: int| 0 <= t < i ==> canon_ok((#[trigger] da[t]).0),
                        canon_add_fold(c0, Seq::empty(), da) == canon_add_fold(
                            c,
                            abs_dict(acc@),
                            da.skip(i as int),
                        ),
                    decreases n - i,
                {
                    let ghost s = da.skip(i as int);
                    proof {
                        assert(s[0] == da[i as int]);
                        assert(s.drop_first() =~= da.skip(i as int + 1));
                    }
                    let v = dict[i].1;
                    let sub = match dict[i].0.canonicalize() {
                        Ok(sub) => sub,
                        Err(err) => {
                            proof {
                                assert(!canon_ok(da[i as int].0));
                            }
                            return Err(err);
                        },
                    };
                    match &*sub.0 {
                        Expression::Number(sn) => {
                            c = c.wrapping_add(sn.wrapping_mul(v));
                        },
                        Expression::Add { coeff: sc, dict: sd } => {
                            c = c.wrapping_add(sc.wrapping_mul(v));
                            acc = dict_merge_scaled_x(&acc, sd, v);
                        },
                        _ => {
                            acc = dict_insert_x(&acc, sub, v);
                        },
                    }
                    i = i + 1;
                }
                proof {
                    assert(da.skip(n as int).len() == 0);
                    assert(canon_ok(self@));
                    lemma_abs_dict(acc@);
                }
                if acc.len() == 0 {
                    Ok(Expr::number(c))
                } else if c == 0 && acc.len() == 1 && acc[0].1 == 1 {
                    Ok(acc[0].0.clone())
                } else {
                    Ok(Expr::raw_add_node(c, acc))
                }
            },
            Expression::Mul { coeff, dict } => {
                if *coeff == 0 {
                    return Ok(Expr::number(0));
                }
                let ghost da = abs_dict(dict@);
                proof {
                    lemma_abs_dict(dict@);
                    assert(da.skip(0) =~= da);
                }
                let ghost c0: i64 = *coeff;
                let mut c: i64 = *coeff;
                let mut acc: Vec<(Expr, i64)> = Vec::new();
                proof {
                    assert(abs_dict(acc@) =~= Seq::<(ExprS, i64)>::empty());
                }
                let n = dict.len();
                let mut i: usize = 0;
                while i < n
                    invariant
                        i <= n,
                        n == dict@.len(),
                        self@ == (ExprS::MulS { coeff: c0, dict: da }),
                        c0 != 0,
                        da == abs_dict(dict@),
                        da.len() == n,
                        forall|t: int|
                            0 <= t < n ==> da[t] == (((#[trigger] dict@[t]).0)@, dict@[t].1),
                        forall|t: int| 0 <= t < i ==> canon_ok((#[trigger] da[t]).0),
                        forall|t: int|
                            0 <= t < i ==> mul_child_ok(canon_s((#[trigger] da[t]).0), da[t].1),
                        canon_mul_fold(c0, Seq::empty(), da) == canon_mul_fold(
                            c,
                            abs_dict(acc@),
                            da.skip(i as int),
                        ),
                    decreases n - i,
                {
                    let ghost s = da.skip(i as int);
                    proof {
                        assert(s[0] == da[i as int]);
                        assert(s.drop_first() =~= da.skip(i as int + 1));
                    }
                    let v = dict[i].1;
                    let sub = match dict[i].0.canonicalize() {
                        Ok(sub) => sub,
                        Err(err) => {
                            proof {
                                assert(!canon_ok(da[i as int].0));
                            }
                            return Err(err);
                        },
                    };
                    match &*sub.0 {
                        Expression::Number(sn) => {
                            if v < 0 && *sn != 1 && *sn != -1 {
                                proof {
                                    assert(!mul_child_ok(canon_s(da[i as int].0), da[i as int].1));
                                }
                                return Err(CoeffError::UndefinedPower);
                            }
                            c = c.wrapping_mul(pow_coeff(*sn, v));
                        },
                        Expression::Mul { coeff: sc, dict: sd } => {
                            if v < 0 && *sc != 1 && *sc != -1 {
                                proof {
                                    assert(!mul_child_ok(canon_s(da[i as int].0), da[i as int].1));
                                }
                                return Err(CoeffError::UndefinedPower);
                            }
                            c = c.wrapping_mul(pow_coeff(*sc, v));
                            acc = dict_merge_scaled_x(&acc, sd, v);
                        },
                        _ => {
                            acc = dict_insert_x(&acc, sub, v);
                        },
                    }
                    i = i + 1;
                }
                proof {
                    assert(da.skip(n as int).len() == 0);
                    assert(canon_ok(self@));
                    lemma_abs_dict(acc@);
                }
                if c == 0 {
                    Ok(Expr::number(0))
                } else if acc.len() == 0 {
                    Ok(Expr::number(c))
                } else if c == 1 && acc.len() == 1 && acc[0].1 == 1 {
                    Ok(acc[0].0.clone())
                } else {
                    Ok(Expr::raw_mul_node(c, acc))
                }
            },
        }
    }
}

} // verus!
