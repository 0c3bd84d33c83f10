//! Structural text form of expression trees, for diagnostics and tests.

use vstd::prelude::*;
use crate::expression::{abs_dict, lemma_abs_dict, Expr, Expression};
use crate::model::ExprS;

verus! {

broadcast use vstd::seq::axiom_seq_index_decreases;

/// Decimal digit for one value below ten.
pub open spec fn digit_char(d: nat) -> char {
    if d == 0 {
        '0'
    } else if d == 1 {
        '1'
    } else if d == 2 {
        '2'
    } else if d == 3 {
        '3'
    } else if d == 4 {
        '4'
    } else if d == 5 {
        '5'
    } else if d == 6 {
        '6'
    } else if d == 7 {
        '7'
    } else if d == 8 {
        '8'
    } else {
        '9'
    }
}

/// Decimal digits of a natural number, most significant first.
pub open spec fn dec_nat(n: nat) -> Seq<char>
    decreases n,
{
    if n < 10 {
        seq![digit_char(n)]
    } else {
        dec_nat(n / 10) + seq![digit_char(n % 10)]
    }
}

/// Decimal form of a coefficient, with a leading minus when negative.
pub open spec fn dec_i64(n: i64) -> Seq<char> {
    if n < 0 {
        seq!['-'] + dec_nat((-(n as int)) as nat)
    } else {
        dec_nat(n as nat)
    }
}

/// Text of one dictionary entry of an `Add` node.
pub open spec fn render_add_entry(k: ExprS, v: i64) -> Seq<char>
    decreases k, 2nat,
{
    seq![' ', '+', ' '] + (if v == 0 {
        Seq::empty()
    } else {
        (if v != 1 {
            dec_i64(v) + seq![' ', '*', ' ']
        } else {
            Seq::empty()
        }) + render_s(k)
    })
}

/// Text of one dictionary entry of a `Mul` node.
pub open spec fn render_mul_entry(k: ExprS, v: i64) -> Seq<char>
    decreases k, 2nat,
{
    seq![' ', '*', ' '] + (if v == 0 {
        Seq::empty()
    } else {
        render_s(k) + (if v != 1 {
            seq![' ', '^', ' '] + dec_i64(v)
        } else {
            Seq::empty()
        })
    })
}

/// Text of the entries of an `Add` dictionary, in order.
pub open spec fn render_add_entries(d: Seq<(ExprS, i64)>) -> Seq<char>
    decreases d, 0nat,
{
    if d.len() == 0 {
        Seq::empty()
    } else {
        render_add_entries(d.drop_last()) + render_add_entry(d.last().0, d.last().1)
    }
}

/// Text of the entries of a `Mul` dictionary, in order.
pub open spec fn render_mul_entries(d: Seq<(ExprS, i64)>) -> Seq<char>
    decreases d, 0nat,
{
    if d.len() == 0 {
        Seq::empty()
    } else {
        render_mul_entries(d.drop_last()) + render_mul_entry(d.last().0, d.last().1)
    }
}

/// Structural text of a tree: constants and symbols stand alone, `Add`
/// and `Mul` nodes list their coefficient and entries in parentheses,
/// and a function call shows its name around its argument.
pub open spec fn render_s(e: ExprS) -> Seq<char>
    decreases e, 1nat,
{
    match e {
        ExprS::Num(n) => dec_i64(n),
        ExprS::Sym(s) => s,
        ExprS::AddS { coeff, dict } => seq!['('] + dec_i64(coeff) + render_add_entries(dict)
            + seq![')'],
        ExprS::MulS { coeff, dict } => seq!['('] + dec_i64(coeff) + render_mul_entries(dict)
            + seq![')'],
        ExprS::FuncS { name, arg } => name + seq!['('] + render_s(*arg) + seq![')'],
    }
}

/// One decimal digit as text.
fn digit_str(d: u64) -> (r: &'static str)
    requires
        d < 10,
    ensures
        r@ == seq![digit_char(d as nat)],
{
    proof {
        reveal_strlit("0");
        reveal_strlit("1");
        reveal_strlit("2");
        reveal_strlit("3");
        reveal_strlit("4");
        reveal_strlit("5");
        reveal_strlit("6");
        reveal_strlit("7");
        reveal_strlit("8");
        reveal_strlit("9");
    }
    match d {
        0 => "0",
        1 => "1",
        2 => "2",
        3 => "3",
        4 => "4",
        5 => "5",
        6 => "6",
        7 => "7",
        8 => "8",
        _ => {
            proof {
                assert(d == 9);
            }
            "9"
        },
    }
}

/// Append the decimal digits of `n`.
fn push_nat(out: &mut String, n: u64)
    ensures
        final(out)@ == old(out)@ + dec_nat(n as nat),
    decreases n,
{
    if n < 10 {
        out.append(digit_str(n));
    } else {
        push_nat(out, n / 10);
        out.append(digit_str(n % 10));
        proof {
            assert((old(out)@ + dec_nat((n / 10) as nat)) + seq![digit_char((n % 10) as nat)]
                =~= old(out)@ + dec_nat(n as nat));
        }
    }
}

/// Append the decimal form of a coefficient.
fn push_i64(out: &mut String, n: i64)
    ensures
        final(out)@ == old(out)@ + dec_i64(n),
{
    proof {
        reveal_strlit("-");
    }
    if n < 0 {
        out.append("-");
        let m: u64 = if n == i64::MIN {
            9223372036854775808u64
        } else {
            (-n) as u64
        };
        proof {
            assert(m as nat == (-(n as int)) as nat);
        }
        push_nat(out, m);
        proof {
            assert(("-"@ + dec_nat(m as nat)) =~= dec_i64(n)) by {
                assert("-"@ =~= seq!['-']);
            }
            assert((old(out)@ + "-"@) + dec_nat(m as nat) =~= old(out)@ + dec_i64(n));
        }
    } else {
        push_nat(out, n as u64);
    }
}

/// Append the structural text of a tree.
fn push_render(out: &mut String, e: &Expression)
    ensures
        final(out)@ == old(out)@ + render_s(e@),
    decreases e@,
{
    proof {
        reveal_strlit("(");
        reveal_strlit(")");
        reveal_strlit(" + ");
        reveal_strlit(" * ");
        reveal_strlit(" ^ ");
    }
    match e {
        Expression::Number(n) => {
            push_i64(out, *n);
        },
        Expression::Symbol(s) => {
            out.append(s.as_str());
        },
        Expression::Add { coeff, dict } => {
            let ghost da = abs_dict(dict@);
            proof {
                lemma_abs_dict(dict@);
            }
            out.append("(");
            push_i64(out, *coeff);
            let ghost base = out@;
            proof {
                assert(da.take(0) =~= Seq::<(ExprS, i64)>::empty());
            }
            let n = dict.len();
            let mut i: usize = 0;
            while i < n
                invariant
                    i <= n,
                    n == dict@.len(),
                    da == abs_dict(dict@),
                    da.len() == n,
                    e@ == (ExprS::AddS { coeff: *coeff, dict: da }),
                    forall|t: int|
                        0 <= t < n ==> da[t] == (((#[trigger] dict@[t]).0)@, dict@[t].1),
                    out@ == base + render_add_entries(da.take(i as int)),
                decreases n - i,
            {
                proof {
                    reveal_strlit(" + ");
                    reveal_strlit(" * ");
                    assert(da.take(i as int + 1).drop_last() =~= da.take(i as int));
                    assert(da.take(i as int + 1).last() == da[i as int]);
                }
                let ghost before = out@;
                out.append(" + ");
                let v = dict[i].1;
                if v != 0 {
                    if v != 1 {
                        push_i64(out, v);
                        out.append(" * ");
                    }
                    proof {
                        assert(e@->AddS_dict == da);
                        assert(decreases_to!(e@ => e@->AddS_dict));
                        assert(decreases_to!(da => da[i as int]));
                        assert(decreases_to!(da[i as int] => da[i as int].0));
                        assert(decreases_to!(e@ => da[i as int].0));
                    }
                    push_render(out, &dict[i].0.0);
                }
                proof {
                    assert(" + "@ =~= seq![' ', '+', ' ']);
                    assert(" * "@ =~= seq![' ', '*', ' ']);
                    assert(out@ =~= before + render_add_entry(da[i as int].0, da[i as int].1));
                    assert(out@ =~= base + render_add_entries(da.take(i as int + 1)));
                }
                i = i + 1;
            }
            out.append(")");
            proof {
                assert(da.take(n as int) =~= da);
                assert("("@ =~= seq!['(']);
                assert(")"@ =~= seq![')']);
                assert(out@ =~= old(out)@ + render_s(e@));
            }
        },
        Expression::Mul { coeff, dict } => {
            let ghost da = abs_dict(dict@);
            proof {
                lemma_abs_dict(dict@);
            }
            out.append("(");
            push_i64(out, *coeff);
            let ghost base = out@;
            proof {
                assert(da.take(0) =~= Seq::<(ExprS, i64)>::empty());
            }
            let n = dict.len();
            let mut i: usize = 0;
            while i < n
                invariant
                    i <= n,
                    n == dict@.len(),
                    da == abs_dict(dict@),
                    da.len() == n,
                    e@ == (ExprS::MulS { coeff: *coeff, dict: da }),
                    forall|t: int|
                        0 <= t < n ==> da[t] == (((#[trigger] dict@[t]).0)@, dict@[t].1),
                    out@ == base + render_mul_entries(da.take(i as int)),
                decreases n - i,
            {
                proof {
                    reveal_strlit(" * ");
                    reveal_strlit(" ^ ");
                    assert(da.take(i as int + 1).drop_last() =~= da.take(i as int));
                    assert(da.take(i as int + 1).last() == da[i as int]);
                }
                let ghost before = out@;
                out.append(" * ");
                let v = dict[i].1;
                if v != 0 {
                    proof {
                        assert(e@->MulS_dict == da);
                        assert(decreases_to!(e@ => e@->MulS_dict));
                        assert(decreases_to!(da => da[i as int]));
                        assert(decreases_to!(da[i as int] => da[i as int].0));
                        assert(decreases_to!(e@ => da[i as int].0));
                    }
                    push_render(out, &dict[i].0.0);
                    if v != 1 {
                        out.append(" ^ ");
                        push_i64(out, v);
                    }
                }
                proof {
                    assert(" * "@ =~= seq![' ', '*', ' ']);
                    assert(" ^ "@ =~= seq![' ', '^', ' ']);
                    assert(out@ =~= before + render_mul_entry(da[i as int].0, da[i as int].1));
                    assert(out@ =~= base + render_mul_entries(da.take(i as int + 1)));
                }
                i = i + 1;
            }
            out.append(")");
            proof {
                assert(da.take(n as int) =~= da);
                assert("("@ =~= seq!['(']);
                assert(")"@ =~= seq![')']);
                assert(out@ =~= old(out)@ + render_s(e@));
            }
        },
        Expression::SingleArgFunc { base, arg } => {
            out.append(base.name.as_str());
            out.append("(");
            push_render(out, &arg.0);
            out.append(")");
            proof {
                assert("("@ =~= seq!['(']);
                assert(")"@ =~= seq![')']);
                assert(out@ =~= old(out)@ + render_s(e@));
            }
        },
    }
}

impl Expression {
    /// Structural text of the tree rooted at this node.
    pub fn render(&self) -> (r: String)
        ensures
            r@ == render_s(self@),
    {
        let mut out = String::new();
        push_render(&mut out, self);
        proof {
            assert(Seq::<char>::empty() + render_s(self@) =~= render_s(self@));
        }
        out
    }
}

impl Expr {
    /// Structural text of the pointed-to tree.
    pub fn render(&self) -> (r: String)
        ensures
            r@ == render_s(self@),
    {
        let mut out = String::new();
        push_render(&mut out, &self.0);
        proof {
            assert(Seq::<char>::empty() + render_s(self@) =~= render_s(self@));
        }
        out
    }
}

} // verus!
