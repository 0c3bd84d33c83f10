//! Exact terms over arbitrary-precision numbers: integers, rationals,
//! symbols, and deferred sums that `apply` reduces by folding constants.

use vstd::prelude::*;
use num::bigint::BigInt;
use num::rational::BigRational;
use num::Zero;

verus! {

/// Declares num's arbitrary-precision signed integer so that it can
/// stand in signatures and fields.
#[verifier::external_type_specification]
#[verifier::external_body]
pub struct ExBigInt(BigInt);

/// Declares num's ratio of two numbers so that `BigRational` can stand
/// in signatures and fields.
#[verifier::external_type_specification]
#[verifier::external_body]
#[verifier::reject_recursive_types(T)]
pub struct ExRatio<T>(num::rational::Ratio<T>);

/// The integer that a coefficient literal denotes.
pub uninterp spec fn big_of_i64(v: i64) -> BigInt;

/// The sum of two arbitrary-precision integers.
pub uninterp spec fn big_sum(a: BigInt, b: BigInt) -> BigInt;

/// The sum of two arbitrary-precision rationals.
pub uninterp spec fn rat_sum(a: BigRational, b: BigRational) -> BigRational;

/// The rational with an integer's value.
pub uninterp spec fn big_to_rat(a: BigInt) -> BigRational;

/// Whether a rational is well-formed: its denominator is nonzero.
/// `Ratio::new_raw` can build values with a zero denominator, and num's
/// arithmetic panics on them, so the kernel folds only well-formed
/// rationals.
pub uninterp spec fn rat_wf(a: BigRational) -> bool;

/// Relies on `Ratio::denom` and `BigInt`'s `is_zero`: whether the
/// value's denominator is nonzero, a function of the value alone.
#[verifier::external_body]
fn rat_is_wf(a: &BigRational) -> (r: bool)
    ensures
        r == rat_wf(*a),
{
    !a.denom().is_zero()
}

/// Relies on `BigInt::from` for `i64`: the integer with that value,
/// depending on the argument alone.
#[verifier::external_body]
fn bigint_from_i64(v: i64) -> (r: BigInt)
    ensures
        r == big_of_i64(v),
{
    BigInt::from(v)
}

/// Relies on `BigInt`'s addition: the exact sum, depending on the
/// arguments alone.
#[verifier::external_body]
fn bigint_add(a: BigInt, b: BigInt) -> (r: BigInt)
    ensures
        r == big_sum(a, b),
{
    a + b
}

/// Relies on `BigInt`'s `Clone`: a copy standing for the same integer.
#[verifier::external_body]
fn bigint_clone(a: &BigInt) -> (r: BigInt)
    ensures
        r == *a,
{
    a.clone()
}

/// Relies on `BigRational`'s addition: the exact sum, depending on the
/// arguments alone. Addition reduces through the denominators' gcd, so
/// both operands must be well-formed, and the reduced result is.
#[verifier::external_body]
fn bigrational_add(a: BigRational, b: BigRational) -> (r: BigRational)
    requires
        rat_wf(a),
        rat_wf(b),
    ensures
        r == rat_sum(a, b),
        rat_wf(r),
{
    a + b
}

/// Relies on `Ratio::from_integer`: the rational with the integer's
/// value, depending on the argument alone; its denominator is one, so
/// it is well-formed.
#[verifier::external_body]
fn bigrational_from_integer(v: BigInt) -> (r: BigRational)
    ensures
        r == big_to_rat(v),
        rat_wf(r),
{
    BigRational::from_integer(v)
}

/// Relies on `BigRational`'s `Clone`: a copy standing for the same
/// rational.
#[verifier::external_body]
fn bigrational_clone(a: &BigRational) -> (r: BigRational)
    ensures
        r == *a,
{
    a.clone()
}

/// An exact term: an integer, a deferred sum, a rational, or a symbol.
#[derive(Debug)]
pub enum Term {
    Integer(BigInt),
    Expression(Box<Add>),
    Rational(BigRational),
    Symbol(String),
}

/// A deferred sum of two terms.
#[derive(Debug)]
pub struct Add {
    pub lhs: Term,
    pub rhs: Term,
}

/// Every rational a term holds, anywhere in it, is well-formed.
pub open spec fn term_wf(t: Term) -> bool
    decreases t,
{
    match t {
        Term::Integer(_) => true,
        Term::Rational(r) => rat_wf(r),
        Term::Symbol(_) => true,
        Term::Expression(e) => term_wf(e.lhs) && term_wf(e.rhs),
    }
}

/// A node that can reduce itself to a single term.
pub trait Expression {
    /// Whether every rational the node holds is well-formed.
    spec fn wf(&self) -> bool;

    /// Reduce to a single term.
    fn apply(&self) -> Term
        requires
            self.wf(),
    ;
}

/// What reducing a term gives: leaves reduce to themselves, a deferred
/// sum folds.
pub open spec fn apply_s(t: Term) -> Term
    decreases t, 0nat,
{
    match t {
        Term::Integer(v) => Term::Integer(v),
        Term::Rational(r) => Term::Rational(r),
        Term::Symbol(s) => Term::Symbol(s),
        Term::Expression(e) => add_apply_s(*e),
    }
}

/// What reducing a deferred sum gives: both sides reduce first; two
/// exact numbers fold into one, an integer is promoted beside a
/// rational, and anything else stays a deferred sum of the reduced
/// sides.
pub open spec fn add_apply_s(a: Add) -> Term
    decreases a, 1nat,
{
    let l = apply_s(a.lhs);
    let r = apply_s(a.rhs);
    match (l, r) {
        (Term::Integer(x), Term::Integer(y)) => Term::Integer(big_sum(x, y)),
        (Term::Rational(x), Term::Integer(y)) => Term::Rational(rat_sum(x, big_to_rat(y))),
        (Term::Rational(x), Term::Rational(y)) => Term::Rational(rat_sum(x, y)),
        (Term::Integer(x), Term::Rational(y)) => Term::Rational(rat_sum(big_to_rat(x), y)),
        (l2, r2) => Term::Expression(Box::new(Add { lhs: l2, rhs: r2 })),
    }
}

impl Add {
    /// A deferred sum of the two terms.
    pub fn new(lhs: Term, rhs: Term) -> (r: Term)
        ensures
            r matches Term::Expression(e) && e.lhs == lhs && e.rhs == rhs,
    {
        Term::Expression(Box::new(Add { lhs, rhs }))
    }

    /// Reduce the deferred sum, folding exact numbers.
    pub fn apply(&self) -> (r: Term)
        requires
            term_wf(self.lhs),
            term_wf(self.rhs),
        ensures
            r == add_apply_s(*self),
            term_wf(r),
        decreases *self, 1nat,
    {
        let lhs = self.lhs.apply();
        let rhs = self.rhs.apply();
        match (lhs, rhs) {
            (Term::Integer(lhs), Term::Integer(rhs)) => Term::Integer(bigint_add(lhs, rhs)),
            (Term::Rational(lhs), Term::Integer(rhs)) => Term::Rational(
                bigrational_add(lhs, bigrational_from_integer(rhs)),
            ),
            (Term::Rational(lhs), Term::Rational(rhs)) => Term::Rational(
                bigrational_add(lhs, rhs),
            ),
            (Term::Integer(lhs), Term::Rational(rhs)) => Term::Rational(
                bigrational_add(bigrational_from_integer(lhs), rhs),
            ),
            (lhs, rhs) => Term::Expression(Box::new(Add { lhs, rhs })),
        }
    }
}

impl Term {
    /// Reduce this term: each leaf stands for itself, a deferred sum
    /// folds.
    pub fn apply(&self) -> (r: Term)
        requires
            term_wf(*self),
        ensures
            r == apply_s(*self),
            term_wf(r),
        decreases *self, 0nat,
    {
        match self {
            Term::Integer(val) => Term::Integer(bigint_clone(val)),
            Term::Expression(expr) => expr.apply(),
            Term::Rational(rational) => Term::Rational(bigrational_clone(rational)),
            Term::Symbol(symbol) => Term::Symbol(symbol.clone()),
        }
    }

    /// Whether every rational this term holds is well-formed, so that
    /// `apply` may fold it.
    pub fn well_formed(&self) -> (r: bool)
        ensures
            r == term_wf(*self),
        decreases *self,
    {
        match self {
            Term::Integer(_) => true,
            Term::Rational(rational) => rat_is_wf(rational),
            Term::Symbol(_) => true,
            Term::Expression(e) => e.lhs.well_formed() && e.rhs.well_formed(),
        }
    }

    /// A deferred sum of this term and another.
    pub fn add(self, rhs: Term) -> (r: Term)
        ensures
            r matches Term::Expression(e) && e.lhs == self && e.rhs == rhs,
    {
        Add::new(self, rhs)
    }
}

impl Expression for Add {
    open spec fn wf(&self) -> bool {
        term_wf(self.lhs) && term_wf(self.rhs)
    }

    /// Reduce the deferred sum.
    fn apply(&self) -> Term {
        Add::apply(self)
    }
}

impl Expression for Term {
    open spec fn wf(&self) -> bool {
        term_wf(*self)
    }

    /// Reduce the term.
    fn apply(&self) -> Term {
        Term::apply(self)
    }
}

impl From<i64> for Term {
    /// An exact integer term from a machine integer.
    fn from(value: i64) -> (r: Self) {
        Term::Integer(bigint_from_i64(value))
    }
}

impl vstd::std_specs::convert::FromSpecImpl<i64> for Term {
    open spec fn obeys_from_spec() -> bool {
        true
    }

    open spec fn from_spec(t: i64) -> Self {
        Term::Integer(big_of_i64(t))
    }
}

impl From<BigInt> for Term {
    /// An exact integer term.
    fn from(value: BigInt) -> (r: Self) {
        Term::Integer(value)
    }
}

impl vstd::std_specs::convert::FromSpecImpl<BigInt> for Term {
    open spec fn obeys_from_spec() -> bool {
        true
    }

    open spec fn from_spec(t: BigInt) -> Self {
        Term::Integer(t)
    }
}

impl From<BigRational> for Term {
    /// An exact rational term.
    fn from(value: BigRational) -> (r: Self) {
        Term::Rational(value)
    }
}

impl vstd::std_specs::convert::FromSpecImpl<BigRational> for Term {
    open spec fn obeys_from_spec() -> bool {
        true
    }

    open spec fn from_spec(t: BigRational) -> Self {
        Term::Rational(t)
    }
}

impl From<String> for Term {
    /// A symbol term from its name.
    fn from(value: String) -> (r: Self) {
        Term::Symbol(value)
    }
}

impl vstd::std_specs::convert::FromSpecImpl<String> for Term {
    open spec fn obeys_from_spec() -> bool {
        true
    }

    open spec fn from_spec(t: String) -> Self {
        Term::Symbol(t)
    }
}

} // verus!
