//! Kernel of a small computer-algebra library: immutable symbolic
//! expression trees with structural equality, locally-normalizing
//! arithmetic combinators, and a canonicalization pass that rewrites any
//! tree to a unique reduced form.

pub mod canonical;
pub mod coeff;
pub mod dict;
pub mod eq;
pub mod expression;
pub mod extendint;
pub mod laws;
pub mod model;
pub mod op;
pub mod order;
pub mod render;
pub mod symbol;
pub mod term;

pub use canonical::canon_ok;
pub use canonical::canon_s;
pub use canonical::CoeffError;
pub use coeff::wadd;
pub use dict::remove_zeros;
pub use eq::expr_eq;
pub use expression::Expr;
pub use expression::Expression;
pub use expression::SingleArgFunc;
pub use extendint::ExtendI;
pub use laws::canonical_s;
pub use laws::lemma_add_associative;
pub use laws::lemma_add_commutative;
pub use laws::lemma_add_wf;
pub use laws::lemma_add_zero_identity;
pub use laws::lemma_canonicalize_idempotent;
pub use laws::lemma_mul_associative;
pub use laws::lemma_mul_commutative;
pub use laws::lemma_mul_wf;
pub use laws::lemma_negate_constant;
pub use laws::lemma_self_addition;
pub use laws::lemma_subtract_self;
pub use model::ExprS;
pub use op::add_s;
pub use op::mul_s;
pub use op::neg_s;
pub use op::sub_s;
pub use symbol::Symbol;
pub use term::Add;
pub use term::Term;
