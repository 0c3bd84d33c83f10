//! Integers extended with a positive and a negative infinity.
//!
//! Sums, differences and products are partial: combinations without a
//! well-defined value (opposite infinities, infinity times zero, or a
//! finite result that does not fit the coefficient width) give `None`.

use vstd::prelude::*;
use core::cmp::Ordering;

verus! {

/// An integer, or one of the two infinities.
#[derive(Debug, Clone, Copy, PartialEq, Eq, Structural)]
pub enum ExtendI {
    Int(i64),
    NegInf,
    PosInf,
}

/// What negation gives: the infinities swap, finite values flip.
pub open spec fn neg_ext_s(a: ExtendI) -> ExtendI {
    match a {
        ExtendI::PosInf => ExtendI::NegInf,
        ExtendI::NegInf => ExtendI::PosInf,
        ExtendI::Int(v) => ExtendI::Int(crate::coeff::wneg(v)),
    }
}

/// What addition gives: opposite infinities have no sum, an infinity
/// absorbs anything else, and finite values add exactly or not at all.
pub open spec fn add_ext_s(a: ExtendI, b: ExtendI) -> Option<ExtendI> {
    match (a, b) {
        (ExtendI::PosInf, ExtendI::NegInf) => Option::None,
        (ExtendI::NegInf, ExtendI::PosInf) => Option::None,
        (ExtendI::PosInf, _) => Option::Some(ExtendI::PosInf),
        (_, ExtendI::PosInf) => Option::Some(ExtendI::PosInf),
        (ExtendI::NegInf, _) => Option::Some(ExtendI::NegInf),
        (_, ExtendI::NegInf) => Option::Some(ExtendI::NegInf),
        (ExtendI::Int(v1), ExtendI::Int(v2)) => if v1 + v2 > i64::MAX || v1 + v2 < i64::MIN {
            Option::None
        } else {
            Option::Some(ExtendI::Int((v1 + v2) as i64))
        },
    }
}

/// What multiplication gives: like-signed infinities give the positive
/// one, mixed signs the negative one, an infinity by a finite value
/// follows that value's sign and has no product with zero, and finite
/// values multiply exactly or not at all.
pub open spec fn mul_ext_s(a: ExtendI, b: ExtendI) -> Option<ExtendI> {
    match (a, b) {
        (ExtendI::PosInf, ExtendI::PosInf) => Option::Some(ExtendI::PosInf),
        (ExtendI::NegInf, ExtendI::NegInf) => Option::Some(ExtendI::PosInf),
        (ExtendI::PosInf, ExtendI::NegInf) => Option::Some(ExtendI::NegInf),
        (ExtendI::NegInf, ExtendI::PosInf) => Option::Some(ExtendI::NegInf),
        (ExtendI::PosInf, ExtendI::Int(x)) => if x > 0 {
            Option::Some(ExtendI::PosInf)
        } else if x < 0 {
            Option::Some(ExtendI::NegInf)
        } else {
            Option::None
        },
        (ExtendI::Int(x), ExtendI::PosInf) => if x > 0 {
            Option::Some(ExtendI::PosInf)
        } else if x < 0 {
            Option::Some(ExtendI::NegInf)
        } else {
            Option::None
        },
        (ExtendI::NegInf, ExtendI::Int(x)) => if x > 0 {
            Option::Some(ExtendI::NegInf)
        } else if x < 0 {
            Option::Some(ExtendI::PosInf)
        } else {
            Option::None
        },
        (ExtendI::Int(x), ExtendI::NegInf) => if x > 0 {
            Option::Some(ExtendI::NegInf)
        } else if x < 0 {
            Option::Some(ExtendI::PosInf)
        } else {
            Option::None
        },
        (ExtendI::Int(v1), ExtendI::Int(v2)) => if v1 * v2 > i64::MAX || v1 * v2 < i64::MIN {
            Option::None
        } else {
            Option::Some(ExtendI::Int((v1 * v2) as i64))
        },
    }
}

impl PartialOrd for ExtendI {
    /// Total comparison: the negative infinity comes first, the
    /// positive infinity last, finite values in their own order.
    fn partial_cmp(&self, other: &Self) -> (r: Option<Ordering>) {
        match (self, other) {
            (ExtendI::PosInf, ExtendI::PosInf) => Some(Ordering::Equal),
            (ExtendI::NegInf, ExtendI::NegInf) => Some(Ordering::Equal),
            (ExtendI::PosInf, _) => Some(Ordering::Greater),
            (_, ExtendI::NegInf) => Some(Ordering::Greater),
            (_, ExtendI::PosInf) => Some(Ordering::Less),
            (ExtendI::NegInf, _) => Some(Ordering::Less),
            (ExtendI::Int(v1), ExtendI::Int(v2)) => if v1 < v2 {
                Some(Ordering::Less)
            } else if v1 > v2 {
                Some(Ordering::Greater)
            } else {
                Some(Ordering::Equal)
            },
        }
    }
}

impl vstd::std_specs::cmp::PartialOrdSpecImpl for ExtendI {
    open spec fn obeys_partial_cmp_spec() -> bool {
        true
    }

    open spec fn partial_cmp_spec(&self, other: &Self) -> Option<Ordering> {
        match (*self, *other) {
            (ExtendI::PosInf, ExtendI::PosInf) => Some(Ordering::Equal),
            (ExtendI::NegInf, ExtendI::NegInf) => Some(Ordering::Equal),
            (ExtendI::PosInf, _) => Some(Ordering::Greater),
            (_, ExtendI::NegInf) => Some(Ordering::Greater),
            (_, ExtendI::PosInf) => Some(Ordering::Less),
            (ExtendI::NegInf, _) => Some(Ordering::Less),
            (ExtendI::Int(v1), ExtendI::Int(v2)) => if v1 < v2 {
                Some(Ordering::Less)
            } else if v1 > v2 {
                Some(Ordering::Greater)
            } else {
                Some(Ordering::Equal)
            },
        }
    }
}

impl From<i64> for ExtendI {
    /// A finite extended integer.
    fn from(value: i64) -> (r: Self) {
        ExtendI::Int(value)
    }
}

impl vstd::std_specs::convert::FromSpecImpl<i64> for ExtendI {
    open spec fn obeys_from_spec() -> bool {
        true
    }

    open spec fn from_spec(t: i64) -> Self {
        ExtendI::Int(t)
    }
}

impl ExtendI {
    /// Negation; total, with the infinities swapping places.
    pub fn neg(self) -> (r: Self)
        ensures
            r == neg_ext_s(self),
    {
        match self {
            ExtendI::PosInf => ExtendI::NegInf,
            ExtendI::Int(v) => ExtendI::Int((0i64).wrapping_sub(v)),
            ExtendI::NegInf => ExtendI::PosInf,
        }
    }

    /// Sum, where it has a well-defined value.
    pub fn add(self, rhs: Self) -> (r: Option<Self>)
        ensures
            r == add_ext_s(self, rhs),
    {
        match (self, rhs) {
            (ExtendI::PosInf, ExtendI::NegInf) => None,
            (ExtendI::NegInf, ExtendI::PosInf) => None,
            (ExtendI::PosInf, _) => Some(ExtendI::PosInf),
            (_, ExtendI::PosInf) => Some(ExtendI::PosInf),
            (ExtendI::NegInf, _) => Some(ExtendI::NegInf),
            (_, ExtendI::NegInf) => Some(ExtendI::NegInf),
            (ExtendI::Int(v1), ExtendI::Int(v2)) => match v1.checked_add(v2) {
                Some(s) => Some(ExtendI::Int(s)),
                None => None,
            },
        }
    }

    /// Difference: the sum with the negation.
    pub fn sub(self, rhs: Self) -> (r: Option<Self>)
        ensures
            r == add_ext_s(self, neg_ext_s(rhs)),
    {
        self.add(rhs.neg())
    }

    /// Product, where it has a well-defined value.
    pub fn mul(self, rhs: Self) -> (r: Option<Self>)
        ensures
            r == mul_ext_s(self, rhs),
    {
        match (self, rhs) {
            (ExtendI::PosInf, ExtendI::PosInf) => Some(ExtendI::PosInf),
            (ExtendI::NegInf, ExtendI::NegInf) => Some(ExtendI::PosInf),
            (ExtendI::PosInf, ExtendI::NegInf) => Some(ExtendI::NegInf),
            (ExtendI::NegInf, ExtendI::PosInf) => Some(ExtendI::NegInf),
            (ExtendI::PosInf, ExtendI::Int(x)) => ExtendI::inf_times(x, true),
            (ExtendI::Int(x), ExtendI::PosInf) => ExtendI::inf_times(x, true),
            (ExtendI::NegInf, ExtendI::Int(x)) => ExtendI::inf_times(x, false),
            (ExtendI::Int(x), ExtendI::NegInf) => ExtendI::inf_times(x, false),
            (ExtendI::Int(v1), ExtendI::Int(v2)) => match v1.checked_mul(v2) {
                Some(s) => Some(ExtendI::Int(s)),
                None => None,
            },
        }
    }

    /// Product of an infinity with a finite value: the sign decides.
    fn inf_times(x: i64, positive: bool) -> (r: Option<Self>)
        ensures
            x > 0 ==> r == Some(if positive {
                ExtendI::PosInf
            } else {
                ExtendI::NegInf
            }),
            x < 0 ==> r == Some(if positive {
                ExtendI::NegInf
            } else {
                ExtendI::PosInf
            }),
            x == 0 ==> r is None,
    {
        if x > 0 {
            if positive {
                Some(ExtendI::PosInf)
            } else {
                Some(ExtendI::NegInf)
            }
        } else if x < 0 {
            if positive {
                Some(ExtendI::NegInf)
            } else {
                Some(ExtendI::PosInf)
            }
        } else {
            None
        }
    }
}

} // verus!
