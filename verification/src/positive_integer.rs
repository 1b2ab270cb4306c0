//! A `u32` newtype that is always at least 1, used for node indices
//! handed to the algorithms.

use core::cmp::Ordering;
use vstd::prelude::*;

verus! {

/// An unsigned integer that is always at least 1; zero is rejected at
/// construction.
#[derive(Clone, Copy, Debug)]
pub struct PositiveInteger(u32);

impl View for PositiveInteger {
    type V = u32;

    closed spec fn view(&self) -> u32 {
        self.0
    }
}

impl PositiveInteger {
    /// The value wrapped is never zero.
    #[verifier::type_invariant]
    spec fn positive(self) -> bool {
        self.0 >= 1
    }

    /// The wrapped value, always at least 1.
    pub fn value(&self) -> (r: u32)
        ensures
            r == self@,
            r >= 1,
    {
        proof {
            use_type_invariant(*self);
        }
        self.0
    }
}

/// Errors of constructing a [`PositiveInteger`].
#[derive(Debug, Clone, PartialEq)]
pub enum PositiveIntegerError {
    /// The input denotes a negative number; holds the raw input.
    InputNumberIsNegativeError(String),
    /// Zero is not a positive integer.
    InputNumberIsEqZeroError,
    /// The input is not an integer; holds the raw input and a
    /// description of the parse failure.
    InputNumberIsNotIntegerError { input: String, parse_error_message: String },
}

impl TryFrom<u32> for PositiveInteger {
    type Error = PositiveIntegerError;

    fn try_from(val: u32) -> (r: Result<Self, PositiveIntegerError>)
        ensures
            val == 0 ==> r == Err::<PositiveInteger, PositiveIntegerError>(
                PositiveIntegerError::InputNumberIsEqZeroError,
            ),
            val >= 1 ==> (r matches Ok(p) && p@ == val),
    {
        if val == 0 {
            return Err(PositiveIntegerError::InputNumberIsEqZeroError);
        }
        Ok(PositiveInteger(val))
    }
}

impl vstd::std_specs::convert::TryFromSpecImpl<u32> for PositiveInteger {
    open spec fn obeys_try_from_spec() -> bool {
        true
    }

    closed spec fn try_from_spec(val: u32) -> Result<Self, PositiveIntegerError> {
        if val == 0 {
            Err(PositiveIntegerError::InputNumberIsEqZeroError)
        } else {
            Ok(PositiveInteger(val))
        }
    }
}

impl core::ops::Add<PositiveInteger> for PositiveInteger {
    type Output = PositiveInteger;

    fn add(self, other: PositiveInteger) -> (r: PositiveInteger) {
        proof {
            use_type_invariant(self);
        }
        PositiveInteger(self.0 + other.0)
    }
}

impl vstd::std_specs::ops::AddSpecImpl<PositiveInteger> for PositiveInteger {
    open spec fn obeys_add_spec() -> bool {
        true
    }

    closed spec fn add_req(self, rhs: PositiveInteger) -> bool {
        self@ + rhs@ <= u32::MAX
    }

    closed spec fn add_spec(self, rhs: PositiveInteger) -> PositiveInteger {
        PositiveInteger((self@ + rhs@) as u32)
    }
}

impl core::ops::Add<u32> for PositiveInteger {
    type Output = PositiveInteger;

    fn add(self, other: u32) -> (r: PositiveInteger) {
        proof {
            use_type_invariant(self);
        }
        PositiveInteger(self.0 + other)
    }
}

impl vstd::std_specs::ops::AddSpecImpl<u32> for PositiveInteger {
    open spec fn obeys_add_spec() -> bool {
        true
    }

    closed spec fn add_req(self, rhs: u32) -> bool {
        self@ + rhs <= u32::MAX
    }

    closed spec fn add_spec(self, rhs: u32) -> PositiveInteger {
        PositiveInteger((self@ + rhs) as u32)
    }
}

impl core::ops::Sub<PositiveInteger> for PositiveInteger {
    type Output = PositiveInteger;

    fn sub(self, other: PositiveInteger) -> (r: PositiveInteger) {
        PositiveInteger(self.0 - other.0)
    }
}

impl vstd::std_specs::ops::SubSpecImpl<PositiveInteger> for PositiveInteger {
    open spec fn obeys_sub_spec() -> bool {
        true
    }

    closed spec fn sub_req(self, rhs: PositiveInteger) -> bool {
        rhs@ < self@
    }

    closed spec fn sub_spec(self, rhs: PositiveInteger) -> PositiveInteger {
        PositiveInteger((self@ - rhs@) as u32)
    }
}

impl core::ops::Sub<u32> for PositiveInteger {
    type Output = PositiveInteger;

    fn sub(self, other: u32) -> (r: PositiveInteger) {
        PositiveInteger(self.0 - other)
    }
}

impl vstd::std_specs::ops::SubSpecImpl<u32> for PositiveInteger {
    open spec fn obeys_sub_spec() -> bool {
        true
    }

    closed spec fn sub_req(self, rhs: u32) -> bool {
        rhs < self@
    }

    closed spec fn sub_spec(self, rhs: u32) -> PositiveInteger {
        PositiveInteger((self@ - rhs) as u32)
    }
}

impl PartialEq<PositiveInteger> for PositiveInteger {
    fn eq(&self, other: &PositiveInteger) -> (r: bool) {
        self.0 == other.0
    }
}

impl vstd::std_specs::cmp::PartialEqSpecImpl<PositiveInteger> for PositiveInteger {
    open spec fn obeys_eq_spec() -> bool {
        true
    }

    closed spec fn eq_spec(&self, other: &PositiveInteger) -> bool {
        self@ == other@
    }
}

impl PartialEq<u32> for PositiveInteger {
    fn eq(&self, other: &u32) -> (r: bool) {
        self.0 == *other
    }
}

impl vstd::std_specs::cmp::PartialEqSpecImpl<u32> for PositiveInteger {
    open spec fn obeys_eq_spec() -> bool {
        true
    }

    closed spec fn eq_spec(&self, other: &u32) -> bool {
        self@ == *other
    }
}

impl PartialOrd<PositiveInteger> for PositiveInteger {
    fn partial_cmp(&self, other: &PositiveInteger) -> (r: Option<Ordering>) {
        if self.0 < other.0 {
            Some(Ordering::Less)
        } else if self.0 == other.0 {
            Some(Ordering::Equal)
        } else {
            Some(Ordering::Greater)
        }
    }
}

impl vstd::std_specs::cmp::PartialOrdSpecImpl<PositiveInteger> for PositiveInteger {
    open spec fn obeys_partial_cmp_spec() -> bool {
        true
    }

    closed spec fn partial_cmp_spec(&self, other: &PositiveInteger) -> Option<Ordering> {
        if self@ < other@ {
            Some(Ordering::Less)
        } else if self@ == other@ {
            Some(Ordering::Equal)
        } else {
            Some(Ordering::Greater)
        }
    }
}

impl PartialOrd<u32> for PositiveInteger {
    fn partial_cmp(&self, other: &u32) -> (r: Option<Ordering>) {
        if self.0 < *other {
            Some(Ordering::Less)
        } else if self.0 == *other {
            Some(Ordering::Equal)
        } else {
            Some(Ordering::Greater)
        }
    }
}

impl vstd::std_specs::cmp::PartialOrdSpecImpl<u32> for PositiveInteger {
    open spec fn obeys_partial_cmp_spec() -> bool {
        true
    }

    closed spec fn partial_cmp_spec(&self, other: &u32) -> Option<Ordering> {
        if self@ < *other {
            Some(Ordering::Less)
        } else if self@ == *other {
            Some(Ordering::Equal)
        } else {
            Some(Ordering::Greater)
        }
    }
}

} // verus!
