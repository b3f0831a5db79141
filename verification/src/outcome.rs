//! What looking for the field in one record can come to.

use vstd::prelude::*;

verus! {

/// The result of looking for the field in one record.
pub enum Outcome<T> {
    /// The field was found and its value accepted.
    Value(T),
    /// The field was found, but the acceptance filter turned its value down.
    Rejected,
    /// The record holds no string value for the field.
    Absent,
    /// The record could not be read under the strategy in use.
    Malformed,
}

impl<T: View> View for Outcome<T> {
    type V = Outcome<T::V>;

    open spec fn view(&self) -> Outcome<T::V> {
        match *self {
            Outcome::Value(v) => Outcome::Value(v@),
            Outcome::Rejected => Outcome::Rejected,
            Outcome::Absent => Outcome::Absent,
            Outcome::Malformed => Outcome::Malformed,
        }
    }
}

impl<T> Outcome<T> {
    /// The value, where there is one.
    pub open spec fn value(self) -> Option<T> {
        match self {
            Outcome::Value(v) => Some(v),
            _ => None,
        }
    }

    /// Tells whether the outcome carries a value.
    pub fn has_value(&self) -> (b: bool)
        ensures
            b == self.value().is_some(),
    {
        match self {
            Outcome::Value(_) => true,
            _ => false,
        }
    }
}

} // verus!
