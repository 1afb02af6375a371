//! Tri-state fields of update payloads.
use vstd::prelude::*;

verus! {

/// An optional field of an update payload.
///
/// `Unset` means that the field was not provided at all, which differs from
/// providing it with an empty value (`Provided(None)` for an optional column).
#[derive(Debug, Clone, PartialEq, Eq, Hash)]
pub enum Maybe<T> {
    Provided(T),
    Unset,
}

impl<T> Maybe<T> {
    /// The value, if one was provided.
    pub open spec fn spec_to_option(self) -> Option<T> {
        match self {
            Maybe::Provided(v) => Some(v),
            Maybe::Unset => None,
        }
    }

    pub fn to_option(&self) -> (r: Option<&T>)
        ensures
            r == match self {
                Maybe::Provided(v) => Some(v),
                Maybe::Unset => None::<&T>,
            },
    {
        match self {
            Maybe::Provided(value) => Some(value),
            Maybe::Unset => None,
        }
    }

    pub fn is_set(&self) -> (r: bool)
        ensures
            r == (self is Provided),
    {
        match self {
            Maybe::Provided(_) => true,
            Maybe::Unset => false,
        }
    }

    pub fn is_unset(&self) -> (r: bool)
        ensures
            r == (self is Unset),
    {
        !self.is_set()
    }

    /// Converts into an `Option`, dropping the distinction between the two
    /// kinds of absence.
    pub fn into_option(self) -> (r: Option<T>)
        ensures
            r == self.spec_to_option(),
    {
        match self {
            Maybe::Provided(value) => Some(value),
            Maybe::Unset => None,
        }
    }
}

impl<T> From<Maybe<T>> for Option<T> {
    fn from(value: Maybe<T>) -> (r: Option<T>)
        ensures
            r == value.spec_to_option(),
    {
        match value {
            Maybe::Provided(value) => Some(value),
            Maybe::Unset => None,
        }
    }
}

impl<T> vstd::std_specs::convert::FromSpecImpl<Maybe<T>> for Option<T> {
    open spec fn obeys_from_spec() -> bool {
        true
    }

    open spec fn from_spec(v: Maybe<T>) -> Option<T> {
        v.spec_to_option()
    }
}

impl<T> Default for Maybe<T> {
    fn default() -> (r: Self)
        ensures
            r is Unset,
    {
        Maybe::Unset
    }
}

} // verus!
