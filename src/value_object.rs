//! The two shapes of domain object: values, compared by content, and
//! entities, known by an identity.
use vstd::prelude::*;

verus! {

/// A value compared by content; it wraps a plain value of type `T`.
pub trait ValueObject<T>: Sized {
    fn new(value: T) -> Self;

    fn get_value(&self) -> &T;

    fn is_equal(&self, other: &Self) -> bool;
}

/// An object known by its identity, whatever its content.
pub trait Entity<Id: ValueObject<String>> {
    fn get_id(&self) -> &Id;
}

} // verus!
