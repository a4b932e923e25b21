//! Constrained names of aggregates and components.
use vstd::prelude::*;
use crate::text::str_eq;
use crate::value_object::ValueObject;

verus! {

/// The longest aggregate name, in characters.
pub const AGGREGATE_NAME_MAX_LENGTH: usize = 32;

/// Construction of a name that breaks its constraint.
#[derive(Debug, Clone, Copy, PartialEq, Eq, Structural)]
pub enum NameError {
    TooLong,
}

/// The name of an aggregate: at most `AGGREGATE_NAME_MAX_LENGTH` characters.
pub struct AggregateName {
    value: String,
}

impl View for AggregateName {
    type V = Seq<char>;

    closed spec fn view(&self) -> Seq<char> {
        self.value@
    }
}

impl AggregateName {
    pub closed spec fn wf(&self) -> bool {
        self.value@.len() <= AGGREGATE_NAME_MAX_LENGTH
    }

    /// Fails, never truncates, when `value` is longer than the maximum length.
    pub fn new(value: String) -> (r: Result<AggregateName, NameError>)
        ensures
            r is Ok <==> value@.len() <= AGGREGATE_NAME_MAX_LENGTH,
            r matches Ok(n) ==> n@ == value@ && n.wf(),
    {
        if value.as_str().unicode_len() > AGGREGATE_NAME_MAX_LENGTH {
            return Err(NameError::TooLong);
        }
        Ok(AggregateName { value })
    }

    pub fn get_value(&self) -> (r: &String)
        ensures
            r@ == self@,
    {
        &self.value
    }

    pub fn is_equal(&self, other: &AggregateName) -> (r: bool)
        ensures
            r == (self@ == other@),
    {
        str_eq(self.value.as_str(), other.value.as_str())
    }
}

impl Clone for AggregateName {
    fn clone(&self) -> (r: Self)
        ensures
            r@ == self@,
    {
        AggregateName { value: self.value.clone() }
    }
}

/// The name of a component; it names the component's file.
pub struct ComponentName {
    value: String,
}

impl View for ComponentName {
    type V = Seq<char>;

    closed spec fn view(&self) -> Seq<char> {
        self.value@
    }
}

impl ValueObject<String> for ComponentName {
    fn new(value: String) -> (r: ComponentName)
        ensures
            r@ == value@,
    {
        ComponentName { value }
    }

    fn get_value(&self) -> (r: &String)
        ensures
            r@ == self@,
    {
        &self.value
    }

    fn is_equal(&self, other: &ComponentName) -> (r: bool)
        ensures
            r == (self@ == other@),
    {
        str_eq(self.value.as_str(), other.value.as_str())
    }
}

impl Clone for ComponentName {
    fn clone(&self) -> (r: Self)
        ensures
            r@ == self@,
    {
        ComponentName { value: self.value.clone() }
    }
}

} // verus!
