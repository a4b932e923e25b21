//! The identity of an entity: a plain string name.
use vstd::prelude::*;
use crate::text::str_eq;
use crate::value_object::ValueObject;

verus! {

/// The identity of a bounded context or an aggregate; it doubles as a directory name.
pub struct IdentityObject {
    value: String,
}

impl View for IdentityObject {
    type V = Seq<char>;

    closed spec fn view(&self) -> Seq<char> {
        self.value@
    }
}

impl IdentityObject {
    pub fn to_string(&self) -> (r: String)
        ensures
            r@ == self@,
    {
        self.value.clone()
    }
}

impl ValueObject<String> for IdentityObject {
    fn new(value: String) -> (r: IdentityObject)
        ensures
            r@ == value@,
    {
        IdentityObject { value }
    }

    fn get_value(&self) -> (r: &String)
        ensures
            r@ == self@,
    {
        &self.value
    }

    fn is_equal(&self, other: &IdentityObject) -> (r: bool)
        ensures
            r == (self@ == other@),
    {
        str_eq(self.value.as_str(), other.value.as_str())
    }
}

impl Clone for IdentityObject {
    fn clone(&self) -> (r: Self)
        ensures
            r@ == self@,
    {
        IdentityObject { value: self.value.clone() }
    }
}

} // verus!
