//! A point in time, held as milliseconds since the Unix epoch.
use vstd::prelude::*;
use crate::value_object::ValueObject;

verus! {

/// Relies on `chrono::Utc::now` and `DateTime::timestamp_millis`: reads the
/// clock and gives the instant as milliseconds since the Unix epoch. `Utc::now`
/// stops on a clock set before the epoch, so what it returns is not negative;
/// beyond that the value is whatever the clock says.
#[verifier::external_body]
fn current_timestamp_millis() -> (r: i64)
    ensures
        r >= 0,
{
    chrono::Utc::now().timestamp_millis()
}

/// A date value: an instant, in milliseconds since the Unix epoch.
#[derive(Debug, Clone, Copy, PartialEq, Eq, Structural)]
pub struct DateValueObject {
    value: i64,
}

impl View for DateValueObject {
    type V = i64;

    closed spec fn view(&self) -> i64 {
        self.value
    }
}

impl DateValueObject {
    /// The instant now, as the clock reads it.
    pub fn now() -> (r: DateValueObject)
        ensures
            r@ >= 0,
    {
        DateValueObject::new(current_timestamp_millis())
    }
}

impl ValueObject<i64> for DateValueObject {
    fn new(value: i64) -> (r: DateValueObject)
        ensures
            r@ == value,
    {
        DateValueObject { value }
    }

    fn get_value(&self) -> (r: &i64)
        ensures
            *r == self@,
    {
        &self.value
    }

    fn is_equal(&self, other: &DateValueObject) -> (r: bool)
        ensures
            r == (self@ == other@),
    {
        self.value == other.value
    }
}

} // verus!
