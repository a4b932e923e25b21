//! A typed, named component of a layer.
use vstd::prelude::*;
use crate::names::ComponentName;
use crate::taxonomy::ComponentType;
use crate::value_object::ValueObject;

verus! {

/// What a component is: its kind and its name.
pub struct ComponentModel {
    pub kind: ComponentType,
    pub name: Seq<char>,
}

pub struct LayerComponentValue {
    pub component_type: ComponentType,
    pub component_name: ComponentName,
}

/// A component of a layer; equal to another exactly when kind and name agree.
pub struct LayerComponent {
    value: LayerComponentValue,
}

impl View for LayerComponent {
    type V = ComponentModel;

    closed spec fn view(&self) -> ComponentModel {
        ComponentModel { kind: self.value.component_type, name: self.value.component_name@ }
    }
}

impl LayerComponentValue {
    pub open spec fn model(&self) -> ComponentModel {
        ComponentModel { kind: self.component_type, name: self.component_name@ }
    }
}

impl Clone for LayerComponentValue {
    fn clone(&self) -> (r: Self)
        ensures
            r.model() == self.model(),
    {
        LayerComponentValue {
            component_type: self.component_type,
            component_name: self.component_name.clone(),
        }
    }
}

impl ValueObject<LayerComponentValue> for LayerComponent {
    fn new(value: LayerComponentValue) -> (r: LayerComponent)
        ensures
            r@ == value.model(),
    {
        LayerComponent { value }
    }

    fn get_value(&self) -> (r: &LayerComponentValue)
        ensures
            r.model() == self@,
    {
        &self.value
    }

    fn is_equal(&self, other: &LayerComponent) -> (r: bool)
        ensures
            r == (self@ == other@),
    {
        self.value.component_type == other.value.component_type
            && self.value.component_name.is_equal(&other.value.component_name)
    }
}

impl Clone for LayerComponent {
    fn clone(&self) -> (r: Self)
        ensures
            r@ == self@,
    {
        LayerComponent { value: self.value.clone() }
    }
}

} // verus!
