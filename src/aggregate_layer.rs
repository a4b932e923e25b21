//! A layer of an aggregate and the components it holds.
use vstd::prelude::*;
use crate::errors::DomainError;
use crate::layer_component::{ComponentModel, LayerComponent};
use crate::taxonomy::LayerName;
use crate::value_object::ValueObject;

verus! {

/// What a layer is: its name and its components, in order.
pub struct LayerModel {
    pub name: LayerName,
    pub components: Seq<ComponentModel>,
}

/// The models of a sequence of components.
pub open spec fn component_models(v: Seq<LayerComponent>) -> Seq<ComponentModel> {
    v.map_values(|c: LayerComponent| c@)
}

impl LayerModel {
    /// Whether every component's kind is one the layer may hold.
    pub open spec fn is_compatible(self) -> bool {
        forall|k: int| 0 <= k < self.components.len() ==> self.name.allows(#[trigger] self.components[k].kind)
    }

    /// Equal names, and each component set contains the other.
    pub open spec fn equivalent(self, other: LayerModel) -> bool {
        self.name == other.name && self.components.to_set() == other.components.to_set()
    }
}

pub struct AggregateLayerValue {
    pub name: LayerName,
    pub components: Vec<LayerComponent>,
}

impl AggregateLayerValue {
    pub open spec fn model(&self) -> LayerModel {
        LayerModel { name: self.name, components: component_models(self.components@) }
    }
}

/// A layer of an aggregate.
pub struct AggregateLayer {
    value: AggregateLayerValue,
}

impl View for AggregateLayer {
    type V = LayerModel;

    closed spec fn view(&self) -> LayerModel {
        self.value.model()
    }
}

/// Clones a sequence of components, keeping every model.
pub fn clone_components(v: &Vec<LayerComponent>) -> (r: Vec<LayerComponent>)
    ensures
        component_models(r@) == component_models(v@),
{
    let mut r: Vec<LayerComponent> = Vec::new();
    let mut i: usize = 0;
    while i < v.len()
        invariant
            i <= v.len(),
            component_models(r@) == component_models(v@.subrange(0, i as int)),
        decreases v.len() - i,
    {
        let c = v[i].clone();
        proof {
            assert(c@ == v@[i as int]@);
        }
        let ghost before = r@;
        r.push(c);
        proof {
            assert(component_models(r@) =~= component_models(before).push(c@));
            assert(v@.subrange(0, i + 1) =~= v@.subrange(0, i as int).push(v@[i as int]));
            assert(component_models(r@) =~= component_models(v@.subrange(0, i + 1)));
        }
        i = i + 1;
    }
    proof {
        assert(v@.subrange(0, v@.len() as int) =~= v@);
    }
    r
}

/// Whether some component of `v` has the model `m`.
pub fn contains_component(v: &Vec<LayerComponent>, c: &LayerComponent) -> (r: bool)
    ensures
        r == component_models(v@).contains(c@),
{
    let mut i: usize = 0;
    while i < v.len()
        invariant
            i <= v.len(),
            forall|k: int| 0 <= k < i ==> v@[k]@ != c@,
        decreases v.len() - i,
    {
        if v[i].is_equal(c) {
            proof {
                assert(component_models(v@)[i as int] == c@);
            }
            return true;
        }
        i = i + 1;
    }
    proof {
        if component_models(v@).contains(c@) {
            let k = choose|k: int| 0 <= k < component_models(v@).len() && component_models(v@)[k] == c@;
            assert(v@[k]@ == c@);
        }
    }
    false
}

impl Clone for AggregateLayerValue {
    fn clone(&self) -> (r: Self)
        ensures
            r.model() == self.model(),
    {
        AggregateLayerValue { name: self.name, components: clone_components(&self.components) }
    }
}

impl AggregateLayer {
    /// Appends `component` unless one of the same kind and name is already there.
    pub fn add_component(&mut self, component: LayerComponent) -> (r: Result<(), DomainError>)
        ensures
            r is Err <==> old(self)@.components.contains(component@),
            r is Err ==> r == Err::<(), DomainError>(DomainError::DuplicateComponent)
                && final(self)@ == old(self)@,
            r is Ok ==> final(self)@ == (LayerModel {
                name: old(self)@.name,
                components: old(self)@.components.push(component@),
            }),
    {
        if contains_component(&self.value.components, &component) {
            return Err(DomainError::DuplicateComponent);
        }
        self.value.components.push(component);
        proof {
            assert(component_models(self.value.components@) =~= old(self)@.components.push(
                component@,
            ));
        }
        Ok(())
    }
}

impl ValueObject<AggregateLayerValue> for AggregateLayer {
    fn new(value: AggregateLayerValue) -> (r: AggregateLayer)
        ensures
            r@ == value.model(),
    {
        AggregateLayer { value }
    }

    fn get_value(&self) -> (r: &AggregateLayerValue)
        ensures
            r.model() == self@,
    {
        &self.value
    }

    /// Equal names, and each component set contains the other.
    fn is_equal(&self, other: &AggregateLayer) -> (r: bool)
        ensures
            r == self@.equivalent(other@),
    {
        if self.value.name != other.value.name {
            return false;
        }
        let a = &self.value.components;
        let b = &other.value.components;
        let mut i: usize = 0;
        while i < a.len()
            invariant
                i <= a.len(),
                a@ == self.value.components@,
                b@ == other.value.components@,
                forall|k: int| 0 <= k < i ==> component_models(b@).contains(#[trigger] a@[k]@),
            decreases a.len() - i,
        {
            if !contains_component(b, &a[i]) {
                proof {
                    assert(component_models(a@)[i as int] == a@[i as int]@);
                    assert(self@.components.contains(a@[i as int]@));
                    assert(!other@.components.to_set().contains(a@[i as int]@));
                }
                return false;
            }
            i = i + 1;
        }
        let mut j: usize = 0;
        while j < b.len()
            invariant
                j <= b.len(),
                a@ == self.value.components@,
                b@ == other.value.components@,
                forall|k: int| 0 <= k < a.len() ==> component_models(b@).contains(#[trigger] a@[k]@),
                forall|k: int| 0 <= k < j ==> component_models(a@).contains(#[trigger] b@[k]@),
            decreases b.len() - j,
        {
            if !contains_component(a, &b[j]) {
                proof {
                    assert(component_models(b@)[j as int] == b@[j as int]@);
                    assert(other@.components.contains(b@[j as int]@));
                    assert(!self@.components.to_set().contains(b@[j as int]@));
                }
                return false;
            }
            j = j + 1;
        }
        proof {
            assert forall|m: ComponentModel| self@.components.to_set().contains(m) implies other@.components.to_set().contains(m) by {
                let k = choose|k: int| 0 <= k < self@.components.len() && self@.components[k] == m;
                assert(a@[k]@ == m);
            }
            assert forall|m: ComponentModel| other@.components.to_set().contains(m) implies self@.components.to_set().contains(m) by {
                let k = choose|k: int| 0 <= k < other@.components.len() && other@.components[k] == m;
                assert(b@[k]@ == m);
            }
            assert(self@.components.to_set() =~= other@.components.to_set());
        }
        true
    }
}

impl Clone for AggregateLayer {
    fn clone(&self) -> (r: Self)
        ensures
            r@ == self@,
    {
        AggregateLayer { value: self.value.clone() }
    }
}

} // verus!
