//! The aggregate entity: a named cluster of layers inside a bounded context.
use vstd::prelude::*;
use crate::aggregate_layer::{AggregateLayer, LayerModel};
use crate::errors::DomainError;
use crate::identity_object::IdentityObject;
use crate::layer_component::LayerComponent;
use crate::taxonomy::LayerName;
use crate::value_object::{Entity, ValueObject};

verus! {

/// What an aggregate is: its identity and its layers, in order.
pub struct AggregateModel {
    pub id: Seq<char>,
    pub layers: Seq<LayerModel>,
}

/// The models of a sequence of layers.
pub open spec fn layer_models(v: Seq<AggregateLayer>) -> Seq<LayerModel> {
    v.map_values(|l: AggregateLayer| l@)
}

/// Whether `j` is the first position of a layer named `name`.
pub open spec fn is_first_layer_named(layers: Seq<LayerModel>, name: LayerName, j: int) -> bool {
    &&& 0 <= j < layers.len()
    &&& layers[j].name == name
    &&& forall|k: int| 0 <= k < j ==> (#[trigger] layers[k]).name != name
}

/// Whether some layer is named `name`.
pub open spec fn has_layer_named(layers: Seq<LayerModel>, name: LayerName) -> bool {
    exists|j: int| 0 <= j < layers.len() && (#[trigger] layers[j]).name == name
}

/// The aggregate with `component` appended to its first layer named `name`.
pub open spec fn with_component(
    a: AggregateModel,
    name: LayerName,
    j: int,
    component: crate::layer_component::ComponentModel,
) -> AggregateModel {
    AggregateModel {
        id: a.id,
        layers: a.layers.update(
            j,
            LayerModel { name: a.layers[j].name, components: a.layers[j].components.push(component) },
        ),
    }
}

/// An aggregate owned by a bounded context.
pub struct Aggregate {
    id: IdentityObject,
    layers: Vec<AggregateLayer>,
}

impl View for Aggregate {
    type V = AggregateModel;

    closed spec fn view(&self) -> AggregateModel {
        AggregateModel { id: self.id@, layers: layer_models(self.layers@) }
    }
}

/// Clones a sequence of layers, keeping every model.
pub fn clone_layers(v: &Vec<AggregateLayer>) -> (r: Vec<AggregateLayer>)
    ensures
        layer_models(r@) == layer_models(v@),
{
    let mut r: Vec<AggregateLayer> = Vec::new();
    let mut i: usize = 0;
    while i < v.len()
        invariant
            i <= v.len(),
            layer_models(r@) == layer_models(v@.subrange(0, i as int)),
        decreases v.len() - i,
    {
        let l = v[i].clone();
        let ghost before = r@;
        r.push(l);
        proof {
            assert(layer_models(r@) =~= layer_models(before).push(l@));
            assert(v@.subrange(0, i + 1) =~= v@.subrange(0, i as int).push(v@[i as int]));
            assert(layer_models(r@) =~= layer_models(v@.subrange(0, i + 1)));
        }
        i = i + 1;
    }
    proof {
        assert(v@.subrange(0, v@.len() as int) =~= v@);
    }
    r
}

impl Aggregate {
    pub fn new(id: IdentityObject, layers: Vec<AggregateLayer>) -> (r: Aggregate)
        ensures
            r@ == (AggregateModel { id: id@, layers: layer_models(layers@) }),
    {
        Aggregate { id, layers }
    }

    pub fn get_layers(&self) -> (r: &Vec<AggregateLayer>)
        ensures
            layer_models(r@) == self@.layers,
    {
        &self.layers
    }

    /// Appends `component` to the first layer named `layer_name`.
    pub fn add_layer_component(&mut self, layer_name: LayerName, component: LayerComponent) -> (r:
        Result<(), DomainError>)
        ensures
            !has_layer_named(old(self)@.layers, layer_name) ==> r == Err::<(), DomainError>(
                DomainError::LayerNotFound(layer_name),
            ),
            forall|j: int|
                is_first_layer_named(old(self)@.layers, layer_name, j) ==> {
                    &&& old(self)@.layers[j].components.contains(component@) ==> r == Err::<
                        (),
                        DomainError,
                    >(DomainError::DuplicateComponent)
                    &&& !old(self)@.layers[j].components.contains(component@) ==> r is Ok
                    &&& r is Ok ==> final(self)@ == with_component(
                        old(self)@,
                        layer_name,
                        j,
                        component@,
                    )
                },
            r is Err ==> final(self)@ == old(self)@,
            final(self)@.id == old(self)@.id,
    {
        let mut j: usize = 0;
        while j < self.layers.len()
            invariant
                j <= self.layers.len(),
                self@ == old(self)@,
                forall|k: int| 0 <= k < j ==> (#[trigger] self@.layers[k]).name != layer_name,
            decreases self.layers.len() - j,
        {
            if self.layers[j].get_value().name == layer_name {
                let ghost before = self@;
                let r = self.layers[j].add_component(component);
                proof {
                    if r is Ok {
                        assert(self@.layers =~= with_component(before, layer_name, j as int, component@).layers);
                    } else {
                        assert(self@.layers =~= before.layers);
                    }
                    assert forall|j2: int| is_first_layer_named(before.layers, layer_name, j2) implies j2 == j by {
                        if j2 < j {
                        } else if j2 > j {
                            assert(before.layers[j as int].name == layer_name);
                        }
                    }
                }
                return r;
            }
            j = j + 1;
        }
        proof {
            assert forall|k: int| 0 <= k < self@.layers.len() implies (#[trigger] self@.layers[k]).name != layer_name by {}
        }
        Err(DomainError::LayerNotFound(layer_name))
    }
}

impl Entity<IdentityObject> for Aggregate {
    fn get_id(&self) -> (r: &IdentityObject)
        ensures
            r@ == self@.id,
    {
        &self.id
    }
}

impl Clone for Aggregate {
    fn clone(&self) -> (r: Self)
        ensures
            r@ == self@,
    {
        Aggregate { id: self.id.clone(), layers: clone_layers(&self.layers) }
    }
}

} // verus!
