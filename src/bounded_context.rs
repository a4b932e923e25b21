//! The bounded context: the aggregate root that owns aggregates and enforces
//! the model's structural rules on every mutation.
use vstd::prelude::*;
use crate::aggregate::{
    clone_layers, has_layer_named, is_first_layer_named, layer_models, with_component, Aggregate,
    AggregateModel,
};
use crate::aggregate_layer::{AggregateLayer, LayerModel};
use crate::errors::DomainError;
use crate::identity_object::IdentityObject;
use crate::layer_component::{ComponentModel, LayerComponent, LayerComponentValue};
use crate::names::{AggregateName, ComponentName, AGGREGATE_NAME_MAX_LENGTH};
use crate::taxonomy::{ComponentType, LayerName};
use crate::value_object::{Entity, ValueObject};

verus! {

/// What a bounded context is: its identity and its aggregates, in order.
pub struct BoundedContextModel {
    pub id: Seq<char>,
    pub aggregates: Seq<AggregateModel>,
}

/// The models of a sequence of aggregates.
pub open spec fn aggregate_models(v: Seq<Aggregate>) -> Seq<AggregateModel> {
    v.map_values(|a: Aggregate| a@)
}

/// Whether `j` is the first position of a layer that breaks the compatibility table.
pub open spec fn is_first_incompatible(layers: Seq<LayerModel>, j: int) -> bool {
    &&& 0 <= j < layers.len()
    &&& !layers[j].is_compatible()
    &&& forall|k: int| 0 <= k < j ==> (#[trigger] layers[k]).is_compatible()
}

/// Whether every layer keeps to the compatibility table.
pub open spec fn all_compatible(layers: Seq<LayerModel>) -> bool {
    forall|k: int| 0 <= k < layers.len() ==> (#[trigger] layers[k]).is_compatible()
}

/// Whether some aggregate has identity `id`.
pub open spec fn has_aggregate(aggregates: Seq<AggregateModel>, id: Seq<char>) -> bool {
    exists|i: int| 0 <= i < aggregates.len() && (#[trigger] aggregates[i]).id == id
}

/// Whether `i` is the first position of an aggregate with identity `id`.
pub open spec fn is_first_aggregate(aggregates: Seq<AggregateModel>, id: Seq<char>, i: int) -> bool {
    &&& 0 <= i < aggregates.len()
    &&& aggregates[i].id == id
    &&& forall|k: int| 0 <= k < i ==> (#[trigger] aggregates[k]).id != id
}

impl BoundedContextModel {
    /// The invariant of a bounded context: aggregate identities are unique.
    pub open spec fn has_unique_aggregates(self) -> bool {
        forall|i: int, k: int|
            0 <= i < k < self.aggregates.len() ==> (#[trigger] self.aggregates[i]).id
                != (#[trigger] self.aggregates[k]).id
    }
}

/// The four empty layers an aggregate gets when no layers are given.
pub open spec fn default_layers() -> Seq<LayerModel> {
    seq![
        LayerModel { name: LayerName::Domain, components: Seq::empty() },
        LayerModel { name: LayerName::Application, components: Seq::empty() },
        LayerModel { name: LayerName::Adapters, components: Seq::empty() },
        LayerModel { name: LayerName::Infrastructure, components: Seq::empty() },
    ]
}

/// The root entity: a namespace of aggregates, mapped to one directory.
pub struct BoundedContext {
    pub id: IdentityObject,
    pub aggregates: Vec<Aggregate>,
}

impl View for BoundedContext {
    type V = BoundedContextModel;

    open spec fn view(&self) -> BoundedContextModel {
        BoundedContextModel { id: self.id@, aggregates: aggregate_models(self.aggregates@) }
    }
}

impl BoundedContext {
    pub fn new(id: IdentityObject, aggregates: Vec<Aggregate>) -> (r: BoundedContext)
        ensures
            r@ == (BoundedContextModel { id: id@, aggregates: aggregate_models(aggregates@) }),
    {
        BoundedContext { id, aggregates }
    }

    /// Adds an aggregate with the given layers. The layers are checked against the
    /// compatibility table first, then the name's length, then the identity
    /// against the aggregates already there.
    pub fn add_aggregate(&mut self, aggregate_id: &IdentityObject, layers: &Vec<AggregateLayer>) -> (r:
        Result<(), DomainError>)
        ensures
            forall|j: int|
                is_first_incompatible(layer_models(layers@), j) ==> r == Err::<(), DomainError>(
                    DomainError::InvalidLayerComposition(layers@[j]@.name),
                ),
            all_compatible(layer_models(layers@)) && aggregate_id@.len()
                > AGGREGATE_NAME_MAX_LENGTH ==> r == Err::<(), DomainError>(
                DomainError::AggregateNameTooLong,
            ),
            all_compatible(layer_models(layers@)) && aggregate_id@.len()
                <= AGGREGATE_NAME_MAX_LENGTH && has_aggregate(old(self)@.aggregates, aggregate_id@)
                ==> r == Err::<(), DomainError>(DomainError::DuplicateAggregate),
            r is Ok <==> all_compatible(layer_models(layers@)) && aggregate_id@.len()
                <= AGGREGATE_NAME_MAX_LENGTH && !has_aggregate(old(self)@.aggregates, aggregate_id@),
            r is Ok ==> final(self)@ == (BoundedContextModel {
                id: old(self)@.id,
                aggregates: old(self)@.aggregates.push(
                    AggregateModel { id: aggregate_id@, layers: layer_models(layers@) },
                ),
            }),
            r is Err ==> final(self)@ == old(self)@,
            old(self)@.has_unique_aggregates() ==> final(self)@.has_unique_aggregates(),
    {
        self.validate_aggregate_layers(layers)?;
        if AggregateName::new(aggregate_id.get_value().clone()).is_err() {
            return Err(DomainError::AggregateNameTooLong);
        }
        let aggregate = Aggregate::new(aggregate_id.clone(), clone_layers(layers));
        self.validate_aggregate_id_duplication(&aggregate)?;
        let ghost before = self@;
        self.aggregates.push(aggregate);
        proof {
            assert(self@.aggregates =~= before.aggregates.push(
                AggregateModel { id: aggregate_id@, layers: layer_models(layers@) },
            ));
            if before.has_unique_aggregates() {
                assert forall|i: int, k: int|
                    0 <= i < k < self@.aggregates.len() implies (#[trigger] self@.aggregates[i]).id
                    != (#[trigger] self@.aggregates[k]).id by {
                    if k == before.aggregates.len() {
                        assert(before.aggregates[i] == self@.aggregates[i]);
                    }
                }
            }
        }
        Ok(())
    }

    /// Adds a component to the layer that its kind belongs to, inside the first
    /// aggregate with identity `aggregate_id`.
    pub fn add_aggregate_component(
        &mut self,
        aggregate_id: &IdentityObject,
        component_type: ComponentType,
        component_name: ComponentName,
    ) -> (r: Result<(), DomainError>)
        ensures
            !has_aggregate(old(self)@.aggregates, aggregate_id@) ==> r == Err::<(), DomainError>(
                DomainError::AggregateNotFound,
            ),
            forall|i: int|
                is_first_aggregate(old(self)@.aggregates, aggregate_id@, i) ==> {
                    let a = old(self)@.aggregates[i];
                    let layer = component_type.home_layer();
                    let c = ComponentModel { kind: component_type, name: component_name@ };
                    &&& !has_layer_named(a.layers, layer) ==> r == Err::<(), DomainError>(
                        DomainError::LayerNotFound(layer),
                    )
                    &&& forall|j: int|
                        is_first_layer_named(a.layers, layer, j) ==> {
                            &&& a.layers[j].components.contains(c) ==> r == Err::<(), DomainError>(
                                DomainError::DuplicateComponent,
                            )
                            &&& !a.layers[j].components.contains(c) ==> r is Ok
                            &&& r is Ok ==> final(self)@ == (BoundedContextModel {
                                id: old(self)@.id,
                                aggregates: old(self)@.aggregates.update(
                                    i,
                                    with_component(a, layer, j, c),
                                ),
                            })
                        }
                },
            r is Err ==> final(self)@ == old(self)@,
            old(self)@.has_unique_aggregates() ==> final(self)@.has_unique_aggregates(),
    {
        let layer_name = self.get_layer_name(&component_type);
        let layer_component = LayerComponent::new(
            LayerComponentValue { component_type, component_name },
        );
        let mut i: usize = 0;
        while i < self.aggregates.len()
            invariant
                i <= self.aggregates.len(),
                self@ == old(self)@,
                layer_name == component_type.home_layer(),
                layer_component@ == (ComponentModel { kind: component_type, name: component_name@ }),
                forall|k: int| 0 <= k < i ==> (#[trigger] self@.aggregates[k]).id != aggregate_id@,
            decreases self.aggregates.len() - i,
        {
            if self.aggregates[i].get_id().is_equal(aggregate_id) {
                let ghost before = self@;
                proof {
                    assert(before.aggregates[i as int] == self.aggregates@[i as int]@);
                    assert(before.aggregates[i as int].id == aggregate_id@);
                }
                let mut aggregate = self.aggregates[i].clone();
                let ghost a0 = aggregate@;
                assert(a0 == before.aggregates[i as int]);
                let r = aggregate.add_layer_component(layer_name, layer_component);
                if r.is_ok() {
                    self.aggregates.set(i, aggregate);
                }
                proof {
                    if r is Ok {
                        assert(self@.aggregates =~= before.aggregates.update(i as int, aggregate@));
                    } else {
                        assert(self@.aggregates =~= before.aggregates);
                    }
                    assert forall|i2: int| is_first_aggregate(before.aggregates, aggregate_id@, i2) implies i2 == i by {
                        if i2 > i {
                            assert(before.aggregates[i as int].id == aggregate_id@);
                        }
                    }
                    if before.has_unique_aggregates() {
                        assert forall|a: int, b: int|
                            0 <= a < b < self@.aggregates.len() implies (#[trigger] self@.aggregates[a]).id
                            != (#[trigger] self@.aggregates[b]).id by {
                            assert(before.aggregates[a].id == self@.aggregates[a].id) by {
                                if a != i {
                                    assert(self@.aggregates[a] == before.aggregates[a]);
                                }
                            }
                            assert(before.aggregates[b].id == self@.aggregates[b].id) by {
                                if b != i {
                                    assert(self@.aggregates[b] == before.aggregates[b]);
                                }
                            }
                        }
                    }
                }
                return r;
            }
            i = i + 1;
        }
        Err(DomainError::AggregateNotFound)
    }

    /// The layer that components of `component_type` are added to.
    fn get_layer_name(&self, component_type: &ComponentType) -> (r: LayerName)
        ensures
            r == component_type.home_layer(),
    {
        component_type.layer_name()
    }

    /// Fails when an aggregate with the same identity already exists.
    fn validate_aggregate_id_duplication(&self, new_aggregate: &Aggregate) -> (r: Result<(), DomainError>)
        ensures
            r is Err <==> has_aggregate(self@.aggregates, new_aggregate@.id),
            r is Err ==> r == Err::<(), DomainError>(DomainError::DuplicateAggregate),
    {
        let mut i: usize = 0;
        while i < self.aggregates.len()
            invariant
                i <= self.aggregates.len(),
                forall|k: int| 0 <= k < i ==> (#[trigger] self@.aggregates[k]).id != new_aggregate@.id,
            decreases self.aggregates.len() - i,
        {
            if self.aggregates[i].get_id().is_equal(new_aggregate.get_id()) {
                proof {
                    assert(self@.aggregates[i as int].id == new_aggregate@.id);
                }
                return Err(DomainError::DuplicateAggregate);
            }
            i = i + 1;
        }
        Ok(())
    }

    /// Fails, naming the first offending layer, when a layer holds a kind it may not.
    fn validate_aggregate_layers(&self, layers: &Vec<AggregateLayer>) -> (r: Result<(), DomainError>)
        ensures
            r is Ok <==> all_compatible(layer_models(layers@)),
            forall|j: int|
                is_first_incompatible(layer_models(layers@), j) ==> r == Err::<(), DomainError>(
                    DomainError::InvalidLayerComposition(layers@[j]@.name),
                ),
    {
        let mut j: usize = 0;
        while j < layers.len()
            invariant
                j <= layers.len(),
                forall|k: int| 0 <= k < j ==> (#[trigger] layer_models(layers@)[k]).is_compatible(),
            decreases layers.len() - j,
        {
            let value = layers[j].get_value();
            let components = &value.components;
            let mut k: usize = 0;
            while k < components.len()
                invariant
                    j < layers.len(),
                    forall|m: int| 0 <= m < j ==> (#[trigger] layer_models(layers@)[m]).is_compatible(),
                    k <= components.len(),
                    value.model() == layers@[j as int]@,
                    components@ == value.components@,
                    forall|m: int| 0 <= m < k ==> value.name.allows(#[trigger] components@[m]@.kind),
                decreases components.len() - k,
            {
                let kind = components[k].get_value().component_type;
                assert(components@[k as int]@.kind == kind);
                if !value.name.allows_component(kind) {
                    proof {
                        let lm = layer_models(layers@);
                        assert(lm[j as int] == layers@[j as int]@);
                        assert(value.model().components[k as int] == components@[k as int]@);
                        assert(lm[j as int].components[k as int] == components@[k as int]@);
                        assert(is_first_incompatible(lm, j as int));
                        assert forall|j2: int| is_first_incompatible(lm, j2) implies j2 == j by {
                            if j2 > j {
                                assert(!lm[j as int].is_compatible());
                            }
                        }
                    }
                    return Err(DomainError::InvalidLayerComposition(value.name));
                }
                k = k + 1;
            }
            proof {
                let lm = layer_models(layers@);
                assert(lm[j as int] == layers@[j as int]@);
                assert forall|m: int| 0 <= m < lm[j as int].components.len() implies lm[j as int].name.allows(
                    #[trigger] lm[j as int].components[m].kind) by {
                    assert(value.model().components[m] == components@[m]@);
                    assert(lm[j as int].components[m] == components@[m]@);
                }
            }
            j = j + 1;
        }
        Ok(())
    }
}

impl Entity<IdentityObject> for BoundedContext {
    fn get_id(&self) -> (r: &IdentityObject)
        ensures
            r@ == self@.id,
    {
        &self.id
    }
}

} // verus!
