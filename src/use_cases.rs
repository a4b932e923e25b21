//! The application's use cases: each reads the bounded context from the tree,
//! changes it through the domain model, and writes it back.
use vstd::prelude::*;
use crate::value_object::{Entity, ValueObject};
use crate::aggregate::{has_layer_named, is_first_layer_named, layer_models, with_component, AggregateModel};
use crate::aggregate_layer::{clone_components, component_models, AggregateLayer, AggregateLayerValue, LayerModel};
use crate::bounded_context::{
    all_compatible, default_layers, has_aggregate, is_first_aggregate, is_first_incompatible,
    BoundedContext, BoundedContextModel,
};
use crate::bounded_context_repository::{
    context_path, layers_readable, read_model, write_admissible, written,
    BoundedContextRepositoryError, FilesystemBoundedContextRepository,
};
use crate::errors::DomainError;
use crate::find_bounded_contexts_repository::{
    listing, read_models, BoundedContextReadModel, FilesystemFindBoundedContextsRepository,
    FindBoundedContextsRepositoryError,
};
use crate::identity_object::IdentityObject;
use crate::layer_component::{ComponentModel, LayerComponent};
use crate::names::{ComponentName, AGGREGATE_NAME_MAX_LENGTH};
use crate::source_tree::TreeView;
use crate::taxonomy::{ComponentType, LayerName};

verus! {

/// Why a use case did not complete.
#[derive(Debug)]
pub enum UseCaseError {
    /// The tree could not be read or written.
    Repository(BoundedContextRepositoryError),
    /// The domain model refused the change.
    Domain(DomainError),
}

impl UseCaseError {
    /// The message shown for the error.
    pub open spec fn text(&self) -> Seq<char> {
        match self {
            UseCaseError::Repository(e) => e.text(),
            UseCaseError::Domain(e) => e.text(),
        }
    }

    pub fn message(&self) -> (r: String)
        ensures
            r@ == self.text(),
    {
        match self {
            UseCaseError::Repository(e) => e.message(),
            UseCaseError::Domain(e) => e.message(),
        }
    }
}

pub struct AddAggregateLayerRequestModel {
    pub layer_name: LayerName,
    pub components: Vec<LayerComponent>,
}

impl AddAggregateLayerRequestModel {
    pub open spec fn model(&self) -> LayerModel {
        LayerModel { name: self.layer_name, components: component_models(self.components@) }
    }
}

pub struct AddAggregateRequestModel {
    pub bounded_context_name: String,
    pub aggregate_name: String,
    pub aggregate_layers: Option<Vec<AddAggregateLayerRequestModel>>,
}

/// The layers asked for: the given ones, or the four empty default layers.
pub open spec fn requested_layers(layers: Option<Vec<AddAggregateLayerRequestModel>>) -> Seq<LayerModel> {
    match layers {
        Some(v) => v@.map_values(|l: AddAggregateLayerRequestModel| l.model()),
        None => default_layers(),
    }
}

pub struct AddAggregateResponseModel {
    pub aggregate_name: String,
}

/// Adds an aggregate to a bounded context of the tree.
pub struct AddAggregateUseCase {
    repository: FilesystemBoundedContextRepository,
}

/// The bounded context `m` with an aggregate `id` of `layers` appended.
pub open spec fn with_aggregate(m: BoundedContextModel, id: Seq<char>, layers: Seq<LayerModel>) -> BoundedContextModel {
    BoundedContextModel { id: m.id, aggregates: m.aggregates.push(AggregateModel { id, layers }) }
}

impl AddAggregateUseCase {
    pub closed spec fn repository_view(&self) -> FilesystemBoundedContextRepository {
        self.repository
    }

    pub fn new(repository: FilesystemBoundedContextRepository) -> (r: AddAggregateUseCase)
        ensures
            r.repository_view() == repository,
    {
        AddAggregateUseCase { repository }
    }

    /// Gives the repository back, with the tree as the use case left it.
    pub fn into_repository(self) -> (r: FilesystemBoundedContextRepository)
        ensures
            r == self.repository_view(),
    {
        self.repository
    }

    /// The four empty layers, in the order domain, application, adapters, infrastructure.
    fn get_aggregate_layers(&self) -> (r: Vec<AggregateLayer>)
        ensures
            layer_models(r@) == default_layers(),
    {
        let mut r: Vec<AggregateLayer> = Vec::new();
        r.push(AggregateLayer::new(AggregateLayerValue { name: LayerName::Domain, components: Vec::new() }));
        r.push(AggregateLayer::new(AggregateLayerValue { name: LayerName::Application, components: Vec::new() }));
        r.push(AggregateLayer::new(AggregateLayerValue { name: LayerName::Adapters, components: Vec::new() }));
        r.push(AggregateLayer::new(AggregateLayerValue { name: LayerName::Infrastructure, components: Vec::new() }));
        proof {
            assert(component_models(Seq::<LayerComponent>::empty()) =~= Seq::<ComponentModel>::empty());
            assert(layer_models(r@) =~= default_layers());
        }
        r
    }

    /// The requested layers as layers of the domain model.
    fn prepare_aggregate_layers(&self, layers: Vec<AddAggregateLayerRequestModel>) -> (r: Vec<AggregateLayer>)
        ensures
            layer_models(r@) == layers@.map_values(|l: AddAggregateLayerRequestModel| l.model()),
    {
        let mut r: Vec<AggregateLayer> = Vec::new();
        let mut i: usize = 0;
        while i < layers.len()
            invariant
                i <= layers.len(),
                layer_models(r@) == layers@.subrange(0, i as int).map_values(|l: AddAggregateLayerRequestModel| l.model()),
            decreases layers.len() - i,
        {
            let l = &layers[i];
            let layer = AggregateLayer::new(
                AggregateLayerValue { name: l.layer_name, components: clone_components(&l.components) },
            );
            let ghost before = layer_models(r@);
            r.push(layer);
            proof {
                assert(layer_models(r@) =~= before.push(l.model()));
                assert(layers@.subrange(0, i + 1) =~= layers@.subrange(0, i as int).push(layers@[i as int]));
                assert(layers@.subrange(0, i + 1).map_values(|l: AddAggregateLayerRequestModel| l.model()) =~= layers@.subrange(0, i as int).map_values(|l: AddAggregateLayerRequestModel| l.model()).push(l.model()));
            }
            i = i + 1;
        }
        proof {
            assert(layers@.subrange(0, layers@.len() as int) =~= layers@);
        }
        r
    }

    /// Reads the bounded context, adds the aggregate (with the requested layers,
    /// or the four empty default ones) and writes the bounded context back.
    pub fn try_interact(&mut self, request_model: AddAggregateRequestModel) -> (r: Result<
        AddAggregateResponseModel,
        UseCaseError,
    >)
        requires
            old(self).repository_view().wf(),
        ensures
            final(self).repository_view().wf(),
            final(self).repository_view().base() == old(self).repository_view().base(),
            ({
                let t = old(self).repository_view().tree_view();
                let id = request_model.bounded_context_name@;
                let aid = request_model.aggregate_name@;
                let layers = requested_layers(request_model.aggregate_layers);
                let m = read_model(t, id);
                let m2 = with_aggregate(m, aid, layers);
                &&& !t.has_dir(context_path(id)) ==> (r matches Err(UseCaseError::Repository(e)) && e is NotFound)
                &&& t.has_dir(context_path(id)) && !layers_readable(t, id) ==> (r matches Err(
                    UseCaseError::Repository(e),
                ) && e is ReadError)
                &&& t.has_dir(context_path(id)) && layers_readable(t, id) ==> {
                    &&& forall|j: int|
                        is_first_incompatible(layers, j) ==> (r matches Err(UseCaseError::Domain(e)) && e
                            == DomainError::InvalidLayerComposition(layers[j].name))
                    &&& all_compatible(layers) && aid.len() > AGGREGATE_NAME_MAX_LENGTH ==> (r matches Err(
                        UseCaseError::Domain(e),
                    ) && e == DomainError::AggregateNameTooLong)
                    &&& all_compatible(layers) && aid.len() <= AGGREGATE_NAME_MAX_LENGTH && has_aggregate(
                        m.aggregates,
                        aid,
                    ) ==> (r matches Err(UseCaseError::Domain(e)) && e == DomainError::DuplicateAggregate)
                    &&& all_compatible(layers) && aid.len() <= AGGREGATE_NAME_MAX_LENGTH && !has_aggregate(
                        m.aggregates,
                        aid,
                    ) ==> {
                        &&& !write_admissible(t, m2) ==> (r matches Err(UseCaseError::Repository(e))
                            && e is WriteError)
                        &&& write_admissible(t, m2) ==> (r matches Ok(resp) && resp.aggregate_name@
                            == aid && written(t, m2, final(self).repository_view().tree_view()))
                    }
                }
                &&& r is Err ==> final(self).repository_view().tree_view() == t
            }),
    {
        let id = IdentityObject::new(request_model.bounded_context_name);
        let result = self.repository.read_bounded_context(&id);
        match result {
            Err(e) => Err(UseCaseError::Repository(e)),
            Ok(None) => Err(UseCaseError::Repository(BoundedContextRepositoryError::NotFound(id.to_string()))),
            Ok(Some(mut bounded_context)) => {
                let aggregate_id = IdentityObject::new(request_model.aggregate_name);
                let layers = match request_model.aggregate_layers {
                    None => self.get_aggregate_layers(),
                    Some(v) => self.prepare_aggregate_layers(v),
                };
                match bounded_context.add_aggregate(&aggregate_id, &layers) {
                    Err(e) => {
                        return Err(UseCaseError::Domain(e));
                    },
                    Ok(()) => {},
                }
                match self.repository.write_bounded_context(&bounded_context) {
                    Err(e) => Err(UseCaseError::Repository(e)),
                    Ok(()) => Ok(AddAggregateResponseModel { aggregate_name: aggregate_id.to_string() }),
                }
            },
        }
    }
}

pub struct ComponentRequestModel {
    pub component_type: ComponentType,
    pub component_name: String,
}

pub struct AddComponentRequestModel {
    pub bounded_context_name: String,
    pub aggregate_name: String,
    pub component: ComponentRequestModel,
}

pub struct AddComponentResponseModel {
    pub component_type: ComponentType,
    pub component_name: String,
}

/// Adds a component to an aggregate of a bounded context of the tree.
pub struct AddComponentUseCase {
    repository: FilesystemBoundedContextRepository,
}

impl AddComponentUseCase {
    pub closed spec fn repository_view(&self) -> FilesystemBoundedContextRepository {
        self.repository
    }

    pub fn new(repository: FilesystemBoundedContextRepository) -> (r: AddComponentUseCase)
        ensures
            r.repository_view() == repository,
    {
        AddComponentUseCase { repository }
    }

    /// Gives the repository back, with the tree as the use case left it.
    pub fn into_repository(self) -> (r: FilesystemBoundedContextRepository)
        ensures
            r == self.repository_view(),
    {
        self.repository
    }

    /// Reads the bounded context, adds the component to the layer its kind
    /// belongs to, and writes the bounded context back.
    pub fn try_interact(&mut self, request_model: AddComponentRequestModel) -> (r: Result<
        AddComponentResponseModel,
        UseCaseError,
    >)
        requires
            old(self).repository_view().wf(),
        ensures
            final(self).repository_view().wf(),
            final(self).repository_view().base() == old(self).repository_view().base(),
            ({
                let t = old(self).repository_view().tree_view();
                let id = request_model.bounded_context_name@;
                let aid = request_model.aggregate_name@;
                let kind = request_model.component.component_type;
                let c = ComponentModel { kind, name: request_model.component.component_name@ };
                let layer = kind.home_layer();
                let m = read_model(t, id);
                &&& !t.has_dir(context_path(id)) ==> (r matches Err(UseCaseError::Repository(e)) && e is NotFound)
                &&& t.has_dir(context_path(id)) && !layers_readable(t, id) ==> (r matches Err(
                    UseCaseError::Repository(e),
                ) && e is ReadError)
                &&& t.has_dir(context_path(id)) && layers_readable(t, id) ==> {
                    &&& !has_aggregate(m.aggregates, aid) ==> (r matches Err(UseCaseError::Domain(e)) && e
                        == DomainError::AggregateNotFound)
                    &&& forall|i: int|
                        is_first_aggregate(m.aggregates, aid, i) ==> {
                            &&& !has_layer_named(m.aggregates[i].layers, layer) ==> (r matches Err(
                                UseCaseError::Domain(e),
                            ) && e == DomainError::LayerNotFound(layer))
                            &&& forall|j: int|
                                is_first_layer_named(m.aggregates[i].layers, layer, j) ==> {
                                    let m2 = BoundedContextModel {
                                        id: m.id,
                                        aggregates: m.aggregates.update(
                                            i,
                                            with_component(m.aggregates[i], layer, j, c),
                                        ),
                                    };
                                    &&& m.aggregates[i].layers[j].components.contains(c) ==> (r matches Err(
                                        UseCaseError::Domain(e),
                                    ) && e == DomainError::DuplicateComponent)
                                    &&& !m.aggregates[i].layers[j].components.contains(c)
                                        && !write_admissible(t, m2) ==> (r matches Err(
                                        UseCaseError::Repository(e),
                                    ) && e is WriteError)
                                    &&& !m.aggregates[i].layers[j].components.contains(c)
                                        && write_admissible(t, m2) ==> (r matches Ok(resp)
                                        && resp.component_type == kind && resp.component_name@ == c.name
                                        && written(t, m2, final(self).repository_view().tree_view()))
                                }
                        }
                }
                &&& r is Err ==> final(self).repository_view().tree_view() == t
            }),
    {
        let id = IdentityObject::new(request_model.bounded_context_name);
        let result = self.repository.read_bounded_context(&id);
        match result {
            Err(e) => Err(UseCaseError::Repository(e)),
            Ok(None) => Err(UseCaseError::Repository(BoundedContextRepositoryError::NotFound(id.to_string()))),
            Ok(Some(mut bounded_context)) => {
                let aggregate_id = IdentityObject::new(request_model.aggregate_name);
                let component_type = request_model.component.component_type;
                let name = request_model.component.component_name;
                let component_name = ComponentName::new(name.clone());
                match bounded_context.add_aggregate_component(&aggregate_id, component_type, component_name) {
                    Err(e) => {
                        return Err(UseCaseError::Domain(e));
                    },
                    Ok(()) => {},
                }
                match self.repository.write_bounded_context(&bounded_context) {
                    Err(e) => Err(UseCaseError::Repository(e)),
                    Ok(()) => Ok(AddComponentResponseModel { component_type, component_name: name }),
                }
            },
        }
    }
}

pub struct CreateBoundedContextRequestModel {
    pub bounded_context_name: String,
}

pub struct CreateBoundedContextResponseModel {
    pub bounded_context_id: String,
}

/// Creates an empty bounded context in the tree.
pub struct CreateBoundedContextUseCase {
    repository: FilesystemBoundedContextRepository,
}

impl CreateBoundedContextUseCase {
    pub closed spec fn repository_view(&self) -> FilesystemBoundedContextRepository {
        self.repository
    }

    pub fn new(repository: FilesystemBoundedContextRepository) -> (r: CreateBoundedContextUseCase)
        ensures
            r.repository_view() == repository,
    {
        CreateBoundedContextUseCase { repository }
    }

    /// Gives the repository back, with the tree as the use case left it.
    pub fn into_repository(self) -> (r: FilesystemBoundedContextRepository)
        ensures
            r == self.repository_view(),
    {
        self.repository
    }

    /// Writes a bounded context with no aggregates.
    pub fn try_interact(&mut self, request_model: CreateBoundedContextRequestModel) -> (r: Result<
        CreateBoundedContextResponseModel,
        UseCaseError,
    >)
        requires
            old(self).repository_view().wf(),
        ensures
            final(self).repository_view().wf(),
            final(self).repository_view().base() == old(self).repository_view().base(),
            ({
                let t = old(self).repository_view().tree_view();
                let m = BoundedContextModel { id: request_model.bounded_context_name@, aggregates: Seq::empty() };
                &&& !write_admissible(t, m) ==> (r matches Err(UseCaseError::Repository(e)) && e is WriteError
                    && final(self).repository_view().tree_view() == t)
                &&& write_admissible(t, m) ==> (r matches Ok(resp) && resp.bounded_context_id@ == m.id
                    && written(t, m, final(self).repository_view().tree_view()))
            }),
    {
        let bounded_context = BoundedContext::new(
            IdentityObject::new(request_model.bounded_context_name),
            Vec::new(),
        );
        proof {
            assert(bounded_context@.aggregates =~= Seq::<AggregateModel>::empty());
        }
        match self.repository.write_bounded_context(&bounded_context) {
            Err(e) => Err(UseCaseError::Repository(e)),
            Ok(()) => Ok(CreateBoundedContextResponseModel { bounded_context_id: bounded_context.get_id().to_string() }),
        }
    }
}

pub struct FindBoundedContextsRequestModel;

pub struct FindBoundedContextsResponseModel {
    pub bounded_contexts: Vec<BoundedContextReadModel>,
}

/// Lists the bounded contexts of the tree with their aggregates.
pub struct FindBoundedContextsUseCase {
    repository: FilesystemFindBoundedContextsRepository,
}

impl FindBoundedContextsUseCase {
    pub closed spec fn tree_view(&self) -> TreeView {
        self.repository.tree_view()
    }

    pub closed spec fn wf(&self) -> bool {
        self.repository.wf()
    }

    pub fn new(repository: FilesystemFindBoundedContextsRepository) -> (r: FindBoundedContextsUseCase)
        requires
            repository.wf(),
        ensures
            r.wf(),
            r.tree_view() == repository.tree_view(),
    {
        FindBoundedContextsUseCase { repository }
    }

    /// The listing, returned to the caller.
    pub fn interact(&self, _request_model: FindBoundedContextsRequestModel) -> (r: Result<
        FindBoundedContextsResponseModel,
        FindBoundedContextsRepositoryError,
    >)
        requires
            self.wf(),
        ensures
            r matches Ok(resp) && read_models(resp.bounded_contexts@) == listing(self.tree_view()),
    {
        match self.repository.list_bounded_contexts() {
            Ok(bounded_contexts) => Ok(FindBoundedContextsResponseModel { bounded_contexts }),
            Err(e) => Err(e),
        }
    }
}

} // verus!
