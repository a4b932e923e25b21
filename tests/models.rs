use arpeggio::value_object::{Entity, ValueObject};
use arpeggio::aggregate::Aggregate;
use arpeggio::aggregate_value::{Aggregate as AggregateVo, AggregateValue};
use arpeggio::aggregate_layer::{AggregateLayer, AggregateLayerValue};
use arpeggio::bounded_context::BoundedContext;
use arpeggio::date_value_object::DateValueObject;
use arpeggio::errors::DomainError;
use arpeggio::identity_object::IdentityObject;
use arpeggio::layer_component::{LayerComponent, LayerComponentValue};
use arpeggio::names::{AggregateName, ComponentName, NameError};
use arpeggio::taxonomy::{
    AggregateLayerComponent, AggregateLayerName, ComponentType, LayerName, TaxonomyError,
};

fn component(kind: ComponentType, name: &str) -> LayerComponent {
    LayerComponent::new(LayerComponentValue {
        component_type: kind,
        component_name: ComponentName::new(name.to_string()),
    })
}

fn layer(name: LayerName, components: Vec<LayerComponent>) -> AggregateLayer {
    AggregateLayer::new(AggregateLayerValue { name, components })
}

fn default_layers() -> Vec<AggregateLayer> {
    vec![
        layer(LayerName::Domain, vec![]),
        layer(LayerName::Application, vec![]),
        layer(LayerName::Adapters, vec![]),
        layer(LayerName::Infrastructure, vec![]),
    ]
}

fn context(name: &str) -> BoundedContext {
    BoundedContext::new(IdentityObject::new(name.to_string()), vec![])
}

fn id(name: &str) -> IdentityObject {
    IdentityObject::new(name.to_string())
}

#[test]
fn identity_object_should_initialize_valid_instance() {
    let value = "identity_value".to_string();
    let vo = IdentityObject::new(value);
    assert_eq!(vo.get_value().to_string(), "identity_value".to_string());
}

#[test]
fn date_value_object_should_initialize_valid_instance() {
    let value = chrono::Local::now().timestamp_millis();
    let vo = DateValueObject::new(value);
    assert_eq!(vo.get_value().to_owned(), value);
}

#[test]
fn date_value_object_now_reads_the_clock() {
    let before = chrono::Local::now().timestamp_millis();
    let now = DateValueObject::now();
    let after = chrono::Local::now().timestamp_millis();
    assert!(*now.get_value() >= before);
    assert!(*now.get_value() <= after);
}

#[test]
fn identity_objects_compare_by_value() {
    assert!(id("shop").is_equal(&id("shop")));
    assert!(!id("shop").is_equal(&id("cart")));
    assert_eq!(id("shop").to_string(), "shop");
}

#[test]
fn layer_tokens_round_trip() {
    for l in [LayerName::Domain, LayerName::Application, LayerName::Adapters, LayerName::Infrastructure] {
        assert_eq!(LayerName::from_str(&l.to_string()), Ok(l));
    }
    assert_eq!(LayerName::Infrastructure.to_string(), "infrastructure");
    assert_eq!(LayerName::from_str("presentation"), Err(TaxonomyError::InvalidValue));
    assert_eq!(AggregateLayerName::from_str("adapters"), Ok(AggregateLayerName::Adapters));
    assert_eq!(AggregateLayerName::from_str("Domain"), Err(TaxonomyError::InvalidValue));
}

#[test]
fn component_tokens_round_trip() {
    let kinds = [
        ComponentType::Controllers,
        ComponentType::Presenters,
        ComponentType::Commands,
        ComponentType::Queries,
        ComponentType::Subscribers,
        ComponentType::Entities,
        ComponentType::Events,
        ComponentType::Repositories,
        ComponentType::Services,
        ComponentType::ValueObjects,
    ];
    for k in kinds {
        assert_eq!(ComponentType::from_str(&k.to_string()), Ok(k));
    }
    assert_eq!(ComponentType::ValueObjects.to_string(), "value_objects");
    assert_eq!(ComponentType::from_str("widgets"), Err(TaxonomyError::InvalidValue));
}

#[test]
fn lenient_component_parse_keeps_unknown_tokens() {
    let c = AggregateLayerComponent::from_str("widgets");
    assert!(matches!(c, AggregateLayerComponent::Custom(ref s) if s == "widgets"));
    assert_eq!(c.to_string(), "widgets");
    assert!(AggregateLayerComponent::from_str("events") == AggregateLayerComponent::Events);
    assert!(AggregateLayerComponent::from_str("events") != AggregateLayerComponent::Entities);
    assert!(c == AggregateLayerComponent::Custom("widgets".to_string()));
    assert!(c != AggregateLayerComponent::Custom("gadgets".to_string()));
}

#[test]
fn compatibility_table() {
    assert!(LayerName::Domain.allows_component(ComponentType::Entities));
    assert!(LayerName::Domain.allows_component(ComponentType::Repositories));
    assert!(!LayerName::Domain.allows_component(ComponentType::Controllers));
    assert!(LayerName::Application.allows_component(ComponentType::Queries));
    assert!(!LayerName::Application.allows_component(ComponentType::Events));
    assert!(LayerName::Adapters.allows_component(ComponentType::Presenters));
    assert!(LayerName::Infrastructure.allows_component(ComponentType::Services));
    assert!(!LayerName::Infrastructure.allows_component(ComponentType::Entities));
    assert_eq!(ComponentType::Repositories.layer_name(), LayerName::Domain);
    assert_eq!(ComponentType::Subscribers.layer_name(), LayerName::Application);
    assert_eq!(ComponentType::Controllers.layer_name(), LayerName::Adapters);
}

#[test]
fn controllers_in_domain_layer_are_rejected() {
    let mut bc = context("shop");
    let layers = vec![layer(LayerName::Domain, vec![component(ComponentType::Controllers, "Api")])];
    assert_eq!(
        bc.add_aggregate(&id("order"), &layers),
        Err(DomainError::InvalidLayerComposition(LayerName::Domain))
    );
    assert!(bc.aggregates.is_empty());
}

#[test]
fn entities_in_domain_layer_are_accepted() {
    let mut bc = context("shop");
    let layers = vec![layer(LayerName::Domain, vec![component(ComponentType::Entities, "Order")])];
    assert_eq!(bc.add_aggregate(&id("order"), &layers), Ok(()));
    assert_eq!(bc.aggregates.len(), 1);
    assert_eq!(bc.aggregates[0].get_layers()[0].get_value().components.len(), 1);
}

#[test]
fn first_offending_layer_is_named() {
    let mut bc = context("shop");
    let layers = vec![
        layer(LayerName::Domain, vec![component(ComponentType::Entities, "Order")]),
        layer(LayerName::Infrastructure, vec![component(ComponentType::Commands, "Place")]),
        layer(LayerName::Application, vec![component(ComponentType::Controllers, "Api")]),
    ];
    assert_eq!(
        bc.add_aggregate(&id("order"), &layers),
        Err(DomainError::InvalidLayerComposition(LayerName::Infrastructure))
    );
}

#[test]
fn duplicate_aggregate_is_rejected() {
    let mut bc = context("shop");
    assert_eq!(bc.add_aggregate(&id("Order"), &default_layers()), Ok(()));
    assert_eq!(bc.add_aggregate(&id("Order"), &default_layers()), Err(DomainError::DuplicateAggregate));
    assert_eq!(bc.aggregates.len(), 1);
}

#[test]
fn duplicate_component_is_rejected() {
    let mut bc = context("shop");
    bc.add_aggregate(&id("order"), &default_layers()).unwrap();
    let name = || ComponentName::new("Order".to_string());
    assert_eq!(bc.add_aggregate_component(&id("order"), ComponentType::Entities, name()), Ok(()));
    assert_eq!(
        bc.add_aggregate_component(&id("order"), ComponentType::Entities, name()),
        Err(DomainError::DuplicateComponent)
    );
    assert_eq!(bc.add_aggregate_component(&id("order"), ComponentType::Events, name()), Ok(()));
    let domain = &bc.aggregates[0].get_layers()[0];
    assert_eq!(domain.get_value().name, LayerName::Domain);
    assert_eq!(domain.get_value().components.len(), 2);
}

#[test]
fn component_goes_to_its_home_layer() {
    let mut bc = context("shop");
    bc.add_aggregate(&id("order"), &default_layers()).unwrap();
    let name = ComponentName::new("OrderController".to_string());
    assert_eq!(bc.add_aggregate_component(&id("order"), ComponentType::Controllers, name), Ok(()));
    let layers = bc.aggregates[0].get_layers();
    assert_eq!(layers[2].get_value().name, LayerName::Adapters);
    assert_eq!(layers[2].get_value().components.len(), 1);
    assert_eq!(
        layers[2].get_value().components[0].get_value().component_name.get_value(),
        "OrderController"
    );
    assert!(layers[0].get_value().components.is_empty());
}

#[test]
fn missing_aggregate_and_layer_are_reported() {
    let mut bc = context("shop");
    let name = || ComponentName::new("X".to_string());
    assert_eq!(
        bc.add_aggregate_component(&id("order"), ComponentType::Entities, name()),
        Err(DomainError::AggregateNotFound)
    );
    bc.add_aggregate(&id("order"), &vec![layer(LayerName::Domain, vec![])]).unwrap();
    assert_eq!(
        bc.add_aggregate_component(&id("order"), ComponentType::Queries, name()),
        Err(DomainError::LayerNotFound(LayerName::Application))
    );
}

#[test]
fn aggregate_name_length_boundary() {
    let ok = "a".repeat(32);
    let too_long = "a".repeat(33);
    assert!(AggregateName::new(ok.clone()).is_ok());
    assert_eq!(AggregateName::new(too_long.clone()).err(), Some(NameError::TooLong));
    let mut bc = context("shop");
    assert_eq!(bc.add_aggregate(&id(&ok), &default_layers()), Ok(()));
    assert_eq!(bc.add_aggregate(&id(&too_long), &default_layers()), Err(DomainError::AggregateNameTooLong));
}

#[test]
fn aggregate_name_counts_characters() {
    let name = "é".repeat(32);
    assert!(AggregateName::new(name).is_ok());
}

#[test]
fn layers_compare_as_sets() {
    let a = layer(
        LayerName::Domain,
        vec![component(ComponentType::Entities, "A"), component(ComponentType::Events, "B")],
    );
    let b = layer(
        LayerName::Domain,
        vec![component(ComponentType::Events, "B"), component(ComponentType::Entities, "A")],
    );
    let c = layer(LayerName::Domain, vec![component(ComponentType::Entities, "A")]);
    assert!(a.is_equal(&b));
    assert!(!a.is_equal(&c));
    assert!(!c.is_equal(&a));
    let d = layer(LayerName::Infrastructure, vec![]);
    let e = layer(LayerName::Domain, vec![]);
    assert!(!d.is_equal(&e));
}

#[test]
fn components_compare_by_kind_and_name() {
    let a = component(ComponentType::Entities, "Order");
    assert!(a.is_equal(&component(ComponentType::Entities, "Order")));
    assert!(!a.is_equal(&component(ComponentType::Events, "Order")));
    assert!(!a.is_equal(&component(ComponentType::Entities, "Cart")));
}

#[test]
fn aggregate_value_compares_by_content() {
    let make = |name: &str, layers: Vec<AggregateLayer>| {
        AggregateVo::new(AggregateValue {
            name: AggregateName::new(name.to_string()).unwrap(),
            layers,
        })
    };
    let a = make("order", default_layers());
    let b = make("order", default_layers());
    let c = make("cart", default_layers());
    let d = make("order", vec![layer(LayerName::Domain, vec![])]);
    assert!(a.is_equal(&b));
    assert!(!a.is_equal(&c));
    assert!(!a.is_equal(&d));
    assert_eq!(a.get_value().name.get_value(), "order");
}

#[test]
fn aggregate_entity_accessors() {
    let mut aggregate = Aggregate::new(id("order"), default_layers());
    assert_eq!(aggregate.get_id().get_value(), "order");
    assert_eq!(aggregate.get_layers().len(), 4);
    assert_eq!(
        aggregate.add_layer_component(LayerName::Application, component(ComponentType::Commands, "Place")),
        Ok(())
    );
    assert_eq!(aggregate.get_layers()[1].get_value().components.len(), 1);
}

#[test]
fn domain_error_messages() {
    assert_eq!(DomainError::DuplicateAggregate.message(), "Aggregate already exists");
    assert_eq!(
        DomainError::InvalidLayerComposition(LayerName::Domain).message(),
        "Invalid components for domain layer"
    );
    assert_eq!(DomainError::LayerNotFound(LayerName::Adapters).message(), "Layer not found: adapters");
}
