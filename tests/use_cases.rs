use arpeggio::bounded_context_repository::{
    BoundedContextRepositoryError, FilesystemBoundedContextRepository,
};
use arpeggio::errors::DomainError;
use arpeggio::presenters::{AddAggregatePresenter, AddComponentPresenter, CreateBoundedContextPresenter};
use arpeggio::project_service::{FilesystemProjectService, ProjectServiceError};
use arpeggio::source_tree::SourceTree;
use arpeggio::taxonomy::ComponentType;
use arpeggio::use_cases::{
    AddAggregateRequestModel, AddAggregateUseCase, AddComponentRequestModel, AddComponentUseCase,
    ComponentRequestModel, CreateBoundedContextRequestModel, CreateBoundedContextUseCase, UseCaseError,
};

fn p(segments: &[&str]) -> Vec<String> {
    segments.iter().map(|s| s.to_string()).collect()
}

fn create(tree: SourceTree, name: &str) -> SourceTree {
    let mut uc = CreateBoundedContextUseCase::new(FilesystemBoundedContextRepository::new(tree));
    let r = uc.try_interact(CreateBoundedContextRequestModel { bounded_context_name: name.to_string() });
    let response = r.ok().unwrap();
    assert_eq!(response.bounded_context_id, name);
    uc.into_repository().into_tree()
}

fn add_aggregate(tree: SourceTree, bc: &str, name: &str) -> (SourceTree, Result<String, UseCaseError>) {
    let mut uc = AddAggregateUseCase::new(FilesystemBoundedContextRepository::new(tree));
    let r = uc.try_interact(AddAggregateRequestModel {
        bounded_context_name: bc.to_string(),
        aggregate_name: name.to_string(),
        aggregate_layers: None,
    });
    (uc.into_repository().into_tree(), r.map(|resp| resp.aggregate_name))
}

fn add_component(
    tree: SourceTree,
    aggregate: &str,
    kind: ComponentType,
    name: &str,
) -> (SourceTree, Result<(ComponentType, String), UseCaseError>) {
    let mut uc = AddComponentUseCase::new(FilesystemBoundedContextRepository::new(tree));
    let r = uc.try_interact(AddComponentRequestModel {
        bounded_context_name: "shop".to_string(),
        aggregate_name: aggregate.to_string(),
        component: ComponentRequestModel { component_type: kind, component_name: name.to_string() },
    });
    (uc.into_repository().into_tree(), r.map(|resp| (resp.component_type, resp.component_name)))
}

#[test]
fn create_add_aggregate_and_component() {
    let tree = create(SourceTree::new(), "shop");
    assert_eq!(tree.read_file(&p(&["shop", "mod.rs"])), Some(String::new()));
    let (tree, r) = add_aggregate(tree, "shop", "order");
    assert_eq!(r.ok(), Some("order".to_string()));
    assert!(tree.has_directory(&p(&["shop", "order", "infrastructure"])));
    assert_eq!(
        tree.read_file(&p(&["shop", "order", "mod.rs"])),
        Some("pub mod adapters;\npub mod application;\npub mod domain;\npub mod infrastructure;\n".to_string())
    );
    let (tree, r) = add_component(tree, "order", ComponentType::Entities, "Order");
    assert_eq!(r.ok(), Some((ComponentType::Entities, "Order".to_string())));
    assert_eq!(tree.read_file(&p(&["shop", "order", "domain", "entities", "Order.rs"])), Some(String::new()));
    assert_eq!(
        tree.read_file(&p(&["shop", "order", "domain", "entities", "mod.rs"])),
        Some("pub mod Order;\n".to_string())
    );
    let (_, r) = add_component(tree, "order", ComponentType::Entities, "Order");
    assert!(matches!(r, Err(UseCaseError::Domain(DomainError::DuplicateComponent))));
}

#[test]
fn add_aggregate_twice_is_duplicate() {
    let tree = create(SourceTree::new(), "shop");
    let (tree, r) = add_aggregate(tree, "shop", "Order");
    assert!(r.is_ok());
    let (_, r) = add_aggregate(tree, "shop", "Order");
    assert!(matches!(r, Err(UseCaseError::Domain(DomainError::DuplicateAggregate))));
}

#[test]
fn add_aggregate_to_missing_context_is_not_found() {
    let (_, r) = add_aggregate(SourceTree::new(), "shop", "order");
    assert!(matches!(r, Err(UseCaseError::Repository(BoundedContextRepositoryError::NotFound(_)))));
}

#[test]
fn add_component_to_missing_aggregate() {
    let tree = create(SourceTree::new(), "shop");
    let (_, r) = add_component(tree, "order", ComponentType::Entities, "Order");
    assert!(matches!(r, Err(UseCaseError::Domain(DomainError::AggregateNotFound))));
}

#[test]
fn presenter_messages() {
    let tree = create(SourceTree::new(), "shop");
    let (tree, r) = add_aggregate(tree, "shop", "order");
    assert!(r.is_ok());
    let mut uc = AddComponentUseCase::new(FilesystemBoundedContextRepository::new(tree));
    let resp = uc
        .try_interact(AddComponentRequestModel {
            bounded_context_name: "shop".to_string(),
            aggregate_name: "order".to_string(),
            component: ComponentRequestModel {
                component_type: ComponentType::ValueObjects,
                component_name: "Money".to_string(),
            },
        })
        .ok()
        .unwrap();
    assert_eq!(AddComponentPresenter.success(&resp), "ValueObject <Money> added successfully.");
    let e = UseCaseError::Domain(DomainError::DuplicateAggregate);
    assert_eq!(AddAggregatePresenter.failure(&e), "Aggregate already exists");
    assert_eq!(AddComponentPresenter.failure(&e), "Failed to add component due to: Aggregate already exists");
    let created = arpeggio::use_cases::CreateBoundedContextResponseModel { bounded_context_id: "shop".to_string() };
    assert_eq!(CreateBoundedContextPresenter.success(&created), "Bounded Context <shop> created successfully.");
    let added = arpeggio::use_cases::AddAggregateResponseModel { aggregate_name: "order".to_string() };
    assert_eq!(AddAggregatePresenter.success(&added), "Aggregate <order> added successfully.");
}

#[test]
fn project_directory_check() {
    let service = FilesystemProjectService;
    assert!(service.check_directory("demo", false).is_ok());
    match service.check_directory("demo", true) {
        Err(e @ ProjectServiceError::AlreadyExists(_)) => assert_eq!(e.message(), "Project <demo> already exists"),
        Ok(()) => panic!("expected an error"),
    }
}
