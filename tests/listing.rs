use arpeggio::find_bounded_contexts_repository::{
    FilesystemFindBoundedContextsRepository, FindBoundedContextsRepositoryError,
};
use arpeggio::presenters::FindBoundedContextsPresenter;
use arpeggio::source_tree::SourceTree;
use arpeggio::use_cases::{FindBoundedContextsRequestModel, FindBoundedContextsUseCase};

fn p(segments: &[&str]) -> Vec<String> {
    segments.iter().map(|s| s.to_string()).collect()
}

fn shop_tree() -> SourceTree {
    let mut tree = SourceTree::new();
    tree.create_directory(p(&["shop"]));
    tree.create_directory(p(&["shop", "order"]));
    tree.create_directory(p(&["shop", "cart"]));
    tree.create_directory(p(&["core"]));
    tree.write_file(p(&["main.rs"]), String::new());
    tree
}

#[test]
fn listing_excludes_core() {
    let repo = FilesystemFindBoundedContextsRepository::new(shop_tree());
    let listed = repo.list_bounded_contexts().ok().unwrap();
    assert_eq!(listed.len(), 1);
    assert_eq!(listed[0].name, "shop");
    assert_eq!(listed[0].aggregates, vec!["order".to_string(), "cart".to_string()]);
}

#[test]
fn listing_through_use_case() {
    let use_case = FindBoundedContextsUseCase::new(FilesystemFindBoundedContextsRepository::new(shop_tree()));
    let response = use_case.interact(FindBoundedContextsRequestModel).ok().unwrap();
    assert_eq!(response.bounded_contexts.len(), 1);
    assert_eq!(response.bounded_contexts[0].name, "shop");
}

#[test]
fn listing_of_empty_tree_is_empty() {
    let repo = FilesystemFindBoundedContextsRepository::new(SourceTree::new());
    assert!(repo.list_bounded_contexts().ok().unwrap().is_empty());
}

#[test]
fn listing_failure_message() {
    let presenter = FindBoundedContextsPresenter::new();
    let e = FindBoundedContextsRepositoryError::ListError("denied".to_string());
    assert_eq!(
        presenter.failure(&e),
        "Failed to find bounded contexts due to: An error occurred while trying to list bounded contexts: denied"
    );
}
