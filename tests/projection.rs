use arpeggio::value_object::{Entity, ValueObject};
use arpeggio::aggregate_layer::{AggregateLayer, AggregateLayerValue};
use arpeggio::bounded_context::BoundedContext;
use arpeggio::bounded_context_repository::{
    BoundedContextRepositoryError, FilesystemBoundedContextRepository,
};
use arpeggio::identity_object::IdentityObject;
use arpeggio::index_file::{file_stem, render_index};
use arpeggio::layer_component::{LayerComponent, LayerComponentValue};
use arpeggio::names::ComponentName;
use arpeggio::source_tree::{SourceTree, TreeChange};
use arpeggio::taxonomy::{ComponentType, LayerName};

fn p(segments: &[&str]) -> Vec<String> {
    segments.iter().map(|s| s.to_string()).collect()
}

fn id(name: &str) -> IdentityObject {
    IdentityObject::new(name.to_string())
}

fn component(kind: ComponentType, name: &str) -> LayerComponent {
    LayerComponent::new(LayerComponentValue {
        component_type: kind,
        component_name: ComponentName::new(name.to_string()),
    })
}

fn layer(name: LayerName, components: Vec<LayerComponent>) -> AggregateLayer {
    AggregateLayer::new(AggregateLayerValue { name, components })
}

fn sample_context() -> BoundedContext {
    let mut bc = BoundedContext::new(id("shop"), vec![]);
    bc.add_aggregate(
        &id("order"),
        &vec![
            layer(
                LayerName::Domain,
                vec![component(ComponentType::Entities, "Order"), component(ComponentType::Events, "OrderPlaced")],
            ),
            layer(LayerName::Application, vec![component(ComponentType::Commands, "PlaceOrder")]),
            layer(LayerName::Infrastructure, vec![]),
        ],
    )
    .unwrap();
    bc.add_aggregate(&id("cart"), &vec![layer(LayerName::Adapters, vec![])]).unwrap();
    bc
}

/// Every directory and every file with its contents, sorted, for comparison.
fn snapshot(tree: &SourceTree) -> (Vec<Vec<String>>, Vec<(Vec<String>, String)>) {
    let mut dirs = vec![];
    let mut files = vec![];
    let mut pending = vec![Vec::<String>::new()];
    while let Some(dir) = pending.pop() {
        for name in tree.list_directories(&dir) {
            let mut child = dir.clone();
            child.push(name);
            dirs.push(child.clone());
            pending.push(child);
        }
        for name in tree.list_files(&dir) {
            let mut f = dir.clone();
            f.push(name);
            let contents = tree.read_file(&f).unwrap();
            files.push((f, contents));
        }
    }
    dirs.sort();
    files.sort();
    (dirs, files)
}

fn write(tree: SourceTree, bc: &BoundedContext) -> SourceTree {
    let mut repo = FilesystemBoundedContextRepository::new(tree);
    repo.write_bounded_context(bc).unwrap();
    repo.into_tree()
}

fn contents(tree: &SourceTree, path: &[&str]) -> Option<String> {
    tree.read_file(&p(path))
}

#[test]
fn write_creates_layout_and_indexes() {
    let tree = write(SourceTree::new(), &sample_context());
    assert!(tree.has_directory(&p(&["shop", "order", "domain", "entities"])));
    assert!(tree.has_directory(&p(&["shop", "order", "infrastructure"])));
    assert!(tree.has_directory(&p(&["shop", "cart", "adapters"])));
    assert_eq!(contents(&tree, &["shop", "order", "domain", "entities", "Order.rs"]), Some(String::new()));
    assert_eq!(contents(&tree, &["shop", "mod.rs"]), Some("pub mod cart;\npub mod order;\n".to_string()));
    assert_eq!(
        contents(&tree, &["shop", "order", "mod.rs"]),
        Some("pub mod application;\npub mod domain;\npub mod infrastructure;\n".to_string())
    );
    assert_eq!(
        contents(&tree, &["shop", "order", "domain", "mod.rs"]),
        Some("pub mod entities;\npub mod events;\n".to_string())
    );
    assert_eq!(
        contents(&tree, &["shop", "order", "domain", "events", "mod.rs"]),
        Some("pub mod OrderPlaced;\n".to_string())
    );
    assert_eq!(contents(&tree, &["shop", "order", "infrastructure", "mod.rs"]), Some(String::new()));
}

#[test]
fn write_twice_is_idempotent() {
    let bc = sample_context();
    let once = write(SourceTree::new(), &bc);
    let first = snapshot(&once);
    let twice = write(once, &bc);
    assert_eq!(snapshot(&twice), first);
}

#[test]
fn write_keeps_existing_content_and_lists_it() {
    let mut tree = SourceTree::new();
    tree.create_directory(p(&["shop"]));
    tree.create_directory(p(&["shop", "order"]));
    tree.create_directory(p(&["shop", "order", "domain"]));
    tree.create_directory(p(&["shop", "order", "domain", "entities"]));
    tree.create_directory(p(&["shop", "order", "domain", "services"]));
    tree.write_file(p(&["shop", "order", "domain", "entities", "Order.rs"]), "struct Order;".to_string());
    tree.write_file(p(&["shop", "order", "domain", "entities", "Line.rs"]), "struct Line;".to_string());
    tree.write_file(p(&["shop", "order", "domain", "entities", "mod.rs"]), "stale".to_string());
    let tree = write(tree, &sample_context());
    assert_eq!(
        contents(&tree, &["shop", "order", "domain", "entities", "Order.rs"]),
        Some("struct Order;".to_string())
    );
    assert_eq!(
        contents(&tree, &["shop", "order", "domain", "entities", "mod.rs"]),
        Some("pub mod Line;\npub mod Order;\n".to_string())
    );
    assert_eq!(
        contents(&tree, &["shop", "order", "domain", "mod.rs"]),
        Some("pub mod entities;\npub mod events;\npub mod services;\n".to_string())
    );
}

#[test]
fn write_journal_records_changes_in_order() {
    let bc = BoundedContext::new(id("shop"), vec![]);
    let mut tree = write(SourceTree::new(), &bc);
    let changes = tree.take_changes();
    assert_eq!(changes.len(), 2);
    assert!(matches!(&changes[0], TreeChange::CreateDirectory(d) if *d == p(&["shop"])));
    assert!(matches!(&changes[1], TreeChange::WriteFile(f, c) if *f == p(&["shop", "mod.rs"]) && c.is_empty()));
    let tree = write(tree, &bc);
    assert_eq!(tree.changes().len(), 1);
}

#[test]
fn write_refuses_a_file_where_a_directory_belongs() {
    let mut tree = SourceTree::new();
    tree.write_file(p(&["shop"]), "not a directory".to_string());
    let before = snapshot(&tree);
    let mut repo = FilesystemBoundedContextRepository::new(tree);
    let r = repo.write_bounded_context(&sample_context());
    assert!(matches!(r, Err(BoundedContextRepositoryError::WriteError(_))));
    assert_eq!(snapshot(repo.tree()), before);
}

#[test]
fn write_refuses_names_that_are_not_path_segments() {
    let mut repo = FilesystemBoundedContextRepository::new(SourceTree::new());
    let blank = BoundedContext::new(id("   "), vec![]);
    assert!(matches!(repo.write_bounded_context(&blank), Err(BoundedContextRepositoryError::WriteError(_))));
    let mut bc = BoundedContext::new(id("shop"), vec![]);
    bc.add_aggregate(&id("a/b"), &vec![]).unwrap();
    assert!(matches!(repo.write_bounded_context(&bc), Err(BoundedContextRepositoryError::WriteError(_))));
    assert!(repo.tree().list_directories(&vec![]).is_empty());
}

#[test]
fn read_of_missing_context_is_not_found() {
    let repo = FilesystemBoundedContextRepository::new(SourceTree::new());
    match repo.read_bounded_context(&id("shop")) {
        Err(BoundedContextRepositoryError::NotFound(name)) => assert_eq!(name, "shop"),
        _ => panic!("expected NotFound"),
    }
}

fn names(v: Vec<String>) -> Vec<String> {
    let mut v = v;
    v.sort();
    v
}

#[test]
fn round_trip_restores_the_context() {
    let bc = sample_context();
    let repo = FilesystemBoundedContextRepository::new(write(SourceTree::new(), &bc));
    let read = repo.read_bounded_context(&id("shop")).unwrap().unwrap();
    assert_eq!(read.get_id().get_value(), "shop");
    let aggregate_names: Vec<String> =
        read.aggregates.iter().map(|a| a.get_id().get_value().clone()).collect();
    assert_eq!(names(aggregate_names), vec!["cart".to_string(), "order".to_string()]);
    let order = read.aggregates.iter().find(|a| a.get_id().get_value() == "order").unwrap();
    let mut layer_names: Vec<String> =
        order.get_layers().iter().map(|l| l.get_value().name.to_string()).collect();
    layer_names.sort();
    assert_eq!(layer_names, vec!["application", "domain", "infrastructure"]);
    let domain = order.get_layers().iter().find(|l| l.get_value().name == LayerName::Domain).unwrap();
    let mut comps: Vec<(String, String)> = domain
        .get_value()
        .components
        .iter()
        .map(|c| (c.get_value().component_type.to_string(), c.get_value().component_name.get_value().clone()))
        .collect();
    comps.sort();
    assert_eq!(
        comps,
        vec![
            ("entities".to_string(), "Order".to_string()),
            ("events".to_string(), "OrderPlaced".to_string())
        ]
    );
    let cart = read.aggregates.iter().find(|a| a.get_id().get_value() == "cart").unwrap();
    assert_eq!(cart.get_layers().len(), 1);
    assert!(cart.get_layers()[0].get_value().components.is_empty());
}

#[test]
fn read_skips_unknown_component_kind_directories() {
    let mut tree = write(SourceTree::new(), &sample_context());
    tree.create_directory(p(&["shop", "order", "domain", "widgets"]));
    tree.write_file(p(&["shop", "order", "domain", "widgets", "Gizmo.rs"]), String::new());
    let repo = FilesystemBoundedContextRepository::new(tree);
    let read = repo.read_bounded_context(&id("shop")).unwrap().unwrap();
    let order = read.aggregates.iter().find(|a| a.get_id().get_value() == "order").unwrap();
    let domain = order.get_layers().iter().find(|l| l.get_value().name == LayerName::Domain).unwrap();
    assert_eq!(domain.get_value().components.len(), 2);
}

#[test]
fn read_fails_on_unknown_layer_directory() {
    let mut tree = write(SourceTree::new(), &sample_context());
    tree.create_directory(p(&["shop", "order", "presentation"]));
    let repo = FilesystemBoundedContextRepository::new(tree);
    assert!(matches!(
        repo.read_bounded_context(&id("shop")),
        Err(BoundedContextRepositoryError::ReadError(_))
    ));
}

#[test]
fn read_skips_core_and_takes_stems() {
    let mut tree = SourceTree::new();
    tree.create_directory(p(&["shop"]));
    tree.create_directory(p(&["shop", "core"]));
    tree.create_directory(p(&["shop", "core", "bogus"]));
    tree.create_directory(p(&["shop", "order"]));
    tree.create_directory(p(&["shop", "order", "domain"]));
    tree.create_directory(p(&["shop", "order", "domain", "entities"]));
    tree.write_file(p(&["shop", "order", "domain", "entities", "Order.rs"]), String::new());
    tree.write_file(p(&["shop", "order", "domain", "entities", "mod.rs"]), String::new());
    let repo = FilesystemBoundedContextRepository::new(tree);
    let read = repo.read_bounded_context(&id("shop")).unwrap().unwrap();
    assert_eq!(read.aggregates.len(), 1);
    let comps = &read.aggregates[0].get_layers()[0].get_value().components;
    assert_eq!(comps.len(), 1);
    assert_eq!(comps[0].get_value().component_name.get_value(), "Order");
    assert_eq!(comps[0].get_value().component_type, ComponentType::Entities);
}

#[test]
fn file_stems() {
    assert_eq!(file_stem("Order.rs"), "Order");
    assert_eq!(file_stem("a.b.rs"), "a.b");
    assert_eq!(file_stem(".hidden"), ".hidden");
    assert_eq!(file_stem("README"), "README");
    assert_eq!(file_stem(".."), "..");
}

#[test]
fn index_text_format() {
    assert_eq!(render_index(&vec!["a".to_string(), "b".to_string()]), "pub mod a;\npub mod b;\n");
    assert_eq!(render_index(&vec![]), "");
}

#[test]
fn repository_error_messages() {
    assert_eq!(
        BoundedContextRepositoryError::NotFound("shop".to_string()).message(),
        "Bounded Context not found: shop"
    );
    assert_eq!(
        BoundedContextRepositoryError::WriteError("shop".to_string()).message(),
        "Error writing Bounded Context: shop"
    );
}

#[test]
fn write_refuses_a_component_whose_file_is_the_index() {
    let mut tree = write(SourceTree::new(), &sample_context());
    tree.write_file(p(&["shop", "order", "domain", "entities", "mod.rs"]), "kept".to_string());
    let mut bc = sample_context();
    bc.add_aggregate_component(&id("order"), ComponentType::Entities, ComponentName::new("mod".to_string()))
        .unwrap();
    let before = snapshot(&tree);
    let mut repo = FilesystemBoundedContextRepository::new(tree);
    match repo.write_bounded_context(&bc) {
        Err(BoundedContextRepositoryError::WriteError(path)) => {
            assert_eq!(path, "shop/order/domain/entities/mod.rs")
        }
        _ => panic!("expected WriteError"),
    }
    assert_eq!(snapshot(repo.tree()), before);
    assert_eq!(contents(repo.tree(), &["shop", "order", "domain", "entities", "mod.rs"]), Some("kept".to_string()));
}

#[test]
fn write_error_names_the_offending_path() {
    let mut tree = SourceTree::new();
    tree.create_directory(p(&["shop"]));
    tree.write_file(p(&["shop", "order"]), "a file".to_string());
    let mut repo = FilesystemBoundedContextRepository::new(tree);
    match repo.write_bounded_context(&sample_context()) {
        Err(BoundedContextRepositoryError::WriteError(path)) => assert_eq!(path, "shop/order"),
        _ => panic!("expected WriteError"),
    }
}

#[test]
fn write_refuses_dot_names() {
    let mut repo = FilesystemBoundedContextRepository::new(SourceTree::new());
    match repo.write_bounded_context(&BoundedContext::new(id(".."), vec![])) {
        Err(BoundedContextRepositoryError::WriteError(path)) => assert_eq!(path, ".."),
        _ => panic!("expected WriteError"),
    }
    let mut bc = BoundedContext::new(id("shop"), vec![]);
    bc.add_aggregate(&id("."), &vec![]).unwrap();
    match repo.write_bounded_context(&bc) {
        Err(BoundedContextRepositoryError::WriteError(path)) => assert_eq!(path, "shop/."),
        _ => panic!("expected WriteError"),
    }
}

#[test]
fn context_index_leaves_out_core() {
    let mut tree = SourceTree::new();
    tree.create_directory(p(&["shop"]));
    tree.create_directory(p(&["shop", "core"]));
    let tree = write(tree, &sample_context());
    assert_eq!(contents(&tree, &["shop", "mod.rs"]), Some("pub mod cart;\npub mod order;\n".to_string()));
}
