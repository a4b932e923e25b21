//! Layered domain model of bounded contexts, aggregates, layers and components,
//! and its projection onto a source directory tree.

pub mod text;
pub mod value_object;
pub mod taxonomy;
pub mod errors;
pub mod identity_object;
pub mod names;
pub mod layer_component;
pub mod aggregate_layer;
pub mod aggregate;
pub mod bounded_context;
pub mod source_tree;
pub mod index_file;
pub mod layout;
pub mod bounded_context_repository;
pub mod find_bounded_contexts_repository;
pub mod use_cases;
pub mod presenters;
pub mod date_value_object;
pub mod project_service;
pub mod aggregate_value;
pub mod domain_event_bus;
pub mod round_trip;
