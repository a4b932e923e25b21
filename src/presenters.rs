//! The messages that report the outcome of each use case. Printing them is
//! the caller's business.
use vstd::prelude::*;
use crate::find_bounded_contexts_repository::FindBoundedContextsRepositoryError;
use crate::taxonomy::ComponentType;
use crate::use_cases::{
    AddAggregateResponseModel, AddComponentResponseModel, CreateBoundedContextResponseModel,
    UseCaseError,
};

verus! {

/// Reports the outcome of adding an aggregate.
pub struct AddAggregatePresenter;

impl AddAggregatePresenter {
    pub fn success(&self, response_model: &AddAggregateResponseModel) -> (r: String)
        ensures
            r@ == "Aggregate <"@ + response_model.aggregate_name@ + "> added successfully."@,
    {
        let mut r = String::from_str("Aggregate <");
        r.append(response_model.aggregate_name.as_str());
        r.append("> added successfully.");
        r
    }

    pub fn failure(&self, error: &UseCaseError) -> (r: String)
        ensures
            r@ == error.text(),
    {
        error.message()
    }
}

/// The singular noun for a component kind, as used in messages.
pub open spec fn component_noun(kind: ComponentType) -> Seq<char> {
    match kind {
        ComponentType::Controllers => "Controller"@,
        ComponentType::Presenters => "Presenter"@,
        ComponentType::Commands => "Command"@,
        ComponentType::Queries => "Query"@,
        ComponentType::Subscribers => "Subscriber"@,
        ComponentType::Entities => "Entity"@,
        ComponentType::Events => "Event"@,
        ComponentType::Repositories => "Repository"@,
        ComponentType::Services => "Service"@,
        ComponentType::ValueObjects => "ValueObject"@,
    }
}

/// Reports the outcome of adding a component.
pub struct AddComponentPresenter;

impl AddComponentPresenter {
    /// The singular noun for `component_type`.
    fn get_component_type(&self, component_type: &ComponentType) -> (r: String)
        ensures
            r@ == component_noun(*component_type),
    {
        match component_type {
            ComponentType::Controllers => String::from_str("Controller"),
            ComponentType::Presenters => String::from_str("Presenter"),
            ComponentType::Commands => String::from_str("Command"),
            ComponentType::Queries => String::from_str("Query"),
            ComponentType::Subscribers => String::from_str("Subscriber"),
            ComponentType::Entities => String::from_str("Entity"),
            ComponentType::Events => String::from_str("Event"),
            ComponentType::Repositories => String::from_str("Repository"),
            ComponentType::Services => String::from_str("Service"),
            ComponentType::ValueObjects => String::from_str("ValueObject"),
        }
    }

    pub fn success(&self, response_model: &AddComponentResponseModel) -> (r: String)
        ensures
            r@ == component_noun(response_model.component_type) + " <"@ + response_model.component_name@
                + "> added successfully."@,
    {
        let mut r = self.get_component_type(&response_model.component_type);
        r.append(" <");
        r.append(response_model.component_name.as_str());
        r.append("> added successfully.");
        r
    }

    pub fn failure(&self, error: &UseCaseError) -> (r: String)
        ensures
            r@ == "Failed to add component due to: "@ + error.text(),
    {
        let mut r = String::from_str("Failed to add component due to: ");
        r.append(error.message().as_str());
        r
    }
}

/// Reports the outcome of creating a bounded context.
pub struct CreateBoundedContextPresenter;

impl CreateBoundedContextPresenter {
    pub fn success(&self, response_model: &CreateBoundedContextResponseModel) -> (r: String)
        ensures
            r@ == "Bounded Context <"@ + response_model.bounded_context_id@ + "> created successfully."@,
    {
        let mut r = String::from_str("Bounded Context <");
        r.append(response_model.bounded_context_id.as_str());
        r.append("> created successfully.");
        r
    }

    pub fn failure(&self, error: &UseCaseError) -> (r: String)
        ensures
            r@ == error.text(),
    {
        error.message()
    }
}

/// Reports a failed listing; a successful one is returned to the caller as it is.
pub struct FindBoundedContextsPresenter;

impl FindBoundedContextsPresenter {
    pub fn new() -> (r: FindBoundedContextsPresenter) {
        FindBoundedContextsPresenter
    }

    pub fn failure(&self, error: &FindBoundedContextsRepositoryError) -> (r: String)
        ensures
            r@ == "Failed to find bounded contexts due to: "@ + error.text(),
    {
        let mut r = String::from_str("Failed to find bounded contexts due to: ");
        r.append(error.message().as_str());
        r
    }
}

} // verus!
