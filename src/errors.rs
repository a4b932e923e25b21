//! Validation failures of the domain model.
use vstd::prelude::*;
use crate::taxonomy::LayerName;

verus! {

/// Why a mutation of the domain model was refused.
#[derive(Debug, Clone, Copy, PartialEq, Eq, Structural)]
pub enum DomainError {
    /// A component kind that the named layer may not hold.
    InvalidLayerComposition(LayerName),
    /// An aggregate with the same identity already exists.
    DuplicateAggregate,
    /// An aggregate name longer than the maximum length.
    AggregateNameTooLong,
    /// No aggregate with the given identity.
    AggregateNotFound,
    /// The aggregate has no layer of the given name.
    LayerNotFound(LayerName),
    /// A component of the same kind and name already exists in the layer.
    DuplicateComponent,
}

impl DomainError {
    /// The message shown for the error.
    pub open spec fn text(&self) -> Seq<char> {
        match self {
            DomainError::InvalidLayerComposition(l) => "Invalid components for "@ + l.token() + " layer"@,
            DomainError::DuplicateAggregate => "Aggregate already exists"@,
            DomainError::AggregateNameTooLong => "The name exceeds the maximum length of 32 characters"@,
            DomainError::AggregateNotFound => "Aggregate not found"@,
            DomainError::LayerNotFound(l) => "Layer not found: "@ + l.token(),
            DomainError::DuplicateComponent => "Component already exists"@,
        }
    }

    pub fn message(&self) -> (r: String)
        ensures
            r@ == self.text(),
    {
        match self {
            DomainError::InvalidLayerComposition(l) => {
                let mut r = String::from_str("Invalid components for ");
                r.append(l.to_string().as_str());
                r.append(" layer");
                r
            },
            DomainError::DuplicateAggregate => String::from_str("Aggregate already exists"),
            DomainError::AggregateNameTooLong => String::from_str(
                "The name exceeds the maximum length of 32 characters",
            ),
            DomainError::AggregateNotFound => String::from_str("Aggregate not found"),
            DomainError::LayerNotFound(l) => {
                let mut r = String::from_str("Layer not found: ");
                r.append(l.to_string().as_str());
                r
            },
            DomainError::DuplicateComponent => String::from_str("Component already exists"),
        }
    }
}

} // verus!
