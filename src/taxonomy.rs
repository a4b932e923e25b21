//! The closed sets of layer names and component kinds, their canonical tokens,
//! and the table of which kinds each layer may hold.
//!
//! Parsing policy: layer names (`LayerName`, `AggregateLayerName`) and component
//! kinds (`ComponentType`) are strict, an unknown token is an `InvalidValue`
//! error; `AggregateLayerComponent` is lenient and keeps an unknown token as
//! `Custom`, so that hand-made directories survive.
use vstd::prelude::*;
use crate::text::str_eq;

verus! {

/// An unknown token for a strict taxonomy.
#[derive(Debug, Clone, Copy, PartialEq, Eq, Structural)]
pub enum TaxonomyError {
    InvalidValue,
}

/// One of the four architectural partitions of an aggregate.
#[derive(Debug, Clone, Copy, PartialEq, Eq, Structural)]
pub enum LayerName {
    Domain,
    Application,
    Adapters,
    Infrastructure,
}

/// The kind of a component placed inside a layer.
#[derive(Debug, Clone, Copy, PartialEq, Eq, Structural)]
pub enum ComponentType {
    Controllers,
    Presenters,
    Commands,
    Queries,
    Subscribers,
    Entities,
    Events,
    Repositories,
    Services,
    ValueObjects,
}

/// Layer names as a second taxonomy of the same four partitions.
#[derive(Debug, Clone, Copy, PartialEq, Eq, Structural)]
pub enum AggregateLayerName {
    Domain,
    Application,
    Adapters,
    Infrastructure,
}

/// Component kinds with a catch-all for tokens that name no known kind.
#[derive(Debug)]
pub enum AggregateLayerComponent {
    Controllers,
    Presenters,
    Commands,
    Queries,
    Subscribers,
    Entities,
    Events,
    Repositories,
    Services,
    ValueObjects,
    Custom(String),
}

impl LayerName {
    /// The canonical lowercase token of the layer.
    pub open spec fn token(self) -> Seq<char> {
        match self {
            LayerName::Domain => "domain"@,
            LayerName::Application => "application"@,
            LayerName::Adapters => "adapters"@,
            LayerName::Infrastructure => "infrastructure"@,
        }
    }

    /// The layer whose token is `t`, if any.
    pub open spec fn parse(t: Seq<char>) -> Option<LayerName> {
        if t == "domain"@ {
            Some(LayerName::Domain)
        } else if t == "application"@ {
            Some(LayerName::Application)
        } else if t == "adapters"@ {
            Some(LayerName::Adapters)
        } else if t == "infrastructure"@ {
            Some(LayerName::Infrastructure)
        } else {
            None
        }
    }

    /// The compatibility table: which component kinds this layer may hold.
    pub open spec fn allows(self, kind: ComponentType) -> bool {
        match self {
            LayerName::Domain => kind == ComponentType::Entities || kind == ComponentType::Events
                || kind == ComponentType::ValueObjects || kind == ComponentType::Repositories
                || kind == ComponentType::Services,
            LayerName::Application => kind == ComponentType::Commands || kind
                == ComponentType::Queries || kind == ComponentType::Subscribers,
            LayerName::Adapters => kind == ComponentType::Controllers || kind
                == ComponentType::Presenters,
            LayerName::Infrastructure => kind == ComponentType::Repositories || kind
                == ComponentType::Services,
        }
    }

    pub fn to_string(&self) -> (r: String)
        ensures
            r@ == self.token(),
    {
        match self {
            LayerName::Domain => String::from_str("domain"),
            LayerName::Application => String::from_str("application"),
            LayerName::Adapters => String::from_str("adapters"),
            LayerName::Infrastructure => String::from_str("infrastructure"),
        }
    }

    /// Strict parse: an unknown token is an `InvalidValue` error.
    pub fn from_str(s: &str) -> (r: Result<LayerName, TaxonomyError>)
        ensures
            r matches Ok(l) ==> LayerName::parse(s@) == Some(l),
            r is Err <==> LayerName::parse(s@) is None,
    {
        if str_eq(s, "domain") {
            Ok(LayerName::Domain)
        } else if str_eq(s, "application") {
            Ok(LayerName::Application)
        } else if str_eq(s, "adapters") {
            Ok(LayerName::Adapters)
        } else if str_eq(s, "infrastructure") {
            Ok(LayerName::Infrastructure)
        } else {
            Err(TaxonomyError::InvalidValue)
        }
    }

    /// Whether this layer may hold components of `kind`.
    pub fn allows_component(&self, kind: ComponentType) -> (r: bool)
        ensures
            r == self.allows(kind),
    {
        match self {
            LayerName::Domain => match kind {
                ComponentType::Entities | ComponentType::Events | ComponentType::ValueObjects
                | ComponentType::Repositories | ComponentType::Services => true,
                _ => false,
            },
            LayerName::Application => match kind {
                ComponentType::Commands | ComponentType::Queries | ComponentType::Subscribers => true,
                _ => false,
            },
            LayerName::Adapters => match kind {
                ComponentType::Controllers | ComponentType::Presenters => true,
                _ => false,
            },
            LayerName::Infrastructure => match kind {
                ComponentType::Repositories | ComponentType::Services => true,
                _ => false,
            },
        }
    }
}

/// Every layer token parses back to its layer.
pub proof fn lemma_layer_token_round_trip(l: LayerName)
    ensures
        LayerName::parse(l.token()) == Some(l),
{
    reveal_strlit("domain");
    reveal_strlit("application");
    reveal_strlit("adapters");
    reveal_strlit("infrastructure");
    assert("domain"@.len() == 6);
    assert("application"@.len() == 11);
    assert("adapters"@.len() == 8);
    assert("infrastructure"@.len() == 14);
}

impl ComponentType {
    /// The canonical lowercase token of the kind; it names the kind's directory.
    pub open spec fn token(self) -> Seq<char> {
        match self {
            ComponentType::Controllers => "controllers"@,
            ComponentType::Presenters => "presenters"@,
            ComponentType::Commands => "commands"@,
            ComponentType::Queries => "queries"@,
            ComponentType::Subscribers => "subscribers"@,
            ComponentType::Entities => "entities"@,
            ComponentType::Events => "events"@,
            ComponentType::Repositories => "repositories"@,
            ComponentType::Services => "services"@,
            ComponentType::ValueObjects => "value_objects"@,
        }
    }

    /// The kind whose token is `t`, if any.
    pub open spec fn parse(t: Seq<char>) -> Option<ComponentType> {
        if t == "controllers"@ {
            Some(ComponentType::Controllers)
        } else if t == "presenters"@ {
            Some(ComponentType::Presenters)
        } else if t == "commands"@ {
            Some(ComponentType::Commands)
        } else if t == "queries"@ {
            Some(ComponentType::Queries)
        } else if t == "subscribers"@ {
            Some(ComponentType::Subscribers)
        } else if t == "entities"@ {
            Some(ComponentType::Entities)
        } else if t == "events"@ {
            Some(ComponentType::Events)
        } else if t == "repositories"@ {
            Some(ComponentType::Repositories)
        } else if t == "services"@ {
            Some(ComponentType::Services)
        } else if t == "value_objects"@ {
            Some(ComponentType::ValueObjects)
        } else {
            None
        }
    }

    /// The layer a component of this kind is added to.
    pub open spec fn home_layer(self) -> LayerName {
        match self {
            ComponentType::Entities | ComponentType::Events | ComponentType::ValueObjects
            | ComponentType::Repositories | ComponentType::Services => LayerName::Domain,
            ComponentType::Commands | ComponentType::Queries
            | ComponentType::Subscribers => LayerName::Application,
            ComponentType::Controllers | ComponentType::Presenters => LayerName::Adapters,
        }
    }

    pub fn to_string(&self) -> (r: String)
        ensures
            r@ == self.token(),
    {
        match self {
            ComponentType::Controllers => String::from_str("controllers"),
            ComponentType::Presenters => String::from_str("presenters"),
            ComponentType::Commands => String::from_str("commands"),
            ComponentType::Queries => String::from_str("queries"),
            ComponentType::Subscribers => String::from_str("subscribers"),
            ComponentType::Entities => String::from_str("entities"),
            ComponentType::Events => String::from_str("events"),
            ComponentType::Repositories => String::from_str("repositories"),
            ComponentType::Services => String::from_str("services"),
            ComponentType::ValueObjects => String::from_str("value_objects"),
        }
    }

    /// Strict parse: an unknown token is an `InvalidValue` error.
    pub fn from_str(s: &str) -> (r: Result<ComponentType, TaxonomyError>)
        ensures
            r matches Ok(k) ==> ComponentType::parse(s@) == Some(k),
            r is Err <==> ComponentType::parse(s@) is None,
    {
        if str_eq(s, "controllers") {
            Ok(ComponentType::Controllers)
        } else if str_eq(s, "presenters") {
            Ok(ComponentType::Presenters)
        } else if str_eq(s, "commands") {
            Ok(ComponentType::Commands)
        } else if str_eq(s, "queries") {
            Ok(ComponentType::Queries)
        } else if str_eq(s, "subscribers") {
            Ok(ComponentType::Subscribers)
        } else if str_eq(s, "entities") {
            Ok(ComponentType::Entities)
        } else if str_eq(s, "events") {
            Ok(ComponentType::Events)
        } else if str_eq(s, "repositories") {
            Ok(ComponentType::Repositories)
        } else if str_eq(s, "services") {
            Ok(ComponentType::Services)
        } else if str_eq(s, "value_objects") {
            Ok(ComponentType::ValueObjects)
        } else {
            Err(TaxonomyError::InvalidValue)
        }
    }

    /// The layer a component of this kind is added to.
    pub fn layer_name(&self) -> (r: LayerName)
        ensures
            r == self.home_layer(),
    {
        match self {
            ComponentType::Entities | ComponentType::Events | ComponentType::ValueObjects
            | ComponentType::Repositories | ComponentType::Services => LayerName::Domain,
            ComponentType::Commands | ComponentType::Queries
            | ComponentType::Subscribers => LayerName::Application,
            ComponentType::Controllers | ComponentType::Presenters => LayerName::Adapters,
        }
    }
}

/// Every kind token parses back to its kind.
pub proof fn lemma_kind_token_round_trip(k: ComponentType)
    ensures
        ComponentType::parse(k.token()) == Some(k),
{
    reveal_strlit("controllers");
    reveal_strlit("presenters");
    reveal_strlit("commands");
    reveal_strlit("queries");
    reveal_strlit("subscribers");
    reveal_strlit("entities");
    reveal_strlit("events");
    reveal_strlit("repositories");
    reveal_strlit("services");
    reveal_strlit("value_objects");
    assert("controllers"@[0] == 'c' && "controllers"@.len() == 11);
    assert("presenters"@[0] == 'p' && "presenters"@.len() == 10);
    assert("commands"@[0] == 'c' && "commands"@.len() == 8);
    assert("queries"@[0] == 'q' && "queries"@.len() == 7);
    assert("subscribers"@[0] == 's' && "subscribers"@.len() == 11);
    assert("entities"@[0] == 'e' && "entities"@.len() == 8);
    assert("events"@[0] == 'e' && "events"@.len() == 6);
    assert("repositories"@[0] == 'r' && "repositories"@.len() == 12);
    assert("services"@[0] == 's' && "services"@.len() == 8);
    assert("value_objects"@[0] == 'v' && "value_objects"@.len() == 13);
}

impl AggregateLayerName {
    pub open spec fn token(self) -> Seq<char> {
        match self {
            AggregateLayerName::Domain => "domain"@,
            AggregateLayerName::Application => "application"@,
            AggregateLayerName::Adapters => "adapters"@,
            AggregateLayerName::Infrastructure => "infrastructure"@,
        }
    }

    pub fn to_string(&self) -> (r: String)
        ensures
            r@ == self.token(),
    {
        match self {
            AggregateLayerName::Domain => String::from_str("domain"),
            AggregateLayerName::Application => String::from_str("application"),
            AggregateLayerName::Adapters => String::from_str("adapters"),
            AggregateLayerName::Infrastructure => String::from_str("infrastructure"),
        }
    }

    /// Strict parse: an unknown token is an `InvalidValue` error.
    pub fn from_str(s: &str) -> (r: Result<AggregateLayerName, TaxonomyError>)
        ensures
            r matches Ok(l) ==> l.token() == s@,
            r is Err <==> LayerName::parse(s@) is None,
    {
        if str_eq(s, "domain") {
            Ok(AggregateLayerName::Domain)
        } else if str_eq(s, "application") {
            Ok(AggregateLayerName::Application)
        } else if str_eq(s, "adapters") {
            Ok(AggregateLayerName::Adapters)
        } else if str_eq(s, "infrastructure") {
            Ok(AggregateLayerName::Infrastructure)
        } else {
            Err(TaxonomyError::InvalidValue)
        }
    }
}

impl AggregateLayerComponent {
    /// The token of the kind; a custom kind is its own token.
    pub open spec fn token(&self) -> Seq<char> {
        match self {
            AggregateLayerComponent::Controllers => "controllers"@,
            AggregateLayerComponent::Presenters => "presenters"@,
            AggregateLayerComponent::Commands => "commands"@,
            AggregateLayerComponent::Queries => "queries"@,
            AggregateLayerComponent::Subscribers => "subscribers"@,
            AggregateLayerComponent::Entities => "entities"@,
            AggregateLayerComponent::Events => "events"@,
            AggregateLayerComponent::Repositories => "repositories"@,
            AggregateLayerComponent::Services => "services"@,
            AggregateLayerComponent::ValueObjects => "value_objects"@,
            AggregateLayerComponent::Custom(s) => s@,
        }
    }

    /// The known kind this stands for; `None` for a custom kind.
    pub open spec fn kind(&self) -> Option<ComponentType> {
        match self {
            AggregateLayerComponent::Controllers => Some(ComponentType::Controllers),
            AggregateLayerComponent::Presenters => Some(ComponentType::Presenters),
            AggregateLayerComponent::Commands => Some(ComponentType::Commands),
            AggregateLayerComponent::Queries => Some(ComponentType::Queries),
            AggregateLayerComponent::Subscribers => Some(ComponentType::Subscribers),
            AggregateLayerComponent::Entities => Some(ComponentType::Entities),
            AggregateLayerComponent::Events => Some(ComponentType::Events),
            AggregateLayerComponent::Repositories => Some(ComponentType::Repositories),
            AggregateLayerComponent::Services => Some(ComponentType::Services),
            AggregateLayerComponent::ValueObjects => Some(ComponentType::ValueObjects),
            AggregateLayerComponent::Custom(_) => None,
        }
    }

    pub fn known_kind(&self) -> (r: Option<ComponentType>)
        ensures
            r == self.kind(),
    {
        match self {
            AggregateLayerComponent::Controllers => Some(ComponentType::Controllers),
            AggregateLayerComponent::Presenters => Some(ComponentType::Presenters),
            AggregateLayerComponent::Commands => Some(ComponentType::Commands),
            AggregateLayerComponent::Queries => Some(ComponentType::Queries),
            AggregateLayerComponent::Subscribers => Some(ComponentType::Subscribers),
            AggregateLayerComponent::Entities => Some(ComponentType::Entities),
            AggregateLayerComponent::Events => Some(ComponentType::Events),
            AggregateLayerComponent::Repositories => Some(ComponentType::Repositories),
            AggregateLayerComponent::Services => Some(ComponentType::Services),
            AggregateLayerComponent::ValueObjects => Some(ComponentType::ValueObjects),
            AggregateLayerComponent::Custom(_) => None,
        }
    }

    pub fn to_string(&self) -> (r: String)
        ensures
            r@ == self.token(),
    {
        match self {
            AggregateLayerComponent::Controllers => String::from_str("controllers"),
            AggregateLayerComponent::Presenters => String::from_str("presenters"),
            AggregateLayerComponent::Commands => String::from_str("commands"),
            AggregateLayerComponent::Queries => String::from_str("queries"),
            AggregateLayerComponent::Subscribers => String::from_str("subscribers"),
            AggregateLayerComponent::Entities => String::from_str("entities"),
            AggregateLayerComponent::Events => String::from_str("events"),
            AggregateLayerComponent::Repositories => String::from_str("repositories"),
            AggregateLayerComponent::Services => String::from_str("services"),
            AggregateLayerComponent::ValueObjects => String::from_str("value_objects"),
            AggregateLayerComponent::Custom(s) => s.clone(),
        }
    }

    /// Lenient parse: a known token gives its kind, any other is kept as `Custom`.
    pub fn from_str(s: &str) -> (r: AggregateLayerComponent)
        ensures
            r.token() == s@,
            (r is Custom) <==> ComponentType::parse(s@) is None,
    {
        if str_eq(s, "controllers") {
            AggregateLayerComponent::Controllers
        } else if str_eq(s, "presenters") {
            AggregateLayerComponent::Presenters
        } else if str_eq(s, "commands") {
            AggregateLayerComponent::Commands
        } else if str_eq(s, "queries") {
            AggregateLayerComponent::Queries
        } else if str_eq(s, "subscribers") {
            AggregateLayerComponent::Subscribers
        } else if str_eq(s, "entities") {
            AggregateLayerComponent::Entities
        } else if str_eq(s, "events") {
            AggregateLayerComponent::Events
        } else if str_eq(s, "repositories") {
            AggregateLayerComponent::Repositories
        } else if str_eq(s, "services") {
            AggregateLayerComponent::Services
        } else if str_eq(s, "value_objects") {
            AggregateLayerComponent::ValueObjects
        } else {
            AggregateLayerComponent::Custom(s.to_owned())
        }
    }
}

impl Clone for AggregateLayerComponent {
    fn clone(&self) -> (r: Self)
        ensures
            r == *self,
    {
        match self {
            AggregateLayerComponent::Controllers => AggregateLayerComponent::Controllers,
            AggregateLayerComponent::Presenters => AggregateLayerComponent::Presenters,
            AggregateLayerComponent::Commands => AggregateLayerComponent::Commands,
            AggregateLayerComponent::Queries => AggregateLayerComponent::Queries,
            AggregateLayerComponent::Subscribers => AggregateLayerComponent::Subscribers,
            AggregateLayerComponent::Entities => AggregateLayerComponent::Entities,
            AggregateLayerComponent::Events => AggregateLayerComponent::Events,
            AggregateLayerComponent::Repositories => AggregateLayerComponent::Repositories,
            AggregateLayerComponent::Services => AggregateLayerComponent::Services,
            AggregateLayerComponent::ValueObjects => AggregateLayerComponent::ValueObjects,
            AggregateLayerComponent::Custom(s) => AggregateLayerComponent::Custom(s.clone()),
        }
    }
}

impl PartialEq for AggregateLayerComponent {
    fn eq(&self, other: &AggregateLayerComponent) -> (r: bool) {
        match (self, other) {
            (AggregateLayerComponent::Custom(a), AggregateLayerComponent::Custom(b)) => str_eq(
                a.as_str(),
                b.as_str(),
            ),
            _ => {
                let ka = self.known_kind();
                let kb = other.known_kind();
                match (ka, kb) {
                    (Some(x), Some(y)) => x == y,
                    (None, None) => true,
                    _ => false,
                }
            },
        }
    }
}

impl vstd::std_specs::cmp::PartialEqSpecImpl for AggregateLayerComponent {
    open spec fn obeys_eq_spec() -> bool {
        true
    }

    open spec fn eq_spec(&self, other: &AggregateLayerComponent) -> bool {
        match (self, other) {
            (AggregateLayerComponent::Custom(a), AggregateLayerComponent::Custom(b)) => a@ == b@,
            _ => self.kind() == other.kind(),
        }
    }
}

} // verus!
