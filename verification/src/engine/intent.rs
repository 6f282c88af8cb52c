//! What a query is after, and how that steers the search.
use vstd::prelude::*;

verus! {

/// What a query is after.
#[derive(Debug, Clone, Copy, PartialEq, Eq, Structural)]
pub enum QueryIntent {
    Definition,
    Usage,
    Conceptual,
    BugDebt,
    Unknown,
}

/// How two symbols are related in the symbol graph.
#[derive(Debug, Clone, Copy, PartialEq, Eq, Structural)]
pub enum EdgeKind {
    Implements,
    Aliases,
    UsesType,
    CallsFunction,
    CalledByFunction,
    TestedBy,
    CoOccursInTest,
    ReferencesConcept,
    Documents,
    RaisesError,
    ErrorDescribes,
    Configures,
}

/// The weights of an intent in tenths, and whether the graph is expanded.
pub open spec fn weights_spec(intent: QueryIntent) -> (u8, u8, bool) {
    match intent {
        QueryIntent::Definition => (3, 7, false),
        QueryIntent::Usage => (5, 5, true),
        QueryIntent::Conceptual => (8, 2, false),
        QueryIntent::BugDebt => (1, 9, false),
        QueryIntent::Unknown => (6, 4, false),
    }
}

impl QueryIntent {
    /// The weight of the vector lane and of the lexical lane, in tenths, and
    /// whether results are expanded along the graph.
    pub fn weights(&self) -> (w: (u8, u8, bool))
        ensures
            w == weights_spec(*self),
    {
        match self {
            QueryIntent::Definition => (3, 7, false),
            QueryIntent::Usage => (5, 5, true),
            QueryIntent::Conceptual => (8, 2, false),
            QueryIntent::BugDebt => (1, 9, false),
            QueryIntent::Unknown => (6, 4, false),
        }
    }

    /// Whether a symbol of exactly the query's name goes first.
    pub fn prefers_exact_name(&self) -> (r: bool)
        ensures
            r == (*self == QueryIntent::Definition || *self == QueryIntent::Unknown),
    {
        matches!(self, QueryIntent::Definition | QueryIntent::Unknown)
    }
}

/// The two lane weights of an intent share out the whole.
pub proof fn weights_share_the_whole(intent: QueryIntent)
    ensures
        weights_spec(intent).0 + weights_spec(intent).1 == 10,
{
}

/// The relations along which an intent expands the graph.
pub open spec fn edge_kinds_spec(intent: QueryIntent) -> Seq<EdgeKind> {
    match intent {
        QueryIntent::Definition => seq![EdgeKind::Implements, EdgeKind::Aliases, EdgeKind::UsesType],
        QueryIntent::Usage => seq![
            EdgeKind::CallsFunction,
            EdgeKind::CalledByFunction,
            EdgeKind::TestedBy,
            EdgeKind::CoOccursInTest,
        ],
        QueryIntent::Conceptual => seq![EdgeKind::ReferencesConcept, EdgeKind::Documents],
        QueryIntent::BugDebt => seq![
            EdgeKind::RaisesError,
            EdgeKind::ErrorDescribes,
            EdgeKind::Configures,
        ],
        QueryIntent::Unknown => seq![EdgeKind::CallsFunction, EdgeKind::CalledByFunction],
    }
}

/// The relations along which an intent expands the graph.
pub fn edge_kinds_for_intent(intent: QueryIntent) -> (kinds: Vec<EdgeKind>)
    ensures
        kinds@ == edge_kinds_spec(intent),
{
    match intent {
        QueryIntent::Definition => vec![
            EdgeKind::Implements,
            EdgeKind::Aliases,
            EdgeKind::UsesType,
        ],
        QueryIntent::Usage => vec![
            EdgeKind::CallsFunction,
            EdgeKind::CalledByFunction,
            EdgeKind::TestedBy,
            EdgeKind::CoOccursInTest,
        ],
        QueryIntent::Conceptual => vec![EdgeKind::ReferencesConcept, EdgeKind::Documents],
        QueryIntent::BugDebt => vec![
            EdgeKind::RaisesError,
            EdgeKind::ErrorDescribes,
            EdgeKind::Configures,
        ],
        QueryIntent::Unknown => vec![EdgeKind::CallsFunction, EdgeKind::CalledByFunction],
    }
}

} // verus!
