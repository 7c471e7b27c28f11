use petgraph::graph::DiGraph;
use vstd::prelude::*;

verus! {

/// A directed graph of petgraph, held as an opaque value.
#[verifier::external_type_specification]
#[verifier::external_body]
#[verifier::reject_recursive_types(N)]
#[verifier::reject_recursive_types(E)]
#[verifier::reject_recursive_types(Ty)]
#[verifier::reject_recursive_types(Ix)]
pub struct ExGraph<N, E, Ty, Ix>(petgraph::graph::Graph<N, E, Ty, Ix>);

/// The marker type of petgraph's directed graphs.
#[verifier::external_type_specification]
#[verifier::external_body]
pub struct ExDirected(petgraph::Directed);

#[derive(Debug, Clone)]
pub struct TopicNode {
    pub id: u128,
    pub name: String,
    pub description: String,
}

#[derive(Debug, Clone)]
pub struct TopicEdge {
    pub relationship: RelationshipType,
    /// Fixed-point, in millionths.
    pub weight: u32,
}

#[derive(Debug, Clone, Copy, PartialEq, Eq, Structural)]
pub enum RelationshipType {
    Prerequisite,
    Related,
    Subtopic,
}

/// Relies on `petgraph::graph::Graph::new`: a directed graph with no nodes
/// and no edges.
#[verifier::external_body]
fn empty_topic_graph() -> DiGraph<TopicNode, TopicEdge> {
    DiGraph::new()
}

/// The topic prerequisite graph, kept by an outside graph library.
pub struct KnowledgeGraph {
    #[allow(dead_code)]
    graph: DiGraph<TopicNode, TopicEdge>,
}

impl KnowledgeGraph {
    pub fn new() -> KnowledgeGraph {
        KnowledgeGraph { graph: empty_topic_graph() }
    }
}

impl Default for KnowledgeGraph {
    fn default() -> KnowledgeGraph {
        KnowledgeGraph::new()
    }
}

} // verus!
