//! Node and container identifiers of a program.

use vstd::prelude::*;

use super::container::Container;
use super::flow::RootSurfaceNodeKind;
use super::relations::RootRelation;
use crate::collections::{OrderedKey, SortedMap};
use crate::text::{
    compare_str, lemma_seq_lt_irreflexive, lemma_seq_lt_total, lemma_seq_lt_transitive, owned,
    seq_lt,
};

verus! {

/// The name of a root-surface node.
#[derive(Debug, PartialEq, Eq, PartialOrd, Ord, Hash)]
pub struct NodeId(pub String);

/// The name of a container.
#[derive(Debug, PartialEq, Eq, PartialOrd, Ord, Hash)]
pub struct ContainerId(pub String);

impl View for NodeId {
    type V = Seq<char>;

    open spec fn view(&self) -> Seq<char> {
        self.0@
    }
}

impl View for ContainerId {
    type V = Seq<char>;

    open spec fn view(&self) -> Seq<char> {
        self.0@
    }
}

impl Clone for NodeId {
    fn clone(&self) -> (r: Self)
        ensures
            r == *self,
    {
        NodeId(self.0.clone())
    }
}

impl Clone for ContainerId {
    fn clone(&self) -> (r: Self)
        ensures
            r == *self,
    {
        ContainerId(self.0.clone())
    }
}

impl NodeId {
    pub fn new(value: &str) -> (r: Self)
        ensures
            r@ == value@,
    {
        NodeId(owned(value))
    }
}

impl ContainerId {
    pub fn new(value: &str) -> (r: Self)
        ensures
            r@ == value@,
    {
        ContainerId(owned(value))
    }
}

impl OrderedKey for NodeId {
    open spec fn key_lt(a: Seq<char>, b: Seq<char>) -> bool {
        seq_lt(a, b)
    }

    proof fn lemma_key_lt_irreflexive(a: Seq<char>) {
        lemma_seq_lt_irreflexive(a);
    }

    proof fn lemma_key_lt_transitive(a: Seq<char>, b: Seq<char>, c: Seq<char>) {
        lemma_seq_lt_transitive(a, b, c);
    }

    proof fn lemma_key_lt_total(a: Seq<char>, b: Seq<char>) {
        lemma_seq_lt_total(a, b);
    }

    fn compare_key(&self, other: &Self) -> (r: i8) {
        compare_str(self.0.as_str(), other.0.as_str())
    }

    fn clone_key(&self) -> (r: Self) {
        self.clone()
    }
}

impl OrderedKey for ContainerId {
    open spec fn key_lt(a: Seq<char>, b: Seq<char>) -> bool {
        seq_lt(a, b)
    }

    proof fn lemma_key_lt_irreflexive(a: Seq<char>) {
        lemma_seq_lt_irreflexive(a);
    }

    proof fn lemma_key_lt_transitive(a: Seq<char>, b: Seq<char>, c: Seq<char>) {
        lemma_seq_lt_transitive(a, b, c);
    }

    proof fn lemma_key_lt_total(a: Seq<char>, b: Seq<char>) {
        lemma_seq_lt_total(a, b);
    }

    fn compare_key(&self, other: &Self) -> (r: i8) {
        compare_str(self.0.as_str(), other.0.as_str())
    }

    fn clone_key(&self) -> (r: Self) {
        self.clone()
    }
}

/// A program as a graph: root nodes, the containers they place, and the
/// relations between root nodes.
#[derive(Debug, Clone, PartialEq, Eq)]
pub struct TesseraProgram {
    pub root_nodes: SortedMap<NodeId, RootSurfaceNodeKind>,
    pub containers: SortedMap<ContainerId, Container>,
    pub relations: Vec<RootRelation>,
}

impl Default for TesseraProgram {
    fn default() -> (r: Self)
        ensures
            r.root_nodes.as_map().is_empty(),
            r.containers.as_map().is_empty(),
            r.relations@.len() == 0,
    {
        let r = TesseraProgram { root_nodes: SortedMap::new(), containers: SortedMap::new(), relations: Vec::new() };
        proof {
            assert(r.root_nodes.as_map().dom() =~= Set::empty());
            assert(r.containers.as_map().dom() =~= Set::empty());
        }
        r
    }
}

impl TesseraProgram {
    /// A program with no nodes, containers or relations.
    pub fn empty() -> (r: Self)
        ensures
            r.root_nodes.as_map().is_empty(),
            r.containers.as_map().is_empty(),
            r.relations@.len() == 0,
    {
        TesseraProgram::default()
    }
}

} // verus!
