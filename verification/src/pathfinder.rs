//! A resolver that finds the shortest way from one component to another,
//! counting edges.

use crate::error::texts;
use crate::error::BubblingError;
use crate::error::LOOKUP_STRESS;
use crate::graph::is_shortest_path;
use crate::graph::no_path_view;
use crate::graph::not_found_view;
use crate::graph::reaches;
use crate::graph::rejected_view;
use crate::graph::DependencyGraph;
use crate::graph::GRAPH_CAPACITY;
use crate::types::ComponentNode;
use crate::types::Link;
use vstd::prelude::*;

verus! {

/// A graph of components in which paths are looked for.
pub struct GraphResolver {
    /// The graph that the resolver looks in.
    pub graph: DependencyGraph,
}

impl GraphResolver {
    /// The resolver is in order when its graph is.
    pub open spec fn wf(&self) -> bool {
        self.graph.wf()
    }

    /// A resolver with an empty graph.
    pub fn new() -> (r: Self)
        ensures
            r.wf(),
            r.graph.nodes() == Seq::<ComponentNode>::empty(),
            r.graph.links() == Seq::<Link>::empty(),
    {
        GraphResolver { graph: DependencyGraph::new() }
    }

    /// Puts `component` into the graph and returns its index. A component
    /// whose id is in the graph already is turned away.
    pub fn add_component(&mut self, component: ComponentNode) -> (r: Result<usize, BubblingError>)
        requires
            old(self).wf(),
        ensures
            final(self).wf(),
            final(self).graph.links() == old(self).graph.links(),
            !old(self).graph.names().contains_key(component.id@) && old(self).graph.nodes().len()
                < GRAPH_CAPACITY ==> {
                &&& r == Ok::<usize, BubblingError>(old(self).graph.nodes().len() as usize)
                &&& final(self).graph.nodes() == old(self).graph.nodes().push(component)
                &&& final(self).graph.names() == old(self).graph.names().insert(
                    component.id@,
                    old(self).graph.nodes().len() as usize,
                )
            },
            old(self).graph.names().contains_key(component.id@) ==> {
                &&& r matches Err(e) && e@ == rejected_view(
                    "Component is in the graph already: "@ + component.id@,
                    "DependencyGraph::add_component"@,
                )
                &&& final(self).graph.nodes() == old(self).graph.nodes()
                &&& final(self).graph.names() == old(self).graph.names()
            },
            !old(self).graph.names().contains_key(component.id@) && old(self).graph.nodes().len()
                >= GRAPH_CAPACITY ==> {
                &&& r matches Err(e) && e@ == rejected_view(
                    "Graph is full"@,
                    "DependencyGraph::add_component"@,
                )
                &&& final(self).graph.nodes() == old(self).graph.nodes()
                &&& final(self).graph.names() == old(self).graph.names()
            },
    {
        self.graph.add_component(component)
    }

    /// Adds an edge of the weight `weight` from the component `from` to the
    /// component `to`. Where one of the two is not in the graph, or the graph
    /// is full, nothing changes.
    pub fn add_dependency(&mut self, from: &str, to: &str, weight: u64)
        requires
            old(self).wf(),
        ensures
            final(self).wf(),
            final(self).graph.nodes() == old(self).graph.nodes(),
            final(self).graph.names() == old(self).graph.names(),
            old(self).graph.names().contains_key(from@) && old(self).graph.names().contains_key(to@)
                && old(self).graph.links().len() < GRAPH_CAPACITY ==> {
                &&& final(self).graph.links().len() == old(self).graph.links().len() + 1
                &&& final(self).graph.links().drop_last() == old(self).graph.links()
                &&& final(self).graph.links().last().source == old(self).graph.names()[from@]
                &&& final(self).graph.links().last().target == old(self).graph.names()[to@]
                &&& final(self).graph.links().last().edge.weight == weight
                &&& final(self).graph.links().last().edge.constraint@ == Seq::<char>::empty()
            },
            !(old(self).graph.names().contains_key(from@) && old(self).graph.names().contains_key(
                to@,
            ) && old(self).graph.links().len() < GRAPH_CAPACITY) ==> final(self).graph.links()
                == old(self).graph.links(),
    {
        let source = match self.graph.get_by_name(from) {
            Ok(index) => index,
            Err(_) => {
                return ;
            },
        };
        let target = match self.graph.get_by_name(to) {
            Ok(index) => index,
            Err(_) => {
                return ;
            },
        };
        let ghost before = self.graph.links();
        let _ = self.graph.add_dependency(source, target, String::new(), weight);
        proof {
            if before.len() < GRAPH_CAPACITY {
                assert(self.graph.links().drop_last() =~= before);
            }
        }
    }

    /// The ids of the components on a shortest walk from the component `from`
    /// to the component `to`, both included.
    pub fn resolve_path(&self, from: &str, to: &str) -> (r: Result<Vec<String>, BubblingError>)
        requires
            self.wf(),
        ensures
            !self.graph.names().contains_key(from@) ==> (r matches Err(e) && e@ == not_found_view(
                from@,
                "DependencyGraph::resolve_path"@,
                LOOKUP_STRESS as nat,
            )),
            self.graph.names().contains_key(from@) && !self.graph.names().contains_key(to@) ==> (
            r matches Err(e) && e@ == not_found_view(
                to@,
                "DependencyGraph::resolve_path"@,
                LOOKUP_STRESS as nat,
            )),
            self.graph.names().contains_key(from@) && self.graph.names().contains_key(to@)
                && !reaches(
                self.graph.links(),
                self.graph.names()[from@] as int,
                self.graph.names()[to@] as int,
            ) ==> (r matches Err(e) && e@ == no_path_view(from@, to@)),
            self.graph.names().contains_key(from@) && self.graph.names().contains_key(to@)
                && reaches(
                self.graph.links(),
                self.graph.names()[from@] as int,
                self.graph.names()[to@] as int,
            ) ==> (r matches Ok(path) && is_shortest_path(
                self.graph.nodes(),
                self.graph.links(),
                self.graph.names()[from@] as int,
                self.graph.names()[to@] as int,
                texts(path@),
            )),
    {
        self.graph.resolve_path(from, to)
    }
}

} // verus!
