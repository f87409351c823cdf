//! The dependency graph: component nodes and weighted edges from dependent to
//! dependency, with an index from component id to node.
//!
//! Nodes and edges live in a `petgraph` graph. What the library believes of
//! `petgraph` is written on the private functions at the top of this file;
//! everything below them is proved from that.

use crate::error::resolving_error;
use crate::error::texts;
use crate::error::BubblingError;
use crate::error::BubblingErrorView;
use crate::error::ErrorKind;
use crate::error::LOOKUP_STRESS;
use crate::error::MISSING_STRESS;
use crate::error::PATHFIND_STRESS;
use crate::stress::mean;
use crate::stress::pushed;
use crate::stress::StressMonitor;
use crate::types::ComponentNode;
use crate::types::DependencyEdge;
use crate::types::EdgeReference;
use crate::types::Link;
use crate::types::CRITICAL_WEIGHT;
use crate::version::Classifier;
use crate::version::SemverX;
use petgraph::algo::dijkstra;
use petgraph::algo::tarjan_scc;
use petgraph::graph::DiGraph;
use petgraph::graph::EdgeIndex;
use petgraph::graph::NodeIndex;
use petgraph::visit::EdgeRef;
use vstd::hash_map::StringHashMap;
use vstd::prelude::*;

verus! {

/// `petgraph::graph::Graph`, the graph that holds nodes and edges in two
/// vectors. Nothing is known of a value of it but what the functions below
/// say.
#[verifier::external_type_specification]
#[verifier::external_body]
#[verifier::reject_recursive_types(N)]
#[verifier::reject_recursive_types(E)]
#[verifier::reject_recursive_types(Ty)]
#[verifier::reject_recursive_types(Ix)]
pub struct ExGraph<N, E, Ty, Ix>(petgraph::graph::Graph<N, E, Ty, Ix>);

/// `petgraph::Directed`, the marker of a graph with directed edges.
#[verifier::external_type_specification]
#[verifier::external_body]
pub struct ExDirected(petgraph::Directed);

/// The node weights of a `petgraph` graph, by node index.
pub uninterp spec fn graph_nodes(g: DiGraph<ComponentNode, DependencyEdge>) -> Seq<ComponentNode>;

/// The edges of a `petgraph` graph, by edge index: for each its source, its
/// target and its weight.
pub uninterp spec fn graph_links(g: DiGraph<ComponentNode, DependencyEdge>) -> Seq<Link>;

/// For each node of a `petgraph` graph, by node index, the indices of the
/// edges that leave it, in the order in which `Graph::edges` lists them.
pub uninterp spec fn graph_outgoing(g: DiGraph<ComponentNode, DependencyEdge>) -> Seq<Seq<int>>;

/// Whether `list` holds exactly the indices of the edges that leave `node`,
/// each once.
pub open spec fn lists_edges_from(links: Seq<Link>, node: int, list: Seq<int>) -> bool {
    &&& forall|k: int|
        0 <= k < list.len() ==> 0 <= #[trigger] list[k] < links.len() && links[list[k]].source
            == node
    &&& forall|j: int, k: int| 0 <= j < k < list.len() ==> list[j] != list[k]
    &&& forall|e: int|
        0 <= e < links.len() && (#[trigger] links[e]).source == node ==> list.contains(e)
}

/// Whether `order` holds for each of the `n` nodes exactly the edges that
/// leave it, each once.
pub open spec fn is_edge_order(links: Seq<Link>, n: nat, order: Seq<Seq<int>>) -> bool {
    &&& order.len() == n
    &&& forall|node: int| 0 <= node < n ==> lists_edges_from(links, node, #[trigger] order[node])
}

/// The most nodes, and the most edges, that a graph indexed by `u32` takes:
/// the last index is kept free as an end mark.
pub const GRAPH_CAPACITY: usize = 0xFFFF_FFFF;

/// Whether an edge of `links` leads from `a` to `b`.
pub open spec fn has_edge(links: Seq<Link>, a: int, b: int) -> bool {
    exists|e: int| 0 <= e < links.len() && (#[trigger] links[e]).source == a && links[e].target == b
}

/// Whether `walk` is a walk in the graph: one node or more, each joined to
/// the next by an edge.
pub open spec fn is_walk(links: Seq<Link>, walk: Seq<int>) -> bool {
    &&& walk.len() >= 1
    &&& forall|k: int| 0 <= k < walk.len() - 1 ==> has_edge(links, #[trigger] walk[k], walk[k + 1])
}

/// Whether a walk leads from `a` to `b`. Every node reaches itself.
pub open spec fn reaches(links: Seq<Link>, a: int, b: int) -> bool {
    exists|walk: Seq<int>| #[trigger] is_walk(links, walk) && walk[0] == a && walk.last() == b
}

/// Whether each of the two nodes reaches the other.
pub open spec fn mutually_reachable(links: Seq<Link>, a: int, b: int) -> bool {
    reaches(links, a, b) && reaches(links, b, a)
}

/// The node at place `k` of component `c`.
pub open spec fn member(components: Seq<Vec<usize>>, c: int, k: int) -> int {
    components[c]@[k] as int
}

/// Whether `(c, k)` is a place in `components`.
pub open spec fn is_place(components: Seq<Vec<usize>>, c: int, k: int) -> bool {
    0 <= c < components.len() && 0 <= k < components[c]@.len()
}

/// Whether the node `v` has a place in `components`.
pub open spec fn has_place(components: Seq<Vec<usize>>, v: int) -> bool {
    exists|c: int, k: int| is_place(components, c, k) && #[trigger] member(components, c, k) == v
}

/// Whether `components` are the strongly connected components of the graph
/// with `n` nodes and the edges `links`: every component holds a node, every
/// node has one place, and two nodes share a component exactly when each
/// reaches the other.
pub open spec fn is_scc_partition(n: nat, links: Seq<Link>, components: Seq<Vec<usize>>) -> bool {
    &&& forall|c: int| 0 <= c < components.len() ==> (#[trigger] components[c])@.len() > 0
    &&& forall|c: int, k: int|
        is_place(components, c, k) ==> 0 <= #[trigger] member(components, c, k) < n
    &&& forall|v: int| 0 <= v < n ==> #[trigger] has_place(components, v)
    &&& forall|c: int, k1: int, k2: int|
        is_place(components, c, k1) && is_place(components, c, k2) && #[trigger] member(
            components,
            c,
            k1,
        ) == #[trigger] member(components, c, k2) ==> k1 == k2
    &&& forall|c1: int, k1: int, c2: int, k2: int|
        is_place(components, c1, k1) && is_place(components, c2, k2) ==> ((c1 == c2)
            <==> mutually_reachable(
            links,
            #[trigger] member(components, c1, k1),
            #[trigger] member(components, c2, k2),
        ))
}

/// `DiGraph::new`: a graph without nodes and edges.
#[verifier::external_body]
fn digraph_new() -> (g: DiGraph<ComponentNode, DependencyEdge>)
    ensures
        graph_nodes(g) == Seq::<ComponentNode>::empty(),
        graph_links(g) == Seq::<Link>::empty(),
        graph_outgoing(g) == Seq::<Seq<int>>::empty(),
{
    DiGraph::new()
}

/// `Graph::node_count`: the number of nodes.
#[verifier::external_body]
fn digraph_node_count(g: &DiGraph<ComponentNode, DependencyEdge>) -> (n: usize)
    ensures
        n == graph_nodes(*g).len(),
{
    g.node_count()
}

/// `Graph::edge_count`: the number of edges.
#[verifier::external_body]
fn digraph_edge_count(g: &DiGraph<ComponentNode, DependencyEdge>) -> (n: usize)
    ensures
        n == graph_links(*g).len(),
{
    g.edge_count()
}

/// `Graph::add_node`: the node joins the end of the nodes and its index is
/// returned; the edges stay, and no edge leaves the new node. It panics when
/// the graph is at capacity, which the precondition rules out.
#[verifier::external_body]
fn digraph_add_node(g: &mut DiGraph<ComponentNode, DependencyEdge>, node: ComponentNode) -> (index:
    usize)
    requires
        graph_nodes(*old(g)).len() < GRAPH_CAPACITY,
    ensures
        index == graph_nodes(*old(g)).len(),
        graph_nodes(*final(g)) == graph_nodes(*old(g)).push(node),
        graph_links(*final(g)) == graph_links(*old(g)),
        graph_outgoing(*final(g)) == graph_outgoing(*old(g)).push(Seq::<int>::empty()),
{
    g.add_node(node).index()
}

/// `Graph::add_edge`: the edge joins the end of the edges and its index is
/// returned; the nodes stay; among the edges that leave its source the new
/// edge comes first. It panics when an end is no node or the graph is at
/// capacity, which the precondition rules out.
#[verifier::external_body]
fn digraph_add_edge(
    g: &mut DiGraph<ComponentNode, DependencyEdge>,
    from: usize,
    to: usize,
    edge: DependencyEdge,
) -> (index: usize)
    requires
        from < graph_nodes(*old(g)).len(),
        to < graph_nodes(*old(g)).len(),
        graph_links(*old(g)).len() < GRAPH_CAPACITY,
    ensures
        index == graph_links(*old(g)).len(),
        graph_nodes(*final(g)) == graph_nodes(*old(g)),
        graph_links(*final(g)) == graph_links(*old(g)).push(
            Link { source: from as int, target: to as int, edge },
        ),
        graph_outgoing(*final(g)) == graph_outgoing(*old(g)).update(
            from as int,
            seq![graph_links(*old(g)).len() as int] + graph_outgoing(*old(g))[from as int],
        ),
{
    g.add_edge(NodeIndex::new(from), NodeIndex::new(to), edge).index()
}

/// Indexing a graph by a node index: the weight of that node. It panics when
/// the index is no node, which the precondition rules out.
#[verifier::external_body]
fn digraph_node(g: &DiGraph<ComponentNode, DependencyEdge>, index: usize) -> (node: &ComponentNode)
    requires
        index < graph_nodes(*g).len(),
    ensures
        *node == graph_nodes(*g)[index as int],
{
    &g[NodeIndex::new(index)]
}

/// Indexing a graph mutably by a node index: the weight of that node, to be
/// changed in place; the edges and their order stay. It panics when the
/// index is no node, which the precondition rules out.
#[verifier::external_body]
fn digraph_node_mut(g: &mut DiGraph<ComponentNode, DependencyEdge>, index: usize) -> (node:
    &mut ComponentNode)
    requires
        index < graph_nodes(*old(g)).len(),
    ensures
        *node == graph_nodes(*old(g))[index as int],
        graph_nodes(*final(g)) == graph_nodes(*old(g)).update(index as int, *final(node)),
        graph_links(*final(g)) == graph_links(*old(g)),
        graph_outgoing(*final(g)) == graph_outgoing(*old(g)),
{
    &mut g[NodeIndex::new(index)]
}

/// Indexing a graph by an edge index: the weight of that edge. It panics when
/// the index is no edge, which the precondition rules out.
#[verifier::external_body]
fn digraph_edge(g: &DiGraph<ComponentNode, DependencyEdge>, index: usize) -> (edge: &DependencyEdge)
    requires
        index < graph_links(*g).len(),
    ensures
        *edge == graph_links(*g)[index as int].edge,
{
    &g[EdgeIndex::new(index)]
}

/// The two nodes that an edge joins.
pub struct Endpoints {
    pub source: usize,
    pub target: usize,
}

/// `Graph::edge_endpoints`: the source and the target of an edge.
#[verifier::external_body]
fn digraph_endpoints(g: &DiGraph<ComponentNode, DependencyEdge>, index: usize) -> (ends: Option<Endpoints>)
    requires
        index < graph_links(*g).len(),
    ensures
        ends is Some,
        ends->0.source == graph_links(*g)[index as int].source,
        ends->0.target == graph_links(*g)[index as int].target,
{
    g.edge_endpoints(EdgeIndex::new(index)).map(
        |pair| Endpoints { source: pair.0.index(), target: pair.1.index() },
    )
}

/// `Graph::remove_edge`: the edge leaves and its weight is returned; the last
/// edge takes the index that it had; the nodes stay. Of the order in which
/// the edges that are left leave their nodes, only this is claimed: each
/// node still lists exactly the edges that leave it, each once.
#[verifier::external_body]
fn digraph_remove_edge(g: &mut DiGraph<ComponentNode, DependencyEdge>, index: usize) -> (edge:
    Option<DependencyEdge>)
    requires
        index < graph_links(*old(g)).len(),
    ensures
        edge == Some(graph_links(*old(g))[index as int].edge),
        graph_nodes(*final(g)) == graph_nodes(*old(g)),
        graph_links(*final(g)) == graph_links(*old(g)).update(
            index as int,
            graph_links(*old(g)).last(),
        ).drop_last(),
        is_edge_order(
            graph_links(*final(g)),
            graph_nodes(*final(g)).len(),
            graph_outgoing(*final(g)),
        ),
{
    g.remove_edge(EdgeIndex::new(index))
}

/// `petgraph::algo::tarjan_scc`: the strongly connected components of the
/// graph, each a list of node indices. Nothing is claimed of their order.
#[verifier::external_body]
fn digraph_scc(g: &DiGraph<ComponentNode, DependencyEdge>) -> (components: Vec<Vec<usize>>)
    ensures
        is_scc_partition(graph_nodes(*g).len(), graph_links(*g), components@),
{
    tarjan_scc(g).into_iter().map(|c| c.into_iter().map(|n| n.index()).collect()).collect()
}

/// `Graph::edges`: the indices of the edges that leave a node, in the order
/// in which the graph lists them: exactly the edges with that source, each
/// once.
#[verifier::external_body]
fn digraph_outgoing(g: &DiGraph<ComponentNode, DependencyEdge>, node: usize) -> (list: Vec<usize>)
    requires
        node < graph_nodes(*g).len(),
    ensures
        list@.map_values(|e: usize| e as int) == graph_outgoing(*g)[node as int],
        lists_edges_from(graph_links(*g), node as int, list@.map_values(|e: usize| e as int)),
{
    g.edges(NodeIndex::new(node)).map(|e| e.id().index()).collect()
}

/// What crossing one edge costs on a path whose edges are counted.
pub fn hop_cost() -> (cost: u64)
    ensures
        cost == 1,
{
    1
}

/// Whether an edge leads into `v` from a node that `hops` counts one less
/// for.
pub open spec fn has_step_into(links: Seq<Link>, hops: Seq<Option<u64>>, v: int) -> bool {
    exists|e: int|
        0 <= e < links.len() && (#[trigger] links[e]).target == v && 0 <= links[e].source
            < hops.len() && hops[links[e].source] == Some((hops[v]->0 - 1) as u64)
}

/// Whether `hops` counts, for the nodes that a search from `from` for `to`
/// has met, the edges of a walk to them: none for `from`; for any other node
/// one more than for a node that an edge leads from; for `to` exactly where a
/// walk leads there, and then no walk there has fewer edges.
pub open spec fn is_hop_count(
    links: Seq<Link>,
    n: nat,
    from: int,
    to: int,
    hops: Seq<Option<u64>>,
) -> bool {
    &&& hops.len() == n
    &&& hops[from] == Some(0u64)
    &&& (hops[to] is Some <==> reaches(links, from, to))
    &&& forall|v: int|
        0 <= v < n && v != from && (#[trigger] hops[v]) is Some ==> hops[v]->0 >= 1
            && has_step_into(links, hops, v)
    &&& forall|walk: Seq<int>|
        hops[to] is Some && #[trigger] is_walk(links, walk) && walk[0] == from && walk.last()
            == to ==> walk.len() > hops[to]->0
}

/// `petgraph::algo::dijkstra` from one node with another as its goal and
/// every edge at the cost of one: for each node, by index, the cost that the
/// search has found for it, if it has met it.
#[verifier::external_body]
fn digraph_hops(g: &DiGraph<ComponentNode, DependencyEdge>, from: usize, to: usize) -> (hops: Vec<
    Option<u64>,
>)
    requires
        from < graph_nodes(*g).len(),
        to < graph_nodes(*g).len(),
    ensures
        is_hop_count(graph_links(*g), graph_nodes(*g).len(), from as int, to as int, hops@),
{
    let scores = dijkstra(g, NodeIndex::new(from), Some(NodeIndex::new(to)), |_| hop_cost());
    (0..g.node_count()).map(|i| scores.get(&NodeIndex::new(i)).copied()).collect()
}

/// The error for a component that no walk leads to.
pub open spec fn no_path_view(from: Seq<char>, to: Seq<char>) -> BubblingErrorView {
    BubblingErrorView {
        kind: ErrorKind::Resolving,
        message: "No path found from "@ + from + " to "@ + to,
        context: seq!["DependencyGraph::resolve_path"@],
        stress_level: PATHFIND_STRESS as nat,
        can_recover: true,
    }
}

/// Whether `ids` names the nodes of a walk from `a` to `b` that no other
/// walk from `a` to `b` is shorter than.
pub open spec fn is_shortest_path(
    nodes: Seq<ComponentNode>,
    links: Seq<Link>,
    a: int,
    b: int,
    ids: Seq<Seq<char>>,
) -> bool {
    exists|walk: Seq<int>|
        {
            &&& #[trigger] is_walk(links, walk)
            &&& walk[0] == a
            &&& walk.last() == b
            &&& ids == Seq::new(walk.len(), |k: int| nodes[walk[k]].id@)
            &&& forall|other: Seq<int>|
                #[trigger] is_walk(links, other) && other[0] == a && other.last() == b
                    ==> other.len() >= walk.len()
        }
}

/// The indices of the edges that leave `node`, in the order `order`; none
/// where `node` is no node.
pub open spec fn edges_from(order: Seq<Seq<int>>, node: int) -> Seq<int> {
    if 0 <= node < order.len() {
        order[node]
    } else {
        Seq::empty()
    }
}

/// The node with its version's classifier pinned to stable.
pub open spec fn pinned(node: ComponentNode) -> ComponentNode {
    ComponentNode {
        version: SemverX { classifier: Some(Classifier::Stable), ..node.version },
        ..node
    }
}

/// The edges after the edge at `index` has left: the last edge takes its
/// place.
pub open spec fn without_edge(links: Seq<Link>, index: int) -> Seq<Link> {
    links.update(index, links.last()).drop_last()
}

/// The error for a component that is not in the graph.
pub open spec fn not_found_view(id: Seq<char>, origin: Seq<char>, stress: nat) -> BubblingErrorView {
    BubblingErrorView {
        kind: ErrorKind::Resolving,
        message: "Component not found: "@ + id,
        context: seq![origin],
        stress_level: stress,
        can_recover: false,
    }
}

/// The error for a component that cannot join the graph.
pub open spec fn rejected_view(message: Seq<char>, origin: Seq<char>) -> BubblingErrorView {
    BubblingErrorView {
        kind: ErrorKind::Resolving,
        message,
        context: seq![origin],
        stress_level: MISSING_STRESS as nat,
        can_recover: false,
    }
}

/// Builds the error for a component that is not in the graph.
pub fn not_found(id: &str, origin: &str, stress: u64) -> (e: BubblingError)
    ensures
        e@ == not_found_view(id@, origin@, stress as nat),
{
    let message = String::from_str("Component not found: ").concat(id);
    resolving_error(message, origin, stress, false)
}

/// A directed graph of components.
pub struct DependencyGraph {
    graph: DiGraph<ComponentNode, DependencyEdge>,
    node_map: StringHashMap<usize>,
    stress_monitor: StressMonitor,
}

impl DependencyGraph {
    /// The nodes, by index.
    pub closed spec fn nodes(&self) -> Seq<ComponentNode> {
        graph_nodes(self.graph)
    }

    /// The edges, by index.
    pub closed spec fn links(&self) -> Seq<Link> {
        graph_links(self.graph)
    }

    /// The index from component id to node index.
    pub closed spec fn names(&self) -> Map<Seq<char>, usize> {
        self.node_map@
    }

    /// For each node the indices of the edges that leave it, in the order in
    /// which the graph lists them.
    pub closed spec fn order(&self) -> Seq<Seq<int>> {
        graph_outgoing(self.graph)
    }

    /// The stress samples held, oldest first.
    pub closed spec fn samples(&self) -> Seq<u64> {
        self.stress_monitor.samples()
    }

    /// The stress monitor is in order.
    pub closed spec fn monitor_wf(&self) -> bool {
        self.stress_monitor.wf()
    }

    /// The graph is in order: the index names every node by its id and nothing
    /// else, so no two nodes share an id; every edge joins two nodes; an edge
    /// is critical exactly when its weight is above five; each node lists
    /// exactly the edges that leave it.
    pub open spec fn wf(&self) -> bool {
        &&& self.monitor_wf()
        &&& is_edge_order(self.links(), self.nodes().len(), self.order())
        &&& self.nodes().len() <= GRAPH_CAPACITY
        &&& self.links().len() <= GRAPH_CAPACITY
        &&& forall|i: int|
            0 <= i < self.nodes().len() ==> self.names().contains_key(
                (#[trigger] self.nodes()[i]).id@,
            ) && self.names()[self.nodes()[i].id@] == i
        &&& forall|k: Seq<char>| #[trigger]
            self.names().contains_key(k) ==> self.names()[k] < self.nodes().len()
                && self.nodes()[self.names()[k] as int].id@ == k
        &&& forall|e: int|
            0 <= e < self.links().len() ==> {
                &&& 0 <= (#[trigger] self.links()[e]).source < self.nodes().len()
                &&& 0 <= self.links()[e].target < self.nodes().len()
                &&& self.links()[e].edge.is_critical == (self.links()[e].edge.weight
                    > CRITICAL_WEIGHT)
            }
    }

    /// A graph without nodes, edges and stress samples.
    pub fn new() -> (g: Self)
        ensures
            g.wf(),
            g.nodes() == Seq::<ComponentNode>::empty(),
            g.links() == Seq::<Link>::empty(),
            g.order() == Seq::<Seq<int>>::empty(),
            g.names() == Map::<Seq<char>, usize>::empty(),
            g.samples() == Seq::<u64>::empty(),
    {
        DependencyGraph {
            graph: digraph_new(),
            node_map: StringHashMap::new(),
            stress_monitor: StressMonitor::new(),
        }
    }

    /// The number of nodes.
    pub fn node_count(&self) -> (n: usize)
        ensures
            n == self.nodes().len(),
    {
        digraph_node_count(&self.graph)
    }

    /// The number of edges.
    pub fn edge_count(&self) -> (n: usize)
        ensures
            n == self.links().len(),
    {
        digraph_edge_count(&self.graph)
    }

    /// Puts `component` into the graph and returns its index. A component
    /// whose id is in the graph already is turned away, and so is any
    /// component once the graph is full; the graph then stays as it is.
    pub fn add_component(&mut self, component: ComponentNode) -> (r: Result<usize, BubblingError>)
        requires
            old(self).wf(),
        ensures
            final(self).wf(),
            final(self).links() == old(self).links(),
            final(self).samples() == old(self).samples(),
            r is Ok ==> final(self).order() == old(self).order().push(Seq::<int>::empty()),
            r is Err ==> final(self).order() == old(self).order(),
            old(self).names().contains_key(component.id@) ==> {
                &&& r matches Err(e) && e@ == rejected_view(
                    "Component is in the graph already: "@ + component.id@,
                    "DependencyGraph::add_component"@,
                )
                &&& final(self).nodes() == old(self).nodes()
                &&& final(self).names() == old(self).names()
            },
            !old(self).names().contains_key(component.id@) && old(self).nodes().len()
                >= GRAPH_CAPACITY ==> {
                &&& r matches Err(e) && e@ == rejected_view(
                    "Graph is full"@,
                    "DependencyGraph::add_component"@,
                )
                &&& final(self).nodes() == old(self).nodes()
                &&& final(self).names() == old(self).names()
            },
            !old(self).names().contains_key(component.id@) && old(self).nodes().len()
                < GRAPH_CAPACITY ==> {
                &&& r == Ok::<usize, BubblingError>(old(self).nodes().len() as usize)
                &&& final(self).nodes() == old(self).nodes().push(component)
                &&& final(self).names() == old(self).names().insert(
                    component.id@,
                    old(self).nodes().len() as usize,
                )
            },
    {
        if self.node_map.contains_key(component.id.as_str()) {
            let message = String::from_str("Component is in the graph already: ").concat(
                component.id.as_str(),
            );
            return Err(
                resolving_error(message, "DependencyGraph::add_component", MISSING_STRESS, false),
            );
        }
        if self.node_count() >= GRAPH_CAPACITY {
            return Err(
                resolving_error(
                    String::from_str("Graph is full"),
                    "DependencyGraph::add_component",
                    MISSING_STRESS,
                    false,
                ),
            );
        }
        let id = component.id.clone();
        let index = digraph_add_node(&mut self.graph, component);
        self.node_map.insert(id, index);
        proof {
            let before = old(self).nodes();
            let after = self.nodes();
            assert forall|i: int| 0 <= i < after.len() implies self.names().contains_key(
                (#[trigger] after[i]).id@,
            ) && self.names()[after[i].id@] == i by {
                if i < before.len() {
                    assert(after[i] == before[i]);
                    assert(old(self).names().contains_key(before[i].id@));
                }
            }
            assert forall|k: Seq<char>| #[trigger] self.names().contains_key(k) implies self.names()[k]
                < after.len() && after[self.names()[k] as int].id@ == k by {
                if k != component.id@ {
                    assert(old(self).names().contains_key(k));
                }
            }
        }
        Ok(index)
    }

    /// Adds an edge from the node `from` to the node `to` and returns its
    /// index. Where one of the two is no node, or the graph is full, the edge
    /// is turned away and the graph stays as it is.
    pub fn add_dependency(&mut self, from: usize, to: usize, constraint: String, weight: u64) -> (r:
        Result<usize, BubblingError>)
        requires
            old(self).wf(),
        ensures
            final(self).wf(),
            final(self).nodes() == old(self).nodes(),
            final(self).names() == old(self).names(),
            final(self).samples() == old(self).samples(),
            r is Ok ==> final(self).order() == old(self).order().update(
                from as int,
                seq![old(self).links().len() as int] + old(self).order()[from as int],
            ),
            r is Err ==> final(self).order() == old(self).order(),
            from < old(self).nodes().len() && to < old(self).nodes().len() && old(self).links().len()
                < GRAPH_CAPACITY ==> {
                &&& r == Ok::<usize, BubblingError>(old(self).links().len() as usize)
                &&& final(self).links() == old(self).links().push(
                    Link {
                        source: from as int,
                        target: to as int,
                        edge: DependencyEdge {
                            constraint,
                            weight,
                            is_critical: weight > CRITICAL_WEIGHT,
                        },
                    },
                )
            },
            !(from < old(self).nodes().len() && to < old(self).nodes().len()) ==> {
                &&& r matches Err(e) && e@ == rejected_view(
                    "Edge joins no node"@,
                    "DependencyGraph::add_dependency"@,
                )
                &&& final(self).links() == old(self).links()
            },
            from < old(self).nodes().len() && to < old(self).nodes().len() && old(self).links().len()
                >= GRAPH_CAPACITY ==> {
                &&& r matches Err(e) && e@ == rejected_view(
                    "Graph is full"@,
                    "DependencyGraph::add_dependency"@,
                )
                &&& final(self).links() == old(self).links()
            },
    {
        let n = self.node_count();
        if from >= n || to >= n {
            return Err(
                resolving_error(
                    String::from_str("Edge joins no node"),
                    "DependencyGraph::add_dependency",
                    MISSING_STRESS,
                    false,
                ),
            );
        }
        if self.edge_count() >= GRAPH_CAPACITY {
            return Err(
                resolving_error(
                    String::from_str("Graph is full"),
                    "DependencyGraph::add_dependency",
                    MISSING_STRESS,
                    false,
                ),
            );
        }
        let edge = DependencyEdge::new(constraint, weight);
        let index = digraph_add_edge(&mut self.graph, from, to, edge);
        proof {
            let links0 = old(self).links();
            let order0 = old(self).order();
            let links1 = self.links();
            let order1 = self.order();
            let first = links0.len() as int;
            assert forall|node: int| 0 <= node < self.nodes().len() implies lists_edges_from(
                links1,
                node,
                #[trigger] order1[node],
            ) by {
                let before = order0[node];
                let after = order1[node];
                assert(lists_edges_from(links0, node, before));
                if node == from {
                    assert(after =~= seq![first] + before);
                    assert forall|k: int| 0 <= k < after.len() implies 0 <= #[trigger] after[k]
                        < links1.len() && links1[after[k]].source == node by {
                        if k > 0 {
                            assert(after[k] == before[k - 1]);
                            assert(links1[before[k - 1]] == links0[before[k - 1]]);
                        }
                    }
                    assert forall|j: int, k: int| 0 <= j < k < after.len() implies after[j]
                        != after[k] by {
                        assert(after[k] == before[k - 1]);
                        if j > 0 {
                            assert(after[j] == before[j - 1]);
                        }
                    }
                    assert forall|e: int|
                        0 <= e < links1.len() && (#[trigger] links1[e]).source
                            == node implies after.contains(e) by {
                        if e == first {
                            assert(after[0] == e);
                        } else {
                            assert(links0[e].source == node);
                            assert(before.contains(e));
                            let k = choose|k: int| 0 <= k < before.len() && before[k] == e;
                            assert(after[k + 1] == e);
                        }
                    }
                } else {
                    assert(after == before);
                    assert forall|k: int| 0 <= k < after.len() implies 0 <= #[trigger] after[k]
                        < links1.len() && links1[after[k]].source == node by {
                        assert(links1[before[k]] == links0[before[k]]);
                    }
                    assert forall|e: int|
                        0 <= e < links1.len() && (#[trigger] links1[e]).source
                            == node implies after.contains(e) by {
                        assert(e != first);
                        assert(links0[e].source == node);
                    }
                }
            }
        }
        Ok(index)
    }

    /// The index of the component `id`.
    pub fn get_by_name(&self, id: &str) -> (r: Result<usize, BubblingError>)
        requires
            self.wf(),
        ensures
            self.names().contains_key(id@) ==> r == Ok::<usize, BubblingError>(self.names()[id@]),
            !self.names().contains_key(id@) ==> (r matches Err(e) && e@ == not_found_view(
                id@,
                "DependencyGraph::get_by_name"@,
                LOOKUP_STRESS as nat,
            )),
            r matches Ok(index) ==> (index < self.nodes().len() && self.nodes()[index as int].id@
                == id@),
    {
        match self.node_map.get(id) {
            Some(index) => Ok(*index),
            None => Err(not_found(id, "DependencyGraph::get_by_name", LOOKUP_STRESS)),
        }
    }

    /// The ids of the components on a shortest walk from the component `from`
    /// to the component `to`, both included.
    pub fn resolve_path(&self, from: &str, to: &str) -> (r: Result<Vec<String>, BubblingError>)
        requires
            self.wf(),
        ensures
            !self.names().contains_key(from@) ==> (r matches Err(e) && e@ == not_found_view(
                from@,
                "DependencyGraph::resolve_path"@,
                LOOKUP_STRESS as nat,
            )),
            self.names().contains_key(from@) && !self.names().contains_key(to@) ==> (r matches Err(
                e,
            ) && e@ == not_found_view(to@, "DependencyGraph::resolve_path"@, LOOKUP_STRESS as nat)),
            self.names().contains_key(from@) && self.names().contains_key(to@) && !reaches(
                self.links(),
                self.names()[from@] as int,
                self.names()[to@] as int,
            ) ==> (r matches Err(e) && e@ == no_path_view(from@, to@)),
            self.names().contains_key(from@) && self.names().contains_key(to@) && reaches(
                self.links(),
                self.names()[from@] as int,
                self.names()[to@] as int,
            ) ==> (r matches Ok(path) && is_shortest_path(
                self.nodes(),
                self.links(),
                self.names()[from@] as int,
                self.names()[to@] as int,
                texts(path@),
            )),
    {
        let start = match self.node_map.get(from) {
            Some(index) => *index,
            None => {
                return Err(not_found(from, "DependencyGraph::resolve_path", LOOKUP_STRESS));
            },
        };
        let goal = match self.node_map.get(to) {
            Some(index) => *index,
            None => {
                return Err(not_found(to, "DependencyGraph::resolve_path", LOOKUP_STRESS));
            },
        };
        let ghost nodes = self.nodes();
        let ghost links = self.links();
        proof {
            assert(self.names().contains_key(from@));
            assert(self.names().contains_key(to@));
        }
        let n = self.node_count();
        let hops = digraph_hops(&self.graph, start, goal);
        let total: u64 = match hops[goal] {
            Some(d) => d,
            None => {
                let mut message = String::from_str("No path found from ");
                message.append(from);
                message.append(" to ");
                message.append(to);
                return Err(
                    resolving_error(message, "DependencyGraph::resolve_path", PATHFIND_STRESS, true),
                );
            },
        };
        let count = self.edge_count();
        let mut reversed: Vec<usize> = Vec::new();
        reversed.push(goal);
        let mut current: usize = goal;
        let mut remaining: u64 = total;
        let ghost mut walk: Seq<int> = seq![goal as int];
        while current != start
            invariant
                self.wf(),
                nodes == self.nodes(),
                links == self.links(),
                n == nodes.len(),
                count == links.len(),
                start < n,
                goal < n,
                current < n,
                is_hop_count(links, n as nat, start as int, goal as int, hops@),
                hops@[goal as int] == Some(total),
                hops@[current as int] == Some(remaining),
                is_walk(links, walk),
                walk[0] == current,
                walk.last() == goal,
                walk.len() + remaining == total + 1,
                reversed@.len() == walk.len(),
                forall|k: int| 0 <= k < walk.len() ==> 0 <= #[trigger] walk[k] < n && walk[k]
                    == reversed@[walk.len() - 1 - k],
            decreases remaining,
        {
            proof {
                assert(hops@[current as int] is Some);
                assert(has_step_into(links, hops@, current as int));
            }
            let mut e: usize = 0;
            let mut before: Option<usize> = None;
            while e < count && before.is_none()
                invariant
                    self.wf(),
                    links == self.links(),
                    n == self.nodes().len(),
                    count == links.len(),
                    e <= count,
                    current < n,
                    remaining >= 1,
                    hops@.len() == n,
                    hops@[current as int] == Some(remaining),
                    before is None ==> forall|j: int|
                        0 <= j < e ==> !((#[trigger] links[j]).target == current
                            && hops@[links[j].source] == Some((remaining - 1) as u64)),
                    before matches Some(p) ==> p < n && hops@[p as int] == Some(
                        (remaining - 1) as u64,
                    ) && has_edge(links, p as int, current as int),
                decreases count - e,
            {
                match digraph_endpoints(&self.graph, e) {
                    Some(ends) => {
                        proof {
                            assert(0 <= links[e as int].source < n);
                        }
                        if ends.target == current {
                            let fits = match hops[ends.source] {
                                Some(d) => d == remaining - 1,
                                None => false,
                            };
                            if fits {
                                before = Some(ends.source);
                            }
                        }
                    },
                    None => {},
                }
                e += 1;
            }
            let previous = match before {
                Some(p) => p,
                None => {
                    proof {
                        let j = choose|j: int|
                            0 <= j < links.len() && (#[trigger] links[j]).target == current && 0
                                <= links[j].source < hops@.len() && hops@[links[j].source] == Some(
                                (hops@[current as int]->0 - 1) as u64,
                            );
                        assert(!((links[j]).target == current && hops@[links[j].source] == Some(
                            (remaining - 1) as u64,
                        )));
                        assert(false);
                    }
                    start
                },
            };
            proof {
                let longer = seq![previous as int] + walk;
                assert forall|k: int| 0 <= k < longer.len() - 1 implies has_edge(
                    links,
                    #[trigger] longer[k],
                    longer[k + 1],
                ) by {
                    if k > 0 {
                        assert(longer[k] == walk[k - 1]);
                        assert(longer[k + 1] == walk[k]);
                        assert(has_edge(links, walk[k - 1], walk[k]));
                    } else {
                        assert(longer[1] == walk[0]);
                    }
                }
                assert(longer.last() == walk.last());
                walk = longer;
            }
            reversed.push(previous);
            current = previous;
            remaining = remaining - 1;
            proof {
                assert forall|k: int| 0 <= k < walk.len() implies 0 <= #[trigger] walk[k] < n
                    && walk[k] == reversed@[walk.len() - 1 - k] by {
                }
            }
        }
        let mut path: Vec<String> = Vec::new();
        let mut k: usize = reversed.len();
        while k > 0
            invariant
                self.wf(),
                nodes == self.nodes(),
                n == nodes.len(),
                k <= reversed@.len(),
                reversed@.len() == walk.len(),
                path@.len() == reversed@.len() - k,
                forall|j: int| 0 <= j < walk.len() ==> 0 <= #[trigger] walk[j] < n && walk[j]
                    == reversed@[walk.len() - 1 - j],
                forall|j: int| 0 <= j < path@.len() ==> (#[trigger] path@[j])@ == nodes[walk[j]].id@,
            decreases k,
        {
            k -= 1;
            proof {
                let j = reversed@.len() - 1 - k;
                assert(walk[j] == reversed@[k as int]);
            }
            match self.node(reversed[k]) {
                Some(node) => {
                    path.push(node.id.clone());
                },
                None => {},
            }
        }
        proof {
            assert(remaining == 0);
            assert(texts(path@) =~= Seq::new(walk.len(), |k: int| nodes[walk[k]].id@));
            assert forall|other: Seq<int>| #[trigger]
                is_walk(links, other) && other[0] == start && other.last() == goal implies other.len()
                >= walk.len() by {}
            assert(reaches(links, start as int, goal as int));
        }
        Ok(path)
    }

    /// Whether a component `id` is in the graph.
    pub fn contains(&self, id: &str) -> (r: bool)
        ensures
            r == self.names().contains_key(id@),
    {
        self.node_map.contains_key(id)
    }

    /// The node at `index`, if there is one.
    pub fn node(&self, index: usize) -> (r: Option<&ComponentNode>)
        ensures
            index < self.nodes().len() ==> r == Some(&self.nodes()[index as int]),
            index >= self.nodes().len() ==> r is None,
    {
        if index < self.node_count() {
            Some(digraph_node(&self.graph, index))
        } else {
            None
        }
    }

    /// The edge at `index`, if there is one.
    pub fn edge(&self, index: usize) -> (r: Option<EdgeReference>)
        requires
            self.wf(),
        ensures
            index < self.links().len() ==> (r matches Some(e) && e.index == index && e.shows(
                self.links(),
            )),
            index >= self.links().len() ==> r is None,
    {
        if index >= self.edge_count() {
            return None;
        }
        match digraph_endpoints(&self.graph, index) {
            Some(ends) => Some(
                EdgeReference {
                    index,
                    source: ends.source,
                    target: ends.target,
                    weight: digraph_edge(&self.graph, index).clone(),
                },
            ),
            None => None,
        }
    }

    /// The edges that leave the node `index`, in the order in which the graph
    /// lists them; none where `index` is no node.
    pub fn outgoing_edges(&self, index: usize) -> (r: Vec<EdgeReference>)
        requires
            self.wf(),
        ensures
            r@.len() == edges_from(self.order(), index as int).len(),
            forall|k: int|
                0 <= k < r@.len() ==> (#[trigger] r@[k]).index == edges_from(
                    self.order(),
                    index as int,
                )[k] && r@[k].shows(self.links()) && r@[k].source == index,
    {
        let mut found: Vec<EdgeReference> = Vec::new();
        if index >= self.node_count() {
            return found;
        }
        let list = digraph_outgoing(&self.graph, index);
        let ghost listed = list@.map_values(|e: usize| e as int);
        let mut k: usize = 0;
        while k < list.len()
            invariant
                self.wf(),
                index < self.nodes().len(),
                k <= list@.len(),
                listed == list@.map_values(|e: usize| e as int),
                listed == self.order()[index as int],
                lists_edges_from(self.links(), index as int, listed),
                found@.len() == k,
                forall|j: int|
                    0 <= j < k ==> (#[trigger] found@[j]).index == listed[j] && found@[j].shows(
                        self.links(),
                    ) && found@[j].source == index,
            decreases list@.len() - k,
        {
            proof {
                assert(listed[k as int] == list@[k as int]);
                assert(0 <= listed[k as int] < self.links().len());
            }
            match self.edge(list[k]) {
                Some(edge) => {
                    found.push(edge);
                },
                None => {},
            }
            k += 1;
        }
        found
    }

    /// Takes the edge at `index` out of the graph; the last edge takes its
    /// index.
    pub(crate) fn remove_edge(&mut self, index: usize) -> (r: Option<DependencyEdge>)
        requires
            old(self).wf(),
        ensures
            final(self).wf(),
            final(self).nodes() == old(self).nodes(),
            final(self).names() == old(self).names(),
            final(self).samples() == old(self).samples(),
            index < old(self).links().len() ==> r == Some(old(self).links()[index as int].edge)
                && final(self).links() == without_edge(old(self).links(), index as int),
            index >= old(self).links().len() ==> final(self).order() == old(self).order(),
            index >= old(self).links().len() ==> r is None && final(self).links() == old(
                self,
            ).links(),
    {
        if index >= self.edge_count() {
            return None;
        }
        let removed = digraph_remove_edge(&mut self.graph, index);
        proof {
            let before = old(self).links();
            let after = self.links();
            assert forall|e: int| 0 <= e < after.len() implies {
                &&& 0 <= (#[trigger] after[e]).source < self.nodes().len()
                &&& 0 <= after[e].target < self.nodes().len()
                &&& after[e].edge.is_critical == (after[e].edge.weight > CRITICAL_WEIGHT)
            } by {
                if e == index {
                    assert(after[e] == before.last());
                    assert(before.last() == before[before.len() - 1]);
                } else {
                    assert(after[e] == before[e]);
                }
            }
        }
        removed
    }

    /// Pins the classifier of the node at `index` to stable. Without such a
    /// node nothing changes.
    pub(crate) fn pin_stable(&mut self, index: usize)
        requires
            old(self).wf(),
        ensures
            final(self).wf(),
            final(self).links() == old(self).links(),
            final(self).order() == old(self).order(),
            final(self).names() == old(self).names(),
            final(self).samples() == old(self).samples(),
            index < old(self).nodes().len() ==> final(self).nodes() == old(self).nodes().update(
                index as int,
                pinned(old(self).nodes()[index as int]),
            ),
            index >= old(self).nodes().len() ==> final(self).nodes() == old(self).nodes(),
    {
        if index >= self.node_count() {
            return ;
        }
        let node = digraph_node_mut(&mut self.graph, index);
        node.version.classifier = Some(Classifier::Stable);
        proof {
            let before = old(self).nodes();
            let after = self.nodes();
            assert forall|i: int| 0 <= i < after.len() implies self.names().contains_key(
                (#[trigger] after[i]).id@,
            ) && self.names()[after[i].id@] == i by {
                assert(after[i].id == before[i].id);
            }
            assert forall|k: Seq<char>| #[trigger] self.names().contains_key(k) implies self.names()[k]
                < after.len() && after[self.names()[k] as int].id@ == k by {
                assert(after[self.names()[k] as int].id == before[self.names()[k] as int].id);
            }
        }
    }

    /// The strongly connected components of the graph.
    pub fn strongly_connected_components(&self) -> (components: Vec<Vec<usize>>)
        ensures
            is_scc_partition(self.nodes().len(), self.links(), components@),
    {
        digraph_scc(&self.graph)
    }

    /// Takes a stress sample in.
    pub fn add_stress_sample(&mut self, stress: u64)
        requires
            old(self).wf(),
        ensures
            final(self).wf(),
            final(self).nodes() == old(self).nodes(),
            final(self).links() == old(self).links(),
            final(self).order() == old(self).order(),
            final(self).names() == old(self).names(),
            final(self).samples() == pushed(old(self).samples(), stress),
    {
        self.stress_monitor.add_sample(stress);
    }

    /// The mean of the stress samples held.
    pub fn current_stress(&self) -> (r: u64)
        requires
            self.wf(),
        ensures
            r == mean(self.samples()),
    {
        self.stress_monitor.current_stress()
    }
}

} // verus!
