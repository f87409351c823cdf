//! Best-first resolution: nodes are expanded in the order of the cost that
//! led to them plus an estimate of what they will cost.

use crate::error::resolving_error;
use crate::error::BubblingError;
use crate::error::BubblingErrorView;
use crate::error::ErrorKind;
use crate::error::MISSING_STRESS;
use crate::error::PATHFIND_STRESS;
use crate::graph::not_found;
use crate::graph::not_found_view;
use crate::graph::DependencyGraph;
use crate::resolver::as_ints;
use crate::resolver::lemma_known_all;
use crate::resolver::Resolution;
use crate::resolver::ResolutionResult;
use crate::resolver::ResolutionStrategy;
use crate::resolver::SemverXResolver;
use crate::types::ComponentNode;
use vstd::prelude::*;

verus! {

/// What each dependency of a node adds to the node's estimate.
pub const COST_PER_DEPENDENCY: u64 = 500;

/// The estimate for a node that is not in the graph.
pub const MISSING_NODE_COST: u64 = 100_000;

/// A node waiting to be expanded.
#[derive(Clone, Copy, Debug)]
pub struct AStarNode {
    /// The node's index in the graph.
    pub index: usize,
    /// The weight of the edges that led here from the root.
    pub cost: u64,
    /// The estimate of what is still to come.
    pub heuristic: u64,
    /// The node that this one was reached from.
    pub parent: Option<usize>,
}

/// The sum of two costs, held at the largest `u64` where it would pass it.
pub open spec fn capped_sum(a: nat, b: nat) -> nat {
    if a + b > u64::MAX {
        u64::MAX as nat
    } else {
        a + b
    }
}

/// The product of two costs, held at the largest `u64` where it would pass it.
pub open spec fn capped_product(a: nat, b: nat) -> nat {
    if a * b > u64::MAX {
        u64::MAX as nat
    } else {
        a * b
    }
}

impl AStarNode {
    /// The cost by which waiting nodes are ordered: what led here plus what
    /// is estimated to come.
    pub open spec fn total(self) -> nat {
        capped_sum(self.cost as nat, self.heuristic as nat)
    }

    /// A waiting node without a parent.
    pub fn new(index: usize, cost: u64, heuristic: u64) -> (node: Self)
        ensures
            node == (AStarNode { index, cost, heuristic, parent: None }),
    {
        AStarNode { index, cost, heuristic, parent: None }
    }

    /// Computes `total`.
    pub fn total_cost(&self) -> (t: u64)
        ensures
            t == self.total(),
    {
        self.cost.saturating_add(self.heuristic)
    }
}

/// The estimate for the node at `index`: its stress plus a half for each of
/// its dependencies, or a hundred where there is no such node.
pub open spec fn heuristic_of(nodes: Seq<ComponentNode>, index: int) -> nat {
    if 0 <= index < nodes.len() {
        capped_sum(
            nodes[index].health.stress_level as nat,
            capped_product(nodes[index].dependencies@.len(), COST_PER_DEPENDENCY as nat),
        )
    } else {
        MISSING_NODE_COST as nat
    }
}

/// Whether every required dependency of the node at `index` names a
/// component of the graph.
pub open spec fn node_complete(
    nodes: Seq<ComponentNode>,
    names: Map<Seq<char>, usize>,
    index: int,
) -> bool {
    forall|d: int|
        0 <= d < nodes[index].dependencies@.len() ==> ((#[trigger] nodes[index].dependencies@[d]).is_required()
            ==> names.contains_key(nodes[index].dependencies@[d].name@))
}

/// Whether every node marked in `visited` is complete.
pub open spec fn is_complete(
    nodes: Seq<ComponentNode>,
    names: Map<Seq<char>, usize>,
    visited: Seq<bool>,
) -> bool {
    forall|i: int|
        0 <= i < visited.len() && 0 <= i < nodes.len() && #[trigger] visited[i] ==> node_complete(
            nodes,
            names,
            i,
        )
}

/// The place in `open[..upto]` of the first node with the lowest total cost.
pub open spec fn lowest(open: Seq<AStarNode>, upto: int) -> int
    decreases upto,
{
    if upto <= 1 {
        0
    } else if open[upto - 1].total() < open[lowest(open, upto - 1)].total() {
        upto - 1
    } else {
        lowest(open, upto - 1)
    }
}

/// `lowest` is a place in the list.
pub proof fn lemma_lowest_in_range(open: Seq<AStarNode>, upto: int)
    requires
        1 <= upto <= open.len(),
    ensures
        0 <= lowest(open, upto) < upto,
    decreases upto,
{
    if upto > 1 {
        lemma_lowest_in_range(open, upto - 1);
    }
}

/// Takes the first node with the lowest total cost out of the list.
pub fn pop_lowest(open: &mut Vec<AStarNode>) -> (node: AStarNode)
    requires
        old(open)@.len() > 0,
    ensures
        0 <= lowest(old(open)@, old(open)@.len() as int) < old(open)@.len(),
        node == old(open)@[lowest(old(open)@, old(open)@.len() as int)],
        final(open)@ == old(open)@.remove(lowest(old(open)@, old(open)@.len() as int)),
{
    let mut best: usize = 0;
    let mut i: usize = 1;
    while i < open.len()
        invariant
            1 <= i <= open@.len(),
            open@ == old(open)@,
            best == lowest(open@, i as int),
            best < i,
        decreases open@.len() - i,
    {
        if open[i].total_cost() < open[best].total_cost() {
            best = i;
        }
        i += 1;
    }
    open.remove(best)
}

/// The path that the parents in `came_from` lead back along from `end`,
/// root first, followed for at most `fuel` steps.
pub open spec fn chain(came_from: Seq<Option<usize>>, end: int, fuel: nat) -> Seq<int>
    decreases fuel,
{
    if fuel == 0 || !(0 <= end < came_from.len()) {
        seq![end]
    } else {
        match came_from[end] {
            Some(parent) => chain(came_from, parent as int, (fuel - 1) as nat).push(end),
            None => seq![end],
        }
    }
}

/// What best-first resolution of the component `id` comes to. The walk
/// starts at the component and stops at the first node it takes up whose
/// visited set is complete. The component is taken up first, and a set that
/// is incomplete once stays so: the walk ends at the component itself, in
/// one step, or it fails.
pub open spec fn a_star_model(graph: DependencyGraph, id: Seq<char>, max_iterations: nat) -> Result<
    Resolution,
    BubblingErrorView,
> {
    if !graph.names().contains_key(id) {
        Err(not_found_view(id, "resolve_a_star"@, MISSING_STRESS as nat))
    } else if max_iterations >= 1 && node_complete(
        graph.nodes(),
        graph.names(),
        graph.names()[id] as int,
    ) {
        Ok(
            Resolution {
                path: seq![graph.names()[id] as int],
                strategy: ResolutionStrategy::AStar,
                iterations: 1,
                stress_impact: 0,
            },
        )
    } else {
        Err(
            BubblingErrorView {
                kind: ErrorKind::Resolving,
                message: "A* resolution failed to find path"@,
                context: seq!["resolve_a_star"@],
                stress_level: PATHFIND_STRESS as nat,
                can_recover: true,
            },
        )
    }
}

impl SemverXResolver {
    /// The estimate of what the node at `node` will cost.
    pub fn heuristic_cost(&self, node: usize) -> (h: u64)
        requires
            self.wf(),
        ensures
            h == heuristic_of(self.graph.nodes(), node as int),
    {
        match self.graph.node(node) {
            Some(component) => {
                let count: u64 = component.dependencies.len() as u64;
                let dependency_cost: u64 = if count > u64::MAX / COST_PER_DEPENDENCY {
                    proof {
                        assert(count * COST_PER_DEPENDENCY > u64::MAX) by (nonlinear_arith)
                            requires
                                count > u64::MAX / COST_PER_DEPENDENCY,
                                COST_PER_DEPENDENCY == 500,
                        ;
                    }
                    u64::MAX
                } else {
                    proof {
                        assert(count * COST_PER_DEPENDENCY <= u64::MAX) by (nonlinear_arith)
                            requires
                                count <= u64::MAX / COST_PER_DEPENDENCY,
                                COST_PER_DEPENDENCY == 500,
                        ;
                    }
                    count * COST_PER_DEPENDENCY
                };
                component.health.stress_level.saturating_add(dependency_cost)
            },
            None => MISSING_NODE_COST,
        }
    }

    /// Whether every required dependency of the node at `index` is in the
    /// graph. A place without a node asks for nothing.
    pub fn is_node_complete(&self, index: usize) -> (r: bool)
        requires
            self.wf(),
        ensures
            index < self.graph.nodes().len() ==> r == node_complete(
                self.graph.nodes(),
                self.graph.names(),
                index as int,
            ),
            index >= self.graph.nodes().len() ==> r,
    {
        match self.graph.node(index) {
            Some(node) => {
                let mut d: usize = 0;
                while d < node.dependencies.len()
                    invariant
                        d <= node.dependencies@.len(),
                        index < self.graph.nodes().len(),
                        *node == self.graph.nodes()[index as int],
                        forall|j: int|
                            0 <= j < d ==> ((#[trigger] node.dependencies@[j]).is_required()
                                ==> self.graph.names().contains_key(node.dependencies@[j].name@)),
                    decreases node.dependencies@.len() - d,
                {
                    let dep = &node.dependencies[d];
                    if !dep.optional && !dep.dev && !self.graph.contains(dep.name.as_str()) {
                        return false;
                    }
                    d += 1;
                }
                true
            },
            None => true,
        }
    }

    /// Whether the nodes marked in `visited` ask for nothing that the graph
    /// lacks.
    pub fn is_resolution_complete(&self, visited: &Vec<bool>) -> (r: bool)
        requires
            self.wf(),
        ensures
            r == is_complete(self.graph.nodes(), self.graph.names(), visited@),
    {
        let n = self.graph.node_count();
        let mut i: usize = 0;
        while i < visited.len() && i < n
            invariant
                self.wf(),
                n == self.graph.nodes().len(),
                forall|j: int|
                    0 <= j < i && j < visited@.len() && #[trigger] visited@[j] ==> node_complete(
                        self.graph.nodes(),
                        self.graph.names(),
                        j,
                    ),
            decreases visited@.len() - i,
        {
            if visited[i] && !self.is_node_complete(i) {
                return false;
            }
            i += 1;
        }
        true
    }

    /// The path back from `end` along the parents in `came_from`, root first.
    pub fn reconstruct_path(&self, came_from: &Vec<Option<usize>>, end: usize) -> (path: Vec<usize>)
        ensures
            as_ints(path@) == chain(
                came_from@,
                end as int,
                came_from@.len(),
            ),
    {
        let mut reversed: Vec<usize> = Vec::new();
        reversed.push(end);
        let mut current: usize = end;
        let mut fuel: usize = came_from.len();
        let ghost whole = chain(came_from@, end as int, came_from@.len());
        proof {
            assert(Seq::<int>::empty() + seq![end as int] =~= seq![end as int]);
        }
        while fuel > 0 && current < came_from.len() && came_from[current].is_some()
            invariant
                fuel <= came_from@.len(),
                reversed@.len() >= 1,
                reversed@.last() == current,
                whole == chain(came_from@, current as int, fuel as nat) + as_ints(reversed@).reverse().drop_first(),
            decreases fuel,
        {
            let ghost tail = as_ints(reversed@).reverse().drop_first();
            let ghost before = reversed@;
            let parent = came_from[current].unwrap();
            reversed.push(parent);
            proof {
                let now = as_ints(reversed@).reverse();
                let was = as_ints(before).reverse();
                assert(now =~= seq![parent as int] + was);
                assert(was[0] == current as int);
                assert(was =~= seq![current as int] + tail);
                assert(now.drop_first() =~= seq![current as int] + tail);
                assert(chain(came_from@, parent as int, (fuel - 1) as nat).push(current as int) + tail
                    =~= chain(came_from@, parent as int, (fuel - 1) as nat) + now.drop_first());
            }
            current = parent;
            fuel -= 1;
        }
        let mut path: Vec<usize> = Vec::new();
        let mut k: usize = reversed.len();
        proof {
            let back = as_ints(reversed@).reverse();
            assert(chain(came_from@, current as int, fuel as nat) == seq![current as int]);
            assert(back[0] == current as int);
            assert(seq![current as int] + back.drop_first() =~= back);
        }
        while k > 0
            invariant
                k <= reversed@.len(),
                path@.len() == reversed@.len() - k,
                forall|j: int| 0 <= j < path@.len() ==> path@[j] == reversed@[reversed@.len() - 1 - j],
            decreases k,
        {
            k -= 1;
            path.push(reversed[k]);
        }
        proof {
            assert(as_ints(path@) =~= as_ints(reversed@).reverse());
        }
        path
    }

    /// Resolves the component `component_id` best first.
    pub fn resolve_a_star(&self, component_id: &str) -> (r: Result<ResolutionResult, BubblingError>)
        requires
            self.wf(),
        ensures
            match a_star_model(self.graph, component_id@, self.max_iterations as nat) {
                Ok(found) => r matches Ok(result) && result.shows(self.graph.nodes(), found),
                Err(view) => r matches Err(e) && e@ == view,
            },
    {
        let start = match self.graph.get_by_name(component_id) {
            Ok(index) => index,
            Err(_) => {
                return Err(not_found(component_id, "resolve_a_star", MISSING_STRESS));
            },
        };
        let n = self.graph.node_count();
        let ghost nodes = self.graph.nodes();
        let ghost names = self.graph.names();
        let mut open: Vec<AStarNode> = Vec::new();
        let mut closed: Vec<bool> = vec![false; n];
        let mut came_from: Vec<Option<usize>> = vec![None; n];
        let mut g_score: Vec<Option<u64>> = vec![None; n];
        let mut iterations: usize = 0;
        open.push(AStarNode::new(start, 0, self.heuristic_cost(start)));
        g_score.set(start, Some(0));
        while open.len() > 0 && iterations < self.max_iterations
            invariant
                self.wf(),
                nodes == self.graph.nodes(),
                names == self.graph.names(),
                n == nodes.len(),
                start < n,
                names.contains_key(component_id@),
                start == names[component_id@],
                closed@.len() == n,
                came_from@.len() == n,
                g_score@.len() == n,
                forall|k: int| 0 <= k < open@.len() ==> (#[trigger] open@[k]).index < n,
                iterations <= self.max_iterations,
                iterations == 0 ==> {
                    &&& open@.len() == 1
                    &&& open@[0].index == start
                    &&& open@[0].cost == 0
                    &&& forall|i: int| 0 <= i < n ==> !#[trigger] closed@[i]
                    &&& forall|i: int| 0 <= i < n ==> (#[trigger] came_from@[i]) is None
                },
                iterations > 0 ==> closed@[start as int] && !node_complete(nodes, names, start as int),
            decreases self.max_iterations - iterations,
        {
            let ghost first = iterations == 0;
            iterations += 1;
            proof {
                lemma_lowest_in_range(open@, open@.len() as int);
            }
            let current = pop_lowest(&mut open);
            if closed[current.index] {
                continue ;
            }
            closed.set(current.index, true);
            if self.is_resolution_complete(&closed) {
                proof {
                    if !first {
                        assert(closed@[start as int]);
                        assert(false);
                    }
                    assert(current.index == start);
                    assert(closed@[start as int]);
                    assert(node_complete(nodes, names, start as int));
                    assert(chain(came_from@, start as int, came_from@.len()) == seq![start as int]);
                }
                let path = self.reconstruct_path(&came_from, current.index);
                proof {
                    let shown = as_ints(path@);
                    assert(shown.len() == 1);
                    assert(shown[0] == path@[0] as int);
                    lemma_known_all(nodes.len(), shown);
                }
                return Ok(
                    self.extract_versions_from_indices(
                        &path,
                        ResolutionStrategy::AStar,
                        iterations,
                        current.cost / 10,
                    ),
                );
            }
            proof {
                if first {
                    assert(current.index == start);
                    if node_complete(nodes, names, start as int) {
                        assert forall|i: int|
                            0 <= i < closed@.len() && 0 <= i < nodes.len()
                                && #[trigger] closed@[i] implies node_complete(nodes, names, i) by {
                            assert(i == start);
                        }
                        assert(false);
                    }
                }
            }
            let base: u64 = match g_score[current.index] {
                Some(g) => g,
                None => current.cost,
            };
            let edges = self.graph.outgoing_edges(current.index);
            let mut k: usize = 0;
            while k < edges.len()
                invariant
                    self.wf(),
                    nodes == self.graph.nodes(),
                    n == nodes.len(),
                    current.index < n,
                    came_from@.len() == n,
                    g_score@.len() == n,
                    forall|j: int| 0 <= j < open@.len() ==> (#[trigger] open@[j]).index < n,
                    forall|j: int|
                        0 <= j < edges@.len() ==> (#[trigger] edges@[j]).shows(self.graph.links()),
                decreases edges@.len() - k,
            {
                let neighbor: usize = edges[k].target;
                let tentative: u64 = base.saturating_add(edges[k].weight.weight);
                proof {
                    assert(edges@[k as int].shows(self.graph.links()));
                    assert(neighbor < n);
                }
                let better = match g_score[neighbor] {
                    Some(g) => tentative < g,
                    None => true,
                };
                if better {
                    came_from.set(neighbor, Some(current.index));
                    g_score.set(neighbor, Some(tentative));
                    let mut next = AStarNode::new(neighbor, tentative, self.heuristic_cost(neighbor));
                    next.parent = Some(current.index);
                    open.push(next);
                }
                k += 1;
            }
        }
        Err(
            resolving_error(
                String::from_str("A* resolution failed to find path"),
                "resolve_a_star",
                PATHFIND_STRESS,
                true,
            ),
        )
    }
}

} // verus!
