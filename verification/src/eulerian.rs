//! Edge-covering resolution: a walk in the manner of Hierholzer that crosses
//! every edge it can reach once, and checks each edge as it crosses it.

use crate::error::resolving_error;
use crate::error::BubblingError;
use crate::error::BubblingErrorView;
use crate::error::ErrorKind;
use crate::error::INCOMPATIBLE_STRESS;
use crate::error::LOOKUP_STRESS;
use crate::error::MISSING_STRESS;
use crate::error::PATHFIND_STRESS;
use crate::graph::edges_from;
use crate::graph::not_found_view;
use crate::graph::DependencyGraph;
use crate::hamiltonian::lemma_unvisited_update;
use crate::hamiltonian::unvisited;
use crate::range::range_error_view;
use crate::range::satisfies_model;
use crate::resolver::as_ints;
use crate::resolver::lemma_known_all;
use crate::resolver::Resolution;
use crate::resolver::ResolutionResult;
use crate::resolver::ResolutionStrategy;
use crate::resolver::SemverXResolver;
use crate::text::decimal;
use crate::text::render_number;
use crate::types::ComponentNode;
use crate::types::EdgeReference;
use crate::types::Link;
use vstd::prelude::*;

verus! {

/// What each edge crossed adds to the stress of a resolution.
pub const STRESS_PER_EDGE: u64 = 100;

/// The error for a node whose version does not lie in the range that an edge
/// into it asks for.
pub open spec fn incompatible_view(major: nat, constraint: Seq<char>) -> BubblingErrorView {
    BubblingErrorView {
        kind: ErrorKind::Resolving,
        message: "Version "@ + decimal(major) + " does not satisfy constraint "@ + constraint,
        context: seq!["validate_edge_compatibility"@],
        stress_level: INCOMPATIBLE_STRESS as nat,
        can_recover: true,
    }
}

/// The error for an edge with an end that is no node.
pub open spec fn dangling_view(message: Seq<char>) -> BubblingErrorView {
    BubblingErrorView {
        kind: ErrorKind::Resolving,
        message,
        context: seq!["validate_edge_compatibility"@],
        stress_level: MISSING_STRESS as nat,
        can_recover: false,
    }
}

/// Whether the step from the node `from` along an edge into `target` that
/// asks for `constraint` may be taken, or the error that forbids it.
pub open spec fn edge_check(
    nodes: Seq<ComponentNode>,
    from: int,
    target: int,
    constraint: Seq<char>,
) -> Result<(), BubblingErrorView> {
    if !(0 <= from < nodes.len()) {
        Err(dangling_view("Source node not found"@))
    } else if !(0 <= target < nodes.len()) {
        Err(dangling_view("Target node not found"@))
    } else {
        match satisfies_model(nodes[target].version@, constraint) {
            Err(f) => Err(range_error_view(f)),
            Ok(false) => Err(incompatible_view(nodes[target].version@.major, constraint)),
            Ok(true) => Ok(()),
        }
    }
}

/// Where a walk stands.
pub struct Tour {
    /// The nodes entered and not left yet, the latest last.
    pub stack: Seq<int>,
    /// For each edge, whether the walk has crossed it.
    pub crossed: Seq<bool>,
    /// The nodes left, in the order in which they were left.
    pub popped: Seq<int>,
    /// The steps taken.
    pub iterations: nat,
    /// The edges crossed.
    pub count: nat,
}

/// How a walk ends.
pub enum TourEnd {
    /// Every node entered has been left.
    Done(Tour),
    /// The cap was reached with nodes still to leave.
    Capped,
    /// An edge could not be crossed.
    Failed(BubblingErrorView),
}

/// The first of the edges `out[k..]` that has not been crossed.
pub open spec fn first_free(out: Seq<int>, crossed: Seq<bool>, k: int) -> Option<int>
    decreases out.len() - k,
{
    if k < 0 || k >= out.len() {
        None
    } else if !crossed[out[k]] {
        Some(out[k])
    } else {
        first_free(out, crossed, k + 1)
    }
}

/// The walk from the state `t` to its end. Each step looks at the node on
/// top of the stack: it crosses the first edge from there that has not been
/// crossed, checks it and enters its target; where no such edge is left, it
/// leaves the node.
pub open spec fn tour(
    nodes: Seq<ComponentNode>,
    links: Seq<Link>,
    order: Seq<Seq<int>>,
    max_iterations: nat,
    t: Tour,
) -> TourEnd
    decreases max_iterations - t.iterations,
{
    if t.stack.len() == 0 {
        TourEnd::Done(t)
    } else if t.iterations >= max_iterations {
        TourEnd::Capped
    } else {
        let top = t.stack.last();
        match first_free(edges_from(order, top), t.crossed, 0) {
            Some(e) => match edge_check(nodes, top, links[e].target, links[e].edge.constraint@) {
                Err(view) => TourEnd::Failed(view),
                Ok(_) => tour(
                    nodes,
                    links,
                    order,
                    max_iterations,
                    Tour {
                        stack: t.stack.push(links[e].target),
                        crossed: t.crossed.update(e, true),
                        popped: t.popped,
                        iterations: t.iterations + 1,
                        count: t.count + 1,
                    },
                ),
            },
            None => tour(
                nodes,
                links,
                order,
                max_iterations,
                Tour {
                    stack: t.stack.drop_last(),
                    crossed: t.crossed,
                    popped: t.popped.push(top),
                    iterations: t.iterations + 1,
                    count: t.count,
                },
            ),
        }
    }
}

/// The state in which a walk from `root` starts.
pub open spec fn tour_start(links: Seq<Link>, root: int) -> Tour {
    Tour {
        stack: seq![root],
        crossed: Seq::new(links.len(), |e: int| false),
        popped: Seq::empty(),
        iterations: 0,
        count: 0,
    }
}

/// The error of a walk that the cap has stopped.
pub open spec fn capped_view() -> BubblingErrorView {
    BubblingErrorView {
        kind: ErrorKind::Resolving,
        message: "Eulerian resolution exceeded the iteration cap"@,
        context: seq!["resolve_eulerian"@],
        stress_level: PATHFIND_STRESS as nat,
        can_recover: true,
    }
}

/// What edge-covering resolution of the component `id` comes to: the nodes
/// of the walk in the turned-around order of their leaving, a tenth of
/// stress for each edge crossed.
pub open spec fn eulerian_model(graph: DependencyGraph, id: Seq<char>, max_iterations: nat) -> Result<
    Resolution,
    BubblingErrorView,
> {
    if !graph.names().contains_key(id) {
        Err(not_found_view(id, "DependencyGraph::get_by_name"@, LOOKUP_STRESS as nat))
    } else {
        match tour(
            graph.nodes(),
            graph.links(),
            graph.order(),
            max_iterations,
            tour_start(graph.links(), graph.names()[id] as int),
        ) {
            TourEnd::Done(t) => Ok(
                Resolution {
                    path: t.popped.reverse(),
                    strategy: ResolutionStrategy::Eulerian,
                    iterations: t.iterations,
                    stress_impact: (t.count * STRESS_PER_EDGE) as nat,
                },
            ),
            TourEnd::Capped => Err(capped_view()),
            TourEnd::Failed(view) => Err(view),
        }
    }
}

/// A walk that ends has taken no more steps than the cap allows.
pub proof fn lemma_tour_bounded(
    nodes: Seq<ComponentNode>,
    links: Seq<Link>,
    order: Seq<Seq<int>>,
    max_iterations: nat,
    t: Tour,
)
    requires
        t.iterations <= max_iterations,
    ensures
        tour(nodes, links, order, max_iterations, t) matches TourEnd::Done(end) ==> end.iterations
            <= max_iterations,
    decreases max_iterations - t.iterations,
{
    if t.stack.len() > 0 && t.iterations < max_iterations {
        let top = t.stack.last();
        match first_free(edges_from(order, top), t.crossed, 0) {
            Some(e) => {
                if edge_check(nodes, top, links[e].target, links[e].edge.constraint@) is Ok {
                    lemma_tour_bounded(
                        nodes,
                        links,
                        order,
                        max_iterations,
                        Tour {
                            stack: t.stack.push(links[e].target),
                            crossed: t.crossed.update(e, true),
                            popped: t.popped,
                            iterations: t.iterations + 1,
                            count: t.count + 1,
                        },
                    );
                }
            },
            None => {
                lemma_tour_bounded(
                    nodes,
                    links,
                    order,
                    max_iterations,
                    Tour {
                        stack: t.stack.drop_last(),
                        crossed: t.crossed,
                        popped: t.popped.push(top),
                        iterations: t.iterations + 1,
                        count: t.count,
                    },
                );
            },
        }
    }
}

/// Whether the walk in the state `t` is a walk from `root`: the root is at
/// the bottom of the stack, or, once the stack is empty, the last node left.
pub open spec fn is_rooted(t: Tour, root: int) -> bool {
    if t.stack.len() > 0 {
        t.stack[0] == root
    } else {
        t.popped.len() > 0 && t.popped.last() == root
    }
}

/// A walk from `root` that ends has left `root` last: the path that it
/// hands back starts with `root`.
pub proof fn lemma_tour_rooted(
    nodes: Seq<ComponentNode>,
    links: Seq<Link>,
    order: Seq<Seq<int>>,
    max_iterations: nat,
    t: Tour,
    root: int,
)
    requires
        is_rooted(t, root),
    ensures
        tour(nodes, links, order, max_iterations, t) matches TourEnd::Done(end) ==> end.popped.len() > 0
            && end.popped.reverse()[0] == root,
    decreases max_iterations - t.iterations,
{
    if t.stack.len() > 0 && t.iterations < max_iterations {
        let top = t.stack.last();
        match first_free(edges_from(order, top), t.crossed, 0) {
            Some(e) => {
                if edge_check(nodes, top, links[e].target, links[e].edge.constraint@) is Ok {
                    let next = Tour {
                        stack: t.stack.push(links[e].target),
                        crossed: t.crossed.update(e, true),
                        popped: t.popped,
                        iterations: t.iterations + 1,
                        count: t.count + 1,
                    };
                    assert(next.stack[0] == t.stack[0]);
                    lemma_tour_rooted(nodes, links, order, max_iterations, next, root);
                }
            },
            None => {
                let next = Tour {
                    stack: t.stack.drop_last(),
                    crossed: t.crossed,
                    popped: t.popped.push(top),
                    iterations: t.iterations + 1,
                    count: t.count,
                };
                if next.stack.len() > 0 {
                    assert(next.stack[0] == t.stack[0]);
                } else {
                    assert(top == t.stack[0]);
                }
                lemma_tour_rooted(nodes, links, order, max_iterations, next, root);
            },
        }
    }
}

/// A resolution that edge covering finds starts with the component.
pub proof fn lemma_eulerian_starts_at_root(
    graph: DependencyGraph,
    id: Seq<char>,
    max_iterations: nat,
)
    requires
        eulerian_model(graph, id, max_iterations) is Ok,
    ensures
        eulerian_model(graph, id, max_iterations)->Ok_0.path.len() > 0,
        eulerian_model(graph, id, max_iterations)->Ok_0.path[0] == graph.names()[id],
{
    let root = graph.names()[id] as int;
    lemma_tour_rooted(
        graph.nodes(),
        graph.links(),
        graph.order(),
        max_iterations,
        tour_start(graph.links(), root),
        root,
    );
}

impl SemverXResolver {
    /// Checks the step from the node `from` along `edge`: the version of the
    /// edge's target has to lie in the range that the edge asks for.
    pub fn validate_edge_compatibility(&self, from: usize, edge: &EdgeReference) -> (r: Result<
        (),
        BubblingError,
    >)
        requires
            self.wf(),
        ensures
            match edge_check(
                self.graph.nodes(),
                from as int,
                edge.target as int,
                edge.weight.constraint@,
            ) {
                Ok(_) => r is Ok,
                Err(view) => r matches Err(e) && e@ == view,
            },
    {
        if self.graph.node(from).is_none() {
            return Err(
                resolving_error(
                    String::from_str("Source node not found"),
                    "validate_edge_compatibility",
                    MISSING_STRESS,
                    false,
                ),
            );
        }
        let to_node = match self.graph.node(edge.target) {
            Some(node) => node,
            None => {
                return Err(
                    resolving_error(
                        String::from_str("Target node not found"),
                        "validate_edge_compatibility",
                        MISSING_STRESS,
                        false,
                    ),
                );
            },
        };
        match to_node.version.satisfies(edge.weight.constraint.as_str()) {
            Err(e) => Err(e),
            Ok(true) => Ok(()),
            Ok(false) => {
                let mut message = String::from_str("Version ");
                message.append(render_number(to_node.version.major as u64).as_str());
                message.append(" does not satisfy constraint ");
                message.append(edge.weight.constraint.as_str());
                Err(
                    resolving_error(
                        message,
                        "validate_edge_compatibility",
                        INCOMPATIBLE_STRESS,
                        true,
                    ),
                )
            },
        }
    }

    /// Resolves the component `component_id` by covering the edges.
    pub fn resolve_eulerian(&self, component_id: &str) -> (r: Result<ResolutionResult, BubblingError>)
        requires
            self.wf(),
        ensures
            match eulerian_model(self.graph, component_id@, self.max_iterations as nat) {
                Ok(found) => r matches Ok(result) && result.shows(self.graph.nodes(), found),
                Err(view) => r matches Err(e) && e@ == view,
            },
    {
        let start = match self.graph.get_by_name(component_id) {
            Ok(index) => index,
            Err(e) => {
                return Err(e);
            },
        };
        let n = self.graph.node_count();
        let edge_count = self.graph.edge_count();
        let ghost nodes = self.graph.nodes();
        let ghost links = self.graph.links();
        let ghost order = self.graph.order();
        let ghost max = self.max_iterations as nat;
        let ghost whole = tour(nodes, links, order, max, tour_start(links, start as int));
        let mut stack: Vec<usize> = Vec::new();
        stack.push(start);
        let mut crossed: Vec<bool> = vec![false; edge_count];
        let mut popped: Vec<usize> = Vec::new();
        let mut iterations: usize = 0;
        let mut count: usize = 0;
        proof {
            assert(as_ints(stack@) =~= seq![start as int]);
            assert(crossed@ =~= Seq::new(links.len(), |e: int| false));
            assert(as_ints(popped@) =~= Seq::<int>::empty());
            lemma_none_crossed(crossed@);
        }
        while stack.len() > 0 && iterations < self.max_iterations
            invariant
                self.wf(),
                nodes == self.graph.nodes(),
                links == self.graph.links(),
                order == self.graph.order(),
                max == self.max_iterations as nat,
                n == nodes.len(),
                edge_count == links.len(),
                crossed@.len() == links.len(),
                iterations <= self.max_iterations,
                self.graph.names().contains_key(component_id@),
                self.graph.names()[component_id@] == start,
                whole == tour(nodes, links, order, max, tour_start(links, start as int)),
                count + unvisited(crossed@) == links.len(),
                forall|k: int| 0 <= k < stack@.len() ==> (#[trigger] stack@[k]) < n,
                forall|k: int| 0 <= k < popped@.len() ==> (#[trigger] popped@[k]) < n,
                whole == tour(
                    nodes,
                    links,
                    order,
                    max,
                    Tour {
                        stack: as_ints(stack@),
                        crossed: crossed@,
                        popped: as_ints(popped@),
                        iterations: iterations as nat,
                        count: count as nat,
                    },
                ),
            decreases self.max_iterations - iterations,
        {
            let top: usize = stack[stack.len() - 1];
            let ghost state = Tour {
                stack: as_ints(stack@),
                crossed: crossed@,
                popped: as_ints(popped@),
                iterations: iterations as nat,
                count: count as nat,
            };
            proof {
                assert(as_ints(stack@).last() == top as int);
            }
            iterations += 1;
            let edges = self.graph.outgoing_edges(top);
            let ghost out = edges_from(order, top as int);
            let mut k: usize = 0;
            while k < edges.len() && crossed[edges[k].index]
                invariant
                    k <= edges@.len(),
                    edges@.len() == out.len(),
                    crossed@.len() == links.len(),
                    forall|j: int|
                        0 <= j < edges@.len() ==> (#[trigger] edges@[j]).index == out[j] && edges@[j].shows(
                            links,
                        ) && edges@[j].source == top,
                    first_free(out, crossed@, 0) == first_free(out, crossed@, k as int),
                decreases edges@.len() - k,
            {
                proof {
                    assert(edges@[k as int].index == out[k as int]);
                }
                k += 1;
            }
            if k < edges.len() {
                let e: usize = edges[k].index;
                let target: usize = edges[k].target;
                proof {
                    assert(edges@[k as int].shows(links));
                    assert(first_free(out, crossed@, 0) == Some(e as int));
                    assert(target < n);
                    lemma_unvisited_update(crossed@, e as int);
                }
                let ghost before = as_ints(stack@);
                crossed.set(e, true);
                stack.push(target);
                count += 1;
                proof {
                    assert(as_ints(stack@) =~= before.push(target as int));
                }
                match self.validate_edge_compatibility(top, &edges[k]) {
                    Ok(_) => {},
                    Err(error) => {
                        proof {
                            assert(state.stack.len() > 0 && state.iterations < max);
                            assert(state.stack.last() == top as int);
                            assert(first_free(edges_from(order, top as int), state.crossed, 0) == Some(
                                e as int,
                            ));
                            assert(links[e as int].target == target as int);
                            assert(edges@[k as int].weight == links[e as int].edge);
                            assert(tour(nodes, links, order, max, state) == TourEnd::Failed(error@));
                        }
                        return Err(error);
                    },
                }
            } else {
                let ghost before_stack = as_ints(stack@);
                let ghost before_popped = as_ints(popped@);
                proof {
                    assert(first_free(out, crossed@, 0) is None);
                }
                let _ = stack.pop();
                popped.push(top);
                proof {
                    assert(as_ints(stack@) =~= before_stack.drop_last());
                    assert(as_ints(popped@) =~= before_popped.push(top as int));
                }
            }
        }
        if stack.len() > 0 {
            return Err(
                resolving_error(
                    String::from_str("Eulerian resolution exceeded the iteration cap"),
                    "resolve_eulerian",
                    PATHFIND_STRESS,
                    true,
                ),
            );
        }
        let mut path: Vec<usize> = Vec::new();
        let mut k: usize = popped.len();
        while k > 0
            invariant
                k <= popped@.len(),
                path@.len() == popped@.len() - k,
                forall|j: int| 0 <= j < path@.len() ==> path@[j] == popped@[popped@.len() - 1 - j],
            decreases k,
        {
            k -= 1;
            path.push(popped[k]);
        }
        proof {
            assert(as_ints(path@) =~= as_ints(popped@).reverse());
            assert(as_ints(stack@) =~= Seq::<int>::empty());
            assert forall|j: int| 0 <= j < path@.len() implies 0 <= #[trigger] as_ints(path@)[j]
                < nodes.len() by {
                assert(as_ints(path@)[j] == popped@[popped@.len() - 1 - j]);
            }
            lemma_known_all(nodes.len(), as_ints(path@));
        }
        let impact: u64 = count as u64 * STRESS_PER_EDGE;
        Ok(
            self.extract_versions_from_indices(
                &path,
                ResolutionStrategy::Eulerian,
                iterations,
                impact,
            ),
        )
    }
}

/// Where nothing is marked, everything is unmarked.
pub proof fn lemma_none_crossed(crossed: Seq<bool>)
    requires
        forall|e: int| 0 <= e < crossed.len() ==> !crossed[e],
    ensures
        unvisited(crossed) == crossed.len(),
    decreases crossed.len(),
{
    if crossed.len() > 0 {
        lemma_none_crossed(crossed.drop_last());
    }
}

} // verus!
