//! Node-covering resolution: a depth-first search with backtracking for a
//! path from the component that takes in every node of the graph once.

use crate::astar::a_star_model;
use crate::error::BubblingError;
use crate::error::BubblingErrorView;
use crate::error::resolving_error;
use crate::error::ErrorKind;
use crate::error::MISSING_STRESS;
use crate::error::PATHFIND_STRESS;
use crate::graph::edges_from;
use crate::graph::has_edge;
use crate::graph::is_edge_order;
use crate::graph::not_found;
use crate::graph::not_found_view;
use crate::graph::DependencyGraph;
use crate::resolver::as_ints;
use crate::resolver::lemma_known_all;
use crate::resolver::Resolution;
use crate::resolver::ResolutionResult;
use crate::resolver::ResolutionStrategy;
use crate::resolver::SemverXResolver;
use crate::types::Link;
use vstd::prelude::*;

verus! {

/// What each node on the path adds to the stress of a resolution.
pub const STRESS_PER_NODE: u64 = 50;

/// Where a search stands: whether it has found its path, the path so far, and
/// the nodes it has entered.
pub struct Search {
    pub found: bool,
    pub path: Seq<int>,
    pub iterations: nat,
}

/// The search from `current`, which `path` has led to and does not hold yet.
/// Entering a node is one iteration; at the cap no node is entered. Once the
/// path holds all `n` nodes the search has found it. Else it goes on from
/// each edge of `current` in turn whose target the path does not hold, and
/// where none leads to the end, it leaves `current` again.
pub open spec fn search_from(
    links: Seq<Link>,
    order: Seq<Seq<int>>,
    n: nat,
    max_iterations: nat,
    current: int,
    path: Seq<int>,
    iterations: nat,
) -> Search
    decreases n - path.len(), 0int, 0int,
{
    if iterations >= max_iterations || path.len() >= n {
        Search { found: false, path, iterations }
    } else if path.len() + 1 == n {
        Search { found: true, path: path.push(current), iterations: iterations + 1 }
    } else {
        let tried = search_edges(
            links,
            order,
            n,
            max_iterations,
            current,
            path.push(current),
            iterations + 1,
            0,
        );
        if tried.found {
            tried
        } else {
            Search { found: false, path, iterations: tried.iterations }
        }
    }
}

/// The search through the edges of `current` from the `k`-th on, with
/// `current` at the end of `path`.
pub open spec fn search_edges(
    links: Seq<Link>,
    order: Seq<Seq<int>>,
    n: nat,
    max_iterations: nat,
    current: int,
    path: Seq<int>,
    iterations: nat,
    k: int,
) -> Search
    decreases n - path.len(), 1int, edges_from(order, current).len() - k,
{
    let out = edges_from(order, current);
    if k < 0 || k >= out.len() {
        Search { found: false, path, iterations }
    } else {
        let neighbor = links[out[k]].target;
        if path.contains(neighbor) {
            search_edges(links, order, n, max_iterations, current, path, iterations, k + 1)
        } else {
            let deeper = search_from(links, order, n, max_iterations, neighbor, path, iterations);
            if deeper.found {
                deeper
            } else {
                search_edges(links, order, n, max_iterations, current, path, deeper.iterations, k + 1)
            }
        }
    }
}

/// The number of nodes that `visited` does not mark.
pub open spec fn unvisited(visited: Seq<bool>) -> nat
    decreases visited.len(),
{
    if visited.len() == 0 {
        0
    } else {
        unvisited(visited.drop_last()) + if visited.last() {
            0nat
        } else {
            1nat
        }
    }
}

/// Marking a node leaves one node less unmarked; taking the mark away again
/// leaves one more.
pub proof fn lemma_unvisited_update(visited: Seq<bool>, i: int)
    requires
        0 <= i < visited.len(),
        !visited[i],
    ensures
        unvisited(visited) >= 1,
        unvisited(visited.update(i, true)) == unvisited(visited) - 1,
    decreases visited.len(),
{
    let marked = visited.update(i, true);
    if i == visited.len() - 1 {
        assert(marked.drop_last() =~= visited.drop_last());
    } else {
        lemma_unvisited_update(visited.drop_last(), i);
        assert(marked.drop_last() =~= visited.drop_last().update(i, true));
    }
}

/// Whether `visited` marks exactly the nodes on `path`.
pub open spec fn marks(visited: Seq<bool>, path: Seq<int>) -> bool {
    &&& forall|i: int| 0 <= i < visited.len() ==> (#[trigger] visited[i] <==> path.contains(i))
    &&& forall|k: int| 0 <= k < path.len() ==> 0 <= #[trigger] path[k] < visited.len()
}

/// The error of a search that has used up the cap without finding a path.
pub open spec fn search_capped_view() -> BubblingErrorView {
    BubblingErrorView {
        kind: ErrorKind::Resolving,
        message: "Hamiltonian resolution exceeded the iteration cap"@,
        context: seq!["resolve_hamiltonian"@],
        stress_level: PATHFIND_STRESS as nat,
        can_recover: true,
    }
}

/// What node-covering resolution of the component `id` comes to: the path
/// that the search finds; or, where the search has used up the cap without
/// finding one, an error that may be recovered from; or, where it ends within
/// the cap without a path, what best-first resolution comes to.
pub open spec fn hamiltonian_model(graph: DependencyGraph, id: Seq<char>, max_iterations: nat) -> Result<
    Resolution,
    BubblingErrorView,
> {
    if !graph.names().contains_key(id) {
        Err(not_found_view(id, "resolve_hamiltonian"@, MISSING_STRESS as nat))
    } else {
        let search = search_from(
            graph.links(),
            graph.order(),
            graph.nodes().len(),
            max_iterations,
            graph.names()[id] as int,
            Seq::empty(),
            0,
        );
        if search.found {
            Ok(
                Resolution {
                    path: search.path,
                    strategy: ResolutionStrategy::Hamiltonian,
                    iterations: search.iterations,
                    stress_impact: (search.path.len() * STRESS_PER_NODE) as nat,
                },
            )
        } else if search.iterations >= max_iterations {
            Err(search_capped_view())
        } else {
            a_star_model(graph, id, max_iterations)
        }
    }
}

/// A search never counts past the cap, and a path that it finds holds `n`
/// nodes.
pub proof fn lemma_search_bounds(
    links: Seq<Link>,
    order: Seq<Seq<int>>,
    n: nat,
    max_iterations: nat,
    current: int,
    path: Seq<int>,
    iterations: nat,
)
    requires
        iterations <= max_iterations,
    ensures
        search_from(links, order, n, max_iterations, current, path, iterations).iterations
            <= max_iterations,
        search_from(links, order, n, max_iterations, current, path, iterations).iterations >= iterations,
        search_from(links, order, n, max_iterations, current, path, iterations).found ==> search_from(
            links,
            order,
            n,
            max_iterations,
            current,
            path,
            iterations,
        ).path.len() == n,
    decreases n - path.len(), 0int, 0int,
{
    if iterations >= max_iterations || path.len() >= n {
    } else if path.len() + 1 == n {
    } else {
        lemma_edges_bounds(links, order, n, max_iterations, current, path.push(current), iterations + 1, 0);
    }
}

/// The same for the search through the edges of a node.
pub proof fn lemma_edges_bounds(
    links: Seq<Link>,
    order: Seq<Seq<int>>,
    n: nat,
    max_iterations: nat,
    current: int,
    path: Seq<int>,
    iterations: nat,
    k: int,
)
    requires
        iterations <= max_iterations,
    ensures
        search_edges(links, order, n, max_iterations, current, path, iterations, k).iterations
            <= max_iterations,
        search_edges(links, order, n, max_iterations, current, path, iterations, k).iterations
            >= iterations,
        search_edges(links, order, n, max_iterations, current, path, iterations, k).found ==> search_edges(
            links,
            order,
            n,
            max_iterations,
            current,
            path,
            iterations,
            k,
        ).path.len() == n,
    decreases n - path.len(), 1int, edges_from(order, current).len() - k,
{
    let out = edges_from(order, current);
    if k < 0 || k >= out.len() {
    } else {
        let neighbor = links[out[k]].target;
        if path.contains(neighbor) {
            lemma_edges_bounds(links, order, n, max_iterations, current, path, iterations, k + 1);
        } else {
            lemma_search_bounds(links, order, n, max_iterations, neighbor, path, iterations);
            let deeper = search_from(links, order, n, max_iterations, neighbor, path, iterations);
            if !deeper.found {
                lemma_edges_bounds(links, order, n, max_iterations, current, path, deeper.iterations, k + 1);
            }
        }
    }
}

/// Whether `path` leads along edges through nodes of the graph and through
/// none of them twice.
pub open spec fn is_simple_path(links: Seq<Link>, n: nat, path: Seq<int>) -> bool {
    &&& forall|j: int| 0 <= j < path.len() ==> 0 <= #[trigger] path[j] < n
    &&& forall|p: int, q: int| 0 <= p < q < path.len() ==> path[p] != path[q]
    &&& forall|j: int| 0 <= j < path.len() - 1 ==> has_edge(links, #[trigger] path[j], path[j + 1])
}

/// Whether every edge joins two of the `n` nodes.
pub open spec fn edges_join_nodes(links: Seq<Link>, n: nat) -> bool {
    forall|e: int|
        0 <= e < links.len() ==> 0 <= (#[trigger] links[e]).source < n && 0 <= links[e].target < n
}

/// A path with one more node at its end, which an edge leads to and which
/// the path did not hold, is a simple path again.
pub proof fn lemma_path_grows(links: Seq<Link>, n: nat, path: Seq<int>, next: int)
    requires
        is_simple_path(links, n, path),
        0 <= next < n,
        !path.contains(next),
        path.len() > 0 ==> has_edge(links, path.last(), next),
    ensures
        is_simple_path(links, n, path.push(next)),
{
    let longer = path.push(next);
    assert forall|p: int, q: int| 0 <= p < q < longer.len() implies longer[p] != longer[q] by {
        if q == path.len() {
            assert(longer[p] == path[p]);
            assert(path.contains(path[p]));
        } else {
            assert(longer[p] == path[p]);
            assert(longer[q] == path[q]);
        }
    }
    assert forall|j: int| 0 <= j < longer.len() - 1 implies has_edge(
        links,
        #[trigger] longer[j],
        longer[j + 1],
    ) by {
        if j < path.len() - 1 {
            assert(longer[j] == path[j]);
            assert(longer[j + 1] == path[j + 1]);
            assert(has_edge(links, path[j], path[j + 1]));
        } else {
            assert(longer[j] == path.last());
        }
    }
}

/// What the search finds is a path through all nodes: where the search from
/// `current` succeeds, its path starts with the path that led to `current`,
/// goes on through `current`, follows edges, and holds each of the `n`
/// nodes once.
pub proof fn lemma_search_sound(
    links: Seq<Link>,
    order: Seq<Seq<int>>,
    n: nat,
    max_iterations: nat,
    current: int,
    path: Seq<int>,
    iterations: nat,
)
    requires
        edges_join_nodes(links, n),
        is_edge_order(links, n, order),
        is_simple_path(links, n, path),
        0 <= current < n,
        !path.contains(current),
        path.len() > 0 ==> has_edge(links, path.last(), current),
    ensures
        ({
            let search = search_from(links, order, n, max_iterations, current, path, iterations);
            search.found ==> {
                &&& is_simple_path(links, n, search.path)
                &&& search.path.len() == n
                &&& search.path.subrange(0, path.len() as int + 1) == path.push(current)
            }
        }),
    decreases n - path.len(), 0int, 0int,
{
    if iterations >= max_iterations || path.len() >= n {
    } else {
        lemma_path_grows(links, n, path, current);
        let longer = path.push(current);
        if path.len() + 1 == n {
            assert(longer.subrange(0, path.len() as int + 1) =~= longer);
        } else {
            lemma_edges_sound(links, order, n, max_iterations, current, longer, iterations + 1, 0);
        }
    }
}

/// The same for the search through the edges of the node at the end of
/// `path`.
pub proof fn lemma_edges_sound(
    links: Seq<Link>,
    order: Seq<Seq<int>>,
    n: nat,
    max_iterations: nat,
    current: int,
    path: Seq<int>,
    iterations: nat,
    k: int,
)
    requires
        edges_join_nodes(links, n),
        is_edge_order(links, n, order),
        is_simple_path(links, n, path),
        path.len() > 0,
        path.last() == current,
        0 <= k,
    ensures
        ({
            let search = search_edges(links, order, n, max_iterations, current, path, iterations, k);
            search.found ==> {
                &&& is_simple_path(links, n, search.path)
                &&& search.path.len() == n
                &&& search.path.subrange(0, path.len() as int) == path
            }
        }),
    decreases n - path.len(), 1int, edges_from(order, current).len() - k,
{
    let out = edges_from(order, current);
    if k < out.len() {
        if 0 <= current < n {
            assert(out[k] == order[current][k]);
        }
        let neighbor = links[out[k]].target;
        assert(has_edge(links, current, neighbor));
        if path.contains(neighbor) {
            lemma_edges_sound(links, order, n, max_iterations, current, path, iterations, k + 1);
        } else {
            lemma_search_sound(links, order, n, max_iterations, neighbor, path, iterations);
            let deeper = search_from(links, order, n, max_iterations, neighbor, path, iterations);
            if deeper.found {
                assert(deeper.path.subrange(0, path.len() as int) =~= deeper.path.subrange(
                    0,
                    path.len() as int + 1,
                ).subrange(0, path.len() as int));
                assert(path.push(neighbor).subrange(0, path.len() as int) =~= path);
            } else {
                lemma_edges_sound(
                    links,
                    order,
                    n,
                    max_iterations,
                    current,
                    path,
                    deeper.iterations,
                    k + 1,
                );
            }
        }
    }
}

/// A resolution that node covering finds is a path from the component along
/// edges that holds every node of the graph once.
pub proof fn lemma_hamiltonian_covers(graph: DependencyGraph, id: Seq<char>, max_iterations: nat)
    requires
        graph.wf(),
        hamiltonian_model(graph, id, max_iterations) matches Ok(found) && found.strategy
            == ResolutionStrategy::Hamiltonian,
    ensures
        ({
            let found = hamiltonian_model(graph, id, max_iterations)->Ok_0;
            &&& is_simple_path(graph.links(), graph.nodes().len(), found.path)
            &&& found.path.len() == graph.nodes().len()
            &&& found.path[0] == graph.names()[id]
        }),
{
    let root = graph.names()[id] as int;
    let links = graph.links();
    let order = graph.order();
    let n = graph.nodes().len();
    let search = search_from(links, order, n, max_iterations, root, Seq::empty(), 0);
    assert(search.found) by {
        if !search.found {
            assert(a_star_model(graph, id, max_iterations) is Ok ==> a_star_model(
                graph,
                id,
                max_iterations,
            )->Ok_0.strategy == ResolutionStrategy::AStar);
        }
    }
    lemma_search_sound(links, order, n, max_iterations, root, Seq::empty(), 0);
    assert(search.path.subrange(0, 1)[0] == search.path[0]);
    assert(Seq::<int>::empty().push(root)[0] == root);
}

impl SemverXResolver {
    /// Searches from the node `current`, which is not on `path` yet, for a
    /// path through every node. Where the search fails, `visited` and `path`
    /// are as they were.
    pub fn find_hamiltonian_path(
        &self,
        current: usize,
        visited: &mut Vec<bool>,
        path: &mut Vec<usize>,
        iterations: &mut usize,
    ) -> (found: bool)
        requires
            self.wf(),
            current < self.graph.nodes().len(),
            old(visited)@.len() == self.graph.nodes().len(),
            marks(old(visited)@, as_ints(old(path)@)),
            !old(visited)@[current as int],
            *old(iterations) <= self.max_iterations,
        ensures
            ({
                let search = search_from(
                    self.graph.links(),
                    self.graph.order(),
                    self.graph.nodes().len(),
                    self.max_iterations as nat,
                    current as int,
                    as_ints(old(path)@),
                    *old(iterations) as nat,
                );
                &&& found == search.found
                &&& as_ints(final(path)@) == search.path
                &&& *final(iterations) == search.iterations
            }),
            final(visited)@.len() == self.graph.nodes().len(),
            marks(final(visited)@, as_ints(final(path)@)),
            *final(iterations) <= self.max_iterations,
            !found ==> final(visited)@ == old(visited)@ && final(path)@ == old(path)@,
        decreases unvisited(old(visited)@),
    {
        let n = self.graph.node_count();
        let ghost links = self.graph.links();
        let ghost order = self.graph.order();
        let ghost max = self.max_iterations as nat;
        let ghost path0 = as_ints(path@);
        let ghost visited0 = visited@;
        if *iterations >= self.max_iterations || path.len() >= n {
            return false;
        }
        *iterations += 1;
        visited.set(current, true);
        path.push(current);
        let ghost path1 = as_ints(path@);
        let ghost visited1 = visited@;
        proof {
            lemma_unvisited_update(visited0, current as int);
            assert(path1 =~= path0.push(current as int));
            assert forall|i: int| 0 <= i < visited1.len() implies (#[trigger] visited1[i]
                <==> path1.contains(i)) by {
                if i == current {
                    assert(path1[path1.len() - 1] == i);
                } else {
                    if path0.contains(i) {
                        let k = choose|k: int| 0 <= k < path0.len() && path0[k] == i;
                        assert(path1[k] == i);
                    }
                    if path1.contains(i) {
                        let k = choose|k: int| 0 <= k < path1.len() && path1[k] == i;
                        assert(path0[k] == i);
                    }
                }
            }
        }
        if path.len() == n {
            return true;
        }
        let edges = self.graph.outgoing_edges(current);
        let ghost out = edges_from(order, current as int);
        let mut k: usize = 0;
        while k < edges.len()
            invariant
                self.wf(),
                links == self.graph.links(),
                order == self.graph.order(),
                max == self.max_iterations as nat,
                n == self.graph.nodes().len(),
                current < n,
                out == edges_from(order, current as int),
                edges@.len() == out.len(),
                forall|j: int|
                    0 <= j < edges@.len() ==> (#[trigger] edges@[j]).index == out[j] && edges@[j].shows(
                        links,
                    ),
                k <= edges@.len(),
                visited0 == old(visited)@,
                path0 == as_ints(old(path)@),
                path1 == path0.push(current as int),
                path@ == old(path)@.push(current),
                *old(iterations) < self.max_iterations,
                visited1 == visited0.update(current as int, true),
                visited@ == visited1,
                as_ints(path@) == path1,
                path@.len() == path1.len(),
                path1.len() < n,
                visited1.len() == n,
                marks(visited1, path1),
                unvisited(visited1) == unvisited(visited0) - 1,
                *iterations <= self.max_iterations,
                search_edges(links, order, n as nat, max, current as int, path1, *old(iterations) as nat + 1, 0)
                    == search_edges(
                    links,
                    order,
                    n as nat,
                    max,
                    current as int,
                    path1,
                    *iterations as nat,
                    k as int,
                ),
            decreases edges@.len() - k,
        {
            let neighbor: usize = edges[k].target;
            proof {
                assert(edges@[k as int].shows(links));
                assert(neighbor == links[out[k as int]].target);
                assert(neighbor < n);
                assert(visited1[neighbor as int] <==> path1.contains(neighbor as int));
            }
            let ghost before = *iterations as nat;
            if !visited[neighbor] {
                if self.find_hamiltonian_path(neighbor, visited, path, iterations) {
                    proof {
                        let deeper = search_from(links, order, n as nat, max, neighbor as int, path1, before);
                        assert(deeper.found);
                        assert(search_edges(links, order, n as nat, max, current as int, path1, before, k as int)
                            == deeper);
                    }
                    return true;
                }
            }
            proof {
                assert(search_edges(links, order, n as nat, max, current as int, path1, before, k as int)
                    == search_edges(
                    links,
                    order,
                    n as nat,
                    max,
                    current as int,
                    path1,
                    *iterations as nat,
                    k + 1,
                ));
            }
            k += 1;
        }
        visited.set(current, false);
        let _ = path.pop();
        proof {
            assert(visited@ =~= visited0);
            assert(path@ =~= old(path)@);
        }
        false
    }

    /// Resolves the component `component_id` by covering the nodes. A search
    /// that uses up the cap without a path is an error that may be recovered
    /// from; a search that ends within the cap without a path hands on to
    /// best first.
    pub fn resolve_hamiltonian(&self, component_id: &str) -> (r: Result<
        ResolutionResult,
        BubblingError,
    >)
        requires
            self.wf(),
        ensures
            match hamiltonian_model(self.graph, component_id@, self.max_iterations as nat) {
                Ok(found) => r matches Ok(result) && result.shows(self.graph.nodes(), found),
                Err(view) => r matches Err(e) && e@ == view,
            },
    {
        let start = match self.graph.get_by_name(component_id) {
            Ok(index) => index,
            Err(_) => {
                return Err(not_found(component_id, "resolve_hamiltonian", MISSING_STRESS));
            },
        };
        let n = self.graph.node_count();
        let mut visited: Vec<bool> = vec![false; n];
        let mut path: Vec<usize> = Vec::new();
        let mut iterations: usize = 0;
        proof {
            assert(as_ints(path@) =~= Seq::<int>::empty());
            lemma_search_bounds(
                self.graph.links(),
                self.graph.order(),
                n as nat,
                self.max_iterations as nat,
                start as int,
                Seq::empty(),
                0,
            );
        }
        if self.find_hamiltonian_path(start, &mut visited, &mut path, &mut iterations) {
            proof {
                assert(as_ints(path@).len() == path@.len());
                assert forall|k: int| 0 <= k < path@.len() implies (#[trigger] path@[k]) < n by {
                    assert(as_ints(path@)[k] == path@[k] as int);
                }
                lemma_known_all(n as nat, as_ints(path@));
            }
            let impact: u64 = path.len() as u64 * STRESS_PER_NODE;
            Ok(
                self.extract_versions_from_indices(
                    &path,
                    ResolutionStrategy::Hamiltonian,
                    iterations,
                    impact,
                ),
            )
        } else if iterations >= self.max_iterations {
            Err(
                resolving_error(
                    String::from_str("Hamiltonian resolution exceeded the iteration cap"),
                    "resolve_hamiltonian",
                    PATHFIND_STRESS,
                    true,
                ),
            )
        } else {
            self.resolve_a_star(component_id)
        }
    }
}

} // verus!
