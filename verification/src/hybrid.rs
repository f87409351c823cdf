//! The entry point of resolution and the adaptive strategy, which tries the
//! others in an order that the stress decides.

use crate::astar::a_star_model;
use crate::error::resolving_error;
use crate::error::BubblingError;
use crate::error::BubblingErrorView;
use crate::error::ErrorKind;
use crate::error::EXHAUSTED_STRESS;
use crate::eulerian::capped_view;
use crate::eulerian::eulerian_model;
use crate::eulerian::tour;
use crate::eulerian::lemma_tour_bounded;
use crate::eulerian::tour_start;
use crate::graph::DependencyGraph;
use crate::hamiltonian::hamiltonian_model;
use crate::hamiltonian::search_capped_view;
use crate::hamiltonian::search_from;
use crate::hamiltonian::lemma_search_bounds;
use crate::health::DANGER_THRESHOLD;
use crate::resolver::strategy_for;
use crate::resolver::Resolution;
use crate::resolver::ResolutionResult;
use crate::resolver::ResolutionStrategy;
use crate::resolver::SemverXResolver;
use crate::stress::mean;
use vstd::prelude::*;

verus! {

/// The order in which the adaptive strategy tries the others: node covering
/// first while the stress is below six, best first from there on.
pub open spec fn hybrid_order(stress: nat) -> Seq<ResolutionStrategy> {
    if stress < DANGER_THRESHOLD {
        seq![
            ResolutionStrategy::Hamiltonian,
            ResolutionStrategy::AStar,
            ResolutionStrategy::Eulerian,
        ]
    } else {
        seq![
            ResolutionStrategy::AStar,
            ResolutionStrategy::Eulerian,
            ResolutionStrategy::Hamiltonian,
        ]
    }
}

/// The error of an adaptive resolution that had nothing to try.
pub open spec fn exhausted_view() -> BubblingErrorView {
    BubblingErrorView {
        kind: ErrorKind::Resolving,
        message: "All resolution strategies failed"@,
        context: seq!["resolve_hybrid"@],
        stress_level: EXHAUSTED_STRESS as nat,
        can_recover: false,
    }
}

/// What trying the strategies `order` one after the other comes to, with
/// `last` the latest failure so far: the first success; or the first failure
/// that cannot be recovered from, which ends the trying; or, where all fail,
/// the last failure.
pub open spec fn first_success(
    graph: DependencyGraph,
    id: Seq<char>,
    max_iterations: nat,
    order: Seq<ResolutionStrategy>,
    last: Option<BubblingErrorView>,
) -> Result<Resolution, BubblingErrorView>
    decreases order.len(),
{
    if order.len() == 0 {
        match last {
            Some(e) => Err(e),
            None => Err(exhausted_view()),
        }
    } else {
        match single_model(graph, id, max_iterations, order[0]) {
            Ok(found) => Ok(found),
            Err(e) => if e.can_recover {
                first_success(graph, id, max_iterations, order.drop_first(), Some(e))
            } else {
                Err(e)
            },
        }
    }
}

/// What one of the three plain strategies comes to.
pub open spec fn single_model(
    graph: DependencyGraph,
    id: Seq<char>,
    max_iterations: nat,
    strategy: ResolutionStrategy,
) -> Result<Resolution, BubblingErrorView> {
    match strategy {
        ResolutionStrategy::Eulerian => eulerian_model(graph, id, max_iterations),
        ResolutionStrategy::Hamiltonian => hamiltonian_model(graph, id, max_iterations),
        _ => a_star_model(graph, id, max_iterations),
    }
}

/// What adaptive resolution of the component `id` comes to.
pub open spec fn hybrid_model(graph: DependencyGraph, id: Seq<char>, max_iterations: nat) -> Result<
    Resolution,
    BubblingErrorView,
> {
    first_success(graph, id, max_iterations, hybrid_order(mean(graph.samples())), None)
}

/// What resolution of the component `id` comes to, with the strategy given
/// or, where none is given, the one that the stress calls for.
pub open spec fn resolve_model(
    graph: DependencyGraph,
    id: Seq<char>,
    max_iterations: nat,
    strategy: Option<ResolutionStrategy>,
) -> Result<Resolution, BubblingErrorView> {
    let chosen = match strategy {
        Some(s) => s,
        None => strategy_for(mean(graph.samples())),
    };
    match chosen {
        ResolutionStrategy::Hybrid => hybrid_model(graph, id, max_iterations),
        _ => single_model(graph, id, max_iterations, chosen),
    }
}

/// Where one of the strategies succeeds and none that is tried before it
/// fails for good, trying them in order succeeds.
pub proof fn lemma_first_success(
    graph: DependencyGraph,
    id: Seq<char>,
    max_iterations: nat,
    order: Seq<ResolutionStrategy>,
    last: Option<BubblingErrorView>,
    k: int,
)
    requires
        0 <= k < order.len(),
        single_model(graph, id, max_iterations, order[k]) is Ok,
        forall|j: int|
            0 <= j < k ==> (single_model(graph, id, max_iterations, #[trigger] order[j]) matches Err(e)
                ==> e.can_recover),
    ensures
        first_success(graph, id, max_iterations, order, last) is Ok,
    decreases order.len(),
{
    if k > 0 {
        match single_model(graph, id, max_iterations, order[0]) {
            Ok(_) => {},
            Err(e) => {
                assert(e.can_recover);
                assert forall|j: int| 0 <= j < k - 1 implies (single_model(
                    graph,
                    id,
                    max_iterations,
                    #[trigger] order.drop_first()[j],
                ) matches Err(e) ==> e.can_recover) by {
                    assert(order.drop_first()[j] == order[j + 1]);
                }
                assert(order.drop_first()[k - 1] == order[k]);
                lemma_first_success(
                    graph,
                    id,
                    max_iterations,
                    order.drop_first(),
                    Some(e),
                    k - 1,
                );
            },
        }
    }
}

/// Adaptive resolution loses no success: where one of the three strategies
/// succeeds on a graph, and none that the adaptive strategy tries before it
/// fails in a way that cannot be recovered from, adaptive resolution
/// succeeds.
pub proof fn lemma_hybrid_keeps_success(
    graph: DependencyGraph,
    id: Seq<char>,
    max_iterations: nat,
    k: int,
)
    requires
        0 <= k < 3,
        single_model(
            graph,
            id,
            max_iterations,
            hybrid_order(mean(graph.samples()))[k],
        ) is Ok,
        forall|j: int|
            0 <= j < k ==> (single_model(
                graph,
                id,
                max_iterations,
                #[trigger] hybrid_order(mean(graph.samples()))[j],
            ) matches Err(e) ==> e.can_recover),
    ensures
        hybrid_model(graph, id, max_iterations) is Ok,
{
    lemma_first_success(graph, id, max_iterations, hybrid_order(mean(graph.samples())), None, k);
}

/// A plain strategy that uses up the cap without success fails with a
/// resolving error that may be recovered from: a node-covering search that
/// has counted up to the cap without a path, and an edge-covering walk that
/// the cap has stopped. Best first hands on to nothing: where node covering
/// hands on to it, the search has stayed below the cap.
pub proof fn lemma_cap_stops_a_strategy(graph: DependencyGraph, id: Seq<char>, max_iterations: nat)
    requires
        graph.names().contains_key(id),
    ensures
        ({
            let search = search_from(
                graph.links(),
                graph.order(),
                graph.nodes().len(),
                max_iterations,
                graph.names()[id] as int,
                Seq::empty(),
                0,
            );
            &&& !search.found && search.iterations >= max_iterations ==> hamiltonian_model(
                graph,
                id,
                max_iterations,
            ) == Err::<Resolution, BubblingErrorView>(search_capped_view())
            &&& (hamiltonian_model(graph, id, max_iterations) matches Ok(found) && found.strategy
                == ResolutionStrategy::AStar) ==> search.iterations < max_iterations
        }),
        tour(
            graph.nodes(),
            graph.links(),
            graph.order(),
            max_iterations,
            tour_start(graph.links(), graph.names()[id] as int),
        ) is Capped ==> eulerian_model(graph, id, max_iterations) == Err::<
            Resolution,
            BubblingErrorView,
        >(capped_view()),
        a_star_model(graph, id, max_iterations) matches Err(e) ==> (e.kind == ErrorKind::Resolving
            && e.can_recover),
        search_capped_view().kind == ErrorKind::Resolving && search_capped_view().can_recover,
        capped_view().kind == ErrorKind::Resolving && capped_view().can_recover,
{
}

/// The iteration cap is honoured: a resolution that succeeds has taken no
/// more steps than the cap allows.
pub proof fn lemma_iteration_cap(
    graph: DependencyGraph,
    id: Seq<char>,
    max_iterations: nat,
    strategy: Option<ResolutionStrategy>,
)
    ensures
        resolve_model(graph, id, max_iterations, strategy) matches Ok(found) ==> found.iterations
            <= max_iterations,
{
    lemma_single_cap(graph, id, max_iterations, ResolutionStrategy::Eulerian);
    lemma_single_cap(graph, id, max_iterations, ResolutionStrategy::Hamiltonian);
    lemma_single_cap(graph, id, max_iterations, ResolutionStrategy::AStar);
    let order = hybrid_order(mean(graph.samples()));
    lemma_first_success_cap(graph, id, max_iterations, order, None);
}

/// The same for one of the three plain strategies.
pub proof fn lemma_single_cap(
    graph: DependencyGraph,
    id: Seq<char>,
    max_iterations: nat,
    strategy: ResolutionStrategy,
)
    ensures
        single_model(graph, id, max_iterations, strategy) matches Ok(found) ==> found.iterations
            <= max_iterations,
{
    if graph.names().contains_key(id) {
        let root = graph.names()[id] as int;
        lemma_tour_bounded(
            graph.nodes(),
            graph.links(),
            graph.order(),
            max_iterations,
            tour_start(graph.links(), root),
        );
        lemma_search_bounds(
            graph.links(),
            graph.order(),
            graph.nodes().len(),
            max_iterations,
            root,
            Seq::empty(),
            0,
        );
    }
}

/// The same for the strategies tried one after the other.
pub proof fn lemma_first_success_cap(
    graph: DependencyGraph,
    id: Seq<char>,
    max_iterations: nat,
    order: Seq<ResolutionStrategy>,
    last: Option<BubblingErrorView>,
)
    ensures
        first_success(graph, id, max_iterations, order, last) matches Ok(found) ==> found.iterations
            <= max_iterations,
    decreases order.len(),
{
    if order.len() > 0 {
        lemma_single_cap(graph, id, max_iterations, order[0]);
        match single_model(graph, id, max_iterations, order[0]) {
            Ok(_) => {},
            Err(e) => {
                lemma_first_success_cap(graph, id, max_iterations, order.drop_first(), Some(e));
            },
        }
    }
}

impl SemverXResolver {
    /// Resolves the component `component_id` with one of the three plain
    /// strategies; best first where `strategy` names none of them.
    pub fn resolve_single(&self, component_id: &str, strategy: ResolutionStrategy) -> (r: Result<
        ResolutionResult,
        BubblingError,
    >)
        requires
            self.wf(),
        ensures
            match single_model(self.graph, component_id@, self.max_iterations as nat, strategy) {
                Ok(found) => r matches Ok(result) && result.shows(self.graph.nodes(), found),
                Err(view) => r matches Err(e) && e@ == view,
            },
    {
        match strategy {
            ResolutionStrategy::Eulerian => self.resolve_eulerian(component_id),
            ResolutionStrategy::Hamiltonian => self.resolve_hamiltonian(component_id),
            _ => self.resolve_a_star(component_id),
        }
    }

    /// Resolves the component `component_id` with the first of the plain
    /// strategies that succeeds, in the order that the stress decides.
    pub fn resolve_hybrid(&self, component_id: &str) -> (r: Result<ResolutionResult, BubblingError>)
        requires
            self.wf(),
        ensures
            match hybrid_model(self.graph, component_id@, self.max_iterations as nat) {
                Ok(found) => r matches Ok(result) && result.shows(self.graph.nodes(), found),
                Err(view) => r matches Err(e) && e@ == view,
            },
    {
        let stress = self.graph.current_stress();
        let strategies: [ResolutionStrategy; 3] = if stress < DANGER_THRESHOLD {
            [
                ResolutionStrategy::Hamiltonian,
                ResolutionStrategy::AStar,
                ResolutionStrategy::Eulerian,
            ]
        } else {
            [
                ResolutionStrategy::AStar,
                ResolutionStrategy::Eulerian,
                ResolutionStrategy::Hamiltonian,
            ]
        };
        let ghost order = hybrid_order(mean(self.graph.samples()));
        let ghost max = self.max_iterations as nat;
        let mut last_error: Option<BubblingError> = None;
        let mut i: usize = 0;
        proof {
            assert(strategies@ =~= order);
            assert(order.skip(0) =~= order);
        }
        while i < 3
            invariant
                self.wf(),
                i <= 3,
                strategies@ == order,
                order.len() == 3,
                order == hybrid_order(mean(self.graph.samples())),
                max == self.max_iterations as nat,
                hybrid_model(self.graph, component_id@, max) == first_success(
                    self.graph,
                    component_id@,
                    max,
                    order.skip(i as int),
                    match last_error {
                        Some(e) => Some(e@),
                        None => None,
                    },
                ),
            decreases 3 - i,
        {
            proof {
                assert(order.skip(i as int)[0] == order[i as int]);
                assert(order.skip(i as int).drop_first() =~= order.skip(i + 1));
            }
            match self.resolve_single(component_id, strategies[i]) {
                Ok(result) => {
                    return Ok(result);
                },
                Err(e) => {
                    if e.can_recover {
                        last_error = Some(e);
                    } else {
                        return Err(e);
                    }
                },
            }
            i += 1;
        }
        proof {
            assert(order.skip(3) =~= Seq::<ResolutionStrategy>::empty());
        }
        match last_error {
            Some(e) => Err(e),
            None => Err(
                resolving_error(
                    String::from_str("All resolution strategies failed"),
                    "resolve_hybrid",
                    EXHAUSTED_STRESS,
                    false,
                ),
            ),
        }
    }

    /// Resolves the component `component_id`. Without a strategy the current
    /// stress picks one: node covering below three, best first below six,
    /// edge covering below nine, adaptive from there on.
    pub fn resolve(&self, component_id: &str, strategy: Option<ResolutionStrategy>) -> (r: Result<
        ResolutionResult,
        BubblingError,
    >)
        requires
            self.wf(),
        ensures
            match resolve_model(self.graph, component_id@, self.max_iterations as nat, strategy) {
                Ok(found) => r matches Ok(result) && result.shows(self.graph.nodes(), found),
                Err(view) => r matches Err(e) && e@ == view,
            },
    {
        let chosen = match strategy {
            Some(s) => s,
            None => self.determine_strategy_from_stress(),
        };
        match chosen {
            ResolutionStrategy::Hybrid => self.resolve_hybrid(component_id),
            _ => self.resolve_single(component_id, chosen),
        }
    }
}

} // verus!
