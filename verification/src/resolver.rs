//! The resolver: a dependency graph, the strategy that the current stress
//! calls for, and the result that every strategy hands back.

use crate::error::texts;
use crate::error::BubblingError;
use crate::graph::rejected_view;
use crate::graph::DependencyGraph;
use crate::graph::GRAPH_CAPACITY;
use crate::health::CRITICAL_THRESHOLD;
use crate::health::DANGER_THRESHOLD;
use crate::health::WARNING_THRESHOLD;
use crate::stress::mean;
use crate::stress::pushed;
use crate::types::Component;
use crate::types::ComponentNode;
use crate::types::DependencyEdge;
use crate::types::Link;
use crate::types::CRITICAL_WEIGHT;
use crate::version::SemverX;
use vstd::hash_map::StringHashMap;
use vstd::prelude::*;

verus! {

/// The ways to walk the graph.
#[derive(Clone, Copy, Debug, PartialEq, Eq, Structural)]
pub enum ResolutionStrategy {
    /// Cover the edges.
    Eulerian,
    /// Cover the nodes.
    Hamiltonian,
    /// Best first.
    AStar,
    /// Try the others in an order that the stress decides.
    Hybrid,
}

/// The iteration cap of a new resolver.
pub const DEFAULT_MAX_ITERATIONS: usize = 1000;

/// What a resolution found, over node indices.
pub struct Resolution {
    pub path: Seq<int>,
    pub strategy: ResolutionStrategy,
    pub iterations: nat,
    pub stress_impact: nat,
}

/// The versions of the nodes on `path`, by component id.
pub open spec fn versions_of(nodes: Seq<ComponentNode>, path: Seq<int>) -> Map<Seq<char>, SemverX>
    decreases path.len(),
{
    if path.len() == 0 {
        Map::empty()
    } else {
        versions_of(nodes, path.drop_last()).insert(
            nodes[path.last()].id@,
            nodes[path.last()].version,
        )
    }
}

/// Node indices as mathematical integers.
pub open spec fn as_ints(path: Seq<usize>) -> Seq<int> {
    path.map_values(|i: usize| i as int)
}

/// The path without the places that hold no node of a graph with `n` nodes.
pub open spec fn known(n: nat, path: Seq<int>) -> Seq<int>
    decreases path.len(),
{
    if path.len() == 0 {
        Seq::empty()
    } else if 0 <= path.last() < n {
        known(n, path.drop_last()).push(path.last())
    } else {
        known(n, path.drop_last())
    }
}

/// A path that holds nodes only is left as it is.
pub proof fn lemma_known_all(n: nat, path: Seq<int>)
    requires
        forall|k: int| 0 <= k < path.len() ==> 0 <= #[trigger] path[k] < n,
    ensures
        known(n, path) == path,
    decreases path.len(),
{
    if path.len() > 0 {
        lemma_known_all(n, path.drop_last());
        assert(path.drop_last().push(path.last()) =~= path);
    }
}

/// The component ids of the nodes on `path`.
pub open spec fn ids_of(nodes: Seq<ComponentNode>, path: Seq<int>) -> Seq<Seq<char>> {
    Seq::new(path.len(), |k: int| nodes[path[k]].id@)
}

/// The outcome of a resolution.
pub struct ResolutionResult {
    /// The version chosen for each component that the walk reached.
    pub resolved_versions: StringHashMap<SemverX>,
    /// The components that the walk reached, in the order of the walk.
    pub resolution_path: Vec<String>,
    /// The strategy that found the path.
    pub strategy_used: ResolutionStrategy,
    /// The expansion steps that the strategy took.
    pub iterations: usize,
    /// The stress that the resolution adds, in thousandths.
    pub stress_impact: u64,
    /// The conflicts that were settled on the way.
    pub conflicts_resolved: usize,
}

impl ResolutionResult {
    /// A result that holds nothing yet.
    pub fn new(strategy: ResolutionStrategy) -> (r: Self)
        ensures
            r.resolved_versions@ == Map::<Seq<char>, SemverX>::empty(),
            r.resolution_path@ == Seq::<String>::empty(),
            r.strategy_used == strategy,
            r.iterations == 0,
            r.stress_impact == 0,
            r.conflicts_resolved == 0,
    {
        ResolutionResult {
            resolved_versions: StringHashMap::new(),
            resolution_path: Vec::new(),
            strategy_used: strategy,
            iterations: 0,
            stress_impact: 0,
            conflicts_resolved: 0,
        }
    }

    /// Takes a component in: its id joins the end of the path, and its
    /// version is the one chosen for its id.
    pub fn add_component(&mut self, component: Component)
        ensures
            final(self).resolved_versions@ == old(self).resolved_versions@.insert(
                component.id@,
                component.version,
            ),
            texts(final(self).resolution_path@) == texts(old(self).resolution_path@).push(
                component.id@,
            ),
            final(self).strategy_used == old(self).strategy_used,
            final(self).iterations == old(self).iterations,
            final(self).stress_impact == old(self).stress_impact,
            final(self).conflicts_resolved == old(self).conflicts_resolved,
    {
        let ghost before = texts(self.resolution_path@);
        self.resolution_path.push(component.id.clone());
        self.resolved_versions.insert(component.id, component.version);
        proof {
            assert(texts(self.resolution_path@) =~= before.push(component.id@));
        }
    }

    /// Counts one more step.
    pub fn increment_iterations(&mut self)
        requires
            old(self).iterations < usize::MAX,
        ensures
            *final(self) == (ResolutionResult { iterations: (old(self).iterations + 1) as usize, ..*old(self) }),
    {
        self.iterations = self.iterations + 1;
    }

    /// Counts one more conflict settled.
    pub fn record_conflict_resolution(&mut self)
        requires
            old(self).conflicts_resolved < usize::MAX,
        ensures
            *final(self) == (ResolutionResult {
                conflicts_resolved: (old(self).conflicts_resolved + 1) as usize,
                ..*old(self)
            }),
    {
        self.conflicts_resolved = self.conflicts_resolved + 1;
    }

    /// Sets the stress that the resolution adds.
    pub fn set_stress_level(&mut self, stress: u64)
        ensures
            *final(self) == (ResolutionResult { stress_impact: stress, ..*old(self) }),
    {
        self.stress_impact = stress;
    }

    /// Whether this result is the resolution `found` in a graph with the
    /// nodes `nodes`.
    pub open spec fn shows(self, nodes: Seq<ComponentNode>, found: Resolution) -> bool {
        &&& self.resolved_versions@ == versions_of(nodes, found.path)
        &&& texts(self.resolution_path@) == ids_of(nodes, found.path)
        &&& self.strategy_used == found.strategy
        &&& self.iterations == found.iterations
        &&& self.stress_impact == found.stress_impact
        &&& self.conflicts_resolved == 0
    }
}

/// The strategy that a stress level calls for: node covering below three,
/// best first below six, edge covering below nine, adaptive from there on.
pub open spec fn strategy_for(stress: nat) -> ResolutionStrategy {
    if stress < WARNING_THRESHOLD {
        ResolutionStrategy::Hamiltonian
    } else if stress < DANGER_THRESHOLD {
        ResolutionStrategy::AStar
    } else if stress < CRITICAL_THRESHOLD {
        ResolutionStrategy::Eulerian
    } else {
        ResolutionStrategy::Hybrid
    }
}

/// A dependency resolver.
pub struct SemverXResolver {
    /// The graph that the resolver walks.
    pub graph: DependencyGraph,
    /// The strategy that the resolver was set up with.
    pub strategy: ResolutionStrategy,
    /// The most expansion steps that a strategy may take.
    pub max_iterations: usize,
    /// Whether errors gather context on their way up.
    pub bubble_errors: bool,
}

impl SemverXResolver {
    /// The resolver is in order when its graph is.
    pub open spec fn wf(&self) -> bool {
        self.graph.wf()
    }

    /// A resolver with an empty graph and a cap of a thousand iterations.
    pub fn new() -> (r: Self)
        ensures
            r.wf(),
            r.graph.nodes() == Seq::<ComponentNode>::empty(),
            r.graph.links().len() == 0,
            r.graph.samples() == Seq::<u64>::empty(),
            r.strategy == ResolutionStrategy::Hybrid,
            r.max_iterations == DEFAULT_MAX_ITERATIONS,
            r.bubble_errors,
    {
        SemverXResolver {
            graph: DependencyGraph::new(),
            strategy: ResolutionStrategy::Hybrid,
            max_iterations: DEFAULT_MAX_ITERATIONS,
            bubble_errors: true,
        }
    }

    /// The same resolver with another iteration cap.
    pub fn with_max_iterations(self, max_iterations: usize) -> (r: Self)
        requires
            self.wf(),
        ensures
            r.wf(),
            r == (SemverXResolver { max_iterations, ..self }),
    {
        let mut r = self;
        r.max_iterations = max_iterations;
        r
    }

    /// Puts `component` into the graph and returns its index; see
    /// `DependencyGraph::add_component`.
    pub fn add_component(&mut self, component: ComponentNode) -> (r: Result<usize, BubblingError>)
        requires
            old(self).wf(),
        ensures
            final(self).wf(),
            final(self).max_iterations == old(self).max_iterations,
            final(self).strategy == old(self).strategy,
            final(self).bubble_errors == old(self).bubble_errors,
            final(self).graph.links() == old(self).graph.links(),
            final(self).graph.samples() == old(self).graph.samples(),
            r is Ok ==> final(self).graph.order() == old(self).graph.order().push(
                Seq::<int>::empty(),
            ),
            r is Err ==> final(self).graph.order() == old(self).graph.order(),
            !old(self).graph.names().contains_key(component.id@) && old(self).graph.nodes().len()
                < GRAPH_CAPACITY ==> {
                &&& r == Ok::<usize, BubblingError>(old(self).graph.nodes().len() as usize)
                &&& final(self).graph.nodes() == old(self).graph.nodes().push(component)
                &&& final(self).graph.names() == old(self).graph.names().insert(
                    component.id@,
                    old(self).graph.nodes().len() as usize,
                )
            },
            old(self).graph.names().contains_key(component.id@) ==> {
                &&& r matches Err(e) && e@ == rejected_view(
                    "Component is in the graph already: "@ + component.id@,
                    "DependencyGraph::add_component"@,
                )
                &&& final(self).graph.nodes() == old(self).graph.nodes()
                &&& final(self).graph.names() == old(self).graph.names()
            },
            !old(self).graph.names().contains_key(component.id@) && old(self).graph.nodes().len()
                >= GRAPH_CAPACITY ==> {
                &&& r matches Err(e) && e@ == rejected_view(
                    "Graph is full"@,
                    "DependencyGraph::add_component"@,
                )
                &&& final(self).graph.nodes() == old(self).graph.nodes()
                &&& final(self).graph.names() == old(self).graph.names()
            },
    {
        self.graph.add_component(component)
    }

    /// Adds an edge from the node `from` to the node `to`; see
    /// `DependencyGraph::add_dependency`.
    pub fn add_dependency(&mut self, from: usize, to: usize, constraint: String, weight: u64) -> (r:
        Result<usize, BubblingError>)
        requires
            old(self).wf(),
        ensures
            final(self).wf(),
            final(self).max_iterations == old(self).max_iterations,
            final(self).strategy == old(self).strategy,
            final(self).bubble_errors == old(self).bubble_errors,
            final(self).graph.nodes() == old(self).graph.nodes(),
            final(self).graph.names() == old(self).graph.names(),
            final(self).graph.samples() == old(self).graph.samples(),
            r is Ok ==> final(self).graph.order() == old(self).graph.order().update(
                from as int,
                seq![old(self).graph.links().len() as int] + old(self).graph.order()[from as int],
            ),
            r is Err ==> final(self).graph.order() == old(self).graph.order(),
            from < old(self).graph.nodes().len() && to < old(self).graph.nodes().len() && old(
                self,
            ).graph.links().len() < GRAPH_CAPACITY ==> {
                &&& r == Ok::<usize, BubblingError>(old(self).graph.links().len() as usize)
                &&& final(self).graph.links() == old(self).graph.links().push(
                    Link {
                        source: from as int,
                        target: to as int,
                        edge: DependencyEdge {
                            constraint,
                            weight,
                            is_critical: weight > CRITICAL_WEIGHT,
                        },
                    },
                )
            },
            !(from < old(self).graph.nodes().len() && to < old(self).graph.nodes().len()) ==> {
                &&& r matches Err(e) && e@ == rejected_view(
                    "Edge joins no node"@,
                    "DependencyGraph::add_dependency"@,
                )
                &&& final(self).graph.links() == old(self).graph.links()
            },
            from < old(self).graph.nodes().len() && to < old(self).graph.nodes().len() && old(
                self,
            ).graph.links().len() >= GRAPH_CAPACITY ==> {
                &&& r matches Err(e) && e@ == rejected_view(
                    "Graph is full"@,
                    "DependencyGraph::add_dependency"@,
                )
                &&& final(self).graph.links() == old(self).graph.links()
            },
    {
        self.graph.add_dependency(from, to, constraint, weight)
    }

    /// Takes a stress sample in.
    pub fn add_stress_sample(&mut self, stress: u64)
        requires
            old(self).wf(),
        ensures
            final(self).wf(),
            final(self).max_iterations == old(self).max_iterations,
            final(self).strategy == old(self).strategy,
            final(self).bubble_errors == old(self).bubble_errors,
            final(self).graph.nodes() == old(self).graph.nodes(),
            final(self).graph.links() == old(self).graph.links(),
            final(self).graph.order() == old(self).graph.order(),
            final(self).graph.names() == old(self).graph.names(),
            final(self).graph.samples() == pushed(old(self).graph.samples(), stress),
    {
        self.graph.add_stress_sample(stress);
    }

    /// The strategy that the current stress calls for.
    pub fn determine_strategy_from_stress(&self) -> (s: ResolutionStrategy)
        requires
            self.wf(),
        ensures
            s == strategy_for(mean(self.graph.samples())),
    {
        let stress = self.graph.current_stress();
        if stress < WARNING_THRESHOLD {
            ResolutionStrategy::Hamiltonian
        } else if stress < DANGER_THRESHOLD {
            ResolutionStrategy::AStar
        } else if stress < CRITICAL_THRESHOLD {
            ResolutionStrategy::Eulerian
        } else {
            ResolutionStrategy::Hybrid
        }
    }

    /// Collects the ids and versions of the nodes on `path` into the result
    /// of a resolution. A place of the path that holds no node is passed
    /// over.
    pub fn extract_versions_from_indices(
        &self,
        path: &Vec<usize>,
        strategy: ResolutionStrategy,
        iterations: usize,
        stress_impact: u64,
    ) -> (r: ResolutionResult)
        requires
            self.wf(),
        ensures
            r.shows(
                self.graph.nodes(),
                Resolution {
                    path: known(self.graph.nodes().len(), as_ints(path@)),
                    strategy,
                    iterations: iterations as nat,
                    stress_impact: stress_impact as nat,
                },
            ),
    {
        let ghost nodes = self.graph.nodes();
        let ghost whole = as_ints(path@);
        let mut versions: StringHashMap<SemverX> = StringHashMap::new();
        let mut ids: Vec<String> = Vec::new();
        let mut k: usize = 0;
        proof {
            assert(texts(ids@) =~= ids_of(nodes, known(nodes.len(), whole.subrange(0, 0))));
        }
        while k < path.len()
            invariant
                k <= path@.len(),
                nodes == self.graph.nodes(),
                whole == as_ints(path@),
                versions@ == versions_of(nodes, known(nodes.len(), whole.subrange(0, k as int))),
                texts(ids@) == ids_of(nodes, known(nodes.len(), whole.subrange(0, k as int))),
            decreases path@.len() - k,
        {
            let ghost before = texts(ids@);
            let ghost shown = known(nodes.len(), whole.subrange(0, k as int));
            proof {
                let next = whole.subrange(0, k + 1);
                assert(next.drop_last() =~= whole.subrange(0, k as int));
                assert(next.last() == path@[k as int] as int);
            }
            match self.graph.node(path[k]) {
                Some(node) => {
                    versions.insert(node.id.clone(), node.version.clone());
                    ids.push(node.id.clone());
                    proof {
                        let longer = shown.push(path@[k as int] as int);
                        assert(longer.drop_last() =~= shown);
                        assert(texts(ids@) =~= before.push(node.id@));
                        assert(texts(ids@) =~= ids_of(nodes, longer));
                    }
                },
                None => {},
            }
            k += 1;
        }
        proof {
            assert(whole.subrange(0, path@.len() as int) =~= whole);
        }
        ResolutionResult {
            resolved_versions: versions,
            resolution_path: ids,
            strategy_used: strategy,
            iterations,
            stress_impact,
            conflicts_resolved: 0,
        }
    }
}

} // verus!
