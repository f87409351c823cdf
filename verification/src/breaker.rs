//! The cycle breaker: it takes the heaviest edge out of every group of nodes
//! that reach each other, and pins the version of the node that the edge led
//! to, until no two nodes reach each other any more.

use crate::error::resolving_error;
use crate::error::BubblingError;
use crate::error::BubblingErrorView;
use crate::error::ErrorKind;
use crate::error::EXHAUSTED_STRESS;
use crate::graph::has_edge;
use crate::graph::has_place;
use crate::graph::is_place;
use crate::graph::is_scc_partition;
use crate::graph::is_walk;
use crate::graph::member;
use crate::graph::mutually_reachable;
use crate::graph::pinned;
use crate::graph::reaches;
use crate::graph::without_edge;
use crate::resolver::as_ints;
use crate::resolver::SemverXResolver;
use crate::types::ComponentNode;
use crate::types::Link;
use vstd::prelude::*;

verus! {

/// Whether both ends of `link` are among the nodes `group`.
pub open spec fn is_inside(group: Seq<int>, link: Link) -> bool {
    group.contains(link.source) && group.contains(link.target)
}

/// The index of the heaviest of the edges `links[..upto]` inside `group`,
/// the first of them where several are as heavy; `None` where no edge is
/// inside.
pub open spec fn heaviest(links: Seq<Link>, group: Seq<int>, upto: int) -> Option<int>
    decreases upto,
{
    if upto <= 0 {
        None
    } else {
        let before = heaviest(links, group, upto - 1);
        if is_inside(group, links[upto - 1]) && (before is None || links[upto - 1].edge.weight
            > links[before->0].edge.weight) {
            Some(upto - 1)
        } else {
            before
        }
    }
}

/// The heaviest edge is an edge.
pub proof fn lemma_heaviest_in_range(links: Seq<Link>, group: Seq<int>, upto: int)
    requires
        0 <= upto <= links.len(),
    ensures
        heaviest(links, group, upto) matches Some(e) ==> 0 <= e < upto && is_inside(group, links[e]),
    decreases upto,
{
    if upto > 0 {
        lemma_heaviest_in_range(links, group, upto - 1);
    }
}

/// Where an edge is inside the group, there is a heaviest one.
pub proof fn lemma_heaviest_exists(links: Seq<Link>, group: Seq<int>, upto: int, e: int)
    requires
        0 <= e < upto <= links.len(),
        is_inside(group, links[e]),
    ensures
        heaviest(links, group, upto) is Some,
    decreases upto,
{
    if e < upto - 1 {
        lemma_heaviest_exists(links, group, upto - 1, e);
    }
}

/// Whether no two different nodes of the graph reach each other: the graph
/// has no cycle through more than one node.
pub open spec fn is_acyclic(n: nat, links: Seq<Link>) -> bool {
    forall|a: int, b: int|
        0 <= a < n && 0 <= b < n && a != b ==> !#[trigger] mutually_reachable(links, a, b)
}

/// The error for a group of nodes without an edge inside it.
pub open spec fn unbreakable_view() -> BubblingErrorView {
    BubblingErrorView {
        kind: ErrorKind::Resolving,
        message: "Cycle has no edge to remove"@,
        context: seq!["break_cycle_with_version_pinning"@],
        stress_level: EXHAUSTED_STRESS as nat,
        can_recover: false,
    }
}

/// A walk that is cut at its front is a walk.
pub proof fn lemma_walk_tail(links: Seq<Link>, walk: Seq<int>)
    requires
        is_walk(links, walk),
        walk.len() >= 2,
    ensures
        is_walk(links, walk.drop_first()),
{
    let tail = walk.drop_first();
    assert forall|k: int| 0 <= k < tail.len() - 1 implies has_edge(
        links,
        #[trigger] tail[k],
        tail[k + 1],
    ) by {
        assert(tail[k] == walk[k + 1]);
        assert(has_edge(links, walk[k + 1], walk[k + 2]));
    }
}

/// Two walks, the second starting where the first ends, make one walk.
pub proof fn lemma_walk_joined(links: Seq<Link>, first: Seq<int>, second: Seq<int>)
    requires
        is_walk(links, first),
        is_walk(links, second),
        first.last() == second[0],
    ensures
        is_walk(links, first + second.drop_first()),
        (first + second.drop_first())[0] == first[0],
        (first + second.drop_first()).last() == second.last(),
{
    let joined = first + second.drop_first();
    assert forall|k: int| 0 <= k < joined.len() - 1 implies has_edge(
        links,
        #[trigger] joined[k],
        joined[k + 1],
    ) by {
        if k < first.len() - 1 {
            assert(joined[k] == first[k]);
            assert(joined[k + 1] == first[k + 1]);
            assert(has_edge(links, first[k], first[k + 1]));
        } else {
            let j = k - (first.len() - 1);
            assert(joined[k] == second[j]);
            assert(joined[k + 1] == second[j + 1]);
            assert(has_edge(links, second[j], second[j + 1]));
        }
    }
}

/// Reaching carries over: what reaches a node reaches all that the node
/// reaches.
pub proof fn lemma_reaches_transitive(links: Seq<Link>, a: int, b: int, c: int)
    requires
        reaches(links, a, b),
        reaches(links, b, c),
    ensures
        reaches(links, a, c),
{
    let first = choose|walk: Seq<int>| #[trigger] is_walk(links, walk) && walk[0] == a && walk.last() == b;
    let second = choose|walk: Seq<int>| #[trigger]
        is_walk(links, walk) && walk[0] == b && walk.last() == c;
    lemma_walk_joined(links, first, second);
    assert(is_walk(links, first + second.drop_first()));
}

/// A component with two nodes or more holds both ends of some edge.
pub proof fn lemma_component_has_edge(n: nat, links: Seq<Link>, components: Seq<Vec<usize>>, c: int)
    requires
        is_scc_partition(n, links, components),
        0 <= c < components.len(),
        components[c]@.len() >= 2,
        forall|e: int|
            0 <= e < links.len() ==> 0 <= (#[trigger] links[e]).source < n && 0 <= links[e].target
                < n,
    ensures
        heaviest(links, as_ints(components[c]@), links.len() as int) is Some,
{
    let group = as_ints(components[c]@);
    let a = member(components, c, 0);
    let b = member(components, c, 1);
    assert(is_place(components, c, 0));
    assert(is_place(components, c, 1));
    assert(a != b);
    assert(mutually_reachable(links, a, b));
    let walk = choose|walk: Seq<int>| #[trigger]
        is_walk(links, walk) && walk[0] == a && walk.last() == b;
    assert(walk.len() >= 2);
    assert(has_edge(links, walk[0], walk[1]));
    let e = choose|e: int|
        0 <= e < links.len() && (#[trigger] links[e]).source == walk[0] && links[e].target == walk[1];
    let x = walk[1];
    assert(0 <= x < n);
    let step = seq![a, x];
    assert forall|k: int| 0 <= k < step.len() - 1 implies has_edge(
        links,
        #[trigger] step[k],
        step[k + 1],
    ) by {
        assert(k == 0);
    }
    assert(is_walk(links, step));
    assert(step[0] == a && step.last() == x);
    assert(reaches(links, a, x));
    lemma_walk_tail(links, walk);
    assert(walk.drop_first()[0] == x);
    assert(walk.drop_first().last() == b);
    assert(reaches(links, x, b));
    lemma_reaches_transitive(links, x, b, a);
    assert(mutually_reachable(links, a, x));
    assert(has_place(components, x));
    let (cx, kx) = choose|cx: int, kx: int|
        is_place(components, cx, kx) && #[trigger] member(components, cx, kx) == x;
    assert(cx == c);
    assert(group[0] == a);
    assert(group[kx] == x);
    assert(is_inside(group, links[e]));
    lemma_heaviest_exists(links, group, links.len() as int, e);
}

/// Where every component holds one node, no two different nodes reach each
/// other.
pub proof fn lemma_small_components_acyclic(n: nat, links: Seq<Link>, components: Seq<Vec<usize>>)
    requires
        is_scc_partition(n, links, components),
        forall|c: int| 0 <= c < components.len() ==> (#[trigger] components[c])@.len() <= 1,
    ensures
        is_acyclic(n, links),
{
    assert forall|a: int, b: int| 0 <= a < n && 0 <= b < n && a != b implies !#[trigger] mutually_reachable(
        links,
        a,
        b,
    ) by {
        if mutually_reachable(links, a, b) {
            assert(has_place(components, a));
            assert(has_place(components, b));
            let (ca, ka) = choose|ca: int, ka: int|
                is_place(components, ca, ka) && #[trigger] member(components, ca, ka) == a;
            let (cb, kb) = choose|cb: int, kb: int|
                is_place(components, cb, kb) && #[trigger] member(components, cb, kb) == b;
            assert(ca == cb);
            assert(components[ca]@.len() <= 1);
            assert(ka == kb);
        }
    }
}

/// In a graph where no two different nodes reach each other, every strongly
/// connected component holds one node.
pub proof fn lemma_acyclic_components_small(n: nat, links: Seq<Link>, components: Seq<Vec<usize>>)
    requires
        is_acyclic(n, links),
        is_scc_partition(n, links, components),
    ensures
        forall|c: int| 0 <= c < components.len() ==> (#[trigger] components[c])@.len() == 1,
{
    assert forall|c: int| 0 <= c < components.len() implies (#[trigger] components[c])@.len()
        == 1 by {
        if components[c]@.len() >= 2 {
            assert(is_place(components, c, 0));
            assert(is_place(components, c, 1));
            let a = member(components, c, 0);
            let b = member(components, c, 1);
            assert(mutually_reachable(links, a, b));
            assert(a != b);
        }
    }
}

/// The nodes and the edges of a graph at one moment.
pub struct GraphState {
    pub nodes: Seq<ComponentNode>,
    pub links: Seq<Link>,
}

/// Whether `group` is a strongly connected component of more than one node:
/// two nodes or more, none twice, each reaching each other, and with them
/// every node that reaches and is reached by them.
pub open spec fn is_cycle_group(n: nat, links: Seq<Link>, group: Seq<int>) -> bool {
    &&& group.len() >= 2
    &&& forall|j: int| 0 <= j < group.len() ==> 0 <= #[trigger] group[j] < n
    &&& forall|j: int, k: int| 0 <= j < k < group.len() ==> group[j] != group[k]
    &&& forall|j: int, k: int|
        0 <= j < group.len() && 0 <= k < group.len() ==> mutually_reachable(
            links,
            #[trigger] group[j],
            #[trigger] group[k],
        )
    &&& forall|v: int|
        0 <= v < n && #[trigger] mutually_reachable(links, group[0], v) ==> group.contains(v)
}

/// Whether `after` is `before` with the cycles of `group` broken once: the
/// heaviest edge inside the group is gone, the node that it led to is
/// pinned, and nothing else has changed.
pub open spec fn breaks(before: GraphState, after: GraphState, group: Seq<int>) -> bool {
    match heaviest(before.links, group, before.links.len() as int) {
        Some(e) => {
            &&& after.links == without_edge(before.links, e)
            &&& after.nodes == before.nodes.update(
                before.links[e].target,
                pinned(before.nodes[before.links[e].target]),
            )
        },
        None => false,
    }
}

/// Whether `after` comes from `before` by one round of the breaker: for some
/// strongly connected component of more than one node, the heaviest edge
/// inside it is gone and the node that it led to is pinned.
pub open spec fn is_breaking_round(before: GraphState, after: GraphState) -> bool {
    exists|group: Seq<int>| #[trigger]
        is_cycle_group(before.nodes.len(), before.links, group) && breaks(before, after, group)
}

/// Whether each state of `rounds` comes from the one before it by one round
/// of the breaker.
pub open spec fn is_breaking(rounds: Seq<GraphState>) -> bool {
    &&& rounds.len() >= 1
    &&& forall|k: int|
        0 <= k < rounds.len() - 1 ==> is_breaking_round(#[trigger] rounds[k], rounds[k + 1])
}

/// Whether `after` comes from `before` by rounds of the breaker, none or
/// more.
pub open spec fn is_broken_from(before: GraphState, after: GraphState) -> bool {
    exists|rounds: Seq<GraphState>| #[trigger]
        is_breaking(rounds) && rounds[0] == before && rounds.last() == after
}

/// A component of two nodes or more that the partition lists is a strongly
/// connected component of more than one node.
pub proof fn lemma_component_is_group(
    n: nat,
    links: Seq<Link>,
    components: Seq<Vec<usize>>,
    c: int,
)
    requires
        is_scc_partition(n, links, components),
        0 <= c < components.len(),
        components[c]@.len() >= 2,
    ensures
        is_cycle_group(n, links, as_ints(components[c]@)),
{
    let group = as_ints(components[c]@);
    assert forall|j: int| 0 <= j < group.len() implies 0 <= #[trigger] group[j] < n by {
        assert(is_place(components, c, j));
        assert(group[j] == member(components, c, j));
    }
    assert forall|j: int, k: int| 0 <= j < k < group.len() implies group[j] != group[k] by {
        assert(is_place(components, c, j));
        assert(is_place(components, c, k));
        assert(group[j] == member(components, c, j));
        assert(group[k] == member(components, c, k));
    }
    assert forall|j: int, k: int| 0 <= j < group.len() && 0 <= k < group.len() implies mutually_reachable(
        links,
        #[trigger] group[j],
        #[trigger] group[k],
    ) by {
        assert(is_place(components, c, j));
        assert(is_place(components, c, k));
        assert(group[j] == member(components, c, j));
        assert(group[k] == member(components, c, k));
    }
    assert forall|v: int|
        0 <= v < n && #[trigger] mutually_reachable(links, group[0], v) implies group.contains(
        v,
    ) by {
        assert(has_place(components, v));
        let (cv, kv) = choose|cv: int, kv: int|
            is_place(components, cv, kv) && #[trigger] member(components, cv, kv) == v;
        assert(is_place(components, c, 0));
        assert(group[0] == member(components, c, 0));
        assert(mutually_reachable(links, member(components, cv, kv), member(components, c, 0)));
        assert(cv == c);
        assert(group[kv] == v);
    }
}

/// A graph in which no two different nodes reach each other gives the
/// breaker nothing to do.
pub proof fn lemma_acyclic_has_no_round(before: GraphState, after: GraphState)
    requires
        is_acyclic(before.nodes.len(), before.links),
    ensures
        !is_breaking_round(before, after),
{
    if is_breaking_round(before, after) {
        let group = choose|group: Seq<int>| #[trigger]
            is_cycle_group(before.nodes.len(), before.links, group) && breaks(before, after, group);
        assert(mutually_reachable(before.links, group[0], group[1]));
        assert(group[0] != group[1]);
    }
}

/// Rounds of the breaker that start from a graph in which no two different
/// nodes reach each other are no rounds at all.
pub proof fn lemma_broken_from_acyclic(before: GraphState, after: GraphState)
    requires
        is_broken_from(before, after),
        is_acyclic(before.nodes.len(), before.links),
    ensures
        after == before,
{
    let rounds = choose|rounds: Seq<GraphState>| #[trigger]
        is_breaking(rounds) && rounds[0] == before && rounds.last() == after;
    if rounds.len() > 1 {
        assert(is_breaking_round(rounds[0], rounds[1]));
        lemma_acyclic_has_no_round(rounds[0], rounds[1]);
    }
}

/// Rounds of the breaker that change the graph start with a first round.
pub proof fn lemma_first_round(before: GraphState, after: GraphState) -> (next: GraphState)
    requires
        is_broken_from(before, after),
        after != before,
    ensures
        is_breaking_round(before, next),
        is_broken_from(next, after),
{
    let rounds = choose|rounds: Seq<GraphState>| #[trigger]
        is_breaking(rounds) && rounds[0] == before && rounds.last() == after;
    assert(rounds.len() > 1);
    assert(is_breaking_round(rounds[0], rounds[1]));
    let rest = rounds.skip(1);
    assert forall|k: int| 0 <= k < rest.len() - 1 implies is_breaking_round(
        #[trigger] rest[k],
        rest[k + 1],
    ) by {
        assert(rest[k] == rounds[k + 1]);
        assert(rest[k + 1] == rounds[k + 2]);
        assert(is_breaking_round(rounds[k + 1], rounds[k + 2]));
    }
    assert(is_breaking(rest));
    assert(rest[0] == rounds[1]);
    assert(rest.last() == after);
    rounds[1]
}

/// Two nodes that depend on each other: the breaker takes out the heavier of
/// the two edges, pins the node that it led to, and leaves the rest alone.
pub proof fn lemma_two_cycle(before: GraphState, after: GraphState)
    requires
        before.nodes.len() == 2,
        before.links.len() == 2,
        before.links[0].source == 0 && before.links[0].target == 1,
        before.links[1].source == 1 && before.links[1].target == 0,
        before.links[1].edge.weight > before.links[0].edge.weight,
        is_broken_from(before, after),
        is_acyclic(after.nodes.len(), after.links),
    ensures
        after.links == seq![before.links[0]],
        after.nodes == seq![pinned(before.nodes[0]), before.nodes[1]],
{
    let links = before.links;
    let there = seq![0int, 1int];
    let back = seq![1int, 0int];
    assert(is_walk(links, there)) by {
        assert forall|k: int| 0 <= k < there.len() - 1 implies has_edge(
            links,
            #[trigger] there[k],
            there[k + 1],
        ) by {
            assert(links[0].source == there[0] && links[0].target == there[1]);
        }
    }
    assert(is_walk(links, back)) by {
        assert forall|k: int| 0 <= k < back.len() - 1 implies has_edge(
            links,
            #[trigger] back[k],
            back[k + 1],
        ) by {
            assert(links[1].source == back[0] && links[1].target == back[1]);
        }
    }
    assert(there[0] == 0 && there.last() == 1);
    assert(back[0] == 1 && back.last() == 0);
    assert(reaches(links, 0, 1));
    assert(reaches(links, 1, 0));
    assert(mutually_reachable(links, 0, 1));
    assert(!is_acyclic(2, links));
    let next = lemma_first_round(before, after);
    let group = choose|group: Seq<int>| #[trigger]
        is_cycle_group(before.nodes.len(), links, group) && breaks(before, next, group);
    assert(group.contains(0) && group.contains(1)) by {
        assert(group[0] != group[1]);
        assert(0 <= group[0] < 2 && 0 <= group[1] < 2);
    }
    assert(heaviest(links, group, 0) is None);
    assert(heaviest(links, group, 1) == Some(0int));
    assert(heaviest(links, group, 2) == Some(1int));
    assert(next.links =~= seq![links[0]]);
    assert(next.nodes =~= seq![pinned(before.nodes[0]), before.nodes[1]]);
    assert(is_acyclic(2, next.links)) by {
        assert forall|a: int, b: int| 0 <= a < 2 && 0 <= b < 2 && a != b implies !#[trigger] mutually_reachable(
            next.links,
            a,
            b,
        ) by {
            if reaches(next.links, 1, 0) {
                let walk = choose|walk: Seq<int>| #[trigger]
                    is_walk(next.links, walk) && walk[0] == 1 && walk.last() == 0;
                assert(walk.len() >= 2);
                assert(has_edge(next.links, walk[0], walk[1]));
            }
        }
    }
    lemma_broken_from_acyclic(next, after);
}

impl SemverXResolver {
    /// Takes the heaviest edge between nodes of `cycle` out of the graph and
    /// pins the version of the node that the edge led to. A group without an
    /// edge inside it is an error, and the graph stays as it is.
    pub fn break_cycle_with_version_pinning(&mut self, cycle: &Vec<usize>) -> (r: Result<
        (),
        BubblingError,
    >)
        requires
            old(self).wf(),
        ensures
            final(self).wf(),
            final(self).max_iterations == old(self).max_iterations,
            final(self).strategy == old(self).strategy,
            final(self).bubble_errors == old(self).bubble_errors,
            final(self).graph.names() == old(self).graph.names(),
            final(self).graph.samples() == old(self).graph.samples(),
            match heaviest(
                old(self).graph.links(),
                as_ints(cycle@),
                old(self).graph.links().len() as int,
            ) {
                Some(e) => {
                    &&& r is Ok
                    &&& final(self).graph.links() == without_edge(old(self).graph.links(), e)
                    &&& final(self).graph.nodes() == old(self).graph.nodes().update(
                        old(self).graph.links()[e].target,
                        pinned(old(self).graph.nodes()[old(self).graph.links()[e].target]),
                    )
                },
                None => {
                    &&& r matches Err(error) && error@ == unbreakable_view()
                    &&& final(self).graph.links() == old(self).graph.links()
                    &&& final(self).graph.nodes() == old(self).graph.nodes()
                },
            },
    {
        let n = self.graph.node_count();
        let ghost group = as_ints(cycle@);
        let ghost links = self.graph.links();
        let mut flags: Vec<bool> = vec![false; n];
        let mut j: usize = 0;
        while j < cycle.len()
            invariant
                j <= cycle@.len(),
                flags@.len() == n,
                group == as_ints(cycle@),
                forall|i: int|
                    0 <= i < n ==> (#[trigger] flags@[i] <==> group.subrange(0, j as int).contains(i)),
            decreases cycle@.len() - j,
        {
            let v: usize = cycle[j];
            let ghost before = group.subrange(0, j as int);
            let ghost after = group.subrange(0, j + 1);
            proof {
                assert(after =~= before.push(v as int));
            }
            if v < n {
                flags.set(v, true);
            }
            proof {
                assert forall|i: int| 0 <= i < n implies (#[trigger] flags@[i] <==> after.contains(
                    i,
                )) by {
                    if i == v {
                        assert(after[j as int] == i);
                    } else {
                        if before.contains(i) {
                            let k = choose|k: int| 0 <= k < before.len() && before[k] == i;
                            assert(after[k] == i);
                        }
                        if after.contains(i) {
                            let k = choose|k: int| 0 <= k < after.len() && after[k] == i;
                            assert(before[k] == i);
                        }
                    }
                }
            }
            j += 1;
        }
        proof {
            assert(group.subrange(0, cycle@.len() as int) =~= group);
        }
        let count = self.graph.edge_count();
        let mut best: Option<usize> = None;
        let mut best_weight: u64 = 0;
        let mut best_target: usize = 0;
        let mut e: usize = 0;
        while e < count
            invariant
                self.wf(),
                *self == *old(self),
                links == self.graph.links(),
                count == links.len(),
                n == self.graph.nodes().len(),
                e <= count,
                flags@.len() == n,
                forall|i: int| 0 <= i < n ==> (#[trigger] flags@[i] <==> group.contains(i)),
                match best {
                    Some(b) => heaviest(links, group, e as int) == Some(b as int) && b < e
                        && best_weight == links[b as int].edge.weight && best_target
                        == links[b as int].target,
                    None => heaviest(links, group, e as int) is None,
                },
            decreases count - e,
        {
            match self.graph.edge(e) {
                Some(edge) => {
                    proof {
                        assert(edge.shows(links));
                        assert(0 <= links[e as int].source < n);
                    }
                    let inside = flags[edge.source] && flags[edge.target];
                    let heavier = match best {
                        Some(_) => edge.weight.weight > best_weight,
                        None => true,
                    };
                    if inside && heavier {
                        best = Some(e);
                        best_weight = edge.weight.weight;
                        best_target = edge.target;
                    }
                },
                None => {},
            }
            e += 1;
        }
        match best {
            Some(index) => {
                let _ = self.graph.remove_edge(index);
                self.graph.pin_stable(best_target);
                Ok(())
            },
            None => Err(
                resolving_error(
                    String::from_str("Cycle has no edge to remove"),
                    "break_cycle_with_version_pinning",
                    EXHAUSTED_STRESS,
                    false,
                ),
            ),
        }
    }

    /// Breaks every cycle through more than one node: as long as the graph
    /// has a strongly connected component of two nodes or more, the heaviest
    /// edge inside the first such component is taken out and the node that it
    /// led to has its classifier pinned to stable. Afterwards no two
    /// different nodes reach each other. Which component is the first is left
    /// to the graph; what is sure is that the graph has gone through rounds
    /// of this kind and nothing else.
    pub fn prevent_diamond_dependency(&mut self) -> (r: Result<(), BubblingError>)
        requires
            old(self).wf(),
        ensures
            final(self).wf(),
            r is Ok,
            is_acyclic(final(self).graph.nodes().len(), final(self).graph.links()),
            is_broken_from(
                (GraphState { nodes: old(self).graph.nodes(), links: old(self).graph.links() }),
                (GraphState { nodes: final(self).graph.nodes(), links: final(self).graph.links() }),
            ),
            is_acyclic(old(self).graph.nodes().len(), old(self).graph.links()) ==> {
                &&& final(self).graph.links() == old(self).graph.links()
                &&& final(self).graph.nodes() == old(self).graph.nodes()
            },
            final(self).max_iterations == old(self).max_iterations,
            final(self).strategy == old(self).strategy,
            final(self).bubble_errors == old(self).bubble_errors,
            final(self).graph.names() == old(self).graph.names(),
            final(self).graph.samples() == old(self).graph.samples(),
            final(self).graph.nodes().len() == old(self).graph.nodes().len(),
            forall|i: int|
                0 <= i < final(self).graph.nodes().len() ==> (#[trigger] final(self).graph.nodes()[i])
                    == old(self).graph.nodes()[i] || final(self).graph.nodes()[i] == pinned(
                    old(self).graph.nodes()[i],
                ),
            forall|e: int|
                0 <= e < final(self).graph.links().len() ==> old(self).graph.links().contains(
                    #[trigger] final(self).graph.links()[e],
                ),
    {
        let ghost start = GraphState { nodes: self.graph.nodes(), links: self.graph.links() };
        let ghost mut rounds: Seq<GraphState> = seq![start];
        loop
            invariant
                self.wf(),
                start == (GraphState {
                    nodes: old(self).graph.nodes(),
                    links: old(self).graph.links(),
                }),
                is_breaking(rounds),
                rounds[0] == start,
                rounds.last() == (GraphState {
                    nodes: self.graph.nodes(),
                    links: self.graph.links(),
                }),
                self.strategy == old(self).strategy,
                self.bubble_errors == old(self).bubble_errors,
                is_acyclic(old(self).graph.nodes().len(), old(self).graph.links()) ==> {
                    &&& self.graph.links() == old(self).graph.links()
                    &&& self.graph.nodes() == old(self).graph.nodes()
                },
                self.max_iterations == old(self).max_iterations,
                self.graph.names() == old(self).graph.names(),
                self.graph.samples() == old(self).graph.samples(),
                self.graph.nodes().len() == old(self).graph.nodes().len(),
                forall|i: int|
                    0 <= i < self.graph.nodes().len() ==> (#[trigger] self.graph.nodes()[i]) == old(
                        self,
                    ).graph.nodes()[i] || self.graph.nodes()[i] == pinned(old(self).graph.nodes()[i]),
                forall|e: int|
                    0 <= e < self.graph.links().len() ==> old(self).graph.links().contains(
                        #[trigger] self.graph.links()[e],
                    ),
            decreases self.graph.links().len(),
        {
            let components = self.graph.strongly_connected_components();
            let mut c: usize = 0;
            while c < components.len() && components[c].len() <= 1
                invariant
                    c <= components@.len(),
                    forall|k: int| 0 <= k < c ==> (#[trigger] components@[k])@.len() <= 1,
                decreases components@.len() - c,
            {
                c += 1;
            }
            if c >= components.len() {
                proof {
                    lemma_small_components_acyclic(
                        self.graph.nodes().len(),
                        self.graph.links(),
                        components@,
                    );
                }
                return Ok(());
            }
            let ghost links = self.graph.links();
            let ghost nodes = self.graph.nodes();
            proof {
                if is_acyclic(nodes.len(), links) {
                    lemma_acyclic_components_small(nodes.len(), links, components@);
                    assert(components@[c as int]@.len() == 1);
                }
                lemma_component_has_edge(nodes.len(), links, components@, c as int);
                lemma_heaviest_in_range(links, as_ints(components@[c as int]@), links.len() as int);
                lemma_component_is_group(nodes.len(), links, components@, c as int);
            }
            match self.break_cycle_with_version_pinning(&components[c]) {
                Ok(_) => {},
                Err(error) => {
                    return Err(error);
                },
            }
            proof {
                let before = GraphState { nodes, links };
                let now = GraphState { nodes: self.graph.nodes(), links: self.graph.links() };
                let group = as_ints(components@[c as int]@);
                assert(is_cycle_group(before.nodes.len(), before.links, group));
                assert(breaks(before, now, group));
                assert(is_breaking_round(before, now));
                let longer = rounds.push(now);
                assert forall|k: int| 0 <= k < longer.len() - 1 implies is_breaking_round(
                    #[trigger] longer[k],
                    longer[k + 1],
                ) by {
                    if k < rounds.len() - 1 {
                        assert(longer[k] == rounds[k]);
                        assert(longer[k + 1] == rounds[k + 1]);
                    } else {
                        assert(longer[k] == rounds.last());
                    }
                }
                rounds = longer;
                let e = heaviest(links, as_ints(components@[c as int]@), links.len() as int)->0;
                let after = self.graph.links();
                assert forall|k: int| 0 <= k < after.len() implies old(self).graph.links().contains(
                    #[trigger] after[k],
                ) by {
                    if k == e {
                        assert(after[k] == links[links.len() - 1]);
                    } else {
                        assert(after[k] == links[k]);
                    }
                }
                let target = links[e].target;
                assert forall|i: int| 0 <= i < self.graph.nodes().len() implies (#[trigger] self.graph.nodes()[i])
                    == old(self).graph.nodes()[i] || self.graph.nodes()[i] == pinned(
                    old(self).graph.nodes()[i],
                ) by {
                    if i == target {
                        assert(self.graph.nodes()[i] == pinned(nodes[i]));
                        assert(pinned(pinned(old(self).graph.nodes()[i])) == pinned(
                            old(self).graph.nodes()[i],
                        ));
                    } else {
                        assert(self.graph.nodes()[i] == nodes[i]);
                    }
                }
            }
        }
    }
}

} // verus!
