//! A resolver for packages that name their dependencies: it puts the
//! packages in an order in which each comes after what it depends on.

use crate::error::texts;
use crate::hamiltonian::lemma_unvisited_update;
use crate::hamiltonian::marks;
use crate::hamiltonian::unvisited;
use crate::resolver::as_ints;
use crate::text::chars_of;
use crate::text::same_chars;
use vstd::hash_map::StringHashMap;
use vstd::prelude::*;

verus! {

/// A package with the names of the packages it depends on.
#[derive(Debug, Clone, PartialEq, Eq, Hash)]
pub struct PackageNode {
    pub name: String,
    pub version: String,
    pub dependencies: Vec<String>,
}

/// What a `PackageNode` holds, as plain values.
pub struct PackageView {
    pub name: Seq<char>,
    pub version: Seq<char>,
    pub dependencies: Seq<Seq<char>>,
}

impl View for PackageNode {
    type V = PackageView;

    open spec fn view(&self) -> PackageView {
        PackageView {
            name: self.name@,
            version: self.version@,
            dependencies: texts(self.dependencies@),
        }
    }
}

/// The views of a sequence of packages.
pub open spec fn views(packages: Seq<PackageNode>) -> Seq<PackageView> {
    Seq::new(packages.len(), |i: int| packages[i]@)
}

/// The dependencies with every `from` among them made `to`.
pub open spec fn renamed(deps: Seq<Seq<char>>, from: Seq<char>, to: Seq<char>) -> Seq<Seq<char>> {
    Seq::new(
        deps.len(),
        |i: int|
            if deps[i] == from {
                to
            } else {
                deps[i]
            },
    )
}

/// The packages `packages[..upto]` as they are after the package `from` has
/// made way for a package called `to`: without `from` and without any
/// package called `to`, and depending on `to` where they depended on `from`.
pub open spec fn kept(packages: Seq<PackageNode>, upto: int, from: Seq<char>, to: Seq<char>) -> Seq<
    PackageView,
>
    decreases upto,
{
    if upto <= 0 {
        Seq::empty()
    } else if packages[upto - 1].name@ == from || packages[upto - 1].name@ == to {
        kept(packages, upto - 1, from, to)
    } else {
        kept(packages, upto - 1, from, to).push(
            PackageView {
                name: packages[upto - 1].name@,
                version: packages[upto - 1].version@,
                dependencies: renamed(texts(packages[upto - 1].dependencies@), from, to),
            },
        )
    }
}

/// The packages after `new` has taken the place of the package `from`: the
/// packages that stay, then `new`.
pub open spec fn swapped(packages: Seq<PackageNode>, from: Seq<char>, new: PackageView) -> Seq<
    PackageView,
> {
    kept(packages, packages.len() as int, from, new.name).push(new)
}

/// Why the packages cannot be put in order.
#[derive(Debug)]
pub enum ResolverError {
    CircularDependency(String),
    MissingDependency(String),
    VersionConflict(String),
}

impl ResolverError {
    /// The error in words.
    pub open spec fn text(self) -> Seq<char> {
        match self {
            ResolverError::CircularDependency(m) => "Circular dependency: "@ + m@,
            ResolverError::MissingDependency(m) => "Missing dependency: "@ + m@,
            ResolverError::VersionConflict(m) => "Version conflict: "@ + m@,
        }
    }

    /// Computes `text`.
    pub fn to_string(&self) -> (s: String)
        ensures
            s@ == self.text(),
    {
        match self {
            ResolverError::CircularDependency(m) => String::from_str("Circular dependency: ").concat(
                m.as_str(),
            ),
            ResolverError::MissingDependency(m) => String::from_str("Missing dependency: ").concat(
                m.as_str(),
            ),
            ResolverError::VersionConflict(m) => String::from_str("Version conflict: ").concat(
                m.as_str(),
            ),
        }
    }
}

/// The mark of a package that the search has not met.
pub const WHITE: u8 = 0;

/// The mark of a package that the search has entered and not left.
pub const GRAY: u8 = 1;

/// The mark of a package that the search has left.
pub const BLACK: u8 = 2;

/// Whether the package at `a` names the package at `b` among its
/// dependencies.
pub open spec fn depends_on(
    packages: Seq<PackageNode>,
    names: Map<Seq<char>, usize>,
    a: int,
    b: int,
) -> bool {
    &&& 0 <= a < packages.len()
    &&& exists|k: int|
        0 <= k < packages[a].dependencies@.len() && names.contains_key(
            #[trigger] packages[a].dependencies@[k]@,
        ) && names[packages[a].dependencies@[k]@] == b
}

/// Whether each package of `chain` depends on the next one.
pub open spec fn is_chain(
    packages: Seq<PackageNode>,
    names: Map<Seq<char>, usize>,
    chain: Seq<int>,
) -> bool {
    forall|j: int|
        0 <= j < chain.len() - 1 ==> depends_on(packages, names, #[trigger] chain[j], chain[j + 1])
}

/// Whether some package depends on itself, directly or through others.
pub open spec fn has_cycle(packages: Seq<PackageNode>, names: Map<Seq<char>, usize>) -> bool {
    exists|chain: Seq<int>| #[trigger]
        is_chain(packages, names, chain) && chain.len() >= 2 && chain[0] == chain.last()
}

/// Whether some package names `dep` as a dependency and no package is called
/// `dep`.
pub open spec fn is_missing(
    packages: Seq<PackageNode>,
    names: Map<Seq<char>, usize>,
    dep: Seq<char>,
) -> bool {
    &&& !names.contains_key(dep)
    &&& exists|a: int, k: int|
        0 <= a < packages.len() && 0 <= k < packages[a].dependencies@.len()
            && #[trigger] packages[a].dependencies@[k]@ == dep
}

/// Whether `name` stands in `order` before the place `p`.
pub open spec fn comes_before(order: Seq<Seq<char>>, p: int, name: Seq<char>) -> bool {
    exists|q: int| 0 <= q < p && #[trigger] order[q] == name
}

/// Whether `order` holds every package once and nothing else, each package
/// after all that it depends on.
pub open spec fn is_install_order(
    packages: Seq<PackageNode>,
    names: Map<Seq<char>, usize>,
    order: Seq<Seq<char>>,
) -> bool {
    &&& forall|i: int|
        0 <= i < packages.len() ==> comes_before(
            order,
            order.len() as int,
            (#[trigger] packages[i]).name@,
        )
    &&& forall|p: int| 0 <= p < order.len() ==> names.contains_key(#[trigger] order[p])
    &&& forall|p: int, q: int| 0 <= p < q < order.len() ==> order[p] != order[q]
    &&& forall|p: int, k: int|
        0 <= p < order.len() && names.contains_key(order[p]) && 0 <= k
            < packages[names[order[p]] as int].dependencies@.len() ==> comes_before(
            order,
            p,
            #[trigger] packages[names[order[p]] as int].dependencies@[k]@,
        )
}

/// The number of packages that the search has not met.
pub open spec fn whites(colours: Seq<u8>) -> nat
    decreases colours.len(),
{
    if colours.len() == 0 {
        0
    } else {
        whites(colours.drop_last()) + if colours.last() == WHITE {
            1nat
        } else {
            0nat
        }
    }
}

/// What marking a package does to the number of packages not met.
pub proof fn lemma_whites_update(colours: Seq<u8>, i: int, mark: u8)
    requires
        0 <= i < colours.len(),
        mark != WHITE,
    ensures
        colours[i] == WHITE ==> whites(colours) >= 1 && whites(colours.update(i, mark)) == whites(
            colours,
        ) - 1,
        colours[i] != WHITE ==> whites(colours.update(i, mark)) == whites(colours),
    decreases colours.len(),
{
    let marked = colours.update(i, mark);
    if i == colours.len() - 1 {
        assert(marked.drop_last() =~= colours.drop_last());
    } else {
        lemma_whites_update(colours.drop_last(), i, mark);
        assert(marked.drop_last() =~= colours.drop_last().update(i, mark));
    }
}

/// Whether the package at `i` stands in `order`.
pub open spec fn is_listed(order: Seq<usize>, i: int) -> bool {
    exists|p: int| 0 <= p < order.len() && #[trigger] order[p] == i
}

/// Whether the package called `dep` stands in `order` before the place `p`.
pub open spec fn is_settled(names: Map<Seq<char>, usize>, order: Seq<usize>, p: int, dep: Seq<char>) -> bool {
    names.contains_key(dep) && is_listed(order.subrange(0, p), names[dep] as int)
}

/// Whether `order` holds exactly the packages that the search has left, each
/// once and after all that it depends on.
pub open spec fn finished_in_order(
    packages: Seq<PackageNode>,
    names: Map<Seq<char>, usize>,
    colours: Seq<u8>,
    order: Seq<usize>,
) -> bool {
    &&& forall|p: int|
        0 <= p < order.len() ==> (#[trigger] order[p]) < packages.len() && colours[order[p] as int]
            == BLACK
    &&& forall|i: int|
        0 <= i < packages.len() && #[trigger] colours[i] == BLACK ==> is_listed(order, i)
    &&& forall|p: int, q: int| 0 <= p < q < order.len() ==> order[p] != order[q]
    &&& forall|p: int, k: int|
        0 <= p < order.len() && 0 <= k < packages[order[p] as int].dependencies@.len()
            ==> is_settled(names, order, p, #[trigger] packages[order[p] as int].dependencies@[k]@)
}

/// Whether `stack` holds exactly the packages that the search has entered and
/// not left, each depending on the next, and every package bears one of the
/// three marks.
pub open spec fn entered_in_chain(
    packages: Seq<PackageNode>,
    names: Map<Seq<char>, usize>,
    colours: Seq<u8>,
    stack: Seq<int>,
) -> bool {
    &&& is_chain(packages, names, stack)
    &&& forall|j: int| 0 <= j < stack.len() ==> 0 <= #[trigger] stack[j] < packages.len()
    &&& forall|i: int|
        0 <= i < packages.len() ==> (#[trigger] colours[i] == GRAY <==> stack.contains(i))
    &&& forall|i: int| 0 <= i < packages.len() ==> #[trigger] colours[i] <= BLACK
}

/// Whether `tour` is a round through the packages: it holds every package
/// once, each depends on the next, and the last depends on the first.
pub open spec fn is_round(
    packages: Seq<PackageNode>,
    names: Map<Seq<char>, usize>,
    tour: Seq<int>,
) -> bool {
    &&& tour.len() == packages.len()
    &&& tour.len() > 0
    &&& is_simple_chain(packages, names, tour)
    &&& depends_on(packages, names, tour.last(), tour[0])
}

/// Whether `path` holds packages, none of them twice, each depending on the
/// next.
pub open spec fn is_simple_chain(
    packages: Seq<PackageNode>,
    names: Map<Seq<char>, usize>,
    path: Seq<int>,
) -> bool {
    &&& is_chain(packages, names, path)
    &&& forall|j: int| 0 <= j < path.len() ==> 0 <= #[trigger] path[j] < packages.len()
    &&& forall|p: int, q: int| 0 <= p < q < path.len() ==> path[p] != path[q]
}

/// Whether `tour` starts with `path`.
pub open spec fn starts_with(tour: Seq<int>, path: Seq<int>) -> bool {
    path.len() <= tour.len() && tour.subrange(0, path.len() as int) == path
}

/// Whether a round through the packages starts with `path`.
pub open spec fn has_round_through(
    packages: Seq<PackageNode>,
    names: Map<Seq<char>, usize>,
    path: Seq<int>,
) -> bool {
    exists|tour: Seq<int>| #[trigger] is_round(packages, names, tour) && starts_with(tour, path)
}

/// A resolver for named packages.
pub struct DependencyResolver {
    packages: Vec<PackageNode>,
    index: StringHashMap<usize>,
}

impl DependencyResolver {
    /// The packages, in the order in which they came.
    pub closed spec fn packages(&self) -> Seq<PackageNode> {
        self.packages@
    }

    /// The place of each package by its name.
    pub closed spec fn names(&self) -> Map<Seq<char>, usize> {
        self.index@
    }

    /// Every package is found under its name, and nothing else is: no two
    /// packages share a name.
    pub open spec fn wf(&self) -> bool {
        &&& forall|i: int|
            0 <= i < self.packages().len() ==> self.names().contains_key(
                (#[trigger] self.packages()[i]).name@,
            ) && self.names()[self.packages()[i].name@] == i
        &&& forall|k: Seq<char>| #[trigger]
            self.names().contains_key(k) ==> self.names()[k] < self.packages().len()
                && self.packages()[self.names()[k] as int].name@ == k
    }

    /// A resolver without packages.
    pub fn new() -> (r: Self)
        ensures
            r.wf(),
            r.packages() == Seq::<PackageNode>::empty(),
            r.names() == Map::<Seq<char>, usize>::empty(),
    {
        DependencyResolver { packages: Vec::new(), index: StringHashMap::new() }
    }

    /// The number of packages.
    pub fn len(&self) -> (n: usize)
        ensures
            n == self.packages().len(),
    {
        self.packages.len()
    }

    /// Takes a package in. A package whose name is known takes the place of
    /// the package of that name; any other package comes last.
    pub fn add_package(&mut self, package: PackageNode)
        requires
            old(self).wf(),
        ensures
            final(self).wf(),
            old(self).names().contains_key(package.name@) ==> {
                &&& final(self).packages() == old(self).packages().update(
                    old(self).names()[package.name@] as int,
                    package,
                )
                &&& final(self).names() == old(self).names()
            },
            !old(self).names().contains_key(package.name@) ==> {
                &&& final(self).packages() == old(self).packages().push(package)
                &&& final(self).names() == old(self).names().insert(
                    package.name@,
                    old(self).packages().len() as usize,
                )
            },
    {
        let known = match self.index.get(package.name.as_str()) {
            Some(at) => Some(*at),
            None => None,
        };
        match known {
            Some(at) => {
                proof {
                    assert(self.names().contains_key(package.name@));
                    assert(self.packages()[at as int].name@ == package.name@);
                }
                self.packages.set(at, package);
                proof {
                    let before = old(self).packages();
                    let after = self.packages();
                    assert forall|i: int| 0 <= i < after.len() implies self.names().contains_key(
                        (#[trigger] after[i]).name@,
                    ) && self.names()[after[i].name@] == i by {
                        if i != at {
                            assert(after[i] == before[i]);
                        }
                    }
                    assert forall|k: Seq<char>| #[trigger] self.names().contains_key(k) implies self.names()[k]
                        < after.len() && after[self.names()[k] as int].name@ == k by {
                        if self.names()[k] != at {
                            assert(after[self.names()[k] as int] == before[self.names()[k] as int]);
                        }
                    }
                }
            },
            None => {
                let at = self.packages.len();
                self.index.insert(package.name.clone(), at);
                self.packages.push(package);
                proof {
                    let before = old(self).packages();
                    let after = self.packages();
                    assert forall|i: int| 0 <= i < after.len() implies self.names().contains_key(
                        (#[trigger] after[i]).name@,
                    ) && self.names()[after[i].name@] == i by {
                        if i < before.len() {
                            assert(after[i] == before[i]);
                            assert(old(self).names().contains_key(before[i].name@));
                        }
                    }
                    assert forall|k: Seq<char>| #[trigger] self.names().contains_key(k) implies self.names()[k]
                        < after.len() && after[self.names()[k] as int].name@ == k by {
                        if k != package.name@ {
                            assert(old(self).names().contains_key(k));
                        }
                    }
                }
            },
        }
    }

    /// Whether every package names an even number of dependencies.
    pub fn has_eulerian_cycle(&self) -> (r: bool)
        ensures
            r == forall|i: int|
                0 <= i < self.packages().len() ==> (#[trigger] self.packages()[i]).dependencies@.len()
                    % 2 == 0,
    {
        let mut i: usize = 0;
        while i < self.packages.len()
            invariant
                i <= self.packages().len(),
                forall|j: int|
                    0 <= j < i ==> (#[trigger] self.packages()[j]).dependencies@.len() % 2 == 0,
            decreases self.packages().len() - i,
        {
            if self.packages[i].dependencies.len() % 2 != 0 {
                return false;
            }
            i += 1;
        }
        true
    }

    /// Whether the package at `from` names the package at `to` among its
    /// dependencies.
    fn names_dependency(&self, from: usize, to: usize) -> (r: bool)
        requires
            self.wf(),
            from < self.packages().len(),
            to < self.packages().len(),
        ensures
            r == depends_on(self.packages(), self.names(), from as int, to as int),
    {
        let ghost packages = self.packages();
        let ghost names = self.names();
        let mut k: usize = 0;
        while k < self.packages[from].dependencies.len()
            invariant
                self.wf(),
                packages == self.packages(),
                names == self.names(),
                from < packages.len(),
                to < packages.len(),
                k <= packages[from as int].dependencies@.len(),
                forall|j: int|
                    0 <= j < k ==> !(names.contains_key(
                        #[trigger] packages[from as int].dependencies@[j]@,
                    ) && names[packages[from as int].dependencies@[j]@] == to),
            decreases packages[from as int].dependencies@.len() - k,
        {
            if self.packages[from].dependencies[k] == self.packages[to].name {
                proof {
                    assert(names.contains_key(packages[to as int].name@));
                    assert(packages[from as int].dependencies@[k as int]@ == packages[to as int].name@);
                }
                return true;
            }
            proof {
                let dep = packages[from as int].dependencies@[k as int]@;
                if names.contains_key(dep) && names[dep] == to {
                    assert(packages[names[dep] as int].name@ == dep);
                }
            }
            k += 1;
        }
        false
    }

    /// Searches for a round through the packages that starts with `path`,
    /// whose last package is `current`.
    fn hamiltonian_dfs(&self, current: usize, visited: &mut Vec<bool>, path: &mut Vec<usize>) -> (found:
        bool)
        requires
            self.wf(),
            current < self.packages().len(),
            old(visited)@.len() == self.packages().len(),
            old(path)@.len() > 0,
            old(path)@.last() == current,
            marks(old(visited)@, as_ints(old(path)@)),
            is_simple_chain(self.packages(), self.names(), as_ints(old(path)@)),
        ensures
            found == has_round_through(self.packages(), self.names(), as_ints(old(path)@)),
            !found ==> final(visited)@ == old(visited)@ && final(path)@ == old(path)@,
        decreases unvisited(old(visited)@),
    {
        let ghost packages = self.packages();
        let ghost names = self.names();
        let ghost path0 = as_ints(path@);
        let ghost visited0 = visited@;
        let n = self.packages.len();
        if path.len() == n {
            let start = path[0];
            proof {
                assert(path0[0] == start as int);
                assert(path0.last() == current as int);
            }
            let closes = self.names_dependency(current, start);
            proof {
                if closes {
                    assert(path0.subrange(0, path0.len() as int) =~= path0);
                    assert(is_round(packages, names, path0));
                } else {
                    if has_round_through(packages, names, path0) {
                        let tour = choose|tour: Seq<int>| #[trigger]
                            is_round(packages, names, tour) && starts_with(tour, path0);
                        assert(tour.subrange(0, path0.len() as int) =~= tour);
                    }
                }
            }
            return closes;
        }
        let count = self.packages[current].dependencies.len();
        let mut k: usize = 0;
        while k < count
            invariant
                self.wf(),
                packages == self.packages(),
                names == self.names(),
                n == packages.len(),
                current < n,
                count == packages[current as int].dependencies@.len(),
                k <= count,
                visited@ == visited0,
                visited0 == old(visited)@,
                path@ == old(path)@,
                path0 == as_ints(path@),
                path0.len() > 0,
                path0.len() != n,
                path0.last() == current,
                visited0.len() == n,
                marks(visited0, path0),
                is_simple_chain(packages, names, path0),
                forall|j: int|
                    0 <= j < k && names.contains_key(
                        #[trigger] packages[current as int].dependencies@[j]@,
                    ) && !path0.contains(names[packages[current as int].dependencies@[j]@] as int)
                        ==> !has_round_through(
                        packages,
                        names,
                        path0.push(names[packages[current as int].dependencies@[j]@] as int),
                    ),
            decreases count - k,
        {
            let dep = &self.packages[current].dependencies[k];
            let found = match self.index.get(dep.as_str()) {
                Some(at) => Some(*at),
                None => None,
            };
            proof {
                assert(packages[current as int].dependencies@[k as int]@ == dep@);
            }
            match found {
                Some(d) => {
                    proof {
                        assert(visited0[d as int] <==> path0.contains(d as int));
                    }
                    if !visited[d] {
                        visited.set(d, true);
                        path.push(d);
                        let ghost path1 = as_ints(path@);
                        proof {
                            lemma_unvisited_update(visited0, d as int);
                            assert(path1 =~= path0.push(d as int));
                            assert(depends_on(packages, names, current as int, d as int));
                            assert forall|i: int| 0 <= i < visited@.len() implies (#[trigger] visited@[i]
                                <==> path1.contains(i)) by {
                                if i == d {
                                    assert(path1[path1.len() - 1] == i);
                                } else {
                                    if path0.contains(i) {
                                        let j = choose|j: int| 0 <= j < path0.len() && path0[j] == i;
                                        assert(path1[j] == i);
                                    }
                                    if path1.contains(i) {
                                        let j = choose|j: int| 0 <= j < path1.len() && path1[j] == i;
                                        assert(path0[j] == i);
                                    }
                                }
                            }
                            assert forall|j: int| 0 <= j < path1.len() - 1 implies depends_on(
                                packages,
                                names,
                                #[trigger] path1[j],
                                path1[j + 1],
                            ) by {
                                if j < path0.len() - 1 {
                                    assert(path1[j] == path0[j]);
                                    assert(path1[j + 1] == path0[j + 1]);
                                    assert(depends_on(packages, names, path0[j], path0[j + 1]));
                                } else {
                                    assert(path1[j] == current);
                                }
                            }
                            assert forall|p: int, q: int| 0 <= p < q < path1.len() implies path1[p]
                                != path1[q] by {
                                if q == path0.len() {
                                    assert(path1[p] == path0[p]);
                                } else {
                                    assert(path1[p] == path0[p]);
                                    assert(path1[q] == path0[q]);
                                }
                            }
                        }
                        if self.hamiltonian_dfs(d, visited, path) {
                            proof {
                                let tour = choose|tour: Seq<int>| #[trigger]
                                    is_round(packages, names, tour) && starts_with(tour, path1);
                                assert(tour.subrange(0, path0.len() as int) =~= path1.subrange(
                                    0,
                                    path0.len() as int,
                                ));
                                assert(path1.subrange(0, path0.len() as int) =~= path0);
                                assert(starts_with(tour, path0));
                            }
                            return true;
                        }
                        let _ = path.pop();
                        visited.set(d, false);
                        proof {
                            assert(visited@ =~= visited0);
                            assert(path@ =~= old(path)@);
                        }
                    }
                },
                None => {},
            }
            k += 1;
        }
        proof {
            if has_round_through(packages, names, path0) {
                let tour = choose|tour: Seq<int>| #[trigger]
                    is_round(packages, names, tour) && starts_with(tour, path0);
                let at = path0.len() as int;
                assert(tour.subrange(0, at)[at - 1] == tour[at - 1]);
                assert(tour[at - 1] == current);
                let next = tour[at];
                assert(depends_on(packages, names, tour[at - 1], tour[at]));
                let j = choose|j: int|
                    0 <= j < packages[current as int].dependencies@.len() && names.contains_key(
                        #[trigger] packages[current as int].dependencies@[j]@,
                    ) && names[packages[current as int].dependencies@[j]@] == next;
                if path0.contains(next) {
                    let q = choose|q: int| 0 <= q < path0.len() && path0[q] == next;
                    assert(tour.subrange(0, at)[q] == tour[q]);
                    assert(tour[q] == tour[at]);
                }
                assert(tour.subrange(0, at + 1) =~= path0.push(next));
                assert(starts_with(tour, path0.push(next)));
            }
        }
        false
    }

    /// Whether a round leads through the packages: from the first package
    /// along dependencies through every other package once and back.
    pub fn has_hamiltonian_cycle(&self) -> (r: bool)
        requires
            self.wf(),
        ensures
            r == exists|tour: Seq<int>| #[trigger]
                is_round(self.packages(), self.names(), tour) && tour[0] == 0,
    {
        let n = self.packages.len();
        if n == 0 {
            return false;
        }
        let mut visited: Vec<bool> = vec![false; n];
        visited.set(0, true);
        let mut path: Vec<usize> = Vec::new();
        path.push(0);
        let ghost start = as_ints(path@);
        proof {
            assert(start =~= seq![0int]);
            assert forall|i: int| 0 <= i < visited@.len() implies (#[trigger] visited@[i]
                <==> start.contains(i)) by {
                if i == 0 {
                    assert(start[0] == 0);
                }
            }
        }
        let found = self.hamiltonian_dfs(0, &mut visited, &mut path);
        proof {
            if found {
                let tour = choose|tour: Seq<int>| #[trigger]
                    is_round(self.packages(), self.names(), tour) && starts_with(tour, start);
                assert(tour.subrange(0, 1)[0] == tour[0]);
            } else {
                if exists|tour: Seq<int>| #[trigger]
                    is_round(self.packages(), self.names(), tour) && tour[0] == 0 {
                    let tour = choose|tour: Seq<int>| #[trigger]
                        is_round(self.packages(), self.names(), tour) && tour[0] == 0;
                    assert(tour.subrange(0, 1) =~= start);
                    assert(starts_with(tour, start));
                }
            }
        }
        found
    }

    /// Enters the package at `node`, which the search has not met, settles
    /// what it depends on, and leaves it.
    fn dfs_visit(
        &self,
        node: usize,
        colours: &mut Vec<u8>,
        order: &mut Vec<usize>,
        Ghost(stack): Ghost<Seq<int>>,
    ) -> (r: Result<(), ResolverError>)
        requires
            self.wf(),
            node < self.packages().len(),
            old(colours)@.len() == self.packages().len(),
            old(colours)@[node as int] == WHITE,
            finished_in_order(self.packages(), self.names(), old(colours)@, old(order)@),
            entered_in_chain(self.packages(), self.names(), old(colours)@, stack),
            stack.len() > 0 ==> depends_on(
                self.packages(),
                self.names(),
                stack.last(),
                node as int,
            ),
        ensures
            final(colours)@.len() == self.packages().len(),
            r is Ok ==> {
                &&& finished_in_order(self.packages(), self.names(), final(colours)@, final(order)@)
                &&& entered_in_chain(self.packages(), self.names(), final(colours)@, stack)
                &&& final(colours)@[node as int] == BLACK
                &&& whites(final(colours)@) < whites(old(colours)@)
                &&& forall|i: int|
                    0 <= i < self.packages().len() && old(colours)@[i] == BLACK
                        ==> #[trigger] final(colours)@[i] == BLACK
            },
            r matches Err(e) ==> match e {
                ResolverError::MissingDependency(d) => is_missing(
                    self.packages(),
                    self.names(),
                    d@,
                ),
                ResolverError::CircularDependency(m) => has_cycle(self.packages(), self.names())
                    && m@ == "Circular dependency detected in package graph"@,
                ResolverError::VersionConflict(_) => false,
            },
        decreases whites(old(colours)@),
    {
        let ghost packages = self.packages();
        let ghost names = self.names();
        let ghost colours0 = colours@;
        let ghost order0 = order@;
        let ghost stack1 = stack.push(node as int);
        colours.set(node, GRAY);
        proof {
            lemma_whites_update(colours0, node as int, GRAY);
            assert(!stack.contains(node as int));
            assert forall|j: int| 0 <= j < stack1.len() - 1 implies depends_on(
                packages,
                names,
                #[trigger] stack1[j],
                stack1[j + 1],
            ) by {
                if j < stack.len() - 1 {
                    assert(stack1[j] == stack[j]);
                    assert(stack1[j + 1] == stack[j + 1]);
                    assert(depends_on(packages, names, stack[j], stack[j + 1]));
                } else {
                    assert(stack1[j] == stack.last());
                }
            }
            assert forall|i: int| 0 <= i < packages.len() implies (#[trigger] colours@[i] == GRAY
                <==> stack1.contains(i)) by {
                if i == node {
                    assert(stack1[stack1.len() - 1] == i);
                } else {
                    if stack.contains(i) {
                        let j = choose|j: int| 0 <= j < stack.len() && stack[j] == i;
                        assert(stack1[j] == i);
                    }
                    if stack1.contains(i) {
                        let j = choose|j: int| 0 <= j < stack1.len() && stack1[j] == i;
                        assert(stack[j] == i);
                    }
                }
            }
            assert(finished_in_order(packages, names, colours@, order@)) by {
                assert forall|p: int| 0 <= p < order@.len() implies (#[trigger] order@[p])
                    < packages.len() && colours@[order@[p] as int] == BLACK by {
                    assert(colours0[order@[p] as int] == BLACK);
                }
                assert forall|i: int|
                    0 <= i < packages.len() && #[trigger] colours@[i] == BLACK implies is_listed(
                    order@,
                    i,
                ) by {
                    assert(colours0[i] == BLACK);
                }
            }
        }
        let count = self.packages[node].dependencies.len();
        let mut k: usize = 0;
        while k < count
            invariant
                self.wf(),
                packages == self.packages(),
                names == self.names(),
                stack1 == stack.push(node as int),
                node < packages.len(),
                count == packages[node as int].dependencies@.len(),
                k <= count,
                colours@.len() == packages.len(),
                colours@[node as int] == GRAY,
                colours0 == old(colours)@,
                colours0[node as int] == WHITE,
                whites(colours@) < whites(colours0),
                finished_in_order(packages, names, colours@, order@),
                entered_in_chain(packages, names, colours@, stack1),
                forall|i: int|
                    0 <= i < packages.len() && colours0[i] == BLACK ==> #[trigger] colours@[i]
                        == BLACK,
                forall|j: int|
                    0 <= j < k ==> names.contains_key(
                        #[trigger] packages[node as int].dependencies@[j]@,
                    ) && colours@[names[packages[node as int].dependencies@[j]@] as int] == BLACK,
            decreases count - k,
        {
            let dep = &self.packages[node].dependencies[k];
            let found = match self.index.get(dep.as_str()) {
                Some(at) => Some(*at),
                None => None,
            };
            let d = match found {
                Some(at) => at,
                None => {
                    proof {
                        assert(packages[node as int].dependencies@[k as int]@ == dep@);
                    }
                    return Err(ResolverError::MissingDependency(dep.clone()));
                },
            };
            proof {
                assert(packages[node as int].dependencies@[k as int]@ == dep@);
                assert(depends_on(packages, names, node as int, d as int));
            }
            if colours[d] == GRAY {
                proof {
                    assert(stack1.contains(d as int));
                    let j = choose|j: int| 0 <= j < stack1.len() && stack1[j] == d;
                    let cycle = stack1.subrange(j, stack1.len() as int).push(d as int);
                    assert forall|i: int| 0 <= i < cycle.len() - 1 implies depends_on(
                        packages,
                        names,
                        #[trigger] cycle[i],
                        cycle[i + 1],
                    ) by {
                        if i < cycle.len() - 2 {
                            assert(cycle[i] == stack1[j + i]);
                            assert(cycle[i + 1] == stack1[j + i + 1]);
                            assert(depends_on(packages, names, stack1[j + i], stack1[j + i + 1]));
                        } else {
                            assert(cycle[i] == stack1[stack1.len() - 1]);
                            assert(cycle[i + 1] == d);
                        }
                    }
                    assert(is_chain(packages, names, cycle));
                    assert(cycle[0] == d && cycle.last() == d);
                }
                return Err(
                    ResolverError::CircularDependency(
                        String::from_str("Circular dependency detected in package graph"),
                    ),
                );
            }
            if colours[d] == WHITE {
                let ghost before = colours@;
                match self.dfs_visit(d, colours, order, Ghost(stack1)) {
                    Ok(_) => {},
                    Err(e) => {
                        return Err(e);
                    },
                }
                proof {
                    assert(stack1.contains(node as int)) by {
                        assert(stack1[stack1.len() - 1] == node);
                    }
                    assert forall|j: int| 0 <= j < k implies names.contains_key(
                        #[trigger] packages[node as int].dependencies@[j]@,
                    ) && colours@[names[packages[node as int].dependencies@[j]@] as int]
                        == BLACK by {
                        let at = names[packages[node as int].dependencies@[j]@] as int;
                        assert(before[at] == BLACK);
                    }
                    assert forall|i: int|
                        0 <= i < packages.len() && colours0[i] == BLACK implies #[trigger] colours@[i]
                        == BLACK by {
                        assert(before[i] == BLACK);
                    }
                }
            }
            assert(colours@[d as int] == BLACK);
            k += 1;
        }
        let ghost colours1 = colours@;
        let ghost order1 = order@;
        colours.set(node, BLACK);
        order.push(node);
        proof {
            lemma_whites_update(colours1, node as int, BLACK);
            let place = order1.len() as int;
            assert(order@[place] == node);
            assert(!is_listed(order1, node as int)) by {
                if is_listed(order1, node as int) {
                    let p = choose|p: int| 0 <= p < order1.len() && #[trigger] order1[p] == node;
                    assert(colours1[order1[p] as int] == BLACK);
                }
            }
            assert forall|p: int| 0 <= p < order@.len() implies (#[trigger] order@[p])
                < packages.len() && colours@[order@[p] as int] == BLACK by {
                if p < place {
                    assert(order@[p] == order1[p]);
                    assert(colours1[order1[p] as int] == BLACK);
                }
            }
            assert forall|i: int|
                0 <= i < packages.len() && #[trigger] colours@[i] == BLACK implies is_listed(
                order@,
                i,
            ) by {
                if i == node {
                    assert(order@[place] == i);
                } else {
                    assert(colours1[i] == BLACK);
                    let p = choose|p: int| 0 <= p < order1.len() && #[trigger] order1[p] == i;
                    assert(order@[p] == i);
                }
            }
            assert forall|p: int, q: int| 0 <= p < q < order@.len() implies order@[p]
                != order@[q] by {
                if q == place {
                    assert(order@[p] == order1[p]);
                    if order1[p] == node {
                        assert(is_listed(order1, node as int));
                    }
                } else {
                    assert(order@[p] == order1[p]);
                    assert(order@[q] == order1[q]);
                }
            }
            assert forall|p: int, j: int|
                0 <= p < order@.len() && 0 <= j
                    < packages[order@[p] as int].dependencies@.len() implies is_settled(
                names,
                order@,
                p,
                #[trigger] packages[order@[p] as int].dependencies@[j]@,
            ) by {
                let dep = packages[order@[p] as int].dependencies@[j]@;
                if p < place {
                    assert(order@[p] == order1[p]);
                    assert(is_settled(names, order1, p, dep));
                    assert(order@.subrange(0, p) =~= order1.subrange(0, p));
                } else {
                    let at = names[dep] as int;
                    assert(colours1[at] == BLACK);
                    assert(is_listed(order1, at));
                    assert(order@.subrange(0, p) =~= order1);
                }
            }
            assert forall|i: int| 0 <= i < packages.len() implies (#[trigger] colours@[i] == GRAY
                <==> stack.contains(i)) by {
                if i != node {
                    assert(colours1[i] == GRAY <==> stack1.contains(i));
                    if stack.contains(i) {
                        let j = choose|j: int| 0 <= j < stack.len() && stack[j] == i;
                        assert(stack1[j] == i);
                    }
                    if stack1.contains(i) {
                        let j = choose|j: int| 0 <= j < stack1.len() && stack1[j] == i;
                        assert(stack[j] == i);
                    }
                }
            }
        }
        Ok(())
    }

    /// Puts the packages in an order in which each comes after all that it
    /// depends on. That cannot be done where a package depends on itself,
    /// directly or through others, or where a dependency names no package.
    pub fn resolve(&self) -> (r: Result<Vec<String>, ResolverError>)
        requires
            self.wf(),
        ensures
            r matches Ok(order) ==> is_install_order(
                self.packages(),
                self.names(),
                texts(order@),
            ),
            r matches Err(e) ==> match e {
                ResolverError::MissingDependency(d) => is_missing(
                    self.packages(),
                    self.names(),
                    d@,
                ),
                ResolverError::CircularDependency(m) => has_cycle(self.packages(), self.names())
                    && m@ == "Circular dependency detected in package graph"@,
                ResolverError::VersionConflict(_) => false,
            },
    {
        let n = self.packages.len();
        let ghost packages = self.packages();
        let ghost names = self.names();
        let mut colours: Vec<u8> = vec![WHITE; n];
        let mut order: Vec<usize> = Vec::new();
        let mut i: usize = 0;
        proof {
            assert forall|j: int| 0 <= j < packages.len() implies (#[trigger] colours@[j] == GRAY
                <==> Seq::<int>::empty().contains(j)) by {}
        }
        while i < n
            invariant
                self.wf(),
                packages == self.packages(),
                names == self.names(),
                n == packages.len(),
                i <= n,
                colours@.len() == n,
                finished_in_order(packages, names, colours@, order@),
                entered_in_chain(packages, names, colours@, Seq::<int>::empty()),
                forall|j: int| 0 <= j < i ==> #[trigger] colours@[j] == BLACK,
            decreases n - i,
        {
            if colours[i] == WHITE {
                let ghost before = colours@;
                match self.dfs_visit(i, &mut colours, &mut order, Ghost(Seq::empty())) {
                    Ok(_) => {},
                    Err(e) => {
                        return Err(e);
                    },
                }
                proof {
                    assert forall|j: int| 0 <= j < i implies #[trigger] colours@[j] == BLACK by {
                        assert(before[j] == BLACK);
                    }
                }
            } else {
                proof {
                    assert(!Seq::<int>::empty().contains(i as int));
                }
            }
            i += 1;
        }
        let mut listed: Vec<String> = Vec::new();
        let mut p: usize = 0;
        while p < order.len()
            invariant
                self.wf(),
                packages == self.packages(),
                p <= order@.len(),
                listed@.len() == p,
                forall|q: int| 0 <= q < order@.len() ==> (#[trigger] order@[q]) < packages.len(),
                forall|q: int| 0 <= q < p ==> (#[trigger] listed@[q])@ == packages[order@[q] as int].name@,
            decreases order@.len() - p,
        {
            listed.push(self.packages[order[p]].name.clone());
            p += 1;
        }
        proof {
            let shown = texts(listed@);
            assert forall|q: int| 0 <= q < shown.len() implies #[trigger] shown[q]
                == packages[order@[q] as int].name@ && names[shown[q]] == order@[q] by {
                assert(shown[q] == listed@[q]@);
            }
            assert forall|j: int| 0 <= j < packages.len() implies comes_before(
                shown,
                shown.len() as int,
                (#[trigger] packages[j]).name@,
            ) by {
                assert(colours@[j] == BLACK);
                assert(is_listed(order@, j));
                let q = choose|q: int| 0 <= q < order@.len() && #[trigger] order@[q] == j;
                assert(shown[q] == packages[j].name@);
            }
            assert forall|a: int, b: int| 0 <= a < b < shown.len() implies shown[a] != shown[b] by {
                assert(names[shown[a]] == order@[a]);
                assert(names[shown[b]] == order@[b]);
            }
            assert forall|a: int, k: int|
                0 <= a < shown.len() && names.contains_key(shown[a]) && 0 <= k
                    < packages[names[shown[a]] as int].dependencies@.len() implies comes_before(
                shown,
                a,
                #[trigger] packages[names[shown[a]] as int].dependencies@[k]@,
            ) by {
                let dep = packages[names[shown[a]] as int].dependencies@[k]@;
                assert(names[shown[a]] == order@[a]);
                assert(is_settled(names, order@, a, packages[order@[a] as int].dependencies@[k]@));
                let at = names[dep] as int;
                let q = choose|q: int|
                    0 <= q < order@.subrange(0, a).len() && #[trigger] order@.subrange(0, a)[q]
                        == at;
                assert(order@[q] == at);
                assert(shown[q] == packages[at].name@);
            }
        }
        Ok(listed)
    }
}

/// Whether two texts are the same.
fn same_text(a: &str, b: &str) -> (r: bool)
    ensures
        r == (a@ == b@),
{
    same_chars(&chars_of(a), &chars_of(b))
}

/// A copy of the dependencies with every `from` among them made `to`.
fn rename_all(deps: &Vec<String>, from: &str, to: &str) -> (r: Vec<String>)
    ensures
        texts(r@) == renamed(texts(deps@), from@, to@),
{
    let mut out: Vec<String> = Vec::new();
    let mut i: usize = 0;
    while i < deps.len()
        invariant
            i <= deps@.len(),
            out@.len() == i,
            forall|j: int|
                0 <= j < i ==> (#[trigger] out@[j])@ == (if deps@[j]@ == from@ {
                    to@
                } else {
                    deps@[j]@
                }),
        decreases deps@.len() - i,
    {
        if same_text(deps[i].as_str(), from) {
            out.push(String::from_str(to));
        } else {
            out.push(deps[i].clone());
        }
        i += 1;
    }
    proof {
        assert(texts(out@) =~= renamed(texts(deps@), from@, to@));
    }
    out
}

impl DependencyResolver {
    /// Puts `new_package` in the place of the package `old_package`: the
    /// packages that depended on the old one depend on the new one, the old
    /// one leaves, and so does any package that bore the new one's name.
    /// Without a package `old_package` nothing changes.
    pub fn hot_swap(&mut self, old_package: &str, new_package: PackageNode) -> (r: Result<
        (),
        ResolverError,
    >)
        requires
            old(self).wf(),
        ensures
            final(self).wf(),
            old(self).names().contains_key(old_package@) ==> r is Ok && views(
                final(self).packages(),
            ) == swapped(old(self).packages(), old_package@, new_package@),
            !old(self).names().contains_key(old_package@) ==> {
                &&& r matches Err(ResolverError::MissingDependency(m)) && m@ == "Package "@
                    + old_package@ + " not found for hot-swap"@
                &&& final(self).packages() == old(self).packages()
                &&& final(self).names() == old(self).names()
            },
    {
        if !self.index.contains_key(old_package) {
            let mut message = String::from_str("Package ");
            message.append(old_package);
            message.append(" not found for hot-swap");
            return Err(ResolverError::MissingDependency(message));
        }
        let ghost packages = self.packages();
        let ghost names = self.names();
        let mut next = DependencyResolver::new();
        let mut i: usize = 0;
        while i < self.packages.len()
            invariant
                self.wf(),
                next.wf(),
                packages == self.packages(),
                names == self.names(),
                i <= packages.len(),
                views(next.packages()) == kept(packages, i as int, old_package@, new_package.name@),
                forall|k: Seq<char>| #[trigger]
                    next.names().contains_key(k) ==> names.contains_key(k) && names[k] < i && k
                        != new_package.name@,
            decreases packages.len() - i,
        {
            let package = &self.packages[i];
            if !same_text(package.name.as_str(), old_package) && !same_text(
                package.name.as_str(),
                new_package.name.as_str(),
            ) {
                let copy = PackageNode {
                    name: package.name.clone(),
                    version: package.version.clone(),
                    dependencies: rename_all(
                        &package.dependencies,
                        old_package,
                        new_package.name.as_str(),
                    ),
                };
                let ghost before = next.packages();
                proof {
                    if next.names().contains_key(copy.name@) {
                        assert(names[copy.name@] < i);
                        assert(names[packages[i as int].name@] == i);
                    }
                }
                next.add_package(copy);
                proof {
                    assert(views(next.packages()) =~= views(before).push(copy@));
                    assert forall|k: Seq<char>| #[trigger] next.names().contains_key(k) implies names.contains_key(
                        k,
                    ) && names[k] < i + 1 && k != new_package.name@ by {
                        if k == copy.name@ {
                            assert(names.contains_key(packages[i as int].name@));
                        }
                    }
                }
            }
            i += 1;
        }
        let ghost before = next.packages();
        next.add_package(new_package);
        proof {
            assert(views(next.packages()) =~= views(before).push(new_package@));
        }
        *self = next;
        Ok(())
    }
}

impl Default for DependencyResolver {
    fn default() -> (r: Self)
        ensures
            r.wf(),
            r.packages() == Seq::<PackageNode>::empty(),
    {
        DependencyResolver::new()
    }
}

} // verus!
