//! The records that the dependency graph is made of.

use crate::health::full_health;
use crate::health::ComponentHealth;
use crate::version::SemverX;
use vstd::prelude::*;

verus! {

/// Above this weight an edge is critical.
pub const CRITICAL_WEIGHT: u64 = 5_000;

/// What a component asks of another one.
#[derive(Debug)]
pub struct Dependency {
    pub name: String,
    pub version: SemverX,
    pub range: String,
    pub optional: bool,
    pub dev: bool,
    pub verb_noun_class: String,
}

impl Dependency {
    /// Whether the dependency has to be in the graph for a resolution to be
    /// complete: it is neither optional nor for development only.
    pub open spec fn is_required(self) -> bool {
        !self.optional && !self.dev
    }

    /// A required dependency on `name`, without a class.
    pub fn new(name: String, version: SemverX, range: String) -> (d: Self)
        ensures
            d.name == name,
            d.version == version,
            d.range == range,
            !d.optional,
            !d.dev,
            d.verb_noun_class@ == Seq::<char>::empty(),
    {
        Dependency { name, version, range, optional: false, dev: false, verb_noun_class: String::new() }
    }

    /// The same dependency, marked optional.
    pub fn optional(self) -> (d: Self)
        ensures
            d == (Dependency { optional: true, ..self }),
    {
        let mut d = self;
        d.optional = true;
        d
    }

    /// The same dependency, marked for development only.
    pub fn dev(self) -> (d: Self)
        ensures
            d == (Dependency { dev: true, ..self }),
    {
        let mut d = self;
        d.dev = true;
        d
    }
}

/// A component as the graph holds it.
#[derive(Debug)]
pub struct ComponentNode {
    pub id: String,
    pub version: SemverX,
    pub dependencies: Vec<Dependency>,
    pub health: ComponentHealth,
    pub resolution_attempts: u32,
}

/// A component as a caller puts it together.
#[derive(Debug)]
pub struct Component {
    pub id: String,
    pub version: SemverX,
    pub dependencies: Vec<Dependency>,
    pub health: ComponentHealth,
    pub resolution_attempts: u32,
}

impl Component {
    /// A component without dependencies, in full health, never resolved.
    pub fn new(id: String, version: SemverX) -> (c: Self)
        ensures
            c.id == id,
            c.version == version,
            c.dependencies@ == Seq::<Dependency>::empty(),
            c.health == full_health(),
            c.resolution_attempts == 0,
    {
        Component {
            id,
            version,
            dependencies: Vec::new(),
            health: ComponentHealth::default(),
            resolution_attempts: 0,
        }
    }

    /// Adds `dep` after the dependencies that the component has.
    pub fn add_dependency(&mut self, dep: Dependency)
        ensures
            *final(self) == (Component {
                dependencies: final(self).dependencies,
                ..*old(self)
            }),
            final(self).dependencies@ == old(self).dependencies@.push(dep),
    {
        self.dependencies.push(dep);
    }

    /// The node that holds this component.
    pub fn into_node(self) -> (n: ComponentNode)
        ensures
            n.id == self.id,
            n.version == self.version,
            n.dependencies == self.dependencies,
            n.health == self.health,
            n.resolution_attempts == self.resolution_attempts,
    {
        ComponentNode {
            id: self.id,
            version: self.version,
            dependencies: self.dependencies,
            health: self.health,
            resolution_attempts: self.resolution_attempts,
        }
    }
}

/// What an edge carries: the range that the target's version has to lie in,
/// and what it costs to follow the edge, in thousandths.
#[derive(Debug)]
pub struct DependencyEdge {
    pub constraint: String,
    pub weight: u64,
    pub is_critical: bool,
}

impl DependencyEdge {
    /// An edge with the given constraint and weight; it is critical when its
    /// weight is above five.
    pub fn new(constraint: String, weight: u64) -> (e: Self)
        ensures
            e.constraint == constraint,
            e.weight == weight,
            e.is_critical == (weight > CRITICAL_WEIGHT),
    {
        DependencyEdge { constraint, weight, is_critical: weight > CRITICAL_WEIGHT }
    }
}

impl Clone for DependencyEdge {
    fn clone(&self) -> (e: Self)
        ensures
            e == *self,
    {
        DependencyEdge {
            constraint: self.constraint.clone(),
            weight: self.weight,
            is_critical: self.is_critical,
        }
    }
}

/// An edge of the graph as a model holds it: from `source` to `target`,
/// carrying `edge`.
pub struct Link {
    pub source: int,
    pub target: int,
    pub edge: DependencyEdge,
}

/// An edge as the graph hands it out: the place of the edge among the edges,
/// the nodes it joins, and what it carries.
#[derive(Debug)]
pub struct EdgeReference {
    pub index: usize,
    pub source: usize,
    pub target: usize,
    pub weight: DependencyEdge,
}

impl EdgeReference {
    /// Whether this reference shows the edge at its index in `links`.
    pub open spec fn shows(self, links: Seq<Link>) -> bool {
        &&& self.index < links.len()
        &&& self.source == links[self.index as int].source
        &&& self.target == links[self.index as int].target
        &&& self.weight == links[self.index as int].edge
    }
}

} // verus!
