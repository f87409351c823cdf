//! Extended semantic versions and a graph-based dependency resolver that picks
//! its traversal strategy from a rolling stress signal.
//!
//! Stress levels and edge weights are fixed-point numbers counted in
//! thousandths: `3_000` stands for a stress of three.
//!
//! - [`version`] and [`range`]: the extended version, its order, and ranges.
//! - [`error`]: errors that gather context and stress on their way up.
//! - [`stress`], [`health`] and [`heal`]: the stress monitor, stress zones and
//!   self-healing.
//! - [`graph`], [`types`] and [`pathfinder`]: the dependency graph, what it
//!   is made of, and shortest paths in it.
//! - [`resolver`], [`eulerian`], [`hamiltonian`], [`astar`], [`hybrid`] and
//!   [`breaker`]: the resolver, its four strategies and the cycle breaker.
//! - [`semver`], [`package`], [`dependency`] and [`normalizer`]: plain
//!   versions, package metadata, ordering of named packages, and canonical
//!   forms of strings and paths.
//! - [`text`]: the character-level helpers that the parsers share.

pub mod astar;
pub mod breaker;
pub mod dependency;
pub mod error;
pub mod eulerian;
pub mod graph;
pub mod hamiltonian;
pub mod heal;
pub mod health;
pub mod hybrid;
pub mod normalizer;
pub mod package;
pub mod pathfinder;
pub mod range;
pub mod resolver;
pub mod semver;
pub mod stress;
pub mod text;
pub mod types;
pub mod version;
