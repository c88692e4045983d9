//! Fixture dependency graphs.
//!
//! A fixture may declare the fixtures it builds on. These traits describe that
//! graph: what a fixture directly requires, by name and in declaration order,
//! and how it is built once its dependencies are.
//!
//! A fixture is [`AcyclicFixture`] only if every fixture it requires is, so a
//! cycle becomes a trait obligation that refers back to itself, which the
//! compiler rejects instead of recursing forever at run time.
use vstd::prelude::*;

verus! {

/// A fixture's direct dependencies.
pub trait FixtureDeps: Sized {
    /// The fixtures this one directly requires, as a tuple in declaration
    /// order; the unit type for a fixture without dependencies.
    type Deps;

    /// Names of the required fixtures, in declaration order.
    const DEPENDENCY_NAMES: &'static [&'static str];

    /// Builds this fixture, having resolved its dependency graph.
    fn setup_checked() -> Self;
}

/// Marks a fixture whose dependency graph has no cycle.
pub trait AcyclicFixture: FixtureDeps {

}

} // verus!
