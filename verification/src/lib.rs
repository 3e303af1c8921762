//! Release planning for a workspace of interdependent packages: version
//! convergence across shared-version groups, tag naming, templated text
//! replacement, a memoising view of the registry index and the sequencing
//! of publish calls.
//!
//! Everything here computes on plain values. Reading files, talking to the
//! registry, running the version-control and build tools and printing are
//! left to the caller, who hands in what was read and carries out what is
//! handed back.

pub mod config;
pub mod error;
pub mod ops;
pub mod steps;
