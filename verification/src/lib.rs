//! Determines which packages of a Rust workspace are to be updated, and to which versions, from
//! what changed in them since their last release.
use vstd::prelude::*;

pub mod baseline;
pub mod changelog;
pub mod debug;
pub mod decimal;
pub mod dependents;
pub mod diff;
pub mod increment;
pub mod manifest;
pub mod order;
pub mod package;
pub mod paths;
pub mod plan;
pub mod processing;
pub mod propagate;
pub mod rc;
pub mod request;
pub mod semver;
pub mod tags;
pub mod targets;
pub mod text;
pub mod updater;
pub mod version;
pub mod walk;

verus! {

} // verus!
