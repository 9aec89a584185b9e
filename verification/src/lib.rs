//! The verified core of a source-based package manager: versions and
//! version requirements, paths, directory layouts, recipes and dependency
//! plans, locking and caching downloads, build commands, run-time dependency
//! checks, ledgers, the decisions taken while installing, and the course of a
//! run.
use vstd::prelude::*;

pub mod address;
pub mod building;
pub mod cache;
pub mod confinement;
pub mod dependencies;
pub mod directories;
pub mod download;
pub mod git;
pub mod graph;
pub mod index;
pub mod install;
pub mod ledger;
pub mod manifest;
pub mod path;
pub mod plan;
pub mod recipe;
pub mod resolver;
pub mod session;
pub mod tarball;
pub mod text;
pub mod version;
pub mod version_order;

verus! {

} // verus!
