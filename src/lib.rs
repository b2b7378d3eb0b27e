//! Connector behaviours for relation instances of a property graph: a registry
//! that resolves a relation's type name to a construction function (longest
//! registered prefix, so an exact name wins), and a provider that attaches the
//! resulting connector under the relation's edge key and detaches it again.

use vstd::prelude::*;

pub mod edge_key;
mod keyed;
pub mod registry;
pub mod relation;
pub mod connector;
pub mod storage;
pub mod provider;

verus! {

} // verus!
