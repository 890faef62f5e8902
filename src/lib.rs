//! Storage of fitness activities, gear and accounts on an ordered byte-keyed
//! store: composite keys, the maps of each store and the indexes between them,
//! listings by prefix scan, and totals over session summaries.
use vstd::prelude::*;

pub mod keys;
pub mod store;
pub mod activities;
pub mod gear;
pub mod users;
pub mod totals;
pub mod laws;
pub mod listing;
pub mod forms;

verus! {

} // verus!
