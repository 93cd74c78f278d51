//! The state that outlives a run.

use vstd::prelude::*;

verus! {

/// What is written to the state file.
#[derive(Debug)]
pub struct PersistedState {
    pub remaining_queue: Vec<String>,
    pub shown_ids: Vec<String>,
    pub last_image_id: Option<String>,
    pub favorites: Vec<String>,
}

} // verus!
