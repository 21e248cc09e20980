//! Availability records and the update requests that produce them.

use vstd::prelude::*;

verus! {

/// Whether a menu item can currently be ordered.
#[derive(Clone, Copy, Debug, PartialEq, Eq, Structural)]
pub enum AvailabilityStatus {
    Unavailable,
    Available,
}

/// One tracked menu item: the last update that was applied for its key.
#[derive(Debug)]
pub struct AvailabilityRecord {
    pub item_key: String,
    pub status: AvailabilityStatus,
    pub actor_id: String,
    pub reason: Option<String>,
    pub applied_at: u64,
}

/// Mathematical value of an [`AvailabilityRecord`].
pub struct RecordView {
    pub item_key: Seq<char>,
    pub status: AvailabilityStatus,
    pub actor_id: Seq<char>,
    pub reason: Option<Seq<char>>,
    pub applied_at: u64,
}

/// Mathematical value of an optional string.
pub open spec fn opt_text(s: Option<String>) -> Option<Seq<char>> {
    match s {
        Some(t) => Some(t@),
        None => None,
    }
}

impl View for AvailabilityRecord {
    type V = RecordView;

    open spec fn view(&self) -> RecordView {
        RecordView {
            item_key: self.item_key@,
            status: self.status,
            actor_id: self.actor_id@,
            reason: opt_text(self.reason),
            applied_at: self.applied_at,
        }
    }
}

/// Copies an optional string.
pub fn clone_opt_text(s: &Option<String>) -> (r: Option<String>)
    ensures
        opt_text(r) == opt_text(*s),
{
    match s {
        Some(t) => Some(t.clone()),
        None => None,
    }
}

impl Clone for AvailabilityRecord {
    fn clone(&self) -> (r: Self)
        ensures
            r@ == self@,
    {
        AvailabilityRecord {
            item_key: self.item_key.clone(),
            status: self.status,
            actor_id: self.actor_id.clone(),
            reason: clone_opt_text(&self.reason),
            applied_at: self.applied_at,
        }
    }
}

} // verus!
