//! The ways a merge can fail.

use vstd::prelude::*;
use crate::inventory::ItemType;

verus! {

/// A structural precondition of the merge that the two records do not meet.
///
/// Every failure is fatal for the run: the destination record must be
/// discarded by the caller, since earlier characters may already have been
/// transplanted into it.
#[derive(Clone, Copy, PartialEq, Eq, Structural, Debug)]
pub enum MergeError {
    /// The destination inventory has no empty slot of the given item type.
    NoFreeInventorySlot { item_type: ItemType },
    /// A character of the roster has no progression record in the source or
    /// in the destination.
    MissingProgressionRecord { character_id: u16 },
    /// An identity has no entry in a name table. This only concerns
    /// reporting and is never returned by the merge itself.
    OutOfRangeIdentity { identity: usize },
}

} // verus!
