//! Transplants unlocked progression content from a bonus save record into a
//! base save record.
//!
//! The merge walks the bonus record's active roster in display order. For each
//! character found there it copies the character's level, experience, flags,
//! selected class and that class's loadout into the base record, creates the
//! equipped accessories in the base inventory, copies the character's
//! progression record and roster-visibility bits, and finally writes the
//! character into the base roster.
//!
//! Every public function carries a contract over the mathematical views of the
//! records, and the module `laws` proves what holds of a merge as a whole.

pub mod character;
pub mod error;
pub mod inventory;
pub mod laws;
pub mod loadout;
pub mod merge;
pub mod names;
pub mod progression;
pub mod record;
