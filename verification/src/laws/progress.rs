//! The progression records after a merge.

use vstd::prelude::*;
use crate::error::MergeError;
use crate::merge::{merge_position, merge_prefix, merge_result};
use crate::progression::{
    adopt_progress, is_first_record, is_learned_spec, lemma_record_index, record_index, ProgressionRecord,
    NODE_COUNT,
};
use crate::record::{mergeable, SaveRecordView};

verus! {

/// Whether two lists of records belong to the same characters, position by
/// position.
pub open spec fn same_owners(a: Seq<ProgressionRecord>, b: Seq<ProgressionRecord>) -> bool {
    &&& a.len() == b.len()
    &&& forall|k: int| 0 <= k < a.len() ==> (#[trigger] a[k]).character_id == b[k].character_id
}

/// Lists of records with the same owners find each character's record at the
/// same position.
pub proof fn lemma_same_owners_same_index(a: Seq<ProgressionRecord>, b: Seq<ProgressionRecord>, character_id: u16)
    requires
        same_owners(a, b),
    ensures
        record_index(a, character_id) == record_index(b, character_id),
{
    lemma_record_index(a, character_id);
    lemma_record_index(b, character_id);
    match record_index(a, character_id) {
        Some(i) => {
            assert(is_first_record(a, character_id, i));
            assert forall|j: int| 0 <= j < i implies (#[trigger] b[j]).character_id != character_id by {
                assert(a[j].character_id != character_id);
            }
            assert(is_first_record(b, character_id, i));
        },
        None => {
            assert forall|j: int| 0 <= j < b.len() implies (#[trigger] b[j]).character_id != character_id by {
                assert(a[j].character_id != character_id);
            }
        },
    }
}

/// Whether the character's record in `now` holds the progress of the
/// character's record in `src`.
pub open spec fn progress_adopted(
    now: Seq<ProgressionRecord>,
    src: Seq<ProgressionRecord>,
    character_id: u16,
) -> bool {
    &&& record_index(src, character_id) matches Some(from)
    &&& record_index(now, character_id) matches Some(to)
    &&& now[to].unlocked_tiers == src[from].unlocked_tiers
    &&& now[to].learned == src[from].learned
}

proof fn lemma_progression_prefix(dst: SaveRecordView, src: SaveRecordView, n: nat)
    requires
        mergeable(dst, src),
        n <= src.roster.len(),
    ensures
        merge_prefix(dst, src, n) matches Ok(so_far) ==> {
            &&& same_owners(so_far.progression, dst.progression)
            &&& forall|i: int|
                0 <= i < n && src.roster[i] != 0 ==> progress_adopted(
                    so_far.progression,
                    src.progression,
                    #[trigger] src.roster[i],
                )
            &&& forall|k: int|
                0 <= k < dst.progression.len() && (forall|i: int|
                    0 <= i < n && #[trigger] src.roster[i] != 0 ==> record_index(dst.progression, src.roster[i])
                        != Some(k)) ==> #[trigger] so_far.progression[k] == dst.progression[k]
        },
    decreases n,
{
    if n > 0 {
        let m = (n - 1) as nat;
        lemma_progression_prefix(dst, src, m);
        if let Ok(before) = merge_prefix(dst, src, m) {
            let character_id = src.roster[m as int];
            if character_id != 0 {
                if let Ok(after) = merge_position(before, src, m as int) {
                    lemma_record_index(before.progression, character_id);
                    lemma_record_index(src.progression, character_id);
                    lemma_same_owners_same_index(before.progression, dst.progression, character_id);
                    let to = record_index(before.progression, character_id)->0;
                    let from = record_index(src.progression, character_id)->0;
                    assert(is_first_record(before.progression, character_id, to));
                    assert(after.progression == before.progression.update(
                        to,
                        adopt_progress(before.progression[to], src.progression[from]),
                    ));
                    assert(same_owners(after.progression, before.progression));
                    assert forall|i: int| 0 <= i < n && src.roster[i] != 0 implies progress_adopted(
                        after.progression,
                        src.progression,
                        #[trigger] src.roster[i],
                    ) by {
                        let other = src.roster[i];
                        lemma_same_owners_same_index(after.progression, before.progression, other);
                        if other != character_id {
                            assert(progress_adopted(before.progression, src.progression, other));
                            lemma_record_index(before.progression, other);
                            let at = record_index(before.progression, other)->0;
                            assert(is_first_record(before.progression, other, at));
                            assert(at != to);
                        }
                    }
                    assert forall|k: int|
                        0 <= k < dst.progression.len() && (forall|i: int|
                            0 <= i < n && #[trigger] src.roster[i] != 0 ==> record_index(
                                dst.progression,
                                src.roster[i],
                            ) != Some(k)) implies #[trigger] after.progression[k] == dst.progression[k] by {
                        assert(src.roster[m as int] != 0 ==> record_index(dst.progression, src.roster[m as int])
                            != Some(k));
                        assert(before.progression[k] == dst.progression[k]);
                    }
                }
            }
        }
    }
}

/// Progression is copied faithfully: every character of the source roster
/// has a record on both sides, and after the merge the destination's record
/// has the source's unlocked-tier count and, for every node from 1 to
/// [`NODE_COUNT`], the source's learned bit. The records stay with their
/// characters and none is added or removed.
pub proof fn lemma_merge_adopts_progression(
    dst: SaveRecordView,
    src: SaveRecordView,
    merged: SaveRecordView,
    position: int,
)
    requires
        mergeable(dst, src),
        merge_result(dst, src) == Ok::<SaveRecordView, MergeError>(merged),
        0 <= position < src.roster.len(),
        src.roster[position] != 0,
    ensures
        same_owners(merged.progression, dst.progression),
        record_index(merged.progression, src.roster[position]) == record_index(
            dst.progression,
            src.roster[position],
        ),
        progress_adopted(merged.progression, src.progression, src.roster[position]),
        forall|node: int|
            1 <= node <= NODE_COUNT ==> is_learned_spec(
                merged.progression[record_index(merged.progression, src.roster[position])->0].learned,
                node,
            ) == is_learned_spec(
                src.progression[record_index(src.progression, src.roster[position])->0].learned,
                node,
            ),
{
    lemma_progression_prefix(dst, src, src.roster.len());
    lemma_same_owners_same_index(merged.progression, dst.progression, src.roster[position]);
}

/// A progression record that is not the record of a character of the source
/// roster is not touched by the merge.
pub proof fn lemma_merge_leaves_other_records(
    dst: SaveRecordView,
    src: SaveRecordView,
    merged: SaveRecordView,
    k: int,
)
    requires
        mergeable(dst, src),
        merge_result(dst, src) == Ok::<SaveRecordView, MergeError>(merged),
        0 <= k < dst.progression.len(),
        forall|i: int|
            0 <= i < src.roster.len() && #[trigger] src.roster[i] != 0 ==> record_index(
                dst.progression,
                src.roster[i],
            ) != Some(k),
    ensures
        merged.progression[k] == dst.progression[k],
{
    lemma_progression_prefix(dst, src, src.roster.len());
}

} // verus!
