//! Per-character progression records: a tier count and a bitset of learned
//! nodes.

use vstd::prelude::*;
use crate::error::MergeError;
use crate::record::{SaveRecord, SaveRecordView};

verus! {

/// The number of nodes of a progression record. Nodes are numbered from 1.
pub const NODE_COUNT: usize = 64;

/// The tiered unlock state of one character.
#[derive(Clone, Copy, PartialEq, Eq, Structural, Debug)]
pub struct ProgressionRecord {
    pub character_id: u16,
    pub unlocked_tiers: u32,
    pub learned: u64,
}

/// The bit that stands for a node in the learned set.
pub open spec fn node_bit(node: int) -> u64 {
    1u64 << ((node - 1) as u64)
}

/// Whether the node is in the learned set.
pub open spec fn is_learned_spec(learned: u64, node: int) -> bool {
    learned & node_bit(node) != 0
}

/// The learned set with one node put in or taken out.
pub open spec fn set_learned_spec(learned: u64, node: int, value: bool) -> u64 {
    if value {
        learned | node_bit(node)
    } else {
        learned & !node_bit(node)
    }
}

impl ProgressionRecord {
    /// Whether the node has been learned.
    pub fn is_learned(&self, node: usize) -> (learned: bool)
        requires
            1 <= node <= NODE_COUNT,
        ensures
            learned == is_learned_spec(self.learned, node as int),
    {
        let k: u64 = (node - 1) as u64;
        self.learned & (1u64 << k) != 0
    }

    /// Marks the node as learned or not learned. No other node changes.
    pub fn set_learned(&mut self, node: usize, value: bool)
        requires
            1 <= node <= NODE_COUNT,
        ensures
            *final(self) == (ProgressionRecord {
                learned: set_learned_spec(old(self).learned, node as int, value),
                ..*old(self)
            }),
    {
        let k: u64 = (node - 1) as u64;
        if value {
            self.learned = self.learned | (1u64 << k);
        } else {
            self.learned = self.learned & !(1u64 << k);
        }
    }
}

/// The record `dst` after the tier count and the learned set of `src` have
/// been copied into it. The record stays with its character.
pub open spec fn adopt_progress(dst: ProgressionRecord, src: ProgressionRecord) -> ProgressionRecord {
    ProgressionRecord {
        character_id: dst.character_id,
        unlocked_tiers: src.unlocked_tiers,
        learned: src.learned,
    }
}

/// Copies the tier count, and then the learned state of each node from 1 to
/// [`NODE_COUNT`] one by one, from `src` into `dst`.
pub fn copy_progress(dst: &mut ProgressionRecord, src: &ProgressionRecord)
    ensures
        *final(dst) == adopt_progress(*old(dst), *src),
{
    dst.unlocked_tiers = src.unlocked_tiers;
    let mut node: usize = 1;
    while node <= NODE_COUNT
        invariant
            1 <= node <= NODE_COUNT + 1,
            dst.character_id == old(dst).character_id,
            dst.unlocked_tiers == src.unlocked_tiers,
            agree_up_to(dst.learned, src.learned, node - 1),
        decreases NODE_COUNT + 1 - node,
    {
        let ghost before = dst.learned;
        let value = src.is_learned(node);
        dst.set_learned(node, value);
        proof {
            lemma_set_learned(before, node as int, value);
        }
        node += 1;
    }
    proof {
        lemma_learned_sets_equal(dst.learned, src.learned);
    }
}

/// Whether `index` is the first position of `records` that belongs to the
/// character.
pub open spec fn is_first_record(records: Seq<ProgressionRecord>, character_id: u16, index: int) -> bool {
    &&& 0 <= index < records.len()
    &&& records[index].character_id == character_id
    &&& forall|j: int| 0 <= j < index ==> (#[trigger] records[j]).character_id != character_id
}

/// Whether no record belongs to the character.
pub open spec fn has_no_record(records: Seq<ProgressionRecord>, character_id: u16) -> bool {
    forall|j: int| 0 <= j < records.len() ==> (#[trigger] records[j]).character_id != character_id
}

/// The position of the character's record, if it has one. Records are not
/// assumed to be sorted; the first match counts.
pub open spec fn record_index(records: Seq<ProgressionRecord>, character_id: u16) -> Option<int> {
    if has_no_record(records, character_id) {
        None
    } else {
        Some(choose|i: int| is_first_record(records, character_id, i))
    }
}

/// Looks for the character's record by linear scan.
pub fn find_record(records: &Vec<ProgressionRecord>, character_id: u16) -> (found: Option<usize>)
    ensures
        match found {
            Some(i) => is_first_record(records@, character_id, i as int) && record_index(records@, character_id)
                == Some(i as int),
            None => has_no_record(records@, character_id) && record_index(records@, character_id) is None,
        },
{
    let mut i: usize = 0;
    while i < records.len()
        invariant
            i <= records@.len(),
            forall|j: int| 0 <= j < i ==> (#[trigger] records@[j]).character_id != character_id,
        decreases records@.len() - i,
    {
        if records[i].character_id == character_id {
            proof {
                assert(is_first_record(records@, character_id, i as int));
                lemma_record_index(records@, character_id);
            }
            return Some(i);
        }
        i += 1;
    }
    proof {
        assert(has_no_record(records@, character_id));
        lemma_record_index(records@, character_id);
    }
    None
}

/// What [`copy_progression`] does to the destination's records: the
/// character's record there adopts the progress of the character's record in
/// the source. Fails when either side has no record of the character.
pub open spec fn copy_progression_spec(
    dst: Seq<ProgressionRecord>,
    src: Seq<ProgressionRecord>,
    character_id: u16,
) -> Result<Seq<ProgressionRecord>, MergeError> {
    match (record_index(src, character_id), record_index(dst, character_id)) {
        (Some(from), Some(to)) => Ok(dst.update(to, adopt_progress(dst[to], src[from]))),
        _ => Err(MergeError::MissingProgressionRecord { character_id }),
    }
}

/// Copies a character's progression from `src` to `dst`.
///
/// The character's record is looked up in both saves by linear scan. The
/// destination's record takes the source's tier count and the learned state
/// of every node. All other records, and the rest of the destination, stay
/// as they are. When either save has no record of the character, nothing is
/// changed and the call fails with `MissingProgressionRecord`.
pub fn copy_progression(dst: &mut SaveRecord, src: &SaveRecord, character_id: u16) -> (result: Result<
    (),
    MergeError,
>)
    ensures
        match copy_progression_spec(old(dst)@.progression, src@.progression, character_id) {
            Ok(records) => result is Ok && final(dst)@ == (SaveRecordView {
                progression: records,
                ..old(dst)@
            }),
            Err(e) => result == Err::<(), MergeError>(e) && final(dst)@ == old(dst)@,
        },
{
    let from = match find_record(&src.progression, character_id) {
        Some(from) => from,
        None => {
            return Err(MergeError::MissingProgressionRecord { character_id });
        },
    };
    let to = match find_record(&dst.progression, character_id) {
        Some(to) => to,
        None => {
            return Err(MergeError::MissingProgressionRecord { character_id });
        },
    };
    copy_progress(&mut dst.progression[to], &src.progression[from]);
    Ok(())
}

/// Whether two learned sets agree on the nodes `1..=n`.
pub open spec fn agree_up_to(a: u64, b: u64, n: int) -> bool {
    forall|node: int| 1 <= node <= n ==> is_learned_spec(a, node) == is_learned_spec(b, node)
}

/// Setting a node makes it read back as set and leaves the other nodes alone.
pub proof fn lemma_set_learned(learned: u64, node: int, value: bool)
    requires
        1 <= node <= NODE_COUNT,
    ensures
        is_learned_spec(set_learned_spec(learned, node, value), node) == value,
        forall|other: int|
            1 <= other <= NODE_COUNT && other != node ==> is_learned_spec(
                set_learned_spec(learned, node, value),
                other,
            ) == is_learned_spec(learned, other),
{
    let k = (node - 1) as u64;
    let bit = node_bit(node);
    assert(bit == 1u64 << k);
    assert((learned | (1u64 << k)) & (1u64 << k) != 0) by (bit_vector)
        requires
            k < 64,
    ;
    assert((learned & !(1u64 << k)) & (1u64 << k) == 0) by (bit_vector)
        requires
            k < 64,
    ;
    assert forall|other: int| 1 <= other <= NODE_COUNT && other != node implies is_learned_spec(
        set_learned_spec(learned, node, value),
        other,
    ) == is_learned_spec(learned, other) by {
        let j = (other - 1) as u64;
        assert(node_bit(other) == 1u64 << j);
        assert((learned | (1u64 << k)) & (1u64 << j) == learned & (1u64 << j)) by (bit_vector)
            requires
                k < 64,
                j < 64,
                j != k,
        ;
        assert((learned & !(1u64 << k)) & (1u64 << j) == learned & (1u64 << j)) by (bit_vector)
            requires
                k < 64,
                j < 64,
                j != k,
        ;
    }
}

/// The bits of the nodes `1..=n`.
pub open spec fn low_bits(n: int) -> u64 {
    if n >= 64 {
        0xffff_ffff_ffff_ffffu64
    } else {
        (((1u64 << (n as u64)) - 1) as u64)
    }
}

proof fn lemma_agreement_below(a: u64, b: u64, n: int)
    requires
        0 <= n <= NODE_COUNT,
        agree_up_to(a, b, n),
    ensures
        a & low_bits(n) == b & low_bits(n),
    decreases n,
{
    if n == 0 {
        assert(low_bits(0) == 0) by (bit_vector);
        assert(a & 0 == b & 0) by (bit_vector);
    } else {
        lemma_agreement_below(a, b, n - 1);
        let k = (n - 1) as u64;
        let below = low_bits(n - 1);
        let upto = low_bits(n);
        assert(is_learned_spec(a, n) == is_learned_spec(b, n));
        assert(node_bit(n) == 1u64 << k);
        assert(below == ((1u64 << k) - 1) as u64);
        assert(upto == (if k == 63 {
            0xffff_ffff_ffff_ffffu64
        } else {
            (((1u64 << ((k + 1) as u64)) - 1) as u64)
        }));
        assert(a & upto == b & upto) by (bit_vector)
            requires
                k < 64,
                below == ((1u64 << k) - 1) as u64,
                upto == (if k == 63 {
                    0xffff_ffff_ffff_ffffu64
                } else {
                    (((1u64 << ((k + 1) as u64)) - 1) as u64)
                }),
                a & below == b & below,
                (a & (1u64 << k) != 0) == (b & (1u64 << k) != 0),
        ;
    }
}

/// Two learned sets that agree on every node are the same set.
pub proof fn lemma_learned_sets_equal(a: u64, b: u64)
    requires
        agree_up_to(a, b, NODE_COUNT as int),
    ensures
        a == b,
{
    lemma_agreement_below(a, b, NODE_COUNT as int);
    assert(a & low_bits(64) == a && b & low_bits(64) == b) by (bit_vector)
        requires
            low_bits(64) == 0xffff_ffff_ffff_ffffu64,
    ;
}

proof fn lemma_earliest_record_exists(records: Seq<ProgressionRecord>, character_id: u16, k: int)
    requires
        0 <= k < records.len(),
        records[k].character_id == character_id,
    ensures
        exists|i: int| is_first_record(records, character_id, i),
    decreases k,
{
    if forall|j: int| 0 <= j < k ==> (#[trigger] records[j]).character_id != character_id {
        assert(is_first_record(records, character_id, k));
    } else {
        let j = choose|j: int| 0 <= j < k && (#[trigger] records[j]).character_id == character_id;
        lemma_earliest_record_exists(records, character_id, j);
    }
}

/// `record_index` is `Some(i)` exactly for the first record `i` of the
/// character, and `None` exactly when the character has no record.
pub proof fn lemma_record_index(records: Seq<ProgressionRecord>, character_id: u16)
    ensures
        has_no_record(records, character_id) <==> record_index(records, character_id) is None,
        forall|i: int|
            is_first_record(records, character_id, i) <==> record_index(records, character_id) == Some(i),
{
    if !has_no_record(records, character_id) {
        let k = choose|k: int| 0 <= k < records.len() && records[k].character_id == character_id;
        lemma_earliest_record_exists(records, character_id, k);
        let w = choose|i: int| is_first_record(records, character_id, i);
        assert forall|i: int| is_first_record(records, character_id, i) implies record_index(
            records,
            character_id,
        ) == Some(i) by {
            if i < w {
                assert(records[i].character_id != character_id);
            } else if w < i {
                assert(records[w].character_id != character_id);
            }
        }
    } else {
        assert forall|i: int| !is_first_record(records, character_id, i) by {
            if 0 <= i < records.len() {
                assert(records[i].character_id != character_id);
            }
        }
    }
}

} // verus!
