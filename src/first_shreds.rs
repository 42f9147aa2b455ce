use vstd::prelude::*;
use std::collections::BTreeSet;

verus! {

broadcast use vstd::std_specs::btree::group_btree_axioms, vstd::laws_cmp::group_laws_cmp;

/// Size above which a new slot makes the tracker drop every slot at or
/// below the root.
pub const FIRST_SHRED_SET_GC_THRESHOLD: usize = 100;

/// Relies on `BTreeSet::split_off`: `s` keeps its elements below `at`, and
/// the result holds those at or above it.
#[verifier::external_body]
fn btree_split_off(s: &mut BTreeSet<u64>, at: u64) -> (r: BTreeSet<u64>)
    ensures
        final(s)@ == old(s)@.filter(|x: u64| x < at),
        r@ == old(s)@.filter(|x: u64| x >= at),
{
    s.split_off(&at)
}

/// The tracker's state after a shred of `slot` arrives with the root at
/// `root`, and whether it is the first shred seen for that slot.
pub open spec fn first_shred_step(s: Set<u64>, slot: u64, root: u64) -> (Set<u64>, bool) {
    if slot <= root || s.contains(slot) {
        (s, false)
    } else if s.insert(slot).len() > FIRST_SHRED_SET_GC_THRESHOLD {
        (s.insert(slot).filter(|x: u64| x > root), true)
    } else {
        (s.insert(slot), true)
    }
}

/// The slots above the root for which a shred has been seen, so that the
/// first shred of each slot is reported once.
pub struct FirstShredTracker {
    slots: BTreeSet<u64>,
}

impl View for FirstShredTracker {
    type V = Set<u64>;

    closed spec fn view(&self) -> Set<u64> {
        self.slots@
    }
}

impl FirstShredTracker {
    pub open spec fn wf(&self) -> bool {
        self@.finite()
    }

    /// A tracker that has seen no slot.
    pub fn new() -> (r: FirstShredTracker)
        ensures
            r.wf(),
            r@ == Set::<u64>::empty(),
    {
        FirstShredTracker { slots: BTreeSet::new() }
    }

    /// Number of slots held.
    pub fn len(&self) -> (r: usize)
        requires
            self.wf(),
        ensures
            r == self@.len(),
    {
        self.slots.len()
    }

    /// Whether `slot` is held.
    pub fn contains(&self, slot: u64) -> (r: bool)
        ensures
            r == self@.contains(slot),
    {
        self.slots.contains(&slot)
    }
}

/// Whether this is the first shred received for `shred_slot`, with the root
/// at `root_slot`: false for a slot at or below the root and for one seen
/// before. A first slot is recorded; where that takes the tracker over
/// `FIRST_SHRED_SET_GC_THRESHOLD` slots, every slot at or below the root is
/// dropped.
pub fn check_if_first_shred_received(
    shred_slot: u64,
    first_shreds_received: &mut FirstShredTracker,
    root_slot: u64,
) -> (r: bool)
    requires
        old(first_shreds_received).wf(),
    ensures
        final(first_shreds_received).wf(),
        (final(first_shreds_received)@, r) == first_shred_step(
            old(first_shreds_received)@,
            shred_slot,
            root_slot,
        ),
{
    if shred_slot <= root_slot {
        return false;
    }
    if first_shreds_received.slots.contains(&shred_slot) {
        return false;
    }
    first_shreds_received.slots.insert(shred_slot);
    if first_shreds_received.slots.len() > FIRST_SHRED_SET_GC_THRESHOLD {
        let upper = btree_split_off(&mut first_shreds_received.slots, root_slot + 1);
        first_shreds_received.slots = upper;
        proof {
            let s = old(first_shreds_received)@.insert(shred_slot);
            assert(first_shreds_received@ =~= s.filter(|x: u64| x > root_slot));
            s.lemma_len_filter(|x: u64| x > root_slot);
        }
    }
    true
}

/// The tracker's slots after shreds of `slots` arrive, in order, with the
/// root at `root`.
pub open spec fn first_run(s: Set<u64>, root: u64, slots: Seq<u64>) -> Set<u64>
    decreases slots.len(),
{
    if slots.len() == 0 {
        s
    } else {
        first_shred_step(first_run(s, root, slots.drop_last()), slots.last(), root).0
    }
}

/// How many of the shreds of `slots` were reported as the first of their
/// slot.
pub open spec fn first_count(s: Set<u64>, root: u64, slots: Seq<u64>) -> nat
    decreases slots.len(),
{
    if slots.len() == 0 {
        0
    } else {
        let first = first_shred_step(first_run(s, root, slots.drop_last()), slots.last(), root).1;
        first_count(s, root, slots.drop_last()) + if first {
            1nat
        } else {
            0nat
        }
    }
}

/// While the root stays at `root`, the tracker gains at most one slot per
/// first shred reported and never a slot at or below the root; so where it
/// held at most `FIRST_SHRED_SET_GC_THRESHOLD` slots when the root was set,
/// it holds at most that many plus the slots first seen since. Once a first
/// shred has been reported, a tracker over that size holds only slots above
/// the root.
pub proof fn lemma_first_shreds_bounded(s: Set<u64>, root: u64, slots: Seq<u64>)
    requires
        s.finite(),
    ensures
        first_run(s, root, slots).finite(),
        first_run(s, root, slots).len() <= s.len() + first_count(s, root, slots),
        forall|x: u64| #[trigger] first_run(s, root, slots).contains(x) && x <= root ==> s.contains(x),
        s.len() <= FIRST_SHRED_SET_GC_THRESHOLD ==> first_run(s, root, slots).len()
            <= FIRST_SHRED_SET_GC_THRESHOLD + first_count(s, root, slots),
        first_count(s, root, slots) > 0 && first_run(s, root, slots).len()
            > FIRST_SHRED_SET_GC_THRESHOLD ==> forall|x: u64| #[trigger]
            first_run(s, root, slots).contains(x) ==> x > root,
    decreases slots.len(),
{
    if slots.len() > 0 {
        let pre = slots.drop_last();
        lemma_first_shreds_bounded(s, root, pre);
        let prev = first_run(s, root, pre);
        let slot = slots.last();
        if !(slot <= root || prev.contains(slot)) {
            let ins = prev.insert(slot);
            assert(ins.len() == prev.len() + 1);
            if ins.len() > FIRST_SHRED_SET_GC_THRESHOLD {
                ins.lemma_len_filter(|x: u64| x > root);
            }
        }
    }
}

} // verus!
