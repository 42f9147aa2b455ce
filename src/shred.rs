use vstd::prelude::*;

verus! {

/// The two kinds of shreds that a block is cut into.
#[derive(Clone, Copy, Debug, PartialEq, Eq, Structural)]
pub enum ShredKind {
    Data,
    Coding,
}

/// What the retransmit core reads of a shred: its position in the block and
/// its wire bytes.
#[derive(Clone, Debug)]
pub struct Shred {
    pub slot: u64,
    pub index: u32,
    pub kind: ShredKind,
    pub payload: Vec<u8>,
}

/// Identity of a shred's logical position: `(slot, index, is_data)`.
pub type ShredKey = (u64, u32, bool);

pub open spec fn key_of(shred: Shred) -> ShredKey {
    (shred.slot, shred.index, shred.kind == ShredKind::Data)
}

impl Shred {
    pub fn new(slot: u64, index: u32, kind: ShredKind, payload: Vec<u8>) -> (r: Shred)
        ensures
            r.slot == slot,
            r.index == index,
            r.kind == kind,
            r.payload@ == payload@,
    {
        Shred { slot, index, kind, payload }
    }

    pub fn is_data(&self) -> (r: bool)
        ensures
            r == (self.kind == ShredKind::Data),
    {
        match self.kind {
            ShredKind::Data => true,
            ShredKind::Coding => false,
        }
    }

    /// The key under which the deduplication filter records this shred.
    pub fn key(&self) -> (r: ShredKey)
        ensures
            r == key_of(*self),
    {
        (self.slot, self.index, self.is_data())
    }
}

} // verus!
