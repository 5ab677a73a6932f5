//! Collision chains: the entries that share a hash, linked through `next`, and the
//! steps by which inserts and lookups walk them while the caller does the file work.
use std::collections::BTreeMap;
use vstd::prelude::*;

use crate::index::error::CollisionWalkErr;

verus! {

/// The two fields of an on-disk entry that a chain walk looks at.
pub struct Link {
    /// Offset of the next entry of the chain; 0 ends the chain.
    pub next: u64,
    /// Byte length of the entry's key.
    pub key_len: u32,
}

/// What a walk along a chain looks for.
#[derive(Debug, Clone, Copy, PartialEq, Eq, Structural)]
pub enum WalkGoal {
    /// The entry that ends the chain.
    Last,
    /// The first entry whose key has this byte length.
    KeyLen(u32),
}

/// What to do after reading one entry of a chain.
#[derive(Debug, Clone, Copy, PartialEq, Eq, Structural)]
pub enum Advance {
    /// Go on with the entry at `next`.
    Continue,
    /// The entry just read is the one looked for.
    Stop,
    /// The chain ended without the entry looked for.
    Missing,
}

/// The decision a walk with `goal` takes on an entry with chain fields `link`.
pub open spec fn spec_advance(goal: WalkGoal, link: Link) -> Advance {
    match goal {
        WalkGoal::Last => if link.next == 0 {
            Advance::Stop
        } else {
            Advance::Continue
        },
        WalkGoal::KeyLen(n) => if link.key_len == n {
            Advance::Stop
        } else if link.next == 0 {
            Advance::Missing
        } else {
            Advance::Continue
        },
    }
}

/// Decides on one entry of a chain, given its `next` and key length.
pub fn advance(goal: WalkGoal, next: u64, key_len: u32) -> (r: Advance)
    ensures
        r == spec_advance(goal, Link { next, key_len }),
{
    match goal {
        WalkGoal::Last => if next == 0 {
            Advance::Stop
        } else {
            Advance::Continue
        },
        WalkGoal::KeyLen(n) => if key_len == n {
            Advance::Stop
        } else if next == 0 {
            Advance::Missing
        } else {
            Advance::Continue
        },
    }
}

/// An entry of a chain as it is stored in the content file.
pub trait ChainEntry: Sized + Copy {
    /// The fields a walk looks at.
    spec fn spec_link(self) -> Link;

    /// The entry with its `next` set to `next`.
    spec fn spec_with_next(self, next: u64) -> Self;

    /// The bytes the entry is stored as.
    spec fn spec_to_bytes(self) -> Seq<u8>;

    /// The entry that the first `encoded_len()` bytes of `b` hold.
    spec fn spec_from_bytes(b: Seq<u8>) -> Self;

    /// How many bytes an entry is stored as.
    spec fn encoded_len() -> nat;

    fn decode(page: &[u8]) -> (r: Self)
        requires
            page@.len() >= Self::encoded_len(),
        ensures
            r == Self::spec_from_bytes(page@),
    ;

    fn encode(&self) -> (r: Vec<u8>)
        ensures
            r@ == self.spec_to_bytes(),
    ;

    fn next_offset(&self) -> (r: u64)
        ensures
            r == self.spec_link().next,
    ;

    fn key_length(&self) -> (r: u32)
        ensures
            r == self.spec_link().key_len,
    ;

    fn with_next(&self, next: u64) -> (r: Self)
        ensures
            r == self.spec_with_next(next),
    ;

    /// Decoding the encoding gives the entry back.
    proof fn lemma_decode_encode(self)
        ensures
            Self::spec_from_bytes(self.spec_to_bytes()) == self,
    ;

    /// A page that starts with the encoding decodes to the entry, whatever follows.
    proof fn lemma_decode_page(self, rest: Seq<u8>)
        ensures
            self.spec_to_bytes().len() == Self::encoded_len(),
            Self::spec_from_bytes(self.spec_to_bytes() + rest) == self,
    ;

    /// Setting `next` changes nothing else a walk looks at.
    proof fn lemma_with_next(self, next: u64)
        ensures
            self.spec_with_next(next).spec_link() == (Link { next, key_len: self.spec_link().key_len }),
    ;

    /// Setting `next` twice is setting it once, to the second value.
    proof fn lemma_with_next_twice(self, a: u64, b: u64)
        ensures
            self.spec_with_next(a).spec_with_next(b) == self.spec_with_next(b),
    ;
}

/// A request to the caller, who holds the content file.
#[derive(Debug)]
pub enum IoRequest {
    /// Append these bytes at the end of the file and report the offset they start at.
    Append(Vec<u8>),
    /// Read the page at this offset and report it.
    Read(u64),
    /// Write these bytes at this offset.
    Write(u64, Vec<u8>),
}

/// The contents of an `IoRequest`.
pub enum IoRequestView {
    Append(Seq<u8>),
    Read(u64),
    Write(u64, Seq<u8>),
}

impl View for IoRequest {
    type V = IoRequestView;

    open spec fn view(&self) -> IoRequestView {
        match self {
            IoRequest::Append(b) => IoRequestView::Append(b@),
            IoRequest::Read(o) => IoRequestView::Read(*o),
            IoRequest::Write(o, b) => IoRequestView::Write(*o, b@),
        }
    }
}

pub open spec fn opt_view(r: Option<IoRequest>) -> Option<IoRequestView> {
    match r {
        Some(q) => Some(q@),
        None => None,
    }
}

/// A walk along the collision chain of one hash, one entry at a time.
#[derive(Debug, Clone, Copy, PartialEq, Eq, Structural)]
pub struct CollisionWalk {
    /// The hash whose chain is walked.
    pub start: u64,
    /// What the walk looks for.
    pub goal: WalkGoal,
    /// Offset of the entry to read next.
    pub offset: u64,
}

/// The outcome of one step of a walk.
#[derive(Debug)]
pub enum WalkStep<E> {
    /// Read the entry at this offset next.
    Read(u64),
    /// The entry looked for, and its offset.
    Found(E, u64),
    /// The chain ended without the entry looked for.
    Failed(CollisionWalkErr),
}

impl CollisionWalk {
    /// The walk after reading entry `de` at `self.offset`, and its outcome.
    pub open spec fn spec_step<E: ChainEntry>(self, de: E) -> (CollisionWalk, WalkStep<E>) {
        match spec_advance(self.goal, de.spec_link()) {
            Advance::Continue => (
                CollisionWalk { offset: de.spec_link().next, ..self },
                WalkStep::Read(de.spec_link().next),
            ),
            Advance::Stop => (self, WalkStep::Found(de, self.offset)),
            Advance::Missing => (
                self,
                WalkStep::Failed(
                    CollisionWalkErr::HashNotFound {
                        hash: self.start,
                        len: match self.goal {
                            WalkGoal::KeyLen(n) => n,
                            WalkGoal::Last => 0,
                        },
                    },
                ),
            ),
        }
    }

    /// Takes in the page read at `self.offset`.
    pub fn step<E: ChainEntry>(&mut self, page: &[u8]) -> (r: WalkStep<E>)
        requires
            page@.len() >= E::encoded_len(),
        ensures
            (*final(self), r) == old(self).spec_step(E::spec_from_bytes(page@)),
    {
        let de = E::decode(page);
        let next = de.next_offset();
        match advance(self.goal, next, de.key_length()) {
            Advance::Continue => {
                self.offset = next;
                WalkStep::Read(next)
            },
            Advance::Stop => WalkStep::Found(de, self.offset),
            Advance::Missing => {
                let len = match self.goal {
                    WalkGoal::KeyLen(n) => n,
                    WalkGoal::Last => 0,
                };
                WalkStep::Failed(CollisionWalkErr::HashNotFound { hash: self.start, len })
            },
        }
    }
}

/// A walk from the head of the chain of `start` to its last entry.
pub fn walk_to_last(btree: &BTreeMap<u64, u64>, start: u64) -> (r: CollisionWalk)
    requires
        btree@.contains_key(start),
    ensures
        r == (CollisionWalk { start, goal: WalkGoal::Last, offset: btree@[start] }),
{
    let offset = *btree.get(&start).unwrap();
    CollisionWalk { start, goal: WalkGoal::Last, offset }
}

/// A walk from the head of the chain of `start` to its first entry whose key has
/// length `find_len`.
pub fn walk_to_len(btree: &BTreeMap<u64, u64>, start: u64, find_len: u32) -> (r: CollisionWalk)
    requires
        btree@.contains_key(start),
    ensures
        r == (CollisionWalk { start, goal: WalkGoal::KeyLen(find_len), offset: btree@[start] }),
{
    let offset = *btree.get(&start).unwrap();
    CollisionWalk { start, goal: WalkGoal::KeyLen(find_len), offset }
}

/// Where an insert stands.
#[derive(Debug, Clone, Copy, PartialEq, Eq, Structural)]
pub enum InsertState {
    /// The new entry is to be appended.
    Appending,
    /// The new entry is at `pos`; the chain is walked to its end to link it there.
    Walking { pos: u64, walk: CollisionWalk },
    /// Nothing is left to do.
    Finished,
}

/// An insert of one key, driven by the caller's file operations.
#[derive(Debug)]
pub struct InsertOp<E> {
    /// The hash of the key.
    pub hash: u64,
    /// The entry that is appended for the key.
    pub entry: E,
    pub state: InsertState,
}

impl<E: ChainEntry> InsertOp<E> {
    /// The op after the entry was appended at `pos`, the btree after it, and the next request.
    pub open spec fn spec_appended(self, btree: Map<u64, u64>, pos: u64) -> (
        InsertOp<E>,
        Map<u64, u64>,
        Option<IoRequestView>,
    ) {
        if self.state == InsertState::Appending {
            if btree.contains_key(self.hash) {
                // In case of collision the new entry is linked from the end of the chain;
                // the btree keeps the head of the chain.
                let walk = CollisionWalk {
                    start: self.hash,
                    goal: WalkGoal::Last,
                    offset: btree[self.hash],
                };
                (
                    InsertOp { state: InsertState::Walking { pos, walk }, ..self },
                    btree,
                    Some(IoRequestView::Read(btree[self.hash])),
                )
            } else {
                (InsertOp { state: InsertState::Finished, ..self }, btree.insert(self.hash, pos), None)
            }
        } else {
            (self, btree, None)
        }
    }

    /// The op after the page asked for was read and holds `de`, and the next request.
    pub open spec fn spec_page_read(self, de: E) -> (InsertOp<E>, Option<IoRequestView>) {
        match self.state {
            InsertState::Walking { pos, walk } => {
                let (walk2, step) = walk.spec_step(de);
                match step {
                    WalkStep::Read(o) => (
                        InsertOp { state: InsertState::Walking { pos, walk: walk2 }, ..self },
                        Some(IoRequestView::Read(o)),
                    ),
                    WalkStep::Found(last, o) => (
                        InsertOp { state: InsertState::Finished, ..self },
                        Some(IoRequestView::Write(o, last.spec_with_next(pos).spec_to_bytes())),
                    ),
                    WalkStep::Failed(_) => (InsertOp { state: InsertState::Finished, ..self }, None),
                }
            },
            _ => (self, None),
        }
    }

    /// Starts an insert of `entry`, the entry of a key whose hash is `hash`: it is to be
    /// appended to the content file.
    pub fn start(hash: u64, entry: E) -> (r: (Self, IoRequest))
        ensures
            r.0 == (InsertOp { hash, entry, state: InsertState::Appending }),
            r.1@ == IoRequestView::Append(entry.spec_to_bytes()),
    {
        let bytes = entry.encode();
        (InsertOp { hash, entry, state: InsertState::Appending }, IoRequest::Append(bytes))
    }

    /// The entry was appended to the content file at `pos`.
    pub fn appended(&mut self, btree: &mut BTreeMap<u64, u64>, pos: u64) -> (r: Option<IoRequest>)
        ensures
            (*final(self), final(btree)@, opt_view(r)) == old(self).spec_appended(old(btree)@, pos),
    {
        if self.state != InsertState::Appending {
            return None;
        }
        if btree.contains_key(&self.hash) {
            let walk = walk_to_last(btree, self.hash);
            self.state = InsertState::Walking { pos, walk };
            Some(IoRequest::Read(walk.offset))
        } else {
            btree.insert(self.hash, pos);
            self.state = InsertState::Finished;
            None
        }
    }

    /// The page asked for was read.
    pub fn page_read(&mut self, page: &[u8]) -> (r: Option<IoRequest>)
        requires
            page@.len() >= E::encoded_len(),
        ensures
            (*final(self), opt_view(r)) == old(self).spec_page_read(E::spec_from_bytes(page@)),
    {
        match self.state {
            InsertState::Walking { pos, walk } => {
                let mut walk = walk;
                match walk.step::<E>(page) {
                    WalkStep::Read(o) => {
                        self.state = InsertState::Walking { pos, walk };
                        Some(IoRequest::Read(o))
                    },
                    WalkStep::Found(last, o) => {
                        let linked = last.with_next(pos);
                        self.state = InsertState::Finished;
                        Some(IoRequest::Write(o, linked.encode()))
                    },
                    WalkStep::Failed(_) => {
                        self.state = InsertState::Finished;
                        None
                    },
                }
            },
            _ => None,
        }
    }
}

/// Where a lookup stands.
#[derive(Debug, Clone, Copy, PartialEq, Eq, Structural)]
pub enum GetState {
    /// The head of the chain, at this offset, is to be read.
    AtHead(u64),
    /// The chain is walked for the entry with the key's length.
    Walking(CollisionWalk),
}

/// The outcome of one step of a lookup.
#[derive(Debug)]
pub enum GetStep<E> {
    /// Read the page at this offset next.
    Read(u64),
    /// The entry of the key.
    Found(E),
    /// The chain holds no entry with the key's length.
    Lost(CollisionWalkErr),
}

/// A lookup of one key, driven by the caller's file reads.
#[derive(Debug)]
pub struct GetOp {
    /// The hash of the key.
    pub hash: u64,
    /// The byte length of the key, cut to 32 bits.
    pub key_len: u32,
    pub state: GetState,
}

impl GetOp {
    pub open spec fn spec_offset(self) -> u64 {
        match self.state {
            GetState::AtHead(o) => o,
            GetState::Walking(w) => w.offset,
        }
    }

    /// The op after the page at `self.offset()` was read and holds `de`, and its outcome.
    pub open spec fn spec_page_read<E: ChainEntry>(self, btree: Map<u64, u64>, de: E) -> (
        GetOp,
        GetStep<E>,
    ) {
        match self.state {
            GetState::AtHead(_) => {
                if de.spec_link().next != 0 && de.spec_link().key_len != self.key_len {
                    if btree.contains_key(self.hash) {
                        let walk = CollisionWalk {
                            start: self.hash,
                            goal: WalkGoal::KeyLen(self.key_len),
                            offset: btree[self.hash],
                        };
                        (GetOp { state: GetState::Walking(walk), ..self }, GetStep::Read(walk.offset))
                    } else {
                        (
                            self,
                            GetStep::Lost(
                                CollisionWalkErr::HashNotFound { hash: self.hash, len: self.key_len },
                            ),
                        )
                    }
                } else {
                    (self, GetStep::Found(de))
                }
            },
            GetState::Walking(w) => {
                let (w2, step) = w.spec_step(de);
                match step {
                    WalkStep::Read(o) => (GetOp { state: GetState::Walking(w2), ..self }, GetStep::Read(o)),
                    WalkStep::Found(d, _) => (self, GetStep::Found(d)),
                    WalkStep::Failed(e) => (self, GetStep::Lost(e)),
                }
            },
        }
    }

    /// Starts a lookup of a key whose hash is `hash` and whose byte length is `key_len`:
    /// fails when no chain has the hash, else the head is to be read.
    pub fn start(btree: &BTreeMap<u64, u64>, hash: u64, key_len: u32) -> (r: Option<GetOp>)
        ensures
            match r {
                Some(op) => {
                    &&& btree@.contains_key(hash)
                    &&& op == (GetOp { hash, key_len, state: GetState::AtHead(btree@[hash]) })
                },
                None => !btree@.contains_key(hash),
            },
    {
        match btree.get(&hash) {
            Some(o) => Some(GetOp { hash, key_len, state: GetState::AtHead(*o) }),
            None => None,
        }
    }

    /// Offset of the page to read next.
    pub fn offset(&self) -> (r: u64)
        ensures
            r == self.spec_offset(),
    {
        match self.state {
            GetState::AtHead(o) => o,
            GetState::Walking(w) => w.offset,
        }
    }

    /// The page at `self.offset()` was read.
    pub fn page_read<E: ChainEntry>(&mut self, btree: &BTreeMap<u64, u64>, page: &[u8]) -> (r: GetStep<E>)
        requires
            page@.len() >= E::encoded_len(),
        ensures
            (*final(self), r) == old(self).spec_page_read(btree@, E::spec_from_bytes(page@)),
    {
        match self.state {
            GetState::AtHead(_) => {
                let de = E::decode(page);
                if de.next_offset() != 0 && de.key_length() != self.key_len {
                    if btree.contains_key(&self.hash) {
                        let walk = walk_to_len(btree, self.hash, self.key_len);
                        self.state = GetState::Walking(walk);
                        GetStep::Read(walk.offset)
                    } else {
                        GetStep::Lost(
                            CollisionWalkErr::HashNotFound { hash: self.hash, len: self.key_len },
                        )
                    }
                } else {
                    GetStep::Found(de)
                }
            },
            GetState::Walking(w) => {
                let mut walk = w;
                match walk.step::<E>(page) {
                    WalkStep::Read(o) => {
                        self.state = GetState::Walking(walk);
                        GetStep::Read(o)
                    },
                    WalkStep::Found(d, _) => GetStep::Found(d),
                    WalkStep::Failed(e) => GetStep::Lost(e),
                }
            },
        }
    }
}

} // verus!
