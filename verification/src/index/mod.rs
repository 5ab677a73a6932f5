pub mod disk_entry;
pub mod error;
pub mod hash;

use std::collections::BTreeMap;
use vstd::prelude::*;

use crate::chain::{
    walk_to_last, walk_to_len, ChainEntry, CollisionWalk, GetOp, GetState, GetStep, InsertOp,
    InsertState, IoRequest, IoRequestView, WalkGoal,
};
use crate::index::disk_entry::{DiskEntry, ENTRY_LEN};
use crate::index::error::GetErr;
use crate::index::hash::{hash, spec_hash, IdxHash};
use crate::model::{
    chains_ok, keys_distinct, law_get_after_insert, law_lookups_after_inserts, links_of, lookup_of,
    run_get, run_insert, run_inserts,
};

verus! {

/// Page size in bytes
pub const PAGE_SIZE: usize = 256;

/// What an index entry maps a key to.
pub type Value = u64;

/// The index proper: the btree that maps the hash of a key to the offset of the
/// first on-disk entry with that hash. The entries live in a content file that the
/// caller holds; inserts and lookups tell the caller what to do with it.
pub struct Index {
    /// Btree maps the hash of a String to the offset of the disk node.
    /// At that offset, there is a DiskEntry (see struct DiskEntry),
    /// which in turn holds the value.
    pub btree: BTreeMap<IdxHash, u64>,
}

impl Index {
    /// An empty index.
    pub fn new() -> (r: Self)
        ensures
            r.btree@ == Map::<IdxHash, u64>::empty(),
    {
        Index { btree: BTreeMap::new() }
    }

    /// Starts inserting key `s` with `value`: the entry for it is to be appended to the
    /// content file; `InsertOp::appended` and `InsertOp::page_read` take it from there.
    pub fn insert(&self, s: &str, value: Value) -> (r: (InsertOp<DiskEntry>, IoRequest))
        ensures
            r.0 == insert_op_of(s, value),
            r.1@ == IoRequestView::Append(r.0.entry.spec_to_bytes()),
    {
        let h = hash(s);
        InsertOp::start(h, DiskEntry::new(s, value))
    }

    /// The walk along the collision chain of `start` to its last entry; the caller reads
    /// the pages it asks for and hands them to `CollisionWalk::step`.
    pub fn collision_last(&self, start: IdxHash) -> (r: CollisionWalk)
        requires
            self.btree@.contains_key(start),
        ensures
            r == (CollisionWalk { start, goal: WalkGoal::Last, offset: self.btree@[start] }),
    {
        walk_to_last(&self.btree, start)
    }

    /// The walk along the collision chain of `start` to its first entry whose key has
    /// length `find_len`; the caller reads the pages it asks for and hands them to
    /// `CollisionWalk::step`.
    pub fn collision_find(&self, start: IdxHash, find_len: u32) -> (r: CollisionWalk)
        requires
            self.btree@.contains_key(start),
        ensures
            r == (CollisionWalk { start, goal: WalkGoal::KeyLen(find_len), offset: self.btree@[start] }),
    {
        walk_to_len(&self.btree, start, find_len)
    }

    /// Starts looking `key` up: fails when no chain has its hash, else the head of the
    /// chain is to be read; `GetOp::page_read` takes it from there.
    pub fn get(&self, key: &str) -> (r: Result<GetOp, GetErr>)
        ensures
            match r {
                Ok(op) => {
                    &&& self.btree@.contains_key(spec_hash(key@))
                    &&& op == (GetOp {
                        hash: spec_hash(key@),
                        key_len: key.len() as u32,
                        state: GetState::AtHead(self.btree@[spec_hash(key@)]),
                    })
                },
                Err(e) => {
                    &&& !self.btree@.contains_key(spec_hash(key@))
                    &&& e matches GetErr::HashNotFound(h) && h == spec_hash(key@)
                },
            },
    {
        let h = hash(key);
        match GetOp::start(&self.btree, h, key.len() as u32) {
            Some(op) => Ok(op),
            None => Err(GetErr::HashNotFound(h)),
        }
    }
}

/// After `Index::insert(key, value)` has run to its end on a well-formed index, with the
/// content file answering faithfully and the entry appended at the end of the file,
/// the lookup that `Index::get(key)` starts runs to `value`, as long as no key inserted
/// before with the same hash has the same byte length.
pub proof fn law_index_get_after_insert(
    btree: Map<IdxHash, u64>,
    content: Map<u64, DiskEntry>,
    chains: Map<u64, Seq<u64>>,
    end: nat,
    key: &str,
    value: Value,
    pos: u64,
    fuel: nat,
)
    requires
        chains_ok(btree, links_of(content), chains, end),
        pos >= end,
        btree.contains_key(spec_hash(key@)) ==> forall|i: int|
            0 <= i < chains[spec_hash(key@)].len() ==> content[#[trigger] chains[spec_hash(
                key@,
            )][i]].len != key.len() as u32,
        fuel >= (if btree.contains_key(spec_hash(key@)) {
            chains[spec_hash(key@)].len() + 2
        } else {
            1
        }),
    ensures
        ({
            let op = insert_op_of(key, value);
            run_insert(op, btree, content, pos, fuel) matches Some((btree2, content2)) && {
                &&& btree2.contains_key(spec_hash(key@))
                &&& run_get(
                    GetOp {
                        hash: spec_hash(key@),
                        key_len: key.len() as u32,
                        state: GetState::AtHead(btree2[spec_hash(key@)]),
                    },
                    btree2,
                    content2,
                    fuel,
                ) matches Some(GetStep::Found(de)) && de.entry == value
            }
        }),
{
    let op = insert_op_of(key, value);
    let h = spec_hash(key@);
    if btree.contains_key(h) {
        assert forall|i: int| 0 <= i < chains[h].len() implies links_of(content)[#[trigger] chains[
            h][i]].key_len != op.entry.spec_link().key_len by {
            assert(chains.contains_key(h));
            assert(links_of(content).contains_key(chains[h][i]));
            assert(content[chains[h][i]].len != key.len() as u32);
        }
    }
    law_get_after_insert(btree, content, chains, end, op, pos, fuel);
}


/// The insert that `Index::insert(key, value)` starts.
pub open spec fn insert_op_of(key: &str, value: Value) -> InsertOp<DiskEntry> {
    InsertOp {
        hash: spec_hash(key@),
        entry: DiskEntry { len: key.len() as u32, next: 0, entry: value },
        state: InsertState::Appending,
    }
}

/// Inserting a list of keys and values into an empty index and file, no two keys with
/// the same hash and byte length, each insert run to its end with the file answering
/// faithfully: afterwards the lookup that `Index::get` starts for each key runs to the
/// key's value.
pub proof fn law_index_lookups_after_inserts<'a>(keys: Seq<(&'a str, Value)>, fuel: nat)
    requires
        forall|i: int, j: int|
            #![trigger keys[i], keys[j]]
            0 <= i < keys.len() && 0 <= j < keys.len() && i != j ==> !(spec_hash(keys[i].0@)
                == spec_hash(keys[j].0@) && keys[i].0.len() as u32 == keys[j].0.len() as u32),
        fuel > keys.len(),
        keys.len() * ENTRY_LEN <= u64::MAX,
    ensures
        run_inserts(
            keys.map_values(|k: (&'a str, Value)| insert_op_of(k.0, k.1)),
            Map::empty(),
            Map::empty(),
            0,
            fuel,
        ) matches Some((btree, content)) && forall|i: int|
            0 <= i < keys.len() ==> {
                let key = (#[trigger] keys[i]).0;
                &&& btree.contains_key(spec_hash(key@))
                &&& run_get(
                    GetOp {
                        hash: spec_hash(key@),
                        key_len: key.len() as u32,
                        state: GetState::AtHead(btree[spec_hash(key@)]),
                    },
                    btree,
                    content,
                    fuel,
                ) matches Some(GetStep::Found(d)) && d.entry == keys[i].1
            },
{
    let ops = keys.map_values(|k: (&'a str, Value)| insert_op_of(k.0, k.1));
    assert forall|i: int, j: int|
        #![trigger ops[i], ops[j]]
        0 <= i < ops.len() && 0 <= j < ops.len() && i != j implies !(ops[i].hash == ops[j].hash
            && ops[i].entry.spec_link().key_len == ops[j].entry.spec_link().key_len) by {
        assert(ops[i] == insert_op_of(keys[i].0, keys[i].1));
        assert(ops[j] == insert_op_of(keys[j].0, keys[j].1));
    }
    assert(keys_distinct(ops));
    law_lookups_after_inserts(ops, fuel);
    let (btree, content) = run_inserts(ops, Map::empty(), Map::empty(), 0, fuel).unwrap();
    assert forall|i: int| 0 <= i < keys.len() implies {
        let key = (#[trigger] keys[i]).0;
        &&& btree.contains_key(spec_hash(key@))
        &&& run_get(
            GetOp {
                hash: spec_hash(key@),
                key_len: key.len() as u32,
                state: GetState::AtHead(btree[spec_hash(key@)]),
            },
            btree,
            content,
            fuel,
        ) matches Some(GetStep::Found(d)) && d.entry == keys[i].1
    } by {
        assert(ops[i] == insert_op_of(keys[i].0, keys[i].1));
        assert(lookup_of(ops[i], btree) == GetOp {
            hash: spec_hash(keys[i].0@),
            key_len: keys[i].0.len() as u32,
            state: GetState::AtHead(btree[spec_hash(keys[i].0@)]),
        });
    }
}

} // verus!
