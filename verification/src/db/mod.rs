pub mod disk_entry;
pub mod error;
pub mod hash;

use std::collections::BTreeMap;
use vstd::prelude::*;
use vstd::utf8::{decode_utf8, encode_utf8, valid_utf8};

use crate::chain::{
    walk_to_last, walk_to_len, ChainEntry, CollisionWalk, GetOp, GetState, GetStep, InsertOp,
    InsertState, IoRequest, IoRequestView, WalkGoal,
};
use crate::db::disk_entry::{DiskEntry, ENTRY_LEN};
use crate::db::error::GetErr;
use crate::db::hash::{hash, spec_hash, IdxHash};
use crate::model::{
    chains_ok, keys_distinct, law_get_after_insert, law_lookups_after_inserts, links_of, lookup_of,
    run_get, run_insert, run_inserts,
};

verus! {

/// Page size in bytes
pub const PAGE_SIZE: usize = 256;

/// The database: the btree that maps the hash of a key to the offset of the first
/// entry with that hash in the content file. Values live in a second file, the
/// entries file, where each entry points. Both files are held by the caller.
pub struct DB {
    /// Btree maps the hash of a String to the offset of the disk node.
    /// At that offset, there is a DiskEntry (see struct DiskEntry),
    /// which in turn points to the offset of the actual data.
    pub btree: BTreeMap<IdxHash, u64>,
}

impl DB {
    /// An empty database.
    pub fn new() -> (r: Self)
        ensures
            r.btree@ == Map::<IdxHash, u64>::empty(),
    {
        DB { btree: BTreeMap::new() }
    }

    /// Starts inserting `key` into the index, its value stored at `val_offset` of the
    /// entries file with `val_len` bytes: the entry for it is to be appended.
    pub fn insert_idx(&self, key: &str, val_offset: u64, val_len: usize) -> (r: (
        InsertOp<DiskEntry>,
        IoRequest,
    ))
        ensures
            r.0 == insert_op_of(key, val_offset, val_len),
            r.1@ == IoRequestView::Append(r.0.entry.spec_to_bytes()),
    {
        let h = hash(key);
        InsertOp::start(h, DiskEntry::new(key, val_offset, val_len as u32))
    }

    /// The walk along the collision chain of `start` to its last entry; the caller reads
    /// the pages it asks for and hands them to `CollisionWalk::step`.
    pub fn collision_last(&self, start: IdxHash) -> (r: CollisionWalk)
        requires
            self.btree@.contains_key(start),
        ensures
            r == (CollisionWalk { start, goal: WalkGoal::Last, offset: self.btree@[start] }),
    {
        walk_to_last(&self.btree, start)
    }

    /// The walk along the collision chain of `start` to its first entry whose key has
    /// length `find_len`; the caller reads the pages it asks for and hands them to
    /// `CollisionWalk::step`.
    pub fn collision_find(&self, start: IdxHash, find_len: u32) -> (r: CollisionWalk)
        requires
            self.btree@.contains_key(start),
        ensures
            r == (CollisionWalk { start, goal: WalkGoal::KeyLen(find_len), offset: self.btree@[start] }),
    {
        walk_to_len(&self.btree, start, find_len)
    }

    /// Starts looking `key` up in the index: fails when no chain has its hash, else the
    /// head of the chain is to be read.
    pub fn get_idx(&self, key: &str) -> (r: Result<GetOp, GetErr>)
        ensures
            match r {
                Ok(op) => {
                    &&& self.btree@.contains_key(spec_hash(key@))
                    &&& op == (GetOp {
                        hash: spec_hash(key@),
                        key_len: key.len() as u32,
                        state: GetState::AtHead(self.btree@[spec_hash(key@)]),
                    })
                },
                Err(e) => {
                    &&& !self.btree@.contains_key(spec_hash(key@))
                    &&& e matches GetErr::HashNotFound(h) && h == spec_hash(key@)
                },
            },
    {
        let h = hash(key);
        match GetOp::start(&self.btree, h, key.len() as u32) {
            Some(op) => Ok(op),
            None => Err(GetErr::HashNotFound(h)),
        }
    }

    /// The value that the bytes read from the entries file hold: `None` when they are
    /// not UTF-8.
    pub fn value_from_bytes(bytes: Vec<u8>) -> (r: Option<String>)
        ensures
            match r {
                Some(s) => valid_utf8(bytes@) && s@ == decode_utf8(bytes@),
                None => !valid_utf8(bytes@),
            },
    {
        string_from_utf8(bytes)
    }
}

/// The insert that `DB::insert_idx(key, val_offset, val_len)` starts.
pub open spec fn insert_op_of(key: &str, val_offset: u64, val_len: usize) -> InsertOp<DiskEntry> {
    InsertOp {
        hash: spec_hash(key@),
        entry: DiskEntry {
            key_len: key.len() as u32,
            val_len: val_len as u32,
            next: 0,
            entry: val_offset,
        },
        state: InsertState::Appending,
    }
}

/// Inserting a list of keys, each with the offset and length of its value in the
/// entries file, into an empty index and content file, no two keys with the same hash
/// and byte length, each insert run to its end with the file answering faithfully:
/// afterwards the lookup that `DB::get_idx` starts for each key runs to an entry that
/// points at the key's value.
pub proof fn law_db_lookups_after_inserts<'a>(keys: Seq<(&'a str, u64, usize)>, fuel: nat)
    requires
        forall|i: int, j: int|
            #![trigger keys[i], keys[j]]
            0 <= i < keys.len() && 0 <= j < keys.len() && i != j ==> !(spec_hash(keys[i].0@)
                == spec_hash(keys[j].0@) && keys[i].0.len() as u32 == keys[j].0.len() as u32),
        fuel > keys.len(),
        keys.len() * ENTRY_LEN <= u64::MAX,
    ensures
        run_inserts(
            keys.map_values(|k: (&'a str, u64, usize)| insert_op_of(k.0, k.1, k.2)),
            Map::empty(),
            Map::empty(),
            0,
            fuel,
        ) matches Some((btree, content)) && forall|i: int|
            0 <= i < keys.len() ==> {
                let key = (#[trigger] keys[i]).0;
                &&& btree.contains_key(spec_hash(key@))
                &&& run_get(
                    GetOp {
                        hash: spec_hash(key@),
                        key_len: key.len() as u32,
                        state: GetState::AtHead(btree[spec_hash(key@)]),
                    },
                    btree,
                    content,
                    fuel,
                ) matches Some(GetStep::Found(d)) && d.entry == keys[i].1 && d.val_len
                    == keys[i].2 as u32
            },
{
    let ops = keys.map_values(|k: (&'a str, u64, usize)| insert_op_of(k.0, k.1, k.2));
    assert forall|i: int, j: int|
        #![trigger ops[i], ops[j]]
        0 <= i < ops.len() && 0 <= j < ops.len() && i != j implies !(ops[i].hash == ops[j].hash
            && ops[i].entry.spec_link().key_len == ops[j].entry.spec_link().key_len) by {
        assert(ops[i] == insert_op_of(keys[i].0, keys[i].1, keys[i].2));
        assert(ops[j] == insert_op_of(keys[j].0, keys[j].1, keys[j].2));
    }
    assert(keys_distinct(ops));
    law_lookups_after_inserts(ops, fuel);
    let (btree, content) = run_inserts(ops, Map::empty(), Map::empty(), 0, fuel).unwrap();
    assert forall|i: int| 0 <= i < keys.len() implies {
        let key = (#[trigger] keys[i]).0;
        &&& btree.contains_key(spec_hash(key@))
        &&& run_get(
            GetOp {
                hash: spec_hash(key@),
                key_len: key.len() as u32,
                state: GetState::AtHead(btree[spec_hash(key@)]),
            },
            btree,
            content,
            fuel,
        ) matches Some(GetStep::Found(d)) && d.entry == keys[i].1 && d.val_len == keys[i].2 as u32
    } by {
        assert(ops[i] == insert_op_of(keys[i].0, keys[i].1, keys[i].2));
        assert(lookup_of(ops[i], btree) == GetOp {
            hash: spec_hash(keys[i].0@),
            key_len: keys[i].0.len() as u32,
            state: GetState::AtHead(btree[spec_hash(keys[i].0@)]),
        });
    }
}

/// After `DB::insert_idx(key, val_offset, val_len)` has run to its end on a well-formed
/// index, with the content file answering faithfully and the entry appended at the end
/// of the file, the lookup that `DB::get_idx(key)` starts runs to the entry that points
/// at the value, as long as no key inserted before with the same hash has the same byte
/// length.
pub proof fn law_db_get_after_insert(
    btree: Map<IdxHash, u64>,
    content: Map<u64, DiskEntry>,
    chains: Map<u64, Seq<u64>>,
    end: nat,
    key: &str,
    val_offset: u64,
    val_len: usize,
    pos: u64,
    fuel: nat,
)
    requires
        chains_ok(btree, links_of(content), chains, end),
        pos >= end,
        btree.contains_key(spec_hash(key@)) ==> forall|i: int|
            0 <= i < chains[spec_hash(key@)].len() ==> content[#[trigger] chains[spec_hash(
                key@,
            )][i]].key_len != key.len() as u32,
        fuel >= (if btree.contains_key(spec_hash(key@)) {
            chains[spec_hash(key@)].len() + 2
        } else {
            1
        }),
    ensures
        ({
            let op = insert_op_of(key, val_offset, val_len);
            run_insert(op, btree, content, pos, fuel) matches Some((btree2, content2)) && {
                &&& btree2.contains_key(spec_hash(key@))
                &&& run_get(
                    GetOp {
                        hash: spec_hash(key@),
                        key_len: key.len() as u32,
                        state: GetState::AtHead(btree2[spec_hash(key@)]),
                    },
                    btree2,
                    content2,
                    fuel,
                ) matches Some(GetStep::Found(de)) && de.entry == val_offset && de.val_len
                    == val_len as u32
            }
        }),
{
    let op = insert_op_of(key, val_offset, val_len);
    let h = spec_hash(key@);
    if btree.contains_key(h) {
        assert forall|i: int| 0 <= i < chains[h].len() implies links_of(content)[#[trigger] chains[
            h][i]].key_len != op.entry.spec_link().key_len by {
            assert(chains.contains_key(h));
            assert(links_of(content).contains_key(chains[h][i]));
            assert(content[chains[h][i]].key_len != key.len() as u32);
        }
    }
    law_get_after_insert(btree, content, chains, end, op, pos, fuel);
}

/// A value written to the entries file as its UTF-8 bytes reads back as the same value.
pub proof fn law_value_roundtrip(s: Seq<char>)
    ensures
        valid_utf8(encode_utf8(s)),
        decode_utf8(encode_utf8(s)) == s,
{
    vstd::utf8::encode_utf8_valid_utf8(s);
    vstd::utf8::encode_utf8_decode_utf8(s);
}

/// Calls `String::from_utf8`. Trusted: it succeeds exactly when the bytes are valid
/// UTF-8, and then holds the characters they encode; the error is dropped.
#[verifier::external_body]
fn string_from_utf8(bytes: Vec<u8>) -> (r: Option<String>)
    ensures
        match r {
            Some(s) => valid_utf8(bytes@) && s@ == decode_utf8(bytes@),
            None => !valid_utf8(bytes@),
        },
{
    String::from_utf8(bytes).ok()
}

} // verus!
