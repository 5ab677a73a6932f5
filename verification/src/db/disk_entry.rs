use vstd::prelude::*;

use crate::chain::{ChainEntry, Link};
use crate::le::{
    le_nat, le_u32, le_u64, lemma_le_u32_value, lemma_le_u64_value, lemma_read_u32_at,
    lemma_read_u64_at, lemma_u32_le_value, lemma_u64_le_value, push_u32, push_u64, read_u32,
    read_u64, u32_le, u64_le,
};

verus! {

/// Number of bytes an encoded entry takes: value length (4), key length (4), next (8),
/// entry (8).
pub const ENTRY_LEN: usize = 24;

/// One node of a collision chain, as it is stored in the content file.
#[derive(Debug, PartialEq, Eq, Structural, Clone, Copy)]
pub struct DiskEntry {
    /// length of the key
    pub key_len: u32,
    /// length of the value
    pub val_len: u32,
    /// Offset to the next entry with the same hash; 0 ends the chain.
    pub next: u64,
    /// Offset to actual entry.
    /// Entry is to be stored elsewhere
    pub entry: u64,
}

impl DiskEntry {
    /// Little-endian encoding: `val_len`, `key_len`, `next`, `entry`.
    pub open spec fn spec_to_bytes(self) -> Seq<u8> {
        u32_le(self.val_len) + u32_le(self.key_len) + u64_le(self.next) + u64_le(self.entry)
    }

    /// Decoding of the first `ENTRY_LEN` bytes of `b`.
    pub open spec fn spec_from_bytes(b: Seq<u8>) -> DiskEntry {
        DiskEntry {
            val_len: le_u32(b, 0),
            key_len: le_u32(b, 4),
            next: le_u64(b, 8),
            entry: le_u64(b, 16),
        }
    }

    /// A fresh chain end for `key`, whose value is stored at `val_offset` with
    /// `val_len` bytes.
    pub fn new(key: &str, val_offset: u64, val_len: u32) -> (r: Self)
        ensures
            r == (DiskEntry { key_len: key.len() as u32, val_len, next: 0, entry: val_offset }),
    {
        Self { key_len: key.len() as u32, val_len, next: 0, entry: val_offset }
    }

    pub fn to_bytes(&self) -> (r: Vec<u8>)
        ensures
            r@ == self.spec_to_bytes(),
            r@.len() == ENTRY_LEN,
    {
        let mut out: Vec<u8> = Vec::new();
        push_u32(&mut out, self.val_len);
        push_u32(&mut out, self.key_len);
        push_u64(&mut out, self.next);
        push_u64(&mut out, self.entry);
        assert(out@ =~= self.spec_to_bytes());
        out
    }

    /// Decodes the entry held by the first `ENTRY_LEN` bytes of `bytes`.
    pub fn from_bytes(bytes: &[u8]) -> (r: Option<Self>)
        requires
            bytes@.len() >= ENTRY_LEN,
        ensures
            r == Some(Self::spec_from_bytes(bytes@)),
    {
        let val_len = read_u32(bytes, 0);
        let key_len = read_u32(bytes, 4);
        let next = read_u64(bytes, 8);
        let entry = read_u64(bytes, 16);
        Some(Self { key_len, val_len, next, entry })
    }
}

impl ChainEntry for DiskEntry {
    open spec fn spec_link(self) -> Link {
        Link { next: self.next, key_len: self.key_len }
    }

    open spec fn spec_with_next(self, next: u64) -> Self {
        DiskEntry { next, ..self }
    }

    open spec fn spec_to_bytes(self) -> Seq<u8> {
        DiskEntry::spec_to_bytes(self)
    }

    open spec fn spec_from_bytes(b: Seq<u8>) -> Self {
        DiskEntry::spec_from_bytes(b)
    }

    open spec fn encoded_len() -> nat {
        ENTRY_LEN as nat
    }

    fn decode(page: &[u8]) -> (r: Self) {
        Self::from_bytes(page).unwrap()
    }

    fn encode(&self) -> (r: Vec<u8>) {
        self.to_bytes()
    }

    fn next_offset(&self) -> (r: u64) {
        self.next
    }

    fn key_length(&self) -> (r: u32) {
        self.key_len
    }

    fn with_next(&self, next: u64) -> (r: Self) {
        DiskEntry { next, ..*self }
    }

    proof fn lemma_decode_encode(self) {
        lemma_from_to_bytes(self);
    }

    proof fn lemma_decode_page(self, rest: Seq<u8>) {
        law_decode_page(self, rest);
    }

    proof fn lemma_with_next(self, next: u64) {
    }

    proof fn lemma_with_next_twice(self, a: u64, b: u64) {
    }
}

/// Decoding what was encoded gives the entry back.
pub proof fn lemma_from_to_bytes(de: DiskEntry)
    ensures
        DiskEntry::spec_from_bytes(de.spec_to_bytes()) == de,
        de.spec_to_bytes().len() == ENTRY_LEN,
{
    law_decode_page(de, Seq::empty());
    assert(de.spec_to_bytes() + Seq::<u8>::empty() =~= de.spec_to_bytes());
}

/// A page that starts with the bytes of an entry decodes to that entry, whatever
/// follows the entry on the page.
pub proof fn law_decode_page(de: DiskEntry, rest: Seq<u8>)
    ensures
        DiskEntry::spec_from_bytes(de.spec_to_bytes() + rest) == de,
        de.spec_to_bytes().len() == ENTRY_LEN,
{
    lemma_u32_le_value(de.val_len);
    lemma_u32_le_value(de.key_len);
    lemma_u64_le_value(de.next);
    lemma_u64_le_value(de.entry);
    let b = de.spec_to_bytes() + rest;
    assert(b.subrange(0, 4) =~= u32_le(de.val_len));
    assert(b.subrange(4, 8) =~= u32_le(de.key_len));
    assert(b.subrange(8, 16) =~= u64_le(de.next));
    assert(b.subrange(16, 24) =~= u64_le(de.entry));
    lemma_read_u32_at(b, 0, de.val_len);
    lemma_read_u32_at(b, 4, de.key_len);
    lemma_read_u64_at(b, 8, de.next);
    lemma_read_u64_at(b, 16, de.entry);
}

/// Decoding reads the value length from the first four bytes, the key length from the
/// next four, `next` from the eight after them and the entry from the last eight, each
/// least significant byte first, whatever the bytes and whatever follows them.
pub proof fn law_decode_little_endian(b: Seq<u8>)
    requires
        b.len() >= ENTRY_LEN,
    ensures
        DiskEntry::spec_from_bytes(b).val_len as nat == le_nat(b.subrange(0, 4)),
        DiskEntry::spec_from_bytes(b).key_len as nat == le_nat(b.subrange(4, 8)),
        DiskEntry::spec_from_bytes(b).next as nat == le_nat(b.subrange(8, 16)),
        DiskEntry::spec_from_bytes(b).entry as nat == le_nat(b.subrange(16, 24)),
{
    lemma_le_u32_value(b, 0);
    lemma_le_u32_value(b, 4);
    lemma_le_u64_value(b, 8);
    lemma_le_u64_value(b, 16);
}

/// Encoding writes the value length as the first four bytes, the key length as the
/// next four, `next` as the eight after them and the entry as the last eight, each
/// least significant byte first.
pub proof fn law_encode_little_endian(de: DiskEntry)
    ensures
        de.spec_to_bytes().len() == ENTRY_LEN,
        le_nat(de.spec_to_bytes().subrange(0, 4)) == de.val_len,
        le_nat(de.spec_to_bytes().subrange(4, 8)) == de.key_len,
        le_nat(de.spec_to_bytes().subrange(8, 16)) == de.next,
        le_nat(de.spec_to_bytes().subrange(16, 24)) == de.entry,
{
    lemma_u32_le_value(de.val_len);
    lemma_u32_le_value(de.key_len);
    lemma_u64_le_value(de.next);
    lemma_u64_le_value(de.entry);
    let b = de.spec_to_bytes();
    assert(b.subrange(0, 4) =~= u32_le(de.val_len));
    assert(b.subrange(4, 8) =~= u32_le(de.key_len));
    assert(b.subrange(8, 16) =~= u64_le(de.next));
    assert(b.subrange(16, 24) =~= u64_le(de.entry));
}

} // verus!
