use hashidx::chain::{GetStep, IoRequest, WalkGoal, WalkStep};
use hashidx::index::disk_entry::{DiskEntry, ENTRY_LEN};
use hashidx::index::error::{CollisionWalkErr, GetErr};
use hashidx::index::hash::{hash, COLLISION_VALUES, NON_COLLISION_VALUES};
use hashidx::index::{Index, Value, PAGE_SIZE};

/// An index whose content file is kept in memory.
struct MemIndex {
    index: Index,
    content: Vec<u8>,
    buffer: [u8; PAGE_SIZE],
}

impl MemIndex {
    fn init() -> Self {
        MemIndex { index: Index::new(), content: Vec::new(), buffer: [0u8; PAGE_SIZE] }
    }

    fn read_page(&mut self, off: u64) {
        let off = off as usize;
        let end = (off + PAGE_SIZE).min(self.content.len());
        if off < end {
            self.buffer[..end - off].copy_from_slice(&self.content[off..end]);
        }
    }

    fn insert(&mut self, s: &str, value: Value) {
        let (mut op, req) = self.index.insert(s, value);
        let mut next = Some(req);
        while let Some(req) = next {
            next = match req {
                IoRequest::Append(bytes) => {
                    let pos = self.content.len() as u64;
                    self.content.extend_from_slice(&bytes);
                    op.appended(&mut self.index.btree, pos)
                }
                IoRequest::Read(off) => {
                    self.read_page(off);
                    op.page_read(&self.buffer)
                }
                IoRequest::Write(off, bytes) => {
                    let off = off as usize;
                    self.content[off..off + bytes.len()].copy_from_slice(&bytes);
                    None
                }
            };
        }
    }

    fn get(&mut self, key: &str) -> Result<Value, GetErr> {
        let mut op = self.index.get(key)?;
        loop {
            self.read_page(op.offset());
            match op.page_read::<DiskEntry>(&self.index.btree, &self.buffer) {
                GetStep::Read(_) => {}
                GetStep::Found(de) => return Ok(de.entry),
                GetStep::Lost(e) => panic!("called `Result::unwrap()` on an `Err` value: {:?}", e),
            }
        }
    }

    fn walk(&mut self, start: u64, find_len: Option<u32>) -> Result<(DiskEntry, u64), CollisionWalkErr> {
        let mut walk = match find_len {
            None => self.index.collision_last(start),
            Some(n) => self.index.collision_find(start, n),
        };
        loop {
            self.read_page(walk.offset);
            match walk.step::<DiskEntry>(&self.buffer) {
                WalkStep::Read(_) => {}
                WalkStep::Found(de, off) => return Ok((de, off)),
                WalkStep::Failed(e) => return Err(e),
            }
        }
    }
}

#[test]
fn disk_entry_serialization() {
    let de = DiskEntry::new("Hello world", 12345);
    let bytes = de.to_bytes();
    let de_new = DiskEntry::from_bytes(&bytes).unwrap();
    assert_eq!(de, de_new)
}

#[test]
fn e2e_index() {
    let mut idx = MemIndex::init();
    let values = NON_COLLISION_VALUES;

    for (s, val) in values {
        idx.insert(s, val);
    }

    for (s, val) in values {
        let v = idx.get(s).unwrap();
        assert_eq!(v, val, "For {s} - {:?}; Values: {:?}; Btree: {:?}", hash(s), values, idx.index.btree);
    }
}

#[test]
fn e2e_index_collision() {
    let mut idx = MemIndex::init();

    let values: Vec<(&str, u64)> = COLLISION_VALUES.iter().map(|v| (*v, rand::random::<Value>())).collect();

    for (s, val) in &values {
        idx.insert(s, *val);
    }

    for (s, val) in values {
        let v = idx.get(s).unwrap();
        assert_eq!(v, val);
    }
}

#[test]
fn e2e_index_full() {
    let mut idx = MemIndex::init();

    let mut values: Vec<(&str, u64)> =
        COLLISION_VALUES.iter().map(|v| (*v, rand::random::<Value>())).collect();
    values.extend(NON_COLLISION_VALUES);

    for (s, val) in &values {
        idx.insert(s, *val);
    }

    for (s, val) in &values {
        let v = idx.get(s).unwrap();
        assert_eq!(v, *val, "For {s} - {:?}; Values: {:?}; Btree: {:?}", hash(s), values, idx.index.btree);
    }
}

#[test]
fn disk_entry_layout() {
    let de = DiskEntry { len: 0x0403_0201, next: 0x0c0b_0a09_0807_0605, entry: 0x1413_1211_100f_0e0d };
    let bytes = de.to_bytes();
    assert_eq!(bytes.len(), ENTRY_LEN);
    assert_eq!(bytes, (1u8..=20).collect::<Vec<u8>>());
    assert_eq!(DiskEntry::new("héllo", 7), DiskEntry { len: 6, next: 0, entry: 7 });
}

#[test]
fn from_bytes_reads_only_the_entry() {
    let mut page = vec![0xffu8; PAGE_SIZE];
    let de = DiskEntry { len: 3, next: 40, entry: 9 };
    page[..ENTRY_LEN].copy_from_slice(&de.to_bytes());
    assert_eq!(DiskEntry::from_bytes(&page), Some(de));
}

#[test]
fn get_unknown_key_is_hash_not_found() {
    let mut idx = MemIndex::init();
    idx.insert("like", 1);
    match idx.get("eating") {
        Err(GetErr::HashNotFound(h)) => assert_eq!(h, hash("eating")),
        other => panic!("unexpected {:?}", other),
    }
}

#[test]
fn get_after_insert_law_on_values() {
    let mut idx = MemIndex::init();
    idx.insert("hello", 10);
    idx.insert("why", 20);
    idx.insert("me", 30);
    // the collision keys share one chain, headed at the first entry
    assert_eq!(idx.index.btree.len(), 1);
    assert_eq!(idx.index.btree.get(&1), Some(&0));
    assert_eq!(idx.get("hello").unwrap(), 10);
    assert_eq!(idx.get("why").unwrap(), 20);
    assert_eq!(idx.get("me").unwrap(), 30);
    // the chain links the entries in insertion order
    assert_eq!(idx.content.len(), 3 * ENTRY_LEN);
    let head = DiskEntry::from_bytes(&idx.content[0..]).unwrap();
    assert_eq!(head, DiskEntry { len: 5, next: ENTRY_LEN as u64, entry: 10 });
    let second = DiskEntry::from_bytes(&idx.content[ENTRY_LEN..]).unwrap();
    assert_eq!(second, DiskEntry { len: 3, next: 2 * ENTRY_LEN as u64, entry: 20 });
}

#[test]
fn insert_keeps_other_keys() {
    let mut idx = MemIndex::init();
    idx.insert("like", 5);
    idx.insert("hello", 6);
    idx.insert("eating", 7);
    idx.insert("food", 8);
    assert_eq!(idx.get("like").unwrap(), 5);
    assert_eq!(idx.get("eating").unwrap(), 7);
    assert_eq!(idx.get("hello").unwrap(), 6);
    assert_eq!(idx.get("food").unwrap(), 8);
}

#[test]
fn collision_walks() {
    let mut idx = MemIndex::init();
    idx.insert("hello", 1);
    idx.insert("food", 2);
    idx.insert("i", 3);
    let (last, off) = idx.walk(1, None).unwrap();
    assert_eq!(last, DiskEntry { len: 1, next: 0, entry: 3 });
    assert_eq!(off, 2 * ENTRY_LEN as u64);
    let (found, off) = idx.walk(1, Some(4)).unwrap();
    assert_eq!(found.entry, 2);
    assert_eq!(off, ENTRY_LEN as u64);
    assert_eq!(idx.walk(1, Some(2)), Err(CollisionWalkErr::HashNotFound { hash: 1, len: 2 }));
    assert_eq!(idx.index.collision_find(1, 4).goal, WalkGoal::KeyLen(4));
}

#[test]
fn get_lost_in_chain() {
    let mut idx = MemIndex::init();
    idx.insert("hello", 1);
    idx.insert("food", 2);
    // same hash as the chain, but no entry of length 2 in it: the walk comes up empty
    let mut op = idx.index.get("me").unwrap();
    let mut steps = 0;
    let outcome = loop {
        idx.read_page(op.offset());
        steps += 1;
        match op.page_read::<DiskEntry>(&idx.index.btree, &idx.buffer) {
            GetStep::Read(_) => {}
            other => break other,
        }
    };
    // the head, then the head again and the second entry during the walk
    assert_eq!(steps, 3);
    match outcome {
        GetStep::Lost(e) => assert_eq!(e, CollisionWalkErr::HashNotFound { hash: 1, len: 2 }),
        other => panic!("unexpected {:?}", other),
    }
}

#[test]
fn single_entry_chain_answers_any_length() {
    // a chain of one entry is not walked: its value is given whatever the key length
    let mut idx = MemIndex::init();
    idx.insert("hello", 41);
    assert_eq!(idx.get("me").unwrap(), 41);
}

#[test]
fn insert_op_steps_out_of_order_do_nothing() {
    let mut index = Index::new();
    let (mut op, _) = index.insert("like", 3);
    assert!(op.appended(&mut index.btree, 0).is_none());
    // the op is finished: further events change nothing
    assert!(op.appended(&mut index.btree, 20).is_none());
    assert!(op.page_read(&[0u8; PAGE_SIZE]).is_none());
    assert_eq!(index.btree.get(&hash("like")), Some(&0));
    assert_eq!(index.btree.len(), 1);
}

#[test]
fn reinserting_a_key_keeps_the_first_value() {
    let mut idx = MemIndex::init();
    idx.insert("like", 1);
    idx.insert("like", 2);
    assert_eq!(idx.get("like").unwrap(), 1);
}
