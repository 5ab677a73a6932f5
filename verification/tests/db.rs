use hashidx::chain::{GetStep, IoRequest};
use hashidx::db::disk_entry::{DiskEntry, ENTRY_LEN};
use hashidx::db::error::GetErr;
use hashidx::db::hash::{hash, COLLISION_VALUES, NON_COLLISION_VALUES};
use hashidx::db::{DB, PAGE_SIZE};

/// A database whose content and entries files are kept in memory.
struct MemDb {
    db: DB,
    content: Vec<u8>,
    entries: Vec<u8>,
    buffer: [u8; PAGE_SIZE],
}

impl MemDb {
    fn init() -> Self {
        MemDb { db: DB::new(), content: Vec::new(), entries: Vec::new(), buffer: [0u8; PAGE_SIZE] }
    }

    fn read_page(&mut self, off: u64) {
        let off = off as usize;
        let end = (off + PAGE_SIZE).min(self.content.len());
        if off < end {
            self.buffer[..end - off].copy_from_slice(&self.content[off..end]);
        }
    }

    fn insert(&mut self, key: &str, val: &str) {
        let val_offset = self.entries.len() as u64;
        self.entries.extend_from_slice(val.as_bytes());
        let (mut op, req) = self.db.insert_idx(key, val_offset, val.len());
        let mut next = Some(req);
        while let Some(req) = next {
            next = match req {
                IoRequest::Append(bytes) => {
                    let pos = self.content.len() as u64;
                    self.content.extend_from_slice(&bytes);
                    op.appended(&mut self.db.btree, pos)
                }
                IoRequest::Read(off) => {
                    self.read_page(off);
                    op.page_read(&self.buffer)
                }
                IoRequest::Write(off, bytes) => {
                    let off = off as usize;
                    self.content[off..off + bytes.len()].copy_from_slice(&bytes);
                    None
                }
            };
        }
    }

    fn get_idx(&mut self, key: &str) -> Result<DiskEntry, GetErr> {
        let mut op = self.db.get_idx(key)?;
        loop {
            self.read_page(op.offset());
            match op.page_read::<DiskEntry>(&self.db.btree, &self.buffer) {
                GetStep::Read(_) => {}
                GetStep::Found(de) => return Ok(de),
                GetStep::Lost(e) => panic!("called `Result::unwrap()` on an `Err` value: {:?}", e),
            }
        }
    }

    fn get(&mut self, key: &str) -> Result<String, GetErr> {
        let de = self.get_idx(key)?;
        let start = de.entry as usize;
        let buf = self.entries[start..start + de.val_len as usize].to_vec();
        Ok(DB::value_from_bytes(buf).unwrap())
    }
}

#[test]
fn disk_entry_disk_entry_serialization() {
    let de = DiskEntry::new("1234", 3, 12345);
    let bytes = de.to_bytes();
    let de_new = DiskEntry::from_bytes(&bytes).unwrap();
    assert_eq!(de, de_new)
}

#[test]
fn mod_e2e_index() {
    let mut idx = MemDb::init();
    let values = NON_COLLISION_VALUES;

    for (s, val) in values {
        idx.insert(s, val);
    }

    for (s, val) in values {
        let v = idx.get(s).unwrap();
        assert_eq!(v, val, "For {s} - {:?}; Values: {:?}; Btree: {:?}", hash(s), values, idx.db.btree);
    }
}

#[test]
fn mod_e2e_index_collision() {
    let mut idx = MemDb::init();

    let values: Vec<(&str, String)> =
        COLLISION_VALUES.iter().map(|v| (*v, rand::random::<u64>().to_string())).collect();

    for (s, val) in &values {
        idx.insert(s, val);
    }

    for (s, val) in values {
        let v = idx.get(s).unwrap();
        assert_eq!(v, val);
    }
}

#[test]
fn mod_e2e_index_full() {
    let mut idx = MemDb::init();

    let mut values: Vec<(&str, String)> =
        COLLISION_VALUES.iter().map(|v| (*v, rand::random::<u64>().to_string())).collect();
    values.extend(NON_COLLISION_VALUES.iter().map(|(k, v)| (*k, v.to_string())));

    for (s, val) in &values {
        idx.insert(s, val);
    }

    for (s, val) in &values {
        let v = idx.get(s).unwrap();
        assert_eq!(v, *val, "For {s} - {:?}; Values: {:?}; Btree: {:?}", hash(s), values, idx.db.btree);
    }
}

#[test]
fn db_disk_entry_layout() {
    let de = DiskEntry::new("key", 100, 7);
    assert_eq!(de, DiskEntry { key_len: 3, val_len: 7, next: 0, entry: 100 });
    let bytes = de.to_bytes();
    assert_eq!(bytes.len(), ENTRY_LEN);
    assert_eq!(&bytes[0..4], &[7, 0, 0, 0]);
    assert_eq!(&bytes[4..8], &[3, 0, 0, 0]);
    assert_eq!(&bytes[8..16], &[0; 8]);
    assert_eq!(&bytes[16..24], &[100, 0, 0, 0, 0, 0, 0, 0]);
}

#[test]
fn db_get_entry_after_insert() {
    let mut idx = MemDb::init();
    idx.insert("hello", "world");
    idx.insert("why", "not");
    let de = idx.get_idx("why").unwrap();
    assert_eq!(de, DiskEntry { key_len: 3, val_len: 3, next: 0, entry: 5 });
    assert_eq!(idx.get("hello").unwrap(), "world");
}

#[test]
fn db_unknown_key() {
    let mut idx = MemDb::init();
    idx.insert("like", "you do.");
    match idx.get("Pizza") {
        Err(GetErr::HashNotFound(h)) => assert_eq!(h, hash("Pizza")),
        other => panic!("unexpected {:?}", other),
    }
}

#[test]
fn value_from_bytes_checks_utf8() {
    assert_eq!(DB::value_from_bytes("héllo".as_bytes().to_vec()), Some("héllo".to_string()));
    assert_eq!(DB::value_from_bytes(vec![0xff, 0x00]), None);
    assert_eq!(DB::value_from_bytes(vec![]), Some(String::new()));
}
