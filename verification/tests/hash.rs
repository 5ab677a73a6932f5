use std::hash::{DefaultHasher, Hash, Hasher};
use hashidx::db::hash::hash as db_hash;
use hashidx::index::hash::{hash, str_eq, COLLISION_VALUES, NON_COLLISION_VALUES};

#[test]
fn collision_values_hash_to_one() {
    for v in COLLISION_VALUES {
        assert_eq!(hash(v), 1);
        assert_eq!(db_hash(v), 1);
    }
}

#[test]
fn default_hash_is_deterministic() {
    for (s, _) in NON_COLLISION_VALUES {
        assert_eq!(hash(s), hash(s));
        assert_eq!(hash(s), db_hash(s));
        assert_ne!(hash(s), 1);
    }
    assert_ne!(hash("I"), hash("like"));
}

#[test]
fn default_hash_is_std_default_hasher() {
    for s in ["I", "like", "", "héllo", "hello "] {
        let mut h = DefaultHasher::new();
        s.hash(&mut h);
        assert_eq!(hash(s), h.finish());
    }
}

#[test]
fn str_eq_compares_characters() {
    assert!(str_eq("food", "food"));
    assert!(!str_eq("food", "foo"));
    assert!(!str_eq("food", "fool"));
    assert!(str_eq("", ""));
    assert!(str_eq("héllo", "héllo"));
}

#[test]
fn collision_values_have_distinct_lengths() {
    // Two values may not have the same length
    for (i, a) in COLLISION_VALUES.iter().enumerate() {
        for b in COLLISION_VALUES.iter().skip(i + 1) {
            assert_ne!(a.len(), b.len());
        }
    }
}
