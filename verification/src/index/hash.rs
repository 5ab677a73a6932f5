use std::hash::{DefaultHasher, Hash, Hasher};
use vstd::prelude::*;
use vstd::std_specs::hash::DefaultHasherAdditionalSpecFns;
use vstd::string::StringSliceAdditionalSpecFns;

verus! {

broadcast use vstd::utf8::encode_utf8_decode_utf8;

pub type IdxHash = u64;

/// Two values may not have the same length
pub const COLLISION_VALUES: [&'static str; 5] = ["hello", "food", "why", "me", "i"];

pub const NON_COLLISION_VALUES: [(&'static str, u64); 4] = [
    ("I", 238412384),
    ("like", 1238421843),
    ("eating", 75),
    ("Pizza", 1234214),
];

/// The keys that all hash to 1, so that collisions can be tried by hand.
pub open spec fn is_collision_value(s: Seq<char>) -> bool {
    exists|i: int| 0 <= i < 5 && #[trigger] COLLISION_VALUES@[i]@ == s
}

/// The writes that `Hash for str` makes into a hasher for the string `s`; they depend
/// on `s` alone.
pub uninterp spec fn str_hash_writes(s: Seq<char>) -> Seq<Seq<u8>>;

/// What `DefaultHasher` gives for `s` alone.
pub open spec fn spec_calculate_hash(s: Seq<char>) -> IdxHash {
    DefaultHasher::spec_finish(str_hash_writes(s))
}

/// The hash of a key: 1 for the collision keys, the default hash otherwise.
pub open spec fn spec_hash(s: Seq<char>) -> IdxHash {
    if is_collision_value(s) {
        1
    } else {
        spec_calculate_hash(s)
    }
}

/// Whether two strings hold the same characters.
pub fn str_eq(a: &str, b: &str) -> (r: bool)
    ensures
        r == (a@ == b@),
{
    let x = a.as_bytes();
    let y = b.as_bytes();
    if x.len() != y.len() {
        return false;
    }
    let mut i: usize = 0;
    while i < x.len()
        invariant
            x@ == a.spec_bytes(),
            y@ == b.spec_bytes(),
            x@.len() == y@.len(),
            0 <= i <= x@.len(),
            forall|j: int| 0 <= j < i ==> x@[j] == y@[j],
        decreases x@.len() - i,
    {
        if x[i] != y[i] {
            return false;
        }
        i = i + 1;
    }
    assert(x@ =~= y@);
    assert(vstd::utf8::decode_utf8(a.spec_bytes()) == a@);
    assert(vstd::utf8::decode_utf8(b.spec_bytes()) == b@);
    true
}

pub fn hash(s: &str) -> (r: IdxHash)
    ensures
        r == spec_hash(s@),
{
    // include default values for easier collision testing
    let values = COLLISION_VALUES;
    let mut i: usize = 0;
    while i < 5
        invariant
            values == COLLISION_VALUES,
            0 <= i <= 5,
            forall|j: int| 0 <= j < i ==> #[trigger] COLLISION_VALUES@[j]@ != s@,
        decreases 5 - i,
    {
        if str_eq(s, values[i]) {
            return 1;
        }
        i = i + 1;
    }
    calculate_hash(s)
}

/// Calls `<str as Hash>::hash`. Trusted: the writes it adds to the hasher's state are
/// `str_hash_writes(s)`, the same for the same string every time; which bytes they are
/// is left unsaid.
#[verifier::external_body]
fn feed_str(s: &str, state: &mut DefaultHasher)
    ensures
        final(state)@ == old(state)@ + str_hash_writes(s@),
{
    s.hash(state)
}

/// The hash a fresh `DefaultHasher` gives after `s` was fed into it.
fn calculate_hash(s: &str) -> (r: IdxHash)
    ensures
        r == spec_calculate_hash(s@),
{
    let mut h = DefaultHasher::new();
    feed_str(s, &mut h);
    assert(h@ =~= str_hash_writes(s@));
    h.finish()
}

} // verus!

verus! {

/// The five collision keys, as characters.
pub open spec fn collision_keys() -> Set<Seq<char>> {
    set![
        seq!['h', 'e', 'l', 'l', 'o'],
        seq!['f', 'o', 'o', 'd'],
        seq!['w', 'h', 'y'],
        seq!['m', 'e'],
        seq!['i'],
    ]
}

/// `hello`, `food`, `why`, `me` and `i` hash to 1; every other key hashes to what a
/// fresh `DefaultHasher` gives once the whole key has been fed into it.
pub proof fn law_hash_of_key(s: Seq<char>)
    ensures
        is_collision_value(s) <==> collision_keys().contains(s),
        collision_keys().contains(s) ==> spec_hash(s) == 1,
        !collision_keys().contains(s) ==> spec_hash(s) == DefaultHasher::spec_finish(
            str_hash_writes(s),
        ),
{
    reveal_strlit("hello");
    reveal_strlit("food");
    reveal_strlit("why");
    reveal_strlit("me");
    reveal_strlit("i");
    assert(COLLISION_VALUES@[0]@ =~= seq!['h', 'e', 'l', 'l', 'o']);
    assert(COLLISION_VALUES@[1]@ =~= seq!['f', 'o', 'o', 'd']);
    assert(COLLISION_VALUES@[2]@ =~= seq!['w', 'h', 'y']);
    assert(COLLISION_VALUES@[3]@ =~= seq!['m', 'e']);
    assert(COLLISION_VALUES@[4]@ =~= seq!['i']);
    if collision_keys().contains(s) {
        if s == seq!['h', 'e', 'l', 'l', 'o'] {
            assert(COLLISION_VALUES@[0]@ == s);
        } else if s == seq!['f', 'o', 'o', 'd'] {
            assert(COLLISION_VALUES@[1]@ == s);
        } else if s == seq!['w', 'h', 'y'] {
            assert(COLLISION_VALUES@[2]@ == s);
        } else if s == seq!['m', 'e'] {
            assert(COLLISION_VALUES@[3]@ == s);
        } else {
            assert(COLLISION_VALUES@[4]@ == s);
        }
    }
}

} // verus!
