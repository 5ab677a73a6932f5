//! The content file as a map from offsets to entries; what inserts and lookups do to
//! it when the caller carries out their requests faithfully; and the laws of the index.
use vstd::prelude::*;

use crate::chain::{
    ChainEntry, GetOp, GetState, GetStep, InsertOp, InsertState, IoRequestView, Link, WalkGoal,
};
use crate::index::error::CollisionWalkErr;

verus! {

/// `c` lists, head first, the offsets of a chain of `links`: each entry links to the
/// next one, the last one ends the chain, and no offset repeats.
pub open spec fn chain_ok(links: Map<u64, Link>, c: Seq<u64>) -> bool {
    &&& c.len() > 0
    &&& forall|i: int| 0 <= i < c.len() ==> links.contains_key(#[trigger] c[i])
    &&& forall|i: int| 0 <= i < c.len() - 1 ==> #[trigger] links[c[i]].next == c[i + 1]
    &&& links[c.last()].next == 0
    &&& forall|i: int| 0 < i < c.len() ==> #[trigger] c[i] != 0
    &&& c.no_duplicates()
}

/// The index of the first entry of `c`, from `i` on, whose key has length `n`;
/// `c.len()` when there is none.
pub open spec fn first_with_len(links: Map<u64, Link>, c: Seq<u64>, n: u32, i: int) -> int
    decreases c.len() - i,
{
    if i >= c.len() || i < 0 {
        c.len() as int
    } else if links[c[i]].key_len == n {
        i
    } else {
        first_with_len(links, c, n, i + 1)
    }
}

/// The chains of an index: `heads` maps each hash to the offset of its chain's head,
/// `chains` lists the offsets of each chain, all below `end`, and no offset is in two chains.
pub open spec fn chains_ok(
    heads: Map<u64, u64>,
    links: Map<u64, Link>,
    chains: Map<u64, Seq<u64>>,
    end: nat,
) -> bool {
    &&& heads.dom() =~= chains.dom()
    &&& forall|h: u64| #[trigger]
        chains.contains_key(h) ==> chain_ok(links, chains[h]) && chains[h][0] == heads[h]
    &&& forall|h: u64, i: int|
        chains.contains_key(h) && 0 <= i < chains[h].len() ==> #[trigger] chains[h][i] < end
    &&& forall|h1: u64, h2: u64, i: int, j: int|
        chains.contains_key(h1) && chains.contains_key(h2) && h1 != h2 && 0 <= i < chains[h1].len()
            && 0 <= j < chains[h2].len() ==> #[trigger] chains[h1][i] != #[trigger] chains[h2][j]
}


/// The heads, links and chains after the entry of a key with hash `h` and key length
/// `key_len` was appended at `pos` and linked from the end of its chain, if any.
pub open spec fn spec_chain_insert(
    heads: Map<u64, u64>,
    links: Map<u64, Link>,
    chains: Map<u64, Seq<u64>>,
    h: u64,
    key_len: u32,
    pos: u64,
) -> (Map<u64, u64>, Map<u64, Link>, Map<u64, Seq<u64>>) {
    let links1 = links.insert(pos, Link { next: 0, key_len });
    if heads.contains_key(h) {
        let last = chains[h].last();
        (
            heads,
            links1.insert(last, Link { next: pos, key_len: links[last].key_len }),
            chains.insert(h, chains[h].push(pos)),
        )
    } else {
        (heads.insert(h, pos), links1, chains.insert(h, seq![pos]))
    }
}

/// An insert at the end of the file keeps the chains well formed: the new entry ends
/// the chain of its hash, or starts one, and every other chain stays as it was.
pub proof fn lemma_insert_keeps_chains(
    heads: Map<u64, u64>,
    links: Map<u64, Link>,
    chains: Map<u64, Seq<u64>>,
    end: nat,
    h: u64,
    key_len: u32,
    pos: u64,
)
    requires
        chains_ok(heads, links, chains, end),
        pos >= end,
    ensures
        ({
            let (heads2, links2, chains2) = spec_chain_insert(heads, links, chains, h, key_len, pos);
            &&& chains_ok(heads2, links2, chains2, (pos + 1) as nat)
            &&& forall|g: u64| #[trigger]
                chains.contains_key(g) && g != h ==> chains2[g] == chains[g]
            &&& forall|g: u64, k: int|
                chains.contains_key(g) && g != h && 0 <= k < chains[g].len() ==> links2[#[trigger] chains[g][k]]
                    == links[chains[g][k]]
        }),
{
    let (heads2, links2, chains2) = spec_chain_insert(heads, links, chains, h, key_len, pos);
    let links1 = links.insert(pos, Link { next: 0, key_len });
    // entries of other chains keep their links
    assert forall|g: u64, k: int|
        chains.contains_key(g) && g != h && 0 <= k < chains[g].len() implies links2[
        #[trigger] chains[g][k]] == links[chains[g][k]] by {
        assert(chains[g][k] < end);
        if heads.contains_key(h) {
            let c = chains[h];
            assert(c[c.len() - 1] != chains[g][k]);
        }
    }
    assert forall|g: u64| #[trigger] chains2.contains_key(g) implies chain_ok(links2, chains2[g])
        && chains2[g][0] == heads2[g] by {
        if g != h {
            let c = chains[g];
            assert(chains2[g] == c);
            assert forall|i: int| 0 <= i < c.len() implies links2.contains_key(#[trigger] c[i]) by {
                assert(links2[c[i]] == links[c[i]]);
            }
            assert forall|i: int| 0 <= i < c.len() - 1 implies #[trigger] links2[c[i]].next == c[i
                + 1] by {
                assert(links2[c[i]] == links[c[i]]);
            }
            assert(links2[c[c.len() - 1]] == links[c[c.len() - 1]]);
        } else if heads.contains_key(h) {
            let c = chains[h];
            let c2 = c.push(pos);
            assert(chains2[g] == c2);
            let last = c.last();
            assert(last < end);
            assert forall|i: int| 0 <= i < c2.len() implies links2.contains_key(#[trigger] c2[i]) by {
                if i < c.len() {
                    assert(c2[i] == c[i]);
                }
            }
            assert forall|i: int| 0 <= i < c2.len() - 1 implies #[trigger] links2[c2[i]].next
                == c2[i + 1] by {
                assert(c2[i] == c[i]);
                assert(c[i] < end);
                if i < c.len() - 1 {
                    assert(c[i] != last) by {
                        assert(c[i] != c[c.len() - 1]);
                    }
                    assert(links2[c[i]] == links[c[i]]);
                    assert(c2[i + 1] == c[i + 1]);
                }
            }
            assert forall|i: int| 0 < i < c2.len() implies #[trigger] c2[i] != 0 by {
                if i < c.len() {
                    assert(c2[i] == c[i]);
                } else {
                    assert(c[0] < end);
                }
            }
            assert forall|i: int, j: int| 0 <= i < c2.len() && 0 <= j < c2.len() && i != j implies c2[i]
                != c2[j] by {
                if i < c.len() {
                    assert(c[i] < end);
                }
                if j < c.len() {
                    assert(c[j] < end);
                }
            }
        } else {
            assert(chains2[g] =~= seq![pos]);
        }
    }
    assert forall|g: u64, i: int|
        chains2.contains_key(g) && 0 <= i < chains2[g].len() implies #[trigger] chains2[g][i] < (pos
        + 1) as nat by {
        if g != h || heads.contains_key(h) {
            if i < chains[g].len() {
                assert(chains[g][i] < end);
            }
        }
    }
    assert forall|g1: u64, g2: u64, i: int, j: int|
        chains2.contains_key(g1) && chains2.contains_key(g2) && g1 != g2 && 0 <= i < chains2[g1].len()
            && 0 <= j < chains2[g2].len() implies #[trigger] chains2[g1][i] != #[trigger] chains2[g2][j] by {
        if g1 == h {
            assert(chains2[g2] == chains[g2]);
            assert(chains[g2][j] < end);
            if heads.contains_key(h) && i < chains[h].len() {
                assert(chains2[g1][i] == chains[h][i]);
            }
        } else if g2 == h {
            assert(chains2[g1] == chains[g1]);
            assert(chains[g1][i] < end);
            if heads.contains_key(h) && j < chains[h].len() {
                assert(chains2[g2][j] == chains[h][j]);
            }
        } else {
            assert(chains2[g1][i] == chains[g1][i]);
            assert(chains2[g2][j] == chains[g2][j]);
        }
    }
}



/// The chain fields of the entries of a content file.
pub open spec fn links_of<E: ChainEntry>(content: Map<u64, E>) -> Map<u64, Link> {
    Map::new(|o: u64| content.contains_key(o), |o: u64| content[o].spec_link())
}

/// The outcome of a lookup run to its end, each page read holding the entry that
/// `content` has at the offset read; `None` if it needs more than `fuel` reads.
pub open spec fn run_get<E: ChainEntry>(
    op: GetOp,
    btree: Map<u64, u64>,
    content: Map<u64, E>,
    fuel: nat,
) -> Option<GetStep<E>>
    decreases fuel,
{
    if fuel == 0 {
        None
    } else {
        let (op2, step) = op.spec_page_read(btree, content[op.spec_offset()]);
        match step {
            GetStep::Read(_) => run_get(op2, btree, content, (fuel - 1) as nat),
            _ => Some(step),
        }
    }
}

/// The btree and content once an insert that has appended its entry has run to its
/// end, each page read holding the entry of `content` at the offset read, and each
/// write replacing the entry there; `None` if it needs more than `fuel` reads.
pub open spec fn run_insert_walk<E: ChainEntry>(
    op: InsertOp<E>,
    btree: Map<u64, u64>,
    content: Map<u64, E>,
    fuel: nat,
) -> Option<(Map<u64, u64>, Map<u64, E>)>
    decreases fuel,
{
    match op.state {
        InsertState::Walking { pos, walk } => {
            if fuel == 0 {
                None
            } else {
                let (op2, req) = op.spec_page_read(content[walk.offset]);
                match req {
                    Some(IoRequestView::Read(_)) => run_insert_walk(
                        op2,
                        btree,
                        content,
                        (fuel - 1) as nat,
                    ),
                    Some(IoRequestView::Write(o, b)) => Some(
                        (btree, content.insert(o, E::spec_from_bytes(b))),
                    ),
                    _ => Some((btree, content)),
                }
            }
        },
        _ => Some((btree, content)),
    }
}

/// The btree and content once an insert has run to its end, its entry appended at `pos`.
pub open spec fn run_insert<E: ChainEntry>(
    op: InsertOp<E>,
    btree: Map<u64, u64>,
    content: Map<u64, E>,
    pos: u64,
    fuel: nat,
) -> Option<(Map<u64, u64>, Map<u64, E>)> {
    let (op1, btree1, _) = op.spec_appended(btree, pos);
    run_insert_walk(op1, btree1, content.insert(pos, op.entry), fuel)
}

proof fn lemma_links_of_insert<E: ChainEntry>(content: Map<u64, E>, o: u64, de: E)
    ensures
        links_of(content.insert(o, de)) =~= links_of(content).insert(o, de.spec_link()),
{
}

/// Walking an insert to the end of a chain writes the new entry's offset into the last
/// entry of the chain.
proof fn lemma_run_insert_walk<E: ChainEntry>(
    op: InsertOp<E>,
    btree: Map<u64, u64>,
    content: Map<u64, E>,
    c: Seq<u64>,
    i: int,
    pos: u64,
    fuel: nat,
)
    requires
        chain_ok(links_of(content), c),
        0 <= i < c.len(),
        fuel >= c.len() - i,
        op.state matches InsertState::Walking { pos: p, walk } && p == pos && walk.goal
            == WalkGoal::Last && walk.offset == c[i],
    ensures
        run_insert_walk(op, btree, content, fuel) == Some(
            (btree, content.insert(c.last(), content[c.last()].spec_with_next(pos))),
        ),
    decreases c.len() - i,
{
    let links = links_of(content);
    assert(links.contains_key(c[i]));
    assert(links[c[i]] == content[c[i]].spec_link());
    if i < c.len() - 1 {
        assert(links[c[i]].next == c[i + 1]);
        let (op2, _) = op.spec_page_read(content[c[i]]);
        lemma_run_insert_walk(op2, btree, content, c, i + 1, pos, (fuel - 1) as nat);
    } else {
        content[c[i]].spec_with_next(pos).lemma_decode_encode();
    }
}

/// A lookup walking a chain for a key length ends at the first entry with that length.
proof fn lemma_run_get_walk<E: ChainEntry>(
    op: GetOp,
    btree: Map<u64, u64>,
    content: Map<u64, E>,
    c: Seq<u64>,
    i: int,
    fuel: nat,
)
    requires
        chain_ok(links_of(content), c),
        0 <= i < c.len(),
        fuel >= c.len() - i,
        op.state matches GetState::Walking(walk) && walk.goal == WalkGoal::KeyLen(op.key_len)
            && walk.offset == c[i] && walk.start == op.hash,
    ensures
        run_get(op, btree, content, fuel) == (if first_with_len(links_of(content), c, op.key_len, i)
            < c.len() {
            Some(GetStep::Found(content[c[first_with_len(links_of(content), c, op.key_len, i)]]))
        } else {
            Some(GetStep::<E>::Lost(CollisionWalkErr::HashNotFound { hash: op.hash, len: op.key_len }))
        }),
    decreases c.len() - i,
{
    let links = links_of(content);
    assert(links.contains_key(c[i]));
    assert(links[c[i]] == content[c[i]].spec_link());
    if content[c[i]].spec_link().key_len != op.key_len {
        if i < c.len() - 1 {
            assert(links[c[i]].next == c[i + 1]);
            let (op2, _) = op.spec_page_read(btree, content[c[i]]);
            lemma_run_get_walk(op2, btree, content, c, i + 1, (fuel - 1) as nat);
        } else {
            assert(first_with_len(links, c, op.key_len, i + 1) == c.len());
        }
    }
}

/// `first_with_len` finds `k` when the entries from `i` up to `k` have other lengths.
proof fn lemma_first_with_len_at(links: Map<u64, Link>, c: Seq<u64>, n: u32, i: int, k: int)
    requires
        0 <= i <= k < c.len(),
        links[c[k]].key_len == n,
        forall|j: int| i <= j < k ==> links[#[trigger] c[j]].key_len != n,
    ensures
        first_with_len(links, c, n, i) == k,
    decreases k - i,
{
    if i < k {
        lemma_first_with_len_at(links, c, n, i + 1, k);
    }
}

/// Appending an entry past every chain leaves each chain well formed.
proof fn lemma_append_keeps_chain<E: ChainEntry>(content: Map<u64, E>, c: Seq<u64>, pos: u64, de: E)
    requires
        chain_ok(links_of(content), c),
        forall|k: int| 0 <= k < c.len() ==> #[trigger] c[k] != pos,
    ensures
        chain_ok(links_of(content.insert(pos, de)), c),
{
    lemma_links_of_insert(content, pos, de);
    let links = links_of(content);
    let links1 = links_of(content.insert(pos, de));
    assert forall|k: int| 0 <= k < c.len() - 1 implies #[trigger] links1[c[k]].next == c[k + 1] by {
        assert(links1[c[k]] == links[c[k]]);
    }
    assert(links1[c[c.len() - 1]] == links[c[c.len() - 1]]);
}

/// What an insert run to its end, with the content file answering faithfully, does:
/// the btree and the links become those of `spec_chain_insert`, the new entry is at
/// `pos`, and every other entry stays, but for the `next` of the chain's last entry.
pub proof fn lemma_insert_effect<E: ChainEntry>(
    btree: Map<u64, u64>,
    content: Map<u64, E>,
    chains: Map<u64, Seq<u64>>,
    end: nat,
    op: InsertOp<E>,
    pos: u64,
    fuel: nat,
)
    requires
        chains_ok(btree, links_of(content), chains, end),
        pos >= end,
        op.state == InsertState::Appending,
        op.entry.spec_link().next == 0,
        btree.contains_key(op.hash) ==> fuel >= chains[op.hash].len(),
    ensures
        run_insert(op, btree, content, pos, fuel) matches Some((btree2, content2)) && {
            let (heads2, links2, chains2) = spec_chain_insert(
                btree,
                links_of(content),
                chains,
                op.hash,
                op.entry.spec_link().key_len,
                pos,
            );
            &&& btree2 == heads2
            &&& links_of(content2) == links2
            &&& content2[pos] == op.entry
            &&& btree.contains_key(op.hash) ==> content2[chains[op.hash].last()]
                == content[chains[op.hash].last()].spec_with_next(pos)
            &&& forall|o: u64|
                #![trigger content2[o]]
                o != pos && (btree.contains_key(op.hash) ==> o != chains[op.hash].last())
                    ==> content2[o] == content[o]
        },
{
    let h = op.hash;
    let e = op.entry;
    let content1 = content.insert(pos, e);
    lemma_links_of_insert(content, pos, e);
    if btree.contains_key(h) {
        let c = chains[h];
        assert(chain_ok(links_of(content), c));
        assert forall|k: int| 0 <= k < c.len() implies #[trigger] c[k] != pos by {
            assert(c[k] < end);
        }
        lemma_append_keeps_chain(content, c, pos, e);
        let (op1, btree1, _) = op.spec_appended(btree, pos);
        assert(c[0] == btree[h]);
        lemma_run_insert_walk(op1, btree1, content1, c, 0, pos, fuel);
        let last = c.last();
        assert(last < end);
        let linked = content1[last].spec_with_next(pos);
        let content2 = content1.insert(last, linked);
        lemma_links_of_insert(content1, last, linked);
        content[last].lemma_with_next(pos);
        assert(links_of(content).contains_key(last));
        assert(links_of(content2) =~= links_of(content).insert(pos, e.spec_link()).insert(
            last,
            Link { next: pos, key_len: links_of(content)[last].key_len },
        ));
    } else {
        assert(links_of(content1) =~= links_of(content).insert(pos, e.spec_link()));
    }
}

/// A lookup of a key finds the entry that an insert of the key put in, as long as no
/// key inserted before with the same hash has the same byte length.
pub proof fn law_get_after_insert<E: ChainEntry>(
    btree: Map<u64, u64>,
    content: Map<u64, E>,
    chains: Map<u64, Seq<u64>>,
    end: nat,
    op: InsertOp<E>,
    pos: u64,
    fuel: nat,
)
    requires
        chains_ok(btree, links_of(content), chains, end),
        pos >= end,
        op.state == InsertState::Appending,
        op.entry.spec_link().next == 0,
        btree.contains_key(op.hash) ==> forall|i: int|
            0 <= i < chains[op.hash].len() ==> links_of(content)[#[trigger] chains[op.hash][i]].key_len
                != op.entry.spec_link().key_len,
        fuel >= (if btree.contains_key(op.hash) {
            chains[op.hash].len() + 2
        } else {
            1
        }),
    ensures
        run_insert(op, btree, content, pos, fuel) matches Some((btree2, content2)) && {
            &&& btree2.contains_key(op.hash)
            &&& run_get(
                GetOp {
                    hash: op.hash,
                    key_len: op.entry.spec_link().key_len,
                    state: GetState::AtHead(btree2[op.hash]),
                },
                btree2,
                content2,
                fuel,
            ) == Some(GetStep::Found(op.entry))
        },
{
    let h = op.hash;
    let n = op.entry.spec_link().key_len;
    lemma_insert_effect(btree, content, chains, end, op, pos, fuel);
    lemma_insert_keeps_chains(btree, links_of(content), chains, end, h, n, pos);
    let (btree2, content2) = run_insert(op, btree, content, pos, fuel).unwrap();
    let (heads2, links2, chains2) = spec_chain_insert(btree, links_of(content), chains, h, n, pos);
    if btree.contains_key(h) {
        let c = chains[h];
        let c2 = chains2[h];
        assert(c2 == c.push(pos));
        assert(chain_ok(links2, c2));
        let gop = GetOp { hash: h, key_len: n, state: GetState::AtHead(btree2[h]) };
        assert(c2[0] == btree2[h]);
        assert(links2.contains_key(c2[0]));
        assert(links2[c2[0]].next == c2[1]);
        assert(c2[1] != 0);
        assert(links2[c2[0]] == content2[c2[0]].spec_link());
        assert(links2[c2[0]].key_len == links_of(content)[c[0]].key_len);
        let (gop2, _) = gop.spec_page_read(btree2, content2[c2[0]]);
        assert forall|j: int| 0 <= j < c.len() implies links2[#[trigger] c2[j]].key_len != n by {
            assert(c2[j] == c[j]);
            assert(c[j] < end);
            assert(links2[c[j]].key_len == links_of(content)[c[j]].key_len);
        }
        assert(links2[c2[c.len() as int]].key_len == n);
        lemma_first_with_len_at(links2, c2, n, 0, c.len() as int);
        lemma_run_get_walk(gop2, btree2, content2, c2, 0, (fuel - 1) as nat);
    }
}


/// An insert run to its end keeps the index well formed: the chains stay well formed,
/// and the chain of the inserted key's hash gains the new entry at its end.
pub proof fn law_insert_keeps_chains<E: ChainEntry>(
    btree: Map<u64, u64>,
    content: Map<u64, E>,
    chains: Map<u64, Seq<u64>>,
    end: nat,
    op: InsertOp<E>,
    pos: u64,
    fuel: nat,
)
    requires
        chains_ok(btree, links_of(content), chains, end),
        pos >= end,
        op.state == InsertState::Appending,
        op.entry.spec_link().next == 0,
        btree.contains_key(op.hash) ==> fuel >= chains[op.hash].len(),
    ensures
        run_insert(op, btree, content, pos, fuel) matches Some((btree2, content2)) && {
            let chains2 = chains.insert(
                op.hash,
                if chains.contains_key(op.hash) {
                    chains[op.hash].push(pos)
                } else {
                    seq![pos]
                },
            );
            chains_ok(btree2, links_of(content2), chains2, (pos + 1) as nat)
        },
{
    lemma_insert_effect(btree, content, chains, end, op, pos, fuel);
    lemma_insert_keeps_chains(
        btree,
        links_of(content),
        chains,
        end,
        op.hash,
        op.entry.spec_link().key_len,
        pos,
    );
}

/// The content and btree of an empty index form well-formed chains.
pub proof fn law_empty_chains_ok<E: ChainEntry>()
    ensures
        chains_ok(
            Map::<u64, u64>::empty(),
            links_of(Map::<u64, E>::empty()),
            Map::<u64, Seq<u64>>::empty(),
            0,
        ),
{
}

/// A lookup that reads only the entries of one chain gives the same outcome on any
/// content and btree that agree on that chain.
proof fn lemma_run_get_frame<E: ChainEntry>(
    op: GetOp,
    btree: Map<u64, u64>,
    btree2: Map<u64, u64>,
    content: Map<u64, E>,
    content2: Map<u64, E>,
    c: Seq<u64>,
    i: int,
    fuel: nat,
)
    requires
        chain_ok(links_of(content), c),
        0 <= i < c.len(),
        op.spec_offset() == c[i],
        forall|k: int| 0 <= k < c.len() ==> content2[#[trigger] c[k]] == content[c[k]],
        btree2.contains_key(op.hash) == btree.contains_key(op.hash),
        btree.contains_key(op.hash) ==> btree[op.hash] == c[0] && btree2[op.hash] == c[0],
    ensures
        run_get(op, btree2, content2, fuel) == run_get(op, btree, content, fuel),
    decreases fuel,
{
    if fuel > 0 {
        let de = content[c[i]];
        assert(content2[c[i]] == de);
        let links = links_of(content);
        assert(links.contains_key(c[i]));
        assert(links[c[i]] == de.spec_link());
        let (op2, step) = op.spec_page_read(btree, de);
        if step is Read {
            if op.state is AtHead {
                lemma_run_get_frame(op2, btree, btree2, content, content2, c, 0, (fuel - 1) as nat);
            } else {
                if i < c.len() - 1 {
                    assert(links[c[i]].next == c[i + 1]);
                    lemma_run_get_frame(
                        op2,
                        btree,
                        btree2,
                        content,
                        content2,
                        c,
                        i + 1,
                        (fuel - 1) as nat,
                    );
                }
            }
        }
    }
}

/// Inserting a key leaves alone the lookups of keys with another hash: whether their
/// hash has a chain, where it starts, and what a lookup finds there.
pub proof fn law_insert_keeps_other_keys<E: ChainEntry>(
    btree: Map<u64, u64>,
    content: Map<u64, E>,
    chains: Map<u64, Seq<u64>>,
    end: nat,
    op: InsertOp<E>,
    pos: u64,
    fuel: nat,
    g: u64,
    key_len: u32,
    get_fuel: nat,
)
    requires
        chains_ok(btree, links_of(content), chains, end),
        pos >= end,
        op.state == InsertState::Appending,
        op.entry.spec_link().next == 0,
        btree.contains_key(op.hash) ==> fuel >= chains[op.hash].len(),
        g != op.hash,
    ensures
        run_insert(op, btree, content, pos, fuel) matches Some((btree2, content2)) && {
            &&& btree2.contains_key(g) == btree.contains_key(g)
            &&& btree.contains_key(g) ==> {
                let gop = GetOp { hash: g, key_len, state: GetState::AtHead(btree[g]) };
                &&& btree2[g] == btree[g]
                &&& run_get(gop, btree2, content2, get_fuel) == run_get(gop, btree, content, get_fuel)
            }
        },
{
    lemma_insert_effect(btree, content, chains, end, op, pos, fuel);
    let (btree2, content2) = run_insert(op, btree, content, pos, fuel).unwrap();
    if btree.contains_key(g) {
        let c = chains[g];
        assert(chains.contains_key(g));
        assert forall|k: int| 0 <= k < c.len() implies content2[#[trigger] c[k]] == content[c[k]] by {
            assert(c[k] < end);
            if btree.contains_key(op.hash) {
                let ch = chains[op.hash];
                assert(ch[ch.len() - 1] != c[k]);
            }
        }
        let gop = GetOp { hash: g, key_len, state: GetState::AtHead(btree[g]) };
        lemma_run_get_frame(gop, btree, btree2, content, content2, c, 0, get_fuel);
    }
}


/// `a` and `b` are the same entry, but for where they link to.
pub open spec fn same_but_next<E: ChainEntry>(a: E, b: E) -> bool {
    a.spec_with_next(0) == b.spec_with_next(0)
}

/// In the chain of `h`, the first entry whose key has length `n` is `e`, but for its link.
pub open spec fn finds<E: ChainEntry>(
    content: Map<u64, E>,
    chains: Map<u64, Seq<u64>>,
    h: u64,
    n: u32,
    e: E,
) -> bool {
    let c = chains[h];
    let j = first_with_len(links_of(content), c, n, 0);
    &&& chains.contains_key(h)
    &&& j < c.len()
    &&& same_but_next(content[c[j]], e)
}

/// The key length of the entry an insert puts in.
pub open spec fn key_len_of<E: ChainEntry>(op: InsertOp<E>) -> u32 {
    op.entry.spec_link().key_len
}

/// The lookup that a key with the hash and length of `op`'s key starts with `btree`.
pub open spec fn lookup_of<E: ChainEntry>(op: InsertOp<E>, btree: Map<u64, u64>) -> GetOp {
    GetOp { hash: op.hash, key_len: key_len_of(op), state: GetState::AtHead(btree[op.hash]) }
}

/// No two of `ops` insert keys with the same hash and the same length.
pub open spec fn keys_distinct<E: ChainEntry>(ops: Seq<InsertOp<E>>) -> bool {
    forall|i: int, j: int|
        #![trigger ops[i], ops[j]]
        0 <= i < ops.len() && 0 <= j < ops.len() && i != j ==> !(ops[i].hash == ops[j].hash
            && key_len_of(ops[i]) == key_len_of(ops[j]))
}

/// Every entry of every chain was put in by one of `done`: it has that insert's hash
/// and key length.
pub open spec fn chains_from<E: ChainEntry>(
    content: Map<u64, E>,
    chains: Map<u64, Seq<u64>>,
    done: Seq<InsertOp<E>>,
) -> bool {
    forall|h: u64, k: int|
        #![trigger chains[h][k]]
        chains.contains_key(h) && 0 <= k < chains[h].len() ==> exists|i: int|
            #![trigger done[i]]
            0 <= i < done.len() && done[i].hash == h && key_len_of(done[i]) == links_of(
                content,
            )[chains[h][k]].key_len
}

/// The btree and content once the inserts `ops` have run to their end one after the
/// other, each appending its entry at the end of the file, which starts at `end` bytes
/// and grows by an entry each time.
pub open spec fn run_inserts<E: ChainEntry>(
    ops: Seq<InsertOp<E>>,
    btree: Map<u64, u64>,
    content: Map<u64, E>,
    end: nat,
    fuel: nat,
) -> Option<(Map<u64, u64>, Map<u64, E>)>
    decreases ops.len(),
{
    if ops.len() == 0 {
        Some((btree, content))
    } else {
        match run_insert(ops[0], btree, content, end as u64, fuel) {
            Some((btree2, content2)) => run_inserts(
                ops.drop_first(),
                btree2,
                content2,
                end + E::encoded_len(),
                fuel,
            ),
            None => None,
        }
    }
}

proof fn lemma_first_with_len_bounds(links: Map<u64, Link>, c: Seq<u64>, n: u32, i: int)
    requires
        0 <= i <= c.len(),
    ensures
        i <= first_with_len(links, c, n, i) <= c.len(),
        first_with_len(links, c, n, i) < c.len() ==> links[c[first_with_len(links, c, n, i)]].key_len
            == n,
        forall|j: int| i <= j < first_with_len(links, c, n, i) ==> links[#[trigger] c[j]].key_len != n,
    decreases c.len() - i,
{
    if i < c.len() && links[c[i]].key_len != n {
        lemma_first_with_len_bounds(links, c, n, i + 1);
    }
}

proof fn lemma_first_with_len_frame(
    links: Map<u64, Link>,
    links2: Map<u64, Link>,
    c: Seq<u64>,
    n: u32,
    i: int,
)
    requires
        0 <= i <= c.len(),
        forall|k: int| 0 <= k < c.len() ==> links2[#[trigger] c[k]].key_len == links[c[k]].key_len,
    ensures
        first_with_len(links2, c, n, i) == first_with_len(links, c, n, i),
    decreases c.len() - i,
{
    if i < c.len() {
        assert(links2[c[i]].key_len == links[c[i]].key_len);
        lemma_first_with_len_frame(links, links2, c, n, i + 1);
    }
}

/// A lookup of a key finds the first entry of its chain whose key has its length.
pub proof fn lemma_run_get_finds<E: ChainEntry>(
    btree: Map<u64, u64>,
    content: Map<u64, E>,
    chains: Map<u64, Seq<u64>>,
    end: nat,
    h: u64,
    n: u32,
    fuel: nat,
)
    requires
        chains_ok(btree, links_of(content), chains, end),
        chains.contains_key(h),
        first_with_len(links_of(content), chains[h], n, 0) < chains[h].len(),
        fuel >= chains[h].len() + 1,
    ensures
        btree.contains_key(h),
        run_get(GetOp { hash: h, key_len: n, state: GetState::AtHead(btree[h]) }, btree, content, fuel)
            == Some(GetStep::Found(content[chains[h][first_with_len(links_of(content), chains[h], n, 0)]])),
{
    let c = chains[h];
    let links = links_of(content);
    assert(chain_ok(links, c));
    assert(btree.dom().contains(h));
    lemma_first_with_len_bounds(links, c, n, 0);
    let gop = GetOp { hash: h, key_len: n, state: GetState::AtHead(btree[h]) };
    let de = content[c[0]];
    assert(links.contains_key(c[0]));
    assert(links[c[0]] == de.spec_link());
    if de.spec_link().next != 0 && de.spec_link().key_len != n {
        let (gop2, _) = gop.spec_page_read(btree, de);
        lemma_run_get_walk(gop2, btree, content, c, 0, (fuel - 1) as nat);
    } else if de.spec_link().next == 0 {
        if c.len() > 1 {
            assert(links[c[0]].next == c[1]);
            assert(c[1] != 0);
        }
    }
}

/// Inserting a key keeps each earlier key found, up to its link.
proof fn lemma_insert_keeps_finds<E: ChainEntry>(
    btree: Map<u64, u64>,
    content: Map<u64, E>,
    chains: Map<u64, Seq<u64>>,
    end: nat,
    op: InsertOp<E>,
    pos: u64,
    fuel: nat,
    g: u64,
    m: u32,
    e: E,
)
    requires
        chains_ok(btree, links_of(content), chains, end),
        pos >= end,
        op.state == InsertState::Appending,
        op.entry.spec_link().next == 0,
        btree.contains_key(op.hash) ==> fuel >= chains[op.hash].len(),
        finds(content, chains, g, m, e),
    ensures
        run_insert(op, btree, content, pos, fuel) matches Some((btree2, content2)) && finds(
            content2,
            spec_chain_insert(btree, links_of(content), chains, op.hash, key_len_of(op), pos).2,
            g,
            m,
            e,
        ),
{
    let h = op.hash;
    let n = key_len_of(op);
    lemma_insert_effect(btree, content, chains, end, op, pos, fuel);
    lemma_insert_keeps_chains(btree, links_of(content), chains, end, h, n, pos);
    let (btree2, content2) = run_insert(op, btree, content, pos, fuel).unwrap();
    let (heads2, links2, chains2) = spec_chain_insert(btree, links_of(content), chains, h, n, pos);
    let links = links_of(content);
    let c = chains[g];
    let j = first_with_len(links, c, m, 0);
    lemma_first_with_len_bounds(links, c, m, 0);
    assert(chain_ok(links, c));
    assert(links.contains_key(c[j]));
    assert(c[j] < end);
    if g != h {
        assert(chains2[g] == c);
        assert forall|k: int| 0 <= k < c.len() implies links2[#[trigger] c[k]].key_len
            == links[c[k]].key_len by {
            assert(links2[c[k]] == links[c[k]]);
        }
        lemma_first_with_len_frame(links, links2, c, m, 0);
        if btree.contains_key(h) {
            let ch = chains[h];
            assert(ch[ch.len() - 1] != c[j]);
        }
        assert(content2[c[j]] == content[c[j]]);
    } else {
        let c2 = chains2[h];
        assert(c2 == c.push(pos));
        assert forall|k: int| 0 <= k < c.len() implies links2[#[trigger] c2[k]].key_len
            == links[c[k]].key_len by {
            assert(c2[k] == c[k]);
            assert(c[k] < end);
        }
        lemma_first_with_len_at(links2, c2, m, 0, j);
        if c[j] == c.last() {
            content[c[j]].lemma_with_next_twice(pos, 0);
        } else {
            assert(content2[c[j]] == content[c[j]]);
        }
    }
}

/// Inserting a key that no earlier key matches in hash and length makes it found.
proof fn lemma_insert_finds_new<E: ChainEntry>(
    btree: Map<u64, u64>,
    content: Map<u64, E>,
    chains: Map<u64, Seq<u64>>,
    end: nat,
    op: InsertOp<E>,
    pos: u64,
    fuel: nat,
)
    requires
        chains_ok(btree, links_of(content), chains, end),
        pos >= end,
        op.state == InsertState::Appending,
        op.entry.spec_link().next == 0,
        btree.contains_key(op.hash) ==> fuel >= chains[op.hash].len(),
        chains.contains_key(op.hash) ==> forall|k: int|
            0 <= k < chains[op.hash].len() ==> links_of(content)[#[trigger] chains[op.hash][k]].key_len
                != key_len_of(op),
    ensures
        run_insert(op, btree, content, pos, fuel) matches Some((btree2, content2)) && finds(
            content2,
            spec_chain_insert(btree, links_of(content), chains, op.hash, key_len_of(op), pos).2,
            op.hash,
            key_len_of(op),
            op.entry,
        ),
{
    let h = op.hash;
    let n = key_len_of(op);
    lemma_insert_effect(btree, content, chains, end, op, pos, fuel);
    let (btree2, content2) = run_insert(op, btree, content, pos, fuel).unwrap();
    let (heads2, links2, chains2) = spec_chain_insert(btree, links_of(content), chains, h, n, pos);
    let links = links_of(content);
    if chains.contains_key(h) {
        let c = chains[h];
        let c2 = chains2[h];
        assert(c2 == c.push(pos));
        assert(chain_ok(links, c));
        assert forall|k: int| 0 <= k < c.len() implies links2[#[trigger] c2[k]].key_len != n by {
            assert(c2[k] == c[k]);
            assert(c[k] < end);
            assert(links.contains_key(c[k]));
        }
        assert(links2[c2[c.len() as int]].key_len == n);
        lemma_first_with_len_at(links2, c2, n, 0, c.len() as int);
    } else {
        assert(chains2[h] =~= seq![pos]);
        assert(links2[pos].key_len == n);
    }
}


/// The inserts `ops`, run one after the other on an index that already holds the keys
/// of `done`, leave every key of `done` and `ops` found by its lookup.
proof fn lemma_run_inserts<E: ChainEntry>(
    ops: Seq<InsertOp<E>>,
    btree: Map<u64, u64>,
    content: Map<u64, E>,
    chains: Map<u64, Seq<u64>>,
    end: nat,
    fuel: nat,
    done: Seq<InsertOp<E>>,
)
    requires
        chains_ok(btree, links_of(content), chains, end),
        chains_from(content, chains, done),
        forall|h: u64| #[trigger] chains.contains_key(h) ==> chains[h].len() <= done.len(),
        forall|i: int|
            0 <= i < done.len() ==> #[trigger] finds(
                content,
                chains,
                done[i].hash,
                key_len_of(done[i]),
                done[i].entry,
            ),
        forall|i: int|
            0 <= i < ops.len() ==> (#[trigger] ops[i]).state == InsertState::Appending
                && ops[i].entry.spec_link().next == 0,
        keys_distinct(done + ops),
        fuel > done.len() + ops.len(),
        E::encoded_len() > 0,
        end + ops.len() * E::encoded_len() <= u64::MAX,
    ensures
        run_inserts(ops, btree, content, end, fuel) matches Some((btree2, content2)) && forall|i: int|
            #![trigger (done + ops)[i]]
            0 <= i < done.len() + ops.len() ==> {
                let op = (done + ops)[i];
                &&& btree2.contains_key(op.hash)
                &&& run_get(lookup_of(op, btree2), btree2, content2, fuel) matches Some(
                    GetStep::Found(d),
                ) && same_but_next(d, op.entry)
            },
    decreases ops.len(),
{
    let all = done + ops;
    if ops.len() == 0 {
        assert(all =~= done);
        assert forall|i: int| 0 <= i < all.len() implies {
            let op = #[trigger] all[i];
            &&& btree.contains_key(op.hash)
            &&& run_get(lookup_of(op, btree), btree, content, fuel) matches Some(GetStep::Found(d))
                && same_but_next(d, op.entry)
        } by {
            let op = all[i];
            assert(op == done[i]);
            assert(finds(content, chains, done[i].hash, key_len_of(done[i]), done[i].entry));
            lemma_run_get_finds(btree, content, chains, end, op.hash, key_len_of(op), fuel);
        }
    } else {
        let op = ops[0];
        let h = op.hash;
        let n = key_len_of(op);
        let pos = end as u64;
        assert(ops[0] == op);
        assert(ops.len() * E::encoded_len() >= E::encoded_len()) by (nonlinear_arith)
            requires
                ops.len() >= 1,
        ;
        assert(chains.contains_key(h) ==> chains[h].len() <= done.len());
        lemma_insert_effect(btree, content, chains, end, op, pos, fuel);
        lemma_insert_keeps_chains(btree, links_of(content), chains, end, h, n, pos);
        let (btree2, content2) = run_insert(op, btree, content, pos, fuel).unwrap();
        let (heads2, links2, chains2) = spec_chain_insert(btree, links_of(content), chains, h, n, pos);
        let links = links_of(content);
        let end2 = end + E::encoded_len();
        let done2 = done.push(op);
        let ops2 = ops.drop_first();
        // the new key is not in its chain yet
        if chains.contains_key(h) {
            assert forall|k: int| 0 <= k < chains[h].len() implies links[#[trigger] chains[h][k]].key_len
                != n by {
                let c = chains[h];
                assert(chains.contains_key(h) && 0 <= k < c.len());
                let i = choose|i: int|
                    #![trigger done[i]]
                    0 <= i < done.len() && done[i].hash == h && key_len_of(done[i])
                        == links[c[k]].key_len;
                assert(all[i] == done[i]);
                assert(all[done.len() as int] == op);
            }
        }
        lemma_insert_finds_new(btree, content, chains, end, op, pos, fuel);
        // the chains stay well formed up to the new end of the file
        assert(chains_ok(btree2, links_of(content2), chains2, end2)) by {
            assert forall|g: u64, i: int|
                chains2.contains_key(g) && 0 <= i < chains2[g].len() implies #[trigger] chains2[g][i]
                < end2 by {
                assert(chains2[g][i] < (pos + 1) as nat);
            }
        }
        // every entry of a chain still comes from an insert done
        assert(chains_from(content2, chains2, done2)) by {
            assert forall|g: u64, k: int|
                #![trigger chains2[g][k]]
                chains2.contains_key(g) && 0 <= k < chains2[g].len() implies exists|i: int|
                #![trigger done2[i]]
                0 <= i < done2.len() && done2[i].hash == g && key_len_of(done2[i]) == links_of(
                    content2,
                )[chains2[g][k]].key_len by {
                if g == h && k == chains2[g].len() - 1 {
                    assert(chains2[g][k] == pos);
                    assert(links2[pos].key_len == n);
                    assert(done2[done.len() as int] == op);
                } else {
                    assert(chains.contains_key(g));
                    let c = chains[g];
                    assert(chains2[g][k] == c[k]);
                    assert(c[k] < end);
                    assert(links.contains_key(c[k]));
                    assert(links2[c[k]].key_len == links[c[k]].key_len);
                    let i = choose|i: int|
                        #![trigger done[i]]
                        0 <= i < done.len() && done[i].hash == g && key_len_of(done[i])
                            == links[c[k]].key_len;
                    assert(done2[i] == done[i]);
                }
            }
        }
        assert forall|g: u64| #[trigger] chains2.contains_key(g) implies chains2[g].len()
            <= done2.len() by {
            if g != h {
                assert(chains.contains_key(g));
            }
        }
        assert forall|i: int| 0 <= i < done2.len() implies #[trigger] finds(
            content2,
            chains2,
            done2[i].hash,
            key_len_of(done2[i]),
            done2[i].entry,
        ) by {
            if i < done.len() {
                assert(done2[i] == done[i]);
                assert(finds(content, chains, done[i].hash, key_len_of(done[i]), done[i].entry));
                lemma_insert_keeps_finds(
                    btree,
                    content,
                    chains,
                    end,
                    op,
                    pos,
                    fuel,
                    done[i].hash,
                    key_len_of(done[i]),
                    done[i].entry,
                );
            } else {
                assert(done2[i] == op);
            }
        }
        assert(done2 + ops2 =~= all);
        assert forall|i: int| 0 <= i < ops2.len() implies (#[trigger] ops2[i]).state
            == InsertState::Appending && ops2[i].entry.spec_link().next == 0 by {
            assert(ops2[i] == ops[i + 1]);
        }
        assert(end2 + ops2.len() * E::encoded_len() <= u64::MAX) by (nonlinear_arith)
            requires
                end2 == end + E::encoded_len(),
                ops2.len() == ops.len() - 1,
                end + ops.len() * E::encoded_len() <= u64::MAX,
        ;
        lemma_run_inserts(ops2, btree2, content2, chains2, end2, fuel, done2);
    }
}

/// The keys of a list of inserts with no two keys of the same hash and length, run one
/// after the other on an empty index and file, are each found by their lookup: the
/// lookup runs to the entry the key's insert put in, but for where that entry links to.
pub proof fn law_lookups_after_inserts<E: ChainEntry>(ops: Seq<InsertOp<E>>, fuel: nat)
    requires
        forall|i: int|
            0 <= i < ops.len() ==> (#[trigger] ops[i]).state == InsertState::Appending
                && ops[i].entry.spec_link().next == 0,
        keys_distinct(ops),
        fuel > ops.len(),
        E::encoded_len() > 0,
        ops.len() * E::encoded_len() <= u64::MAX,
    ensures
        run_inserts(ops, Map::empty(), Map::empty(), 0, fuel) matches Some((btree, content))
            && forall|i: int|
            0 <= i < ops.len() ==> {
                &&& btree.contains_key((#[trigger] ops[i]).hash)
                &&& run_get(lookup_of(ops[i], btree), btree, content, fuel) matches Some(
                    GetStep::Found(d),
                ) && same_but_next(d, ops[i].entry)
            },
{
    let done = Seq::<InsertOp<E>>::empty();
    assert(done + ops =~= ops);
    lemma_run_inserts(ops, Map::empty(), Map::empty(), Map::empty(), 0, fuel, done);
    let (btree, content) = run_inserts(ops, Map::empty(), Map::empty(), 0, fuel).unwrap();
    assert forall|i: int| 0 <= i < ops.len() implies {
        &&& btree.contains_key((#[trigger] ops[i]).hash)
        &&& run_get(lookup_of(ops[i], btree), btree, content, fuel) matches Some(GetStep::Found(d))
            && same_but_next(d, ops[i].entry)
    } by {
        assert((done + ops)[i] == ops[i]);
    }
}

} // verus!
