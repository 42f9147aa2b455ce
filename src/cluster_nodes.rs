use vstd::prelude::*;
use lru::LruCache;
use std::sync::Arc;
use crate::lru_cache::{has_key, insert_new, position};
use crate::turbine::{ClusterNode, Pubkey};

verus! {

/// Most epochs whose peer tables are kept.
pub const CLUSTER_NODES_CACHE_NUM_EPOCH_CAP: usize = 8;

/// Milliseconds for which a peer table stays fresh.
pub const CLUSTER_NODES_CACHE_TTL_MS: u64 = 5000;

/// A cached peer table: when it was made, in milliseconds, and the table.
pub type NodesEntry = (u64, Arc<Vec<ClusterNode>>);

/// What an `LruCache` of peer tables holds, most recently used first: each
/// epoch with the time its table was made and the table.
pub uninterp spec fn nodes_cache_entries(c: LruCache<u64, NodesEntry>) -> Seq<
    (u64, (u64, Seq<ClusterNode>)),
>;

/// The capacity that an `LruCache` of peer tables was made with.
pub uninterp spec fn nodes_cache_cap(c: LruCache<u64, NodesEntry>) -> nat;

/// Relies on lru 0.6's `LruCache::new`: an empty cache holding at most `cap`
/// entries.
#[verifier::external_body]
fn nodes_lru_new(cap: usize) -> (r: LruCache<u64, NodesEntry>)
    ensures
        nodes_cache_entries(r) == Seq::<(u64, (u64, Seq<ClusterNode>))>::empty(),
        nodes_cache_cap(r) == cap,
{
    LruCache::new(cap)
}

/// Relies on lru 0.6's `LruCache::get`: the entry cached under `epoch`,
/// which moves it to the most recently used end; the cache is unchanged on a
/// miss.
#[verifier::external_body]
fn nodes_lru_get(c: &mut LruCache<u64, NodesEntry>, epoch: u64) -> (r: Option<NodesEntry>)
    ensures
        nodes_cache_cap(*final(c)) == nodes_cache_cap(*old(c)),
        has_key(nodes_cache_entries(*old(c)), epoch) ==> {
            let e = nodes_cache_entries(*old(c));
            let i = position(e, epoch);
            &&& r is Some
            &&& (r->0).0 == (e[i].1).0
            &&& (r->0).1@ == (e[i].1).1
            &&& nodes_cache_entries(*final(c)) == seq![e[i]] + e.remove(i)
        },
        !has_key(nodes_cache_entries(*old(c)), epoch) ==> {
            &&& r is None
            &&& nodes_cache_entries(*final(c)) == nodes_cache_entries(*old(c))
        },
{
    c.get(&epoch).cloned()
}

/// Relies on lru 0.6's `LruCache::put`: stores `v` under `epoch` as the most
/// recently used entry, replacing the old value; where `epoch` is new and the
/// cache is full, the least recently used entry leaves; with capacity zero
/// nothing is stored.
#[verifier::external_body]
fn nodes_lru_put(c: &mut LruCache<u64, NodesEntry>, epoch: u64, v: NodesEntry)
    ensures
        nodes_cache_cap(*final(c)) == nodes_cache_cap(*old(c)),
        ({
            let e = nodes_cache_entries(*old(c));
            let f = nodes_cache_entries(*final(c));
            let x = (epoch, (v.0, v.1@));
            if has_key(e, epoch) {
                f == seq![x] + e.remove(position(e, epoch))
            } else {
                f == insert_new(e, nodes_cache_cap(*old(c)), epoch, x.1)
            }
        }),
{
    c.put(epoch, v);
}

/// A table made at `created_ms` is fresh at `now_ms`: at most the time to
/// live has passed.
pub open spec fn is_fresh(created_ms: u64, now_ms: u64) -> bool {
    now_ms <= created_ms + CLUSTER_NODES_CACHE_TTL_MS
}

/// Per-epoch peer tables, each kept for a bounded time, for a bounded
/// number of epochs, the least recently used leaving first.
pub struct ClusterNodesCache {
    cache: LruCache<u64, NodesEntry>,
}

impl ClusterNodesCache {
    /// Cached epochs with the time each table was made and the table, most
    /// recently used first.
    pub closed spec fn entries(&self) -> Seq<(u64, (u64, Seq<ClusterNode>))> {
        nodes_cache_entries(self.cache)
    }

    pub closed spec fn capacity(&self) -> nat {
        nodes_cache_cap(self.cache)
    }

    /// An empty cache for at most `capacity` epochs.
    pub fn new(capacity: usize) -> (r: ClusterNodesCache)
        ensures
            r.entries() == Seq::<(u64, (u64, Seq<ClusterNode>))>::empty(),
            r.capacity() == capacity,
    {
        ClusterNodesCache { cache: nodes_lru_new(capacity) }
    }

    /// The table of `epoch` where one is cached and still fresh at `now_ms`;
    /// `None` where the table has to be made anew. A cached epoch becomes the
    /// most recently used, fresh or not.
    pub fn get_fresh(&mut self, epoch: u64, now_ms: u64) -> (r: Option<Arc<Vec<ClusterNode>>>)
        ensures
            final(self).capacity() == old(self).capacity(),
            ({
                let e = old(self).entries();
                if has_key(e, epoch) {
                    let i = position(e, epoch);
                    &&& final(self).entries() == seq![e[i]] + e.remove(i)
                    &&& is_fresh((e[i].1).0, now_ms) ==> r is Some && r->0@ == (e[i].1).1
                    &&& !is_fresh((e[i].1).0, now_ms) ==> r is None
                } else {
                    &&& final(self).entries() == e
                    &&& r is None
                }
            }),
    {
        match nodes_lru_get(&mut self.cache, epoch) {
            Some(entry) => {
                if now_ms as u128 <= entry.0 as u128 + CLUSTER_NODES_CACHE_TTL_MS as u128 {
                    Some(entry.1)
                } else {
                    None
                }
            },
            None => None,
        }
    }

    /// Stores `nodes` as the table of `epoch`, made at `now_ms`, as the most
    /// recently used entry; the least recently used epoch leaves where the
    /// cache is full.
    pub fn insert(&mut self, epoch: u64, now_ms: u64, nodes: Arc<Vec<ClusterNode>>)
        ensures
            final(self).capacity() == old(self).capacity(),
            ({
                let e = old(self).entries();
                let x = (now_ms, nodes@);
                if has_key(e, epoch) {
                    final(self).entries() == seq![(epoch, x)] + e.remove(position(e, epoch))
                } else {
                    final(self).entries() == insert_new(e, old(self).capacity(), epoch, x)
                }
            }),
    {
        nodes_lru_put(&mut self.cache, epoch, (now_ms, nodes));
    }
}

/// Identity `a` orders above `b`, comparing bytes from position `i` on.
pub open spec fn id_above_from(a: Seq<u8>, b: Seq<u8>, i: int) -> bool
    decreases 32 - i,
{
    if i >= 32 || i < 0 {
        false
    } else if a[i] != b[i] {
        a[i] > b[i]
    } else {
        id_above_from(a, b, i + 1)
    }
}

/// Identity `a` orders above `b`, byte by byte.
pub open spec fn id_above(a: Pubkey, b: Pubkey) -> bool {
    id_above_from(a.bytes@, b.bytes@, 0)
}

/// Node `a` ranks before node `b`: more stake, or as much and a higher
/// identity.
pub open spec fn ranks_before(a: ClusterNode, b: ClusterNode) -> bool {
    a.stake > b.stake || (a.stake == b.stake && id_above(a.id, b.id))
}

/// A table in rank order: no node ranks before one ahead of it.
pub open spec fn is_ranked(s: Seq<ClusterNode>) -> bool {
    forall|i: int, j: int| 0 <= i < j < s.len() ==> !ranks_before(#[trigger] s[j], #[trigger] s[i])
}

proof fn lemma_id_above_asym(a: Seq<u8>, b: Seq<u8>, i: int)
    ensures
        id_above_from(a, b, i) ==> !id_above_from(b, a, i),
    decreases 32 - i,
{
    if 0 <= i < 32 && a[i] == b[i] {
        lemma_id_above_asym(a, b, i + 1);
    }
}

proof fn lemma_id_above_trans(a: Seq<u8>, b: Seq<u8>, c: Seq<u8>, i: int)
    ensures
        id_above_from(a, b, i) && id_above_from(b, c, i) ==> id_above_from(a, c, i),
    decreases 32 - i,
{
    if 0 <= i < 32 {
        lemma_id_above_trans(a, b, c, i + 1);
    }
}

/// Two 32-byte identities that neither orders above the other are equal.
proof fn lemma_id_above_total(a: Seq<u8>, b: Seq<u8>, i: int)
    requires
        a.len() == 32,
        b.len() == 32,
        0 <= i <= 32,
    ensures
        !id_above_from(a, b, i) && !id_above_from(b, a, i) ==> a.subrange(i, 32) == b.subrange(i, 32),
    decreases 32 - i,
{
    if i < 32 {
        lemma_id_above_total(a, b, i + 1);
        if !id_above_from(a, b, i) && !id_above_from(b, a, i) {
            assert(a[i] == b[i]);
            assert(a.subrange(i, 32) =~= seq![a[i]] + a.subrange(i + 1, 32));
            assert(b.subrange(i, 32) =~= seq![b[i]] + b.subrange(i + 1, 32));
        }
    } else {
        assert(a.subrange(i, 32) =~= b.subrange(i, 32));
    }
}

/// Ranking is a strict order, and any two nodes that neither ranks before
/// the other have the same stake and identity.
proof fn lemma_rank_order(a: ClusterNode, b: ClusterNode, c: ClusterNode)
    ensures
        ranks_before(a, b) ==> !ranks_before(b, a),
        ranks_before(a, b) && ranks_before(b, c) ==> ranks_before(a, c),
        !ranks_before(a, b) && !ranks_before(b, a) ==> a.stake == b.stake && a.id.bytes@
            == b.id.bytes@,
{
    lemma_id_above_asym(a.id.bytes@, b.id.bytes@, 0);
    lemma_id_above_trans(a.id.bytes@, b.id.bytes@, c.id.bytes@, 0);
    lemma_id_above_total(a.id.bytes@, b.id.bytes@, 0);
    assert(a.id.bytes@.subrange(0, 32) =~= a.id.bytes@);
    assert(b.id.bytes@.subrange(0, 32) =~= b.id.bytes@);
}

/// Whether node `a` ranks before node `b`.
pub fn rank_before(a: &ClusterNode, b: &ClusterNode) -> (r: bool)
    ensures
        r == ranks_before(*a, *b),
{
    if a.stake != b.stake {
        return a.stake > b.stake;
    }
    let mut i: usize = 0;
    while i < 32
        invariant
            0 <= i <= 32,
            id_above(a.id, b.id) == id_above_from(a.id.bytes@, b.id.bytes@, i as int),
            a.stake == b.stake,
        decreases 32 - i,
    {
        if a.id.bytes[i] != b.id.bytes[i] {
            return a.id.bytes[i] > b.id.bytes[i];
        }
        i = i + 1;
    }
    false
}

/// The nodes of `nodes` in rank order: by stake, highest first, and by
/// identity, highest first, where stakes are equal.
pub fn rank_nodes(nodes: &Vec<ClusterNode>) -> (r: Vec<ClusterNode>)
    ensures
        r@.to_multiset() == nodes@.to_multiset(),
        is_ranked(r@),
{
    let mut r: Vec<ClusterNode> = Vec::new();
    let mut k: usize = 0;
    assert(nodes@.take(0) =~= r@);
    while k < nodes.len()
        invariant
            0 <= k <= nodes.len(),
            r@.to_multiset() == nodes@.take(k as int).to_multiset(),
            is_ranked(r@),
        decreases nodes.len() - k,
    {
        let x = nodes[k];
        let mut p: usize = 0;
        let mut found = false;
        while p < r.len() && !found
            invariant
                0 <= p <= r.len(),
                found ==> p < r.len() && ranks_before(x, r@[p as int]),
                forall|i: int| 0 <= i < p ==> !ranks_before(x, #[trigger] r@[i]),
            decreases r.len() - p + if found {
                0int
            } else {
                1int
            },
        {
            if rank_before(&x, &r[p]) {
                found = true;
            } else {
                p = p + 1;
            }
        }
        let ghost old_r = r@;
        r.insert(p, x);
        proof {
            assert(r@ == old_r.insert(p as int, x));
            assert(nodes@.take(k + 1) =~= nodes@.take(k as int).push(x));
            nodes@.take(k as int).to_multiset_ensures();
            vstd::seq_lib::to_multiset_insert(old_r, p as int, x);
            assert(r@.to_multiset() =~= nodes@.take(k + 1).to_multiset());
            assert forall|i: int, j: int| 0 <= i < j < r@.len() implies !ranks_before(
                #[trigger] r@[j],
                #[trigger] r@[i],
            ) by {
                let oi = if i < p {
                    i
                } else {
                    i - 1
                };
                let oj = if j <= p {
                    j
                } else {
                    j - 1
                };
                if i == p {
                    // x against an element after it
                    lemma_rank_order(r@[j], x, old_r[p as int]);
                    lemma_rank_order(x, old_r[p as int], r@[j]);
                    lemma_rank_order(old_r[p as int], r@[j], x);
                    if j > p + 1 {
                        assert(!ranks_before(old_r[oj], old_r[p as int]));
                        lemma_rank_order(old_r[oj], old_r[p as int], x);
                        lemma_rank_order(old_r[p as int], old_r[oj], x);
                        lemma_rank_order(x, old_r[p as int], old_r[oj]);
                        lemma_rank_order(old_r[oj], x, old_r[p as int]);
                    }
                } else if j == p {
                    // an element before x against x
                    assert(!ranks_before(x, old_r[i]));
                } else {
                    assert(r@[i] == old_r[oi]);
                    assert(r@[j] == old_r[oj]);
                }
            }
        }
        k = k + 1;
    }
    assert(nodes@.take(k as int) =~= nodes@);
    r
}

} // verus!
