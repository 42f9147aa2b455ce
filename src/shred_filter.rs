use vstd::prelude::*;
use lru::LruCache;
use crate::lru_cache::{has_key, insert_new, keys_unique, position};
use crate::packet_hasher::PacketHasher;
use crate::shred::{Shred, ShredKey, key_of};

verus! {

/// Most payloads forwarded for one shred position between two rekeys.
pub const MAX_DUPLICATE_COUNT: usize = 2;

/// Number of shred positions the filter remembers.
pub const DEFAULT_LRU_SIZE: usize = 10_000;

/// One cached position with the payload hashes seen for it.
pub type FilterEntry = (ShredKey, Seq<u64>);

/// What an `LruCache` of the filter holds, most recently used entry first.
pub uninterp spec fn lru_entries(c: LruCache<ShredKey, Vec<u64>>) -> Seq<FilterEntry>;

/// The capacity that an `LruCache` of the filter was made with.
pub uninterp spec fn lru_cap(c: LruCache<ShredKey, Vec<u64>>) -> nat;

/// Relies on lru 0.6's `LruCache::new`: an empty cache holding at most `cap`
/// entries.
#[verifier::external_body]
fn lru_new(cap: usize) -> (r: LruCache<ShredKey, Vec<u64>>)
    ensures
        lru_entries(r) == Seq::<FilterEntry>::empty(),
        lru_cap(r) == cap,
{
    LruCache::new(cap)
}

/// Relies on lru 0.6's `LruCache::get`: the value cached under `k`, which
/// moves `k` to the most recently used end; the cache is unchanged on a miss.
#[verifier::external_body]
fn lru_get(c: &mut LruCache<ShredKey, Vec<u64>>, k: &ShredKey) -> (r: Option<Vec<u64>>)
    ensures
        lru_cap(*final(c)) == lru_cap(*old(c)),
        has_key(lru_entries(*old(c)), *k) ==> {
            let e = lru_entries(*old(c));
            let i = position(e, *k);
            &&& r is Some
            &&& r->0@ == e[i].1
            &&& lru_entries(*final(c)) == seq![e[i]] + e.remove(i)
        },
        !has_key(lru_entries(*old(c)), *k) ==> {
            &&& r is None
            &&& lru_entries(*final(c)) == lru_entries(*old(c))
        },
{
    c.get(k).cloned()
}

/// Relies on lru 0.6's `LruCache::put`: stores `v` under `k` as the most
/// recently used entry, replacing the old value of `k`; where `k` is new and
/// the cache is full, the least recently used entry leaves; with capacity
/// zero nothing is stored.
#[verifier::external_body]
fn lru_put(c: &mut LruCache<ShredKey, Vec<u64>>, k: ShredKey, v: Vec<u64>)
    ensures
        lru_cap(*final(c)) == lru_cap(*old(c)),
        ({
            let e = lru_entries(*old(c));
            let f = lru_entries(*final(c));
            if has_key(e, k) {
                f == seq![(k, v@)] + e.remove(position(e, k))
            } else {
                f == insert_new(e, lru_cap(*old(c)), k, v@)
            }
        }),
{
    c.put(k, v);
}

/// Relies on lru 0.6's `LruCache::clear`: removes every entry.
#[verifier::external_body]
fn lru_clear(c: &mut LruCache<ShredKey, Vec<u64>>)
    ensures
        lru_cap(*final(c)) == lru_cap(*old(c)),
        lru_entries(*final(c)) == Seq::<FilterEntry>::empty(),
{
    c.clear();
}

/// A position's hash list: one or two distinct payload hashes.
pub open spec fn hashes_ok(s: Seq<u64>) -> bool {
    &&& 1 <= s.len() <= MAX_DUPLICATE_COUNT
    &&& s.no_duplicates()
}

/// Well-formed filter entries: keys cached once, at most `cap` of them, and
/// every hash list as `hashes_ok` says.
pub open spec fn filter_wf(e: Seq<FilterEntry>, cap: nat) -> bool {
    &&& keys_unique(e)
    &&& e.len() <= cap
    &&& forall|i: int| 0 <= i < e.len() ==> hashes_ok(#[trigger] e[i].1)
}

/// The hashes recorded for `k`, empty where `k` is not cached.
pub open spec fn hashes_of(e: Seq<FilterEntry>, k: ShredKey) -> Seq<u64> {
    if has_key(e, k) {
        e[position(e, k)].1
    } else {
        Seq::empty()
    }
}

/// The filter's decision on a payload with hash `h` at position `k`: the
/// entries afterwards, and whether the payload is to be skipped.
pub open spec fn record_spec(e: Seq<FilterEntry>, cap: nat, k: ShredKey, h: u64) -> (
    Seq<FilterEntry>,
    bool,
) {
    if has_key(e, k) {
        let i = position(e, k);
        let sent = e[i].1;
        if sent.len() >= MAX_DUPLICATE_COUNT || sent.contains(h) {
            (seq![e[i]] + e.remove(i), true)
        } else {
            (seq![(k, sent.push(h))] + e.remove(i), false)
        }
    } else {
        (insert_new(e, cap, k, seq![h]), false)
    }
}

/// Where `k` is cached, `position` finds it, and it is the only place.
pub proof fn lemma_position(e: Seq<FilterEntry>, k: ShredKey)
    requires
        has_key(e, k),
        keys_unique(e),
    ensures
        0 <= position(e, k) < e.len(),
        e[position(e, k)].0 == k,
        forall|j: int| 0 <= j < e.len() && e[j].0 == k ==> j == position(e, k),
{
}

/// Moving the entry at `i` to the front, with a new value, keeps keys unique
/// and the other keys' entries.
pub proof fn lemma_move_front(e: Seq<FilterEntry>, i: int, x: FilterEntry)
    requires
        keys_unique(e),
        0 <= i < e.len(),
        x.0 == e[i].0,
    ensures
        ({
            let f = seq![x] + e.remove(i);
            &&& f.len() == e.len()
            &&& keys_unique(f)
            &&& has_key(f, x.0)
            &&& position(f, x.0) == 0
            &&& forall|k: ShredKey| k != x.0 ==> (has_key(f, k) == has_key(e, k))
            &&& forall|k: ShredKey| k != x.0 ==> hashes_of(f, k) == hashes_of(e, k)
        }),
{
    let f = seq![x] + e.remove(i);
    assert(forall|j: int| 0 < j <= i ==> f[j] == e[j - 1]);
    assert(forall|j: int| i < j < f.len() ==> f[j] == e[j]);
    assert(f[0] == x);
    assert(keys_unique(f)) by {
        assert forall|a: int, b: int|
            0 <= a < f.len() && 0 <= b < f.len() && a != b implies #[trigger] f[a].0
            != #[trigger] f[b].0 by {
            let ea = if a == 0 {
                i
            } else if a <= i {
                a - 1
            } else {
                a
            };
            let eb = if b == 0 {
                i
            } else if b <= i {
                b - 1
            } else {
                b
            };
            assert(f[a].0 == e[ea].0);
            assert(f[b].0 == e[eb].0);
        }
    }
    assert(has_key(f, x.0)) by {
        assert(f[0].0 == x.0);
    }
    lemma_position(f, x.0);
    assert forall|k: ShredKey| k != x.0 implies (has_key(f, k) == has_key(e, k)) && hashes_of(f, k)
        == hashes_of(e, k) by {
        if has_key(e, k) {
            lemma_position(e, k);
            let p = position(e, k);
            let q = if p < i {
                p + 1
            } else {
                p
            };
            assert(p != i);
            assert(f[q] == e[p]);
            assert(has_key(f, k));
            lemma_position(f, k);
        }
        if has_key(f, k) {
            lemma_position(f, k);
            let q = position(f, k);
            assert(q != 0);
            let p = if q <= i {
                q - 1
            } else {
                q
            };
            assert(f[q] == e[p]);
            assert(has_key(e, k));
        }
    }
}

/// Putting a new key in front keeps keys unique; other keys keep their
/// entries unless the least recently used one was pushed out.
pub proof fn lemma_insert_new(e: Seq<FilterEntry>, cap: nat, k: ShredKey, v: Seq<u64>)
    requires
        filter_wf(e, cap),
        !has_key(e, k),
        hashes_ok(v),
    ensures
        ({
            let f = insert_new(e, cap, k, v);
            &&& filter_wf(f, cap)
            &&& cap > 0 ==> has_key(f, k) && hashes_of(f, k) == v
            &&& forall|j: ShredKey|
                j != k && has_key(f, j) ==> has_key(e, j) && hashes_of(f, j) == hashes_of(e, j)
            &&& forall|j: ShredKey|
                j != k && has_key(e, j) && !has_key(f, j) ==> e.len() == cap && e.last().0 == j
        }),
{
    let f = insert_new(e, cap, k, v);
    if cap > 0 {
        let rest = if e.len() == cap {
            e.drop_last()
        } else {
            e
        };
        assert(f == seq![(k, v)] + rest);
        assert(forall|j: int| 0 < j < f.len() ==> f[j] == e[j - 1]);
        assert(keys_unique(f)) by {
            assert forall|a: int, b: int|
                0 <= a < f.len() && 0 <= b < f.len() && a != b implies #[trigger] f[a].0
                != #[trigger] f[b].0 by {
                if a == 0 {
                    assert(f[b].0 == e[b - 1].0);
                } else if b == 0 {
                    assert(f[a].0 == e[a - 1].0);
                } else {
                    assert(f[a].0 == e[a - 1].0);
                    assert(f[b].0 == e[b - 1].0);
                }
            }
        }
        assert(f[0].0 == k);
        lemma_position(f, k);
        assert forall|j: ShredKey| j != k && has_key(f, j) implies has_key(e, j) && hashes_of(f, j)
            == hashes_of(e, j) by {
            lemma_position(f, j);
            let q = position(f, j);
            assert(f[q] == e[q - 1]);
            assert(has_key(e, j));
            lemma_position(e, j);
        }
        assert forall|j: ShredKey|
            j != k && has_key(e, j) && !has_key(f, j) implies e.len() == cap && e.last().0
            == j by {
            lemma_position(e, j);
            let p = position(e, j);
            if p + 1 < f.len() {
                assert(f[p + 1] == e[p]);
            }
        }
    }
}

/// One decision of the filter keeps it well formed, leaves the other cached
/// positions' hashes as they were, and, with a nonzero capacity, leaves `k`
/// cached with one more hash exactly when the payload was not skipped.
pub proof fn lemma_record(e: Seq<FilterEntry>, cap: nat, k: ShredKey, h: u64)
    requires
        filter_wf(e, cap),
    ensures
        ({
            let (f, skip) = record_spec(e, cap, k, h);
            &&& filter_wf(f, cap)
            &&& forall|j: ShredKey|
                j != k && has_key(f, j) ==> has_key(e, j) && hashes_of(f, j) == hashes_of(e, j)
            &&& cap > 0 ==> {
                &&& has_key(f, k)
                &&& hashes_of(f, k).len() == hashes_of(e, k).len() + if skip {
                    0int
                } else {
                    1int
                }
                &&& hashes_of(f, k).contains(h) || hashes_of(f, k).len() >= MAX_DUPLICATE_COUNT
            }
        }),
{
    let (f, skip) = record_spec(e, cap, k, h);
    if has_key(e, k) {
        lemma_position(e, k);
        let i = position(e, k);
        let sent = e[i].1;
        let x = if skip {
            e[i]
        } else {
            (k, sent.push(h))
        };
        lemma_move_front(e, i, x);
        assert(f == seq![x] + e.remove(i));
        assert forall|j: int| 0 <= j < f.len() implies hashes_ok(#[trigger] f[j].1) by {
            if j > 0 {
                if j <= i {
                    assert(f[j] == e[j - 1]);
                } else {
                    assert(f[j] == e[j]);
                }
            } else if !skip {
                assert(sent.push(h).no_duplicates()) by {
                    assert(sent.push(h).last() == h);
                    assert(forall|a: int| 0 <= a < sent.len() ==> sent.push(h)[a] == sent[a]);
                }
            }
        }
        assert(hashes_of(f, k) == x.1);
        if !skip {
            assert(sent.push(h)[sent.len() as int] == h);
        }
    } else {
        lemma_insert_new(e, cap, k, seq![h]);
        if cap > 0 {
            assert(seq![h][0] == h);
        }
    }
}

/// The filter's state after the decisions on `ops`, in order, each a
/// position and a payload hash.
pub open spec fn run(e: Seq<FilterEntry>, cap: nat, ops: Seq<(ShredKey, u64)>) -> Seq<FilterEntry>
    decreases ops.len(),
{
    if ops.len() == 0 {
        e
    } else {
        record_spec(run(e, cap, ops.drop_last()), cap, ops.last().0, ops.last().1).0
    }
}

/// How many of the decisions on `ops` forwarded a payload at position `k`.
pub open spec fn forwarded(e: Seq<FilterEntry>, cap: nat, ops: Seq<(ShredKey, u64)>, k: ShredKey) -> nat
    decreases ops.len(),
{
    if ops.len() == 0 {
        0
    } else {
        let skip = record_spec(run(e, cap, ops.drop_last()), cap, ops.last().0, ops.last().1).1;
        forwarded(e, cap, ops.drop_last(), k) + if ops.last().0 == k && !skip {
            1nat
        } else {
            0nat
        }
    }
}

/// Once cached during `ops`, position `k` is never pushed out of the cache.
pub open spec fn stays_cached(e: Seq<FilterEntry>, cap: nat, ops: Seq<(ShredKey, u64)>, k: ShredKey) -> bool {
    forall|n: int|
        0 <= n < ops.len() && #[trigger] has_key(run(e, cap, ops.take(n)), k) ==> has_key(
            run(e, cap, ops.take(n + 1)),
            k,
        )
}

/// Between two resets, the filter forwards at most `MAX_DUPLICATE_COUNT`
/// distinct payloads for one shred position, counting those it already
/// holds, as long as the position stays in the cache.
pub proof fn lemma_dedup_bound(e: Seq<FilterEntry>, cap: nat, ops: Seq<(ShredKey, u64)>, k: ShredKey)
    requires
        filter_wf(e, cap),
        cap > 0,
        stays_cached(e, cap, ops, k),
    ensures
        forwarded(e, cap, ops, k) + hashes_of(e, k).len() <= MAX_DUPLICATE_COUNT,
{
    lemma_dedup_count(e, cap, ops, k);
    lemma_run_wf(e, cap, ops);
    let f = run(e, cap, ops);
    if has_key(f, k) {
        lemma_position(f, k);
    }
}

/// Every state along a run is well formed.
pub proof fn lemma_run_wf(e: Seq<FilterEntry>, cap: nat, ops: Seq<(ShredKey, u64)>)
    requires
        filter_wf(e, cap),
    ensures
        filter_wf(run(e, cap, ops), cap),
    decreases ops.len(),
{
    if ops.len() > 0 {
        lemma_run_wf(e, cap, ops.drop_last());
        lemma_record(run(e, cap, ops.drop_last()), cap, ops.last().0, ops.last().1);
    }
}

/// Each forwarded payload at `k` adds one hash to its list, while it stays
/// cached.
proof fn lemma_dedup_count(e: Seq<FilterEntry>, cap: nat, ops: Seq<(ShredKey, u64)>, k: ShredKey)
    requires
        filter_wf(e, cap),
        cap > 0,
        stays_cached(e, cap, ops, k),
    ensures
        forwarded(e, cap, ops, k) + hashes_of(e, k).len() == hashes_of(run(e, cap, ops), k).len(),
    decreases ops.len(),
{
    if ops.len() > 0 {
        let n = ops.len() - 1;
        let pre = ops.drop_last();
        assert forall|m: int|
            0 <= m < pre.len() && #[trigger] has_key(run(e, cap, pre.take(m)), k) implies has_key(
            run(e, cap, pre.take(m + 1)),
            k,
        ) by {
            assert(pre.take(m) =~= ops.take(m));
            assert(pre.take(m + 1) =~= ops.take(m + 1));
        }
        lemma_dedup_count(e, cap, pre, k);
        lemma_run_wf(e, cap, pre);
        let prev = run(e, cap, pre);
        lemma_record(prev, cap, ops.last().0, ops.last().1);
        assert(ops.take(n) =~= pre);
        assert(ops.take(n + 1) =~= ops);
        if ops.last().0 != k && has_key(prev, k) {
            assert(has_key(run(e, cap, ops.take(n)), k));
        }
    }
}

/// Recording one payload hash twice at a position of a filter with room:
/// the second decision skips it.
pub proof fn lemma_record_twice_skips(e: Seq<FilterEntry>, cap: nat, k: ShredKey, h: u64)
    requires
        filter_wf(e, cap),
        cap > 0,
    ensures
        record_spec(record_spec(e, cap, k, h).0, cap, k, h).1,
{
    lemma_record(e, cap, k, h);
    let f = record_spec(e, cap, k, h).0;
    lemma_position(f, k);
}

/// The shred deduplication filter: for each recently seen shred position,
/// the hashes of the payloads forwarded for it, and the keyed hasher that
/// makes those hashes.
pub struct ShredFilter {
    cache: LruCache<ShredKey, Vec<u64>>,
    hasher: PacketHasher,
}

impl ShredFilter {
    /// Cached positions with their payload hashes, most recent first.
    pub closed spec fn entries(&self) -> Seq<FilterEntry> {
        lru_entries(self.cache)
    }

    /// Most positions the filter remembers.
    pub closed spec fn capacity(&self) -> nat {
        lru_cap(self.cache)
    }

    pub closed spec fn hasher_seeds(&self) -> (u64, u64) {
        self.hasher.seeds()
    }

    pub open spec fn wf(&self) -> bool {
        filter_wf(self.entries(), self.capacity())
    }

    /// An empty filter remembering up to `capacity` positions, hashing with
    /// `hasher`.
    pub fn new(capacity: usize, hasher: PacketHasher) -> (r: ShredFilter)
        ensures
            r.wf(),
            r.entries() == Seq::<FilterEntry>::empty(),
            r.capacity() == capacity,
            r.hasher_seeds() == hasher.seeds(),
    {
        ShredFilter { cache: lru_new(capacity), hasher }
    }

    /// Records payload hash `hash` at position `key`; returns whether the
    /// payload is to be skipped: the position already holds this hash, or
    /// already holds `MAX_DUPLICATE_COUNT` hashes.
    pub fn record(&mut self, key: ShredKey, hash: u64) -> (r: bool)
        requires
            old(self).wf(),
        ensures
            final(self).wf(),
            final(self).capacity() == old(self).capacity(),
            final(self).hasher_seeds() == old(self).hasher_seeds(),
            (final(self).entries(), r) == record_spec(
                old(self).entries(),
                old(self).capacity(),
                key,
                hash,
            ),
    {
        let ghost e = self.entries();
        let ghost cap = self.capacity();
        match lru_get(&mut self.cache, &key) {
            Some(sent) => {
                proof {
                    lemma_position(e, key);
                    lemma_move_front(e, position(e, key), e[position(e, key)]);
                }
                if sent.len() >= MAX_DUPLICATE_COUNT {
                    return true;
                }
                let mut i: usize = 0;
                while i < sent.len()
                    invariant
                        0 <= i <= sent.len(),
                        forall|j: int| 0 <= j < i ==> sent@[j] != hash,
                        self.wf(),
                        self.capacity() == cap,
                        e == old(self).entries(),
                        cap == old(self).capacity(),
                        has_key(e, key),
                        0 <= position(e, key) < e.len(),
                        sent@ == e[position(e, key)].1,
                        sent.len() < MAX_DUPLICATE_COUNT,
                        self.hasher_seeds() == old(self).hasher_seeds(),
                        self.entries() == seq![e[position(e, key)]] + e.remove(position(e, key)),
                    decreases sent.len() - i,
                {
                    if sent[i] == hash {
                        return true;
                    }
                    i = i + 1;
                }
                let mut sent = sent;
                sent.push(hash);
                proof {
                    let p = position(e, key);
                    lemma_move_front(e, p, (key, sent@));
                    let f = seq![(key, sent@)] + e.remove(p);
                    assert forall|j: int| 0 <= j < f.len() implies hashes_ok(#[trigger] f[j].1) by {
                        if j > 0 {
                            if j <= p {
                                assert(f[j] == e[j - 1]);
                            } else {
                                assert(f[j] == e[j]);
                            }
                        }
                    }
                }
                lru_put(&mut self.cache, key, sent);
                false
            },
            None => {
                let mut v: Vec<u64> = Vec::new();
                v.push(hash);
                proof {
                    lemma_insert_new(e, cap, key, v@);
                }
                lru_put(&mut self.cache, key, v);
                false
            },
        }
    }

    /// Empties the filter and draws new hasher seeds, so that no hash made
    /// before can match one made after.
    pub fn reset(&mut self)
        requires
            old(self).wf(),
        ensures
            final(self).wf(),
            final(self).capacity() == old(self).capacity(),
            final(self).entries() == Seq::<FilterEntry>::empty(),
    {
        lru_clear(&mut self.cache);
        self.hasher.reset();
    }
}

/// Whether `shred` has been forwarded already, or its position has had its
/// share of distinct payloads, so that it must not be retransmitted. Records
/// the shred's payload hash otherwise.
pub fn should_skip_retransmit(shred: &Shred, shreds_received: &mut ShredFilter) -> (r: bool)
    requires
        old(shreds_received).wf(),
    ensures
        final(shreds_received).wf(),
        final(shreds_received).capacity() == old(shreds_received).capacity(),
        final(shreds_received).hasher_seeds() == old(shreds_received).hasher_seeds(),
        exists|h: u64|
            (final(shreds_received).entries(), r) == record_spec(
                old(shreds_received).entries(),
                old(shreds_received).capacity(),
                key_of(*shred),
                h,
            ),
        !has_key(old(shreds_received).entries(), key_of(*shred)) ==> !r,
        hashes_of(old(shreds_received).entries(), key_of(*shred)).len() >= MAX_DUPLICATE_COUNT
            ==> r,
{
    let key = shred.key();
    let hash = shreds_received.hasher.hash_payload(shred.payload.as_slice());
    shreds_received.record(key, hash)
}

} // verus!
