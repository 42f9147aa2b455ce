use vstd::prelude::*;

verus! {

/// Fanout of the turbine tree across the cluster.
pub const DATA_PLANE_FANOUT: usize = 200;

/// A node's 32-byte public identity.
#[derive(Clone, Copy, Debug)]
pub struct Pubkey {
    pub bytes: [u8; 32],
}

/// What peer selection reads of a cluster node: its identity and its stake.
/// A node is named by its position in the table it stands in.
#[derive(Clone, Copy, Debug)]
pub struct ClusterNode {
    pub id: Pubkey,
    pub stake: u64,
}

/// Whether two identities are the same.
pub fn same_id(a: &Pubkey, b: &Pubkey) -> (r: bool)
    ensures
        r == (a.bytes@ == b.bytes@),
{
    let mut i: usize = 0;
    while i < 32
        invariant
            0 <= i <= 32,
            forall|j: int| 0 <= j < i ==> a.bytes@[j] == b.bytes@[j],
        decreases 32 - i,
    {
        if a.bytes[i] != b.bytes[i] {
            assert(a.bytes@[i as int] != b.bytes@[i as int]);
            return false;
        }
        i = i + 1;
    }
    assert(a.bytes@ =~= b.bytes@);
    true
}

/// Positions, in table order, of the first `n` table nodes that are not
/// `leader`.
pub open spec fn forwarders_upto(nodes: Seq<ClusterNode>, leader: Seq<u8>, n: int) -> Seq<usize>
    decreases n,
{
    if n <= 0 {
        Seq::empty()
    } else if nodes[n - 1].id.bytes@ == leader {
        forwarders_upto(nodes, leader, n - 1)
    } else {
        forwarders_upto(nodes, leader, n - 1).push((n - 1) as usize)
    }
}

/// Positions, in table order, of the nodes that forward a shred of a slot
/// led by `leader`: every node but the leader.
pub open spec fn forwarders(nodes: Seq<ClusterNode>, leader: Seq<u8>) -> Seq<usize> {
    forwarders_upto(nodes, leader, nodes.len() as int)
}

/// The forwarders of a shred led by `slot_leader`: the table positions of
/// every node but the leader, in table order. Their stakes weight the shuffle
/// that orders them.
pub fn forwarder_positions(nodes: &Vec<ClusterNode>, slot_leader: &Pubkey) -> (r: Vec<usize>)
    ensures
        r@ == forwarders(nodes@, slot_leader.bytes@),
{
    let mut r: Vec<usize> = Vec::new();
    let mut i: usize = 0;
    while i < nodes.len()
        invariant
            0 <= i <= nodes.len(),
            r@ == forwarders_upto(nodes@, slot_leader.bytes@, i as int),
        decreases nodes.len() - i,
    {
        if !same_id(&nodes[i].id, slot_leader) {
            r.push(i);
        }
        i = i + 1;
    }
    r
}

/// The forwarders in the order that a shuffle of them gives, where
/// `shuffle[k]` is the position in `forwarders` of the `k`-th one; `None`
/// where some entry of `shuffle` is out of range.
pub fn apply_shuffle(forwarders: &Vec<usize>, shuffle: &Vec<usize>) -> (r: Option<Vec<usize>>)
    ensures
        r is Some <==> forall|k: int| 0 <= k < shuffle.len() ==> shuffle@[k] < forwarders.len(),
        r matches Some(v) ==> v@ == shuffle@.map_values(|j: usize| forwarders@[j as int]),
{
    let mut r: Vec<usize> = Vec::new();
    let mut k: usize = 0;
    while k < shuffle.len()
        invariant
            0 <= k <= shuffle.len(),
            forall|m: int| 0 <= m < k ==> shuffle@[m] < forwarders.len(),
            r@ == shuffle@.take(k as int).map_values(|j: usize| forwarders@[j as int]),
        decreases shuffle.len() - k,
    {
        let j = shuffle[k];
        if j >= forwarders.len() {
            return None;
        }
        r.push(forwarders[j]);
        assert(shuffle@.take(k + 1) =~= shuffle@.take(k as int).push(j));
        k = k + 1;
    }
    assert(shuffle@.take(k as int) =~= shuffle@);
    Some(r)
}

/// Identities along a shuffled list of table positions.
pub open spec fn ids_along(nodes: Seq<ClusterNode>, shuffled: Seq<usize>) -> Seq<Seq<u8>> {
    shuffled.map_values(|j: usize| nodes[j as int].id.bytes@)
}

/// `p` is the first position of `me` in `ids`.
pub open spec fn is_first_at(ids: Seq<Seq<u8>>, me: Seq<u8>, p: int) -> bool {
    &&& 0 <= p < ids.len()
    &&& ids[p] == me
    &&& forall|q: int| 0 <= q < p ==> ids[q] != me
}

/// The block `[start, start + fanout)` of `list`, cut at its end.
pub open spec fn block(list: Seq<usize>, start: int, fanout: int) -> Seq<usize> {
    if start >= list.len() {
        Seq::empty()
    } else if start + fanout <= list.len() {
        list.subrange(start, start + fanout)
    } else {
        list.subrange(start, list.len() as int)
    }
}

/// Where the children of the node at position `p` of the shuffled list
/// start: for neighborhood `p / fanout` and offset `p % fanout` in it, at
/// `(p / fanout + 1) * fanout * fanout + (p % fanout) * fanout`.
pub open spec fn children_start(p: int, fanout: int) -> int {
    (p / fanout + 1) * fanout * fanout + (p % fanout) * fanout
}

/// Neighbors and children, as table positions, of the node `me` in the
/// shuffled list `shuffled`: the neighborhood of `me`'s first position, in
/// list order, and the block of the next tree level that it feeds; both
/// empty where `me` is not in the list.
pub open spec fn retransmit_peers(
    nodes: Seq<ClusterNode>,
    shuffled: Seq<usize>,
    fanout: int,
    me: Seq<u8>,
) -> (Seq<usize>, Seq<usize>) {
    let ids = ids_along(nodes, shuffled);
    if exists|p: int| is_first_at(ids, me, p) {
        let p = choose|p: int| is_first_at(ids, me, p);
        (block(shuffled, (p / fanout) * fanout, fanout), block(shuffled, children_start(p, fanout), fanout))
    } else {
        (Seq::empty(), Seq::empty())
    }
}

/// The first position of an identity is unique.
proof fn lemma_first_unique(ids: Seq<Seq<u8>>, me: Seq<u8>, p: int, q: int)
    requires
        is_first_at(ids, me, p),
        is_first_at(ids, me, q),
    ensures
        p == q,
{
}

/// The block of `list` from `start`, at most `fanout` long.
fn copy_block(list: &Vec<usize>, start: usize, fanout: usize) -> (r: Vec<usize>)
    requires
        fanout > 0,
    ensures
        r@ == block(list@, start as int, fanout as int),
{
    let mut r: Vec<usize> = Vec::new();
    if start >= list.len() {
        return r;
    }
    let end = if list.len() - start > fanout {
        start + fanout
    } else {
        list.len()
    };
    let mut k: usize = start;
    while k < end
        invariant
            start <= k <= end <= list.len(),
            r@ == list@.subrange(start as int, k as int),
        decreases end - k,
    {
        r.push(list[k]);
        assert(list@.subrange(start as int, k + 1) =~= list@.subrange(start as int, k as int).push(
            list@[k as int],
        ));
        k = k + 1;
    }
    r
}

/// Neighbors and children, as table positions, of the local node `me` in
/// the turbine tree that the shuffled list `shuffled` lays out with the
/// given fanout. Neighbors are `me`'s neighborhood in list order, so that the
/// first of them is its anchor; children are the block of the next level
/// that `me` feeds. Both are empty where `me` is not in the list.
pub fn get_retransmit_peers(
    nodes: &Vec<ClusterNode>,
    shuffled: &Vec<usize>,
    fanout: usize,
    me: &Pubkey,
) -> (r: (Vec<usize>, Vec<usize>))
    requires
        fanout > 0,
        forall|k: int| 0 <= k < shuffled.len() ==> shuffled@[k] < nodes.len(),
    ensures
        (r.0@, r.1@) == retransmit_peers(nodes@, shuffled@, fanout as int, me.bytes@),
{
    let ghost ids = ids_along(nodes@, shuffled@);
    let mut p: usize = 0;
    let mut found = false;
    while p < shuffled.len() && !found
        invariant
            0 <= p <= shuffled.len(),
            found ==> p < shuffled.len() && ids[p as int] == me.bytes@,
            forall|k: int| 0 <= k < shuffled.len() ==> shuffled@[k] < nodes.len(),
            ids == ids_along(nodes@, shuffled@),
            forall|q: int| 0 <= q < p ==> ids[q] != me.bytes@,
        decreases shuffled.len() - p + if found {
            0int
        } else {
            1int
        },
    {
        if same_id(&nodes[shuffled[p]].id, me) {
            found = true;
        } else {
            p = p + 1;
        }
    }
    if !found {
        assert(!exists|q: int| is_first_at(ids, me.bytes@, q));
        return (Vec::new(), Vec::new());
    }
    proof {
        assert(is_first_at(ids, me.bytes@, p as int));
        let c = choose|q: int| is_first_at(ids, me.bytes@, q);
        lemma_first_unique(ids, me.bytes@, p as int, c);
    }
    let n = p / fanout;
    let i = p % fanout;
    assert(n * fanout <= p) by (nonlinear_arith)
        requires
            n == p / fanout,
            fanout > 0,
    ;
    let anchor = n * fanout;
    let neighbors = copy_block(shuffled, anchor, fanout);
    let children = match (n + 1).checked_mul(fanout) {
        Some(a) => match a.checked_mul(fanout) {
            Some(b) => match i.checked_mul(fanout) {
                Some(c) => match b.checked_add(c) {
                    Some(start) => copy_block(shuffled, start, fanout),
                    None => Vec::new(),
                },
                None => Vec::new(),
            },
            None => Vec::new(),
        },
        None => Vec::new(),
    };
    proof {
        let cs = children_start(p as int, fanout as int);
        assert(cs == (n + 1) * fanout * fanout + i * fanout);
        assert((n + 1) * fanout * fanout >= 0 && i * fanout >= 0) by (nonlinear_arith)
            requires
                fanout > 0,
                n >= 0,
                i >= 0,
        ;
        assert((n + 1) * fanout <= (n + 1) * fanout * fanout) by (nonlinear_arith)
            requires
                fanout > 0,
                n >= 0,
        ;
        assert(n + 1 <= (n + 1) * fanout) by (nonlinear_arith)
            requires
                fanout > 0,
                n >= 0,
        ;
        if children@.len() == 0 && cs < shuffled.len() {
            assert(false);
        }
    }
    (neighbors, children)
}

/// Which of a peer's two receive addresses a shred goes to.
#[derive(Clone, Copy, Debug, PartialEq, Eq, Structural)]
pub enum PeerAddress {
    /// The primary shred-ingest address.
    Tvu,
    /// The address for shreds received from above, to be forwarded on.
    TvuForwards,
}

/// One send of a shred's payload: a table position and the address to use.
#[derive(Clone, Copy, Debug, PartialEq, Eq, Structural)]
pub struct SendTarget {
    pub node: usize,
    pub address: PeerAddress,
}

/// The local node `me` anchors its neighborhood: it is the first neighbor.
pub open spec fn is_anchor(nodes: Seq<ClusterNode>, neighbors: Seq<usize>, me: Seq<u8>) -> bool {
    neighbors.len() > 0 && nodes[neighbors[0] as int].id.bytes@ == me
}

/// The sends for one shred: an anchor sends to each neighbor but itself at
/// its forward address; every node sends to each child, at its primary
/// address if anchor, else at its forward address.
pub open spec fn dispatch(neighbors: Seq<usize>, children: Seq<usize>, anchor: bool) -> Seq<SendTarget> {
    let to_neighbors = if anchor && neighbors.len() > 0 {
        neighbors.drop_first().map_values(
            |j: usize| SendTarget { node: j, address: PeerAddress::TvuForwards },
        )
    } else {
        Seq::empty()
    };
    let child_address = if anchor {
        PeerAddress::Tvu
    } else {
        PeerAddress::TvuForwards
    };
    to_neighbors + children.map_values(|j: usize| SendTarget { node: j, address: child_address })
}

/// Whether `me` anchors the neighborhood `neighbors`.
pub fn is_anchor_node(nodes: &Vec<ClusterNode>, neighbors: &Vec<usize>, me: &Pubkey) -> (r: bool)
    requires
        forall|k: int| 0 <= k < neighbors.len() ==> neighbors@[k] < nodes.len(),
    ensures
        r == is_anchor(nodes@, neighbors@, me.bytes@),
{
    neighbors.len() > 0 && same_id(&nodes[neighbors[0]].id, me)
}

/// The sends that retransmit one shred, given the local node's neighbors
/// and children.
pub fn retransmit_targets(neighbors: &Vec<usize>, children: &Vec<usize>, anchor: bool) -> (r: Vec<
    SendTarget,
>)
    ensures
        r@ == dispatch(neighbors@, children@, anchor),
{
    let mut r: Vec<SendTarget> = Vec::new();
    let ghost to_neighbors = dispatch(neighbors@, Seq::empty(), anchor);
    if anchor && neighbors.len() > 0 {
        let mut k: usize = 1;
        while k < neighbors.len()
            invariant
                1 <= k <= neighbors.len(),
                r@ == neighbors@.subrange(1, k as int).map_values(
                    |j: usize| SendTarget { node: j, address: PeerAddress::TvuForwards },
                ),
            decreases neighbors.len() - k,
        {
            r.push(SendTarget { node: neighbors[k], address: PeerAddress::TvuForwards });
            assert(neighbors@.subrange(1, k + 1) =~= neighbors@.subrange(1, k as int).push(
                neighbors@[k as int],
            ));
            k = k + 1;
        }
        assert(neighbors@.subrange(1, k as int) =~= neighbors@.drop_first());
    }
    assert(r@ =~= to_neighbors);
    let address = if anchor {
        PeerAddress::Tvu
    } else {
        PeerAddress::TvuForwards
    };
    let ghost base = r@;
    let mut k: usize = 0;
    while k < children.len()
        invariant
            0 <= k <= children.len(),
            r@ == base + children@.take(k as int).map_values(
                |j: usize| SendTarget { node: j, address: address },
            ),
        decreases children.len() - k,
    {
        r.push(SendTarget { node: children[k], address });
        assert(children@.take(k + 1) =~= children@.take(k as int).push(children@[k as int]));
        assert(base + children@.take(k + 1).map_values(
            |j: usize| SendTarget { node: j, address: address },
        ) =~= (base + children@.take(k as int).map_values(
            |j: usize| SendTarget { node: j, address: address },
        )).push(SendTarget { node: children@[k as int], address }));
        k = k + 1;
    }
    assert(children@.take(k as int) =~= children@);
    assert(r@ =~= dispatch(neighbors@, children@, anchor));
    r
}

/// The shuffled list names valid table positions, and no identity twice.
pub open spec fn valid_order(nodes: Seq<ClusterNode>, shuffled: Seq<usize>) -> bool {
    &&& forall|k: int| 0 <= k < shuffled.len() ==> shuffled[k] < nodes.len()
    &&& ids_along(nodes, shuffled).no_duplicates()
}

/// With distinct identities, a node's first position is its position.
proof fn lemma_position_of(nodes: Seq<ClusterNode>, shuffled: Seq<usize>, q: int)
    requires
        valid_order(nodes, shuffled),
        0 <= q < shuffled.len(),
    ensures
        is_first_at(ids_along(nodes, shuffled), ids_along(nodes, shuffled)[q], q),
        exists|p: int| is_first_at(ids_along(nodes, shuffled), ids_along(nodes, shuffled)[q], p),
        (choose|p: int| is_first_at(ids_along(nodes, shuffled), ids_along(nodes, shuffled)[q], p))
            == q,
{
    let ids = ids_along(nodes, shuffled);
    assert(is_first_at(ids, ids[q], q));
    let c = choose|p: int| is_first_at(ids, ids[q], p);
    lemma_first_unique(ids, ids[q], q, c);
}

/// In every neighborhood of the shuffled list, exactly one node anchors:
/// the one at its first position.
pub proof fn lemma_anchor_unique(nodes: Seq<ClusterNode>, shuffled: Seq<usize>, fanout: int, n: int)
    requires
        fanout > 0,
        valid_order(nodes, shuffled),
        0 <= n,
        n * fanout < shuffled.len(),
    ensures
        forall|q: int|
            n * fanout <= q < shuffled.len() && q < n * fanout + fanout ==> (is_anchor(
                nodes,
                #[trigger] retransmit_peers(nodes, shuffled, fanout, ids_along(nodes, shuffled)[q]).0,
                ids_along(nodes, shuffled)[q],
            ) <==> q == n * fanout),
{
    let ids = ids_along(nodes, shuffled);
    assert forall|q: int| n * fanout <= q < shuffled.len() && q < n * fanout + fanout implies (
    is_anchor(
        nodes,
        #[trigger] retransmit_peers(nodes, shuffled, fanout, ids[q]).0,
        ids[q],
    ) <==> q == n * fanout) by {
        lemma_position_of(nodes, shuffled, q);
        assert(q / fanout == n) by (nonlinear_arith)
            requires
                n * fanout <= q < n * fanout + fanout,
                fanout > 0,
        ;
        let nb = retransmit_peers(nodes, shuffled, fanout, ids[q]).0;
        assert(nb == block(shuffled, n * fanout, fanout));
        assert(nb[0] == shuffled[n * fanout]);
        assert(ids[n * fanout] == nodes[shuffled[n * fanout] as int].id.bytes@);
    }
}

/// The local node never sends a shred to itself: an anchor's other
/// neighbors and every child are other nodes, where identities are distinct.
pub proof fn lemma_self_excluded(nodes: Seq<ClusterNode>, shuffled: Seq<usize>, fanout: int, me: Seq<u8>)
    requires
        fanout > 0,
        valid_order(nodes, shuffled),
    ensures
        ({
            let (neighbors, children) = retransmit_peers(nodes, shuffled, fanout, me);
            let targets = dispatch(neighbors, children, is_anchor(nodes, neighbors, me));
            &&& is_anchor(nodes, neighbors, me) ==> forall|k: int|
                1 <= k < neighbors.len() ==> nodes[neighbors[k] as int].id.bytes@ != me
            &&& forall|k: int| 0 <= k < children.len() ==> nodes[children[k] as int].id.bytes@ != me
            &&& forall|k: int| 0 <= k < targets.len() ==> nodes[targets[k].node as int].id.bytes@ != me
        }),
{
    let ids = ids_along(nodes, shuffled);
    let (neighbors, children) = retransmit_peers(nodes, shuffled, fanout, me);
    if exists|p: int| is_first_at(ids, me, p) {
        let p = choose|p: int| is_first_at(ids, me, p);
        let a = (p / fanout) * fanout;
        let cs = children_start(p, fanout);
        assert(0 <= a <= p < a + fanout) by (nonlinear_arith)
            requires
                a == (p / fanout) * fanout,
                fanout > 0,
                p >= 0,
        ;
        assert(cs > p) by (nonlinear_arith)
            requires
                cs == (p / fanout + 1) * fanout * fanout + (p % fanout) * fanout,
                p == (p / fanout) * fanout + p % fanout,
                0 <= p % fanout < fanout,
                p / fanout >= 0,
                fanout > 0,
        ;
        assert forall|k: int| 0 <= k < children.len() implies nodes[children[k] as int].id.bytes@
            != me by {
            assert(children[k] == shuffled[cs + k]);
            assert(ids[cs + k] != ids[p]);
        }
        if is_anchor(nodes, neighbors, me) {
            assert(neighbors[0] == shuffled[a]);
            assert(ids[a] == me);
            assert(a == p);
            assert forall|k: int| 1 <= k < neighbors.len() implies nodes[neighbors[k] as int].id.bytes@
                != me by {
                assert(neighbors[k] == shuffled[a + k]);
                assert(ids[a + k] != ids[p]);
            }
        }
    }
    let anchor = is_anchor(nodes, neighbors, me);
    let targets = dispatch(neighbors, children, anchor);
    let nn: int = if anchor && neighbors.len() > 0 {
        neighbors.len() - 1
    } else {
        0
    };
    assert forall|k: int| 0 <= k < targets.len() implies nodes[targets[k].node as int].id.bytes@
        != me by {
        if k < nn {
            assert(targets[k].node == neighbors[k + 1]);
        } else {
            assert(targets[k].node == children[k - nn]);
        }
    }
}

/// Peer selection depends on nothing but the table, the shuffled order, the
/// fanout and the local identity; the forwarders, on nothing but the table
/// and the leader.
pub proof fn lemma_peers_deterministic(
    nodes1: Seq<ClusterNode>,
    nodes2: Seq<ClusterNode>,
    leader1: Seq<u8>,
    leader2: Seq<u8>,
    shuffled1: Seq<usize>,
    shuffled2: Seq<usize>,
    fanout: int,
    me: Seq<u8>,
)
    requires
        nodes1 == nodes2,
        leader1 == leader2,
        shuffled1 == shuffled2,
    ensures
        forwarders(nodes1, leader1) == forwarders(nodes2, leader2),
        retransmit_peers(nodes1, shuffled1, fanout, me) == retransmit_peers(
            nodes2,
            shuffled2,
            fanout,
            me,
        ),
{
}

} // verus!
