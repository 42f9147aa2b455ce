use retransmit::cluster_nodes::{
    rank_before, rank_nodes, ClusterNodesCache, CLUSTER_NODES_CACHE_NUM_EPOCH_CAP,
    CLUSTER_NODES_CACHE_TTL_MS,
};
use retransmit::turbine::{ClusterNode, Pubkey};
use std::sync::Arc;

fn node(first_byte: u8, last_byte: u8, stake: u64) -> ClusterNode {
    let mut bytes = [0u8; 32];
    bytes[0] = first_byte;
    bytes[31] = last_byte;
    ClusterNode { id: Pubkey { bytes }, stake }
}

fn table(n: u8) -> Arc<Vec<ClusterNode>> {
    Arc::new((0..n).map(|i| node(i, 0, 1)).collect())
}

#[test]
fn cached_table_is_fresh_for_ttl() {
    let mut cache = ClusterNodesCache::new(CLUSTER_NODES_CACHE_NUM_EPOCH_CAP);
    assert!(cache.get_fresh(3, 0).is_none());
    cache.insert(3, 1_000, table(4));
    let t = cache.get_fresh(3, 1_000 + CLUSTER_NODES_CACHE_TTL_MS).unwrap();
    assert_eq!(t.len(), 4);
    assert!(cache.get_fresh(3, 1_001 + CLUSTER_NODES_CACHE_TTL_MS).is_none());
    // A table made again replaces the stale one.
    cache.insert(3, 7_000, table(5));
    assert_eq!(cache.get_fresh(3, 7_000).unwrap().len(), 5);
    assert!(cache.get_fresh(4, 7_000).is_none());
}

#[test]
fn cache_keeps_most_recent_epochs() {
    let mut cache = ClusterNodesCache::new(CLUSTER_NODES_CACHE_NUM_EPOCH_CAP);
    for epoch in 0..8u64 {
        cache.insert(epoch, 0, table(epoch as u8 + 1));
    }
    // Touch epoch 0 so that epoch 1 is the least recently used.
    assert!(cache.get_fresh(0, 0).is_some());
    cache.insert(8, 0, table(9));
    assert!(cache.get_fresh(1, 0).is_none());
    assert!(cache.get_fresh(0, 0).is_some());
    assert_eq!(cache.get_fresh(8, 0).unwrap().len(), 9);
}

#[test]
fn nodes_rank_by_stake_then_id() {
    let a = node(1, 0, 5);
    let b = node(2, 0, 10);
    let c = node(3, 0, 5);
    let d = node(1, 7, 5);
    let ranked = rank_nodes(&vec![a, b, c, d]);
    let order: Vec<(u8, u8, u64)> =
        ranked.iter().map(|n| (n.id.bytes[0], n.id.bytes[31], n.stake)).collect();
    assert_eq!(order, vec![(2, 0, 10), (3, 0, 5), (1, 7, 5), (1, 0, 5)]);
    assert!(rank_before(&b, &a));
    assert!(rank_before(&d, &a));
    assert!(!rank_before(&a, &a));
    assert!(rank_nodes(&vec![]).is_empty());
}
