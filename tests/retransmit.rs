use retransmit::first_shreds::{check_if_first_shred_received, FirstShredTracker};
use retransmit::packet_hasher::PacketHasher;
use retransmit::shred::{Shred, ShredKind};
use retransmit::shred_filter::{should_skip_retransmit, ShredFilter, DEFAULT_LRU_SIZE};
use retransmit::stats::{update_retransmit_stats, BatchStats, RetransmitStats};
use retransmit::turbine::{
    apply_shuffle, forwarder_positions, get_retransmit_peers, is_anchor_node, retransmit_targets,
    same_id, ClusterNode, PeerAddress, Pubkey, SendTarget, DATA_PLANE_FANOUT,
};
use retransmit::worker::{
    batch_is_full, maybe_reset_shreds_received_cache, on_iteration_error, rekey_due,
    BatchTotals, IterationError, WorkerAction,
};
use std::sync::atomic::{AtomicU64, Ordering};

// A data shred whose payload carries the header fields that distinguish
// shreds at one position.
fn data_shred(slot: u64, index: u32, parent_offset: u16, version: u16) -> Shred {
    let mut payload = vec![0u8; 64];
    payload[0..8].copy_from_slice(&slot.to_le_bytes());
    payload[8..12].copy_from_slice(&index.to_le_bytes());
    payload[12..14].copy_from_slice(&version.to_le_bytes());
    payload[14..16].copy_from_slice(&parent_offset.to_le_bytes());
    payload[16] = 0xa5;
    Shred::new(slot, index, ShredKind::Data, payload)
}

fn coding_shred(slot: u64, index: u32, fec_set_index: u32, version: u16) -> Shred {
    let mut payload = vec![0u8; 64];
    payload[0..8].copy_from_slice(&slot.to_le_bytes());
    payload[8..12].copy_from_slice(&index.to_le_bytes());
    payload[12..14].copy_from_slice(&version.to_le_bytes());
    payload[16..20].copy_from_slice(&fec_set_index.to_le_bytes());
    payload[20] = 0x5a;
    Shred::new(slot, index, ShredKind::Coding, payload)
}

fn filter(capacity: usize) -> ShredFilter {
    ShredFilter::new(capacity, PacketHasher::new())
}

fn node(first_byte: u8, stake: u64) -> ClusterNode {
    let mut bytes = [0u8; 32];
    bytes[0] = first_byte;
    ClusterNode { id: Pubkey { bytes }, stake }
}

#[test]
fn test_already_received() {
    let slot = 1;
    let index = 5;
    let version = 0x40;
    let shreds_received = &mut filter(100);
    let shred = data_shred(slot, index, 0, version);
    // unique shred for (1, 5) should pass
    assert!(!should_skip_retransmit(&shred, shreds_received));
    // duplicate shred for (1, 5) blocked
    assert!(should_skip_retransmit(&shred, shreds_received));

    let shred = data_shred(slot, index, 2, version);
    // first duplicate shred for (1, 5) passed
    assert!(!should_skip_retransmit(&shred, shreds_received));
    // then blocked
    assert!(should_skip_retransmit(&shred, shreds_received));

    let shred = data_shred(slot, index, 8, version);
    // 2nd duplicate shred for (1, 5) blocked
    assert!(should_skip_retransmit(&shred, shreds_received));
    assert!(should_skip_retransmit(&shred, shreds_received));

    let shred = coding_shred(slot, index, 0, version);
    // Coding at (1, 5) passes
    assert!(!should_skip_retransmit(&shred, shreds_received));
    // then blocked
    assert!(should_skip_retransmit(&shred, shreds_received));

    let shred = coding_shred(slot, index, 2, version);
    // 2nd unique coding at (1, 5) passes
    assert!(!should_skip_retransmit(&shred, shreds_received));
    // same again is blocked
    assert!(should_skip_retransmit(&shred, shreds_received));

    let shred = coding_shred(slot, index, 3, version);
    // Another unique coding at (1, 5) always blocked
    assert!(should_skip_retransmit(&shred, shreds_received));
    assert!(should_skip_retransmit(&shred, shreds_received));
}

#[test]
fn unique_then_duplicate() {
    let f = &mut filter(DEFAULT_LRU_SIZE);
    let a = Shred::new(1, 5, ShredKind::Data, b"payload A".to_vec());
    assert!(!should_skip_retransmit(&a, f));
    assert!(should_skip_retransmit(&a, f));
}

#[test]
fn two_distinct_payloads_then_third_blocked() {
    let f = &mut filter(DEFAULT_LRU_SIZE);
    let a = Shred::new(1, 5, ShredKind::Data, b"payload A".to_vec());
    let b = Shred::new(1, 5, ShredKind::Data, b"payload B".to_vec());
    let c = Shred::new(1, 5, ShredKind::Data, b"payload C".to_vec());
    assert!(!should_skip_retransmit(&a, f));
    assert!(!should_skip_retransmit(&b, f));
    assert!(should_skip_retransmit(&c, f));
}

#[test]
fn coding_and_data_keys_are_independent() {
    let f = &mut filter(DEFAULT_LRU_SIZE);
    let data = Shred::new(1, 5, ShredKind::Data, b"payload A".to_vec());
    let coding = Shred::new(1, 5, ShredKind::Coding, b"payload A".to_vec());
    assert!(!should_skip_retransmit(&data, f));
    assert!(!should_skip_retransmit(&coding, f));
}

#[test]
fn dedup_bound_holds_for_many_payloads() {
    let f = &mut filter(DEFAULT_LRU_SIZE);
    let mut forwarded = 0;
    for i in 0u8..50 {
        let s = Shred::new(7, 3, ShredKind::Data, vec![i; 32]);
        if !should_skip_retransmit(&s, f) {
            forwarded += 1;
        }
    }
    assert_eq!(forwarded, 2);
}

#[test]
fn record_skips_same_hash_and_third_hash() {
    let mut f = filter(10);
    assert!(!f.record((3, 4, true), 11));
    assert!(f.record((3, 4, true), 11));
    assert!(!f.record((3, 4, true), 12));
    assert!(f.record((3, 4, true), 13));
    assert!(f.record((3, 4, true), 12));
}

#[test]
fn evicted_position_is_forwarded_again() {
    let mut f = filter(2);
    assert!(!f.record((1, 0, true), 1));
    assert!(!f.record((2, 0, true), 1));
    assert!(!f.record((3, 0, true), 1));
    // (1, 0, true) was the least recently used and has left the cache.
    assert!(!f.record((1, 0, true), 1));
    // (3, 0, true) is still cached.
    assert!(f.record((3, 0, true), 1));
}

#[test]
fn rekey_clears_filter() {
    let mut f = filter(DEFAULT_LRU_SIZE);
    let a = Shred::new(1, 5, ShredKind::Data, b"payload A".to_vec());
    assert!(!should_skip_retransmit(&a, &mut f));
    let ts = AtomicU64::new(0);
    assert!(maybe_reset_shreds_received_cache(&mut f, &ts, 5_000));
    assert_eq!(ts.load(Ordering::Relaxed), 5_000);
    assert!(!should_skip_retransmit(&a, &mut f));
    // Within a second of the last rekey nothing happens.
    assert!(!maybe_reset_shreds_received_cache(&mut f, &ts, 5_900));
    assert!(should_skip_retransmit(&a, &mut f));
    assert!(!maybe_reset_shreds_received_cache(&mut f, &ts, 6_000));
    assert!(maybe_reset_shreds_received_cache(&mut f, &ts, 6_001));
}

#[test]
fn rekey_interval() {
    assert!(!rekey_due(1_000, 0));
    assert!(rekey_due(1_001, 0));
    assert!(!rekey_due(0, 5_000));
    assert!(!rekey_due(2_000, 1_000));
    assert!(rekey_due(2_001, 1_000));
}

#[test]
fn hasher_separates_payloads_and_seeds() {
    let h = PacketHasher::with_seeds(1, 2);
    assert_eq!(h.hash_payload(b"abc"), h.hash_payload(b"abc"));
    assert_ne!(h.hash_payload(b"abc"), h.hash_payload(b"abd"));
    let g = PacketHasher::with_seeds(3, 4);
    assert_ne!(h.hash_payload(b"abc"), g.hash_payload(b"abc"));
}

#[test]
fn not_first_after_root() {
    let mut t = FirstShredTracker::new();
    assert!(!check_if_first_shred_received(10, &mut t, 10));
    assert!(check_if_first_shred_received(11, &mut t, 10));
    assert!(!check_if_first_shred_received(11, &mut t, 10));
    assert!(!check_if_first_shred_received(3, &mut t, 10));
    assert_eq!(t.len(), 1);
}

#[test]
fn first_shred_set_is_collected_above_threshold() {
    let mut t = FirstShredTracker::new();
    for slot in 1..=100u64 {
        assert!(check_if_first_shred_received(slot, &mut t, 0));
    }
    assert_eq!(t.len(), 100);
    // The root moves to 60; the 101st slot drops every slot at or below it.
    assert!(check_if_first_shred_received(101, &mut t, 60));
    assert_eq!(t.len(), 41);
    assert!(!t.contains(60));
    assert!(t.contains(61));
    assert!(t.contains(101));
    for slot in 102..=160u64 {
        assert!(check_if_first_shred_received(slot, &mut t, 60));
    }
    assert_eq!(t.len(), 100);
    assert!(t.contains(61));
}

#[test]
fn same_id_compares_all_bytes() {
    let a = node(1, 0).id;
    let mut b = a;
    assert!(same_id(&a, &b));
    b.bytes[31] = 9;
    assert!(!same_id(&a, &b));
}

#[test]
fn forwarders_leave_out_the_leader() {
    let nodes = vec![node(1, 10), node(2, 20), node(3, 30)];
    assert_eq!(forwarder_positions(&nodes, &nodes[1].id), vec![0, 2]);
    assert_eq!(forwarder_positions(&nodes, &node(9, 0).id), vec![0, 1, 2]);
    assert_eq!(apply_shuffle(&vec![0, 2], &vec![1, 0]), Some(vec![2, 0]));
    assert_eq!(apply_shuffle(&vec![0, 2], &vec![2, 0]), None);
}

#[test]
fn anchor_forwards_to_neighbors_forward_address() {
    let me = node(1, 5);
    let other = node(2, 5);
    let leader = node(7, 100);
    let nodes = vec![me, other, leader];
    let forwarders = forwarder_positions(&nodes, &leader.id);
    assert_eq!(forwarders, vec![0, 1]);
    let shuffled = apply_shuffle(&forwarders, &vec![0, 1]).unwrap();
    let (neighbors, children) = get_retransmit_peers(&nodes, &shuffled, DATA_PLANE_FANOUT, &me.id);
    assert_eq!(neighbors, vec![0, 1]);
    assert!(children.is_empty());
    let anchor = is_anchor_node(&nodes, &neighbors, &me.id);
    assert!(anchor);
    let targets = retransmit_targets(&neighbors, &children, anchor);
    assert_eq!(targets, vec![SendTarget { node: 1, address: PeerAddress::TvuForwards }]);
    assert_eq!(targets.iter().filter(|t| t.address == PeerAddress::Tvu).count(), 0);
}

#[test]
fn non_anchor_sends_children_to_forward_address() {
    // fanout 2 over 9 nodes: position 1 is in neighborhood 0 at offset 1,
    // so its children start at 1 * 2 * 2 + 1 * 2 = 6.
    let nodes: Vec<ClusterNode> = (0u8..9).map(|i| node(i + 1, 1)).collect();
    let shuffled: Vec<usize> = (0..9).collect();
    let (neighbors, children) = get_retransmit_peers(&nodes, &shuffled, 2, &nodes[1].id);
    assert_eq!(neighbors, vec![0, 1]);
    assert_eq!(children, vec![6, 7]);
    let anchor = is_anchor_node(&nodes, &neighbors, &nodes[1].id);
    assert!(!anchor);
    let targets = retransmit_targets(&neighbors, &children, anchor);
    assert_eq!(
        targets,
        vec![
            SendTarget { node: 6, address: PeerAddress::TvuForwards },
            SendTarget { node: 7, address: PeerAddress::TvuForwards },
        ]
    );
    // The anchor of neighborhood 0 feeds 4..6 at their primary address and
    // its neighbor at its forward address.
    let (neighbors, children) = get_retransmit_peers(&nodes, &shuffled, 2, &nodes[0].id);
    assert_eq!(children, vec![4, 5]);
    let targets = retransmit_targets(&neighbors, &children, true);
    assert_eq!(
        targets,
        vec![
            SendTarget { node: 1, address: PeerAddress::TvuForwards },
            SendTarget { node: 4, address: PeerAddress::Tvu },
            SendTarget { node: 5, address: PeerAddress::Tvu },
        ]
    );
}

#[test]
fn unknown_local_node_has_no_peers() {
    let nodes = vec![node(1, 1), node(2, 1)];
    let (neighbors, children) = get_retransmit_peers(&nodes, &vec![0, 1], 200, &node(3, 0).id);
    assert!(neighbors.is_empty());
    assert!(children.is_empty());
    assert!(!is_anchor_node(&nodes, &neighbors, &node(3, 0).id));
}

#[test]
fn exactly_one_anchor_per_neighborhood() {
    let nodes: Vec<ClusterNode> = (0u8..7).map(|i| node(i + 1, 1)).collect();
    let shuffled: Vec<usize> = vec![6, 2, 4, 0, 1, 5, 3];
    let fanout = 3;
    for start in [0usize, 3, 6] {
        let mut anchors = 0;
        for q in start..(start + fanout).min(shuffled.len()) {
            let me = nodes[shuffled[q]].id;
            let (neighbors, _) = get_retransmit_peers(&nodes, &shuffled, fanout, &me);
            if is_anchor_node(&nodes, &neighbors, &me) {
                anchors += 1;
                assert_eq!(q, start);
            }
        }
        assert_eq!(anchors, 1);
    }
}

#[test]
fn local_node_never_targets_itself() {
    let nodes: Vec<ClusterNode> = (0u8..40).map(|i| node(i + 1, 1)).collect();
    let shuffled: Vec<usize> = (0..40).rev().collect();
    for q in 0..40 {
        let me = nodes[shuffled[q]].id;
        let (neighbors, children) = get_retransmit_peers(&nodes, &shuffled, 3, &me);
        let anchor = is_anchor_node(&nodes, &neighbors, &me);
        for t in retransmit_targets(&neighbors, &children, anchor) {
            assert!(!same_id(&nodes[t.node].id, &me));
        }
    }
}

#[test]
fn peer_selection_is_deterministic() {
    let nodes: Vec<ClusterNode> = (0u8..12).map(|i| node(i + 1, 1)).collect();
    let shuffled: Vec<usize> = vec![3, 1, 4, 0, 5, 9, 2, 6, 8, 7, 11, 10];
    let a = get_retransmit_peers(&nodes, &shuffled, 2, &nodes[5].id);
    let b = get_retransmit_peers(&nodes, &shuffled, 2, &nodes[5].id);
    assert_eq!(a, b);
}

#[test]
fn stats_flush_after_interval() {
    let mut stats = RetransmitStats::new(1_000);
    let batch = BatchStats {
        total_time: 10,
        num_shreds: 5,
        num_shreds_skipped: 2,
        retransmit_total: 3,
        compute_turbine_peers_total: 4,
        epoch_fetch: 1,
        epoch_cache_update: 1,
    };
    assert!(update_retransmit_stats(&mut stats, &batch, 7, 2_000).is_none());
    assert_eq!(stats.num_shreds, 5);
    assert!(update_retransmit_stats(&mut stats, &batch, 7, 3_000).is_none());
    let report = update_retransmit_stats(&mut stats, &batch, 7, 3_001).unwrap();
    assert_eq!(report.num_nodes, 7);
    assert_eq!(report.num_shreds, 15);
    assert_eq!(report.num_shreds_skipped, 6);
    assert_eq!(report.total_batches, 3);
    assert_eq!(report.total_time, 30);
    assert_eq!(report.compute_turbine, 12);
    assert_eq!(stats, RetransmitStats::new(3_001));
}

#[test]
fn stats_counters_wrap() {
    let mut stats = RetransmitStats::new(0);
    stats.num_shreds = u64::MAX;
    let batch = BatchStats {
        total_time: 0,
        num_shreds: 2,
        num_shreds_skipped: 0,
        retransmit_total: 0,
        compute_turbine_peers_total: 0,
        epoch_fetch: 0,
        epoch_cache_update: 0,
    };
    assert!(update_retransmit_stats(&mut stats, &batch, 0, 10).is_none());
    assert_eq!(stats.num_shreds, 1);
}

#[test]
fn worker_exits_when_queue_closes() {
    assert_eq!(on_iteration_error(IterationError::RecvDisconnected), WorkerAction::Exit);
    assert_eq!(on_iteration_error(IterationError::RecvTimeout), WorkerAction::Continue);
    assert_eq!(on_iteration_error(IterationError::Other), WorkerAction::CountErrorAndContinue);
}

#[test]
fn batch_limit_and_totals() {
    assert!(!batch_is_full(99));
    assert!(batch_is_full(100));
    let mut totals = BatchTotals::new();
    totals.note_skipped();
    totals.note_forwarded(9);
    totals.note_forwarded(4);
    totals.add_times(5, u64::MAX);
    totals.add_times(5, 1);
    assert_eq!(totals.num_shreds_skipped, 1);
    assert_eq!(totals.max_slot, 9);
    assert_eq!(totals.compute_turbine_peers_total, 10);
    assert_eq!(totals.retransmit_total, u64::MAX);
}
