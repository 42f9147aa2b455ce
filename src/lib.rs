//! Retransmit core of a validator's block-propagation layer: the shred
//! deduplication filter, the first-shred-per-slot tracker, the turbine peer
//! selection and the bookkeeping of the retransmit workers.

pub mod cluster_nodes;
pub mod first_shreds;
pub mod lru_cache;
pub mod packet_hasher;
pub mod shred;
pub mod shred_filter;
pub mod stats;
pub mod turbine;
pub mod worker;
