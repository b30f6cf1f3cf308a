//! An in-memory directed graph store.
//!
//! Nodes are owned by the store and named from outside by [`Handle`]s. A
//! handle resolves while its node is live; once the node is evicted every
//! handle to it is stale for good, and re-inserting the same key creates a
//! new identity. Each node keeps its incoming and outgoing adjacency lists and
//! a bounded, most-recent-first log of the structural events that touched it.
mod edges;
mod graph;
mod laws;
mod log;
mod node;

pub use edges::{Edges, EdgesView};
pub use graph::{DaggerMapGraph, DagreProtocol, GraphView, NodeView};
pub use laws::{
    lemma_evict_cleans_neighbours, lemma_evict_shrinks, lemma_link_adds_one_edge,
    lemma_reinsert_is_new_identity, lemma_self_loop, lemma_unlink_removes_one_edge,
    lemma_upsert_idempotent,
};
pub use log::{
    event_text, lemma_newest_first, log_text, logged, DagreEvent, DagreRingLog, EventLogWriter,
    NopEventLogWriter, LOG_CAPACITY,
};
pub use node::{DagreNode, Handle, NodeLike};
