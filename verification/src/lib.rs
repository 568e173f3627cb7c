//! A topic-based publish/subscribe broker core.
//!
//! The crate holds the broker's decisions: the wire framing, the topic
//! registry, subscriber fan-out, the per-connection session state and the
//! request dispatcher. Sockets, locks and queues live with the caller, which
//! hands events in and carries the returned deliveries out.
//!
//! Two protocols are served. The binary one frames serialized transactions
//! ([`codec`]) and is dispatched by [`server`] over [`state`], [`topic`] and
//! [`peer`]; [`invariants`] holds what is true of every run. The line
//! protocol is parsed by [`decoder`], written by [`encoder`] and served by
//! [`manager`], with payloads kept in pooled buffers ([`bufpool`]).

pub mod bufpool;
pub mod client;
pub mod codec;
pub mod decoder;
pub mod directory;
pub mod encoder;
pub mod errors;
pub mod invariants;
pub mod manager;
pub mod peer;
pub mod protocol;
pub mod sequences;
pub mod server;
pub mod state;
pub mod topic;
