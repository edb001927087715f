//! Reliable message dispatch for a topic-based publish/subscribe broker.
//!
//! A topic's messages are kept in a log of size-bounded segments. Producers
//! append to the single writable segment; a full segment is closed, written
//! through to a storage backend and followed by a fresh one. Subscriptions
//! read the log in order through a cursor, and a periodic lifecycle step
//! reclaims closed segments under one of two retention policies.
//!
//! The library is sequential: every operation takes the topic by reference
//! and runs to its end. Sharing a topic between tasks, reading the clock and
//! pacing the lifecycle steps are left to the caller.

pub mod broker_register;
pub mod client;
pub mod dispatch;
pub mod errors;
pub mod laws;
pub mod message;
pub mod options;
pub mod produce;
pub mod reliable_dispatch;
pub mod segment;
pub mod segment_index;
pub mod segment_key;
pub mod storage_backend;
pub mod subscriptions;
pub mod topic_cache;
pub mod topic_storage;

pub use dispatch::SubscriptionDispatch;
pub use errors::ReliableDispatchError;
pub use message::{MessageID, MessageView, StreamMessage};
pub use reliable_dispatch::ReliableDispatch;
pub use segment::{Segment, SegmentView};
pub use topic_cache::TopicCache;
