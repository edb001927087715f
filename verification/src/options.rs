//! The options of reliable dispatch.

use vstd::prelude::*;

verus! {

/// How long closed segments are kept.
#[derive(Clone, Copy, Debug, PartialEq, Eq, Structural)]
pub enum RetentionPolicy {
    /// A closed segment is kept until every subscription has acknowledged
    /// it.
    RetainUntilAck,
    /// A closed segment is kept for the retention period, whatever the
    /// subscriptions have consumed.
    RetainUntilExpire,
}

/// The number of bytes in a megabyte.
pub const BYTES_PER_MB: usize = 1_048_576;

/// The options that a topic with reliable dispatch is made with.
#[derive(Clone, Copy, Debug)]
pub struct ReliableOptions {
    /// The size at which a segment is closed, in megabytes.
    pub segment_size: usize,
    pub retention_policy: RetentionPolicy,
    /// The retention period in seconds; read under
    /// [`RetentionPolicy::RetainUntilExpire`] only.
    pub retention_period: u64,
}

impl ReliableOptions {
    /// The segment size in bytes.
    pub open spec fn segment_size_bytes(&self) -> int {
        self.segment_size * BYTES_PER_MB
    }

    pub fn new(segment_size: usize, retention_policy: RetentionPolicy, retention_period: u64) -> (options:
        Self)
        ensures
            options.segment_size == segment_size,
            options.retention_policy == retention_policy,
            options.retention_period == retention_period,
    {
        ReliableOptions { segment_size, retention_policy, retention_period }
    }
}

} // verus!
