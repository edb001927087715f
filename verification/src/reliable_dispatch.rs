//! The per-topic façade: one store, the subscriptions with their cursors,
//! and the lifecycle step that enforces the retention policy.

use crate::dispatch::SubscriptionDispatch;
use crate::errors::ReliableDispatchError;
use crate::message::StreamMessage;
use crate::options::{ReliableOptions, RetentionPolicy};
use crate::storage_backend::StorageBackend;
use crate::subscriptions::{is_least_cursor, Subscriptions};
use crate::topic_cache::TopicCache;
use crate::segment_index::ReclaimRule;
use crate::topic_storage::TopicStore;
use vstd::prelude::*;
use vstd::string::*;

verus! {

/// What wakes the lifecycle task.
#[derive(Clone, Copy, Debug)]
pub enum LifecycleEvent {
    /// The interval has elapsed; `now` is the time in seconds since the
    /// epoch.
    Tick { now: u64 },
    /// The topic is being shut down.
    Shutdown,
}

/// What the lifecycle task does after a step.
#[derive(Debug)]
pub enum LifecycleAction {
    /// Wait for the next event. `reclaimed` holds the ids of the segments
    /// that the step has reclaimed.
    Continue { reclaimed: Vec<usize> },
    /// End the task.
    Stop,
}

/// Reliable dispatch for one topic.
#[derive(Debug)]
pub struct ReliableDispatch<B: StorageBackend> {
    topic_store: TopicStore<B>,
    subscriptions: Subscriptions,
    retention_policy: RetentionPolicy,
    shut_down: bool,
}

impl<B: StorageBackend> ReliableDispatch<B> {
    /// The topic's store.
    pub closed spec fn store(&self) -> TopicStore<B> {
        self.topic_store
    }

    /// The cursor of each subscription, by name.
    pub closed spec fn cursors(&self) -> Map<Seq<char>, usize> {
        self.subscriptions@
    }

    /// The retention policy.
    pub closed spec fn policy(&self) -> RetentionPolicy {
        self.retention_policy
    }

    /// Whether the topic has been shut down.
    pub closed spec fn stopped(&self) -> bool {
        self.shut_down
    }

    /// The topic's validity: that of its store.
    pub open spec fn wf(&self) -> bool {
        self.store().wf()
    }

    /// Everything but the store is as in `other`.
    pub open spec fn same_but_store(&self, other: &Self) -> bool {
        &&& self.cursors() == other.cursors()
        &&& self.policy() == other.policy()
        &&& self.stopped() == other.stopped()
    }

    /// Reliable dispatch for `topic_name` over `topic_cache`, with no
    /// segment and no subscription yet.
    pub fn new(topic_name: &str, reliable_options: ReliableOptions, topic_cache: TopicCache<B>) -> (topic:
        Self)
        requires
            topic_cache.wf(),
            reliable_options.segment_size_bytes() <= usize::MAX,
        ensures
            topic.wf(),
            topic.store().topic() == topic_name@,
            topic.store().cache() == topic_cache,
            topic.store().index() == Seq::<(usize, u64)>::empty(),
            topic.store().segment_size() == reliable_options.segment_size_bytes(),
            topic.store().retention_period() == reliable_options.retention_period,
            topic.store().current_id() == 0,
            topic.store().writable() is None,
            topic.cursors() == Map::<Seq<char>, usize>::empty(),
            topic.policy() == reliable_options.retention_policy,
            !topic.stopped(),
    {
        let retention_policy = reliable_options.retention_policy;
        let topic_store = TopicStore::new(topic_name, topic_cache, reliable_options);
        ReliableDispatch {
            topic_store,
            subscriptions: Subscriptions::new(),
            retention_policy,
            shut_down: false,
        }
    }

    /// The topic's store, to look at.
    pub fn topic_store(&self) -> (store: &TopicStore<B>)
        ensures
            *store == self.store(),
    {
        &self.topic_store
    }

    /// The topic's store, for a dispatcher to read through.
    pub(crate) fn topic_store_mut(&mut self) -> (store: &mut TopicStore<B>)
        ensures
            *store == old(self).store(),
            final(self).store() == *final(store),
            final(self).same_but_store(old(self)),
    {
        &mut self.topic_store
    }

    /// The retention policy.
    pub fn retention_policy(&self) -> (policy: RetentionPolicy)
        ensures
            policy == self.policy(),
    {
        self.retention_policy
    }

    /// Whether the topic has been shut down.
    pub fn is_shut_down(&self) -> (stopped: bool)
        ensures
            stopped == self.stopped(),
    {
        self.shut_down
    }

    /// Shuts the topic down: every later operation fails, and the lifecycle
    /// task ends at its next step.
    pub fn shutdown(&mut self)
        ensures
            final(self).stopped(),
            final(self).store() == old(self).store(),
            final(self).cursors() == old(self).cursors(),
            final(self).policy() == old(self).policy(),
    {
        self.shut_down = true;
    }

    /// Stores `message` at time `now`, in seconds since the epoch.
    pub fn store_message(&mut self, message: StreamMessage, now: u64) -> (result: Result<
        (),
        ReliableDispatchError,
    >)
        requires
            old(self).wf(),
        ensures
            final(self).wf(),
            final(self).same_but_store(old(self)),
            if old(self).stopped() {
                result matches Err(error) && error is ShuttingDown && final(self).store() == old(self).store()
            } else {
                final(self).store().message_stored(&old(self).store(), message@, now, result)
            },
    {
        if self.shut_down {
            return Err(ReliableDispatchError::ShuttingDown);
        }
        self.topic_store.store_message(message, now)
    }

    /// Adds the subscription `subscription_name` with a cursor of zero. A
    /// subscription that exists keeps its cursor.
    pub fn add_subscription(&mut self, subscription_name: &str) -> (result: Result<
        (),
        ReliableDispatchError,
    >)
        ensures
            final(self).store() == old(self).store(),
            final(self).policy() == old(self).policy(),
            final(self).stopped() == old(self).stopped(),
            if old(self).stopped() {
                result matches Err(error) && error is ShuttingDown && final(self).cursors() == old(self).cursors()
            } else {
                result is Ok && final(self).cursors() == (if old(self).cursors().contains_key(
                    subscription_name@,
                ) {
                    old(self).cursors()
                } else {
                    old(self).cursors().insert(subscription_name@, 0)
                })
            },
    {
        if self.shut_down {
            return Err(ReliableDispatchError::ShuttingDown);
        }
        self.subscriptions.add(subscription_name);
        Ok(())
    }

    /// The cursor of `subscription_name`: the id of the last segment that
    /// the subscription has acknowledged.
    pub fn get_last_acknowledged_segment(&self, subscription_name: &str) -> (result: Result<
        usize,
        ReliableDispatchError,
    >)
        ensures
            match result {
                Ok(cursor) => !self.stopped() && self.cursors().contains_key(subscription_name@)
                    && cursor == self.cursors()[subscription_name@],
                Err(ReliableDispatchError::ShuttingDown) => self.stopped(),
                Err(ReliableDispatchError::SubscriptionNotFound(name)) => !self.stopped()
                    && !self.cursors().contains_key(subscription_name@) && name@
                    == subscription_name@,
                Err(_) => false,
            },
    {
        if self.shut_down {
            return Err(ReliableDispatchError::ShuttingDown);
        }
        match self.subscriptions.cursor(subscription_name) {
            Some(cursor) => Ok(cursor),
            None => Err(
                ReliableDispatchError::SubscriptionNotFound(String::from_str(subscription_name)),
            ),
        }
    }

    /// A dispatcher for `subscription_name`, which must have been added. It
    /// starts before the first segment of the index, bound to the
    /// subscription's cursor: what the subscription has acknowledged, the
    /// dispatcher does not hand out.
    pub fn new_subscription_dispatch(&self, subscription_name: &str) -> (result: Result<
        SubscriptionDispatch,
        ReliableDispatchError,
    >)
        ensures
            match result {
                Ok(dispatch) => {
                    &&& !self.stopped()
                    &&& self.cursors().contains_key(subscription_name@)
                    &&& dispatch.wf()
                    &&& dispatch.name() == subscription_name@
                    &&& dispatch.held() is None
                    &&& dispatch.position() == 0
                    &&& dispatch.acked() == SubscriptionDispatch::taken_up(
                        self.cursors()[subscription_name@],
                    )
                },
                Err(ReliableDispatchError::ShuttingDown) => self.stopped(),
                Err(ReliableDispatchError::SubscriptionNotFound(name)) => !self.stopped()
                    && !self.cursors().contains_key(subscription_name@) && name@
                    == subscription_name@,
                Err(_) => false,
            },
    {
        match self.get_last_acknowledged_segment(subscription_name) {
            Ok(cursor) => Ok(SubscriptionDispatch::new(subscription_name, cursor)),
            Err(error) => Err(error),
        }
    }

    /// Records that `subscription_name` has acknowledged segment
    /// `segment_id`: its cursor moves up to that id and never back.
    pub fn acknowledge(&mut self, subscription_name: &str, segment_id: usize) -> (result: Result<
        (),
        ReliableDispatchError,
    >)
        ensures
            final(self).store() == old(self).store(),
            final(self).policy() == old(self).policy(),
            final(self).stopped() == old(self).stopped(),
            match result {
                Ok(_) => !old(self).stopped() && old(self).cursors().contains_key(
                    subscription_name@,
                ) && final(self).cursors() == (if old(self).cursors()[subscription_name@]
                    < segment_id {
                    old(self).cursors().insert(subscription_name@, segment_id)
                } else {
                    old(self).cursors()
                }),
                Err(ReliableDispatchError::ShuttingDown) => old(self).stopped() && final(self).cursors() == old(self).cursors(),
                Err(ReliableDispatchError::SubscriptionNotFound(name)) => !old(self).stopped()
                    && !old(self).cursors().contains_key(subscription_name@) && name@
                    == subscription_name@ && final(self).cursors() == old(self).cursors(),
                Err(_) => false,
            },
    {
        if self.shut_down {
            return Err(ReliableDispatchError::ShuttingDown);
        }
        if self.subscriptions.acknowledge(subscription_name, segment_id) {
            Ok(())
        } else {
            Err(ReliableDispatchError::SubscriptionNotFound(String::from_str(subscription_name)))
        }
    }

    /// What a tick at `now` has done when it has led from `before` to `self`
    /// and reclaimed the segments `reclaimed`: a reclamation under the
    /// retention policy. Under [`RetentionPolicy::RetainUntilAck`] the rule
    /// is that of the least id that the subscriptions have acknowledged.
    pub open spec fn ticked(&self, before: &Self, now: u64, reclaimed: Seq<usize>) -> bool {
        match before.policy() {
            RetentionPolicy::RetainUntilAck => exists|least: usize|
                is_least_cursor(before.cursors().values(), least) && #[trigger] self.store().reclaimed(
                    &before.store(),
                    reclaimed,
                    ReclaimRule::Acknowledged { min_acknowledged_id: least },
                ),
            RetentionPolicy::RetainUntilExpire => self.store().reclaimed(
                &before.store(),
                reclaimed,
                ReclaimRule::Expired { now },
            ),
        }
    }

    /// One step of the lifecycle task. A shutdown event shuts the topic
    /// down and ends the task, and so does any event after a shutdown. A
    /// tick reclaims segments under the retention policy: the closed
    /// segments that every subscription has acknowledged, or those that have
    /// outlived the retention period at `now`.
    pub fn lifecycle_step(&mut self, event: LifecycleEvent) -> (action: LifecycleAction)
        requires
            old(self).wf(),
        ensures
            final(self).wf(),
            final(self).cursors() == old(self).cursors(),
            final(self).policy() == old(self).policy(),
            match action {
                LifecycleAction::Stop => final(self).stopped() && (old(self).stopped()
                    || event is Shutdown) && final(self).store() == old(self).store(),
                LifecycleAction::Continue { reclaimed } => {
                    &&& !old(self).stopped()
                    &&& !final(self).stopped()
                    &&& event matches LifecycleEvent::Tick { now }
                    &&& final(self).ticked(old(self), now, reclaimed@)
                },
            },
    {
        match event {
            LifecycleEvent::Shutdown => {
                self.shut_down = true;
                LifecycleAction::Stop
            },
            LifecycleEvent::Tick { now } => {
                if self.shut_down {
                    return LifecycleAction::Stop;
                }
                let reclaimed = match self.retention_policy {
                    RetentionPolicy::RetainUntilAck => self.topic_store.cleanup_acknowledged_segments(
                        &self.subscriptions,
                    ),
                    RetentionPolicy::RetainUntilExpire => self.topic_store.cleanup_expired_segments(
                        now,
                    ),
                };
                LifecycleAction::Continue { reclaimed }
            },
        }
    }
}

} // verus!
