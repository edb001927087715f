//! The per-subscription dispatcher: a cursor that walks the log in order.

use crate::errors::ReliableDispatchError;
use crate::message::{MessageView, StreamMessage};
use crate::reliable_dispatch::ReliableDispatch;
use crate::segment::{Segment, SegmentView};
use crate::storage_backend::StorageBackend;
use crate::segment_index::{index_contains, lemma_successor, successor};
use crate::topic_storage::TopicStore;
use std::sync::Arc;
use vstd::prelude::*;
use vstd::string::*;

verus! {

/// Whether a subscription that has acknowledged `acked` is done with
/// segment `id`.
pub open spec fn covers(acked: Option<usize>, id: usize) -> bool {
    acked matches Some(last) && id <= last
}

/// The dispatcher of one subscription. It holds the segment that it is
/// reading and the number of messages of that segment handed out so far.
#[derive(Debug)]
pub struct SubscriptionDispatch {
    subscription_name: String,
    segment: Option<Arc<Segment>>,
    position: usize,
    acked: Option<usize>,
}

impl SubscriptionDispatch {
    /// The subscription's name.
    pub closed spec fn name(&self) -> Seq<char> {
        self.subscription_name@
    }

    /// The segment at hand.
    pub closed spec fn held(&self) -> Option<SegmentView> {
        match self.segment {
            Some(segment) => Some(segment@),
            None => None,
        }
    }

    /// How many messages of the segment at hand have been handed out.
    pub closed spec fn position(&self) -> nat {
        self.position as nat
    }

    /// The last segment that this dispatcher has acknowledged.
    pub closed spec fn acked(&self) -> Option<usize> {
        self.acked
    }

    /// The dispatcher's validity: the position lies within the segment at
    /// hand, whose messages are duly stamped.
    pub closed spec fn wf(&self) -> bool {
        self.segment matches Some(segment) ==> {
            &&& segment.wf()
            &&& self.position <= segment@.messages.len()
            &&& segment@.is_stamped()
        }
    }

    /// What a dispatcher has acknowledged when it takes up a subscription
    /// whose cursor stands at `cursor`: the segments up to the cursor, or
    /// nothing for a cursor of zero, which is where every cursor starts.
    pub open spec fn taken_up(cursor: usize) -> Option<usize> {
        if cursor == 0 {
            None
        } else {
            Some(cursor)
        }
    }

    /// A dispatcher that has read nothing, for a subscription whose cursor
    /// stands at `last_acknowledged`. It hands out nothing of the segments up
    /// to the cursor. A cursor of zero counts as nothing acknowledged, so
    /// that a dispatcher for a subscription that has acknowledged segment 0
    /// and no more starts with segment 0 again.
    pub fn new(subscription_name: &str, last_acknowledged: usize) -> (dispatch: Self)
        ensures
            dispatch.wf(),
            dispatch.name() == subscription_name@,
            dispatch.held() is None,
            dispatch.position() == 0,
            dispatch.acked() == Self::taken_up(last_acknowledged),
    {
        SubscriptionDispatch {
            subscription_name: String::from_str(subscription_name),
            segment: None,
            position: 0,
            acked: if last_acknowledged == 0 {
                None
            } else {
                Some(last_acknowledged)
            },
        }
    }

    /// The id of the segment at hand.
    pub fn current_segment_id(&self) -> (id: Option<usize>)
        ensures
            id == (match self.held() {
                Some(segment) => Some(segment.id),
                None => None,
            }),
    {
        match &self.segment {
            Some(segment) => Some(segment.id()),
            None => None,
        }
    }

    /// The last segment that this dispatcher has acknowledged.
    pub fn last_acknowledged(&self) -> (acked: Option<usize>)
        ensures
            acked == self.acked(),
    {
        self.acked
    }

    /// Goes back before the first segment of the index. What has been
    /// acknowledged stays acknowledged and is not handed out again.
    pub fn rewind(&mut self)
        ensures
            final(self).wf(),
            final(self).name() == old(self).name(),
            final(self).acked() == old(self).acked(),
            final(self).held() is None,
            final(self).position() == 0,
    {
        self.segment = None;
        self.position = 0;
    }
    /// Whether a reader that has handed out `position` messages of `segment`
    /// is done with it: the segment is acknowledged, or it is closed and all
    /// of it has been handed out.
    pub open spec fn finished_with(segment: SegmentView, position: nat, acked: Option<usize>) -> bool {
        covers(acked, segment.id) || (segment.close_time > 0 && position == segment.messages.len())
    }

    /// Whether the dispatcher, having been `before`, was free to take up
    /// segment `to` of `store`: it was done with the segment it held, as it
    /// held it or as the store holds it now; it moved forward, unless what
    /// it held was acknowledged; and it owed nothing of any segment of the
    /// index that it passed over on the way.
    pub open spec fn left_in_order<B: StorageBackend>(
        &self,
        before: &Self,
        store: &TopicStore<B>,
        to: usize,
    ) -> bool {
        &&& before.held() matches Some(segment) ==> (segment.id < to || covers(
            self.acked(),
            segment.id,
        )) && (Self::finished_with(
            segment,
            before.position(),
            self.acked(),
        ) || (index_contains(store.index(), segment.id) && Self::finished_with(
            store.segment(segment.id),
            before.position(),
            self.acked(),
        )))
        &&& forall|k: int|
            0 <= k < store.index().len() && (#[trigger] store.index()[k]).0 < to ==> {
                ||| Self::nothing_owed(store.segment(store.index()[k].0), self.acked())
                ||| before.held() matches Some(segment) && store.index()[k].0 <= segment.id
            }
    }

    /// Whether a reader owes nothing of `segment`: the segment is
    /// acknowledged, or it is closed and holds no message.
    pub open spec fn nothing_owed(segment: SegmentView, acked: Option<usize>) -> bool {
        Self::finished_with(segment, 0, acked)
    }

    /// How the dispatcher has moved on `store` since it was `before`, apart
    /// from handing out a message. Either it stands in the segment it stood
    /// in, as it held it or as the store holds it now; or it stands at the
    /// start of another segment of the index, as the store holds it, which it
    /// was free to take up; or it has gone back before the first segment,
    /// because the segment it held was acknowledged and has left the index.
    /// `handed` tells whether a message has been handed out on top of that.
    pub open spec fn followed<B: StorageBackend>(
        &self,
        before: &Self,
        store: &TopicStore<B>,
        handed: bool,
    ) -> bool {
        let read = if handed {
            self.position() - 1
        } else {
            self.position() as int
        };
        ||| self.held() == before.held() && read == before.position()
        ||| {
            &&& before.held() matches Some(old_segment)
            &&& self.held() matches Some(segment)
            &&& segment.id == old_segment.id
            &&& index_contains(store.index(), segment.id)
            &&& segment == store.segment(segment.id)
            &&& read == before.position()
        }
        ||| {
            &&& self.held() matches Some(segment)
            &&& index_contains(store.index(), segment.id)
            &&& segment == store.segment(segment.id)
            &&& read == 0
            &&& self.left_in_order(before, store, segment.id)
        }
        ||| {
            &&& self.held() is None
            &&& read == 0
            &&& before.held() matches Some(segment)
            &&& covers(self.acked(), segment.id)
            &&& !index_contains(store.index(), segment.id)
        }
    }

    /// The message just handed out is the one at the position before the
    /// present one in the segment at hand; it carries that segment's id and
    /// that position as its offset; and the segment is not one that the
    /// dispatcher has acknowledged.
    pub open spec fn handed_out(&self, message: MessageView) -> bool {
        &&& self.held() matches Some(segment)
        &&& self.position() >= 1
        &&& message == segment.messages[self.position() - 1]
        &&& message.msg_id.segment_id == segment.id
        &&& message.msg_id.segment_offset == self.position() - 1
        &&& !covers(self.acked(), segment.id)
    }

    /// There is nothing to hand out: the index is empty, or the segment at
    /// hand is the last of the index and is acknowledged, or is held as the
    /// store holds it and read to its end.
    pub open spec fn nothing_left<B: StorageBackend>(&self, store: &TopicStore<B>) -> bool {
        match self.held() {
            None => store.index().len() == 0,
            Some(segment) => {
                &&& index_contains(store.index(), segment.id)
                &&& store.index().last().0 == segment.id
                &&& covers(self.acked(), segment.id) || (segment == store.segment(segment.id)
                    && self.position() == segment.messages.len())
            },
        }
    }

    /// Whether `segment`, of which `position` messages have been handed out,
    /// cannot be a segment of `store`: the store's segment of that id holds
    /// fewer messages than that, or is open while `segment` is closed.
    pub open spec fn at_odds<B: StorageBackend>(
        segment: SegmentView,
        position: nat,
        store: &TopicStore<B>,
    ) -> bool {
        ||| store.segment(segment.id).messages.len() < position
        ||| segment.close_time > 0 && store.segment(segment.id).close_time == 0
    }

    /// The rank of the segment at hand for the order in which the dispatcher
    /// walks the log; it falls with every step forward.
    spec fn rank(&self) -> int {
        match self.segment {
            Some(segment) => usize::MAX - segment@.id,
            None => usize::MAX + 1,
        }
    }

    /// Hands out the message at the present position of the segment at hand,
    /// where there is one.
    fn hand_out(&mut self) -> (message: Option<StreamMessage>)
        requires
            old(self).wf(),
        ensures
            final(self).wf(),
            final(self).name() == old(self).name(),
            final(self).acked() == old(self).acked(),
            final(self).held() == old(self).held(),
            match message {
                Some(message) => {
                    &&& old(self).held() matches Some(segment)
                    &&& old(self).position() < segment.messages.len()
                    &&& final(self).position() == old(self).position() + 1
                    &&& message@ == segment.messages[old(self).position() as int]
                    &&& message@.msg_id.segment_id == segment.id
                    &&& message@.msg_id.segment_offset == old(self).position()
                },
                None => {
                    &&& final(self).position() == old(self).position()
                    &&& old(self).held() matches Some(segment) ==> old(self).position()
                        == segment.messages.len()
                },
            },
    {
        match &self.segment {
            Some(segment) => {
                if self.position < segment.len() {
                    let message = segment.message(self.position).clone();
                    self.position = self.position + 1;
                    Some(message)
                } else {
                    None
                }
            },
            None => None,
        }
    }

    /// The next message of the log of `store` for this subscription, or
    /// nothing where there is none to hand out now.
    ///
    /// While the segment at hand has a message left, that message is handed
    /// out. An open segment read to its end is looked up again, for what has
    /// been appended since. A segment that is closed and read to its end, or
    /// acknowledged, is left for the next segment of the index that the
    /// subscription has not acknowledged. Where the segment at hand has left
    /// the index, the dispatcher starts again at the first segment of the
    /// index if it had acknowledged the segment; if it had not, messages are
    /// lost, the read fails with `SegmentNotFound`, and the caller may
    /// rewind.
    pub fn next_from<B: StorageBackend>(&mut self, store: &mut TopicStore<B>) -> (result: Result<
        Option<StreamMessage>,
        ReliableDispatchError,
    >)
        requires
            old(self).wf(),
            old(store).wf(),
        ensures
            final(self).wf(),
            final(store).wf(),
            final(store).same_setup(old(store)),
            final(store).log() == old(store).log(),
            final(store).cache().backend() == old(store).cache().backend(),
            final(self).name() == old(self).name(),
            final(self).acked() == old(self).acked(),
            final(self).followed(old(self), old(store), result matches Ok(Some(_))),
            match result {
                Ok(Some(message)) => final(self).handed_out(message@),
                Ok(None) => final(self).nothing_left(old(store)),
                Err(ReliableDispatchError::StorageError(_)) => !old(store).cache().reliable() && old(store).cache().failed_with(result->Err_0),
                Err(ReliableDispatchError::SegmentNotFound(id)) => {
                    &&& final(self).held() matches Some(segment)
                    &&& segment.id == id
                    &&& !index_contains(old(store).index(), id)
                    &&& !covers(final(self).acked(), id)
                },
                Err(ReliableDispatchError::InvariantViolation(_)) => {
                    &&& old(self).held() matches Some(segment)
                    &&& index_contains(old(store).index(), segment.id)
                    &&& Self::at_odds(segment, old(self).position(), old(store))
                },
                Err(_) => false,
            },
    {
        let mut refreshed = false;
        let mut rewound = false;
        loop
            invariant
                self.wf(),
                store.wf(),
                old(store).wf(),
                store.same_setup(old(store)),
                store.log() == old(store).log(),
                store.cache().backend() == old(store).cache().backend(),
                self.name() == old(self).name(),
                self.acked() == old(self).acked(),
                self.followed(old(self), old(store), false),
                refreshed ==> (self.held() matches Some(segment) && index_contains(
                    store.index(),
                    segment.id,
                ) && segment == store.segment(segment.id)),
                !refreshed && !rewound ==> self.held() == old(self).held() && self.position()
                    == old(self).position(),
                !refreshed && rewound ==> self.held() is None,
                forall|id: usize| store.segment(id) == old(store).segment(id),
            decreases (if rewound { 0int } else { 1int }), self.rank(), (if refreshed { 0int } else { 1int }),
        {
            let ghost here = *self;
            let (cursor, closed): (Option<usize>, bool) = match &self.segment {
                Some(segment) => (Some(segment.id()), segment.close_time() > 0),
                None => (None, false),
            };
            let acknowledged = match (cursor, self.acked) {
                (Some(id), Some(last)) => id <= last,
                _ => false,
            };
            if cursor.is_some() && !acknowledged {
                if let Some(message) = self.hand_out() {
                    return Ok(Some(message));
                }
            }
            if cursor.is_some() && !acknowledged && !closed {
                // an open segment read to its end
                let id: usize = cursor.unwrap();
                if refreshed {
                    proof {
                        store.lemma_indexed_segment(id);
                    }
                    return Ok(None);
                }
                match store.read_segment(id) {
                    Err(error) => {
                        return Err(error);
                    },
                    Ok(None) => {
                        return Err(ReliableDispatchError::SegmentNotFound(id));
                    },
                    Ok(Some(segment)) => {
                        proof {
                            old(store).lemma_indexed_segment(id);
                        }
                        if segment.len() < self.position {
                            return Err(
                                ReliableDispatchError::InvariantViolation(
                                    String::from_str("the log holds less than was read"),
                                ),
                            );
                        }
                        self.segment = Some(segment);
                        refreshed = true;
                    },
                }
            } else {
                // nothing at hand, or done with what is at hand
                match store.get_next_segment(cursor) {
                    Err(error) => {
                        return Err(error);
                    },
                    Ok(None) => {
                        proof {
                            lemma_successor(old(store).index(), cursor);
                        }
                        let id: usize = match cursor {
                            Some(id) => id,
                            None => {
                                return Ok(None);
                            },
                        };
                        let known = match store.contains_segment(id) {
                            Ok(known) => known,
                            Err(error) => {
                                return Err(error);
                            },
                        };
                        if known {
                            if acknowledged {
                                return Ok(None);
                            }
                            // closed at hand, yet the last of the index, which is open
                            proof {
                                old(store).lemma_indexed_segment(id);
                            }
                            return Err(
                                ReliableDispatchError::InvariantViolation(
                                    String::from_str("the segment at hand is not the log's"),
                                ),
                            );
                        }
                        if !acknowledged || rewound {
                            return Err(ReliableDispatchError::SegmentNotFound(id));
                        }
                        // what was acknowledged has been reclaimed: start again
                        self.segment = None;
                        self.position = 0;
                        refreshed = false;
                        rewound = true;
                    },
                    Ok(Some(segment)) => {
                        let ghost next = successor(old(store).index(), cursor)->Some_0;
                        proof {
                            lemma_successor(old(store).index(), cursor);
                            old(store).lemma_indexed_segment(next);
                        }
                        self.segment = Some(segment);
                        self.position = 0;
                        refreshed = true;
                        proof {
                            let index = old(store).index();
                            let before = old(self);
                            assert(self.held() == Some(old(store).segment(next)));
                            assert forall|k: int|
                                0 <= k < index.len() && (#[trigger] index[k]).0 < next implies {
                                ||| Self::nothing_owed(old(store).segment(index[k].0), self.acked())
                                ||| before.held() matches Some(segment) && index[k].0
                                    <= segment.id
                            } by {
                                let passed = index[k].0;
                                assert(cursor matches Some(id) && passed <= id);
                                let same_segment = before.held() matches Some(segment)
                                    && segment.id == cursor->Some_0;
                                if passed == cursor->Some_0 && !same_segment {
                                    assert(here.position() == 0);
                                    assert(here.held() == Some(old(store).segment(passed)));
                                }
                            }
                            assert(self.left_in_order(before, old(store), next));
                        }
                    },
                }
            }
        }
    }

    /// The next message of `topic` for this subscription; see
    /// [`SubscriptionDispatch::next_from`]. Fails once the topic is shut
    /// down.
    pub fn next_message<B: StorageBackend>(&mut self, topic: &mut ReliableDispatch<B>) -> (result:
        Result<Option<StreamMessage>, ReliableDispatchError>)
        requires
            old(self).wf(),
            old(topic).wf(),
        ensures
            final(self).wf(),
            final(topic).wf(),
            final(topic).same_but_store(old(topic)),
            final(topic).store().same_setup(&old(topic).store()),
            final(topic).store().log() == old(topic).store().log(),
            final(topic).store().cache().backend() == old(topic).store().cache().backend(),
            final(self).name() == old(self).name(),
            final(self).acked() == old(self).acked(),
            final(self).followed(old(self), &old(topic).store(), result matches Ok(Some(_))),
            match result {
                Ok(Some(message)) => final(self).handed_out(message@),
                Ok(None) => final(self).nothing_left(&old(topic).store()),
                Err(ReliableDispatchError::ShuttingDown) => old(topic).stopped(),
                Err(ReliableDispatchError::StorageError(_)) => !old(topic).store().cache().reliable()
                    && old(topic).store().cache().failed_with(result->Err_0),
                Err(ReliableDispatchError::SegmentNotFound(id)) => {
                    &&& final(self).held() matches Some(segment)
                    &&& segment.id == id
                    &&& !index_contains(old(topic).store().index(), id)
                    &&& !covers(final(self).acked(), id)
                },
                Err(ReliableDispatchError::InvariantViolation(_)) => {
                    &&& old(self).held() matches Some(segment)
                    &&& index_contains(old(topic).store().index(), segment.id)
                    &&& Self::at_odds(segment, old(self).position(), &old(topic).store())
                },
                Err(_) => false,
            },
            old(topic).stopped() ==> result matches Err(ReliableDispatchError::ShuttingDown),
    {
        if topic.is_shut_down() {
            return Err(ReliableDispatchError::ShuttingDown);
        }
        let store = topic.topic_store_mut();
        self.next_from(store)
    }

    /// What a dispatcher that had acknowledged `acked` has acknowledged
    /// after it acknowledges segment `id`.
    pub open spec fn raised(acked: Option<usize>, id: usize) -> Option<usize> {
        match acked {
            Some(last) => if last < id {
                Some(id)
            } else {
                Some(last)
            },
            None => Some(id),
        }
    }

    /// Acknowledges segment `segment_id`, and every earlier one with it: the
    /// subscription's cursor in `topic` moves up to that id, and the
    /// dispatcher hands out no message of those segments from now on.
    pub fn acknowledge<B: StorageBackend>(
        &mut self,
        topic: &mut ReliableDispatch<B>,
        segment_id: usize,
    ) -> (result: Result<(), ReliableDispatchError>)
        requires
            old(self).wf(),
        ensures
            final(self).wf(),
            final(self).name() == old(self).name(),
            final(self).held() == old(self).held(),
            final(self).position() == old(self).position(),
            final(topic).store() == old(topic).store(),
            final(topic).policy() == old(topic).policy(),
            final(topic).stopped() == old(topic).stopped(),
            match result {
                Ok(_) => {
                    &&& !old(topic).stopped()
                    &&& old(topic).cursors().contains_key(old(self).name())
                    &&& final(topic).cursors() == (if old(topic).cursors()[old(self).name()]
                        < segment_id {
                        old(topic).cursors().insert(old(self).name(), segment_id)
                    } else {
                        old(topic).cursors()
                    })
                    &&& final(self).acked() == Self::raised(old(self).acked(), segment_id)
                },
                Err(ReliableDispatchError::ShuttingDown) => old(topic).stopped() && final(topic).cursors() == old(topic).cursors() && final(self).acked() == old(self).acked(),
                Err(ReliableDispatchError::SubscriptionNotFound(_)) => !old(topic).stopped()
                    && !old(topic).cursors().contains_key(old(self).name()) && final(topic).cursors() == old(topic).cursors() && final(self).acked() == old(self).acked(),
                Err(_) => false,
            },
    {
        match topic.acknowledge(self.subscription_name.as_str(), segment_id) {
            Ok(_) => {
                self.acked = match self.acked {
                    Some(last) => if last < segment_id {
                        Some(segment_id)
                    } else {
                        Some(last)
                    },
                    None => Some(segment_id),
                };
                Ok(())
            },
            Err(error) => Err(error),
        }
    }
}

/// What a dispatcher has acknowledged stays acknowledged when it
/// acknowledges more.
pub proof fn lemma_acknowledged_stays_covered(acked: Option<usize>, segment_id: usize, id: usize)
    ensures
        covers(acked, id) ==> covers(SubscriptionDispatch::raised(acked, segment_id), id),
        covers(SubscriptionDispatch::raised(acked, segment_id), segment_id),
{
}

} // verus!
