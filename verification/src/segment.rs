//! A segment: an append-only, size-bounded batch of messages.

use crate::errors::ReliableDispatchError;
use crate::message::{MessageView, StreamMessage};
use vstd::prelude::*;
use vstd::string::*;

verus! {

/// The sum of the sizes of the messages in `messages`.
pub open spec fn total_size(messages: Seq<MessageView>) -> nat
    decreases messages.len(),
{
    if messages.len() == 0 {
        0
    } else {
        total_size(messages.drop_last()) + messages.last().size()
    }
}

/// The mathematical value of a [`Segment`].
pub struct SegmentView {
    pub id: usize,
    pub close_time: u64,
    pub messages: Seq<MessageView>,
}

impl SegmentView {
    /// A segment is open, that is writable, while its close time is zero.
    pub open spec fn is_open(self) -> bool {
        self.close_time == 0
    }

    /// The accumulated size of the segment in payload bytes.
    pub open spec fn size(self) -> nat {
        total_size(self.messages)
    }

    /// Every message carries this segment's id and its own position in the
    /// segment as its offset.
    pub open spec fn is_stamped(self) -> bool {
        forall|k: int|
            0 <= k < self.messages.len() ==> {
                &&& (#[trigger] self.messages[k]).msg_id.segment_id == self.id
                &&& self.messages[k].msg_id.segment_offset == k
            }
    }

    /// The segment never grew past `limit` by more than its last message:
    /// it was below the limit when that message was appended.
    pub open spec fn size_bounded(self, limit: nat) -> bool {
        self.messages.len() == 0 || self.size() <= limit + self.messages.last().size()
    }

    /// The segment after `message` has been appended.
    pub open spec fn appended(self, message: MessageView) -> SegmentView {
        SegmentView { id: self.id, close_time: self.close_time, messages: self.messages.push(message) }
    }

    /// The segment after it has been closed at `time`. Closing a segment that
    /// is closed already changes nothing.
    pub open spec fn closed_at(self, time: u64) -> SegmentView {
        if self.close_time == 0 {
            SegmentView { id: self.id, close_time: time, messages: self.messages }
        } else {
            self
        }
    }
}

/// A contiguous chunk of a topic's log.
#[derive(Debug)]
pub struct Segment {
    id: usize,
    close_time: u64,
    messages: Vec<StreamMessage>,
    current_size: usize,
    next_offset: u64,
}

impl View for Segment {
    type V = SegmentView;

    closed spec fn view(&self) -> SegmentView {
        SegmentView {
            id: self.id,
            close_time: self.close_time,
            messages: self.messages@.map_values(|m: StreamMessage| m@),
        }
    }
}

impl Segment {
    /// The running counters agree with the messages held.
    pub closed spec fn wf(&self) -> bool {
        &&& self.current_size == total_size(self@.messages)
        &&& self.next_offset == self.messages@.len()
    }

    /// An empty, open segment.
    pub fn new(id: usize) -> (segment: Self)
        ensures
            segment.wf(),
            segment@ == (SegmentView { id, close_time: 0, messages: Seq::empty() }),
    {
        let segment = Segment {
            id,
            close_time: 0,
            messages: Vec::new(),
            current_size: 0,
            next_offset: 0,
        };
        assert(segment@.messages =~= Seq::empty());
        segment
    }

    pub fn id(&self) -> (id: usize)
        ensures
            id == self@.id,
    {
        self.id
    }

    pub fn close_time(&self) -> (time: u64)
        ensures
            time == self@.close_time,
    {
        self.close_time
    }

    /// The accumulated size in payload bytes.
    pub fn current_size(&self) -> (size: usize)
        requires
            self.wf(),
        ensures
            size == self@.size(),
    {
        self.current_size
    }

    /// The offset that the next appended message will stand at.
    pub fn next_offset(&self) -> (offset: u64)
        requires
            self.wf(),
        ensures
            offset == self@.messages.len(),
    {
        self.next_offset
    }

    /// The number of messages held.
    pub fn len(&self) -> (n: usize)
        ensures
            n == self@.messages.len(),
    {
        self.messages.len()
    }

    /// The message at `offset`.
    pub fn message(&self, offset: usize) -> (message: &StreamMessage)
        requires
            offset < self@.messages.len(),
        ensures
            message@ == self@.messages[offset as int],
    {
        &self.messages[offset]
    }

    /// Whether the accumulated size has reached `threshold`.
    pub fn is_full(&self, threshold: usize) -> (full: bool)
        requires
            self.wf(),
        ensures
            full == (self@.size() >= threshold),
    {
        self.current_size >= threshold
    }

    /// Whether `message` can be appended: the segment is open and its size
    /// counter has room for the payload.
    pub open spec fn accepts(&self, message: MessageView) -> bool {
        self@.is_open() && self@.size() + message.size() <= usize::MAX
    }

    /// Appends `message` as it is. A closed segment, or one whose size
    /// counter would overflow, rejects the message and stays as it was.
    pub fn add_message(&mut self, message: StreamMessage) -> (result: Result<
        (),
        ReliableDispatchError,
    >)
        requires
            old(self).wf(),
        ensures
            final(self).wf(),
            result is Ok <==> old(self).accepts(message@),
            result is Ok ==> final(self)@ == old(self)@.appended(message@),
            result is Err ==> final(self)@ == old(self)@ && result->Err_0
                is InvariantViolation,
    {
        if self.close_time != 0 {
            return Err(
                ReliableDispatchError::InvariantViolation(
                    String::from_str("append to a closed segment"),
                ),
            );
        }
        let size: usize = message.size();
        if size > usize::MAX - self.current_size {
            return Err(
                ReliableDispatchError::InvariantViolation(
                    String::from_str("segment size counter exhausted"),
                ),
            );
        }
        proof {
            let before = self@.messages;
            let after = before.push(message@);
            assert(after.drop_last() =~= before);
            assert(self.messages@.push(message).map_values(|m: StreamMessage| m@) =~= after);
        }
        self.current_size = self.current_size + size;
        self.messages.push(message);
        self.next_offset = self.messages.len() as u64;
        Ok(())
    }

    /// Closes the segment at `time`. A segment is closed once: closing it
    /// again leaves the first close time in place.
    pub fn close(&mut self, time: u64)
        requires
            old(self).wf(),
        ensures
            final(self).wf(),
            final(self)@ == old(self)@.closed_at(time),
    {
        if self.close_time == 0 {
            self.close_time = time;
        }
    }
}

impl Clone for Segment {
    fn clone(&self) -> (copy: Self)
        ensures
            copy@ == self@,
            self.wf() ==> copy.wf(),
    {
        let mut messages: Vec<StreamMessage> = Vec::new();
        let mut i: usize = 0;
        while i < self.messages.len()
            invariant
                i <= self.messages.len(),
                messages@.len() == i,
                forall|k: int| 0 <= k < i ==> (#[trigger] messages@[k])@ == self.messages@[k]@,
            decreases self.messages.len() - i,
        {
            messages.push(self.messages[i].clone());
            i = i + 1;
        }
        let copy = Segment {
            id: self.id,
            close_time: self.close_time,
            messages,
            current_size: self.current_size,
            next_offset: self.next_offset,
        };
        assert(copy@.messages =~= self@.messages);
        copy
    }
}

} // verus!
