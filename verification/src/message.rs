//! Messages and their identifiers.

use std::collections::HashMap;
use vstd::prelude::*;

verus! {

/// Identifies a message. The producer fills `producer_id` and `topic_seq`;
/// the store assigns `segment_id` and `segment_offset` when it accepts the
/// message.
#[derive(Clone, Copy, Debug, PartialEq, Eq, Structural)]
pub struct MessageID {
    pub producer_id: u64,
    pub topic_seq: u64,
    pub segment_id: u64,
    pub segment_offset: u64,
}

/// A message as it travels through a topic: an opaque payload, the
/// identifier, optional user attributes and the time of publication.
#[derive(Debug)]
pub struct StreamMessage {
    pub msg_id: MessageID,
    pub payload: Vec<u8>,
    pub attributes: HashMap<String, String>,
    pub publish_time: u64,
}

/// The mathematical value of a [`StreamMessage`].
pub struct MessageView {
    pub msg_id: MessageID,
    pub payload: Seq<u8>,
    pub attributes: Map<String, String>,
    pub publish_time: u64,
}

impl MessageView {
    /// The number of bytes that the message counts for in a segment: the
    /// length of its raw payload.
    pub open spec fn size(self) -> nat {
        self.payload.len()
    }

    /// The same message with the store's part of the identifier filled in.
    pub open spec fn stamped(self, segment_id: u64, segment_offset: u64) -> MessageView {
        MessageView {
            msg_id: MessageID {
                producer_id: self.msg_id.producer_id,
                topic_seq: self.msg_id.topic_seq,
                segment_id,
                segment_offset,
            },
            payload: self.payload,
            attributes: self.attributes,
            publish_time: self.publish_time,
        }
    }
}

impl View for StreamMessage {
    type V = MessageView;

    open spec fn view(&self) -> MessageView {
        MessageView {
            msg_id: self.msg_id,
            payload: self.payload@,
            attributes: self.attributes@,
            publish_time: self.publish_time,
        }
    }
}

impl Clone for StreamMessage {
    fn clone(&self) -> (copy: Self)
        ensures
            copy@ == self@,
    {
        StreamMessage {
            msg_id: self.msg_id,
            payload: self.payload.clone(),
            attributes: self.attributes.clone(),
            publish_time: self.publish_time,
        }
    }
}

impl StreamMessage {
    /// The number of payload bytes.
    pub fn size(&self) -> (n: usize)
        ensures
            n == self@.size(),
    {
        self.payload.len()
    }

    /// Fills in the store's part of the identifier.
    pub fn stamp(&mut self, segment_id: u64, segment_offset: u64)
        ensures
            final(self)@ == old(self)@.stamped(segment_id, segment_offset),
    {
        self.msg_id.segment_id = segment_id;
        self.msg_id.segment_offset = segment_offset;
    }
}

} // verus!
