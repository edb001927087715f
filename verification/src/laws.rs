//! What holds of every valid store, stated over the store's own model.

use crate::dispatch::{covers, SubscriptionDispatch};
use crate::errors::ReliableDispatchError;
use crate::message::MessageView;
use crate::storage_backend::{all_closed, SegmentKey, StorageBackend};
use crate::subscriptions::{is_least_cursor, lemma_least_cursor_bound};
use crate::segment_index::{
    given_up, ids_contiguous, ids_increasing, index_contains, index_position, lemma_without,
    without, IndexEntry, ReclaimRule,
};
use crate::segment_key::segment_key;
use crate::topic_storage::{ids_given_up, TopicStore};
use vstd::prelude::*;

verus! {

/// Whether the position `(id_a, offset_a)` of the log lies before the
/// position `(id_b, offset_b)`: in an earlier segment, or earlier in the
/// same segment.
pub open spec fn position_before(id_a: int, offset_a: int, id_b: int, offset_b: int) -> bool {
    id_a < id_b || (id_a == id_b && offset_a < offset_b)
}

/// Offsets are monotonic. The message at offset `k` of an indexed segment
/// carries the segment's id and `k` as its offset, so that offsets within a
/// segment start at zero and follow one another without a gap; and of two
/// messages of the log, the one that comes first in the order of segment ids
/// and offsets carries the smaller pair of segment id and offset.
pub proof fn lemma_offsets_monotonic<B: StorageBackend>(
    store: &TopicStore<B>,
    id_a: usize,
    offset_a: int,
    id_b: usize,
    offset_b: int,
)
    requires
        store.wf(),
        index_contains(store.index(), id_a),
        index_contains(store.index(), id_b),
        0 <= offset_a < store.segment(id_a).messages.len(),
        0 <= offset_b < store.segment(id_b).messages.len(),
    ensures
        store.segment(id_a).messages[offset_a].msg_id.segment_id == id_a,
        store.segment(id_a).messages[offset_a].msg_id.segment_offset == offset_a,
        position_before(id_a as int, offset_a, id_b as int, offset_b) ==> position_before(
            store.segment(id_a).messages[offset_a].msg_id.segment_id as int,
            store.segment(id_a).messages[offset_a].msg_id.segment_offset as int,
            store.segment(id_b).messages[offset_b].msg_id.segment_id as int,
            store.segment(id_b).messages[offset_b].msg_id.segment_offset as int,
        ),
{
    store.lemma_indexed_segment(id_a);
    store.lemma_indexed_segment(id_b);
}

/// The size bound. No segment of the index has grown past the segment size
/// by more than its last message: the segment was below the segment size
/// when that message was appended.
pub proof fn lemma_size_bound<B: StorageBackend>(store: &TopicStore<B>, id: usize)
    requires
        store.wf(),
        index_contains(store.index(), id),
    ensures
        store.segment(id).messages.len() > 0 ==> store.segment(id).size() <= store.segment_size()
            + store.segment(id).messages.last().size(),
{
    store.lemma_indexed_segment(id);
}

/// A full writable segment takes no further message: the next successful
/// store rolls the log over, and the message opens the next segment.
pub proof fn lemma_full_segment_rolls_over<B: StorageBackend>(
    before: &TopicStore<B>,
    after: &TopicStore<B>,
    message: MessageView,
    now: u64,
    result: Result<(), ReliableDispatchError>,
)
    requires
        before.wf(),
        before.writable() is Some,
        before.log().is_full(before.segment_size()),
        after.message_stored(before, message, now, result),
        result is Ok,
    ensures
        after.current_id() == before.current_id() + 1,
        after.writable() matches Some(segment) && segment.messages == seq![
            message.stamped(after.current_id() as u64, 0),
        ],
{
    let segment = after.writable()->Some_0;
    assert(segment.messages =~= seq![message.stamped(after.current_id() as u64, 0)]);
}

/// A single writable segment. Once the index has an entry, its last entry is
/// open and is the writable segment, and every other entry is closed.
pub proof fn lemma_single_writable<B: StorageBackend>(store: &TopicStore<B>, position: int)
    requires
        store.wf(),
        0 <= position < store.index().len(),
    ensures
        store.index().last().1 == 0,
        store.index().last().0 == store.current_id(),
        store.index()[position].1 == 0 <==> position == store.index().len() - 1,
        store.index()[position].1 == 0 <==> store.index()[position].0 == store.current_id(),
{
    let last = store.index().len() - 1;
    if position < last {
        assert(store.index()[position].0 < store.index()[last].0);
    }
}

/// Every closed segment of the index is in the backend, closed at the time
/// that the index has for it.
pub proof fn lemma_closed_segments_stored<B: StorageBackend>(store: &TopicStore<B>, position: int)
    requires
        store.wf(),
        0 <= position < store.index().len(),
        store.index()[position].1 > 0,
    ensures
        store.cache().backend().contains_key((store.topic(), store.index()[position].0)),
        store.stored(store.index()[position].0).close_time == store.index()[position].1,
        store.stored(store.index()[position].0).id == store.index()[position].0,
{
    assert(store.entry_stored(store.index()[position]));
}

/// A store keeps the backend free of open segments.
pub proof fn lemma_store_keeps_backend_closed<B: StorageBackend>(
    before: &TopicStore<B>,
    after: &TopicStore<B>,
    message: MessageView,
    now: u64,
    result: Result<(), ReliableDispatchError>,
)
    requires
        after.message_stored(before, message, now, result),
        all_closed(before.cache().backend()),
    ensures
        all_closed(after.cache().backend()),
{
    let written = (before.topic(), before.current_id());
    assert forall|key: SegmentKey| #[trigger]
        after.cache().backend().contains_key(key) implies after.cache().backend()[key]@.close_time
        > 0 by {
        if key != written {
            assert(after.cache().backend().remove(written).contains_key(key));
            assert(before.cache().backend().remove(written).contains_key(key));
            assert(before.cache().backend().contains_key(key));
            assert(after.cache().backend().remove(written)[key] == before.cache().backend().remove(
                written,
            )[key]);
        }
    }
}

/// A reclamation keeps the backend free of open segments.
pub proof fn lemma_reclaim_keeps_backend_closed<B: StorageBackend>(
    before: &TopicStore<B>,
    after: &TopicStore<B>,
    removed: Seq<usize>,
    rule: ReclaimRule,
)
    requires
        after.reclaimed(before, removed, rule),
        all_closed(before.cache().backend()),
    ensures
        all_closed(after.cache().backend()),
{
    assert forall|key: SegmentKey| #[trigger]
        after.cache().backend().contains_key(key) implies after.cache().backend()[key]@.close_time
        > 0 by {
        assert(before.cache().backend().contains_key(key));
    }
}

/// A reclamation removes entries and nothing else: what is left of the
/// index is in the order it had, and the writable segment keeps its entry.
pub proof fn lemma_reclaim_keeps_order<B: StorageBackend>(
    before: &TopicStore<B>,
    after: &TopicStore<B>,
    removed: Seq<usize>,
    rule: ReclaimRule,
)
    requires
        before.wf(),
        after.wf(),
        after.reclaimed(before, removed, rule),
    ensures
        ids_increasing(after.index()),
        after.index().len() <= before.index().len(),
        forall|k: int|
            0 <= k < after.index().len() ==> before.index().contains(#[trigger] after.index()[k]),
        before.index().len() > 0 ==> after.index().len() > 0 && after.index().last()
            == before.index().last(),
{
    lemma_without(before.index(), removed.to_set());
    lemma_without_len(before.index(), removed.to_set());
    if before.index().len() > 0 {
        let last = before.index().last();
        if removed.to_set().contains(last.0) {
            let k = choose|k: int| 0 <= k < removed.len() && removed[k] == last.0;
            assert(given_up(
                before.index(),
                removed[k],
                rule,
                before.retention_period(),
            ));
            let p = choose|p: int|
                0 <= p < before.index().len() && (#[trigger] before.index()[p]).0 == removed[k]
                    && rule.gives_up(before.index()[p], before.retention_period());
            if p < before.index().len() - 1 {
                assert(before.index()[p].0 < before.index()[before.index().len() - 1].0);
            }
        }
    }
}

/// What is left after entries have been removed is no longer than what was
/// there.
pub proof fn lemma_without_len(index: Seq<IndexEntry>, removed: Set<usize>)
    ensures
        without(index, removed).len() <= index.len(),
    decreases index.len(),
{
    if index.len() > 0 {
        lemma_without_len(index.drop_last(), removed);
    }
}

/// Reclamation by acknowledgement. Once every subscription, of which there
/// is at least one, has moved its cursor to `id` or past it, a lifecycle step
/// over a reliable backend leaves no closed segment with an id up to `id` in
/// the index.
pub proof fn lemma_acknowledged_reclaimed<B: StorageBackend>(
    before: &TopicStore<B>,
    after: &TopicStore<B>,
    removed: Seq<usize>,
    cursors: Map<Seq<char>, usize>,
    least: usize,
    id: usize,
    position: int,
)
    requires
        before.cache().reliable(),
        is_least_cursor(cursors.values(), least),
        after.reclaimed(before, removed, ReclaimRule::Acknowledged { min_acknowledged_id: least }),
        exists|name: Seq<char>| cursors.contains_key(name),
        forall|name: Seq<char>| #[trigger] cursors.contains_key(name) ==> cursors[name] >= id,
        0 <= position < after.index().len(),
    ensures
        !(after.index()[position].1 > 0 && after.index()[position].0 <= id),
{
    lemma_least_cursor_bound(cursors, least, id);
    let rule = ReclaimRule::Acknowledged { min_acknowledged_id: least };
    assert(!rule.gives_up(after.index()[position], before.retention_period()));
}

/// Reclamation by expiry. A lifecycle step at `now` over a reliable backend
/// leaves no segment in the index that was closed a retention period or more
/// before `now`, whatever the subscriptions have acknowledged.
pub proof fn lemma_expired_reclaimed<B: StorageBackend>(
    before: &TopicStore<B>,
    after: &TopicStore<B>,
    removed: Seq<usize>,
    now: u64,
    position: int,
)
    requires
        before.cache().reliable(),
        after.reclaimed(before, removed, ReclaimRule::Expired { now }),
        0 <= position < after.index().len(),
    ensures
        !(after.index()[position].1 > 0 && now - after.index()[position].1
            >= before.retention_period()),
{
    let rule = ReclaimRule::Expired { now };
    assert(!rule.gives_up(after.index()[position], before.retention_period()));
}

/// Every segment reclaimed by acknowledgement was closed and had been
/// acknowledged by every subscription; the writable segment is never
/// reclaimed.
pub proof fn lemma_only_acknowledged_reclaimed<B: StorageBackend>(
    before: &TopicStore<B>,
    after: &TopicStore<B>,
    removed: Seq<usize>,
    cursors: Map<Seq<char>, usize>,
    least: usize,
    k: int,
    name: Seq<char>,
)
    requires
        before.wf(),
        is_least_cursor(cursors.values(), least),
        after.reclaimed(before, removed, ReclaimRule::Acknowledged { min_acknowledged_id: least }),
        0 <= k < removed.len(),
        cursors.contains_key(name),
    ensures
        removed[k] <= cursors[name],
        index_contains(before.index(), removed[k]),
        removed[k] != before.current_id() || before.index().len() == 0,
{
    assert(cursors.values().contains(cursors[name]));
    assert(!(cursors.values() =~= Set::<usize>::empty()));
    let rule = ReclaimRule::Acknowledged { min_acknowledged_id: least };
    assert(given_up(
        before.index(),
        removed[k],
        rule,
        before.retention_period(),
    ));
    let p = choose|p: int|
        0 <= p < before.index().len() && (#[trigger] before.index()[p]).0 == removed[k]
            && rule.gives_up(before.index()[p], before.retention_period());
    if p < before.index().len() - 1 {
        assert(before.index()[p].0 < before.index()[before.index().len() - 1].0);
    }
}

/// No message is handed out again once its segment is acknowledged: a
/// message that a dispatcher hands out is of a segment later than any that
/// the dispatcher has acknowledged.
pub proof fn lemma_no_delivery_after_ack(
    dispatch: &SubscriptionDispatch,
    message: MessageView,
    acknowledged_id: usize,
)
    requires
        dispatch.handed_out(message),
        covers(dispatch.acked(), acknowledged_id),
    ensures
        message.msg_id.segment_id > acknowledged_id,
{
}

/// A dispatcher reports that nothing is left only at the end of the log:
/// unless it has acknowledged the last segment of the index, it then holds
/// that segment as the store holds it, and has handed out all of it.
pub proof fn lemma_nothing_left_at_log_end<B: StorageBackend>(
    dispatch: &SubscriptionDispatch,
    store: &TopicStore<B>,
)
    requires
        store.wf(),
        dispatch.nothing_left(store),
        store.index().len() > 0,
    ensures
        dispatch.held() matches Some(segment) && segment.id == store.current_id() && (covers(
            dispatch.acked(),
            store.current_id(),
        ) || (store.writable() == Some(segment) && dispatch.position()
            == store.writable()->Some_0.messages.len())),
{
}

/// A store keeps the ids of the index free of gaps: where they followed one
/// another before a store, they do so after it. Only a reclamation of
/// segments in the midst of the index can part them.
pub proof fn lemma_store_keeps_contiguous<B: StorageBackend>(
    before: &TopicStore<B>,
    after: &TopicStore<B>,
    message: MessageView,
    now: u64,
    result: Result<(), ReliableDispatchError>,
)
    requires
        before.wf(),
        after.message_stored(before, message, now, result),
        ids_contiguous(before.index()),
    ensures
        ids_contiguous(after.index()),
{
    let old_index = before.index();
    let new_index = after.index();
    let current = before.current_id();
    // the index that the store settled on: that of `before`, or that with
    // the first segment entered
    let entered = old_index.push((current, 0));
    if new_index != old_index && new_index != entered {
        let base = if new_index == before.log().rolled(now, message).index {
            old_index
        } else if new_index == before.log().created().rolled(now, message).index {
            entered
        } else {
            old_index
        };
        assert(new_index.len() == base.len() + 1);
        assert(new_index[base.len() as int].0 == current + 1);
        assert forall|i: int| 0 <= i < new_index.len() implies (#[trigger] new_index[i]).0
            == new_index[0].0 + i by {
            if base.len() > 0 {
                assert(base[base.len() - 1].0 == current);
                assert(base[base.len() - 1].0 == base[0].0 + base.len() - 1);
                assert(base[0].0 == base[0].0 + 0);
                if i < base.len() {
                    assert(base[i].0 == base[0].0 + i);
                }
            }
        }
    }
}

/// Where `removed` holds, with the id of any entry of `index`, the ids of
/// all entries before it, what is left of the index is its tail.
pub proof fn lemma_without_front(index: Seq<IndexEntry>, removed: Set<usize>)
    requires
        forall|i: int, j: int|
            0 <= i < j < index.len() && removed.contains((#[trigger] index[j]).0)
                ==> removed.contains((#[trigger] index[i]).0),
    ensures
        without(index, removed).len() <= index.len(),
        without(index, removed) == index.subrange(
            index.len() - without(index, removed).len(),
            index.len() as int,
        ),
        forall|j: int|
            0 <= j < index.len() ==> (removed.contains((#[trigger] index[j]).0) <==> j
                < index.len() - without(index, removed).len()),
    decreases index.len(),
{
    let kept = without(index, removed);
    if index.len() > 0 {
        let front = index.drop_last();
        let last = index.len() - 1;
        assert forall|i: int, j: int|
            0 <= i < j < front.len() && removed.contains(
                (#[trigger] front[j]).0,
            ) implies removed.contains((#[trigger] front[i]).0) by {
            assert(front[i] == index[i] && front[j] == index[j]);
        }
        lemma_without_front(front, removed);
        let kept_front = without(front, removed);
        if removed.contains(index[last].0) {
            assert forall|j: int| 0 <= j < front.len() implies removed.contains(
                (#[trigger] front[j]).0,
            ) by {
                assert(front[j] == index[j]);
                assert(removed.contains(index[last].0));
            }
            if kept_front.len() > 0 {
                assert(!removed.contains(front[front.len() - kept_front.len()].0));
            }
            assert(kept =~= index.subrange(index.len() - kept.len(), index.len() as int));
        } else {
            assert(kept =~= index.subrange(index.len() - kept.len(), index.len() as int));
        }
        assert forall|j: int| 0 <= j < index.len() implies (removed.contains(
            (#[trigger] index[j]).0,
        ) <==> j < index.len() - kept.len()) by {
            if j < last {
                assert(front[j] == index[j]);
            }
        }
    } else {
        assert(kept =~= index.subrange(0, 0));
    }
}

/// Reclamation by acknowledgement over a reliable backend takes a front of
/// the index and leaves its tail: the ids of the index stay free of gaps.
pub proof fn lemma_acknowledged_reclaim_keeps_contiguous<B: StorageBackend>(
    before: &TopicStore<B>,
    after: &TopicStore<B>,
    removed: Seq<usize>,
    least: usize,
)
    requires
        before.wf(),
        before.cache().reliable(),
        after.reclaimed(before, removed, ReclaimRule::Acknowledged { min_acknowledged_id: least }),
        ids_contiguous(before.index()),
    ensures
        after.index() == before.index().subrange(
            before.index().len() - after.index().len(),
            before.index().len() as int,
        ),
        ids_contiguous(after.index()),
{
    let index = before.index();
    let gone = removed.to_set();
    let rule = ReclaimRule::Acknowledged { min_acknowledged_id: least };
    let retention = before.retention_period();
    lemma_without(index, gone);
    assert forall|i: int, j: int|
        0 <= i < j < index.len() && gone.contains((#[trigger] index[j]).0) implies gone.contains(
        (#[trigger] index[i]).0,
    ) by {
        let k = choose|k: int| 0 <= k < removed.len() && removed[k] == index[j].0;
        assert(given_up(index, removed[k], rule, retention));
        let p = choose|p: int|
            0 <= p < index.len() && (#[trigger] index[p]).0 == removed[k] && rule.gives_up(
                index[p],
                retention,
            );
        if p < j {
            assert(index[p].0 < index[j].0);
        }
        if j < p {
            assert(index[j].0 < index[p].0);
        }
        assert(index[i].0 < index[j].0);
        assert(index[i].0 < index[index.len() - 1].0 || i == index.len() - 1);
        assert(rule.gives_up(index[i], retention));
        if !gone.contains(index[i].0) {
            assert(after.index().contains(index[i]));
            let at = choose|at: int| 0 <= at < after.index().len() && after.index()[at] == index[i];
            assert(!rule.gives_up(after.index()[at], retention));
        }
    }
    lemma_without_front(index, gone);
    let start = index.len() - after.index().len();
    assert forall|i: int| 0 <= i < after.index().len() implies (#[trigger] after.index()[i]).0
        == after.index()[0].0 + i by {
        assert(after.index()[i] == index[start + i]);
        assert(after.index()[0] == index[start]);
        assert(index[start + i].0 == index[0].0 + start + i);
        assert(index[start].0 == index[0].0 + start);
    }
}

/// A rollover keeps what it closes. After a store that has rolled the log
/// over, the backend and the memory tier hold the segment that was writable,
/// with all its messages in their order, and closed.
pub proof fn lemma_rollover_keeps_messages<B: StorageBackend>(
    before: &TopicStore<B>,
    after: &TopicStore<B>,
    message: MessageView,
    now: u64,
    result: Result<(), ReliableDispatchError>,
)
    requires
        before.wf(),
        before.writable() is Some,
        before.log().is_full(before.segment_size()),
        after.message_stored(before, message, now, result),
        result is Ok,
    ensures
        after.cache().backend().contains_key((before.topic(), before.current_id())),
        after.cache().memory().contains_key(before.key(before.current_id())),
        after.stored(before.current_id()).messages == before.writable()->Some_0.messages,
        after.stored(before.current_id()).id == before.writable()->Some_0.id,
        after.stored(before.current_id()).close_time > 0,
        before.writable()->Some_0.is_open() ==> after.stored(before.current_id()).close_time == now,
        after.cache().memory()[before.key(before.current_id())]@ == after.stored(
            before.current_id(),
        ),
{
}

/// A store leaves what was stored in place. Every segment of the index is
/// still in the index after a store, with the messages it held at their
/// positions; a closed segment is wholly as it was.
pub proof fn lemma_store_keeps_log<B: StorageBackend>(
    before: &TopicStore<B>,
    after: &TopicStore<B>,
    message: MessageView,
    now: u64,
    result: Result<(), ReliableDispatchError>,
    id: usize,
    offset: int,
)
    requires
        before.wf(),
        after.message_stored(before, message, now, result),
        index_contains(before.index(), id),
        0 <= offset < before.segment(id).messages.len(),
    ensures
        index_contains(after.index(), id),
        offset < after.segment(id).messages.len(),
        after.segment(id).messages[offset] == before.segment(id).messages[offset],
        before.segment(id).close_time > 0 ==> after.segment(id) == before.segment(id),
{
    let index = before.index();
    let p = index_position(index, id);
    let last = index.len() - 1;
    before.lemma_indexed_segment(id);
    if p < last {
        assert(index[p].0 < index[last].0);
    }
    if after.index() != index {
        // the log was rolled over
        let rolled = after.index();
        assert(rolled[p].0 == id);
    }
}

/// What a rule gives up leaves the cache. After a reclamation the memory
/// tier holds no segment that the rule gives up, and over a reliable backend
/// neither the backend nor the index holds one.
pub proof fn lemma_given_up_leaves_cache<B: StorageBackend>(
    before: &TopicStore<B>,
    after: &TopicStore<B>,
    removed: Seq<usize>,
    rule: ReclaimRule,
    position: int,
)
    requires
        after.reclaimed(before, removed, rule),
        0 <= position < before.index().len(),
        rule.gives_up(before.index()[position], before.retention_period()),
    ensures
        !after.cache().memory().contains_key(after.key(before.index()[position].0)),
        before.cache().reliable() ==> !after.cache().backend().contains_key(
            (after.topic(), before.index()[position].0),
        ),
        before.cache().reliable() ==> !index_contains(after.index(), before.index()[position].0),
{
    let id = before.index()[position].0;
    let retention = before.retention_period();
    assert(given_up(before.index(), id, rule, retention));
    assert(ids_given_up(before.index(), rule, retention).contains(id)
        && segment_key(before.topic(), id) == after.key(id));
    lemma_without(before.index(), removed.to_set());
    if before.cache().reliable() {
        if !removed.to_set().contains(id) {
            assert(after.index().contains(before.index()[position]));
            let at = choose|at: int|
                0 <= at < after.index().len() && after.index()[at] == before.index()[position];
            assert(!rule.gives_up(after.index()[at], retention));
        }
        if index_contains(after.index(), id) {
            let at = choose|at: int|
                0 <= at < after.index().len() && (#[trigger] after.index()[at]).0 == id;
            assert(!removed.to_set().contains(after.index()[at].0));
        }
    }
}

} // verus!
