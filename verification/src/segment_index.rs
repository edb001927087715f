//! The segment index of a topic: one entry for each segment, ordered by id,
//! with what a reader's next segment is and what a reclamation leaves.

use vstd::prelude::*;

verus! {

/// An entry of the segment index: a segment's id and its close time, which
/// is zero while the segment is writable.
pub type IndexEntry = (usize, u64);

/// The ids in `index` strictly increase.
pub open spec fn ids_increasing(index: Seq<IndexEntry>) -> bool {
    forall|i: int, j: int|
        0 <= i < j < index.len() ==> (#[trigger] index[i]).0 < (#[trigger] index[j]).0
}

/// The ids in `index` follow one another without a gap.
pub open spec fn ids_contiguous(index: Seq<IndexEntry>) -> bool {
    forall|i: int| 0 <= i < index.len() ==> (#[trigger] index[i]).0 == index[0].0 + i
}

/// The last entry of `index`, and no other, is open.
pub open spec fn open_only_last(index: Seq<IndexEntry>) -> bool {
    forall|i: int| 0 <= i < index.len() ==> ((#[trigger] index[i]).1 == 0 <==> i == index.len() - 1)
}

/// Whether `index` has an entry for segment `id`.
pub open spec fn index_contains(index: Seq<IndexEntry>, id: usize) -> bool {
    exists|i: int| 0 <= i < index.len() && (#[trigger] index[i]).0 == id
}

/// The position of segment `id` in `index`.
pub open spec fn index_position(index: Seq<IndexEntry>, id: usize) -> int {
    choose|i: int| 0 <= i < index.len() && (#[trigger] index[i]).0 == id
}

/// The id of the segment that a reader standing at `cursor` reads next:
/// the first segment of the index for a reader that has not started, the
/// one after the cursor's for a reader that has, and none where the index
/// is empty, the cursor's segment is the last one, or it is not in the
/// index at all.
pub open spec fn successor(index: Seq<IndexEntry>, cursor: Option<usize>) -> Option<usize> {
    match cursor {
        None => if index.len() == 0 {
            None
        } else {
            Some(index[0].0)
        },
        Some(id) => if index_contains(index, id) && index_position(index, id) + 1 < index.len() {
            Some(index[index_position(index, id) + 1].0)
        } else {
            None
        },
    }
}

/// `index` with the close time of segment `id`, if it has an entry, set to
/// `close_time`.
pub open spec fn with_close_time(index: Seq<IndexEntry>, id: usize, close_time: u64) -> Seq<
    IndexEntry,
> {
    Seq::new(
        index.len(),
        |i: int|
            if index[i].0 == id {
                (id, close_time)
            } else {
                index[i]
            },
    )
}

/// In an index ordered by id, the entry at `position` is the one that its
/// id leads to.
pub proof fn lemma_index_position(index: Seq<IndexEntry>, position: int)
    requires
        ids_increasing(index),
        0 <= position < index.len(),
    ensures
        index_contains(index, index[position].0),
        index_position(index, index[position].0) == position,
{
    let id = index[position].0;
    let found = index_position(index, id);
    assert(0 <= found < index.len() && index[found].0 == id);
    if found < position {
        assert(index[found].0 < index[position].0);
    }
    if position < found {
        assert(index[position].0 < index[found].0);
    }
}

/// Whether every subscription is done with the segment of `entry`: the
/// segment is closed and its id is at most `min_acknowledged_id`, the least
/// id that the subscriptions have acknowledged.
pub open spec fn acknowledged(entry: IndexEntry, min_acknowledged_id: usize) -> bool {
    entry.1 > 0 && entry.0 <= min_acknowledged_id
}

/// Whether the segment of `entry` has outlived the retention period at
/// `now`: the segment is closed and at least `retention_period` seconds have
/// passed since.
pub open spec fn expired(entry: IndexEntry, now: u64, retention_period: u64) -> bool {
    entry.1 > 0 && now - entry.1 >= retention_period
}

/// `index` without the entries of the segments in `removed`, the rest in
/// the order it had.
pub open spec fn without(index: Seq<IndexEntry>, removed: Set<usize>) -> Seq<IndexEntry>
    decreases index.len(),
{
    if index.len() == 0 {
        index
    } else if removed.contains(index.last().0) {
        without(index.drop_last(), removed)
    } else {
        without(index.drop_last(), removed).push(index.last())
    }
}

/// What `without` keeps is what `index` held outside `removed`, and it keeps
/// the order.
pub proof fn lemma_without(index: Seq<IndexEntry>, removed: Set<usize>)
    ensures
        forall|k: int|
            0 <= k < without(index, removed).len() ==> !removed.contains(
                (#[trigger] without(index, removed)[k]).0,
            ) && index.contains(without(index, removed)[k]),
        forall|j: int|
            0 <= j < index.len() && !removed.contains((#[trigger] index[j]).0) ==> without(
                index,
                removed,
            ).contains(index[j]),
        ids_increasing(index) ==> ids_increasing(without(index, removed)),
        index.len() > 0 && !removed.contains(index.last().0) ==> without(index, removed).len() > 0
            && without(index, removed).last() == index.last(),
    decreases index.len(),
{
    let kept = without(index, removed);
    if index.len() > 0 {
        let front = index.drop_last();
        let kept_front = without(front, removed);
        lemma_without(front, removed);
        assert forall|k: int| 0 <= k < kept.len() implies !removed.contains(
            (#[trigger] kept[k]).0,
        ) && index.contains(kept[k]) by {
            if k < kept_front.len() {
                assert(kept[k] == kept_front[k]);
                let j = choose|j: int| 0 <= j < front.len() && front[j] == kept_front[k];
                assert(index[j] == kept[k]);
            } else {
                assert(kept[k] == index[index.len() - 1]);
            }
        }
        assert forall|j: int|
            0 <= j < index.len() && !removed.contains((#[trigger] index[j]).0) implies kept.contains(
            index[j],
        ) by {
            if j < front.len() {
                assert(front[j] == index[j]);
                let k = choose|k: int| 0 <= k < kept_front.len() && kept_front[k] == front[j];
                assert(kept[k] == index[j]);
            } else {
                assert(kept[kept.len() - 1] == index[j]);
            }
        }
        if ids_increasing(index) {
            assert(ids_increasing(front)) by {
                assert forall|i: int, j: int| 0 <= i < j < front.len() implies (#[trigger] front[i]).0 < (
                #[trigger] front[j]).0 by {
                    assert(index[i].0 < index[j].0);
                }
            }
            assert forall|a: int, b: int| 0 <= a < b < kept.len() implies (#[trigger] kept[a]).0 < (
            #[trigger] kept[b]).0 by {
                if b < kept_front.len() {
                    assert(kept_front[a].0 < kept_front[b].0);
                } else {
                    assert(kept[a] == kept_front[a]);
                    let j = choose|j: int| 0 <= j < front.len() && front[j] == kept_front[a];
                    assert(index[j].0 < index[index.len() - 1].0);
                }
            }
        }
    }
}

/// In an index ordered by id, the successor of a cursor is an entry of the
/// index, lies after the cursor, and no entry lies between the two.
pub proof fn lemma_successor(index: Seq<IndexEntry>, cursor: Option<usize>)
    requires
        ids_increasing(index),
    ensures
        successor(index, cursor) matches Some(next) ==> {
            &&& index_contains(index, next)
            &&& cursor matches Some(id) ==> id < next
            &&& forall|k: int|
                0 <= k < index.len() && (#[trigger] index[k]).0 < next ==> (cursor matches Some(id)
                    && index[k].0 <= id)
        },
        (cursor matches Some(id) && index_contains(index, id) && successor(index, cursor) is None)
            ==> index.len() > 0 && index.last().0 == cursor->Some_0,
{
    match cursor {
        None => {
            if index.len() > 0 {
                assert(index[0].0 == successor(index, cursor)->Some_0);
                assert forall|k: int| 0 <= k < index.len() && (#[trigger] index[k]).0 < index[0].0 implies false by {
                    if k > 0 {
                        assert(index[0].0 < index[k].0);
                    }
                }
            }
        },
        Some(id) => {
            if index_contains(index, id) {
                let p = index_position(index, id);
                if p + 1 < index.len() {
                    let next = index[p + 1].0;
                    assert(index[p].0 < index[p + 1].0);
                    assert forall|k: int| 0 <= k < index.len() && (#[trigger] index[k]).0 < next implies index[k].0 <= id by {
                        if k > p + 1 {
                            assert(index[p + 1].0 < index[k].0);
                        }
                        if k < p {
                            assert(index[k].0 < index[p].0);
                        }
                    }
                }
            }
        },
    }
}

/// Which closed segments a reclamation gives up.
#[derive(Clone, Copy, Debug)]
pub enum ReclaimRule {
    /// Those that every subscription has acknowledged.
    Acknowledged { min_acknowledged_id: usize },
    /// Those that have outlived the retention period at `now`.
    Expired { now: u64 },
}

impl ReclaimRule {
    /// Whether the rule gives up the segment of `entry`.
    pub open spec fn gives_up(&self, entry: IndexEntry, retention_period: u64) -> bool {
        match *self {
            ReclaimRule::Acknowledged { min_acknowledged_id } => acknowledged(
                entry,
                min_acknowledged_id,
            ),
            ReclaimRule::Expired { now } => expired(entry, now, retention_period),
        }
    }

    /// Whether the rule gives up the segment of `entry`.
    pub fn applies(&self, entry: IndexEntry, retention_period: u64) -> (given_up: bool)
        ensures
            given_up == self.gives_up(entry, retention_period),
    {
        match self {
            ReclaimRule::Acknowledged { min_acknowledged_id } => entry.1 > 0 && entry.0
                <= *min_acknowledged_id,
            ReclaimRule::Expired { now } => entry.1 > 0 && *now >= entry.1 && *now - entry.1
                >= retention_period,
        }
    }
}

/// Whether `index` has an entry for segment `id` that `rule` gives up.
pub open spec fn given_up(
    index: Seq<IndexEntry>,
    id: usize,
    rule: ReclaimRule,
    retention_period: u64,
) -> bool {
    exists|p: int|
        0 <= p < index.len() && (#[trigger] index[p]).0 == id && rule.gives_up(
            index[p],
            retention_period,
        )
}

/// The ids in `ids` strictly increase.
pub open spec fn increasing(ids: Seq<usize>) -> bool {
    forall|i: int, j: int| 0 <= i < j < ids.len() ==> ids[i] < ids[j]
}

/// Whether `ids` holds `id`.
pub(crate) fn holds_id(ids: &Vec<usize>, id: usize) -> (held: bool)
    ensures
        held == ids@.to_set().contains(id),
{
    let mut i: usize = 0;
    while i < ids.len()
        invariant
            i <= ids@.len(),
            forall|k: int| 0 <= k < i ==> ids@[k] != id,
        decreases ids@.len() - i,
    {
        if ids[i] == id {
            assert(ids@.contains(ids@[i as int]));
            return true;
        }
        i = i + 1;
    }
    false
}

} // verus!
