//! The subscriptions of a topic, each with its cursor: the id of the last
//! segment that the subscription has acknowledged in full.
//!
//! A cursor starts at zero, which also reads as "segment 0 acknowledged":
//! the first segment, once closed, is open to reclamation as soon as every
//! subscription exists, whether or not it has been consumed.

use dashmap::DashMap;
use vstd::prelude::*;
use vstd::string::*;

verus! {

/// The concurrent map that holds the cursors, opaque to the verifier.
#[verifier::external_type_specification]
#[verifier::external_body]
#[verifier::reject_recursive_types(K)]
#[verifier::reject_recursive_types(V)]
#[verifier::reject_recursive_types(S)]
pub struct ExDashMap<K, V, S>(DashMap<K, V, S>);

/// The cursors that the map holds, by subscription name.
pub uninterp spec fn cursors_in(map: DashMap<String, usize>) -> Map<Seq<char>, usize>;

/// `DashMap::new`: an empty map.
#[verifier::external_body]
fn cursor_map_new() -> (map: DashMap<String, usize>)
    ensures
        (cursors_in(map) == Map::<Seq<char>, usize>::empty()),
{
    DashMap::new()
}

/// `DashMap::insert`: puts `cursor` under `name`, in place of what was there.
#[verifier::external_body]
fn cursor_map_insert(map: &mut DashMap<String, usize>, name: String, cursor: usize)
    ensures
        cursors_in(*final(map)) == cursors_in(*old(map)).insert(name@, cursor),
{
    map.insert(name, cursor);
}

/// `DashMap::get`: the cursor under `name`, if the map has that key.
#[verifier::external_body]
fn cursor_map_get(map: &DashMap<String, usize>, name: &str) -> (cursor: Option<usize>)
    ensures
        cursor == (if cursors_in(*map).contains_key(name@) {
            Some(cursors_in(*map)[name@])
        } else {
            None
        }),
{
    match map.get(name) {
        Some(entry) => Some(*entry.value()),
        None => None,
    }
}

/// `DashMap::iter`: the cursors of all entries, each entry once, in no
/// order that could be named.
#[verifier::external_body]
fn cursor_map_values(map: &DashMap<String, usize>) -> (cursors: Vec<usize>)
    ensures
        cursors@.to_set() == cursors_in(*map).values(),
{
    map.iter().map(|entry| *entry.value()).collect()
}

/// Whether `least` is the least acknowledged segment id over `cursors`:
/// the smallest of them, or zero where there is none.
pub open spec fn is_least_cursor(cursors: Set<usize>, least: usize) -> bool {
    if cursors =~= Set::<usize>::empty() {
        least == 0
    } else {
        cursors.contains(least) && forall|cursor: usize| #[trigger]
            cursors.contains(cursor) ==> least <= cursor
    }
}

/// The least of `cursors`, or zero where there is none.
pub fn least_cursor(cursors: &Vec<usize>) -> (least: usize)
    ensures
        is_least_cursor(cursors@.to_set(), least),
{
    if cursors.len() == 0 {
        assert(cursors@.to_set() =~= Set::<usize>::empty());
        return 0;
    }
    let mut least: usize = cursors[0];
    let mut i: usize = 1;
    while i < cursors.len()
        invariant
            1 <= i <= cursors@.len(),
            exists|k: int| 0 <= k < i && cursors@[k] == least,
            forall|k: int| 0 <= k < i ==> least <= #[trigger] cursors@[k],
        decreases cursors@.len() - i,
    {
        if cursors[i] < least {
            least = cursors[i];
        }
        i = i + 1;
    }
    proof {
        let k = choose|k: int| 0 <= k < cursors@.len() && cursors@[k] == least;
        assert(cursors@.to_set().contains(cursors@[k]));
        assert(!(cursors@.to_set() =~= Set::<usize>::empty()));
        assert forall|cursor: usize| #[trigger] cursors@.to_set().contains(cursor) implies least
            <= cursor by {
            let j = choose|j: int| 0 <= j < cursors@.len() && cursors@[j] == cursor;
            assert(least <= cursors@[j]);
        }
    }
    least
}

/// The subscriptions of one topic.
#[derive(Debug)]
pub struct Subscriptions {
    cursors: DashMap<String, usize>,
}

impl View for Subscriptions {
    type V = Map<Seq<char>, usize>;

    closed spec fn view(&self) -> Map<Seq<char>, usize> {
        cursors_in(self.cursors)
    }
}

impl Subscriptions {
    /// No subscription.
    pub fn new() -> (subscriptions: Self)
        ensures
            subscriptions@ == Map::<Seq<char>, usize>::empty(),
    {
        Subscriptions { cursors: cursor_map_new() }
    }

    /// The cursor of `name`, if there is such a subscription.
    pub fn cursor(&self, name: &str) -> (cursor: Option<usize>)
        ensures
            cursor == (if self@.contains_key(name@) {
                Some(self@[name@])
            } else {
                None
            }),
    {
        cursor_map_get(&self.cursors, name)
    }

    /// Adds the subscription `name` with a cursor of zero. A subscription
    /// that exists keeps its cursor.
    pub fn add(&mut self, name: &str)
        ensures
            final(self)@ == (if old(self)@.contains_key(name@) {
                old(self)@
            } else {
                old(self)@.insert(name@, 0)
            }),
    {
        if cursor_map_get(&self.cursors, name).is_none() {
            cursor_map_insert(&mut self.cursors, String::from_str(name), 0);
        }
    }

    /// Moves the cursor of `name` up to `segment_id`; a cursor never moves
    /// back. Returns whether there is such a subscription.
    pub fn acknowledge(&mut self, name: &str, segment_id: usize) -> (known: bool)
        ensures
            known == old(self)@.contains_key(name@),
            final(self)@ == (if old(self)@.contains_key(name@) && old(self)@[name@] < segment_id {
                old(self)@.insert(name@, segment_id)
            } else {
                old(self)@
            }),
    {
        match cursor_map_get(&self.cursors, name) {
            Some(cursor) => {
                if cursor < segment_id {
                    cursor_map_insert(&mut self.cursors, String::from_str(name), segment_id);
                }
                true
            },
            None => false,
        }
    }

    /// The least acknowledged segment id over all subscriptions, or zero
    /// where there is none.
    pub fn min_acknowledged(&self) -> (least: usize)
        ensures
            is_least_cursor(self@.values(), least),
    {
        let cursors = cursor_map_values(&self.cursors);
        least_cursor(&cursors)
    }
}

/// Once every subscription has acknowledged segment `id`, and there is at
/// least one subscription, the least acknowledged id is `id` or later.
pub proof fn lemma_least_cursor_bound(cursors: Map<Seq<char>, usize>, least: usize, id: usize)
    requires
        is_least_cursor(cursors.values(), least),
        exists|name: Seq<char>| cursors.contains_key(name),
        forall|name: Seq<char>| #[trigger] cursors.contains_key(name) ==> cursors[name] >= id,
    ensures
        least >= id,
{
    let name = choose|name: Seq<char>| cursors.contains_key(name);
    assert(cursors.values().contains(cursors[name]));
    assert(!(cursors.values() =~= Set::<usize>::empty()));
    let owner = choose|owner: Seq<char>| cursors.contains_key(owner) && cursors[owner] == least;
    assert(cursors.contains_key(owner));
}

} // verus!
