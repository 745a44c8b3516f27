//! A small cache of resolved voice states, evicting the least recently used.
//!
//! A voice state is the snapshot of a session's `ModelState` after the voice
//! prompt has been consumed. A cached snapshot is shared and never advanced:
//! whoever wants to generate from it takes a `deep_clone` first.

use vstd::prelude::*;
use std::collections::VecDeque;
use std::sync::Arc;
use crate::state::ModelState;

verus! {

/// A voice state under the key it was resolved from.
struct VoiceEntry {
    key: String,
    value: Arc<ModelState>,
}

/// What the cache holds under one key: the key, and the state.
pub type Cached = (Seq<char>, Arc<ModelState>);

/// A cache of voice states with a fixed capacity. When a new key arrives at
/// a full cache, the entry that has gone unused for longest makes room.
pub struct VoiceStateCache {
    capacity: usize,
    slots: VecDeque<VoiceEntry>,
}

/// `Arc::clone`: another handle on the same shared value.
#[verifier::external_body]
fn share(value: &Arc<ModelState>) -> (r: Arc<ModelState>)
    ensures
        r == *value,
{
    Arc::clone(value)
}

/// Entry `i` is the first under `key`.
pub open spec fn first_at(entries: Seq<Cached>, key: Seq<char>, i: int) -> bool {
    &&& 0 <= i < entries.len()
    &&& entries[i].0 == key
    &&& forall|j: int| 0 <= j < i ==> entries[j].0 != key
}

/// Some entry is kept under `key`.
pub open spec fn holds(entries: Seq<Cached>, key: Seq<char>) -> bool {
    exists|i: int| first_at(entries, key, i)
}

/// The index of the first entry under `key`.
pub open spec fn slot(entries: Seq<Cached>, key: Seq<char>) -> int {
    choose|i: int| first_at(entries, key, i)
}

/// No key occurs twice.
pub open spec fn distinct(entries: Seq<Cached>) -> bool {
    forall|i: int, j: int| 0 <= i < j < entries.len() ==> entries[i].0 != entries[j].0
}

/// The entries after `key` has been used: its entry has moved to the back.
pub open spec fn touched(entries: Seq<Cached>, key: Seq<char>) -> Seq<Cached> {
    if holds(entries, key) {
        entries.remove(slot(entries, key)).push(entries[slot(entries, key)])
    } else {
        entries
    }
}

/// The entries after `value` has been put under `key` into a cache of the
/// given capacity: a known key gets the new value and moves to the back; a
/// new key goes to the back, after the front entry has left if the cache was
/// full.
pub open spec fn stored(
    entries: Seq<Cached>,
    capacity: usize,
    key: Seq<char>,
    value: Arc<ModelState>,
) -> Seq<Cached> {
    if holds(entries, key) {
        entries.remove(slot(entries, key)).push((key, value))
    } else if entries.len() >= capacity && entries.len() > 0 {
        entries.drop_first().push((key, value))
    } else {
        entries.push((key, value))
    }
}

/// Where some entry is kept under a key, one of them is the first.
pub proof fn lemma_first_exists(entries: Seq<Cached>, key: Seq<char>, at: int)
    requires
        0 <= at < entries.len(),
        entries[at].0 == key,
    ensures
        holds(entries, key),
        first_at(entries, key, slot(entries, key)),
        slot(entries, key) <= at,
    decreases at,
{
    if forall|j: int| 0 <= j < at ==> entries[j].0 != key {
        assert(first_at(entries, key, at));
    } else {
        let earlier = choose|j: int| 0 <= j < at && entries[j].0 == key;
        lemma_first_exists(entries, key, earlier);
    }
}

/// Using a key keeps the keys distinct and the number of entries the same.
pub proof fn lemma_touched_keeps_order(entries: Seq<Cached>, key: Seq<char>)
    requires
        distinct(entries),
    ensures
        distinct(touched(entries, key)),
        touched(entries, key).len() == entries.len(),
        forall|other: Seq<char>| holds(touched(entries, key), other) <==> holds(entries, other),
{
    let after = touched(entries, key);
    if holds(entries, key) {
        let at = slot(entries, key);
        let n = entries.len() as int;
        assert forall|i: int, j: int| 0 <= i < j < after.len() implies after[i].0 != after[j].0 by {
            let from_i = if i < at {
                i
            } else {
                i + 1
            };
            let from_j = if j == n - 1 {
                at
            } else if j < at {
                j
            } else {
                j + 1
            };
            assert(after[i] == entries[from_i]);
            assert(after[j] == entries[from_j]);
        }
        assert forall|other: Seq<char>| holds(after, other) <==> holds(entries, other) by {
            if holds(entries, other) {
                let i = slot(entries, other);
                let to = if i == at {
                    n - 1
                } else if i < at {
                    i
                } else {
                    i - 1
                };
                assert(after[to] == entries[i]);
                lemma_first_exists(after, other, to);
            }
            if holds(after, other) {
                let j = slot(after, other);
                let from = if j == n - 1 {
                    at
                } else if j < at {
                    j
                } else {
                    j + 1
                };
                assert(after[j] == entries[from]);
                lemma_first_exists(entries, other, from);
            }
        }
    }
}

/// Putting a value keeps the keys distinct and the cache within its
/// capacity, and the key that was put is there afterwards, at the back.
pub proof fn lemma_stored_keeps_bounds(
    entries: Seq<Cached>,
    capacity: usize,
    key: Seq<char>,
    value: Arc<ModelState>,
)
    requires
        distinct(entries),
        entries.len() <= capacity,
        capacity >= 1,
    ensures
        distinct(stored(entries, capacity, key, value)),
        stored(entries, capacity, key, value).len() <= capacity,
        stored(entries, capacity, key, value).last() == (key, value),
        holds(stored(entries, capacity, key, value), key),
{
    let after = stored(entries, capacity, key, value);
    let n = entries.len() as int;
    if holds(entries, key) {
        let at = slot(entries, key);
        assert forall|i: int, j: int| 0 <= i < j < after.len() implies after[i].0 != after[j].0 by {
            let from_i = if i < at {
                i
            } else {
                i + 1
            };
            assert(after[i] == entries[from_i]);
            if j < n - 1 {
                let from_j = if j < at {
                    j
                } else {
                    j + 1
                };
                assert(after[j] == entries[from_j]);
            } else {
                assert(after[j].0 == entries[at].0);
            }
        }
    } else {
        assert forall|i: int| 0 <= i < n implies entries[i].0 != key by {
            if entries[i].0 == key {
                lemma_first_exists(entries, key, i);
            }
        }
        if entries.len() >= capacity && entries.len() > 0 {
            assert forall|i: int, j: int| 0 <= i < j < after.len() implies after[i].0
                != after[j].0 by {
                assert(after[i] == entries[i + 1]);
                if j < n - 1 {
                    assert(after[j] == entries[j + 1]);
                }
            }
        } else {
            assert forall|i: int, j: int| 0 <= i < j < after.len() implies after[i].0
                != after[j].0 by {
                assert(after[i] == entries[i]);
                if j < n {
                    assert(after[j] == entries[j]);
                }
            }
        }
    }
    lemma_first_exists(after, key, after.len() - 1);
}

impl VoiceStateCache {
    /// The number of entries the cache has room for.
    pub closed spec fn capacity(&self) -> usize {
        self.capacity
    }

    /// What the cache holds, the least recently used entry first.
    pub closed spec fn entries(&self) -> Seq<Cached> {
        Seq::new(self.slots@.len(), |i: int| (self.slots@[i].key@, self.slots@[i].value))
    }

    /// The cache has room for at least one entry, holds no more entries
    /// than it has room for, and none of them twice.
    pub open spec fn well_formed(&self) -> bool {
        &&& self.capacity() >= 1
        &&& self.entries().len() <= self.capacity()
        &&& distinct(self.entries())
    }

    /// An empty cache with room for `capacity` entries, and for one if
    /// `capacity` is zero.
    pub fn new(capacity: usize) -> (cache: VoiceStateCache)
        ensures
            cache.capacity() == (if capacity >= 1 {
                capacity
            } else {
                1
            }),
            cache.entries() == Seq::<Cached>::empty(),
            cache.well_formed(),
    {
        let capacity = if capacity >= 1 {
            capacity
        } else {
            1
        };
        let cache = VoiceStateCache { capacity, slots: VecDeque::new() };
        assert(cache.entries() =~= Seq::<Cached>::empty());
        cache
    }

    /// Looks for the first entry under `key`.
    fn find(&self, key: &str) -> (found: Option<usize>)
        ensures
            match found {
                Some(i) => first_at(self.entries(), key@, i as int) && holds(self.entries(), key@)
                    && slot(self.entries(), key@) == i,
                None => !holds(self.entries(), key@),
            },
    {
        let wanted = key.to_owned();
        let mut i: usize = 0;
        while i < self.slots.len()
            invariant
                i <= self.slots@.len(),
                wanted@ == key@,
                forall|j: int| 0 <= j < i ==> self.entries()[j].0 != key@,
            decreases self.slots@.len() - i,
        {
            if self.slots[i].key == wanted {
                assert(self.entries()[i as int].0 == key@);
                assert(first_at(self.entries(), key@, i as int));
                return Some(i);
            }
            assert(self.entries()[i as int].0 != key@);
            i += 1;
        }
        None
    }

    /// Whether a voice state is kept under `key`. This does not count as a
    /// use.
    pub fn contains(&self, key: &str) -> (found: bool)
        ensures
            found == holds(self.entries(), key@),
    {
        self.find(key).is_some()
    }

    /// Counts a use of `key`: its entry, if there is one, becomes the most
    /// recently used.
    pub fn touch(&mut self, key: &str)
        ensures
            final(self).capacity() == old(self).capacity(),
            final(self).entries() == touched(old(self).entries(), key@),
            old(self).well_formed() ==> final(self).well_formed(),
    {
        let ghost before = self.entries();
        proof {
            if distinct(before) {
                lemma_touched_keeps_order(before, key@);
            }
        }
        if let Some(i) = self.find(key) {
            if let Some(entry) = self.slots.remove(i) {
                self.slots.push_back(entry);
            }
        }
        assert(self.entries() =~= touched(before, key@));
    }

    /// The voice state kept under `key`, if there is one. Getting it counts
    /// as a use: the entry becomes the most recently used.
    pub fn get(&mut self, key: &str) -> (value: Option<Arc<ModelState>>)
        ensures
            final(self).capacity() == old(self).capacity(),
            final(self).entries() == touched(old(self).entries(), key@),
            match value {
                Some(state) => holds(old(self).entries(), key@) && state == old(
                    self,
                ).entries()[slot(old(self).entries(), key@)].1,
                None => !holds(old(self).entries(), key@),
            },
            old(self).well_formed() ==> final(self).well_formed(),
    {
        let value = match self.find(key) {
            Some(i) => share(&self.slots[i].value),
            None => {
                return None;
            },
        };
        self.touch(key);
        Some(value)
    }

    /// Puts `value` under `key`. A key that is already there gets the new
    /// value; a new key is added, and if the cache is full the least recently
    /// used entry leaves first. Either way `key` becomes the most recently
    /// used.
    pub fn put(&mut self, key: String, value: Arc<ModelState>)
        ensures
            final(self).capacity() == old(self).capacity(),
            final(self).entries() == stored(
                old(self).entries(),
                old(self).capacity(),
                key@,
                value,
            ),
            old(self).well_formed() ==> final(self).well_formed(),
    {
        let ghost before = self.entries();
        proof {
            if self.well_formed() {
                lemma_stored_keeps_bounds(before, self.capacity, key@, value);
            }
        }
        match self.find(key.as_str()) {
            Some(i) => {
                let _ = self.slots.remove(i);
                self.slots.push_back(VoiceEntry { key, value });
                assert(self.entries() =~= stored(before, self.capacity, key@, value));
            },
            None => {
                if self.slots.len() >= self.capacity {
                    let _ = self.slots.pop_front();
                }
                self.slots.push_back(VoiceEntry { key, value });
                assert(self.entries() =~= stored(before, self.capacity, key@, value));
            },
        }
    }
}

} // verus!
