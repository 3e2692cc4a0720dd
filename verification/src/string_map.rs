//! A small map keyed by strings.
//!
//! The maps of this library are keyed by session ids and by the names of a
//! configuration, and they hold few entries. The map is a vector of slots
//! searched from the front. No two slots hold the same key; the map's value
//! is the mathematical map from keys to what the slots hold.

use vstd::prelude::*;

verus! {

#[derive(Debug)]
struct Slot<V> {
    key: String,
    value: V,
}

/// A map from strings to values of type `V`.
#[derive(Debug)]
pub struct StringMap<V> {
    slots: Vec<Slot<V>>,
}

spec fn slot_holds<V>(slots: Seq<Slot<V>>, key: Seq<char>, i: int) -> bool {
    0 <= i < slots.len() && slots[i].key@ == key
}

spec fn has_key<V>(slots: Seq<Slot<V>>, key: Seq<char>) -> bool {
    exists|i: int| slot_holds(slots, key, i)
}

spec fn slot_of<V>(slots: Seq<Slot<V>>, key: Seq<char>) -> int {
    choose|i: int| slot_holds(slots, key, i)
}

spec fn distinct_keys<V>(slots: Seq<Slot<V>>) -> bool {
    forall|i: int, j: int|
        0 <= i < slots.len() && 0 <= j < slots.len() && i != j ==> (#[trigger] slots[i]).key@ != (
        #[trigger] slots[j]).key@
}

spec fn map_of<V>(slots: Seq<Slot<V>>) -> Map<Seq<char>, V> {
    Map::new(|key: Seq<char>| has_key(slots, key), |key: Seq<char>| slots[slot_of(slots, key)].value)
}

proof fn lemma_slot_found<V>(slots: Seq<Slot<V>>, key: Seq<char>, i: int)
    requires
        distinct_keys(slots),
        slot_holds(slots, key, i),
    ensures
        has_key(slots, key),
        slot_of(slots, key) == i,
        map_of(slots).contains_key(key),
        map_of(slots)[key] == slots[i].value,
{
    let j = slot_of(slots, key);
    assert(slot_holds(slots, key, j));
    if j != i {
        assert(slots[i].key@ != slots[j].key@);
    }
}

proof fn lemma_push_slot<V>(slots: Seq<Slot<V>>, slot: Slot<V>)
    requires
        distinct_keys(slots),
        !has_key(slots, slot.key@),
    ensures
        distinct_keys(slots.push(slot)),
        map_of(slots.push(slot)) == map_of(slots).insert(slot.key@, slot.value),
{
    let after = slots.push(slot);
    assert forall|i: int, j: int|
        0 <= i < after.len() && 0 <= j < after.len() && i != j implies (#[trigger] after[i]).key@ != (
    #[trigger] after[j]).key@ by {
        if i == slots.len() {
            assert(!slot_holds(slots, slot.key@, j));
        } else if j == slots.len() {
            assert(!slot_holds(slots, slot.key@, i));
        } else {
            assert(slots[i].key@ != slots[j].key@);
        }
    }
    let expected = map_of(slots).insert(slot.key@, slot.value);
    assert forall|key: Seq<char>| map_of(after).contains_key(key) == expected.contains_key(key) by {
        if has_key(after, key) {
            let i = slot_of(after, key);
            assert(slot_holds(after, key, i));
            if i < slots.len() {
                assert(slot_holds(slots, key, i));
            }
        }
        if has_key(slots, key) {
            let i = slot_of(slots, key);
            assert(slot_holds(after, key, i));
        }
        if key == slot.key@ {
            assert(slot_holds(after, key, slots.len() as int));
        }
    }
    assert forall|key: Seq<char>| map_of(after).contains_key(key) implies map_of(after)[key]
        == expected[key] by {
        let i = slot_of(after, key);
        assert(slot_holds(after, key, i));
        lemma_slot_found(after, key, i);
        if i < slots.len() {
            assert(slot_holds(slots, key, i));
            lemma_slot_found(slots, key, i);
        }
    }
    assert(map_of(after) =~= expected);
}

proof fn lemma_swap_remove_slot<V>(slots: Seq<Slot<V>>, i: int)
    requires
        distinct_keys(slots),
        0 <= i < slots.len(),
    ensures
        distinct_keys(slots.update(i, slots.last()).drop_last()),
        map_of(slots.update(i, slots.last()).drop_last()) == map_of(slots).remove(slots[i].key@),
{
    let last = slots.len() - 1;
    let after = slots.update(i, slots.last()).drop_last();
    // Where each slot of `after` sat in `slots`.
    let origin = |j: int| if j == i { last } else { j };
    assert forall|j: int| 0 <= j < after.len() implies #[trigger] after[j] == slots[origin(j)] by {}
    assert forall|a: int, b: int|
        0 <= a < after.len() && 0 <= b < after.len() && a != b implies (#[trigger] after[a]).key@ != (
    #[trigger] after[b]).key@ by {
        assert(after[a] == slots[origin(a)]);
        assert(after[b] == slots[origin(b)]);
        assert(slots[origin(a)].key@ != slots[origin(b)].key@);
    }
    let removed = slots[i].key@;
    let expected = map_of(slots).remove(removed);
    assert forall|key: Seq<char>| map_of(after).contains_key(key) == expected.contains_key(key) by {
        if has_key(after, key) {
            let j = slot_of(after, key);
            assert(slot_holds(after, key, j));
            assert(after[j] == slots[origin(j)]);
            assert(slot_holds(slots, key, origin(j)));
            if key == removed {
                assert(slots[origin(j)].key@ != slots[i].key@);
            }
        }
        if has_key(slots, key) && key != removed {
            let j = slot_of(slots, key);
            assert(slot_holds(slots, key, j));
            if j == last {
                assert(after[i] == slots[origin(i)]);
                assert(slot_holds(after, key, i));
            } else {
                assert(after[j] == slots[origin(j)]);
                assert(slot_holds(after, key, j));
            }
        }
    }
    assert forall|key: Seq<char>| map_of(after).contains_key(key) implies map_of(after)[key]
        == expected[key] by {
        let j = slot_of(after, key);
        assert(slot_holds(after, key, j));
        lemma_slot_found(after, key, j);
        assert(after[j] == slots[origin(j)]);
        assert(slot_holds(slots, key, origin(j)));
        lemma_slot_found(slots, key, origin(j));
    }
    assert(map_of(after) =~= expected);
}

impl<V> View for StringMap<V> {
    type V = Map<Seq<char>, V>;

    closed spec fn view(&self) -> Map<Seq<char>, V> {
        map_of(self.slots@)
    }
}

impl<V> StringMap<V> {
    /// No key occurs in two slots.
    pub closed spec fn wf(&self) -> bool {
        distinct_keys(self.slots@)
    }

    /// The number of keys in the map.
    pub closed spec fn count(&self) -> nat {
        self.slots@.len()
    }

    /// A well-formed map holds no key exactly when it has no slot.
    pub proof fn lemma_count_zero(&self)
        requires
            self.wf(),
        ensures
            self.count() == 0 <==> self@ == Map::<Seq<char>, V>::empty(),
    {
        if self.slots@.len() == 0 {
            assert forall|key: Seq<char>| !self@.contains_key(key) by {
                if has_key(self.slots@, key) {
                    assert(slot_holds(self.slots@, key, slot_of(self.slots@, key)));
                }
            }
            assert(self@ =~= Map::<Seq<char>, V>::empty());
        } else {
            assert(slot_holds(self.slots@, self.slots@[0].key@, 0));
            assert(self@.contains_key(self.slots@[0].key@));
        }
    }

    /// The keys of the map, each once, in no particular order.
    pub closed spec fn ids(&self) -> Seq<Seq<char>> {
        self.slots@.map_values(|slot: Slot<V>| slot.key@)
    }

    /// The ids are exactly the keys of the map, and none occurs twice.
    pub proof fn lemma_ids(&self)
        requires
            self.wf(),
        ensures
            self.ids().len() == self.count(),
            self.ids().no_duplicates(),
            forall|i: int| 0 <= i < self.ids().len() ==> self@.contains_key(#[trigger] self.ids()[i]),
            forall|key: Seq<char>| #[trigger]
                self@.contains_key(key) ==> exists|i: int|
                    0 <= i < self.ids().len() && self.ids()[i] == key,
    {
        assert forall|i: int| 0 <= i < self.ids().len() implies self@.contains_key(
            #[trigger] self.ids()[i],
        ) by {
            assert(slot_holds(self.slots@, self.ids()[i], i));
        }
        assert forall|key: Seq<char>| #[trigger] self@.contains_key(key) implies exists|i: int|
            0 <= i < self.ids().len() && self.ids()[i] == key by {
            let i = slot_of(self.slots@, key);
            assert(slot_holds(self.slots@, key, i));
            assert(self.ids()[i] == key);
        }
        assert forall|i: int, j: int|
            0 <= i < self.ids().len() && 0 <= j < self.ids().len() && i != j implies self.ids()[i]
            != self.ids()[j] by {
            assert(self.slots@[i].key@ != self.slots@[j].key@);
        }
    }

    /// The `i`-th key of the map.
    pub fn id_at(&self, i: usize) -> (id: &str)
        requires
            i < self.count(),
        ensures
            id@ == self.ids()[i as int],
    {
        self.slots[i].key.as_str()
    }

    /// The value held for the `i`-th key of the map.
    pub fn value_at(&self, i: usize) -> (value: &V)
        requires
            self.wf(),
            i < self.count(),
        ensures
            self@.contains_key(self.ids()[i as int]),
            self@[self.ids()[i as int]] == *value,
    {
        proof {
            lemma_slot_found(self.slots@, self.slots@[i as int].key@, i as int);
        }
        &self.slots[i].value
    }

    /// An empty map.
    pub fn new() -> (map: StringMap<V>)
        ensures
            map.wf(),
            map@ == Map::<Seq<char>, V>::empty(),
            map.count() == 0,
    {
        let map = StringMap { slots: Vec::new() };
        proof {
            map.lemma_count_zero();
        }
        map
    }

    /// The number of keys in the map.
    pub fn len(&self) -> (n: usize)
        ensures
            n == self.count(),
    {
        self.slots.len()
    }

    fn position(&self, key: &str) -> (found: Option<usize>)
        requires
            self.wf(),
        ensures
            match found {
                Some(i) => slot_holds(self.slots@, key@, i as int),
                None => !has_key(self.slots@, key@),
            },
    {
        let wanted = key.to_owned();
        let mut i: usize = 0;
        while i < self.slots.len()
            invariant
                i <= self.slots@.len(),
                wanted@ == key@,
                forall|j: int| 0 <= j < i ==> !slot_holds(self.slots@, key@, j),
            decreases self.slots.len() - i,
        {
            if self.slots[i].key == wanted {
                return Some(i);
            }
            i += 1;
        }
        proof {
            if has_key(self.slots@, key@) {
                assert(slot_holds(self.slots@, key@, slot_of(self.slots@, key@)));
            }
        }
        None
    }

    /// Whether the map holds a value for `key`.
    pub fn contains(&self, key: &str) -> (found: bool)
        requires
            self.wf(),
        ensures
            found == self@.contains_key(key@),
    {
        self.position(key).is_some()
    }

    /// The value held for `key`.
    pub fn get(&self, key: &str) -> (value: Option<&V>)
        requires
            self.wf(),
        ensures
            match value {
                Some(v) => self@.contains_key(key@) && self@[key@] == *v,
                None => !self@.contains_key(key@),
            },
    {
        match self.position(key) {
            Some(i) => {
                proof {
                    lemma_slot_found(self.slots@, key@, i as int);
                }
                Some(&self.slots[i].value)
            },
            None => None,
        }
    }

    /// Removes the value held for `key` and returns it.
    pub fn remove(&mut self, key: &str) -> (value: Option<V>)
        requires
            old(self).wf(),
        ensures
            final(self).wf(),
            final(self)@ == old(self)@.remove(key@),
            match value {
                Some(v) => old(self)@.contains_key(key@) && old(self)@[key@] == v,
                None => !old(self)@.contains_key(key@),
            },
    {
        match self.position(key) {
            Some(i) => {
                proof {
                    lemma_slot_found(self.slots@, key@, i as int);
                    lemma_swap_remove_slot(self.slots@, i as int);
                }
                let slot = self.slots.swap_remove(i);
                Some(slot.value)
            },
            None => {
                assert(self@ =~= self@.remove(key@));
                None
            },
        }
    }

    /// Holds `value` for `key`, in place of what was held for it before.
    pub fn insert(&mut self, key: &str, value: V)
        requires
            old(self).wf(),
        ensures
            final(self).wf(),
            final(self)@ == old(self)@.insert(key@, value),
    {
        let _ = self.remove(key);
        let slot = Slot { key: key.to_owned(), value };
        proof {
            assert(!self@.contains_key(key@));
            lemma_push_slot(self.slots@, slot);
            assert(old(self)@.remove(key@).insert(key@, value) =~= old(self)@.insert(key@, value));
        }
        self.slots.push(slot);
    }

    /// Removes one key from the map and returns it with its value; `None`
    /// when the map is empty.
    pub fn pop(&mut self) -> (taken: Option<(String, V)>)
        requires
            old(self).wf(),
        ensures
            final(self).wf(),
            match taken {
                Some((key, value)) => {
                    &&& old(self)@.contains_key(key@)
                    &&& old(self)@[key@] == value
                    &&& final(self)@ == old(self)@.remove(key@)
                    &&& final(self).count() + 1 == old(self).count()
                },
                None => {
                    &&& old(self)@ == Map::<Seq<char>, V>::empty()
                    &&& final(self)@ == old(self)@
                    &&& old(self).count() == 0
                },
            },
    {
        proof {
            self.lemma_count_zero();
        }
        let n = self.slots.len();
        if n == 0 {
            return None;
        }
        proof {
            lemma_slot_found(self.slots@, self.slots@[n - 1].key@, n - 1);
            lemma_swap_remove_slot(self.slots@, n - 1);
        }
        let slot = self.slots.swap_remove(n - 1);
        Some((slot.key, slot.value))
    }
}

} // verus!
