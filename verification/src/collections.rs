use vstd::prelude::*;

verus! {

/// Values that can be compared and copied by their view; used as keys of
/// [`KeyMap`] and elements of [`KeySet`].
pub trait Key: View + Sized {
    fn same(&self, other: &Self) -> (same: bool)
        ensures
            same == (self@ == other@),
    ;

    fn duplicate(&self) -> (copy: Self)
        ensures
            copy@ == self@,
    ;
}

/// An insertion-ordered map backed by a vector of entries with distinct keys.
#[derive(Debug)]
pub struct KeyMap<K, V> {
    entries: Vec<(K, V)>,
}

impl<K: View, V> KeyMap<K, V> {
    /// Keys of the entries, in order, by their views.
    pub closed spec fn keys(self) -> Seq<K::V> {
        self.entries@.map_values(|entry: (K, V)| entry.0@)
    }

    pub closed spec fn size(self) -> nat {
        self.entries@.len()
    }

    pub closed spec fn key_at_spec(self, index: int) -> K {
        self.entries@[index].0
    }

    pub closed spec fn value_at_spec(self, index: int) -> V {
        self.entries@[index].1
    }

    /// No two entries have the same key.
    pub closed spec fn wf(self) -> bool {
        self.keys().no_duplicates()
    }
}

impl<K: View, V> View for KeyMap<K, V> {
    type V = Map<K::V, V>;

    closed spec fn view(&self) -> Map<K::V, V> {
        Map::new(
            |key: K::V| self.keys().contains(key),
            |key: K::V| self.entries@[self.keys().index_of(key)].1,
        )
    }
}

impl<K: Key, V> KeyMap<K, V> {
    proof fn lemma_entry(self, index: int)
        requires
            self.wf(),
            0 <= index < self.size(),
        ensures
            self@.contains_key(self.key_at_spec(index)@),
            self@[self.key_at_spec(index)@] == self.value_at_spec(index),
            self.keys()[index] == self.key_at_spec(index)@,
    {
        let key = self.key_at_spec(index)@;
        assert(self.keys()[index] == key);
        assert(self.keys().contains(key));
        let found = self.keys().index_of(key);
        assert(self.keys()[found] == key);
    }

    /// Distinct positions hold distinct keys.
    pub proof fn lemma_distinct(self, i: int, j: int)
        requires
            self.wf(),
            0 <= i < self.size(),
            0 <= j < self.size(),
            i != j,
        ensures
            self.key_at_spec(i)@ != self.key_at_spec(j)@,
    {
        assert(self.keys()[i] == self.key_at_spec(i)@);
        assert(self.keys()[j] == self.key_at_spec(j)@);
    }

    pub proof fn lemma_size(self)
        requires
            self.wf(),
        ensures
            self@.dom().finite(),
            self@.dom().len() == self.size(),
    {
        assert(self@.dom() =~= self.keys().to_set());
        self.keys().unique_seq_to_set();
    }

    pub fn new() -> (map: Self)
        ensures
            map.wf(),
            map@ == Map::<K::V, V>::empty(),
            map.size() == 0,
    {
        let map = KeyMap { entries: Vec::new() };
        assert(map@ =~= Map::<K::V, V>::empty());
        map
    }

    pub fn len(&self) -> (len: usize)
        ensures
            len == self.size(),
    {
        self.entries.len()
    }

    /// Position of `key` among the entries.
    pub fn find(&self, key: &K) -> (index: Option<usize>)
        requires
            self.wf(),
        ensures
            match index {
                Some(index) => index < self.size() && self.keys()[index as int] == key@
                    && self.key_at_spec(index as int)@ == key@,
                None => !self@.contains_key(key@),
            },
    {
        let mut index: usize = 0;
        while index < self.entries.len()
            invariant
                index <= self.entries@.len(),
                forall|j: int| 0 <= j < index ==> self.keys()[j] != key@,
            decreases self.entries@.len() - index,
        {
            if self.entries[index].0.same(key) {
                return Some(index);
            }
            index += 1;
        }
        assert(!self.keys().contains(key@)) by {
            if self.keys().contains(key@) {
                let j = self.keys().index_of(key@);
                assert(self.keys()[j] != key@);
            }
        }
        None
    }

    pub fn contains_key(&self, key: &K) -> (contains: bool)
        requires
            self.wf(),
        ensures
            contains == self@.contains_key(key@),
    {
        match self.find(key) {
            Some(index) => {
                proof {
                    self.lemma_entry(index as int);
                }
                true
            },
            None => false,
        }
    }

    pub fn get(&self, key: &K) -> (value: Option<&V>)
        requires
            self.wf(),
        ensures
            value is Some == self@.contains_key(key@),
            value matches Some(value) ==> *value == self@[key@],
    {
        match self.find(key) {
            Some(index) => {
                proof {
                    self.lemma_entry(index as int);
                }
                Some(&self.entries[index].1)
            },
            None => None,
        }
    }

    pub fn key_at(&self, index: usize) -> (key: &K)
        requires
            index < self.size(),
        ensures
            *key == self.key_at_spec(index as int),
    {
        &self.entries[index].0
    }

    pub fn value_at(&self, index: usize) -> (value: &V)
        requires
            index < self.size(),
        ensures
            *value == self.value_at_spec(index as int),
    {
        &self.entries[index].1
    }

    /// Every key of the map is the key of some entry, and every entry is in the map.
    pub proof fn lemma_entries(self)
        requires
            self.wf(),
        ensures
            forall|index: int|
                0 <= index < self.size() ==> self@.contains_key(#[trigger] self.key_at_spec(index)@)
                    && self@[self.key_at_spec(index)@] == self.value_at_spec(index),
            forall|key: K::V|
                self@.contains_key(key) ==> exists|index: int|
                    0 <= index < self.size() && #[trigger] self.key_at_spec(index)@ == key,
            self.keys().len() == self.size(),
            forall|index: int| 0 <= index < self.size() ==> #[trigger] self.keys()[index] == self.key_at_spec(index)@,
    {
        assert forall|index: int| 0 <= index < self.size() implies self@.contains_key(
            #[trigger] self.key_at_spec(index)@,
        ) && self@[self.key_at_spec(index)@] == self.value_at_spec(index) by {
            self.lemma_entry(index);
        }
        assert forall|key: K::V| self@.contains_key(key) implies exists|index: int|
            0 <= index < self.size() && #[trigger] self.key_at_spec(index)@ == key by {
            let index = self.keys().index_of(key);
            assert(self.keys()[index] == key);
            assert(self.keys()[index] == self.key_at_spec(index)@);
        }
    }

    /// Insert or overwrite the value of `key`.
    pub fn insert(&mut self, key: K, value: V)
        requires
            old(self).wf(),
        ensures
            final(self).wf(),
            final(self)@ == old(self)@.insert(key@, value),
            old(self)@.contains_key(key@) ==> final(self).size() == old(self).size(),
            !old(self)@.contains_key(key@) ==> final(self).size() == old(self).size() + 1,
            final(self).keys() == if old(self)@.contains_key(key@) {
                old(self).keys()
            } else {
                old(self).keys().push(key@)
            },
    {
        let ghost before = *self;
        let ghost key_view = key@;
        match self.find(&key) {
            Some(index) => {
                self.entries.set(index, (key, value));
                assert(self.keys() =~= before.keys());
                assert(self@ =~= before@.insert(key_view, value)) by {
                    self.lemma_entry(index as int);
                    assert forall|k: K::V| #[trigger] self@.contains_key(k) && k != key_view implies
                        self@[k] == before@[k] by {
                        let j = self.keys().index_of(k);
                        assert(self.keys()[j] == k);
                        assert(j != index);
                        before.lemma_entry(j);
                    }
                }
            },
            None => {
                self.entries.push((key, value));
                assert(self.keys() =~= before.keys().push(key_view));
                assert(self.wf()) by {
                    assert(!before.keys().contains(key_view));
                }
                assert(self@ =~= before@.insert(key_view, value)) by {
                    self.lemma_entry(before.size() as int);
                    assert forall|k: K::V| #[trigger] self@.contains_key(k) && k != key_view implies
                        self@[k] == before@[k] by {
                        let j = self.keys().index_of(k);
                        assert(self.keys()[j] == k);
                        assert(j < before.size());
                        before.lemma_entry(j);
                    }
                    assert forall|k: K::V| #[trigger] before@.contains_key(k) implies self@.contains_key(k) by {
                        let j = before.keys().index_of(k);
                        assert(before.keys()[j] == k);
                        assert(self.keys()[j] == k);
                    }
                }
            },
        }
    }

    /// Overwrite the value of `key` in place, or append it; returns the value it replaced.
    pub fn replace(&mut self, key: K, value: V) -> (replaced: Option<V>)
        requires
            old(self).wf(),
        ensures
            final(self).wf(),
            final(self)@ == old(self)@.insert(key@, value),
            replaced is Some == old(self)@.contains_key(key@),
            replaced matches Some(previous) ==> previous == old(self)@[key@],
            final(self).keys() == if old(self)@.contains_key(key@) {
                old(self).keys()
            } else {
                old(self).keys().push(key@)
            },
    {
        let ghost before = *self;
        let ghost key_view = key@;
        match self.find(&key) {
            Some(index) => {
                proof {
                    before.lemma_entry(index as int);
                }
                let (_, previous) = self.entries.remove(index);
                self.entries.insert(index, (key, value));
                assert(self.keys() =~= before.keys());
                assert(self@ =~= before@.insert(key_view, value)) by {
                    self.lemma_entry(index as int);
                    assert forall|k: K::V| #[trigger] self@.contains_key(k) && k != key_view implies
                        self@[k] == before@[k] by {
                        let j = self.keys().index_of(k);
                        assert(self.keys()[j] == k);
                        assert(j != index);
                        before.lemma_entry(j);
                    }
                }
                Some(previous)
            },
            None => {
                self.insert(key, value);
                None
            },
        }
    }

    /// Replace the value at `index`, keeping its key; returns the value it replaced.
    pub fn swap_value_at(&mut self, index: usize, value: V) -> (previous: V)
        requires
            old(self).wf(),
            index < old(self).size(),
        ensures
            final(self).wf(),
            previous == old(self).value_at_spec(index as int),
            final(self)@ == old(self)@.insert(old(self).key_at_spec(index as int)@, value),
            final(self).size() == old(self).size(),
            forall|j: int| 0 <= j < final(self).size() ==> #[trigger] final(self).key_at_spec(j) == old(self).key_at_spec(j),
    {
        let ghost before = *self;
        let (key, previous) = self.entries.remove(index);
        let ghost key_view = key@;
        self.entries.insert(index, (key, value));
        assert(self.keys() =~= before.keys());
        assert(self@ =~= before@.insert(key_view, value)) by {
            before.lemma_entry(index as int);
            self.lemma_entry(index as int);
            assert forall|k: K::V| #[trigger] self@.contains_key(k) && k != key_view implies
                self@[k] == before@[k] by {
                let j = self.keys().index_of(k);
                assert(self.keys()[j] == k);
                assert(j != index);
                before.lemma_entry(j);
            }
        }
        previous
    }

    /// Remove the entry at `index`.
    pub fn remove_at(&mut self, index: usize) -> (removed: (K, V))
        requires
            old(self).wf(),
            index < old(self).size(),
        ensures
            final(self).wf(),
            removed.0 == old(self).key_at_spec(index as int),
            removed.1 == old(self).value_at_spec(index as int),
            final(self)@ == old(self)@.remove(removed.0@),
            final(self).size() == old(self).size() - 1,
            forall|j: int|
                0 <= j < index ==> final(self).key_at_spec(j) == old(self).key_at_spec(j)
                    && final(self).value_at_spec(j) == old(self).value_at_spec(j),
            forall|j: int|
                index <= j < final(self).size() ==> final(self).key_at_spec(j) == old(
                    self,
                ).key_at_spec(j + 1) && final(self).value_at_spec(j) == old(self).value_at_spec(
                    j + 1,
                ),
    {
        let ghost before = *self;
        let removed = self.entries.remove(index);
        let ghost key_view = removed.0@;
        assert(self.keys() =~= before.keys().remove(index as int));
        assert(self@ =~= before@.remove(key_view)) by {
            before.lemma_entry(index as int);
            assert forall|k: K::V| #[trigger] self@.contains_key(k) implies k != key_view
                && before@.contains_key(k) && self@[k] == before@[k] by {
                let j = self.keys().index_of(k);
                assert(self.keys()[j] == k);
                let old_j = if j < index { j } else { j + 1 };
                assert(before.keys()[old_j] == k);
                before.lemma_entry(old_j);
            }
            assert forall|k: K::V| #[trigger] before@.contains_key(k) && k != key_view implies
                self@.contains_key(k) by {
                let j = before.keys().index_of(k);
                assert(before.keys()[j] == k);
                assert(j != index);
                let new_j = if j < index { j } else { j - 1 };
                assert(self.keys()[new_j] == k);
            }
        }
        removed
    }

    /// Remove `key`, returning its value if it was present.
    pub fn remove(&mut self, key: &K) -> (removed: Option<V>)
        requires
            old(self).wf(),
        ensures
            final(self).wf(),
            final(self)@ == old(self)@.remove(key@),
            removed is Some == old(self)@.contains_key(key@),
            removed matches Some(value) ==> value == old(self)@[key@],
    {
        match self.find(key) {
            Some(index) => {
                proof {
                    self.lemma_entry(index as int);
                }
                let (_, value) = self.remove_at(index);
                Some(value)
            },
            None => {
                assert(self@.remove(key@) =~= self@);
                None
            },
        }
    }

    pub fn clear(&mut self)
        ensures
            final(self).wf(),
            final(self)@ == Map::<K::V, V>::empty(),
            final(self).size() == 0,
    {
        self.entries.clear();
        assert(self@ =~= Map::<K::V, V>::empty());
    }
}

/// The entries of `a` whose key `b` maps to an equal value.
pub open spec fn agreeing<K, V: View>(a: Map<K, V>, b: Map<K, V>) -> Map<K, V> {
    Map::new(|key: K| a.contains_key(key) && b.contains_key(key) && a[key]@ == b[key]@, |key: K| a[key])
}

impl<K: Key, V: Copy> KeyMap<K, V> {
    /// A copy with the same entries.
    pub fn copy(&self) -> (copy: Self)
        requires
            self.wf(),
        ensures
            copy.wf(),
            copy@ == self@,
    {
        let mut copy = KeyMap::new();
        let mut index: usize = 0;
        while index < self.entries.len()
            invariant
                self.wf(),
                copy.wf(),
                index <= self.size(),
                copy@ == Map::new(
                    |key: K::V| exists|j: int| 0 <= j < index && self.keys()[j] == key,
                    |key: K::V| self@[key],
                ),
            decreases self.size() - index,
        {
            let key = self.entries[index].0.duplicate();
            let value = self.entries[index].1;
            proof {
                self.lemma_entry(index as int);
            }
            let ghost before = copy@;
            copy.insert(key, value);
            index += 1;
            assert(copy@ =~= Map::new(
                |key: K::V| exists|j: int| 0 <= j < index && self.keys()[j] == key,
                |key: K::V| self@[key],
            )) by {
                assert(self.keys()[index - 1] == key@);
                assert forall|k: K::V| (exists|j: int| 0 <= j < index && self.keys()[j] == k) implies
                    #[trigger] copy@.contains_key(k) by {
                    let j = choose|j: int| 0 <= j < index && self.keys()[j] == k;
                    if j < index - 1 {
                        assert(before.contains_key(k));
                    }
                }
                assert forall|k: K::V| #[trigger] copy@.contains_key(k) implies (exists|j: int| 0 <= j < index && self.keys()[j] == k) by {
                    if k != key@ {
                        assert(before.contains_key(k));
                    }
                }
            }
        }
        assert(copy@ =~= self@) by {
            assert forall|k: K::V| #[trigger] self@.contains_key(k) implies copy@.contains_key(k) by {
                let j = self.keys().index_of(k);
                assert(self.keys()[j] == k);
            }
        }
        copy
    }
}

impl<K: Key, V: Key + Copy> KeyMap<K, V> {
    /// Keep only the entries on which `other` agrees.
    pub fn retain_agreeing(&mut self, other: &Self)
        requires
            old(self).wf(),
            other.wf(),
        ensures
            final(self).wf(),
            final(self)@ == agreeing(old(self)@, other@),
    {
        let mut kept = KeyMap::new();
        let mut index: usize = 0;
        while index < self.entries.len()
            invariant
                self.wf(),
                other.wf(),
                kept.wf(),
                index <= self.size(),
                kept@ == Map::new(
                    |key: K::V| (exists|j: int| 0 <= j < index && self.keys()[j] == key)
                        && other@.contains_key(key) && self@[key]@ == other@[key]@,
                    |key: K::V| self@[key],
                ),
            decreases self.size() - index,
        {
            proof {
                self.lemma_entry(index as int);
            }
            let ghost previous = kept@;
            let agrees = match other.get(&self.entries[index].0) {
                Some(value) => value.same(&self.entries[index].1),
                None => false,
            };
            if agrees {
                let key = self.entries[index].0.duplicate();
                let value = self.entries[index].1;
                kept.insert(key, value);
            }
            index += 1;
            assert(kept@ =~= Map::new(
                |key: K::V| (exists|j: int| 0 <= j < index && self.keys()[j] == key)
                    && other@.contains_key(key) && self@[key]@ == other@[key]@,
                |key: K::V| self@[key],
            )) by {
                let current = self.keys()[index - 1];
                assert forall|k: K::V| (exists|j: int| 0 <= j < index && self.keys()[j] == k)
                    && other@.contains_key(k) && self@[k]@ == other@[k]@ implies #[trigger] kept@.contains_key(k) by {
                    let j = choose|j: int| 0 <= j < index && self.keys()[j] == k;
                    if j < index - 1 {
                        assert(previous.contains_key(k));
                    }
                }
                assert forall|k: K::V| #[trigger] kept@.contains_key(k) implies (exists|j: int| 0 <= j < index && self.keys()[j] == k)
                    && other@.contains_key(k) && self@[k]@ == other@[k]@ by {
                    if k != current {
                        assert(previous.contains_key(k));
                    }
                }
            }
        }
        assert(kept@ =~= agreeing(self@, other@)) by {
            assert forall|k: K::V| #[trigger] self@.contains_key(k) implies (exists|j: int| 0 <= j < index && self.keys()[j] == k) by {
                let j = self.keys().index_of(k);
                assert(self.keys()[j] == k);
            }
        }
        *self = kept;
    }
}

/// The first present map, met (see [`agreeing`]) with each later one; a missing
/// map meets to the empty map.
pub open spec fn meet_all<K, V: View>(outputs: Seq<Option<Map<K, V>>>) -> Map<K, V>
    decreases outputs.len(),
{
    if outputs.len() == 0 {
        Map::empty()
    } else if outputs.len() == 1 {
        match outputs[0] {
            Some(first) => first,
            None => Map::empty(),
        }
    } else {
        match outputs.last() {
            Some(last) => agreeing(meet_all(outputs.drop_last()), last),
            None => Map::empty(),
        }
    }
}

pub open spec fn map_views<K: View, V>(outputs: Seq<Option<&KeyMap<K, V>>>) -> Seq<Option<Map<K::V, V>>> {
    outputs.map_values(|output: Option<&KeyMap<K, V>>| match output {
        Some(data) => Some(data@),
        None => None,
    })
}

/// Replace `input` by the meet of `outputs`.
pub fn meet<K: Key, V: Key + Copy>(outputs: &Vec<Option<&KeyMap<K, V>>>, input: &mut KeyMap<K, V>)
    requires
        forall|i: int| 0 <= i < outputs@.len() ==> (#[trigger] outputs@[i] matches Some(data) ==> data.wf()),
    ensures
        final(input).wf(),
        final(input)@ == meet_all(map_views(outputs@)),
{
    input.clear();
    if outputs.len() == 0 {
        assert(map_views(outputs@) =~= Seq::<Option<Map<K::V, V>>>::empty());
        return;
    }
    match outputs[0] {
        Some(first) => {
            *input = first.copy();
        },
        None => {},
    }
    let mut index: usize = 1;
    while index < outputs.len()
        invariant
            forall|i: int| 0 <= i < outputs@.len() ==> (#[trigger] outputs@[i] matches Some(data) ==> data.wf()),
            1 <= index <= outputs@.len(),
            input.wf(),
            input@ == meet_all(map_views(outputs@).take(index as int)),
        decreases outputs@.len() - index,
    {
        let ghost prefix = map_views(outputs@).take(index as int + 1);
        assert(prefix.drop_last() =~= map_views(outputs@).take(index as int));
        match outputs[index] {
            Some(output) => {
                input.retain_agreeing(output);
            },
            None => {
                input.clear();
                assert(meet_all(prefix) == Map::<K::V, V>::empty());
                let mut rest = index + 1;
                while rest < outputs.len()
                    invariant
                        index < rest <= outputs@.len(),
                        input.wf(),
                        input@ == Map::<K::V, V>::empty(),
                        meet_all(map_views(outputs@).take(rest as int)) == Map::<K::V, V>::empty(),
                    decreases outputs@.len() - rest,
                {
                    assert(map_views(outputs@).take(rest as int + 1).drop_last() =~= map_views(outputs@).take(rest as int));
                    proof {
                        match map_views(outputs@)[rest as int] {
                            Some(m) => {
                                assert(agreeing(Map::<K::V, V>::empty(), m) =~= Map::<K::V, V>::empty());
                            },
                            None => {},
                        }
                    }
                    rest += 1;
                }
                assert(map_views(outputs@).take(outputs@.len() as int) =~= map_views(outputs@));
                return;
            },
        }
        index += 1;
    }
    assert(map_views(outputs@).take(outputs@.len() as int) =~= map_views(outputs@));
}

/// An insertion-ordered set backed by a vector of distinct elements.
#[derive(Debug)]
pub struct KeySet<K> {
    elements: Vec<K>,
}

impl<K: View> KeySet<K> {
    pub closed spec fn elements(self) -> Seq<K::V> {
        self.elements@.map_values(|element: K| element@)
    }

    pub closed spec fn size(self) -> nat {
        self.elements@.len()
    }

    pub closed spec fn element_at_spec(self, index: int) -> K {
        self.elements@[index]
    }

    pub closed spec fn wf(self) -> bool {
        self.elements().no_duplicates()
    }
}

impl<K: View> View for KeySet<K> {
    type V = Set<K::V>;

    closed spec fn view(&self) -> Set<K::V> {
        self.elements().to_set()
    }
}

impl<K: Key> KeySet<K> {
    pub proof fn lemma_size(self)
        requires
            self.wf(),
        ensures
            self@.finite(),
            self@.len() == self.size(),
    {
        self.elements().unique_seq_to_set();
    }

    /// Every element of the set is at some position, and each position holds an element.
    pub proof fn lemma_elements(self)
        ensures
            forall|index: int|
                0 <= index < self.size() ==> self@.contains(#[trigger] self.element_at_spec(index)@),
            forall|element: K::V|
                self@.contains(element) ==> exists|index: int|
                    0 <= index < self.size() && #[trigger] self.element_at_spec(index)@ == element,
    {
        assert forall|index: int| 0 <= index < self.size() implies self@.contains(
            #[trigger] self.element_at_spec(index)@,
        ) by {
            assert(self.elements()[index] == self.element_at_spec(index)@);
        }
        assert forall|element: K::V| self@.contains(element) implies exists|index: int|
            0 <= index < self.size() && #[trigger] self.element_at_spec(index)@ == element by {
            let index = self.elements().index_of(element);
            assert(self.elements()[index] == element);
            assert(self.elements()[index] == self.element_at_spec(index)@);
        }
    }

    pub fn new() -> (set: Self)
        ensures
            set.wf(),
            set@ == Set::<K::V>::empty(),
            set.size() == 0,
    {
        let set = KeySet { elements: Vec::new() };
        assert(set@ =~= Set::<K::V>::empty());
        set
    }

    pub fn len(&self) -> (len: usize)
        ensures
            len == self.size(),
    {
        self.elements.len()
    }

    pub fn at(&self, index: usize) -> (element: &K)
        requires
            index < self.size(),
        ensures
            *element == self.element_at_spec(index as int),
    {
        &self.elements[index]
    }

    pub fn find(&self, element: &K) -> (index: Option<usize>)
        ensures
            match index {
                Some(index) => index < self.size() && self.element_at_spec(index as int)@
                    == element@,
                None => !self@.contains(element@),
            },
    {
        let mut index: usize = 0;
        while index < self.elements.len()
            invariant
                index <= self.elements@.len(),
                forall|j: int| 0 <= j < index ==> self.elements()[j] != element@,
            decreases self.elements@.len() - index,
        {
            if self.elements[index].same(element) {
                return Some(index);
            }
            index += 1;
        }
        assert(!self@.contains(element@)) by {
            if self.elements().contains(element@) {
                let j = self.elements().index_of(element@);
                assert(self.elements()[j] != element@);
            }
        }
        None
    }

    pub fn contains(&self, element: &K) -> (contains: bool)
        ensures
            contains == self@.contains(element@),
    {
        match self.find(element) {
            Some(index) => {
                assert(self.elements()[index as int] == element@);
                true
            },
            None => false,
        }
    }

    /// Insert `element`, returning whether it was absent.
    pub fn insert(&mut self, element: K) -> (inserted: bool)
        requires
            old(self).wf(),
        ensures
            final(self).wf(),
            final(self)@ == old(self)@.insert(element@),
            inserted == !old(self)@.contains(element@),
            inserted ==> final(self).size() == old(self).size() + 1,
            !inserted ==> final(self).size() == old(self).size(),
    {
        let ghost before = *self;
        if self.contains(&element) {
            assert(self@.insert(element@) =~= self@);
            false
        } else {
            let ghost view = element@;
            self.elements.push(element);
            assert(self.elements() =~= before.elements().push(view));
            assert(self@ =~= before@.insert(view)) by {
                assert(self.elements()[before.size() as int] == view);
                assert forall|k: K::V| #[trigger] before@.contains(k) implies self@.contains(k) by {
                    let j = before.elements().index_of(k);
                    assert(self.elements()[j] == k);
                }
                assert forall|k: K::V| #[trigger] self@.contains(k) && k != view implies before@.contains(k) by {
                    let j = self.elements().index_of(k);
                    assert(before.elements()[j] == k);
                }
            }
            true
        }
    }

    pub fn remove_at(&mut self, index: usize) -> (removed: K)
        requires
            old(self).wf(),
            index < old(self).size(),
        ensures
            final(self).wf(),
            removed == old(self).element_at_spec(index as int),
            final(self)@ == old(self)@.remove(removed@),
            final(self).size() == old(self).size() - 1,
    {
        let ghost before = *self;
        let removed = self.elements.remove(index);
        assert(self.elements() =~= before.elements().remove(index as int));
        assert(self@ =~= before@.remove(removed@)) by {
            assert(before.elements()[index as int] == removed@);
            assert forall|k: K::V| #[trigger] self@.contains(k) implies k != removed@
                && before@.contains(k) by {
                let j = self.elements().index_of(k);
                let old_j = if j < index { j } else { j + 1 };
                assert(before.elements()[old_j] == k);
            }
            assert forall|k: K::V| #[trigger] before@.contains(k) && k != removed@ implies self@.contains(
                k,
            ) by {
                let j = before.elements().index_of(k);
                assert(j != index);
                let new_j = if j < index { j } else { j - 1 };
                assert(self.elements()[new_j] == k);
            }
        }
        removed
    }

    /// Remove `element`, returning whether it was present.
    pub fn remove(&mut self, element: &K) -> (removed: bool)
        requires
            old(self).wf(),
        ensures
            final(self).wf(),
            final(self)@ == old(self)@.remove(element@),
            removed == old(self)@.contains(element@),
    {
        match self.find(element) {
            Some(index) => {
                assert(self.elements()[index as int] == element@);
                let _ = self.remove_at(index);
                true
            },
            None => {
                assert(self@.remove(element@) =~= self@);
                false
            },
        }
    }

    pub fn clear(&mut self)
        ensures
            final(self).wf(),
            final(self)@ == Set::<K::V>::empty(),
            final(self).size() == 0,
    {
        self.elements.clear();
        assert(self@ =~= Set::<K::V>::empty());
    }

    /// Insert every element of `other`.
    pub fn extend(&mut self, other: &Self)
        requires
            old(self).wf(),
        ensures
            final(self).wf(),
            final(self)@ == old(self)@.union(other@),
    {
        let ghost before = self@;
        let mut index: usize = 0;
        while index < other.elements.len()
            invariant
                self.wf(),
                index <= other.size(),
                self@ == before.union(Set::new(|k: K::V| exists|j: int| 0 <= j < index && other.elements()[j] == k)),
            decreases other.size() - index,
        {
            let element = other.elements[index].duplicate();
            let ghost prefix = Set::new(|k: K::V| exists|j: int| 0 <= j < index && other.elements()[j] == k);
            self.insert(element);
            index += 1;
            assert(self@ =~= before.union(Set::new(|k: K::V| exists|j: int| 0 <= j < index && other.elements()[j] == k))) by {
                assert(other.elements()[index - 1] == element@);
                assert forall|k: K::V| (exists|j: int| 0 <= j < index && other.elements()[j] == k) implies
                    prefix.contains(k) || k == element@ by {
                    let j = choose|j: int| 0 <= j < index && other.elements()[j] == k;
                    if j < index - 1 {
                        assert(prefix.contains(k));
                    }
                }
            }
        }
        assert(self@ =~= before.union(other@)) by {
            assert forall|k: K::V| other@.contains(k) implies (exists|j: int| 0 <= j < index && other.elements()[j] == k) by {
                let j = other.elements().index_of(k);
                assert(other.elements()[j] == k);
            }
        }
    }
}

/// Every fact that survives the meet holds, with the same value, in each of
/// the outputs met; so a missing output leaves nothing.
pub proof fn lemma_meet_lower_bound<K, V: View>(outputs: Seq<Option<Map<K, V>>>, key: K, index: int)
    requires
        0 <= index < outputs.len(),
        meet_all(outputs).contains_key(key),
    ensures
        outputs[index] matches Some(output) && output.contains_key(key) && output[key]@ == meet_all(outputs)[key]@,
    decreases outputs.len(),
{
    if outputs.len() > 1 {
        let prior = outputs.drop_last();
        assert(outputs.last() is Some);
        if index < outputs.len() - 1 {
            assert(prior[index] == outputs[index]);
            lemma_meet_lower_bound(prior, key, index);
        }
    }
}

} // verus!
