//! A map from text to values that keeps its keys in order.
use vstd::prelude::*;

verus! {

/// The first text comes before the second in the order of the characters' code points.
pub open spec fn precedes(a: Seq<char>, b: Seq<char>) -> bool
    decreases a.len(),
{
    if b.len() == 0 {
        false
    } else if a.len() == 0 {
        true
    } else if a[0] != b[0] {
        (a[0] as int) < (b[0] as int)
    } else {
        precedes(a.skip(1), b.skip(1))
    }
}

/// No text comes before itself.
pub proof fn precedes_is_irreflexive(a: Seq<char>)
    ensures
        !precedes(a, a),
    decreases a.len(),
{
    if a.len() > 0 {
        precedes_is_irreflexive(a.skip(1));
    }
}

/// Of two texts one comes before the other, or they are the same.
pub proof fn precedes_is_total(a: Seq<char>, b: Seq<char>)
    ensures
        precedes(a, b) || precedes(b, a) || a == b,
    decreases a.len(),
{
    if a.len() == 0 || b.len() == 0 {
        if a.len() == 0 && b.len() == 0 {
            assert(a =~= b);
        }
    } else if a[0] == b[0] {
        precedes_is_total(a.skip(1), b.skip(1));
        if a.skip(1) == b.skip(1) {
            assert(a =~= seq![a[0]] + a.skip(1));
            assert(b =~= seq![b[0]] + b.skip(1));
        }
    }
}

/// The order of texts is transitive.
pub proof fn precedes_is_transitive(a: Seq<char>, b: Seq<char>, c: Seq<char>)
    requires
        precedes(a, b),
        precedes(b, c),
    ensures
        precedes(a, c),
    decreases a.len(),
{
    if a.len() > 0 && a[0] == b[0] && b[0] == c[0] {
        precedes_is_transitive(a.skip(1), b.skip(1), c.skip(1));
    }
}

/// Of two texts at most one comes before the other.
pub proof fn precedes_is_asymmetric(a: Seq<char>, b: Seq<char>)
    requires
        precedes(a, b),
    ensures
        !precedes(b, a),
        a != b,
{
    if precedes(b, a) {
        precedes_is_transitive(a, b, a);
    }
    precedes_is_irreflexive(a);
}

/// Whether the code point of the first character is the smaller one.
fn code_before(c: char, d: char) -> (r: bool)
    ensures
        r == ((c as int) < (d as int)),
{
    (c as u32) < (d as u32)
}

/// Whether the first text comes before the second in the order of the code points.
pub fn comes_before(a: &str, b: &str) -> (r: bool)
    ensures
        r == precedes(a@, b@),
{
    let left: Vec<char> = crate::text::to_chars(a);
    let right: Vec<char> = crate::text::to_chars(b);
    let mut i: usize = 0;
    assert(a@.skip(0) =~= a@);
    assert(b@.skip(0) =~= b@);
    while i < left.len() && i < right.len()
        invariant
            left@ == a@,
            right@ == b@,
            i <= left@.len(),
            i <= right@.len(),
            precedes(a@, b@) == precedes(a@.skip(i as int), b@.skip(i as int)),
        decreases left@.len() - i,
    {
        assert(a@.skip(i as int).skip(1) =~= a@.skip(i + 1));
        assert(b@.skip(i as int).skip(1) =~= b@.skip(i + 1));
        let c: char = left[i];
        let d: char = right[i];
        if c != d {
            return code_before(c, d);
        }
        i = i + 1;
    }
    i < right.len()
}

/// Every text comes before those after it.
pub open spec fn is_sorted(keys: Seq<Seq<char>>) -> bool {
    forall|i: int, j: int| 0 <= i < j < keys.len() ==> #[trigger] precedes(keys[i], keys[j])
}

/// The keys of a list of entries.
pub open spec fn keys_of<T>(entries: Seq<(String, T)>) -> Seq<Seq<char>> {
    entries.map_values(|entry: (String, T)| entry.0@)
}

/// The map that a list of entries stands for.
pub open spec fn map_of<T>(entries: Seq<(String, T)>) -> Map<Seq<char>, T> {
    Map::new(
        |key: Seq<char>| keys_of(entries).contains(key),
        |key: Seq<char>| entries[keys_of(entries).index_of(key)].1,
    )
}

/// A list with sorted keys holds each key once.
proof fn sorted_keys_differ(keys: Seq<Seq<char>>, i: int, j: int)
    requires
        is_sorted(keys),
        0 <= i < keys.len(),
        0 <= j < keys.len(),
        keys[i] == keys[j],
    ensures
        i == j,
{
    precedes_is_irreflexive(keys[i]);
    if i < j {
        assert(precedes(keys[i], keys[j]));
    } else if j < i {
        assert(precedes(keys[j], keys[i]));
    }
}

/// In a list with sorted keys an entry gives the value of its key.
proof fn entry_is_mapped<T>(entries: Seq<(String, T)>, i: int)
    requires
        is_sorted(keys_of(entries)),
        0 <= i < entries.len(),
    ensures
        map_of(entries).contains_key(entries[i].0@),
        map_of(entries)[entries[i].0@] == entries[i].1,
{
    let keys = keys_of(entries);
    assert(keys[i] == entries[i].0@);
    let k = keys.index_of(keys[i]);
    assert(keys.contains(keys[i]));
    sorted_keys_differ(keys, i, k);
}

/// A map from text to values. The entries stand in the order of their keys.
#[derive(Debug)]
pub struct TextMap<T> {
    entries: Vec<(String, T)>,
}

impl<T> View for TextMap<T> {
    type V = Map<Seq<char>, T>;

    closed spec fn view(&self) -> Map<Seq<char>, T> {
        map_of(self.entries@)
    }
}

impl<T: Clone> Clone for TextMap<T> {
    /// A map with the same keys and a clone of each value.
    fn clone(&self) -> (r: Self)
        ensures
            r.keys() == self.keys(),
            forall|key: Seq<char>| r@.contains_key(key) <==> self@.contains_key(key),
            forall|key: Seq<char>| #[trigger]
                r@.contains_key(key) ==> cloned::<T>(self@[key], r@[key]),
    {
        proof {
            use_type_invariant(self);
        }
        let mut entries: Vec<(String, T)> = Vec::new();
        let mut i: usize = 0;
        while i < self.entries.len()
            invariant
                i <= self.entries@.len(),
                entries@.len() == i,
                forall|j: int|
                    0 <= j < i ==> (#[trigger] entries@[j]).0@ == self.entries@[j].0@ && cloned::<
                        T,
                    >(self.entries@[j].1, entries@[j].1),
            decreases self.entries@.len() - i,
        {
            entries.push((self.entries[i].0.clone(), self.entries[i].1.clone()));
            i = i + 1;
        }
        proof {
            let keys = keys_of(self.entries@);
            assert(keys_of(entries@) =~= keys);
            assert forall|key: Seq<char>| #[trigger] map_of(entries@).contains_key(key) implies cloned::<
                T,
            >(map_of(self.entries@)[key], map_of(entries@)[key]) by {
                let j = keys.index_of(key);
                assert(0 <= j < keys.len());
                assert(entries@[j].0@ == self.entries@[j].0@);
            }
        }
        TextMap { entries }
    }
}

impl<T> TextMap<T> {
    /// The keys are sorted.
    #[verifier::type_invariant]
    spec fn well_formed(self) -> bool {
        is_sorted(keys_of(self.entries@))
    }

    /// The keys in order.
    pub closed spec fn keys(&self) -> Seq<Seq<char>> {
        keys_of(self.entries@)
    }

    /// A map without entries.
    pub fn new() -> (r: TextMap<T>)
        ensures
            r@ == Map::<Seq<char>, T>::empty(),
            r.keys() == Seq::<Seq<char>>::empty(),
    {
        let entries: Vec<(String, T)> = Vec::new();
        assert(keys_of(entries@) =~= Seq::empty());
        assert(map_of(entries@) =~= Map::empty());
        TextMap { entries }
    }

    /// The number of entries. The keys are sorted, and they are those of the map.
    pub fn len(&self) -> (r: usize)
        ensures
            r == self.keys().len(),
            is_sorted(self.keys()),
            self.keys().no_duplicates(),
            forall|key: Seq<char>| self@.contains_key(key) <==> self.keys().contains(key),
    {
        proof {
            use_type_invariant(self);
            let keys = self.keys();
            assert forall|i: int, j: int|
                0 <= i < keys.len() && 0 <= j < keys.len() && i != j implies keys[i] != keys[j] by {
                if keys[i] == keys[j] {
                    sorted_keys_differ(keys, i, j);
                }
            }
        }
        self.entries.len()
    }

    /// The key at a position.
    pub fn key_at(&self, i: usize) -> (r: &String)
        requires
            i < self.keys().len(),
        ensures
            r@ == self.keys()[i as int],
            self@.contains_key(r@),
    {
        proof {
            use_type_invariant(self);
            entry_is_mapped(self.entries@, i as int);
        }
        &self.entries[i].0
    }

    /// The value at a position.
    pub fn value_at(&self, i: usize) -> (r: &T)
        requires
            i < self.keys().len(),
        ensures
            self@.contains_key(self.keys()[i as int]),
            *r == self@[self.keys()[i as int]],
    {
        proof {
            use_type_invariant(self);
            entry_is_mapped(self.entries@, i as int);
        }
        &self.entries[i].1
    }

    /// The first position whose key does not come before the given one.
    fn position(&self, key: &str) -> (r: usize)
        ensures
            r <= self.entries@.len(),
            forall|j: int| 0 <= j < r ==> precedes(#[trigger] self.entries@[j].0@, key@),
            forall|j: int|
                r <= j < self.entries@.len() ==> !precedes(#[trigger] self.entries@[j].0@, key@),
    {
        proof {
            use_type_invariant(self);
        }
        let mut i: usize = 0;
        while i < self.entries.len() && comes_before(&self.entries[i].0, key)
            invariant
                i <= self.entries@.len(),
                forall|j: int| 0 <= j < i ==> precedes(#[trigger] self.entries@[j].0@, key@),
            decreases self.entries@.len() - i,
        {
            i = i + 1;
        }
        proof {
            use_type_invariant(self);
            let keys = keys_of(self.entries@);
            assert forall|j: int| i <= j < self.entries@.len() implies !precedes(
                #[trigger] self.entries@[j].0@,
                key@,
            ) by {
                if i < j && precedes(self.entries@[j].0@, key@) {
                    assert(precedes(keys[i as int], keys[j]));
                    precedes_is_transitive(keys[i as int], keys[j], key@);
                }
            }
        }
        i
    }

    /// The position of the key, where the map has it.
    fn find(&self, key: &str) -> (r: Option<usize>)
        ensures
            match r {
                Some(i) => i < self.entries@.len() && self.entries@[i as int].0@ == key@
                    && self@.contains_key(key@) && self@[key@] == self.entries@[i as int].1,
                None => !self@.contains_key(key@),
            },
    {
        let i: usize = self.position(key);
        proof {
            use_type_invariant(self);
        }
        if i < self.entries.len() && !comes_before(key, &self.entries[i].0) {
            proof {
                precedes_is_total(key@, self.entries@[i as int].0@);
                entry_is_mapped(self.entries@, i as int);
            }
            Some(i)
        } else {
            proof {
                let keys = keys_of(self.entries@);
                if keys.contains(key@) {
                    let j = choose|j: int| 0 <= j < keys.len() && keys[j] == key@;
                    assert(keys[j] == self.entries@[j].0@);
                    precedes_is_irreflexive(key@);
                    assert(j >= i);
                    if j > i {
                        assert(precedes(keys[i as int], keys[j]));
                        assert(keys[i as int] == self.entries@[i as int].0@);
                    }
                }
            }
            None
        }
    }

    /// The value of the key, where the map has it.
    pub fn get(&self, key: &str) -> (r: Option<&T>)
        ensures
            match r {
                Some(value) => self@.contains_key(key@) && *value == self@[key@],
                None => !self@.contains_key(key@),
            },
    {
        match self.find(key) {
            Some(i) => Some(&self.entries[i].1),
            None => None,
        }
    }

    /// Whether the map has the key.
    pub fn contains_key(&self, key: &str) -> (r: bool)
        ensures
            r == self@.contains_key(key@),
    {
        self.find(key).is_some()
    }

    /// Gives the key the value. Returns the value that it had.
    pub fn insert(&mut self, key: String, value: T) -> (r: Option<T>)
        ensures
            final(self)@ == old(self)@.insert(key@, value),
            r == (if old(self)@.contains_key(key@) {
                Some(old(self)@[key@])
            } else {
                None
            }),
    {
        let found: Option<usize> = self.find(&key);
        let place: usize = self.position(&key);
        proof {
            use_type_invariant(&*self);
        }
        let ghost before = self.entries@;
        let ghost name = key@;
        let mut entries: Vec<(String, T)> = Vec::new();
        assert(keys_of(entries@) =~= Seq::empty());
        std::mem::swap(&mut entries, &mut self.entries);
        let result: Option<T> = match found {
            Some(i) => {
                let old_entry: (String, T) = entries.remove(i);
                entries.insert(i, (key, value));
                proof {
                    assert(keys_of(entries@) =~= keys_of(before));
                    replacing_updates_map(before, i as int, entries@);
                }
                Some(old_entry.1)
            },
            None => {
                entries.insert(place, (key, value));
                proof {
                    absent_key_is_not_listed(before, name);
                    inserting_keeps_order(before, place as int, entries@);
                }
                None
            },
        };
        self.entries = entries;
        result
    }

    /// Takes the key out of the map. Returns the value that it had.
    pub fn remove(&mut self, key: &str) -> (r: Option<T>)
        ensures
            final(self)@ == old(self)@.remove(key@),
            r == (if old(self)@.contains_key(key@) {
                Some(old(self)@[key@])
            } else {
                None
            }),
    {
        let found: Option<usize> = self.find(key);
        proof {
            use_type_invariant(&*self);
        }
        let ghost before = self.entries@;
        match found {
            Some(i) => {
                let mut entries: Vec<(String, T)> = Vec::new();
                assert(keys_of(entries@) =~= Seq::empty());
                std::mem::swap(&mut entries, &mut self.entries);
                let old_entry: (String, T) = entries.remove(i);
                proof {
                    removing_keeps_order(before, i as int, entries@);
                }
                self.entries = entries;
                Some(old_entry.1)
            },
            None => {
                assert(self@.remove(key@) =~= self@);
                None
            },
        }
    }
}

/// A map has as many keys as are listed, where each is listed once.
pub proof fn keys_are_counted<T>(keys: Seq<Seq<char>>, map: Map<Seq<char>, T>)
    requires
        keys.no_duplicates(),
        forall|key: Seq<char>| map.contains_key(key) <==> keys.contains(key),
    ensures
        map.dom().finite(),
        map.dom().len() == keys.len(),
{
    assert(map.dom() =~= keys.to_set());
    keys.unique_seq_to_set();
}

/// A key that is not in the map is that of no entry.
proof fn absent_key_is_not_listed<T>(entries: Seq<(String, T)>, key: Seq<char>)
    requires
        !map_of(entries).contains_key(key),
    ensures
        !keys_of(entries).contains(key),
{
}

/// An entry in place of another with the same key changes the value of that key alone.
proof fn replacing_updates_map<T>(before: Seq<(String, T)>, i: int, after: Seq<(String, T)>)
    requires
        is_sorted(keys_of(before)),
        0 <= i < before.len(),
        after.len() == before.len(),
        after[i].0@ == before[i].0@,
        forall|j: int| 0 <= j < before.len() && j != i ==> after[j] == before[j],
    ensures
        keys_of(after) == keys_of(before),
        map_of(after) == map_of(before).insert(after[i].0@, after[i].1),
{
    assert(keys_of(after) =~= keys_of(before));
    let keys = keys_of(before);
    assert forall|key: Seq<char>| #[trigger] map_of(after).contains_key(key) implies map_of(after)[key]
        == map_of(before).insert(after[i].0@, after[i].1)[key] by {
        let k = keys.index_of(key);
        if key == after[i].0@ {
            assert(keys[i] == key);
            sorted_keys_differ(keys, i, k);
        }
    }
    assert(keys[i] == before[i].0@);
    assert(map_of(after) =~= map_of(before).insert(after[i].0@, after[i].1));
}

/// An entry with a new key put at its place keeps the order and adds the key to the map.
proof fn inserting_keeps_order<T>(before: Seq<(String, T)>, i: int, after: Seq<(String, T)>)
    requires
        is_sorted(keys_of(before)),
        0 <= i <= before.len(),
        after.len() == before.len() + 1,
        after == before.insert(i, after[i]),
        !keys_of(before).contains(after[i].0@),
        forall|j: int| 0 <= j < i ==> precedes(#[trigger] before[j].0@, after[i].0@),
        forall|j: int| i <= j < before.len() ==> !precedes(#[trigger] before[j].0@, after[i].0@),
    ensures
        is_sorted(keys_of(after)),
        map_of(after) == map_of(before).insert(after[i].0@, after[i].1),
{
    let old_keys = keys_of(before);
    let keys = keys_of(after);
    let name = after[i].0@;
    assert(keys =~= old_keys.insert(i, name));
    assert forall|a: int, b: int| 0 <= a < b < keys.len() implies #[trigger] precedes(
        keys[a],
        keys[b],
    ) by {
        if b == i {
            assert(keys[a] == before[a].0@);
        } else if a == i {
            assert(keys[b] == before[b - 1].0@);
            precedes_is_total(name, before[b - 1].0@);
            assert(old_keys[b - 1] == before[b - 1].0@);
        } else {
            let x = if a < i { a } else { a - 1 };
            let y = if b < i { b } else { b - 1 };
            assert(precedes(old_keys[x], old_keys[y]));
        }
    }
    assert forall|key: Seq<char>| keys.contains(key) <==> (old_keys.contains(key) || key == name) by {
        if keys.contains(key) {
            let k = keys.index_of(key);
            if k < i {
                assert(old_keys[k] == key);
            } else if k > i {
                assert(old_keys[k - 1] == key);
            }
        }
        if old_keys.contains(key) {
            let k = old_keys.index_of(key);
            if k < i {
                assert(keys[k] == key);
            } else {
                assert(keys[k + 1] == key);
            }
        }
        assert(keys[i] == name);
    }
    assert forall|key: Seq<char>| #[trigger] map_of(after).contains_key(key) implies map_of(after)[key]
        == map_of(before).insert(name, after[i].1)[key] by {
        let k = keys.index_of(key);
        if key == name {
            assert(keys[i] == name);
            sorted_keys_differ(keys, i, k);
        } else {
            let x = if k < i { k } else { k - 1 };
            assert(old_keys[x] == key);
            let y = old_keys.index_of(key);
            sorted_keys_differ(old_keys, x, y);
        }
    }
    assert(map_of(after) =~= map_of(before).insert(name, after[i].1));
}

/// Taking an entry out keeps the order and takes its key out of the map.
proof fn removing_keeps_order<T>(before: Seq<(String, T)>, i: int, after: Seq<(String, T)>)
    requires
        is_sorted(keys_of(before)),
        0 <= i < before.len(),
        after == before.remove(i),
    ensures
        is_sorted(keys_of(after)),
        map_of(after) == map_of(before).remove(before[i].0@),
{
    let old_keys = keys_of(before);
    let keys = keys_of(after);
    let name = before[i].0@;
    assert(old_keys[i] == name);
    assert(keys =~= old_keys.remove(i));
    assert forall|a: int, b: int| 0 <= a < b < keys.len() implies #[trigger] precedes(
        keys[a],
        keys[b],
    ) by {
        let x = if a < i { a } else { a + 1 };
        let y = if b < i { b } else { b + 1 };
        assert(precedes(old_keys[x], old_keys[y]));
    }
    assert forall|key: Seq<char>| keys.contains(key) <==> (old_keys.contains(key) && key != name) by {
        if keys.contains(key) {
            let k = keys.index_of(key);
            let x = if k < i { k } else { k + 1 };
            assert(old_keys[x] == key);
            if key == name {
                sorted_keys_differ(old_keys, x, i);
            }
        }
        if old_keys.contains(key) && key != name {
            let k = old_keys.index_of(key);
            if k < i {
                assert(keys[k] == key);
            } else {
                assert(keys[k - 1] == key);
            }
        }
    }
    assert forall|key: Seq<char>| #[trigger] map_of(after).contains_key(key) implies map_of(after)[key]
        == map_of(before).remove(name)[key] by {
        let k = keys.index_of(key);
        let x = if k < i { k } else { k + 1 };
        assert(old_keys[x] == key);
        let y = old_keys.index_of(key);
        sorted_keys_differ(old_keys, x, y);
    }
    assert(map_of(after) =~= map_of(before).remove(name));
}

} // verus!
