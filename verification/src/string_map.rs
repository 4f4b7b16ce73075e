//! A map from strings, walked in the order of its keys.

use vstd::prelude::*;

use crate::text;
use crate::text::{before, in_order, increasing, texts};

verus! {

/// A map from strings, walked in the order of its keys.
#[derive(Debug)]
pub struct StringMap<V> {
    keys: Vec<String>,
    values: Vec<V>,
}

/// What pairs of a key and a value, listed in two columns, make up.
pub open spec fn paired<V>(names: Seq<Seq<char>>, items: Seq<V>) -> Map<Seq<char>, V> {
    Map::new(|name: Seq<char>| names.contains(name), |name: Seq<char>| items[names.index_of(name)])
}

impl<V> StringMap<V> {
    #[verifier::type_invariant]
    spec fn valid(self) -> bool {
        &&& self.keys@.len() == self.values@.len()
        &&& increasing(texts(self.keys@))
    }

    /// The keys, in order.
    pub closed spec fn names(self) -> Seq<Seq<char>> {
        texts(self.keys@)
    }

    /// The values, in the order of their keys.
    pub closed spec fn items(self) -> Seq<V> {
        self.values@
    }

    /// The value under each key.
    pub open spec fn contents(self) -> Map<Seq<char>, V> {
        paired(self.names(), self.items())
    }
}

impl<V: View> View for StringMap<V> {
    type V = Map<Seq<char>, V::V>;

    open spec fn view(&self) -> Map<Seq<char>, V::V> {
        self.contents().map_values(|value: V| value@)
    }
}

/// In an increasing list each string has one place.
proof fn lemma_place(names: Seq<Seq<char>>, i: int)
    requires
        increasing(names),
        0 <= i < names.len(),
    ensures
        names.contains(names[i]),
        names.index_of(names[i]) == i,
{
    let j = names.index_of(names[i]);
    assert(names.contains(names[i]));
    assert(0 <= j < names.len() && names[j] == names[i]);
    text::lemma_before_irreflexive(names[i]);
    if i < j {
        assert(before(names[i], names[j]));
    } else if j < i {
        assert(before(names[j], names[i]));
    }
}

/// What the pairs make up, place by place.
proof fn lemma_paired<V>(names: Seq<Seq<char>>, items: Seq<V>)
    requires
        increasing(names),
        names.len() == items.len(),
    ensures
        forall|i: int| #![trigger names[i]] #![trigger items[i]] 0 <= i < names.len() ==> {
            &&& paired(names, items).contains_key(names[i])
            &&& paired(names, items)[names[i]] == items[i]
        },
{
    assert forall|i: int| #![trigger names[i]] #![trigger items[i]] 0 <= i < names.len() implies {
        &&& paired(names, items).contains_key(names[i])
        &&& paired(names, items)[names[i]] == items[i]
    } by {
        lemma_place(names, i);
    }
}

proof fn lemma_paired_update<V>(names: Seq<Seq<char>>, items: Seq<V>, i: int, value: V)
    requires
        increasing(names),
        names.len() == items.len(),
        0 <= i < names.len(),
    ensures
        paired(names, items.update(i, value)) == paired(names, items).insert(names[i], value),
{
    lemma_place(names, i);
    let left = paired(names, items.update(i, value));
    let right = paired(names, items).insert(names[i], value);
    assert forall|name: Seq<char>| left.contains_key(name) implies left[name] == right[name] by {
        let j = names.index_of(name);
        assert(0 <= j < names.len() && names[j] == name);
        if j != i {
            lemma_place(names, j);
        }
    }
    assert(left =~= right);
}

proof fn lemma_paired_insert<V>(names: Seq<Seq<char>>, items: Seq<V>, i: int, name: Seq<char>, value: V)
    requires
        increasing(names),
        names.len() == items.len(),
        0 <= i <= names.len(),
        forall|j: int| 0 <= j < i ==> before(#[trigger] names[j], name),
        forall|j: int| i <= j < names.len() ==> before(name, #[trigger] names[j]),
    ensures
        increasing(names.insert(i, name)),
        !names.contains(name),
        paired(names.insert(i, name), items.insert(i, value)) == paired(names, items).insert(
            name,
            value,
        ),
{
    let more = names.insert(i, name);
    let values = items.insert(i, value);
    assert forall|a: int, b: int| 0 <= a < b < more.len() implies before(
        #[trigger] more[a],
        #[trigger] more[b],
    ) by {
        if a < i && b > i {
            assert(more[a] == names[a] && more[b] == names[b - 1]);
        } else if a > i {
            assert(more[a] == names[a - 1] && more[b] == names[b - 1]);
        } else if b < i {
            assert(more[a] == names[a] && more[b] == names[b]);
        } else if a == i {
            assert(more[b] == names[b - 1]);
        } else {
            assert(more[a] == names[a]);
        }
    }
    text::lemma_before_irreflexive(name);
    let left = paired(more, values);
    let right = paired(names, items).insert(name, value);
    lemma_paired(more, values);
    lemma_paired(names, items);
    assert(more[i] == name);
    assert forall|key: Seq<char>| left.contains_key(key) <==> right.contains_key(key) by {
        if names.contains(key) {
            let j = names.index_of(key);
            assert(names[j] == key);
            assert(more[if j < i { j } else { j + 1 }] == key);
        }
        if more.contains(key) && key != name {
            let j = more.index_of(key);
            assert(more[j] == key && j != i);
            assert(names[if j < i { j } else { j - 1 }] == key);
        }
    }
    assert forall|key: Seq<char>| left.contains_key(key) implies left[key] == right[key] by {
        let j = more.index_of(key);
        assert(more[j] == key);
        lemma_place(more, j);
        if j < i {
            assert(names[j] == key && values[j] == items[j]);
        } else if j > i {
            assert(names[j - 1] == key && values[j] == items[j - 1]);
        }
    }
    assert(left =~= right);
}

proof fn lemma_paired_remove<V>(names: Seq<Seq<char>>, items: Seq<V>, i: int)
    requires
        increasing(names),
        names.len() == items.len(),
        0 <= i < names.len(),
    ensures
        increasing(names.remove(i)),
        paired(names.remove(i), items.remove(i)) == paired(names, items).remove(names[i]),
{
    let fewer = names.remove(i);
    let values = items.remove(i);
    assert forall|a: int, b: int| 0 <= a < b < fewer.len() implies before(
        #[trigger] fewer[a],
        #[trigger] fewer[b],
    ) by {
        let x = if a < i { a } else { a + 1 };
        let y = if b < i { b } else { b + 1 };
        assert(fewer[a] == names[x] && fewer[b] == names[y]);
    }
    let left = paired(fewer, values);
    let right = paired(names, items).remove(names[i]);
    lemma_paired(fewer, values);
    lemma_paired(names, items);
    lemma_place(names, i);
    assert forall|key: Seq<char>| left.contains_key(key) <==> right.contains_key(key) by {
        if names.contains(key) && key != names[i] {
            let j = names.index_of(key);
            assert(names[j] == key && j != i);
            assert(fewer[if j < i { j } else { j - 1 }] == key);
        }
        if fewer.contains(key) {
            let j = fewer.index_of(key);
            assert(fewer[j] == key);
            let k = if j < i { j } else { j + 1 };
            assert(names[k] == key);
            lemma_place(names, k);
        }
    }
    assert forall|key: Seq<char>| left.contains_key(key) implies left[key] == right[key] by {
        let j = fewer.index_of(key);
        assert(fewer[j] == key);
        let k = if j < i { j } else { j + 1 };
        assert(names[k] == key && values[j] == items[k]);
    }
    assert(left =~= right);
}

/// The values of a map and their views change together.
pub broadcast proof fn lemma_map_values_insert<K, A, B>(map: Map<K, A>, f: spec_fn(A) -> B, key: K, value: A)
    ensures
        #[trigger] map.insert(key, value).map_values(f) == map.map_values(f).insert(key, f(value)),
{
    assert(map.insert(key, value).map_values(f) =~= map.map_values(f).insert(key, f(value)));
}

/// A value leaves a map with its view.
pub broadcast proof fn lemma_map_values_remove<K, A, B>(map: Map<K, A>, f: spec_fn(A) -> B, key: K)
    ensures
        #[trigger] map.remove(key).map_values(f) == map.map_values(f).remove(key),
{
    assert(map.remove(key).map_values(f) =~= map.map_values(f).remove(key));
}

impl<V: View> StringMap<V> {
    /// An empty map.
    pub fn new() -> (map: Self)
        ensures
            map.contents() == Map::<Seq<char>, V>::empty(),
            map@ == Map::<Seq<char>, V::V>::empty(),
    {
        let map = StringMap { keys: Vec::new(), values: Vec::new() };
        assert(map.contents() =~= Map::<Seq<char>, V>::empty());
        assert(map@ =~= Map::<Seq<char>, V::V>::empty());
        map
    }

    /// The number of keys.
    pub fn len(&self) -> (len: usize)
        ensures
            len == self@.len(),
            len == self@.dom().len(),
            self@.dom().finite(),
            len == self.names().len(),
            len == self.items().len(),
            increasing(self.names()),
    {
        proof {
            use_type_invariant(self);
            let names = self.names();
            assert(self@.dom() =~= names.to_set());
            assert(names.no_duplicates()) by {
                assert forall|i: int, j: int| 0 <= i < names.len() && 0 <= j < names.len() && i != j implies names[i]
                    != names[j] by {
                    lemma_place(names, i);
                    lemma_place(names, j);
                }
            }
            names.unique_seq_to_set();
            vstd::seq_lib::seq_to_set_is_finite(names);
        }
        self.keys.len()
    }

    /// Whether there is no key.
    pub fn is_empty(&self) -> (res: bool)
        ensures
            res == (self@ == Map::<Seq<char>, V::V>::empty()),
    {
        proof {
            use_type_invariant(self);
            if self.keys@.len() == 0 {
                assert(self@ =~= Map::<Seq<char>, V::V>::empty());
            } else {
                assert(self.names().contains(self.names()[0]));
                assert(self@.contains_key(self.names()[0]));
            }
        }
        self.keys.len() == 0
    }

    /// The place of a key, or else the place where it belongs.
    fn find(&self, key: &str) -> (res: (usize, bool))
        ensures
            res.0 <= self.names().len(),
            res.1 == self@.contains_key(key@),
            res.1 == self.contents().contains_key(key@),
            res.1 ==> res.0 < self.names().len() && self.names()[res.0 as int] == key@,
            !res.1 ==> {
                &&& forall|j: int| 0 <= j < res.0 ==> before(#[trigger] self.names()[j], key@)
                &&& forall|j: int|
                    res.0 <= j < self.names().len() ==> before(key@, #[trigger] self.names()[j])
            },
    {
        proof {
            use_type_invariant(self);
        }
        let mut i: usize = 0;
        while i < self.keys.len() && text::is_before(self.keys[i].as_str(), key)
            invariant
                increasing(self.names()),
                self.names() == texts(self.keys@),
                i <= self.keys@.len(),
                forall|j: int| 0 <= j < i ==> before(#[trigger] self.names()[j], key@),
            decreases self.keys@.len() - i,
        {
            i = i + 1;
        }
        if i < self.keys.len() && text::same(self.keys[i].as_str(), key) {
            assert(self.names()[i as int] == key@);
            (i, true)
        } else {
            proof {
                assert forall|j: int| i <= j < self.names().len() implies before(
                    key@,
                    #[trigger] self.names()[j],
                ) by {
                    text::lemma_before_total(self.names()[i as int], key@);
                    assert(before(key@, self.names()[i as int]));
                    if j > i {
                        text::lemma_before_transitive(
                            key@,
                            self.names()[i as int],
                            self.names()[j],
                        );
                    }
                }
                text::lemma_before_irreflexive(key@);
                if self.names().contains(key@) {
                    let j = self.names().index_of(key@);
                    assert(self.names()[j] == key@);
                }
            }
            (i, false)
        }
    }

    /// Whether there is a value under a key.
    pub fn contains_key(&self, key: &str) -> (res: bool)
        ensures
            res == self@.contains_key(key@),
    {
        self.find(key).1
    }

    /// The value under a key.
    pub fn get(&self, key: &str) -> (res: Option<&V>)
        ensures
            match res {
                Some(value) => {
                    &&& self@.contains_key(key@)
                    &&& self.contents().contains_key(key@)
                    &&& *value == self.contents()[key@]
                    &&& value@ == self@[key@]
                },
                None => !self@.contains_key(key@) && !self.contents().contains_key(key@),
            },
    {
        let (i, found) = self.find(key);
        if found {
            proof {
                use_type_invariant(self);
                lemma_paired(self.names(), self.items());
            }
            Some(&self.values[i])
        } else {
            None
        }
    }

    /// The value under a key, to be changed.
    pub fn get_mut(&mut self, key: &str) -> (res: Option<&mut V>)
        ensures
            match res {
                Some(value) => {
                    &&& old(self)@.contains_key(key@)
                    &&& *value == old(self).contents()[key@]
                    &&& (*value)@ == old(self)@[key@]
                    &&& final(self).contents() == old(self).contents().insert(key@, *final(value))
                    &&& final(self)@ == old(self)@.insert(key@, final(value)@)
                },
                None => !old(self)@.contains_key(key@) && *final(self) == *old(self),
            },
    {
        broadcast use lemma_map_values_insert;

        let (i, found) = self.find(key);
        if found {
            proof {
                use_type_invariant(&*self);
                lemma_paired(self.names(), self.items());
                assert forall|value: V| #[trigger]
                    paired(self.names(), self.items().update(i as int, value)) == self.contents().insert(
                        key@,
                        value,
                    ) by {
                    lemma_paired_update(self.names(), self.items(), i as int, value);
                }
            }
            Some(&mut self.values[i])
        } else {
            None
        }
    }

    /// Puts a value under a key, in place of one that was there.
    pub fn insert(&mut self, key: String, value: V) -> (res: Option<V>)
        ensures
            final(self).contents() == old(self).contents().insert(key@, value),
            final(self)@ == old(self)@.insert(key@, value@),
            match res {
                Some(previous) => {
                    &&& old(self).contents().contains_key(key@)
                    &&& previous == old(self).contents()[key@]
                    &&& previous@ == old(self)@[key@]
                },
                None => !old(self)@.contains_key(key@),
            },
    {
        broadcast use lemma_map_values_insert;

        let (i, found) = self.find(key.as_str());
        proof {
            use_type_invariant(&*self);
            lemma_paired(self.names(), self.items());
        }
        if found {
            proof {
                lemma_paired_update(self.names(), self.items(), i as int, value);
            }
            let mut value = value;
            std::mem::swap(&mut self.values[i], &mut value);
            Some(value)
        } else {
            let mut taken = StringMap { keys: Vec::new(), values: Vec::new() };
            std::mem::swap(self, &mut taken);
            let StringMap { mut keys, mut values } = taken;
            let ghost name = key@;
            proof {
                lemma_paired_insert(texts(keys@), values@, i as int, name, value);
            }
            keys.insert(i, key);
            values.insert(i, value);
            proof {
                assert(texts(keys@) =~= old(self).names().insert(i as int, name));
            }
            *self = StringMap { keys, values };
            None
        }
    }

    /// Takes the value under a key out of the map.
    pub fn remove(&mut self, key: &str) -> (res: Option<V>)
        ensures
            final(self).contents() == old(self).contents().remove(key@),
            final(self)@ == old(self)@.remove(key@),
            match res {
                Some(value) => {
                    &&& old(self).contents().contains_key(key@)
                    &&& old(self)@.contains_key(key@)
                    &&& value == old(self).contents()[key@]
                    &&& value@ == old(self)@[key@]
                },
                None => !old(self)@.contains_key(key@) && *final(self) == *old(self),
            },
    {
        broadcast use lemma_map_values_remove;

        let (i, found) = self.find(key);
        if found {
            proof {
                use_type_invariant(&*self);
                lemma_paired(self.names(), self.items());
                lemma_paired_remove(self.names(), self.items(), i as int);
            }
            let mut taken = StringMap { keys: Vec::new(), values: Vec::new() };
            std::mem::swap(self, &mut taken);
            let StringMap { mut keys, mut values } = taken;
            let _ = keys.remove(i);
            let value = values.remove(i);
            proof {
                assert(texts(keys@) =~= old(self).names().remove(i as int));
            }
            *self = StringMap { keys, values };
            Some(value)
        } else {
            assert(self.contents() =~= self.contents().remove(key@));
            None
        }
    }

    /// The key at a place.
    pub fn key_at(&self, i: usize) -> (key: &String)
        requires
            i < self.names().len(),
        ensures
            key@ == self.names()[i as int],
            self@.contains_key(key@),
    {
        proof {
            use_type_invariant(self);
            lemma_paired(self.names(), self.items());
            assert(self.contents().contains_key(self.names()[i as int]));
        }
        &self.keys[i]
    }

    /// The value at a place.
    pub fn value_at(&self, i: usize) -> (value: &V)
        requires
            i < self.names().len(),
        ensures
            *value == self.items()[i as int],
            self@.contains_key(self.names()[i as int]),
            self.contents()[self.names()[i as int]] == *value,
            self@[self.names()[i as int]] == value@,
    {
        proof {
            use_type_invariant(self);
            lemma_paired(self.names(), self.items());
        }
        &self.values[i]
    }

    /// The value at a place, to be changed.
    pub fn value_at_mut(&mut self, i: usize) -> (value: &mut V)
        requires
            i < old(self).names().len(),
        ensures
            *value == old(self).items()[i as int],
            final(self).names() == old(self).names(),
            final(self).items() == old(self).items().update(i as int, *final(value)),
    {
        proof {
            use_type_invariant(&*self);
        }
        &mut self.values[i]
    }

    /// The keys, in order.
    pub fn keys(&self) -> (keys: Vec<String>)
        ensures
            texts(keys@) == in_order(self@.dom()),
            texts(keys@) == self.names(),
            self@.dom().finite(),
    {
        proof {
            use_type_invariant(self);
            text::lemma_in_order(self.names());
            assert(self@.dom() =~= self.names().to_set());
            vstd::seq_lib::seq_to_set_is_finite(self.names());
        }
        text::copy_texts(&self.keys)
    }
}

/// A type whose values can be doubled.
pub trait Duplicate: View + Sized {
    /// A value that holds the same.
    fn duplicate(&self) -> (copy: Self)
        ensures
            copy@ == self@,
    ;
}

impl Duplicate for String {
    fn duplicate(&self) -> (copy: String) {
        self.clone()
    }
}

impl<V: Duplicate> StringMap<V> {
    /// A map that holds the same.
    pub fn copy(&self) -> (copy: StringMap<V>)
        ensures
            copy@ == self@,
    {
        proof {
            use_type_invariant(self);
        }
        let mut values: Vec<V> = Vec::new();
        for i in 0..self.values.len()
            invariant
                values@.len() == i,
                forall|j: int| 0 <= j < i ==> (#[trigger] values@[j])@ == self.values@[j]@,
        {
            values.push(self.values[i].duplicate());
        }
        let copy = StringMap { keys: text::copy_texts(&self.keys), values };
        proof {
            lemma_each(*self, copy, |value: V::V| value);
            assert(self@.map_values(|value: V::V| value) =~= self@);
        }
        copy
    }
}

/// Two maps with the same keys, where the values of one come from those of the other, place by
/// place.
pub proof fn lemma_each<V: View>(map: StringMap<V>, other: StringMap<V>, f: spec_fn(V::V) -> V::V)
    requires
        other.names() == map.names(),
        increasing(map.names()),
        map.items().len() == map.names().len(),
        other.items().len() == map.names().len(),
        forall|i: int| 0 <= i < map.names().len() ==> (#[trigger] other.items()[i])@ == f(map.items()[i]@),
    ensures
        other@ == map@.map_values(f),
{
    lemma_paired(map.names(), map.items());
    lemma_paired(other.names(), other.items());
    assert forall|name: Seq<char>| other@.contains_key(name) implies other@[name] == f(map@[name]) by {
        let i = map.names().index_of(name);
        assert(map.names()[i] == name);
        assert(other.items()[i]@ == f(map.items()[i]@));
    }
    assert(other@ =~= map@.map_values(f));
}

} // verus!
