//! A map from names to values, kept in the order of first insertion.

use crate::utils::text::same_text;
use vstd::prelude::*;
use vstd::string::*;

verus! {

/// A map from names to values. A name occurs at most once.
#[derive(Debug)]
pub struct NameMap<V> {
    keys: Vec<String>,
    values: Vec<V>,
}

/// The map of the first `n` names to their values.
spec fn paired<V>(keys: Seq<String>, values: Seq<V>, n: int) -> Map<Seq<char>, V>
    decreases n,
{
    if n <= 0 {
        Map::empty()
    } else {
        paired(keys, values, n - 1).insert(keys[n - 1]@, values[n - 1])
    }
}

spec fn distinct(keys: Seq<String>) -> bool {
    forall|i: int, j: int|
        0 <= i < j < keys.len() ==> (#[trigger] keys[i])@ != (#[trigger] keys[j])@
}

proof fn lemma_absent<V>(keys: Seq<String>, values: Seq<V>, n: int, key: Seq<char>)
    requires
        n <= keys.len(),
        forall|i: int| 0 <= i < n ==> (#[trigger] keys[i])@ != key,
    ensures
        !paired(keys, values, n).contains_key(key),
    decreases n,
{
    if n > 0 {
        assert(keys[n - 1]@ != key);
        lemma_absent(keys, values, n - 1, key);
    }
}

proof fn lemma_present<V>(keys: Seq<String>, values: Seq<V>, n: int, i: int)
    requires
        distinct(keys),
        0 <= i < n <= keys.len(),
    ensures
        paired(keys, values, n).contains_key(keys[i]@),
        paired(keys, values, n)[keys[i]@] == values[i],
    decreases n,
{
    if i < n - 1 {
        lemma_present(keys, values, n - 1, i);
        assert(keys[i]@ != keys[n - 1]@);
    }
}

proof fn lemma_updated<V>(keys: Seq<String>, values: Seq<V>, n: int, i: int, value: V)
    requires
        distinct(keys),
        0 <= i < keys.len(),
        keys.len() == values.len(),
        n <= keys.len(),
    ensures
        paired(keys, values.update(i, value), n) == if i < n {
            paired(keys, values, n).insert(keys[i]@, value)
        } else {
            paired(keys, values, n)
        },
    decreases n,
{
    if n > 0 {
        lemma_updated(keys, values, n - 1, i, value);
        if i < n - 1 {
            assert(keys[i]@ != keys[n - 1]@);
        }
        assert(paired(keys, values.update(i, value), n) =~= if i < n {
            paired(keys, values, n).insert(keys[i]@, value)
        } else {
            paired(keys, values, n)
        });
    }
}

proof fn lemma_extended<V>(keys: Seq<String>, values: Seq<V>, n: int, key: String, value: V)
    requires
        n <= keys.len(),
        keys.len() == values.len(),
    ensures
        paired(keys.push(key), values.push(value), n) == paired(keys, values, n),
    decreases n,
{
    if n > 0 {
        lemma_extended(keys, values, n - 1, key, value);
    }
}

proof fn lemma_removed<V>(keys: Seq<String>, values: Seq<V>, i: int)
    requires
        distinct(keys),
        keys.len() == values.len(),
        0 <= i < keys.len(),
    ensures
        distinct(keys.remove(i)),
        paired(keys.remove(i), values.remove(i), keys.len() - 1) == paired(
            keys,
            values,
            keys.len() as int,
        ).remove(keys[i]@),
{
    let n = keys.len() as int;
    let rest = keys.remove(i);
    let kept = values.remove(i);
    let before = paired(keys, values, n);
    let after = paired(rest, kept, n - 1);
    assert forall|a: int, b: int| 0 <= a < b < rest.len() implies (#[trigger] rest[a])@ != (
    #[trigger] rest[b])@ by {
        let x = if a < i { a } else { a + 1 };
        let y = if b < i { b } else { b + 1 };
        assert(keys[x]@ != keys[y]@);
    }
    assert forall|key: Seq<char>| #[trigger]
        after.contains_key(key) == before.remove(keys[i]@).contains_key(key) && (
        after.contains_key(key) ==> after[key] == before[key]) by {
        if exists|j: int| 0 <= j < rest.len() && (#[trigger] rest[j])@ == key {
            let j = choose|j: int| 0 <= j < rest.len() && (#[trigger] rest[j])@ == key;
            let x = if j < i { j } else { j + 1 };
            lemma_present(rest, kept, n - 1, j);
            lemma_present(keys, values, n, x);
            assert(rest[j] == keys[x] && kept[j] == values[x]);
            if x < i {
                assert(keys[x]@ != keys[i]@);
            } else {
                assert(keys[i]@ != keys[x]@);
            }
        } else {
            lemma_absent(rest, kept, n - 1, key);
            if key != keys[i]@ {
                assert forall|j: int| 0 <= j < n implies (#[trigger] keys[j])@ != key by {
                    if j < i {
                        assert(rest[j] == keys[j]);
                    } else if j > i {
                        assert(rest[j - 1] == keys[j]);
                    }
                }
                lemma_absent(keys, values, n, key);
            }
        }
    }
    assert(after =~= before.remove(keys[i]@));
}

impl<V> View for NameMap<V> {
    type V = Map<Seq<char>, V>;

    closed spec fn view(&self) -> Map<Seq<char>, V> {
        paired(self.keys@, self.values@, self.keys@.len() as int)
    }
}

impl<V> NameMap<V> {
    #[verifier::type_invariant]
    spec fn inv(self) -> bool {
        distinct(self.keys@) && self.keys@.len() == self.values@.len()
    }

    /// The names, in the order of their first insertion.
    pub closed spec fn names(&self) -> Seq<Seq<char>> {
        Seq::new(self.keys@.len(), |i: int| self.keys@[i]@)
    }

    /// Whether the names are those that have a value, each of them once.
    pub open spec fn listed(&self) -> bool {
        &&& self.names().no_duplicates()
        &&& forall|k: Seq<char>| #[trigger]
            self@.contains_key(k) <==> self.names().contains(k)
    }

    pub fn new() -> (r: Self)
        ensures
            r@ == Map::<Seq<char>, V>::empty(),
            r.names() == Seq::<Seq<char>>::empty(),
    {
        let r = NameMap { keys: Vec::new(), values: Vec::new() };
        assert(r.names() =~= Seq::<Seq<char>>::empty());
        r
    }

    fn find(&self, key: &str) -> (r: Option<usize>)
        ensures
            match r {
                Some(i) => {
                    &&& i < self.keys@.len()
                    &&& self.keys@[i as int]@ == key@
                    &&& self@.contains_key(key@)
                    &&& self@[key@] == self.values@[i as int]
                },
                None => {
                    &&& !self@.contains_key(key@)
                    &&& forall|i: int|
                        0 <= i < self.keys@.len() ==> (#[trigger] self.keys@[i])@ != key@
                },
            },
    {
        proof {
            use_type_invariant(self);
        }
        let mut i: usize = 0;
        while i < self.keys.len()
            invariant
                i <= self.keys@.len(),
                distinct(self.keys@),
                forall|j: int| 0 <= j < i ==> (#[trigger] self.keys@[j])@ != key@,
            decreases self.keys@.len() - i,
        {
            if same_text(self.keys[i].as_str(), key) {
                proof {
                    lemma_present(self.keys@, self.values@, self.keys@.len() as int, i as int);
                }
                return Some(i);
            }
            i = i + 1;
        }
        proof {
            lemma_absent(self.keys@, self.values@, self.keys@.len() as int, key@);
        }
        None
    }

    pub fn get(&self, key: &str) -> (r: Option<&V>)
        ensures
            r == if self@.contains_key(key@) { Some(&self@[key@]) } else { None },
    {
        proof {
            use_type_invariant(self);
        }
        match self.find(key) {
            Some(i) => Some(&self.values[i]),
            None => None,
        }
    }

    pub fn contains_key(&self, key: &str) -> (r: bool)
        ensures
            r == self@.contains_key(key@),
    {
        self.find(key).is_some()
    }

    /// The value of a name, for change in place.
    pub fn get_mut(&mut self, key: &str) -> (r: Option<&mut V>)
        ensures
            match r {
                Some(v) => {
                    &&& old(self)@.contains_key(key@)
                    &&& *v == old(self)@[key@]
                    &&& final(self)@ == old(self)@.insert(key@, *final(v))
                    &&& final(self).names() == old(self).names()
                },
                None => !old(self)@.contains_key(key@) && *final(self) == *old(self),
            },
    {
        match self.find(key) {
            Some(i) => Some(self.value_mut(i)),
            None => None,
        }
    }

    /// The value at a position, for change in place.
    pub fn value_mut(&mut self, i: usize) -> (r: &mut V)
        requires
            i < old(self).names().len(),
        ensures
            old(self)@.contains_key(old(self).names()[i as int]),
            *r == old(self)@[old(self).names()[i as int]],
            final(self)@ == old(self)@.insert(old(self).names()[i as int], *final(r)),
            final(self).names() == old(self).names(),
    {
        proof {
            use_type_invariant(&*self);
        }
        let ghost keys = self.keys@;
        let ghost values = self.values@;
        let r: &mut V = &mut self.values[i];
        proof {
            lemma_present(keys, values, keys.len() as int, i as int);
            lemma_updated(keys, values, keys.len() as int, i as int, *final(r));
        }
        r
    }

    /// Sets the value of a name.
    pub fn insert(&mut self, key: String, value: V)
        ensures
            final(self)@ == old(self)@.insert(key@, value),
            final(self).names() == if old(self)@.contains_key(key@) {
                old(self).names()
            } else {
                old(self).names().push(key@)
            },
    {
        proof {
            use_type_invariant(&*self);
        }
        let ghost before = *self;
        match self.find(key.as_str()) {
            Some(i) => {
                self.values[i] = value;
                proof {
                    lemma_updated(
                        before.keys@,
                        before.values@,
                        before.keys@.len() as int,
                        i as int,
                        value,
                    );
                }
            },
            None => {
                let mut whole = NameMap { keys: Vec::new(), values: Vec::new() };
                std::mem::swap(self, &mut whole);
                let NameMap { keys: mut keys, values: mut values } = whole;
                keys.push(key);
                values.push(value);
                proof {
                    lemma_extended(
                        before.keys@,
                        before.values@,
                        before.keys@.len() as int,
                        key,
                        value,
                    );
                }
                *self = NameMap { keys, values };
            },
        }
        assert(self.names() =~= if before@.contains_key(key@) {
            before.names()
        } else {
            before.names().push(key@)
        });
    }

    /// Removes a name and its value.
    pub fn remove(&mut self, key: &str)
        ensures
            final(self)@ == old(self)@.remove(key@),
            if old(self)@.contains_key(key@) {
                exists|i: int|
                    0 <= i < old(self).names().len() && #[trigger] old(self).names()[i] == key@
                        && final(self).names() == old(self).names().remove(i)
            } else {
                final(self).names() == old(self).names()
            },
    {
        proof {
            use_type_invariant(&*self);
        }
        let ghost before = *self;
        match self.find(key) {
            Some(i) => {
                let mut whole = NameMap { keys: Vec::new(), values: Vec::new() };
                std::mem::swap(self, &mut whole);
                let NameMap { keys: mut keys, values: mut values } = whole;
                let _ = keys.remove(i);
                let _ = values.remove(i);
                proof {
                    lemma_removed(before.keys@, before.values@, i as int);
                }
                *self = NameMap { keys, values };
                assert(before.names()[i as int] == key@);
                assert(self.names() =~= before.names().remove(i as int));
            },
            None => {
                assert(before@.remove(key@) =~= before@);
            },
        }
    }

    pub fn clear(&mut self)
        ensures
            final(self)@ == Map::<Seq<char>, V>::empty(),
            final(self).names() == Seq::<Seq<char>>::empty(),
    {
        *self = NameMap::new();
    }

    /// The number of names.
    pub fn len(&self) -> (r: usize)
        ensures
            r == self.names().len(),
            self.listed(),
    {
        proof {
            use_type_invariant(self);
            let keys = self.keys@;
            let values = self.values@;
            assert forall|k: Seq<char>| #[trigger]
                self@.contains_key(k) <==> self.names().contains(k) by {
                if self.names().contains(k) {
                    let i = choose|i: int| 0 <= i < self.names().len() && self.names()[i] == k;
                    lemma_present(keys, values, keys.len() as int, i);
                } else {
                    assert forall|i: int| 0 <= i < keys.len() implies (#[trigger] keys[i])@ != k by {
                        assert(self.names()[i] == keys[i]@);
                    }
                    lemma_absent(keys, values, keys.len() as int, k);
                }
            }
        }
        self.keys.len()
    }

    /// The name at a position.
    pub fn name(&self, i: usize) -> (r: &String)
        requires
            i < self.names().len(),
        ensures
            r@ == self.names()[i as int],
    {
        &self.keys[i]
    }

    /// The value at a position.
    pub fn value(&self, i: usize) -> (r: &V)
        requires
            i < self.names().len(),
        ensures
            self@.contains_key(self.names()[i as int]),
            *r == self@[self.names()[i as int]],
    {
        proof {
            use_type_invariant(self);
            lemma_present(self.keys@, self.values@, self.keys@.len() as int, i as int);
        }
        &self.values[i]
    }
}

} // verus!
