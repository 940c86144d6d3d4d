//! A small map from keys to values, kept as a list in which no key occurs
//! twice.
use vstd::prelude::*;

verus! {

/// Values that can be told apart by what they stand for.
pub trait Same: View + Sized {
    fn same(&self, other: &Self) -> (r: bool)
        ensures
            r == (self@ == other@),
    ;
}

impl Same for String {
    fn same(&self, other: &Self) -> (r: bool) {
        *self == *other
    }
}

impl Same for usize {
    fn same(&self, other: &Self) -> (r: bool) {
        *self == *other
    }
}

impl Same for u16 {
    fn same(&self, other: &Self) -> (r: bool) {
        *self == *other
    }
}

impl Same for u32 {
    fn same(&self, other: &Self) -> (r: bool) {
        *self == *other
    }
}

impl Same for i64 {
    fn same(&self, other: &Self) -> (r: bool) {
        *self == *other
    }
}

/// What a list of entries maps, the last entry of a key counting.
pub open spec fn mapped<K: View, V>(entries: Seq<(K, V)>) -> Map<K::V, V>
    decreases entries.len(),
{
    if entries.len() == 0 {
        Map::empty()
    } else {
        mapped(entries.drop_last()).insert(entries.last().0@, entries.last().1)
    }
}

/// No key occurs twice.
pub open spec fn distinct<K: View, V>(entries: Seq<(K, V)>) -> bool {
    forall|i: int, j: int|
        #![trigger entries[i], entries[j]]
        0 <= i < j < entries.len() ==> entries[i].0@ != entries[j].0@
}

/// The keys of a map are those of its entries, and with distinct keys each
/// entry is in the map.
pub proof fn mapped_entries<K: View, V>(entries: Seq<(K, V)>)
    ensures
        mapped(entries).dom().finite(),
        forall|k: K::V| #[trigger]
            mapped(entries).contains_key(k) <==> exists|i: int|
                0 <= i < entries.len() && #[trigger] entries[i].0@ == k,
        distinct(entries) ==> forall|i: int|
            0 <= i < entries.len() ==> mapped(entries)[(#[trigger] entries[i]).0@] == entries[i].1,
    decreases entries.len(),
{
    if entries.len() > 0 {
        let rest = entries.drop_last();
        mapped_entries(rest);
        assert forall|k: K::V| #[trigger] mapped(entries).contains_key(k) implies exists|i: int|
            0 <= i < entries.len() && #[trigger] entries[i].0@ == k by {
            if k == entries.last().0@ {
                assert(entries[entries.len() - 1].0@ == k);
            } else {
                assert(mapped(rest).contains_key(k));
                let i = choose|i: int| 0 <= i < rest.len() && #[trigger] rest[i].0@ == k;
                assert(entries[i].0@ == k);
            }
        }
        assert forall|k: K::V|
            (exists|i: int| 0 <= i < entries.len() && #[trigger] entries[i].0@ == k) implies #[trigger] mapped(
            entries,
        ).contains_key(k) by {
            let i = choose|i: int| 0 <= i < entries.len() && #[trigger] entries[i].0@ == k;
            if i < rest.len() {
                assert(rest[i].0@ == k);
                assert(mapped(rest).contains_key(k));
            }
        }
        if distinct(entries) {
            assert(distinct(rest)) by {
                assert forall|i: int, j: int|
                    #![trigger rest[i], rest[j]]
                    0 <= i < j < rest.len() implies rest[i].0@ != rest[j].0@ by {
                    assert(entries[i].0@ != entries[j].0@);
                }
            }
            assert forall|i: int| 0 <= i < entries.len() implies mapped(
                entries,
            )[(#[trigger] entries[i]).0@] == entries[i].1 by {
                if i < rest.len() {
                    assert(rest[i] == entries[i]);
                    assert(entries[i].0@ != entries[entries.len() - 1].0@);
                    assert(mapped(rest)[rest[i].0@] == rest[i].1);
                }
            }
        }
    }
}

pub struct Dict<K: Same, V> {
    entries: Vec<(K, V)>,
}

impl<K: Same, V> View for Dict<K, V> {
    type V = Map<K::V, V>;

    closed spec fn view(&self) -> Map<K::V, V> {
        mapped(self.entries@)
    }
}

impl<K: Same, V> Dict<K, V> {
    #[verifier::type_invariant]
    spec fn inv(self) -> bool {
        distinct(self.entries@)
    }

    /// The entries in the order in which they are kept.
    pub closed spec fn list(self) -> Seq<(K, V)> {
        self.entries@
    }

    /// The kept entries are the map's, each key once.
    pub open spec fn is_listed(self) -> bool {
        &&& self@ == mapped(self.list())
        &&& self@.dom().finite()
        &&& distinct(self.list())
        &&& forall|i: int|
            0 <= i < self.list().len() ==> self@.contains_key((#[trigger] self.list()[i]).0@)
                && self@[self.list()[i].0@] == self.list()[i].1
        &&& forall|k: K::V| #[trigger]
            self@.contains_key(k) ==> exists|i: int|
                0 <= i < self.list().len() && #[trigger] self.list()[i].0@ == k
    }

    proof fn listed(self)
        requires
            distinct(self.entries@),
        ensures
            self.is_listed(),
    {
        mapped_entries(self.entries@);
        assert forall|i: int| 0 <= i < self.list().len() implies self@.contains_key(
            (#[trigger] self.list()[i]).0@,
        ) by {
            assert(self.entries@[i].0@ == self.list()[i].0@);
        }
    }

    pub fn new() -> (r: Self)
        ensures
            r@ == Map::<K::V, V>::empty(),
            r.list().len() == 0,
    {
        Dict { entries: Vec::new() }
    }

    /// How many entries there are.
    pub fn len(&self) -> (r: usize)
        ensures
            r == self.list().len(),
            self.is_listed(),
    {
        proof {
            use_type_invariant(self);
            self.listed();
        }
        self.entries.len()
    }

    pub fn is_empty(&self) -> (r: bool)
        ensures
            r == (self@ == Map::<K::V, V>::empty()),
    {
        proof {
            use_type_invariant(self);
            self.listed();
            if self.entries@.len() > 0 {
                assert(self@.contains_key(self.list()[0].0@));
            }
        }
        self.entries.len() == 0
    }

    /// The key kept at a position.
    pub fn key_at(&self, i: usize) -> (r: &K)
        requires
            i < self.list().len(),
        ensures
            *r == self.list()[i as int].0,
    {
        &self.entries[i].0
    }

    /// The value kept at a position.
    pub fn value_at(&self, i: usize) -> (r: &V)
        requires
            i < self.list().len(),
        ensures
            *r == self.list()[i as int].1,
    {
        &self.entries[i].1
    }

    fn position(&self, key: &K) -> (r: Option<usize>)
        ensures
            match r {
                Some(i) => i < self.entries@.len() && self.entries@[i as int].0@ == key@
                    && self@.contains_key(key@) && self@[key@] == self.entries@[i as int].1,
                None => !self@.contains_key(key@) && forall|j: int|
                    0 <= j < self.entries@.len() ==> (#[trigger] self.entries@[j]).0@ != key@,
            },
    {
        proof {
            use_type_invariant(self);
            self.listed();
        }
        let mut i: usize = 0;
        while i < self.entries.len()
            invariant
                i <= self.entries@.len(),
                forall|j: int| 0 <= j < i ==> (#[trigger] self.entries@[j]).0@ != key@,
            decreases self.entries@.len() - i,
        {
            if self.entries[i].0.same(key) {
                proof {
                    use_type_invariant(self);
            self.listed();
                    assert(self.list()[i as int].0@ == key@);
                }
                return Some(i);
            }
            i += 1;
        }
        proof {
            use_type_invariant(self);
            self.listed();
            if self@.contains_key(key@) {
                let j = choose|j: int|
                    0 <= j < self.list().len() && #[trigger] self.list()[j].0@ == key@;
                assert(self.entries@[j].0@ != key@);
            }
        }
        None
    }

    pub fn get(&self, key: &K) -> (r: Option<&V>)
        ensures
            match r {
                Some(v) => self@.contains_key(key@) && *v == self@[key@],
                None => !self@.contains_key(key@),
            },
    {
        match self.position(key) {
            Some(i) => Some(&self.entries[i].1),
            None => None,
        }
    }

    pub fn contains(&self, key: &K) -> (r: bool)
        ensures
            r == self@.contains_key(key@),
    {
        match self.position(key) {
            Some(_) => true,
            None => false,
        }
    }

    /// Set the value of a key.
    pub fn insert(&mut self, key: K, value: V)
        ensures
            final(self)@ == old(self)@.insert(key@, value),
    {
        let mut entries: Vec<(K, V)> = Vec::new();
        let found = self.position(&key);
        proof {
            use_type_invariant(&*self);
        }
        let ghost before = self.entries@;
        std::mem::swap(&mut entries, &mut self.entries);
        match found {
            Some(i) => {
                entries.set(i, (key, value));
                proof {
                    mapped_entries(before);
                    mapped_entries(entries@);
                    assert(distinct(entries@)) by {
                        assert forall|a: int, b: int|
                            #![trigger entries@[a], entries@[b]]
                            0 <= a < b < entries@.len() implies entries@[a].0@ != entries@[b].0@ by {
                            assert(before[a].0@ != before[b].0@);
                        }
                    }
                    assert(mapped(entries@) =~= mapped(before).insert(key@, value)) by {
                        assert forall|k: K::V| mapped(entries@).contains_key(k) <==> mapped(
                            before,
                        ).insert(key@, value).contains_key(k) by {
                            if mapped(entries@).contains_key(k) {
                                let a = choose|a: int|
                                    0 <= a < entries@.len() && #[trigger] entries@[a].0@ == k;
                                assert(before[a].0@ == k);
                            }
                            if mapped(before).contains_key(k) {
                                let a = choose|a: int|
                                    0 <= a < before.len() && #[trigger] before[a].0@ == k;
                                assert(entries@[a].0@ == k);
                            }
                            assert(entries@[i as int].0@ == key@);
                        }
                        assert forall|k: K::V| mapped(entries@).contains_key(k) implies mapped(
                            entries@,
                        )[k] == mapped(before).insert(key@, value)[k] by {
                            let a = choose|a: int|
                                0 <= a < entries@.len() && #[trigger] entries@[a].0@ == k;
                            assert(before[a].0@ == k);
                            assert(entries@[i as int].0@ == key@);
                            if a != i {
                                assert(entries@[a].1 == before[a].1);
                            }
                        }
                    }
                }
            },
            None => {
                entries.push((key, value));
                proof {
                    assert(entries@.drop_last() == before);
                    assert(distinct(entries@)) by {
                        assert forall|a: int, b: int|
                            #![trigger entries@[a], entries@[b]]
                            0 <= a < b < entries@.len() implies entries@[a].0@ != entries@[b].0@ by {
                            assert(before[a].0@ != key@);
                            if b < before.len() {
                                assert(before[a].0@ != before[b].0@);
                            }
                        }
                    }
                }
            },
        }
        *self = Dict { entries };
    }

    /// Take a key out; whether it was there.
    pub fn remove(&mut self, key: &K) -> (r: bool)
        ensures
            r == old(self)@.contains_key(key@),
            final(self)@ == old(self)@.remove(key@),
    {
        match self.position(key) {
            Some(i) => {
                proof {
                    use_type_invariant(&*self);
                }
                let mut entries: Vec<(K, V)> = Vec::new();
                let ghost before = self.entries@;
                std::mem::swap(&mut entries, &mut self.entries);
                entries.remove(i);
                proof {
                    mapped_entries(before);
                    mapped_entries(entries@);
                    assert(forall|a: int|
                        0 <= a < entries@.len() ==> #[trigger] entries@[a] == before[if a < i {
                            a
                        } else {
                            a + 1
                        }]);
                    assert(distinct(entries@)) by {
                        assert forall|a: int, b: int|
                            #![trigger entries@[a], entries@[b]]
                            0 <= a < b < entries@.len() implies entries@[a].0@ != entries@[b].0@ by {
                            let x = if a < i {
                                a
                            } else {
                                a + 1
                            };
                            let y = if b < i {
                                b
                            } else {
                                b + 1
                            };
                            assert(before[x].0@ != before[y].0@);
                        }
                    }
                    assert(mapped(entries@) =~= mapped(before).remove(key@)) by {
                        assert forall|k: K::V| mapped(entries@).contains_key(k) <==> mapped(
                            before,
                        ).remove(key@).contains_key(k) by {
                            if mapped(entries@).contains_key(k) {
                                let a = choose|a: int|
                                    0 <= a < entries@.len() && #[trigger] entries@[a].0@ == k;
                                let x = if a < i {
                                    a
                                } else {
                                    a + 1
                                };
                                assert(before[x].0@ == k);
                                assert(before[i as int].0@ == key@);
                            }
                            if mapped(before).remove(key@).contains_key(k) {
                                let x = choose|x: int|
                                    0 <= x < before.len() && #[trigger] before[x].0@ == k;
                                let a = if x < i {
                                    x
                                } else {
                                    x - 1
                                };
                                assert(x != i);
                                assert(entries@[a].0@ == k);
                            }
                        }
                        assert forall|k: K::V| mapped(entries@).contains_key(k) implies mapped(
                            entries@,
                        )[k] == mapped(before).remove(key@)[k] by {
                            let a = choose|a: int|
                                0 <= a < entries@.len() && #[trigger] entries@[a].0@ == k;
                            let x = if a < i {
                                a
                            } else {
                                a + 1
                            };
                            assert(before[x] == entries@[a]);
                            assert(before[i as int].0@ == key@);
                        }
                    }
                }
                *self = Dict { entries };
                true
            },
            None => {
                assert(self@.remove(key@) =~= self@);
                false
            },
        }
    }

    /// Whether two maps have the same keys and, under each, the same value.
    pub fn same_as(&self, other: &Self) -> (r: bool) where V: Same
        ensures
            r == (self@.dom() == other@.dom() && forall|k: K::V| #[trigger]
                self@.contains_key(k) ==> self@[k]@ == other@[k]@),
    {
        proof {
            use_type_invariant(self);
            self.listed();
            use_type_invariant(other);
            other.listed();
        }
        let mut i: usize = 0;
        while i < self.entries.len()
            invariant
                i <= self.entries@.len(),
                forall|j: int|
                    0 <= j < i ==> other@.contains_key((#[trigger] self.entries@[j]).0@)
                        && other@[self.entries@[j].0@]@ == self.entries@[j].1@,
            decreases self.entries@.len() - i,
        {
            proof {
                use_type_invariant(self);
            self.listed();
                assert(self@.contains_key(self.list()[i as int].0@));
            }
            match other.get(&self.entries[i].0) {
                Some(v) => {
                    if !v.same(&self.entries[i].1) {
                        return false;
                    }
                },
                None => {
                    return false;
                },
            }
            i += 1;
        }
        let mut i: usize = 0;
        while i < other.entries.len()
            invariant
                i <= other.entries@.len(),
                forall|j: int|
                    0 <= j < i ==> self@.contains_key((#[trigger] other.entries@[j]).0@),
            decreases other.entries@.len() - i,
        {
            if !self.contains(&other.entries[i].0) {
                proof {
                    use_type_invariant(other);
            other.listed();
                    assert(other@.contains_key(other.list()[i as int].0@));
                }
                return false;
            }
            i += 1;
        }
        proof {
            use_type_invariant(self);
            self.listed();
            use_type_invariant(other);
            other.listed();
            assert forall|k: K::V| self@.contains_key(k) implies other@.contains_key(k)
                && self@[k]@ == other@[k]@ by {
                let j = choose|j: int| 0 <= j < self.list().len() && #[trigger] self.list()[j].0@ == k;
                assert(self.entries@[j].0@ == k);
            }
            assert forall|k: K::V| other@.contains_key(k) implies self@.contains_key(k) by {
                let j = choose|j: int|
                    0 <= j < other.list().len() && #[trigger] other.list()[j].0@ == k;
                assert(other.entries@[j].0@ == k);
            }
            assert(self@.dom() =~= other@.dom());
        }
        true
    }
}

} // verus!
