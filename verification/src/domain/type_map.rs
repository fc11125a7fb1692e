//! A map keyed by a string-like key (a type of personal data, a name), kept as a vector of
//! entries in insertion order with no key twice.
use vstd::prelude::*;

use crate::domain::pd_type::PdType;
use crate::textops::str_eq;

verus! {

/// Value of the entry for key `t` (the last one, were there several).
pub open spec fn lookup_in<K: View<V = Seq<char>>, V>(e: Seq<(K, V)>, t: Seq<char>) -> Option<V>
    decreases e.len(),
{
    if e.len() == 0 {
        None
    } else if e.last().0@ == t {
        Some(e.last().1)
    } else {
        lookup_in(e.drop_last(), t)
    }
}

/// No key occurs twice.
pub open spec fn unique_keys<K: View<V = Seq<char>>, V>(e: Seq<(K, V)>) -> bool {
    forall|i: int, j: int| 0 <= i < j < e.len() ==> (#[trigger] e[i]).0@ != (#[trigger] e[j]).0@
}

pub proof fn lemma_lookup_found<K: View<V = Seq<char>>, V>(e: Seq<(K, V)>, k: int)
    requires
        unique_keys(e),
        0 <= k < e.len(),
    ensures
        lookup_in(e, e[k].0@) == Some(e[k].1),
    decreases e.len(),
{
    if k < e.len() - 1 {
        assert(e.last().0@ != e[k].0@);
        let d = e.drop_last();
        assert(unique_keys(d)) by {
            assert forall|i: int, j: int| 0 <= i < j < d.len() implies (#[trigger] d[i]).0@ != (
            #[trigger] d[j]).0@ by {
                assert(d[i] == e[i] && d[j] == e[j]);
            }
        }
        assert(d[k] == e[k]);
        lemma_lookup_found(d, k);
    }
}

pub proof fn lemma_lookup_absent<K: View<V = Seq<char>>, V>(e: Seq<(K, V)>, t: Seq<char>)
    requires
        forall|i: int| 0 <= i < e.len() ==> (#[trigger] e[i]).0@ != t,
    ensures
        lookup_in(e, t) is None,
    decreases e.len(),
{
    if e.len() > 0 {
        let d = e.drop_last();
        assert forall|i: int| 0 <= i < d.len() implies (#[trigger] d[i]).0@ != t by {
            assert(d[i] == e[i]);
        }
        lemma_lookup_absent(d, t);
    }
}

/// A key compared by its characters.
pub trait MapKey: View<V = Seq<char>> + Sized {
    fn same_key(&self, other: &Self) -> (r: bool)
        ensures
            r == (self@ == other@),
    ;
}

impl MapKey for PdType {
    fn same_key(&self, other: &Self) -> (r: bool) {
        self.same(other)
    }
}

impl MapKey for String {
    fn same_key(&self, other: &Self) -> (r: bool) {
        str_eq(self.as_str(), other.as_str())
    }
}

/// A map from key to value, in insertion order.
pub struct KeyMap<K, V> {
    pub entries: Vec<(K, V)>,
}

/// A map keyed by type of personal data.
pub type TypeMap<V> = KeyMap<PdType, V>;

/// A map keyed by name.
pub type StrMap<V> = KeyMap<String, V>;

impl<K: MapKey, V> KeyMap<K, V> {
    pub open spec fn get_spec(&self, t: Seq<char>) -> Option<V> {
        lookup_in(self.entries@, t)
    }

    pub open spec fn wf(&self) -> bool {
        unique_keys(self.entries@)
    }

    /// The keys, in insertion order.
    pub open spec fn keys(&self) -> Seq<Seq<char>> {
        Seq::new(self.entries@.len(), |i: int| self.entries@[i].0@)
    }

    pub fn new() -> (r: KeyMap<K, V>)
        ensures
            r.wf(),
            r.entries@.len() == 0,
            forall|t: Seq<char>| r.get_spec(t) is None,
    {
        KeyMap { entries: Vec::new() }
    }

    fn find(&self, t: &K) -> (r: Option<usize>)
        requires
            self.wf(),
        ensures
            r matches Some(i) ==> i < self.entries@.len() && self.entries@[i as int].0@ == t@,
            r is None ==> forall|i: int|
                0 <= i < self.entries@.len() ==> (#[trigger] self.entries@[i]).0@ != t@,
    {
        let mut i: usize = 0;
        while i < self.entries.len()
            invariant
                i <= self.entries@.len(),
                forall|j: int| 0 <= j < i ==> (#[trigger] self.entries@[j]).0@ != t@,
            decreases self.entries.len() - i,
        {
            if self.entries[i].0.same_key(t) {
                return Some(i);
            }
            i += 1;
        }
        None
    }

    /// The value of key `t` (scanning from the newest entry).
    pub fn get(&self, t: &K) -> (r: Option<&V>)
        ensures
            r matches Some(v) ==> self.get_spec(t@) == Some(*v),
            r is None ==> self.get_spec(t@) is None,
    {
        let n = self.entries.len();
        assert(self.entries@.take(n as int) =~= self.entries@);
        let mut i = n;
        while i > 0
            invariant
                n == self.entries@.len(),
                i <= n,
                lookup_in(self.entries@, t@) == lookup_in(self.entries@.take(i as int), t@),
            decreases i,
        {
            assert(self.entries@.take(i as int).drop_last() =~= self.entries@.take(i - 1));
            if self.entries[i - 1].0.same_key(t) {
                return Some(&self.entries[i - 1].1);
            }
            i -= 1;
        }
        None
    }

    pub fn contains_key(&self, t: &K) -> (r: bool)
        requires
            self.wf(),
        ensures
            r == self.get_spec(t@) is Some,
    {
        self.get(t).is_some()
    }

    /// Sets the value of a key: in place when present, else appended.
    pub fn insert(&mut self, t: K, v: V)
        requires
            old(self).wf(),
        ensures
            final(self).wf(),
            final(self).get_spec(t@) == Some(v),
            forall|x: Seq<char>| x != t@ ==> #[trigger] final(self).get_spec(x) == old(self).get_spec(x),
            old(self).get_spec(t@) is Some ==> final(self).keys() == old(self).keys(),
            old(self).get_spec(t@) is None ==> final(self).keys() == old(self).keys().push(t@),
    {
        let ghost tv = t@;
        match self.find(&t) {
            Some(i) => {
                let ghost old_e = self.entries@;
                self.entries.set(i, (t, v));
                proof {
                    let e = self.entries@;
                    assert forall|a: int, b: int| 0 <= a < b < e.len() implies (#[trigger] e[a]).0@
                        != (#[trigger] e[b]).0@ by {
                        if a != i && b != i {
                            assert(e[a] == old_e[a] && e[b] == old_e[b]);
                        } else if a == i {
                            assert(e[b] == old_e[b]);
                            assert(old_e[a].0@ == tv);
                        } else {
                            assert(e[a] == old_e[a]);
                            assert(old_e[b].0@ == tv);
                        }
                    }
                    lemma_lookup_found(e, i as int);
                    assert forall|x: Seq<char>| x != tv implies #[trigger] lookup_in(e, x)
                        == lookup_in(old_e, x) by {
                        lemma_lookup_same_except(old_e, e, i as int, x);
                    }
                    assert(self.keys() =~= Seq::new(old_e.len(), |k: int| old_e[k].0@));
                    lemma_lookup_found(old_e, i as int);
                }
            },
            None => {
                let ghost old_e = self.entries@;
                proof {
                    lemma_lookup_absent(old_e, tv);
                }
                self.entries.push((t, v));
                proof {
                    let e = self.entries@;
                    assert(e.drop_last() =~= old_e);
                    assert forall|a: int, b: int| 0 <= a < b < e.len() implies (#[trigger] e[a]).0@
                        != (#[trigger] e[b]).0@ by {
                        assert(e[a] == old_e[a]);
                        if b < old_e.len() {
                            assert(e[b] == old_e[b]);
                        }
                    }
                    assert(self.keys() =~= Seq::new(old_e.len(), |k: int| old_e[k].0@).push(tv));
                }
            },
        }
    }

    /// Removes a key, keeping the order of the others.
    pub fn remove(&mut self, t: &K)
        requires
            old(self).wf(),
        ensures
            final(self).wf(),
            final(self).get_spec(t@) is None,
            forall|x: Seq<char>| x != t@ ==> #[trigger] final(self).get_spec(x) == old(self).get_spec(x),
    {
        match self.find(t) {
            Some(i) => {
                let ghost old_e = self.entries@;
                self.entries.remove(i);
                proof {
                    let e = self.entries@;
                    assert(e =~= old_e.remove(i as int));
                    assert forall|a: int, b: int| 0 <= a < b < e.len() implies (#[trigger] e[a]).0@
                        != (#[trigger] e[b]).0@ by {
                        let a2 = if a < i { a } else { a + 1 };
                        let b2 = if b < i { b } else { b + 1 };
                        assert(e[a] == old_e[a2] && e[b] == old_e[b2]);
                    }
                    assert forall|j: int| 0 <= j < e.len() implies (#[trigger] e[j]).0@ != t@ by {
                        let j2 = if j < i { j } else { j + 1 };
                        assert(e[j] == old_e[j2]);
                    }
                    lemma_lookup_absent(e, t@);
                    assert forall|x: Seq<char>| x != t@ implies #[trigger] lookup_in(e, x)
                        == lookup_in(old_e, x) by {
                        lemma_lookup_remove(old_e, i as int, x);
                    }
                }
            },
            None => {
                proof {
                    lemma_lookup_absent(self.entries@, t@);
                }
            },
        }
    }
}

/// A clone equal to the value it copies.
pub trait ExactClone: Sized {
    fn exact_clone(&self) -> (r: Self)
        ensures
            r == *self,
    ;
}

impl ExactClone for PdType {
    fn exact_clone(&self) -> (r: Self) {
        self.clone()
    }
}

impl ExactClone for String {
    fn exact_clone(&self) -> (r: Self) {
        self.clone()
    }
}

impl ExactClone for u32 {
    fn exact_clone(&self) -> (r: Self) {
        *self
    }
}

impl ExactClone for i32 {
    fn exact_clone(&self) -> (r: Self) {
        *self
    }
}

impl ExactClone for bool {
    fn exact_clone(&self) -> (r: Self) {
        *self
    }
}

impl<K: MapKey + ExactClone, V: ExactClone> KeyMap<K, V> {
    /// A copy with the same entries.
    pub fn clone_map(&self) -> (r: Self)
        ensures
            r.entries@ == self.entries@,
    {
        let mut entries: Vec<(K, V)> = Vec::new();
        let mut i: usize = 0;
        while i < self.entries.len()
            invariant
                i <= self.entries@.len(),
                entries@ == self.entries@.take(i as int),
            decreases self.entries.len() - i,
        {
            let k = self.entries[i].0.exact_clone();
            let v = self.entries[i].1.exact_clone();
            entries.push((k, v));
            assert(entries@ =~= self.entries@.take(i + 1));
            i += 1;
        }
        assert(self.entries@.take(self.entries@.len() as int) =~= self.entries@);
        KeyMap { entries }
    }
}


proof fn lemma_lookup_remove<K: View<V = Seq<char>>, V>(e: Seq<(K, V)>, i: int, x: Seq<char>)
    requires
        0 <= i < e.len(),
        e[i].0@ != x,
    ensures
        lookup_in(e.remove(i), x) == lookup_in(e, x),
    decreases e.len(),
{
    if i == e.len() - 1 {
        assert(e.remove(i) =~= e.drop_last());
    } else {
        assert(e.remove(i).drop_last() =~= e.drop_last().remove(i));
        assert(e.remove(i).last() == e.last());
        lemma_lookup_remove(e.drop_last(), i, x);
    }
}

proof fn lemma_lookup_same_except<K: View<V = Seq<char>>, V>(a: Seq<(K, V)>, b: Seq<(K, V)>, i: int, x: Seq<char>)
    requires
        a.len() == b.len(),
        0 <= i < a.len(),
        a[i].0@ == b[i].0@,
        forall|j: int| 0 <= j < a.len() && j != i ==> a[j] == b[j],
        a[i].0@ != x,
    ensures
        lookup_in(a, x) == lookup_in(b, x),
    decreases a.len(),
{
    if a.len() > 0 {
        if i < a.len() - 1 {
            lemma_lookup_same_except(a.drop_last(), b.drop_last(), i, x);
        } else {
            assert(a.drop_last() =~= b.drop_last());
        }
    }
}

} // verus!
