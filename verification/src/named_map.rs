use vstd::prelude::*;

verus! {

/// A map from names to values, kept as a list of entries in which no name
/// occurs twice.  Its view is the finite map from each name to its value.
#[derive(Debug)]
pub struct NamedMap<V> {
    entries: Vec<(String, V)>,
}

/// No two entries have the same name.
pub open spec fn distinct_names<V>(entries: Seq<(String, V)>) -> bool {
    forall|i: int, j: int|
        0 <= i < entries.len() && 0 <= j < entries.len() && i != j ==> #[trigger] entries[i].0@
            != #[trigger] entries[j].0@
}

/// Some entry is named `k`.
pub open spec fn has_name<V>(entries: Seq<(String, V)>, k: Seq<char>) -> bool {
    exists|i: int| 0 <= i < entries.len() && #[trigger] entries[i].0@ == k
}

/// The map that a list of entries with distinct names stands for.
pub open spec fn entries_map<V>(entries: Seq<(String, V)>) -> Map<Seq<char>, V> {
    Map::new(
        |k: Seq<char>| has_name(entries, k),
        |k: Seq<char>| entries[choose|i: int| 0 <= i < entries.len() && #[trigger] entries[i].0@ == k].1,
    )
}

impl<V> View for NamedMap<V> {
    type V = Map<Seq<char>, V>;

    closed spec fn view(&self) -> Map<Seq<char>, V> {
        entries_map(self.entries@)
    }
}

proof fn lemma_entry_value<V>(entries: Seq<(String, V)>, i: int)
    requires
        distinct_names(entries),
        0 <= i < entries.len(),
    ensures
        entries_map(entries).contains_key(entries[i].0@),
        entries_map(entries)[entries[i].0@] == entries[i].1,
{
    let k = entries[i].0@;
    assert(has_name(entries, k));
    let j = choose|j: int| 0 <= j < entries.len() && #[trigger] entries[j].0@ == k;
    assert(entries[j].0@ == k);
    assert(j == i);
}

proof fn lemma_entries_finite<V>(entries: Seq<(String, V)>)
    ensures
        entries_map(entries).dom().finite(),
    decreases entries.len(),
{
    let names = Set::new(|k: Seq<char>| has_name(entries, k));
    assert(entries_map(entries).dom() =~= names);
    if entries.len() == 0 {
        assert(names =~= Set::<Seq<char>>::empty());
    } else {
        let front = entries.drop_last();
        lemma_entries_finite(front);
        assert(names =~= entries_map(front).dom().insert(entries.last().0@)) by {
            assert forall|k: Seq<char>| names.contains(k) implies entries_map(
                front,
            ).dom().insert(entries.last().0@).contains(k) by {
                let i = choose|i: int| 0 <= i < entries.len() && #[trigger] entries[i].0@ == k;
                if i < entries.len() - 1 {
                    assert(front[i].0@ == k);
                }
            }
            assert forall|k: Seq<char>|
                entries_map(front).dom().insert(entries.last().0@).contains(k) implies names.contains(
                k,
            ) by {
                if k != entries.last().0@ {
                    let i = choose|i: int| 0 <= i < front.len() && #[trigger] front[i].0@ == k;
                    assert(entries[i].0@ == k);
                } else {
                    assert(entries[entries.len() - 1].0@ == k);
                }
            }
        }
    }
}

impl<V> NamedMap<V> {
    #[verifier::type_invariant]
    spec fn names_are_distinct(&self) -> bool {
        distinct_names(self.entries@)
    }

    /// An empty map.
    pub fn new() -> (m: Self)
        ensures
            m@ == Map::<Seq<char>, V>::empty(),
    {
        let m = NamedMap { entries: Vec::new() };
        assert(m@ =~= Map::<Seq<char>, V>::empty());
        m
    }

    /// The number of names in the map.
    pub fn len(&self) -> (n: usize)
        ensures
            n == self@.len(),
    {
        proof {
            use_type_invariant(self);
            self.lemma_len();
        }
        self.entries.len()
    }

    proof fn lemma_len(&self)
        requires
            distinct_names(self.entries@),
        ensures
            self@.len() == self.entries@.len(),
            self@.dom().finite(),
        decreases self.entries@.len(),
    {
        let es = self.entries@;
        lemma_entries_map_len(es);
    }

    /// Whether `name` is in the map, and at which entry.
    fn find(&self, name: &String) -> (idx: Option<usize>)
        ensures
            match idx {
                Some(i) => i < self.entries@.len() && self.entries@[i as int].0@ == name@,
                None => !has_name(self.entries@, name@),
            },
    {
        let mut i: usize = 0;
        while i < self.entries.len()
            invariant
                i <= self.entries@.len(),
                forall|j: int| 0 <= j < i ==> #[trigger] self.entries@[j].0@ != name@,
            decreases self.entries@.len() - i,
        {
            if self.entries[i].0 == *name {
                return Some(i);
            }
            i += 1;
        }
        None
    }

    /// The value stored under `name`, if any.
    pub fn get(&self, name: &str) -> (value: Option<&V>)
        ensures
            match value {
                Some(v) => self@.contains_key(name@) && *v == self@[name@],
                None => !self@.contains_key(name@),
            },
    {
        proof {
            use_type_invariant(self);
        }
        match self.find(&name.to_owned()) {
            Some(i) => {
                proof {
                    lemma_entry_value(self.entries@, i as int);
                }
                Some(&self.entries[i].1)
            },
            None => None,
        }
    }

    /// Whether `name` is in the map.
    pub fn contains_key(&self, name: &str) -> (found: bool)
        ensures
            found == self@.contains_key(name@),
    {
        self.find(&name.to_owned()).is_some()
    }

    /// Stores `value` under `name`, replacing the value stored there before.
    pub fn insert(&mut self, name: String, value: V)
        ensures
            final(self)@ == old(self)@.insert(name@, value),
    {
        proof {
            use_type_invariant(&*self);
        }
        let found = self.find(&name);
        let ghost old_entries = self.entries@;
        let mut entries: Vec<(String, V)> = Vec::new();
        std::mem::swap(&mut entries, &mut self.entries);
        let ghost k = name@;
        match found {
            Some(i) => {
                entries.set(i, (name, value));
                let ghost es = entries@;
                assert(distinct_names(es)) by {
                    assert forall|a: int, b: int|
                        0 <= a < es.len() && 0 <= b < es.len() && a != b implies #[trigger] es[a].0@
                        != #[trigger] es[b].0@ by {
                        assert(old_entries[a].0@ != old_entries[b].0@);
                        if a != i as int && b != i as int {
                            assert(es[a] == old_entries[a]);
                            assert(es[b] == old_entries[b]);
                        } else if a == i as int {
                            assert(es[b] == old_entries[b]);
                        } else {
                            assert(es[a] == old_entries[a]);
                        }
                    }
                }
                proof {
                    lemma_map_after_set(old_entries, es, i as int);
                }
            },
            None => {
                entries.push((name, value));
                let ghost es = entries@;
                assert(distinct_names(es)) by {
                    assert forall|a: int, b: int|
                        0 <= a < es.len() && 0 <= b < es.len() && a != b implies #[trigger] es[a].0@
                        != #[trigger] es[b].0@ by {
                        if a < old_entries.len() && b < old_entries.len() {
                            assert(es[a] == old_entries[a]);
                            assert(es[b] == old_entries[b]);
                        } else if a < old_entries.len() {
                            assert(es[a] == old_entries[a]);
                        } else {
                            assert(es[b] == old_entries[b]);
                        }
                    }
                }
                proof {
                    lemma_map_after_push(old_entries, es);
                }
            },
        }
        self.entries = entries;
    }

    /// The entries of the map, one per name, in no promised order.
    pub fn into_entries(self) -> (entries: Vec<(String, V)>)
        ensures
            distinct_names(entries@),
            entries_map(entries@) == self@,
            entries@.len() == self@.len(),
    {
        proof {
            use_type_invariant(&self);
            self.lemma_len();
        }
        self.entries
    }
}

proof fn lemma_entries_map_len<V>(es: Seq<(String, V)>)
    requires
        distinct_names(es),
    ensures
        entries_map(es).len() == es.len(),
        entries_map(es).dom().finite(),
    decreases es.len(),
{
    lemma_entries_finite(es);
    if es.len() > 0 {
        let front = es.drop_last();
        assert(distinct_names(front)) by {
            assert forall|a: int, b: int|
                0 <= a < front.len() && 0 <= b < front.len() && a != b implies #[trigger] front[a].0@
                != #[trigger] front[b].0@ by {
                assert(es[a] == front[a]);
                assert(es[b] == front[b]);
            }
        }
        lemma_entries_map_len(front);
        let last = es.last().0@;
        assert(!entries_map(front).dom().contains(last)) by {
            if has_name(front, last) {
                let i = choose|i: int| 0 <= i < front.len() && #[trigger] front[i].0@ == last;
                assert(es[i].0@ == es[es.len() - 1].0@);
            }
        }
        assert(entries_map(es).dom() =~= entries_map(front).dom().insert(last)) by {
            assert forall|k: Seq<char>| entries_map(es).dom().contains(k) implies entries_map(
                front,
            ).dom().insert(last).contains(k) by {
                let i = choose|i: int| 0 <= i < es.len() && #[trigger] es[i].0@ == k;
                if i < es.len() - 1 {
                    assert(front[i].0@ == k);
                }
            }
            assert forall|k: Seq<char>|
                entries_map(front).dom().insert(last).contains(k) implies entries_map(
                es,
            ).dom().contains(k) by {
                if k != last {
                    let i = choose|i: int| 0 <= i < front.len() && #[trigger] front[i].0@ == k;
                    assert(es[i].0@ == k);
                } else {
                    assert(es[es.len() - 1].0@ == k);
                }
            }
        }
        assert(entries_map(es).dom().len() == entries_map(front).dom().len() + 1);
    } else {
        assert(entries_map(es).dom() =~= Set::<Seq<char>>::empty());
    }
}

impl<V: Clone> Clone for NamedMap<V> {
    /// A copy with the same names; each value is a clone of the one it copies.
    fn clone(&self) -> (copy: Self)
        ensures
            copy@.dom() == self@.dom(),
            forall|k: Seq<char>| #[trigger] copy@.contains_key(k) ==> cloned::<V>(self@[k], copy@[k]),
    {
        proof {
            use_type_invariant(self);
        }
        let mut entries: Vec<(String, V)> = Vec::new();
        let mut i: usize = 0;
        while i < self.entries.len()
            invariant
                i <= self.entries@.len(),
                distinct_names(self.entries@),
                entries@.len() == i,
                forall|j: int| 0 <= j < i ==> #[trigger] entries@[j].0@ == self.entries@[j].0@,
                forall|j: int| 0 <= j < i ==> cloned::<V>(self.entries@[j].1, #[trigger] entries@[j].1),
            decreases self.entries@.len() - i,
        {
            let name = self.entries[i].0.clone();
            let value = self.entries[i].1.clone();
            entries.push((name, value));
            i += 1;
        }
        let ghost es = entries@;
        let ghost src = self.entries@;
        assert(distinct_names(es)) by {
            assert forall|a: int, b: int|
                0 <= a < es.len() && 0 <= b < es.len() && a != b implies #[trigger] es[a].0@
                != #[trigger] es[b].0@ by {
                assert(src[a].0@ != src[b].0@);
            }
        }
        let copy = NamedMap { entries };
        assert(copy@.dom() =~= self@.dom()) by {
            assert forall|k: Seq<char>| has_name(es, k) <==> has_name(src, k) by {
                if has_name(es, k) {
                    let j = choose|j: int| 0 <= j < es.len() && #[trigger] es[j].0@ == k;
                    assert(src[j].0@ == k);
                }
                if has_name(src, k) {
                    let j = choose|j: int| 0 <= j < src.len() && #[trigger] src[j].0@ == k;
                    assert(es[j].0@ == k);
                }
            }
        }
        assert forall|k: Seq<char>| #[trigger] copy@.contains_key(k) implies cloned::<V>(
            self@[k],
            copy@[k],
        ) by {
            let j = choose|j: int| 0 <= j < es.len() && #[trigger] es[j].0@ == k;
            lemma_entry_value(es, j);
            assert(src[j].0@ == k);
            lemma_entry_value(src, j);
        }
        copy
    }
}

proof fn lemma_map_after_set<V>(old_es: Seq<(String, V)>, es: Seq<(String, V)>, i: int)
    requires
        distinct_names(old_es),
        distinct_names(es),
        0 <= i < old_es.len(),
        es.len() == old_es.len(),
        es[i].0@ == old_es[i].0@,
        forall|j: int| 0 <= j < es.len() && j != i ==> es[j] == old_es[j],
    ensures
        entries_map(es) == entries_map(old_es).insert(es[i].0@, es[i].1),
{
    let k = es[i].0@;
    let m = entries_map(es);
    let m2 = entries_map(old_es).insert(k, es[i].1);
    assert forall|q: Seq<char>| m.contains_key(q) <==> m2.contains_key(q) by {
        if has_name(es, q) {
            let j = choose|j: int| 0 <= j < es.len() && #[trigger] es[j].0@ == q;
            if j != i {
                assert(old_es[j].0@ == q);
            }
        }
        if has_name(old_es, q) {
            let j = choose|j: int| 0 <= j < old_es.len() && #[trigger] old_es[j].0@ == q;
            if j != i {
                assert(es[j].0@ == q);
            } else {
                assert(es[i].0@ == q);
            }
        }
        if q == k {
            assert(es[i].0@ == q);
        }
    }
    assert forall|q: Seq<char>| m.contains_key(q) implies m[q] == m2[q] by {
        let j = choose|j: int| 0 <= j < es.len() && #[trigger] es[j].0@ == q;
        lemma_entry_value(es, j);
        if j != i {
            lemma_entry_value(old_es, j);
        }
    }
    assert(m =~= m2);
}

proof fn lemma_map_after_push<V>(old_es: Seq<(String, V)>, es: Seq<(String, V)>)
    requires
        distinct_names(old_es),
        distinct_names(es),
        es.len() == old_es.len() + 1,
        forall|j: int| 0 <= j < old_es.len() ==> es[j] == old_es[j],
    ensures
        entries_map(es) == entries_map(old_es).insert(es.last().0@, es.last().1),
{
    let n = old_es.len() as int;
    let k = es[n].0@;
    let m = entries_map(es);
    let m2 = entries_map(old_es).insert(k, es[n].1);
    assert forall|q: Seq<char>| m.contains_key(q) <==> m2.contains_key(q) by {
        if has_name(es, q) {
            let j = choose|j: int| 0 <= j < es.len() && #[trigger] es[j].0@ == q;
            if j != n {
                assert(old_es[j].0@ == q);
            }
        }
        if has_name(old_es, q) {
            let j = choose|j: int| 0 <= j < old_es.len() && #[trigger] old_es[j].0@ == q;
            assert(es[j].0@ == q);
        }
        if q == k {
            assert(es[n].0@ == q);
        }
    }
    assert forall|q: Seq<char>| m.contains_key(q) implies m[q] == m2[q] by {
        let j = choose|j: int| 0 <= j < es.len() && #[trigger] es[j].0@ == q;
        lemma_entry_value(es, j);
        if j != n {
            lemma_entry_value(old_es, j);
        }
    }
    assert(m =~= m2);
}

} // verus!
