//! A map from strings to values that remembers the order in which its keys came.

use crate::text::views;
use vstd::hash_map::StringHashMap;
use vstd::prelude::*;

verus! {

/// A map from strings. Its view is the map; `keys` are its keys in the order in which they
/// were first inserted.
#[verifier::reject_recursive_types(V)]
pub struct Table<V> {
    index: StringHashMap<usize>,
    entries: Vec<(String, V)>,
}

impl<V> Table<V> {
    /// Every entry is found under its key, and nothing else is found.
    #[verifier::type_invariant]
    closed spec fn wf(self) -> bool {
        &&& forall|i: int|
            #![trigger self.entries@[i]]
            0 <= i < self.entries@.len() ==> self.index@.contains_key(self.entries@[i].0@)
                && self.index@[self.entries@[i].0@] == i
        &&& forall|k: Seq<char>| #[trigger]
            self.index@.contains_key(k) ==> self.index@[k] < self.entries@.len()
                && self.entries@[self.index@[k] as int].0@ == k
    }

    /// The keys, in the order in which they were first inserted.
    pub closed spec fn keys(self) -> Seq<Seq<char>> {
        Seq::new(self.entries@.len(), |i: int| self.entries@[i].0@)
    }

    pub closed spec fn map(self) -> Map<Seq<char>, V> {
        Map::new(
            |k: Seq<char>| self.index@.contains_key(k),
            |k: Seq<char>| self.entries@[self.index@[k] as int].1,
        )
    }
}

impl<V> View for Table<V> {
    type V = Map<Seq<char>, V>;

    open spec fn view(&self) -> Map<Seq<char>, V> {
        self.map()
    }
}

impl<V> Table<V> {
    /// A map without keys.
    pub fn new() -> (r: Table<V>)
        ensures
            r@ == Map::<Seq<char>, V>::empty(),
            r.keys() == Seq::<Seq<char>>::empty(),
    {
        let r = Table { index: StringHashMap::new(), entries: Vec::new() };
        assert(r@ =~= Map::<Seq<char>, V>::empty());
        assert(r.keys() =~= Seq::<Seq<char>>::empty());
        r
    }

    /// The keys are those of the map, each once.
    pub fn facts(&self)
        ensures
            self.keys().no_duplicates(),
            forall|k: Seq<char>| #[trigger] self@.contains_key(k) <==> self.keys().contains(k),
            self.keys().len() <= usize::MAX,
    {
        proof {
            use_type_invariant(self);
        }
        let n: usize = self.entries.len();
        proof {
            assert forall|i: int, j: int| 0 <= i < j < self.keys().len() implies self.keys()[i]
                != self.keys()[j] by {
                let _ = self.entries@[i];
                let _ = self.entries@[j];
                assert(self.index@[self.entries@[i].0@] == i);
                assert(self.index@[self.entries@[j].0@] == j);
            }
            assert forall|k: Seq<char>| #[trigger] self@.contains_key(k) implies self.keys().contains(k) by {
                assert(self.keys()[self.index@[k] as int] == k);
            }
            assert forall|k: Seq<char>| self.keys().contains(k) implies #[trigger] self@.contains_key(k) by {
                let i = choose|i: int| 0 <= i < self.keys().len() && self.keys()[i] == k;
                let _ = self.entries@[i];
            }
        }
    }

    /// The number of keys.
    pub fn len(&self) -> (n: usize)
        ensures
            n == self.keys().len(),
    {
        self.entries.len()
    }

    /// The `i`-th key.
    pub fn key_at(&self, i: usize) -> (k: &String)
        requires
            i < self.keys().len(),
        ensures
            k@ == self.keys()[i as int],
    {
        &self.entries[i].0
    }

    /// The value of the `i`-th key.
    pub fn value_at(&self, i: usize) -> (v: &V)
        requires
            i < self.keys().len(),
        ensures
            self@.contains_key(self.keys()[i as int]),
            *v == self@[self.keys()[i as int]],
    {
        proof {
            use_type_invariant(self);
            let _ = self.entries@[i as int];
        }
        &self.entries[i].1
    }

    /// The place of `k` among the keys.
    pub fn position(&self, k: &str) -> (r: Option<usize>)
        ensures
            match r {
                Some(i) => i < self.keys().len() && self.keys()[i as int] == k@ && self@.contains_key(
                    k@,
                ),
                None => !self@.contains_key(k@),
            },
    {
        proof {
            use_type_invariant(self);
        }
        match self.index.get(k) {
            Some(i) => Some(*i),
            None => None,
        }
    }

    /// The value of `k`.
    pub fn get(&self, k: &str) -> (r: Option<&V>)
        ensures
            match r {
                Some(v) => self@.contains_key(k@) && *v == self@[k@],
                None => !self@.contains_key(k@),
            },
    {
        match self.position(k) {
            Some(i) => Some(self.value_at(i)),
            None => None,
        }
    }

    /// Whether `k` is a key.
    pub fn contains_key(&self, k: &str) -> (r: bool)
        ensures
            r == self@.contains_key(k@),
    {
        self.index.contains_key(k)
    }

    /// The map with `v` under `k`, whatever stood there.
    pub fn insert(self, k: String, v: V) -> (r: Table<V>)
        ensures
            r@ == self@.insert(k@, v),
            r.keys() == if self@.contains_key(k@) {
                self.keys()
            } else {
                self.keys().push(k@)
            },
    {
        proof {
            use_type_invariant(&self);
        }
        let ghost before = self;
        let place = self.position(k.as_str());
        let Table { mut index, mut entries } = self;
        match place {
            Some(i) => {
                entries.set(i, (k, v));
                let r = Table { index, entries };
                assert(r.keys() =~= before.keys());
                assert(r@ =~= before@.insert(k@, v));
                r
            },
            None => {
                let n: usize = entries.len();
                let ghost old_entries = entries@;
                index.insert(k.clone(), n);
                entries.push((k, v));
                proof {
                    assert forall|i: int|
                        #![trigger entries@[i]]
                        0 <= i < entries@.len() implies index@.contains_key(entries@[i].0@)
                        && index@[entries@[i].0@] == i by {
                        if i < n {
                            let _ = old_entries[i];
                        }
                    }
                    assert forall|q: Seq<char>| #[trigger] index@.contains_key(q) implies index@[q]
                        < entries@.len() && entries@[index@[q] as int].0@ == q by {
                        if q != k@ {
                            assert(before.index@.contains_key(q));
                        }
                    }
                }
                let r = Table { index, entries };
                assert(r.keys() =~= before.keys().push(k@));
                assert(r@ =~= before@.insert(k@, v));
                r
            },
        }
    }

    /// The map with `v` as the value of the `i`-th key, and the value that stood there.
    pub fn replace_at(self, i: usize, v: V) -> (r: (Table<V>, V))
        requires
            i < self.keys().len(),
        ensures
            r.0@ == self@.insert(self.keys()[i as int], v),
            r.0.keys() == self.keys(),
            self@.contains_key(self.keys()[i as int]),
            r.1 == self@[self.keys()[i as int]],
    {
        proof {
            use_type_invariant(&self);
        }
        let ghost before = self;
        let ghost k = self.keys()[i as int];
        let Table { index, mut entries } = self;
        let mut w = v;
        assert(entries@[i as int].0@ == k);
        core::mem::swap(&mut entries[i].1, &mut w);
        let r = Table { index, entries };
        assert(r.keys() =~= before.keys());
        assert(r@ =~= before@.insert(k, v));
        (r, w)
    }
}

/// The strings of `v` as the keys of a map.
pub fn name_set(v: &Vec<String>) -> (r: Table<bool>)
    ensures
        forall|k: Seq<char>| #[trigger] r@.contains_key(k) <==> views(v@).contains(k),
{
    let mut out: Table<bool> = Table::new();
    let mut i: usize = 0;
    while i < v.len()
        invariant
            i <= v@.len(),
            forall|k: Seq<char>| #[trigger]
                out@.contains_key(k) <==> views(v@).take(i as int).contains(k),
        decreases v@.len() - i,
    {
        let ghost done = views(v@).take(i as int);
        let ghost before = out@;
        out = out.insert(v[i].clone(), true);
        proof {
            let next = views(v@).take(i + 1);
            let x = v@[i as int]@;
            assert(next == done.push(x));
            assert forall|k: Seq<char>| #[trigger] out@.contains_key(k) <==> next.contains(k) by {
                if out@.contains_key(k) {
                    if k == x {
                        assert(next[i as int] == k);
                    } else {
                        assert(before.contains_key(k));
                        let m = choose|m: int| 0 <= m < done.len() && done[m] == k;
                        assert(next[m] == k);
                    }
                }
                if next.contains(k) && k != x {
                    let m = choose|m: int| 0 <= m < next.len() && next[m] == k;
                    assert(done[m] == k);
                    assert(done.contains(k));
                    assert(before.contains_key(k));
                }
            }
        }
        i += 1;
    }
    assert(views(v@).take(v@.len() as int) == views(v@));
    out
}

/// The names of a row, each once, in the order in which they first came.
pub open spec fn distinct(s: Seq<Seq<char>>) -> Seq<Seq<char>>
    decreases s.len(),
{
    if s.len() == 0 {
        s
    } else {
        let r = distinct(s.drop_last());
        if r.contains(s.last()) {
            r
        } else {
            r.push(s.last())
        }
    }
}

/// How often a name stands in a row.
pub open spec fn occurrences(s: Seq<Seq<char>>, name: Seq<char>) -> nat
    decreases s.len(),
{
    if s.len() == 0 {
        0
    } else {
        occurrences(s.drop_last(), name) + if s.last() == name {
            1nat
        } else {
            0nat
        }
    }
}

/// The distinct names of a row are its names, each once.
pub proof fn lemma_distinct(s: Seq<Seq<char>>)
    ensures
        distinct(s).no_duplicates(),
        forall|k: Seq<char>| #[trigger] distinct(s).contains(k) <==> s.contains(k),
        forall|k: Seq<char>| #[trigger] distinct(s).contains(k) <==> occurrences(s, k) > 0,
        forall|k: Seq<char>| #[trigger] occurrences(s, k) <= s.len(),
    decreases s.len(),
{
    if s.len() > 0 {
        let t = s.drop_last();
        lemma_distinct(t);
        let x = s.last();
        assert forall|k: Seq<char>| #[trigger] distinct(s).contains(k) <==> s.contains(k) by {
            if s.contains(k) {
                let i = choose|i: int| 0 <= i < s.len() && s[i] == k;
                if i < t.len() {
                    assert(t[i] == k);
                    assert(t.contains(k));
                    assert(distinct(t).contains(k));
                    let j = choose|j: int| 0 <= j < distinct(t).len() && distinct(t)[j] == k;
                    assert(distinct(s)[j] == k);
                } else if !distinct(t).contains(x) {
                    assert(distinct(s)[distinct(t).len() as int] == k);
                }
            }
            if distinct(s).contains(k) {
                if distinct(t).contains(k) {
                    assert(t.contains(k));
                    let i = choose|i: int| 0 <= i < t.len() && t[i] == k;
                    assert(s[i] == k);
                } else {
                    let j = choose|j: int| 0 <= j < distinct(s).len() && distinct(s)[j] == k;
                    if j < distinct(t).len() {
                        assert(distinct(t)[j] == k);
                    }
                    assert(s[s.len() - 1] == k);
                }
            }
        }
        assert forall|k: Seq<char>| #[trigger] distinct(s).contains(k) <==> occurrences(s, k) > 0 by {
            assert(distinct(s).contains(k) <==> s.contains(k));
            assert(distinct(t).contains(k) <==> t.contains(k));
            if s.contains(k) && k != x {
                let i = choose|i: int| 0 <= i < s.len() && s[i] == k;
                assert(t[i] == k);
            }
            if t.contains(k) {
                let i = choose|i: int| 0 <= i < t.len() && t[i] == k;
                assert(s[i] == k);
            }
            if k == x {
                assert(s[s.len() - 1] == k);
            }
        }
        assert forall|k: Seq<char>| #[trigger] occurrences(s, k) <= s.len() by {
            assert(occurrences(t, k) <= t.len());
        }
    }
}

/// How often each name stands in a row.
pub fn count_names(v: &Vec<String>) -> (r: Table<usize>)
    ensures
        r.keys() == distinct(views(v@)),
        forall|k: Seq<char>| #[trigger]
            r@.contains_key(k) ==> r@[k] == occurrences(views(v@), k),
{
    let ghost all = views(v@);
    let mut out: Table<usize> = Table::new();
    let mut i: usize = 0;
    assert(out.keys() =~= distinct(all.take(0)));
    while i < v.len()
        invariant
            i <= v@.len(),
            all == views(v@),
            out.keys() == distinct(all.take(i as int)),
            forall|k: Seq<char>| #[trigger]
                out@.contains_key(k) ==> out@[k] == occurrences(all.take(i as int), k),
        decreases v@.len() - i,
    {
        out.facts();
        let name = &v[i];
        let ghost before = out@;
        proof {
            let next = all.take(i + 1);
            assert(next.drop_last() == all.take(i as int));
            assert(next.last() == name@);
            lemma_distinct(all.take(i as int));
            assert(occurrences(all.take(i as int), name@) <= i);
            if !before.contains_key(name@) {
                assert(!distinct(all.take(i as int)).contains(name@));
                assert(occurrences(all.take(i as int), name@) == 0);
            }
        }
        let n: usize = match out.get(name.as_str()) {
            Some(n) => *n,
            None => 0,
        };
        out = out.insert(name.clone(), n + 1);
        i += 1;
    }
    assert(all.take(all.len() as int) == all);
    out
}

/// The names of a row, each once, in the order in which they first came.
pub fn distinct_names(v: &Vec<String>) -> (r: Vec<String>)
    ensures
        views(r@) == distinct(views(v@)),
{
    let t = count_names(v);
    let mut out: Vec<String> = Vec::new();
    let mut i: usize = 0;
    while i < t.len()
        invariant
            i <= t.keys().len(),
            out@.len() == i,
            forall|k: int| 0 <= k < i ==> (#[trigger] out@[k])@ == t.keys()[k],
        decreases t.keys().len() - i,
    {
        out.push(t.key_at(i).clone());
        i += 1;
    }
    assert(views(out@) =~= t.keys());
    out
}

/// One more name counts once for itself and for no other, and is told once, behind those before
/// it.
pub proof fn lemma_one_more_name(s: Seq<Seq<char>>, x: Seq<char>, k: Seq<char>)
    ensures
        occurrences(Seq::empty(), k) == 0,
        occurrences(s.push(x), x) == occurrences(s, x) + 1,
        k != x ==> occurrences(s.push(x), k) == occurrences(s, k),
        distinct(Seq::empty()).len() == 0,
        s.contains(x) ==> distinct(s.push(x)) == distinct(s),
        !s.contains(x) ==> distinct(s.push(x)) == distinct(s).push(x),
{
    assert(s.push(x).drop_last() =~= s);
    lemma_distinct(s);
}

}
