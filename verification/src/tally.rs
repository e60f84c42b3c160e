//! Counting: how often two names came together, and with what placements.

use crate::seqs::{lemma_filter_elements, total};
use crate::table::Table;
use vstd::prelude::*;

verus! {

/// `b` came with `a`, on a board that reached `placement`.
pub struct Event {
    pub a: Seq<char>,
    pub b: Seq<char>,
    pub placement: int,
    pub tag: i32,
}

/// How often two names came together.
#[derive(Clone, Copy, Debug, PartialEq, Eq, Structural)]
pub struct PairAgg {
    pub pick_count: i64,
    pub placement_sum: i64,
    /// The tag of the first time.
    pub tag: i32,
}

/// The times at which `b` came with `a`.
pub open spec fn times(events: Seq<Event>, a: Seq<char>, b: Seq<char>) -> Seq<Event> {
    events.filter(|e: Event| e.a == a && e.b == b)
}

/// The placements of a row of events.
pub open spec fn placements(events: Seq<Event>) -> Seq<int> {
    Seq::new(events.len(), |i: int| events[i].placement)
}

/// The sum of the placements at which `b` came with `a`.
pub open spec fn placement_total(events: Seq<Event>, a: Seq<char>, b: Seq<char>) -> int {
    total(placements(times(events, a, b)))
}

/// No sum of placements leaves the range of its type on the way.
pub open spec fn sums_fit(events: Seq<Event>) -> bool {
    events.len() <= i64::MAX && forall|n: int, a: Seq<char>, b: Seq<char>|
        #![trigger placement_total(events.take(n), a, b)]
        0 <= n <= events.len() ==> i64::MIN <= placement_total(events.take(n), a, b) <= i64::MAX
}

/// `x` counts the given events.
pub open spec fn counts(x: PairAgg, s: Seq<Event>) -> bool {
    &&& s.len() > 0
    &&& x.pick_count == s.len()
    &&& x.placement_sum == total(placements(s))
    &&& x.tag == s[0].tag
}

/// The counts of pairs of names.
pub struct PairTally {
    rows: Table<Table<PairAgg>>,
}

impl PairTally {
    /// The first names, in the order in which they came.
    pub closed spec fn firsts(self) -> Seq<Seq<char>> {
        self.rows.keys()
    }

    /// The second names that came with `a`, in the order in which they came.
    pub closed spec fn seconds(self, a: Seq<char>) -> Seq<Seq<char>> {
        self.rows@[a].keys()
    }

    /// What is counted under `a`.
    pub closed spec fn under(self, a: Seq<char>) -> Map<Seq<char>, PairAgg> {
        if self.rows@.contains_key(a) {
            self.rows@[a]@
        } else {
            Map::empty()
        }
    }

    /// The tally counts exactly the given events.
    pub open spec fn tallies(self, events: Seq<Event>) -> bool {
        &&& forall|a: Seq<char>, b: Seq<char>| #[trigger]
            self.under(a).contains_key(b) <==> times(events, a, b).len() > 0
        &&& forall|a: Seq<char>, b: Seq<char>| #[trigger]
            self.under(a).contains_key(b) ==> counts(self.under(a)[b], times(events, a, b))
        &&& forall|a: Seq<char>| #[trigger]
            self.firsts().contains(a) ==> exists|b: Seq<char>| self.under(a).contains_key(b)
    }
}

proof fn lemma_times_push(events: Seq<Event>, e: Event, a: Seq<char>, b: Seq<char>)
    ensures
        times(events.push(e), a, b) == if e.a == a && e.b == b {
            times(events, a, b).push(e)
        } else {
            times(events, a, b)
        },
{
    reveal(Seq::filter);
    assert(events.push(e).drop_last() == events);
}

proof fn lemma_counts_push(x: PairAgg, s: Seq<Event>, e: Event)
    requires
        counts(x, s),
    ensures
        s.push(e).len() == x.pick_count + 1,
        total(placements(s.push(e))) == x.placement_sum + e.placement,
        s.push(e)[0].tag == x.tag,
{
    assert(placements(s.push(e)).drop_last() =~= placements(s));
}

proof fn lemma_counts_one(e: Event)
    ensures
        total(placements(seq![e])) == e.placement,
{
    let p = placements(seq![e]);
    assert(p.drop_last() =~= Seq::<int>::empty());
    assert(total(p.drop_last()) == 0);
    assert(p.last() == e.placement);
}

/// One more event adds its placement to the sum of its pair.
pub proof fn lemma_placement_total_push(events: Seq<Event>, e: Event)
    ensures
        placement_total(events.push(e), e.a, e.b) == placement_total(events, e.a, e.b)
            + e.placement,
{
    lemma_times_push(events, e, e.a, e.b);
    let s = times(events, e.a, e.b);
    assert(placements(s.push(e)).drop_last() =~= placements(s));
}

impl PairTally {
    /// A tally of nothing.
    pub fn new() -> (r: PairTally)
        ensures
            r.tallies(Seq::empty()),
    {
        let r = PairTally { rows: Table::new() };
        assert forall|a: Seq<char>, b: Seq<char>| times(Seq::empty(), a, b).len() == 0 by {
            reveal(Seq::filter);
        }
        r
    }

    /// The tally with one more event.
    pub(crate) fn add_event(
        self,
        a: String,
        b: String,
        placement: i64,
        tag: i32,
        Ghost(events): Ghost<Seq<Event>>,
    ) -> (r: PairTally)
        requires
            self.tallies(events),
            events.len() < i64::MAX,
            i64::MIN <= placement_total(events, a@, b@) + placement <= i64::MAX,
        ensures
            r.tallies(events.push(Event { a: a@, b: b@, placement: placement as int, tag })),
    {
        let ghost e = Event { a: a@, b: b@, placement: placement as int, tag };
        let ghost before = self;
        let ghost a0 = a@;
        let ghost b0 = b@;
        proof {
            assert(times(events, a@, b@).len() <= events.len()) by {
                lemma_filter_elements(events, |x: Event| x.a == a0 && x.b == b0);
            }
        }
        let PairTally { rows } = self;
        let place = rows.position(a.as_str());
        let (rows, inner) = match place {
            Some(i) => rows.replace_at(i, Table::new()),
            None => (rows, Table::new()),
        };
        proof {
            if place is Some {
                assert(inner == before.rows@[a0]);
                assert(inner@ == before.under(a0));
            } else {
                assert(inner@ =~= before.under(a0));
            }
        }
        let x = match inner.get(b.as_str()) {
            Some(old) => {
                proof {
                    assert(before.under(a0).contains_key(b0));
                    lemma_counts_push(*old, times(events, a0, b0), e);
                }
                PairAgg {
                    pick_count: old.pick_count + 1,
                    placement_sum: old.placement_sum + placement,
                    tag: old.tag,
                }
            },
            None => {
                proof {
                    lemma_counts_one(e);
                    assert(!before.under(a0).contains_key(b0));
                    assert(times(events, a0, b0) =~= Seq::empty());
                    assert(times(events, a0, b0).push(e) =~= seq![e]);
                }
                PairAgg { pick_count: 1, placement_sum: placement, tag }
            },
        };
        let inner = inner.insert(b, x);
        let rows = rows.insert(a, inner);
        let r = PairTally { rows };
        proof {
            assert(r.under(a0) == before.under(a0).insert(b0, x));
            assert forall|q: Seq<char>| q != a0 implies r.under(q) == before.under(q) by {}
            let after = events.push(e);
            assert forall|q: Seq<char>, s: Seq<char>| #[trigger]
                r.under(q).contains_key(s) <==> times(after, q, s).len() > 0 by {
                lemma_times_push(events, e, q, s);
                assert(before.under(q).contains_key(s) <==> times(events, q, s).len() > 0);
            }
            assert forall|q: Seq<char>, s: Seq<char>| #[trigger]
                r.under(q).contains_key(s) implies counts(r.under(q)[s], times(after, q, s)) by {
                lemma_times_push(events, e, q, s);
                if !(q == a0 && s == b0) {
                    assert(before.under(q).contains_key(s));
                }
            }
            assert forall|q: Seq<char>| #[trigger] r.firsts().contains(q) implies exists|s: Seq<char>|
                r.under(q).contains_key(s) by {
                if q == a0 {
                    assert(r.under(q).contains_key(b0));
                } else {
                    let i = choose|i: int| 0 <= i < r.firsts().len() && r.firsts()[i] == q;
                    assert(before.firsts()[i] == q);
                    assert(before.firsts().contains(q));
                    let s = choose|s: Seq<char>| before.under(q).contains_key(s);
                    assert(r.under(q).contains_key(s));
                }
            }
        }
        r
    }
}

/// A row of a tally.
#[derive(Debug)]
pub struct PairRow {
    pub a: String,
    pub b: String,
    pub agg: PairAgg,
}

/// The names that a row counts.
pub open spec fn names_of(rows: Seq<PairRow>) -> Seq<(Seq<char>, Seq<char>)> {
    Seq::new(rows.len(), |i: int| (rows[i].a@, rows[i].b@))
}

/// The rows give each count of the tally once, and nothing else.
pub open spec fn lists(rows: Seq<PairRow>, t: PairTally) -> bool {
    &&& names_of(rows).no_duplicates()
    &&& forall|i: int|
        #![trigger rows[i]]
        0 <= i < rows.len() ==> t.under(rows[i].a@).contains_key(rows[i].b@) && rows[i].agg
            == t.under(rows[i].a@)[rows[i].b@]
    &&& forall|a: Seq<char>, b: Seq<char>| #[trigger]
        t.under(a).contains_key(b) ==> names_of(rows).contains((a, b))
}

impl PairTally {
    /// The rows of the tally.
    pub fn rows(&self) -> (r: Vec<PairRow>)
        ensures
            lists(r@, *self),
    {
        self.rows.facts();
        let ghost firsts = self.rows.keys();
        let mut out: Vec<PairRow> = Vec::new();
        let mut i: usize = 0;
        while i < self.rows.len()
            invariant
                i <= firsts.len(),
                firsts == self.rows.keys(),
                firsts.no_duplicates(),
                forall|k: Seq<char>| #[trigger] self.rows@.contains_key(k) <==> firsts.contains(k),
                names_of(out@).no_duplicates(),
                forall|k: int|
                    #![trigger out@[k]]
                    0 <= k < out@.len() ==> self.under(out@[k].a@).contains_key(out@[k].b@)
                        && out@[k].agg == self.under(out@[k].a@)[out@[k].b@] && firsts.take(
                        i as int,
                    ).contains(out@[k].a@),
                forall|a: Seq<char>, b: Seq<char>| #[trigger]
                    self.under(a).contains_key(b) && firsts.take(i as int).contains(a)
                        ==> names_of(out@).contains((a, b)),
            decreases firsts.len() - i,
        {
            let name = self.rows.key_at(i);
            let inner = self.rows.value_at(i);
            inner.facts();
            let ghost a0 = name@;
            let ghost seconds = inner.keys();
            let ghost before = out@;
            let ghost done = firsts.take(i as int);
            proof {
                assert(self.under(a0) == inner@);
                if done.contains(a0) {
                    let m = choose|m: int| 0 <= m < done.len() && done[m] == a0;
                    assert(firsts[m] == firsts[i as int]);
                }
            }
            let mut j: usize = 0;
            while j < inner.len()
                invariant
                    j <= seconds.len(),
                    seconds == inner.keys(),
                    seconds.no_duplicates(),
                    name@ == a0,
                    self.under(a0) == inner@,
                    forall|k: Seq<char>| #[trigger] inner@.contains_key(k) <==> seconds.contains(k),
                    !done.contains(a0),
                    out@.len() == before.len() + j,
                    names_of(before).no_duplicates(),
                    forall|k: int|
                        #![trigger out@[k]]
                        0 <= k < before.len() ==> out@[k] == before[k],
                    forall|k: int|
                        #![trigger before[k]]
                        0 <= k < before.len() ==> done.contains(before[k].a@),
                    forall|k: int|
                        #![trigger out@[k]]
                        before.len() <= k < out@.len() ==> out@[k].a@ == a0 && out@[k].b@
                            == seconds[k - before.len()] && inner@.contains_key(out@[k].b@)
                            && out@[k].agg == inner@[out@[k].b@],
                decreases seconds.len() - j,
            {
                let b = inner.key_at(j);
                let v = *inner.value_at(j);
                out.push(PairRow { a: name.clone(), b: b.clone(), agg: v });
                j += 1;
            }
            proof {
                let names = names_of(out@);
                assert forall|x: int, y: int| 0 <= x < y < names.len() implies names[x]
                    != names[y] by {
                    let _ = out@[x];
                    let _ = out@[y];
                    if y < before.len() {
                        assert(names_of(before)[x] == names[x]);
                        assert(names_of(before)[y] == names[y]);
                    } else if x < before.len() {
                        assert(done.contains(before[x].a@));
                    } else {
                        assert(seconds[x - before.len()] != seconds[y - before.len()]);
                    }
                }
                let next = firsts.take(i + 1);
                assert(next == done.push(a0));
                assert forall|k: int| #![trigger out@[k]] 0 <= k < out@.len() implies self.under(
                    out@[k].a@,
                ).contains_key(out@[k].b@) && out@[k].agg == self.under(out@[k].a@)[out@[k].b@]
                    && next.contains(out@[k].a@) by {
                    if k < before.len() {
                        let _ = before[k];
                        let m = choose|m: int| 0 <= m < done.len() && done[m] == before[k].a@;
                        assert(next[m] == before[k].a@);
                    } else {
                        assert(next[i as int] == a0);
                    }
                }
                assert forall|a: Seq<char>, b: Seq<char>| #[trigger]
                    self.under(a).contains_key(b) && next.contains(a) implies names.contains(
                    (a, b),
                ) by {
                    if a == a0 {
                        assert(seconds.contains(b));
                        let m = choose|m: int| 0 <= m < seconds.len() && seconds[m] == b;
                        let _ = out@[before.len() + m];
                        assert(names[before.len() + m] == (a, b));
                    } else {
                        let m = choose|m: int| 0 <= m < next.len() && next[m] == a;
                        assert(done[m] == a);
                        assert(done.contains(a));
                        assert(names_of(before).contains((a, b)));
                        let k = choose|k: int|
                            0 <= k < names_of(before).len() && names_of(before)[k] == (a, b);
                        let _ = out@[k];
                        assert(names[k] == (a, b));
                    }
                }
            }
            i += 1;
        }
        proof {
            assert(firsts.take(firsts.len() as int) == firsts);
            assert forall|a: Seq<char>, b: Seq<char>| #[trigger]
                self.under(a).contains_key(b) implies names_of(out@).contains((a, b)) by {
                assert(self.rows@.contains_key(a));
                assert(firsts.contains(a));
            }
        }
        out
    }
}

/// No second name came more often with the first than `b`.
pub open spec fn is_top(m: Map<Seq<char>, PairAgg>, b: Seq<char>) -> bool {
    m.contains_key(b) && forall|c: Seq<char>| #[trigger]
        m.contains_key(c) ==> m[c].pick_count <= m[b].pick_count
}

impl PairTally {
    /// The count of a name that came most often with `a`.
    pub fn top(&self, a: &str) -> (r: Option<PairAgg>)
        ensures
            match r {
                Some(x) => exists|b: Seq<char>| #[trigger]
                    is_top(self.under(a@), b) && self.under(a@)[b] == x,
                None => forall|b: Seq<char>| !#[trigger] self.under(a@).contains_key(b),
            },
    {
        match self.rows.get(a) {
            Some(inner) => {
                inner.facts();
                let ghost seconds = inner.keys();
                let ghost m = inner@;
                assert(m == self.under(a@));
                if inner.len() == 0 {
                    assert forall|b: Seq<char>| !#[trigger] self.under(a@).contains_key(b) by {
                        if m.contains_key(b) {
                            assert(seconds.contains(b));
                        }
                    }
                    return None;
                }
                let mut best: usize = 0;
                let mut i: usize = 1;
                let mut x = *inner.value_at(0);
                while i < inner.len()
                    invariant
                        1 <= i <= seconds.len(),
                        best < i,
                        seconds == inner.keys(),
                        m == inner@,
                        m.contains_key(seconds[best as int]),
                        x == m[seconds[best as int]],
                        forall|k: int|
                            0 <= k < i ==> m[#[trigger] seconds[k]].pick_count <= x.pick_count,
                    decreases seconds.len() - i,
                {
                    let y = *inner.value_at(i);
                    if y.pick_count >= x.pick_count {
                        best = i;
                        x = y;
                    }
                    i += 1;
                }
                proof {
                    let b = seconds[best as int];
                    assert forall|c: Seq<char>| #[trigger] m.contains_key(c) implies m[c].pick_count
                        <= m[b].pick_count by {
                        assert(seconds.contains(c));
                        let k = choose|k: int| 0 <= k < seconds.len() && seconds[k] == c;
                        assert(m[seconds[k]].pick_count <= x.pick_count);
                    }
                    assert(is_top(self.under(a@), b));
                }
                Some(x)
            },
            None => None,
        }
    }
}

// ---------------------------------------------------------------- laws

/// Counting in two goes and adding up is counting in one: for every pair the number of
/// times and the sum of placements over `x` and then `y` are those over `x` plus those over
/// `y`.
pub proof fn lemma_tally_additive(x: Seq<Event>, y: Seq<Event>, a: Seq<char>, b: Seq<char>)
    ensures
        times(x + y, a, b).len() == times(x, a, b).len() + times(y, a, b).len(),
        placement_total(x + y, a, b) == placement_total(x, a, b) + placement_total(y, a, b),
    decreases y.len(),
{
    if y.len() == 0 {
        reveal(Seq::filter);
        assert(x + y == x);
        assert(placements(times(y, a, b)) =~= Seq::<int>::empty());
    } else {
        let t = y.drop_last();
        let e = y.last();
        lemma_tally_additive(x, t, a, b);
        assert(x + y == (x + t).push(e));
        assert(y == t.push(e));
        lemma_times_push(x + t, e, a, b);
        lemma_times_push(t, e, a, b);
        if e.a == a && e.b == b {
            assert(placements(times(x + y, a, b)).drop_last() =~= placements(times(x + t, a, b)));
            assert(placements(times(y, a, b)).drop_last() =~= placements(times(t, a, b)));
        }
    }
}


proof fn lemma_total_bound(s: Seq<int>)
    requires
        forall|i: int| 0 <= i < s.len() ==> i32::MIN <= #[trigger] s[i] <= i32::MAX,
    ensures
        i32::MIN * s.len() <= total(s) <= i32::MAX * s.len(),
    decreases s.len(),
{
    if s.len() > 0 {
        let t = s.drop_last();
        assert forall|i: int| 0 <= i < t.len() implies i32::MIN <= #[trigger] t[i] <= i32::MAX by {
            assert(t[i] == s[i]);
        }
        lemma_total_bound(t);
        assert(i32::MIN <= s[s.len() - 1] <= i32::MAX);
        let n = t.len() as int;
        assert(i32::MIN * (n + 1) == i32::MIN * n + i32::MIN) by (nonlinear_arith);
        assert(i32::MAX * (n + 1) == i32::MAX * n + i32::MAX) by (nonlinear_arith);
    }
}

/// Up to 2^32 events with placements of 32 bits can be counted: no sum leaves its range.
pub proof fn lemma_small_sums_fit(events: Seq<Event>)
    requires
        events.len() <= 0x1_0000_0000,
        forall|i: int|
            0 <= i < events.len() ==> i32::MIN <= (#[trigger] events[i]).placement <= i32::MAX,
    ensures
        sums_fit(events),
{
    assert forall|n: int, a: Seq<char>, b: Seq<char>|
        #![trigger placement_total(events.take(n), a, b)]
        0 <= n <= events.len() implies i64::MIN <= placement_total(events.take(n), a, b)
        <= i64::MAX by {
        let s = events.take(n);
        let p = |e: Event| e.a == a && e.b == b;
        lemma_filter_elements(s, p);
        let f = times(s, a, b);
        assert forall|i: int| 0 <= i < placements(f).len() implies i32::MIN
            <= #[trigger] placements(f)[i] <= i32::MAX by {
            assert(s.contains(f[i]));
            let j = choose|j: int| 0 <= j < s.len() && s[j] == f[i];
            assert(s[j] == events[j]);
        }
        lemma_total_bound(placements(f));
        let k = f.len() as int;
        assert(i32::MAX * k <= i64::MAX && i32::MIN * k >= i64::MIN) by (nonlinear_arith)
            requires
                0 <= k <= 0x1_0000_0000,
        ;
    }
}

/// An event counts once for its own pair and for no other.
pub proof fn lemma_event_counts(events: Seq<Event>, e: Event, a: Seq<char>, b: Seq<char>)
    ensures
        times(Seq::empty(), a, b).len() == 0,
        e.a == a && e.b == b ==> times(events.push(e), a, b).len() == times(events, a, b).len() + 1
            && placement_total(events.push(e), a, b) == placement_total(events, a, b)
            + e.placement,
        !(e.a == a && e.b == b) ==> times(events.push(e), a, b) == times(events, a, b)
            && placement_total(events.push(e), a, b) == placement_total(events, a, b),
{
    reveal(Seq::filter);
    assert(events.push(e).drop_last() =~= events);
    if e.a == a && e.b == b {
        lemma_placement_total_push(events, e);
    }
}

/// What is counted of a pair: how often it came, its placements together, and the tag that it
/// first came with.
pub proof fn lemma_pair_counts(t: PairTally, events: Seq<Event>, a: Seq<char>, b: Seq<char>)
    requires
        t.tallies(events),
    ensures
        t.under(a).contains_key(b) <==> times(events, a, b).len() > 0,
        times(events, a, b).len() > 0 ==> t.under(a)[b].pick_count == times(events, a, b).len()
            && t.under(a)[b].placement_sum == placement_total(events, a, b) && t.under(a)[b].tag
            == times(events, a, b)[0].tag,
{
    if t.under(a).contains_key(b) {
        assert(counts(t.under(a)[b], times(events, a, b)));
    }
}

/// The rows of a tally are its pairs, each once, with what was counted of it.
pub proof fn lemma_rows_are_pairs(rows: Seq<PairRow>, t: PairTally, a: Seq<char>, b: Seq<char>)
    requires
        lists(rows, t),
    ensures
        t.under(a).contains_key(b) <==> exists|i: int|
            0 <= i < rows.len() && (#[trigger] rows[i]).a@ == a && rows[i].b@ == b,
        forall|i: int|
            0 <= i < rows.len() && (#[trigger] rows[i]).a@ == a && rows[i].b@ == b
                ==> rows[i].agg == t.under(a)[b],
        forall|i: int, j: int|
            0 <= i < j < rows.len() ==> (#[trigger] rows[i]).a@ != (#[trigger] rows[j]).a@
                || rows[i].b@ != rows[j].b@,
{
    let n = names_of(rows);
    if t.under(a).contains_key(b) {
        assert(n.contains((a, b)));
        let i = choose|i: int| 0 <= i < n.len() && n[i] == (a, b);
        assert(rows[i].a@ == a && rows[i].b@ == b);
    }
    assert forall|i: int, j: int| 0 <= i < j < rows.len() implies (#[trigger] rows[i]).a@ != (
    #[trigger] rows[j]).a@ || rows[i].b@ != rows[j].b@ by {
        assert(n[i] != n[j]);
    }
}

/// The top of a tally is picked no less often than anything in it.
pub proof fn lemma_top_is_most_picked(m: Map<Seq<char>, PairAgg>, b: Seq<char>, c: Seq<char>)
    requires
        is_top(m, b),
        m.contains_key(c),
    ensures
        m.contains_key(b),
        m[c].pick_count <= m[b].pick_count,
{
}

}
