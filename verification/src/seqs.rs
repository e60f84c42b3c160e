//! Facts about sequences that loops over vectors need.

use vstd::prelude::*;

verus! {

/// Filtering one more element.
pub proof fn lemma_filter_step<A>(s: Seq<A>, i: int, p: spec_fn(A) -> bool)
    requires
        0 <= i < s.len(),
    ensures
        s.take(i + 1).filter(p) == if p(s[i]) {
            s.take(i).filter(p).push(s[i])
        } else {
            s.take(i).filter(p)
        },
{
    reveal(Seq::filter);
    assert(s.take(i + 1).drop_last() == s.take(i));
    assert(s.take(i + 1).last() == s[i]);
}

/// Every element of a filtered sequence stood in the sequence and passed.
pub proof fn lemma_filter_elements<A>(s: Seq<A>, p: spec_fn(A) -> bool)
    ensures
        s.filter(p).len() <= s.len(),
        forall|i: int| 0 <= i < s.filter(p).len() ==> p(#[trigger] s.filter(p)[i]) && s.contains(
            s.filter(p)[i],
        ),
        forall|x: A| #[trigger] s.contains(x) && p(x) ==> s.filter(p).contains(x),
    decreases s.len(),
{
    reveal(Seq::filter);
    if s.len() > 0 {
        let t = s.drop_last();
        lemma_filter_elements(t, p);
        let f = s.filter(p);
        assert forall|i: int| 0 <= i < f.len() implies p(#[trigger] f[i]) && s.contains(f[i]) by {
            if i < t.filter(p).len() {
                assert(f[i] == t.filter(p)[i]);
                assert(t.contains(f[i]));
                let j = choose|j: int| 0 <= j < t.len() && t[j] == f[i];
                assert(s[j] == f[i]);
            } else {
                assert(s[s.len() - 1] == f[i]);
            }
        }
        assert forall|x: A| #[trigger] s.contains(x) && p(x) implies f.contains(x) by {
            let j = choose|j: int| 0 <= j < s.len() && s[j] == x;
            if j < t.len() {
                assert(t[j] == x);
                assert(t.contains(x));
                let k = choose|k: int| 0 <= k < t.filter(p).len() && t.filter(p)[k] == x;
                assert(f[k] == x);
            } else {
                assert(f[f.len() - 1] == x);
            }
        }
    }
}

/// The sum of a sequence of numbers.
pub open spec fn total(s: Seq<int>) -> int
    decreases s.len(),
{
    if s.len() == 0 {
        0
    } else {
        total(s.drop_last()) + s.last()
    }
}

/// Filtering commutes with forgetting the order.
pub proof fn lemma_filter_multiset<A>(s: Seq<A>, p: spec_fn(A) -> bool)
    ensures
        s.filter(p).to_multiset() == s.to_multiset().filter(p),
    decreases s.len(),
{
    broadcast use {
        vstd::seq_lib::group_to_multiset_ensures,
        vstd::multiset::group_multiset_axioms,
        vstd::multiset::group_multiset_properties,
    };

    reveal(Seq::filter);
    if s.len() == 0 {
        assert(s.filter(p).to_multiset() =~= s.to_multiset().filter(p));
    } else {
        let t = s.drop_last();
        let x = s.last();
        lemma_filter_multiset(t, p);
        assert(s == t.push(x));
        assert(s.to_multiset() == t.to_multiset().insert(x));
        assert(s.filter(p).to_multiset() =~= s.to_multiset().filter(p));
    }
}

/// Filtering twice is filtering by both conditions.
pub proof fn lemma_filter_twice<A>(
    s: Seq<A>,
    p: spec_fn(A) -> bool,
    q: spec_fn(A) -> bool,
    both: spec_fn(A) -> bool,
)
    requires
        forall|x: A| #[trigger] both(x) <==> p(x) && q(x),
    ensures
        s.filter(p).filter(q) == s.filter(both),
    decreases s.len(),
{
    reveal(Seq::filter);
    if s.len() > 0 {
        let t = s.drop_last();
        let x = s.last();
        lemma_filter_twice(t, p, q, both);
        assert(both(x) <==> p(x) && q(x));
        if p(x) {
            assert(t.filter(p).push(x).drop_last() == t.filter(p));
        }
    }
}

/// Conditions that agree on the elements filter alike.
pub proof fn lemma_filter_alike<A>(s: Seq<A>, p: spec_fn(A) -> bool, q: spec_fn(A) -> bool)
    requires
        forall|i: int| 0 <= i < s.len() ==> p(#[trigger] s[i]) == q(s[i]),
    ensures
        s.filter(p) == s.filter(q),
    decreases s.len(),
{
    reveal(Seq::filter);
    if s.len() > 0 {
        let t = s.drop_last();
        assert forall|i: int| 0 <= i < t.len() implies p(#[trigger] t[i]) == q(t[i]) by {
            assert(t[i] == s[i]);
        }
        lemma_filter_alike(t, p, q);
        assert(p(s[s.len() - 1]) == q(s[s.len() - 1]));
    }
}

/// What has no element twice has none twice after filtering.
pub proof fn lemma_filter_distinct<A>(s: Seq<A>, p: spec_fn(A) -> bool)
    requires
        s.no_duplicates(),
    ensures
        s.filter(p).no_duplicates(),
    decreases s.len(),
{
    reveal(Seq::filter);
    if s.len() > 0 {
        let t = s.drop_last();
        lemma_filter_distinct(t, p);
        lemma_filter_elements(t, p);
        if p(s.last()) {
            let f = t.filter(p);
            assert forall|i: int| 0 <= i < f.len() implies f[i] != s.last() by {
                assert(t.contains(f[i]));
            }
        }
    }
}

/// Two sequences without repetition that have the same elements are equally long.
pub proof fn lemma_same_elements_same_len<A>(a: Seq<A>, b: Seq<A>)
    requires
        a.no_duplicates(),
        b.no_duplicates(),
        forall|x: A| #[trigger] a.contains(x) <==> b.contains(x),
    ensures
        a.len() == b.len(),
{
    a.unique_seq_to_set();
    b.unique_seq_to_set();
    assert forall|x: A| a.to_set().contains(x) <==> b.to_set().contains(x) by {
        assert(a.contains(x) <==> b.contains(x));
    }
    assert(a.to_set() =~= b.to_set());
}

/// `a` is how `b` begins.
pub open spec fn prefix<A>(a: Seq<A>, b: Seq<A>) -> bool {
    a.len() <= b.len() && a == b.take(a.len() as int)
}

/// How the beginning of `b` begins is how `b` begins.
pub proof fn lemma_prefix_trans<A>(a: Seq<A>, b: Seq<A>, c: Seq<A>)
    requires
        prefix(a, b),
        prefix(b, c),
    ensures
        prefix(a, c),
{
    assert(a =~= c.take(a.len() as int)) by {
        assert forall|i: int| 0 <= i < a.len() implies a[i] == c[i] by {
            assert(a[i] == b.take(a.len() as int)[i]);
            assert(b[i] == c.take(b.len() as int)[i]);
        }
    }
}

/// Beginnings of what comes behind `x`.
pub proof fn lemma_prefix_behind<A>(x: Seq<A>, a: Seq<A>, b: Seq<A>)
    requires
        prefix(a, b),
    ensures
        prefix(x + a, x + b),
{
    assert((x + a) =~= (x + b).take((x + a).len() as int)) by {
        assert forall|i: int| x.len() <= i < (x + a).len() implies (x + a)[i] == (x + b)[i] by {
            assert(a[i - x.len()] == b.take(a.len() as int)[i - x.len()]);
        }
    }
}

/// A sequence begins what goes on behind it.
pub proof fn lemma_prefix_of_sum<A>(a: Seq<A>, b: Seq<A>)
    ensures
        prefix(a, a + b),
{
    assert(a =~= (a + b).take(a.len() as int));
}

/// Filtering one element more at the end.
pub proof fn lemma_filter_push<A>(s: Seq<A>, x: A, p: spec_fn(A) -> bool)
    ensures
        s.push(x).filter(p) == if p(x) {
            s.filter(p).push(x)
        } else {
            s.filter(p)
        },
{
    reveal(Seq::filter);
    assert(s.push(x).drop_last() == s);
}

/// `s` in pieces of `size`; the last one may be shorter.
pub open spec fn chunks<A>(s: Seq<A>, size: nat) -> Seq<Seq<A>>
    decreases s.len(),
{
    if s.len() == 0 || size == 0 {
        Seq::empty()
    } else if s.len() <= size {
        seq![s]
    } else {
        seq![s.take(size as int)] + chunks(s.skip(size as int), size)
    }
}

/// The sequences that a row of vectors hold.
pub open spec fn contents<A>(v: Seq<Vec<A>>) -> Seq<Seq<A>> {
    Seq::new(v.len(), |i: int| v[i]@)
}

/// The pieces of a sequence, put together again, are the sequence.
pub proof fn lemma_chunks_flatten<A>(s: Seq<A>, size: nat)
    requires
        size > 0,
    ensures
        chunks(s, size).flatten() == s,
        forall|i: int|
            0 <= i < chunks(s, size).len() ==> 0 < (#[trigger] chunks(s, size)[i]).len() <= size,
    decreases s.len(),
{
    let c = chunks(s, size);
    if s.len() == 0 {
        assert(c.flatten() =~= s);
    } else if s.len() <= size {
        assert(c.drop_first() =~= Seq::empty());
        assert(c.drop_first().flatten() =~= Seq::empty());
        assert(c.flatten() =~= s);
    } else {
        let t = s.skip(size as int);
        lemma_chunks_flatten(t, size);
        assert(c.drop_first() =~= chunks(t, size));
        assert(c.flatten() =~= s.take(size as int) + t);
        assert(s.take(size as int) + t =~= s);
        assert forall|i: int| 0 <= i < c.len() implies 0 < (#[trigger] c[i]).len() <= size by {
            if i > 0 {
                assert(c[i] == chunks(t, size)[i - 1]);
            }
        }
    }
}

/// `v` in pieces of `size`; the last one may be shorter.
pub fn in_chunks<T>(v: Vec<T>, size: usize) -> (r: Vec<Vec<T>>)
    requires
        size > 0,
    ensures
        contents(r@) == chunks(v@, size as nat),
{
    let ghost all = v@;
    let mut out: Vec<Vec<T>> = Vec::new();
    let mut rest = v;
    assert(contents(out@) + chunks(all, size as nat) =~= chunks(all, size as nat));
    while rest.len() > size
        invariant
            size > 0,
            contents(out@) + chunks(rest@, size as nat) == chunks(all, size as nat),
        decreases rest@.len(),
    {
        let ghost before = rest@;
        let ghost out0 = out@;
        let tail = rest.split_off(size);
        assert(rest@ =~= before.take(size as int));
        assert(tail@ =~= before.skip(size as int));
        out.push(rest);
        rest = tail;
        proof {
            assert(contents(out@) =~= contents(out0).push(before.take(size as int)));
            assert(contents(out@) + chunks(rest@, size as nat) =~= contents(out0) + (seq![
                before.take(size as int),
            ] + chunks(rest@, size as nat)));
        }
    }
    if rest.len() > 0 {
        let ghost out0 = out@;
        let ghost last = rest@;
        out.push(rest);
        assert(contents(out@) =~= contents(out0) + seq![last]);
    } else {
        assert(contents(out@) + chunks(rest@, size as nat) =~= contents(out@));
    }
    out
}

/// The place of the first smallest number.
pub open spec fn least_at(s: Seq<i64>) -> int
    decreases s.len(),
{
    if s.len() <= 1 {
        0
    } else {
        let b = least_at(s.drop_last());
        if s.last() < s[b] {
            s.len() - 1
        } else {
            b
        }
    }
}

/// No number is smaller than the one at `least_at`, and none before it is as small.
pub proof fn lemma_least_at(s: Seq<i64>)
    requires
        s.len() > 0,
    ensures
        0 <= least_at(s) < s.len(),
        forall|j: int| 0 <= j < s.len() ==> s[least_at(s)] <= #[trigger] s[j],
        forall|j: int| 0 <= j < least_at(s) ==> s[least_at(s)] < #[trigger] s[j],
    decreases s.len(),
{
    if s.len() > 1 {
        let t = s.drop_last();
        lemma_least_at(t);
        assert(t[least_at(t)] == s[least_at(t)]);
        assert forall|j: int| 0 <= j < s.len() implies s[least_at(s)] <= #[trigger] s[j] by {
            if j < t.len() {
                assert(t[j] == s[j]);
            }
        }
        assert forall|j: int| 0 <= j < least_at(s) implies s[least_at(s)] < #[trigger] s[j] by {
            assert(t[j] == s[j]);
        }
    }
}

/// The place of the first smallest number.
pub fn index_of_least(v: &Vec<i64>) -> (r: usize)
    requires
        v@.len() > 0,
    ensures
        r == least_at(v@),
        r < v@.len(),
{
    let mut best: usize = 0;
    let mut i: usize = 1;
    while i < v.len()
        invariant
            1 <= i <= v@.len(),
            best < i,
            best == least_at(v@.take(i as int)),
        decreases v@.len() - i,
    {
        assert(v@.take(i + 1).drop_last() == v@.take(i as int));
        if v[i] < v[best] {
            best = i;
        }
        i += 1;
    }
    assert(v@.take(v@.len() as int) == v@);
    best
}

/// The same elements in another order have the same images, in another order.
pub proof fn lemma_images_multiset<A, B>(a: Seq<A>, b: Seq<A>, f: spec_fn(A) -> B)
    requires
        a.to_multiset() == b.to_multiset(),
    ensures
        a.map_values(f).to_multiset() == b.map_values(f).to_multiset(),
    decreases a.len(),
{
    broadcast use {
        vstd::seq_lib::group_to_multiset_ensures,
        vstd::multiset::group_multiset_axioms,
    };

    assert(a.len() == a.to_multiset().len());
    assert(b.len() == b.to_multiset().len());
    if a.len() == 0 {
        assert(a.map_values(f) =~= b.map_values(f));
    } else {
        let x = a.last();
        let n = a.len() - 1;
        assert(a.contains(x));
        assert(b.to_multiset().count(x) > 0);
        assert(b.contains(x));
        let j = choose|j: int| 0 <= j < b.len() && b[j] == x;
        let a1 = a.drop_last();
        let b1 = b.remove(j);
        assert(a1 =~= a.remove(n));
        assert(a1.to_multiset() =~= b1.to_multiset());
        lemma_images_multiset(a1, b1, f);
        assert(a.map_values(f) =~= a1.map_values(f).push(f(x)));
        assert(b.map_values(f).remove(j) =~= b1.map_values(f));
        assert(b.map_values(f)[j] == f(x));
        assert(b.map_values(f).contains(f(x)));
        assert(b.map_values(f).to_multiset() =~= b1.map_values(f).to_multiset().insert(f(x)));
    }
}

/// The sum of a row is what its parts add up to, one number being its own sum.
pub proof fn lemma_total(a: Seq<int>, b: Seq<int>, x: int)
    ensures
        total(Seq::empty()) == 0,
        total(seq![x]) == x,
        total(a + b) == total(a) + total(b),
    decreases b.len(),
{
    reveal_with_fuel(total, 2);
    assert(seq![x].drop_last() =~= Seq::<int>::empty());
    if b.len() == 0 {
        assert(a + b =~= a);
    } else {
        lemma_total(a, b.drop_last(), x);
        assert((a + b).drop_last() =~= a + b.drop_last());
        assert((a + b).last() == b.last());
    }
}

/// Every piece but the last is as long as pieces may be.
pub proof fn lemma_chunks_full<A>(s: Seq<A>, size: nat)
    requires
        size > 0,
    ensures
        forall|i: int|
            0 <= i < chunks(s, size).len() - 1 ==> (#[trigger] chunks(s, size)[i]).len() == size,
    decreases s.len(),
{
    if s.len() > size {
        let rest = chunks(s.skip(size as int), size);
        lemma_chunks_full(s.skip(size as int), size);
        assert forall|i: int| 0 <= i < chunks(s, size).len() - 1 implies (#[trigger] chunks(
            s,
            size,
        )[i]).len() == size by {
            if i > 0 {
                assert(chunks(s, size)[i] == rest[i - 1]);
            }
        }
    }
}

/// The contents of lists are the lists, one by one.
pub proof fn lemma_contents<A>(v: Seq<Vec<A>>)
    ensures
        contents(v).len() == v.len(),
        forall|i: int|
            #![trigger contents(v)[i]]
            0 <= i < v.len() ==> contents(v)[i] == v[i]@,
{
}

}
