//! Stable sorting by an order of one's own.

use crate::text::{lex_lt, str_lt};
use vstd::prelude::*;

verus! {

/// A type whose values can be sorted, by what its view says.
pub trait Ordered: View + Sized {
    /// `a` has to stand before `b`.
    spec fn before(a: Self::V, b: Self::V) -> bool;

    /// The order is a strict weak one: values of which neither has to stand before the
    /// other form classes.
    proof fn weak_order(a: Self::V, b: Self::V, c: Self::V)
        ensures
            !Self::before(a, a),
            Self::before(a, b) && Self::before(b, c) ==> Self::before(a, c),
            !Self::before(a, b) && !Self::before(b, c) ==> !Self::before(a, c),
    ;

    /// Whether `self` has to stand before `other`.
    fn is_before(&self, other: &Self) -> (b: bool)
        ensures
            b == Self::before(self@, other@),
    ;
}

/// What the values of a sequence are.
pub open spec fn models<T: View>(s: Seq<T>) -> Seq<T::V> {
    Seq::new(s.len(), |i: int| s[i]@)
}

/// The place at which `x` goes into `s`: before the first value that it has to stand before.
pub open spec fn place<T: Ordered>(s: Seq<T::V>, x: T::V) -> nat
    decreases s.len(),
{
    if s.len() == 0 || T::before(x, s[0]) {
        0
    } else {
        1 + place::<T>(s.drop_first(), x)
    }
}

/// `s` sorted; values of one class stay in the order in which they stood.
pub open spec fn sorted<T: Ordered>(s: Seq<T::V>) -> Seq<T::V>
    decreases s.len(),
{
    if s.len() == 0 {
        s
    } else {
        let t = sorted::<T>(s.drop_last());
        t.insert(place::<T>(t, s.last()) as int, s.last())
    }
}

/// No value of `s` has to stand before an earlier one.
pub open spec fn in_order<T: Ordered>(s: Seq<T::V>) -> bool {
    forall|i: int, j: int| 0 <= i < j < s.len() ==> !T::before(#[trigger] s[j], #[trigger] s[i])
}

proof fn lemma_place<T: Ordered>(s: Seq<T::V>, x: T::V)
    ensures
        place::<T>(s, x) <= s.len(),
        forall|i: int| 0 <= i < place::<T>(s, x) ==> !T::before(x, #[trigger] s[i]),
        place::<T>(s, x) < s.len() ==> T::before(x, s[place::<T>(s, x) as int]),
    decreases s.len(),
{
    if s.len() > 0 && !T::before(x, s[0]) {
        lemma_place::<T>(s.drop_first(), x);
        assert forall|i: int| 0 <= i < place::<T>(s, x) implies !T::before(x, #[trigger] s[i]) by {
            if i > 0 {
                assert(s.drop_first()[i - 1] == s[i]);
            }
        }
    }
}

/// Sorting leaves nothing out and adds nothing.
pub proof fn lemma_sorted_permutes<T: Ordered>(s: Seq<T::V>)
    ensures
        sorted::<T>(s).to_multiset() == s.to_multiset(),
        sorted::<T>(s).len() == s.len(),
    decreases s.len(),
{
    broadcast use vstd::seq_lib::group_to_multiset_ensures;

    if s.len() > 0 {
        let t = sorted::<T>(s.drop_last());
        lemma_sorted_permutes::<T>(s.drop_last());
        lemma_place::<T>(t, s.last());
        assert(s == s.drop_last().push(s.last()));
    }
}

/// A sorted sequence is in order.
pub proof fn lemma_sorted_in_order<T: Ordered>(s: Seq<T::V>)
    ensures
        in_order::<T>(sorted::<T>(s)),
    decreases s.len(),
{
    if s.len() > 0 {
        let t = sorted::<T>(s.drop_last());
        let x = s.last();
        let p = place::<T>(t, x) as int;
        lemma_sorted_in_order::<T>(s.drop_last());
        lemma_place::<T>(t, x);
        let r = t.insert(p, x);
        assert forall|i: int, j: int| 0 <= i < j < r.len() implies !T::before(
            #[trigger] r[j],
            #[trigger] r[i],
        ) by {
            if i < p && j == p {
                assert(r[i] == t[i]);
            } else if i == p && j > p {
                // x stands before t[p], and t[p] is not behind t[j - 1]
                assert(r[j] == t[j - 1]);
                T::weak_order(t[j - 1], x, t[p]);
                T::weak_order(x, t[p], x);
                if j - 1 > p {
                    assert(!T::before(t[j - 1], t[p]));
                    if T::before(t[j - 1], x) {
                        T::weak_order(t[j - 1], x, t[p]);
                    }
                } else if T::before(t[p], x) {
                    T::weak_order(x, t[p], x);
                }
            } else {
                let a = if i < p {
                    i
                } else {
                    i - 1
                };
                let b = if j < p {
                    j
                } else {
                    j - 1
                };
                assert(r[i] == t[a] && r[j] == t[b]);
            }
        }
    }
}

/// A sequence that is in order already is left as it is.
pub proof fn lemma_sorted_of_ordered<T: Ordered>(s: Seq<T::V>)
    requires
        in_order::<T>(s),
    ensures
        sorted::<T>(s) == s,
    decreases s.len(),
{
    if s.len() > 0 {
        let t = s.drop_last();
        assert(in_order::<T>(t)) by {
            assert forall|i: int, j: int| 0 <= i < j < t.len() implies !T::before(
                #[trigger] t[j],
                #[trigger] t[i],
            ) by {
                assert(t[j] == s[j] && t[i] == s[i]);
            }
        }
        lemma_sorted_of_ordered::<T>(t);
        lemma_place::<T>(t, s.last());
        let p = place::<T>(t, s.last()) as int;
        if p < t.len() {
            assert(t[p] == s[p]);
            assert(!T::before(s[s.len() - 1], s[p]));
        }
        assert(t.insert(t.len() as int, s.last()) == s);
    }
}

/// How many values of a sequence that is in order have to stand before `x`: those up to `i`
/// at least, where the `i`-th one has to; at most `i`, where the `i`-th one has not.
proof fn lemma_count_before<T: Ordered>(s: Seq<T::V>, i: int, x: T::V)
    requires
        in_order::<T>(s),
        0 <= i < s.len(),
    ensures
        T::before(s[i], x) ==> s.filter(|y: T::V| T::before(y, x)).len() > i,
        !T::before(s[i], x) ==> s.filter(|y: T::V| T::before(y, x)).len() <= i,
{
    let p = |y: T::V| T::before(y, x);
    lemma_count_upto::<T>(s, i, x, s.len() as int);
    assert(s.take(s.len() as int) == s);
}

proof fn lemma_count_upto<T: Ordered>(s: Seq<T::V>, i: int, x: T::V, n: int)
    requires
        in_order::<T>(s),
        0 <= i < s.len(),
        0 <= n <= s.len(),
    ensures
        T::before(s[i], x) ==> s.take(n).filter(|y: T::V| T::before(y, x)).len() >= if n <= i {
            n
        } else {
            i + 1
        },
        !T::before(s[i], x) ==> s.take(n).filter(|y: T::V| T::before(y, x)).len() <= if n <= i {
            n
        } else {
            i
        },
    decreases n,
{
    let p = |y: T::V| T::before(y, x);
    if n > 0 {
        lemma_count_upto::<T>(s, i, x, n - 1);
        crate::seqs::lemma_filter_step(s, n - 1, p);
        if n - 1 <= i && T::before(s[i], x) {
            // the values up to the i-th one have to stand before x too
            if !T::before(s[n - 1], x) {
                T::weak_order(s[i], s[n - 1], x);
                T::weak_order(s[i], s[i], s[i]);
            }
        }
        if n - 1 >= i && !T::before(s[i], x) {
            if T::before(s[n - 1], x) {
                if n - 1 > i {
                    assert(!T::before(s[n - 1], s[i]));
                }
                T::weak_order(s[n - 1], s[i], x);
            }
        }
    } else {
        reveal(Seq::filter);
    }
}

/// Two sequences in order with the same values agree place by place, up to values of one
/// class.
pub proof fn lemma_order_determined<T: Ordered>(a: Seq<T::V>, b: Seq<T::V>)
    requires
        in_order::<T>(a),
        in_order::<T>(b),
        a.to_multiset() == b.to_multiset(),
    ensures
        a.len() == b.len(),
        forall|i: int|
            #![trigger a[i]]
            #![trigger b[i]]
            0 <= i < a.len() ==> !T::before(a[i], b[i]) && !T::before(b[i], a[i]),
{
    broadcast use vstd::seq_lib::group_to_multiset_ensures;

    assert(a.to_multiset().len() == a.len());
    assert(b.to_multiset().len() == b.len());
    assert forall|i: int|
        #![trigger a[i]]
        #![trigger b[i]]
        0 <= i < a.len() implies !T::before(a[i], b[i]) && !T::before(b[i], a[i]) by {
        lemma_same_class::<T>(a, b, i);
        lemma_same_class::<T>(b, a, i);
    }
}

proof fn lemma_same_class<T: Ordered>(a: Seq<T::V>, b: Seq<T::V>, i: int)
    requires
        in_order::<T>(a),
        in_order::<T>(b),
        a.to_multiset() == b.to_multiset(),
        0 <= i < a.len(),
        a.len() == b.len(),
    ensures
        !T::before(a[i], b[i]),
{
    broadcast use vstd::seq_lib::group_to_multiset_ensures;

    let x = b[i];
    let p = |y: T::V| T::before(y, x);
    lemma_count_before::<T>(a, i, x);
    lemma_count_before::<T>(b, i, x);
    T::weak_order(x, x, x);
    crate::seqs::lemma_filter_multiset(a, p);
    crate::seqs::lemma_filter_multiset(b, p);
    assert(a.filter(p).len() == a.filter(p).to_multiset().len());
    assert(b.filter(p).len() == b.filter(p).to_multiset().len());
}

/// What sorting gives does not depend on the order in which the values stood, up to values
/// of one class.
pub proof fn lemma_sorted_determined<T: Ordered>(a: Seq<T::V>, b: Seq<T::V>)
    requires
        a.to_multiset() == b.to_multiset(),
    ensures
        sorted::<T>(a).len() == sorted::<T>(b).len(),
        forall|i: int|
            #![trigger sorted::<T>(a)[i]]
            #![trigger sorted::<T>(b)[i]]
            0 <= i < sorted::<T>(a).len() ==> !T::before(sorted::<T>(a)[i], sorted::<T>(b)[i])
                && !T::before(sorted::<T>(b)[i], sorted::<T>(a)[i]),
{
    lemma_sorted_permutes::<T>(a);
    lemma_sorted_permutes::<T>(b);
    lemma_sorted_in_order::<T>(a);
    lemma_sorted_in_order::<T>(b);
    lemma_order_determined::<T>(sorted::<T>(a), sorted::<T>(b));
}

/// Sorts `v`; values of one class stay in the order in which they stood.
pub fn stable_sort<T: Ordered>(v: Vec<T>) -> (r: Vec<T>)
    ensures
        models(r@) == sorted::<T>(models(v@)),
        r@.to_multiset() == v@.to_multiset(),
{
    broadcast use vstd::seq_lib::group_to_multiset_ensures;

    let mut out: Vec<T> = Vec::new();
    let mut rest = v;
    let ghost all = rest@;
    assert(all.take(0).to_multiset() == out@.to_multiset()) by {
        assert(all.take(0) == out@);
    }
    assert(models(all.take(0)) == Seq::<T::V>::empty());
    while rest.len() > 0
        invariant
            rest@.len() <= all.len(),
            rest@ == all.skip(all.len() - rest@.len()),
            models(out@) == sorted::<T>(models(all.take(all.len() - rest@.len()))),
            out@.to_multiset() == all.take(all.len() - rest@.len()).to_multiset(),
        decreases rest@.len(),
    {
        let ghost n = all.len() - rest@.len();
        let ghost before = out@;
        let x = rest.remove(0);
        let mut i: usize = 0;
        assert(models(out@).skip(0) == models(out@));
        while i < out.len() && !x.is_before(&out[i])
            invariant
                i <= out@.len(),
                place::<T>(models(out@), x@) == i + place::<T>(models(out@).skip(i as int), x@),
            decreases out@.len() - i,
        {
            assert(models(out@).skip(i as int).drop_first() == models(out@).skip(i + 1));
            i += 1;
        }
        let ghost xv = x;
        out.insert(i, x);
        proof {
            assert(all[n] == xv);
            assert(models(out@) == models(before).insert(i as int, xv@));
            let m = models(all.take(n + 1));
            assert(m.drop_last() == models(all.take(n)));
            assert(m.last() == xv@);
            assert(all.take(n + 1) == all.take(n).push(xv));
            assert(rest@ == all.skip(n + 1));
            assert(out@ == before.insert(i as int, xv));
            before.to_multiset_ensures();
            all.take(n).to_multiset_ensures();
            vstd::seq_lib::to_multiset_insert(before, i as int, xv);
        }
    }
    assert(all.take(all.len() as int) == all);
    out
}

impl Ordered for String {
    open spec fn before(a: Seq<char>, b: Seq<char>) -> bool {
        lex_lt(a, b)
    }

    proof fn weak_order(a: Seq<char>, b: Seq<char>, c: Seq<char>) {
        lemma_lex_weak_order(a, b, c);
    }

    fn is_before(&self, other: &String) -> (b: bool) {
        str_lt(self.as_str(), other.as_str())
    }
}

/// Strings that are not the same are ordered one way or the other.
pub proof fn lemma_lex_total(a: Seq<char>, b: Seq<char>)
    ensures
        a == b || lex_lt(a, b) || lex_lt(b, a),
    decreases a.len(),
{
    if a.len() > 0 && b.len() > 0 && a[0] == b[0] {
        lemma_lex_total(a.drop_first(), b.drop_first());
        if a.drop_first() == b.drop_first() {
            assert(a == seq![a[0]] + a.drop_first());
            assert(b == seq![b[0]] + b.drop_first());
        }
    } else if a.len() == 0 && b.len() == 0 {
        assert(a == b);
    }
}

/// The order of strings is a strict weak one.
pub proof fn lemma_lex_weak_order(a: Seq<char>, b: Seq<char>, c: Seq<char>)
    ensures
        !lex_lt(a, a),
        lex_lt(a, b) && lex_lt(b, c) ==> lex_lt(a, c),
        !lex_lt(a, b) && !lex_lt(b, c) ==> !lex_lt(a, c),
    decreases a.len() + b.len() + c.len(),
{
    if a.len() > 0 {
        lemma_lex_weak_order(
            a.drop_first(),
            if b.len() > 0 {
                b.drop_first()
            } else {
                b
            },
            if c.len() > 0 {
                c.drop_first()
            } else {
                c
            },
        );
    }
}

/// `v` in the order of strings.
pub fn sort_strings(v: Vec<String>) -> (r: Vec<String>)
    ensures
        crate::text::views(r@) == sorted::<String>(crate::text::views(v@)),
        r@.to_multiset() == v@.to_multiset(),
{
    let ghost before = v@;
    let r = stable_sort(v);
    assert(models(r@) == crate::text::views(r@));
    assert(models(before) == crate::text::views(before));
    r
}

/// The models of a row are those of its elements, one by one.
pub proof fn lemma_models<T: View>(s: Seq<T>)
    ensures
        models(s).len() == s.len(),
        forall|i: int| #![trigger models(s)[i]] 0 <= i < s.len() ==> models(s)[i] == s[i]@,
{
}

}
