//! Drawing at random.

use crate::text::views;
use vstd::prelude::*;

verus! {

/// The elements of `r` stand in `v` at the places `at`, no place twice.
pub open spec fn stands_at<A>(r: Seq<A>, v: Seq<A>, at: Seq<int>) -> bool {
    &&& at.len() == r.len()
    &&& at.no_duplicates()
    &&& forall|i: int| 0 <= i < r.len() ==> 0 <= #[trigger] at[i] < v.len() && r[i] == v[at[i]]
}

/// `r` was drawn from `v`, each element of `v` at most once.
pub open spec fn drawn<A>(r: Seq<A>, v: Seq<A>) -> bool {
    exists|at: Seq<int>| #[trigger] stands_at(r, v, at)
}

/// Calls `rand::seq::SliceRandom::choose_multiple` with the thread's random numbers. Claimed
/// of it: it hands out `amount` elements at different places, or all there are where there
/// are fewer. Which ones, and in what order, is left to chance.
#[verifier::external_body]
pub(crate) fn choose_some(v: &Vec<String>, amount: usize) -> (r: Vec<String>)
    ensures
        r@.len() == if amount <= v@.len() {
            amount as nat
        } else {
            v@.len()
        },
        drawn(views(r@), views(v@)),
{
    rand::seq::SliceRandom::choose_multiple(v.as_slice(), &mut rand::thread_rng(), amount)
        .cloned()
        .collect()
}

/// Calls `rand::seq::SliceRandom::shuffle` on the first `head` elements, with the thread's
/// random numbers. Claimed of it: these elements change places with each other and nothing
/// else moves. Which order comes out is left to chance.
#[verifier::external_body]
pub(crate) fn shuffle_head<T>(v: Vec<T>, head: usize) -> (r: Vec<T>)
    requires
        head <= v@.len(),
    ensures
        r@.len() == v@.len(),
        r@.take(head as int).to_multiset() == v@.take(head as int).to_multiset(),
        r@.skip(head as int) == v@.skip(head as int),
{
    let mut r = v;
    rand::seq::SliceRandom::shuffle(&mut r[..head], &mut rand::thread_rng());
    r
}

/// `v` in a random order.
pub(crate) fn shuffled<T>(v: Vec<T>) -> (r: Vec<T>)
    ensures
        r@.to_multiset() == v@.to_multiset(),
{
    let n = v.len();
    let ghost before = v@;
    let r = shuffle_head(v, n);
    assert(before.take(n as int) == before);
    assert(r@.take(n as int) == r@);
    r
}

/// What is drawn stood there; where nothing stood twice, nothing is drawn twice.
pub proof fn lemma_drawn<A>(r: Seq<A>, v: Seq<A>)
    requires
        drawn(r, v),
    ensures
        r.len() <= v.len(),
        forall|i: int| 0 <= i < r.len() ==> v.contains(#[trigger] r[i]),
        v.no_duplicates() ==> r.no_duplicates(),
{
    let at = choose|at: Seq<int>| #[trigger] stands_at(r, v, at);
    assert forall|i: int| 0 <= i < r.len() implies v.contains(#[trigger] r[i]) by {
        assert(v[at[i]] == r[i]);
    }
    at.unique_seq_to_set();
    let places = vstd::set_lib::set_int_range(0, v.len() as int);
    vstd::set_lib::lemma_int_range(0, v.len() as int);
    assert(at.to_set().subset_of(places)) by {
        assert forall|p: int| at.to_set().contains(p) implies places.contains(p) by {
            let i = choose|i: int| 0 <= i < at.len() && at[i] == p;
            assert(0 <= at[i] < v.len());
        }
    }
    vstd::set_lib::lemma_len_subset(at.to_set(), places);
    if v.no_duplicates() {
        assert forall|i: int, j: int| 0 <= i < r.len() && 0 <= j < r.len() && i != j implies r[i]
            != r[j] by {
            assert(at[i] != at[j]);
            assert(v[at[i]] != v[at[j]]);
        }
    }
}

}
