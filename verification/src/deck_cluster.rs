//! Decks that differ little are one deck.
//!
//! A deck joins the first cluster with which it has enough units in common; what remains
//! common to all of a cluster is its core.

use crate::db::{DeckModel, RawDeck};
use crate::order::models;
use crate::riot::dto::copy_strings;
use crate::seqs::{lemma_filter_elements, lemma_filter_step, total};
use crate::text::{has, views};
use vstd::multiset::Multiset;
use vstd::prelude::*;

verus! {

/// A deck with its variants.
#[derive(Debug)]
pub struct DeckCluster {
    /// The units that all variants have.
    pub core: Vec<String>,
    pub variants: Vec<RawDeck>,
    /// Games of all variants.
    pub total_games: i64,
    /// Mean placement of the strongest variant, in hundredths.
    pub best_avg: i64,
}

/// What a cluster is.
pub struct ClusterModel {
    pub core: Seq<Seq<char>>,
    pub variants: Seq<DeckModel>,
    pub total_games: int,
    pub best_avg: i64,
}

impl View for DeckCluster {
    type V = ClusterModel;

    open spec fn view(&self) -> ClusterModel {
        ClusterModel {
            core: views(self.core@),
            variants: models(self.variants@),
            total_games: self.total_games as int,
            best_avg: self.best_avg,
        }
    }
}

/// How many of the units of `b` are units of `a`.
pub open spec fn common(a: Seq<Seq<char>>, b: Seq<Seq<char>>) -> nat {
    b.filter(|u: Seq<char>| a.contains(u)).len()
}

/// How many of the units of `b` are units of `a`.
pub fn common_count(a: &Vec<String>, b: &Vec<String>) -> (n: usize)
    ensures
        n == common(views(a@), views(b@)),
{
    let ghost all = views(b@);
    let ghost keep = |u: Seq<char>| views(a@).contains(u);
    let mut n: usize = 0;
    let mut i: usize = 0;
    assert(all.take(0).filter(keep).len() == 0) by {
        reveal(Seq::filter);
    }
    while i < b.len()
        invariant
            i <= b@.len(),
            n <= i,
            all == views(b@),
            keep == (|u: Seq<char>| views(a@).contains(u)),
            n == all.take(i as int).filter(keep).len(),
        decreases b@.len() - i,
    {
        proof {
            lemma_filter_step(all, i as int, keep);
        }
        if has(a, b[i].as_str()) {
            n += 1;
        }
        i += 1;
    }
    assert(all.take(all.len() as int) == all);
    n
}

/// The place of the first cluster that `deck` joins; the number of clusters if there is none.
pub open spec fn first_fit(clusters: Seq<ClusterModel>, deck: DeckModel, min_common: nat) -> nat
    decreases clusters.len(),
{
    if clusters.len() == 0 || common(clusters[0].core, deck.units) >= min_common {
        0
    } else {
        1 + first_fit(clusters.drop_first(), deck, min_common)
    }
}

/// A cluster of one deck.
pub open spec fn alone(deck: DeckModel) -> ClusterModel {
    ClusterModel {
        core: deck.units,
        variants: seq![deck],
        total_games: deck.games as int,
        best_avg: deck.avg_placement,
    }
}

/// A cluster that `deck` has joined: the core keeps what the deck has too.
pub open spec fn absorbed(c: ClusterModel, deck: DeckModel) -> ClusterModel {
    ClusterModel {
        core: c.core.filter(|u: Seq<char>| deck.units.contains(u)),
        variants: c.variants.push(deck),
        total_games: c.total_games + deck.games,
        best_avg: c.best_avg,
    }
}

/// The clusters with one more deck.
pub open spec fn with_deck(
    clusters: Seq<ClusterModel>,
    deck: DeckModel,
    min_common: nat,
) -> Seq<ClusterModel> {
    let i = first_fit(clusters, deck, min_common) as int;
    if i < clusters.len() {
        clusters.update(i, absorbed(clusters[i], deck))
    } else {
        clusters.push(alone(deck))
    }
}

/// The clusters of a row of decks, which come in one after another.
pub open spec fn clusters_of(raw: Seq<DeckModel>, min_common: nat) -> Seq<ClusterModel>
    decreases raw.len(),
{
    if raw.len() == 0 {
        Seq::empty()
    } else {
        with_deck(clusters_of(raw.drop_last(), min_common), raw.last(), min_common)
    }
}

/// No count of games leaves the range of its type on the way.
pub open spec fn games_fit(raw: Seq<DeckModel>, min_common: nat) -> bool {
    forall|n: int, i: int|
        #![trigger clusters_of(raw.take(n), min_common)[i]]
        0 <= n <= raw.len() && 0 <= i < clusters_of(raw.take(n), min_common).len() ==> i64::MIN
            <= clusters_of(raw.take(n), min_common)[i].total_games <= i64::MAX
}

/// The units of `core` that `units` has too.
fn intersect(core: &Vec<String>, units: &Vec<String>) -> (r: Vec<String>)
    ensures
        views(r@) == views(core@).filter(|u: Seq<char>| views(units@).contains(u)),
{
    let ghost all = views(core@);
    let ghost keep = |u: Seq<char>| views(units@).contains(u);
    let mut out: Vec<String> = Vec::new();
    let mut i: usize = 0;
    assert(views(out@) =~= all.take(0).filter(keep)) by {
        reveal(Seq::filter);
    }
    while i < core.len()
        invariant
            i <= core@.len(),
            all == views(core@),
            keep == (|u: Seq<char>| views(units@).contains(u)),
            views(out@) == all.take(i as int).filter(keep),
        decreases core@.len() - i,
    {
        proof {
            lemma_filter_step(all, i as int, keep);
        }
        if has(units, core[i].as_str()) {
            let ghost before = out@;
            out.push(core[i].clone());
            assert(views(out@) =~= views(before).push(core@[i as int]@));
        }
        i += 1;
    }
    assert(all.take(all.len() as int) == all);
    out
}

/// The clusters of `raw`. Its decks are expected strongest first, so that a cluster begins
/// with its strongest variant.
pub fn cluster_decks(raw: Vec<RawDeck>, min_common: usize) -> (r: Vec<DeckCluster>)
    requires
        games_fit(models(raw@), min_common as nat),
    ensures
        models(r@) == clusters_of(models(raw@), min_common as nat),
{
    let ghost all = models(raw@);
    let mut rest = raw;
    let mut clusters: Vec<DeckCluster> = Vec::new();
    assert(models(clusters@) =~= clusters_of(all.take(0), min_common as nat));
    while rest.len() > 0
        invariant
            rest@.len() <= all.len(),
            models(rest@) == all.skip(all.len() - rest@.len()),
            games_fit(all, min_common as nat),
            models(clusters@) == clusters_of(all.take(all.len() - rest@.len()), min_common as nat),
        decreases rest@.len(),
    {
        let ghost n = all.len() - rest@.len();
        let ghost rest0 = rest@;
        let deck = rest.remove(0);
        let ghost so_far = models(clusters@);
        let ghost d = deck@;
        proof {
            assert(models(rest0)[0] == rest0[0]@);
            assert(all[n] == d);
            assert(all.take(n + 1).drop_last() == all.take(n));
            assert(all.take(n + 1).last() == d);
            assert(models(rest@) =~= all.skip(n + 1)) by {
                assert forall|i: int| 0 <= i < rest@.len() implies models(rest@)[i] == all[n + 1 + i] by {
                    assert(models(rest0)[i + 1] == rest0[i + 1]@);
                }
            }
            lemma_joins_first(so_far, d, min_common as nat);
        }
        let mut i: usize = 0;
        assert(so_far.skip(0) == so_far);
        while i < clusters.len() && common_count(&clusters[i].core, &deck.units) < min_common
            invariant
                i <= clusters@.len(),
                so_far == models(clusters@),
                d == deck@,
                first_fit(so_far, d, min_common as nat) == i + first_fit(
                    so_far.skip(i as int),
                    d,
                    min_common as nat,
                ),
            decreases clusters@.len() - i,
        {
            assert(so_far[i as int] == clusters@[i as int]@);
            assert(so_far.skip(i as int).drop_first() == so_far.skip(i + 1));
            i += 1;
        }
        if i < clusters.len() {
            let ghost old_clusters = clusters@;
            proof {
                assert(so_far[i as int] == clusters@[i as int]@);
                let after = clusters_of(all.take(n + 1), min_common as nat);
                assert(after == so_far.update(i as int, absorbed(so_far[i as int], d)));
                assert(i64::MIN <= clusters_of(all.take(n + 1), min_common as nat)[i as int].total_games
                    <= i64::MAX);
            }
            let core = intersect(&clusters[i].core, &deck.units);
            let games: i64 = clusters[i].total_games + deck.games;
            clusters[i].core = core;
            clusters[i].total_games = games;
            clusters[i].variants.push(deck);
            proof {
                let c = clusters@[i as int];
                let c0 = old_clusters[i as int];
                assert(models(c.variants@) =~= models(c0.variants@).push(d));
                assert(c@ == absorbed(c0@, d));
                assert(models(clusters@) =~= so_far.update(i as int, absorbed(so_far[i as int], d)));
            }
        } else {
            let ghost old_clusters = clusters@;
            let core = copy_strings(&deck.units);
            let best_avg: i64 = deck.avg_placement;
            let total_games: i64 = deck.games;
            let mut variants: Vec<RawDeck> = Vec::new();
            variants.push(deck);
            assert(models(variants@) =~= seq![d]);
            clusters.push(DeckCluster { core, variants, total_games, best_avg });
            assert(models(clusters@) =~= so_far.push(alone(d)));
        }
    }
    assert(all.take(all.len() as int) == all);
    clusters
}

// ---------------------------------------------------------------- tiers

/// A deck worth showing: a mean placement of 4.5 or better, or one of 5.0 or better over
/// enough games.
pub open spec fn in_tier(c: DeckCluster, min_games_soft: i64) -> bool {
    c.best_avg <= 450 || (c.best_avg <= 500 && c.total_games >= min_games_soft)
}

/// The clusters that are worth showing, in their order.
pub fn filter_tier_decks(clusters: Vec<DeckCluster>, min_games_soft: i64) -> (r: Vec<DeckCluster>)
    ensures
        r@ == clusters@.filter(|c: DeckCluster| in_tier(c, min_games_soft)),
{
    let ghost all = clusters@;
    let ghost keep = |c: DeckCluster| in_tier(c, min_games_soft);
    let mut rest = clusters;
    let mut out: Vec<DeckCluster> = Vec::new();
    assert(out@ =~= all.take(0).filter(keep)) by {
        reveal(Seq::filter);
    }
    while rest.len() > 0
        invariant
            rest@.len() <= all.len(),
            rest@ == all.skip(all.len() - rest@.len()),
            keep == (|c: DeckCluster| in_tier(c, min_games_soft)),
            out@ == all.take(all.len() - rest@.len()).filter(keep),
        decreases rest@.len(),
    {
        let ghost n = all.len() - rest@.len();
        let c = rest.remove(0);
        proof {
            assert(c == all[n]);
            assert(rest@ =~= all.skip(n + 1));
            lemma_filter_step(all, n, keep);
        }
        if c.best_avg <= 450 {
            out.push(c);
        } else if c.best_avg <= 500 && c.total_games >= min_games_soft {
            out.push(c);
        }
    }
    assert(all.take(all.len() as int) == all);
    out
}

/// The units of a variant that are not in the core.
pub fn flex_units(variant: &RawDeck, core: &Vec<String>) -> (r: Vec<String>)
    ensures
        views(r@) == variant@.units.filter(|u: Seq<char>| !views(core@).contains(u)),
{
    let ghost all = variant@.units;
    let ghost keep = |u: Seq<char>| !views(core@).contains(u);
    let mut out: Vec<String> = Vec::new();
    let mut i: usize = 0;
    assert(views(out@) =~= all.take(0).filter(keep)) by {
        reveal(Seq::filter);
    }
    while i < variant.units.len()
        invariant
            i <= variant.units@.len(),
            all == variant@.units,
            keep == (|u: Seq<char>| !views(core@).contains(u)),
            views(out@) == all.take(i as int).filter(keep),
        decreases variant.units@.len() - i,
    {
        let ghost before = out@;
        proof {
            lemma_filter_step(all, i as int, keep);
        }
        let shared = has(core, variant.units[i].as_str());
        if !shared {
            out.push(variant.units[i].clone());
            assert(views(out@) =~= views(before).push(all[i as int]));
        }
        i += 1;
    }
    assert(all.take(all.len() as int) == all);
    out
}

// ---------------------------------------------------------------- laws

/// All of the given decks have the unit `u`.
pub open spec fn in_all(decks: Seq<DeckModel>, u: Seq<char>) -> bool {
    forall|j: int| 0 <= j < decks.len() ==> (#[trigger] decks[j]).units.contains(u)
}

/// What holds of every cluster: it has a variant, its core is what all variants have, in the
/// order of the first, its games are those of the variants, and its mean that of the first.
pub open spec fn cluster_holds(c: ClusterModel) -> bool {
    &&& c.variants.len() > 0
    &&& c.core == c.variants[0].units.filter(|u: Seq<char>| in_all(c.variants, u))
    &&& c.total_games == total(Seq::new(c.variants.len(), |j: int| c.variants[j].games as int))
    &&& c.best_avg == c.variants[0].avg_placement
}

proof fn lemma_alone_holds(d: DeckModel)
    ensures
        cluster_holds(alone(d)),
{
    let c = alone(d);
    let p = |u: Seq<char>| in_all(c.variants, u);
    assert forall|i: int| 0 <= i < d.units.len() implies p(#[trigger] d.units[i]) == true by {
        assert(d.units.contains(d.units[i]));
    }
    crate::seqs::lemma_filter_alike(d.units, p, |u: Seq<char>| true);
    lemma_filter_all(d.units);
    let g = Seq::new(c.variants.len(), |j: int| c.variants[j].games as int);
    assert(g.drop_last() =~= Seq::<int>::empty());
    assert(total(g.drop_last()) == 0);
}

proof fn lemma_filter_all<A>(s: Seq<A>)
    ensures
        s.filter(|x: A| true) == s,
    decreases s.len(),
{
    reveal(Seq::filter);
    if s.len() > 0 {
        lemma_filter_all(s.drop_last());
        assert(s.drop_last().push(s.last()) =~= s);
    }
}

proof fn lemma_absorbed_holds(c: ClusterModel, d: DeckModel)
    requires
        cluster_holds(c),
    ensures
        cluster_holds(absorbed(c, d)),
{
    let r = absorbed(c, d);
    let p = |u: Seq<char>| in_all(c.variants, u);
    let q = |u: Seq<char>| d.units.contains(u);
    let both = |u: Seq<char>| in_all(r.variants, u);
    assert forall|u: Seq<char>| #[trigger] both(u) <==> p(u) && q(u) by {
        if both(u) {
            assert forall|j: int| 0 <= j < c.variants.len() implies (
            #[trigger] c.variants[j]).units.contains(u) by {
                assert(r.variants[j] == c.variants[j]);
            }
            assert(r.variants[c.variants.len() as int] == d);
        }
    }
    crate::seqs::lemma_filter_twice(c.variants[0].units, p, q, both);
    let g = Seq::new(c.variants.len(), |j: int| c.variants[j].games as int);
    let h = Seq::new(r.variants.len(), |j: int| r.variants[j].games as int);
    assert(h.drop_last() =~= g);
}

/// What `cluster_holds` says holds of every cluster that comes out.
pub proof fn lemma_clusters_hold(raw: Seq<DeckModel>, min_common: nat)
    ensures
        forall|i: int|
            0 <= i < clusters_of(raw, min_common).len() ==> cluster_holds(
                #[trigger] clusters_of(raw, min_common)[i],
            ),
    decreases raw.len(),
{
    if raw.len() > 0 {
        let before = clusters_of(raw.drop_last(), min_common);
        let d = raw.last();
        lemma_clusters_hold(raw.drop_last(), min_common);
        let k = first_fit(before, d, min_common) as int;
        if k < before.len() {
            lemma_absorbed_holds(before[k], d);
        } else {
            lemma_alone_holds(d);
        }
    }
}

/// The decks of all clusters together.
pub open spec fn spread(clusters: Seq<ClusterModel>) -> Multiset<DeckModel>
    decreases clusters.len(),
{
    if clusters.len() == 0 {
        Multiset::empty()
    } else {
        spread(clusters.drop_last()).add(clusters.last().variants.to_multiset())
    }
}

proof fn lemma_spread_update(clusters: Seq<ClusterModel>, i: int, d: DeckModel)
    requires
        0 <= i < clusters.len(),
    ensures
        spread(clusters.update(i, absorbed(clusters[i], d))) == spread(clusters).insert(d),
    decreases clusters.len(),
{
    broadcast use vstd::seq_lib::group_to_multiset_ensures;

    let after = clusters.update(i, absorbed(clusters[i], d));
    if i == clusters.len() - 1 {
        assert(after.drop_last() == clusters.drop_last());
        assert(spread(after) =~= spread(clusters).insert(d));
    } else {
        lemma_spread_update(clusters.drop_last(), i, d);
        assert(after.drop_last() == clusters.drop_last().update(i, absorbed(clusters[i], d)));
        assert(spread(after) =~= spread(clusters).insert(d));
    }
}

/// No deck gets lost and none is counted twice: the variants of all clusters together are
/// the decks that went in.
pub proof fn lemma_clusters_partition(raw: Seq<DeckModel>, min_common: nat)
    ensures
        spread(clusters_of(raw, min_common)) == raw.to_multiset(),
    decreases raw.len(),
{
    broadcast use vstd::seq_lib::group_to_multiset_ensures;

    if raw.len() > 0 {
        let before = clusters_of(raw.drop_last(), min_common);
        let d = raw.last();
        lemma_clusters_partition(raw.drop_last(), min_common);
        assert(raw == raw.drop_last().push(d));
        let k = first_fit(before, d, min_common) as int;
        if k < before.len() {
            lemma_spread_update(before, k, d);
        } else {
            let after = before.push(alone(d));
            assert(after.drop_last() == before);
            assert(seq![d] == Seq::<DeckModel>::empty().push(d));
            assert(spread(after) =~= spread(before).insert(d));
        }
    } else {
        assert(spread(clusters_of(raw, min_common)) =~= raw.to_multiset());
    }
}

/// The decks come strongest first.
pub open spec fn strongest_first(raw: Seq<DeckModel>) -> bool {
    forall|i: int, j: int|
        0 <= i <= j < raw.len() ==> (#[trigger] raw[i]).avg_placement <= (
        #[trigger] raw[j]).avg_placement
}

/// Where the decks come strongest first, no variant of a cluster is stronger than the mean
/// that the cluster is known by.
pub proof fn lemma_best_is_best(raw: Seq<DeckModel>, min_common: nat)
    requires
        strongest_first(raw),
    ensures
        forall|i: int, j: int|
            #![trigger clusters_of(raw, min_common)[i].variants[j]]
            0 <= i < clusters_of(raw, min_common).len() && 0 <= j < clusters_of(
                raw,
                min_common,
            )[i].variants.len() ==> clusters_of(raw, min_common)[i].best_avg <= clusters_of(
                raw,
                min_common,
            )[i].variants[j].avg_placement,
{
    lemma_bounded(raw, min_common);
}

proof fn lemma_bounded(raw: Seq<DeckModel>, min_common: nat)
    requires
        strongest_first(raw),
    ensures
        forall|i: int|
            #![trigger clusters_of(raw, min_common)[i]]
            0 <= i < clusters_of(raw, min_common).len() ==> raw.len() > 0 && clusters_of(
                raw,
                min_common,
            )[i].best_avg <= raw.last().avg_placement,
        forall|i: int, j: int|
            #![trigger clusters_of(raw, min_common)[i].variants[j]]
            0 <= i < clusters_of(raw, min_common).len() && 0 <= j < clusters_of(
                raw,
                min_common,
            )[i].variants.len() ==> clusters_of(raw, min_common)[i].best_avg <= clusters_of(
                raw,
                min_common,
            )[i].variants[j].avg_placement,
    decreases raw.len(),
{
    if raw.len() > 0 {
        let t = raw.drop_last();
        let d = raw.last();
        assert(strongest_first(t)) by {
            assert forall|i: int, j: int| 0 <= i <= j < t.len() implies (
            #[trigger] t[i]).avg_placement <= (#[trigger] t[j]).avg_placement by {
                assert(t[i] == raw[i] && t[j] == raw[j]);
            }
        }
        lemma_bounded(t, min_common);
        if t.len() > 0 {
            assert(raw[t.len() - 1].avg_placement <= raw[raw.len() - 1].avg_placement);
        }
        let before = clusters_of(t, min_common);
        let after = clusters_of(raw, min_common);
        let k = first_fit(before, d, min_common) as int;
        lemma_joins_first(before, d, min_common);
        assert forall|i: int| #![trigger after[i]] 0 <= i < after.len() implies after[i].best_avg
            <= d.avg_placement by {
            if i < before.len() {
                let _ = before[i];
            }
        }
        assert forall|i: int, j: int|
            #![trigger after[i].variants[j]]
            0 <= i < after.len() && 0 <= j < after[i].variants.len() implies after[i].best_avg
            <= after[i].variants[j].avg_placement by {
            if i < before.len() {
                let _ = before[i];
                if j < before[i].variants.len() {
                    let _ = before[i].variants[j];
                }
            }
        }
    }
}

/// Where no deck has a unit twice, a cluster of two variants or more keeps at least
/// `min_common` units in its core.
pub proof fn lemma_core_is_common(raw: Seq<DeckModel>, min_common: nat)
    requires
        forall|i: int| 0 <= i < raw.len() ==> (#[trigger] raw[i]).units.no_duplicates(),
    ensures
        forall|i: int|
            #![trigger clusters_of(raw, min_common)[i]]
            0 <= i < clusters_of(raw, min_common).len() && clusters_of(
                raw,
                min_common,
            )[i].variants.len() >= 2 ==> clusters_of(raw, min_common)[i].core.len() >= min_common,
{
    lemma_core_distinct(raw, min_common);
}

proof fn lemma_core_distinct(raw: Seq<DeckModel>, min_common: nat)
    requires
        forall|i: int| 0 <= i < raw.len() ==> (#[trigger] raw[i]).units.no_duplicates(),
    ensures
        forall|i: int|
            #![trigger clusters_of(raw, min_common)[i]]
            0 <= i < clusters_of(raw, min_common).len() ==> clusters_of(
                raw,
                min_common,
            )[i].core.no_duplicates() && (clusters_of(raw, min_common)[i].variants.len() >= 2
                ==> clusters_of(raw, min_common)[i].core.len() >= min_common),
    decreases raw.len(),
{
    if raw.len() > 0 {
        let t = raw.drop_last();
        let d = raw.last();
        assert forall|i: int| 0 <= i < t.len() implies (#[trigger] t[i]).units.no_duplicates() by {
            assert(t[i] == raw[i]);
        }
        assert(raw[raw.len() - 1].units.no_duplicates());
        lemma_core_distinct(t, min_common);
        let before = clusters_of(t, min_common);
        let after = clusters_of(raw, min_common);
        let k = first_fit(before, d, min_common) as int;
        lemma_joins_first(before, d, min_common);
        assert forall|i: int|
            #![trigger after[i]]
            0 <= i < after.len() implies after[i].core.no_duplicates() && (after[i].variants.len()
            >= 2 ==> after[i].core.len() >= min_common) by {
            if i < before.len() {
                let c = before[i];
                if i == k {
                    crate::seqs::lemma_filter_distinct(c.core, |u: Seq<char>| d.units.contains(u));
                    lemma_common_symmetric(c.core, d.units);
                }
            }
        }
    }
}

/// A deck joins the first cluster that it has enough units in common with: no earlier one has
/// as many, and where none has, a new cluster begins.
pub proof fn lemma_joins_first(clusters: Seq<ClusterModel>, deck: DeckModel, min_common: nat)
    ensures
        ({
            let k = first_fit(clusters, deck, min_common) as int;
            &&& k <= clusters.len()
            &&& forall|j: int|
                0 <= j < k ==> common((#[trigger] clusters[j]).core, deck.units) < min_common
            &&& k < clusters.len() ==> common(clusters[k].core, deck.units) >= min_common
            &&& with_deck(clusters, deck, min_common).len() == if k < clusters.len() {
                clusters.len()
            } else {
                clusters.len() + 1
            }
        }),
    decreases clusters.len(),
{
    if clusters.len() > 0 && common(clusters[0].core, deck.units) < min_common {
        let rest = clusters.drop_first();
        lemma_joins_first(rest, deck, min_common);
        let k = first_fit(clusters, deck, min_common) as int;
        assert forall|j: int| 0 <= j < k implies common(
            (#[trigger] clusters[j]).core,
            deck.units,
        ) < min_common by {
            if j > 0 {
                assert(rest[j - 1] == clusters[j]);
            }
        }
    }
}

/// Where nothing need be common, all decks are one cluster.
pub proof fn lemma_nothing_in_common(raw: Seq<DeckModel>)
    ensures
        clusters_of(raw, 0).len() == if raw.len() == 0 {
            0nat
        } else {
            1
        },
    decreases raw.len(),
{
    if raw.len() > 0 {
        lemma_nothing_in_common(raw.drop_last());
    }
}

/// Where in the row of decks the variants of each cluster stood.
pub open spec fn places_of(raw: Seq<DeckModel>, min_common: nat) -> Seq<Seq<int>>
    decreases raw.len(),
{
    if raw.len() == 0 {
        Seq::empty()
    } else {
        let before = places_of(raw.drop_last(), min_common);
        let n = raw.len() - 1;
        let k = first_fit(
            clusters_of(raw.drop_last(), min_common),
            raw.last(),
            min_common,
        ) as int;
        if k < before.len() {
            before.update(k, before[k].push(n))
        } else {
            before.push(seq![n])
        }
    }
}

/// The variants of a cluster stand in the order in which the decks came, and the clusters in the
/// order in which their first variants came.
pub proof fn lemma_order_is_kept(raw: Seq<DeckModel>, min_common: nat)
    ensures
        ({
            let clusters = clusters_of(raw, min_common);
            let places = places_of(raw, min_common);
            &&& places.len() == clusters.len()
            &&& forall|i: int|
                0 <= i < places.len() ==> 0 < (#[trigger] places[i]).len()
                    == clusters[i].variants.len()
            &&& forall|i: int, j: int|
                #![trigger places[i][j]]
                0 <= i < places.len() && 0 <= j < places[i].len() ==> 0 <= places[i][j] < raw.len()
                    && clusters[i].variants[j] == raw[places[i][j]]
            &&& forall|i: int, j: int, k: int|
                #![trigger places[i][j], places[i][k]]
                0 <= i < places.len() && 0 <= j < k < places[i].len() ==> places[i][j]
                    < places[i][k]
            &&& forall|i: int, k: int|
                #![trigger places[i][0], places[k][0]]
                0 <= i < k < places.len() ==> places[i][0] < places[k][0]
        }),
    decreases raw.len(),
{
    if raw.len() > 0 {
        let t = raw.drop_last();
        let d = raw.last();
        let n = raw.len() - 1;
        lemma_order_is_kept(t, min_common);
        let before = clusters_of(t, min_common);
        let was = places_of(t, min_common);
        let clusters = clusters_of(raw, min_common);
        let places = places_of(raw, min_common);
        let f = first_fit(before, d, min_common) as int;
        lemma_joins_first(before, d, min_common);
        assert forall|i: int| 0 <= i < places.len() implies 0 < (#[trigger] places[i]).len()
            == clusters[i].variants.len() by {
            if i < was.len() {
                let _ = was[i];
            }
        }
        assert forall|i: int, j: int|
            #![trigger places[i][j]]
            0 <= i < places.len() && 0 <= j < places[i].len() implies 0 <= places[i][j] < raw.len()
            && clusters[i].variants[j] == raw[places[i][j]] by {
            if i < was.len() {
                let _ = was[i];
                if j < was[i].len() {
                    assert(places[i][j] == was[i][j]);
                    assert(t[was[i][j]] == raw[was[i][j]]);
                }
            }
        }
        assert forall|i: int, j: int, k: int|
            #![trigger places[i][j], places[i][k]]
            0 <= i < places.len() && 0 <= j < k < places[i].len() implies places[i][j]
            < places[i][k] by {
            if i < was.len() {
                assert(places[i][j] == was[i][j]);
                if k < was[i].len() {
                    assert(places[i][k] == was[i][k]);
                }
            }
        }
        assert forall|i: int, k: int|
            #![trigger places[i][0], places[k][0]]
            0 <= i < k < places.len() implies places[i][0] < places[k][0] by {
            let _ = was[i];
            assert(places[i][0] == was[i][0]);
            if k < was.len() {
                let _ = was[k];
                assert(places[k][0] == was[k][0]);
            }
        }
    }
}

/// Where the decks come strongest first, the clusters do too.
pub proof fn lemma_clusters_strongest_first(raw: Seq<DeckModel>, min_common: nat)
    requires
        strongest_first(raw),
    ensures
        forall|i: int, k: int|
            #![trigger clusters_of(raw, min_common)[i], clusters_of(raw, min_common)[k]]
            0 <= i <= k < clusters_of(raw, min_common).len() ==> clusters_of(
                raw,
                min_common,
            )[i].best_avg <= clusters_of(raw, min_common)[k].best_avg,
{
    let clusters = clusters_of(raw, min_common);
    let places = places_of(raw, min_common);
    lemma_order_is_kept(raw, min_common);
    lemma_clusters_hold(raw, min_common);
    assert forall|i: int, k: int|
        #![trigger clusters[i], clusters[k]]
        0 <= i <= k < clusters.len() implies clusters[i].best_avg <= clusters[k].best_avg by {
        assert(cluster_holds(clusters[i]) && cluster_holds(clusters[k]));
        let (a, b) = (places[i][0], places[k][0]);
        assert(clusters[i].variants[0] == raw[a]);
        assert(clusters[k].variants[0] == raw[b]);
        assert(a <= b);
    }
}

/// Of two rows without repetition, as many units of the one are in the other as the other way
/// round.
pub proof fn lemma_common_symmetric(a: Seq<Seq<char>>, b: Seq<Seq<char>>)
    requires
        a.no_duplicates(),
        b.no_duplicates(),
    ensures
        common(a, b) == common(b, a),
{
    let p = |u: Seq<char>| b.contains(u);
    let q = |u: Seq<char>| a.contains(u);
    crate::seqs::lemma_filter_distinct(a, p);
    crate::seqs::lemma_filter_distinct(b, q);
    lemma_filter_elements(a, p);
    lemma_filter_elements(b, q);
    let x = a.filter(p);
    let y = b.filter(q);
    assert forall|u: Seq<char>| #[trigger] x.contains(u) <==> y.contains(u) by {
        if x.contains(u) {
            let m = choose|m: int| 0 <= m < x.len() && x[m] == u;
            assert(p(x[m]) && a.contains(x[m]));
            assert(b.contains(u) && q(u));
        }
        if y.contains(u) {
            let m = choose|m: int| 0 <= m < y.len() && y[m] == u;
            assert(q(y[m]) && b.contains(y[m]));
            assert(a.contains(u) && p(u));
        }
    }
    crate::seqs::lemma_same_elements_same_len(x, y);
}

/// A unit of a deck is in common where the other deck has it too.
pub proof fn lemma_in_common(a: Seq<Seq<char>>, b: Seq<Seq<char>>, u: Seq<char>)
    ensures
        common(a, Seq::empty()) == 0,
        a.contains(u) ==> common(a, b.push(u)) == common(a, b) + 1,
        !a.contains(u) ==> common(a, b.push(u)) == common(a, b),
{
    reveal(Seq::filter);
    assert(b.push(u).drop_last() =~= b);
}

/// A cluster is of the top tier at a mean of 4.5 or better, and at 5.0 or better with enough
/// games.
pub proof fn lemma_top_tier(c: DeckCluster, min_games_soft: i64)
    ensures
        in_tier(c, min_games_soft) <==> 100 * c.best_avg <= 45_000 || (100 * c.best_avg <= 50_000
            && c.total_games >= min_games_soft),
        c@.core == views(c.core@),
        c@.variants == models(c.variants@),
        c@.total_games == c.total_games,
        c@.best_avg == c.best_avg,
{
}

}
