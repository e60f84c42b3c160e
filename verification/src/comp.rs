//! From a final board to the comp that it played.
//!
//! A comp is known by its two leading active traits and its carry. Equal comps must give
//! equal keys, or averages over them mean nothing.

use crate::order::{
    in_order, lemma_lex_total, lemma_sorted_determined, lemma_sorted_in_order,
    lemma_sorted_permutes, models, sort_strings, sorted, stable_sort, Ordered,
};
use crate::riot::dto::{Participant, Trait, TraitModel, Unit, UnitModel};
use crate::seqs::{lemma_filter_elements, lemma_filter_multiset, lemma_filter_step};
use crate::text::{after_first, first_index, join, joined, lex_lt, str_lt, views};
use vstd::prelude::*;
use vstd::string::*;

verus! {

/// The cost of a unit of a given rarity: the rarities 0 to 6 stand for the costs 1 to 5. The
/// cost does not grow evenly: the five-cost units have rarity 6. What is no rarity costs one
/// more than itself.
pub open spec fn cost_of(rarity: int) -> int {
    if rarity == 4 {
        4
    } else if rarity == 5 || rarity == 6 {
        5
    } else {
        rarity + 1
    }
}

/// The cost of a unit of a given rarity, from 1 to 5 for the rarities 0 to 6.
pub fn cost_from_rarity(rarity: i32) -> (r: i32)
    requires
        rarity < i32::MAX,
    ensures
        r == cost_of(rarity as int),
        0 <= rarity <= 6 ==> 1 <= r <= 5,
{
    match rarity {
        4 => 4,
        5 | 6 => 5,
        other => other + 1,
    }
}

/// A rarer unit never costs less, and every rarity from 0 to 6 has a cost from 1 to 5.
pub proof fn lemma_costs(a: int, b: int)
    requires
        0 <= a <= b <= 6,
    ensures
        1 <= cost_of(a) <= cost_of(b) <= 5,
{
}

/// An id without what stands before its first underscore.
pub open spec fn pretty(id: Seq<char>) -> Seq<char> {
    if first_index(id, '_') < id.len() {
        id.skip(first_index(id, '_') as int + 1)
    } else {
        id
    }
}

/// An id without what stands before its first underscore.
pub fn prettify(id: &str) -> (r: String)
    ensures
        r@ == pretty(id@),
{
    match after_first(id, '_') {
        Some(rest) => rest,
        None => {
            proof {
                crate::text::lemma_first_index(id@, '_');
            }
            id.to_string()
        },
    }
}

/// What a comp is known by.
#[derive(Debug, Clone, PartialEq, Eq, Hash)]
pub struct CompKey {
    pub traits: Vec<String>,
    pub primary: Option<String>,
    pub carry: Option<String>,
}

/// What a comp is known by.
pub struct CompModel {
    pub traits: Seq<Seq<char>>,
    pub primary: Option<Seq<char>>,
    pub carry: Option<Seq<char>>,
}

/// The characters of an optional string.
pub open spec fn opt_view(s: Option<String>) -> Option<Seq<char>> {
    match s {
        Some(t) => Some(t@),
        None => None,
    }
}

impl View for CompKey {
    type V = CompModel;

    open spec fn view(&self) -> CompModel {
        CompModel {
            traits: views(self.traits@),
            primary: opt_view(self.primary),
            carry: opt_view(self.carry),
        }
    }
}

impl CompModel {
    /// The label of the deck: its leading trait by id; empty where it has none.
    pub open spec fn trait_label(self) -> Seq<char> {
        match self.primary {
            Some(t) => "trait:"@ + t,
            None => seq![],
        }
    }

    /// The comp as people read it.
    pub open spec fn text(self) -> Seq<char> {
        let traits = if self.traits.len() == 0 {
            "(특성없음)"@
        } else {
            joined(self.traits, " + "@)
        };
        match self.carry {
            Some(c) => traits + " | 캐리: "@ + pretty(c),
            None => traits,
        }
    }
}

impl CompKey {
    /// The label of the deck: its leading trait by id, which a client puts into its own
    /// language; empty where it has none.
    pub fn trait_label(&self) -> (r: String)
        ensures
            r@ == self@.trait_label(),
    {
        match &self.primary {
            Some(t) => {
                let mut out = "trait:".to_string();
                out.append(t.as_str());
                out
            },
            None => String::new(),
        }
    }

    /// The comp as people read it.
    pub fn to_text(&self) -> (r: String)
        ensures
            r@ == self@.text(),
    {
        let mut out = if self.traits.len() == 0 {
            "(특성없음)".to_string()
        } else {
            join(&self.traits, " + ")
        };
        match &self.carry {
            Some(c) => {
                out.append(" | 캐리: ");
                let name = prettify(c.as_str());
                out.append(name.as_str());
                out
            },
            None => out,
        }
    }
}

// ---------------------------------------------------------------- identity

/// An active trait that more than one unit can have.
pub open spec fn marks_comp(t: TraitModel) -> bool {
    t.tier_current > 0 && t.tier_total >= 2
}

impl Ordered for Trait {
    /// Higher tier first, then more units, then by name.
    open spec fn before(a: TraitModel, b: TraitModel) -> bool {
        a.tier_current > b.tier_current || (a.tier_current == b.tier_current && (a.num_units
            > b.num_units || (a.num_units == b.num_units && lex_lt(a.name, b.name))))
    }

    proof fn weak_order(a: TraitModel, b: TraitModel, c: TraitModel) {
        crate::order::lemma_lex_weak_order(a.name, b.name, c.name);
    }

    fn is_before(&self, other: &Trait) -> (b: bool) {
        if self.tier_current != other.tier_current {
            self.tier_current > other.tier_current
        } else if self.num_units != other.num_units {
            self.num_units > other.num_units
        } else {
            str_lt(self.name.as_str(), other.name.as_str())
        }
    }
}

/// The traits that mark the comp of a board, the leading one first.
pub open spec fn ranked_traits(traits: Seq<TraitModel>) -> Seq<TraitModel> {
    sorted::<Trait>(traits.filter(|t: TraitModel| marks_comp(t)))
}

/// The names of the first `n` traits.
pub open spec fn leading_names(ranked: Seq<TraitModel>, n: nat) -> Seq<Seq<char>> {
    Seq::new(
        if ranked.len() < n {
            ranked.len()
        } else {
            n
        },
        |i: int| pretty(ranked[i].name),
    )
}

/// The names of the two leading traits, in the order of strings.
pub open spec fn identity_names(traits: Seq<TraitModel>) -> Seq<Seq<char>> {
    sorted::<String>(leading_names(ranked_traits(traits), 2))
}

/// The id of the leading trait.
pub open spec fn primary_trait(traits: Seq<TraitModel>) -> Option<Seq<char>> {
    let ranked = ranked_traits(traits);
    if ranked.len() > 0 {
        Some(ranked[0].name)
    } else {
        None
    }
}

/// The traits that a comp is known by, and the leading one of them.
pub fn identity_traits(p: &Participant) -> (r: (Vec<String>, Option<String>))
    ensures
        views(r.0@) == identity_names(models(p.traits@)),
        opt_view(r.1) == primary_trait(models(p.traits@)),
{
    let ghost all = models(p.traits@);
    let ghost keep = |t: TraitModel| marks_comp(t);
    let mut candidates: Vec<Trait> = Vec::new();
    let mut i: usize = 0;
    assert(models(candidates@) =~= all.take(0).filter(keep)) by {
        reveal(Seq::filter);
    }
    while i < p.traits.len()
        invariant
            i <= p.traits@.len(),
            all == models(p.traits@),
            keep == (|t: TraitModel| marks_comp(t)),
            models(candidates@) == all.take(i as int).filter(keep),
        decreases p.traits@.len() - i,
    {
        let t = &p.traits[i];
        proof {
            lemma_filter_step(all, i as int, keep);
        }
        if t.tier_current > 0 && t.tier_total >= 2 {
            let ghost before = candidates@;
            candidates.push(t.copy());
            assert(models(candidates@) =~= models(before).push(t@));
        }
        i += 1;
    }
    assert(all.take(all.len() as int) == all);
    let ranked = stable_sort(candidates);
    let ghost order = ranked_traits(all);
    assert(models(ranked@) == order);

    let primary = if ranked.len() > 0 {
        assert(models(ranked@)[0] == ranked@[0]@);
        Some(ranked[0].name.clone())
    } else {
        None
    };

    let n: usize = if ranked.len() < 2 {
        ranked.len()
    } else {
        2
    };
    let mut names: Vec<String> = Vec::new();
    let mut k: usize = 0;
    while k < n
        invariant
            k <= n <= ranked@.len(),
            models(ranked@) == order,
            names@.len() == k,
            forall|j: int| 0 <= j < k ==> (#[trigger] names@[j])@ == pretty(order[j].name),
        decreases n - k,
    {
        assert(models(ranked@)[k as int] == ranked@[k as int]@);
        names.push(prettify(ranked[k].name.as_str()));
        k += 1;
    }
    assert(views(names@) =~= leading_names(order, 2));
    (sort_strings(names), primary)
}

// ---------------------------------------------------------------- carry

impl Ordered for Unit {
    /// More items first, then the higher cost, then by id.
    open spec fn before(a: UnitModel, b: UnitModel) -> bool {
        let x = cost_of(a.rarity as int);
        let y = cost_of(b.rarity as int);
        a.item_names.len() > b.item_names.len() || (a.item_names.len() == b.item_names.len() && (x
            > y || (x == y && lex_lt(a.character_id, b.character_id))))
    }

    proof fn weak_order(a: UnitModel, b: UnitModel, c: UnitModel) {
        crate::order::lemma_lex_weak_order(a.character_id, b.character_id, c.character_id);
    }

    fn is_before(&self, other: &Unit) -> (b: bool) {
        let x: i64 = wide_cost(self.rarity);
        let y: i64 = wide_cost(other.rarity);
        if self.item_names.len() != other.item_names.len() {
            self.item_names.len() > other.item_names.len()
        } else if x != y {
            x > y
        } else {
            str_lt(self.character_id.as_str(), other.character_id.as_str())
        }
    }
}

/// The cost of a unit of a given rarity, without a bound on the rarity.
fn wide_cost(rarity: i32) -> (r: i64)
    ensures
        r == cost_of(rarity as int),
{
    if rarity == i32::MAX {
        rarity as i64 + 1
    } else {
        cost_from_rarity(rarity) as i64
    }
}

/// A unit that may be the carry.
pub open spec fn may_carry(u: UnitModel) -> bool {
    u.item_names.len() >= 2
}

/// The carry of a board: among the units with two items or more the one with the most, on
/// a tie the dearer one, then the one whose id comes first.
pub open spec fn carry_of(units: Seq<UnitModel>) -> Option<Seq<char>> {
    let ranked = sorted::<Unit>(units.filter(|u: UnitModel| may_carry(u)));
    if ranked.len() > 0 {
        Some(ranked[0].character_id)
    } else {
        None
    }
}

/// The carry of a board.
pub fn find_carry(p: &Participant) -> (r: Option<String>)
    ensures
        opt_view(r) == carry_of(models(p.units@)),
{
    let ghost all = models(p.units@);
    let ghost keep = |u: UnitModel| may_carry(u);
    let mut carriers: Vec<Unit> = Vec::new();
    let mut i: usize = 0;
    assert(models(carriers@) =~= all.take(0).filter(keep)) by {
        reveal(Seq::filter);
    }
    while i < p.units.len()
        invariant
            i <= p.units@.len(),
            all == models(p.units@),
            keep == (|u: UnitModel| may_carry(u)),
            models(carriers@) == all.take(i as int).filter(keep),
        decreases p.units@.len() - i,
    {
        let u = &p.units[i];
        proof {
            lemma_filter_step(all, i as int, keep);
        }
        if u.item_names.len() >= 2 {
            let ghost before = carriers@;
            carriers.push(u.copy());
            assert(models(carriers@) =~= models(before).push(u@));
        }
        i += 1;
    }
    assert(all.take(all.len() as int) == all);
    let ranked = stable_sort(carriers);
    if ranked.len() > 0 {
        assert(models(ranked@)[0] == ranked@[0]@);
        Some(ranked[0].character_id.clone())
    } else {
        None
    }
}

/// The comp of a board with the given traits and units.
pub open spec fn comp_of(traits: Seq<TraitModel>, units: Seq<UnitModel>) -> CompModel {
    CompModel {
        traits: identity_names(traits),
        primary: primary_trait(traits),
        carry: carry_of(units),
    }
}

/// The comp that a player's final board belongs to.
pub fn classify(p: &Participant) -> (r: CompKey)
    ensures
        r@ == comp_of(models(p.traits@), models(p.units@)),
{
    let (traits, primary) = identity_traits(p);
    CompKey { traits, primary, carry: find_carry(p) }
}

// ---------------------------------------------------------------- laws

/// The order in which a board lists its traits and units has no bearing on its comp.
pub proof fn lemma_comp_ignores_order(
    traits: Seq<TraitModel>,
    units: Seq<UnitModel>,
    other_traits: Seq<TraitModel>,
    other_units: Seq<UnitModel>,
)
    requires
        traits.to_multiset() == other_traits.to_multiset(),
        units.to_multiset() == other_units.to_multiset(),
    ensures
        comp_of(traits, units) == comp_of(other_traits, other_units),
{
    let p = |t: TraitModel| marks_comp(t);
    lemma_filter_multiset(traits, p);
    lemma_filter_multiset(other_traits, p);
    let a = ranked_traits(traits);
    let b = ranked_traits(other_traits);
    lemma_sorted_determined::<Trait>(traits.filter(p), other_traits.filter(p));
    assert forall|i: int| 0 <= i < a.len() implies (#[trigger] a[i]).name == b[i].name by {
        lemma_lex_total(a[i].name, b[i].name);
    }
    assert(leading_names(a, 2) =~= leading_names(b, 2));

    let q = |u: UnitModel| may_carry(u);
    lemma_filter_multiset(units, q);
    lemma_filter_multiset(other_units, q);
    let c = sorted::<Unit>(units.filter(q));
    let d = sorted::<Unit>(other_units.filter(q));
    lemma_sorted_determined::<Unit>(units.filter(q), other_units.filter(q));
    if c.len() > 0 {
        lemma_lex_total(c[0].character_id, d[0].character_id);
    }
}

/// Which of two traits leads has no bearing on the names that a comp is known by.
pub proof fn lemma_two_names_normalised(a: Seq<char>, b: Seq<char>)
    ensures
        sorted::<String>(seq![a, b]) == sorted::<String>(seq![b, a]),
{
    broadcast use vstd::seq_lib::group_to_multiset_ensures;

    let e = Seq::<Seq<char>>::empty();
    assert(seq![a, b] == e.push(a).push(b));
    assert(seq![b, a] == e.push(b).push(a));
    assert(seq![a, b].to_multiset() =~= seq![b, a].to_multiset());
    lemma_sorted_determined::<String>(seq![a, b], seq![b, a]);
    let x = sorted::<String>(seq![a, b]);
    let y = sorted::<String>(seq![b, a]);
    assert forall|i: int| 0 <= i < x.len() implies x[i] == y[i] by {
        lemma_lex_total(x[i], y[i]);
    }
    assert(x =~= y);
}

/// A comp is known by two names at most, and they stand in the order of strings.
pub proof fn lemma_comp_names(traits: Seq<TraitModel>, units: Seq<UnitModel>)
    ensures
        comp_of(traits, units).traits.len() <= 2,
        in_order::<String>(comp_of(traits, units).traits),
{
    let names = leading_names(ranked_traits(traits), 2);
    lemma_sorted_permutes::<String>(names);
    lemma_sorted_in_order::<String>(names);
}

/// Rarities 0 to 3 cost one more than themselves, 4 costs 4, and 5 and 6 cost 5; what is no
/// rarity costs one more than itself.
pub proof fn lemma_cost_table(rarity: int)
    ensures
        0 <= rarity <= 3 ==> cost_of(rarity) == rarity + 1,
        rarity == 4 ==> cost_of(rarity) == 4,
        5 <= rarity <= 6 ==> cost_of(rarity) == 5,
        rarity < 0 || rarity > 6 ==> cost_of(rarity) == rarity + 1,
{
}

/// What stands before the first underscore of an id is left off, with the underscore; an id
/// without one stays as it is.
pub proof fn lemma_pretty(front: Seq<char>, back: Seq<char>)
    requires
        !front.contains('_'),
    ensures
        pretty(front + seq!['_'] + back) == back,
        pretty(front) == front,
{
    let id = front + seq!['_'] + back;
    let n = front.len() as int;
    crate::text::lemma_first_index(id, '_');
    crate::text::lemma_first_index(front, '_');
    let k = first_index(id, '_') as int;
    assert(id[n] == '_');
    if k < n {
        assert(id[k] == front[k]);
        assert(front.contains(front[k]));
    }
    assert(k == n);
    assert(id.skip(n + 1) =~= back);
    if first_index(front, '_') < n {
        assert(front.contains(front[first_index(front, '_') as int]));
    }
}

/// A comp is told by its traits and, where it has one, its carry; its label is its primary trait.
pub proof fn lemma_told(c: CompModel)
    ensures
        c.primary matches Some(t) ==> c.trait_label() == "trait:"@ + t,
        c.primary is None ==> c.trait_label().len() == 0,
        c.traits.len() == 0 && c.carry is None ==> c.text() == "(특성없음)"@,
        c.traits.len() == 1 && c.carry is None ==> c.text() == c.traits[0],
        c.traits.len() == 2 && c.carry is None ==> c.text() == c.traits[0] + " + "@ + c.traits[1],
        c.carry matches Some(x) ==> c.text() == (CompModel { carry: None, ..c }).text()
            + " | 캐리: "@ + pretty(x),
{
    reveal_with_fuel(joined, 3);
    if c.traits.len() == 2 {
        assert(c.traits.drop_last().len() == 1);
    }
}

/// The primary trait is active and has two tiers or more, and no other such trait has a higher
/// tier, nor the same tier and more units, nor the same of both and a name that comes first.
/// There is one exactly where there is such a trait.
pub proof fn lemma_primary_leads(traits: Seq<TraitModel>, units: Seq<UnitModel>)
    ensures
        comp_of(traits, units).primary is Some <==> exists|i: int|
            0 <= i < traits.len() && (#[trigger] traits[i]).tier_current > 0 && traits[i].tier_total
                >= 2,
        comp_of(traits, units).primary matches Some(name) ==> exists|i: int|
            #![trigger traits[i]]
            0 <= i < traits.len() && traits[i].name == name && traits[i].tier_current > 0
                && traits[i].tier_total >= 2 && forall|j: int|
                #![trigger traits[j]]
                0 <= j < traits.len() && traits[j].tier_current > 0 && traits[j].tier_total >= 2
                    ==> {
                    &&& traits[j].tier_current <= traits[i].tier_current
                    &&& traits[j].tier_current == traits[i].tier_current ==> traits[j].num_units
                        <= traits[i].num_units
                    &&& traits[j].tier_current == traits[i].tier_current && traits[j].num_units
                        == traits[i].num_units ==> !lex_lt(traits[j].name, traits[i].name)
                },
{
    broadcast use vstd::seq_lib::group_to_multiset_ensures;

    let p = |t: TraitModel| marks_comp(t);
    let f = traits.filter(p);
    let ranked = ranked_traits(traits);
    lemma_filter_elements(traits, p);
    lemma_sorted_permutes::<Trait>(f);
    lemma_sorted_in_order::<Trait>(f);
    assert forall|i: int|
        0 <= i < traits.len() && (#[trigger] traits[i]).tier_current > 0 && traits[i].tier_total
            >= 2 implies exists|k: int| 0 <= k < ranked.len() && ranked[k] == traits[i] by {
        assert(traits.contains(traits[i]) && p(traits[i]));
        assert(f.contains(traits[i]));
        assert(f.to_multiset().count(traits[i]) > 0);
        assert(ranked.contains(traits[i]));
    }
    if ranked.len() > 0 {
        let a = ranked[0];
        assert(ranked.contains(a));
        assert(ranked.to_multiset().count(a) > 0);
        assert(f.contains(a));
        let m = choose|m: int| 0 <= m < f.len() && f[m] == a;
        assert(p(f[m]) && traits.contains(f[m]));
        let i = choose|i: int| 0 <= i < traits.len() && traits[i] == a;
        assert forall|j: int|
            #![trigger traits[j]]
            0 <= j < traits.len() && traits[j].tier_current > 0 && traits[j].tier_total >= 2 implies ({
            &&& traits[j].tier_current <= traits[i].tier_current
            &&& traits[j].tier_current == traits[i].tier_current ==> traits[j].num_units
                <= traits[i].num_units
            &&& traits[j].tier_current == traits[i].tier_current && traits[j].num_units
                == traits[i].num_units ==> !lex_lt(traits[j].name, traits[i].name)
        }) by {
            let k = choose|k: int| 0 <= k < ranked.len() && ranked[k] == traits[j];
            if k > 0 {
                assert(!<Trait as Ordered>::before(ranked[k], ranked[0]));
            } else {
                lemma_not_before_itself(a.name);
            }
        }
        let _ = traits[i];
    }
}

proof fn lemma_not_before_itself(s: Seq<char>)
    ensures
        !lex_lt(s, s),
    decreases s.len(),
{
    if s.len() > 0 {
        lemma_not_before_itself(s.drop_first());
    }
}

/// A comp is known by the names of its two leading traits, or of the one that it has: they are
/// active with two tiers or more, and no such trait whose name is left out has a higher tier than
/// the lesser of them, nor the same and more units, nor the same of both and a name that comes
/// first.
pub proof fn lemma_two_leading_traits(traits: Seq<TraitModel>, units: Seq<UnitModel>)
    ensures
        ({
            let names = comp_of(traits, units).traits;
            let f = traits.filter(|t: TraitModel| t.tier_current > 0 && t.tier_total >= 2);
            &&& f.len() == 0 ==> names.len() == 0
            &&& f.len() == 1 ==> names == seq![pretty(f[0].name)]
            &&& f.len() >= 2 ==> names.len() == 2 && exists|a: TraitModel, b: TraitModel|
                #![trigger f.contains(a), f.contains(b)]
                f.contains(a) && f.contains(b) && b.tier_current <= a.tier_current && (
                b.tier_current == a.tier_current ==> b.num_units <= a.num_units) && (names == seq![
                    pretty(a.name),
                    pretty(b.name),
                ] || names == seq![pretty(b.name), pretty(a.name)]) && forall|t: TraitModel|
                    #![trigger f.contains(t)]
                    f.contains(t) && !names.contains(pretty(t.name)) ==> {
                        &&& t.tier_current <= b.tier_current
                        &&& t.tier_current == b.tier_current ==> t.num_units <= b.num_units
                        &&& t.tier_current == b.tier_current && t.num_units == b.num_units
                            ==> !lex_lt(t.name, b.name)
                    }
        }),
{
    broadcast use vstd::seq_lib::group_to_multiset_ensures;

    let names = comp_of(traits, units).traits;
    let q = |t: TraitModel| t.tier_current > 0 && t.tier_total >= 2;
    let p = |t: TraitModel| marks_comp(t);
    crate::seqs::lemma_filter_alike(traits, p, q);
    let f = traits.filter(q);
    assert(f == traits.filter(p));
    let ranked = ranked_traits(traits);
    lemma_sorted_permutes::<Trait>(f);
    lemma_sorted_in_order::<Trait>(f);
    let lead = leading_names(ranked, 2);
    lemma_sorted_permutes::<String>(lead);
    if f.len() == 1 {
        assert(f.to_multiset().count(f[0]) > 0) by {
            assert(f.contains(f[0]));
        }
        assert(ranked.contains(f[0]));
        assert(ranked[0] == f[0]);
        assert(lead =~= seq![pretty(f[0].name)]);
        assert(sorted::<String>(lead) =~= lead) by {
            let s = sorted::<String>(lead);
            assert(s.contains(s[0]));
            assert(s.to_multiset().count(s[0]) > 0);
            assert(lead.contains(s[0]));
        }
    } else if f.len() >= 2 {
        let (a, b) = (ranked[0], ranked[1]);
        assert(ranked.contains(a) && ranked.contains(b));
        assert(ranked.to_multiset().count(a) > 0 && ranked.to_multiset().count(b) > 0);
        assert(f.contains(a) && f.contains(b));
        assert(!<Trait as Ordered>::before(ranked[1], ranked[0]));
        let (x, y) = (pretty(a.name), pretty(b.name));
        assert(lead =~= seq![x, y]);
        lemma_two_sorted(x, y);
        assert forall|t: TraitModel|
            #![trigger f.contains(t)]
            f.contains(t) && !names.contains(pretty(t.name)) implies ({
            &&& t.tier_current <= b.tier_current
            &&& t.tier_current == b.tier_current ==> t.num_units <= b.num_units
            &&& t.tier_current == b.tier_current && t.num_units == b.num_units ==> !lex_lt(
                t.name,
                b.name,
            )
        }) by {
            assert(f.to_multiset().count(t) > 0);
            assert(ranked.contains(t));
            let k = choose|k: int| 0 <= k < ranked.len() && ranked[k] == t;
            assert(names[0] == x || names[0] == y);
            if names == seq![x, y] {
                assert(names[0] == x && names[1] == y);
            } else {
                assert(names[0] == y && names[1] == x);
            }
            assert(names.contains(x) && names.contains(y));
            assert(k != 0 && k != 1);
            assert(!<Trait as Ordered>::before(ranked[k], ranked[0]));
            assert(!<Trait as Ordered>::before(ranked[k], ranked[1]));
        }
    }
}

proof fn lemma_two_sorted(x: Seq<char>, y: Seq<char>)
    ensures
        sorted::<String>(seq![x, y]) == seq![x, y] || sorted::<String>(seq![x, y]) == seq![y, x],
{
    reveal_with_fuel(sorted, 3);
    reveal_with_fuel(crate::order::place, 3);
    let s = seq![x, y];
    assert(s.drop_last() =~= seq![x]);
    assert(seq![x].drop_last() =~= Seq::<Seq<char>>::empty());
    assert(Seq::<Seq<char>>::empty().insert(0, x) =~= seq![x]);
    assert(seq![x].insert(0, y) =~= seq![y, x]);
    assert(seq![x].insert(1, y) =~= seq![x, y]);
    assert(seq![x].drop_first() =~= Seq::<Seq<char>>::empty());
}

/// The carry has two items or more, and no other such unit has more items, nor as many and a
/// higher cost, nor as many at the same cost and an id that comes first. There is one exactly
/// where there is such a unit.
pub proof fn lemma_carry_leads(traits: Seq<TraitModel>, units: Seq<UnitModel>)
    ensures
        comp_of(traits, units).carry is Some <==> exists|i: int|
            0 <= i < units.len() && (#[trigger] units[i]).item_names.len() >= 2,
        comp_of(traits, units).carry matches Some(id) ==> exists|i: int|
            #![trigger units[i]]
            0 <= i < units.len() && units[i].character_id == id && units[i].item_names.len() >= 2
                && forall|j: int|
                #![trigger units[j]]
                0 <= j < units.len() && units[j].item_names.len() >= 2 ==> {
                    let more = units[j].item_names.len();
                    let x = cost_of(units[i].rarity as int);
                    let y = cost_of(units[j].rarity as int);
                    &&& more <= units[i].item_names.len()
                    &&& more == units[i].item_names.len() ==> y <= x
                    &&& more == units[i].item_names.len() && y == x ==> !lex_lt(
                        units[j].character_id,
                        units[i].character_id,
                    )
                },
{
    broadcast use vstd::seq_lib::group_to_multiset_ensures;

    let p = |u: UnitModel| may_carry(u);
    let f = units.filter(p);
    let ranked = sorted::<Unit>(f);
    lemma_filter_elements(units, p);
    lemma_sorted_permutes::<Unit>(f);
    lemma_sorted_in_order::<Unit>(f);
    assert forall|i: int|
        0 <= i < units.len() && (#[trigger] units[i]).item_names.len() >= 2 implies exists|k: int|
            0 <= k < ranked.len() && ranked[k] == units[i] by {
        assert(units.contains(units[i]) && p(units[i]));
        assert(f.contains(units[i]));
        assert(f.to_multiset().count(units[i]) > 0);
        assert(ranked.contains(units[i]));
    }
    if ranked.len() > 0 {
        let a = ranked[0];
        assert(ranked.contains(a));
        assert(ranked.to_multiset().count(a) > 0);
        assert(f.contains(a));
        let m = choose|m: int| 0 <= m < f.len() && f[m] == a;
        assert(p(f[m]) && units.contains(f[m]));
        let i = choose|i: int| 0 <= i < units.len() && units[i] == a;
        assert forall|j: int|
            #![trigger units[j]]
            0 <= j < units.len() && units[j].item_names.len() >= 2 implies ({
            let more = units[j].item_names.len();
            let x = cost_of(units[i].rarity as int);
            let y = cost_of(units[j].rarity as int);
            &&& more <= units[i].item_names.len()
            &&& more == units[i].item_names.len() ==> y <= x
            &&& more == units[i].item_names.len() && y == x ==> !lex_lt(
                units[j].character_id,
                units[i].character_id,
            )
        }) by {
            let k = choose|k: int| 0 <= k < ranked.len() && ranked[k] == units[j];
            if k > 0 {
                assert(!<Unit as Ordered>::before(ranked[k], ranked[0]));
            } else {
                lemma_not_before_itself(a.character_id);
            }
        }
        let _ = units[i];
    }
}

/// A composition is what its fields say.
pub proof fn lemma_comp_as_stored(c: CompKey, s: String)
    ensures
        c@.traits == views(c.traits@),
        c@.primary is Some <==> c.primary is Some,
        c.primary is Some ==> c@.primary->0 == c.primary->0@,
        c@.carry is Some <==> c.carry is Some,
        c.carry is Some ==> c@.carry->0 == c.carry->0@,
        opt_view(Some(s)) == Some(s@),
        opt_view(None) is None,
{
}

}
