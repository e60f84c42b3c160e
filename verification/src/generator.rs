//! Puzzles about augments: which of four did best?

use crate::db::{AugModel, AugStat};
use crate::draw::{choose_some, drawn, lemma_drawn, shuffled};
use crate::meta::{map_model, name_or_id, unit_cost_or, unit_name_or_id, Meta};
use crate::order::models;
use crate::puzzle::{
    BoardContext, ContextModel, NamedModel, NamedRef, OptionItem, OptionModel, OptionStat,
    OptionStatModel, Prompt, PromptModel, Stats, StatsModel, TraitView, TraitViewModel, UnitView,
    UnitViewModel,
};
use crate::riot::dto::{Match, Participant, TraitModel, UnitModel};
use crate::seqs::{index_of_least, least_at, lemma_filter_elements, lemma_filter_step};
use crate::text::{has, str_eq, views};
use vstd::prelude::*;

verus! {

/// Puzzles that one run makes.
pub const MAX_PUZZLES: usize = 60;

/// Augments that were picked less often are left out.
pub const MIN_PICKS: i64 = 3;

/// Only boards that placed this well become puzzles.
pub const MAX_PLACEMENT_FOR_SOURCE: i32 = 4;

/// Options that are no real pick.
pub const DISTRACTORS: usize = 3;

// ---------------------------------------------------------------- the board

/// What is shown of a trait.
pub open spec fn trait_shown(t: TraitModel) -> TraitViewModel {
    TraitViewModel { id: t.name, name: t.name, tier_current: t.tier_current }
}

/// What is shown of the traits of a board: the active ones.
pub open spec fn traits_shown(s: Seq<TraitModel>) -> Seq<TraitViewModel> {
    let f = s.filter(|t: TraitModel| t.tier_current > 0);
    Seq::new(f.len(), |i: int| trait_shown(f[i]))
}

/// What is shown of the items of a unit.
pub open spec fn items_shown(s: Seq<Seq<char>>, meta: Meta) -> Seq<NamedModel> {
    Seq::new(
        s.len(),
        |i: int| NamedModel { id: s[i], name: name_or_id(map_model(meta.items@), s[i]) },
    )
}

/// What is shown of a unit.
pub open spec fn unit_shown(u: UnitModel, meta: Meta) -> UnitViewModel {
    UnitViewModel {
        id: u.character_id,
        name: unit_name_or_id(map_model(meta.units@), u.character_id),
        cost: unit_cost_or(map_model(meta.units@), u.character_id, (u.rarity + 1) as i32),
        star: u.tier,
        items: items_shown(u.item_names, meta),
    }
}

/// What is shown of a board.
pub open spec fn context_of(p: Participant, meta: Meta) -> ContextModel {
    ContextModel {
        level: p.level,
        last_round: p.last_round,
        placement: p.placement,
        traits: traits_shown(models(p.traits@)),
        units: Seq::new(p.units@.len(), |i: int| unit_shown(p.units@[i]@, meta)),
        prior_augments: Seq::empty(),
    }
}

/// The rarities of a board leave room for one more.
pub open spec fn rarities_fit(p: Participant) -> bool {
    forall|i: int| 0 <= i < p.units@.len() ==> (#[trigger] p.units@[i]).rarity < i32::MAX
}

fn show_items(items: &Vec<String>, meta: &Meta) -> (r: Vec<NamedRef>)
    ensures
        models(r@) == items_shown(views(items@), *meta),
{
    let mut out: Vec<NamedRef> = Vec::new();
    let mut i: usize = 0;
    while i < items.len()
        invariant
            i <= items@.len(),
            models(out@) == items_shown(views(items@), *meta).take(i as int),
        decreases items@.len() - i,
    {
        let ghost before = out@;
        out.push(NamedRef { id: items[i].clone(), name: meta.item_name(items[i].as_str()) });
        proof {
            let all = items_shown(views(items@), *meta);
            assert(models(out@) =~= models(before).push(all[i as int]));
            assert(all.take(i + 1) =~= all.take(i as int).push(all[i as int]));
        }
        i += 1;
    }
    proof {
        let all = items_shown(views(items@), *meta);
        assert(all.take(all.len() as int) == all);
    }
    out
}

/// What is shown of a board: its active traits and its units, by the names that people know.
pub fn build_context(p: &Participant, meta: &Meta) -> (r: BoardContext)
    requires
        rarities_fit(*p),
    ensures
        r@ == context_of(*p, *meta),
{
    let ghost ts = models(p.traits@);
    let ghost active = |t: TraitModel| t.tier_current > 0;
    let mut traits: Vec<TraitView> = Vec::new();
    let mut i: usize = 0;
    proof {
        reveal(Seq::filter);
        assert(traits_shown(ts.take(0)) =~= Seq::empty());
    }
    while i < p.traits.len()
        invariant
            i <= p.traits@.len(),
            ts == models(p.traits@),
            active == (|t: TraitModel| t.tier_current > 0),
            models(traits@) == traits_shown(ts.take(i as int)),
        decreases p.traits@.len() - i,
    {
        let t = &p.traits[i];
        let ghost before = traits@;
        proof {
            lemma_filter_step(ts, i as int, active);
            assert(ts[i as int] == t@);
        }
        if t.tier_current > 0 {
            traits.push(
                TraitView {
                    id: t.name.clone(),
                    name: t.name.clone(),
                    tier_current: t.tier_current,
                },
            );
            proof {
                let f = ts.take(i as int).filter(active);
                assert(traits_shown(ts.take(i + 1)) =~= traits_shown(ts.take(i as int)).push(
                    trait_shown(t@),
                ));
                assert(models(traits@) =~= models(before).push(trait_shown(t@)));
            }
        }
        i += 1;
    }
    assert(ts.take(ts.len() as int) == ts);

    let mut units: Vec<UnitView> = Vec::new();
    let mut j: usize = 0;
    while j < p.units.len()
        invariant
            j <= p.units@.len(),
            rarities_fit(*p),
            units@.len() == j,
            forall|k: int| 0 <= k < j ==> (#[trigger] units@[k])@ == unit_shown(p.units@[k]@, *meta),
        decreases p.units@.len() - j,
    {
        let u = &p.units[j];
        units.push(
            UnitView {
                id: u.character_id.clone(),
                name: meta.unit_name(u.character_id.as_str()),
                cost: meta.unit_cost(u.character_id.as_str(), u.rarity + 1),
                star: u.tier,
                items: show_items(&u.item_names, meta),
            },
        );
        j += 1;
    }
    let prior_augments: Vec<NamedRef> = Vec::new();
    proof {
        assert(models(units@) =~= context_of(*p, *meta).units);
        assert(models(prior_augments@) =~= Seq::empty());
    }
    BoardContext {
        level: p.level,
        last_round: p.last_round,
        placement: p.placement,
        traits,
        units,
        prior_augments,
    }
}

// ---------------------------------------------------------------- the options

/// What is known of the augment `id`. Of two entries the last counts.
pub open spec fn stat_of(stats: Seq<AugModel>, id: Seq<char>) -> Option<AugModel>
    decreases stats.len(),
{
    if stats.len() == 0 {
        None
    } else if stats.last().id == id {
        Some(stats.last())
    } else {
        stat_of(stats.drop_last(), id)
    }
}

/// The first augment of a player of which something is known.
pub open spec fn actual_of(augments: Seq<Seq<char>>, stats: Seq<AugModel>) -> Option<Seq<char>>
    decreases augments.len(),
{
    if augments.len() == 0 {
        None
    } else if stat_of(stats, augments[0]) is Some {
        Some(augments[0])
    } else {
        actual_of(augments.drop_first(), stats)
    }
}

/// The ids of the known augments.
pub open spec fn known_ids(stats: Seq<AugModel>) -> Seq<Seq<char>> {
    Seq::new(stats.len(), |i: int| stats[i].id)
}

/// The known augments that the player did not pick.
pub open spec fn others(stats: Seq<AugModel>, augments: Seq<Seq<char>>) -> Seq<Seq<char>> {
    known_ids(stats).filter(|id: Seq<char>| !augments.contains(id))
}

/// The board can become a puzzle: it placed well, the player's pick is known, and there are
/// enough other augments.
pub open spec fn is_source(p: Participant, stats: Seq<AugModel>) -> bool {
    &&& p.placement <= MAX_PLACEMENT_FOR_SOURCE
    &&& p.augments@.len() > 0
    &&& actual_of(views(p.augments@), stats) is Some
    &&& others(stats, views(p.augments@)).len() >= DISTRACTORS
}

/// `ids` are options for the board: the player's pick and three other augments, in some
/// order.
pub open spec fn options_for(ids: Seq<Seq<char>>, p: Participant, stats: Seq<AugModel>) -> bool {
    exists|d: Seq<Seq<char>>| #[trigger] options_with(ids, d, p, stats)
}

/// `ids` are the player's pick and `d`, in some order, and `d` are three other augments.
pub open spec fn options_with(
    ids: Seq<Seq<char>>,
    d: Seq<Seq<char>>,
    p: Participant,
    stats: Seq<AugModel>,
) -> bool {
    let actual = actual_of(views(p.augments@), stats);
    &&& d.len() == DISTRACTORS
    &&& drawn(d, others(stats, views(p.augments@)))
    &&& actual is Some
    &&& ids.to_multiset() == (seq![actual->0] + d).to_multiset()
}

fn find_stat<'a>(stats: &'a Vec<AugStat>, id: &str) -> (r: Option<&'a AugStat>)
    ensures
        match r {
            Some(x) => stat_of(models(stats@), id@) == Some(x@),
            None => stat_of(models(stats@), id@) is None,
        },
{
    let ghost all = models(stats@);
    let mut i: usize = stats.len();
    assert(all.take(all.len() as int) == all);
    while i > 0
        invariant
            i <= stats@.len(),
            all == models(stats@),
            stat_of(all, id@) == stat_of(all.take(i as int), id@),
        decreases i,
    {
        i -= 1;
        proof {
            assert(all.take(i + 1).last() == stats@[i as int]@);
            assert(all.take(i + 1).drop_last() == all.take(i as int));
        }
        if str_eq(stats[i].id.as_str(), id) {
            return Some(&stats[i]);
        }
    }
    None
}

/// The first augment of a player of which something is known.
pub fn actual_pick(augments: &Vec<String>, stats: &Vec<AugStat>) -> (r: Option<String>)
    ensures
        match r {
            Some(a) => actual_of(views(augments@), models(stats@)) == Some(a@),
            None => actual_of(views(augments@), models(stats@)) is None,
        },
{
    let ghost all = views(augments@);
    let mut i: usize = 0;
    assert(all.skip(0) == all);
    while i < augments.len()
        invariant
            i <= augments@.len(),
            all == views(augments@),
            actual_of(all, models(stats@)) == actual_of(all.skip(i as int), models(stats@)),
        decreases augments@.len() - i,
    {
        assert(all.skip(i as int)[0] == augments@[i as int]@);
        assert(all.skip(i as int).drop_first() == all.skip(i + 1));
        if find_stat(stats, augments[i].as_str()).is_some() {
            return Some(augments[i].clone());
        }
        i += 1;
    }
    None
}

/// The known augments that the player did not pick.
pub fn distractor_pool(stats: &Vec<AugStat>, augments: &Vec<String>) -> (r: Vec<String>)
    ensures
        views(r@) == others(models(stats@), views(augments@)),
{
    let ghost ids = known_ids(models(stats@));
    let ghost keep = |id: Seq<char>| !views(augments@).contains(id);
    let mut out: Vec<String> = Vec::new();
    let mut i: usize = 0;
    proof {
        reveal(Seq::filter);
        assert(views(out@) =~= ids.take(0).filter(keep));
    }
    while i < stats.len()
        invariant
            i <= stats@.len(),
            ids == known_ids(models(stats@)),
            keep == (|id: Seq<char>| !views(augments@).contains(id)),
            views(out@) == ids.take(i as int).filter(keep),
        decreases stats@.len() - i,
    {
        let ghost before = out@;
        proof {
            lemma_filter_step(ids, i as int, keep);
            assert(ids[i as int] == stats@[i as int].id@);
        }
        let picked = has(augments, stats[i].id.as_str());
        if !picked {
            out.push(stats[i].id.clone());
            assert(views(out@) =~= views(before).push(ids[i as int]));
        }
        i += 1;
    }
    assert(ids.take(ids.len() as int) == ids);
    out
}

// ---------------------------------------------------------------- the puzzle

/// A puzzle about the augments of a board.
#[derive(Debug)]
pub struct AugmentPuzzle {
    pub prompt: Prompt,
    pub options: Vec<OptionItem>,
    /// The id of the best option.
    pub answer: String,
    pub stats: Stats,
}

pub struct AugmentPuzzleModel {
    pub prompt: PromptModel,
    pub options: Seq<OptionModel>,
    pub answer: Seq<char>,
    pub stats: StatsModel,
}

impl View for AugmentPuzzle {
    type V = AugmentPuzzleModel;

    open spec fn view(&self) -> AugmentPuzzleModel {
        AugmentPuzzleModel {
            prompt: self.prompt@,
            options: models(self.options@),
            answer: self.answer@,
            stats: self.stats@,
        }
    }
}

/// The ranks of the options.
pub open spec fn ranks(ids: Seq<Seq<char>>, stats: Seq<AugModel>) -> Seq<i64> {
    Seq::new(ids.len(), |i: int| stat_of(stats, ids[i])->0.rank)
}

/// The puzzle with the given options about the given board. The answer is the option with
/// the best mean placement; of several the first.
pub open spec fn puzzle_of(
    p: Participant,
    match_id: Seq<char>,
    ids: Seq<Seq<char>>,
    actual: Seq<char>,
    stats: Seq<AugModel>,
    meta: Meta,
) -> AugmentPuzzleModel {
    AugmentPuzzleModel {
        prompt: PromptModel {
            question: "이 챌린저 보드에서 어떤 오그먼트가 평균 등수가 가장 좋았을까?"@,
            context: context_of(p, meta),
        },
        options: Seq::new(
            ids.len(),
            |i: int|
                OptionModel {
                    id: ids[i],
                    name: name_or_id(map_model(meta.augments@), ids[i]),
                    icon: seq![],
                },
        ),
        answer: ids[least_at(ranks(ids, stats))],
        stats: StatsModel {
            options: Seq::new(
                ids.len(),
                |i: int|
                    OptionStatModel {
                        id: ids[i],
                        avg_placement: stat_of(stats, ids[i])->0.avg_placement,
                        sample_size: stat_of(stats, ids[i])->0.picks,
                        was_actual_pick: ids[i] == actual,
                    },
            ),
            source_match_id: match_id,
        },
    }
}

/// The puzzle with the given options about the given board.
pub fn augment_puzzle(
    p: &Participant,
    match_id: &str,
    option_ids: &Vec<String>,
    actual: &str,
    stats: &Vec<AugStat>,
    meta: &Meta,
) -> (r: AugmentPuzzle)
    requires
        rarities_fit(*p),
        option_ids@.len() > 0,
        forall|i: int|
            0 <= i < option_ids@.len() ==> stat_of(
                models(stats@),
                (#[trigger] views(option_ids@)[i]),
            ) is Some,
    ensures
        r@ == puzzle_of(*p, match_id@, views(option_ids@), actual@, models(stats@), *meta),
{
    let ghost ids = views(option_ids@);
    let ghost known = models(stats@);
    let ghost goal = puzzle_of(*p, match_id@, ids, actual@, known, *meta);
    let mut options: Vec<OptionItem> = Vec::new();
    let mut option_stats: Vec<OptionStat> = Vec::new();
    let mut scores: Vec<i64> = Vec::new();
    let mut i: usize = 0;
    while i < option_ids.len()
        invariant
            i <= option_ids@.len(),
            ids == views(option_ids@),
            known == models(stats@),
            goal == puzzle_of(*p, match_id@, ids, actual@, known, *meta),
            forall|k: int| 0 <= k < ids.len() ==> stat_of(known, (#[trigger] ids[k])) is Some,
            options@.len() == i,
            option_stats@.len() == i,
            scores@.len() == i,
            forall|k: int| 0 <= k < i ==> (#[trigger] options@[k])@ == goal.options[k],
            forall|k: int| 0 <= k < i ==> (#[trigger] option_stats@[k])@ == goal.stats.options[k],
            forall|k: int| 0 <= k < i ==> (#[trigger] scores@[k]) == ranks(ids, known)[k],
        decreases option_ids@.len() - i,
    {
        let id = &option_ids[i];
        assert(ids[i as int] == id@);
        options.push(
            OptionItem {
                id: id.clone(),
                name: meta.augment_name(id.as_str()),
                icon: String::new(),
            },
        );
        match find_stat(stats, id.as_str()) {
            Some(s) => {
                option_stats.push(
                    OptionStat {
                        id: id.clone(),
                        avg_placement: s.avg_placement,
                        sample_size: s.picks,
                        was_actual_pick: str_eq(id.as_str(), actual),
                    },
                );
                scores.push(s.rank);
            },
            None => {},
        }
        i += 1;
    }
    assert(scores@ =~= ranks(ids, known));
    let best = index_of_least(&scores);
    assert(ids[best as int] == option_ids@[best as int]@);
    let r = AugmentPuzzle {
        prompt: Prompt {
            question: "이 챌린저 보드에서 어떤 오그먼트가 평균 등수가 가장 좋았을까?".to_string(),
            context: build_context(p, meta),
        },
        options,
        answer: option_ids[best].clone(),
        stats: Stats { options: option_stats, source_match_id: match_id.to_string() },
    };
    assert(r@.options =~= goal.options);
    assert(r@.stats.options =~= goal.stats.options);
    r
}

proof fn lemma_known(stats: Seq<AugModel>, id: Seq<char>)
    requires
        known_ids(stats).contains(id),
    ensures
        stat_of(stats, id) is Some,
    decreases stats.len(),
{
    let i = choose|i: int| 0 <= i < stats.len() && known_ids(stats)[i] == id;
    if stats.last().id != id {
        assert(known_ids(stats.drop_last())[i] == id);
        lemma_known(stats.drop_last(), id);
    }
}

proof fn lemma_actual(augments: Seq<Seq<char>>, stats: Seq<AugModel>)
    requires
        actual_of(augments, stats) is Some,
    ensures
        stat_of(stats, actual_of(augments, stats)->0) is Some,
        augments.contains(actual_of(augments, stats)->0),
    decreases augments.len(),
{
    if stat_of(stats, augments[0]) is Some {
        assert(augments.contains(augments[0]));
    } else {
        let rest = augments.drop_first();
        lemma_actual(rest, stats);
        let a = actual_of(augments, stats)->0;
        let k = choose|k: int| 0 <= k < rest.len() && rest[k] == a;
        assert(augments[k + 1] == a);
    }
}

/// Every option of a board is either the player's pick or one that the player did not pick,
/// and something is known of each.
pub proof fn lemma_options(ids: Seq<Seq<char>>, p: Participant, stats: Seq<AugModel>)
    requires
        options_for(ids, p, stats),
    ensures
        ids.len() == DISTRACTORS + 1,
        ids.contains(actual_of(views(p.augments@), stats)->0),
        forall|i: int|
            #![trigger ids[i]]
            0 <= i < ids.len() ==> stat_of(stats, ids[i]) is Some && (ids[i] == actual_of(
                views(p.augments@),
                stats,
            )->0 || !views(p.augments@).contains(ids[i])),
        known_ids(stats).no_duplicates() ==> ids.no_duplicates(),
{
    broadcast use vstd::seq_lib::group_to_multiset_ensures;

    let augments = views(p.augments@);
    let d = choose|d: Seq<Seq<char>>| #[trigger] options_with(ids, d, p, stats);
    let actual = actual_of(augments, stats)->0;
    let all = seq![actual] + d;
    let keep = |id: Seq<char>| !augments.contains(id);
    lemma_actual(augments, stats);
    lemma_drawn(d, others(stats, augments));
    lemma_filter_elements(known_ids(stats), keep);
    assert(ids.len() == ids.to_multiset().len());
    assert(all.len() == all.to_multiset().len());
    assert(all[0] == actual);
    assert(all.contains(actual));
    assert(ids.to_multiset().count(actual) > 0);
    assert forall|i: int|
        #![trigger ids[i]]
        0 <= i < ids.len() implies stat_of(stats, ids[i]) is Some && (ids[i] == actual
        || !augments.contains(ids[i])) by {
        assert(ids.contains(ids[i]));
        assert(all.to_multiset().count(ids[i]) > 0);
        assert(all.contains(ids[i]));
        let k = choose|k: int| 0 <= k < all.len() && all[k] == ids[i];
        if k > 0 {
            assert(d[k - 1] == ids[i]);
            let pool = others(stats, augments);
            assert(pool.contains(d[k - 1]));
            let m = choose|m: int| 0 <= m < pool.len() && pool[m] == d[k - 1];
            assert(keep(pool[m]) && known_ids(stats).contains(pool[m]));
            lemma_known(stats, ids[i]);
        }
    }
    if known_ids(stats).no_duplicates() {
        crate::seqs::lemma_filter_distinct(known_ids(stats), keep);
        assert(d.no_duplicates());
        assert(all.no_duplicates()) by {
            assert forall|i: int, j: int| 0 <= i < j < all.len() implies all[i] != all[j] by {
                assert(all[j] == d[j - 1]);
                if i == 0 {
                    let pool = others(stats, augments);
                    assert(pool.contains(d[j - 1]));
                    let m = choose|m: int| 0 <= m < pool.len() && pool[m] == d[j - 1];
                    assert(keep(pool[m]));
                } else {
                    assert(all[i] == d[i - 1]);
                }
            }
        }
        all.lemma_multiset_has_no_duplicates();
        ids.lemma_multiset_has_no_duplicates_conv();
    }
}

/// `z` is a puzzle about the board `p`.
pub open spec fn asks_about(
    z: AugmentPuzzleModel,
    p: Participant,
    match_id: Seq<char>,
    stats: Seq<AugModel>,
    meta: Meta,
) -> bool {
    exists|ids: Seq<Seq<char>>| #[trigger]
        options_for(ids, p, stats) && z == puzzle_of(
            p,
            match_id,
            ids,
            actual_of(views(p.augments@), stats)->0,
            stats,
            meta,
        )
}

/// A puzzle about the board `p`, where it can become one. Which of the other augments are
/// offered, and in what order the options stand, is left to chance.
pub fn make_puzzle(
    p: &Participant,
    match_id: &str,
    stats: &Vec<AugStat>,
    meta: &Meta,
) -> (r: Option<AugmentPuzzle>)
    requires
        is_source(*p, models(stats@)) ==> rarities_fit(*p),
    ensures
        match r {
            Some(z) => is_source(*p, models(stats@)) && asks_about(
                z@,
                *p,
                match_id@,
                models(stats@),
                *meta,
            ),
            None => !is_source(*p, models(stats@)),
        },
{
    if p.placement > MAX_PLACEMENT_FOR_SOURCE || p.augments.len() == 0 {
        return None;
    }
    let actual = match actual_pick(&p.augments, stats) {
        Some(a) => a,
        None => {
            return None;
        },
    };
    let pool = distractor_pool(stats, &p.augments);
    assert(views(pool@).len() == pool@.len());
    let distractors = choose_some(&pool, DISTRACTORS);
    if distractors.len() < DISTRACTORS {
        return None;
    }
    let ghost d = views(distractors@);
    let mut option_ids: Vec<String> = vec![actual.clone()];
    let mut rest = distractors;
    option_ids.append(&mut rest);
    let ghost before = option_ids@;
    assert(views(before) =~= seq![actual@] + d);
    let option_ids = shuffled(option_ids);
    let ghost ids = views(option_ids@);
    proof {
        crate::text::lemma_views_multiset(option_ids@, before);
        assert(options_with(ids, d, *p, models(stats@)));
        assert(options_for(ids, *p, models(stats@)));
        lemma_options(ids, *p, models(stats@));
    }
    Some(augment_puzzle(p, match_id, &option_ids, actual.as_str(), stats, meta))
}



/// The first board of a match that can become a puzzle.
pub open spec fn source_in(ps: Seq<Participant>, stats: Seq<AugModel>) -> Option<int>
    decreases ps.len(),
{
    if ps.len() == 0 {
        None
    } else {
        match source_in(ps.drop_last(), stats) {
            Some(i) => Some(i),
            None => if is_source(ps.last(), stats) {
                Some(ps.len() - 1)
            } else {
                None
            },
        }
    }
}

/// The boards that become puzzles: the first that can of each match, by the place of the
/// match and the place on it.
pub open spec fn sources(matches: Seq<Match>, stats: Seq<AugModel>) -> Seq<(int, int)>
    decreases matches.len(),
{
    if matches.len() == 0 {
        Seq::empty()
    } else {
        let rest = sources(matches.drop_last(), stats);
        match source_in(matches.last().info.participants@, stats) {
            Some(i) => rest.push((matches.len() - 1, i)),
            None => rest,
        }
    }
}

/// Every board that can become a puzzle has rarities that leave room for one more.
pub open spec fn sources_fit(matches: Seq<Match>, stats: Seq<AugModel>) -> bool {
    forall|i: int, j: int|
        0 <= i < matches.len() && 0 <= j < matches[i].info.participants@.len() && is_source(
            matches[i].info.participants@[j],
            stats,
        ) ==> rarities_fit(#[trigger] matches[i].info.participants@[j])
}

/// `zs` are puzzles about the first boards of `at`.
pub open spec fn ask_about(
    zs: Seq<AugmentPuzzle>,
    at: Seq<(int, int)>,
    matches: Seq<Match>,
    stats: Seq<AugModel>,
    meta: Meta,
) -> bool {
    zs.len() <= at.len() && forall|k: int|
        0 <= k < zs.len() ==> asks_about(
            (#[trigger] zs[k])@,
            matches[at[k].0].info.participants@[at[k].1],
            matches[at[k].0].metadata.match_id@,
            stats,
            meta,
        )
}

proof fn lemma_source_in(ps: Seq<Participant>, stats: Seq<AugModel>, n: int)
    requires
        0 <= n < ps.len(),
        source_in(ps.take(n), stats) is None,
        is_source(ps[n], stats),
    ensures
        source_in(ps, stats) == Some(n),
    decreases ps.len(),
{
    if n == ps.len() - 1 {
        assert(ps.take(n) == ps.drop_last());
    } else {
        assert(ps.take(n) == ps.drop_last().take(n));
        lemma_source_in(ps.drop_last(), stats, n);
    }
}

proof fn lemma_sources_step(matches: Seq<Match>, stats: Seq<AugModel>, n: int)
    requires
        0 <= n <= matches.len(),
    ensures
        sources(matches.take(n), stats).len() <= sources(matches, stats).len(),
        forall|k: int|
            0 <= k < sources(matches.take(n), stats).len() ==> #[trigger] sources(
                matches.take(n),
                stats,
            )[k] == sources(matches, stats)[k],
    decreases matches.len(),
{
    if n == matches.len() {
        assert(matches.take(n) == matches);
    } else {
        assert(matches.take(n) == matches.drop_last().take(n));
        lemma_sources_step(matches.drop_last(), stats, n);
    }
}

/// Puzzles about the boards of all matches: one for each match that has a board for it, up
/// to the number that one run makes; none where too few augments are known.
pub fn generate(matches: &Vec<Match>, stats: &Vec<AugStat>, meta: &Meta) -> (r: Vec<AugmentPuzzle>)
    requires
        sources_fit(matches@, models(stats@)),
    ensures
        stats@.len() < DISTRACTORS + 1 ==> r@.len() == 0,
        stats@.len() >= DISTRACTORS + 1 ==> r@.len() == if sources(
            matches@,
            models(stats@),
        ).len() < MAX_PUZZLES {
            sources(matches@, models(stats@)).len()
        } else {
            MAX_PUZZLES as nat
        },
        ask_about(r@, sources(matches@, models(stats@)), matches@, models(stats@), *meta),
{
    let mut out: Vec<AugmentPuzzle> = Vec::new();
    if stats.len() < DISTRACTORS + 1 {
        return out;
    }
    let ghost known = models(stats@);
    let ghost all = sources(matches@, known);
    let mut i: usize = 0;
    while i < matches.len() && out.len() < MAX_PUZZLES
        invariant
            i <= matches@.len(),
            known == models(stats@),
            all == sources(matches@, known),
            sources_fit(matches@, known),
            out@.len() <= MAX_PUZZLES,
            out@.len() == sources(matches@.take(i as int), known).len(),
            ask_about(out@, all, matches@, known, *meta),
        decreases matches@.len() - i,
    {
        let m = &matches[i];
        let ps = &m.info.participants;
        let ghost made = out@;
        proof {
            lemma_sources_step(matches@, known, i + 1);
            assert(matches@.take(i + 1).drop_last() == matches@.take(i as int));
        }
        let mut j: usize = 0;
        let mut found = false;
        while j < ps.len() && !found
            invariant
                i < matches@.len(),
                j <= ps@.len(),
                *m == matches@[i as int],
                *ps == m.info.participants,
                known == models(stats@),
                sources_fit(matches@, known),
                !found ==> out@ == made && source_in(ps@.take(j as int), known) is None,
                found ==> {
                    &&& source_in(ps@, known) is Some
                    &&& out@.len() == made.len() + 1
                    &&& out@.drop_last() == made
                    &&& asks_about(
                        out@.last()@,
                        ps@[source_in(ps@, known)->0],
                        m.metadata.match_id@,
                        known,
                        *meta,
                    )
                },
            decreases ps@.len() - j,
        {
            let p = &ps[j];
            assert(*p == matches@[i as int].info.participants@[j as int]);
            match make_puzzle(p, m.metadata.match_id.as_str(), stats, meta) {
                Some(z) => {
                    proof {
                        lemma_source_in(ps@, known, j as int);
                    }
                    let ghost zv = z;
                    out.push(z);
                    found = true;
                    assert(out@.drop_last() == made);
                },
                None => {
                    assert(ps@.take(j + 1).drop_last() == ps@.take(j as int));
                },
            }
            j += 1;
        }
        assert(ps@.take(ps@.len() as int) == ps@);
        proof {
            if found {
                let n = made.len() as int;
                let at = sources(matches@.take(i + 1), known);
                assert(at[n] == all[n]);
                assert(all[n] == (i as int, source_in(ps@, known)->0));
                assert forall|k: int| 0 <= k < out@.len() implies asks_about(
                    (#[trigger] out@[k])@,
                    matches@[all[k].0].info.participants@[all[k].1],
                    matches@[all[k].0].metadata.match_id@,
                    known,
                    *meta,
                ) by {
                    if k < n {
                        assert(out@[k] == out@.drop_last()[k]);
                        assert(made[k] == out@[k]);
                    }
                }
            }
        }
        i += 1;
    }
    proof {
        lemma_sources_step(matches@, known, i as int);
        assert(matches@.take(matches@.len() as int) == matches@);
    }
    out
}

// ---------------------------------------------------------------- laws

/// The answer of a puzzle is one of its options, and no option has a better mean placement.
pub proof fn lemma_answer_is_best(
    z: AugmentPuzzleModel,
    p: Participant,
    match_id: Seq<char>,
    stats: Seq<AugModel>,
    meta: Meta,
)
    requires
        asks_about(z, p, match_id, stats, meta),
    ensures
        exists|i: int| 0 <= i < z.options.len() && (#[trigger] z.options[i]).id == z.answer,
        forall|i: int|
            0 <= i < z.options.len() ==> stat_of(stats, z.answer)->0.rank <= stat_of(
                stats,
                (#[trigger] z.options[i]).id,
            )->0.rank,
{
    let actual = actual_of(views(p.augments@), stats)->0;
    let ids = choose|ids: Seq<Seq<char>>| #[trigger]
        options_for(ids, p, stats) && z == puzzle_of(p, match_id, ids, actual, stats, meta);
    lemma_options(ids, p, stats);
    let s = ranks(ids, stats);
    crate::seqs::lemma_least_at(s);
    let b = least_at(s);
    assert(z.options[b].id == z.answer);
    assert forall|i: int| 0 <= i < z.options.len() implies stat_of(stats, z.answer)->0.rank
        <= stat_of(stats, (#[trigger] z.options[i]).id)->0.rank by {
        assert(s[b] <= s[i]);
    }
}

/// A puzzle has four options. Where no augment is listed twice, no option comes twice and
/// exactly one of them is what the player picked; the others the player did not pick.
pub proof fn lemma_options_distinct(
    z: AugmentPuzzleModel,
    p: Participant,
    match_id: Seq<char>,
    stats: Seq<AugModel>,
    meta: Meta,
)
    requires
        asks_about(z, p, match_id, stats, meta),
        known_ids(stats).no_duplicates(),
    ensures
        z.options.len() == 4,
        z.stats.options.len() == 4,
        forall|i: int, j: int|
            0 <= i < j < 4 ==> (#[trigger] z.options[i]).id != (#[trigger] z.options[j]).id,
        exists|i: int| 0 <= i < 4 && (#[trigger] z.stats.options[i]).was_actual_pick,
        forall|i: int|
            #![trigger z.options[i]]
            #![trigger z.stats.options[i]]
            0 <= i < 4 ==> z.stats.options[i].id == z.options[i].id && (
            z.stats.options[i].was_actual_pick <==> views(p.augments@).contains(z.options[i].id)),
{
    let actual = actual_of(views(p.augments@), stats)->0;
    let ids = choose|ids: Seq<Seq<char>>| #[trigger]
        options_for(ids, p, stats) && z == puzzle_of(p, match_id, ids, actual, stats, meta);
    let d = choose|d: Seq<Seq<char>>| #[trigger] options_with(ids, d, p, stats);
    lemma_options(ids, p, stats);
    lemma_actual(views(p.augments@), stats);
    let k = choose|k: int| 0 <= k < ids.len() && ids[k] == actual;
    assert(z.stats.options[k].was_actual_pick);
    assert forall|i: int, j: int| 0 <= i < j < 4 implies (#[trigger] z.options[i]).id
        != (#[trigger] z.options[j]).id by {
        assert(ids[i] != ids[j]);
    }
    assert forall|i: int|
        #![trigger z.options[i]]
        #![trigger z.stats.options[i]]
        0 <= i < 4 implies z.stats.options[i].id == z.options[i].id && (
    z.stats.options[i].was_actual_pick <==> views(p.augments@).contains(z.options[i].id)) by {
        assert(z.options[i].id == ids[i]);
    }
}

/// What is shown of a board is what the board was: its level, round and placement; every active
/// trait, in order, at the tier that it reached; every unit, in order, with its stars and its
/// items. Names and costs are those that are known, else the id and one more than the rarity.
pub proof fn lemma_context_is_the_board(p: Participant, meta: Meta)
    requires
        rarities_fit(p),
    ensures
        ({
            let z = context_of(p, meta);
            let f = models(p.traits@).filter(|t: TraitModel| t.tier_current > 0);
            &&& z.level == p.level
            &&& z.last_round == p.last_round
            &&& z.placement == p.placement
            &&& z.prior_augments.len() == 0
            &&& z.traits.len() == f.len()
            &&& forall|i: int|
                #![trigger z.traits[i]]
                0 <= i < f.len() ==> z.traits[i].id == f[i].name && z.traits[i].name == f[i].name
                    && z.traits[i].tier_current == f[i].tier_current
            &&& z.units.len() == p.units@.len()
            &&& forall|i: int|
                #![trigger z.units[i]]
                0 <= i < p.units@.len() ==> {
                    let u = p.units@[i];
                    let id = u.character_id@;
                    &&& z.units[i].id == id
                    &&& z.units[i].star == u.tier
                    &&& meta.units@.contains_key(id) ==> z.units[i].name == meta.units@[id].name@
                        && z.units[i].cost == meta.units@[id].cost
                    &&& !meta.units@.contains_key(id) ==> z.units[i].name == id && z.units[i].cost
                        == u.rarity + 1
                    &&& z.units[i].items.len() == u.item_names@.len()
                    &&& forall|j: int|
                        #![trigger z.units[i].items[j]]
                        0 <= j < u.item_names@.len() ==> {
                            let item = u.item_names@[j]@;
                            &&& z.units[i].items[j].id == item
                            &&& meta.items@.contains_key(item) ==> z.units[i].items[j].name
                                == meta.items@[item]@
                            &&& !meta.items@.contains_key(item) ==> z.units[i].items[j].name
                                == item
                        }
                }
        }),
{
}

/// What is known of an augment is the last that is listed of it.
pub proof fn lemma_last_known(stats: Seq<AugModel>, id: Seq<char>)
    ensures
        stat_of(stats, id) is Some <==> exists|i: int|
            0 <= i < stats.len() && (#[trigger] stats[i]).id == id,
        stat_of(stats, id) matches Some(s) ==> exists|i: int|
            #![trigger stats[i]]
            0 <= i < stats.len() && stats[i] == s && s.id == id && forall|j: int|
                i < j < stats.len() ==> (#[trigger] stats[j]).id != id,
    decreases stats.len(),
{
    if stats.len() > 0 {
        let t = stats.drop_last();
        lemma_last_known(t, id);
        if stats.last().id == id {
            assert(stats[stats.len() - 1].id == id);
        } else {
            if stat_of(t, id) is Some {
                let i = choose|i: int|
                    #![trigger t[i]]
                    0 <= i < t.len() && t[i] == stat_of(t, id)->0 && t[i].id == id && forall|j: int|
                        i < j < t.len() ==> (#[trigger] t[j]).id != id;
                assert(stats[i] == t[i]);
                assert forall|j: int| i < j < stats.len() implies (#[trigger] stats[j]).id != id by {
                    if j < t.len() {
                        assert(t[j] == stats[j]);
                    }
                }
            }
            assert forall|i: int| 0 <= i < stats.len() && (#[trigger] stats[i]).id == id implies
                stat_of(t, id) is Some by {
                assert(t[i] == stats[i]);
            }
        }
    }
}

/// The pick that a puzzle asks about is the first of the player's augments that anything is
/// known of; there is one exactly where there is such an augment.
pub proof fn lemma_first_known_pick(augments: Seq<Seq<char>>, stats: Seq<AugModel>)
    ensures
        actual_of(augments, stats) matches Some(a) ==> exists|i: int|
            #![trigger augments[i]]
            0 <= i < augments.len() && augments[i] == a && stat_of(stats, a) is Some && forall|
                j: int,
            |
                0 <= j < i ==> stat_of(stats, #[trigger] augments[j]) is None,
        actual_of(augments, stats) is None ==> forall|i: int|
            0 <= i < augments.len() ==> stat_of(stats, #[trigger] augments[i]) is None,
    decreases augments.len(),
{
    if augments.len() > 0 {
        if stat_of(stats, augments[0]) is Some {
            let _ = augments[0];
        } else {
            let t = augments.drop_first();
            lemma_first_known_pick(t, stats);
            if actual_of(t, stats) is Some {
                let i = choose|i: int|
                    #![trigger t[i]]
                    0 <= i < t.len() && t[i] == actual_of(t, stats)->0 && stat_of(stats, t[i]) is Some
                        && forall|j: int| 0 <= j < i ==> stat_of(stats, #[trigger] t[j]) is None;
                assert(augments[i + 1] == t[i]);
                assert forall|j: int| 0 <= j < i + 1 implies stat_of(
                    stats,
                    #[trigger] augments[j],
                ) is None by {
                    if j > 0 {
                        assert(t[j - 1] == augments[j]);
                    }
                }
            } else {
                assert forall|i: int| 0 <= i < augments.len() implies stat_of(
                    stats,
                    #[trigger] augments[i],
                ) is None by {
                    if i > 0 {
                        assert(t[i - 1] == augments[i]);
                    }
                }
            }
        }
    }
}

/// A board becomes a puzzle exactly where it placed fourth or better, the player picked an
/// augment that anything is known of, and three others are known that the player did not pick.
pub proof fn lemma_what_becomes_a_puzzle(p: Participant, stats: Seq<AugModel>)
    ensures
        is_source(p, stats) <==> p.placement <= 4 && (exists|i: int|
            0 <= i < p.augments@.len() && stat_of(stats, (#[trigger] p.augments@[i])@) is Some)
            && stats.filter(|s: AugModel| !views(p.augments@).contains(s.id)).len() >= 3,
{
    let a = views(p.augments@);
    lemma_first_known_pick(a, stats);
    if actual_of(a, stats) is Some {
        let i = choose|i: int|
            #![trigger a[i]]
            0 <= i < a.len() && a[i] == actual_of(a, stats)->0 && stat_of(stats, a[i]) is Some;
        assert(p.augments@[i]@ == a[i]);
    } else {
        assert forall|i: int| 0 <= i < p.augments@.len() implies stat_of(
            stats,
            (#[trigger] p.augments@[i])@,
        ) is None by {
            assert(a[i] == p.augments@[i]@);
        }
    }
    lemma_others_len(stats, a);
}

proof fn lemma_others_len(stats: Seq<AugModel>, augments: Seq<Seq<char>>)
    ensures
        others(stats, augments).len() == stats.filter(
            |s: AugModel| !augments.contains(s.id),
        ).len(),
    decreases stats.len(),
{
    reveal(Seq::filter);
    if stats.len() > 0 {
        lemma_others_len(stats.drop_last(), augments);
        assert(known_ids(stats).drop_last() =~= known_ids(stats.drop_last()));
        assert(known_ids(stats).last() == stats.last().id);
    }
}

/// What a puzzle tells of its options is what is known of them, in the order in which they are
/// offered: the mean, how many games it is taken over, and whether the player picked it. The
/// answer is an option of the best rank.
pub proof fn lemma_puzzle_tells(
    p: Participant,
    match_id: Seq<char>,
    ids: Seq<Seq<char>>,
    actual: Seq<char>,
    stats: Seq<AugModel>,
    meta: Meta,
)
    requires
        ids.len() > 0,
    ensures
        ({
            let z = puzzle_of(p, match_id, ids, actual, stats, meta);
            &&& z.prompt.context == context_of(p, meta)
            &&& z.prompt.question
                == "이 챌린저 보드에서 어떤 오그먼트가 평균 등수가 가장 좋았을까?"@
            &&& z.stats.source_match_id == match_id
            &&& z.options.len() == ids.len()
            &&& z.stats.options.len() == ids.len()
            &&& forall|i: int|
                #![trigger z.options[i]]
                #![trigger z.stats.options[i]]
                0 <= i < ids.len() ==> {
                    &&& z.options[i].id == ids[i]
                    &&& meta.augments@.contains_key(ids[i]) ==> z.options[i].name
                        == meta.augments@[ids[i]]@
                    &&& !meta.augments@.contains_key(ids[i]) ==> z.options[i].name == ids[i]
                    &&& z.options[i].icon.len() == 0
                    &&& z.stats.options[i].id == ids[i]
                    &&& z.stats.options[i].avg_placement == stat_of(stats, ids[i])->0.avg_placement
                    &&& z.stats.options[i].sample_size == stat_of(stats, ids[i])->0.picks
                    &&& z.stats.options[i].was_actual_pick <==> ids[i] == actual
                }
            &&& exists|k: int|
                #![trigger ids[k]]
                0 <= k < ids.len() && z.answer == ids[k] && forall|i: int|
                    0 <= i < ids.len() ==> stat_of(stats, ids[k])->0.rank <= stat_of(
                        stats,
                        #[trigger] ids[i],
                    )->0.rank
        }),
{
    let r = ranks(ids, stats);
    crate::seqs::lemma_least_at(r);
    let k = least_at(r);
    assert forall|i: int| 0 <= i < ids.len() implies stat_of(stats, ids[k])->0.rank <= stat_of(
        stats,
        #[trigger] ids[i],
    )->0.rank by {
        assert(r[k] <= r[i]);
    }
}

/// Of every match that has a board for a puzzle the first such board becomes one, and no other:
/// in the order of the matches, up to sixty.
pub proof fn lemma_one_board_of_a_match(matches: Seq<Match>, stats: Seq<AugModel>)
    ensures
        MAX_PUZZLES == 60,
        forall|k: int|
            #![trigger sources(matches, stats)[k]]
            0 <= k < sources(matches, stats).len() ==> {
                let (m, i) = sources(matches, stats)[k];
                &&& 0 <= m < matches.len()
                &&& 0 <= i < matches[m].info.participants@.len()
                &&& is_source(matches[m].info.participants@[i], stats)
                &&& forall|j: int|
                    0 <= j < i ==> !is_source(#[trigger] matches[m].info.participants@[j], stats)
            },
        forall|a: int, b: int|
            #![trigger sources(matches, stats)[a], sources(matches, stats)[b]]
            0 <= a < b < sources(matches, stats).len() ==> sources(matches, stats)[a].0 < sources(
                matches,
                stats,
            )[b].0,
        forall|m: int, i: int|
            0 <= m < matches.len() && 0 <= i < matches[m].info.participants@.len() && is_source(
                #[trigger] matches[m].info.participants@[i],
                stats,
            ) ==> exists|k: int|
                0 <= k < sources(matches, stats).len() && (#[trigger] sources(matches, stats)[k]).0
                    == m,
    decreases matches.len(),
{
    if matches.len() > 0 {
        let t = matches.drop_last();
        lemma_one_board_of_a_match(t, stats);
        let ps = matches.last().info.participants@;
        lemma_first_source(ps, stats);
        let before = sources(t, stats);
        let all = sources(matches, stats);
        assert forall|k: int| #![trigger all[k]] 0 <= k < all.len() implies ({
            let (m, i) = all[k];
            &&& 0 <= m < matches.len()
            &&& 0 <= i < matches[m].info.participants@.len()
            &&& is_source(matches[m].info.participants@[i], stats)
            &&& forall|j: int|
                0 <= j < i ==> !is_source(#[trigger] matches[m].info.participants@[j], stats)
        }) by {
            if k < before.len() {
                assert(all[k] == before[k]);
                assert(matches[before[k].0] == t[before[k].0]);
            }
        }
        assert forall|a: int, b: int|
            #![trigger all[a], all[b]]
            0 <= a < b < all.len() implies all[a].0 < all[b].0 by {
            assert(all[a] == before[a]);
            if b < before.len() {
                assert(all[b] == before[b]);
            }
        }
        assert forall|m: int, i: int|
            0 <= m < matches.len() && 0 <= i < matches[m].info.participants@.len() && is_source(
                #[trigger] matches[m].info.participants@[i],
                stats,
            ) implies exists|k: int| 0 <= k < all.len() && (#[trigger] all[k]).0 == m by {
            if m < t.len() {
                assert(t[m] == matches[m]);
                let _ = t[m].info.participants@[i];
                let k = choose|k: int| 0 <= k < before.len() && (#[trigger] before[k]).0 == m;
                assert(all[k] == before[k]);
            } else {
                assert(is_source(ps[i], stats));
                assert(all[before.len() as int].0 == m);
            }
        }
    }
}

proof fn lemma_first_source(ps: Seq<Participant>, stats: Seq<AugModel>)
    ensures
        source_in(ps, stats) matches Some(i) ==> 0 <= i < ps.len() && is_source(ps[i], stats)
            && forall|j: int| 0 <= j < i ==> !is_source(#[trigger] ps[j], stats),
        source_in(ps, stats) is None ==> forall|j: int|
            0 <= j < ps.len() ==> !is_source(#[trigger] ps[j], stats),
    decreases ps.len(),
{
    if ps.len() > 0 {
        let t = ps.drop_last();
        lemma_first_source(t, stats);
        match source_in(t, stats) {
            Some(i) => {
                assert(t[i] == ps[i]);
                assert forall|j: int| 0 <= j < i implies !is_source(#[trigger] ps[j], stats) by {
                    assert(t[j] == ps[j]);
                }
            },
            None => {
                assert forall|j: int| 0 <= j < t.len() implies !is_source(#[trigger] ps[j], stats) by {
                    assert(t[j] == ps[j]);
                }
            },
        }
    }
}

/// Each puzzle asks about the board that it was made of, and names its match.
pub proof fn lemma_each_asks_about(
    zs: Seq<AugmentPuzzle>,
    at: Seq<(int, int)>,
    matches: Seq<Match>,
    stats: Seq<AugModel>,
    meta: Meta,
    k: int,
)
    requires
        ask_about(zs, at, matches, stats, meta),
        0 <= k < zs.len(),
    ensures
        zs.len() <= at.len(),
        zs[k]@.stats.source_match_id == matches[at[k].0].metadata.match_id@,
        zs[k]@.prompt.context == context_of(
            matches[at[k].0].info.participants@[at[k].1],
            meta,
        ),
        exists|i: int|
            0 <= i < zs[k]@.options.len() && (#[trigger] zs[k]@.options[i]).id == zs[k]@.answer,
{
    let p = matches[at[k].0].info.participants@[at[k].1];
    let id = matches[at[k].0].metadata.match_id@;
    assert(asks_about(zs[k]@, p, id, stats, meta));
    let ids = choose|ids: Seq<Seq<char>>| #[trigger]
        options_for(ids, p, stats) && zs[k]@ == puzzle_of(
            p,
            id,
            ids,
            actual_of(views(p.augments@), stats)->0,
            stats,
            meta,
        );
    lemma_options(ids, p, stats);
    let r = ranks(ids, stats);
    crate::seqs::lemma_least_at(r);
    assert(zs[k]@.options[least_at(r)].id == zs[k]@.answer);
}

/// A puzzle is what its fields say; augments count from three picks on, and sixty puzzles are
/// enough.
pub proof fn lemma_augment_puzzle_as_stored(z: AugmentPuzzle)
    ensures
        z@.prompt == z.prompt@,
        z@.options == models(z.options@),
        z@.answer == z.answer@,
        z@.stats == z.stats@,
        MIN_PICKS == 3,
        MAX_PUZZLES == 60,
        DISTRACTORS == 3,
{
}

}
