//! Puzzles about decks: which core unit is missing?
//!
//! A deck is known by the units that all of its variants share. Each of them that is not
//! played everywhere is left out in turn; units of other decks, of the same cost if there are
//! such, are offered beside it.

use crate::combo_quiz::{item_info, name_and_icon};
use crate::db::{DeckModel, RawDeck};
use crate::deck_cluster::{
    cluster_decks, clusters_of, filter_tier_decks, games_fit, in_tier, ClusterModel, DeckCluster,
};
use crate::draw::{shuffle_head, shuffled};
use crate::json::{elements, field, lemma_member, Json, JsonModel, Number};
use crate::meta::{
    cdragon_icon_url, icon_url, map_model, unit_cost_or, unit_name_or_id, Meta, UnitMetaModel,
};
use crate::order::{
    in_order, lemma_sorted_in_order, lemma_sorted_permutes, models, sort_strings, sorted,
    stable_sort, Ordered,
};
use crate::riot::dto::copy_strings;
use crate::seqs::{lemma_filter_distinct, lemma_filter_elements, lemma_filter_step};
use crate::table::{
    count_names, distinct, distinct_names, lemma_distinct, occurrences, Table,
};
use crate::text::{
    has, join, joined, lemma_views_multiset, lex_lt, pieces, split, str_eq, str_lt, views,
};
use vstd::prelude::*;
use vstd::string::*;

verus! {

/// The share of all matches that a deck must have been played in: one in so many.
pub const DECK_GAMES_SHARE: i64 = 200;

/// However few matches there are, a deck needs this many games.
pub const MIN_DECK_GAMES_FLOOR: i64 = 30;

/// Decks that were played less often are not looked at.
pub const RAW_MIN_GAMES: i64 = 100;

/// Options of a puzzle.
pub const N_OPTIONS: usize = 4;

/// Variants of a deck share this many units.
pub const MIN_COMMON: usize = 7;

/// Of units with three stars, the share in percent from which it is told.
pub const STAR3_MIN_RATIO: i32 = 40;

/// The wrong options are drawn from so many of the nearest in cost.
pub const NEAREST: usize = 10;

// ---------------------------------------------------------------- which decks

/// How many games a deck of middling placement needs.
pub open spec fn deck_games_needed(total_matches: i64) -> i64 {
    if total_matches >= MIN_DECK_GAMES_FLOOR * DECK_GAMES_SHARE {
        (total_matches / DECK_GAMES_SHARE) as i64
    } else {
        MIN_DECK_GAMES_FLOOR
    }
}

/// How many games a deck of middling placement needs: half a percent of all matches, thirty
/// at least.
pub fn min_deck_games(total_matches: i64) -> (r: i64)
    ensures
        r == deck_games_needed(total_matches),
{
    if total_matches >= MIN_DECK_GAMES_FLOOR * DECK_GAMES_SHARE {
        (total_matches as u64 / DECK_GAMES_SHARE as u64) as i64
    } else {
        MIN_DECK_GAMES_FLOOR
    }
}

/// The decks with a mean placement of 5.0 or better.
pub open spec fn placing_well(raw: Seq<DeckModel>) -> Seq<DeckModel> {
    raw.filter(|d: DeckModel| d.avg_placement <= 500)
}

/// How many decks have a mean placement of 5.0 or better.
pub fn count_placing_well(raw: &Vec<RawDeck>) -> (r: usize)
    ensures
        r == placing_well(models(raw@)).len(),
{
    let ghost all = models(raw@);
    let ghost keep = |d: DeckModel| d.avg_placement <= 500;
    let mut n: usize = 0;
    let mut i: usize = 0;
    proof {
        reveal(Seq::filter);
    }
    while i < raw.len()
        invariant
            i <= raw@.len(),
            n <= i,
            all == models(raw@),
            keep == (|d: DeckModel| d.avg_placement <= 500),
            n == all.take(i as int).filter(keep).len(),
        decreases raw@.len() - i,
    {
        proof {
            lemma_filter_step(all, i as int, keep);
            assert(all[i as int] == raw@[i as int]@);
        }
        if raw[i].avg_placement <= 500 {
            n += 1;
        }
        i += 1;
    }
    assert(all.take(all.len() as int) == all);
    n
}

/// A cluster as a deck: its core, how often any of its variants was played, and how well the
/// best of them did.
pub open spec fn deck_of(c: ClusterModel) -> DeckModel {
    DeckModel { units: c.core, games: c.total_games as i64, avg_placement: c.best_avg }
}

/// A cluster that is worth showing.
pub open spec fn worth_showing(c: ClusterModel, min_games: i64) -> bool {
    c.best_avg <= 450 || (c.best_avg <= 500 && c.total_games >= min_games)
}

/// The decks that puzzles are made of.
pub open spec fn tier_decks_of(raw: Seq<DeckModel>, total_matches: i64) -> Seq<DeckModel> {
    let f = clusters_of(raw, MIN_COMMON as nat).filter(
        |c: ClusterModel| worth_showing(c, deck_games_needed(total_matches)),
    );
    Seq::new(f.len(), |i: int| deck_of(f[i]))
}

proof fn lemma_filter_models(s: Seq<DeckCluster>, min_games: i64)
    ensures
        models(s.filter(|c: DeckCluster| in_tier(c, min_games))) == models(s).filter(
            |c: ClusterModel| worth_showing(c, min_games),
        ),
    decreases s.len(),
{
    reveal(Seq::filter);
    let keep = |c: DeckCluster| in_tier(c, min_games);
    let keep_model = |c: ClusterModel| worth_showing(c, min_games);
    if s.len() == 0 {
        assert(models(s.filter(keep)) =~= models(s).filter(keep_model));
    } else {
        let t = s.drop_last();
        lemma_filter_models(t, min_games);
        assert(models(s).drop_last() =~= models(t));
        assert(models(s).last() == s.last()@);
        if keep(s.last()) {
            assert(models(t.filter(keep).push(s.last())) =~= models(t.filter(keep)).push(
                s.last()@,
            ));
        }
    }
}

/// The decks that puzzles are made of: the variants of a deck are put together, and those
/// decks are kept that place well over enough games.
pub fn tier_decks(raw: Vec<RawDeck>, total_matches: i64) -> (r: Vec<RawDeck>)
    requires
        games_fit(models(raw@), MIN_COMMON as nat),
    ensures
        models(r@) == tier_decks_of(models(raw@), total_matches),
{
    let ghost all = models(raw@);
    let min_games = min_deck_games(total_matches);
    let clusters = cluster_decks(raw, MIN_COMMON);
    proof {
        lemma_filter_models(clusters@, min_games);
    }
    let mut rest = filter_tier_decks(clusters, min_games);
    let ghost kept = rest@;
    let mut out: Vec<RawDeck> = Vec::new();
    while rest.len() > 0
        invariant
            rest@.len() <= kept.len(),
            rest@ == kept.skip(kept.len() - rest@.len()),
            out@.len() == kept.len() - rest@.len(),
            forall|k: int| 0 <= k < out@.len() ==> (#[trigger] out@[k])@ == deck_of(kept[k]@),
        decreases rest@.len(),
    {
        let ghost n = kept.len() - rest@.len();
        let c = rest.remove(0);
        assert(c == kept[n]);
        assert(rest@ =~= kept.skip(n + 1));
        let DeckCluster { core, variants: _, total_games, best_avg } = c;
        out.push(RawDeck { units: core, games: total_games, avg_placement: best_avg });
        assert(out@[n]@ == deck_of(kept[n]@));
    }
    assert(models(out@) =~= tier_decks_of(all, total_matches));
    out
}

/// The units of all decks in a row.
pub open spec fn units_of(decks: Seq<DeckModel>) -> Seq<Seq<char>>
    decreases decks.len(),
{
    if decks.len() == 0 {
        Seq::empty()
    } else {
        units_of(decks.drop_last()) + decks.last().units
    }
}

/// The units of all decks, each once.
pub fn meta_pool(decks: &Vec<RawDeck>) -> (r: Vec<String>)
    ensures
        views(r@) == distinct(units_of(models(decks@))),
{
    let ghost all = models(decks@);
    let mut units: Vec<String> = Vec::new();
    let mut i: usize = 0;
    assert(views(units@) =~= units_of(all.take(0)));
    while i < decks.len()
        invariant
            i <= decks@.len(),
            all == models(decks@),
            views(units@) == units_of(all.take(i as int)),
        decreases decks@.len() - i,
    {
        let ghost before = units@;
        let mut more = copy_strings(&decks[i].units);
        units.append(&mut more);
        proof {
            assert(all.take(i + 1).drop_last() == all.take(i as int));
            assert(all.take(i + 1).last() == decks@[i as int]@);
            assert(views(units@) =~= views(before) + decks@[i as int]@.units);
        }
        i += 1;
    }
    assert(all.take(all.len() as int) == all);
    distinct_names(&units)
}

/// `count` of `boards` is three tenths or less.
pub open spec fn at_most_three_tenths(count: int, boards: int) -> bool {
    if boards > 0 {
        count * 10 <= boards * 3
    } else if boards < 0 {
        count * 10 >= boards * 3
    } else {
        count < 0
    }
}

/// On how many boards a unit stood.
pub open spec fn boards_with(appears: Map<Seq<char>, i64>, id: Seq<char>) -> i64 {
    if appears.contains_key(id) {
        appears[id]
    } else {
        0
    }
}

/// The units that can be asked for: those that do not stand on every third board.
pub open spec fn core_of(
    units: Seq<Seq<char>>,
    appears: Map<Seq<char>, i64>,
    boards: i64,
) -> Seq<Seq<char>> {
    units.filter(
        |u: Seq<char>| at_most_three_tenths(boards_with(appears, u) as int, boards as int),
    )
}

/// The units that can be asked for.
pub fn signature_core(units: &Vec<String>, appears: &Table<i64>, boards: i64) -> (r: Vec<String>)
    ensures
        views(r@) == core_of(views(units@), appears@, boards),
{
    let ghost all = views(units@);
    let ghost keep = |u: Seq<char>|
        at_most_three_tenths(boards_with(appears@, u) as int, boards as int);
    let mut out: Vec<String> = Vec::new();
    let mut i: usize = 0;
    proof {
        reveal(Seq::filter);
        assert(views(out@) =~= all.take(0).filter(keep));
    }
    while i < units.len()
        invariant
            i <= units@.len(),
            all == views(units@),
            keep == (|u: Seq<char>|
                at_most_three_tenths(boards_with(appears@, u) as int, boards as int)),
            views(out@) == all.take(i as int).filter(keep),
        decreases units@.len() - i,
    {
        let ghost before = out@;
        proof {
            lemma_filter_step(all, i as int, keep);
        }
        let n: i64 = match appears.get(units[i].as_str()) {
            Some(n) => *n,
            None => 0,
        };
        let ten = n as i128 * 10;
        let three = boards as i128 * 3;
        let rare = if boards > 0 {
            ten <= three
        } else if boards < 0 {
            ten >= three
        } else {
            n < 0
        };
        if rare {
            out.push(units[i].clone());
            assert(views(out@) =~= views(before).push(all[i as int]));
        }
        i += 1;
    }
    assert(all.take(all.len() as int) == all);
    out
}

// ---------------------------------------------------------------- names of decks

/// What a deck is known by in the database: its units in order.
pub open spec fn key_of(units: Seq<Seq<char>>) -> Seq<char> {
    joined(sorted::<String>(units), ","@)
}

/// What a deck is known by in the database.
pub fn deck_key(units: &Vec<String>) -> (r: String)
    ensures
        r@ == key_of(views(units@)),
{
    let s = sort_strings(copy_strings(units));
    join(&s, ",")
}

/// The label of a deck: its leading trait; its first unit where it has none.
pub open spec fn label_of(leading: Option<Seq<char>>, units: Seq<Seq<char>>) -> Seq<char> {
    match leading {
        Some(t) => "trait:"@ + t,
        None => if units.len() > 0 {
            "unit:"@ + units[0]
        } else {
            seq![]
        },
    }
}

/// The label of a deck: its leading trait; its first unit where it has none.
pub fn deck_label(leading: &Option<String>, units: &Vec<String>) -> (r: String)
    ensures
        r@ == label_of(crate::comp::opt_view(*leading), views(units@)),
{
    match leading {
        Some(t) => {
            let mut out = "trait:".to_string();
            out.append(t.as_str());
            out
        },
        None => {
            if units.len() > 0 {
                assert(views(units@)[0] == units@[0]@);
                let mut out = "unit:".to_string();
                out.append(units[0].as_str());
                out
            } else {
                String::new()
            }
        },
    }
}

// ---------------------------------------------------------------- what is stored of a deck

/// An item that a unit is often seen with.
#[derive(Debug)]
pub struct CarryItem {
    pub item_id: String,
    pub name: String,
    pub icon: String,
}

/// `items` are the items of a combo, each with its name and picture.
pub open spec fn lists_items(
    items: Seq<CarryItem>,
    combo: Seq<char>,
    info: Map<Seq<char>, (String, String)>,
) -> bool {
    &&& items.len() == pieces(combo, ',').len()
    &&& forall|i: int|
        0 <= i < items.len() ==> (#[trigger] items[i]).item_id@ == pieces(combo, ',')[i] && (
            items[i].name@,
            items[i].icon@,
        ) == name_and_icon(pieces(combo, ',')[i], info)
}

/// The items of a combo, each with its name and picture.
pub fn carry_items(combo: &str, info: &Table<(String, String)>) -> (r: Vec<CarryItem>)
    ensures
        lists_items(r@, combo@, info@),
{
    let ids = split(combo, ',');
    let ghost all = pieces(combo@, ',');
    let mut out: Vec<CarryItem> = Vec::new();
    let mut i: usize = 0;
    while i < ids.len()
        invariant
            i <= ids@.len(),
            views(ids@) == all,
            out@.len() == i,
            forall|k: int|
                0 <= k < i ==> (#[trigger] out@[k]).item_id@ == all[k] && (
                    out@[k].name@,
                    out@[k].icon@,
                ) == name_and_icon(all[k], info@),
        decreases ids@.len() - i,
    {
        let id = &ids[i];
        assert(all[i as int] == id@);
        let (name, icon) = item_info(id.as_str(), info);
        out.push(CarryItem { item_id: id.clone(), name, icon });
        i += 1;
    }
    out
}

/// An id with its name and its picture.
pub open spec fn pictured(id: Seq<char>, name: Seq<char>, icon: Seq<char>) -> JsonModel {
    JsonModel::Object(
        seq![
            ("id"@, JsonModel::Str(id)),
            ("name"@, JsonModel::Str(name)),
            ("icon"@, JsonModel::Str(icon)),
        ],
    )
}

fn picture(id: &str, name: &str, icon: &str) -> (r: Json)
    ensures
        r@ == pictured(id@, name@, icon@),
{
    let r = Json::object(
        vec![
            field("id", Json::text(id)),
            field("name", Json::text(name)),
            field("icon", Json::text(icon)),
        ],
    );
    assert(r@->Object_0 =~= pictured(id@, name@, icon@)->Object_0);
    r
}

/// The items that a unit is often seen with.
pub open spec fn carry_items_json(items: Seq<CarryItem>) -> JsonModel {
    JsonModel::Array(
        Seq::new(
            items.len(),
            |i: int| pictured(items[i].item_id@, items[i].name@, items[i].icon@),
        ),
    )
}

/// It is worth telling how often the unit is seen with three stars: it often is, and costs
/// little.
pub open spec fn tells_star3(ratio: i32, cost: i32) -> bool {
    ratio >= STAR3_MIN_RATIO && cost <= 3
}

/// What is stored of a unit of a deck.
pub open spec fn deck_unit(
    id: Seq<char>,
    meta: Meta,
    carry_items: Map<Seq<char>, Vec<CarryItem>>,
    star3: Map<Seq<char>, i32>,
) -> JsonModel {
    let base = seq![
        ("id"@, JsonModel::Str(id)),
        ("name"@, JsonModel::Str(unit_name_or_id(map_model(meta.units@), id))),
    ];
    let items = if carry_items.contains_key(id) {
        seq![("items"@, carry_items_json(carry_items[id]@))]
    } else {
        seq![]
    };
    let stars = if star3.contains_key(id) && tells_star3(
        star3[id],
        unit_cost_or(map_model(meta.units@), id, 0),
    ) {
        seq![("star3_ratio"@, JsonModel::Num(Number::Int(star3[id] as i64)))]
    } else {
        seq![]
    };
    JsonModel::Object(base + items + stars)
}

fn items_to_json(items: &Vec<CarryItem>) -> (r: Json)
    ensures
        r@ == carry_items_json(items@),
{
    let mut out: Vec<Json> = Vec::new();
    let mut i: usize = 0;
    while i < items.len()
        invariant
            i <= items@.len(),
            out@.len() == i,
            forall|k: int|
                0 <= k < i ==> (#[trigger] out@[k])@ == pictured(
                    items@[k].item_id@,
                    items@[k].name@,
                    items@[k].icon@,
                ),
        decreases items@.len() - i,
    {
        let it = &items[i];
        out.push(picture(it.item_id.as_str(), it.name.as_str(), it.icon.as_str()));
        i += 1;
    }
    assert(elements(out@) =~= carry_items_json(items@)->Array_0);
    Json::array(out)
}

fn unit_to_json(
    id: &str,
    meta: &Meta,
    carry_items: &Table<Vec<CarryItem>>,
    star3: &Table<i32>,
) -> (r: Json)
    ensures
        r@ == deck_unit(id@, *meta, carry_items@, star3@),
{
    let name = meta.unit_name(id);
    let mut v = vec![field("id", Json::text(id)), field("name", Json::text(name.as_str()))];
    let ghost m0 = crate::json::members(v@);
    match carry_items.get(id) {
        Some(items) => {
            v.push(field("items", items_to_json(items)));
        },
        None => {},
    }
    let ghost m1 = crate::json::members(v@);
    match star3.get(id) {
        Some(ratio) => {
            if *ratio >= STAR3_MIN_RATIO && meta.unit_cost(id, 0) <= 3 {
                v.push(field("star3_ratio", Json::integer(*ratio as i64)));
            }
        },
        None => {},
    }
    let r = Json::object(v);
    assert(r@->Object_0 =~= deck_unit(id@, *meta, carry_items@, star3@)->Object_0);
    r
}

/// What is stored of a deck.
#[derive(Debug)]
pub struct DeckStatRow {
    pub deck_key: String,
    pub units: Json,
    pub label: String,
    /// Mean placement in hundredths.
    pub avg_placement: i64,
    pub games: i64,
}

pub struct DeckStatModel {
    pub deck_key: Seq<char>,
    pub units: JsonModel,
    pub label: Seq<char>,
    pub avg_placement: i64,
    pub games: i64,
}

impl View for DeckStatRow {
    type V = DeckStatModel;

    open spec fn view(&self) -> DeckStatModel {
        DeckStatModel {
            deck_key: self.deck_key@,
            units: self.units@,
            label: self.label@,
            avg_placement: self.avg_placement,
            games: self.games,
        }
    }
}

/// What is stored of a deck.
pub open spec fn deck_row_of(
    deck: DeckModel,
    label: Seq<char>,
    meta: Meta,
    carry_items: Map<Seq<char>, Vec<CarryItem>>,
    star3: Map<Seq<char>, i32>,
) -> DeckStatModel {
    DeckStatModel {
        deck_key: key_of(deck.units),
        units: JsonModel::Array(
            Seq::new(
                deck.units.len(),
                |i: int| deck_unit(deck.units[i], meta, carry_items, star3),
            ),
        ),
        label,
        avg_placement: deck.avg_placement,
        games: deck.games,
    }
}

/// What is stored of a deck.
pub fn deck_row(
    deck: &RawDeck,
    label: &str,
    meta: &Meta,
    carry_items: &Table<Vec<CarryItem>>,
    star3: &Table<i32>,
) -> (r: DeckStatRow)
    ensures
        r@ == deck_row_of(deck@, label@, *meta, carry_items@, star3@),
{
    let mut units: Vec<Json> = Vec::new();
    let mut i: usize = 0;
    while i < deck.units.len()
        invariant
            i <= deck.units@.len(),
            units@.len() == i,
            forall|k: int|
                0 <= k < i ==> (#[trigger] units@[k])@ == deck_unit(
                    deck@.units[k],
                    *meta,
                    carry_items@,
                    star3@,
                ),
        decreases deck.units@.len() - i,
    {
        assert(deck@.units[i as int] == deck.units@[i as int]@);
        units.push(unit_to_json(deck.units[i].as_str(), meta, carry_items, star3));
        i += 1;
    }
    let ghost goal = deck_row_of(deck@, label@, *meta, carry_items@, star3@);
    assert(elements(units@) =~= goal.units->Array_0);
    DeckStatRow {
        deck_key: deck_key(&deck.units),
        units: Json::array(units),
        label: label.to_string(),
        avg_placement: deck.avg_placement,
        games: deck.games,
    }
}

// ---------------------------------------------------------------- wrong options

/// The cost of a unit; 0 where it is not known.
pub open spec fn cost_in(costs: Map<Seq<char>, i32>, id: Seq<char>) -> i32 {
    if costs.contains_key(id) {
        costs[id]
    } else {
        0
    }
}

/// How far two costs are apart.
pub open spec fn apart(a: i32, b: i32) -> int {
    if a >= b {
        a - b
    } else {
        b - a
    }
}

/// A unit, and how far its cost is from that of the answer.
#[derive(Debug)]
pub struct Near {
    pub id: String,
    pub distance: i64,
}

pub struct NearModel {
    pub id: Seq<char>,
    pub distance: i64,
}

impl View for Near {
    type V = NearModel;

    open spec fn view(&self) -> NearModel {
        NearModel { id: self.id@, distance: self.distance }
    }
}

impl Ordered for Near {
    /// The nearer stands first.
    open spec fn before(a: NearModel, b: NearModel) -> bool {
        a.distance < b.distance
    }

    proof fn weak_order(a: NearModel, b: NearModel, c: NearModel) {
    }

    fn is_before(&self, other: &Near) -> (b: bool) {
        self.distance < other.distance
    }
}

/// The units of other decks, each with its distance in cost.
pub open spec fn outside(
    pool: Seq<Seq<char>>,
    deck: Seq<Seq<char>>,
    removed: Seq<char>,
    costs: Map<Seq<char>, i32>,
) -> Seq<NearModel> {
    let f = pool.filter(|u: Seq<char>| !deck.contains(u));
    Seq::new(
        f.len(),
        |i: int|
            NearModel {
                id: f[i],
                distance: apart(cost_in(costs, f[i]), cost_in(costs, removed)) as i64,
            },
    )
}

/// The ids of a row.
pub open spec fn near_ids(s: Seq<NearModel>) -> Seq<Seq<char>> {
    Seq::new(s.len(), |i: int| s[i].id)
}

/// The units of other decks, those nearest in cost to the answer first.
pub open spec fn by_cost(
    pool: Seq<Seq<char>>,
    deck: Seq<Seq<char>>,
    removed: Seq<char>,
    costs: Map<Seq<char>, i32>,
) -> Seq<Seq<char>> {
    near_ids(sorted::<Near>(outside(pool, deck, removed, costs)))
}

/// The units of other decks, those nearest in cost to the answer first.
pub fn distractors_by_cost(
    pool: &Vec<String>,
    deck: &Vec<String>,
    removed: &str,
    costs: &Table<i32>,
) -> (r: Vec<String>)
    ensures
        views(r@) == by_cost(views(pool@), views(deck@), removed@, costs@),
{
    let ghost all = views(pool@);
    let ghost keep = |u: Seq<char>| !views(deck@).contains(u);
    let ghost goal = outside(all, views(deck@), removed@, costs@);
    let ans: i64 = match costs.get(removed) {
        Some(c) => *c as i64,
        None => 0,
    };
    let mut near: Vec<Near> = Vec::new();
    let mut i: usize = 0;
    proof {
        reveal(Seq::filter);
    }
    while i < pool.len()
        invariant
            i <= pool@.len(),
            all == views(pool@),
            keep == (|u: Seq<char>| !views(deck@).contains(u)),
            ans == cost_in(costs@, removed@),
            near@.len() == all.take(i as int).filter(keep).len(),
            forall|k: int|
                0 <= k < near@.len() ==> (#[trigger] near@[k])@ == (NearModel {
                    id: all.take(i as int).filter(keep)[k],
                    distance: apart(
                        cost_in(costs@, all.take(i as int).filter(keep)[k]),
                        cost_in(costs@, removed@),
                    ) as i64,
                }),
        decreases pool@.len() - i,
    {
        proof {
            lemma_filter_step(all, i as int, keep);
        }
        let played = has(deck, pool[i].as_str());
        if !played {
            let c: i64 = match costs.get(pool[i].as_str()) {
                Some(c) => *c as i64,
                None => 0,
            };
            let distance = if c >= ans {
                c - ans
            } else {
                ans - c
            };
            near.push(Near { id: pool[i].clone(), distance });
        }
        i += 1;
    }
    assert(all.take(all.len() as int) == all);
    assert(models(near@) =~= goal);
    let near = stable_sort(near);
    let mut out: Vec<String> = Vec::new();
    let mut j: usize = 0;
    while j < near.len()
        invariant
            j <= near@.len(),
            out@.len() == j,
            forall|k: int| 0 <= k < j ==> (#[trigger] out@[k])@ == near@[k].id@,
        decreases near@.len() - j,
    {
        out.push(near[j].id.clone());
        j += 1;
    }
    assert(models(near@).len() == near@.len());
    assert(views(out@) =~= near_ids(models(near@)));
    out
}

// ---------------------------------------------------------------- synergies

/// The traits of the units, in a row.
pub open spec fn traits_of(
    units: Seq<Seq<char>>,
    meta: Map<Seq<char>, UnitMetaModel>,
) -> Seq<Seq<char>>
    decreases units.len(),
{
    if units.len() == 0 {
        Seq::empty()
    } else {
        let rest = traits_of(units.drop_last(), meta);
        if meta.contains_key(units.last()) {
            rest + meta[units.last()].traits
        } else {
            rest
        }
    }
}

/// A trait, and how many units have it.
#[derive(Debug)]
pub struct Synergy {
    pub name: String,
    pub count: usize,
}

pub struct SynergyModel {
    pub name: Seq<char>,
    pub count: nat,
}

impl View for Synergy {
    type V = SynergyModel;

    open spec fn view(&self) -> SynergyModel {
        SynergyModel { name: self.name@, count: self.count as nat }
    }
}

impl Ordered for Synergy {
    /// The more frequent first, then by name.
    open spec fn before(a: SynergyModel, b: SynergyModel) -> bool {
        a.count > b.count || (a.count == b.count && lex_lt(a.name, b.name))
    }

    proof fn weak_order(a: SynergyModel, b: SynergyModel, c: SynergyModel) {
        crate::order::lemma_lex_weak_order(a.name, b.name, c.name);
    }

    fn is_before(&self, other: &Synergy) -> (b: bool) {
        if self.count != other.count {
            self.count > other.count
        } else {
            str_lt(self.name.as_str(), other.name.as_str())
        }
    }
}

/// The traits that come at least twice, in the order in which they first came.
pub open spec fn repeated(traits: Seq<Seq<char>>) -> Seq<SynergyModel> {
    let f = distinct(traits).filter(|t: Seq<char>| occurrences(traits, t) >= 2);
    Seq::new(f.len(), |i: int| SynergyModel { name: f[i], count: occurrences(traits, f[i]) })
}

/// The traits that come at least twice, the most frequent first.
pub open spec fn synergies_of(traits: Seq<Seq<char>>) -> Seq<SynergyModel> {
    sorted::<Synergy>(repeated(traits))
}

fn trait_row(units: &Vec<String>, meta: &Meta) -> (r: Vec<String>)
    ensures
        views(r@) == traits_of(views(units@), map_model(meta.units@)),
{
    let ghost all = views(units@);
    let ghost known = map_model(meta.units@);
    let mut out: Vec<String> = Vec::new();
    let mut i: usize = 0;
    assert(views(out@) =~= traits_of(all.take(0), known));
    while i < units.len()
        invariant
            i <= units@.len(),
            all == views(units@),
            known == map_model(meta.units@),
            views(out@) == traits_of(all.take(i as int), known),
        decreases units@.len() - i,
    {
        proof {
            assert(all.take(i + 1).drop_last() == all.take(i as int));
            assert(all.take(i + 1).last() == units@[i as int]@);
        }
        match meta.units.get(units[i].as_str()) {
            Some(u) => {
                let ghost before = out@;
                let mut more = copy_strings(&u.traits);
                out.append(&mut more);
                assert(views(out@) =~= views(before) + views(u.traits@));
            },
            None => {},
        }
        i += 1;
    }
    assert(all.take(all.len() as int) == all);
    out
}

/// The traits that at least two of the units have, the most frequent first.
pub fn synergies(units: &Vec<String>, meta: &Meta) -> (r: Vec<Synergy>)
    ensures
        models(r@) == synergies_of(traits_of(views(units@), map_model(meta.units@))),
{
    let row = trait_row(units, meta);
    let ghost ts = views(row@);
    let t = count_names(&row);
    t.facts();
    let ghost keep = |x: Seq<char>| occurrences(ts, x) >= 2;
    let ghost names = t.keys();
    let mut out: Vec<Synergy> = Vec::new();
    let mut i: usize = 0;
    proof {
        reveal(Seq::filter);
    }
    while i < t.len()
        invariant
            i <= names.len(),
            names == t.keys(),
            keep == (|x: Seq<char>| occurrences(ts, x) >= 2),
            forall|k: Seq<char>| #[trigger] t@.contains_key(k) ==> t@[k] == occurrences(ts, k),
            out@.len() == names.take(i as int).filter(keep).len(),
            forall|k: int|
                0 <= k < out@.len() ==> (#[trigger] out@[k])@ == (SynergyModel {
                    name: names.take(i as int).filter(keep)[k],
                    count: occurrences(ts, names.take(i as int).filter(keep)[k]),
                }),
        decreases names.len() - i,
    {
        proof {
            lemma_filter_step(names, i as int, keep);
        }
        let n = *t.value_at(i);
        if n >= 2 {
            out.push(Synergy { name: t.key_at(i).clone(), count: n });
        }
        i += 1;
    }
    assert(names.take(names.len() as int) == names);
    assert(models(out@) =~= repeated(ts));
    stable_sort(out)
}

// ---------------------------------------------------------------- the puzzle

/// What deck puzzles are made with.
pub struct DeckSources {
    pub patch: String,
    pub meta: Meta,
    /// The items that units are often seen with.
    pub carry_items: Table<Vec<CarryItem>>,
    /// How often units are seen with three stars, in percent.
    pub star3: Table<i32>,
    pub unit_costs: Table<i32>,
    /// On how many boards units stood.
    pub unit_appears: Table<i64>,
    pub total_boards: i64,
    pub unit_icons: Table<String>,
}

/// A puzzle about a deck, as it is stored.
#[derive(Debug)]
pub struct DeckPuzzleRow {
    pub carry_id: String,
    pub variant: String,
    pub prompt: Json,
    pub options: Json,
    /// The unit that is missing.
    pub answer: String,
    pub stats: Json,
}

pub struct DeckPuzzleModel {
    pub carry_id: Seq<char>,
    pub variant: Seq<char>,
    pub prompt: JsonModel,
    pub options: JsonModel,
    pub answer: Seq<char>,
    pub stats: JsonModel,
}

impl View for DeckPuzzleRow {
    type V = DeckPuzzleModel;

    open spec fn view(&self) -> DeckPuzzleModel {
        DeckPuzzleModel {
            carry_id: self.carry_id@,
            variant: self.variant@,
            prompt: self.prompt@,
            options: self.options@,
            answer: self.answer@,
            stats: self.stats@,
        }
    }
}

/// The units that are shown.
pub open spec fn shown_of(units: Seq<Seq<char>>, removed: Seq<char>) -> Seq<Seq<char>> {
    units.filter(|u: Seq<char>| u != removed)
}

/// A unit by its name and its picture.
pub open spec fn unit_picture(id: Seq<char>, src: DeckSources) -> JsonModel {
    pictured(
        id,
        unit_name_or_id(map_model(src.meta.units@), id),
        if src.unit_icons@.contains_key(id) {
            src.unit_icons@[id]@
        } else {
            seq![]
        },
    )
}

/// Units by their names and their pictures.
pub open spec fn unit_pictures(ids: Seq<Seq<char>>, src: DeckSources) -> JsonModel {
    JsonModel::Array(Seq::new(ids.len(), |i: int| unit_picture(ids[i], src)))
}

/// A number of units.
pub open spec fn count_number(n: nat) -> Number {
    if n <= i64::MAX {
        Number::Int(n as i64)
    } else {
        Number::Big(n as u64)
    }
}

/// The synergies, as they are shown.
pub open spec fn synergies_json(s: Seq<SynergyModel>) -> JsonModel {
    JsonModel::Array(
        Seq::new(
            s.len(),
            |i: int|
                JsonModel::Object(
                    seq![
                        ("trait"@, JsonModel::Str(s[i].name)),
                        ("count"@, JsonModel::Num(count_number(s[i].count))),
                    ],
                ),
        ),
    )
}

/// An option of a deck puzzle, as it is told after the answer.
pub open spec fn told_option(id: Seq<char>, removed: Seq<char>, src: DeckSources) -> JsonModel {
    JsonModel::Object(
        seq![
            ("id"@, JsonModel::Str(id)),
            ("name"@, JsonModel::Str(unit_name_or_id(map_model(src.meta.units@), id))),
            ("is_best"@, JsonModel::Bool(id == removed)),
        ],
    )
}

/// The puzzle that leaves out `removed` and offers `ids`.
pub open spec fn deck_puzzle_of(
    deck: DeckModel,
    label: Seq<char>,
    removed: Seq<char>,
    ids: Seq<Seq<char>>,
    src: DeckSources,
) -> DeckPuzzleModel {
    let shown = shown_of(deck.units, removed);
    let name = unit_name_or_id(map_model(src.meta.units@), removed);
    DeckPuzzleModel {
        carry_id: joined(deck.units, ","@),
        variant: removed,
        prompt: JsonModel::Object(
            seq![
                ("question"@, JsonModel::Str(label + " 덱에서 빠진 핵심 유닛은?"@)),
                ("deck_label"@, JsonModel::Str(label)),
                ("shown_units"@, unit_pictures(shown, src)),
                (
                    "synergies"@,
                    synergies_json(
                        synergies_of(traits_of(shown, map_model(src.meta.units@))),
                    ),
                ),
                ("patch"@, JsonModel::Str(src.patch@)),
            ],
        ),
        options: unit_pictures(ids, src),
        answer: removed,
        stats: JsonModel::Object(
            seq![
                ("deck_avg"@, JsonModel::Num(Number::Hundredths(deck.avg_placement))),
                ("deck_games"@, JsonModel::Num(Number::Int(deck.games))),
                ("answer"@, pictured(removed, name, icon_url(removed))),
                (
                    "options"@,
                    JsonModel::Array(
                        Seq::new(ids.len(), |i: int| told_option(ids[i], removed, src)),
                    ),
                ),
            ],
        ),
    }
}

fn shown_units(units: &Vec<String>, removed: &str) -> (r: Vec<String>)
    ensures
        views(r@) == shown_of(views(units@), removed@),
{
    let ghost all = views(units@);
    let ghost keep = |u: Seq<char>| u != removed@;
    let mut out: Vec<String> = Vec::new();
    let mut i: usize = 0;
    proof {
        reveal(Seq::filter);
        assert(views(out@) =~= all.take(0).filter(keep));
    }
    while i < units.len()
        invariant
            i <= units@.len(),
            all == views(units@),
            keep == (|u: Seq<char>| u != removed@),
            views(out@) == all.take(i as int).filter(keep),
        decreases units@.len() - i,
    {
        let ghost before = out@;
        proof {
            lemma_filter_step(all, i as int, keep);
        }
        if !str_eq(units[i].as_str(), removed) {
            out.push(units[i].clone());
            assert(views(out@) =~= views(before).push(all[i as int]));
        }
        i += 1;
    }
    assert(all.take(all.len() as int) == all);
    out
}

fn pictures(ids: &Vec<String>, src: &DeckSources) -> (r: Json)
    ensures
        r@ == unit_pictures(views(ids@), *src),
{
    let mut out: Vec<Json> = Vec::new();
    let mut i: usize = 0;
    while i < ids.len()
        invariant
            i <= ids@.len(),
            out@.len() == i,
            forall|k: int|
                0 <= k < i ==> (#[trigger] out@[k])@ == unit_picture(views(ids@)[k], *src),
        decreases ids@.len() - i,
    {
        let id = &ids[i];
        let icon = match src.unit_icons.get(id.as_str()) {
            Some(x) => x.clone(),
            None => String::new(),
        };
        let name = src.meta.unit_name(id.as_str());
        out.push(picture(id.as_str(), name.as_str(), icon.as_str()));
        i += 1;
    }
    assert(elements(out@) =~= unit_pictures(views(ids@), *src)->Array_0);
    Json::array(out)
}

fn synergies_to_json(s: &Vec<Synergy>) -> (r: Json)
    ensures
        r@ == synergies_json(models(s@)),
{
    let ghost goal = synergies_json(models(s@))->Array_0;
    let mut out: Vec<Json> = Vec::new();
    let mut i: usize = 0;
    while i < s.len()
        invariant
            i <= s@.len(),
            goal == synergies_json(models(s@))->Array_0,
            out@.len() == i,
            forall|k: int| 0 <= k < i ==> (#[trigger] out@[k])@ == goal[k],
        decreases s@.len() - i,
    {
        let n = s[i].count;
        let count = if n as u64 <= i64::MAX as u64 {
            Json::Num(Number::Int(n as i64))
        } else {
            Json::Num(Number::Big(n as u64))
        };
        let o = Json::object(
            vec![field("trait", Json::text(s[i].name.as_str())), field("count", count)],
        );
        assert(o@->Object_0 =~= goal[i as int]->Object_0);
        out.push(o);
        i += 1;
    }
    assert(elements(out@) =~= goal);
    Json::array(out)
}

fn told_options(ids: &Vec<String>, removed: &str, src: &DeckSources) -> (r: Json)
    ensures
        r@ == JsonModel::Array(
            Seq::new(
                views(ids@).len(),
                |i: int| told_option(views(ids@)[i], removed@, *src),
            ),
        ),
{
    let ghost goal = Seq::new(
        views(ids@).len(),
        |i: int| told_option(views(ids@)[i], removed@, *src),
    );
    let mut out: Vec<Json> = Vec::new();
    let mut i: usize = 0;
    while i < ids.len()
        invariant
            i <= ids@.len(),
            goal == Seq::new(
                views(ids@).len(),
                |i: int| told_option(views(ids@)[i], removed@, *src),
            ),
            out@.len() == i,
            forall|k: int| 0 <= k < i ==> (#[trigger] out@[k])@ == goal[k],
        decreases ids@.len() - i,
    {
        let id = &ids[i];
        let name = src.meta.unit_name(id.as_str());
        let o = Json::object(
            vec![
                field("id", Json::text(id.as_str())),
                field("name", Json::text(name.as_str())),
                field("is_best", Json::boolean(str_eq(id.as_str(), removed))),
            ],
        );
        assert(o@->Object_0 =~= goal[i as int]->Object_0);
        out.push(o);
        i += 1;
    }
    assert(elements(out@) =~= goal);
    Json::array(out)
}

/// The puzzle that leaves out `removed` and offers `option_ids`.
pub fn deck_puzzle(
    deck: &RawDeck,
    label: &str,
    removed: &str,
    option_ids: &Vec<String>,
    src: &DeckSources,
) -> (r: DeckPuzzleRow)
    ensures
        r@ == deck_puzzle_of(deck@, label@, removed@, views(option_ids@), *src),
{
    let ghost goal = deck_puzzle_of(deck@, label@, removed@, views(option_ids@), *src);
    let shown = shown_units(&deck.units, removed);
    let found = synergies(&shown, &src.meta);
    let mut question = label.to_string();
    question.append(" 덱에서 빠진 핵심 유닛은?");
    let prompt = Json::object(
        vec![
            field("question", Json::text(question.as_str())),
            field("deck_label", Json::text(label)),
            field("shown_units", pictures(&shown, src)),
            field("synergies", synergies_to_json(&found)),
            field("patch", Json::text(src.patch.as_str())),
        ],
    );
    assert(prompt@->Object_0 =~= goal.prompt->Object_0);
    let name = src.meta.unit_name(removed);
    let icon = cdragon_icon_url(removed);
    let stats = Json::object(
        vec![
            field("deck_avg", Json::hundredths(deck.avg_placement)),
            field("deck_games", Json::integer(deck.games)),
            field("answer", picture(removed, name.as_str(), icon.as_str())),
            field("options", told_options(option_ids, removed, src)),
        ],
    );
    assert(stats@->Object_0 =~= goal.stats->Object_0);
    DeckPuzzleRow {
        carry_id: join(&deck.units, ","),
        variant: removed.to_string(),
        prompt,
        options: pictures(option_ids, src),
        answer: removed.to_string(),
        stats,
    }
}

/// How many of the nearest units change places.
pub open spec fn head_of(n: nat) -> int {
    if n < NEAREST {
        n as int
    } else {
        NEAREST as int
    }
}

/// `ids` are the answer and the first three of `order`, in some order; `order` is `near` with
/// the first ten in some order.
pub open spec fn deck_options(
    ids: Seq<Seq<char>>,
    order: Seq<Seq<char>>,
    near: Seq<Seq<char>>,
    removed: Seq<char>,
) -> bool {
    let h = head_of(near.len());
    &&& order.len() == near.len()
    &&& order.take(h).to_multiset() == near.take(h).to_multiset()
    &&& order.skip(h) == near.skip(h)
    &&& ids.to_multiset() == (seq![removed] + order.take(N_OPTIONS - 1)).to_multiset()
}

/// `z` is a puzzle that leaves `removed` out of the deck.
pub open spec fn asks_deck(
    z: DeckPuzzleModel,
    deck: DeckModel,
    label: Seq<char>,
    removed: Seq<char>,
    pool: Seq<Seq<char>>,
    src: DeckSources,
) -> bool {
    exists|ids: Seq<Seq<char>>, order: Seq<Seq<char>>| #[trigger]
        deck_options(
            ids,
            order,
            by_cost(pool, deck.units, removed, src.unit_costs@),
            removed,
        ) && z == deck_puzzle_of(deck, label, removed, ids, src)
}

/// There are enough units of other decks.
pub open spec fn enough_outside(pool: Seq<Seq<char>>, deck: Seq<Seq<char>>) -> bool {
    pool.filter(|u: Seq<char>| !deck.contains(u)).len() >= N_OPTIONS - 1
}

/// A puzzle that leaves `removed` out of the deck; none where there are too few units of other
/// decks. Which of the nearest units are offered, and in what order the options stand, is left
/// to chance.
pub fn make_deck_puzzle(
    deck: &RawDeck,
    label: &str,
    removed: &str,
    pool: &Vec<String>,
    src: &DeckSources,
) -> (r: Option<DeckPuzzleRow>)
    ensures
        match r {
            Some(z) => enough_outside(views(pool@), deck@.units) && asks_deck(
                z@,
                deck@,
                label@,
                removed@,
                views(pool@),
                *src,
            ),
            None => !enough_outside(views(pool@), deck@.units),
        },
{
    let near = distractors_by_cost(pool, &deck.units, removed, &src.unit_costs);
    let ghost all = by_cost(views(pool@), deck@.units, removed@, src.unit_costs@);
    proof {
        lemma_sorted_permutes::<Near>(
            outside(views(pool@), deck@.units, removed@, src.unit_costs@),
        );
        assert(views(near@).len() == near@.len());
    }
    let head = if near.len() < NEAREST {
        near.len()
    } else {
        NEAREST
    };
    let ghost near0 = near@;
    let mut order = shuffle_head(near, head);
    let ghost order0 = order@;
    proof {
        lemma_views_multiset(order0.take(head as int), near0.take(head as int));
        assert(views(order0).take(head as int) =~= views(order0.take(head as int)));
        assert(views(near0).take(head as int) =~= views(near0.take(head as int)));
        assert(views(order0).skip(head as int) =~= views(order0.skip(head as int)));
        assert(views(near0).skip(head as int) =~= views(near0.skip(head as int)));
    }
    if order.len() < N_OPTIONS - 1 {
        return None;
    }
    order.truncate(N_OPTIONS - 1);
    assert(views(order@) =~= views(order0).take(N_OPTIONS - 1));
    let mut option_ids: Vec<String> = vec![removed.to_string()];
    let ghost wrong = views(order@);
    option_ids.append(&mut order);
    let ghost before = option_ids@;
    assert(views(before) =~= seq![removed@] + wrong);
    let option_ids = shuffled(option_ids);
    proof {
        lemma_views_multiset(option_ids@, before);
        assert(deck_options(views(option_ids@), views(order0), all, removed@));
    }
    Some(deck_puzzle(deck, label, removed, &option_ids, src))
}

/// The puzzles of a deck: one for each unit that can be asked for.
pub fn deck_puzzles(
    deck: &RawDeck,
    label: &str,
    pool: &Vec<String>,
    src: &DeckSources,
) -> (r: Vec<DeckPuzzleRow>)
    ensures
        r@.len() == if enough_outside(views(pool@), deck@.units) {
            core_of(deck@.units, src.unit_appears@, src.total_boards).len()
        } else {
            0
        },
        forall|k: int|
            0 <= k < r@.len() ==> asks_deck(
                (#[trigger] r@[k])@,
                deck@,
                label@,
                core_of(deck@.units, src.unit_appears@, src.total_boards)[k],
                views(pool@),
                *src,
            ),
{
    let core = signature_core(&deck.units, &src.unit_appears, src.total_boards);
    let ghost asked = views(core@);
    let ghost enough = enough_outside(views(pool@), deck@.units);
    let mut out: Vec<DeckPuzzleRow> = Vec::new();
    let mut i: usize = 0;
    while i < core.len()
        invariant
            i <= core@.len(),
            asked == views(core@),
            enough == enough_outside(views(pool@), deck@.units),
            out@.len() == if enough {
                i as nat
            } else {
                0
            },
            forall|k: int|
                0 <= k < out@.len() ==> asks_deck(
                    (#[trigger] out@[k])@,
                    deck@,
                    label@,
                    asked[k],
                    views(pool@),
                    *src,
                ),
        decreases core@.len() - i,
    {
        match make_deck_puzzle(deck, label, core[i].as_str(), pool, src) {
            Some(z) => {
                assert(asked[i as int] == core@[i as int]@);
                out.push(z);
            },
            None => {},
        }
        i += 1;
    }
    out
}

/// What is stored of all decks.
#[derive(Debug)]
pub struct DeckQuiz {
    pub decks: Vec<DeckStatRow>,
    pub puzzles: Vec<DeckPuzzleRow>,
}

/// The units that are asked for, each with the place of its deck.
pub open spec fn asked_in(
    decks: Seq<DeckModel>,
    pool: Seq<Seq<char>>,
    src: DeckSources,
) -> Seq<(int, Seq<char>)>
    decreases decks.len(),
{
    if decks.len() == 0 {
        Seq::empty()
    } else {
        let rest = asked_in(decks.drop_last(), pool, src);
        let deck = decks.last();
        if enough_outside(pool, deck.units) {
            let core = core_of(deck.units, src.unit_appears@, src.total_boards);
            rest + Seq::new(core.len(), |i: int| (decks.len() - 1, core[i]))
        } else {
            rest
        }
    }
}

/// `zs` are puzzles about the given units of the given decks.
pub open spec fn ask_for(
    zs: Seq<DeckPuzzleRow>,
    asked: Seq<(int, Seq<char>)>,
    decks: Seq<DeckModel>,
    labels: Seq<Seq<char>>,
    pool: Seq<Seq<char>>,
    src: DeckSources,
) -> bool {
    zs.len() == asked.len() && forall|k: int|
        0 <= k < zs.len() ==> asks_deck(
            (#[trigger] zs[k])@,
            decks[asked[k].0],
            labels[asked[k].0],
            asked[k].1,
            pool,
            src,
        )
}

/// What is stored of all decks: how each did, and its puzzles. The wrong options of each are
/// the units of the others.
pub fn make_deck_quiz(decks: &Vec<RawDeck>, labels: &Vec<String>, src: &DeckSources) -> (r: DeckQuiz)
    requires
        labels@.len() == decks@.len(),
    ensures
        r.decks@.len() == decks@.len(),
        forall|k: int|
            0 <= k < decks@.len() ==> (#[trigger] r.decks@[k])@ == deck_row_of(
                decks@[k]@,
                labels@[k]@,
                src.meta,
                src.carry_items@,
                src.star3@,
            ),
        ask_for(
            r.puzzles@,
            asked_in(models(decks@), distinct(units_of(models(decks@))), *src),
            models(decks@),
            views(labels@),
            distinct(units_of(models(decks@))),
            *src,
        ),
{
    let pool = meta_pool(decks);
    let ghost all = models(decks@);
    let ghost units = views(pool@);
    let ghost names = views(labels@);
    let mut rows: Vec<DeckStatRow> = Vec::new();
    let mut puzzles: Vec<DeckPuzzleRow> = Vec::new();
    let mut i: usize = 0;
    while i < decks.len()
        invariant
            i <= decks@.len(),
            labels@.len() == decks@.len(),
            all == models(decks@),
            names == views(labels@),
            units == views(pool@),
            rows@.len() == i,
            forall|k: int|
                0 <= k < i ==> (#[trigger] rows@[k])@ == deck_row_of(
                    decks@[k]@,
                    labels@[k]@,
                    src.meta,
                    src.carry_items@,
                    src.star3@,
                ),
            ask_for(
                puzzles@,
                asked_in(all.take(i as int), units, *src),
                all,
                names,
                units,
                *src,
            ),
        decreases decks@.len() - i,
    {
        let deck = &decks[i];
        let label = &labels[i];
        rows.push(
            deck_row(deck, label.as_str(), &src.meta, &src.carry_items, &src.star3),
        );
        let ghost before = puzzles@;
        let mut more = deck_puzzles(deck, label.as_str(), &pool, src);
        let ghost added = more@;
        puzzles.append(&mut more);
        proof {
            let a = asked_in(all.take(i as int), units, *src);
            let b = asked_in(all.take(i + 1), units, *src);
            assert(all.take(i + 1).drop_last() == all.take(i as int));
            assert(all.take(i + 1).last() == deck@);
            assert(puzzles@ =~= before + added);
            assert forall|k: int| 0 <= k < puzzles@.len() implies asks_deck(
                (#[trigger] puzzles@[k])@,
                all[b[k].0],
                names[b[k].0],
                b[k].1,
                units,
                *src,
            ) by {
                if k < before.len() {
                    assert(puzzles@[k] == before[k]);
                    assert(b[k] == a[k]);
                } else {
                    assert(puzzles@[k] == added[k - before.len()]);
                    assert(all[i as int] == deck@);
                    assert(names[i as int] == label@);
                }
            }
        }
        i += 1;
    }
    assert(all.take(all.len() as int) == all);
    DeckQuiz { decks: rows, puzzles }
}

// ---------------------------------------------------------------- laws

proof fn lemma_by_cost(
    pool: Seq<Seq<char>>,
    deck: Seq<Seq<char>>,
    removed: Seq<char>,
    costs: Map<Seq<char>, i32>,
)
    ensures
        by_cost(pool, deck, removed, costs).to_multiset() == pool.filter(
            |u: Seq<char>| !deck.contains(u),
        ).to_multiset(),
{
    let s = outside(pool, deck, removed, costs);
    let f = pool.filter(|u: Seq<char>| !deck.contains(u));
    lemma_sorted_permutes::<Near>(s);
    let ids = |x: NearModel| x.id;
    crate::seqs::lemma_images_multiset(sorted::<Near>(s), s, ids);
    assert(sorted::<Near>(s).map_values(ids) =~= by_cost(pool, deck, removed, costs));
    assert(s.map_values(ids) =~= f);
}

/// A deck puzzle has four options: the unit that is missing and three that are not in the
/// deck. Where the pool has no unit twice, no option comes twice.
pub proof fn lemma_deck_options(
    ids: Seq<Seq<char>>,
    order: Seq<Seq<char>>,
    pool: Seq<Seq<char>>,
    deck: Seq<Seq<char>>,
    removed: Seq<char>,
    costs: Map<Seq<char>, i32>,
)
    requires
        deck_options(ids, order, by_cost(pool, deck, removed, costs), removed),
        enough_outside(pool, deck),
        deck.contains(removed),
    ensures
        ids.len() == 4,
        ids.contains(removed),
        forall|i: int|
            0 <= i < ids.len() ==> #[trigger] ids[i] == removed || (pool.contains(ids[i])
                && !deck.contains(ids[i])),
        pool.no_duplicates() ==> ids.no_duplicates(),
{
    broadcast use {
        vstd::seq_lib::group_to_multiset_ensures,
        vstd::multiset::group_multiset_axioms,
    };

    let near = by_cost(pool, deck, removed, costs);
    let keep = |u: Seq<char>| !deck.contains(u);
    let f = pool.filter(keep);
    let h = head_of(near.len());
    lemma_by_cost(pool, deck, removed, costs);
    lemma_filter_elements(pool, keep);
    assert(near.len() == near.to_multiset().len());
    assert(f.len() == f.to_multiset().len());
    assert(order.to_multiset() == near.to_multiset()) by {
        assert(order =~= order.take(h) + order.skip(h));
        assert(near =~= near.take(h) + near.skip(h));
        vstd::seq_lib::lemma_multiset_commutative(order.take(h), order.skip(h));
        vstd::seq_lib::lemma_multiset_commutative(near.take(h), near.skip(h));
    }
    let wrong = order.take(3);
    let all = seq![removed] + wrong;
    assert(ids.len() == ids.to_multiset().len());
    assert(all.len() == all.to_multiset().len());
    assert forall|k: int| 0 <= k < 3 implies pool.contains(#[trigger] wrong[k]) && !deck.contains(
        wrong[k],
    ) by {
        assert(order.contains(order[k]));
        assert(f.to_multiset().count(wrong[k]) > 0);
        assert(f.contains(wrong[k]));
        let m = choose|m: int| 0 <= m < f.len() && f[m] == wrong[k];
        assert(keep(f[m]) && pool.contains(f[m]));
    }
    assert(all[0] == removed);
    assert(all.contains(removed));
    assert(ids.to_multiset().count(removed) > 0);
    assert forall|i: int| 0 <= i < ids.len() implies #[trigger] ids[i] == removed || (
    pool.contains(ids[i]) && !deck.contains(ids[i])) by {
        assert(ids.contains(ids[i]));
        assert(all.to_multiset().count(ids[i]) > 0);
        assert(all.contains(ids[i]));
        let k = choose|k: int| 0 <= k < all.len() && all[k] == ids[i];
        if k > 0 {
            assert(wrong[k - 1] == ids[i]);
        }
    }
    if pool.no_duplicates() {
        lemma_filter_distinct(pool, keep);
        f.lemma_multiset_has_no_duplicates();
        order.lemma_multiset_has_no_duplicates_conv();
        assert(all.no_duplicates()) by {
            assert forall|i: int, j: int| 0 <= i < j < all.len() implies all[i] != all[j] by {
                assert(all[j] == wrong[j - 1]);
                if i > 0 {
                    assert(all[i] == wrong[i - 1]);
                    assert(order[i - 1] != order[j - 1]);
                }
            }
        }
        all.lemma_multiset_has_no_duplicates();
        ids.lemma_multiset_has_no_duplicates_conv();
    }
}

/// What a deck puzzle offers: four units, the missing one among them, the others not of the
/// deck; and the missing unit is not among those that are shown.
pub proof fn lemma_deck_puzzle(
    z: DeckPuzzleModel,
    deck: DeckModel,
    label: Seq<char>,
    removed: Seq<char>,
    pool: Seq<Seq<char>>,
    src: DeckSources,
)
    requires
        asks_deck(z, deck, label, removed, pool, src),
        enough_outside(pool, deck.units),
        deck.units.contains(removed),
    ensures
        z.answer == removed,
        !shown_of(deck.units, removed).contains(removed),
        exists|ids: Seq<Seq<char>>|
            #![trigger unit_pictures(ids, src)]
            {
                &&& z.options == unit_pictures(ids, src)
                &&& ids.len() == 4
                &&& ids.contains(z.answer)
                &&& forall|i: int|
                    0 <= i < 4 && #[trigger] ids[i] != z.answer ==> !deck.units.contains(ids[i])
                &&& pool.no_duplicates() ==> ids.no_duplicates()
            },
{
    let near = by_cost(pool, deck.units, removed, src.unit_costs@);
    let (ids, order) = choose|ids: Seq<Seq<char>>, order: Seq<Seq<char>>| #[trigger]
        deck_options(ids, order, near, removed) && z == deck_puzzle_of(
            deck,
            label,
            removed,
            ids,
            src,
        );
    lemma_deck_options(ids, order, pool, deck.units, removed, src.unit_costs@);
    assert(z.options == unit_pictures(ids, src));
    let keep = |u: Seq<char>| u != removed;
    let shown = shown_of(deck.units, removed);
    lemma_filter_elements(deck.units, keep);
    if shown.contains(removed) {
        let i = choose|i: int| 0 <= i < shown.len() && shown[i] == removed;
        assert(keep(shown[i]));
    }
}

/// A deck is known by its units, in whatever order they are listed.
pub proof fn lemma_key_ignores_order(a: Seq<Seq<char>>, b: Seq<Seq<char>>)
    requires
        a.to_multiset() == b.to_multiset(),
    ensures
        key_of(a) == key_of(b),
{
    crate::order::lemma_sorted_determined::<String>(a, b);
    let x = sorted::<String>(a);
    let y = sorted::<String>(b);
    assert(x =~= y) by {
        assert forall|i: int| 0 <= i < x.len() implies x[i] == y[i] by {
            crate::order::lemma_lex_total(x[i], y[i]);
        }
    }
}

/// The synergies of a deck: each trait that at least two units have, once, with how many have
/// it; the more frequent before the less frequent.
pub proof fn lemma_synergies(traits: Seq<Seq<char>>)
    ensures
        in_order::<Synergy>(synergies_of(traits)),
        forall|i: int|
            0 <= i < synergies_of(traits).len() ==> (#[trigger] synergies_of(traits)[i]).count
                == occurrences(traits, synergies_of(traits)[i].name) && synergies_of(
                traits,
            )[i].count >= 2,
        forall|t: Seq<char>| #[trigger]
            occurrences(traits, t) >= 2 ==> exists|i: int|
                0 <= i < synergies_of(traits).len() && (#[trigger] synergies_of(
                    traits,
                )[i]).name == t,
{
    broadcast use vstd::seq_lib::group_to_multiset_ensures;

    let keep = |t: Seq<char>| occurrences(traits, t) >= 2;
    let d = distinct(traits);
    let f = d.filter(keep);
    let r = repeated(traits);
    let s = synergies_of(traits);
    lemma_distinct(traits);
    lemma_filter_elements(d, keep);
    lemma_sorted_permutes::<Synergy>(r);
    lemma_sorted_in_order::<Synergy>(r);
    assert forall|i: int| 0 <= i < s.len() implies (#[trigger] s[i]).count == occurrences(
        traits,
        s[i].name,
    ) && s[i].count >= 2 by {
        assert(s.contains(s[i]));
        assert(r.to_multiset().count(s[i]) > 0);
        assert(r.contains(s[i]));
        let k = choose|k: int| 0 <= k < r.len() && r[k] == s[i];
        assert(keep(f[k]));
    }
    assert forall|t: Seq<char>| #[trigger] occurrences(traits, t) >= 2 implies exists|i: int|
        0 <= i < s.len() && (#[trigger] s[i]).name == t by {
        assert(d.contains(t));
        assert(keep(t));
        assert(f.contains(t));
        let k = choose|k: int| 0 <= k < f.len() && f[k] == t;
        assert(r.contains(r[k]));
        assert(s.to_multiset().count(r[k]) > 0);
        assert(s.contains(r[k]));
        let i = choose|i: int| 0 <= i < s.len() && s[i] == r[k];
        assert(s[i].name == t);
    }
}

/// Where there are boards, a unit of the deck can be asked for exactly where it stood on at most
/// three tenths of them; the units keep their order.
pub proof fn lemma_core_is_seldom(
    units: Seq<Seq<char>>,
    appears: Map<Seq<char>, i64>,
    boards: i64,
)
    requires
        boards > 0,
    ensures
        forall|u: Seq<char>| #[trigger]
            core_of(units, appears, boards).contains(u) <==> units.contains(u) && (
            appears.contains_key(u) ==> 10 * appears[u] <= 3 * boards),
        core_of(units, appears, boards) == units.filter(
            |u: Seq<char>| appears.contains_key(u) ==> 10 * appears[u] <= 3 * boards,
        ),
{
    let p = |u: Seq<char>|
        at_most_three_tenths(boards_with(appears, u) as int, boards as int);
    let q = |u: Seq<char>| appears.contains_key(u) ==> 10 * appears[u] <= 3 * boards;
    crate::seqs::lemma_filter_alike(units, p, q);
    lemma_filter_elements(units, q);
    let f = units.filter(q);
    assert forall|u: Seq<char>| #[trigger] f.contains(u) implies units.contains(u) && q(u) by {
        let k = choose|k: int| 0 <= k < f.len() && f[k] == u;
        assert(q(f[k]) && units.contains(f[k]));
    }
}

/// Only shares count: with as many times the appearances on as many times the boards, the same
/// units can be asked for.
pub proof fn lemma_core_by_shares(
    units: Seq<Seq<char>>,
    appears: Map<Seq<char>, i64>,
    boards: i64,
    more: Map<Seq<char>, i64>,
    more_boards: i64,
    k: int,
)
    requires
        boards > 0,
        k > 0,
        more_boards == k * boards,
        more.dom() == appears.dom(),
        forall|u: Seq<char>| #[trigger]
            appears.contains_key(u) ==> more.contains_key(u) && more[u] == k * appears[u],
    ensures
        core_of(units, more, more_boards) == core_of(units, appears, boards),
{
    assert(more_boards > 0) by (nonlinear_arith)
        requires
            boards > 0,
            k > 0,
            more_boards == k * boards,
    ;
    lemma_core_is_seldom(units, appears, boards);
    lemma_core_is_seldom(units, more, more_boards);
    let p = |u: Seq<char>| more.contains_key(u) ==> 10 * more[u] <= 3 * more_boards;
    let q = |u: Seq<char>| appears.contains_key(u) ==> 10 * appears[u] <= 3 * boards;
    assert forall|i: int| 0 <= i < units.len() implies p(#[trigger] units[i]) == q(units[i]) by {
        let u = units[i];
        if appears.contains_key(u) {
            let n = appears[u] as int;
            let m = more[u] as int;
            let b = boards as int;
            assert(10 * (k * n) <= 3 * (k * b) <==> 10 * n <= 3 * b) by (nonlinear_arith)
                requires
                    k > 0,
            ;
        } else {
            assert(!more.dom().contains(u));
        }
    }
    crate::seqs::lemma_filter_alike(units, p, q);
}

/// A deck needs one game for every two hundred matches, and thirty however few there are.
pub proof fn lemma_games_needed(total_matches: i64)
    ensures
        deck_games_needed(total_matches) >= 30,
        total_matches < 6000 ==> deck_games_needed(total_matches) == 30,
        total_matches >= 6000 ==> deck_games_needed(total_matches) * 200 <= total_matches
            < deck_games_needed(total_matches) * 200 + 200,
{
}

/// Decks place well at a mean of 5.0 or better.
pub proof fn lemma_placing_well(raw: Seq<DeckModel>)
    ensures
        forall|d: DeckModel| #[trigger]
            placing_well(raw).contains(d) <==> raw.contains(d) && d.avg_placement <= 500,
{
    let p = |d: DeckModel| d.avg_placement <= 500;
    lemma_filter_elements(raw, p);
    let f = raw.filter(p);
    assert forall|d: DeckModel| #[trigger] f.contains(d) implies raw.contains(d) && p(d) by {
        let k = choose|k: int| 0 <= k < f.len() && f[k] == d;
        assert(p(f[k]) && raw.contains(f[k]));
    }
}

/// The decks of the top tier are the clusters of decks with seven units in common that place at
/// 4.5 or better, or at 5.0 or better over enough games: each by its core, all of its games and
/// its best mean.
pub proof fn lemma_tier_decks(raw: Seq<DeckModel>, total_matches: i64)
    ensures
        ({
            let n = deck_games_needed(total_matches);
            let f = clusters_of(raw, 7).filter(
                |c: ClusterModel|
                    c.best_avg <= 450 || (c.best_avg <= 500 && c.total_games >= n),
            );
            &&& tier_decks_of(raw, total_matches).len() == f.len()
            &&& forall|i: int|
                #![trigger tier_decks_of(raw, total_matches)[i]]
                0 <= i < f.len() ==> {
                    &&& tier_decks_of(raw, total_matches)[i].units == f[i].core
                    &&& tier_decks_of(raw, total_matches)[i].games == f[i].total_games as i64
                    &&& tier_decks_of(raw, total_matches)[i].avg_placement == f[i].best_avg
                }
        }),
{
    let n = deck_games_needed(total_matches);
    let p = |c: ClusterModel| worth_showing(c, deck_games_needed(total_matches));
    let q = |c: ClusterModel| c.best_avg <= 450 || (c.best_avg <= 500 && c.total_games >= n);
    crate::seqs::lemma_filter_alike(clusters_of(raw, 7), p, q);
}

/// The units of all decks are the units of each.
pub proof fn lemma_units_of(decks: Seq<DeckModel>, u: Seq<char>)
    ensures
        units_of(decks).contains(u) <==> exists|i: int|
            0 <= i < decks.len() && (#[trigger] decks[i]).units.contains(u),
    decreases decks.len(),
{
    if decks.len() > 0 {
        let t = decks.drop_last();
        let a = units_of(t);
        let b = decks.last().units;
        lemma_units_of(t, u);
        if units_of(decks).contains(u) {
            let k = choose|k: int| 0 <= k < units_of(decks).len() && units_of(decks)[k] == u;
            if k < a.len() {
                assert(a[k] == u);
                let i = choose|i: int| 0 <= i < t.len() && (#[trigger] t[i]).units.contains(u);
                assert(decks[i] == t[i]);
            } else {
                assert(b[k - a.len()] == u);
                assert(decks[decks.len() - 1].units.contains(u));
            }
        }
        if exists|i: int| 0 <= i < decks.len() && (#[trigger] decks[i]).units.contains(u) {
            let i = choose|i: int| 0 <= i < decks.len() && (#[trigger] decks[i]).units.contains(u);
            if i < t.len() {
                assert(t[i] == decks[i]);
                let k = choose|k: int| 0 <= k < a.len() && a[k] == u;
                assert(units_of(decks)[k] == u);
            } else {
                let k = choose|k: int| 0 <= k < b.len() && b[k] == u;
                assert(units_of(decks)[a.len() + k] == u);
            }
        }
    }
}

/// A deck is labelled by its leading trait; without one by its first unit.
pub proof fn lemma_labels(leading: Seq<char>, units: Seq<Seq<char>>)
    ensures
        label_of(Some(leading), units) == "trait:"@ + leading,
        units.len() > 0 ==> label_of(None, units) == "unit:"@ + units[0],
        units.len() == 0 ==> label_of(None, units).len() == 0,
{
}

/// The key of a deck is its units in the order of strings, with commas between them.
pub proof fn lemma_key(units: Seq<Seq<char>>)
    ensures
        exists|s: Seq<Seq<char>>|
            #![trigger s.to_multiset()]
            s.to_multiset() == units.to_multiset() && key_of(units) == joined(s, ","@) && forall|
                i: int,
                j: int,
            |
                0 <= i < j < s.len() ==> !lex_lt(#[trigger] s[j], #[trigger] s[i]),
{
    let s = sorted::<String>(units);
    lemma_sorted_permutes::<String>(units);
    lemma_sorted_in_order::<String>(units);
    assert forall|i: int, j: int| 0 <= i < j < s.len() implies !lex_lt(
        #[trigger] s[j],
        #[trigger] s[i],
    ) by {
        assert(!<String as Ordered>::before(s[j], s[i]));
    }
    assert(s.to_multiset() == units.to_multiset());
}

/// What is told of a unit of a deck: its name, its items where they are known, and how often it
/// has three stars where that is two times in five or more and the unit costs three or less.
pub proof fn lemma_deck_unit(
    id: Seq<char>,
    meta: Meta,
    carry_items: Map<Seq<char>, Vec<CarryItem>>,
    star3: Map<Seq<char>, i32>,
)
    ensures
        ({
            let z = deck_unit(id, meta, carry_items, star3);
            let cost = if meta.units@.contains_key(id) {
                meta.units@[id].cost
            } else {
                0
            };
            &&& z.get("id"@) == Some(JsonModel::Str(id))
            &&& meta.units@.contains_key(id) ==> z.get("name"@) == Some(
                JsonModel::Str(meta.units@[id].name@),
            )
            &&& !meta.units@.contains_key(id) ==> z.get("name"@) == Some(JsonModel::Str(id))
            &&& z.get("items"@) is Some <==> carry_items.contains_key(id)
            &&& carry_items.contains_key(id) ==> z.list_at("items"@).len()
                == carry_items[id]@.len() && forall|i: int|
                #![trigger z.list_at("items"@)[i]]
                0 <= i < carry_items[id]@.len() ==> {
                    let it = carry_items[id]@[i];
                    &&& z.list_at("items"@)[i].get("id"@) == Some(JsonModel::Str(it.item_id@))
                    &&& z.list_at("items"@)[i].get("name"@) == Some(JsonModel::Str(it.name@))
                    &&& z.list_at("items"@)[i].get("icon"@) == Some(JsonModel::Str(it.icon@))
                }
            &&& z.get("star3_ratio"@) is Some <==> star3.contains_key(id) && star3[id] >= 40 && cost
                <= 3
            &&& star3.contains_key(id) && star3[id] >= 40 && cost <= 3 ==> z.get("star3_ratio"@)
                == Some(JsonModel::Num(Number::Int(star3[id] as i64)))
        }),
{
    reveal_strlit("id");
    reveal_strlit("name");
    reveal_strlit("items");
    reveal_strlit("star3_ratio");
    assert("id"@.len() != "name"@.len());
    assert("id"@.len() != "items"@.len());
    assert("name"@.len() != "items"@.len());
    assert("id"@.len() != "star3_ratio"@.len());
    assert("name"@.len() != "star3_ratio"@.len());
    assert("items"@.len() != "star3_ratio"@.len());

    let z = deck_unit(id, meta, carry_items, star3);
    let o = z->Object_0;
    lemma_member(o, 0);
    lemma_member(o, 1);
    let has_items = carry_items.contains_key(id);
    let has_stars = star3.contains_key(id) && tells_star3(
        star3[id],
        unit_cost_or(map_model(meta.units@), id, 0),
    );
    if has_items {
        assert(o[2].0 == "items"@);
        lemma_member(o, 2);
        assert forall|i: int|
            #![trigger z.list_at("items"@)[i]]
            0 <= i < carry_items[id]@.len() implies ({
            let it = carry_items[id]@[i];
            &&& z.list_at("items"@)[i].get("id"@) == Some(JsonModel::Str(it.item_id@))
            &&& z.list_at("items"@)[i].get("name"@) == Some(JsonModel::Str(it.name@))
            &&& z.list_at("items"@)[i].get("icon"@) == Some(JsonModel::Str(it.icon@))
        }) by {
            let it = carry_items[id]@[i];
            lemma_pictured(it.item_id@, it.name@, it.icon@);
        }
    } else {
        crate::json::lemma_no_member(z, "items"@);
    }
    if has_stars {
        assert(o[o.len() - 1].0 == "star3_ratio"@);
        lemma_member(o, o.len() - 1);
    } else {
        crate::json::lemma_no_member(z, "star3_ratio"@);
    }
}

/// A picture has its id, name and icon each under its own name.
pub proof fn lemma_pictured(id: Seq<char>, name: Seq<char>, icon: Seq<char>)
    ensures
        pictured(id, name, icon).get("id"@) == Some(JsonModel::Str(id)),
        pictured(id, name, icon).get("name"@) == Some(JsonModel::Str(name)),
        pictured(id, name, icon).get("icon"@) == Some(JsonModel::Str(icon)),
{
    reveal_strlit("id");
    reveal_strlit("name");
    reveal_strlit("icon");
    assert("id"@.len() != "name"@.len());
    assert("id"@.len() != "icon"@.len());
    assert("name"@[0] != "icon"@[0]);

    let o = pictured(id, name, icon)->Object_0;
    lemma_member(o, 0);
    lemma_member(o, 1);
    lemma_member(o, 2);

}

/// What is stored of a deck is the deck: its key, label, mean and games, and its units in order.
pub proof fn lemma_deck_row(
    deck: DeckModel,
    label: Seq<char>,
    meta: Meta,
    carry_items: Map<Seq<char>, Vec<CarryItem>>,
    star3: Map<Seq<char>, i32>,
)
    ensures
        ({
            let z = deck_row_of(deck, label, meta, carry_items, star3);
            &&& z.deck_key == key_of(deck.units)
            &&& z.label == label
            &&& z.avg_placement == deck.avg_placement
            &&& z.games == deck.games
            &&& z.units.as_array() is Some
            &&& z.units.as_array()->0.len() == deck.units.len()
            &&& forall|i: int|
                #![trigger z.units.as_array()->0[i]]
                0 <= i < deck.units.len() ==> z.units.as_array()->0[i] == deck_unit(
                    deck.units[i],
                    meta,
                    carry_items,
                    star3,
                )
        }),
{
}

/// The units that may be offered beside the missing one are those of the pool that are not of
/// the deck, the nearest in cost first; a unit of unknown cost counts as costing nothing.
pub proof fn lemma_nearest_first(
    pool: Seq<Seq<char>>,
    deck: Seq<Seq<char>>,
    removed: Seq<char>,
    costs: Map<Seq<char>, i32>,
)
    ensures
        ({
            let s = by_cost(pool, deck, removed, costs);
            let cost = |u: Seq<char>|
                if costs.contains_key(u) {
                    costs[u] as int
                } else {
                    0int
                };
            &&& s.to_multiset() == pool.filter(|u: Seq<char>| !deck.contains(u)).to_multiset()
            &&& forall|i: int, j: int|
                #![trigger s[i], s[j]]
                0 <= i < j < s.len() ==> {
                    let near = cost(s[i]) - cost(removed);
                    let far = cost(s[j]) - cost(removed);
                    (near <= far || near <= -far) && (-near <= far || -near <= -far)
                }
        }),
{
    let out = outside(pool, deck, removed, costs);
    let f = pool.filter(|u: Seq<char>| !deck.contains(u));
    let r = sorted::<Near>(out);
    let s = by_cost(pool, deck, removed, costs);
    lemma_sorted_permutes::<Near>(out);
    lemma_sorted_in_order::<Near>(out);
    let ids = |n: NearModel| n.id;
    crate::seqs::lemma_images_multiset(r, out, ids);
    assert(r.map_values(ids) =~= s);
    assert(out.map_values(ids) =~= f);
    let cost = |u: Seq<char>|
        if costs.contains_key(u) {
            costs[u] as int
        } else {
            0int
        };
    assert forall|i: int| 0 <= i < r.len() implies (#[trigger] r[i]).distance == apart(
        cost_in(costs, r[i].id),
        cost_in(costs, removed),
    ) by {
        broadcast use vstd::seq_lib::group_to_multiset_ensures;

        assert(r.contains(r[i]));
        assert(r.to_multiset().count(r[i]) > 0);
        assert(out.contains(r[i]));
        let k = choose|k: int| 0 <= k < out.len() && out[k] == r[i];
        assert(out[k].id == f[k]);
    }
    assert forall|i: int, j: int| #![trigger s[i], s[j]] 0 <= i < j < s.len() implies ({
        let near = cost(s[i]) - cost(removed);
        let far = cost(s[j]) - cost(removed);
        (near <= far || near <= -far) && (-near <= far || -near <= -far)
    }) by {
        assert(!<Near as Ordered>::before(r[j], r[i]));
        assert(s[i] == r[i].id && s[j] == r[j].id);
    }
}

/// Beside the missing unit only units are offered that are among the ten nearest in cost, or
/// among all there are where there are fewer.
pub proof fn lemma_offered_are_near(
    ids: Seq<Seq<char>>,
    order: Seq<Seq<char>>,
    pool: Seq<Seq<char>>,
    deck: Seq<Seq<char>>,
    removed: Seq<char>,
    costs: Map<Seq<char>, i32>,
)
    requires
        deck_options(ids, order, by_cost(pool, deck, removed, costs), removed),
        enough_outside(pool, deck),
    ensures
        forall|i: int|
            0 <= i < ids.len() ==> #[trigger] ids[i] == removed || exists|k: int|
                0 <= k < 10 && k < by_cost(pool, deck, removed, costs).len() && by_cost(
                    pool,
                    deck,
                    removed,
                    costs,
                )[k] == ids[i],
{
    broadcast use vstd::seq_lib::group_to_multiset_ensures;

    let near = by_cost(pool, deck, removed, costs);
    lemma_nearest_first(pool, deck, removed, costs);
    let f = pool.filter(|u: Seq<char>| !deck.contains(u));
    assert(near.len() == near.to_multiset().len() && f.len() == f.to_multiset().len());
    let h = head_of(near.len());
    let all = seq![removed] + order.take(3);
    assert forall|i: int| 0 <= i < ids.len() implies #[trigger] ids[i] == removed || exists|k: int|
        0 <= k < 10 && k < near.len() && near[k] == ids[i] by {
        let x = ids[i];
        assert(ids.contains(x));
        assert(ids.to_multiset().count(x) > 0);
        assert(all.to_multiset().count(x) > 0);
        assert(all.contains(x));
        let m = choose|m: int| 0 <= m < all.len() && all[m] == x;
        if m > 0 {
            assert(order.take(h)[m - 1] == x);
            assert(order.take(h).contains(x));
            assert(order.take(h).to_multiset().count(x) > 0);
            assert(near.take(h).contains(x));
            let k = choose|k: int| 0 <= k < h && near.take(h)[k] == x;
            assert(near[k] == x);
        }
    }
}

/// There are enough units outside a deck where the pool has three that are not of it.
pub proof fn lemma_enough_outside(pool: Seq<Seq<char>>, deck: Seq<Seq<char>>)
    ensures
        enough_outside(pool, deck) <==> pool.filter(|u: Seq<char>| !deck.contains(u)).len() >= 3,
{
}

/// How often a trait is had is how many of the units that are known have it, each time that it
/// is listed.
pub proof fn lemma_traits_add_up(
    units: Seq<Seq<char>>,
    u: Seq<char>,
    meta: Map<Seq<char>, UnitMetaModel>,
    t: Seq<char>,
)
    ensures
        occurrences(traits_of(Seq::empty(), meta), t) == 0,
        meta.contains_key(u) ==> occurrences(traits_of(units.push(u), meta), t) == occurrences(
            traits_of(units, meta),
            t,
        ) + occurrences(meta[u].traits, t),
        !meta.contains_key(u) ==> occurrences(traits_of(units.push(u), meta), t) == occurrences(
            traits_of(units, meta),
            t,
        ),
{
    assert(units.push(u).drop_last() =~= units);
    if meta.contains_key(u) {
        lemma_occurrences_sum(traits_of(units, meta), meta[u].traits, t);
    }
}

proof fn lemma_occurrences_sum(a: Seq<Seq<char>>, b: Seq<Seq<char>>, t: Seq<char>)
    ensures
        occurrences(a + b, t) == occurrences(a, t) + occurrences(b, t),
    decreases b.len(),
{
    if b.len() == 0 {
        assert(a + b =~= a);
    } else {
        lemma_occurrences_sum(a, b.drop_last(), t);
        assert((a + b).drop_last() =~= a + b.drop_last());
    }
}

/// The more units share a trait, the earlier it is told; of two that as many share, the one
/// whose name comes first.
pub proof fn lemma_synergies_in_order(traits: Seq<Seq<char>>)
    ensures
        forall|i: int, j: int|
            #![trigger synergies_of(traits)[i], synergies_of(traits)[j]]
            0 <= i < j < synergies_of(traits).len() ==> {
                let (a, b) = (synergies_of(traits)[i], synergies_of(traits)[j]);
                a.count >= b.count && (a.count == b.count ==> !lex_lt(b.name, a.name))
            },
{
    let s = synergies_of(traits);
    lemma_synergies(traits);
    assert forall|i: int, j: int| #![trigger s[i], s[j]] 0 <= i < j < s.len() implies ({
        let (a, b) = (s[i], s[j]);
        a.count >= b.count && (a.count == b.count ==> !lex_lt(b.name, a.name))
    }) by {
        assert(!<Synergy as Ordered>::before(s[j], s[i]));
    }
}

/// What a deck puzzle tells, under the names that clients read: the deck without the missing
/// unit, the synergies of the rest, the options in order, and afterwards how the deck did and
/// which option was right.
pub proof fn lemma_deck_puzzle_tells(
    deck: DeckModel,
    label: Seq<char>,
    removed: Seq<char>,
    ids: Seq<Seq<char>>,
    src: DeckSources,
)
    ensures
        ({
            let z = deck_puzzle_of(deck, label, removed, ids, src);
            let shown = deck.units.filter(|u: Seq<char>| u != removed);
            &&& z.carry_id == joined(deck.units, ","@)
            &&& z.variant == removed
            &&& z.answer == removed
            &&& z.prompt.get("question"@) == Some(
                JsonModel::Str(label + " 덱에서 빠진 핵심 유닛은?"@),
            )
            &&& z.prompt.get("deck_label"@) == Some(JsonModel::Str(label))
            &&& z.prompt.get("patch"@) == Some(JsonModel::Str(src.patch@))
            &&& z.prompt.list_at("shown_units"@).len() == shown.len()
            &&& forall|i: int|
                #![trigger z.prompt.list_at("shown_units"@)[i]]
                0 <= i < shown.len() ==> is_picture(
                    z.prompt.list_at("shown_units"@)[i],
                    shown[i],
                    src,
                )
            &&& z.options.as_array() is Some
            &&& z.options.as_array()->0.len() == ids.len()
            &&& forall|i: int|
                #![trigger z.options.as_array()->0[i]]
                0 <= i < ids.len() ==> is_picture(z.options.as_array()->0[i], ids[i], src)
            &&& z.stats.get("deck_avg"@) == Some(
                JsonModel::Num(Number::Hundredths(deck.avg_placement)),
            )
            &&& z.stats.get("deck_games"@) == Some(JsonModel::Num(Number::Int(deck.games)))
            &&& z.stats.get("answer"@) is Some
            &&& z.stats.get("answer"@)->0.get("id"@) == Some(JsonModel::Str(removed))
            &&& z.stats.get("answer"@)->0.get("name"@) == Some(
                JsonModel::Str(unit_name_or_id(map_model(src.meta.units@), removed)),
            )
            &&& z.stats.get("answer"@)->0.get("icon"@) == Some(JsonModel::Str(icon_url(removed)))
            &&& z.stats.list_at("options"@).len() == ids.len()
            &&& forall|i: int|
                #![trigger z.stats.list_at("options"@)[i]]
                0 <= i < ids.len() ==> {
                    let o = z.stats.list_at("options"@)[i];
                    &&& o.get("id"@) == Some(JsonModel::Str(ids[i]))
                    &&& o.get("name"@) == Some(
                        JsonModel::Str(unit_name_or_id(map_model(src.meta.units@), ids[i])),
                    )
                    &&& o.get("is_best"@) == Some(JsonModel::Bool(ids[i] == removed))
                }
        }),
{
    let z = deck_puzzle_of(deck, label, removed, ids, src);
    let shown = deck.units.filter(|u: Seq<char>| u != removed);
    lemma_shown(deck.units, removed);
    assert(z.prompt.get("question"@) == Some(z.prompt->Object_0[0].1) && z.prompt.get(
        "deck_label"@,
    ) == Some(z.prompt->Object_0[1].1) && z.prompt.get("shown_units"@) == Some(
        z.prompt->Object_0[2].1,
    ) && z.prompt.get("patch"@) == Some(z.prompt->Object_0[4].1)) by {
        reveal_strlit("question");
        reveal_strlit("deck_label");
        reveal_strlit("shown_units");
        reveal_strlit("synergies");
        reveal_strlit("patch");
        assert("question"@.len() != "deck_label"@.len());
        assert("question"@.len() != "shown_units"@.len());
        assert("deck_label"@.len() != "shown_units"@.len());
        assert("question"@.len() != "synergies"@.len());
        assert("deck_label"@.len() != "synergies"@.len());
        assert("shown_units"@.len() != "synergies"@.len());
        assert("question"@.len() != "patch"@.len());
        assert("deck_label"@.len() != "patch"@.len());
        assert("shown_units"@.len() != "patch"@.len());
        assert("synergies"@.len() != "patch"@.len());

        let o = z.prompt->Object_0;
        lemma_member(o, 0);
        lemma_member(o, 1);
        lemma_member(o, 2);
        lemma_member(o, 3);
        lemma_member(o, 4);

    }
    assert(z.stats.get("deck_avg"@) == Some(z.stats->Object_0[0].1) && z.stats.get("deck_games"@)
        == Some(z.stats->Object_0[1].1) && z.stats.get("answer"@) == Some(z.stats->Object_0[2].1)
        && z.stats.get("options"@) == Some(z.stats->Object_0[3].1)) by {
        reveal_strlit("deck_avg");
        reveal_strlit("deck_games");
        reveal_strlit("answer");
        reveal_strlit("options");
        assert("deck_avg"@.len() != "deck_games"@.len());
        assert("deck_avg"@.len() != "answer"@.len());
        assert("deck_games"@.len() != "answer"@.len());
        assert("deck_avg"@.len() != "options"@.len());
        assert("deck_games"@.len() != "options"@.len());
        assert("answer"@.len() != "options"@.len());

        let o = z.stats->Object_0;
        lemma_member(o, 0);
        lemma_member(o, 1);
        lemma_member(o, 2);
        lemma_member(o, 3);

    }
    lemma_pictured(removed, unit_name_or_id(map_model(src.meta.units@), removed), icon_url(removed));
    assert forall|i: int| #![trigger z.prompt.list_at("shown_units"@)[i]] 0 <= i < shown.len() implies
        is_picture(z.prompt.list_at("shown_units"@)[i], shown[i], src) by {
        lemma_unit_picture(shown[i], src);
    }
    assert forall|i: int| #![trigger z.options.as_array()->0[i]] 0 <= i < ids.len() implies
        is_picture(z.options.as_array()->0[i], ids[i], src) by {
        lemma_unit_picture(ids[i], src);
    }
    assert forall|i: int| #![trigger z.stats.list_at("options"@)[i]] 0 <= i < ids.len() implies ({
        let o = z.stats.list_at("options"@)[i];
        &&& o.get("id"@) == Some(JsonModel::Str(ids[i]))
        &&& o.get("name"@) == Some(
            JsonModel::Str(unit_name_or_id(map_model(src.meta.units@), ids[i])),
        )
        &&& o.get("is_best"@) == Some(JsonModel::Bool(ids[i] == removed))
    }) by {
        reveal_strlit("id");
        reveal_strlit("name");
        reveal_strlit("is_best");
        assert("id"@.len() != "name"@.len());
        assert("id"@.len() != "is_best"@.len());
        assert("name"@.len() != "is_best"@.len());

        let o = told_option(ids[i], removed, src)->Object_0;
        lemma_member(o, 0);
        lemma_member(o, 1);
        lemma_member(o, 2);

    }
}

/// `z` shows the unit `id`: its id, the name that it is known by, and its picture, or none.
pub open spec fn is_picture(z: JsonModel, id: Seq<char>, src: DeckSources) -> bool {
    &&& z.get("id"@) == Some(JsonModel::Str(id))
    &&& src.meta.units@.contains_key(id) ==> z.get("name"@) == Some(
        JsonModel::Str(src.meta.units@[id].name@),
    )
    &&& !src.meta.units@.contains_key(id) ==> z.get("name"@) == Some(JsonModel::Str(id))
    &&& src.unit_icons@.contains_key(id) ==> z.get("icon"@) == Some(
        JsonModel::Str(src.unit_icons@[id]@),
    )
    &&& !src.unit_icons@.contains_key(id) ==> z.get("icon"@) == Some(JsonModel::Str(seq![]))
}

proof fn lemma_unit_picture(id: Seq<char>, src: DeckSources)
    ensures
        is_picture(unit_picture(id, src), id, src),
{
    lemma_pictured(
        id,
        unit_name_or_id(map_model(src.meta.units@), id),
        if src.unit_icons@.contains_key(id) {
            src.unit_icons@[id]@
        } else {
            seq![]
        },
    );
}

/// The synergies are told under the deck as it is shown, each by its trait and how many share it.
pub proof fn lemma_synergies_told(
    deck: DeckModel,
    label: Seq<char>,
    removed: Seq<char>,
    ids: Seq<Seq<char>>,
    src: DeckSources,
)
    ensures
        ({
            let z = deck_puzzle_of(deck, label, removed, ids, src).prompt;
            let shown = deck.units.filter(|u: Seq<char>| u != removed);
            let s = synergies_of(traits_of(shown, map_model(src.meta.units@)));
            &&& z.list_at("synergies"@).len() == s.len()
            &&& forall|i: int|
                #![trigger z.list_at("synergies"@)[i]]
                0 <= i < s.len() ==> {
                    let t = z.list_at("synergies"@)[i];
                    &&& t.get("trait"@) == Some(JsonModel::Str(s[i].name))
                    &&& s[i].count <= i64::MAX ==> t.get("count"@) == Some(
                        JsonModel::Num(Number::Int(s[i].count as i64)),
                    )
                }
        }),
{
    let z = deck_puzzle_of(deck, label, removed, ids, src).prompt;
    let shown = deck.units.filter(|u: Seq<char>| u != removed);
    lemma_shown(deck.units, removed);
    let s = synergies_of(traits_of(shown, map_model(src.meta.units@)));
    assert(z.get("synergies"@) == Some(synergies_json(s))) by {
        reveal_strlit("question");
        reveal_strlit("deck_label");
        reveal_strlit("shown_units");
        reveal_strlit("synergies");
        reveal_strlit("patch");
        assert("question"@.len() != "deck_label"@.len());
        assert("question"@.len() != "shown_units"@.len());
        assert("deck_label"@.len() != "shown_units"@.len());
        assert("question"@.len() != "synergies"@.len());
        assert("deck_label"@.len() != "synergies"@.len());
        assert("shown_units"@.len() != "synergies"@.len());
        assert("question"@.len() != "patch"@.len());
        assert("deck_label"@.len() != "patch"@.len());
        assert("shown_units"@.len() != "patch"@.len());
        assert("synergies"@.len() != "patch"@.len());

        lemma_member(z->Object_0, 3);
    }
    assert forall|i: int| #![trigger z.list_at("synergies"@)[i]] 0 <= i < s.len() implies ({
        let t = z.list_at("synergies"@)[i];
        &&& t.get("trait"@) == Some(JsonModel::Str(s[i].name))
        &&& s[i].count <= i64::MAX ==> t.get("count"@) == Some(
            JsonModel::Num(Number::Int(s[i].count as i64)),
        )
    }) by {
        reveal_strlit("trait");
        reveal_strlit("count");
        assert("trait"@[0] != "count"@[0]);

        let t = z.list_at("synergies"@)[i]->Object_0;
        lemma_member(t, 0);
        lemma_member(t, 1);

    }
}

/// A unit of a deck is asked for exactly where it is one of those that can be and there are
/// enough others to offer.
pub proof fn lemma_asked(decks: Seq<DeckModel>, pool: Seq<Seq<char>>, src: DeckSources)
    ensures
        forall|d: int, u: Seq<char>| #[trigger]
            asked_in(decks, pool, src).contains((d, u)) <==> 0 <= d < decks.len() && pool.filter(
                |x: Seq<char>| !decks[d].units.contains(x),
            ).len() >= 3 && core_of(
                decks[d].units,
                src.unit_appears@,
                src.total_boards,
            ).contains(u),
    decreases decks.len(),
{
    if decks.len() > 0 {
        let t = decks.drop_last();
        let n = decks.len() - 1;
        let before = asked_in(t, pool, src);
        let all = asked_in(decks, pool, src);
        let last = decks.last();
        let core = core_of(last.units, src.unit_appears@, src.total_boards);
        lemma_asked(t, pool, src);
        assert forall|d: int, u: Seq<char>| #[trigger] all.contains((d, u)) <==> 0 <= d < decks.len()
            && pool.filter(|x: Seq<char>| !decks[d].units.contains(x)).len() >= 3 && core_of(
            decks[d].units,
            src.unit_appears@,
            src.total_boards,
        ).contains(u) by {
            if 0 <= d < n {
                assert(t[d] == decks[d]);
            }
            let _ = before.contains((d, u));
            if all.contains((d, u)) {
                let k = choose|k: int| 0 <= k < all.len() && all[k] == (d, u);
                if k < before.len() {
                    assert(before[k] == (d, u));
                    assert(before.contains((d, u)));
                } else {
                    assert(core[k - before.len()] == u);
                }
            }
            if before.contains((d, u)) {
                let k = choose|k: int| 0 <= k < before.len() && before[k] == (d, u);
                assert(all[k] == (d, u));
            }
            if d == n && enough_outside(pool, last.units) && core.contains(u) {
                let k = choose|k: int| 0 <= k < core.len() && core[k] == u;
                assert(all[before.len() + k] == (d, u));
            }
        }
    }
}

/// All units of a deck are shown but the missing one, in their order.
pub proof fn lemma_shown(units: Seq<Seq<char>>, removed: Seq<char>)
    ensures
        shown_of(units, removed) == units.filter(|u: Seq<char>| u != removed),
        forall|u: Seq<char>| #[trigger]
            shown_of(units, removed).contains(u) <==> units.contains(u) && u != removed,
    decreases units.len(),
{
    reveal(Seq::filter);
    if units.len() > 0 {
        let t = units.drop_last();
        let last = units.last();
        lemma_shown(t, removed);
        assert forall|u: Seq<char>| #[trigger] units.contains(u) <==> t.contains(u) || u == last by {
            if units.contains(u) {
                let k = choose|k: int| 0 <= k < units.len() && units[k] == u;
                assert(k < t.len() ==> t[k] == u);
            }
            if t.contains(u) {
                let k = choose|k: int| 0 <= k < t.len() && t[k] == u;
                assert(units[k] == u);
            }
        }
        let f = shown_of(t, removed);
        assert(shown_of(units, removed) == if last != removed {
            f.push(last)
        } else {
            f
        });
        assert(units[units.len() - 1] == last);
        assert forall|u: Seq<char>| #[trigger]
            f.push(last).contains(u) <==> f.contains(u) || u == last by {
            let g = f.push(last);
            if g.contains(u) {
                let k = choose|k: int| 0 <= k < g.len() && g[k] == u;
                assert(k < f.len() ==> f[k] == u);
            }
            if f.contains(u) {
                let k = choose|k: int| 0 <= k < f.len() && f[k] == u;
                assert(g[k] == u);
            }
            assert(g[f.len() as int] == last);
        }
    }
}

/// The items of a carry are those of its combination, in order, by the names and pictures that
/// they are known by; an unknown one has its id for a name and no picture.
pub proof fn lemma_carry_items(
    items: Seq<CarryItem>,
    combo: Seq<char>,
    info: Map<Seq<char>, (String, String)>,
    i: int,
)
    requires
        lists_items(items, combo, info),
        0 <= i < pieces(combo, ',').len(),
    ensures
        items.len() == pieces(combo, ',').len(),
        items[i].item_id@ == pieces(combo, ',')[i],
        info.contains_key(items[i].item_id@) ==> items[i].name@ == info[items[i].item_id@].0@
            && items[i].icon@ == info[items[i].item_id@].1@,
        !info.contains_key(items[i].item_id@) ==> items[i].name@ == items[i].item_id@
            && items[i].icon@.len() == 0,
{
}

/// Each puzzle asks for its unit of its deck, under the deck's own label.
pub proof fn lemma_each_asks(
    zs: Seq<DeckPuzzleRow>,
    asked: Seq<(int, Seq<char>)>,
    decks: Seq<DeckModel>,
    labels: Seq<Seq<char>>,
    pool: Seq<Seq<char>>,
    src: DeckSources,
    k: int,
)
    requires
        ask_for(zs, asked, decks, labels, pool, src),
        0 <= k < asked.len(),
    ensures
        zs.len() == asked.len(),
        zs[k].answer@ == asked[k].1,
        zs[k].variant@ == asked[k].1,
        zs[k].carry_id@ == joined(decks[asked[k].0].units, ","@),
        zs[k].prompt@.get("deck_label"@) == Some(JsonModel::Str(labels[asked[k].0])),
        zs[k].prompt@.get("patch"@) == Some(JsonModel::Str(src.patch@)),
{
    let z = zs[k]@;
    let deck = decks[asked[k].0];
    let label = labels[asked[k].0];
    let removed = asked[k].1;
    assert(asks_deck(z, deck, label, removed, pool, src));
    let (ids, order) = choose|ids: Seq<Seq<char>>, order: Seq<Seq<char>>| #[trigger]
        deck_options(
            ids,
            order,
            by_cost(pool, deck.units, removed, src.unit_costs@),
            removed,
        ) && z == deck_puzzle_of(deck, label, removed, ids, src);
    lemma_deck_puzzle_tells(deck, label, removed, ids, src);
}

/// Rows are what their fields say.
pub proof fn lemma_deck_rows_as_stored(
    d: DeckStatRow,
    n: Near,
    s: Synergy,
    z: DeckPuzzleRow,
)
    ensures
        d@.deck_key == d.deck_key@,
        d@.units == d.units@,
        d@.label == d.label@,
        d@.avg_placement == d.avg_placement,
        d@.games == d.games,
        n@.id == n.id@,
        n@.distance == n.distance,
        s@.name == s.name@,
        s@.count == s.count,
        z@.carry_id == z.carry_id@,
        z@.variant == z.variant@,
        z@.prompt == z.prompt@,
        z@.options == z.options@,
        z@.answer == z.answer@,
        z@.stats == z.stats@,
{
}

/// Decks are read from a hundred games on.
pub proof fn lemma_deck_limits()
    ensures
        RAW_MIN_GAMES == 100,
        MIN_COMMON == 7,
{
}

/// Without boards no unit is seldom that appeared; where their number is below zero the shares
/// are compared as they are.
pub proof fn lemma_core_without_boards(
    units: Seq<Seq<char>>,
    appears: Map<Seq<char>, i64>,
    boards: i64,
    u: Seq<char>,
)
    requires
        boards <= 0,
    ensures
        boards == 0 ==> (core_of(units, appears, boards).contains(u) <==> units.contains(u)
            && appears.contains_key(u) && appears[u] < 0),
        boards < 0 ==> (core_of(units, appears, boards).contains(u) <==> units.contains(u)
            && appears.contains_key(u) && 10 * appears[u] >= 3 * boards || (units.contains(u)
            && !appears.contains_key(u))),
{
    let p = |u: Seq<char>|
        at_most_three_tenths(boards_with(appears, u) as int, boards as int);
    lemma_filter_elements(units, p);
    let f = units.filter(p);
    if f.contains(u) {
        let k = choose|k: int| 0 <= k < f.len() && f[k] == u;
        assert(p(f[k]) && units.contains(f[k]));
    }
    if units.contains(u) && p(u) {
        assert(f.contains(u));
    }
}

}
