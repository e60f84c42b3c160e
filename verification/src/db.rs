//! The rows that the database gives and takes, and what is decided on them.

use crate::json::{elements, field, lemma_member, Json, JsonModel, Number};
use crate::order::Ordered;
use crate::riot::dto::{patch_of, Match};
use crate::seqs::total;
use crate::text::{pieces, split, str_eq, views};
use crate::time::{time_of_millis, MAX_MILLIS, MIN_MILLIS};
use vstd::prelude::*;

verus! {

/// A deck as it was played: a set of units, how often, and how well.
#[derive(Debug)]
pub struct RawDeck {
    /// The ids of its units, each once, in order.
    pub units: Vec<String>,
    pub games: i64,
    /// Mean placement in hundredths.
    pub avg_placement: i64,
}

/// What a deck is.
pub struct DeckModel {
    pub units: Seq<Seq<char>>,
    pub games: i64,
    pub avg_placement: i64,
}

impl View for RawDeck {
    type V = DeckModel;

    open spec fn view(&self) -> DeckModel {
        DeckModel {
            units: views(self.units@),
            games: self.games,
            avg_placement: self.avg_placement,
        }
    }
}

/// How an augment did.
#[derive(Debug)]
pub struct AugStat {
    pub id: String,
    /// Mean placement in hundredths, as it is shown.
    pub avg_placement: i64,
    pub picks: i64,
    /// Orders augments by their mean placement before rounding: lower is better.
    pub rank: i64,
}

/// How an augment did.
pub struct AugModel {
    pub id: Seq<char>,
    pub avg_placement: i64,
    pub picks: i64,
    pub rank: i64,
}

impl View for AugStat {
    type V = AugModel;

    open spec fn view(&self) -> AugModel {
        AugModel {
            id: self.id@,
            avg_placement: self.avg_placement,
            picks: self.picks,
            rank: self.rank,
        }
    }
}

// ---------------------------------------------------------------- carries

/// What a unit is played as.
#[derive(Debug, Clone, Copy, PartialEq, Eq, Structural)]
pub enum CarryType {
    Dealer,
    Bruiser,
    Tank,
}

/// The families of items that tell what a unit is played as.
pub enum Family {
    Damage,
    Bruiser,
    Tank,
    Neutral,
}

/// The family of a damage type.
pub open spec fn family(damage_type: Seq<char>) -> Family {
    if damage_type == "ad"@ || damage_type == "ap"@ || damage_type == "mixed"@ {
        Family::Damage
    } else if damage_type == "bruiser"@ {
        Family::Bruiser
    } else if damage_type == "tank"@ {
        Family::Tank
    } else {
        Family::Neutral
    }
}

/// How often items of a family were picked.
pub open spec fn picked(types: Seq<(String, i64)>, f: Family) -> int
    decreases types.len(),
{
    if types.len() == 0 {
        0
    } else {
        picked(types.drop_last(), f) + if family(types.last().0@) == f {
            types.last().1 as int
        } else {
            0
        }
    }
}

/// No sum of picks leaves the range of its type on the way.
pub open spec fn picks_fit(types: Seq<(String, i64)>) -> bool {
    &&& forall|n: int|
        #![trigger types.take(n)]
        0 <= n <= types.len() ==> {
            &&& i64::MIN <= picked(types.take(n), Family::Damage) <= i64::MAX
            &&& i64::MIN <= picked(types.take(n), Family::Bruiser) <= i64::MAX
            &&& i64::MIN <= picked(types.take(n), Family::Tank) <= i64::MAX
        }
    &&& i64::MIN <= picked(types, Family::Damage) + picked(types, Family::Bruiser) <= i64::MAX
    &&& i64::MIN <= picked(types, Family::Damage) + picked(types, Family::Bruiser) + picked(
        types,
        Family::Tank,
    ) <= i64::MAX
    &&& i64::MIN <= picked(types, Family::Bruiser) * 100 <= i64::MAX
}

/// What a unit with the given picks is played as: a bruiser where at least a quarter of them
/// are bruiser items; a tank where tank items lead, or nothing was picked; a dealer
/// otherwise.
pub open spec fn carry_type_of(dmg: int, bruiser: int, tank: int) -> CarryType {
    let total = dmg + bruiser + tank;
    if total == 0 {
        CarryType::Tank
    } else if (total > 0 && bruiser * 4 >= total) || (total < 0 && bruiser * 4 <= total) {
        CarryType::Bruiser
    } else if tank > dmg && tank > bruiser {
        CarryType::Tank
    } else {
        CarryType::Dealer
    }
}

proof fn lemma_picked_remove(types: Seq<(String, i64)>, i: int, f: Family)
    requires
        0 <= i < types.len(),
    ensures
        picked(types, f) == picked(types.remove(i), f) + if family(types[i].0@) == f {
            types[i].1 as int
        } else {
            0
        },
    decreases types.len(),
{
    let rest = types.remove(i);
    if i < types.len() - 1 {
        lemma_picked_remove(types.drop_last(), i, f);
        assert(rest.drop_last() =~= types.drop_last().remove(i));
        assert(rest.last() == types.last());
    } else {
        assert(rest =~= types.drop_last());
    }
}

proof fn lemma_picked_ignores_order(a: Seq<(String, i64)>, b: Seq<(String, i64)>, f: Family)
    requires
        a.to_multiset() == b.to_multiset(),
    ensures
        picked(a, f) == picked(b, f),
    decreases a.len(),
{
    broadcast use vstd::seq_lib::group_to_multiset_ensures;

    assert(a.len() == a.to_multiset().len() && b.len() == b.to_multiset().len());
    if a.len() > 0 {
        let x = a.last();
        assert(a.contains(x));
        assert(a.to_multiset().contains(x) && b.to_multiset().contains(x));
        assert(b.contains(x));
        let i = choose|i: int| 0 <= i < b.len() && b[i] == x;
        lemma_picked_remove(b, i, f);
        assert(a.remove(a.len() - 1) =~= a.drop_last());
        assert(a.drop_last().to_multiset() =~= b.remove(i).to_multiset());
        lemma_picked_ignores_order(a.drop_last(), b.remove(i), f);
    }
}

/// What a unit is played as, by the items that were picked and how often.
pub open spec fn type_of(types: Seq<(String, i64)>) -> CarryType {
    carry_type_of(
        picked(types, Family::Damage),
        picked(types, Family::Bruiser),
        picked(types, Family::Tank),
    )
}

/// The order in which items are listed has no bearing on what a unit is played as.
pub proof fn lemma_type_ignores_order(a: Seq<(String, i64)>, b: Seq<(String, i64)>)
    requires
        a.to_multiset() == b.to_multiset(),
    ensures
        type_of(a) == type_of(b),
{
    lemma_picked_ignores_order(a, b, Family::Damage);
    lemma_picked_ignores_order(a, b, Family::Bruiser);
    lemma_picked_ignores_order(a, b, Family::Tank);
}

/// Only the three sums of picks decide what a unit is played as.
pub proof fn lemma_type_by_sums(a: Seq<(String, i64)>, b: Seq<(String, i64)>)
    requires
        picked(a, Family::Damage) == picked(b, Family::Damage),
        picked(a, Family::Bruiser) == picked(b, Family::Bruiser),
        picked(a, Family::Tank) == picked(b, Family::Tank),
    ensures
        type_of(a) == type_of(b),
{
}

/// What a unit is played as, by the damage types of its items and how often each was picked.
pub fn classify_carry(types: &Vec<(String, i64)>) -> (r: CarryType)
    requires
        picks_fit(types@),
    ensures
        r == type_of(types@),
{
    let mut dmg: i64 = 0;
    let mut bruiser: i64 = 0;
    let mut tank: i64 = 0;
    let mut i: usize = 0;
    while i < types.len()
        invariant
            i <= types@.len(),
            picks_fit(types@),
            dmg == picked(types@.take(i as int), Family::Damage),
            bruiser == picked(types@.take(i as int), Family::Bruiser),
            tank == picked(types@.take(i as int), Family::Tank),
        decreases types@.len() - i,
    {
        let kind = types[i].0.as_str();
        let picks = types[i].1;
        proof {
            let next = types@.take(i + 1);
            assert(next.drop_last() == types@.take(i as int));
            assert(next.last() == types@[i as int]);
        }
        if str_eq(kind, "ad") || str_eq(kind, "ap") || str_eq(kind, "mixed") {
            dmg = dmg + picks;
        } else if str_eq(kind, "bruiser") {
            bruiser = bruiser + picks;
        } else if str_eq(kind, "tank") {
            tank = tank + picks;
        }
        i += 1;
    }
    assert(types@.take(types@.len() as int) == types@);
    let total = dmg + bruiser + tank;
    if total == 0 {
        return CarryType::Tank;
    }
    let four = bruiser as i128 * 4;
    if (total > 0 && four >= total as i128) || (total < 0 && four <= total as i128) {
        CarryType::Bruiser
    } else if tank > dmg && tank > bruiser {
        CarryType::Tank
    } else {
        CarryType::Dealer
    }
}

/// How a carry did with an item.
#[derive(Debug)]
pub struct ItemFull {
    pub item: String,
    pub name: String,
    /// Mean placement in hundredths, as it is shown.
    pub avg_placement: i64,
    pub picks: i64,
    pub damage_type: String,
    /// How many times as often as everybody else the carry holds the item, rounded down.
    pub lift: i64,
    pub icon_url: String,
    /// Orders the items of a carry by their mean placement, drawn towards the mean of the
    /// carry where there are few games: lower is better.
    pub rank: i64,
}

pub struct ItemModel {
    pub item: Seq<char>,
    pub name: Seq<char>,
    pub avg_placement: i64,
    pub picks: i64,
    pub damage_type: Seq<char>,
    pub lift: i64,
    pub icon_url: Seq<char>,
    pub rank: i64,
}

impl View for ItemFull {
    type V = ItemModel;

    open spec fn view(&self) -> ItemModel {
        ItemModel {
            item: self.item@,
            name: self.name@,
            avg_placement: self.avg_placement,
            picks: self.picks,
            damage_type: self.damage_type@,
            lift: self.lift,
            icon_url: self.icon_url@,
            rank: self.rank,
        }
    }
}

impl ItemFull {
    pub fn copy(&self) -> (r: ItemFull)
        ensures
            r@ == self@,
    {
        ItemFull {
            item: self.item.clone(),
            name: self.name.clone(),
            avg_placement: self.avg_placement,
            picks: self.picks,
            damage_type: self.damage_type.clone(),
            lift: self.lift,
            icon_url: self.icon_url.clone(),
            rank: self.rank,
        }
    }
}

impl Ordered for ItemFull {
    /// The better item stands first.
    open spec fn before(a: ItemModel, b: ItemModel) -> bool {
        a.rank < b.rank
    }

    proof fn weak_order(a: ItemModel, b: ItemModel, c: ItemModel) {
    }

    fn is_before(&self, other: &ItemFull) -> (b: bool) {
        self.rank < other.rank
    }
}

/// How a carry did with three items together.
#[derive(Debug)]
pub struct ComboStat {
    /// The ids of the items, with commas between them.
    pub item_combo: String,
    pub picks: i64,
    /// Mean placement in hundredths, as it is shown.
    pub avg_placement: i64,
    pub tank_item_count: i32,
    /// Orders the combos of a carry by their mean placement, drawn towards the mean of the
    /// carry where there are few games: lower is better.
    pub rank: i64,
}

pub struct ComboModel {
    pub item_combo: Seq<char>,
    pub picks: i64,
    pub avg_placement: i64,
    pub tank_item_count: i32,
    pub rank: i64,
}

impl View for ComboStat {
    type V = ComboModel;

    open spec fn view(&self) -> ComboModel {
        ComboModel {
            item_combo: self.item_combo@,
            picks: self.picks,
            avg_placement: self.avg_placement,
            tank_item_count: self.tank_item_count,
            rank: self.rank,
        }
    }
}

/// A unit that is built as a carry.
#[derive(Debug)]
pub struct CarryInfo {
    pub carry_id: String,
    pub total_appearances: i64,
    pub is_tank: bool,
}

// ---------------------------------------------------------------- matches and patches

/// What is stored of a match beside the match itself.
#[derive(Debug)]
pub struct RawMatchRow {
    pub match_id: String,
    pub set_number: i32,
    pub patch: String,
    pub queue_id: i32,
    /// When the game was, in milliseconds since the epoch; none where that is no time, and the
    /// time of storing takes its place.
    pub game_datetime: Option<i64>,
    pub region: String,
}

/// What a stored match is.
pub struct RawMatchModel {
    pub match_id: Seq<char>,
    pub set_number: i32,
    pub patch: Seq<char>,
    pub queue_id: i32,
    pub game_datetime: Option<i64>,
    pub region: Seq<char>,
}

impl View for RawMatchRow {
    type V = RawMatchModel;

    open spec fn view(&self) -> RawMatchModel {
        RawMatchModel {
            match_id: self.match_id@,
            set_number: self.set_number,
            patch: self.patch@,
            queue_id: self.queue_id,
            game_datetime: self.game_datetime,
            region: self.region@,
        }
    }
}

/// What is stored of a match beside the match itself.
pub open spec fn match_row(m: Match, region: Seq<char>) -> RawMatchModel {
    RawMatchModel {
        match_id: m.metadata.match_id@,
        set_number: m.info.tft_set_number,
        patch: patch_of(m.info.game_version@),
        queue_id: m.info.queue_id,
        game_datetime: if MIN_MILLIS <= m.info.game_datetime <= MAX_MILLIS {
            Some(m.info.game_datetime)
        } else {
            None
        },
        region,
    }
}

/// What is stored of a match beside the match itself.
pub fn raw_match_row(m: &Match, region: &str) -> (r: RawMatchRow)
    ensures
        r@ == match_row(*m, region@),
{
    RawMatchRow {
        match_id: m.metadata.match_id.clone(),
        set_number: m.info.tft_set_number,
        patch: m.info.patch(),
        queue_id: m.info.queue_id,
        game_datetime: time_of_millis(m.info.game_datetime),
        region: region.to_string(),
    }
}

/// The row that a match adds: none where there is one with its id already.
pub open spec fn row_to_add(m: Match, region: Seq<char>, stored: bool) -> Option<RawMatchModel> {
    if stored {
        None
    } else {
        Some(match_row(m, region))
    }
}

/// The row to add for a match, where none with its id is stored.
pub fn insert_raw_match(m: &Match, region: &str, stored: bool) -> (r: Option<RawMatchRow>)
    ensures
        (match r {
            Some(row) => Some(row@),
            None => None,
        }) == row_to_add(*m, region@, stored),
{
    if stored {
        None
    } else {
        Some(raw_match_row(m, region))
    }
}

/// The stored matches by id, once a row was added to them.
pub open spec fn with_row(
    rows: Map<Seq<char>, RawMatchModel>,
    row: Option<RawMatchModel>,
) -> Map<Seq<char>, RawMatchModel> {
    match row {
        Some(x) => rows.insert(x.match_id, x),
        None => rows,
    }
}

/// A match is stored once: it adds its row where none with its id is there, and changes nothing
/// otherwise. No other row changes, and another match with that id then adds nothing.
pub proof fn lemma_stored_once(
    rows: Map<Seq<char>, RawMatchModel>,
    m: Match,
    again: Match,
    region: Seq<char>,
)
    requires
        again.metadata.match_id@ == m.metadata.match_id@,
    ensures
        ({
            let id = m.metadata.match_id@;
            let row = row_to_add(m, region, rows.contains_key(id));
            let after = with_row(rows, row);
            &&& row is Some <==> !rows.contains_key(id)
            &&& rows.contains_key(id) ==> after == rows
            &&& !rows.contains_key(id) ==> after == rows.insert(id, match_row(m, region))
            &&& row_to_add(again, region, after.contains_key(id)) is None
        }),
{
}

/// A patch needs this many matches to become the current one.
pub const MIN_PATCH_MATCHES: i64 = 2000;

/// The current patch.
#[derive(Debug)]
pub struct PatchInfo {
    pub patch: String,
    pub set_number: i32,
    /// The days since its first game, by their IEEE-754 bits.
    pub age_days: u64,
    pub match_count: i32,
}

/// The current patch, by the row that the database gives. Without an age it is new.
pub fn patch_info(row: Option<(String, i32, Option<u64>, i32)>) -> (r: Option<PatchInfo>)
    ensures
        match row {
            Some((patch, set_number, age, match_count)) => {
                &&& r is Some
                &&& r->0.patch@ == patch@
                &&& r->0.set_number == set_number
                &&& r->0.age_days == match age {
                    Some(d) => d,
                    None => 0,
                }
                &&& r->0.match_count == match_count
            },
            None => r is None,
        },
{
    match row {
        Some((patch, set_number, age, match_count)) => {
            let age_days = match age {
                Some(d) => d,
                None => 0,
            };
            Some(PatchInfo { patch, set_number, age_days, match_count })
        },
        None => None,
    }
}

/// How many matches the current patch has, by the row that the database gives; 0 where there
/// is no patch yet.
pub fn patch_match_count(row: Option<i64>) -> (r: i64)
    ensures
        r == match row {
            Some(n) => n,
            None => 0,
        },
{
    match row {
        Some(n) => n,
        None => 0,
    }
}

/// A time of the database, where there is a row and the row has one.
pub fn known_time(row: Option<Option<i64>>) -> (r: Option<i64>)
    ensures
        r == match row {
            Some(t) => t,
            None => None,
        },
{
    match row {
        Some(t) => t,
        None => None,
    }
}

/// A deck by the row that the database gives: its units with commas between them.
pub fn raw_deck(deck: &str, games: i64, avg_placement: i64) -> (r: RawDeck)
    ensures
        r@ == (DeckModel { units: pieces(deck@, ','), games, avg_placement }),
{
    RawDeck { units: split(deck, ','), games, avg_placement }
}

/// What the statistics were made of.
#[derive(Debug)]
pub struct MetaInfo {
    pub patch: String,
    pub total_matches: i64,
    pub puzzle_count: i64,
}

/// What the statistics were made of, by the rows that the database gives.
pub fn meta_info(row: Option<(String, i64)>, puzzle_count: i64) -> (r: MetaInfo)
    ensures
        r.puzzle_count == puzzle_count,
        match row {
            Some((patch, n)) => r.patch@ == patch@ && r.total_matches == n,
            None => r.patch@ == "?"@ && r.total_matches == 0,
        },
{
    match row {
        Some((patch, total_matches)) => MetaInfo { patch, total_matches, puzzle_count },
        None => MetaInfo { patch: "?".to_string(), total_matches: 0, puzzle_count },
    }
}

/// A stored puzzle without its answer.
#[derive(Debug)]
pub struct PuzzleRow {
    pub id: String,
    pub puzzle_type: String,
    pub patch: String,
    pub set_number: i32,
    pub prompt: Json,
    pub options: Json,
    pub stats: Json,
}

pub struct PuzzleModel {
    pub id: Seq<char>,
    pub puzzle_type: Seq<char>,
    pub patch: Seq<char>,
    pub set_number: i32,
    pub prompt: JsonModel,
    pub options: JsonModel,
    pub stats: JsonModel,
}

impl View for PuzzleRow {
    type V = PuzzleModel;

    open spec fn view(&self) -> PuzzleModel {
        PuzzleModel {
            id: self.id@,
            puzzle_type: self.puzzle_type@,
            patch: self.patch@,
            set_number: self.set_number,
            prompt: self.prompt@,
            options: self.options@,
            stats: self.stats@,
        }
    }
}

// ---------------------------------------------------------------- how a user does

/// How a user did with a kind of puzzle.
#[derive(Debug)]
pub struct TypeRow {
    pub puzzle_type: String,
    pub total: i64,
    pub correct: i64,
    /// The right answers in percent, by their IEEE-754 bits. It counts only where there was an
    /// attempt.
    pub rate: u64,
}

/// How a user did with a group of puzzles that are often answered wrong.
#[derive(Debug)]
pub struct WeakRow {
    pub puzzle_type: String,
    pub group: String,
    pub total: i64,
    pub correct: i64,
    /// The right answers in percent, by their IEEE-754 bits.
    pub rate: u64,
}

/// All attempts.
pub open spec fn attempts(rows: Seq<TypeRow>) -> Seq<int> {
    Seq::new(rows.len(), |i: int| rows[i].total as int)
}

/// All right answers.
pub open spec fn right_answers(rows: Seq<TypeRow>) -> Seq<int> {
    Seq::new(rows.len(), |i: int| rows[i].correct as int)
}

/// No sum leaves the range of its type on the way.
pub open spec fn totals_fit(rows: Seq<TypeRow>) -> bool {
    forall|n: int|
        #![trigger rows.take(n)]
        0 <= n <= rows.len() ==> i64::MIN <= total(attempts(rows.take(n))) <= i64::MAX && i64::MIN
            <= total(right_answers(rows.take(n))) <= i64::MAX
}

/// All attempts, and all right answers.
pub fn user_totals(rows: &Vec<TypeRow>) -> (r: (i64, i64))
    requires
        totals_fit(rows@),
    ensures
        r.0 == total(attempts(rows@)),
        r.1 == total(right_answers(rows@)),
{
    let mut tries: i64 = 0;
    let mut right: i64 = 0;
    let mut i: usize = 0;
    proof {
        assert(attempts(rows@.take(0)) =~= Seq::empty());
        assert(right_answers(rows@.take(0)) =~= Seq::empty());
    }
    while i < rows.len()
        invariant
            i <= rows@.len(),
            totals_fit(rows@),
            tries == total(attempts(rows@.take(i as int))),
            right == total(right_answers(rows@.take(i as int))),
        decreases rows@.len() - i,
    {
        proof {
            let next = rows@.take(i + 1);
            assert(attempts(next).drop_last() =~= attempts(rows@.take(i as int)));
            assert(right_answers(next).drop_last() =~= right_answers(rows@.take(i as int)));
            assert(attempts(next).last() == rows@[i as int].total);
            assert(right_answers(next).last() == rows@[i as int].correct);
        }
        tries = tries + rows[i].total;
        right = right + rows[i].correct;
        i += 1;
    }
    assert(rows@.take(rows@.len() as int) == rows@);
    (tries, right)
}

/// A rate, where there was an attempt.
pub open spec fn rate_number(total: i64, rate: u64) -> JsonModel {
    JsonModel::Num(
        Number::Real(
            if total > 0 {
                rate
            } else {
                0
            },
        ),
    )
}

/// How a user did with a kind of puzzle, as it is told.
pub open spec fn type_json(t: TypeRow) -> JsonModel {
    JsonModel::Object(
        seq![
            ("type"@, JsonModel::Str(t.puzzle_type@)),
            ("total"@, JsonModel::Num(Number::Int(t.total))),
            ("correct"@, JsonModel::Num(Number::Int(t.correct))),
            ("rate"@, rate_number(t.total, t.rate)),
        ],
    )
}

/// How a user did with a group of puzzles, as it is told.
pub open spec fn weak_json(w: WeakRow) -> JsonModel {
    JsonModel::Object(
        seq![
            ("type"@, JsonModel::Str(w.puzzle_type@)),
            ("group"@, JsonModel::Str(w.group@)),
            ("total"@, JsonModel::Num(Number::Int(w.total))),
            ("correct"@, JsonModel::Num(Number::Int(w.correct))),
            ("rate"@, JsonModel::Num(Number::Real(w.rate))),
        ],
    )
}

/// How a user does.
pub open spec fn user_stats_json(
    tries: i64,
    right: i64,
    rate: u64,
    types: Seq<TypeRow>,
    weak: Seq<WeakRow>,
) -> JsonModel {
    JsonModel::Object(
        seq![
            ("total"@, JsonModel::Num(Number::Int(tries))),
            ("correct"@, JsonModel::Num(Number::Int(right))),
            ("rate"@, rate_number(tries, rate)),
            ("by_type"@, JsonModel::Array(Seq::new(types.len(), |i: int| type_json(types[i])))),
            ("weak"@, JsonModel::Array(Seq::new(weak.len(), |i: int| weak_json(weak[i])))),
        ],
    )
}

fn rate_to_json(total: i64, rate: u64) -> (r: Json)
    ensures
        r@ == rate_number(total, rate),
{
    if total > 0 {
        Json::Num(Number::Real(rate))
    } else {
        Json::Num(Number::Real(0))
    }
}

/// How a user does: all together, by kind of puzzle, and where it goes wrong. `rate` is the share
/// of right answers in percent, by its IEEE-754 bits; it counts only where there was an attempt.
pub fn user_stats(types: &Vec<TypeRow>, rate: u64, weak: &Vec<WeakRow>) -> (r: Json)
    requires
        totals_fit(types@),
    ensures
        r@ == user_stats_json(
            total(attempts(types@)) as i64,
            total(right_answers(types@)) as i64,
            rate,
            types@,
            weak@,
        ),
{
    let (tries, right) = user_totals(types);
    let ghost goal = user_stats_json(tries, right, rate, types@, weak@)->Object_0;
    let mut by_type: Vec<Json> = Vec::new();
    let mut i: usize = 0;
    while i < types.len()
        invariant
            i <= types@.len(),
            by_type@.len() == i,
            forall|k: int| 0 <= k < i ==> (#[trigger] by_type@[k])@ == type_json(types@[k]),
        decreases types@.len() - i,
    {
        let t = &types[i];
        let o = Json::object(
            vec![
                field("type", Json::text(t.puzzle_type.as_str())),
                field("total", Json::integer(t.total)),
                field("correct", Json::integer(t.correct)),
                field("rate", rate_to_json(t.total, t.rate)),
            ],
        );
        assert(o@->Object_0 =~= type_json(*t)->Object_0);
        by_type.push(o);
        i += 1;
    }
    let mut groups: Vec<Json> = Vec::new();
    let mut j: usize = 0;
    while j < weak.len()
        invariant
            j <= weak@.len(),
            groups@.len() == j,
            forall|k: int| 0 <= k < j ==> (#[trigger] groups@[k])@ == weak_json(weak@[k]),
        decreases weak@.len() - j,
    {
        let w = &weak[j];
        let o = Json::object(
            vec![
                field("type", Json::text(w.puzzle_type.as_str())),
                field("group", Json::text(w.group.as_str())),
                field("total", Json::integer(w.total)),
                field("correct", Json::integer(w.correct)),
                field("rate", Json::Num(Number::Real(w.rate))),
            ],
        );
        assert(o@->Object_0 =~= weak_json(*w)->Object_0);
        groups.push(o);
        j += 1;
    }
    proof {
        assert(elements(by_type@) =~= goal[3].1->Array_0);
        assert(elements(groups@) =~= goal[4].1->Array_0);
    }
    let r = Json::object(
        vec![
            field("total", Json::integer(tries)),
            field("correct", Json::integer(right)),
            field("rate", rate_to_json(tries, rate)),
            field("by_type", Json::array(by_type)),
            field("weak", Json::array(groups)),
        ],
    );
    assert(r@->Object_0 =~= goal);
    r
}

// ---------------------------------------------------------------- laws

/// A unit of which damage items were picked `d` times, bruiser items `b` times and tank items
/// `t` times is played as a bruiser exactly where a quarter of all picks or more are bruiser
/// items; else as a tank exactly where tank items lead both others; else as a dealer. Without
/// picks it is played as a tank.
pub proof fn lemma_played_as(types: Seq<(String, i64)>)
    ensures
        ({
            let d = picked(types, Family::Damage);
            let b = picked(types, Family::Bruiser);
            let t = picked(types, Family::Tank);
            &&& d + b + t > 0 ==> {
                &&& type_of(types) == CarryType::Bruiser <==> 4 * b >= d + b + t
                &&& type_of(types) == CarryType::Tank <==> 4 * b < d + b + t && t > d && t > b
                &&& type_of(types) == CarryType::Dealer <==> 4 * b < d + b + t && !(t > d && t > b)
            }
            &&& d + b + t == 0 ==> type_of(types) == CarryType::Tank
            &&& d + b + t < 0 ==> {
                &&& type_of(types) == CarryType::Bruiser <==> 4 * b <= d + b + t
                &&& type_of(types) == CarryType::Tank <==> 4 * b > d + b + t && t > d && t > b
                &&& type_of(types) == CarryType::Dealer <==> 4 * b > d + b + t && !(t > d && t > b)
            }
        }),
{
}

/// The picks of a family are the sum of the picks of its items: damage items are those for
/// attack, for magic and for both; bruiser and tank items are those of that type; the rest
/// counts for none of the three.
pub proof fn lemma_picks_of_families(types: Seq<(String, i64)>)
    ensures
        picked(types, Family::Damage) == total(
            Seq::new(
                types.len(),
                |i: int|
                    if types[i].0@ == "ad"@ || types[i].0@ == "ap"@ || types[i].0@ == "mixed"@ {
                        types[i].1 as int
                    } else {
                        0
                    },
            ),
        ),
        picked(types, Family::Bruiser) == total(
            Seq::new(
                types.len(),
                |i: int|
                    if types[i].0@ == "bruiser"@ {
                        types[i].1 as int
                    } else {
                        0
                    },
            ),
        ),
        picked(types, Family::Tank) == total(
            Seq::new(
                types.len(),
                |i: int|
                    if types[i].0@ == "tank"@ {
                        types[i].1 as int
                    } else {
                        0
                    },
            ),
        ),
    decreases types.len(),
{
    reveal_strlit("ad");
    reveal_strlit("ap");
    reveal_strlit("mixed");
    reveal_strlit("bruiser");
    reveal_strlit("tank");
    assert("ad"@[1] != "ap"@[1]);
    assert("ad"@.len() != "mixed"@.len());
    assert("ap"@.len() != "mixed"@.len());
    assert("ad"@.len() != "bruiser"@.len());
    assert("ap"@.len() != "bruiser"@.len());
    assert("mixed"@.len() != "bruiser"@.len());
    assert("ad"@.len() != "tank"@.len());
    assert("ap"@.len() != "tank"@.len());
    assert("mixed"@.len() != "tank"@.len());
    assert("bruiser"@.len() != "tank"@.len());

    let dmg = Seq::new(
        types.len(),
        |i: int|
            if types[i].0@ == "ad"@ || types[i].0@ == "ap"@ || types[i].0@ == "mixed"@ {
                types[i].1 as int
            } else {
                0
            },
    );
    let bru = Seq::new(
        types.len(),
        |i: int|
            if types[i].0@ == "bruiser"@ {
                types[i].1 as int
            } else {
                0
            },
    );
    let tan = Seq::new(
        types.len(),
        |i: int|
            if types[i].0@ == "tank"@ {
                types[i].1 as int
            } else {
                0
            },
    );
    if types.len() > 0 {
        let t = types.drop_last();
        lemma_picks_of_families(t);
        assert(dmg.drop_last() =~= Seq::new(
            t.len(),
            |i: int|
                if t[i].0@ == "ad"@ || t[i].0@ == "ap"@ || t[i].0@ == "mixed"@ {
                    t[i].1 as int
                } else {
                    0
                },
        ));
        assert(bru.drop_last() =~= Seq::new(
            t.len(),
            |i: int|
                if t[i].0@ == "bruiser"@ {
                    t[i].1 as int
                } else {
                    0
                },
        ));
        assert(tan.drop_last() =~= Seq::new(
            t.len(),
            |i: int|
                if t[i].0@ == "tank"@ {
                    t[i].1 as int
                } else {
                    0
                },
        ));
    }
}

/// What is stored of a match is taken from the match: its id, set, patch and queue, the region,
/// and its time where that is one from the year -262143 to the year 262142.
pub proof fn lemma_match_row(m: Match, region: Seq<char>)
    ensures
        match_row(m, region).match_id == m.metadata.match_id@,
        match_row(m, region).set_number == m.info.tft_set_number,
        match_row(m, region).patch == patch_of(m.info.game_version@),
        match_row(m, region).queue_id == m.info.queue_id,
        match_row(m, region).region == region,
        -8334601228800000 <= m.info.game_datetime <= 8210266876799999 ==> match_row(
            m,
            region,
        ).game_datetime == Some(m.info.game_datetime),
        !(-8334601228800000 <= m.info.game_datetime <= 8210266876799999) ==> match_row(
            m,
            region,
        ).game_datetime is None,
{
}

/// How a user does is told under the names that clients read: all together, each kind of puzzle
/// in its place, and each weak spot in its place. Without an attempt a rate is 0.
pub proof fn lemma_user_stats(
    tries: i64,
    right: i64,
    rate: u64,
    types: Seq<TypeRow>,
    weak: Seq<WeakRow>,
)
    ensures
        ({
            let z = user_stats_json(tries, right, rate, types, weak);
            &&& z.get("total"@) == Some(JsonModel::Num(Number::Int(tries)))
            &&& z.get("correct"@) == Some(JsonModel::Num(Number::Int(right)))
            &&& tries > 0 ==> z.get("rate"@) == Some(JsonModel::Num(Number::Real(rate)))
            &&& tries <= 0 ==> z.get("rate"@) == Some(JsonModel::Num(Number::Real(0)))
            &&& z.list_at("by_type"@).len() == types.len()
            &&& forall|i: int|
                #![trigger z.list_at("by_type"@)[i]]
                0 <= i < types.len() ==> {
                    let t = z.list_at("by_type"@)[i];
                    &&& t.get("type"@) == Some(JsonModel::Str(types[i].puzzle_type@))
                    &&& t.get("total"@) == Some(JsonModel::Num(Number::Int(types[i].total)))
                    &&& t.get("correct"@) == Some(JsonModel::Num(Number::Int(types[i].correct)))
                    &&& types[i].total > 0 ==> t.get("rate"@) == Some(
                        JsonModel::Num(Number::Real(types[i].rate)),
                    )
                    &&& types[i].total <= 0 ==> t.get("rate"@) == Some(
                        JsonModel::Num(Number::Real(0)),
                    )
                }
            &&& z.list_at("weak"@).len() == weak.len()
            &&& forall|i: int|
                #![trigger z.list_at("weak"@)[i]]
                0 <= i < weak.len() ==> {
                    let t = z.list_at("weak"@)[i];
                    &&& t.get("type"@) == Some(JsonModel::Str(weak[i].puzzle_type@))
                    &&& t.get("group"@) == Some(JsonModel::Str(weak[i].group@))
                    &&& t.get("total"@) == Some(JsonModel::Num(Number::Int(weak[i].total)))
                    &&& t.get("correct"@) == Some(JsonModel::Num(Number::Int(weak[i].correct)))
                    &&& t.get("rate"@) == Some(JsonModel::Num(Number::Real(weak[i].rate)))
                }
        }),
{
    reveal_strlit("total");
    reveal_strlit("correct");
    reveal_strlit("rate");
    reveal_strlit("by_type");
    reveal_strlit("weak");
    assert("total"@.len() != "correct"@.len());
    assert("total"@.len() != "rate"@.len());
    assert("correct"@.len() != "rate"@.len());
    assert("total"@.len() != "by_type"@.len());
    assert("correct"@[0] != "by_type"@[0]);
    assert("rate"@.len() != "by_type"@.len());
    assert("total"@.len() != "weak"@.len());
    assert("correct"@.len() != "weak"@.len());
    assert("rate"@[0] != "weak"@[0]);
    assert("by_type"@.len() != "weak"@.len());

    let z = user_stats_json(tries, right, rate, types, weak);
    let o = z->Object_0;
    lemma_member(o, 0);
    lemma_member(o, 1);
    lemma_member(o, 2);
    lemma_member(o, 3);
    lemma_member(o, 4);

    assert forall|i: int| #![trigger z.list_at("by_type"@)[i]] 0 <= i < types.len() implies ({
        let t = z.list_at("by_type"@)[i];
        &&& t.get("type"@) == Some(JsonModel::Str(types[i].puzzle_type@))
        &&& t.get("total"@) == Some(JsonModel::Num(Number::Int(types[i].total)))
        &&& t.get("correct"@) == Some(JsonModel::Num(Number::Int(types[i].correct)))
        &&& types[i].total > 0 ==> t.get("rate"@) == Some(
            JsonModel::Num(Number::Real(types[i].rate)),
        )
        &&& types[i].total <= 0 ==> t.get("rate"@) == Some(JsonModel::Num(Number::Real(0)))
    }) by {
        reveal_strlit("type");
        reveal_strlit("total");
        reveal_strlit("correct");
        reveal_strlit("rate");
        assert("type"@.len() != "total"@.len());
        assert("type"@.len() != "correct"@.len());
        assert("total"@.len() != "correct"@.len());
        assert("type"@[0] != "rate"@[0]);
        assert("total"@.len() != "rate"@.len());
        assert("correct"@.len() != "rate"@.len());

        let t = type_json(types[i])->Object_0;
        lemma_member(t, 0);
        lemma_member(t, 1);
        lemma_member(t, 2);
        lemma_member(t, 3);

    }
    assert forall|i: int| #![trigger z.list_at("weak"@)[i]] 0 <= i < weak.len() implies ({
        let t = z.list_at("weak"@)[i];
        &&& t.get("type"@) == Some(JsonModel::Str(weak[i].puzzle_type@))
        &&& t.get("group"@) == Some(JsonModel::Str(weak[i].group@))
        &&& t.get("total"@) == Some(JsonModel::Num(Number::Int(weak[i].total)))
        &&& t.get("correct"@) == Some(JsonModel::Num(Number::Int(weak[i].correct)))
        &&& t.get("rate"@) == Some(JsonModel::Num(Number::Real(weak[i].rate)))
    }) by {
        reveal_strlit("type");
        reveal_strlit("group");
        reveal_strlit("total");
        reveal_strlit("correct");
        reveal_strlit("rate");
        assert("type"@.len() != "group"@.len());
        assert("type"@.len() != "total"@.len());
        assert("group"@[0] != "total"@[0]);
        assert("type"@.len() != "correct"@.len());
        assert("group"@.len() != "correct"@.len());
        assert("total"@.len() != "correct"@.len());
        assert("type"@[0] != "rate"@[0]);
        assert("group"@.len() != "rate"@.len());
        assert("total"@.len() != "rate"@.len());
        assert("correct"@.len() != "rate"@.len());

        let t = weak_json(weak[i])->Object_0;
        lemma_member(t, 0);
        lemma_member(t, 1);
        lemma_member(t, 2);
        lemma_member(t, 3);
        lemma_member(t, 4);

    }
}

/// All attempts of a user are those of every kind of puzzle added up, and so are the right ones.
pub proof fn lemma_attempts(rows: Seq<TypeRow>)
    ensures
        attempts(rows).len() == rows.len(),
        right_answers(rows).len() == rows.len(),
        forall|i: int| 0 <= i < rows.len() ==> #[trigger] attempts(rows)[i] == rows[i].total,
        forall|i: int|
            0 <= i < rows.len() ==> #[trigger] right_answers(rows)[i] == rows[i].correct,
{
}

/// The models of rows are the rows, field by field.
pub proof fn lemma_rows_as_they_are(
    d: RawDeck,
    a: AugStat,
    f: ItemFull,
    c: ComboStat,
    r: RawMatchRow,
    p: PuzzleRow,
)
    ensures
        d@.units == views(d.units@) && d@.games == d.games && d@.avg_placement == d.avg_placement,
        a@.id == a.id@ && a@.avg_placement == a.avg_placement && a@.picks == a.picks && a@.rank
            == a.rank,
        f@.item == f.item@ && f@.name == f.name@ && f@.avg_placement == f.avg_placement,
        f@.picks == f.picks && f@.damage_type == f.damage_type@ && f@.lift == f.lift,
        f@.icon_url == f.icon_url@ && f@.rank == f.rank,
        c@.item_combo == c.item_combo@ && c@.picks == c.picks && c@.avg_placement
            == c.avg_placement,
        c@.tank_item_count == c.tank_item_count && c@.rank == c.rank,
        r@.match_id == r.match_id@ && r@.set_number == r.set_number && r@.patch == r.patch@,
        r@.queue_id == r.queue_id && r@.game_datetime == r.game_datetime && r@.region == r.region@,
        p@.id == p.id@ && p@.puzzle_type == p.puzzle_type@ && p@.patch == p.patch@,
        p@.set_number == p.set_number && p@.prompt == p.prompt@ && p@.options == p.options@,
        p@.stats == p.stats@,
{
}

/// Of two items of a carry the one with the lower rank comes first, and nothing else decides.
pub proof fn lemma_items_by_rank(a: ItemModel, b: ItemModel)
    ensures
        <ItemFull as Ordered>::before(a, b) <==> a.rank < b.rank,
{
}

/// A patch becomes the current one from 2000 matches on.
pub proof fn lemma_patch_threshold()
    ensures
        MIN_PATCH_MATCHES == 2000,
{
}

}
