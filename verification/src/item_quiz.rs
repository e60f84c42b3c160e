//! Puzzles about items: which is best for this carry?
//!
//! The answer is what the data says. The type of the carry only decides which other items
//! are offered: for a dealer those of the answer's own kind, so that none can be ruled out
//! at a glance; for a bruiser damage and defence together.

use crate::db::{
    classify_carry, picks_fit, type_of, CarryType, ItemFull, ItemModel,
};
use crate::draw::shuffled;
use crate::json::{elements, field, lemma_member, Json, JsonModel, Number};
use crate::meta::{map_model, unit_name_or_id, Meta};
use crate::order::{models, sorted, stable_sort, Ordered};
use crate::puzzle::{
    ItemOptionStat, ItemOptionStatModel, ItemPrompt, ItemPromptModel, NamedModel, NamedRef,
    OptionItem, OptionModel,
};
use crate::seqs::{index_of_least, least_at, lemma_filter_elements, lemma_filter_step};
use crate::text::{has, str_eq, views};
use vstd::prelude::*;
use vstd::string::*;

verus! {

/// A carry that was seen less often gets no puzzle.
pub const MIN_CARRY_APPEARANCES: i64 = 30;

/// An item that a carry does not hold this many times as often as everybody else is one that
/// fits anybody.
pub const MIN_LIFT: i64 = 2;

/// Items that were picked less often are left out.
pub const MIN_ITEM_PICKS: i64 = 10;

/// Wrong options of a puzzle.
pub const WRONG_OPTIONS: usize = 3;

/// The name under which a type of carry is stored.
pub open spec fn carry_type_name(t: CarryType) -> Seq<char> {
    match t {
        CarryType::Dealer => "dealer"@,
        CarryType::Bruiser => "bruiser"@,
        CarryType::Tank => "tank"@,
    }
}

/// The name under which a type of carry is stored.
pub fn carry_type_str(t: CarryType) -> (r: &'static str)
    ensures
        r@ == carry_type_name(t),
{
    match t {
        CarryType::Dealer => "dealer",
        CarryType::Bruiser => "bruiser",
        CarryType::Tank => "tank",
    }
}

/// The damage types that wrong options may have.
pub open spec fn allowed_types(carry: CarryType, answer_type: Seq<char>) -> Seq<Seq<char>> {
    if carry == CarryType::Bruiser {
        seq!["ad"@, "ap"@, "mixed"@, "bruiser"@, "tank"@]
    } else if answer_type == "ad"@ {
        seq!["ad"@, "mixed"@]
    } else if answer_type == "ap"@ {
        seq!["ap"@, "mixed"@]
    } else if answer_type == "mixed"@ {
        seq!["ad"@, "ap"@, "mixed"@]
    } else {
        seq!["ad"@, "ap"@, "mixed"@, answer_type]
    }
}

/// The damage types that wrong options may have. For a bruiser the question is damage or
/// defence, so both; for others the answer's own kind, with what fits either.
pub fn allowed_distractor_types(carry: CarryType, answer_type: &str) -> (r: Vec<String>)
    ensures
        views(r@) == allowed_types(carry, answer_type@),
{
    let ad = "ad".to_string();
    let ap = "ap".to_string();
    let mixed = "mixed".to_string();
    let r = if carry == CarryType::Bruiser {
        vec![ad, ap, mixed, "bruiser".to_string(), "tank".to_string()]
    } else if str_eq(answer_type, "ad") {
        vec![ad, mixed]
    } else if str_eq(answer_type, "ap") {
        vec![ap, mixed]
    } else if str_eq(answer_type, "mixed") {
        vec![ad, ap, mixed]
    } else {
        vec![ad, ap, mixed, answer_type.to_string()]
    };
    assert(views(r@) =~= allowed_types(carry, answer_type@));
    r
}

// ---------------------------------------------------------------- the plan

/// The items that can be the answer, the best first.
pub open spec fn candidates_of(all: Seq<ItemModel>) -> Seq<ItemModel> {
    sorted::<ItemFull>(all.filter(|s: ItemModel| s.lift >= MIN_LIFT))
}

/// Six tenths of `picks`, rounded towards zero.
pub open spec fn six_tenths(picks: i64) -> int {
    if picks >= 0 {
        picks * 60 / 100
    } else {
        -(-picks * 60 / 100)
    }
}

/// Candidates behind the first that are picked less than six tenths as often as it.
pub open spec fn seldom_picked(candidates: Seq<ItemModel>) -> Seq<ItemModel> {
    candidates.drop_first().filter(|s: ItemModel| s.picks < six_tenths(candidates[0].picks))
}

/// The ranks of items.
pub open spec fn item_ranks(s: Seq<ItemModel>) -> Seq<i64> {
    Seq::new(s.len(), |i: int| s[i].rank)
}

/// The best item that few people pick.
pub open spec fn hidden_of(candidates: Seq<ItemModel>) -> Option<ItemModel> {
    let f = seldom_picked(candidates);
    if f.len() == 0 {
        None
    } else {
        Some(f[least_at(item_ranks(f))])
    }
}

/// An item by id and name.
pub open spec fn named(s: ItemModel) -> NamedModel {
    NamedModel { id: s.item, name: s.name }
}

/// The candidates that may be offered as wrong options.
pub open spec fn own_distractors(
    candidates: Seq<ItemModel>,
    allowed: Seq<Seq<char>>,
) -> Seq<NamedModel> {
    let f = candidates.filter(
        |s: ItemModel| s.item != candidates[0].item && allowed.contains(s.damage_type),
    );
    Seq::new(f.len(), |i: int| named(f[i]))
}

/// What is decided of a carry before items of others are asked for.
#[derive(Debug)]
pub struct ItemPlan {
    pub carry_type: CarryType,
    pub answer: ItemFull,
    /// A good item that few people pick.
    pub hidden: Option<ItemFull>,
    /// Damage types that wrong options may have.
    pub allowed: Vec<String>,
    /// Wrong options among the carry's own items.
    pub distractors: Vec<NamedRef>,
}

/// `plan` is what follows from the items of a carry of the given type.
pub open spec fn planned(plan: ItemPlan, carry_type: CarryType, all: Seq<ItemModel>) -> bool {
    let c = candidates_of(all);
    &&& c.len() > 0
    &&& plan.carry_type == carry_type
    &&& plan.answer@ == c[0]
    &&& match plan.hidden {
        Some(h) => hidden_of(c) == Some(h@),
        None => hidden_of(c) is None,
    }
    &&& views(plan.allowed@) == allowed_types(carry_type, c[0].damage_type)
    &&& models(plan.distractors@) == own_distractors(
        c,
        allowed_types(carry_type, c[0].damage_type),
    )
}

/// What becomes of a carry.
#[derive(Debug)]
pub enum ItemDecision {
    /// A tank, or nothing clear: no puzzle.
    Tank,
    /// No item can be the answer: no puzzle.
    NoAnswer,
    Plan(ItemPlan),
}

/// The limit below which an item counts as seldom picked fits its type.
pub open spec fn limits_fit(all: Seq<ItemModel>) -> bool {
    forall|i: int|
        0 <= i < all.len() ==> i64::MIN <= (#[trigger] all[i]).picks * 60 <= i64::MAX
}

fn six_tenths_of(picks: i64) -> (r: i64)
    requires
        i64::MIN <= picks * 60 <= i64::MAX,
    ensures
        r == six_tenths(picks),
{
    if picks >= 0 {
        ((picks as u64) * 60 / 100) as i64
    } else {
        -((((-picks) as u64) * 60 / 100) as i64)
    }
}

/// The items that can be the answer, the best first.
fn candidates(all: &Vec<ItemFull>) -> (r: Vec<ItemFull>)
    ensures
        models(r@) == candidates_of(models(all@)),
{
    let ghost s = models(all@);
    let ghost keep = |x: ItemModel| x.lift >= MIN_LIFT;
    let mut out: Vec<ItemFull> = Vec::new();
    let mut i: usize = 0;
    proof {
        reveal(Seq::filter);
        assert(models(out@) =~= s.take(0).filter(keep));
    }
    while i < all.len()
        invariant
            i <= all@.len(),
            s == models(all@),
            keep == (|x: ItemModel| x.lift >= MIN_LIFT),
            models(out@) == s.take(i as int).filter(keep),
        decreases all@.len() - i,
    {
        let ghost before = out@;
        proof {
            lemma_filter_step(s, i as int, keep);
            assert(s[i as int] == all@[i as int]@);
        }
        if all[i].lift >= MIN_LIFT {
            let x = all[i].copy();
            let ghost xv = x@;
            out.push(x);
            assert(models(out@) =~= models(before).push(xv));
        }
        i += 1;
    }
    assert(s.take(s.len() as int) == s);
    stable_sort(out)
}

/// The best item that few people pick.
fn hidden_pick(c: &Vec<ItemFull>) -> (r: Option<ItemFull>)
    requires
        c@.len() > 0,
        i64::MIN <= c@[0].picks * 60 <= i64::MAX,
    ensures
        match r {
            Some(h) => hidden_of(models(c@)) == Some(h@),
            None => hidden_of(models(c@)) is None,
        },
{
    let limit = six_tenths_of(c[0].picks);
    let ghost rest = models(c@).drop_first();
    let ghost keep = |s: ItemModel| s.picks < six_tenths(models(c@)[0].picks);
    let mut places: Vec<usize> = Vec::new();
    let mut scores: Vec<i64> = Vec::new();
    let mut i: usize = 1;
    proof {
        reveal(Seq::filter);
    }
    while i < c.len()
        invariant
            1 <= i <= c@.len(),
            rest == models(c@).drop_first(),
            limit == six_tenths(c@[0].picks),
            keep == (|s: ItemModel| s.picks < six_tenths(models(c@)[0].picks)),
            places@.len() == rest.take(i - 1).filter(keep).len(),
            scores@ == item_ranks(rest.take(i - 1).filter(keep)),
            forall|k: int|
                0 <= k < places@.len() ==> (#[trigger] places@[k]) < c@.len() && models(
                    c@,
                )[places@[k] as int] == rest.take(i - 1).filter(keep)[k],
        decreases c@.len() - i,
    {
        let ghost f = rest.take(i - 1).filter(keep);
        proof {
            lemma_filter_step(rest, i - 1, keep);
            assert(rest[i - 1] == c@[i as int]@);
        }
        if c[i].picks < limit {
            places.push(i);
            scores.push(c[i].rank);
            assert(item_ranks(f.push(c@[i as int]@)) =~= item_ranks(f).push(c@[i as int].rank));
        }
        i += 1;
    }
    assert(rest.take(rest.len() as int) == rest);
    if places.len() == 0 {
        return None;
    }
    let b = index_of_least(&scores);
    Some(c[places[b]].copy())
}

fn own(c: &Vec<ItemFull>, allowed: &Vec<String>) -> (r: Vec<NamedRef>)
    requires
        c@.len() > 0,
    ensures
        models(r@) == own_distractors(models(c@), views(allowed@)),
{
    let ghost s = models(c@);
    let ghost keep = |x: ItemModel|
        x.item != s[0].item && views(allowed@).contains(x.damage_type);
    let mut out: Vec<NamedRef> = Vec::new();
    let mut i: usize = 0;
    proof {
        reveal(Seq::filter);
        assert(models(out@) =~= Seq::empty());
    }
    while i < c.len()
        invariant
            0 < c@.len(),
            i <= c@.len(),
            s == models(c@),
            keep == (|x: ItemModel|
                x.item != s[0].item && views(allowed@).contains(x.damage_type)),
            out@.len() == s.take(i as int).filter(keep).len(),
            forall|k: int|
                0 <= k < out@.len() ==> (#[trigger] out@[k])@ == named(
                    s.take(i as int).filter(keep)[k],
                ),
        decreases c@.len() - i,
    {
        proof {
            lemma_filter_step(s, i as int, keep);
            assert(s[i as int] == c@[i as int]@);
            assert(s[0] == c@[0]@);
        }
        if !str_eq(c[i].item.as_str(), c[0].item.as_str()) && has(allowed, c[i].damage_type.as_str()) {
            out.push(NamedRef { id: c[i].item.clone(), name: c[i].name.clone() });
        }
        i += 1;
    }
    assert(s.take(s.len() as int) == s);
    assert(models(out@) =~= own_distractors(s, views(allowed@)));
    out
}

/// What becomes of a carry: what it is played as, which of its items is the answer, and
/// which may be offered beside it.
pub fn plan_item_quiz(types: &Vec<(String, i64)>, all: &Vec<ItemFull>) -> (r: ItemDecision)
    requires
        picks_fit(types@),
        limits_fit(models(all@)),
    ensures
        ({
            let t = type_of(types@);
            match r {
                ItemDecision::Tank => t == CarryType::Tank,
                ItemDecision::NoAnswer => t != CarryType::Tank && candidates_of(
                    models(all@),
                ).len() == 0,
                ItemDecision::Plan(plan) => t != CarryType::Tank && planned(plan, t, models(all@)),
            }
        }),
{
    let carry_type = classify_carry(types);
    if carry_type == CarryType::Tank {
        return ItemDecision::Tank;
    }
    let mut c = candidates(all);
    assert(models(c@).len() == c@.len());
    if c.len() == 0 {
        return ItemDecision::NoAnswer;
    }
    proof {
        broadcast use vstd::seq_lib::group_to_multiset_ensures;

        let s = models(all@);
        let keep = |x: ItemModel| x.lift >= MIN_LIFT;
        let f = s.filter(keep);
        crate::order::lemma_sorted_permutes::<ItemFull>(f);
        let x = models(c@)[0];
        assert(models(c@).contains(x));
        assert(f.to_multiset().count(x) > 0);
        assert(f.contains(x));
        let k = choose|k: int| 0 <= k < f.len() && f[k] == x;
        lemma_filter_elements(s, keep);
        assert(s.contains(f[k]));
        let m = choose|m: int| 0 <= m < s.len() && s[m] == x;
        assert(c@[0].picks == s[m].picks);
    }
    let hidden = hidden_pick(&c);
    let allowed = allowed_distractor_types(carry_type, c[0].damage_type.as_str());
    let distractors = own(&c, &allowed);
    assert(models(c@)[0] == c@[0]@);
    let answer = c.remove(0);
    ItemDecision::Plan(ItemPlan { carry_type, answer, hidden, allowed, distractors })
}

// ---------------------------------------------------------------- wrong options

/// One of `d` has the id.
pub open spec fn has_id(d: Seq<NamedModel>, id: Seq<char>) -> bool {
    exists|i: int| 0 <= i < d.len() && (#[trigger] d[i]).id == id
}

/// `d` with items of the pool, as they come, until there are enough: no answer, and none that
/// is there already.
pub open spec fn filled(
    d: Seq<NamedModel>,
    answer: Seq<char>,
    pool: Seq<NamedModel>,
) -> Seq<NamedModel>
    decreases pool.len(),
{
    if d.len() >= WRONG_OPTIONS || pool.len() == 0 {
        d
    } else if pool[0].id == answer || has_id(d, pool[0].id) {
        filled(d, answer, pool.drop_first())
    } else {
        filled(d.push(pool[0]), answer, pool.drop_first())
    }
}

/// The ids of the pool that are neither the answer nor there already.
pub open spec fn fresh_ids(
    d: Seq<NamedModel>,
    answer: Seq<char>,
    pool: Seq<NamedModel>,
) -> Set<Seq<char>> {
    Set::new(|id: Seq<char>| has_id(pool, id) && id != answer && !has_id(d, id))
}

proof fn lemma_fresh_finite(d: Seq<NamedModel>, answer: Seq<char>, pool: Seq<NamedModel>)
    ensures
        fresh_ids(d, answer, pool).finite(),
{
    let ids = Seq::new(pool.len(), |i: int| pool[i].id);
    assert(fresh_ids(d, answer, pool).subset_of(ids.to_set())) by {
        assert forall|id: Seq<char>| fresh_ids(d, answer, pool).contains(id) implies ids.to_set().contains(
            id,
        ) by {
            let i = choose|i: int| 0 <= i < pool.len() && pool[i].id == id;
            assert(ids[i] == id);
        }
    }
    vstd::set_lib::lemma_set_subset_finite(ids.to_set(), fresh_ids(d, answer, pool));
}

/// How many wrong options there are does not depend on the order in which the pool comes.
pub proof fn lemma_filled_len(d: Seq<NamedModel>, answer: Seq<char>, pool: Seq<NamedModel>)
    requires
        d.len() <= WRONG_OPTIONS,
    ensures
        filled(d, answer, pool).len() == if d.len() + fresh_ids(d, answer, pool).len()
            < WRONG_OPTIONS {
            d.len() + fresh_ids(d, answer, pool).len()
        } else {
            WRONG_OPTIONS as nat
        },
    decreases pool.len(),
{
    lemma_fresh_finite(d, answer, pool);
    let fresh = fresh_ids(d, answer, pool);
    if d.len() >= WRONG_OPTIONS {
    } else if pool.len() == 0 {
        assert(fresh =~= Set::empty());
    } else {
        let x = pool[0];
        let rest = pool.drop_first();
        assert forall|id: Seq<char>| #[trigger] has_id(pool, id) <==> id == x.id || has_id(
            rest,
            id,
        ) by {
            if has_id(pool, id) && id != x.id {
                let i = choose|i: int| 0 <= i < pool.len() && pool[i].id == id;
                assert(rest[i - 1].id == id);
            }
            if has_id(rest, id) {
                let i = choose|i: int| 0 <= i < rest.len() && rest[i].id == id;
                assert(pool[i + 1].id == id);
            }
            if id == x.id {
                assert(pool[0].id == id);
            }
        }
        if x.id == answer || has_id(d, x.id) {
            lemma_filled_len(d, answer, rest);
            assert(fresh =~= fresh_ids(d, answer, rest));
        } else {
            let e = d.push(x);
            assert forall|id: Seq<char>| #[trigger] has_id(e, id) <==> id == x.id || has_id(d, id) by {
                if has_id(e, id) && id != x.id {
                    let i = choose|i: int| 0 <= i < e.len() && e[i].id == id;
                    assert(d[i].id == id);
                }
                if has_id(d, id) {
                    let i = choose|i: int| 0 <= i < d.len() && d[i].id == id;
                    assert(e[i].id == id);
                }
                if id == x.id {
                    assert(e[d.len() as int].id == id);
                }
            }
            lemma_filled_len(e, answer, rest);
            assert(fresh =~= fresh_ids(e, answer, rest).insert(x.id));
            lemma_fresh_finite(e, answer, rest);
        }
    }
}

/// The pool in another order has the same ids.
proof fn lemma_fresh_order(
    d: Seq<NamedModel>,
    answer: Seq<char>,
    a: Seq<NamedModel>,
    b: Seq<NamedModel>,
)
    requires
        a.to_multiset() == b.to_multiset(),
    ensures
        fresh_ids(d, answer, a) == fresh_ids(d, answer, b),
{
    broadcast use vstd::seq_lib::group_to_multiset_ensures;

    assert forall|id: Seq<char>| #[trigger] has_id(a, id) <==> has_id(b, id) by {
        if has_id(a, id) {
            let i = choose|i: int| 0 <= i < a.len() && a[i].id == id;
            assert(a.contains(a[i]));
            assert(b.to_multiset().count(a[i]) > 0);
            assert(b.contains(a[i]));
            let j = choose|j: int| 0 <= j < b.len() && b[j] == a[i];
            assert(b[j].id == id);
        }
        if has_id(b, id) {
            let i = choose|i: int| 0 <= i < b.len() && b[i].id == id;
            assert(b.contains(b[i]));
            assert(a.to_multiset().count(b[i]) > 0);
            assert(a.contains(b[i]));
            let j = choose|j: int| 0 <= j < a.len() && a[j] == b[i];
            assert(a[j].id == id);
        }
    }
    assert(fresh_ids(d, answer, a) =~= fresh_ids(d, answer, b));
}

fn id_among(d: &Vec<NamedRef>, id: &str) -> (r: bool)
    ensures
        r == has_id(models(d@), id@),
{
    let mut i: usize = 0;
    while i < d.len()
        invariant
            i <= d@.len(),
            forall|k: int| 0 <= k < i ==> (#[trigger] models(d@)[k]).id != id@,
        decreases d@.len() - i,
    {
        if str_eq(d[i].id.as_str(), id) {
            assert(models(d@)[i as int].id == id@);
            return true;
        }
        i += 1;
    }
    false
}

/// `d` with items of the pool, as they come, until there are enough.
pub fn fill_distractors(d: Vec<NamedRef>, answer: &str, pool: Vec<NamedRef>) -> (r: Vec<NamedRef>)
    ensures
        models(r@) == filled(models(d@), answer@, models(pool@)),
{
    let ghost goal = filled(models(d@), answer@, models(pool@));
    let mut d = d;
    let mut pool = pool;
    while d.len() < WRONG_OPTIONS && pool.len() > 0
        invariant
            filled(models(d@), answer@, models(pool@)) == goal,
        decreases pool@.len(),
    {
        let ghost pool0 = pool@;
        let ghost d0 = d@;
        let x = pool.remove(0);
        let ghost xv = x@;
        proof {
            assert(models(pool0)[0] == xv);
            assert(models(pool0).drop_first() =~= models(pool@));
        }
        if !str_eq(x.id.as_str(), answer) && !id_among(&d, x.id.as_str()) {
            d.push(x);
            assert(models(d@) =~= models(d0).push(xv));
        }
    }
    d
}

/// The wrong options of a puzzle, where there are enough.
pub open spec fn wrong_options(
    d: Seq<NamedModel>,
    answer: Seq<char>,
    pool: Seq<NamedModel>,
) -> Seq<NamedModel> {
    filled(d, answer, pool).take(WRONG_OPTIONS as int)
}

/// There are enough wrong options.
pub open spec fn enough(d: Seq<NamedModel>, answer: Seq<char>, pool: Seq<NamedModel>) -> bool {
    d.len() + fresh_ids(d, answer, pool).len() >= WRONG_OPTIONS
}

// ---------------------------------------------------------------- the puzzle

/// A puzzle about the items of a carry.
#[derive(Debug)]
pub struct ItemPuzzle {
    pub prompt: ItemPrompt,
    pub options: Vec<OptionItem>,
    /// The id of the best item.
    pub answer: String,
    /// What is told after the answer, of each option.
    pub option_stats: Vec<ItemOptionStat>,
    /// What is told after the answer.
    pub stats: Json,
}

pub struct ItemPuzzleModel {
    pub prompt: ItemPromptModel,
    pub options: Seq<OptionModel>,
    pub answer: Seq<char>,
    pub option_stats: Seq<ItemOptionStatModel>,
    pub stats: JsonModel,
}

impl View for ItemPuzzle {
    type V = ItemPuzzleModel;

    open spec fn view(&self) -> ItemPuzzleModel {
        ItemPuzzleModel {
            prompt: self.prompt@,
            options: models(self.options@),
            answer: self.answer@,
            option_stats: models(self.option_stats@),
            stats: self.stats@,
        }
    }
}

/// The first entry of an item.
pub open spec fn entry(all: Seq<ItemModel>, id: Seq<char>) -> Option<ItemModel>
    decreases all.len(),
{
    if all.len() == 0 {
        None
    } else if all[0].item == id {
        Some(all[0])
    } else {
        entry(all.drop_first(), id)
    }
}

/// What is told of an option.
pub open spec fn option_stat(
    o: NamedModel,
    answer: Seq<char>,
    all: Seq<ItemModel>,
) -> ItemOptionStatModel {
    ItemOptionStatModel {
        id: o.id,
        name: o.name,
        avg_placement: match entry(all, o.id) {
            Some(s) => Some(s.avg_placement),
            None => None,
        },
        sample_size: match entry(all, o.id) {
            Some(s) => s.picks,
            None => 0,
        },
        is_best: o.id == answer,
    }
}

/// What is told of an option, as a document.
pub open spec fn option_stat_json(s: ItemOptionStatModel) -> JsonModel {
    JsonModel::Object(
        seq![
            ("id"@, JsonModel::Str(s.id)),
            ("name"@, JsonModel::Str(s.name)),
            (
                "avg_placement"@,
                match s.avg_placement {
                    Some(n) => JsonModel::Num(Number::Hundredths(n)),
                    None => JsonModel::Null,
                },
            ),
            ("sample_size"@, JsonModel::Num(Number::Int(s.sample_size))),
            ("is_best"@, JsonModel::Bool(s.is_best)),
        ],
    )
}

/// What is told of the item that few people pick.
pub open spec fn hidden_json(h: Option<ItemModel>) -> JsonModel {
    match h {
        Some(s) => JsonModel::Object(
            seq![
                ("id"@, JsonModel::Str(s.item)),
                ("name"@, JsonModel::Str(s.name)),
                ("avg_placement"@, JsonModel::Num(Number::Hundredths(s.avg_placement))),
                ("sample_size"@, JsonModel::Num(Number::Int(s.picks))),
            ],
        ),
        None => JsonModel::Null,
    }
}

/// The item that few people pick, by its model.
pub open spec fn hidden_model(h: Option<ItemFull>) -> Option<ItemModel> {
    match h {
        Some(x) => Some(x@),
        None => None,
    }
}

/// The puzzle with the given options.
pub open spec fn item_puzzle_of(
    carry_id: Seq<char>,
    appearances: i64,
    patch: Seq<char>,
    plan: ItemPlan,
    opts: Seq<NamedModel>,
    all: Seq<ItemModel>,
    meta: Meta,
) -> ItemPuzzleModel {
    let name = unit_name_or_id(map_model(meta.units@), carry_id);
    let answer = plan.answer@.item;
    let told = Seq::new(opts.len(), |i: int| option_stat(opts[i], answer, all));
    ItemPuzzleModel {
        prompt: ItemPromptModel {
            question: name + " 캐리에게 가장 좋은 아이템은?"@,
            carry: NamedModel { id: carry_id, name },
            context_traits: seq![],
            patch,
        },
        options: Seq::new(
            opts.len(),
            |i: int| OptionModel { id: opts[i].id, name: opts[i].name, icon: seq![] },
        ),
        answer,
        option_stats: told,
        stats: JsonModel::Object(
            seq![
                (
                    "options"@,
                    JsonModel::Array(Seq::new(told.len(), |i: int| option_stat_json(told[i]))),
                ),
                ("carry_appearances"@, JsonModel::Num(Number::Int(appearances))),
                ("carry_type"@, JsonModel::Str(carry_type_name(plan.carry_type))),
                ("hidden_pick"@, hidden_json(hidden_model(plan.hidden))),
            ],
        ),
    }
}

fn find_entry<'a>(all: &'a Vec<ItemFull>, id: &str) -> (r: Option<&'a ItemFull>)
    ensures
        match r {
            Some(x) => entry(models(all@), id@) == Some(x@),
            None => entry(models(all@), id@) is None,
        },
{
    let ghost s = models(all@);
    let mut i: usize = 0;
    assert(s.skip(0) == s);
    while i < all.len()
        invariant
            i <= all@.len(),
            s == models(all@),
            entry(s, id@) == entry(s.skip(i as int), id@),
        decreases all@.len() - i,
    {
        assert(s.skip(i as int)[0] == all@[i as int]@);
        assert(s.skip(i as int).drop_first() == s.skip(i + 1));
        if str_eq(all[i].item.as_str(), id) {
            return Some(&all[i]);
        }
        i += 1;
    }
    None
}

fn stat_json(s: &ItemOptionStat) -> (r: Json)
    ensures
        r@ == option_stat_json(s@),
{
    let mean = match s.avg_placement {
        Some(n) => Json::hundredths(n),
        None => Json::Null,
    };
    let v = vec![
        field("id", Json::text(s.id.as_str())),
        field("name", Json::text(s.name.as_str())),
        field("avg_placement", mean),
        field("sample_size", Json::integer(s.sample_size)),
        field("is_best", Json::boolean(s.is_best)),
    ];
    let r = Json::object(v);
    assert(r@->Object_0 =~= option_stat_json(s@)->Object_0);
    r
}

fn hidden_to_json(h: &Option<ItemFull>) -> (r: Json)
    ensures
        r@ == hidden_json(hidden_model(*h)),
{
    match h {
        Some(s) => {
            let v = vec![
                field("id", Json::text(s.item.as_str())),
                field("name", Json::text(s.name.as_str())),
                field("avg_placement", Json::hundredths(s.avg_placement)),
                field("sample_size", Json::integer(s.picks)),
            ];
            let r = Json::object(v);
            assert(r@->Object_0 =~= hidden_json(hidden_model(*h))->Object_0);
            r
        },
        None => Json::Null,
    }
}

/// The puzzle with the given options.
pub fn item_puzzle(
    carry_id: &str,
    appearances: i64,
    patch: &str,
    plan: &ItemPlan,
    opts: &Vec<NamedRef>,
    all: &Vec<ItemFull>,
    meta: &Meta,
) -> (r: ItemPuzzle)
    ensures
        r@ == item_puzzle_of(
            carry_id@,
            appearances,
            patch@,
            *plan,
            models(opts@),
            models(all@),
            *meta,
        ),
{
    let ghost goal = item_puzzle_of(
        carry_id@,
        appearances,
        patch@,
        *plan,
        models(opts@),
        models(all@),
        *meta,
    );
    let mut options: Vec<OptionItem> = Vec::new();
    let mut option_stats: Vec<ItemOptionStat> = Vec::new();
    let mut told: Vec<Json> = Vec::new();
    let mut i: usize = 0;
    while i < opts.len()
        invariant
            i <= opts@.len(),
            goal == item_puzzle_of(
                carry_id@,
                appearances,
                patch@,
                *plan,
                models(opts@),
                models(all@),
                *meta,
            ),
            options@.len() == i,
            option_stats@.len() == i,
            told@.len() == i,
            forall|k: int| 0 <= k < i ==> (#[trigger] options@[k])@ == goal.options[k],
            forall|k: int| 0 <= k < i ==> (#[trigger] option_stats@[k])@ == goal.option_stats[k],
            forall|k: int|
                0 <= k < i ==> (#[trigger] told@[k])@ == option_stat_json(goal.option_stats[k]),
        decreases opts@.len() - i,
    {
        let o = &opts[i];
        assert(models(opts@)[i as int] == o@);
        options.push(
            OptionItem { id: o.id.clone(), name: o.name.clone(), icon: String::new() },
        );
        let (avg_placement, sample_size) = match find_entry(all, o.id.as_str()) {
            Some(s) => (Some(s.avg_placement), s.picks),
            None => (None, 0i64),
        };
        let s = ItemOptionStat {
            id: o.id.clone(),
            name: o.name.clone(),
            avg_placement,
            sample_size,
            is_best: str_eq(o.id.as_str(), plan.answer.item.as_str()),
        };
        assert(s@ == option_stat(o@, plan.answer@.item, models(all@)));
        told.push(stat_json(&s));
        option_stats.push(s);
        i += 1;
    }
    let name = meta.unit_name(carry_id);
    let mut question = name.clone();
    question.append(" 캐리에게 가장 좋은 아이템은?");
    let context_traits: Vec<String> = Vec::new();
    assert(views(context_traits@) =~= seq![]);
    let v = vec![
        field("options", Json::array(told)),
        field("carry_appearances", Json::integer(appearances)),
        field("carry_type", Json::text(carry_type_str(plan.carry_type))),
        field("hidden_pick", hidden_to_json(&plan.hidden)),
    ];
    let stats = Json::object(v);
    proof {
        let f = goal.stats->Object_0;
        assert(elements(told@) =~= f[0].1->Array_0);
        assert(stats@->Object_0 =~= f);
    }
    let r = ItemPuzzle {
        prompt: ItemPrompt {
            question,
            carry: NamedRef { id: carry_id.to_string(), name },
            context_traits,
            patch: patch.to_string(),
        },
        options,
        answer: plan.answer.item.clone(),
        option_stats,
        stats,
    };
    assert(r@.options =~= goal.options);
    assert(r@.option_stats =~= goal.option_stats);
    r
}

/// `opts` are the answer and the wrong options that come of the pool in the given order, in
/// some order of their own.
pub open spec fn arranged(
    opts: Seq<NamedModel>,
    order: Seq<NamedModel>,
    plan: ItemPlan,
    pool: Seq<NamedModel>,
) -> bool {
    &&& order.to_multiset() == pool.to_multiset()
    &&& opts.to_multiset() == (seq![named(plan.answer@)] + wrong_options(
        models(plan.distractors@),
        plan.answer@.item,
        order,
    )).to_multiset()
}

/// `z` is a puzzle that follows from the plan and the pool.
pub open spec fn asks_item(
    z: ItemPuzzleModel,
    carry_id: Seq<char>,
    appearances: i64,
    patch: Seq<char>,
    plan: ItemPlan,
    pool: Seq<NamedModel>,
    all: Seq<ItemModel>,
    meta: Meta,
) -> bool {
    exists|opts: Seq<NamedModel>, order: Seq<NamedModel>| #[trigger]
        arranged(opts, order, plan, pool) && z == item_puzzle_of(
            carry_id,
            appearances,
            patch,
            plan,
            opts,
            all,
            meta,
        )
}

proof fn lemma_models_multiset(a: Seq<NamedRef>, b: Seq<NamedRef>)
    requires
        a.to_multiset() == b.to_multiset(),
    ensures
        models(a).to_multiset() == models(b).to_multiset(),
{
    let f = |s: NamedRef| s@;
    crate::seqs::lemma_images_multiset(a, b, f);
    assert(models(a) =~= a.map_values(f));
    assert(models(b) =~= b.map_values(f));
}

fn copy_named(v: &Vec<NamedRef>) -> (r: Vec<NamedRef>)
    ensures
        models(r@) == models(v@),
{
    let mut out: Vec<NamedRef> = Vec::new();
    let mut i: usize = 0;
    while i < v.len()
        invariant
            i <= v@.len(),
            out@.len() == i,
            forall|k: int| 0 <= k < i ==> (#[trigger] out@[k])@ == v@[k]@,
        decreases v@.len() - i,
    {
        out.push(v[i].copy());
        i += 1;
    }
    assert(models(out@) =~= models(v@));
    out
}

proof fn lemma_enough(d: Seq<NamedModel>, answer: Seq<char>, pool: Seq<NamedModel>, order: Seq<NamedModel>)
    requires
        order.to_multiset() == pool.to_multiset(),
    ensures
        enough(d, answer, pool) <==> filled(d, answer, order).len() >= WRONG_OPTIONS,
{
    if d.len() <= WRONG_OPTIONS {
        lemma_filled_len(d, answer, order);
        lemma_fresh_order(d, answer, order, pool);
    }
}

/// A puzzle that follows from the plan; none where there are too few wrong options. Which
/// items of the pool are offered, and in what order the options stand, is left to chance.
pub fn make_item_puzzle(
    carry_id: &str,
    appearances: i64,
    patch: &str,
    plan: &ItemPlan,
    pool: Vec<NamedRef>,
    all: &Vec<ItemFull>,
    meta: &Meta,
) -> (r: Option<ItemPuzzle>)
    ensures
        match r {
            Some(z) => enough(models(plan.distractors@), plan.answer@.item, models(pool@))
                && asks_item(
                z@,
                carry_id@,
                appearances,
                patch@,
                *plan,
                models(pool@),
                models(all@),
                *meta,
            ),
            None => !enough(models(plan.distractors@), plan.answer@.item, models(pool@)),
        },
{
    let ghost pool0 = pool@;
    let pool = shuffled(pool);
    let ghost order = models(pool@);
    let own = copy_named(&plan.distractors);
    proof {
        lemma_models_multiset(pool@, pool0);
        lemma_enough(models(own@), plan.answer@.item, models(pool0), order);
    }
    let mut d = fill_distractors(own, plan.answer.item.as_str(), pool);
    assert(models(d@).len() == d@.len());
    if d.len() < WRONG_OPTIONS {
        return None;
    }
    let ghost d0 = d@;
    d.truncate(WRONG_OPTIONS);
    assert(models(d@) =~= models(d0).take(WRONG_OPTIONS as int));
    let mut opts: Vec<NamedRef> = vec![
        NamedRef { id: plan.answer.item.clone(), name: plan.answer.name.clone() },
    ];
    let ghost wrong = models(d@);
    opts.append(&mut d);
    let ghost before = opts@;
    assert(models(before) =~= seq![named(plan.answer@)] + wrong);
    let opts = shuffled(opts);
    proof {
        lemma_models_multiset(opts@, before);
        assert(arranged(models(opts@), order, *plan, models(pool0)));
    }
    Some(item_puzzle(carry_id, appearances, patch, plan, &opts, all, meta))
}

// ---------------------------------------------------------------- laws

/// What is filled up begins with what was there, has no id twice where that had none, and
/// never the answer where that had it not.
proof fn lemma_filled(d: Seq<NamedModel>, answer: Seq<char>, pool: Seq<NamedModel>)
    requires
        !has_id(d, answer),
        forall|i: int, j: int|
            0 <= i < j < d.len() ==> (#[trigger] d[i]).id != (#[trigger] d[j]).id,
    ensures
        !has_id(filled(d, answer, pool), answer),
        forall|i: int, j: int|
            0 <= i < j < filled(d, answer, pool).len() ==> (#[trigger] filled(
                d,
                answer,
                pool,
            )[i]).id != (#[trigger] filled(d, answer, pool)[j]).id,
    decreases pool.len(),
{
    if d.len() >= WRONG_OPTIONS || pool.len() == 0 {
    } else if pool[0].id == answer || has_id(d, pool[0].id) {
        lemma_filled(d, answer, pool.drop_first());
    } else {
        let e = d.push(pool[0]);
        assert forall|i: int, j: int| 0 <= i < j < e.len() implies (#[trigger] e[i]).id
            != (#[trigger] e[j]).id by {
            assert(e[i] == d[i]);
            if j < d.len() {
                assert(e[j] == d[j]);
            }
        }
        assert(!has_id(e, answer)) by {
            if has_id(e, answer) {
                let i = choose|i: int| 0 <= i < e.len() && e[i].id == answer;
                assert(d[i].id == answer);
            }
        }
        lemma_filled(e, answer, pool.drop_first());
    }
}

/// No item is listed twice.
pub open spec fn items_distinct(all: Seq<ItemModel>) -> bool {
    forall|i: int, j: int|
        0 <= i < j < all.len() ==> (#[trigger] all[i]).item != (#[trigger] all[j]).item
}

proof fn lemma_candidates_distinct(all: Seq<ItemModel>)
    requires
        items_distinct(all),
    ensures
        items_distinct(candidates_of(all)),
{
    broadcast use vstd::seq_lib::group_to_multiset_ensures;

    let keep = |s: ItemModel| s.lift >= MIN_LIFT;
    let f = all.filter(keep);
    let c = candidates_of(all);
    assert(all.no_duplicates());
    crate::seqs::lemma_filter_distinct(all, keep);
    lemma_filter_elements(all, keep);
    crate::order::lemma_sorted_permutes::<ItemFull>(f);
    f.lemma_multiset_has_no_duplicates();
    c.lemma_multiset_has_no_duplicates_conv();
    assert forall|i: int, j: int| 0 <= i < j < c.len() implies (#[trigger] c[i]).item
        != (#[trigger] c[j]).item by {
        assert(c.contains(c[i]) && c.contains(c[j]));
        assert(f.to_multiset().count(c[i]) > 0 && f.to_multiset().count(c[j]) > 0);
        assert(f.contains(c[i]) && f.contains(c[j]));
        let k = choose|k: int| 0 <= k < f.len() && f[k] == c[i];
        let l = choose|l: int| 0 <= l < f.len() && f[l] == c[j];
        assert(all.contains(f[k]) && all.contains(f[l]));
        let m = choose|m: int| 0 <= m < all.len() && all[m] == c[i];
        let n = choose|n: int| 0 <= n < all.len() && all[n] == c[j];
        assert(c[i] != c[j]);
        if m < n {
            assert(all[m].item != all[n].item);
        } else {
            assert(all[n].item != all[m].item);
        }
    }
}

proof fn lemma_own_distinct(c: Seq<ItemModel>, allowed: Seq<Seq<char>>)
    requires
        c.len() > 0,
        items_distinct(c),
    ensures
        !has_id(own_distractors(c, allowed), c[0].item),
        forall|i: int, j: int|
            0 <= i < j < own_distractors(c, allowed).len() ==> (#[trigger] own_distractors(
                c,
                allowed,
            )[i]).id != (#[trigger] own_distractors(c, allowed)[j]).id,
{
    let keep = |s: ItemModel| s.item != c[0].item && allowed.contains(s.damage_type);
    let f = c.filter(keep);
    let d = own_distractors(c, allowed);
    lemma_filter_elements(c, keep);
    assert(c.no_duplicates());
    crate::seqs::lemma_filter_distinct(c, keep);
    if has_id(d, c[0].item) {
        let i = choose|i: int| 0 <= i < d.len() && d[i].id == c[0].item;
        assert(keep(f[i]));
    }
    assert forall|i: int, j: int| 0 <= i < j < d.len() implies (#[trigger] d[i]).id
        != (#[trigger] d[j]).id by {
        assert(f[i] != f[j]);
        assert(c.contains(f[i]) && c.contains(f[j]));
        let m = choose|m: int| 0 <= m < c.len() && c[m] == f[i];
        let n = choose|n: int| 0 <= n < c.len() && c[n] == f[j];
        if m < n {
            assert(c[m].item != c[n].item);
        } else {
            assert(c[n].item != c[m].item);
        }
    }
}

/// The answer of an item puzzle is the best of the items that the carry favours.
pub proof fn lemma_answer_is_best_item(plan: ItemPlan, carry_type: CarryType, all: Seq<ItemModel>)
    requires
        planned(plan, carry_type, all),
    ensures
        all.contains(plan.answer@),
        plan.answer@.lift >= MIN_LIFT,
        forall|i: int|
            0 <= i < all.len() && (#[trigger] all[i]).lift >= MIN_LIFT ==> plan.answer@.rank
                <= all[i].rank,
{
    broadcast use vstd::seq_lib::group_to_multiset_ensures;

    let keep = |s: ItemModel| s.lift >= MIN_LIFT;
    let f = all.filter(keep);
    let c = candidates_of(all);
    lemma_filter_elements(all, keep);
    crate::order::lemma_sorted_permutes::<ItemFull>(f);
    crate::order::lemma_sorted_in_order::<ItemFull>(f);
    assert(c.contains(c[0]));
    assert(f.to_multiset().count(c[0]) > 0);
    assert(f.contains(c[0]));
    let k = choose|k: int| 0 <= k < f.len() && f[k] == c[0];
    assert(keep(f[k]) && all.contains(f[k]));
    assert forall|i: int| 0 <= i < all.len() && (#[trigger] all[i]).lift >= MIN_LIFT implies c[0].rank
        <= all[i].rank by {
        assert(all.contains(all[i]) && keep(all[i]));
        assert(f.contains(all[i]));
        assert(c.to_multiset().count(all[i]) > 0);
        assert(c.contains(all[i]));
        let j = choose|j: int| 0 <= j < c.len() && c[j] == all[i];
        if j > 0 {
            assert(!ItemFull::before(c[j], c[0]));
        }
    }
}

/// An item puzzle has four options. Where no item is listed twice, no option comes twice and
/// exactly one of them is the answer.
pub proof fn lemma_item_options(
    z: ItemPuzzleModel,
    carry_id: Seq<char>,
    appearances: i64,
    patch: Seq<char>,
    carry_type: CarryType,
    plan: ItemPlan,
    pool: Seq<NamedModel>,
    all: Seq<ItemModel>,
    meta: Meta,
)
    requires
        planned(plan, carry_type, all),
        items_distinct(all),
        enough(models(plan.distractors@), plan.answer@.item, pool),
        asks_item(z, carry_id, appearances, patch, plan, pool, all, meta),
    ensures
        z.options.len() == 4,
        z.option_stats.len() == 4,
        forall|i: int, j: int|
            0 <= i < j < 4 ==> (#[trigger] z.options[i]).id != (#[trigger] z.options[j]).id,
        exists|i: int| 0 <= i < 4 && (#[trigger] z.options[i]).id == z.answer,
        forall|i: int|
            #![trigger z.option_stats[i]]
            0 <= i < 4 ==> z.option_stats[i].id == z.options[i].id && (z.option_stats[i].is_best
                <==> z.options[i].id == z.answer),
{
    broadcast use vstd::seq_lib::group_to_multiset_ensures;

    let (opts, order) = choose|opts: Seq<NamedModel>, order: Seq<NamedModel>| #[trigger]
        arranged(opts, order, plan, pool) && z == item_puzzle_of(
            carry_id,
            appearances,
            patch,
            plan,
            opts,
            all,
            meta,
        );
    let c = candidates_of(all);
    let allowed = allowed_types(carry_type, c[0].damage_type);
    let d = models(plan.distractors@);
    let answer = plan.answer@.item;
    lemma_candidates_distinct(all);
    lemma_own_distinct(c, allowed);
    lemma_filled(d, answer, order);
    lemma_enough(d, answer, pool, order);
    let w = wrong_options(d, answer, order);
    let s = seq![named(plan.answer@)] + w;
    assert(opts.len() == opts.to_multiset().len());
    assert(s.len() == s.to_multiset().len());
    let ids = |x: NamedModel| x.id;
    crate::seqs::lemma_images_multiset(opts, s, ids);
    let a = opts.map_values(ids);
    let b = s.map_values(ids);
    assert(b.no_duplicates()) by {
        assert forall|i: int, j: int| 0 <= i < j < b.len() implies b[i] != b[j] by {
            let f = filled(d, answer, order);
            assert(s[j] == f[j - 1]);
            if i == 0 {
                if b[0] == b[j] {
                    assert(f[j - 1].id == answer);
                    assert(has_id(f, answer));
                }
            } else {
                assert(s[i] == f[i - 1]);
            }
        }
    }
    b.lemma_multiset_has_no_duplicates();
    a.lemma_multiset_has_no_duplicates_conv();
    assert forall|i: int, j: int| 0 <= i < j < 4 implies (#[trigger] z.options[i]).id
        != (#[trigger] z.options[j]).id by {
        assert(a[i] != a[j]);
    }
    assert(s[0] == named(plan.answer@));
    assert(s.contains(named(plan.answer@)));
    assert(opts.to_multiset().count(named(plan.answer@)) > 0);
    assert(opts.contains(named(plan.answer@)));
    let k = choose|k: int| 0 <= k < opts.len() && opts[k] == named(plan.answer@);
    assert(z.options[k].id == z.answer);
}

/// The item that few people pick is not the answer, and is picked less than six tenths as often.
pub proof fn lemma_hidden_is_other(plan: ItemPlan, carry_type: CarryType, all: Seq<ItemModel>)
    requires
        planned(plan, carry_type, all),
        items_distinct(all),
        plan.hidden is Some,
    ensures
        plan.hidden->0@.item != plan.answer@.item,
        plan.hidden->0@.picks < six_tenths(plan.answer@.picks),
{
    let c = candidates_of(all);
    let rest = c.drop_first();
    let keep = |s: ItemModel| s.picks < six_tenths(c[0].picks);
    let f = seldom_picked(c);
    lemma_candidates_distinct(all);
    lemma_filter_elements(rest, keep);
    crate::seqs::lemma_least_at(item_ranks(f));
    let h = f[least_at(item_ranks(f))];
    assert(keep(h) && rest.contains(h));
    let k = choose|k: int| 0 <= k < rest.len() && rest[k] == h;
    assert(c[k + 1] == h);
    assert(c[0].item != c[k + 1].item);
}

/// The kinds of carries are told by these names, each by its own.
pub proof fn lemma_carry_type_names(t: CarryType)
    ensures
        carry_type_name(t) == "dealer"@ <==> t == CarryType::Dealer,
        carry_type_name(t) == "bruiser"@ <==> t == CarryType::Bruiser,
        carry_type_name(t) == "tank"@ <==> t == CarryType::Tank,
{
    reveal_strlit("dealer");
    reveal_strlit("bruiser");
    reveal_strlit("tank");
    assert("dealer"@.len() != "bruiser"@.len());
    assert("dealer"@.len() != "tank"@.len());
    assert("bruiser"@.len() != "tank"@.len());
}

/// What may be offered as a wrong answer: to a bruiser items of any kind; to others attack items
/// beside an attack item, ability items beside an ability item, and items of both kinds beside
/// either; beside any other item also items of its own kind.
pub proof fn lemma_allowed_types(carry: CarryType, answer_type: Seq<char>, t: Seq<char>)
    ensures
        ({
            let bruiser = carry == CarryType::Bruiser;
            let other = answer_type != "ad"@ && answer_type != "ap"@;
            allowed_types(carry, answer_type).contains(t) <==> {
                ||| t == "mixed"@
                ||| t == "ad"@ && (bruiser || answer_type != "ap"@)
                ||| t == "ap"@ && (bruiser || answer_type != "ad"@)
                ||| (t == "bruiser"@ || t == "tank"@) && bruiser
                ||| t == answer_type && other && !bruiser
            }
        }),
{
    reveal_strlit("ad");
    reveal_strlit("ap");
    reveal_strlit("mixed");
    reveal_strlit("bruiser");
    reveal_strlit("tank");
    assert("ad"@[1] != "ap"@[1]);
    assert("ad"@.len() != "mixed"@.len());
    assert("ap"@.len() != "mixed"@.len());
    assert("ad"@.len() != "bruiser"@.len());
    assert("ap"@.len() != "bruiser"@.len());
    assert("mixed"@.len() != "bruiser"@.len());
    assert("ad"@.len() != "tank"@.len());
    assert("ap"@.len() != "tank"@.len());
    assert("mixed"@.len() != "tank"@.len());
    assert("bruiser"@.len() != "tank"@.len());
    let s = allowed_types(carry, answer_type);
    if carry == CarryType::Bruiser {
        assert(s[0] == "ad"@ && s[1] == "ap"@ && s[2] == "mixed"@ && s[3] == "bruiser"@ && s[4]
            == "tank"@);
    } else if answer_type == "ad"@ {
        assert(s[0] == "ad"@ && s[1] == "mixed"@);
    } else if answer_type == "ap"@ {
        assert(s[0] == "ap"@ && s[1] == "mixed"@);
    } else if answer_type == "mixed"@ {
        assert(s[0] == "ad"@ && s[1] == "ap"@ && s[2] == "mixed"@);
    } else {
        assert(s[0] == "ad"@ && s[1] == "ap"@ && s[2] == "mixed"@ && s[3] == answer_type);
    }
}

/// The candidates are the items that lift by two hundredths or more, those of least rank first.
pub proof fn lemma_candidates(all: Seq<ItemModel>)
    ensures
        forall|s: ItemModel| #[trigger]
            candidates_of(all).contains(s) <==> all.contains(s) && s.lift >= 2,
        forall|i: int, j: int|
            #![trigger candidates_of(all)[i], candidates_of(all)[j]]
            0 <= i < j < candidates_of(all).len() ==> candidates_of(all)[i].rank <= candidates_of(
                all,
            )[j].rank,
{
    broadcast use vstd::seq_lib::group_to_multiset_ensures;

    let p = |s: ItemModel| s.lift >= MIN_LIFT;
    let f = all.filter(p);
    let c = candidates_of(all);
    lemma_filter_elements(all, p);
    crate::order::lemma_sorted_permutes::<ItemFull>(f);
    crate::order::lemma_sorted_in_order::<ItemFull>(f);
    assert forall|s: ItemModel| #[trigger] c.contains(s) <==> all.contains(s) && s.lift >= 2 by {
        assert(c.contains(s) <==> c.to_multiset().count(s) > 0);
        assert(f.contains(s) <==> f.to_multiset().count(s) > 0);
        if f.contains(s) {
            let k = choose|k: int| 0 <= k < f.len() && f[k] == s;
            assert(p(f[k]) && all.contains(f[k]));
        }
        if all.contains(s) && s.lift >= 2 {
            assert(p(s));
        }
    }
    assert forall|i: int, j: int| #![trigger c[i], c[j]] 0 <= i < j < c.len() implies c[i].rank
        <= c[j].rank by {
        assert(!<ItemFull as Ordered>::before(c[j], c[i]));
    }
}

/// The hidden pick is an item after the first that was picked less than six times for each ten
/// picks of the first, rounded down, and of least rank among those; there is none where no item
/// is so seldom picked.
pub proof fn lemma_hidden_pick(c: Seq<ItemModel>)
    requires
        c.len() > 0,
        c[0].picks >= 0,
    ensures
        hidden_of(c) is None <==> forall|i: int|
            1 <= i < c.len() ==> 10 * ((#[trigger] c[i]).picks + 1) > 6 * c[0].picks,
        hidden_of(c) is Some ==> exists|b: int|
            1 <= b < c.len() && #[trigger] c[b] == hidden_of(c)->0 && 10 * (c[b].picks + 1) <= 6
                * c[0].picks && forall|i: int|
                1 <= i < c.len() && 10 * ((#[trigger] c[i]).picks + 1) <= 6 * c[0].picks
                    ==> c[b].rank <= c[i].rank,
{
    let p = |s: ItemModel| s.picks < six_tenths(c[0].picks);
    let t = c.drop_first();
    let f = t.filter(p);
    assert(f == seldom_picked(c));
    lemma_filter_elements(t, p);
    assert forall|i: int| 1 <= i < c.len() implies p(#[trigger] c[i]) == (10 * (c[i].picks + 1) <= 6
        * c[0].picks) && t.contains(c[i]) by {
        assert(t[i - 1] == c[i]);
    }
    if f.len() > 0 {
        let r = item_ranks(f);
        crate::seqs::lemma_least_at(r);
        let k = least_at(r);
        assert(p(f[k]) && t.contains(f[k]));
        let m = choose|m: int| 0 <= m < t.len() && t[m] == f[k];
        assert(c[m + 1] == f[k]);
        assert forall|i: int|
            1 <= i < c.len() && 10 * ((#[trigger] c[i]).picks + 1) <= 6 * c[0].picks implies c[m
            + 1].rank <= c[i].rank by {
            assert(p(c[i]) && t.contains(c[i]));
            assert(f.contains(c[i]));
            let n = choose|n: int| 0 <= n < f.len() && f[n] == c[i];
            assert(r[n] == c[i].rank && r[k] == f[k].rank);
        }
    } else {
        assert forall|i: int| 1 <= i < c.len() implies 10 * ((#[trigger] c[i]).picks + 1) > 6
            * c[0].picks by {
            if p(c[i]) {
                assert(t.contains(c[i]));
                assert(f.contains(c[i]));
            }
        }
    }
}

/// The wrong answers from the carry's own items are those candidates, by id and name, that are
/// not the answer and are of a kind that may be offered.
pub proof fn lemma_own_distractors(c: Seq<ItemModel>, allowed: Seq<Seq<char>>, n: NamedModel)
    requires
        c.len() > 0,
    ensures
        own_distractors(c, allowed).contains(n) <==> exists|i: int|
            0 <= i < c.len() && (#[trigger] c[i]).item == n.id && c[i].name == n.name && c[i].item
                != c[0].item && allowed.contains(c[i].damage_type),
{
    let p = |s: ItemModel| s.item != c[0].item && allowed.contains(s.damage_type);
    let f = c.filter(p);
    let d = own_distractors(c, allowed);
    lemma_filter_elements(c, p);
    if d.contains(n) {
        let k = choose|k: int| 0 <= k < d.len() && d[k] == n;
        assert(p(f[k]) && c.contains(f[k]));
        let i = choose|i: int| 0 <= i < c.len() && c[i] == f[k];
        assert(c[i].item == n.id);
    }
    if exists|i: int|
        0 <= i < c.len() && (#[trigger] c[i]).item == n.id && c[i].name == n.name && c[i].item
            != c[0].item && allowed.contains(c[i].damage_type) {
        let i = choose|i: int|
            0 <= i < c.len() && (#[trigger] c[i]).item == n.id && c[i].name == n.name && c[i].item
                != c[0].item && allowed.contains(c[i].damage_type);
        assert(c.contains(c[i]) && p(c[i]));
        assert(f.contains(c[i]));
        let k = choose|k: int| 0 <= k < f.len() && f[k] == c[i];
        assert(d[k] == n);
    }
}

/// Filling up keeps what is there and adds, up to three in all, what it finds in the pool, never
/// the answer and nothing that is there already.
pub proof fn lemma_filled_up(d: Seq<NamedModel>, answer: Seq<char>, pool: Seq<NamedModel>)
    ensures
        filled(d, answer, pool).len() >= d.len(),
        filled(d, answer, pool).take(d.len() as int) == d,
        d.len() <= 3 ==> filled(d, answer, pool).len() <= 3,
        d.len() >= 3 ==> filled(d, answer, pool) == d,
        forall|i: int|
            d.len() <= i < filled(d, answer, pool).len() ==> pool.contains(
                #[trigger] filled(d, answer, pool)[i],
            ) && filled(d, answer, pool)[i].id != answer,
        forall|i: int, j: int|
            0 <= i < j < filled(d, answer, pool).len() && d.len() <= j ==> (#[trigger] filled(
                d,
                answer,
                pool,
            )[i]).id != (#[trigger] filled(d, answer, pool)[j]).id,
    decreases pool.len(),
{
    let r = filled(d, answer, pool);
    if d.len() >= 3 || pool.len() == 0 {
        assert(d.take(d.len() as int) =~= d);
    } else {
        let rest = pool.drop_first();
        assert forall|x: NamedModel| rest.contains(x) implies #[trigger] pool.contains(x) by {
            let k = choose|k: int| 0 <= k < rest.len() && rest[k] == x;
            assert(pool[k + 1] == x);
        }
        if pool[0].id == answer || has_id(d, pool[0].id) {
            lemma_filled_up(d, answer, rest);
        } else {
            let e = d.push(pool[0]);
            lemma_filled_up(e, answer, rest);
            assert(r.take(d.len() as int) =~= d) by {
                assert forall|k: int| 0 <= k < d.len() implies r[k] == d[k] by {
                    assert(r.take(e.len() as int)[k] == e[k]);
                }
            }
            assert(r.take(e.len() as int)[d.len() as int] == e[d.len() as int]);
            assert(r[d.len() as int] == pool[0]);
            assert(pool.contains(pool[0]));
            assert forall|i: int, j: int| 0 <= i < j < r.len() && d.len() <= j implies (
            #[trigger] r[i]).id != (#[trigger] r[j]).id by {
                if j == d.len() {
                    assert(r.take(e.len() as int)[i] == e[i]);
                    assert(d[i].id != pool[0].id);
                }
            }
        }
    }
}

/// Of an option is told what the items of the carry say of it: the mean and the picks of the
/// first entry with its id; without one there is no mean and there are no picks.
pub proof fn lemma_option_told(o: NamedModel, answer: Seq<char>, all: Seq<ItemModel>)
    ensures
        ({
            let z = option_stat(o, answer, all);
            &&& z.id == o.id
            &&& z.name == o.name
            &&& z.is_best <==> o.id == answer
            &&& z.avg_placement is None <==> forall|i: int|
                0 <= i < all.len() ==> (#[trigger] all[i]).item != o.id
            &&& z.avg_placement is None ==> z.sample_size == 0
            &&& forall|i: int|
                0 <= i < all.len() && (#[trigger] all[i]).item == o.id && (forall|j: int|
                    0 <= j < i ==> (#[trigger] all[j]).item != o.id) ==> z.avg_placement == Some(
                    all[i].avg_placement,
                ) && z.sample_size == all[i].picks
        }),
    decreases all.len(),
{
    if all.len() > 0 {
        let rest = all.drop_first();
        if all[0].item != o.id {
            lemma_option_told(o, answer, rest);
            let z = option_stat(o, answer, all);
            assert(z == option_stat(o, answer, rest));
            if z.avg_placement is None {
                assert forall|i: int| 0 <= i < all.len() implies (#[trigger] all[i]).item
                    != o.id by {
                    if i > 0 {
                        assert(rest[i - 1] == all[i]);
                    }
                }
            }
            if forall|i: int| 0 <= i < all.len() ==> (#[trigger] all[i]).item != o.id {
                assert forall|i: int| 0 <= i < rest.len() implies (#[trigger] rest[i]).item
                    != o.id by {
                    assert(all[i + 1] == rest[i]);
                }
            }
            assert forall|i: int|
                0 <= i < all.len() && (#[trigger] all[i]).item == o.id && (forall|j: int|
                    0 <= j < i ==> (#[trigger] all[j]).item != o.id) implies z.avg_placement
                == Some(all[i].avg_placement) && z.sample_size == all[i].picks by {
                assert(rest[i - 1] == all[i]);
                assert forall|j: int| 0 <= j < i - 1 implies (#[trigger] rest[j]).item
                    != o.id by {
                    assert(all[j + 1] == rest[j]);
                }
            }
        }
    }
}

/// What an item puzzle asks and tells, under the names that clients read.
pub proof fn lemma_item_puzzle_tells(
    carry_id: Seq<char>,
    appearances: i64,
    patch: Seq<char>,
    plan: ItemPlan,
    opts: Seq<NamedModel>,
    all: Seq<ItemModel>,
    meta: Meta,
)
    ensures
        ({
            let z = item_puzzle_of(carry_id, appearances, patch, plan, opts, all, meta);
            let name = if meta.units@.contains_key(carry_id) {
                meta.units@[carry_id].name@
            } else {
                carry_id
            };
            &&& z.prompt.question == name + " 캐리에게 가장 좋은 아이템은?"@
            &&& z.prompt.carry.id == carry_id
            &&& z.prompt.carry.name == name
            &&& z.prompt.context_traits.len() == 0
            &&& z.prompt.patch == patch
            &&& z.answer == plan.answer.item@
            &&& z.options.len() == opts.len()
            &&& forall|i: int|
                #![trigger z.options[i]]
                0 <= i < opts.len() ==> z.options[i].id == opts[i].id && z.options[i].name
                    == opts[i].name && z.options[i].icon.len() == 0
            &&& z.option_stats.len() == opts.len()
            &&& forall|i: int|
                #![trigger z.option_stats[i]]
                0 <= i < opts.len() ==> z.option_stats[i] == option_stat(opts[i], z.answer, all)
            &&& z.stats.get("carry_appearances"@) == Some(JsonModel::Num(Number::Int(appearances)))
            &&& z.stats.get("carry_type"@) == Some(JsonModel::Str(carry_type_name(plan.carry_type)))
            &&& plan.hidden is None ==> z.stats.get("hidden_pick"@) == Some(JsonModel::Null)
            &&& plan.hidden is Some ==> {
                let h = z.stats.get("hidden_pick"@)->0;
                let s = plan.hidden->0;
                &&& z.stats.get("hidden_pick"@) is Some
                &&& h.get("id"@) == Some(JsonModel::Str(s.item@))
                &&& h.get("name"@) == Some(JsonModel::Str(s.name@))
                &&& h.get("avg_placement"@) == Some(
                    JsonModel::Num(Number::Hundredths(s.avg_placement)),
                )
                &&& h.get("sample_size"@) == Some(JsonModel::Num(Number::Int(s.picks)))
            }
            &&& z.stats.list_at("options"@).len() == opts.len()
            &&& forall|i: int|
                #![trigger z.stats.list_at("options"@)[i]]
                0 <= i < opts.len() ==> {
                    let o = z.stats.list_at("options"@)[i];
                    let s = z.option_stats[i];
                    &&& o.get("id"@) == Some(JsonModel::Str(s.id))
                    &&& o.get("name"@) == Some(JsonModel::Str(s.name))
                    &&& s.avg_placement is None ==> o.get("avg_placement"@) == Some(JsonModel::Null)
                    &&& s.avg_placement is Some ==> o.get("avg_placement"@) == Some(
                        JsonModel::Num(Number::Hundredths(s.avg_placement->0)),
                    )
                    &&& o.get("sample_size"@) == Some(JsonModel::Num(Number::Int(s.sample_size)))
                    &&& o.get("is_best"@) == Some(JsonModel::Bool(s.is_best))
                }
        }),
{
    let z = item_puzzle_of(carry_id, appearances, patch, plan, opts, all, meta);
    let s = z.stats;
    assert(s.get("options"@) == Some(s->Object_0[0].1) && s.get("carry_appearances"@) == Some(s->Object_0[1].1) && s.get("carry_type"@) == Some(s->Object_0[2].1) && s.get("hidden_pick"@) == Some(s->Object_0[3].1)) by {
        reveal_strlit("options");
        reveal_strlit("carry_appearances");
        reveal_strlit("carry_type");
        reveal_strlit("hidden_pick");
        assert("options"@.len() != "carry_appearances"@.len());
        assert("options"@.len() != "carry_type"@.len());
        assert("carry_appearances"@.len() != "carry_type"@.len());
        assert("options"@.len() != "hidden_pick"@.len());
        assert("carry_appearances"@.len() != "hidden_pick"@.len());
        assert("carry_type"@.len() != "hidden_pick"@.len());

        let o = s->Object_0;
        lemma_member(o, 0);
        lemma_member(o, 1);
        lemma_member(o, 2);
        lemma_member(o, 3);

    }
    if plan.hidden is Some {
        let h = hidden_json(hidden_model(plan.hidden));
        assert(h.get("id"@) == Some(h->Object_0[0].1) && h.get("name"@) == Some(h->Object_0[1].1) && h.get("avg_placement"@) == Some(h->Object_0[2].1) && h.get("sample_size"@) == Some(h->Object_0[3].1)) by {
            reveal_strlit("id");
            reveal_strlit("name");
            reveal_strlit("avg_placement");
            reveal_strlit("sample_size");
            assert("id"@.len() != "name"@.len());
            assert("id"@.len() != "avg_placement"@.len());
            assert("name"@.len() != "avg_placement"@.len());
            assert("id"@.len() != "sample_size"@.len());
            assert("name"@.len() != "sample_size"@.len());
            assert("avg_placement"@.len() != "sample_size"@.len());

            let o = h->Object_0;
            lemma_member(o, 0);
            lemma_member(o, 1);
            lemma_member(o, 2);
            lemma_member(o, 3);

        }
    }
    assert forall|i: int| #![trigger z.stats.list_at("options"@)[i]] 0 <= i < opts.len() implies ({
        let o = z.stats.list_at("options"@)[i];
        let s = z.option_stats[i];
        &&& o.get("id"@) == Some(JsonModel::Str(s.id))
        &&& o.get("name"@) == Some(JsonModel::Str(s.name))
        &&& s.avg_placement is None ==> o.get("avg_placement"@) == Some(JsonModel::Null)
        &&& s.avg_placement is Some ==> o.get("avg_placement"@) == Some(
            JsonModel::Num(Number::Hundredths(s.avg_placement->0)),
        )
        &&& o.get("sample_size"@) == Some(JsonModel::Num(Number::Int(s.sample_size)))
        &&& o.get("is_best"@) == Some(JsonModel::Bool(s.is_best))
    }) by {
        let t = option_stat_json(z.option_stats[i]);
        assert(t.get("id"@) == Some(t->Object_0[0].1) && t.get("name"@) == Some(t->Object_0[1].1) && t.get("avg_placement"@) == Some(t->Object_0[2].1) && t.get("sample_size"@) == Some(t->Object_0[3].1) && t.get("is_best"@) == Some(t->Object_0[4].1)) by {
            reveal_strlit("id");
            reveal_strlit("name");
            reveal_strlit("avg_placement");
            reveal_strlit("sample_size");
            reveal_strlit("is_best");
            assert("id"@.len() != "name"@.len());
            assert("id"@.len() != "avg_placement"@.len());
            assert("name"@.len() != "avg_placement"@.len());
            assert("id"@.len() != "sample_size"@.len());
            assert("name"@.len() != "sample_size"@.len());
            assert("avg_placement"@.len() != "sample_size"@.len());
            assert("id"@.len() != "is_best"@.len());
            assert("name"@.len() != "is_best"@.len());
            assert("avg_placement"@.len() != "is_best"@.len());
            assert("sample_size"@.len() != "is_best"@.len());

            let o = t->Object_0;
            lemma_member(o, 0);
            lemma_member(o, 1);
            lemma_member(o, 2);
            lemma_member(o, 3);
            lemma_member(o, 4);

        }
    }
}

/// A puzzle has three wrong answers; a carry is asked about from thirty boards on, and an item
/// counts from ten picks on.
pub proof fn lemma_item_limits(d: Seq<NamedModel>, answer: Seq<char>, pool: Seq<NamedModel>)
    ensures
        MIN_CARRY_APPEARANCES == 30,
        MIN_ITEM_PICKS == 10,
        enough(d, answer, pool) <==> d.len() + fresh_ids(d, answer, pool).len() >= 3,
        wrong_options(d, answer, pool) == filled(d, answer, pool).take(3),
        forall|id: Seq<char>| #[trigger]
            fresh_ids(d, answer, pool).contains(id) <==> id != answer && (exists|i: int|
                0 <= i < pool.len() && (#[trigger] pool[i]).id == id) && (forall|i: int|
                0 <= i < d.len() ==> (#[trigger] d[i]).id != id),
{
}

/// Six tenths of a count of picks, without what is left over.
pub proof fn lemma_six_tenths(picks: i64)
    ensures
        picks >= 0 ==> 10 * six_tenths(picks) <= 6 * picks < 10 * six_tenths(picks) + 10,
        picks < 0 ==> 10 * six_tenths(picks) - 10 < 6 * picks <= 10 * six_tenths(picks),
{
}

/// An item puzzle is what its fields say.
pub proof fn lemma_item_puzzle_as_stored(z: ItemPuzzle)
    ensures
        z@.prompt == z.prompt@,
        z@.options == models(z.options@),
        z@.answer == z.answer@,
        z@.option_stats == models(z.option_stats@),
        z@.stats == z.stats@,
{
}

}
