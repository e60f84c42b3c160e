//! Puzzles about traits: which does this unit have?

use crate::draw::{choose_some, drawn, lemma_drawn, shuffled};
use crate::json::{elements, field, lemma_member, Json, JsonModel, Number};
use crate::order::{in_order, lemma_sorted_in_order, lemma_sorted_permutes, sort_strings, sorted};
use crate::riot::dto::copy_strings;
use crate::seqs::{lemma_filter_distinct, lemma_filter_elements, lemma_filter_step};
use crate::text::{has, join, joined, lemma_views_multiset, str_eq, views};
use vstd::prelude::*;
use vstd::string::*;

verus! {

/// With fewer traits there are no puzzles.
pub const MIN_TRAITS: usize = 5;

/// Traits that are offered and that the unit does not have.
pub const WRONG_TRAITS: usize = 4;

/// A unit and its traits.
#[derive(Debug)]
pub struct TraitUnit {
    pub unit_id: String,
    pub name: String,
    pub icon: String,
    pub traits: Vec<String>,
}

/// Neighbours that are the same, taken together.
pub open spec fn deduped(s: Seq<Seq<char>>) -> Seq<Seq<char>>
    decreases s.len(),
{
    if s.len() <= 1 {
        s
    } else {
        let r = deduped(s.drop_last());
        if s.last() == s[s.len() - 2] {
            r
        } else {
            r.push(s.last())
        }
    }
}

/// The traits of a unit in order, each once.
pub open spec fn answer_of(traits: Seq<Seq<char>>) -> Seq<Seq<char>> {
    deduped(sorted::<String>(traits))
}

fn dedup(v: &Vec<String>) -> (r: Vec<String>)
    ensures
        views(r@) == deduped(views(v@)),
{
    let ghost all = views(v@);
    let mut out: Vec<String> = Vec::new();
    let mut i: usize = 0;
    assert(views(out@) =~= deduped(all.take(0)));
    while i < v.len()
        invariant
            i <= v@.len(),
            all == views(v@),
            views(out@) == deduped(all.take(i as int)),
        decreases v@.len() - i,
    {
        let ghost before = out@;
        proof {
            assert(all.take(i + 1).drop_last() == all.take(i as int));
            assert(all.take(i + 1).last() == v@[i as int]@);
            if i > 0 {
                assert(all.take(i + 1)[i - 1] == v@[i - 1]@);
            }
        }
        let repeats = i > 0 && str_eq(v[i].as_str(), v[i - 1].as_str());
        if !repeats {
            out.push(v[i].clone());
            proof {
                assert(views(out@) =~= views(before).push(v@[i as int]@));
                if i == 0 {
                    assert(views(before) =~= Seq::empty());
                    assert(all.take(1) =~= seq![v@[0]@]);
                }
            }
        }
        i += 1;
    }
    assert(all.take(all.len() as int) == all);
    out
}

/// The traits of a unit in order, each once.
pub fn answer_traits(traits: &Vec<String>) -> (r: Vec<String>)
    ensures
        views(r@) == answer_of(views(traits@)),
{
    let s = sort_strings(copy_strings(traits));
    dedup(&s)
}

/// The traits that the unit does not have.
pub open spec fn wrong_of(all: Seq<Seq<char>>, answer: Seq<Seq<char>>) -> Seq<Seq<char>> {
    all.filter(|t: Seq<char>| !answer.contains(t))
}

/// The traits that the unit does not have.
pub fn wrong_traits(all: &Vec<String>, answer: &Vec<String>) -> (r: Vec<String>)
    ensures
        views(r@) == wrong_of(views(all@), views(answer@)),
{
    let ghost s = views(all@);
    let ghost keep = |t: Seq<char>| !views(answer@).contains(t);
    let mut out: Vec<String> = Vec::new();
    let mut i: usize = 0;
    proof {
        reveal(Seq::filter);
        assert(views(out@) =~= s.take(0).filter(keep));
    }
    while i < all.len()
        invariant
            i <= all@.len(),
            s == views(all@),
            keep == (|t: Seq<char>| !views(answer@).contains(t)),
            views(out@) == s.take(i as int).filter(keep),
        decreases all@.len() - i,
    {
        let ghost before = out@;
        proof {
            lemma_filter_step(s, i as int, keep);
        }
        let right = has(answer, all[i].as_str());
        if !right {
            out.push(all[i].clone());
            assert(views(out@) =~= views(before).push(s[i as int]));
        }
        i += 1;
    }
    assert(s.take(s.len() as int) == s);
    out
}

/// A puzzle about the traits of a unit.
#[derive(Debug)]
pub struct TraitPuzzle {
    pub unit_id: String,
    /// The traits of the unit, with commas between them.
    pub answer: String,
    pub prompt: Json,
    pub stats: Json,
}

pub struct TraitPuzzleModel {
    pub unit_id: Seq<char>,
    pub answer: Seq<char>,
    pub prompt: JsonModel,
    pub stats: JsonModel,
}

impl View for TraitPuzzle {
    type V = TraitPuzzleModel;

    open spec fn view(&self) -> TraitPuzzleModel {
        TraitPuzzleModel {
            unit_id: self.unit_id@,
            answer: self.answer@,
            prompt: self.prompt@,
            stats: self.stats@,
        }
    }
}

/// Strings as a document.
pub open spec fn names_json(s: Seq<Seq<char>>) -> JsonModel {
    JsonModel::Array(Seq::new(s.len(), |i: int| JsonModel::Str(s[i])))
}

/// A length as a number.
pub open spec fn len_number(n: nat) -> Number {
    if n <= i64::MAX {
        Number::Int(n as i64)
    } else {
        Number::Big(n as u64)
    }
}

/// The puzzle about the traits of a unit that offers `options`.
pub open spec fn trait_puzzle_of(
    u: TraitUnit,
    answer: Seq<Seq<char>>,
    options: Seq<Seq<char>>,
    patch: Seq<char>,
) -> TraitPuzzleModel {
    TraitPuzzleModel {
        unit_id: u.unit_id@,
        answer: joined(answer, ","@),
        prompt: JsonModel::Object(
            seq![
                ("question"@, JsonModel::Str(u.name@ + "의 특성을 모두 고르세요"@)),
                (
                    "unit"@,
                    JsonModel::Object(
                        seq![
                            ("id"@, JsonModel::Str(u.unit_id@)),
                            ("name"@, JsonModel::Str(u.name@)),
                            ("icon"@, JsonModel::Str(u.icon@)),
                        ],
                    ),
                ),
                ("options"@, names_json(options)),
                ("answer"@, names_json(answer)),
                ("patch"@, JsonModel::Str(patch)),
            ],
        ),
        stats: JsonModel::Object(
            seq![("trait_count"@, JsonModel::Num(len_number(answer.len())))],
        ),
    }
}

fn names_to_json(v: &Vec<String>) -> (r: Json)
    ensures
        r@ == names_json(views(v@)),
{
    let mut out: Vec<Json> = Vec::new();
    let mut i: usize = 0;
    while i < v.len()
        invariant
            i <= v@.len(),
            out@.len() == i,
            forall|k: int| 0 <= k < i ==> (#[trigger] out@[k])@ == JsonModel::Str(v@[k]@),
        decreases v@.len() - i,
    {
        out.push(Json::text(v[i].as_str()));
        i += 1;
    }
    assert(elements(out@) =~= names_json(views(v@))->Array_0);
    Json::array(out)
}

/// The puzzle about the traits of a unit that offers `options`.
pub fn trait_puzzle(
    u: &TraitUnit,
    answer: &Vec<String>,
    options: &Vec<String>,
    patch: &str,
) -> (r: TraitPuzzle)
    ensures
        r@ == trait_puzzle_of(*u, views(answer@), views(options@), patch@),
{
    let ghost goal = trait_puzzle_of(*u, views(answer@), views(options@), patch@);
    let mut question = u.name.clone();
    question.append("의 특성을 모두 고르세요");
    let unit = Json::object(
        vec![
            field("id", Json::text(u.unit_id.as_str())),
            field("name", Json::text(u.name.as_str())),
            field("icon", Json::text(u.icon.as_str())),
        ],
    );
    let prompt = Json::object(
        vec![
            field("question", Json::text(question.as_str())),
            field("unit", unit),
            field("options", names_to_json(options)),
            field("answer", names_to_json(answer)),
            field("patch", Json::text(patch)),
        ],
    );
    proof {
        let f = goal.prompt->Object_0;
        assert(unit@->Object_0 =~= f[1].1->Object_0);
        assert(prompt@->Object_0 =~= f);
    }
    let n = answer.len();
    let count = if n as u64 <= i64::MAX as u64 {
        Json::Num(Number::Int(n as i64))
    } else {
        Json::Num(Number::Big(n as u64))
    };
    assert(views(answer@).len() == n);
    let stats = Json::object(vec![field("trait_count", count)]);
    assert(stats@->Object_0 =~= goal.stats->Object_0);
    TraitPuzzle { unit_id: u.unit_id.clone(), answer: join(answer, ","), prompt, stats }
}

/// The unit can be asked about: it has a trait, and there are enough that it has not.
pub open spec fn can_ask(u: TraitUnit, all: Seq<Seq<char>>) -> bool {
    let answer = answer_of(views(u.traits@));
    answer.len() > 0 && wrong_of(all, answer).len() >= WRONG_TRAITS
}

/// `options` are the unit's traits and `d`, in some order, and `d` are four that it has not.
pub open spec fn trait_options(
    options: Seq<Seq<char>>,
    d: Seq<Seq<char>>,
    u: TraitUnit,
    all: Seq<Seq<char>>,
) -> bool {
    let answer = answer_of(views(u.traits@));
    &&& d.len() == WRONG_TRAITS
    &&& drawn(d, wrong_of(all, answer))
    &&& options.to_multiset() == (answer + d).to_multiset()
}

/// `z` is a puzzle about the unit.
pub open spec fn asks_traits(
    z: TraitPuzzleModel,
    u: TraitUnit,
    all: Seq<Seq<char>>,
    patch: Seq<char>,
) -> bool {
    exists|options: Seq<Seq<char>>, d: Seq<Seq<char>>| #[trigger]
        trait_options(options, d, u, all) && z == trait_puzzle_of(
            u,
            answer_of(views(u.traits@)),
            options,
            patch,
        )
}

/// A puzzle about the traits of a unit, where it can be asked about. Which other traits are
/// offered, and in what order the options stand, is left to chance.
pub fn make_trait_puzzle(u: &TraitUnit, all_traits: &Vec<String>, patch: &str) -> (r: Option<
    TraitPuzzle,
>)
    ensures
        match r {
            Some(z) => can_ask(*u, views(all_traits@)) && asks_traits(
                z@,
                *u,
                views(all_traits@),
                patch@,
            ),
            None => !can_ask(*u, views(all_traits@)),
        },
{
    let answer = answer_traits(&u.traits);
    assert(views(answer@).len() == answer@.len());
    if answer.len() == 0 {
        return None;
    }
    let pool = wrong_traits(all_traits, &answer);
    assert(views(pool@).len() == pool@.len());
    let distractors = choose_some(&pool, WRONG_TRAITS);
    if distractors.len() < WRONG_TRAITS {
        return None;
    }
    let ghost d = views(distractors@);
    let mut options = copy_strings(&answer);
    let mut rest = distractors;
    options.append(&mut rest);
    let ghost before = options@;
    assert(views(before) =~= views(answer@) + d);
    let options = shuffled(options);
    proof {
        lemma_views_multiset(options@, before);
        assert(trait_options(views(options@), d, *u, views(all_traits@)));
    }
    Some(trait_puzzle(u, &answer, &options, patch))
}

/// The units that can be asked about.
pub open spec fn asked_units(units: Seq<TraitUnit>, all: Seq<Seq<char>>) -> Seq<TraitUnit> {
    if all.len() < MIN_TRAITS {
        Seq::empty()
    } else {
        units.filter(|u: TraitUnit| can_ask(u, all))
    }
}

/// Puzzles about all units that can be asked about; none where there are too few traits.
pub fn make_trait_quiz(units: &Vec<TraitUnit>, all_traits: &Vec<String>, patch: &str) -> (r: Vec<
    TraitPuzzle,
>)
    ensures
        r@.len() == asked_units(units@, views(all_traits@)).len(),
        forall|k: int|
            0 <= k < r@.len() ==> asks_traits(
                (#[trigger] r@[k])@,
                asked_units(units@, views(all_traits@))[k],
                views(all_traits@),
                patch@,
            ),
{
    let mut out: Vec<TraitPuzzle> = Vec::new();
    assert(views(all_traits@).len() == all_traits@.len());
    if all_traits.len() < MIN_TRAITS {
        return out;
    }
    let ghost all = views(all_traits@);
    let ghost keep = |u: TraitUnit| can_ask(u, all);
    let mut i: usize = 0;
    proof {
        reveal(Seq::filter);
    }
    while i < units.len()
        invariant
            i <= units@.len(),
            all == views(all_traits@),
            keep == (|u: TraitUnit| can_ask(u, all)),
            out@.len() == units@.take(i as int).filter(keep).len(),
            forall|k: int|
                0 <= k < out@.len() ==> asks_traits(
                    (#[trigger] out@[k])@,
                    units@.take(i as int).filter(keep)[k],
                    all,
                    patch@,
                ),
        decreases units@.len() - i,
    {
        proof {
            lemma_filter_step(units@, i as int, keep);
        }
        match make_trait_puzzle(&units[i], all_traits, patch) {
            Some(z) => {
                out.push(z);
            },
            None => {},
        }
        i += 1;
    }
    assert(units@.take(units@.len() as int) == units@);
    out
}

// ---------------------------------------------------------------- laws

proof fn lemma_deduped(s: Seq<Seq<char>>)
    requires
        in_order::<String>(s),
    ensures
        deduped(s).no_duplicates(),
        forall|t: Seq<char>| #[trigger] deduped(s).contains(t) <==> s.contains(t),
        s.len() > 0 ==> deduped(s).len() > 0 && deduped(s).last() == s.last(),
    decreases s.len(),
{
    if s.len() > 1 {
        let init = s.drop_last();
        assert(in_order::<String>(init)) by {
            assert forall|i: int, j: int| 0 <= i < j < init.len() implies !<String as crate::order::Ordered>::before(
                #[trigger] init[j],
                #[trigger] init[i],
            ) by {
                assert(init[i] == s[i] && init[j] == s[j]);
            }
        }
        lemma_deduped(init);
        let r = deduped(init);
        let x = s.last();
        let y = s[s.len() - 2];
        assert(init.last() == y);
        if x != y {
            assert(!init.contains(x)) by {
                if init.contains(x) {
                    let i = choose|i: int| 0 <= i < init.len() && init[i] == x;
                    assert(s[i] == x);
                    crate::order::lemma_lex_total(x, y);
                    if i < s.len() - 2 {
                        assert(!<String as crate::order::Ordered>::before(s[s.len() - 2], s[i]));
                    }
                    assert(!<String as crate::order::Ordered>::before(s[s.len() - 1], s[s.len() - 2]));
                }
            }
            assert forall|i: int| 0 <= i < r.len() implies r[i] != x by {
                assert(r.contains(r[i]));
            }
        }
        assert forall|t: Seq<char>| #[trigger] deduped(s).contains(t) <==> s.contains(t) by {
            assert(r.contains(t) <==> init.contains(t));
            if s.contains(t) {
                let i = choose|i: int| 0 <= i < s.len() && s[i] == t;
                if i < init.len() {
                    assert(init[i] == t);
                    let k = choose|k: int| 0 <= k < r.len() && r[k] == t;
                    assert(deduped(s)[k] == t);
                } else if x != y {
                    assert(deduped(s)[r.len() as int] == t);
                } else {
                    assert(init[init.len() - 1] == t);
                    let k = choose|k: int| 0 <= k < r.len() && r[k] == t;
                    assert(deduped(s)[k] == t);
                }
            }
            if deduped(s).contains(t) {
                let k = choose|k: int| 0 <= k < deduped(s).len() && deduped(s)[k] == t;
                if k < r.len() {
                    assert(r[k] == t);
                    let i = choose|i: int| 0 <= i < init.len() && init[i] == t;
                    assert(s[i] == t);
                } else {
                    assert(s[s.len() - 1] == t);
                }
            }
        }
    } else if s.len() == 1 {
        assert(s[0] == s.last());
    }
}

/// The answer of a trait puzzle is exactly the traits of the unit, each once.
pub proof fn lemma_answer_is_traits(traits: Seq<Seq<char>>)
    ensures
        answer_of(traits).no_duplicates(),
        forall|t: Seq<char>| #[trigger] answer_of(traits).contains(t) <==> traits.contains(t),
{
    broadcast use vstd::seq_lib::group_to_multiset_ensures;

    let s = sorted::<String>(traits);
    lemma_sorted_permutes::<String>(traits);
    lemma_sorted_in_order::<String>(traits);
    lemma_deduped(s);
    assert forall|t: Seq<char>| #[trigger] answer_of(traits).contains(t) <==> traits.contains(
        t,
    ) by {
        assert(s.contains(t) <==> s.to_multiset().count(t) > 0);
        assert(traits.contains(t) <==> traits.to_multiset().count(t) > 0);
        assert(deduped(s).contains(t) <==> s.contains(t));
    }
}

/// A trait puzzle offers every trait of the unit and four that it has not; where no trait is
/// listed twice, none is offered twice.
pub proof fn lemma_trait_options(
    options: Seq<Seq<char>>,
    d: Seq<Seq<char>>,
    u: TraitUnit,
    all: Seq<Seq<char>>,
)
    requires
        trait_options(options, d, u, all),
    ensures
        options.len() == answer_of(views(u.traits@)).len() + WRONG_TRAITS,
        forall|t: Seq<char>| #[trigger]
            views(u.traits@).contains(t) ==> options.contains(t),
        forall|i: int| 0 <= i < d.len() ==> !views(u.traits@).contains(#[trigger] d[i]),
        all.no_duplicates() ==> options.no_duplicates(),
{
    broadcast use vstd::seq_lib::group_to_multiset_ensures;

    let traits = views(u.traits@);
    let answer = answer_of(traits);
    let keep = |t: Seq<char>| !answer.contains(t);
    let pool = wrong_of(all, answer);
    let both = answer + d;
    lemma_answer_is_traits(traits);
    lemma_drawn(d, pool);
    lemma_filter_elements(all, keep);
    assert(options.len() == options.to_multiset().len());
    assert(both.len() == both.to_multiset().len());
    assert forall|t: Seq<char>| #[trigger] traits.contains(t) implies options.contains(t) by {
        assert(answer.contains(t));
        let k = choose|k: int| 0 <= k < answer.len() && answer[k] == t;
        assert(both[k] == t);
        assert(both.contains(t));
        assert(options.to_multiset().count(t) > 0);
    }
    assert forall|i: int| 0 <= i < d.len() implies !traits.contains(#[trigger] d[i]) by {
        assert(pool.contains(d[i]));
        let m = choose|m: int| 0 <= m < pool.len() && pool[m] == d[i];
        assert(keep(pool[m]));
        assert(answer.contains(d[i]) <==> traits.contains(d[i]));
    }
    if all.no_duplicates() {
        lemma_filter_distinct(all, keep);
        assert(both.no_duplicates()) by {
            assert forall|i: int, j: int| 0 <= i < j < both.len() implies both[i] != both[j] by {
                if j < answer.len() {
                    assert(both[i] == answer[i] && both[j] == answer[j]);
                } else if i >= answer.len() {
                    assert(both[i] == d[i - answer.len()] && both[j] == d[j - answer.len()]);
                } else {
                    assert(both[i] == answer[i] && both[j] == d[j - answer.len()]);
                    assert(answer.contains(answer[i]));
                    assert(traits.contains(answer[i]));
                }
            }
        }
        both.lemma_multiset_has_no_duplicates();
        options.lemma_multiset_has_no_duplicates_conv();
    }
}

/// The wrong traits are those of all traits that are not of the answer, in their order.
pub proof fn lemma_wrong_traits(all: Seq<Seq<char>>, answer: Seq<Seq<char>>)
    ensures
        forall|t: Seq<char>| #[trigger]
            wrong_of(all, answer).contains(t) <==> all.contains(t) && !answer.contains(t),
{
    let p = |t: Seq<char>| !answer.contains(t);
    let f = wrong_of(all, answer);
    lemma_filter_elements(all, p);
    assert(f == all.filter(p));
    assert forall|t: Seq<char>| #[trigger] f.contains(t) implies all.contains(t) && !answer.contains(
        t,
    ) by {
        let k = choose|k: int| 0 <= k < f.len() && f[k] == t;
        assert(p(f[k]) && all.contains(f[k]));
    }
}

/// What a trait puzzle asks and tells, under the names that clients read.
pub proof fn lemma_trait_puzzle_tells(
    u: TraitUnit,
    answer: Seq<Seq<char>>,
    options: Seq<Seq<char>>,
    patch: Seq<char>,
)
    ensures
        ({
            let z = trait_puzzle_of(u, answer, options, patch);
            let p = z.prompt;
            &&& z.unit_id == u.unit_id@
            &&& z.answer == joined(answer, ","@)
            &&& p.get("question"@) == Some(
                JsonModel::Str(u.name@ + "의 특성을 모두 고르세요"@),
            )
            &&& p.get("unit"@) is Some
            &&& p.get("unit"@)->0.get("id"@) == Some(JsonModel::Str(u.unit_id@))
            &&& p.get("unit"@)->0.get("name"@) == Some(JsonModel::Str(u.name@))
            &&& p.get("unit"@)->0.get("icon"@) == Some(JsonModel::Str(u.icon@))
            &&& p.get("patch"@) == Some(JsonModel::Str(patch))
            &&& p.list_at("options"@).len() == options.len()
            &&& forall|i: int|
                #![trigger p.list_at("options"@)[i]]
                0 <= i < options.len() ==> p.list_at("options"@)[i] == JsonModel::Str(options[i])
            &&& p.list_at("answer"@).len() == answer.len()
            &&& forall|i: int|
                #![trigger p.list_at("answer"@)[i]]
                0 <= i < answer.len() ==> p.list_at("answer"@)[i] == JsonModel::Str(answer[i])
            &&& answer.len() <= i64::MAX ==> z.stats.get("trait_count"@) == Some(
                JsonModel::Num(Number::Int(answer.len() as i64)),
            )
        }),
{
    let z = trait_puzzle_of(u, answer, options, patch);
    let p = z.prompt;
    let s = z.stats;
    assert(p.get("question"@) == Some(p->Object_0[0].1) && p.get("unit"@) == Some(p->Object_0[1].1) && p.get("options"@) == Some(p->Object_0[2].1) && p.get("answer"@) == Some(p->Object_0[3].1) && p.get("patch"@) == Some(p->Object_0[4].1)) by {
        reveal_strlit("question");
        reveal_strlit("unit");
        reveal_strlit("options");
        reveal_strlit("answer");
        reveal_strlit("patch");
        assert("question"@.len() != "unit"@.len());
        assert("question"@.len() != "options"@.len());
        assert("unit"@.len() != "options"@.len());
        assert("question"@.len() != "answer"@.len());
        assert("unit"@.len() != "answer"@.len());
        assert("options"@.len() != "answer"@.len());
        assert("question"@.len() != "patch"@.len());
        assert("unit"@.len() != "patch"@.len());
        assert("options"@.len() != "patch"@.len());
        assert("answer"@.len() != "patch"@.len());

        let o = p->Object_0;
        lemma_member(o, 0);
        lemma_member(o, 1);
        lemma_member(o, 2);
        lemma_member(o, 3);
        lemma_member(o, 4);

    }
    let q = p.get("unit"@)->0;
    assert(q.get("id"@) == Some(q->Object_0[0].1) && q.get("name"@) == Some(q->Object_0[1].1) && q.get("icon"@) == Some(q->Object_0[2].1)) by {
        reveal_strlit("id");
        reveal_strlit("name");
        reveal_strlit("icon");
        assert("id"@.len() != "name"@.len());
        assert("id"@.len() != "icon"@.len());
        assert("name"@[0] != "icon"@[0]);

        let o = q->Object_0;
        lemma_member(o, 0);
        lemma_member(o, 1);
        lemma_member(o, 2);

    }
    assert(s.get("trait_count"@) == Some(s->Object_0[0].1)) by {
        reveal_strlit("trait_count");

        let o = s->Object_0;
        lemma_member(o, 0);

    }
}

/// A unit is asked about where it has a trait, four traits are not its own, and there are five
/// traits in all.
pub proof fn lemma_units_asked(units: Seq<TraitUnit>, all: Seq<Seq<char>>, u: TraitUnit)
    ensures
        asked_units(units, all).contains(u) <==> units.contains(u) && all.len() >= 5 && answer_of(
            views(u.traits@),
        ).len() > 0 && wrong_of(all, answer_of(views(u.traits@))).len() >= 4,
{
    let p = |u: TraitUnit| can_ask(u, all);
    lemma_filter_elements(units, p);
    let f = units.filter(p);
    if f.contains(u) {
        let k = choose|k: int| 0 <= k < f.len() && f[k] == u;
        assert(p(f[k]) && units.contains(f[k]));
    }
    if units.contains(u) && can_ask(u, all) {
        assert(p(u));
    }
}

/// A trait puzzle is what its fields say.
pub proof fn lemma_trait_puzzle_as_stored(z: TraitPuzzle)
    ensures
        z@.unit_id == z.unit_id@,
        z@.answer == z.answer@,
        z@.prompt == z.prompt@,
        z@.stats == z.stats@,
{
}

/// Whatever is drawn, a puzzle that asks for the traits of a unit has these for its answer, and
/// offers them with four others.
pub proof fn lemma_asks_for_traits(
    z: TraitPuzzleModel,
    u: TraitUnit,
    all: Seq<Seq<char>>,
    patch: Seq<char>,
)
    requires
        asks_traits(z, u, all, patch),
    ensures
        z.unit_id == u.unit_id@,
        z.answer == joined(answer_of(views(u.traits@)), ","@),
        z.prompt.list_at("options"@).len() == answer_of(views(u.traits@)).len() + 4,
{
    broadcast use vstd::seq_lib::group_to_multiset_ensures;

    let answer = answer_of(views(u.traits@));
    let (options, d) = choose|options: Seq<Seq<char>>, d: Seq<Seq<char>>| #[trigger]
        trait_options(options, d, u, all) && z == trait_puzzle_of(u, answer, options, patch);
    lemma_trait_puzzle_tells(u, answer, options, patch);
    assert(options.len() == options.to_multiset().len());
    assert((answer + d).len() == (answer + d).to_multiset().len());
}

}
