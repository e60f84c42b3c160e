//! Puzzles about three items together: which combo is best for this carry?

use crate::db::{CarryInfo, ComboModel, ComboStat};
use crate::json::{elements, field, lemma_member, Json, JsonModel, Number};
use crate::meta::{map_model, unit_name_or_id, Meta};
use crate::order::models;
use crate::seqs::{index_of_least, least_at, lemma_least_at};
use crate::table::Table;
use crate::text::{pieces, split, str_eq, views};
use vstd::prelude::*;
use vstd::string::*;

verus! {

/// A carry that was seen less often gets no puzzle.
pub const MIN_TOTAL_APPEARANCES: i64 = 10000;

/// Combos that were picked less often are left out.
pub const MIN_COMBO_PICKS: i64 = 50;

/// A carry needs this many combos: the first puzzle asks about the four most picked, the
/// second about the third to the sixth.
pub const MIN_COMBOS_NEEDED: usize = 6;

/// Name and picture of an item; its id and no picture where it is not known.
pub open spec fn name_and_icon(
    id: Seq<char>,
    items: Map<Seq<char>, (String, String)>,
) -> (Seq<char>, Seq<char>) {
    if items.contains_key(id) {
        (items[id].0@, items[id].1@)
    } else {
        (id, seq![])
    }
}

/// Name and picture of an item; its id and no picture where it is not known.
pub(crate) fn item_info(id: &str, items: &Table<(String, String)>) -> (r: (String, String))
    ensures
        (r.0@, r.1@) == name_and_icon(id@, items@),
{
    match items.get(id) {
        Some(x) => (x.0.clone(), x.1.clone()),
        None => {
            let none = String::new();
            assert(none@ =~= Seq::<char>::empty());
            (id.to_string(), none)
        },
    }
}

/// An item with its name and picture.
pub open spec fn item_json(
    id: Seq<char>,
    items: Map<Seq<char>, (String, String)>,
) -> JsonModel {
    let (name, icon) = name_and_icon(id, items);
    JsonModel::Object(
        seq![
            ("id"@, JsonModel::Str(id)),
            ("name"@, JsonModel::Str(name)),
            ("icon"@, JsonModel::Str(icon)),
        ],
    )
}

/// The items of a combo.
pub open spec fn combo_items(
    combo: Seq<char>,
    items: Map<Seq<char>, (String, String)>,
) -> JsonModel {
    let ids = pieces(combo, ',');
    JsonModel::Array(Seq::new(ids.len(), |i: int| item_json(ids[i], items)))
}

/// The items of a combo, each with its name and picture.
pub fn build_combo_items(combo: &str, item_map: &Table<(String, String)>) -> (r: Json)
    ensures
        r@ == combo_items(combo@, item_map@),
{
    let ids = split(combo, ',');
    let ghost all = pieces(combo@, ',');
    let mut out: Vec<Json> = Vec::new();
    let mut i: usize = 0;
    while i < ids.len()
        invariant
            i <= ids@.len(),
            views(ids@) == all,
            out@.len() == i,
            forall|k: int| 0 <= k < i ==> (#[trigger] out@[k])@ == item_json(all[k], item_map@),
        decreases ids@.len() - i,
    {
        let id = &ids[i];
        assert(all[i as int] == id@);
        let (name, icon) = item_info(id.as_str(), item_map);
        let o = Json::object(
            vec![
                field("id", Json::text(id.as_str())),
                field("name", Json::text(name.as_str())),
                field("icon", Json::text(icon.as_str())),
            ],
        );
        proof {
            assert(o@->Object_0 =~= item_json(all[i as int], item_map@)->Object_0);
        }
        out.push(o);
        i += 1;
    }
    assert(elements(out@) =~= combo_items(combo@, item_map@)->Array_0);
    Json::array(out)
}

/// The ranks of combos.
pub open spec fn combo_ranks(s: Seq<ComboModel>) -> Seq<i64> {
    Seq::new(s.len(), |i: int| s[i].rank)
}

/// The best of the combos; of several the first.
pub open spec fn best_combo(s: Seq<ComboModel>) -> ComboModel {
    s[least_at(combo_ranks(s))]
}

fn best_between(combos: &Vec<ComboStat>, from: usize, to: usize) -> (r: usize)
    requires
        from < to <= combos@.len(),
    ensures
        from <= r < to,
        combos@[r as int]@ == best_combo(models(combos@).subrange(from as int, to as int)),
        r == from + least_at(combo_ranks(models(combos@).subrange(from as int, to as int))),
{
    let mut scores: Vec<i64> = Vec::new();
    let mut i: usize = from;
    while i < to
        invariant
            from <= i <= to <= combos@.len(),
            scores@.len() == i - from,
            forall|k: int| 0 <= k < i - from ==> (#[trigger] scores@[k]) == combos@[from + k].rank,
        decreases to - i,
    {
        scores.push(combos[i].rank);
        i += 1;
    }
    let ghost s = models(combos@).subrange(from as int, to as int);
    assert(scores@ =~= combo_ranks(s));
    let b = index_of_least(&scores);
    assert(s[b as int] == combos@[from + b]@);
    from + b
}

/// What a combo puzzle says.
#[derive(Debug)]
pub struct ComboPuzzle {
    pub carry_type: String,
    pub prompt: Json,
    pub options: Json,
    /// The best combo.
    pub answer: String,
    pub stats: Json,
}

pub struct ComboPuzzleModel {
    pub carry_type: Seq<char>,
    pub prompt: JsonModel,
    pub options: Seq<JsonModel>,
    pub answer: Seq<char>,
    pub stats: JsonModel,
}

impl View for ComboPuzzle {
    type V = ComboPuzzleModel;

    open spec fn view(&self) -> ComboPuzzleModel {
        ComboPuzzleModel {
            carry_type: self.carry_type@,
            prompt: self.prompt@,
            options: match self.options@ {
                JsonModel::Array(s) => s,
                _ => seq![],
            },
            answer: self.answer@,
            stats: self.stats@,
        }
    }
}

/// What is told of a combo.
pub open spec fn combo_fields(
    c: ComboModel,
    items: Map<Seq<char>, (String, String)>,
) -> Seq<(Seq<char>, JsonModel)> {
    seq![
        ("combo"@, JsonModel::Str(c.item_combo)),
        ("items"@, combo_items(c.item_combo, items)),
        ("avg_placement"@, JsonModel::Num(Number::Hundredths(c.avg_placement))),
        ("picks"@, JsonModel::Num(Number::Int(c.picks))),
    ]
}

/// An option of a combo puzzle.
pub open spec fn combo_option(
    c: ComboModel,
    answer: Seq<char>,
    items: Map<Seq<char>, (String, String)>,
) -> JsonModel {
    JsonModel::Object(
        combo_fields(c, items).push(("is_best"@, JsonModel::Bool(c.item_combo == answer))),
    )
}

/// What is told of a combo that few people pick.
pub open spec fn hidden_combo(
    h: Option<ComboModel>,
    items: Map<Seq<char>, (String, String)>,
) -> JsonModel {
    match h {
        Some(c) => JsonModel::Object(combo_fields(c, items)),
        None => JsonModel::Null,
    }
}

/// A combo puzzle about the given combos.
pub open spec fn combo_puzzle_of(
    carry_id: Seq<char>,
    carry_name: Seq<char>,
    is_tank: bool,
    patch: Seq<char>,
    candidates: Seq<ComboModel>,
    hidden: Option<ComboModel>,
    items: Map<Seq<char>, (String, String)>,
) -> ComboPuzzleModel {
    let answer = best_combo(candidates).item_combo;
    let carry_type = if is_tank {
        "tank"@
    } else {
        "dealer"@
    };
    let options = Seq::new(
        candidates.len(),
        |i: int| combo_option(candidates[i], answer, items),
    );
    ComboPuzzleModel {
        carry_type,
        prompt: JsonModel::Object(
            seq![
                ("question"@, JsonModel::Str(carry_name + " 캐리의 최적 3코어 아이템 조합은?"@)),
                (
                    "carry"@,
                    JsonModel::Object(
                        seq![
                            ("id"@, JsonModel::Str(carry_id)),
                            ("name"@, JsonModel::Str(carry_name)),
                        ],
                    ),
                ),
                ("patch"@, JsonModel::Str(patch)),
            ],
        ),
        options,
        answer,
        stats: JsonModel::Object(
            seq![
                ("options"@, JsonModel::Array(options)),
                ("carry_type"@, JsonModel::Str(carry_type)),
                ("hidden_pick"@, hidden_combo(hidden, items)),
            ],
        ),
    }
}

fn combo_members(c: &ComboStat, item_map: &Table<(String, String)>) -> (r: Vec<(String, Json)>)
    ensures
        crate::json::members(r@) == combo_fields(c@, item_map@),
{
    let r = vec![
        field("combo", Json::text(c.item_combo.as_str())),
        field("items", build_combo_items(c.item_combo.as_str(), item_map)),
        field("avg_placement", Json::hundredths(c.avg_placement)),
        field("picks", Json::integer(c.picks)),
    ];
    assert(crate::json::members(r@) =~= combo_fields(c@, item_map@));
    r
}

/// The combo that few people pick, by its model.
pub open spec fn opt_combo(h: Option<&ComboStat>) -> Option<ComboModel> {
    match h {
        Some(x) => Some(x@),
        None => None,
    }
}

/// A puzzle about the combos from the `from`-th up to before the `to`-th. The answer is the
/// one with the best mean; of several the first.
pub fn combo_puzzle(
    carry_id: &str,
    carry_name: &str,
    is_tank: bool,
    patch: &str,
    combos: &Vec<ComboStat>,
    from: usize,
    to: usize,
    hidden: Option<&ComboStat>,
    item_map: &Table<(String, String)>,
) -> (r: ComboPuzzle)
    requires
        from < to <= combos@.len(),
    ensures
        r.options@ is Array,
        r@ == combo_puzzle_of(
            carry_id@,
            carry_name@,
            is_tank,
            patch@,
            models(combos@).subrange(from as int, to as int),
            opt_combo(hidden),
            item_map@,
        ),
{
    let ghost s = models(combos@).subrange(from as int, to as int);
    let ghost goal = combo_puzzle_of(
        carry_id@,
        carry_name@,
        is_tank,
        patch@,
        s,
        opt_combo(hidden),
        item_map@,
    );
    let best = best_between(combos, from, to);
    let answer = combos[best].item_combo.clone();
    let mut options: Vec<Json> = Vec::new();
    let mut told: Vec<Json> = Vec::new();
    let mut i: usize = from;
    while i < to
        invariant
            from <= i <= to <= combos@.len(),
            s == models(combos@).subrange(from as int, to as int),
            answer@ == goal.answer,
            goal == combo_puzzle_of(
                carry_id@,
                carry_name@,
                is_tank,
                patch@,
                s,
                opt_combo(hidden),
                item_map@,
            ),
            options@.len() == i - from,
            told@.len() == i - from,
            forall|k: int| 0 <= k < i - from ==> (#[trigger] options@[k])@ == goal.options[k],
            forall|k: int| 0 <= k < i - from ==> (#[trigger] told@[k])@ == goal.options[k],
        decreases to - i,
    {
        let c = &combos[i];
        assert(s[i - from] == c@);
        let mut v = combo_members(c, item_map);
        let ghost v0 = v@;
        v.push(field("is_best", Json::boolean(str_eq(c.item_combo.as_str(), answer.as_str()))));
        let o = Json::object(v);
        proof {
            let m0 = crate::json::members(v0);
            assert(m0.len() == v0.len());
            assert(crate::json::members(v@) =~= m0.push(
                ("is_best"@, JsonModel::Bool(c@.item_combo == goal.answer)),
            ));
        }
        told.push(o.copy());
        options.push(o);
        i += 1;
    }
    let carry_type = if is_tank {
        "tank".to_string()
    } else {
        "dealer".to_string()
    };
    let mut question = carry_name.to_string();
    question.append(" 캐리의 최적 3코어 아이템 조합은?");
    let carry = Json::object(
        vec![field("id", Json::text(carry_id)), field("name", Json::text(carry_name))],
    );
    let prompt = Json::object(
        vec![
            field("question", Json::text(question.as_str())),
            field("carry", carry),
            field("patch", Json::text(patch)),
        ],
    );
    proof {
        let f = goal.prompt->Object_0;
        assert(carry@->Object_0 =~= f[1].1->Object_0);
        assert(prompt@->Object_0 =~= f);
    }
    let hidden_json = match hidden {
        Some(h) => Json::object(combo_members(h, item_map)),
        None => Json::Null,
    };
    let stats = Json::object(
        vec![
            field("options", Json::array(told)),
            field("carry_type", Json::text(carry_type.as_str())),
            field("hidden_pick", hidden_json),
        ],
    );
    proof {
        assert(elements(told@) =~= goal.options);
        assert(elements(options@) =~= goal.options);
        assert(stats@->Object_0 =~= goal.stats->Object_0);
    }
    ComboPuzzle { carry_type, prompt, options: Json::array(options), answer, stats }
}

/// The best combo behind the first six.
pub open spec fn hidden_of(combos: Seq<ComboModel>) -> Option<ComboModel> {
    if combos.len() <= MIN_COMBOS_NEEDED {
        None
    } else {
        Some(best_combo(combos.skip(MIN_COMBOS_NEEDED as int)))
    }
}

/// The two puzzles of a carry.
#[derive(Debug)]
pub struct ComboPuzzles {
    pub main: ComboPuzzle,
    pub variant: ComboPuzzle,
}

/// The two puzzles of a carry, by its combos from the most picked down: one about the first
/// four, one about the third to the sixth. None where there are too few combos.
pub fn make_combo_puzzles(
    carry: &CarryInfo,
    combos: &Vec<ComboStat>,
    patch: &str,
    meta: &Meta,
    item_map: &Table<(String, String)>,
) -> (r: Option<ComboPuzzles>)
    ensures
        ({
            let s = models(combos@);
            let name = unit_name_or_id(map_model(meta.units@), carry.carry_id@);
            match r {
                Some(z) => {
                    &&& s.len() >= MIN_COMBOS_NEEDED
                    &&& z.main@ == combo_puzzle_of(
                        carry.carry_id@,
                        name,
                        carry.is_tank,
                        patch@,
                        s.subrange(0, 4),
                        hidden_of(s),
                        item_map@,
                    )
                    &&& z.variant@ == combo_puzzle_of(
                        carry.carry_id@,
                        name,
                        carry.is_tank,
                        patch@,
                        s.subrange(2, 6),
                        hidden_of(s),
                        item_map@,
                    )
                },
                None => s.len() < MIN_COMBOS_NEEDED,
            }
        }),
{
    if combos.len() < MIN_COMBOS_NEEDED {
        return None;
    }
    let name = meta.unit_name(carry.carry_id.as_str());
    let hidden = if combos.len() > MIN_COMBOS_NEEDED {
        let b = best_between(combos, MIN_COMBOS_NEEDED, combos.len());
        assert(models(combos@).subrange(6, combos@.len() as int) =~= models(combos@).skip(6));
        Some(&combos[b])
    } else {
        None
    };
    let main = combo_puzzle(
        carry.carry_id.as_str(),
        name.as_str(),
        carry.is_tank,
        patch,
        combos,
        0,
        4,
        hidden,
        item_map,
    );
    let variant = combo_puzzle(
        carry.carry_id.as_str(),
        name.as_str(),
        carry.is_tank,
        patch,
        combos,
        2,
        6,
        hidden,
        item_map,
    );
    Some(ComboPuzzles { main, variant })
}

// ---------------------------------------------------------------- laws

/// The answer of a combo puzzle is one of the combos asked about, and none of them has a
/// better mean.
pub proof fn lemma_best_combo(
    carry_id: Seq<char>,
    carry_name: Seq<char>,
    is_tank: bool,
    patch: Seq<char>,
    candidates: Seq<ComboModel>,
    hidden: Option<ComboModel>,
    items: Map<Seq<char>, (String, String)>,
)
    requires
        candidates.len() > 0,
    ensures
        ({
            let z = combo_puzzle_of(
                carry_id,
                carry_name,
                is_tank,
                patch,
                candidates,
                hidden,
                items,
            );
            exists|i: int|
                0 <= i < candidates.len() && (#[trigger] candidates[i]).item_combo == z.answer
                    && forall|j: int|
                    0 <= j < candidates.len() ==> candidates[i].rank <= (
                    #[trigger] candidates[j]).rank
        }),
{
    let s = combo_ranks(candidates);
    lemma_least_at(s);
    let b = least_at(s);
    assert forall|j: int| 0 <= j < candidates.len() implies candidates[b].rank <= (
    #[trigger] candidates[j]).rank by {
        assert(s[b] <= s[j]);
    }
    let c = candidates[b];
}

/// Where no combo is listed twice, exactly one option is marked as the best.
pub proof fn lemma_one_best_combo(
    carry_id: Seq<char>,
    carry_name: Seq<char>,
    is_tank: bool,
    patch: Seq<char>,
    candidates: Seq<ComboModel>,
    hidden: Option<ComboModel>,
    items: Map<Seq<char>, (String, String)>,
)
    requires
        candidates.len() > 0,
        forall|i: int, j: int|
            0 <= i < j < candidates.len() ==> (#[trigger] candidates[i]).item_combo != (
            #[trigger] candidates[j]).item_combo,
    ensures
        ({
            let z = combo_puzzle_of(
                carry_id,
                carry_name,
                is_tank,
                patch,
                candidates,
                hidden,
                items,
            );
            z.options.len() == candidates.len() && exists|b: int|
                0 <= b < candidates.len() && candidates[b].item_combo == z.answer && forall|i: int|
                    0 <= i < candidates.len() ==> #[trigger] z.options[i] == JsonModel::Object(
                        combo_fields(candidates[i], items).push(
                            ("is_best"@, JsonModel::Bool(i == b)),
                        ),
                    )
        }),
{
    let s = combo_ranks(candidates);
    lemma_least_at(s);
    let b = least_at(s);
    let z = combo_puzzle_of(carry_id, carry_name, is_tank, patch, candidates, hidden, items);
    assert(candidates[b].item_combo == z.answer);
    assert forall|i: int| 0 <= i < candidates.len() implies #[trigger] z.options[i]
        == JsonModel::Object(
        combo_fields(candidates[i], items).push(("is_best"@, JsonModel::Bool(i == b))),
    ) by {
        if i < b {
            assert(candidates[i].item_combo != candidates[b].item_combo);
        } else if i > b {
            assert(candidates[b].item_combo != candidates[i].item_combo);
        }
    }
}

/// An item of a combination is told by its id and by the name and picture that it is known by; an
/// unknown one has its id for a name and no picture.
pub proof fn lemma_combo_items(combo: Seq<char>, items: Map<Seq<char>, (String, String)>, i: int)
    requires
        0 <= i < pieces(combo, ',').len(),
    ensures
        ({
            let ids = pieces(combo, ',');
            let z = combo_items(combo, items);
            &&& z is Array
            &&& z->Array_0.len() == ids.len()
            &&& z->Array_0[i].get("id"@) == Some(JsonModel::Str(ids[i]))
            &&& items.contains_key(ids[i]) ==> z->Array_0[i].get("name"@) == Some(
                JsonModel::Str(items[ids[i]].0@),
            ) && z->Array_0[i].get("icon"@) == Some(JsonModel::Str(items[ids[i]].1@))
            &&& !items.contains_key(ids[i]) ==> z->Array_0[i].get("name"@) == Some(
                JsonModel::Str(ids[i]),
            ) && z->Array_0[i].get("icon"@) == Some(JsonModel::Str(seq![]))
        }),
{
    let z = item_json(pieces(combo, ',')[i], items);
    assert(z.get("id"@) == Some(z->Object_0[0].1) && z.get("name"@) == Some(z->Object_0[1].1) && z.get("icon"@) == Some(z->Object_0[2].1)) by {
        reveal_strlit("id");
        reveal_strlit("name");
        reveal_strlit("icon");
        assert("id"@.len() != "name"@.len());
        assert("id"@.len() != "icon"@.len());
        assert("name"@[0] != "icon"@[0]);

        let o = z->Object_0;
        lemma_member(o, 0);
        lemma_member(o, 1);
        lemma_member(o, 2);

    }
}

/// What a combination puzzle asks and tells, under the names that clients read: each option with
/// its combination, its items, its mean and its picks, the best one marked, and the best of the
/// combinations that were not offered where there is one.
pub proof fn lemma_combo_puzzle_tells(
    carry_id: Seq<char>,
    carry_name: Seq<char>,
    is_tank: bool,
    patch: Seq<char>,
    candidates: Seq<ComboModel>,
    hidden: Option<ComboModel>,
    items: Map<Seq<char>, (String, String)>,
)
    requires
        candidates.len() > 0,
    ensures
        ({
            let z = combo_puzzle_of(
                carry_id,
                carry_name,
                is_tank,
                patch,
                candidates,
                hidden,
                items,
            );
            &&& z.carry_type == if is_tank {
                "tank"@
            } else {
                "dealer"@
            }
            &&& z.prompt.get("question"@) == Some(
                JsonModel::Str(carry_name + " 캐리의 최적 3코어 아이템 조합은?"@),
            )
            &&& z.prompt.get("carry"@) is Some
            &&& z.prompt.get("carry"@)->0.get("id"@) == Some(JsonModel::Str(carry_id))
            &&& z.prompt.get("carry"@)->0.get("name"@) == Some(JsonModel::Str(carry_name))
            &&& z.prompt.get("patch"@) == Some(JsonModel::Str(patch))
            &&& exists|b: int|
                0 <= b < candidates.len() && z.answer == (#[trigger] candidates[b]).item_combo
                    && forall|i: int|
                    0 <= i < candidates.len() ==> candidates[b].rank <= (
                    #[trigger] candidates[i]).rank
            &&& z.stats.get("options"@) == Some(JsonModel::Array(z.options))
            &&& z.stats.get("carry_type"@) == Some(JsonModel::Str(z.carry_type))
            &&& hidden is None ==> z.stats.get("hidden_pick"@) == Some(JsonModel::Null)
            &&& hidden is Some ==> z.stats.get("hidden_pick"@) is Some && combo_told(
                z.stats.get("hidden_pick"@)->0,
                hidden->0,
                items,
            )
            &&& z.options.len() == candidates.len()
            &&& forall|i: int|
                #![trigger z.options[i]]
                0 <= i < candidates.len() ==> combo_told(z.options[i], candidates[i], items)
                    && z.options[i].get("is_best"@) == Some(
                    JsonModel::Bool(candidates[i].item_combo == z.answer),
                )
        }),
{
    let z = combo_puzzle_of(carry_id, carry_name, is_tank, patch, candidates, hidden, items);
    let ranks = combo_ranks(candidates);
    lemma_least_at(ranks);
    let b = least_at(ranks);
    assert(candidates[b].item_combo == z.answer);
    assert forall|i: int| 0 <= i < candidates.len() implies candidates[b].rank <= (
    #[trigger] candidates[i]).rank by {
        assert(ranks[i] == candidates[i].rank && ranks[b] == candidates[b].rank);
    }
    let p = z.prompt;
    let s = z.stats;
    assert(p.get("question"@) == Some(p->Object_0[0].1) && p.get("carry"@) == Some(p->Object_0[1].1) && p.get("patch"@) == Some(p->Object_0[2].1)) by {
        reveal_strlit("question");
        reveal_strlit("carry");
        reveal_strlit("patch");
        assert("question"@.len() != "carry"@.len());
        assert("question"@.len() != "patch"@.len());
        assert("carry"@[0] != "patch"@[0]);

        let o = p->Object_0;
        lemma_member(o, 0);
        lemma_member(o, 1);
        lemma_member(o, 2);

    }
    let c = p.get("carry"@)->0;
    assert(c.get("id"@) == Some(c->Object_0[0].1) && c.get("name"@) == Some(c->Object_0[1].1)) by {
        reveal_strlit("id");
        reveal_strlit("name");
        assert("id"@.len() != "name"@.len());

        let o = c->Object_0;
        lemma_member(o, 0);
        lemma_member(o, 1);

    }
    assert(s.get("options"@) == Some(s->Object_0[0].1) && s.get("carry_type"@) == Some(s->Object_0[1].1) && s.get("hidden_pick"@) == Some(s->Object_0[2].1)) by {
        reveal_strlit("options");
        reveal_strlit("carry_type");
        reveal_strlit("hidden_pick");
        assert("options"@.len() != "carry_type"@.len());
        assert("options"@.len() != "hidden_pick"@.len());
        assert("carry_type"@.len() != "hidden_pick"@.len());

        let o = s->Object_0;
        lemma_member(o, 0);
        lemma_member(o, 1);
        lemma_member(o, 2);

    }
    if hidden is Some {
        let h = hidden_combo(hidden, items);
        assert(h.get("combo"@) == Some(h->Object_0[0].1) && h.get("items"@) == Some(h->Object_0[1].1) && h.get("avg_placement"@) == Some(h->Object_0[2].1) && h.get("picks"@) == Some(h->Object_0[3].1)) by {
            reveal_strlit("combo");
            reveal_strlit("items");
            reveal_strlit("avg_placement");
            reveal_strlit("picks");
            assert("combo"@[0] != "items"@[0]);
            assert("combo"@.len() != "avg_placement"@.len());
            assert("items"@.len() != "avg_placement"@.len());
            assert("combo"@[0] != "picks"@[0]);
            assert("items"@[0] != "picks"@[0]);
            assert("avg_placement"@.len() != "picks"@.len());

            let o = h->Object_0;
            lemma_member(o, 0);
            lemma_member(o, 1);
            lemma_member(o, 2);
            lemma_member(o, 3);

        }
    }
    assert forall|i: int| #![trigger z.options[i]] 0 <= i < candidates.len() implies combo_told(
        z.options[i],
        candidates[i],
        items,
    ) && z.options[i].get("is_best"@) == Some(
        JsonModel::Bool(candidates[i].item_combo == z.answer),
    ) by {
        let o = z.options[i];
        assert(o.get("combo"@) == Some(o->Object_0[0].1) && o.get("items"@) == Some(o->Object_0[1].1) && o.get("avg_placement"@) == Some(o->Object_0[2].1) && o.get("picks"@) == Some(o->Object_0[3].1) && o.get("is_best"@) == Some(o->Object_0[4].1)) by {
            reveal_strlit("combo");
            reveal_strlit("items");
            reveal_strlit("avg_placement");
            reveal_strlit("picks");
            reveal_strlit("is_best");
            assert("combo"@[0] != "items"@[0]);
            assert("combo"@.len() != "avg_placement"@.len());
            assert("items"@.len() != "avg_placement"@.len());
            assert("combo"@[0] != "picks"@[0]);
            assert("items"@[0] != "picks"@[0]);
            assert("avg_placement"@.len() != "picks"@.len());
            assert("combo"@.len() != "is_best"@.len());
            assert("items"@.len() != "is_best"@.len());
            assert("avg_placement"@.len() != "is_best"@.len());
            assert("picks"@.len() != "is_best"@.len());

            let m = o->Object_0;
            lemma_member(m, 0);
            lemma_member(m, 1);
            lemma_member(m, 2);
            lemma_member(m, 3);
            lemma_member(m, 4);

        }
    }
}

/// `z` tells of the combination `c`: which it is, its items, its mean and how often it was picked.
pub open spec fn combo_told(
    z: JsonModel,
    c: ComboModel,
    items: Map<Seq<char>, (String, String)>,
) -> bool {
    &&& z.get("combo"@) == Some(JsonModel::Str(c.item_combo))
    &&& z.get("items"@) == Some(combo_items(c.item_combo, items))
    &&& z.get("avg_placement"@) == Some(JsonModel::Num(Number::Hundredths(c.avg_placement)))
    &&& z.get("picks"@) == Some(JsonModel::Num(Number::Int(c.picks)))
}

/// The best of the combinations that are not offered is of least rank among those after the
/// first six; there is none where there are six or fewer.
pub proof fn lemma_hidden_beyond_six(combos: Seq<ComboModel>)
    ensures
        hidden_of(combos) is None <==> combos.len() <= 6,
        hidden_of(combos) is Some ==> exists|b: int|
            6 <= b < combos.len() && #[trigger] combos[b] == hidden_of(combos)->0 && forall|i: int|
                6 <= i < combos.len() ==> combos[b].rank <= (#[trigger] combos[i]).rank,
{
    if combos.len() > 6 {
        let t = combos.skip(6);
        let k = least_at(combo_ranks(t));
        lemma_least_at(combo_ranks(t));
        assert(combos[k + 6] == t[k]);
        assert forall|i: int| 6 <= i < combos.len() implies t[k].rank <= (
        #[trigger] combos[i]).rank by {
            assert(t[i - 6] == combos[i]);
            assert(combo_ranks(t)[i - 6] == t[i - 6].rank);
            assert(combo_ranks(t)[k] == t[k].rank);
        }
    }
}

/// A carry is asked about from ten thousand boards on, a combination counts from fifty picks on,
/// and six of them are needed.
pub proof fn lemma_combo_limits()
    ensures
        MIN_TOTAL_APPEARANCES == 10_000,
        MIN_COMBO_PICKS == 50,
        MIN_COMBOS_NEEDED == 6,
{
}

/// A combination puzzle is what its fields say.
pub proof fn lemma_combo_puzzle_as_stored(z: ComboPuzzle, h: ComboStat)
    ensures
        z@.carry_type == z.carry_type@,
        z@.prompt == z.prompt@,
        z.options@ is Array ==> z@.options == z.options@->Array_0,
        z@.answer == z.answer@,
        z@.stats == z.stats@,
        opt_combo(Some(&h)) == Some(h@),
        opt_combo(None) is None,
{
}

}
