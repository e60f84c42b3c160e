//! What the HTTP server answers.

use crate::db::{MetaInfo, PuzzleModel, PuzzleRow};
use crate::error::AppError;
use crate::json::{elements, field, lemma_member, members, Json, JsonModel, Number};
use crate::meta::{
    map_model, Meta, SkillMeta, SkillModel, TraitMeta, TraitMetaModel, UnitMeta, UnitMetaModel,
};
use crate::text::{str_eq, views};
use vstd::prelude::*;
use vstd::string::*;

verus! {

/// Item puzzles whose answer was seen less often are not handed out.
pub const MIN_SAMPLE: i64 = 10;

// ---------------------------------------------------------------- who asks

/// The languages that there is data for.
pub open spec fn languages() -> Seq<Seq<char>> {
    seq![
        "ko_kr"@,
        "en_us"@,
        "ja_jp"@,
        "zh_cn"@,
        "pt_br"@,
        "es_mx"@,
        "fr_fr"@,
        "de_de"@,
        "ru_ru"@,
        "vi_vn"@,
        "th_th"@,
    ]
}

/// The languages that there is data for.
pub fn supported_languages() -> (r: Vec<&'static str>)
    ensures
        r@.len() == languages().len(),
        forall|i: int| 0 <= i < r@.len() ==> (#[trigger] r@[i])@ == languages()[i],
{
    vec![
        "ko_kr",
        "en_us",
        "ja_jp",
        "zh_cn",
        "pt_br",
        "es_mx",
        "fr_fr",
        "de_de",
        "ru_ru",
        "vi_vn",
        "th_th",
    ]
}

/// The language itself where there is data for it; Korean otherwise.
pub open spec fn valid_lang(lang: Seq<char>) -> Seq<char> {
    if languages().contains(lang) {
        lang
    } else {
        "ko_kr"@
    }
}

/// The language itself where there is data for it; Korean otherwise. It becomes part of an
/// address, so nothing else may pass.
pub fn validate_lang(lang: &str) -> (r: String)
    ensures
        r@ == valid_lang(lang@),
{
    let allowed = supported_languages();
    let mut i: usize = 0;
    while i < allowed.len()
        invariant
            i <= allowed@.len(),
            allowed@.len() == languages().len(),
            forall|k: int| 0 <= k < allowed@.len() ==> (#[trigger] allowed@[k])@ == languages()[k],
            forall|k: int| 0 <= k < i ==> (#[trigger] languages()[k]) != lang@,
        decreases allowed@.len() - i,
    {
        if str_eq(allowed[i], lang) {
            assert(languages()[i as int] == lang@);
            return lang.to_string();
        }
        assert(allowed@[i as int]@ == languages()[i as int]);
        i += 1;
    }
    "ko_kr".to_string()
}

/// What is asked for, or `default` where nothing is.
pub open spec fn or_else(value: Option<Seq<char>>, default: Seq<char>) -> Seq<char> {
    match value {
        Some(v) => v,
        None => default,
    }
}

fn given(value: &Option<String>, default: &str) -> (r: String)
    ensures
        r@ == or_else(crate::comp::opt_view(*value), default@),
{
    match value {
        Some(v) => v.clone(),
        None => default.to_string(),
    }
}

/// The language of a request.
pub fn request_lang(lang: &Option<String>) -> (r: String)
    ensures
        r@ == valid_lang(or_else(crate::comp::opt_view(*lang), "ko_kr"@)),
{
    let l = given(lang, "ko_kr");
    validate_lang(l.as_str())
}

/// The user of a request, by its header.
pub fn user_id(header: &Option<String>) -> (r: String)
    ensures
        r@ == or_else(crate::comp::opt_view(*header), "anon"@),
{
    given(header, "anon")
}

// ---------------------------------------------------------------- puzzles

/// What is shown of a puzzle before the answer.
#[derive(Debug)]
pub struct PuzzleView {
    pub id: String,
    pub puzzle_type: String,
    pub patch: String,
    pub set_number: i32,
    pub prompt: Json,
    pub options: Json,
}

pub struct PuzzleViewModel {
    pub id: Seq<char>,
    pub puzzle_type: Seq<char>,
    pub patch: Seq<char>,
    pub set_number: i32,
    pub prompt: JsonModel,
    pub options: JsonModel,
}

impl View for PuzzleView {
    type V = PuzzleViewModel;

    open spec fn view(&self) -> PuzzleViewModel {
        PuzzleViewModel {
            id: self.id@,
            puzzle_type: self.puzzle_type@,
            patch: self.patch@,
            set_number: self.set_number,
            prompt: self.prompt@,
            options: self.options@,
        }
    }
}

/// What is shown of a puzzle before the answer: everything but its statistics.
pub open spec fn view_of(p: PuzzleModel) -> PuzzleViewModel {
    PuzzleViewModel {
        id: p.id,
        puzzle_type: p.puzzle_type,
        patch: p.patch,
        set_number: p.set_number,
        prompt: p.prompt,
        options: p.options,
    }
}

/// What is shown of a puzzle before the answer; not found where there is none.
pub fn puzzle_view(puzzle: Option<PuzzleRow>) -> (r: Result<PuzzleView, ApiError>)
    ensures
        match r {
            Ok(v) => puzzle is Some && v@ == view_of(puzzle->0@),
            Err(e) => puzzle is None && e == ApiError::NotFound,
        },
{
    match puzzle {
        Some(p) => {
            let PuzzleRow { id, puzzle_type, patch, set_number, prompt, options, stats: _ } = p;
            Ok(PuzzleView { id, puzzle_type, patch, set_number, prompt, options })
        },
        None => Err(ApiError::NotFound),
    }
}

/// What comes of an attempt at a puzzle.
#[derive(Debug)]
pub struct AttemptResp {
    pub correct: bool,
    pub answer: String,
    pub stats: Json,
}

/// What is written down of an attempt, and what is answered.
#[derive(Debug)]
pub struct Attempt {
    pub response: AttemptResp,
    /// A user to make sure of.
    pub ensure_user: Option<String>,
    /// Under whose name the attempt is written down.
    pub record_as: Option<String>,
}

/// The attempt is answered: right where the answer was chosen.
pub open spec fn graded(
    a: Attempt,
    chosen: Seq<char>,
    answer: Seq<char>,
    stats: JsonModel,
) -> bool {
    &&& a.response.correct == (chosen == answer)
    &&& a.response.answer@ == answer
    &&& a.response.stats@ == stats
}

/// An attempt at the puzzle of the day. It is written down for users who are logged in.
pub fn submit_attempt(
    chosen: &str,
    user_puuid: &Option<String>,
    puzzle: Option<(String, Json)>,
) -> (r: Result<Attempt, ApiError>)
    ensures
        match r {
            Ok(a) => {
                &&& puzzle is Some
                &&& graded(a, chosen@, puzzle->Some_0.0@, puzzle->Some_0.1@)
                &&& crate::comp::opt_view(a.ensure_user) == crate::comp::opt_view(*user_puuid)
                &&& crate::comp::opt_view(a.record_as) == crate::comp::opt_view(*user_puuid)
            },
            Err(e) => puzzle is None && e == ApiError::NotFound,
        },
{
    match puzzle {
        Some((answer, stats)) => {
            let correct = str_eq(chosen, answer.as_str());
            let (ensure_user, record_as) = match user_puuid {
                Some(p) => (Some(p.clone()), Some(p.clone())),
                None => (None, None),
            };
            Ok(Attempt { response: AttemptResp { correct, answer, stats }, ensure_user, record_as })
        },
        None => Err(ApiError::NotFound),
    }
}

/// An attempt at a puzzle. It is always written down, under the name in the header.
pub fn answer_quiz(
    chosen: &str,
    user_puuid: &Option<String>,
    header: &Option<String>,
    puzzle: Option<(String, Json)>,
) -> (r: Result<Attempt, ApiError>)
    ensures
        match r {
            Ok(a) => {
                &&& puzzle is Some
                &&& graded(a, chosen@, puzzle->Some_0.0@, puzzle->Some_0.1@)
                &&& crate::comp::opt_view(a.ensure_user) == crate::comp::opt_view(*user_puuid)
                &&& crate::comp::opt_view(a.record_as) == Some(
                    or_else(crate::comp::opt_view(*header), "anon"@),
                )
            },
            Err(e) => puzzle is None && e == ApiError::NotFound,
        },
{
    match puzzle {
        Some((answer, stats)) => {
            let correct = str_eq(chosen, answer.as_str());
            let ensure_user = match user_puuid {
                Some(p) => Some(p.clone()),
                None => None,
            };
            Ok(
                Attempt {
                    response: AttemptResp { correct, answer, stats },
                    ensure_user,
                    record_as: Some(user_id(header)),
                },
            )
        },
        None => Err(ApiError::NotFound),
    }
}

/// What puzzle is asked for.
#[derive(Debug)]
pub struct NextRequest {
    pub user_id: String,
    pub puzzle_type: String,
    /// One that was answered wrong last, rather than one that was not tried yet.
    pub review: bool,
}

/// What puzzle is asked for, by the header and the query.
pub fn next_request(header: &Option<String>, kind: &Option<String>, mode: &Option<String>) -> (r:
    NextRequest)
    ensures
        r.user_id@ == or_else(crate::comp::opt_view(*header), "anon"@),
        r.puzzle_type@ == or_else(crate::comp::opt_view(*kind), "item_combine"@),
        r.review == (or_else(crate::comp::opt_view(*mode), "normal"@) == "review"@),
{
    let m = given(mode, "normal");
    NextRequest {
        user_id: user_id(header),
        puzzle_type: given(kind, "item_combine"),
        review: str_eq(m.as_str(), "review"),
    }
}

/// What is answered where no patch has enough matches.
pub open spec fn nothing_served() -> JsonModel {
    JsonModel::Object(seq![("all_solved"@, JsonModel::Bool(true))])
}

/// What is answered with the puzzle that was found.
pub open spec fn next_answer(puzzle: Option<PuzzleModel>) -> JsonModel {
    match puzzle {
        Some(p) => JsonModel::Object(
            seq![
                ("status"@, JsonModel::Str("ok"@)),
                (
                    "puzzle"@,
                    JsonModel::Object(
                        seq![
                            ("id"@, JsonModel::Str(p.id)),
                            ("type"@, JsonModel::Str(p.puzzle_type)),
                            ("patch"@, JsonModel::Str(p.patch)),
                            ("prompt"@, p.prompt),
                            ("options"@, p.options),
                            ("stats"@, p.stats),
                        ],
                    ),
                ),
            ],
        ),
        None => JsonModel::Object(seq![("status"@, JsonModel::Str("all_solved"@))]),
    }
}

/// What is answered where no patch has enough matches.
pub fn no_patch_answer() -> (r: Json)
    ensures
        r@ == nothing_served(),
{
    let r = Json::object(vec![field("all_solved", Json::boolean(true))]);
    assert(r@->Object_0 =~= nothing_served()->Object_0);
    r
}

/// What is answered with the puzzle that was found; that all are solved where there is none.
pub fn next_unsolved(puzzle: Option<PuzzleRow>) -> (r: Json)
    ensures
        r@ == next_answer(
            match puzzle {
                Some(p) => Some(p@),
                None => None,
            },
        ),
{
    match puzzle {
        Some(p) => {
            let ghost pv = p@;
            let PuzzleRow { id, puzzle_type, patch, set_number: _, prompt, options, stats } = p;
            let inner = Json::object(
                vec![
                    field("id", Json::text(id.as_str())),
                    field("type", Json::text(puzzle_type.as_str())),
                    field("patch", Json::text(patch.as_str())),
                    field("prompt", prompt),
                    field("options", options),
                    field("stats", stats),
                ],
            );
            let r = Json::object(
                vec![field("status", Json::text("ok")), field("puzzle", inner)],
            );
            proof {
                let f = next_answer(Some(pv))->Object_0;
                assert(inner@->Object_0 =~= f[1].1->Object_0);
                assert(r@->Object_0 =~= f);
            }
            r
        },
        None => {
            let r = Json::object(vec![field("status", Json::text("all_solved"))]);
            assert(r@->Object_0 =~= next_answer(None)->Object_0);
            r
        },
    }
}

// ---------------------------------------------------------------- errors

/// What a handler can fail with.
#[derive(Debug)]
pub enum ApiError {
    NotFound,
    Internal(AppError),
}

impl ApiError {
    /// The status and the message of the answer. What went wrong inside is not told.
    pub open spec fn status(self) -> (u16, Seq<char>) {
        match self {
            ApiError::NotFound => (404, "not found"@),
            ApiError::Internal(_) => (500, "internal error"@),
        }
    }

    /// An error of the application is an internal one.
    pub fn from_app(e: AppError) -> (r: ApiError)
        ensures
            r == ApiError::Internal(e),
    {
        ApiError::Internal(e)
    }

    /// The status and the body of the answer.
    pub fn into_response(&self) -> (r: (u16, Json))
        ensures
            r.0 == self.status().0,
            r.1@ == JsonModel::Object(seq![("error"@, JsonModel::Str(self.status().1))]),
    {
        let (code, msg): (u16, &str) = match self {
            ApiError::NotFound => (404, "not found"),
            ApiError::Internal(_) => (500, "internal error"),
        };
        let body = Json::object(vec![field("error", Json::text(msg))]);
        assert(body@->Object_0 =~= seq![("error"@, JsonModel::Str(self.status().1))]);
        (code, body)
    }
}

// ---------------------------------------------------------------- small answers

/// What is told of the statistics.
pub open spec fn meta_info_json(patch: Seq<char>, total: i64, puzzles: i64) -> JsonModel {
    JsonModel::Object(
        seq![
            ("patch"@, JsonModel::Str(patch)),
            ("total_matches"@, JsonModel::Num(Number::Int(total))),
            ("puzzle_count"@, JsonModel::Num(Number::Int(puzzles))),
            (
                "approx_rank"@,
                JsonModel::Str(
                    if total >= 3000 {
                        "상위 ~1500위"@
                    } else {
                        "상위 ~1500위 (수집 중)"@
                    },
                ),
            ),
            ("region"@, JsonModel::Str("한국 서버"@)),
        ],
    )
}

/// What is told of the statistics.
pub fn meta_info_answer(m: &MetaInfo) -> (r: Json)
    ensures
        r@ == meta_info_json(m.patch@, m.total_matches, m.puzzle_count),
{
    let approx_rank = if m.total_matches >= 3000 {
        "상위 ~1500위"
    } else {
        "상위 ~1500위 (수집 중)"
    };
    let r = Json::object(
        vec![
            field("patch", Json::text(m.patch.as_str())),
            field("total_matches", Json::integer(m.total_matches)),
            field("puzzle_count", Json::integer(m.puzzle_count)),
            field("approx_rank", Json::text(approx_rank)),
            field("region", Json::text("한국 서버")),
        ],
    );
    assert(r@->Object_0 =~= meta_info_json(
        m.patch@,
        m.total_matches,
        m.puzzle_count,
    )->Object_0);
    r
}

/// How many puzzles there are to review.
pub fn review_counts(item: i64, deck: i64) -> (r: Json)
    ensures
        r@ == JsonModel::Object(
            seq![
                ("item_combine"@, JsonModel::Num(Number::Int(item))),
                ("deck_complete"@, JsonModel::Num(Number::Int(deck))),
            ],
        ),
{
    let r = Json::object(
        vec![
            field("item_combine", Json::integer(item)),
            field("deck_complete", Json::integer(deck)),
        ],
    );
    assert(r@->Object_0 =~= seq![
        ("item_combine"@, JsonModel::Num(Number::Int(item))),
        ("deck_complete"@, JsonModel::Num(Number::Int(deck))),
    ]);
    r
}

/// How a user did with a kind of puzzle.
#[derive(Debug)]
pub struct WeaknessRow {
    pub puzzle_type: String,
    pub attempts: i64,
    pub correct: i64,
    /// The share of right answers, by its IEEE-754 bits. It counts only where there was an
    /// attempt.
    pub accuracy: u64,
}

/// How a user did with a kind of puzzle, as it is told.
pub open spec fn weakness_json(w: WeaknessRow) -> JsonModel {
    JsonModel::Object(
        seq![
            ("puzzle_type"@, JsonModel::Str(w.puzzle_type@)),
            ("attempts"@, JsonModel::Num(Number::Int(w.attempts))),
            ("correct"@, JsonModel::Num(Number::Int(w.correct))),
            (
                "accuracy"@,
                JsonModel::Num(
                    Number::Real(
                        if w.attempts > 0 {
                            w.accuracy
                        } else {
                            0
                        },
                    ),
                ),
            ),
        ],
    )
}

/// How a user did with each kind of puzzle.
pub fn user_weakness(rows: &Vec<WeaknessRow>) -> (r: Json)
    ensures
        r@ == JsonModel::Object(
            seq![
                (
                    "weakness"@,
                    JsonModel::Array(
                        Seq::new(rows@.len(), |i: int| weakness_json(rows@[i])),
                    ),
                ),
            ],
        ),
{
    let mut out: Vec<Json> = Vec::new();
    let mut i: usize = 0;
    while i < rows.len()
        invariant
            i <= rows@.len(),
            out@.len() == i,
            forall|k: int| 0 <= k < i ==> (#[trigger] out@[k])@ == weakness_json(rows@[k]),
        decreases rows@.len() - i,
    {
        let w = &rows[i];
        let accuracy: u64 = if w.attempts > 0 {
            w.accuracy
        } else {
            0
        };
        let o = Json::object(
            vec![
                field("puzzle_type", Json::text(w.puzzle_type.as_str())),
                field("attempts", Json::integer(w.attempts)),
                field("correct", Json::integer(w.correct)),
                field("accuracy", Json::Num(Number::Real(accuracy))),
            ],
        );
        assert(o@->Object_0 =~= weakness_json(*w)->Object_0);
        out.push(o);
        i += 1;
    }
    let ghost goal = Seq::new(rows@.len(), |i: int| weakness_json(rows@[i]));
    assert(elements(out@) =~= goal);
    let r = Json::object(vec![field("weakness", Json::array(out))]);
    assert(r@->Object_0 =~= seq![("weakness"@, JsonModel::Array(goal))]);
    r
}

// ---------------------------------------------------------------- what is known of a set

/// Strings as a document.
pub open spec fn strings_json(s: Seq<Seq<char>>) -> JsonModel {
    JsonModel::Array(Seq::new(s.len(), |i: int| JsonModel::Str(s[i])))
}

/// An ability, as it is told.
pub open spec fn skill_json(a: Option<SkillModel>) -> JsonModel {
    match a {
        Some(k) => JsonModel::Object(
            seq![
                ("name"@, JsonModel::Str(k.name)),
                ("icon"@, JsonModel::Str(k.icon)),
                ("desc"@, JsonModel::Str(k.desc)),
                ("variables"@, k.variables),
            ],
        ),
        None => JsonModel::Null,
    }
}

/// A unit, as it is told.
pub open spec fn unit_info(u: UnitMetaModel) -> JsonModel {
    JsonModel::Object(
        seq![
            ("name"@, JsonModel::Str(u.name)),
            ("cost"@, JsonModel::Num(Number::Int(u.cost as i64))),
            ("traits"@, strings_json(u.traits)),
            ("ability"@, skill_json(u.ability)),
        ],
    )
}

/// A step of a trait: how many units it takes, and its style.
pub open spec fn step_json(step: (i32, i32)) -> JsonModel {
    JsonModel::Array(
        seq![
            JsonModel::Num(Number::Int(step.0 as i64)),
            JsonModel::Num(Number::Int(step.1 as i64)),
        ],
    )
}

/// A trait, as it is told.
pub open spec fn trait_info(t: TraitMetaModel) -> JsonModel {
    JsonModel::Object(
        seq![
            ("name"@, JsonModel::Str(t.name)),
            ("icon"@, JsonModel::Str(t.icon)),
            (
                "breakpoints"@,
                JsonModel::Array(
                    Seq::new(t.breakpoints.len(), |i: int| step_json(t.breakpoints[i])),
                ),
            ),
        ],
    )
}

fn strings_to_json(v: &Vec<String>) -> (r: Json)
    ensures
        r@ == strings_json(views(v@)),
{
    let mut out: Vec<Json> = Vec::new();
    let mut i: usize = 0;
    while i < v.len()
        invariant
            i <= v@.len(),
            out@.len() == i,
            forall|k: int| 0 <= k < i ==> (#[trigger] out@[k])@ == JsonModel::Str(v@[k]@),
        decreases v@.len() - i,
    {
        out.push(Json::text(v[i].as_str()));
        i += 1;
    }
    assert(elements(out@) =~= strings_json(views(v@))->Array_0);
    Json::array(out)
}

fn skill_to_json(a: &Option<SkillMeta>) -> (r: Json)
    ensures
        r@ == skill_json(
            match *a {
                Some(k) => Some(k@),
                None => None,
            },
        ),
{
    match a {
        Some(k) => {
            let r = Json::object(
                vec![
                    field("name", Json::text(k.name.as_str())),
                    field("icon", Json::text(k.icon.as_str())),
                    field("desc", Json::text(k.desc.as_str())),
                    field("variables", k.variables.copy()),
                ],
            );
            assert(r@->Object_0 =~= skill_json(Some(k@))->Object_0);
            r
        },
        None => Json::Null,
    }
}

fn unit_to_json(u: &UnitMeta) -> (r: Json)
    ensures
        r@ == unit_info(u@),
{
    let r = Json::object(
        vec![
            field("name", Json::text(u.name.as_str())),
            field("cost", Json::integer(u.cost as i64)),
            field("traits", strings_to_json(&u.traits)),
            field("ability", skill_to_json(&u.ability)),
        ],
    );
    assert(r@->Object_0 =~= unit_info(u@)->Object_0);
    r
}

fn trait_to_json(t: &TraitMeta) -> (r: Json)
    ensures
        r@ == trait_info(t@),
{
    let mut steps: Vec<Json> = Vec::new();
    let mut i: usize = 0;
    while i < t.breakpoints.len()
        invariant
            i <= t.breakpoints@.len(),
            steps@.len() == i,
            forall|k: int| 0 <= k < i ==> (#[trigger] steps@[k])@ == step_json(t.breakpoints@[k]),
        decreases t.breakpoints@.len() - i,
    {
        let (units, style) = t.breakpoints[i];
        let step = Json::array(vec![Json::integer(units as i64), Json::integer(style as i64)]);
        assert(step@->Array_0 =~= step_json(t.breakpoints@[i as int])->Array_0);
        steps.push(step);
        i += 1;
    }
    let ghost goal = trait_info(t@)->Object_0;
    assert(elements(steps@) =~= goal[2].1->Array_0);
    let r = Json::object(
        vec![
            field("name", Json::text(t.name.as_str())),
            field("icon", Json::text(t.icon.as_str())),
            field("breakpoints", Json::array(steps)),
        ],
    );
    assert(r@->Object_0 =~= goal);
    r
}

/// What is told of the units of a set, by their ids.
pub open spec fn units_told(meta: Meta) -> Seq<(Seq<char>, JsonModel)> {
    let ids = meta.units.keys();
    Seq::new(ids.len(), |i: int| (ids[i], unit_info(map_model(meta.units@)[ids[i]])))
}

/// What is told of the units of a set, by their ids.
pub fn meta_units(meta: &Meta) -> (r: Json)
    ensures
        r@ == JsonModel::Object(units_told(*meta)),
{
    let ghost goal = units_told(*meta);
    let mut out: Vec<(String, Json)> = Vec::new();
    let mut i: usize = 0;
    while i < meta.units.len()
        invariant
            i <= meta.units.keys().len(),
            goal == units_told(*meta),
            out@.len() == i,
            forall|k: int|
                0 <= k < i ==> (#[trigger] out@[k]).0@ == goal[k].0 && out@[k].1@ == goal[k].1,
        decreases meta.units.keys().len() - i,
    {
        let v = unit_to_json(meta.units.value_at(i));
        out.push((meta.units.key_at(i).clone(), v));
        i += 1;
    }
    assert(members(out@) =~= goal);
    Json::object(out)
}

/// What is told of the traits of a set.
pub open spec fn traits_told(meta: Meta) -> Seq<(Seq<char>, JsonModel)> {
    let ids = meta.trait_details.keys();
    Seq::new(ids.len(), |i: int| (ids[i], trait_info(map_model(meta.trait_details@)[ids[i]])))
}

/// What is told of the traits of a set.
pub fn meta_traits(meta: &Meta) -> (r: Json)
    ensures
        r@ == JsonModel::Object(traits_told(*meta)),
{
    let ghost goal = traits_told(*meta);
    let mut out: Vec<(String, Json)> = Vec::new();
    let mut i: usize = 0;
    while i < meta.trait_details.len()
        invariant
            i <= meta.trait_details.keys().len(),
            goal == traits_told(*meta),
            out@.len() == i,
            forall|k: int|
                0 <= k < i ==> (#[trigger] out@[k]).0@ == goal[k].0 && out@[k].1@ == goal[k].1,
        decreases meta.trait_details.keys().len() - i,
    {
        let v = trait_to_json(meta.trait_details.value_at(i));
        out.push((meta.trait_details.key_at(i).clone(), v));
        i += 1;
    }
    assert(members(out@) =~= goal);
    Json::object(out)
}

/// The names of the items of a set, by their ids.
pub open spec fn items_told(meta: Meta) -> Seq<(Seq<char>, JsonModel)> {
    let ids = meta.items.keys();
    Seq::new(ids.len(), |i: int| (ids[i], JsonModel::Str(map_model(meta.items@)[ids[i]])))
}

/// The names of the items of a set, by their ids.
pub fn meta_items(meta: &Meta) -> (r: Json)
    ensures
        r@ == JsonModel::Object(items_told(*meta)),
{
    let ghost goal = items_told(*meta);
    let mut out: Vec<(String, Json)> = Vec::new();
    let mut i: usize = 0;
    while i < meta.items.len()
        invariant
            i <= meta.items.keys().len(),
            goal == items_told(*meta),
            out@.len() == i,
            forall|k: int|
                0 <= k < i ==> (#[trigger] out@[k]).0@ == goal[k].0 && out@[k].1@ == goal[k].1,
        decreases meta.items.keys().len() - i,
    {
        let v = Json::text(meta.items.value_at(i).as_str());
        out.push((meta.items.key_at(i).clone(), v));
        i += 1;
    }
    assert(members(out@) =~= goal);
    Json::object(out)
}

// ---------------------------------------------------------------- laws

/// What is shown of a puzzle before the answer does not depend on its statistics.
pub proof fn lemma_view_hides_stats(p: PuzzleModel, q: PuzzleModel)
    requires
        p.id == q.id,
        p.puzzle_type == q.puzzle_type,
        p.patch == q.patch,
        p.set_number == q.set_number,
        p.prompt == q.prompt,
        p.options == q.options,
    ensures
        view_of(p) == view_of(q),
{
}

/// Whatever language is asked for, one that there is data for is used; it is used again when
/// asked for again.
pub proof fn lemma_valid_lang(lang: Seq<char>)
    ensures
        languages().contains(valid_lang(lang)),
        valid_lang(valid_lang(lang)) == valid_lang(lang),
{
    assert(languages()[0] == "ko_kr"@);
}

/// What went wrong inside is not told: all internal errors are answered alike.
pub proof fn lemma_internal_alike(a: AppError, b: AppError)
    ensures
        ApiError::Internal(a).status() == ApiError::Internal(b).status(),
{
}

/// The next puzzle is told under the names that clients read: its question, its options and the
/// rest, each under its own; nothing but that all are solved where there is none.
pub proof fn lemma_next_puzzle(p: PuzzleModel)
    ensures
        next_answer(Some(p)).get("status"@) == Some(JsonModel::Str("ok"@)),
        next_answer(Some(p)).get("puzzle"@) is Some,
        ({
            let z = next_answer(Some(p)).get("puzzle"@)->0;
            &&& z.get("id"@) == Some(JsonModel::Str(p.id))
            &&& z.get("type"@) == Some(JsonModel::Str(p.puzzle_type))
            &&& z.get("patch"@) == Some(JsonModel::Str(p.patch))
            &&& z.get("prompt"@) == Some(p.prompt)
            &&& z.get("options"@) == Some(p.options)
            &&& z.get("stats"@) == Some(p.stats)
            &&& z.get("prompt"@) == Some(view_of(p).prompt)
            &&& z.get("options"@) == Some(view_of(p).options)
        }),
        next_answer(None).get("status"@) == Some(JsonModel::Str("all_solved"@)),
        next_answer(None).get("puzzle"@) is None,
        nothing_served().get("all_solved"@) == Some(JsonModel::Bool(true)),
{
    reveal_strlit("status");
    reveal_strlit("puzzle");
    reveal_strlit("all_solved");
    reveal_strlit("id");
    reveal_strlit("type");
    reveal_strlit("patch");
    reveal_strlit("prompt");
    reveal_strlit("options");
    reveal_strlit("stats");
    assert("status"@[0] != "puzzle"@[0]);
    assert("status"@.len() != "all_solved"@.len());
    assert("puzzle"@.len() != "all_solved"@.len());
    assert("status"@.len() != "id"@.len());
    assert("puzzle"@.len() != "id"@.len());
    assert("all_solved"@.len() != "id"@.len());
    assert("status"@.len() != "type"@.len());
    assert("puzzle"@.len() != "type"@.len());
    assert("all_solved"@.len() != "type"@.len());
    assert("id"@.len() != "type"@.len());
    assert("status"@.len() != "patch"@.len());
    assert("puzzle"@.len() != "patch"@.len());
    assert("all_solved"@.len() != "patch"@.len());
    assert("id"@.len() != "patch"@.len());
    assert("type"@.len() != "patch"@.len());
    assert("status"@[0] != "prompt"@[0]);
    assert("puzzle"@[1] != "prompt"@[1]);
    assert("all_solved"@.len() != "prompt"@.len());
    assert("id"@.len() != "prompt"@.len());
    assert("type"@.len() != "prompt"@.len());
    assert("patch"@.len() != "prompt"@.len());
    assert("status"@.len() != "options"@.len());
    assert("puzzle"@.len() != "options"@.len());
    assert("all_solved"@.len() != "options"@.len());
    assert("id"@.len() != "options"@.len());
    assert("type"@.len() != "options"@.len());
    assert("patch"@.len() != "options"@.len());
    assert("prompt"@.len() != "options"@.len());
    assert("status"@.len() != "stats"@.len());
    assert("puzzle"@.len() != "stats"@.len());
    assert("all_solved"@.len() != "stats"@.len());
    assert("id"@.len() != "stats"@.len());
    assert("type"@.len() != "stats"@.len());
    assert("patch"@[0] != "stats"@[0]);
    assert("prompt"@.len() != "stats"@.len());
    assert("options"@.len() != "stats"@.len());

    let o = next_answer(Some(p))->Object_0;
    lemma_member(o, 0);
    lemma_member(o, 1);

    let z = o[1].1->Object_0;
    lemma_member(z, 0);
    lemma_member(z, 1);
    lemma_member(z, 2);
    lemma_member(z, 3);
    lemma_member(z, 4);
    lemma_member(z, 5);

    let n = next_answer(None);
    lemma_member(n->Object_0, 0);
    crate::json::lemma_no_member(n, "puzzle"@);
    lemma_member(nothing_served()->Object_0, 0);
}

/// What is shown of a puzzle is the puzzle, field by field.
pub proof fn lemma_view_shows(p: PuzzleModel)
    ensures
        view_of(p).id == p.id,
        view_of(p).puzzle_type == p.puzzle_type,
        view_of(p).patch == p.patch,
        view_of(p).set_number == p.set_number,
        view_of(p).prompt == p.prompt,
        view_of(p).options == p.options,
{
}

/// An attempt is right exactly where the answer itself was chosen; the answer and the statistics
/// are told either way.
pub proof fn lemma_graded(a: Attempt, chosen: Seq<char>, answer: Seq<char>, stats: JsonModel)
    requires
        graded(a, chosen, answer, stats),
    ensures
        a.response.correct <==> chosen == answer,
        a.response.answer@ == answer,
        a.response.stats@ == stats,
{
}

/// What is not said is taken as the default, and what is said is taken as it is.
pub proof fn lemma_or_else(value: Seq<char>, default: Seq<char>)
    ensures
        or_else(Some(value), default) == value,
        or_else(None, default) == default,
{
}

/// Eleven languages are served. Each of them is served as asked for, and Korean in place of any
/// other.
pub proof fn lemma_languages(lang: Seq<char>)
    ensures
        languages().len() == 11,
        ({
            let served = lang == "ko_kr"@ || lang == "en_us"@ || lang == "ja_jp"@ || lang == "zh_cn"@
                || lang == "pt_br"@ || lang == "es_mx"@ || lang == "fr_fr"@ || lang == "de_de"@
                || lang == "ru_ru"@ || lang == "vi_vn"@ || lang == "th_th"@;
            &&& served ==> valid_lang(lang) == lang
            &&& !served ==> valid_lang(lang) == "ko_kr"@
            &&& languages().contains(lang) <==> served
        }),
{
    let l = languages();
    assert(l[0] == "ko_kr"@ && l[1] == "en_us"@ && l[2] == "ja_jp"@ && l[3] == "zh_cn"@);
    assert(l[4] == "pt_br"@ && l[5] == "es_mx"@ && l[6] == "fr_fr"@ && l[7] == "de_de"@);
    assert(l[8] == "ru_ru"@ && l[9] == "vi_vn"@ && l[10] == "th_th"@);
}

/// What does not exist is answered with 404, what went wrong inside with 500.
pub proof fn lemma_statuses(e: AppError)
    ensures
        ApiError::NotFound.status() == (404u16, "not found"@),
        ApiError::Internal(e).status() == (500u16, "internal error"@),
{
}

/// Where the statistics come from is told under the names that clients read. From 3000 matches
/// on the collection counts as complete.
pub proof fn lemma_meta_info(patch: Seq<char>, total: i64, puzzles: i64)
    ensures
        ({
            let z = meta_info_json(patch, total, puzzles);
            &&& z.get("patch"@) == Some(JsonModel::Str(patch))
            &&& z.get("total_matches"@) == Some(JsonModel::Num(Number::Int(total)))
            &&& z.get("puzzle_count"@) == Some(JsonModel::Num(Number::Int(puzzles)))
            &&& total >= 3000 ==> z.get("approx_rank"@) == Some(JsonModel::Str("상위 ~1500위"@))
            &&& total < 3000 ==> z.get("approx_rank"@) == Some(
                JsonModel::Str("상위 ~1500위 (수집 중)"@),
            )
            &&& z.get("region"@) == Some(JsonModel::Str("한국 서버"@))
        }),
{
    reveal_strlit("patch");
    reveal_strlit("total_matches");
    reveal_strlit("puzzle_count");
    reveal_strlit("approx_rank");
    reveal_strlit("region");
    assert("patch"@.len() != "total_matches"@.len());
    assert("patch"@.len() != "puzzle_count"@.len());
    assert("total_matches"@.len() != "puzzle_count"@.len());
    assert("patch"@.len() != "approx_rank"@.len());
    assert("total_matches"@.len() != "approx_rank"@.len());
    assert("puzzle_count"@.len() != "approx_rank"@.len());
    assert("patch"@.len() != "region"@.len());
    assert("total_matches"@.len() != "region"@.len());
    assert("puzzle_count"@.len() != "region"@.len());
    assert("approx_rank"@.len() != "region"@.len());

    let o = meta_info_json(patch, total, puzzles)->Object_0;
    lemma_member(o, 0);
    lemma_member(o, 1);
    lemma_member(o, 2);
    lemma_member(o, 3);
    lemma_member(o, 4);

}

/// How a user does at a kind of puzzle is told under the names that clients read; without an
/// attempt the share of right answers is 0.
pub proof fn lemma_weakness(w: WeaknessRow)
    ensures
        weakness_json(w).get("puzzle_type"@) == Some(JsonModel::Str(w.puzzle_type@)),
        weakness_json(w).get("attempts"@) == Some(JsonModel::Num(Number::Int(w.attempts))),
        weakness_json(w).get("correct"@) == Some(JsonModel::Num(Number::Int(w.correct))),
        w.attempts > 0 ==> weakness_json(w).get("accuracy"@) == Some(
            JsonModel::Num(Number::Real(w.accuracy)),
        ),
        w.attempts <= 0 ==> weakness_json(w).get("accuracy"@) == Some(
            JsonModel::Num(Number::Real(0)),
        ),
{
    reveal_strlit("puzzle_type");
    reveal_strlit("attempts");
    reveal_strlit("correct");
    reveal_strlit("accuracy");
    assert("puzzle_type"@.len() != "attempts"@.len());
    assert("puzzle_type"@.len() != "correct"@.len());
    assert("attempts"@.len() != "correct"@.len());
    assert("puzzle_type"@.len() != "accuracy"@.len());
    assert("attempts"@[1] != "accuracy"@[1]);
    assert("correct"@.len() != "accuracy"@.len());

    let o = weakness_json(w)->Object_0;
    lemma_member(o, 0);
    lemma_member(o, 1);
    lemma_member(o, 2);
    lemma_member(o, 3);

}

/// What is told of a unit: its name, cost, traits and skill, each under its own name.
pub proof fn lemma_unit_told(u: UnitMetaModel)
    ensures
        unit_info(u).get("name"@) == Some(JsonModel::Str(u.name)),
        unit_info(u).get("cost"@) == Some(JsonModel::Num(Number::Int(u.cost as i64))),
        unit_info(u).list_at("traits"@).len() == u.traits.len(),
        forall|i: int|
            0 <= i < u.traits.len() ==> #[trigger] unit_info(u).list_at("traits"@)[i]
                == JsonModel::Str(u.traits[i]),
        u.ability is None ==> unit_info(u).get("ability"@) == Some(JsonModel::Null),
        u.ability matches Some(k) ==> ({
            let a = unit_info(u).get("ability"@)->0;
            &&& a.get("name"@) == Some(JsonModel::Str(k.name))
            &&& a.get("icon"@) == Some(JsonModel::Str(k.icon))
            &&& a.get("desc"@) == Some(JsonModel::Str(k.desc))
            &&& a.get("variables"@) == Some(k.variables)
        }),
{
    reveal_strlit("name");
    reveal_strlit("cost");
    reveal_strlit("traits");
    reveal_strlit("ability");
    reveal_strlit("icon");
    reveal_strlit("desc");
    reveal_strlit("variables");
    assert("name"@[0] != "cost"@[0]);
    assert("name"@.len() != "traits"@.len());
    assert("cost"@.len() != "traits"@.len());
    assert("name"@.len() != "ability"@.len());
    assert("cost"@.len() != "ability"@.len());
    assert("traits"@.len() != "ability"@.len());
    assert("name"@[0] != "icon"@[0]);
    assert("cost"@[0] != "icon"@[0]);
    assert("traits"@.len() != "icon"@.len());
    assert("ability"@.len() != "icon"@.len());
    assert("name"@[0] != "desc"@[0]);
    assert("cost"@[0] != "desc"@[0]);
    assert("traits"@.len() != "desc"@.len());
    assert("ability"@.len() != "desc"@.len());
    assert("icon"@[0] != "desc"@[0]);
    assert("name"@.len() != "variables"@.len());
    assert("cost"@.len() != "variables"@.len());
    assert("traits"@.len() != "variables"@.len());
    assert("ability"@.len() != "variables"@.len());
    assert("icon"@.len() != "variables"@.len());
    assert("desc"@.len() != "variables"@.len());

    let o = unit_info(u)->Object_0;
    lemma_member(o, 0);
    lemma_member(o, 1);
    lemma_member(o, 2);
    lemma_member(o, 3);

    if u.ability is Some {
        let a = skill_json(u.ability)->Object_0;
        lemma_member(a, 0);
        lemma_member(a, 1);
        lemma_member(a, 2);
        lemma_member(a, 3);

    }
}

/// What is told of a trait: its name, icon and steps, each step by its units and its style.
pub proof fn lemma_trait_told(t: TraitMetaModel)
    ensures
        trait_info(t).get("name"@) == Some(JsonModel::Str(t.name)),
        trait_info(t).get("icon"@) == Some(JsonModel::Str(t.icon)),
        trait_info(t).list_at("breakpoints"@).len() == t.breakpoints.len(),
        forall|i: int|
            0 <= i < t.breakpoints.len() ==> #[trigger] trait_info(t).list_at("breakpoints"@)[i]
                == JsonModel::Array(
                seq![
                    JsonModel::Num(Number::Int(t.breakpoints[i].0 as i64)),
                    JsonModel::Num(Number::Int(t.breakpoints[i].1 as i64)),
                ],
            ),
{
    reveal_strlit("name");
    reveal_strlit("icon");
    reveal_strlit("breakpoints");
    assert("name"@[0] != "icon"@[0]);
    assert("name"@.len() != "breakpoints"@.len());
    assert("icon"@.len() != "breakpoints"@.len());

    let o = trait_info(t)->Object_0;
    lemma_member(o, 0);
    lemma_member(o, 1);
    lemma_member(o, 2);

}

/// Every unit, trait and item of a set is told under its id.
pub proof fn lemma_set_told(meta: Meta)
    ensures
        units_told(meta).len() == meta.units.keys().len(),
        traits_told(meta).len() == meta.trait_details.keys().len(),
        items_told(meta).len() == meta.items.keys().len(),
        forall|i: int|
            #![trigger units_told(meta)[i]]
            0 <= i < meta.units.keys().len() ==> units_told(meta)[i].0 == meta.units.keys()[i]
                && units_told(meta)[i].1 == unit_info(map_model(meta.units@)[meta.units.keys()[i]]),
        forall|i: int|
            #![trigger traits_told(meta)[i]]
            0 <= i < meta.trait_details.keys().len() ==> traits_told(meta)[i].0
                == meta.trait_details.keys()[i] && traits_told(meta)[i].1 == trait_info(
                map_model(meta.trait_details@)[meta.trait_details.keys()[i]],
            ),
        forall|i: int|
            #![trigger items_told(meta)[i]]
            0 <= i < meta.items.keys().len() ==> items_told(meta)[i] == (
                meta.items.keys()[i],
                JsonModel::Str(map_model(meta.items@)[meta.items.keys()[i]]),
            ),
{
}

/// What is shown of a puzzle is what its fields say.
pub proof fn lemma_shown_as_stored(v: PuzzleView)
    ensures
        v@.id == v.id@,
        v@.puzzle_type == v.puzzle_type@,
        v@.patch == v.patch@,
        v@.set_number == v.set_number,
        v@.prompt == v.prompt@,
        v@.options == v.options@,
{
}

}
