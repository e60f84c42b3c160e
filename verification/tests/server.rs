use tft_iq::db::{MetaInfo, PuzzleRow};
use tft_iq::json::{field, Json, Number};
use tft_iq::meta::{Meta, SkillMeta, TraitMeta, UnitMeta};
use tft_iq::server::{
    answer_quiz, meta_info_answer, meta_items, meta_traits, meta_units, next_request,
    next_unsolved, no_patch_answer, puzzle_view, request_lang, review_counts, submit_attempt,
    supported_languages, user_id, user_weakness, validate_lang, ApiError, WeaknessRow,
};
use tft_iq::AppError;

fn some(s: &str) -> Option<String> {
    Some(s.to_string())
}

fn row() -> PuzzleRow {
    PuzzleRow {
        id: "id".to_string(),
        puzzle_type: "item_combine".to_string(),
        patch: "17.5".to_string(),
        set_number: 17,
        prompt: Json::text("prompt"),
        options: Json::text("options"),
        stats: Json::text("stats"),
    }
}

#[test]
fn allowed_languages() {
    assert_eq!(supported_languages().len(), 11);
    for lang in supported_languages() {
        assert_eq!(validate_lang(lang), lang);
    }
    assert_eq!(validate_lang("../secret"), "ko_kr");
    assert_eq!(validate_lang(""), "ko_kr");
    assert_eq!(request_lang(&None), "ko_kr");
    assert_eq!(request_lang(&some("en_us")), "en_us");
}

#[test]
fn users() {
    assert_eq!(user_id(&None), "anon");
    assert_eq!(user_id(&some("u")), "u");
}

#[test]
fn views_hide_statistics() {
    let v = puzzle_view(Some(row())).unwrap();
    assert_eq!((v.id.as_str(), v.puzzle_type.as_str()), ("id", "item_combine"));
    assert_eq!((v.patch.as_str(), v.set_number), ("17.5", 17));
    assert_eq!(v.prompt.as_str().unwrap(), "prompt");
    assert_eq!(v.options.as_str().unwrap(), "options");
    assert!(!format!("{v:?}").contains("stats"));
    assert!(matches!(puzzle_view(None), Err(ApiError::NotFound)));
}

#[test]
fn attempts_at_the_puzzle_of_the_day() {
    let puzzle = || Some(("a".to_string(), Json::text("s")));
    let r = submit_attempt("a", &some("me"), puzzle()).unwrap();
    assert!(r.response.correct);
    assert_eq!(r.response.answer, "a");
    assert_eq!(r.response.stats.as_str().unwrap(), "s");
    assert_eq!((r.ensure_user, r.record_as), (some("me"), some("me")));
    let r = submit_attempt("A", &None, puzzle()).unwrap();
    assert!(!r.response.correct);
    assert_eq!((r.ensure_user, r.record_as), (None, None));
    assert!(matches!(submit_attempt("a", &None, None), Err(ApiError::NotFound)));
}

#[test]
fn attempts_at_a_quiz() {
    let puzzle = || Some(("a".to_string(), Json::text("s")));
    let r = answer_quiz("a", &None, &None, puzzle()).unwrap();
    assert!(r.response.correct);
    assert_eq!((r.ensure_user, r.record_as), (None, some("anon")));
    let r = answer_quiz("b", &some("me"), &some("u"), puzzle()).unwrap();
    assert!(!r.response.correct);
    assert_eq!((r.ensure_user, r.record_as), (some("me"), some("u")));
    assert!(matches!(answer_quiz("a", &None, &None, None), Err(ApiError::NotFound)));
}

#[test]
fn next_puzzle() {
    let r = next_request(&None, &None, &None);
    assert_eq!((r.user_id.as_str(), r.puzzle_type.as_str(), r.review), ("anon", "item_combine", false));
    let r = next_request(&some("u"), &some("deck_complete"), &some("review"));
    assert_eq!((r.user_id.as_str(), r.puzzle_type.as_str(), r.review), ("u", "deck_complete", true));
    assert!(!next_request(&None, &None, &some("Review")).review);
    assert_eq!(no_patch_answer().get("all_solved").unwrap().as_bool(), Some(true));
    assert_eq!(next_unsolved(None).str_at("status").unwrap(), "all_solved");
    let j = next_unsolved(Some(row()));
    assert_eq!(j.str_at("status").unwrap(), "ok");
    let p = j.get("puzzle").unwrap();
    assert_eq!(p.str_at("type").unwrap(), "item_combine");
    assert_eq!(p.str_at("stats").unwrap(), "stats");
    assert_eq!(p.str_at("id").unwrap(), "id");
    assert!(p.get("set_number").is_none());
}

#[test]
fn errors_as_answers() {
    let (status, body) = ApiError::NotFound.into_response();
    assert_eq!((status, body.str_at("error").unwrap().as_str()), (404, "not found"));
    let e = ApiError::from_app(AppError::Db("password".to_string()));
    let (status, body) = e.into_response();
    assert_eq!((status, body.str_at("error").unwrap().as_str()), (500, "internal error"));
}

#[test]
fn where_statistics_come_from() {
    let m = |n: i64| MetaInfo { patch: "17.5".to_string(), total_matches: n, puzzle_count: 3 };
    let j = meta_info_answer(&m(3000));
    assert_eq!(j.str_at("approx_rank").unwrap(), "상위 ~1500위");
    assert_eq!((j.i64_at("total_matches"), j.i64_at("puzzle_count")), (Some(3000), Some(3)));
    assert_eq!((j.str_at("patch").unwrap().as_str(), j.str_at("region").unwrap().as_str()), ("17.5", "한국 서버"));
    assert_eq!(meta_info_answer(&m(2999)).str_at("approx_rank").unwrap(), "상위 ~1500위 (수집 중)");
}

#[test]
fn small_answers() {
    let j = review_counts(3, 4);
    assert_eq!((j.i64_at("item_combine"), j.i64_at("deck_complete")), (Some(3), Some(4)));
    let w = |attempts: i64| WeaknessRow {
        puzzle_type: "t".to_string(),
        attempts,
        correct: 1,
        accuracy: 0.5f64.to_bits(),
    };
    let j = user_weakness(&vec![w(2), w(0)]);
    let v = j.list_at("weakness").unwrap();
    assert!(matches!(v[0].get("accuracy"), Some(Json::Num(Number::Real(b))) if f64::from_bits(*b) == 0.5));
    assert!(matches!(v[1].get("accuracy"), Some(Json::Num(Number::Real(0)))));
    assert_eq!((v[0].i64_at("attempts"), v[0].i64_at("correct")), (Some(2), Some(1)));
}

#[test]
fn what_is_told_of_a_set() {
    let mut m = Meta::load(17, &Json::Null);
    let ability = SkillMeta {
        name: "쾅".to_string(),
        icon: "i".to_string(),
        desc: "d".to_string(),
        variables: Json::array(vec![Json::object(vec![field("x", Json::Null)])]),
    };
    let unit = UnitMeta {
        name: "징크스".to_string(),
        cost: 4,
        traits: vec!["메카".to_string()],
        ability: Some(ability),
    };
    m.units = m.units.insert("Jinx".to_string(), unit);
    let mecha = TraitMeta {
        name: "메카".to_string(),
        icon: "m".to_string(),
        breakpoints: vec![(2, 1), (4, 3)],
    };
    m.trait_details = m.trait_details.insert("메카".to_string(), mecha);
    m.items = m.items.insert("i".to_string(), "검".to_string());
    let units = meta_units(&m);
    let u = units.get("Jinx").unwrap();
    assert_eq!((u.str_at("name").unwrap().as_str(), u.i64_at("cost")), ("징크스", Some(4)));
    assert_eq!(u.list_at("traits").unwrap()[0].as_str().unwrap(), "메카");
    assert_eq!(u.get("ability").unwrap().list_at("variables").unwrap().len(), 1);
    let traits = meta_traits(&m);
    let t = traits.get("메카").unwrap();
    let steps = t.list_at("breakpoints").unwrap();
    assert_eq!(steps[1].as_array().unwrap()[1].as_i64(), Some(3));
    assert_eq!(meta_items(&m).str_at("i").unwrap(), "검");
}
