use tft_iq::db::{classify_carry, CarryType, ItemFull};
use tft_iq::item_quiz::{
    allowed_distractor_types, carry_type_str, fill_distractors, item_puzzle, make_item_puzzle,
    plan_item_quiz, ItemDecision, ItemPlan,
};
use tft_iq::json::{Json, Number};
use tft_iq::meta::Meta;
use tft_iq::puzzle::NamedRef;

fn types(v: &[(&str, i64)]) -> Vec<(String, i64)> {
    v.iter().map(|(s, n)| (s.to_string(), *n)).collect()
}

fn item(id: &str, rank: i64, picks: i64, damage_type: &str, lift: i64) -> ItemFull {
    ItemFull {
        item: id.to_string(),
        name: format!("name of {id}"),
        avg_placement: 400 + rank,
        picks,
        damage_type: damage_type.to_string(),
        lift,
        icon_url: String::new(),
        rank,
    }
}

fn named(id: &str) -> NamedRef {
    NamedRef { id: id.to_string(), name: format!("name of {id}") }
}

fn meta() -> Meta {
    Meta::load(17, &Json::Null)
}

fn items() -> Vec<ItemFull> {
    vec![
        item("everywhere", 0, 500, "ad", 1),
        item("b", 2, 50, "ad", 3),
        item("best", 1, 100, "ad", 2),
        item("c", 3, 59, "mixed", 2),
        item("magic", 4, 10, "ap", 5),
        item("d", 5, 60, "ad", 2),
    ]
}

fn plan() -> ItemPlan {
    match plan_item_quiz(&types(&[("ad", 10)]), &items()) {
        ItemDecision::Plan(p) => p,
        _ => panic!(),
    }
}

#[test]
fn types_of_carries() {
    assert_eq!(classify_carry(&types(&[])), CarryType::Tank);
    assert_eq!(classify_carry(&types(&[("utility", 90)])), CarryType::Tank);
    assert_eq!(classify_carry(&types(&[("ad", 75), ("bruiser", 25)])), CarryType::Bruiser);
    assert_eq!(classify_carry(&types(&[("ad", 76), ("bruiser", 24)])), CarryType::Dealer);
    assert_eq!(classify_carry(&types(&[("ap", 10), ("tank", 11)])), CarryType::Tank);
    assert_eq!(classify_carry(&types(&[("mixed", 10), ("tank", 10)])), CarryType::Dealer);
    assert_eq!(classify_carry(&types(&[("ad", 5), ("ap", 5), ("tank", 9)])), CarryType::Dealer);
    assert_eq!(carry_type_str(CarryType::Dealer), "dealer");
    assert_eq!(carry_type_str(CarryType::Bruiser), "bruiser");
    assert_eq!(carry_type_str(CarryType::Tank), "tank");
}

#[test]
fn kinds_of_wrong_options() {
    let of = |c, a| allowed_distractor_types(c, a);
    assert_eq!(of(CarryType::Bruiser, "ad"), vec!["ad", "ap", "mixed", "bruiser", "tank"]);
    assert_eq!(of(CarryType::Dealer, "ad"), vec!["ad", "mixed"]);
    assert_eq!(of(CarryType::Dealer, "ap"), vec!["ap", "mixed"]);
    assert_eq!(of(CarryType::Dealer, "mixed"), vec!["ad", "ap", "mixed"]);
    assert_eq!(of(CarryType::Tank, "utility"), vec!["ad", "ap", "mixed", "utility"]);
}

#[test]
fn plan_of_a_carry() {
    let p = plan();
    assert_eq!(p.carry_type, CarryType::Dealer);
    // the best of the items that the carry favours
    assert_eq!(p.answer.item, "best");
    // 60 picks are six tenths of the answer's; the best item below that is `b`
    assert_eq!(p.hidden.as_ref().unwrap().item, "b");
    assert_eq!(p.allowed, vec!["ad", "mixed"]);
    let ids: Vec<&str> = p.distractors.iter().map(|d| d.id.as_str()).collect();
    assert_eq!(ids, vec!["b", "c", "d"]);
}

#[test]
fn carries_without_a_puzzle() {
    assert!(matches!(plan_item_quiz(&types(&[("tank", 9)]), &items()), ItemDecision::Tank));
    assert!(matches!(plan_item_quiz(&types(&[("ad", 9)]), &vec![]), ItemDecision::NoAnswer));
    let common = vec![item("x", 1, 5, "ad", 1)];
    assert!(matches!(plan_item_quiz(&types(&[("ad", 9)]), &common), ItemDecision::NoAnswer));
}

#[test]
fn nothing_hidden() {
    let all = vec![item("x", 1, 100, "ad", 2), item("y", 2, 60, "ad", 2)];
    match plan_item_quiz(&types(&[("ad", 9)]), &all) {
        ItemDecision::Plan(p) => assert!(p.hidden.is_none()),
        _ => panic!(),
    }
}

#[test]
fn wrong_options_are_filled_up() {
    let pool = || vec![named("best"), named("x"), named("x"), named("y"), named("z")];
    let ids = |d: Vec<NamedRef>| d.into_iter().map(|n| n.id).collect::<Vec<String>>();
    assert_eq!(ids(fill_distractors(vec![named("y")], "best", pool())), vec!["y", "x", "z"]);
    assert_eq!(ids(fill_distractors(vec![], "best", vec![named("best")])), Vec::<String>::new());
    let four = vec![named("1"), named("2"), named("3"), named("4")];
    assert_eq!(fill_distractors(four, "best", pool()).len(), 4);
}

#[test]
fn item_puzzle_with_given_options() {
    let opts = vec![named("b"), named("best"), named("other"), named("c")];
    let z = item_puzzle("Jinx", 77, "17.5", &plan(), &opts, &items(), &meta());
    assert_eq!(z.answer, "best");
    assert_eq!(z.prompt.question, "Jinx 캐리에게 가장 좋은 아이템은?");
    assert_eq!((z.prompt.carry.id.as_str(), z.prompt.patch.as_str()), ("Jinx", "17.5"));
    assert!(z.prompt.context_traits.is_empty());
    let s = &z.option_stats;
    assert_eq!((s[0].avg_placement, s[0].sample_size, s[0].is_best), (Some(402), 50, false));
    assert_eq!((s[1].avg_placement, s[1].sample_size, s[1].is_best), (Some(401), 100, true));
    assert_eq!((s[2].avg_placement, s[2].sample_size, s[2].is_best), (None, 0, false));
    assert_eq!(z.stats.str_at("carry_type").unwrap(), "dealer");
    assert_eq!(z.stats.i64_at("carry_appearances"), Some(77));
    let hidden = z.stats.get("hidden_pick").unwrap();
    assert_eq!(hidden.str_at("id").unwrap(), "b");
    assert!(matches!(hidden.get("avg_placement"), Some(Json::Num(Number::Hundredths(402)))));
    let told = z.stats.list_at("options").unwrap();
    assert_eq!(told.len(), 4);
    assert!(matches!(told[2].get("avg_placement"), Some(Json::Null)));
    assert_eq!(told[1].get("is_best").unwrap().as_bool(), Some(true));
}

#[test]
fn drawn_item_puzzle_keeps_the_rules() {
    for _ in 0..50 {
        let z =
            make_item_puzzle("Jinx", 1, "17.5", &plan(), vec![named("x")], &items(), &meta());
        let z = z.unwrap();
        let mut ids: Vec<&str> = z.options.iter().map(|o| o.id.as_str()).collect();
        ids.sort();
        // three wrong options of its own: nothing of the pool is needed
        assert_eq!(ids, vec!["b", "best", "c", "d"]);
        assert_eq!(z.option_stats.iter().filter(|s| s.is_best).count(), 1);
    }
}

#[test]
fn item_puzzle_needs_enough_options() {
    let all = vec![item("best", 1, 9, "ad", 2), item("b", 2, 9, "ad", 2)];
    let p = match plan_item_quiz(&types(&[("ad", 9)]), &all) {
        ItemDecision::Plan(p) => p,
        _ => panic!(),
    };
    let pool = vec![named("b"), named("best"), named("x"), named("x")];
    assert!(make_item_puzzle("J", 1, "p", &p, pool, &all, &meta()).is_none());
    let pool = vec![named("b"), named("y"), named("x"), named("x")];
    let z = make_item_puzzle("J", 1, "p", &p, pool, &all, &meta()).unwrap();
    let mut ids: Vec<&str> = z.options.iter().map(|o| o.id.as_str()).collect();
    ids.sort();
    assert_eq!(ids, vec!["b", "best", "x", "y"]);
}

#[test]
fn answer_is_not_always_first() {
    let mut places: Vec<usize> = (0..60)
        .map(|_| {
            let z = make_item_puzzle("J", 1, "p", &plan(), vec![], &items(), &meta()).unwrap();
            z.options.iter().position(|o| o.id == z.answer).unwrap()
        })
        .collect();
    places.sort();
    places.dedup();
    assert!(places.len() > 1);
}
