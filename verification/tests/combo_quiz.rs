use tft_iq::combo_quiz::{build_combo_items, combo_puzzle, make_combo_puzzles};
use tft_iq::db::{CarryInfo, ComboStat};
use tft_iq::json::{Json, Number};
use tft_iq::meta::Meta;
use tft_iq::table::Table;

fn combo(name: &str, picks: i64, rank: i64) -> ComboStat {
    ComboStat {
        item_combo: name.to_string(),
        picks,
        avg_placement: 400 + rank,
        tank_item_count: 0,
        rank,
    }
}

fn items() -> Table<(String, String)> {
    Table::new().insert("a".to_string(), ("검".to_string(), "a.png".to_string()))
}

fn carry(is_tank: bool) -> CarryInfo {
    CarryInfo { carry_id: "Jinx".to_string(), total_appearances: 10000, is_tank }
}

fn meta() -> Meta {
    Meta::load(17, &Json::Null)
}

#[test]
fn items_of_a_combo() {
    let j = build_combo_items("a,b", &items());
    let v = j.as_array().unwrap();
    assert_eq!(v.len(), 2);
    assert_eq!(v[0].str_at("id").unwrap(), "a");
    assert_eq!(v[0].str_at("name").unwrap(), "검");
    assert_eq!(v[0].str_at("icon").unwrap(), "a.png");
    assert_eq!(v[1].str_at("name").unwrap(), "b");
    assert_eq!(v[1].str_at("icon").unwrap(), "");
}

#[test]
fn combo_puzzle_with_given_combos() {
    let combos = vec![combo("a,a,a", 9, 3), combo("b,b,b", 8, 1), combo("c,c,c", 7, 1)];
    let z = combo_puzzle("Jinx", "징크스", true, "17.5", &combos, 0, 3, None, &items());
    assert_eq!(z.answer, "b,b,b");
    assert_eq!(z.carry_type, "tank");
    assert_eq!(
        z.prompt.str_at("question").unwrap(),
        "징크스 캐리의 최적 3코어 아이템 조합은?",
    );
    assert_eq!(z.prompt.get("carry").unwrap().str_at("id").unwrap(), "Jinx");
    assert_eq!(z.prompt.str_at("patch").unwrap(), "17.5");
    let o = z.options.as_array().unwrap();
    assert_eq!(o.len(), 3);
    assert_eq!(o[1].get("is_best").unwrap().as_bool(), Some(true));
    assert_eq!(o[2].get("is_best").unwrap().as_bool(), Some(false));
    assert_eq!(o[0].i64_at("picks"), Some(9));
    assert!(matches!(o[0].get("avg_placement"), Some(Json::Num(Number::Hundredths(403)))));
    assert!(matches!(z.stats.get("hidden_pick"), Some(Json::Null)));
    assert_eq!(z.stats.str_at("carry_type").unwrap(), "tank");
    assert_eq!(z.stats.list_at("options").unwrap().len(), 3);
}

#[test]
fn two_puzzles_of_a_carry() {
    let combos: Vec<ComboStat> = [(90, 6), (80, 5), (70, 4), (60, 7), (50, 8), (40, 1), (30, 3), (20, 2)]
        .iter()
        .map(|(picks, rank)| combo(&format!("c{picks}"), *picks, *rank))
        .collect();
    let z = make_combo_puzzles(&carry(false), &combos, "17.5", &meta(), &items()).unwrap();
    assert_eq!((z.main.answer.as_str(), z.variant.answer.as_str()), ("c70", "c40"));
    let names = |j: &Json| -> Vec<String> {
        j.as_array().unwrap().iter().map(|o| o.str_at("combo").unwrap().clone()).collect()
    };
    assert_eq!(names(&z.main.options), vec!["c90", "c80", "c70", "c60"]);
    assert_eq!(names(&z.variant.options), vec!["c70", "c60", "c50", "c40"]);
    // the best beyond the first six
    assert_eq!(z.main.stats.get("hidden_pick").unwrap().str_at("combo").unwrap(), "c20");
    assert_eq!(z.main.carry_type, "dealer");
    let six: Vec<ComboStat> = combos.into_iter().take(6).collect();
    let z = make_combo_puzzles(&carry(true), &six, "17.5", &meta(), &items()).unwrap();
    assert!(matches!(z.main.stats.get("hidden_pick"), Some(Json::Null)));
    let five: Vec<ComboStat> = six.into_iter().take(5).collect();
    assert!(make_combo_puzzles(&carry(true), &five, "17.5", &meta(), &items()).is_none());
}
