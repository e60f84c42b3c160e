use tft_iq::db::{raw_deck, RawDeck};
use tft_iq::deck_quiz::{
    carry_items, count_placing_well, deck_key, deck_label, deck_puzzle, deck_puzzles, deck_row,
    distractors_by_cost, make_deck_puzzle, make_deck_quiz, meta_pool, min_deck_games,
    signature_core, synergies, tier_decks, CarryItem, DeckSources,
};
use tft_iq::json::{Json, Number};
use tft_iq::meta::{Meta, UnitMeta};
use tft_iq::table::Table;

fn strings(v: &[&str]) -> Vec<String> {
    v.iter().map(|s| s.to_string()).collect()
}

fn table<V: Clone>(v: &[(&str, V)]) -> Table<V> {
    v.iter().fold(Table::new(), |t, (k, x)| t.insert(k.to_string(), x.clone()))
}

fn unit(name: &str, cost: i32, traits: &[&str]) -> UnitMeta {
    UnitMeta { name: name.to_string(), cost, traits: strings(traits), ability: None }
}

fn sources() -> DeckSources {
    let mut meta = Meta::load(17, &Json::Null);
    meta.units = Table::new()
        .insert("a".to_string(), unit("에이", 1, &["메카", "저격수"]))
        .insert("b".to_string(), unit("비", 4, &["메카"]))
        .insert("c".to_string(), unit("씨", 3, &["저격수", "메카"]));
    let item = CarryItem {
        item_id: "i".to_string(),
        name: "검".to_string(),
        icon: "i.png".to_string(),
    };
    DeckSources {
        patch: "17.5".to_string(),
        meta,
        carry_items: Table::new().insert("a".to_string(), vec![item]),
        star3: table(&[("a", 40), ("b", 90), ("c", 39)]),
        unit_costs: table(&[("a", 1), ("b", 4), ("c", 3), ("x", 4), ("y", 1), ("z", 2)]),
        unit_appears: table(&[("a", 30), ("b", 31), ("c", 1)]),
        total_boards: 100,
        unit_icons: Table::new().insert("a".to_string(), "a.png".to_string()),
    }
}

fn abc() -> RawDeck {
    raw_deck("a,b,c", 120, 412)
}

#[test]
fn games_that_a_deck_needs() {
    assert_eq!(min_deck_games(0), 30);
    assert_eq!(min_deck_games(-5), 30);
    assert_eq!(min_deck_games(5999), 30);
    assert_eq!(min_deck_games(6000), 30);
    assert_eq!(min_deck_games(6200), 31);
    assert_eq!(min_deck_games(15000), 75);
    for n in [0i64, 1, 199, 200, 6000, 6199, 6200, 15000, 20000, 123456, 999999] {
        assert_eq!(min_deck_games(n), ((n as f64 * 0.005) as i64).max(30));
    }
}

#[test]
fn decks_for_puzzles() {
    let raw = || {
        vec![
            raw_deck("a,b,c,d,e,f,g,h", 50, 380),
            raw_deck("a,b,c,d,e,f,g,x", 40, 420),
            raw_deck("1,2,3,4,5,6,7,8", 40, 460),
            raw_deck("p,q,r,s,t,u,v,w", 900, 501),
        ]
    };
    let decks = tier_decks(raw(), 8000);
    assert_eq!(decks.len(), 2);
    assert_eq!(decks[0].units, strings(&["a", "b", "c", "d", "e", "f", "g"]));
    assert_eq!((decks[0].games, decks[0].avg_placement), (90, 380));
    assert_eq!(decks[1].units.len(), 8);
    // with more matches a middling deck needs more games
    assert_eq!(tier_decks(raw(), 8200).len(), 1);
    assert_eq!(count_placing_well(&raw()), 3);
}

#[test]
fn pool_of_units() {
    let decks = vec![raw_deck("a,b", 1, 1), raw_deck("b,c", 1, 1)];
    assert_eq!(meta_pool(&decks), strings(&["a", "b", "c"]));
}

#[test]
fn units_that_can_be_asked_for() {
    let s = sources();
    assert_eq!(signature_core(&abc().units, &s.unit_appears, 100), strings(&["a", "c"]));
    assert_eq!(signature_core(&strings(&["q"]), &s.unit_appears, 100), strings(&["q"]));
    assert_eq!(signature_core(&abc().units, &s.unit_appears, 0), Vec::<String>::new());
}

#[test]
fn names_of_decks() {
    assert_eq!(deck_key(&strings(&["b", "a", "c"])), "a,b,c");
    assert_eq!(deck_key(&strings(&["c", "a", "b"])), deck_key(&strings(&["a", "b", "c"])));
    assert_eq!(deck_label(&Some("TFT17_Mecha".to_string()), &strings(&["a"])), "trait:TFT17_Mecha");
    assert_eq!(deck_label(&None, &strings(&["a", "b"])), "unit:a");
    assert_eq!(deck_label(&None, &vec![]), "");
}

#[test]
fn row_of_a_deck() {
    let s = sources();
    let deck = raw_deck("c,a,b,q", 120, 412);
    let r = deck_row(&deck, "label", &s.meta, &s.carry_items, &s.star3);
    assert_eq!((r.deck_key.as_str(), r.label.as_str()), ("a,b,c,q", "label"));
    assert_eq!((r.avg_placement, r.games), (412, 120));
    let u = r.units.as_array().unwrap();
    assert_eq!(u[1].str_at("name").unwrap(), "에이");
    assert_eq!(u[1].list_at("items").unwrap()[0].str_at("icon").unwrap(), "i.png");
    assert_eq!(u[1].i64_at("star3_ratio"), Some(40));
    // too dear, and too seldom
    assert!(u[2].get("star3_ratio").is_none());
    assert!(u[0].get("star3_ratio").is_none());
    assert!(u[0].get("items").is_none());
    assert_eq!(u[3].str_at("name").unwrap(), "q");
}

#[test]
fn nearest_in_cost_first() {
    let s = sources();
    let pool = strings(&["x", "a", "y", "z", "q"]);
    assert_eq!(
        distractors_by_cost(&pool, &abc().units, "a", &s.unit_costs),
        strings(&["y", "z", "q", "x"]),
    );
    assert_eq!(
        distractors_by_cost(&pool, &abc().units, "b", &s.unit_costs),
        strings(&["x", "z", "y", "q"]),
    );
}

#[test]
fn synergies_of_units() {
    let s = sources();
    let r = synergies(&strings(&["a", "b", "c", "q"]), &s.meta);
    let v: Vec<(&str, usize)> = r.iter().map(|x| (x.name.as_str(), x.count)).collect();
    assert_eq!(v, vec![("메카", 3), ("저격수", 2)]);
    assert!(synergies(&strings(&["b"]), &s.meta).is_empty());
    let r = synergies(&strings(&["a", "c"]), &s.meta);
    let v: Vec<&str> = r.iter().map(|x| x.name.as_str()).collect();
    assert_eq!(v, vec!["메카", "저격수"]);
}

#[test]
fn deck_puzzle_with_given_options() {
    let s = sources();
    let z = deck_puzzle(&abc(), "trait:M", "a", &strings(&["x", "a", "y", "z"]), &s);
    assert_eq!((z.carry_id.as_str(), z.variant.as_str(), z.answer.as_str()), ("a,b,c", "a", "a"));
    assert_eq!(z.prompt.str_at("question").unwrap(), "trait:M 덱에서 빠진 핵심 유닛은?");
    assert_eq!(z.prompt.str_at("patch").unwrap(), "17.5");
    let shown = z.prompt.list_at("shown_units").unwrap();
    assert_eq!(shown.len(), 2);
    assert_eq!(shown[0].str_at("id").unwrap(), "b");
    let syn = z.prompt.list_at("synergies").unwrap();
    assert_eq!(syn.len(), 1);
    assert_eq!(syn[0].str_at("trait").unwrap(), "메카");
    assert_eq!(syn[0].i64_at("count"), Some(2));
    let o = z.options.as_array().unwrap();
    assert_eq!(o[1].str_at("name").unwrap(), "에이");
    assert_eq!(o[1].str_at("icon").unwrap(), "a.png");
    assert_eq!(o[0].str_at("icon").unwrap(), "");
    assert!(matches!(z.stats.get("deck_avg"), Some(Json::Num(Number::Hundredths(412)))));
    assert_eq!(z.stats.i64_at("deck_games"), Some(120));
    assert_eq!(
        z.stats.get("answer").unwrap().str_at("icon").unwrap(),
        "https://raw.communitydragon.org/latest/game/a",
    );
    let told = z.stats.list_at("options").unwrap();
    assert_eq!(told[1].get("is_best").unwrap().as_bool(), Some(true));
    assert_eq!(told[0].get("is_best").unwrap().as_bool(), Some(false));
}

#[test]
fn drawn_deck_puzzle_keeps_the_rules() {
    let s = sources();
    let pool = strings(&["a", "b", "c", "x", "y", "z", "q"]);
    for _ in 0..50 {
        let z = make_deck_puzzle(&abc(), "l", "c", &pool, &s).unwrap();
        let mut ids: Vec<String> = z
            .options
            .as_array()
            .unwrap()
            .iter()
            .map(|o| o.str_at("id").unwrap().clone())
            .collect();
        assert!(ids.contains(&"c".to_string()));
        assert!(!ids.contains(&"a".to_string()) && !ids.contains(&"b".to_string()));
        ids.sort();
        ids.dedup();
        assert_eq!(ids.len(), 4);
    }
    assert!(make_deck_puzzle(&abc(), "l", "c", &strings(&["a", "x", "y"]), &s).is_none());
}

#[test]
fn far_units_are_never_offered() {
    let mut s = sources();
    s.unit_costs = Table::new().insert("a".to_string(), 1);
    let mut pool = vec![];
    for i in 0..10 {
        s.unit_costs = s.unit_costs.insert(format!("near{i}"), 1);
        pool.push(format!("far{i}"));
        pool.push(format!("near{i}"));
    }
    for _ in 0..30 {
        let z = make_deck_puzzle(&abc(), "l", "a", &pool, &s).unwrap();
        for o in z.options.as_array().unwrap() {
            assert!(!o.str_at("id").unwrap().starts_with("far"));
        }
    }
}

#[test]
fn puzzles_of_all_decks() {
    let s = sources();
    let pool = strings(&["a", "b", "c", "x", "y", "z"]);
    let zs = deck_puzzles(&abc(), "l", &pool, &s);
    let asked: Vec<&str> = zs.iter().map(|z| z.answer.as_str()).collect();
    assert_eq!(asked, vec!["a", "c"]);
    assert!(deck_puzzles(&abc(), "l", &strings(&["x"]), &s).is_empty());
    let decks = vec![abc(), raw_deck("x,y,z", 1, 1)];
    let q = make_deck_quiz(&decks, &strings(&["one", "two"]), &s);
    assert_eq!(q.decks.len(), 2);
    assert_eq!(q.decks[1].label, "two");
    let asked: Vec<&str> = q.puzzles.iter().map(|z| z.answer.as_str()).collect();
    assert_eq!(asked, vec!["a", "c", "x", "y", "z"]);
    assert_eq!(q.puzzles[2].prompt.str_at("deck_label").unwrap(), "two");
}

#[test]
fn items_of_a_carry() {
    let info = table(&[("a", ("Sword".to_string(), "a.png".to_string()))]);
    let items = carry_items("a,b", &info);
    let told: Vec<(&str, &str, &str)> = items
        .iter()
        .map(|i| (i.item_id.as_str(), i.name.as_str(), i.icon.as_str()))
        .collect();
    assert_eq!(told, vec![("a", "Sword", "a.png"), ("b", "b", "")]);
}
