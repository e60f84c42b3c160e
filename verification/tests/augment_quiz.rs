use tft_iq::db::AugStat;
use tft_iq::generator::{
    actual_pick, augment_puzzle, build_context, distractor_pool, generate, make_puzzle,
};
use tft_iq::meta::{Meta, UnitMeta};
use tft_iq::riot::dto::{Info, Match, Metadata, Participant, Trait, Unit};
use tft_iq::table::Table;

fn strings(v: &[&str]) -> Vec<String> {
    v.iter().map(|s| s.to_string()).collect()
}

fn stat(id: &str, rank: i64) -> AugStat {
    AugStat { id: id.to_string(), avg_placement: 400 + rank, picks: 10 * rank, rank }
}

fn stats() -> Vec<AugStat> {
    vec![stat("a", 3), stat("b", 1), stat("c", 2), stat("d", 1), stat("e", 5)]
}

fn meta() -> Meta {
    let jinx =
        UnitMeta { name: "징크스".to_string(), cost: 4, traits: vec![], ability: None };
    Meta {
        augments: Table::new().insert("a".to_string(), "가".to_string()),
        units: Table::new().insert("Jinx".to_string(), jinx),
        items: Table::new().insert("i".to_string(), "아이템".to_string()),
        traits: Table::new(),
        trait_details: Table::new(),
    }
}

fn board(placement: i32, augments: &[&str]) -> Participant {
    let active = |name: &str, tier_current: i32| Trait {
        name: name.to_string(),
        num_units: 2,
        style: 1,
        tier_current,
        tier_total: 3,
    };
    let unit = |id: &str, rarity: i32| Unit {
        character_id: id.to_string(),
        item_names: strings(&["i", "j"]),
        rarity,
        tier: 3,
    };
    Participant {
        puuid: "p".to_string(),
        placement,
        level: 9,
        last_round: 31,
        gold_left: 0,
        players_eliminated: 0,
        time_eliminated: 0,
        total_damage_to_players: 0,
        augments: strings(augments),
        traits: vec![active("T1", 1), active("T0", 0), active("T2", 2)],
        units: vec![unit("Jinx", 6), unit("New", 6)],
    }
}

fn game(id: &str, participants: Vec<Participant>) -> Match {
    Match {
        metadata: Metadata { match_id: id.to_string(), participants: vec![] },
        info: Info {
            game_datetime: 0,
            game_version: "17.5".to_string(),
            tft_set_number: 17,
            tft_game_type: "standard".to_string(),
            queue_id: 1100,
            participants,
        },
    }
}

#[test]
fn context_of_a_board() {
    let c = build_context(&board(2, &[]), &meta());
    assert_eq!((c.level, c.last_round, c.placement), (9, 31, 2));
    let names: Vec<&str> = c.traits.iter().map(|t| t.name.as_str()).collect();
    assert_eq!(names, vec!["T1", "T2"]);
    assert_eq!(c.units[0].name, "징크스");
    assert_eq!(c.units[0].cost, 4);
    // an unknown unit costs one more than its rarity
    assert_eq!((c.units[1].name.as_str(), c.units[1].cost, c.units[1].star), ("New", 7, 3));
    assert_eq!(c.units[0].items[0].name, "아이템");
    assert_eq!(c.units[0].items[1].name, "j");
    assert!(c.prior_augments.is_empty());
}

#[test]
fn pick_and_pool() {
    assert_eq!(actual_pick(&strings(&["x", "c", "a"]), &stats()), Some("c".to_string()));
    assert_eq!(actual_pick(&strings(&["x"]), &stats()), None);
    assert_eq!(distractor_pool(&stats(), &strings(&["c", "a"])), strings(&["b", "d", "e"]));
}

#[test]
fn puzzle_with_given_options() {
    let z = augment_puzzle(
        &board(1, &["a"]),
        "KR_1",
        &strings(&["a", "d", "b", "e"]),
        "a",
        &stats(),
        &meta(),
    );
    // of two equally good options the first is the answer
    assert_eq!(z.answer, "d");
    assert_eq!(
        z.prompt.question,
        "이 챌린저 보드에서 어떤 오그먼트가 평균 등수가 가장 좋았을까?",
    );
    assert_eq!(z.options[0].name, "가");
    assert_eq!(z.options[1].name, "d");
    assert_eq!(z.stats.source_match_id, "KR_1");
    let s = &z.stats.options;
    assert_eq!((s[0].avg_placement, s[0].sample_size, s[0].was_actual_pick), (403, 30, true));
    assert_eq!((s[1].avg_placement, s[1].sample_size, s[1].was_actual_pick), (401, 10, false));
}

#[test]
fn drawn_puzzle_keeps_the_rules() {
    for _ in 0..50 {
        let z = make_puzzle(&board(4, &["x", "a"]), "m", &stats(), &meta()).unwrap();
        let mut ids: Vec<&str> = z.options.iter().map(|o| o.id.as_str()).collect();
        assert!(ids.contains(&z.answer.as_str()));
        assert!(ids.contains(&"a"));
        assert_eq!(z.stats.options.iter().filter(|s| s.was_actual_pick).count(), 1);
        ids.sort();
        ids.dedup();
        assert_eq!(ids.len(), 4);
    }
}

#[test]
fn chance_decides_about_options() {
    let mut orders: Vec<Vec<String>> = (0..60)
        .map(|_| {
            let z = make_puzzle(&board(4, &["a"]), "m", &stats(), &meta()).unwrap();
            z.options.into_iter().map(|o| o.id).collect()
        })
        .collect();
    orders.sort();
    orders.dedup();
    assert!(orders.len() > 1);
}

#[test]
fn boards_that_become_no_puzzle() {
    assert!(make_puzzle(&board(5, &["a"]), "m", &stats(), &meta()).is_none());
    assert!(make_puzzle(&board(1, &[]), "m", &stats(), &meta()).is_none());
    assert!(make_puzzle(&board(1, &["x"]), "m", &stats(), &meta()).is_none());
    let few = vec![stat("a", 1), stat("b", 2), stat("c", 3)];
    assert!(make_puzzle(&board(1, &["a"]), "m", &few, &meta()).is_none());
}

#[test]
fn one_puzzle_for_each_match() {
    let matches = vec![
        game("1", vec![board(5, &["a"]), board(2, &["a"]), board(1, &["a"])]),
        game("2", vec![board(8, &["a"])]),
        game("3", vec![board(1, &["b"])]),
    ];
    let zs = generate(&matches, &stats(), &meta());
    assert_eq!(zs.len(), 2);
    assert_eq!(zs[0].stats.source_match_id, "1");
    assert_eq!(zs[0].prompt.context.placement, 2);
    assert_eq!(zs[1].stats.source_match_id, "3");
    let many: Vec<Match> = (0..70).map(|_| game("m", vec![board(1, &["a"])])).collect();
    assert_eq!(generate(&many, &stats(), &meta()).len(), 60);
    let few = vec![stat("a", 1), stat("b", 2), stat("c", 3)];
    assert_eq!(generate(&matches, &few, &meta()).len(), 0);
}
