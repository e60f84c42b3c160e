use tft_iq::aggregate::{
    aggregate_combos, aggregate_special, aggregation_mode, mode_for, save_carry_stats,
    save_combo_stats, save_special_stats, special_categories, upsert_carry_stats, CarryAgg,
    ComboTally, Mode,
};
use tft_iq::analyzer::tier_table;
use tft_iq::riot::dto::{Info, Match, Metadata, Participant, Trait, Unit};
use tft_iq::table::Table;
use tft_iq::tally::PairTally;

fn strings(v: &[&str]) -> Vec<String> {
    v.iter().map(|s| s.to_string()).collect()
}

fn unit(id: &str, items: &[&str]) -> Unit {
    Unit { character_id: id.to_string(), item_names: strings(items), rarity: 1, tier: 2 }
}

fn board(placement: i32, traits: Vec<Trait>, units: Vec<Unit>) -> Participant {
    Participant {
        puuid: "p".to_string(),
        placement,
        level: 8,
        last_round: 30,
        gold_left: 0,
        players_eliminated: 0,
        time_eliminated: 0,
        total_damage_to_players: 0,
        augments: vec![],
        traits,
        units,
    }
}

fn game(participants: Vec<Participant>) -> Match {
    Match {
        metadata: Metadata { match_id: "m".to_string(), participants: vec![] },
        info: Info {
            game_datetime: 0,
            game_version: "17.5".to_string(),
            tft_set_number: 17,
            tft_game_type: "standard".to_string(),
            queue_id: 1100,
            participants,
        },
    }
}

fn older() -> Vec<Match> {
    vec![game(vec![
        board(2, vec![], vec![unit("J", &["c", "a", "b"]), unit("K", &["a", "b"])]),
        board(5, vec![], vec![unit("J", &["a", "b", "c"]), unit("K", &["t", "t", "a"])]),
    ])]
}

fn newer() -> Vec<Match> {
    vec![game(vec![board(
        1,
        vec![],
        vec![unit("J", &["b", "a", "c"]), unit("J", &["a", "b", "S"]), unit("K", &[])],
    )])]
}

fn craftable() -> Vec<String> {
    strings(&["a", "b", "c", "t"])
}

fn counts(matches: &Vec<Match>) -> Vec<(String, String, i64, i64, i32)> {
    let t = aggregate_combos(matches, &craftable(), &strings(&["t"]));
    let mut rows: Vec<_> = t
        .combos
        .rows()
        .into_iter()
        .map(|r| (r.a, r.b, r.agg.pick_count, r.agg.placement_sum, r.agg.tag))
        .collect();
    rows.sort();
    rows
}

#[test]
fn combos_are_counted() {
    let j = ("J".to_string(), "a,b,c".to_string(), 2, 7, 0);
    let k = ("K".to_string(), "a,t,t".to_string(), 1, 5, 2);
    assert_eq!(counts(&older()), vec![j, k]);
}

#[test]
fn units_are_counted() {
    let t = aggregate_combos(&older(), &craftable(), &strings(&["t"]));
    let j = t.carries.get("J").unwrap();
    assert_eq!((j.total_appearances, j.three_item_count), (2, 2));
    let k = t.carries.get("K").unwrap();
    assert_eq!((k.total_appearances, k.three_item_count), (2, 1));
}

#[test]
fn counting_in_two_goes() {
    let mut all = older();
    all.extend(newer());
    let (full, x, y) = (counts(&all), counts(&older()), counts(&newer()));
    for (a, b, n, sum, _) in &full {
        let of = |rows: &Vec<(String, String, i64, i64, i32)>| {
            rows.iter()
                .filter(|r| &r.0 == a && &r.1 == b)
                .fold((0, 0), |acc, r| (acc.0 + r.2, acc.1 + r.3))
        };
        let (p, q) = (of(&x), of(&y));
        assert_eq!((*n, *sum), (p.0 + q.0, p.1 + q.1));
    }
    assert_eq!(full[0].2, 3);
}

#[test]
fn rows_of_combos_come_in_batches() {
    let t = aggregate_combos(&older(), &craftable(), &strings(&[]));
    let batches = save_combo_stats(&t.combos);
    assert_eq!(batches.len(), 1);
    assert_eq!(batches[0].len(), 2);
    let none = aggregate_combos(&vec![], &craftable(), &strings(&[]));
    assert_eq!(save_combo_stats(&none.combos).len(), 0);
}

#[test]
fn verdicts_on_units() {
    // one of five appearances of X has three crafted items, one of six of Y
    let mut units = vec![unit("X", &["t", "t", "a"]), unit("Y", &["a", "b", "c"])];
    for _ in 0..4 {
        units.push(unit("X", &[]));
    }
    for _ in 0..5 {
        units.push(unit("Y", &[]));
    }
    units.push(unit("Z", &["a", "b", "S"]));
    let t = aggregate_combos(&vec![game(vec![board(3, vec![], units)])], &craftable(), &strings(&["t"]));
    let rows = save_carry_stats(&t);
    let of = |id: &str| rows.iter().find(|r| r.carry_id == id).unwrap();
    assert!(of("X").is_carry && of("X").is_tank);
    assert!(!of("Y").is_carry && !of("Y").is_tank);
    assert!(!of("Z").is_carry && !of("Z").is_tank);
    assert_eq!((of("Y").total_appearances, of("Y").three_item_count), (6, 1));
}

fn unit_counts(v: &[(&str, i64, i64)]) -> Table<CarryAgg> {
    v.iter().fold(Table::new(), |t, (id, total_appearances, three_item_count)| {
        t.insert(
            id.to_string(),
            CarryAgg { total_appearances: *total_appearances, three_item_count: *three_item_count },
        )
    })
}

#[test]
fn new_counts_are_added_to_the_stored_ones() {
    let tanks = Table::new().insert("X".to_string(), 2).insert("Y".to_string(), 1);
    let stored = unit_counts(&[("X", 8, 1), ("Y", 10, 2)]);
    let batches = upsert_carry_stats(stored, &unit_counts(&[("Z", 4, 1), ("X", 2, 1)]), &tanks);
    assert_eq!(batches.len(), 1);
    let rows: Vec<(&str, i64, i64, bool, bool)> = batches[0]
        .iter()
        .map(|r| {
            (r.carry_id.as_str(), r.total_appearances, r.three_item_count, r.is_carry, r.is_tank)
        })
        .collect();
    assert_eq!(
        rows,
        vec![("X", 10, 2, true, true), ("Y", 10, 2, true, false), ("Z", 4, 1, true, false)]
    );
    assert!(upsert_carry_stats(Table::new(), &Table::new(), &tanks).is_empty());
}

#[test]
fn two_updates_are_one() {
    let tanks = Table::new().insert("X".to_string(), 3);
    let rows = |stored: Table<CarryAgg>, new: Table<CarryAgg>| -> Vec<(String, i64, i64, bool, bool)> {
        upsert_carry_stats(stored, &new, &tanks)
            .into_iter()
            .flatten()
            .map(|r| {
                (r.carry_id, r.total_appearances, r.three_item_count, r.is_carry, r.is_tank)
            })
            .collect()
    };
    let first = rows(unit_counts(&[("X", 9, 1)]), unit_counts(&[("X", 1, 0), ("Y", 5, 1)]));
    let between: Vec<(&str, i64, i64)> =
        first.iter().map(|r| (r.0.as_str(), r.1, r.2)).collect();
    let twice = rows(unit_counts(&between), unit_counts(&[("Y", 1, 0), ("X", 0, 1)]));
    let once = rows(unit_counts(&[("X", 9, 1)]), unit_counts(&[("X", 1, 1), ("Y", 6, 1)]));
    assert_eq!(twice, once);
    assert_eq!(
        once,
        vec![("X".to_string(), 10, 2, true, true), ("Y".to_string(), 6, 1, false, false)]
    );
}

#[test]
fn rows_of_units_come_in_batches() {
    let ids: Vec<String> = (0..1001).map(|i| format!("U{i}")).collect();
    let new = ids.iter().fold(Table::new(), |t, id| {
        t.insert(id.clone(), CarryAgg { total_appearances: 1, three_item_count: 0 })
    });
    let batches = upsert_carry_stats(Table::new(), &new, &Table::new());
    assert_eq!(batches.iter().map(Vec::len).collect::<Vec<_>>(), vec![1000, 1]);
}

#[test]
fn share_of_three_items_makes_a_carry() {
    let verdict = |total_appearances: i64, three_item_count: i64| {
        let agg = CarryAgg { total_appearances, three_item_count };
        let t = ComboTally {
            carries: Table::new().insert("X".to_string(), agg),
            combos: PairTally::new(),
        };
        save_carry_stats(&t)[0].is_carry
    };
    for total in [-11, -10, -5, -1, 0, 1, 4, 5, 6, 10, 11] {
        for three in [-3, -2, -1, 0, 1, 2, 3] {
            let share = three as f64 / total as f64;
            assert_eq!(verdict(total, three), share >= 0.20, "{three} of {total}");
        }
    }
    assert!(!verdict(0, 0));
}

#[test]
fn most_frequent_combo_decides_about_tanks() {
    let units = vec![
        unit("X", &["t", "t", "a"]),
        unit("X", &["a", "b", "c"]),
        unit("X", &["c", "b", "a"]),
    ];
    let t = aggregate_combos(&vec![game(vec![board(3, vec![], units)])], &craftable(), &strings(&["t"]));
    assert!(!save_carry_stats(&t)[0].is_tank);
}

#[test]
fn special_items_are_counted() {
    let cats = special_categories(vec![
        ("S".to_string(), "emblem".to_string()),
        ("S".to_string(), "artifact".to_string()),
    ]);
    let t = aggregate_special(&newer(), &cats);
    let batches = save_special_stats(&t, &cats);
    assert_eq!(batches.len(), 1);
    let row = &batches[0][0];
    assert_eq!((row.carry_id.as_str(), row.item_id.as_str()), ("J", "S"));
    // of two categories the last counts
    assert_eq!(row.category, "artifact");
    assert_eq!((row.pick_count, row.placement_sum), (1, 1));
    // held twice by one unit, it counts twice
    let twice = vec![game(vec![board(4, vec![], vec![unit("J", &["S", "S"])])])];
    let rows = aggregate_special(&twice, &cats).rows();
    assert_eq!((rows[0].agg.pick_count, rows[0].agg.placement_sum), (2, 8));
}

#[test]
fn modes() {
    assert_eq!(aggregation_mode(&None), Mode::Full);
    assert_eq!(aggregation_mode(&Some("yesterday".to_string())), Mode::Full);
    assert_eq!(
        aggregation_mode(&Some("2012-12-12T12:12:12Z".to_string())),
        Mode::After(1355314332, 0),
    );
    assert_eq!(
        aggregation_mode(&Some("2012-12-12 13:12:12.5+01:00".to_string())),
        Mode::After(1355314332, 500_000_000),
    );
    assert_eq!(mode_for(Some((7, 8))), Mode::After(7, 8));
    assert_eq!(mode_for(None), Mode::Full);
}

#[test]
fn tiers_of_comps() {
    let mecha = || Trait {
        name: "TFT17_Mecha".to_string(),
        num_units: 4,
        style: 1,
        tier_current: 2,
        tier_total: 3,
    };
    let mut ps = vec![];
    for placement in [4, 4, 5, 4, 4] {
        ps.push(board(placement, vec![mecha()], vec![]));
    }
    for placement in [1, 8, 1, 8, 2] {
        ps.push(board(placement, vec![], vec![]));
    }
    for placement in [1, 1, 1, 1] {
        ps.push(board(placement, vec![], vec![unit("X", &["a", "b"])]));
    }
    let t = tier_table(&vec![game(ps)]);
    assert_eq!((t.boards, t.comps, t.rows.len()), (14, 3, 2));
    // 20 / 5 before 21 / 5; the comp that was played four times is left out
    assert_eq!((t.rows[0].sum, t.rows[0].count), (20, 5));
    assert_eq!(t.rows[0].key.to_text(), "(특성없음)");
    assert_eq!((t.rows[1].sum, t.rows[1].count), (21, 5));
    assert_eq!(t.rows[1].key.to_text(), "Mecha");
}
