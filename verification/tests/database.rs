use tft_iq::db::{
    insert_raw_match, known_time, meta_info, patch_info, patch_match_count, raw_match_row, user_stats, user_totals,
    TypeRow, WeakRow,
};
use tft_iq::json::{Json, Number};
use tft_iq::riot::dto::{Info, Match, Metadata};

fn game(millis: i64) -> Match {
    Match {
        metadata: Metadata { match_id: "KR_1".to_string(), participants: vec![] },
        info: Info {
            game_datetime: millis,
            game_version: "Version 17.5.1".to_string(),
            tft_set_number: 17,
            tft_game_type: "standard".to_string(),
            queue_id: 1100,
            participants: vec![],
        },
    }
}

#[test]
fn row_of_a_match() {
    let r = raw_match_row(&game(1_700_000_000_123), "asia");
    assert_eq!((r.match_id.as_str(), r.patch.as_str(), r.region.as_str()), ("KR_1", "17.5", "asia"));
    assert_eq!((r.set_number, r.queue_id), (17, 1100));
    assert_eq!(r.game_datetime, Some(1_700_000_000_123));
}

#[test]
fn a_match_is_stored_once() {
    let m = game(1_700_000_000_123);
    let row = insert_raw_match(&m, "asia", false).unwrap();
    assert_eq!((row.match_id.as_str(), row.patch.as_str()), ("KR_1", "17.5"));
    assert_eq!((row.set_number, row.queue_id, row.region.as_str()), (17, 1100, "asia"));
    assert!(insert_raw_match(&m, "asia", true).is_none());
}

#[test]
fn times_without_a_date() {
    for (millis, known) in [
        (8_210_266_876_799_999, true),
        (8_210_266_876_800_000, false),
        (-8_334_601_228_800_000, true),
        (-8_334_601_228_800_001, false),
        (i64::MAX, false),
        (i64::MIN, false),
        (0, true),
    ] {
        let expected = if known { Some(millis) } else { None };
        assert_eq!(raw_match_row(&game(millis), "asia").game_datetime, expected);
    }
}

#[test]
fn rows_of_patches() {
    let row = Some(("17.5".to_string(), 17, Some(2.5f64.to_bits()), 2000));
    let p = patch_info(row).unwrap();
    assert_eq!((p.patch.as_str(), p.set_number, p.match_count), ("17.5", 17, 2000));
    assert_eq!(f64::from_bits(p.age_days), 2.5);
    let p = patch_info(Some(("17.5".to_string(), 17, None, 2000))).unwrap();
    assert_eq!(f64::from_bits(p.age_days), 0.0);
    assert!(patch_info(None).is_none());
    assert_eq!((patch_match_count(Some(7)), patch_match_count(None)), (7, 0));
    assert_eq!((known_time(Some(Some(3))), known_time(Some(None)), known_time(None)), (Some(3), None, None));
}

#[test]
fn source_of_statistics() {
    let m = meta_info(Some(("17.5".to_string(), 9)), 4);
    assert_eq!((m.patch.as_str(), m.total_matches, m.puzzle_count), ("17.5", 9, 4));
    let m = meta_info(None, 4);
    assert_eq!((m.patch.as_str(), m.total_matches), ("?", 0));
}

#[test]
fn statistics_of_a_user() {
    let row = |t: &str, total: i64, correct: i64, rate: f64| TypeRow {
        puzzle_type: t.to_string(),
        total,
        correct,
        rate: rate.to_bits(),
    };
    let types = vec![row("item_combine", 4, 3, 75.0), row("deck_complete", 0, 0, 12.0)];
    assert_eq!(user_totals(&types), (4, 3));
    let weak = vec![WeakRow {
        puzzle_type: "item_combine".to_string(),
        group: "징크스".to_string(),
        total: 3,
        correct: 1,
        rate: 33.0f64.to_bits(),
    }];
    let j = user_stats(&types, 75.0f64.to_bits(), &weak);
    assert_eq!((j.i64_at("total"), j.i64_at("correct")), (Some(4), Some(3)));
    let rate = |j: &Json| match j.get("rate") {
        Some(Json::Num(Number::Real(bits))) => f64::from_bits(*bits),
        _ => panic!(),
    };
    assert_eq!(rate(&j), 75.0);
    let by_type = j.list_at("by_type").unwrap();
    assert_eq!((rate(&by_type[0]), rate(&by_type[1])), (75.0, 0.0));
    assert_eq!(by_type[0].str_at("type").unwrap(), "item_combine");
    let weak = &j.list_at("weak").unwrap()[0];
    assert_eq!((weak.str_at("group").unwrap().as_str(), rate(weak)), ("징크스", 33.0));
    assert_eq!(rate(&user_stats(&vec![], 50.0f64.to_bits(), &vec![])), 0.0);
}
