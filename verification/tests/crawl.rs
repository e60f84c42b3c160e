use tft_iq::crawl::{
    backfill_done, backfill_keeps, event_of, gather_players, judge, mark_seen, new_ids,
    old_patches, patch_lt, start_time, tiers_for_sample, top_players, CrawlEvent, CrawlStats, CycleStats, Verdict,
};
use tft_iq::riot::dto::{Info, LeagueItem, Match, Metadata};
use tft_iq::table::name_set;

fn strings(v: &[&str]) -> Vec<String> {
    v.iter().map(|s| s.to_string()).collect()
}

fn player(puuid: Option<&str>, points: i32) -> LeagueItem {
    LeagueItem {
        puuid: puuid.map(|s| s.to_string()),
        summoner_id: None,
        league_points: points,
        rank: "I".to_string(),
        wins: 0,
        losses: 0,
    }
}

fn game(queue_id: i32, version: &str) -> Match {
    Match {
        metadata: Metadata { match_id: "m".to_string(), participants: vec![] },
        info: Info {
            game_datetime: 0,
            game_version: version.to_string(),
            tft_set_number: 17,
            tft_game_type: "standard".to_string(),
            queue_id,
            participants: vec![],
        },
    }
}

#[test]
fn tiers_by_sample() {
    assert_eq!(tiers_for_sample(0), vec!["challenger", "grandmaster", "master"]);
    assert_eq!(tiers_for_sample(1499), vec!["challenger", "grandmaster", "master"]);
    assert_eq!(tiers_for_sample(1500), vec!["challenger", "grandmaster"]);
    assert_eq!(tiers_for_sample(2999), vec!["challenger", "grandmaster"]);
    assert_eq!(tiers_for_sample(3000), vec!["challenger"]);
}

#[test]
fn ages_of_patches() {
    assert!(patch_lt("16.13", "16.14"));
    assert!(patch_lt("16.9", "16.12"));
    assert!(patch_lt("16.24", "17.1"));
    assert!(!patch_lt("16.14", "16.13"));
    assert!(!patch_lt("16.14", "16.14"));
    assert!(!patch_lt("16.14.9", "16.14.1"));
    // what is no number counts as 0, and so does what is missing
    assert!(patch_lt("x", "0.1"));
    assert!(patch_lt("16", "16.1"));
    assert!(!patch_lt("", "x"));
    assert!(patch_lt("4294967296.1", "1.0"));
}

#[test]
fn pruning_spares_the_target_and_newer_patches() {
    let all = strings(&["16.12", "16.13", "16.14", "17.1", "15.24"]);
    assert_eq!(old_patches(&all, "16.13"), strings(&["16.12", "15.24"]));
}

#[test]
fn start_of_a_crawl() {
    assert_eq!(start_time(Some(10_000), Some(1)), Some(2_800));
    assert_eq!(start_time(None, Some(1)), Some(1));
    assert_eq!(start_time(None, None), None);
}

#[test]
fn only_new_matches_are_fetched() {
    let ids = strings(&["a", "b", "c", "d"]);
    let seen = name_set(&strings(&["c"]));
    assert_eq!(new_ids(&ids, &strings(&["a"]), &seen), strings(&["b", "d"]));
}

#[test]
fn matches_are_seen_once() {
    let ids = strings(&["a", "b", "c", "b"]);
    let seen = name_set(&strings(&["c", "x"]));
    let fresh = new_ids(&ids, &strings(&["a"]), &seen);
    let seen = mark_seen(seen, &fresh);
    assert_eq!(seen.len(), 3);
    assert!(seen.contains_key("b") && seen.contains_key("c") && seen.contains_key("x"));
    assert!(new_ids(&ids, &strings(&["a"]), &seen).is_empty());
}

#[test]
fn events_of_matches() {
    assert_eq!(event_of(Verdict::Store, true), CrawlEvent::Stored);
    assert_eq!(event_of(Verdict::Store, false), CrawlEvent::AlreadyStored);
    assert_eq!(event_of(Verdict::OldPatch, false), CrawlEvent::Rejected(Verdict::OldPatch));
    assert_eq!(event_of(Verdict::OtherQueue, true), CrawlEvent::Rejected(Verdict::OtherQueue));
}

#[test]
fn verdicts_on_matches() {
    let target = Some("16.13".to_string());
    assert_eq!(judge(&game(1090, "16.13"), &target), Verdict::OtherQueue);
    assert_eq!(judge(&game(1100, "Version 16.12.1"), &target), Verdict::OldPatch);
    assert_eq!(judge(&game(1100, "Version 16.13.1"), &target), Verdict::Store);
    assert_eq!(judge(&game(1100, "Version 16.14.1"), &target), Verdict::Store);
    assert_eq!(judge(&game(1100, "Version 1.1"), &None), Verdict::Store);
    assert!(backfill_keeps(&game(1090, "Version 16.13.1"), &target));
    assert!(!backfill_keeps(&game(1100, "Version 16.14.1"), &target));
    assert!(backfill_keeps(&game(1100, "Version 16.14.1"), &None));
    assert!(!backfill_done(2999) && backfill_done(3000));
}

#[test]
fn counts_of_a_crawl() {
    let events = [
        CrawlEvent::Stored,
        CrawlEvent::FetchFailed,
        CrawlEvent::Rejected(Verdict::OtherQueue),
        CrawlEvent::Rejected(Verdict::OldPatch),
        CrawlEvent::AlreadyStored,
        CrawlEvent::Stored,
    ];
    let s = events.iter().fold(CrawlStats::new(), |s, e| s.after(*e));
    assert_eq!((s.saved, s.skipped_queue), (2, 1));
    let start = CycleStats { total_new: 5, total_skipped_queue: 0 };
    let (t, mark) = start.after(Some(s));
    assert_eq!((t.total_new, t.total_skipped_queue, mark), (7, 1, true));
    assert_eq!(t.after(None), (t, false));
}

#[test]
fn best_players_of_a_league() {
    let entries = vec![
        player(Some("low"), 1),
        player(None, 900),
        player(Some("first"), 800),
        player(Some("second"), 800),
    ];
    let top = top_players(entries, "challenger");
    let names: Vec<&str> = top.iter().map(|p| p.puuid.as_str()).collect();
    assert_eq!(names, vec!["first", "second", "low"]);
    assert_eq!(top[0].tier, "CHALLENGER");
    assert_eq!(top[0].league_points, 800);
    let many: Vec<LeagueItem> = (0..600)
        .map(|i| player(if i < 10 { None } else { Some("x") }, 1000 - i))
        .collect();
    // the first 500 count, known or not
    assert_eq!(top_players(many, "master").len(), 490);
}

#[test]
fn players_are_gathered_once() {
    let known = strings(&["a"]);
    let entries = vec![
        player(Some("b"), 1),
        player(Some("a"), 5),
        player(Some("c"), 3),
        player(None, 9),
        player(Some("c"), 2),
    ];
    assert_eq!(gather_players(known, entries), strings(&["a", "c", "b"]));
    let many: Vec<LeagueItem> =
        (0..700).map(|i| player(Some(&i.to_string()), 1000 - i)).collect();
    assert_eq!(gather_players(vec![], many).len(), 500);
}
