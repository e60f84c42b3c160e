use std::time::Duration;
use tft_iq::riot::client::{failure, judge_answer, quota, Answer, Limits, RiotClient};
use tft_iq::riot::dto::Info;
use tft_iq::AppError;

fn info(version: &str) -> Info {
    Info {
        game_datetime: 0,
        game_version: version.to_string(),
        tft_set_number: 17,
        tft_game_type: "standard".to_string(),
        queue_id: 1100,
        participants: vec![],
    }
}

fn client() -> RiotClient {
    RiotClient::new("k".to_string(), "kr".to_string(), "asia".to_string())
}

#[test]
fn patches_of_versions() {
    assert_eq!(info("Version 17.5.123.4567 (May 01 2025)").patch(), "17.5");
    assert_eq!(info("Linux Version 14.1.555").patch(), "14.1");
    assert_eq!(info("<Releases/16.12>").patch(), "16.12");
    assert_eq!(info("no version").patch(), "no version");
    assert_eq!(info("").patch(), "");
}

#[test]
fn patch_is_a_pair_of_numbers() {
    assert_eq!(info("Ver. 17.5.123").patch(), "17.5");
    assert_eq!(info(".17.5").patch(), "17.5");
    assert_eq!(info("1..22.33.4").patch(), "22.33");
    assert_eq!(info("v1. 2.3").patch(), "2.3");
    assert_eq!(info("12 34.x 5.6").patch(), "5.6");
    assert_eq!(info("1..2").patch(), "1..2");
    assert_eq!(info("17.").patch(), "17.");
}

#[test]
fn patch_of_a_patch() {
    for v in ["Version 17.5.123", "Ver. 17.5.123", "16.12", "x", "1..2"] {
        let once = info(v).patch();
        assert_eq!(info(&once).patch(), once);
    }
}

#[test]
fn quotas_are_what_was_asked_for() {
    let l = quota(230, 10);
    assert_eq!(l.burst, 230);
    assert_eq!(l.interval_nanos, 43_478_260);
    assert_eq!(l.quota.burst_size().get(), 230);
    assert_eq!(l.quota.replenish_interval(), Duration::from_secs(10) / 230);
    assert_eq!(quota(480, 600).quota.replenish_interval(), Duration::from_secs(600) / 480);
}

#[test]
fn limits_of_a_client() {
    let c = client();
    assert_eq!(c.match_detail_limit.burst, 230);
    assert_eq!(c.match_ids_limit.burst, 550);
    assert_eq!(c.league_short_limit.burst, 28);
    assert_eq!(c.league_long_limit.burst, 480);
    assert_eq!(c.league_long_limit.interval_nanos, 1_250_000_000);
    for l in [&c.match_detail_limit, &c.match_ids_limit, &c.league_short_limit, &c.league_long_limit] {
        assert_eq!(l.quota.burst_size().get(), l.burst);
        assert_eq!(l.quota.replenish_interval(), Duration::from_nanos(l.interval_nanos));
    }
}

#[test]
fn addresses() {
    let c = client();
    let r = c.league("Challenger");
    assert_eq!(
        r.url,
        "https://kr.api.riotgames.com/tft/league/v1/challenger?queue=RANKED_TFT",
    );
    assert_eq!(r.limits, Limits::League);
    assert_eq!(c.challenger_league().url, r.url);
    assert!(c.grandmaster_league().url.ends_with("/grandmaster?queue=RANKED_TFT"));
    assert!(c.master_league().url.ends_with("/master?queue=RANKED_TFT"));
    let r = c.match_ids("abc", 20);
    assert_eq!(
        r.url,
        "https://asia.api.riotgames.com/tft/match/v1/matches/by-puuid/abc/ids?count=20",
    );
    assert_eq!(r.limits, Limits::MatchIds);
    assert_eq!(c.match_ids_since("abc", 20, None).url, r.url);
    assert_eq!(
        c.match_ids_since("abc", 100, Some(1700000000)).url,
        "https://asia.api.riotgames.com/tft/match/v1/matches/by-puuid/abc/ids?count=100&startTime=1700000000",
    );
    assert!(c.match_ids_since("abc", 1, Some(-5)).url.ends_with("&startTime=-5"));
    let r = c.match_detail("KR_1");
    assert_eq!(r.url, "https://asia.api.riotgames.com/tft/match/v1/matches/KR_1");
    assert_eq!(r.limits, Limits::MatchDetail);
}

#[test]
fn answers_of_the_api() {
    assert_eq!(judge_answer(200, &None), Answer::Document);
    assert_eq!(judge_answer(299, &None), Answer::Document);
    assert_eq!(judge_answer(300, &None), Answer::Failure);
    assert_eq!(judge_answer(199, &None), Answer::Failure);
    assert_eq!(judge_answer(429, &None), Answer::Retry(2));
    assert_eq!(judge_answer(429, &Some("17".to_string())), Answer::Retry(17));
    assert_eq!(judge_answer(429, &Some("soon".to_string())), Answer::Retry(2));
    assert_eq!(judge_answer(404, &Some("17".to_string())), Answer::Failure);
    match failure(404, "gone".to_string()) {
        AppError::RiotStatus { status, body } => assert_eq!((status, body.as_str()), (404, "gone")),
        _ => panic!(),
    }
}
