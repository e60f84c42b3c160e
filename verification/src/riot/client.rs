//! How the Riot API is asked: which addresses, how often, and what an answer means.
//!
//! Every endpoint has a limit of its own, so every endpoint is counted on its own:
//!
//! - match details: 250 in 10 seconds
//! - match ids: 600 in 10 seconds
//! - leagues: 30 in 10 seconds, and 500 in 10 minutes
//!
//! A margin of about a tenth is kept.

use crate::error::AppError;
use crate::text::{
    decimal, lowercase, parse_unsigned, signed_decimal, signed_to_string, to_lowercase, unsigned,
    unsigned_to_string,
};
use vstd::prelude::*;
use vstd::string::*;

verus! {

/// The quota of `governor`: how often a cell comes back, and how many can be used at once.
#[verifier::external_type_specification]
#[verifier::external_body]
pub struct ExQuota(governor::Quota);

/// The quota that gives one cell back after so many nanoseconds and lets so many be used at
/// once.
pub uninterp spec fn made_quota(interval_nanos: u64, burst: u32) -> governor::Quota;

/// Calls `governor::Quota::with_period` and, on what it gives, `allow_burst`; then reads back
/// `replenish_interval` and `burst_size`. Claimed of them: a quota is made where neither number
/// is 0, it is a function of these two numbers, and it reports the interval and the burst that
/// it was made with.
#[verifier::external_body]
fn make_quota(interval_nanos: u64, burst: u32) -> (r: (governor::Quota, u64, u32))
    requires
        interval_nanos > 0,
        burst > 0,
    ensures
        r.0 == made_quota(interval_nanos, burst),
        r.1 == interval_nanos,
        r.2 == burst,
{
    let q = governor::Quota::with_period(std::time::Duration::from_nanos(interval_nanos))
        .unwrap()
        .allow_burst(std::num::NonZeroU32::new(burst).unwrap());
    (q, q.replenish_interval().as_nanos() as u64, q.burst_size().get())
}

/// How often something may be asked.
pub struct Limit {
    pub quota: governor::Quota,
    /// Nanoseconds after which one more request is allowed.
    pub interval_nanos: u64,
    /// Requests that are allowed at once.
    pub burst: u32,
}

/// `limit` allows `n` requests in so many seconds, and its quota is the one of its numbers.
pub open spec fn allows(limit: Limit, n: u32, period_secs: u64) -> bool {
    &&& limit.interval_nanos == period_secs * 1_000_000_000 / (n as int)
    &&& limit.burst == n
    &&& limit.quota == made_quota(limit.interval_nanos, limit.burst)
}

/// `n` requests in so many seconds: one comes back every `n`-th part of the time, and all `n`
/// may be made at once.
pub fn quota(n: u32, period_secs: u64) -> (r: Limit)
    requires
        0 < n <= period_secs * 1_000_000_000 <= u64::MAX,
    ensures
        allows(r, n, period_secs),
{
    let nanos: u64 = period_secs * 1_000_000_000;
    let interval: u64 = nanos / (n as u64);
    assert(nanos / (n as u64) > 0) by (nonlinear_arith)
        requires
            0 < n <= nanos,
    ;
    let (quota, interval_nanos, burst) = make_quota(interval, n);
    Limit { quota, interval_nanos, burst }
}

/// The limits that a request is counted against.
#[derive(Debug, Clone, Copy, PartialEq, Eq, Structural)]
pub enum Limits {
    MatchDetail,
    MatchIds,
    /// Both the short and the long one of leagues.
    League,
}

/// A request to make.
#[derive(Debug)]
pub struct Request {
    pub url: String,
    pub limits: Limits,
}

/// How the Riot API is asked.
pub struct RiotClient {
    pub api_key: String,
    /// Where leagues are asked for, `kr` for example.
    pub platform: String,
    /// Where matches are asked for, `asia` for example.
    pub region: String,
    pub match_detail_limit: Limit,
    pub match_ids_limit: Limit,
    pub league_short_limit: Limit,
    pub league_long_limit: Limit,
}

/// The host of a route.
pub open spec fn host(route: Seq<char>) -> Seq<char> {
    "https://"@ + route + ".api.riotgames.com"@
}

/// Where a league is asked for.
pub open spec fn league_url(platform: Seq<char>, tier: Seq<char>) -> Seq<char> {
    host(platform) + "/tft/league/v1/"@ + lowercase(tier) + "?queue=RANKED_TFT"@
}

/// Where the matches of a player are asked for.
pub open spec fn match_ids_url(region: Seq<char>, puuid: Seq<char>, count: u32) -> Seq<char> {
    host(region) + "/tft/match/v1/matches/by-puuid/"@ + puuid + "/ids?count="@ + decimal(
        count as nat,
    )
}

/// Where a match is asked for.
pub open spec fn match_url(region: Seq<char>, match_id: Seq<char>) -> Seq<char> {
    host(region) + "/tft/match/v1/matches/"@ + match_id
}

fn host_of(route: &str) -> (r: String)
    ensures
        r@ == host(route@),
{
    "https://".to_string().concat(route).concat(".api.riotgames.com")
}

fn league_address(platform: &str, lower_tier: &str) -> (r: String)
    ensures
        r@ == host(platform@) + "/tft/league/v1/"@ + lower_tier@ + "?queue=RANKED_TFT"@,
{
    host_of(platform).concat("/tft/league/v1/").concat(lower_tier).concat("?queue=RANKED_TFT")
}

impl RiotClient {
    /// A client for the given key and routes.
    pub fn new(api_key: String, platform: String, region: String) -> (r: RiotClient)
        ensures
            r.api_key@ == api_key@,
            r.platform@ == platform@,
            r.region@ == region@,
            allows(r.match_detail_limit, 230, 10),
            allows(r.match_ids_limit, 550, 10),
            allows(r.league_short_limit, 28, 10),
            allows(r.league_long_limit, 480, 600),
    {
        RiotClient {
            api_key,
            platform,
            region,
            match_detail_limit: quota(230, 10),
            match_ids_limit: quota(550, 10),
            league_short_limit: quota(28, 10),
            league_long_limit: quota(480, 600),
        }
    }

    /// The league of a tier: `challenger`, `grandmaster` or `master`.
    pub fn league(&self, tier: &str) -> (r: Request)
        ensures
            r.url@ == league_url(self.platform@, tier@),
            r.limits == Limits::League,
    {
        let lower = to_lowercase(tier);
        Request {
            url: league_address(self.platform.as_str(), lower.as_str()),
            limits: Limits::League,
        }
    }

    pub fn challenger_league(&self) -> (r: Request)
        ensures
            r.url@ == league_url(self.platform@, "challenger"@),
            r.limits == Limits::League,
    {
        self.league("challenger")
    }

    pub fn grandmaster_league(&self) -> (r: Request)
        ensures
            r.url@ == league_url(self.platform@, "grandmaster"@),
            r.limits == Limits::League,
    {
        self.league("grandmaster")
    }

    pub fn master_league(&self) -> (r: Request)
        ensures
            r.url@ == league_url(self.platform@, "master"@),
            r.limits == Limits::League,
    {
        self.league("master")
    }

    /// The ids of the last matches of a player.
    pub fn match_ids(&self, puuid: &str, count: u32) -> (r: Request)
        ensures
            r.url@ == match_ids_url(self.region@, puuid@, count),
            r.limits == Limits::MatchIds,
    {
        let n = unsigned_to_string(count as u64);
        let url = host_of(self.region.as_str()).concat("/tft/match/v1/matches/by-puuid/").concat(
            puuid,
        ).concat("/ids?count=").concat(n.as_str());
        Request { url, limits: Limits::MatchIds }
    }

    /// A match.
    pub fn match_detail(&self, match_id: &str) -> (r: Request)
        ensures
            r.url@ == match_url(self.region@, match_id@),
            r.limits == Limits::MatchDetail,
    {
        let url = host_of(self.region.as_str()).concat("/tft/match/v1/matches/").concat(match_id);
        Request { url, limits: Limits::MatchDetail }
    }

    /// The ids of the matches of a player from a time on, in seconds since the epoch; the last
    /// ones where no time is given.
    pub fn match_ids_since(&self, puuid: &str, count: u32, start_time: Option<i64>) -> (r: Request)
        ensures
            r.url@ == match start_time {
                Some(t) => match_ids_url(self.region@, puuid@, count) + "&startTime="@
                    + signed_decimal(t as int),
                None => match_ids_url(self.region@, puuid@, count),
            },
            r.limits == Limits::MatchIds,
    {
        let r = self.match_ids(puuid, count);
        match start_time {
            Some(t) => {
                let n = signed_to_string(t);
                Request {
                    url: r.url.concat("&startTime=").concat(n.as_str()),
                    limits: Limits::MatchIds,
                }
            },
            None => r,
        }
    }
}

// ---------------------------------------------------------------- answers

/// What an answer means.
#[derive(Debug, Clone, Copy, PartialEq, Eq, Structural)]
pub enum Answer {
    /// Too many requests: ask again after so many seconds.
    Retry(u64),
    /// The body is the document that was asked for.
    Document,
    /// The body says what went wrong.
    Failure,
}

/// What an answer with the given status means. `retry_after` is the header of that name.
pub open spec fn answer_of(status: u16, retry_after: Option<Seq<char>>) -> Answer {
    if status == 429 {
        Answer::Retry(
            match retry_after {
                Some(s) => match unsigned(s, u64::MAX as nat) {
                    Some(n) => n as u64,
                    None => 2,
                },
                None => 2,
            },
        )
    } else if 200 <= status <= 299 {
        Answer::Document
    } else {
        Answer::Failure
    }
}

/// What an answer with the given status means.
pub fn judge_answer(status: u16, retry_after: &Option<String>) -> (r: Answer)
    ensures
        r == answer_of(status, crate::comp::opt_view(*retry_after)),
{
    if status == 429 {
        let wait: u64 = match retry_after {
            Some(s) => match parse_unsigned(s.as_str(), u64::MAX) {
                Some(n) => n,
                None => 2,
            },
            None => 2,
        };
        Answer::Retry(wait)
    } else if 200 <= status && status <= 299 {
        Answer::Document
    } else {
        Answer::Failure
    }
}

/// The error of an answer that is a failure.
pub fn failure(status: u16, body: String) -> (r: AppError)
    ensures
        r == (AppError::RiotStatus { status, body }),
{
    AppError::RiotStatus { status, body }
}

/// A limit lets as many requests through as asked for in the period, evenly: as many intervals
/// fit in the period, and no longer ones.
pub proof fn lemma_limit(limit: Limit, n: u32, period_secs: u64)
    requires
        allows(limit, n, period_secs),
        n > 0,
    ensures
        limit.burst == n,
        n * limit.interval_nanos <= period_secs * 1_000_000_000,
        period_secs * 1_000_000_000 < n * (limit.interval_nanos + 1),
        limit.quota == made_quota(limit.interval_nanos, n),
{
    let total = period_secs * 1_000_000_000;
    let m = n as int;
    let i = limit.interval_nanos as int;
    assert(m * i <= total && total < m * (i + 1)) by (nonlinear_arith)
        requires
            i == total / m,
            m > 0,
    ;
}

/// Where the requests go.
pub proof fn lemma_urls(
    platform: Seq<char>,
    region: Seq<char>,
    tier: Seq<char>,
    puuid: Seq<char>,
    count: u32,
    match_id: Seq<char>,
)
    ensures
        league_url(platform, tier) == "https://"@ + platform + ".api.riotgames.com"@
            + "/tft/league/v1/"@ + lowercase(tier) + "?queue=RANKED_TFT"@,
        match_ids_url(region, puuid, count) == "https://"@ + region + ".api.riotgames.com"@
            + "/tft/match/v1/matches/by-puuid/"@ + puuid + "/ids?count="@ + decimal(count as nat),
        match_url(region, match_id) == "https://"@ + region + ".api.riotgames.com"@
            + "/tft/match/v1/matches/"@ + match_id,
{
}

/// An answer is tried again only where there were too many requests, after the seconds that it
/// says, or two; it is a document where its status says success, and a failure otherwise.
pub proof fn lemma_answers(status: u16, retry_after: Option<Seq<char>>, n: u64)
    ensures
        answer_of(status, retry_after) is Retry <==> status == 429,
        answer_of(status, retry_after) is Document <==> status / 100 == 2,
        answer_of(status, retry_after) is Failure <==> status != 429 && status / 100 != 2,
        answer_of(429, None) == Answer::Retry(2),
        answer_of(429, Some(decimal(n as nat))) == Answer::Retry(n),
        retry_after is Some && unsigned(retry_after->0, u64::MAX as nat) is None ==> answer_of(
            429,
            retry_after,
        ) == Answer::Retry(2),
{
    crate::text::lemma_reads_what_is_written(n as nat, u64::MAX as nat);
}

}
