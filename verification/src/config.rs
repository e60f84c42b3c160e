//! Settings.

use crate::error::AppError;
use vstd::prelude::*;
use vstd::string::*;

verus! {

/// The settings that a program runs with.
#[derive(Debug, Clone)]
pub struct Config {
    pub riot_api_key: String,
    /// Routing of leagues and summoners: `kr`, `na1` and so on.
    pub riot_platform: String,
    /// Routing of matches: `asia`, `americas`, `europe`.
    pub riot_region: String,
    pub database_url: String,
    pub bind_addr: String,
}

/// What the environment says of each setting.
#[derive(Debug)]
pub struct EnvVars {
    /// `RIOT_API_KEY`
    pub riot_api_key: Option<String>,
    /// `RIOT_PLATFORM`
    pub riot_platform: Option<String>,
    /// `RIOT_REGION`
    pub riot_region: Option<String>,
    /// `DATABASE_URL`
    pub database_url: Option<String>,
    /// `BIND_ADDR`
    pub bind_addr: Option<String>,
}

/// A setting that has a default.
pub open spec fn or_default(v: Option<String>, default: Seq<char>) -> Seq<char> {
    match v {
        Some(s) => s@,
        None => default,
    }
}

/// What is reported where the setting `key` is missing.
pub open spec fn missing(key: Seq<char>) -> Seq<char> {
    "환경변수 "@ + key + " 누락"@
}

fn require(key: &str, v: Option<String>) -> (r: Result<String, AppError>)
    ensures
        match r {
            Ok(s) => v == Some(s),
            Err(e) => v is None && (e matches AppError::ConfigError(m) && m@ == missing(key@)),
        },
{
    match v {
        Some(s) => Ok(s),
        None => Err(
            AppError::ConfigError("환경변수 ".to_string().concat(key).concat(" 누락")),
        ),
    }
}

fn fallback(v: Option<String>, default: &str) -> (r: String)
    ensures
        r@ == or_default(v, default@),
{
    match v {
        Some(s) => s,
        None => default.to_string(),
    }
}

impl Config {
    /// The settings that the environment gives. The API key and the address of the database
    /// must be there, and the key is looked at first; the others have defaults.
    pub fn from_env(vars: EnvVars) -> (r: Result<Config, AppError>)
        ensures
            r is Ok <==> vars.riot_api_key is Some && vars.database_url is Some,
            match r {
                Ok(c) => {
                    &&& vars.riot_api_key == Some(c.riot_api_key)
                    &&& vars.database_url == Some(c.database_url)
                    &&& c.riot_platform@ == or_default(vars.riot_platform, "kr"@)
                    &&& c.riot_region@ == or_default(vars.riot_region, "asia"@)
                    &&& c.bind_addr@ == or_default(vars.bind_addr, "0.0.0.0:8080"@)
                },
                Err(e) => e matches AppError::ConfigError(m) && m@ == missing(
                    if vars.riot_api_key is None {
                        "RIOT_API_KEY"@
                    } else {
                        "DATABASE_URL"@
                    },
                ),
            },
    {
        let riot_api_key = match require("RIOT_API_KEY", vars.riot_api_key) {
            Ok(s) => s,
            Err(e) => {
                return Err(e);
            },
        };
        let riot_platform = fallback(vars.riot_platform, "kr");
        let riot_region = fallback(vars.riot_region, "asia");
        let database_url = match require("DATABASE_URL", vars.database_url) {
            Ok(s) => s,
            Err(e) => {
                return Err(e);
            },
        };
        let bind_addr = fallback(vars.bind_addr, "0.0.0.0:8080");
        Ok(Config { riot_api_key, riot_platform, riot_region, database_url, bind_addr })
    }
}

/// A value that is given is taken, and another is not; what is missing is named.
pub proof fn lemma_settings(v: String, default: Seq<char>, key: Seq<char>)
    ensures
        or_default(Some(v), default) == v@,
        or_default(None, default) == default,
        missing(key) == "환경변수 "@ + key + " 누락"@,
{
}

}
