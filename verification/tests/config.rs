use tft_iq::config::{Config, EnvVars};
use tft_iq::AppError;

fn vars() -> EnvVars {
    EnvVars {
        riot_api_key: Some("key".to_string()),
        riot_platform: None,
        riot_region: None,
        database_url: Some("postgres://db".to_string()),
        bind_addr: None,
    }
}

#[test]
fn defaults() {
    let c = Config::from_env(vars()).unwrap();
    assert_eq!(c.riot_api_key, "key");
    assert_eq!(c.riot_platform, "kr");
    assert_eq!(c.riot_region, "asia");
    assert_eq!(c.database_url, "postgres://db");
    assert_eq!(c.bind_addr, "0.0.0.0:8080");
}

#[test]
fn given_settings() {
    let c = Config::from_env(EnvVars {
        riot_platform: Some("na1".to_string()),
        riot_region: Some("americas".to_string()),
        bind_addr: Some("127.0.0.1:1".to_string()),
        ..vars()
    })
    .unwrap();
    assert_eq!(c.riot_platform, "na1");
    assert_eq!(c.riot_region, "americas");
    assert_eq!(c.bind_addr, "127.0.0.1:1");
}

#[test]
fn missing_settings() {
    let e = Config::from_env(EnvVars { riot_api_key: None, database_url: None, ..vars() });
    assert_eq!(e.unwrap_err().message(), "설정 오류: 환경변수 RIOT_API_KEY 누락");
    let e = Config::from_env(EnvVars { database_url: None, ..vars() });
    assert_eq!(e.unwrap_err().message(), "설정 오류: 환경변수 DATABASE_URL 누락");
}

#[test]
fn messages_of_errors() {
    assert_eq!(AppError::Http("x".to_string()).message(), "Riot API 요청 실패: x");
    let e = AppError::RiotStatus { status: 403, body: "no".to_string() };
    assert_eq!(e.message(), "Riot API가 403 응답: no");
    assert_eq!(AppError::Db("x".to_string()).message(), "DB 오류: x");
    assert_eq!(AppError::Json("x".to_string()).message(), "JSON 직렬화 오류: x");
    assert_eq!(AppError::ConfigError("x".to_string()).message(), "설정 오류: x");
    assert_eq!(AppError::NotFound("x".to_string()).message(), "리소스를 찾을 수 없음: x");
}
