//! What can go wrong.

use crate::text::{decimal, unsigned_to_string};
use vstd::prelude::*;
use vstd::string::*;

verus! {

/// The kinds of failure. What an outside library reported is kept as its message.
#[derive(Debug)]
pub enum AppError {
    /// A request to the Riot API failed.
    Http(String),
    /// The Riot API answered with something else than success.
    RiotStatus { status: u16, body: String },
    /// The database reported an error.
    Db(String),
    /// A document could not be read or written.
    Json(String),
    /// A setting is missing.
    ConfigError(String),
    /// Something that was asked for does not exist.
    NotFound(String),
}

impl AppError {
    /// The failure as people read it.
    pub open spec fn text(self) -> Seq<char> {
        match self {
            AppError::Http(e) => "Riot API 요청 실패: "@ + e@,
            AppError::RiotStatus { status, body } => "Riot API가 "@ + decimal(status as nat)
                + " 응답: "@ + body@,
            AppError::Db(e) => "DB 오류: "@ + e@,
            AppError::Json(e) => "JSON 직렬화 오류: "@ + e@,
            AppError::ConfigError(e) => "설정 오류: "@ + e@,
            AppError::NotFound(e) => "리소스를 찾을 수 없음: "@ + e@,
        }
    }

    /// The failure as people read it.
    pub fn message(&self) -> (r: String)
        ensures
            r@ == self.text(),
    {
        match self {
            AppError::Http(e) => "Riot API 요청 실패: ".to_string().concat(e.as_str()),
            AppError::RiotStatus { status, body } => {
                let code = unsigned_to_string(*status as u64);
                "Riot API가 ".to_string().concat(code.as_str()).concat(" 응답: ").concat(body.as_str())
            },
            AppError::Db(e) => "DB 오류: ".to_string().concat(e.as_str()),
            AppError::Json(e) => "JSON 직렬화 오류: ".to_string().concat(e.as_str()),
            AppError::ConfigError(e) => "설정 오류: ".to_string().concat(e.as_str()),
            AppError::NotFound(e) => "리소스를 찾을 수 없음: ".to_string().concat(e.as_str()),
        }
    }
}

/// Each error says what went wrong and why.
pub proof fn lemma_error_texts(e: String, status: u16, body: String)
    ensures
        AppError::Http(e).text() == "Riot API 요청 실패: "@ + e@,
        (AppError::RiotStatus { status, body }).text() == "Riot API가 "@ + decimal(status as nat)
            + " 응답: "@ + body@,
        AppError::Db(e).text() == "DB 오류: "@ + e@,
        AppError::Json(e).text() == "JSON 직렬화 오류: "@ + e@,
        AppError::ConfigError(e).text() == "설정 오류: "@ + e@,
        AppError::NotFound(e).text() == "리소스를 찾을 수 없음: "@ + e@,
{
}

}
