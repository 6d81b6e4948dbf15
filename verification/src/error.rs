//! The library's error type and the text each error is reported with.
use vstd::prelude::*;

verus! {

/// Everything that can go wrong in a download. Errors that come from I/O,
/// HTTP, parsing or tasks carry the text they were reported with.
#[derive(Debug, Clone, PartialEq, Eq)]
pub enum LokiDmError {
    Io(String),
    Http(String),
    Json(String),
    TomlDe(String),
    TomlSer(String),
    Url(String),
    HttpStatus(u16),
    MissingContentLength,
    NoRangeSupport,
    RangeNotHonored,
    Cancelled,
    Join(String),
    Timeout,
    Message(String),
}

/// The text `reqwest::StatusCode` displays for a status code (the code and
/// its reason phrase when it has one).
pub uninterp spec fn status_display(code: u16) -> Seq<char>;

/// `reqwest::StatusCode::from_u16(code)` displayed with `to_string`; a code
/// that `from_u16` rejects is shown as its decimal number. The text is
/// named by `status_display`.
#[verifier::external_body]
fn status_text(code: u16) -> (s: String)
    ensures
        s@ == status_display(code),
{
    match reqwest::StatusCode::from_u16(code) {
        Ok(status) => status.to_string(),
        Err(_) => code.to_string(),
    }
}

/// The text an error is reported with.
pub open spec fn error_text(e: LokiDmError) -> Seq<char> {
    match e {
        LokiDmError::Io(m) => "io error: "@ + m@,
        LokiDmError::Http(m) => "http error: "@ + m@,
        LokiDmError::Json(m) => "json error: "@ + m@,
        LokiDmError::TomlDe(m) => "toml decode error: "@ + m@,
        LokiDmError::TomlSer(m) => "toml encode error: "@ + m@,
        LokiDmError::Url(m) => "invalid url: "@ + m@,
        LokiDmError::HttpStatus(code) => "server returned status "@ + status_display(code),
        LokiDmError::MissingContentLength => "remote server did not provide content length"@,
        LokiDmError::NoRangeSupport => "remote server does not support byte ranges"@,
        LokiDmError::RangeNotHonored => "remote server ignored byte range request"@,
        LokiDmError::Cancelled => "download cancelled"@,
        LokiDmError::Join(m) => "task join error: "@ + m@,
        LokiDmError::Timeout => "operation timed out"@,
        LokiDmError::Message(m) => m@,
    }
}

/// `prefix` followed by `rest`.
fn prefixed(prefix: &str, rest: &str) -> (s: String)
    ensures
        s@ == prefix@ + rest@,
{
    let mut s = prefix.to_owned();
    s.append(rest);
    s
}

impl LokiDmError {
    /// The text the error is reported with.
    pub fn describe(&self) -> (s: String)
        ensures
            s@ == error_text(*self),
    {
        match self {
            LokiDmError::Io(m) => prefixed("io error: ", m.as_str()),
            LokiDmError::Http(m) => prefixed("http error: ", m.as_str()),
            LokiDmError::Json(m) => prefixed("json error: ", m.as_str()),
            LokiDmError::TomlDe(m) => prefixed("toml decode error: ", m.as_str()),
            LokiDmError::TomlSer(m) => prefixed("toml encode error: ", m.as_str()),
            LokiDmError::Url(m) => prefixed("invalid url: ", m.as_str()),
            LokiDmError::HttpStatus(code) => {
                let t = status_text(*code);
                prefixed("server returned status ", t.as_str())
            },
            LokiDmError::MissingContentLength => "remote server did not provide content length".to_owned(),
            LokiDmError::NoRangeSupport => "remote server does not support byte ranges".to_owned(),
            LokiDmError::RangeNotHonored => "remote server ignored byte range request".to_owned(),
            LokiDmError::Cancelled => "download cancelled".to_owned(),
            LokiDmError::Join(m) => prefixed("task join error: ", m.as_str()),
            LokiDmError::Timeout => "operation timed out".to_owned(),
            LokiDmError::Message(m) => m.clone(),
        }
    }
}

} // verus!
