//! What can go wrong, and how it is told to a client.

use crate::ir::Dialect;
use crate::json;
use crate::json::{js, Build, Fields, Json, Tree};
use crate::text;
use crate::text::{concat, concat3, decimal};
use crate::views;
use vstd::prelude::*;

verus! {

/// A failure anywhere in the gateway.
#[derive(Debug, PartialEq)]
pub enum Error {
    InvalidRequest(String),
    Unauthorized,
    UnknownModel(String),
    UnknownRoute(String),
    NoCandidate(String),
    MissingApiKey(String),
    Upstream { provider: String, status: u16, body: String },
    Transport { provider: String, source: String },
    BadUpstreamPayload(String),
    Timeout(u64),
    OverBudget(String),
    TooLarge { limit_mib: u64 },
    Internal(String),
}

pub enum ErrorV {
    InvalidRequest(Seq<char>),
    Unauthorized,
    UnknownModel(Seq<char>),
    UnknownRoute(Seq<char>),
    NoCandidate(Seq<char>),
    MissingApiKey(Seq<char>),
    Upstream { provider: Seq<char>, status: u16, body: Seq<char> },
    Transport { provider: Seq<char>, source: Seq<char> },
    BadUpstreamPayload(Seq<char>),
    Timeout(u64),
    OverBudget(Seq<char>),
    TooLarge { limit_mib: u64 },
    Internal(Seq<char>),
}

impl View for Error {
    type V = ErrorV;

    open spec fn view(&self) -> ErrorV {
        match self {
            Error::InvalidRequest(m) => ErrorV::InvalidRequest(m@),
            Error::Unauthorized => ErrorV::Unauthorized,
            Error::UnknownModel(m) => ErrorV::UnknownModel(m@),
            Error::UnknownRoute(m) => ErrorV::UnknownRoute(m@),
            Error::NoCandidate(m) => ErrorV::NoCandidate(m@),
            Error::MissingApiKey(m) => ErrorV::MissingApiKey(m@),
            Error::Upstream { provider, status, body } => ErrorV::Upstream {
                provider: provider@,
                status: *status,
                body: body@,
            },
            Error::Transport { provider, source } => ErrorV::Transport { provider: provider@, source: source@ },
            Error::BadUpstreamPayload(m) => ErrorV::BadUpstreamPayload(m@),
            Error::Timeout(s) => ErrorV::Timeout(*s),
            Error::OverBudget(m) => ErrorV::OverBudget(m@),
            Error::TooLarge { limit_mib } => ErrorV::TooLarge { limit_mib: *limit_mib },
            Error::Internal(m) => ErrorV::Internal(m@),
        }
    }
}

/// What a result says.
pub open spec fn outcome<T: View>(r: Result<T, Error>) -> Result<T::V, ErrorV> {
    match r {
        Ok(x) => Ok(x@),
        Err(e) => Err(e@),
    }
}

/// What a list of results, or the failure to make it, says.
pub open spec fn outcomes<T: View>(r: Result<Vec<T>, Error>) -> Result<Seq<T::V>, ErrorV> {
    match r {
        Ok(v) => Ok(views::of(v@)),
        Err(e) => Err(e@),
    }
}

impl ErrorV {
    /// The message in words.
    pub open spec fn message(self) -> Seq<char> {
        match self {
            ErrorV::InvalidRequest(m) => "invalid request: "@ + m,
            ErrorV::Unauthorized => "unauthorized"@,
            ErrorV::UnknownModel(m) => "unknown model: "@ + m,
            ErrorV::UnknownRoute(m) => "unknown route: "@ + m,
            ErrorV::NoCandidate(m) => "no available upstream for "@ + m,
            ErrorV::MissingApiKey(m) => "no API key configured for provider "@ + m,
            ErrorV::Upstream { provider, status, body } => "upstream "@ + provider + " returned "@ + text::digits(
                status as nat,
            ) + ": "@ + body,
            ErrorV::Transport { provider, source } => "cannot reach "@ + provider + ": "@ + source,
            ErrorV::BadUpstreamPayload(m) => "bad upstream payload: "@ + m,
            ErrorV::Timeout(s) => "upstream timed out after "@ + text::digits(s as nat) + "s"@,
            ErrorV::OverBudget(m) => "stopped by a budget: "@ + m,
            ErrorV::TooLarge { limit_mib } => "request body is larger than "@ + text::digits(limit_mib as nat) + " MiB"@,
            ErrorV::Internal(m) => "internal error: "@ + m,
        }
    }

    /// The HTTP status that a client sees. A provider's own error status is passed on.
    pub open spec fn status(self) -> u16 {
        match self {
            ErrorV::InvalidRequest(_) => 400,
            ErrorV::Unauthorized => 401,
            ErrorV::UnknownModel(_) | ErrorV::UnknownRoute(_) => 404,
            ErrorV::NoCandidate(_) => 503,
            ErrorV::MissingApiKey(_) => 412,
            ErrorV::Upstream { status, .. } => if 400 <= status < 600 { status } else { 502 },
            ErrorV::Transport { .. } | ErrorV::BadUpstreamPayload(_) => 502,
            ErrorV::Timeout(_) => 504,
            ErrorV::OverBudget(_) => 402,
            ErrorV::TooLarge { .. } => 413,
            ErrorV::Internal(_) => 500,
        }
    }

    /// The error type on the wire.
    pub open spec fn kind(self) -> Seq<char> {
        match self {
            ErrorV::InvalidRequest(_) => "invalid_request_error"@,
            ErrorV::Unauthorized => "authentication_error"@,
            ErrorV::UnknownModel(_) | ErrorV::UnknownRoute(_) => "not_found_error"@,
            ErrorV::Timeout(_) => "timeout_error"@,
            ErrorV::OverBudget(_) => "budget_exceeded"@,
            ErrorV::TooLarge { .. } => "request_too_large"@,
            ErrorV::Upstream { status, .. } => if status == 429 { "rate_limit_error"@ } else { "api_error"@ },
            _ => "api_error"@,
        }
    }

    /// The error envelope of a dialect.
    pub open spec fn wire(self, dialect: Dialect) -> Tree {
        match dialect {
            Dialect::Anthropic => Tree::Obj(
                json::fs().with("type"@, json::st("error"@)).with(
                    "error"@,
                    Tree::Obj(json::fs().with("type"@, json::st(self.kind())).with("message"@, json::st(self.message()))),
                ),
            ),
            _ => Tree::Obj(
                json::fs().with(
                    "error"@,
                    Tree::Obj(
                        json::fs().with("message"@, json::st(self.message())).with("type"@, json::st(self.kind())).with(
                            "code"@,
                            json::st(self.kind()),
                        ),
                    ),
                ),
            ),
        }
    }

    /// Whether another provider may do better.
    pub open spec fn retryable(self) -> bool {
        match self {
            ErrorV::Upstream { status, .. } => status == 401 || status == 402 || status == 403 || status == 404
                || status == 408 || status == 409 || status == 425 || status == 429 || status >= 500,
            ErrorV::Transport { .. } | ErrorV::BadUpstreamPayload(_) | ErrorV::Timeout(_)
            | ErrorV::MissingApiKey(_) => true,
            _ => false,
        }
    }

    /// Whether the failure says something about the provider's health.
    pub open spec fn against_health(self) -> bool {
        match self {
            ErrorV::Upstream { status, .. } => status == 401 || status == 402 || status == 403 || status == 408
                || status == 429 || status >= 500,
            ErrorV::Transport { .. } | ErrorV::BadUpstreamPayload(_) | ErrorV::Timeout(_) => true,
            _ => false,
        }
    }

    /// The message without what the provider wrote, which may quote the prompt.
    pub open spec fn safe_message(self) -> Seq<char> {
        match self {
            ErrorV::Upstream { provider, status, .. } => "upstream "@ + provider + " returned "@ + text::digits(
                status as nat,
            ),
            ErrorV::BadUpstreamPayload(_) => "bad upstream payload"@,
            _ => self.message(),
        }
    }
}

impl Error {
    pub fn invalid(message: &str) -> (r: Error)
        ensures
            r@ == ErrorV::InvalidRequest(message@),
    {
        Error::InvalidRequest(message.to_owned())
    }

    pub fn internal(message: &str) -> (r: Error)
        ensures
            r@ == ErrorV::Internal(message@),
    {
        Error::Internal(message.to_owned())
    }

    fn upstream_message(provider: &str, status: u16) -> (r: String)
        ensures
            r@ == "upstream "@ + provider@ + " returned "@ + text::digits(status as nat),
    {
        let mut out = concat3("upstream ", provider, " returned ");
        out.append(decimal(status as u64).as_str());
        out
    }

    /// The message in words.
    pub fn to_string(&self) -> (r: String)
        ensures
            r@ == self@.message(),
    {
        match self {
            Error::InvalidRequest(m) => concat("invalid request: ", m.as_str()),
            Error::Unauthorized => "unauthorized".to_owned(),
            Error::UnknownModel(m) => concat("unknown model: ", m.as_str()),
            Error::UnknownRoute(m) => concat("unknown route: ", m.as_str()),
            Error::NoCandidate(m) => concat("no available upstream for ", m.as_str()),
            Error::MissingApiKey(m) => concat("no API key configured for provider ", m.as_str()),
            Error::Upstream { provider, status, body } => {
                let mut out = Error::upstream_message(provider.as_str(), *status);
                out.append(": ");
                out.append(body.as_str());
                out
            },
            Error::Transport { provider, source } => {
                let mut out = concat3("cannot reach ", provider.as_str(), ": ");
                out.append(source.as_str());
                out
            },
            Error::BadUpstreamPayload(m) => concat("bad upstream payload: ", m.as_str()),
            Error::Timeout(s) => concat3("upstream timed out after ", decimal(*s).as_str(), "s"),
            Error::OverBudget(m) => concat("stopped by a budget: ", m.as_str()),
            Error::TooLarge { limit_mib } => concat3(
                "request body is larger than ",
                decimal(*limit_mib).as_str(),
                " MiB",
            ),
            Error::Internal(m) => concat("internal error: ", m.as_str()),
        }
    }

    /// The HTTP status that a client sees.
    pub fn status(&self) -> (r: u16)
        ensures
            r == self@.status(),
    {
        match self {
            Error::InvalidRequest(_) => 400,
            Error::Unauthorized => 401,
            Error::UnknownModel(_) | Error::UnknownRoute(_) => 404,
            Error::NoCandidate(_) => 503,
            Error::MissingApiKey(_) => 412,
            Error::Upstream { status, .. } => if 400 <= *status && *status < 600 { *status } else { 502 },
            Error::Transport { .. } | Error::BadUpstreamPayload(_) => 502,
            Error::Timeout(_) => 504,
            Error::OverBudget(_) => 402,
            Error::TooLarge { .. } => 413,
            Error::Internal(_) => 500,
        }
    }

    /// The error type on the wire.
    pub fn kind(&self) -> (r: &'static str)
        ensures
            r@ == self@.kind(),
    {
        match self {
            Error::InvalidRequest(_) => "invalid_request_error",
            Error::Unauthorized => "authentication_error",
            Error::UnknownModel(_) | Error::UnknownRoute(_) => "not_found_error",
            Error::Timeout(_) => "timeout_error",
            Error::OverBudget(_) => "budget_exceeded",
            Error::TooLarge { .. } => "request_too_large",
            Error::Upstream { status, .. } => if *status == 429 { "rate_limit_error" } else { "api_error" },
            _ => "api_error",
        }
    }

    /// The error envelope of a dialect.
    pub fn to_wire(&self, dialect: Dialect) -> (r: Json)
        ensures
            r@ == self@.wire(dialect),
    {
        let message = Json::Str(self.to_string());
        match dialect {
            Dialect::Anthropic => Fields::new().with("type", js("error")).with(
                "error",
                Fields::new().with("type", js(self.kind())).with("message", message).done(),
            ).done(),
            _ => Fields::new().with(
                "error",
                Fields::new().with("message", message).with("type", js(self.kind())).with(
                    "code",
                    js(self.kind()),
                ).done(),
            ).done(),
        }
    }

    /// Whether another provider may do better.
    pub fn is_retryable(&self) -> (r: bool)
        ensures
            r == self@.retryable(),
    {
        match self {
            Error::Upstream { status, .. } => *status == 401 || *status == 402 || *status == 403 || *status == 404
                || *status == 408 || *status == 409 || *status == 425 || *status == 429 || *status >= 500,
            Error::Transport { .. } | Error::BadUpstreamPayload(_) | Error::Timeout(_) | Error::MissingApiKey(_) => true,
            _ => false,
        }
    }

    /// Whether the failure says something about the provider's health.
    pub fn counts_against_health(&self) -> (r: bool)
        ensures
            r == self@.against_health(),
    {
        match self {
            Error::Upstream { status, .. } => *status == 401 || *status == 402 || *status == 403 || *status == 408
                || *status == 429 || *status >= 500,
            Error::Transport { .. } | Error::BadUpstreamPayload(_) | Error::Timeout(_) => true,
            _ => false,
        }
    }

    /// The message without what the provider wrote, which may quote the prompt.
    pub fn safe_message(&self) -> (r: String)
        ensures
            r@ == self@.safe_message(),
    {
        match self {
            Error::Upstream { provider, status, .. } => Error::upstream_message(provider.as_str(), *status),
            Error::BadUpstreamPayload(_) => "bad upstream payload".to_owned(),
            _ => self.to_string(),
        }
    }
}

} // verus!
