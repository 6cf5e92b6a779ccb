use crate::text::{concat, i64_decimal, int_decimal, owned};
use vstd::prelude::*;

verus! {

/// Every way an operation of the hub can refuse a request.
#[derive(Debug, Clone)]
pub enum Error {
    Unauthorized,
    TokenRevoked,
    UnknownChannel(String),
    UnknownHandle(String),
    NotAMember(String),
    NotSubscribed(String),
    ChannelExists(String),
    BadName(String),
    TooLarge(String),
    BadReplyTarget(i64),
    BadResolveTarget(i64),
    NotAuthorizedToResolve(i64),
    NotAuthorized(String),
    HandleExists(String),
    TaskNeedsAssignee,
    UnknownIssue(String),
    DuplicatePrefix(String),
    BadStatus(String),
    BadIssueRef(String),
    /// No fresh token could be made: the operating system supplied no
    /// random bytes, or they hash like a token some agent holds.
    RandomUnavailable,
}


/// What each refusal says.
pub open spec fn error_text(e: Error) -> Seq<char> {
    match e {
        Error::Unauthorized => "unauthorized"@,
        Error::TokenRevoked => "token revoked"@,
        Error::UnknownChannel(x) => "unknown channel: "@ + x@,
        Error::UnknownHandle(x) => "unknown handle: "@ + x@,
        Error::NotAMember(x) => "not a member of channel: "@ + x@,
        Error::NotSubscribed(x) => "not subscribed to channel: "@ + x@,
        Error::ChannelExists(x) => "channel already exists: "@ + x@,
        Error::BadName(x) => "invalid name: "@ + x@,
        Error::TooLarge(x) => "value too large: "@ + x@,
        Error::BadReplyTarget(n) => "reply target invalid: "@ + int_decimal(n as int),
        Error::BadResolveTarget(n) => "resolve target invalid: "@ + int_decimal(n as int),
        Error::NotAuthorizedToResolve(n) => "not authorized to resolve message "@ + int_decimal(
            n as int,
        ),
        Error::NotAuthorized(x) => "not authorized: "@ + x@,
        Error::HandleExists(x) => "handle already exists: "@ + x@
            + "; use rotate_token to get a new token"@,
        Error::TaskNeedsAssignee => "task needs at least one assignee mention"@,
        Error::UnknownIssue(x) => "unknown issue: "@ + x@,
        Error::DuplicatePrefix(x) => "issue prefix already in use: "@ + x@,
        Error::BadStatus(x) => "invalid status: "@ + x@,
        Error::BadIssueRef(x) => "invalid issue reference: "@ + x@,
        Error::RandomUnavailable => "random source unavailable"@,
    }
}

/// How a tool call's refusal is reported to an agent.
#[derive(Debug, Clone, Copy, PartialEq, Eq, Structural)]
pub enum McpErrorKind {
    /// The request itself is not allowed.
    InvalidRequest,
    /// The request's parameters are wrong.
    InvalidParams,
    /// The hub failed on its side.
    Internal,
}

/// Whether a failure is the hub's own rather than a refusal of the request.
pub open spec fn is_internal(e: Error) -> bool {
    e is RandomUnavailable
}

/// Whether a refusal is about the request (credentials, permissions,
/// membership) rather than its parameters.
pub open spec fn is_request_refusal(e: Error) -> bool {
    match e {
        Error::Unauthorized | Error::TokenRevoked | Error::NotAuthorized(_)
        | Error::NotAuthorizedToResolve(_) | Error::NotAMember(_) | Error::NotSubscribed(_) => true,
        _ => false,
    }
}

impl Error {
    /// What this refusal says (see `error_text`).
    pub fn message(&self) -> (r: String)
        ensures
            r@ == error_text(*self),
    {
        proof {
            reveal_strlit("unauthorized");
            reveal_strlit("token revoked");
            reveal_strlit("task needs at least one assignee mention");
            reveal_strlit("random source unavailable");
        }
        match self {
            Error::Unauthorized => owned("unauthorized"),
            Error::TokenRevoked => owned("token revoked"),
            Error::UnknownChannel(x) => concat(owned("unknown channel: "), x.as_str()),
            Error::UnknownHandle(x) => concat(owned("unknown handle: "), x.as_str()),
            Error::NotAMember(x) => concat(owned("not a member of channel: "), x.as_str()),
            Error::NotSubscribed(x) => concat(owned("not subscribed to channel: "), x.as_str()),
            Error::ChannelExists(x) => concat(owned("channel already exists: "), x.as_str()),
            Error::BadName(x) => concat(owned("invalid name: "), x.as_str()),
            Error::TooLarge(x) => concat(owned("value too large: "), x.as_str()),
            Error::BadReplyTarget(n) => concat(owned("reply target invalid: "), i64_decimal(*n).as_str()),
            Error::BadResolveTarget(n) => concat(
                owned("resolve target invalid: "),
                i64_decimal(*n).as_str(),
            ),
            Error::NotAuthorizedToResolve(n) => concat(
                owned("not authorized to resolve message "),
                i64_decimal(*n).as_str(),
            ),
            Error::NotAuthorized(x) => concat(owned("not authorized: "), x.as_str()),
            Error::HandleExists(x) => concat(
                concat(owned("handle already exists: "), x.as_str()),
                "; use rotate_token to get a new token",
            ),
            Error::TaskNeedsAssignee => owned("task needs at least one assignee mention"),
            Error::UnknownIssue(x) => concat(owned("unknown issue: "), x.as_str()),
            Error::DuplicatePrefix(x) => concat(owned("issue prefix already in use: "), x.as_str()),
            Error::BadStatus(x) => concat(owned("invalid status: "), x.as_str()),
            Error::BadIssueRef(x) => concat(owned("invalid issue reference: "), x.as_str()),
            Error::RandomUnavailable => owned("random source unavailable"),
        }
    }
}

/// How a tool call reports refusal `e`: its kind and its text; a failure
/// of the hub's own is reported as an internal error, without detail.
pub fn map_err(e: &Error) -> (r: (McpErrorKind, String))
    ensures
        r.0 == (if is_internal(*e) {
            McpErrorKind::Internal
        } else if is_request_refusal(*e) {
            McpErrorKind::InvalidRequest
        } else {
            McpErrorKind::InvalidParams
        }),
        r.1@ == if is_internal(*e) {
            "internal error"@
        } else {
            error_text(*e)
        },
{
    if let Error::RandomUnavailable = e {
        proof {
            reveal_strlit("internal error");
        }
        return (McpErrorKind::Internal, owned("internal error"));
    }
    let kind = match e {
        Error::Unauthorized | Error::TokenRevoked | Error::NotAuthorized(_)
        | Error::NotAuthorizedToResolve(_) | Error::NotAMember(_) | Error::NotSubscribed(_) => {
            McpErrorKind::InvalidRequest
        },
        _ => McpErrorKind::InvalidParams,
    };
    (kind, e.message())
}

} // verus!
