//! How a failed read is classified for display — whether this page can do
//! anything about it — and which tone a not-the-happy-path surface is in.

use vstd::prelude::*;
use vstd::string::StrSliceExecFns;

use crate::text::{chars_of, has_prefix, push_str, starts_with};

verus! {

/// The API's error, by variant. Each carries its human-facing message.
#[derive(Clone, Debug, PartialEq, Eq)]
pub enum ApiError {
    NotFound(String),
    Unauthorized(String),
    Forbidden(String),
    Conflict(String),
    Validation(String),
    BadCursor(String),
    Upstream(String),
}

impl ApiError {
    /// The message the error carries.
    pub fn message(&self) -> (m: &str)
        ensures
            m@ == api_message(*self),
    {
        match self {
            ApiError::NotFound(m) => m.as_str(),
            ApiError::Unauthorized(m) => m.as_str(),
            ApiError::Forbidden(m) => m.as_str(),
            ApiError::Conflict(m) => m.as_str(),
            ApiError::Validation(m) => m.as_str(),
            ApiError::BadCursor(m) => m.as_str(),
            ApiError::Upstream(m) => m.as_str(),
        }
    }
}

/// The message an API error carries.
pub open spec fn api_message(e: ApiError) -> Seq<char> {
    match e {
        ApiError::NotFound(m) => m@,
        ApiError::Unauthorized(m) => m@,
        ApiError::Forbidden(m) => m@,
        ApiError::Conflict(m) => m@,
        ApiError::Validation(m) => m@,
        ApiError::BadCursor(m) => m@,
        ApiError::Upstream(m) => m@,
    }
}

/// A failed server call as the page receives it: the typed API error when
/// the wire carried one, the server's message string, or any other
/// failure's text (a dropped fetch, a body that did not decode).
#[derive(Clone, Debug, PartialEq, Eq)]
pub enum ServerFnError {
    WrappedServerError(ApiError),
    ServerError(String),
    Other(String),
}

/// What a failed read tells us about whether *this page* can do anything
/// about it.
#[derive(Debug, Clone, Copy, PartialEq, Eq, Structural)]
pub enum Failure {
    /// The thing addressed is not there.
    Missing,
    /// The request itself is wrong and will stay wrong.
    Request,
    /// The session, not the page.
    Session,
    /// Something on the way to the data broke; retrying is right.
    Transport,
}

impl Failure {
    /// Whether a "Try again" on this failure could plausibly do anything.
    pub fn retryable(self) -> (r: bool)
        ensures
            r == (self == Failure::Transport),
    {
        match self {
            Failure::Transport => true,
            _ => false,
        }
    }

    /// The `data-failure` value.
    pub fn slug(self) -> (s: &'static str)
        ensures
            s@ == failure_slug(self),
    {
        match self {
            Failure::Missing => "missing",
            Failure::Request => "request",
            Failure::Session => "session",
            Failure::Transport => "transport",
        }
    }

    /// The class of a typed API error: conflict, forbidden, validation and a
    /// bad cursor are the request's fault; not-found names the thing;
    /// unauthorized names the session; upstream is breakage worth retrying.
    pub fn of_api_error(e: &ApiError) -> (f: Failure)
        ensures
            f == failure_of(*e),
    {
        match e {
            ApiError::NotFound(_) => Failure::Missing,
            ApiError::Unauthorized(_) => Failure::Session,
            ApiError::Forbidden(_) | ApiError::Conflict(_) | ApiError::Validation(_)
            | ApiError::BadCursor(_) => Failure::Request,
            ApiError::Upstream(_) => Failure::Transport,
        }
    }
}

/// The `data-failure` value of a class.
pub open spec fn failure_slug(f: Failure) -> Seq<char> {
    match f {
        Failure::Missing => "missing"@,
        Failure::Request => "request"@,
        Failure::Session => "session"@,
        Failure::Transport => "transport"@,
    }
}

/// The class of a typed API error.
pub open spec fn failure_of(e: ApiError) -> Failure {
    match e {
        ApiError::NotFound(_) => Failure::Missing,
        ApiError::Unauthorized(_) => Failure::Session,
        ApiError::Upstream(_) => Failure::Transport,
        _ => Failure::Request,
    }
}

/// Classifies a wire message by its `Display` prefix and strips the prefix:
/// `not found: ` is the thing; `conflict: `, `forbidden: ` and
/// `validation: ` the request; `unauthorized: ` the session; `upstream: `
/// and anything without a known prefix are transport breakage.
pub open spec fn classify_spec(raw: Seq<char>) -> (Failure, Seq<char>) {
    if starts_with(raw, "not found: "@) {
        (Failure::Missing, raw.skip("not found: "@.len() as int))
    } else if starts_with(raw, "conflict: "@) {
        (Failure::Request, raw.skip("conflict: "@.len() as int))
    } else if starts_with(raw, "forbidden: "@) {
        (Failure::Request, raw.skip("forbidden: "@.len() as int))
    } else if starts_with(raw, "validation: "@) {
        (Failure::Request, raw.skip("validation: "@.len() as int))
    } else if starts_with(raw, "unauthorized: "@) {
        (Failure::Session, raw.skip("unauthorized: "@.len() as int))
    } else if starts_with(raw, "upstream: "@) {
        (Failure::Transport, raw.skip("upstream: "@.len() as int))
    } else {
        (Failure::Transport, raw)
    }
}

/// The rest of `raw` after `prefix`, when it starts with it.
pub(crate) fn strip<'a>(raw: &'a str, cs: &Vec<char>, prefix: &str) -> (r: Option<&'a str>)
    requires
        cs@ == raw@,
    ensures
        match r {
            Some(rest) => starts_with(raw@, prefix@) && rest@ == raw@.skip(prefix@.len() as int),
            None => !starts_with(raw@, prefix@),
        },
{
    let p = chars_of(prefix);
    if has_prefix(cs.as_slice(), p.as_slice()) {
        let rest = raw.substring_char(p.len(), cs.len());
        proof {
            assert(raw@.subrange(p@.len() as int, raw@.len() as int) =~= raw@.skip(
                p@.len() as int,
            ));
        }
        Some(rest)
    } else {
        None
    }
}

/// Classifies a wire message by its prefix, returning the class and the
/// human half of the message.
pub fn classify(raw: &str) -> (r: (Failure, &str))
    ensures
        (r.0, r.1@) == classify_spec(raw@),
{
    let cs = chars_of(raw);
    if let Some(rest) = strip(raw, &cs, "not found: ") {
        return (Failure::Missing, rest);
    }
    if let Some(rest) = strip(raw, &cs, "conflict: ") {
        return (Failure::Request, rest);
    }
    if let Some(rest) = strip(raw, &cs, "forbidden: ") {
        return (Failure::Request, rest);
    }
    if let Some(rest) = strip(raw, &cs, "validation: ") {
        return (Failure::Request, rest);
    }
    if let Some(rest) = strip(raw, &cs, "unauthorized: ") {
        return (Failure::Session, rest);
    }
    match strip(raw, &cs, "upstream: ") {
        Some(rest) => (Failure::Transport, rest),
        None => (Failure::Transport, raw),
    }
}

/// The class and message of a failed server call: a typed API error by its
/// variant and its own message; anything else by the prefix of its text.
pub open spec fn describe_spec(e: ServerFnError) -> (Failure, Seq<char>) {
    match e {
        ServerFnError::WrappedServerError(api) => (failure_of(api), api_message(api)),
        ServerFnError::ServerError(m) => classify_spec(m@),
        ServerFnError::Other(t) => classify_spec(t@),
    }
}

/// Classifies a server-fn error, typed variant first.
pub fn describe(e: &ServerFnError) -> (r: (Failure, String))
    ensures
        (r.0, r.1@) == describe_spec(*e),
{
    match e {
        ServerFnError::WrappedServerError(api) => (
            Failure::of_api_error(api),
            String::from_str(api.message()),
        ),
        ServerFnError::ServerError(m) => {
            let (f, rest) = classify(m.as_str());
            (f, String::from_str(rest))
        },
        ServerFnError::Other(t) => {
            let (f, rest) = classify(t.as_str());
            (f, String::from_str(rest))
        },
    }
}

/// The badge variants the state tones map onto.
#[derive(Clone, Copy, Debug, PartialEq, Eq)]
pub enum BadgeVariant {
    Default,
    Secondary,
    Accent,
    Muted,
    Destructive,
    Outline,
    Success,
    Warning,
    Info,
}

/// Which kind of not-the-happy-path a surface is in: three claims, three
/// token families.
#[derive(Debug, Clone, Copy, PartialEq, Eq)]
pub enum Tone {
    /// Nothing left to do: the `success` family.
    Resolved,
    /// Some of this surface is missing, the rest works: the `warning` family.
    Partial,
    /// Real, but not the answer to the current question: the `info` family.
    Stale,
}

impl Tone {
    /// The token family.
    pub fn variant(self) -> (v: BadgeVariant)
        ensures
            v == match self {
                Tone::Resolved => BadgeVariant::Success,
                Tone::Partial => BadgeVariant::Warning,
                Tone::Stale => BadgeVariant::Info,
            },
    {
        match self {
            Tone::Resolved => BadgeVariant::Success,
            Tone::Partial => BadgeVariant::Warning,
            Tone::Stale => BadgeVariant::Info,
        }
    }

    /// The `data-tone` value.
    pub fn slug(self) -> (s: &'static str)
        ensures
            s@ == match self {
                Tone::Resolved => "resolved"@,
                Tone::Partial => "partial"@,
                Tone::Stale => "stale"@,
            },
    {
        match self {
            Tone::Resolved => "resolved",
            Tone::Partial => "partial",
            Tone::Stale => "stale",
        }
    }
}

/// The error note's sentence: an expired session says so; a missing thing
/// says it may have been deleted (its detail is a bare noun); anything else
/// names what failed and why.
pub open spec fn note_message_spec(f: Failure, what: Seq<char>, detail: Seq<char>) -> Seq<char> {
    match f {
        Failure::Session => "Your session has expired."@,
        Failure::Missing => what + " \u{2014} it may have been deleted."@,
        _ => what + ": "@ + detail,
    }
}

/// The error note's sentence.
pub fn note_message(f: Failure, what: &str, detail: &str) -> (m: String)
    ensures
        m@ == note_message_spec(f, what@, detail@),
{
    match f {
        Failure::Session => String::from_str("Your session has expired."),
        Failure::Missing => {
            let mut m = String::from_str(what);
            push_str(&mut m, " \u{2014} it may have been deleted.");
            m
        },
        _ => {
            let mut m = String::from_str(what);
            push_str(&mut m, ": ");
            push_str(&mut m, detail);
            proof {
                assert(m@ =~= what@ + ": "@ + detail@);
            }
            m
        },
    }
}

/// The note's affordances: a retry only where one could help (and the page
/// offered one), and a sign-in link only for an expired session.
pub fn note_affordances(f: Failure, has_retry: bool) -> (r: (bool, bool))
    ensures
        r.0 == (has_retry && f == Failure::Transport),
        r.1 == (f == Failure::Session),
{
    (has_retry && f.retryable(), f == Failure::Session)
}

/// Only transport breakage is worth a retry: every other class re-fails
/// identically, so a retry would be a dead end dressed as an affordance.
pub proof fn law_only_transport_is_retryable(raw: Seq<char>)
    ensures
        (classify_spec(raw).0 == Failure::Transport) <==> !(starts_with(raw, "not found: "@)
            || starts_with(raw, "conflict: "@) || starts_with(raw, "forbidden: "@) || starts_with(
            raw,
            "validation: "@,
        ) || starts_with(raw, "unauthorized: "@)),
{
}

} // verus!
