//! Connecting to an extension over HTTP: headers, and when to ask the user to sign in.

use crate::hooks::pair_texts;
use crate::text::{begins, cat, contains, has_text, lemma_has_text, starts_with, text_opt};
use vstd::prelude::*;
use vstd::string::*;

verus! {

// ---------------------------------------------------------------------------
// Headers
// ---------------------------------------------------------------------------

/// Whether a character can stand in the name of an HTTP header: a letter or a digit of ASCII, or
/// one of the marks.
pub open spec fn header_char(c: char) -> bool {
    let n = c as int;
    ||| 'a' as int <= n <= 'z' as int
    ||| 'A' as int <= n <= 'Z' as int
    ||| '0' as int <= n <= '9' as int
    ||| "!#$%&'*+-.^_`|~"@.contains(c)
}

/// Whether a text is the name of an HTTP header.
pub open spec fn header_name_valid(name: Seq<char>) -> bool {
    0 < name.len() <= 0xffff && forall|i: int| 0 <= i < name.len() ==> header_char(#[trigger] name[i])
}

/// `reqwest::header::HeaderName::try_from`: it takes a text that is not empty and not too long and
/// whose characters can all stand in a name.
#[verifier::external_body]
fn is_header_name(name: &str) -> (r: bool)
    ensures
        r == header_name_valid(name@),
{
    reqwest::header::HeaderName::try_from(name).is_ok()
}

/// Whether a text is the value of an HTTP header: it holds no control character but the tab.
pub open spec fn header_value_valid(value: Seq<char>) -> bool {
    forall|i: int|
        0 <= i < value.len() ==> ((#[trigger] value[i]) as int >= 32 && value[i] as int != 127)
            || value[i] == '\t'
}

/// `reqwest::header::HeaderValue::from_str`: it takes a text whose bytes are neither below the
/// space, but for the tab, nor the delete character. Every byte of a character beyond ASCII is
/// above those.
#[verifier::external_body]
fn is_header_value(value: &str) -> (r: bool)
    ensures
        r == header_value_valid(value@),
{
    reqwest::header::HeaderValue::from_str(value).is_ok()
}

/// A status as it is written, with its reason; nothing where a number is no status.
pub uninterp spec fn status_written(status: u16) -> Option<Seq<char>>;

/// `reqwest::StatusCode::from_u16` and the `Display` of the status: whether a number is a status,
/// and how that is written, depend on the number alone.
#[verifier::external_body]
pub(crate) fn status_text(status: u16) -> (r: Option<String>)
    ensures
        text_opt(r) == status_written(status),
{
    reqwest::StatusCode::from_u16(status).ok().map(|s| s.to_string())
}

/// What is wrong with a header, by whether its name and its value are valid.
pub open spec fn header_error(name: Seq<char>, name_valid: bool, value_valid: bool) -> Option<
    Seq<char>,
> {
    if !name_valid {
        Some("invalid header: "@ + name)
    } else if !value_valid {
        Some("invalid header value: "@ + name)
    } else {
        None
    }
}

/// What is wrong with a header, by whether its name and its value are valid.
pub fn header_problem(name: &str, name_valid: bool, value_valid: bool) -> (r: Option<String>)
    ensures
        crate::text::text_opt(r) == header_error(name@, name_valid, value_valid),
{
    if !name_valid {
        Some(cat("invalid header: ", name))
    } else if !value_valid {
        Some(cat("invalid header value: ", name))
    } else {
        None
    }
}

/// What is wrong with the first header that is not valid.
pub open spec fn headers_error(headers: Seq<(Seq<char>, Seq<char>)>) -> Option<Seq<char>>
    decreases headers.len(),
{
    if headers.len() == 0 {
        None
    } else {
        match header_error(
            headers[0].0,
            header_name_valid(headers[0].0),
            header_value_valid(headers[0].1),
        ) {
            Some(e) => Some(e),
            None => headers_error(headers.skip(1)),
        }
    }
}

/// Whether the headers can be sent; an error tells the first that cannot.
pub fn check_headers(headers: &Vec<(String, String)>) -> (r: Result<(), String>)
    ensures
        match headers_error(pair_texts(headers@)) {
            Some(m) => r matches Err(e) && e@ == m,
            None => r is Ok,
        },
{
    let ghost all = pair_texts(headers@);
    let mut i: usize = 0;
    assert(all.skip(0) =~= all);
    while i < headers.len()
        invariant
            all == pair_texts(headers@),
            i <= headers@.len(),
            headers_error(all) == headers_error(all.skip(i as int)),
        decreases headers@.len() - i,
    {
        assert(all.skip(i as int)[0] == (headers@[i as int].0@, headers@[i as int].1@));
        assert(all.skip(i as int).skip(1) =~= all.skip(i + 1));
        let name_valid = is_header_name(headers[i].0.as_str());
        let value_valid = is_header_value(headers[i].1.as_str());
        if let Some(e) = header_problem(headers[i].0.as_str(), name_valid, value_valid) {
            return Err(e);
        }
        i = i + 1;
    }
    Ok(())
}

// ---------------------------------------------------------------------------
// Failed connections
// ---------------------------------------------------------------------------

/// How a connection failed.
#[derive(Debug, PartialEq, Eq)]
pub enum ConnectFailure {
    /// Not in the transport.
    NotTransport,
    /// The server asked for authentication.
    AuthRequired,
    /// The server answered something else than expected: this.
    UnexpectedResponse(String),
    /// Otherwise in the HTTP transport.
    OtherHttp,
    /// In another transport, with this text.
    Opaque(String),
}

/// Whether a failure means that the user has to sign in.
pub open spec fn needs_sign_in(f: ConnectFailure) -> bool {
    match f {
        ConnectFailure::NotTransport => false,
        ConnectFailure::AuthRequired => true,
        ConnectFailure::UnexpectedResponse(body) => begins(body@, "HTTP 401"@),
        ConnectFailure::OtherHttp => false,
        ConnectFailure::Opaque(text) => has_text(
            text@,
            "unexpected server response: HTTP 401"@,
        ),
    }
}

/// Whether a failure means that the user has to sign in.
pub fn is_oauth_auth_failure(f: &ConnectFailure) -> (r: bool)
    ensures
        r == needs_sign_in(*f),
{
    match f {
        ConnectFailure::NotTransport => false,
        ConnectFailure::AuthRequired => true,
        ConnectFailure::UnexpectedResponse(body) => starts_with(body.as_str(), "HTTP 401"),
        ConnectFailure::OtherHttp => false,
        ConnectFailure::Opaque(text) => contains(
            text.as_str(),
            "unexpected server response: HTTP 401",
        ),
    }
}

/// Whether signing in is worth an attempt after a connection attempt.
pub fn should_attempt_oauth_fallback(failure: &Option<ConnectFailure>) -> (r: bool)
    ensures
        r == (failure matches Some(f) && needs_sign_in(*f)),
{
    match failure {
        Some(f) => is_oauth_auth_failure(f),
        None => false,
    }
}

/// Forgets stored credentials that were refreshed and that the server rejected all the same.
/// `failure` is nothing where it was not the connection that failed. Says whether they were
/// rejected.
pub fn clear_credentials_on_post_refresh_auth_failure(
    stored: &mut Option<String>,
    failure: &Option<ConnectFailure>,
) -> (r: bool)
    ensures
        r == (failure matches Some(f) && needs_sign_in(*f)),
        r ==> *final(stored) is None,
        !r ==> *final(stored) == *old(stored),
        *final(stored) is Some ==> *final(stored) == *old(stored),
{
    let rejected = should_attempt_oauth_fallback(failure);
    if rejected {
        *stored = None;
    }
    rejected
}

// ---------------------------------------------------------------------------
// The steps of a connection
// ---------------------------------------------------------------------------

/// What is to be done next to connect.
#[derive(Clone, Copy, PartialEq, Eq, Structural, Debug)]
pub enum HttpStep {
    /// Connect through the socket; the result is final.
    ConnectSocket,
    /// Refresh the stored credentials.
    Refresh,
    /// Connect with the refreshed credentials.
    ConnectRefreshed,
    /// Forget the stored credentials, then connect without any.
    ForgetThenConnect,
    /// Connect without credentials.
    Connect,
    /// Let the user sign in.
    SignIn,
    /// Connect with the credentials of the user; the result is final.
    ConnectSignedIn,
    /// Report how the connection without credentials ended.
    ReportPlain,
    /// Report how the last connection ended.
    Report,
}

/// How a step ended.
#[derive(Clone, Copy, PartialEq, Eq, Structural, Debug)]
pub enum HttpEvent {
    /// Well.
    Done,
    /// With a failure that means that the user has to sign in.
    AuthFailure,
    /// With another failure.
    Failure,
}

/// The first step.
pub open spec fn begin_with(socket: bool, has_credentials: bool) -> HttpStep {
    if socket {
        HttpStep::ConnectSocket
    } else if has_credentials {
        HttpStep::Refresh
    } else {
        HttpStep::Connect
    }
}

/// How an attempt begins: through the socket where one is given, whatever is stored; else with the
/// stored credentials, and bare only where there are none.
pub proof fn law_how_an_attempt_begins(socket: bool, has_credentials: bool)
    ensures
        begin_with(socket, has_credentials) == HttpStep::ConnectSocket <==> socket,
        begin_with(socket, has_credentials) == HttpStep::Refresh <==> !socket && has_credentials,
        begin_with(socket, has_credentials) == HttpStep::Connect <==> !socket && !has_credentials,
{
}

/// The first step: a socket is used where one is given, and stored credentials are refreshed.
pub fn first_step(socket: bool, has_credentials: bool) -> (r: HttpStep)
    ensures
        r == begin_with(socket, has_credentials),
{
    if socket {
        HttpStep::ConnectSocket
    } else if has_credentials {
        HttpStep::Refresh
    } else {
        HttpStep::Connect
    }
}

/// The step that follows one that ended so.
pub open spec fn next_of(step: HttpStep, event: HttpEvent) -> HttpStep {
    match step {
        HttpStep::ConnectSocket => HttpStep::Report,
        HttpStep::Refresh => if event == HttpEvent::Done {
            HttpStep::ConnectRefreshed
        } else {
            HttpStep::Connect
        },
        HttpStep::ConnectRefreshed => if event == HttpEvent::AuthFailure {
            HttpStep::ForgetThenConnect
        } else {
            HttpStep::Report
        },
        HttpStep::ForgetThenConnect | HttpStep::Connect => if event == HttpEvent::AuthFailure {
            HttpStep::SignIn
        } else {
            HttpStep::Report
        },
        HttpStep::SignIn => if event == HttpEvent::Done {
            HttpStep::ConnectSignedIn
        } else {
            HttpStep::ReportPlain
        },
        HttpStep::ConnectSignedIn => HttpStep::Report,
        HttpStep::ReportPlain => HttpStep::ReportPlain,
        HttpStep::Report => HttpStep::Report,
    }
}

/// The step that follows one that ended so.
pub fn next_step(step: HttpStep, event: HttpEvent) -> (r: HttpStep)
    ensures
        r == next_of(step, event),
{
    match step {
        HttpStep::ConnectSocket => HttpStep::Report,
        HttpStep::Refresh => if event == HttpEvent::Done {
            HttpStep::ConnectRefreshed
        } else {
            HttpStep::Connect
        },
        HttpStep::ConnectRefreshed => if event == HttpEvent::AuthFailure {
            HttpStep::ForgetThenConnect
        } else {
            HttpStep::Report
        },
        HttpStep::ForgetThenConnect => if event == HttpEvent::AuthFailure {
            HttpStep::SignIn
        } else {
            HttpStep::Report
        },
        HttpStep::Connect => if event == HttpEvent::AuthFailure {
            HttpStep::SignIn
        } else {
            HttpStep::Report
        },
        HttpStep::SignIn => if event == HttpEvent::Done {
            HttpStep::ConnectSignedIn
        } else {
            HttpStep::ReportPlain
        },
        HttpStep::ConnectSignedIn => HttpStep::Report,
        HttpStep::ReportPlain => HttpStep::ReportPlain,
        HttpStep::Report => HttpStep::Report,
    }
}

/// Whether a step ends the attempt.
pub open spec fn ends_attempt(step: HttpStep) -> bool {
    step == HttpStep::Report || step == HttpStep::ReportPlain
}

/// How far a step is from the end of the attempt.
pub open spec fn steps_left(step: HttpStep) -> nat {
    match step {
        HttpStep::Refresh => 5,
        HttpStep::ConnectRefreshed => 4,
        HttpStep::ForgetThenConnect => 3,
        HttpStep::Connect => 3,
        HttpStep::SignIn => 2,
        HttpStep::ConnectSignedIn => 1,
        HttpStep::ConnectSocket => 1,
        HttpStep::ReportPlain => 0,
        HttpStep::Report => 0,
    }
}

/// Every attempt ends: each step brings it nearer to its end, whatever happens, so the user is
/// asked to sign in once at most.
pub proof fn law_every_attempt_ends(step: HttpStep, event: HttpEvent)
    requires
        !ends_attempt(step),
    ensures
        steps_left(next_of(step, event)) < steps_left(step),
{
}

/// Stored credentials are forgotten only where the server rejected them after a refresh, and the
/// user is asked to sign in only where the server wants it.
pub proof fn law_credentials_are_kept_unless_rejected(step: HttpStep, event: HttpEvent)
    ensures
        next_of(step, event) == HttpStep::ForgetThenConnect ==> step == HttpStep::ConnectRefreshed
            && event == HttpEvent::AuthFailure,
        next_of(step, event) == HttpStep::SignIn ==> event == HttpEvent::AuthFailure,
        step != HttpStep::ConnectSocket || next_of(step, event) == HttpStep::Report,
{
}

/// Which failures ask the user to sign in: that the server asked for authentication, and that it
/// answered with status 401, in whatever transport. No other failure does.
pub proof fn law_when_to_sign_in(f: ConnectFailure)
    ensures
        f is AuthRequired ==> needs_sign_in(f),
        f is NotTransport || f is OtherHttp ==> !needs_sign_in(f),
        f matches ConnectFailure::UnexpectedResponse(body) ==> (needs_sign_in(f) <==> begins(
            body@,
            "HTTP 401"@,
        )),
        f matches ConnectFailure::Opaque(text) ==> (needs_sign_in(f) <==> has_text(
            text@,
            "unexpected server response: HTTP 401"@,
        )),
{
}

/// A header can be sent where both its name and its value are valid, and what is wrong with another
/// is told by its name.
pub proof fn law_valid_headers_are_sent(name: Seq<char>, name_valid: bool, value_valid: bool)
    ensures
        header_error(name, name_valid, value_valid) is None <==> name_valid && value_valid,
        header_error(name, name_valid, value_valid) matches Some(m) ==> has_text(m, name),
{
    lemma_has_text("invalid header: "@, name, Seq::empty());
    lemma_has_text("invalid header value: "@, name, Seq::empty());
}

/// Headers can be sent exactly where each of them can.
pub proof fn law_every_header_is_checked(headers: Seq<(Seq<char>, Seq<char>)>)
    ensures
        headers_error(headers) is None <==> forall|i: int|
            0 <= i < headers.len() ==> header_name_valid((#[trigger] headers[i]).0)
                && header_value_valid(headers[i].1),
    decreases headers.len(),
{
    if headers.len() > 0 {
        let rest = headers.skip(1);
        law_every_header_is_checked(rest);
        if headers_error(headers) is None {
            assert forall|i: int| 0 <= i < headers.len() implies header_name_valid(
                (#[trigger] headers[i]).0,
            ) && header_value_valid(headers[i].1) by {
                if i > 0 {
                    assert(rest[i - 1] == headers[i]);
                }
            }
        }
        if forall|i: int|
            0 <= i < headers.len() ==> header_name_valid((#[trigger] headers[i]).0)
                && header_value_valid(headers[i].1) {
            assert(header_name_valid(headers[0].0) && header_value_valid(headers[0].1));
            assert forall|i: int| 0 <= i < rest.len() implies header_name_valid(
                (#[trigger] rest[i]).0,
            ) && header_value_valid(rest[i].1) by {
                assert(rest[i] == headers[i + 1]);
            }
        }
    }
}

/// How an attempt goes on. A connection that is made ends it; refreshed credentials are used, and
/// without them the connection is tried bare; a server that wants it has the user sign in, and
/// after that the connection is tried once more. A failed sign-in reports the bare connection.
pub proof fn law_how_an_attempt_goes_on(event: HttpEvent)
    ensures
        next_of(HttpStep::Connect, HttpEvent::Done) == HttpStep::Report,
        next_of(HttpStep::ConnectRefreshed, HttpEvent::Done) == HttpStep::Report,
        next_of(HttpStep::ForgetThenConnect, HttpEvent::Done) == HttpStep::Report,
        next_of(HttpStep::ConnectSignedIn, event) == HttpStep::Report,
        next_of(HttpStep::ConnectSocket, event) == HttpStep::Report,
        next_of(HttpStep::Refresh, event) == HttpStep::ConnectRefreshed <==> event
            == HttpEvent::Done,
        next_of(HttpStep::Refresh, event) == HttpStep::Connect <==> event != HttpEvent::Done,
        next_of(HttpStep::ConnectRefreshed, event) == HttpStep::ForgetThenConnect <==> event
            == HttpEvent::AuthFailure,
        next_of(HttpStep::Connect, event) == HttpStep::SignIn <==> event == HttpEvent::AuthFailure,
        next_of(HttpStep::ForgetThenConnect, event) == HttpStep::SignIn <==> event
            == HttpEvent::AuthFailure,
        next_of(HttpStep::Connect, HttpEvent::Failure) == HttpStep::Report,
        next_of(HttpStep::SignIn, event) == HttpStep::ConnectSignedIn <==> event == HttpEvent::Done,
        next_of(HttpStep::SignIn, event) == HttpStep::ReportPlain <==> event != HttpEvent::Done,
{
}

} // verus!
