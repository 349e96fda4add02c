//! Signing up for NanoGPT in the browser.

use crate::http_client::{status_text, status_written};
use crate::providers::{activated, set_active_provider, ProvidersConfig};
use crate::text::{cat3, decimal, decimal_of, has_text, lemma_has_text};
use vstd::prelude::*;
use vstd::string::*;

verus! {

/// The seconds that the user has to sign in.
pub const AUTH_TIMEOUT_SECS: u64 = 180;

/// The seconds between two questions whether the user has signed in.
pub const POLL_INTERVAL_SECS: u64 = 2;

/// What follows from an answer to the question whether the user has signed in.
#[derive(Debug, PartialEq, Eq)]
pub enum PollStep {
    /// The answer holds the key.
    ReadKey,
    /// The user has not signed in yet: ask again.
    AskAgain,
    /// Signing up failed, with this error.
    Fail(String),
}

/// The error for the status of an answer, or nothing where there is none yet.
pub open spec fn poll_error(status: u16, body: Seq<char>) -> Option<Seq<char>> {
    if status == 200 || status == 202 {
        None
    } else if status == 410 {
        Some("Device code has expired - please try again"@)
    } else if status == 409 {
        Some("Device code has already been consumed"@)
    } else if status == 404 {
        Some("Invalid device code"@)
    } else if status == 429 {
        Some("Too many requests to NanoGPT. Please wait a moment and try again."@)
    } else {
        Some("Unexpected poll response: "@ + decimal(status as nat) + " - "@ + body)
    }
}

/// What follows from an answer, by its status and its text.
pub fn on_poll_answer(status: u16, body: &str) -> (r: PollStep)
    ensures
        match r {
            PollStep::ReadKey => status == 200,
            PollStep::AskAgain => status == 202,
            PollStep::Fail(e) => poll_error(status, body@) == Some(e@),
        },
{
    if status == 200 {
        PollStep::ReadKey
    } else if status == 202 {
        PollStep::AskAgain
    } else if status == 410 {
        PollStep::Fail("Device code has expired - please try again".to_owned())
    } else if status == 409 {
        PollStep::Fail("Device code has already been consumed".to_owned())
    } else if status == 404 {
        PollStep::Fail("Invalid device code".to_owned())
    } else if status == 429 {
        PollStep::Fail(
            "Too many requests to NanoGPT. Please wait a moment and try again.".to_owned(),
        )
    } else {
        let n = decimal_of(status as u64);
        let mut text = cat3("Unexpected poll response: ", n.as_str(), " - ");
        text.append(body);
        PollStep::Fail(text)
    }
}

/// The error where signing up could not be started: `status` is the status as it is written.
pub fn start_error(success: bool, status: &str, body: &str) -> (r: Option<String>)
    ensures
        crate::text::text_opt(r) == if success {
            None
        } else {
            Some("Failed to start NanoGPT device flow: "@ + status@ + " - "@ + body@)
        },
{
    if success {
        None
    } else {
        let mut text = cat3("Failed to start NanoGPT device flow: ", status, " - ");
        text.append(body);
        Some(text)
    }
}

/// What follows from the answer to the request to sign up.
#[derive(Debug, PartialEq, Eq)]
pub enum StartStep {
    /// The answer holds the code.
    ReadCode,
    /// Signing up could not be started, with this error.
    Fail(String),
}

/// What follows from the answer to the request to sign up, by its status and its text. Nothing
/// where the number is no status.
pub fn on_start_answer(status: u16, body: &str) -> (r: Option<StartStep>)
    ensures
        match status_written(status) {
            Some(t) => if 200 <= status < 300 {
                r == Some(StartStep::ReadCode)
            } else {
                r matches Some(StartStep::Fail(e)) && e@ == "Failed to start NanoGPT device flow: "@
                    + t + " - "@ + body@
            },
            None => r is None,
        },
{
    match status_text(status) {
        Some(t) => match start_error(200 <= status && status < 300, t.as_str(), body) {
            Some(e) => Some(StartStep::Fail(e)),
            None => Some(StartStep::ReadCode),
        },
        None => None,
    }
}

/// How signing up ended: with a key, with an error, or by time running out.
pub fn auth_result(ended: Option<Result<String, String>>) -> (r: Result<String, String>)
    ensures
        match ended {
            Some(e) => r == e,
            None => r matches Err(e) && e@ == "Authentication timed out - please try again"@,
        },
{
    match ended {
        Some(e) => e,
        None => Err("Authentication timed out - please try again".to_owned()),
    }
}

/// The secret to store for NanoGPT, with the name that it is stored under.
pub fn nanogpt_secret(api_key: String) -> (r: (String, String))
    ensures
        r.0@ == "NANOGPT_API_KEY"@,
        r.1 == api_key,
{
    ("NANOGPT_API_KEY".to_owned(), api_key)
}

/// Makes NanoGPT the active provider, where `stored` is what storing its secret came to. Where the
/// secret could not be stored, the configuration stays as it is.
pub fn configure_nanogpt(
    config: &mut ProvidersConfig,
    stored: Result<(), String>,
    provider_name: &str,
    default_model: &str,
) -> (r: Result<(), String>)
    ensures
        match stored {
            Ok(_) => {
                &&& r is Ok
                &&& final(config)@ == activated(old(config)@, provider_name@, default_model@)
            },
            Err(m) => {
                &&& r matches Err(e)
                &&& e@ == m@
                &&& *final(config) == *old(config)
            },
        },
{
    match stored {
        Ok(_) => {
            set_active_provider(config, provider_name, default_model);
            Ok(())
        },
        Err(m) => Err(m),
    }
}

/// Which answers end signing up with an error: all but that the key is there and that the user has
/// not signed in yet. An answer that nobody expects is told with its status and its text.
pub proof fn law_which_answers_fail(status: u16, body: Seq<char>)
    ensures
        poll_error(status, body) is None <==> status == 200 || status == 202,
        status != 200 && status != 202 && status != 404 && status != 409 && status != 410 && status
            != 429 ==> (poll_error(status, body) matches Some(e) && has_text(e, body) && has_text(
            e,
            decimal(status as nat),
        )),
{
    let a = "Unexpected poll response: "@;
    let n = decimal(status as nat);
    lemma_has_text(a, n, " - "@ + body);
    assert(a + n + (" - "@ + body) =~= a + n + " - "@ + body);
    lemma_has_text(a + n + " - "@, body, Seq::empty());
}

} // verus!
