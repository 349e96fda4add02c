use goose::http_client::{
    check_headers, clear_credentials_on_post_refresh_auth_failure, first_step, header_problem,
    is_oauth_auth_failure, next_step, should_attempt_oauth_fallback, ConnectFailure, HttpEvent,
    HttpStep,
};

#[test]
fn test_oauth_fallback_on_typed_auth_required() {
    assert!(should_attempt_oauth_fallback(&Some(ConnectFailure::AuthRequired)));
}

#[test]
fn test_oauth_fallback_on_unexpected_response_http_401_prefix() {
    let failure = ConnectFailure::UnexpectedResponse("HTTP 401 Unauthorized".to_string());
    assert!(should_attempt_oauth_fallback(&Some(failure)));
}

#[test]
fn other_failures_need_no_sign_in() {
    assert!(!should_attempt_oauth_fallback(&None));
    assert!(!is_oauth_auth_failure(&ConnectFailure::NotTransport));
    assert!(!is_oauth_auth_failure(&ConnectFailure::OtherHttp));
    assert!(!is_oauth_auth_failure(&ConnectFailure::UnexpectedResponse("HTTP 500".to_string())));
    assert!(!is_oauth_auth_failure(&ConnectFailure::UnexpectedResponse(" HTTP 401".to_string())));
    assert!(is_oauth_auth_failure(&ConnectFailure::Opaque(
        "error: unexpected server response: HTTP 401 Unauthorized".to_string()
    )));
    assert!(!is_oauth_auth_failure(&ConnectFailure::Opaque("HTTP 401".to_string())));
}

#[test]
fn test_post_refresh_auth_failure_clears_credentials() {
    let mut stored = Some("rejected-token".to_string());
    let failure = Some(ConnectFailure::AuthRequired);
    assert!(clear_credentials_on_post_refresh_auth_failure(&mut stored, &failure));
    assert!(stored.is_none());
}

#[test]
fn credentials_stay_unless_they_are_rejected() {
    let mut stored = Some("token".to_string());
    assert!(!clear_credentials_on_post_refresh_auth_failure(&mut stored, &None));
    let other = Some(ConnectFailure::OtherHttp);
    assert!(!clear_credentials_on_post_refresh_auth_failure(&mut stored, &other));
    assert_eq!(stored.as_deref(), Some("token"));
    assert_eq!(
        next_step(HttpStep::ConnectRefreshed, HttpEvent::AuthFailure),
        HttpStep::ForgetThenConnect
    );
    assert_eq!(next_step(HttpStep::ConnectRefreshed, HttpEvent::Failure), HttpStep::Report);
    assert_eq!(next_step(HttpStep::Refresh, HttpEvent::Failure), HttpStep::Connect);
}

#[test]
fn every_attempt_ends_after_one_sign_in() {
    let mut step = first_step(false, true);
    let mut sign_ins = 0;
    for _ in 0..6 {
        if step == HttpStep::SignIn {
            sign_ins += 1;
            step = next_step(step, HttpEvent::Done);
        } else if step == HttpStep::Refresh {
            step = next_step(step, HttpEvent::Done);
        } else {
            step = next_step(step, HttpEvent::AuthFailure);
        }
    }
    assert_eq!(step, HttpStep::Report);
    assert_eq!(sign_ins, 1);
}

#[test]
fn a_refused_sign_in_reports_the_plain_connection() {
    assert_eq!(first_step(true, true), HttpStep::ConnectSocket);
    assert_eq!(first_step(false, false), HttpStep::Connect);
    assert_eq!(next_step(HttpStep::Connect, HttpEvent::AuthFailure), HttpStep::SignIn);
    assert_eq!(next_step(HttpStep::SignIn, HttpEvent::Failure), HttpStep::ReportPlain);
    assert_eq!(next_step(HttpStep::ConnectSocket, HttpEvent::AuthFailure), HttpStep::Report);
}

fn header(name: &str, value: &str) -> Vec<(String, String)> {
    vec![(name.to_string(), value.to_string())]
}

#[test]
fn test_invalid_header_name_returns_config_error() {
    let message = check_headers(&header("bad header name", "value")).unwrap_err();
    assert!(message.contains("invalid header"), "unexpected error message: {message}");
    assert_eq!(message, "invalid header: bad header name");
}

#[test]
fn test_invalid_header_value_returns_config_error() {
    let message = check_headers(&header("x-valid-name", "bad\r\nvalue")).unwrap_err();
    assert!(message.contains("invalid header value"), "unexpected error message: {message}");
    assert_eq!(message, "invalid header value: x-valid-name");
}

#[test]
fn valid_headers_pass() {
    assert_eq!(check_headers(&header("X-Custom", "value")), Ok(()));
    assert_eq!(header_problem("a", true, true), None);
    assert_eq!(header_problem("a", false, false).as_deref(), Some("invalid header: a"));
}

#[test]
fn headers_hold_what_they_may() {
    for name in ["a", "X-9", "!#$%&'*+-.^_`|~"] {
        assert_eq!(check_headers(&header(name, "v")), Ok(()));
    }
    for name in ["", "a b", "a:", "é", "a\"", "a(", "a/"] {
        assert!(check_headers(&header(name, "v")).is_err(), "{name}");
    }
    assert_eq!(check_headers(&header(&"n".repeat(65535), "v")), Ok(()));
    assert!(check_headers(&header(&"n".repeat(65536), "v")).is_err());
    for value in ["", "a\tb", "é", "~"] {
        assert_eq!(check_headers(&header("n", value)), Ok(()));
    }
    for value in ["\u{7f}", "\0", "\n", "\u{1f}"] {
        assert!(check_headers(&header("n", value)).is_err());
    }
}
