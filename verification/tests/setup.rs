use goose::conversation::ToolOutput;
use goose::json::{parse, Json, Member};
use goose::providers::{
    get_active_model, get_active_provider, get_provider_entry, set_active_provider, ProvidersConfig,
};
use goose::signup_nanogpt::{
    auth_result, configure_nanogpt, nanogpt_secret, on_poll_answer, on_start_answer, start_error,
    PollStep, StartStep, AUTH_TIMEOUT_SECS, POLL_INTERVAL_SECS,
};
use goose::tls::provider_tls_config_from_config;
use goose::tool_args::{call_result, extract_string, optional_string, with_properties};

fn some(s: &str) -> Option<String> {
    Some(s.to_string())
}

fn object(text: &str) -> Vec<Member> {
    match parse(text) {
        Some(Json::Object(ms)) => ms,
        _ => panic!("no object"),
    }
}

#[test]
fn certificates_come_with_their_keys() {
    assert_eq!(provider_tls_config_from_config(&None, &None, &None), Ok(None));
    let both = provider_tls_config_from_config(&some("c"), &some("k"), &None).unwrap().unwrap();
    assert_eq!(both.client_cert_and_key, Some(("c".to_string(), "k".to_string())));
    assert_eq!(both.ca_cert, None);
    let ca = provider_tls_config_from_config(&None, &None, &some("ca")).unwrap().unwrap();
    assert_eq!(ca.client_cert_and_key, None);
    assert_eq!(ca.ca_cert.as_deref(), Some("ca"));
    assert!(provider_tls_config_from_config(&some("c"), &None, &None)
        .unwrap_err()
        .contains("no private key"));
    assert!(provider_tls_config_from_config(&None, &some("k"), &None)
        .unwrap_err()
        .contains("no certificate"));
}

#[test]
fn sign_ups_are_polled() {
    assert_eq!(on_poll_answer(200, ""), PollStep::ReadKey);
    assert_eq!(on_poll_answer(202, ""), PollStep::AskAgain);
    assert!(matches!(on_poll_answer(429, ""), PollStep::Fail(_)));
    match on_poll_answer(500, "oops") {
        PollStep::Fail(t) => assert!(t.starts_with("Unexpected poll response: ")),
        _ => panic!("no failure"),
    }
    assert_eq!(start_error(true, "200 OK", ""), None);
    assert_eq!(
        start_error(false, "500", "oops").as_deref(),
        Some("Failed to start NanoGPT device flow: 500 - oops")
    );
    assert_eq!(on_start_answer(200, ""), Some(StartStep::ReadCode));
    assert_eq!(
        on_start_answer(404, "gone"),
        Some(StartStep::Fail(
            "Failed to start NanoGPT device flow: 404 Not Found - gone".to_string()
        ))
    );
    assert_eq!(on_start_answer(42, ""), None);
    assert_eq!(
        auth_result(None),
        Err("Authentication timed out - please try again".to_string())
    );
    assert_eq!(auth_result(Some(Ok("k".to_string()))), Ok("k".to_string()));
    assert_eq!(AUTH_TIMEOUT_SECS, 180);
    assert_eq!(POLL_INTERVAL_SECS, 2);
}

#[test]
fn signing_up_makes_the_provider_active() {
    let mut config = ProvidersConfig::new(&vec![], None, None, None);
    assert_eq!(
        nanogpt_secret("k".to_string()),
        ("NANOGPT_API_KEY".to_string(), "k".to_string())
    );
    assert_eq!(configure_nanogpt(&mut config, Ok(()), "nano-gpt", "m"), Ok(()));
    assert_eq!(get_active_provider(&config, &None).as_deref(), Some("nano-gpt"));
    assert_eq!(get_active_model(&config, &None, &None).as_deref(), Some("m"));
    let entry = get_provider_entry(&config, "nano-gpt").unwrap();
    assert!(entry.enabled && entry.configured);
    assert_eq!(entry.model, "m");
}

#[test]
fn a_secret_that_cannot_be_stored_changes_nothing() {
    let mut config = ProvidersConfig::new(&vec![], None, None, None);
    set_active_provider(&mut config, "openai", "gpt");
    let failed = configure_nanogpt(&mut config, Err("locked".to_string()), "nano-gpt", "m");
    assert_eq!(failed, Err("locked".to_string()));
    assert_eq!(get_active_provider(&config, &None).as_deref(), Some("openai"));
    assert!(get_provider_entry(&config, "nano-gpt").is_none());
}

#[test]
fn arguments_are_texts() {
    let args = object(r#"{"a":"x","b":1}"#);
    assert_eq!(extract_string(&args, "a"), Ok("x".to_string()));
    assert!(extract_string(&args, "b").is_err());
    assert!(extract_string(&args, "c").is_err());
    assert_eq!(optional_string(&args, "a").as_deref(), Some("x"));
    assert_eq!(optional_string(&args, "b"), None);
}

#[test]
fn schemas_have_properties() {
    let s = with_properties(object(r#"{"type":"object"}"#));
    assert_eq!(Json::Object(s).get("properties"), Some(&Json::Object(vec![])));
    let s = with_properties(object(r#"{"properties":{"a":{}}}"#));
    assert_eq!(s.len(), 1);
}

#[test]
fn failed_calls_say_so() {
    assert_eq!(call_result(Err("no".to_string())), ToolOutput::error("Error: no".to_string()));
    let fine = || ToolOutput::success("yes".to_string());
    assert_eq!(call_result(Ok(fine())), fine());
    assert_eq!(ToolOutput::error("x".to_string()).is_error, Some(true));
}
