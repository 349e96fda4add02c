use goose::doctor::{describe_error, developer_extension, doctor_prompt, Doctor, DoctorStep};
use goose::reply_parts::ProviderError;

fn some(s: &str) -> Option<String> {
    Some(s.to_string())
}

#[test]
fn errors_are_explained() {
    let text = String::new;
    assert!(describe_error(&ProviderError::Authentication(text()), "").starts_with("Authentication failed"));
    assert_eq!(
        describe_error(
            &ProviderError::CreditsExhausted { details: text(), top_up_url: some("u") },
            ""
        ),
        "Credits exhausted. Top up at: u"
    );
    assert!(describe_error(&ProviderError::RateLimitExceeded(text()), "").starts_with("Rate limited"));
    assert!(describe_error(&ProviderError::EndpointNotFound(text()), "").starts_with("Model not found"));
    assert!(describe_error(&ProviderError::NetworkError(text()), "").starts_with("Network error"));
    assert!(describe_error(&ProviderError::ServerError(text()), "").starts_with("Provider server error"));
    assert_eq!(describe_error(&ProviderError::Other(text()), "shown"), "shown");
}

#[test]
fn a_healthy_provider_is_left_alone() {
    let (mut d, step) = Doctor::begin(some("p"), some("m"));
    assert_eq!(step, DoctorStep::TestConfigured);
    assert_eq!(d.on_configured_test(None), DoctorStep::Healthy);
}

#[test]
fn three_other_models_are_tried_at_most() {
    let (mut d, _) = Doctor::begin(some("p"), some("m"));
    assert_eq!(d.on_configured_test(some("bad")), DoctorStep::FetchModels);
    let models: Vec<String> = ["m", "a", "b", "c", "d"].iter().map(|s| s.to_string()).collect();
    let mut step = d.on_models(&Some(models));
    let mut tried = vec![];
    while let DoctorStep::TestModel(m) = step {
        tried.push(m);
        step = d.on_model_test(some("bad"));
    }
    assert_eq!(tried, vec!["a", "b", "c"]);
    assert_eq!(step, DoctorStep::ListProviders);
    assert!(!d.tries_provider("p"));
    assert!(d.tries_provider("q"));
    d.on_provider("q", "x");
    assert!(!d.on_provider_test("q", "x", &some("bad")));
    assert!(d.nothing_works_text().contains("No working provider found"));
}

#[test]
fn a_model_that_works_is_switched_to() {
    let (mut d, _) = Doctor::begin(some("p"), some("m"));
    d.on_configured_test(some("bad"));
    assert_eq!(
        d.on_models(&Some(vec!["a".to_string()])),
        DoctorStep::TestModel("a".to_string())
    );
    assert_eq!(d.on_model_test(None), DoctorStep::SwitchModel("a".to_string()));
    assert!(d.switched_model_text("p", "a").contains("switched to **p / a**"));
    assert!(d.switched_provider_text("q", "x").contains("Switched to **q / x**"));
}

#[test]
fn nothing_configured_looks_for_providers() {
    let (mut d, step) = Doctor::begin(None, some("m"));
    assert_eq!(step, DoctorStep::ListProviders);
    assert!(d.tries_provider("q"));
    d.on_provider("q", "x");
    assert!(d.on_provider_test("q", "x", &None));
}

#[test]
fn prompts_hold_what_is_known() {
    let p = doctor_prompt("info", &vec!["a".to_string(), "b".to_string()], "/c", &some("log"), &None);
    assert!(p.contains("Loaded extensions: a, b"));
    assert!(p.contains("Config file: /c"));
    assert!(p.contains("Recent server log:\n```\nlog\n```"));
    assert!(!p.contains("Last LLM request log"));
    assert!(developer_extension("developer", "developer", true).is_none());
    assert_eq!(developer_extension("developer", "developer", false).unwrap().name, "developer");
}
