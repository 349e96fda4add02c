use goose::providers::{
    clear_active_provider, get_active_model, get_active_provider, get_provider_entry,
    parse_providers_map, set_active_provider, set_provider_entry, ProviderEntry, ProvidersConfig,
    RawEntry,
};

fn new_test_config() -> ProvidersConfig {
    ProvidersConfig::new(&vec![], None, None, None)
}

#[test]
fn test_set_and_get_provider_entry() {
    let mut config = new_test_config();
    let entry = ProviderEntry { enabled: true, model: "gpt-4o".to_string(), configured: true };
    set_provider_entry(&mut config, "openai", &entry);
    let loaded = get_provider_entry(&config, "openai").unwrap();
    assert!(loaded.enabled);
    assert_eq!(loaded.model, "gpt-4o");
    assert!(loaded.configured);
}

#[test]
fn test_set_active_provider_writes_structured_keys() {
    let mut config = new_test_config();
    set_active_provider(&mut config, "agent-acp", "current");
    assert_eq!(config.active_provider.as_deref(), Some("agent-acp"));
    let entry = get_provider_entry(&config, "agent-acp").unwrap();
    assert!(entry.enabled);
    assert!(entry.configured);
    assert_eq!(entry.model, "current");
}

#[test]
fn test_clear_active_provider_preserves_provider_entries() {
    let mut config = new_test_config();
    set_active_provider(&mut config, "openai", "gpt-4o");
    clear_active_provider(&mut config);
    assert!(get_active_provider(&config, &None).is_none());
    let entry = get_provider_entry(&config, "openai").unwrap();
    assert_eq!(entry.model, "gpt-4o");
    assert!(entry.configured);
}

#[test]
fn test_clear_active_provider_removes_legacy_keys() {
    let mut config = ProvidersConfig::new(
        &vec![],
        None,
        Some("anthropic".to_string()),
        Some("sonnet".to_string()),
    );
    clear_active_provider(&mut config);
    assert!(get_active_provider(&config, &None).is_none());
    assert!(get_active_model(&config, &None, &None).is_none());
}

#[test]
fn test_get_active_model_from_provider_entry() {
    let mut config = new_test_config();
    set_active_provider(&mut config, "openai", "gpt-4o");
    assert_eq!(get_active_model(&config, &None, &None), Some("gpt-4o".to_string()));
}

#[test]
fn test_multiple_providers_preserved() {
    let mut config = new_test_config();
    set_active_provider(&mut config, "openai", "gpt-4o");
    set_active_provider(&mut config, "anthropic", "model-3-opus");
    let openai = get_provider_entry(&config, "openai").unwrap();
    assert_eq!(openai.model, "gpt-4o");
    assert!(openai.configured);
    let anthropic = get_provider_entry(&config, "anthropic").unwrap();
    assert_eq!(anthropic.model, "model-3-opus");
    assert!(anthropic.configured);
    assert_eq!(get_active_provider(&config, &None), Some("anthropic".to_string()));
}

#[test]
fn the_environment_wins_over_the_configuration() {
    let mut config = new_test_config();
    set_active_provider(&mut config, "openai", "gpt-4o");
    let provider = Some("ollama".to_string());
    assert_eq!(get_active_provider(&config, &provider), provider);
    assert_eq!(
        get_active_model(&config, &None, &Some("other".to_string())).as_deref(),
        Some("other")
    );
    assert_eq!(get_active_model(&config, &provider, &None), None);
}

#[test]
fn older_keys_come_last() {
    let config = ProvidersConfig::new(
        &vec![],
        None,
        Some("anthropic".to_string()),
        Some("sonnet".to_string()),
    );
    assert_eq!(get_active_provider(&config, &None).as_deref(), Some("anthropic"));
    assert_eq!(get_active_model(&config, &None, &None).as_deref(), Some("sonnet"));
}

fn raw(key: Option<&str>, model: Option<&str>) -> RawEntry {
    RawEntry {
        key: key.map(|k| k.to_string()),
        entry: model.map(|m| ProviderEntry {
            enabled: false,
            model: m.to_string(),
            configured: false,
        }),
    }
}

#[test]
fn entries_keep_their_places() {
    let read = vec![
        raw(Some("b"), Some("1")),
        raw(None, Some("2")),
        raw(Some("x"), None),
        raw(Some("a"), Some("3")),
        raw(Some("b"), Some("4")),
    ];
    assert_eq!(parse_providers_map(&read).len(), 2);
    let config = ProvidersConfig::new(&read, None, None, None);
    let entries: Vec<(String, String)> =
        config.entries().into_iter().map(|(k, e)| (k, e.model)).collect();
    assert_eq!(
        entries,
        vec![("b".to_string(), "4".to_string()), ("a".to_string(), "3".to_string())]
    );
    assert_eq!(get_provider_entry(&config, "x"), None);
}
