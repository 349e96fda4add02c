use goose::declarative_providers::{
    create_custom_provider, custom_provider_file_path, custom_providers_dir, default_requires_auth,
    expand_env_vars, finish_provider_config, generate_api_key_name, generate_id,
    huggingface_declarative_inventory_configured,
    huggingface_declarative_inventory_configured_from_sources, load_custom_providers,
    load_fixed_providers, load_provider, non_empty_string, plan_secret,
    register_declarative_provider, register_declarative_providers, remove_custom_provider,
    resolve_config, should_preserve_thinking_by_default, stored_key_name, update_custom_provider,
    validate_provider_id, ConfigValues, CreateCustomProviderParams, DeclarativeProviderConfig,
    EnvVarConfig, LoadedProvider, ModelInfo, ProviderEngine, ProviderFile, ProviderKind,
    ProviderType,
    SecretChange, UpdateCustomProviderParams,
};

fn no_values() -> ConfigValues {
    ConfigValues { params: vec![], secrets: vec![], flags: vec![] }
}

fn param(name: &str, value: &str) -> ConfigValues {
    ConfigValues {
        params: vec![(name.to_string(), value.to_string())],
        secrets: vec![],
        flags: vec![],
    }
}

fn test_huggingface_config() -> DeclarativeProviderConfig {
    DeclarativeProviderConfig {
        name: "custom_hf".to_string(),
        engine: ProviderEngine::OpenAI,
        display_name: "Custom HF".to_string(),
        description: None,
        api_key_env: String::new(),
        base_url: "https://router.huggingface.co/v1".to_string(),
        models: vec![ModelInfo::named("test/model".to_string())],
        headers: None,
        timeout_seconds: None,
        supports_streaming: Some(true),
        requires_auth: true,
        catalog_provider_id: Some("huggingface".to_string()),
        base_path: None,
        env_vars: None,
        dynamic_models: Some(false),
        skip_canonical_filtering: false,
        model_doc_link: None,
        setup_steps: Vec::new(),
        fast_model: None,
        preserves_thinking: true,
    }
}

#[test]
fn huggingface_inventory_allows_unauthenticated_custom_provider() {
    let mut config = test_huggingface_config();
    config.requires_auth = false;
    assert!(huggingface_declarative_inventory_configured_from_sources(
        &config,
        |_: &str| false,
        || false,
    ));
}

#[test]
fn huggingface_inventory_accepts_provider_specific_key() {
    let mut config = test_huggingface_config();
    config.api_key_env = "CUSTOM_HF_TOKEN".to_string();
    assert!(huggingface_declarative_inventory_configured_from_sources(
        &config,
        |key: &str| key == "CUSTOM_HF_TOKEN",
        || false,
    ));
}

#[test]
fn huggingface_inventory_does_not_fallback_when_explicit_key_is_missing() {
    let mut config = test_huggingface_config();
    config.api_key_env = "CUSTOM_HF_TOKEN".to_string();
    assert!(!huggingface_declarative_inventory_configured_from_sources(
        &config,
        |_: &str| false,
        || true,
    ));
}

#[test]
fn huggingface_inventory_uses_global_token_without_provider_key() {
    let config = test_huggingface_config();
    assert!(huggingface_declarative_inventory_configured_from_sources(
        &config,
        |_: &str| false,
        || true,
    ));
    assert!(!huggingface_declarative_inventory_configured_from_sources(
        &config,
        |_: &str| true,
        || false,
    ));
}

#[test]
fn huggingface_inventory_reads_stored_secrets() {
    let mut config = test_huggingface_config();
    config.api_key_env = "CUSTOM_HF_TOKEN".to_string();
    let stored = vec!["CUSTOM_HF_TOKEN".to_string()];
    assert!(huggingface_declarative_inventory_configured(&config, &stored, false));
    assert!(!huggingface_declarative_inventory_configured(&config, &vec![], true));
    config.api_key_env = String::new();
    assert!(huggingface_declarative_inventory_configured(&config, &vec![], true));
}

#[test]
fn test_custom_openai_provider_missing_preserves_thinking_defaults_true() {
    let json = r#"{
        "name": "custom_reasoning",
        "engine": "openai",
        "display_name": "Custom Reasoning",
        "description": null,
        "api_key_env": "",
        "base_url": "https://example.com/v1",
        "models": [{"name": "reasoning-model", "context_limit": 128000}],
        "headers": null,
        "timeout_seconds": null,
        "supports_streaming": true,
        "requires_auth": false
    }"#;
    let mut config = test_huggingface_config();
    config.name = "custom_reasoning".to_string();
    config.preserves_thinking = false;
    let config = finish_provider_config(config, json).expect("custom provider json should parse");
    assert!(matches!(config.engine, ProviderEngine::OpenAI));
    assert!(config.preserves_thinking);
}

#[test]
fn test_custom_provider_explicit_preserves_thinking_false_is_kept() {
    let json = r#"{
        "name": "custom_strict",
        "engine": "openai",
        "display_name": "Custom Strict",
        "description": null,
        "api_key_env": "",
        "base_url": "https://example.com/v1",
        "models": [{"name": "strict-model", "context_limit": 128000}],
        "headers": null,
        "timeout_seconds": null,
        "supports_streaming": true,
        "requires_auth": false,
        "preserves_thinking": false
    }"#;
    let mut config = test_huggingface_config();
    config.name = "custom_strict".to_string();
    config.preserves_thinking = false;
    let config = finish_provider_config(config, json).expect("custom provider json should parse");
    assert!(matches!(config.engine, ProviderEngine::OpenAI));
    assert!(!config.preserves_thinking);
}

#[test]
fn thinking_is_kept_by_openai_engines() {
    assert!(should_preserve_thinking_by_default(ProviderEngine::OpenAI));
    assert!(!should_preserve_thinking_by_default(ProviderEngine::Anthropic));
    assert!(!should_preserve_thinking_by_default(ProviderEngine::Ollama));
    assert!(default_requires_auth());
    assert!(finish_provider_config(test_huggingface_config(), "{").is_none());
}

#[test]
fn engines_are_known_by_several_names() {
    assert_eq!(ProviderEngine::from_str(" OpenAI "), Ok(ProviderEngine::OpenAI));
    assert_eq!(ProviderEngine::from_str("ollama"), Ok(ProviderEngine::Ollama));
    assert_eq!(ProviderEngine::from_str("ANTHROPIC"), Ok(ProviderEngine::Anthropic));
    assert_eq!(
        ProviderEngine::from_str("other"),
        Err("Invalid provider type: other".to_string())
    );
}

#[test]
fn test_validate_provider_id_rejects_legacy_punctuation_for_new_ids() {
    assert!(validate_provider_id("custom_z.ai").is_err());
}

#[test]
fn ids_are_made_of_plain_characters() {
    assert!(validate_provider_id("custom_my-provider_2").is_ok());
    assert!(validate_provider_id("").is_err());
    assert!(validate_provider_id("custom_../secret").is_err());
}

fn legacy_config(id: &str, display_name: &str) -> DeclarativeProviderConfig {
    let mut config = test_huggingface_config();
    config.name = id.to_string();
    config.display_name = display_name.to_string();
    config.description = Some("legacy provider".to_string());
    config.base_url = "https://example.invalid/v1/chat/completions".to_string();
    config.models = vec![];
    config.requires_auth = false;
    config.catalog_provider_id = None;
    config
}

#[test]
fn test_load_provider_allows_legacy_custom_id_with_punctuation() {
    let loaded =
        load_provider("custom_z.ai", Some(Ok(legacy_config("custom_z.ai", "Z.AI"))), vec![])
            .unwrap();
    assert!(loaded.is_editable);
    assert_eq!(loaded.config.name, "custom_z.ai");
}

fn update_params() -> UpdateCustomProviderParams {
    UpdateCustomProviderParams {
        id: "custom_z.ai".to_string(),
        engine: "openai".to_string(),
        display_name: "Z.AI Updated".to_string(),
        api_url: "https://updated.example.invalid/v1/chat/completions".to_string(),
        api_key: None,
        models: vec!["z-model".to_string()],
        supports_streaming: Some(true),
        headers: None,
        requires_auth: false,
        catalog_provider_id: None,
        base_path: None,
        preserves_thinking: None,
    }
}

#[test]
fn test_update_and_remove_provider_allow_legacy_custom_id_with_punctuation() {
    let loaded =
        load_provider("custom_z.ai", Some(Ok(legacy_config("custom_z.ai", "Z.AI"))), vec![])
            .unwrap();
    let written = update_custom_provider(update_params(), loaded).unwrap().unwrap();
    let updated = load_provider("custom_z.ai", Some(Ok(written)), vec![]).unwrap();
    assert_eq!(updated.config.display_name, "Z.AI Updated");
    assert_eq!(updated.config.models[0].name, "z-model");
    assert_eq!(
        custom_provider_file_path("/config/custom_providers", "custom_z.ai"),
        Ok("/config/custom_providers/custom_z.ai.json".to_string())
    );
    assert_eq!(remove_custom_provider("custom_z.ai", &updated.config), None);
    assert!(load_provider("custom_z.ai", None, vec![]).is_err());
}

#[test]
fn test_load_provider_rejects_path_segments() {
    assert!(load_provider("custom_../secret", None, vec![]).is_err());
    assert!(load_provider("custom_..\\secret", None, vec![]).is_err());
}

#[test]
fn providers_are_looked_up_in_order() {
    let missing = load_provider("none", None, vec![legacy_config("other", "Other")]);
    assert_eq!(missing.unwrap_err(), "Provider not found: none");
    let fixed = load_provider("other", None, vec![legacy_config("other", "Other")]).unwrap();
    assert!(!fixed.is_editable);
    let broken = load_provider("other", Some(Err("bad json".to_string())), vec![]);
    assert_eq!(broken.unwrap_err(), "bad json");
    assert_eq!(
        load_provider("", None, vec![]).unwrap_err(),
        "Invalid provider id: <empty>"
    );
}

#[test]
fn fixed_providers_cannot_be_changed() {
    let loaded = LoadedProvider { config: legacy_config("fixed", "Fixed"), is_editable: false };
    assert_eq!(update_custom_provider(update_params(), loaded), Ok(None));
    let loaded = LoadedProvider { config: legacy_config("x", "X"), is_editable: true };
    let mut params = update_params();
    params.engine = "other".to_string();
    assert_eq!(
        update_custom_provider(params, loaded),
        Err("Invalid provider type: other".to_string())
    );
}

#[test]
fn secrets_follow_the_authentication() {
    let mut params = update_params();
    params.id = "custom_x".to_string();
    let mut existing = legacy_config("custom_x", "X");
    assert_eq!(plan_secret(&params, &existing, false), Ok(SecretChange::Keep));
    existing.api_key_env = generate_api_key_name("custom_x");
    assert_eq!(existing.api_key_env, "CUSTOM_X_API_KEY");
    assert_eq!(
        plan_secret(&params, &existing, false),
        Ok(SecretChange::Delete("CUSTOM_X_API_KEY".to_string()))
    );
    params.requires_auth = true;
    assert_eq!(
        plan_secret(&params, &existing, false),
        Err("apiKey is required when auth is enabled and no secret is stored".to_string())
    );
    assert_eq!(plan_secret(&params, &existing, true), Ok(SecretChange::Keep));
    params.api_key = Some("k".to_string());
    assert_eq!(
        plan_secret(&params, &existing, true),
        Ok(SecretChange::Store("CUSTOM_X_API_KEY".to_string(), "k".to_string()))
    );
    assert_eq!(stored_key_name(&existing, "custom_x"), "CUSTOM_X_API_KEY");
    assert_eq!(
        remove_custom_provider("custom_x", &existing).as_deref(),
        Some("CUSTOM_X_API_KEY")
    );
}

fn env_var(name: &str, required: bool, default: Option<&str>) -> EnvVarConfig {
    EnvVarConfig {
        name: name.to_string(),
        required,
        secret: false,
        primary: None,
        description: None,
        default: default.map(|d| d.to_string()),
    }
}

#[test]
fn test_expand_env_vars_replaces_placeholder() {
    let env_vars = vec![env_var("TEST_EXPAND_HOST", true, None)];
    let values = param("TEST_EXPAND_HOST", "https://example.com/api");
    let result =
        expand_env_vars("${TEST_EXPAND_HOST}/v1/chat/completions", &env_vars, &values).unwrap();
    assert_eq!(result, "https://example.com/api/v1/chat/completions");
}

#[test]
fn test_expand_env_vars_required_missing_errors() {
    let env_vars = vec![env_var("TEST_EXPAND_MISSING", true, None)];
    let result = expand_env_vars("${TEST_EXPAND_MISSING}/path", &env_vars, &no_values());
    assert!(result.is_err());
    assert!(result.unwrap_err().to_string().contains("TEST_EXPAND_MISSING"));
}

#[test]
fn test_expand_env_vars_uses_default_when_missing() {
    let env_vars =
        vec![env_var("TEST_EXPAND_DEFAULT", false, Some("https://fallback.example.com"))];
    let result =
        expand_env_vars("${TEST_EXPAND_DEFAULT}/v1/chat/completions", &env_vars, &no_values())
            .unwrap();
    assert_eq!(result, "https://fallback.example.com/v1/chat/completions");
}

#[test]
fn test_expand_env_vars_no_placeholders_passthrough() {
    let env_vars = vec![env_var("UNUSED_VAR", true, None)];
    let result = expand_env_vars(
        "https://static.example.com/v1/chat/completions",
        &env_vars,
        &no_values(),
    )
    .unwrap();
    assert_eq!(result, "https://static.example.com/v1/chat/completions");
}

#[test]
fn test_expand_env_vars_empty_slice_passthrough() {
    let result = expand_env_vars("${WHATEVER}/path", &vec![], &no_values()).unwrap();
    assert_eq!(result, "${WHATEVER}/path");
}

#[test]
fn test_expand_env_vars_env_value_overrides_default() {
    let env_vars =
        vec![env_var("TEST_EXPAND_OVERRIDE", false, Some("https://from-default.com"))];
    let values = param("TEST_EXPAND_OVERRIDE", "https://from-env.com");
    let result = expand_env_vars("${TEST_EXPAND_OVERRIDE}/path", &env_vars, &values).unwrap();
    assert_eq!(result, "https://from-env.com/path");
}

#[test]
fn optional_variables_without_a_value_stay() {
    let env_vars = vec![env_var("OPTIONAL", false, None)];
    assert_eq!(
        expand_env_vars("${OPTIONAL}/path", &env_vars, &no_values()).unwrap(),
        "${OPTIONAL}/path"
    );
}

#[test]
fn secret_variables_are_looked_up_among_the_secrets() {
    let mut var = env_var("HIDDEN", true, None);
    var.secret = true;
    let values = ConfigValues {
        params: vec![],
        secrets: vec![("HIDDEN".to_string(), "s".to_string())],
        flags: vec![],
    };
    assert_eq!(expand_env_vars("${HIDDEN}", &vec![var], &values).unwrap(), "s");
}

#[test]
fn configurations_are_resolved() {
    let mut config = legacy_config("custom_x", "X");
    config.base_url = "${HOST}/v1".to_string();
    config.env_vars = Some(vec![env_var("HOST", true, None)]);
    assert_eq!(
        resolve_config(&mut config, &no_values()),
        Err("Required environment variable HOST is not set".to_string())
    );
    assert_eq!(resolve_config(&mut config, &param("HOST", "http://h")), Ok(()));
    assert_eq!(config.base_url, "http://h/v1");
}

#[test]
fn made_ids_are_valid_and_free() {
    let first = generate_id("My Provider!", &vec![]);
    assert_eq!(first, "custom_my_provider");
    assert!(validate_provider_id(&first).is_ok());
    let second = generate_id("My Provider!", &vec![first.clone()]);
    assert_ne!(first, second);
    assert!(validate_provider_id(&second).is_ok());
    assert!(custom_provider_file_path("/c", &second).is_ok());
    assert_eq!(custom_providers_dir("/home/u/.config/goose"), "/home/u/.config/goose/custom_providers");
}

fn create_params() -> CreateCustomProviderParams {
    CreateCustomProviderParams {
        engine: "anthropic".to_string(),
        display_name: "My Provider".to_string(),
        api_url: "https://a".to_string(),
        api_key: Some("key".to_string()),
        models: vec!["m".to_string()],
        supports_streaming: None,
        headers: None,
        requires_auth: true,
        catalog_provider_id: None,
        base_path: None,
        preserves_thinking: None,
    }
}

#[test]
fn custom_providers_are_created_with_their_secret() {
    let plan = create_custom_provider(create_params(), &vec![]);
    assert_eq!(
        plan.secret,
        Some(("CUSTOM_MY_PROVIDER_API_KEY".to_string(), "key".to_string()))
    );
    let config = plan.config.unwrap();
    assert_eq!(config.id(), "custom_my_provider");
    assert_eq!(config.display_name(), "My Provider");
    assert_eq!(config.models().len(), 1);
    assert_eq!(config.models()[0].context_limit, 128_000);
    assert_eq!(config.engine, ProviderEngine::Anthropic);
    assert!(!config.preserves_thinking);
}

#[test]
fn unknown_engines_are_not_created() {
    let mut params = create_params();
    params.engine = "steam".to_string();
    let plan = create_custom_provider(params, &vec![]);
    assert_eq!(plan.config, Err("Invalid provider type: steam".to_string()));
}

#[test]
fn empty_texts_count_as_missing() {
    assert_eq!(non_empty_string(Some("".to_string())), None);
    assert_eq!(non_empty_string(Some("a".to_string())).as_deref(), Some("a"));
    assert_eq!(non_empty_string(None), None);
}

#[test]
fn unreadable_fixed_providers_are_left_out() {
    let read = vec![Some(legacy_config("a", "A")), None, Some(legacy_config("b", "B"))];
    let names: Vec<String> = load_fixed_providers(read).into_iter().map(|c| c.name).collect();
    assert_eq!(names, vec!["a".to_string(), "b".to_string()]);
}

#[test]
fn an_unreadable_custom_provider_is_an_error() {
    let good = || ProviderFile::Provider(legacy_config("a", "A"));
    let invalid = || ProviderFile::Invalid("b.json".to_string(), "bad".to_string());
    let unreadable = || ProviderFile::Unreadable("denied".to_string());
    let failed = |read: Vec<ProviderFile>| load_custom_providers(read).unwrap_err();
    assert_eq!(failed(vec![good(), invalid(), unreadable()]), "Failed to parse b.json: bad");
    assert_eq!(failed(vec![good(), unreadable(), invalid()]), "denied");
    assert_eq!(load_custom_providers(vec![good(), good()]).unwrap().len(), 2);
}

#[test]
fn providers_are_registered_by_engine() {
    let r = register_declarative_provider(legacy_config("a", "A"), ProviderType::Custom, false);
    assert_eq!(r.kind, ProviderKind::OpenAi);
    assert_eq!(r.provider_type, ProviderType::Custom);
    let r = register_declarative_provider(test_huggingface_config(), ProviderType::Custom, true);
    assert_eq!(r.kind, ProviderKind::HuggingFace);
    let all = register_declarative_providers(
        vec![(legacy_config("a", "A"), false)],
        vec![(legacy_config("b", "B"), false)],
    );
    assert_eq!(all.len(), 2);
    assert_eq!(all[0].provider_type, ProviderType::Declarative);
    assert_eq!(all[1].provider_type, ProviderType::Custom);
}
