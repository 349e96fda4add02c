use goose::env::{
    add_secret, env_get, merge_environments, next_secret, substitute_env_vars, substitute_places,
    variables_same, SecretLookup,
};

fn vars(pairs: &[(&str, &str)]) -> Vec<(String, String)> {
    pairs.iter().map(|(k, v)| (k.to_string(), v.to_string())).collect()
}

#[test]
fn test_streamable_http_header_env_substitution() {
    let env = vars(&[("AUTH_TOKEN", "secret123"), ("API_KEY", "key456")]);
    assert_eq!(substitute_env_vars("Bearer ${ AUTH_TOKEN }", &env), "Bearer secret123");
    assert_eq!(substitute_env_vars("Bearer ${AUTH_TOKEN}", &env), "Bearer secret123");
    assert_eq!(substitute_env_vars("Bearer $AUTH_TOKEN", &env), "Bearer secret123");
    assert_eq!(
        substitute_env_vars("Key: $API_KEY, Token: ${AUTH_TOKEN}", &env),
        "Key: key456, Token: secret123"
    );
    assert_eq!(substitute_env_vars("Bearer ${UNKNOWN_VAR}", &env), "Bearer ${UNKNOWN_VAR}");
    assert_eq!(
        substitute_env_vars("Authorization: Bearer ${AUTH_TOKEN} and API ${API_KEY}", &env),
        "Authorization: Bearer secret123 and API key456"
    );
}

#[test]
fn test_substitute_env_vars_no_recursive_expansion() {
    let env = vars(&[("TOKEN", "abc$KEY"), ("KEY", "xyz")]);
    assert_eq!(substitute_env_vars("${TOKEN}", &env), "abc$KEY");
    assert_eq!(substitute_env_vars("$TOKEN", &env), "abc$KEY");
}

#[test]
fn filled_in_values_are_not_searched() {
    let env = vars(&[("TOKEN", "abc$KEY"), ("KEY", "xyz")]);
    assert_eq!(substitute_env_vars("${TOKEN} $KEY", &env), "abc$KEY xyz");
    assert_eq!(substitute_env_vars("$KEY ${TOKEN} $KEY", &env), "xyz abc$KEY xyz");
    let env = vars(&[("A", "${B}"), ("B", "$A")]);
    assert_eq!(substitute_env_vars("${A}${B}", &env), "${B}$A");
}

#[test]
fn the_variable_that_is_named_first_wins() {
    let env = vars(&[("A", "1"), ("AB", "2")]);
    assert_eq!(substitute_env_vars("$A $AB", &env), "1 1B");
    assert_eq!(substitute_env_vars("$AB $A", &env), "2 1");
    assert_eq!(substitute_env_vars("$AB", &env), "2");
    assert_eq!(substitute_env_vars("$A $AB", &vars(&[("AB", "2")])), "$A 2");
    assert_eq!(substitute_env_vars("${A} $AB", &env), "1 2");
    assert_eq!(substitute_env_vars("$$A", &env), "$1");
}

#[test]
fn a_variable_in_braces_is_left_to_the_braces() {
    assert_eq!(substitute_env_vars("${A} $A", &vars(&[("A", "1")])), "1 $A");
}

#[test]
fn environments_are_compared_without_their_order() {
    let a = vars(&[("A", "1"), ("B", "2")]);
    assert!(variables_same(&a, &vars(&[("B", "2"), ("A", "1")])));
    assert!(!variables_same(&a, &vars(&[("A", "1")])));
    assert!(!variables_same(&a, &vars(&[("A", "1"), ("B", "3")])));
}

#[test]
fn variables_that_are_not_named_do_not_matter() {
    let few = vars(&[("A", "1")]);
    let more = vars(&[("A", "1"), ("B", "2")]);
    assert_eq!(substitute_env_vars("x $A y", &few), substitute_env_vars("x $A y", &more));
    assert_eq!(substitute_env_vars("no variables", &more), "no variables");
}

#[test]
fn a_match_is_filled_in_wherever_it_stands() {
    let one = || vec![Some("${A}".to_string()), Some("A".to_string())];
    let bare: Vec<Vec<Option<String>>> = vec![];
    let env = vars(&[("A", "1")]);
    assert_eq!(substitute_places("${A}-${A}", &vec![one(), one()], &bare, &env), "1-1");
    assert_eq!(substitute_places("${A}-${A}", &vec![one()], &bare, &env), "1-1");
    assert_eq!(substitute_places("${A}", &vec![one()], &bare, &vars(&[])), "${A}");
}

#[test]
fn own_variables_win_over_secrets() {
    let envs = vars(&[("A", "own")]);
    let keys = vec!["A".to_string(), "B".to_string(), "C".to_string(), "D".to_string()];
    assert_eq!(next_secret(&envs, &keys, 0), Some(1));
    let lookups = vec![
        SecretLookup::Found("ignored".to_string()),
        SecretLookup::Found("stored".to_string()),
        SecretLookup::Missing,
        SecretLookup::NotText,
    ];
    let merged = merge_environments(&envs, &keys, lookups).unwrap();
    assert_eq!(env_get(&merged, "A").as_deref(), Some("own"));
    assert_eq!(env_get(&merged, "B").as_deref(), Some("stored"));
    assert_eq!(env_get(&merged, "C"), None);
    assert_eq!(env_get(&merged, "D"), None);
}

#[test]
fn a_failing_secret_store_is_an_error() {
    let mut env = vars(&[]);
    assert_eq!(
        add_secret(&mut env, "K", SecretLookup::Failed("locked".to_string())),
        Err("Failed to fetch secret 'K' from config: locked".to_string())
    );
    assert!(env.is_empty());
    let r = merge_environments(
        &env,
        &vec!["K".to_string()],
        vec![SecretLookup::Failed("locked".to_string())],
    );
    assert!(r.is_err());
}
