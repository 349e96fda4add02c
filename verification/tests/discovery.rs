use goose::discovery::{
    discover_enabled_plugins, filter_by_config, is_enabled, project_plugin_dir,
    project_settings_path, settings_files, user_settings_path, DiscoveredPlugin, Discovery,
    PluginScope, PluginSettings, SettingsScope,
};

fn dirs(names: &[&str]) -> Vec<(String, String)> {
    names
        .iter()
        .map(|n| (n.to_string(), format!("{}/{}", project_plugin_dir("/project"), n)))
        .collect()
}

fn settings(enabled: &[&str], disabled: &[&str]) -> PluginSettings {
    PluginSettings {
        enabled: enabled.iter().map(|s| s.to_string()).collect(),
        disabled: disabled.iter().map(|s| s.to_string()).collect(),
    }
}

fn discover(names: &[&str], scoped: Vec<(SettingsScope, PluginSettings)>) -> Discovery {
    discover_enabled_plugins(&dirs(names), &vec![], &scoped, vec![])
}

fn names(d: &Discovery) -> Vec<String> {
    d.plugins.iter().map(|p| p.name.clone()).collect()
}

#[test]
fn finds_project_scope_plugin() {
    let found = discover(&["demo"], vec![]);
    assert!(names(&found).contains(&"demo".to_string()));
    assert_eq!(found.plugins[0].scope, PluginScope::Project);
    assert_eq!(found.plugins[0].root, "/project/.agents/plugins/demo");
}

#[test]
fn disabled_in_project_settings_drops_plugin() {
    let found = discover(&["demo"], vec![(SettingsScope::Project, settings(&[], &["demo"]))]);
    assert!(found.plugins.iter().all(|p| p.name != "demo"));
}

#[test]
fn explicit_enabled_filters_out_unlisted_plugins() {
    let found =
        discover(&["demo", "other"], vec![(SettingsScope::Project, settings(&["demo"], &[]))]);
    assert!(names(&found).contains(&"demo".to_string()));
    assert!(names(&found).contains(&"other".to_string()));
}

#[test]
fn local_scope_overrides_project_scope() {
    let found = discover(
        &["demo"],
        vec![
            (SettingsScope::Local, settings(&["demo"], &[])),
            (SettingsScope::Project, settings(&[], &["demo"])),
        ],
    );
    assert!(found.plugins.iter().any(|p| p.name == "demo"));
}

#[test]
fn project_scope_overrides_user_scope() {
    let found = discover(
        &["demo"],
        vec![
            (SettingsScope::Project, settings(&["demo"], &[])),
            (SettingsScope::User, settings(&[], &["demo"])),
        ],
    );
    assert!(found.plugins.iter().any(|p| p.name == "demo"));
}

#[test]
fn newly_discovered_plugin_is_added_to_config_as_enabled() {
    let found = discover(&["demo"], vec![]);
    assert!(found.plugins.iter().any(|p| p.name == "demo"));
    assert!(found.dirty);
    assert_eq!(
        found.entries,
        vec![("/project/.agents/plugins/demo".to_string(), true)]
    );
}

#[test]
fn disabled_in_config_drops_plugin() {
    let entries = vec![("/project/.agents/plugins/demo".to_string(), false)];
    let found = discover_enabled_plugins(&dirs(&["demo"]), &vec![], &vec![], entries);
    assert!(found.plugins.iter().all(|p| p.name != "demo"));
    assert!(!found.dirty);
}

#[test]
fn enabled_in_config_keeps_plugin_without_modifying_config() {
    let entries = || vec![("/project/.agents/plugins/demo".to_string(), true)];
    let found = discover_enabled_plugins(&dirs(&["demo"]), &vec![], &vec![], entries());
    assert!(found.plugins.iter().any(|p| p.name == "demo"));
    assert!(!found.dirty);
    assert_eq!(found.entries, entries());
}

#[test]
fn project_plugins_hide_those_of_the_user() {
    let user = vec![("demo".to_string(), "/home/demo".to_string()), ("mine".to_string(), "/home/mine".to_string())];
    let found = discover_enabled_plugins(&dirs(&["demo"]), &user, &vec![], vec![]);
    assert_eq!(names(&found), vec!["demo", "mine"]);
    assert_eq!(found.plugins[0].scope, PluginScope::Project);
    assert_eq!(found.plugins[1].scope, PluginScope::User);
}

#[test]
fn unnamed_plugins_are_on() {
    assert!(is_enabled("x", &vec![]));
    assert!(is_enabled("x", &vec![(SettingsScope::User, settings(&[], &["y"]))]));
    assert!(!is_enabled("y", &vec![(SettingsScope::User, settings(&[], &["y"]))]));
}

#[test]
fn settings_are_read_from_far_to_near() {
    assert_eq!(project_settings_path("/p", false), "/p/.config/goose/settings.json");
    assert_eq!(project_settings_path("/p", true), "/p/.config/goose/settings.local.json");
    let user = user_settings_path(&None, &Some("/home/u".to_string()));
    let files = settings_files(&Some("/p".to_string()), &user);
    let scopes: Vec<SettingsScope> = files.iter().map(|(s, _)| *s).collect();
    assert_eq!(scopes, vec![SettingsScope::User, SettingsScope::Project, SettingsScope::Local]);
    assert!(settings_files(&None, &None).is_empty());
}

#[test]
fn the_configuration_decides_by_root() {
    let plugin = |name: &str| DiscoveredPlugin {
        name: name.to_string(),
        root: format!("/r/{name}"),
        scope: PluginScope::User,
    };
    let d = filter_by_config(
        vec![plugin("a"), plugin("b")],
        vec![("/r/a".to_string(), false)],
    );
    assert_eq!(names(&d), vec!["b"]);
    assert!(d.dirty);
    assert_eq!(d.entries.len(), 2);
}
