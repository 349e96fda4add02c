use goose::extensions::ExtensionKind;
use goose::json::parse;
use goose::mcp_servers::{
    document_to_extension_configs, enabled_plugin_mcp_servers, is_inline_config, mcp_config_paths,
    server_to_extension_config, validate_mcp_servers_manifest_value, validate_servers,
    McpServerConfig, PluginServer, ServerDefaults,
};

fn server(command: &str, args: &[&str]) -> McpServerConfig {
    McpServerConfig {
        command: command.to_string(),
        args: args.iter().map(|a| a.to_string()).collect(),
        env: vec![],
        cwd: None,
    }
}

fn defaults() -> ServerDefaults {
    ServerDefaults { description: "plugin server".to_string(), timeout: 300 }
}

#[test]
fn loads_default_mcp_json_with_plugin_root_expansion() {
    let mut database =
        server("${PLUGIN_ROOT}/servers/db-server", &["--config", "${PLUGIN_ROOT}/config.json"]);
    database.env = vec![("DB_PATH".to_string(), "${PLUGIN_ROOT}/data".to_string())];
    database.cwd = Some("${PLUGIN_ROOT}".to_string());
    let configs = document_to_extension_configs(
        "test-plugin",
        "/plugin",
        &vec![("database".to_string(), database)],
        &defaults(),
    );
    assert_eq!(configs.len(), 1);
    assert_eq!(configs[0].name, "test-plugin:database");
    assert_eq!(configs[0].cmd, "/plugin/servers/db-server");
    assert_eq!(configs[0].args, vec!["--config", "/plugin/config.json"]);
    assert_eq!(
        configs[0].envs,
        vec![
            ("PLUGIN_ROOT".to_string(), "/plugin".to_string()),
            ("DB_PATH".to_string(), "/plugin/data".to_string())
        ]
    );
    assert_eq!(configs[0].cwd.as_deref(), Some("/plugin"));
    assert_eq!(configs[0].timeout, 300);
}

#[test]
fn loads_inline_manifest_mcp_servers() {
    let value = parse(r#"{ "api": {"command": "npx", "args": ["@company/mcp-server"]} }"#).unwrap();
    assert!(is_inline_config(&value));
    let configs = document_to_extension_configs(
        "test-plugin",
        "/plugin",
        &vec![("api".to_string(), server("npx", &["@company/mcp-server"]))],
        &defaults(),
    );
    assert_eq!(configs.len(), 1);
    assert_eq!(configs[0].name, "test-plugin:api");
}

#[test]
fn manifest_paths_supplement_default_config() {
    let paths = mcp_config_paths("/plugin", false, &vec!["custom-mcp.json".to_string()]);
    assert_eq!(paths, vec!["/plugin/.mcp.json", "/plugin/custom-mcp.json"]);
    let documents = vec![
        ("/plugin/custom-mcp.json", "custom", "custom-server"),
        ("/plugin/.mcp.json", "default", "default-server"),
    ];
    let mut names: Vec<String> = vec![];
    for path in &paths {
        for (file, name, command) in &documents {
            if path == file {
                let servers = vec![(name.to_string(), server(command, &[]))];
                let configs =
                    document_to_extension_configs("test-plugin", "/plugin", &servers, &defaults());
                names.extend(configs.into_iter().map(|c| c.name));
            }
        }
    }
    assert_eq!(names, vec!["test-plugin:default", "test-plugin:custom"]);
    assert_eq!(
        mcp_config_paths("/plugin", true, &vec!["custom-mcp.json".to_string()]),
        vec!["/plugin/custom-mcp.json"]
    );
}

#[test]
fn paths_are_read_once() {
    let twice = vec!["a.json".to_string(), ".mcp.json".to_string(), "a.json".to_string()];
    assert_eq!(
        mcp_config_paths("/plugin", false, &twice),
        vec!["/plugin/.mcp.json", "/plugin/a.json"]
    );
}

#[test]
fn validates_manifest_mcp_servers_value() {
    let inline = parse(r#"{ "api": {"command": "npx"} }"#).unwrap();
    validate_mcp_servers_manifest_value(
        &inline,
        Ok(vec![("api".to_string(), server("npx", &[]))]),
        Ok(()),
    )
    .unwrap();
    let paths = parse(r#"{ "paths": ["./mcp.json"], "exclusive": true }"#).unwrap();
    assert!(!is_inline_config(&paths));
    validate_mcp_servers_manifest_value(&paths, Err("no servers".to_string()), Ok(())).unwrap();
    assert!(validate_mcp_servers_manifest_value(
        &paths,
        Err("no servers".to_string()),
        Err("outside".to_string())
    )
    .is_err());
}

#[test]
fn rejects_inline_mcp_server_with_empty_command() {
    let value = parse(r#"{ "api": {"command": ""} }"#).unwrap();
    let error = validate_mcp_servers_manifest_value(
        &value,
        Ok(vec![("api".to_string(), server("", &[]))]),
        Ok(()),
    )
    .unwrap_err();
    assert!(error.contains("command must not be empty"));
    assert!(validate_servers(&vec![("a".to_string(), server("", &[]))]).is_err());
    assert!(validate_servers(&vec![]).is_ok());
}

#[test]
fn servers_become_extensions() {
    let one = server_to_extension_config("p", "/plugin", "s", &server("npx", &["x"]), &defaults());
    let allowed = vec![("PLUGIN_ROOT".to_string(), "/plugin".to_string())];
    let config = one.into_config("ps".to_string(), allowed);
    assert_eq!(config.bundled, Some(false));
    assert_eq!(config.name, "p:s");
    assert_eq!(config.key, "ps");
    match config.kind {
        ExtensionKind::Stdio { cmd, args, envs, timeout, .. } => {
            assert_eq!(cmd, "npx");
            assert_eq!(envs.len(), 1);
            assert_eq!(args, vec!["x"]);
            assert_eq!(timeout, Some(300));
        }
        _ => panic!("no program"),
    }
}

#[test]
fn broken_plugins_are_left_out() {
    let one = || -> Vec<PluginServer> {
        vec![server_to_extension_config("p", "/plugin", "s", &server("npx", &[]), &defaults())]
    };
    let all = enabled_plugin_mcp_servers(vec![Ok(one()), Err("bad".to_string()), Ok(one())]);
    assert_eq!(all.len(), 2);
}
