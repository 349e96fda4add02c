use goose::extensions::{
    docker_arguments, effective_working_dir, environment_of, is_unprefixed_extension,
    plan_client, python_arguments, python_file_name, resolve_timeout, set_variable,
    ClientPlan, ExtensionConfig, ExtensionKind, StartContext,
};
use goose::json::{parse, Json};
use goose::tools::{plain_tool, PlatformExtension};

fn config(kind: ExtensionKind) -> ExtensionConfig {
    ExtensionConfig {
        key: "ext".to_string(),
        name: "ext".to_string(),
        description: "d".to_string(),
        bundled: None,
        available_tools: vec![],
        kind,
    }
}

fn context() -> StartContext {
    StartContext {
        builtin_known: true,
        container: None,
        session_id: Some("s1".to_string()),
        working_dir: "/work".to_string(),
        python_file: "/tmp/ext.py".to_string(),
    }
}

fn platform() -> ExtensionKind {
    ExtensionKind::Platform { display_name: None }
}

fn frontend() -> ExtensionKind {
    ExtensionKind::Frontend { tools: vec![], instructions: None }
}

fn stdio() -> ExtensionKind {
    ExtensionKind::Stdio {
        cmd: "npx".to_string(),
        args: vec!["server".to_string()],
        envs: vec![("A".to_string(), "1".to_string())],
        env_keys: vec!["B".to_string()],
        timeout: None,
        cwd: None,
    }
}

#[test]
fn timeouts_have_a_default() {
    assert_eq!(resolve_timeout(Some(5), Some(6), 300), 5);
    assert_eq!(resolve_timeout(None, Some(6), 300), 6);
    assert_eq!(resolve_timeout(None, None, 300), 300);
}

#[test]
fn working_directories_have_an_order() {
    let some = |s: &str| Some(s.to_string());
    assert_eq!(effective_working_dir(&some("/a"), &some("/b"), "/c"), "/a");
    assert_eq!(effective_working_dir(&None, &some("/b"), "/c"), "/b");
    assert_eq!(effective_working_dir(&None, &None, "/c"), "/c");
}

#[test]
fn configurations_are_compared_by_what_they_say() {
    assert!(config(stdio()).same(&config(stdio())));
    let mut other = config(stdio());
    other.description = "changed".to_string();
    assert!(!config(stdio()).same(&other));
    assert!(!config(stdio()).same(&config(platform())));
    let http = |headers: Vec<(String, String)>| {
        config(ExtensionKind::StreamableHttp {
            uri: "http://h".to_string(),
            envs: vec![],
            env_keys: vec![],
            headers,
            timeout: None,
            socket: None,
        })
    };
    let a = ("A".to_string(), "1".to_string());
    let b = ("B".to_string(), "2".to_string());
    assert!(http(vec![a.clone(), b.clone()]).same(&http(vec![b.clone(), a.clone()])));
    assert!(!http(vec![a]).same(&http(vec![b])));
    let tool = |schema: &str| match parse(schema) {
        Some(Json::Object(ms)) => plain_tool("t", "d", ms),
        _ => panic!("no object"),
    };
    let front = |schema: &str| {
        config(ExtensionKind::Frontend { tools: vec![tool(schema)], instructions: None })
    };
    assert!(front(r#"{"a":[1,{"x":null}],"b":2}"#).same(&front(r#"{"b":2,"a":[1,{"x":null}]}"#)));
    assert!(!front(r#"{"a":1}"#).same(&front(r#"{"a":2}"#)));
    assert!(!front(r#"{"a":1}"#).same(&front(r#"{"a":1,"b":1}"#)));
    assert!(!front(r#"{"a":1,"b":1}"#).same(&front(r#"{"a":1}"#)));
}

#[test]
fn variables_are_set_once() {
    let env = vec![("A".to_string(), "1".to_string())];
    let set = set_variable(&env, "A", "2");
    assert_eq!(set, vec![("A".to_string(), "2".to_string())]);
    assert_eq!(set_variable(&env, "B", "3").len(), 2);
}

#[test]
fn programs_can_run_in_containers() {
    let env = vec![("A".to_string(), "1".to_string())];
    let args = docker_arguments(&env, "box", "npx", &vec!["x".to_string()]);
    assert_eq!(args, vec!["exec", "-i", "-e", "A=1", "box", "npx", "x"]);
}

#[test]
fn python_code_runs_with_its_dependencies() {
    let args = python_arguments(&vec!["numpy".to_string()], "a.py");
    assert!(args.contains(&"numpy".to_string()));
    assert_eq!(args.last().map(|s| s.as_str()), Some("a.py"));
    assert!(python_file_name("my ext").ends_with(".py"));
}

#[test]
fn environments_belong_to_programs_and_servers() {
    let (envs, keys) = environment_of(&config(stdio())).unwrap();
    assert_eq!(envs.len(), 1);
    assert_eq!(keys, vec!["B"]);
    assert!(environment_of(&config(platform())).is_none());
}

#[test]
fn programs_are_started() {
    let env = vec![("A".to_string(), "1".to_string())];
    match plan_client(&config(stdio()), env, &context(), &vec![]) {
        ClientPlan::Process { program, args, working_dir, .. } => {
            assert_eq!(program, "npx");
            assert_eq!(args, vec!["server"]);
            assert_eq!(working_dir, "/work");
        }
        _ => panic!("no process"),
    }
    let mut boxed = context();
    boxed.container = Some("box".to_string());
    match plan_client(&config(stdio()), vec![], &boxed, &vec![]) {
        ClientPlan::Process { program, .. } => assert_eq!(program, "docker"),
        _ => panic!("no process"),
    }
}

#[test]
fn servers_are_reached_with_filled_headers() {
    let kind = ExtensionKind::StreamableHttp {
        uri: "http://h/$P".to_string(),
        envs: vec![],
        env_keys: vec![],
        headers: vec![("Authorization".to_string(), "Bearer $T".to_string())],
        timeout: None,
        socket: None,
    };
    let env = vec![("T".to_string(), "t0".to_string()), ("P".to_string(), "p0".to_string())];
    match plan_client(&config(kind), env, &context(), &vec![]) {
        ClientPlan::Http { headers, .. } => {
            assert_eq!(headers, vec![("Authorization".to_string(), "Bearer t0".to_string())]);
        }
        _ => panic!("no server"),
    }
}

#[test]
fn old_kinds_are_refused() {
    assert!(matches!(
        plan_client(&config(ExtensionKind::Sse { address: None }), vec![], &context(), &vec![]),
        ClientPlan::Refused(_)
    ));
    assert!(matches!(
        plan_client(&config(frontend()), vec![], &context(), &vec![]),
        ClientPlan::Refused(_)
    ));
}

#[test]
fn builtins_can_be_platform_extensions() {
    let table =
        vec![PlatformExtension { key: "ext".to_string(), unprefixed_tools: true, hidden: false }];
    let builtin = ExtensionKind::Builtin { display_name: None, timeout: None };
    let c = config(builtin);
    assert!(is_unprefixed_extension(&c, &table));
    assert!(!is_unprefixed_extension(&c, &vec![]));
    assert!(matches!(plan_client(&c, vec![], &context(), &table), ClientPlan::Inside));
    assert!(matches!(plan_client(&c, vec![], &context(), &vec![]), ClientPlan::Server));
    let mut unknown = context();
    unknown.builtin_known = false;
    assert!(matches!(plan_client(&c, vec![], &unknown, &vec![]), ClientPlan::Refused(_)));
    let mut some = config(platform());
    some.available_tools = vec!["a".to_string()];
    assert!(some.is_tool_available("a"));
    assert!(!some.is_tool_available("b"));
}
