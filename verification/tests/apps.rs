use goose::apps::{
    app_file, app_of_uri, app_page, app_resource_meta, app_to_change, change_text,
    create_app_content_tool, create_prompt, extract_tool_response, iterate_prompt,
    list_app_tools, list_apps_text, list_stored_apps, new_app, read_app_request,
    truncation_error, update_app, update_app_content_tool, AppChange, AppRequest,
    CreateAppContentResponse, GooseApp, ListedApp, UpdateAppContentResponse,
};
use goose::conversation::{Message, MessageContent, Role, ToolCall, ToolRequest};
use goose::json::{parse, Json, Member};

fn object(text: &str) -> Vec<Member> {
    match parse(text) {
        Some(Json::Object(ms)) => ms,
        _ => panic!("no object"),
    }
}

fn content(name: &str) -> CreateAppContentResponse {
    CreateAppContentResponse {
        name: name.to_string(),
        description: "d".to_string(),
        html: "<p>".to_string(),
        width: Some(300),
        height: Some(200),
        resizable: None,
    }
}

fn app(name: &str) -> GooseApp {
    new_app(content(name), "make it".to_string(), false).unwrap()
}

#[test]
fn apps_requests_are_read() {
    assert_eq!(read_app_request("list_apps", &None), Ok(AppRequest::List));
    assert_eq!(
        read_app_request("create_app", &Some(object(r#"{"prd":"p"}"#))),
        Ok(AppRequest::Create { prd: "p".to_string() })
    );
    assert_eq!(
        read_app_request("iterate_app", &Some(object(r#"{"name":"n","feedback":"f"}"#))),
        Ok(AppRequest::Iterate { name: "n".to_string(), feedback: "f".to_string() })
    );
    assert_eq!(
        read_app_request("delete_app", &Some(object(r#"{"name":"n"}"#))),
        Ok(AppRequest::Delete { name: "n".to_string() })
    );
    assert_eq!(read_app_request("create_app", &None), Err("Missing arguments".to_string()));
    assert!(read_app_request("create_app", &Some(vec![])).is_err());
    assert_eq!(read_app_request("x", &None), Err("Unknown tool: x".to_string()));
}

#[test]
fn stored_apps_are_html_files() {
    assert_eq!(app_file("clock"), "clock.html");
    let files = vec!["b.html".to_string(), "x.txt".to_string(), "a.html".to_string()];
    assert_eq!(list_stored_apps(&files), vec!["a", "b"]);
}

#[test]
fn apps_are_found_by_their_address() {
    let a = app("clock");
    assert_eq!(a.uri, "ui://apps/clock");
    assert_eq!(app_of_uri(&a.uri).as_deref(), Some("clock"));
    assert_eq!(app_of_uri("ui://other/clock"), None);
    assert_eq!(a.mcp_servers, vec!["apps"]);
    assert_eq!(
        new_app(content("clock"), "p".to_string(), true),
        Err("App 'clock' already exists (generated name conflicts with existing app).".to_string())
    );
}

#[test]
fn apps_are_listed() {
    let apps = vec![
        ListedApp { name: "clock".to_string(), app: Ok(app("clock")) },
        ListedApp { name: "bad".to_string(), app: Err("broken".to_string()) },
    ];
    assert_eq!(
        list_apps_text(&apps),
        "Found 2 app(s):\n\n- clock (300x200): d\n- bad: (error loading: broken)"
    );
    assert_eq!(
        list_apps_text(&vec![]),
        "No apps found. Create your first app with the create_app tool!"
    );
}

#[test]
fn prompts_hold_the_wishes() {
    assert!(create_prompt("a clock", &vec![]).contains("EXISTING APPS: none"));
    assert!(create_prompt("a clock", &vec!["x".to_string(), "y".to_string()])
        .contains("EXISTING APPS: x, y"));
    let p = iterate_prompt("a clock", "<p>", "bigger");
    assert!(p.starts_with("ORIGINAL PRD:\na clock\n\nCURRENT APP:\n```html\n<p>\n```"));
    assert!(p.contains("FEEDBACK: bigger"));
}

#[test]
fn truncated_answers_are_errors() {
    assert!(truncation_error(false, Some(100), Some(100)).unwrap().contains("generation was truncated"));
    assert!(truncation_error(true, Some(100), Some(100)).unwrap().contains("update was truncated"));
    assert_eq!(truncation_error(false, Some(99), Some(100)), None);
    assert_eq!(truncation_error(false, None, Some(100)), None);
    assert_eq!(truncation_error(false, Some(100), None), None);
}

#[test]
fn answers_are_taken_from_the_tool_call() {
    let call = |name: &str, arguments: Option<Vec<Member>>| {
        Message::new(
            Role::Assistant,
            1,
            vec![
                MessageContent::text("sure".to_string()),
                MessageContent::ToolRequest(ToolRequest {
                    id: "1".to_string(),
                    tool_call: Ok(ToolCall::new(name.to_string(), arguments)),
                    metadata: None,
                    tool_meta: None,
                }),
            ],
        )
    };
    let schema = object(r#"{"properties":{"width":{"type":"integer"}}}"#);
    let readings = object(r#"{"300":300}"#);
    let r = extract_tool_response(
        &call("create_app_content", Some(object(r#"{"width":"300"}"#))),
        "create_app_content",
        &schema,
        &readings,
    )
    .unwrap();
    assert_eq!(Json::Object(r), parse(r#"{"width":300}"#).unwrap());
    assert_eq!(
        extract_tool_response(&call("other", None), "create_app_content", &schema, &readings),
        Err("LLM did not call the required tool: create_app_content".to_string())
    );
    assert_eq!(
        extract_tool_response(
            &call("create_app_content", None),
            "create_app_content",
            &schema,
            &readings
        ),
        Err("Missing tool call parameters".to_string())
    );
}

#[test]
fn apps_are_changed() {
    let mut a = app("clock");
    assert_eq!(app_to_change(&a), Ok(("<p>".to_string(), "make it".to_string())));
    update_app(
        &mut a,
        UpdateAppContentResponse {
            description: "new".to_string(),
            html: "<b>".to_string(),
            prd: "better".to_string(),
            width: None,
            height: Some(500),
            resizable: None,
        },
    );
    assert_eq!(a.description.as_deref(), Some("new"));
    assert_eq!(a.text.as_deref(), Some("<b>"));
    assert_eq!(a.prd.as_deref(), Some("better"));
    let w = a.window_props.as_ref().unwrap();
    assert_eq!(w.height, 500);
    a.text = None;
    assert_eq!(app_to_change(&a), Err("App has no HTML content".to_string()));
    assert_eq!(app_page(a), "No content");
    assert_eq!(app_page(app("x")), "<p>");
}

#[test]
fn changes_are_told() {
    assert_eq!(
        change_text(AppChange::Deleted, "clock"),
        ("Deleted app 'clock'".to_string(), "app_deleted".to_string())
    );
    assert_eq!(change_text(AppChange::Created, "clock").1, "app_created");
    assert_eq!(
        change_text(AppChange::Updated, "clock").0,
        "Updated app 'clock' based on your feedback"
    );
    let meta = Json::Object(app_resource_meta(&app("clock")).unwrap());
    assert_eq!(
        meta.get("window").and_then(|w| w.get("width")).and_then(|n| n.as_u64()),
        Some(300)
    );
}

#[test]
fn tools_are_described() {
    let tools = list_app_tools(vec![], vec![], vec![], vec![]);
    let names: Vec<&str> = tools.iter().map(|t| t.name.as_str()).collect();
    assert_eq!(names, vec!["list_apps", "create_app", "iterate_app", "delete_app"]);
    assert_eq!(create_app_content_tool(vec![]).name, "create_app_content");
    assert_eq!(update_app_content_tool(vec![]).name, "update_app_content");
}
