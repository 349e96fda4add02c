use goose::conversation::{ToolCall, ToolRequest};
use goose::permission::{
    decide_call, judge_candidates, level_for, Decision, GooseMode, InspectionAction,
    InspectionResult, PermissionInspector, PermissionLevel, Permissions, Standing,
};
use goose::tools::{plain_tool, Hints, ToolAnnotations};

fn request(id: &str, tool: &str) -> ToolRequest {
    ToolRequest {
        id: id.to_string(),
        tool_call: Ok(ToolCall::new(tool.to_string(), Some(vec![]))),
        metadata: None,
        tool_meta: None,
    }
}

fn inspected(mode: GooseMode, read_only: bool, cached: Option<PermissionLevel>) -> InspectionAction {
    let mut inspector = PermissionInspector::new();
    if read_only {
        inspector.readonly_tools = vec!["tool".to_string()];
    }
    let permissions = Permissions {
        user: vec![],
        smart_approve: cached.map(|l| ("tool".to_string(), l)).into_iter().collect(),
    };
    let requests = vec![request("req", "tool")];
    let r = inspector.inspect(&requests, mode, &permissions, "manage_extensions");
    let mut results = r.results;
    results.extend(judge_candidates(&r.candidates, &vec![]).results);
    assert_eq!(results.len(), 1);
    results.remove(0).action
}

#[test]
fn test_inspect_action() {
    let allow = InspectionAction::Allow;
    let ask = InspectionAction::RequireApproval(None);
    assert_eq!(inspected(GooseMode::Auto, false, None), allow);
    assert_eq!(inspected(GooseMode::SmartApprove, true, None), allow);
    assert_eq!(
        inspected(GooseMode::SmartApprove, false, Some(PermissionLevel::AlwaysAllow)),
        allow
    );
    assert_eq!(inspected(GooseMode::SmartApprove, false, Some(PermissionLevel::AskBefore)), ask);
    assert_eq!(inspected(GooseMode::SmartApprove, false, None), ask);
    assert_eq!(inspected(GooseMode::Approve, false, None), ask);
    assert_eq!(inspected(GooseMode::Approve, false, Some(PermissionLevel::AlwaysAllow)), ask);
}

fn standing() -> Standing {
    Standing { user: None, smart_approve: None, read_only: false, manages_extensions: false }
}

#[test]
fn chats_call_nothing() {
    assert_eq!(decide_call(GooseMode::Chat, standing()), Decision::Ignore);
}

#[test]
fn the_user_comes_first() {
    for mode in [GooseMode::Approve, GooseMode::SmartApprove] {
        let mut s = standing();
        s.read_only = true;
        s.user = Some(PermissionLevel::NeverAllow);
        assert!(matches!(
            decide_call(mode, s),
            Decision::Decided(InspectionAction::Deny, _)
        ));
        let mut s = standing();
        s.user = Some(PermissionLevel::AlwaysAllow);
        assert!(matches!(
            decide_call(mode, s),
            Decision::Decided(InspectionAction::Allow, _)
        ));
    }
}

#[test]
fn managing_extensions_needs_approval() {
    let mut s = standing();
    s.manages_extensions = true;
    match decide_call(GooseMode::SmartApprove, s) {
        Decision::Decided(InspectionAction::RequireApproval(text), reason) => {
            assert!(text.is_some());
            assert_eq!(reason, "Extension management requires user approval");
        }
        _ => panic!("not asked"),
    }
    assert_eq!(decide_call(GooseMode::SmartApprove, standing()), Decision::AskModel);
}

#[test]
fn the_model_is_believed_and_remembered() {
    let candidates = vec![request("1", "reads"), request("2", "writes")];
    let j = judge_candidates(&candidates, &vec!["reads".to_string()]);
    assert_eq!(j.results[0].action, InspectionAction::Allow);
    assert_eq!(j.results[0].reason, "LLM detected as read-only");
    assert_eq!(j.results[1].action, InspectionAction::RequireApproval(None));
    assert_eq!(
        j.learned,
        vec![
            ("reads".to_string(), PermissionLevel::AlwaysAllow),
            ("writes".to_string(), PermissionLevel::AskBefore)
        ]
    );
    assert_eq!(level_for(&j.learned, "reads"), Some(PermissionLevel::AlwaysAllow));
    assert_eq!(level_for(&j.learned, "none"), None);
}

#[test]
fn annotations_make_tools_read_only() {
    let mut inspector = PermissionInspector::new();
    let mut tool = plain_tool("look", "d", vec![]);
    tool.annotations = Some(ToolAnnotations {
        title: None,
        hints: Hints {
            read_only: Some(true),
            destructive: None,
            idempotent: None,
            open_world: None,
        },
    });
    inspector.apply_tool_annotations(&vec![tool, plain_tool("change", "d", vec![])]);
    assert!(inspector.is_readonly_annotated_tool("look"));
    assert!(!inspector.is_readonly_annotated_tool("change"));
    inspector.apply_tool_annotations(&vec![]);
    assert!(!inspector.is_readonly_annotated_tool("look"));
}

fn result(id: &str, action: InspectionAction, inspector: &str) -> InspectionResult {
    InspectionResult {
        tool_request_id: id.to_string(),
        action,
        reason: "r".to_string(),
        inspector_name: inspector.to_string(),
        finding_id: None,
    }
}

#[test]
fn every_request_is_sorted_once() {
    let inspector = PermissionInspector::new();
    let requests =
        vec![request("a", "x"), request("b", "x"), request("c", "x"), request("d", "x")];
    let results = vec![
        result("a", InspectionAction::Allow, "permission"),
        result("b", InspectionAction::Deny, "permission"),
        result("c", InspectionAction::RequireApproval(None), "permission"),
        result("a", InspectionAction::Deny, "security"),
    ];
    let (sorted, others) = inspector.process_inspection_results(&requests, &results);
    let ids = |v: &Vec<ToolRequest>| -> Vec<String> { v.iter().map(|r| r.id.clone()).collect() };
    assert_eq!(ids(&sorted.approved), vec!["a"]);
    assert_eq!(ids(&sorted.denied), vec!["b"]);
    assert_eq!(ids(&sorted.needs_approval), vec!["c", "d"]);
    assert_eq!(others.len(), 1);
    assert_eq!(others[0].inspector_name, "security");
}
