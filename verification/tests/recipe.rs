use goose::extensions::{ExtensionConfig, ExtensionKind};
use goose::json::parse;
use goose::recipe::{
    activities_from_lines, create_recipe, read_recipe, recipe_from_json, recipe_from_text,
};

#[test]
fn recipes_are_read_from_json() {
    let j = parse(r#"{"name":"n","title":"t","description":"d","instructions":"do","activities":["a","b"]}"#)
        .unwrap();
    let r = recipe_from_json(&j).unwrap();
    assert_eq!(r.instructions, "do");
    assert_eq!(r.activities, vec!["a", "b"]);
    assert!(recipe_from_json(&parse("{}").unwrap()).is_err());
}

#[test]
fn recipes_are_read_from_fences_and_texts() {
    let fenced = "Here:\n```json\n{\"name\":\"n\",\"title\":\"t\",\"description\":\"d\",\"instructions\":\"do\",\"activities\":[\"a\"]}\n```\n";
    assert_eq!(read_recipe(fenced).unwrap().instructions, "do");
    let text = "# instructions:\nDo it well.\n\n# activities:\n- one\n2. two\n\n* three\n";
    let r = recipe_from_text(text);
    assert_eq!(r.instructions, "Do it well.");
    assert_eq!(r.activities, vec!["one", "two", "three"]);
    assert_eq!(r.title, "Custom recipe from chat");
    assert_eq!(read_recipe(text).unwrap(), r);
}

#[test]
fn incomplete_recipes_are_errors() {
    let e = |text: &str| recipe_from_json(&parse(text).unwrap()).unwrap_err();
    assert_eq!(e("{}"), "Missing 'instructions' in json response");
    assert_eq!(e(r#"{"instructions":1}"#), "instructions' is not a string");
    assert_eq!(e(r#"{"instructions":"a"}"#), "Missing 'activities' in json response");
    assert_eq!(e(r#"{"instructions":"a","activities":1}"#), "'activities' is not an array'");
    assert_eq!(
        e(r#"{"instructions":"a","activities":[1]}"#),
        "'activities' array element is not a string"
    );
}

#[test]
fn activities_are_trimmed() {
    let lines = vec!["- one ".to_string(), "".to_string(), "  * two".to_string()];
    for a in activities_from_lines(&lines) {
        assert_eq!(a.trim(), a);
        assert!(!a.is_empty());
    }
}

#[test]
fn recipes_say_what_they_run_with() {
    let extension = || ExtensionConfig {
        key: "todo".to_string(),
        name: "todo".to_string(),
        description: "d".to_string(),
        bundled: None,
        available_tools: vec![],
        kind: ExtensionKind::Platform { display_name: None },
    };
    let text = r#"{"title":"t","description":"d","instructions":"do","activities":["a"]}"#;
    let some = |s: &str| Some(s.to_string());
    let make = |user: Option<String>, username: Option<String>| {
        create_recipe(
            text,
            vec![extension()],
            "provider".to_string(),
            "model".to_string(),
            user,
            username,
        )
        .unwrap()
    };
    let r = make(some("u"), some("n"));
    assert_eq!(r.title, "t");
    assert_eq!(r.instructions, "do");
    assert_eq!(r.activities, vec!["a"]);
    assert_eq!(r.extensions, vec![extension()]);
    assert_eq!(r.settings.goose_provider.as_deref(), Some("provider"));
    assert_eq!(r.settings.goose_model.as_deref(), Some("model"));
    assert_eq!(r.settings.max_turns, None);
    assert_eq!(r.contact.as_deref(), Some("u"));
    assert_eq!(make(None, some("n")).contact.as_deref(), Some("n"));
    assert_eq!(make(None, None).contact, None);
    let broken = create_recipe("{}", vec![], "p".to_string(), "m".to_string(), None, None);
    assert_eq!(broken, Err("Missing 'instructions' in json response".to_string()));
}
