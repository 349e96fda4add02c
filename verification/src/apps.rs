//! The tools that make and keep small apps.

use crate::conversation::{copy_members, members_opt, Message, MessageContent, ContentModel};
use crate::json::{members, tree_opt, Json, Member, Number, NumberTree, Tree};
use crate::reply_parts::{coerce_tool_arguments, coerced_arguments};
use crate::text::{
    after_prefix, cat, cat3, cat5, decimal, decimal_of, has_text, join, joined, lemma_has_text,
    sorted_from, sorted_strings,
    str_eq, strip_prefix, text_opt, texts,
};
use crate::paths::{extension, extension_of};
use crate::tool_args::{extract_string, text_argument};
use crate::tools::{bare_tool, plain_tool, tool_models, Tool, ToolModel};
use vstd::prelude::*;
use vstd::string::*;

verus! {

broadcast use {crate::json::lemma_array_view, crate::json::lemma_object_view};

/// The window of an app.
#[derive(Clone, Copy, PartialEq, Eq, Structural, Debug)]
pub struct WindowProps {
    pub width: u32,
    pub height: u32,
    pub resizable: bool,
}

/// The window of an app that says nothing of it.
pub open spec fn default_window() -> WindowProps {
    WindowProps { width: 800, height: 600, resizable: true }
}

/// An app.
#[derive(Debug, PartialEq, Eq)]
pub struct GooseApp {
    pub uri: String,
    pub name: String,
    pub description: Option<String>,
    pub mime_type: String,
    pub text: Option<String>,
    pub blob: Option<String>,
    pub meta: Option<Json>,
    pub mcp_servers: Vec<String>,
    pub window_props: Option<WindowProps>,
    pub prd: Option<String>,
}

#[verifier::ext_equal]
pub struct AppModel {
    pub uri: Seq<char>,
    pub name: Seq<char>,
    pub description: Option<Seq<char>>,
    pub mime_type: Seq<char>,
    pub text: Option<Seq<char>>,
    pub blob: Option<Seq<char>>,
    pub meta: Option<Tree>,
    pub mcp_servers: Seq<Seq<char>>,
    pub window_props: Option<WindowProps>,
    pub prd: Option<Seq<char>>,
}

impl GooseApp {
    pub open spec fn view(&self) -> AppModel {
        AppModel {
            uri: self.uri@,
            name: self.name@,
            description: text_opt(self.description),
            mime_type: self.mime_type@,
            text: text_opt(self.text),
            blob: text_opt(self.blob),
            meta: tree_opt(self.meta),
            mcp_servers: texts(self.mcp_servers@),
            window_props: self.window_props,
            prd: text_opt(self.prd),
        }
    }
}

// ---------------------------------------------------------------------------
// Requests
// ---------------------------------------------------------------------------

/// What is asked of the apps' manager.
#[derive(Debug, PartialEq, Eq)]
pub enum AppRequest {
    List,
    Create { prd: String },
    Iterate { name: String, feedback: String },
    Delete { name: String },
}

#[verifier::ext_equal]
pub enum AppRequestModel {
    List,
    Create { prd: Seq<char> },
    Iterate { name: Seq<char>, feedback: Seq<char> },
    Delete { name: Seq<char> },
}

impl AppRequest {
    pub open spec fn view(&self) -> AppRequestModel {
        match self {
            AppRequest::List => AppRequestModel::List,
            AppRequest::Create { prd } => AppRequestModel::Create { prd: prd@ },
            AppRequest::Iterate { name, feedback } => AppRequestModel::Iterate {
                name: name@,
                feedback: feedback@,
            },
            AppRequest::Delete { name } => AppRequestModel::Delete { name: name@ },
        }
    }
}

pub open spec fn app_request_model(r: Result<AppRequest, String>) -> Result<
    AppRequestModel,
    Seq<char>,
> {
    match r {
        Ok(q) => Ok(q@),
        Err(e) => Err(e@),
    }
}

pub open spec fn iterate_request(a: Seq<(Seq<char>, Tree)>) -> Result<AppRequestModel, Seq<char>> {
    match text_argument(a, "name"@) {
        Err(e) => Err(e),
        Ok(name) => match text_argument(a, "feedback"@) {
            Err(e) => Err(e),
            Ok(feedback) => Ok(AppRequestModel::Iterate { name, feedback }),
        },
    }
}

/// What a call asks of the apps' manager.
pub open spec fn app_request(name: Seq<char>, args: Option<Seq<(Seq<char>, Tree)>>) -> Result<
    AppRequestModel,
    Seq<char>,
> {
    if name == "list_apps"@ {
        Ok(AppRequestModel::List)
    } else if name == "create_app"@ || name == "iterate_app"@ || name == "delete_app"@ {
        match args {
            None => Err("Missing arguments"@),
            Some(a) => if name == "create_app"@ {
                match text_argument(a, "prd"@) {
                    Ok(prd) => Ok(AppRequestModel::Create { prd }),
                    Err(e) => Err(e),
                }
            } else if name == "iterate_app"@ {
                iterate_request(a)
            } else {
                match text_argument(a, "name"@) {
                    Ok(name) => Ok(AppRequestModel::Delete { name }),
                    Err(e) => Err(e),
                }
            },
        }
    } else {
        Err("Unknown tool: "@ + name)
    }
}

fn read_iterate(a: &Vec<Member>) -> (r: Result<AppRequest, String>)
    ensures
        app_request_model(r) == iterate_request(members(a@)),
{
    let name = match extract_string(a, "name") {
        Ok(s) => s,
        Err(e) => {
            return Err(e);
        },
    };
    match extract_string(a, "feedback") {
        Ok(feedback) => Ok(AppRequest::Iterate { name, feedback }),
        Err(e) => Err(e),
    }
}

/// What a call asks of the apps' manager.
pub fn read_app_request(name: &str, arguments: &Option<Vec<Member>>) -> (r: Result<
    AppRequest,
    String,
>)
    ensures
        app_request_model(r) == app_request(name@, members_opt(*arguments)),
{
    if str_eq(name, "list_apps") {
        return Ok(AppRequest::List);
    }
    if str_eq(name, "create_app") || str_eq(name, "iterate_app") || str_eq(name, "delete_app") {
        return match arguments {
            None => Err("Missing arguments".to_owned()),
            Some(a) => if str_eq(name, "create_app") {
                match extract_string(a, "prd") {
                    Ok(prd) => Ok(AppRequest::Create { prd }),
                    Err(e) => Err(e),
                }
            } else if str_eq(name, "iterate_app") {
                read_iterate(a)
            } else {
                match extract_string(a, "name") {
                    Ok(name) => Ok(AppRequest::Delete { name }),
                    Err(e) => Err(e),
                }
            },
        };
    }
    Err(cat("Unknown tool: ", name))
}

// ---------------------------------------------------------------------------
// The apps that are kept
// ---------------------------------------------------------------------------

/// The name of the file that keeps an app.
pub fn app_file(name: &str) -> (r: String)
    ensures
        r@ == name@ + ".html"@,
{
    cat(name, ".html")
}

/// The names of the apps whose files there are.
pub open spec fn app_names(files: Seq<Seq<char>>) -> Seq<Seq<char>>
    decreases files.len(),
{
    if files.len() == 0 {
        Seq::empty()
    } else {
        let head = app_names(files.drop_last());
        if extension_of(files.last()) == Some("html"@) {
            head.push(files.last().take(files.last().len() - 5))
        } else {
            head
        }
    }
}

proof fn lemma_no_slash(name: Seq<char>)
    requires
        !crate::text::has_text(name, "/"@),
    ensures
        forall|i: int| 0 <= i < name.len() ==> name[i] != '/',
{
    reveal_strlit("/");
    assert forall|i: int| 0 <= i < name.len() implies name[i] != '/' by {
        if name[i] == '/' {
            assert(name.subrange(i, i + 1) =~= "/"@);
            assert(crate::text::occurs_at(name, "/"@, i));
        }
    }
}

fn app_name_of(file: &str) -> (r: Option<String>)
    requires
        !crate::text::has_text(file@, "/"@),
    ensures
        text_opt(r) == if extension_of(file@) == Some("html"@) {
            Some(file@.take(file@.len() - 5))
        } else {
            None
        },
{
    proof {
        reveal_strlit("html");
    }
    match extension(file) {
        Some(e) => if str_eq(e.as_str(), "html") {
            let v = crate::text::chars_of(file);
            proof {
                lemma_no_slash(file@);
                crate::paths::lemma_plain_name(file@);
                crate::paths::lemma_dot_is_inside(file@);
                assert(file@.skip(crate::paths::last_dot(file@) + 1).len() == 4);
            }
            let name = crate::text::string_of(&v, 0, v.len() - 5);
            assert(name@ =~= file@.take(file@.len() - 5));
            Some(name)
        } else {
            None
        },
        None => None,
    }
}

/// The names of the apps that are kept, sorted. `files` are the names of the files in the apps'
/// directory.
pub fn list_stored_apps(files: &Vec<String>) -> (r: Vec<String>)
    requires
        forall|i: int|
            0 <= i < files@.len() ==> !crate::text::has_text((#[trigger] files@[i])@, "/"@),
    ensures
        sorted_from(app_names(texts(files@)), texts(r@)),
{
    let ghost all = texts(files@);
    let mut out: Vec<String> = Vec::new();
    let mut i: usize = 0;
    assert(texts(out@) =~= app_names(all.take(0)));
    while i < files.len()
        invariant
            all == texts(files@),
            forall|i: int|
                0 <= i < files@.len() ==> !crate::text::has_text((#[trigger] files@[i])@, "/"@),
            i <= files@.len(),
            texts(out@) == app_names(all.take(i as int)),
        decreases files@.len() - i,
    {
        assert(all.take(i + 1).drop_last() =~= all.take(i as int));
        assert(all.take(i + 1).last() == files@[i as int]@);
        if let Some(name) = app_name_of(files[i].as_str()) {
            let ghost before = texts(out@);
            out.push(name);
            assert(texts(out@) =~= before.push(name@));
        }
        i = i + 1;
    }
    assert(all.take(i as int) =~= all);
    sorted_strings(&out)
}

/// An app that is listed: its name, and the app or why it could not be read.
#[derive(Debug, PartialEq, Eq)]
pub struct ListedApp {
    pub name: String,
    pub app: Result<GooseApp, String>,
}

/// A line on an app.
pub open spec fn app_line(l: ListedApp) -> Seq<char> {
    match l.app {
        Ok(a) => "- "@ + l.name@ + (match a.window_props {
            Some(w) => " ("@ + decimal(w.width as nat) + "x"@ + decimal(w.height as nat) + ")"@,
            None => Seq::empty(),
        }) + ": "@ + (match text_opt(a.description) {
            Some(d) => d,
            None => "No description"@,
        }),
        Err(e) => "- "@ + l.name@ + ": (error loading: "@ + e@ + ")"@,
    }
}

pub open spec fn app_lines(v: Seq<ListedApp>) -> Seq<Seq<char>> {
    Seq::new(v.len(), |i: int| app_line(v[i]))
}

fn line_of(l: &ListedApp) -> (r: String)
    ensures
        r@ == app_line(*l),
{
    match &l.app {
        Ok(a) => {
            let mut text = cat("- ", l.name.as_str());
            let ghost before = text@;
            match a.window_props {
                Some(w) => {
                    let x = decimal_of(w.width as u64);
                    let y = decimal_of(w.height as u64);
                    let size = cat5(" (", x.as_str(), "x", y.as_str(), ")");
                    text.append(size.as_str());
                },
                None => {
                    assert(text@ =~= before + Seq::empty());
                },
            }
            text.append(": ");
            match &a.description {
                Some(d) => {
                    text.append(d.as_str());
                },
                None => {
                    text.append("No description");
                },
            }
            text
        },
        Err(e) => cat5("- ", l.name.as_str(), ": (error loading: ", e.as_str(), ")"),
    }
}

/// The text that lists the apps.
pub fn list_apps_text(apps: &Vec<ListedApp>) -> (r: String)
    ensures
        r@ == if apps@.len() == 0 {
            "No apps found. Create your first app with the create_app tool!"@
        } else {
            joined(
                seq!["Found "@ + decimal(apps@.len()) + " app(s):\n"@] + app_lines(apps@),
                "\n"@,
            )
        },
{
    if apps.len() == 0 {
        return "No apps found. Create your first app with the create_app tool!".to_owned();
    }
    let n = decimal_of(apps.len() as u64);
    let head = cat3("Found ", n.as_str(), " app(s):\n");
    let mut lines: Vec<String> = Vec::new();
    lines.push(head);
    let ghost whole = seq![head@] + app_lines(apps@);
    let mut i: usize = 0;
    assert(texts(lines@) =~= whole.take(1));
    while i < apps.len()
        invariant
            whole == seq![head@] + app_lines(apps@),
            i <= apps@.len(),
            texts(lines@) == whole.take(i + 1),
        decreases apps@.len() - i,
    {
        let ghost before = texts(lines@);
        let line = line_of(&apps[i]);
        lines.push(line);
        assert(texts(lines@) =~= before.push(line@));
        assert(whole[i + 1] == app_lines(apps@)[i as int]);
        assert(whole.take(i + 2) =~= before.push(line@));
        i = i + 1;
    }
    assert(whole.take(i + 1) =~= whole);
    join(&lines, "\n")
}

// ---------------------------------------------------------------------------
// Making an app
// ---------------------------------------------------------------------------

/// What the model is asked for a new app.
pub fn create_prompt(prd: &str, existing: &Vec<String>) -> (r: String)
    ensures
        r@ == "REQUESTED APP:\n"@ + prd@ + "\n\nEXISTING APPS: "@ + (if joined(
            texts(existing@),
            ", "@,
        ).len() == 0 {
            "none"@
        } else {
            joined(texts(existing@), ", "@)
        })
            + "\n\nGenerate a unique name (lowercase with hyphens, not in existing apps), a brief description, complete HTML, and appropriate window size for this app."@,
{
    let names = join(existing, ", ");
    let list = if names.as_str().is_empty() {
        "none".to_owned()
    } else {
        names
    };
    cat5(
        "REQUESTED APP:\n",
        prd,
        "\n\nEXISTING APPS: ",
        list.as_str(),
        "\n\nGenerate a unique name (lowercase with hyphens, not in existing apps), a brief description, complete HTML, and appropriate window size for this app.",
    )
}

/// What the model is asked for a changed app.
pub fn iterate_prompt(prd: &str, html: &str, feedback: &str) -> (r: String)
    ensures
        r@ == "ORIGINAL PRD:\n"@ + prd@ + "\n\nCURRENT APP:\n```html\n"@ + html@
            + "\n```\n\nFEEDBACK: "@ + feedback@
            + "\n\nImplement the requested changes and return:\n1. Updated description\n2. Updated HTML implementing the feedback\n3. Updated PRD reflecting the current state of the app\n4. Optionally updated window size if appropriate"@,
{
    let mut text = cat5(
        "ORIGINAL PRD:\n",
        prd,
        "\n\nCURRENT APP:\n```html\n",
        html,
        "\n```\n\nFEEDBACK: ",
    );
    text.append(feedback);
    text.append(
        "\n\nImplement the requested changes and return:\n1. Updated description\n2. Updated HTML implementing the feedback\n3. Updated PRD reflecting the current state of the app\n4. Optionally updated window size if appropriate",
    );
    text
}

/// Whether the answer of the model was cut off: it is as long as an answer may be.
pub open spec fn cut_off(output: Option<i32>, max: Option<i32>) -> bool {
    match (output, max) {
        (Some(o), Some(m)) => o >= m,
        _ => false,
    }
}

/// The error where the answer of the model was cut off; `update` tells whether an app is changed.
pub fn truncation_error(update: bool, output: Option<i32>, max: Option<i32>) -> (r: Option<String>)
    ensures
        text_opt(r) == if cut_off(output, max) {
            Some(
                if update {
                    "App content update was truncated because the response hit the token limit. Try requesting smaller changes."@
                } else {
                    "App content generation was truncated because the response hit the token limit. Try simplifying your app description."@
                },
            )
        } else {
            None
        },
{
    if let (Some(o), Some(m)) = (output, max) {
        if o >= m {
            return Some(
                if update {
                    "App content update was truncated because the response hit the token limit. Try requesting smaller changes.".to_owned()
                } else {
                    "App content generation was truncated because the response hit the token limit. Try simplifying your app description.".to_owned()
                },
            );
        }
    }
    None
}

/// The arguments of the first call of the tool in what the model wrote, under the tool's schema;
/// an error where the tool was not called, or was called without arguments.
pub open spec fn tool_answer(
    content: Seq<ContentModel>,
    tool: Seq<char>,
    schema: Seq<(Seq<char>, Tree)>,
    readings: Seq<(Seq<char>, Tree)>,
) -> Result<Seq<(Seq<char>, Tree)>, Seq<char>>
    decreases content.len(),
{
    if content.len() == 0 {
        Err("LLM did not call the required tool: "@ + tool)
    } else {
        match content[0] {
            ContentModel::ToolRequest(q) => match q.tool_call {
                Ok(c) => if c.name == tool {
                    match c.arguments {
                        None => Err("Missing tool call parameters"@),
                        Some(a) => Ok(
                            match coerced_arguments(Some(a), schema, readings) {
                                Some(b) => b,
                                None => a,
                            },
                        ),
                    }
                } else {
                    tool_answer(content.skip(1), tool, schema, readings)
                },
                Err(_) => tool_answer(content.skip(1), tool, schema, readings),
            },
            _ => tool_answer(content.skip(1), tool, schema, readings),
        }
    }
}

/// The arguments of the first call of the tool in what the model wrote, under the tool's schema.
/// `readings` tells which number a text stands for.
pub fn extract_tool_response(
    response: &Message,
    tool_name: &str,
    tool_schema: &Vec<Member>,
    readings: &Vec<Member>,
) -> (r: Result<Vec<Member>, String>)
    ensures
        match tool_answer(
            response@.content,
            tool_name@,
            members(tool_schema@),
            members(readings@),
        ) {
            Ok(a) => r matches Ok(v) && members(v@) == a,
            Err(m) => r matches Err(e) && e@ == m,
        },
{
    let ghost all = response@.content;
    let ghost sm = members(tool_schema@);
    let ghost rm = members(readings@);
    let mut i: usize = 0;
    assert(all.skip(0) =~= all);
    while i < response.content.len()
        invariant
            all == response@.content,
            all.len() == response.content@.len(),
            sm == members(tool_schema@),
            rm == members(readings@),
            i <= all.len(),
            tool_answer(all, tool_name@, sm, rm) == tool_answer(
                all.skip(i as int),
                tool_name@,
                sm,
                rm,
            ),
        decreases all.len() - i,
    {
        assert(all.skip(i as int)[0] == response.content@[i as int]@);
        assert(all.skip(i as int).skip(1) =~= all.skip(i + 1));
        if let MessageContent::ToolRequest(q) = &response.content[i] {
            if let Ok(c) = &q.tool_call {
                if str_eq(c.name.as_str(), tool_name) {
                    return match &c.arguments {
                        None => Err("Missing tool call parameters".to_owned()),
                        Some(a) => Ok(
                            match coerce_tool_arguments(&c.arguments, tool_schema, readings) {
                                Some(b) => b,
                                None => copy_members(a),
                            },
                        ),
                    };
                }
            }
        }
        i = i + 1;
    }
    Err(cat("LLM did not call the required tool: ", tool_name))
}

/// What the model wrote for a new app.
#[derive(Debug, PartialEq, Eq)]
pub struct CreateAppContentResponse {
    pub name: String,
    pub description: String,
    pub html: String,
    pub width: Option<u32>,
    pub height: Option<u32>,
    pub resizable: Option<bool>,
}

/// What the model wrote for a changed app.
#[derive(Debug, PartialEq, Eq)]
pub struct UpdateAppContentResponse {
    pub description: String,
    pub html: String,
    pub prd: String,
    pub width: Option<u32>,
    pub height: Option<u32>,
    pub resizable: Option<bool>,
}

/// A window with what is said of it, and otherwise as it was.
pub open spec fn window_with(
    base: WindowProps,
    width: Option<u32>,
    height: Option<u32>,
    resizable: Option<bool>,
) -> WindowProps {
    WindowProps {
        width: match width {
            Some(w) => w,
            None => base.width,
        },
        height: match height {
            Some(h) => h,
            None => base.height,
        },
        resizable: match resizable {
            Some(b) => b,
            None => base.resizable,
        },
    }
}

fn make_window(
    base: WindowProps,
    width: Option<u32>,
    height: Option<u32>,
    resizable: Option<bool>,
) -> (r: WindowProps)
    ensures
        r == window_with(base, width, height, resizable),
{
    WindowProps {
        width: match width {
            Some(w) => w,
            None => base.width,
        },
        height: match height {
            Some(h) => h,
            None => base.height,
        },
        resizable: match resizable {
            Some(b) => b,
            None => base.resizable,
        },
    }
}

/// The error where a new app has the name of one that is kept.
pub open spec fn name_taken(name: Seq<char>) -> Seq<char> {
    "App '"@ + name + "' already exists (generated name conflicts with existing app)."@
}

/// A new app, from what the model wrote and what was asked for.
pub open spec fn made_app(c: CreateAppContentResponse, prd: Seq<char>) -> AppModel {
    AppModel {
        uri: "ui://apps/"@ + c.name@,
        name: c.name@,
        description: Some(c.description@),
        mime_type: "text/html;profile=mcp-app"@,
        text: Some(c.html@),
        blob: None,
        meta: None,
        mcp_servers: seq!["apps"@],
        window_props: Some(window_with(default_window(), c.width, c.height, c.resizable)),
        prd: Some(prd),
    }
}

/// A new app, from what the model wrote and what was asked for; an error where its name is taken.
pub fn new_app(content: CreateAppContentResponse, prd: String, taken: bool) -> (r: Result<
    GooseApp,
    String,
>)
    ensures
        if taken {
            r matches Err(e) && e@ == name_taken(content.name@)
        } else {
            r matches Ok(a) && a@ == made_app(content, prd@)
        },
{
    if taken {
        return Err(
            cat3(
                "App '",
                content.name.as_str(),
                "' already exists (generated name conflicts with existing app).",
            ),
        );
    }
    let base = WindowProps { width: 800, height: 600, resizable: true };
    let mut mcp_servers: Vec<String> = Vec::new();
    mcp_servers.push("apps".to_owned());
    assert(texts(mcp_servers@) =~= seq!["apps"@]);
    Ok(
        GooseApp {
            uri: cat("ui://apps/", content.name.as_str()),
            name: content.name,
            description: Some(content.description),
            mime_type: "text/html;profile=mcp-app".to_owned(),
            text: Some(content.html),
            blob: None,
            meta: None,
            mcp_servers,
            window_props: Some(
                make_window(base, content.width, content.height, content.resizable),
            ),
            prd: Some(prd),
        },
    )
}

/// An app with what the model wrote: its window stays as it was where nothing is said of it.
pub open spec fn updated_app(a: AppModel, c: UpdateAppContentResponse) -> AppModel {
    AppModel {
        text: Some(c.html@),
        description: Some(c.description@),
        prd: Some(c.prd@),
        window_props: if c.width is Some || c.height is Some || c.resizable is Some {
            Some(
                window_with(
                    match a.window_props {
                        Some(w) => w,
                        None => default_window(),
                    },
                    c.width,
                    c.height,
                    c.resizable,
                ),
            )
        } else {
            a.window_props
        },
        ..a
    }
}

/// Changes an app by what the model wrote.
pub fn update_app(app: &mut GooseApp, content: UpdateAppContentResponse)
    ensures
        final(app)@ == updated_app(old(app)@, content),
{
    if content.width.is_some() || content.height.is_some() || content.resizable.is_some() {
        let base = match app.window_props {
            Some(w) => w,
            None => WindowProps { width: 800, height: 600, resizable: true },
        };
        app.window_props = Some(
            make_window(base, content.width, content.height, content.resizable),
        );
    }
    app.text = Some(content.html);
    app.description = Some(content.description);
    app.prd = Some(content.prd);
}

/// The page of an app that is to be changed, and what was asked for; an error where it has no
/// page.
pub fn app_to_change(app: &GooseApp) -> (r: Result<(String, String), String>)
    ensures
        match app@.text {
            Some(t) => r matches Ok(p) && p.0@ == t && p.1@ == match app@.prd {
                Some(s) => s,
                None => Seq::empty(),
            },
            None => r matches Err(e) && e@ == "App has no HTML content"@,
        },
{
    match &app.text {
        Some(t) => {
            let prd = match &app.prd {
                Some(s) => s.clone(),
                None => {
                    let none = String::new();
                    assert(none@ =~= Seq::empty());
                    none
                },
            };
            Ok((t.clone(), prd))
        },
        None => Err("App has no HTML content".to_owned()),
    }
}

/// What was done with an app.
#[derive(Clone, Copy, PartialEq, Eq, Structural, Debug)]
pub enum AppChange {
    Created,
    Updated,
    Deleted,
}

/// The answer once something was done with an app, and the event that tells of it.
pub fn change_text(change: AppChange, name: &str) -> (r: (String, String))
    ensures
        match change {
            AppChange::Created => r.0@ == "Created app '"@ + name@
                + "'! It should have automatically opened in a new window. You can always find it again in the [Apps] tab."@
                && r.1@ == "app_created"@,
            AppChange::Updated => r.0@ == "Updated app '"@ + name@ + "' based on your feedback"@
                && r.1@ == "app_updated"@,
            AppChange::Deleted => r.0@ == "Deleted app '"@ + name@ + "'"@ && r.1@
                == "app_deleted"@,
        },
{
    match change {
        AppChange::Created => (
            cat3(
                "Created app '",
                name,
                "'! It should have automatically opened in a new window. You can always find it again in the [Apps] tab.",
            ),
            "app_created".to_owned(),
        ),
        AppChange::Updated => (
            cat3("Updated app '", name, "' based on your feedback"),
            "app_updated".to_owned(),
        ),
        AppChange::Deleted => (cat3("Deleted app '", name, "'"), "app_deleted".to_owned()),
    }
}

// ---------------------------------------------------------------------------
// Apps as resources
// ---------------------------------------------------------------------------

/// The name of the app that an address means; nothing where it means none.
pub fn app_of_uri(uri: &str) -> (r: Option<String>)
    ensures
        text_opt(r) == after_prefix(uri@, "ui://apps/"@),
{
    strip_prefix(uri, "ui://apps/")
}

/// An app that was made is found by its own address.
pub proof fn law_apps_are_found_by_their_address(name: Seq<char>)
    ensures
        after_prefix("ui://apps/"@ + name, "ui://apps/"@) == Some(name),
{
    let p = "ui://apps/"@;
    let s = p + name;
    assert(s.subrange(0, p.len() as int) =~= p);
    assert(s.skip(p.len() as int) =~= name);
}

/// The page of an app.
pub fn app_page(app: GooseApp) -> (r: String)
    ensures
        r@ == match app@.text {
            Some(t) => t,
            None => "No content"@,
        },
{
    match app.text {
        Some(t) => t,
        None => "No content".to_owned(),
    }
}

/// What is said of the window of an app, as data.
pub open spec fn window_meta(window: Option<WindowProps>) -> Option<Seq<(Seq<char>, Tree)>> {
    match window {
        Some(w) => Some(
            seq![
                (
                    "window"@,
                    Tree::Object(
                        seq![
                            (
                                "width"@,
                                Tree::Number(NumberTree::Unsigned(w.width as u64)),
                            ),
                            (
                                "height"@,
                                Tree::Number(NumberTree::Unsigned(w.height as u64)),
                            ),
                            ("resizable"@, Tree::Bool(w.resizable)),
                        ],
                    ),
                ),
            ],
        ),
        None => None,
    }
}

/// What is said of the window of an app, as data.
pub fn app_resource_meta(app: &GooseApp) -> (r: Option<Vec<Member>>)
    ensures
        members_opt(r) == window_meta(app@.window_props),
{
    match app.window_props {
        Some(w) => {
            let mut props: Vec<Member> = Vec::new();
            props.push(
                Member {
                    key: "width".to_owned(),
                    value: Json::Number(Number::Unsigned(w.width as u64)),
                },
            );
            props.push(
                Member {
                    key: "height".to_owned(),
                    value: Json::Number(Number::Unsigned(w.height as u64)),
                },
            );
            props.push(Member { key: "resizable".to_owned(), value: Json::Bool(w.resizable) });
            let ghost pm = members(props@);
            let value = Json::Object(props);
            let ghost vm = value@;
            let mut meta: Vec<Member> = Vec::new();
            meta.push(Member { key: "window".to_owned(), value });
            assert(pm =~= window_meta(app@.window_props)->0[0].1->Object_0);
            assert(members(meta@) =~= window_meta(app@.window_props)->0);
            Some(meta)
        },
        None => None,
    }
}

// ---------------------------------------------------------------------------
// The tools
// ---------------------------------------------------------------------------

/// The tools for apps, with the schemas of what they take.
pub open spec fn app_tools(
    list_schema: Seq<(Seq<char>, Tree)>,
    create_schema: Seq<(Seq<char>, Tree)>,
    iterate_schema: Seq<(Seq<char>, Tree)>,
    delete_schema: Seq<(Seq<char>, Tree)>,
) -> Seq<ToolModel> {
    seq![
        bare_tool("list_apps"@, "List all available Goose apps with their names and descriptions. Use this to see what apps exist before creating or modifying apps."@, list_schema),
        bare_tool("create_app"@, "Create a new Goose app based on a description or PRD. The extension will use an LLM to generate the HTML/CSS/JavaScript. Apps are sandboxed and run in standalone windows."@, create_schema),
        bare_tool("iterate_app"@, "Improve an existing app based on feedback. The extension will use an LLM to update the HTML while preserving the app's intent."@, iterate_schema),
        bare_tool("delete_app"@, "Delete an app permanently"@, delete_schema),
    ]
}

/// The tools for apps, with the schemas of what they take.
pub fn list_app_tools(
    list_schema: Vec<Member>,
    create_schema: Vec<Member>,
    iterate_schema: Vec<Member>,
    delete_schema: Vec<Member>,
) -> (r: Vec<Tool>)
    ensures
        tool_models(r@) == app_tools(
            members(list_schema@),
            members(create_schema@),
            members(iterate_schema@),
            members(delete_schema@),
        ),
{
    let ghost list_schema_model = members(list_schema@);
    let ghost create_schema_model = members(create_schema@);
    let ghost iterate_schema_model = members(iterate_schema@);
    let ghost delete_schema_model = members(delete_schema@);
    let mut out: Vec<Tool> = Vec::new();
    out.push(
        plain_tool("list_apps", "List all available Goose apps with their names and descriptions. Use this to see what apps exist before creating or modifying apps.", list_schema),
    );
    out.push(
        plain_tool("create_app", "Create a new Goose app based on a description or PRD. The extension will use an LLM to generate the HTML/CSS/JavaScript. Apps are sandboxed and run in standalone windows.", create_schema),
    );
    out.push(
        plain_tool("iterate_app", "Improve an existing app based on feedback. The extension will use an LLM to update the HTML while preserving the app's intent.", iterate_schema),
    );
    out.push(
        plain_tool("delete_app", "Delete an app permanently", delete_schema),
    );
    assert(tool_models(out@) =~= app_tools(list_schema_model, create_schema_model, iterate_schema_model, delete_schema_model));
    out
}

/// The tool by which a model hands over a new app.
pub fn create_app_content_tool(schema: Vec<Member>) -> (r: Tool)
    ensures
        r@ == bare_tool(
            "create_app_content"@,
            "Generate content for a new Goose app. Returns the HTML code, app name, description, and window properties."@,
            members(schema@),
        ),
{
    plain_tool(
        "create_app_content",
        "Generate content for a new Goose app. Returns the HTML code, app name, description, and window properties.",
        schema,
    )
}

/// The tool by which a model hands over a changed app.
pub fn update_app_content_tool(schema: Vec<Member>) -> (r: Tool)
    ensures
        r@ == bare_tool(
            "update_app_content"@,
            "Generate updated content for an existing Goose app. Returns the improved HTML code, updated description, and optionally updated window properties."@,
            members(schema@),
        ),
{
    plain_tool(
        "update_app_content",
        "Generate updated content for an existing Goose app. Returns the improved HTML code, updated description, and optionally updated window properties.",
        schema,
    )
}

/// What a call asks for is told by its tool: listing needs no arguments, each other tool has those
/// that it must have, and no other name is known.
pub proof fn law_which_app_calls_are_read(
    name: Seq<char>,
    args: Seq<(Seq<char>, Tree)>,
)
    ensures
        app_request("list_apps"@, None) == Ok::<AppRequestModel, Seq<char>>(AppRequestModel::List),
        app_request(name, Some(args)) matches Ok(q) ==> {
            &&& q is List <==> name == "list_apps"@
            &&& q is Create <==> name == "create_app"@
            &&& q is Iterate <==> name == "iterate_app"@
            &&& q is Delete <==> name == "delete_app"@
            &&& q matches AppRequestModel::Create { prd } ==> text_argument(args, "prd"@) == Ok::<
                Seq<char>,
                Seq<char>,
            >(prd)
            &&& q matches AppRequestModel::Delete { name: n } ==> text_argument(args, "name"@)
                == Ok::<Seq<char>, Seq<char>>(n)
            &&& q matches AppRequestModel::Iterate { name: n, feedback } ==> text_argument(
                args,
                "name"@,
            ) == Ok::<Seq<char>, Seq<char>>(n) && text_argument(args, "feedback"@) == Ok::<
                Seq<char>,
                Seq<char>,
            >(feedback)
        },
        app_request(name, None) is Ok <==> name == "list_apps"@,
        text_argument(args, "prd"@) is Ok ==> app_request("create_app"@, Some(args)) is Ok,
        text_argument(args, "name"@) is Ok ==> app_request("delete_app"@, Some(args)) is Ok,
        text_argument(args, "name"@) is Ok && text_argument(args, "feedback"@) is Ok ==> app_request(
            "iterate_app"@,
            Some(args),
        ) is Ok,
{
    reveal_strlit("list_apps");
    reveal_strlit("create_app");
    reveal_strlit("iterate_app");
    reveal_strlit("delete_app");
    assert("list_apps"@[0] == 'l' && "create_app"@[0] == 'c' && "iterate_app"@[0] == 'i'
        && "delete_app"@[0] == 'd');
}

/// An app that was kept under its name is listed by that name, and a file of another kind is not.
pub proof fn law_kept_apps_are_listed(files: Seq<Seq<char>>, name: Seq<char>, other: Seq<char>)
    requires
        name.len() > 0,
        forall|i: int| 0 <= i < name.len() ==> name[i] != '/',
        extension_of(other) != Some("html"@),
    ensures
        app_names(files.push(name + ".html"@)) == app_names(files).push(name),
        app_names(files.push(other)) == app_names(files),
{
    reveal_strlit(".html");
    reveal_strlit("html");
    let file = name + ".html"@;
    assert(files.push(file).drop_last() =~= files);
    assert(files.push(other).drop_last() =~= files);
    assert forall|i: int| 0 <= i < file.len() implies file[i] != '/' by {
        if i < name.len() {
            assert(file[i] == name[i]);
        } else {
            assert(file[i] == ".html"@[i - name.len()]);
        }
    }
    crate::paths::lemma_plain_name(file);
    let n = name.len() as int;
    assert(file.drop_last().drop_last().drop_last().drop_last() =~= name.push('.'));
    assert(file.last() == 'l');
    assert(file.drop_last().last() == 'm');
    assert(file.drop_last().drop_last().last() == 't');
    assert(file.drop_last().drop_last().drop_last().last() == 'h');
    assert(name.push('.').last() == '.');
    reveal_with_fuel(crate::paths::last_dot, 5);
    assert(crate::paths::last_dot(file) == n);
    assert(file.skip(n + 1) =~= "html"@);
    assert(crate::paths::components(file).last() == (0int, file));
    assert(extension_of(file) == Some("html"@));
    assert(file.take(file.len() - 5) =~= name);
}

/// A line on an app names it, and says what it is, or why it could not be read.
pub proof fn law_listed_apps_are_named(l: ListedApp)
    ensures
        has_text(app_line(l), l.name@),
        l.app matches Ok(a) ==> (a.description matches Some(d) ==> has_text(app_line(l), d@)),
        l.app matches Err(e) ==> has_text(app_line(l), e@),
{
    let name = l.name@;
    match l.app {
        Ok(a) => {
            let window = match a.window_props {
                Some(w) => " ("@ + decimal(w.width as nat) + "x"@ + decimal(w.height as nat) + ")"@,
                None => Seq::empty(),
            };
            let d = match text_opt(a.description) {
                Some(d) => d,
                None => "No description"@,
            };
            assert(app_line(l) =~= "- "@ + name + (window + ": "@ + d));
            assert(app_line(l) =~= ("- "@ + name + window + ": "@) + d);
            lemma_has_text("- "@, name, window + ": "@ + d);
            lemma_has_text("- "@ + name + window + ": "@, d, Seq::empty());
        },
        Err(e) => {
            assert(app_line(l) =~= "- "@ + name + (": (error loading: "@ + e@ + ")"@));
            lemma_has_text("- "@, name, ": (error loading: "@ + e@ + ")"@);
            lemma_has_text("- "@ + name + ": (error loading: "@, e@, ")"@);
        },
    }
}

/// An answer counts as cut off exactly where it is known to be as long as one may be.
pub proof fn law_full_answers_are_cut_off(output: i32, max: i32)
    ensures
        cut_off(Some(output), Some(max)) <==> output >= max,
        !cut_off(None, Some(max)),
        !cut_off(Some(output), None),
{
}

/// The first call of the tool answers: what comes before it does not matter, nor what comes after.
pub proof fn law_the_first_call_answers(
    content: Seq<ContentModel>,
    tool: Seq<char>,
    schema: Seq<(Seq<char>, Tree)>,
    readings: Seq<(Seq<char>, Tree)>,
    k: int,
)
    requires
        0 <= k <= content.len(),
        forall|i: int|
            0 <= i < k ==> !((#[trigger] content[i]) matches ContentModel::ToolRequest(q)
                && q.tool_call matches Ok(c) && c.name == tool),
        k < content.len() ==> (content[k] matches ContentModel::ToolRequest(q) && q.tool_call
            matches Ok(c) && c.name == tool),
    ensures
        k == content.len() ==> (tool_answer(content, tool, schema, readings) matches Err(e)
            && has_text(e, tool)),
        k < content.len() ==> {
            let arguments = content[k]->ToolRequest_0.tool_call->Ok_0.arguments;
            let r = tool_answer(content, tool, schema, readings);
            &&& r is Ok <==> arguments is Some
            &&& arguments matches Some(a) ==> r == Ok::<Seq<(Seq<char>, Tree)>, Seq<char>>(
                match coerced_arguments(Some(a), schema, readings) {
                    Some(b) => b,
                    None => a,
                },
            )
        },
    decreases content.len(),
{
    lemma_has_text("LLM did not call the required tool: "@, tool, Seq::empty());
    if k > 0 {
        let rest = content.skip(1);
        assert(!(content[0] matches ContentModel::ToolRequest(q) && q.tool_call matches Ok(c)
            && c.name == tool));
        assert forall|i: int| 0 <= i < k - 1 implies !((
        #[trigger] rest[i]) matches ContentModel::ToolRequest(q) && q.tool_call matches Ok(c)
            && c.name == tool) by {
            assert(rest[i] == content[i + 1]);
        }
        if k < content.len() {
            assert(rest[k - 1] == content[k]);
        }
        law_the_first_call_answers(rest, tool, schema, readings, k - 1);
    }
}

/// What is said of a window counts, and the rest stays as it was.
pub proof fn law_windows_change_as_said(
    base: WindowProps,
    width: Option<u32>,
    height: Option<u32>,
    resizable: Option<bool>,
)
    ensures
        window_with(base, None, None, None) == base,
        width matches Some(w) ==> window_with(base, width, height, resizable).width == w,
        height matches Some(h) ==> window_with(base, width, height, resizable).height == h,
        resizable matches Some(b) ==> window_with(base, width, height, resizable).resizable == b,
        width is None ==> window_with(base, width, height, resizable).width == base.width,
        height is None ==> window_with(base, width, height, resizable).height == base.height,
        resizable is None ==> window_with(base, width, height, resizable).resizable
            == base.resizable,
{
}

/// A new app is the one that the model wrote, found by the address of its name, in a window of
/// 800 by 600 where nothing else is said.
pub proof fn law_new_apps_are_as_written(c: CreateAppContentResponse, prd: Seq<char>)
    ensures
        made_app(c, prd).name == c.name@,
        made_app(c, prd).text == Some(c.html@),
        made_app(c, prd).description == Some(c.description@),
        made_app(c, prd).prd == Some(prd),
        after_prefix(made_app(c, prd).uri, "ui://apps/"@) == Some(c.name@),
        made_app(c, prd).window_props matches Some(w) && (c.width is None ==> w.width == 800) && (
        c.height is None ==> w.height == 600) && (c.width matches Some(x) ==> w.width == x) && (
        c.height matches Some(y) ==> w.height == y),
{
    law_apps_are_found_by_their_address(c.name@);
}

/// A changed app has the page, the description and the wishes that the model wrote; it keeps its
/// name and its address, and its window where nothing is said of that.
pub proof fn law_changed_apps_keep_their_name(a: AppModel, c: UpdateAppContentResponse)
    ensures
        updated_app(a, c).name == a.name,
        updated_app(a, c).uri == a.uri,
        updated_app(a, c).mime_type == a.mime_type,
        updated_app(a, c).mcp_servers == a.mcp_servers,
        updated_app(a, c).text == Some(c.html@),
        updated_app(a, c).description == Some(c.description@),
        updated_app(a, c).prd == Some(c.prd@),
        c.width is None && c.height is None && c.resizable is None ==> updated_app(a, c).window_props
            == a.window_props,
        c.width matches Some(w) ==> (updated_app(a, c).window_props matches Some(p) && p.width
            == w),
        a.window_props matches Some(own) ==> (c.width is None ==> (updated_app(a, c).window_props
            matches Some(p) && p.width == own.width)),
{
}

/// What is said of a window is told under its own names.
pub proof fn law_windows_are_told(w: WindowProps)
    ensures
        window_meta(None) is None,
        window_meta(Some(w)) matches Some(ms) && Tree::Object(ms).get("window"@) matches Some(t)
            && t.get("width"@) == Some(Tree::Number(NumberTree::Unsigned(w.width as u64))) && t.get(
            "height"@,
        ) == Some(Tree::Number(NumberTree::Unsigned(w.height as u64))) && t.get("resizable"@)
            == Some(Tree::Bool(w.resizable)),
{
    reveal_strlit("window");
    reveal_strlit("width");
    reveal_strlit("height");
    reveal_strlit("resizable");
    assert("width"@[0] == 'w' && "height"@[0] == 'h' && "resizable"@[0] == 'r');
    let ms = window_meta(Some(w))->0;
    crate::json::lemma_lookup_at(ms, "window"@, 0);
    let inner = ms[0].1->Object_0;
    crate::json::lemma_lookup_at(inner, "width"@, 0);
    crate::json::lemma_lookup_at(inner, "height"@, 1);
    crate::json::lemma_lookup_at(inner, "resizable"@, 2);
}

/// Every tool for apps is one that a call of it is read by, with its own schema.
pub proof fn law_app_tools_can_be_called(
    list_schema: Seq<(Seq<char>, Tree)>,
    create_schema: Seq<(Seq<char>, Tree)>,
    iterate_schema: Seq<(Seq<char>, Tree)>,
    delete_schema: Seq<(Seq<char>, Tree)>,
)
    ensures
        ({
            let tools = app_tools(list_schema, create_schema, iterate_schema, delete_schema);
            &&& tools.len() == 4
            &&& tools[0].name == "list_apps"@ && tools[0].input_schema == list_schema
            &&& tools[1].name == "create_app"@ && tools[1].input_schema == create_schema
            &&& tools[2].name == "iterate_app"@ && tools[2].input_schema == iterate_schema
            &&& tools[3].name == "delete_app"@ && tools[3].input_schema == delete_schema
        }),
{
}

} // verus!
