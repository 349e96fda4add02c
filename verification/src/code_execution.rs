//! The tools by which the model runs code that calls other tools.

use crate::conversation::{
    copy_json, copy_members, copy_text, members_opt, result_model, ErrorData, ErrorModel,
    OutputModel, OutputPart, PartModel, Role, ToolOutput,
};
use crate::json::{members, parse, parsed, tree_opt, trees, Json, Member, Tree};
use crate::reply_parts::ToolDisclosure;
use crate::text::{
    begins, cat, cat3, decimal, decimal_of, has_text, join, joined, lemma_has_text,
    lemma_in_longer, lemma_joined_holds, sorted_like, sorted_strings, split_once,
    split_once_at, str_eq, text_opt, texts,
};
use crate::tools::{
    get_tool_owner, tool_models, AnnotationsModel, Hints, Tool, ToolAnnotations,
    ToolModel,
};
use vstd::prelude::*;
use vstd::string::*;

verus! {

broadcast use {crate::json::lemma_array_view, crate::json::lemma_object_view};

// ---------------------------------------------------------------------------
// Tools as functions
// ---------------------------------------------------------------------------

/// A tool as a function that code can call.
#[derive(Debug, PartialEq, Eq)]
pub struct CallbackConfig {
    pub name: String,
    pub namespace: Option<String>,
    pub description: Option<String>,
    pub input_schema: Vec<Member>,
    pub output_schema: Option<Json>,
}

#[verifier::ext_equal]
pub struct CallbackModel {
    pub name: Seq<char>,
    pub namespace: Option<Seq<char>>,
    pub description: Option<Seq<char>>,
    pub input_schema: Seq<(Seq<char>, Tree)>,
    pub output_schema: Option<Tree>,
}

impl CallbackConfig {
    pub open spec fn view(&self) -> CallbackModel {
        CallbackModel {
            name: self.name@,
            namespace: text_opt(self.namespace),
            description: text_opt(self.description),
            input_schema: members(self.input_schema@),
            output_schema: tree_opt(self.output_schema),
        }
    }
}

pub open spec fn callback_models(v: Seq<CallbackConfig>) -> Seq<CallbackModel> {
    Seq::new(v.len(), |i: int| v[i]@)
}

/// The name of a tool as a function, and the namespace that it stands in: the part of its name
/// before the first double underscore, else the extension that owns it.
pub open spec fn callback_name(t: ToolModel) -> (Seq<char>, Option<Seq<char>>) {
    match split_once_at(t.name, "__"@) {
        Some(p) => (p.1, Some(p.0)),
        None => (t.name, t.owner()),
    }
}

/// A tool as a function.
pub open spec fn callback_of(t: ToolModel) -> CallbackModel {
    CallbackModel {
        name: callback_name(t).0,
        namespace: callback_name(t).1,
        description: t.description,
        input_schema: t.input_schema,
        output_schema: t.output_schema,
    }
}

/// The tools as functions.
pub fn load_callback_configs(tools: &Vec<Tool>) -> (r: Vec<CallbackConfig>)
    ensures
        callback_models(r@) == Seq::new(tools@.len(), |i: int| callback_of(tools@[i]@)),
{
    let mut out: Vec<CallbackConfig> = Vec::new();
    let mut i: usize = 0;
    while i < tools.len()
        invariant
            i <= tools@.len(),
            out@.len() == i,
            forall|j: int| 0 <= j < i ==> (#[trigger] out@[j])@ == callback_of(tools@[j]@),
        decreases tools@.len() - i,
    {
        let (name, namespace) = match split_once(tools[i].name.as_str(), "__") {
            Some((prefix, rest)) => (rest, Some(prefix)),
            None => (tools[i].name.clone(), get_tool_owner(&tools[i])),
        };
        out.push(
            CallbackConfig {
                name,
                namespace,
                description: copy_text(&tools[i].description),
                input_schema: copy_members(&tools[i].input_schema),
                output_schema: copy_json(&tools[i].output_schema),
            },
        );
        i = i + 1;
    }
    assert(callback_models(out@) =~= Seq::new(tools@.len(), |i: int| callback_of(tools@[i]@)));
    out
}

/// The name by which a function's tool is called.
pub open spec fn callback_tool_name(c: CallbackModel) -> Seq<char> {
    match c.namespace {
        Some(n) => n + "__"@ + c.name,
        None => c.name,
    }
}

/// The name by which a function's tool is called.
pub fn full_name(c: &CallbackConfig) -> (r: String)
    ensures
        r@ == callback_tool_name(c@),
{
    match &c.namespace {
        Some(n) => cat3(n.as_str(), "__", c.name.as_str()),
        None => c.name.clone(),
    }
}

/// A function calls the tool that it was made from: by the tool's own name where that has a
/// prefix, or where nothing owns the tool, and otherwise by the name with its owner as the prefix.
pub proof fn law_functions_call_their_tools(t: ToolModel)
    ensures
        split_once_at(t.name, "__"@) is Some ==> callback_tool_name(callback_of(t)) == t.name,
        split_once_at(t.name, "__"@) is None && t.owner() is None ==> callback_tool_name(
            callback_of(t),
        ) == t.name,
        split_once_at(t.name, "__"@) is None && t.owner() is Some ==> callback_tool_name(
            callback_of(t),
        ) == t.owner()->0 + "__"@ + t.name,
{
    if let Some(p) = split_once_at(t.name, "__"@) {
        crate::text::lemma_split_once(t.name, "__"@);
    }
}

/// The texts of the functions, in an order that does not depend on that of the tools, so that the
/// same functions are recognised.
pub fn callback_keys(written: &Vec<String>) -> (r: Vec<String>)
    ensures
        sorted_like(texts(written@), texts(r@)),
{
    sorted_strings(written)
}

/// Whether what was made for some functions can be used again: it can where their hash is that of
/// the functions that it was made for.
pub fn reuses_code_mode(kept: Option<u64>, current: u64) -> (r: bool)
    ensures
        r == (kept == Some(current)),
{
    match kept {
        Some(h) => h == current,
        None => false,
    }
}

// ---------------------------------------------------------------------------
// The tools
// ---------------------------------------------------------------------------

/// A tool that is to be described.
#[derive(Debug, PartialEq, Eq)]
pub struct ToolText {
    pub description: String,
    pub schema: Vec<Member>,
}

/// The descriptions of the tools. That of the tool that runs a script depends on how tools are
/// shown.
#[derive(Debug, PartialEq, Eq)]
pub struct CodeToolTexts {
    pub list_functions: String,
    pub get_function_details: ToolText,
    pub execute_bash: ToolText,
    pub execute_typescript_catalog: String,
    pub execute_typescript_filesystem: String,
    pub execute_typescript_sidecar: String,
    pub execute_typescript_schema: Vec<Member>,
}

/// What is said of a tool that only looks things up.
pub open spec fn looks_up() -> Hints {
    Hints {
        read_only: Some(true),
        destructive: Some(false),
        idempotent: Some(true),
        open_world: Some(false),
    }
}

/// What is said of a tool that runs code.
pub open spec fn runs_code() -> Hints {
    Hints {
        read_only: Some(false),
        destructive: Some(true),
        idempotent: Some(false),
        open_world: Some(true),
    }
}

pub open spec fn code_tool(
    name: Seq<char>,
    title: Seq<char>,
    description: Seq<char>,
    schema: Seq<(Seq<char>, Tree)>,
    hints: Hints,
) -> ToolModel {
    ToolModel {
        name,
        description: Some(description),
        input_schema: schema,
        output_schema: None,
        annotations: Some(AnnotationsModel { title: Some(title), hints }),
        meta: None,
        rest: None,
    }
}

/// The schema of a tool without parameters.
pub open spec fn no_parameters() -> Seq<(Seq<char>, Tree)> {
    seq![
        ("type"@, Tree::Str("object"@)),
        ("properties"@, Tree::Object(Seq::empty())),
        ("required"@, Tree::Array(Seq::empty())),
    ]
}

/// The tool that runs a script.
pub open spec fn script_tool(description: Seq<char>, schema: Seq<(Seq<char>, Tree)>) -> ToolModel {
    code_tool("execute_typescript"@, "Execute TypeScript"@, description, schema, runs_code())
}

/// The tools that the model gets, by how tools are shown to it.
pub open spec fn code_tools(disclosure: ToolDisclosure, t: CodeToolTexts) -> Seq<ToolModel> {
    let schema = members(t.execute_typescript_schema@);
    match disclosure {
        ToolDisclosure::Catalog => seq![
            code_tool(
                "list_functions"@,
                "List functions"@,
                t.list_functions@,
                no_parameters(),
                looks_up(),
            ),
            code_tool(
                "get_function_details"@,
                "Get function details"@,
                t.get_function_details.description@,
                members(t.get_function_details.schema@),
                looks_up(),
            ),
            script_tool(t.execute_typescript_catalog@, schema),
        ],
        ToolDisclosure::Filesystem => seq![
            code_tool(
                "execute_bash"@,
                "Get function details"@,
                t.execute_bash.description@,
                members(t.execute_bash.schema@),
                looks_up(),
            ),
            script_tool(t.execute_typescript_filesystem@, schema),
        ],
        ToolDisclosure::Sidecar => seq![script_tool(t.execute_typescript_sidecar@, schema)],
    }
}

fn make_tool(
    name: &str,
    title: &str,
    description: &str,
    schema: Vec<Member>,
    only_looks: bool,
) -> (r: Tool)
    ensures
        r@ == code_tool(
            name@,
            title@,
            description@,
            members(schema@),
            if only_looks {
                looks_up()
            } else {
                runs_code()
            },
        ),
{
    Tool {
        name: name.to_owned(),
        description: Some(description.to_owned()),
        input_schema: schema,
        output_schema: None,
        annotations: Some(
            ToolAnnotations {
                title: Some(title.to_owned()),
                hints: Hints {
                    read_only: Some(only_looks),
                    destructive: Some(!only_looks),
                    idempotent: Some(only_looks),
                    open_world: Some(!only_looks),
                },
            },
        ),
        meta: None,
        rest: None,
    }
}

fn make_no_parameters() -> (r: Vec<Member>)
    ensures
        members(r@) == no_parameters(),
{
    let none: Vec<Member> = Vec::new();
    let nothing: Vec<Json> = Vec::new();
    assert(members(none@) =~= Seq::empty());
    assert(trees(nothing@) =~= Seq::empty());
    let mut out: Vec<Member> = Vec::new();
    out.push(Member { key: "type".to_owned(), value: Json::Str("object".to_owned()) });
    out.push(Member { key: "properties".to_owned(), value: Json::Object(none) });
    out.push(Member { key: "required".to_owned(), value: Json::Array(nothing) });
    assert(members(out@) =~= no_parameters());
    out
}

/// The tools that the model gets, by how tools are shown to it.
pub fn list_code_tools(disclosure: ToolDisclosure, t: &CodeToolTexts) -> (r: Vec<Tool>)
    ensures
        tool_models(r@) == code_tools(disclosure, *t),
{
    let mut out: Vec<Tool> = Vec::new();
    let script = match disclosure {
        ToolDisclosure::Catalog => {
            out.push(
                make_tool(
                    "list_functions",
                    "List functions",
                    t.list_functions.as_str(),
                    make_no_parameters(),
                    true,
                ),
            );
            out.push(
                make_tool(
                    "get_function_details",
                    "Get function details",
                    t.get_function_details.description.as_str(),
                    copy_members(&t.get_function_details.schema),
                    true,
                ),
            );
            t.execute_typescript_catalog.as_str()
        },
        ToolDisclosure::Filesystem => {
            out.push(
                make_tool(
                    "execute_bash",
                    "Get function details",
                    t.execute_bash.description.as_str(),
                    copy_members(&t.execute_bash.schema),
                    true,
                ),
            );
            t.execute_typescript_filesystem.as_str()
        },
        ToolDisclosure::Sidecar => t.execute_typescript_sidecar.as_str(),
    };
    out.push(
        make_tool(
            "execute_typescript",
            "Execute TypeScript",
            script,
            copy_members(&t.execute_typescript_schema),
            false,
        ),
    );
    assert(tool_models(out@) =~= code_tools(disclosure, *t));
    out
}

/// What a call of one of the tools asks for.
#[derive(Debug, PartialEq, Eq)]
pub enum CodeCall {
    ListFunctions,
    GetFunctionDetails(Vec<Member>),
    ExecuteBash(Vec<Member>),
    ExecuteTypescript(Vec<Member>),
}

#[verifier::ext_equal]
pub enum CodeCallModel {
    ListFunctions,
    GetFunctionDetails(Seq<(Seq<char>, Tree)>),
    ExecuteBash(Seq<(Seq<char>, Tree)>),
    ExecuteTypescript(Seq<(Seq<char>, Tree)>),
}

impl CodeCall {
    pub open spec fn view(&self) -> CodeCallModel {
        match self {
            CodeCall::ListFunctions => CodeCallModel::ListFunctions,
            CodeCall::GetFunctionDetails(a) => CodeCallModel::GetFunctionDetails(members(a@)),
            CodeCall::ExecuteBash(a) => CodeCallModel::ExecuteBash(members(a@)),
            CodeCall::ExecuteTypescript(a) => CodeCallModel::ExecuteTypescript(members(a@)),
        }
    }
}

/// What a call of one of the tools asks for.
pub open spec fn code_call(name: Seq<char>, args: Option<Seq<(Seq<char>, Tree)>>) -> Result<
    CodeCallModel,
    Seq<char>,
> {
    if name == "list_functions"@ {
        Ok(CodeCallModel::ListFunctions)
    } else if name == "get_function_details"@ || name == "execute_bash"@ || name
        == "execute_typescript"@ {
        match args {
            None => Err("Missing arguments for "@ + name),
            Some(a) => Ok(
                if name == "get_function_details"@ {
                    CodeCallModel::GetFunctionDetails(a)
                } else if name == "execute_bash"@ {
                    CodeCallModel::ExecuteBash(a)
                } else {
                    CodeCallModel::ExecuteTypescript(a)
                },
            ),
        }
    } else {
        Err("Unknown tool: "@ + name)
    }
}

/// What a call of one of the tools asks for.
pub fn read_code_call(name: &str, arguments: Option<Vec<Member>>) -> (r: Result<CodeCall, String>)
    ensures
        match code_call(name@, members_opt(arguments)) {
            Ok(c) => r matches Ok(v) && v@ == c,
            Err(m) => r matches Err(e) && e@ == m,
        },
{
    if str_eq(name, "list_functions") {
        return Ok(CodeCall::ListFunctions);
    }
    if str_eq(name, "get_function_details") || str_eq(name, "execute_bash") || str_eq(
        name,
        "execute_typescript",
    ) {
        return match arguments {
            None => Err(cat("Missing arguments for ", name)),
            Some(a) => Ok(
                if str_eq(name, "get_function_details") {
                    CodeCall::GetFunctionDetails(a)
                } else if str_eq(name, "execute_bash") {
                    CodeCall::ExecuteBash(a)
                } else {
                    CodeCall::ExecuteTypescript(a)
                },
            ),
        };
    }
    Err(cat("Unknown tool: ", name))
}

/// The arguments that a function is called with, which only an object gives.
pub fn callback_arguments(args: Option<Json>) -> (r: Option<Vec<Member>>)
    ensures
        members_opt(r) == match tree_opt(args) {
            Some(Tree::Object(m)) => Some(m),
            _ => None,
        },
{
    match args {
        Some(Json::Object(m)) => Some(m),
        _ => None,
    }
}

/// What the code is told where a function's tool could not be called.
pub fn dispatch_failure(message: &str) -> (r: String)
    ensures
        r@ == "Dispatch error: "@ + message@,
{
    cat("Dispatch error: ", message)
}

// ---------------------------------------------------------------------------
// What a function gives back
// ---------------------------------------------------------------------------

/// Whether a part of a result is meant for the model: it is for everyone, or the model is among
/// those that it is for.
pub open spec fn for_the_model(audience: Option<Seq<Role>>) -> bool {
    match audience {
        None => true,
        Some(a) => a.len() == 0 || a.contains(Role::Assistant),
    }
}

/// The texts of a result that are meant for the model.
pub open spec fn model_texts(content: Seq<PartModel>) -> Seq<Seq<char>>
    decreases content.len(),
{
    if content.len() == 0 {
        Seq::empty()
    } else {
        let head = model_texts(content.drop_last());
        match content.last() {
            PartModel::Text { text, audience, .. } => if for_the_model(audience) {
                head.push(text)
            } else {
                head
            },
            PartModel::Other(_) => head,
        }
    }
}

/// A text as data: what it says where it is JSON, else the text; `read` is what it says.
pub open spec fn text_value(text: Seq<char>, read: Option<Tree>) -> Tree {
    match read {
        Some(t) => t,
        None => Tree::Str(text),
    }
}

/// What a function gives back to the code that called it.
pub open spec fn callback_value(r: Result<OutputModel, ErrorModel>) -> Result<Tree, Seq<char>> {
    match r {
        Ok(o) => Ok(
            match o.structured_content {
                Some(t) => t,
                None => {
                    let text = joined(model_texts(o.content), "\n"@);
                    text_value(text, parsed(text))
                },
            },
        ),
        Err(e) => Err("Tool error: "@ + e.message),
    }
}

fn holds_assistant(v: &Vec<Role>) -> (r: bool)
    ensures
        r == v@.contains(Role::Assistant),
{
    let mut i: usize = 0;
    while i < v.len()
        invariant
            i <= v@.len(),
            forall|j: int| 0 <= j < i ==> v@[j] != Role::Assistant,
        decreases v@.len() - i,
    {
        if v[i] == Role::Assistant {
            return true;
        }
        i = i + 1;
    }
    false
}

/// The texts of a result that are meant for the model.
pub fn texts_for_model(content: &Vec<OutputPart>) -> (r: Vec<String>)
    ensures
        texts(r@) == model_texts(crate::conversation::parts(content@)),
{
    let ghost all = crate::conversation::parts(content@);
    let mut out: Vec<String> = Vec::new();
    let mut i: usize = 0;
    assert(texts(out@) =~= model_texts(all.take(0)));
    while i < content.len()
        invariant
            all == crate::conversation::parts(content@),
            i <= content@.len(),
            texts(out@) == model_texts(all.take(i as int)),
        decreases content@.len() - i,
    {
        assert(all.take(i + 1).drop_last() =~= all.take(i as int));
        assert(all.take(i + 1).last() == content@[i as int]@);
        if let OutputPart::Text { text, audience, .. } = &content[i] {
            let meant = match audience {
                None => true,
                Some(a) => a.len() == 0 || holds_assistant(a),
            };
            if meant {
                let ghost before = texts(out@);
                out.push(text.clone());
                assert(texts(out@) =~= before.push(text@));
            }
        }
        i = i + 1;
    }
    assert(all.take(i as int) =~= all);
    out
}

/// A text as data: what it says where it is JSON, else the text; `read` is what it says.
pub fn value_of_text(text: String, read: Option<Json>) -> (r: Json)
    ensures
        r@ == text_value(text@, tree_opt(read)),
{
    match read {
        Some(j) => j,
        None => Json::Str(text),
    }
}

/// What a function gives back to the code that called it: the data of the tool's result, else its
/// text, read as JSON where it is that.
pub fn callback_result(result: &Result<ToolOutput, ErrorData>) -> (r: Result<Json, String>)
    ensures
        match callback_value(result_model(*result)) {
            Ok(t) => r matches Ok(j) && j@ == t,
            Err(m) => r matches Err(e) && e@ == m,
        },
{
    match result {
        Ok(o) => match &o.structured_content {
            Some(j) => Ok(j.copy()),
            None => {
                let v = texts_for_model(&o.content);
                let text = join(&v, "\n");
                let read = parse(text.as_str());
                Ok(value_of_text(text, read))
            },
        },
        Err(e) => Err(cat("Tool error: ", e.message.as_str())),
    }
}

/// A part that is not meant for the model leaves no trace in the texts that reach the code.
pub proof fn law_users_parts_are_kept_from_code(content: Seq<PartModel>, k: int)
    requires
        0 <= k < content.len(),
        content[k] matches PartModel::Text { text, audience, .. } ==> !for_the_model(audience),
    ensures
        model_texts(content) == model_texts(content.remove(k)),
    decreases content.len(),
{
    let rest = content.remove(k);
    if k == content.len() - 1 {
        assert(rest =~= content.drop_last());
    } else {
        assert(content.drop_last()[k] == content[k]);
        law_users_parts_are_kept_from_code(content.drop_last(), k);
        assert(content.drop_last().remove(k) =~= rest.drop_last());
        assert(rest.last() == content.last());
    }
}

// ---------------------------------------------------------------------------
// What the model is told
// ---------------------------------------------------------------------------

/// What the model is told of the functions where they are in a catalog.
pub open spec fn catalog_text(count: nat) -> Seq<char> {
    if count == 0 {
        "No execute_typescript callback functions are currently registered."@
    } else {
        decimal(count)
            + " callback functions are available only from inside execute_typescript. Do not call callback function names directly as tools. Use list_functions and get_function_details to inspect signatures before writing one execute_typescript call."@
    }
}

/// What the model is told of the functions where they are in a catalog.
pub fn catalog_disclosure_moim(function_count: usize) -> (r: String)
    ensures
        r@ == catalog_text(function_count as nat),
{
    if function_count == 0 {
        "No execute_typescript callback functions are currently registered.".to_owned()
    } else {
        let n = decimal_of(function_count as u64);
        cat(
            n.as_str(),
            " callback functions are available only from inside execute_typescript. Do not call callback function names directly as tools. Use list_functions and get_function_details to inspect signatures before writing one execute_typescript call.",
        )
    }
}

/// What the model is told of the functions, by how tools are shown to it.
pub open spec fn disclosure_text(
    disclosure: ToolDisclosure,
    count: nat,
    files: Seq<Seq<char>>,
) -> Seq<char> {
    match disclosure {
        ToolDisclosure::Catalog => catalog_text(count),
        ToolDisclosure::Filesystem =>
            "Use execute_bash to search and read the tool signatures and input/output types before calling execute_typescript. The available files are: "@
                + joined(files, ", "@),
        ToolDisclosure::Sidecar =>
            "Prioritize calling tools with the execute_typescript tool, especially when multiple tools can be called in one script."@,
    }
}

/// What the model is told before each answer.
pub fn code_moim(disclosure: ToolDisclosure, function_count: usize, files: &Vec<String>) -> (r: String)
    ensures
        r@
            == "ALWAYS batch multiple tool operations into ONE execute_typescript call.\n- WRONG: Separate execute_typescript calls for read file, then write file\n- RIGHT: One execute_typescript with an async run() function that reads AND writes AND logs/returns as little information as needed for the next step.\n\n"@
            + disclosure_text(disclosure, function_count as nat, texts(files@)) + "\n"@,
{
    let text = match disclosure {
        ToolDisclosure::Catalog => catalog_disclosure_moim(function_count),
        ToolDisclosure::Filesystem => {
            let list = join(files, ", ");
            cat(
                "Use execute_bash to search and read the tool signatures and input/output types before calling execute_typescript. The available files are: ",
                list.as_str(),
            )
        },
        ToolDisclosure::Sidecar =>
            "Prioritize calling tools with the execute_typescript tool, especially when multiple tools can be called in one script.".to_owned(),
    };
    cat3(
        "ALWAYS batch multiple tool operations into ONE execute_typescript call.\n- WRONG: Separate execute_typescript calls for read file, then write file\n- RIGHT: One execute_typescript with an async run() function that reads AND writes AND logs/returns as little information as needed for the next step.\n\n",
        text.as_str(),
        "\n",
    )
}

/// The configured way to show tools, by its name.
pub fn disclosure_setting(configured: Option<String>) -> (r: String)
    ensures
        r@ == match text_opt(configured) {
            Some(s) => s,
            None => "catalog"@,
        },
{
    match configured {
        Some(s) => s,
        None => "catalog".to_owned(),
    }
}

/// Which parts are meant for the model: those for nobody in particular, and those that name it.
pub proof fn law_who_parts_are_for(audience: Seq<Role>)
    ensures
        for_the_model(None),
        for_the_model(Some(Seq::empty())),
        audience.contains(Role::Assistant) ==> for_the_model(Some(audience)),
        audience.len() > 0 && !audience.contains(Role::Assistant) ==> !for_the_model(Some(audience)),
{
}

/// The code gets every text that is meant for the model, in order, and nothing else.
pub proof fn law_code_gets_what_the_model_may_see(a: Seq<PartModel>, b: Seq<PartModel>)
    ensures
        model_texts(a + b) == model_texts(a) + model_texts(b),
        a.len() == 1 ==> model_texts(a) == match a[0] {
            PartModel::Text { text, audience, .. } => if audience is None || (audience->0.len() == 0
                || audience->0.contains(Role::Assistant)) {
                seq![text]
            } else {
                Seq::empty()
            },
            PartModel::Other(_) => Seq::empty(),
        },
    decreases b.len(),
{
    if a.len() == 1 {
        assert(a.drop_last() =~= Seq::empty());
        assert(model_texts(a.drop_last()) =~= Seq::empty());
        assert(a.last() == a[0]);
        if let PartModel::Text { text, audience, .. } = a[0] {
            assert(Seq::<Seq<char>>::empty().push(text) =~= seq![text]);
        }
    }
    if b.len() > 0 {
        law_code_gets_what_the_model_may_see(a, b.drop_last());
        assert((a + b).drop_last() =~= a + b.drop_last());
        assert((a + b).last() == b.last());
        assert(model_texts(a + b) =~= model_texts(a) + model_texts(b));
    } else {
        assert(a + b =~= a);
        assert(model_texts(a) + model_texts(b) =~= model_texts(a));
    }
}

/// What a function gives back: the data of a result where it has some, else its text, as data where
/// that is JSON; a failed call is an error that tells the tool's own.
pub proof fn law_what_functions_give_back(o: OutputModel, e: ErrorModel)
    ensures
        o.structured_content matches Some(t) ==> callback_value(Ok(o)) == Ok::<Tree, Seq<char>>(t),
        o.structured_content is None ==> {
            let text = joined(model_texts(o.content), "\n"@);
            &&& parsed(text) matches Some(t) ==> callback_value(Ok(o)) == Ok::<Tree, Seq<char>>(t)
            &&& parsed(text) is None ==> callback_value(Ok(o)) == Ok::<Tree, Seq<char>>(
                Tree::Str(text),
            )
        },
        callback_value(Err(e)) matches Err(m) && has_text(m, e.message),
{
    lemma_has_text("Tool error: "@, e.message, Seq::empty());
}

/// A function takes and gives what its tool does, and is described as it is.
pub proof fn law_functions_are_described_as_their_tools(t: ToolModel)
    ensures
        callback_of(t).input_schema == t.input_schema,
        callback_of(t).output_schema == t.output_schema,
        callback_of(t).description == t.description,
        split_once_at(t.name, "__"@) is None ==> callback_of(t).name == t.name
            && callback_of(t).namespace == t.owner(),
        split_once_at(t.name, "__"@) matches Some(p) ==> callback_of(t).namespace == Some(p.0)
            && callback_of(t).name == p.1,
{
}

/// What a call asks for is told by its tool, with its arguments as they are; only listing needs
/// none.
pub proof fn law_which_code_calls_are_read(name: Seq<char>, args: Seq<(Seq<char>, Tree)>)
    ensures
        code_call(name, Some(args)) matches Ok(c) ==> {
            &&& c is ListFunctions <==> name == "list_functions"@
            &&& c == CodeCallModel::GetFunctionDetails(args) <==> name == "get_function_details"@
            &&& c == CodeCallModel::ExecuteBash(args) <==> name == "execute_bash"@
            &&& c == CodeCallModel::ExecuteTypescript(args) <==> name == "execute_typescript"@
        },
        code_call(name, Some(args)) is Ok <==> name == "list_functions"@ || name
            == "get_function_details"@ || name == "execute_bash"@ || name == "execute_typescript"@,
        code_call(name, None) is Ok <==> name == "list_functions"@,
{
    reveal_strlit("list_functions");
    reveal_strlit("get_function_details");
    reveal_strlit("execute_bash");
    reveal_strlit("execute_typescript");
    assert("list_functions"@.len() == 14 && "get_function_details"@.len() == 20
        && "execute_bash"@.len() == 12 && "execute_typescript"@.len() == 18);
}

/// The model can always run a script, which is the only tool that may change anything; what else it
/// gets depends on how tools are shown to it.
pub proof fn law_which_code_tools_there_are(disclosure: ToolDisclosure, t: CodeToolTexts, i: int)
    requires
        0 <= i < code_tools(disclosure, t).len(),
    ensures
        code_tools(disclosure, t).last().name == "execute_typescript"@,
        ({
            let hints = code_tools(disclosure, t)[i].annotations->0.hints;
            let last = i == code_tools(disclosure, t).len() - 1;
            &&& code_tools(disclosure, t)[i].annotations is Some
            &&& last ==> hints.read_only == Some(false) && hints.destructive == Some(true)
            &&& !last ==> hints.read_only == Some(true) && hints.destructive == Some(false)
        }),
        code_tools(disclosure, t).len() == match disclosure {
            ToolDisclosure::Catalog => 3nat,
            ToolDisclosure::Filesystem => 2nat,
            ToolDisclosure::Sidecar => 1nat,
        },
        disclosure == ToolDisclosure::Catalog ==> code_tools(disclosure, t)[0].name
            == "list_functions"@ && code_tools(disclosure, t)[1].name == "get_function_details"@,
        disclosure == ToolDisclosure::Filesystem ==> code_tools(disclosure, t)[0].name
            == "execute_bash"@,
{
}

/// The model is told how many functions there are, or in which files they are, by how tools are
/// shown to it.
pub proof fn law_the_model_is_told_of_functions(count: nat, files: Seq<Seq<char>>, i: int)
    ensures
        count > 0 ==> begins(
            disclosure_text(ToolDisclosure::Catalog, count, files),
            decimal(count),
        ),
        0 <= i < files.len() ==> has_text(
            disclosure_text(ToolDisclosure::Filesystem, count, files),
            files[i],
        ),
{
    let rest =
        " callback functions are available only from inside execute_typescript. Do not call callback function names directly as tools. Use list_functions and get_function_details to inspect signatures before writing one execute_typescript call."@;
    assert((decimal(count) + rest).subrange(0, decimal(count).len() as int) =~= decimal(count));
    if 0 <= i < files.len() {
        let head =
            "Use execute_bash to search and read the tool signatures and input/output types before calling execute_typescript. The available files are: "@;
        lemma_joined_holds(files, ", "@, i);
        lemma_in_longer(head, joined(files, ", "@), Seq::empty(), files[i]);
        assert(head + joined(files, ", "@) + Seq::<char>::empty() =~= head + joined(files, ", "@));
    }
}

} // verus!
