//! Tools, and what their metadata says of them.

use crate::conversation::{copy_json, copy_members, copy_text, members_opt, OutputModel, ToolOutput};
use crate::json::{
    drop_member, lemma_lookup_at, lemma_lookup_none, lemma_same_tree, lookup, member, members, members_same, same_members, same_tree,
    set_member, tree_opt, tree_ref, trees, with_member, without_member, Json, Member, Tree,
};
use crate::text::{same_text, sorted_from, sorted_strings, str_eq, text_opt, texts};
use vstd::prelude::*;
use vstd::string::*;

verus! {

broadcast use {crate::json::lemma_array_view, crate::json::lemma_object_view};

/// What a tool says of its own effects.
#[derive(Clone, Copy, PartialEq, Eq, Structural, Debug)]
pub struct Hints {
    pub read_only: Option<bool>,
    pub destructive: Option<bool>,
    pub idempotent: Option<bool>,
    pub open_world: Option<bool>,
}

/// A title for a tool, and what it says of its own effects.
#[derive(Debug, PartialEq, Eq)]
pub struct ToolAnnotations {
    pub title: Option<String>,
    pub hints: Hints,
}

#[verifier::ext_equal]
pub struct AnnotationsModel {
    pub title: Option<Seq<char>>,
    pub hints: Hints,
}

impl ToolAnnotations {
    pub open spec fn view(&self) -> AnnotationsModel {
        AnnotationsModel { title: text_opt(self.title), hints: self.hints }
    }

    pub fn copy(&self) -> (r: ToolAnnotations)
        ensures
            r@ == self@,
    {
        ToolAnnotations { title: copy_text(&self.title), hints: self.hints }
    }
}

/// Whether two tools say the same. The order of the members of an object does not matter.
pub open spec fn same_tool(a: ToolModel, b: ToolModel) -> bool {
    &&& a.name == b.name
    &&& a.description == b.description
    &&& same_members(a.input_schema, b.input_schema)
    &&& match (a.output_schema, b.output_schema) {
        (Some(x), Some(y)) => same_tree(x, y),
        (None, None) => true,
        _ => false,
    }
    &&& a.annotations == b.annotations
    &&& match (a.meta, b.meta) {
        (Some(x), Some(y)) => same_members(x, y),
        (None, None) => true,
        _ => false,
    }
    &&& match (a.rest, b.rest) {
        (Some(x), Some(y)) => same_tree(x, y),
        (None, None) => true,
        _ => false,
    }
}

/// A tool says the same as itself.
pub proof fn lemma_same_tool(a: ToolModel)
    ensures
        same_tool(a, a),
{
    lemma_same_tree(Tree::Object(a.input_schema));
    if let Some(t) = a.output_schema {
        lemma_same_tree(t);
    }
    if let Some(m) = a.meta {
        lemma_same_tree(Tree::Object(m));
    }
    if let Some(t) = a.rest {
        lemma_same_tree(t);
    }
}

pub open spec fn annotations_opt(o: Option<ToolAnnotations>) -> Option<AnnotationsModel> {
    match o {
        Some(a) => Some(a@),
        None => None,
    }
}

/// A tool that the model may be offered.
#[derive(Debug, PartialEq, Eq)]
pub struct Tool {
    pub name: String,
    pub description: Option<String>,
    pub input_schema: Vec<Member>,
    pub output_schema: Option<Json>,
    pub annotations: Option<ToolAnnotations>,
    pub meta: Option<Vec<Member>>,
    /// What else is said of it, such as its icons.
    pub rest: Option<Json>,
}

#[verifier::ext_equal]
pub struct ToolModel {
    pub name: Seq<char>,
    pub description: Option<Seq<char>>,
    pub input_schema: Seq<(Seq<char>, Tree)>,
    pub output_schema: Option<Tree>,
    pub annotations: Option<AnnotationsModel>,
    pub meta: Option<Seq<(Seq<char>, Tree)>>,
    pub rest: Option<Tree>,
}

impl Tool {
    pub open spec fn view(&self) -> ToolModel {
        ToolModel {
            name: self.name@,
            description: text_opt(self.description),
            input_schema: members(self.input_schema@),
            output_schema: tree_opt(self.output_schema),
            annotations: annotations_opt(self.annotations),
            meta: members_opt(self.meta),
            rest: tree_opt(self.rest),
        }
    }

    /// Whether two tools say the same.
    pub fn same(&self, other: &Tool) -> (r: bool)
        ensures
            r == same_tool(self@, other@),
    {
        let annotated = match (&self.annotations, &other.annotations) {
            (Some(a), Some(b)) => same_text(&a.title, &b.title) && a.hints == b.hints,
            (None, None) => true,
            _ => false,
        };
        let meta = match (&self.meta, &other.meta) {
            (Some(a), Some(b)) => members_same(a, b),
            (None, None) => true,
            _ => false,
        };
        let rest = match (&self.rest, &other.rest) {
            (Some(a), Some(b)) => a.same(b),
            (None, None) => true,
            _ => false,
        };
        let output = match (&self.output_schema, &other.output_schema) {
            (Some(a), Some(b)) => a.same(b),
            (None, None) => true,
            _ => false,
        };
        str_eq(self.name.as_str(), other.name.as_str()) && same_text(
            &self.description,
            &other.description,
        ) && members_same(&self.input_schema, &other.input_schema) && output && annotated && meta
            && rest
    }

    pub fn copy(&self) -> (r: Tool)
        ensures
            r@ == self@,
    {
        Tool {
            name: self.name.clone(),
            description: copy_text(&self.description),
            input_schema: copy_members(&self.input_schema),
            output_schema: copy_json(&self.output_schema),
            annotations: match &self.annotations {
                Some(a) => Some(a.copy()),
                None => None,
            },
            meta: match &self.meta {
                Some(m) => Some(copy_members(m)),
                None => None,
            },
            rest: copy_json(&self.rest),
        }
    }
}

/// What the tools of a sequence hold.
pub open spec fn tool_models(v: Seq<Tool>) -> Seq<ToolModel> {
    Seq::new(v.len(), |i: int| v[i]@)
}

/// The names of some tools.
pub open spec fn tool_names(v: Seq<ToolModel>) -> Seq<Seq<char>> {
    Seq::new(v.len(), |i: int| v[i].name)
}

// ---------------------------------------------------------------------------
// Metadata
// ---------------------------------------------------------------------------

/// Whether `v` is an array that holds the text `who`.
pub open spec fn lists(v: Tree, who: Seq<char>) -> bool {
    v matches Tree::Array(items) && exists|i: int|
        0 <= i < items.len() && #[trigger] items[i] == Tree::Str(who)
}

/// A tool of which nothing is said but its name, its description and its schema.
pub open spec fn bare_tool(
    name: Seq<char>,
    description: Seq<char>,
    schema: Seq<(Seq<char>, Tree)>,
) -> ToolModel {
    ToolModel {
        name,
        description: Some(description),
        input_schema: schema,
        output_schema: None,
        annotations: None,
        meta: None,
        rest: None,
    }
}

/// A tool of which nothing is said but its name, its description and its schema.
pub fn plain_tool(name: &str, description: &str, schema: Vec<Member>) -> (r: Tool)
    ensures
        r@ == bare_tool(name@, description@, members(schema@)),
{
    Tool {
        name: name.to_owned(),
        description: Some(description.to_owned()),
        input_schema: schema,
        output_schema: None,
        annotations: None,
        meta: None,
        rest: None,
    }
}

impl ToolModel {
    /// The member `key` of the tool's metadata.
    pub open spec fn meta_get(self, key: Seq<char>) -> Option<Tree> {
        match self.meta {
            Some(ms) => lookup(ms, key),
            None => None,
        }
    }

    /// What the metadata says of who may see the tool: an array of names, or nothing.
    pub open spec fn visibility(self) -> Option<Tree> {
        match self.meta_get("ui"@) {
            Some(ui) => match ui.get("visibility"@) {
                Some(v) => if v is Array {
                    Some(v)
                } else {
                    None
                },
                None => None,
            },
            None => None,
        }
    }

    /// Whether `who` may see the tool: everyone may, unless the metadata lists who.
    pub open spec fn visible_to(self, who: Seq<char>) -> bool {
        self.visibility() matches Some(v) ==> lists(v, who)
    }

    /// The extension that the tool belongs to, where its metadata names one.
    pub open spec fn owner(self) -> Option<Seq<char>> {
        match self.meta_get("goose_extension"@) {
            Some(v) => v.text(),
            None => None,
        }
    }

    /// The resource that shows the tool's results, where the metadata names one.
    pub open spec fn resource_uri(self) -> Option<Seq<char>> {
        match self.meta_get("ui"@) {
            Some(ui) => ui.get_text("resourceUri"@),
            None => None,
        }
    }
}

/// The member `key` of optional metadata.
fn meta_member<'a>(meta: &'a Option<Vec<Member>>, key: &str) -> (r: Option<&'a Json>)
    ensures
        tree_ref(r) == match *meta {
            Some(ms) => lookup(members(ms@), key@),
            None => None,
        },
{
    match meta {
        Some(ms) => member(ms, key),
        None => None,
    }
}

/// Whether the values hold the text `who`.
fn has_name(items: &Vec<Json>, who: &str) -> (r: bool)
    ensures
        r == lists(Tree::Array(trees(items@)), who@),
{
    let mut i: usize = 0;
    while i < items.len()
        invariant
            i <= items@.len(),
            forall|j: int| 0 <= j < i ==> trees(items@)[j] != Tree::Str(who@),
        decreases items@.len() - i,
    {
        if let Some(s) = items[i].as_str() {
            if str_eq(s, who) {
                assert(trees(items@)[i as int] == Tree::Str(who@));
                return true;
            }
        }
        i = i + 1;
    }
    false
}

/// Whether `who` may see the tool.
fn visible_to(tool: &Tool, who: &str) -> (r: bool)
    ensures
        r == tool@.visible_to(who@),
{
    match meta_member(&tool.meta, "ui") {
        Some(ui) => match ui.get("visibility") {
            Some(Json::Array(items)) => has_name(items, who),
            _ => true,
        },
        None => true,
    }
}

/// Whether an app may call the tool. A tool whose metadata does not list who may see it is
/// visible to everyone.
pub fn is_tool_visible_to_app(tool: &Tool) -> (r: bool)
    ensures
        r == tool@.visible_to("app"@),
{
    visible_to(tool, "app")
}

/// Whether the model may see the tool. A tool whose metadata does not list who may see it is
/// visible to everyone.
pub fn is_tool_visible_to_model(tool: &Tool) -> (r: bool)
    ensures
        r == tool@.visible_to("model"@),
{
    visible_to(tool, "model")
}

/// The extension that the tool belongs to.
pub fn get_tool_owner(tool: &Tool) -> (r: Option<String>)
    ensures
        text_opt(r) == tool@.owner(),
{
    match meta_member(&tool.meta, "goose_extension") {
        Some(v) => match v.as_str() {
            Some(s) => Some(s.to_owned()),
            None => None,
        },
        None => None,
    }
}

/// The tool's metadata as a JSON object.
pub fn get_tool_meta_value(tool: &Tool) -> (r: Option<Json>)
    ensures
        tree_opt(r) == match tool@.meta {
            Some(ms) => Some(Tree::Object(ms)),
            None => None,
        },
{
    match &tool.meta {
        Some(ms) => Some(Json::Object(copy_members(ms))),
        None => None,
    }
}

/// The resource that shows the tool's results.
pub fn get_tool_resource_uri(tool: &Tool) -> (r: Option<String>)
    ensures
        text_opt(r) == tool@.resource_uri(),
{
    match meta_member(&tool.meta, "ui") {
        Some(ui) => match ui.get_str("resourceUri") {
            Some(s) => Some(s.to_owned()),
            None => None,
        },
        None => None,
    }
}

/// The names of the members of an object.
pub open spec fn member_names(ms: Seq<(Seq<char>, Tree)>) -> Seq<Seq<char>> {
    Seq::new(ms.len(), |i: int| ms[i].0)
}

/// The names of a tool's parameters, in the order of its schema.
pub open spec fn parameters(tool: ToolModel) -> Seq<Seq<char>> {
    match lookup(tool.input_schema, "properties"@) {
        Some(Tree::Object(ms)) => member_names(ms),
        _ => Seq::empty(),
    }
}

/// The names of a tool's parameters, sorted.
pub fn get_parameter_names(tool: &Tool) -> (r: Vec<String>)
    ensures
        sorted_from(parameters(tool@), texts(r@)),
{
    let mut names: Vec<String> = Vec::new();
    if let Some(Json::Object(ms)) = member(&tool.input_schema, "properties") {
        let mut i: usize = 0;
        while i < ms.len()
            invariant
                i <= ms@.len(),
                names@.len() == i,
                forall|j: int| 0 <= j < i ==> #[trigger] names@[j]@ == ms@[j].key@,
            decreases ms@.len() - i,
        {
            names.push(ms[i].key.clone());
            i = i + 1;
        }
        assert(texts(names@) =~= member_names(members(ms@)));
    } else {
        assert(texts(names@) =~= Seq::empty());
    }
    sorted_strings(&names)
}

/// What a plan is told of a tool.
#[derive(Debug, PartialEq, Eq)]
pub struct ToolInfo {
    pub name: String,
    pub description: String,
    pub parameters: Vec<String>,
}

/// Whether this is what a plan is told of the tool: nothing stands for a missing description, and
/// the parameters are sorted.
pub open spec fn tells_of(info: ToolInfo, tool: ToolModel) -> bool {
    &&& info.name@ == tool.name
    &&& info.description@ == match tool.description {
        Some(d) => d,
        None => Seq::empty(),
    }
    &&& sorted_from(parameters(tool), texts(info.parameters@))
}

/// What a plan is told of some tools.
pub fn tool_infos(tools: &Vec<Tool>) -> (r: Vec<ToolInfo>)
    ensures
        r@.len() == tools@.len(),
        forall|i: int| 0 <= i < r@.len() ==> tells_of(#[trigger] r@[i], tools@[i]@),
{
    let mut out: Vec<ToolInfo> = Vec::new();
    let mut i: usize = 0;
    while i < tools.len()
        invariant
            i <= tools@.len(),
            out@.len() == i,
            forall|j: int| 0 <= j < i ==> tells_of(#[trigger] out@[j], tools@[j]@),
        decreases tools@.len() - i,
    {
        let description = match &tools[i].description {
            Some(d) => d.clone(),
            None => {
                let none = String::new();
                assert(none@ =~= Seq::empty());
                none
            },
        };
        let parameters = get_parameter_names(&tools[i]);
        out.push(ToolInfo { name: tools[i].name.clone(), description, parameters });
        i = i + 1;
    }
    out
}

/// The platform's own extensions, by key.
#[derive(Debug, PartialEq, Eq)]
pub struct PlatformExtension {
    pub key: String,
    pub unprefixed_tools: bool,
    pub hidden: bool,
}

/// The first entry of the table with the key.
pub open spec fn platform_entry(table: Seq<PlatformExtension>, key: Seq<char>) -> Option<
    PlatformExtension,
>
    decreases table.len(),
{
    if table.len() == 0 {
        None
    } else if table[0].key@ == key {
        Some(table[0])
    } else {
        platform_entry(table.skip(1), key)
    }
}

/// The place of the first entry of the table with the key.
pub fn find_platform(table: &Vec<PlatformExtension>, key: &str) -> (r: Option<usize>)
    ensures
        match r {
            Some(i) => i < table@.len() && platform_entry(table@, key@) == Some(table@[i as int]),
            None => platform_entry(table@, key@) is None,
        },
{
    let mut i: usize = 0;
    assert(table@.skip(0) =~= table@);
    while i < table.len()
        invariant
            i <= table@.len(),
            platform_entry(table@, key@) == platform_entry(table@.skip(i as int), key@),
        decreases table@.len() - i,
    {
        if str_eq(table[i].key.as_str(), key) {
            return Some(i);
        }
        assert(table@.skip(i as int).skip(1) =~= table@.skip(i + 1));
        i = i + 1;
    }
    None
}

/// Whether the extension with this key is a platform extension whose tools keep their names,
/// and stay visible while code execution is on.
pub fn is_first_class_extension(key: &str, table: &Vec<PlatformExtension>) -> (r: bool)
    ensures
        r == (platform_entry(table@, key@) matches Some(e) && e.unprefixed_tools),
{
    match find_platform(table, key) {
        Some(i) => table[i].unprefixed_tools,
        None => false,
    }
}

/// Whether the extension with this key is a platform extension that is not shown to the user.
pub fn is_hidden_extension(key: &str, table: &Vec<PlatformExtension>) -> (r: bool)
    ensures
        r == (platform_entry(table@, key@) matches Some(e) && e.hidden),
{
    match find_platform(table, key) {
        Some(i) => table[i].hidden,
        None => false,
    }
}

// ---------------------------------------------------------------------------
// The metadata of tool results
// ---------------------------------------------------------------------------

/// The member of a result's metadata that only this library may set.
pub open spec fn trusted_key() -> Seq<char> {
    "__goose_tool_update_meta"@
}

/// Metadata without what only this library may say of a result: the trusted member, and the
/// member `mcpApp` of the member `goose`, which goes too where nothing else is in it.
pub open spec fn untrusted_removed(ms: Seq<(Seq<char>, Tree)>) -> Seq<(Seq<char>, Tree)> {
    let first = without_member(ms, trusted_key());
    match lookup(first, "goose"@) {
        Some(Tree::Object(inner)) => {
            let rest = without_member(inner, "mcpApp"@);
            if rest.len() == 0 {
                without_member(first, "goose"@)
            } else {
                with_member(first, "goose"@, Tree::Object(rest))
            }
        },
        _ => first,
    }
}

/// The result's metadata without what only this library may say of a result. Metadata that is
/// left empty goes.
pub open spec fn without_untrusted(o: OutputModel) -> OutputModel {
    match o.meta {
        Some(Tree::Object(ms)) => {
            let rest = untrusted_removed(ms);
            OutputModel {
                meta: if rest.len() == 0 {
                    None
                } else {
                    Some(Tree::Object(rest))
                },
                ..o
            }
        },
        _ => o,
    }
}

/// Takes out of a result's metadata what only this library may say of a result.
pub fn remove_untrusted_mcp_app_meta(result: &mut ToolOutput)
    ensures
        final(result)@ == without_untrusted(old(result)@),
{
    let cleaned: Option<Option<Json>> = match &result.meta {
        Some(Json::Object(ms)) => {
            let first = drop_member(ms, "__goose_tool_update_meta");
            let rest: Vec<Member> = match member(&first, "goose") {
                Some(Json::Object(inner)) => {
                    let left = drop_member(inner, "mcpApp");
                    assert(left@.len() == members(left@).len());
                    if left.len() == 0 {
                        drop_member(&first, "goose")
                    } else {
                        let mut out = copy_members(&first);
                        set_member(&mut out, "goose", Json::Object(left));
                        out
                    }
                },
                _ => first,
            };
            assert(members(rest@) == untrusted_removed(members(ms@)));
            assert(rest@.len() == members(rest@).len());
            if rest.len() == 0 {
                Some(None)
            } else {
                Some(Some(Json::Object(rest)))
            }
        },
        _ => None,
    };
    if let Some(meta) = cleaned {
        result.meta = meta;
    }
}

/// What the host is told of the app that shows a tool's results.
#[derive(Debug, PartialEq, Eq)]
pub struct GooseMcpAppToolAttachment {
    pub tool_name: String,
    pub extension_name: String,
    pub resource_uri: String,
    pub tool_meta: Option<Json>,
    pub resource_result: Option<Json>,
    pub read_error: Option<String>,
}

/// An optional member: there where the value is.
pub open spec fn maybe_member(
    ms: Seq<(Seq<char>, Tree)>,
    key: Seq<char>,
    value: Option<Tree>,
) -> Seq<(Seq<char>, Tree)> {
    match value {
        Some(v) => ms.push((key, v)),
        None => ms,
    }
}

impl GooseMcpAppToolAttachment {
    /// The attachment as a JSON object: absent members are left out.
    pub open spec fn tree(&self) -> Tree {
        let base = seq![
            ("toolName"@, Tree::Str(self.tool_name@)),
            ("extensionName"@, Tree::Str(self.extension_name@)),
            ("resourceUri"@, Tree::Str(self.resource_uri@)),
        ];
        let a = maybe_member(base, "toolMeta"@, tree_opt(self.tool_meta));
        let b = maybe_member(a, "resourceResult"@, tree_opt(self.resource_result));
        let c = maybe_member(
            b,
            "readError"@,
            match self.read_error {
                Some(e) => Some(Tree::Str(e@)),
                None => None,
            },
        );
        Tree::Object(c)
    }

    /// The attachment as a JSON object: absent members are left out.
    pub fn to_json(&self) -> (r: Json)
        ensures
            r@ == self.tree(),
    {
        let mut ms: Vec<Member> = Vec::new();
        ms.push(Member { key: "toolName".to_owned(), value: Json::Str(self.tool_name.clone()) });
        ms.push(
            Member {
                key: "extensionName".to_owned(),
                value: Json::Str(self.extension_name.clone()),
            },
        );
        ms.push(
            Member { key: "resourceUri".to_owned(), value: Json::Str(self.resource_uri.clone()) },
        );
        assert(members(ms@) =~= seq![
            ("toolName"@, Tree::Str(self.tool_name@)),
            ("extensionName"@, Tree::Str(self.extension_name@)),
            ("resourceUri"@, Tree::Str(self.resource_uri@)),
        ]);
        if let Some(v) = &self.tool_meta {
            let ghost before = members(ms@);
            ms.push(Member { key: "toolMeta".to_owned(), value: v.copy() });
            assert(members(ms@) =~= before.push(("toolMeta"@, v@)));
        }
        if let Some(v) = &self.resource_result {
            let ghost before = members(ms@);
            ms.push(Member { key: "resourceResult".to_owned(), value: v.copy() });
            assert(members(ms@) =~= before.push(("resourceResult"@, v@)));
        }
        if let Some(v) = &self.read_error {
            let ghost before = members(ms@);
            ms.push(Member { key: "readError".to_owned(), value: Json::Str(v.clone()) });
            assert(members(ms@) =~= before.push(("readError"@, Tree::Str(v@))));
        }
        Json::Object(ms)
    }
}

/// The members of a result's metadata: none where there is no metadata.
pub open spec fn meta_members(o: OutputModel) -> Seq<(Seq<char>, Tree)> {
    match o.meta {
        Some(Tree::Object(ms)) => ms,
        _ => Seq::empty(),
    }
}

/// The result with the attachment as its trusted metadata.
pub open spec fn with_trusted(o: OutputModel, attachment: Tree) -> OutputModel {
    OutputModel {
        meta: Some(
            Tree::Object(
                with_member(
                    meta_members(o),
                    trusted_key(),
                    Tree::Object(seq![("mcpApp"@, attachment)]),
                ),
            ),
        ),
        ..o
    }
}

/// Sets the trusted metadata of a result.
pub fn insert_trusted_tool_update_meta(
    result: &mut ToolOutput,
    attachment: &GooseMcpAppToolAttachment,
)
    ensures
        final(result)@ == with_trusted(old(result)@, attachment.tree()),
{
    let mut ms: Vec<Member> = match &result.meta {
        Some(Json::Object(ms)) => copy_members(ms),
        _ => {
            let none: Vec<Member> = Vec::new();
            assert(members(none@) =~= Seq::empty());
            none
        },
    };
    let trusted = vec![Member { key: "mcpApp".to_owned(), value: attachment.to_json() }];
    assert(members(trusted@) =~= seq![("mcpApp"@, attachment.tree())]);
    set_member(&mut ms, "__goose_tool_update_meta", Json::Object(trusted));
    result.meta = Some(Json::Object(ms));
}

/// What a server put into a result's metadata under the trusted name never survives the
/// cleaning, and neither does an app attachment under `goose`.
pub proof fn law_untrusted_meta_is_removed(o: OutputModel)
    ensures
        lookup(meta_members(without_untrusted(o)), trusted_key()) is None,
        lookup(meta_members(without_untrusted(o)), "goose"@) matches Some(g) ==> g.get(
            "mcpApp"@,
        ) is None,
{
    reveal_strlit("goose");
    reveal_strlit("__goose_tool_update_meta");
    if let Some(Tree::Object(ms)) = o.meta {
        let first = without_member(ms, trusted_key());
        assert("goose"@.len() != trusted_key().len());
        crate::json::lemma_without_member_lookup(ms, trusted_key(), "goose"@);
        if let Some(Tree::Object(inner)) = lookup(first, "goose"@) {
            let rest = without_member(inner, "mcpApp"@);
            crate::json::lemma_without_member_lookup(inner, "mcpApp"@, "mcpApp"@);
            crate::json::lemma_without_member_lookup(first, "goose"@, trusted_key());
            crate::json::lemma_with_member_lookup(
                first,
                "goose"@,
                Tree::Object(rest),
                trusted_key(),
            );
        }
    }
}

/// Cleaning leaves every other member of the metadata as it was.
pub proof fn law_other_meta_survives(o: OutputModel, key: Seq<char>)
    requires
        key != trusted_key(),
        key != "goose"@,
    ensures
        lookup(meta_members(without_untrusted(o)), key) == lookup(meta_members(o), key),
{
    if let Some(Tree::Object(ms)) = o.meta {
        let first = without_member(ms, trusted_key());
        crate::json::lemma_without_member_lookup(ms, trusted_key(), key);
        if let Some(Tree::Object(inner)) = lookup(first, "goose"@) {
            let rest = without_member(inner, "mcpApp"@);
            crate::json::lemma_without_member_lookup(first, "goose"@, key);
            crate::json::lemma_with_member_lookup(first, "goose"@, Tree::Object(rest), key);
        }
        if untrusted_removed(ms).len() == 0 {
            assert(untrusted_removed(ms) =~= Seq::empty());
        }
    }
}

/// The attachment that is set is the one that is read back, whatever the server had put there.
pub proof fn law_trusted_meta_is_read_back(o: OutputModel, attachment: Tree)
    ensures
        lookup(meta_members(with_trusted(o, attachment)), trusted_key()) matches Some(t)
            && t.get("mcpApp"@) == Some(attachment),
{
    let t = Tree::Object(seq![("mcpApp"@, attachment)]);
    crate::json::lemma_with_member_lookup(meta_members(o), trusted_key(), t, trusted_key());
}

/// Who may see a tool: everyone where its metadata lists nobody, and else those that it lists; a
/// list that names nobody hides the tool from all.
pub proof fn law_who_may_see_a_tool(t: ToolModel, who: Seq<char>, items: Seq<Tree>)
    ensures
        t.meta is None ==> t.visible_to(who),
        t.meta_get("ui"@) is None ==> t.visible_to(who),
        (t.meta_get("ui"@) matches Some(ui) && ui.get("visibility"@) == Some(Tree::Array(items)))
            ==> (t.visible_to(who) <==> items.contains(Tree::Str(who))),
        (t.meta_get("ui"@) matches Some(ui) && ui.get("visibility"@) is None) ==> t.visible_to(who),
{
    if items.contains(Tree::Str(who)) {
        let i = choose|i: int| 0 <= i < items.len() && items[i] == Tree::Str(who);
        assert(items[i] == Tree::Str(who));
    }
}

/// An entry of the table is found by its key: the first that has it, and none only where none has.
pub proof fn law_platform_entries_are_found(table: Seq<PlatformExtension>, key: Seq<char>)
    ensures
        platform_entry(table, key) matches Some(e) ==> e.key@ == key && table.contains(e),
        platform_entry(table, key) is None <==> forall|i: int|
            0 <= i < table.len() ==> (#[trigger] table[i]).key@ != key,
    decreases table.len(),
{
    if table.len() > 0 {
        let rest = table.skip(1);
        law_platform_entries_are_found(rest, key);
        if table[0].key@ == key {
            assert(table.contains(table[0]));
        } else {
            if platform_entry(table, key) is Some {
                crate::seqs::lemma_contains_first(table, platform_entry(table, key)->0);
            } else {
                assert forall|i: int| 0 <= i < table.len() implies (#[trigger] table[i]).key@
                    != key by {
                    if i > 0 {
                        assert(rest[i - 1] == table[i]);
                    }
                }
            }
            if forall|i: int| 0 <= i < table.len() ==> (#[trigger] table[i]).key@ != key {
                assert forall|i: int| 0 <= i < rest.len() implies (#[trigger] rest[i]).key@
                    != key by {
                    assert(rest[i] == table[i + 1]);
                }
            }
        }
    }
}

/// The host is told the tool, its extension and its resource, each under its own name.
#[verifier::rlimit(60)]
pub proof fn law_attachments_name_their_tool(a: GooseMcpAppToolAttachment)
    ensures
        a.tree().get("toolName"@) == Some(Tree::Str(a.tool_name@)),
        a.tree().get("extensionName"@) == Some(Tree::Str(a.extension_name@)),
        a.tree().get("resourceUri"@) == Some(Tree::Str(a.resource_uri@)),
        a.tree().get("toolMeta"@) == tree_opt(a.tool_meta),
        a.tree().get("resourceResult"@) == tree_opt(a.resource_result),
        a.tree().get("readError"@) == match a.read_error {
            Some(e) => Some(Tree::Str(e@)),
            None => None,
        },
{
    reveal_strlit("toolName");
    reveal_strlit("extensionName");
    reveal_strlit("resourceUri");
    reveal_strlit("toolMeta");
    reveal_strlit("resourceResult");
    reveal_strlit("readError");
    assert("toolName"@[4] == 'N' && "toolMeta"@[4] == 'M');
    assert("extensionName"@[0] == 'e');
    assert("resourceUri"@.len() == 11 && "resourceResult"@.len() == 14 && "readError"@.len() == 9
        && "toolName"@.len() == 8 && "toolMeta"@.len() == 8 && "extensionName"@.len() == 13);
    let base = seq![
        ("toolName"@, Tree::Str(a.tool_name@)),
        ("extensionName"@, Tree::Str(a.extension_name@)),
        ("resourceUri"@, Tree::Str(a.resource_uri@)),
    ];
    let error = match a.read_error {
        Some(e) => Some(Tree::Str(e@)),
        None => None,
    };
    let b = maybe_member(base, "toolMeta"@, tree_opt(a.tool_meta));
    let c = maybe_member(b, "resourceResult"@, tree_opt(a.resource_result));
    let d = maybe_member(c, "readError"@, error);
    lemma_lookup_at(d, "toolName"@, 0);
    lemma_lookup_at(d, "extensionName"@, 1);
    lemma_lookup_at(d, "resourceUri"@, 2);
    if a.tool_meta is Some {
        lemma_lookup_at(d, "toolMeta"@, 3);
    } else {
        lemma_lookup_none(d, "toolMeta"@);
    }
    if a.resource_result is Some {
        lemma_lookup_at(d, "resourceResult"@, b.len() as int);
    } else {
        lemma_lookup_none(d, "resourceResult"@);
    }
    if a.read_error is Some {
        lemma_lookup_at(d, "readError"@, c.len() as int);
    } else {
        lemma_lookup_none(d, "readError"@);
    }
}

/// Cleaning and attaching change nothing of a result but its metadata.
pub proof fn law_results_keep_their_content(o: OutputModel, attachment: Tree)
    ensures
        without_untrusted(o).content == o.content,
        without_untrusted(o).is_error == o.is_error,
        without_untrusted(o).structured_content == o.structured_content,
        with_trusted(o, attachment).content == o.content,
        with_trusted(o, attachment).is_error == o.is_error,
        with_trusted(o, attachment).structured_content == o.structured_content,
{
}

/// A plan is told each parameter of a tool, by name, and its name and description as they are.
pub proof fn law_plans_are_told_the_parameters(info: ToolInfo, t: ToolModel)
    requires
        tells_of(info, t),
    ensures
        info.name@ == t.name,
        t.description matches Some(d) ==> info.description@ == d,
        t.description is None ==> info.description@.len() == 0,
        lookup(t.input_schema, "properties"@) matches Some(Tree::Object(ms)) ==> parameters(t).len()
            == ms.len() && forall|i: int|
            0 <= i < ms.len() ==> (#[trigger] parameters(t)[i]) == ms[i].0,
        lookup(t.input_schema, "properties"@) is None ==> parameters(t).len() == 0,
{
}

} // verus!
