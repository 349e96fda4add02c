//! The parts of a reply: coercing tool arguments, sorting out tool requests, and preparing what
//! the provider is sent.

use crate::conversation::{
    contents, copy_contents, copy_json, copy_members, copy_text, members_opt, messages,
    plain_message, requests, CallModel, ContentModel, Message, MessageContent, MessageModel,
    RequestModel, ToolCall, ToolRequest,
};
use crate::json::{
    compact_text, lookup, member, members, settled, tree_opt, trees, Json, Member, Tree,
};
use crate::patterns::{is_match, pattern_matches, pattern_valid};
use crate::text::{
    begins, cat, cat3, contains_string, has_text, join, joined, lemma_has_text, lowercase,
    sort_order, str_eq, text_opt, texts,
};
use crate::tools::{
    is_first_class_extension, is_tool_visible_to_model, platform_entry, tool_models, tool_names,
    PlatformExtension, Tool, ToolModel,
};
use vstd::prelude::*;
use vstd::string::*;

verus! {

broadcast use {crate::json::lemma_array_view, crate::json::lemma_object_view};

// ---------------------------------------------------------------------------
// Coercing arguments
// ---------------------------------------------------------------------------

/// What a text reads as when a number is wanted: the number, where the table of readings has
/// one for it, else the text.
pub open spec fn number_reading(s: Seq<char>, readings: Seq<(Seq<char>, Tree)>) -> Tree {
    match lookup(readings, s) {
        Some(n) => n,
        None => Tree::Str(s),
    }
}

/// What a text reads as when a truth value is wanted.
pub open spec fn bool_reading(s: Seq<char>) -> Tree {
    if lowercase(s) == "true"@ {
        Tree::Bool(true)
    } else if lowercase(s) == "false"@ {
        Tree::Bool(false)
    } else {
        Tree::Str(s)
    }
}

pub open spec fn is_number_type(t: Seq<char>) -> bool {
    t == "number"@ || t == "integer"@
}

/// What a text reads as where one of several types is wanted: the first that fits decides.
pub open spec fn first_reading(
    s: Seq<char>,
    types: Seq<Tree>,
    readings: Seq<(Seq<char>, Tree)>,
) -> Tree
    decreases types.len(),
{
    if types.len() == 0 {
        Tree::Str(s)
    } else {
        match types[0] {
            Tree::Str(t) => if is_number_type(t) && lookup(readings, s) is Some {
                number_reading(s, readings)
            } else if t == "boolean"@ && !(bool_reading(s) is Str) {
                bool_reading(s)
            } else {
                first_reading(s, types.skip(1), readings)
            },
            _ => first_reading(s, types.skip(1), readings),
        }
    }
}

/// What a text reads as under the schema of its parameter.
pub open spec fn coerced_text(
    s: Seq<char>,
    schema: Tree,
    readings: Seq<(Seq<char>, Tree)>,
) -> Tree {
    match schema.get("type"@) {
        Some(Tree::Str(t)) => if is_number_type(t) {
            number_reading(s, readings)
        } else if t == "boolean"@ {
            bool_reading(s)
        } else {
            Tree::Str(s)
        },
        Some(Tree::Array(types)) => first_reading(s, types, readings),
        _ => Tree::Str(s),
    }
}

/// The number that a text reads as, where the table has one; else the text.
fn try_coerce_number(s: &str, readings: &Vec<Member>) -> (r: Json)
    ensures
        r@ == number_reading(s@, members(readings@)),
{
    match member(readings, s) {
        Some(n) => n.copy(),
        None => Json::Str(s.to_owned()),
    }
}

/// The truth value that a text reads as, else the text.
pub fn try_coerce_boolean(s: &str) -> (r: Json)
    ensures
        r@ == bool_reading(s@),
{
    let lower = s.to_lowercase();
    if str_eq(lower.as_str(), "true") {
        Json::Bool(true)
    } else if str_eq(lower.as_str(), "false") {
        Json::Bool(false)
    } else {
        Json::Str(s.to_owned())
    }
}

/// What a text reads as under the schema of its parameter. `readings` gives, for each text that
/// is a number, the number.
pub fn coerce_value(s: &str, schema: &Json, readings: &Vec<Member>) -> (r: Json)
    ensures
        r@ == coerced_text(s@, schema@, members(readings@)),
{
    match schema.get("type") {
        Some(Json::Str(t)) => {
            if str_eq(t.as_str(), "number") || str_eq(t.as_str(), "integer") {
                try_coerce_number(s, readings)
            } else if str_eq(t.as_str(), "boolean") {
                try_coerce_boolean(s)
            } else {
                Json::Str(s.to_owned())
            }
        },
        Some(Json::Array(types)) => {
            let ghost all = trees(types@);
            let mut i: usize = 0;
            assert(all.skip(0) =~= all);
            while i < types.len()
                invariant
                    all == trees(types@),
                    i <= types@.len(),
                    first_reading(s@, all, members(readings@)) == first_reading(
                        s@,
                        all.skip(i as int),
                        members(readings@),
                    ),
                    schema@.get("type"@) == Some(Tree::Array(all)),
                decreases types@.len() - i,
            {
                assert(all.skip(i as int)[0] == all[i as int]);
                assert(all.skip(i as int).skip(1) =~= all.skip(i + 1));
                if let Json::Str(t) = &types[i] {
                    if str_eq(t.as_str(), "number") || str_eq(t.as_str(), "integer") {
                        if let Some(n) = member(readings, s) {
                            return n.copy();
                        }
                        proof {
                            reveal_strlit("number");
                            reveal_strlit("integer");
                            reveal_strlit("boolean");
                            assert("number"@[0] == 'n');
                            assert("integer"@[0] == 'i');
                            assert("boolean"@[0] == 'b');
                        }
                    } else if str_eq(t.as_str(), "boolean") {
                        let b = try_coerce_boolean(s);
                        if let Json::Bool(v) = b {
                            return Json::Bool(v);
                        }
                    }
                }
                i = i + 1;
            }
            Json::Str(s.to_owned())
        },
        _ => Json::Str(s.to_owned()),
    }
}

/// An argument under the schemas of the parameters: a text with a schema is coerced, anything
/// else is kept.
pub open spec fn coerced_member(
    m: (Seq<char>, Tree),
    properties: Seq<(Seq<char>, Tree)>,
    readings: Seq<(Seq<char>, Tree)>,
) -> (Seq<char>, Tree) {
    (
        m.0,
        match (m.1, lookup(properties, m.0)) {
            (Tree::Str(s), Some(schema)) => coerced_text(s, schema, readings),
            _ => m.1,
        },
    )
}

/// The arguments under a tool's schema: none where there are none, or where the schema has no
/// object of properties.
pub open spec fn coerced_arguments(
    arguments: Option<Seq<(Seq<char>, Tree)>>,
    schema: Seq<(Seq<char>, Tree)>,
    readings: Seq<(Seq<char>, Tree)>,
) -> Option<Seq<(Seq<char>, Tree)>> {
    match (arguments, lookup(schema, "properties"@)) {
        (Some(args), Some(Tree::Object(properties))) => Some(
            Seq::new(args.len(), |i: int| coerced_member(args[i], properties, readings)),
        ),
        _ => None,
    }
}

/// The arguments under a tool's schema.
pub fn coerce_tool_arguments(
    arguments: &Option<Vec<Member>>,
    tool_schema: &Vec<Member>,
    readings: &Vec<Member>,
) -> (r: Option<Vec<Member>>)
    ensures
        members_opt(r) == coerced_arguments(
            members_opt(*arguments),
            members(tool_schema@),
            members(readings@),
        ),
{
    match (arguments, member(tool_schema, "properties")) {
        (Some(args), Some(Json::Object(properties))) => {
            let mut out: Vec<Member> = Vec::new();
            let mut i: usize = 0;
            while i < args.len()
                invariant
                    i <= args@.len(),
                    out@.len() == i,
                    forall|j: int|
                        0 <= j < i ==> members(out@)[j] == #[trigger] coerced_member(
                            members(args@)[j],
                            members(properties@),
                            members(readings@),
                        ),
                decreases args@.len() - i,
            {
                let key = args[i].key.clone();
                let value = match (&args[i].value, member(properties, args[i].key.as_str())) {
                    (Json::Str(s), Some(schema)) => coerce_value(s.as_str(), schema, readings),
                    _ => args[i].value.copy(),
                };
                let ghost before = out@;
                out.push(Member { key, value });
                proof {
                    assert forall|j: int| 0 <= j < i + 1 implies members(out@)[j]
                        == #[trigger] coerced_member(
                        members(args@)[j],
                        members(properties@),
                        members(readings@),
                    ) by {
                        if j < i {
                            assert(members(out@)[j] == members(before)[j]);
                        }
                    }
                }
                i = i + 1;
            }
            assert(members(out@) =~= Seq::new(
                args@.len(),
                |i: int|
                    coerced_member(members(args@)[i], members(properties@), members(readings@)),
            ));
            Some(out)
        },
        _ => None,
    }
}

// ---------------------------------------------------------------------------
// Sorting out tool requests
// ---------------------------------------------------------------------------

/// The members of `own`, then those of `more` whose names are not there yet.
pub open spec fn merged_members(
    own: Seq<(Seq<char>, Tree)>,
    more: Seq<(Seq<char>, Tree)>,
) -> Seq<(Seq<char>, Tree)>
    decreases more.len(),
{
    if more.len() == 0 {
        own
    } else if lookup(own, more[0].0) is Some {
        merged_members(own, more.skip(1))
    } else {
        merged_members(own.push(more[0]), more.skip(1))
    }
}

/// A request's metadata with that of the registered tool: what the request says wins.
pub open spec fn merged_meta(own: Option<Tree>, tool: Option<Seq<(Seq<char>, Tree)>>) -> Option<
    Tree,
> {
    match (own, tool) {
        (_, None) => own,
        (None, Some(ms)) => Some(Tree::Object(ms)),
        (Some(Tree::Object(own)), Some(ms)) => Some(Tree::Object(merged_members(own, ms))),
        (Some(own), Some(_)) => Some(own),
    }
}

/// The first tool with the name.
pub open spec fn tool_named(tools: Seq<ToolModel>, name: Seq<char>) -> Option<ToolModel>
    decreases tools.len(),
{
    if tools.len() == 0 {
        None
    } else if tools[0].name == name {
        Some(tools[0])
    } else {
        tool_named(tools.skip(1), name)
    }
}

/// A request with its arguments coerced and its metadata merged, where the tool is registered.
pub open spec fn coerced_request(
    req: RequestModel,
    tools: Seq<ToolModel>,
    readings: Seq<(Seq<char>, Tree)>,
) -> RequestModel {
    match req.tool_call {
        Ok(call) => match tool_named(tools, call.name) {
            Some(tool) => RequestModel {
                tool_call: Ok(
                    CallModel {
                        arguments: coerced_arguments(call.arguments, tool.input_schema, readings),
                        ..call
                    },
                ),
                tool_meta: merged_meta(req.tool_meta, tool.meta),
                ..req
            },
            None => req,
        },
        Err(_) => req,
    }
}

/// Whether one of the requests has the id.
pub open spec fn has_id(reqs: Seq<RequestModel>, id: Seq<char>) -> bool {
    exists|i: int| 0 <= i < reqs.len() && (#[trigger] reqs[i]).id == id
}

/// The requests among some contents, coerced, in order; of several with one id the first.
pub open spec fn first_requests(
    content: Seq<ContentModel>,
    tools: Seq<ToolModel>,
    readings: Seq<(Seq<char>, Tree)>,
) -> Seq<RequestModel>
    decreases content.len(),
{
    if content.len() == 0 {
        Seq::empty()
    } else {
        let head = first_requests(content.drop_last(), tools, readings);
        match content.last() {
            ContentModel::ToolRequest(req) => if has_id(head, req.id) {
                head
            } else {
                head.push(coerced_request(req, tools, readings))
            },
            _ => head,
        }
    }
}

/// Whether the frontend runs the tool that a request asks for.
pub open spec fn for_frontend(req: RequestModel, frontend: Seq<Seq<char>>) -> bool {
    req.tool_call matches Ok(call) && frontend.contains(call.name)
}

/// The contents that are shown and kept in the history: requests that repeat an id go, and those
/// that the frontend runs go unless the provider ran them already; reasoning goes where it is to
/// be suppressed.
pub open spec fn shown_contents(
    content: Seq<ContentModel>,
    tools: Seq<ToolModel>,
    readings: Seq<(Seq<char>, Tree)>,
    frontend: Seq<Seq<char>>,
    suppress: bool,
) -> Seq<ContentModel>
    decreases content.len(),
{
    if content.len() == 0 {
        Seq::empty()
    } else {
        let head = shown_contents(content.drop_last(), tools, readings, frontend, suppress);
        match content.last() {
            ContentModel::ToolRequest(req) => {
                let coerced = coerced_request(req, tools, readings);
                if has_id(first_requests(content.drop_last(), tools, readings), req.id) {
                    head
                } else if !coerced.external() && for_frontend(coerced, frontend) {
                    head
                } else {
                    head.push(ContentModel::ToolRequest(coerced))
                }
            },
            c => if suppress && c.thinking() {
                head
            } else {
                head.push(c)
            },
        }
    }
}

/// The requests that the frontend runs.
pub open spec fn frontend_part(reqs: Seq<RequestModel>, frontend: Seq<Seq<char>>) -> Seq<
    RequestModel,
>
    decreases reqs.len(),
{
    if reqs.len() == 0 {
        Seq::empty()
    } else {
        let head = frontend_part(reqs.drop_last(), frontend);
        let req = reqs.last();
        if !req.external() && for_frontend(req, frontend) {
            head.push(req)
        } else {
            head
        }
    }
}

/// The requests that are neither run already nor run by the frontend.
pub open spec fn remaining_part(reqs: Seq<RequestModel>, frontend: Seq<Seq<char>>) -> Seq<
    RequestModel,
>
    decreases reqs.len(),
{
    if reqs.len() == 0 {
        Seq::empty()
    } else {
        let head = remaining_part(reqs.drop_last(), frontend);
        let req = reqs.last();
        if !req.external() && !for_frontend(req, frontend) {
            head.push(req)
        } else {
            head
        }
    }
}

/// Whether the requests are split into those that the frontend runs and the rest.
pub open spec fn split_requests(
    reqs: Seq<RequestModel>,
    frontend: Seq<Seq<char>>,
    for_it: Seq<RequestModel>,
    rest: Seq<RequestModel>,
) -> bool {
    for_it == frontend_part(reqs, frontend) && rest == remaining_part(reqs, frontend)
}

/// The tool requests of a response: those that the frontend runs, the rest, and the message
/// that is shown and kept.
#[derive(Debug, PartialEq, Eq)]
pub struct ToolCategorizeResult {
    pub frontend_requests: Vec<ToolRequest>,
    pub remaining_requests: Vec<ToolRequest>,
    pub filtered_response: Message,
}

fn find_tool(tools: &Vec<Tool>, name: &str) -> (r: Option<usize>)
    ensures
        match r {
            Some(i) => i < tools@.len() && tool_named(tool_models(tools@), name@) == Some(
                tools@[i as int]@,
            ),
            None => tool_named(tool_models(tools@), name@) is None,
        },
{
    let ghost all = tool_models(tools@);
    let mut i: usize = 0;
    assert(all.skip(0) =~= all);
    while i < tools.len()
        invariant
            all == tool_models(tools@),
            i <= tools@.len(),
            tool_named(all, name@) == tool_named(all.skip(i as int), name@),
        decreases tools@.len() - i,
    {
        assert(all.skip(i as int)[0] == tools@[i as int]@);
        assert(all.skip(i as int).skip(1) =~= all.skip(i + 1));
        if str_eq(tools[i].name.as_str(), name) {
            return Some(i);
        }
        i = i + 1;
    }
    None
}

fn merge_meta(own: &Option<Json>, tool: &Option<Vec<Member>>) -> (r: Option<Json>)
    ensures
        tree_opt(r) == merged_meta(tree_opt(*own), members_opt(*tool)),
{
    match (own, tool) {
        (_, None) => copy_json(own),
        (None, Some(ms)) => Some(Json::Object(copy_members(ms))),
        (Some(Json::Object(own)), Some(ms)) => {
            let mut out = copy_members(own);
            let ghost more = members(ms@);
            let mut i: usize = 0;
            assert(more.skip(0) =~= more);
            while i < ms.len()
                invariant
                    more == members(ms@),
                    i <= ms@.len(),
                    merged_members(members(out@), more.skip(i as int)) == merged_members(
                        members(own@),
                        more,
                    ),
                decreases ms@.len() - i,
            {
                assert(more.skip(i as int)[0] == more[i as int]);
                assert(more.skip(i as int).skip(1) =~= more.skip(i + 1));
                if member(&out, ms[i].key.as_str()).is_none() {
                    let ghost before = members(out@);
                    out.push(Member { key: ms[i].key.clone(), value: ms[i].value.copy() });
                    assert(members(out@) =~= before.push(more[i as int]));
                }
                i = i + 1;
            }
            Some(Json::Object(out))
        },
        (Some(own), Some(_)) => Some(own.copy()),
    }
}

fn coerce_request(req: &ToolRequest, tools: &Vec<Tool>, readings: &Vec<Member>) -> (r: ToolRequest)
    ensures
        r@ == coerced_request(req@, tool_models(tools@), members(readings@)),
{
    match &req.tool_call {
        Ok(call) => match find_tool(tools, call.name.as_str()) {
            Some(i) => {
                let arguments = coerce_tool_arguments(
                    &call.arguments,
                    &tools[i].input_schema,
                    readings,
                );
                ToolRequest {
                    id: req.id.clone(),
                    tool_call: Ok(
                        ToolCall {
                            name: call.name.clone(),
                            arguments,
                            rest: copy_json(&call.rest),
                        },
                    ),
                    metadata: copy_json(&req.metadata),
                    tool_meta: merge_meta(&req.tool_meta, &tools[i].meta),
                }
            },
            None => req.copy(),
        },
        Err(_) => req.copy(),
    }
}

fn id_seen(reqs: &Vec<ToolRequest>, id: &str) -> (r: bool)
    ensures
        r == has_id(requests(reqs@), id@),
{
    let mut i: usize = 0;
    while i < reqs.len()
        invariant
            i <= reqs@.len(),
            forall|j: int| 0 <= j < i ==> reqs@[j].id@ != id@,
        decreases reqs@.len() - i,
    {
        if str_eq(reqs[i].id.as_str(), id) {
            assert(requests(reqs@)[i as int].id == id@);
            return true;
        }
        i = i + 1;
    }
    assert forall|j: int| 0 <= j < reqs@.len() implies (#[trigger] requests(reqs@)[j]).id
        != id@ by {
        assert(reqs@[j].id@ != id@);
    }
    false
}

fn asks_frontend(req: &ToolRequest, frontend: &Vec<String>) -> (r: bool)
    ensures
        r == for_frontend(req@, texts(frontend@)),
{
    match &req.tool_call {
        Ok(call) => contains_string(frontend, call.name.as_str()),
        Err(_) => false,
    }
}

/// Sorts out the tool requests of a response. `frontend` names the tools that the frontend runs.
/// Reasoning is left out of the filtered message only where the caller has shown some already
/// and the response asks for a tool.
pub fn categorize_tool_requests(
    response: &Message,
    tools: &Vec<Tool>,
    readings: &Vec<Member>,
    frontend: &Vec<String>,
    suppress_replayed_thinking: bool,
) -> (r: ToolCategorizeResult)
    ensures
        ({
            let reqs = first_requests(
                response@.content,
                tool_models(tools@),
                members(readings@),
            );
            &&& split_requests(
                reqs,
                texts(frontend@),
                requests(r.frontend_requests@),
                requests(r.remaining_requests@),
            )
            &&& r.filtered_response@ == (MessageModel {
                id: response@.id,
                ..plain_message(
                    response@.role,
                    response@.created,
                    shown_contents(
                        response@.content,
                        tool_models(tools@),
                        members(readings@),
                        texts(frontend@),
                        suppress_replayed_thinking && reqs.len() > 0,
                    ),
                )
            })
        }),
{
    let ghost all = contents(response.content@);
    let ghost tm = tool_models(tools@);
    let ghost rm = members(readings@);
    let ghost fm = texts(frontend@);
    let mut firsts: Vec<ToolRequest> = Vec::new();
    let mut i: usize = 0;
    assert(requests(firsts@) =~= first_requests(all.take(0), tm, rm));
    while i < response.content.len()
        invariant
            all == contents(response.content@),
            tm == tool_models(tools@),
            rm == members(readings@),
            i <= response.content@.len(),
            requests(firsts@) == first_requests(all.take(i as int), tm, rm),
        decreases response.content@.len() - i,
    {
        assert(all.take(i + 1).drop_last() =~= all.take(i as int));
        assert(all.take(i + 1).last() == response.content@[i as int]@);
        if let MessageContent::ToolRequest(req) = &response.content[i] {
            if !id_seen(&firsts, req.id.as_str()) {
                let ghost before = requests(firsts@);
                let c = coerce_request(req, tools, readings);
                firsts.push(c);
                assert(requests(firsts@) =~= before.push(coerced_request(req@, tm, rm)));
            }
        }
        i = i + 1;
    }
    assert(all.take(i as int) =~= all);
    assert(requests(firsts@).len() == firsts@.len());

    let suppress = suppress_replayed_thinking && firsts.len() > 0;
    let mut shown: Vec<MessageContent> = Vec::new();
    let mut seen: Vec<ToolRequest> = Vec::new();
    let mut k: usize = 0;
    assert(contents(shown@) =~= shown_contents(all.take(0), tm, rm, fm, suppress));
    assert(requests(seen@) =~= first_requests(all.take(0), tm, rm));
    while k < response.content.len()
        invariant
            all == contents(response.content@),
            tm == tool_models(tools@),
            rm == members(readings@),
            fm == texts(frontend@),
            k <= response.content@.len(),
            requests(seen@) == first_requests(all.take(k as int), tm, rm),
            contents(shown@) == shown_contents(all.take(k as int), tm, rm, fm, suppress),
        decreases response.content@.len() - k,
    {
        assert(all.take(k + 1).drop_last() =~= all.take(k as int));
        assert(all.take(k + 1).last() == response.content@[k as int]@);
        let ghost before = contents(shown@);
        if let MessageContent::ToolRequest(req) = &response.content[k] {
            if !id_seen(&seen, req.id.as_str()) {
                let ghost seen_before = requests(seen@);
                let c = coerce_request(req, tools, readings);
                if c.is_externally_dispatched() || !asks_frontend(&c, frontend) {
                    shown.push(MessageContent::ToolRequest(c.copy()));
                    assert(contents(shown@) =~= before.push(ContentModel::ToolRequest(c@)));
                }
                seen.push(c);
                assert(requests(seen@) =~= seen_before.push(coerced_request(req@, tm, rm)));
            }
        } else if !(suppress && response.content[k].is_thinking()) {
            shown.push(response.content[k].copy());
            assert(contents(shown@) =~= before.push(response.content@[k as int]@));
        }
        k = k + 1;
    }
    assert(all.take(k as int) =~= all);

    let mut frontend_requests: Vec<ToolRequest> = Vec::new();
    let mut remaining_requests: Vec<ToolRequest> = Vec::new();
    let ghost reqs = requests(firsts@);
    let mut n: usize = 0;
    assert(requests(frontend_requests@) =~= frontend_part(reqs.take(0), fm));
    assert(requests(remaining_requests@) =~= remaining_part(reqs.take(0), fm));
    while n < firsts.len()
        invariant
            reqs == requests(firsts@),
            fm == texts(frontend@),
            n <= firsts@.len(),
            requests(frontend_requests@) == frontend_part(reqs.take(n as int), fm),
            requests(remaining_requests@) == remaining_part(reqs.take(n as int), fm),
        decreases firsts@.len() - n,
    {
        assert(reqs.take(n + 1).drop_last() =~= reqs.take(n as int));
        assert(reqs.take(n + 1).last() == firsts@[n as int]@);
        if !firsts[n].is_externally_dispatched() {
            if asks_frontend(&firsts[n], frontend) {
                let ghost before = requests(frontend_requests@);
                frontend_requests.push(firsts[n].copy());
                assert(requests(frontend_requests@) =~= before.push(firsts@[n as int]@));
            } else {
                let ghost before = requests(remaining_requests@);
                remaining_requests.push(firsts[n].copy());
                assert(requests(remaining_requests@) =~= before.push(firsts@[n as int]@));
            }
        }
        n = n + 1;
    }
    assert(reqs.take(n as int) =~= reqs);

    let mut filtered = Message::new(response.role, response.created, shown);
    filtered.id = copy_text(&response.id);
    ToolCategorizeResult {
        frontend_requests,
        remaining_requests,
        filtered_response: filtered,
    }
}

// ---------------------------------------------------------------------------
// What holds of the sorted requests
// ---------------------------------------------------------------------------

/// No id occurs twice among the requests that are kept.
pub proof fn law_request_ids_are_unique(
    content: Seq<ContentModel>,
    tools: Seq<ToolModel>,
    readings: Seq<(Seq<char>, Tree)>,
    i: int,
    j: int,
)
    requires
        0 <= i < j < first_requests(content, tools, readings).len(),
    ensures
        first_requests(content, tools, readings)[i].id != first_requests(
            content,
            tools,
            readings,
        )[j].id,
    decreases content.len(),
{
    let head = first_requests(content.drop_last(), tools, readings);
    if j < head.len() {
        law_request_ids_are_unique(content.drop_last(), tools, readings, i, j);
    } else {
        assert(!has_id(head, first_requests(content, tools, readings)[j].id));
        assert(head[i].id == first_requests(content, tools, readings)[i].id);
    }
}

/// Every id that a request of the response has is kept.
pub proof fn law_every_request_id_is_kept(
    content: Seq<ContentModel>,
    tools: Seq<ToolModel>,
    readings: Seq<(Seq<char>, Tree)>,
    k: int,
)
    requires
        0 <= k < content.len(),
        content[k] is ToolRequest,
    ensures
        has_id(first_requests(content, tools, readings), content[k]->ToolRequest_0.id),
    decreases content.len(),
{
    let head = first_requests(content.drop_last(), tools, readings);
    let r = first_requests(content, tools, readings);
    let id = content[k]->ToolRequest_0.id;
    if k < content.len() - 1 {
        law_every_request_id_is_kept(content.drop_last(), tools, readings, k);
        let w = choose|w: int| 0 <= w < head.len() && (#[trigger] head[w]).id == id;
        assert(r[w] == head[w]);
    } else if !has_id(head, id) {
        assert(r[head.len() as int].id == id);
    } else {
        assert(r == head);
    }
}

/// A request is in one bucket at most, and in neither where the provider ran it already: the two
/// buckets hold kept requests only, those of the first are for the frontend and those of the
/// second are not.
pub proof fn law_buckets(reqs: Seq<RequestModel>, frontend: Seq<Seq<char>>)
    ensures
        forall|i: int|
            0 <= i < frontend_part(reqs, frontend).len() ==> {
                let req = #[trigger] frontend_part(reqs, frontend)[i];
                reqs.contains(req) && !req.external() && for_frontend(req, frontend)
            },
        forall|i: int|
            0 <= i < remaining_part(reqs, frontend).len() ==> {
                let req = #[trigger] remaining_part(reqs, frontend)[i];
                reqs.contains(req) && !req.external() && !for_frontend(req, frontend)
            },
        forall|k: int|
            0 <= k < reqs.len() && !(#[trigger] reqs[k]).external() ==> (frontend_part(
                reqs,
                frontend,
            ).contains(reqs[k]) || remaining_part(reqs, frontend).contains(reqs[k])),
    decreases reqs.len(),
{
    if reqs.len() > 0 {
        let rest = reqs.drop_last();
        law_buckets(rest, frontend);
        let f = frontend_part(reqs, frontend);
        let m = remaining_part(reqs, frontend);
        assert forall|i: int| 0 <= i < f.len() implies {
            let req = #[trigger] f[i];
            reqs.contains(req) && !req.external() && for_frontend(req, frontend)
        } by {
            if i < frontend_part(rest, frontend).len() {
                let req = frontend_part(rest, frontend)[i];
                assert(f[i] == req);
                let w = choose|w: int| 0 <= w < rest.len() && rest[w] == req;
                assert(reqs[w] == req);
            } else {
                assert(reqs[reqs.len() - 1] == f[i]);
            }
        }
        assert forall|i: int| 0 <= i < m.len() implies {
            let req = #[trigger] m[i];
            reqs.contains(req) && !req.external() && !for_frontend(req, frontend)
        } by {
            if i < remaining_part(rest, frontend).len() {
                let req = remaining_part(rest, frontend)[i];
                assert(m[i] == req);
                let w = choose|w: int| 0 <= w < rest.len() && rest[w] == req;
                assert(reqs[w] == req);
            } else {
                assert(reqs[reqs.len() - 1] == m[i]);
            }
        }
        assert forall|k: int| 0 <= k < reqs.len() && !(#[trigger] reqs[k]).external() implies (
        f.contains(reqs[k]) || m.contains(reqs[k])) by {
            if k < rest.len() {
                assert(rest[k] == reqs[k]);
                let fr = frontend_part(rest, frontend);
                let mr = remaining_part(rest, frontend);
                if fr.contains(rest[k]) {
                    let w = choose|w: int| 0 <= w < fr.len() && fr[w] == rest[k];
                    assert(f[w] == reqs[k]);
                } else {
                    let w = choose|w: int| 0 <= w < mr.len() && mr[w] == rest[k];
                    assert(m[w] == reqs[k]);
                }
            } else if for_frontend(reqs[k], frontend) {
                assert(f[f.len() - 1] == reqs[k]);
            } else {
                assert(m[m.len() - 1] == reqs[k]);
            }
        }
    }
}

/// Coercing a request never hides that the provider ran it.
pub proof fn law_external_mark_survives(
    req: RequestModel,
    tools: Seq<ToolModel>,
    readings: Seq<(Seq<char>, Tree)>,
)
    requires
        req.external(),
    ensures
        coerced_request(req, tools, readings).external(),
{
    if let Ok(call) = req.tool_call {
        if let Some(tool) = tool_named(tools, call.name) {
            if let (Some(Tree::Object(own)), Some(ms)) = (req.tool_meta, tool.meta) {
                lemma_merged_keeps(own, ms, crate::conversation::external_dispatch_key());
            }
        }
    }
}

/// Merging keeps what is there already.
pub proof fn lemma_merged_keeps(
    own: Seq<(Seq<char>, Tree)>,
    more: Seq<(Seq<char>, Tree)>,
    key: Seq<char>,
)
    requires
        lookup(own, key) is Some,
    ensures
        lookup(merged_members(own, more), key) == lookup(own, key),
    decreases more.len(),
{
    if more.len() > 0 {
        if lookup(own, more[0].0) is Some {
            lemma_merged_keeps(own, more.skip(1), key);
        } else {
            lemma_lookup_push(own, more[0], key);
            lemma_merged_keeps(own.push(more[0]), more.skip(1), key);
        }
    }
}

/// A member at the end does not change what is found before it.
pub proof fn lemma_lookup_push(
    ms: Seq<(Seq<char>, Tree)>,
    m: (Seq<char>, Tree),
    key: Seq<char>,
)
    ensures
        lookup(ms.push(m), key) == match lookup(ms, key) {
            Some(v) => Some(v),
            None => if m.0 == key {
                Some(m.1)
            } else {
                None
            },
        },
    decreases ms.len(),
{
    let all = ms.push(m);
    if ms.len() == 0 {
        assert(all.skip(1) =~= Seq::empty());
        assert(lookup(all.skip(1), key) is None);
    } else {
        assert(all.skip(1) =~= ms.skip(1).push(m));
        lemma_lookup_push(ms.skip(1), m, key);
    }
}

// ---------------------------------------------------------------------------
// Errors of the provider
// ---------------------------------------------------------------------------

/// What can go wrong when a provider is asked.
#[derive(Debug, PartialEq, Eq)]
pub enum ProviderError {
    RequestFailed(String),
    ContextLengthExceeded(String),
    CreditsExhausted { details: String, top_up_url: Option<String> },
    Refusal { details: String, category: Option<String> },
    NetworkError(String),
    Authentication(String),
    RateLimitExceeded(String),
    EndpointNotFound(String),
    ServerError(String),
    Other(String),
}

/// The pattern of an error message that speaks of a model and of a client error status.
pub open spec fn model_error_pattern() -> Seq<char> {
    r"(?i)\b4\d{2}\b.*model|model.*\b4\d{2}\b"@
}

/// Whether the recommended models are worth asking for: the request failed, with a message that
/// speaks of the model.
pub open spec fn speaks_of_model(error: ProviderError) -> bool {
    error matches ProviderError::RequestFailed(msg) && pattern_valid(model_error_pattern())
        && pattern_matches(model_error_pattern(), msg@)
}

/// Whether the recommended models are worth asking for.
pub fn wants_models(error: &ProviderError) -> (r: bool)
    ensures
        r == speaks_of_model(*error),
{
    match error {
        ProviderError::RequestFailed(msg) => match is_match(
            r"(?i)\b4\d{2}\b.*model|model.*\b4\d{2}\b",
            msg.as_str(),
        ) {
            Some(b) => b,
            None => false,
        },
        _ => false,
    }
}

/// A failed request with the models that the provider offers, where there are any.
pub fn with_models(error: ProviderError, models: Option<Vec<String>>) -> (r: ProviderError)
    ensures
        match (error, models) {
            (ProviderError::RequestFailed(msg), Some(list)) => if list@.len() > 0 {
                r matches ProviderError::RequestFailed(m) && m@ == msg@
                    + ". Available models for this provider: "@ + joined(texts(list@), ", "@)
            } else {
                r == error
            },
            _ => r == error,
        },
{
    match (error, models) {
        (ProviderError::RequestFailed(msg), Some(list)) => {
            if list.len() > 0 {
                let names = join(&list, ", ");
                ProviderError::RequestFailed(
                    cat3(
                        msg.as_str(),
                        ". Available models for this provider: ",
                        names.as_str(),
                    ),
                )
            } else {
                ProviderError::RequestFailed(msg)
            }
        },
        (error, _) => error,
    }
}

/// An error that speaks of the model is told together with the models that the provider
/// recommends, where they could be fetched; any other error stays as it is.
pub fn enhance_model_error(error: ProviderError, models: Option<Vec<String>>) -> (r: ProviderError)
    ensures
        !speaks_of_model(error) ==> r == error,
        speaks_of_model(error) ==> match (error, models) {
            (ProviderError::RequestFailed(msg), Some(list)) => if list@.len() > 0 {
                r matches ProviderError::RequestFailed(m) && m@ == msg@
                    + ". Available models for this provider: "@ + joined(texts(list@), ", "@)
            } else {
                r == error
            },
            _ => r == error,
        },
{
    if wants_models(&error) {
        with_models(error, models)
    } else {
        error
    }
}

// ---------------------------------------------------------------------------
// Interpreting tool calls in text
// ---------------------------------------------------------------------------

/// Some contents with one more at the end: a text goes to the end of a text before it.
pub open spec fn extended(content: Seq<ContentModel>, c: ContentModel) -> Seq<ContentModel> {
    match (content.len() > 0, c) {
        (true, ContentModel::Text { text: new, .. }) => match content.last() {
            ContentModel::Text { text: prev, rest } => content.update(
                content.len() - 1,
                ContentModel::Text { text: prev + new, rest },
            ),
            _ => content.push(c),
        },
        _ => content.push(c),
    }
}

/// Some contents with more at the end, one after the other.
pub open spec fn extended_all(content: Seq<ContentModel>, more: Seq<ContentModel>) -> Seq<
    ContentModel,
>
    decreases more.len(),
{
    if more.len() == 0 {
        content
    } else {
        extended(extended_all(content, more.drop_last()), more.last())
    }
}

/// The message gathered so far with the next chunk of a response.
pub open spec fn gathered(prev: Option<MessageModel>, chunk: MessageModel) -> MessageModel {
    match prev {
        Some(m) => MessageModel { content: extended_all(m.content, chunk.content), ..m },
        None => chunk,
    }
}

/// Adds the next chunk of a response to the message gathered so far.
pub fn accumulate(prev: Option<Message>, chunk: Message) -> (r: Message)
    ensures
        r@ == gathered(
            match prev {
                Some(m) => Some(m@),
                None => None,
            },
            chunk@,
        ),
{
    match prev {
        Some(m) => {
            let mut out = copy_contents(&m.content);
            let ghost start = contents(m.content@);
            let ghost more = contents(chunk.content@);
            let mut i: usize = 0;
            assert(contents(out@) =~= extended_all(start, more.take(0)));
            while i < chunk.content.len()
                invariant
                    more == contents(chunk.content@),
                    i <= chunk.content@.len(),
                    contents(out@) == extended_all(start, more.take(i as int)),
                decreases chunk.content@.len() - i,
            {
                assert(more.take(i + 1).drop_last() =~= more.take(i as int));
                assert(more.take(i + 1).last() == chunk.content@[i as int]@);
                let ghost before = contents(out@);
                let n: usize = out.len();
                let mut longer: Option<MessageContent> = None;
                if let MessageContent::Text { text: new, .. } = &chunk.content[i] {
                    if n > 0 {
                        if let MessageContent::Text { text: last, rest } = &out[n - 1] {
                            longer = Some(
                                MessageContent::Text {
                                    text: cat(last.as_str(), new.as_str()),
                                    rest: copy_json(rest),
                                },
                            );
                        }
                    }
                }
                match longer {
                    Some(c) => {
                        let ghost m = c@;
                        out.set(n - 1, c);
                        assert(contents(out@) =~= before.update(n - 1, m));
                    },
                    None => {
                        out.push(chunk.content[i].copy());
                        assert(contents(out@) =~= before.push(chunk.content@[i as int]@));
                    },
                }
                i = i + 1;
            }
            assert(more.take(i as int) =~= more);
            let mut r = m;
            r.content = out;
            r
        },
        None => chunk,
    }
}

// ---------------------------------------------------------------------------
// What the provider is sent
// ---------------------------------------------------------------------------

/// The messages that the agent may see.
pub open spec fn agent_visible(all: Seq<MessageModel>) -> Seq<MessageModel>
    decreases all.len(),
{
    if all.len() == 0 {
        Seq::empty()
    } else {
        let head = agent_visible(all.drop_last());
        if all.last().agent_visible {
            head.push(all.last())
        } else {
            head
        }
    }
}

/// The messages that the agent may see.
pub fn messages_for_provider(all: &Vec<Message>) -> (r: Vec<Message>)
    ensures
        messages(r@) == agent_visible(messages(all@)),
{
    let ghost am = messages(all@);
    let mut out: Vec<Message> = Vec::new();
    let mut i: usize = 0;
    assert(messages(out@) =~= agent_visible(am.take(0)));
    while i < all.len()
        invariant
            am == messages(all@),
            i <= all@.len(),
            messages(out@) == agent_visible(am.take(i as int)),
        decreases all@.len() - i,
    {
        assert(am.take(i + 1).drop_last() =~= am.take(i as int));
        assert(am.take(i + 1).last() == all@[i as int]@);
        if all[i].agent_visible {
            let ghost before = messages(out@);
            out.push(all[i].copy());
            assert(messages(out@) =~= before.push(all@[i as int]@));
        }
        i = i + 1;
    }
    assert(am.take(i as int) =~= am);
    out
}

/// How code execution shows tools to the model.
#[derive(Clone, Copy, PartialEq, Eq, Structural, Debug)]
pub enum ToolDisclosure {
    Catalog,
    Filesystem,
    Sidecar,
}

/// A registered tool as `prepare_tools` sees it, with the key of the extension that owns it.
#[derive(Debug, PartialEq, Eq)]
pub struct OfferedTool {
    pub tool: Tool,
    pub owner_key: Option<String>,
}

/// What the sidecar style adds to a tool's description.
pub open spec fn schema_note(output_schema_text: Option<Seq<char>>) -> Seq<char> {
    "The successful return schema of this tool is:\n"@ + match output_schema_text {
        Some(s) => s,
        None => "unknown"@,
    }
}

/// Whether code execution still offers the tool by itself.
pub open spec fn offered_beside_code(
    offered: OfferedTool,
    disclosure: ToolDisclosure,
    table: Seq<PlatformExtension>,
) -> bool {
    disclosure == ToolDisclosure::Sidecar || (offered.owner_key matches Some(key)
        && platform_entry(table, key@) matches Some(e) && e.unprefixed_tools)
}

/// A tool with the text of its output schema in its description.
pub open spec fn with_schema_note(t: ToolModel, output_schema_text: Option<Seq<char>>) -> ToolModel {
    let note = schema_note(output_schema_text);
    ToolModel {
        description: Some(
            match t.description {
                Some(d) => d + "\n"@ + note,
                None => note,
            },
        ),
        ..t
    }
}

/// The text of a tool's output schema, where it has one.
pub open spec fn output_schema_text(t: ToolModel) -> Option<Seq<char>> {
    match t.output_schema {
        Some(s) => Some(compact_text(settled(s))),
        None => None,
    }
}

/// The tool as the model is told of it while code execution is on.
pub open spec fn described(offered: OfferedTool, disclosure: ToolDisclosure) -> ToolModel {
    if disclosure == ToolDisclosure::Sidecar {
        with_schema_note(offered.tool@, output_schema_text(offered.tool@))
    } else {
        offered.tool@
    }
}

/// The tools that the model is told of, in the order of the registry: with code execution on
/// only some, and never one that is not visible to the model.
pub open spec fn offered_tools(
    all: Seq<OfferedTool>,
    code: Option<ToolDisclosure>,
    table: Seq<PlatformExtension>,
) -> Seq<ToolModel>
    decreases all.len(),
{
    if all.len() == 0 {
        Seq::empty()
    } else {
        let head = offered_tools(all.drop_last(), code, table);
        let t = match code {
            Some(d) => described(all.last(), d),
            None => all.last().tool@,
        };
        let kept = code matches Some(d) ==> offered_beside_code(all.last(), d, table);
        if kept && t.visible_to("model"@) {
            head.push(t)
        } else {
            head
        }
    }
}

/// Whether `r` holds the tools of `v`, sorted by their names.
pub open spec fn sorted_tools(v: Seq<ToolModel>, r: Seq<ToolModel>) -> bool {
    exists|order: Seq<usize>| #[trigger]
        crate::text::is_order(tool_names(v), order) && r == Seq::new(
            order.len(),
            |i: int| v[order[i] as int],
        )
}

/// A tool with the text of its output schema in its description.
pub fn note_schema(tool: &Tool, output_schema_text: Option<String>) -> (r: Tool)
    ensures
        r@ == with_schema_note(tool@, text_opt(output_schema_text)),
{
    let mut t = tool.copy();
    let schema = match output_schema_text {
        Some(s) => s,
        None => "unknown".to_owned(),
    };
    let note = cat("The successful return schema of this tool is:\n", schema.as_str());
    t.description = Some(
        match &tool.description {
            Some(d) => cat3(d.as_str(), "\n", note.as_str()),
            None => note,
        },
    );
    t
}

fn describe_tool(offered: &OfferedTool, disclosure: ToolDisclosure) -> (r: Tool)
    ensures
        r@ == described(*offered, disclosure),
{
    if disclosure == ToolDisclosure::Sidecar {
        let schema = match &offered.tool.output_schema {
            Some(s) => Some(crate::json::write(s)),
            None => None,
        };
        note_schema(&offered.tool, schema)
    } else {
        offered.tool.copy()
    }
}

/// The tools that the model is told of, sorted by name. `code` is the style of code execution
/// where that is on.
pub fn prepare_tools(
    all: &Vec<OfferedTool>,
    code: Option<ToolDisclosure>,
    table: &Vec<PlatformExtension>,
) -> (r: Vec<Tool>)
    ensures
        sorted_tools(offered_tools(all@, code, table@), tool_models(r@)),
{
    let mut kept: Vec<Tool> = Vec::new();
    let mut names: Vec<String> = Vec::new();
    let mut i: usize = 0;
    assert(tool_models(kept@) =~= offered_tools(all@.take(0), code, table@));
    assert(texts(names@) =~= tool_names(tool_models(kept@)));
    while i < all.len()
        invariant
            i <= all@.len(),
            tool_models(kept@) == offered_tools(all@.take(i as int), code, table@),
            texts(names@) == tool_names(tool_models(kept@)),
        decreases all@.len() - i,
    {
        assert(all@.take(i + 1).drop_last() =~= all@.take(i as int));
        let t = match code {
            Some(d) => describe_tool(&all[i], d),
            None => all[i].tool.copy(),
        };
        let beside = match code {
            Some(d) => d == ToolDisclosure::Sidecar || match &all[i].owner_key {
                Some(key) => is_first_class_extension(key.as_str(), table),
                None => false,
            },
            None => true,
        };
        if beside && is_tool_visible_to_model(&t) {
            let ghost before = tool_models(kept@);
            let ghost names_before = texts(names@);
            let ghost tm = t@;
            names.push(t.name.clone());
            kept.push(t);
            assert(tool_models(kept@) =~= before.push(tm));
            assert(texts(names@) =~= names_before.push(tm.name));
            assert(texts(names@) =~= tool_names(tool_models(kept@)));
        }
        i = i + 1;
    }
    assert(all@.take(i as int) =~= all@);
    let order = sort_order(&names);
    let mut out: Vec<Tool> = Vec::new();
    let mut k: usize = 0;
    while k < order.len()
        invariant
            k <= order@.len(),
            out@.len() == k,
            texts(names@).len() == kept@.len(),
            crate::text::is_order(texts(names@), order@),
            forall|j: int| 0 <= j < k ==> #[trigger] out@[j]@ == kept@[order@[j] as int]@,
        decreases order@.len() - k,
    {
        out.push(kept[order[k]].copy());
        k = k + 1;
    }
    assert(tool_models(out@) =~= Seq::new(
        order@.len(),
        |i: int| tool_models(kept@)[order@[i] as int],
    ));
    out
}

/// The tools for the provider and those for the interpreter: where tool calls are interpreted
/// from text, the provider gets none and the interpreter all.
pub fn split_for_toolshim(tools: Vec<Tool>, toolshim: bool) -> (r: (Vec<Tool>, Vec<Tool>))
    ensures
        toolshim ==> r.0@.len() == 0 && r.1 == tools,
        !toolshim ==> r.0 == tools && r.1@.len() == 0,
{
    if toolshim {
        (Vec::new(), tools)
    } else {
        (tools, Vec::new())
    }
}

/// No tool that is hidden from the model is offered to it, and the tools are offered in the
/// order of their names.
pub proof fn law_offered_tools_are_visible_and_sorted(
    all: Seq<OfferedTool>,
    code: Option<ToolDisclosure>,
    table: Seq<PlatformExtension>,
    r: Seq<ToolModel>,
)
    requires
        sorted_tools(offered_tools(all, code, table), r),
    ensures
        forall|i: int| 0 <= i < r.len() ==> (#[trigger] r[i]).visible_to("model"@),
        forall|i: int, j: int|
            0 <= i < j < r.len() ==> crate::text::lex_less(
                (#[trigger] r[i]).name,
                (#[trigger] r[j]).name,
            ) || r[i].name == r[j].name,
{
    let v = offered_tools(all, code, table);
    let order = choose|order: Seq<usize>| #[trigger]
        crate::text::is_order(tool_names(v), order) && r == Seq::new(
            order.len(),
            |i: int| v[order[i] as int],
        );
    lemma_offered_visible(all, code, table);
    assert forall|i: int| 0 <= i < r.len() implies (#[trigger] r[i]).visible_to("model"@) by {
        assert(v[order[i] as int].visible_to("model"@));
    }
    assert forall|i: int, j: int| 0 <= i < j < r.len() implies crate::text::lex_less(
        (#[trigger] r[i]).name,
        (#[trigger] r[j]).name,
    ) || r[i].name == r[j].name by {
        assert(crate::text::sorts_before(tool_names(v), order[i] as int, order[j] as int));
    }
}

proof fn lemma_offered_visible(
    all: Seq<OfferedTool>,
    code: Option<ToolDisclosure>,
    table: Seq<PlatformExtension>,
)
    ensures
        forall|i: int|
            0 <= i < offered_tools(all, code, table).len() ==> (#[trigger] offered_tools(
                all,
                code,
                table,
            )[i]).visible_to("model"@),
    decreases all.len(),
{
    if all.len() > 0 {
        lemma_offered_visible(all.drop_last(), code, table);
        let head = offered_tools(all.drop_last(), code, table);
        let r = offered_tools(all, code, table);
        assert forall|i: int| 0 <= i < r.len() implies (#[trigger] r[i]).visible_to(
            "model"@,
        ) by {
            if i < head.len() {
                assert(r[i] == head[i]);
            }
        }
    }
}

// ---------------------------------------------------------------------------
// Usage
// ---------------------------------------------------------------------------

/// The tokens that a request used.
#[derive(Clone, Copy, PartialEq, Eq, Structural, Debug)]
pub struct Usage {
    pub input_tokens: Option<i32>,
    pub output_tokens: Option<i32>,
    pub total_tokens: Option<i32>,
}

/// The usage that a session shows after a request.
pub open spec fn usage_shown(usage: Usage, is_compaction_usage: bool) -> Usage {
    if is_compaction_usage {
        Usage {
            input_tokens: usage.output_tokens,
            output_tokens: None,
            total_tokens: usage.output_tokens,
        }
    } else {
        usage
    }
}

/// The usage that a session shows after a request. After a compaction the summary that came out
/// is all that goes in next.
pub fn current_usage(usage: Usage, is_compaction_usage: bool) -> (r: Usage)
    ensures
        r == usage_shown(usage, is_compaction_usage),
{
    if is_compaction_usage {
        Usage {
            input_tokens: usage.output_tokens,
            output_tokens: None,
            total_tokens: usage.output_tokens,
        }
    } else {
        usage
    }
}

/// A text is read as another value only where its schema wants one and it is one: as a truth value
/// under a boolean, as a number under a number, and as itself under anything else.
pub proof fn law_texts_are_coerced_by_their_schema(
    s: Seq<char>,
    schema: Tree,
    readings: Seq<(Seq<char>, Tree)>,
)
    ensures
        ({
            let out = coerced_text(s, schema, readings);
            let wanted = schema.get("type"@);
            &&& wanted is None ==> out == Tree::Str(s)
            &&& wanted == Some(Tree::Str("string"@)) ==> out == Tree::Str(s)
            &&& wanted == Some(Tree::Str("boolean"@)) ==> {
                &&& lowercase(s) == "true"@ <==> out == Tree::Bool(true)
                &&& lowercase(s) == "false"@ <==> out == Tree::Bool(false)
                &&& lowercase(s) != "true"@ && lowercase(s) != "false"@ <==> out == Tree::Str(s)
            }
            &&& wanted == Some(Tree::Str("number"@)) || wanted == Some(Tree::Str("integer"@)) ==> {
                &&& lookup(readings, s) matches Some(n) ==> out == n
                &&& lookup(readings, s) is None ==> out == Tree::Str(s)
            }
        }),
{
    reveal_strlit("true");
    reveal_strlit("false");
    reveal_strlit("string");
    reveal_strlit("boolean");
    reveal_strlit("number");
    reveal_strlit("integer");
    assert("true"@.len() != "false"@.len());
    assert("string"@[0] != "boolean"@[0]);
    assert("string"@[0] != "number"@[0]);
    assert("string"@[0] != "integer"@[0]);
    assert("boolean"@[0] != "number"@[0]);
    assert("boolean"@[0] != "integer"@[0]);
}

/// Where several types will do, the first that the text fits decides; a text that fits none stays.
pub proof fn law_the_first_fitting_type_decides(
    s: Seq<char>,
    types: Seq<Tree>,
    readings: Seq<(Seq<char>, Tree)>,
    k: int,
)
    requires
        0 <= k <= types.len(),
        forall|i: int|
            0 <= i < k ==> match #[trigger] types[i] {
                Tree::Str(t) => !(is_number_type(t) && lookup(readings, s) is Some) && !(t
                    == "boolean"@ && (lowercase(s) == "true"@ || lowercase(s) == "false"@)),
                _ => true,
            },
    ensures
        k == types.len() ==> first_reading(s, types, readings) == Tree::Str(s),
        k < types.len() && types[k] == Tree::Str("boolean"@) && lowercase(s) == "true"@
            ==> first_reading(s, types, readings) == Tree::Bool(true),
        k < types.len() && types[k] == Tree::Str("boolean"@) && lowercase(s) == "false"@
            ==> first_reading(s, types, readings) == Tree::Bool(false),
        k < types.len() && (types[k] == Tree::Str("number"@) || types[k] == Tree::Str("integer"@))
            ==> (lookup(readings, s) matches Some(n) ==> first_reading(s, types, readings) == n),
    decreases types.len(),
{
    reveal_strlit("true");
    reveal_strlit("false");
    reveal_strlit("boolean");
    reveal_strlit("number");
    reveal_strlit("integer");
    assert("true"@.len() != "false"@.len());
    assert("boolean"@[0] != "number"@[0]);
    assert("boolean"@[0] != "integer"@[0]);
    if k > 0 {
        assert(types[0] == types[0]);
        assert forall|i: int| 0 <= i < k - 1 implies match #[trigger] types.skip(1)[i] {
            Tree::Str(t) => !(is_number_type(t) && lookup(readings, s) is Some) && !(t == "boolean"@
                && (lowercase(s) == "true"@ || lowercase(s) == "false"@)),
            _ => true,
        } by {
            assert(types.skip(1)[i] == types[i + 1]);
        }
        law_the_first_fitting_type_decides(s, types.skip(1), readings, k - 1);
        if k < types.len() {
            assert(types.skip(1)[k - 1] == types[k]);
        }
    }
}

/// No argument is lost or renamed, and only texts whose parameter has a schema may change.
pub proof fn law_arguments_keep_their_names(
    args: Seq<(Seq<char>, Tree)>,
    schema: Seq<(Seq<char>, Tree)>,
    readings: Seq<(Seq<char>, Tree)>,
    properties: Seq<(Seq<char>, Tree)>,
    i: int,
)
    requires
        lookup(schema, "properties"@) == Some(Tree::Object(properties)),
        0 <= i < args.len(),
    ensures
        coerced_arguments(Some(args), schema, readings) matches Some(out) && {
            &&& out.len() == args.len()
            &&& out[i].0 == args[i].0
            &&& !(args[i].1 is Str) ==> out[i] == args[i]
            &&& lookup(properties, args[i].0) is None ==> out[i] == args[i]
            &&& args[i].1 matches Tree::Str(s) ==> (lookup(properties, args[i].0) matches Some(p)
                ==> out[i].1 == coerced_text(s, p, readings))
        },
{
}

/// What a request says of itself wins over what the registered tool says, and what only the tool
/// says is added.
pub proof fn law_the_requests_own_metadata_wins(
    own: Seq<(Seq<char>, Tree)>,
    more: Seq<(Seq<char>, Tree)>,
    key: Seq<char>,
)
    ensures
        lookup(own, key) is Some ==> lookup(merged_members(own, more), key) == lookup(own, key),
        lookup(own, key) is None ==> lookup(merged_members(own, more), key) == lookup(more, key),
        merged_meta(Some(Tree::Object(own)), Some(more)) == Some(
            Tree::Object(merged_members(own, more)),
        ),
        merged_meta(None, Some(more)) == Some(Tree::Object(more)),
        merged_meta(Some(Tree::Object(own)), None) == Some(Tree::Object(own)),
        merged_meta(None, None) is None,
    decreases more.len(),
{
    if more.len() > 0 {
        if lookup(own, more[0].0) is Some {
            law_the_requests_own_metadata_wins(own, more.skip(1), key);
        } else {
            let longer = own.push(more[0]);
            law_the_requests_own_metadata_wins(longer, more.skip(1), key);
            lemma_lookup_push(own, more[0], key);
        }
    }
}

/// Coercing changes neither the id of a request nor the tool it names nor its other data, and a
/// request for a tool that is not registered, or that could not be read, stays as it is.
pub proof fn law_coerced_requests_ask_for_the_same_tool(
    req: RequestModel,
    tools: Seq<ToolModel>,
    readings: Seq<(Seq<char>, Tree)>,
)
    ensures
        ({
            let out = coerced_request(req, tools, readings);
            &&& out.id == req.id
            &&& out.metadata == req.metadata
            &&& req.tool_call is Err ==> out == req
            &&& req.tool_call matches Ok(c) ==> {
                &&& out.tool_call matches Ok(d) && d.name == c.name && d.rest == c.rest
                &&& tool_named(tools, c.name) is None ==> out == req
                &&& tool_named(tools, c.name) matches Some(t) ==> (out.tool_call matches Ok(d)
                    && d.arguments == coerced_arguments(c.arguments, t.input_schema, readings))
            }
        }),
{
}

/// A registered tool is found by its name: the first that has it, and none only where none has.
pub proof fn law_registered_tools_are_found(tools: Seq<ToolModel>, name: Seq<char>)
    ensures
        tool_named(tools, name) matches Some(t) ==> t.name == name && tools.contains(t),
        tool_named(tools, name) is None <==> forall|i: int|
            0 <= i < tools.len() ==> (#[trigger] tools[i]).name != name,
    decreases tools.len(),
{
    if tools.len() > 0 {
        law_registered_tools_are_found(tools.skip(1), name);
        if tools[0].name == name {
            assert(tools.contains(tools[0]));
        } else {
            if tool_named(tools, name) is Some {
                crate::seqs::lemma_contains_first(tools, tool_named(tools, name)->0);
            }
            if tool_named(tools, name) is None {
                assert forall|i: int| 0 <= i < tools.len() implies (#[trigger] tools[i]).name
                    != name by {
                    if i > 0 {
                        assert(tools.skip(1)[i - 1] == tools[i]);
                    }
                }
            }
            if forall|i: int| 0 <= i < tools.len() ==> (#[trigger] tools[i]).name != name {
                assert forall|i: int| 0 <= i < tools.skip(1).len() implies (
                #[trigger] tools.skip(1)[i]).name != name by {
                    assert(tools.skip(1)[i] == tools[i + 1]);
                }
            }
        }
    }
}

/// What of a response stays in view: all that is no request, but for reasoning where that is to be
/// suppressed; and of the requests the first with each id, unless the frontend runs it and the
/// provider did not.
pub proof fn law_what_stays_in_view(
    content: Seq<ContentModel>,
    tools: Seq<ToolModel>,
    readings: Seq<(Seq<char>, Tree)>,
    frontend: Seq<Seq<char>>,
    suppress: bool,
    k: int,
)
    requires
        0 <= k < content.len(),
    ensures
        ({
            let shown = shown_contents(content, tools, readings, frontend, suppress);
            &&& !(content[k] is ToolRequest) && !(suppress && content[k].thinking())
                ==> shown.contains(content[k])
            &&& content[k] matches ContentModel::ToolRequest(req) ==> {
                let coerced = coerced_request(req, tools, readings);
                let repeated = exists|i: int|
                    0 <= i < k && ((#[trigger] content[i]) matches ContentModel::ToolRequest(r)
                        && r.id == req.id);
                !repeated && (coerced.external() || !for_frontend(coerced, frontend))
                    ==> shown.contains(ContentModel::ToolRequest(coerced))
            }
            &&& suppress ==> forall|p: int|
                0 <= p < shown.len() ==> !(#[trigger] shown[p]).thinking()
            &&& shown.len() <= content.len()
        }),
    decreases content.len(),
{
    let front = content.drop_last();
    let head = shown_contents(front, tools, readings, frontend, suppress);
    let shown = shown_contents(content, tools, readings, frontend, suppress);
    if front.len() > 0 {
        let i = if k < front.len() {
            k
        } else {
            0
        };
        law_what_stays_in_view(front, tools, readings, frontend, suppress, i);
        assert(front[i] == content[i]);
    } else {
        assert(head =~= Seq::empty());
    }
    let x = match content[k] {
        ContentModel::ToolRequest(req) => ContentModel::ToolRequest(
            coerced_request(req, tools, readings),
        ),
        c => c,
    };
    if shown.len() > head.len() {
        crate::seqs::lemma_contains_push(head, shown.last(), x);
        assert(shown =~= head.push(shown.last()));
    }
    if k == content.len() - 1 {
        if let ContentModel::ToolRequest(req) = content[k] {
            if has_id(first_requests(front, tools, readings), req.id) {
                lemma_first_requests_come_from(front, tools, readings, req.id);
                let i = choose|i: int|
                    0 <= i < front.len() && ((#[trigger] front[i]) matches ContentModel::ToolRequest(
                        r,
                    ) && r.id == req.id);
                assert(content[i] == front[i]);
            }
        }
    } else {
        if let ContentModel::ToolRequest(req) = content[k] {
            if exists|i: int|
                0 <= i < k && ((#[trigger] front[i]) matches ContentModel::ToolRequest(r) && r.id
                    == req.id) {
                let i = choose|i: int|
                    0 <= i < k && ((#[trigger] front[i]) matches ContentModel::ToolRequest(r)
                        && r.id == req.id);
                assert(content[i] == front[i]);
            }
        }
    }
}

proof fn lemma_first_requests_come_from(
    content: Seq<ContentModel>,
    tools: Seq<ToolModel>,
    readings: Seq<(Seq<char>, Tree)>,
    id: Seq<char>,
)
    requires
        has_id(first_requests(content, tools, readings), id),
    ensures
        exists|i: int|
            0 <= i < content.len() && ((#[trigger] content[i]) matches ContentModel::ToolRequest(r)
                && r.id == id),
    decreases content.len(),
{
    if content.len() > 0 {
        let front = content.drop_last();
        let head = first_requests(front, tools, readings);
        if has_id(head, id) {
            lemma_first_requests_come_from(front, tools, readings, id);
            let i = choose|i: int|
                0 <= i < front.len() && ((#[trigger] front[i]) matches ContentModel::ToolRequest(r)
                    && r.id == id);
            assert(content[i] == front[i]);
        } else {
            let all = first_requests(content, tools, readings);
            let p = choose|p: int| 0 <= p < all.len() && (#[trigger] all[p]).id == id;
            if p < head.len() {
                assert(all[p] == head[p]);
            }
            assert(content[content.len() - 1] == content.last());
        }
    }
}

/// The text of some contents, one part after the other.
pub open spec fn whole_text(content: Seq<ContentModel>) -> Seq<char>
    decreases content.len(),
{
    if content.len() == 0 {
        Seq::empty()
    } else {
        whole_text(content.drop_last()) + match content.last() {
            ContentModel::Text { text, .. } => text,
            _ => Seq::empty(),
        }
    }
}

/// No text of a streamed response is lost or moved: the text of the gathered contents is that of
/// the chunks, one after the other, and texts that follow each other become one.
pub proof fn law_streamed_text_adds_up(content: Seq<ContentModel>, more: Seq<ContentModel>)
    ensures
        whole_text(extended_all(content, more)) == whole_text(content) + whole_text(more),
        extended_all(content, more).len() <= content.len() + more.len(),
    decreases more.len(),
{
    if more.len() > 0 {
        law_streamed_text_adds_up(content, more.drop_last());
        let so_far = extended_all(content, more.drop_last());
        let c = more.last();
        let all = extended(so_far, c);
        match (so_far.len() > 0, c) {
            (true, ContentModel::Text { text: new, .. }) => match so_far.last() {
                ContentModel::Text { text: prev, rest } => {
                    assert(all.drop_last() =~= so_far.drop_last());
                    assert(all.last() == (ContentModel::Text { text: prev + new, rest }));
                },
                _ => {
                    assert(all.drop_last() =~= so_far);
                },
            },
            _ => {
                assert(all.drop_last() =~= so_far);
            },
        }
        let new = match c {
            ContentModel::Text { text, .. } => text,
            _ => Seq::empty(),
        };
        assert(whole_text(all) =~= whole_text(so_far) + new);
        assert(whole_text(more) == whole_text(more.drop_last()) + new);
        assert(whole_text(all) =~= whole_text(content) + whole_text(more));
    } else {
        assert(whole_text(content) + whole_text(more) =~= whole_text(content));
    }
}

/// Everything of a streamed response but its text is kept as it came, and of two texts in a row the
/// second goes to the end of the first.
pub proof fn law_streamed_parts_are_kept(content: Seq<ContentModel>, c: ContentModel)
    ensures
        !(c is Text) ==> extended(content, c) == content.push(c),
        c is Text && content.len() > 0 && content.last() is Text ==> {
            &&& extended(content, c).len() == content.len()
            &&& extended(content, c).last()->Text_text == content.last()->Text_text + c->Text_text
            &&& extended(content, c).drop_last() == content.drop_last()
        },
        c is Text && (content.len() == 0 || !(content.last() is Text)) ==> extended(content, c)
            == content.push(c),
{
    if c is Text && content.len() > 0 && content.last() is Text {
        assert(extended(content, c).drop_last() =~= content.drop_last());
    }
}

/// The first chunk is the message so far, and later ones change nothing of it but its contents.
pub proof fn law_the_first_chunk_names_the_message(prev: MessageModel, chunk: MessageModel)
    ensures
        gathered(None, chunk) == chunk,
        gathered(Some(prev), chunk).id == prev.id,
        gathered(Some(prev), chunk).role == prev.role,
        gathered(Some(prev), chunk).created == prev.created,
        gathered(Some(prev), chunk).content == extended_all(prev.content, chunk.content),
{
}

/// The provider is sent every message that the agent may see, in order, and no other.
pub proof fn law_the_provider_sees_what_the_agent_may(
    a: Seq<MessageModel>,
    b: Seq<MessageModel>,
    m: MessageModel,
)
    ensures
        agent_visible(a + b) == agent_visible(a) + agent_visible(b),
        agent_visible(a).contains(m) <==> a.contains(m) && m.agent_visible,
    decreases a.len() + b.len(),
{
    if b.len() > 0 {
        law_the_provider_sees_what_the_agent_may(a, b.drop_last(), m);
        assert((a + b).drop_last() =~= a + b.drop_last());
        assert((a + b).last() == b.last());
        assert(agent_visible(a + b) =~= agent_visible(a) + agent_visible(b));
    } else {
        assert(a + b =~= a);
        assert(agent_visible(a) + agent_visible(b) =~= agent_visible(a));
        if a.len() > 0 {
            law_the_provider_sees_what_the_agent_may(a.drop_last(), b, m);
            crate::seqs::lemma_contains_last(a, m);
            crate::seqs::lemma_contains_push(agent_visible(a.drop_last()), a.last(), m);
        }
    }
}

/// Without code execution the model is told of every tool that it may see, as it is.
pub proof fn law_visible_tools_are_offered(
    all: Seq<OfferedTool>,
    table: Seq<PlatformExtension>,
    t: ToolModel,
)
    ensures
        offered_tools(all, None, table).contains(t) <==> exists|i: int|
            0 <= i < all.len() && (#[trigger] all[i]).tool@ == t && t.visible_to("model"@),
    decreases all.len(),
{
    if all.len() > 0 {
        let front = all.drop_last();
        let head = offered_tools(front, None, table);
        law_visible_tools_are_offered(front, table, t);
        crate::seqs::lemma_contains_push(head, all.last().tool@, t);
        assert(all[all.len() - 1] == all.last());
        if head.contains(t) {
            let i = choose|i: int|
                0 <= i < front.len() && (#[trigger] front[i]).tool@ == t && t.visible_to("model"@);
            assert(all[i] == front[i]);
        }
        if exists|i: int|
            0 <= i < all.len() && (#[trigger] all[i]).tool@ == t && t.visible_to("model"@) {
            let i = choose|i: int|
                0 <= i < all.len() && (#[trigger] all[i]).tool@ == t && t.visible_to("model"@);
            if i < front.len() {
                assert(front[i] == all[i]);
            }
        }
    }
}

/// Which tools stay beside code execution: in the sidecar style all that the model may see, and
/// else those of platform extensions whose tools have no prefix.
pub proof fn law_tools_beside_code_execution(
    all: Seq<OfferedTool>,
    disclosure: ToolDisclosure,
    table: Seq<PlatformExtension>,
    k: int,
)
    requires
        0 <= k < all.len(),
        all[k].tool@.visible_to("model"@),
    ensures
        disclosure == ToolDisclosure::Sidecar ==> offered_tools(
            all,
            Some(disclosure),
            table,
        ).contains(with_schema_note(all[k].tool@, output_schema_text(all[k].tool@))),
        disclosure != ToolDisclosure::Sidecar ==> (all[k].owner_key matches Some(key)
            ==> (platform_entry(table, key@) matches Some(e) ==> (e.unprefixed_tools
            ==> offered_tools(all, Some(disclosure), table).contains(all[k].tool@)))),
        disclosure != ToolDisclosure::Sidecar && !offered_beside_code(all[k], disclosure, table)
            ==> !(all[k].owner_key matches Some(key) && platform_entry(table, key@) matches Some(e)
            && e.unprefixed_tools),
        !(disclosure == ToolDisclosure::Sidecar) ==> described(all[k], disclosure) == all[k].tool@,
    decreases all.len(),
{
    let front = all.drop_last();
    let head = offered_tools(front, Some(disclosure), table);
    let t = described(all.last(), disclosure);
    let x = described(all[k], disclosure);
    crate::seqs::lemma_contains_push(head, t, x);
    if k < front.len() {
        assert(front[k] == all[k]);
        law_tools_beside_code_execution(front, disclosure, table, k);
    } else {
        assert(all.last() == all[k]);
        assert(t.visible_to("model"@) == all[k].tool@.visible_to("model"@));
    }
}

/// What is added to a description comes after it and is there whole.
proof fn lemma_noted_description(own: Seq<char>, lead: Seq<char>, schema: Seq<char>)
    ensures
        has_text(own + "\n"@ + (lead + schema), schema),
        begins(own + "\n"@ + (lead + schema), own),
{
    let all = own + "\n"@ + (lead + schema);
    assert(all =~= (own + "\n"@ + lead) + schema);
    lemma_has_text(own + "\n"@ + lead, schema, Seq::empty());
    assert(all.subrange(0, own.len() as int) =~= own);
}

/// A tool in the sidecar style says what it returns, after what it says of itself, and is else the
/// same tool.
pub proof fn law_sidecar_tools_say_what_they_return(t: ToolModel, schema: Option<Seq<char>>)
    ensures
        with_schema_note(t, schema).name == t.name,
        with_schema_note(t, schema).input_schema == t.input_schema,
        with_schema_note(t, schema).description matches Some(d) && has_text(
            d,
            match schema {
                Some(s) => s,
                None => "unknown"@,
            },
        ),
        t.description matches Some(own) ==> begins(with_schema_note(t, schema).description->0, own),
{
    let lead = "The successful return schema of this tool is:\n"@;
    let said = match schema {
        Some(s) => s,
        None => "unknown"@,
    };
    match t.description {
        Some(own) => {
            lemma_noted_description(own, lead, said);
        },
        None => {
            lemma_has_text(lead, said, Seq::empty());
        },
    }
}

/// The usage of a request is shown as it is; after a compaction what came out is what goes in next,
/// and that is all there is.
pub proof fn law_usage_after_a_compaction(usage: Usage)
    ensures
        usage_shown(usage, false) == usage,
        usage_shown(usage, true).input_tokens == usage.output_tokens,
        usage_shown(usage, true).total_tokens == usage.output_tokens,
        usage_shown(usage, true).output_tokens is None,
{
}

/// Models are worth asking for only where a request failed with a message that speaks of one.
pub proof fn law_when_models_are_asked_for(error: ProviderError)
    ensures
        !(error is RequestFailed) ==> !speaks_of_model(error),
        error matches ProviderError::RequestFailed(m) ==> (pattern_valid(model_error_pattern())
            ==> (speaks_of_model(error) <==> pattern_matches(model_error_pattern(), m@))),
{
}

/// The frontend is handed exactly the requests for its own tools, and the agent runs all others; a
/// request that the provider ran already is handed to neither.
pub proof fn law_who_runs_a_request(
    reqs: Seq<RequestModel>,
    frontend: Seq<Seq<char>>,
    for_it: Seq<RequestModel>,
    rest: Seq<RequestModel>,
    q: RequestModel,
)
    requires
        split_requests(reqs, frontend, for_it, rest),
    ensures
        for_it.contains(q) <==> reqs.contains(q) && !q.external() && (q.tool_call matches Ok(c)
            && frontend.contains(c.name)),
        rest.contains(q) <==> reqs.contains(q) && !q.external() && !(q.tool_call matches Ok(c)
            && frontend.contains(c.name)),
    decreases reqs.len(),
{
    if reqs.len() > 0 {
        let front = reqs.drop_last();
        law_who_runs_a_request(
            front,
            frontend,
            frontend_part(front, frontend),
            remaining_part(front, frontend),
            q,
        );
        crate::seqs::lemma_contains_last(reqs, q);
        crate::seqs::lemma_contains_push(frontend_part(front, frontend), reqs.last(), q);
        crate::seqs::lemma_contains_push(remaining_part(front, frontend), reqs.last(), q);
    }
}

} // verus!
