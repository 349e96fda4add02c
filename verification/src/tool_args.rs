//! What the agent's own tools do with their arguments and results.

use crate::conversation::{error_text, OutputModel, ToolOutput};
use crate::json::{lookup, member, members, set_member, with_member, Json, Member, Tree};
use crate::text::{cat, cat3, has_text, lemma_has_text};
use vstd::prelude::*;
use vstd::string::*;

verus! {

broadcast use {crate::json::lemma_array_view, crate::json::lemma_object_view};

/// An argument that has to be there and to be a text.
pub open spec fn text_argument(args: Seq<(Seq<char>, Tree)>, key: Seq<char>) -> Result<
    Seq<char>,
    Seq<char>,
> {
    match lookup(args, key) {
        Some(Tree::Str(s)) => Ok(s),
        _ => Err("Missing or invalid '"@ + key + "'"@),
    }
}

pub open spec fn text_of(r: Result<String, String>) -> Result<Seq<char>, Seq<char>> {
    match r {
        Ok(s) => Ok(s@),
        Err(e) => Err(e@),
    }
}

/// An argument that has to be there and to be a text.
pub fn extract_string(args: &Vec<Member>, key: &str) -> (r: Result<String, String>)
    ensures
        text_of(r) == text_argument(members(args@), key@),
{
    match member(args, key) {
        Some(v) => match v.as_str() {
            Some(s) => Ok(s.to_owned()),
            None => Err(cat3("Missing or invalid '", key, "'")),
        },
        None => Err(cat3("Missing or invalid '", key, "'")),
    }
}

/// A text argument that may be left out.
pub open spec fn optional_text(args: Seq<(Seq<char>, Tree)>, key: Seq<char>) -> Option<Seq<char>> {
    match lookup(args, key) {
        Some(v) => v.text(),
        None => None,
    }
}

/// A text argument that may be left out.
pub fn optional_string(args: &Vec<Member>, key: &str) -> (r: Option<String>)
    ensures
        crate::text::text_opt(r) == optional_text(members(args@), key@),
{
    match member(args, key) {
        Some(v) => match v.as_str() {
            Some(s) => Some(s.to_owned()),
            None => None,
        },
        None => None,
    }
}

/// A schema with properties: an empty object of them where it has none.
pub open spec fn given_properties(schema: Seq<(Seq<char>, Tree)>) -> Seq<(Seq<char>, Tree)> {
    match lookup(schema, "properties"@) {
        Some(_) => schema,
        None => with_member(schema, "properties"@, Tree::Object(Seq::empty())),
    }
}

/// A schema with an object of properties, which some models want: an empty one where it has none.
pub fn with_properties(schema: Vec<Member>) -> (r: Vec<Member>)
    ensures
        members(r@) == given_properties(members(schema@)),
{
    let mut schema = schema;
    if member(&schema, "properties").is_none() {
        let none: Vec<Member> = Vec::new();
        assert(members(none@) =~= Seq::empty());
        set_member(&mut schema, "properties", Json::Object(none));
    }
    schema
}

/// The result of a call.
pub open spec fn call_outcome(result: Result<ToolOutput, String>) -> OutputModel {
    match result {
        Ok(o) => o@,
        Err(e) => error_text("Error: "@ + e@),
    }
}

/// The result of a call: an error becomes a text that says so.
pub fn call_result(result: Result<ToolOutput, String>) -> (r: ToolOutput)
    ensures
        r@ == call_outcome(result),
{
    match result {
        Ok(o) => o,
        Err(e) => ToolOutput::error(cat("Error: ", e.as_str())),
    }
}

/// An argument is given where it is there and a text, and an error names it where it is not; one
/// that may be left out is nothing there.
pub proof fn law_arguments_are_texts(args: Seq<(Seq<char>, Tree)>, key: Seq<char>)
    ensures
        text_argument(args, key) is Ok <==> lookup(args, key) matches Some(Tree::Str(_)),
        lookup(args, key) matches Some(Tree::Str(s)) ==> text_argument(args, key) == Ok::<
            Seq<char>,
            Seq<char>,
        >(s) && optional_text(args, key) == Some(s),
        text_argument(args, key) matches Err(e) ==> has_text(e, key) && optional_text(args, key)
            is None,
{
    lemma_has_text("Missing or invalid '"@, key, "'"@);
}

/// Every schema that is handed on has properties; those that it has stay, and so does all else.
pub proof fn law_schemas_have_properties(schema: Seq<(Seq<char>, Tree)>, other: Seq<char>)
    ensures
        lookup(given_properties(schema), "properties"@) is Some,
        lookup(schema, "properties"@) is Some ==> given_properties(schema) == schema,
        lookup(schema, "properties"@) is None ==> lookup(given_properties(schema), "properties"@)
            == Some(Tree::Object(Seq::empty())),
        other != "properties"@ ==> lookup(given_properties(schema), other) == lookup(schema, other),
{
    crate::json::lemma_with_member_lookup(
        schema,
        "properties"@,
        Tree::Object(Seq::empty()),
        other,
    );
}

/// A call that went well gives what it gave; one that did not says so, and why.
pub proof fn law_failed_calls_say_why(result: Result<ToolOutput, String>)
    ensures
        result matches Ok(o) ==> call_outcome(result) == o@,
        result matches Err(e) ==> call_outcome(result).is_error == Some(true) && (call_outcome(
            result,
        ).content[0] matches crate::conversation::PartModel::Text { text, .. } && has_text(
            text,
            e@,
        )),
{
    if let Err(e) = result {
        lemma_has_text("Error: "@, e@, Seq::empty());
    }
}

} // verus!
