//! Reading a recipe out of what the model wrote.

use crate::extensions::ExtensionConfig;
use crate::json::{parse, parsed, trees, Json, Tree};
use crate::patterns::{
    captures, captures_model, groups, pattern_captures, pattern_replaced, pattern_valid,
    replace_first,
};
use crate::text::{
    chars_of, has_text, lemma_trimmed_ends, lines, lines_of, split_once, split_once_at, string_of, text_opt,
    texts, trim, trimmed, white_space,
};
use vstd::prelude::*;
use vstd::string::*;

verus! {

broadcast use {crate::json::lemma_array_view, crate::json::lemma_object_view};

/// What the model wrote of a recipe.
#[derive(Debug, PartialEq, Eq)]
pub struct RecipeDraft {
    pub title: String,
    pub description: String,
    pub instructions: String,
    pub activities: Vec<String>,
}

#[verifier::ext_equal]
pub struct DraftModel {
    pub title: Seq<char>,
    pub description: Seq<char>,
    pub instructions: Seq<char>,
    pub activities: Seq<Seq<char>>,
}

impl RecipeDraft {
    pub open spec fn view(&self) -> DraftModel {
        DraftModel {
            title: self.title@,
            description: self.description@,
            instructions: self.instructions@,
            activities: texts(self.activities@),
        }
    }
}

/// What reading a recipe comes to.
pub open spec fn draft_result(r: Result<RecipeDraft, String>) -> Result<DraftModel, Seq<char>> {
    match r {
        Ok(d) => Ok(d@),
        Err(e) => Err(e@),
    }
}

pub open spec fn default_title() -> Seq<char> {
    "Custom recipe from chat"@
}

pub open spec fn default_description() -> Seq<char> {
    "a custom recipe instance from this chat session"@
}

/// The texts of some values; nothing where one is no text.
pub open spec fn all_texts(items: Seq<Tree>) -> Option<Seq<Seq<char>>> {
    if forall|i: int| 0 <= i < items.len() ==> (#[trigger] items[i]) is Str {
        Some(Seq::new(items.len(), |i: int| items[i]->Str_0))
    } else {
        None
    }
}

/// The recipe that a JSON value describes.
pub open spec fn recipe_of(json: Tree) -> Result<DraftModel, Seq<char>> {
    match json.get("instructions"@) {
        None => Err("Missing 'instructions' in json response"@),
        Some(Tree::Str(instructions)) => match json.get("activities"@) {
            None => Err("Missing 'activities' in json response"@),
            Some(Tree::Array(items)) => match all_texts(items) {
                Some(activities) => Ok(
                    DraftModel {
                        title: match json.get_text("title"@) {
                            Some(t) => t,
                            None => default_title(),
                        },
                        description: match json.get_text("description"@) {
                            Some(d) => d,
                            None => default_description(),
                        },
                        instructions,
                        activities,
                    },
                ),
                None => Err("'activities' array element is not a string"@),
            },
            Some(_) => Err("'activities' is not an array'"@),
        },
        Some(_) => Err("instructions' is not a string"@),
    }
}

/// Reads the recipe that a JSON value describes.
pub fn recipe_from_json(json: &Json) -> (r: Result<RecipeDraft, String>)
    ensures
        draft_result(r) == recipe_of(json@),
{
    let instructions = match json.get("instructions") {
        None => {
            return Err("Missing 'instructions' in json response".to_owned());
        },
        Some(v) => match v.as_str() {
            Some(s) => s.to_owned(),
            None => {
                return Err("instructions' is not a string".to_owned());
            },
        },
    };
    let mut activities: Vec<String> = Vec::new();
    match json.get("activities") {
        None => {
            return Err("Missing 'activities' in json response".to_owned());
        },
        Some(Json::Array(items)) => {
            let ghost im = trees(items@);
            let mut i: usize = 0;
            while i < items.len()
                invariant
                    im == trees(items@),
                    json@.get("activities"@) == Some(Tree::Array(im)),
                    json@.get("instructions"@) matches Some(Tree::Str(s)) && s == instructions@,
                    i <= items@.len(),
                    activities@.len() == i,
                    forall|j: int|
                        0 <= j < i ==> (#[trigger] im[j]) is Str && im[j]->Str_0
                            == activities@[j]@,
                decreases items@.len() - i,
            {
                match items[i].as_str() {
                    Some(s) => {
                        activities.push(s.to_owned());
                    },
                    None => {
                        assert(!(im[i as int] is Str));
                        assert(all_texts(im) is None);
                        return Err("'activities' array element is not a string".to_owned());
                    },
                }
                i = i + 1;
            }
            assert(texts(activities@) =~= Seq::new(im.len(), |i: int| im[i]->Str_0));
        },
        Some(_) => {
            return Err("'activities' is not an array'".to_owned());
        },
    }
    let title = match json.get_str("title") {
        Some(t) => t.to_owned(),
        None => "Custom recipe from chat".to_owned(),
    };
    let description = match json.get_str("description") {
        Some(d) => d.to_owned(),
        None => "a custom recipe instance from this chat session".to_owned(),
    };
    Ok(RecipeDraft { title, description, instructions, activities })
}

// ---------------------------------------------------------------------------
// Free text
// ---------------------------------------------------------------------------

/// A text without the white space and the `#` at its end.
pub open spec fn heading_trimmed(s: Seq<char>) -> Seq<char>
    decreases s.len(),
{
    if s.len() > 0 && (white_space(s.last()) || s.last() == '#') {
        heading_trimmed(s.drop_last())
    } else {
        s
    }
}

/// A text without the white space and the `#` at its end.
fn trim_heading(s: &str) -> (r: String)
    ensures
        r@ == heading_trimmed(s@),
{
    let v = chars_of(s);
    let mut to: usize = v.len();
    assert(s@.take(to as int) =~= s@);
    while to > 0 && (v[to - 1].is_whitespace() || v[to - 1] == '#')
        invariant
            v@ == s@,
            to <= v@.len(),
            heading_trimmed(s@.take(to as int)) == heading_trimmed(s@),
        decreases to,
    {
        assert(s@.take(to as int).drop_last() =~= s@.take(to - 1));
        to = to - 1;
    }
    let r = string_of(&v, 0, to);
    assert(r@ =~= s@.take(to as int));
    r
}

/// The part of a text that holds the instructions, and the part that holds the activities.
pub open spec fn text_parts(content: Seq<char>) -> (Seq<char>, Seq<char>) {
    let after = match split_once_at(content, "instructions:"@) {
        Some(p) => p.1,
        None => content,
    };
    match split_once_at(after, "activities:"@) {
        Some(p) => p,
        None => (after, Seq::empty()),
    }
}

/// The texts that are not empty once the white space around them is gone.
pub open spec fn kept_lines(v: Seq<Seq<char>>) -> Seq<Seq<char>>
    decreases v.len(),
{
    if v.len() == 0 {
        Seq::empty()
    } else {
        let head = kept_lines(v.drop_last());
        let t = trimmed(v.last());
        if t.len() == 0 {
            head
        } else {
            head.push(t)
        }
    }
}

/// The activities among some lines whose bullets are gone already: those that are not empty once
/// the white space around them is gone.
pub fn activities_from_lines(v: &Vec<String>) -> (r: Vec<String>)
    ensures
        texts(r@) == kept_lines(texts(v@)),
{
    let ghost all = texts(v@);
    let mut out: Vec<String> = Vec::new();
    let mut i: usize = 0;
    assert(texts(out@) =~= kept_lines(all.take(0)));
    while i < v.len()
        invariant
            all == texts(v@),
            i <= v@.len(),
            texts(out@) == kept_lines(all.take(i as int)),
        decreases v@.len() - i,
    {
        assert(all.take(i + 1).drop_last() =~= all.take(i as int));
        assert(all.take(i + 1).last() == v@[i as int]@);
        let t = trim(v[i].as_str());
        if !t.as_str().is_empty() {
            let ghost before = texts(out@);
            let ghost tm = t@;
            out.push(t);
            assert(texts(out@) =~= before.push(tm));
        }
        i = i + 1;
    }
    assert(all.take(i as int) =~= all);
    out
}

/// The pattern of a bullet or a number at the start of a line.
pub open spec fn bullet_pattern() -> Seq<char> {
    r"^[•\-*\d]+\.?\s*"@
}

/// A line without its bullet.
pub open spec fn without_bullet(line: Seq<char>) -> Seq<char> {
    if pattern_valid(bullet_pattern()) {
        pattern_replaced(bullet_pattern(), line, ""@)
    } else {
        line
    }
}

/// The recipe that a free text describes.
pub open spec fn text_recipe(content: Seq<char>) -> DraftModel {
    let (first, second) = text_parts(content);
    DraftModel {
        title: default_title(),
        description: default_description(),
        instructions: trimmed(heading_trimmed(first)),
        activities: kept_lines(bare_lines_of(trimmed(second))),
    }
}

/// The lines of a text without their bullets.
pub open spec fn bare_lines_of(s: Seq<char>) -> Seq<Seq<char>> {
    Seq::new(lines_of(s).len(), |i: int| without_bullet(lines_of(s)[i]))
}

fn split_parts(content: &str) -> (r: (String, String))
    ensures
        (r.0@, r.1@) == text_parts(content@),
{
    let after: String = match split_once(content, "instructions:") {
        Some(p) => p.1,
        None => content.to_owned(),
    };
    match split_once(after.as_str(), "activities:") {
        Some(p) => p,
        None => {
            let empty = String::new();
            (after, empty)
        },
    }
}

fn bare_lines(s: &str) -> (r: Vec<String>)
    ensures
        texts(r@) == bare_lines_of(s@),
{
    let raw = lines(s);
    let ghost rm = lines_of(s@);
    let mut bare: Vec<String> = Vec::new();
    let mut i: usize = 0;
    while i < raw.len()
        invariant
            texts(raw@) == rm,
            i <= raw@.len(),
            bare@.len() == i,
            forall|j: int| 0 <= j < i ==> #[trigger] bare@[j]@ == without_bullet(rm[j]),
        decreases raw@.len() - i,
    {
        assert(rm[i as int] == raw@[i as int]@);
        let line = match replace_first(r"^[•\-*\d]+\.?\s*", raw[i].as_str(), "") {
            Some(s) => s,
            None => raw[i].clone(),
        };
        bare.push(line);
        i = i + 1;
    }
    assert(texts(bare@) =~= bare_lines_of(s@));
    bare
}

/// Reads the recipe that a free text describes.
pub fn recipe_from_text(content: &str) -> (r: RecipeDraft)
    ensures
        r@ == text_recipe(content@),
{
    let (first, second) = split_parts(content);
    let headless = trim_heading(first.as_str());
    let instructions = trim(headless.as_str());
    let activities_text = trim(second.as_str());
    let bare = bare_lines(activities_text.as_str());
    let activities = activities_from_lines(&bare);
    RecipeDraft {
        title: "Custom recipe from chat".to_owned(),
        description: "a custom recipe instance from this chat session".to_owned(),
        instructions,
        activities,
    }
}

// ---------------------------------------------------------------------------
// What the model wrote
// ---------------------------------------------------------------------------

/// The pattern of a fenced block.
pub open spec fn fence_pattern() -> Seq<char> {
    r"(?s)```[^\n]*\n(.*?)\n```"@
}

/// What stands in the first fenced block.
pub open spec fn fenced(content: Seq<char>) -> Option<Seq<char>> {
    let found = pattern_captures(fence_pattern(), content);
    if pattern_valid(fence_pattern()) && found.len() > 0 && found[0].len() > 1 {
        found[0][1]
    } else {
        None
    }
}

/// What stands in the first fenced block.
fn first_fenced(content: &str) -> (r: Option<String>)
    ensures
        text_opt(r) == fenced(content@),
{
    match captures(r"(?s)```[^\n]*\n(.*?)\n```", content) {
        Some(found) => {
            assert(captures_model(found@).len() == found@.len());
            if found.len() > 0 {
                assert(captures_model(found@)[0] == groups(found@[0]@));
                if found[0].len() > 1 {
                    assert(groups(found@[0]@)[1] == text_opt(found@[0]@[1]));
                    return match &found[0][1] {
                        Some(s) => Some(s.clone()),
                        None => None,
                    };
                }
            }
            None
        },
        None => None,
    }
}

/// The recipe in what the model wrote: `json` is what its first fenced block, or else all of it,
/// reads as, where it is JSON.
pub open spec fn recipe_in(content: Seq<char>, json: Option<Tree>) -> Result<DraftModel, Seq<char>> {
    match json {
        Some(j) => recipe_of(j),
        None => Ok(text_recipe(content)),
    }
}

/// The part of what the model wrote that may be JSON.
pub open spec fn json_part(content: Seq<char>) -> Seq<char> {
    trimmed(
        match fenced(content) {
            Some(b) => b,
            None => content,
        },
    )
}

/// Reads the recipe in what the model wrote: as JSON, which may stand in a fenced block, else as
/// free text.
pub fn read_recipe(content: &str) -> (r: Result<RecipeDraft, String>)
    ensures
        draft_result(r) == recipe_in(content@, parsed(json_part(content@))),
{
    let clean = match first_fenced(content) {
        Some(b) => trim(b.as_str()),
        None => trim(content),
    };
    match parse(clean.as_str()) {
        Some(json) => recipe_from_json(&json),
        None => Ok(recipe_from_text(content)),
    }
}

// ---------------------------------------------------------------------------
// The recipe
// ---------------------------------------------------------------------------

/// How a recipe is run. The temperature, which is no whole number, goes beside it.
#[derive(Debug, PartialEq, Eq)]
pub struct Settings {
    pub goose_provider: Option<String>,
    pub goose_model: Option<String>,
    pub max_turns: Option<usize>,
}

/// A recipe made from a conversation.
#[derive(Debug, PartialEq, Eq)]
pub struct Recipe {
    pub title: String,
    pub description: String,
    pub instructions: String,
    pub activities: Vec<String>,
    pub extensions: Vec<ExtensionConfig>,
    pub settings: Settings,
    /// How its author is reached.
    pub contact: Option<String>,
}

/// Makes a recipe of what the model wrote, with the extensions that are switched on, the provider
/// and the model in use, and the user as its author. `user` and `username` are what the
/// environment calls the user; the first of them that is set counts.
pub fn create_recipe(
    content: &str,
    extensions: Vec<ExtensionConfig>,
    provider: String,
    model: String,
    user: Option<String>,
    username: Option<String>,
) -> (r: Result<Recipe, String>)
    ensures
        match recipe_in(content@, parsed(json_part(content@))) {
            Ok(d) => {
                &&& r matches Ok(x)
                &&& x.title@ == d.title
                &&& x.description@ == d.description
                &&& x.instructions@ == d.instructions
                &&& texts(x.activities@) == d.activities
                &&& x.extensions == extensions
                &&& x.settings.goose_provider == Some(provider)
                &&& x.settings.goose_model == Some(model)
                &&& x.settings.max_turns is None
                &&& x.contact == if user is Some {
                    user
                } else {
                    username
                }
            },
            Err(m) => r matches Err(e) && e@ == m,
        },
{
    match read_recipe(content) {
        Ok(d) => Ok(
            Recipe {
                title: d.title,
                description: d.description,
                instructions: d.instructions,
                activities: d.activities,
                extensions,
                settings: Settings {
                    goose_provider: Some(provider),
                    goose_model: Some(model),
                    max_turns: None,
                },
                contact: match user {
                    Some(u) => Some(u),
                    None => username,
                },
            },
        ),
        Err(e) => Err(e),
    }
}

/// No activity of a recipe from free text is empty or has white space at its ends.
pub proof fn law_activities_are_trimmed(content: Seq<char>, i: int)
    requires
        0 <= i < text_recipe(content).activities.len(),
    ensures
        ({
            let activity = text_recipe(content).activities[i];
            &&& activity.len() > 0
            &&& !white_space(activity[0])
            &&& !white_space(activity.last())
        }),
{
    lemma_kept_lines_are_trimmed(bare_lines_of(trimmed(text_parts(content).1)), i);
}

proof fn lemma_kept_lines_are_trimmed(v: Seq<Seq<char>>, i: int)
    requires
        0 <= i < kept_lines(v).len(),
    ensures
        kept_lines(v)[i].len() > 0,
        !white_space(kept_lines(v)[i][0]),
        !white_space(kept_lines(v)[i].last()),
    decreases v.len(),
{
    if i < kept_lines(v.drop_last()).len() {
        lemma_kept_lines_are_trimmed(v.drop_last(), i);
    } else {
        lemma_trimmed_ends(v.last());
    }
}

/// When a JSON value is a recipe: it has instructions that are a text, and activities that are a
/// list of texts. What it says is taken as it is, and a title and a description are made up only
/// where it has none.
pub proof fn law_which_values_are_recipes(json: Tree)
    ensures
        recipe_of(json) is Ok <==> (json.get("instructions"@) matches Some(Tree::Str(_)) && json.get(
            "activities"@,
        ) matches Some(Tree::Array(items)) && forall|i: int|
            0 <= i < items.len() ==> (#[trigger] items[i]) is Str),
        recipe_of(json) matches Ok(d) ==> {
            &&& json.get_text("instructions"@) == Some(d.instructions)
            &&& json.get_text("title"@) matches Some(t) ==> d.title == t
            &&& json.get_text("description"@) matches Some(t) ==> d.description == t
            &&& json.get("activities"@) matches Some(Tree::Array(items))
            &&& items.len() == d.activities.len()
            &&& forall|i: int|
                0 <= i < items.len() ==> (#[trigger] items[i]) == Tree::Str(d.activities[i])
        },
        json.get("instructions"@) is None ==> recipe_of(json) == Err::<DraftModel, Seq<char>>(
            "Missing 'instructions' in json response"@,
        ),
{
    if let Some(Tree::Array(items)) = json.get("activities"@) {
        if all_texts(items) is Some {
            let out = all_texts(items)->0;
            assert forall|i: int| 0 <= i < items.len() implies (#[trigger] items[i]) == Tree::Str(
                out[i],
            ) by {
                assert(items[i] is Str);
            }
        }
    }
}

/// Where a free text holds its instructions and its activities: behind the first word for each, and
/// all of it is instructions where neither stands in it.
pub proof fn law_where_free_text_is_parted(content: Seq<char>)
    ensures
        !has_text(content, "instructions:"@) && !has_text(content, "activities:"@) ==> text_parts(
            content,
        ) == (content, Seq::<char>::empty()),
        split_once_at(content, "instructions:"@) matches Some(p) ==> (split_once_at(
            p.1,
            "activities:"@,
        ) matches Some(q) ==> text_parts(content) == q),
        split_once_at(content, "instructions:"@) is None ==> (split_once_at(
            content,
            "activities:"@,
        ) matches Some(q) ==> text_parts(content) == q),
{
}

/// The activities of a free text are its lines that are not blank, in order.
pub proof fn law_activities_are_the_lines(a: Seq<Seq<char>>, b: Seq<Seq<char>>)
    ensures
        kept_lines(a + b) == kept_lines(a) + kept_lines(b),
        a.len() == 1 && trimmed(a[0]).len() > 0 ==> kept_lines(a) == seq![trimmed(a[0])],
        a.len() == 1 && trimmed(a[0]).len() == 0 ==> kept_lines(a).len() == 0,
    decreases b.len(),
{
    if a.len() == 1 {
        assert(a.drop_last() =~= Seq::empty());
        assert(kept_lines(a.drop_last()) =~= Seq::empty());
        assert(a.last() == a[0]);
        if trimmed(a[0]).len() > 0 {
            assert(kept_lines(a) =~= seq![trimmed(a[0])]);
        }
    }
    if b.len() > 0 {
        law_activities_are_the_lines(a, b.drop_last());
        assert((a + b).drop_last() =~= a + b.drop_last());
        assert((a + b).last() == b.last());
        assert(kept_lines(a + b) =~= kept_lines(a) + kept_lines(b));
    } else {
        assert(a + b =~= a);
        assert(kept_lines(a) + kept_lines(b) =~= kept_lines(a));
    }
}

/// What is JSON is read as JSON, or not at all; only what is not JSON is read as free text, which
/// is always a recipe.
pub proof fn law_json_comes_before_free_text(content: Seq<char>, json: Option<Tree>)
    ensures
        json matches Some(j) ==> recipe_in(content, json) == recipe_of(j),
        json is None ==> (recipe_in(content, json) matches Ok(d) && d.title
            == "Custom recipe from chat"@ && d.description
            == "a custom recipe instance from this chat session"@),
        fenced(content) matches Some(b) ==> json_part(content) == trimmed(b),
        fenced(content) is None ==> json_part(content) == trimmed(content),
{
}

/// The instructions of a free text are what stands before its activities, without the white space
/// and the marks of headings at its end.
pub proof fn law_instructions_end_without_headings(s: Seq<char>)
    ensures
        heading_trimmed(s).len() <= s.len(),
        heading_trimmed(s) == s.take(heading_trimmed(s).len() as int),
        heading_trimmed(s).len() > 0 ==> !white_space(heading_trimmed(s).last())
            && heading_trimmed(s).last() != '#',
        forall|k: int|
            heading_trimmed(s).len() <= k < s.len() ==> white_space(#[trigger] s[k]) || s[k] == '#',
    decreases s.len(),
{
    if s.len() > 0 && (white_space(s.last()) || s.last() == '#') {
        let front = s.drop_last();
        law_instructions_end_without_headings(front);
        let n = heading_trimmed(s).len() as int;
        assert(front.take(n) =~= s.take(n));
        assert forall|k: int| n <= k < s.len() implies white_space(#[trigger] s[k]) || s[k]
            == '#' by {
            if k < front.len() {
                assert(front[k] == s[k]);
            }
        }
    } else {
        assert(s.take(s.len() as int) =~= s);
    }
}

/// A recipe from free text holds its first part as instructions and the lines of its second as
/// activities, each without its bullet.
pub proof fn law_recipes_from_free_text(content: Seq<char>)
    ensures
        text_recipe(content).instructions == trimmed(heading_trimmed(text_parts(content).0)),
        text_recipe(content).activities == kept_lines(
            bare_lines_of(trimmed(text_parts(content).1)),
        ),
        bare_lines_of(content).len() == lines_of(content).len(),
        forall|i: int|
            0 <= i < lines_of(content).len() && pattern_valid(bullet_pattern()) ==> (
            #[trigger] bare_lines_of(content)[i]) == pattern_replaced(
                bullet_pattern(),
                lines_of(content)[i],
                ""@,
            ),
{
}

} // verus!
