//! Where a tool call goes, and which tools there are.

use crate::conversation::{copy_members, internal_error, members_opt, ErrorData, ErrorModel};
use crate::hooks::{DecisionModel, HookDecision};
use crate::json::{members, Json, Member, Tree};
use crate::text::{
    cat3, cat5, contains_string, has_text, is_order, lemma_has_text,
    lemma_in_longer, lemma_joined_holds, occurs_at, join, joined, sort_order, str_eq, text_opt, texts,
};
use crate::tools::{tool_models, Tool, ToolModel};
use vstd::prelude::*;
use vstd::string::*;

verus! {

broadcast use {crate::json::lemma_array_view, crate::json::lemma_object_view};

// ---------------------------------------------------------------------------
// Tool calls
// ---------------------------------------------------------------------------

/// The names of the tools that the agent runs itself.
#[derive(Debug, PartialEq, Eq)]
pub struct PlatformToolNames {
    pub manage_schedule: String,
    pub final_output: String,
}

/// Where a tool call goes.
#[derive(Debug, PartialEq, Eq)]
pub enum ToolRoute {
    /// The call is answered with the error, and no hook hears of it.
    Refused(ErrorData),
    /// The scheduler runs it.
    Schedule,
    /// The final output tool takes it.
    FinalOutput,
    /// The frontend has to run it: the call is answered with the error.
    Frontend(ErrorData),
    /// The extension that owns the tool runs it.
    Extension,
}

#[verifier::ext_equal]
pub enum RouteModel {
    Refused(ErrorModel),
    Schedule,
    FinalOutput,
    Frontend(ErrorModel),
    Extension,
}

impl ToolRoute {
    pub open spec fn view(&self) -> RouteModel {
        match self {
            ToolRoute::Refused(e) => RouteModel::Refused(e@),
            ToolRoute::Schedule => RouteModel::Schedule,
            ToolRoute::FinalOutput => RouteModel::FinalOutput,
            ToolRoute::Frontend(e) => RouteModel::Frontend(e@),
            ToolRoute::Extension => RouteModel::Extension,
        }
    }
}

pub open spec fn denied_call_text(plugin: Seq<char>, reason: Seq<char>) -> Seq<char> {
    "Tool call denied by policy hook `"@ + plugin + "`: "@ + reason
        + ". Do not retry; this is a policy denial, not a transient failure."@
}

/// Where a tool call goes: a hook that denies it comes first, then the agent's own tools, then
/// the frontend's, then the extensions'.
pub open spec fn tool_route(
    decision: DecisionModel,
    name: Seq<char>,
    schedule_name: Seq<char>,
    final_output_name: Seq<char>,
    final_output_defined: bool,
    frontend: bool,
) -> RouteModel {
    match decision {
        DecisionModel::Deny { reason, plugin } => RouteModel::Refused(
            internal_error(denied_call_text(plugin, reason)),
        ),
        DecisionModel::Allow => if name == schedule_name {
            RouteModel::Schedule
        } else if name == final_output_name {
            if final_output_defined {
                RouteModel::FinalOutput
            } else {
                RouteModel::Refused(internal_error("Final output tool not defined"@))
            }
        } else if frontend {
            RouteModel::Frontend(internal_error("Frontend tool execution required"@))
        } else {
            RouteModel::Extension
        },
    }
}

/// Where a tool call goes. `decision` is what the hooks before a tool call decided; without such
/// hooks the call is allowed.
pub fn route_tool_call(
    decision: HookDecision,
    name: &str,
    own: &PlatformToolNames,
    final_output_defined: bool,
    frontend: bool,
) -> (r: ToolRoute)
    ensures
        r@ == tool_route(
            decision@,
            name@,
            own.manage_schedule@,
            own.final_output@,
            final_output_defined,
            frontend,
        ),
{
    match decision {
        HookDecision::Deny { reason, plugin } => {
            let text = cat5(
                "Tool call denied by policy hook `",
                plugin.as_str(),
                "`: ",
                reason.as_str(),
                ". Do not retry; this is a policy denial, not a transient failure.",
            );
            ToolRoute::Refused(ErrorData::internal(text))
        },
        HookDecision::Allow => if str_eq(name, own.manage_schedule.as_str()) {
            ToolRoute::Schedule
        } else if str_eq(name, own.final_output.as_str()) {
            if final_output_defined {
                ToolRoute::FinalOutput
            } else {
                ToolRoute::Refused(
                    ErrorData::internal("Final output tool not defined".to_owned()),
                )
            }
        } else if frontend {
            ToolRoute::Frontend(
                ErrorData::internal("Frontend tool execution required".to_owned()),
            )
        } else {
            ToolRoute::Extension
        },
    }
}

/// A call that a policy hook denies goes nowhere, whatever tool it names.
pub proof fn law_denied_calls_go_nowhere(
    reason: Seq<char>,
    plugin: Seq<char>,
    name: Seq<char>,
    schedule_name: Seq<char>,
    final_output_name: Seq<char>,
    final_output_defined: bool,
    frontend: bool,
)
    ensures
        tool_route(
            DecisionModel::Deny { reason, plugin },
            name,
            schedule_name,
            final_output_name,
            final_output_defined,
            frontend,
        ) is Refused,
{
}

/// The arguments of a call as a JSON object: an empty one where there are none.
pub fn arguments_object(arguments: &Option<Vec<Member>>) -> (r: Json)
    ensures
        r@ == Tree::Object(
            match members_opt(*arguments) {
                Some(ms) => ms,
                None => Seq::empty(),
            },
        ),
{
    match arguments {
        Some(ms) => Json::Object(copy_members(ms)),
        None => {
            let none: Vec<Member> = Vec::new();
            assert(members(none@) =~= Seq::empty());
            Json::Object(none)
        },
    }
}

/// How a call of an extension's tool failed.
#[derive(Debug, PartialEq, Eq)]
pub enum CallFailure {
    /// With an error that answers the call.
    Data(ErrorData),
    /// In another way, with this text.
    Other(String),
}

/// The error that answers a failed call.
pub fn failure_data(failure: CallFailure) -> (r: ErrorData)
    ensures
        r@ == match failure {
            CallFailure::Data(e) => e@,
            CallFailure::Other(s) => internal_error(s@),
        },
{
    match failure {
        CallFailure::Data(e) => e,
        CallFailure::Other(s) => ErrorData::internal(s),
    }
}

// ---------------------------------------------------------------------------
// Frontend extensions
// ---------------------------------------------------------------------------

/// An extension whose tools the frontend runs.
#[derive(Debug, PartialEq, Eq)]
pub struct FrontendExtension {
    pub key: String,
    pub name: String,
    pub tools: Vec<Tool>,
    pub instructions: Option<String>,
}

#[verifier::ext_equal]
pub struct FrontendModel {
    pub key: Seq<char>,
    pub name: Seq<char>,
    pub tools: Seq<ToolModel>,
    pub instructions: Option<Seq<char>>,
}

impl FrontendExtension {
    pub open spec fn view(&self) -> FrontendModel {
        FrontendModel {
            key: self.key@,
            name: self.name@,
            tools: tool_models(self.tools@),
            instructions: text_opt(self.instructions),
        }
    }
}

pub open spec fn frontend_models(v: Seq<FrontendExtension>) -> Seq<FrontendModel> {
    Seq::new(v.len(), |i: int| v[i]@)
}

pub open spec fn frontend_keys(v: Seq<FrontendModel>) -> Seq<Seq<char>> {
    Seq::new(v.len(), |i: int| v[i].key)
}

/// The extensions with one more: in the place of the one with its key, else at the end.
pub open spec fn with_frontend(v: Seq<FrontendModel>, e: FrontendModel) -> Seq<FrontendModel>
    decreases v.len(),
{
    if v.len() == 0 {
        seq![e]
    } else if v[0].key == e.key {
        seq![e] + v.skip(1)
    } else {
        seq![v[0]] + with_frontend(v.skip(1), e)
    }
}

/// The extensions without the one with the key.
pub open spec fn without_frontend(v: Seq<FrontendModel>, key: Seq<char>) -> Seq<FrontendModel>
    decreases v.len(),
{
    if v.len() == 0 {
        Seq::empty()
    } else if v[0].key == key {
        v.skip(1)
    } else {
        seq![v[0]] + without_frontend(v.skip(1), key)
    }
}

/// The tools of the extensions, one extension after the other.
pub open spec fn all_frontend_tools(v: Seq<FrontendModel>) -> Seq<ToolModel>
    decreases v.len(),
{
    if v.len() == 0 {
        Seq::empty()
    } else {
        all_frontend_tools(v.drop_last()) + v.last().tools
    }
}

/// The names of some tools, each once, in the order of their first places.
pub open spec fn distinct_names(v: Seq<ToolModel>) -> Seq<Seq<char>>
    decreases v.len(),
{
    if v.len() == 0 {
        Seq::empty()
    } else {
        let head = distinct_names(v.drop_last());
        if head.contains(v.last().name) {
            head
        } else {
            head.push(v.last().name)
        }
    }
}

/// The last of some tools with the name.
pub open spec fn last_named(v: Seq<ToolModel>, name: Seq<char>) -> Option<ToolModel>
    decreases v.len(),
{
    if v.len() == 0 {
        None
    } else if v.last().name == name {
        Some(v.last())
    } else {
        last_named(v.drop_last(), name)
    }
}

proof fn lemma_last_named(a: Seq<ToolModel>, b: Seq<ToolModel>, name: Seq<char>)
    ensures
        last_named(a + b, name) == match last_named(b, name) {
            Some(t) => Some(t),
            None => last_named(a, name),
        },
    decreases b.len(),
{
    if b.len() == 0 {
        assert(a + b =~= a);
    } else {
        assert((a + b).last() == b.last());
        assert((a + b).drop_last() =~= a + b.drop_last());
        lemma_last_named(a, b.drop_last(), name);
    }
}

/// What the model is told of the tools of one extension.
pub open spec fn frontend_note(e: FrontendModel, several: bool) -> Seq<char> {
    let text = match e.instructions {
        Some(t) => t,
        None =>
            "The following tools are provided directly by the frontend and will be executed by the frontend when called."@,
    };
    if several {
        e.name + ": "@ + text
    } else {
        text
    }
}

/// What the model is told of the tools of the frontend: nothing where there are no extensions.
pub open spec fn frontend_notes(v: Seq<FrontendModel>) -> Option<Seq<char>> {
    if v.len() == 0 {
        None
    } else {
        Some(
            joined(
                Seq::new(v.len(), |i: int| frontend_note(v[i], v.len() > 1)),
                "\n\n"@,
            ),
        )
    }
}

/// The frontend's extensions.
#[derive(Debug, PartialEq, Eq)]
pub struct FrontendExtensions {
    pub extensions: Vec<FrontendExtension>,
}

impl FrontendExtensions {
    pub open spec fn view(&self) -> Seq<FrontendModel> {
        frontend_models(self.extensions@)
    }

    pub fn new() -> (r: FrontendExtensions)
        ensures
            r@ == Seq::<FrontendModel>::empty(),
    {
        let r = FrontendExtensions { extensions: Vec::new() };
        assert(r@ =~= Seq::empty());
        r
    }

    proof fn lemma_with_at(v: Seq<FrontendModel>, e: FrontendModel, k: int)
        requires
            0 <= k < v.len(),
            v[k].key == e.key,
            forall|j: int| 0 <= j < k ==> (#[trigger] v[j]).key != e.key,
        ensures
            with_frontend(v, e) == v.update(k, e),
        decreases k,
    {
        if k == 0 {
            assert(seq![e] + v.skip(1) =~= v.update(0, e));
        } else {
            assert(v[0].key != e.key);
            Self::lemma_with_at(v.skip(1), e, k - 1);
            assert(seq![v[0]] + v.skip(1).update(k - 1, e) =~= v.update(k, e));
        }
    }

    proof fn lemma_with_end(v: Seq<FrontendModel>, e: FrontendModel)
        requires
            forall|j: int| 0 <= j < v.len() ==> (#[trigger] v[j]).key != e.key,
        ensures
            with_frontend(v, e) == v.push(e),
        decreases v.len(),
    {
        if v.len() == 0 {
            assert(seq![e] =~= v.push(e));
        } else {
            assert(v[0].key != e.key);
            Self::lemma_with_end(v.skip(1), e);
            assert(seq![v[0]] + v.skip(1).push(e) =~= v.push(e));
        }
    }

    proof fn lemma_without_at(v: Seq<FrontendModel>, key: Seq<char>, k: int)
        requires
            0 <= k < v.len(),
            v[k].key == key,
            forall|j: int| 0 <= j < k ==> (#[trigger] v[j]).key != key,
        ensures
            without_frontend(v, key) == v.remove(k),
        decreases k,
    {
        if k == 0 {
            assert(v.skip(1) =~= v.remove(0));
        } else {
            assert(v[0].key != key);
            Self::lemma_without_at(v.skip(1), key, k - 1);
            assert(seq![v[0]] + v.skip(1).remove(k - 1) =~= v.remove(k));
        }
    }

    proof fn lemma_without_none(v: Seq<FrontendModel>, key: Seq<char>)
        requires
            forall|j: int| 0 <= j < v.len() ==> (#[trigger] v[j]).key != key,
        ensures
            without_frontend(v, key) == v,
        decreases v.len(),
    {
        if v.len() > 0 {
            assert(v[0].key != key);
            Self::lemma_without_none(v.skip(1), key);
            assert(seq![v[0]] + v.skip(1) =~= v);
        }
    }

    fn find(&self, key: &str) -> (r: Option<usize>)
        ensures
            match r {
                Some(k) => k < self@.len() && self@[k as int].key == key@ && forall|j: int|
                    0 <= j < k ==> (#[trigger] self@[j]).key != key@,
                None => forall|j: int| 0 <= j < self@.len() ==> (#[trigger] self@[j]).key != key@,
            },
    {
        let mut i: usize = 0;
        while i < self.extensions.len()
            invariant
                i <= self.extensions@.len(),
                forall|j: int| 0 <= j < i ==> (#[trigger] self@[j]).key != key@,
            decreases self.extensions@.len() - i,
        {
            if str_eq(self.extensions[i].key.as_str(), key) {
                return Some(i);
            }
            i = i + 1;
        }
        None
    }

    /// Adds an extension; one with the same key goes.
    pub fn insert(&mut self, extension: FrontendExtension)
        ensures
            final(self)@ == with_frontend(old(self)@, extension@),
    {
        let ghost before = self@;
        let ghost e = extension@;
        match self.find(extension.key.as_str()) {
            Some(k) => {
                proof {
                    Self::lemma_with_at(before, e, k as int);
                }
                self.extensions.set(k, extension);
                assert(self@ =~= before.update(k as int, e));
            },
            None => {
                proof {
                    Self::lemma_with_end(before, e);
                }
                self.extensions.push(extension);
                assert(self@ =~= before.push(e));
            },
        }
    }

    /// Removes the extension with the key.
    pub fn remove(&mut self, key: &str)
        ensures
            final(self)@ == without_frontend(old(self)@, key@),
    {
        let ghost before = self@;
        match self.find(key) {
            Some(k) => {
                proof {
                    Self::lemma_without_at(before, key@, k as int);
                }
                let _ = self.extensions.remove(k);
                assert(self@ =~= before.remove(k as int));
            },
            None => {
                proof {
                    Self::lemma_without_none(before, key@);
                }
            },
        }
    }

    /// What the model is told of the tools of the frontend.
    pub fn instructions(&self) -> (r: Option<String>)
        ensures
            text_opt(r) == frontend_notes(self@),
    {
        let n: usize = self.extensions.len();
        if n == 0 {
            return None;
        }
        let several = n > 1;
        let mut notes: Vec<String> = Vec::new();
        let mut i: usize = 0;
        while i < self.extensions.len()
            invariant
                n == self.extensions@.len(),
                several == (n > 1),
                i <= n,
                notes@.len() == i,
                forall|j: int|
                    0 <= j < i ==> #[trigger] notes@[j]@ == frontend_note(self@[j], several),
            decreases n - i,
        {
            assert(self@[i as int] == self.extensions@[i as int]@);
            let text = match &self.extensions[i].instructions {
                Some(t) => t.clone(),
                None =>
                    "The following tools are provided directly by the frontend and will be executed by the frontend when called.".to_owned(),
            };
            if several {
                notes.push(cat3(self.extensions[i].name.as_str(), ": ", text.as_str()));
            } else {
                notes.push(text);
            }
            i = i + 1;
        }
        assert(texts(notes@) =~= Seq::new(
            self@.len(),
            |i: int| frontend_note(self@[i], self@.len() > 1),
        ));
        Some(join(&notes, "\n\n"))
    }

    /// The names of the frontend's tools, each once.
    pub fn tool_names(&self) -> (r: Vec<String>)
        ensures
            texts(r@) == distinct_names(all_frontend_tools(self@)),
    {
        let mut out: Vec<String> = Vec::new();
        let ghost mut seen: Seq<ToolModel> = Seq::empty();
        let mut i: usize = 0;
        assert(texts(out@) =~= distinct_names(Seq::empty()));
        assert(all_frontend_tools(self@.take(0)) =~= Seq::empty());
        while i < self.extensions.len()
            invariant
                i <= self.extensions@.len(),
                seen == all_frontend_tools(self@.take(i as int)),
                texts(out@) == distinct_names(seen),
            decreases self.extensions@.len() - i,
        {
            assert(self@.take(i + 1).drop_last() =~= self@.take(i as int));
            assert(self@.take(i + 1).last() == self.extensions@[i as int]@);
            let ghost base = seen;
            let ghost tm = tool_models(self.extensions@[i as int].tools@);
            let mut k: usize = 0;
            assert(seen =~= base + tm.take(0));
            while k < self.extensions[i].tools.len()
                invariant
                    i < self.extensions@.len(),
                    tm == tool_models(self.extensions@[i as int].tools@),
                    k <= tm.len(),
                    seen == base + tm.take(k as int),
                    texts(out@) == distinct_names(seen),
                decreases tm.len() - k,
            {
                let ghost t = tm[k as int];
                assert(t == self.extensions@[i as int].tools@[k as int]@);
                assert(seen.push(t).drop_last() =~= seen);
                if !contains_string(&out, self.extensions[i].tools[k].name.as_str()) {
                    let ghost before = texts(out@);
                    out.push(self.extensions[i].tools[k].name.clone());
                    assert(texts(out@) =~= before.push(t.name));
                }
                proof {
                    seen = seen.push(t);
                    assert(seen =~= base + tm.take(k + 1));
                }
                k = k + 1;
            }
            assert(tm.take(k as int) =~= tm);
            i = i + 1;
        }
        assert(self@.take(i as int) =~= self@);
        out
    }

    /// The tool of the frontend with the name: of several the last.
    pub fn get_frontend_tool(&self, name: &str) -> (r: Option<Tool>)
        ensures
            match last_named(all_frontend_tools(self@), name@) {
                Some(m) => r matches Some(t) && t@ == m,
                None => r is None,
            },
    {
        let mut i: usize = self.extensions.len();
        assert(self@.take(i as int) =~= self@);
        while i > 0
            invariant
                i <= self.extensions@.len(),
                last_named(all_frontend_tools(self@), name@) == last_named(
                    all_frontend_tools(self@.take(i as int)),
                    name@,
                ),
            decreases i,
        {
            let ghost tm = tool_models(self.extensions@[i - 1].tools@);
            proof {
                assert(self@.take(i as int).drop_last() =~= self@.take(i - 1));
                assert(self@.take(i as int).last() == self.extensions@[i - 1]@);
                lemma_last_named(all_frontend_tools(self@.take(i - 1)), tm, name@);
            }
            let mut k: usize = self.extensions[i - 1].tools.len();
            assert(tm.take(k as int) =~= tm);
            while k > 0
                invariant
                    0 < i <= self.extensions@.len(),
                    tm == tool_models(self.extensions@[i - 1].tools@),
                    k <= tm.len(),
                    last_named(tm, name@) == last_named(tm.take(k as int), name@),
                    last_named(all_frontend_tools(self@), name@) == match last_named(tm, name@) {
                        Some(t) => Some(t),
                        None => last_named(all_frontend_tools(self@.take(i - 1)), name@),
                    },
                decreases k,
            {
                assert(tm.take(k as int).last() == self.extensions@[i - 1].tools@[k - 1]@);
                assert(tm.take(k as int).drop_last() =~= tm.take(k - 1));
                if str_eq(self.extensions[i - 1].tools[k - 1].name.as_str(), name) {
                    return Some(self.extensions[i - 1].tools[k - 1].copy());
                }
                k = k - 1;
            }
            i = i - 1;
        }
        None
    }

    /// Whether the frontend has a tool with the name.
    pub fn is_frontend_tool(&self, name: &str) -> (r: bool)
        ensures
            r == (last_named(all_frontend_tools(self@), name@) is Some),
    {
        self.get_frontend_tool(name).is_some()
    }

    /// The tools of the extension with the key, or of all extensions in the order of their keys.
    pub fn tools_for(&self, requested: Option<&str>) -> (r: Vec<Tool>)
        ensures
            exists|order: Seq<usize>| #[trigger]
                is_order(frontend_keys(self@), order) && tool_models(r@) == requested_tools(
                    self@,
                    order,
                    match requested {
                        Some(k) => Some(k@),
                        None => None,
                    },
                ),
    {
        let mut keys: Vec<String> = Vec::new();
        let mut i: usize = 0;
        while i < self.extensions.len()
            invariant
                i <= self.extensions@.len(),
                keys@.len() == i,
                forall|j: int| 0 <= j < i ==> #[trigger] keys@[j]@ == self@[j].key,
            decreases self.extensions@.len() - i,
        {
            assert(self@[i as int].key == self.extensions@[i as int].key@);
            keys.push(self.extensions[i].key.clone());
            i = i + 1;
        }
        assert(texts(keys@) =~= frontend_keys(self@));
        let order = sort_order(&keys);
        let ghost want = match requested {
            Some(k) => Some(k@),
            None => None,
        };
        let mut out: Vec<Tool> = Vec::new();
        let mut n: usize = 0;
        assert(tool_models(out@) =~= requested_tools(self@, order@.take(0), want));
        while n < order.len()
            invariant
                n <= order@.len(),
                is_order(frontend_keys(self@), order@),
                want == match requested {
                    Some(k) => Some(k@),
                    None => None,
                },
                tool_models(out@) == requested_tools(self@, order@.take(n as int), want),
            decreases order@.len() - n,
        {
            assert(order@.take(n + 1).drop_last() =~= order@.take(n as int));
            let at: usize = order[n];
            assert(at < frontend_keys(self@).len());
            let wanted = match requested {
                Some(k) => str_eq(self.extensions[at].key.as_str(), k),
                None => true,
            };
            assert(self@[at as int] == self.extensions@[at as int]@);
            if wanted {
                let ghost base = tool_models(out@);
                let ghost tm = tool_models(self.extensions@[at as int].tools@);
                let mut k: usize = 0;
                assert(tool_models(out@) =~= base + tm.take(0));
                while k < self.extensions[at].tools.len()
                    invariant
                        at < self.extensions@.len(),
                        tm == tool_models(self.extensions@[at as int].tools@),
                        k <= tm.len(),
                        tool_models(out@) == base + tm.take(k as int),
                    decreases tm.len() - k,
                {
                    let ghost before = tool_models(out@);
                    out.push(self.extensions[at].tools[k].copy());
                    assert(tool_models(out@) =~= before.push(tm[k as int]));
                    assert(tool_models(out@) =~= base + tm.take(k + 1));
                    k = k + 1;
                }
                assert(tm.take(k as int) =~= tm);
            }
            n = n + 1;
        }
        assert(order@.take(n as int) =~= order@);
        out
    }
}

/// The tools of the extensions at the positions of `order`, or of the one that was asked for.
pub open spec fn requested_tools(
    v: Seq<FrontendModel>,
    order: Seq<usize>,
    requested: Option<Seq<char>>,
) -> Seq<ToolModel>
    decreases order.len(),
{
    if order.len() == 0 {
        Seq::empty()
    } else {
        let head = requested_tools(v, order.drop_last(), requested);
        let e = v[order.last() as int];
        if requested matches Some(k) ==> e.key == k {
            head + e.tools
        } else {
            head
        }
    }
}

/// Extensions and tools, the frontend's counted in.
pub fn total_counts(
    extension_count: usize,
    tool_count: usize,
    frontend: &FrontendExtensions,
) -> (r: (usize, usize))
    requires
        extension_count + frontend@.len() <= usize::MAX,
        tool_count + distinct_names(all_frontend_tools(frontend@)).len() <= usize::MAX,
    ensures
        r.0 == extension_count + frontend@.len(),
        r.1 == tool_count + distinct_names(all_frontend_tools(frontend@)).len(),
{
    let names = frontend.tool_names();
    assert(texts(names@).len() == names@.len());
    (extension_count + frontend.extensions.len(), tool_count + names.len())
}

/// The agent's tools: those of the extensions, those of the frontend, the scheduler's where all
/// tools or the platform's are asked for, and the final output tool where all are.
pub open spec fn listed_tools(
    prefixed: Seq<ToolModel>,
    frontend: Seq<ToolModel>,
    requested: Option<Seq<char>>,
    schedule: Option<ToolModel>,
    final_output: Option<ToolModel>,
) -> Seq<ToolModel> {
    let base = prefixed + frontend;
    let with_schedule = match (schedule, requested) {
        (Some(t), None) => base.push(t),
        (Some(t), Some(n)) => if n == "platform"@ {
            base.push(t)
        } else {
            base
        },
        (None, _) => base,
    };
    match (final_output, requested) {
        (Some(t), None) => with_schedule.push(t),
        _ => with_schedule,
    }
}

pub open spec fn tool_opt(o: Option<Tool>) -> Option<ToolModel> {
    match o {
        Some(t) => Some(t@),
        None => None,
    }
}

/// The agent's tools. `schedule` is the scheduler's tool where there is a scheduler.
pub fn list_tools(
    prefixed: Vec<Tool>,
    frontend: Vec<Tool>,
    requested: Option<&str>,
    schedule: Option<Tool>,
    final_output: Option<Tool>,
) -> (r: Vec<Tool>)
    ensures
        tool_models(r@) == listed_tools(
            tool_models(prefixed@),
            tool_models(frontend@),
            match requested {
                Some(k) => Some(k@),
                None => None,
            },
            tool_opt(schedule),
            tool_opt(final_output),
        ),
{
    let mut out = prefixed;
    let mut more = frontend;
    out.append(&mut more);
    assert(tool_models(out@) =~= tool_models(prefixed@) + tool_models(frontend@));
    let platform = match requested {
        Some(n) => str_eq(n, "platform"),
        None => true,
    };
    if let Some(t) = schedule {
        if platform {
            let ghost before = tool_models(out@);
            let ghost tm = t@;
            out.push(t);
            assert(tool_models(out@) =~= before.push(tm));
        }
    }
    if let Some(t) = final_output {
        if requested.is_none() {
            let ghost before = tool_models(out@);
            let ghost tm = t@;
            out.push(t);
            assert(tool_models(out@) =~= before.push(tm));
        }
    }
    out
}

// ---------------------------------------------------------------------------
// Loading extensions
// ---------------------------------------------------------------------------

/// What loading an extension came to.
#[derive(Debug, PartialEq, Eq)]
pub struct ExtensionLoadResult {
    pub name: String,
    pub success: bool,
    pub error: Option<String>,
}

impl ExtensionLoadResult {
    /// The result of an attempt to load an extension.
    pub fn of(name: String, outcome: Result<(), String>) -> (r: ExtensionLoadResult)
        ensures
            r.name == name,
            r.success == (outcome is Ok),
            r.error == match outcome {
                Ok(_) => None,
                Err(e) => Some(e),
            },
    {
        match outcome {
            Ok(_) => ExtensionLoadResult { name, success: true, error: None },
            Err(e) => ExtensionLoadResult { name, success: false, error: Some(e) },
        }
    }
}

/// Whether the extensions are to be stored after a load: where one of them was loaded.
pub fn should_persist(results: &Vec<ExtensionLoadResult>) -> (r: bool)
    ensures
        r == exists|i: int| 0 <= i < results@.len() && (#[trigger] results@[i]).success,
{
    let mut i: usize = 0;
    while i < results.len()
        invariant
            i <= results@.len(),
            forall|j: int| 0 <= j < i ==> !(#[trigger] results@[j]).success,
        decreases results@.len() - i,
    {
        if results[i].success {
            return true;
        }
        i = i + 1;
    }
    false
}

// ---------------------------------------------------------------------------
// Confirmations and prompts
// ---------------------------------------------------------------------------

/// Who asks the user for permissions.
#[derive(Clone, Copy, PartialEq, Eq, Structural, Debug)]
pub enum PermissionRouting {
    Noop,
    ActionRequired,
}

/// Whether the provider asks the user for permissions.
pub fn supports_action_required_permissions(provider: Option<PermissionRouting>) -> (r: bool)
    ensures
        r == (provider == Some(PermissionRouting::ActionRequired)),
{
    match provider {
        Some(routing) => routing == PermissionRouting::ActionRequired,
        None => false,
    }
}

/// Whether a confirmation goes to the agent's own router.
pub open spec fn routed_here(
    provider: Option<PermissionRouting>,
    taken_by_provider: bool,
) -> bool {
    !(provider == Some(PermissionRouting::ActionRequired) && taken_by_provider)
}

/// Whether a confirmation goes to the agent's own router: always, but where the provider asks for
/// permissions and took it.
pub fn goes_to_router(provider: Option<PermissionRouting>, taken_by_provider: bool) -> (r: bool)
    ensures
        r == routed_here(provider, taken_by_provider),
{
    !(supports_action_required_permissions(provider) && taken_by_provider)
}

/// The prompts of one extension.
#[derive(Debug, PartialEq, Eq)]
pub struct ExtensionPrompts {
    pub extension: String,
    pub prompts: Vec<String>,
}

/// The first of the extensions that has the prompt.
pub open spec fn prompt_owner(all: Seq<ExtensionPrompts>, name: Seq<char>) -> Option<Seq<char>>
    decreases all.len(),
{
    if all.len() == 0 {
        None
    } else if texts(all[0].prompts@).contains(name) {
        Some(all[0].extension@)
    } else {
        prompt_owner(all.skip(1), name)
    }
}

/// The extension that has the prompt: the first in the order in which they are given.
pub fn find_prompt(all: &Vec<ExtensionPrompts>, name: &str) -> (r: Result<String, String>)
    ensures
        match prompt_owner(all@, name@) {
            Some(e) => r matches Ok(s) && s@ == e,
            None => r matches Err(s) && s@ == "Prompt '"@ + name@ + "' not found"@,
        },
{
    let mut i: usize = 0;
    assert(all@.skip(0) =~= all@);
    while i < all.len()
        invariant
            i <= all@.len(),
            prompt_owner(all@, name@) == prompt_owner(all@.skip(i as int), name@),
        decreases all@.len() - i,
    {
        assert(all@.skip(i as int).skip(1) =~= all@.skip(i + 1));
        if contains_string(&all[i].prompts, name) {
            return Ok(all[i].extension.clone());
        }
        i = i + 1;
    }
    Err(cat3("Prompt '", name, "' not found"))
}

// ---------------------------------------------------------------------------
// The provider of a session
// ---------------------------------------------------------------------------

/// The provider that a session is restored with.
pub open spec fn provider_restored(
    session: Option<Seq<char>>,
    configured: Option<Seq<char>>,
) -> Option<Seq<char>> {
    match session {
        Some(s) => Some(s),
        None => configured,
    }
}

/// The provider that a session is restored with: its own, else the configured one.
pub fn restored_provider(session: &Option<String>, configured: &Option<String>) -> (r: Result<
    String,
    String,
>)
    ensures
        match provider_restored(text_opt(*session), text_opt(*configured)) {
            Some(p) => r matches Ok(s) && s@ == p,
            None => r matches Err(e) && e@ == "Could not configure agent: missing provider"@,
        },
        *session matches Some(s) ==> r == Ok::<String, String>(s),
        *session is None ==> (*configured matches Some(c) ==> r == Ok::<String, String>(c)),
{
    match (session, configured) {
        (Some(s), _) => Ok(s.clone()),
        (None, Some(c)) => Ok(c.clone()),
        (None, None) => Err("Could not configure agent: missing provider".to_owned()),
    }
}

/// The model that a session without a saved one is restored with: the configured one.
pub fn restored_model(saved: bool, configured: &Option<String>) -> (r: Result<Option<String>, String>)
    ensures
        match (saved, *configured) {
            (true, _) => r == Ok::<Option<String>, String>(None),
            (false, Some(m)) => r == Ok::<Option<String>, String>(Some(m)),
            (false, None) => r matches Err(e) && e@ == "Could not configure agent: missing model"@,
        },
{
    match (saved, configured) {
        (true, _) => Ok(None),
        (false, Some(m)) => Ok(Some(m.clone())),
        (false, None) => Err("Could not configure agent: missing model".to_owned()),
    }
}

/// How a session's provider is restored.
#[derive(Debug, PartialEq, Eq)]
pub enum ProviderPlan {
    /// The provider is there.
    Own,
    /// The provider is not there: another takes its place, with this model.
    Fallback { provider: String, model: String },
}

/// Whether this is how a session's provider is restored.
pub open spec fn provider_planned(
    name: Seq<char>,
    registered: bool,
    configured_provider: Option<String>,
    configured_model: Option<String>,
    r: Result<ProviderPlan, String>,
) -> bool {
    if registered {
        r == Ok::<ProviderPlan, String>(ProviderPlan::Own)
    } else {
        match configured_provider {
            Some(p) => if p@ == name {
                r matches Err(e) && e@ == "Could not create provider: provider '"@ + name
                    + "' not found"@
            } else {
                match configured_model {
                    Some(m) => r == Ok::<ProviderPlan, String>(
                        ProviderPlan::Fallback { provider: p, model: m },
                    ),
                    None => r matches Err(e) && e@
                        == "Could not configure fallback provider: missing model"@,
                }
            },
            None => r matches Err(e) && e@ == "Could not create provider: provider '"@ + name
                + "' not found"@,
        }
    }
}

/// How a session's provider is restored. One that is not registered is replaced by the configured
/// one, where that is another and a model is configured.
pub fn provider_plan(
    name: &str,
    registered: bool,
    configured_provider: &Option<String>,
    configured_model: &Option<String>,
) -> (r: Result<ProviderPlan, String>)
    ensures
        provider_planned(name@, registered, *configured_provider, *configured_model, r),
{
    if registered {
        return Ok(ProviderPlan::Own);
    }
    match configured_provider {
        Some(p) => {
            if str_eq(p.as_str(), name) {
                return Err(
                    cat3("Could not create provider: provider '", name, "' not found"),
                );
            }
            match configured_model {
                Some(m) => Ok(ProviderPlan::Fallback { provider: p.clone(), model: m.clone() }),
                None => Err("Could not configure fallback provider: missing model".to_owned()),
            }
        },
        None => Err(cat3("Could not create provider: provider '", name, "' not found")),
    }
}

/// Whether restoring a session replaced its provider.
pub fn provider_changed(plan: &ProviderPlan) -> (r: bool)
    ensures
        r == (*plan is Fallback),
{
    match plan {
        ProviderPlan::Own => false,
        ProviderPlan::Fallback { .. } => true,
    }
}

/// The provider and the model whose settings a session without its own uses.
pub fn configured_model(provider: &Option<String>, model: &Option<String>) -> (r: Result<
    (String, String),
    String,
>)
    ensures
        match (*provider, *model) {
            (Some(p), Some(m)) => r == Ok::<(String, String), String>((p, m)),
            (None, _) => r matches Err(e) && e@
                == "Could not resolve model config: missing provider"@,
            (Some(_), None) => r matches Err(e) && e@
                == "Could not resolve model config: missing model"@,
        },
{
    match (provider, model) {
        (Some(p), Some(m)) => Ok((p.clone(), m.clone())),
        (None, _) => Err("Could not resolve model config: missing provider".to_owned()),
        (Some(_), None) => Err("Could not resolve model config: missing model".to_owned()),
    }
}

/// Who runs an allowed call: the scheduler and the final output tool only what names them, the
/// frontend what it offers, and the extensions all the rest, whether or not a final output tool is
/// defined.
pub proof fn law_allowed_calls_reach_their_tool(
    name: Seq<char>,
    schedule_name: Seq<char>,
    final_output_name: Seq<char>,
    final_output_defined: bool,
    frontend: bool,
)
    ensures
        ({
            let route = tool_route(
                DecisionModel::Allow,
                name,
                schedule_name,
                final_output_name,
                final_output_defined,
                frontend,
            );
            let own = name == schedule_name || name == final_output_name;
            &&& route is Schedule <==> name == schedule_name
            &&& route is FinalOutput <==> name == final_output_name && name != schedule_name
                && final_output_defined
            &&& route is Refused <==> name == final_output_name && name != schedule_name
                && !final_output_defined
            &&& route is Frontend <==> !own && frontend
            &&& route is Extension <==> !own && !frontend
        }),
{
}

/// A denied call is answered with what denied it and why.
pub proof fn law_denials_give_their_reason(
    reason: Seq<char>,
    plugin: Seq<char>,
    name: Seq<char>,
    schedule_name: Seq<char>,
    final_output_name: Seq<char>,
    final_output_defined: bool,
    frontend: bool,
)
    ensures
        tool_route(
            DecisionModel::Deny { reason, plugin },
            name,
            schedule_name,
            final_output_name,
            final_output_defined,
            frontend,
        ) matches RouteModel::Refused(e) && has_text(e.message, reason) && has_text(
            e.message,
            plugin,
        ),
{
    let a = "Tool call denied by policy hook `"@;
    let b = "`: "@;
    let c = ". Do not retry; this is a policy denial, not a transient failure."@;
    lemma_has_text(a, plugin, b + reason + c);
    lemma_has_text(a + plugin + b, reason, c);
    assert(denied_call_text(plugin, reason) =~= a + plugin + (b + reason + c));
    assert(denied_call_text(plugin, reason) =~= (a + plugin + b) + reason + c);
}

/// An extension that was added is there, in place of one with its key, and every other extension
/// stays.
pub proof fn law_added_frontends_are_there(v: Seq<FrontendModel>, e: FrontendModel)
    ensures
        with_frontend(v, e).contains(e),
        forall|i: int|
            0 <= i < v.len() && (#[trigger] v[i]).key != e.key ==> with_frontend(v, e).contains(
                v[i],
            ),
        forall|i: int|
            0 <= i < with_frontend(v, e).len() ==> #[trigger] with_frontend(v, e)[i] == e
                || v.contains(with_frontend(v, e)[i]),
        v.len() <= with_frontend(v, e).len() <= v.len() + 1,
        frontend_keys(v).contains(e.key) ==> with_frontend(v, e).len() == v.len(),
    decreases v.len(),
{
    let w = with_frontend(v, e);
    if v.len() == 0 {
        assert(w[0] == e);
    } else if v[0].key == e.key {
        assert(w[0] == e);
        assert forall|i: int| 0 <= i < v.len() && (#[trigger] v[i]).key != e.key implies w.contains(
            v[i],
        ) by {
            assert(w[i] == v[i]);
        }
        assert forall|i: int| 0 <= i < w.len() implies #[trigger] w[i] == e || v.contains(w[i]) by {
            if i > 0 {
                assert(w[i] == v[i]);
            }
        }
    } else {
        let rest = with_frontend(v.skip(1), e);
        law_added_frontends_are_there(v.skip(1), e);
        assert(w =~= seq![v[0]] + rest);
        let p = choose|p: int| 0 <= p < rest.len() && rest[p] == e;
        assert(w[p + 1] == e);
        assert forall|i: int| 0 <= i < v.len() && (#[trigger] v[i]).key != e.key implies w.contains(
            v[i],
        ) by {
            if i == 0 {
                assert(w[0] == v[0]);
            } else {
                assert(v.skip(1)[i - 1] == v[i]);
                assert(rest.contains(v[i]));
                let q = choose|q: int| 0 <= q < rest.len() && rest[q] == v[i];
                assert(w[q + 1] == v[i]);
            }
        }
        assert forall|i: int| 0 <= i < w.len() implies #[trigger] w[i] == e || v.contains(w[i]) by {
            if i == 0 {
                assert(v[0] == w[0]);
            } else {
                assert(w[i] == rest[i - 1]);
                if rest[i - 1] != e {
                    assert(v.skip(1).contains(rest[i - 1]));
                    let q = choose|q: int| 0 <= q < v.skip(1).len() && v.skip(1)[q] == rest[i - 1];
                    assert(v[q + 1] == w[i]);
                }
            }
        }
        if frontend_keys(v).contains(e.key) {
            let q = choose|q: int| 0 <= q < frontend_keys(v).len() && frontend_keys(v)[q] == e.key;
            assert(q > 0);
            assert(frontend_keys(v.skip(1))[q - 1] == e.key);
        }
    }
}

/// An extension that was removed is gone, and every other stays.
pub proof fn law_removed_frontends_are_gone(v: Seq<FrontendModel>, key: Seq<char>)
    requires
        forall|i: int, j: int|
            0 <= i < j < v.len() ==> (#[trigger] v[i]).key != (#[trigger] v[j]).key,
    ensures
        forall|i: int|
            0 <= i < without_frontend(v, key).len() ==> (
            #[trigger] without_frontend(v, key)[i]).key != key,
        forall|i: int|
            0 <= i < v.len() && (#[trigger] v[i]).key != key ==> without_frontend(v, key).contains(
                v[i],
            ),
    decreases v.len(),
{
    let w = without_frontend(v, key);
    if v.len() == 0 {
    } else if v[0].key == key {
        assert forall|i: int| 0 <= i < w.len() implies (#[trigger] w[i]).key != key by {
            assert(w[i] == v[i + 1]);
        }
        assert forall|i: int| 0 <= i < v.len() && (#[trigger] v[i]).key != key implies w.contains(
            v[i],
        ) by {
            assert(w[i - 1] == v[i]);
        }
    } else {
        let rest = without_frontend(v.skip(1), key);
        assert forall|i: int, j: int| 0 <= i < j < v.skip(1).len() implies (
        #[trigger] v.skip(1)[i]).key != (#[trigger] v.skip(1)[j]).key by {
            assert(v.skip(1)[i] == v[i + 1]);
            assert(v.skip(1)[j] == v[j + 1]);
        }
        law_removed_frontends_are_gone(v.skip(1), key);
        assert(w =~= seq![v[0]] + rest);
        assert forall|i: int| 0 <= i < w.len() implies (#[trigger] w[i]).key != key by {
            if i > 0 {
                assert(w[i] == rest[i - 1]);
            }
        }
        assert forall|i: int| 0 <= i < v.len() && (#[trigger] v[i]).key != key implies w.contains(
            v[i],
        ) by {
            if i == 0 {
                assert(w[0] == v[0]);
            } else {
                assert(v.skip(1)[i - 1] == v[i]);
                let q = choose|q: int| 0 <= q < rest.len() && rest[q] == v[i];
                assert(w[q + 1] == v[i]);
            }
        }
    }
}

/// Every tool of a frontend extension is one of the frontend's tools.
pub proof fn law_frontend_tools_are_counted_in(v: Seq<FrontendModel>, i: int, k: int)
    requires
        0 <= i < v.len(),
        0 <= k < v[i].tools.len(),
    ensures
        all_frontend_tools(v).contains(v[i].tools[k]),
        distinct_names(all_frontend_tools(v)).contains(v[i].tools[k].name),
        last_named(all_frontend_tools(v), v[i].tools[k].name) is Some,
{
    lemma_frontend_tools(v, i, k);
    let all = all_frontend_tools(v);
    let p = choose|p: int| 0 <= p < all.len() && all[p] == v[i].tools[k];
    law_tools_are_found_by_name(all, p);
}

proof fn lemma_frontend_tools(v: Seq<FrontendModel>, i: int, k: int)
    requires
        0 <= i < v.len(),
        0 <= k < v[i].tools.len(),
    ensures
        all_frontend_tools(v).contains(v[i].tools[k]),
    decreases v.len(),
{
    let head = all_frontend_tools(v.drop_last());
    let all = all_frontend_tools(v);
    if i < v.len() - 1 {
        assert(v.drop_last()[i] == v[i]);
        lemma_frontend_tools(v.drop_last(), i, k);
        let p = choose|p: int| 0 <= p < head.len() && head[p] == v[i].tools[k];
        assert(all[p] == v[i].tools[k]);
    } else {
        assert(all[head.len() + k] == v[i].tools[k]);
    }
}

/// A tool is found by its name: what is found has the name, and something is found wherever a tool
/// has it. Its name is among the names.
pub proof fn law_tools_are_found_by_name(v: Seq<ToolModel>, i: int)
    requires
        0 <= i < v.len(),
    ensures
        last_named(v, v[i].name) matches Some(t) && t.name == v[i].name && v.contains(t),
        distinct_names(v).contains(v[i].name),
    decreases v.len(),
{
    let head = distinct_names(v.drop_last());
    let all = distinct_names(v);
    if i < v.len() - 1 {
        assert(v.drop_last()[i] == v[i]);
        law_tools_are_found_by_name(v.drop_last(), i);
        let p = choose|p: int| 0 <= p < head.len() && head[p] == v[i].name;
        assert(all[p] == v[i].name);
        if v.last().name == v[i].name {
            assert(v[v.len() - 1] == v.last());
        } else {
            let t = last_named(v.drop_last(), v[i].name)->0;
            let q = choose|q: int| 0 <= q < v.drop_last().len() && v.drop_last()[q] == t;
            assert(v[q] == t);
        }
    } else {
        assert(v[v.len() - 1] == v.last());
        if !head.contains(v.last().name) {
            assert(all[head.len() as int] == v.last().name);
        }
    }
}

/// No tool is found under a name that none has, and no name is listed twice or without a tool.
pub proof fn law_names_belong_to_tools(v: Seq<ToolModel>, name: Seq<char>)
    ensures
        last_named(v, name) matches Some(t) ==> t.name == name && v.contains(t),
        forall|i: int, j: int|
            0 <= i < j < distinct_names(v).len() ==> #[trigger] distinct_names(v)[i]
                != #[trigger] distinct_names(v)[j],
        distinct_names(v).contains(name) ==> exists|k: int|
            0 <= k < v.len() && (#[trigger] v[k]).name == name,
    decreases v.len(),
{
    if v.len() > 0 {
        law_names_belong_to_tools(v.drop_last(), name);
        let head = distinct_names(v.drop_last());
        let all = distinct_names(v);
        assert(v[v.len() - 1] == v.last());
        if last_named(v.drop_last(), name) is Some {
            let t = last_named(v.drop_last(), name)->0;
            let q = choose|q: int| 0 <= q < v.drop_last().len() && v.drop_last()[q] == t;
            assert(v[q] == t);
        }
        if all.contains(name) {
            if head.contains(name) {
                let k = choose|k: int|
                    0 <= k < v.drop_last().len() && (#[trigger] v.drop_last()[k]).name == name;
                assert(v[k].name == name);
            } else {
                assert(v[v.len() - 1].name == name);
            }
        }
    }
}

/// Which tools are offered: all of the extensions' and the frontend's; the scheduler's where
/// nothing is asked for or the platform is; the final output tool only where nothing is asked for.
pub proof fn law_which_tools_are_listed(
    prefixed: Seq<ToolModel>,
    frontend: Seq<ToolModel>,
    requested: Option<Seq<char>>,
    schedule: Option<ToolModel>,
    final_output: Option<ToolModel>,
    t: ToolModel,
)
    ensures
        listed_tools(prefixed, frontend, requested, schedule, final_output).contains(t)
            <==> prefixed.contains(t) || frontend.contains(t) || (schedule == Some(t) && (requested
            is None || requested == Some("platform"@))) || (final_output == Some(t) && requested
            is None),
        begins_with(
            listed_tools(prefixed, frontend, requested, schedule, final_output),
            prefixed + frontend,
        ),
{
    let base = prefixed + frontend;
    let all = listed_tools(prefixed, frontend, requested, schedule, final_output);
    let with_schedule = requested is None || requested == Some("platform"@);
    assert(all.take(base.len() as int) =~= base);
    if prefixed.contains(t) {
        let i = choose|i: int| 0 <= i < prefixed.len() && prefixed[i] == t;
        assert(all[i] == t);
    }
    if frontend.contains(t) {
        let i = choose|i: int| 0 <= i < frontend.len() && frontend[i] == t;
        assert(all[prefixed.len() + i] == t);
    }
    if schedule == Some(t) && with_schedule {
        assert(all[base.len() as int] == t);
    }
    if final_output == Some(t) && requested is None {
        assert(all[all.len() - 1] == t);
    }
    if all.contains(t) {
        let i = choose|i: int| 0 <= i < all.len() && all[i] == t;
        if i < prefixed.len() {
            assert(prefixed[i] == t);
        } else if i < base.len() {
            assert(frontend[i - prefixed.len()] == t);
        }
    }
}

/// Whether some tools stand at the start of others.
pub open spec fn begins_with(all: Seq<ToolModel>, head: Seq<ToolModel>) -> bool {
    all.len() >= head.len() && all.take(head.len() as int) == head
}

/// Of the extensions, exactly the tools of the one that was asked for are given, or those of all.
pub proof fn law_requested_frontend_tools(
    v: Seq<FrontendModel>,
    order: Seq<usize>,
    requested: Option<Seq<char>>,
    i: int,
    k: int,
)
    requires
        0 <= i < order.len(),
        forall|j: int| 0 <= j < order.len() ==> #[trigger] order[j] < v.len(),
        0 <= k < v[order[i] as int].tools.len(),
        requested is None || requested == Some(v[order[i] as int].key),
    ensures
        requested_tools(v, order, requested).contains(v[order[i] as int].tools[k]),
    decreases order.len(),
{
    let head = requested_tools(v, order.drop_last(), requested);
    let all = requested_tools(v, order, requested);
    let t = v[order[i] as int].tools[k];
    if i < order.len() - 1 {
        assert(order.drop_last()[i] == order[i]);
        assert forall|j: int| 0 <= j < order.drop_last().len() implies #[trigger] order.drop_last()[j]
            < v.len() by {
            assert(order.drop_last()[j] == order[j]);
        }
        law_requested_frontend_tools(v, order.drop_last(), requested, i, k);
        let p = choose|p: int| 0 <= p < head.len() && head[p] == t;
        assert(all[p] == t);
    } else {
        assert(order.last() == order[i]);
        assert(all[head.len() + k] == t);
    }
}

/// Of the extensions none is given but the one that was asked for.
pub proof fn law_other_frontend_tools_are_left_out(
    v: Seq<FrontendModel>,
    order: Seq<usize>,
    key: Seq<char>,
    p: int,
)
    requires
        0 <= p < requested_tools(v, order, Some(key)).len(),
    ensures
        exists|i: int|
            0 <= i < order.len() && v[#[trigger] order[i] as int].key == key
                && v[order[i] as int].tools.contains(requested_tools(v, order, Some(key))[p]),
    decreases order.len(),
{
    let head = requested_tools(v, order.drop_last(), Some(key));
    if p < head.len() {
        law_other_frontend_tools_are_left_out(v, order.drop_last(), key, p);
        let i = choose|i: int|
            0 <= i < order.drop_last().len() && v[#[trigger] order.drop_last()[i] as int].key == key
                && v[order.drop_last()[i] as int].tools.contains(head[p]);
        assert(order[i] == order.drop_last()[i]);
    } else {
        let e = v[order.last() as int];
        assert(e.tools[p - head.len()] == requested_tools(v, order, Some(key))[p]);
        assert(order[order.len() - 1] == order.last());
    }
}

/// A prompt is found at the first extension that has it, and nowhere only where none has.
pub proof fn law_prompts_are_found_where_they_are(all: Seq<ExtensionPrompts>, name: Seq<char>)
    ensures
        prompt_owner(all, name) matches Some(owner) ==> exists|i: int|
            {
                &&& 0 <= i < all.len()
                &&& (#[trigger] all[i]).extension@ == owner
                &&& texts(all[i].prompts@).contains(name)
                &&& forall|j: int| 0 <= j < i ==> !texts((#[trigger] all[j]).prompts@).contains(name)
            },
        prompt_owner(all, name) is None ==> forall|i: int|
            0 <= i < all.len() ==> !texts((#[trigger] all[i]).prompts@).contains(name),
    decreases all.len(),
{
    if all.len() > 0 && !texts(all[0].prompts@).contains(name) {
        law_prompts_are_found_where_they_are(all.skip(1), name);
        if prompt_owner(all, name) is Some {
            let i = choose|i: int|
                {
                    &&& 0 <= i < all.skip(1).len()
                    &&& (#[trigger] all.skip(1)[i]).extension@ == prompt_owner(all, name)->0
                    &&& texts(all.skip(1)[i].prompts@).contains(name)
                    &&& forall|j: int|
                        0 <= j < i ==> !texts((#[trigger] all.skip(1)[j]).prompts@).contains(name)
                };
            assert(all[i + 1] == all.skip(1)[i]);
            assert forall|j: int| 0 <= j < i + 1 implies !texts(
                (#[trigger] all[j]).prompts@,
            ).contains(name) by {
                if j > 0 {
                    assert(all.skip(1)[j - 1] == all[j]);
                }
            }
        } else {
            assert forall|i: int| 0 <= i < all.len() implies !texts(
                (#[trigger] all[i]).prompts@,
            ).contains(name) by {
                if i > 0 {
                    assert(all.skip(1)[i - 1] == all[i]);
                }
            }
        }
    }
}

/// The model is told of each extension of the frontend, in its own words where it has some, and by
/// name where there are several; nothing is told where there is none.
pub proof fn law_the_model_is_told_of_frontends(v: Seq<FrontendModel>, i: int)
    ensures
        v.len() == 0 <==> frontend_notes(v) is None,
        0 <= i < v.len() ==> {
            &&& v[i].instructions matches Some(t) ==> has_text(frontend_notes(v)->0, t)
            &&& v.len() > 1 ==> has_text(frontend_notes(v)->0, v[i].name)
        },
        v.len() == 1 ==> (v[0].instructions matches Some(t) ==> frontend_notes(v) == Some(t)),
{
    if 0 <= i < v.len() {
        let parts = Seq::new(v.len(), |k: int| frontend_note(v[k], v.len() > 1));
        let all = joined(parts, "\n\n"@);
        lemma_joined_holds(parts, "\n\n"@, i);
        let p = choose|p: int| #[trigger] occurs_at(all, parts[i], p);
        let before = all.take(p);
        let after = all.skip(p + parts[i].len());
        assert(all =~= before + parts[i] + after);
        let text = match v[i].instructions {
            Some(t) => t,
            None =>
                "The following tools are provided directly by the frontend and will be executed by the frontend when called."@,
        };
        if v.len() > 1 {
            lemma_has_text(Seq::empty(), v[i].name, ": "@ + text);
            assert(v[i].name + (": "@ + text) =~= parts[i]);
            lemma_has_text(v[i].name + ": "@, text, Seq::empty());
            lemma_in_longer(before, parts[i], after, v[i].name);
        } else {
            lemma_has_text(Seq::empty(), text, Seq::empty());
            assert(Seq::<char>::empty() + text =~= parts[i]);
        }
        lemma_in_longer(before, parts[i], after, text);
    }
    if v.len() == 1 {
        let parts = Seq::new(v.len(), |k: int| frontend_note(v[k], v.len() > 1));
        assert(joined(parts, "\n\n"@) == parts[0]);
    }
}

/// Every confirmation is heard by someone: by the agent's router, unless the provider asks for
/// permissions and took it.
pub proof fn law_every_confirmation_is_heard(
    provider: Option<PermissionRouting>,
    taken_by_provider: bool,
)
    ensures
        !taken_by_provider ==> routed_here(provider, taken_by_provider),
        provider != Some(PermissionRouting::ActionRequired) ==> routed_here(
            provider,
            taken_by_provider,
        ),
        provider == Some(PermissionRouting::ActionRequired) && taken_by_provider ==> !routed_here(
            provider,
            taken_by_provider,
        ),
{
}

/// A session is restored with its own provider, with the configured one where it has none, and not
/// at all where there is neither.
pub proof fn law_sessions_keep_their_provider(
    session: Option<Seq<char>>,
    configured: Option<Seq<char>>,
)
    ensures
        session is Some ==> provider_restored(session, configured) == session,
        session is None ==> provider_restored(session, configured) == configured,
        provider_restored(session, configured) is None <==> session is None && configured is None,
{
}

/// A provider that is there stays; one that is not is replaced by the configured one, with the
/// configured model, and never by itself.
pub proof fn law_missing_providers_are_replaced(
    name: Seq<char>,
    registered: bool,
    configured_provider: Option<String>,
    configured_model: Option<String>,
    r: Result<ProviderPlan, String>,
)
    requires
        provider_planned(name, registered, configured_provider, configured_model, r),
    ensures
        r matches Ok(ProviderPlan::Own) <==> registered,
        r matches Ok(ProviderPlan::Fallback { provider, model }) ==> !registered && provider@ != name
            && configured_provider == Some(provider) && configured_model == Some(model),
        !registered && configured_model is Some ==> (configured_provider matches Some(p) ==> (p@
            != name ==> r is Ok)),
        !registered && configured_provider is None ==> r is Err,
        !registered ==> (configured_provider matches Some(p) ==> (p@ == name ==> r is Err)),
{
}

} // verus!
