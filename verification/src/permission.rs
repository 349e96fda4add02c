//! Which tool calls may run, which have to be approved, and which may not run.

use crate::conversation::{requests, RequestModel, ToolRequest};
use crate::text::{contains_string, str_eq, text_opt, texts};
use crate::tools::{tool_models, Tool, ToolModel};
use vstd::prelude::*;
use vstd::string::*;

verus! {

/// How much the user lets the agent do.
#[derive(Clone, Copy, PartialEq, Eq, Structural, Debug)]
pub enum GooseMode {
    /// Every tool runs.
    Auto,
    /// Tools run after the user approved them.
    Approve,
    /// Tools that only read run, others after the user approved them.
    SmartApprove,
    /// No tool runs.
    Chat,
}

/// What is settled of a tool.
#[derive(Clone, Copy, PartialEq, Eq, Structural, Debug)]
pub enum PermissionLevel {
    AlwaysAllow,
    AskBefore,
    NeverAllow,
}

/// What is to be done with a call.
#[derive(Debug, PartialEq, Eq)]
pub enum InspectionAction {
    Allow,
    Deny,
    /// Ask the user, with this text where there is one.
    RequireApproval(Option<String>),
}

#[verifier::ext_equal]
pub enum ActionModel {
    Allow,
    Deny,
    RequireApproval(Option<Seq<char>>),
}

impl InspectionAction {
    pub open spec fn view(&self) -> ActionModel {
        match self {
            InspectionAction::Allow => ActionModel::Allow,
            InspectionAction::Deny => ActionModel::Deny,
            InspectionAction::RequireApproval(t) => ActionModel::RequireApproval(text_opt(*t)),
        }
    }

    pub fn copy(&self) -> (r: InspectionAction)
        ensures
            r@ == self@,
    {
        match self {
            InspectionAction::Allow => InspectionAction::Allow,
            InspectionAction::Deny => InspectionAction::Deny,
            InspectionAction::RequireApproval(t) => InspectionAction::RequireApproval(
                crate::conversation::copy_text(t),
            ),
        }
    }
}

/// What an inspector decided of a call.
#[derive(Debug, PartialEq, Eq)]
pub struct InspectionResult {
    pub tool_request_id: String,
    pub action: InspectionAction,
    pub reason: String,
    pub inspector_name: String,
    pub finding_id: Option<String>,
}

#[verifier::ext_equal]
pub struct InspectionModel {
    pub tool_request_id: Seq<char>,
    pub action: ActionModel,
    pub reason: Seq<char>,
    pub inspector_name: Seq<char>,
    pub finding_id: Option<Seq<char>>,
}

impl InspectionResult {
    pub open spec fn view(&self) -> InspectionModel {
        InspectionModel {
            tool_request_id: self.tool_request_id@,
            action: self.action@,
            reason: self.reason@,
            inspector_name: self.inspector_name@,
            finding_id: text_opt(self.finding_id),
        }
    }

    pub fn copy(&self) -> (r: InspectionResult)
        ensures
            r@ == self@,
    {
        InspectionResult {
            tool_request_id: self.tool_request_id.clone(),
            action: self.action.copy(),
            reason: self.reason.clone(),
            inspector_name: self.inspector_name.clone(),
            finding_id: crate::conversation::copy_text(&self.finding_id),
        }
    }
}

pub open spec fn inspections(v: Seq<InspectionResult>) -> Seq<InspectionModel> {
    Seq::new(v.len(), |i: int| v[i]@)
}

/// What this inspector decided of a call.
pub open spec fn decision(id: Seq<char>, action: ActionModel, reason: Seq<char>) -> InspectionModel {
    InspectionModel {
        tool_request_id: id,
        action,
        reason,
        inspector_name: "permission"@,
        finding_id: None,
    }
}

fn decide_with(id: &str, action: InspectionAction, reason: &str) -> (r: InspectionResult)
    ensures
        r@ == decision(id@, action@, reason@),
{
    InspectionResult {
        tool_request_id: id.to_owned(),
        action,
        reason: reason.to_owned(),
        inspector_name: "permission".to_owned(),
        finding_id: None,
    }
}

// ---------------------------------------------------------------------------
// What is settled already
// ---------------------------------------------------------------------------

/// What the user settled of some tools, and what was found out of others.
#[derive(Debug, PartialEq, Eq)]
pub struct Permissions {
    pub user: Vec<(String, PermissionLevel)>,
    pub smart_approve: Vec<(String, PermissionLevel)>,
}

pub open spec fn level_models(v: Seq<(String, PermissionLevel)>) -> Seq<
    (Seq<char>, PermissionLevel),
> {
    Seq::new(v.len(), |i: int| (v[i].0@, v[i].1))
}

/// What is settled of the tool with the name.
pub open spec fn level_of(v: Seq<(Seq<char>, PermissionLevel)>, name: Seq<char>) -> Option<
    PermissionLevel,
>
    decreases v.len(),
{
    if v.len() == 0 {
        None
    } else if v[0].0 == name {
        Some(v[0].1)
    } else {
        level_of(v.skip(1), name)
    }
}

/// What is settled of the tool with the name.
pub fn level_for(v: &Vec<(String, PermissionLevel)>, name: &str) -> (r: Option<PermissionLevel>)
    ensures
        r == level_of(level_models(v@), name@),
{
    let ghost all = level_models(v@);
    let mut i: usize = 0;
    assert(all.skip(0) =~= all);
    while i < v.len()
        invariant
            all == level_models(v@),
            i <= v@.len(),
            level_of(all, name@) == level_of(all.skip(i as int), name@),
        decreases v@.len() - i,
    {
        assert(all.skip(i as int)[0] == (v@[i as int].0@, v@[i as int].1));
        assert(all.skip(i as int).skip(1) =~= all.skip(i + 1));
        if str_eq(v[i].0.as_str(), name) {
            return Some(v[i].1);
        }
        i = i + 1;
    }
    None
}

// ---------------------------------------------------------------------------
// Deciding
// ---------------------------------------------------------------------------

/// What is known of a tool before a call of it is decided.
#[derive(Clone, Copy, PartialEq, Eq, Structural, Debug)]
pub struct Standing {
    pub user: Option<PermissionLevel>,
    pub smart_approve: Option<PermissionLevel>,
    /// Whether the tool says of itself that it only reads.
    pub read_only: bool,
    /// Whether it is the tool that manages extensions.
    pub manages_extensions: bool,
}

/// What is decided of a call at once: an action with its reason, or nothing.
pub enum Verdict {
    /// The call is none of this inspector's business.
    Ignore,
    /// The model has to be asked whether the tool only reads.
    AskModel,
    Decided(ActionModel, Seq<char>),
}

pub open spec fn ask(s: Standing, text: Option<Seq<char>>) -> Verdict {
    Verdict::Decided(
        ActionModel::RequireApproval(text),
        if s.manages_extensions {
            "Extension management requires user approval"@
        } else {
            "Tool requires user approval"@
        },
    )
}

/// Why a call is allowed.
pub open spec fn allowed_reason(mode: GooseMode, s: Standing) -> Seq<char> {
    if mode == GooseMode::Auto {
        "Auto mode - all tools approved"@
    } else if s.read_only {
        "Tool annotated as read-only"@
    } else if mode == GooseMode::SmartApprove {
        "SmartApprove cached as read-only"@
    } else {
        "User permission allows this tool"@
    }
}

/// What is decided of a call. What the user settled comes first, then what is known to only read,
/// then that extensions are managed by the user's leave; what is left is asked of the model in
/// smart mode, where it was not before, and of the user otherwise.
pub open spec fn verdict(mode: GooseMode, s: Standing) -> Verdict {
    match mode {
        GooseMode::Chat => Verdict::Ignore,
        GooseMode::Auto => Verdict::Decided(ActionModel::Allow, allowed_reason(mode, s)),
        _ => match s.user {
            Some(PermissionLevel::AlwaysAllow) => Verdict::Decided(
                ActionModel::Allow,
                allowed_reason(mode, s),
            ),
            Some(PermissionLevel::NeverAllow) => Verdict::Decided(
                ActionModel::Deny,
                "User permission denies this tool"@,
            ),
            Some(PermissionLevel::AskBefore) => ask(s, None),
            None => if s.read_only || (mode == GooseMode::SmartApprove && s.smart_approve == Some(
                PermissionLevel::AlwaysAllow,
            )) {
                Verdict::Decided(ActionModel::Allow, allowed_reason(mode, s))
            } else if s.manages_extensions {
                ask(s, Some("Extension management requires approval for security"@))
            } else if mode == GooseMode::SmartApprove && s.smart_approve is None {
                Verdict::AskModel
            } else {
                ask(s, None)
            },
        },
    }
}

/// What is decided of a call at once.
#[derive(Debug, PartialEq, Eq)]
pub enum Decision {
    Ignore,
    AskModel,
    Decided(InspectionAction, &'static str),
}

impl Decision {
    pub open spec fn view(&self) -> Verdict {
        match self {
            Decision::Ignore => Verdict::Ignore,
            Decision::AskModel => Verdict::AskModel,
            Decision::Decided(a, r) => Verdict::Decided(a@, r@),
        }
    }
}

fn allow_because(mode: GooseMode, s: Standing) -> (r: Decision)
    ensures
        r@ == Verdict::Decided(ActionModel::Allow, allowed_reason(mode, s)),
{
    let reason = if mode == GooseMode::Auto {
        "Auto mode - all tools approved"
    } else if s.read_only {
        "Tool annotated as read-only"
    } else if mode == GooseMode::SmartApprove {
        "SmartApprove cached as read-only"
    } else {
        "User permission allows this tool"
    };
    Decision::Decided(InspectionAction::Allow, reason)
}

fn ask_because(s: Standing, text: Option<String>) -> (r: Decision)
    ensures
        r@ == ask(s, text_opt(text)),
{
    let reason = if s.manages_extensions {
        "Extension management requires user approval"
    } else {
        "Tool requires user approval"
    };
    Decision::Decided(InspectionAction::RequireApproval(text), reason)
}

/// What is decided of a call at once.
pub fn decide_call(mode: GooseMode, s: Standing) -> (r: Decision)
    ensures
        r@ == verdict(mode, s),
{
    match mode {
        GooseMode::Chat => {
            return Decision::Ignore;
        },
        GooseMode::Auto => {
            return allow_because(mode, s);
        },
        _ => {},
    }
    match s.user {
        Some(PermissionLevel::AlwaysAllow) => allow_because(mode, s),
        Some(PermissionLevel::NeverAllow) => Decision::Decided(
            InspectionAction::Deny,
            "User permission denies this tool",
        ),
        Some(PermissionLevel::AskBefore) => ask_because(s, None),
        None => {
            let known = match s.smart_approve {
                Some(PermissionLevel::AlwaysAllow) => true,
                _ => false,
            };
            if s.read_only || (mode == GooseMode::SmartApprove && known) {
                allow_because(mode, s)
            } else if s.manages_extensions {
                ask_because(
                    s,
                    Some("Extension management requires approval for security".to_owned()),
                )
            } else if mode == GooseMode::SmartApprove && s.smart_approve.is_none() {
                Decision::AskModel
            } else {
                ask_because(s, None)
            }
        },
    }
}

// ---------------------------------------------------------------------------
// The inspector
// ---------------------------------------------------------------------------

/// What an inspection came to: what was decided, and the calls of which the model has to say
/// whether they only read.
#[derive(Debug, PartialEq, Eq)]
pub struct Inspection {
    pub results: Vec<InspectionResult>,
    pub candidates: Vec<ToolRequest>,
}

/// The names of the tools that say of themselves that they only read.
pub open spec fn read_only_names(ts: Seq<ToolModel>) -> Seq<Seq<char>>
    decreases ts.len(),
{
    if ts.len() == 0 {
        Seq::empty()
    } else {
        let head = read_only_names(ts.drop_last());
        match ts.last().annotations {
            Some(a) => if a.hints.read_only == Some(true) {
                head.push(ts.last().name)
            } else {
                head
            },
            None => head,
        }
    }
}

/// What is known of a tool.
pub open spec fn standing_of(
    name: Seq<char>,
    read_only: Seq<Seq<char>>,
    user: Seq<(Seq<char>, PermissionLevel)>,
    smart: Seq<(Seq<char>, PermissionLevel)>,
    manage_extensions: Seq<char>,
) -> Standing {
    Standing {
        user: level_of(user, name),
        smart_approve: level_of(smart, name),
        read_only: read_only.contains(name),
        manages_extensions: name == manage_extensions,
    }
}

/// Decides the calls one after the other. A request that holds no call is passed over.
pub open spec fn decisions(
    rs: Seq<RequestModel>,
    mode: GooseMode,
    read_only: Seq<Seq<char>>,
    user: Seq<(Seq<char>, PermissionLevel)>,
    smart: Seq<(Seq<char>, PermissionLevel)>,
    manage_extensions: Seq<char>,
) -> Seq<InspectionModel>
    decreases rs.len(),
{
    if rs.len() == 0 {
        Seq::empty()
    } else {
        let head = decisions(rs.drop_last(), mode, read_only, user, smart, manage_extensions);
        match rs.last().tool_call {
            Ok(c) => match verdict(
                mode,
                standing_of(c.name, read_only, user, smart, manage_extensions),
            ) {
                Verdict::Decided(a, reason) => head.push(decision(rs.last().id, a, reason)),
                _ => head,
            },
            Err(_) => head,
        }
    }
}

/// The calls of which the model has to say whether they only read.
pub open spec fn undecided(
    rs: Seq<RequestModel>,
    mode: GooseMode,
    read_only: Seq<Seq<char>>,
    user: Seq<(Seq<char>, PermissionLevel)>,
    smart: Seq<(Seq<char>, PermissionLevel)>,
    manage_extensions: Seq<char>,
) -> Seq<RequestModel>
    decreases rs.len(),
{
    if rs.len() == 0 {
        Seq::empty()
    } else {
        let head = undecided(rs.drop_last(), mode, read_only, user, smart, manage_extensions);
        match rs.last().tool_call {
            Ok(c) => if verdict(
                mode,
                standing_of(c.name, read_only, user, smart, manage_extensions),
            ) is AskModel {
                head.push(rs.last())
            } else {
                head
            },
            Err(_) => head,
        }
    }
}

/// Decides which tool calls may run.
#[derive(Debug, PartialEq, Eq)]
pub struct PermissionInspector {
    /// The tools that say of themselves that they only read.
    pub readonly_tools: Vec<String>,
}

impl PermissionInspector {
    pub fn new() -> (r: PermissionInspector)
        ensures
            r.readonly_tools@ == Seq::<String>::empty(),
    {
        PermissionInspector { readonly_tools: Vec::new() }
    }

    /// Learns which tools say of themselves that they only read.
    pub fn apply_tool_annotations(&mut self, tools: &Vec<Tool>)
        ensures
            texts(final(self).readonly_tools@) == read_only_names(tool_models(tools@)),
    {
        let ghost all = tool_models(tools@);
        let mut out: Vec<String> = Vec::new();
        let mut i: usize = 0;
        assert(texts(out@) =~= read_only_names(all.take(0)));
        while i < tools.len()
            invariant
                all == tool_models(tools@),
                i <= tools@.len(),
                texts(out@) == read_only_names(all.take(i as int)),
            decreases tools@.len() - i,
        {
            assert(all.take(i + 1).drop_last() =~= all.take(i as int));
            assert(all.take(i + 1).last() == tools@[i as int]@);
            if let Some(a) = &tools[i].annotations {
                if let Some(true) = a.hints.read_only {
                    let ghost before = texts(out@);
                    out.push(tools[i].name.clone());
                    assert(texts(out@) =~= before.push(tools@[i as int].name@));
                }
            }
            i = i + 1;
        }
        assert(all.take(i as int) =~= all);
        self.readonly_tools = out;
    }

    /// Whether the tool says of itself that it only reads.
    pub fn is_readonly_annotated_tool(&self, tool_name: &str) -> (r: bool)
        ensures
            r == texts(self.readonly_tools@).contains(tool_name@),
    {
        contains_string(&self.readonly_tools, tool_name)
    }

    fn standing(&self, name: &str, permissions: &Permissions, manage_extensions: &str) -> (r:
        Standing)
        ensures
            r == standing_of(
                name@,
                texts(self.readonly_tools@),
                level_models(permissions.user@),
                level_models(permissions.smart_approve@),
                manage_extensions@,
            ),
    {
        Standing {
            user: level_for(&permissions.user, name),
            smart_approve: level_for(&permissions.smart_approve, name),
            read_only: self.is_readonly_annotated_tool(name),
            manages_extensions: str_eq(name, manage_extensions),
        }
    }

    /// Decides the calls, as far as that can be done without asking the model.
    /// `manage_extensions` is the name of the tool that manages extensions.
    pub fn inspect(
        &self,
        tool_requests: &Vec<ToolRequest>,
        mode: GooseMode,
        permissions: &Permissions,
        manage_extensions: &str,
    ) -> (r: Inspection)
        ensures
            inspections(r.results@) == decisions(
                requests(tool_requests@),
                mode,
                texts(self.readonly_tools@),
                level_models(permissions.user@),
                level_models(permissions.smart_approve@),
                manage_extensions@,
            ),
            requests(r.candidates@) == undecided(
                requests(tool_requests@),
                mode,
                texts(self.readonly_tools@),
                level_models(permissions.user@),
                level_models(permissions.smart_approve@),
                manage_extensions@,
            ),
    {
        let ghost all = requests(tool_requests@);
        let ghost ro = texts(self.readonly_tools@);
        let ghost um = level_models(permissions.user@);
        let ghost sm = level_models(permissions.smart_approve@);
        let mut results: Vec<InspectionResult> = Vec::new();
        let mut candidates: Vec<ToolRequest> = Vec::new();
        let mut i: usize = 0;
        assert(inspections(results@) =~= decisions(
            all.take(0),
            mode,
            ro,
            um,
            sm,
            manage_extensions@,
        ));
        assert(requests(candidates@) =~= undecided(
            all.take(0),
            mode,
            ro,
            um,
            sm,
            manage_extensions@,
        ));
        while i < tool_requests.len()
            invariant
                all == requests(tool_requests@),
                ro == texts(self.readonly_tools@),
                um == level_models(permissions.user@),
                sm == level_models(permissions.smart_approve@),
                i <= tool_requests@.len(),
                inspections(results@) == decisions(
                    all.take(i as int),
                    mode,
                    ro,
                    um,
                    sm,
                    manage_extensions@,
                ),
                requests(candidates@) == undecided(
                    all.take(i as int),
                    mode,
                    ro,
                    um,
                    sm,
                    manage_extensions@,
                ),
            decreases tool_requests@.len() - i,
        {
            assert(all.take(i + 1).drop_last() =~= all.take(i as int));
            assert(all.take(i + 1).last() == tool_requests@[i as int]@);
            if let Ok(c) = &tool_requests[i].tool_call {
                let s = self.standing(c.name.as_str(), permissions, manage_extensions);
                match decide_call(mode, s) {
                    Decision::Ignore => {},
                    Decision::AskModel => {
                        let ghost before = requests(candidates@);
                        let q = tool_requests[i].copy();
                        candidates.push(q);
                        assert(requests(candidates@) =~= before.push(q@));
                    },
                    Decision::Decided(action, reason) => {
                        let ghost before = inspections(results@);
                        let d = decide_with(tool_requests[i].id.as_str(), action, reason);
                        results.push(d);
                        assert(inspections(results@) =~= before.push(d@));
                    },
                }
            }
            i = i + 1;
        }
        assert(all.take(i as int) =~= all);
        Inspection { results, candidates }
    }
}

// ---------------------------------------------------------------------------
// What the model found
// ---------------------------------------------------------------------------

/// Whether the model found that a call only reads.
pub open spec fn found_read_only(q: RequestModel, detected: Seq<Seq<char>>) -> bool {
    match q.tool_call {
        Ok(c) => detected.contains(c.name),
        Err(_) => false,
    }
}

/// What is decided of a call by what the model found.
pub open spec fn judged(q: RequestModel, detected: Seq<Seq<char>>) -> InspectionModel {
    if found_read_only(q, detected) {
        decision(q.id, ActionModel::Allow, "LLM detected as read-only"@)
    } else {
        decision(q.id, ActionModel::RequireApproval(None), "Tool requires user approval"@)
    }
}

/// What is kept of what the model found, so that it need not be asked again.
pub open spec fn learned(qs: Seq<RequestModel>, detected: Seq<Seq<char>>) -> Seq<
    (Seq<char>, PermissionLevel),
>
    decreases qs.len(),
{
    if qs.len() == 0 {
        Seq::empty()
    } else {
        let head = learned(qs.drop_last(), detected);
        match qs.last().tool_call {
            Ok(c) => head.push(
                (
                    c.name,
                    if found_read_only(qs.last(), detected) {
                        PermissionLevel::AlwaysAllow
                    } else {
                        PermissionLevel::AskBefore
                    },
                ),
            ),
            Err(_) => head,
        }
    }
}

/// What the model found: what is decided by it, and what is kept of it.
#[derive(Debug, PartialEq, Eq)]
pub struct Judgement {
    pub results: Vec<InspectionResult>,
    pub learned: Vec<(String, PermissionLevel)>,
}

/// Decides the calls that were left, by the names of the tools that the model found to only read.
pub fn judge_candidates(candidates: &Vec<ToolRequest>, detected: &Vec<String>) -> (r: Judgement)
    ensures
        inspections(r.results@) == Seq::new(
            candidates@.len(),
            |i: int| judged(candidates@[i]@, texts(detected@)),
        ),
        level_models(r.learned@) == learned(requests(candidates@), texts(detected@)),
{
    let ghost all = requests(candidates@);
    let ghost dm = texts(detected@);
    let mut results: Vec<InspectionResult> = Vec::new();
    let mut kept: Vec<(String, PermissionLevel)> = Vec::new();
    let mut i: usize = 0;
    assert(level_models(kept@) =~= learned(all.take(0), dm));
    while i < candidates.len()
        invariant
            all == requests(candidates@),
            dm == texts(detected@),
            i <= candidates@.len(),
            results@.len() == i,
            forall|j: int|
                0 <= j < i ==> (#[trigger] results@[j])@ == judged(candidates@[j]@, dm),
            level_models(kept@) == learned(all.take(i as int), dm),
        decreases candidates@.len() - i,
    {
        assert(all.take(i + 1).drop_last() =~= all.take(i as int));
        assert(all.take(i + 1).last() == candidates@[i as int]@);
        let mut read_only = false;
        if let Ok(c) = &candidates[i].tool_call {
            read_only = contains_string(detected, c.name.as_str());
            let level = if read_only {
                PermissionLevel::AlwaysAllow
            } else {
                PermissionLevel::AskBefore
            };
            let ghost before = level_models(kept@);
            kept.push((c.name.clone(), level));
            assert(level_models(kept@) =~= before.push((c.name@, level)));
        }
        let d = if read_only {
            decide_with(
                candidates[i].id.as_str(),
                InspectionAction::Allow,
                "LLM detected as read-only",
            )
        } else {
            decide_with(
                candidates[i].id.as_str(),
                InspectionAction::RequireApproval(None),
                "Tool requires user approval",
            )
        };
        results.push(d);
        i = i + 1;
    }
    assert(all.take(i as int) =~= all);
    assert(inspections(results@) =~= Seq::new(
        candidates@.len(),
        |i: int| judged(candidates@[i]@, texts(detected@)),
    ));
    Judgement { results, learned: kept }
}

// ---------------------------------------------------------------------------
// Sorting the requests
// ---------------------------------------------------------------------------

/// Which requests may run, which have to be approved, and which may not run.
#[derive(Debug, PartialEq, Eq)]
pub struct PermissionCheckResult {
    pub approved: Vec<ToolRequest>,
    pub needs_approval: Vec<ToolRequest>,
    pub denied: Vec<ToolRequest>,
}

/// Where a request goes.
#[derive(Clone, Copy, PartialEq, Eq, Structural, Debug)]
pub enum Bucket {
    Approved,
    NeedsApproval,
    Denied,
}

/// Where a request goes by what this inspector decided of it first. One that it did not decide
/// has to be approved.
pub open spec fn bucket_of(id: Seq<char>, results: Seq<InspectionModel>) -> Bucket
    decreases results.len(),
{
    if results.len() == 0 {
        Bucket::NeedsApproval
    } else if results[0].inspector_name == "permission"@ && results[0].tool_request_id == id {
        match results[0].action {
            ActionModel::Allow => Bucket::Approved,
            ActionModel::Deny => Bucket::Denied,
            ActionModel::RequireApproval(_) => Bucket::NeedsApproval,
        }
    } else {
        bucket_of(id, results.skip(1))
    }
}

/// The requests that go to one place, in their order.
pub open spec fn in_bucket(
    qs: Seq<RequestModel>,
    results: Seq<InspectionModel>,
    bucket: Bucket,
) -> Seq<RequestModel>
    decreases qs.len(),
{
    if qs.len() == 0 {
        Seq::empty()
    } else {
        let head = in_bucket(qs.drop_last(), results, bucket);
        if bucket_of(qs.last().id, results) == bucket {
            head.push(qs.last())
        } else {
            head
        }
    }
}

/// Whether the requests are sorted by what this inspector decided.
pub open spec fn sorted_out(
    qs: Seq<RequestModel>,
    results: Seq<InspectionModel>,
    approved: Seq<RequestModel>,
    needs_approval: Seq<RequestModel>,
    denied: Seq<RequestModel>,
) -> bool {
    &&& approved == in_bucket(qs, results, Bucket::Approved)
    &&& needs_approval == in_bucket(qs, results, Bucket::NeedsApproval)
    &&& denied == in_bucket(qs, results, Bucket::Denied)
}

/// What other inspectors decided.
pub open spec fn of_others(results: Seq<InspectionModel>) -> Seq<InspectionModel>
    decreases results.len(),
{
    if results.len() == 0 {
        Seq::empty()
    } else {
        let head = of_others(results.drop_last());
        if results.last().inspector_name != "permission"@ {
            head.push(results.last())
        } else {
            head
        }
    }
}

fn find_bucket(id: &str, results: &Vec<InspectionResult>) -> (r: Bucket)
    ensures
        r == bucket_of(id@, inspections(results@)),
{
    let ghost all = inspections(results@);
    let mut i: usize = 0;
    assert(all.skip(0) =~= all);
    while i < results.len()
        invariant
            all == inspections(results@),
            i <= results@.len(),
            bucket_of(id@, all) == bucket_of(id@, all.skip(i as int)),
        decreases results@.len() - i,
    {
        assert(all.skip(i as int)[0] == results@[i as int]@);
        assert(all.skip(i as int).skip(1) =~= all.skip(i + 1));
        if str_eq(results[i].inspector_name.as_str(), "permission") && str_eq(
            results[i].tool_request_id.as_str(),
            id,
        ) {
            return match &results[i].action {
                InspectionAction::Allow => Bucket::Approved,
                InspectionAction::Deny => Bucket::Denied,
                InspectionAction::RequireApproval(_) => Bucket::NeedsApproval,
            };
        }
        i = i + 1;
    }
    Bucket::NeedsApproval
}

impl PermissionInspector {
    /// Sorts the requests by what this inspector decided. Also returns what other inspectors
    /// decided, which may still override it.
    pub fn process_inspection_results(
        &self,
        remaining_requests: &Vec<ToolRequest>,
        inspection_results: &Vec<InspectionResult>,
    ) -> (r: (PermissionCheckResult, Vec<InspectionResult>))
        ensures
            sorted_out(
                requests(remaining_requests@),
                inspections(inspection_results@),
                requests(r.0.approved@),
                requests(r.0.needs_approval@),
                requests(r.0.denied@),
            ),
            inspections(r.1@) == of_others(inspections(inspection_results@)),
    {
        let ghost all = requests(remaining_requests@);
        let ghost rm = inspections(inspection_results@);
        let mut approved: Vec<ToolRequest> = Vec::new();
        let mut needs_approval: Vec<ToolRequest> = Vec::new();
        let mut denied: Vec<ToolRequest> = Vec::new();
        let mut i: usize = 0;
        assert(requests(approved@) =~= in_bucket(all.take(0), rm, Bucket::Approved));
        assert(requests(needs_approval@) =~= in_bucket(all.take(0), rm, Bucket::NeedsApproval));
        assert(requests(denied@) =~= in_bucket(all.take(0), rm, Bucket::Denied));
        while i < remaining_requests.len()
            invariant
                all == requests(remaining_requests@),
                rm == inspections(inspection_results@),
                i <= remaining_requests@.len(),
                requests(approved@) == in_bucket(all.take(i as int), rm, Bucket::Approved),
                requests(needs_approval@) == in_bucket(
                    all.take(i as int),
                    rm,
                    Bucket::NeedsApproval,
                ),
                requests(denied@) == in_bucket(all.take(i as int), rm, Bucket::Denied),
            decreases remaining_requests@.len() - i,
        {
            assert(all.take(i + 1).drop_last() =~= all.take(i as int));
            assert(all.take(i + 1).last() == remaining_requests@[i as int]@);
            let q = remaining_requests[i].copy();
            match find_bucket(remaining_requests[i].id.as_str(), inspection_results) {
                Bucket::Approved => {
                    let ghost before = requests(approved@);
                    approved.push(q);
                    assert(requests(approved@) =~= before.push(q@));
                },
                Bucket::NeedsApproval => {
                    let ghost before = requests(needs_approval@);
                    needs_approval.push(q);
                    assert(requests(needs_approval@) =~= before.push(q@));
                },
                Bucket::Denied => {
                    let ghost before = requests(denied@);
                    denied.push(q);
                    assert(requests(denied@) =~= before.push(q@));
                },
            }
            i = i + 1;
        }
        assert(all.take(i as int) =~= all);
        let mut others: Vec<InspectionResult> = Vec::new();
        let mut k: usize = 0;
        assert(inspections(others@) =~= of_others(rm.take(0)));
        while k < inspection_results.len()
            invariant
                rm == inspections(inspection_results@),
                k <= inspection_results@.len(),
                inspections(others@) == of_others(rm.take(k as int)),
            decreases inspection_results@.len() - k,
        {
            assert(rm.take(k + 1).drop_last() =~= rm.take(k as int));
            assert(rm.take(k + 1).last() == inspection_results@[k as int]@);
            if !str_eq(inspection_results[k].inspector_name.as_str(), "permission") {
                let ghost before = inspections(others@);
                let c = inspection_results[k].copy();
                others.push(c);
                assert(inspections(others@) =~= before.push(c@));
            }
            k = k + 1;
        }
        assert(rm.take(k as int) =~= rm);
        (PermissionCheckResult { approved, needs_approval, denied }, others)
    }
}

// ---------------------------------------------------------------------------
// Laws
// ---------------------------------------------------------------------------

/// Every request goes to one place, that which was decided of it: the three hold as many as there
/// are.
pub proof fn law_every_request_is_sorted_once(
    qs: Seq<RequestModel>,
    results: Seq<InspectionModel>,
)
    ensures
        forall|k: int|
            0 <= k < qs.len() ==> in_bucket(
                qs,
                results,
                bucket_of((#[trigger] qs[k]).id, results),
            ).contains(qs[k]),
        in_bucket(qs, results, Bucket::Approved).len() + in_bucket(
            qs,
            results,
            Bucket::NeedsApproval,
        ).len() + in_bucket(qs, results, Bucket::Denied).len() == qs.len(),
    decreases qs.len(),
{
    if qs.len() > 0 {
        let init = qs.drop_last();
        law_every_request_is_sorted_once(init, results);
        assert forall|k: int| 0 <= k < qs.len() implies in_bucket(
            qs,
            results,
            bucket_of((#[trigger] qs[k]).id, results),
        ).contains(qs[k]) by {
            let bucket = bucket_of(qs[k].id, results);
            let head = in_bucket(init, results, bucket);
            let all = in_bucket(qs, results, bucket);
            if k < init.len() {
                assert(init[k] == qs[k]);
                let p = choose|p: int| 0 <= p < head.len() && head[p] == qs[k];
                assert(all[p] == qs[k]);
            } else {
                assert(all[head.len() as int] == qs[k]);
            }
        }
    }
}

/// A request of which this inspector said nothing is not run without being approved.
pub proof fn law_unknown_requests_need_approval(id: Seq<char>, results: Seq<InspectionModel>)
    requires
        forall|i: int|
            0 <= i < results.len() ==> !((#[trigger] results[i]).inspector_name == "permission"@
                && results[i].tool_request_id == id),
    ensures
        bucket_of(id, results) == Bucket::NeedsApproval,
    decreases results.len(),
{
    if results.len() > 0 {
        assert forall|i: int| 0 <= i < results.skip(1).len() implies !((#[trigger] results.skip(
            1,
        )[i]).inspector_name == "permission"@ && results.skip(1)[i].tool_request_id == id) by {
            assert(results.skip(1)[i] == results[i + 1]);
        }
        assert(results[0] == results[0]);
        law_unknown_requests_need_approval(id, results.skip(1));
    }
}

/// Where every tool may run, every call is allowed; where none may, none is decided.
pub proof fn law_modes_decide_alone(s: Standing)
    ensures
        verdict(GooseMode::Auto, s) == Verdict::Decided(
            ActionModel::Allow,
            "Auto mode - all tools approved"@,
        ),
        verdict(GooseMode::Chat, s) is Ignore,
{
}

/// What the user settled of a tool is what happens, whatever else is known of it.
pub proof fn law_the_user_comes_first(mode: GooseMode, s: Standing)
    requires
        mode == GooseMode::Approve || mode == GooseMode::SmartApprove,
    ensures
        s.user == Some(PermissionLevel::NeverAllow) ==> (verdict(mode, s) matches Verdict::Decided(
            a,
            _,
        ) && a == ActionModel::Deny),
        s.user == Some(PermissionLevel::AlwaysAllow) ==> (verdict(mode, s) matches Verdict::Decided(
            a,
            _,
        ) && a == ActionModel::Allow),
        s.user == Some(PermissionLevel::AskBefore) ==> (verdict(mode, s) matches Verdict::Decided(
            a,
            _,
        ) && a is RequireApproval),
{
}

/// A call is denied only where the user settled that, and where calls are approved one by one
/// none is allowed but for what the user settled or what the tool says of itself.
pub proof fn law_nothing_is_allowed_unasked(mode: GooseMode, s: Standing)
    ensures
        verdict(mode, s) matches Verdict::Decided(a, _) && a == ActionModel::Deny ==> s.user == Some(
            PermissionLevel::NeverAllow,
        ),
        verdict(GooseMode::Approve, s) matches Verdict::Decided(a, _) && a == ActionModel::Allow
            ==> s.user == Some(PermissionLevel::AlwaysAllow) || s.read_only,
        mode != GooseMode::Auto ==> (verdict(mode, s) matches Verdict::Decided(a, _) && a
            == ActionModel::Allow ==> s.user == Some(PermissionLevel::AlwaysAllow) || s.read_only
            || s.smart_approve == Some(PermissionLevel::AlwaysAllow)),
{
}

/// A tool that says of itself that it only reads is run without asking, in both modes that ask,
/// wherever the user settled nothing of it.
pub proof fn law_read_only_tools_are_allowed(mode: GooseMode, s: Standing)
    requires
        mode == GooseMode::Approve || mode == GooseMode::SmartApprove,
        s.user is None,
        s.read_only,
    ensures
        verdict(mode, s) == Verdict::Decided(ActionModel::Allow, "Tool annotated as read-only"@),
{
}

/// What becomes of a tool of which neither the user nor the tool itself said anything. In smart
/// mode the model is asked of it once: what it found to only read is allowed, the rest is approved
/// by the user. Outside smart mode the user is asked, whatever was found. Managing extensions is
/// always left to the user.
pub proof fn law_unsettled_tools(mode: GooseMode, s: Standing)
    requires
        mode == GooseMode::Approve || mode == GooseMode::SmartApprove,
        s.user is None,
        !s.read_only,
    ensures
        mode == GooseMode::Approve ==> (verdict(mode, s) matches Verdict::Decided(a, _) && a
            is RequireApproval),
        mode == GooseMode::SmartApprove ==> {
            &&& s.smart_approve == Some(PermissionLevel::AlwaysAllow) <==> (verdict(mode, s)
                matches Verdict::Decided(a, _) && a == ActionModel::Allow)
            &&& s.smart_approve is None && !s.manages_extensions <==> verdict(mode, s) is AskModel
        },
        s.manages_extensions && s.smart_approve != Some(PermissionLevel::AlwaysAllow) ==> (verdict(
            mode,
            s,
        ) matches Verdict::Decided(a, reason) && a == ActionModel::RequireApproval(
            Some("Extension management requires approval for security"@),
        ) && reason == "Extension management requires user approval"@),
        !(verdict(mode, s) is Ignore),
{
}

/// The model is asked of a tool only in smart mode, and only where nobody settled anything of it.
pub proof fn law_the_model_is_asked_last(mode: GooseMode, s: Standing)
    ensures
        verdict(mode, s) is AskModel <==> mode == GooseMode::SmartApprove && s.user is None
            && !s.read_only && s.smart_approve is None && !s.manages_extensions,
        verdict(mode, s) is Ignore <==> mode == GooseMode::Chat,
{
}

proof fn lemma_decisions(
    rs: Seq<RequestModel>,
    mode: GooseMode,
    read_only: Seq<Seq<char>>,
    user: Seq<(Seq<char>, PermissionLevel)>,
    smart: Seq<(Seq<char>, PermissionLevel)>,
    manage_extensions: Seq<char>,
    k: int,
)
    requires
        0 <= k < rs.len(),
        forall|i: int, j: int|
            0 <= i < j < rs.len() ==> (#[trigger] rs[i]).id != (#[trigger] rs[j]).id,
    ensures
        ({
            let out = decisions(rs, mode, read_only, user, smart, manage_extensions);
            let decided = rs[k].tool_call matches Ok(c) && verdict(
                mode,
                standing_of(c.name, read_only, user, smart, manage_extensions),
            ) is Decided;
            &&& forall|p: int|
                0 <= p < out.len() ==> (#[trigger] out[p]).inspector_name == "permission"@
                    && exists|i: int| 0 <= i < rs.len() && (#[trigger] rs[i]).id
                    == out[p].tool_request_id
            &&& decided ==> exists|p: int|
                0 <= p < out.len() && (#[trigger] out[p]).tool_request_id == rs[k].id
            &&& forall|p: int|
                0 <= p < out.len() && (#[trigger] out[p]).tool_request_id == rs[k].id ==> {
                    &&& decided
                    &&& verdict(
                        mode,
                        standing_of(
                            rs[k].tool_call->Ok_0.name,
                            read_only,
                            user,
                            smart,
                            manage_extensions,
                        ),
                    ) == Verdict::Decided(out[p].action, out[p].reason)
                }
        }),
    decreases rs.len(),
{
    let front = rs.drop_last();
    let head = decisions(front, mode, read_only, user, smart, manage_extensions);
    let out = decisions(rs, mode, read_only, user, smart, manage_extensions);
    assert forall|i: int, j: int| 0 <= i < j < front.len() implies (#[trigger] front[i]).id != (
    #[trigger] front[j]).id by {
        assert(front[i] == rs[i]);
        assert(front[j] == rs[j]);
    }
    assert(rs.last() == rs[rs.len() - 1]);
    if front.len() > 0 {
        let other = if k < front.len() {
            k
        } else {
            0
        };
        lemma_decisions(front, mode, read_only, user, smart, manage_extensions, other);
        assert(front[other] == rs[other]);
    } else {
        assert(head =~= Seq::empty());
    }
    assert forall|p: int| 0 <= p < out.len() implies (#[trigger] out[p]).inspector_name
        == "permission"@ && exists|i: int|
        0 <= i < rs.len() && (#[trigger] rs[i]).id == out[p].tool_request_id by {
        if p < head.len() {
            assert(out[p] == head[p]);
            let i = choose|i: int|
                0 <= i < front.len() && (#[trigger] front[i]).id == head[p].tool_request_id;
            assert(rs[i].id == out[p].tool_request_id);
        } else {
            assert(rs[rs.len() - 1].id == out[p].tool_request_id);
        }
    }
    if k < front.len() {
        assert forall|p: int|
            0 <= p < out.len() && (#[trigger] out[p]).tool_request_id == rs[k].id implies p
            < head.len() by {
            if p == head.len() {
                assert(out[p].tool_request_id == rs[rs.len() - 1].id);
            }
        }
        assert forall|p: int| 0 <= p < head.len() implies #[trigger] out[p] == head[p] by {}
        if exists|p: int| 0 <= p < head.len() && (#[trigger] head[p]).tool_request_id == rs[k].id {
            let p = choose|p: int|
                0 <= p < head.len() && (#[trigger] head[p]).tool_request_id == rs[k].id;
            assert(out[p].tool_request_id == rs[k].id);
        }
    } else {
        assert forall|p: int|
            0 <= p < head.len() implies (#[trigger] out[p]).tool_request_id != rs[k].id by {
            assert(out[p] == head[p]);
            let i = choose|i: int|
                0 <= i < front.len() && (#[trigger] front[i]).id == head[p].tool_request_id;
            assert(rs[i].id == out[p].tool_request_id);
        }
        if out.len() > head.len() {
            assert(out[head.len() as int].tool_request_id == rs[k].id);
        }
    }
}

/// The first decision of this inspector on a request is what counts: allowed calls run, denied ones
/// do not, and the rest waits for the user.
pub proof fn law_first_decision_counts(id: Seq<char>, results: Seq<InspectionModel>, k: int)
    requires
        0 <= k < results.len(),
        results[k].inspector_name == "permission"@,
        results[k].tool_request_id == id,
        forall|i: int|
            0 <= i < k ==> !((#[trigger] results[i]).inspector_name == "permission"@
                && results[i].tool_request_id == id),
    ensures
        bucket_of(id, results) == Bucket::Approved <==> results[k].action is Allow,
        bucket_of(id, results) == Bucket::Denied <==> results[k].action is Deny,
        bucket_of(id, results) == Bucket::NeedsApproval <==> results[k].action is RequireApproval,
    decreases k,
{
    if k > 0 {
        let rest = results.skip(1);
        assert(!(results[0].inspector_name == "permission"@ && results[0].tool_request_id == id));
        assert(rest[k - 1] == results[k]);
        assert forall|i: int| 0 <= i < k - 1 implies !((#[trigger] rest[i]).inspector_name
            == "permission"@ && rest[i].tool_request_id == id) by {
            assert(rest[i] == results[i + 1]);
        }
        law_first_decision_counts(id, rest, k - 1);
    }
}

/// From request to bucket: where calls are approved one by one and ids differ, a call that the user
/// never allows is denied, one that the user always allows runs, and one that the user wants to be
/// asked of waits.
pub proof fn law_requests_go_where_the_user_said(
    rs: Seq<RequestModel>,
    mode: GooseMode,
    read_only: Seq<Seq<char>>,
    user: Seq<(Seq<char>, PermissionLevel)>,
    smart: Seq<(Seq<char>, PermissionLevel)>,
    manage_extensions: Seq<char>,
    k: int,
)
    requires
        mode == GooseMode::Approve || mode == GooseMode::SmartApprove,
        0 <= k < rs.len(),
        rs[k].tool_call is Ok,
        forall|i: int, j: int|
            0 <= i < j < rs.len() ==> (#[trigger] rs[i]).id != (#[trigger] rs[j]).id,
    ensures
        ({
            let out = decisions(rs, mode, read_only, user, smart, manage_extensions);
            let bucket = bucket_of(rs[k].id, out);
            let name = rs[k].tool_call->Ok_0.name;
            match level_of(user, name) {
                Some(PermissionLevel::AlwaysAllow) => bucket == Bucket::Approved,
                Some(PermissionLevel::NeverAllow) => bucket == Bucket::Denied,
                Some(PermissionLevel::AskBefore) => bucket == Bucket::NeedsApproval,
                None => bucket == if read_only.contains(name) || (mode == GooseMode::SmartApprove
                    && level_of(smart, name) == Some(PermissionLevel::AlwaysAllow)) {
                    Bucket::Approved
                } else {
                    Bucket::NeedsApproval
                },
            }
        }),
{
    let out = decisions(rs, mode, read_only, user, smart, manage_extensions);
    let id = rs[k].id;
    let name = rs[k].tool_call->Ok_0.name;
    let s = standing_of(name, read_only, user, smart, manage_extensions);
    lemma_decisions(rs, mode, read_only, user, smart, manage_extensions, k);
    if verdict(mode, s) is Decided {
        let p = choose|p: int| 0 <= p < out.len() && (#[trigger] out[p]).tool_request_id == id;
        lemma_first_of(id, out, p);
        let f = choose|f: int|
            0 <= f <= p && (#[trigger] out[f]).inspector_name == "permission"@
                && out[f].tool_request_id == id && forall|i: int|
                0 <= i < f ==> !((#[trigger] out[i]).inspector_name == "permission"@
                    && out[i].tool_request_id == id);
        law_first_decision_counts(id, out, f);
    } else {
        law_unknown_requests_need_approval(id, out);
    }
}

proof fn lemma_first_of(id: Seq<char>, out: Seq<InspectionModel>, p: int)
    requires
        0 <= p < out.len(),
        out[p].inspector_name == "permission"@,
        out[p].tool_request_id == id,
    ensures
        exists|f: int|
            0 <= f <= p && (#[trigger] out[f]).inspector_name == "permission"@
                && out[f].tool_request_id == id && forall|i: int|
                0 <= i < f ==> !((#[trigger] out[i]).inspector_name == "permission"@
                    && out[i].tool_request_id == id),
    decreases p,
{
    if exists|i: int|
        0 <= i < p && (#[trigger] out[i]).inspector_name == "permission"@ && out[i].tool_request_id
            == id {
        let i = choose|i: int|
            0 <= i < p && (#[trigger] out[i]).inspector_name == "permission"@
                && out[i].tool_request_id == id;
        lemma_first_of(id, out, i);
    } else {
        assert(out[p].inspector_name == "permission"@);
    }
}

/// The model is asked of exactly the calls that nobody settled, each as it came.
pub proof fn law_the_model_judges_what_is_left(
    rs: Seq<RequestModel>,
    mode: GooseMode,
    read_only: Seq<Seq<char>>,
    user: Seq<(Seq<char>, PermissionLevel)>,
    smart: Seq<(Seq<char>, PermissionLevel)>,
    manage_extensions: Seq<char>,
    q: RequestModel,
)
    ensures
        undecided(rs, mode, read_only, user, smart, manage_extensions).contains(q) <==> rs.contains(
            q,
        ) && mode == GooseMode::SmartApprove && (q.tool_call matches Ok(c) && level_of(user, c.name)
            is None && level_of(smart, c.name) is None && !read_only.contains(c.name) && c.name
            != manage_extensions),
    decreases rs.len(),
{
    let out = undecided(rs, mode, read_only, user, smart, manage_extensions);
    if rs.len() > 0 {
        let front = rs.drop_last();
        let head = undecided(front, mode, read_only, user, smart, manage_extensions);
        law_the_model_judges_what_is_left(
            front,
            mode,
            read_only,
            user,
            smart,
            manage_extensions,
            q,
        );
        assert(rs[rs.len() - 1] == rs.last());
        if rs.contains(q) && q != rs.last() {
            let i = choose|i: int| 0 <= i < rs.len() && rs[i] == q;
            assert(front[i] == q);
        }
        if front.contains(q) {
            let i = choose|i: int| 0 <= i < front.len() && front[i] == q;
            assert(rs[i] == q);
        }
        if head.contains(q) {
            let i = choose|i: int| 0 <= i < head.len() && head[i] == q;
            assert(out[i] == q);
        }
        if out.contains(q) && !head.contains(q) {
            let i = choose|i: int| 0 <= i < out.len() && out[i] == q;
            if i < head.len() {
                assert(head[i] == q);
            }
        }
        if out.len() > head.len() {
            assert(out[head.len() as int] == rs.last());
        }
    }
}

/// What the model found is what happens: a call runs without asking where its tool was found to
/// only read, and else waits for the user.
pub proof fn law_the_models_findings_decide(q: RequestModel, detected: Seq<Seq<char>>)
    ensures
        judged(q, detected).tool_request_id == q.id,
        judged(q, detected).inspector_name == "permission"@,
        judged(q, detected).action is Allow <==> q.tool_call is Ok && detected.contains(
            q.tool_call->Ok_0.name,
        ),
        !(judged(q, detected).action is Deny),
{
}

/// What the model found is remembered: from then on a call of a tool that it found to only read
/// runs, and any other that it was asked of waits for the user, and the model is not asked again.
pub proof fn law_findings_are_remembered(
    qs: Seq<RequestModel>,
    detected: Seq<Seq<char>>,
    k: int,
    read_only: Seq<Seq<char>>,
    manage_extensions: Seq<char>,
)
    requires
        0 <= k < qs.len(),
        qs[k].tool_call is Ok,
    ensures
        ({
            let name = qs[k].tool_call->Ok_0.name;
            let known = learned(qs, detected);
            let s = standing_of(name, read_only, Seq::empty(), known, manage_extensions);
            &&& level_of(known, name) == Some(
                if detected.contains(name) {
                    PermissionLevel::AlwaysAllow
                } else {
                    PermissionLevel::AskBefore
                },
            )
            &&& !(verdict(GooseMode::SmartApprove, s) is AskModel)
            &&& detected.contains(name) ==> (verdict(GooseMode::SmartApprove, s)
                matches Verdict::Decided(a, _) && a is Allow)
            &&& !detected.contains(name) && !read_only.contains(name) ==> (verdict(
                GooseMode::SmartApprove,
                s,
            ) matches Verdict::Decided(a, _) && a is RequireApproval)
        }),
{
    lemma_learned(qs, detected, k);
    let name = qs[k].tool_call->Ok_0.name;
    assert(level_of(Seq::<(Seq<char>, PermissionLevel)>::empty(), name) is None);
}

proof fn lemma_learned(qs: Seq<RequestModel>, detected: Seq<Seq<char>>, k: int)
    requires
        0 <= k < qs.len(),
        qs[k].tool_call is Ok,
    ensures
        level_of(learned(qs, detected), qs[k].tool_call->Ok_0.name) == Some(
            if detected.contains(qs[k].tool_call->Ok_0.name) {
                PermissionLevel::AlwaysAllow
            } else {
                PermissionLevel::AskBefore
            },
        ),
{
    let name = qs[k].tool_call->Ok_0.name;
    let known = learned(qs, detected);
    lemma_learned_entries(qs, detected, name);
    lemma_learned_has(qs, detected, k);
    let p = choose|p: int| 0 <= p < known.len() && (#[trigger] known[p]).0 == name;
    lemma_level_of(
        known,
        name,
        if detected.contains(name) {
            PermissionLevel::AlwaysAllow
        } else {
            PermissionLevel::AskBefore
        },
        p,
    );
}

proof fn lemma_learned_entries(qs: Seq<RequestModel>, detected: Seq<Seq<char>>, name: Seq<char>)
    ensures
        forall|p: int|
            0 <= p < learned(qs, detected).len() && (#[trigger] learned(qs, detected)[p]).0 == name
                ==> learned(qs, detected)[p].1 == if detected.contains(name) {
                PermissionLevel::AlwaysAllow
            } else {
                PermissionLevel::AskBefore
            },
    decreases qs.len(),
{
    if qs.len() > 0 {
        lemma_learned_entries(qs.drop_last(), detected, name);
    }
}

proof fn lemma_learned_has(qs: Seq<RequestModel>, detected: Seq<Seq<char>>, k: int)
    requires
        0 <= k < qs.len(),
        qs[k].tool_call is Ok,
    ensures
        exists|p: int|
            0 <= p < learned(qs, detected).len() && (#[trigger] learned(qs, detected)[p]).0
                == qs[k].tool_call->Ok_0.name,
    decreases qs.len(),
{
    let head = learned(qs.drop_last(), detected);
    let all = learned(qs, detected);
    if k < qs.len() - 1 {
        assert(qs.drop_last()[k] == qs[k]);
        lemma_learned_has(qs.drop_last(), detected, k);
        let p = choose|p: int|
            0 <= p < head.len() && (#[trigger] head[p]).0 == qs[k].tool_call->Ok_0.name;
        assert(all[p] == head[p]);
    } else {
        assert(all[head.len() as int].0 == qs[k].tool_call->Ok_0.name);
    }
}

proof fn lemma_level_of(
    v: Seq<(Seq<char>, PermissionLevel)>,
    name: Seq<char>,
    level: PermissionLevel,
    p: int,
)
    requires
        0 <= p < v.len(),
        v[p].0 == name,
        forall|i: int| 0 <= i < v.len() && (#[trigger] v[i]).0 == name ==> v[i].1 == level,
    ensures
        level_of(v, name) == Some(level),
    decreases v.len(),
{
    if v[0].0 != name {
        assert(v.skip(1)[p - 1] == v[p]);
        assert forall|i: int| 0 <= i < v.skip(1).len() && (#[trigger] v.skip(1)[i]).0
            == name implies v.skip(1)[i].1 == level by {
            assert(v.skip(1)[i] == v[i + 1]);
        }
        lemma_level_of(v.skip(1), name, level, p - 1);
    }
}

/// What is settled of a tool is what its first entry says, and nothing where it has none.
pub proof fn law_levels_are_read_by_name(
    v: Seq<(Seq<char>, PermissionLevel)>,
    name: Seq<char>,
    level: PermissionLevel,
)
    ensures
        level_of(seq![(name, level)] + v, name) == Some(level),
        forall|other: Seq<char>|
            other != name ==> #[trigger] level_of(seq![(name, level)] + v, other) == level_of(
                v,
                other,
            ),
        level_of(v, name) is None <==> forall|i: int| 0 <= i < v.len() ==> (#[trigger] v[i]).0 != name,
    decreases v.len(),
{
    let w = seq![(name, level)] + v;
    assert(w.skip(1) =~= v);
    if v.len() > 0 {
        law_levels_are_read_by_name(v.skip(1), name, level);
        if v[0].0 != name && level_of(v, name) is None {
            assert forall|i: int| 0 <= i < v.len() implies (#[trigger] v[i]).0 != name by {
                if i > 0 {
                    assert(v.skip(1)[i - 1] == v[i]);
                }
            }
        }
        if forall|i: int| 0 <= i < v.len() ==> (#[trigger] v[i]).0 != name {
            assert forall|i: int| 0 <= i < v.skip(1).len() implies (#[trigger] v.skip(1)[i]).0
                != name by {
                assert(v.skip(1)[i] == v[i + 1]);
            }
            assert(v[0].0 != name);
        }
    }
}

/// A tool counts as read-only where one of that name says so of itself, and nowhere else.
pub proof fn law_read_only_is_what_tools_say(ts: Seq<ToolModel>, name: Seq<char>)
    ensures
        read_only_names(ts).contains(name) <==> exists|i: int|
            0 <= i < ts.len() && (#[trigger] ts[i]).name == name && (ts[i].annotations matches Some(
                a,
            ) && a.hints.read_only == Some(true)),
    decreases ts.len(),
{
    if ts.len() > 0 {
        let front = ts.drop_last();
        let head = read_only_names(front);
        let all = read_only_names(ts);
        law_read_only_is_what_tools_say(front, name);
        assert(ts[ts.len() - 1] == ts.last());
        if head.contains(name) {
            let p = choose|p: int| 0 <= p < head.len() && head[p] == name;
            assert(all[p] == name);
            let i = choose|i: int|
                0 <= i < front.len() && (#[trigger] front[i]).name == name && (front[i].annotations
                    matches Some(a) && a.hints.read_only == Some(true));
            assert(ts[i] == front[i]);
        }
        if all.contains(name) && !head.contains(name) {
            let p = choose|p: int| 0 <= p < all.len() && all[p] == name;
            if p < head.len() {
                assert(head[p] == name);
            }
        }
        if all.len() > head.len() {
            assert(all[head.len() as int] == ts.last().name);
        }
        if exists|i: int|
            0 <= i < ts.len() && (#[trigger] ts[i]).name == name && (ts[i].annotations matches Some(
                a,
            ) && a.hints.read_only == Some(true)) {
            let i = choose|i: int|
                0 <= i < ts.len() && (#[trigger] ts[i]).name == name && (ts[i].annotations
                    matches Some(a) && a.hints.read_only == Some(true));
            if i < front.len() {
                assert(front[i] == ts[i]);
            }
        }
    }
}

/// What other inspectors decided is handed on whole, and nothing else is.
pub proof fn law_other_inspectors_are_heard(results: Seq<InspectionModel>, x: InspectionModel)
    ensures
        of_others(results).contains(x) <==> results.contains(x) && x.inspector_name
            != "permission"@,
    decreases results.len(),
{
    if results.len() > 0 {
        let front = results.drop_last();
        let head = of_others(front);
        let all = of_others(results);
        law_other_inspectors_are_heard(front, x);
        assert(results[results.len() - 1] == results.last());
        if head.contains(x) {
            let p = choose|p: int| 0 <= p < head.len() && head[p] == x;
            assert(all[p] == x);
            let i = choose|i: int| 0 <= i < front.len() && front[i] == x;
            assert(results[i] == x);
        }
        if results.contains(x) && x != results.last() {
            let i = choose|i: int| 0 <= i < results.len() && results[i] == x;
            assert(front[i] == x);
        }
        if all.contains(x) && !head.contains(x) {
            let p = choose|p: int| 0 <= p < all.len() && all[p] == x;
            if p < head.len() {
                assert(head[p] == x);
            }
        }
        if all.len() > head.len() {
            assert(all[head.len() as int] == results.last());
        }
    }
}

proof fn lemma_in_bucket(
    qs: Seq<RequestModel>,
    results: Seq<InspectionModel>,
    bucket: Bucket,
    q: RequestModel,
)
    ensures
        in_bucket(qs, results, bucket).contains(q) <==> qs.contains(q) && bucket_of(q.id, results)
            == bucket,
    decreases qs.len(),
{
    if qs.len() > 0 {
        lemma_in_bucket(qs.drop_last(), results, bucket, q);
        crate::seqs::lemma_contains_last(qs, q);
        crate::seqs::lemma_contains_push(in_bucket(qs.drop_last(), results, bucket), qs.last(), q);
    }
}

/// What may run was allowed, what may not was denied, and all the rest waits for the user: where
/// this inspector decided a request once, it stands in the list of that decision and in no other.
pub proof fn law_only_allowed_requests_run(
    qs: Seq<RequestModel>,
    results: Seq<InspectionModel>,
    approved: Seq<RequestModel>,
    needs_approval: Seq<RequestModel>,
    denied: Seq<RequestModel>,
    q: RequestModel,
    k: int,
)
    requires
        sorted_out(qs, results, approved, needs_approval, denied),
        qs.contains(q),
        0 <= k < results.len(),
        results[k].inspector_name == "permission"@,
        results[k].tool_request_id == q.id,
        forall|i: int|
            0 <= i < results.len() && i != k ==> !((#[trigger] results[i]).inspector_name
                == "permission"@ && results[i].tool_request_id == q.id),
    ensures
        approved.contains(q) <==> results[k].action is Allow,
        denied.contains(q) <==> results[k].action is Deny,
        needs_approval.contains(q) <==> results[k].action is RequireApproval,
{
    law_first_decision_counts(q.id, results, k);
    lemma_in_bucket(qs, results, Bucket::Approved, q);
    lemma_in_bucket(qs, results, Bucket::Denied, q);
    lemma_in_bucket(qs, results, Bucket::NeedsApproval, q);
}

} // verus!
