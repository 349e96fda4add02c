//! Lifecycle hooks: which commands run on an event, and what their outcome means.
//!
//! A plugin lists its hooks by event. A rule may carry a pattern that the event's context must
//! match, and runs its commands in order. A hook can deny an event; a hook that fails in any other
//! way never blocks.

use crate::json::Json;
use crate::patterns::{is_match, is_pattern, pattern_matches, pattern_valid};
use crate::seqs::{lemma_contains_both, lemma_contains_push};
use crate::text::{
    cat, contains_string, join, joined, lemma_joined_pieces, lemma_pieces_hold_no_separator, pieces,
    replace, replaced, split, starts_with, str_eq, text_opt, texts, trim, trimmed,
};
use vstd::prelude::*;
use vstd::string::*;

verus! {

/// The seconds that a hook may run where its plugin does not say.
pub const DEFAULT_HOOK_TIMEOUT_SECS: u64 = 30;

/// The events that a hook can subscribe to.
#[derive(Clone, Copy, PartialEq, Eq, Structural, Debug, Hash)]
pub enum HookEvent {
    PreToolUse,
    PostToolUse,
    PostToolUseFailure,
    SessionStart,
    SessionEnd,
    UserPromptSubmit,
    BeforeReadFile,
    AfterFileEdit,
    BeforeShellExecution,
    AfterShellExecution,
    Stop,
}

/// The name of an event in a plugin's list of hooks.
pub open spec fn event_name(e: HookEvent) -> Seq<char> {
    match e {
        HookEvent::PreToolUse => "PreToolUse"@,
        HookEvent::PostToolUse => "PostToolUse"@,
        HookEvent::PostToolUseFailure => "PostToolUseFailure"@,
        HookEvent::SessionStart => "SessionStart"@,
        HookEvent::SessionEnd => "SessionEnd"@,
        HookEvent::UserPromptSubmit => "UserPromptSubmit"@,
        HookEvent::BeforeReadFile => "BeforeReadFile"@,
        HookEvent::AfterFileEdit => "AfterFileEdit"@,
        HookEvent::BeforeShellExecution => "BeforeShellExecution"@,
        HookEvent::AfterShellExecution => "AfterShellExecution"@,
        HookEvent::Stop => "Stop"@,
    }
}

/// The event with the name.
pub open spec fn event_of(name: Seq<char>) -> Option<HookEvent> {
    if exists|e: HookEvent| #[trigger] event_name(e) == name {
        Some(choose|e: HookEvent| #[trigger] event_name(e) == name)
    } else {
        None
    }
}

/// Different events have different names.
pub proof fn lemma_event_names_differ(a: HookEvent, b: HookEvent)
    ensures
        event_name(a) == event_name(b) ==> a == b,
{
    reveal_strlit("PreToolUse");
    reveal_strlit("PostToolUse");
    reveal_strlit("PostToolUseFailure");
    reveal_strlit("SessionStart");
    reveal_strlit("SessionEnd");
    reveal_strlit("UserPromptSubmit");
    reveal_strlit("BeforeReadFile");
    reveal_strlit("AfterFileEdit");
    reveal_strlit("BeforeShellExecution");
    reveal_strlit("AfterShellExecution");
    reveal_strlit("Stop");
    assert("PreToolUse"@[0] == 'P' && "SessionEnd"@[0] == 'S');
    assert("PreToolUse"@.len() == 10 && "SessionEnd"@.len() == 10 && "PostToolUse"@.len() == 11);
    assert("PostToolUseFailure"@.len() == 18 && "SessionStart"@.len() == 12);
    assert("UserPromptSubmit"@.len() == 16 && "BeforeReadFile"@.len() == 14);
    assert("AfterFileEdit"@.len() == 13 && "BeforeShellExecution"@.len() == 20);
    assert("AfterShellExecution"@.len() == 19 && "Stop"@.len() == 4);
}

impl HookEvent {
    /// The name of the event in a plugin's list of hooks.
    pub fn name(&self) -> (r: &'static str)
        ensures
            r@ == event_name(*self),
    {
        match self {
            HookEvent::PreToolUse => "PreToolUse",
            HookEvent::PostToolUse => "PostToolUse",
            HookEvent::PostToolUseFailure => "PostToolUseFailure",
            HookEvent::SessionStart => "SessionStart",
            HookEvent::SessionEnd => "SessionEnd",
            HookEvent::UserPromptSubmit => "UserPromptSubmit",
            HookEvent::BeforeReadFile => "BeforeReadFile",
            HookEvent::AfterFileEdit => "AfterFileEdit",
            HookEvent::BeforeShellExecution => "BeforeShellExecution",
            HookEvent::AfterShellExecution => "AfterShellExecution",
            HookEvent::Stop => "Stop",
        }
    }

    /// The event with the name; nothing where there is none.
    pub fn from_name(name: &str) -> (r: Option<HookEvent>)
        ensures
            r == event_of(name@),
    {
        let r = if str_eq(name, "PreToolUse") {
            Some(HookEvent::PreToolUse)
        } else if str_eq(name, "PostToolUse") {
            Some(HookEvent::PostToolUse)
        } else if str_eq(name, "PostToolUseFailure") {
            Some(HookEvent::PostToolUseFailure)
        } else if str_eq(name, "SessionStart") {
            Some(HookEvent::SessionStart)
        } else if str_eq(name, "SessionEnd") {
            Some(HookEvent::SessionEnd)
        } else if str_eq(name, "UserPromptSubmit") {
            Some(HookEvent::UserPromptSubmit)
        } else if str_eq(name, "BeforeReadFile") {
            Some(HookEvent::BeforeReadFile)
        } else if str_eq(name, "AfterFileEdit") {
            Some(HookEvent::AfterFileEdit)
        } else if str_eq(name, "BeforeShellExecution") {
            Some(HookEvent::BeforeShellExecution)
        } else if str_eq(name, "AfterShellExecution") {
            Some(HookEvent::AfterShellExecution)
        } else if str_eq(name, "Stop") {
            Some(HookEvent::Stop)
        } else {
            None
        };
        proof {
            match r {
                Some(e) => {
                    assert(event_name(e) == name@);
                    lemma_event_names_differ(e, event_of(name@)->0);
                },
                None => {
                    assert forall|e: HookEvent| #[trigger] event_name(e) != name@ by {
                        match e {
                            HookEvent::PreToolUse => {},
                            HookEvent::PostToolUse => {},
                            HookEvent::PostToolUseFailure => {},
                            HookEvent::SessionStart => {},
                            HookEvent::SessionEnd => {},
                            HookEvent::UserPromptSubmit => {},
                            HookEvent::BeforeReadFile => {},
                            HookEvent::AfterFileEdit => {},
                            HookEvent::BeforeShellExecution => {},
                            HookEvent::AfterShellExecution => {},
                            HookEvent::Stop => {},
                        }
                    }
                },
            }
        }
        r
    }
}

/// Reading an event's name gives the event, and an event that a name is read as has that name.
pub proof fn law_event_names_round_trip(e: HookEvent, name: Seq<char>)
    ensures
        event_of(event_name(e)) == Some(e),
        event_of(name) == Some(e) ==> event_name(e) == name,
{
    lemma_event_names_differ(e, event_of(event_name(e))->0);
}

// ---------------------------------------------------------------------------
// Loading
// ---------------------------------------------------------------------------

/// An action as a plugin writes it.
#[derive(Debug, PartialEq, Eq)]
pub struct RawHookAction {
    pub action_type: Option<String>,
    pub command: Option<String>,
    pub timeout: Option<u64>,
}

/// A rule as a plugin writes it.
#[derive(Debug, PartialEq, Eq)]
pub struct RawHookRule {
    pub matcher: Option<String>,
    pub hooks: Vec<RawHookAction>,
}

/// The rules for one event as a plugin writes them.
#[derive(Debug, PartialEq, Eq)]
pub struct RawHookEvent {
    pub event: String,
    pub rules: Vec<RawHookRule>,
}

/// A command with the seconds that it may run.
#[derive(Debug, PartialEq, Eq)]
pub struct LoadedAction {
    pub command: String,
    pub timeout_secs: u64,
}

/// A rule that is ready to run.
#[derive(Debug, PartialEq, Eq)]
pub struct LoadedRule {
    pub event: HookEvent,
    pub plugin_name: String,
    pub plugin_root: String,
    pub matcher: Option<String>,
    pub actions: Vec<LoadedAction>,
}

#[verifier::ext_equal]
pub struct ActionModel {
    pub command: Seq<char>,
    pub timeout_secs: u64,
}

#[verifier::ext_equal]
pub struct RuleModel {
    pub event: HookEvent,
    pub plugin_name: Seq<char>,
    pub plugin_root: Seq<char>,
    pub matcher: Option<Seq<char>>,
    pub actions: Seq<ActionModel>,
}

impl LoadedAction {
    pub open spec fn view(&self) -> ActionModel {
        ActionModel { command: self.command@, timeout_secs: self.timeout_secs }
    }
}

pub open spec fn actions_model(v: Seq<LoadedAction>) -> Seq<ActionModel> {
    Seq::new(v.len(), |i: int| v[i]@)
}

impl LoadedRule {
    pub open spec fn view(&self) -> RuleModel {
        RuleModel {
            event: self.event,
            plugin_name: self.plugin_name@,
            plugin_root: self.plugin_root@,
            matcher: text_opt(self.matcher),
            actions: actions_model(self.actions@),
        }
    }
}

pub open spec fn rules_model(v: Seq<LoadedRule>) -> Seq<RuleModel> {
    Seq::new(v.len(), |i: int| v[i]@)
}

/// What a raw action becomes: commands are kept, with the default time where none is given.
/// Actions of another type, and commands without a text, are left out.
pub open spec fn loaded_action(raw: RawHookAction) -> Option<ActionModel> {
    let is_command = raw.action_type matches Some(t) ==> t@ == "command"@;
    match (is_command, raw.command) {
        (true, Some(cmd)) => Some(
            ActionModel {
                command: cmd@,
                timeout_secs: match raw.timeout {
                    Some(t) => t,
                    None => DEFAULT_HOOK_TIMEOUT_SECS,
                },
            },
        ),
        _ => None,
    }
}

pub open spec fn loaded_actions(raw: Seq<RawHookAction>) -> Seq<ActionModel>
    decreases raw.len(),
{
    if raw.len() == 0 {
        Seq::empty()
    } else {
        let head = loaded_actions(raw.drop_last());
        match loaded_action(raw.last()) {
            Some(a) => head.push(a),
            None => head,
        }
    }
}

/// The pattern of a rule: an empty one counts as none.
pub open spec fn rule_pattern(matcher: Option<String>) -> Option<Seq<char>> {
    match matcher {
        Some(p) => if p@.len() == 0 {
            None
        } else {
            Some(p@)
        },
        None => None,
    }
}

/// What a raw rule becomes: nothing where its pattern is not valid or no action is left.
pub open spec fn loaded_rule(
    raw: RawHookRule,
    event: HookEvent,
    plugin_name: Seq<char>,
    plugin_root: Seq<char>,
) -> Option<RuleModel> {
    let pattern = rule_pattern(raw.matcher);
    let actions = loaded_actions(raw.hooks@);
    if (pattern matches Some(p) && !pattern_valid(p)) || actions.len() == 0 {
        None
    } else {
        Some(RuleModel { event, plugin_name, plugin_root, matcher: pattern, actions })
    }
}

pub open spec fn loaded_rules(
    raw: Seq<RawHookRule>,
    event: HookEvent,
    plugin_name: Seq<char>,
    plugin_root: Seq<char>,
) -> Seq<RuleModel>
    decreases raw.len(),
{
    if raw.len() == 0 {
        Seq::empty()
    } else {
        let head = loaded_rules(raw.drop_last(), event, plugin_name, plugin_root);
        match loaded_rule(raw.last(), event, plugin_name, plugin_root) {
            Some(r) => head.push(r),
            None => head,
        }
    }
}

/// The rules of a plugin, event after event. Events with a name that is not known are left out.
pub open spec fn plugin_rules(
    raw: Seq<RawHookEvent>,
    plugin_name: Seq<char>,
    plugin_root: Seq<char>,
) -> Seq<RuleModel>
    decreases raw.len(),
{
    if raw.len() == 0 {
        Seq::empty()
    } else {
        let head = plugin_rules(raw.drop_last(), plugin_name, plugin_root);
        match event_of(raw.last().event@) {
            Some(e) => head + loaded_rules(raw.last().rules@, e, plugin_name, plugin_root),
            None => head,
        }
    }
}

fn load_action(raw: &RawHookAction) -> (r: Option<LoadedAction>)
    ensures
        match r {
            Some(a) => loaded_action(*raw) == Some(a@),
            None => loaded_action(*raw) is None,
        },
{
    let is_command = match &raw.action_type {
        Some(t) => str_eq(t.as_str(), "command"),
        None => true,
    };
    if !is_command {
        return None;
    }
    match &raw.command {
        Some(cmd) => Some(
            LoadedAction {
                command: cmd.clone(),
                timeout_secs: match raw.timeout {
                    Some(t) => t,
                    None => DEFAULT_HOOK_TIMEOUT_SECS,
                },
            },
        ),
        None => None,
    }
}

fn load_rule(raw: &RawHookRule, event: HookEvent, plugin_name: &str, plugin_root: &str) -> (r:
    Option<LoadedRule>)
    ensures
        match r {
            Some(l) => loaded_rule(*raw, event, plugin_name@, plugin_root@) == Some(l@),
            None => loaded_rule(*raw, event, plugin_name@, plugin_root@) is None,
        },
{
    let matcher: Option<String> = match &raw.matcher {
        Some(p) => if p.as_str().is_empty() {
            None
        } else {
            Some(p.clone())
        },
        None => None,
    };
    if let Some(p) = &matcher {
        if !is_pattern(p.as_str()) {
            return None;
        }
    }
    let mut actions: Vec<LoadedAction> = Vec::new();
    let mut i: usize = 0;
    assert(actions_model(actions@) =~= loaded_actions(raw.hooks@.take(0)));
    while i < raw.hooks.len()
        invariant
            i <= raw.hooks@.len(),
            actions_model(actions@) == loaded_actions(raw.hooks@.take(i as int)),
        decreases raw.hooks@.len() - i,
    {
        assert(raw.hooks@.take(i + 1).drop_last() =~= raw.hooks@.take(i as int));
        let ghost before = actions_model(actions@);
        if let Some(a) = load_action(&raw.hooks[i]) {
            let ghost am = a@;
            actions.push(a);
            assert(actions_model(actions@) =~= before.push(am));
        }
        i = i + 1;
    }
    assert(raw.hooks@.take(i as int) =~= raw.hooks@);
    assert(actions_model(actions@).len() == actions@.len());
    if actions.len() == 0 {
        return None;
    }
    Some(
        LoadedRule {
            event,
            plugin_name: plugin_name.to_owned(),
            plugin_root: plugin_root.to_owned(),
            matcher,
            actions,
        },
    )
}

/// Loads the rules of a plugin.
pub fn load_rules(raw: &Vec<RawHookEvent>, plugin_name: &str, plugin_root: &str) -> (r: Vec<
    LoadedRule,
>)
    ensures
        rules_model(r@) == plugin_rules(raw@, plugin_name@, plugin_root@),
{
    let mut out: Vec<LoadedRule> = Vec::new();
    let mut i: usize = 0;
    assert(rules_model(out@) =~= plugin_rules(raw@.take(0), plugin_name@, plugin_root@));
    while i < raw.len()
        invariant
            i <= raw@.len(),
            rules_model(out@) == plugin_rules(raw@.take(i as int), plugin_name@, plugin_root@),
        decreases raw@.len() - i,
    {
        assert(raw@.take(i + 1).drop_last() =~= raw@.take(i as int));
        if let Some(event) = HookEvent::from_name(raw[i].event.as_str()) {
            let ghost base = rules_model(out@);
            let ghost rr = raw@[i as int].rules@;
            let mut k: usize = 0;
            assert(rules_model(out@) =~= base + loaded_rules(
                rr.take(0),
                event,
                plugin_name@,
                plugin_root@,
            ));
            while k < raw[i].rules.len()
                invariant
                    i < raw@.len(),
                    rr == raw@[i as int].rules@,
                    k <= rr.len(),
                    rules_model(out@) == base + loaded_rules(
                        rr.take(k as int),
                        event,
                        plugin_name@,
                        plugin_root@,
                    ),
                decreases rr.len() - k,
            {
                assert(rr.take(k + 1).drop_last() =~= rr.take(k as int));
                let ghost before = rules_model(out@);
                if let Some(l) = load_rule(&raw[i].rules[k], event, plugin_name, plugin_root) {
                    let ghost lm = l@;
                    out.push(l);
                    assert(rules_model(out@) =~= before.push(lm));
                    assert(rules_model(out@) =~= base + loaded_rules(
                        rr.take(k as int),
                        event,
                        plugin_name@,
                        plugin_root@,
                    ).push(lm));
                }
                k = k + 1;
            }
            assert(rr.take(k as int) =~= rr);
        }
        i = i + 1;
    }
    assert(raw@.take(i as int) =~= raw@);
    out
}

// ---------------------------------------------------------------------------
// Running
// ---------------------------------------------------------------------------

/// What a hook is told of its event.
#[derive(Debug, PartialEq, Eq)]
pub struct HookContext {
    pub event: String,
    pub session_id: String,
    pub matcher_context: Option<String>,
    pub tool_name: Option<String>,
    pub tool_input: Option<Json>,
    pub tool_output: Option<Json>,
    pub message: Option<String>,
    pub last_assistant_message: Option<String>,
    pub working_dir: Option<String>,
}

impl HookContext {
    /// The context of an event in a session, with nothing else.
    pub fn new(event: HookEvent, session_id: String) -> (r: HookContext)
        ensures
            r.event@ == event_name(event),
            r.session_id == session_id,
            r.matcher_context is None,
            r.tool_name is None,
            r.tool_input is None,
            r.tool_output is None,
            r.message is None,
            r.last_assistant_message is None,
            r.working_dir is None,
    {
        HookContext {
            event: event.name().to_owned(),
            session_id,
            matcher_context: None,
            tool_name: None,
            tool_input: None,
            tool_output: None,
            message: None,
            last_assistant_message: None,
            working_dir: None,
        }
    }

    /// The context of a tool call: the tool's name is what patterns are tested on.
    pub fn with_tool(self, tool_name: String, tool_input: Option<Json>) -> (r: HookContext)
        ensures
            r == (HookContext {
                matcher_context: Some(tool_name),
                tool_name: Some(tool_name),
                tool_input,
                ..self
            }),
    {
        let mut ctx = self;
        ctx.matcher_context = Some(tool_name.clone());
        ctx.tool_name = Some(tool_name);
        ctx.tool_input = tool_input;
        ctx
    }

    pub fn with_tool_output(self, output: Json) -> (r: HookContext)
        ensures
            r == (HookContext { tool_output: Some(output), ..self }),
    {
        let mut ctx = self;
        ctx.tool_output = Some(output);
        ctx
    }

    /// The context of a message: patterns are tested on it unless something else was set.
    pub fn with_message(self, message: String) -> (r: HookContext)
        ensures
            r == (HookContext {
                matcher_context: match self.matcher_context {
                    Some(m) => Some(m),
                    None => Some(message),
                },
                message: Some(message),
                ..self
            }),
    {
        let mut ctx = self;
        if ctx.matcher_context.is_none() {
            ctx.matcher_context = Some(message.clone());
        }
        ctx.message = Some(message);
        ctx
    }

    /// The context with the last message of the assistant; an empty one changes nothing.
    pub fn with_last_assistant_message(self, message: String) -> (r: HookContext)
        ensures
            message@.len() > 0 ==> r == (HookContext {
                last_assistant_message: Some(message),
                ..self
            }),
            message@.len() == 0 ==> r == self,
    {
        let mut ctx = self;
        if !message.as_str().is_empty() {
            ctx.last_assistant_message = Some(message);
        }
        ctx
    }

    pub fn with_working_dir(self, dir: String) -> (r: HookContext)
        ensures
            r == (HookContext { working_dir: Some(dir), ..self }),
    {
        let mut ctx = self;
        ctx.working_dir = Some(dir);
        ctx
    }
}

/// What a hook decided.
#[derive(Debug, PartialEq, Eq)]
pub enum HookDecision {
    Allow,
    Deny { reason: String, plugin: String },
}

#[verifier::ext_equal]
pub enum DecisionModel {
    Allow,
    Deny { reason: Seq<char>, plugin: Seq<char> },
}

impl HookDecision {
    pub open spec fn view(&self) -> DecisionModel {
        match self {
            HookDecision::Allow => DecisionModel::Allow,
            HookDecision::Deny { reason, plugin } => DecisionModel::Deny {
                reason: reason@,
                plugin: plugin@,
            },
        }
    }
}

/// A command that is to run for an event.
#[derive(Debug, PartialEq, Eq)]
pub struct HookRun {
    pub plugin: String,
    pub plugin_root: String,
    pub command: String,
    pub timeout_secs: u64,
}

#[verifier::ext_equal]
pub struct RunModel {
    pub plugin: Seq<char>,
    pub plugin_root: Seq<char>,
    pub command: Seq<char>,
    pub timeout_secs: u64,
}

impl HookRun {
    pub open spec fn view(&self) -> RunModel {
        RunModel {
            plugin: self.plugin@,
            plugin_root: self.plugin_root@,
            command: self.command@,
            timeout_secs: self.timeout_secs,
        }
    }
}

pub open spec fn runs_model(v: Seq<HookRun>) -> Seq<RunModel> {
    Seq::new(v.len(), |i: int| v[i]@)
}

/// Whether a rule applies: it is for the event, and its pattern, where it has one, matches.
pub open spec fn applies(rule: RuleModel, event: HookEvent, target: Seq<char>) -> bool {
    rule.event == event && (rule.matcher matches Some(p) ==> pattern_valid(p) && pattern_matches(
        p,
        target,
    ))
}

/// The commands of a rule.
pub open spec fn rule_runs(rule: RuleModel) -> Seq<RunModel> {
    Seq::new(
        rule.actions.len(),
        |i: int|
            RunModel {
                plugin: rule.plugin_name,
                plugin_root: rule.plugin_root,
                command: rule.actions[i].command,
                timeout_secs: rule.actions[i].timeout_secs,
            },
    )
}

/// The commands that run for an event, rule after rule.
pub open spec fn event_runs(rules: Seq<RuleModel>, event: HookEvent, target: Seq<char>) -> Seq<
    RunModel,
>
    decreases rules.len(),
{
    if rules.len() == 0 {
        Seq::empty()
    } else {
        let head = event_runs(rules.drop_last(), event, target);
        if applies(rules.last(), event, target) {
            head + rule_runs(rules.last())
        } else {
            head
        }
    }
}

/// The hooks of all plugins.
#[derive(Debug, PartialEq, Eq)]
pub struct HookManager {
    pub rules: Vec<LoadedRule>,
    pub use_login_shell_path: bool,
}

/// What an event's patterns are tested on.
pub open spec fn matcher_target(ctx: HookContext) -> Seq<char> {
    match ctx.matcher_context {
        Some(s) => s@,
        None => Seq::empty(),
    }
}

impl HookManager {
    pub fn new(use_login_shell_path: bool) -> (r: HookManager)
        ensures
            r.rules@.len() == 0,
            r.use_login_shell_path == use_login_shell_path,
    {
        HookManager { rules: Vec::new(), use_login_shell_path }
    }

    /// Adds the rules of a plugin after those that are there.
    pub fn add_plugin(&mut self, raw: &Vec<RawHookEvent>, plugin_name: &str, plugin_root: &str)
        ensures
            rules_model(final(self).rules@) == rules_model(old(self).rules@) + plugin_rules(
                raw@,
                plugin_name@,
                plugin_root@,
            ),
            final(self).use_login_shell_path == old(self).use_login_shell_path,
    {
        let mut more = load_rules(raw, plugin_name, plugin_root);
        let ghost before = self.rules@;
        let ghost added = more@;
        self.rules.append(&mut more);
        assert(rules_model(self.rules@) =~= rules_model(before) + rules_model(added));
    }

    /// Whether there is a rule for the event.
    pub fn has_hooks(&self, event: HookEvent) -> (r: bool)
        ensures
            r == exists|i: int|
                0 <= i < self.rules@.len() && (#[trigger] self.rules@[i]).event == event,
    {
        let mut i: usize = 0;
        while i < self.rules.len()
            invariant
                i <= self.rules@.len(),
                forall|j: int| 0 <= j < i ==> (#[trigger] self.rules@[j]).event != event,
            decreases self.rules@.len() - i,
        {
            if self.rules[i].event == event {
                return true;
            }
            i = i + 1;
        }
        false
    }

    /// The commands that run for an event, in order.
    pub fn runs_for(&self, event: HookEvent, ctx: &HookContext) -> (r: Vec<HookRun>)
        ensures
            runs_model(r@) == event_runs(rules_model(self.rules@), event, matcher_target(*ctx)),
    {
        let target: String = match &ctx.matcher_context {
            Some(s) => s.clone(),
            None => String::new(),
        };
        let ghost all = rules_model(self.rules@);
        let mut out: Vec<HookRun> = Vec::new();
        let mut i: usize = 0;
        assert(runs_model(out@) =~= event_runs(all.take(0), event, target@));
        while i < self.rules.len()
            invariant
                all == rules_model(self.rules@),
                i <= self.rules@.len(),
                runs_model(out@) == event_runs(all.take(i as int), event, target@),
            decreases self.rules@.len() - i,
        {
            assert(all.take(i + 1).drop_last() =~= all.take(i as int));
            assert(all.take(i + 1).last() == self.rules@[i as int]@);
            let matched = self.rules[i].event == event && match &self.rules[i].matcher {
                Some(p) => match is_match(p.as_str(), target.as_str()) {
                    Some(b) => b,
                    None => false,
                },
                None => true,
            };
            if matched {
                let ghost base = runs_model(out@);
                let ghost rm = self.rules@[i as int]@;
                let mut k: usize = 0;
                assert(runs_model(out@) =~= base + rule_runs(rm).take(0));
                while k < self.rules[i].actions.len()
                    invariant
                        i < self.rules@.len(),
                        rm == self.rules@[i as int]@,
                        k <= self.rules@[i as int].actions@.len(),
                        runs_model(out@) == base + rule_runs(rm).take(k as int),
                    decreases self.rules@[i as int].actions@.len() - k,
                {
                    let run = HookRun {
                        plugin: self.rules[i].plugin_name.clone(),
                        plugin_root: self.rules[i].plugin_root.clone(),
                        command: self.rules[i].actions[k].command.clone(),
                        timeout_secs: self.rules[i].actions[k].timeout_secs,
                    };
                    let ghost before = runs_model(out@);
                    let ghost m = run@;
                    out.push(run);
                    assert(m == rule_runs(rm)[k as int]);
                    assert(runs_model(out@) =~= before.push(m));
                    assert(rule_runs(rm).take(k + 1) =~= rule_runs(rm).take(k as int).push(m));
                    assert(runs_model(out@) =~= base + rule_runs(rm).take(k + 1));
                    k = k + 1;
                }
                assert(rule_runs(rm).take(k as int) =~= rule_runs(rm));
            }
            i = i + 1;
        }
        assert(all.take(i as int) =~= all);
        out
    }
}

/// What a hook printed as its response.
#[derive(Debug, PartialEq, Eq)]
pub struct HookResponse {
    pub decision: Option<String>,
    pub reason: Option<String>,
}

/// What a hook that ran to its end left: its exit code, its two outputs, and its response where
/// the standard output is one.
#[derive(Debug, PartialEq, Eq)]
pub struct HookOutput {
    pub code: Option<i32>,
    pub stderr: String,
    pub response: Option<HookResponse>,
}

/// The reason, or a default where it is empty.
pub open spec fn or_default_reason(s: Seq<char>) -> Seq<char> {
    if s.len() == 0 {
        "denied by plugin hook"@
    } else {
        s
    }
}

/// The part of a hook's standard output that is to be read as a response: the output without the
/// white space around it, where it begins with a brace.
pub open spec fn response_part(stdout: Seq<char>) -> Option<Seq<char>> {
    let t = trimmed(stdout);
    if t.len() > 0 && t[0] == '{' {
        Some(t)
    } else {
        None
    }
}

/// The part of a hook's standard output that is to be read as a response.
pub fn response_text(stdout: &str) -> (r: Option<String>)
    ensures
        text_opt(r) == response_part(stdout@),
{
    let t = trim(stdout);
    let begins_brace = starts_with(t.as_str(), "{");
    proof {
        reveal_strlit("{");
        if t@.len() > 0 {
            assert(t@.subrange(0, 1) =~= seq![t@[0]]);
            assert("{"@ =~= seq!['{']);
            if t@[0] == '{' {
                assert(t@.subrange(0, 1) =~= "{"@);
            } else {
                assert(t@.subrange(0, 1)[0] != "{"@[0]);
            }
        }
    }
    if begins_brace {
        Some(t)
    } else {
        None
    }
}

/// Why a hook denies the event: exit code 2 denies, with the reason on the error output; else a
/// response whose decision is to block denies, with its reason.
pub open spec fn denial(output: HookOutput) -> Option<Seq<char>> {
    if output.code == Some(2i32) {
        Some(or_default_reason(trimmed(output.stderr@)))
    } else {
        match output.response {
            Some(resp) => if resp.decision matches Some(d) && d@ == "block"@ {
                Some(
                    or_default_reason(
                        match resp.reason {
                            Some(s) => s@,
                            None => Seq::empty(),
                        },
                    ),
                )
            } else {
                None
            },
            None => None,
        }
    }
}

fn non_empty(s: String) -> (r: String)
    ensures
        r@ == or_default_reason(s@),
{
    if s.as_str().is_empty() {
        "denied by plugin hook".to_owned()
    } else {
        s
    }
}

/// Why a hook denies the event; nothing where it does not.
pub fn deny_reason(output: &HookOutput) -> (r: Option<String>)
    ensures
        text_opt(r) == denial(*output),
{
    if let Some(code) = output.code {
        if code == 2 {
            return Some(non_empty(trim(output.stderr.as_str())));
        }
    }
    match &output.response {
        Some(resp) => {
            let block = match &resp.decision {
                Some(d) => str_eq(d.as_str(), "block"),
                None => false,
            };
            if block {
                let reason = match &resp.reason {
                    Some(s) => s.clone(),
                    None => String::new(),
                };
                Some(non_empty(reason))
            } else {
                None
            }
        },
        None => None,
    }
}

/// What a blocking event comes to when its commands ended as told, in order: the first that
/// denies decides. A command that failed to run is told as nothing, and allows.
pub open spec fn decision_of(runs: Seq<RunModel>, outcomes: Seq<Option<HookOutput>>) -> DecisionModel
    decreases outcomes.len(),
{
    if outcomes.len() == 0 || runs.len() == 0 {
        DecisionModel::Allow
    } else {
        let first = match outcomes[0] {
            Some(o) => denial(o),
            None => None,
        };
        match first {
            Some(reason) => DecisionModel::Deny { reason, plugin: runs[0].plugin },
            None => decision_of(runs.skip(1), outcomes.skip(1)),
        }
    }
}

/// What one command decides of a blocking event: it denies, or leaves it to those after it.
pub open spec fn denial_by(run: RunModel, outcome: Option<HookOutput>) -> Option<DecisionModel> {
    let why = match outcome {
        Some(o) => denial(o),
        None => None,
    };
    match why {
        Some(reason) => Some(DecisionModel::Deny { reason, plugin: run.plugin }),
        None => None,
    }
}

/// A blocking event under way: its commands, and how many have ended without denying.
#[derive(Debug, PartialEq, Eq)]
pub struct BlockingEvent {
    pub runs: Vec<HookRun>,
    pub done: usize,
}

impl BlockingEvent {
    pub open spec fn wf(&self) -> bool {
        self.done <= self.runs@.len()
    }

    pub fn new(runs: Vec<HookRun>) -> (r: BlockingEvent)
        ensures
            r.runs == runs,
            r.done == 0,
            r.wf(),
    {
        BlockingEvent { runs, done: 0 }
    }

    /// The next command to run; nothing where all have ended, and then the event is allowed.
    pub fn next(&self) -> (r: Option<&HookRun>)
        requires
            self.wf(),
        ensures
            match r {
                Some(run) => self.done < self.runs@.len() && *run == self.runs@[self.done as int],
                None => self.done == self.runs@.len(),
            },
    {
        if self.done < self.runs.len() {
            Some(&self.runs[self.done])
        } else {
            None
        }
    }

    /// Takes in how the next command ended. A denial ends the event; anything else goes on.
    pub fn record(&mut self, outcome: Option<HookOutput>) -> (r: Option<HookDecision>)
        requires
            old(self).wf(),
            old(self).done < old(self).runs@.len(),
        ensures
            final(self).runs == old(self).runs,
            final(self).done == old(self).done + 1,
            final(self).wf(),
            match denial_by(old(self).runs@[old(self).done as int]@, outcome) {
                Some(m) => r matches Some(d) && d@ == m,
                None => r is None,
            },
    {
        let total: usize = self.runs.len();
        let plugin = self.runs[self.done].plugin.clone();
        assert(self.done < total);
        self.done = self.done + 1;
        let reason = match &outcome {
            Some(o) => deny_reason(o),
            None => None,
        };
        match reason {
            Some(reason) => Some(HookDecision::Deny { reason, plugin }),
            None => None,
        }
    }
}

/// What a blocking event comes to when all its commands have been run.
pub fn decide(runs: &Vec<HookRun>, outcomes: &Vec<Option<HookOutput>>) -> (r: HookDecision)
    ensures
        r@ == decision_of(runs_model(runs@), outcomes@),
{
    let ghost rm = runs_model(runs@);
    let mut i: usize = 0;
    assert(rm.skip(0) =~= rm);
    assert(outcomes@.skip(0) =~= outcomes@);
    while i < outcomes.len() && i < runs.len()
        invariant
            rm == runs_model(runs@),
            i <= outcomes@.len(),
            i <= runs@.len(),
            decision_of(rm, outcomes@) == decision_of(
                rm.skip(i as int),
                outcomes@.skip(i as int),
            ),
        decreases outcomes@.len() - i,
    {
        assert(rm.skip(i as int)[0] == runs@[i as int]@);
        assert(rm.skip(i as int).skip(1) =~= rm.skip(i + 1));
        assert(outcomes@.skip(i as int).skip(1) =~= outcomes@.skip(i + 1));
        let reason = match &outcomes[i] {
            Some(o) => deny_reason(o),
            None => None,
        };
        if let Some(reason) = reason {
            return HookDecision::Deny { reason, plugin: runs[i].plugin.clone() };
        }
        i = i + 1;
    }
    HookDecision::Allow
}

/// A hook that does not deny never blocks, whatever else went wrong with it.
pub proof fn law_failing_hooks_never_block(
    runs: Seq<RunModel>,
    outcomes: Seq<Option<HookOutput>>,
)
    requires
        forall|i: int|
            0 <= i < outcomes.len() ==> ((#[trigger] outcomes[i]) matches Some(o) ==> denial(
                o,
            ) is None),
    ensures
        decision_of(runs, outcomes) == DecisionModel::Allow,
    decreases outcomes.len(),
{
    if outcomes.len() > 0 && runs.len() > 0 {
        assert forall|i: int| 0 <= i < outcomes.skip(1).len() implies ((#[trigger] outcomes.skip(
            1,
        )[i]) matches Some(o) ==> denial(o) is None) by {
            assert(outcomes.skip(1)[i] == outcomes[i + 1]);
        }
        law_failing_hooks_never_block(runs.skip(1), outcomes.skip(1));
    }
}

/// The first hook that denies decides, and nothing after it is looked at.
pub proof fn law_first_denial_decides(
    runs: Seq<RunModel>,
    outcomes: Seq<Option<HookOutput>>,
    k: int,
    output: HookOutput,
)
    requires
        0 <= k < outcomes.len(),
        k < runs.len(),
        outcomes[k] == Some(output),
        denial(output) is Some,
        forall|i: int|
            0 <= i < k ==> ((#[trigger] outcomes[i]) matches Some(o) ==> denial(o) is None),
    ensures
        decision_of(runs, outcomes) == (DecisionModel::Deny {
            reason: denial(output)->0,
            plugin: runs[k].plugin,
        }),
    decreases k,
{
    if k > 0 {
        assert(outcomes[0] matches Some(o) ==> denial(o) is None);
        assert forall|i: int| 0 <= i < k - 1 implies ((#[trigger] outcomes.skip(1)[i]) matches Some(
            o,
        ) ==> denial(o) is None) by {
            assert(outcomes.skip(1)[i] == outcomes[i + 1]);
        }
        law_first_denial_decides(runs.skip(1), outcomes.skip(1), k - 1, output);
    }
}

// ---------------------------------------------------------------------------
// Commands and paths
// ---------------------------------------------------------------------------

/// A command with the plugin's root in place of `${PLUGIN_ROOT}`.
pub fn expand_plugin_root(command: &str, plugin_root: &str) -> (r: String)
    ensures
        r@ == replaced(command@, "${PLUGIN_ROOT}"@, plugin_root@),
{
    proof {
        reveal_strlit("${PLUGIN_ROOT}");
    }
    replace(command, "${PLUGIN_ROOT}", plugin_root)
}

/// How a hook's command is started: the arguments, and what is set in the environment. In a
/// Flatpak sandbox the environment is handed over as arguments.
#[derive(Debug, PartialEq, Eq)]
pub struct HookCommand {
    pub arguments: Vec<String>,
    pub environment: Vec<(String, String)>,
}

pub open spec fn hook_arguments(
    command: Seq<char>,
    plugin_root: Seq<char>,
    path: Option<Seq<char>>,
    flatpak: bool,
) -> Seq<Seq<char>> {
    if flatpak {
        let root = seq!["--env=PLUGIN_ROOT="@ + plugin_root];
        let with_path = match path {
            Some(p) => root.push("--env=PATH="@ + p),
            None => root,
        };
        with_path.push("sh"@).push("-c"@).push(command)
    } else {
        seq!["-c"@, command]
    }
}

pub open spec fn hook_environment(
    plugin_root: Seq<char>,
    path: Option<Seq<char>>,
    flatpak: bool,
) -> Seq<(Seq<char>, Seq<char>)> {
    if flatpak {
        Seq::empty()
    } else {
        let root = seq![("PLUGIN_ROOT"@, plugin_root)];
        match path {
            Some(p) => root.push(("PATH"@, p)),
            None => root,
        }
    }
}

pub open spec fn pair_texts(v: Seq<(String, String)>) -> Seq<(Seq<char>, Seq<char>)> {
    Seq::new(v.len(), |i: int| (v[i].0@, v[i].1@))
}

/// How a hook's command is started.
pub fn hook_command(
    command: &str,
    plugin_root: &str,
    path: Option<String>,
    flatpak: bool,
) -> (r: HookCommand)
    ensures
        texts(r.arguments@) == hook_arguments(command@, plugin_root@, text_opt(path), flatpak),
        pair_texts(r.environment@) == hook_environment(plugin_root@, text_opt(path), flatpak),
{
    let mut arguments: Vec<String> = Vec::new();
    let mut environment: Vec<(String, String)> = Vec::new();
    if flatpak {
        arguments.push(cat("--env=PLUGIN_ROOT=", plugin_root));
        assert(texts(arguments@) =~= seq!["--env=PLUGIN_ROOT="@ + plugin_root@]);
        if let Some(p) = &path {
            let ghost before = texts(arguments@);
            arguments.push(cat("--env=PATH=", p.as_str()));
            assert(texts(arguments@) =~= before.push("--env=PATH="@ + p@));
        }
        let ghost before = texts(arguments@);
        arguments.push("sh".to_owned());
        arguments.push("-c".to_owned());
        arguments.push(command.to_owned());
        assert(texts(arguments@) =~= before.push("sh"@).push("-c"@).push(command@));
        assert(pair_texts(environment@) =~= Seq::empty());
    } else {
        arguments.push("-c".to_owned());
        arguments.push(command.to_owned());
        assert(texts(arguments@) =~= seq!["-c"@, command@]);
        environment.push(("PLUGIN_ROOT".to_owned(), plugin_root.to_owned()));
        assert(pair_texts(environment@) =~= seq![("PLUGIN_ROOT"@, plugin_root@)]);
        if let Some(p) = path {
            let ghost before = pair_texts(environment@);
            let ghost pm = p@;
            environment.push(("PATH".to_owned(), p));
            assert(pair_texts(environment@) =~= before.push(("PATH"@, pm)));
        }
    }
    HookCommand { arguments, environment }
}

/// The entries that are not empty, each once, in the order of their first places.
pub open spec fn distinct_entries(entries: Seq<Seq<char>>) -> Seq<Seq<char>>
    decreases entries.len(),
{
    if entries.len() == 0 {
        Seq::empty()
    } else {
        let head = distinct_entries(entries.drop_last());
        if entries.last().len() == 0 || head.contains(entries.last()) {
            head
        } else {
            head.push(entries.last())
        }
    }
}

/// The entries of two search paths, each once, those of the first before the others.
pub open spec fn merged_path(first: Seq<char>, second: Seq<char>) -> Seq<char> {
    joined(distinct_entries(pieces(first, ':') + pieces(second, ':')), ":"@)
}

/// The entries of two search paths, each once, those of the first before the others.
pub fn merge_paths(first: &str, second: &str) -> (r: String)
    ensures
        r@ == merged_path(first@, second@),
{
    let mut entries = split(first, ':');
    let mut more = split(second, ':');
    let ghost a = entries@;
    let ghost b = more@;
    entries.append(&mut more);
    assert(texts(entries@) =~= texts(a) + texts(b));
    let ghost all = texts(entries@);
    let mut merged: Vec<String> = Vec::new();
    let mut i: usize = 0;
    assert(texts(merged@) =~= distinct_entries(all.take(0)));
    while i < entries.len()
        invariant
            all == texts(entries@),
            i <= entries@.len(),
            texts(merged@) == distinct_entries(all.take(i as int)),
        decreases entries@.len() - i,
    {
        assert(all.take(i + 1).drop_last() =~= all.take(i as int));
        assert(all.take(i + 1).last() == entries@[i as int]@);
        if !entries[i].as_str().is_empty() && !contains_string(&merged, entries[i].as_str()) {
            let ghost before = texts(merged@);
            merged.push(entries[i].clone());
            assert(texts(merged@) =~= before.push(entries@[i as int]@));
        }
        i = i + 1;
    }
    assert(all.take(i as int) =~= all);
    join(&merged, ":")
}

/// No entry of a merged path is empty or occurs twice.
pub proof fn law_merged_entries_are_distinct(entries: Seq<Seq<char>>, i: int, j: int)
    requires
        0 <= i < j < distinct_entries(entries).len(),
    ensures
        distinct_entries(entries)[i] != distinct_entries(entries)[j],
        distinct_entries(entries)[i].len() > 0,
        distinct_entries(entries)[j].len() > 0,
    decreases entries.len(),
{
    let head = distinct_entries(entries.drop_last());
    if j < head.len() {
        law_merged_entries_are_distinct(entries.drop_last(), i, j);
    } else {
        assert(head[i] == distinct_entries(entries)[i]);
        if head[i] == entries.last() {
            assert(head.contains(entries.last()));
        }
        lemma_distinct_nonempty(entries.drop_last(), i);
    }
}

proof fn lemma_distinct_nonempty(entries: Seq<Seq<char>>, i: int)
    requires
        0 <= i < distinct_entries(entries).len(),
    ensures
        distinct_entries(entries)[i].len() > 0,
    decreases entries.len(),
{
    if i < distinct_entries(entries.drop_last()).len() {
        lemma_distinct_nonempty(entries.drop_last(), i);
    }
}

/// The entries of the first path come first, in their order, and every entry of the two paths
/// that is not empty is there.
pub proof fn law_first_path_comes_first(first: Seq<Seq<char>>, second: Seq<Seq<char>>)
    ensures
        distinct_entries(first).is_prefix_of(distinct_entries(first + second)),
        forall|k: int|
            0 <= k < (first + second).len() && (#[trigger] (first + second)[k]).len() > 0
                ==> distinct_entries(first + second).contains((first + second)[k]),
    decreases second.len(),
{
    let all = first + second;
    if second.len() == 0 {
        assert(all =~= first);
    } else {
        law_first_path_comes_first(first, second.drop_last());
        assert(all.drop_last() =~= first + second.drop_last());
    }
    lemma_distinct_complete(all);
}

proof fn lemma_distinct_complete(all: Seq<Seq<char>>)
    ensures
        forall|k: int|
            0 <= k < all.len() && (#[trigger] all[k]).len() > 0 ==> distinct_entries(all).contains(
                all[k],
            ),
    decreases all.len(),
{
    if all.len() > 0 {
        let rest = all.drop_last();
        lemma_distinct_complete(rest);
        let head = distinct_entries(rest);
        let r = distinct_entries(all);
        assert forall|k: int| 0 <= k < all.len() && (#[trigger] all[k]).len() > 0 implies r.contains(
            all[k],
        ) by {
            if k < rest.len() {
                assert(rest[k] == all[k]);
                let w = choose|w: int| 0 <= w < head.len() && head[w] == all[k];
                assert(r[w] == all[k]);
            } else if head.contains(all[k]) {
                let w = choose|w: int| 0 <= w < head.len() && head[w] == all[k];
                assert(r[w] == all[k]);
            } else {
                assert(r[r.len() - 1] == all[k]);
            }
        }
    }
}

/// Merging search paths again changes nothing: what one of the two holds, or the merged path
/// itself, is there already.
pub proof fn law_merging_again_changes_nothing(first: Seq<char>, second: Seq<char>)
    ensures
        ({
            let merged = merged_path(first, second);
            &&& merged_path(merged, second) == merged
            &&& merged_path(merged, first) == merged
            &&& merged_path(merged, merged) == merged
        }),
{
    let all = pieces(first, ':') + pieces(second, ':');
    let es = distinct_entries(all);
    let merged = merged_path(first, second);
    lemma_distinct_complete(all);
    assert forall|i: int| 0 <= i < all.len() implies !(#[trigger] all[i]).contains(':') by {
        if i < pieces(first, ':').len() {
            lemma_pieces_hold_no_separator(first, ':', i);
        } else {
            lemma_pieces_hold_no_separator(second, ':', i - pieces(first, ':').len());
        }
    }
    assert forall|x: Seq<char>| pieces(second, ':').contains(x) && x.len() > 0 implies (
    #[trigger] es.contains(x)) by {
        let k = choose|k: int| 0 <= k < pieces(second, ':').len() && pieces(second, ':')[k] == x;
        assert(all[pieces(first, ':').len() + k] == x);
    }
    assert forall|x: Seq<char>| pieces(first, ':').contains(x) && x.len() > 0 implies (
    #[trigger] es.contains(x)) by {
        let k = choose|k: int| 0 <= k < pieces(first, ':').len() && pieces(first, ':')[k] == x;
        assert(all[k] == x);
    }
    lemma_entries_come_back(all);
    assert(seq![':'] =~= ":"@) by {
        reveal_strlit(":");
    }
    lemma_nothing_new(pieces(merged, ':'), es, pieces(second, ':'));
    lemma_nothing_new(pieces(merged, ':'), es, pieces(first, ':'));
    assert forall|x: Seq<char>| pieces(merged, ':').contains(x) && x.len() > 0 implies (
    #[trigger] es.contains(x)) by {
        lemma_distinct_complete(pieces(merged, ':'));
        let k = choose|k: int| 0 <= k < pieces(merged, ':').len() && pieces(merged, ':')[k] == x;
        assert(pieces(merged, ':')[k].len() > 0);
    }
    lemma_nothing_new(pieces(merged, ':'), es, pieces(merged, ':'));
}

/// The pieces of a merged path hold its entries and nothing else that counts.
proof fn lemma_entries_come_back(all: Seq<Seq<char>>)
    requires
        forall|i: int| 0 <= i < all.len() ==> !(#[trigger] all[i]).contains(':'),
    ensures
        distinct_entries(pieces(joined(distinct_entries(all), ":"@), ':')) == distinct_entries(all),
{
    let es = distinct_entries(all);
    reveal_strlit(":");
    assert(":"@ =~= seq![':']);
    if es.len() == 0 {
        let one = seq![Seq::<char>::empty()];
        assert(joined(es, ":"@) =~= Seq::empty());
        assert(pieces(Seq::<char>::empty(), ':') == one);
        assert(one.drop_last() =~= Seq::empty());
        assert(distinct_entries(one.drop_last()) =~= Seq::empty());
        assert(distinct_entries(one) =~= es);
    } else {
        assert forall|i: int| 0 <= i < es.len() implies !(#[trigger] es[i]).contains(':') by {
            lemma_distinct_from(all, i);
        }
        lemma_joined_pieces(es, ':');
        assert forall|i: int, j: int| 0 <= i < j < es.len() implies es[i] != es[j] by {
            law_merged_entries_are_distinct(all, i, j);
        }
        assert forall|i: int| 0 <= i < es.len() implies (#[trigger] es[i]).len() > 0 by {
            lemma_distinct_nonempty(all, i);
        }
        lemma_distinct_stays(es);
    }
}

proof fn lemma_distinct_from(all: Seq<Seq<char>>, i: int)
    requires
        0 <= i < distinct_entries(all).len(),
    ensures
        all.contains(distinct_entries(all)[i]),
    decreases all.len(),
{
    let head = distinct_entries(all.drop_last());
    if i < head.len() {
        lemma_distinct_from(all.drop_last(), i);
        let k = choose|k: int| 0 <= k < all.drop_last().len() && all.drop_last()[k] == head[i];
        assert(all[k] == head[i]);
    } else {
        assert(all[all.len() - 1] == distinct_entries(all)[i]);
    }
}

proof fn lemma_distinct_stays(es: Seq<Seq<char>>)
    requires
        forall|i: int, j: int| 0 <= i < j < es.len() ==> es[i] != es[j],
        forall|i: int| 0 <= i < es.len() ==> (#[trigger] es[i]).len() > 0,
    ensures
        distinct_entries(es) == es,
    decreases es.len(),
{
    if es.len() > 0 {
        let init = es.drop_last();
        lemma_distinct_stays(init);
        if init.contains(es.last()) {
            let k = choose|k: int| 0 <= k < init.len() && init[k] == es.last();
            assert(es[k] != es[es.len() - 1]);
        }
        assert(init.push(es.last()) =~= es);
    }
}

/// Entries that are there already add nothing.
proof fn lemma_nothing_new(had: Seq<Seq<char>>, es: Seq<Seq<char>>, more: Seq<Seq<char>>)
    requires
        distinct_entries(had) == es,
        forall|x: Seq<char>| more.contains(x) && x.len() > 0 ==> (#[trigger] es.contains(x)),
    ensures
        distinct_entries(had + more) == es,
    decreases more.len(),
{
    if more.len() == 0 {
        assert(had + more =~= had);
    } else {
        let init = more.drop_last();
        assert forall|x: Seq<char>| init.contains(x) && x.len() > 0 implies (#[trigger] es.contains(
            x,
        )) by {
            let k = choose|k: int| 0 <= k < init.len() && init[k] == x;
            assert(more[k] == x);
        }
        lemma_nothing_new(had, es, init);
        assert((had + more).drop_last() =~= had + init);
        assert(more.contains(more.last()));
    }
}

/// Which outcomes deny an event: exit code 2, whatever else was printed, and a response that
/// blocks. Every denial gives a reason: the one on the error output, or that of the response, and a
/// default where there is none.
pub proof fn law_which_hooks_deny(output: HookOutput)
    ensures
        denial(output) is Some <==> output.code == Some(2i32) || (output.response matches Some(resp)
            && resp.decision matches Some(d) && d@ == "block"@),
        denial(output) matches Some(reason) ==> reason.len() > 0,
        output.code == Some(2i32) && trimmed(output.stderr@).len() > 0 ==> denial(output) == Some(
            trimmed(output.stderr@),
        ),
        output.code != Some(2i32) ==> (output.response matches Some(resp) ==> (resp.decision
            matches Some(d) ==> (resp.reason matches Some(why) ==> (d@ == "block"@ && why@.len() > 0
            ==> denial(output) == Some(why@))))),
{
    reveal_strlit("denied by plugin hook");
}

/// Only an output that begins with a brace, once the white space around it is gone, is read as a
/// response, and then all of it.
pub proof fn law_responses_begin_with_a_brace(stdout: Seq<char>)
    ensures
        response_part(stdout) is Some <==> trimmed(stdout).len() > 0 && trimmed(stdout)[0] == '{',
        response_part(stdout) matches Some(t) ==> t == trimmed(stdout),
{
}

/// When a rule applies: never to another event; to its own always where it has no pattern, and else
/// where the pattern matches.
pub proof fn law_when_rules_apply(rule: RuleModel, event: HookEvent, target: Seq<char>)
    ensures
        rule.event != event ==> !applies(rule, event, target),
        rule.event == event && rule.matcher is None ==> applies(rule, event, target),
        rule.event == event && rule.matcher is Some && pattern_valid(rule.matcher->0) ==> applies(
            rule,
            event,
            target,
        ) == pattern_matches(rule.matcher->0, target),
{
}

/// Every command of every rule that applies runs, with the plugin, the root and the time of its
/// rule, and no other command does.
pub proof fn law_commands_of_applying_rules_run(
    rules: Seq<RuleModel>,
    event: HookEvent,
    target: Seq<char>,
    x: RunModel,
)
    ensures
        event_runs(rules, event, target).contains(x) <==> exists|i: int, k: int|
            {
                &&& 0 <= i < rules.len()
                &&& applies(#[trigger] rules[i], event, target)
                &&& 0 <= k < rules[i].actions.len()
                &&& (#[trigger] rules[i].actions[k]).command == x.command
                &&& rules[i].actions[k].timeout_secs == x.timeout_secs
                &&& rules[i].plugin_name == x.plugin
                &&& rules[i].plugin_root == x.plugin_root
            },
    decreases rules.len(),
{
    if rules.len() > 0 {
        let front = rules.drop_last();
        let head = event_runs(front, event, target);
        let last = rules.last();
        law_commands_of_applying_rules_run(front, event, target, x);
        lemma_contains_both(head, rule_runs(last), x);
        assert(rules[rules.len() - 1] == last);
        if head.contains(x) {
            let (i, k) = choose|i: int, k: int|
                {
                    &&& 0 <= i < front.len()
                    &&& applies(#[trigger] front[i], event, target)
                    &&& 0 <= k < front[i].actions.len()
                    &&& (#[trigger] front[i].actions[k]).command == x.command
                    &&& front[i].actions[k].timeout_secs == x.timeout_secs
                    &&& front[i].plugin_name == x.plugin
                    &&& front[i].plugin_root == x.plugin_root
                };
            assert(rules[i] == front[i]);
            assert(rules[i].actions[k].command == x.command);
        }
        if rule_runs(last).contains(x) && applies(last, event, target) {
            let k = choose|k: int| 0 <= k < rule_runs(last).len() && rule_runs(last)[k] == x;
            assert(rules[rules.len() - 1].actions[k].command == x.command);
        }
        if exists|i: int, k: int|
            {
                &&& 0 <= i < rules.len()
                &&& applies(#[trigger] rules[i], event, target)
                &&& 0 <= k < rules[i].actions.len()
                &&& (#[trigger] rules[i].actions[k]).command == x.command
                &&& rules[i].actions[k].timeout_secs == x.timeout_secs
                &&& rules[i].plugin_name == x.plugin
                &&& rules[i].plugin_root == x.plugin_root
            } {
            let (i, k) = choose|i: int, k: int|
                {
                    &&& 0 <= i < rules.len()
                    &&& applies(#[trigger] rules[i], event, target)
                    &&& 0 <= k < rules[i].actions.len()
                    &&& (#[trigger] rules[i].actions[k]).command == x.command
                    &&& rules[i].actions[k].timeout_secs == x.timeout_secs
                    &&& rules[i].plugin_name == x.plugin
                    &&& rules[i].plugin_root == x.plugin_root
                };
            if i < front.len() {
                assert(front[i] == rules[i]);
                assert(front[i].actions[k].command == x.command);
            } else {
                assert(rule_runs(last)[k] =~= x);
                assert(rule_runs(last).contains(x));
            }
        }
    }
}

/// Commands run in the order of the rules: those of the plugins that were added first come first.
pub proof fn law_commands_run_in_order(
    first: Seq<RuleModel>,
    second: Seq<RuleModel>,
    event: HookEvent,
    target: Seq<char>,
)
    ensures
        event_runs(first + second, event, target) == event_runs(first, event, target) + event_runs(
            second,
            event,
            target,
        ),
    decreases second.len(),
{
    if second.len() > 0 {
        law_commands_run_in_order(first, second.drop_last(), event, target);
        assert((first + second).drop_last() =~= first + second.drop_last());
        assert((first + second).last() == second.last());
        assert(event_runs(first + second, event, target) =~= event_runs(first, event, target)
            + event_runs(second, event, target));
    } else {
        assert(first + second =~= first);
        assert(event_runs(first, event, target) + event_runs(second, event, target) =~= event_runs(
            first,
            event,
            target,
        ));
    }
}

/// Which actions are kept: commands, and actions of no stated type, that have a command. Each keeps
/// its command and its time; without one it has thirty seconds.
pub proof fn law_commands_are_loaded(raw: RawHookAction)
    ensures
        loaded_action(raw) is Some <==> raw.command is Some && (raw.action_type matches Some(t)
            ==> t@ == "command"@),
        loaded_action(raw) matches Some(a) ==> a.command == raw.command->0@ && (raw.timeout
            matches Some(t) ==> a.timeout_secs == t) && (raw.timeout is None ==> a.timeout_secs
            == 30),
{
}

/// A rule's actions are those of its raw actions that are kept, in order.
pub proof fn law_actions_keep_their_order(a: Seq<RawHookAction>, b: Seq<RawHookAction>)
    ensures
        loaded_actions(a + b) == loaded_actions(a) + loaded_actions(b),
        a.len() == 1 ==> loaded_actions(a) == match loaded_action(a[0]) {
            Some(x) => seq![x],
            None => Seq::empty(),
        },
    decreases b.len(),
{
    if a.len() == 1 {
        assert(a.drop_last() =~= Seq::empty());
        assert(loaded_actions(a.drop_last()) =~= Seq::empty());
        assert(a.last() == a[0]);
        assert(loaded_actions(a) =~= match loaded_action(a[0]) {
            Some(x) => seq![x],
            None => Seq::empty(),
        });
    }
    if b.len() > 0 {
        law_actions_keep_their_order(a, b.drop_last());
        assert((a + b).drop_last() =~= a + b.drop_last());
        assert((a + b).last() == b.last());
        assert(loaded_actions(a + b) =~= loaded_actions(a) + loaded_actions(b));
    } else {
        assert(a + b =~= a);
        assert(loaded_actions(a) + loaded_actions(b) =~= loaded_actions(a));
    }
}

/// Which rules are kept: those with an action, and with a pattern that is valid where there is one.
/// An empty pattern counts as none. A kept rule says whose it is and what it is for.
pub proof fn law_which_rules_are_loaded(
    raw: RawHookRule,
    event: HookEvent,
    plugin_name: Seq<char>,
    plugin_root: Seq<char>,
)
    ensures
        loaded_rule(raw, event, plugin_name, plugin_root) is Some <==> loaded_actions(
            raw.hooks@,
        ).len() > 0 && (raw.matcher matches Some(p) ==> p@.len() == 0 || pattern_valid(p@)),
        loaded_rule(raw, event, plugin_name, plugin_root) matches Some(r) ==> {
            &&& r.event == event
            &&& r.plugin_name == plugin_name
            &&& r.plugin_root == plugin_root
            &&& r.actions == loaded_actions(raw.hooks@)
            &&& r.matcher is None <==> (raw.matcher matches Some(p) ==> p@.len() == 0)
            &&& r.matcher matches Some(p) ==> raw.matcher matches Some(q) && q@ == p
        },
{
}

/// The rules of a plugin keep the order in which it lists them, and an event that is not known
/// takes nothing from the others.
pub proof fn law_plugin_rules_keep_their_order(
    a: Seq<RawHookEvent>,
    b: Seq<RawHookEvent>,
    plugin_name: Seq<char>,
    plugin_root: Seq<char>,
)
    ensures
        plugin_rules(a + b, plugin_name, plugin_root) == plugin_rules(a, plugin_name, plugin_root)
            + plugin_rules(b, plugin_name, plugin_root),
        a.len() == 1 ==> plugin_rules(a, plugin_name, plugin_root) == match event_of(a[0].event@) {
            Some(e) => loaded_rules(a[0].rules@, e, plugin_name, plugin_root),
            None => Seq::empty(),
        },
    decreases b.len(),
{
    if a.len() == 1 {
        assert(a.drop_last() =~= Seq::empty());
        assert(plugin_rules(a.drop_last(), plugin_name, plugin_root) =~= Seq::empty());
        assert(a.last() == a[0]);
        assert(plugin_rules(a, plugin_name, plugin_root) =~= match event_of(a[0].event@) {
            Some(e) => loaded_rules(a[0].rules@, e, plugin_name, plugin_root),
            None => Seq::empty(),
        });
    }
    if b.len() > 0 {
        law_plugin_rules_keep_their_order(a, b.drop_last(), plugin_name, plugin_root);
        assert((a + b).drop_last() =~= a + b.drop_last());
        assert((a + b).last() == b.last());
        assert(plugin_rules(a + b, plugin_name, plugin_root) =~= plugin_rules(
            a,
            plugin_name,
            plugin_root,
        ) + plugin_rules(b, plugin_name, plugin_root));
    } else {
        assert(a + b =~= a);
        assert(plugin_rules(a, plugin_name, plugin_root) + plugin_rules(
            b,
            plugin_name,
            plugin_root,
        ) =~= plugin_rules(a, plugin_name, plugin_root));
    }
}

/// No rule of an event is lost: each that is kept by itself is among the rules of the event, and
/// nothing else is.
pub proof fn law_rules_of_an_event(
    raw: Seq<RawHookRule>,
    event: HookEvent,
    plugin_name: Seq<char>,
    plugin_root: Seq<char>,
    x: RuleModel,
)
    ensures
        loaded_rules(raw, event, plugin_name, plugin_root).contains(x) <==> exists|i: int|
            0 <= i < raw.len() && loaded_rule(#[trigger] raw[i], event, plugin_name, plugin_root)
                == Some(x),
    decreases raw.len(),
{
    if raw.len() > 0 {
        let front = raw.drop_last();
        law_rules_of_an_event(front, event, plugin_name, plugin_root, x);
        let head = loaded_rules(front, event, plugin_name, plugin_root);
        assert(raw[raw.len() - 1] == raw.last());
        if let Some(r) = loaded_rule(raw.last(), event, plugin_name, plugin_root) {
            lemma_contains_push(head, r, x);
        }
        if head.contains(x) {
            let i = choose|i: int|
                0 <= i < front.len() && loaded_rule(
                    #[trigger] front[i],
                    event,
                    plugin_name,
                    plugin_root,
                ) == Some(x);
            assert(raw[i] == front[i]);
        }
        if exists|i: int|
            0 <= i < raw.len() && loaded_rule(#[trigger] raw[i], event, plugin_name, plugin_root)
                == Some(x) {
            let i = choose|i: int|
                0 <= i < raw.len() && loaded_rule(
                    #[trigger] raw[i],
                    event,
                    plugin_name,
                    plugin_root,
                ) == Some(x);
            if i < front.len() {
                assert(front[i] == raw[i]);
            }
        }
    }
}

/// However a hook is started, a shell is given its command, and it learns its plugin's root and,
/// where one is set, the search path.
pub proof fn law_hooks_learn_their_root(
    command: Seq<char>,
    plugin_root: Seq<char>,
    path: Option<Seq<char>>,
    flatpak: bool,
)
    ensures
        ({
            let arguments = hook_arguments(command, plugin_root, path, flatpak);
            let environment = hook_environment(plugin_root, path, flatpak);
            &&& arguments.last() == command
            &&& arguments[arguments.len() - 2] == "-c"@
            &&& flatpak ==> arguments.contains("--env=PLUGIN_ROOT="@ + plugin_root)
            &&& flatpak && path is Some ==> arguments.contains("--env=PATH="@ + path->0)
            &&& flatpak ==> environment.len() == 0
            &&& !flatpak ==> environment.contains(("PLUGIN_ROOT"@, plugin_root))
            &&& !flatpak && path is Some ==> environment.contains(("PATH"@, path->0))
            &&& !flatpak ==> arguments.len() == 2
            &&& path is None && !flatpak ==> environment.len() == 1
        }),
{
    let arguments = hook_arguments(command, plugin_root, path, flatpak);
    let environment = hook_environment(plugin_root, path, flatpak);
    if flatpak {
        assert(arguments[0] == "--env=PLUGIN_ROOT="@ + plugin_root);
        if path is Some {
            assert(arguments[1] == "--env=PATH="@ + path->0);
        }
    } else {
        assert(environment[0] == ("PLUGIN_ROOT"@, plugin_root));
        if path is Some {
            assert(environment[1] == ("PATH"@, path->0));
        }
    }
}

/// Patterns are tested on what the event is about, and on nothing where that is not said.
pub proof fn law_what_patterns_are_tested_on(ctx: HookContext)
    ensures
        ctx.matcher_context matches Some(s) ==> matcher_target(ctx) == s@,
        ctx.matcher_context is None ==> matcher_target(ctx).len() == 0,
{
}

/// A rule runs its commands in the order in which it lists them.
pub proof fn law_rules_run_in_order(rule: RuleModel, i: int)
    requires
        0 <= i < rule.actions.len(),
    ensures
        rule_runs(rule).len() == rule.actions.len(),
        rule_runs(rule)[i].command == rule.actions[i].command,
        rule_runs(rule)[i].timeout_secs == rule.actions[i].timeout_secs,
        rule_runs(rule)[i].plugin == rule.plugin_name,
        rule_runs(rule)[i].plugin_root == rule.plugin_root,
{
}

/// Running the commands one by one decides as looking at all of them does: the first that denies
/// ends the event with its plugin and its reason, and each other leaves it to the next.
pub proof fn law_commands_decide_one_by_one(
    run: RunModel,
    outcome: Option<HookOutput>,
    runs: Seq<RunModel>,
    outcomes: Seq<Option<HookOutput>>,
)
    ensures
        decision_of(seq![run] + runs, seq![outcome] + outcomes) == match denial_by(run, outcome) {
            Some(d) => d,
            None => decision_of(runs, outcomes),
        },
        denial_by(run, outcome) matches Some(d) ==> (d matches DecisionModel::Deny {
            reason,
            plugin,
        } && plugin == run.plugin && outcome is Some && denial(outcome->0) == Some(reason)),
        outcome is None ==> denial_by(run, outcome) is None,
{
    assert((seq![run] + runs).skip(1) =~= runs);
    assert((seq![outcome] + outcomes).skip(1) =~= outcomes);
}

} // verus!
