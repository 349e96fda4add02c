//! Extensions: how they are configured, and how each is started.

use crate::env::{
    copy_env, env_get, env_value, same_variables, substitute_env_vars, variables_same,
};
use crate::hooks::pair_texts;
use crate::text::{
    cat, cat3, clone_strings, contains_string, same_strings, same_text, str_eq, text_opt, texts,
};
use crate::tools::{
    find_platform, is_first_class_extension, lemma_same_tool, platform_entry, same_tool,
    PlatformExtension, Tool,
};
use vstd::prelude::*;
use vstd::string::*;

verus! {

// ---------------------------------------------------------------------------
// Configurations
// ---------------------------------------------------------------------------

/// How an extension is reached.
#[derive(Debug, PartialEq, Eq)]
pub enum ExtensionKind {
    /// Over server-sent events, which are no longer spoken.
    Sse { address: Option<String> },
    /// A process that speaks over its standard streams.
    Stdio {
        cmd: String,
        args: Vec<String>,
        envs: Vec<(String, String)>,
        env_keys: Vec<String>,
        timeout: Option<u64>,
        cwd: Option<String>,
    },
    /// One that comes with the program.
    Builtin { display_name: Option<String>, timeout: Option<u64> },
    /// One that runs inside the agent.
    Platform { display_name: Option<String> },
    /// A server on the net.
    StreamableHttp {
        uri: String,
        envs: Vec<(String, String)>,
        env_keys: Vec<String>,
        headers: Vec<(String, String)>,
        timeout: Option<u64>,
        socket: Option<String>,
    },
    /// One whose tools the frontend runs.
    Frontend { tools: Vec<Tool>, instructions: Option<String> },
    /// A Python program that is given as text.
    InlinePython { code: String, timeout: Option<u64>, dependencies: Option<Vec<String>> },
}

/// The configuration of an extension. `key` is the name in the form that extensions are kept by.
#[derive(Debug, PartialEq, Eq)]
pub struct ExtensionConfig {
    pub key: String,
    pub name: String,
    pub description: String,
    pub bundled: Option<bool>,
    pub available_tools: Vec<String>,
    pub kind: ExtensionKind,
}

/// Whether two lists hold tools that say the same.
pub open spec fn same_tools(a: Seq<Tool>, b: Seq<Tool>) -> bool {
    a.len() == b.len() && forall|i: int| 0 <= i < a.len() ==> same_tool((#[trigger] a[i])@, b[i]@)
}

/// Whether two extensions are reached in the same way. The order of variables and of headers does
/// not matter.
pub open spec fn same_kind(a: ExtensionKind, b: ExtensionKind) -> bool {
    match (a, b) {
        (ExtensionKind::Sse { address: x }, ExtensionKind::Sse { address: y }) => text_opt(x) == text_opt(y),
        (
            ExtensionKind::Stdio { cmd: c1, args: a1, envs: e1, env_keys: k1, timeout: t1, cwd: d1 },
            ExtensionKind::Stdio { cmd: c2, args: a2, envs: e2, env_keys: k2, timeout: t2, cwd: d2 },
        ) => {
            &&& c1@ == c2@
            &&& texts(a1@) == texts(a2@)
            &&& same_variables(pair_texts(e1@), pair_texts(e2@))
            &&& texts(k1@) == texts(k2@)
            &&& t1 == t2
            &&& text_opt(d1) == text_opt(d2)
        },
        (
            ExtensionKind::Builtin { display_name: n1, timeout: t1 },
            ExtensionKind::Builtin { display_name: n2, timeout: t2 },
        ) => text_opt(n1) == text_opt(n2) && t1 == t2,
        (
            ExtensionKind::Platform { display_name: n1 },
            ExtensionKind::Platform { display_name: n2 },
        ) => text_opt(n1) == text_opt(n2),
        (
            ExtensionKind::StreamableHttp {
                uri: u1,
                envs: e1,
                env_keys: k1,
                headers: h1,
                timeout: t1,
                socket: s1,
            },
            ExtensionKind::StreamableHttp {
                uri: u2,
                envs: e2,
                env_keys: k2,
                headers: h2,
                timeout: t2,
                socket: s2,
            },
        ) => {
            &&& u1@ == u2@
            &&& same_variables(pair_texts(e1@), pair_texts(e2@))
            &&& texts(k1@) == texts(k2@)
            &&& same_variables(pair_texts(h1@), pair_texts(h2@))
            &&& t1 == t2
            &&& text_opt(s1) == text_opt(s2)
        },
        (
            ExtensionKind::Frontend { tools: t1, instructions: i1 },
            ExtensionKind::Frontend { tools: t2, instructions: i2 },
        ) => same_tools(t1@, t2@) && text_opt(i1) == text_opt(i2),
        (
            ExtensionKind::InlinePython { code: c1, timeout: t1, dependencies: d1 },
            ExtensionKind::InlinePython { code: c2, timeout: t2, dependencies: d2 },
        ) => {
            &&& c1@ == c2@
            &&& t1 == t2
            &&& match (d1, d2) {
                (Some(x), Some(y)) => texts(x@) == texts(y@),
                (None, None) => true,
                _ => false,
            }
        },
        _ => false,
    }
}

/// Whether two configurations say the same.
pub open spec fn same_config(a: ExtensionConfig, b: ExtensionConfig) -> bool {
    &&& a.key@ == b.key@
    &&& a.name@ == b.name@
    &&& a.description@ == b.description@
    &&& a.bundled == b.bundled
    &&& texts(a.available_tools@) == texts(b.available_tools@)
    &&& same_kind(a.kind, b.kind)
}

/// A configuration says the same as itself.
pub proof fn lemma_same_config(a: ExtensionConfig)
    ensures
        same_config(a, a),
{
    if let ExtensionKind::Frontend { tools, .. } = a.kind {
        assert forall|i: int| 0 <= i < tools@.len() implies same_tool(
            (#[trigger] tools@[i])@,
            tools@[i]@,
        ) by {
            lemma_same_tool(tools@[i]@);
        }
    }
}

fn tools_same(a: &Vec<Tool>, b: &Vec<Tool>) -> (r: bool)
    ensures
        r == same_tools(a@, b@),
{
    if a.len() != b.len() {
        return false;
    }
    let mut i: usize = 0;
    while i < a.len()
        invariant
            i <= a@.len(),
            a@.len() == b@.len(),
            forall|j: int| 0 <= j < i ==> same_tool((#[trigger] a@[j])@, b@[j]@),
        decreases a@.len() - i,
    {
        if !a[i].same(&b[i]) {
            return false;
        }
        i = i + 1;
    }
    true
}

fn same_number(a: &Option<u64>, b: &Option<u64>) -> (r: bool)
    ensures
        r == (*a == *b),
{
    match (a, b) {
        (Some(x), Some(y)) => *x == *y,
        (None, None) => true,
        _ => false,
    }
}

fn kinds_same(a: &ExtensionKind, b: &ExtensionKind) -> (r: bool)
    ensures
        r == same_kind(*a, *b),
{
    match (a, b) {
        (ExtensionKind::Sse { address: x }, ExtensionKind::Sse { address: y }) => same_text(x, y),
        (
            ExtensionKind::Stdio { cmd: c1, args: a1, envs: e1, env_keys: k1, timeout: t1, cwd: d1 },
            ExtensionKind::Stdio { cmd: c2, args: a2, envs: e2, env_keys: k2, timeout: t2, cwd: d2 },
        ) => str_eq(c1.as_str(), c2.as_str()) && same_strings(a1, a2) && variables_same(e1, e2)
            && same_strings(k1, k2) && same_number(t1, t2) && same_text(d1, d2),
        (
            ExtensionKind::Builtin { display_name: n1, timeout: t1 },
            ExtensionKind::Builtin { display_name: n2, timeout: t2 },
        ) => same_text(n1, n2) && same_number(t1, t2),
        (
            ExtensionKind::Platform { display_name: n1 },
            ExtensionKind::Platform { display_name: n2 },
        ) => same_text(n1, n2),
        (
            ExtensionKind::StreamableHttp {
                uri: u1,
                envs: e1,
                env_keys: k1,
                headers: h1,
                timeout: t1,
                socket: s1,
            },
            ExtensionKind::StreamableHttp {
                uri: u2,
                envs: e2,
                env_keys: k2,
                headers: h2,
                timeout: t2,
                socket: s2,
            },
        ) => str_eq(u1.as_str(), u2.as_str()) && variables_same(e1, e2) && same_strings(k1, k2)
            && variables_same(h1, h2) && same_number(t1, t2) && same_text(s1, s2),
        (
            ExtensionKind::Frontend { tools: t1, instructions: i1 },
            ExtensionKind::Frontend { tools: t2, instructions: i2 },
        ) => tools_same(t1, t2) && same_text(i1, i2),
        (
            ExtensionKind::InlinePython { code: c1, timeout: t1, dependencies: d1 },
            ExtensionKind::InlinePython { code: c2, timeout: t2, dependencies: d2 },
        ) => {
            let dependencies = match (d1, d2) {
                (Some(x), Some(y)) => same_strings(x, y),
                (None, None) => true,
                _ => false,
            };
            str_eq(c1.as_str(), c2.as_str()) && same_number(t1, t2) && dependencies
        },
        _ => false,
    }
}

/// Whether a configuration lets a tool be used: each, where it lists none.
pub open spec fn tool_available(available: Seq<Seq<char>>, tool: Seq<char>) -> bool {
    available.len() == 0 || available.contains(tool)
}

impl ExtensionConfig {
    /// Whether two configurations say the same.
    pub fn same(&self, other: &ExtensionConfig) -> (r: bool)
        ensures
            r == same_config(*self, *other),
    {
        let bundled = match (&self.bundled, &other.bundled) {
            (Some(x), Some(y)) => *x == *y,
            (None, None) => true,
            _ => false,
        };
        str_eq(self.key.as_str(), other.key.as_str()) && str_eq(
            self.name.as_str(),
            other.name.as_str(),
        ) && str_eq(self.description.as_str(), other.description.as_str()) && bundled
            && same_strings(&self.available_tools, &other.available_tools) && kinds_same(
            &self.kind,
            &other.kind,
        )
    }

    /// Whether the tool may be used.
    pub fn is_tool_available(&self, tool: &str) -> (r: bool)
        ensures
            r == tool_available(texts(self.available_tools@), tool@),
    {
        self.available_tools.len() == 0 || contains_string(&self.available_tools, tool)
    }

    /// Whether the extension runs inside the agent, by the table of those that do.
    pub open spec fn runs_inside(&self, table: Seq<PlatformExtension>) -> bool {
        match self.kind {
            ExtensionKind::Platform { .. } => true,
            ExtensionKind::Builtin { .. } => platform_entry(table, self.key@) is Some,
            _ => false,
        }
    }

    /// Whether the names of its tools stand without a prefix.
    pub open spec fn unprefixed(&self, table: Seq<PlatformExtension>) -> bool {
        match self.kind {
            ExtensionKind::Platform { .. } | ExtensionKind::Builtin { .. } => match platform_entry(
                table,
                self.key@,
            ) {
                Some(e) => e.unprefixed_tools,
                None => false,
            },
            _ => false,
        }
    }
}

/// Whether the names of an extension's tools stand without a prefix.
pub fn is_unprefixed_extension(config: &ExtensionConfig, table: &Vec<PlatformExtension>) -> (r: bool)
    ensures
        r == config.unprefixed(table@),
{
    match config.kind {
        ExtensionKind::Platform { .. } => is_first_class_extension(config.key.as_str(), table),
        ExtensionKind::Builtin { .. } => is_first_class_extension(config.key.as_str(), table),
        _ => false,
    }
}

/// How long to wait for an extension, in seconds: as it says itself, else as configured, else the
/// default.
pub fn resolve_timeout(timeout: Option<u64>, configured: Option<u64>, default: u64) -> (r: u64)
    ensures
        r == match timeout {
            Some(t) => t,
            None => match configured {
                Some(t) => t,
                None => default,
            },
        },
{
    match timeout {
        Some(t) => t,
        None => match configured {
            Some(t) => t,
            None => default,
        },
    }
}

/// The directory that an extension works in: the one that is given, else that of the environment,
/// else the current one.
pub fn effective_working_dir(
    given: &Option<String>,
    environment: &Option<String>,
    current: &str,
) -> (r: String)
    ensures
        r@ == match text_opt(*given) {
            Some(d) => d,
            None => match text_opt(*environment) {
                Some(d) => d,
                None => current@,
            },
        },
{
    match given {
        Some(d) => d.clone(),
        None => match environment {
            Some(d) => d.clone(),
            None => current.to_owned(),
        },
    }
}

// ---------------------------------------------------------------------------
// Reaching an extension
// ---------------------------------------------------------------------------

/// How an extension is to be started.
#[derive(Debug, PartialEq, Eq)]
pub enum ClientPlan {
    /// Not at all, for this reason.
    Refused(String),
    /// By a connection to a server.
    Http { uri: String, headers: Vec<(String, String)>, socket: Option<String> },
    /// Inside the agent.
    Inside,
    /// As a server inside this process.
    Server,
    /// As a process. Where `search` is set, the program is looked for first.
    Process {
        program: String,
        search: bool,
        args: Vec<String>,
        envs: Vec<(String, String)>,
        working_dir: String,
    },
}

#[verifier::ext_equal]
pub enum PlanModel {
    Refused(Seq<char>),
    Http {
        uri: Seq<char>,
        headers: Seq<(Seq<char>, Seq<char>)>,
        socket: Option<Seq<char>>,
    },
    Inside,
    Server,
    Process {
        program: Seq<char>,
        search: bool,
        args: Seq<Seq<char>>,
        envs: Seq<(Seq<char>, Seq<char>)>,
        working_dir: Seq<char>,
    },
}

impl ClientPlan {
    pub open spec fn view(&self) -> PlanModel {
        match self {
            ClientPlan::Refused(s) => PlanModel::Refused(s@),
            ClientPlan::Http { uri, headers, socket } => PlanModel::Http {
                uri: uri@,
                headers: pair_texts(headers@),
                socket: text_opt(*socket),
            },
            ClientPlan::Inside => PlanModel::Inside,
            ClientPlan::Server => PlanModel::Server,
            ClientPlan::Process { program, search, args, envs, working_dir } => PlanModel::Process {
                program: program@,
                search: *search,
                args: texts(args@),
                envs: pair_texts(envs@),
                working_dir: working_dir@,
            },
        }
    }
}

/// A value with its variables filled in from an environment.
pub open spec fn filled(value: Seq<char>, env: Seq<(Seq<char>, Seq<char>)>) -> Seq<char> {
    crate::env::substituted(
        value,
        crate::env::places(crate::env::braces_pattern(), value),
        crate::env::places(crate::env::bare_pattern(), value),
        env,
    )
}

/// Headers with the variables in their values filled in.
pub open spec fn filled_headers(
    headers: Seq<(Seq<char>, Seq<char>)>,
    env: Seq<(Seq<char>, Seq<char>)>,
) -> Seq<(Seq<char>, Seq<char>)> {
    Seq::new(headers.len(), |i: int| (headers[i].0, filled(headers[i].1, env)))
}

fn fill_headers(headers: &Vec<(String, String)>, env: &Vec<(String, String)>) -> (r: Vec<
    (String, String),
>)
    ensures
        pair_texts(r@) == filled_headers(pair_texts(headers@), pair_texts(env@)),
{
    let mut out: Vec<(String, String)> = Vec::new();
    let mut i: usize = 0;
    while i < headers.len()
        invariant
            i <= headers@.len(),
            out@.len() == i,
            forall|j: int|
                0 <= j < i ==> (#[trigger] out@[j]).0@ == headers@[j].0@ && out@[j].1@ == filled(
                    headers@[j].1@,
                    pair_texts(env@),
                ),
        decreases headers@.len() - i,
    {
        let value = substitute_env_vars(headers[i].1.as_str(), env);
        out.push((headers[i].0.clone(), value));
        i = i + 1;
    }
    assert(pair_texts(out@) =~= filled_headers(pair_texts(headers@), pair_texts(env@)));
    out
}

/// An environment with one more variable: in the place of the one with its name, else at the end.
pub open spec fn with_variable(
    env: Seq<(Seq<char>, Seq<char>)>,
    name: Seq<char>,
    value: Seq<char>,
) -> Seq<(Seq<char>, Seq<char>)> {
    if env_value(env, name) is Some {
        revalued(env, name, value)
    } else {
        env.push((name, value))
    }
}

/// An environment with the value in place of each that the variable has.
pub open spec fn revalued(
    env: Seq<(Seq<char>, Seq<char>)>,
    name: Seq<char>,
    value: Seq<char>,
) -> Seq<(Seq<char>, Seq<char>)> {
    Seq::new(
        env.len(),
        |i: int|
            if env[i].0 == name {
                (name, value)
            } else {
                env[i]
            },
    )
}

/// An environment with one more variable.
pub fn set_variable(env: &Vec<(String, String)>, name: &str, value: &str) -> (r: Vec<(String, String)>)
    ensures
        pair_texts(r@) == with_variable(pair_texts(env@), name@, value@),
{
    let present = env_get(env, name).is_some();
    let mut out: Vec<(String, String)> = Vec::new();
    let mut i: usize = 0;
    while i < env.len()
        invariant
            i <= env@.len(),
            out@.len() == i,
            forall|j: int|
                0 <= j < i ==> (#[trigger] out@[j]).0@ == env@[j].0@ && out@[j].1@ == if present
                    && env@[j].0@ == name@ {
                    value@
                } else {
                    env@[j].1@
                },
        decreases env@.len() - i,
    {
        if present && str_eq(env[i].0.as_str(), name) {
            out.push((env[i].0.clone(), value.to_owned()));
        } else {
            out.push((env[i].0.clone(), env[i].1.clone()));
        }
        i = i + 1;
    }
    if present {
        assert(pair_texts(out@) =~= with_variable(pair_texts(env@), name@, value@));
    } else {
        assert(pair_texts(out@) =~= pair_texts(env@));
        out.push((name.to_owned(), value.to_owned()));
        assert(pair_texts(out@) =~= with_variable(pair_texts(env@), name@, value@));
    }
    out
}

/// The options that set variables inside a container.
pub open spec fn variable_options(env: Seq<(Seq<char>, Seq<char>)>) -> Seq<Seq<char>>
    decreases env.len(),
{
    if env.len() == 0 {
        Seq::empty()
    } else {
        variable_options(env.drop_last()).push("-e"@).push(env.last().0 + "="@ + env.last().1)
    }
}

/// The arguments of `docker` that start a command inside a container.
pub open spec fn docker_args(
    env: Seq<(Seq<char>, Seq<char>)>,
    container: Seq<char>,
    cmd: Seq<char>,
    args: Seq<Seq<char>>,
) -> Seq<Seq<char>> {
    seq!["exec"@, "-i"@] + variable_options(env) + seq![container, cmd] + args
}

fn push_texts(out: &mut Vec<String>, more: &Vec<String>)
    ensures
        texts(final(out)@) == texts(old(out)@) + texts(more@),
{
    let ghost before = texts(out@);
    let ghost mm = texts(more@);
    let mut i: usize = 0;
    assert(before + mm.take(0) =~= before);
    while i < more.len()
        invariant
            mm == texts(more@),
            i <= more@.len(),
            texts(out@) == before + mm.take(i as int),
        decreases more@.len() - i,
    {
        let ghost had = texts(out@);
        out.push(more[i].clone());
        assert(texts(out@) =~= had.push(mm[i as int]));
        assert(before + mm.take(i + 1) =~= had.push(mm[i as int]));
        i = i + 1;
    }
    assert(mm.take(i as int) =~= mm);
}

fn push_text(out: &mut Vec<String>, s: &str)
    ensures
        texts(final(out)@) == texts(old(out)@).push(s@),
{
    let ghost before = texts(out@);
    out.push(s.to_owned());
    assert(texts(out@) =~= before.push(s@));
}

/// The arguments of `docker` that start a command inside a container.
pub fn docker_arguments(
    env: &Vec<(String, String)>,
    container: &str,
    cmd: &str,
    args: &Vec<String>,
) -> (r: Vec<String>)
    ensures
        texts(r@) == docker_args(pair_texts(env@), container@, cmd@, texts(args@)),
{
    let ghost em = pair_texts(env@);
    let mut out: Vec<String> = Vec::new();
    push_text(&mut out, "exec");
    push_text(&mut out, "-i");
    let ghost head = seq!["exec"@, "-i"@];
    assert(texts(out@) =~= head);
    let mut i: usize = 0;
    assert(head + variable_options(em.take(0)) =~= head);
    while i < env.len()
        invariant
            em == pair_texts(env@),
            i <= env@.len(),
            texts(out@) == head + variable_options(em.take(i as int)),
        decreases env@.len() - i,
    {
        assert(em.take(i + 1).drop_last() =~= em.take(i as int));
        assert(em.take(i + 1).last() == (env@[i as int].0@, env@[i as int].1@));
        let ghost had = texts(out@);
        push_text(&mut out, "-e");
        let pair = cat3(env[i].0.as_str(), "=", env[i].1.as_str());
        push_text(&mut out, pair.as_str());
        assert(texts(out@) =~= had.push("-e"@).push(pair@));
        assert(head + variable_options(em.take(i + 1)) =~= had.push("-e"@).push(pair@));
        i = i + 1;
    }
    assert(em.take(i as int) =~= em);
    let ghost options = texts(out@);
    push_text(&mut out, container);
    push_text(&mut out, cmd);
    assert(texts(out@) =~= options + seq![container@, cmd@]);
    push_texts(&mut out, args);
    out
}

/// The arguments of `uvx` that run a Python program with what it depends on.
pub open spec fn python_args(dependencies: Seq<Seq<char>>, file: Seq<char>) -> Seq<Seq<char>> {
    seq!["--with"@, "mcp"@] + dependency_options(dependencies) + seq!["python"@, file]
}

pub open spec fn dependency_options(dependencies: Seq<Seq<char>>) -> Seq<Seq<char>>
    decreases dependencies.len(),
{
    if dependencies.len() == 0 {
        Seq::empty()
    } else {
        dependency_options(dependencies.drop_last()).push("--with"@).push(dependencies.last())
    }
}

/// The arguments of `uvx` that run a Python program with what it depends on.
pub fn python_arguments(dependencies: &Vec<String>, file: &str) -> (r: Vec<String>)
    ensures
        texts(r@) == python_args(texts(dependencies@), file@),
{
    let ghost dm = texts(dependencies@);
    let mut out: Vec<String> = Vec::new();
    push_text(&mut out, "--with");
    push_text(&mut out, "mcp");
    let ghost head = seq!["--with"@, "mcp"@];
    assert(texts(out@) =~= head);
    let mut i: usize = 0;
    assert(head + dependency_options(dm.take(0)) =~= head);
    while i < dependencies.len()
        invariant
            dm == texts(dependencies@),
            i <= dependencies@.len(),
            texts(out@) == head + dependency_options(dm.take(i as int)),
        decreases dependencies@.len() - i,
    {
        assert(dm.take(i + 1).drop_last() =~= dm.take(i as int));
        let ghost had = texts(out@);
        push_text(&mut out, "--with");
        push_text(&mut out, dependencies[i].as_str());
        assert(texts(out@) =~= had.push("--with"@).push(dm[i as int]));
        assert(head + dependency_options(dm.take(i + 1)) =~= had.push("--with"@).push(
            dm[i as int],
        ));
        i = i + 1;
    }
    assert(dm.take(i as int) =~= dm);
    let ghost options = texts(out@);
    push_text(&mut out, "python");
    push_text(&mut out, file);
    assert(texts(out@) =~= options + seq!["python"@, file@]);
    out
}

/// The name of the file that holds a Python program.
pub fn python_file_name(name: &str) -> (r: String)
    ensures
        r@ == name@ + ".py"@,
{
    cat(name, ".py")
}

/// The keys whose secrets belong to the environment of an extension, where it has one.
pub open spec fn own_environment(kind: ExtensionKind) -> Option<
    (Seq<(Seq<char>, Seq<char>)>, Seq<Seq<char>>),
> {
    match kind {
        ExtensionKind::Stdio { envs, env_keys, .. } => Some((pair_texts(envs@), texts(env_keys@))),
        ExtensionKind::StreamableHttp { envs, env_keys, .. } => Some(
            (pair_texts(envs@), texts(env_keys@)),
        ),
        _ => None,
    }
}

/// The variables that an extension sets itself and the keys of its secrets, where it has an
/// environment.
pub fn environment_of(config: &ExtensionConfig) -> (r: Option<(Vec<(String, String)>, Vec<String>)>)
    ensures
        match own_environment(config.kind) {
            Some(e) => r matches Some(v) && pair_texts(v.0@) == e.0 && texts(v.1@) == e.1,
            None => r is None,
        },
{
    match &config.kind {
        ExtensionKind::Stdio { envs, env_keys, .. } => Some((copy_env(envs), clone_strings(env_keys))),
        ExtensionKind::StreamableHttp { envs, env_keys, .. } => Some(
            (copy_env(envs), clone_strings(env_keys)),
        ),
        _ => None,
    }
}

/// Where an extension is started.
#[derive(Debug, PartialEq, Eq)]
pub struct StartContext {
    /// Whether a server of its key comes with the program.
    pub builtin_known: bool,
    /// The container to start it in.
    pub container: Option<String>,
    pub session_id: Option<String>,
    pub working_dir: String,
    /// The file that holds its program, for one that is given as text.
    pub python_file: String,
}

pub open spec fn stdio_env(env: Seq<(Seq<char>, Seq<char>)>, session_id: Option<Seq<char>>) -> Seq<
    (Seq<char>, Seq<char>),
> {
    match session_id {
        Some(id) => with_variable(env, "AGENT_SESSION_ID"@, id),
        None => env,
    }
}

pub open spec fn stdio_plan(
    cmd: Seq<char>,
    args: Seq<Seq<char>>,
    cwd: Option<Seq<char>>,
    env: Seq<(Seq<char>, Seq<char>)>,
    ctx: StartContext,
) -> PlanModel {
    let dir = match cwd {
        Some(d) => d,
        None => ctx.working_dir@,
    };
    match text_opt(ctx.container) {
        Some(id) => PlanModel::Process {
            program: "docker"@,
            search: false,
            args: docker_args(env, id, cmd, args),
            envs: Seq::empty(),
            working_dir: dir,
        },
        None => PlanModel::Process {
            program: cmd,
            search: true,
            args,
            envs: env,
            working_dir: dir,
        },
    }
}

pub open spec fn builtin_plan(
    key: Seq<char>,
    name: Seq<char>,
    ctx: StartContext,
    table: Seq<PlatformExtension>,
) -> PlanModel {
    if platform_entry(table, key) is Some {
        PlanModel::Inside
    } else if !ctx.builtin_known {
        PlanModel::Refused("Unknown extension: "@ + name)
    } else {
        match text_opt(ctx.container) {
            Some(id) => PlanModel::Process {
                program: "docker"@,
                search: false,
                args: docker_args(Seq::empty(), id, "goose"@, seq!["mcp"@, key]),
                envs: Seq::empty(),
                working_dir: ctx.working_dir@,
            },
            None => PlanModel::Server,
        }
    }
}

/// How an extension is to be started, where `env` is what is left of its environment once the
/// variables that no extension may set are gone.
pub open spec fn client_plan(
    config: ExtensionConfig,
    env: Seq<(Seq<char>, Seq<char>)>,
    ctx: StartContext,
    table: Seq<PlatformExtension>,
) -> PlanModel {
    match config.kind {
        ExtensionKind::Sse { .. } => PlanModel::Refused("SSE is unsupported, migrate to streamable_http"@),
        ExtensionKind::StreamableHttp { uri, headers, socket, .. } => PlanModel::Http {
            uri: filled(uri@, env),
            headers: filled_headers(pair_texts(headers@), env),
            socket: match text_opt(socket) {
                Some(s) => Some(filled(s, env)),
                None => None,
            },
        },
        ExtensionKind::Builtin { .. } | ExtensionKind::Platform { .. } => builtin_plan(
            config.key@,
            config.name@,
            ctx,
            table,
        ),
        ExtensionKind::Stdio { cmd, args, cwd, .. } => stdio_plan(
            cmd@,
            texts(args@),
            text_opt(cwd),
            stdio_env(env, text_opt(ctx.session_id)),
            ctx,
        ),
        ExtensionKind::InlinePython { dependencies, .. } => PlanModel::Process {
            program: "uvx"@,
            search: false,
            args: python_args(
                match dependencies {
                    Some(d) => texts(d@),
                    None => Seq::empty(),
                },
                ctx.python_file@,
            ),
            envs: Seq::empty(),
            working_dir: ctx.working_dir@,
        },
        ExtensionKind::Frontend { .. } => PlanModel::Refused(
            "Invalid extension type: Frontend extensions cannot be added as server extensions"@,
        ),
    }
}

fn plan_builtin(
    key: &str,
    name: &str,
    ctx: &StartContext,
    table: &Vec<PlatformExtension>,
) -> (r: ClientPlan)
    ensures
        r@ == builtin_plan(key@, name@, *ctx, table@),
{
    let inside = find_platform(table, key).is_some();
    if inside {
        ClientPlan::Inside
    } else if !ctx.builtin_known {
        ClientPlan::Refused(cat("Unknown extension: ", name))
    } else {
        match &ctx.container {
            Some(id) => {
                let none: Vec<(String, String)> = Vec::new();
                let mut tail: Vec<String> = Vec::new();
                push_text(&mut tail, "mcp");
                push_text(&mut tail, key);
                assert(texts(tail@) =~= seq!["mcp"@, key@]);
                let args = docker_arguments(&none, id.as_str(), "goose", &tail);
                assert(pair_texts(none@) =~= Seq::empty());
                ClientPlan::Process {
                    program: "docker".to_owned(),
                    search: false,
                    args,
                    envs: none,
                    working_dir: ctx.working_dir.clone(),
                }
            },
            None => ClientPlan::Server,
        }
    }
}

fn plan_stdio(
    cmd: &str,
    args: &Vec<String>,
    cwd: &Option<String>,
    env: Vec<(String, String)>,
    ctx: &StartContext,
) -> (r: ClientPlan)
    ensures
        r@ == stdio_plan(cmd@, texts(args@), text_opt(*cwd), pair_texts(env@), *ctx),
{
    let working_dir = match cwd {
        Some(d) => d.clone(),
        None => ctx.working_dir.clone(),
    };
    match &ctx.container {
        Some(id) => {
            let args = docker_arguments(&env, id.as_str(), cmd, args);
            let none: Vec<(String, String)> = Vec::new();
            assert(pair_texts(none@) =~= Seq::empty());
            ClientPlan::Process {
                program: "docker".to_owned(),
                search: false,
                args,
                envs: none,
                working_dir,
            }
        },
        None => ClientPlan::Process {
            program: cmd.to_owned(),
            search: true,
            args: clone_strings(args),
            envs: env,
            working_dir,
        },
    }
}

/// How an extension is to be started. `env` is its environment, where it has one: what is left of
/// the gathered variables once those that no extension may set are gone.
pub fn plan_client(
    config: &ExtensionConfig,
    env: Vec<(String, String)>,
    ctx: &StartContext,
    table: &Vec<PlatformExtension>,
) -> (r: ClientPlan)
    ensures
        r@ == client_plan(*config, pair_texts(env@), *ctx, table@),
{
    match &config.kind {
        ExtensionKind::Sse { .. } => ClientPlan::Refused(
            "SSE is unsupported, migrate to streamable_http".to_owned(),
        ),
        ExtensionKind::StreamableHttp { uri, headers, socket, .. } => ClientPlan::Http {
            uri: substitute_env_vars(uri.as_str(), &env),
            headers: fill_headers(headers, &env),
            socket: match socket {
                Some(s) => Some(substitute_env_vars(s.as_str(), &env)),
                None => None,
            },
        },
        ExtensionKind::Builtin { .. } => plan_builtin(
            config.key.as_str(),
            config.name.as_str(),
            ctx,
            table,
        ),
        ExtensionKind::Platform { .. } => plan_builtin(
            config.key.as_str(),
            config.name.as_str(),
            ctx,
            table,
        ),
        ExtensionKind::Stdio { cmd, args, cwd, .. } => {
            let env = match &ctx.session_id {
                Some(id) => set_variable(&env, "AGENT_SESSION_ID", id.as_str()),
                None => env,
            };
            plan_stdio(cmd.as_str(), args, cwd, env, ctx)
        },
        ExtensionKind::InlinePython { dependencies, .. } => {
            let nothing: Vec<String> = Vec::new();
            assert(texts(nothing@) =~= Seq::empty());
            let args = match dependencies {
                Some(d) => python_arguments(d, ctx.python_file.as_str()),
                None => python_arguments(&nothing, ctx.python_file.as_str()),
            };
            let none: Vec<(String, String)> = Vec::new();
            assert(pair_texts(none@) =~= Seq::empty());
            ClientPlan::Process {
                program: "uvx".to_owned(),
                search: false,
                args,
                envs: none,
                working_dir: ctx.working_dir.clone(),
            }
        },
        ExtensionKind::Frontend { .. } => ClientPlan::Refused(
            "Invalid extension type: Frontend extensions cannot be added as server extensions".to_owned(),
        ),
    }
}

/// A variable that was set has its value, and every other keeps the one it had.
pub proof fn law_set_variables_are_read_back(
    env: Seq<(Seq<char>, Seq<char>)>,
    name: Seq<char>,
    value: Seq<char>,
    other: Seq<char>,
)
    ensures
        env_value(with_variable(env, name, value), name) == Some(value),
        other != name ==> env_value(with_variable(env, name, value), other) == env_value(env, other),
{
    if env_value(env, name) is Some {
        lemma_replaced_variable(env, name, value, name);
        lemma_replaced_variable(env, name, value, other);
    } else {
        crate::env::law_variables_are_read_by_name(env, name, value, other);
    }
}

proof fn lemma_replaced_variable(
    env: Seq<(Seq<char>, Seq<char>)>,
    name: Seq<char>,
    value: Seq<char>,
    other: Seq<char>,
)
    ensures
        env_value(revalued(env, name, value), other) == if other == name && env_value(env, name)
            is Some {
            Some(value)
        } else {
            env_value(env, other)
        },
    decreases env.len(),
{
    if env.len() > 0 {
        let rest = env.skip(1);
        lemma_replaced_variable(rest, name, value, other);
        assert(revalued(env, name, value).skip(1) =~= revalued(rest, name, value));
    }
}

/// Which tools a configuration lets be used: all where it lists none, and else those that it lists.
pub proof fn law_listed_tools_may_be_used(available: Seq<Seq<char>>, tool: Seq<char>)
    ensures
        tool_available(Seq::empty(), tool),
        available.len() > 0 ==> (tool_available(available, tool) <==> available.contains(tool)),
{
}

/// Configurations that say the same start the same extension: of a process the command, its
/// arguments, every variable and the directory are the same; of a server its address and every
/// header. Extensions that are reached in different ways are never the same.
pub proof fn law_same_configurations_start_the_same(
    a: ExtensionConfig,
    b: ExtensionConfig,
    name: Seq<char>,
)
    requires
        same_config(a, b),
    ensures
        a.key@ == b.key@,
        a.name@ == b.name@,
        texts(a.available_tools@) == texts(b.available_tools@),
        a.kind matches ExtensionKind::Stdio { cmd, args, envs, env_keys, cwd, .. } ==> (b.kind
            matches ExtensionKind::Stdio {
            cmd: cmd2,
            args: args2,
            envs: envs2,
            env_keys: keys2,
            cwd: cwd2,
            ..
        } && cmd@ == cmd2@ && texts(args@) == texts(args2@) && env_value(pair_texts(envs@), name)
            == env_value(pair_texts(envs2@), name) && texts(env_keys@) == texts(keys2@) && text_opt(
            cwd,
        ) == text_opt(cwd2)),
        a.kind matches ExtensionKind::StreamableHttp { uri, headers, envs, .. } ==> (b.kind
            matches ExtensionKind::StreamableHttp { uri: uri2, headers: headers2, envs: envs2, .. }
            && uri@ == uri2@ && env_value(pair_texts(headers@), name) == env_value(
            pair_texts(headers2@),
            name,
        ) && env_value(pair_texts(envs@), name) == env_value(pair_texts(envs2@), name)),
        a.kind matches ExtensionKind::InlinePython { code, .. } ==> (b.kind
            matches ExtensionKind::InlinePython { code: code2, .. } && code@ == code2@),
        a.kind is Sse <==> b.kind is Sse,
        a.kind is Builtin <==> b.kind is Builtin,
        a.kind is Platform <==> b.kind is Platform,
        a.kind is Frontend <==> b.kind is Frontend,
{
}

/// What is refused to be started: server-sent events, the frontend's extensions, and a built-in one
/// that nobody knows.
pub proof fn law_which_extensions_are_refused(
    config: ExtensionConfig,
    env: Seq<(Seq<char>, Seq<char>)>,
    ctx: StartContext,
    table: Seq<PlatformExtension>,
)
    ensures
        client_plan(config, env, ctx, table) is Refused <==> {
            ||| config.kind is Sse
            ||| config.kind is Frontend
            ||| ((config.kind is Builtin || config.kind is Platform) && platform_entry(
                table,
                config.key@,
            ) is None && !ctx.builtin_known)
        },
        client_plan(config, env, ctx, table) is Inside <==> (config.kind is Builtin || config.kind
            is Platform) && platform_entry(table, config.key@) is Some,
        client_plan(config, env, ctx, table) is Http <==> config.kind is StreamableHttp,
        client_plan(config, env, ctx, table) is Server <==> (config.kind is Builtin || config.kind
            is Platform) && platform_entry(table, config.key@) is None && ctx.builtin_known
            && ctx.container is None,
{
}

/// A process is started by its own command with its own arguments, in its own directory or else the
/// session's, and learns the session where there is one. In a container the same command runs
/// there, after the container's name, and every variable is handed over.
pub proof fn law_processes_are_started_as_configured(
    config: ExtensionConfig,
    env: Seq<(Seq<char>, Seq<char>)>,
    ctx: StartContext,
    table: Seq<PlatformExtension>,
)
    requires
        config.kind is Stdio,
    ensures
        client_plan(config, env, ctx, table) matches PlanModel::Process {
            program,
            search,
            args,
            envs,
            working_dir,
        } && {
            let own = texts(config.kind->Stdio_args@);
            &&& config.kind->cwd matches Some(d) ==> working_dir == d@
            &&& config.kind->cwd is None ==> working_dir == ctx.working_dir@
            &&& ctx.container is None ==> program == config.kind->cmd@ && search && args == own
                && (ctx.session_id matches Some(id) ==> env_value(envs, "AGENT_SESSION_ID"@)
                == Some(id@)) && (ctx.session_id is None ==> envs == env)
            &&& ctx.container matches Some(id) ==> program == "docker"@ && args.len() >= own.len()
                + 2 && args.skip(args.len() - own.len()) == own && args[args.len() - own.len() - 1]
                == config.kind->cmd@ && args[args.len() - own.len() - 2] == id@
        },
{
    let own = texts(config.kind->Stdio_args@);
    let with_session = stdio_env(env, text_opt(ctx.session_id));
    if let Some(id) = ctx.session_id {
        law_set_variables_are_read_back(env, "AGENT_SESSION_ID"@, id@, id@);
    }
    if let Some(id) = ctx.container {
        let cmd = config.kind->cmd@;
        let all = docker_args(with_session, id@, cmd, own);
        let head = seq!["exec"@, "-i"@] + variable_options(with_session);
        assert(all =~= head + seq![id@, cmd] + own);
        assert(all.skip(all.len() - own.len()) =~= own);
    }
}

/// Every variable is handed over to a container, as its name and its value.
pub proof fn law_containers_get_every_variable(
    env: Seq<(Seq<char>, Seq<char>)>,
    container: Seq<char>,
    cmd: Seq<char>,
    args: Seq<Seq<char>>,
    k: int,
)
    requires
        0 <= k < env.len(),
    ensures
        variable_options(env).len() == 2 * env.len(),
        variable_options(env)[2 * k] == "-e"@,
        variable_options(env)[2 * k + 1] == env[k].0 + "="@ + env[k].1,
        docker_args(env, container, cmd, args)[2 + 2 * k + 1] == env[k].0 + "="@ + env[k].1,
{
    lemma_variable_options(env, k);
    let options = variable_options(env);
    let all = docker_args(env, container, cmd, args);
    assert(all[2 + (2 * k + 1)] == options[2 * k + 1]);
}

proof fn lemma_variable_options(env: Seq<(Seq<char>, Seq<char>)>, k: int)
    requires
        0 <= k < env.len(),
    ensures
        variable_options(env).len() == 2 * env.len(),
        variable_options(env)[2 * k] == "-e"@,
        variable_options(env)[2 * k + 1] == env[k].0 + "="@ + env[k].1,
    decreases env.len(),
{
    let front = env.drop_last();
    if front.len() > 0 {
        let i = if k < front.len() {
            k
        } else {
            0
        };
        lemma_variable_options(front, i);
        assert(front[i] == env[i]);
    } else {
        assert(variable_options(front).len() == 0);
    }
}

/// A Python program runs with everything that it depends on, and its file comes last.
pub proof fn law_python_programs_get_their_dependencies(
    dependencies: Seq<Seq<char>>,
    file: Seq<char>,
    k: int,
)
    ensures
        python_args(dependencies, file).last() == file,
        0 <= k < dependencies.len() ==> python_args(dependencies, file).contains(dependencies[k]),
        python_args(dependencies, file).len() == 4 + 2 * dependencies.len(),
{
    lemma_dependency_options(dependencies, k);
    let options = dependency_options(dependencies);
    let all = python_args(dependencies, file);
    if 0 <= k < dependencies.len() {
        assert(all[2 + (2 * k + 1)] == options[2 * k + 1]);
    }
}

proof fn lemma_dependency_options(dependencies: Seq<Seq<char>>, k: int)
    ensures
        dependency_options(dependencies).len() == 2 * dependencies.len(),
        0 <= k < dependencies.len() ==> dependency_options(dependencies)[2 * k + 1]
            == dependencies[k],
    decreases dependencies.len(),
{
    if dependencies.len() > 0 {
        let front = dependencies.drop_last();
        lemma_dependency_options(front, k);
        if k < front.len() && k >= 0 {
            assert(front[k] == dependencies[k]);
        }
    }
}

/// A server on the net is reached at its address, with every header under its own name; variables
/// are filled into the values only.
pub proof fn law_servers_are_reached_at_their_address(
    config: ExtensionConfig,
    env: Seq<(Seq<char>, Seq<char>)>,
    ctx: StartContext,
    table: Seq<PlatformExtension>,
    i: int,
)
    requires
        config.kind is StreamableHttp,
    ensures
        client_plan(config, env, ctx, table) matches PlanModel::Http { uri, headers, socket } && {
            let own = pair_texts(config.kind->headers@);
            &&& uri == filled(config.kind->uri@, env)
            &&& headers.len() == own.len()
            &&& 0 <= i < own.len() ==> headers[i].0 == own[i].0 && headers[i].1 == filled(
                own[i].1,
                env,
            )
            &&& socket is Some <==> config.kind->socket is Some
        },
{
}

/// Which extensions run inside the agent, and whose tools keep their names: only those of the
/// platform, by their key in its table.
pub proof fn law_platform_extensions_run_inside(
    config: ExtensionConfig,
    table: Seq<PlatformExtension>,
)
    ensures
        config.kind is Platform ==> config.runs_inside(table),
        config.kind is Builtin ==> (config.runs_inside(table) <==> platform_entry(
            table,
            config.key@,
        ) is Some),
        !(config.kind is Platform || config.kind is Builtin) ==> !config.runs_inside(table)
            && !config.unprefixed(table),
        platform_entry(table, config.key@) is None ==> !config.unprefixed(table),
        (config.kind is Platform || config.kind is Builtin) ==> (platform_entry(table, config.key@)
            matches Some(e) ==> (config.unprefixed(table) <==> e.unprefixed_tools)),
{
}

/// Which extensions have an environment: processes and servers on the net, each with the variables
/// and the keys of its configuration; no other has one.
pub proof fn law_who_has_an_environment(kind: ExtensionKind)
    ensures
        own_environment(kind) is Some <==> kind is Stdio || kind is StreamableHttp,
        kind matches ExtensionKind::Stdio { envs, env_keys, .. } ==> own_environment(kind) == Some(
            (pair_texts(envs@), texts(env_keys@)),
        ),
        kind matches ExtensionKind::StreamableHttp { envs, env_keys, .. } ==> own_environment(kind)
            == Some((pair_texts(envs@), texts(env_keys@))),
{
}

/// A Python program is run by `uvx` from its file, in the session's directory; a built-in server in
/// a container is that of its key.
pub proof fn law_programs_are_run(
    config: ExtensionConfig,
    env: Seq<(Seq<char>, Seq<char>)>,
    ctx: StartContext,
    table: Seq<PlatformExtension>,
)
    ensures
        config.kind is InlinePython ==> (client_plan(config, env, ctx, table)
            matches PlanModel::Process { program, args, working_dir, .. } && program == "uvx"@
            && args.last() == ctx.python_file@ && working_dir == ctx.working_dir@),
        (config.kind is Builtin || config.kind is Platform) && platform_entry(table, config.key@)
            is None && ctx.builtin_known ==> (ctx.container matches Some(id) ==> (client_plan(
            config,
            env,
            ctx,
            table,
        ) matches PlanModel::Process { program, args, .. } && program == "docker"@ && args.last()
            == config.key@ && args.contains(id@))),
{
    if let ExtensionKind::InlinePython { dependencies, .. } = config.kind {
        law_python_programs_get_their_dependencies(
            match dependencies {
                Some(d) => texts(d@),
                None => Seq::empty(),
            },
            ctx.python_file@,
            0,
        );
    }
    if let Some(id) = ctx.container {
        let all = docker_args(Seq::empty(), id@, "goose"@, seq!["mcp"@, config.key@]);
        assert(variable_options(Seq::empty()) =~= Seq::empty());
        assert(all[2] == id@);
        assert(all.contains(id@));
    }
}

} // verus!
