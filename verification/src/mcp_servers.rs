//! The servers that plugins bring along.

use crate::env::env_value;
use crate::extensions::{set_variable, with_variable, ExtensionConfig, ExtensionKind};
use crate::hooks::{expand_plugin_root, pair_texts};
use crate::json::{members, Json, Tree};
use crate::paths::{below, is_path_among, join_path, path_among, same_path};
use crate::text::{
    begins, cat3, ends, has_text, is_order, lemma_has_text, replaced, sort_order, sorts_before,
    str_eq, text_opt, texts, trim, trimmed,
};
use vstd::prelude::*;
use vstd::string::*;

verus! {

broadcast use {crate::json::lemma_array_view, crate::json::lemma_object_view};

/// A server of a plugin, as it is written down.
#[derive(Debug, PartialEq, Eq)]
pub struct McpServerConfig {
    pub command: String,
    pub args: Vec<String>,
    pub env: Vec<(String, String)>,
    pub cwd: Option<String>,
}

/// What every server of a plugin gets.
#[derive(Debug, PartialEq, Eq)]
pub struct ServerDefaults {
    pub description: String,
    pub timeout: u64,
}

/// A server of a plugin with the plugin's root filled in. Its variables are those that it asks
/// for.
#[derive(Debug, PartialEq, Eq)]
pub struct PluginServer {
    pub name: String,
    pub description: String,
    pub cmd: String,
    pub args: Vec<String>,
    pub envs: Vec<(String, String)>,
    pub timeout: u64,
    pub cwd: Option<String>,
}

#[verifier::ext_equal]
pub struct ServerModel {
    pub name: Seq<char>,
    pub description: Seq<char>,
    pub cmd: Seq<char>,
    pub args: Seq<Seq<char>>,
    pub envs: Seq<(Seq<char>, Seq<char>)>,
    pub timeout: u64,
    pub cwd: Option<Seq<char>>,
}

impl PluginServer {
    pub open spec fn view(&self) -> ServerModel {
        ServerModel {
            name: self.name@,
            description: self.description@,
            cmd: self.cmd@,
            args: texts(self.args@),
            envs: pair_texts(self.envs@),
            timeout: self.timeout,
            cwd: text_opt(self.cwd),
        }
    }

    /// The configuration of the server as an extension, under the key of its name. `envs` is what
    /// is left of its variables once those that no extension may set are gone.
    pub fn into_config(self, key: String, envs: Vec<(String, String)>) -> (r: ExtensionConfig)
        ensures
            r.key@ == key@,
            r.name@ == self@.name,
            r.description@ == self@.description,
            r.bundled == Some(false),
            r.available_tools@.len() == 0,
            r.kind matches ExtensionKind::Stdio {
                cmd,
                args,
                envs: kept,
                env_keys,
                timeout,
                cwd,
            } && cmd@ == self@.cmd && texts(args@) == self@.args && kept@ == envs@ && env_keys@.len() == 0 && timeout == Some(self@.timeout) && text_opt(cwd)
                == self@.cwd,
    {
        ExtensionConfig {
            key,
            name: self.name,
            description: self.description,
            bundled: Some(false),
            available_tools: Vec::new(),
            kind: ExtensionKind::Stdio {
                cmd: self.cmd,
                args: self.args,
                envs,
                env_keys: Vec::new(),
                timeout: Some(self.timeout),
                cwd: self.cwd,
            },
        }
    }
}

pub open spec fn server_models(v: Seq<PluginServer>) -> Seq<ServerModel> {
    Seq::new(v.len(), |i: int| v[i]@)
}

/// A text with the plugin's root filled in.
pub open spec fn plugin_root_expanded(s: Seq<char>, root: Seq<char>) -> Seq<char> {
    replaced(s, "${PLUGIN_ROOT}"@, root)
}

/// The variables of a server: the plugin's root, and its own with the root filled in.
pub open spec fn server_env(root: Seq<char>, env: Seq<(Seq<char>, Seq<char>)>) -> Seq<
    (Seq<char>, Seq<char>),
>
    decreases env.len(),
{
    if env.len() == 0 {
        seq![("PLUGIN_ROOT"@, root)]
    } else {
        with_variable(
            server_env(root, env.drop_last()),
            env.last().0,
            plugin_root_expanded(env.last().1, root),
        )
    }
}

/// A server of a plugin with the plugin's root filled in.
pub open spec fn server_model(
    plugin: Seq<char>,
    root: Seq<char>,
    name: Seq<char>,
    server: McpServerConfig,
    defaults: ServerDefaults,
) -> ServerModel {
    ServerModel {
        name: plugin + ":"@ + name,
        description: defaults.description@,
        cmd: plugin_root_expanded(server.command@, root),
        args: Seq::new(
            server.args@.len(),
            |i: int| plugin_root_expanded(server.args@[i]@, root),
        ),
        envs: server_env(root, pair_texts(server.env@)),
        timeout: defaults.timeout,
        cwd: match text_opt(server.cwd) {
            Some(d) => Some(plugin_root_expanded(d, root)),
            None => None,
        },
    }
}

fn env_of(root: &str, env: &Vec<(String, String)>) -> (r: Vec<(String, String)>)
    ensures
        pair_texts(r@) == server_env(root@, pair_texts(env@)),
{
    let ghost all = pair_texts(env@);
    let mut out: Vec<(String, String)> = Vec::new();
    out.push(("PLUGIN_ROOT".to_owned(), root.to_owned()));
    assert(pair_texts(out@) =~= server_env(root@, all.take(0)));
    let mut i: usize = 0;
    while i < env.len()
        invariant
            all == pair_texts(env@),
            i <= env@.len(),
            pair_texts(out@) == server_env(root@, all.take(i as int)),
        decreases env@.len() - i,
    {
        assert(all.take(i + 1).drop_last() =~= all.take(i as int));
        assert(all.take(i + 1).last() == (env@[i as int].0@, env@[i as int].1@));
        let value = expand_plugin_root(env[i].1.as_str(), root);
        out = set_variable(&out, env[i].0.as_str(), value.as_str());
        i = i + 1;
    }
    assert(all.take(i as int) =~= all);
    out
}

/// A server of a plugin with the plugin's root filled in.
pub fn server_to_extension_config(
    plugin_name: &str,
    plugin_root: &str,
    server_name: &str,
    server: &McpServerConfig,
    defaults: &ServerDefaults,
) -> (r: PluginServer)
    ensures
        r@ == server_model(plugin_name@, plugin_root@, server_name@, *server, *defaults),
{
    let mut args: Vec<String> = Vec::new();
    let mut i: usize = 0;
    while i < server.args.len()
        invariant
            i <= server.args@.len(),
            args@.len() == i,
            forall|j: int|
                0 <= j < i ==> (#[trigger] args@[j])@ == plugin_root_expanded(
                    server.args@[j]@,
                    plugin_root@,
                ),
        decreases server.args@.len() - i,
    {
        args.push(expand_plugin_root(server.args[i].as_str(), plugin_root));
        i = i + 1;
    }
    let r = PluginServer {
        name: cat3(plugin_name, ":", server_name),
        description: defaults.description.clone(),
        cmd: expand_plugin_root(server.command.as_str(), plugin_root),
        args,
        envs: env_of(plugin_root, &server.env),
        timeout: defaults.timeout,
        cwd: match &server.cwd {
            Some(d) => Some(expand_plugin_root(d.as_str(), plugin_root)),
            None => None,
        },
    };
    assert(r@.args =~= server_model(
        plugin_name@,
        plugin_root@,
        server_name@,
        *server,
        *defaults,
    ).args);
    r
}

pub open spec fn server_names(v: Seq<(String, McpServerConfig)>) -> Seq<Seq<char>> {
    Seq::new(v.len(), |i: int| v[i].0@)
}

/// The servers of a plugin in the order of their names.
pub open spec fn ordered_servers(
    plugin: Seq<char>,
    root: Seq<char>,
    servers: Seq<(String, McpServerConfig)>,
    defaults: ServerDefaults,
    order: Seq<usize>,
) -> Seq<ServerModel> {
    Seq::new(
        order.len(),
        |i: int|
            server_model(
                plugin,
                root,
                servers[order[i] as int].0@,
                servers[order[i] as int].1,
                defaults,
            ),
    )
}

/// The servers of a plugin in the order of their names.
pub fn document_to_extension_configs(
    plugin_name: &str,
    plugin_root: &str,
    servers: &Vec<(String, McpServerConfig)>,
    defaults: &ServerDefaults,
) -> (r: Vec<PluginServer>)
    ensures
        exists|order: Seq<usize>|
            #![trigger is_order(server_names(servers@), order)]
            is_order(server_names(servers@), order) && server_models(r@) == ordered_servers(
                plugin_name@,
                plugin_root@,
                servers@,
                *defaults,
                order,
            ),
{
    let mut names: Vec<String> = Vec::new();
    let mut i: usize = 0;
    while i < servers.len()
        invariant
            i <= servers@.len(),
            names@.len() == i,
            forall|j: int| 0 <= j < i ==> (#[trigger] names@[j])@ == servers@[j].0@,
        decreases servers@.len() - i,
    {
        names.push(servers[i].0.clone());
        i = i + 1;
    }
    assert(texts(names@) =~= server_names(servers@));
    let order = sort_order(&names);
    let mut out: Vec<PluginServer> = Vec::new();
    let mut k: usize = 0;
    while k < order.len()
        invariant
            is_order(server_names(servers@), order@),
            k <= order@.len(),
            out@.len() == k,
            forall|j: int|
                0 <= j < k ==> (#[trigger] out@[j])@ == server_model(
                    plugin_name@,
                    plugin_root@,
                    servers@[order@[j] as int].0@,
                    servers@[order@[j] as int].1,
                    *defaults,
                ),
        decreases order@.len() - k,
    {
        let n: usize = order[k];
        assert(order@[k as int] < server_names(servers@).len());
        out.push(
            server_to_extension_config(
                plugin_name,
                plugin_root,
                servers[n].0.as_str(),
                &servers[n].1,
                defaults,
            ),
        );
        k = k + 1;
    }
    assert(server_models(out@) =~= ordered_servers(
        plugin_name@,
        plugin_root@,
        servers@,
        *defaults,
        order@,
    ));
    out
}

// ---------------------------------------------------------------------------
// Where the servers are written down
// ---------------------------------------------------------------------------

/// Whether a member does not belong to a list of paths.
pub open spec fn is_server_member(m: (Seq<char>, Tree)) -> bool {
    m.0 != "paths"@ && m.0 != "exclusive"@
}

/// Whether one of the members does not belong to a list of paths.
pub open spec fn has_server_member(ms: Seq<(Seq<char>, Tree)>) -> bool {
    exists|i: int| 0 <= i < ms.len() && is_server_member(#[trigger] ms[i])
}

/// Whether a manifest's value holds the servers themselves: it is an object with a member that
/// does not belong to a list of paths.
pub open spec fn holds_servers(value: Tree) -> bool {
    match value {
        Tree::Object(ms) => has_server_member(ms),
        _ => false,
    }
}

/// Whether a manifest's value holds the servers themselves.
pub fn is_inline_config(value: &Json) -> (r: bool)
    ensures
        r == holds_servers(value@),
{
    match value {
        Json::Object(ms) => {
            let ghost mm = members(ms@);
            assert(value@ == Tree::Object(mm));
            let mut i: usize = 0;
            while i < ms.len()
                invariant
                    mm == members(ms@),
                    value@ == Tree::Object(mm),
                    i <= ms@.len(),
                    forall|j: int| 0 <= j < i ==> !is_server_member(#[trigger] mm[j]),
                decreases ms@.len() - i,
            {
                assert(mm[i as int].0 == ms@[i as int].key@);
                if !str_eq(ms[i].key.as_str(), "paths") && !str_eq(ms[i].key.as_str(), "exclusive") {
                    assert(is_server_member(mm[i as int]));
                    assert(has_server_member(mm));
                    return true;
                }
                i = i + 1;
            }
            assert(!has_server_member(mm));
            false
        },
        _ => false,
    }
}

/// The paths without those that were there before, however they are written.
pub open spec fn first_of_each(v: Seq<Seq<char>>) -> Seq<Seq<char>>
    decreases v.len(),
{
    if v.len() == 0 {
        Seq::empty()
    } else {
        let head = first_of_each(v.drop_last());
        if path_among(v.last(), head) {
            head
        } else {
            head.push(v.last())
        }
    }
}

/// The files that may hold servers: the plugin's usual one, unless the manifest excludes it, and
/// those that the manifest names, each once.
pub open spec fn config_paths(
    root: Seq<char>,
    exclusive: bool,
    custom: Seq<Seq<char>>,
) -> Seq<Seq<char>> {
    first_of_each(
        (if exclusive {
            Seq::empty()
        } else {
            seq![below(root, ".mcp.json"@)]
        }) + Seq::new(custom.len(), |i: int| below(root, custom[i])),
    )
}

/// The files that may hold servers. `custom` are the paths that the manifest names, below the
/// plugin's root.
pub fn mcp_config_paths(plugin_root: &str, exclusive: bool, custom: &Vec<String>) -> (r: Vec<
    String,
>)
    ensures
        texts(r@) == config_paths(plugin_root@, exclusive, texts(custom@)),
{
    let ghost cm = texts(custom@);
    let mut all: Vec<String> = Vec::new();
    if !exclusive {
        all.push(join_path(plugin_root, ".mcp.json"));
    }
    let ghost head = if exclusive {
        Seq::empty()
    } else {
        seq![below(plugin_root@, ".mcp.json"@)]
    };
    assert(texts(all@) =~= head);
    let mut i: usize = 0;
    let ghost named = Seq::new(cm.len(), |i: int| below(plugin_root@, cm[i]));
    assert(head + named.take(0) =~= head);
    while i < custom.len()
        invariant
            cm == texts(custom@),
            named == Seq::new(cm.len(), |i: int| below(plugin_root@, cm[i])),
            i <= custom@.len(),
            texts(all@) == head + named.take(i as int),
        decreases custom@.len() - i,
    {
        let ghost before = texts(all@);
        let p = join_path(plugin_root, custom[i].as_str());
        all.push(p);
        assert(texts(all@) =~= before.push(p@));
        assert(head + named.take(i + 1) =~= before.push(p@));
        i = i + 1;
    }
    assert(named.take(i as int) =~= named);
    let ghost am = texts(all@);
    let mut out: Vec<String> = Vec::new();
    let mut k: usize = 0;
    assert(texts(out@) =~= first_of_each(am.take(0)));
    while k < all.len()
        invariant
            am == texts(all@),
            k <= all@.len(),
            texts(out@) == first_of_each(am.take(k as int)),
        decreases all@.len() - k,
    {
        assert(am.take(k + 1).drop_last() =~= am.take(k as int));
        if !is_path_among(all[k].as_str(), &out) {
            let ghost before = texts(out@);
            out.push(all[k].clone());
            assert(texts(out@) =~= before.push(am[k as int]));
        }
        k = k + 1;
    }
    assert(am.take(k as int) =~= am);
    out
}

/// No file is read twice, and none is left out.
pub proof fn law_paths_are_read_once(v: Seq<Seq<char>>)
    ensures
        forall|i: int, j: int|
            0 <= i < j < first_of_each(v).len() ==> !same_path(
                #[trigger] first_of_each(v)[i],
                #[trigger] first_of_each(v)[j],
            ),
        forall|i: int| 0 <= i < v.len() ==> path_among(#[trigger] v[i], first_of_each(v)),
    decreases v.len(),
{
    if v.len() > 0 {
        law_paths_are_read_once(v.drop_last());
        let head = first_of_each(v.drop_last());
        let all = first_of_each(v);
        assert forall|i: int| 0 <= i < v.len() implies path_among(#[trigger] v[i], all) by {
            if i < v.len() - 1 {
                assert(v.drop_last()[i] == v[i]);
                let j = choose|j: int| 0 <= j < head.len() && same_path(v[i], #[trigger] head[j]);
                assert(same_path(v[i], all[j]));
            } else if !path_among(v.last(), head) {
                assert(same_path(v[i], all[head.len() as int]));
            }
        }
        assert forall|i: int, j: int| 0 <= i < j < all.len() implies !same_path(
            #[trigger] all[i],
            #[trigger] all[j],
        ) by {
            assert(all[i] == head[i]);
            if j < head.len() {
                assert(all[j] == head[j]);
            } else {
                assert(!same_path(v.last(), head[i]));
            }
        }
    }
}

// ---------------------------------------------------------------------------
// Checking
// ---------------------------------------------------------------------------

/// What is wrong with the first server whose command is blank.
pub open spec fn server_problem(servers: Seq<(String, McpServerConfig)>) -> Option<Seq<char>>
    decreases servers.len(),
{
    if servers.len() == 0 {
        None
    } else if trimmed(servers[0].1.command@).len() == 0 {
        Some(
            "Open Plugins MCP server '"@ + servers[0].0@ + "' command must not be empty"@,
        )
    } else {
        server_problem(servers.skip(1))
    }
}

/// Whether each server has a command; an error tells the first that has none.
pub fn validate_servers(servers: &Vec<(String, McpServerConfig)>) -> (r: Result<(), String>)
    ensures
        match server_problem(servers@) {
            Some(m) => r matches Err(e) && e@ == m,
            None => r is Ok,
        },
{
    let ghost all = servers@;
    let mut i: usize = 0;
    assert(all.skip(0) =~= all);
    while i < servers.len()
        invariant
            all == servers@,
            i <= all.len(),
            server_problem(all) == server_problem(all.skip(i as int)),
        decreases all.len() - i,
    {
        assert(all.skip(i as int)[0] == all[i as int]);
        assert(all.skip(i as int).skip(1) =~= all.skip(i + 1));
        let command = trim(servers[i].1.command.as_str());
        if command.as_str().is_empty() {
            return Err(
                cat3(
                    "Open Plugins MCP server '",
                    servers[i].0.as_str(),
                    "' command must not be empty",
                ),
            );
        }
        i = i + 1;
    }
    Ok(())
}

/// Whether the servers of a manifest can be used. `inline` are the servers that the value holds,
/// or why it holds none, and `paths` is what is wrong with it as a list of paths.
pub fn validate_mcp_servers_manifest_value(
    value: &Json,
    inline: Result<Vec<(String, McpServerConfig)>, String>,
    paths: Result<(), String>,
) -> (r: Result<(), String>)
    ensures
        if holds_servers(value@) {
            match inline {
                Ok(v) => match server_problem(v@) {
                    Some(m) => r matches Err(e) && e@ == m,
                    None => r is Ok,
                },
                Err(m) => r matches Err(e) && e@ == m@,
            }
        } else {
            r == paths
        },
{
    if is_inline_config(value) {
        match inline {
            Ok(v) => validate_servers(&v),
            Err(e) => Err(e),
        }
    } else {
        paths
    }
}

/// The servers of several plugins: those of a plugin that could not be read are left out.
pub open spec fn loaded_servers(v: Seq<Result<Vec<PluginServer>, String>>) -> Seq<ServerModel>
    decreases v.len(),
{
    if v.len() == 0 {
        Seq::empty()
    } else {
        let head = loaded_servers(v.drop_last());
        match v.last() {
            Ok(s) => head + server_models(s@),
            Err(_) => head,
        }
    }
}

/// The servers of several plugins, in their order. Those of a plugin that could not be read are
/// left out.
pub fn enabled_plugin_mcp_servers(loaded: Vec<Result<Vec<PluginServer>, String>>) -> (r: Vec<
    PluginServer,
>)
    ensures
        server_models(r@) == loaded_servers(loaded@),
{
    let ghost all = loaded@;
    let mut rest = loaded;
    let mut out: Vec<PluginServer> = Vec::new();
    let ghost mut k: int = 0;
    assert(server_models(out@) =~= loaded_servers(all.take(0)));
    assert(all.skip(0) =~= all);
    while rest.len() > 0
        invariant
            0 <= k <= all.len(),
            rest@ == all.skip(k),
            server_models(out@) == loaded_servers(all.take(k)),
        decreases rest@.len(),
    {
        assert(all.take(k + 1).drop_last() =~= all.take(k));
        assert(all.take(k + 1).last() == rest@[0]);
        let next = rest.remove(0);
        assert(rest@ =~= all.skip(k + 1));
        if let Ok(s) = next {
            let ghost before = server_models(out@);
            let ghost sm = server_models(s@);
            let mut more = s;
            let ghost had = out@;
            let ghost sv = more@;
            out.append(&mut more);
            assert(server_models(out@) =~= before + sm);
        }
        proof {
            k = k + 1;
        }
    }
    assert(all.take(k) =~= all);
    out
}

/// Every server of a plugin learns the plugin's root, unless it sets that variable itself, and has
/// its own variables with the root filled in; of two with one name the later counts.
pub proof fn law_servers_learn_the_plugins_root(
    root: Seq<char>,
    env: Seq<(Seq<char>, Seq<char>)>,
    name: Seq<char>,
    value: Seq<char>,
    other: Seq<char>,
)
    ensures
        (forall|i: int| 0 <= i < env.len() ==> (#[trigger] env[i]).0 != "PLUGIN_ROOT"@)
            ==> env_value(server_env(root, env), "PLUGIN_ROOT"@) == Some(root),
        env_value(server_env(root, env.push((name, value))), name) == Some(
            replaced(value, "${PLUGIN_ROOT}"@, root),
        ),
        other != name ==> env_value(server_env(root, env.push((name, value))), other) == env_value(
            server_env(root, env),
            other,
        ),
    decreases env.len(),
{
    let more = env.push((name, value));
    assert(more.drop_last() =~= env);
    crate::extensions::law_set_variables_are_read_back(
        server_env(root, env),
        name,
        plugin_root_expanded(value, root),
        other,
    );
    if env.len() == 0 {
        assert(server_env(root, env)[0] == ("PLUGIN_ROOT"@, root));
    } else {
        let front = env.drop_last();
        law_servers_learn_the_plugins_root(root, front, name, value, other);
        crate::extensions::law_set_variables_are_read_back(
            server_env(root, front),
            env.last().0,
            plugin_root_expanded(env.last().1, root),
            "PLUGIN_ROOT"@,
        );
        if forall|i: int| 0 <= i < env.len() ==> (#[trigger] env[i]).0 != "PLUGIN_ROOT"@ {
            assert(env[env.len() - 1].0 != "PLUGIN_ROOT"@);
            assert forall|i: int| 0 <= i < front.len() implies (#[trigger] front[i]).0
                != "PLUGIN_ROOT"@ by {
                assert(front[i] == env[i]);
            }
        }
    }
}

/// A server is started as the plugin says: by its command with its arguments in its directory, each
/// with the root filled in, under a name that tells the plugin.
pub proof fn law_servers_are_started_as_written(
    plugin: Seq<char>,
    root: Seq<char>,
    name: Seq<char>,
    server: McpServerConfig,
    defaults: ServerDefaults,
    i: int,
)
    ensures
        ({
            let m = server_model(plugin, root, name, server, defaults);
            &&& begins(m.name, plugin)
            &&& ends(m.name, name)
            &&& m.name.len() == plugin.len() + 1 + name.len()
            &&& m.cmd == replaced(server.command@, "${PLUGIN_ROOT}"@, root)
            &&& m.args.len() == server.args@.len()
            &&& 0 <= i < server.args@.len() ==> m.args[i] == replaced(
                server.args@[i]@,
                "${PLUGIN_ROOT}"@,
                root,
            )
            &&& m.cwd is Some <==> server.cwd is Some
            &&& server.cwd matches Some(d) ==> m.cwd == Some(
                replaced(d@, "${PLUGIN_ROOT}"@, root),
            )
            &&& m.timeout == defaults.timeout
            &&& m.description == defaults.description@
        }),
{
    reveal_strlit(":");
    let full = plugin + ":"@ + name;
    assert(full.subrange(0, plugin.len() as int) =~= plugin);
    assert(full.subrange(full.len() - name.len(), full.len() as int) =~= name);
}

/// Every server of a plugin is there once, whatever the order.
pub proof fn law_every_server_is_there(
    plugin: Seq<char>,
    root: Seq<char>,
    servers: Seq<(String, McpServerConfig)>,
    defaults: ServerDefaults,
    order: Seq<usize>,
    k: int,
)
    requires
        is_order(server_names(servers), order),
        0 <= k < servers.len(),
        servers.len() <= usize::MAX,
    ensures
        ordered_servers(plugin, root, servers, defaults, order).len() == servers.len(),
        ordered_servers(plugin, root, servers, defaults, order).contains(
            server_model(plugin, root, servers[k].0@, servers[k].1, defaults),
        ),
{
    let keys = server_names(servers);
    assert forall|i: int, j: int| 0 <= i < j < order.len() implies order[i] != order[j] by {
        assert(sorts_before(keys, order[i] as int, order[j] as int));
        if order[i] == order[j] {
            crate::text::lemma_lex_total(keys[order[i] as int], keys[order[i] as int]);
        }
    }
    crate::text::lemma_each_place(order, k as usize);
    let p = choose|p: int| 0 <= p < order.len() && order[p] == k as usize;
    let all = ordered_servers(plugin, root, servers, defaults, order);
    assert(all[p] == server_model(plugin, root, servers[k].0@, servers[k].1, defaults));
}

/// A value holds servers itself where a member is none of the two that a list of paths has.
pub proof fn law_which_values_hold_servers(ms: Seq<(Seq<char>, Tree)>, i: int)
    ensures
        0 <= i < ms.len() && ms[i].0 != "paths"@ && ms[i].0 != "exclusive"@ ==> holds_servers(
            Tree::Object(ms),
        ),
        (forall|k: int| 0 <= k < ms.len() ==> (#[trigger] ms[k]).0 == "paths"@ || ms[k].0
            == "exclusive"@) ==> !holds_servers(Tree::Object(ms)),
        !holds_servers(Tree::Null),
{
    if 0 <= i < ms.len() && ms[i].0 != "paths"@ && ms[i].0 != "exclusive"@ {
        assert(is_server_member(ms[i]));
    }
}

/// Which files may hold servers: the plugin's usual one, first, unless only those of the manifest
/// count, and each that the manifest names.
pub proof fn law_which_files_hold_servers(
    root: Seq<char>,
    exclusive: bool,
    custom: Seq<Seq<char>>,
    k: int,
)
    ensures
        !exclusive ==> config_paths(root, exclusive, custom).len() > 0 && config_paths(
            root,
            exclusive,
            custom,
        )[0] == below(root, ".mcp.json"@),
        0 <= k < custom.len() ==> path_among(
            below(root, custom[k]),
            config_paths(root, exclusive, custom),
        ),
        exclusive && custom.len() == 0 ==> config_paths(root, exclusive, custom).len() == 0,
{
    let own = if exclusive {
        Seq::empty()
    } else {
        seq![below(root, ".mcp.json"@)]
    };
    let named = Seq::new(custom.len(), |i: int| below(root, custom[i]));
    let all = own + named;
    law_paths_are_read_once(all);
    if 0 <= k < custom.len() {
        assert(all[own.len() + k] == below(root, custom[k]));
        assert(path_among(all[own.len() + k], first_of_each(all)));
    }
    if !exclusive {
        lemma_first_stays(all);
        assert(all[0] == below(root, ".mcp.json"@));
    }
}

proof fn lemma_first_stays(v: Seq<Seq<char>>)
    requires
        v.len() > 0,
    ensures
        first_of_each(v).len() > 0,
        first_of_each(v)[0] == v[0],
    decreases v.len(),
{
    let front = v.drop_last();
    if front.len() > 0 {
        lemma_first_stays(front);
        assert(front[0] == v[0]);
    } else {
        assert(first_of_each(front) =~= Seq::empty());
        assert(v.last() == v[0]);
    }
}

/// The first server without a command is told by its name, and nothing is told where each has one.
pub proof fn law_servers_need_a_command(servers: Seq<(String, McpServerConfig)>)
    ensures
        server_problem(servers) is None <==> forall|i: int|
            0 <= i < servers.len() ==> trimmed((#[trigger] servers[i]).1.command@).len() > 0,
        server_problem(servers) matches Some(m) ==> exists|i: int|
            {
                &&& 0 <= i < servers.len()
                &&& trimmed((#[trigger] servers[i]).1.command@).len() == 0
                &&& has_text(m, servers[i].0@)
                &&& forall|j: int|
                    0 <= j < i ==> trimmed((#[trigger] servers[j]).1.command@).len() > 0
            },
    decreases servers.len(),
{
    if servers.len() > 0 {
        if trimmed(servers[0].1.command@).len() == 0 {
            lemma_has_text(
                "Open Plugins MCP server '"@,
                servers[0].0@,
                "' command must not be empty"@,
            );
        } else {
            let rest = servers.skip(1);
            law_servers_need_a_command(rest);
            if server_problem(servers) is Some {
                let m = server_problem(servers)->0;
                let i = choose|i: int|
                    {
                        &&& 0 <= i < rest.len()
                        &&& trimmed((#[trigger] rest[i]).1.command@).len() == 0
                        &&& has_text(m, rest[i].0@)
                        &&& forall|j: int|
                            0 <= j < i ==> trimmed((#[trigger] rest[j]).1.command@).len() > 0
                    };
                assert(servers[i + 1] == rest[i]);
                assert forall|j: int| 0 <= j < i + 1 implies trimmed(
                    (#[trigger] servers[j]).1.command@,
                ).len() > 0 by {
                    if j > 0 {
                        assert(rest[j - 1] == servers[j]);
                    }
                }
            } else {
                assert forall|i: int| 0 <= i < servers.len() implies trimmed(
                    (#[trigger] servers[i]).1.command@,
                ).len() > 0 by {
                    if i > 0 {
                        assert(rest[i - 1] == servers[i]);
                    }
                }
            }
            if forall|i: int|
                0 <= i < servers.len() ==> trimmed((#[trigger] servers[i]).1.command@).len() > 0 {
                assert forall|i: int| 0 <= i < rest.len() implies trimmed(
                    (#[trigger] rest[i]).1.command@,
                ).len() > 0 by {
                    assert(rest[i] == servers[i + 1]);
                }
            }
        }
    }
}

/// The servers of every plugin that could be read are there, in the order of the plugins, and a
/// plugin that could not be read takes nothing from the others.
pub proof fn law_servers_of_readable_plugins(
    a: Seq<Result<Vec<PluginServer>, String>>,
    b: Seq<Result<Vec<PluginServer>, String>>,
)
    ensures
        loaded_servers(a + b) == loaded_servers(a) + loaded_servers(b),
        a.len() == 1 ==> loaded_servers(a) == match a[0] {
            Ok(s) => server_models(s@),
            Err(_) => Seq::empty(),
        },
    decreases b.len(),
{
    if a.len() == 1 {
        assert(a.drop_last() =~= Seq::empty());
        assert(loaded_servers(a.drop_last()) =~= Seq::empty());
        assert(a.last() == a[0]);
        assert(loaded_servers(a) =~= match a[0] {
            Ok(s) => server_models(s@),
            Err(_) => Seq::empty(),
        });
    }
    if b.len() > 0 {
        law_servers_of_readable_plugins(a, b.drop_last());
        assert((a + b).drop_last() =~= a + b.drop_last());
        assert((a + b).last() == b.last());
        assert(loaded_servers(a + b) =~= loaded_servers(a) + loaded_servers(b));
    } else {
        assert(a + b =~= a);
        assert(loaded_servers(a) + loaded_servers(b) =~= loaded_servers(a));
    }
}

} // verus!
