//! Plugins: which are there, and which of them are switched on.

use crate::paths::{below, join_path};
use crate::seqs::{lemma_contains_last, lemma_contains_push};
use crate::text::{contains_string, str_eq, texts};
use vstd::prelude::*;
use vstd::string::*;

verus! {

/// Where a plugin was found.
#[derive(Clone, Copy, PartialEq, Eq, Structural, Debug)]
pub enum PluginScope {
    User,
    Project,
}

/// A plugin that is there.
#[derive(Debug, PartialEq, Eq)]
pub struct DiscoveredPlugin {
    pub name: String,
    pub root: String,
    pub scope: PluginScope,
}

#[verifier::ext_equal]
pub struct PluginModel {
    pub name: Seq<char>,
    pub root: Seq<char>,
    pub scope: PluginScope,
}

impl DiscoveredPlugin {
    pub open spec fn view(&self) -> PluginModel {
        PluginModel { name: self.name@, root: self.root@, scope: self.scope }
    }

    pub fn copy(&self) -> (r: DiscoveredPlugin)
        ensures
            r@ == self@,
    {
        DiscoveredPlugin { name: self.name.clone(), root: self.root.clone(), scope: self.scope }
    }
}

pub open spec fn plugins(v: Seq<DiscoveredPlugin>) -> Seq<PluginModel> {
    Seq::new(v.len(), |i: int| v[i]@)
}

/// What a settings file says of plugins, by name.
#[derive(Debug, PartialEq, Eq)]
pub struct PluginSettings {
    pub enabled: Vec<String>,
    pub disabled: Vec<String>,
}

/// Which settings file: that of the project on this machine, that of the project, or the user's.
#[derive(Clone, Copy, PartialEq, Eq, Structural, Debug)]
pub enum SettingsScope {
    Local,
    Project,
    User,
}

// ---------------------------------------------------------------------------
// Paths
// ---------------------------------------------------------------------------

/// The directory of a project's plugins.
pub fn project_plugin_dir(project_root: &str) -> (r: String)
    ensures
        r@ == below(below(project_root@, ".agents"@), "plugins"@),
{
    let dir = join_path(project_root, ".agents");
    join_path(dir.as_str(), "plugins")
}

pub open spec fn settings_path(root: Seq<char>, file: Seq<char>) -> Seq<char> {
    below(below(below(root, ".config"@), "goose"@), file)
}

fn settings_file(root: &str, file: &str) -> (r: String)
    ensures
        r@ == settings_path(root@, file@),
{
    let config = join_path(root, ".config");
    let goose = join_path(config.as_str(), "goose");
    join_path(goose.as_str(), file)
}

/// The settings file of a project; with `local`, the one that is for this machine only.
pub fn project_settings_path(project_root: &str, local: bool) -> (r: String)
    ensures
        r@ == settings_path(
            project_root@,
            if local {
                "settings.local.json"@
            } else {
                "settings.json"@
            },
        ),
{
    settings_file(
        project_root,
        if local {
            "settings.local.json"
        } else {
            "settings.json"
        },
    )
}

/// The settings file of the user: below the given root, else below the home directory.
pub fn user_settings_path(root: &Option<String>, home: &Option<String>) -> (r: Option<String>)
    ensures
        crate::text::text_opt(r) == match (
            crate::text::text_opt(*root),
            crate::text::text_opt(*home),
        ) {
            (Some(d), _) => Some(settings_path(d, "settings.json"@)),
            (None, Some(d)) => Some(settings_path(d, "settings.json"@)),
            (None, None) => None,
        },
{
    match root {
        Some(d) => Some(settings_file(d.as_str(), "settings.json")),
        None => match home {
            Some(d) => Some(settings_file(d.as_str(), "settings.json")),
            None => None,
        },
    }
}

/// The settings files to read, each with its scope.
pub fn settings_files(project_root: &Option<String>, user: &Option<String>) -> (r: Vec<
    (SettingsScope, String),
>)
    ensures
        setting_models(r@) == (match crate::text::text_opt(*user) {
            Some(p) => seq![(SettingsScope::User, p)],
            None => Seq::empty(),
        }) + (match crate::text::text_opt(*project_root) {
            Some(root) => seq![
                (SettingsScope::Project, settings_path(root, "settings.json"@)),
                (SettingsScope::Local, settings_path(root, "settings.local.json"@)),
            ],
            None => Seq::empty(),
        }),
{
    let mut out: Vec<(SettingsScope, String)> = Vec::new();
    if let Some(p) = user {
        out.push((SettingsScope::User, p.clone()));
    }
    let ghost head = setting_models(out@);
    assert(head =~= match crate::text::text_opt(*user) {
        Some(p) => seq![(SettingsScope::User, p)],
        None => Seq::empty(),
    });
    if let Some(root) = project_root {
        let shared = project_settings_path(root.as_str(), false);
        let local = project_settings_path(root.as_str(), true);
        out.push((SettingsScope::Project, shared));
        out.push((SettingsScope::Local, local));
        assert(setting_models(out@) =~= head + seq![
            (SettingsScope::Project, settings_path(root@, "settings.json"@)),
            (SettingsScope::Local, settings_path(root@, "settings.local.json"@)),
        ]);
    } else {
        assert(setting_models(out@) =~= head + Seq::empty());
    }
    out
}

pub open spec fn setting_models(v: Seq<(SettingsScope, String)>) -> Seq<
    (SettingsScope, Seq<char>),
> {
    Seq::new(v.len(), |i: int| (v[i].0, v[i].1@))
}

// ---------------------------------------------------------------------------
// Settings
// ---------------------------------------------------------------------------

/// What the first settings of a scope say of a plugin: switched off, switched on, or nothing.
pub open spec fn scope_says(
    settings: Seq<(SettingsScope, PluginSettings)>,
    scope: SettingsScope,
    name: Seq<char>,
) -> Option<bool>
    decreases settings.len(),
{
    if settings.len() == 0 {
        None
    } else if settings[0].0 == scope {
        if texts(settings[0].1.disabled@).contains(name) {
            Some(false)
        } else if texts(settings[0].1.enabled@).contains(name) {
            Some(true)
        } else {
            None
        }
    } else {
        scope_says(settings.skip(1), scope, name)
    }
}

/// Whether the settings leave a plugin on: the nearest scope that names it decides, and one that
/// no scope names is on.
pub open spec fn left_on(
    settings: Seq<(SettingsScope, PluginSettings)>,
    name: Seq<char>,
) -> bool {
    match scope_says(settings, SettingsScope::Local, name) {
        Some(b) => b,
        None => match scope_says(settings, SettingsScope::Project, name) {
            Some(b) => b,
            None => match scope_says(settings, SettingsScope::User, name) {
                Some(b) => b,
                None => true,
            },
        },
    }
}

fn ask_scope(
    settings: &Vec<(SettingsScope, PluginSettings)>,
    scope: SettingsScope,
    name: &str,
) -> (r: Option<bool>)
    ensures
        r == scope_says(settings@, scope, name@),
{
    let ghost all = settings@;
    let mut i: usize = 0;
    assert(all.skip(0) =~= all);
    while i < settings.len()
        invariant
            all == settings@,
            i <= all.len(),
            scope_says(all, scope, name@) == scope_says(all.skip(i as int), scope, name@),
        decreases all.len() - i,
    {
        assert(all.skip(i as int)[0] == all[i as int]);
        assert(all.skip(i as int).skip(1) =~= all.skip(i + 1));
        if settings[i].0 == scope {
            if contains_string(&settings[i].1.disabled, name) {
                return Some(false);
            }
            if contains_string(&settings[i].1.enabled, name) {
                return Some(true);
            }
            return None;
        }
        i = i + 1;
    }
    None
}

/// Whether the settings leave a plugin on.
pub fn is_enabled(plugin_name: &str, scoped_settings: &Vec<(SettingsScope, PluginSettings)>) -> (r:
    bool)
    ensures
        r == left_on(scoped_settings@, plugin_name@),
{
    if let Some(b) = ask_scope(scoped_settings, SettingsScope::Local, plugin_name) {
        return b;
    }
    if let Some(b) = ask_scope(scoped_settings, SettingsScope::Project, plugin_name) {
        return b;
    }
    if let Some(b) = ask_scope(scoped_settings, SettingsScope::User, plugin_name) {
        return b;
    }
    true
}

// ---------------------------------------------------------------------------
// The configuration
// ---------------------------------------------------------------------------

pub open spec fn entry_models(v: Seq<(String, bool)>) -> Seq<(Seq<char>, bool)> {
    Seq::new(v.len(), |i: int| (v[i].0@, v[i].1))
}

/// What the configuration says of the plugin at a path.
pub open spec fn entry_of(entries: Seq<(Seq<char>, bool)>, path: Seq<char>) -> Option<bool>
    decreases entries.len(),
{
    if entries.len() == 0 {
        None
    } else if entries[0].0 == path {
        Some(entries[0].1)
    } else {
        entry_of(entries.skip(1), path)
    }
}

fn find_entry(entries: &Vec<(String, bool)>, path: &str) -> (r: Option<bool>)
    ensures
        r == entry_of(entry_models(entries@), path@),
{
    let ghost all = entry_models(entries@);
    let mut i: usize = 0;
    assert(all.skip(0) =~= all);
    while i < entries.len()
        invariant
            all == entry_models(entries@),
            i <= entries@.len(),
            entry_of(all, path@) == entry_of(all.skip(i as int), path@),
        decreases entries@.len() - i,
    {
        assert(all.skip(i as int)[0] == (entries@[i as int].0@, entries@[i as int].1));
        assert(all.skip(i as int).skip(1) =~= all.skip(i + 1));
        if str_eq(entries[i].0.as_str(), path) {
            return Some(entries[i].1);
        }
        i = i + 1;
    }
    None
}

/// The entries of the configuration after some plugins were seen: a new plugin gets one that
/// switches it on.
pub open spec fn seen_entries(
    entries: Seq<(Seq<char>, bool)>,
    ps: Seq<PluginModel>,
) -> Seq<(Seq<char>, bool)>
    decreases ps.len(),
{
    if ps.len() == 0 {
        entries
    } else {
        let head = seen_entries(entries, ps.drop_last());
        if entry_of(head, ps.last().root) is None {
            head.push((ps.last().root, true))
        } else {
            head
        }
    }
}

/// The plugins that the configuration leaves on.
pub open spec fn configured_on(
    entries: Seq<(Seq<char>, bool)>,
    ps: Seq<PluginModel>,
) -> Seq<PluginModel>
    decreases ps.len(),
{
    if ps.len() == 0 {
        Seq::empty()
    } else {
        let head = configured_on(entries, ps.drop_last());
        if entry_of(seen_entries(entries, ps.drop_last()), ps.last().root) == Some(false) {
            head
        } else {
            head.push(ps.last())
        }
    }
}

/// The plugins that are switched on, and the configuration after they were seen.
#[derive(Debug, PartialEq, Eq)]
pub struct Discovery {
    pub plugins: Vec<DiscoveredPlugin>,
    pub entries: Vec<(String, bool)>,
    /// Whether the configuration has changed and has to be kept.
    pub dirty: bool,
}

/// The plugins that the configuration leaves on. A plugin that it does not know is added to it,
/// switched on.
pub fn filter_by_config(found: Vec<DiscoveredPlugin>, entries: Vec<(String, bool)>) -> (r: Discovery)
    ensures
        plugins(r.plugins@) == configured_on(entry_models(entries@), plugins(found@)),
        entry_models(r.entries@) == seen_entries(entry_models(entries@), plugins(found@)),
        r.dirty == (entry_models(r.entries@).len() > entries@.len()),
{
    let ghost all = plugins(found@);
    let ghost start = entry_models(entries@);
    let mut entries = entries;
    let mut on: Vec<DiscoveredPlugin> = Vec::new();
    let mut dirty = false;
    let mut i: usize = 0;
    assert(plugins(on@) =~= configured_on(start, all.take(0)));
    while i < found.len()
        invariant
            all == plugins(found@),
            i <= found@.len(),
            plugins(on@) == configured_on(start, all.take(i as int)),
            entry_models(entries@) == seen_entries(start, all.take(i as int)),
            entry_models(entries@).len() >= start.len(),
            dirty == (entry_models(entries@).len() > start.len()),
        decreases found@.len() - i,
    {
        assert(all.take(i + 1).drop_last() =~= all.take(i as int));
        assert(all.take(i + 1).last() == found@[i as int]@);
        let keep = match find_entry(&entries, found[i].root.as_str()) {
            Some(b) => b,
            None => {
                let ghost before = entry_models(entries@);
                entries.push((found[i].root.clone(), true));
                assert(entry_models(entries@) =~= before.push((found@[i as int].root@, true)));
                dirty = true;
                true
            },
        };
        if keep {
            let ghost before = plugins(on@);
            let p = found[i].copy();
            on.push(p);
            assert(plugins(on@) =~= before.push(p@));
        }
        i = i + 1;
    }
    assert(all.take(i as int) =~= all);
    Discovery { plugins: on, entries, dirty }
}

// ---------------------------------------------------------------------------
// Discovery
// ---------------------------------------------------------------------------

pub open spec fn dir_models(v: Seq<(String, String)>) -> Seq<(Seq<char>, Seq<char>)> {
    crate::hooks::pair_texts(v)
}

/// Whether one of the plugins has the name.
pub open spec fn has_plugin(ps: Seq<PluginModel>, name: Seq<char>) -> bool {
    exists|i: int| 0 <= i < ps.len() && (#[trigger] ps[i]).name == name
}

/// The plugins and those of one more directory: the first with a name stays.
pub open spec fn with_found(
    ps: Seq<PluginModel>,
    dirs: Seq<(Seq<char>, Seq<char>)>,
    scope: PluginScope,
) -> Seq<PluginModel>
    decreases dirs.len(),
{
    if dirs.len() == 0 {
        ps
    } else {
        let head = with_found(ps, dirs.drop_last(), scope);
        if has_plugin(head, dirs.last().0) {
            head
        } else {
            head.push(PluginModel { name: dirs.last().0, root: dirs.last().1, scope })
        }
    }
}

/// The plugins that the settings leave on.
pub open spec fn settings_on(
    ps: Seq<PluginModel>,
    settings: Seq<(SettingsScope, PluginSettings)>,
) -> Seq<PluginModel>
    decreases ps.len(),
{
    if ps.len() == 0 {
        Seq::empty()
    } else {
        let head = settings_on(ps.drop_last(), settings);
        if left_on(settings, ps.last().name) {
            head.push(ps.last())
        } else {
            head
        }
    }
}

fn knows_plugin(v: &Vec<DiscoveredPlugin>, name: &str) -> (r: bool)
    ensures
        r == has_plugin(plugins(v@), name@),
{
    let ghost all = plugins(v@);
    let mut i: usize = 0;
    while i < v.len()
        invariant
            all == plugins(v@),
            i <= v@.len(),
            forall|j: int| 0 <= j < i ==> (#[trigger] all[j]).name != name@,
        decreases v@.len() - i,
    {
        assert(all[i as int].name == v@[i as int].name@);
        if str_eq(v[i].name.as_str(), name) {
            return true;
        }
        i = i + 1;
    }
    assert(all.len() == v@.len());
    false
}

fn add_found(found: Vec<DiscoveredPlugin>, dirs: &Vec<(String, String)>, scope: PluginScope) -> (r:
    Vec<DiscoveredPlugin>)
    ensures
        plugins(r@) == with_found(plugins(found@), dir_models(dirs@), scope),
{
    let ghost start = plugins(found@);
    let ghost all = dir_models(dirs@);
    let mut out = found;
    let mut i: usize = 0;
    assert(plugins(out@) == with_found(start, all.take(0), scope));
    while i < dirs.len()
        invariant
            all == dir_models(dirs@),
            i <= dirs@.len(),
            plugins(out@) == with_found(start, all.take(i as int), scope),
        decreases dirs@.len() - i,
    {
        assert(all.take(i + 1).drop_last() =~= all.take(i as int));
        assert(all.take(i + 1).last() == (dirs@[i as int].0@, dirs@[i as int].1@));
        if !knows_plugin(&out, dirs[i].0.as_str()) {
            let ghost before = plugins(out@);
            let p = DiscoveredPlugin { name: dirs[i].0.clone(), root: dirs[i].1.clone(), scope };
            out.push(p);
            assert(plugins(out@) =~= before.push(p@));
        }
        i = i + 1;
    }
    assert(all.take(i as int) =~= all);
    out
}

fn keep_on(found: &Vec<DiscoveredPlugin>, settings: &Vec<(SettingsScope, PluginSettings)>) -> (r:
    Vec<DiscoveredPlugin>)
    ensures
        plugins(r@) == settings_on(plugins(found@), settings@),
{
    let ghost all = plugins(found@);
    let mut out: Vec<DiscoveredPlugin> = Vec::new();
    let mut i: usize = 0;
    assert(plugins(out@) =~= settings_on(all.take(0), settings@));
    while i < found.len()
        invariant
            all == plugins(found@),
            i <= found@.len(),
            plugins(out@) == settings_on(all.take(i as int), settings@),
        decreases found@.len() - i,
    {
        assert(all.take(i + 1).drop_last() =~= all.take(i as int));
        assert(all.take(i + 1).last() == found@[i as int]@);
        if is_enabled(found[i].name.as_str(), settings) {
            let ghost before = plugins(out@);
            let p = found[i].copy();
            out.push(p);
            assert(plugins(out@) =~= before.push(p@));
        }
        i = i + 1;
    }
    assert(all.take(i as int) =~= all);
    out
}

/// The plugins that are there: those of the project come before the user's, and a name is taken
/// once.
pub open spec fn all_found(
    project: Seq<(Seq<char>, Seq<char>)>,
    user: Seq<(Seq<char>, Seq<char>)>,
) -> Seq<PluginModel> {
    with_found(with_found(Seq::empty(), project, PluginScope::Project), user, PluginScope::User)
}

/// The plugins that are switched on.
pub open spec fn plugins_on(
    project: Seq<(Seq<char>, Seq<char>)>,
    user: Seq<(Seq<char>, Seq<char>)>,
    settings: Seq<(SettingsScope, PluginSettings)>,
    entries: Seq<(Seq<char>, bool)>,
) -> Seq<PluginModel> {
    configured_on(entries, settings_on(all_found(project, user), settings))
}

/// The plugins that are switched on. `project` and `user` are the plugin directories of the
/// project and of the user, each with its name; `entries` is what the configuration says, by path.
pub fn discover_enabled_plugins(
    project: &Vec<(String, String)>,
    user: &Vec<(String, String)>,
    settings: &Vec<(SettingsScope, PluginSettings)>,
    entries: Vec<(String, bool)>,
) -> (r: Discovery)
    ensures
        plugins(r.plugins@) == plugins_on(
            dir_models(project@),
            dir_models(user@),
            settings@,
            entry_models(entries@),
        ),
        entry_models(r.entries@) == seen_entries(
            entry_models(entries@),
            settings_on(all_found(dir_models(project@), dir_models(user@)), settings@),
        ),
        r.dirty == (entry_models(r.entries@).len() > entries@.len()),
{
    let none: Vec<DiscoveredPlugin> = Vec::new();
    assert(plugins(none@) =~= Seq::empty());
    let of_project = add_found(none, project, PluginScope::Project);
    let found = add_found(of_project, user, PluginScope::User);
    let on = keep_on(&found, settings);
    filter_by_config(on, entries)
}

// ---------------------------------------------------------------------------
// Laws
// ---------------------------------------------------------------------------

/// The nearest scope that names a plugin decides: that of this machine over the project's, and
/// the project's over the user's.
pub proof fn law_nearer_scopes_win(
    settings: Seq<(SettingsScope, PluginSettings)>,
    name: Seq<char>,
    on: bool,
)
    ensures
        scope_says(settings, SettingsScope::Local, name) == Some(on) ==> left_on(settings, name)
            == on,
        scope_says(settings, SettingsScope::Local, name) is None && scope_says(
            settings,
            SettingsScope::Project,
            name,
        ) == Some(on) ==> left_on(settings, name) == on,
        scope_says(settings, SettingsScope::Local, name) is None && scope_says(
            settings,
            SettingsScope::Project,
            name,
        ) is None && scope_says(settings, SettingsScope::User, name) == Some(on) ==> left_on(
            settings,
            name,
        ) == on,
{
}

/// A plugin that no settings name is on.
pub proof fn law_unnamed_plugins_are_on(
    settings: Seq<(SettingsScope, PluginSettings)>,
    name: Seq<char>,
)
    requires
        forall|i: int|
            0 <= i < settings.len() ==> !texts((#[trigger] settings[i]).1.disabled@).contains(name),
    ensures
        left_on(settings, name),
{
    lemma_not_off(settings, SettingsScope::Local, name);
    lemma_not_off(settings, SettingsScope::Project, name);
    lemma_not_off(settings, SettingsScope::User, name);
}

proof fn lemma_not_off(
    settings: Seq<(SettingsScope, PluginSettings)>,
    scope: SettingsScope,
    name: Seq<char>,
)
    requires
        forall|i: int|
            0 <= i < settings.len() ==> !texts((#[trigger] settings[i]).1.disabled@).contains(name),
    ensures
        scope_says(settings, scope, name) != Some(false),
    decreases settings.len(),
{
    if settings.len() > 0 {
        assert(settings[0] == settings[0]);
        assert forall|i: int| 0 <= i < settings.skip(1).len() implies !texts(
            (#[trigger] settings.skip(1)[i]).1.disabled@,
        ).contains(name) by {
            assert(settings.skip(1)[i] == settings[i + 1]);
        }
        lemma_not_off(settings.skip(1), scope, name);
    }
}

proof fn lemma_entry_push(
    entries: Seq<(Seq<char>, bool)>,
    e: (Seq<char>, bool),
    path: Seq<char>,
)
    ensures
        entry_of(entries.push(e), path) == match entry_of(entries, path) {
            Some(b) => Some(b),
            None => if e.0 == path {
                Some(e.1)
            } else {
                None
            },
        },
    decreases entries.len(),
{
    let all = entries.push(e);
    if entries.len() == 0 {
        assert(all.skip(1) =~= Seq::empty());
        assert(entry_of(all.skip(1), path) is None);
    } else {
        assert(all.skip(1) =~= entries.skip(1).push(e));
        lemma_entry_push(entries.skip(1), e, path);
    }
}

/// What the configuration says of a plugin stays, and each plugin that was seen is in it: a new
/// one switched on.
pub proof fn law_new_plugins_are_added_switched_on(
    entries: Seq<(Seq<char>, bool)>,
    ps: Seq<PluginModel>,
    path: Seq<char>,
)
    ensures
        entry_of(seen_entries(entries, ps), path) == match entry_of(entries, path) {
            Some(b) => Some(b),
            None => if exists|i: int| 0 <= i < ps.len() && (#[trigger] ps[i]).root == path {
                Some(true)
            } else {
                None
            },
        },
    decreases ps.len(),
{
    if ps.len() > 0 {
        let before = ps.drop_last();
        law_new_plugins_are_added_switched_on(entries, before, path);
        law_new_plugins_are_added_switched_on(entries, before, ps.last().root);
        let head = seen_entries(entries, before);
        lemma_entry_push(head, (ps.last().root, true), path);
        if exists|i: int| 0 <= i < ps.len() && (#[trigger] ps[i]).root == path {
            let i = choose|i: int| 0 <= i < ps.len() && (#[trigger] ps[i]).root == path;
            if i < before.len() {
                assert(before[i].root == path);
            } else {
                assert(ps.last().root == path);
            }
        }
        if exists|i: int| 0 <= i < before.len() && (#[trigger] before[i]).root == path {
            let i = choose|i: int| 0 <= i < before.len() && (#[trigger] before[i]).root == path;
            assert(ps[i].root == path);
        }
        if ps.last().root == path {
            assert(ps[ps.len() - 1].root == path);
        }
    }
}

/// A plugin is dropped by the configuration only where an entry switches it off.
pub proof fn law_only_switched_off_plugins_are_dropped(
    entries: Seq<(Seq<char>, bool)>,
    ps: Seq<PluginModel>,
    k: int,
)
    requires
        0 <= k < ps.len(),
        entry_of(entries, ps[k].root) != Some(false),
    ensures
        configured_on(entries, ps).contains(ps[k]),
    decreases ps.len(),
{
    let before = ps.drop_last();
    let head = configured_on(entries, before);
    let all = configured_on(entries, ps);
    if k < ps.len() - 1 {
        assert(before[k] == ps[k]);
        law_only_switched_off_plugins_are_dropped(entries, before, k);
        let j = choose|j: int| 0 <= j < head.len() && head[j] == ps[k];
        assert(all[j] == ps[k]);
    } else {
        law_new_plugins_are_added_switched_on(entries, before, ps.last().root);
        assert(all[head.len() as int] == ps[k]);
    }
}

/// A plugin of the project hides one of the user with its name, and no name is taken twice.
pub proof fn law_project_plugins_hide_the_users(
    project: Seq<(Seq<char>, Seq<char>)>,
    user: Seq<(Seq<char>, Seq<char>)>,
)
    ensures
        with_found(Seq::empty(), project, PluginScope::Project).is_prefix_of(
            all_found(project, user),
        ),
        forall|i: int, j: int|
            0 <= i < j < all_found(project, user).len() ==> all_found(project, user)[i].name
                != all_found(project, user)[j].name,
{
    lemma_found(Seq::empty(), project, PluginScope::Project);
    lemma_found(
        with_found(Seq::empty(), project, PluginScope::Project),
        user,
        PluginScope::User,
    );
}

proof fn lemma_found(
    ps: Seq<PluginModel>,
    dirs: Seq<(Seq<char>, Seq<char>)>,
    scope: PluginScope,
)
    requires
        forall|i: int, j: int| 0 <= i < j < ps.len() ==> ps[i].name != ps[j].name,
    ensures
        ps.is_prefix_of(with_found(ps, dirs, scope)),
        forall|i: int, j: int|
            0 <= i < j < with_found(ps, dirs, scope).len() ==> with_found(ps, dirs, scope)[i].name
                != with_found(ps, dirs, scope)[j].name,
    decreases dirs.len(),
{
    if dirs.len() > 0 {
        lemma_found(ps, dirs.drop_last(), scope);
    }
}

/// What a scope says of a plugin: that it is off where it is among those switched off, even if it
/// is among those switched on too; that it is on where it is only among those; and nothing else.
pub proof fn law_what_a_scope_says(
    scope: SettingsScope,
    s: PluginSettings,
    rest: Seq<(SettingsScope, PluginSettings)>,
    name: Seq<char>,
    other: SettingsScope,
)
    ensures
        ({
            let all = seq![(scope, s)] + rest;
            &&& texts(s.disabled@).contains(name) ==> scope_says(all, scope, name) == Some(false)
            &&& !texts(s.disabled@).contains(name) && texts(s.enabled@).contains(name)
                ==> scope_says(all, scope, name) == Some(true)
            &&& !texts(s.disabled@).contains(name) && !texts(s.enabled@).contains(name)
                ==> scope_says(all, scope, name) is None
            &&& other != scope ==> scope_says(all, other, name) == scope_says(rest, other, name)
        }),
{
    let all = seq![(scope, s)] + rest;
    assert(all.skip(1) =~= rest);
    assert(all[0] == (scope, s));
}

/// The settings keep exactly the plugins that they leave on.
pub proof fn law_settings_keep_what_they_leave_on(
    ps: Seq<PluginModel>,
    settings: Seq<(SettingsScope, PluginSettings)>,
    p: PluginModel,
)
    ensures
        settings_on(ps, settings).contains(p) <==> ps.contains(p) && left_on(settings, p.name),
    decreases ps.len(),
{
    if ps.len() > 0 {
        law_settings_keep_what_they_leave_on(ps.drop_last(), settings, p);
        lemma_contains_last(ps, p);
        lemma_contains_push(settings_on(ps.drop_last(), settings), ps.last(), p);
    }
}

/// A plugin that an entry of the configuration switches off is dropped, and nothing is kept that
/// was not there.
pub proof fn law_switched_off_plugins_are_dropped(
    entries: Seq<(Seq<char>, bool)>,
    ps: Seq<PluginModel>,
    p: PluginModel,
)
    ensures
        configured_on(entries, ps).contains(p) ==> ps.contains(p) && entry_of(entries, p.root)
            != Some(false),
    decreases ps.len(),
{
    if ps.len() > 0 {
        law_switched_off_plugins_are_dropped(entries, ps.drop_last(), p);
        lemma_contains_last(ps, p);
        lemma_contains_push(configured_on(entries, ps.drop_last()), ps.last(), p);
        law_new_plugins_are_added_switched_on(entries, ps.drop_last(), ps.last().root);
    }
}

/// Every plugin directory gives a plugin of its name, and the first of a name gives it, with its
/// own root and its scope.
pub proof fn law_every_plugin_is_found(
    ps: Seq<PluginModel>,
    dirs: Seq<(Seq<char>, Seq<char>)>,
    scope: PluginScope,
    k: int,
)
    requires
        0 <= k < dirs.len(),
    ensures
        has_plugin(with_found(ps, dirs, scope), dirs[k].0),
        !has_plugin(ps, dirs[k].0) && (forall|j: int| 0 <= j < k ==> (#[trigger] dirs[j]).0
            != dirs[k].0) ==> with_found(ps, dirs, scope).contains(
            PluginModel { name: dirs[k].0, root: dirs[k].1, scope },
        ),
    decreases dirs.len(),
{
    let front = dirs.drop_last();
    let head = with_found(ps, front, scope);
    let all = with_found(ps, dirs, scope);
    let new = PluginModel { name: dirs.last().0, root: dirs.last().1, scope };
    let own = PluginModel { name: dirs[k].0, root: dirs[k].1, scope };
    lemma_contains_push(head, new, own);
    if front.len() > 0 {
        let i = if k < front.len() {
            k
        } else {
            0
        };
        law_every_plugin_is_found(ps, front, scope, i);
        assert(front[i] == dirs[i]);
    } else {
        assert(head == ps);
    }
    if k < front.len() {
        let i = choose|i: int| 0 <= i < head.len() && (#[trigger] head[i]).name == dirs[k].0;
        assert(all[i] == head[i]);
        assert forall|j: int| 0 <= j < k implies (#[trigger] front[j]).0 == dirs[j].0 by {}
    } else {
        if has_plugin(head, dirs[k].0) {
            lemma_found_from(ps, front, scope, dirs[k].0);
            if exists|j: int| 0 <= j < front.len() && (#[trigger] front[j]).0 == dirs[k].0 {
                let j = choose|j: int| 0 <= j < front.len() && (#[trigger] front[j]).0 == dirs[k].0;
                assert(dirs[j].0 == dirs[k].0);
            }
        } else {
            assert(all[head.len() as int] == new);
        }
    }
}

proof fn lemma_found_from(
    ps: Seq<PluginModel>,
    dirs: Seq<(Seq<char>, Seq<char>)>,
    scope: PluginScope,
    name: Seq<char>,
)
    requires
        has_plugin(with_found(ps, dirs, scope), name),
    ensures
        has_plugin(ps, name) || exists|j: int|
            0 <= j < dirs.len() && (#[trigger] dirs[j]).0 == name,
    decreases dirs.len(),
{
    if dirs.len() > 0 {
        let front = dirs.drop_last();
        let head = with_found(ps, front, scope);
        let all = with_found(ps, dirs, scope);
        assert(dirs[dirs.len() - 1] == dirs.last());
        if has_plugin(head, name) {
            lemma_found_from(ps, front, scope, name);
            if exists|j: int| 0 <= j < front.len() && (#[trigger] front[j]).0 == name {
                let j = choose|j: int| 0 <= j < front.len() && (#[trigger] front[j]).0 == name;
                assert(dirs[j].0 == name);
            }
        } else {
            let i = choose|i: int| 0 <= i < all.len() && (#[trigger] all[i]).name == name;
            if i < head.len() {
                assert(all[i] == head[i]);
            }
        }
    }
}

/// From directory to plugin: a plugin of the project that is the first of its name, that the
/// settings leave on and that no entry switches off, is among those that are switched on, with its
/// own root.
pub proof fn law_plugins_of_the_project_are_switched_on(
    project: Seq<(Seq<char>, Seq<char>)>,
    user: Seq<(Seq<char>, Seq<char>)>,
    settings: Seq<(SettingsScope, PluginSettings)>,
    entries: Seq<(Seq<char>, bool)>,
    k: int,
)
    requires
        0 <= k < project.len(),
        forall|j: int| 0 <= j < k ==> (#[trigger] project[j]).0 != project[k].0,
        left_on(settings, project[k].0),
        entry_of(entries, project[k].1) != Some(false),
    ensures
        plugins_on(project, user, settings, entries).contains(
            PluginModel {
                name: project[k].0,
                root: project[k].1,
                scope: PluginScope::Project,
            },
        ),
{
    let p = PluginModel { name: project[k].0, root: project[k].1, scope: PluginScope::Project };
    let first = with_found(Seq::empty(), project, PluginScope::Project);
    law_every_plugin_is_found(Seq::empty(), project, PluginScope::Project, k);
    assert(first.contains(p));
    let i = choose|i: int| 0 <= i < first.len() && first[i] == p;
    let all = all_found(project, user);
    law_project_plugins_hide_the_users(project, user);
    assert(all[i] == p);
    assert(all.contains(p));
    let on = settings_on(all, settings);
    law_settings_keep_what_they_leave_on(all, settings, p);
    let n = choose|n: int| 0 <= n < on.len() && on[n] == p;
    law_only_switched_off_plugins_are_dropped(entries, on, n);
}

/// No plugin is switched on that the settings or the configuration switch off, or that is not
/// there.
pub proof fn law_switched_off_plugins_stay_off(
    project: Seq<(Seq<char>, Seq<char>)>,
    user: Seq<(Seq<char>, Seq<char>)>,
    settings: Seq<(SettingsScope, PluginSettings)>,
    entries: Seq<(Seq<char>, bool)>,
    p: PluginModel,
)
    requires
        plugins_on(project, user, settings, entries).contains(p),
    ensures
        left_on(settings, p.name),
        entry_of(entries, p.root) != Some(false),
        all_found(project, user).contains(p),
{
    let found = all_found(project, user);
    law_switched_off_plugins_are_dropped(entries, settings_on(found, settings), p);
    law_settings_keep_what_they_leave_on(found, settings, p);
}

} // verus!
