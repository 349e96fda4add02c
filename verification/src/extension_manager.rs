//! The extensions that are loaded: which tools they offer, and which one a call goes to.

use crate::agent::ExtensionManagerCapabilities;
use crate::conversation::{
    copy_json, copy_members, copy_text, ErrorCode, ErrorData, ErrorModel, plain_error,
    ToolOutput,
};
use crate::extensions::{
    lemma_same_config, same_config, tool_available, ExtensionConfig, ExtensionKind,
};
use crate::json::{members, set_member, tree_opt, with_member, Json, Member, Tree};
use crate::seqs::{lemma_contains_first, lemma_contains_last, lemma_contains_push};
use crate::text::{
    after_prefix, begins, cat, cat3, cat5, ends, has_text, join, joined, lemma_has_text,
    lemma_in_longer, lemma_joined_holds, replace, replaced, split_once,
    split_once_at, starts_with, str_eq, strip_prefix, text_opt, texts,
};
use crate::tools::{
    find_platform, get_tool_meta_value, get_tool_owner, get_tool_resource_uri,
    insert_trusted_tool_update_meta, is_hidden_extension, platform_entry,
    remove_untrusted_mcp_app_meta, tool_models, tool_names, with_trusted, without_untrusted,
    GooseMcpAppToolAttachment, PlatformExtension, Tool, ToolModel,
};
use vstd::prelude::*;
use vstd::string::*;

verus! {

broadcast use {crate::json::lemma_array_view, crate::json::lemma_object_view};

// ---------------------------------------------------------------------------
// The tools of an extension
// ---------------------------------------------------------------------------

/// The members of a tool's metadata.
pub open spec fn tool_meta_members(t: ToolModel) -> Seq<(Seq<char>, Tree)> {
    match t.meta {
        Some(ms) => ms,
        None => Seq::empty(),
    }
}

/// A tool as the model sees it: under a name that tells the extension, unless the extension's
/// tools stand without a prefix, and with the extension as its owner.
pub open spec fn published_tool(key: Seq<char>, unprefixed: bool, t: ToolModel) -> ToolModel {
    ToolModel {
        name: if unprefixed {
            t.name
        } else {
            key + "__"@ + t.name
        },
        meta: Some(with_member(tool_meta_members(t), "goose_extension"@, Tree::Str(key))),
        ..t
    }
}

/// The tools of an extension that may be used, as the model sees them.
pub open spec fn published_tools(
    key: Seq<char>,
    unprefixed: bool,
    available: Seq<Seq<char>>,
    ts: Seq<ToolModel>,
) -> Seq<ToolModel>
    decreases ts.len(),
{
    if ts.len() == 0 {
        Seq::empty()
    } else {
        let head = published_tools(key, unprefixed, available, ts.drop_last());
        if tool_available(available, ts.last().name) {
            head.push(published_tool(key, unprefixed, ts.last()))
        } else {
            head
        }
    }
}

fn publish_tool(key: &str, unprefixed: bool, t: &Tool) -> (r: Tool)
    ensures
        r@ == published_tool(key@, unprefixed, t@),
{
    let mut meta: Vec<Member> = match &t.meta {
        Some(ms) => copy_members(ms),
        None => Vec::new(),
    };
    assert(members(meta@) =~= tool_meta_members(t@));
    set_member(&mut meta, "goose_extension", Json::Str(key.to_owned()));
    let mut r = t.copy();
    r.name = if unprefixed {
        t.name.clone()
    } else {
        cat3(key, "__", t.name.as_str())
    };
    r.meta = Some(meta);
    r
}

/// The tools of an extension that may be used, as the model sees them.
pub fn publish_tools(
    key: &str,
    unprefixed: bool,
    config: &ExtensionConfig,
    tools: &Vec<Tool>,
) -> (r: Vec<Tool>)
    ensures
        tool_models(r@) == published_tools(
            key@,
            unprefixed,
            texts(config.available_tools@),
            tool_models(tools@),
        ),
{
    let ghost all = tool_models(tools@);
    let ghost available = texts(config.available_tools@);
    let mut out: Vec<Tool> = Vec::new();
    let mut i: usize = 0;
    assert(tool_models(out@) =~= published_tools(key@, unprefixed, available, all.take(0)));
    while i < tools.len()
        invariant
            all == tool_models(tools@),
            available == texts(config.available_tools@),
            i <= tools@.len(),
            tool_models(out@) == published_tools(key@, unprefixed, available, all.take(i as int)),
        decreases tools@.len() - i,
    {
        assert(all.take(i + 1).drop_last() =~= all.take(i as int));
        assert(all.take(i + 1).last() == tools@[i as int]@);
        if config.is_tool_available(tools[i].name.as_str()) {
            let ghost before = tool_models(out@);
            let t = publish_tool(key, unprefixed, &tools[i]);
            out.push(t);
            assert(tool_models(out@) =~= before.push(t@));
        }
        i = i + 1;
    }
    assert(all.take(i as int) =~= all);
    out
}

/// The tools and some more: a tool whose name is taken is left out.
pub open spec fn joined_tools(had: Seq<ToolModel>, more: Seq<ToolModel>) -> Seq<ToolModel>
    decreases more.len(),
{
    if more.len() == 0 {
        had
    } else {
        let head = joined_tools(had, more.drop_last());
        if tool_names(head).contains(more.last().name) {
            head
        } else {
            head.push(more.last())
        }
    }
}

/// Whether one of the tools has the name.
pub fn has_tool(tools: &Vec<Tool>, name: &str) -> (r: bool)
    ensures
        r == tool_names(tool_models(tools@)).contains(name@),
{
    let ghost names = tool_names(tool_models(tools@));
    let mut i: usize = 0;
    while i < tools.len()
        invariant
            names == tool_names(tool_models(tools@)),
            i <= tools@.len(),
            forall|j: int| 0 <= j < i ==> names[j] != name@,
        decreases tools@.len() - i,
    {
        assert(names[i as int] == tools@[i as int].name@);
        if str_eq(tools[i].name.as_str(), name) {
            return true;
        }
        i = i + 1;
    }
    assert(names.len() == tools@.len());
    false
}

/// Adds the tools of one more extension. A tool whose name is taken is left out.
pub fn join_tools(had: Vec<Tool>, more: &Vec<Tool>) -> (r: Vec<Tool>)
    ensures
        tool_models(r@) == joined_tools(tool_models(had@), tool_models(more@)),
{
    let ghost start = tool_models(had@);
    let ghost all = tool_models(more@);
    let mut out = had;
    let mut i: usize = 0;
    assert(tool_models(out@) == joined_tools(start, all.take(0)));
    while i < more.len()
        invariant
            all == tool_models(more@),
            i <= more@.len(),
            tool_models(out@) == joined_tools(start, all.take(i as int)),
        decreases more@.len() - i,
    {
        assert(all.take(i + 1).drop_last() =~= all.take(i as int));
        assert(all.take(i + 1).last() == more@[i as int]@);
        if !has_tool(&out, more[i].name.as_str()) {
            let ghost before = tool_models(out@);
            let t = more[i].copy();
            out.push(t);
            assert(tool_models(out@) =~= before.push(t@));
        }
        i = i + 1;
    }
    assert(all.take(i as int) =~= all);
    out
}

/// Whether no two tools have one name.
pub open spec fn names_differ(ts: Seq<ToolModel>) -> bool {
    forall|i: int, j: int| 0 <= i < j < ts.len() ==> ts[i].name != ts[j].name
}

/// Joining keeps the names of the tools apart, and keeps every tool that was there.
pub proof fn law_tool_names_stay_apart(had: Seq<ToolModel>, more: Seq<ToolModel>)
    requires
        names_differ(had),
    ensures
        names_differ(joined_tools(had, more)),
        had.is_prefix_of(joined_tools(had, more)),
    decreases more.len(),
{
    if more.len() > 0 {
        law_tool_names_stay_apart(had, more.drop_last());
        let head = joined_tools(had, more.drop_last());
        let names = tool_names(head);
        if !names.contains(more.last().name) {
            assert forall|i: int| 0 <= i < head.len() implies head[i].name != more.last().name by {
                assert(names[i] == head[i].name);
            }
        }
    }
}

/// Every name that an extension offers is there after joining.
pub proof fn law_every_name_is_offered(had: Seq<ToolModel>, more: Seq<ToolModel>, k: int)
    requires
        0 <= k < more.len(),
    ensures
        tool_names(joined_tools(had, more)).contains(more[k].name),
    decreases more.len(),
{
    let head = joined_tools(had, more.drop_last());
    let all = joined_tools(had, more);
    if k < more.len() - 1 {
        law_every_name_is_offered(had, more.drop_last(), k);
        assert(more.drop_last()[k] == more[k]);
        let j = choose|j: int| 0 <= j < tool_names(head).len() && tool_names(head)[j] == more[k].name;
        assert(tool_names(all)[j] == more[k].name);
    } else if !tool_names(head).contains(more[k].name) {
        assert(tool_names(all)[head.len() as int] == more[k].name);
    }
}

/// A tool that an extension offers is owned by it, whatever the extension's own metadata says.
pub proof fn law_published_tools_are_owned(
    key: Seq<char>,
    unprefixed: bool,
    available: Seq<Seq<char>>,
    ts: Seq<ToolModel>,
    k: int,
)
    requires
        0 <= k < published_tools(key, unprefixed, available, ts).len(),
    ensures
        published_tools(key, unprefixed, available, ts)[k].owner() == Some(key),
    decreases ts.len(),
{
    if ts.len() > 0 {
        let head = published_tools(key, unprefixed, available, ts.drop_last());
        if k < head.len() {
            law_published_tools_are_owned(key, unprefixed, available, ts.drop_last(), k);
        } else {
            crate::json::lemma_with_member_lookup(
                tool_meta_members(ts.last()),
                "goose_extension"@,
                Tree::Str(key),
                "goose_extension"@,
            );
        }
    }
}

// ---------------------------------------------------------------------------
// Choosing tools
// ---------------------------------------------------------------------------

/// The extension that a tool belongs to: its owner, else the part of its name before the first
/// double underscore.
pub open spec fn tool_extension(t: ToolModel) -> Seq<char> {
    match t.owner() {
        Some(o) => o,
        None => match split_once_at(t.name, "__"@) {
            Some(p) => p.0,
            None => t.name,
        },
    }
}

/// Whether a tool is among those of one extension, or not among those of another.
pub open spec fn tool_wanted(
    t: ToolModel,
    requested: Option<Seq<char>>,
    excluded: Option<Seq<char>>,
) -> bool {
    &&& excluded != Some(tool_extension(t))
    &&& requested matches Some(k) ==> tool_extension(t) == k
}

/// The wanted tools, in their order.
pub open spec fn wanted_tools(
    ts: Seq<ToolModel>,
    requested: Option<Seq<char>>,
    excluded: Option<Seq<char>>,
) -> Seq<ToolModel>
    decreases ts.len(),
{
    if ts.len() == 0 {
        Seq::empty()
    } else {
        let head = wanted_tools(ts.drop_last(), requested, excluded);
        if tool_wanted(ts.last(), requested, excluded) {
            head.push(ts.last())
        } else {
            head
        }
    }
}

fn extension_of(t: &Tool) -> (r: String)
    ensures
        r@ == tool_extension(t@),
{
    match get_tool_owner(t) {
        Some(o) => o,
        None => match split_once(t.name.as_str(), "__") {
            Some((prefix, _)) => prefix,
            None => t.name.clone(),
        },
    }
}

/// The tools of one extension, or those of all extensions but one. Extensions are given by key.
pub fn filter_tools(
    tools: &Vec<Tool>,
    extension: Option<&str>,
    exclude: Option<&str>,
) -> (r: Vec<Tool>)
    ensures
        tool_models(r@) == wanted_tools(
            tool_models(tools@),
            match extension {
                Some(s) => Some(s@),
                None => None,
            },
            match exclude {
                Some(s) => Some(s@),
                None => None,
            },
        ),
{
    let ghost all = tool_models(tools@);
    let ghost requested = match extension {
        Some(s) => Some(s@),
        None => None,
    };
    let ghost excluded = match exclude {
        Some(s) => Some(s@),
        None => None,
    };
    let mut out: Vec<Tool> = Vec::new();
    let mut i: usize = 0;
    assert(tool_models(out@) =~= wanted_tools(all.take(0), requested, excluded));
    while i < tools.len()
        invariant
            all == tool_models(tools@),
            requested == (match extension {
                Some(s) => Some(s@),
                None => None,
            }),
            excluded == (match exclude {
                Some(s) => Some(s@),
                None => None,
            }),
            i <= tools@.len(),
            tool_models(out@) == wanted_tools(all.take(i as int), requested, excluded),
        decreases tools@.len() - i,
    {
        assert(all.take(i + 1).drop_last() =~= all.take(i as int));
        assert(all.take(i + 1).last() == tools@[i as int]@);
        let owner = extension_of(&tools[i]);
        let barred = match exclude {
            Some(s) => str_eq(owner.as_str(), s),
            None => false,
        };
        let meant = match extension {
            Some(s) => str_eq(owner.as_str(), s),
            None => true,
        };
        if !barred && meant {
            let ghost before = tool_models(out@);
            let t = tools[i].copy();
            out.push(t);
            assert(tool_models(out@) =~= before.push(t@));
        }
        i = i + 1;
    }
    assert(all.take(i as int) =~= all);
    out
}

/// A page of the tools of an extension, and where the next one begins, where there is one.
#[derive(Debug, PartialEq, Eq)]
pub struct ToolPage {
    pub tools: Vec<Tool>,
    pub next_cursor: Option<String>,
}

/// Takes in what asking for a page came to, and says where to go on. A page that could not be had
/// ends it: the tools of the pages before it stay.
pub fn take_page(tools: &mut Vec<Tool>, page: Result<ToolPage, String>) -> (r: Option<String>)
    ensures
        match page {
            Ok(p) => {
                &&& tool_models(final(tools)@) == tool_models(old(tools)@) + tool_models(p.tools@)
                &&& r == p.next_cursor
            },
            Err(_) => r is None && final(tools)@ == old(tools)@,
        },
{
    match page {
        Ok(p) => {
            let mut more = p.tools;
            let ghost had = tools@;
            let ghost came = more@;
            tools.append(&mut more);
            assert(tool_models(tools@) =~= tool_models(had) + tool_models(came));
            p.next_cursor
        },
        Err(_) => None,
    }
}

// ---------------------------------------------------------------------------
// The loaded extensions
// ---------------------------------------------------------------------------

/// An extension that is loaded, under its key.
#[derive(Debug, PartialEq, Eq)]
pub struct LoadedExtension {
    pub key: String,
    pub config: ExtensionConfig,
    /// What the configuration came to, with its secrets in place, when the extension was started.
    pub resolved: ExtensionConfig,
    pub instructions: Option<String>,
    pub supports_resources: bool,
}

pub open spec fn loaded_keys(v: Seq<LoadedExtension>) -> Seq<Seq<char>> {
    Seq::new(v.len(), |i: int| v[i].key@)
}

/// The place of the extension with the key; the number of extensions, where there is none.
pub open spec fn place_of(v: Seq<LoadedExtension>, key: Seq<char>) -> int
    decreases v.len(),
{
    if v.len() == 0 {
        0
    } else if v[0].key@ == key {
        0
    } else {
        1 + place_of(v.skip(1), key)
    }
}

/// The extensions without the one with the key.
pub open spec fn without_extension(v: Seq<LoadedExtension>, key: Seq<char>) -> Seq<LoadedExtension> {
    let k = place_of(v, key);
    if k < v.len() {
        v.remove(k)
    } else {
        v
    }
}

/// The extensions with one more: in the place of the one with its key, else at the end.
pub open spec fn with_extension(v: Seq<LoadedExtension>, e: LoadedExtension) -> Seq<LoadedExtension> {
    let k = place_of(v, e.key@);
    if k < v.len() {
        v.update(k, e)
    } else {
        v.push(e)
    }
}

/// Whether no two extensions have one key.
pub open spec fn keys_differ(v: Seq<LoadedExtension>) -> bool {
    forall|i: int, j: int| 0 <= i < j < v.len() ==> v[i].key@ != v[j].key@
}

pub proof fn lemma_place(v: Seq<LoadedExtension>, key: Seq<char>)
    ensures
        0 <= place_of(v, key) <= v.len(),
        place_of(v, key) < v.len() ==> v[place_of(v, key)].key@ == key,
        forall|i: int| 0 <= i < place_of(v, key) ==> (#[trigger] v[i]).key@ != key,
    decreases v.len(),
{
    if v.len() > 0 && v[0].key@ != key {
        lemma_place(v.skip(1), key);
        let k = place_of(v.skip(1), key);
        assert forall|i: int| 0 <= i < place_of(v, key) implies (#[trigger] v[i]).key@ != key by {
            if i > 0 {
                assert(v.skip(1)[i - 1] == v[i]);
            }
        }
    }
}

/// The extensions that are loaded, and the tools that they offered when they were last asked.
#[derive(Debug, PartialEq, Eq)]
pub struct ExtensionManager {
    pub extensions: Vec<LoadedExtension>,
    pub tools_cache: Option<Vec<Tool>>,
    pub tools_cache_version: u64,
}

/// What adding an extension begins with.
#[derive(Clone, Copy, PartialEq, Eq, Structural, Debug)]
pub enum AddStep {
    /// The same extension is loaded already and stays.
    Keep,
    /// The extension has to be started.
    Start,
}

/// What is known of an extension once it was started.
#[derive(Debug, PartialEq, Eq)]
pub struct StartedClient {
    pub instructions: Option<String>,
    pub supports_resources: bool,
}

/// Whether tools are kept that the extensions offered when the version was `asked`.
pub open spec fn keeps_tools(version: u64, asked: u64, kept_already: bool) -> bool {
    version == asked && !kept_already
}

/// The version after one.
pub open spec fn next_version(v: u64) -> u64 {
    if v == u64::MAX {
        0
    } else {
        (v + 1) as u64
    }
}

/// Whether this comes of adding an extension: nothing changes where the same is loaded already or
/// where it could not be started, and else it is loaded and the tools are forgotten.
pub open spec fn extension_added(
    before: ExtensionManager,
    config: ExtensionConfig,
    resolved: ExtensionConfig,
    started: Result<StartedClient, String>,
    after: ExtensionManager,
    r: Result<(), String>,
) -> bool {
    if before.holds(config, resolved) {
        r is Ok && after == before
    } else {
        match started {
            Ok(c) => {
                &&& r is Ok
                &&& exists|e: LoadedExtension|
                    {
                        &&& e.key@ == config.key@
                        &&& e.config == config
                        &&& e.resolved == resolved
                        &&& e.instructions == c.instructions
                        &&& e.supports_resources == c.supports_resources
                        &&& after.extensions@ == #[trigger] with_extension(before.extensions@, e)
                    }
                &&& after.tools_cache is None
                &&& after.tools_cache_version == next_version(before.tools_cache_version)
            },
            Err(m) => {
                &&& r matches Err(e)
                &&& e@ == m@
                &&& after == before
            },
        }
    }
}

impl ExtensionManager {
    /// Whether no two extensions have one key.
    pub open spec fn wf(&self) -> bool {
        keys_differ(self.extensions@)
    }

    pub fn new() -> (r: ExtensionManager)
        ensures
            r.wf(),
            r.extensions@ == Seq::<LoadedExtension>::empty(),
            r.tools_cache is None,
            r.tools_cache_version == 0,
    {
        ExtensionManager { extensions: Vec::new(), tools_cache: None, tools_cache_version: 0 }
    }

    /// The place of the extension with the key.
    pub fn find(&self, key: &str) -> (r: Option<usize>)
        ensures
            match r {
                Some(k) => k == place_of(self.extensions@, key@) && k < self.extensions@.len(),
                None => place_of(self.extensions@, key@) == self.extensions@.len(),
            },
    {
        let ghost all = self.extensions@;
        let mut i: usize = 0;
        assert(all.skip(0) =~= all);
        while i < self.extensions.len()
            invariant
                all == self.extensions@,
                i <= all.len(),
                place_of(all, key@) == i + place_of(all.skip(i as int), key@),
            decreases all.len() - i,
        {
            assert(all.skip(i as int)[0] == all[i as int]);
            assert(all.skip(i as int).skip(1) =~= all.skip(i + 1));
            if str_eq(self.extensions[i].key.as_str(), key) {
                return Some(i);
            }
            i = i + 1;
        }
        None
    }

    /// Forgets the tools, so that the extensions are asked again.
    pub fn invalidate_tools_cache(&mut self)
        ensures
            final(self).extensions@ == old(self).extensions@,
            final(self).tools_cache is None,
            final(self).tools_cache_version == next_version(old(self).tools_cache_version),
    {
        self.tools_cache_version =
        if self.tools_cache_version == u64::MAX {
            0
        } else {
            self.tools_cache_version + 1
        };
        self.tools_cache = None;
    }

    /// Adds an extension that was started, in the place of the one with its key, and forgets the
    /// tools.
    pub fn add_client(&mut self, e: LoadedExtension)
        requires
            old(self).wf(),
        ensures
            final(self).wf(),
            final(self).extensions@ == with_extension(old(self).extensions@, e),
            final(self).tools_cache is None,
            final(self).tools_cache_version == next_version(old(self).tools_cache_version),
    {
        proof {
            lemma_place(self.extensions@, e.key@);
        }
        match self.find(e.key.as_str()) {
            Some(k) => {
                self.extensions.set(k, e);
            },
            None => {
                self.extensions.push(e);
            },
        }
        self.invalidate_tools_cache();
    }

    /// Whether an extension is loaded under the key of the configuration, and neither its
    /// configuration nor what that came to has changed.
    pub open spec fn holds(&self, config: ExtensionConfig, resolved: ExtensionConfig) -> bool {
        let k = place_of(self.extensions@, config.key@);
        k < self.extensions@.len() && same_config(self.extensions@[k].config, config)
            && same_config(self.extensions@[k].resolved, resolved)
    }

    /// What adding an extension begins with. `resolved` is the configuration with its secrets in
    /// place: one extension stays as it is, each other one is started.
    pub fn plan_add(&self, config: &ExtensionConfig, resolved: &ExtensionConfig) -> (r: AddStep)
        ensures
            r is Keep <==> self.holds(*config, *resolved),
    {
        match self.find(config.key.as_str()) {
            Some(k) => if self.extensions[k].config.same(config)
                && self.extensions[k].resolved.same(resolved) {
                AddStep::Keep
            } else {
                AddStep::Start
            },
            None => AddStep::Start,
        }
    }

    /// What adding an extension ends with: one that was started takes the place of the one with
    /// its key, and the tools are forgotten; where it could not be started, nothing changes.
    pub fn finish_add(&mut self, started: Result<LoadedExtension, String>) -> (r: Result<(), String>)
        requires
            old(self).wf(),
        ensures
            final(self).wf(),
            match started {
                Ok(e) => {
                    &&& r is Ok
                    &&& final(self).extensions@ == with_extension(old(self).extensions@, e)
                    &&& final(self).tools_cache is None
                    &&& final(self).tools_cache_version == next_version(
                        old(self).tools_cache_version,
                    )
                },
                Err(m) => {
                    &&& r matches Err(e)
                    &&& e@ == m@
                    &&& *final(self) == *old(self)
                },
            },
    {
        match started {
            Ok(e) => {
                self.add_client(e);
                Ok(())
            },
            Err(m) => Err(m),
        }
    }

    /// Adds an extension, where `started` is what starting it came to. Nothing changes where the
    /// same extension is loaded already, which is no error and for which `started` does not
    /// matter, and where it could not be started.
    pub fn add_extension(
        &mut self,
        config: ExtensionConfig,
        resolved: ExtensionConfig,
        started: Result<StartedClient, String>,
    ) -> (r: Result<(), String>)
        requires
            old(self).wf(),
        ensures
            final(self).wf(),
            extension_added(*old(self), config, resolved, started, *final(self), r),
    {
        match self.plan_add(&config, &resolved) {
            AddStep::Keep => Ok(()),
            AddStep::Start => match started {
                Ok(c) => {
                    let e = LoadedExtension {
                        key: config.key.clone(),
                        config,
                        resolved,
                        instructions: c.instructions,
                        supports_resources: c.supports_resources,
                    };
                    self.finish_add(Ok(e))
                },
                Err(m) => self.finish_add(Err(m)),
            },
        }
    }

    /// Removes the extension with the key, and forgets the tools. Nothing else happens where there
    /// is none.
    pub fn remove_extension(&mut self, key: &str)
        requires
            old(self).wf(),
        ensures
            final(self).wf(),
            final(self).extensions@ == without_extension(old(self).extensions@, key@),
            final(self).tools_cache is None,
            final(self).tools_cache_version == next_version(old(self).tools_cache_version),
    {
        proof {
            lemma_place(self.extensions@, key@);
        }
        if let Some(k) = self.find(key) {
            let _ = self.extensions.remove(k);
        }
        self.invalidate_tools_cache();
    }

    /// Whether an extension with the key is loaded.
    pub fn is_extension_enabled(&self, key: &str) -> (r: bool)
        ensures
            r == loaded_keys(self.extensions@).contains(key@),
    {
        proof {
            lemma_place(self.extensions@, key@);
        }
        let ghost keys = loaded_keys(self.extensions@);
        match self.find(key) {
            Some(k) => {
                assert(keys[k as int] == key@);
                true
            },
            None => {
                assert(!keys.contains(key@)) by {
                    if keys.contains(key@) {
                        let j = choose|j: int| 0 <= j < keys.len() && keys[j] == key@;
                        assert(self.extensions@[j].key@ == key@);
                    }
                }
                false
            },
        }
    }

    /// The keys of the extensions.
    pub fn list_extensions(&self) -> (r: Vec<String>)
        ensures
            texts(r@) == loaded_keys(self.extensions@),
    {
        let mut out: Vec<String> = Vec::new();
        let mut i: usize = 0;
        while i < self.extensions.len()
            invariant
                i <= self.extensions@.len(),
                out@.len() == i,
                forall|j: int| 0 <= j < i ==> (#[trigger] out@[j])@ == self.extensions@[j].key@,
            decreases self.extensions@.len() - i,
        {
            out.push(self.extensions[i].key.clone());
            i = i + 1;
        }
        assert(texts(out@) =~= loaded_keys(self.extensions@));
        out
    }

    /// Whether an extension offers resources.
    pub fn supports_resources(&self) -> (r: bool)
        ensures
            r == exists|i: int|
                0 <= i < self.extensions@.len() && (#[trigger] self.extensions@[i]).supports_resources,
    {
        let mut i: usize = 0;
        while i < self.extensions.len()
            invariant
                i <= self.extensions@.len(),
                forall|j: int|
                    0 <= j < i ==> !(#[trigger] self.extensions@[j]).supports_resources,
            decreases self.extensions@.len() - i,
        {
            if self.extensions[i].supports_resources {
                return true;
            }
            i = i + 1;
        }
        false
    }

    /// The tools, where they are known.
    pub fn cached_tools(&self) -> (r: Option<&Vec<Tool>>)
        ensures
            match r {
                Some(v) => self.tools_cache == Some(*v),
                None => self.tools_cache is None,
            },
    {
        match &self.tools_cache {
            Some(v) => Some(v),
            None => None,
        }
    }

    /// Keeps the tools that the extensions offered, unless the extensions have changed since
    /// `version_before`, when they were asked, or tools are kept already.
    pub fn store_tools(&mut self, version_before: u64, tools: Vec<Tool>)
        ensures
            final(self).extensions@ == old(self).extensions@,
            final(self).tools_cache_version == old(self).tools_cache_version,
            keeps_tools(
                old(self).tools_cache_version,
                version_before,
                old(self).tools_cache is Some,
            ) ==> final(self).tools_cache == Some(tools),
            !keeps_tools(
                old(self).tools_cache_version,
                version_before,
                old(self).tools_cache is Some,
            ) ==> final(self).tools_cache == old(self).tools_cache,
    {
        if self.tools_cache_version == version_before && self.tools_cache.is_none() {
            self.tools_cache = Some(tools);
        }
    }
}

/// The version after some changes.
pub open spec fn version_after(v: u64, changes: nat) -> u64
    decreases changes,
{
    if changes == 0 {
        v
    } else {
        next_version(version_after(v, (changes - 1) as nat))
    }
}

/// Tools that were asked for before the extensions changed are never kept: after one change or
/// more, and fewer than the versions there are, the version is another one.
pub proof fn law_stale_tools_are_not_kept(v: u64, changes: nat)
    requires
        0 < changes <= u64::MAX,
    ensures
        version_after(v, changes) != v,
{
    lemma_version(v, changes);
}

proof fn lemma_version(v: u64, changes: nat)
    requires
        changes <= u64::MAX,
    ensures
        version_after(v, changes) == if v + changes <= u64::MAX {
            v + changes
        } else {
            v + changes - u64::MAX - 1
        },
    decreases changes,
{
    if changes > 0 {
        lemma_version(v, (changes - 1) as nat);
    }
}

/// An extension that was added is found under its key, and the others stay as they are.
pub proof fn law_added_extensions_are_found(v: Seq<LoadedExtension>, e: LoadedExtension)
    requires
        keys_differ(v),
    ensures
        loaded_keys(with_extension(v, e)).contains(e.key@),
        forall|i: int|
            0 <= i < v.len() && (#[trigger] v[i]).key@ != e.key@ ==> with_extension(v, e)[i] == v[i],
{
    lemma_place(v, e.key@);
    let k = place_of(v, e.key@);
    assert(loaded_keys(with_extension(v, e))[k] == e.key@);
}

/// Adding an extension once more with the same configuration changes nothing: right after it was
/// added, the extensions hold it.
pub proof fn law_added_extensions_are_kept(
    before: ExtensionManager,
    after: ExtensionManager,
    e: LoadedExtension,
)
    requires
        e.key@ == e.config.key@,
        after.extensions@ == with_extension(before.extensions@, e),
    ensures
        after.holds(e.config, e.resolved),
{
    let v = before.extensions@;
    let w = after.extensions@;
    lemma_place(v, e.key@);
    lemma_place(w, e.key@);
    let k = place_of(v, e.key@);
    assert(w[k] == e);
    assert forall|i: int| 0 <= i < k implies (#[trigger] w[i]).key@ != e.key@ by {
        assert(v[i].key@ != e.key@);
    }
    assert(place_of(w, e.key@) == k) by {
        let p = place_of(w, e.key@);
        if p < k {
            assert(w[p].key@ != e.key@);
        }
    }
    lemma_same_config(e.config);
    lemma_same_config(e.resolved);
}

/// An extension that was removed is gone, and the others are still there.
pub proof fn law_removed_extensions_are_gone(v: Seq<LoadedExtension>, key: Seq<char>)
    requires
        keys_differ(v),
    ensures
        !loaded_keys(without_extension(v, key)).contains(key),
        forall|i: int|
            0 <= i < v.len() && (#[trigger] v[i]).key@ != key ==> without_extension(
                v,
                key,
            ).contains(v[i]),
{
    lemma_place(v, key);
    let k = place_of(v, key);
    let w = without_extension(v, key);
    assert forall|j: int| 0 <= j < w.len() implies w[j].key@ != key by {
        if k < v.len() {
            if j < k {
                assert(w[j] == v[j]);
            } else {
                assert(w[j] == v[j + 1]);
            }
        }
    }
    assert(!loaded_keys(w).contains(key)) by {
        if loaded_keys(w).contains(key) {
            let j = choose|j: int| 0 <= j < loaded_keys(w).len() && loaded_keys(w)[j] == key;
            assert(w[j].key@ == key);
        }
    }
    assert forall|i: int| 0 <= i < v.len() && (#[trigger] v[i]).key@ != key implies w.contains(
        v[i],
    ) by {
        if k < v.len() {
            if i < k {
                assert(w[i] == v[i]);
            } else {
                assert(w[i - 1] == v[i]);
            }
        } else {
            assert(w[i] == v[i]);
        }
    }
}

// ---------------------------------------------------------------------------
// Calls
// ---------------------------------------------------------------------------

/// The extension that a call goes to, and what is known of the tool.
#[derive(Debug, PartialEq, Eq)]
pub struct ResolvedTool {
    pub tool_name: String,
    pub extension_name: String,
    /// The name that the extension knows the tool by.
    pub actual_tool_name: String,
    pub tool_meta: Option<Json>,
    pub resource_uri: Option<String>,
}

#[verifier::ext_equal]
pub struct ResolvedModel {
    pub tool_name: Seq<char>,
    pub extension_name: Seq<char>,
    pub actual_tool_name: Seq<char>,
    pub tool_meta: Option<Tree>,
    pub resource_uri: Option<Seq<char>>,
}

impl ResolvedTool {
    pub open spec fn view(&self) -> ResolvedModel {
        ResolvedModel {
            tool_name: self.tool_name@,
            extension_name: self.extension_name@,
            actual_tool_name: self.actual_tool_name@,
            tool_meta: tree_opt(self.tool_meta),
            resource_uri: text_opt(self.resource_uri),
        }
    }
}

pub open spec fn resolved_model(r: Result<ResolvedTool, ErrorData>) -> Result<
    ResolvedModel,
    ErrorModel,
> {
    match r {
        Ok(t) => Ok(t@),
        Err(e) => Err(e@),
    }
}

pub open spec fn not_found(message: Seq<char>) -> ErrorModel {
    plain_error(ErrorCode::ResourceNotFound, message)
}

/// The first tool with the name.
pub open spec fn tool_with_name(ts: Seq<ToolModel>, name: Seq<char>) -> Option<ToolModel>
    decreases ts.len(),
{
    if ts.len() == 0 {
        None
    } else if ts[0].name == name {
        Some(ts[0])
    } else {
        tool_with_name(ts.skip(1), name)
    }
}

fn find_tool(tools: &Vec<Tool>, name: &str) -> (r: Option<usize>)
    ensures
        match r {
            Some(k) => k < tools@.len() && tool_with_name(tool_models(tools@), name@) == Some(
                tools@[k as int]@,
            ),
            None => tool_with_name(tool_models(tools@), name@) is None,
        },
{
    let ghost all = tool_models(tools@);
    let mut i: usize = 0;
    assert(all.skip(0) =~= all);
    while i < tools.len()
        invariant
            all == tool_models(tools@),
            i <= tools@.len(),
            tool_with_name(all, name@) == tool_with_name(all.skip(i as int), name@),
        decreases tools@.len() - i,
    {
        assert(all.skip(i as int)[0] == tools@[i as int]@);
        assert(all.skip(i as int).skip(1) =~= all.skip(i + 1));
        if str_eq(tools[i].name.as_str(), name) {
            return Some(i);
        }
        i = i + 1;
    }
    None
}

/// The name that the owner of a tool knows it by.
pub open spec fn name_inside(name: Seq<char>, owner: Seq<char>) -> Seq<char> {
    match after_prefix(name, owner + "__"@) {
        Some(rest) => rest,
        None => name,
    }
}

/// The extension that a call of a tool that is offered goes to.
pub open spec fn resolved_offered(
    t: ToolModel,
    name: Seq<char>,
    prefix_key: Seq<char>,
    keys: Seq<Seq<char>>,
) -> Result<ResolvedModel, ErrorModel> {
    let owner = match t.owner() {
        Some(o) => Some(o),
        None => if split_once_at(name, "__"@) is Some {
            Some(prefix_key)
        } else {
            None
        },
    };
    match owner {
        None => Err(not_found("Tool '"@ + name + "' has no owner"@)),
        Some(o) => if keys.contains(o) {
            Ok(
                ResolvedModel {
                    tool_name: name,
                    extension_name: o,
                    actual_tool_name: name_inside(name, o),
                    tool_meta: match t.meta {
                        Some(ms) => Some(Tree::Object(ms)),
                        None => None,
                    },
                    resource_uri: t.resource_uri(),
                },
            )
        } else {
            Err(not_found("Extension '"@ + o + "' not found for tool '"@ + name + "'"@))
        },
    }
}

/// The extension that a call goes to, where `keys` are those of the loaded extensions and
/// `prefix_key` is the key of the part of the name before the first double underscore.
pub open spec fn resolved(
    ts: Seq<ToolModel>,
    name: Seq<char>,
    prefix_key: Seq<char>,
    keys: Seq<Seq<char>>,
) -> Result<ResolvedModel, ErrorModel> {
    match tool_with_name(ts, name) {
        Some(t) => resolved_offered(t, name, prefix_key, keys),
        None => match split_once_at(name, "__"@) {
            Some(p) => if keys.contains(prefix_key) {
                Ok(
                    ResolvedModel {
                        tool_name: name,
                        extension_name: prefix_key,
                        actual_tool_name: p.1,
                        tool_meta: None,
                        resource_uri: None,
                    },
                )
            } else {
                Err(unknown_tool(ts, name))
            },
            None => Err(unknown_tool(ts, name)),
        },
    }
}

pub open spec fn unknown_tool(ts: Seq<ToolModel>, name: Seq<char>) -> ErrorModel {
    not_found(
        "Tool '"@ + name + "' not found. Available tools: ["@ + joined(tool_names(ts), ", "@)
            + "]"@,
    )
}

fn not_found_error(message: String) -> (r: ErrorData)
    ensures
        r@ == not_found(message@),
{
    ErrorData::new(ErrorCode::ResourceNotFound, message)
}

fn unknown_tool_error(tools: &Vec<Tool>, name: &str) -> (r: ErrorData)
    ensures
        r@ == unknown_tool(tool_models(tools@), name@),
{
    let mut names: Vec<String> = Vec::new();
    let mut i: usize = 0;
    while i < tools.len()
        invariant
            i <= tools@.len(),
            names@.len() == i,
            forall|j: int| 0 <= j < i ==> (#[trigger] names@[j])@ == tools@[j].name@,
        decreases tools@.len() - i,
    {
        names.push(tools[i].name.clone());
        i = i + 1;
    }
    assert(texts(names@) =~= tool_names(tool_models(tools@)));
    let list = join(&names, ", ");
    not_found_error(
        cat5("Tool '", name, "' not found. Available tools: [", list.as_str(), "]"),
    )
}

fn resolve_offered(
    t: &Tool,
    name: &str,
    prefix_key: &str,
    manager: &ExtensionManager,
) -> (r: Result<ResolvedTool, ErrorData>)
    ensures
        resolved_model(r) == resolved_offered(
            t@,
            name@,
            prefix_key@,
            loaded_keys(manager.extensions@),
        ),
{
    let owner = match get_tool_owner(t) {
        Some(o) => Some(o),
        None => if split_once(name, "__").is_some() {
            Some(prefix_key.to_owned())
        } else {
            None
        },
    };
    match owner {
        None => Err(not_found_error(cat3("Tool '", name, "' has no owner"))),
        Some(o) => {
            if !manager.is_extension_enabled(o.as_str()) {
                return Err(
                    not_found_error(
                        cat5("Extension '", o.as_str(), "' not found for tool '", name, "'"),
                    ),
                );
            }
            let prefix = cat(o.as_str(), "__");
            let actual_tool_name = match strip_prefix(name, prefix.as_str()) {
                Some(rest) => rest,
                None => name.to_owned(),
            };
            Ok(
                ResolvedTool {
                    tool_name: name.to_owned(),
                    extension_name: o,
                    actual_tool_name,
                    tool_meta: get_tool_meta_value(t),
                    resource_uri: get_tool_resource_uri(t),
                },
            )
        },
    }
}

/// The error where an extension does not let the tool be used.
pub open spec fn unavailable(tool: Seq<char>, extension: Seq<char>) -> ErrorModel {
    not_found("Tool '"@ + tool + "' is not available for extension '"@ + extension + "'"@)
}

/// What becomes of a call: it goes to the extension that it resolves to, unless that extension's
/// configuration leaves the tool out.
pub open spec fn dispatched(
    r: Result<ResolvedModel, ErrorModel>,
    v: Seq<LoadedExtension>,
) -> Result<ResolvedModel, ErrorModel> {
    match r {
        Ok(t) => {
            let k = place_of(v, t.extension_name);
            if k < v.len() && !tool_available(
                texts(v[k].config.available_tools@),
                t.actual_tool_name,
            ) {
                Err(unavailable(t.actual_tool_name, t.extension_name))
            } else {
                Ok(t)
            }
        },
        Err(e) => Err(e),
    }
}

impl ExtensionManager {
    /// The extension that a call goes to. `tools` are those that are offered, and `prefix_key` is
    /// the key of the part of the name before the first double underscore.
    pub fn resolve_tool(&self, tools: &Vec<Tool>, name: &str, prefix_key: &str) -> (r: Result<
        ResolvedTool,
        ErrorData,
    >)
        ensures
            resolved_model(r) == resolved(
                tool_models(tools@),
                name@,
                prefix_key@,
                loaded_keys(self.extensions@),
            ),
    {
        match find_tool(tools, name) {
            Some(k) => resolve_offered(&tools[k], name, prefix_key, self),
            None => {
                if let Some((_, actual)) = split_once(name, "__") {
                    if self.is_extension_enabled(prefix_key) {
                        return Ok(
                            ResolvedTool {
                                tool_name: name.to_owned(),
                                extension_name: prefix_key.to_owned(),
                                actual_tool_name: actual,
                                tool_meta: None,
                                resource_uri: None,
                            },
                        );
                    }
                }
                Err(unknown_tool_error(tools, name))
            },
        }
    }

    /// What becomes of a call.
    pub fn dispatch_tool_call(
        &self,
        tools: &Vec<Tool>,
        name: &str,
        prefix_key: &str,
    ) -> (r: Result<ResolvedTool, ErrorData>)
        ensures
            resolved_model(r) == dispatched(
                resolved(
                    tool_models(tools@),
                    name@,
                    prefix_key@,
                    loaded_keys(self.extensions@),
                ),
                self.extensions@,
            ),
    {
        let resolved_tool = match self.resolve_tool(tools, name, prefix_key) {
            Ok(t) => t,
            Err(e) => {
                return Err(e);
            },
        };
        proof {
            lemma_place(self.extensions@, resolved_tool.extension_name@);
        }
        if let Some(k) = self.find(resolved_tool.extension_name.as_str()) {
            if !self.extensions[k].config.is_tool_available(
                resolved_tool.actual_tool_name.as_str(),
            ) {
                return Err(
                    not_found_error(
                        cat5(
                            "Tool '",
                            resolved_tool.actual_tool_name.as_str(),
                            "' is not available for extension '",
                            resolved_tool.extension_name.as_str(),
                            "'",
                        ),
                    ),
                );
            }
        }
        Ok(resolved_tool)
    }
}

/// A tool that an extension offers under its prefixed name comes back to that extension, under
/// the name that the extension knows it by.
pub proof fn law_published_names_resolve_back(
    ts: Seq<ToolModel>,
    key: Seq<char>,
    t: ToolModel,
    prefix_key: Seq<char>,
    keys: Seq<Seq<char>>,
)
    requires
        keys.contains(key),
        tool_with_name(ts, key + "__"@ + t.name) == Some(published_tool(key, false, t)),
    ensures
        resolved(ts, key + "__"@ + t.name, prefix_key, keys) matches Ok(r) && r.extension_name
            == key && r.actual_tool_name == t.name,
{
    crate::json::lemma_with_member_lookup(
        tool_meta_members(t),
        "goose_extension"@,
        Tree::Str(key),
        "goose_extension"@,
    );
    let name = key + "__"@ + t.name;
    let prefix = key + "__"@;
    assert(name.subrange(0, prefix.len() as int) =~= prefix);
    assert(name.skip(prefix.len() as int) =~= t.name);
    assert(name.subrange(prefix.len() as int, name.len() as int) =~= t.name);
}

/// A call only ever goes to an extension that is loaded, and to a tool that its configuration
/// lets be used.
pub proof fn law_calls_reach_loaded_extensions(
    ts: Seq<ToolModel>,
    name: Seq<char>,
    prefix_key: Seq<char>,
    v: Seq<LoadedExtension>,
)
    requires
        dispatched(resolved(ts, name, prefix_key, loaded_keys(v)), v) is Ok,
    ensures
        ({
            let r = dispatched(resolved(ts, name, prefix_key, loaded_keys(v)), v)->Ok_0;
            let k = place_of(v, r.extension_name);
            &&& k < v.len()
            &&& tool_available(texts(v[k].config.available_tools@), r.actual_tool_name)
        }),
{
    let r = dispatched(resolved(ts, name, prefix_key, loaded_keys(v)), v)->Ok_0;
    let keys = loaded_keys(v);
    lemma_place(v, r.extension_name);
    assert(keys.contains(r.extension_name));
    let j = choose|j: int| 0 <= j < keys.len() && keys[j] == r.extension_name;
    assert(v[j].key@ == r.extension_name);
}

// ---------------------------------------------------------------------------
// The result of a call
// ---------------------------------------------------------------------------

impl ExtensionManagerCapabilities {
    /// Whether the host shows apps: a host that lists its extensions says so itself.
    pub open spec fn shows_apps(&self) -> bool {
        match self.host_info {
            Some(h) => if h.explicit_extensions {
                h.mcpui_enabled
            } else {
                self.mcpui
            },
            None => self.mcpui,
        }
    }

    /// Whether the host shows apps.
    pub fn host_supports_mcp_apps(&self) -> (r: bool)
        ensures
            r == self.shows_apps(),
    {
        if let Some(h) = &self.host_info {
            if h.explicit_extensions {
                return h.mcpui_enabled;
            }
        }
        self.mcpui
    }
}

/// The resource to read for a result.
pub open spec fn attached_resource(
    t: ResolvedModel,
    shows_apps: bool,
    result: crate::conversation::OutputModel,
) -> Option<Seq<char>> {
    if shows_apps && result.is_error != Some(true) {
        t.resource_uri
    } else {
        None
    }
}

/// The resource to read for a result: that of the tool, where the host shows apps and the call
/// went well.
pub fn resource_to_attach(t: &ResolvedTool, shows_apps: bool, result: &ToolOutput) -> (r: Option<
    String,
>)
    ensures
        text_opt(r) == attached_resource(t@, shows_apps, result@),
{
    let failed = match result.is_error {
        Some(b) => b,
        None => false,
    };
    if shows_apps && !failed {
        copy_text(&t.resource_uri)
    } else {
        None
    }
}

/// What is attached to a result once the tool's resource was read, or could not be read.
pub fn attachment_for(t: &ResolvedTool, uri: &str, read: Result<Option<Json>, String>) -> (r:
    GooseMcpAppToolAttachment)
    ensures
        r.tool_name@ == t@.tool_name,
        r.extension_name@ == t@.extension_name,
        r.resource_uri@ == uri@,
        tree_opt(r.tool_meta) == t@.tool_meta,
        match read {
            Ok(v) => tree_opt(r.resource_result) == tree_opt(v) && r.read_error is None,
            Err(e) => r.resource_result is None && text_opt(r.read_error) == Some(e@),
        },
{
    let (resource_result, read_error) = match read {
        Ok(v) => (v, None),
        Err(e) => (None, Some(e)),
    };
    GooseMcpAppToolAttachment {
        tool_name: t.tool_name.clone(),
        extension_name: t.extension_name.clone(),
        resource_uri: uri.to_owned(),
        tool_meta: copy_json(&t.tool_meta),
        resource_result,
        read_error,
    }
}

/// The result of a call as it is handed on.
pub open spec fn call_finished(
    result: crate::conversation::OutputModel,
    attachment: Option<Tree>,
) -> crate::conversation::OutputModel {
    match attachment {
        Some(a) => with_trusted(without_untrusted(result), a),
        None => without_untrusted(result),
    }
}

/// The result of a call as it is handed on: without what only this library may set, then with the
/// attachment, where there is one.
pub fn finish_call(result: ToolOutput, attachment: &Option<GooseMcpAppToolAttachment>) -> (r:
    ToolOutput)
    ensures
        r@ == call_finished(
            result@,
            match attachment {
                Some(a) => Some(a.tree()),
                None => None,
            },
        ),
{
    let mut out = result;
    remove_untrusted_mcp_app_meta(&mut out);
    if let Some(a) = attachment {
        insert_trusted_tool_update_meta(&mut out, a);
    }
    out
}

// ---------------------------------------------------------------------------
// Resources and prompts
// ---------------------------------------------------------------------------

pub open spec fn invalid_params(message: Seq<char>) -> ErrorModel {
    plain_error(ErrorCode::InvalidParams, message)
}

/// A parameter that has to be there and to be a text.
pub open spec fn text_parameter(params: Tree, name: Seq<char>) -> Result<Seq<char>, ErrorModel> {
    match params.get(name) {
        None => Err(invalid_params("The parameter "@ + name + " is required"@)),
        Some(v) => match v.text() {
            Some(s) => Ok(s),
            None => Err(invalid_params("The parameter "@ + name + " must be a string"@)),
        },
    }
}

/// A parameter that has to be there and to be a text.
pub fn require_str_parameter(params: &Json, name: &str) -> (r: Result<String, ErrorData>)
    ensures
        match text_parameter(params@, name@) {
            Ok(s) => r matches Ok(v) && v@ == s,
            Err(m) => r matches Err(e) && e@ == m,
        },
{
    match params.get(name) {
        None => Err(ErrorData::invalid_params(cat3("The parameter ", name, " is required"))),
        Some(v) => match v.as_str() {
            Some(s) => Ok(s.to_owned()),
            None => Err(
                ErrorData::invalid_params(cat3("The parameter ", name, " must be a string")),
            ),
        },
    }
}

/// The resource and the extension that a request to read names.
pub fn read_request(params: &Json) -> (r: Result<(String, String), ErrorData>)
    ensures
        match (
            text_parameter(params@, "uri"@),
            text_parameter(params@, "extension_name"@),
        ) {
            (Err(m), _) => r matches Err(e) && e@ == m,
            (Ok(_), Err(m)) => r matches Err(e) && e@ == m,
            (Ok(u), Ok(x)) => r matches Ok(v) && v.0@ == u && v.1@ == x,
        },
{
    let uri = match require_str_parameter(params, "uri") {
        Ok(s) => s,
        Err(e) => {
            return Err(e);
        },
    };
    match require_str_parameter(params, "extension_name") {
        Ok(s) => Ok((uri, s)),
        Err(e) => Err(e),
    }
}

/// The texts of a resource's contents, each under the resource's address. A part without text is
/// left out.
pub open spec fn resource_parts(uri: Seq<char>, contents: Seq<Option<Seq<char>>>) -> Seq<Seq<char>>
    decreases contents.len(),
{
    if contents.len() == 0 {
        Seq::empty()
    } else {
        let head = resource_parts(uri, contents.drop_last());
        match contents.last() {
            Some(t) => head.push(uri + "\n\n"@ + t),
            None => head,
        }
    }
}

pub open spec fn text_options(v: Seq<Option<String>>) -> Seq<Option<Seq<char>>> {
    Seq::new(v.len(), |i: int| text_opt(v[i]))
}

/// The texts that answer a request to read a resource.
pub fn resource_texts(uri: &str, contents: &Vec<Option<String>>) -> (r: Vec<String>)
    ensures
        texts(r@) == resource_parts(uri@, text_options(contents@)),
{
    let ghost all = text_options(contents@);
    let mut out: Vec<String> = Vec::new();
    let mut i: usize = 0;
    assert(texts(out@) =~= resource_parts(uri@, all.take(0)));
    while i < contents.len()
        invariant
            all == text_options(contents@),
            i <= contents@.len(),
            texts(out@) == resource_parts(uri@, all.take(i as int)),
        decreases contents@.len() - i,
    {
        assert(all.take(i + 1).drop_last() =~= all.take(i as int));
        assert(all.take(i + 1).last() == text_opt(contents@[i as int]));
        if let Some(t) = &contents[i] {
            let ghost before = texts(out@);
            let part = cat3(uri, "\n\n", t.as_str());
            out.push(part);
            assert(texts(out@) =~= before.push(part@));
        }
        i = i + 1;
    }
    assert(all.take(i as int) =~= all);
    out
}

/// The error where a resource could not be read.
pub fn unreadable_resource(uri: &str) -> (r: ErrorData)
    ensures
        r@ == crate::conversation::internal_error("Could not read resource with uri: "@ + uri@),
{
    ErrorData::internal(cat("Could not read resource with uri: ", uri))
}

/// What an extension is asked to list.
#[derive(Clone, Copy, PartialEq, Eq, Structural, Debug)]
pub enum Listing {
    Resources,
    Prompts,
}

/// The error where an extension could not list something, for the given reason.
pub fn listing_failed(what: Listing, extension: &str, reason: &str) -> (r: ErrorData)
    ensures
        r@ == crate::conversation::internal_error(
            (if what == Listing::Resources {
                "Unable to list resources for "@
            } else {
                "Unable to list prompts for "@
            }) + extension@ + ", "@ + reason@,
        ),
{
    let head = if what == Listing::Resources {
        "Unable to list resources for "
    } else {
        "Unable to list prompts for "
    };
    let mut text = cat3(head, extension, ", ");
    text.append(reason);
    ErrorData::internal(text)
}

/// A resource that an extension lists.
#[derive(Debug, PartialEq, Eq)]
pub struct ListedResource {
    pub name: String,
    pub uri: String,
}

pub open spec fn listed_models(v: Seq<ListedResource>) -> Seq<(Seq<char>, Seq<char>)> {
    Seq::new(v.len(), |i: int| (v[i].name@, v[i].uri@))
}

/// A line on each resource.
pub open spec fn resource_lines(
    extension: Seq<char>,
    v: Seq<(Seq<char>, Seq<char>)>,
) -> Seq<Seq<char>> {
    Seq::new(
        v.len(),
        |i: int| extension + " - "@ + v[i].0 + ", uri: ("@ + v[i].1 + ")"@,
    )
}

/// The text that lists the resources of an extension.
pub fn resource_list(extension: &str, resources: &Vec<ListedResource>) -> (r: String)
    ensures
        r@ == joined(resource_lines(extension@, listed_models(resources@)), "\n"@),
{
    let mut out: Vec<String> = Vec::new();
    let mut i: usize = 0;
    while i < resources.len()
        invariant
            i <= resources@.len(),
            out@.len() == i,
            forall|j: int|
                0 <= j < i ==> (#[trigger] out@[j])@ == extension@ + " - "@ + resources@[j].name@
                    + ", uri: ("@ + resources@[j].uri@ + ")"@,
        decreases resources@.len() - i,
    {
        let mut line = cat5(
            extension,
            " - ",
            resources[i].name.as_str(),
            ", uri: (",
            resources[i].uri.as_str(),
        );
        line.append(")");
        out.push(line);
        i = i + 1;
    }
    assert(texts(out@) =~= resource_lines(extension@, listed_models(resources@)));
    join(&out, "\n")
}

/// The places of the resources that describe a user interface.
pub open spec fn ui_places(v: Seq<(Seq<char>, Seq<char>)>) -> Seq<int>
    decreases v.len(),
{
    if v.len() == 0 {
        Seq::empty()
    } else {
        let head = ui_places(v.drop_last());
        if begins(v.last().1, "ui://"@) {
            head.push(v.len() - 1)
        } else {
            head
        }
    }
}

/// The places of the resources that describe a user interface.
pub fn ui_resources(resources: &Vec<ListedResource>) -> (r: Vec<usize>)
    ensures
        r@.map_values(|k: usize| k as int) == ui_places(listed_models(resources@)),
{
    let ghost all = listed_models(resources@);
    let mut out: Vec<usize> = Vec::new();
    let mut i: usize = 0;
    assert(out@.map_values(|k: usize| k as int) =~= ui_places(all.take(0)));
    while i < resources.len()
        invariant
            all == listed_models(resources@),
            i <= resources@.len(),
            out@.map_values(|k: usize| k as int) == ui_places(all.take(i as int)),
        decreases resources@.len() - i,
    {
        assert(all.take(i + 1).drop_last() =~= all.take(i as int));
        assert(all.take(i + 1).last() == (resources@[i as int].name@, resources@[i as int].uri@));
        if starts_with(resources[i].uri.as_str(), "ui://") {
            let ghost before = out@;
            out.push(i);
            assert(out@.map_values(|k: usize| k as int) =~= before.map_values(
                |k: usize| k as int,
            ).push(i as int));
        }
        i = i + 1;
    }
    assert(all.take(i as int) =~= all);
    out
}

/// The keys of the extensions that offer resources.
pub open spec fn resource_keys(v: Seq<LoadedExtension>) -> Seq<Seq<char>>
    decreases v.len(),
{
    if v.len() == 0 {
        Seq::empty()
    } else {
        let head = resource_keys(v.drop_last());
        if v.last().supports_resources {
            head.push(v.last().key@)
        } else {
            head
        }
    }
}

/// The keys of the extensions that run inside the agent.
pub open spec fn inside_keys(v: Seq<LoadedExtension>, table: Seq<PlatformExtension>) -> Seq<
    Seq<char>,
>
    decreases v.len(),
{
    if v.len() == 0 {
        Seq::empty()
    } else {
        let head = inside_keys(v.drop_last(), table);
        if v.last().config.runs_inside(table) {
            head.push(v.last().key@)
        } else {
            head
        }
    }
}

/// The extensions to ask for something: an error where the one that is asked for is not loaded.
pub open spec fn listing_targets(
    asked: Option<Seq<char>>,
    asked_key: Seq<char>,
    v: Seq<LoadedExtension>,
) -> Result<Seq<Seq<char>>, ErrorModel> {
    match asked {
        Some(name) => if loaded_keys(v).contains(asked_key) {
            Ok(seq![asked_key])
        } else {
            Err(invalid_params("Extension "@ + name + " is not valid"@))
        },
        None => Ok(resource_keys(v)),
    }
}

fn key_runs_inside(config: &ExtensionConfig, table: &Vec<PlatformExtension>) -> (r: bool)
    ensures
        r == config.runs_inside(table@),
{
    match config.kind {
        ExtensionKind::Platform { .. } => true,
        ExtensionKind::Builtin { .. } => find_platform(table, config.key.as_str()).is_some(),
        _ => false,
    }
}

/// What the model is told of an extension.
#[derive(Debug, PartialEq, Eq)]
pub struct ExtensionInfo {
    pub name: String,
    pub instructions: String,
    pub has_resources: bool,
}

impl ExtensionManager {
    /// The keys of the extensions that offer resources.
    pub fn resource_extensions(&self) -> (r: Vec<String>)
        ensures
            texts(r@) == resource_keys(self.extensions@),
    {
        let ghost all = self.extensions@;
        let mut out: Vec<String> = Vec::new();
        let mut i: usize = 0;
        assert(texts(out@) =~= resource_keys(all.take(0)));
        while i < self.extensions.len()
            invariant
                all == self.extensions@,
                i <= all.len(),
                texts(out@) == resource_keys(all.take(i as int)),
            decreases all.len() - i,
        {
            assert(all.take(i + 1).drop_last() =~= all.take(i as int));
            if self.extensions[i].supports_resources {
                let ghost before = texts(out@);
                out.push(self.extensions[i].key.clone());
                assert(texts(out@) =~= before.push(all[i as int].key@));
            }
            i = i + 1;
        }
        assert(all.take(i as int) =~= all);
        out
    }

    /// The keys of the extensions that run inside the agent.
    pub fn inside_extensions(&self, table: &Vec<PlatformExtension>) -> (r: Vec<String>)
        ensures
            texts(r@) == inside_keys(self.extensions@, table@),
    {
        let ghost all = self.extensions@;
        let mut out: Vec<String> = Vec::new();
        let mut i: usize = 0;
        assert(texts(out@) =~= inside_keys(all.take(0), table@));
        while i < self.extensions.len()
            invariant
                all == self.extensions@,
                i <= all.len(),
                texts(out@) == inside_keys(all.take(i as int), table@),
            decreases all.len() - i,
        {
            assert(all.take(i + 1).drop_last() =~= all.take(i as int));
            if key_runs_inside(&self.extensions[i].config, table) {
                let ghost before = texts(out@);
                out.push(self.extensions[i].key.clone());
                assert(texts(out@) =~= before.push(all[i as int].key@));
            }
            i = i + 1;
        }
        assert(all.take(i as int) =~= all);
        out
    }

    /// The extensions whose resources a request wants: the one that it names, under the key
    /// `asked_key`, else all that offer some.
    pub fn resource_targets(&self, params: &Json, asked_key: &str) -> (r: Result<
        Vec<String>,
        ErrorData,
    >)
        ensures
            match listing_targets(
                params@.get_text("extension_name"@),
                asked_key@,
                self.extensions@,
            ) {
                Ok(k) => r matches Ok(v) && texts(v@) == k,
                Err(m) => r matches Err(e) && e@ == m,
            },
    {
        match params.get_str("extension_name") {
            Some(name) => match self.require_extension(name, asked_key) {
                Some(e) => Err(e),
                None => {
                    let mut out: Vec<String> = Vec::new();
                    out.push(asked_key.to_owned());
                    assert(texts(out@) =~= seq![asked_key@]);
                    Ok(out)
                },
            },
            None => Ok(self.resource_extensions()),
        }
    }

    /// The error where an extension that is asked for resources or prompts is not loaded.
    pub fn require_extension(&self, name: &str, key: &str) -> (r: Option<ErrorData>)
        ensures
            match r {
                Some(e) => !loaded_keys(self.extensions@).contains(key@) && e@ == invalid_params(
                    "Extension "@ + name@ + " is not valid"@,
                ),
                None => loaded_keys(self.extensions@).contains(key@),
            },
    {
        if self.is_extension_enabled(key) {
            None
        } else {
            Some(ErrorData::invalid_params(cat3("Extension ", name, " is not valid")))
        }
    }

    /// The error where the extension of a resource is not loaded.
    pub fn require_resource_owner(&self, name: &str, key: &str) -> (r: Option<ErrorData>)
        ensures
            match r {
                Some(e) => !loaded_keys(self.extensions@).contains(key@) && e@ == invalid_params(
                    "Extension '"@ + name@ + "' not found. Here are the available extensions: "@
                        + joined(loaded_keys(self.extensions@), ", "@),
                ),
                None => loaded_keys(self.extensions@).contains(key@),
            },
    {
        if self.is_extension_enabled(key) {
            None
        } else {
            let keys = self.list_extensions();
            let list = join(&keys, ", ");
            let mut text = cat3(
                "Extension '",
                name,
                "' not found. Here are the available extensions: ",
            );
            text.append(list.as_str());
            Some(ErrorData::invalid_params(text))
        }
    }

    /// What the model is told of each extension, with the working directory filled into its
    /// instructions.
    pub fn get_extensions_info(&self, working_dir: &str) -> (r: Vec<ExtensionInfo>)
        ensures
            r@.len() == self.extensions@.len(),
            forall|i: int|
                0 <= i < r@.len() ==> {
                    &&& (#[trigger] r@[i]).name@ == self.extensions@[i].key@
                    &&& r@[i].instructions@ == replaced(
                        match text_opt(self.extensions@[i].instructions) {
                            Some(s) => s,
                            None => Seq::empty(),
                        },
                        "{{WORKING_DIR}}"@,
                        working_dir@,
                    )
                    &&& r@[i].has_resources == self.extensions@[i].supports_resources
                },
    {
        proof {
            reveal_strlit("{{WORKING_DIR}}");
            reveal_strlit("");
        }
        let mut out: Vec<ExtensionInfo> = Vec::new();
        let mut i: usize = 0;
        while i < self.extensions.len()
            invariant
                "{{WORKING_DIR}}"@.len() > 0,
                ""@ =~= Seq::empty(),
                i <= self.extensions@.len(),
                out@.len() == i,
                forall|i: int|
                    0 <= i < out@.len() ==> {
                        &&& (#[trigger] out@[i]).name@ == self.extensions@[i].key@
                        &&& out@[i].instructions@ == replaced(
                            match text_opt(self.extensions@[i].instructions) {
                                Some(s) => s,
                                None => Seq::empty(),
                            },
                            "{{WORKING_DIR}}"@,
                            working_dir@,
                        )
                        &&& out@[i].has_resources == self.extensions@[i].supports_resources
                    },
            decreases self.extensions@.len() - i,
        {
            let instructions = match &self.extensions[i].instructions {
                Some(s) => replace(s.as_str(), "{{WORKING_DIR}}", working_dir),
                None => replace("", "{{WORKING_DIR}}", working_dir),
            };
            out.push(
                ExtensionInfo {
                    name: self.extensions[i].key.clone(),
                    instructions,
                    has_resources: self.extensions[i].supports_resources,
                },
            );
            i = i + 1;
        }
        out
    }
}

// ---------------------------------------------------------------------------
// What can be switched on and off
// ---------------------------------------------------------------------------

/// An extension of the configuration.
#[derive(Debug, PartialEq, Eq)]
pub struct ConfiguredExtension {
    pub config: ExtensionConfig,
    pub enabled: bool,
}

/// What is said of an extension that can be switched on.
pub open spec fn shown_description(config: ExtensionConfig) -> Seq<char> {
    match config.kind {
        ExtensionKind::Builtin { display_name, .. } => if config.description@.len() == 0 {
            match text_opt(display_name) {
                Some(d) => d,
                None => "Built-in extension"@,
            }
        } else {
            config.description@
        },
        ExtensionKind::Sse { .. } => "SSE extension (unsupported)"@,
        _ => config.description@,
    }
}

pub open spec fn is_hidden_key(table: Seq<PlatformExtension>, key: Seq<char>) -> bool {
    platform_entry(table, key) matches Some(e) && e.hidden
}

/// A line on each extension that can be switched on.
pub open spec fn available_lines(
    v: Seq<ConfiguredExtension>,
    table: Seq<PlatformExtension>,
) -> Seq<Seq<char>>
    decreases v.len(),
{
    if v.len() == 0 {
        Seq::empty()
    } else {
        let head = available_lines(v.drop_last(), table);
        let e = v.last();
        if !e.enabled && !is_hidden_key(table, e.config.key@) {
            head.push("- "@ + e.config.name@ + " - "@ + shown_description(e.config))
        } else {
            head
        }
    }
}

/// A line on each extension that can be switched off.
pub open spec fn loaded_lines(keys: Seq<Seq<char>>, table: Seq<PlatformExtension>) -> Seq<
    Seq<char>,
>
    decreases keys.len(),
{
    if keys.len() == 0 {
        Seq::empty()
    } else {
        let head = loaded_lines(keys.drop_last(), table);
        if !is_hidden_key(table, keys.last()) {
            head.push("- "@ + keys.last())
        } else {
            head
        }
    }
}

/// The text on what can be switched on and off.
pub open spec fn switches_text(on: Seq<Seq<char>>, off: Seq<Seq<char>>) -> Seq<char> {
    (if on.len() > 0 {
        "Extensions available to enable:\n"@ + joined(on, "\n"@) + "\n"@
    } else {
        "No extensions available to enable.\n"@
    }) + "\n"@ + (if off.len() > 0 {
        "\n\nExtensions available to disable:\n"@ + joined(off, "\n"@) + "\n"@
    } else {
        "No extensions that can be disabled.\n"@
    })
}

fn description_shown(config: &ExtensionConfig) -> (r: String)
    ensures
        r@ == shown_description(*config),
{
    match &config.kind {
        ExtensionKind::Builtin { display_name, .. } => if config.description.as_str().is_empty() {
            match display_name {
                Some(d) => d.clone(),
                None => "Built-in extension".to_owned(),
            }
        } else {
            config.description.clone()
        },
        ExtensionKind::Sse { .. } => "SSE extension (unsupported)".to_owned(),
        _ => config.description.clone(),
    }
}

fn lines_of_available(v: &Vec<ConfiguredExtension>, table: &Vec<PlatformExtension>) -> (r: Vec<
    String,
>)
    ensures
        texts(r@) == available_lines(v@, table@),
{
    let ghost all = v@;
    let mut out: Vec<String> = Vec::new();
    let mut i: usize = 0;
    assert(texts(out@) =~= available_lines(all.take(0), table@));
    while i < v.len()
        invariant
            all == v@,
            i <= all.len(),
            texts(out@) == available_lines(all.take(i as int), table@),
        decreases all.len() - i,
    {
        assert(all.take(i + 1).drop_last() =~= all.take(i as int));
        if !v[i].enabled && !is_hidden_extension(v[i].config.key.as_str(), table) {
            let ghost before = texts(out@);
            let mut line = cat3("- ", v[i].config.name.as_str(), " - ");
            let description = description_shown(&v[i].config);
            line.append(description.as_str());
            out.push(line);
            assert(texts(out@) =~= before.push(line@));
        }
        i = i + 1;
    }
    assert(all.take(i as int) =~= all);
    out
}

fn lines_of_loaded(keys: &Vec<String>, table: &Vec<PlatformExtension>) -> (r: Vec<String>)
    ensures
        texts(r@) == loaded_lines(texts(keys@), table@),
{
    let ghost all = texts(keys@);
    let mut out: Vec<String> = Vec::new();
    let mut i: usize = 0;
    assert(texts(out@) =~= loaded_lines(all.take(0), table@));
    while i < keys.len()
        invariant
            all == texts(keys@),
            i <= keys@.len(),
            texts(out@) == loaded_lines(all.take(i as int), table@),
        decreases keys@.len() - i,
    {
        assert(all.take(i + 1).drop_last() =~= all.take(i as int));
        if !is_hidden_extension(keys[i].as_str(), table) {
            let ghost before = texts(out@);
            let line = cat("- ", keys[i].as_str());
            out.push(line);
            assert(texts(out@) =~= before.push(line@));
        }
        i = i + 1;
    }
    assert(all.take(i as int) =~= all);
    out
}

impl ExtensionManager {
    /// The text on which extensions can be switched on, and which off. Hidden ones are not named.
    pub fn search_available_extensions(
        &self,
        configured: &Vec<ConfiguredExtension>,
        table: &Vec<PlatformExtension>,
    ) -> (r: String)
        ensures
            r@ == switches_text(
                available_lines(configured@, table@),
                loaded_lines(loaded_keys(self.extensions@), table@),
            ),
    {
        let on = lines_of_available(configured, table);
        let keys = self.list_extensions();
        let off = lines_of_loaded(&keys, table);
        assert(texts(on@).len() == on@.len() && texts(off@).len() == off@.len());
        let first = if on.len() > 0 {
            let list = join(&on, "\n");
            cat3("Extensions available to enable:\n", list.as_str(), "\n")
        } else {
            "No extensions available to enable.\n".to_owned()
        };
        let second = if off.len() > 0 {
            let list = join(&off, "\n");
            cat3("\n\nExtensions available to disable:\n", list.as_str(), "\n")
        } else {
            "No extensions that can be disabled.\n".to_owned()
        };
        cat3(first.as_str(), "\n", second.as_str())
    }
}

/// Every tool of an extension that may be used is offered, under a name that tells the extension
/// unless its tools stand without a prefix, and no other tool is.
pub proof fn law_available_tools_are_offered(
    key: Seq<char>,
    unprefixed: bool,
    available: Seq<Seq<char>>,
    ts: Seq<ToolModel>,
    x: ToolModel,
)
    ensures
        published_tools(key, unprefixed, available, ts).contains(x) <==> exists|i: int|
            0 <= i < ts.len() && (available.len() == 0 || available.contains(
                (#[trigger] ts[i]).name,
            )) && x == published_tool(key, unprefixed, ts[i]),
    decreases ts.len(),
{
    if ts.len() > 0 {
        let front = ts.drop_last();
        let head = published_tools(key, unprefixed, available, front);
        law_available_tools_are_offered(key, unprefixed, available, front, x);
        lemma_contains_push(head, published_tool(key, unprefixed, ts.last()), x);
        assert(ts[ts.len() - 1] == ts.last());
        if head.contains(x) {
            let i = choose|i: int|
                0 <= i < front.len() && (available.len() == 0 || available.contains(
                    (#[trigger] front[i]).name,
                )) && x == published_tool(key, unprefixed, front[i]);
            assert(ts[i] == front[i]);
        }
        if exists|i: int|
            0 <= i < ts.len() && (available.len() == 0 || available.contains(
                (#[trigger] ts[i]).name,
            )) && x == published_tool(key, unprefixed, ts[i]) {
            let i = choose|i: int|
                0 <= i < ts.len() && (available.len() == 0 || available.contains(
                    (#[trigger] ts[i]).name,
                )) && x == published_tool(key, unprefixed, ts[i]);
            if i < front.len() {
                assert(front[i] == ts[i]);
            }
        }
    }
}

/// A tool that is offered takes what the extension's does: only its name and its owner are set.
pub proof fn law_offered_tools_are_the_extensions(key: Seq<char>, t: ToolModel, k: Seq<char>)
    ensures
        published_tool(key, true, t).name == t.name,
        begins(published_tool(key, false, t).name, key + "__"@),
        ends(published_tool(key, false, t).name, t.name),
        published_tool(key, false, t).name.len() == key.len() + "__"@.len() + t.name.len(),
        published_tool(key, false, t).description == t.description,
        published_tool(key, false, t).input_schema == t.input_schema,
        published_tool(key, false, t).annotations == t.annotations,
        k != "goose_extension"@ ==> published_tool(key, false, t).meta_get(k) == t.meta_get(k),
{
    let name = key + "__"@ + t.name;
    let n = (key + "__"@).len() as int;
    assert(name.subrange(0, n) =~= key + "__"@);
    assert(name.subrange(n, name.len() as int) =~= t.name);
    assert(name.len() - t.name.len() == n);
    crate::json::lemma_with_member_lookup(
        tool_meta_members(t),
        "goose_extension"@,
        Tree::Str(key),
        k,
    );
}

/// Which tools are wanted: those of the extension that is asked for, or of all, without those of
/// the extension that is left out.
pub proof fn law_which_tools_are_wanted(
    ts: Seq<ToolModel>,
    requested: Option<Seq<char>>,
    excluded: Option<Seq<char>>,
    x: ToolModel,
)
    ensures
        wanted_tools(ts, requested, excluded).contains(x) <==> ts.contains(x) && (requested
            is None || requested == Some(tool_extension(x))) && excluded != Some(tool_extension(x)),
    decreases ts.len(),
{
    if ts.len() > 0 {
        law_which_tools_are_wanted(ts.drop_last(), requested, excluded, x);
        lemma_contains_last(ts, x);
        lemma_contains_push(wanted_tools(ts.drop_last(), requested, excluded), ts.last(), x);
    }
}

/// A tool belongs to the extension that owns it; one without an owner to what its name tells.
pub proof fn law_tools_belong_to_their_extension(t: ToolModel, key: Seq<char>, local: Seq<char>)
    ensures
        t.owner() is Some ==> tool_extension(t) == t.owner()->0,
        t.owner() is None && !has_text(t.name, "__"@) ==> tool_extension(t) == t.name,
        t.owner() is None ==> (split_once_at(t.name, "__"@) matches Some(p) ==> tool_extension(t)
            == p.0),
{
}

/// A tool that was there keeps its name against every later one, and a later tool whose name is
/// free is there as it is.
pub proof fn law_the_first_tool_keeps_its_name(had: Seq<ToolModel>, t: ToolModel)
    ensures
        tool_names(had).contains(t.name) ==> joined_tools(had, seq![t]) == had,
        !tool_names(had).contains(t.name) ==> joined_tools(had, seq![t]) == had.push(t),
{
    assert(seq![t].drop_last() =~= Seq::empty());
    reveal_with_fuel(joined_tools, 2);
    assert(seq![t].last() == t);
}

/// Where calls go. A call of an offered tool goes to its owner where that is loaded; a call of any
/// other name goes to the loaded extension that the part before the double underscore names, under
/// the rest of the name; and every other call is answered that there is no such tool.
#[verifier::rlimit(60)]
pub proof fn law_where_calls_go(
    ts: Seq<ToolModel>,
    name: Seq<char>,
    prefix_key: Seq<char>,
    keys: Seq<Seq<char>>,
)
    ensures
        ({
            let r = resolved(ts, name, prefix_key, keys);
            let prefixed = split_once_at(name, "__"@);
            &&& tool_with_name(ts, name) matches Some(t) ==> {
                &&& t.owner() matches Some(o) ==> (r is Ok <==> keys.contains(o)) && (r matches Ok(
                    m,
                ) ==> m.extension_name == o && m.resource_uri == t.resource_uri())
                &&& t.owner() is None ==> (r is Ok <==> prefixed is Some && keys.contains(
                    prefix_key,
                ))
            }
            &&& tool_with_name(ts, name) is None ==> (r is Ok <==> prefixed is Some
                && keys.contains(prefix_key)) && (r matches Ok(m) ==> m.extension_name == prefix_key
                && m.actual_tool_name == (prefixed->0).1 && m.tool_meta is None)
            &&& r matches Ok(m) ==> m.tool_name == name && keys.contains(m.extension_name)
            &&& r matches Err(e) ==> e.code == ErrorCode::ResourceNotFound && has_text(
                e.message,
                name,
            )
        }),
{
    let all = joined(tool_names(ts), ", "@);
    lemma_has_text("Tool '"@, name, "' not found. Available tools: ["@ + all + "]"@);
    assert("Tool '"@ + name + ("' not found. Available tools: ["@ + all + "]"@) =~= "Tool '"@ + name
        + "' not found. Available tools: ["@ + all + "]"@);
    lemma_has_text("Tool '"@, name, "' has no owner"@);
    if let Some(t) = tool_with_name(ts, name) {
        let o = match t.owner() {
            Some(o) => o,
            None => prefix_key,
        };
        lemma_has_text("Extension '"@ + o + "' not found for tool '"@, name, "'"@);
    }
}

/// A call that resolves is carried out wherever the extension lets the tool be used, and is refused
/// wherever it does not; one that does not resolve stays refused.
pub proof fn law_usable_tools_are_called(
    r: Result<ResolvedModel, ErrorModel>,
    v: Seq<LoadedExtension>,
)
    ensures
        r is Err ==> dispatched(r, v) == r,
        r matches Ok(t) ==> {
            let k = place_of(v, t.extension_name);
            let allowed = texts(v[k].config.available_tools@);
            &&& k < v.len() && (allowed.len() == 0 || allowed.contains(t.actual_tool_name))
                ==> dispatched(r, v) == r
            &&& k < v.len() && !(allowed.len() == 0 || allowed.contains(t.actual_tool_name)) ==> (
            dispatched(r, v) matches Err(e) && e.code == ErrorCode::ResourceNotFound)
        },
{
}

/// A tool is found by its name: the first that has it, and none only where none has.
pub proof fn law_offered_tools_are_found(ts: Seq<ToolModel>, name: Seq<char>)
    ensures
        tool_with_name(ts, name) matches Some(t) ==> t.name == name && ts.contains(t),
        tool_with_name(ts, name) is None <==> !tool_names(ts).contains(name),
    decreases ts.len(),
{
    if ts.len() > 0 {
        law_offered_tools_are_found(ts.skip(1), name);
        lemma_contains_first(tool_names(ts), name);
        assert(tool_names(ts).skip(1) =~= tool_names(ts.skip(1)));
        assert(tool_names(ts)[0] == ts[0].name);
        if tool_with_name(ts, name) is Some {
            lemma_contains_first(ts, tool_with_name(ts, name)->0);
        }
    }
}

/// The name inside is the name without the owner's prefix, where it has that, and else the name.
pub proof fn law_owners_know_tools_without_prefix(owner: Seq<char>, local: Seq<char>, name: Seq<char>)
    ensures
        name_inside(owner + "__"@ + local, owner) == local,
        !begins(name, owner + "__"@) ==> name_inside(name, owner) == name,
{
    let prefix = owner + "__"@;
    let n = prefix.len() as int;
    assert((prefix + local).subrange(0, n) =~= prefix);
    assert((prefix + local).skip(n) =~= local);
}

/// A parameter is given where it is there and a text, and each other case has its own error that
/// names it.
pub proof fn law_parameters_are_checked(params: Tree, name: Seq<char>)
    ensures
        text_parameter(params, name) is Ok <==> params.get(name) matches Some(Tree::Str(_)),
        params.get(name) matches Some(Tree::Str(s)) ==> text_parameter(params, name) == Ok::<
            Seq<char>,
            ErrorModel,
        >(s),
        text_parameter(params, name) matches Err(e) ==> e.code == ErrorCode::InvalidParams
            && has_text(e.message, name),
{
    lemma_has_text("The parameter "@, name, " is required"@);
    lemma_has_text("The parameter "@, name, " must be a string"@);
}

/// Every text of a resource is given under the resource's address, in order.
pub proof fn law_resource_texts_are_given(
    uri: Seq<char>,
    a: Seq<Option<Seq<char>>>,
    b: Seq<Option<Seq<char>>>,
    text: Seq<char>,
)
    ensures
        resource_parts(uri, a + b) == resource_parts(uri, a) + resource_parts(uri, b),
        a == seq![Some(text)] ==> resource_parts(uri, a) == seq![uri + "\n\n"@ + text],
        a == seq![None::<Seq<char>>] ==> resource_parts(uri, a).len() == 0,
    decreases b.len(),
{
    reveal_with_fuel(resource_parts, 2);
    if a.len() == 1 {
        assert(a.drop_last() =~= Seq::empty());
        if a == seq![Some(text)] {
            assert(a.last() == Some(text));
            assert(resource_parts(uri, a) =~= seq![uri + "\n\n"@ + text]);
        }
    }
    if b.len() > 0 {
        law_resource_texts_are_given(uri, a, b.drop_last(), text);
        assert((a + b).drop_last() =~= a + b.drop_last());
        assert((a + b).last() == b.last());
        assert(resource_parts(uri, a + b) =~= resource_parts(uri, a) + resource_parts(uri, b));
    } else {
        assert(a + b =~= a);
        assert(resource_parts(uri, a) + resource_parts(uri, b) =~= resource_parts(uri, a));
    }
}

/// Resources are asked of the extension that is named, where it is loaded, and else of every
/// extension that offers some, and of no other.
pub proof fn law_who_is_asked_for_resources(
    name: Seq<char>,
    key: Seq<char>,
    v: Seq<LoadedExtension>,
    x: Seq<char>,
)
    ensures
        loaded_keys(v).contains(key) ==> listing_targets(Some(name), key, v) == Ok::<
            Seq<Seq<char>>,
            ErrorModel,
        >(seq![key]),
        !loaded_keys(v).contains(key) ==> (listing_targets(Some(name), key, v) matches Err(e)
            && e.code == ErrorCode::InvalidParams && has_text(e.message, name)),
        listing_targets(None, key, v) == Ok::<Seq<Seq<char>>, ErrorModel>(resource_keys(v)),
        resource_keys(v).contains(x) <==> exists|i: int|
            0 <= i < v.len() && (#[trigger] v[i]).supports_resources && v[i].key@ == x,
    decreases v.len(),
{
    lemma_has_text("Extension "@, name, " is not valid"@);
    lemma_resource_keys(v, x);
}

proof fn lemma_resource_keys(v: Seq<LoadedExtension>, x: Seq<char>)
    ensures
        resource_keys(v).contains(x) <==> exists|i: int|
            0 <= i < v.len() && (#[trigger] v[i]).supports_resources && v[i].key@ == x,
    decreases v.len(),
{
    if v.len() > 0 {
        let front = v.drop_last();
        lemma_resource_keys(front, x);
        lemma_contains_push(resource_keys(front), v.last().key@, x);
        assert(v[v.len() - 1] == v.last());
        if resource_keys(front).contains(x) {
            let i = choose|i: int|
                0 <= i < front.len() && (#[trigger] front[i]).supports_resources && front[i].key@
                    == x;
            assert(v[i] == front[i]);
        }
        if exists|i: int| 0 <= i < v.len() && (#[trigger] v[i]).supports_resources && v[i].key@ == x {
            let i = choose|i: int|
                0 <= i < v.len() && (#[trigger] v[i]).supports_resources && v[i].key@ == x;
            if i < front.len() {
                assert(front[i] == v[i]);
            }
        }
    }
}

/// The resources of user interfaces are exactly those with such an address.
pub proof fn law_user_interfaces_by_address(v: Seq<(Seq<char>, Seq<char>)>, k: int)
    ensures
        ui_places(v).contains(k) <==> 0 <= k < v.len() && begins(v[k].1, "ui://"@),
    decreases v.len(),
{
    if v.len() > 0 {
        law_user_interfaces_by_address(v.drop_last(), k);
        lemma_contains_push(ui_places(v.drop_last()), v.len() - 1, k);
        if k < v.len() - 1 && k >= 0 {
            assert(v.drop_last()[k] == v[k]);
        }
    }
}

/// What can be switched on is every extension of the configuration that is off and not hidden; what
/// can be switched off is every one that is loaded and not hidden.
pub proof fn law_what_can_be_switched(
    v: Seq<ConfiguredExtension>,
    keys: Seq<Seq<char>>,
    table: Seq<PlatformExtension>,
    k: int,
)
    ensures
        0 <= k < v.len() && !v[k].enabled && !is_hidden_key(table, v[k].config.key@)
            ==> available_lines(v, table).contains(
            "- "@ + v[k].config.name@ + " - "@ + shown_description(v[k].config),
        ),
        (forall|i: int|
            0 <= i < v.len() ==> (#[trigger] v[i]).enabled || is_hidden_key(
                table,
                v[i].config.key@,
            )) ==> available_lines(v, table).len() == 0,
        0 <= k < keys.len() && !is_hidden_key(table, keys[k]) ==> loaded_lines(
            keys,
            table,
        ).contains("- "@ + keys[k]),
        (forall|i: int| 0 <= i < keys.len() ==> is_hidden_key(table, #[trigger] keys[i]))
            ==> loaded_lines(keys, table).len() == 0,
    decreases v.len() + keys.len(),
{
    if v.len() > 0 {
        let front = v.drop_last();
        law_what_can_be_switched(front, keys, table, k);
        if 0 <= k < v.len() {
            lemma_contains_push(
                available_lines(front, table),
                "- "@ + v.last().config.name@ + " - "@ + shown_description(v.last().config),
                "- "@ + v[k].config.name@ + " - "@ + shown_description(v[k].config),
            );
            if k < front.len() {
                assert(front[k] == v[k]);
            }
        }
        if forall|i: int|
            0 <= i < v.len() ==> (#[trigger] v[i]).enabled || is_hidden_key(
                table,
                v[i].config.key@,
            ) {
            assert(v[v.len() - 1] == v.last());
            assert forall|i: int| 0 <= i < front.len() implies (#[trigger] front[i]).enabled
                || is_hidden_key(table, front[i].config.key@) by {
                assert(front[i] == v[i]);
            }
        }
    } else if keys.len() > 0 {
        let front = keys.drop_last();
        law_what_can_be_switched(v, front, table, k);
        if 0 <= k < keys.len() {
            lemma_contains_push(loaded_lines(front, table), "- "@ + keys.last(), "- "@ + keys[k]);
            if k < front.len() {
                assert(front[k] == keys[k]);
            }
        }
        if forall|i: int| 0 <= i < keys.len() ==> is_hidden_key(table, #[trigger] keys[i]) {
            assert(is_hidden_key(table, keys[keys.len() - 1]));
            assert forall|i: int| 0 <= i < front.len() implies is_hidden_key(
                table,
                #[trigger] front[i],
            ) by {
                assert(front[i] == keys[i]);
            }
        }
    }
}

/// Whether the host shows apps: a host that lists its extensions says so itself, and of any other
/// the platform does.
pub proof fn law_who_shows_apps(c: ExtensionManagerCapabilities)
    ensures
        c.host_info is None ==> c.shows_apps() == c.mcpui,
        c.host_info matches Some(h) ==> (h.explicit_extensions ==> c.shows_apps()
            == h.mcpui_enabled) && (!h.explicit_extensions ==> c.shows_apps() == c.mcpui),
{
}

/// Every extension that runs inside the agent is told by its key, and no other.
pub proof fn law_inside_extensions_are_told(
    v: Seq<LoadedExtension>,
    table: Seq<PlatformExtension>,
    x: Seq<char>,
)
    ensures
        inside_keys(v, table).contains(x) <==> exists|i: int|
            0 <= i < v.len() && (#[trigger] v[i]).config.runs_inside(table) && v[i].key@ == x,
    decreases v.len(),
{
    if v.len() > 0 {
        let front = v.drop_last();
        law_inside_extensions_are_told(front, table, x);
        lemma_contains_push(inside_keys(front, table), v.last().key@, x);
        assert(v[v.len() - 1] == v.last());
        if inside_keys(front, table).contains(x) {
            let i = choose|i: int|
                0 <= i < front.len() && (#[trigger] front[i]).config.runs_inside(table)
                    && front[i].key@ == x;
            assert(v[i] == front[i]);
        }
        if exists|i: int|
            0 <= i < v.len() && (#[trigger] v[i]).config.runs_inside(table) && v[i].key@ == x {
            let i = choose|i: int|
                0 <= i < v.len() && (#[trigger] v[i]).config.runs_inside(table) && v[i].key@ == x;
            if i < front.len() {
                assert(front[i] == v[i]);
            }
        }
    }
}

/// Every resource is listed with its extension, its name and its address.
pub proof fn law_resources_are_listed(
    extension: Seq<char>,
    v: Seq<(Seq<char>, Seq<char>)>,
    i: int,
)
    requires
        0 <= i < v.len(),
    ensures
        resource_lines(extension, v).len() == v.len(),
        begins(resource_lines(extension, v)[i], extension),
        has_text(resource_lines(extension, v)[i], v[i].0),
        has_text(resource_lines(extension, v)[i], v[i].1),
{
    let line = resource_lines(extension, v)[i];
    let a = extension + " - "@;
    let b = ", uri: ("@;
    assert(line =~= a + v[i].0 + (b + v[i].1 + ")"@));
    assert(line =~= (a + v[i].0 + b) + v[i].1 + ")"@);
    lemma_has_text(a, v[i].0, b + v[i].1 + ")"@);
    lemma_has_text(a + v[i].0 + b, v[i].1, ")"@);
    assert(line.subrange(0, extension.len() as int) =~= extension);
}

/// The text on what can be switched names every extension that can be.
pub proof fn law_switches_are_named(on: Seq<Seq<char>>, off: Seq<Seq<char>>, i: int)
    ensures
        0 <= i < on.len() ==> has_text(switches_text(on, off), on[i]),
        0 <= i < off.len() ==> has_text(switches_text(on, off), off[i]),
{
    let first = if on.len() > 0 {
        "Extensions available to enable:\n"@ + joined(on, "\n"@) + "\n"@
    } else {
        "No extensions available to enable.\n"@
    };
    let second = if off.len() > 0 {
        "\n\nExtensions available to disable:\n"@ + joined(off, "\n"@) + "\n"@
    } else {
        "No extensions that can be disabled.\n"@
    };
    let all = switches_text(on, off);
    assert(all =~= first + "\n"@ + second);
    if 0 <= i < on.len() {
        lemma_joined_holds(on, "\n"@, i);
        lemma_in_longer("Extensions available to enable:\n"@, joined(on, "\n"@), "\n"@, on[i]);
        lemma_in_longer(Seq::empty(), first, "\n"@ + second, on[i]);
        assert(Seq::<char>::empty() + first + ("\n"@ + second) =~= all);
    }
    if 0 <= i < off.len() {
        lemma_joined_holds(off, "\n"@, i);
        lemma_in_longer(
            "\n\nExtensions available to disable:\n"@,
            joined(off, "\n"@),
            "\n"@,
            off[i],
        );
        lemma_in_longer(first + "\n"@, second, Seq::empty(), off[i]);
        assert(first + "\n"@ + second + Seq::<char>::empty() =~= all);
    }
}

/// Tools are kept where nothing changed since they were asked for and none are kept; after any
/// change, and fewer than the versions there are, what was asked for before it is not.
pub proof fn law_only_fresh_tools_are_kept(version: u64, changes: nat)
    requires
        0 < changes <= u64::MAX,
    ensures
        keeps_tools(version, version, false),
        !keeps_tools(version, version, true),
        !keeps_tools(version_after(version, changes), version, false),
{
    law_stale_tools_are_not_kept(version, changes);
}

/// The resource of a tool is shown for its good results, where the host shows apps, and for nothing
/// else.
pub proof fn law_when_resources_are_attached(
    t: ResolvedModel,
    shows_apps: bool,
    result: crate::conversation::OutputModel,
)
    ensures
        attached_resource(t, shows_apps, result) is Some <==> shows_apps && result.is_error != Some(
            true,
        ) && t.resource_uri is Some,
        attached_resource(t, shows_apps, result) matches Some(u) ==> t.resource_uri == Some(u),
{
}

/// A result is handed on with what it holds, and its trusted metadata is only ever what this
/// library attached: nothing where that is nothing, whatever the extension had put there.
pub proof fn law_only_own_attachments_are_trusted(
    result: crate::conversation::OutputModel,
    attachment: Tree,
)
    ensures
        crate::json::lookup(
            crate::tools::meta_members(call_finished(result, None)),
            crate::tools::trusted_key(),
        ) is None,
        crate::json::lookup(
            crate::tools::meta_members(call_finished(result, Some(attachment))),
            crate::tools::trusted_key(),
        ) matches Some(t) && t.get("mcpApp"@) == Some(attachment),
        call_finished(result, None).content == result.content,
        call_finished(result, Some(attachment)).content == result.content,
        call_finished(result, Some(attachment)).is_error == result.is_error,
{
    crate::tools::law_untrusted_meta_is_removed(result);
    crate::tools::law_trusted_meta_is_read_back(without_untrusted(result), attachment);
    crate::tools::law_results_keep_their_content(result, attachment);
    crate::tools::law_results_keep_their_content(without_untrusted(result), attachment);
}

/// Once an extension was added it is loaded with its configuration, every other one is still there,
/// and no tools are kept from before; where it could not be started nothing changed and the error is
/// told. Adding it once more changes nothing.
pub proof fn law_what_adding_an_extension_does(
    before: ExtensionManager,
    config: ExtensionConfig,
    resolved: ExtensionConfig,
    started: Result<StartedClient, String>,
    after: ExtensionManager,
    r: Result<(), String>,
    again: Result<StartedClient, String>,
    later: ExtensionManager,
    q: Result<(), String>,
)
    requires
        before.wf(),
        extension_added(before, config, resolved, started, after, r),
        extension_added(after, config, resolved, again, later, q),
    ensures
        r is Ok <==> before.holds(config, resolved) || started is Ok,
        r is Ok ==> after.holds(config, resolved) && later == after && q is Ok,
        r matches Err(e) ==> after == before && (started matches Err(m) && e@ == m@),
        !before.holds(config, resolved) && started is Ok ==> after.tools_cache is None
            && loaded_keys(after.extensions@).contains(config.key@),
        forall|i: int|
            0 <= i < before.extensions@.len() && (#[trigger] before.extensions@[i]).key@
                != config.key@ ==> after.extensions@.contains(before.extensions@[i]),
{
    if !before.holds(config, resolved) && started is Ok {
        let e = choose|e: LoadedExtension|
            {
                &&& e.key@ == config.key@
                &&& e.config == config
                &&& e.resolved == resolved
                &&& e.instructions == started->Ok_0.instructions
                &&& e.supports_resources == started->Ok_0.supports_resources
                &&& after.extensions@ == #[trigger] with_extension(before.extensions@, e)
            };
        law_added_extensions_are_kept(before, after, e);
        law_added_extensions_are_found(before.extensions@, e);
        lemma_place(before.extensions@, e.key@);
        assert forall|i: int|
            0 <= i < before.extensions@.len() && (#[trigger] before.extensions@[i]).key@
                != config.key@ implies after.extensions@.contains(before.extensions@[i]) by {
            assert(with_extension(before.extensions@, e).len() >= before.extensions@.len());
            assert(after.extensions@[i] == before.extensions@[i]);
        }
    } else {
        assert forall|i: int|
            0 <= i < before.extensions@.len() && (#[trigger] before.extensions@[i]).key@
                != config.key@ implies after.extensions@.contains(before.extensions@[i]) by {}
    }
}

} // verus!
