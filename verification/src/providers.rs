//! The providers that are configured, and which one is active.

use crate::conversation::copy_text;
use crate::text::text_opt;
use indexmap::IndexMap;
use vstd::prelude::*;
use vstd::string::*;

verus! {

/// What is configured of a provider.
#[derive(Debug, PartialEq, Eq)]
pub struct ProviderEntry {
    pub enabled: bool,
    pub model: String,
    pub configured: bool,
}

#[verifier::ext_equal]
pub struct EntryModel {
    pub enabled: bool,
    pub model: Seq<char>,
    pub configured: bool,
}

impl ProviderEntry {
    pub open spec fn view(&self) -> EntryModel {
        EntryModel { enabled: self.enabled, model: self.model@, configured: self.configured }
    }

    pub fn copy(&self) -> (r: ProviderEntry)
        ensures
            r@ == self@,
    {
        ProviderEntry {
            enabled: self.enabled,
            model: self.model.clone(),
            configured: self.configured,
        }
    }
}

// ---------------------------------------------------------------------------
// Entries by name
// ---------------------------------------------------------------------------

/// `indexmap::IndexMap`: a map that keeps the order in which keys were first inserted.
#[verifier::external_type_specification]
#[verifier::external_body]
#[verifier::reject_recursive_types(K)]
#[verifier::reject_recursive_types(V)]
#[verifier::reject_recursive_types(S)]
pub struct ExIndexMap<K, V, S>(IndexMap<K, V, S>);

/// What a map of entries holds, in its order.
pub uninterp spec fn entries_of(map: IndexMap<String, ProviderEntry>) -> Seq<
    (Seq<char>, EntryModel),
>;

/// The value of the first entry with the key.
pub open spec fn entry_at(m: Seq<(Seq<char>, EntryModel)>, key: Seq<char>) -> Option<EntryModel>
    decreases m.len(),
{
    if m.len() == 0 {
        None
    } else if m[0].0 == key {
        Some(m[0].1)
    } else {
        entry_at(m.skip(1), key)
    }
}

/// The entries with one more: in the place of the one with the key, else at the end.
pub open spec fn with_entry(
    m: Seq<(Seq<char>, EntryModel)>,
    key: Seq<char>,
    value: EntryModel,
) -> Seq<(Seq<char>, EntryModel)>
    decreases m.len(),
{
    if m.len() == 0 {
        seq![(key, value)]
    } else if m[0].0 == key {
        seq![(key, value)] + m.skip(1)
    } else {
        seq![m[0]] + with_entry(m.skip(1), key, value)
    }
}

/// `IndexMap::new`: a map without entries.
#[verifier::external_body]
fn empty_map() -> (r: IndexMap<String, ProviderEntry>)
    ensures
        entries_of(r) == Seq::<(Seq<char>, EntryModel)>::empty(),
{
    IndexMap::new()
}

/// `IndexMap::insert`: an entry with the key gets the value and keeps its place; where there is
/// none, the entry goes to the end.
#[verifier::external_body]
fn map_insert(map: &mut IndexMap<String, ProviderEntry>, key: String, value: ProviderEntry)
    ensures
        entries_of(*final(map)) == with_entry(entries_of(*old(map)), key@, value@),
{
    map.insert(key, value);
}

/// `IndexMap::get`: the value of the entry with the key.
#[verifier::external_body]
fn map_get<'a>(map: &'a IndexMap<String, ProviderEntry>, key: &str) -> (r: Option<
    &'a ProviderEntry,
>)
    ensures
        match r {
            Some(v) => entry_at(entries_of(*map), key@) == Some(v@),
            None => entry_at(entries_of(*map), key@) is None,
        },
{
    map.get(key)
}

/// `IndexMap::len`: the number of entries.
#[verifier::external_body]
fn map_len(map: &IndexMap<String, ProviderEntry>) -> (r: usize)
    ensures
        r == entries_of(*map).len(),
{
    map.len()
}

/// `IndexMap::get_index`: the entry at a place in the order.
#[verifier::external_body]
fn map_at(map: &IndexMap<String, ProviderEntry>, index: usize) -> (r: Option<
    (&String, &ProviderEntry),
>)
    ensures
        match r {
            Some(e) => index < entries_of(*map).len() && entries_of(*map)[index as int] == (
                e.0@,
                e.1@,
            ),
            None => index >= entries_of(*map).len(),
        },
{
    map.get_index(index)
}

// ---------------------------------------------------------------------------
// Reading the configuration
// ---------------------------------------------------------------------------

/// An entry of the configuration as it was read: its key, where it is a text, and what it holds,
/// where that is what is kept of a provider.
#[derive(Debug, PartialEq, Eq)]
pub struct RawEntry {
    pub key: Option<String>,
    pub entry: Option<ProviderEntry>,
}

/// The entries of the configuration: a malformed one is left out, and one with a key that was
/// there takes its place.
pub open spec fn read_entries(raw: Seq<RawEntry>) -> Seq<(Seq<char>, EntryModel)>
    decreases raw.len(),
{
    if raw.len() == 0 {
        Seq::empty()
    } else {
        let head = read_entries(raw.drop_last());
        match (raw.last().key, raw.last().entry) {
            (Some(k), Some(e)) => with_entry(head, k@, e@),
            _ => head,
        }
    }
}

/// The entries of the configuration. A malformed one is left out.
pub fn parse_providers_map(raw: &Vec<RawEntry>) -> (r: IndexMap<String, ProviderEntry>)
    ensures
        entries_of(r) == read_entries(raw@),
{
    let ghost all = raw@;
    let mut map = empty_map();
    let mut i: usize = 0;
    assert(entries_of(map) == read_entries(all.take(0)));
    while i < raw.len()
        invariant
            all == raw@,
            i <= all.len(),
            entries_of(map) == read_entries(all.take(i as int)),
        decreases all.len() - i,
    {
        assert(all.take(i + 1).drop_last() =~= all.take(i as int));
        assert(all.take(i + 1).last() == all[i as int]);
        if let (Some(k), Some(e)) = (&raw[i].key, &raw[i].entry) {
            map_insert(&mut map, k.clone(), e.copy());
        }
        i = i + 1;
    }
    assert(all.take(i as int) =~= all);
    map
}

/// What is configured of providers.
#[derive(Debug, PartialEq, Eq)]
pub struct ProvidersConfig {
    pub providers: IndexMap<String, ProviderEntry>,
    pub active_provider: Option<String>,
    /// The older way to name the provider.
    pub goose_provider: Option<String>,
    /// The older way to name the model.
    pub goose_model: Option<String>,
}

#[verifier::ext_equal]
pub struct ProvidersModel {
    pub providers: Seq<(Seq<char>, EntryModel)>,
    pub active_provider: Option<Seq<char>>,
    pub goose_provider: Option<Seq<char>>,
    pub goose_model: Option<Seq<char>>,
}

/// The provider that is active: the environment's, else the configured one, else that of the older
/// key.
pub open spec fn active_provider(c: ProvidersModel, environment: Option<Seq<char>>) -> Option<
    Seq<char>,
> {
    match environment {
        Some(p) => Some(p),
        None => match c.active_provider {
            Some(p) => Some(p),
            None => c.goose_provider,
        },
    }
}

/// The model that is active: the environment's, else that of the active provider, where it has
/// one, else that of the older key.
pub open spec fn active_model(
    c: ProvidersModel,
    provider: Option<Seq<char>>,
    model: Option<Seq<char>>,
) -> Option<Seq<char>> {
    match model {
        Some(m) => Some(m),
        None => match active_provider(c, provider) {
            Some(p) => match entry_at(c.providers, p) {
                Some(e) => if e.model.len() > 0 {
                    Some(e.model)
                } else {
                    c.goose_model
                },
                None => c.goose_model,
            },
            None => c.goose_model,
        },
    }
}

/// The configuration after a provider was made the active one.
pub open spec fn activated(c: ProvidersModel, name: Seq<char>, model: Seq<char>) -> ProvidersModel {
    ProvidersModel {
        providers: with_entry(
            c.providers,
            name,
            EntryModel { enabled: true, model, configured: true },
        ),
        active_provider: Some(name),
        ..c
    }
}

/// The configuration without an active provider.
pub open spec fn cleared(c: ProvidersModel) -> ProvidersModel {
    ProvidersModel { active_provider: None, goose_provider: None, goose_model: None, ..c }
}

impl ProvidersConfig {
    pub open spec fn view(&self) -> ProvidersModel {
        ProvidersModel {
            providers: entries_of(self.providers),
            active_provider: text_opt(self.active_provider),
            goose_provider: text_opt(self.goose_provider),
            goose_model: text_opt(self.goose_model),
        }
    }

    /// The configuration as it was read.
    pub fn new(
        raw: &Vec<RawEntry>,
        active_provider: Option<String>,
        goose_provider: Option<String>,
        goose_model: Option<String>,
    ) -> (r: ProvidersConfig)
        ensures
            r@ == (ProvidersModel {
                providers: read_entries(raw@),
                active_provider: text_opt(active_provider),
                goose_provider: text_opt(goose_provider),
                goose_model: text_opt(goose_model),
            }),
    {
        ProvidersConfig {
            providers: parse_providers_map(raw),
            active_provider,
            goose_provider,
            goose_model,
        }
    }

    /// The entries of all providers, in their order.
    pub fn entries(&self) -> (r: Vec<(String, ProviderEntry)>)
        ensures
            r@.len() == self@.providers.len(),
            forall|i: int|
                0 <= i < r@.len() ==> (#[trigger] r@[i]).0@ == self@.providers[i].0 && r@[i].1@
                    == self@.providers[i].1,
    {
        let n = map_len(&self.providers);
        let mut out: Vec<(String, ProviderEntry)> = Vec::new();
        let mut i: usize = 0;
        while i < n
            invariant
                n == self@.providers.len(),
                self@.providers == entries_of(self.providers),
                i <= n,
                out@.len() == i,
                forall|j: int|
                    0 <= j < i ==> (#[trigger] out@[j]).0@ == self@.providers[j].0 && out@[j].1@
                        == self@.providers[j].1,
            decreases n - i,
        {
            if let Some((k, e)) = map_at(&self.providers, i) {
                out.push((k.clone(), e.copy()));
            }
            i = i + 1;
        }
        out
    }
}

/// What is configured of the provider with the name.
pub fn get_provider_entry(config: &ProvidersConfig, name: &str) -> (r: Option<ProviderEntry>)
    ensures
        match r {
            Some(e) => entry_at(config@.providers, name@) == Some(e@),
            None => entry_at(config@.providers, name@) is None,
        },
{
    match map_get(&config.providers, name) {
        Some(e) => Some(e.copy()),
        None => None,
    }
}

/// Configures the provider with the name.
pub fn set_provider_entry(config: &mut ProvidersConfig, name: &str, entry: &ProviderEntry)
    ensures
        final(config)@ == (ProvidersModel {
            providers: with_entry(old(config)@.providers, name@, entry@),
            ..old(config)@
        }),
{
    map_insert(&mut config.providers, name.to_owned(), entry.copy());
}

/// The provider that is active, where `environment` is the one that the environment names.
pub fn get_active_provider(config: &ProvidersConfig, environment: &Option<String>) -> (r: Option<
    String,
>)
    ensures
        text_opt(r) == active_provider(config@, text_opt(*environment)),
{
    if let Some(p) = environment {
        return Some(p.clone());
    }
    if let Some(p) = &config.active_provider {
        return Some(p.clone());
    }
    copy_text(&config.goose_provider)
}

/// The model that is active, where the environment names the given provider and model.
pub fn get_active_model(
    config: &ProvidersConfig,
    provider: &Option<String>,
    model: &Option<String>,
) -> (r: Option<String>)
    ensures
        text_opt(r) == active_model(config@, text_opt(*provider), text_opt(*model)),
{
    if let Some(m) = model {
        return Some(m.clone());
    }
    if let Some(p) = get_active_provider(config, provider) {
        if let Some(e) = get_provider_entry(config, p.as_str()) {
            if !e.model.as_str().is_empty() {
                return Some(e.model);
            }
        }
    }
    copy_text(&config.goose_model)
}

/// Makes a provider the active one, with a model.
pub fn set_active_provider(config: &mut ProvidersConfig, name: &str, model: &str)
    ensures
        final(config)@ == activated(old(config)@, name@, model@),
{
    config.active_provider = Some(name.to_owned());
    let entry = ProviderEntry { enabled: true, model: model.to_owned(), configured: true };
    set_provider_entry(config, name, &entry);
}

/// Leaves no provider active. What is configured of providers stays.
pub fn clear_active_provider(config: &mut ProvidersConfig)
    ensures
        final(config)@ == cleared(old(config)@),
{
    config.active_provider = None;
    config.goose_provider = None;
    config.goose_model = None;
}

// ---------------------------------------------------------------------------
// Laws
// ---------------------------------------------------------------------------

pub proof fn lemma_with_entry(
    m: Seq<(Seq<char>, EntryModel)>,
    key: Seq<char>,
    value: EntryModel,
    other: Seq<char>,
)
    ensures
        entry_at(with_entry(m, key, value), other) == if other == key {
            Some(value)
        } else {
            entry_at(m, other)
        },
    decreases m.len(),
{
    let w = with_entry(m, key, value);
    if m.len() == 0 {
        assert(w.skip(1) =~= Seq::empty());
        assert(entry_at(w.skip(1), other) is None);
    } else if m[0].0 == key {
        assert(w.skip(1) =~= m.skip(1));
    } else {
        assert(w.skip(1) =~= with_entry(m.skip(1), key, value));
        lemma_with_entry(m.skip(1), key, value, other);
    }
}

/// A provider that was made the active one is active with its model, and the other providers keep
/// what is configured of them.
pub proof fn law_activated_providers_are_active(
    c: ProvidersModel,
    name: Seq<char>,
    model: Seq<char>,
    other: Seq<char>,
)
    ensures
        active_provider(activated(c, name, model), None) == Some(name),
        model.len() > 0 ==> active_model(activated(c, name, model), None, None) == Some(model),
        entry_at(activated(c, name, model).providers, name) == Some(
            (EntryModel { enabled: true, model, configured: true }),
        ),
        other != name ==> entry_at(activated(c, name, model).providers, other) == entry_at(
            c.providers,
            other,
        ),
{
    let e = EntryModel { enabled: true, model, configured: true };
    lemma_with_entry(c.providers, name, e, name);
    lemma_with_entry(c.providers, name, e, other);
}

/// After clearing, no provider and no model is active, but for those of the environment, and what
/// is configured of providers is still there.
pub proof fn law_clearing_keeps_the_providers(c: ProvidersModel, name: Seq<char>)
    ensures
        active_provider(cleared(c), None) is None,
        active_model(cleared(c), None, None) is None,
        entry_at(cleared(c).providers, name) == entry_at(c.providers, name),
{
}

/// The environment wins over what is configured.
pub proof fn law_the_environment_wins(
    c: ProvidersModel,
    provider: Seq<char>,
    model: Seq<char>,
)
    ensures
        active_provider(c, Some(provider)) == Some(provider),
        active_model(c, Some(provider), Some(model)) == Some(model),
{
}

/// What was configured of a provider is what is read back, and nothing changes for another; a
/// provider that was there keeps its place.
pub proof fn law_configured_entries_are_read_back(
    m: Seq<(Seq<char>, EntryModel)>,
    key: Seq<char>,
    value: EntryModel,
    other: Seq<char>,
)
    ensures
        entry_at(with_entry(m, key, value), key) == Some(value),
        other != key ==> entry_at(with_entry(m, key, value), other) == entry_at(m, other),
        entry_at(m, key) is Some ==> with_entry(m, key, value).len() == m.len(),
        entry_at(m, key) is None ==> with_entry(m, key, value) == m.push((key, value)),
    decreases m.len(),
{
    lemma_with_entry(m, key, value, key);
    lemma_with_entry(m, key, value, other);
    if m.len() > 0 && m[0].0 != key {
        law_configured_entries_are_read_back(m.skip(1), key, value, other);
        if entry_at(m, key) is None {
            assert(with_entry(m, key, value) =~= m.push((key, value)));
        }
    } else if m.len() == 0 {
        assert(with_entry(m, key, value) =~= m.push((key, value)));
    }
}

/// Every well-formed entry of the configuration is read, the last of a key counts, and a malformed
/// one changes nothing.
pub proof fn law_malformed_entries_are_left_out(raw: Seq<RawEntry>, e: RawEntry, other: Seq<char>)
    ensures
        e.key is None || e.entry is None ==> read_entries(raw.push(e)) == read_entries(raw),
        e.key is Some && e.entry is Some ==> entry_at(read_entries(raw.push(e)), e.key->0@) == Some(
            e.entry->0@,
        ),
        e.key is Some && e.entry is Some && other != e.key->0@ ==> entry_at(
            read_entries(raw.push(e)),
            other,
        ) == entry_at(read_entries(raw), other),
{
    assert(raw.push(e).drop_last() =~= raw);
    if e.key is Some && e.entry is Some {
        lemma_with_entry(read_entries(raw), e.key->0@, e.entry->0@, e.key->0@);
        lemma_with_entry(read_entries(raw), e.key->0@, e.entry->0@, other);
    }
}

/// Where neither the environment nor the configuration names a provider, the older key does; the
/// model is that of the active provider where it has one, and else that of the older key.
pub proof fn law_older_keys_come_last(c: ProvidersModel)
    ensures
        c.active_provider is Some ==> active_provider(c, None) == c.active_provider,
        c.active_provider is None ==> active_provider(c, None) == c.goose_provider,
        active_provider(c, None) is None ==> active_model(c, None, None) == c.goose_model,
        active_provider(c, None) matches Some(p) ==> {
            &&& entry_at(c.providers, p) matches Some(e) ==> (e.model.len() > 0 ==> active_model(
                c,
                None,
                None,
            ) == Some(e.model)) && (e.model.len() == 0 ==> active_model(c, None, None)
                == c.goose_model)
            &&& entry_at(c.providers, p) is None ==> active_model(c, None, None) == c.goose_model
        },
{
}

} // verus!
