//! Providers that are described by data: their ids, their secrets, and what is registered of them.

use crate::conversation::copy_text;
use crate::env::{braced, env_get, env_value, is_set};
use crate::hooks::pair_texts;
use crate::json::{parse, parsed, Json, Tree};
use crate::paths::{below, join_path};
use crate::text::{
    cat, cat3, chars_of, contains, contains_string, decimal, decimal_of, digits_value, ends,
    ends_with, has_text, is_digit, is_lower, lemma_has_text, lowercase, replace, replaced, str_eq, text_opt, texts,
    trim, trimmed, uppercase,
};
use vstd::prelude::*;
use vstd::string::*;

verus! {

broadcast use {crate::json::lemma_array_view, crate::json::lemma_object_view};

// ---------------------------------------------------------------------------
// Descriptions
// ---------------------------------------------------------------------------

/// Whose protocol a provider speaks.
#[derive(Clone, Copy, PartialEq, Eq, Structural, Debug)]
pub enum ProviderEngine {
    OpenAI,
    Ollama,
    Anthropic,
}

/// The engine with a name in lower case.
pub open spec fn engine_named(name: Seq<char>) -> Option<ProviderEngine> {
    if name == "openai"@ || name == "openai_compatible"@ {
        Some(ProviderEngine::OpenAI)
    } else if name == "anthropic"@ || name == "anthropic_compatible"@ {
        Some(ProviderEngine::Anthropic)
    } else if name == "ollama"@ || name == "ollama_compatible"@ {
        Some(ProviderEngine::Ollama)
    } else {
        None
    }
}

impl ProviderEngine {
    /// The engine with a name in lower case.
    pub fn named(name: &str) -> (r: Option<ProviderEngine>)
        ensures
            r == engine_named(name@),
    {
        if str_eq(name, "openai") || str_eq(name, "openai_compatible") {
            Some(ProviderEngine::OpenAI)
        } else if str_eq(name, "anthropic") || str_eq(name, "anthropic_compatible") {
            Some(ProviderEngine::Anthropic)
        } else if str_eq(name, "ollama") || str_eq(name, "ollama_compatible") {
            Some(ProviderEngine::Ollama)
        } else {
            None
        }
    }

    /// The engine that a text names, whatever its case and the blanks around it.
    pub fn from_str(engine: &str) -> (r: Result<ProviderEngine, String>)
        ensures
            match engine_named(lowercase(trimmed(engine@))) {
                Some(e) => r == Ok::<ProviderEngine, String>(e),
                None => r matches Err(m) && m@ == "Invalid provider type: "@ + engine@,
            },
    {
        let bare = trim(engine);
        let name = bare.as_str().to_lowercase();
        match ProviderEngine::named(name.as_str()) {
            Some(e) => Ok(e),
            None => Err(cat("Invalid provider type: ", engine)),
        }
    }

    /// Whether a provider of this engine keeps the model's thinking, where nothing is said of it.
    pub open spec fn keeps_thinking(self) -> bool {
        self == ProviderEngine::OpenAI
    }
}

/// Whether a provider keeps the model's thinking, where nothing is said of it.
pub fn should_preserve_thinking_by_default(engine: ProviderEngine) -> (r: bool)
    ensures
        r == engine.keeps_thinking(),
{
    engine == ProviderEngine::OpenAI
}

/// Whether a provider wants a key, where nothing is said of it.
pub fn default_requires_auth() -> (r: bool)
    ensures
        r,
{
    true
}

/// A variable of a provider.
#[derive(Debug, PartialEq, Eq)]
pub struct EnvVarConfig {
    pub name: String,
    pub required: bool,
    pub secret: bool,
    /// Whether it is shown prominently.
    pub primary: Option<bool>,
    pub description: Option<String>,
    pub default: Option<String>,
}

/// A model of a provider.
#[derive(Debug, PartialEq, Eq)]
pub struct ModelInfo {
    pub name: String,
    pub resolved_model: Option<String>,
    pub context_limit: usize,
    /// What a token costs that goes in, as a number.
    pub input_token_cost: Option<Json>,
    /// What a token costs that comes out, as a number.
    pub output_token_cost: Option<Json>,
    pub currency: Option<String>,
    pub supports_cache_control: Option<bool>,
    pub reasoning: bool,
}

/// The context that a model has where nothing is said of it.
pub const DEFAULT_CONTEXT_LIMIT: usize = 128000;

/// Whether a model is the one that is meant by its name alone.
pub open spec fn named_model(m: ModelInfo, name: Seq<char>) -> bool {
    &&& m.name@ == name
    &&& m.resolved_model is None
    &&& m.context_limit == DEFAULT_CONTEXT_LIMIT
    &&& m.input_token_cost is None
    &&& m.output_token_cost is None
    &&& m.currency is None
    &&& m.supports_cache_control is None
    &&& !m.reasoning
}

impl ModelInfo {
    /// A model of which only the name is known.
    pub fn named(name: String) -> (r: ModelInfo)
        ensures
            named_model(r, name@),
    {
        ModelInfo {
            name,
            resolved_model: None,
            context_limit: DEFAULT_CONTEXT_LIMIT,
            input_token_cost: None,
            output_token_cost: None,
            currency: None,
            supports_cache_control: None,
            reasoning: false,
        }
    }
}

/// Models of which only the names are known.
pub fn named_models(names: &Vec<String>) -> (r: Vec<ModelInfo>)
    ensures
        models_named(r@, texts(names@)),
{
    let mut out: Vec<ModelInfo> = Vec::new();
    let mut i: usize = 0;
    while i < names.len()
        invariant
            i <= names@.len(),
            out@.len() == i,
            forall|j: int| 0 <= j < i ==> named_model(#[trigger] out@[j], names@[j]@),
        decreases names@.len() - i,
    {
        out.push(ModelInfo::named(names[i].clone()));
        i = i + 1;
    }
    out
}

pub open spec fn models_named(ms: Seq<ModelInfo>, names: Seq<Seq<char>>) -> bool {
    &&& ms.len() == names.len()
    &&& forall|i: int| 0 <= i < ms.len() ==> named_model(#[trigger] ms[i], names[i])
}

/// What is known of a provider.
#[derive(Debug, PartialEq, Eq)]
pub struct DeclarativeProviderConfig {
    pub name: String,
    pub engine: ProviderEngine,
    pub display_name: String,
    pub description: Option<String>,
    pub api_key_env: String,
    pub base_url: String,
    pub models: Vec<ModelInfo>,
    pub headers: Option<Vec<(String, String)>>,
    pub timeout_seconds: Option<u64>,
    pub supports_streaming: Option<bool>,
    pub requires_auth: bool,
    pub catalog_provider_id: Option<String>,
    pub base_path: Option<String>,
    pub env_vars: Option<Vec<EnvVarConfig>>,
    pub dynamic_models: Option<bool>,
    pub skip_canonical_filtering: bool,
    pub model_doc_link: Option<String>,
    pub setup_steps: Vec<String>,
    pub fast_model: Option<String>,
    pub preserves_thinking: bool,
}

impl DeclarativeProviderConfig {
    pub fn id(&self) -> (r: &str)
        ensures
            r@ == self.name@,
    {
        self.name.as_str()
    }

    pub fn display_name(&self) -> (r: &str)
        ensures
            r@ == self.display_name@,
    {
        self.display_name.as_str()
    }

    pub fn models(&self) -> (r: &Vec<ModelInfo>)
        ensures
            *r == self.models,
    {
        &self.models
    }
}

/// A text that is set to something other than blanks.
pub fn non_empty_string(s: Option<String>) -> (r: Option<String>)
    ensures
        r == match s {
            Some(t) => if trimmed(t@).len() > 0 {
                s
            } else {
                None
            },
            None => None,
        },
{
    match s {
        Some(t) => {
            let bare = trim(t.as_str());
            if bare.as_str().is_empty() {
                None
            } else {
                Some(t)
            }
        },
        None => None,
    }
}

/// Whether a provider keeps the model's thinking: as its description says, where it does, else by
/// its engine.
pub open spec fn thinking_kept(raw: Tree, engine: ProviderEngine, given: bool) -> bool {
    if raw.get("preserves_thinking"@) is Some {
        given
    } else {
        engine.keeps_thinking()
    }
}

/// A provider as it was read from a description, which tells what it says itself and what it
/// leaves to the engine.
pub fn apply_thinking_default(config: DeclarativeProviderConfig, raw: &Json) -> (r:
    DeclarativeProviderConfig)
    ensures
        r == (DeclarativeProviderConfig {
            preserves_thinking: thinking_kept(raw@, config.engine, config.preserves_thinking),
            ..config
        }),
{
    let mut config = config;
    if raw.get("preserves_thinking").is_none() {
        config.preserves_thinking = should_preserve_thinking_by_default(config.engine);
    }
    config
}

/// A provider as it was read from the text of a description: nothing where the text is no JSON.
pub fn finish_provider_config(config: DeclarativeProviderConfig, content: &str) -> (r: Option<
    DeclarativeProviderConfig,
>)
    ensures
        match parsed(content@) {
            Some(raw) => r == Some(
                (DeclarativeProviderConfig {
                    preserves_thinking: thinking_kept(
                        raw,
                        config.engine,
                        config.preserves_thinking,
                    ),
                    ..config
                }),
            ),
            None => r is None,
        },
{
    match parse(content) {
        Some(raw) => Some(apply_thinking_default(config, &raw)),
        None => None,
    }
}

// ---------------------------------------------------------------------------
// Variables
// ---------------------------------------------------------------------------

/// What is configured: parameters, secrets, and parameters that are no texts but yes or no.
#[derive(Debug, PartialEq, Eq)]
pub struct ConfigValues {
    pub params: Vec<(String, String)>,
    pub secrets: Vec<(String, String)>,
    pub flags: Vec<(String, bool)>,
}

pub open spec fn flag_value(v: Seq<(String, bool)>, name: Seq<char>) -> Option<bool>
    decreases v.len(),
{
    if v.len() == 0 {
        None
    } else if v[0].0@ == name {
        Some(v[0].1)
    } else {
        flag_value(v.skip(1), name)
    }
}

fn flag_get(v: &Vec<(String, bool)>, name: &str) -> (r: Option<bool>)
    ensures
        r == flag_value(v@, name@),
{
    let ghost all = v@;
    let mut i: usize = 0;
    assert(all.skip(0) =~= all);
    while i < v.len()
        invariant
            all == v@,
            i <= all.len(),
            flag_value(all, name@) == flag_value(all.skip(i as int), name@),
        decreases all.len() - i,
    {
        assert(all.skip(i as int)[0] == all[i as int]);
        assert(all.skip(i as int).skip(1) =~= all.skip(i + 1));
        if str_eq(v[i].0.as_str(), name) {
            return Some(v[i].1);
        }
        i = i + 1;
    }
    None
}

/// The value of a provider's variable: as configured, else its default.
pub open spec fn variable_value(var: EnvVarConfig, values: ConfigValues) -> Option<Seq<char>> {
    match env_value(
        pair_texts(
            if var.secret {
                values.secrets@
            } else {
                values.params@
            },
        ),
        var.name@,
    ) {
        Some(v) => Some(v),
        None => text_opt(var.default),
    }
}

/// A template with the variables filled in, one after the other. A variable that is not there is
/// passed over, and one that is there but has no value is left, unless it is required.
pub open spec fn expanded(
    template: Seq<char>,
    vars: Seq<EnvVarConfig>,
    values: ConfigValues,
) -> Result<Seq<char>, Seq<char>>
    decreases vars.len(),
{
    if vars.len() == 0 {
        Ok(template)
    } else {
        match expanded(template, vars.drop_last(), values) {
            Err(e) => Err(e),
            Ok(s) => if !has_text(s, braced(vars.last().name@)) {
                Ok(s)
            } else {
                match variable_value(vars.last(), values) {
                    Some(v) => Ok(replaced(s, braced(vars.last().name@), v)),
                    None => if vars.last().required {
                        Err("Required environment variable "@ + vars.last().name@ + " is not set"@)
                    } else {
                        Ok(s)
                    },
                }
            },
        }
    }
}

proof fn lemma_error_stays(
    template: Seq<char>,
    vars: Seq<EnvVarConfig>,
    values: ConfigValues,
    k: int,
)
    requires
        0 <= k <= vars.len(),
        expanded(template, vars.take(k), values) is Err,
    ensures
        expanded(template, vars, values) == expanded(template, vars.take(k), values),
    decreases vars.len() - k,
{
    if k < vars.len() {
        assert(vars.take(k + 1).drop_last() =~= vars.take(k));
        lemma_error_stays(template, vars, values, k + 1);
    } else {
        assert(vars.take(k) =~= vars);
    }
}

/// A template with the variables of a provider filled in.
pub fn expand_env_vars(template: &str, env_vars: &Vec<EnvVarConfig>, values: &ConfigValues) -> (r:
    Result<String, String>)
    ensures
        match expanded(template@, env_vars@, *values) {
            Ok(s) => r matches Ok(v) && v@ == s,
            Err(m) => r matches Err(e) && e@ == m,
        },
{
    let ghost all = env_vars@;
    let mut result = template.to_owned();
    let mut i: usize = 0;
    assert(expanded(template@, all.take(0), *values) == Ok::<Seq<char>, Seq<char>>(template@));
    while i < env_vars.len()
        invariant
            all == env_vars@,
            i <= all.len(),
            expanded(template@, all.take(i as int), *values) == Ok::<Seq<char>, Seq<char>>(result@),
        decreases all.len() - i,
    {
        assert(all.take(i + 1).drop_last() =~= all.take(i as int));
        assert(all.take(i + 1).last() == all[i as int]);
        let placeholder = cat3("${", env_vars[i].name.as_str(), "}");
        if contains(result.as_str(), placeholder.as_str()) {
            let configured = if env_vars[i].secret {
                env_get(&values.secrets, env_vars[i].name.as_str())
            } else {
                env_get(&values.params, env_vars[i].name.as_str())
            };
            let value = match configured {
                Some(v) => Some(v),
                None => copy_text(&env_vars[i].default),
            };
            match value {
                Some(v) => {
                    proof {
                        reveal_strlit("${");
                    }
                    result = replace(result.as_str(), placeholder.as_str(), v.as_str());
                },
                None => {
                    if env_vars[i].required {
                        proof {
                            lemma_error_stays(template@, all, *values, i + 1);
                        }
                        return Err(
                            cat3(
                                "Required environment variable ",
                                env_vars[i].name.as_str(),
                                " is not set",
                            ),
                        );
                    }
                },
            }
        }
        i = i + 1;
    }
    assert(all.take(i as int) =~= all);
    Ok(result)
}

/// A template that names none of the variables stays as it is, whatever is configured.
pub proof fn law_templates_without_variables_stay(
    template: Seq<char>,
    vars: Seq<EnvVarConfig>,
    values: ConfigValues,
)
    requires
        forall|i: int| 0 <= i < vars.len() ==> !has_text(template, braced((#[trigger] vars[i]).name@)),
    ensures
        expanded(template, vars, values) == Ok::<Seq<char>, Seq<char>>(template),
    decreases vars.len(),
{
    if vars.len() > 0 {
        assert forall|i: int| 0 <= i < vars.drop_last().len() implies !has_text(
            template,
            braced((#[trigger] vars.drop_last()[i]).name@),
        ) by {
            assert(vars.drop_last()[i] == vars[i]);
        }
        law_templates_without_variables_stay(template, vars.drop_last(), values);
        assert(vars.last() == vars[vars.len() - 1]);
    }
}

/// Expanding fails only where a required variable has neither a value nor a default.
pub proof fn law_expanding_fails_only_for_required_variables(
    template: Seq<char>,
    vars: Seq<EnvVarConfig>,
    values: ConfigValues,
)
    requires
        forall|i: int|
            0 <= i < vars.len() && (#[trigger] vars[i]).required ==> variable_value(
                vars[i],
                values,
            ) is Some,
    ensures
        expanded(template, vars, values) is Ok,
    decreases vars.len(),
{
    if vars.len() > 0 {
        assert forall|i: int|
            0 <= i < vars.drop_last().len() && (#[trigger] vars.drop_last()[i]).required implies variable_value(
        vars.drop_last()[i], values) is Some by {
            assert(vars.drop_last()[i] == vars[i]);
        }
        law_expanding_fails_only_for_required_variables(template, vars.drop_last(), values);
        assert(vars.last() == vars[vars.len() - 1]);
    }
}

/// Whether a text means yes.
pub open spec fn means_yes(s: Seq<char>) -> bool {
    lowercase(s) == "true"@
}

/// What a variable says of streaming.
pub open spec fn streaming_said(var: EnvVarConfig, values: ConfigValues) -> Option<bool> {
    if !ends(var.name@, "_STREAMING"@) {
        None
    } else {
        match env_value(pair_texts(values.params@), var.name@) {
            Some(s) => Some(means_yes(s)),
            None => match flag_value(values.flags@, var.name@) {
                Some(b) => Some(b),
                None => match text_opt(var.default) {
                    Some(d) => Some(means_yes(d)),
                    None => None,
                },
            },
        }
    }
}

/// Whether a provider streams: as the last variable that speaks of it says.
pub open spec fn streaming_after(
    start: Option<bool>,
    vars: Seq<EnvVarConfig>,
    values: ConfigValues,
) -> Option<bool>
    decreases vars.len(),
{
    if vars.len() == 0 {
        start
    } else {
        match streaming_said(vars.last(), values) {
            Some(b) => Some(b),
            None => streaming_after(start, vars.drop_last(), values),
        }
    }
}

fn streaming_of(var: &EnvVarConfig, values: &ConfigValues) -> (r: Option<bool>)
    ensures
        r == streaming_said(*var, *values),
{
    if !ends_with(var.name.as_str(), "_STREAMING") {
        return None;
    }
    if let Some(s) = env_get(&values.params, var.name.as_str()) {
        let low = s.as_str().to_lowercase();
        return Some(str_eq(low.as_str(), "true"));
    }
    if let Some(b) = flag_get(&values.flags, var.name.as_str()) {
        return Some(b);
    }
    match &var.default {
        Some(d) => {
            let low = d.as_str().to_lowercase();
            Some(str_eq(low.as_str(), "true"))
        },
        None => None,
    }
}

fn find_streaming(start: Option<bool>, vars: &Vec<EnvVarConfig>, values: &ConfigValues) -> (r:
    Option<bool>)
    ensures
        r == streaming_after(start, vars@, *values),
{
    let ghost all = vars@;
    let mut found = start;
    let mut i: usize = 0;
    assert(found == streaming_after(start, all.take(0), *values));
    while i < vars.len()
        invariant
            all == vars@,
            i <= all.len(),
            found == streaming_after(start, all.take(i as int), *values),
        decreases all.len() - i,
    {
        assert(all.take(i + 1).drop_last() =~= all.take(i as int));
        assert(all.take(i + 1).last() == all[i as int]);
        if let Some(b) = streaming_of(&vars[i], values) {
            found = Some(b);
        }
        i = i + 1;
    }
    assert(all.take(i as int) =~= all);
    found
}

/// Fills the variables into a provider's address, and lets them say whether it streams. Where the
/// address cannot be filled, the provider stays as it is.
pub fn resolve_config(config: &mut DeclarativeProviderConfig, values: &ConfigValues) -> (r: Result<
    (),
    String,
>)
    ensures
        match old(config).env_vars {
            None => r is Ok && *final(config) == *old(config),
            Some(vars) => match expanded(old(config).base_url@, vars@, *values) {
                Ok(url) => {
                    &&& r is Ok
                    &&& final(config).base_url@ == url
                    &&& *final(config) == (DeclarativeProviderConfig {
                        base_url: final(config).base_url,
                        supports_streaming: streaming_after(
                            old(config).supports_streaming,
                            vars@,
                            *values,
                        ),
                        ..*old(config)
                    })
                },
                Err(m) => r matches Err(e) && e@ == m && *final(config) == *old(config),
            },
        },
{
    let (base_url, supports_streaming) = match &config.env_vars {
        None => {
            return Ok(());
        },
        Some(vars) => {
            let url = match expand_env_vars(config.base_url.as_str(), vars, values) {
                Ok(url) => url,
                Err(e) => {
                    return Err(e);
                },
            };
            (url, find_streaming(config.supports_streaming, vars, values))
        },
    };
    config.base_url = base_url;
    config.supports_streaming = supports_streaming;
    Ok(())
}

// ---------------------------------------------------------------------------
// Ids
// ---------------------------------------------------------------------------

/// Whether a character may stand in a provider's id.
pub open spec fn id_char(c: char) -> bool {
    is_lower(c) || is_digit(c) || c == '_' || c == '-'
}

fn is_id_char(c: char) -> (r: bool)
    ensures
        r == id_char(c),
{
    (c >= 'a' && c <= 'z') || (c >= '0' && c <= '9') || c == '_' || c == '-'
}

/// Whether a text can be the id of a new provider.
pub open spec fn valid_id(id: Seq<char>) -> bool {
    &&& id.len() > 0
    &&& id[0] != '-'
    &&& forall|i: int| 0 <= i < id.len() ==> id_char(#[trigger] id[i])
}

/// Whether a text can be the id of a new provider; an error tells that it cannot.
pub fn validate_provider_id(id: &str) -> (r: Result<(), String>)
    ensures
        r is Ok == valid_id(id@),
        r matches Err(e) ==> e@ == if id@.len() == 0 {
            "Invalid provider id: provider id cannot be empty"@
        } else {
            "Invalid provider id: "@ + id@
        },
{
    let v = chars_of(id);
    if v.len() == 0 {
        return Err("Invalid provider id: provider id cannot be empty".to_owned());
    }
    if v[0] == '-' {
        return Err(cat("Invalid provider id: ", id));
    }
    let mut i: usize = 0;
    while i < v.len()
        invariant
            v@ == id@,
            id@.len() > 0,
            i <= v@.len(),
            forall|j: int| 0 <= j < i ==> id_char(#[trigger] id@[j]),
        decreases v@.len() - i,
    {
        if !is_id_char(v[i]) {
            return Err(cat("Invalid provider id: ", id));
        }
        i = i + 1;
    }
    Ok(())
}

/// A text with an underscore in place of what may not stand in an id.
pub open spec fn id_chars(s: Seq<char>) -> Seq<char> {
    Seq::new(
        s.len(),
        |i: int|
            if id_char(s[i]) {
                s[i]
            } else {
                '_'
            },
    )
}

/// A text without underscores at its beginning.
pub open spec fn without_leading(s: Seq<char>) -> Seq<char>
    decreases s.len(),
{
    if s.len() > 0 && s[0] == '_' {
        without_leading(s.skip(1))
    } else {
        s
    }
}

/// A text without underscores at its end.
pub open spec fn without_trailing(s: Seq<char>) -> Seq<char>
    decreases s.len(),
{
    if s.len() > 0 && s.last() == '_' {
        without_trailing(s.drop_last())
    } else {
        s
    }
}

/// What an id begins with, by a name in lower case.
pub open spec fn id_base(lowered: Seq<char>) -> Seq<char> {
    "custom_"@ + without_trailing(without_leading(id_chars(lowered)))
}

/// The ids to try, one after the other.
pub open spec fn id_candidate(base: Seq<char>, k: nat) -> Seq<char> {
    if k == 0 {
        base
    } else {
        base + "_"@ + decimal(k)
    }
}

/// The first id that is not taken.
pub open spec fn is_first_free(base: Seq<char>, taken: Seq<Seq<char>>, id: Seq<char>) -> bool {
    exists|k: nat|
        id == #[trigger] id_candidate(base, k) && !taken.contains(id) && forall|j: nat|
            j < k ==> taken.contains(#[trigger] id_candidate(base, j))
}

/// There is one first id that is not taken.
pub proof fn law_one_first_free_id(
    base: Seq<char>,
    taken: Seq<Seq<char>>,
    a: Seq<char>,
    b: Seq<char>,
)
    requires
        is_first_free(base, taken, a),
        is_first_free(base, taken, b),
    ensures
        a == b,
{
    let i = choose|k: nat|
        a == #[trigger] id_candidate(base, k) && !taken.contains(a) && forall|j: nat|
            j < k ==> taken.contains(#[trigger] id_candidate(base, j));
    let j = choose|k: nat|
        b == #[trigger] id_candidate(base, k) && !taken.contains(b) && forall|j: nat|
            j < k ==> taken.contains(#[trigger] id_candidate(base, j));
    if i < j {
        assert(taken.contains(id_candidate(base, i)));
    } else if j < i {
        assert(taken.contains(id_candidate(base, j)));
    }
}

proof fn lemma_decimal_value(n: nat)
    ensures
        digits_value(decimal(n)) == n,
    decreases n,
{
    if n < 10 {
        assert(decimal(n).drop_last() =~= Seq::empty());
        assert(digits_value(Seq::empty()) == 0);
        lemma_digit(n);
    } else {
        lemma_decimal_value(n / 10);
        lemma_digit(n % 10);
        assert(decimal(n).drop_last() =~= decimal(n / 10));
        assert(n == (n / 10) * 10 + n % 10);
    }
}

proof fn lemma_digit(d: nat)
    requires
        d < 10,
    ensures
        crate::text::digit_value(crate::text::digit_char(d)) == d,
        is_digit(crate::text::digit_char(d)),
{
}

proof fn lemma_candidates_differ(base: Seq<char>, j: nat, k: nat)
    requires
        j != k,
    ensures
        id_candidate(base, j) != id_candidate(base, k),
{
    reveal_strlit("_");
    lemma_decimal_value(j);
    lemma_decimal_value(k);
    let a = id_candidate(base, j);
    let b = id_candidate(base, k);
    if a == b {
        let n = base.len() as int;
        if j > 0 && k > 0 {
            assert(a.skip(n + 1) =~= decimal(j));
            assert(b.skip(n + 1) =~= decimal(k));
        } else {
            assert(a.len() != b.len());
        }
    }
}

/// The characters of a text with an underscore in place of what may not stand in an id, without
/// the underscores at both ends, behind `custom_`.
fn make_base(lowered: &str) -> (r: String)
    ensures
        r@ == id_base(lowered@),
{
    let v = chars_of(lowered);
    let ghost whole = id_chars(lowered@);
    let mut w: Vec<char> = Vec::new();
    let mut i: usize = 0;
    while i < v.len()
        invariant
            v@ == lowered@,
            whole == id_chars(lowered@),
            i <= v@.len(),
            w@ == whole.take(i as int),
        decreases v@.len() - i,
    {
        let c = if is_id_char(v[i]) {
            v[i]
        } else {
            '_'
        };
        w.push(c);
        assert(w@ =~= whole.take(i + 1));
        i = i + 1;
    }
    assert(whole.take(i as int) =~= whole);
    let n: usize = w.len();
    let mut from: usize = 0;
    assert(whole.skip(0) =~= whole);
    while from < n && w[from] == '_'
        invariant
            n == w@.len(),
            w@ == whole,
            from <= n,
            without_leading(whole) == without_leading(whole.skip(from as int)),
        decreases n - from,
    {
        assert(whole.skip(from as int)[0] == '_');
        assert(whole.skip(from as int).skip(1) =~= whole.skip(from + 1));
        from = from + 1;
    }
    let ghost tail = whole.skip(from as int);
    assert(without_leading(whole) == tail) by {
        if from < n {
            assert(tail[0] == w@[from as int]);
        }
    }
    let mut to: usize = n;
    assert(tail.take(to - from) =~= tail);
    while to > from && w[to - 1] == '_'
        invariant
            n == w@.len(),
            w@ == whole,
            from <= to <= n,
            tail == whole.skip(from as int),
            without_trailing(tail) == without_trailing(tail.take(to - from)),
        decreases to,
    {
        assert(tail.take(to - from).last() == '_');
        assert(tail.take(to - from).drop_last() =~= tail.take(to - from - 1));
        to = to - 1;
    }
    assert(without_trailing(tail) == tail.take(to - from)) by {
        if to > from {
            assert(tail.take(to - from).last() == w@[to - 1]);
        }
    }
    let middle = crate::text::string_of(&w, from, to);
    assert(middle@ =~= tail.take(to - from));
    cat("custom_", middle.as_str())
}

fn make_candidate(base: &str, k: u64) -> (r: String)
    ensures
        r@ == id_candidate(base@, k as nat),
{
    if k == 0 {
        base.to_owned()
    } else {
        let n = decimal_of(k);
        cat3(base, "_", n.as_str())
    }
}

fn place_in(v: &Vec<String>, x: &str) -> (r: Option<usize>)
    ensures
        match r {
            Some(i) => i < v@.len() && v@[i as int]@ == x@,
            None => !texts(v@).contains(x@),
        },
{
    let ghost all = texts(v@);
    let mut i: usize = 0;
    while i < v.len()
        invariant
            all == texts(v@),
            i <= v@.len(),
            forall|j: int| 0 <= j < i ==> all[j] != x@,
        decreases v@.len() - i,
    {
        assert(all[i as int] == v@[i as int]@);
        if str_eq(v[i].as_str(), x) {
            return Some(i);
        }
        i = i + 1;
    }
    assert(all.len() == v@.len());
    None
}

/// The first id with the base that is not taken.
fn first_free(base: &str, taken: &Vec<String>) -> (r: String)
    ensures
        is_first_free(base@, texts(taken@), r@),
{
    let ghost tm = texts(taken@);
    let mut rest = crate::text::clone_strings(taken);
    let mut k: u64 = 0;
    let n: usize = taken.len();
    loop
        invariant
            tm == texts(taken@),
            n == taken@.len(),
            rest@.len() + k == n,
            forall|j: nat| j < k ==> tm.contains(#[trigger] id_candidate(base@, j)),
            forall|i: int|
                0 <= i < tm.len() ==> texts(rest@).contains(#[trigger] tm[i]) || exists|j: nat|
                    j < k && tm[i] == #[trigger] id_candidate(base@, j),
        decreases rest@.len(),
    {
        let candidate = make_candidate(base, k);
        if !contains_string(taken, candidate.as_str()) {
            assert(candidate@ == id_candidate(base@, k as nat));
            return candidate;
        }
        let ghost had = texts(rest@);
        let ghost i0 = choose|i: int| 0 <= i < tm.len() && tm[i] == candidate@;
        assert(had.contains(candidate@)) by {
            assert(had.contains(tm[i0]) || exists|j: nat|
                j < k && tm[i0] == #[trigger] id_candidate(base@, j));
            if exists|j: nat| j < k && tm[i0] == #[trigger] id_candidate(base@, j) {
                let j = choose|j: nat| j < k && tm[i0] == #[trigger] id_candidate(base@, j);
                lemma_candidates_differ(base@, j, k as nat);
            }
        }
        match place_in(&rest, candidate.as_str()) {
            Some(p) => {
                let _ = rest.remove(p);
                assert forall|i: int| 0 <= i < tm.len() implies texts(rest@).contains(
                    #[trigger] tm[i],
                ) || exists|j: nat| j < k + 1 && tm[i] == #[trigger] id_candidate(base@, j) by {
                    if had.contains(tm[i]) {
                        let q = choose|q: int| 0 <= q < had.len() && had[q] == tm[i];
                        if q < p {
                            assert(texts(rest@)[q] == tm[i]);
                        } else if q > p {
                            assert(texts(rest@)[q - 1] == tm[i]);
                        } else {
                            assert(tm[i] == id_candidate(base@, k as nat));
                        }
                    } else {
                        let j = choose|j: nat| j < k && tm[i] == #[trigger] id_candidate(base@, j);
                        assert(j < k + 1 && tm[i] == id_candidate(base@, j));
                    }
                }
            },
            None => {
                assert(false);
                return candidate;
            },
        }
        k = k + 1;
    }
}

/// The id of a new provider by its name in lower case: the first that is not taken.
pub fn id_for(lowered: &str, taken: &Vec<String>) -> (r: String)
    ensures
        is_first_free(id_base(lowered@), texts(taken@), r@),
{
    let base = make_base(lowered);
    first_free(base.as_str(), taken)
}

/// The id of a new provider by the name that is shown. `taken` are the ids that there are.
pub fn generate_id(display_name: &str, taken: &Vec<String>) -> (r: String)
    ensures
        is_first_free(id_base(lowercase(display_name@)), texts(taken@), r@),
{
    let lowered = display_name.to_lowercase();
    id_for(lowered.as_str(), taken)
}

/// Every id that is made for a new provider is a valid one, and is not taken.
pub proof fn law_made_ids_are_valid(lowered: Seq<char>, taken: Seq<Seq<char>>, id: Seq<char>)
    requires
        is_first_free(id_base(lowered), taken, id),
    ensures
        valid_id(id),
        !taken.contains(id),
{
    reveal_strlit("custom_");
    reveal_strlit("_");
    let base = id_base(lowered);
    let k = choose|k: nat|
        id == #[trigger] id_candidate(base, k) && !taken.contains(id) && forall|j: nat|
            j < k ==> taken.contains(#[trigger] id_candidate(base, j));
    lemma_leading(id_chars(lowered));
    lemma_trailing(without_leading(id_chars(lowered)));
    lemma_decimal_digits(k);
    let middle = without_trailing(without_leading(id_chars(lowered)));
    assert forall|i: int| 0 <= i < id.len() implies id_char(#[trigger] id[i]) by {
        if i < 7 {
            assert(id[i] == "custom_"@[i]);
        } else if i < base.len() {
            assert(id[i] == middle[i - 7]);
        } else if i == base.len() {
            assert(id[i] == '_');
        } else {
            assert(id[i] == decimal(k)[i - base.len() - 1]);
        }
    }
    assert(id[0] == "custom_"@[0]);
}

proof fn lemma_leading(s: Seq<char>)
    requires
        forall|i: int| 0 <= i < s.len() ==> id_char(#[trigger] s[i]),
    ensures
        forall|i: int|
            0 <= i < without_leading(s).len() ==> id_char(#[trigger] without_leading(s)[i]),
    decreases s.len(),
{
    if s.len() > 0 && s[0] == '_' {
        lemma_leading(s.skip(1));
        assert(without_leading(s) == without_leading(s.skip(1)));
    } else {
        assert(without_leading(s) == s);
    }
}

proof fn lemma_trailing(s: Seq<char>)
    requires
        forall|i: int| 0 <= i < s.len() ==> id_char(#[trigger] s[i]),
    ensures
        forall|i: int|
            0 <= i < without_trailing(s).len() ==> id_char(#[trigger] without_trailing(s)[i]),
    decreases s.len(),
{
    if s.len() > 0 && s.last() == '_' {
        lemma_trailing(s.drop_last());
        assert(without_trailing(s) == without_trailing(s.drop_last()));
    } else {
        assert(without_trailing(s) == s);
    }
}

proof fn lemma_decimal_digits(n: nat)
    ensures
        forall|i: int| 0 <= i < decimal(n).len() ==> is_digit(#[trigger] decimal(n)[i]),
    decreases n,
{
    if n < 10 {
        lemma_digit(n);
    } else {
        lemma_decimal_digits(n / 10);
        lemma_digit(n % 10);
        let head = decimal(n / 10);
        assert forall|i: int| 0 <= i < decimal(n).len() implies is_digit(#[trigger] decimal(n)[i]) by {
            if i < head.len() {
                assert(decimal(n)[i] == head[i]);
            }
        }
    }
}

// ---------------------------------------------------------------------------
// Files and secrets
// ---------------------------------------------------------------------------

/// Whether a character is a control character.
pub open spec fn is_control_char(c: char) -> bool {
    c <= '\u{1f}' || ('\u{7f}' <= c && c <= '\u{9f}')
}

/// Whether a text can name the file of a provider: it is not empty and holds neither a separator
/// of paths nor a control character.
pub open spec fn names_provider_file(id: Seq<char>) -> bool {
    &&& id.len() > 0
    &&& forall|i: int|
        0 <= i < id.len() ==> #[trigger] id[i] != '/' && id[i] != '\\' && !is_control_char(id[i])
}

/// The directory of the providers that the user describes.
pub fn custom_providers_dir(config_dir: &str) -> (r: String)
    ensures
        r@ == below(config_dir@, "custom_providers"@),
{
    join_path(config_dir, "custom_providers")
}

/// The file of a provider in a directory.
pub open spec fn provider_file(dir: Seq<char>, id: Seq<char>) -> Seq<char> {
    below(dir, id + ".json"@)
}

/// The file of a provider, where its id can name one.
pub fn custom_provider_file_path(dir: &str, id: &str) -> (r: Result<String, String>)
    ensures
        if names_provider_file(id@) {
            r matches Ok(p) && p@ == provider_file(dir@, id@)
        } else {
            r matches Err(e) && e@ == "Invalid provider id: "@ + (if id@.len() == 0 {
                "<empty>"@
            } else {
                id@
            })
        },
{
    let v = chars_of(id);
    if v.len() == 0 {
        return Err(cat("Invalid provider id: ", "<empty>"));
    }
    let mut i: usize = 0;
    while i < v.len()
        invariant
            v@ == id@,
            id@.len() > 0,
            i <= v@.len(),
            forall|j: int|
                0 <= j < i ==> #[trigger] id@[j] != '/' && id@[j] != '\\' && !is_control_char(id@[j]),
        decreases v@.len() - i,
    {
        let c = v[i];
        if c == '/' || c == '\\' || c <= '\u{1f}' || (c >= '\u{7f}' && c <= '\u{9f}') {
            assert(!names_provider_file(id@)) by {
                assert(id@[i as int] == c);
            }
            return Err(cat("Invalid provider id: ", id));
        }
        i = i + 1;
    }
    let file = cat(id, ".json");
    Ok(join_path(dir, file.as_str()))
}

/// An id that is valid for a new provider names a file.
pub proof fn law_valid_ids_name_files(id: Seq<char>)
    requires
        valid_id(id),
    ensures
        names_provider_file(id),
{
}

/// The name of the secret that holds a provider's key.
pub fn generate_api_key_name(id: &str) -> (r: String)
    ensures
        r@ == api_key_name(id@),
{
    let upper = id.to_uppercase();
    cat(upper.as_str(), "_API_KEY")
}

/// The name of the secret that holds a provider's key.
pub open spec fn api_key_name(id: Seq<char>) -> Seq<char> {
    uppercase(id) + "_API_KEY"@
}

// ---------------------------------------------------------------------------
// Providers of the user
// ---------------------------------------------------------------------------

/// A provider that the user asks for.
#[derive(Debug, PartialEq, Eq)]
pub struct CreateCustomProviderParams {
    pub engine: String,
    pub display_name: String,
    pub api_url: String,
    pub api_key: Option<String>,
    pub models: Vec<String>,
    pub supports_streaming: Option<bool>,
    pub headers: Option<Vec<(String, String)>>,
    pub requires_auth: bool,
    pub catalog_provider_id: Option<String>,
    pub base_path: Option<String>,
    pub preserves_thinking: Option<bool>,
}

/// What the user changes of a provider.
#[derive(Debug, PartialEq, Eq)]
pub struct UpdateCustomProviderParams {
    pub id: String,
    pub engine: String,
    pub display_name: String,
    pub api_url: String,
    pub api_key: Option<String>,
    pub models: Vec<String>,
    pub supports_streaming: Option<bool>,
    pub headers: Option<Vec<(String, String)>>,
    pub requires_auth: bool,
    pub catalog_provider_id: Option<String>,
    pub base_path: Option<String>,
    pub preserves_thinking: Option<bool>,
}

/// A provider that is there. Only the user's own can be changed.
#[derive(Debug, PartialEq, Eq)]
pub struct LoadedProvider {
    pub config: DeclarativeProviderConfig,
    pub is_editable: bool,
}

/// What is to be done for a new provider: first the secret is kept, where there is one, then the
/// provider is written down, unless an error stands in its place.
#[derive(Debug, PartialEq, Eq)]
pub struct CreatePlan {
    pub secret: Option<(String, String)>,
    pub config: Result<DeclarativeProviderConfig, String>,
}

/// The key that the user gave, where it is more than blanks.
pub open spec fn given_key(key: Option<String>) -> Option<Seq<char>> {
    match text_opt(key) {
        Some(k) => if trimmed(k).len() > 0 {
            Some(k)
        } else {
            None
        },
        None => None,
    }
}

/// Whether a provider is the one that the user asked for, under the id.
pub open spec fn created(
    params: CreateCustomProviderParams,
    id: Seq<char>,
    engine: ProviderEngine,
    c: DeclarativeProviderConfig,
) -> bool {
    &&& c.name@ == id
    &&& c.engine == engine
    &&& c.display_name@ == params.display_name@
    &&& text_opt(c.description) == Some("Custom "@ + params.display_name@ + " provider"@)
    &&& c.api_key_env@ == (if params.requires_auth {
        api_key_name(id)
    } else {
        Seq::empty()
    })
    &&& c.base_url == params.api_url
    &&& models_named(c.models@, texts(params.models@))
    &&& c.headers == params.headers
    &&& c.timeout_seconds is None
    &&& c.supports_streaming == params.supports_streaming
    &&& c.requires_auth == params.requires_auth
    &&& c.catalog_provider_id == params.catalog_provider_id
    &&& c.base_path == params.base_path
    &&& c.env_vars is None
    &&& c.dynamic_models is None
    &&& !c.skip_canonical_filtering
    &&& c.model_doc_link is None
    &&& c.setup_steps@.len() == 0
    &&& c.fast_model is None
    &&& c.preserves_thinking == match params.preserves_thinking {
        Some(b) => b,
        None => engine.keeps_thinking(),
    }
}

/// Whether a plan is the one for a new provider under the id, where `engine` is the engine that
/// the user names.
pub open spec fn create_planned(
    params: CreateCustomProviderParams,
    id: Seq<char>,
    engine: Option<ProviderEngine>,
    plan: CreatePlan,
) -> bool {
    if params.requires_auth && given_key(params.api_key) is None {
        &&& plan.secret is None
        &&& plan.config matches Err(e) && e@ == "apiKey cannot be empty"@
    } else {
        &&& if params.requires_auth {
            plan.secret matches Some(s) && s.0@ == api_key_name(id) && Some(s.1@) == given_key(
                params.api_key,
            )
        } else {
            plan.secret is None
        }
        &&& match engine {
            Some(g) => plan.config matches Ok(c) && created(params, id, g, c),
            None => plan.config matches Err(e) && e@ == "Invalid provider type: "@
                + params.engine@,
        }
    }
}

fn usable_key(key: &Option<String>) -> (r: Option<String>)
    ensures
        text_opt(r) == given_key(*key),
{
    match key {
        Some(k) => {
            let bare = trim(k.as_str());
            if bare.as_str().is_empty() {
                None
            } else {
                Some(k.clone())
            }
        },
        None => None,
    }
}

/// What is to be done for a new provider under the id, where `engine` is the engine that the user
/// names, or the error that there is none.
pub fn plan_creation(
    params: CreateCustomProviderParams,
    id: String,
    engine: Result<ProviderEngine, String>,
) -> (r: CreatePlan)
    requires
        engine matches Err(e) ==> e@ == "Invalid provider type: "@ + params.engine@,
    ensures
        create_planned(
            params,
            id@,
            match engine {
                Ok(g) => Some(g),
                Err(_) => None,
            },
            r,
        ),
{
    let mut api_key_env = String::new();
    proof {
        assert(api_key_env@ =~= Seq::empty());
    }
    let mut secret: Option<(String, String)> = None;
    if params.requires_auth {
        match usable_key(&params.api_key) {
            None => {
                return CreatePlan {
                    secret: None,
                    config: Err("apiKey cannot be empty".to_owned()),
                };
            },
            Some(key) => {
                api_key_env = generate_api_key_name(id.as_str());
                secret = Some((api_key_env.clone(), key));
            },
        }
    }
    let engine = match engine {
        Ok(g) => g,
        Err(e) => {
            return CreatePlan { secret, config: Err(e) };
        },
    };
    let preserves_thinking = match params.preserves_thinking {
        Some(b) => b,
        None => should_preserve_thinking_by_default(engine),
    };
    let config = DeclarativeProviderConfig {
        name: id,
        engine,
        display_name: params.display_name.clone(),
        description: Some(cat3("Custom ", params.display_name.as_str(), " provider")),
        api_key_env,
        base_url: params.api_url,
        models: named_models(&params.models),
        headers: params.headers,
        timeout_seconds: None,
        supports_streaming: params.supports_streaming,
        requires_auth: params.requires_auth,
        catalog_provider_id: params.catalog_provider_id,
        base_path: params.base_path,
        env_vars: None,
        dynamic_models: None,
        skip_canonical_filtering: false,
        model_doc_link: None,
        setup_steps: Vec::new(),
        fast_model: None,
        preserves_thinking,
    };
    CreatePlan { secret, config: Ok(config) }
}

/// What is to be done for a new provider, under an id that is made from its name. `taken` are the
/// ids that there are.
pub fn create_custom_provider(params: CreateCustomProviderParams, taken: &Vec<String>) -> (r:
    CreatePlan)
    ensures
        exists|id: Seq<char>|
            #[trigger] is_first_free(
                id_base(lowercase(params.display_name@)),
                texts(taken@),
                id,
            ) && create_planned(params, id, engine_named(lowercase(trimmed(params.engine@))), r),
{
    let id = generate_id(params.display_name.as_str(), taken);
    let engine = ProviderEngine::from_str(params.engine.as_str());
    let ghost im = id@;
    let r = plan_creation(params, id, engine);
    assert(is_first_free(id_base(lowercase(params.display_name@)), texts(taken@), im));
    r
}

/// What is to be done with a secret.
#[derive(Debug, PartialEq, Eq)]
pub enum SecretChange {
    Keep,
    Store(String, String),
    Delete(String),
}

/// The name of the secret that holds the key of a provider that is there.
pub open spec fn kept_key_name(existing: DeclarativeProviderConfig, id: Seq<char>) -> Seq<char> {
    if existing.api_key_env@.len() == 0 {
        api_key_name(id)
    } else {
        existing.api_key_env@
    }
}

/// The name of the secret that holds the key of a provider that is there.
pub fn stored_key_name(existing: &DeclarativeProviderConfig, id: &str) -> (r: String)
    ensures
        r@ == kept_key_name(*existing, id@),
{
    if existing.api_key_env.as_str().is_empty() {
        generate_api_key_name(id)
    } else {
        existing.api_key_env.clone()
    }
}

/// What a change does to the secret of a provider; an error where a key is wanted and there is
/// none.
pub open spec fn secret_planned(
    params: UpdateCustomProviderParams,
    existing: DeclarativeProviderConfig,
    secret_stored: bool,
    change: Result<SecretChange, String>,
) -> bool {
    if params.requires_auth {
        match text_opt(params.api_key) {
            Some(key) => change matches Ok(SecretChange::Store(n, k)) && n@ == kept_key_name(
                existing,
                params.id@,
            ) && k@ == key,
            None => if secret_stored {
                change matches Ok(SecretChange::Keep)
            } else {
                change matches Err(e) && e@
                    == "apiKey is required when auth is enabled and no secret is stored"@
            },
        }
    } else if existing.api_key_env@ == api_key_name(params.id@) {
        change matches Ok(SecretChange::Delete(n)) && n@ == existing.api_key_env@
    } else {
        change matches Ok(SecretChange::Keep)
    }
}

/// What a change does to the secret of a provider. `secret_stored` tells whether the secret that
/// holds its key is there.
pub fn plan_secret(
    params: &UpdateCustomProviderParams,
    existing: &DeclarativeProviderConfig,
    secret_stored: bool,
) -> (r: Result<SecretChange, String>)
    ensures
        secret_planned(*params, *existing, secret_stored, r),
{
    if params.requires_auth {
        match &params.api_key {
            Some(key) => Ok(
                SecretChange::Store(stored_key_name(existing, params.id.as_str()), key.clone()),
            ),
            None => if secret_stored {
                Ok(SecretChange::Keep)
            } else {
                Err(
                    "apiKey is required when auth is enabled and no secret is stored".to_owned(),
                )
            },
        }
    } else {
        let own = generate_api_key_name(params.id.as_str());
        if str_eq(existing.api_key_env.as_str(), own.as_str()) {
            Ok(SecretChange::Delete(existing.api_key_env.clone()))
        } else {
            Ok(SecretChange::Keep)
        }
    }
}

/// Whether a provider is the one that was there with what the user changed.
pub open spec fn updated(
    params: UpdateCustomProviderParams,
    existing: DeclarativeProviderConfig,
    engine: ProviderEngine,
    c: DeclarativeProviderConfig,
) -> bool {
    &&& c.name@ == params.id@
    &&& c.engine == engine
    &&& c.display_name == params.display_name
    &&& c.description == existing.description
    &&& c.api_key_env@ == (if params.requires_auth {
        kept_key_name(existing, params.id@)
    } else {
        Seq::empty()
    })
    &&& c.base_url == params.api_url
    &&& models_named(c.models@, texts(params.models@))
    &&& c.headers == match params.headers {
        Some(h) => if h@.len() == 0 {
            None
        } else {
            Some(h)
        },
        None => existing.headers,
    }
    &&& c.timeout_seconds == existing.timeout_seconds
    &&& c.supports_streaming == params.supports_streaming
    &&& c.requires_auth == params.requires_auth
    &&& c.catalog_provider_id == params.catalog_provider_id
    &&& c.base_path == params.base_path
    &&& c.env_vars == existing.env_vars
    &&& c.dynamic_models == existing.dynamic_models
    &&& c.skip_canonical_filtering == existing.skip_canonical_filtering
    &&& c.model_doc_link == existing.model_doc_link
    &&& c.setup_steps == existing.setup_steps
    &&& c.fast_model == existing.fast_model
    &&& c.preserves_thinking == match params.preserves_thinking {
        Some(b) => b,
        None => if existing.engine != engine {
            engine.keeps_thinking()
        } else {
            existing.preserves_thinking
        },
    }
}

/// A provider that was there with what the user changed.
pub fn changed_config(
    params: UpdateCustomProviderParams,
    existing: DeclarativeProviderConfig,
    engine: ProviderEngine,
) -> (r: DeclarativeProviderConfig)
    ensures
        updated(params, existing, engine, r),
{
    let api_key_env = if params.requires_auth {
        stored_key_name(&existing, params.id.as_str())
    } else {
        let none = String::new();
        assert(none@ =~= Seq::empty());
        none
    };
    let preserves_thinking = match params.preserves_thinking {
        Some(b) => b,
        None => if existing.engine != engine {
            should_preserve_thinking_by_default(engine)
        } else {
            existing.preserves_thinking
        },
    };
    let headers = match params.headers {
        Some(h) => if h.len() == 0 {
            None
        } else {
            Some(h)
        },
        None => existing.headers,
    };
    DeclarativeProviderConfig {
        name: params.id.clone(),
        engine,
        display_name: params.display_name,
        description: existing.description,
        api_key_env,
        base_url: params.api_url,
        models: named_models(&params.models),
        headers,
        timeout_seconds: existing.timeout_seconds,
        supports_streaming: params.supports_streaming,
        requires_auth: params.requires_auth,
        catalog_provider_id: params.catalog_provider_id,
        base_path: params.base_path,
        env_vars: existing.env_vars,
        dynamic_models: existing.dynamic_models,
        skip_canonical_filtering: existing.skip_canonical_filtering,
        model_doc_link: existing.model_doc_link,
        setup_steps: existing.setup_steps,
        fast_model: existing.fast_model,
        preserves_thinking,
    }
}

/// Whether this is written down of a provider that the user changes, where `engine` is the engine
/// that the user names: nothing of one that is not the user's own.
pub open spec fn update_made(
    params: UpdateCustomProviderParams,
    loaded: LoadedProvider,
    engine: Option<ProviderEngine>,
    r: Result<Option<DeclarativeProviderConfig>, String>,
) -> bool {
    if loaded.is_editable {
        match engine {
            Some(g) => r matches Ok(Some(c)) && updated(params, loaded.config, g, c),
            None => r matches Err(e) && e@ == "Invalid provider type: "@ + params.engine@,
        }
    } else {
        r matches Ok(None)
    }
}

/// What is written down of a provider that the user changes, once its secret was changed: nothing
/// of one that is not the user's own.
pub fn update_custom_provider(params: UpdateCustomProviderParams, loaded: LoadedProvider) -> (r:
    Result<Option<DeclarativeProviderConfig>, String>)
    ensures
        update_made(params, loaded, engine_named(lowercase(trimmed(params.engine@))), r),
{
    if !loaded.is_editable {
        return Ok(None);
    }
    match ProviderEngine::from_str(params.engine.as_str()) {
        Ok(engine) => Ok(Some(changed_config(params, loaded.config, engine))),
        Err(e) => Err(e),
    }
}

/// The secret to delete with a provider.
pub open spec fn secret_removed(id: Seq<char>, existing: DeclarativeProviderConfig) -> Option<
    Seq<char>,
> {
    if existing.api_key_env@ == api_key_name(id) {
        Some(existing.api_key_env@)
    } else {
        None
    }
}

/// The secret to delete with a provider: its key, where that is kept under the provider's own name.
pub fn remove_custom_provider(id: &str, existing: &DeclarativeProviderConfig) -> (r: Option<String>)
    ensures
        text_opt(r) == secret_removed(id@, *existing),
{
    let own = generate_api_key_name(id);
    if str_eq(existing.api_key_env.as_str(), own.as_str()) {
        Some(existing.api_key_env.clone())
    } else {
        None
    }
}

// ---------------------------------------------------------------------------
// Loading
// ---------------------------------------------------------------------------

/// The place of the first provider with the id; the number of providers, where there is none.
pub open spec fn provider_place(v: Seq<DeclarativeProviderConfig>, id: Seq<char>) -> int
    decreases v.len(),
{
    if v.len() == 0 {
        0
    } else if v[0].name@ == id {
        0
    } else {
        1 + provider_place(v.skip(1), id)
    }
}

fn find_provider(v: &Vec<DeclarativeProviderConfig>, id: &str) -> (r: Option<usize>)
    ensures
        match r {
            Some(k) => k < v@.len() && k == provider_place(v@, id@),
            None => provider_place(v@, id@) == v@.len(),
        },
{
    let ghost all = v@;
    let mut i: usize = 0;
    assert(all.skip(0) =~= all);
    while i < v.len()
        invariant
            all == v@,
            i <= all.len(),
            provider_place(all, id@) == i + provider_place(all.skip(i as int), id@),
        decreases all.len() - i,
    {
        assert(all.skip(i as int)[0] == all[i as int]);
        assert(all.skip(i as int).skip(1) =~= all.skip(i + 1));
        if str_eq(v[i].name.as_str(), id) {
            return Some(i);
        }
        i = i + 1;
    }
    None
}

/// Whether this is the provider with the id, by what the user's file of that id holds and by the
/// providers that come with the program.
pub open spec fn provider_loaded(
    id: Seq<char>,
    custom: Option<Result<DeclarativeProviderConfig, String>>,
    fixed: Seq<DeclarativeProviderConfig>,
    r: Result<LoadedProvider, String>,
) -> bool {
    if !names_provider_file(id) {
        r matches Err(e) && e@ == "Invalid provider id: "@ + (if id.len() == 0 {
            "<empty>"@
        } else {
            id
        })
    } else {
        match custom {
            Some(Ok(c)) => r == Ok::<LoadedProvider, String>(
                LoadedProvider { config: c, is_editable: true },
            ),
            Some(Err(e)) => r == Err::<LoadedProvider, String>(e),
            None => if provider_place(fixed, id) < fixed.len() {
                r == Ok::<LoadedProvider, String>(
                    LoadedProvider {
                        config: fixed[provider_place(fixed, id)],
                        is_editable: false,
                    },
                )
            } else {
                r matches Err(e) && e@ == "Provider not found: "@ + id
            },
        }
    }
}

/// The provider with the id. `custom` is what the user's file of that id holds, where there is
/// one, or why it could not be read; `fixed` are the providers that come with the program.
pub fn load_provider(
    id: &str,
    custom: Option<Result<DeclarativeProviderConfig, String>>,
    fixed: Vec<DeclarativeProviderConfig>,
) -> (r: Result<LoadedProvider, String>)
    ensures
        provider_loaded(id@, custom, fixed@, r),
{
    match custom_provider_file_path("", id) {
        Ok(_) => {},
        Err(e) => {
            return Err(e);
        },
    }
    match custom {
        Some(Ok(config)) => Ok(LoadedProvider { config, is_editable: true }),
        Some(Err(e)) => Err(e),
        None => {
            let mut fixed = fixed;
            match find_provider(&fixed, id) {
                Some(k) => Ok(LoadedProvider { config: fixed.remove(k), is_editable: false }),
                None => Err(cat("Provider not found: ", id)),
            }
        },
    }
}

/// The providers that could be read.
pub open spec fn readable(v: Seq<Option<DeclarativeProviderConfig>>) -> Seq<
    DeclarativeProviderConfig,
>
    decreases v.len(),
{
    if v.len() == 0 {
        Seq::empty()
    } else {
        match v.last() {
            Some(c) => readable(v.drop_last()).push(c),
            None => readable(v.drop_last()),
        }
    }
}

/// The providers that come with the program: those that cannot be read are left out.
pub fn load_fixed_providers(read: Vec<Option<DeclarativeProviderConfig>>) -> (r: Vec<
    DeclarativeProviderConfig,
>)
    ensures
        r@ == readable(read@),
{
    let ghost all = read@;
    let mut rest = read;
    let mut out: Vec<DeclarativeProviderConfig> = Vec::new();
    let ghost mut k: int = 0;
    assert(all.skip(0) =~= all);
    assert(out@ =~= readable(all.take(0)));
    while rest.len() > 0
        invariant
            0 <= k <= all.len(),
            rest@ == all.skip(k),
            out@ == readable(all.take(k)),
        decreases rest@.len(),
    {
        assert(all.take(k + 1).drop_last() =~= all.take(k));
        assert(all.take(k + 1).last() == rest@[0]);
        let next = rest.remove(0);
        assert(rest@ =~= all.skip(k + 1));
        if let Some(c) = next {
            out.push(c);
        }
        proof {
            k = k + 1;
        }
    }
    assert(all.take(k) =~= all);
    out
}

/// What came of reading one of the user's files.
#[derive(Debug, PartialEq, Eq)]
pub enum ProviderFile {
    /// It could not be read, for this reason.
    Unreadable(String),
    /// The file at this path holds no provider, for this reason.
    Invalid(String, String),
    Provider(DeclarativeProviderConfig),
}

/// What is wrong with the first of the user's files that gives no provider.
pub open spec fn first_failure(v: Seq<ProviderFile>) -> Option<Seq<char>>
    decreases v.len(),
{
    if v.len() == 0 {
        None
    } else {
        match v[0] {
            ProviderFile::Provider(_) => first_failure(v.skip(1)),
            ProviderFile::Unreadable(e) => Some(e@),
            ProviderFile::Invalid(path, e) => Some("Failed to parse "@ + path@ + ": "@ + e@),
        }
    }
}

/// The providers of the user, one for each file: the first error where a file gives none.
pub fn load_custom_providers(read: Vec<ProviderFile>) -> (r: Result<
    Vec<DeclarativeProviderConfig>,
    String,
>)
    ensures
        match first_failure(read@) {
            Some(m) => r matches Err(e) && e@ == m,
            None => {
                &&& r matches Ok(v)
                &&& v@.len() == read@.len()
                &&& forall|i: int|
                    0 <= i < v@.len() ==> read@[i] == ProviderFile::Provider(#[trigger] v@[i])
            },
        },
{
    let ghost all = read@;
    let mut rest = read;
    let mut out: Vec<DeclarativeProviderConfig> = Vec::new();
    assert(all.skip(0) =~= all);
    while rest.len() > 0
        invariant
            all == read@,
            out@.len() <= all.len(),
            rest@ == all.skip(out@.len() as int),
            first_failure(all) == first_failure(all.skip(out@.len() as int)),
            forall|i: int|
                0 <= i < out@.len() ==> all[i] == ProviderFile::Provider(#[trigger] out@[i]),
        decreases rest@.len(),
    {
        let ghost k = out@.len() as int;
        assert(all.skip(k).skip(1) =~= all.skip(k + 1));
        assert(all.skip(k)[0] == all[k]);
        let next = rest.remove(0);
        assert(rest@ =~= all.skip(k + 1));
        match next {
            ProviderFile::Provider(c) => {
                out.push(c);
            },
            ProviderFile::Unreadable(e) => {
                return Err(e);
            },
            ProviderFile::Invalid(path, e) => {
                let mut text = cat3("Failed to parse ", path.as_str(), ": ");
                text.append(e.as_str());
                return Err(text);
            },
        }
    }
    Ok(out)
}

// ---------------------------------------------------------------------------
// Registering
// ---------------------------------------------------------------------------

/// Where a provider comes from.
#[derive(Clone, Copy, PartialEq, Eq, Structural, Debug)]
pub enum ProviderType {
    /// With the program.
    Declarative,
    /// From the user.
    Custom,
}

/// How a provider is reached.
#[derive(Clone, Copy, PartialEq, Eq, Structural, Debug)]
pub enum ProviderKind {
    HuggingFace,
    OpenAi,
    Ollama,
    Anthropic,
}

/// What is registered of a provider.
#[derive(Debug, PartialEq, Eq)]
pub struct Registration {
    pub config: DeclarativeProviderConfig,
    pub provider_type: ProviderType,
    pub kind: ProviderKind,
    /// Whether it is asked for its models.
    pub dynamic_models: bool,
}

/// How a provider is reached, by its engine; `hugging_face` tells whether one that speaks the
/// protocol of OpenAI is at Hugging Face.
pub open spec fn kind_of(engine: ProviderEngine, hugging_face: bool) -> ProviderKind {
    match engine {
        ProviderEngine::OpenAI => if hugging_face {
            ProviderKind::HuggingFace
        } else {
            ProviderKind::OpenAi
        },
        ProviderEngine::Ollama => ProviderKind::Ollama,
        ProviderEngine::Anthropic => ProviderKind::Anthropic,
    }
}

/// What is registered of a provider.
pub open spec fn registered(
    config: DeclarativeProviderConfig,
    provider_type: ProviderType,
    hugging_face: bool,
) -> Registration {
    Registration {
        config,
        provider_type,
        kind: kind_of(config.engine, hugging_face),
        dynamic_models: match config.dynamic_models {
            Some(b) => b,
            None => false,
        },
    }
}

/// What is registered of a provider.
pub fn register_declarative_provider(
    config: DeclarativeProviderConfig,
    provider_type: ProviderType,
    hugging_face: bool,
) -> (r: Registration)
    ensures
        r == registered(config, provider_type, hugging_face),
{
    let kind = match config.engine {
        ProviderEngine::OpenAI => if hugging_face {
            ProviderKind::HuggingFace
        } else {
            ProviderKind::OpenAi
        },
        ProviderEngine::Ollama => ProviderKind::Ollama,
        ProviderEngine::Anthropic => ProviderKind::Anthropic,
    };
    let dynamic_models = match config.dynamic_models {
        Some(b) => b,
        None => false,
    };
    Registration { config, provider_type, kind, dynamic_models }
}

pub open spec fn all_registered(
    v: Seq<(DeclarativeProviderConfig, bool)>,
    provider_type: ProviderType,
) -> Seq<Registration> {
    Seq::new(v.len(), |i: int| registered(v[i].0, provider_type, v[i].1))
}

fn register_all(
    out: &mut Vec<Registration>,
    v: Vec<(DeclarativeProviderConfig, bool)>,
    provider_type: ProviderType,
)
    ensures
        final(out)@ == old(out)@ + all_registered(v@, provider_type),
{
    let ghost all = all_registered(v@, provider_type);
    let ghost before = out@;
    let ghost whole = v@;
    let mut rest = v;
    let ghost mut k: int = 0;
    assert(whole.skip(0) =~= whole);
    assert(before + all.take(0) =~= before);
    while rest.len() > 0
        invariant
            0 <= k <= whole.len(),
            all == all_registered(whole, provider_type),
            rest@ == whole.skip(k),
            out@ == before + all.take(k),
        decreases rest@.len(),
    {
        assert(whole.skip(k)[0] == whole[k]);
        let (config, hugging_face) = rest.remove(0);
        assert(rest@ =~= whole.skip(k + 1));
        out.push(register_declarative_provider(config, provider_type, hugging_face));
        assert(out@ =~= before + all.take(k + 1));
        proof {
            k = k + 1;
        }
    }
    assert(all.take(k) =~= all);
}

/// What is registered of all providers: first those that come with the program, then the user's,
/// so that these take the place of the others with their names. Each comes with whether it is at
/// Hugging Face.
pub fn register_declarative_providers(
    fixed: Vec<(DeclarativeProviderConfig, bool)>,
    custom: Vec<(DeclarativeProviderConfig, bool)>,
) -> (r: Vec<Registration>)
    ensures
        r@ == all_registered(fixed@, ProviderType::Declarative) + all_registered(
            custom@,
            ProviderType::Custom,
        ),
{
    let mut out: Vec<Registration> = Vec::new();
    register_all(&mut out, fixed, ProviderType::Declarative);
    register_all(&mut out, custom, ProviderType::Custom);
    assert(out@ =~= all_registered(fixed@, ProviderType::Declarative) + all_registered(
        custom@,
        ProviderType::Custom,
    ));
    out
}

/// Whether the models of a provider at Hugging Face can be listed: one that wants no key can; one
/// with a key of its own needs that key, and any other the key for Hugging Face.
pub fn huggingface_declarative_inventory_configured_from_sources(
    config: &DeclarativeProviderConfig,
    provider_secret_configured: impl FnOnce(&str) -> bool,
    global_huggingface_configured: impl FnOnce() -> bool,
) -> (r: bool)
    requires
        forall|key: &str| call_requires(provider_secret_configured, (key,)),
        call_requires(global_huggingface_configured, ()),
    ensures
        !config.requires_auth ==> r,
        config.requires_auth && config.api_key_env@.len() > 0 ==> exists|key: &str|
            key@ == config.api_key_env@ && #[trigger] call_ensures(
                provider_secret_configured,
                (key,),
                r,
            ),
        config.requires_auth && config.api_key_env@.len() == 0 ==> call_ensures(
            global_huggingface_configured,
            (),
            r,
        ),
{
    if !config.requires_auth {
        return true;
    }
    if !config.api_key_env.as_str().is_empty() {
        return provider_secret_configured(config.api_key_env.as_str());
    }
    global_huggingface_configured()
}

/// Whether the models of a provider at Hugging Face can be listed, by the names of the secrets
/// that are configured and whether the key for Hugging Face is.
pub fn huggingface_declarative_inventory_configured(
    config: &DeclarativeProviderConfig,
    secrets: &Vec<String>,
    global_token: bool,
) -> (r: bool)
    ensures
        r == if !config.requires_auth {
            true
        } else if config.api_key_env@.len() > 0 {
            texts(secrets@).contains(config.api_key_env@)
        } else {
            global_token
        },
{
    let own = |key: &str| -> (b: bool)
        ensures
            b == texts(secrets@).contains(key@),
    {
        contains_string(secrets, key)
    };
    let shared = || -> (b: bool)
        ensures
            b == global_token,
    {
        global_token
    };
    huggingface_declarative_inventory_configured_from_sources(config, own, shared)
}

/// Which engine a name means: each of the three its own name, and that name with `_compatible`
/// behind it; nothing else means one.
pub proof fn law_engines_have_two_names(name: Seq<char>)
    ensures
        engine_named(name) == Some(ProviderEngine::OpenAI) <==> name == "openai"@ || name
            == "openai_compatible"@,
        engine_named(name) == Some(ProviderEngine::Anthropic) <==> name == "anthropic"@ || name
            == "anthropic_compatible"@,
        engine_named(name) == Some(ProviderEngine::Ollama) <==> name == "ollama"@ || name
            == "ollama_compatible"@,
{
    reveal_strlit("openai");
    reveal_strlit("openai_compatible");
    reveal_strlit("anthropic");
    reveal_strlit("anthropic_compatible");
    reveal_strlit("ollama");
    reveal_strlit("ollama_compatible");
    assert("openai"@[1] == 'p' && "openai_compatible"@[1] == 'p' && "anthropic"@[1] == 'n'
        && "anthropic_compatible"@[1] == 'n' && "ollama"@[1] == 'l' && "ollama_compatible"@[1]
        == 'l');
}

/// What is configured wins over a variable's default, and a secret is looked for among the secrets
/// only.
pub proof fn law_configured_values_win(var: EnvVarConfig, values: ConfigValues)
    ensures
        var.secret && is_set(pair_texts(values.secrets@), var.name@) ==> variable_value(var, values)
            == env_value(pair_texts(values.secrets@), var.name@),
        !var.secret && is_set(pair_texts(values.params@), var.name@) ==> variable_value(var, values)
            == env_value(pair_texts(values.params@), var.name@),
        var.secret && !is_set(pair_texts(values.secrets@), var.name@) ==> variable_value(var, values)
            == text_opt(var.default),
        !var.secret && !is_set(pair_texts(values.params@), var.name@) ==> variable_value(var, values)
            == text_opt(var.default),
{
}

/// A variable that a template names is filled in wherever it has a value; without one, expanding
/// fails where the variable is required, with an error that names it, and else leaves the place.
pub proof fn law_named_variables_are_filled_in(
    template: Seq<char>,
    vars: Seq<EnvVarConfig>,
    var: EnvVarConfig,
    values: ConfigValues,
)
    requires
        expanded(template, vars, values) is Ok,
    ensures
        ({
            let so_far = expanded(template, vars, values)->Ok_0;
            let r = expanded(template, vars.push(var), values);
            let named = has_text(so_far, "${"@ + var.name@ + "}"@);
            &&& !named ==> r == Ok::<Seq<char>, Seq<char>>(so_far)
            &&& named ==> (variable_value(var, values) matches Some(v) ==> r == Ok::<
                Seq<char>,
                Seq<char>,
            >(replaced(so_far, "${"@ + var.name@ + "}"@, v)))
            &&& named && variable_value(var, values) is None && !var.required ==> r == Ok::<
                Seq<char>,
                Seq<char>,
            >(so_far)
            &&& named && variable_value(var, values) is None && var.required ==> (r matches Err(e)
                && has_text(e, var.name@))
        }),
{
    assert(vars.push(var).drop_last() =~= vars);
    lemma_has_text("Required environment variable "@, var.name@, " is not set"@);
}

/// What a variable says of streaming: what is configured for it, as a text or as a flag, else its
/// default; and only variables with a name for it say anything.
pub proof fn law_which_variables_speak_of_streaming(var: EnvVarConfig, values: ConfigValues)
    ensures
        !ends(var.name@, "_STREAMING"@) ==> streaming_said(var, values) is None,
        ends(var.name@, "_STREAMING"@) ==> {
            let param = env_value(pair_texts(values.params@), var.name@);
            let flag = flag_value(values.flags@, var.name@);
            &&& param matches Some(s) ==> streaming_said(var, values) == Some(
                lowercase(s) == "true"@,
            )
            &&& param is None && flag is Some ==> streaming_said(var, values) == flag
            &&& param is None && flag is None ==> (text_opt(var.default) matches Some(d)
                ==> streaming_said(var, values) == Some(lowercase(d) == "true"@))
            &&& param is None && flag is None && var.default is None ==> streaming_said(var, values)
                is None
        },
{
}

/// The last variable that speaks of streaming decides, and what was said before stands where none
/// does.
pub proof fn law_the_last_word_on_streaming_counts(
    start: Option<bool>,
    vars: Seq<EnvVarConfig>,
    var: EnvVarConfig,
    values: ConfigValues,
)
    ensures
        streaming_after(start, vars.push(var), values) == match streaming_said(var, values) {
            Some(b) => Some(b),
            None => streaming_after(start, vars, values),
        },
        streaming_after(start, Seq::empty(), values) == start,
{
    assert(vars.push(var).drop_last() =~= vars);
}

/// What a description says of thinking counts; where it says nothing, only the protocol of OpenAI
/// keeps it.
pub proof fn law_thinking_by_default(raw: Tree, engine: ProviderEngine, given: bool)
    ensures
        raw.get("preserves_thinking"@) is Some ==> thinking_kept(raw, engine, given) == given,
        raw.get("preserves_thinking"@) is None ==> (thinking_kept(raw, engine, given) <==> engine
            == ProviderEngine::OpenAI),
{
}

/// Which texts can be ids: lower case letters, digits, underscores and hyphens, at least one of
/// them, and no hyphen at the start.
pub proof fn law_which_ids_are_valid(id: Seq<char>, i: int)
    ensures
        valid_id(id) ==> id.len() > 0 && id[0] != '-',
        0 <= i < id.len() && (id[i] == '/' || id[i] == '.' || id[i] == ' ' || ('A' <= id[i]
            && id[i] <= 'Z')) ==> !valid_id(id),
        id.len() > 0 && id[0] != '-' && (forall|k: int|
            0 <= k < id.len() ==> (('a' <= #[trigger] id[k] && id[k] <= 'z') || ('0' <= id[k]
                && id[k] <= '9') || id[k] == '_' || id[k] == '-')) ==> valid_id(id),
{
    if 0 <= i < id.len() && valid_id(id) {
        assert(id_char(id[i]));
    }
}

/// No id that could lead out of the directory names a file.
pub proof fn law_file_names_stay_in_the_directory(id: Seq<char>, i: int)
    ensures
        0 <= i < id.len() && (id[i] == '/' || id[i] == '\\' || id[i] == '\0' || id[i] == '\n')
            ==> !names_provider_file(id),
        id.len() == 0 ==> !names_provider_file(id),
        names_provider_file(id) ==> forall|k: int| 0 <= k < id.len() ==> #[trigger] id[k] != '/',
{
    if 0 <= i < id.len() && names_provider_file(id) {
        assert(id[i] != '/' && id[i] != '\\' && !is_control_char(id[i]));
    }
}

/// The id of a provider tells its name: behind a prefix, a name that is an id already stands as it
/// is, and where that id is free it is the one.
pub proof fn law_ids_tell_the_name(lowered: Seq<char>, taken: Seq<Seq<char>>)
    requires
        lowered.len() > 0,
        lowered[0] != '_',
        lowered.last() != '_',
        forall|i: int| 0 <= i < lowered.len() ==> id_char(#[trigger] lowered[i]),
    ensures
        id_base(lowered) == "custom_"@ + lowered,
        !taken.contains("custom_"@ + lowered) ==> is_first_free(
            id_base(lowered),
            taken,
            "custom_"@ + lowered,
        ),
        taken.contains("custom_"@ + lowered) ==> !is_first_free(
            id_base(lowered),
            taken,
            "custom_"@ + lowered,
        ),
{
    assert(id_chars(lowered) =~= lowered);
    let base = id_base(lowered);
    assert(id_candidate(base, 0) == base);
}

/// A new provider is what the user asked for. It wants a key exactly where the user says so, and
/// then the key is kept under the name that the provider refers to; without a key, or with an
/// engine that there is none of, nothing is written down.
pub proof fn law_created_providers(
    params: CreateCustomProviderParams,
    id: Seq<char>,
    engine: Option<ProviderEngine>,
    plan: CreatePlan,
)
    requires
        create_planned(params, id, engine, plan),
    ensures
        plan.config is Ok <==> engine is Some && (params.requires_auth ==> given_key(params.api_key)
            is Some),
        plan.config matches Ok(c) ==> {
            &&& c.name@ == id
            &&& Some(c.engine) == engine
            &&& c.display_name@ == params.display_name@
            &&& c.base_url == params.api_url
            &&& c.headers == params.headers
            &&& c.models@.len() == params.models@.len()
            &&& c.supports_streaming == params.supports_streaming
            &&& c.base_path == params.base_path
            &&& c.requires_auth == params.requires_auth
            &&& c.requires_auth <==> plan.secret is Some
            &&& plan.secret matches Some(s) ==> s.0@ == c.api_key_env@ && Some(s.1@) == text_opt(
                params.api_key,
            )
            &&& !c.requires_auth ==> c.api_key_env@.len() == 0
            &&& params.preserves_thinking matches Some(b) ==> c.preserves_thinking == b
        },
        params.requires_auth && params.api_key is None ==> plan.config is Err && plan.secret is None,
{
}

/// A name by which a model is meant is that of the user, one for each.
pub proof fn law_models_are_named(ms: Seq<ModelInfo>, names: Seq<Seq<char>>, i: int)
    requires
        models_named(ms, names),
        0 <= i < names.len(),
    ensures
        ms.len() == names.len(),
        ms[i].name@ == names[i],
        ms[i].context_limit == 128000,
        !ms[i].reasoning,
{
    assert(named_model(ms[i], names[i]));
}

/// A change sets what the user can change and leaves the rest, and the key is kept under the name
/// that the changed provider refers to. A provider that is not the user's own is never written.
pub proof fn law_updated_providers(
    params: UpdateCustomProviderParams,
    loaded: LoadedProvider,
    engine: Option<ProviderEngine>,
    r: Result<Option<DeclarativeProviderConfig>, String>,
    secret_stored: bool,
    change: Result<SecretChange, String>,
)
    requires
        update_made(params, loaded, engine, r),
        secret_planned(params, loaded.config, secret_stored, change),
    ensures
        !loaded.is_editable ==> (r matches Ok(w) && w is None),
        loaded.is_editable ==> (r is Ok <==> engine is Some),
        loaded.is_editable ==> (r matches Ok(w) ==> w is Some),
        r matches Ok(Some(c)) ==> {
            &&& c.name@ == params.id@
            &&& Some(c.engine) == engine
            &&& c.base_url == params.api_url
            &&& c.display_name == params.display_name
            &&& c.requires_auth == params.requires_auth
            &&& c.supports_streaming == params.supports_streaming
            &&& c.description == loaded.config.description
            &&& c.timeout_seconds == loaded.config.timeout_seconds
            &&& c.env_vars == loaded.config.env_vars
            &&& c.setup_steps == loaded.config.setup_steps
            &&& c.fast_model == loaded.config.fast_model
            &&& params.headers is None ==> c.headers == loaded.config.headers
            &&& change matches Ok(SecretChange::Store(n, k)) ==> n@ == c.api_key_env@ && Some(k@)
                == text_opt(params.api_key)
            &&& change matches Ok(SecretChange::Delete(n)) ==> c.api_key_env@.len() == 0
                && !c.requires_auth
            &&& c.requires_auth && loaded.config.api_key_env@.len() > 0 ==> c.api_key_env@
                == loaded.config.api_key_env@
            &&& params.preserves_thinking is None && c.engine == loaded.config.engine
                ==> c.preserves_thinking == loaded.config.preserves_thinking
        },
        params.requires_auth && params.api_key is Some <==> change matches Ok(
            SecretChange::Store(_, _),
        ),
        change is Err <==> params.requires_auth && params.api_key is None && !secret_stored,
{
}

/// With a provider goes the secret that was made for it, and no secret under another name.
pub proof fn law_removed_providers_leave_no_key(
    params: CreateCustomProviderParams,
    id: Seq<char>,
    engine: ProviderEngine,
    c: DeclarativeProviderConfig,
    other: DeclarativeProviderConfig,
)
    requires
        created(params, id, engine, c),
    ensures
        params.requires_auth ==> secret_removed(id, c) == Some(c.api_key_env@),
        secret_removed(id, other) matches Some(n) ==> n == other.api_key_env@ && n == api_key_name(
            id,
        ),
{
}

/// The user's provider comes before one that comes with the program, and is the only one that can
/// be changed; where neither has the id, or the id can name no file, there is none.
pub proof fn law_the_users_provider_comes_first(
    id: Seq<char>,
    custom: Option<Result<DeclarativeProviderConfig, String>>,
    fixed: Seq<DeclarativeProviderConfig>,
    r: Result<LoadedProvider, String>,
)
    requires
        provider_loaded(id, custom, fixed, r),
    ensures
        !names_provider_file(id) ==> r is Err,
        names_provider_file(id) ==> {
            &&& custom matches Some(Ok(c)) ==> (r matches Ok(p) && p.config == c && p.is_editable)
            &&& custom matches Some(Err(_)) ==> r is Err
            &&& custom is None ==> (r is Ok <==> exists|i: int|
                0 <= i < fixed.len() && (#[trigger] fixed[i]).name@ == id)
            &&& custom is None ==> (r matches Ok(p) ==> !p.is_editable && p.config.name@ == id
                && fixed.contains(p.config))
        },
{
    lemma_provider_place(fixed, id);
}

proof fn lemma_provider_place(v: Seq<DeclarativeProviderConfig>, id: Seq<char>)
    ensures
        0 <= provider_place(v, id) <= v.len(),
        provider_place(v, id) < v.len() ==> v[provider_place(v, id)].name@ == id,
        forall|i: int| 0 <= i < provider_place(v, id) ==> (#[trigger] v[i]).name@ != id,
    decreases v.len(),
{
    if v.len() > 0 && v[0].name@ != id {
        lemma_provider_place(v.skip(1), id);
        assert forall|i: int| 0 <= i < provider_place(v, id) implies (#[trigger] v[i]).name@
            != id by {
            if i > 0 {
                assert(v.skip(1)[i - 1] == v[i]);
            }
        }
    }
}

/// Every provider that could be read is there, in order, and nothing else is.
pub proof fn law_readable_providers_are_kept(
    a: Seq<Option<DeclarativeProviderConfig>>,
    b: Seq<Option<DeclarativeProviderConfig>>,
    c: DeclarativeProviderConfig,
)
    ensures
        readable(a + b) == readable(a) + readable(b),
        readable(a).contains(c) <==> a.contains(Some(c)),
    decreases a.len() + b.len(),
{
    if b.len() > 0 {
        law_readable_providers_are_kept(a, b.drop_last(), c);
        assert((a + b).drop_last() =~= a + b.drop_last());
        assert((a + b).last() == b.last());
        assert(readable(a + b) =~= readable(a) + readable(b));
    } else {
        assert(a + b =~= a);
        assert(readable(a) + readable(b) =~= readable(a));
        if a.len() > 0 {
            law_readable_providers_are_kept(a.drop_last(), b, c);
            crate::seqs::lemma_contains_last(a, Some(c));
            if let Some(x) = a.last() {
                crate::seqs::lemma_contains_push(readable(a.drop_last()), x, c);
            }
        }
    }
}

/// The first of the user's files that gives no provider is what is told, and nothing is told where
/// each gives one.
pub proof fn law_the_first_bad_file_is_told(v: Seq<ProviderFile>)
    ensures
        first_failure(v) is None <==> forall|i: int|
            0 <= i < v.len() ==> (#[trigger] v[i]) is Provider,
        first_failure(v) matches Some(m) ==> exists|i: int|
            {
                &&& 0 <= i < v.len()
                &&& !((#[trigger] v[i]) is Provider)
                &&& forall|j: int| 0 <= j < i ==> (#[trigger] v[j]) is Provider
                &&& v[i] matches ProviderFile::Unreadable(e) ==> m == e@
                &&& v[i] matches ProviderFile::Invalid(path, e) ==> has_text(m, path@) && has_text(
                    m,
                    e@,
                )
            },
    decreases v.len(),
{
    if v.len() > 0 {
        if v[0] is Provider {
            law_the_first_bad_file_is_told(v.skip(1));
            if first_failure(v) is Some {
                let m = first_failure(v)->0;
                let i = choose|i: int|
                    {
                        &&& 0 <= i < v.skip(1).len()
                        &&& !((#[trigger] v.skip(1)[i]) is Provider)
                        &&& forall|j: int| 0 <= j < i ==> (#[trigger] v.skip(1)[j]) is Provider
                        &&& v.skip(1)[i] matches ProviderFile::Unreadable(e) ==> m == e@
                        &&& v.skip(1)[i] matches ProviderFile::Invalid(path, e) ==> has_text(
                            m,
                            path@,
                        ) && has_text(m, e@)
                    };
                assert(v[i + 1] == v.skip(1)[i]);
                assert forall|j: int| 0 <= j < i + 1 implies (#[trigger] v[j]) is Provider by {
                    if j > 0 {
                        assert(v.skip(1)[j - 1] == v[j]);
                    }
                }
            } else {
                assert forall|i: int| 0 <= i < v.len() implies (#[trigger] v[i]) is Provider by {
                    if i > 0 {
                        assert(v.skip(1)[i - 1] == v[i]);
                    }
                }
            }
            if forall|i: int| 0 <= i < v.len() ==> (#[trigger] v[i]) is Provider {
                assert forall|i: int| 0 <= i < v.skip(1).len() implies (
                #[trigger] v.skip(1)[i]) is Provider by {
                    assert(v.skip(1)[i] == v[i + 1]);
                }
            }
        } else {
            if let ProviderFile::Invalid(path, e) = v[0] {
                lemma_has_text("Failed to parse "@, path@, ": "@ + e@);
                assert("Failed to parse "@ + path@ + (": "@ + e@) =~= "Failed to parse "@ + path@
                    + ": "@ + e@);
                lemma_has_text("Failed to parse "@ + path@ + ": "@, e@, Seq::empty());
            }
            assert(!(v[0] is Provider));
        }
    }
}

/// A provider is registered as it is, by its engine; only one that speaks the protocol of OpenAI
/// can be at Hugging Face, and one is asked for its models only where it says so.
pub proof fn law_providers_are_registered_by_engine(
    config: DeclarativeProviderConfig,
    provider_type: ProviderType,
    hugging_face: bool,
)
    ensures
        ({
            let r = registered(config, provider_type, hugging_face);
            &&& r.config == config
            &&& r.provider_type == provider_type
            &&& r.kind == ProviderKind::Anthropic <==> config.engine == ProviderEngine::Anthropic
            &&& r.kind == ProviderKind::Ollama <==> config.engine == ProviderEngine::Ollama
            &&& r.kind == ProviderKind::HuggingFace <==> config.engine == ProviderEngine::OpenAI
                && hugging_face
            &&& r.kind == ProviderKind::OpenAi <==> config.engine == ProviderEngine::OpenAI
                && !hugging_face
            &&& r.dynamic_models <==> config.dynamic_models == Some(true)
        }),
{
}

} // verus!
