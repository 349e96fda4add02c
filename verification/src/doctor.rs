//! Finding a provider and a model that work, and telling the model what seems to be wrong.

use crate::extensions::{ExtensionConfig, ExtensionKind};
use crate::reply_parts::ProviderError;
use crate::seqs::{lemma_contains_last, lemma_contains_push};
use crate::text::{
    cat, cat3, cat5, has_text, join, joined, lemma_has_text, lemma_in_longer, lemma_joined_holds,
    occurs_at, str_eq, text_opt, texts,
};
use vstd::prelude::*;
use vstd::string::*;

verus! {

// ---------------------------------------------------------------------------
// Errors in words
// ---------------------------------------------------------------------------

/// An error of a provider in words for the user; `shown` is the error as it is written.
pub open spec fn error_words(e: ProviderError, shown: Seq<char>) -> Seq<char> {
    match e {
        ProviderError::Authentication(_) =>
            "Authentication failed — check your API key. Run `goose configure` to update it."@,
        ProviderError::CreditsExhausted { top_up_url, .. } => match text_opt(top_up_url) {
            Some(url) => "Credits exhausted."@ + " Top up at: "@ + url,
            None => "Credits exhausted."@,
        },
        ProviderError::RateLimitExceeded(_) => "Rate limited — wait a moment and try again."@,
        ProviderError::EndpointNotFound(_) =>
            "Model not found — the model name may be wrong for this provider."@,
        ProviderError::NetworkError(_) => "Network error — check your internet connection."@,
        ProviderError::ServerError(_) =>
            "Provider server error — the service may be temporarily down."@,
        _ => shown,
    }
}

/// An error of a provider in words for the user; `shown` is the error as it is written.
pub fn describe_error(e: &ProviderError, shown: &str) -> (r: String)
    ensures
        r@ == error_words(*e, shown@),
{
    match e {
        ProviderError::Authentication(_) =>
            "Authentication failed — check your API key. Run `goose configure` to update it.".to_owned(),
        ProviderError::CreditsExhausted { top_up_url, .. } => match top_up_url {
            Some(url) => cat3("Credits exhausted.", " Top up at: ", url.as_str()),
            None => "Credits exhausted.".to_owned(),
        },
        ProviderError::RateLimitExceeded(_) =>
            "Rate limited — wait a moment and try again.".to_owned(),
        ProviderError::EndpointNotFound(_) =>
            "Model not found — the model name may be wrong for this provider.".to_owned(),
        ProviderError::NetworkError(_) =>
            "Network error — check your internet connection.".to_owned(),
        ProviderError::ServerError(_) =>
            "Provider server error — the service may be temporarily down.".to_owned(),
        _ => shown.to_owned(),
    }
}

// ---------------------------------------------------------------------------
// Looking for what works
// ---------------------------------------------------------------------------

/// What is to be done next.
#[derive(Debug, PartialEq, Eq)]
pub enum DoctorStep {
    /// Test the configured provider and model.
    TestConfigured,
    /// Nothing: the configured ones work.
    Healthy,
    /// Ask the configured provider for the models that it recommends.
    FetchModels,
    /// Test this model of the configured provider.
    TestModel(String),
    /// Switch to this model of the configured provider.
    SwitchModel(String),
    /// Try the other providers, one after the other.
    ListProviders,
}

#[verifier::ext_equal]
pub enum DoctorStepModel {
    TestConfigured,
    Healthy,
    FetchModels,
    TestModel(Seq<char>),
    SwitchModel(Seq<char>),
    ListProviders,
}

impl DoctorStep {
    pub open spec fn view(&self) -> DoctorStepModel {
        match self {
            DoctorStep::TestConfigured => DoctorStepModel::TestConfigured,
            DoctorStep::Healthy => DoctorStepModel::Healthy,
            DoctorStep::FetchModels => DoctorStepModel::FetchModels,
            DoctorStep::TestModel(m) => DoctorStepModel::TestModel(m@),
            DoctorStep::SwitchModel(m) => DoctorStepModel::SwitchModel(m@),
            DoctorStep::ListProviders => DoctorStepModel::ListProviders,
        }
    }
}

/// How far the search has come: what was done so far, the configured provider and model, and the
/// models that are still to be tried, the next one first.
#[derive(Debug, PartialEq, Eq)]
pub struct Doctor {
    pub log: Vec<String>,
    pub provider: Option<String>,
    pub model: Option<String>,
    pub candidates: Vec<String>,
}

#[verifier::ext_equal]
pub struct DoctorModel {
    pub log: Seq<Seq<char>>,
    pub provider: Option<Seq<char>>,
    pub model: Option<Seq<char>>,
    pub candidates: Seq<Seq<char>>,
}

pub open spec fn pair_text(provider: Seq<char>, model: Seq<char>) -> Seq<char> {
    provider + " / "@ + model
}

/// The line that a test begins.
pub open spec fn trying_line(provider: Seq<char>, model: Seq<char>) -> Seq<char> {
    "  Trying "@ + pair_text(provider, model) + " ..."@
}

/// The line that a test ends well with.
pub open spec fn works_line(provider: Seq<char>, model: Seq<char>) -> Seq<char> {
    "  ✓ "@ + pair_text(provider, model) + " works"@
}

/// The line that a test ends badly with.
pub open spec fn fails_line(error: Seq<char>) -> Seq<char> {
    "  ✗ "@ + error
}

/// How the search begins.
pub open spec fn search_begun(provider: Option<Seq<char>>, model: Option<Seq<char>>) -> (
    DoctorModel,
    DoctorStepModel,
) {
    match (provider, model) {
        (Some(p), Some(m)) => (
            DoctorModel {
                log: seq!["Checking "@ + pair_text(p, m) + " ..."@],
                provider,
                model,
                candidates: Seq::empty(),
            },
            DoctorStepModel::TestConfigured,
        ),
        _ => (
            DoctorModel {
                log: seq![
                    "No provider/model configured."@,
                    "Looking for other configured providers ..."@,
                ],
                provider,
                model,
                candidates: Seq::empty(),
            },
            DoctorStepModel::ListProviders,
        ),
    }
}

/// The models to try: the recommended ones but the configured one, three at most.
pub open spec fn other_models(models: Seq<Seq<char>>, skip: Seq<char>) -> Seq<Seq<char>>
    decreases models.len(),
{
    if models.len() == 0 {
        Seq::empty()
    } else {
        let head = other_models(models.drop_last(), skip);
        if models.last() != skip && head.len() < 3 {
            head.push(models.last())
        } else {
            head
        }
    }
}

/// The step to the next model, or to the other providers where there is none.
pub open spec fn next_model(d: DoctorModel) -> (DoctorModel, DoctorStepModel) {
    if d.candidates.len() > 0 && d.provider is Some {
        (
            DoctorModel {
                log: d.log.push(trying_line(d.provider->0, d.candidates[0])),
                ..d
            },
            DoctorStepModel::TestModel(d.candidates[0]),
        )
    } else {
        (
            DoctorModel {
                log: d.log.push("Looking for other configured providers ..."@),
                ..d
            },
            DoctorStepModel::ListProviders,
        )
    }
}

/// What follows the test of the configured provider and model.
pub open spec fn configured_tested(d: DoctorModel, error: Option<Seq<char>>) -> (
    DoctorModel,
    DoctorStepModel,
) {
    match error {
        None => (d, DoctorStepModel::Healthy),
        Some(e) => (
            DoctorModel {
                log: d.log.push("❌ "@ + pair_text(d.provider->0, d.model->0) + ": "@ + e).push(
                    "Looking for alternative models on "@ + d.provider->0 + " ..."@,
                ),
                ..d
            },
            DoctorStepModel::FetchModels,
        ),
    }
}

/// What follows the test of the next model.
pub open spec fn model_tested(d: DoctorModel, error: Option<Seq<char>>) -> (
    DoctorModel,
    DoctorStepModel,
) {
    match error {
        None => (
            DoctorModel {
                log: d.log.push(works_line(d.provider->0, d.candidates[0])),
                candidates: d.candidates.skip(1),
                ..d
            },
            DoctorStepModel::SwitchModel(d.candidates[0]),
        ),
        Some(e) => next_model(
            DoctorModel {
                log: d.log.push(fails_line(e)),
                candidates: d.candidates.skip(1),
                ..d
            },
        ),
    }
}

impl Doctor {
    pub open spec fn view(&self) -> DoctorModel {
        DoctorModel {
            log: texts(self.log@),
            provider: text_opt(self.provider),
            model: text_opt(self.model),
            candidates: texts(self.candidates@),
        }
    }

    fn note(&mut self, line: String)
        ensures
            final(self)@ == (DoctorModel { log: old(self)@.log.push(line@), ..old(self)@ }),
    {
        let ghost before = texts(self.log@);
        let ghost lm = line@;
        self.log.push(line);
        assert(texts(self.log@) =~= before.push(lm));
    }

    /// How the search begins, by the configured provider and model.
    pub fn begin(provider: Option<String>, model: Option<String>) -> (r: (Doctor, DoctorStep))
        ensures
            (r.0@, r.1@) == search_begun(text_opt(provider), text_opt(model)),
    {
        let mut log: Vec<String> = Vec::new();
        let candidates: Vec<String> = Vec::new();
        assert(texts(candidates@) =~= Seq::empty());
        if let (Some(p), Some(m)) = (&provider, &model) {
            let line = cat5("Checking ", p.as_str(), " / ", m.as_str(), " ...");
            log.push(line);
            assert(line@ =~= "Checking "@ + pair_text(p@, m@) + " ..."@);
            assert(texts(log@) =~= seq!["Checking "@ + pair_text(p@, m@) + " ..."@]);
            return (Doctor { log, provider, model, candidates }, DoctorStep::TestConfigured);
        }
        log.push("No provider/model configured.".to_owned());
        log.push("Looking for other configured providers ...".to_owned());
        assert(texts(log@) =~= seq![
            "No provider/model configured."@,
            "Looking for other configured providers ..."@,
        ]);
        (Doctor { log, provider, model, candidates }, DoctorStep::ListProviders)
    }

    /// How the test of the configured provider and model ended: well, or with an error in words.
    pub fn on_configured_test(&mut self, error: Option<String>) -> (r: DoctorStep)
        requires
            old(self)@.provider is Some,
            old(self)@.model is Some,
        ensures
            (final(self)@, r@) == configured_tested(old(self)@, text_opt(error)),
    {
        match error {
            None => DoctorStep::Healthy,
            Some(e) => {
                if let (Some(p), Some(m)) = (&self.provider, &self.model) {
                    let mut line = cat5("❌ ", p.as_str(), " / ", m.as_str(), ": ");
                    line.append(e.as_str());
                    assert(line@ =~= "❌ "@ + pair_text(p@, m@) + ": "@ + e@);
                    let next = cat3("Looking for alternative models on ", p.as_str(), " ...");
                    self.note(line);
                    self.note(next);
                }
                DoctorStep::FetchModels
            },
        }
    }

    fn advance(&mut self) -> (r: DoctorStep)
        ensures
            (final(self)@, r@) == next_model(old(self)@),
    {
        if self.candidates.len() > 0 {
            if let Some(p) = &self.provider {
                let m = self.candidates[0].clone();
                let line = cat5("  Trying ", p.as_str(), " / ", m.as_str(), " ...");
                assert(line@ =~= trying_line(p@, m@));
                self.note(line);
                return DoctorStep::TestModel(m);
            }
        }
        self.note("Looking for other configured providers ...".to_owned());
        DoctorStep::ListProviders
    }

    /// The models that the configured provider recommends, where they could be had.
    pub fn on_models(&mut self, models: &Option<Vec<String>>) -> (r: DoctorStep)
        requires
            old(self)@.model is Some,
        ensures
            (final(self)@, r@) == next_model(
                (DoctorModel {
                    candidates: match models {
                        Some(v) => other_models(texts(v@), old(self)@.model->0),
                        None => Seq::empty(),
                    },
                    ..old(self)@
                }),
            ),
    {
        let mut out: Vec<String> = Vec::new();
        assert(texts(out@) =~= Seq::empty());
        if let (Some(v), Some(skip)) = (models, &self.model) {
            let ghost all = texts(v@);
            let mut i: usize = 0;
            assert(texts(out@) =~= other_models(all.take(0), skip@));
            while i < v.len()
                invariant
                    all == texts(v@),
                    i <= v@.len(),
                    texts(out@) == other_models(all.take(i as int), skip@),
                decreases v@.len() - i,
            {
                assert(all.take(i + 1).drop_last() =~= all.take(i as int));
                assert(texts(out@).len() == out@.len());
                if !str_eq(v[i].as_str(), skip.as_str()) && out.len() < 3 {
                    let ghost before = texts(out@);
                    out.push(v[i].clone());
                    assert(texts(out@) =~= before.push(all[i as int]));
                }
                i = i + 1;
            }
            assert(all.take(i as int) =~= all);
        }
        self.candidates = out;
        self.advance()
    }

    /// How the test of the next model ended: well, or with an error in words.
    pub fn on_model_test(&mut self, error: Option<String>) -> (r: DoctorStep)
        requires
            old(self)@.provider is Some,
            old(self)@.candidates.len() > 0,
        ensures
            (final(self)@, r@) == model_tested(old(self)@, text_opt(error)),
    {
        let ghost start = self@;
        assert(start.candidates.len() == self.candidates@.len());
        let m = self.candidates.remove(0);
        assert(m@ == start.candidates[0]);
        assert(texts(self.candidates@) =~= start.candidates.skip(1));
        match error {
            None => {
                if let Some(p) = &self.provider {
                    let line = cat5("  ✓ ", p.as_str(), " / ", m.as_str(), " works");
                    assert(line@ =~= works_line(p@, m@));
                    self.note(line);
                }
                DoctorStep::SwitchModel(m)
            },
            Some(e) => {
                self.note(cat("  ✗ ", e.as_str()));
                self.advance()
            },
        }
    }

    /// Whether another provider is to be tried: any but the configured one.
    pub fn tries_provider(&self, name: &str) -> (r: bool)
        ensures
            r == (name@ != match self@.provider {
                Some(p) => p,
                None => Seq::empty(),
            }),
    {
        match &self.provider {
            Some(p) => !str_eq(name, p.as_str()),
            None => {
                let empty = name.is_empty();
                assert(empty == (name@ =~= Seq::empty()));
                !empty
            },
        }
    }

    /// Another provider is about to be tested with its default model.
    pub fn on_provider(&mut self, name: &str, model: &str)
        ensures
            final(self)@ == (DoctorModel {
                log: old(self)@.log.push(trying_line(name@, model@)),
                ..old(self)@
            }),
    {
        let line = cat5("  Trying ", name, " / ", model, " ...");
        assert(line@ =~= trying_line(name@, model@));
        self.note(line);
    }

    /// How the test of another provider ended: well, or with an error in words. Returns whether to
    /// switch to it.
    pub fn on_provider_test(&mut self, name: &str, model: &str, error: &Option<String>) -> (r: bool)
        ensures
            r == (error is None),
            final(self)@ == (DoctorModel {
                log: old(self)@.log.push(
                    match text_opt(*error) {
                        None => works_line(name@, model@),
                        Some(e) => fails_line(e),
                    },
                ),
                ..old(self)@
            }),
    {
        match error {
            None => {
                let line = cat5("  ✓ ", name, " / ", model, " works");
                assert(line@ =~= works_line(name@, model@));
                self.note(line);
                true
            },
            Some(e) => {
                self.note(cat("  ✗ ", e.as_str()));
                false
            },
        }
    }

    fn preamble(&self) -> (r: String)
        ensures
            r@ == "**Goose Doctor**\n\n"@ + joined(self@.log, "\n"@) + "\n\n"@,
    {
        let log = join(&self.log, "\n");
        cat3("**Goose Doctor**\n\n", log.as_str(), "\n\n")
    }

    /// What the user is told after the switch to another model of the configured provider.
    pub fn switched_model_text(&self, provider: &str, model: &str) -> (r: String)
        ensures
            r@ == "**Goose Doctor**\n\n"@ + joined(self@.log, "\n"@) + "\n\n"@ + (
            "Your configured model wasn't working, so I switched to **"@ + pair_text(
                provider@,
                model@,
            ) + "**. You can continue chatting now."@),
    {
        let mut text = self.preamble();
        let rest = cat5(
            "Your configured model wasn't working, so I switched to **",
            provider,
            " / ",
            model,
            "**. You can continue chatting now.",
        );
        assert(rest@ =~= "Your configured model wasn't working, so I switched to **"@ + pair_text(
            provider@,
            model@,
        ) + "**. You can continue chatting now."@);
        text.append(rest.as_str());
        text
    }

    /// What the user is told after the switch to another provider.
    pub fn switched_provider_text(&self, provider: &str, model: &str) -> (r: String)
        ensures
            r@ == "**Goose Doctor**\n\n"@ + joined(self@.log, "\n"@) + "\n\n"@ + (
            "Switched to **"@ + pair_text(provider@, model@)
                + "**. You can continue chatting now."@),
    {
        let mut text = self.preamble();
        let rest = cat5(
            "Switched to **",
            provider,
            " / ",
            model,
            "**. You can continue chatting now.",
        );
        assert(rest@ =~= "Switched to **"@ + pair_text(provider@, model@)
            + "**. You can continue chatting now."@);
        text.append(rest.as_str());
        text
    }

    /// What the user is told where nothing works.
    pub fn nothing_works_text(&self) -> (r: String)
        ensures
            r@ == "**Goose Doctor**\n\n"@ + joined(self@.log, "\n"@) + "\n\n"@
                + "No working provider found. Run `goose configure` to set one up."@,
    {
        let mut text = self.preamble();
        text.append("No working provider found. Run `goose configure` to set one up.");
        text
    }
}

/// The configured model is never tried again, and no more than three others are.
pub proof fn law_three_other_models_at_most(models: Seq<Seq<char>>, skip: Seq<char>)
    ensures
        other_models(models, skip).len() <= 3,
        !other_models(models, skip).contains(skip),
    decreases models.len(),
{
    if models.len() > 0 {
        law_three_other_models_at_most(models.drop_last(), skip);
        let head = other_models(models.drop_last(), skip);
        let all = other_models(models, skip);
        if all.contains(skip) {
            let j = choose|j: int| 0 <= j < all.len() && all[j] == skip;
            if j < head.len() {
                assert(head[j] == skip);
            }
        }
    }
}

// ---------------------------------------------------------------------------
// What the model is told
// ---------------------------------------------------------------------------

/// A log in a fenced block under its heading.
pub open spec fn log_block(heading: Seq<char>, log: Option<Seq<char>>) -> Seq<char> {
    match log {
        Some(s) => heading + "\n```\n"@ + s + "\n```\n"@,
        None => Seq::empty(),
    }
}

/// What the model is told of the system, and what it is asked to do.
pub open spec fn prompt_text(
    info: Seq<char>,
    extensions: Seq<Seq<char>>,
    config_path: Seq<char>,
    server_log: Option<Seq<char>>,
    llm_log: Option<Seq<char>>,
) -> Seq<char> {
    "I ran /doctor because something seems off. Here's my system info:\n\n"@ + info
        + "\nLoaded extensions: "@ + (if extensions.len() == 0 {
        "none"@
    } else {
        joined(extensions, ", "@)
    }) + "\nConfig file: "@ + config_path + "\n"@ + log_block("\nRecent server log:"@, server_log)
        + log_block("\nLast LLM request log:"@, llm_log)
        + "\nUse your tools to investigate what might be wrong. Check if common developer tools are available (git, etc.) and report what you find."@
}

fn append_log(text: &mut String, heading: &str, log: &Option<String>)
    ensures
        final(text)@ == old(text)@ + log_block(heading@, text_opt(*log)),
{
    let ghost before = text@;
    match log {
        Some(s) => {
            let block = cat5(heading, "\n```\n", s.as_str(), "\n```\n", "");
            proof {
                reveal_strlit("");
            }
            assert(block@ =~= log_block(heading@, Some(s@)));
            text.append(block.as_str());
        },
        None => {
            assert(text@ =~= before + Seq::empty());
        },
    }
}

/// What the model is told of the system, and what it is asked to do.
pub fn doctor_prompt(
    info: &str,
    extensions: &Vec<String>,
    config_path: &str,
    server_log: &Option<String>,
    llm_log: &Option<String>,
) -> (r: String)
    ensures
        r@ == prompt_text(
            info@,
            texts(extensions@),
            config_path@,
            text_opt(*server_log),
            text_opt(*llm_log),
        ),
{
    let list = if extensions.len() == 0 {
        "none".to_owned()
    } else {
        join(extensions, ", ")
    };
    assert(texts(extensions@).len() == extensions@.len());
    let mut text = cat3(
        "I ran /doctor because something seems off. Here's my system info:\n\n",
        info,
        "\nLoaded extensions: ",
    );
    text.append(list.as_str());
    text.append("\nConfig file: ");
    text.append(config_path);
    text.append("\n");
    append_log(&mut text, "\nRecent server log:", server_log);
    append_log(&mut text, "\nLast LLM request log:", llm_log);
    text.append(
        "\nUse your tools to investigate what might be wrong. Check if common developer tools are available (git, etc.) and report what you find.",
    );
    text
}

/// The extension that lets the model investigate; nothing where it is loaded already.
pub fn developer_extension(name: &str, key: &str, loaded: bool) -> (r: Option<ExtensionConfig>)
    ensures
        match r {
            Some(c) => {
                &&& !loaded
                &&& c.key@ == key@
                &&& c.name@ == name@
                &&& c.description@ == "Write and edit files, and execute shell commands"@
                &&& c.bundled is None
                &&& c.available_tools@.len() == 0
                &&& c.kind matches ExtensionKind::Platform { display_name: Some(n) } && n@
                    == "Developer"@
            },
            None => loaded,
        },
{
    if loaded {
        None
    } else {
        Some(
            ExtensionConfig {
                key: key.to_owned(),
                name: name.to_owned(),
                description: "Write and edit files, and execute shell commands".to_owned(),
                bundled: None,
                available_tools: Vec::new(),
                kind: ExtensionKind::Platform { display_name: Some("Developer".to_owned()) },
            },
        )
    }
}

/// An error that there are words for is told by them; any other is shown as it is written. Where
/// credits can be bought, the place is told.
pub proof fn law_errors_in_words(e: ProviderError, shown: Seq<char>)
    ensures
        !(e is Authentication || e is CreditsExhausted || e is RateLimitExceeded || e
            is EndpointNotFound || e is NetworkError || e is ServerError) ==> error_words(e, shown)
            == shown,
        e matches ProviderError::CreditsExhausted { top_up_url, .. } ==> (top_up_url matches Some(
            url,
        ) ==> has_text(error_words(e, shown), url@)),
        e is Authentication ==> has_text(error_words(e, shown), "API key"@),
{
    if let ProviderError::CreditsExhausted { top_up_url, .. } = e {
        if let Some(url) = top_up_url {
            lemma_has_text("Credits exhausted."@ + " Top up at: "@, url@, Seq::empty());
        }
    }
    reveal_strlit("API key");
    reveal_strlit(
        "Authentication failed — check your API key. Run `goose configure` to update it.",
    );
    let words =
        "Authentication failed — check your API key. Run `goose configure` to update it."@;
    assert(words.subrange(35, 42) =~= "API key"@);
    assert(occurs_at(words, "API key"@, 35));
}

/// The configured provider is tested first, where there is one with a model; else the others are
/// looked at.
pub proof fn law_the_configured_model_is_tested_first(
    provider: Option<Seq<char>>,
    model: Option<Seq<char>>,
)
    ensures
        search_begun(provider, model).1 is TestConfigured <==> provider is Some && model is Some,
        search_begun(provider, model).1 is ListProviders <==> provider is None || model is None,
        search_begun(provider, model).0.provider == provider,
        search_begun(provider, model).0.model == model,
        search_begun(provider, model).0.candidates.len() == 0,
{
}

/// A configured model that works is left alone; one that does not leads to the models that its
/// provider recommends, and the error is noted.
pub proof fn law_working_models_are_left_alone(d: DoctorModel, error: Option<Seq<char>>)
    ensures
        configured_tested(d, error).1 is Healthy <==> error is None,
        error is None ==> configured_tested(d, error).0 == d,
        error matches Some(e) ==> configured_tested(d, error).1 is FetchModels && configured_tested(
            d,
            error,
        ).0.log.len() == d.log.len() + 2 && has_text(configured_tested(d, error).0.log[d.log.len() as int], e),
        configured_tested(d, error).0.provider == d.provider,
        configured_tested(d, error).0.model == d.model,
{
    if let Some(e) = error {
        lemma_has_text("❌ "@ + pair_text(d.provider->0, d.model->0) + ": "@, e, Seq::empty());
    }
}

/// Which models are tried: recommended ones only, in their order, the first three that are not the
/// configured one.
pub proof fn law_recommended_models_are_tried(
    models: Seq<Seq<char>>,
    skip: Seq<char>,
    m: Seq<char>,
)
    ensures
        other_models(models.push(m), skip) == if m != skip && other_models(models, skip).len() < 3 {
            other_models(models, skip).push(m)
        } else {
            other_models(models, skip)
        },
        other_models(models, skip).contains(m) ==> models.contains(m),
    decreases models.len(),
{
    assert(models.push(m).drop_last() =~= models);
    if models.len() > 0 {
        law_recommended_models_are_tried(models.drop_last(), skip, m);
        lemma_contains_last(models, m);
        lemma_contains_push(other_models(models.drop_last(), skip), models.last(), m);
    }
}

/// The next model is tested while there is one; then the other providers are looked at.
pub proof fn law_models_are_tried_one_by_one(d: DoctorModel)
    requires
        d.provider is Some,
    ensures
        d.candidates.len() > 0 <==> next_model(d).1 is TestModel,
        d.candidates.len() > 0 ==> next_model(d).1 == DoctorStepModel::TestModel(d.candidates[0]),
        d.candidates.len() == 0 <==> next_model(d).1 is ListProviders,
        next_model(d).0.candidates == d.candidates,
{
}

/// A model that works is switched to; one that does not is not tried again, and its error is noted.
pub proof fn law_working_models_are_switched_to(d: DoctorModel, error: Option<Seq<char>>)
    requires
        d.provider is Some,
        d.candidates.len() > 0,
    ensures
        error is None <==> model_tested(d, error).1 is SwitchModel,
        error is None ==> model_tested(d, error).1 == DoctorStepModel::SwitchModel(d.candidates[0]),
        model_tested(d, error).0.candidates == d.candidates.skip(1),
        error is Some && d.candidates.len() > 1 ==> model_tested(d, error).1
            == DoctorStepModel::TestModel(d.candidates[1]),
        error is Some && d.candidates.len() == 1 ==> model_tested(d, error).1 is ListProviders,
        model_tested(d, error).0.log.len() > d.log.len(),
        error matches Some(e) ==> has_text(model_tested(d, error).0.log[d.log.len() as int], e),
{
    if let Some(e) = error {
        lemma_has_text("  ✗ "@, e, Seq::empty());
    }
}

/// The model is told all that is known: the system, each extension, the configuration and the logs
/// that there are.
#[verifier::rlimit(60)]
pub proof fn law_the_model_is_told_all(
    info: Seq<char>,
    extensions: Seq<Seq<char>>,
    config_path: Seq<char>,
    server_log: Option<Seq<char>>,
    llm_log: Option<Seq<char>>,
    i: int,
)
    ensures
        ({
            let text = prompt_text(info, extensions, config_path, server_log, llm_log);
            &&& has_text(text, info)
            &&& has_text(text, config_path)
            &&& 0 <= i < extensions.len() ==> has_text(text, extensions[i])
            &&& server_log matches Some(s) ==> has_text(text, s)
            &&& llm_log matches Some(s) ==> has_text(text, s)
        }),
{
    let text = prompt_text(info, extensions, config_path, server_log, llm_log);
    let a = "I ran /doctor because something seems off. Here's my system info:\n\n"@;
    let b = "\nLoaded extensions: "@;
    let list = if extensions.len() == 0 {
        "none"@
    } else {
        joined(extensions, ", "@)
    };
    let c = "\nConfig file: "@;
    let server = log_block("\nRecent server log:"@, server_log);
    let llm = log_block("\nLast LLM request log:"@, llm_log);
    let end =
        "\nUse your tools to investigate what might be wrong. Check if common developer tools are available (git, etc.) and report what you find."@;
    let tail = "\n"@ + server + llm + end;
    assert(text =~= a + info + (b + list + c + config_path + tail));
    assert(text =~= (a + info + b + list + c) + config_path + tail);
    assert(text =~= (a + info + b) + list + (c + config_path + tail));
    assert(text =~= (a + info + b + list + c + config_path + "\n"@) + server + (llm + end));
    assert(text =~= (a + info + b + list + c + config_path + "\n"@ + server) + llm + end);
    lemma_has_text(a, info, b + list + c + config_path + tail);
    lemma_has_text(a + info + b + list + c, config_path, tail);
    if 0 <= i < extensions.len() {
        lemma_joined_holds(extensions, ", "@, i);
        lemma_in_longer(a + info + b, list, c + config_path + tail, extensions[i]);
    }
    if let Some(s) = server_log {
        lemma_has_text("\nRecent server log:"@ + "\n```\n"@, s, "\n```\n"@);
        lemma_in_longer(a + info + b + list + c + config_path + "\n"@, server, llm + end, s);
    }
    if let Some(s) = llm_log {
        lemma_has_text("\nLast LLM request log:"@ + "\n```\n"@, s, "\n```\n"@);
        lemma_in_longer(a + info + b + list + c + config_path + "\n"@ + server, llm, end, s);
    }
}

} // verus!
