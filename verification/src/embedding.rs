//! Asking the providers for embeddings, and what to do when one of them fails.

use vstd::prelude::*;

verus! {

use crate::validation::{can_embed_with, law_embedding_settings_are_valid_exactly_when_usable, law_provider_is_enabled_by_its_own_switch};
use crate::config::{AppConfig, ConfigFacts};
use crate::listing::concat;
use crate::numbers::{decimal, render_u64, render_usize};
use crate::text::{has_prefix, occurs_in, same, stands_at, trim_trailing, without_trailing};

// ---------------------------------------------------------------------------------------------
// Requests

pub open spec fn hex_digit(n: int) -> char {
    seq!['0', '1', '2', '3', '4', '5', '6', '7', '8', '9', 'a', 'b', 'c', 'd', 'e', 'f'][n]
}

/// How a character is written inside a JSON string.
pub open spec fn json_char(c: char) -> Seq<char> {
    let code = c as int;
    if c == '"' {
        seq!['\\', '"']
    } else if c == '\\' {
        seq!['\\', '\\']
    } else if code == 0x08 {
        seq!['\\', 'b']
    } else if code == 0x09 {
        seq!['\\', 't']
    } else if code == 0x0a {
        seq!['\\', 'n']
    } else if code == 0x0c {
        seq!['\\', 'f']
    } else if code == 0x0d {
        seq!['\\', 'r']
    } else if code < 0x20 {
        seq!['\\', 'u', '0', '0', hex_digit(code / 16), hex_digit(code % 16)]
    } else {
        seq![c]
    }
}

pub open spec fn json_chars(s: Seq<char>) -> Seq<char>
    decreases s.len(),
{
    if s.len() == 0 {
        Seq::empty()
    } else {
        json_chars(s.drop_last()) + json_char(s.last())
    }
}

/// The text as a JSON string.
pub open spec fn json_string(s: Seq<char>) -> Seq<char> {
    seq!['"'] + json_chars(s) + seq!['"']
}

/// `serde_json::Value::String(..).to_string()`: the text between quotation marks, with quotation
/// marks, backslashes and control characters escaped, and everything else as it is.
#[verifier::external_body]
fn render_json_string(text: &str) -> (r: String)
    ensures
        r@ == json_string(text@),
{
    serde_json::Value::String(text.to_owned()).to_string()
}

/// A request to a provider.
#[derive(Debug)]
pub struct ProviderRequest {
    pub url: String,
    /// The key to send with the request, where the provider wants one.
    pub key: Option<String>,
    /// What is posted; without it the request only asks.
    pub body: Option<String>,
}

pub struct RequestView {
    pub url: Seq<char>,
    pub key: Option<Seq<char>>,
    pub body: Option<Seq<char>>,
}

impl View for ProviderRequest {
    type V = RequestView;

    open spec fn view(&self) -> RequestView {
        RequestView {
            url: self.url@,
            key: match self.key {
                Some(key) => Some(key@),
                None => None,
            },
            body: match self.body {
                Some(body) => Some(body@),
                None => None,
            },
        }
    }
}

pub open spec fn gemini_model_url(model: Seq<char>) -> Seq<char> {
    "https://generativelanguage.googleapis.com/v1beta/models/"@ + model
}

/// The request for the embedding of a text, for a provider that is known.
pub open spec fn embedding_request_view(
    config: AppConfig,
    provider: Seq<char>,
    text: Seq<char>,
) -> Option<RequestView> {
    if provider == "ollama"@ {
        Some(
            RequestView {
                url: without_trailing(config.embedding.ollama.base_url@, '/') + "/api/embed"@,
                key: None,
                body: Some(
                    "{\"input\":"@ + json_string(text) + ",\"model\":"@ + json_string(
                        config.embedding.ollama.model@,
                    ) + "}"@,
                ),
            },
        )
    } else if provider == "gemini"@ {
        Some(
            RequestView {
                url: gemini_model_url(config.embedding.gemini.model@) + ":embedContent"@,
                key: Some(config.embedding.gemini.api_key@),
                body: Some(
                    "{\"content\":{\"parts\":[{\"text\":"@ + json_string(text) + "}]}}"@,
                ),
            },
        )
    } else {
        None
    }
}

/// The request that only asks whether a provider is there.
pub open spec fn probe_view(config: AppConfig, provider: Seq<char>) -> Option<RequestView> {
    if provider == "ollama"@ {
        Some(
            RequestView {
                url: without_trailing(config.embedding.ollama.base_url@, '/') + "/api/tags"@,
                key: None,
                body: None,
            },
        )
    } else if provider == "gemini"@ {
        Some(
            RequestView {
                url: gemini_model_url(config.embedding.gemini.model@),
                key: Some(config.embedding.gemini.api_key@),
                body: None,
            },
        )
    } else {
        None
    }
}

fn ollama_url(config: &AppConfig, path: &str) -> (r: String)
    ensures
        r@ == without_trailing(config.embedding.ollama.base_url@, '/') + path@,
{
    concat(trim_trailing(config.embedding.ollama.base_url.as_str(), '/'), path)
}

fn gemini_url(config: &AppConfig) -> (r: String)
    ensures
        r@ == gemini_model_url(config.embedding.gemini.model@),
{
    concat(
        "https://generativelanguage.googleapis.com/v1beta/models/",
        config.embedding.gemini.model.as_str(),
    )
}

pub fn unsupported_provider(provider: &str) -> (r: String)
    ensures
        r@ == "unsupported provider "@ + provider@,
{
    concat("unsupported provider ", provider)
}

/// The request for the embedding of a text.
pub fn embedding_request(config: &AppConfig, provider: &str, text: &str) -> (r: Result<
    ProviderRequest,
    String,
>)
    ensures
        r is Ok <==> embedding_request_view(*config, provider@, text@) is Some,
        r matches Ok(request) ==> embedding_request_view(*config, provider@, text@) == Some(
            request@,
        ),
        r matches Err(message) ==> message@ == "unsupported provider "@ + provider@,
{
    if same(provider, "ollama") {
        let mut body = "{\"input\":".to_owned();
        body.append(render_json_string(text).as_str());
        body.append(",\"model\":");
        body.append(render_json_string(config.embedding.ollama.model.as_str()).as_str());
        body.append("}");
        Ok(ProviderRequest { url: ollama_url(config, "/api/embed"), key: None, body: Some(body) })
    } else if same(provider, "gemini") {
        let mut url = gemini_url(config);
        url.append(":embedContent");
        let mut body = "{\"content\":{\"parts\":[{\"text\":".to_owned();
        body.append(render_json_string(text).as_str());
        body.append("}]}}");
        Ok(
            ProviderRequest {
                url,
                key: Some(config.embedding.gemini.api_key.as_str().to_owned()),
                body: Some(body),
            },
        )
    } else {
        Err(unsupported_provider(provider))
    }
}

/// The request that asks whether a provider is there.
pub fn probe_request(config: &AppConfig, provider: &str) -> (r: Result<ProviderRequest, String>)
    ensures
        r is Ok <==> probe_view(*config, provider@) is Some,
        r matches Ok(request) ==> probe_view(*config, provider@) == Some(request@),
        r matches Err(message) ==> message@ == "unsupported provider "@ + provider@,
{
    if same(provider, "ollama") {
        Ok(ProviderRequest { url: ollama_url(config, "/api/tags"), key: None, body: None })
    } else if same(provider, "gemini") {
        Ok(
            ProviderRequest {
                url: gemini_url(config),
                key: Some(config.embedding.gemini.api_key.as_str().to_owned()),
                body: None,
            },
        )
    } else {
        Err(unsupported_provider(provider))
    }
}

// ---------------------------------------------------------------------------------------------
// Replies

/// The name of a provider in messages.
pub open spec fn provider_title(provider: Seq<char>) -> Seq<char> {
    if provider == "ollama"@ {
        "Ollama"@
    } else {
        "Gemini"@
    }
}

fn title_of(provider: &str) -> (r: &'static str)
    ensures
        r@ == provider_title(provider@),
{
    if same(provider, "ollama") {
        "Ollama"
    } else {
        "Gemini"
    }
}

/// Whether a status says that the request was carried out.
pub open spec fn carried_out(status: u16) -> bool {
    status == 200
}

/// Whether a reply says that the request was carried out.
pub fn check_status(provider: &str, is_probe: bool, status: u16) -> (r: Result<(), String>)
    ensures
        r is Ok <==> carried_out(status),
        r is Ok <==> status == 200,
        r matches Err(message) ==> message@ == provider_title(provider@) + (if is_probe {
            " returned HTTP "@
        } else {
            " embed returned HTTP "@
        }) + decimal(status as nat),
{
    if status == 200 {
        return Ok(());
    }
    let mut message = title_of(provider).to_owned();
    message.append(
        if is_probe {
            " returned HTTP "
        } else {
            " embed returned HTTP "
        },
    );
    message.append(render_u64(status as u64).as_str());
    Err(message)
}

/// What failed when a request did not get through.
pub open spec fn failed_request(
    config: AppConfig,
    provider: Seq<char>,
    is_probe: bool,
    url: Seq<char>,
) -> Seq<char> {
    if provider == "ollama"@ {
        if is_probe {
            "failed to reach Ollama /api/tags"@
        } else {
            "failed to request Ollama embeddings from "@ + url
        }
    } else if is_probe {
        "failed to query Gemini model "@ + config.embedding.gemini.model@
    } else {
        "failed to request Gemini embedding from model "@ + config.embedding.gemini.model@
    }
}

pub fn request_failure(config: &AppConfig, provider: &str, is_probe: bool, url: &str) -> (r: String)
    ensures
        r@ == failed_request(*config, provider@, is_probe, url@),
{
    if same(provider, "ollama") {
        if is_probe {
            "failed to reach Ollama /api/tags".to_owned()
        } else {
            concat("failed to request Ollama embeddings from ", url)
        }
    } else if is_probe {
        concat("failed to query Gemini model ", config.embedding.gemini.model.as_str())
    } else {
        concat(
            "failed to request Gemini embedding from model ",
            config.embedding.gemini.model.as_str(),
        )
    }
}

/// What is said of a provider that is there.
pub open spec fn reachable_text(config: AppConfig, provider: Seq<char>) -> Seq<char> {
    if provider == "ollama"@ {
        "reachable at "@ + config.embedding.ollama.base_url@ + " using model "@
            + config.embedding.ollama.model@
    } else {
        "model "@ + config.embedding.gemini.model@ + " is accessible"@
    }
}

pub fn provider_is_reachable(config: &AppConfig, provider: &str) -> (r: String)
    ensures
        r@ == reachable_text(*config, provider@),
{
    let mut text;
    if same(provider, "ollama") {
        text = "reachable at ".to_owned();
        text.append(config.embedding.ollama.base_url.as_str());
        text.append(" using model ");
        text.append(config.embedding.ollama.model.as_str());
    } else {
        text = "model ".to_owned();
        text.append(config.embedding.gemini.model.as_str());
        text.append(" is accessible");
    }
    text
}

/// The vector in a reply of Ollama: the single one, or else the first of several, where it is
/// not empty.
pub open spec fn ollama_vector_view<T>(single: Seq<T>, several: Seq<Seq<T>>) -> Option<Seq<T>> {
    if single.len() > 0 {
        Some(single)
    } else if several.len() > 0 && several[0].len() > 0 {
        Some(several[0])
    } else {
        None
    }
}

pub fn ollama_vector<T>(single: Vec<T>, several: Vec<Vec<T>>) -> (r: Result<Vec<T>, String>)
    ensures
        r is Ok <==> ollama_vector_view(
            single@,
            Seq::new(several@.len(), |i: int| several@[i]@),
        ) is Some,
        r matches Ok(vector) ==> ollama_vector_view(
            single@,
            Seq::new(several@.len(), |i: int| several@[i]@),
        ) == Some(vector@),
        r matches Err(message) ==> message@
            == "Ollama embedding response did not contain a vector"@,
{
    if single.len() > 0 {
        return Ok(single);
    }
    let mut several = several;
    if several.len() > 0 {
        let first = several.remove(0);
        if first.len() > 0 {
            return Ok(first);
        }
    }
    Err("Ollama embedding response did not contain a vector".to_owned())
}

/// The vector in a reply of Gemini, where it is not empty.
pub fn gemini_vector<T>(values: Vec<T>) -> (r: Result<Vec<T>, String>)
    ensures
        r is Ok <==> values@.len() > 0,
        r matches Ok(vector) ==> vector@ == values@,
        r matches Err(message) ==> message@
            == "Gemini embedding response did not contain a vector"@,
{
    if values.len() == 0 {
        return Err("Gemini embedding response did not contain a vector".to_owned());
    }
    Ok(values)
}

// ---------------------------------------------------------------------------------------------
// The second provider

/// What is recorded of an embedding.
pub open spec fn embedding_status_text(provider: Seq<char>, dimensions: nat) -> Seq<char> {
    "embedding generated via "@ + provider + " ("@ + decimal(dimensions) + " dimensions)"@
}

pub fn embedding_status(provider: &str, dimensions: usize) -> (r: String)
    ensures
        r@ == embedding_status_text(provider@, dimensions as nat),
{
    let mut text = "embedding generated via ".to_owned();
    text.append(provider);
    text.append(" (");
    text.append(render_usize(dimensions).as_str());
    text.append(" dimensions)");
    text
}

/// What to do after the preferred provider failed.
#[derive(Debug)]
pub enum FallbackPlan {
    /// Fail with this message.
    GiveUp(String),
    /// Ask this provider.
    Ask(String),
}

/// What is said of the failure of the preferred provider.
pub open spec fn primary_failure(config: AppConfig, error: Seq<char>) -> Seq<char> {
    "primary "@ + config.embedding.preferred_provider@ + " failed ("@ + error + "); "@
}

fn render_primary_failure(config: &AppConfig, error: &str) -> (r: String)
    ensures
        r@ == primary_failure(*config, error@),
{
    let mut text = "primary ".to_owned();
    text.append(config.embedding.preferred_provider.as_str());
    text.append(" failed (");
    text.append(error);
    text.append("); ");
    text
}

/// The provider that is asked after the preferred one failed, if any.
pub open spec fn asked_next(config: AppConfig) -> Option<Seq<char>> {
    if config.provider_enabled(config.embedding.fallback_provider@) {
        Some(config.embedding.fallback_provider@)
    } else {
        None
    }
}

/// After the preferred provider failed, the other one is asked where it is enabled.
pub fn plan_fallback(config: &AppConfig, primary_error: &str) -> (r: FallbackPlan)
    ensures
        r is Ask <==> asked_next(*config) is Some,
        r matches FallbackPlan::Ask(provider) ==> asked_next(*config) == Some(provider@),
        r matches FallbackPlan::Ask(provider) ==> provider@ == config.embedding.fallback_provider@,
        r is Ask <==> config.provider_enabled(config.embedding.fallback_provider@),
        r matches FallbackPlan::GiveUp(message) ==> message@ == primary_failure(
            *config,
            primary_error@,
        ) + "fallback disabled"@,
{
    let fallback = config.embedding.fallback_provider.as_str();
    if config.is_provider_enabled(fallback) {
        FallbackPlan::Ask(fallback.to_owned())
    } else {
        let mut message = render_primary_failure(config, primary_error);
        message.append("fallback disabled");
        FallbackPlan::GiveUp(message)
    }
}

/// What is said when the other provider failed too.
pub fn fallback_failure(config: &AppConfig, primary_error: &str) -> (r: String)
    ensures
        r@ == primary_failure(*config, primary_error@) + "fallback "@
            + config.embedding.fallback_provider@ + " also failed"@,
{
    let mut text = render_primary_failure(config, primary_error);
    text.append("fallback ");
    text.append(config.embedding.fallback_provider.as_str());
    text.append(" also failed");
    text
}

/// What is recorded of an embedding by the other provider.
pub fn fallback_status(config: &AppConfig, primary_error: &str, dimensions: usize) -> (r: String)
    ensures
        r@ == primary_failure(*config, primary_error@) + "embedding generated via fallback "@
            + config.embedding.fallback_provider@ + " ("@ + decimal(dimensions as nat)
            + " dimensions)"@,
{
    let mut text = render_primary_failure(config, primary_error);
    text.append("embedding generated via fallback ");
    text.append(config.embedding.fallback_provider.as_str());
    text.append(" (");
    text.append(render_usize(dimensions).as_str());
    text.append(" dimensions)");
    text
}

proof fn lemma_json_char(c: char)
    ensures
        forall|j: int| 0 <= j < json_char(c).len() ==> (#[trigger] json_char(c)[j]) as int >= 0x20,
        forall|j: int|
            0 <= j < json_char(c).len() && (#[trigger] json_char(c)[j]) == '"' ==> j == 1
                && json_char(c)[0] == '\\',
{
    let code = c as u32;
    assert(0 <= code / 16);
    assert(0 <= code % 16 < 16);
}

/// A text inside a JSON string ends where the text ends: no unescaped quotation mark and no
/// control character stands in it.
pub proof fn law_json_text_is_closed(s: Seq<char>)
    ensures
        forall|i: int|
            0 <= i < json_chars(s).len() ==> (#[trigger] json_chars(s)[i]) as int >= 0x20,
        forall|i: int|
            0 <= i < json_chars(s).len() && (#[trigger] json_chars(s)[i]) == '"' ==> i > 0
                && json_chars(s)[i - 1] == '\\',
    decreases s.len(),
{
    if s.len() > 0 {
        law_json_text_is_closed(s.drop_last());
        let before = json_chars(s.drop_last());
        let added = json_char(s.last());
        let all = json_chars(s);
        lemma_json_char(s.last());
        assert forall|i: int| 0 <= i < all.len() implies (#[trigger] all[i]) as int >= 0x20 by {
            if i < before.len() {
                assert(all[i] == before[i]);
            } else {
                assert(all[i] == added[i - before.len()]);
            }
        }
        assert forall|i: int| 0 <= i < all.len() && (#[trigger] all[i]) == '"' implies i > 0
            && all[i - 1] == '\\' by {
            if i < before.len() {
                assert(all[i] == before[i]);
                assert(all[i - 1] == before[i - 1]);
            } else {
                assert(all[i] == added[i - before.len()]);
                assert(all[i - 1] == added[0]);
            }
        }
    }
}

proof fn lemma_trailing_go(base: Seq<char>, trail: Seq<char>, c: char)
    requires
        forall|i: int| 0 <= i < trail.len() ==> #[trigger] trail[i] == c,
        base.len() == 0 || base.last() != c,
    ensures
        without_trailing(base + trail, c) == base,
    decreases trail.len(),
{
    if trail.len() == 0 {
        assert(base + trail =~= base);
    } else {
        assert(trail[trail.len() - 1] == c);
        let fewer = trail.drop_last();
        assert forall|i: int| 0 <= i < fewer.len() implies #[trigger] fewer[i] == c by {
            assert(fewer[i] == trail[i]);
        }
        lemma_trailing_go(base, fewer, c);
        assert((base + trail).drop_last() =~= base + fewer);
    }
}

/// Ollama is asked at its address, with or without separators at the end of it, and is sent the
/// text and the model but no key.
pub proof fn law_ollama_is_asked_at_its_address(
    config: AppConfig,
    base: Seq<char>,
    slashes: Seq<char>,
    text: Seq<char>,
)
    requires
        config.embedding.ollama.base_url@ == base + slashes,
        base.len() > 0,
        base.last() != '/',
        forall|i: int| 0 <= i < slashes.len() ==> #[trigger] slashes[i] == '/',
    ensures
        embedding_request_view(config, "ollama"@, text) is Some,
        probe_view(config, "ollama"@) is Some,
        ({
            let asked = embedding_request_view(config, "ollama"@, text)->0;
            let probed = probe_view(config, "ollama"@)->0;
            &&& asked.url == base + "/api/embed"@
            &&& probed.url == base + "/api/tags"@
            &&& asked.key is None && probed.key is None
            &&& asked.body is Some && probed.body is None
            &&& occurs_in(asked.body->0, json_string(text))
            &&& occurs_in(asked.body->0, json_string(config.embedding.ollama.model@))
        }),
{
    lemma_trailing_go(base, slashes, '/');
    let body = embedding_request_view(config, "ollama"@, text)->0.body->0;
    let one = "{\"input\":"@.len() as int;
    assert(body.subrange(one, one + json_string(text).len()) =~= json_string(text));
    assert(stands_at(body, json_string(text), one));
    let model = json_string(config.embedding.ollama.model@);
    let two = one + json_string(text).len() + ",\"model\":"@.len();
    assert(body.subrange(two, two + model.len()) =~= model);
    assert(stands_at(body, model, two));
}

/// Gemini is asked for its model, with its key, and is sent the text; a provider of another name is
/// not asked at all.
pub proof fn law_gemini_is_asked_with_its_key(
    config: AppConfig,
    text: Seq<char>,
    other: Seq<char>,
)
    requires
        other != "gemini"@,
        other != "ollama"@,
    ensures
        embedding_request_view(config, "gemini"@, text) is Some,
        probe_view(config, "gemini"@) is Some,
        embedding_request_view(config, other, text) is None,
        probe_view(config, other) is None,
        ({
            let asked = embedding_request_view(config, "gemini"@, text)->0;
            let probed = probe_view(config, "gemini"@)->0;
            &&& asked.key == Some(config.embedding.gemini.api_key@)
            &&& probed.key == Some(config.embedding.gemini.api_key@)
            &&& asked.url == probed.url + ":embedContent"@
            &&& config.embedding.gemini.model@.is_suffix_of(probed.url)
            &&& has_prefix(probed.url, "https://generativelanguage.googleapis.com/"@)
            &&& asked.body is Some && probed.body is None
            &&& occurs_in(asked.body->0, json_string(text))
        }),
{
    reveal_strlit("ollama");
    reveal_strlit("gemini");
    assert("ollama"@[0] != "gemini"@[0]);
    let probed = probe_view(config, "gemini"@)->0;
    let model = config.embedding.gemini.model@;
    assert(probed.url.skip(probed.url.len() - model.len()) =~= model);
    reveal_strlit("https://generativelanguage.googleapis.com/v1beta/models/");
    reveal_strlit("https://generativelanguage.googleapis.com/");
    assert(probed.url.take(42) =~= "https://generativelanguage.googleapis.com/"@);
    let body = embedding_request_view(config, "gemini"@, text)->0.body->0;
    let at = "{\"content\":{\"parts\":[{\"text\":"@.len() as int;
    assert(body.subrange(at, at + json_string(text).len()) =~= json_string(text));
    assert(stands_at(body, json_string(text), at));
}

/// Of the vectors in a reply the single one is taken, and else the first of several; an empty one
/// never is.
pub proof fn law_vector_is_never_empty<T>(single: Seq<T>, several: Seq<Seq<T>>)
    ensures
        ollama_vector_view(single, several) matches Some(vector) ==> vector.len() > 0 && (vector
            == single || (several.len() > 0 && vector == several[0])),
        single.len() > 0 ==> ollama_vector_view(single, several) == Some(single),
        single.len() == 0 && several.len() > 0 && several[0].len() > 0 ==> ollama_vector_view(
            single,
            several,
        ) == Some(several[0]),
{
}

/// Only a plain success counts: no other status is taken for one.
pub proof fn law_only_success_counts(status: u16)
    ensures
        carried_out(200),
        status != 200 ==> !carried_out(status),
{
}

/// With a valid configuration the provider that is asked next is another one than the preferred,
/// and one that can be asked; a provider that is off is not asked.
pub proof fn law_next_provider_is_another_one(config: AppConfig, facts: ConfigFacts)
    requires
        config.errors(facts).len() == 0,
    ensures
        asked_next(config) matches Some(provider) ==> provider
            != config.embedding.preferred_provider@ && can_embed_with(config, provider),
        config.embedding.fallback_provider@ == "gemini"@ ==> (asked_next(config) is Some
            <==> config.embedding.gemini.enabled),
        config.embedding.fallback_provider@ == "ollama"@ ==> (asked_next(config) is Some
            <==> config.embedding.ollama.enabled),
{
    law_embedding_settings_are_valid_exactly_when_usable(config);
    law_provider_is_enabled_by_its_own_switch(config, config.embedding.fallback_provider@);
    assert(config.embedding_errors().len() == 0);
}

} // verus!
