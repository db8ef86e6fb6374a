//! Questions to the person at the terminal, and what to make of the answers.

use vstd::prelude::*;

verus! {

use crate::config::{AppConfig, ConfigFacts, TelegramConfig, TelegramMode};
use crate::listing::concat;
use crate::text::{
    all_white, bare, has_prefix, is_ascii_alnum, is_white, law_trimmed_text_is_bare,
    law_trimming_takes_the_space_off_the_ends, lowered, same, starts_with, to_ascii_lowercase, trim,
    trimmed, trimmed_end, trimmed_start,
};
use crate::validation::{
    is_secret_token, is_token_char, is_valid_secret_token, law_valid_config_can_talk,
};
use rand::distributions::Alphanumeric;
use rand::rngs::OsRng;
use rand::Rng;

/// A question that is answered with yes or no; the capital letter is what no answer means.
pub fn yes_no_question(prompt: &str, default_yes: bool) -> (r: String)
    ensures
        r@ == prompt@ + (if default_yes {
            " [Y/n]: "@
        } else {
            " [y/N]: "@
        }),
{
    concat(
        prompt,
        if default_yes {
            " [Y/n]: "
        } else {
            " [y/N]: "
        },
    )
}

/// What an answer means; `None` where the question has to be asked again.
pub open spec fn yes_no(answer: Seq<char>, default_yes: bool) -> Option<bool> {
    let said = lowered(trimmed(answer));
    if trimmed(answer).len() == 0 {
        Some(default_yes)
    } else if said == "y"@ || said == "yes"@ {
        Some(true)
    } else if said == "n"@ || said == "no"@ {
        Some(false)
    } else {
        None
    }
}

pub fn parse_yes_no(answer: &str, default_yes: bool) -> (r: Option<bool>)
    ensures
        r == yes_no(answer@, default_yes),
{
    let said = trim(answer);
    if said.is_empty() {
        return Some(default_yes);
    }
    let lower = to_ascii_lowercase(said);
    if same(lower.as_str(), "y") || same(lower.as_str(), "yes") {
        Some(true)
    } else if same(lower.as_str(), "n") || same(lower.as_str(), "no") {
        Some(false)
    } else {
        None
    }
}

pub const EMPTY_VALUE: &'static str = "Value cannot be empty.";

pub const NOT_HTTPS: &'static str = "Webhook URL must start with https:// for Telegram webhook mode.";

pub const NOT_A_TOKEN: &'static str = "Secret token may only contain letters, numbers, underscores, or hyphens.";

/// The address that an answer gives, where it is one for a webhook.
pub open spec fn typed_url(answer: Seq<char>) -> Option<Seq<char>> {
    if has_prefix(trimmed(answer), "https://"@) {
        Some(trimmed(answer))
    } else {
        None
    }
}

/// The secret token that an answer gives, where it is one.
pub open spec fn typed_token(answer: Seq<char>) -> Option<Seq<char>> {
    if trimmed(answer).len() > 0 && is_secret_token(trimmed(answer)) {
        Some(trimmed(answer))
    } else {
        None
    }
}

/// The address that was typed, or what is wrong with it.
pub fn read_webhook_url(answer: &str) -> (r: Result<String, &'static str>)
    ensures
        r is Ok <==> typed_url(answer@) is Some,
        r matches Ok(url) ==> typed_url(answer@) == Some(url@),
        r is Ok <==> has_prefix(trimmed(answer@), "https://"@),
        r matches Ok(url) ==> url@ == trimmed(answer@),
        r matches Err(message) ==> message@ == (if trimmed(answer@).len() == 0 {
            EMPTY_VALUE@
        } else {
            NOT_HTTPS@
        }),
{
    let value = trim(answer);
    if value.is_empty() {
        proof {
            reveal_strlit("https://");
        }
        return Err(EMPTY_VALUE);
    }
    if !starts_with(value, "https://") {
        return Err(NOT_HTTPS);
    }
    Ok(value.to_owned())
}

/// The secret token that was typed, or what is wrong with it.
pub fn read_secret_token(answer: &str) -> (r: Result<String, &'static str>)
    ensures
        r is Ok <==> typed_token(answer@) is Some,
        r matches Ok(token) ==> typed_token(answer@) == Some(token@),
        r is Ok <==> trimmed(answer@).len() > 0 && is_secret_token(trimmed(answer@)),
        r matches Ok(token) ==> token@ == trimmed(answer@),
        r matches Err(message) ==> message@ == (if trimmed(answer@).len() == 0 {
            EMPTY_VALUE@
        } else {
            NOT_A_TOKEN@
        }),
{
    let value = trim(answer);
    if value.is_empty() {
        return Err(EMPTY_VALUE);
    }
    if !is_valid_secret_token(value) {
        return Err(NOT_A_TOKEN);
    }
    Ok(value.to_owned())
}

// ---------------------------------------------------------------------------------------------
// Secret tokens

/// `rand::Rng::sample_iter` on `rand::rngs::OsRng` with `rand::distributions::Alphanumeric`: as
/// many characters as asked for, each an ASCII letter or digit. Which characters come is up to
/// the operating system, and nothing more is stated of them.
#[verifier::external_body]
fn random_alphanumeric(count: usize) -> (r: String)
    ensures
        r@.len() == count,
        forall|i: int| 0 <= i < r@.len() ==> is_ascii_alnum(#[trigger] r@[i]),
{
    OsRng.sample_iter(&Alphanumeric).take(count).map(char::from).collect()
}

/// The length of a secret token.
pub const SECRET_TOKEN_CHARS: usize = 48;

/// A new secret token for the webhook, which is a valid one.
pub fn generate_webhook_secret_token() -> (r: String)
    ensures
        r@.len() == SECRET_TOKEN_CHARS,
        is_secret_token(r@),
        forall|i: int| 0 <= i < r@.len() ==> is_ascii_alnum(#[trigger] r@[i]),
{
    random_alphanumeric(SECRET_TOKEN_CHARS)
}

// ---------------------------------------------------------------------------------------------
// Settings to ask for

/// The settings of the webhook that are missing or cannot be used.
#[derive(Debug, Clone, Copy, PartialEq, Eq, Structural)]
pub struct WebhookGaps {
    pub secret_token: bool,
    pub url: bool,
}

/// Settings are asked for only where the webhook is used.
pub open spec fn uses_webhook(config: TelegramConfig) -> bool {
    config.enabled && config.mode is Webhook
}

/// The settings that the webhook lacks.
pub open spec fn gaps_of(config: TelegramConfig) -> WebhookGaps {
    WebhookGaps {
        secret_token: uses_webhook(config) && (trimmed(config.webhook_secret_token@).len() == 0
            || !is_secret_token(config.webhook_secret_token@)),
        url: uses_webhook(config) && (trimmed(config.webhook_url@).len() == 0 || !has_prefix(
            config.webhook_url@,
            "https://"@,
        )),
    }
}

pub fn webhook_gaps(config: &TelegramConfig) -> (r: WebhookGaps)
    ensures
        r == gaps_of(*config),
        r.secret_token == (uses_webhook(*config) && (trimmed(config.webhook_secret_token@).len()
            == 0 || !is_secret_token(config.webhook_secret_token@))),
        r.url == (uses_webhook(*config) && (trimmed(config.webhook_url@).len() == 0 || !has_prefix(
            config.webhook_url@,
            "https://"@,
        ))),
{
    let used = match config.mode {
        TelegramMode::Webhook => config.enabled,
        TelegramMode::Polling => false,
    };
    let token = config.webhook_secret_token.as_str();
    let url = config.webhook_url.as_str();
    WebhookGaps {
        secret_token: used && (trim(token).is_empty() || !is_valid_secret_token(token)),
        url: used && (trim(url).is_empty() || !starts_with(url, "https://")),
    }
}

/// The names of the settings that were asked for and are now set.
pub fn filled_settings(gaps: WebhookGaps) -> (r: String)
    ensures
        r@ == (if gaps.secret_token && gaps.url {
            "telegram.webhook_secret_token, telegram.webhook_url"@
        } else if gaps.secret_token {
            "telegram.webhook_secret_token"@
        } else if gaps.url {
            "telegram.webhook_url"@
        } else {
            ""@
        }),
{
    if gaps.secret_token && gaps.url {
        "telegram.webhook_secret_token, telegram.webhook_url".to_owned()
    } else if gaps.secret_token {
        "telegram.webhook_secret_token".to_owned()
    } else if gaps.url {
        "telegram.webhook_url".to_owned()
    } else {
        "".to_owned()
    }
}

/// A yes or a no counts in any case and with space around it, whatever no answer would mean; no
/// answer means the default, and anything else is asked again.
pub proof fn law_answers_count_in_any_case(
    lead: Seq<char>,
    word: Seq<char>,
    trail: Seq<char>,
    default_yes: bool,
)
    requires
        all_white(lead),
        bare(word),
        all_white(trail),
    ensures
        lowered(word) == seq!['y'] || lowered(word) == seq!['y', 'e', 's'] <==> word.len() > 0
            && yes_no(lead + word + trail, default_yes) == Some(true),
        lowered(word) == seq!['n'] || lowered(word) == seq!['n', 'o'] <==> word.len() > 0 && yes_no(
            lead + word + trail,
            default_yes,
        ) == Some(false),
        word.len() == 0 ==> yes_no(lead + word + trail, default_yes) == Some(default_yes),
{
    law_trimming_takes_the_space_off_the_ends(lead, word, trail);
    reveal_strlit("y");
    reveal_strlit("yes");
    reveal_strlit("n");
    reveal_strlit("no");
    assert("y"@ =~= seq!['y']);
    assert("yes"@ =~= seq!['y', 'e', 's']);
    assert("n"@ =~= seq!['n']);
    assert("no"@ =~= seq!['n', 'o']);
    assert(lowered(word).len() == word.len());
    if lowered(word) == seq!['n', 'o'] {
        assert(lowered(word)[0] == 'n');
    }
    if lowered(word) == seq!['y', 'e', 's'] {
        assert(lowered(word)[0] == 'y');
    }
    if lowered(word) == seq!['n'] {
        assert(lowered(word)[0] == 'n');
    }
    if lowered(word) == seq!['y'] {
        assert(lowered(word)[0] == 'y');
    }
}

/// A valid configuration lacks nothing for its webhook, and nothing is asked for where none is
/// used.
pub proof fn law_valid_configuration_has_no_gaps(config: AppConfig, facts: ConfigFacts)
    ensures
        config.errors(facts).len() == 0 ==> !gaps_of(config.telegram).secret_token && !gaps_of(
            config.telegram,
        ).url,
        !config.telegram.enabled || config.telegram.mode is Polling ==> !gaps_of(
            config.telegram,
        ).secret_token && !gaps_of(config.telegram).url,
{
    if config.errors(facts).len() == 0 && config.telegram.enabled {
        law_valid_config_can_talk(config, facts);
        if config.telegram.mode is Webhook {
            lemma_begun_is_not_blank(config.telegram.webhook_url@);
        }
    }
}

proof fn lemma_begun_is_not_blank(url: Seq<char>)
    requires
        has_prefix(url, "https://"@),
    ensures
        trimmed(url).len() > 0,
{
    reveal_strlit("https://");
    assert(url.take(8)[0] == url[0]);
    assert(trimmed_start(url) == url);
    if trimmed(url).len() == 0 {
        lemma_nothing_left(url, 0);
    }
}

proof fn lemma_nothing_left(s: Seq<char>, i: int)
    requires
        trimmed_end(s).len() == 0,
        0 <= i < s.len(),
    ensures
        is_white(s[i]),
    decreases s.len(),
{
    if i < s.len() - 1 {
        lemma_nothing_left(s.drop_last(), i);
    }
}

/// What is accepted as an answer closes the gap that it was asked for: with the typed address and
/// the typed token nothing is missing.
pub proof fn law_accepted_answers_close_the_gaps(
    config: TelegramConfig,
    url_answer: Seq<char>,
    token_answer: Seq<char>,
)
    requires
        typed_url(url_answer) == Some(config.webhook_url@),
        typed_token(token_answer) == Some(config.webhook_secret_token@),
    ensures
        !gaps_of(config).url,
        !gaps_of(config).secret_token,
{
    law_trimmed_text_is_bare(url_answer);
    law_trimmed_text_is_bare(token_answer);
    lemma_begun_is_not_blank(config.webhook_url@);
}

/// An address or a token is taken without the space around it; other addresses than secure ones,
/// tokens with other characters, and no answer at all are not taken.
pub proof fn law_answers_are_taken_without_space(
    lead: Seq<char>,
    value: Seq<char>,
    trail: Seq<char>,
)
    requires
        all_white(lead),
        bare(value),
        all_white(trail),
    ensures
        typed_url(lead + value + trail) is Some <==> value.len() >= 8 && value.take(8)
            == "https://"@,
        typed_url(lead + value + trail) matches Some(url) ==> url == value,
        typed_token(lead + value + trail) is Some <==> value.len() > 0 && forall|i: int|
            0 <= i < value.len() ==> is_ascii_alnum(#[trigger] value[i]) || value[i] == '_'
                || value[i] == '-',
        typed_token(lead + value + trail) matches Some(token) ==> token == value,
{
    law_trimming_takes_the_space_off_the_ends(lead, value, trail);
    reveal_strlit("https://");
    if is_secret_token(value) {
        assert forall|i: int| 0 <= i < value.len() implies is_ascii_alnum(#[trigger] value[i])
            || value[i] == '_' || value[i] == '-' by {
            assert(is_token_char(value[i]));
        }
    }
}

} // verus!
