//! The normal form of a configuration, and the errors of one that cannot be used.

use vstd::prelude::*;

verus! {

use crate::config::{
    AppConfig, ConfigFacts, LoadedConfig, TelegramConfig, TelegramMode, borrowed, config_directory,
    home_directory, is_data_directory, law_processed_files_go_under_the_watched_directory, optional,
    optional_str, resolve_path, resolve_processed_dir, resolved, resolved_processed,
};
use crate::listing::{concat, empty_list, extend, holds_id, holds_text, no_texts, note, only_if};
use crate::network::{parse_cidr, parsed_cidr};
use crate::paths::{
    extension, is_absolute_path, is_file_name, law_joining_adds_the_name, parent, path_extension,
    path_join, path_under, paths_equal, same_path, starts_with_path,
};
use crate::text::{
    all_white, bare, chars_of, has_prefix, is_ascii_alnum, is_ascii_alphanumeric, is_white, join,
    joined, law_trimming_and_lower_case_commute, law_trimming_takes_the_space_off_the_ends,
    lemma_trimmed_end, lowered, same, starts_with, to_ascii_lowercase, trim, trim_leading, trimmed,
    trimmed_end, trimmed_start, views, without_leading,
};

// ---------------------------------------------------------------------------------------------
// Normal form

/// A file type without white space around it and dots before it, in small letters.
pub open spec fn normal_file_type(value: Seq<char>) -> Seq<char> {
    lowered(without_leading(trimmed(value), '.'))
}

/// The normal forms of the file types, without those of which nothing is left.
pub open spec fn normal_file_types(values: Seq<Seq<char>>) -> Seq<Seq<char>>
    decreases values.len(),
{
    if values.len() == 0 {
        Seq::empty()
    } else {
        let before = normal_file_types(values.drop_last());
        let last = normal_file_type(values.last());
        if last.len() == 0 {
            before
        } else {
            before.push(last)
        }
    }
}

/// The trimmed texts, without those of which nothing is left.
pub open spec fn trimmed_texts(values: Seq<Seq<char>>) -> Seq<Seq<char>>
    decreases values.len(),
{
    if values.len() == 0 {
        Seq::empty()
    } else {
        let before = trimmed_texts(values.drop_last());
        let last = trimmed(values.last());
        if last.len() == 0 {
            before
        } else {
            before.push(last)
        }
    }
}

pub open spec fn strictly_increasing(ids: Seq<u64>) -> bool {
    forall|i: int, j: int| 0 <= i < j < ids.len() ==> ids[i] < ids[j]
}

/// `sorted` holds the same numbers as `ids`, each once, in increasing order.
pub open spec fn is_sorted_set_of(sorted: Seq<u64>, ids: Seq<u64>) -> bool {
    strictly_increasing(sorted) && forall|id: u64| sorted.contains(id) <==> ids.contains(id)
}

pub fn normalize_file_type(value: &str) -> (r: String)
    ensures
        r@ == normal_file_type(value@),
{
    to_ascii_lowercase(trim_leading(trim(value), '.'))
}

fn normalize_file_types(values: &Vec<String>) -> (r: Vec<String>)
    ensures
        views(r@) == normal_file_types(views(values@)),
{
    let ghost all = views(values@);
    let mut r: Vec<String> = Vec::new();
    let mut i: usize = 0;
    assert(views(r@) =~= normal_file_types(all.take(0)));
    while i < values.len()
        invariant
            i <= values@.len(),
            all == views(values@),
            views(r@) == normal_file_types(all.take(i as int)),
        decreases values@.len() - i,
    {
        assert(all.take(i + 1).drop_last() == all.take(i as int));
        let ghost before = r@;
        let value = normalize_file_type(values[i].as_str());
        if !value.as_str().is_empty() {
            let ghost shown = value@;
            r.push(value);
            assert(views(r@) =~= views(before).push(shown));
        }
        i += 1;
    }
    assert(all.take(i as int) == all);
    r
}

/// Trims every text and drops those of which nothing is left.
pub fn trim_texts(values: &Vec<String>) -> (r: Vec<String>)
    ensures
        views(r@) == trimmed_texts(views(values@)),
{
    let ghost all = views(values@);
    let mut r: Vec<String> = Vec::new();
    let mut i: usize = 0;
    assert(views(r@) =~= trimmed_texts(all.take(0)));
    while i < values.len()
        invariant
            i <= values@.len(),
            all == views(values@),
            views(r@) == trimmed_texts(all.take(i as int)),
        decreases values@.len() - i,
    {
        assert(all.take(i + 1).drop_last() == all.take(i as int));
        let ghost before = r@;
        let value = trim(values[i].as_str()).to_owned();
        if !value.as_str().is_empty() {
            let ghost shown = value@;
            r.push(value);
            assert(views(r@) =~= views(before).push(shown));
        }
        i += 1;
    }
    assert(all.take(i as int) == all);
    r
}

/// Puts `id` into a sorted list, unless it is there already.
fn insert_sorted(ids: &mut Vec<u64>, id: u64)
    requires
        strictly_increasing(old(ids)@),
    ensures
        strictly_increasing(final(ids)@),
        forall|x: u64| final(ids)@.contains(x) <==> old(ids)@.contains(x) || x == id,
{
    let mut at: usize = 0;
    while at < ids.len() && ids[at] < id
        invariant
            ids@ == old(ids)@,
            at <= ids@.len(),
            forall|j: int| 0 <= j < at ==> ids@[j] < id,
        decreases ids@.len() - at,
    {
        at += 1;
    }
    let ghost before = ids@;
    if at < ids.len() && ids[at] == id {
        assert(before[at as int] == id);
        return;
    }
    ids.insert(at, id);
    proof {
        let after = ids@;
        assert(after == before.insert(at as int, id));
        assert forall|i: int, j: int| 0 <= i < j < after.len() implies after[i] < after[j] by {
            let p = if i < at { i } else { i - 1 };
            let q = if j < at { j } else { j - 1 };
            if at < before.len() {
                assert(id < before[at as int]);
            }
        }
        assert forall|x: u64| after.contains(x) <==> before.contains(x) || x == id by {
            if before.contains(x) {
                let k = choose|k: int| 0 <= k < before.len() && before[k] == x;
                if k < at {
                    assert(after[k] == x);
                } else {
                    assert(after[k + 1] == x);
                }
            }
            if x == id {
                assert(after[at as int] == x);
            }
            if after.contains(x) {
                let k = choose|k: int| 0 <= k < after.len() && after[k] == x;
                if k < at {
                    assert(before[k] == x);
                } else if k > at {
                    assert(before[k - 1] == x);
                }
            }
        }
    }
}

/// The numbers in increasing order, each once.
pub fn sorted_unique(ids: &Vec<u64>) -> (r: Vec<u64>)
    ensures
        is_sorted_set_of(r@, ids@),
{
    let mut r: Vec<u64> = Vec::new();
    let mut i: usize = 0;
    while i < ids.len()
        invariant
            i <= ids@.len(),
            strictly_increasing(r@),
            forall|x: u64| r@.contains(x) <==> ids@.take(i as int).contains(x),
        decreases ids@.len() - i,
    {
        let ghost before = r@;
        insert_sorted(&mut r, ids[i]);
        proof {
            let shorter = ids@.take(i as int);
            let longer = ids@.take(i + 1);
            assert forall|x: u64| r@.contains(x) <==> longer.contains(x) by {
                if longer.contains(x) {
                    let k = choose|k: int| 0 <= k < longer.len() && longer[k] == x;
                    if k < i {
                        assert(shorter[k] == x);
                    }
                }
                if shorter.contains(x) {
                    let k = choose|k: int| 0 <= k < shorter.len() && shorter[k] == x;
                    assert(longer[k] == x);
                }
                if x == ids@[i as int] {
                    assert(longer[i as int] == x);
                }
            }
        }
        i += 1;
    }
    assert(ids@.take(i as int) == ids@);
    r
}

/// There is one way to sort a set of numbers.
pub proof fn law_sorted_set_unique(a: Seq<u64>, b: Seq<u64>, ids: Seq<u64>)
    requires
        is_sorted_set_of(a, ids),
        is_sorted_set_of(b, ids),
    ensures
        a == b,
    decreases a.len(),
{
    assert forall|x: u64| a.contains(x) <==> b.contains(x) by {
        assert(a.contains(x) <==> ids.contains(x));
        assert(b.contains(x) <==> ids.contains(x));
    }
    lemma_sorted_same_members(a, b);
}

proof fn lemma_sorted_same_members(a: Seq<u64>, b: Seq<u64>)
    requires
        strictly_increasing(a),
        strictly_increasing(b),
        forall|x: u64| a.contains(x) <==> b.contains(x),
    ensures
        a == b,
    decreases a.len(),
{
    if a.len() == 0 {
        if b.len() > 0 {
            assert(b.contains(b[0]));
            assert(a.contains(b[0]));
        }
        assert(a =~= b);
    } else {
        assert(a.contains(a.last()));
        assert(b.contains(a.last()));
        assert(b.len() > 0);
        assert(b.contains(b.last()));
        assert(a.contains(b.last()));
        let i = choose|i: int| 0 <= i < b.len() && b[i] == a.last();
        let j = choose|j: int| 0 <= j < a.len() && a[j] == b.last();
        assert(a.last() <= b.last());
        assert(b.last() <= a.last());
        let x = a.drop_last();
        let y = b.drop_last();
        assert forall|v: u64| x.contains(v) <==> y.contains(v) by {
            if x.contains(v) {
                let k = choose|k: int| 0 <= k < x.len() && x[k] == v;
                assert(a[k] == v);
                assert(a.contains(v));
                let m = choose|m: int| 0 <= m < b.len() && b[m] == v;
                assert(v < a.last());
                assert(y[m] == v);
            }
            if y.contains(v) {
                let k = choose|k: int| 0 <= k < y.len() && y[k] == v;
                assert(b[k] == v);
                assert(b.contains(v));
                assert(a.contains(v));
                let m = choose|m: int| 0 <= m < a.len() && a[m] == v;
                assert(v < b.last());
                assert(x[m] == v);
            }
        }
        lemma_sorted_same_members(x, y);
        assert(a == x.push(a.last()));
        assert(b == y.push(b.last()));
    }
}

impl AppConfig {
    /// Every setting that neither resolving paths nor normalizing touches is the same.
    pub open spec fn same_choices(&self, other: &AppConfig) -> bool {
        &&& self.telegram.enabled == other.telegram.enabled
        &&& self.telegram.chat_id == other.telegram.chat_id
        &&& self.telegram.mode == other.telegram.mode
        &&& self.telegram.poll_interval_secs == other.telegram.poll_interval_secs
        &&& self.telegram.match_accuracy == other.telegram.match_accuracy
        &&& self.embedding.ollama == other.embedding.ollama
        &&& self.embedding.gemini == other.embedding.gemini
    }

    /// The paths are those of `from`, seen from the directory of the configuration file.
    pub open spec fn paths_resolved_from(
        &self,
        from: &AppConfig,
        config_path: Seq<char>,
        home: Option<Seq<char>>,
    ) -> bool {
        let dir = config_directory(config_path);
        &&& self.watch_dir@ == resolved(dir, from.watch_dir@, home)
        &&& self.database_path@ == resolved(dir, from.database_path@, home)
        &&& self.processed_dir@ == resolved_processed(
            self.watch_dir@,
            dir,
            from.processed_dir@,
            home,
        )
        &&& self.telegram.audit_log_path@ == resolved(dir, from.telegram.audit_log_path@, home)
        &&& self.same_choices(from)
        &&& self.file_types == from.file_types
        &&& self.telegram.bot_token == from.telegram.bot_token
        &&& self.telegram.admin_user_ids == from.telegram.admin_user_ids
        &&& self.telegram.allowed_user_ids == from.telegram.allowed_user_ids
        &&& self.telegram.webhook_url == from.telegram.webhook_url
        &&& self.telegram.webhook_bind_addr == from.telegram.webhook_bind_addr
        &&& self.telegram.webhook_secret_token == from.telegram.webhook_secret_token
        &&& self.telegram.webhook_trusted_proxy_cidrs == from.telegram.webhook_trusted_proxy_cidrs
        &&& self.embedding.preferred_provider == from.embedding.preferred_provider
        &&& self.embedding.fallback_provider == from.embedding.fallback_provider
    }

    /// The texts and lists are those of `from` in normal form.
    pub open spec fn normal_form_of(&self, from: &AppConfig) -> bool {
        &&& self.watch_dir == from.watch_dir
        &&& self.database_path == from.database_path
        &&& self.processed_dir == from.processed_dir
        &&& self.telegram.audit_log_path == from.telegram.audit_log_path
        &&& self.same_choices(from)
        &&& views(self.file_types@) == normal_file_types(views(from.file_types@))
        &&& self.embedding.preferred_provider@ == lowered(
            trimmed(from.embedding.preferred_provider@),
        )
        &&& self.embedding.fallback_provider@ == lowered(trimmed(from.embedding.fallback_provider@))
        &&& self.telegram.bot_token@ == trimmed(from.telegram.bot_token@)
        &&& self.telegram.webhook_url@ == trimmed(from.telegram.webhook_url@)
        &&& self.telegram.webhook_bind_addr@ == trimmed(from.telegram.webhook_bind_addr@)
        &&& self.telegram.webhook_secret_token@ == trimmed(from.telegram.webhook_secret_token@)
        &&& views(self.telegram.webhook_trusted_proxy_cidrs@) == trimmed_texts(
            views(from.telegram.webhook_trusted_proxy_cidrs@),
        )
        &&& is_sorted_set_of(self.telegram.admin_user_ids@, from.telegram.admin_user_ids@)
        &&& is_sorted_set_of(self.telegram.allowed_user_ids@, from.telegram.allowed_user_ids@)
    }

    pub fn resolve_paths_from(&mut self, config_path: &str, home: Option<&str>)
        ensures
            final(self).paths_resolved_from(old(self), config_path@, optional_str(home)),
    {
        let found = parent(config_path);
        let dir = match &found {
            Some(dir) => dir.as_str(),
            None => ".",
        };
        assert(dir@ == config_directory(config_path@));
        self.watch_dir = resolve_path(dir, self.watch_dir.as_str(), home);
        self.database_path = resolve_path(dir, self.database_path.as_str(), home);
        self.processed_dir =
        resolve_processed_dir(self.watch_dir.as_str(), dir, self.processed_dir.as_str(), home);
        self.telegram.audit_log_path =
        resolve_path(dir, self.telegram.audit_log_path.as_str(), home);
    }

    pub fn resolve_paths(&mut self, config_path: &str)
        ensures
            exists|home: Option<Seq<char>>|
                final(self).paths_resolved_from(old(self), config_path@, home),
    {
        let home = home_directory();
        self.resolve_paths_from(config_path, borrowed(&home));
        assert(self.paths_resolved_from(old(self), config_path@, optional(home)));
    }

    pub fn normalize(&mut self)
        ensures
            final(self).normal_form_of(old(self)),
    {
        self.file_types = normalize_file_types(&self.file_types);
        self.embedding.preferred_provider =
        to_ascii_lowercase(trim(self.embedding.preferred_provider.as_str()));
        self.embedding.fallback_provider =
        to_ascii_lowercase(trim(self.embedding.fallback_provider.as_str()));
        self.telegram.bot_token = trim(self.telegram.bot_token.as_str()).to_owned();
        self.telegram.webhook_url = trim(self.telegram.webhook_url.as_str()).to_owned();
        self.telegram.webhook_bind_addr = trim(self.telegram.webhook_bind_addr.as_str()).to_owned();
        self.telegram.webhook_secret_token =
        trim(self.telegram.webhook_secret_token.as_str()).to_owned();
        self.telegram.webhook_trusted_proxy_cidrs =
        trim_texts(&self.telegram.webhook_trusted_proxy_cidrs);
        self.telegram.admin_user_ids = sorted_unique(&self.telegram.admin_user_ids);
        self.telegram.allowed_user_ids = sorted_unique(&self.telegram.allowed_user_ids);
    }

    /// The configuration to run with: the defaults where the file was only just created, and
    /// otherwise what was read from the file, with its paths resolved and in normal form.
    pub fn load_or_create(config_path: &str, read: Option<AppConfig>) -> (r: LoadedConfig)
        ensures
            r.path@ == config_path@,
            r.created == (read is None),
            read is None ==> exists|home: Option<Seq<char>>, data_dir: Option<Seq<char>>| #[trigger]
                r.data.is_default(home, data_dir) && is_data_directory(data_dir),
            read matches Some(config) ==> exists|resolved: AppConfig, home: Option<Seq<char>>| #[trigger]
                resolved.paths_resolved_from(&config, config_path@, home)
                    && r.data.normal_form_of(&resolved),
    {
        match read {
            None => LoadedConfig {
                path: config_path.to_owned(),
                data: AppConfig::default(),
                created: true,
            },
            Some(config) => {
                let mut data = config;
                data.resolve_paths(config_path);
                data.normalize();
                LoadedConfig { path: config_path.to_owned(), data, created: false }
            },
        }
    }
}

// ---------------------------------------------------------------------------------------------
// Validity

/// Nothing but white space, or a text that was never replaced by a real value.
pub open spec fn blank_or_placeholder(value: Seq<char>) -> bool {
    trimmed(value).len() == 0 || has_prefix(trimmed(value), "PASTE_"@)
}

pub fn is_blank_or_placeholder(value: &str) -> (r: bool)
    ensures
        r == blank_or_placeholder(value@),
{
    let trimmed_value = trim(value);
    trimmed_value.is_empty() || starts_with(trimmed_value, "PASTE_")
}

pub open spec fn is_token_char(c: char) -> bool {
    is_ascii_alnum(c) || c == '_' || c == '-'
}

pub open spec fn is_secret_token(value: Seq<char>) -> bool {
    forall|i: int| 0 <= i < value.len() ==> is_token_char(#[trigger] value[i])
}

/// Whether the text holds only letters, digits, underscores and hyphens.
pub fn is_valid_secret_token(value: &str) -> (r: bool)
    ensures
        r == is_secret_token(value@),
{
    let chars = chars_of(value);
    let mut i: usize = 0;
    while i < chars.len()
        invariant
            i <= chars@.len(),
            chars@ == value@,
            forall|j: int| 0 <= j < i ==> is_token_char(#[trigger] value@[j]),
        decreases chars@.len() - i,
    {
        let c = chars[i];
        if !(is_ascii_alphanumeric(c) || c == '_' || c == '-') {
            assert(!is_token_char(value@[i as int]));
            return false;
        }
        i += 1;
    }
    true
}

/// The bits of a single precision number between zero and one; negative zero is zero.
pub open spec fn is_unit_fraction(bits: u32) -> bool {
    bits <= 0x3f80_0000 || bits == 0x8000_0000
}

pub const CHOICE_OF_PROVIDERS: &'static str = " must be either 'ollama' or 'gemini'";

pub open spec fn known_provider(provider: Seq<char>) -> bool {
    provider == "ollama"@ || provider == "gemini"@
}

pub fn validate_provider_name(field_name: &str, provider: &str) -> (r: Result<(), String>)
    ensures
        r is Ok <==> known_provider(provider@),
        r matches Err(message) ==> message@ == field_name@ + CHOICE_OF_PROVIDERS@,
{
    if same(provider, "ollama") || same(provider, "gemini") {
        Ok(())
    } else {
        Err(concat(field_name, CHOICE_OF_PROVIDERS))
    }
}

/// The errors that the ranges cause, one for each that cannot be read.
pub open spec fn cidr_errors(cidrs: Seq<Seq<char>>) -> Seq<Seq<char>>
    decreases cidrs.len(),
{
    if cidrs.len() == 0 {
        Seq::empty()
    } else {
        cidr_errors(cidrs.drop_last()) + only_if(
            parsed_cidr(cidrs.last()) is None,
            "telegram.webhook_trusted_proxy_cidrs contains invalid CIDR "@ + cidrs.last(),
        )
    }
}

/// What is wrong with the webhook settings.
pub open spec fn webhook_errors(t: &TelegramConfig, facts: ConfigFacts) -> Seq<Seq<char>> {
    let url_missing = t.enabled && blank_or_placeholder(t.webhook_url@);
    let token_missing = t.enabled && blank_or_placeholder(t.webhook_secret_token@);
    no_texts() + only_if(
        url_missing,
        "telegram.mode is webhook but telegram.webhook_url is empty"@,
    ) + only_if(
        !url_missing && !has_prefix(t.webhook_url@, "https://"@),
        "telegram.webhook_url must start with https:// in webhook mode"@,
    ) + only_if(
        t.webhook_bind_addr@.len() == 0,
        "telegram.mode is webhook but telegram.webhook_bind_addr is empty"@,
    ) + only_if(
        t.webhook_bind_addr@.len() > 0 && !facts.webhook_bind_addr_parses,
        "telegram.webhook_bind_addr must be a valid socket address like 127.0.0.1:8080"@,
    ) + only_if(
        token_missing,
        "telegram.mode is webhook but telegram.webhook_secret_token is empty"@,
    ) + only_if(
        !token_missing && !is_secret_token(t.webhook_secret_token@),
        "telegram.webhook_secret_token must contain only letters, numbers, underscores, or hyphens"@,
    ) + cidr_errors(views(t.webhook_trusted_proxy_cidrs@))
}

/// What is wrong with the settings of the way updates arrive.
pub open spec fn transport_errors(t: &TelegramConfig, facts: ConfigFacts) -> Seq<Seq<char>> {
    match t.mode {
        TelegramMode::Polling => no_texts() + only_if(
            t.poll_interval_secs == 0,
            "telegram.poll_interval_secs must be greater than 0"@,
        ),
        TelegramMode::Webhook => webhook_errors(t, facts),
    }
}

impl AppConfig {
    pub open spec fn provider_enabled(&self, provider: Seq<char>) -> bool {
        if provider == "ollama"@ {
            self.embedding.ollama.enabled
        } else if provider == "gemini"@ {
            self.embedding.gemini.enabled
        } else {
            false
        }
    }

    /// What keeps a provider from being used, where something does.
    pub open spec fn provider_error(&self, field: Seq<char>, provider: Seq<char>) -> Option<
        Seq<char>,
    > {
        if provider == "ollama"@ {
            if !self.embedding.ollama.enabled {
                Some(field + " is ollama but embedding.ollama.enabled is false"@)
            } else if blank_or_placeholder(self.embedding.ollama.base_url@) {
                Some(field + " is ollama but embedding.ollama.base_url is empty"@)
            } else if blank_or_placeholder(self.embedding.ollama.model@) {
                Some(field + " is ollama but embedding.ollama.model is empty"@)
            } else {
                None
            }
        } else if provider == "gemini"@ {
            if !self.embedding.gemini.enabled {
                Some(field + " is gemini but embedding.gemini.enabled is false"@)
            } else if blank_or_placeholder(self.embedding.gemini.api_key@) {
                Some(field + " is gemini but embedding.gemini.api_key is empty"@)
            } else if blank_or_placeholder(self.embedding.gemini.model@) {
                Some(field + " is gemini but embedding.gemini.model is empty"@)
            } else {
                None
            }
        } else {
            Some(field + CHOICE_OF_PROVIDERS@)
        }
    }

    pub open spec fn provider_errors(&self, field: Seq<char>, provider: Seq<char>) -> Seq<
        Seq<char>,
    > {
        match self.provider_error(field, provider) {
            Some(message) => seq![message],
            None => Seq::empty(),
        }
    }

    /// What is wrong with the directories and file types.
    pub open spec fn place_errors(&self, facts: ConfigFacts) -> Seq<Seq<char>> {
        no_texts() + only_if(
            !facts.watch_dir_exists,
            "watch_dir does not exist: "@ + self.watch_dir@,
        ) + only_if(
            !facts.watch_dir_is_dir,
            "watch_dir is not a directory: "@ + self.watch_dir@,
        ) + only_if(
            facts.processed_dir_exists && !facts.processed_dir_is_dir,
            "processed_dir is not a directory: "@ + self.processed_dir@,
        ) + only_if(
            same_path(self.processed_dir@, self.watch_dir@),
            "processed_dir must be different from watch_dir"@,
        ) + only_if(
            self.file_types@.len() == 0,
            "file_types must contain at least one extension"@,
        )
    }

    /// What is wrong with the Telegram settings.
    pub open spec fn telegram_errors(&self, facts: ConfigFacts) -> Seq<Seq<char>> {
        let t = &self.telegram;
        no_texts() + only_if(
            t.enabled && blank_or_placeholder(t.bot_token@),
            "telegram.enabled is true but telegram.bot_token is empty"@,
        ) + transport_errors(t, facts) + only_if(
            !is_unit_fraction(t.match_accuracy),
            "telegram.match_accuracy must be between 0.0 and 1.0"@,
        ) + only_if(
            t.admin_user_ids@.contains(0),
            "telegram.admin_user_ids must contain only positive Telegram user IDs"@,
        ) + only_if(
            t.allowed_user_ids@.contains(0),
            "telegram.allowed_user_ids must contain only positive Telegram user IDs"@,
        )
    }

    /// What is wrong with the embedding settings.
    pub open spec fn embedding_errors(&self) -> Seq<Seq<char>> {
        let preferred = self.embedding.preferred_provider@;
        let fallback = self.embedding.fallback_provider@;
        let fallback_enabled = self.provider_enabled(fallback);
        no_texts() + only_if(
            !known_provider(preferred),
            "embedding.preferred_provider"@ + CHOICE_OF_PROVIDERS@,
        ) + only_if(
            !known_provider(fallback),
            "embedding.fallback_provider"@ + CHOICE_OF_PROVIDERS@,
        ) + only_if(
            fallback_enabled && preferred == fallback,
            "embedding.preferred_provider and embedding.fallback_provider must differ"@,
        ) + self.provider_errors("embedding.preferred_provider"@, preferred) + (
        if fallback_enabled {
            self.provider_errors("embedding.fallback_provider"@, fallback)
        } else {
            Seq::empty()
        })
    }

    /// Every reason not to start with this configuration, in the order they are reported.
    pub open spec fn errors(&self, facts: ConfigFacts) -> Seq<Seq<char>> {
        self.place_errors(facts) + self.telegram_errors(facts) + self.embedding_errors()
    }

    pub fn is_provider_enabled(&self, provider: &str) -> (r: bool)
        ensures
            r == self.provider_enabled(provider@),
    {
        if same(provider, "ollama") {
            self.embedding.ollama.enabled
        } else if same(provider, "gemini") {
            self.embedding.gemini.enabled
        } else {
            false
        }
    }

    pub fn validate_provider_config(&self, field_name: &str, provider: &str) -> (r: Result<
        (),
        String,
    >)
        ensures
            r is Ok <==> self.provider_error(field_name@, provider@) is None,
            r matches Err(message) ==> self.provider_error(field_name@, provider@) == Some(
                message@,
            ),
    {
        if same(provider, "ollama") {
            if !self.embedding.ollama.enabled {
                return Err(
                    concat(field_name, " is ollama but embedding.ollama.enabled is false"),
                );
            }
            if is_blank_or_placeholder(self.embedding.ollama.base_url.as_str()) {
                return Err(
                    concat(field_name, " is ollama but embedding.ollama.base_url is empty"),
                );
            }
            if is_blank_or_placeholder(self.embedding.ollama.model.as_str()) {
                return Err(concat(field_name, " is ollama but embedding.ollama.model is empty"));
            }
            Ok(())
        } else if same(provider, "gemini") {
            if !self.embedding.gemini.enabled {
                return Err(
                    concat(field_name, " is gemini but embedding.gemini.enabled is false"),
                );
            }
            if is_blank_or_placeholder(self.embedding.gemini.api_key.as_str()) {
                return Err(
                    concat(field_name, " is gemini but embedding.gemini.api_key is empty"),
                );
            }
            if is_blank_or_placeholder(self.embedding.gemini.model.as_str()) {
                return Err(concat(field_name, " is gemini but embedding.gemini.model is empty"));
            }
            Ok(())
        } else {
            Err(concat(field_name, CHOICE_OF_PROVIDERS))
        }
    }

    fn list_place_errors(&self, facts: ConfigFacts) -> (r: Vec<String>)
        ensures
            views(r@) == self.place_errors(facts),
    {
        let mut errors = empty_list();
        note(
            &mut errors,
            !facts.watch_dir_exists,
            concat("watch_dir does not exist: ", self.watch_dir.as_str()),
        );
        note(
            &mut errors,
            !facts.watch_dir_is_dir,
            concat("watch_dir is not a directory: ", self.watch_dir.as_str()),
        );
        note(
            &mut errors,
            facts.processed_dir_exists && !facts.processed_dir_is_dir,
            concat("processed_dir is not a directory: ", self.processed_dir.as_str()),
        );
        note(
            &mut errors,
            paths_equal(self.processed_dir.as_str(), self.watch_dir.as_str()),
            "processed_dir must be different from watch_dir".to_owned(),
        );
        note(
            &mut errors,
            self.file_types.len() == 0,
            "file_types must contain at least one extension".to_owned(),
        );
        errors
    }

    fn list_webhook_errors(&self, facts: ConfigFacts) -> (r: Vec<String>)
        ensures
            views(r@) == webhook_errors(&self.telegram, facts),
    {
        let mut errors = empty_list();
        let t = &self.telegram;
        let url_missing = t.enabled && is_blank_or_placeholder(t.webhook_url.as_str());
        let token_missing = t.enabled && is_blank_or_placeholder(t.webhook_secret_token.as_str());
        note(
            &mut errors,
            url_missing,
            "telegram.mode is webhook but telegram.webhook_url is empty".to_owned(),
        );
        note(
            &mut errors,
            !url_missing && !starts_with(t.webhook_url.as_str(), "https://"),
            "telegram.webhook_url must start with https:// in webhook mode".to_owned(),
        );
        let no_address = t.webhook_bind_addr.as_str().is_empty();
        note(
            &mut errors,
            no_address,
            "telegram.mode is webhook but telegram.webhook_bind_addr is empty".to_owned(),
        );
        note(
            &mut errors,
            !no_address && !facts.webhook_bind_addr_parses,
            "telegram.webhook_bind_addr must be a valid socket address like 127.0.0.1:8080".to_owned(),
        );
        note(
            &mut errors,
            token_missing,
            "telegram.mode is webhook but telegram.webhook_secret_token is empty".to_owned(),
        );
        note(
            &mut errors,
            !token_missing && !is_valid_secret_token(t.webhook_secret_token.as_str()),
            "telegram.webhook_secret_token must contain only letters, numbers, underscores, or hyphens".to_owned(),
        );
        extend(&mut errors, list_cidr_errors(&t.webhook_trusted_proxy_cidrs));
        errors
    }

    fn list_transport_errors(&self, facts: ConfigFacts) -> (r: Vec<String>)
        ensures
            views(r@) == transport_errors(&self.telegram, facts),
    {
        match self.telegram.mode {
            TelegramMode::Polling => {
                let mut errors = empty_list();
                note(
                    &mut errors,
                    self.telegram.poll_interval_secs == 0,
                    "telegram.poll_interval_secs must be greater than 0".to_owned(),
                );
                errors
            },
            TelegramMode::Webhook => self.list_webhook_errors(facts),
        }
    }

    fn list_telegram_errors(&self, facts: ConfigFacts) -> (r: Vec<String>)
        ensures
            views(r@) == self.telegram_errors(facts),
    {
        let mut errors = empty_list();
        let t = &self.telegram;
        note(
            &mut errors,
            t.enabled && is_blank_or_placeholder(t.bot_token.as_str()),
            "telegram.enabled is true but telegram.bot_token is empty".to_owned(),
        );
        extend(&mut errors, self.list_transport_errors(facts));
        note(
            &mut errors,
            !(t.match_accuracy <= 0x3f80_0000 || t.match_accuracy == 0x8000_0000),
            "telegram.match_accuracy must be between 0.0 and 1.0".to_owned(),
        );
        note(
            &mut errors,
            holds_id(&t.admin_user_ids, 0),
            "telegram.admin_user_ids must contain only positive Telegram user IDs".to_owned(),
        );
        note(
            &mut errors,
            holds_id(&t.allowed_user_ids, 0),
            "telegram.allowed_user_ids must contain only positive Telegram user IDs".to_owned(),
        );
        errors
    }

    fn list_provider_errors(&self, field_name: &str, provider: &str) -> (r: Vec<String>)
        ensures
            views(r@) == self.provider_errors(field_name@, provider@),
    {
        match self.validate_provider_config(field_name, provider) {
            Ok(()) => empty_list(),
            Err(message) => {
                let r = vec![message];
                assert(views(r@) =~= self.provider_errors(field_name@, provider@));
                r
            },
        }
    }

    fn list_embedding_errors(&self) -> (r: Vec<String>)
        ensures
            views(r@) == self.embedding_errors(),
    {
        let mut errors = empty_list();
        let preferred = self.embedding.preferred_provider.as_str();
        let fallback = self.embedding.fallback_provider.as_str();
        let fallback_enabled = self.is_provider_enabled(fallback);
        note(
            &mut errors,
            validate_provider_name("embedding.preferred_provider", preferred).is_err(),
            concat("embedding.preferred_provider", CHOICE_OF_PROVIDERS),
        );
        note(
            &mut errors,
            validate_provider_name("embedding.fallback_provider", fallback).is_err(),
            concat("embedding.fallback_provider", CHOICE_OF_PROVIDERS),
        );
        note(
            &mut errors,
            fallback_enabled && same(preferred, fallback),
            "embedding.preferred_provider and embedding.fallback_provider must differ".to_owned(),
        );
        extend(
            &mut errors,
            self.list_provider_errors("embedding.preferred_provider", preferred),
        );
        if fallback_enabled {
            extend(
                &mut errors,
                self.list_provider_errors("embedding.fallback_provider", fallback),
            );
        } else {
            extend(&mut errors, empty_list());
        }
        errors
    }

    /// All reasons not to start with this configuration, one to a line.
    pub fn validate(&self, facts: ConfigFacts) -> (r: Result<(), String>)
        ensures
            r is Ok <==> self.errors(facts).len() == 0,
            r matches Err(message) ==> message@ == joined(self.errors(facts), "\n"@),
    {
        let mut errors = self.list_place_errors(facts);
        extend(&mut errors, self.list_telegram_errors(facts));
        extend(&mut errors, self.list_embedding_errors());
        assert(views(errors@).len() == errors@.len());
        if errors.len() == 0 {
            Ok(())
        } else {
            Err(join(&errors, "\n"))
        }
    }

    pub open spec fn processed(&self, path: Seq<char>) -> bool {
        path_under(path, self.processed_dir@)
    }

    /// A document to index: of a configured type, and not among the processed ones.
    pub open spec fn supports(&self, path: Seq<char>) -> bool {
        !self.processed(path) && match path_extension(path) {
            Some(ext) => views(self.file_types@).contains(normal_file_type(ext)),
            None => false,
        }
    }

    pub fn is_processed_path(&self, path: &str) -> (r: bool)
        ensures
            r == self.processed(path@),
    {
        starts_with_path(path, self.processed_dir.as_str())
    }

    pub fn supports_path(&self, path: &str) -> (r: bool)
        ensures
            r == self.supports(path@),
    {
        if self.is_processed_path(path) {
            return false;
        }
        match extension(path) {
            Some(ext) => {
                let wanted = normalize_file_type(ext.as_str());
                holds_text(&self.file_types, wanted.as_str())
            },
            None => false,
        }
    }
}

impl LoadedConfig {
    /// Whether the program may go on with the configuration: one that was only just created is to
    /// be edited first, and any other has to be valid.
    pub open spec fn accepted(&self, facts: ConfigFacts) -> bool {
        self.created || self.data.errors(facts).len() == 0
    }

    /// The loaded configuration where it is accepted, or all that is wrong with it.
    pub fn checked(self, facts: ConfigFacts) -> (r: Result<LoadedConfig, String>)
        ensures
            r is Ok <==> self.accepted(facts),
            r matches Ok(loaded) ==> loaded == self,
            r matches Err(message) ==> message@ == joined(self.data.errors(facts), "\n"@),
    {
        if self.created {
            return Ok(self);
        }
        match self.data.validate(facts) {
            Ok(()) => Ok(self),
            Err(message) => Err(message),
        }
    }
}

fn list_cidr_errors(cidrs: &Vec<String>) -> (r: Vec<String>)
    ensures
        views(r@) == cidr_errors(views(cidrs@)),
{
    let ghost all = views(cidrs@);
    let mut errors = empty_list();
    let mut i: usize = 0;
    while i < cidrs.len()
        invariant
            i <= cidrs@.len(),
            all == views(cidrs@),
            views(errors@) == cidr_errors(all.take(i as int)),
        decreases cidrs@.len() - i,
    {
        assert(all.take(i + 1).drop_last() == all.take(i as int));
        let cidr = cidrs[i].as_str();
        note(
            &mut errors,
            parse_cidr(cidr).is_none(),
            concat("telegram.webhook_trusted_proxy_cidrs contains invalid CIDR ", cidr),
        );
        i += 1;
    }
    assert(all.take(i as int) == all);
    errors
}

/// With a valid configuration there is a directory to watch, apart from the one for processed
/// files, and a provider that is enabled and has its settings.
pub proof fn law_valid_config_can_embed(config: AppConfig, facts: ConfigFacts)
    requires
        config.errors(facts).len() == 0,
    ensures
        facts.watch_dir_exists,
        facts.watch_dir_is_dir,
        !same_path(config.processed_dir@, config.watch_dir@),
        config.file_types@.len() > 0,
        known_provider(config.embedding.preferred_provider@),
        config.provider_enabled(config.embedding.preferred_provider@),
        config.provider_error(
            "embedding.preferred_provider"@,
            config.embedding.preferred_provider@,
        ) is None,
        config.provider_enabled(config.embedding.fallback_provider@) ==> config.provider_error(
            "embedding.fallback_provider"@,
            config.embedding.fallback_provider@,
        ) is None && config.embedding.fallback_provider@ != config.embedding.preferred_provider@,
{
    assert(config.place_errors(facts).len() == 0);
    assert(config.embedding_errors().len() == 0);
}

/// With a valid configuration a bot that is on has a token, and a webhook that is used has a
/// secure address, a secret token and proxies that can be read.
pub proof fn law_valid_config_can_talk(config: AppConfig, facts: ConfigFacts)
    requires
        config.errors(facts).len() == 0,
        config.telegram.enabled,
    ensures
        !blank_or_placeholder(config.telegram.bot_token@),
        !config.telegram.admin_user_ids@.contains(0),
        !config.telegram.allowed_user_ids@.contains(0),
        is_unit_fraction(config.telegram.match_accuracy),
        config.telegram.mode is Polling ==> config.telegram.poll_interval_secs > 0,
        config.telegram.mode is Webhook ==> {
            &&& has_prefix(config.telegram.webhook_url@, "https://"@)
            &&& !blank_or_placeholder(config.telegram.webhook_secret_token@)
            &&& is_secret_token(config.telegram.webhook_secret_token@)
            &&& facts.webhook_bind_addr_parses
            &&& cidr_errors(views(config.telegram.webhook_trusted_proxy_cidrs@)).len() == 0
        },
{
    assert(config.telegram_errors(facts).len() == 0);
    let t = config.telegram;
    lemma_no_telegram_errors(config, facts);
    if t.mode is Webhook {
        lemma_no_webhook_errors(t, facts);
    }
}

proof fn lemma_no_telegram_errors(config: AppConfig, facts: ConfigFacts)
    requires
        config.telegram_errors(facts).len() == 0,
    ensures
        config.telegram.enabled ==> !blank_or_placeholder(config.telegram.bot_token@),
        transport_errors(&config.telegram, facts).len() == 0,
        is_unit_fraction(config.telegram.match_accuracy),
        !config.telegram.admin_user_ids@.contains(0),
        !config.telegram.allowed_user_ids@.contains(0),
{
}

proof fn lemma_no_webhook_errors(t: TelegramConfig, facts: ConfigFacts)
    requires
        t.enabled,
        webhook_errors(&t, facts).len() == 0,
    ensures
        !blank_or_placeholder(t.webhook_url@),
        has_prefix(t.webhook_url@, "https://"@),
        facts.webhook_bind_addr_parses,
        !blank_or_placeholder(t.webhook_secret_token@),
        is_secret_token(t.webhook_secret_token@),
        cidr_errors(views(t.webhook_trusted_proxy_cidrs@)).len() == 0,
{
    let url_missing = t.enabled && blank_or_placeholder(t.webhook_url@);
    let token_missing = t.enabled && blank_or_placeholder(t.webhook_secret_token@);
    let tail = cidr_errors(views(t.webhook_trusted_proxy_cidrs@));
    assert(webhook_errors(&t, facts).len() == (if url_missing {
        1int
    } else {
        0int
    }) + (if !url_missing && !has_prefix(t.webhook_url@, "https://"@) {
        1int
    } else {
        0int
    }) + (if t.webhook_bind_addr@.len() == 0 {
        1int
    } else {
        0int
    }) + (if t.webhook_bind_addr@.len() > 0 && !facts.webhook_bind_addr_parses {
        1int
    } else {
        0int
    }) + (if token_missing {
        1int
    } else {
        0int
    }) + (if !token_missing && !is_secret_token(t.webhook_secret_token@) {
        1int
    } else {
        0int
    }) + tail.len());
}

/// A processed file is never taken in again.
pub proof fn law_processed_files_are_left_alone(config: AppConfig, path: Seq<char>)
    requires
        config.processed(path),
    ensures
        !config.supports(path),
{
}

/// With a valid configuration the provider in use has what it needs: it is enabled and its settings
/// were filled in. The same holds of the fallback, where that is enabled.
pub proof fn law_provider_in_use_has_its_settings(config: AppConfig, facts: ConfigFacts)
    requires
        config.errors(facts).len() == 0,
    ensures
        ({
            let e = config.embedding;
            let gemini_in_use = e.preferred_provider@ == "gemini"@ || (e.fallback_provider@
                == "gemini"@ && e.gemini.enabled);
            let ollama_in_use = e.preferred_provider@ == "ollama"@ || (e.fallback_provider@
                == "ollama"@ && e.ollama.enabled);
            &&& e.preferred_provider@ == "gemini"@ || e.preferred_provider@ == "ollama"@
            &&& e.fallback_provider@ == "gemini"@ || e.fallback_provider@ == "ollama"@
            &&& gemini_in_use ==> e.gemini.enabled && !blank_or_placeholder(e.gemini.api_key@)
                && !blank_or_placeholder(e.gemini.model@)
            &&& ollama_in_use ==> e.ollama.enabled && !blank_or_placeholder(e.ollama.base_url@)
                && !blank_or_placeholder(e.ollama.model@)
        }),
{
    lemma_providers_differ();
    assert(config.embedding_errors().len() == 0);
}

proof fn lemma_providers_differ()
    ensures
        "ollama"@ != "gemini"@,
{
    reveal_strlit("ollama");
    reveal_strlit("gemini");
    assert("ollama"@[0] != "gemini"@[0]);
}

/// The settings that a provider cannot do without.
pub open spec fn can_embed_with(config: AppConfig, provider: Seq<char>) -> bool {
    let e = config.embedding;
    ||| provider == "ollama"@ && e.ollama.enabled && !blank_or_placeholder(e.ollama.base_url@)
        && !blank_or_placeholder(e.ollama.model@)
    ||| provider == "gemini"@ && e.gemini.enabled && !blank_or_placeholder(e.gemini.api_key@)
        && !blank_or_placeholder(e.gemini.model@)
}

/// The embedding settings can be used exactly if the preferred provider can be, the fallback is a
/// provider, and where it is enabled it can be used too and is another one.
pub proof fn law_embedding_settings_are_valid_exactly_when_usable(config: AppConfig)
    ensures
        config.embedding_errors().len() == 0 <==> ({
            let preferred = config.embedding.preferred_provider@;
            let fallback = config.embedding.fallback_provider@;
            let enabled = (fallback == "ollama"@ && config.embedding.ollama.enabled) || (fallback
                == "gemini"@ && config.embedding.gemini.enabled);
            &&& can_embed_with(config, preferred)
            &&& fallback == "ollama"@ || fallback == "gemini"@
            &&& enabled ==> fallback != preferred && can_embed_with(config, fallback)
        }),
{
    lemma_providers_differ();
}

/// The places can be used exactly if there is a directory to watch, the directory for processed
/// files is another one and no file stands in its place, and there is a type of files to look for.
pub proof fn law_places_are_valid_exactly_when_usable(config: AppConfig, facts: ConfigFacts)
    ensures
        config.place_errors(facts).len() == 0 <==> facts.watch_dir_exists && facts.watch_dir_is_dir
            && (facts.processed_dir_exists ==> facts.processed_dir_is_dir) && !same_path(
            config.processed_dir@,
            config.watch_dir@,
        ) && config.file_types@.len() > 0,
{
}

/// The settings of the bot can be used exactly if it has a token where it is on, a way to get its
/// updates, an accuracy between zero and one, and no user with the number zero.
pub proof fn law_telegram_settings_are_valid_exactly_when_usable(
    config: AppConfig,
    facts: ConfigFacts,
)
    ensures
        config.telegram_errors(facts).len() == 0 <==> ({
            let t = config.telegram;
            &&& t.enabled ==> !blank_or_placeholder(t.bot_token@)
            &&& t.mode is Polling ==> t.poll_interval_secs > 0
            &&& t.mode is Webhook ==> has_prefix(t.webhook_url@, "https://"@)
                && t.webhook_bind_addr@.len() > 0 && facts.webhook_bind_addr_parses
                && is_secret_token(t.webhook_secret_token@) && (t.enabled ==> trimmed(
                t.webhook_secret_token@,
            ).len() > 0 && !blank_or_placeholder(t.webhook_secret_token@)) && forall|i: int|
                0 <= i < t.webhook_trusted_proxy_cidrs@.len() ==> parsed_cidr(
                    (#[trigger] t.webhook_trusted_proxy_cidrs@[i])@,
                ) is Some
            &&& t.match_accuracy <= 0x3f80_0000 || t.match_accuracy == 0x8000_0000
            &&& !t.admin_user_ids@.contains(0)
            &&& !t.allowed_user_ids@.contains(0)
        }),
{
    let t = config.telegram;
    let cidrs = views(t.webhook_trusted_proxy_cidrs@);
    lemma_cidr_errors(cidrs);
    lemma_telegram_error_count(config, facts);
    if t.mode is Webhook {
        lemma_webhook_error_count(t, facts);
        if has_prefix(t.webhook_url@, "https://"@) {
            lemma_secure_address_is_no_placeholder(t.webhook_url@);
        }
        assert forall|i: int| 0 <= i < t.webhook_trusted_proxy_cidrs@.len() implies cidrs[i]
            == (#[trigger] t.webhook_trusted_proxy_cidrs@[i])@ by {}
        if cidr_errors(cidrs).len() == 0 {
            assert forall|i: int| 0 <= i < t.webhook_trusted_proxy_cidrs@.len() implies parsed_cidr(
                (#[trigger] t.webhook_trusted_proxy_cidrs@[i])@,
            ) is Some by {
                assert(parsed_cidr(cidrs[i]) is Some);
            }
        }
    }
}

proof fn lemma_secure_address_is_no_placeholder(url: Seq<char>)
    requires
        has_prefix(url, "https://"@),
    ensures
        !blank_or_placeholder(url),
{
    reveal_strlit("https://");
    reveal_strlit("PASTE_");
    assert(url[0] == 'h') by {
        assert(url.take(8)[0] == url[0]);
    }
    lemma_trimmed_end(url);
    let whole = trimmed(url);
    assert(trimmed_start(url) == url);
    assert(whole.len() > 0) by {
        if whole.len() == 0 {
            lemma_all_trimmed(url, 0);
        }
    }
    assert(whole[0] == 'h');
    if has_prefix(whole, "PASTE_"@) {
        assert(whole.take(6)[0] == whole[0]);
    }
}

proof fn lemma_all_trimmed(s: Seq<char>, i: int)
    requires
        trimmed_end(s).len() == 0,
        0 <= i < s.len(),
    ensures
        is_white(s[i]),
    decreases s.len(),
{
    if i < s.len() - 1 {
        lemma_all_trimmed(s.drop_last(), i);
    }
}

proof fn lemma_cidr_errors(cidrs: Seq<Seq<char>>)
    ensures
        cidr_errors(cidrs).len() == 0 <==> forall|i: int|
            0 <= i < cidrs.len() ==> parsed_cidr(#[trigger] cidrs[i]) is Some,
    decreases cidrs.len(),
{
    if cidrs.len() > 0 {
        let before = cidrs.drop_last();
        lemma_cidr_errors(before);
        assert(cidrs[cidrs.len() - 1] == cidrs.last());
        assert forall|i: int| 0 <= i < before.len() implies before[i] == cidrs[i] by {}
        if cidr_errors(cidrs).len() == 0 {
            assert forall|i: int| 0 <= i < cidrs.len() implies parsed_cidr(
                #[trigger] cidrs[i],
            ) is Some by {
                if i < before.len() {
                    assert(parsed_cidr(before[i]) is Some);
                }
            }
        }
        if forall|i: int| 0 <= i < cidrs.len() ==> parsed_cidr(#[trigger] cidrs[i]) is Some {
            assert forall|i: int| 0 <= i < before.len() implies parsed_cidr(
                #[trigger] before[i],
            ) is Some by {
                assert(parsed_cidr(cidrs[i]) is Some);
            }
        }
    }
}

spec fn one_if(condition: bool) -> int {
    if condition {
        1
    } else {
        0
    }
}

proof fn lemma_telegram_error_count(config: AppConfig, facts: ConfigFacts)
    ensures
        ({
            let t = config.telegram;
            config.telegram_errors(facts).len() == one_if(
                t.enabled && blank_or_placeholder(t.bot_token@),
            ) + transport_errors(&t, facts).len() + one_if(!is_unit_fraction(t.match_accuracy))
                + one_if(t.admin_user_ids@.contains(0)) + one_if(t.allowed_user_ids@.contains(0))
        }),
{
}

proof fn lemma_webhook_error_count(t: TelegramConfig, facts: ConfigFacts)
    ensures
        ({
            let url_missing = t.enabled && blank_or_placeholder(t.webhook_url@);
            let token_missing = t.enabled && blank_or_placeholder(t.webhook_secret_token@);
            webhook_errors(&t, facts).len() == one_if(url_missing) + one_if(
                !url_missing && !has_prefix(t.webhook_url@, "https://"@),
            ) + one_if(t.webhook_bind_addr@.len() == 0) + one_if(
                t.webhook_bind_addr@.len() > 0 && !facts.webhook_bind_addr_parses,
            ) + one_if(token_missing) + one_if(
                !token_missing && !is_secret_token(t.webhook_secret_token@),
            ) + cidr_errors(views(t.webhook_trusted_proxy_cidrs@)).len()
        }),
{
}

/// A value is missing if nothing but space was given, or what stood there to be replaced, with any
/// space around it.
pub proof fn law_missing_values_are_known(lead: Seq<char>, value: Seq<char>, trail: Seq<char>)
    requires
        all_white(lead),
        bare(value),
        all_white(trail),
    ensures
        blank_or_placeholder(lead + value + trail) <==> value.len() == 0 || (value.len() >= 6
            && value.take(6) == seq!['P', 'A', 'S', 'T', 'E', '_']),
{
    law_trimming_takes_the_space_off_the_ends(lead, value, trail);
    reveal_strlit("PASTE_");
    assert("PASTE_"@ =~= seq!['P', 'A', 'S', 'T', 'E', '_']);
}

/// Errors of all three kinds are reported together: a configuration is accepted exactly if none of
/// its parts has any, or if it was only just created.
pub proof fn law_no_fault_is_passed_over(loaded: LoadedConfig, facts: ConfigFacts)
    ensures
        loaded.accepted(facts) <==> loaded.created || (loaded.data.place_errors(facts).len() == 0
            && loaded.data.telegram_errors(facts).len() == 0
            && loaded.data.embedding_errors().len() == 0),
{
}

proof fn lemma_dots_go(dots: Seq<char>, rest: Seq<char>)
    requires
        forall|i: int| 0 <= i < dots.len() ==> #[trigger] dots[i] == '.',
        rest.len() == 0 || rest[0] != '.',
    ensures
        without_leading(dots + rest, '.') == rest,
    decreases dots.len(),
{
    if dots.len() == 0 {
        assert(dots + rest =~= rest);
    } else {
        assert(dots[0] == '.');
        let fewer = dots.drop_first();
        assert forall|i: int| 0 <= i < fewer.len() implies #[trigger] fewer[i] == '.' by {
            assert(fewer[i] == dots[i + 1]);
        }
        lemma_dots_go(fewer, rest);
        assert((dots + rest).drop_first() =~= fewer + rest);
    }
}

/// A file type may be written with space around it, with a dot before it and in any case: it means
/// the same extension.
pub proof fn law_file_type_may_be_written_in_many_ways(
    lead: Seq<char>,
    dots: Seq<char>,
    name: Seq<char>,
    trail: Seq<char>,
)
    requires
        all_white(lead),
        forall|i: int| 0 <= i < dots.len() ==> #[trigger] dots[i] == '.',
        name.len() > 0,
        bare(name),
        name[0] != '.',
        all_white(trail),
    ensures
        normal_file_type(lead + (dots + name) + trail) == lowered(name),
        normal_file_type(lowered(lead + (dots + name) + trail)) == lowered(name),
{
    let whole = dots + name;
    assert(bare(whole)) by {
        if dots.len() > 0 {
            assert(dots[0] == '.');
            assert(whole.first() == '.');
        } else {
            assert(whole =~= name);
        }
        assert(whole.last() == name.last());
    }
    law_trimming_takes_the_space_off_the_ends(lead, whole, trail);
    lemma_dots_go(dots, name);
    let text = lead + whole + trail;
    law_trimming_and_lower_case_commute(text);
    assert(lowered(whole) =~= lowered(dots) + lowered(name));
    assert(lowered(dots) =~= dots) by {
        assert forall|i: int| 0 <= i < dots.len() implies lowered(dots)[i] == dots[i] by {
            assert(dots[i] == '.');
        }
    }
    lemma_dots_go(dots, lowered(name));
    assert(lowered(lowered(name)) =~= lowered(name));
}

proof fn lemma_dots_in_any_case(s: Seq<char>)
    ensures
        without_leading(lowered(s), '.') == lowered(without_leading(s, '.')),
    decreases s.len(),
{
    if s.len() > 0 && s.first() == '.' {
        assert(lowered(s).drop_first() =~= lowered(s.drop_first()));
        lemma_dots_in_any_case(s.drop_first());
    }
}

/// Whether a file is taken in does not depend on the case of its extension.
pub proof fn law_extension_is_known_in_any_case(
    config: AppConfig,
    path: Seq<char>,
    other: Seq<char>,
)
    requires
        path_extension(path) is Some,
        path_extension(other) is Some,
        lowered(path_extension(path)->0) == lowered(path_extension(other)->0),
        config.processed(path) == config.processed(other),
    ensures
        config.supports(path) == config.supports(other),
{
    let one = path_extension(path)->0;
    let two = path_extension(other)->0;
    law_trimming_and_lower_case_commute(one);
    law_trimming_and_lower_case_commute(two);
    lemma_dots_in_any_case(trimmed(one));
    lemma_dots_in_any_case(trimmed(two));
}

/// A file is taken in exactly if it is not among the processed ones and its extension is one of the
/// configured types; a file without an extension never is.
pub proof fn law_configured_types_are_taken_in(config: AppConfig, path: Seq<char>, i: int)
    requires
        0 <= i < config.file_types@.len(),
        bare(config.file_types@[i]@),
    ensures
        path_extension(path) is None ==> !config.supports(path),
        path_extension(path) matches Some(ext) && bare(ext) && ext.len() > 0 && ext[0] != '.'
            && lowered(ext) == config.file_types@[i]@ && !config.processed(path) ==> config.supports(
            path,
        ),
        config.supports(path) ==> path_extension(path) is Some && !config.processed(path) && exists|
            k: int,
        |
            0 <= k < config.file_types@.len() && (#[trigger] config.file_types@[k])@
                == normal_file_type(path_extension(path)->0),
{
    if let Some(ext) = path_extension(path) {
        if bare(ext) && ext.len() > 0 && ext[0] != '.' {
            law_file_type_may_be_written_in_many_ways(
                Seq::empty(),
                Seq::empty(),
                ext,
                Seq::empty(),
            );
            assert(Seq::<char>::empty() + (Seq::<char>::empty() + ext) + Seq::<char>::empty()
                =~= ext);
            assert(views(config.file_types@)[i] == config.file_types@[i]@);
        }
    }
    if config.supports(path) {
        let wanted = normal_file_type(path_extension(path)->0);
        let k = choose|k: int|
            0 <= k < views(config.file_types@).len() && views(config.file_types@)[k] == wanted;
        assert(config.file_types@[k]@ == wanted);
    }
}

/// The file types in normal form are those that were given, in order, without those of which
/// nothing is left; the same holds of texts that are only trimmed.
pub proof fn law_normal_lists_keep_what_was_given(values: Seq<Seq<char>>)
    ensures
        normal_file_types(values) == values.map_values(
            |value: Seq<char>| normal_file_type(value),
        ).filter(|value: Seq<char>| value.len() > 0),
        trimmed_texts(values) == values.map_values(|value: Seq<char>| trimmed(value)).filter(
            |value: Seq<char>| value.len() > 0,
        ),
    decreases values.len(),
{
    reveal(Seq::filter);
    if values.len() > 0 {
        let before = values.drop_last();
        law_normal_lists_keep_what_was_given(before);
        assert(values.map_values(|value: Seq<char>| normal_file_type(value)).drop_last()
            =~= before.map_values(|value: Seq<char>| normal_file_type(value)));
        assert(values.map_values(|value: Seq<char>| trimmed(value)).drop_last()
            =~= before.map_values(|value: Seq<char>| trimmed(value)));
    }
}

/// A provider may be named in any case and with space around its name.
pub proof fn law_provider_may_be_named_in_any_case(
    from: AppConfig,
    config: AppConfig,
    lead: Seq<char>,
    name: Seq<char>,
    trail: Seq<char>,
)
    requires
        config.normal_form_of(&from),
        all_white(lead),
        bare(name),
        all_white(trail),
    ensures
        from.embedding.preferred_provider@ == lead + name + trail
            ==> config.embedding.preferred_provider@ == lowered(name),
        from.embedding.fallback_provider@ == lead + name + trail
            ==> config.embedding.fallback_provider@ == lowered(name),
        from.telegram.bot_token@ == lead + name + trail ==> config.telegram.bot_token@ == name,
        from.telegram.webhook_url@ == lead + name + trail ==> config.telegram.webhook_url@ == name,
        from.telegram.webhook_secret_token@ == lead + name + trail
            ==> config.telegram.webhook_secret_token@ == name,
        from.telegram.webhook_bind_addr@ == lead + name + trail
            ==> config.telegram.webhook_bind_addr@ == name,
{
    law_trimming_takes_the_space_off_the_ends(lead, name, trail);
}

/// A provider is on exactly if its own switch says so; what is no provider never is.
pub proof fn law_provider_is_enabled_by_its_own_switch(config: AppConfig, provider: Seq<char>)
    ensures
        config.provider_enabled("ollama"@) == config.embedding.ollama.enabled,
        config.provider_enabled("gemini"@) == config.embedding.gemini.enabled,
        provider != "ollama"@ && provider != "gemini"@ ==> !config.provider_enabled(provider),
{
    lemma_providers_differ();
}

/// The configuration that a first start creates can be used as soon as the directory that it
/// watches is there.
pub proof fn law_fresh_configuration_is_valid(
    config: AppConfig,
    home: Option<Seq<char>>,
    data_dir: Option<Seq<char>>,
    facts: ConfigFacts,
)
    requires
        config.is_default(home, data_dir),
        facts.watch_dir_exists,
        facts.watch_dir_is_dir,
        facts.processed_dir_exists ==> facts.processed_dir_is_dir,
    ensures
        config.errors(facts).len() == 0,
{
    lemma_providers_differ();
    reveal_strlit("processed");
    assert(is_file_name("processed"@)) by {
        assert("processed"@.len() == 9);
    }
    law_joining_adds_the_name(config.watch_dir@, "processed"@);
    assert(config.file_types@.len() > 0) by {
        assert(views(config.file_types@).len() == 2);
    }
    law_places_are_valid_exactly_when_usable(config, facts);
    assert(can_embed_with(config, "ollama"@)) by {
        reveal_strlit("http://127.0.0.1:11434");
        reveal_strlit("nomic-embed-text");
        lemma_given("http://127.0.0.1:11434"@, 'h');
        lemma_given("nomic-embed-text"@, 'n');
    }
    law_embedding_settings_are_valid_exactly_when_usable(config);
    assert(!config.telegram.admin_user_ids@.contains(0));
    assert(!config.telegram.allowed_user_ids@.contains(0));
    law_telegram_settings_are_valid_exactly_when_usable(config, facts);
}

proof fn lemma_given(value: Seq<char>, first: char)
    requires
        !is_white(first),
        first != 'P',
    ensures
        value.len() > 0 && value[0] == first ==> !blank_or_placeholder(value),
{
    if value.len() > 0 && value[0] == first {
        assert(trimmed_start(value) == value);
        lemma_trimmed_end(value);
        let whole = trimmed(value);
        if whole.len() == 0 {
            lemma_all_trimmed(value, 0);
        }
        assert(whole[0] == first);
        reveal_strlit("PASTE_");
        if has_prefix(whole, "PASTE_"@) {
            assert(whole.take(6)[0] == whole[0]);
        }
    }
}

/// Every path of the file is seen from the directory of the file: absolute paths stay, and plain
/// names lie there. The directory for processed files lies under the watched one by default.
pub proof fn law_every_path_is_resolved(
    config: AppConfig,
    from: AppConfig,
    config_path: Seq<char>,
    home: Seq<char>,
)
    requires
        config.paths_resolved_from(&from, config_path, Some(home)),
    ensures
        ({
            let dir = config_directory(config_path);
            &&& config.watch_dir@ == resolved(dir, from.watch_dir@, Some(home))
            &&& config.database_path@ == resolved(dir, from.database_path@, Some(home))
            &&& config.telegram.audit_log_path@ == resolved(
                dir,
                from.telegram.audit_log_path@,
                Some(home),
            )
            &&& from.processed_dir@ == "processed"@ ==> config.processed_dir@ == path_join(
                config.watch_dir@,
                "processed"@,
            )
            &&& is_absolute_path(from.processed_dir@) ==> config.processed_dir@
                == from.processed_dir@
        }),
{
    let plain = seq!['a'];
    assert(is_file_name(plain)) by {
        assert(plain[0] == 'a');
    }
    law_processed_files_go_under_the_watched_directory(
        config.watch_dir@,
        config_directory(config_path),
        if is_absolute_path(from.processed_dir@) {
            from.processed_dir@
        } else {
            seq!['/']
        },
        plain,
        plain,
        Some(home),
    );
}

/// Loading a configuration keeps every choice that was made in it.
pub proof fn law_loading_keeps_the_choices(
    config: AppConfig,
    resolved_config: AppConfig,
    from: AppConfig,
    config_path: Seq<char>,
    home: Option<Seq<char>>,
    user_id: u64,
)
    requires
        resolved_config.paths_resolved_from(&from, config_path, home),
        config.normal_form_of(&resolved_config),
    ensures
        config.telegram.enabled == from.telegram.enabled,
        config.telegram.chat_id == from.telegram.chat_id,
        config.telegram.mode == from.telegram.mode,
        config.telegram.poll_interval_secs == from.telegram.poll_interval_secs,
        config.telegram.match_accuracy == from.telegram.match_accuracy,
        config.embedding.ollama == from.embedding.ollama,
        config.embedding.gemini == from.embedding.gemini,
        config.telegram.bot_token@ == trimmed(from.telegram.bot_token@),
        config.telegram.admin_user_ids@.contains(user_id)
            <==> from.telegram.admin_user_ids@.contains(user_id),
        config.telegram.allowed_user_ids@.contains(user_id)
            <==> from.telegram.allowed_user_ids@.contains(user_id),
{
}

/// A fresh configuration leaves the bot and Gemini off, asks Ollama first, polls every five
/// seconds, takes in text and Markdown files and lets nobody in.
pub proof fn law_fresh_configuration_is_modest(
    config: AppConfig,
    home: Option<Seq<char>>,
    data_dir: Option<Seq<char>>,
    user_id: u64,
)
    requires
        config.is_default(home, data_dir),
    ensures
        !config.telegram.enabled,
        config.telegram.mode is Polling,
        config.telegram.poll_interval_secs == 5,
        config.telegram.chat_id == 0,
        config.telegram.match_accuracy == 0x3eb3_3333,
        !config.telegram.admin_user_ids@.contains(user_id),
        !config.telegram.allowed_user_ids@.contains(user_id),
        config.telegram.webhook_bind_addr@ == "127.0.0.1:8080"@,
        views(config.telegram.webhook_trusted_proxy_cidrs@) == seq!["127.0.0.1/32"@, "::1/128"@],
        views(config.file_types@) == seq!["txt"@, "md"@],
        config.embedding.preferred_provider@ == "ollama"@,
        config.embedding.fallback_provider@ == "gemini"@,
        config.embedding.ollama.enabled,
        config.embedding.ollama.base_url@ == "http://127.0.0.1:11434"@,
        config.embedding.ollama.model@ == "nomic-embed-text"@,
        !config.embedding.gemini.enabled,
        config.embedding.gemini.model@ == "text-embedding-004"@,
{
}

} // verus!
