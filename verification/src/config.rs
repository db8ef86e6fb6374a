//! The settings of the service: their defaults, normal form and validity.

use vstd::prelude::*;

verus! {

use crate::paths::{
    components, has_parent, is_absolute, is_absolute_path, is_file_name, join_path,
    law_joining_adds_the_name, parent, path_file_name, path_join, path_parent, path_under,
    paths_equal, same_path,
};
use crate::text::{has_prefix, is_digit, same, stands_at, starts_with, views};

pub const APP_DIR_NAME: &'static str = "note-embedding";

pub const DEFAULT_CONFIG_NAME: &'static str = "config";

pub const PROCESSED_DIR_NAME: &'static str = "processed";

/// How Telegram updates reach the service.
#[derive(Debug, Clone, Copy, PartialEq, Eq, Structural)]
pub enum TelegramMode {
    Polling,
    Webhook,
}

#[derive(Debug)]
pub struct OllamaConfig {
    pub enabled: bool,
    pub base_url: String,
    pub model: String,
}

#[derive(Debug)]
pub struct GeminiConfig {
    pub enabled: bool,
    pub api_key: String,
    pub model: String,
}

#[derive(Debug)]
pub struct EmbeddingConfig {
    pub preferred_provider: String,
    pub fallback_provider: String,
    pub ollama: OllamaConfig,
    pub gemini: GeminiConfig,
}

#[derive(Debug)]
pub struct TelegramConfig {
    pub enabled: bool,
    pub bot_token: String,
    pub admin_user_ids: Vec<u64>,
    pub allowed_user_ids: Vec<u64>,
    pub audit_log_path: String,
    pub chat_id: i64,
    pub mode: TelegramMode,
    pub poll_interval_secs: u64,
    pub webhook_url: String,
    pub webhook_bind_addr: String,
    pub webhook_secret_token: String,
    pub webhook_trusted_proxy_cidrs: Vec<String>,
    /// The least score of a search hit, as the bits of a single precision number.
    pub match_accuracy: u32,
}

#[derive(Debug)]
pub struct AppConfig {
    pub watch_dir: String,
    pub database_path: String,
    pub processed_dir: String,
    pub file_types: Vec<String>,
    pub telegram: TelegramConfig,
    pub embedding: EmbeddingConfig,
}

/// A configuration together with the place it came from.
#[derive(Debug)]
pub struct LoadedConfig {
    pub path: String,
    pub data: AppConfig,
    pub created: bool,
}

/// What the machine says about the places and addresses that a configuration names.
#[derive(Debug, Clone, Copy, PartialEq, Eq, Structural)]
pub struct ConfigFacts {
    pub watch_dir_exists: bool,
    pub watch_dir_is_dir: bool,
    pub processed_dir_exists: bool,
    pub processed_dir_is_dir: bool,
    pub webhook_bind_addr_parses: bool,
}

/// `directories::BaseDirs::new` and its `home_dir`: the home directory of the user, where one is
/// known. Nothing is claimed of the result, which comes from the environment. Bytes of the path that
/// are no Unicode are replaced.
#[verifier::external_body]
pub(crate) fn home_directory() -> (r: Option<String>) {
    directories::BaseDirs::new().map(|dirs| dirs.home_dir().to_string_lossy().into_owned())
}

/// A name of small ASCII letters, digits and hyphens.
pub open spec fn is_plain_name(name: Seq<char>) -> bool {
    &&& name.len() > 0
    &&& forall|i: int|
        0 <= i < name.len() ==> 'a' <= #[trigger] name[i] <= 'z' || is_digit(name[i]) || name[i]
            == '-'
}

/// Whether a character stands between the components of a path.
pub open spec fn parts_path(c: char) -> bool {
    c == '/' || c == '\\'
}

/// The name stands in the path at the given position as a component of its own.
pub open spec fn is_component_at(path: Seq<char>, name: Seq<char>, at: int) -> bool {
    &&& stands_at(path, name, at)
    &&& at > 0 && parts_path(path[at - 1])
    &&& at + name.len() == path.len() || parts_path(path[at + name.len()])
}

/// The name is one of the components of the path.
pub open spec fn has_component(path: Seq<char>, name: Seq<char>) -> bool {
    exists|at: int| is_component_at(path, name, at)
}

/// `directories::ProjectDirs::from` and its `config_dir`: where the settings of an application of
/// that name live. The name of the application, where it is a plain one, is a component of the
/// path. Whether there is such a directory, and where, comes from the environment, and is not
/// stated. Bytes of the path that are no Unicode are replaced.
#[verifier::external_body]
pub(crate) fn project_config_directory(name: &str) -> (r: Option<String>)
    ensures
        r matches Some(dir) ==> is_plain_name(name@) ==> has_component(dir@, name@),
{
    directories::ProjectDirs::from("", "", name).map(
        |dirs| dirs.config_dir().to_string_lossy().into_owned(),
    )
}

/// `directories::ProjectDirs::from` and its `data_local_dir`: where the local data of an
/// application of that name lives. The name of the application, where it is a plain one, is a
/// component of the path. Whether there is such a directory, and where, comes from the environment,
/// and is not stated. Bytes of the path that are no Unicode are replaced.
#[verifier::external_body]
pub(crate) fn project_data_directory(name: &str) -> (r: Option<String>)
    ensures
        r matches Some(dir) ==> is_plain_name(name@) ==> has_component(dir@, name@),
{
    directories::ProjectDirs::from("", "", name).map(
        |dirs| dirs.data_local_dir().to_string_lossy().into_owned(),
    )
}

pub open spec fn optional(text: Option<String>) -> Option<Seq<char>> {
    match text {
        Some(t) => Some(t@),
        None => None,
    }
}

pub open spec fn optional_str(text: Option<&str>) -> Option<Seq<char>> {
    match text {
        Some(t) => Some(t@),
        None => None,
    }
}

/// Borrows an optional string.
pub fn borrowed(text: &Option<String>) -> (r: Option<&str>)
    ensures
        optional_str(r) == optional(*text),
{
    match text {
        Some(t) => Some(t.as_str()),
        None => None,
    }
}

// ---------------------------------------------------------------------------------------------
// Paths

/// A leading `~` stands for the home directory, where one is known.
pub open spec fn tilde_expanded(path: Seq<char>, home: Option<Seq<char>>) -> Seq<char> {
    match home {
        None => path,
        Some(dir) => if path == "~"@ {
            dir
        } else if has_prefix(path, "~/"@) {
            path_join(dir, path.skip(2))
        } else {
            path
        },
    }
}

pub open spec fn resolved(base: Seq<char>, path: Seq<char>, home: Option<Seq<char>>) -> Seq<char> {
    let expanded = tilde_expanded(path, home);
    if is_absolute_path(expanded) {
        expanded
    } else {
        path_join(base, expanded)
    }
}

/// A plain default name, or no name at all, lies under the watched directory; any other relative
/// path lies under the directory of the configuration.
pub open spec fn resolved_processed(
    watch_dir: Seq<char>,
    config_dir: Seq<char>,
    path: Seq<char>,
    home: Option<Seq<char>>,
) -> Seq<char> {
    let expanded = tilde_expanded(path, home);
    if is_absolute_path(expanded) {
        expanded
    } else if same_path(expanded, PROCESSED_DIR_NAME@) || !has_parent(expanded) {
        path_join(watch_dir, expanded)
    } else {
        path_join(config_dir, expanded)
    }
}

/// The directory that relative paths of a configuration file start from.
pub open spec fn config_directory(config_path: Seq<char>) -> Seq<char> {
    match path_parent(config_path) {
        Some(dir) => dir,
        None => "."@,
    }
}

pub fn expand_tilde(path: &str, home: Option<&str>) -> (r: String)
    ensures
        r@ == tilde_expanded(path@, optional_str(home)),
{
    match home {
        None => path.to_owned(),
        Some(dir) => {
            if same(path, "~") {
                return dir.to_owned();
            }
            if starts_with(path, "~/") {
                proof {
                    reveal_strlit("~/");
                }
                let rest = path.substring_char(2, path.unicode_len());
                assert(rest@ == path@.skip(2));
                return join_path(dir, rest);
            }
            path.to_owned()
        },
    }
}

pub fn resolve_path(base_dir: &str, path: &str, home: Option<&str>) -> (r: String)
    ensures
        r@ == resolved(base_dir@, path@, optional_str(home)),
{
    let expanded = expand_tilde(path, home);
    if is_absolute(expanded.as_str()) {
        expanded
    } else {
        join_path(base_dir, expanded.as_str())
    }
}

pub fn resolve_processed_dir(
    watch_dir: &str,
    config_dir: &str,
    path: &str,
    home: Option<&str>,
) -> (r: String)
    ensures
        r@ == resolved_processed(watch_dir@, config_dir@, path@, optional_str(home)),
{
    let expanded = expand_tilde(path, home);
    if is_absolute(expanded.as_str()) {
        expanded
    } else if paths_equal(expanded.as_str(), PROCESSED_DIR_NAME) || parent(
        expanded.as_str(),
    ).is_none() {
        join_path(watch_dir, expanded.as_str())
    } else {
        join_path(config_dir, expanded.as_str())
    }
}

/// Why no path of a configuration file could be found.
#[derive(Debug, Clone, Copy, PartialEq, Eq, Structural)]
pub enum ConfigPathError {
    NoProjectDirectories,
}

/// The configuration file inside the settings directory of the application.
pub fn default_config_path_in(config_dir: Option<&str>) -> (r: Result<String, ConfigPathError>)
    ensures
        match r {
            Ok(path) => config_dir is Some && path@ == path_join(
                config_dir->0@,
                DEFAULT_CONFIG_NAME@,
            ),
            Err(e) => config_dir is None && e == ConfigPathError::NoProjectDirectories,
        },
{
    match config_dir {
        Some(dir) => Ok(join_path(dir, DEFAULT_CONFIG_NAME)),
        None => Err(ConfigPathError::NoProjectDirectories),
    }
}

/// The path is that of the configuration file in a settings directory of the application.
pub open spec fn is_default_config_path(found: Seq<char>) -> bool {
    exists|dir: Seq<char>|
        found == #[trigger] path_join(dir, DEFAULT_CONFIG_NAME@) && has_component(
            dir,
            APP_DIR_NAME@,
        )
}

proof fn lemma_application_name()
    ensures
        is_plain_name(APP_DIR_NAME@),
{
    reveal_strlit("note-embedding");
}

/// The configuration file in the settings directory that the machine has for the application.
/// Whether it has one is up to the environment; `default_config_path_in` says what follows.
pub fn default_config_path() -> (r: Result<String, ConfigPathError>)
    ensures
        r matches Ok(path) ==> is_default_config_path(path@),
{
    let dir = project_config_directory(APP_DIR_NAME);
    proof {
        lemma_application_name();
    }
    default_config_path_in(borrowed(&dir))
}

/// The given path with its `~` expanded, or the default one where none is given.
pub fn resolve_config_path_in(
    config_override: Option<&str>,
    home: Option<&str>,
    config_dir: Option<&str>,
) -> (r: Result<String, ConfigPathError>)
    ensures
        match config_override {
            Some(path) => r is Ok && r->Ok_0@ == tilde_expanded(path@, optional_str(home)),
            None => match r {
                Ok(path) => config_dir is Some && path@ == path_join(
                    config_dir->0@,
                    DEFAULT_CONFIG_NAME@,
                ),
                Err(e) => config_dir is None && e == ConfigPathError::NoProjectDirectories,
            },
        },
{
    match config_override {
        Some(path) => Ok(expand_tilde(path, home)),
        None => default_config_path_in(config_dir),
    }
}

/// The path is the given one with its `~` expanded for some user, or, where none is given, that
/// of the configuration file in a settings directory of the application.
pub open spec fn is_config_path(config_override: Option<Seq<char>>, found: Seq<char>) -> bool {
    if config_override is Some {
        exists|home: Option<Seq<char>>| found == #[trigger] tilde_expanded(config_override->0, home)
    } else {
        is_default_config_path(found)
    }
}

pub fn resolve_config_path(config_override: Option<&str>) -> (r: Result<String, ConfigPathError>)
    ensures
        r matches Ok(path) ==> is_config_path(optional_str(config_override), path@),
        r is Err ==> config_override is None,
{
    let home = home_directory();
    let dir = project_config_directory(APP_DIR_NAME);
    let r = resolve_config_path_in(config_override, borrowed(&home), borrowed(&dir));
    proof {
        lemma_application_name();
        if config_override is Some {
            let given = optional_str(config_override)->0;
            let known = optional(home);
            assert(r->Ok_0@ == tilde_expanded(given, known));
            assert(exists|home: Option<Seq<char>>| r->Ok_0@ == #[trigger] tilde_expanded(given, home));
        }
    }
    r
}

// ---------------------------------------------------------------------------------------------
// Defaults

impl TelegramMode {
    pub open spec fn text(self) -> Seq<char> {
        match self {
            TelegramMode::Polling => "polling"@,
            TelegramMode::Webhook => "webhook"@,
        }
    }

    pub fn as_str(self) -> (r: &'static str)
        ensures
            r@ == self.text(),
    {
        match self {
            TelegramMode::Polling => "polling",
            TelegramMode::Webhook => "webhook",
        }
    }
}

impl Default for TelegramMode {
    fn default() -> (r: Self)
        ensures
            r == TelegramMode::Polling,
    {
        TelegramMode::Polling
    }
}

impl Default for OllamaConfig {
    fn default() -> (r: Self)
        ensures
            r.enabled,
            r.base_url@ == "http://127.0.0.1:11434"@,
            r.model@ == "nomic-embed-text"@,
    {
        OllamaConfig {
            enabled: true,
            base_url: "http://127.0.0.1:11434".to_owned(),
            model: "nomic-embed-text".to_owned(),
        }
    }
}

impl Default for GeminiConfig {
    fn default() -> (r: Self)
        ensures
            !r.enabled,
            r.api_key@ == Seq::<char>::empty(),
            r.model@ == "text-embedding-004"@,
    {
        GeminiConfig {
            enabled: false,
            api_key: String::new(),
            model: "text-embedding-004".to_owned(),
        }
    }
}

impl OllamaConfig {
    pub open spec fn is_default(&self) -> bool {
        &&& self.enabled
        &&& self.base_url@ == "http://127.0.0.1:11434"@
        &&& self.model@ == "nomic-embed-text"@
    }
}

impl GeminiConfig {
    pub open spec fn is_default(&self) -> bool {
        &&& !self.enabled
        &&& self.api_key@ == Seq::<char>::empty()
        &&& self.model@ == "text-embedding-004"@
    }
}

impl EmbeddingConfig {
    pub open spec fn is_default(&self) -> bool {
        &&& self.preferred_provider@ == "ollama"@
        &&& self.fallback_provider@ == "gemini"@
        &&& self.ollama.is_default()
        &&& self.gemini.is_default()
    }
}

impl Default for EmbeddingConfig {
    fn default() -> (r: Self)
        ensures
            r.is_default(),
    {
        EmbeddingConfig {
            preferred_provider: "ollama".to_owned(),
            fallback_provider: "gemini".to_owned(),
            ollama: OllamaConfig::default(),
            gemini: GeminiConfig::default(),
        }
    }
}

pub open spec fn default_file_type_texts() -> Seq<Seq<char>> {
    seq!["txt"@, "md"@]
}

pub fn default_file_types() -> (r: Vec<String>)
    ensures
        views(r@) == default_file_type_texts(),
{
    let r = vec!["txt".to_owned(), "md".to_owned()];
    assert(views(r@) =~= default_file_type_texts());
    r
}

pub open spec fn default_cidr_texts() -> Seq<Seq<char>> {
    seq!["127.0.0.1/32"@, "::1/128"@]
}

pub fn default_telegram_webhook_trusted_proxy_cidrs() -> (r: Vec<String>)
    ensures
        views(r@) == default_cidr_texts(),
{
    let r = vec!["127.0.0.1/32".to_owned(), "::1/128".to_owned()];
    assert(views(r@) =~= default_cidr_texts());
    r
}

/// A file of the local data directory, or of the current one where there is none.
pub open spec fn data_file(data_dir: Option<Seq<char>>, name: Seq<char>) -> Seq<char> {
    match data_dir {
        Some(dir) => path_join(dir, name),
        None => name,
    }
}

pub open spec fn watch_directory(home: Option<Seq<char>>) -> Seq<char> {
    match home {
        Some(dir) => path_join(dir, "Documents"@),
        None => "./Documents"@,
    }
}

fn data_file_in(data_dir: Option<&str>, name: &str) -> (r: String)
    ensures
        r@ == data_file(optional_str(data_dir), name@),
{
    match data_dir {
        Some(dir) => join_path(dir, name),
        None => name.to_owned(),
    }
}

/// The watched directory of a fresh configuration.
pub fn default_watch_dir_in(home: Option<&str>) -> (r: String)
    ensures
        r@ == watch_directory(optional_str(home)),
{
    match home {
        Some(dir) => join_path(dir, "Documents"),
        None => "./Documents".to_owned(),
    }
}

pub fn default_database_path_in(data_dir: Option<&str>) -> (r: String)
    ensures
        r@ == data_file(optional_str(data_dir), "embeddings.db"@),
{
    data_file_in(data_dir, "embeddings.db")
}

pub fn default_telegram_audit_log_path_in(data_dir: Option<&str>) -> (r: String)
    ensures
        r@ == data_file(optional_str(data_dir), "telegram-activity.log"@),
{
    data_file_in(data_dir, "telegram-activity.log")
}

/// The bits of the single precision number 0.35.
pub const DEFAULT_MATCH_ACCURACY: u32 = 0x3eb3_3333;

impl TelegramConfig {
    pub open spec fn is_default(&self, data_dir: Option<Seq<char>>) -> bool {
        &&& !self.enabled
        &&& self.bot_token@ == Seq::<char>::empty()
        &&& self.admin_user_ids@ == Seq::<u64>::empty()
        &&& self.allowed_user_ids@ == Seq::<u64>::empty()
        &&& self.audit_log_path@ == data_file(data_dir, "telegram-activity.log"@)
        &&& self.chat_id == 0
        &&& self.mode == TelegramMode::Polling
        &&& self.poll_interval_secs == 5
        &&& self.webhook_url@ == Seq::<char>::empty()
        &&& self.webhook_bind_addr@ == "127.0.0.1:8080"@
        &&& self.webhook_secret_token@ == Seq::<char>::empty()
        &&& views(self.webhook_trusted_proxy_cidrs@) == default_cidr_texts()
        &&& self.match_accuracy == DEFAULT_MATCH_ACCURACY
    }

    pub fn default_in(data_dir: Option<&str>) -> (r: Self)
        ensures
            r.is_default(optional_str(data_dir)),
    {
        TelegramConfig {
            enabled: false,
            bot_token: String::new(),
            admin_user_ids: Vec::new(),
            allowed_user_ids: Vec::new(),
            audit_log_path: default_telegram_audit_log_path_in(data_dir),
            chat_id: 0,
            mode: TelegramMode::default(),
            poll_interval_secs: 5,
            webhook_url: String::new(),
            webhook_bind_addr: "127.0.0.1:8080".to_owned(),
            webhook_secret_token: String::new(),
            webhook_trusted_proxy_cidrs: default_telegram_webhook_trusted_proxy_cidrs(),
            match_accuracy: DEFAULT_MATCH_ACCURACY,
        }
    }
}

/// The directory is one for the data of the application, or there is none.
pub open spec fn is_data_directory(data_dir: Option<Seq<char>>) -> bool {
    data_dir matches Some(dir) ==> has_component(dir, APP_DIR_NAME@)
}

impl Default for TelegramConfig {
    fn default() -> (r: Self)
        ensures
            exists|data_dir: Option<Seq<char>>| #[trigger]
                r.is_default(data_dir) && is_data_directory(data_dir),
    {
        let data_dir = project_data_directory(APP_DIR_NAME);
        proof {
            lemma_application_name();
        }
        let r = TelegramConfig::default_in(borrowed(&data_dir));
        assert(r.is_default(optional(data_dir)));
        r
    }
}

impl AppConfig {
    pub open spec fn is_default(
        &self,
        home: Option<Seq<char>>,
        data_dir: Option<Seq<char>>,
    ) -> bool {
        &&& self.watch_dir@ == watch_directory(home)
        &&& self.database_path@ == data_file(data_dir, "embeddings.db"@)
        &&& self.processed_dir@ == path_join(watch_directory(home), PROCESSED_DIR_NAME@)
        &&& views(self.file_types@) == default_file_type_texts()
        &&& self.telegram.is_default(data_dir)
        &&& self.embedding.is_default()
    }

    pub fn default_in(home: Option<&str>, data_dir: Option<&str>) -> (r: Self)
        ensures
            r.is_default(optional_str(home), optional_str(data_dir)),
    {
        let watch_dir = default_watch_dir_in(home);
        let processed_dir = join_path(watch_dir.as_str(), PROCESSED_DIR_NAME);
        AppConfig {
            watch_dir,
            database_path: default_database_path_in(data_dir),
            processed_dir,
            file_types: default_file_types(),
            telegram: TelegramConfig::default_in(data_dir),
            embedding: EmbeddingConfig::default(),
        }
    }
}

impl Default for AppConfig {
    fn default() -> (r: Self)
        ensures
            exists|home: Option<Seq<char>>, data_dir: Option<Seq<char>>| #[trigger]
                r.is_default(home, data_dir) && is_data_directory(data_dir),
    {
        let home = home_directory();
        let data_dir = project_data_directory(APP_DIR_NAME);
        proof {
            lemma_application_name();
        }
        let r = AppConfig::default_in(borrowed(&home), borrowed(&data_dir));
        assert(r.is_default(optional(home), optional(data_dir)));
        r
    }
}

// ---------------------------------------------------------------------------------------------
// Laws

/// A path from a configuration file is taken as it is where it is absolute, from the home directory
/// where it begins with a tilde, and otherwise from the directory of the file.
pub proof fn law_paths_are_resolved_from_the_file(
    base: Seq<char>,
    home: Seq<char>,
    path: Seq<char>,
    name: Seq<char>,
)
    requires
        is_file_name(name),
        name[0] != '~',
        is_absolute_path(path),
        is_absolute_path(home),
    ensures
        resolved(base, path, Some(home)) == path,
        resolved(base, path, None) == path,
        resolved(base, seq!['~'], Some(home)) == home,
        resolved(base, seq!['~', '/'] + name, Some(home)) == path_join(home, name),
        resolved(base, name, Some(home)) == path_join(base, name),
        resolved(base, name, None) == path_join(base, name),
{
    reveal_strlit("~");
    reveal_strlit("~/");
    assert("~"@ =~= seq!['~']);
    assert("~/"@ =~= seq!['~', '/']);
    assert(path != "~"@) by {
        assert(path[0] == '/');
    }
    assert(!has_prefix(path, "~/"@)) by {
        if has_prefix(path, "~/"@) {
            assert(path.take(2)[0] == path[0]);
        }
    }
    let short = seq!['~', '/'] + name;
    assert(short != "~"@) by {
        assert(short.len() > 1);
    }
    assert(short.take(2) =~= "~/"@);
    assert(short.skip(2) =~= name);
    assert(!is_absolute_path(name)) by {
        if is_absolute_path(name) {
            assert(name.contains(name[0]));
        }
    }
    assert(is_absolute_path(path_join(home, name)));
    assert(!has_prefix(name, "~/"@)) by {
        if has_prefix(name, "~/"@) {
            assert(name.take(2)[0] == name[0]);
        }
    }
    assert(name != "~"@);
}

/// Processed files go under the watched directory by default, and wherever an absolute path says;
/// only a longer relative path starts from the directory of the configuration file.
pub proof fn law_processed_files_go_under_the_watched_directory(
    watch_dir: Seq<char>,
    config_dir: Seq<char>,
    path: Seq<char>,
    outer: Seq<char>,
    name: Seq<char>,
    home: Option<Seq<char>>,
)
    requires
        is_absolute_path(path),
        is_file_name(outer),
        is_file_name(name),
        outer[0] != '~',
    ensures
        resolved_processed(watch_dir, config_dir, "processed"@, home) == path_join(
            watch_dir,
            "processed"@,
        ),
        resolved_processed(watch_dir, config_dir, path, home) == path,
        resolved_processed(watch_dir, config_dir, outer.push('/') + name, home) == path_join(
            config_dir,
            outer.push('/') + name,
        ),
{
    reveal_strlit("~");
    reveal_strlit("~/");
    reveal_strlit("processed");
    let plain = "processed"@;
    assert(plain[0] == 'p');
    if has_prefix(plain, "~/"@) {
        assert(plain.take(2)[0] == plain[0]);
    }
    if has_prefix(path, "~/"@) {
        assert(path.take(2)[0] == path[0]);
    }
    let longer = outer.push('/') + name;
    assert(longer[0] == outer[0]);
    if has_prefix(longer, "~/"@) {
        assert(longer.take(2)[0] == longer[0]);
    }
    assert(longer != "~"@) by {
        assert(longer.len() > 1);
    }
    assert(!is_absolute_path(longer)) by {
        if outer[0] == '/' {
            assert(outer.contains(outer[0]));
        }
    }
    assert(outer.last() != '/') by {
        assert(outer.contains(outer.last()));
    }
    assert(longer == path_join(outer, name)) by {
        if is_absolute_path(name) {
            assert(name.contains(name[0]));
        }
    }
    law_joining_adds_the_name(outer, name);
    law_joining_adds_the_name(Seq::empty(), outer);
    assert(path_join(Seq::empty(), outer) =~= outer) by {
        assert(Seq::<char>::empty() + outer =~= outer);
    }
    assert(is_file_name(plain)) by {
        assert(plain.len() == 9);
    }
    law_joining_adds_the_name(Seq::empty(), plain);
    assert(path_join(Seq::empty(), plain) =~= plain) by {
        assert(Seq::<char>::empty() + plain =~= plain);
    }
    assert(components(longer).len() == components(outer).len() + 1);
    assert(components(outer).len() == components(Seq::<char>::empty()).len() + 1);
    assert(components(plain).len() == components(Seq::<char>::empty()).len() + 1);
    assert(name != seq!['/']) by {
        if name == seq!['/'] {
            assert(name.contains(name[0]));
        }
    }
    assert(components(longer).last() == name);
}

/// The files of a fresh configuration lie in the data directory, and the directory that it watches
/// in the home directory, each under its own name.
pub proof fn law_default_files_lie_in_their_directories(dir: Seq<char>, name: Seq<char>)
    requires
        is_file_name(name),
    ensures
        path_under(data_file(Some(dir), name), dir),
        path_file_name(data_file(Some(dir), name)) == Some(name),
        data_file(None, name) == name,
        path_under(watch_directory(Some(dir)), dir),
        path_file_name(watch_directory(Some(dir))) == Some("Documents"@),
{
    law_joining_adds_the_name(dir, name);
    reveal_strlit("Documents");
    assert(is_file_name("Documents"@)) by {
        assert("Documents"@.len() == 9);
    }
    law_joining_adds_the_name(dir, "Documents"@);
}

} // verus!
