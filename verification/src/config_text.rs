//! The configuration file: the first one, and changes to an existing one that keep the rest.

use vstd::prelude::*;

verus! {

use crate::config::{is_data_directory, AppConfig, DEFAULT_MATCH_ACCURACY};
use crate::listing::concat;
use crate::numbers::{decimal, decimal_int, lemma_decimal, render_i64, render_u64};
use crate::paths::{parent, path_parent};
use crate::text::{
    all_white, bare, ends_with_char, has_prefix, is_white, join, joined,
    law_trimming_takes_the_space_off_the_ends, lemma_occurs_at_the_end, lemma_occurs_behind,
    lemma_occurs_inside, lemma_run_without, lemma_still_occurs, lemma_trimmed_end, lines, occurs_in,
    run_without, same, split_lines, stands_at, starts_with, starts_with_char, trim, trimmed,
    trimmed_end, trimmed_start, views, without_final_return,
};
use crate::toml_tree::{
    NodeView, TomlNode, added, covers, entry_views, find_entry, found, item_views,
    law_merge_of_complete_adds_nothing, law_set_entry_reads_back, lemma_entry_views, lemma_position,
    lookup, merge_missing_toml, merged, parse_toml, parsed_toml, put_entry, with_entry, write_toml,
    written_toml,
};

// ---------------------------------------------------------------------------------------------
// The first configuration

pub const TEMPLATE_COMMENTS: &'static str = "# note-embedding configuration\n# First run created this file.\n# Edit this file before starting the service again.\n#\n# Required setup:\n# - set watch_dir to the folder you want to monitor\n# - choose file_types you want to index\n# - processed_dir should normally be a folder under watch_dir\n# - configure [embedding.ollama] for your primary provider\n# - if fallback_provider is \"gemini\", enable [embedding.gemini] and set api_key\n# - if telegram.enabled = true, set bot_token\n# - set telegram.admin_user_ids for users who can approve access requests\n# - set telegram.allowed_user_ids to restrict who can use the bot\n# - telegram.audit_log_path stores Telegram usage logs\n# - telegram.mode defaults to polling; set it to webhook to receive Telegram webhooks\n# - when using webhook mode, set webhook_url, webhook_bind_addr, and webhook_secret_token\n# - webhook mode only accepts requests from Cloudflare IP ranges and logs every sender to telegram.audit_log_path\n# - if you run cloudflared or another local reverse proxy, set webhook_trusted_proxy_cidrs to only that proxy\n# - tip: run `note-embedding --doctor` after enabling webhook mode; doctor can generate webhook_secret_token\n#   and prompt for webhook_url when those values are missing or invalid\n# - tip: to generate webhook_secret_token yourself, you can run: openssl rand -hex 24\n# - optionally set chat_id for proactive notifications or use --telegram-discover-chat\n\n";

/// The first configuration file, with comments for whoever edits it.
pub open spec fn template(config: AppConfig) -> Seq<char> {
    TEMPLATE_COMMENTS@
        + "watch_dir = \""@
        + config.watch_dir@
        + "\"\ndatabase_path = \""@
        + config.database_path@
        + "\"\nprocessed_dir = \""@
        + config.processed_dir@
        + "\"\nfile_types = [\"txt\", \"md\"]\n\n[telegram]\nenabled = false\nbot_token = \"PASTE_TELEGRAM_BOT_TOKEN_HERE\"\nadmin_user_ids = [123456789]\nallowed_user_ids = [123456789]\naudit_log_path = \""@
        + config.telegram.audit_log_path@
        + "\"\nchat_id = 0\nmode = \""@
        + config.telegram.mode.text()
        + "\"\npoll_interval_secs = "@
        + decimal(config.telegram.poll_interval_secs as nat)
        + "\nwebhook_url = \"\"\nwebhook_bind_addr = \""@
        + config.telegram.webhook_bind_addr@
        + "\"\nwebhook_secret_token = \"\"\nwebhook_trusted_proxy_cidrs = [\"127.0.0.1/32\", \"::1/128\"]\nmatch_accuracy = 0.35\n\n[embedding]\npreferred_provider = \"ollama\"\nfallback_provider = \"gemini\"\n\n[embedding.ollama]\nenabled = true\nbase_url = \""@
        + config.embedding.ollama.base_url@
        + "\"\nmodel = \""@
        + config.embedding.ollama.model@
        + "\"\n\n[embedding.gemini]\nenabled = false\napi_key = \"PASTE_GEMINI_API_KEY_HERE\"\nmodel = \""@
        + config.embedding.gemini.model@
        + "\"\n"@
}

/// The first configuration file with the given defaults.
pub fn config_template(config: &AppConfig) -> (r: String)
    requires
        config.telegram.match_accuracy == DEFAULT_MATCH_ACCURACY,
    ensures
        r@ == template(*config),
{
    let mut text = TEMPLATE_COMMENTS.to_owned();
    text.append("watch_dir = \"");
    text.append(config.watch_dir.as_str());
    text.append("\"\ndatabase_path = \"");
    text.append(config.database_path.as_str());
    text.append("\"\nprocessed_dir = \"");
    text.append(config.processed_dir.as_str());
    text.append("\"\nfile_types = [\"txt\", \"md\"]\n\n[telegram]\nenabled = false\nbot_token = \"PASTE_TELEGRAM_BOT_TOKEN_HERE\"\nadmin_user_ids = [123456789]\nallowed_user_ids = [123456789]\naudit_log_path = \"");
    text.append(config.telegram.audit_log_path.as_str());
    text.append("\"\nchat_id = 0\nmode = \"");
    text.append(config.telegram.mode.as_str());
    text.append("\"\npoll_interval_secs = ");
    text.append(render_u64(config.telegram.poll_interval_secs).as_str());
    text.append("\nwebhook_url = \"\"\nwebhook_bind_addr = \"");
    text.append(config.telegram.webhook_bind_addr.as_str());
    text.append("\"\nwebhook_secret_token = \"\"\nwebhook_trusted_proxy_cidrs = [\"127.0.0.1/32\", \"::1/128\"]\nmatch_accuracy = 0.35\n\n[embedding]\npreferred_provider = \"ollama\"\nfallback_provider = \"gemini\"\n\n[embedding.ollama]\nenabled = true\nbase_url = \"");
    text.append(config.embedding.ollama.base_url.as_str());
    text.append("\"\nmodel = \"");
    text.append(config.embedding.ollama.model.as_str());
    text.append("\"\n\n[embedding.gemini]\nenabled = false\napi_key = \"PASTE_GEMINI_API_KEY_HERE\"\nmodel = \"");
    text.append(config.embedding.gemini.model.as_str());
    text.append("\"\n");
    text
}

/// The text is the first configuration file, with the defaults of some machine.
pub open spec fn is_first_file(text: Seq<char>) -> bool {
    exists|config: AppConfig, home: Option<Seq<char>>, data_dir: Option<Seq<char>>| #[trigger]
        config.is_default(home, data_dir) && is_data_directory(data_dir) && text == template(config)
}

/// The first configuration file with the defaults of this machine.
pub fn render_default_config_template() -> (r: String)
    ensures
        is_first_file(r@),
{
    let config = AppConfig::default();
    config_template(&config)
}

/// What to write where there is no configuration file; `None` where there is one.
pub fn create_default_config_if_missing(file_exists: bool) -> (r: Option<String>)
    ensures
        r is None <==> file_exists,
        r matches Some(text) ==> is_first_file(text@),
{
    if file_exists {
        return None;
    }
    Some(render_default_config_template())
}

/// The directory of the configuration file.
pub fn config_file_directory(config_path: &str) -> (r: String)
    ensures
        r@ == (match path_parent(config_path@) {
            Some(dir) => dir,
            None => "."@,
        }),
{
    match parent(config_path) {
        Some(dir) => dir,
        None => ".".to_owned(),
    }
}

// ---------------------------------------------------------------------------------------------
// Changes to the tree

/// Why a configuration file could not be changed.
#[derive(Debug)]
pub enum ConfigTextError {
    /// The file is not TOML.
    Unreadable(String),
    /// The defaults are not TOML.
    DefaultsUnreadable(String),
    /// The file is not a table.
    RootNotTable,
    /// The section for Telegram is not a table.
    TelegramNotTable,
    /// The changed file could not be written down.
    Unwritable(String),
}

pub enum ConfigTextErrorView {
    Unreadable(Seq<char>),
    DefaultsUnreadable(Seq<char>),
    RootNotTable,
    TelegramNotTable,
    Unwritable(Seq<char>),
}

impl View for ConfigTextError {
    type V = ConfigTextErrorView;

    open spec fn view(&self) -> ConfigTextErrorView {
        match self {
            ConfigTextError::Unreadable(message) => ConfigTextErrorView::Unreadable(message@),
            ConfigTextError::DefaultsUnreadable(message) => ConfigTextErrorView::DefaultsUnreadable(
                message@,
            ),
            ConfigTextError::RootNotTable => ConfigTextErrorView::RootNotTable,
            ConfigTextError::TelegramNotTable => ConfigTextErrorView::TelegramNotTable,
            ConfigTextError::Unwritable(message) => ConfigTextErrorView::Unwritable(message@),
        }
    }
}

/// A configuration file with what was missing from it.
#[derive(Debug)]
pub struct FilledConfig {
    pub text: String,
    /// The names of what was missing.
    pub names: Vec<String>,
}

/// The configuration file with what is missing from it; `None` where nothing is.
pub open spec fn filled(original: Seq<char>, defaults: Seq<char>) -> Result<
    Option<(Seq<char>, Seq<Seq<char>>)>,
    ConfigTextErrorView,
> {
    match parsed_toml(original) {
        Err(message) => Err(ConfigTextErrorView::Unreadable(message)),
        Ok(current) => match parsed_toml(defaults) {
            Err(message) => Err(ConfigTextErrorView::DefaultsUnreadable(message)),
            Ok(wanted) => if added(current, wanted, ""@).len() == 0 {
                Ok(None)
            } else {
                match written_toml(merged(current, wanted)) {
                    Err(message) => Err(ConfigTextErrorView::Unwritable(message)),
                    Ok(text) => Ok(Some((text, added(current, wanted, ""@)))),
                }
            },
        },
    }
}

pub open spec fn filled_view(r: Result<Option<FilledConfig>, ConfigTextError>) -> Result<
    Option<(Seq<char>, Seq<Seq<char>>)>,
    ConfigTextErrorView,
> {
    match r {
        Ok(Some(config)) => Ok(Some((config.text@, views(config.names@)))),
        Ok(None) => Ok(None),
        Err(error) => Err(error@),
    }
}

/// Adds to a configuration file the settings that it lacks, as the defaults have them.
pub fn populate_missing_config_fields(original: &str, defaults: &str) -> (r: Result<
    Option<FilledConfig>,
    ConfigTextError,
>)
    ensures
        filled_view(r) == filled(original@, defaults@),
{
    let current = match parse_toml(original) {
        Ok(node) => node,
        Err(message) => return Err(ConfigTextError::Unreadable(message)),
    };
    let wanted = match parse_toml(defaults) {
        Ok(node) => node,
        Err(message) => return Err(ConfigTextError::DefaultsUnreadable(message)),
    };
    let mut names: Vec<String> = Vec::new();
    assert(views(names@) =~= Seq::<Seq<char>>::empty());
    let ghost missing = added(current@, wanted@, ""@);
    let tree = merge_missing_toml(current, &wanted, "", &mut names);
    assert(views(names@) =~= missing);
    assert(names@.len() == missing.len());
    if names.len() == 0 {
        return Ok(None);
    }
    match write_toml(&tree) {
        Ok(text) => Ok(Some(FilledConfig { text, names })),
        Err(message) => Err(ConfigTextError::Unwritable(message)),
    }
}

/// The tree with one more value in its section for Telegram, which is made where there is none.
pub open spec fn with_telegram(root: NodeView, name: Seq<char>, value: NodeView) -> Result<
    NodeView,
    ConfigTextErrorView,
> {
    match root {
        NodeView::Table(entries) => match found(entries, "telegram"@) {
            None => Ok(
                NodeView::Table(
                    with_entry(
                        entries,
                        "telegram"@,
                        NodeView::Table(with_entry(Seq::empty(), name, value)),
                    ),
                ),
            ),
            Some(NodeView::Table(section)) => Ok(
                NodeView::Table(
                    with_entry(
                        entries,
                        "telegram"@,
                        NodeView::Table(with_entry(section, name, value)),
                    ),
                ),
            ),
            Some(_) => Err(ConfigTextErrorView::TelegramNotTable),
        },
        _ => Err(ConfigTextErrorView::RootNotTable),
    }
}

/// Sets a value in the section for Telegram.
pub fn set_telegram_value(root: TomlNode, name: &str, value: TomlNode) -> (r: Result<
    TomlNode,
    ConfigTextError,
>)
    ensures
        r matches Ok(tree) ==> with_telegram(root@, name@, value@) == Ok::<
            NodeView,
            ConfigTextErrorView,
        >(tree@),
        r matches Err(error) ==> with_telegram(root@, name@, value@) == Err::<
            NodeView,
            ConfigTextErrorView,
        >(error@),
{
    match root {
        TomlNode::Table(entries) => {
            let mut entries = entries;
            let ghost before = entry_views(entries@);
            proof {
                lemma_entry_views(entries@);
                lemma_position(before, "telegram"@);
            }
            let at = find_entry(&entries, "telegram");
            if at < entries.len() {
                let (key, node) = entries.remove(at);
                match node {
                    TomlNode::Table(section) => {
                        let mut section = section;
                        put_entry(&mut section, name, value);
                        let ghost inside = entry_views(section@);
                        entries.insert(at, (key, TomlNode::Table(section)));
                        proof {
                            lemma_entry_views(entries@);
                            assert(entry_views(entries@) =~= with_entry(
                                before,
                                "telegram"@,
                                NodeView::Table(inside),
                            ));
                        }
                    },
                    _ => return Err(ConfigTextError::TelegramNotTable),
                }
            } else {
                let mut section: Vec<(String, TomlNode)> = Vec::new();
                assert(entry_views(section@) =~= Seq::<(Seq<char>, NodeView)>::empty());
                put_entry(&mut section, name, value);
                let ghost inside = entry_views(section@);
                entries.push(("telegram".to_owned(), TomlNode::Table(section)));
                proof {
                    lemma_entry_views(entries@);
                    assert(entry_views(entries@) =~= with_entry(
                        before,
                        "telegram"@,
                        NodeView::Table(inside),
                    ));
                }
            }
            Ok(TomlNode::Table(entries))
        },
        _ => Err(ConfigTextError::RootNotTable),
    }
}

/// What was set in the section for Telegram is found there.
pub proof fn law_telegram_value_reads_back(root: NodeView, name: Seq<char>, value: NodeView)
    requires
        with_telegram(root, name, value) is Ok,
    ensures
        lookup(with_telegram(root, name, value)->Ok_0, seq!["telegram"@, name]) == Some(value),
{
    let path = seq!["telegram"@, name];
    let rest = seq![name];
    assert(path.drop_first() =~= rest);
    assert(rest.drop_first() =~= Seq::<Seq<char>>::empty());
    if let NodeView::Table(entries) = root {
        let section = match found(entries, "telegram"@) {
            Some(NodeView::Table(section)) => section,
            _ => Seq::empty(),
        };
        let inside = with_entry(section, name, value);
        law_set_entry_reads_back(section, name, value, name);
        law_set_entry_reads_back(entries, "telegram"@, NodeView::Table(inside), name);
        reveal_with_fuel(lookup, 3);
    }
}

/// The configuration file with one more value in its section for Telegram.
pub open spec fn text_with_telegram(original: Seq<char>, name: Seq<char>, value: NodeView) -> Result<
    Seq<char>,
    ConfigTextErrorView,
> {
    match parsed_toml(original) {
        Err(message) => Err(ConfigTextErrorView::Unreadable(message)),
        Ok(root) => match with_telegram(root, name, value) {
            Err(error) => Err(error),
            Ok(tree) => match written_toml(tree) {
                Err(message) => Err(ConfigTextErrorView::Unwritable(message)),
                Ok(text) => Ok(text),
            },
        },
    }
}

pub open spec fn changed_view(r: Result<String, ConfigTextError>) -> Result<
    Seq<char>,
    ConfigTextErrorView,
> {
    match r {
        Ok(text) => Ok(text@),
        Err(error) => Err(error@),
    }
}

/// Sets a value in the section for Telegram of a configuration file.
pub fn update_telegram_config(original: &str, name: &str, value: TomlNode) -> (r: Result<
    String,
    ConfigTextError,
>)
    ensures
        changed_view(r) == text_with_telegram(original@, name@, value@),
{
    let root = match parse_toml(original) {
        Ok(node) => node,
        Err(message) => return Err(ConfigTextError::Unreadable(message)),
    };
    let tree = match set_telegram_value(root, name, value) {
        Ok(tree) => tree,
        Err(error) => return Err(error),
    };
    match write_toml(&tree) {
        Ok(text) => Ok(text),
        Err(message) => Err(ConfigTextError::Unwritable(message)),
    }
}

/// Sets a text in the section for Telegram of a configuration file.
pub fn write_telegram_text(original: &str, name: &str, value: &str) -> (r: Result<
    String,
    ConfigTextError,
>)
    ensures
        changed_view(r) == text_with_telegram(original@, name@, NodeView::Text(value@)),
{
    update_telegram_config(original, name, TomlNode::Text(value.to_owned()))
}

/// The numbers of users as they stand in the file, where numbers have a sign.
pub open spec fn id_array(ids: Seq<u64>) -> NodeView {
    NodeView::Array(Seq::new(ids.len(), |i: int| NodeView::Integer(ids[i] as i64)))
}

/// Sets the list of users with access in a configuration file.
pub fn write_telegram_allowed_user_ids(original: &str, allowed_user_ids: &Vec<u64>) -> (r: Result<
    String,
    ConfigTextError,
>)
    ensures
        changed_view(r) == text_with_telegram(
            original@,
            "allowed_user_ids"@,
            id_array(allowed_user_ids@),
        ),
{
    let mut items: Vec<TomlNode> = Vec::new();
    let ghost shown = Seq::new(
        allowed_user_ids@.len(),
        |i: int| NodeView::Integer(allowed_user_ids@[i] as i64),
    );
    let mut i: usize = 0;
    assert(item_views(items@) =~= shown.take(0));
    while i < allowed_user_ids.len()
        invariant
            i <= allowed_user_ids@.len(),
            shown == Seq::new(
                allowed_user_ids@.len(),
                |i: int| NodeView::Integer(allowed_user_ids@[i] as i64),
            ),
            item_views(items@) == shown.take(i as int),
        decreases allowed_user_ids@.len() - i,
    {
        let id = #[verifier::truncate]
        (allowed_user_ids[i] as i64);
        let ghost before = items@;
        items.push(TomlNode::Integer(id));
        assert(items@.drop_last() =~= before);
        assert(items@.last()@ == NodeView::Integer(id));
        assert(item_views(items@) == item_views(before).push(NodeView::Integer(id)));
        assert(shown.take(i + 1) =~= shown.take(i as int).push(shown[i as int]));
        i += 1;
    }
    assert(shown.take(i as int) =~= shown);
    update_telegram_config(original, "allowed_user_ids", TomlNode::Array(items))
}

// ---------------------------------------------------------------------------------------------
// Changes to the lines

/// Whether a line begins a section.
pub open spec fn is_header(line: Seq<char>) -> bool {
    let shown = trimmed(line);
    shown.len() > 0 && shown.first() == '[' && shown.last() == ']'
}

/// Whether a line begins the section for Telegram.
pub open spec fn begins_telegram(line: Seq<char>) -> bool {
    trimmed(line) == "[telegram]"@
}

/// Whether the line at the index stands in the section for Telegram.
pub open spec fn in_telegram(all: Seq<Seq<char>>, i: int) -> bool
    decreases i,
{
    if i <= 0 {
        false
    } else if is_header(all[i - 1]) {
        begins_telegram(all[i - 1])
    } else {
        in_telegram(all, i - 1)
    }
}

/// Whether the line at the index sets the chat.
pub open spec fn sets_chat(all: Seq<Seq<char>>, i: int) -> bool {
    !is_header(all[i]) && in_telegram(all, i) && has_prefix(trimmed(all[i]), "chat_id"@)
}

/// Whether the section for Telegram ends before the line at the index.
pub open spec fn ends_telegram(all: Seq<Seq<char>>, i: int) -> bool {
    is_header(all[i]) && !begins_telegram(all[i]) && in_telegram(all, i)
}

/// The first line among `n` that ends the section for Telegram, or `n`.
pub open spec fn telegram_end(all: Seq<Seq<char>>, n: int) -> int
    decreases n,
{
    if n <= 0 {
        0
    } else {
        let before = telegram_end(all, n - 1);
        if before < n - 1 {
            before
        } else if ends_telegram(all, n - 1) {
            n - 1
        } else {
            n
        }
    }
}

pub open spec fn has_telegram(all: Seq<Seq<char>>, n: int) -> bool {
    exists|i: int| 0 <= i < n && #[trigger] is_header(all[i]) && begins_telegram(all[i])
}

pub open spec fn has_chat(all: Seq<Seq<char>>, n: int) -> bool {
    exists|i: int| 0 <= i < n && #[trigger] sets_chat(all, i)
}

pub open spec fn chat_line(chat_id: int) -> Seq<char> {
    "chat_id = "@ + decimal_int(chat_id)
}

/// The lines with another chat wherever one is set.
pub open spec fn chat_replaced(all: Seq<Seq<char>>, chat_id: int) -> Seq<Seq<char>> {
    Seq::new(
        all.len(),
        |i: int|
            if sets_chat(all, i) {
                chat_line(chat_id)
            } else {
                all[i]
            },
    )
}

/// The section that is added where there is none.
pub open spec fn telegram_section(all: Seq<Seq<char>>, chat_id: int) -> Seq<Seq<char>> {
    (if all.len() > 0 && all.last().len() > 0 {
        seq![""@]
    } else {
        Seq::empty()
    }) + seq!["[telegram]"@, "enabled = false"@, "bot_token = \"\""@, chat_line(chat_id)]
}

/// The lines with the chat set: in place of the one that was set, or at the end of the section
/// for Telegram, or in a new section.
pub open spec fn lines_with_chat(all: Seq<Seq<char>>, chat_id: int) -> Seq<Seq<char>> {
    let n = all.len() as int;
    if !has_telegram(all, n) {
        all + telegram_section(all, chat_id)
    } else if has_chat(all, n) {
        chat_replaced(all, chat_id)
    } else {
        all.insert(telegram_end(all, n), chat_line(chat_id))
    }
}

/// The configuration file with the chat set.
pub open spec fn text_with_chat(original: Seq<char>, chat_id: int) -> Seq<char> {
    let text = joined(lines_with_chat(lines(original), chat_id), "\n"@);
    if (original.len() > 0 && original.last() == '\n') || !(text.len() > 0 && text.last() == '\n') {
        text.push('\n')
    } else {
        text
    }
}

proof fn lemma_no_section_no_chat(all: Seq<Seq<char>>, n: int)
    requires
        0 <= n <= all.len(),
        !has_telegram(all, all.len() as int),
    ensures
        !in_telegram(all, n),
    decreases n,
{
    if n > 0 {
        lemma_no_section_no_chat(all, n - 1);
        assert(is_header(all[n - 1]) ==> !begins_telegram(all[n - 1]));
    }
}

/// Sets the chat for notifications in a configuration file, and leaves the other lines alone.
pub fn write_telegram_chat_id(original: &str, chat_id: i64) -> (r: String)
    ensures
        r@ == text_with_chat(original@, chat_id as int),
{
    let source = split_lines(original);
    let ghost all = views(source@);
    let setting = concat("chat_id = ", render_i64(chat_id).as_str());
    let count = source.len();
    let mut out: Vec<String> = Vec::new();
    let mut inside = false;
    let mut section_found = false;
    let mut updated = false;
    let mut end: usize = 0;
    let mut i: usize = 0;
    assert(views(out@) =~= chat_replaced(all, chat_id as int).take(0));
    while i < count
        invariant
            i <= count,
            count == source@.len(),
            all == views(source@),
            setting@ == chat_line(chat_id as int),
            views(out@) == chat_replaced(all, chat_id as int).take(i as int),
            inside == in_telegram(all, i as int),
            section_found == has_telegram(all, i as int),
            updated == has_chat(all, i as int),
            end == telegram_end(all, i as int),
            end <= i,
        decreases count - i,
    {
        let line = source[i].as_str();
        assert(line@ == all[i as int]);
        let shown = trim(line);
        let ghost before = views(out@);
        let header = starts_with_char(shown, '[') && ends_with_char(shown, ']');
        let begins = same(shown, "[telegram]");
        assert(header == is_header(all[i as int]));
        assert(begins == begins_telegram(all[i as int]));
        let sets = !header && inside && starts_with(shown, "chat_id");
        assert(sets == sets_chat(all, i as int));
        if end == i && !(header && !begins && inside) {
            end = i + 1;
        }
        if sets {
            out.push(setting.as_str().to_owned());
            updated = true;
        } else {
            out.push(line.to_owned());
        }
        proof {
            let now = chat_replaced(all, chat_id as int);
            assert(now.take(i + 1) =~= now.take(i as int).push(now[i as int]));
            assert(views(out@) =~= now.take(i + 1));
            lemma_has_step(all, i as int);
        }
        if header {
            inside = begins;
            if begins {
                section_found = true;
            }
        }
        i += 1;
    }
    let ghost replaced = chat_replaced(all, chat_id as int);
    assert(replaced.take(count as int) =~= replaced);
    if !section_found {
        proof {
            assert forall|j: int| 0 <= j < all.len() implies !sets_chat(all, j) by {
                lemma_no_section_no_chat(all, j);
            }
            assert(replaced =~= all);
        }
        if count > 0 && !source[count - 1].as_str().is_empty() {
            out.push("".to_owned());
        }
        out.push("[telegram]".to_owned());
        out.push("enabled = false".to_owned());
        out.push("bot_token = \"\"".to_owned());
        out.push(setting);
        assert(views(out@) =~= all + telegram_section(all, chat_id as int));
    } else if !updated {
        proof {
            assert forall|j: int| 0 <= j < all.len() implies !sets_chat(all, j) by {
            }
            assert(replaced =~= all);
        }
        assert(out@.len() == views(out@).len());
        out.insert(end, setting);
        assert(views(out@) =~= all.insert(end as int, chat_line(chat_id as int)));
    }
    let mut text = join(&out, "\n");
    if ends_with_char(original, '\n') || !ends_with_char(text.as_str(), '\n') {
        text.push('\n');
    }
    text
}

proof fn lemma_has_step(all: Seq<Seq<char>>, i: int)
    requires
        0 <= i < all.len(),
    ensures
        has_telegram(all, i + 1) == (has_telegram(all, i) || (is_header(all[i]) && begins_telegram(
            all[i],
        ))),
        has_chat(all, i + 1) == (has_chat(all, i) || sets_chat(all, i)),
{
    if has_telegram(all, i + 1) && !(is_header(all[i]) && begins_telegram(all[i])) {
        let k = choose|k: int|
            0 <= k < i + 1 && #[trigger] is_header(all[k]) && begins_telegram(all[k]);
        assert(k < i);
    }
    if has_telegram(all, i) {
        let k = choose|k: int| 0 <= k < i && #[trigger] is_header(all[k]) && begins_telegram(all[k]);
        assert(is_header(all[k]));
    }
    if has_chat(all, i + 1) && !sets_chat(all, i) {
        let k = choose|k: int| 0 <= k < i + 1 && #[trigger] sets_chat(all, k);
        assert(k < i);
    }
    if has_chat(all, i) {
        let k = choose|k: int| 0 <= k < i && #[trigger] sets_chat(all, k);
        assert(sets_chat(all, k));
    }
}

/// A line that begins with something other than a bracket or white space begins no section.
proof fn lemma_no_header(line: Seq<char>)
    requires
        line.len() > 0,
        !is_white(line.first()),
        line.first() != '[',
    ensures
        !is_header(line),
{
    let start = trimmed_start(line);
    assert(start == line);
    lemma_trimmed_end(line);
    let shown = trimmed(line);
    if shown.len() > 0 {
        assert(shown.first() == line.first());
    }
}

proof fn lemma_section_line()
    ensures
        is_header("[telegram]"@),
        begins_telegram("[telegram]"@),
{
    reveal_strlit("[telegram]");
    let line = "[telegram]"@;
    assert(trimmed_start(line) == line);
    assert(trimmed_end(line) == line);
}

proof fn lemma_same_sections(a: Seq<Seq<char>>, b: Seq<Seq<char>>, i: int)
    requires
        forall|j: int|
            0 <= j < i ==> is_header(#[trigger] a[j]) == is_header(b[j]) && (is_header(a[j])
                ==> a[j] == b[j]),
    ensures
        in_telegram(a, i) == in_telegram(b, i),
    decreases i,
{
    if i > 0 {
        lemma_same_sections(a, b, i - 1);
        assert(is_header(a[i - 1]) == is_header(b[i - 1]));
    }
}

proof fn lemma_end(all: Seq<Seq<char>>, n: int)
    requires
        0 <= n <= all.len(),
    ensures
        0 <= telegram_end(all, n) <= n,
        telegram_end(all, n) < n ==> ends_telegram(all, telegram_end(all, n)),
        telegram_end(all, n) == n ==> forall|i: int| 0 <= i < n ==> !#[trigger] ends_telegram(all, i),
    decreases n,
{
    if n > 0 {
        lemma_end(all, n - 1);
    }
}

proof fn lemma_stays_inside(all: Seq<Seq<char>>, start: int, n: int)
    requires
        0 <= start < n <= all.len(),
        is_header(all[start]),
        begins_telegram(all[start]),
        forall|i: int| 0 <= i < all.len() ==> !#[trigger] ends_telegram(all, i),
    ensures
        in_telegram(all, n),
    decreases n,
{
    if n > start + 1 {
        lemma_stays_inside(all, start, n - 1);
        assert(!ends_telegram(all, n - 1));
    }
}

/// After the change the chat is set in the section for Telegram.
pub proof fn law_chat_is_set(all: Seq<Seq<char>>, chat_id: int)
    ensures
        exists|i: int|
            0 <= i < lines_with_chat(all, chat_id).len() && #[trigger] in_telegram(
                lines_with_chat(all, chat_id),
                i,
            ) && lines_with_chat(all, chat_id)[i] == chat_line(chat_id),
{
    let n = all.len() as int;
    let after = lines_with_chat(all, chat_id);
    let set = chat_line(chat_id);
    reveal_strlit("chat_id = ");
    lemma_no_header(set);
    if !has_telegram(all, n) {
        let added = telegram_section(all, chat_id);
        let last = after.len() - 1;
        reveal_strlit("enabled = false");
        reveal_strlit("bot_token = \"\"");
        lemma_no_header("enabled = false"@);
        lemma_no_header("bot_token = \"\""@);
        lemma_section_line();
        assert(after[last] == set);
        assert(after[last - 1] == "bot_token = \"\""@);
        assert(after[last - 2] == "enabled = false"@);
        assert(after[last - 3] == "[telegram]"@);
        assert(in_telegram(after, last - 2));
        assert(in_telegram(after, last - 1));
        assert(in_telegram(after, last));
    } else if has_chat(all, n) {
        let k = choose|k: int| 0 <= k < n && #[trigger] sets_chat(all, k);
        assert forall|j: int| 0 <= j < k implies is_header(#[trigger] all[j]) == is_header(after[j])
            && (is_header(all[j]) ==> all[j] == after[j]) by {
        }
        lemma_same_sections(all, after, k);
        assert(after[k] == set);
    } else {
        let end = telegram_end(all, n);
        lemma_end(all, n);
        if end == n {
            let start = choose|i: int|
                0 <= i < n && #[trigger] is_header(all[i]) && begins_telegram(all[i]);
            lemma_stays_inside(all, start, n);
        }
        assert(in_telegram(all, end));
        assert forall|j: int| 0 <= j < end implies is_header(#[trigger] all[j]) == is_header(
            after[j],
        ) && (is_header(all[j]) ==> all[j] == after[j]) by {
            assert(after[j] == all[j]);
        }
        lemma_same_sections(all, after, end);
        assert(after[end] == set);
    }
}

/// The change touches no line but those that set the chat.
pub proof fn law_other_lines_stay(all: Seq<Seq<char>>, chat_id: int, i: int)
    requires
        0 <= i < all.len(),
        !sets_chat(all, i),
    ensures
        lines_with_chat(all, chat_id).contains(all[i]),
{
    let n = all.len() as int;
    let after = lines_with_chat(all, chat_id);
    if !has_telegram(all, n) || has_chat(all, n) {
        assert(after[i] == all[i]);
    } else {
        let end = telegram_end(all, n);
        lemma_end(all, n);
        if i < end {
            assert(after[i] == all[i]);
        } else {
            assert(after[i + 1] == all[i]);
        }
    }
}

/// A line as it stands between two line feeds.
spec fn is_plain_line(line: Seq<char>) -> bool {
    !line.contains('\n') && !(line.len() > 0 && line.last() == '\r')
}

proof fn lemma_lines_hold_no_line_feed(s: Seq<char>)
    ensures
        forall|i: int| 0 <= i < lines(s).len() ==> !(#[trigger] lines(s)[i]).contains('\n'),
        s.len() > 0 ==> lines(s).len() > 0,
        s.len() > 0 && s.last() != '\n' ==> lines(s).last().len() > 0,
    decreases s.len(),
{
    if s.len() > 0 {
        lemma_run_without(s, '\n');
        let n = run_without(s, '\n') as int;
        if n < s.len() {
            let rest = s.skip(n + 1);
            lemma_lines_hold_no_line_feed(rest);
            let first = without_final_return(s.take(n));
            assert forall|i: int| 0 <= i < lines(s).len() implies !(
            #[trigger] lines(s)[i]).contains('\n') by {
                if i == 0 {
                    assert(lines(s)[0] == first);
                    assert forall|k: int| 0 <= k < first.len() implies first[k] != '\n' by {
                        assert(first[k] == s[k]);
                    }
                } else {
                    assert(lines(s)[i] == lines(rest)[i - 1]);
                }
            }
            if s.last() != '\n' {
                assert(rest.len() > 0);
                assert(rest.last() == s.last());
                assert(lines(s).last() == lines(rest).last());
            }
        } else {
            assert(lines(s) == seq![s]);
        }
    }
}

proof fn lemma_first_line(line: Seq<char>, rest: Seq<char>)
    requires
        is_plain_line(line),
    ensures
        lines(line.push('\n') + rest) == seq![line] + lines(rest),
{
    let s = line.push('\n') + rest;
    lemma_run_without(s, '\n');
    let n = run_without(s, '\n') as int;
    assert(s[line.len() as int] == '\n');
    if n < line.len() {
        assert(s[n] == line[n]);
        assert(line.contains('\n'));
    }
    assert(n == line.len());
    assert(s.take(n) =~= line);
    assert(s.skip(n + 1) =~= rest);
}

proof fn lemma_joined_begins(parts: Seq<Seq<char>>, separator: Seq<char>)
    requires
        parts.len() > 1,
    ensures
        joined(parts, separator) == parts.first() + separator + joined(
            parts.drop_first(),
            separator,
        ),
    decreases parts.len(),
{
    let rest = parts.drop_first();
    if parts.len() == 2 {
        assert(parts.drop_last() =~= seq![parts.first()]);
        assert(rest =~= seq![parts.last()]);
        assert(joined(parts.drop_last(), separator) == parts.first());
        assert(joined(rest, separator) == parts.last());
    } else {
        lemma_joined_begins(parts.drop_last(), separator);
        assert(parts.drop_last().drop_first() =~= rest.drop_last());
        assert(parts.drop_last().first() == parts.first());
        assert(rest.last() == parts.last());
        assert(joined(parts, separator) =~= parts.first() + separator + (joined(
            rest.drop_last(),
            separator,
        ) + separator + parts.last()));
    }
}

/// Lines that were written one below the other read back.
proof fn lemma_lines_read_back(all: Seq<Seq<char>>)
    requires
        all.len() > 0,
        forall|i: int| 0 <= i < all.len() ==> is_plain_line(#[trigger] all[i]),
    ensures
        lines(joined(all, "\n"@).push('\n')) == all,
    decreases all.len(),
{
    reveal_strlit("\n");
    let text = joined(all, "\n"@).push('\n');
    if all.len() == 1 {
        assert(text =~= all[0].push('\n') + Seq::<char>::empty());
        lemma_first_line(all[0], Seq::empty());
        assert(lines(text) =~= all);
    } else {
        let rest = all.drop_first();
        assert forall|i: int| 0 <= i < rest.len() implies is_plain_line(#[trigger] rest[i]) by {
            assert(rest[i] == all[i + 1]);
        }
        lemma_lines_read_back(rest);
        lemma_joined_begins(all, "\n"@);
        let below = joined(rest, "\n"@).push('\n');
        assert(text =~= all[0].push('\n') + below);
        lemma_first_line(all[0], below);
        assert(lines(text) =~= all);
    }
}

proof fn lemma_chat_line(chat_id: int)
    ensures
        is_plain_line(chat_line(chat_id)),
        chat_line(chat_id).len() > 0,
        !is_header(chat_line(chat_id)),
        has_prefix(trimmed(chat_line(chat_id)), "chat_id"@),
{
    reveal_strlit("chat_id = ");
    reveal_strlit("chat_id");
    reveal_strlit("-");
    let line = chat_line(chat_id);
    let shown = decimal_int(chat_id);
    let digits = if chat_id < 0 {
        decimal((-chat_id) as nat)
    } else {
        decimal(chat_id as nat)
    };
    if chat_id < 0 {
        lemma_decimal((-chat_id) as nat);
    } else {
        lemma_decimal(chat_id as nat);
    }
    let lead = line.len() - digits.len();
    assert(line =~= line.take(lead) + digits);
    assert forall|i: int| 0 <= i < line.len() implies line[i] != '\n' by {
        if i >= lead {
            assert(line[i] == digits[i - lead]);
        }
    }
    assert(line.last() == digits.last());
    assert(digits[digits.len() - 1] == digits.last());
    lemma_no_header(line);
    assert(trimmed_start(line) == line);
    assert(trimmed_end(line) == line);
    assert(trimmed(line).take(7) =~= "chat_id"@);
}

/// The second change finds the chat that the first one set, and nothing else.
proof fn lemma_second_change(all: Seq<Seq<char>>, first: int, second: int)
    ensures
        lines_with_chat(lines_with_chat(all, first), second) == lines_with_chat(all, second),
{
    let n = all.len() as int;
    let after = lines_with_chat(all, first);
    let wanted = lines_with_chat(all, second);
    let m = after.len() as int;
    let set = chat_line(first);
    lemma_chat_line(first);
    lemma_chat_line(second);
    law_chat_is_set(all, first);
    let place = choose|i: int|
        0 <= i < after.len() && #[trigger] in_telegram(after, i) && after[i] == set;
    assert(sets_chat(after, place));
    assert(has_chat(after, m));
    lemma_inside_means_section(after, place);
    let replaced = chat_replaced(after, second);
    if !has_telegram(all, n) {
        reveal_strlit("enabled = false");
        reveal_strlit("bot_token = \"\"");
        reveal_strlit("");
        reveal_strlit("chat_id");
        lemma_section_line();
        lemma_no_header("enabled = false"@);
        lemma_no_header("bot_token = \"\""@);
        assert(trimmed_start("enabled = false"@) == "enabled = false"@);
        assert(trimmed_start("bot_token = \"\""@) == "bot_token = \"\""@);
        lemma_trimmed_end("enabled = false"@);
        lemma_trimmed_end("bot_token = \"\""@);
        assert(after =~= all + telegram_section(all, first));
        assert(after[m - 1] == set);
        assert(after[m - 2] == "bot_token = \"\""@);
        assert(after[m - 3] == "enabled = false"@);
        assert(after[m - 4] == "[telegram]"@);
        assert(in_telegram(after, m - 3));
        assert(in_telegram(after, m - 2));
        assert(in_telegram(after, m - 1));
        assert forall|i: int| 0 <= i < m - 1 implies !sets_chat(after, i) by {
            if i < n {
                lemma_no_section_no_chat(all, i);
                lemma_same_sections(all, after, i);
            } else if i == m - 3 || i == m - 2 {
                lemma_other_setting(after[i]);
            } else if i == n {
                if after[i] == ""@ {
                    lemma_other_setting(""@);
                }
            }
        }
        assert(replaced =~= wanted);
    } else if has_chat(all, n) {
        assert forall|i: int| 0 <= i < n implies sets_chat(after, i) == sets_chat(all, i) by {
            assert forall|j: int| 0 <= j < i implies is_header(#[trigger] all[j]) == is_header(
                after[j],
            ) && (is_header(all[j]) ==> all[j] == after[j]) by {
            }
            lemma_same_sections(all, after, i);
        }
        assert(replaced =~= wanted);
    } else {
        let end = telegram_end(all, n);
        lemma_end(all, n);
        assert(after =~= all.insert(end, set));
        assert forall|i: int| 0 <= i < m && i != end implies !sets_chat(after, i) by {
            if i < end {
                lemma_same_sections(all, after, i);
                assert(!sets_chat(all, i));
            } else {
                lemma_shifted_sections(all, set, end, i);
                assert(after[i] == all[i - 1]);
                assert(!sets_chat(all, i - 1));
            }
        }
        assert(place == end);
        assert(replaced =~= wanted);
    }
}

/// A line that is in the section for Telegram comes after its beginning.
proof fn lemma_inside_means_section(all: Seq<Seq<char>>, i: int)
    requires
        0 <= i <= all.len(),
        in_telegram(all, i),
    ensures
        has_telegram(all, all.len() as int),
    decreases i,
{
    if i > 0 {
        if !is_header(all[i - 1]) {
            lemma_inside_means_section(all, i - 1);
        }
    }
}

/// A line that begins otherwise sets no chat.
proof fn lemma_other_setting(line: Seq<char>)
    requires
        line.len() == 0 || (!is_white(line.first()) && line.first() != 'c'),
    ensures
        !has_prefix(trimmed(line), "chat_id"@),
{
    reveal_strlit("chat_id");
    assert(trimmed_start(line) == line);
    lemma_trimmed_end(line);
    let shown = trimmed(line);
    if has_prefix(shown, "chat_id"@) {
        assert(shown.take(7)[0] == 'c');
        assert(shown[0] == line[0]);
    }
}

/// A line that begins no section moves the sections below it down.
proof fn lemma_shifted_sections(all: Seq<Seq<char>>, line: Seq<char>, at: int, i: int)
    requires
        0 <= at <= all.len(),
        at < i <= all.len() + 1,
        !is_header(line),
    ensures
        in_telegram(all.insert(at, line), i) == in_telegram(all, i - 1),
    decreases i,
{
    let after = all.insert(at, line);
    if i == at + 1 {
        assert(after[at] == line);
        lemma_same_sections(all, after, at);
    } else {
        lemma_shifted_sections(all, line, at, i - 1);
        assert(after[i - 1] == all[i - 2]);
    }
}

/// Where the text is changed, it ends in a line feed behind the lines.
proof fn lemma_changed_text(original: Seq<char>, chat_id: int)
    ensures
        text_with_chat(original, chat_id) == joined(
            lines_with_chat(lines(original), chat_id),
            "\n"@,
        ).push('\n'),
        lines_with_chat(lines(original), chat_id).len() > 0,
{
    let all = lines(original);
    let after = lines_with_chat(all, chat_id);
    let text = joined(after, "\n"@);
    lemma_lines_hold_no_line_feed(original);
    lemma_chat_line(chat_id);
    law_chat_is_set(all, chat_id);
    if !(original.len() > 0 && original.last() == '\n') {
        lemma_end(all, all.len() as int);
        assert(after.last().len() > 0) by {
            if has_telegram(all, all.len() as int) {
                if has_chat(all, all.len() as int) {
                    assert(after.last() == chat_line(chat_id) || after.last() == all.last());
                } else {
                    let end = telegram_end(all, all.len() as int);
                    if end < all.len() {
                        assert(after.last() == all.last());
                    } else {
                        assert(after.last() == chat_line(chat_id));
                    }
                }
            } else {
                assert(after.last() == chat_line(chat_id));
            }
        }
        assert(text.last() == after.last().last()) by {
            if after.len() == 1 {
                assert(text == after[0]);
            }
        }
        assert(!after.last().contains('\n')) by {
            lemma_no_line_feed_after(all, chat_id, after.len() - 1);
        }
        assert(after.last()[after.last().len() - 1] != '\n');
    }
}

proof fn lemma_no_line_feed_after(all: Seq<Seq<char>>, chat_id: int, i: int)
    requires
        0 <= i < lines_with_chat(all, chat_id).len(),
        forall|j: int| 0 <= j < all.len() ==> !(#[trigger] all[j]).contains('\n'),
    ensures
        !lines_with_chat(all, chat_id)[i].contains('\n'),
{
    let after = lines_with_chat(all, chat_id);
    lemma_origin_of_line(all, chat_id, i);
    reveal_strlit("");
    reveal_strlit("[telegram]");
    reveal_strlit("enabled = false");
    reveal_strlit("bot_token = \"\"");
    lemma_chat_line(chat_id);
}

/// Every line of the changed file was there before, or is one of those that a change adds.
proof fn lemma_origin_of_line(all: Seq<Seq<char>>, chat_id: int, i: int)
    requires
        0 <= i < lines_with_chat(all, chat_id).len(),
    ensures
        ({
            let line = lines_with_chat(all, chat_id)[i];
            ||| line == chat_line(chat_id)
            ||| line == ""@
            ||| line == "[telegram]"@
            ||| line == "enabled = false"@
            ||| line == "bot_token = \"\""@
            ||| exists|j: int| 0 <= j < all.len() && !sets_chat(all, j) && line == #[trigger] all[j]
        }),
{
    let n = all.len() as int;
    let after = lines_with_chat(all, chat_id);
    if !has_telegram(all, n) {
        if i < n {
            lemma_no_section_no_chat(all, i);
            assert(after[i] == all[i]);
        }
    } else if has_chat(all, n) {
        if !sets_chat(all, i) {
            assert(after[i] == all[i]);
        }
    } else {
        let end = telegram_end(all, n);
        lemma_end(all, n);
        if i < end {
            assert(!sets_chat(all, i));
            assert(after[i] == all[i]);
        } else if i > end {
            assert(!sets_chat(all, i - 1));
            assert(after[i] == all[i - 1]);
        }
    }
}

/// Of two changes of the chat the last one wins: the file is the same as after the second one
/// alone. So nothing is added twice, and setting the same chat again changes nothing. The lines
/// that do not set the chat must not end in a carriage return, of which each change takes one
/// away.
pub proof fn law_last_chat_wins(original: Seq<char>, first: int, second: int)
    requires
        forall|i: int|
            0 <= i < lines(original).len() && !sets_chat(lines(original), i) ==> !(
            (#[trigger] lines(original)[i]).len() > 0 && lines(original)[i].last() == '\r'),
    ensures
        text_with_chat(text_with_chat(original, first), second) == text_with_chat(original, second),
{
    let all = lines(original);
    let after = lines_with_chat(all, first);
    lemma_changed_text(original, first);
    lemma_changed_text(original, second);
    lemma_lines_hold_no_line_feed(original);
    assert forall|i: int| 0 <= i < after.len() implies is_plain_line(#[trigger] after[i]) by {
        lemma_no_line_feed_after(all, first, i);
        lemma_origin_of_line(all, first, i);
        reveal_strlit("");
        reveal_strlit("[telegram]");
        reveal_strlit("enabled = false");
        reveal_strlit("bot_token = \"\"");
        lemma_chat_line(first);
    }
    lemma_lines_read_back(after);
    lemma_changed_text(text_with_chat(original, first), second);
    lemma_second_change(all, first, second);
}

// ---------------------------------------------------------------------------------------------
// Laws

/// Setting a value in the section for Telegram leaves the other values of that section and the
/// other sections alone.
pub proof fn law_other_settings_stay(
    root: NodeView,
    name: Seq<char>,
    value: NodeView,
    other: Seq<char>,
    rest: Seq<Seq<char>>,
)
    requires
        with_telegram(root, name, value) is Ok,
    ensures
        other != name ==> lookup(
            with_telegram(root, name, value)->Ok_0,
            seq!["telegram"@, other] + rest,
        ) == lookup(root, seq!["telegram"@, other] + rest),
        other != "telegram"@ ==> lookup(
            with_telegram(root, name, value)->Ok_0,
            seq![other] + rest,
        ) == lookup(root, seq![other] + rest),
{
    let entries = root->Table_0;
    let section = match found(entries, "telegram"@) {
        Some(NodeView::Table(section)) => section,
        _ => Seq::empty(),
    };
    let inside = with_entry(section, name, value);
    law_set_entry_reads_back(section, name, value, other);
    law_set_entry_reads_back(entries, "telegram"@, NodeView::Table(inside), other);
    let path = seq!["telegram"@, other] + rest;
    let short = seq![other] + rest;
    assert(path.first() == "telegram"@);
    assert(path.drop_first() =~= short);
    assert(short.first() == other);
    assert(short.drop_first() =~= rest);
    reveal_with_fuel(lookup, 3);
    if found(entries, "telegram"@) is None && other != name {
        lemma_position(Seq::<(Seq<char>, NodeView)>::empty(), other);
    }
}

/// A section reaches from its header to the next one: a line stands in the section for Telegram
/// exactly if the last header before it begins that section.
pub proof fn law_section_reaches_to_the_next_header(all: Seq<Seq<char>>, i: int)
    requires
        0 <= i <= all.len(),
    ensures
        in_telegram(all, i) <==> exists|j: int|
            0 <= j < i && #[trigger] is_header(all[j]) && begins_telegram(all[j]) && forall|k: int|
                j < k < i ==> !#[trigger] is_header(all[k]),
    decreases i,
{
    if i > 0 {
        law_section_reaches_to_the_next_header(all, i - 1);
        if in_telegram(all, i) {
            if is_header(all[i - 1]) {
                assert(is_header(all[i - 1]) && begins_telegram(all[i - 1]));
            } else {
                let j = choose|j: int|
                    0 <= j < i - 1 && #[trigger] is_header(all[j]) && begins_telegram(all[j])
                        && forall|k: int| j < k < i - 1 ==> !#[trigger] is_header(all[k]);
                assert(forall|k: int| j < k < i ==> !#[trigger] is_header(all[k]));
                assert(is_header(all[j]));
            }
        }
        if exists|j: int|
            0 <= j < i && #[trigger] is_header(all[j]) && begins_telegram(all[j]) && forall|k: int|
                j < k < i ==> !#[trigger] is_header(all[k]) {
            let j = choose|j: int|
                0 <= j < i && #[trigger] is_header(all[j]) && begins_telegram(all[j])
                    && forall|k: int| j < k < i ==> !#[trigger] is_header(all[k]);
            if j < i - 1 {
                assert(!is_header(all[i - 1]));
                assert(forall|k: int| j < k < i - 1 ==> !#[trigger] is_header(all[k]));
                assert(is_header(all[j]));
            }
        }
    }
}

/// A header is a line in square brackets, with any space around it.
pub proof fn law_headers_are_lines_in_brackets(
    lead: Seq<char>,
    name: Seq<char>,
    trail: Seq<char>,
    setting: Seq<char>,
)
    requires
        all_white(lead),
        all_white(trail),
        bare(setting),
        setting.len() > 0,
        setting[0] != '[' || setting.last() != ']',
    ensures
        is_header(lead + (seq!['['] + name + seq![']']) + trail),
        begins_telegram(lead + "[telegram]"@ + trail),
        !is_header(lead + setting + trail),
        !is_header(lead),
{
    let shown = seq!['['] + name + seq![']'];
    assert(shown.first() == '[' && shown.last() == ']');
    law_trimming_takes_the_space_off_the_ends(lead, shown, trail);
    law_trimming_takes_the_space_off_the_ends(lead, setting, trail);
    reveal_strlit("[telegram]");
    let begun = "[telegram]"@;
    assert(begun.first() == '[' && begun.last() == ']');
    law_trimming_takes_the_space_off_the_ends(lead, begun, trail);
    law_trimming_takes_the_space_off_the_ends(lead, Seq::empty(), Seq::empty());
    assert(lead + Seq::<char>::empty() + Seq::<char>::empty() =~= lead);
}

proof fn lemma_shifted(all: Seq<Seq<char>>, after: Seq<Seq<char>>, end: int, i: int)
    requires
        0 <= end <= all.len(),
        end < i <= after.len(),
        after.len() == all.len() + 1,
        !is_header(after[end]),
        in_telegram(after, end) == in_telegram(all, end),
        forall|k: int| end < k < after.len() ==> #[trigger] after[k] == all[k - 1],
    ensures
        in_telegram(after, i) == in_telegram(all, i - 1),
    decreases i,
{
    if i > end + 1 {
        lemma_shifted(all, after, end, i - 1);
        assert(after[i - 1] == all[i - 2]);
    }
}

/// After the change no other chat is set: every line that sets one sets this.
pub proof fn law_no_other_chat_is_left(all: Seq<Seq<char>>, chat_id: int, i: int)
    requires
        0 <= i < lines_with_chat(all, chat_id).len(),
        sets_chat(lines_with_chat(all, chat_id), i),
    ensures
        lines_with_chat(all, chat_id)[i] == "chat_id = "@ + decimal_int(chat_id),
{
    let n = all.len() as int;
    let after = lines_with_chat(all, chat_id);
    let set = chat_line(chat_id);
    reveal_strlit("chat_id = ");
    lemma_no_header(set);
    if !has_telegram(all, n) {
        reveal_strlit("");
        reveal_strlit("[telegram]");
        reveal_strlit("enabled = false");
        reveal_strlit("bot_token = \"\"");
        reveal_strlit("chat_id");
        if i < n {
            assert forall|j: int| 0 <= j < i implies is_header(#[trigger] all[j]) == is_header(
                after[j],
            ) && (is_header(all[j]) ==> all[j] == after[j]) by {
                assert(after[j] == all[j]);
            }
            lemma_same_sections(all, after, i);
            lemma_no_section_no_chat(all, i);
        } else if i < after.len() - 1 {
            let line = after[i];
            assert(line == ""@ || line == "[telegram]"@ || line == "enabled = false"@ || line
                == "bot_token = \"\""@);
            lemma_trimmed_end(line);
            assert(trimmed_start(line) == line);
            if line.len() > 0 {
                let shown = trimmed(line);
                assert(shown.take("chat_id"@.len() as int)[0] == 'c');
                assert(shown[0] == line[0]);
            } else {
                assert(trimmed(line).len() == 0);
            }
        }
    } else if has_chat(all, n) {
        if !sets_chat(all, i) {
            assert forall|j: int| 0 <= j < i implies is_header(#[trigger] all[j]) == is_header(
                after[j],
            ) && (is_header(all[j]) ==> all[j] == after[j]) by {
            }
            lemma_same_sections(all, after, i);
        }
    } else {
        let end = telegram_end(all, n);
        lemma_end(all, n);
        assert(after[end] == set);
        assert forall|j: int| 0 <= j < end implies is_header(#[trigger] all[j]) == is_header(
            after[j],
        ) && (is_header(all[j]) ==> all[j] == after[j]) by {
            assert(after[j] == all[j]);
        }
        if i < end {
            lemma_same_sections(all, after, i);
            assert(after[i] == all[i]);
            assert(sets_chat(all, i));
        } else if i > end {
            lemma_same_sections(all, after, end);
            lemma_shifted(all, after, end, i);
            assert(after[i] == all[i - 1]);
            assert(sets_chat(all, i - 1));
        }
    }
}

/// The changed file ends with a line feed.
pub proof fn law_changed_file_ends_with_a_line_feed(original: Seq<char>, chat_id: int)
    ensures
        text_with_chat(original, chat_id).len() > 0,
        text_with_chat(original, chat_id).last() == '\n',
{
}

/// The users stand in the file in the order of the list, each with their number.
pub proof fn law_listed_users_are_written(ids: Seq<u64>, i: int)
    requires
        0 <= i < ids.len(),
        ids[i] <= i64::MAX,
    ensures
        id_array(ids) is Array,
        id_array(ids)->Array_0.len() == ids.len(),
        id_array(ids)->Array_0[i] matches NodeView::Integer(shown) && shown == ids[i],
{
}

/// In the first configuration file the bot is off, Ollama comes first and Gemini is off until its
/// key is filled in.
pub proof fn law_first_file_starts_modestly(config: AppConfig)
    ensures
        occurs_in(template(config), "\n[telegram]\nenabled = false\n"@),
        occurs_in(
            template(config),
            "\npreferred_provider = \"ollama\"\nfallback_provider = \"gemini\"\n\n[embedding.ollama]\nenabled = true\n"@,
        ),
        occurs_in(template(config), "\nmatch_accuracy = 0.35\n"@),
        occurs_in(template(config), "\nfile_types = [\"txt\", \"md\"]\n"@),
{
    broadcast use lemma_still_occurs;
    broadcast use lemma_occurs_inside;

    reveal_strlit("\n[telegram]\nenabled = false\n");
    reveal_strlit("\nmatch_accuracy = 0.35\n");
    reveal_strlit("\nfile_types = [\"txt\", \"md\"]\n");
    reveal_strlit(
        "\npreferred_provider = \"ollama\"\nfallback_provider = \"gemini\"\n\n[embedding.ollama]\nenabled = true\n",
    );
    reveal_strlit(
        "\"\nfile_types = [\"txt\", \"md\"]\n\n[telegram]\nenabled = false\nbot_token = \"PASTE_TELEGRAM_BOT_TOKEN_HERE\"\nadmin_user_ids = [123456789]\nallowed_user_ids = [123456789]\naudit_log_path = \"",
    );
    reveal_strlit(
        "\"\nwebhook_secret_token = \"\"\nwebhook_trusted_proxy_cidrs = [\"127.0.0.1/32\", \"::1/128\"]\nmatch_accuracy = 0.35\n\n[embedding]\npreferred_provider = \"ollama\"\nfallback_provider = \"gemini\"\n\n[embedding.ollama]\nenabled = true\nbase_url = \"",
    );
    let one =
        "\"\nfile_types = [\"txt\", \"md\"]\n\n[telegram]\nenabled = false\nbot_token = \"PASTE_TELEGRAM_BOT_TOKEN_HERE\"\nadmin_user_ids = [123456789]\nallowed_user_ids = [123456789]\naudit_log_path = \""@;
    let two =
        "\"\nwebhook_secret_token = \"\"\nwebhook_trusted_proxy_cidrs = [\"127.0.0.1/32\", \"::1/128\"]\nmatch_accuracy = 0.35\n\n[embedding]\npreferred_provider = \"ollama\"\nfallback_provider = \"gemini\"\n\n[embedding.ollama]\nenabled = true\nbase_url = \""@;
    lemma_stands(one, "\nfile_types = [\"txt\", \"md\"]\n"@, 1);
    lemma_stands(one, "\n[telegram]\nenabled = false\n"@, 29);
    lemma_stands(two, "\nmatch_accuracy = 0.35\n"@, 85);
    lemma_stands(
        two,
        "\npreferred_provider = \"ollama\"\nfallback_provider = \"gemini\"\n\n[embedding.ollama]\nenabled = true\n"@,
        120,
    );
}

proof fn lemma_stands(s: Seq<char>, needle: Seq<char>, at: int)
    requires
        0 <= at,
        at + needle.len() <= s.len(),
        forall|i: int| 0 <= i < needle.len() ==> #[trigger] needle[i] == s[at + i],
    ensures
        occurs_in(s, needle),
{
    assert(s.subrange(at, at + needle.len()) =~= needle);
    assert(stands_at(s, needle, at));
}

/// The first configuration file shows every setting that depends on the machine behind its name.
pub proof fn law_first_file_shows_the_settings(config: AppConfig)
    ensures
        has_prefix(template(config), TEMPLATE_COMMENTS@),
        occurs_in(template(config), "watch_dir = \""@ + config.watch_dir@),
        occurs_in(template(config), "\"\ndatabase_path = \""@ + config.database_path@),
        occurs_in(template(config), "\"\nprocessed_dir = \""@ + config.processed_dir@),
        occurs_in(template(config), "\"\nchat_id = 0\nmode = \""@ + config.telegram.mode.text()),
        occurs_in(
            template(config),
            "\"\npoll_interval_secs = "@ + decimal(config.telegram.poll_interval_secs as nat),
        ),
        occurs_in(
            template(config),
            "\nwebhook_url = \"\"\nwebhook_bind_addr = \""@ + config.telegram.webhook_bind_addr@,
        ),
        occurs_in(template(config), "\"\nmodel = \""@ + config.embedding.ollama.model@),
        occurs_in(
            template(config),
            "\"\n\n[embedding.gemini]\nenabled = false\napi_key = \"PASTE_GEMINI_API_KEY_HERE\"\nmodel = \""@
                + config.embedding.gemini.model@,
        ),
        occurs_in(template(config), config.telegram.audit_log_path@),
        occurs_in(template(config), config.embedding.ollama.base_url@),
{
    broadcast use lemma_still_occurs;
    broadcast use lemma_occurs_behind;
    broadcast use lemma_occurs_at_the_end;

    let text = template(config);
    assert(text.take(TEMPLATE_COMMENTS@.len() as int) =~= TEMPLATE_COMMENTS@);
}

/// A configuration file that lacks nothing is left alone, and one that lacks an entry is not; a file
/// that cannot be read is not touched.
pub proof fn law_only_incomplete_files_are_filled_in(original: Seq<char>, defaults: Seq<char>)
    ensures
        parsed_toml(original) is Err ==> filled(original, defaults) is Err,
        parsed_toml(original) is Ok && parsed_toml(defaults) is Ok && covers(
            parsed_toml(original)->Ok_0,
            parsed_toml(defaults)->Ok_0,
        ) ==> filled(original, defaults) == Ok::<
            Option<(Seq<char>, Seq<Seq<char>>)>,
            ConfigTextErrorView,
        >(None),
        filled(original, defaults) matches Ok(Some(change)) ==> change.1.len() > 0 && written_toml(
            merged(parsed_toml(original)->Ok_0, parsed_toml(defaults)->Ok_0),
        ) == Ok::<Seq<char>, Seq<char>>(change.0),
{
    if parsed_toml(original) is Ok && parsed_toml(defaults) is Ok && covers(
        parsed_toml(original)->Ok_0,
        parsed_toml(defaults)->Ok_0,
    ) {
        law_merge_of_complete_adds_nothing(
            parsed_toml(original)->Ok_0,
            parsed_toml(defaults)->Ok_0,
            ""@,
        );
    }
}

/// The change keeps the lines in their order: where a chat was set its line alone is another, where
/// none was one line is added, and a section that is added stands behind everything else, with an
/// empty line before it.
pub proof fn law_change_keeps_the_order_of_lines(all: Seq<Seq<char>>, chat_id: int)
    ensures
        ({
            let n = all.len() as int;
            let after = lines_with_chat(all, chat_id);
            &&& has_telegram(all, n) && has_chat(all, n) ==> after.len() == n && forall|i: int|
                0 <= i < n && !sets_chat(all, i) ==> #[trigger] after[i] == all[i]
            &&& has_telegram(all, n) && !has_chat(all, n) ==> after.len() == n + 1 && exists|at: int|
                0 <= at < after.len() && #[trigger] after[at] == chat_line(chat_id)
                    && after.take(at) + after.skip(at + 1) == all
            &&& !has_telegram(all, n) ==> all.is_prefix_of(after) && after.contains("[telegram]"@)
                && after.last() == chat_line(chat_id)
            &&& !has_telegram(all, n) && n > 0 && all[n - 1].len() > 0 ==> after[n].len() == 0
                && after[n + 1] == "[telegram]"@
        }),
{
    let n = all.len() as int;
    let after = lines_with_chat(all, chat_id);
    if !has_telegram(all, n) {
        assert(after.take(n) =~= all);
        reveal_strlit("");
        let last = after.len() - 1;
        assert(after[last - 3] == "[telegram]"@);
    } else if !has_chat(all, n) {
        let at = telegram_end(all, n);
        lemma_end(all, n);
        assert(after[at] == chat_line(chat_id));
        assert(after.take(at) + after.skip(at + 1) =~= all);
    }
}

} // verus!
