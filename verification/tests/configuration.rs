use note_embedding::config::{
    default_config_path_in, expand_tilde, resolve_config_path_in, resolve_path,
    resolve_processed_dir, AppConfig, ConfigFacts, ConfigPathError, TelegramMode,
};
use note_embedding::config_text::{
    config_file_directory, config_template, create_default_config_if_missing,
    populate_missing_config_fields, render_default_config_template, set_telegram_value,
    update_telegram_config, write_telegram_allowed_user_ids, write_telegram_chat_id,
    write_telegram_text, ConfigTextError,
};
use note_embedding::prompts::{
    filled_settings, generate_webhook_secret_token, parse_yes_no, read_secret_token,
    read_webhook_url, webhook_gaps, yes_no_question, WebhookGaps, EMPTY_VALUE, NOT_A_TOKEN,
    NOT_HTTPS,
};
use note_embedding::service::{
    command_failure, handle_service_action, plan_executable_link, render_unit_file, systemd_quote,
    LinkStep, ServiceAction, ServicePaths, ServicePlace, ServiceStep,
};
use note_embedding::toml_tree::{merge_missing_toml, TomlNode};
use note_embedding::validation::{
    is_blank_or_placeholder, is_valid_secret_token, normalize_file_type, sorted_unique,
    validate_provider_name,
};

fn s(text: &str) -> String {
    text.to_string()
}

fn config() -> AppConfig {
    AppConfig::default_in(Some("/home/me"), Some("/data"))
}

fn facts() -> ConfigFacts {
    ConfigFacts {
        watch_dir_exists: true,
        watch_dir_is_dir: true,
        processed_dir_exists: false,
        processed_dir_is_dir: false,
        webhook_bind_addr_parses: true,
    }
}

#[test]
fn defaults_follow_the_directories() {
    let config = config();
    assert_eq!(config.watch_dir, "/home/me/Documents");
    assert_eq!(config.processed_dir, "/home/me/Documents/processed");
    assert_eq!(config.database_path, "/data/embeddings.db");
    assert_eq!(config.telegram.audit_log_path, "/data/telegram-activity.log");
    assert_eq!(config.telegram.match_accuracy, 0.35f32.to_bits());
    assert_eq!(config.telegram.mode.as_str(), "polling");
    assert_eq!(TelegramMode::Webhook.as_str(), "webhook");
    assert!(config.is_provider_enabled("ollama"));
    assert!(!config.is_provider_enabled("gemini"));
    let bare = AppConfig::default_in(None, None);
    assert_eq!(bare.watch_dir, "./Documents");
    assert_eq!(bare.database_path, "embeddings.db");
}

#[test]
fn resolves_paths() {
    assert_eq!(expand_tilde("~", Some("/home/me")), "/home/me");
    assert_eq!(expand_tilde("~/x", Some("/home/me")), "/home/me/x");
    assert_eq!(expand_tilde("~x", Some("/home/me")), "~x");
    assert_eq!(expand_tilde("~/x", None), "~/x");
    assert_eq!(resolve_path("/etc", "a", None), "/etc/a");
    assert_eq!(resolve_path("/etc", "/a", None), "/a");
    assert_eq!(resolve_processed_dir("/w", "/c", "processed", None), "/w/processed");
    assert_eq!(resolve_processed_dir("/w", "/c", "x/y", None), "/c/x/y");
    assert_eq!(default_config_path_in(Some("/c")), Ok(s("/c/config")));
    assert_eq!(default_config_path_in(None), Err(ConfigPathError::NoProjectDirectories));
    assert_eq!(resolve_config_path_in(Some("~/k"), Some("/h"), None), Ok(s("/h/k")));
    assert_eq!(config_file_directory("/a/b/config"), "/a/b");
    assert!(note_embedding::config::resolve_config_path(Some("/x/y")).unwrap() == "/x/y");
    if let Ok(path) = note_embedding::config::default_config_path() {
        assert!(path.ends_with("/config"));
        assert!(path.contains("note-embedding"));
    }
}

#[test]
fn loads_in_normal_form() {
    let created = AppConfig::load_or_create("/c/config", None);
    assert!(created.created);
    assert_eq!(created.path, "/c/config");
    let mut read = config();
    read.watch_dir = s("notes");
    read.processed_dir = s("processed");
    read.file_types = vec![s(" .TXT "), s("."), s("md")];
    read.embedding.preferred_provider = s(" Ollama ");
    read.telegram.admin_user_ids = vec![3, 1, 3];
    let loaded = AppConfig::load_or_create("/c/config", Some(read));
    assert!(!loaded.created);
    assert_eq!(loaded.data.watch_dir, "/c/notes");
    assert_eq!(loaded.data.processed_dir, "/c/notes/processed");
    assert_eq!(loaded.data.file_types, vec![s("txt"), s("md")]);
    assert_eq!(loaded.data.embedding.preferred_provider, "ollama");
    assert_eq!(loaded.data.telegram.admin_user_ids, vec![1, 3]);
    assert_eq!(normalize_file_type("..Md"), "md");
    assert_eq!(sorted_unique(&vec![5, 2, 5, 1]), vec![1, 2, 5]);
}

#[test]
fn validates() {
    assert_eq!(config().validate(facts()), Ok(()));
    let mut broken = config();
    broken.file_types = vec![];
    broken.telegram.poll_interval_secs = 0;
    broken.telegram.match_accuracy = 1.5f32.to_bits();
    broken.embedding.preferred_provider = s("x");
    let mut nowhere = facts();
    nowhere.watch_dir_exists = false;
    nowhere.watch_dir_is_dir = false;
    assert_eq!(
        broken.validate(nowhere).unwrap_err().split('\n').collect::<Vec<_>>(),
        vec![
            "watch_dir does not exist: /home/me/Documents",
            "watch_dir is not a directory: /home/me/Documents",
            "file_types must contain at least one extension",
            "telegram.poll_interval_secs must be greater than 0",
            "telegram.match_accuracy must be between 0.0 and 1.0",
            "embedding.preferred_provider must be either 'ollama' or 'gemini'",
            "embedding.preferred_provider must be either 'ollama' or 'gemini'",
        ]
    );
}

#[test]
fn validates_the_webhook() {
    let mut config = config();
    config.telegram.enabled = true;
    config.telegram.mode = TelegramMode::Webhook;
    config.telegram.webhook_trusted_proxy_cidrs = vec![s("bad")];
    config.telegram.admin_user_ids = vec![0];
    let mut facts = facts();
    facts.webhook_bind_addr_parses = false;
    let errors = config.validate(facts).unwrap_err();
    for part in [
        "telegram.enabled is true but telegram.bot_token is empty",
        "telegram.mode is webhook but telegram.webhook_url is empty",
        "telegram.webhook_bind_addr must be a valid socket address like 127.0.0.1:8080",
        "telegram.mode is webhook but telegram.webhook_secret_token is empty",
        "bad",
        "telegram.admin_user_ids must contain only positive Telegram user IDs",
    ] {
        assert!(errors.contains(part), "{part} in {errors}");
    }
    config.telegram.bot_token = s("t");
    config.telegram.webhook_url = s("https://x");
    config.telegram.webhook_secret_token = s("a_b-C9");
    config.telegram.webhook_trusted_proxy_cidrs = vec![s("127.0.0.1/32")];
    config.telegram.admin_user_ids = vec![1];
    facts.webhook_bind_addr_parses = true;
    assert_eq!(config.validate(facts), Ok(()));
}

#[test]
fn validates_single_values() {
    assert!(is_blank_or_placeholder("  "));
    assert!(is_blank_or_placeholder(" PASTE_X"));
    assert!(!is_blank_or_placeholder("x"));
    assert!(is_valid_secret_token("aZ0_-"));
    assert!(!is_valid_secret_token("a b"));
    assert_eq!(validate_provider_name("f", "ollama"), Ok(()));
    assert_eq!(
        validate_provider_name("f", "x"),
        Err(s("f must be either 'ollama' or 'gemini'"))
    );
    assert_eq!(
        config().validate_provider_config("f", "gemini"),
        Err(s("f is gemini but embedding.gemini.enabled is false"))
    );
}

#[test]
fn tells_documents_from_processed_ones() {
    let config = config();
    assert!(config.supports_path("/home/me/Documents/a.MD"));
    assert!(!config.supports_path("/home/me/Documents/a.pdf"));
    assert!(!config.supports_path("/home/me/Documents/processed/a.md"));
    assert!(config.is_processed_path("/home/me/Documents/processed/a.md"));
}

#[test]
fn the_template_is_a_configuration() {
    let text = config_template(&config());
    assert!(text.starts_with("# note-embedding configuration\n# First run created this file.\n"));
    assert!(text.contains("\n\nwatch_dir = \"/home/me/Documents\"\ndatabase_path = \"/data/embeddings.db\"\n"));
    assert!(text.contains("\nmode = \"polling\"\npoll_interval_secs = 5\nwebhook_url = \"\"\n"));
    assert!(text.contains("\nmatch_accuracy = 0.35\n"));
    assert!(text.ends_with("api_key = \"PASTE_GEMINI_API_KEY_HERE\"\nmodel = \"text-embedding-004\"\n"));
    let parsed: toml::Value = toml::from_str(&text).unwrap();
    assert_eq!(parsed["telegram"]["webhook_bind_addr"].as_str(), Some("127.0.0.1:8080"));
    assert_eq!(parsed["embedding"]["ollama"]["model"].as_str(), Some("nomic-embed-text"));
    assert!(create_default_config_if_missing(true).is_none());
    assert_eq!(create_default_config_if_missing(false), Some(render_default_config_template()));
}

#[test]
fn fills_in_missing_settings() {
    let original = "a = 1\n\n[telegram]\nenabled = true\n";
    let defaults = "a = 2\nb = 0.5\nt = 1979-05-27\n\n[telegram]\nenabled = false\nmode = \"polling\"\n\n[other]\nx = [1, 2]\n";
    let filled = populate_missing_config_fields(original, defaults).unwrap().unwrap();
    assert_eq!(filled.names, vec![s("b"), s("other"), s("t"), s("telegram.mode")]);
    let parsed: toml::Value = toml::from_str(&filled.text).unwrap();
    assert_eq!(parsed["a"].as_integer(), Some(1));
    assert_eq!(parsed["b"].as_float(), Some(0.5));
    assert_eq!(parsed["t"].as_datetime().unwrap().to_string(), "1979-05-27");
    assert_eq!(parsed["telegram"]["enabled"].as_bool(), Some(true));
    assert_eq!(parsed["telegram"]["mode"].as_str(), Some("polling"));
    assert_eq!(parsed["other"]["x"][1].as_integer(), Some(2));
    assert!(populate_missing_config_fields(&filled.text, defaults).unwrap().is_none());
    assert!(matches!(
        populate_missing_config_fields("a = ", defaults),
        Err(ConfigTextError::Unreadable(_))
    ));
    assert!(matches!(
        populate_missing_config_fields(original, "= 1"),
        Err(ConfigTextError::DefaultsUnreadable(_))
    ));
}

#[test]
fn merges_trees() {
    let current = TomlNode::Table(vec![(s("a"), TomlNode::Integer(1)), (s("t"), TomlNode::Table(vec![]))]);
    let defaults = TomlNode::Table(vec![
        (s("a"), TomlNode::Table(vec![(s("x"), TomlNode::Boolean(true))])),
        (s("t"), TomlNode::Table(vec![(s("y"), TomlNode::Text(s("z")))])),
    ]);
    let mut names = vec![];
    let merged = merge_missing_toml(current, &defaults, "", &mut names);
    assert_eq!(names, vec![s("t.y")]);
    assert_eq!(
        format!("{merged:?}"),
        "Table([(\"a\", Integer(1)), (\"t\", Table([(\"y\", Text(\"z\"))]))])"
    );
    let mut again = vec![];
    let second = merge_missing_toml(merged, &defaults, "", &mut again);
    assert!(again.is_empty());
    assert!(format!("{second:?}").contains("Text(\"z\")"));
}

#[test]
fn sets_values_for_telegram() {
    let text = write_telegram_allowed_user_ids("[telegram]\nenabled = true\n", &vec![4, 9]).unwrap();
    let parsed: toml::Value = toml::from_str(&text).unwrap();
    assert_eq!(parsed["telegram"]["allowed_user_ids"][1].as_integer(), Some(9));
    assert_eq!(parsed["telegram"]["enabled"].as_bool(), Some(true));
    let text = write_telegram_text("x = 1\n", "webhook_url", "https://y").unwrap();
    let parsed: toml::Value = toml::from_str(&text).unwrap();
    assert_eq!(parsed["telegram"]["webhook_url"].as_str(), Some("https://y"));
    assert_eq!(parsed["x"].as_integer(), Some(1));
    assert!(matches!(
        write_telegram_text("telegram = 5\n", "a", "b"),
        Err(ConfigTextError::TelegramNotTable)
    ));
    assert!(matches!(write_telegram_text("= 5\n", "a", "b"), Err(ConfigTextError::Unreadable(_))));
    assert!(matches!(
        set_telegram_value(TomlNode::Integer(1), "a", TomlNode::Integer(2)),
        Err(ConfigTextError::RootNotTable)
    ));
    assert!(matches!(
        update_telegram_config("", "a", TomlNode::Float(s("not a number"))),
        Err(ConfigTextError::Unwritable(_))
    ));
}

#[test]
fn sets_the_chat() {
    assert_eq!(
        write_telegram_chat_id("a = 1\n[telegram]\n chat_id = 0\n[x]\nchat_id = 3\n", -7),
        "a = 1\n[telegram]\nchat_id = -7\n[x]\nchat_id = 3\n"
    );
    assert_eq!(
        write_telegram_chat_id("[telegram]\nenabled = true\n[x]\n", 7),
        "[telegram]\nenabled = true\nchat_id = 7\n[x]\n"
    );
    assert_eq!(write_telegram_chat_id("[telegram]", 7), "[telegram]\nchat_id = 7\n");
    assert_eq!(
        write_telegram_chat_id("a = 1", 7),
        "a = 1\n\n[telegram]\nenabled = false\nbot_token = \"\"\nchat_id = 7\n"
    );
    assert_eq!(
        write_telegram_chat_id("", 7),
        "[telegram]\nenabled = false\nbot_token = \"\"\nchat_id = 7\n"
    );
}

#[test]
fn asks_and_understands() {
    assert_eq!(yes_no_question("Go?", true), "Go? [Y/n]: ");
    assert_eq!(yes_no_question("Go?", false), "Go? [y/N]: ");
    assert_eq!(parse_yes_no(" \n", false), Some(false));
    assert_eq!(parse_yes_no(" YES\n", false), Some(true));
    assert_eq!(parse_yes_no("n", true), Some(false));
    assert_eq!(parse_yes_no("maybe", true), None);
    assert_eq!(read_webhook_url(" https://a \n"), Ok(s("https://a")));
    assert_eq!(read_webhook_url("http://a"), Err(NOT_HTTPS));
    assert_eq!(read_webhook_url(" "), Err(EMPTY_VALUE));
    assert_eq!(read_secret_token("abc_1\n"), Ok(s("abc_1")));
    assert_eq!(read_secret_token("a b"), Err(NOT_A_TOKEN));
    assert_eq!(read_secret_token(""), Err(EMPTY_VALUE));
}

#[test]
fn generates_valid_tokens() {
    let token = generate_webhook_secret_token();
    assert_eq!(token.len(), 48);
    assert!(token.chars().all(|c| c.is_ascii_alphanumeric()));
    assert!(is_valid_secret_token(&token));
    assert_ne!(token, generate_webhook_secret_token());
}

#[test]
fn finds_gaps_in_the_webhook_settings() {
    let mut telegram = config().telegram;
    assert_eq!(webhook_gaps(&telegram), WebhookGaps { secret_token: false, url: false });
    telegram.enabled = true;
    telegram.mode = TelegramMode::Webhook;
    assert_eq!(webhook_gaps(&telegram), WebhookGaps { secret_token: true, url: true });
    telegram.webhook_url = s("https://x");
    telegram.webhook_secret_token = s("a b");
    let gaps = webhook_gaps(&telegram);
    assert_eq!(gaps, WebhookGaps { secret_token: true, url: false });
    assert_eq!(filled_settings(gaps), "telegram.webhook_secret_token");
    assert_eq!(
        filled_settings(WebhookGaps { secret_token: true, url: true }),
        "telegram.webhook_secret_token, telegram.webhook_url"
    );
}

fn outline(action: ServiceAction) -> Vec<String> {
    handle_service_action(action)
        .iter()
        .map(|step| match step {
            ServiceStep::Run { command, args } => format!("{command} {}", args.join(" ")),
            ServiceStep::TryRun { command, args } => format!("try {command} {}", args.join(" ")),
            ServiceStep::LoadConfig { again } => format!("load ({again})"),
            ServiceStep::Report { text, subject } => format!("{text}{subject}"),
            other => format!("{other:?}"),
        })
        .collect()
}

#[test]
fn service_actions_have_their_steps() {
    assert_eq!(
        outline(ServiceAction::Start),
        vec![
            "RequireSystemd",
            "load (note-embedding --service start)",
            "InstallFiles",
            "systemctl --user daemon-reload",
            "systemctl --user enable --now note-embedding.service",
            "Started user service: note-embedding.service",
        ]
    );
    assert_eq!(
        outline(ServiceAction::Restart)[3..6],
        [
            "systemctl --user daemon-reload",
            "systemctl --user enable note-embedding.service",
            "systemctl --user restart note-embedding.service",
        ]
    );
    assert_eq!(
        outline(ServiceAction::Status),
        vec!["RequireSystemd", "systemctl --user status --no-pager note-embedding.service"]
    );
    assert_eq!(
        outline(ServiceAction::Log)[1],
        "journalctl --user -u note-embedding.service -n 100 --no-pager"
    );
    assert_eq!(outline(ServiceAction::Stop)[1], "systemctl --user stop note-embedding.service");
    assert_eq!(
        outline(ServiceAction::Uninstall),
        vec![
            "DeleteWebhook",
            "try systemctl --user disable --now note-embedding.service",
            "try systemctl --user daemon-reload",
            "RemoveFile(Unit)",
            "RemoveLink(Executable)",
            "RemoveFile(Config)",
            "RemoveIfEmpty(ConfigDirectory)",
            "RemoveTree(DataDirectory)",
            "RemoveIfEmpty(SystemdDirectory)",
            "RemoveIfEmpty(ExecutableDirectory)",
            "Uninstalled user service assets for note-embedding",
        ]
    );
}

#[test]
fn the_service_has_its_places() {
    let paths = ServicePaths::resolve_in("/h", "/d", "/c/config", "/exe");
    assert_eq!(paths.place(ServicePlace::Unit), "/h/.config/systemd/user/note-embedding.service");
    assert_eq!(paths.place(ServicePlace::Executable), "/h/.local/bin/note-embedding");
    assert_eq!(paths.place(ServicePlace::ConfigDirectory), "/c");
    assert_eq!(paths.place(ServicePlace::DataDirectory), "/d");
    assert_eq!(paths.current_exe, "/exe");
    let unit = render_unit_file(&paths);
    assert!(unit.contains("\nExecStart=\"/h/.local/bin/note-embedding\"\nEnvironment=\"NOTE_EMBEDDING_CONFIG=/c/config\"\n"));
    assert!(unit.starts_with("[Unit]\nDescription=note-embedding background service\n"));
    assert!(unit.ends_with("\n\n[Install]\nWantedBy=default.target\n"));
    assert_eq!(systemd_quote("a\"b\\c"), "\"a\\\"b\\\\c\"");
    assert_eq!(
        command_failure("systemctl", &vec![s("--user"), s("x")], "exit status: 1"),
        "`systemctl --user x` exited with status exit status: 1"
    );
    if let Ok(found) = ServicePaths::resolve(Some("/c/config"), "/exe") {
        assert_eq!(found.config_path, "/c/config");
        assert_eq!(found.current_exe, "/exe");
        assert!(found.user_bin_path.ends_with("/.local/bin/note-embedding"));
    }
}

#[test]
fn replaces_only_links() {
    assert!(matches!(plan_executable_link("/l", false, false), LinkStep::Create));
    assert!(matches!(plan_executable_link("/l", true, true), LinkStep::Replace));
    assert!(matches!(plan_executable_link("/l", false, true), LinkStep::Replace));
    match plan_executable_link("/l", true, false) {
        LinkStep::Refuse(message) => assert_eq!(
            message,
            "/l already exists and is not a symlink; remove it manually or choose a different install path"
        ),
        other => panic!("{other:?}"),
    }
}

#[test]
fn last_chat_wins() {
    for text in ["", "a = 1", "[telegram]\r\n[x]\n", "[telegram]\nchat_id = 1\r", "\n\n"] {
        let once = write_telegram_chat_id(text, 8);
        assert_eq!(write_telegram_chat_id(&write_telegram_chat_id(text, -3), 8), once);
        assert_eq!(write_telegram_chat_id(&once, 8), once);
    }
    // Each change takes one carriage return away from the end of a line.
    let once = write_telegram_chat_id("x\r", 8);
    assert!(once.starts_with("x\r\n"));
    assert!(write_telegram_chat_id(&once, 8).starts_with("x\n"));
}

#[test]
fn accepts_only_valid_configurations() {
    let created = AppConfig::load_or_create("/c/config", None);
    let mut missing = facts();
    missing.watch_dir_exists = false;
    assert!(created.checked(missing).is_ok());
    let loaded = AppConfig::load_or_create("/c/config", Some(config()));
    let message = loaded.checked(missing).unwrap_err();
    assert!(message.contains("watch_dir does not exist"));
    let mut read = config();
    read.telegram.admin_user_ids = vec![3, 1, 3];
    let loaded = AppConfig::load_or_create("/c/config", Some(read)).checked(facts()).unwrap();
    assert_eq!(loaded.data.telegram.admin_user_ids, vec![1, 3]);
    assert!(!loaded.created);
}

#[test]
fn defaults_lie_in_the_directories_of_the_application() {
    let config = AppConfig::default();
    if config.database_path.contains('/') {
        assert!(config.database_path.contains("note-embedding"));
        assert!(config.telegram.audit_log_path.contains("note-embedding"));
    }
    if let Ok(path) = note_embedding::config::resolve_config_path(None) {
        assert!(path.contains("note-embedding"));
    }
    if let Ok(paths) = ServicePaths::resolve(Some("/c/config"), "/bin/x") {
        assert!(paths.data_dir.contains("note-embedding"));
    }
}

fn texts(value: &toml::Value) -> Vec<&str> {
    value.as_array().unwrap().iter().map(|item| item.as_str().unwrap()).collect()
}

#[test]
fn the_first_file_reads_back_as_the_defaults() {
    let defaults = config();
    let parsed: toml::Value = toml::from_str(&config_template(&defaults)).unwrap();
    assert_eq!(parsed["watch_dir"].as_str(), Some(defaults.watch_dir.as_str()));
    assert_eq!(parsed["database_path"].as_str(), Some(defaults.database_path.as_str()));
    assert_eq!(parsed["processed_dir"].as_str(), Some(defaults.processed_dir.as_str()));
    assert_eq!(texts(&parsed["file_types"]), defaults.file_types);
    let telegram = &parsed["telegram"];
    assert_eq!(telegram["enabled"].as_bool(), Some(false));
    assert!(is_blank_or_placeholder(telegram["bot_token"].as_str().unwrap()));
    for name in ["admin_user_ids", "allowed_user_ids"] {
        let ids = telegram[name].as_array().unwrap();
        assert_eq!(ids.len(), 1);
        assert_eq!(ids[0].as_integer(), Some(123456789));
    }
    let given = &defaults.telegram;
    assert_eq!(telegram["audit_log_path"].as_str(), Some(given.audit_log_path.as_str()));
    assert_eq!(telegram["chat_id"].as_integer(), Some(0));
    assert_eq!(telegram["mode"].as_str(), Some("polling"));
    assert_eq!(telegram["poll_interval_secs"].as_integer(), Some(5));
    assert_eq!(telegram["webhook_url"].as_str(), Some(""));
    assert_eq!(telegram["webhook_bind_addr"].as_str(), Some(given.webhook_bind_addr.as_str()));
    assert_eq!(telegram["webhook_secret_token"].as_str(), Some(""));
    assert_eq!(texts(&telegram["webhook_trusted_proxy_cidrs"]), given.webhook_trusted_proxy_cidrs);
    let accuracy = telegram["match_accuracy"].as_float().unwrap() as f32;
    assert_eq!(accuracy.to_bits(), given.match_accuracy);
    let embedding = &parsed["embedding"];
    let wanted = &defaults.embedding;
    assert_eq!(embedding["preferred_provider"].as_str(), Some(wanted.preferred_provider.as_str()));
    assert_eq!(embedding["fallback_provider"].as_str(), Some(wanted.fallback_provider.as_str()));
    assert_eq!(embedding["ollama"]["enabled"].as_bool(), Some(wanted.ollama.enabled));
    assert_eq!(embedding["ollama"]["base_url"].as_str(), Some(wanted.ollama.base_url.as_str()));
    assert_eq!(embedding["ollama"]["model"].as_str(), Some(wanted.ollama.model.as_str()));
    assert_eq!(embedding["gemini"]["enabled"].as_bool(), Some(wanted.gemini.enabled));
    assert!(is_blank_or_placeholder(embedding["gemini"]["api_key"].as_str().unwrap()));
    assert_eq!(embedding["gemini"]["model"].as_str(), Some(wanted.gemini.model.as_str()));
}

#[test]
fn other_numbers_are_written_as_the_crate_writes_them() {
    let original = "a = -nan\nb = nan\nc = -inf\nd = 1.0\ne = -0.0\nf = 0.1\n";
    let text = write_telegram_text(original, "bot_token", "t").unwrap();
    let value: toml::Value = toml::from_str(original).unwrap();
    let written = toml::to_string_pretty(&value).unwrap();
    assert_eq!(written, "a = nan\nb = nan\nc = -inf\nd = 1.0\ne = -0.0\nf = 0.1\n");
    assert!(text.starts_with(&written));
}

#[test]
fn application_name_is_a_whole_component() {
    if let Ok(path) = note_embedding::config::default_config_path() {
        assert!(path.ends_with("/note-embedding/config"));
    }
}
