use note_embedding::config::{AppConfig, LoadedConfig, TelegramMode};
use note_embedding::discovery::{
    begin_deletion, begin_discovery, candidate_line, choose_chat, collect_chat_candidates,
    deletion_problem, discovery_problem, format_chat_title, read_selection, ChatChoice, ChatInfo,
    ChatSighting, ChatSource, CommandStart, TelegramChatCandidate,
};
use note_embedding::doctor::{
    address_available, begin_doctor, cloudflare_loaded, config_created_check, config_error_fix,
    doctor_summary, doctor_verdict, plan_doctor, ready_at, report_check, run_check, sample_generated,
    telegram_found, trusted_proxies_read, DoctorCheck, DoctorStart, DoctorStatus, PlannedCheck, Probe,
};
use note_embedding::documents::{
    accepts_submission, begin_destination, classify_file, destination_candidate,
    destination_error, document_record, forwarded_status, is_forwardable_pdf, next_destination,
    next_document_step, next_move_step, pdf_caption, pdf_record, pdf_skip_notice, plan_pdf,
    plan_sized_pdf, processed_message, should_watch_path, summarize, telegram_file_url,
    Destination, DestinationStep, DocumentStep, FileKind, MoveStep, PdfStep,
    PDF_EMPTY, PDF_FORWARDED, PDF_FORWARD_FAILED, PDF_UPLOADING,
};
use note_embedding::embedding::{
    check_status, embedding_request, embedding_status, fallback_failure, fallback_status,
    gemini_vector, ollama_vector, plan_fallback, probe_request, provider_is_reachable,
    request_failure, FallbackPlan,
};

fn s(text: &str) -> String {
    text.to_string()
}

fn config() -> AppConfig {
    AppConfig::default_in(Some("/home/me"), Some("/data"))
}

// Files

#[test]
fn watches_documents_and_pdf_files() {
    let config = config();
    assert!(should_watch_path(&config, "/home/me/Documents/a.txt"));
    assert!(should_watch_path(&config, "/home/me/Documents/a.Pdf"));
    assert!(!should_watch_path(&config, "/home/me/Documents/a.png"));
    assert!(!should_watch_path(&config, "/home/me/Documents/processed/a.pdf"));
    assert_eq!(classify_file(&config, "/x/a.pdf"), FileKind::Pdf);
    assert_eq!(classify_file(&config, "/x/a.md"), FileKind::Document);
    assert_eq!(classify_file(&config, "/x/a"), FileKind::Other);
    assert_eq!(summarize("äbc", 2), "äb");
}

fn tried(source: &str, attempt: usize) -> String {
    match destination_candidate("/p", source, attempt) {
        Destination::Try(path) => path,
        other => panic!("{other:?}"),
    }
}

#[test]
fn tries_numbered_names() {
    assert_eq!(tried("/w/a.txt", 0), "/p/a.txt");
    assert_eq!(tried("/w/a.txt", 1), "/p/a-1.txt");
    assert_eq!(tried("/w/a", 9_999), "/p/a-9999");
    assert!(matches!(destination_candidate("/p", "/w/a", 10_000), Destination::Exhausted));
    assert!(matches!(destination_candidate("/p", "/w/..", 0), Destination::NoName));
    assert_eq!(
        destination_error("/p", &Destination::Exhausted),
        "failed to generate a unique destination file name in /p"
    );
    assert_eq!(
        destination_error("/p", &Destination::NoName),
        "source file does not have a file name"
    );
}

fn first_free(source: &str, taken: &[&str]) -> Result<String, String> {
    let mut step = begin_destination("/p", source);
    loop {
        let is_taken = match &step {
            DestinationStep::Look { path, .. } => taken.contains(&path.as_str()),
            DestinationStep::Take(path) => return Ok(path.clone()),
            DestinationStep::Fail(message) => return Err(message.clone()),
        };
        step = next_destination("/p", source, step, is_taken);
    }
}

#[test]
fn takes_the_first_free_name() {
    assert_eq!(first_free("/w/a.txt", &[]), Ok(s("/p/a.txt")));
    assert_eq!(first_free("/w/a.txt", &["/p/a.txt", "/p/a-2.txt"]), Ok(s("/p/a-1.txt")));
    assert_eq!(
        first_free("/w/a.txt", &["/p/a.txt", "/p/a-1.txt", "/p/a-2.txt"]),
        Ok(s("/p/a-3.txt"))
    );
    assert_eq!(first_free("/w/..", &[]), Err(s("source file does not have a file name")));
    let mut step = begin_destination("/p", "/w/a");
    for _ in 0..10_000 {
        assert!(matches!(step, DestinationStep::Look { .. }));
        step = next_destination("/p", "/w/a", step, true);
    }
    match step {
        DestinationStep::Fail(message) => {
            assert_eq!(message, "failed to generate a unique destination file name in /p")
        }
        other => panic!("{other:?}"),
    }
}

#[test]
fn moves_by_renaming_or_copying() {
    assert_eq!(next_move_step(MoveStep::Rename, true), MoveStep::Moved);
    let copy = next_move_step(MoveStep::Rename, false);
    assert_eq!(copy, MoveStep::Copy);
    assert_eq!(next_move_step(copy, false), MoveStep::CopyFailed);
    let remove = next_move_step(copy, true);
    assert_eq!(remove, MoveStep::RemoveOriginal);
    assert_eq!(next_move_step(remove, true), MoveStep::Moved);
    assert_eq!(next_move_step(remove, false), MoveStep::RemoveFailed);
}

#[test]
fn moves_only_after_embedding_and_row() {
    let mut step = DocumentStep::Read;
    let mut seen = vec![];
    while step != DocumentStep::Done {
        seen.push(step);
        let failed = if step == DocumentStep::MoveFile {
            DocumentStep::TakeBackRow
        } else {
            DocumentStep::Failed
        };
        assert_eq!(next_document_step(step, false), failed);
        step = next_document_step(step, true);
    }
    assert_eq!(
        seen,
        vec![
            DocumentStep::Read,
            DocumentStep::Embed,
            DocumentStep::ChooseDestination,
            DocumentStep::WriteRow,
            DocumentStep::Commit,
            DocumentStep::MoveFile,
        ]
    );
    assert_eq!(next_document_step(DocumentStep::Failed, true), DocumentStep::Failed);
    assert_eq!(next_document_step(DocumentStep::TakeBackRow, true), DocumentStep::Failed);
    assert_eq!(next_document_step(DocumentStep::TakeBackRow, false), DocumentStep::Failed);
}

#[test]
fn records_documents() {
    let record = document_record("/p/a.txt", &"x".repeat(150), "ollama", 3, "[1]", "ok");
    assert_eq!(record.summary, "x".repeat(100));
    assert_eq!((record.dimensions, record.provider.as_str()), (3, "ollama"));
    assert_eq!(
        processed_message("/p/a.txt", "ollama", "ok", 3, "sum"),
        "Processed document:\nFile: a.txt\nMoved to: /p/a.txt\nEmbedding provider: ollama\nEmbedding result: ok\nVector dimensions: 3\nSummary: sum"
    );
}

#[test]
fn forwards_pdf_files_once() {
    let mut config = config();
    let path = "/home/me/Documents/a.pdf";
    assert_eq!(plan_pdf(&config, path, None), PdfStep::ReportUnconfigured);
    config.telegram.enabled = true;
    config.telegram.chat_id = 5;
    assert_eq!(plan_pdf(&config, path, None), PdfStep::Inspect);
    assert_eq!(plan_pdf(&config, path, Some(PDF_FORWARD_FAILED)), PdfStep::Inspect);
    for settled in [PDF_FORWARDED, PDF_UPLOADING, PDF_EMPTY] {
        assert_eq!(plan_pdf(&config, path, Some(settled)), PdfStep::Skip);
    }
    assert!(!is_forwardable_pdf(&config, "/home/me/Documents/processed/a.pdf"));
    assert_eq!(plan_pdf(&config, "/home/me/Documents/processed/a.pdf", None), PdfStep::Skip);
    assert_eq!(plan_sized_pdf(0), PdfStep::RecordEmpty);
    assert_eq!(plan_sized_pdf(1), PdfStep::Forward);
    assert_eq!(forwarded_status(true), PDF_FORWARDED);
    assert_eq!(forwarded_status(false), PDF_FORWARD_FAILED);
    let record = pdf_record(path, PDF_UPLOADING);
    assert_eq!((record.provider.as_str(), record.status.as_str()), ("telegram", PDF_UPLOADING));
    assert_eq!(pdf_caption(path), "New PDF: a.pdf");
    assert_eq!(pdf_caption("/"), "New PDF");
    assert_eq!(
        pdf_skip_notice("a", true),
        "Skipping PDF upload for a because the file is empty"
    );
    assert_eq!(
        pdf_skip_notice("a", false),
        "Skipping PDF upload for a because Telegram proactive notifications are not configured"
    );
}

#[test]
fn accepts_text_files() {
    assert!(accepts_submission("a.TXT"));
    assert!(accepts_submission("a.md"));
    assert!(!accepts_submission("a.pdf"));
    assert!(!accepts_submission("txt"));
    assert_eq!(telegram_file_url("t", "d/f"), "https://api.telegram.org/file/bott/d/f");
}

// Embeddings

#[test]
fn asks_providers() {
    let mut config = config();
    config.embedding.ollama.base_url = s("http://h:1//");
    let request = embedding_request(&config, "ollama", "a \"b\"\n\u{1}\u{7f}é\\").unwrap();
    assert_eq!(request.url, "http://h:1/api/embed");
    assert_eq!(
        request.body.unwrap(),
        "{\"input\":\"a \\\"b\\\"\\n\\u0001\u{7f}é\\\\\",\"model\":\"nomic-embed-text\"}"
    );
    assert_eq!(request.key, None);
    config.embedding.gemini.api_key = s("k");
    let request = embedding_request(&config, "gemini", "x\u{1f}\t\u{8}\u{c}\r").unwrap();
    assert_eq!(
        request.url,
        "https://generativelanguage.googleapis.com/v1beta/models/text-embedding-004:embedContent"
    );
    assert_eq!(request.key, Some(s("k")));
    assert_eq!(
        request.body.unwrap(),
        "{\"content\":{\"parts\":[{\"text\":\"x\\u001f\\t\\b\\f\\r\"}]}}"
    );
    assert_eq!(embedding_request(&config, "x", "y").unwrap_err(), "unsupported provider x");
    assert_eq!(probe_request(&config, "ollama").unwrap().url, "http://h:1/api/tags");
    assert_eq!(
        probe_request(&config, "gemini").unwrap().url,
        "https://generativelanguage.googleapis.com/v1beta/models/text-embedding-004"
    );
    assert_eq!(probe_request(&config, "x").unwrap_err(), "unsupported provider x");
}

#[test]
fn request_bodies_are_json() {
    let config = config();
    let text = "quote \" slash \\ \u{0}\u{1f} line\n";
    let body = embedding_request(&config, "ollama", text).unwrap().body.unwrap();
    let parsed: serde_json::Value = serde_json::from_str(&body).unwrap();
    assert_eq!(parsed["input"].as_str(), Some(text));
    assert_eq!(parsed["model"].as_str(), Some("nomic-embed-text"));
    let body = embedding_request(&config, "gemini", text).unwrap().body.unwrap();
    let parsed: serde_json::Value = serde_json::from_str(&body).unwrap();
    assert_eq!(parsed["content"]["parts"][0]["text"].as_str(), Some(text));
}

#[test]
fn reads_replies() {
    assert_eq!(check_status("ollama", true, 200), Ok(()));
    assert_eq!(check_status("ollama", true, 500), Err(s("Ollama returned HTTP 500")));
    assert_eq!(check_status("gemini", false, 404), Err(s("Gemini embed returned HTTP 404")));
    assert_eq!(ollama_vector(vec![1], vec![vec![2]]), Ok(vec![1]));
    assert_eq!(ollama_vector(vec![], vec![vec![2], vec![3]]), Ok(vec![2]));
    assert_eq!(
        ollama_vector::<u8>(vec![], vec![vec![], vec![3]]),
        Err(s("Ollama embedding response did not contain a vector"))
    );
    assert_eq!(gemini_vector(vec![1]), Ok(vec![1]));
    assert_eq!(
        gemini_vector::<u8>(vec![]),
        Err(s("Gemini embedding response did not contain a vector"))
    );
    assert_eq!(
        provider_is_reachable(&config(), "ollama"),
        "reachable at http://127.0.0.1:11434 using model nomic-embed-text"
    );
    assert_eq!(
        provider_is_reachable(&config(), "gemini"),
        "model text-embedding-004 is accessible"
    );
    assert_eq!(
        request_failure(&config(), "ollama", false, "u"),
        "failed to request Ollama embeddings from u"
    );
    assert_eq!(request_failure(&config(), "ollama", true, "u"), "failed to reach Ollama /api/tags");
    assert_eq!(
        request_failure(&config(), "gemini", true, "u"),
        "failed to query Gemini model text-embedding-004"
    );
    assert_eq!(
        request_failure(&config(), "gemini", false, "u"),
        "failed to request Gemini embedding from model text-embedding-004"
    );
}

#[test]
fn falls_back_to_the_other_provider() {
    let mut config = config();
    match plan_fallback(&config, "down") {
        FallbackPlan::GiveUp(message) => {
            assert_eq!(message, "primary ollama failed (down); fallback disabled")
        }
        other => panic!("{other:?}"),
    }
    config.embedding.gemini.enabled = true;
    match plan_fallback(&config, "down") {
        FallbackPlan::Ask(provider) => assert_eq!(provider, "gemini"),
        other => panic!("{other:?}"),
    }
    assert_eq!(embedding_status("ollama", 7), "embedding generated via ollama (7 dimensions)");
    assert_eq!(
        fallback_failure(&config, "down"),
        "primary ollama failed (down); fallback gemini also failed"
    );
    assert_eq!(
        fallback_status(&config, "down", 7),
        "primary ollama failed (down); embedding generated via fallback gemini (7 dimensions)"
    );
}

// The self-test

fn names(plan: &Vec<PlannedCheck>) -> Vec<String> {
    plan.iter()
        .map(|check| match check {
            PlannedCheck::Known(known) => known.name.clone(),
            PlannedCheck::Try { name, .. } => format!("?{name}"),
        })
        .collect()
}

#[test]
fn plans_the_checks() {
    let mut config = config();
    let plan = plan_doctor(&config, "/c", &vec![], false);
    assert_eq!(
        names(&plan),
        vec![
            "config",
            "watch_dir",
            "file_types",
            "?processed_dir",
            "?database",
            "?watcher",
            "?embedding.primary",
            "embedding.fallback",
            "telegram",
            "?embedding.result",
        ]
    );
    config.telegram.enabled = true;
    config.telegram.mode = TelegramMode::Webhook;
    config.embedding.gemini.enabled = true;
    let plan = plan_doctor(&config, "/c", &vec![s("a"), s("b.c")], true);
    assert_eq!(
        names(&plan),
        vec![
            "config",
            "config.autofill",
            "watch_dir",
            "file_types",
            "?processed_dir",
            "?database",
            "?watcher",
            "?embedding.primary",
            "?embedding.fallback",
            "?telegram",
            "telegram.mode",
            "telegram.access",
            "telegram.webhook",
            "?telegram.webhook.bind",
            "?telegram.webhook.cloudflare",
            "?telegram.webhook.trusted_proxy_cidrs",
            "telegram.webhook_secret_token",
            "telegram.webhook.audit",
            "telegram.notifications",
            "?embedding.result",
        ]
    );
    match &plan[1] {
        PlannedCheck::Known(check) => {
            assert_eq!(check.detail, "added missing config field(s): a, b.c")
        }
        other => panic!("{other:?}"),
    }
    match &plan[15] {
        PlannedCheck::Try { probe, fix, .. } => {
            assert_eq!(*probe, Probe::TrustedProxies);
            assert_eq!(
                fix,
                "Set \u{1b}[1m\u{1b}[35mtelegram.webhook_trusted_proxy_cidrs\u{1b}[0m in /c to only loopback or specific reverse proxies you control."
            );
        }
        other => panic!("{other:?}"),
    }
}

#[test]
fn reports_checks() {
    let good = run_check("a", "fix it", Ok(s("fine\nreally")));
    assert_eq!(report_check(&good, false), vec![s("[ok] a: fine"), s("  really")]);
    let bad = run_check("b", "fix it", Err(s("")));
    assert_eq!(report_check(&bad, false), vec![s("[fail] b:"), s("  [info] fix it")]);
    let doubtful = DoctorCheck::warn("c", s("hm"), s("look"));
    assert_eq!(doubtful.status, DoctorStatus::Warn);
    let checks = vec![good, bad, doubtful];
    assert_eq!(
        doctor_summary(&checks, false),
        "Doctor summary: 1 ok, 1 warning(s), 1 failure(s)"
    );
    assert_eq!(doctor_verdict(&checks), Err(s("doctor found 1 failing check(s)")));
    assert_eq!(doctor_verdict(&vec![DoctorCheck::ok("a", s("b"))]), Ok(()));
    assert_eq!(
        config_created_check("/c").fix.unwrap(),
        "Edit /c, fill in watch_dir, embedding providers, and optional Telegram settings, then rerun --doctor."
    );
}

#[test]
fn describes_what_was_found() {
    assert_eq!(ready_at("/x"), "ready at /x");
    assert_eq!(address_available("a:1"), "a:1 is available for the webhook listener");
    assert_eq!(
        cloudflare_loaded(3),
        "loaded 3 Cloudflare edge IP ranges; webhook will only accept those senders"
    );
    assert_eq!(trusted_proxies_read("a, b"), "trusted proxy CIDRs: a, b");
    assert_eq!(sample_generated("ok", "p", 4), "ok; provider p; 4 dimensions");
    let mut telegram = config().telegram;
    assert_eq!(telegram_found(&telegram, Some("bot"), ""), "authenticated as @bot; polling");
    telegram.mode = TelegramMode::Webhook;
    assert_eq!(
        telegram_found(&telegram, None, ""),
        "authenticated as @<no-username>; webhook not registered"
    );
    assert_eq!(
        telegram_found(&telegram, Some("b"), "https://x"),
        "authenticated as @b; webhook registered at https://x"
    );
}

#[test]
fn advises_on_configuration_errors() {
    assert_eq!(
        config_error_fix("/c", "strange"),
        "Review /c and correct the reported configuration errors."
    );
    assert_eq!(
        config_error_fix("/c", "failed to parse config at /c\nwatch_dir does not exist"),
        "Open /c and fix the TOML syntax. Check quotes, commas, and section headers. Set watch_dir in /c to an existing directory the service user can access."
    );
    for (detail, start) in [
        ("failed to read config", "Create the config file at /c"),
        ("processed_dir must be different from watch_dir", "Set processed_dir in /c"),
        ("file_types must contain at least one extension", "Set file_types in /c"),
        ("telegram.bot_token is empty", "Either disable [telegram]"),
        ("telegram.webhook_bind_addr", "If you use webhook mode in /c"),
        ("Cloudflare IP range", "Make sure this host can reach"),
        ("embedding.gemini", "Review the [embedding]"),
    ] {
        assert!(config_error_fix("/c", detail).starts_with(start), "{detail}");
    }
}

// Chats

fn chat(id: i64) -> ChatInfo {
    ChatInfo {
        id,
        kind: s("Private"),
        title: None,
        username: None,
        first_name: None,
        last_name: None,
    }
}

#[test]
fn titles_chats() {
    let mut chat = chat(-4);
    assert_eq!(format_chat_title(&chat), "chat -4");
    chat.last_name = Some(s("B"));
    assert_eq!(format_chat_title(&chat), "B");
    chat.first_name = Some(s("A"));
    assert_eq!(format_chat_title(&chat), "A B");
    chat.username = Some(s("ab"));
    assert_eq!(format_chat_title(&chat), "@ab");
    chat.title = Some(s("T"));
    assert_eq!(format_chat_title(&chat), "T");
}

#[test]
fn collects_each_chat_once() {
    let mut renamed = chat(5);
    renamed.title = Some(s("later"));
    let sightings = vec![
        ChatSighting { chat: chat(5), source: ChatSource::MemberUpdate },
        ChatSighting { chat: chat(-3), source: ChatSource::JoinRequest },
        ChatSighting { chat: renamed, source: ChatSource::Message },
    ];
    let found = collect_chat_candidates(&sightings);
    assert_eq!(found.len(), 2);
    assert_eq!((found[0].id, found[0].source.as_str()), (-3, "join-request"));
    assert_eq!((found[1].id, found[1].title.as_str()), (5, "chat 5"));
    assert_eq!(
        candidate_line(2, &found[1], false),
        "  2. chat 5 [Private] id=5 source=member-update"
    );
}

#[test]
fn reads_the_selection() {
    assert_eq!(read_selection(" 2\n", 3), Ok(1));
    assert_eq!(
        read_selection("x", 3),
        Err(s("invalid selection; enter a number from the list"))
    );
    assert_eq!(
        read_selection("4", 3),
        Err(s("selection out of range; choose a number between 1 and 3"))
    );
    assert_eq!(
        read_selection("0", 3),
        Err(s("selection out of range; choose a number between 1 and 3"))
    );
}

#[test]
fn explains_why_chats_cannot_be_found() {
    let mut telegram = config().telegram;
    telegram.bot_token = s(" PASTE_ME");
    assert_eq!(
        discovery_problem(&telegram, "/c"),
        Some(s("telegram.bot_token is not configured in /c; set it before discovering chats"))
    );
    telegram.bot_token = s("t");
    assert_eq!(discovery_problem(&telegram, "/c"), None);
    telegram.mode = TelegramMode::Webhook;
    assert!(discovery_problem(&telegram, "/c").unwrap().contains("requires telegram.mode = \"polling\""));
    assert_eq!(deletion_problem(&telegram, "/c"), None);
    telegram.bot_token = s(" ");
    assert_eq!(
        deletion_problem(&telegram, "/c"),
        Some(s("telegram.bot_token is not configured in /c; set it before deleting the webhook"))
    );
}

fn candidate(id: i64) -> TelegramChatCandidate {
    TelegramChatCandidate { id, kind: s("Private"), title: s("x"), source: ChatSource::Message }
}

#[test]
fn chooses_the_chat() {
    assert!(matches!(choose_chat(&vec![], Some("1")), ChatChoice::Nothing));
    assert!(matches!(choose_chat(&vec![candidate(5)], None), ChatChoice::Take(0)));
    let several = vec![candidate(5), candidate(6)];
    assert!(matches!(choose_chat(&several, None), ChatChoice::Ask));
    assert!(matches!(choose_chat(&several, Some(" 2 ")), ChatChoice::Take(1)));
    match choose_chat(&several, Some("3")) {
        ChatChoice::Refuse(message) => {
            assert_eq!(message, "selection out of range; choose a number between 1 and 2")
        }
        other => panic!("{other:?}"),
    }
}

#[test]
fn begins_commands_for_the_bot() {
    let mut telegram = config().telegram;
    assert!(matches!(begin_discovery(None, "/c"), CommandStart::Stop));
    match begin_discovery(Some(&telegram), "/c") {
        CommandStart::Refuse(message) => assert_eq!(
            message,
            "telegram.bot_token is not configured in /c; set it before discovering chats"
        ),
        other => panic!("{other:?}"),
    }
    telegram.bot_token = s("t");
    assert!(matches!(begin_discovery(Some(&telegram), "/c"), CommandStart::Proceed));

    let mut loaded = LoadedConfig { path: s("/c"), data: config(), created: true };
    assert!(matches!(begin_deletion(&loaded), CommandStart::Stop));
    loaded.created = false;
    match begin_deletion(&loaded) {
        CommandStart::Refuse(message) => assert_eq!(
            message,
            "telegram.bot_token is not configured in /c; set it before deleting the webhook"
        ),
        other => panic!("{other:?}"),
    }
    loaded.data.telegram.bot_token = s("t");
    assert!(matches!(begin_deletion(&loaded), CommandStart::Proceed));
}

#[test]
fn self_test_ends_after_the_first_file() {
    assert!(matches!(begin_doctor("/c/config", true), DoctorStart::Examine));
    match begin_doctor("/c/config", false) {
        DoctorStart::Create { text, check, error } => {
            assert_eq!(text, note_embedding::config_text::render_default_config_template());
            assert_eq!(check.status, DoctorStatus::Warn);
            assert_eq!(check.detail, "created a new config template at /c/config");
            assert_eq!(error, "doctor created a new config template");
        }
        other => panic!("{other:?}"),
    }
}

#[test]
fn longer_reports_keep_the_advice() {
    let first = "watch_dir does not exist";
    let both = config_error_fix("/c", "watch_dir does not exist\nembedding.ollama\nfailed to read config");
    let watch = config_error_fix("/c", first);
    let read = config_error_fix("/c", "failed to read config");
    let provider = config_error_fix("/c", "embedding.ollama");
    assert_eq!(both, format!("{read} {watch} {provider}"));
    assert_eq!(
        config_error_fix("/c", ""),
        "Review /c and correct the reported configuration errors."
    );
}
