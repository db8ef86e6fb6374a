use note_embedding::access::{
    grant_telegram_user_access, is_telegram_admin, is_telegram_user_allowed,
};
use note_embedding::audit::{
    callback_audit_line, message_audit_line, outbound_audit_line, trim_telegram_audit_log,
    truncate_audit_value, webhook_audit_line,
};
use note_embedding::bot::{
    answer_access_request, answer_approval, answer_audit_detail, answer_button_approval,
    answer_cleanup, answer_document, answer_recent, answer_search, answer_stored, callback_usage,
    message_usage, plan_callback, plan_message, CallbackPlan, CleanupResult, IncomingCallback,
    IncomingDocument, IncomingMessage, MessagePlan, SearchAnswer, Sender, ADMIN_ONLY,
    ALREADY_ALLOWED, APPROVE_USAGE, NO_MATCHES, READY_FOR_CONTENT, SEARCH_USAGE, SEND_CONTENT,
};
use note_embedding::commands::{
    is_approve_command, is_clean_command, is_expired_callback_query_error, is_help_command,
    is_join_command, is_new_command, is_recent_documents_command,
    normalize_telegram_submission_name, page_callback_data, parse_approve_callback,
    parse_approve_command, parse_document_callback, parse_page_callback, parse_search_command,
    telegram_help_message, unanswered_notice, COMMAND_LIST,
};
use note_embedding::config::{AppConfig, TelegramMode};
use note_embedding::messages::{
    access_requests, admin_bot_commands, approval_notice, begin_transport,
    build_telegram_command_keyboard, default_bot_commands, document_button, document_notification,
    format_button_label, has_bot_token, menu_registrations, notification,
    telegram_runtime_allowed_updates, transport_for_webhook, OutgoingMessage, ReplyMarkup,
    TransportStep, UpdateKind, WebhookInfo,
};
use note_embedding::network::{
    combine_cloudflare_ranges, is_cloudflare_ip, is_trusted_proxy_ip, parse_cloudflare_ranges,
    parse_trusted_proxy_cidrs, render_cidrs, PeerAddress,
};
use note_embedding::retry::{
    is_retryable_telegram_error, retry_delay_ms, retry_notice, TelegramError,
};
use note_embedding::score::{score_at_least, score_exceeds, score_is_nan, score_rank};
use note_embedding::search::{
    best_matches, build_search_results_keyboard, extract_document_header, judged_document,
    lexical_similarity, matches_above, rank_matches, render_search_results_message,
    search_results_page_count, searched_text, stored_document, tokenize, LexicalScore, QueryMatch,
    SearchSession,
};
use note_embedding::sessions::TelegramRuntimeState;
use note_embedding::updates::{
    process_telegram_update, IncomingContent, IncomingUpdate, UpdateWork,
};
use note_embedding::webhook::{
    accept_body, conclude_webhook_request, receive_update, screen_webhook_request, BodyOutcome,
    WebhookPolicy, WebhookRequest,
};

fn s(text: &str) -> String {
    text.to_string()
}

fn config() -> AppConfig {
    let mut config = AppConfig::default_in(Some("/home/me"), Some("/data"));
    config.telegram.enabled = true;
    config.telegram.bot_token = s("token");
    config.telegram.admin_user_ids = vec![1];
    config.telegram.allowed_user_ids = vec![2];
    config
}

fn message(user: u64, text: &str) -> IncomingMessage {
    IncomingMessage {
        chat_id: 70,
        message_id: 7,
        sender: Some(Sender { id: user, is_bot: false }),
        text: Some(s(text)),
        document: None,
    }
}

fn found(id: i64, score: f32) -> QueryMatch {
    QueryMatch {
        id,
        header: format!("doc {id}"),
        path: format!("/p/{id}.md"),
        score: score.to_bits(),
    }
}

fn reply_text(plan: MessagePlan) -> String {
    match plan {
        MessagePlan::Reply(reply) => reply.text,
        other => panic!("no reply: {other:?}"),
    }
}

fn rows(message: &OutgoingMessage) -> Vec<Vec<(String, String)>> {
    match message.markup.as_ref() {
        Some(ReplyMarkup::Buttons(rows)) => rows
            .iter()
            .map(|row| {
                row.iter()
                    .map(|button| (button.text.clone(), button.callback_data.clone()))
                    .collect()
            })
            .collect(),
        other => panic!("no buttons: {other:?}"),
    }
}

fn commands(message: &OutgoingMessage) -> Vec<Vec<String>> {
    match message.markup.as_ref() {
        Some(ReplyMarkup::Commands(keyboard)) => keyboard.rows.clone(),
        other => panic!("no commands: {other:?}"),
    }
}

// Retrying

#[test]
fn classifies_transport_eof_as_retryable() {
    let err = TelegramError::Http {
        code: 500,
        message: "Transport { kind: Io, message: Some(\"Error encountered in the status line\"), source: Some(Custom { kind: UnexpectedEof, error: \"peer closed connection without sending TLS close_notify\" }) }".to_string(),
    };

    assert!(is_retryable_telegram_error(&err));
}

#[test]
fn does_not_retry_regular_api_errors() {
    let err = TelegramError::Api {
        description: "Bad Request: chat not found".to_string(),
        error_code: 400,
    };

    assert!(!is_retryable_telegram_error(&err));
}

#[test]
fn retries_by_code_or_message() {
    for code in [408, 500, 502, 503, 504] {
        assert!(is_retryable_telegram_error(&TelegramError::Http { code, message: s("x") }));
    }
    assert!(!is_retryable_telegram_error(&TelegramError::Http { code: 404, message: s("x") }));
    assert!(is_retryable_telegram_error(&TelegramError::Http { code: 404, message: s("Timed OUT") }));
    assert!(is_retryable_telegram_error(&TelegramError::Decode(s("Broken Pipe"))));
    assert!(!is_retryable_telegram_error(&TelegramError::Decode(s("eof"))));
    assert!(!is_retryable_telegram_error(&TelegramError::Encode(s("timeout"))));
}

#[test]
fn waits_longer_and_gives_up() {
    let passing = TelegramError::Decode(s("timeout"));
    let lasting = TelegramError::Decode(s("bad json"));
    assert_eq!(retry_delay_ms(1, &passing), Some(250));
    assert_eq!(retry_delay_ms(2, &passing), Some(1000));
    assert_eq!(retry_delay_ms(3, &passing), None);
    assert_eq!(retry_delay_ms(1, &lasting), None);
    assert_eq!(
        retry_notice("getMe", 1, "timeout", 250),
        "Telegram getMe attempt 1 failed with a retryable transport error: timeout. Retrying in 250 ms."
    );
}

// Messages

#[test]
fn offers_the_commands_that_a_user_may_use() {
    let texts = |rows: &Vec<Vec<String>>| rows.iter().map(|row| row.join(" ")).collect::<Vec<_>>();
    let stranger = build_telegram_command_keyboard(false, true);
    assert_eq!(texts(&stranger.rows), vec!["/join"]);
    let user = build_telegram_command_keyboard(true, false);
    assert_eq!(texts(&user.rows), vec!["/start /show", "/new /s", "/clean /help"]);
    let admin = build_telegram_command_keyboard(true, true);
    assert_eq!(texts(&admin.rows), vec!["/start /show", "/new /s", "/clean /approve", "/help"]);
    assert!(admin.resize_keyboard);
    assert_eq!(admin.input_field_placeholder, "Choose a command");
}

#[test]
fn labels_buttons_briefly() {
    assert_eq!(format_button_label("  a title "), "a title");
    assert_eq!(format_button_label(&"x".repeat(48)), "x".repeat(48));
    assert_eq!(format_button_label(&"x".repeat(49)), format!("{}...", "x".repeat(48)));
}

#[test]
fn buttons_read_back() {
    let button = document_button("a", -5);
    assert_eq!(parse_document_callback(&button.callback_data), Some(-5));
    let requests = access_requests(&vec![1], 99);
    assert_eq!(parse_approve_callback(&rows(&requests[0])[0][0].1), Some(99));
    assert_eq!(parse_page_callback(&page_callback_data(3, 4)), Some((3, 4)));
}

#[test]
fn notifies_only_where_there_is_a_chat() {
    let mut config = config();
    assert!(notification(&config.telegram, "x").is_none());
    config.telegram.chat_id = 12;
    let plain = notification(&config.telegram, "x").unwrap();
    assert_eq!((plain.chat_id, plain.text.as_str()), (12, "x"));
    assert!(plain.markup.is_none());
    let with_button = document_notification(&config.telegram, "x", "title", 8).unwrap();
    assert_eq!(rows(&with_button), vec![vec![(s("title"), s("doc:8"))]]);
    config.telegram.enabled = false;
    assert!(document_notification(&config.telegram, "x", "title", 8).is_none());
}

#[test]
fn asks_every_administrator_with_a_chat() {
    let requests = access_requests(&vec![5, u64::MAX, 6], 77);
    let chats: Vec<i64> = requests.iter().map(|request| request.chat_id).collect();
    assert_eq!(chats, vec![5, 6]);
    assert_eq!(
        requests[0].text,
        "Access request received.\nUser ID: 77\nApprove with /approve 77 or the button below."
    );
    assert_eq!(rows(&requests[0]), vec![vec![(s("Approve 77"), s("approve:77"))]]);
    assert!(approval_notice(u64::MAX).is_none());
    assert_eq!(
        approval_notice(5).unwrap().text,
        "Your access request was approved. You can use the bot now."
    );
}

#[test]
fn registers_menus() {
    let names = |commands: &Vec<note_embedding::messages::BotCommand>| {
        commands.iter().map(|command| command.command.clone()).collect::<Vec<_>>().join(" ")
    };
    assert_eq!(names(&default_bot_commands()), "start show new s clean join help");
    assert_eq!(names(&admin_bot_commands()), "start show new s clean join help approve");
    let mut config = config();
    config.telegram.admin_user_ids = vec![1, u64::MAX, 3];
    let menus = menu_registrations(&config.telegram);
    let members: Vec<Option<(i64, u64)>> = menus.iter().map(|menu| menu.member).collect();
    assert_eq!(members, vec![None, Some((1, 1)), Some((3, 3))]);
    config.telegram.bot_token = s("  ");
    assert!(menu_registrations(&config.telegram).is_empty());
    assert!(!has_bot_token(&config.telegram));
}

#[test]
fn chooses_the_transport() {
    let mut config = config().telegram;
    assert!(matches!(begin_transport(&config), TransportStep::DeleteWebhook));
    config.mode = TelegramMode::Webhook;
    assert!(matches!(begin_transport(&config), TransportStep::InspectWebhook));
    config.webhook_url = s("https://x");
    let mut info = WebhookInfo {
        url: s("https://x"),
        has_last_error_date: false,
        has_last_error_message: false,
        has_last_synchronization_error_date: false,
    };
    assert!(matches!(transport_for_webhook(&config, &info), TransportStep::KeepWebhook));
    info.has_last_error_message = true;
    match transport_for_webhook(&config, &info) {
        TransportStep::SetWebhook { url, secret_token } => {
            assert_eq!(url, "https://x");
            assert_eq!(secret_token, None);
        }
        other => panic!("{other:?}"),
    }
    config.webhook_secret_token = s("abc");
    match transport_for_webhook(&config, &info) {
        TransportStep::SetWebhook { secret_token, .. } => assert_eq!(secret_token, Some(s("abc"))),
        other => panic!("{other:?}"),
    }
    assert_eq!(telegram_runtime_allowed_updates().len(), 5);
    assert_eq!(telegram_runtime_allowed_updates()[4], UpdateKind::CallbackQuery);
}

// Commands

#[test]
fn recognises_commands() {
    assert!(is_help_command(" /help "));
    assert!(is_help_command("/help@my_bot"));
    assert!(!is_help_command("/helper"));
    assert!(is_recent_documents_command("/start"));
    assert!(is_recent_documents_command("/show@b"));
    assert!(is_clean_command("/clean"));
    assert!(is_new_command("/new"));
    assert!(is_join_command("/join"));
    assert!(is_approve_command("/approve"));
    assert!(!is_approve_command("/approve 5"));
}

#[test]
fn reads_search_and_approval() {
    assert_eq!(parse_search_command("/s  rust  notes "), Some("rust  notes"));
    assert_eq!(parse_search_command("/s"), Some(""));
    assert_eq!(parse_search_command("/s@bot x"), Some("x"));
    assert_eq!(parse_search_command("/show"), None);
    assert_eq!(parse_search_command("s x"), None);
    assert_eq!(parse_approve_command("/approve 42"), Some(42));
    assert_eq!(parse_approve_command("/approve@bot 42"), Some(42));
    assert_eq!(parse_approve_command("/approve x"), None);
    assert_eq!(parse_approve_command("/approve"), None);
}

#[test]
fn reads_buttons() {
    assert_eq!(parse_document_callback("doc:12"), Some(12));
    assert_eq!(parse_document_callback("doc:x"), None);
    assert_eq!(parse_document_callback("page:1:2"), None);
    assert_eq!(parse_approve_callback("approve:12"), Some(12));
    assert_eq!(parse_approve_callback("approve:-1"), None);
    assert_eq!(parse_page_callback("page:1:2"), Some((1, 2)));
    assert_eq!(parse_page_callback("page:1:2:3"), Some((1, 2)));
    assert_eq!(parse_page_callback("page:1"), None);
    assert_eq!(parse_page_callback("pages:1:2"), None);
}

#[test]
fn helps_according_to_the_question() {
    assert_eq!(telegram_help_message("/help", false), COMMAND_LIST);
    assert_eq!(
        telegram_help_message("/x", false),
        format!("Unknown command.\n\n{COMMAND_LIST}")
    );
    assert_eq!(
        telegram_help_message("hi", true),
        format!("Send a command to continue.\n\n{COMMAND_LIST}\n/approve <user_id> admin only: grant access")
    );
}

#[test]
fn tells_expired_buttons() {
    assert!(is_expired_callback_query_error("Bad Request: QUERY IS TOO OLD"));
    assert!(is_expired_callback_query_error("query ID is invalid"));
    assert!(!is_expired_callback_query_error("no"));
    assert_eq!(
        unanswered_notice("no"),
        "Telegram callback query could not be answered, continuing anyway: no"
    );
    assert_eq!(
        unanswered_notice("response timeout expired"),
        "Telegram callback query expired before it could be answered: response timeout expired"
    );
}

#[test]
fn names_submissions_plainly() {
    assert_eq!(normalize_telegram_submission_name(" my file/ä.md ", "text"), "my-file--.md");
    assert_eq!(normalize_telegram_submission_name("  ", "text"), "telegram-text.md");
}

// Access

#[test]
fn grants_access_once() {
    let mut config = config();
    config.telegram.allowed_user_ids = vec![9, 2, 9];
    assert!(!grant_telegram_user_access(&mut config, 1));
    assert!(!grant_telegram_user_access(&mut config, 9));
    assert_eq!(config.telegram.allowed_user_ids, vec![9, 2, 9]);
    assert!(grant_telegram_user_access(&mut config, 5));
    assert_eq!(config.telegram.allowed_user_ids, vec![2, 5, 9]);
    assert!(is_telegram_user_allowed(&config, 5));
    assert!(!is_telegram_admin(&config, 5));
    assert!(!is_telegram_user_allowed(&config, 6));
}

// The bot

#[test]
fn refuses_strangers() {
    let config = config();
    let mut state = TelegramRuntimeState::default();
    match plan_message(&config, &mut state, &message(3, "/s x")) {
        MessagePlan::Reply(reply) => {
            assert_eq!(
                reply.text,
                "Unauthorized user.\nSend /join to request access.\nYour Telegram user ID: 3"
            );
            assert_eq!(commands(&reply), vec![vec![s("/join")]]);
            assert_eq!(reply.reply_to_message_id, Some(7));
        }
        other => panic!("{other:?}"),
    }
    match plan_message(&config, &mut state, &message(3, "/join")) {
        MessagePlan::RequestAccess { user_id } => assert_eq!(user_id, 3),
        other => panic!("{other:?}"),
    }
    assert!(matches!(
        plan_message(&config, &mut state, &message(3, "/new")),
        MessagePlan::Reply(_)
    ));
    assert!(!state.is_awaiting(70));
}

#[test]
fn ignores_bots_and_senders_without_a_name() {
    let config = config();
    let mut state = TelegramRuntimeState::default();
    let mut from_bot = message(2, "/help");
    from_bot.sender = Some(Sender { id: 2, is_bot: true });
    assert!(matches!(plan_message(&config, &mut state, &from_bot), MessagePlan::Ignore));
    assert!(message_usage(&config, &from_bot).is_none());
    from_bot.sender = None;
    assert!(matches!(plan_message(&config, &mut state, &from_bot), MessagePlan::Ignore));
}

#[test]
fn answers_users() {
    let config = config();
    let mut state = TelegramRuntimeState::default();
    assert_eq!(reply_text(plan_message(&config, &mut state, &message(2, "/join"))), ALREADY_ALLOWED);
    assert_eq!(reply_text(plan_message(&config, &mut state, &message(2, "/approve 8"))), ADMIN_ONLY);
    assert_eq!(reply_text(plan_message(&config, &mut state, &message(1, "/approve"))), APPROVE_USAGE);
    assert_eq!(reply_text(plan_message(&config, &mut state, &message(2, "/s"))), SEARCH_USAGE);
    assert_eq!(
        reply_text(plan_message(&config, &mut state, &message(2, "hello"))),
        format!("Send a command to continue.\n\n{COMMAND_LIST}")
    );
    assert!(matches!(
        plan_message(&config, &mut state, &message(1, "/approve 8")),
        MessagePlan::Approve { user_id: 8 }
    ));
    assert!(matches!(plan_message(&config, &mut state, &message(2, "/show")), MessagePlan::ListRecent));
    assert!(matches!(plan_message(&config, &mut state, &message(2, "/clean")), MessagePlan::Clean));
    assert!(matches!(plan_message(&config, &mut state, &message(2, " ")), MessagePlan::Ignore));
    match plan_message(&config, &mut state, &message(2, "/s a b")) {
        MessagePlan::Search { query } => assert_eq!(query, "a b"),
        other => panic!("{other:?}"),
    }
}

#[test]
fn stores_what_was_announced() {
    let config = config();
    let mut state = TelegramRuntimeState::default();
    assert_eq!(
        reply_text(plan_message(&config, &mut state, &message(2, "/new"))),
        READY_FOR_CONTENT
    );
    assert!(state.is_awaiting(70));
    assert_eq!(reply_text(plan_message(&config, &mut state, &message(2, ""))), SEND_CONTENT);
    match plan_message(&config, &mut state, &message(2, " some text ")) {
        MessagePlan::StoreText { file_name, text } => {
            assert_eq!(file_name, "telegram-70-7.md");
            assert_eq!(text, "some text");
        }
        other => panic!("{other:?}"),
    }
    let mut with_file = message(2, "");
    with_file.document = Some(IncomingDocument { file_name: None });
    match plan_message(&config, &mut state, &with_file) {
        MessagePlan::StoreDocument { file_name } => assert_eq!(file_name, "telegram-document.txt"),
        other => panic!("{other:?}"),
    }
    let stored = answer_stored(&mut state, 70, 7, true, "title", 3);
    assert_eq!(stored.text, "Saved new document.");
    assert_eq!(rows(&stored), vec![vec![(s("title"), s("doc:3"))]]);
    assert!(!state.is_awaiting(70));
    assert_eq!(answer_stored(&mut state, 70, 7, false, "t", 3).text, "Saved new text.");
}

#[test]
fn logs_what_users_do() {
    let config = config();
    let usage = message_usage(&config, &message(2, " hi ")).unwrap();
    assert_eq!((usage.allowed, usage.action.as_str(), usage.detail.as_str()), (true, "text", "hi"));
    let usage = message_usage(&config, &message(3, "")).unwrap();
    assert_eq!((usage.allowed, usage.action.as_str(), usage.detail.as_str()), (false, "empty", "<empty>"));
    let mut with_file = message(2, "");
    with_file.document = Some(IncomingDocument { file_name: Some(s("a.md")) });
    let usage = message_usage(&config, &with_file).unwrap();
    assert_eq!((usage.action.as_str(), usage.detail.as_str()), ("document", "a.md"));
    for (text, action) in [
        ("/new", "/new"),
        ("/show", "/start-or-show"),
        ("/clean", "/clean"),
        ("/join", "/join"),
        ("/approve 5", "/approve"),
        ("/help", "/help"),
        ("/s x", "/s"),
    ] {
        assert_eq!(message_usage(&config, &message(2, text)).unwrap().action, action);
    }
}

#[test]
fn reports_access_requests_and_approvals() {
    assert_eq!(
        answer_access_request(70, 7, 3, 0).text,
        "No admin could be notified. Ask the owner to add your Telegram user ID 3 manually."
    );
    assert_eq!(
        answer_access_request(70, 7, 3, 2).text,
        "Access request sent to 2 admin(s).\nYour Telegram user ID: 3"
    );
    let added = answer_approval(70, 7, 8, true);
    assert_eq!(added.len(), 2);
    assert_eq!(added[0].text, "Approved Telegram user ID 8.");
    assert_eq!(added[1].chat_id, 8);
    let known = answer_approval(70, 7, 8, false);
    assert_eq!(known.len(), 1);
    assert_eq!(known[0].text, "Telegram user ID 8 already has access.");
    let (answer, messages) = answer_button_approval(Some((70, 7)), 8, true);
    assert_eq!(answer, "User approved.");
    assert_eq!(messages.len(), 2);
    let (answer, messages) = answer_button_approval(None, 8, false);
    assert_eq!(answer, "User already allowed.");
    assert!(messages.is_empty());
}

#[test]
fn lists_the_latest_documents() {
    let mut state = TelegramRuntimeState::default();
    let none = answer_recent(&mut state, 70, 7, false, vec![]);
    assert_eq!(none.text, "No documents are stored yet.");
    assert_eq!(state.next_search_session_id, 0);
    let some = answer_recent(&mut state, 70, 7, false, vec![found(4, 0.0)]);
    assert_eq!(some.text, "Pagination\nTotal: 1\nCurrent page: 1/1");
    assert_eq!(rows(&some), vec![vec![(s("doc 4"), s("doc:4"))]]);
    assert_eq!(state.next_search_session_id, 1);
    assert!(state.session(0).is_some());
    assert!(state.session(1).is_none());
}

#[test]
fn one_strong_match_is_sent_and_several_are_listed() {
    let config = config();
    let mut state = TelegramRuntimeState::default();
    let none = answer_search(&config, &mut state, 70, 7, false, &vec![found(1, 0.2)]);
    match none {
        SearchAnswer::Message(message) => assert_eq!(message.text, NO_MATCHES),
        other => panic!("{other:?}"),
    }
    let one = answer_search(&config, &mut state, 70, 7, false, &vec![found(1, 0.9), found(2, 0.1)]);
    match one {
        SearchAnswer::Document { path } => assert_eq!(path, "/p/1.md"),
        other => panic!("{other:?}"),
    }
    assert_eq!(state.next_search_session_id, 0);
    let many: Vec<QueryMatch> = (1..=7).map(|id| found(id, 0.35)).collect();
    match answer_search(&config, &mut state, 70, 7, false, &many) {
        SearchAnswer::Message(message) => {
            assert_eq!(message.text, "Pagination\nTotal: 7\nCurrent page: 1/2");
            let rows = rows(&message);
            assert_eq!(rows.len(), 6);
            assert_eq!(rows[5], vec![(s("Right ▶"), s("page:0:1"))]);
        }
        other => panic!("{other:?}"),
    }
    assert_eq!(state.next_search_session_id, 1);
}

#[test]
fn reports_the_cleanup() {
    let result = CleanupResult { duplicate_paths_removed: 2, duplicate_embeddings_removed: 3 };
    assert_eq!(result.total_removed(), 5);
    assert_eq!(
        answer_cleanup(70, 7, false, result).text,
        "Database cleanup finished.\nRemoved duplicate path rows: 2\nRemoved duplicate embedding rows: 3\nTotal removed: 5"
    );
}

fn pressed(user_id: u64, data: &str) -> IncomingCallback {
    IncomingCallback { user_id, data: Some(s(data)), message: Some((70, 7)) }
}

fn answer(plan: CallbackPlan) -> String {
    match plan {
        CallbackPlan::Answer(text) => text,
        other => panic!("no answer: {other:?}"),
    }
}

#[test]
fn answers_buttons() {
    let config = config();
    let mut state = TelegramRuntimeState::default();
    assert_eq!(answer(plan_callback(&config, &state, &pressed(3, "doc:1"))), "Unauthorized.");
    assert_eq!(answer(plan_callback(&config, &state, &pressed(2, "approve:9"))), "Admin only.");
    assert!(matches!(
        plan_callback(&config, &state, &pressed(1, "approve:9")),
        CallbackPlan::Approve { user_id: 9 }
    ));
    assert_eq!(
        answer(plan_callback(&config, &state, &pressed(2, "page:0:1"))),
        "Search results expired. Run /s again."
    );
    assert!(matches!(
        plan_callback(&config, &state, &pressed(2, "doc:5")),
        CallbackPlan::FindDocument { document_id: 5, chat_id: 70, message_id: 7 }
    ));
    assert!(matches!(plan_callback(&config, &state, &pressed(2, "x")), CallbackPlan::Ignore));
    let mut lost = pressed(2, "doc:5");
    lost.message = None;
    assert_eq!(
        answer(plan_callback(&config, &state, &lost)),
        "This selection is no longer available."
    );
    lost.data = Some(s("page:0:0"));
    assert_eq!(answer(plan_callback(&config, &state, &lost)), "This page is no longer available.");
    lost.data = None;
    assert!(matches!(plan_callback(&config, &state, &lost), CallbackPlan::Ignore));

    let many: Vec<QueryMatch> = (1..=7).map(|id| found(id, 1.0)).collect();
    let _ = state.open_session(many, 70, None);
    match plan_callback(&config, &state, &pressed(2, "page:0:99")) {
        CallbackPlan::TurnPage(edit) => {
            assert_eq!(edit.text, "Pagination\nTotal: 7\nCurrent page: 2/2");
            assert_eq!(edit.detail, "message_id=7 session_id=0 page=1");
            assert_eq!(edit.keyboard.len(), 3);
            assert_eq!(edit.keyboard[2][0].callback_data, "page:0:0");
            assert_eq!(edit.keyboard[2][0].text, "◀ Left");
        }
        other => panic!("{other:?}"),
    }
}

#[test]
fn sent_buttons_do_what_they_say() {
    let config = config();
    let mut state = TelegramRuntimeState::default();
    let many: Vec<QueryMatch> = (1..=7).map(|id| found(id, 1.0)).collect();
    let first_page = state.open_session(many, 70, None);
    let rows = match first_page.markup {
        Some(ReplyMarkup::Buttons(rows)) => rows,
        other => panic!("{other:?}"),
    };
    assert_eq!(rows.len(), 6);
    assert!(matches!(
        plan_callback(&config, &state, &pressed(2, &rows[3][0].callback_data)),
        CallbackPlan::FindDocument { document_id: 4, chat_id: 70, message_id: 7 }
    ));
    match plan_callback(&config, &state, &pressed(2, &rows[5][0].callback_data)) {
        CallbackPlan::TurnPage(edit) => {
            assert_eq!(edit.text, "Pagination\nTotal: 7\nCurrent page: 2/2");
            assert_eq!(edit.keyboard[1][0].callback_data, "doc:7");
        }
        other => panic!("{other:?}"),
    }
    let requests = access_requests(&vec![1], 9);
    match &requests[0].markup {
        Some(ReplyMarkup::Buttons(rows)) => assert!(matches!(
            plan_callback(&config, &state, &pressed(1, &rows[0][0].callback_data)),
            CallbackPlan::Approve { user_id: 9 }
        )),
        other => panic!("{other:?}"),
    }
}

#[test]
fn answers_requests_for_documents() {
    assert_eq!(answer_document(false, false), (s("Document not found."), false));
    assert_eq!(answer_document(true, false), (s("The file is no longer available."), false));
    assert_eq!(answer_document(true, true), (s("Sending document..."), true));
    assert_eq!(answer_audit_detail(None), "<empty>");
    assert_eq!(answer_audit_detail(Some("x")), "x");
    let usage = callback_usage(&config(), &pressed(2, "page:1:2"));
    assert_eq!((usage.allowed, usage.action.as_str()), (true, "page-callback"));
    assert_eq!(callback_usage(&config(), &pressed(3, "doc:1")).action, "document-callback");
    assert_eq!(callback_usage(&config(), &pressed(3, "approve:1")).action, "approve-callback");
    assert_eq!(callback_usage(&config(), &pressed(3, "")).action, "callback");
}

#[test]
fn remembers_updates_and_sessions() {
    let mut state = TelegramRuntimeState::default();
    assert_eq!(state.next_offset, None);
    state.note_update(41);
    assert_eq!(state.next_offset, Some(42));
    let first = state.open_session(vec![found(1, 1.0)], 70, Some(7));
    let second = state.open_session(vec![found(2, 1.0)], 70, Some(7));
    assert_eq!(first.reply_to_message_id, Some(7));
    assert_eq!(rows(&second)[0][0].1, "doc:2");
    assert_eq!(state.session(0).unwrap().matches[0].id, 1);
    assert_eq!(state.session(1).unwrap().matches[0].id, 2);
}

// Searching

#[test]
fn scores_compare_like_numbers() {
    let values = [0.0f32, -0.0, 0.35, 1.0, -1.0, f32::NAN, -f32::NAN, f32::INFINITY, f32::MIN_POSITIVE];
    for a in values {
        assert_eq!(score_is_nan(a.to_bits()), a.is_nan());
        for b in values {
            assert_eq!(score_exceeds(a.to_bits(), b.to_bits()), a > b, "{a} {b}");
            assert_eq!(score_at_least(a.to_bits(), b.to_bits()), a >= b, "{a} {b}");
            assert_eq!(
                score_rank(a.to_bits()) < score_rank(b.to_bits()),
                a.total_cmp(&b).is_lt(),
                "{a} {b}"
            );
        }
    }
}

#[test]
fn tokens_are_words_in_lower_case() {
    assert_eq!(tokenize("Hello, hello WORLD-42 été"), vec![s("hello"), s("world"), s("42"), s("été")]);
    assert!(tokenize(" ,;- ").is_empty());
}

#[test]
fn compares_words() {
    assert_eq!(lexical_similarity(" - ", "x"), LexicalScore::Nothing);
    assert_eq!(lexical_similarity("Rust Notes", "my rust notes"), LexicalScore::Whole);
    assert_eq!(
        lexical_similarity("rust notes today", "notes on rust"),
        LexicalScore::Words { found: 2, total: 3 }
    );
    assert_eq!(searched_text("a", "b"), "a\nb");
}

#[test]
fn takes_the_title_from_the_first_heading() {
    assert_eq!(extract_document_header("\n## My title ##\nx", "/a/b.md"), "My title ##");
    assert_eq!(extract_document_header("###\n \n", "/a/b.md"), "b");
    assert_eq!(extract_document_header("", "/"), "Untitled document");
    assert_eq!(extract_document_header(&"x".repeat(90), "b"), "x".repeat(80));
    let stored = stored_document(4, "/a/b.md", "# T");
    assert_eq!((stored.id, stored.header.as_str(), stored.score), (4, "T", 0));
}

#[test]
fn the_better_score_counts() {
    let lexical = 0.5f32.to_bits();
    assert_eq!(judged_document(1, "a", "", lexical, None).score, lexical);
    assert_eq!(judged_document(1, "a", "", lexical, Some(0.7f32.to_bits())).score, 0.7f32.to_bits());
    assert_eq!(judged_document(1, "a", "", lexical, Some(0.3f32.to_bits())).score, lexical);
    assert_eq!(judged_document(1, "a", "", lexical, Some(f32::NAN.to_bits())).score, lexical);
}

#[test]
fn ranks_matches_stably() {
    let matches = vec![found(1, 0.5), found(2, 0.9), found(3, 0.5), found(4, 0.9), found(5, 0.1)];
    let ids = |ranked: Vec<QueryMatch>| ranked.iter().map(|found| found.id).collect::<Vec<_>>();
    assert_eq!(ids(rank_matches(&matches)), vec![2, 4, 1, 3, 5]);
    assert_eq!(ids(best_matches(&matches, 3)), vec![2, 4, 1]);
    assert_eq!(ids(best_matches(&matches, 9)), vec![2, 4, 1, 3, 5]);
    assert_eq!(ids(matches_above(&matches, 0.5f32.to_bits())), vec![1, 2, 3, 4]);
}

#[test]
fn pages_hold_five_matches() {
    let session = |count: i64| SearchSession { matches: (0..count).map(|id| found(id, 1.0)).collect() };
    assert_eq!(search_results_page_count(&session(0)), 1);
    assert_eq!(search_results_page_count(&session(5)), 1);
    assert_eq!(search_results_page_count(&session(6)), 2);
    let middle = build_search_results_keyboard(9, &session(12), 1);
    assert_eq!(middle.len(), 6);
    assert_eq!(middle[0][0].callback_data, "doc:5");
    assert_eq!(middle[5].len(), 2);
    assert_eq!(parse_page_callback(&middle[5][0].callback_data), Some((9, 0)));
    assert_eq!(parse_page_callback(&middle[5][1].callback_data), Some((9, 2)));
    assert_eq!(
        render_search_results_message(&session(12), 2),
        "Pagination\nTotal: 12\nCurrent page: 3/3"
    );
}

// The activity log

#[test]
fn logs_on_one_line() {
    assert_eq!(truncate_audit_value(" a\n b\tc ", 10), "a b c");
    assert_eq!(truncate_audit_value("abcdef", 3), "abc...");
    assert_eq!(
        outbound_audit_line(9, "sendMessage", Some(-3), None, "hi", None),
        "telegram usage ts=9 type=outbound operation=sendMessage outcome=success chat_id=-3 reply_to_message_id=- detail=hi error=-"
    );
    assert_eq!(
        outbound_audit_line(9, "getMe", None, Some(4), "hi", Some("no")),
        "telegram usage ts=9 type=outbound operation=getMe outcome=failed chat_id=- reply_to_message_id=4 detail=hi error=no"
    );
    assert_eq!(
        message_audit_line(9, true, 5, 6, Some("me"), "/s", "x"),
        "telegram usage ts=9 type=message allowed=true chat_id=5 user_id=6 username=me action=/s detail=x"
    );
    assert_eq!(
        callback_audit_line(9, false, None, 6, None, "callback", "x"),
        "telegram usage ts=9 type=callback allowed=false chat_id=- user_id=6 username=- action=callback detail=x"
    );
    assert_eq!(
        webhook_audit_line(9, true, "1.2.3.4", None, Some("ray"), Some("agent"), "ok"),
        "telegram usage ts=9 type=webhook allowed=true peer_ip=1.2.3.4 cf_connecting_ip=- cf_ray=ray user_agent=agent detail=ok"
    );
}

#[test]
fn keeps_the_end_of_the_log() {
    let content = b"one\ntwo\nthree\n".to_vec();
    assert_eq!(trim_telegram_audit_log(&content, 100), 0);
    let start = trim_telegram_audit_log(&content, 9);
    assert_eq!(&content[start..], b"three\n");
    let unbroken = b"abcdef".to_vec();
    assert_eq!(trim_telegram_audit_log(&unbroken, 4), 2);
}

// The webhook

fn policy() -> WebhookPolicy {
    WebhookPolicy {
        secret_token: Some(s("secret")),
        cloudflare_ip_ranges: parse_cloudflare_ranges("173.245.48.0/20\n\n", "u").unwrap(),
        trusted_proxy_cidrs: parse_trusted_proxy_cidrs(&vec![s("127.0.0.1/32"), s("::1/128")]).unwrap(),
    }
}

fn request(peer: PeerAddress) -> WebhookRequest {
    WebhookRequest {
        peer,
        cf_connecting_ip: None,
        cf_ray: None,
        secret_token: Some(s("secret")),
        path: s("/hook"),
        body_bytes: 12,
    }
}

#[test]
fn screens_webhook_requests() {
    let policy = policy();
    let cloudflare = PeerAddress::V4(u32::from_be_bytes([173, 245, 50, 1]));
    let proxy = PeerAddress::V6(1);
    let stranger = PeerAddress::V4(u32::from_be_bytes([8, 8, 8, 8]));
    assert!(screen_webhook_request(&policy, &request(cloudflare)).is_none());
    assert_eq!(screen_webhook_request(&policy, &request(stranger)).unwrap().status, 403);
    let anonymous = screen_webhook_request(&policy, &request(proxy)).unwrap();
    assert_eq!(anonymous.status, 403);
    let mut vouched = request(proxy);
    vouched.cf_connecting_ip = Some(s("1.2.3.4"));
    vouched.cf_ray = Some(s("ray"));
    assert!(screen_webhook_request(&policy, &vouched).is_none());
    vouched.secret_token = Some(s("other"));
    let refused = screen_webhook_request(&policy, &vouched).unwrap();
    assert_eq!(refused.status, 401);
    assert_eq!(refused.detail, "rejected invalid secret token path=/hook");
    assert!(!refused.allowed);
}

#[test]
fn concludes_webhook_requests() {
    let request = request(PeerAddress::V4(0));
    let bad = conclude_webhook_request(&request, &BodyOutcome::Invalid(s("eof")));
    assert_eq!((bad.status, bad.detail.as_str()), (400, "rejected invalid json path=/hook error=eof"));
    let closed = conclude_webhook_request(&request, &BodyOutcome::Unavailable);
    assert_eq!(
        (closed.status, closed.detail.as_str()),
        (503, "rejected unavailable processor path=/hook")
    );
    let queued = conclude_webhook_request(&request, &BodyOutcome::Queued);
    assert_eq!(
        (queued.status, queued.allowed, queued.detail.as_str()),
        (200, true, "accepted path=/hook bytes=12")
    );
}

#[test]
fn reads_address_ranges() {
    let ranges = parse_trusted_proxy_cidrs(&vec![s("10.0.0.0/8"), s("fd00::/8")]).unwrap();
    assert!(is_trusted_proxy_ip(PeerAddress::V4(u32::from_be_bytes([10, 1, 2, 3])), &ranges));
    assert!(!is_trusted_proxy_ip(PeerAddress::V4(u32::from_be_bytes([11, 1, 2, 3])), &ranges));
    assert!(is_cloudflare_ip(PeerAddress::V6(0xfd12 << 112), &ranges));
    assert!(!is_cloudflare_ip(PeerAddress::V6(10 << 24), &ranges));
    assert_eq!(render_cidrs(&ranges), "10.0.0.0/8, fd00::/8");
    assert_eq!(
        parse_trusted_proxy_cidrs(&vec![s("10.0.0.0/8"), s("nope")]).unwrap_err(),
        "invalid trusted proxy CIDR nope"
    );
    assert_eq!(
        parse_cloudflare_ranges("1.2.3.0/24\nbad\n", "https://u").unwrap_err(),
        "invalid Cloudflare IP range 'bad' from https://u"
    );
    assert_eq!(
        combine_cloudflare_ranges(vec![], vec![]).unwrap_err(),
        "Cloudflare IP range list is empty"
    );
    assert_eq!(combine_cloudflare_ranges(ranges, vec![]).unwrap().len(), 2);
}

fn bytes(text: &str) -> Vec<u8> {
    text.as_bytes().to_vec()
}

const SENT_MESSAGE: &str = "{\"update_id\":41,\"message\":{\"message_id\":7,\"date\":1,\"chat\":{\"id\":70,\"type\":\"private\"},\"from\":{\"id\":2,\"is_bot\":false,\"first_name\":\"A\",\"username\":\"ann\"},\"text\":\"/s cats\",\"document\":{\"file_id\":\"F\",\"file_unique_id\":\"U\",\"file_name\":\"a.md\"}}}";

const PRESSED_BUTTON: &str = "{\"update_id\":42,\"callback_query\":{\"id\":\"Q\",\"from\":{\"id\":2,\"is_bot\":false,\"first_name\":\"A\"},\"chat_instance\":\"C\",\"data\":\"doc:5\"}}";

#[test]
fn receives_updates() {
    let policy = policy();
    let cloudflare = request(PeerAddress::V4(u32::from_be_bytes([173, 245, 50, 1])));
    let update = receive_update(&policy, &cloudflare, &bytes(SENT_MESSAGE)).unwrap();
    assert_eq!(update.update_id, 41);
    match process_telegram_update(update) {
        UpdateWork::Message(received) => {
            assert_eq!((received.message.chat_id, received.message.message_id), (70, 7));
            assert_eq!(received.message.sender, Some(Sender { id: 2, is_bot: false }));
            assert_eq!(received.message.text.as_deref(), Some("/s cats"));
            assert_eq!(received.message.document.unwrap().file_name.as_deref(), Some("a.md"));
            assert_eq!(received.username.as_deref(), Some("ann"));
            assert_eq!(received.file_id.as_deref(), Some("F"));
        }
        other => panic!("{other:?}"),
    }
    let update = receive_update(&policy, &cloudflare, &bytes(PRESSED_BUTTON)).unwrap();
    match process_telegram_update(update) {
        UpdateWork::Callback(received) => {
            assert_eq!(received.id, "Q");
            assert_eq!(received.callback.user_id, 2);
            assert_eq!(received.callback.data.as_deref(), Some("doc:5"));
            assert_eq!(received.callback.message, None);
        }
        other => panic!("{other:?}"),
    }
}

#[test]
fn refuses_requests_without_updates() {
    let policy = policy();
    let cloudflare = request(PeerAddress::V4(u32::from_be_bytes([173, 245, 50, 1])));
    let refused = receive_update(&policy, &cloudflare, &bytes("{")).unwrap_err();
    assert_eq!((refused.status, refused.allowed), (400, false));
    assert!(refused.detail.starts_with("rejected invalid json path=/hook error=EOF"));
    let stranger = request(PeerAddress::V4(u32::from_be_bytes([8, 8, 8, 8])));
    let refused = receive_update(&policy, &stranger, &bytes(SENT_MESSAGE)).unwrap_err();
    assert_eq!(refused.status, 403);
    let refused = accept_body(&cloudflare, Err(s("eof"))).unwrap_err();
    assert_eq!(refused.detail, "rejected invalid json path=/hook error=eof");
    let other = IncomingUpdate { update_id: 1, content: IncomingContent::Poll };
    assert!(matches!(
        process_telegram_update(accept_body(&cloudflare, Ok(other)).unwrap()),
        UpdateWork::Nothing
    ));
}

#[test]
fn configures_the_policy() {
    let mut telegram = config().telegram;
    telegram.webhook_trusted_proxy_cidrs = vec![s("10.0.0.0/8")];
    let open = WebhookPolicy::configured(&telegram, vec![]).unwrap();
    assert_eq!(open.secret_token, None);
    assert_eq!(open.trusted_proxy_cidrs.len(), 1);
    telegram.webhook_secret_token = s("secret");
    let closed = WebhookPolicy::configured(&telegram, vec![]).unwrap();
    assert_eq!(closed.secret_token.as_deref(), Some("secret"));
    telegram.webhook_trusted_proxy_cidrs = vec![s("10.0.0.0/8"), s("x")];
    assert_eq!(
        WebhookPolicy::configured(&telegram, vec![]).unwrap_err(),
        "invalid trusted proxy CIDR x"
    );
}

#[test]
fn one_page_has_no_neighbours() {
    let session = SearchSession { matches: (1..=5).map(|id| found(id, 1.0)).collect() };
    assert_eq!(build_search_results_keyboard(0, &session, 0).len(), 5);
    assert_eq!(build_search_results_keyboard(0, &session, 1).len(), 0);
}
