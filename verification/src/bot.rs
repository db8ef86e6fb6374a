//! What the bot does about a message or a pressed button.
//!
//! A decision is made in two parts. First comes the plan for a message or a button, from what is
//! configured and remembered. Where the plan needs the database, the network or the disk, the
//! caller does that work, and a second function says what to answer for what came back.

use vstd::prelude::*;

verus! {

use crate::score::{at_least};
use crate::access::{is_admin, is_allowed, is_telegram_admin, is_telegram_user_allowed};
use crate::commands::{
    COMMAND_LIST, approved_user, help_text, is_approve_command, is_clean_command, is_command,
    is_help_command, is_join_command, is_new_command, is_recent_documents_command,
    law_approve_button_reads_back, law_buttons_are_told_apart, law_document_button_reads_back,
    law_help_fits_the_text, law_only_the_search_command_searches, law_page_button_reads_back,
    law_search_asks_for_what_follows, lemma_command_letter, lemma_first_word_letter, page_data,
    parse_approve_callback, parse_approve_command, parse_document_callback, parse_page_callback,
    parse_search_command, requested_approval, requested_document, requested_page, search_query,
    telegram_help_message,
};
use crate::config::AppConfig;
use crate::messages::{
    MarkupView, MessageView, OutgoingMessage, approval_notice, approval_notice_text,
    approve_button_view, command_message, document_button_view, document_message, fits_chat_id,
    message_views, message_with_command_keyboard, message_with_document_button, plain_message,
    text_message,
};
use crate::numbers::{
    all_digits, decimal, decimal_int, lemma_decimal, render_i64, render_u64, render_usize,
};
use crate::search::{
    MatchView, PageEdit, PageEditView, QueryMatch, edit_search_results_message,
    law_rows_ask_for_their_documents, match_views, matches_above, nearest_page, page_count,
    page_edit_view, passing, results_message, search_results_page_count,
};
use crate::sessions::{StateView, TelegramRuntimeState};
use crate::text::{
    all_white, bare, has_prefix, is_digit, is_white, law_trimmed_text_is_bare,
    lemma_occurs_at_the_end, occurs_in, starts_with_char, trim, trimmed,
};

// ---------------------------------------------------------------------------------------------
// Messages

/// Who sent a message.
#[derive(Debug, Clone, Copy, PartialEq, Eq, Structural)]
pub struct Sender {
    pub id: u64,
    pub is_bot: bool,
}

/// A file that came with a message, and its name where it has one.
#[derive(Debug)]
pub struct IncomingDocument {
    pub file_name: Option<String>,
}

#[derive(Debug)]
pub struct IncomingMessage {
    pub chat_id: i64,
    pub message_id: i32,
    pub sender: Option<Sender>,
    pub text: Option<String>,
    pub document: Option<IncomingDocument>,
}

impl IncomingMessage {
    /// The text without the space around it; none is as good as an empty one.
    pub open spec fn said(self) -> Seq<char> {
        trimmed(
            match self.text {
                Some(text) => text@,
                None => ""@,
            },
        )
    }

    fn text(&self) -> (r: &str)
        ensures
            r@ == self.said(),
    {
        match &self.text {
            Some(text) => trim(text.as_str()),
            None => trim(""),
        }
    }

    /// The name of the file, or the name that stands for one without a name.
    pub open spec fn document_name(self, otherwise: Seq<char>) -> Seq<char> {
        match self.document {
            Some(document) => match document.file_name {
                Some(name) => name@,
                None => otherwise,
            },
            None => otherwise,
        }
    }

    fn named(&self, otherwise: &str) -> (r: String)
        ensures
            r@ == self.document_name(otherwise@),
    {
        match &self.document {
            Some(document) => match &document.file_name {
                Some(name) => name.as_str().to_owned(),
                None => otherwise.to_owned(),
            },
            None => otherwise.to_owned(),
        }
    }
}

/// What is logged of the use of the bot.
#[derive(Debug)]
pub struct Usage {
    pub allowed: bool,
    pub action: String,
    pub detail: String,
}

pub struct UsageView {
    pub allowed: bool,
    pub action: Seq<char>,
    pub detail: Seq<char>,
}

impl View for Usage {
    type V = UsageView;

    open spec fn view(&self) -> UsageView {
        UsageView { allowed: self.allowed, action: self.action@, detail: self.detail@ }
    }
}

/// The kind of a message, as it is logged.
pub open spec fn message_action(text: Seq<char>, has_document: bool) -> Seq<char> {
    if is_command(text, "/new"@) {
        "/new"@
    } else if is_command(text, "/start"@) || is_command(text, "/show"@) {
        "/start-or-show"@
    } else if is_command(text, "/clean"@) {
        "/clean"@
    } else if is_command(text, "/join"@) {
        "/join"@
    } else if approved_user(text) is Some || is_command(text, "/approve"@) {
        "/approve"@
    } else if is_command(text, "/help"@) {
        "/help"@
    } else if search_query(text) is Some {
        "/s"@
    } else if has_document {
        "document"@
    } else if text.len() == 0 {
        "empty"@
    } else {
        "text"@
    }
}

fn name_message_action(text: &str, has_document: bool) -> (r: &'static str)
    ensures
        r@ == message_action(text@, has_document),
{
    if is_new_command(text) {
        "/new"
    } else if is_recent_documents_command(text) {
        "/start-or-show"
    } else if is_clean_command(text) {
        "/clean"
    } else if is_join_command(text) {
        "/join"
    } else if parse_approve_command(text).is_some() || is_approve_command(text) {
        "/approve"
    } else if is_help_command(text) {
        "/help"
    } else if parse_search_command(text).is_some() {
        "/s"
    } else if has_document {
        "document"
    } else if text.is_empty() {
        "empty"
    } else {
        "text"
    }
}

/// What is logged of a message from a person; other messages are not logged.
pub open spec fn message_usage_view(config: AppConfig, message: IncomingMessage) -> Option<
    UsageView,
> {
    match message.sender {
        Some(sender) if !sender.is_bot => Some(
            UsageView {
                allowed: is_allowed(config, sender.id),
                action: message_action(message.said(), message.document is Some),
                detail: if message.document is Some {
                    message.document_name("telegram-document"@)
                } else if message.said().len() == 0 {
                    "<empty>"@
                } else {
                    message.said()
                },
            },
        ),
        _ => None,
    }
}

pub fn message_usage(config: &AppConfig, message: &IncomingMessage) -> (r: Option<Usage>)
    ensures
        r is Some <==> message_usage_view(*config, *message) is Some,
        r matches Some(usage) ==> message_usage_view(*config, *message) == Some(usage@),
{
    match message.sender {
        Some(sender) => {
            if sender.is_bot {
                return None;
            }
            let text = message.text();
            let action = name_message_action(text, message.document.is_some());
            let detail = if message.document.is_some() {
                message.named("telegram-document")
            } else if text.is_empty() {
                "<empty>".to_owned()
            } else {
                text.to_owned()
            };
            Some(
                Usage {
                    allowed: is_telegram_user_allowed(config, sender.id),
                    action: action.to_owned(),
                    detail,
                },
            )
        },
        None => None,
    }
}

/// What to do about a message.
#[derive(Debug)]
pub enum MessagePlan {
    /// Nothing.
    Ignore,
    /// Answer at once.
    Reply(OutgoingMessage),
    /// Ask the administrators to grant the user access, and tell the user how many were asked.
    RequestAccess { user_id: u64 },
    /// Grant the user access, and say so.
    Approve { user_id: u64 },
    /// Store the file that came with the message under its name.
    StoreDocument { file_name: String },
    /// Store the text under the name.
    StoreText { file_name: String, text: String },
    /// Show the latest documents.
    ListRecent,
    /// Remove duplicates from the database.
    Clean,
    /// Search the documents.
    Search { query: String },
}

pub enum PlanView {
    Ignore,
    Reply(MessageView),
    RequestAccess(nat),
    Approve(nat),
    StoreDocument(Seq<char>),
    StoreText(Seq<char>, Seq<char>),
    ListRecent,
    Clean,
    Search(Seq<char>),
}

impl View for MessagePlan {
    type V = PlanView;

    open spec fn view(&self) -> PlanView {
        match self {
            MessagePlan::Ignore => PlanView::Ignore,
            MessagePlan::Reply(message) => PlanView::Reply(message@),
            MessagePlan::RequestAccess { user_id } => PlanView::RequestAccess(*user_id as nat),
            MessagePlan::Approve { user_id } => PlanView::Approve(*user_id as nat),
            MessagePlan::StoreDocument { file_name } => PlanView::StoreDocument(file_name@),
            MessagePlan::StoreText { file_name, text } => PlanView::StoreText(file_name@, text@),
            MessagePlan::ListRecent => PlanView::ListRecent,
            MessagePlan::Clean => PlanView::Clean,
            MessagePlan::Search { query } => PlanView::Search(query@),
        }
    }
}

pub open spec fn refusal_text(user_id: nat) -> Seq<char> {
    "Unauthorized user.\nSend /join to request access.\nYour Telegram user ID: "@ + decimal(user_id)
}

pub const ALREADY_ALLOWED: &'static str = "You already have access.";

pub const ADMIN_ONLY: &'static str = "Admin only command.";

pub const APPROVE_USAGE: &'static str = "Usage: /approve <telegram_user_id>";

pub const READY_FOR_CONTENT: &'static str = "Ready to receive new content. Send plain text or upload a .txt/.md file in your next message.";

pub const SEND_CONTENT: &'static str = "Send plain text or upload a .txt/.md file.";

pub const SEARCH_USAGE: &'static str = "Usage: /s <keywords>";

/// The name under which a text from a chat is stored.
pub open spec fn text_file_name(chat_id: int, message_id: int) -> Seq<char> {
    "telegram-"@ + decimal_int(chat_id) + "-"@ + decimal_int(message_id) + ".md"@
}

/// The plan for a message from a user without access.
pub open spec fn plan_for_stranger(user_id: u64, message: IncomingMessage) -> PlanView {
    if is_command(message.said(), "/join"@) {
        PlanView::RequestAccess(user_id as nat)
    } else {
        PlanView::Reply(
            command_message(
                message.chat_id as int,
                refusal_text(user_id as nat),
                Some(message.message_id),
                false,
                false,
            ),
        )
    }
}

/// The plan for a message from a user with access.
pub open spec fn plan_for_user(admin: bool, awaiting: bool, message: IncomingMessage) -> PlanView {
    let text = message.said();
    let reply = |answer: Seq<char>|
        PlanView::Reply(
            command_message(
                message.chat_id as int,
                answer,
                Some(message.message_id),
                true,
                admin,
            ),
        );
    if is_command(text, "/join"@) {
        reply(ALREADY_ALLOWED@)
    } else if approved_user(text) is Some {
        if admin {
            PlanView::Approve(approved_user(text)->0)
        } else {
            reply(ADMIN_ONLY@)
        }
    } else if is_command(text, "/approve"@) {
        reply(APPROVE_USAGE@)
    } else if is_command(text, "/new"@) {
        reply(READY_FOR_CONTENT@)
    } else if awaiting && message.document is Some {
        PlanView::StoreDocument(message.document_name("telegram-document.txt"@))
    } else if awaiting && text.len() > 0 && text.first() != '/' {
        PlanView::StoreText(
            text_file_name(message.chat_id as int, message.message_id as int),
            text,
        )
    } else if text.len() == 0 {
        if awaiting {
            reply(SEND_CONTENT@)
        } else {
            PlanView::Ignore
        }
    } else if is_command(text, "/start"@) || is_command(text, "/show"@) {
        PlanView::ListRecent
    } else if is_command(text, "/clean"@) {
        PlanView::Clean
    } else {
        match search_query(text) {
            None => reply(help_text(text, admin)),
            Some(query) => if query.len() == 0 {
                reply(SEARCH_USAGE@)
            } else {
                PlanView::Search(query)
            },
        }
    }
}

/// The plan for a message.
pub open spec fn message_plan(
    config: AppConfig,
    awaiting: bool,
    message: IncomingMessage,
) -> PlanView {
    match message.sender {
        Some(sender) if !sender.is_bot => if is_allowed(config, sender.id) {
            plan_for_user(is_admin(config, sender.id), awaiting, message)
        } else {
            plan_for_stranger(sender.id, message)
        },
        _ => PlanView::Ignore,
    }
}

/// Whether the message makes the bot wait for a text or a file from its chat.
pub open spec fn asks_to_store(config: AppConfig, message: IncomingMessage) -> bool {
    match message.sender {
        Some(sender) => !sender.is_bot && is_allowed(config, sender.id) && is_command(
            message.said(),
            "/new"@,
        ),
        None => false,
    }
}

fn reply_to(message: &IncomingMessage, answer: &str, admin: bool) -> (r: MessagePlan)
    ensures
        r@ == PlanView::Reply(
            command_message(
                message.chat_id as int,
                answer@,
                Some(message.message_id),
                true,
                admin,
            ),
        ),
{
    MessagePlan::Reply(
        message_with_command_keyboard(
            message.chat_id,
            answer,
            Some(message.message_id),
            true,
            admin,
        ),
    )
}

fn refuse(user_id: u64, message: &IncomingMessage) -> (r: MessagePlan)
    ensures
        r@ == plan_for_stranger(user_id, *message),
{
    if is_join_command(message.text()) {
        return MessagePlan::RequestAccess { user_id };
    }
    let mut text =
        "Unauthorized user.\nSend /join to request access.\nYour Telegram user ID: ".to_owned();
    text.append(render_u64(user_id).as_str());
    MessagePlan::Reply(
        message_with_command_keyboard(
            message.chat_id,
            text.as_str(),
            Some(message.message_id),
            false,
            false,
        ),
    )
}

proof fn lemma_commands_differ(text: Seq<char>)
    requires
        is_command(text, "/new"@),
    ensures
        !is_command(text, "/join"@),
        !is_command(text, "/approve"@),
        approved_user(text) is None,
{
    reveal_strlit("/new");
    reveal_strlit("/join");
    reveal_strlit("/approve");
    reveal_strlit("@");
    let whole = trimmed(text);
    assert(whole[1] == 'n') by {
        if whole != "/new"@ {
            assert(whole.take(5)[1] == ("/new"@ + "@"@)[1]);
        }
    }
    if is_command(text, "/join"@) && whole != "/join"@ {
        assert(whole.take(6)[1] == ("/join"@ + "@"@)[1]);
    }
    if is_command(text, "/approve"@) && whole != "/approve"@ {
        assert(whole.take(9)[1] == ("/approve"@ + "@"@)[1]);
    }
    let word = crate::commands::first_word(whole);
    if approved_user(text) is Some {
        assert(word[1] == whole[1]) by {
            crate::text::lemma_word_length(whole);
        }
        if word != "/approve"@ {
            assert(word.take(9)[1] == ("/approve"@ + "@"@)[1]);
        }
    }
}

fn plan_allowed(admin: bool, awaiting: bool, message: &IncomingMessage) -> (r: MessagePlan)
    ensures
        r@ == plan_for_user(admin, awaiting, *message),
{
    let text = message.text();
    if is_join_command(text) {
        return reply_to(message, ALREADY_ALLOWED, admin);
    }
    if let Some(user_id) = parse_approve_command(text) {
        if !admin {
            return reply_to(message, ADMIN_ONLY, admin);
        }
        return MessagePlan::Approve { user_id };
    }
    if is_approve_command(text) {
        return reply_to(message, APPROVE_USAGE, admin);
    }
    if is_new_command(text) {
        return reply_to(message, READY_FOR_CONTENT, admin);
    }
    if awaiting {
        if message.document.is_some() {
            return MessagePlan::StoreDocument { file_name: message.named("telegram-document.txt") };
        }
        if !text.is_empty() && !starts_with_char(text, '/') {
            let mut file_name = "telegram-".to_owned();
            file_name.append(render_i64(message.chat_id).as_str());
            file_name.append("-");
            file_name.append(render_i64(message.message_id as i64).as_str());
            file_name.append(".md");
            return MessagePlan::StoreText { file_name, text: text.to_owned() };
        }
    }
    if text.is_empty() {
        if awaiting {
            return reply_to(message, SEND_CONTENT, admin);
        }
        return MessagePlan::Ignore;
    }
    if is_recent_documents_command(text) {
        return MessagePlan::ListRecent;
    }
    if is_clean_command(text) {
        return MessagePlan::Clean;
    }
    match parse_search_command(text) {
        None => {
            let help = telegram_help_message(text, admin);
            reply_to(message, help.as_str(), admin)
        },
        Some(query) => if query.is_empty() {
            reply_to(message, SEARCH_USAGE, admin)
        } else {
            MessagePlan::Search { query: query.to_owned() }
        },
    }
}

/// Decides what to do about a message, and remembers where it announces a text or a file.
pub fn plan_message(
    config: &AppConfig,
    state: &mut TelegramRuntimeState,
    message: &IncomingMessage,
) -> (r: MessagePlan)
    ensures
        r@ == message_plan(*config, old(state)@.awaiting.contains(message.chat_id), *message),
        final(state)@ == (if asks_to_store(*config, *message) {
            old(state)@.expecting(message.chat_id)
        } else {
            old(state)@
        }),
{
    match message.sender {
        Some(sender) => {
            if sender.is_bot {
                return MessagePlan::Ignore;
            }
            if !is_telegram_user_allowed(config, sender.id) {
                return refuse(sender.id, message);
            }
            let admin = is_telegram_admin(config, sender.id);
            let awaiting = state.is_awaiting(message.chat_id);
            let plan = plan_allowed(admin, awaiting, message);
            if is_new_command(message.text()) {
                state.await_content(message.chat_id);
            }
            plan
        },
        None => MessagePlan::Ignore,
    }
}

/// A user without access is only ever refused or referred to the administrators.
pub proof fn law_strangers_are_refused(
    config: AppConfig,
    awaiting: bool,
    message: IncomingMessage,
    sender: Sender,
)
    requires
        message.sender == Some(sender),
        !is_allowed(config, sender.id),
    ensures
        ({
            let plan = message_plan(config, awaiting, message);
            ||| plan is Ignore
            ||| plan == PlanView::RequestAccess(sender.id as nat)
            ||| plan == PlanView::Reply(
                command_message(
                    message.chat_id as int,
                    refusal_text(sender.id as nat),
                    Some(message.message_id),
                    false,
                    false,
                ),
            )
        }),
        !asks_to_store(config, message),
{
}

/// Only administrators approve users.
pub proof fn law_only_admins_approve(
    config: AppConfig,
    awaiting: bool,
    message: IncomingMessage,
)
    requires
        message_plan(config, awaiting, message) is Approve,
    ensures
        message.sender is Some,
        is_admin(config, message.sender->0.id),
{
}

/// Something is stored only for a user with access whose chat announced it.
pub proof fn law_only_announced_content_is_stored(
    config: AppConfig,
    awaiting: bool,
    message: IncomingMessage,
)
    requires
        message_plan(config, awaiting, message) is StoreDocument || message_plan(
            config,
            awaiting,
            message,
        ) is StoreText,
    ensures
        awaiting,
        message.sender is Some,
        is_allowed(config, message.sender->0.id),
{
}

/// An announcement is always confirmed, whatever was announced before.
pub proof fn law_announcement_is_confirmed(
    config: AppConfig,
    awaiting: bool,
    message: IncomingMessage,
)
    requires
        asks_to_store(config, message),
    ensures
        message_plan(config, awaiting, message) == PlanView::Reply(
            command_message(
                message.chat_id as int,
                READY_FOR_CONTENT@,
                Some(message.message_id),
                true,
                is_admin(config, message.sender->0.id),
            ),
        ),
{
    let text = message.said();
    lemma_commands_differ(text);
}

// ---------------------------------------------------------------------------------------------
// Answers after the work

/// The answer to a request for access that went to so many administrators.
pub open spec fn access_request_answer(user_id: nat, delivered: nat) -> Seq<char> {
    if delivered == 0 {
        "No admin could be notified. Ask the owner to add your Telegram user ID "@ + decimal(
            user_id,
        ) + " manually."@
    } else {
        "Access request sent to "@ + decimal(delivered) + " admin(s).\nYour Telegram user ID: "@
            + decimal(user_id)
    }
}

pub fn answer_access_request(
    chat_id: i64,
    message_id: i32,
    user_id: u64,
    delivered: usize,
) -> (r: OutgoingMessage)
    ensures
        r@ == command_message(
            chat_id as int,
            access_request_answer(user_id as nat, delivered as nat),
            Some(message_id),
            false,
            false,
        ),
{
    let shown = render_u64(user_id);
    let mut text;
    if delivered == 0 {
        text =
        "No admin could be notified. Ask the owner to add your Telegram user ID ".to_owned();
        text.append(shown.as_str());
        text.append(" manually.");
    } else {
        text = "Access request sent to ".to_owned();
        text.append(render_usize(delivered).as_str());
        text.append(" admin(s).\nYour Telegram user ID: ");
        text.append(shown.as_str());
    }
    message_with_command_keyboard(chat_id, text.as_str(), Some(message_id), false, false)
}

/// What is said of an approval.
pub open spec fn approval_text(user_id: nat, added: bool) -> Seq<char> {
    if added {
        "Approved Telegram user ID "@ + decimal(user_id) + "."@
    } else {
        "Telegram user ID "@ + decimal(user_id) + " already has access."@
    }
}

fn render_approval(user_id: u64, added: bool) -> (r: String)
    ensures
        r@ == approval_text(user_id as nat, added),
{
    let shown = render_u64(user_id);
    let mut text;
    if added {
        text = "Approved Telegram user ID ".to_owned();
        text.append(shown.as_str());
        text.append(".");
    } else {
        text = "Telegram user ID ".to_owned();
        text.append(shown.as_str());
        text.append(" already has access.");
    }
    text
}

/// The notice to a user with new access, where there is a chat for it.
pub open spec fn notices(user_id: u64, added: bool) -> Seq<MessageView> {
    if added && fits_chat_id(user_id) {
        seq![plain_message(user_id as int, approval_notice_text(), None)]
    } else {
        Seq::empty()
    }
}

fn add_notice(messages: &mut Vec<OutgoingMessage>, user_id: u64, added: bool)
    ensures
        message_views(final(messages)@) == message_views(old(messages)@) + notices(user_id, added),
{
    let ghost before = message_views(messages@);
    if added {
        if let Some(notice) = approval_notice(user_id) {
            let ghost shown = notice@;
            messages.push(notice);
            assert(message_views(messages@) =~= before + seq![shown]);
            return;
        }
    }
    assert(message_views(messages@) =~= before + notices(user_id, added));
}

/// The messages after an administrator typed an approval: the answer, and the notice to the user.
pub fn answer_approval(chat_id: i64, message_id: i32, user_id: u64, added: bool) -> (r: Vec<
    OutgoingMessage,
>)
    ensures
        message_views(r@) == seq![
            command_message(
                chat_id as int,
                approval_text(user_id as nat, added),
                Some(message_id),
                true,
                true,
            ),
        ] + notices(user_id, added),
{
    let text = render_approval(user_id, added);
    let answer = message_with_command_keyboard(
        chat_id,
        text.as_str(),
        Some(message_id),
        true,
        true,
    );
    let ghost shown = answer@;
    let mut r: Vec<OutgoingMessage> = Vec::new();
    r.push(answer);
    assert(message_views(r@) =~= seq![shown]);
    add_notice(&mut r, user_id, added);
    r
}

/// The answer after a text or a file from a chat was stored, which is then no longer awaited.
pub fn answer_stored(
    state: &mut TelegramRuntimeState,
    chat_id: i64,
    message_id: i32,
    from_file: bool,
    document_header: &str,
    document_id: i64,
) -> (r: OutgoingMessage)
    ensures
        final(state)@ == old(state)@.not_expecting(chat_id),
        r@ == document_message(
            chat_id as int,
            if from_file {
                "Saved new document."@
            } else {
                "Saved new text."@
            },
            document_header@,
            document_id as int,
            Some(message_id),
        ),
{
    state.stop_awaiting(chat_id);
    message_with_document_button(
        chat_id,
        if from_file {
            "Saved new document."
        } else {
            "Saved new text."
        },
        document_header,
        document_id,
        Some(message_id),
    )
}

/// The answer to the request for the latest documents, which can then be turned through.
pub fn answer_recent(
    state: &mut TelegramRuntimeState,
    chat_id: i64,
    message_id: i32,
    admin: bool,
    documents: Vec<QueryMatch>,
) -> (r: OutgoingMessage)
    requires
        documents@.len() > 0 ==> old(state).next_search_session_id < u64::MAX,
    ensures
        documents@.len() == 0 ==> final(state)@ == old(state)@ && r@ == command_message(
            chat_id as int,
            "No documents are stored yet."@,
            Some(message_id),
            true,
            admin,
        ),
        documents@.len() > 0 ==> final(state)@ == old(state)@.with_session(
            match_views(documents@),
        ) && r@ == results_message(
            chat_id as int,
            old(state)@.next_session as nat,
            match_views(documents@),
            0,
            Some(message_id),
        ),
{
    if documents.len() == 0 {
        return message_with_command_keyboard(
            chat_id,
            "No documents are stored yet.",
            Some(message_id),
            true,
            admin,
        );
    }
    state.open_session(documents, chat_id, Some(message_id))
}

/// How many rows were removed from the database.
#[derive(Debug, Clone, Copy, PartialEq, Eq, Structural)]
pub struct CleanupResult {
    pub duplicate_paths_removed: usize,
    pub duplicate_embeddings_removed: usize,
}

impl CleanupResult {
    pub open spec fn total(self) -> nat {
        (self.duplicate_paths_removed + self.duplicate_embeddings_removed) as nat
    }

    pub fn total_removed(&self) -> (r: usize)
        requires
            self.total() <= usize::MAX,
        ensures
            r == self.total(),
    {
        self.duplicate_paths_removed + self.duplicate_embeddings_removed
    }
}

pub open spec fn cleanup_text(result: CleanupResult) -> Seq<char> {
    "Database cleanup finished.\nRemoved duplicate path rows: "@ + decimal(
        result.duplicate_paths_removed as nat,
    ) + "\nRemoved duplicate embedding rows: "@ + decimal(
        result.duplicate_embeddings_removed as nat,
    ) + "\nTotal removed: "@ + decimal(result.total())
}

pub fn answer_cleanup(chat_id: i64, message_id: i32, admin: bool, result: CleanupResult) -> (r:
    OutgoingMessage)
    requires
        result.total() <= usize::MAX,
    ensures
        r@ == command_message(
            chat_id as int,
            cleanup_text(result),
            Some(message_id),
            true,
            admin,
        ),
{
    let mut text = "Database cleanup finished.\nRemoved duplicate path rows: ".to_owned();
    text.append(render_usize(result.duplicate_paths_removed).as_str());
    text.append("\nRemoved duplicate embedding rows: ");
    text.append(render_usize(result.duplicate_embeddings_removed).as_str());
    text.append("\nTotal removed: ");
    text.append(render_usize(result.total_removed()).as_str());
    message_with_command_keyboard(chat_id, text.as_str(), Some(message_id), true, admin)
}

pub const NO_MATCHES: &'static str = "No documents matched that query above the configured threshold. Try more specific keywords or lower telegram.match_accuracy.";

/// What a search leads to.
#[derive(Debug)]
pub enum SearchAnswer {
    Message(OutgoingMessage),
    /// Send the document itself.
    Document { path: String },
}

pub enum SearchAnswerView {
    Message(MessageView),
    Document(Seq<char>),
}

impl View for SearchAnswer {
    type V = SearchAnswerView;

    open spec fn view(&self) -> SearchAnswerView {
        match self {
            SearchAnswer::Message(message) => SearchAnswerView::Message(message@),
            SearchAnswer::Document { path } => SearchAnswerView::Document(path@),
        }
    }
}

/// The answer to a search: a single strong match is sent, several are listed on pages.
pub open spec fn search_answer(
    next_session: u64,
    chat_id: int,
    message_id: i32,
    admin: bool,
    strong: Seq<MatchView>,
) -> SearchAnswerView {
    if strong.len() == 0 {
        SearchAnswerView::Message(
            command_message(chat_id, NO_MATCHES@, Some(message_id), true, admin),
        )
    } else if strong.len() == 1 {
        SearchAnswerView::Document(strong[0].path)
    } else {
        SearchAnswerView::Message(
            results_message(chat_id, next_session as nat, strong, 0, Some(message_id)),
        )
    }
}

/// The answer to a search with the given matches, of which those below the configured accuracy
/// do not count.
pub fn answer_search(
    config: &AppConfig,
    state: &mut TelegramRuntimeState,
    chat_id: i64,
    message_id: i32,
    admin: bool,
    matches: &Vec<QueryMatch>,
) -> (r: SearchAnswer)
    requires
        passing(match_views(matches@), config.telegram.match_accuracy).len() > 1 ==> old(
            state,
        ).next_search_session_id < u64::MAX,
    ensures
        ({
            let strong = passing(match_views(matches@), config.telegram.match_accuracy);
            &&& r@ == search_answer(
                old(state)@.next_session,
                chat_id as int,
                message_id,
                admin,
                strong,
            )
            &&& final(state)@ == (if strong.len() > 1 {
                old(state)@.with_session(strong)
            } else {
                old(state)@
            })
        }),
{
    let strong = matches_above(matches, config.telegram.match_accuracy);
    assert(match_views(strong@).len() == strong@.len());
    if strong.len() == 0 {
        return SearchAnswer::Message(
            message_with_command_keyboard(chat_id, NO_MATCHES, Some(message_id), true, admin),
        );
    }
    if strong.len() == 1 {
        assert(match_views(strong@)[0] == strong@[0]@);
        return SearchAnswer::Document { path: strong[0].path.as_str().to_owned() };
    }
    SearchAnswer::Message(state.open_session(strong, chat_id, Some(message_id)))
}

// ---------------------------------------------------------------------------------------------
// Buttons

/// A pressed button: who pressed it, what it says, and the message that it stands under.
#[derive(Debug)]
pub struct IncomingCallback {
    pub user_id: u64,
    pub data: Option<String>,
    /// The chat and the number of the message, where it is still known.
    pub message: Option<(i64, i32)>,
}

impl IncomingCallback {
    pub open spec fn pressed(self) -> Seq<char> {
        match self.data {
            Some(data) => data@,
            None => ""@,
        }
    }

    fn data_text(&self) -> (r: &str)
        ensures
            r@ == self.pressed(),
    {
        match &self.data {
            Some(data) => data.as_str(),
            None => "",
        }
    }
}

pub open spec fn callback_action(data: Seq<char>) -> Seq<char> {
    if requested_approval(data) is Some {
        "approve-callback"@
    } else if requested_page(data) is Some {
        "page-callback"@
    } else if requested_document(data) is Some {
        "document-callback"@
    } else {
        "callback"@
    }
}

/// What is logged of a pressed button.
pub fn callback_usage(config: &AppConfig, callback: &IncomingCallback) -> (r: Usage)
    ensures
        r@ == (UsageView {
            allowed: is_allowed(*config, callback.user_id),
            action: callback_action(callback.pressed()),
            detail: callback.pressed(),
        }),
{
    let data = callback.data_text();
    let action = if parse_approve_callback(data).is_some() {
        "approve-callback"
    } else if parse_page_callback(data).is_some() {
        "page-callback"
    } else if parse_document_callback(data).is_some() {
        "document-callback"
    } else {
        "callback"
    };
    Usage {
        allowed: is_telegram_user_allowed(config, callback.user_id),
        action: action.to_owned(),
        detail: data.to_owned(),
    }
}

/// What to do about a pressed button.
#[derive(Debug)]
pub enum CallbackPlan {
    /// Nothing.
    Ignore,
    /// Answer with a short text.
    Answer(String),
    /// Grant the user access, and say so.
    Approve { user_id: u64 },
    /// Answer without a text, and show the page.
    TurnPage(PageEdit),
    /// Look the document up, and send it to the chat.
    FindDocument { document_id: i64, chat_id: i64, message_id: i32 },
}

pub enum CallbackPlanView {
    Ignore,
    Answer(Seq<char>),
    Approve(nat),
    TurnPage(PageEditView),
    FindDocument { document_id: int, chat_id: int, message_id: int },
}

impl View for CallbackPlan {
    type V = CallbackPlanView;

    open spec fn view(&self) -> CallbackPlanView {
        match self {
            CallbackPlan::Ignore => CallbackPlanView::Ignore,
            CallbackPlan::Answer(text) => CallbackPlanView::Answer(text@),
            CallbackPlan::Approve { user_id } => CallbackPlanView::Approve(*user_id as nat),
            CallbackPlan::TurnPage(edit) => CallbackPlanView::TurnPage(edit@),
            CallbackPlan::FindDocument { document_id, chat_id, message_id } =>
                CallbackPlanView::FindDocument {
                document_id: *document_id as int,
                chat_id: *chat_id as int,
                message_id: *message_id as int,
            },
        }
    }
}

/// The plan for a button to a page of a search.
pub open spec fn plan_for_page(
    sessions: Map<u64, Seq<MatchView>>,
    message: Option<(i64, i32)>,
    session: nat,
    page: nat,
) -> CallbackPlanView {
    match message {
        None => CallbackPlanView::Answer("This page is no longer available."@),
        Some(place) => if sessions.contains_key(session as u64) {
            let matches = sessions[session as u64];
            CallbackPlanView::TurnPage(
                page_edit_view(
                    place.0 as int,
                    place.1 as int,
                    session,
                    matches,
                    nearest_page(page, matches.len()),
                ),
            )
        } else {
            CallbackPlanView::Answer("Search results expired. Run /s again."@)
        },
    }
}

/// The plan for a pressed button.
pub open spec fn callback_plan(
    config: AppConfig,
    sessions: Map<u64, Seq<MatchView>>,
    callback: IncomingCallback,
) -> CallbackPlanView {
    let data = callback.pressed();
    if !is_allowed(config, callback.user_id) {
        CallbackPlanView::Answer("Unauthorized."@)
    } else if callback.data is None {
        CallbackPlanView::Ignore
    } else if requested_approval(data) is Some {
        if is_admin(config, callback.user_id) {
            CallbackPlanView::Approve(requested_approval(data)->0)
        } else {
            CallbackPlanView::Answer("Admin only."@)
        }
    } else {
        match requested_page(data) {
            Some((session, page)) => plan_for_page(sessions, callback.message, session, page),
            None => match requested_document(data) {
                None => CallbackPlanView::Ignore,
                Some(id) => match callback.message {
                    None => CallbackPlanView::Answer("This selection is no longer available."@),
                    Some(place) => CallbackPlanView::FindDocument {
                        document_id: id,
                        chat_id: place.0 as int,
                        message_id: place.1 as int,
                    },
                },
            },
        }
    }
}

fn plan_page(
    state: &TelegramRuntimeState,
    message: Option<(i64, i32)>,
    session_id: u64,
    page: usize,
) -> (r: CallbackPlan)
    ensures
        r@ == plan_for_page(state@.sessions, message, session_id as nat, page as nat),
{
    match message {
        None => CallbackPlan::Answer("This page is no longer available.".to_owned()),
        Some(place) => match state.session(session_id) {
            None => CallbackPlan::Answer("Search results expired. Run /s again.".to_owned()),
            Some(session) => {
                let pages = search_results_page_count(session);
                let shown: usize = if page < pages {
                    page
                } else {
                    pages - 1
                };
                CallbackPlan::TurnPage(
                    edit_search_results_message(place.0, place.1, session_id, session, shown),
                )
            },
        },
    }
}

/// Decides what to do about a pressed button.
pub fn plan_callback(
    config: &AppConfig,
    state: &TelegramRuntimeState,
    callback: &IncomingCallback,
) -> (r: CallbackPlan)
    ensures
        r@ == callback_plan(*config, state@.sessions, *callback),
{
    if !is_telegram_user_allowed(config, callback.user_id) {
        return CallbackPlan::Answer("Unauthorized.".to_owned());
    }
    if callback.data.is_none() {
        return CallbackPlan::Ignore;
    }
    let data = callback.data_text();
    if let Some(user_id) = parse_approve_callback(data) {
        if !is_telegram_admin(config, callback.user_id) {
            return CallbackPlan::Answer("Admin only.".to_owned());
        }
        return CallbackPlan::Approve { user_id };
    }
    if let Some((session_id, page)) = parse_page_callback(data) {
        return plan_page(state, callback.message, session_id, page);
    }
    match parse_document_callback(data) {
        None => CallbackPlan::Ignore,
        Some(document_id) => match callback.message {
            None => CallbackPlan::Answer("This selection is no longer available.".to_owned()),
            Some((chat_id, message_id)) => CallbackPlan::FindDocument {
                document_id,
                chat_id,
                message_id,
            },
        },
    }
}

/// A button pressed by a user without access does nothing but say so.
pub proof fn law_strangers_press_in_vain(
    config: AppConfig,
    sessions: Map<u64, Seq<MatchView>>,
    callback: IncomingCallback,
)
    requires
        !is_allowed(config, callback.user_id),
    ensures
        callback_plan(config, sessions, callback) == CallbackPlanView::Answer("Unauthorized."@),
{
}

/// A user with access who presses the button of a result is sent the document of that result.
pub proof fn law_result_button_sends_its_document(
    config: AppConfig,
    sessions: Map<u64, Seq<MatchView>>,
    callback: IncomingCallback,
    header: Seq<char>,
    document_id: i64,
    place: (i64, i32),
)
    requires
        is_allowed(config, callback.user_id),
        callback.data is Some,
        callback.pressed() == document_button_view(header, document_id as int).callback_data,
        callback.message == Some(place),
    ensures
        callback_plan(config, sessions, callback) == (CallbackPlanView::FindDocument {
            document_id: document_id as int,
            chat_id: place.0 as int,
            message_id: place.1 as int,
        }),
{
    law_document_button_reads_back(header, document_id);
    law_buttons_are_told_apart(document_id, 0, 0, 0);
}

/// A search whose matches were kept can be turned through: the button to one of its pages shows
/// that page of these matches.
pub proof fn law_kept_search_can_be_turned_through(
    config: AppConfig,
    state: StateView,
    matches: Seq<MatchView>,
    callback: IncomingCallback,
    page: usize,
    place: (i64, i32),
)
    requires
        is_allowed(config, callback.user_id),
        callback.data is Some,
        callback.pressed() == page_data(state.next_session as nat, page as nat),
        callback.message == Some(place),
        page < page_count(matches.len()),
    ensures
        callback_plan(config, state.with_session(matches).sessions, callback)
            == CallbackPlanView::TurnPage(
            page_edit_view(
                place.0 as int,
                place.1 as int,
                state.next_session as nat,
                matches,
                page as nat,
            ),
        ),
{
    law_page_button_reads_back(state.next_session, page);
    law_buttons_are_told_apart(0, 0, state.next_session, page);
}

/// The button of an access request, pressed by an administrator, grants the user that asked
/// access.
pub proof fn law_approve_button_approves_its_user(
    config: AppConfig,
    sessions: Map<u64, Seq<MatchView>>,
    callback: IncomingCallback,
    user_id: u64,
)
    requires
        is_admin(config, callback.user_id),
        callback.data is Some,
        callback.pressed() == approve_button_view(user_id as nat).callback_data,
    ensures
        callback_plan(config, sessions, callback) == CallbackPlanView::Approve(user_id as nat),
{
    law_approve_button_reads_back(user_id);
}

/// Only administrators approve users by a button.
pub proof fn law_only_admins_approve_by_button(
    config: AppConfig,
    sessions: Map<u64, Seq<MatchView>>,
    callback: IncomingCallback,
)
    requires
        callback_plan(config, sessions, callback) is Approve,
    ensures
        is_admin(config, callback.user_id),
{
}

/// After an approval by a button: the short answer, and the messages that follow it.
pub fn answer_button_approval(
    message: Option<(i64, i32)>,
    user_id: u64,
    added: bool,
) -> (r: (String, Vec<OutgoingMessage>))
    ensures
        r.0@ == (if added {
            "User approved."@
        } else {
            "User already allowed."@
        }),
        message_views(r.1@) == (match message {
            Some(place) => seq![
                plain_message(
                    place.0 as int,
                    approval_text(user_id as nat, added),
                    Some(place.1),
                ),
            ],
            None => Seq::<MessageView>::empty(),
        }) + notices(user_id, added),
{
    let answer = if added {
        "User approved."
    } else {
        "User already allowed."
    };
    let mut messages: Vec<OutgoingMessage> = Vec::new();
    match message {
        Some((chat_id, message_id)) => {
            let text = render_approval(user_id, added);
            let sent = text_message(chat_id, text.as_str(), Some(message_id));
            let ghost shown = sent@;
            messages.push(sent);
            assert(message_views(messages@) =~= seq![shown]);
        },
        None => {
            assert(message_views(messages@) =~= Seq::<MessageView>::empty());
        },
    }
    add_notice(&mut messages, user_id, added);
    (answer.to_owned(), messages)
}

/// The short answer to the request for a document, and whether the document follows.
pub open spec fn document_answer(found: bool, file_exists: bool) -> (Seq<char>, bool) {
    if !found {
        ("Document not found."@, false)
    } else if !file_exists {
        ("The file is no longer available."@, false)
    } else {
        ("Sending document..."@, true)
    }
}

pub fn answer_document(found: bool, file_exists: bool) -> (r: (String, bool))
    ensures
        (r.0@, r.1) == document_answer(found, file_exists),
{
    if !found {
        ("Document not found.".to_owned(), false)
    } else if !file_exists {
        ("The file is no longer available.".to_owned(), false)
    } else {
        ("Sending document...".to_owned(), true)
    }
}

/// What is logged of the short answer to a pressed button.
pub fn answer_audit_detail<'a>(text: Option<&'a str>) -> (r: &'a str)
    ensures
        r@ == (match text {
            Some(answer) => answer@,
            None => "<empty>"@,
        }),
{
    match text {
        Some(answer) => answer,
        None => "<empty>",
    }
}

// ---------------------------------------------------------------------------------------------
// Laws of the plans

/// A message from a person with access.
pub open spec fn from_user(config: AppConfig, message: IncomingMessage) -> bool {
    message.sender matches Some(sender) && !sender.is_bot && is_allowed(config, sender.id)
}

/// A person with access is answered in the chat, in reply to the message, with the buttons of a
/// user or of an administrator.
pub open spec fn replies_with(
    config: AppConfig,
    message: IncomingMessage,
    answer: Seq<char>,
) -> PlanView {
    PlanView::Reply(
        command_message(
            message.chat_id as int,
            answer,
            Some(message.message_id),
            true,
            is_admin(config, message.sender->0.id),
        ),
    )
}

proof fn lemma_said_is_bare(message: IncomingMessage)
    ensures
        trimmed(message.said()) == message.said(),
{
    law_trimmed_text_is_bare(
        match message.text {
            Some(text) => text@,
            None => ""@,
        },
    );
}

/// Commands are never stored: what is stored as text does not begin like one, and a chat that is
/// waiting for a text does with a command what any other chat does.
pub proof fn law_commands_are_never_stored(config: AppConfig, message: IncomingMessage)
    ensures
        message_plan(config, true, message) is StoreText ==> message.said().len() > 0
            && message.said()[0] != '/',
        message_plan(config, false, message) !is StoreText,
        message.document is None && message.said().len() > 0 && message.said()[0] == '/'
            ==> message_plan(config, true, message) == message_plan(config, false, message),
{
}

/// A text that was announced is stored as it is, under a name of its own; so is a file, under its
/// name.
pub proof fn law_announced_content_is_stored(config: AppConfig, message: IncomingMessage)
    requires
        from_user(config, message),
    ensures
        message.document is None && message.said().len() > 0 && message.said()[0] != '/'
            ==> message_plan(config, true, message) == PlanView::StoreText(
            "telegram-"@ + decimal_int(message.chat_id as int) + "-"@ + decimal_int(
                message.message_id as int,
            ) + ".md"@,
            message.said(),
        ),
        message.document is Some && (message.said().len() == 0 || message.said()[0] != '/')
            ==> message_plan(config, true, message) == PlanView::StoreDocument(
            match message.document->0.file_name {
                Some(name) => name@,
                None => "telegram-document.txt"@,
            },
        ),
{
    let text = message.said();
    lemma_said_is_bare(message);
    if text.len() == 0 || text[0] != '/' {
        lemma_no_command(text);
    }
}

proof fn lemma_no_command(text: Seq<char>)
    requires
        trimmed(text) == text,
        text.len() == 0 || text[0] != '/',
    ensures
        !is_command(text, "/join"@),
        !is_command(text, "/approve"@),
        !is_command(text, "/new"@),
        !is_command(text, "/start"@),
        !is_command(text, "/show"@),
        !is_command(text, "/clean"@),
        !is_command(text, "/help"@),
        approved_user(text) is None,
        search_query(text) is None,
{
    reveal_strlit("/join");
    reveal_strlit("/approve");
    reveal_strlit("/new");
    reveal_strlit("/start");
    reveal_strlit("/show");
    reveal_strlit("/clean");
    reveal_strlit("/help");
    if is_command(text, "/join"@) {
        lemma_command_letter(text, "/join"@, 0);
    }
    if is_command(text, "/approve"@) {
        lemma_command_letter(text, "/approve"@, 0);
    }
    if is_command(text, "/new"@) {
        lemma_command_letter(text, "/new"@, 0);
    }
    if is_command(text, "/start"@) {
        lemma_command_letter(text, "/start"@, 0);
    }
    if is_command(text, "/show"@) {
        lemma_command_letter(text, "/show"@, 0);
    }
    if is_command(text, "/clean"@) {
        lemma_command_letter(text, "/clean"@, 0);
    }
    if is_command(text, "/help"@) {
        lemma_command_letter(text, "/help"@, 0);
    }
    if approved_user(text) is Some {
        lemma_first_word_letter(text, "/approve"@, 0);
    }
    if search_query(text) is Some {
        law_only_the_search_command_searches(text);
    }
}

proof fn lemma_letters_tell_apart(text: Seq<char>, name: Seq<char>, other: Seq<char>, k: int)
    requires
        is_command(text, name),
        0 <= k < name.len(),
        k < other.len(),
        name[k] != other[k],
    ensures
        !is_command(text, other),
{
    lemma_command_letter(text, name, k);
    if is_command(text, other) {
        lemma_command_letter(text, other, k);
    }
}

proof fn lemma_letter_is_no_approval(text: Seq<char>, name: Seq<char>)
    requires
        is_command(text, name),
        name.len() > 1,
        name[1] != 'a',
    ensures
        !is_command(text, "/approve"@),
        approved_user(text) is None,
{
    reveal_strlit("/approve");
    lemma_letters_tell_apart(text, name, "/approve"@, 1);
    lemma_command_letter(text, name, 1);
    if approved_user(text) is Some {
        lemma_first_word_letter(text, "/approve"@, 1);
    }
}

proof fn lemma_letter_is_no_search(text: Seq<char>, name: Seq<char>)
    requires
        is_command(text, name),
        name.len() > 2,
        name[1] != 's' || (name[2] != '@' && !is_white(name[2])),
    ensures
        search_query(text) is None,
{
    lemma_command_letter(text, name, 1);
    lemma_command_letter(text, name, 2);
    if search_query(text) is Some {
        law_only_the_search_command_searches(text);
    }
}

/// Each command does what it is for, for every person with access and whether or not the chat is
/// waiting for a text, as long as no file comes with it.
pub proof fn law_commands_do_what_they_are_for(
    config: AppConfig,
    awaiting: bool,
    message: IncomingMessage,
)
    requires
        from_user(config, message),
        message.document is None,
    ensures
        is_command(message.said(), "/start"@) || is_command(message.said(), "/show"@)
            ==> message_plan(config, awaiting, message) == PlanView::ListRecent,
        is_command(message.said(), "/clean"@) ==> message_plan(config, awaiting, message)
            == PlanView::Clean,
        is_command(message.said(), "/join"@) ==> message_plan(config, awaiting, message)
            == replies_with(config, message, "You already have access."@),
        is_command(message.said(), "/help"@) ==> message_plan(config, awaiting, message)
            == replies_with(
            config,
            message,
            COMMAND_LIST@ + (if is_admin(config, message.sender->0.id) {
                "\n/approve <user_id> admin only: grant access"@
            } else {
                Seq::empty()
            }),
        ),
{
    reveal_strlit("/join");
    reveal_strlit("/new");
    reveal_strlit("/start");
    reveal_strlit("/show");
    reveal_strlit("/clean");
    reveal_strlit("/help");
    let text = message.said();
    lemma_said_is_bare(message);
    if is_command(text, "/start"@) {
        lemma_letter_is_no_approval(text, "/start"@);
        lemma_letters_tell_apart(text, "/start"@, "/join"@, 1);
        lemma_letters_tell_apart(text, "/start"@, "/new"@, 1);
        lemma_command_letter(text, "/start"@, 0);
    }
    if is_command(text, "/show"@) {
        lemma_letter_is_no_approval(text, "/show"@);
        lemma_letters_tell_apart(text, "/show"@, "/join"@, 1);
        lemma_letters_tell_apart(text, "/show"@, "/new"@, 1);
        lemma_command_letter(text, "/show"@, 0);
    }
    if is_command(text, "/clean"@) {
        lemma_letter_is_no_approval(text, "/clean"@);
        lemma_letters_tell_apart(text, "/clean"@, "/join"@, 1);
        lemma_letters_tell_apart(text, "/clean"@, "/new"@, 1);
        lemma_letters_tell_apart(text, "/clean"@, "/start"@, 1);
        lemma_letters_tell_apart(text, "/clean"@, "/show"@, 1);
        lemma_command_letter(text, "/clean"@, 0);
    }
    if is_command(text, "/help"@) {
        lemma_letter_is_no_approval(text, "/help"@);
        lemma_letter_is_no_search(text, "/help"@);
        lemma_letters_tell_apart(text, "/help"@, "/join"@, 1);
        lemma_letters_tell_apart(text, "/help"@, "/new"@, 1);
        lemma_letters_tell_apart(text, "/help"@, "/start"@, 1);
        lemma_letters_tell_apart(text, "/help"@, "/show"@, 1);
        lemma_letters_tell_apart(text, "/help"@, "/clean"@, 1);
        lemma_command_letter(text, "/help"@, 0);
        law_help_fits_the_text(text);
        assert(COMMAND_LIST@ + Seq::<char>::empty() =~= COMMAND_LIST@);
    }
}

proof fn lemma_search_is_no_other_command(text: Seq<char>)
    requires
        search_query(text) is Some,
    ensures
        !is_command(text, "/join"@),
        !is_command(text, "/approve"@),
        !is_command(text, "/new"@),
        !is_command(text, "/start"@),
        !is_command(text, "/show"@),
        !is_command(text, "/clean"@),
        !is_command(text, "/help"@),
        approved_user(text) is None,
{
    reveal_strlit("/join");
    reveal_strlit("/approve");
    reveal_strlit("/new");
    reveal_strlit("/start");
    reveal_strlit("/show");
    reveal_strlit("/clean");
    reveal_strlit("/help");
    law_only_the_search_command_searches(text);
    if is_command(text, "/join"@) {
        lemma_command_letter(text, "/join"@, 1);
    }
    if is_command(text, "/approve"@) {
        lemma_command_letter(text, "/approve"@, 1);
    }
    if is_command(text, "/new"@) {
        lemma_command_letter(text, "/new"@, 1);
    }
    if is_command(text, "/clean"@) {
        lemma_command_letter(text, "/clean"@, 1);
    }
    if is_command(text, "/help"@) {
        lemma_command_letter(text, "/help"@, 1);
    }
    if is_command(text, "/start"@) {
        lemma_command_letter(text, "/start"@, 2);
    }
    if is_command(text, "/show"@) {
        lemma_command_letter(text, "/show"@, 2);
    }
    if approved_user(text) is Some {
        lemma_first_word_letter(text, "/approve"@, 1);
    }
}

/// A search command searches for what stands behind it, whether or not the chat is waiting for a
/// text; with nothing behind it, it is explained.
pub proof fn law_search_command_searches(
    config: AppConfig,
    awaiting: bool,
    message: IncomingMessage,
)
    requires
        from_user(config, message),
        message.document is None,
        search_query(message.said()) is Some,
    ensures
        search_query(message.said())->0.len() > 0 ==> message_plan(config, awaiting, message)
            == PlanView::Search(search_query(message.said())->0),
        search_query(message.said())->0.len() == 0 ==> message_plan(config, awaiting, message)
            == replies_with(config, message, "Usage: /s <keywords>"@),
{
    lemma_said_is_bare(message);
    lemma_search_is_no_other_command(message.said());
    law_only_the_search_command_searches(message.said());
}

/// A search that was typed out is carried out: the command, a gap and a query give a search for
/// that query.
pub proof fn law_typed_search_is_carried_out(
    config: AppConfig,
    awaiting: bool,
    message: IncomingMessage,
    gap: Seq<char>,
    query: Seq<char>,
)
    requires
        from_user(config, message),
        message.document is None,
        all_white(gap),
        gap.len() > 0,
        bare(query),
        query.len() > 0,
        message.said() == seq!['/', 's'] + gap + query,
    ensures
        message_plan(config, awaiting, message) == PlanView::Search(query),
{
    let text = message.said();
    law_search_asks_for_what_follows(Seq::empty(), Seq::empty(), gap, query, Seq::empty());
    assert(Seq::<char>::empty() + text + Seq::<char>::empty() =~= text);
    law_search_command_searches(config, awaiting, message);
}

/// An approval is carried out for an administrator and refused to everyone else; one that names
/// nobody is explained.
pub proof fn law_approval_is_for_administrators(
    config: AppConfig,
    awaiting: bool,
    message: IncomingMessage,
)
    requires
        from_user(config, message),
    ensures
        approved_user(message.said()) is Some && is_admin(config, message.sender->0.id)
            ==> message_plan(config, awaiting, message) == PlanView::Approve(
            approved_user(message.said())->0,
        ),
        approved_user(message.said()) is Some && !is_admin(config, message.sender->0.id)
            ==> message_plan(config, awaiting, message) == replies_with(
            config,
            message,
            "Admin only command."@,
        ),
        approved_user(message.said()) is None && is_command(message.said(), "/approve"@)
            ==> message_plan(config, awaiting, message) == replies_with(
            config,
            message,
            "Usage: /approve <telegram_user_id>"@,
        ),
{
    reveal_strlit("/approve");
    reveal_strlit("/join");
    let text = message.said();
    if approved_user(text) is Some {
        lemma_first_word_letter(text, "/approve"@, 1);
        if is_command(text, "/join"@) {
            lemma_command_letter(text, "/join"@, 1);
        }
    }
    if is_command(text, "/approve"@) {
        lemma_letters_tell_apart(text, "/approve"@, "/join"@, 1);
    }
}

/// A text that is no command, in a chat that announced nothing, is answered with the help; an empty
/// message is passed over, or answered where something was announced.
pub proof fn law_other_messages_are_answered_with_help(
    config: AppConfig,
    message: IncomingMessage,
)
    requires
        from_user(config, message),
    ensures
        message.said().len() > 0 && message.said()[0] != '/' ==> message_plan(
            config,
            false,
            message,
        ) == replies_with(
            config,
            message,
            help_text(message.said(), is_admin(config, message.sender->0.id)),
        ),
        message.said().len() == 0 ==> message_plan(config, false, message) == PlanView::Ignore,
        message.said().len() == 0 && message.document is None ==> message_plan(
            config,
            true,
            message,
        ) == replies_with(
            config,
            message,
            "Send plain text or upload a .txt/.md file."@,
        ),
{
    lemma_said_is_bare(message);
    if message.said().len() == 0 || message.said()[0] != '/' {
        lemma_no_command(message.said());
    }
}

/// What comes from a bot or from nobody is passed over and not logged.
pub proof fn law_only_people_are_answered(
    config: AppConfig,
    awaiting: bool,
    message: IncomingMessage,
)
    requires
        message.sender is None || message.sender->0.is_bot,
    ensures
        message_plan(config, awaiting, message) == PlanView::Ignore,
        message_usage_view(config, message) is None,
        !asks_to_store(config, message),
{
}

/// What is logged is what is done: each plan that carries out a command is logged under that
/// command, as allowed, and with the text of the message.
pub proof fn law_what_is_done_is_logged(
    config: AppConfig,
    awaiting: bool,
    message: IncomingMessage,
)
    requires
        message.document is None,
        message.sender is Some,
        !message.sender->0.is_bot,
    ensures
        message_usage_view(config, message) is Some,
        message_usage_view(config, message)->0.allowed == is_allowed(config, message.sender->0.id),
        message_usage_view(config, message)->0.detail == (if message.said().len() == 0 {
            "<empty>"@
        } else {
            message.said()
        }),
        message_plan(config, awaiting, message) is Search ==> message_usage_view(
            config,
            message,
        )->0.action == "/s"@,
        message_plan(config, awaiting, message) is Clean ==> message_usage_view(
            config,
            message,
        )->0.action == "/clean"@,
        message_plan(config, awaiting, message) is ListRecent ==> message_usage_view(
            config,
            message,
        )->0.action == "/start-or-show"@,
        message_plan(config, awaiting, message) is RequestAccess ==> message_usage_view(
            config,
            message,
        )->0.action == "/join"@,
        message_plan(config, awaiting, message) is Approve ==> message_usage_view(
            config,
            message,
        )->0.action == "/approve"@,
        message_plan(config, awaiting, message) is StoreText ==> message_usage_view(
            config,
            message,
        )->0.action == "text"@,
        asks_to_store(config, message) ==> message_usage_view(config, message)->0.action
            == "/new"@,
{
    reveal_strlit("/join");
    reveal_strlit("/new");
    reveal_strlit("/start");
    reveal_strlit("/show");
    reveal_strlit("/clean");
    reveal_strlit("/approve");
    let text = message.said();
    lemma_said_is_bare(message);
    if search_query(text) is Some {
        lemma_search_is_no_other_command(text);
    }
    if text.len() > 0 && text[0] != '/' {
        lemma_no_command(text);
    }
    if is_command(text, "/join"@) {
        lemma_letters_tell_apart(text, "/join"@, "/new"@, 1);
        lemma_letters_tell_apart(text, "/join"@, "/start"@, 1);
        lemma_letters_tell_apart(text, "/join"@, "/show"@, 1);
        lemma_letters_tell_apart(text, "/join"@, "/clean"@, 1);
    }
    if approved_user(text) is Some {
        lemma_first_word_letter(text, "/approve"@, 1);
        if is_command(text, "/new"@) {
            lemma_command_letter(text, "/new"@, 1);
        }
        if is_command(text, "/start"@) {
            lemma_command_letter(text, "/start"@, 1);
        }
        if is_command(text, "/show"@) {
            lemma_command_letter(text, "/show"@, 1);
        }
        if is_command(text, "/clean"@) {
            lemma_command_letter(text, "/clean"@, 1);
        }
        if is_command(text, "/join"@) {
            lemma_command_letter(text, "/join"@, 1);
        }
    }
}

/// A stranger who asks for access is referred to the administrators, and every other message of
/// theirs is refused, with the number that they are to be approved by.
pub proof fn law_strangers_may_only_ask_for_access(
    config: AppConfig,
    awaiting: bool,
    message: IncomingMessage,
)
    requires
        message.sender is Some,
        !message.sender->0.is_bot,
        !is_allowed(config, message.sender->0.id),
    ensures
        is_command(message.said(), "/join"@) ==> message_plan(config, awaiting, message)
            == PlanView::RequestAccess(message.sender->0.id as nat),
        !is_command(message.said(), "/join"@) ==> message_plan(config, awaiting, message)
            == PlanView::Reply(
            command_message(
                message.chat_id as int,
                "Unauthorized user.\nSend /join to request access.\nYour Telegram user ID: "@
                    + decimal(message.sender->0.id as nat),
                Some(message.message_id),
                false,
                false,
            ),
        ),
{
}

/// A chat waits for a text exactly if a person with access announced one there.
pub proof fn law_only_an_announcement_makes_the_bot_wait(config: AppConfig, message: IncomingMessage)
    ensures
        asks_to_store(config, message) <==> from_user(config, message) && is_command(
            message.said(),
            "/new"@,
        ),
{
}

proof fn lemma_none_passing(matches: Seq<MatchView>, threshold: u32)
    requires
        forall|j: int|
            0 <= j < matches.len() ==> !at_least((#[trigger] matches[j]).score, threshold),
    ensures
        passing(matches, threshold).len() == 0,
    decreases matches.len(),
{
    if matches.len() > 0 {
        let before = matches.drop_last();
        assert forall|j: int| 0 <= j < before.len() implies !at_least(
            (#[trigger] before[j]).score,
            threshold,
        ) by {
            assert(before[j] == matches[j]);
        }
        lemma_none_passing(before, threshold);
        assert(!at_least(matches[matches.len() - 1].score, threshold));
    }
}

proof fn lemma_one_passing(matches: Seq<MatchView>, threshold: u32, i: int)
    requires
        0 <= i < matches.len(),
        at_least(matches[i].score, threshold),
        forall|j: int|
            0 <= j < matches.len() && j != i ==> !at_least(
                (#[trigger] matches[j]).score,
                threshold,
            ),
    ensures
        passing(matches, threshold) == seq![matches[i]],
    decreases matches.len(),
{
    let before = matches.drop_last();
    assert(forall|j: int| 0 <= j < before.len() ==> before[j] == matches[j]);
    if i == matches.len() - 1 {
        assert forall|j: int| 0 <= j < before.len() implies !at_least(
            (#[trigger] before[j]).score,
            threshold,
        ) by {
            assert(before[j] == matches[j]);
        }
        lemma_none_passing(before, threshold);
        assert(passing(matches, threshold) =~= seq![matches[i]]);
    } else {
        assert forall|j: int| 0 <= j < before.len() && j != i implies !at_least(
            (#[trigger] before[j]).score,
            threshold,
        ) by {
            assert(before[j] == matches[j]);
        }
        lemma_one_passing(before, threshold, i);
        assert(!at_least(matches[matches.len() - 1].score, threshold));
    }
}

/// The only match that reaches the threshold is sent at once.
pub proof fn law_single_strong_match_is_sent(
    next_session: u64,
    chat_id: int,
    message_id: i32,
    admin: bool,
    matches: Seq<MatchView>,
    threshold: u32,
    i: int,
)
    requires
        0 <= i < matches.len(),
        at_least(matches[i].score, threshold),
        forall|j: int|
            0 <= j < matches.len() && j != i ==> !at_least(
                (#[trigger] matches[j]).score,
                threshold,
            ),
    ensures
        search_answer(next_session, chat_id, message_id, admin, passing(matches, threshold))
            == SearchAnswerView::Document(matches[i].path),
{
    lemma_one_passing(matches, threshold, i);
}

/// Where no match reaches the threshold, the answer says so.
pub proof fn law_weak_matches_are_not_shown(
    next_session: u64,
    chat_id: int,
    message_id: i32,
    admin: bool,
    matches: Seq<MatchView>,
    threshold: u32,
)
    requires
        forall|j: int|
            0 <= j < matches.len() ==> !at_least((#[trigger] matches[j]).score, threshold),
    ensures
        search_answer(next_session, chat_id, message_id, admin, passing(matches, threshold))
            == SearchAnswerView::Message(
            command_message(
                chat_id,
                "No documents matched that query above the configured threshold. Try more specific keywords or lower telegram.match_accuracy."@,
                Some(message_id),
                true,
                admin,
            ),
        ),
{
    lemma_none_passing(matches, threshold);
}

/// Several strong matches are listed, the first page of them, each with a button that asks for it.
pub proof fn law_strong_matches_are_listed(
    next_session: u64,
    chat_id: int,
    message_id: i32,
    admin: bool,
    strong: Seq<MatchView>,
    i: int,
)
    requires
        strong.len() > 1,
        0 <= i < strong.len(),
        i < 5,
        i64::MIN <= strong[i].id <= i64::MAX,
    ensures
        ({
            let answer = search_answer(next_session, chat_id, message_id, admin, strong);
            &&& answer is Message
            &&& answer->Message_0.chat_id == chat_id
            &&& answer->Message_0.reply_to == Some(message_id)
            &&& answer->Message_0.markup matches Some(markup)
            &&& markup matches MarkupView::Buttons(rows)
            &&& i < rows.len()
            &&& rows[i].len() == 1
            &&& requested_document(rows[i][0].callback_data) == Some(strong[i].id)
        }),
{
    law_rows_ask_for_their_documents(next_session as nat, strong, 0, i);
}

/// A user is told of their new access exactly if it is new and they have a chat.
pub proof fn law_new_users_are_told(user_id: u64)
    ensures
        notices(user_id, false).len() == 0,
        user_id <= i64::MAX ==> notices(user_id, true) == seq![
            plain_message(
                user_id as int,
                "Your access request was approved. You can use the bot now."@,
                None,
            ),
        ],
        user_id > i64::MAX ==> notices(user_id, true).len() == 0,
{
}

/// Whoever asked for access is told how many administrators heard of it, or that none did, and in
/// either case the number to be approved by.
pub proof fn law_requester_learns_who_was_asked(user_id: nat, delivered: nat)
    requires
        delivered > 0,
    ensures
        decimal(user_id).is_suffix_of(access_request_answer(user_id, delivered)),
        has_prefix(
            access_request_answer(user_id, delivered),
            "Access request sent to "@ + decimal(delivered),
        ),
        has_prefix(
            access_request_answer(user_id, 0),
            "No admin could be notified. Ask the owner to add your Telegram user ID "@ + decimal(
                user_id,
            ),
        ),
{
    let answer = access_request_answer(user_id, delivered);
    assert(answer.skip(answer.len() - decimal(user_id).len()) =~= decimal(user_id));
    let start = "Access request sent to "@ + decimal(delivered);
    assert(answer.take(start.len() as int) =~= start);
    let none = access_request_answer(user_id, 0);
    let begun = "No admin could be notified. Ask the owner to add your Telegram user ID "@ + decimal(
        user_id,
    );
    assert(none.take(begun.len() as int) =~= begun);
}

/// Everything that was removed is counted once.
pub proof fn law_cleanup_counts_everything(result: CleanupResult)
    ensures
        result.total() == result.duplicate_paths_removed + result.duplicate_embeddings_removed,
        decimal(result.total()).is_suffix_of(cleanup_text(result)),
{
    let text = cleanup_text(result);
    assert(text.skip(text.len() - decimal(result.total()).len()) =~= decimal(result.total()));
}

/// A button of a user with access that leads nowhere is answered with the reason: the search is
/// gone, the message is gone, or the button is for administrators. What is no button is passed over.
pub proof fn law_dead_buttons_are_explained(
    config: AppConfig,
    sessions: Map<u64, Seq<MatchView>>,
    callback: IncomingCallback,
    session: u64,
    page: usize,
    user_id: u64,
    document_id: i64,
)
    requires
        is_allowed(config, callback.user_id),
        callback.data is Some,
    ensures
        callback.pressed() == page_data(session as nat, page as nat) && callback.message is Some
            && !sessions.contains_key(session) ==> callback_plan(config, sessions, callback)
            == CallbackPlanView::Answer("Search results expired. Run /s again."@),
        callback.pressed() == page_data(session as nat, page as nat) && callback.message is None
            ==> callback_plan(config, sessions, callback) == CallbackPlanView::Answer(
            "This page is no longer available."@,
        ),
        callback.pressed() == "doc:"@ + decimal_int(document_id as int) && callback.message is None
            ==> callback_plan(config, sessions, callback) == CallbackPlanView::Answer(
            "This selection is no longer available."@,
        ),
        callback.pressed() == "approve:"@ + decimal(user_id as nat) && !is_admin(
            config,
            callback.user_id,
        ) ==> callback_plan(config, sessions, callback) == CallbackPlanView::Answer(
            "Admin only."@,
        ),
        requested_approval(callback.pressed()) is None && requested_page(callback.pressed()) is None
            && requested_document(callback.pressed()) is None ==> callback_plan(
            config,
            sessions,
            callback,
        ) is Ignore,
{
    law_page_button_reads_back(session, page);
    law_document_button_reads_back(Seq::empty(), document_id);
    law_approve_button_reads_back(user_id);
    law_buttons_are_told_apart(document_id, user_id, session, page);
}

/// A button to a page beyond the last shows the last one.
pub proof fn law_page_beyond_the_last_shows_the_last(
    config: AppConfig,
    sessions: Map<u64, Seq<MatchView>>,
    callback: IncomingCallback,
    session: u64,
    page: usize,
    place: (i64, i32),
)
    requires
        is_allowed(config, callback.user_id),
        callback.data is Some,
        callback.pressed() == page_data(session as nat, page as nat),
        callback.message == Some(place),
        sessions.contains_key(session),
        page >= page_count(sessions[session].len()),
    ensures
        callback_plan(config, sessions, callback) == CallbackPlanView::TurnPage(
            page_edit_view(
                place.0 as int,
                place.1 as int,
                session as nat,
                sessions[session],
                (page_count(sessions[session].len()) - 1) as nat,
            ),
        ),
{
    law_page_button_reads_back(session, page);
    law_buttons_are_told_apart(0, 0, session, page);
}

/// What a button does is what is logged of it.
pub proof fn law_what_a_button_does_is_logged(
    config: AppConfig,
    sessions: Map<u64, Seq<MatchView>>,
    callback: IncomingCallback,
)
    ensures
        callback_plan(config, sessions, callback) is Approve ==> callback_action(callback.pressed())
            == "approve-callback"@,
        callback_plan(config, sessions, callback) is TurnPage ==> callback_action(
            callback.pressed(),
        ) == "page-callback"@,
        callback_plan(config, sessions, callback) is FindDocument ==> callback_action(
            callback.pressed(),
        ) == "document-callback"@,
{
}

/// A document follows exactly if it is on record and its file is still there.
pub proof fn law_only_existing_documents_follow(found: bool, file_exists: bool)
    ensures
        document_answer(found, file_exists).1 <==> found && file_exists,
        !found ==> document_answer(found, file_exists).0 == "Document not found."@,
        found && !file_exists ==> document_answer(found, file_exists).0
            == "The file is no longer available."@,
{
}

/// What is said of an approval names the user, and tells a new one from an old one.
pub proof fn law_approval_names_the_user(user_id: nat)
    ensures
        has_prefix(approval_text(user_id, true), "Approved Telegram user ID "@ + decimal(user_id)),
        has_prefix(approval_text(user_id, false), "Telegram user ID "@ + decimal(user_id)),
        occurs_in(approval_text(user_id, false), " already has access."@),
{
    broadcast use lemma_occurs_at_the_end;

    let new = "Approved Telegram user ID "@ + decimal(user_id);
    assert(approval_text(user_id, true).take(new.len() as int) =~= new);
    let old_user = "Telegram user ID "@ + decimal(user_id);
    assert(approval_text(user_id, false).take(old_user.len() as int) =~= old_user);
}

proof fn lemma_same_number(a: Seq<char>, b: Seq<char>, x: Seq<char>, y: Seq<char>)
    requires
        all_digits(a),
        all_digits(b),
        x.len() > 0,
        y.len() > 0,
        !is_digit(x[0]),
        !is_digit(y[0]),
        a + x == b + y,
    ensures
        a == b,
        x == y,
{
    let whole = a + x;
    let other = b + y;
    if a.len() < b.len() {
        assert(whole[a.len() as int] == x[0]);
        assert(other[a.len() as int] == b[a.len() as int]);
        assert(is_digit(b[a.len() as int]));
    }
    if b.len() < a.len() {
        assert(other[b.len() as int] == y[0]);
        assert(whole[b.len() as int] == a[b.len() as int]);
        assert(is_digit(a[b.len() as int]));
    }
    assert(whole.take(a.len() as int) =~= a);
    assert(other.take(a.len() as int) =~= b);
    assert(whole.skip(a.len() as int) =~= x);
    assert(other.skip(a.len() as int) =~= y);
}

proof fn lemma_same_signed_number(i: int, j: int, x: Seq<char>, y: Seq<char>)
    requires
        x.len() > 0,
        y.len() > 0,
        !is_digit(x[0]),
        !is_digit(y[0]),
        decimal_int(i) + x == decimal_int(j) + y,
    ensures
        i == j,
        x == y,
{
    reveal_strlit("-");
    let a = decimal(if i < 0 {
        (-i) as nat
    } else {
        i as nat
    });
    let b = decimal(if j < 0 {
        (-j) as nat
    } else {
        j as nat
    });
    lemma_decimal(
        if i < 0 {
            (-i) as nat
        } else {
            i as nat
        },
    );
    lemma_decimal(
        if j < 0 {
            (-j) as nat
        } else {
            j as nat
        },
    );
    let whole = decimal_int(i) + x;
    let other = decimal_int(j) + y;
    assert(whole[0] == decimal_int(i)[0]);
    assert(other[0] == decimal_int(j)[0]);
    assert(i >= 0 ==> decimal_int(i)[0] == a.first());
    assert(j >= 0 ==> decimal_int(j)[0] == b.first());
    assert(i < 0 <==> j < 0);
    if i < 0 {
        assert((decimal_int(i) + x).drop_first() =~= a + x);
        assert((decimal_int(j) + y).drop_first() =~= b + y);
    }
    lemma_same_number(a, b, x, y);
}

/// No two texts are stored under the same name: the name tells the chat and the message.
pub proof fn law_stored_texts_have_names_of_their_own(
    chat_id: int,
    message_id: int,
    other_chat: int,
    other_message: int,
)
    requires
        text_file_name(chat_id, message_id) == text_file_name(other_chat, other_message),
    ensures
        chat_id == other_chat,
        message_id == other_message,
{
    reveal_strlit("-");
    reveal_strlit(".md");
    let one = "-"@ + (decimal_int(message_id) + ".md"@);
    let two = "-"@ + (decimal_int(other_message) + ".md"@);
    let front = "telegram-"@;
    let first = text_file_name(chat_id, message_id);
    let second = text_file_name(other_chat, other_message);
    assert(first.skip(front.len() as int) =~= decimal_int(chat_id) + one);
    assert(second.skip(front.len() as int) =~= decimal_int(other_chat) + two);
    lemma_same_signed_number(chat_id, other_chat, one, two);
    assert(one.drop_first() =~= decimal_int(message_id) + ".md"@);
    assert(two.drop_first() =~= decimal_int(other_message) + ".md"@);
    lemma_same_signed_number(message_id, other_message, ".md"@, ".md"@);
}

} // verus!
