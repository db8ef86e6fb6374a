//! What the bot sends: messages with their keyboards, and who they go to.

use vstd::prelude::*;

verus! {

use crate::config::{TelegramConfig, TelegramMode};
use crate::numbers::{decimal, decimal_int, render_i64, render_u64};
use crate::text::{
    all_white, bare, law_trimming_takes_the_space_off_the_ends, lemma_occurs_behind,
    lemma_still_occurs, occurs_in, shorten, shortened, trim, trimmed, views,
};

// ---------------------------------------------------------------------------------------------
// Keyboards

/// A button under a message, and what the bot is told when it is pressed.
#[derive(Debug)]
pub struct InlineButton {
    pub text: String,
    pub callback_data: String,
}

pub struct ButtonView {
    pub text: Seq<char>,
    pub callback_data: Seq<char>,
}

impl View for InlineButton {
    type V = ButtonView;

    open spec fn view(&self) -> ButtonView {
        ButtonView { text: self.text@, callback_data: self.callback_data@ }
    }
}

/// A keyboard of commands in place of the letters.
#[derive(Debug)]
pub struct CommandKeyboard {
    pub rows: Vec<Vec<String>>,
    pub resize_keyboard: bool,
    pub input_field_placeholder: String,
}

/// What stands under a message.
#[derive(Debug)]
pub enum ReplyMarkup {
    Commands(CommandKeyboard),
    Buttons(Vec<Vec<InlineButton>>),
}

pub enum MarkupView {
    Commands { rows: Seq<Seq<Seq<char>>>, resize: bool, placeholder: Seq<char> },
    Buttons(Seq<Seq<ButtonView>>),
}

pub open spec fn button_views(row: Seq<InlineButton>) -> Seq<ButtonView> {
    Seq::new(row.len(), |i: int| row[i]@)
}

pub open spec fn button_rows(rows: Seq<Vec<InlineButton>>) -> Seq<Seq<ButtonView>> {
    Seq::new(rows.len(), |i: int| button_views(rows[i]@))
}

pub open spec fn text_rows(rows: Seq<Vec<String>>) -> Seq<Seq<Seq<char>>> {
    Seq::new(rows.len(), |i: int| views(rows[i]@))
}

impl View for CommandKeyboard {
    type V = MarkupView;

    open spec fn view(&self) -> MarkupView {
        MarkupView::Commands {
            rows: text_rows(self.rows@),
            resize: self.resize_keyboard,
            placeholder: self.input_field_placeholder@,
        }
    }
}

impl View for ReplyMarkup {
    type V = MarkupView;

    open spec fn view(&self) -> MarkupView {
        match self {
            ReplyMarkup::Commands(keyboard) => keyboard@,
            ReplyMarkup::Buttons(rows) => MarkupView::Buttons(button_rows(rows@)),
        }
    }
}

/// A header as it fits on a button.
pub open spec fn button_label(header: Seq<char>) -> Seq<char> {
    shortened(trimmed(header), 48)
}

pub fn format_button_label(header: &str) -> (r: String)
    ensures
        r@ == button_label(header@),
{
    shorten(trim(header), 48)
}

/// The button that asks for a document.
pub open spec fn document_button_view(header: Seq<char>, document_id: int) -> ButtonView {
    ButtonView {
        text: button_label(header),
        callback_data: "doc:"@ + decimal_int(document_id),
    }
}

pub fn document_button(header: &str, document_id: i64) -> (r: InlineButton)
    ensures
        r@ == document_button_view(header@, document_id as int),
{
    let mut data = "doc:".to_owned();
    data.append(render_i64(document_id).as_str());
    InlineButton { text: format_button_label(header), callback_data: data }
}

/// The button that grants a user access.
pub open spec fn approve_button_view(user_id: nat) -> ButtonView {
    ButtonView {
        text: "Approve "@ + decimal(user_id),
        callback_data: "approve:"@ + decimal(user_id),
    }
}

pub fn approve_button(user_id: u64) -> (r: InlineButton)
    ensures
        r@ == approve_button_view(user_id as nat),
{
    let shown = render_u64(user_id);
    let mut text = "Approve ".to_owned();
    text.append(shown.as_str());
    let mut data = "approve:".to_owned();
    data.append(shown.as_str());
    InlineButton { text, callback_data: data }
}

/// A keyboard of one button.
pub fn single_button(button: InlineButton) -> (r: ReplyMarkup)
    ensures
        r@ == MarkupView::Buttons(seq![seq![button@]]),
{
    let ghost shown = button@;
    let mut row: Vec<InlineButton> = Vec::new();
    row.push(button);
    assert(button_views(row@) =~= seq![shown]);
    let mut rows: Vec<Vec<InlineButton>> = Vec::new();
    rows.push(row);
    assert(button_rows(rows@) =~= seq![seq![shown]]);
    ReplyMarkup::Buttons(rows)
}

fn one(a: &str) -> (r: Vec<String>)
    ensures
        views(r@) == seq![a@],
{
    let mut r: Vec<String> = Vec::new();
    r.push(a.to_owned());
    assert(views(r@) =~= seq![a@]);
    r
}

fn two(a: &str, b: &str) -> (r: Vec<String>)
    ensures
        views(r@) == seq![a@, b@],
{
    let mut r: Vec<String> = Vec::new();
    r.push(a.to_owned());
    r.push(b.to_owned());
    assert(views(r@) =~= seq![a@, b@]);
    r
}

/// The commands that are offered to a user: only the request for access without it, and the
/// approval of others to administrators alone.
pub open spec fn command_rows(is_allowed: bool, is_admin: bool) -> Seq<Seq<Seq<char>>> {
    if !is_allowed {
        seq![seq!["/join"@]]
    } else if is_admin {
        seq![
            seq!["/start"@, "/show"@],
            seq!["/new"@, "/s"@],
            seq!["/clean"@, "/approve"@],
            seq!["/help"@],
        ]
    } else {
        seq![seq!["/start"@, "/show"@], seq!["/new"@, "/s"@], seq!["/clean"@, "/help"@]]
    }
}

pub open spec fn command_keyboard(is_allowed: bool, is_admin: bool) -> MarkupView {
    MarkupView::Commands {
        rows: command_rows(is_allowed, is_admin),
        resize: true,
        placeholder: "Choose a command"@,
    }
}

pub fn build_telegram_command_keyboard(is_allowed: bool, is_admin: bool) -> (r: CommandKeyboard)
    ensures
        r@ == command_keyboard(is_allowed, is_admin),
{
    let mut rows: Vec<Vec<String>> = Vec::new();
    if !is_allowed {
        rows.push(one("/join"));
    } else {
        rows.push(two("/start", "/show"));
        rows.push(two("/new", "/s"));
        if is_admin {
            rows.push(two("/clean", "/approve"));
            rows.push(one("/help"));
        } else {
            rows.push(two("/clean", "/help"));
        }
    }
    assert(text_rows(rows@) =~= command_rows(is_allowed, is_admin));
    CommandKeyboard {
        rows,
        resize_keyboard: true,
        input_field_placeholder: "Choose a command".to_owned(),
    }
}

// ---------------------------------------------------------------------------------------------
// Messages

/// A message to a chat.
#[derive(Debug)]
pub struct OutgoingMessage {
    pub chat_id: i64,
    pub text: String,
    pub reply_to_message_id: Option<i32>,
    /// Whether the text is Telegram HTML.
    pub html: bool,
    pub markup: Option<ReplyMarkup>,
}

pub struct MessageView {
    pub chat_id: int,
    pub text: Seq<char>,
    pub reply_to: Option<i32>,
    pub html: bool,
    pub markup: Option<MarkupView>,
}

impl View for OutgoingMessage {
    type V = MessageView;

    open spec fn view(&self) -> MessageView {
        MessageView {
            chat_id: self.chat_id as int,
            text: self.text@,
            reply_to: self.reply_to_message_id,
            html: self.html,
            markup: match self.markup {
                Some(markup) => Some(markup@),
                None => None,
            },
        }
    }
}

pub open spec fn message_views(messages: Seq<OutgoingMessage>) -> Seq<MessageView> {
    Seq::new(messages.len(), |i: int| messages[i]@)
}

/// A message of text alone.
pub open spec fn plain_message(
    chat_id: int,
    text: Seq<char>,
    reply_to: Option<i32>,
) -> MessageView {
    MessageView { chat_id, text, reply_to, html: false, markup: None }
}

/// A message with the keyboard of commands.
pub open spec fn command_message(
    chat_id: int,
    text: Seq<char>,
    reply_to: Option<i32>,
    is_allowed: bool,
    is_admin: bool,
) -> MessageView {
    MessageView {
        chat_id,
        text,
        reply_to,
        html: false,
        markup: Some(command_keyboard(is_allowed, is_admin)),
    }
}

/// A message with the button for one document.
pub open spec fn document_message(
    chat_id: int,
    text: Seq<char>,
    header: Seq<char>,
    document_id: int,
    reply_to: Option<i32>,
) -> MessageView {
    MessageView {
        chat_id,
        text,
        reply_to,
        html: false,
        markup: Some(MarkupView::Buttons(seq![seq![document_button_view(header, document_id)]])),
    }
}

pub fn text_message(chat_id: i64, text: &str, reply_to_message_id: Option<i32>) -> (r:
    OutgoingMessage)
    ensures
        r@ == plain_message(chat_id as int, text@, reply_to_message_id),
{
    OutgoingMessage {
        chat_id,
        text: text.to_owned(),
        reply_to_message_id,
        html: false,
        markup: None,
    }
}

pub fn message_with_command_keyboard(
    chat_id: i64,
    text: &str,
    reply_to_message_id: Option<i32>,
    is_allowed: bool,
    is_admin: bool,
) -> (r: OutgoingMessage)
    ensures
        r@ == command_message(chat_id as int, text@, reply_to_message_id, is_allowed, is_admin),
{
    let keyboard = build_telegram_command_keyboard(is_allowed, is_admin);
    OutgoingMessage {
        chat_id,
        text: text.to_owned(),
        reply_to_message_id,
        html: false,
        markup: Some(ReplyMarkup::Commands(keyboard)),
    }
}

pub fn message_with_document_button(
    chat_id: i64,
    text: &str,
    document_header: &str,
    document_id: i64,
    reply_to_message_id: Option<i32>,
) -> (r: OutgoingMessage)
    ensures
        r@ == document_message(
            chat_id as int,
            text@,
            document_header@,
            document_id as int,
            reply_to_message_id,
        ),
{
    let markup = single_button(document_button(document_header, document_id));
    OutgoingMessage {
        chat_id,
        text: text.to_owned(),
        reply_to_message_id,
        html: false,
        markup: Some(markup),
    }
}

/// Whether the bot sends messages of its own accord.
pub open spec fn pushes(config: TelegramConfig) -> bool {
    config.enabled && config.chat_id != 0
}

pub fn pushes_notifications(config: &TelegramConfig) -> (r: bool)
    ensures
        r == pushes(*config),
{
    config.enabled && config.chat_id != 0
}

/// The notification of a text, where there is a chat for notifications.
pub fn notification(config: &TelegramConfig, text: &str) -> (r: Option<OutgoingMessage>)
    ensures
        r is Some <==> pushes(*config),
        r matches Some(message) ==> message@ == plain_message(config.chat_id as int, text@, None),
{
    if !pushes_notifications(config) {
        return None;
    }
    Some(text_message(config.chat_id, text, None))
}

/// The notification of a stored document, where there is a chat for notifications.
pub fn document_notification(
    config: &TelegramConfig,
    text: &str,
    document_header: &str,
    document_id: i64,
) -> (r: Option<OutgoingMessage>)
    ensures
        r is Some <==> pushes(*config),
        r matches Some(message) ==> message@ == document_message(
            config.chat_id as int,
            text@,
            document_header@,
            document_id as int,
            None,
        ),
{
    if !pushes_notifications(config) {
        return None;
    }
    Some(
        message_with_document_button(config.chat_id, text, document_header, document_id, None),
    )
}

// ---------------------------------------------------------------------------------------------
// Messages to users by their number

pub open spec fn fits_chat_id(user_id: u64) -> bool {
    user_id <= i64::MAX
}

/// The chat with a user has the user's number, where that is a number of a chat.
pub fn chat_of_user(user_id: u64) -> (r: Option<i64>)
    ensures
        r is Some <==> fits_chat_id(user_id),
        r matches Some(chat_id) ==> chat_id == user_id,
{
    if user_id <= i64::MAX as u64 {
        Some(user_id as i64)
    } else {
        None
    }
}

pub open spec fn access_request_text(user_id: nat) -> Seq<char> {
    "Access request received.\nUser ID: "@ + decimal(user_id) + "\nApprove with /approve "@
        + decimal(user_id) + " or the button below."@
}

pub open spec fn access_request_view(chat_id: int, requester: nat) -> MessageView {
    MessageView {
        chat_id,
        text: access_request_text(requester),
        reply_to: None,
        html: false,
        markup: Some(MarkupView::Buttons(seq![seq![approve_button_view(requester)]])),
    }
}

fn access_request(chat_id: i64, requester_user_id: u64) -> (r: OutgoingMessage)
    ensures
        r@ == access_request_view(chat_id as int, requester_user_id as nat),
{
    let shown = render_u64(requester_user_id);
    let mut text = "Access request received.\nUser ID: ".to_owned();
    text.append(shown.as_str());
    text.append("\nApprove with /approve ");
    text.append(shown.as_str());
    text.append(" or the button below.");
    let markup = single_button(approve_button(requester_user_id));
    OutgoingMessage {
        chat_id,
        text,
        reply_to_message_id: None,
        html: false,
        markup: Some(markup),
    }
}

/// One request to each administrator that has a chat, in order.
pub open spec fn access_request_views(admins: Seq<u64>, requester: nat) -> Seq<MessageView>
    decreases admins.len(),
{
    if admins.len() == 0 {
        Seq::empty()
    } else {
        let before = access_request_views(admins.drop_last(), requester);
        if fits_chat_id(admins.last()) {
            before.push(access_request_view(admins.last() as int, requester))
        } else {
            before
        }
    }
}

/// The messages that ask the administrators to grant a user access.
pub fn access_requests(admin_user_ids: &Vec<u64>, requester_user_id: u64) -> (r: Vec<
    OutgoingMessage,
>)
    ensures
        message_views(r@) == access_request_views(admin_user_ids@, requester_user_id as nat),
{
    let ghost admins = admin_user_ids@;
    let mut r: Vec<OutgoingMessage> = Vec::new();
    let mut i: usize = 0;
    assert(message_views(r@) =~= Seq::<MessageView>::empty());
    while i < admin_user_ids.len()
        invariant
            i <= admin_user_ids@.len(),
            admins == admin_user_ids@,
            message_views(r@) == access_request_views(
                admins.take(i as int),
                requester_user_id as nat,
            ),
        decreases admin_user_ids@.len() - i,
    {
        assert(admins.take(i + 1).drop_last() == admins.take(i as int));
        if let Some(chat_id) = chat_of_user(admin_user_ids[i]) {
            let message = access_request(chat_id, requester_user_id);
            let ghost before = r@;
            let ghost shown = message@;
            r.push(message);
            assert(message_views(r@) =~= message_views(before).push(shown));
        }
        i += 1;
    }
    assert(admins.take(i as int) == admins);
    r
}

pub open spec fn approval_notice_text() -> Seq<char> {
    "Your access request was approved. You can use the bot now."@
}

/// Tells a user of their new access, where they have a chat.
pub fn approval_notice(user_id: u64) -> (r: Option<OutgoingMessage>)
    ensures
        r is Some <==> fits_chat_id(user_id),
        r matches Some(message) ==> message@ == plain_message(
            user_id as int,
            approval_notice_text(),
            None,
        ),
{
    match chat_of_user(user_id) {
        Some(chat_id) => Some(
            text_message(
                chat_id,
                "Your access request was approved. You can use the bot now.",
                None,
            ),
        ),
        None => None,
    }
}

// ---------------------------------------------------------------------------------------------
// The menu of commands

/// A command in the menu.
#[derive(Debug)]
pub struct BotCommand {
    pub command: String,
    pub description: String,
}

impl View for BotCommand {
    type V = (Seq<char>, Seq<char>);

    open spec fn view(&self) -> (Seq<char>, Seq<char>) {
        (self.command@, self.description@)
    }
}

pub open spec fn command_views(commands: Seq<BotCommand>) -> Seq<(Seq<char>, Seq<char>)> {
    Seq::new(commands.len(), |i: int| commands[i]@)
}

pub open spec fn default_menu() -> Seq<(Seq<char>, Seq<char>)> {
    seq![
        ("start"@, "Show the latest 10 documents"@),
        ("show"@, "Show the latest 10 documents"@),
        ("new"@, "Store a new text or text file"@),
        ("s"@, "Search similar documents"@),
        ("clean"@, "Remove duplicate database rows"@),
        ("join"@, "Request access to the bot"@),
        ("help"@, "Show help"@),
    ]
}

pub open spec fn admin_menu() -> Seq<(Seq<char>, Seq<char>)> {
    default_menu().push(("approve"@, "Approve a Telegram user ID"@))
}

fn menu_entry(command: &str, description: &str) -> (r: BotCommand)
    ensures
        r@ == (command@, description@),
{
    BotCommand { command: command.to_owned(), description: description.to_owned() }
}

pub fn default_bot_commands() -> (r: Vec<BotCommand>)
    ensures
        command_views(r@) == default_menu(),
{
    let mut r: Vec<BotCommand> = Vec::new();
    r.push(menu_entry("start", "Show the latest 10 documents"));
    r.push(menu_entry("show", "Show the latest 10 documents"));
    r.push(menu_entry("new", "Store a new text or text file"));
    r.push(menu_entry("s", "Search similar documents"));
    r.push(menu_entry("clean", "Remove duplicate database rows"));
    r.push(menu_entry("join", "Request access to the bot"));
    r.push(menu_entry("help", "Show help"));
    assert(command_views(r@) =~= default_menu());
    r
}

pub fn admin_bot_commands() -> (r: Vec<BotCommand>)
    ensures
        command_views(r@) == admin_menu(),
{
    let mut r = default_bot_commands();
    let ghost before = r@;
    r.push(menu_entry("approve", "Approve a Telegram user ID"));
    assert(command_views(r@) =~= command_views(before).push(
        ("approve"@, "Approve a Telegram user ID"@),
    ));
    r
}

/// A menu and the one user that it is for, if it is not for all.
#[derive(Debug)]
pub struct MenuRegistration {
    pub commands: Vec<BotCommand>,
    /// The user's number, and the chat with the user.
    pub member: Option<(i64, u64)>,
}

pub open spec fn registered_admins(admins: Seq<u64>) -> Seq<u64>
    decreases admins.len(),
{
    if admins.len() == 0 {
        Seq::empty()
    } else if fits_chat_id(admins.last()) {
        registered_admins(admins.drop_last()).push(admins.last())
    } else {
        registered_admins(admins.drop_last())
    }
}

/// The menus to register: the one for all first, then one for each administrator that has a
/// chat. There are none while the bot is off or has no token.
pub open spec fn is_registration(list: Seq<MenuRegistration>, config: TelegramConfig) -> bool {
    let admins = registered_admins(config.admin_user_ids@);
    if !config.enabled || trimmed(config.bot_token@).len() == 0 {
        list.len() == 0
    } else {
        &&& list.len() == admins.len() + 1
        &&& command_views(list[0].commands@) == default_menu()
        &&& list[0].member is None
        &&& forall|i: int|
            1 <= i < list.len() ==> command_views((#[trigger] list[i]).commands@) == admin_menu()
                && list[i].member == Some((admins[i - 1] as i64, admins[i - 1]))
    }
}

/// The menus to register with Telegram. The first must succeed; the others may fail.
pub fn menu_registrations(config: &TelegramConfig) -> (r: Vec<MenuRegistration>)
    ensures
        is_registration(r@, *config),
{
    let mut r: Vec<MenuRegistration> = Vec::new();
    if !config.enabled || trim(config.bot_token.as_str()).is_empty() {
        return r;
    }
    r.push(MenuRegistration { commands: default_bot_commands(), member: None });
    let ghost ids = config.admin_user_ids@;
    let mut i: usize = 0;
    while i < config.admin_user_ids.len()
        invariant
            i <= config.admin_user_ids@.len(),
            ids == config.admin_user_ids@,
            r@.len() == registered_admins(ids.take(i as int)).len() + 1,
            command_views(r@[0].commands@) == default_menu(),
            r@[0].member is None,
            forall|j: int|
                1 <= j < r@.len() ==> command_views((#[trigger] r@[j]).commands@) == admin_menu()
                    && r@[j].member == Some(
                    (
                        registered_admins(ids.take(i as int))[j - 1] as i64,
                        registered_admins(ids.take(i as int))[j - 1],
                    ),
                ),
        decreases config.admin_user_ids@.len() - i,
    {
        assert(ids.take(i + 1).drop_last() == ids.take(i as int));
        let user_id = config.admin_user_ids[i];
        if let Some(chat_id) = chat_of_user(user_id) {
            r.push(
                MenuRegistration {
                    commands: admin_bot_commands(),
                    member: Some((chat_id, user_id)),
                },
            );
        }
        i += 1;
    }
    assert(ids.take(i as int) == ids);
    r
}

// ---------------------------------------------------------------------------------------------
// How updates arrive

/// Whether there is a bot whose webhook can be deleted.
pub fn has_bot_token(config: &TelegramConfig) -> (r: bool)
    ensures
        r == (trimmed(config.bot_token@).len() > 0),
{
    !trim(config.bot_token.as_str()).is_empty()
}

/// What Telegram says of the registered webhook.
#[derive(Debug)]
pub struct WebhookInfo {
    pub url: String,
    pub has_last_error_date: bool,
    pub has_last_error_message: bool,
    pub has_last_synchronization_error_date: bool,
}

/// What to do so that updates arrive as configured.
#[derive(Debug)]
pub enum TransportStep {
    DeleteWebhook,
    /// Ask for the registered webhook, and decide by the answer.
    InspectWebhook,
    KeepWebhook,
    SetWebhook { url: String, secret_token: Option<String> },
}

pub open spec fn webhook_is_current(config: TelegramConfig, current: WebhookInfo) -> bool {
    &&& current.url@ == config.webhook_url@
    &&& !current.has_last_error_date
    &&& !current.has_last_error_message
    &&& !current.has_last_synchronization_error_date
}

/// The secret that a webhook is registered with, where one is configured.
pub open spec fn secret_of(config: TelegramConfig) -> Option<Seq<char>> {
    if config.webhook_secret_token@.len() == 0 {
        None
    } else {
        Some(config.webhook_secret_token@)
    }
}

/// The first step towards the configured transport.
pub fn begin_transport(config: &TelegramConfig) -> (r: TransportStep)
    ensures
        config.mode is Polling ==> r is DeleteWebhook,
        config.mode is Webhook ==> r is InspectWebhook,
{
    match config.mode {
        TelegramMode::Polling => TransportStep::DeleteWebhook,
        TelegramMode::Webhook => TransportStep::InspectWebhook,
    }
}

/// The step after the registered webhook is known: it is kept where it is the configured one and
/// has no errors, and set anew otherwise, with the secret token where one is configured.
pub fn transport_for_webhook(config: &TelegramConfig, current: &WebhookInfo) -> (r: TransportStep)
    ensures
        webhook_is_current(*config, *current) ==> r is KeepWebhook,
        !webhook_is_current(*config, *current) ==> {
            &&& r matches TransportStep::SetWebhook { url, secret_token }
            &&& url@ == config.webhook_url@
            &&& secret_token is Some <==> secret_of(*config) is Some
            &&& secret_token matches Some(token) ==> secret_of(*config) == Some(token@)
            &&& secret_token is Some <==> config.webhook_secret_token@.len() > 0
            &&& secret_token matches Some(token) ==> token@ == config.webhook_secret_token@
        },
{
    if crate::text::same(current.url.as_str(), config.webhook_url.as_str())
        && !current.has_last_error_date && !current.has_last_error_message
        && !current.has_last_synchronization_error_date {
        return TransportStep::KeepWebhook;
    }
    let secret_token = if config.webhook_secret_token.as_str().is_empty() {
        None
    } else {
        Some(config.webhook_secret_token.as_str().to_owned())
    };
    TransportStep::SetWebhook { url: config.webhook_url.as_str().to_owned(), secret_token }
}

/// The kinds of updates that the bot asks for.
#[derive(Debug, Clone, Copy, PartialEq, Eq, Structural)]
pub enum UpdateKind {
    Message,
    EditedMessage,
    ChannelPost,
    EditedChannelPost,
    CallbackQuery,
    MyChatMember,
    ChatMember,
    ChatJoinRequest,
}

/// What the running bot asks for: messages and pressed buttons.
pub fn telegram_runtime_allowed_updates() -> (r: Vec<UpdateKind>)
    ensures
        r@ == seq![
            UpdateKind::Message,
            UpdateKind::EditedMessage,
            UpdateKind::ChannelPost,
            UpdateKind::EditedChannelPost,
            UpdateKind::CallbackQuery,
        ],
{
    let mut r: Vec<UpdateKind> = Vec::new();
    r.push(UpdateKind::Message);
    r.push(UpdateKind::EditedMessage);
    r.push(UpdateKind::ChannelPost);
    r.push(UpdateKind::EditedChannelPost);
    r.push(UpdateKind::CallbackQuery);
    r
}

/// What is asked for to find the chats of the bot.
pub fn discovery_allowed_updates() -> (r: Vec<UpdateKind>)
    ensures
        r@ == seq![
            UpdateKind::Message,
            UpdateKind::EditedMessage,
            UpdateKind::ChannelPost,
            UpdateKind::EditedChannelPost,
            UpdateKind::MyChatMember,
            UpdateKind::ChatMember,
            UpdateKind::ChatJoinRequest,
        ],
{
    let mut r: Vec<UpdateKind> = Vec::new();
    r.push(UpdateKind::Message);
    r.push(UpdateKind::EditedMessage);
    r.push(UpdateKind::ChannelPost);
    r.push(UpdateKind::EditedChannelPost);
    r.push(UpdateKind::MyChatMember);
    r.push(UpdateKind::ChatMember);
    r.push(UpdateKind::ChatJoinRequest);
    r
}

// ---------------------------------------------------------------------------------------------
// Laws

/// A header on a button is its beginning, without space around it: all of it where it fits, and
/// otherwise forty-eight characters and dots.
pub proof fn law_button_shows_the_beginning(lead: Seq<char>, header: Seq<char>, trail: Seq<char>)
    requires
        all_white(lead),
        bare(header),
        all_white(trail),
    ensures
        header.len() <= 48 ==> button_label(lead + header + trail) == header,
        header.len() > 48 ==> button_label(lead + header + trail) == header.take(48) + "..."@,
{
    law_trimming_takes_the_space_off_the_ends(lead, header, trail);
}

pub open spec fn offers(rows: Seq<Seq<Seq<char>>>, command: Seq<char>) -> bool {
    exists|i: int, j: int|
        0 <= i < rows.len() && 0 <= j < rows[i].len() && #[trigger] rows[i][j] == command
}

/// A stranger is offered the request for access and nothing else; a user everything but that and
/// the approval of others, which only administrators are offered.
pub proof fn law_commands_are_offered_by_standing(is_allowed: bool, is_admin: bool)
    ensures
        offers(command_rows(is_allowed, is_admin), "/join"@) <==> !is_allowed,
        offers(command_rows(is_allowed, is_admin), "/approve"@) <==> is_allowed && is_admin,
        offers(command_rows(is_allowed, is_admin), "/start"@) <==> is_allowed,
        offers(command_rows(is_allowed, is_admin), "/show"@) <==> is_allowed,
        offers(command_rows(is_allowed, is_admin), "/new"@) <==> is_allowed,
        offers(command_rows(is_allowed, is_admin), "/s"@) <==> is_allowed,
        offers(command_rows(is_allowed, is_admin), "/clean"@) <==> is_allowed,
        offers(command_rows(is_allowed, is_admin), "/help"@) <==> is_allowed,
{
    reveal_strlit("/join");
    reveal_strlit("/approve");
    reveal_strlit("/start");
    reveal_strlit("/show");
    reveal_strlit("/new");
    reveal_strlit("/s");
    reveal_strlit("/clean");
    reveal_strlit("/help");
    assert("/join"@[1] == 'j' && "/approve"@[1] == 'a' && "/new"@[1] == 'n' && "/clean"@[1] == 'c'
        && "/help"@[1] == 'h' && "/start"@[1] == 's' && "/show"@[1] == 's' && "/s"@[1] == 's');
    assert("/start"@[2] == 't' && "/show"@[2] == 'h' && "/s"@.len() == 2);
    let rows = command_rows(is_allowed, is_admin);
    if is_allowed {
        assert(rows[0][0] == "/start"@);
        assert(rows[0][1] == "/show"@);
        assert(rows[1][0] == "/new"@);
        assert(rows[1][1] == "/s"@);
        assert(rows[2][0] == "/clean"@);
        if is_admin {
            assert(rows[2][1] == "/approve"@);
            assert(rows[3][0] == "/help"@);
        } else {
            assert(rows[2][1] == "/help"@);
        }
    } else {
        assert(rows[0][0] == "/join"@);
    }
}

/// Every administrator with a chat is asked, once for each time they are listed and in order, and
/// nobody else; what they are asked names the user, and the button approves that user.
pub proof fn law_every_administrator_is_asked(admins: Seq<u64>, requester: nat, i: int)
    ensures
        access_request_views(admins, requester).len() == admins.filter(
            |id: u64| id <= i64::MAX,
        ).len(),
        0 <= i < access_request_views(admins, requester).len() ==> ({
            let message = access_request_views(admins, requester)[i];
            &&& message.chat_id == admins.filter(|id: u64| id <= i64::MAX)[i]
            &&& message.text == access_request_text(requester)
            &&& message.markup == Some(
                MarkupView::Buttons(seq![seq![approve_button_view(requester)]]),
            )
        }),
    decreases admins.len(),
{
    reveal(Seq::filter);
    if admins.len() > 0 {
        law_every_administrator_is_asked(admins.drop_last(), requester, i);
    }
}

/// A menu of their own is registered for each administrator that has a chat.
pub proof fn law_administrators_with_a_chat_get_a_menu(admins: Seq<u64>)
    ensures
        registered_admins(admins) == admins.filter(|id: u64| id <= i64::MAX),
        admin_menu().drop_last() == default_menu(),
        admin_menu().last().0 == "approve"@,
    decreases admins.len(),
{
    reveal(Seq::filter);
    assert(admin_menu().drop_last() =~= default_menu());
    if admins.len() > 0 {
        law_administrators_with_a_chat_get_a_menu(admins.drop_last());
    }
}

/// A registered webhook is left alone only where it leads to the configured address and reported no
/// error of any sort.
pub proof fn law_faulty_webhook_is_set_anew(config: TelegramConfig, current: WebhookInfo)
    ensures
        current.url@ != config.webhook_url@ ==> !webhook_is_current(config, current),
        current.has_last_error_date || current.has_last_error_message
            || current.has_last_synchronization_error_date ==> !webhook_is_current(config, current),
        current.url@ == config.webhook_url@ && !current.has_last_error_date
            && !current.has_last_error_message && !current.has_last_synchronization_error_date
            ==> webhook_is_current(config, current),
{
}

/// The bot speaks unasked only while it is on and has a chat to speak to.
pub proof fn law_silent_without_a_chat(config: TelegramConfig)
    ensures
        config.chat_id == 0 || !config.enabled ==> !pushes(config),
        config.chat_id != 0 && config.enabled ==> pushes(config),
{
}

/// A request for access names the user to approve, and how to do it.
pub proof fn law_access_request_names_the_user(user_id: nat)
    ensures
        occurs_in(access_request_text(user_id), "User ID: "@ + decimal(user_id)),
        occurs_in(access_request_text(user_id), "\nApprove with /approve "@ + decimal(user_id)),
        approve_button_view(user_id).text == "Approve "@ + decimal(user_id),
{
    broadcast use lemma_still_occurs;
    broadcast use lemma_occurs_behind;

    reveal_strlit("Access request received.\nUser ID: ");
    reveal_strlit("Access request received.\n");
    reveal_strlit("User ID: ");
    assert("Access request received.\nUser ID: "@ =~= "Access request received.\n"@ + "User ID: "@);
}

/// A configured token is the secret, and no token is none.
pub proof fn law_configured_token_is_the_secret(config: TelegramConfig)
    ensures
        config.webhook_secret_token@.len() > 0 ==> secret_of(config) == Some(
            config.webhook_secret_token@,
        ),
        config.webhook_secret_token@.len() == 0 ==> secret_of(config) is None,
{
}

} // verus!
