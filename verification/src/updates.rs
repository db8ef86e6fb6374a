//! Updates from Telegram: what is read from the body of a request, and what is done with it.

use vstd::prelude::*;

use frankenstein::{CallbackQuery, Message, Update, UpdateContent as Content};

verus! {

use crate::bot::{IncomingCallback, IncomingDocument, IncomingMessage, Sender};
use crate::config::optional;

/// A message, with what is needed to log it and to fetch its file.
#[derive(Debug)]
pub struct ReceivedMessage {
    pub message: IncomingMessage,
    pub username: Option<String>,
    /// Under what the file of the message can be fetched.
    pub file_id: Option<String>,
}

/// A pressed button, with what is needed to log it and to answer it.
#[derive(Debug)]
pub struct ReceivedCallback {
    pub callback: IncomingCallback,
    pub id: String,
    pub username: Option<String>,
}

/// What an update is about.
#[derive(Debug)]
pub enum IncomingContent {
    Message(ReceivedMessage),
    EditedMessage(ReceivedMessage),
    ChannelPost(ReceivedMessage),
    EditedChannelPost(ReceivedMessage),
    InlineQuery,
    ChosenInlineResult,
    CallbackQuery(ReceivedCallback),
    ShippingQuery,
    PreCheckoutQuery,
    Poll,
    PollAnswer,
    MyChatMember,
    ChatMember,
    ChatJoinRequest,
}

#[derive(Debug)]
pub struct IncomingUpdate {
    pub update_id: u32,
    pub content: IncomingContent,
}

pub struct ReceivedMessageView {
    pub chat_id: int,
    pub message_id: int,
    pub sender: Option<Sender>,
    pub text: Option<Seq<char>>,
    /// The name of the file, where the message holds a file and the file has a name.
    pub document: Option<Option<Seq<char>>>,
    pub username: Option<Seq<char>>,
    pub file_id: Option<Seq<char>>,
}

pub struct ReceivedCallbackView {
    pub id: Seq<char>,
    pub user_id: nat,
    pub username: Option<Seq<char>>,
    pub data: Option<Seq<char>>,
    pub message: Option<(i64, i32)>,
}

pub enum ContentView {
    Message(ReceivedMessageView),
    EditedMessage(ReceivedMessageView),
    ChannelPost(ReceivedMessageView),
    EditedChannelPost(ReceivedMessageView),
    InlineQuery,
    ChosenInlineResult,
    CallbackQuery(ReceivedCallbackView),
    ShippingQuery,
    PreCheckoutQuery,
    Poll,
    PollAnswer,
    MyChatMember,
    ChatMember,
    ChatJoinRequest,
}

pub struct UpdateView {
    pub update_id: u32,
    pub content: ContentView,
}

impl View for ReceivedMessage {
    type V = ReceivedMessageView;

    open spec fn view(&self) -> ReceivedMessageView {
        ReceivedMessageView {
            chat_id: self.message.chat_id as int,
            message_id: self.message.message_id as int,
            sender: self.message.sender,
            text: optional(self.message.text),
            document: match self.message.document {
                Some(document) => Some(optional(document.file_name)),
                None => None,
            },
            username: optional(self.username),
            file_id: optional(self.file_id),
        }
    }
}

impl View for ReceivedCallback {
    type V = ReceivedCallbackView;

    open spec fn view(&self) -> ReceivedCallbackView {
        ReceivedCallbackView {
            id: self.id@,
            user_id: self.callback.user_id as nat,
            username: optional(self.username),
            data: optional(self.callback.data),
            message: self.callback.message,
        }
    }
}

impl View for IncomingContent {
    type V = ContentView;

    open spec fn view(&self) -> ContentView {
        match self {
            IncomingContent::Message(message) => ContentView::Message(message@),
            IncomingContent::EditedMessage(message) => ContentView::EditedMessage(message@),
            IncomingContent::ChannelPost(message) => ContentView::ChannelPost(message@),
            IncomingContent::EditedChannelPost(message) => ContentView::EditedChannelPost(message@),
            IncomingContent::InlineQuery => ContentView::InlineQuery,
            IncomingContent::ChosenInlineResult => ContentView::ChosenInlineResult,
            IncomingContent::CallbackQuery(callback) => ContentView::CallbackQuery(callback@),
            IncomingContent::ShippingQuery => ContentView::ShippingQuery,
            IncomingContent::PreCheckoutQuery => ContentView::PreCheckoutQuery,
            IncomingContent::Poll => ContentView::Poll,
            IncomingContent::PollAnswer => ContentView::PollAnswer,
            IncomingContent::MyChatMember => ContentView::MyChatMember,
            IncomingContent::ChatMember => ContentView::ChatMember,
            IncomingContent::ChatJoinRequest => ContentView::ChatJoinRequest,
        }
    }
}

impl View for IncomingUpdate {
    type V = UpdateView;

    open spec fn view(&self) -> UpdateView {
        UpdateView { update_id: self.update_id, content: self.content@ }
    }
}

// ---------------------------------------------------------------------------------------------
// Reading

/// A message of the `frankenstein` crate.
#[verifier::external_type_specification]
#[verifier::external_body]
pub struct ExTelegramMessage(frankenstein::Message);

/// A pressed button of the `frankenstein` crate.
#[verifier::external_type_specification]
#[verifier::external_body]
pub struct ExTelegramCallbackQuery(frankenstein::CallbackQuery);

/// The content of an update of the `frankenstein` crate.
#[verifier::external_type_specification]
#[verifier::external_body]
pub struct ExTelegramUpdateContent(frankenstein::UpdateContent);

/// What `serde_json::from_slice` makes of the bytes as a `frankenstein::Update`: the update, or the
/// message of the error.
pub uninterp spec fn parsed_update(body: Seq<u8>) -> Result<UpdateView, Seq<char>>;

pub open spec fn update_result(r: Result<IncomingUpdate, String>) -> Result<UpdateView, Seq<char>> {
    match r {
        Ok(update) => Ok(update@),
        Err(message) => Err(message@),
    }
}

/// Changes the type of a `frankenstein::Message`, and keeps the fields that are read of it.
#[verifier::external_body]
fn convert_message(m: Message) -> ReceivedMessage {
    ReceivedMessage {
        username: m.from.as_ref().and_then(|user| user.username.clone()),
        file_id: m.document.as_ref().map(|document| document.file_id.clone()),
        message: IncomingMessage {
            chat_id: m.chat.id,
            message_id: m.message_id,
            sender: m.from.map(|user| Sender { id: user.id, is_bot: user.is_bot }),
            text: m.text,
            document: m.document.map(|d| IncomingDocument { file_name: d.file_name }),
        },
    }
}

/// Changes the type of a `frankenstein::CallbackQuery`, and keeps the fields that are read of it.
#[verifier::external_body]
fn convert_callback(query: CallbackQuery) -> ReceivedCallback {
    ReceivedCallback {
        id: query.id,
        username: query.from.username,
        callback: IncomingCallback {
            user_id: query.from.id,
            data: query.data,
            message: query.message.map(|message| (message.chat.id, message.message_id)),
        },
    }
}

/// Changes the type of a `frankenstein::UpdateContent`, variant for variant. Only messages and
/// pressed buttons keep what they hold.
#[verifier::external_body]
fn convert_content(content: Content) -> IncomingContent {
    match content {
        Content::Message(m) => IncomingContent::Message(convert_message(m)),
        Content::EditedMessage(m) => IncomingContent::EditedMessage(convert_message(m)),
        Content::ChannelPost(m) => IncomingContent::ChannelPost(convert_message(m)),
        Content::EditedChannelPost(m) => IncomingContent::EditedChannelPost(convert_message(m)),
        Content::InlineQuery(_) => IncomingContent::InlineQuery,
        Content::ChosenInlineResult(_) => IncomingContent::ChosenInlineResult,
        Content::CallbackQuery(query) => IncomingContent::CallbackQuery(convert_callback(query)),
        Content::ShippingQuery(_) => IncomingContent::ShippingQuery,
        Content::PreCheckoutQuery(_) => IncomingContent::PreCheckoutQuery,
        Content::Poll(_) => IncomingContent::Poll, Content::PollAnswer(_) => IncomingContent::PollAnswer,
        Content::MyChatMember(_) => IncomingContent::MyChatMember,
        Content::ChatMember(_) => IncomingContent::ChatMember,
        Content::ChatJoinRequest(_) => IncomingContent::ChatJoinRequest,
    }
}

/// `serde_json::from_slice` into a `frankenstein::Update`: the update that the bytes hold, or why
/// they hold none. The result is a function of the bytes; which update they give is not stated.
#[verifier::external_body]
pub(crate) fn parse_update(body: &Vec<u8>) -> (r: Result<IncomingUpdate, String>)
    ensures
        update_result(r) == parsed_update(body@),
{
    match serde_json::from_slice::<Update>(body) {
        Ok(update) => Ok(
            IncomingUpdate { update_id: update.update_id, content: convert_content(update.content) },
        ),
        Err(error) => Err(error.to_string()),
    }
}

// ---------------------------------------------------------------------------------------------
// What is done

/// What to do about an update.
#[derive(Debug)]
pub enum UpdateWork {
    Message(ReceivedMessage),
    Callback(ReceivedCallback),
    Nothing,
}

pub enum WorkView {
    Message(ReceivedMessageView),
    Callback(ReceivedCallbackView),
    Nothing,
}

impl View for UpdateWork {
    type V = WorkView;

    open spec fn view(&self) -> WorkView {
        match self {
            UpdateWork::Message(message) => WorkView::Message(message@),
            UpdateWork::Callback(callback) => WorkView::Callback(callback@),
            UpdateWork::Nothing => WorkView::Nothing,
        }
    }
}

/// Messages and posts are answered, new and edited ones alike, and so are pressed buttons.
pub open spec fn work_of(content: ContentView) -> WorkView {
    match content {
        ContentView::Message(message) => WorkView::Message(message),
        ContentView::EditedMessage(message) => WorkView::Message(message),
        ContentView::ChannelPost(message) => WorkView::Message(message),
        ContentView::EditedChannelPost(message) => WorkView::Message(message),
        ContentView::CallbackQuery(callback) => WorkView::Callback(callback),
        _ => WorkView::Nothing,
    }
}

/// Decides what an update asks for.
pub fn process_telegram_update(update: IncomingUpdate) -> (r: UpdateWork)
    ensures
        r@ == work_of(update@.content),
{
    match update.content {
        IncomingContent::Message(message) => UpdateWork::Message(message),
        IncomingContent::EditedMessage(message) => UpdateWork::Message(message),
        IncomingContent::ChannelPost(message) => UpdateWork::Message(message),
        IncomingContent::EditedChannelPost(message) => UpdateWork::Message(message),
        IncomingContent::CallbackQuery(callback) => UpdateWork::Callback(callback),
        _ => UpdateWork::Nothing,
    }
}

/// A message is answered alike whether it is new or edited, sent or posted; a pressed button is
/// answered as one, and nothing else is.
pub proof fn law_edited_messages_are_answered_alike(
    message: ReceivedMessageView,
    callback: ReceivedCallbackView,
    content: ContentView,
)
    ensures
        work_of(ContentView::Message(message)) == WorkView::Message(message),
        work_of(ContentView::EditedMessage(message)) == work_of(ContentView::Message(message)),
        work_of(ContentView::ChannelPost(message)) == work_of(ContentView::Message(message)),
        work_of(ContentView::EditedChannelPost(message)) == work_of(ContentView::Message(message)),
        work_of(ContentView::CallbackQuery(callback)) == WorkView::Callback(callback),
        !(content is Message) && !(content is EditedMessage) && !(content is ChannelPost)
            && !(content is EditedChannelPost) && !(content is CallbackQuery) ==> work_of(content)
            is Nothing,
{
}

} // verus!
