//! Finding the chats that the bot was seen in, and choosing one for notifications.

use vstd::prelude::*;

verus! {

use crate::config::{optional_str, LoadedConfig, TelegramConfig, TelegramMode};
use crate::listing::concat;
use crate::numbers::{
    decimal, decimal_int, law_decimal_reads_back, lemma_decimal, natural_within, parse_usize,
    render_i64, render_usize,
};
use crate::text::{
    all_white, bare, law_trimming_takes_the_space_off_the_ends, lemma_occurs_behind,
    lemma_still_occurs, occurs_in, trim, trimmed,
};
use crate::ui::{paint, painted, BOLD_MAGENTA, DIM};
use crate::validation::{blank_or_placeholder, is_blank_or_placeholder};

/// Where a chat was seen.
#[derive(Debug, Clone, Copy, PartialEq, Eq, Structural)]
pub enum ChatSource {
    Message,
    MemberUpdate,
    JoinRequest,
}

impl ChatSource {
    pub open spec fn text(self) -> Seq<char> {
        match self {
            ChatSource::Message => "message"@,
            ChatSource::MemberUpdate => "member-update"@,
            ChatSource::JoinRequest => "join-request"@,
        }
    }

    pub fn as_str(&self) -> (r: &'static str)
        ensures
            r@ == self.text(),
    {
        match self {
            ChatSource::Message => "message",
            ChatSource::MemberUpdate => "member-update",
            ChatSource::JoinRequest => "join-request",
        }
    }
}

/// A chat as Telegram describes it.
#[derive(Debug)]
pub struct ChatInfo {
    pub id: i64,
    pub kind: String,
    pub title: Option<String>,
    pub username: Option<String>,
    pub first_name: Option<String>,
    pub last_name: Option<String>,
}

/// A chat in an update.
#[derive(Debug)]
pub struct ChatSighting {
    pub chat: ChatInfo,
    pub source: ChatSource,
}

/// A chat to choose from.
#[derive(Debug)]
pub struct TelegramChatCandidate {
    pub id: i64,
    pub kind: String,
    pub title: String,
    pub source: ChatSource,
}

pub struct CandidateView {
    pub id: i64,
    pub kind: Seq<char>,
    pub title: Seq<char>,
    pub source: ChatSource,
}

impl View for TelegramChatCandidate {
    type V = CandidateView;

    open spec fn view(&self) -> CandidateView {
        CandidateView {
            id: self.id,
            kind: self.kind@,
            title: self.title@,
            source: self.source,
        }
    }
}

/// What a chat is called: its title, or the name of the user in it, or else its number.
pub open spec fn chat_title(chat: ChatInfo) -> Seq<char> {
    match (chat.title, chat.username, chat.first_name, chat.last_name) {
        (Some(title), _, _, _) => title@,
        (None, Some(username), _, _) => "@"@ + username@,
        (None, None, Some(first), Some(last)) => first@ + " "@ + last@,
        (None, None, Some(first), None) => first@,
        (None, None, None, Some(last)) => last@,
        (None, None, None, None) => "chat "@ + decimal_int(chat.id as int),
    }
}

pub fn format_chat_title(chat: &ChatInfo) -> (r: String)
    ensures
        r@ == chat_title(*chat),
{
    if let Some(title) = &chat.title {
        return title.as_str().to_owned();
    }
    if let Some(username) = &chat.username {
        return concat("@", username.as_str());
    }
    match &chat.first_name {
        Some(first) => match &chat.last_name {
            Some(last) => {
                let mut name = first.as_str().to_owned();
                name.append(" ");
                name.append(last.as_str());
                name
            },
            None => first.as_str().to_owned(),
        },
        None => match &chat.last_name {
            Some(last) => last.as_str().to_owned(),
            None => concat("chat ", render_i64(chat.id).as_str()),
        },
    }
}

pub open spec fn candidate_of(sighting: ChatSighting) -> CandidateView {
    CandidateView {
        id: sighting.chat.id,
        kind: sighting.chat.kind@,
        title: chat_title(sighting.chat),
        source: sighting.source,
    }
}

fn make_candidate(sighting: &ChatSighting) -> (r: TelegramChatCandidate)
    ensures
        r@ == candidate_of(*sighting),
{
    TelegramChatCandidate {
        id: sighting.chat.id,
        kind: sighting.chat.kind.as_str().to_owned(),
        title: format_chat_title(&sighting.chat),
        source: sighting.source,
    }
}

/// The first time that a chat was seen.
pub open spec fn first_seen(sightings: Seq<ChatSighting>, id: i64) -> Option<CandidateView>
    decreases sightings.len(),
{
    if sightings.len() == 0 {
        None
    } else {
        match first_seen(sightings.drop_last(), id) {
            Some(found) => Some(found),
            None => if sightings.last().chat.id == id {
                Some(candidate_of(sightings.last()))
            } else {
                None
            },
        }
    }
}

pub open spec fn by_number(candidates: Seq<TelegramChatCandidate>) -> bool {
    forall|i: int, j: int|
        0 <= i < j < candidates.len() ==> (#[trigger] candidates[i]).id < (
        #[trigger] candidates[j]).id
}

pub open spec fn lists_chat(candidates: Seq<TelegramChatCandidate>, id: i64) -> bool {
    exists|i: int| 0 <= i < candidates.len() && (#[trigger] candidates[i]).id == id
}

/// Whether the list holds each chat that was seen, once, as it was first seen, in the order of
/// the numbers.
pub open spec fn is_collected(
    candidates: Seq<TelegramChatCandidate>,
    sightings: Seq<ChatSighting>,
) -> bool {
    &&& by_number(candidates)
    &&& forall|i: int|
        0 <= i < candidates.len() ==> first_seen(sightings, (#[trigger] candidates[i]).id) == Some(
            candidates[i]@,
        )
    &&& forall|id: i64| #[trigger]
        first_seen(sightings, id) is Some ==> lists_chat(candidates, id)
}

/// The chats that were seen.
pub fn collect_chat_candidates(sightings: &Vec<ChatSighting>) -> (r: Vec<TelegramChatCandidate>)
    ensures
        is_collected(r@, sightings@),
{
    let mut r: Vec<TelegramChatCandidate> = Vec::new();
    let mut n: usize = 0;
    while n < sightings.len()
        invariant
            n <= sightings@.len(),
            is_collected(r@, sightings@.take(n as int)),
        decreases sightings@.len() - n,
    {
        let ghost seen = sightings@.take(n as int);
        let ghost now = sightings@.take(n + 1);
        assert(now.drop_last() =~= seen);
        let id = sightings[n].chat.id;
        assert(now.last().chat.id == id);
        let ghost before = r@;
        let mut at: usize = 0;
        while at < r.len() && r[at].id < id
            invariant
                at <= r@.len(),
                r@ == before,
                forall|i: int| 0 <= i < at ==> (#[trigger] r@[i]).id < id,
            decreases r@.len() - at,
        {
            at += 1;
        }
        if at < r.len() && r[at].id == id {
            proof {
                assert(first_seen(seen, id) == Some(before[at as int]@));
                assert forall|i: int| 0 <= i < before.len() implies first_seen(
                    now,
                    (#[trigger] before[i]).id,
                ) == Some(before[i]@) by {
                    assert(first_seen(seen, before[i].id) == Some(before[i]@));
                }
                assert forall|other: i64| #[trigger]
                    first_seen(now, other) is Some implies lists_chat(before, other) by {
                    if other == id {
                        assert(before[at as int].id == id);
                    } else {
                        assert(first_seen(seen, other) is Some);
                    }
                }
            }
        } else {
            let candidate = make_candidate(&sightings[n]);
            let ghost new = candidate;
            r.insert(at, candidate);
            proof {
                let after = r@;
                assert(after =~= before.insert(at as int, new));
                assert(first_seen(seen, id) is None) by {
                    if first_seen(seen, id) is Some {
                        assert(lists_chat(before, id));
                        let k = choose|k: int|
                            0 <= k < before.len() && (#[trigger] before[k]).id == id;
                        if k > at {
                            assert(before[at as int].id < before[k].id);
                        }
                    }
                }
                assert forall|i: int, j: int| 0 <= i < j < after.len() implies (
                #[trigger] after[i]).id < (#[trigger] after[j]).id by {
                    if i < at {
                        assert(after[i] == before[i]);
                    } else if i > at {
                        assert(after[i] == before[i - 1]);
                    }
                    if j < at {
                        assert(after[j] == before[j]);
                    } else if j > at {
                        assert(after[j] == before[j - 1]);
                        if j - 1 > at {
                            assert(before[at as int].id < before[j - 1].id);
                        }
                    }
                }
                assert forall|i: int| 0 <= i < after.len() implies first_seen(
                    now,
                    (#[trigger] after[i]).id,
                ) == Some(after[i]@) by {
                    if i < at {
                        assert(after[i] == before[i]);
                        assert(first_seen(seen, before[i].id) == Some(before[i]@));
                    } else if i > at {
                        assert(after[i] == before[i - 1]);
                        assert(first_seen(seen, before[i - 1].id) == Some(before[i - 1]@));
                    }
                }
                assert forall|other: i64| #[trigger]
                    first_seen(now, other) is Some implies lists_chat(after, other) by {
                    if other == id {
                        assert(after[at as int].id == id);
                    } else {
                        assert(first_seen(seen, other) is Some);
                        assert(lists_chat(before, other));
                        let k = choose|k: int|
                            0 <= k < before.len() && (#[trigger] before[k]).id == other;
                        if k < at {
                            assert(after[k].id == other);
                        } else {
                            assert(after[k + 1].id == other);
                        }
                    }
                }
            }
        }
        n += 1;
    }
    assert(sightings@.take(n as int) =~= sightings@);
    r
}

/// A chat is listed exactly when it was seen.
pub proof fn law_listed_means_seen(
    candidates: Seq<TelegramChatCandidate>,
    sightings: Seq<ChatSighting>,
    id: i64,
)
    requires
        is_collected(candidates, sightings),
    ensures
        lists_chat(candidates, id) <==> first_seen(sightings, id) is Some,
{
    if lists_chat(candidates, id) {
        let i = choose|i: int| 0 <= i < candidates.len() && (#[trigger] candidates[i]).id == id;
        assert(first_seen(sightings, candidates[i].id) == Some(candidates[i]@));
    }
}

/// A line of the list that is shown.
pub open spec fn candidate_text(number: nat, candidate: CandidateView, enabled: bool) -> Seq<char> {
    "  "@ + painted(decimal(number), BOLD_MAGENTA@, enabled) + ". "@ + candidate.title + " ["@
        + candidate.kind + "] id="@ + painted(
        decimal_int(candidate.id as int),
        BOLD_MAGENTA@,
        enabled,
    ) + " source="@ + painted(candidate.source.text(), DIM@, enabled)
}

pub fn candidate_line(number: usize, candidate: &TelegramChatCandidate, enabled: bool) -> (r:
    String)
    ensures
        r@ == candidate_text(number as nat, candidate@, enabled),
{
    let mut line = "  ".to_owned();
    line.append(paint(render_usize(number).as_str(), BOLD_MAGENTA, enabled).as_str());
    line.append(". ");
    line.append(candidate.title.as_str());
    line.append(" [");
    line.append(candidate.kind.as_str());
    line.append("] id=");
    line.append(paint(render_i64(candidate.id).as_str(), BOLD_MAGENTA, enabled).as_str());
    line.append(" source=");
    line.append(paint(candidate.source.as_str(), DIM, enabled).as_str());
    line
}

/// The number that was chosen from a list of so many.
pub open spec fn chosen(answer: Seq<char>, count: nat) -> Option<nat> {
    match natural_within(trimmed(answer), usize::MAX as int) {
        Some(number) if 1 <= number <= count => Some(number),
        _ => None,
    }
}

/// The index of the chosen chat, or what is wrong with the answer.
pub fn read_selection(answer: &str, count: usize) -> (r: Result<usize, String>)
    ensures
        r is Ok <==> chosen(answer@, count as nat) is Some,
        r matches Ok(index) ==> chosen(answer@, count as nat) == Some((index + 1) as nat) && index
            < count,
        r matches Err(message) ==> message@ == selection_problem(answer@, count as nat),
{
    match parse_usize(trim(answer)) {
        None => Err("invalid selection; enter a number from the list".to_owned()),
        Some(number) => {
            if number == 0 || number > count {
                Err(
                    concat(
                        "selection out of range; choose a number between 1 and ",
                        render_usize(count).as_str(),
                    ),
                )
            } else {
                Ok(number - 1)
            }
        },
    }
}

/// Which chat to save.
#[derive(Debug)]
pub enum ChatChoice {
    /// No chat was seen: save none, and end well.
    Nothing,
    /// Ask for a number from the list.
    Ask,
    /// Save the chat at this index.
    Take(usize),
    /// The answer names no chat; the text says why.
    Refuse(String),
}

pub enum ChoiceView {
    Nothing,
    Ask,
    Take(nat),
    Refuse(Seq<char>),
}

impl View for ChatChoice {
    type V = ChoiceView;

    open spec fn view(&self) -> ChoiceView {
        match self {
            ChatChoice::Nothing => ChoiceView::Nothing,
            ChatChoice::Ask => ChoiceView::Ask,
            ChatChoice::Take(index) => ChoiceView::Take(*index as nat),
            ChatChoice::Refuse(message) => ChoiceView::Refuse(message@),
        }
    }
}

/// What is wrong with an answer that chooses nothing.
pub open spec fn selection_problem(answer: Seq<char>, count: nat) -> Seq<char> {
    if natural_within(trimmed(answer), usize::MAX as int) is None {
        "invalid selection; enter a number from the list"@
    } else {
        "selection out of range; choose a number between 1 and "@ + decimal(count)
    }
}

/// Where only one chat was seen it is taken unasked; of several the answer chooses one.
pub open spec fn choice_among(count: nat, answer: Option<Seq<char>>) -> ChoiceView {
    if count == 0 {
        ChoiceView::Nothing
    } else if count == 1 {
        ChoiceView::Take(0)
    } else {
        match answer {
            None => ChoiceView::Ask,
            Some(text) => match chosen(text, count) {
                Some(number) => ChoiceView::Take((number - 1) as nat),
                None => ChoiceView::Refuse(selection_problem(text, count)),
            },
        }
    }
}

/// Decides which of the chats to save, before and after the user was asked.
pub fn choose_chat(candidates: &Vec<TelegramChatCandidate>, answer: Option<&str>) -> (r: ChatChoice)
    ensures
        r@ == choice_among(candidates@.len(), optional_str(answer)),
        r matches ChatChoice::Take(index) ==> index < candidates@.len(),
{
    let count = candidates.len();
    if count == 0 {
        return ChatChoice::Nothing;
    }
    if count == 1 {
        return ChatChoice::Take(0);
    }
    match answer {
        None => ChatChoice::Ask,
        Some(text) => match read_selection(text, count) {
            Ok(index) => ChatChoice::Take(index),
            Err(message) => ChatChoice::Refuse(message),
        },
    }
}

/// How a command that works with the configured bot begins.
#[derive(Debug)]
pub enum CommandStart {
    /// The configuration file was only just created: say so, and end well.
    Stop,
    /// The bot cannot be worked with; the text says why.
    Refuse(String),
    /// Do the work.
    Proceed,
}

pub enum StartView {
    Stop,
    Refuse(Seq<char>),
    Proceed,
}

impl View for CommandStart {
    type V = StartView;

    open spec fn view(&self) -> StartView {
        match self {
            CommandStart::Stop => StartView::Stop,
            CommandStart::Refuse(message) => StartView::Refuse(message@),
            CommandStart::Proceed => StartView::Proceed,
        }
    }
}

/// Nothing is done with a new file, and nothing where there is a problem.
pub open spec fn started(created: bool, problem: Option<Seq<char>>) -> StartView {
    if created {
        StartView::Stop
    } else {
        match problem {
            Some(message) => StartView::Refuse(message),
            None => StartView::Proceed,
        }
    }
}

/// Why chats cannot be looked for.
pub open spec fn discovery_problem_text(config: TelegramConfig, config_path: Seq<char>) -> Option<
    Seq<char>,
> {
    if blank_or_placeholder(config.bot_token@) {
        Some(
            "telegram.bot_token is not configured in "@ + config_path
                + "; set it before discovering chats"@,
        )
    } else if config.mode is Webhook {
        Some(
            "--telegram-discover-chat requires telegram.mode = \"polling\" because Telegram disables getUpdates while a webhook is active"@,
        )
    } else {
        None
    }
}

pub fn discovery_problem(config: &TelegramConfig, config_path: &str) -> (r: Option<String>)
    ensures
        r is Some <==> discovery_problem_text(*config, config_path@) is Some,
        r matches Some(message) ==> discovery_problem_text(*config, config_path@) == Some(
            message@,
        ),
{
    if is_blank_or_placeholder(config.bot_token.as_str()) {
        let mut message = "telegram.bot_token is not configured in ".to_owned();
        message.append(config_path);
        message.append("; set it before discovering chats");
        return Some(message);
    }
    match config.mode {
        TelegramMode::Webhook => Some(
            "--telegram-discover-chat requires telegram.mode = \"polling\" because Telegram disables getUpdates while a webhook is active".to_owned(),
        ),
        TelegramMode::Polling => None,
    }
}

/// Decides whether to look for chats. Without settings the file was only just created.
pub fn begin_discovery(read: Option<&TelegramConfig>, config_path: &str) -> (r: CommandStart)
    ensures
        r@ == (match read {
            None => started(true, None),
            Some(config) => started(false, discovery_problem_text(*config, config_path@)),
        }),
{
    match read {
        None => CommandStart::Stop,
        Some(config) => match discovery_problem(config, config_path) {
            Some(message) => CommandStart::Refuse(message),
            None => CommandStart::Proceed,
        },
    }
}

/// Why the webhook cannot be deleted.
pub open spec fn deletion_problem_text(config: TelegramConfig, config_path: Seq<char>) -> Option<
    Seq<char>,
> {
    if trimmed(config.bot_token@).len() == 0 {
        Some(
            "telegram.bot_token is not configured in "@ + config_path
                + "; set it before deleting the webhook"@,
        )
    } else {
        None
    }
}

pub fn deletion_problem(config: &TelegramConfig, config_path: &str) -> (r: Option<String>)
    ensures
        r is Some <==> deletion_problem_text(*config, config_path@) is Some,
        r matches Some(message) ==> deletion_problem_text(*config, config_path@) == Some(message@),
{
    if !trim(config.bot_token.as_str()).is_empty() {
        return None;
    }
    let mut message = "telegram.bot_token is not configured in ".to_owned();
    message.append(config_path);
    message.append("; set it before deleting the webhook");
    Some(message)
}

/// Decides whether to delete the webhook.
pub fn begin_deletion(loaded: &LoadedConfig) -> (r: CommandStart)
    ensures
        r@ == started(
            loaded.created,
            deletion_problem_text(loaded.data.telegram, loaded.path@),
        ),
{
    if loaded.created {
        return CommandStart::Stop;
    }
    match deletion_problem(&loaded.data.telegram, loaded.path.as_str()) {
        Some(message) => CommandStart::Refuse(message),
        None => CommandStart::Proceed,
    }
}

/// A number from the list chooses the chat that it stands before, with any space around it; a
/// number outside the list chooses nothing.
pub proof fn law_number_chooses_its_chat(
    lead: Seq<char>,
    number: usize,
    trail: Seq<char>,
    count: nat,
)
    requires
        all_white(lead),
        all_white(trail),
        count > 1,
    ensures
        ({
            let answer = lead + decimal(number as nat) + trail;
            if 1 <= number <= count {
                choice_among(count, Some(answer)) == ChoiceView::Take((number - 1) as nat)
            } else {
                choice_among(count, Some(answer)) == ChoiceView::Refuse(
                    "selection out of range; choose a number between 1 and "@ + decimal(count),
                )
            }
        }),
{
    let shown = decimal(number as nat);
    lemma_decimal(number as nat);
    law_decimal_reads_back(number as nat);
    assert(bare(shown)) by {
        assert(shown[0] == shown.first());
        assert(shown[shown.len() - 1] == shown.last());
    }
    law_trimming_takes_the_space_off_the_ends(lead, shown, trail);
}

/// A chat that is taken is one of the list; nothing is asked where there is nothing to choose.
pub proof fn law_choice_is_from_the_list(count: nat, answer: Option<Seq<char>>)
    ensures
        choice_among(count, answer) matches ChoiceView::Take(index) ==> index < count,
        choice_among(count, answer) is Ask <==> count > 1 && answer is None,
        choice_among(count, answer) is Nothing <==> count == 0,
        count == 1 ==> choice_among(count, answer) == ChoiceView::Take(0),
{
}

/// A chat is shown by its title; without one by the name of its user, which an at sign marks, and
/// else by the first and last names; its number is the last resort.
pub proof fn law_chat_is_called_by_its_best_name(chat: ChatInfo)
    ensures
        chat.title is Some ==> chat_title(chat) == chat.title->0@,
        chat.title is None && chat.username is Some ==> chat_title(chat) == "@"@
            + chat.username->0@,
        chat.title is None && chat.username is None && chat.first_name is Some
            ==> chat.first_name->0@.is_prefix_of(chat_title(chat)),
        chat.title is None && chat.username is None && chat.last_name is Some
            ==> chat.last_name->0@.is_suffix_of(chat_title(chat)),
        chat.title is None && chat.username is None && chat.first_name is None && chat.last_name
            is None ==> chat_title(chat) == "chat "@ + decimal_int(chat.id as int),
{
    let shown = chat_title(chat);
    if chat.first_name is Some {
        let first = chat.first_name->0@;
        if chat.last_name is Some {
            let last = chat.last_name->0@;
            let both = first + " "@ + last;
            assert(both.take(first.len() as int) =~= first);
            assert(both.skip(both.len() - last.len()) =~= last);
        } else {
            assert(first.take(first.len() as int) =~= first);
        }
    } else if chat.last_name is Some {
        let last = chat.last_name->0@;
        assert(last.skip(0) =~= last);
    }
}

/// A chat is listed as it was seen first.
pub proof fn law_first_sighting_counts(sightings: Seq<ChatSighting>, id: i64)
    ensures
        first_seen(sightings, id) matches Some(found) ==> exists|i: int|
            0 <= i < sightings.len() && (#[trigger] sightings[i]).chat.id == id && found
                == candidate_of(sightings[i]) && forall|j: int|
                0 <= j < i ==> (#[trigger] sightings[j]).chat.id != id,
        first_seen(sightings, id) is None ==> forall|j: int|
            0 <= j < sightings.len() ==> (#[trigger] sightings[j]).chat.id != id,
    decreases sightings.len(),
{
    if sightings.len() > 0 {
        let before = sightings.drop_last();
        law_first_sighting_counts(before, id);
        assert(forall|j: int| 0 <= j < before.len() ==> before[j] == sightings[j]);
        if first_seen(before, id) is Some {
            let i = choose|i: int|
                0 <= i < before.len() && (#[trigger] before[i]).chat.id == id && first_seen(
                    before,
                    id,
                )->0 == candidate_of(before[i]) && forall|j: int|
                    0 <= j < i ==> (#[trigger] before[j]).chat.id != id;
            assert forall|j: int| 0 <= j < i implies (#[trigger] sightings[j]).chat.id != id by {
                assert(before[j].chat.id != id);
            }
            assert(sightings[i].chat.id == id);
        } else {
            assert forall|j: int| 0 <= j < before.len() implies (#[trigger] sightings[j]).chat.id
                != id by {
                assert(before[j].chat.id != id);
            }
            assert(sightings[sightings.len() - 1] == sightings.last());
        }
    }
}

/// Chats are looked for only with a token that was filled in and while updates are polled for; a
/// webhook is deleted with any token at all.
pub proof fn law_commands_need_a_token(config: TelegramConfig, path: Seq<char>)
    ensures
        discovery_problem_text(config, path) is None <==> !blank_or_placeholder(config.bot_token@)
            && config.mode is Polling,
        deletion_problem_text(config, path) is None <==> trimmed(config.bot_token@).len() > 0,
        started(true, discovery_problem_text(config, path)) is Stop,
        started(false, discovery_problem_text(config, path)) is Proceed <==> discovery_problem_text(
            config,
            path,
        ) is None,
{
}

/// A line of the list shows the number to type, the name, the kind and the number of the chat.
pub proof fn law_list_shows_what_to_choose(number: nat, candidate: CandidateView)
    ensures
        ({
            let line = candidate_text(number, candidate, false);
            &&& occurs_in(line, "  "@ + decimal(number))
            &&& occurs_in(line, ". "@ + candidate.title)
            &&& occurs_in(line, " ["@ + candidate.kind)
            &&& occurs_in(line, "] id="@ + decimal_int(candidate.id as int))
            &&& candidate.source.text().is_suffix_of(line)
        }),
{
    broadcast use lemma_still_occurs;
    broadcast use lemma_occurs_behind;

    let line = candidate_text(number, candidate, false);
    let end = candidate.source.text();
    assert(line.skip(line.len() - end.len()) =~= end);
    let first = Seq::<char>::empty() + "  "@ + decimal(number);
    assert(first =~= "  "@ + decimal(number));
    assert(occurs_in(first, "  "@ + decimal(number)));
}

} // verus!
