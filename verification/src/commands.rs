//! What users type to the bot, and what the buttons under its messages say.

use vstd::prelude::*;

verus! {

use crate::listing::concat;
use crate::messages::{approve_button_view, document_button_view};
use crate::numbers::{
    all_digits, decimal, decimal_int, integer_within, law_decimal_int_reads_back,
    law_decimal_reads_back, lemma_decimal, natural_within, parse_i64, parse_u64, parse_usize,
    render_u64, render_usize,
};
use crate::text::{
    all_white, bare, chars_of, contains, has_prefix, is_ascii_alnum, is_ascii_alphanumeric,
    is_white, is_white_space, law_trimmed_text_is_bare, law_trimming_takes_the_space_off_the_ends,
    lemma_one_piece, lemma_pieces_append, lemma_pieces_nonempty, lemma_word_length, lowered,
    occurs_in, pieces, same, split, stands_at, starts_with, starts_with_char, strip_prefix,
    to_ascii_lowercase, trim, trimmed, views, word_length,
};

// ---------------------------------------------------------------------------------------------
// Commands

/// Whether the word is the command, alone or addressed to a bot by name.
pub open spec fn names_command(word: Seq<char>, name: Seq<char>) -> bool {
    word == name || has_prefix(word, name + "@"@)
}

/// Whether the whole text is the command, alone or addressed to a bot by name.
pub open spec fn is_command(text: Seq<char>, name: Seq<char>) -> bool {
    names_command(trimmed(text), name)
}

fn word_names_command(word: &str, name: &str) -> (r: bool)
    ensures
        r == names_command(word@, name@),
{
    let addressed = concat(name, "@");
    same(word, name) || starts_with(word, addressed.as_str())
}

fn text_is_command(text: &str, name: &str) -> (r: bool)
    ensures
        r == is_command(text@, name@),
{
    word_names_command(trim(text), name)
}

pub fn is_help_command(text: &str) -> (r: bool)
    ensures
        r == is_command(text@, "/help"@),
{
    text_is_command(text, "/help")
}

pub fn is_recent_documents_command(text: &str) -> (r: bool)
    ensures
        r == (is_command(text@, "/start"@) || is_command(text@, "/show"@)),
{
    text_is_command(text, "/start") || text_is_command(text, "/show")
}

pub fn is_clean_command(text: &str) -> (r: bool)
    ensures
        r == is_command(text@, "/clean"@),
{
    text_is_command(text, "/clean")
}

pub fn is_new_command(text: &str) -> (r: bool)
    ensures
        r == is_command(text@, "/new"@),
{
    text_is_command(text, "/new")
}

pub fn is_join_command(text: &str) -> (r: bool)
    ensures
        r == is_command(text@, "/join"@),
{
    text_is_command(text, "/join")
}

pub fn is_approve_command(text: &str) -> (r: bool)
    ensures
        r == is_command(text@, "/approve"@),
{
    text_is_command(text, "/approve")
}

/// The text up to the first white space.
pub open spec fn first_word(s: Seq<char>) -> Seq<char> {
    s.take(word_length(s) as int)
}

/// The text behind the first white space, empty where there is none.
pub open spec fn after_first_word(s: Seq<char>) -> Seq<char> {
    if word_length(s) < s.len() {
        s.skip(word_length(s) as int + 1)
    } else {
        Seq::empty()
    }
}

/// The index of the first white space, or the length.
fn word_end(text: &str) -> (r: usize)
    ensures
        r == word_length(text@),
        r <= text@.len(),
{
    let chars = chars_of(text);
    let mut n: usize = 0;
    assert(text@.skip(0) == text@);
    while n < chars.len() && !is_white_space(chars[n])
        invariant
            n <= chars@.len(),
            chars@ == text@,
            word_length(text@) == n + word_length(text@.skip(n as int)),
        decreases chars@.len() - n,
    {
        assert(text@.skip(n as int).drop_first() == text@.skip(n + 1));
        n += 1;
    }
    assert(n < text@.len() ==> text@.skip(n as int).first() == text@[n as int]);
    n
}

/// Splits at the first white space.
fn split_word<'a>(text: &'a str) -> (r: (&'a str, Option<&'a str>))
    ensures
        r.0@ == first_word(text@),
        r.1 is Some <==> word_length(text@) < text@.len(),
        r.1 matches Some(rest) ==> rest@ == after_first_word(text@),
{
    let end = word_end(text);
    let count = text.unicode_len();
    let word = text.substring_char(0, end);
    assert(word@ == first_word(text@));
    if end < count {
        let rest = text.substring_char(end + 1, count);
        assert(rest@ == after_first_word(text@));
        (word, Some(rest))
    } else {
        (word, None)
    }
}

/// What a search command asks for.
pub open spec fn search_query(text: Seq<char>) -> Option<Seq<char>> {
    let whole = trimmed(text);
    if names_command(first_word(whole), "/s"@) {
        Some(trimmed(after_first_word(whole)))
    } else {
        None
    }
}

/// The keywords of a search command, which may be empty; `None` for any other text.
pub fn parse_search_command<'a>(text: &'a str) -> (r: Option<&'a str>)
    ensures
        r is Some <==> search_query(text@) is Some,
        r matches Some(query) ==> search_query(text@) == Some(query@),
{
    let whole = trim(text);
    let (word, rest) = split_word(whole);
    if word_names_command(word, "/s") {
        match rest {
            Some(rest) => Some(trim(rest)),
            None => {
                let nothing = whole.substring_char(0, 0);
                assert(nothing@ =~= Seq::<char>::empty());
                Some(trim(nothing))
            },
        }
    } else {
        None
    }
}

/// The user that an approval is for.
pub open spec fn approved_user(text: Seq<char>) -> Option<nat> {
    let whole = trimmed(text);
    if word_length(whole) < whole.len() && names_command(first_word(whole), "/approve"@) {
        natural_within(trimmed(after_first_word(whole)), u64::MAX as int)
    } else {
        None
    }
}

/// The user that an approval is for; `None` where the text is not an approval of a number.
pub fn parse_approve_command(text: &str) -> (r: Option<u64>)
    ensures
        r is Some <==> approved_user(text@) is Some,
        r matches Some(user_id) ==> approved_user(text@) == Some(user_id as nat),
{
    let whole = trim(text);
    let (word, rest) = split_word(whole);
    match rest {
        Some(rest) => {
            if word_names_command(word, "/approve") {
                parse_u64(trim(rest))
            } else {
                None
            }
        },
        None => None,
    }
}

pub const COMMAND_LIST: &'static str = "Commands:\n/start show the latest 10 documents\n/show show the latest 10 documents\n/new receive plain text or a .txt/.md file and store it\n/s <keywords> search similar documents\n/clean remove duplicate rows from the database\n/join request access\n/help show this help";

/// The help for a text: plain where help was asked for, and after a remark otherwise.
/// Administrators see their own command.
pub open spec fn help_text(text: Seq<char>, is_admin: bool) -> Seq<char> {
    let whole = trimmed(text);
    (if is_command(whole, "/help"@) {
        ""@
    } else if whole.len() > 0 && whole.first() == '/' {
        "Unknown command.\n\n"@
    } else {
        "Send a command to continue.\n\n"@
    }) + COMMAND_LIST@ + (if is_admin {
        "\n/approve <user_id> admin only: grant access"@
    } else {
        ""@
    })
}

pub fn telegram_help_message(text: &str, is_admin: bool) -> (r: String)
    ensures
        r@ == help_text(text@, is_admin),
{
    let whole = trim(text);
    let remark = if is_help_command(whole) {
        ""
    } else if starts_with_char(whole, '/') {
        "Unknown command.\n\n"
    } else {
        "Send a command to continue.\n\n"
    };
    let mut r = remark.to_owned();
    r.append(COMMAND_LIST);
    r.append(
        if is_admin {
            "\n/approve <user_id> admin only: grant access"
        } else {
            ""
        },
    );
    r
}

// ---------------------------------------------------------------------------------------------
// Buttons

/// The document that a button asks for.
pub open spec fn requested_document(data: Seq<char>) -> Option<int> {
    if has_prefix(data, "doc:"@) {
        integer_within(data.skip("doc:"@.len() as int), i64::MIN as int, i64::MAX as int)
    } else {
        None
    }
}

pub fn parse_document_callback(data: &str) -> (r: Option<i64>)
    ensures
        r is Some <==> requested_document(data@) is Some,
        r matches Some(id) ==> requested_document(data@) == Some(id as int),
{
    match strip_prefix(data, "doc:") {
        Some(rest) => parse_i64(rest),
        None => None,
    }
}

/// The user that a button approves.
pub open spec fn requested_approval(data: Seq<char>) -> Option<nat> {
    if has_prefix(data, "approve:"@) {
        natural_within(data.skip("approve:"@.len() as int), u64::MAX as int)
    } else {
        None
    }
}

pub fn parse_approve_callback(data: &str) -> (r: Option<u64>)
    ensures
        r is Some <==> requested_approval(data@) is Some,
        r matches Some(user_id) ==> requested_approval(data@) == Some(user_id as nat),
{
    match strip_prefix(data, "approve:") {
        Some(rest) => parse_u64(rest),
        None => None,
    }
}

/// The search and the page that a button turns to.
pub open spec fn requested_page(data: Seq<char>) -> Option<(nat, nat)> {
    let parts = pieces(data, ':');
    if parts.len() >= 3 && parts[0] == "page"@ {
        match (
            natural_within(parts[1], u64::MAX as int),
            natural_within(parts[2], usize::MAX as int),
        ) {
            (Some(session), Some(page)) => Some((session, page)),
            _ => None,
        }
    } else {
        None
    }
}

pub fn parse_page_callback(data: &str) -> (r: Option<(u64, usize)>)
    ensures
        r is Some <==> requested_page(data@) is Some,
        r matches Some(found) ==> requested_page(data@) == Some((found.0 as nat, found.1 as nat)),
{
    let parts = split(data, ':');
    let ghost shown = views(parts@);
    if parts.len() < 3 {
        return None;
    }
    assert(shown[0] == parts@[0]@ && shown[1] == parts@[1]@ && shown[2] == parts@[2]@);
    if !same(parts[0].as_str(), "page") {
        return None;
    }
    match parse_u64(parts[1].as_str()) {
        Some(session) => match parse_usize(parts[2].as_str()) {
            Some(page) => Some((session, page)),
            None => None,
        },
        None => None,
    }
}

/// What a button says that turns to a page of a search.
pub open spec fn page_data(session: nat, page: nat) -> Seq<char> {
    "page:"@ + decimal(session) + ":"@ + decimal(page)
}

pub fn page_callback_data(session_id: u64, page: usize) -> (r: String)
    ensures
        r@ == page_data(session_id as nat, page as nat),
{
    let mut r = "page:".to_owned();
    r.append(render_u64(session_id).as_str());
    r.append(":");
    r.append(render_usize(page).as_str());
    r
}

proof fn lemma_strip(prefix: Seq<char>, rest: Seq<char>)
    ensures
        has_prefix(prefix + rest, prefix),
        (prefix + rest).skip(prefix.len() as int) == rest,
{
    assert((prefix + rest).take(prefix.len() as int) =~= prefix);
    assert((prefix + rest).skip(prefix.len() as int) =~= rest);
}

/// The button for a document asks for that document.
pub proof fn law_document_button_reads_back(header: Seq<char>, id: i64)
    ensures
        requested_document(document_button_view(header, id as int).callback_data) == Some(
            id as int,
        ),
{
    lemma_strip("doc:"@, decimal_int(id as int));
    law_decimal_int_reads_back(id as int);
}

/// The button of an access request approves the user that asked.
pub proof fn law_approve_button_reads_back(user_id: u64)
    ensures
        requested_approval(approve_button_view(user_id as nat).callback_data) == Some(
            user_id as nat,
        ),
{
    lemma_strip("approve:"@, decimal(user_id as nat));
    law_decimal_reads_back(user_id as nat);
}

proof fn lemma_digits_hold_no_colon(s: Seq<char>)
    requires
        all_digits(s),
    ensures
        !s.contains(':'),
{
}

/// The button that turns to a page of a search asks for that page of that search.
pub proof fn law_page_button_reads_back(session: u64, page: usize)
    ensures
        requested_page(page_data(session as nat, page as nat)) == Some(
            (session as nat, page as nat),
        ),
{
    let first = decimal(session as nat);
    let second = decimal(page as nat);
    lemma_decimal(session as nat);
    lemma_decimal(page as nat);
    lemma_digits_hold_no_colon(first);
    lemma_digits_hold_no_colon(second);
    reveal_strlit("page:");
    reveal_strlit("page");
    reveal_strlit(":");
    let word = "page"@;
    assert(!word.contains(':'));
    lemma_one_piece(word, ':');
    lemma_pieces_append(word, ':', first);
    let middle = word.push(':') + first;
    lemma_pieces_append(middle, ':', second);
    assert("page:"@ =~= word.push(':'));
    assert(page_data(session as nat, page as nat) =~= middle.push(':') + second);
    let parts = pieces(page_data(session as nat, page as nat), ':');
    assert(parts =~= seq![word, first, second]);
    law_decimal_reads_back(session as nat);
    law_decimal_reads_back(page as nat);
}

/// No button is mistaken for another kind.
pub proof fn law_buttons_are_told_apart(id: i64, user_id: u64, session: u64, page: usize)
    ensures
        requested_approval("doc:"@ + decimal_int(id as int)) is None,
        requested_document("approve:"@ + decimal(user_id as nat)) is None,
        requested_document(page_data(session as nat, page as nat)) is None,
        requested_approval(page_data(session as nat, page as nat)) is None,
        requested_page("doc:"@ + decimal_int(id as int)) is None,
        requested_page("approve:"@ + decimal(user_id as nat)) is None,
{
    reveal_strlit("doc:");
    reveal_strlit("approve:");
    reveal_strlit("page:");
    reveal_strlit("page");
    let document = "doc:"@ + decimal_int(id as int);
    let approval = "approve:"@ + decimal(user_id as nat);
    let turning = page_data(session as nat, page as nat);
    assert(document[0] == 'd');
    assert(approval[0] == 'a');
    assert(turning[0] == 'p');
    assert(has_prefix(document, "approve:"@) ==> document.take(8)[0] == 'a');
    assert(has_prefix(approval, "doc:"@) ==> approval.take(4)[0] == 'd');
    assert(has_prefix(turning, "doc:"@) ==> turning.take(4)[0] == 'd');
    assert(has_prefix(turning, "approve:"@) ==> turning.take(8)[0] == 'a');
    lemma_first_piece_starts(document, ':');
    lemma_first_piece_starts(approval, ':');
}

proof fn lemma_first_piece_starts(s: Seq<char>, separator: char)
    requires
        s.len() > 0,
        s.first() != separator,
    ensures
        pieces(s, separator)[0].len() > 0,
        pieces(s, separator)[0].first() == s.first(),
    decreases s.len(),
{
    lemma_pieces_nonempty(s.drop_last(), separator);
    if s.len() > 1 {
        lemma_first_piece_starts(s.drop_last(), separator);
    } else {
        assert(s.drop_last() =~= Seq::<char>::empty());
    }
}

// ---------------------------------------------------------------------------------------------
// Expired buttons

/// Whether an error says that a pressed button was answered too late.
pub open spec fn says_expired(message: Seq<char>) -> bool {
    let text = lowered(message);
    ||| occurs_in(text, "query is too old"@)
    ||| occurs_in(text, "response timeout expired"@)
    ||| occurs_in(text, "query id is invalid"@)
}

pub fn is_expired_callback_query_error(message: &str) -> (r: bool)
    ensures
        r == says_expired(message@),
{
    let lower = to_ascii_lowercase(message);
    let text = lower.as_str();
    contains(text, "query is too old") || contains(
        text,
        "response timeout expired",
    ) || contains(text, "query id is invalid")
}

/// What is printed when a pressed button could not be answered. The bot goes on in either case.
pub open spec fn unanswered_text(error: Seq<char>) -> Seq<char> {
    (if says_expired(error) {
        "Telegram callback query expired before it could be answered: "@
    } else {
        "Telegram callback query could not be answered, continuing anyway: "@
    }) + error
}

pub fn unanswered_notice(error: &str) -> (r: String)
    ensures
        r@ == unanswered_text(error@),
{
    if is_expired_callback_query_error(error) {
        concat("Telegram callback query expired before it could be answered: ", error)
    } else {
        concat("Telegram callback query could not be answered, continuing anyway: ", error)
    }
}

// ---------------------------------------------------------------------------------------------
// Names of submitted files

pub open spec fn is_name_char(c: char) -> bool {
    is_ascii_alnum(c) || c == '.' || c == '-' || c == '_'
}

/// The text with a hyphen for each character that has no place in a file name.
pub open spec fn as_name(s: Seq<char>) -> Seq<char> {
    Seq::new(
        s.len(),
        |i: int|
            if is_name_char(s[i]) {
                s[i]
            } else {
                '-'
            },
    )
}

/// The name under which a submission is stored.
pub open spec fn submission_name(file_name: Seq<char>, source: Seq<char>) -> Seq<char> {
    as_name(
        if trimmed(file_name).len() == 0 {
            "telegram-"@ + source + ".md"@
        } else {
            trimmed(file_name)
        },
    )
}

pub fn normalize_telegram_submission_name(file_name: &str, source_label: &str) -> (r: String)
    ensures
        r@ == submission_name(file_name@, source_label@),
{
    let whole = trim(file_name);
    let mut fallback = "telegram-".to_owned();
    fallback.append(source_label);
    fallback.append(".md");
    let candidate = if whole.is_empty() {
        fallback.as_str()
    } else {
        whole
    };
    let chars = chars_of(candidate);
    let mut r = String::new();
    let mut i: usize = 0;
    while i < chars.len()
        invariant
            i <= chars@.len(),
            chars@ == candidate@,
            r@ == as_name(candidate@).take(i as int),
        decreases chars@.len() - i,
    {
        let c = chars[i];
        if is_ascii_alphanumeric(c) || c == '.' || c == '-' || c == '_' {
            r.push(c);
        } else {
            r.push('-');
        }
        assert(as_name(candidate@).take(i + 1) =~= as_name(candidate@).take(i as int).push(
            as_name(candidate@)[i as int],
        ));
        i += 1;
    }
    assert(as_name(candidate@).take(i as int) =~= as_name(candidate@));
    r
}

/// The name of a submission is never empty and names a file, not a place in another directory.
pub proof fn law_submission_name_is_a_plain_name(file_name: Seq<char>, source: Seq<char>)
    ensures
        submission_name(file_name, source).len() > 0,
        forall|i: int|
            0 <= i < submission_name(file_name, source).len() ==> is_name_char(
                #[trigger] submission_name(file_name, source)[i],
            ),
{
    reveal_strlit("telegram-");
}

// ---------------------------------------------------------------------------------------------
// Laws of commands

/// What stands at a place of a text that is a command.
pub proof fn lemma_command_letter(text: Seq<char>, name: Seq<char>, k: int)
    requires
        is_command(text, name),
        0 <= k < name.len(),
    ensures
        trimmed(text).len() >= name.len(),
        trimmed(text)[k] == name[k],
{
    let whole = trimmed(text);
    if whole != name {
        assert(whole.take((name + "@"@).len() as int)[k] == (name + "@"@)[k]);
    }
}

/// The word of a command stands at the beginning of the text.
pub proof fn lemma_first_word_letter(text: Seq<char>, name: Seq<char>, k: int)
    requires
        names_command(first_word(trimmed(text)), name),
        0 <= k < name.len(),
    ensures
        trimmed(text).len() >= name.len(),
        trimmed(text)[k] == name[k],
        trimmed(text).len() == name.len() || is_white(trimmed(text)[name.len() as int]) || trimmed(
            text,
        )[name.len() as int] == '@',
{
    let whole = trimmed(text);
    lemma_word_length(whole);
    let word = first_word(whole);
    reveal_strlit("@");
    if word != name {
        let addressed = name + "@"@;
        assert(word.take(addressed.len() as int)[k] == addressed[k]);
        assert(word.take(addressed.len() as int)[name.len() as int] == addressed[name.len() as int]);
    }
}

/// A command is read alone or addressed to a bot by name, with any space around it; it is no
/// command where it is only the beginning of a longer word.
pub proof fn law_command_is_read(
    lead: Seq<char>,
    name: Seq<char>,
    bot: Seq<char>,
    trail: Seq<char>,
    c: char,
)
    requires
        all_white(lead),
        all_white(trail),
        bare(name),
        name.len() > 0,
        bot.len() > 0 ==> !is_white(bot.last()),
        c != '@',
        !is_white(c),
    ensures
        is_command(lead + name + trail, name),
        is_command(lead + (name + seq!['@'] + bot) + trail, name),
        !is_command(lead + name.push(c) + trail, name),
{
    law_trimming_takes_the_space_off_the_ends(lead, name, trail);
    let addressed = name + seq!['@'] + bot;
    assert(addressed.first() == name.first());
    law_trimming_takes_the_space_off_the_ends(lead, addressed, trail);
    reveal_strlit("@");
    assert(addressed.take(name.len() as int + 1) =~= name + "@"@);
    law_trimming_takes_the_space_off_the_ends(lead, name.push(c), trail);
    if has_prefix(name.push(c), name + "@"@) {
        assert(name.push(c).take(name.len() as int + 1)[name.len() as int] == c);
        assert((name + "@"@)[name.len() as int] == '@');
    }
}

proof fn lemma_word_then_gap(word: Seq<char>, gap: Seq<char>, rest: Seq<char>)
    requires
        forall|i: int| 0 <= i < word.len() ==> !is_white(#[trigger] word[i]),
        gap.len() > 0,
        all_white(gap),
        bare(rest),
    ensures
        first_word(word + gap + rest) == word,
        trimmed(after_first_word(word + gap + rest)) == rest,
        word_length(word + gap + rest) == word.len(),
{
    let whole = word + gap + rest;
    lemma_word_length(whole);
    let n = word_length(whole) as int;
    assert(whole[word.len() as int] == gap[0]);
    assert(is_white(gap[0]));
    if n < word.len() {
        assert(!is_white(word[n]));
        assert(whole[n] == word[n]);
    }
    assert(n == word.len());
    assert(whole.take(n) =~= word);
    let others = gap.drop_first();
    assert(all_white(others)) by {
        assert forall|i: int| 0 <= i < others.len() implies is_white(#[trigger] others[i]) by {
            assert(others[i] == gap[i + 1]);
        }
    }
    law_trimming_takes_the_space_off_the_ends(others, rest, Seq::empty());
    assert(others + rest + Seq::<char>::empty() =~= whole.skip(n + 1));
}

/// A search command asks for what stands behind it, without the space around it.
pub proof fn law_search_asks_for_what_follows(
    lead: Seq<char>,
    bot: Seq<char>,
    gap: Seq<char>,
    query: Seq<char>,
    trail: Seq<char>,
)
    requires
        all_white(lead),
        all_white(gap),
        gap.len() > 0,
        all_white(trail),
        bare(query),
        query.len() > 0,
        forall|i: int| 0 <= i < bot.len() ==> !is_white(#[trigger] bot[i]),
    ensures
        search_query(lead + (seq!['/', 's'] + gap + query) + trail) == Some(query),
        search_query(lead + (seq!['/', 's', '@'] + bot + gap + query) + trail) == Some(query),
{
    reveal_strlit("/s");
    reveal_strlit("@");
    let word = seq!['/', 's'];
    let whole = word + gap + query;
    assert(whole.first() == '/' && whole.last() == query.last());
    law_trimming_takes_the_space_off_the_ends(lead, whole, trail);
    lemma_word_then_gap(word, gap, query);
    assert(word =~= "/s"@);
    let addressed = seq!['/', 's', '@'] + bot;
    let called = addressed + gap + query;
    assert(called.first() == '/' && called.last() == query.last());
    law_trimming_takes_the_space_off_the_ends(lead, called, trail);
    assert forall|i: int| 0 <= i < addressed.len() implies !is_white(#[trigger] addressed[i]) by {
        if i >= 3 {
            assert(addressed[i] == bot[i - 3]);
        }
    }
    lemma_word_then_gap(addressed, gap, query);
    assert(addressed.take(3) =~= "/s"@ + "@"@);
}

/// Nothing else asks for a search: the text begins with the command, and there the word ends or is
/// addressed.
pub proof fn law_only_the_search_command_searches(text: Seq<char>)
    requires
        search_query(text) is Some,
    ensures
        trimmed(text).len() >= 2,
        trimmed(text)[0] == '/',
        trimmed(text)[1] == 's',
        trimmed(text).len() == 2 || is_white(trimmed(text)[2]) || trimmed(text)[2] == '@',
        bare(search_query(text)->0),
{
    reveal_strlit("/s");
    lemma_first_word_letter(text, "/s"@, 0);
    lemma_first_word_letter(text, "/s"@, 1);
    law_trimmed_text_is_bare(after_first_word(trimmed(text)));
}

/// An approval names the user by number, behind the command.
pub proof fn law_approval_names_its_user(
    lead: Seq<char>,
    gap: Seq<char>,
    user_id: u64,
    trail: Seq<char>,
)
    requires
        all_white(lead),
        all_white(gap),
        gap.len() > 0,
        all_white(trail),
    ensures
        approved_user(lead + ("/approve"@ + gap + decimal(user_id as nat)) + trail) == Some(
            user_id as nat,
        ),
{
    reveal_strlit("/approve");
    let word = "/approve"@;
    let number = decimal(user_id as nat);
    lemma_decimal(user_id as nat);
    law_decimal_reads_back(user_id as nat);
    assert(!is_white(number.first()) && !is_white(number.last())) by {
        assert(number[0] == number.first());
        assert(number[number.len() - 1] == number.last());
    }
    let whole = word + gap + number;
    assert(whole.first() == '/' && whole.last() == number.last());
    law_trimming_takes_the_space_off_the_ends(lead, whole, trail);
    lemma_word_then_gap(word, gap, number);
}

/// Nothing else approves a user.
pub proof fn law_only_the_approve_command_approves(text: Seq<char>)
    requires
        approved_user(text) is Some,
    ensures
        has_prefix(trimmed(text), "/approve"@),
        trimmed(text).len() > 8,
        approved_user(text)->0 <= u64::MAX,
{
    reveal_strlit("/approve");
    let whole = trimmed(text);
    assert forall|k: int| 0 <= k < 8 implies whole[k] == "/approve"@[k] by {
        lemma_first_word_letter(text, "/approve"@, k);
    }
    lemma_first_word_letter(text, "/approve"@, 0);
    lemma_word_length(whole);
    assert(whole.take(8) =~= "/approve"@);
    let word = first_word(whole);
    assert(word.len() >= 8) by {
        if word != "/approve"@ {
            assert(has_prefix(word, "/approve"@ + "@"@));
        }
    }
}

/// The help says first what was wrong with the text, if anything was; administrators see the same
/// and their own command.
pub proof fn law_help_fits_the_text(text: Seq<char>)
    ensures
        help_text(text, true) == help_text(text, false)
            + "\n/approve <user_id> admin only: grant access"@,
        is_command(trimmed(text), "/help"@) ==> help_text(text, false) == COMMAND_LIST@,
        !is_command(trimmed(text), "/help"@) && trimmed(text).len() > 0 && trimmed(text)[0] == '/'
            ==> help_text(text, false) == "Unknown command.\n\n"@ + COMMAND_LIST@,
        trimmed(text).len() == 0 || trimmed(text)[0] != '/' ==> help_text(text, false)
            == "Send a command to continue.\n\n"@ + COMMAND_LIST@,
{
    reveal_strlit("");
    assert(""@ =~= Seq::empty());
    assert(""@ + COMMAND_LIST@ =~= COMMAND_LIST@);
    assert(help_text(text, false) + Seq::<char>::empty() =~= help_text(text, false));
    if is_command(trimmed(text), "/help"@) {
        law_trimmed_text_is_bare(text);
        reveal_strlit("/help");
        lemma_command_letter(trimmed(text), "/help"@, 0);
    }
    let remark = if is_command(trimmed(text), "/help"@) {
        ""@
    } else if trimmed(text).len() > 0 && trimmed(text).first() == '/' {
        "Unknown command.\n\n"@
    } else {
        "Send a command to continue.\n\n"@
    };
    assert(remark + COMMAND_LIST@ + Seq::<char>::empty() =~= remark + COMMAND_LIST@);
}

/// An error is known as that of an expired button by any of three phrases, wherever it stands and
/// in whatever case.
pub proof fn law_expired_buttons_are_known(
    before: Seq<char>,
    phrase: Seq<char>,
    after: Seq<char>,
)
    requires
        lowered(phrase) == "query is too old"@ || lowered(phrase) == "response timeout expired"@
            || lowered(phrase) == "query id is invalid"@,
    ensures
        says_expired(before + phrase + after),
{
    let text = lowered(before + phrase + after);
    let at = before.len() as int;
    assert(text.subrange(at, at + phrase.len()) =~= lowered(phrase));
    assert(stands_at(text, lowered(phrase), at));
}

/// A name is kept as it is where every character has a place in a file name; otherwise it keeps its
/// length, and those that have none become hyphens.
pub proof fn law_submission_name_keeps_what_it_can(
    lead: Seq<char>,
    name: Seq<char>,
    trail: Seq<char>,
    source: Seq<char>,
    i: int,
)
    requires
        all_white(lead),
        bare(name),
        0 <= i < name.len(),
        all_white(trail),
    ensures
        submission_name(lead + name + trail, source).len() == name.len(),
        is_ascii_alnum(name[i]) || name[i] == '.' || name[i] == '-' || name[i] == '_'
            ==> submission_name(lead + name + trail, source)[i] == name[i],
        !(is_ascii_alnum(name[i]) || name[i] == '.' || name[i] == '-' || name[i] == '_')
            ==> submission_name(lead + name + trail, source)[i] == '-',
{
    law_trimming_takes_the_space_off_the_ends(lead, name, trail);
}

/// A submission without a name gets one from where it came from.
pub proof fn law_nameless_submission_is_named_after_its_source(
    blank: Seq<char>,
    source: Seq<char>,
)
    requires
        all_white(blank),
        forall|i: int|
            0 <= i < source.len() ==> is_ascii_alnum(#[trigger] source[i]) || source[i] == '-',
    ensures
        submission_name(blank, source) == "telegram-"@ + source + ".md"@,
{
    law_trimming_takes_the_space_off_the_ends(blank, Seq::empty(), Seq::empty());
    assert(blank + Seq::<char>::empty() + Seq::<char>::empty() =~= blank);
    reveal_strlit("telegram-");
    reveal_strlit(".md");
    let name = "telegram-"@ + source + ".md"@;
    assert forall|i: int| 0 <= i < name.len() implies is_name_char(#[trigger] name[i]) by {
        if 9 <= i < 9 + source.len() {
            assert(name[i] == source[i - 9]);
        }
    }
    assert(as_name(name) =~= name);
}

} // verus!
