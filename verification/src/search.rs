//! Searching the stored documents: how well a document matches, which matches come first, and the
//! pages on which they are shown.

use vstd::prelude::*;

verus! {

use crate::commands::{
    law_document_button_reads_back, law_page_button_reads_back, page_callback_data, page_data,
    requested_document, requested_page,
};
use crate::listing::holds_text;
use crate::messages::{
    button_rows, button_views, document_button, document_button_view, ButtonView, InlineButton,
    MarkupView, MessageView, OutgoingMessage, ReplyMarkup,
};
use crate::numbers::{decimal, decimal_int, render_i64, render_u64, render_usize};
use crate::paths::{file_stem, path_file_stem};
use crate::score::{at_least, exceeds, rank, score_at_least, score_exceeds, score_rank};
use crate::text::{
    all_white, bare, chars_of, clip, clipped, contains, has_prefix, is_ascii_alnum, is_white,
    law_lines_end_at_line_feeds, law_trimming_and_lower_case_commute,
    law_trimming_takes_the_space_off_the_ends, lemma_occurs_behind, lemma_occurs_inside,
    lemma_still_occurs, lemma_trimmed_end, lemma_trimmed_start, lines, lowered, occurs_in,
    split_lines, stands_at, to_ascii_lowercase, trim, trim_leading, trimmed, trimmed_start, views,
    without_leading,
};

// ---------------------------------------------------------------------------------------------
// Words

/// Whether `char::is_alphanumeric` holds of a character: whether it is a letter or a number of
/// any script.
pub uninterp spec fn alphanumeric(c: char) -> bool;

/// `char::is_alphanumeric`: which characters of other scripts are letters or numbers is not
/// stated; among the ASCII characters they are the letters and the digits.
pub assume_specification[ char::is_alphanumeric ](c: char) -> (r: bool)
    ensures
        r == alphanumeric(c),
        (c as u32) < 128 ==> r == is_ascii_alnum(c),
;

/// The pieces of the text between characters that are neither letters nor numbers.
pub open spec fn runs(s: Seq<char>) -> Seq<Seq<char>>
    decreases s.len(),
{
    if s.len() == 0 {
        seq![Seq::empty()]
    } else {
        let before = runs(s.drop_last());
        if alphanumeric(s.last()) {
            before.drop_last().push(before.last().push(s.last()))
        } else {
            before.push(Seq::empty())
        }
    }
}

/// A piece as it is compared: without surrounding space, in lower case.
pub open spec fn token(piece: Seq<char>) -> Seq<char> {
    lowered(trimmed(piece))
}

/// The tokens of the pieces, each where it first occurs.
pub open spec fn tokens_among(parts: Seq<Seq<char>>) -> Seq<Seq<char>>
    decreases parts.len(),
{
    if parts.len() == 0 {
        Seq::empty()
    } else {
        let before = tokens_among(parts.drop_last());
        let last = token(parts.last());
        if last.len() == 0 || before.contains(last) {
            before
        } else {
            before.push(last)
        }
    }
}

/// The words of a text, each once, in lower case.
pub open spec fn tokens(s: Seq<char>) -> Seq<Seq<char>> {
    tokens_among(runs(s))
}

proof fn lemma_runs_nonempty(s: Seq<char>)
    ensures
        runs(s).len() > 0,
    decreases s.len(),
{
    if s.len() > 0 {
        lemma_runs_nonempty(s.drop_last());
    }
}

/// Splits the text at every character that is neither a letter nor a number.
fn split_runs(text: &str) -> (r: Vec<String>)
    ensures
        views(r@) == runs(text@),
{
    let chars = chars_of(text);
    let mut r: Vec<String> = Vec::new();
    let mut current = String::new();
    let mut i: usize = 0;
    assert(views(r@).push(current@) =~= runs(text@.take(0)));
    while i < chars.len()
        invariant
            i <= chars@.len(),
            chars@ == text@,
            views(r@).push(current@) == runs(text@.take(i as int)),
        decreases chars@.len() - i,
    {
        let ghost before = runs(text@.take(i as int));
        let ghost done = views(r@);
        let ghost open = current@;
        assert(text@.take(i + 1).drop_last() == text@.take(i as int));
        assert(before.drop_last() =~= done);
        let c = chars[i];
        if c.is_alphanumeric() {
            current.push(c);
            assert(views(r@).push(current@) =~= before.drop_last().push(before.last().push(c)));
        } else {
            r.push(current);
            current = String::new();
            assert(views(r@) =~= before);
            assert(views(r@).push(current@) =~= before.push(Seq::empty()));
        }
        i += 1;
    }
    assert(text@.take(i as int) == text@);
    let ghost done = views(r@);
    let ghost last = current@;
    r.push(current);
    assert(views(r@) =~= done.push(last));
    r
}

pub fn tokenize(text: &str) -> (r: Vec<String>)
    ensures
        views(r@) == tokens(text@),
{
    let parts = split_runs(text);
    let ghost shown = views(parts@);
    let mut r: Vec<String> = Vec::new();
    let mut i: usize = 0;
    assert(views(r@) =~= Seq::<Seq<char>>::empty());
    while i < parts.len()
        invariant
            i <= parts@.len(),
            shown == views(parts@),
            views(r@) == tokens_among(shown.take(i as int)),
        decreases parts@.len() - i,
    {
        assert(shown.take(i + 1).drop_last() == shown.take(i as int));
        assert(shown.take(i + 1).last() == parts@[i as int]@);
        let word = to_ascii_lowercase(trim(parts[i].as_str()));
        if !word.as_str().is_empty() && !holds_text(&r, word.as_str()) {
            let ghost before = views(r@);
            let ghost added = word@;
            r.push(word);
            assert(views(r@) =~= before.push(added));
        }
        i += 1;
    }
    assert(shown.take(i as int) == shown);
    r
}

/// The words of a text are all different and none is empty.
pub proof fn law_tokens_are_distinct(s: Seq<char>)
    ensures
        tokens(s).no_duplicates(),
        forall|i: int| 0 <= i < tokens(s).len() ==> (#[trigger] tokens(s)[i]).len() > 0,
{
    lemma_tokens_distinct(runs(s));
}

proof fn lemma_tokens_distinct(parts: Seq<Seq<char>>)
    ensures
        tokens_among(parts).no_duplicates(),
        forall|i: int|
            0 <= i < tokens_among(parts).len() ==> (#[trigger] tokens_among(parts)[i]).len() > 0,
    decreases parts.len(),
{
    if parts.len() > 0 {
        lemma_tokens_distinct(parts.drop_last());
    }
}

// ---------------------------------------------------------------------------------------------
// How well the words match

/// How well a text matches a query by its words.
#[derive(Debug, Clone, Copy, PartialEq, Eq, Structural)]
pub enum LexicalScore {
    /// The query has no words.
    Nothing,
    /// The text holds the query as it stands.
    Whole,
    /// The text holds `found` of the `total` words of the query.
    Words { found: usize, total: usize },
}

pub enum LexicalView {
    Nothing,
    Whole,
    Words { found: nat, total: nat },
}

impl View for LexicalScore {
    type V = LexicalView;

    open spec fn view(&self) -> LexicalView {
        match self {
            LexicalScore::Nothing => LexicalView::Nothing,
            LexicalScore::Whole => LexicalView::Whole,
            LexicalScore::Words { found, total } => LexicalView::Words {
                found: *found as nat,
                total: *total as nat,
            },
        }
    }
}

/// How many of the words are among the others.
pub open spec fn found_among(wanted: Seq<Seq<char>>, others: Seq<Seq<char>>) -> nat
    decreases wanted.len(),
{
    if wanted.len() == 0 {
        0
    } else {
        found_among(wanted.drop_last(), others) + (if others.contains(wanted.last()) {
            1nat
        } else {
            0nat
        })
    }
}

/// Whether the text holds the query as it stands, in upper or lower case.
pub open spec fn holds_whole(query: Seq<char>, candidate: Seq<char>) -> bool {
    let wanted = trimmed(lowered(query));
    wanted.len() > 0 && occurs_in(lowered(candidate), wanted)
}

/// How well a text matches a query by its words.
pub open spec fn lexical_match(query: Seq<char>, candidate: Seq<char>) -> LexicalView {
    if tokens(query).len() == 0 {
        LexicalView::Nothing
    } else if holds_whole(query, candidate) {
        LexicalView::Whole
    } else {
        LexicalView::Words {
            found: found_among(tokens(query), tokens(candidate)),
            total: tokens(query).len(),
        }
    }
}

pub fn lexical_similarity(query: &str, candidate: &str) -> (r: LexicalScore)
    ensures
        r@ == lexical_match(query@, candidate@),
        tokens(query@).len() == 0 ==> r is Nothing,
        tokens(query@).len() > 0 && holds_whole(query@, candidate@) ==> r is Whole,
        tokens(query@).len() > 0 && !holds_whole(query@, candidate@) ==> {
            &&& r matches LexicalScore::Words { found, total }
            &&& found == found_among(tokens(query@), tokens(candidate@))
            &&& total == tokens(query@).len()
        },
{
    let wanted = tokenize(query);
    assert(views(wanted@).len() == wanted@.len());
    if wanted.len() == 0 {
        return LexicalScore::Nothing;
    }
    let lower_candidate = to_ascii_lowercase(candidate);
    let lower_query = to_ascii_lowercase(query);
    let whole = trim(lower_query.as_str());
    if !whole.is_empty() && contains(lower_candidate.as_str(), whole) {
        return LexicalScore::Whole;
    }
    let others = tokenize(candidate);
    let ghost shown = views(wanted@);
    let mut found: usize = 0;
    let mut i: usize = 0;
    while i < wanted.len()
        invariant
            i <= wanted@.len(),
            shown == views(wanted@),
            found <= i,
            found == found_among(shown.take(i as int), views(others@)),
        decreases wanted@.len() - i,
    {
        assert(shown.take(i + 1).drop_last() == shown.take(i as int));
        assert(shown.take(i + 1).last() == wanted@[i as int]@);
        if holds_text(&others, wanted[i].as_str()) {
            found += 1;
        }
        i += 1;
    }
    assert(shown.take(i as int) == shown);
    LexicalScore::Words { found, total: wanted.len() }
}

/// No more words are found than were looked for, so the share of words found is at most one.
pub proof fn law_found_at_most_all(wanted: Seq<Seq<char>>, others: Seq<Seq<char>>)
    ensures
        found_among(wanted, others) <= wanted.len(),
    decreases wanted.len(),
{
    if wanted.len() > 0 {
        law_found_at_most_all(wanted.drop_last(), others);
    }
}

/// As many words are found as there are words of the query among the words of the text.
pub proof fn law_found_words_are_those_in_the_text(
    wanted: Seq<Seq<char>>,
    others: Seq<Seq<char>>,
)
    ensures
        found_among(wanted, others) == wanted.filter(|word: Seq<char>| others.contains(word)).len(),
    decreases wanted.len(),
{
    reveal(Seq::filter);
    if wanted.len() > 0 {
        law_found_words_are_those_in_the_text(wanted.drop_last(), others);
    }
}

/// Comparing as a whole is blind to the case of ASCII letters, in the query and in the text.
pub proof fn law_whole_match_is_blind_to_case(
    query: Seq<char>,
    spelled: Seq<char>,
    candidate: Seq<char>,
    other: Seq<char>,
)
    requires
        lowered(query) == lowered(spelled),
        lowered(candidate) == lowered(other),
    ensures
        holds_whole(query, candidate) == holds_whole(spelled, other),
{
}

/// A text holds every part of itself that is not blank, in whatever case the part is spelled; a
/// query of which that part has words is a whole match.
pub proof fn law_part_of_a_text_is_found(
    candidate: Seq<char>,
    part: Seq<char>,
    query: Seq<char>,
)
    requires
        occurs_in(candidate, part),
        trimmed(part).len() > 0,
        lowered(query) == lowered(part),
    ensures
        holds_whole(query, candidate),
        tokens(query).len() > 0 ==> lexical_match(query, candidate) is Whole,
{
    law_trimming_and_lower_case_commute(part);
    lemma_trimmed_start(part);
    let start = trimmed_start(part);
    lemma_trimmed_end(start);
    let shown = trimmed(part);
    let lead = part.len() - start.len();
    let at = choose|at: int| stands_at(candidate, part, at);
    let place = at + lead;
    let wanted = lowered(shown);
    assert(candidate.subrange(place, place + shown.len()) =~= shown) by {
        assert forall|i: int| 0 <= i < shown.len() implies candidate[place + i] == shown[i] by {
            assert(candidate.subrange(at, at + part.len())[lead + i] == part[lead + i]);
            assert(start[i] == part[lead + i]);
        }
    }
    assert(lowered(candidate).subrange(place, place + wanted.len()) =~= wanted) by {
        assert forall|i: int| 0 <= i < wanted.len() implies lowered(candidate)[place + i]
            == wanted[i] by {
            assert(candidate.subrange(place, place + shown.len())[i] == shown[i]);
        }
    }
    assert(stands_at(lowered(candidate), wanted, place));
}

/// A whole match is a real one: some part of the text reads as the query, in whatever case, with
/// the space around it left out.
pub proof fn law_whole_match_stands_in_the_text(query: Seq<char>, candidate: Seq<char>)
    requires
        lexical_match(query, candidate) is Whole,
    ensures
        trimmed(query).len() > 0,
        exists|at: int, end: int|
            0 <= at <= end <= candidate.len() && lowered(#[trigger] candidate.subrange(at, end))
                == lowered(trimmed(query)),
{
    law_trimming_and_lower_case_commute(query);
    let wanted = lowered(trimmed(query));
    let at = choose|at: int| stands_at(lowered(candidate), wanted, at);
    let end = at + wanted.len();
    assert(lowered(candidate.subrange(at, end)) =~= wanted) by {
        assert forall|i: int| 0 <= i < wanted.len() implies lowered(
            candidate.subrange(at, end),
        )[i] == wanted[i] by {
            assert(lowered(candidate).subrange(at, end)[i] == wanted[i]);
        }
    }
}

/// What was found in a text is found in a longer one.
pub proof fn law_longer_text_is_found_too(
    query: Seq<char>,
    before: Seq<char>,
    candidate: Seq<char>,
    after: Seq<char>,
)
    requires
        lexical_match(query, candidate) is Whole,
    ensures
        lexical_match(query, before + candidate + after) is Whole,
{
    let wanted = trimmed(lowered(query));
    let longer = before + candidate + after;
    let at = choose|at: int| stands_at(lowered(candidate), wanted, at);
    let place = before.len() + at;
    assert(lowered(longer).subrange(place, place + wanted.len()) =~= wanted) by {
        assert forall|i: int| 0 <= i < wanted.len() implies lowered(longer)[place + i]
            == wanted[i] by {
            assert(lowered(candidate).subrange(at, at + wanted.len())[i] == wanted[i]);
        }
    }
    assert(stands_at(lowered(longer), wanted, place));
}

proof fn lemma_runs_apart(a: Seq<char>, separator: char, b: Seq<char>)
    requires
        !alphanumeric(separator),
    ensures
        runs(a.push(separator) + b) == runs(a) + runs(b),
    decreases b.len(),
{
    let whole = a.push(separator) + b;
    lemma_runs_nonempty(b);
    if b.len() == 0 {
        assert(whole =~= a.push(separator));
        assert(whole.drop_last() =~= a);
        assert(runs(whole) =~= runs(a) + runs(b));
    } else {
        lemma_runs_apart(a, separator, b.drop_last());
        lemma_runs_nonempty(b.drop_last());
        assert(whole.drop_last() =~= a.push(separator) + b.drop_last());
        assert(runs(whole) =~= runs(a) + runs(b));
    }
}

proof fn lemma_tokens_hold(parts: Seq<Seq<char>>, i: int)
    requires
        0 <= i < parts.len(),
        token(parts[i]).len() > 0,
    ensures
        tokens_among(parts).contains(token(parts[i])),
    decreases parts.len(),
{
    let before = tokens_among(parts.drop_last());
    if i < parts.len() - 1 {
        lemma_tokens_hold(parts.drop_last(), i);
        let k = choose|k: int| 0 <= k < before.len() && before[k] == token(parts[i]);
        assert(tokens_among(parts)[k] == token(parts[i]));
    } else if !before.contains(token(parts[i])) {
        assert(tokens_among(parts).last() == token(parts[i]));
    }
}

proof fn lemma_one_run(word: Seq<char>)
    requires
        forall|i: int| 0 <= i < word.len() ==> alphanumeric(#[trigger] word[i]),
    ensures
        runs(word) == seq![word],
    decreases word.len(),
{
    if word.len() > 0 {
        let before = word.drop_last();
        assert forall|i: int| 0 <= i < before.len() implies alphanumeric(#[trigger] before[i]) by {
            assert(before[i] == word[i]);
        }
        lemma_one_run(before);
        assert(alphanumeric(word[word.len() - 1]));
        assert(before.push(word.last()) =~= word);
        assert(runs(word) =~= seq![word]);
    } else {
        assert(word =~= Seq::empty());
        assert(runs(word) =~= seq![word]);
    }
}

/// Every word of a text is among its tokens, in lower case: a run of letters and numbers with
/// something else, or nothing, on either side.
pub proof fn law_every_word_is_a_token(before: Seq<char>, word: Seq<char>, after: Seq<char>)
    requires
        word.len() > 0,
        trimmed(word) == word,
        forall|i: int| 0 <= i < word.len() ==> alphanumeric(#[trigger] word[i]),
        before.len() == 0 || !alphanumeric(before.last()),
        after.len() == 0 || !alphanumeric(after.first()),
    ensures
        tokens(before + word + after).contains(lowered(word)),
{
    lemma_one_run(word);
    let text = before + word + after;
    let tail = word + after;
    if after.len() > 0 {
        lemma_runs_apart(word, after.first(), after.drop_first());
        assert(word.push(after.first()) + after.drop_first() =~= tail);
    } else {
        assert(tail =~= word);
    }
    assert(runs(tail)[0] == word);
    if before.len() > 0 {
        lemma_runs_apart(before.drop_last(), before.last(), tail);
        assert(before.drop_last().push(before.last()) + tail =~= text);
        assert(runs(text)[runs(before.drop_last()).len() as int] == word);
        lemma_tokens_hold(runs(text), runs(before.drop_last()).len() as int);
    } else {
        assert(tail =~= text);
        lemma_tokens_hold(runs(text), 0);
    }
}

/// A text that holds every word of the query has all of them found, and one that holds none has
/// none found.
pub proof fn law_all_or_no_words_are_found(wanted: Seq<Seq<char>>, others: Seq<Seq<char>>)
    ensures
        (forall|i: int| 0 <= i < wanted.len() ==> others.contains(#[trigger] wanted[i]))
            ==> found_among(wanted, others) == wanted.len(),
        (forall|i: int| 0 <= i < wanted.len() ==> !others.contains(#[trigger] wanted[i]))
            ==> found_among(wanted, others) == 0,
    decreases wanted.len(),
{
    if wanted.len() > 0 {
        let rest = wanted.drop_last();
        law_all_or_no_words_are_found(rest, others);
        assert(forall|i: int| 0 <= i < rest.len() ==> rest[i] == wanted[i]);
        assert(wanted[wanted.len() - 1] == wanted.last());
    }
}

/// The tokens of a text are in lower case, and none comes from elsewhere: each is how a stretch of
/// letters and numbers of the text reads in lower case, without the space around it.
pub proof fn law_tokens_come_from_the_text(s: Seq<char>, i: int)
    requires
        0 <= i < tokens(s).len(),
    ensures
        tokens(s)[i].len() > 0,
        lowered(tokens(s)[i]) == tokens(s)[i],
        exists|at: int, end: int|
            0 <= at <= end <= s.len() && lowered(trimmed(#[trigger] s.subrange(at, end)))
                == tokens(s)[i] && forall|j: int| at <= j < end ==> alphanumeric(#[trigger] s[j]),
{
    lemma_token_origin(runs(s), i);
    let k = choose|k: int| 0 <= k < runs(s).len() && token(#[trigger] runs(s)[k]) == tokens(s)[i];
    let shown = trimmed(runs(s)[k]);
    assert(lowered(lowered(shown)) =~= lowered(shown));
    lemma_run_origin(s, k);
}

proof fn lemma_run_origin(s: Seq<char>, k: int)
    requires
        0 <= k < runs(s).len(),
    ensures
        exists|at: int, end: int|
            0 <= at <= end <= s.len() && runs(s)[k] == #[trigger] s.subrange(at, end) && (k
                == runs(s).len() - 1 ==> end == s.len()) && forall|j: int|
                at <= j < end ==> alphanumeric(#[trigger] s[j]),
    decreases s.len(),
{
    if s.len() == 0 {
        assert(s.subrange(0, 0) =~= runs(s)[k]);
    } else {
        let rest = s.drop_last();
        lemma_runs_nonempty(rest);
        if k == runs(s).len() - 1 && !alphanumeric(s.last()) {
            assert(s.subrange(s.len() as int, s.len() as int) =~= runs(s)[k]);
        } else {
            lemma_run_origin(rest, k);
            let (at, end) = choose|at: int, end: int|
                0 <= at <= end <= rest.len() && runs(rest)[k] == #[trigger] rest.subrange(at, end)
                    && (k == runs(rest).len() - 1 ==> end == rest.len()) && forall|j: int|
                    at <= j < end ==> alphanumeric(#[trigger] rest[j]);
            assert forall|j: int| at <= j < end implies alphanumeric(#[trigger] s[j]) by {
                assert(rest[j] == s[j]);
            }
            if k == runs(s).len() - 1 {
                assert(s.subrange(at, s.len() as int) =~= runs(s)[k]);
            } else {
                assert(s.subrange(at, end) =~= runs(s)[k]);
            }
        }
    }
}

proof fn lemma_token_origin(parts: Seq<Seq<char>>, i: int)
    requires
        0 <= i < tokens_among(parts).len(),
    ensures
        tokens_among(parts)[i].len() > 0,
        exists|k: int| 0 <= k < parts.len() && token(#[trigger] parts[k]) == tokens_among(parts)[i],
    decreases parts.len(),
{
    if parts.len() > 0 {
        let before = tokens_among(parts.drop_last());
        if i < before.len() {
            lemma_token_origin(parts.drop_last(), i);
            let k = choose|k: int|
                0 <= k < parts.drop_last().len() && token(#[trigger] parts.drop_last()[k])
                    == before[i];
            assert(token(parts[k]) == tokens_among(parts)[i]);
        } else {
            assert(token(parts[parts.len() - 1]) == tokens_among(parts)[i]);
        }
    }
}

/// The text of a document that a query is compared with.
pub open spec fn compared_text(summary: Seq<char>, content: Seq<char>) -> Seq<char> {
    summary + "\n"@ + content
}

/// The text of a document that a query is compared with.
pub fn searched_text(summary: &str, content: &str) -> (r: String)
    ensures
        r@ == compared_text(summary@, content@),
        r@ == summary@ + "\n"@ + content@,
{
    let mut r = summary.to_owned();
    r.append("\n");
    r.append(content);
    r
}

// ---------------------------------------------------------------------------------------------
// Documents and matches

/// The first line with something other than `#` and space on it.
pub open spec fn first_heading(all: Seq<Seq<char>>) -> Option<Seq<char>>
    decreases all.len(),
{
    if all.len() == 0 {
        None
    } else {
        let line = trimmed(without_leading(trimmed(all.first()), '#'));
        if line.len() > 0 {
            Some(line)
        } else {
            first_heading(all.drop_first())
        }
    }
}

/// The title of a document: its first heading, or else its name.
pub open spec fn document_header(content: Seq<char>, path: Seq<char>) -> Seq<char> {
    match first_heading(lines(content)) {
        Some(line) => clipped(line, 80),
        None => match path_file_stem(path) {
            Some(stem) if stem.len() > 0 => stem,
            _ => "Untitled document"@,
        },
    }
}

pub fn extract_document_header(content: &str, path: &str) -> (r: String)
    ensures
        r@ == document_header(content@, path@),
{
    let all = split_lines(content);
    let ghost shown = lines(content@);
    let mut i: usize = 0;
    assert(shown.skip(0) == shown);
    while i < all.len()
        invariant
            i <= all@.len(),
            shown == lines(content@),
            views(all@) == shown,
            first_heading(shown) == first_heading(shown.skip(i as int)),
        decreases all@.len() - i,
    {
        assert(shown.skip(i as int).first() == all@[i as int]@);
        assert(shown.skip(i as int).drop_first() == shown.skip(i + 1));
        let line = trim(trim_leading(trim(all[i].as_str()), '#'));
        if !line.is_empty() {
            return clip(line, 80);
        }
        i += 1;
    }
    assert(shown.skip(i as int).len() == 0);
    match file_stem(path) {
        Some(stem) => {
            if stem.as_str().is_empty() {
                "Untitled document".to_owned()
            } else {
                stem
            }
        },
        None => "Untitled document".to_owned(),
    }
}

/// A stored document, and the score with which it was found.
#[derive(Debug)]
pub struct QueryMatch {
    pub id: i64,
    pub header: String,
    pub path: String,
    /// The bits of the score.
    pub score: u32,
}

pub struct MatchView {
    pub id: int,
    pub header: Seq<char>,
    pub path: Seq<char>,
    pub score: u32,
}

impl View for QueryMatch {
    type V = MatchView;

    open spec fn view(&self) -> MatchView {
        MatchView {
            id: self.id as int,
            header: self.header@,
            path: self.path@,
            score: self.score,
        }
    }
}

pub open spec fn match_views(matches: Seq<QueryMatch>) -> Seq<MatchView> {
    Seq::new(matches.len(), |i: int| matches[i]@)
}

impl QueryMatch {
    pub fn copied(&self) -> (r: QueryMatch)
        ensures
            r@ == self@,
    {
        QueryMatch {
            id: self.id,
            header: self.header.as_str().to_owned(),
            path: self.path.as_str().to_owned(),
            score: self.score,
        }
    }
}

/// A stored document with no score.
pub fn stored_document(id: i64, path: &str, content: &str) -> (r: QueryMatch)
    ensures
        r@ == (MatchView {
            id: id as int,
            header: document_header(content@, path@),
            path: path@,
            score: 0,
        }),
{
    QueryMatch {
        id,
        header: extract_document_header(content, path),
        path: path.to_owned(),
        score: 0,
    }
}

/// The score of the embeddings where it is the greater one, the score of the words otherwise.
pub open spec fn better_score(lexical: u32, embedding: Option<u32>) -> u32 {
    match embedding {
        Some(score) if exceeds(score, lexical) => score,
        _ => lexical,
    }
}

/// A document that was compared with a query by its words and, where possible, by its embedding.
pub fn judged_document(
    id: i64,
    path: &str,
    content: &str,
    lexical: u32,
    embedding: Option<u32>,
) -> (r: QueryMatch)
    ensures
        r@ == (MatchView {
            id: id as int,
            header: document_header(content@, path@),
            path: path@,
            score: better_score(lexical, embedding),
        }),
{
    let score: u32 = match embedding {
        Some(found) => if score_exceeds(found, lexical) {
            found
        } else {
            lexical
        },
        None => lexical,
    };
    QueryMatch {
        id,
        header: extract_document_header(content, path),
        path: path.to_owned(),
        score,
    }
}

// ---------------------------------------------------------------------------------------------
// Ranking

/// The matches with the given rank, in order.
pub open spec fn of_rank(matches: Seq<MatchView>, r: int) -> Seq<MatchView>
    decreases matches.len(),
{
    if matches.len() == 0 {
        Seq::empty()
    } else if rank(matches.last().score) == r {
        of_rank(matches.drop_last(), r).push(matches.last())
    } else {
        of_rank(matches.drop_last(), r)
    }
}

pub open spec fn descending(matches: Seq<MatchView>) -> bool {
    forall|i: int, j: int|
        0 <= i <= j < matches.len() ==> rank((#[trigger] matches[i]).score) >= rank(
            (#[trigger] matches[j]).score,
        )
}

/// Whether `ranked` holds the same matches as `matches`, best score first, and matches with the
/// same score in the order that they had.
pub open spec fn is_ranking(ranked: Seq<MatchView>, matches: Seq<MatchView>) -> bool {
    &&& ranked.len() == matches.len()
    &&& descending(ranked)
    &&& forall|r: int| #[trigger] of_rank(ranked, r) == of_rank(matches, r)
}

proof fn lemma_of_rank_distributes(a: Seq<MatchView>, b: Seq<MatchView>, r: int)
    ensures
        of_rank(a + b, r) == of_rank(a, r) + of_rank(b, r),
    decreases b.len(),
{
    if b.len() == 0 {
        assert(a + b =~= a);
        assert(of_rank(a, r) + of_rank(b, r) =~= of_rank(a, r));
    } else {
        lemma_of_rank_distributes(a, b.drop_last(), r);
        assert((a + b).drop_last() =~= a + b.drop_last());
        assert((a + b).last() == b.last());
        assert(of_rank(a + b, r) =~= of_rank(a, r) + of_rank(b, r));
    }
}

proof fn lemma_none_of_rank(a: Seq<MatchView>, r: int)
    requires
        forall|i: int| 0 <= i < a.len() ==> rank((#[trigger] a[i]).score) != r,
    ensures
        of_rank(a, r).len() == 0,
    decreases a.len(),
{
    if a.len() > 0 {
        assert forall|i: int| 0 <= i < a.drop_last().len() implies rank(
            (#[trigger] a.drop_last()[i]).score,
        ) != r by {
            assert(a.drop_last()[i] == a[i]);
        }
        lemma_none_of_rank(a.drop_last(), r);
        assert(a[a.len() - 1] == a.last());
    }
}

/// A new match goes behind all that score as well, and before all that score less.
proof fn lemma_insertion(
    ranked: Seq<MatchView>,
    matches: Seq<MatchView>,
    at: int,
    new: MatchView,
)
    requires
        is_ranking(ranked, matches),
        0 <= at <= ranked.len(),
        forall|i: int| 0 <= i < at ==> rank((#[trigger] ranked[i]).score) >= rank(new.score),
        forall|i: int|
            at <= i < ranked.len() ==> rank((#[trigger] ranked[i]).score) < rank(new.score),
    ensures
        is_ranking(ranked.insert(at, new), matches.push(new)),
{
    let front = ranked.take(at);
    let back = ranked.skip(at);
    let result = ranked.insert(at, new);
    assert(result =~= front + seq![new] + back);
    assert(ranked =~= front + back);
    assert forall|r: int| #[trigger] of_rank(result, r) == of_rank(matches.push(new), r) by {
        lemma_of_rank_distributes(front + seq![new], back, r);
        lemma_of_rank_distributes(front, seq![new], r);
        lemma_of_rank_distributes(front, back, r);
        assert(of_rank(ranked, r) == of_rank(matches, r));
        assert(matches.push(new).drop_last() =~= matches);
        assert(seq![new].drop_last() =~= Seq::<MatchView>::empty());
        reveal_with_fuel(of_rank, 2);
        if rank(new.score) == r {
            assert forall|i: int| 0 <= i < back.len() implies rank((#[trigger] back[i]).score)
                != r by {
                assert(back[i] == ranked[at + i]);
            }
            lemma_none_of_rank(back, r);
            assert(of_rank(seq![new], r) =~= seq![new]);
            assert(of_rank(result, r) =~= of_rank(ranked, r).push(new));
        } else {
            assert(of_rank(seq![new], r) =~= Seq::<MatchView>::empty());
            assert(of_rank(result, r) =~= of_rank(ranked, r));
        }
    }
    assert forall|i: int, j: int| 0 <= i <= j < result.len() implies rank(
        (#[trigger] result[i]).score,
    ) >= rank((#[trigger] result[j]).score) by {
        if i < at {
            assert(result[i] == ranked[i]);
        } else if i > at {
            assert(result[i] == ranked[i - 1]);
        }
        if j < at {
            assert(result[j] == ranked[j]);
        } else if j > at {
            assert(result[j] == ranked[j - 1]);
        }
    }
}

/// Where a match goes among ranked ones: behind all that score at least as well.
fn place_for(ranked: &Vec<QueryMatch>, score: u32) -> (r: usize)
    requires
        descending(match_views(ranked@)),
    ensures
        r <= ranked@.len(),
        forall|i: int| 0 <= i < r ==> rank((#[trigger] match_views(ranked@)[i]).score) >= rank(score),
        forall|i: int|
            r <= i < ranked@.len() ==> rank((#[trigger] match_views(ranked@)[i]).score) < rank(
                score,
            ),
{
    let wanted = score_rank(score);
    let mut at: usize = ranked.len();
    while at > 0 && score_rank(ranked[at - 1].score) < wanted
        invariant
            at <= ranked@.len(),
            wanted == rank(score),
            forall|i: int|
                at <= i < ranked@.len() ==> rank((#[trigger] match_views(ranked@)[i]).score) < rank(
                    score,
                ),
        decreases at,
    {
        at -= 1;
    }
    proof {
        if at > 0 {
            assert(rank(match_views(ranked@)[at - 1].score) >= rank(score));
        }
        assert forall|i: int| 0 <= i < at implies rank(
            (#[trigger] match_views(ranked@)[i]).score,
        ) >= rank(score) by {
            assert(rank(match_views(ranked@)[i].score) >= rank(match_views(ranked@)[at - 1].score));
        }
    }
    at
}

/// The matches, best score first.
pub fn rank_matches(matches: &Vec<QueryMatch>) -> (r: Vec<QueryMatch>)
    ensures
        is_ranking(match_views(r@), match_views(matches@)),
{
    let ghost all = match_views(matches@);
    let mut r: Vec<QueryMatch> = Vec::new();
    let mut i: usize = 0;
    assert(match_views(r@) =~= all.take(0));
    while i < matches.len()
        invariant
            i <= matches@.len(),
            all == match_views(matches@),
            is_ranking(match_views(r@), all.take(i as int)),
        decreases matches@.len() - i,
    {
        let item = matches[i].copied();
        let at = place_for(&r, item.score);
        let ghost before = match_views(r@);
        let ghost new = item@;
        proof {
            lemma_insertion(before, all.take(i as int), at as int, new);
            assert(all.take(i as int).push(new) =~= all.take(i + 1));
        }
        r.insert(at, item);
        assert(match_views(r@) =~= before.insert(at as int, new));
        i += 1;
    }
    assert(all.take(i as int) =~= all);
    r
}

/// The best matches, at most `limit`.
pub fn best_matches(matches: &Vec<QueryMatch>, limit: usize) -> (r: Vec<QueryMatch>)
    ensures
        exists|ranked: Seq<MatchView>| #[trigger]
            is_ranking(ranked, match_views(matches@)) && match_views(r@) == (if ranked.len()
                > limit {
                ranked.take(limit as int)
            } else {
                ranked
            }),
{
    let mut r = rank_matches(matches);
    let ghost ranked = match_views(r@);
    if r.len() > limit {
        r.truncate(limit);
        assert(match_views(r@) =~= ranked.take(limit as int));
    }
    assert(is_ranking(ranked, match_views(matches@)));
    r
}

/// There is only one ranking of given matches.
pub proof fn law_ranking_is_unique(
    a: Seq<MatchView>,
    b: Seq<MatchView>,
    matches: Seq<MatchView>,
)
    requires
        is_ranking(a, matches),
        is_ranking(b, matches),
    ensures
        a == b,
{
    assert forall|r: int| #[trigger] of_rank(a, r) == of_rank(b, r) by {
        assert(of_rank(b, r) == of_rank(matches, r));
    }
    lemma_same_classes(a, b);
}

proof fn lemma_same_classes(a: Seq<MatchView>, b: Seq<MatchView>)
    requires
        a.len() == b.len(),
        descending(a),
        descending(b),
        forall|r: int| #[trigger] of_rank(a, r) == of_rank(b, r),
    ensures
        a == b,
    decreases a.len(),
{
    if a.len() > 0 {
        let low = rank(a.last().score);
        let other = rank(b.last().score);
        if low < other {
            assert forall|i: int| 0 <= i < b.len() implies rank((#[trigger] b[i]).score)
                != low by {
                assert(rank(b[i].score) >= rank(b[b.len() - 1].score));
            }
            lemma_none_of_rank(b, low);
            assert(of_rank(a, low).len() > 0);
            assert(false);
        }
        if other < low {
            assert forall|i: int| 0 <= i < a.len() implies rank((#[trigger] a[i]).score)
                != other by {
                assert(rank(a[i].score) >= rank(a[a.len() - 1].score));
            }
            lemma_none_of_rank(a, other);
            assert(of_rank(a, other) == of_rank(b, other));
            assert(of_rank(b, other).len() > 0);
            assert(false);
        }
        assert(of_rank(a, low) == of_rank(b, low));
        assert(of_rank(a, low).last() == a.last());
        assert(of_rank(b, low).last() == b.last());
        assert forall|r: int| #[trigger]
            of_rank(a.drop_last(), r) == of_rank(b.drop_last(), r) by {
            assert(of_rank(a, r) == of_rank(b, r));
            if r == low {
                assert(of_rank(a, r).drop_last() =~= of_rank(a.drop_last(), r));
                assert(of_rank(b, r).drop_last() =~= of_rank(b.drop_last(), r));
            }
        }
        lemma_same_classes(a.drop_last(), b.drop_last());
        assert(a =~= a.drop_last().push(a.last()));
        assert(b =~= b.drop_last().push(b.last()));
    } else {
        assert(a =~= b);
    }
}

/// The matches that score at least `threshold`, in order.
pub open spec fn passing(matches: Seq<MatchView>, threshold: u32) -> Seq<MatchView>
    decreases matches.len(),
{
    if matches.len() == 0 {
        Seq::empty()
    } else if at_least(matches.last().score, threshold) {
        passing(matches.drop_last(), threshold).push(matches.last())
    } else {
        passing(matches.drop_last(), threshold)
    }
}

pub fn matches_above(matches: &Vec<QueryMatch>, threshold: u32) -> (r: Vec<QueryMatch>)
    ensures
        match_views(r@) == passing(match_views(matches@), threshold),
{
    let ghost all = match_views(matches@);
    let mut r: Vec<QueryMatch> = Vec::new();
    let mut i: usize = 0;
    assert(match_views(r@) =~= passing(all.take(0), threshold));
    while i < matches.len()
        invariant
            i <= matches@.len(),
            all == match_views(matches@),
            match_views(r@) == passing(all.take(i as int), threshold),
        decreases matches@.len() - i,
    {
        assert(all.take(i + 1).drop_last() == all.take(i as int));
        assert(all.take(i + 1).last() == all[i as int]);
        if score_at_least(matches[i].score, threshold) {
            let item = matches[i].copied();
            let ghost before = match_views(r@);
            let ghost new = item@;
            r.push(item);
            assert(match_views(r@) =~= before.push(new));
        }
        i += 1;
    }
    assert(all.take(i as int) == all);
    r
}

/// Every match above the threshold scores at least that much.
pub proof fn law_passing_matches_score_enough(matches: Seq<MatchView>, threshold: u32)
    ensures
        forall|i: int|
            0 <= i < passing(matches, threshold).len() ==> at_least(
                (#[trigger] passing(matches, threshold)[i]).score,
                threshold,
            ),
    decreases matches.len(),
{
    if matches.len() > 0 {
        law_passing_matches_score_enough(matches.drop_last(), threshold);
        let before = passing(matches.drop_last(), threshold);
        let all = passing(matches, threshold);
        assert forall|i: int| 0 <= i < all.len() implies at_least(
            (#[trigger] all[i]).score,
            threshold,
        ) by {
            if i < before.len() {
                assert(all[i] == before[i]);
            }
        }
    }
}

// ---------------------------------------------------------------------------------------------
// Pages

pub const SEARCH_RESULTS_PAGE_SIZE: usize = 5;

pub const SEARCH_RESULTS_MAX_MATCHES: usize = 50;

/// The matches of one search.
#[derive(Debug)]
pub struct SearchSession {
    pub matches: Vec<QueryMatch>,
}

/// The number of pages for so many matches: as many as it takes, and one at least.
pub open spec fn page_count(matches: nat) -> nat {
    if matches == 0 {
        1
    } else {
        (matches + 4) / 5
    }
}

pub fn search_results_page_count(session: &SearchSession) -> (r: usize)
    ensures
        r == page_count(session.matches@.len()),
{
    let count = session.matches.len();
    if count == 0 {
        1
    } else {
        (count - 1) / 5 + 1
    }
}

/// Every match stands on one of the pages, and the last page of several is not empty.
pub proof fn law_pages_cover_the_matches(matches: nat, index: nat)
    requires
        index < matches,
    ensures
        index / 5 < page_count(matches),
        (page_count(matches) - 1) * 5 < matches,
{
}

/// The matches on a page.
pub open spec fn on_page(matches: Seq<MatchView>, page: nat) -> Seq<MatchView> {
    if matches.len() < page * 5 + 5 {
        matches.skip((page * 5) as int)
    } else {
        matches.subrange((page * 5) as int, (page * 5 + 5) as int)
    }
}

/// The buttons to the neighbouring pages.
pub open spec fn navigation(session: nat, page: nat, pages: nat) -> Seq<ButtonView> {
    (if pages > 1 && page > 0 {
        seq![
            ButtonView {
                text: "◀ Left"@,
                callback_data: page_data(session, (page - 1) as nat),
            },
        ]
    } else {
        Seq::empty()
    }) + (if page + 1 < pages {
        seq![ButtonView { text: "Right ▶"@, callback_data: page_data(session, page + 1) }]
    } else {
        Seq::empty()
    })
}

/// The keyboard of a page: one button for each match, and below them the buttons to the
/// neighbouring pages where there are some.
pub open spec fn results_rows(
    session: nat,
    matches: Seq<MatchView>,
    page: nat,
) -> Seq<Seq<ButtonView>> {
    let shown = on_page(matches, page);
    let turning = navigation(session, page, page_count(matches.len()));
    let rows = Seq::new(
        shown.len(),
        |i: int| seq![document_button_view(shown[i].header, shown[i].id)],
    );
    if turning.len() > 0 {
        rows.push(turning)
    } else {
        rows
    }
}

pub fn build_search_results_keyboard(
    session_id: u64,
    session: &SearchSession,
    page: usize,
) -> (r: Vec<Vec<InlineButton>>)
    requires
        page * SEARCH_RESULTS_PAGE_SIZE <= session.matches@.len(),
    ensures
        button_rows(r@) == results_rows(
            session_id as nat,
            match_views(session.matches@),
            page as nat,
        ),
{
    let count = session.matches.len();
    let total_pages = search_results_page_count(session);
    let ghost matches = match_views(session.matches@);
    let ghost shown = on_page(matches, page as nat);
    let start: usize = page * SEARCH_RESULTS_PAGE_SIZE;
    let end: usize = if count - start < SEARCH_RESULTS_PAGE_SIZE {
        count
    } else {
        start + SEARCH_RESULTS_PAGE_SIZE
    };
    assert(shown.len() == end - start);
    let mut rows: Vec<Vec<InlineButton>> = Vec::new();
    let mut i: usize = start;
    while i < end
        invariant
            start <= i <= end <= session.matches@.len(),
            matches == match_views(session.matches@),
            start == page * 5,
            shown == on_page(matches, page as nat),
            shown.len() == end - start,
            rows@.len() == i - start,
            forall|j: int|
                0 <= j < i - start ==> button_views((#[trigger] rows@[j])@) == seq![
                    document_button_view(shown[j].header, shown[j].id),
                ],
        decreases end - i,
    {
        let found = &session.matches[i];
        let button = document_button(found.header.as_str(), found.id);
        let ghost label = button@;
        assert(shown[i - start] == matches[i as int]);
        let mut row: Vec<InlineButton> = Vec::new();
        row.push(button);
        assert(button_views(row@) =~= seq![label]);
        rows.push(row);
        i += 1;
    }
    let ghost plain = Seq::new(
        shown.len(),
        |i: int| seq![document_button_view(shown[i].header, shown[i].id)],
    );
    assert(button_rows(rows@) =~= plain);
    let mut turning: Vec<InlineButton> = Vec::new();
    if total_pages > 1 && page > 0 {
        turning.push(
            InlineButton {
                text: "◀ Left".to_owned(),
                callback_data: page_callback_data(session_id, page - 1),
            },
        );
    }
    if page + 1 < total_pages {
        turning.push(
            InlineButton {
                text: "Right ▶".to_owned(),
                callback_data: page_callback_data(session_id, page + 1),
            },
        );
    }
    assert(button_views(turning@) =~= navigation(
        session_id as nat,
        page as nat,
        total_pages as nat,
    ));
    if turning.len() > 0 {
        let ghost below = button_views(turning@);
        rows.push(turning);
        assert(button_rows(rows@) =~= plain.push(below));
    }
    rows
}

/// The text over a page of matches.
pub open spec fn results_text(matches: nat, page: nat) -> Seq<char> {
    "Pagination\nTotal: "@ + decimal(matches) + "\nCurrent page: "@ + decimal(page + 1) + "/"@
        + decimal(page_count(matches))
}

pub fn render_search_results_message(session: &SearchSession, page: usize) -> (r: String)
    requires
        page < usize::MAX,
    ensures
        r@ == results_text(session.matches@.len(), page as nat),
{
    let total_pages = search_results_page_count(session);
    let mut r = "Pagination\nTotal: ".to_owned();
    r.append(render_usize(session.matches.len()).as_str());
    r.append("\nCurrent page: ");
    r.append(render_usize(page + 1).as_str());
    r.append("/");
    r.append(render_usize(total_pages).as_str());
    r
}

/// The message that shows a page of a search.
pub open spec fn results_message(
    chat_id: int,
    session: nat,
    matches: Seq<MatchView>,
    page: nat,
    reply_to: Option<i32>,
) -> MessageView {
    MessageView {
        chat_id,
        text: results_text(matches.len(), page),
        reply_to,
        html: false,
        markup: Some(MarkupView::Buttons(results_rows(session, matches, page))),
    }
}

pub fn search_results_message(
    chat_id: i64,
    session_id: u64,
    session: &SearchSession,
    page: usize,
    reply_to_message_id: Option<i32>,
) -> (r: OutgoingMessage)
    requires
        page * SEARCH_RESULTS_PAGE_SIZE <= session.matches@.len(),
    ensures
        r@ == results_message(
            chat_id as int,
            session_id as nat,
            match_views(session.matches@),
            page as nat,
            reply_to_message_id,
        ),
{
    let count = session.matches.len();
    assert(page * 5 <= count);
    OutgoingMessage {
        chat_id,
        text: render_search_results_message(session, page),
        reply_to_message_id,
        html: false,
        markup: Some(ReplyMarkup::Buttons(build_search_results_keyboard(session_id, session, page))),
    }
}

/// Another page of a search in place of the one that a message shows.
#[derive(Debug)]
pub struct PageEdit {
    pub chat_id: i64,
    pub message_id: i32,
    pub text: String,
    pub keyboard: Vec<Vec<InlineButton>>,
    /// What is logged of the change.
    pub detail: String,
}

pub struct PageEditView {
    pub chat_id: int,
    pub message_id: int,
    pub text: Seq<char>,
    pub keyboard: Seq<Seq<ButtonView>>,
    pub detail: Seq<char>,
}

impl View for PageEdit {
    type V = PageEditView;

    open spec fn view(&self) -> PageEditView {
        PageEditView {
            chat_id: self.chat_id as int,
            message_id: self.message_id as int,
            text: self.text@,
            keyboard: button_rows(self.keyboard@),
            detail: self.detail@,
        }
    }
}

pub open spec fn page_edit_view(
    chat_id: int,
    message_id: int,
    session: nat,
    matches: Seq<MatchView>,
    page: nat,
) -> PageEditView {
    PageEditView {
        chat_id,
        message_id,
        text: results_text(matches.len(), page),
        keyboard: results_rows(session, matches, page),
        detail: "message_id="@ + decimal_int(message_id) + " session_id="@
            + decimal(session) + " page="@ + decimal(page),
    }
}

pub fn edit_search_results_message(
    chat_id: i64,
    message_id: i32,
    session_id: u64,
    session: &SearchSession,
    page: usize,
) -> (r: PageEdit)
    requires
        page * SEARCH_RESULTS_PAGE_SIZE <= session.matches@.len(),
    ensures
        r@ == page_edit_view(
            chat_id as int,
            message_id as int,
            session_id as nat,
            match_views(session.matches@),
            page as nat,
        ),
{
    let count = session.matches.len();
    assert(page * 5 <= count);
    let mut detail = "message_id=".to_owned();
    detail.append(render_i64(message_id as i64).as_str());
    detail.append(" session_id=");
    detail.append(render_u64(session_id).as_str());
    detail.append(" page=");
    detail.append(render_usize(page).as_str());
    PageEdit {
        chat_id,
        message_id,
        text: render_search_results_message(session, page),
        keyboard: build_search_results_keyboard(session_id, session, page),
        detail,
    }
}

/// The page that is shown when a page is asked for: the last one where there are not so many.
pub open spec fn nearest_page(page: nat, matches: nat) -> nat {
    if page < page_count(matches) {
        page
    } else {
        (page_count(matches) - 1) as nat
    }
}

/// Pressing a button to a neighbouring page asks for a page that there is, of the same search.
pub proof fn law_navigation_stays_within(session: u64, page: usize, matches: nat, i: int)
    requires
        page < page_count(matches),
        matches <= usize::MAX,
        0 <= i < navigation(session as nat, page as nat, page_count(matches)).len(),
    ensures
        ({
            let pressed = navigation(
                session as nat,
                page as nat,
                page_count(matches),
            )[i].callback_data;
            &&& requested_page(pressed) matches Some(asked)
            &&& asked.0 == session
            &&& asked.1 < page_count(matches)
            &&& asked.1 == page + 1 || asked.1 + 1 == page
        }),
{
    if page > 0 {
        law_page_button_reads_back(session, (page - 1) as usize);
    }
    if page + 1 < page_count(matches) {
        law_page_button_reads_back(session, (page + 1) as usize);
    }
}

// ---------------------------------------------------------------------------------------------
// Laws of documents, rankings and pages

proof fn lemma_hashes_go(hashes: Seq<char>, rest: Seq<char>)
    requires
        forall|i: int| 0 <= i < hashes.len() ==> #[trigger] hashes[i] == '#',
        rest.len() == 0 || rest[0] != '#',
    ensures
        without_leading(hashes + rest, '#') == rest,
    decreases hashes.len(),
{
    if hashes.len() == 0 {
        assert(hashes + rest =~= rest);
    } else {
        assert(hashes[0] == '#');
        let fewer = hashes.drop_first();
        assert forall|i: int| 0 <= i < fewer.len() implies #[trigger] fewer[i] == '#' by {
            assert(fewer[i] == hashes[i + 1]);
        }
        lemma_hashes_go(fewer, rest);
        assert((hashes + rest).drop_first() =~= fewer + rest);
    }
}

/// What stands on a line besides the marks of a heading and space.
spec fn line_title(line: Seq<char>) -> Seq<char> {
    trimmed(without_leading(trimmed(line), '#'))
}

proof fn lemma_line_title(
    lead: Seq<char>,
    hashes: Seq<char>,
    gap: Seq<char>,
    title: Seq<char>,
    trail: Seq<char>,
)
    requires
        all_white(lead),
        forall|i: int| 0 <= i < hashes.len() ==> #[trigger] hashes[i] == '#',
        all_white(gap),
        bare(title),
        title.len() > 0,
        title[0] != '#',
        hashes.len() == 0 ==> gap.len() == 0,
        all_white(trail),
    ensures
        line_title(lead + (hashes + gap + title) + trail) == title,
{
    let whole = hashes + gap + title;
    assert(bare(whole)) by {
        if hashes.len() > 0 {
            assert(hashes[0] == '#');
            assert(whole.first() == '#');
        } else {
            assert(whole =~= title);
        }
        assert(whole.last() == title.last());
    }
    law_trimming_takes_the_space_off_the_ends(lead, whole, trail);
    let rest = gap + title;
    assert(rest[0] != '#') by {
        if gap.len() > 0 {
            assert(is_white(gap[0]));
        }
    }
    lemma_hashes_go(hashes, rest);
    assert(hashes + rest =~= whole);
    law_trimming_takes_the_space_off_the_ends(gap, title, Seq::empty());
    assert(gap + title + Seq::<char>::empty() =~= rest);
}

/// A document is called after its first line that says something: the marks of a heading and the
/// space around the title are left out, and no more than eighty characters are shown.
pub proof fn law_document_is_called_after_its_first_line(
    lead: Seq<char>,
    hashes: Seq<char>,
    gap: Seq<char>,
    title: Seq<char>,
    trail: Seq<char>,
    rest: Seq<char>,
    path: Seq<char>,
)
    requires
        all_white(lead),
        forall|i: int| 0 <= i < hashes.len() ==> #[trigger] hashes[i] == '#',
        all_white(gap),
        bare(title),
        title.len() > 0,
        title[0] != '#',
        hashes.len() == 0 ==> gap.len() == 0,
        all_white(trail),
        !(lead + (hashes + gap + title) + trail).contains('\n'),
        trail.len() > 0 ==> trail.last() != '\r',
    ensures
        ({
            let line = lead + (hashes + gap + title) + trail;
            let shown = if title.len() <= 80 {
                title
            } else {
                title.take(80)
            };
            document_header(line.push('\n') + rest, path) == shown && document_header(line, path)
                == shown
        }),
{
    let line = lead + (hashes + gap + title) + trail;
    law_lines_end_at_line_feeds(line, rest);
    lemma_line_title(lead, hashes, gap, title, trail);
    assert(line.last() != '\r') by {
        if trail.len() == 0 {
            assert(line.last() == title.last());
        }
    }
    let one = lines(line.push('\n') + rest);
    assert(one.first() == line);
    assert(line_title(one.first()) == title);
    assert(line.len() > 0);
    let two = lines(line);
    assert(two.first() == line);
}

/// A blank line, or one of nothing but marks, is passed over; where no line says anything, the
/// document is called after its file.
pub proof fn law_empty_lines_name_nothing(
    lead: Seq<char>,
    hashes: Seq<char>,
    trail: Seq<char>,
    rest: Seq<char>,
    path: Seq<char>,
)
    requires
        all_white(lead),
        forall|i: int| 0 <= i < hashes.len() ==> #[trigger] hashes[i] == '#',
        all_white(trail),
        !(lead + hashes + trail).contains('\n'),
        (lead + hashes + trail).len() > 0 ==> (lead + hashes + trail).last() != '\r',
    ensures
        document_header((lead + hashes + trail).push('\n') + rest, path) == document_header(
            rest,
            path,
        ),
        document_header(Seq::empty(), path) == (match path_file_stem(path) {
            Some(stem) => if stem.len() > 0 {
                stem
            } else {
                "Untitled document"@
            },
            None => "Untitled document"@,
        }),
{
    let line = lead + hashes + trail;
    law_lines_end_at_line_feeds(line, rest);
    assert(bare(hashes)) by {
        if hashes.len() > 0 {
            assert(hashes[0] == '#');
            assert(hashes[hashes.len() - 1] == '#');
        }
    }
    law_trimming_takes_the_space_off_the_ends(lead, hashes, trail);
    lemma_hashes_go(hashes, Seq::empty());
    assert(hashes + Seq::<char>::empty() =~= hashes);
    law_trimming_takes_the_space_off_the_ends(Seq::empty(), Seq::empty(), Seq::empty());
    assert(Seq::<char>::empty() + Seq::<char>::empty() + Seq::<char>::empty()
        =~= Seq::<char>::empty());
    let all = lines(line.push('\n') + rest);
    assert(all.first() == line);
    assert(line_title(all.first()).len() == 0);
    assert(all.drop_first() =~= lines(rest));
}

/// The score of a document is one of its two scores, and neither is greater; where there is only
/// the score of the words, or the other is no number, it is that.
pub proof fn law_better_score_counts(lexical: u32, embedding: u32)
    ensures
        better_score(lexical, None) == lexical,
        better_score(lexical, Some(embedding)) == lexical || better_score(lexical, Some(embedding))
            == embedding,
        !exceeds(lexical, better_score(lexical, Some(embedding))),
        !exceeds(embedding, better_score(lexical, Some(embedding))),
        crate::score::is_nan(embedding) ==> better_score(lexical, Some(embedding)) == lexical,
{
}

/// Matches of the same rank, and matches that score enough, are those among all matches, in the
/// order that they had.
pub proof fn law_picked_matches_keep_their_order(matches: Seq<MatchView>, r: int, threshold: u32)
    ensures
        of_rank(matches, r) == matches.filter(|found: MatchView| rank(found.score) == r),
        passing(matches, threshold) == matches.filter(
            |found: MatchView| at_least(found.score, threshold),
        ),
    decreases matches.len(),
{
    reveal(Seq::filter);
    if matches.len() > 0 {
        law_picked_matches_keep_their_order(matches.drop_last(), r, threshold);
    }
}

proof fn lemma_of_rank_holds(matches: Seq<MatchView>, found: MatchView)
    ensures
        matches.contains(found) <==> of_rank(matches, rank(found.score)).contains(found),
    decreases matches.len(),
{
    let r = rank(found.score);
    if matches.len() > 0 {
        let before = matches.drop_last();
        lemma_of_rank_holds(before, found);
        if matches.contains(found) {
            let i = choose|i: int| 0 <= i < matches.len() && matches[i] == found;
            if i < before.len() {
                assert(before[i] == found);
                let k = choose|k: int|
                    0 <= k < of_rank(before, r).len() && of_rank(before, r)[k] == found;
                assert(of_rank(matches, r)[k] == found);
            } else {
                assert(of_rank(matches, r).last() == found);
            }
        }
        if of_rank(matches, r).contains(found) {
            let k = choose|k: int|
                0 <= k < of_rank(matches, r).len() && of_rank(matches, r)[k] == found;
            if k < of_rank(before, r).len() {
                assert(of_rank(before, r)[k] == found);
                let i = choose|i: int| 0 <= i < before.len() && before[i] == found;
                assert(matches[i] == found);
            } else {
                assert(matches[matches.len() - 1] == found);
            }
        }
    }
}

/// A ranking holds every match, as many as there are and no other, and none scores more than one
/// before it.
pub proof fn law_better_matches_come_first(
    ranked: Seq<MatchView>,
    matches: Seq<MatchView>,
    found: MatchView,
    i: int,
    j: int,
)
    requires
        is_ranking(ranked, matches),
        0 <= i < j < ranked.len(),
    ensures
        ranked.len() == matches.len(),
        ranked.contains(found) <==> matches.contains(found),
        !exceeds(ranked[j].score, ranked[i].score),
{
    lemma_of_rank_holds(ranked, found);
    lemma_of_rank_holds(matches, found);
    assert(of_rank(ranked, rank(found.score)) == of_rank(matches, rank(found.score)));
    assert(rank(ranked[i].score) >= rank(ranked[j].score));
}

/// Five matches stand on a page, on the last one those that are left: every match has one place.
pub proof fn law_every_match_has_its_place(matches: Seq<MatchView>, index: nat, page: nat)
    requires
        index < matches.len(),
        page * 5 <= matches.len(),
    ensures
        on_page(matches, page).len() <= 5,
        index % 5 < on_page(matches, index / 5).len(),
        on_page(matches, index / 5)[(index % 5) as int] == matches[index as int],
        (page + 1) * 5 <= matches.len() ==> on_page(matches, page).len() == 5,
{
    let first = index / 5;
    let at = index % 5;
    assert(index == first * 5 + at);
}

/// The button in each row of a page asks for the document of that place.
pub proof fn law_rows_ask_for_their_documents(
    session: nat,
    matches: Seq<MatchView>,
    page: nat,
    i: int,
)
    requires
        page * 5 <= matches.len(),
        0 <= i < 5,
        page * 5 + i < matches.len(),
        i64::MIN <= matches[page * 5 + i].id <= i64::MAX,
    ensures
        i < results_rows(session, matches, page).len(),
        results_rows(session, matches, page)[i].len() == 1,
        results_rows(session, matches, page)[i][0].text == crate::messages::button_label(
            matches[page * 5 + i].header,
        ),
        requested_document(results_rows(session, matches, page)[i][0].callback_data) == Some(
            matches[page * 5 + i].id,
        ),
{
    let found = matches[page * 5 + i];
    assert(on_page(matches, page)[i] == found);
    law_document_button_reads_back(found.header, found.id as i64);
}

/// From every page the page before and the page behind can be turned to, where there are such, and
/// no others; the page that is shown is one that there is.
pub proof fn law_neighbouring_pages_can_be_turned_to(session: u64, page: usize, matches: nat)
    requires
        page < page_count(matches),
        matches <= usize::MAX,
    ensures
        ({
            let pages = page_count(matches);
            let buttons = navigation(session as nat, page as nat, pages);
            let back: int = if page > 0 {
                1
            } else {
                0
            };
            let on: int = if page + 1 < pages {
                1
            } else {
                0
            };
            &&& buttons.len() == back + on
            &&& page > 0 ==> requested_page(buttons[0].callback_data) == Some(
                (session as nat, (page - 1) as nat),
            )
            &&& page + 1 < pages ==> requested_page(buttons[back].callback_data) == Some(
                (session as nat, (page + 1) as nat),
            )
        }),
        nearest_page(page as nat, matches) == page,
{
    if page > 0 {
        law_page_button_reads_back(session, (page - 1) as usize);
    }
    if page + 1 < page_count(matches) {
        law_page_button_reads_back(session, (page + 1) as usize);
    }
}

/// A page beyond the last stands for the last one.
pub proof fn law_page_beyond_the_last_is_the_last(page: nat, matches: nat)
    ensures
        nearest_page(page, matches) < page_count(matches),
        page >= page_count(matches) ==> nearest_page(page, matches) + 1 == page_count(matches),
        nearest_page(page, matches) * 5 <= matches,
        page_count(0) == 1,
        page_count(matches + 5) == page_count(matches) + (if matches == 0 {
            0int
        } else {
            1int
        }),
{
}

proof fn lemma_no_runs(s: Seq<char>)
    requires
        forall|i: int| 0 <= i < s.len() ==> !alphanumeric(#[trigger] s[i]),
    ensures
        forall|k: int| 0 <= k < runs(s).len() ==> (#[trigger] runs(s)[k]).len() == 0,
    decreases s.len(),
{
    if s.len() > 0 {
        let before = s.drop_last();
        assert forall|i: int| 0 <= i < before.len() implies !alphanumeric(#[trigger] before[i]) by {
            assert(before[i] == s[i]);
        }
        lemma_no_runs(before);
        assert(!alphanumeric(s[s.len() - 1]));
        assert(runs(s) =~= runs(before).push(Seq::empty()));
        assert forall|k: int| 0 <= k < runs(s).len() implies (#[trigger] runs(s)[k]).len() == 0 by {
            if k < runs(before).len() {
                assert(runs(s)[k] == runs(before)[k]);
            }
        }
    }
}

/// A query without a letter or a number matches nothing, however it is spelled; any other query
/// with words matches either as a whole or by its words, of which there is one at least.
pub proof fn law_query_without_words_matches_nothing(query: Seq<char>, candidate: Seq<char>)
    ensures
        (forall|i: int| 0 <= i < query.len() ==> !alphanumeric(#[trigger] query[i]))
            ==> lexical_match(query, candidate) is Nothing,
        lexical_match(query, candidate) matches LexicalView::Words { found, total } ==> 0 < total
            && found <= total && total == tokens(query).len() && found == tokens(query).filter(
            |word: Seq<char>| tokens(candidate).contains(word),
        ).len(),
        lexical_match(query, candidate) is Nothing ==> tokens(query).len() == 0,
        tokens(query).len() > 0 && holds_whole(query, candidate) ==> lexical_match(query, candidate)
            is Whole,
{
    law_found_words_are_those_in_the_text(tokens(query), tokens(candidate));
    law_found_at_most_all(tokens(query), tokens(candidate));
    if forall|i: int| 0 <= i < query.len() ==> !alphanumeric(#[trigger] query[i]) {
        lemma_no_runs(query);
        if tokens(query).len() > 0 {
            lemma_token_origin(runs(query), 0);
            let k = choose|k: int|
                0 <= k < runs(query).len() && token(#[trigger] runs(query)[k]) == tokens(query)[0];
            assert(runs(query)[k].len() == 0);
            lemma_trimmed_start(runs(query)[k]);
            lemma_trimmed_end(trimmed_start(runs(query)[k]));
            assert(token(runs(query)[k]).len() == 0);
        }
    }
}

/// The text over a page counts all matches and names the page as people count, from one, and the
/// number of pages.
pub proof fn law_page_is_named_as_people_count(matches: nat, page: nat)
    ensures
        has_prefix(results_text(matches, page), "Pagination\nTotal: "@ + decimal(matches)),
        occurs_in(results_text(matches, page), "\nCurrent page: "@ + decimal(page + 1)),
        ("/"@ + decimal(page_count(matches))).is_suffix_of(results_text(matches, page)),
{
    broadcast use lemma_still_occurs;
    broadcast use lemma_occurs_behind;

    let text = results_text(matches, page);
    let start = "Pagination\nTotal: "@ + decimal(matches);
    assert(text.take(start.len() as int) =~= start);
    let end = "/"@ + decimal(page_count(matches));
    assert(text.skip(text.len() - end.len()) =~= end);
}

/// A turned page replaces the message it was asked from, and shows the same as a new message would.
pub proof fn law_turned_page_shows_the_same(
    chat_id: int,
    message_id: int,
    session: nat,
    matches: Seq<MatchView>,
    page: nat,
    reply_to: Option<i32>,
)
    ensures
        ({
            let edit = page_edit_view(chat_id, message_id, session, matches, page);
            let message = results_message(chat_id, session, matches, page, reply_to);
            &&& edit.chat_id == chat_id && edit.message_id == message_id
            &&& edit.text == message.text
            &&& message.markup == Some(MarkupView::Buttons(edit.keyboard))
            &&& message.chat_id == chat_id
            &&& message.reply_to == reply_to
            &&& !message.html
        }),
{
}

/// A document is found by any part of its summary and by any part of its content, in whatever case
/// that part is spelled.
pub proof fn law_document_is_found_by_its_parts(
    summary: Seq<char>,
    content: Seq<char>,
    part: Seq<char>,
    query: Seq<char>,
)
    requires
        occurs_in(summary, part) || occurs_in(content, part),
        trimmed(part).len() > 0,
        lowered(query) == lowered(part),
        tokens(query).len() > 0,
    ensures
        lexical_match(query, compared_text(summary, content)) is Whole,
{
    broadcast use lemma_still_occurs;
    broadcast use lemma_occurs_inside;

    assert(occurs_in(summary + "\n"@ + content, part));
    law_part_of_a_text_is_found(compared_text(summary, content), part, query);
}

} // verus!
