//! The content of a document as a series of messages.

use vstd::prelude::*;

verus! {

use crate::listing::concat;
use crate::markdown::{markdown_steps, render_markdown_to_telegram_html, telegram_html};
use crate::paths::{
    extension, is_file_name, law_extension_follows_the_last_dot, path_extension, path_join,
};
use crate::splitting::{
    flat, law_pieces_fit, law_pieces_keep_the_lines, law_slices_make_up_the_text,
    lemma_flat_distributes, lemma_flat_push, lemma_nothing_to_remove,
    lemma_without_breaks_distributes, slice_text, slices, split_text, split_text_for_telegram,
    without_breaks,
};
use crate::text::{
    all_white, chars_of, contains, contains_char, has_prefix, is_decimal_digit, is_digit, is_white,
    law_trimming_takes_the_space_off_the_ends, lemma_trimmed_start, lines, lowered, occurs_in,
    replaced, same, split_lines, starts_with, starts_with_char, text_of, to_ascii_lowercase, trim,
    trim_start, trimmed, trimmed_start, views,
};

/// The most characters in one message.
pub const TELEGRAM_TEXT_MESSAGE_MAX_CHARS: usize = 3800;

/// The most characters of Markdown in one message, which grow when they are rendered.
pub const MARKDOWN_CHUNK_MAX_CHARS: usize = 3736;

/// How many lines are looked at to recognise Markdown.
pub const MARKDOWN_SAMPLE_LINES: usize = 20;

/// Whether the path has the extension, in upper or lower case.
pub open spec fn has_extension(path: Seq<char>, wanted: Seq<char>) -> bool {
    path_extension(path) matches Some(found) && lowered(found) == wanted
}

pub fn path_has_extension(path: &str, wanted: &str) -> (r: bool)
    ensures
        r == has_extension(path@, wanted@),
{
    match extension(path) {
        Some(found) => same(to_ascii_lowercase(found.as_str()).as_str(), wanted),
        None => false,
    }
}

pub fn is_pdf_path(path: &str) -> (r: bool)
    ensures
        r == has_extension(path@, "pdf"@),
{
    path_has_extension(path, "pdf")
}

/// The number of leading digits.
pub open spec fn leading_digits(s: Seq<char>) -> nat
    decreases s.len(),
{
    if s.len() == 0 || !is_digit(s.first()) {
        0
    } else {
        1 + leading_digits(s.drop_first())
    }
}

/// Whether the line begins with a number, a full stop and a space.
pub open spec fn is_numbered(line: Seq<char>) -> bool {
    let n = leading_digits(line) as int;
    n > 0 && has_prefix(line.skip(n), ". "@)
}

pub fn looks_like_ordered_list(line: &str) -> (r: bool)
    ensures
        r == is_numbered(line@),
{
    let chars = chars_of(line);
    let mut n: usize = 0;
    assert(line@.skip(0) == line@);
    while n < chars.len() && is_decimal_digit(chars[n])
        invariant
            n <= chars@.len(),
            chars@ == line@,
            leading_digits(line@) == n + leading_digits(line@.skip(n as int)),
        decreases chars@.len() - n,
    {
        assert(line@.skip(n as int).drop_first() == line@.skip(n + 1));
        n += 1;
    }
    assert(n < line@.len() ==> line@.skip(n as int).first() == line@[n as int]);
    assert(leading_digits(line@.skip(n as int)) == 0);
    let rest = text_of(&chars, n, chars.len());
    assert(rest@ == line@.skip(n as int));
    n > 0 && starts_with(rest.as_str(), ". ")
}

/// Whether a line looks like Markdown.
pub open spec fn is_markdown_line(line: Seq<char>) -> bool {
    let start = trimmed_start(line);
    ||| start.len() > 0 && start.first() == '#'
    ||| has_prefix(start, "- "@)
    ||| has_prefix(start, "* "@)
    ||| has_prefix(start, "> "@)
    ||| has_prefix(start, "```"@)
    ||| is_numbered(start)
    ||| start.contains('[') && occurs_in(start, "]("@)
}

fn looks_like_markdown_line(line: &str) -> (r: bool)
    ensures
        r == is_markdown_line(line@),
{
    let start = trim_start(line);
    starts_with_char(start, '#') || starts_with(start, "- ") || starts_with(start, "* ")
        || starts_with(start, "> ") || starts_with(start, "```") || looks_like_ordered_list(start)
        || (contains_char(start, '[') && contains(start, "]("))
}

/// Whether a document is Markdown, by its name or by one of its first lines.
pub open spec fn is_markdown(path: Seq<char>, content: Seq<char>) -> bool {
    ||| has_extension(path, "md"@)
    ||| exists|i: int|
        0 <= i < lines(content).len() && i < MARKDOWN_SAMPLE_LINES && is_markdown_line(
            #[trigger] lines(content)[i],
        )
}

pub fn looks_like_markdown(path: &str, content: &str) -> (r: bool)
    ensures
        r == is_markdown(path@, content@),
{
    if path_has_extension(path, "md") {
        return true;
    }
    let all = split_lines(content);
    let mut i: usize = 0;
    while i < all.len() && i < MARKDOWN_SAMPLE_LINES
        invariant
            i <= all@.len(),
            views(all@) == lines(content@),
            forall|j: int| 0 <= j < i ==> !is_markdown_line(#[trigger] lines(content@)[j]),
            !has_extension(path@, "md"@),
        decreases all@.len() - i,
    {
        assert(lines(content@)[i as int] == all@[i as int]@);
        if looks_like_markdown_line(all[i].as_str()) {
            return true;
        }
        i += 1;
    }
    false
}

/// One message of a document: Telegram HTML where there is some, and plain text that takes its
/// place if the HTML is refused.
#[derive(Debug)]
pub struct ContentPart {
    pub html: Option<String>,
    pub plain: String,
}

pub struct PartView {
    pub html: Option<Seq<char>>,
    pub plain: Seq<char>,
}

impl View for ContentPart {
    type V = PartView;

    open spec fn view(&self) -> PartView {
        PartView {
            html: match self.html {
                Some(html) => Some(html@),
                None => None,
            },
            plain: self.plain@,
        }
    }
}

pub open spec fn part_views(parts: Seq<ContentPart>) -> Seq<PartView> {
    Seq::new(parts.len(), |i: int| parts[i]@)
}

/// A piece of a Markdown document; the first piece has a title.
pub open spec fn markdown_part(chunk: Seq<char>, is_first: bool) -> PartView {
    let rendered = telegram_html(markdown_steps(chunk));
    if is_first {
        PartView {
            html: Some("<b>Content</b>\n\n"@ + rendered),
            plain: "Content:\n\n"@ + chunk,
        }
    } else {
        PartView { html: Some(rendered), plain: chunk }
    }
}

pub open spec fn plain_part(text: Seq<char>) -> PartView {
    PartView { html: None, plain: text }
}

/// The messages that show a document.
pub open spec fn content_parts(path: Seq<char>, content: Seq<char>) -> Seq<PartView> {
    if trimmed(content).len() == 0 {
        seq![plain_part("Document content is empty."@)]
    } else if is_markdown(path, content) {
        let chunks = split_text(content, MARKDOWN_CHUNK_MAX_CHARS as int);
        Seq::new(chunks.len(), |i: int| markdown_part(chunks[i], i == 0))
    } else {
        let pieces = slices("Content:\n\n"@ + content, TELEGRAM_TEXT_MESSAGE_MAX_CHARS as int);
        Seq::new(pieces.len(), |i: int| plain_part(pieces[i]))
    }
}

fn markdown_content_part(chunk: &str, is_first: bool) -> (r: ContentPart)
    ensures
        r@ == markdown_part(chunk@, is_first),
{
    let rendered = render_markdown_to_telegram_html(chunk);
    if is_first {
        ContentPart {
            html: Some(concat("<b>Content</b>\n\n", rendered.as_str())),
            plain: concat("Content:\n\n", chunk),
        }
    } else {
        ContentPart { html: Some(rendered), plain: chunk.to_owned() }
    }
}

/// The messages for a Markdown document.
fn markdown_content(content: &str) -> (r: Vec<ContentPart>)
    ensures
        part_views(r@) == ({
            let chunks = split_text(content@, MARKDOWN_CHUNK_MAX_CHARS as int);
            Seq::new(chunks.len(), |i: int| markdown_part(chunks[i], i == 0))
        }),
{
    let chunks = split_text_for_telegram(content, MARKDOWN_CHUNK_MAX_CHARS);
    let mut r: Vec<ContentPart> = Vec::new();
    let mut i: usize = 0;
    while i < chunks.len()
        invariant
            i <= chunks@.len(),
            r@.len() == i,
            forall|j: int|
                0 <= j < i ==> (#[trigger] r@[j])@ == markdown_part(views(chunks@)[j], j == 0),
        decreases chunks@.len() - i,
    {
        r.push(markdown_content_part(chunks[i].as_str(), i == 0));
        i += 1;
    }
    assert(part_views(r@) =~= Seq::new(
        views(chunks@).len(),
        |i: int| markdown_part(views(chunks@)[i], i == 0),
    ));
    r
}

/// The messages for a document of plain text.
fn plain_content(content: &str) -> (r: Vec<ContentPart>)
    ensures
        part_views(r@) == ({
            let pieces = slices("Content:\n\n"@ + content@, TELEGRAM_TEXT_MESSAGE_MAX_CHARS as int);
            Seq::new(pieces.len(), |i: int| plain_part(pieces[i]))
        }),
{
    let message = concat("Content:\n\n", content);
    let pieces = slice_text(message.as_str(), TELEGRAM_TEXT_MESSAGE_MAX_CHARS);
    let mut r: Vec<ContentPart> = Vec::new();
    let mut i: usize = 0;
    while i < pieces.len()
        invariant
            i <= pieces@.len(),
            r@.len() == i,
            forall|j: int| 0 <= j < i ==> (#[trigger] r@[j])@ == plain_part(views(pieces@)[j]),
        decreases pieces@.len() - i,
    {
        r.push(ContentPart { html: None, plain: pieces[i].as_str().to_owned() });
        i += 1;
    }
    assert(part_views(r@) =~= Seq::new(
        views(pieces@).len(),
        |i: int| plain_part(views(pieces@)[i]),
    ));
    r
}

/// The messages that show the content of the document at `path`. The content of a PDF file is
/// not shown, and not to be read.
pub fn document_content(path: &str, content: &str) -> (r: Vec<ContentPart>)
    requires
        !has_extension(path@, "pdf"@),
    ensures
        part_views(r@) == content_parts(path@, content@),
{
    if trim(content).is_empty() {
        let mut r: Vec<ContentPart> = Vec::new();
        r.push(ContentPart { html: None, plain: "Document content is empty.".to_owned() });
        assert(part_views(r@) =~= seq![plain_part("Document content is empty."@)]);
        return r;
    }
    if looks_like_markdown(path, content) {
        return markdown_content(content);
    }
    plain_content(content)
}

// ---------------------------------------------------------------------------------------------
// Sending the parts

/// What to do next with the part at an index.
#[derive(Debug, Clone, Copy, PartialEq, Eq, Structural)]
pub enum DeliveryStep {
    SendHtml,
    SendPlain,
    Finished,
    Failed,
}

#[derive(Debug, Clone, Copy, PartialEq, Eq, Structural)]
pub struct DeliveryState {
    pub index: usize,
    pub step: DeliveryStep,
}

pub open spec fn begun_at(parts: Seq<PartView>, index: nat) -> DeliveryStep {
    if index >= parts.len() {
        DeliveryStep::Finished
    } else if parts[index as int].html is Some {
        DeliveryStep::SendHtml
    } else {
        DeliveryStep::SendPlain
    }
}

/// The step after an attempt: refused HTML is sent again as plain text, refused plain text ends
/// the delivery, and after a success the next part follows.
pub open spec fn step_after(
    parts: Seq<PartView>,
    index: nat,
    step: DeliveryStep,
    delivered: bool,
) -> (nat, DeliveryStep) {
    match step {
        DeliveryStep::SendHtml if !delivered => (index, DeliveryStep::SendPlain),
        DeliveryStep::SendPlain if !delivered => (index, DeliveryStep::Failed),
        DeliveryStep::SendHtml | DeliveryStep::SendPlain => (
            index + 1,
            begun_at(parts, index + 1),
        ),
        _ => (index, step),
    }
}

fn begin_part(parts: &Vec<ContentPart>, index: usize) -> (r: DeliveryStep)
    ensures
        r == begun_at(part_views(parts@), index as nat),
{
    if index >= parts.len() {
        DeliveryStep::Finished
    } else if parts[index].html.is_some() {
        DeliveryStep::SendHtml
    } else {
        DeliveryStep::SendPlain
    }
}

pub fn begin_delivery(parts: &Vec<ContentPart>) -> (r: DeliveryState)
    ensures
        r.index == 0,
        r.step == begun_at(part_views(parts@), 0),
{
    DeliveryState { index: 0, step: begin_part(parts, 0) }
}

/// The state after an attempt to carry out the step.
pub fn continue_delivery(parts: &Vec<ContentPart>, state: DeliveryState, delivered: bool) -> (r:
    DeliveryState)
    requires
        state.step is SendHtml || state.step is SendPlain ==> state.index < parts@.len(),
    ensures
        (r.index as nat, r.step) == step_after(
            part_views(parts@),
            state.index as nat,
            state.step,
            delivered,
        ),
        r.step is SendHtml || r.step is SendPlain ==> r.index < parts@.len(),
{
    let count = parts.len();
    assert(state.step is SendHtml || state.step is SendPlain ==> state.index < count);
    match state.step {
        DeliveryStep::SendHtml => {
            if delivered {
                DeliveryState {
                    index: state.index + 1,
                    step: begin_part(parts, state.index + 1),
                }
            } else {
                DeliveryState { index: state.index, step: DeliveryStep::SendPlain }
            }
        },
        DeliveryStep::SendPlain => {
            if delivered {
                DeliveryState {
                    index: state.index + 1,
                    step: begin_part(parts, state.index + 1),
                }
            } else {
                DeliveryState { index: state.index, step: DeliveryStep::Failed }
            }
        },
        _ => state,
    }
}

/// Where a delivery stands after the attempts with the given outcomes.
pub open spec fn standing_after(parts: Seq<PartView>, outcomes: Seq<bool>) -> (nat, DeliveryStep)
    decreases outcomes.len(),
{
    if outcomes.len() == 0 {
        (0, begun_at(parts, 0))
    } else {
        let (index, step) = standing_after(parts, outcomes.drop_last());
        step_after(parts, index, step, outcomes.last())
    }
}

/// A delivery is finished exactly when every part has got through, and while it goes on there is
/// a part to send.
pub proof fn law_finished_means_all_parts(parts: Seq<PartView>, outcomes: Seq<bool>)
    ensures
        standing_after(parts, outcomes).1 is Finished <==> standing_after(parts, outcomes).0
            == parts.len(),
        standing_after(parts, outcomes).0 <= parts.len(),
        standing_after(parts, outcomes).1 is SendHtml ==> parts[standing_after(
            parts,
            outcomes,
        ).0 as int].html is Some,
    decreases outcomes.len(),
{
    if outcomes.len() > 0 {
        law_finished_means_all_parts(parts, outcomes.drop_last());
    }
}

/// Refused HTML alone never ends a delivery.
pub proof fn law_refused_html_is_not_final(parts: Seq<PartView>, index: nat)
    ensures
        step_after(parts, index, DeliveryStep::SendHtml, false) == (
            index,
            DeliveryStep::SendPlain,
        ),
{
}

/// The plain texts of the messages.
pub open spec fn plain_texts(parts: Seq<PartView>) -> Seq<Seq<char>> {
    Seq::new(parts.len(), |i: int| parts[i].plain)
}

/// Every message of a Markdown document is rendered, not the first alone: each stands for one piece
/// of the document, in order, and holds the HTML of that piece and its plain text. The title stands
/// on the first.
pub proof fn law_every_markdown_message_is_rendered(path: Seq<char>, content: Seq<char>, i: int)
    requires
        is_markdown(path, content),
        trimmed(content).len() > 0,
        0 <= i < content_parts(path, content).len(),
    ensures
        content_parts(path, content).len() == split_text(content, 3736).len(),
        content_parts(path, content)[i].html is Some,
        telegram_html(markdown_steps(split_text(content, 3736)[i])).is_suffix_of(
            content_parts(path, content)[i].html->0,
        ),
        split_text(content, 3736)[i].is_suffix_of(content_parts(path, content)[i].plain),
        i > 0 ==> content_parts(path, content)[i].html->0 == telegram_html(
            markdown_steps(split_text(content, 3736)[i]),
        ),
        i > 0 ==> content_parts(path, content)[i].plain == split_text(content, 3736)[i],
        i == 0 ==> content_parts(path, content)[i].html->0 == "<b>Content</b>\n\n"@ + telegram_html(
            markdown_steps(split_text(content, 3736)[i]),
        ),
        i == 0 ==> content_parts(path, content)[i].plain == "Content:\n\n"@ + split_text(
            content,
            3736,
        )[i],
{
    let chunk = split_text(content, 3736)[i];
    let html = telegram_html(markdown_steps(chunk));
    let titled = "<b>Content</b>\n\n"@ + html;
    assert(titled.skip(titled.len() - html.len()) =~= html);
    let labelled = "Content:\n\n"@ + chunk;
    assert(labelled.skip(labelled.len() - chunk.len()) =~= chunk);
}

/// A document of plain text is sent whole and as it is: its messages, put together, are the title
/// and the content, and none asks for HTML.
pub proof fn law_plain_messages_make_up_the_document(path: Seq<char>, content: Seq<char>)
    requires
        !is_markdown(path, content),
        trimmed(content).len() > 0,
    ensures
        flat(plain_texts(content_parts(path, content))) == "Content:\n\n"@ + content,
        forall|i: int|
            0 <= i < content_parts(path, content).len() ==> (#[trigger] content_parts(
                path,
                content,
            )[i]).html is None,
{
    let text = "Content:\n\n"@ + content;
    law_slices_make_up_the_text(text, 3800);
    assert(plain_texts(content_parts(path, content)) =~= slices(text, 3800));
}

/// The messages of a Markdown document hold all of its lines, in order, behind the title. The
/// exception is a document of nothing but empty lines.
pub proof fn law_markdown_messages_hold_the_document(path: Seq<char>, content: Seq<char>)
    requires
        is_markdown(path, content),
        trimmed(content).len() > 0,
        flat(lines(content)).len() > 0,
    ensures
        without_breaks(flat(plain_texts(content_parts(path, content)))) == "Content:"@ + flat(
            lines(content),
        ),
{
    let chunks = split_text(content, 3736);
    let plains = plain_texts(content_parts(path, content));
    law_pieces_keep_the_lines(content, 3736);
    if chunks.len() == 0 {
        assert(without_breaks(flat(chunks)).len() == 0);
    }
    let others = chunks.drop_first();
    assert(plains =~= seq!["Content:\n\n"@ + chunks[0]] + others);
    assert(chunks =~= seq![chunks[0]] + others);
    lemma_flat_distributes(seq!["Content:\n\n"@ + chunks[0]], others);
    lemma_flat_distributes(seq![chunks[0]], others);
    lemma_flat_push(Seq::empty(), chunks[0]);
    lemma_flat_push(Seq::empty(), "Content:\n\n"@ + chunks[0]);
    assert(Seq::<Seq<char>>::empty().push(chunks[0]) =~= seq![chunks[0]]);
    assert(Seq::<Seq<char>>::empty().push("Content:\n\n"@ + chunks[0]) =~= seq!["Content:\n\n"@
        + chunks[0]]);
    assert(flat(plains) =~= "Content:\n\n"@ + flat(chunks));
    lemma_without_breaks_distributes("Content:\n\n"@, flat(chunks));
    assert(without_breaks("Content:\n\n"@) =~= "Content:"@) by {
        reveal_strlit("Content:\n\n");
        reveal_strlit("Content:");
        lemma_without_breaks_distributes("Content:"@, "\n\n"@);
        reveal_strlit("\n\n");
        assert("Content:"@ + "\n\n"@ =~= "Content:\n\n"@);
        lemma_nothing_to_remove("Content:"@);
        reveal_with_fuel(replaced, 3);
        assert(without_breaks("\n\n"@) =~= Seq::empty());
    }
}

/// Every message fits: it holds something, and no more characters than one message may.
pub proof fn law_every_message_fits(path: Seq<char>, content: Seq<char>, i: int)
    requires
        0 <= i < content_parts(path, content).len(),
    ensures
        0 < content_parts(path, content)[i].plain.len() <= 3800,
{
    reveal_strlit("Content:\n\n");
    reveal_strlit("Document content is empty.");
    law_slices_make_up_the_text("Content:\n\n"@ + content, 3800);
    law_pieces_fit(content, 3736);
}

/// A document without content is answered with one message that says so.
pub proof fn law_blank_document_is_said_to_be_empty(path: Seq<char>, content: Seq<char>)
    requires
        forall|i: int| 0 <= i < content.len() ==> is_white(#[trigger] content[i]),
    ensures
        content_parts(path, content).len() == 1,
        content_parts(path, content)[0].html is None,
        content_parts(path, content)[0].plain == "Document content is empty."@,
{
    law_trimming_takes_the_space_off_the_ends(content, Seq::empty(), Seq::empty());
    assert(content + Seq::<char>::empty() + Seq::<char>::empty() =~= content);
}

/// A line is taken for Markdown by how it begins, whatever space stands before: with a hash, a list
/// or quote mark and a space, a code fence, or a number, a full stop and a space.
pub proof fn law_markdown_lines_are_recognised(
    lead: Seq<char>,
    rest: Seq<char>,
    digits: Seq<char>,
)
    requires
        all_white(lead),
        digits.len() > 0,
        forall|i: int| 0 <= i < digits.len() ==> is_digit(#[trigger] digits[i]),
    ensures
        is_markdown_line(lead + seq!['#'] + rest),
        is_markdown_line(lead + seq!['-', ' '] + rest),
        is_markdown_line(lead + seq!['*', ' '] + rest),
        is_markdown_line(lead + seq!['>', ' '] + rest),
        is_markdown_line(lead + seq!['`', '`', '`'] + rest),
        is_markdown_line(lead + (digits + seq!['.', ' ']) + rest),
{
    reveal_strlit("- ");
    reveal_strlit("* ");
    reveal_strlit("> ");
    reveal_strlit("```");
    lemma_start_shown(lead, seq!['#'], rest);
    lemma_start_shown(lead, seq!['-', ' '], rest);
    assert((seq!['-', ' '] + rest).take(2) =~= "- "@);
    lemma_start_shown(lead, seq!['*', ' '], rest);
    assert((seq!['*', ' '] + rest).take(2) =~= "* "@);
    lemma_start_shown(lead, seq!['>', ' '], rest);
    assert((seq!['>', ' '] + rest).take(2) =~= "> "@);
    lemma_start_shown(lead, seq!['`', '`', '`'], rest);
    assert((seq!['`', '`', '`'] + rest).take(3) =~= "```"@);
    assert(is_digit(digits[0]));
    let numbered = digits + seq!['.', ' '];
    assert(numbered[0] == digits[0]);
    lemma_start_shown(lead, numbered, rest);
    assert(digits + (seq!['.', ' '] + rest) =~= numbered + rest);
    lemma_digits_lead(digits, seq!['.', ' '] + rest);
    reveal_strlit(". ");
    assert((numbered + rest).skip(digits.len() as int) =~= seq!['.', ' '] + rest);
    assert((seq!['.', ' '] + rest).take(2) =~= ". "@);
}

proof fn lemma_start_shown(lead: Seq<char>, mark: Seq<char>, rest: Seq<char>)
    requires
        all_white(lead),
        mark.len() > 0,
        !is_white(mark[0]),
    ensures
        trimmed_start(lead + mark + rest) == mark + rest,
{
    let core = seq![mark[0]];
    let others = mark.drop_first() + rest;
    lemma_first_stays(lead, core + others);
    assert(lead + (core + others) =~= lead + mark + rest);
    assert(core + others =~= mark + rest);
}

proof fn lemma_first_stays(lead: Seq<char>, rest: Seq<char>)
    requires
        all_white(lead),
        rest.len() > 0,
        !is_white(rest[0]),
    ensures
        trimmed_start(lead + rest) == rest,
    decreases lead.len(),
{
    if lead.len() == 0 {
        assert(lead + rest =~= rest);
    } else {
        assert(is_white(lead[0]));
        assert((lead + rest).drop_first() =~= lead.drop_first() + rest);
        lemma_first_stays(lead.drop_first(), rest);
    }
}

proof fn lemma_digits_lead(digits: Seq<char>, rest: Seq<char>)
    requires
        forall|i: int| 0 <= i < digits.len() ==> is_digit(#[trigger] digits[i]),
        rest.len() == 0 || !is_digit(rest[0]),
    ensures
        leading_digits(digits + rest) == digits.len(),
    decreases digits.len(),
{
    if digits.len() == 0 {
        assert(digits + rest =~= rest);
    } else {
        assert(is_digit(digits[0]));
        let fewer = digits.drop_first();
        assert forall|i: int| 0 <= i < fewer.len() implies is_digit(#[trigger] fewer[i]) by {
            assert(fewer[i] == digits[i + 1]);
        }
        lemma_digits_lead(fewer, rest);
        assert((digits + rest).drop_first() =~= fewer + rest);
    }
}

/// The characters by which Markdown is recognised.
pub open spec fn is_markdown_sign(c: char) -> bool {
    c == '#' || c == '-' || c == '*' || c == '>' || c == '`' || c == '[' || is_digit(c)
}

/// A line without any sign of Markdown is plain text.
pub proof fn law_lines_without_signs_are_plain(line: Seq<char>)
    requires
        forall|i: int| 0 <= i < line.len() ==> !is_markdown_sign(#[trigger] line[i]),
    ensures
        !is_markdown_line(line),
{
    lemma_trimmed_start(line);
    let start = trimmed_start(line);
    assert forall|i: int| 0 <= i < start.len() implies !is_markdown_sign(#[trigger] start[i]) by {
        assert(start[i] == line[i + (line.len() - start.len())]);
    }
    reveal_strlit("- ");
    reveal_strlit("* ");
    reveal_strlit("> ");
    reveal_strlit("```");
    if start.len() > 0 {
        assert(!is_markdown_sign(start[0]));
        if has_prefix(start, "- "@) {
            assert(start.take(2)[0] == start[0]);
        }
        if has_prefix(start, "* "@) {
            assert(start.take(2)[0] == start[0]);
        }
        if has_prefix(start, "> "@) {
            assert(start.take(2)[0] == start[0]);
        }
        if has_prefix(start, "```"@) {
            assert(start.take(3)[0] == start[0]);
        }
    }
}

/// A document is Markdown exactly if its name says so or one of its first twenty lines looks it;
/// what stands further down does not matter.
pub proof fn law_markdown_shows_in_the_first_lines(
    path: Seq<char>,
    content: Seq<char>,
    other: Seq<char>,
)
    requires
        clipped_lines(content) == clipped_lines(other),
    ensures
        is_markdown(path, content) == is_markdown(path, other),
        is_markdown(path, content) <==> has_extension(path, "md"@) || exists|i: int|
            0 <= i < clipped_lines(content).len() && is_markdown_line(
                #[trigger] clipped_lines(content)[i],
            ),
{
    lemma_shows_in_the_first_lines(path, content);
    lemma_shows_in_the_first_lines(path, other);
}

/// The first twenty lines, or as many as there are.
pub open spec fn clipped_lines(content: Seq<char>) -> Seq<Seq<char>> {
    if lines(content).len() <= 20 {
        lines(content)
    } else {
        lines(content).take(20)
    }
}

proof fn lemma_shows_in_the_first_lines(path: Seq<char>, content: Seq<char>)
    ensures
        is_markdown(path, content) <==> has_extension(path, "md"@) || exists|i: int|
            0 <= i < clipped_lines(content).len() && is_markdown_line(
                #[trigger] clipped_lines(content)[i],
            ),
{
    let all = lines(content);
    let first = clipped_lines(content);
    assert forall|i: int| 0 <= i < first.len() implies first[i] == all[i] by {}
    if is_markdown(path, content) && !has_extension(path, "md"@) {
        let i = choose|i: int|
            0 <= i < all.len() && i < MARKDOWN_SAMPLE_LINES && is_markdown_line(#[trigger] all[i]);
        assert(first[i] == all[i]);
    }
    if exists|i: int| 0 <= i < first.len() && is_markdown_line(#[trigger] first[i]) {
        let i = choose|i: int| 0 <= i < first.len() && is_markdown_line(#[trigger] first[i]);
        assert(is_markdown_line(all[i]));
    }
}

/// Where nothing is refused, every message is tried once, in order, as HTML where it has some.
pub proof fn law_delivery_goes_through_the_parts(parts: Seq<PartView>, outcomes: Seq<bool>)
    requires
        outcomes.len() <= parts.len(),
        forall|i: int| 0 <= i < outcomes.len() ==> #[trigger] outcomes[i],
    ensures
        standing_after(parts, outcomes).0 == outcomes.len(),
        outcomes.len() == parts.len() ==> standing_after(parts, outcomes).1 is Finished,
        outcomes.len() < parts.len() ==> standing_after(parts, outcomes).1 == (
        if parts[outcomes.len() as int].html is Some {
            DeliveryStep::SendHtml
        } else {
            DeliveryStep::SendPlain
        }),
    decreases outcomes.len(),
{
    if outcomes.len() > 0 {
        let before = outcomes.drop_last();
        assert forall|i: int| 0 <= i < before.len() implies #[trigger] before[i] by {
            assert(before[i] == outcomes[i]);
        }
        law_delivery_goes_through_the_parts(parts, before);
        assert(outcomes[outcomes.len() - 1]);
    }
}

/// A delivery fails only where plain text was refused, and stays where it has failed or finished.
pub proof fn law_only_refused_plain_text_fails(
    parts: Seq<PartView>,
    index: nat,
    step: DeliveryStep,
    delivered: bool,
)
    ensures
        step_after(parts, index, step, delivered).1 is Failed <==> step is Failed || (step
            is SendPlain && !delivered),
        step is Failed || step is Finished ==> step_after(parts, index, step, delivered) == (
            index,
            step,
        ),
{
}

/// The kind of a file is known by what follows the last dot of its name, in any case, wherever the
/// file lies.
pub proof fn law_extension_is_compared_in_any_case(
    base: Seq<char>,
    stem: Seq<char>,
    extension: Seq<char>,
    wanted: Seq<char>,
)
    requires
        stem.len() > 0,
        !stem.contains('/'),
        !extension.contains('/'),
        !extension.contains('.'),
        extension.len() > 0,
    ensures
        has_extension(path_join(base, stem.push('.') + extension), wanted) <==> lowered(extension)
            == wanted,
{
    let name = stem.push('.') + extension;
    if name == seq!['.', '.'] {
        assert(name[1] == extension[0]);
        assert(extension.contains(extension[0]));
    }
    let plain = seq!['a'];
    assert(is_file_name(plain)) by {
        assert(plain[0] == 'a');
    }
    law_extension_follows_the_last_dot(base, stem, extension, plain);
}

} // verus!
