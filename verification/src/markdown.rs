//! Markdown as Telegram shows it: the small set of HTML tags that the chat understands.

use vstd::prelude::*;

verus! {

use crate::numbers::{decimal, render_u64};
use crate::text::{chars_of, ends_with_char, trim, trimmed};
use pulldown_cmark::Event::{HardBreak, Rule, SoftBreak};
use pulldown_cmark::Tag::{
    BlockQuote, CodeBlock, DefinitionList, DefinitionListDefinition, DefinitionListTitle, Emphasis,
    FootnoteDefinition, Heading, HtmlBlock, Image, Item, Link, List, MetadataBlock, Paragraph,
    Strikethrough, Strong, Table, TableCell, TableHead, TableRow,
};
use pulldown_cmark::{CodeBlockKind, Event, Tag, TagEnd};

/// The beginning of an element.
#[derive(Debug)]
pub enum MarkdownTag {
    Paragraph,
    Heading,
    Emphasis,
    Strong,
    Strikethrough,
    BlockQuote,
    IndentedCode,
    /// A fenced code block and its language, which may be empty.
    FencedCode(String),
    /// A list, with the number of its first item where it is ordered.
    List(Option<u64>),
    Item,
    /// A link and where it leads.
    Link(String),
    HtmlBlock,
    FootnoteDefinition,
    DefinitionList,
    DefinitionListTitle,
    DefinitionListDefinition,
    Table,
    TableHead,
    TableRow,
    TableCell,
    Image,
    MetadataBlock,
}

/// The end of an element.
#[derive(Debug, Clone, Copy, PartialEq, Eq, Structural)]
pub enum MarkdownTagEnd {
    Paragraph,
    Heading,
    Emphasis,
    Strong,
    Strikethrough,
    BlockQuote,
    CodeBlock,
    List,
    Item,
    Link,
    HtmlBlock,
    FootnoteDefinition,
    DefinitionList,
    DefinitionListTitle,
    DefinitionListDefinition,
    Table,
    TableHead,
    TableRow,
    TableCell,
    Image,
    MetadataBlock,
}

/// One step through a Markdown document.
#[derive(Debug)]
pub enum MarkdownEvent {
    Start(MarkdownTag),
    End(MarkdownTagEnd),
    Text(String),
    Code(String),
    InlineMath(String),
    DisplayMath(String),
    Html(String),
    InlineHtml(String),
    FootnoteReference(String),
    SoftBreak,
    HardBreak,
    Rule,
    TaskListMarker(bool),
}

pub enum TagView {
    Paragraph,
    Heading,
    Emphasis,
    Strong,
    Strikethrough,
    BlockQuote,
    IndentedCode,
    FencedCode(Seq<char>),
    List(Option<u64>),
    Item,
    Link(Seq<char>),
    HtmlBlock,
    FootnoteDefinition,
    DefinitionList,
    DefinitionListTitle,
    DefinitionListDefinition,
    Table,
    TableHead,
    TableRow,
    TableCell,
    Image,
    MetadataBlock,
}

pub enum EventView {
    Start(TagView),
    End(MarkdownTagEnd),
    Text(Seq<char>),
    Code(Seq<char>),
    InlineMath(Seq<char>),
    DisplayMath(Seq<char>),
    Html(Seq<char>),
    InlineHtml(Seq<char>),
    FootnoteReference(Seq<char>),
    SoftBreak,
    HardBreak,
    Rule,
    TaskListMarker(bool),
}

impl View for MarkdownTag {
    type V = TagView;

    open spec fn view(&self) -> TagView {
        match self {
            MarkdownTag::Paragraph => TagView::Paragraph,
            MarkdownTag::Heading => TagView::Heading,
            MarkdownTag::Emphasis => TagView::Emphasis,
            MarkdownTag::Strong => TagView::Strong,
            MarkdownTag::Strikethrough => TagView::Strikethrough,
            MarkdownTag::BlockQuote => TagView::BlockQuote,
            MarkdownTag::IndentedCode => TagView::IndentedCode,
            MarkdownTag::FencedCode(language) => TagView::FencedCode(language@),
            MarkdownTag::List(first) => TagView::List(*first),
            MarkdownTag::Item => TagView::Item,
            MarkdownTag::Link(target) => TagView::Link(target@),
            MarkdownTag::HtmlBlock => TagView::HtmlBlock,
            MarkdownTag::FootnoteDefinition => TagView::FootnoteDefinition,
            MarkdownTag::DefinitionList => TagView::DefinitionList,
            MarkdownTag::DefinitionListTitle => TagView::DefinitionListTitle,
            MarkdownTag::DefinitionListDefinition => TagView::DefinitionListDefinition,
            MarkdownTag::Table => TagView::Table,
            MarkdownTag::TableHead => TagView::TableHead,
            MarkdownTag::TableRow => TagView::TableRow,
            MarkdownTag::TableCell => TagView::TableCell,
            MarkdownTag::Image => TagView::Image,
            MarkdownTag::MetadataBlock => TagView::MetadataBlock,
        }
    }
}

impl View for MarkdownEvent {
    type V = EventView;

    open spec fn view(&self) -> EventView {
        match self {
            MarkdownEvent::Start(tag) => EventView::Start(tag@),
            MarkdownEvent::End(tag) => EventView::End(*tag),
            MarkdownEvent::Text(text) => EventView::Text(text@),
            MarkdownEvent::Code(text) => EventView::Code(text@),
            MarkdownEvent::InlineMath(text) => EventView::InlineMath(text@),
            MarkdownEvent::DisplayMath(text) => EventView::DisplayMath(text@),
            MarkdownEvent::Html(text) => EventView::Html(text@),
            MarkdownEvent::InlineHtml(text) => EventView::InlineHtml(text@),
            MarkdownEvent::FootnoteReference(text) => EventView::FootnoteReference(text@),
            MarkdownEvent::SoftBreak => EventView::SoftBreak,
            MarkdownEvent::HardBreak => EventView::HardBreak,
            MarkdownEvent::Rule => EventView::Rule,
            MarkdownEvent::TaskListMarker(checked) => EventView::TaskListMarker(*checked),
        }
    }
}

pub open spec fn event_views(events: Seq<MarkdownEvent>) -> Seq<EventView> {
    Seq::new(events.len(), |i: int| events[i]@)
}

// ---------------------------------------------------------------------------------------------
// Reading Markdown

/// An event of the Markdown reader.
#[verifier::external_type_specification]
#[verifier::external_body]
pub struct ExMarkdownEvent<'a>(pulldown_cmark::Event<'a>);

/// The beginning of an element, as the Markdown reader has it.
#[verifier::external_type_specification]
#[verifier::external_body]
pub struct ExMarkdownTag<'a>(pulldown_cmark::Tag<'a>);

/// The end of an element, as the Markdown reader has it.
#[verifier::external_type_specification]
#[verifier::external_body]
pub struct ExMarkdownTagEnd(pulldown_cmark::TagEnd);

/// The steps of `pulldown_cmark::Parser` through a text, with no extension of the syntax enabled.
pub uninterp spec fn markdown_steps(text: Seq<char>) -> Seq<EventView>;

/// Changes the type of a `pulldown_cmark::Tag`, variant for variant. Code blocks, lists and links
/// keep what is shown of them; every other element keeps nothing.
#[verifier::external_body]
fn convert_tag(tag: Tag<'_>) -> MarkdownTag {
    match tag {
        Paragraph => MarkdownTag::Paragraph, Heading { .. } => MarkdownTag::Heading,
        BlockQuote(_) => MarkdownTag::BlockQuote, HtmlBlock => MarkdownTag::HtmlBlock,
        CodeBlock(CodeBlockKind::Indented) => MarkdownTag::IndentedCode,
        CodeBlock(CodeBlockKind::Fenced(t)) => MarkdownTag::FencedCode(t.to_string()),
        List(first) => MarkdownTag::List(first), Item => MarkdownTag::Item,
        FootnoteDefinition(_) => MarkdownTag::FootnoteDefinition, Table(_) => MarkdownTag::Table,
        DefinitionList => MarkdownTag::DefinitionList, TableHead => MarkdownTag::TableHead,
        DefinitionListTitle => MarkdownTag::DefinitionListTitle, TableRow => MarkdownTag::TableRow,
        DefinitionListDefinition => MarkdownTag::DefinitionListDefinition,
        TableCell => MarkdownTag::TableCell, Emphasis => MarkdownTag::Emphasis,
        Strong => MarkdownTag::Strong, Strikethrough => MarkdownTag::Strikethrough,
        Link { dest_url, .. } => MarkdownTag::Link(dest_url.to_string()),
        Image { .. } => MarkdownTag::Image, MetadataBlock(_) => MarkdownTag::MetadataBlock,
    }
}

/// Changes the type of a `pulldown_cmark::TagEnd`, variant for variant, as for the beginning.
#[verifier::external_body]
fn convert_tag_end(tag: TagEnd) -> MarkdownTagEnd {
    match tag {
        TagEnd::Item => MarkdownTagEnd::Item, TagEnd::Strikethrough => MarkdownTagEnd::Strikethrough,
        TagEnd::Link => MarkdownTagEnd::Link, TagEnd::BlockQuote(_) => MarkdownTagEnd::BlockQuote,
        TagEnd::Table => MarkdownTagEnd::Table, TagEnd::TableCell => MarkdownTagEnd::TableCell,
        TagEnd::Image => MarkdownTagEnd::Image, TagEnd::TableHead => MarkdownTagEnd::TableHead,
        TagEnd::List(_) => MarkdownTagEnd::List, TagEnd::HtmlBlock => MarkdownTagEnd::HtmlBlock,
        TagEnd::Strong => MarkdownTagEnd::Strong, TagEnd::CodeBlock => MarkdownTagEnd::CodeBlock,
        TagEnd::TableRow => MarkdownTagEnd::TableRow, TagEnd::Paragraph => MarkdownTagEnd::Paragraph,
        TagEnd::Emphasis => MarkdownTagEnd::Emphasis, TagEnd::Heading(_) => MarkdownTagEnd::Heading,
        TagEnd::DefinitionList => MarkdownTagEnd::DefinitionList,
        TagEnd::MetadataBlock(_) => MarkdownTagEnd::MetadataBlock,
        TagEnd::FootnoteDefinition => MarkdownTagEnd::FootnoteDefinition,
        TagEnd::DefinitionListTitle => MarkdownTagEnd::DefinitionListTitle,
        TagEnd::DefinitionListDefinition => MarkdownTagEnd::DefinitionListDefinition,
    }
}

/// Changes the type of a `pulldown_cmark::Event`, variant for variant.
#[verifier::external_body]
fn convert_event(event: Event<'_>) -> MarkdownEvent {
    match event {
        Event::Start(t) => MarkdownEvent::Start(convert_tag(t)),
        Event::End(t) => MarkdownEvent::End(convert_tag_end(t)),
        Event::Text(t) => MarkdownEvent::Text(t.to_string()),
        Event::Code(t) => MarkdownEvent::Code(t.to_string()),
        Event::InlineMath(t) => MarkdownEvent::InlineMath(t.to_string()),
        Event::DisplayMath(t) => MarkdownEvent::DisplayMath(t.to_string()),
        Event::Html(t) => MarkdownEvent::Html(t.to_string()),
        Event::InlineHtml(t) => MarkdownEvent::InlineHtml(t.to_string()),
        Event::FootnoteReference(t) => MarkdownEvent::FootnoteReference(t.to_string()),
        SoftBreak => MarkdownEvent::SoftBreak,
        Event::TaskListMarker(checked) => MarkdownEvent::TaskListMarker(checked),
        HardBreak => MarkdownEvent::HardBreak,
        Rule => MarkdownEvent::Rule,
    }
}

/// `pulldown_cmark::Parser::new`: all steps through the text, in order. The steps are a function
/// of the text; which steps a text gives is not stated.
#[verifier::external_body]
fn markdown_events(text: &str) -> (r: Vec<MarkdownEvent>)
    ensures
        event_views(r@) == markdown_steps(text@),
{
    pulldown_cmark::Parser::new(text).map(convert_event).collect()
}

// ---------------------------------------------------------------------------------------------
// Escaping

/// What stands for a character in Telegram HTML.
pub open spec fn entity(c: char) -> Seq<char> {
    if c == '&' {
        "&amp;"@
    } else if c == '<' {
        "&lt;"@
    } else if c == '>' {
        "&gt;"@
    } else if c == '"' {
        "&quot;"@
    } else {
        seq![c]
    }
}

/// The text with its markup characters replaced by entities.
pub open spec fn escaped(s: Seq<char>) -> Seq<char>
    decreases s.len(),
{
    if s.len() == 0 {
        Seq::empty()
    } else {
        escaped(s.drop_last()) + entity(s.last())
    }
}

pub fn escape_telegram_html(text: &str) -> (r: String)
    ensures
        r@ == escaped(text@),
{
    let chars = chars_of(text);
    let mut r = String::new();
    let mut i: usize = 0;
    while i < chars.len()
        invariant
            i <= chars@.len(),
            chars@ == text@,
            r@ == escaped(text@.take(i as int)),
        decreases chars@.len() - i,
    {
        assert(text@.take(i + 1).drop_last() == text@.take(i as int));
        let c = chars[i];
        if c == '&' {
            r.append("&amp;");
        } else if c == '<' {
            r.append("&lt;");
        } else if c == '>' {
            r.append("&gt;");
        } else if c == '"' {
            r.append("&quot;");
        } else {
            r.push(c);
        }
        i += 1;
    }
    assert(text@.take(i as int) == text@);
    r
}

/// An escaped text opens no tag and ends no attribute.
pub proof fn law_escaped_text_has_no_markup(s: Seq<char>)
    ensures
        !escaped(s).contains('<'),
        !escaped(s).contains('>'),
        !escaped(s).contains('"'),
    decreases s.len(),
{
    if s.len() > 0 {
        law_escaped_text_has_no_markup(s.drop_last());
        reveal_strlit("&amp;");
        reveal_strlit("&lt;");
        reveal_strlit("&gt;");
        reveal_strlit("&quot;");
        let before = escaped(s.drop_last());
        let added = entity(s.last());
        assert forall|i: int| 0 <= i < escaped(s).len() implies escaped(s)[i] != '<' && escaped(
            s,
        )[i] != '>' && escaped(s)[i] != '"' by {
            if i < before.len() {
                assert(before.contains(before[i]));
            } else {
                assert(escaped(s)[i] == added[i - before.len()]);
            }
        }
    }
}

/// Escaping two texts and putting them together is escaping them together.
pub proof fn law_escaping_distributes(a: Seq<char>, b: Seq<char>)
    ensures
        escaped(a + b) == escaped(a) + escaped(b),
    decreases b.len(),
{
    if b.len() == 0 {
        assert(a + b == a);
        assert(escaped(a) + escaped(b) =~= escaped(a));
    } else {
        law_escaping_distributes(a, b.drop_last());
        assert((a + b).drop_last() == a + b.drop_last());
        assert(escaped(a + b) =~= escaped(a) + escaped(b));
    }
}

// ---------------------------------------------------------------------------------------------
// Rendering

/// A list that was begun.
pub struct ListState {
    pub ordered: bool,
    pub next_index: u64,
}

/// What was rendered so far, and what it has left behind: the lists that were begun, of which none
/// is taken away again, how many quotes are open, and whether a code block is.
pub struct RenderState {
    pub output: Seq<char>,
    pub lists: Seq<ListState>,
    pub quotes: nat,
    pub in_code_block: bool,
}

/// A new line, unless one has just begun.
pub open spec fn on_new_line(output: Seq<char>) -> Seq<char> {
    if output.len() > 0 && output.last() != '\n' {
        output.push('\n')
    } else {
        output
    }
}

/// Two spaces for each level. A list stands one level deeper than the list that was begun before it,
/// whether that one has ended or not.
pub open spec fn indentation(levels: nat) -> Seq<char>
    decreases levels,
{
    if levels == 0 {
        Seq::empty()
    } else {
        indentation((levels - 1) as nat) + "  "@
    }
}

pub open spec fn next_number(n: u64) -> u64 {
    if n == u64::MAX {
        0
    } else {
        (n + 1) as u64
    }
}

impl RenderState {
    pub open spec fn start() -> RenderState {
        RenderState {
            output: Seq::empty(),
            lists: Seq::empty(),
            quotes: 0,
            in_code_block: false,
        }
    }

    pub open spec fn adding(self, text: Seq<char>) -> RenderState {
        RenderState { output: self.output + text, ..self }
    }

    /// Opens an element.
    pub open spec fn opening(self, tag: TagView) -> RenderState {
        match tag {
            TagView::Heading => self.adding("<b>"@),
            TagView::Emphasis => self.adding("<i>"@),
            TagView::Strong => self.adding("<b>"@),
            TagView::Strikethrough => self.adding("<s>"@),
            TagView::BlockQuote => RenderState {
                output: on_new_line(self.output) + "&gt; "@,
                quotes: self.quotes + 1,
                ..self
            },
            TagView::IndentedCode => RenderState {
                output: on_new_line(self.output) + "<pre>"@,
                in_code_block: true,
                ..self
            },
            TagView::FencedCode(language) => RenderState {
                output: on_new_line(self.output) + "<pre>"@ + (if escaped(language).len() > 0 {
                    escaped(language) + "\n"@
                } else {
                    Seq::empty()
                }),
                in_code_block: true,
                ..self
            },
            TagView::List(first) => RenderState {
                lists: self.lists.push(
                    ListState {
                        ordered: first is Some,
                        next_index: match first {
                            Some(n) => n,
                            None => 1,
                        },
                    },
                ),
                ..self
            },
            TagView::Item => self.opening_item(),
            TagView::Link(target) => self.adding("<a href=\""@ + escaped(target) + "\">"@),
            _ => self,
        }
    }

    /// Begins a list item: on a line of its own, indented, with its number or a bullet.
    pub open spec fn opening_item(self) -> RenderState {
        let line = on_new_line(self.output) + indentation(
            if self.lists.len() == 0 {
                0
            } else {
                (self.lists.len() - 1) as nat
            },
        );
        if self.lists.len() > 0 && self.lists.last().ordered {
            let n = self.lists.last().next_index;
            RenderState {
                output: line + (decimal(n as nat) + ". "@),
                lists: self.lists.drop_last().push(
                    ListState { ordered: true, next_index: next_number(n) },
                ),
                ..self
            }
        } else {
            RenderState { output: line + "• "@, ..self }
        }
    }

    /// Closes an element.
    pub open spec fn closing(self, tag: MarkdownTagEnd) -> RenderState {
        match tag {
            MarkdownTagEnd::Paragraph => self.adding("\n\n"@),
            MarkdownTagEnd::Heading => self.adding("</b>\n\n"@),
            MarkdownTagEnd::Emphasis => self.adding("</i>"@),
            MarkdownTagEnd::Strong => self.adding("</b>"@),
            MarkdownTagEnd::Strikethrough => self.adding("</s>"@),
            MarkdownTagEnd::BlockQuote => RenderState {
                output: self.output + "\n\n"@,
                quotes: if self.quotes == 0 {
                    0
                } else {
                    (self.quotes - 1) as nat
                },
                ..self
            },
            MarkdownTagEnd::CodeBlock => RenderState {
                output: self.output + "</pre>\n\n"@,
                in_code_block: false,
                ..self
            },
            MarkdownTagEnd::List => self.adding("\n"@),
            MarkdownTagEnd::Item => self.adding("\n"@),
            MarkdownTagEnd::Link => self.adding("</a>"@),
            _ => self,
        }
    }

    /// Takes one step through the document.
    pub open spec fn step(self, event: EventView) -> RenderState {
        match event {
            EventView::Start(tag) => self.opening(tag),
            EventView::End(tag) => self.closing(tag),
            EventView::Text(text) => {
                if self.quotes > 0 && self.output.len() > 0 && self.output.last() == '\n' {
                    self.adding("&gt; "@ + escaped(text))
                } else {
                    self.adding(escaped(text))
                }
            },
            EventView::Code(text) => self.adding("<code>"@ + escaped(text) + "</code>"@),
            EventView::SoftBreak | EventView::HardBreak => {
                if self.quotes > 0 && !self.in_code_block {
                    self.adding("\n"@ + "&gt; "@)
                } else {
                    self.adding("\n"@)
                }
            },
            EventView::Rule => self.adding("\n────\n"@),
            EventView::Html(text) => self.adding(escaped(text)),
            EventView::InlineHtml(text) => self.adding(escaped(text)),
            EventView::FootnoteReference(text) => self.adding(escaped(text)),
            EventView::InlineMath(text) => self.adding(escaped(text)),
            EventView::DisplayMath(text) => self.adding(escaped(text)),
            EventView::TaskListMarker(checked) => self.adding(
                if checked {
                    "☑ "@
                } else {
                    "☐ "@
                },
            ),
        }
    }
}

/// The state after all the steps.
pub open spec fn rendered(events: Seq<EventView>) -> RenderState
    decreases events.len(),
{
    if events.len() == 0 {
        RenderState::start()
    } else {
        rendered(events.drop_last()).step(events.last())
    }
}

/// The HTML that a document is shown as.
pub open spec fn telegram_html(events: Seq<EventView>) -> Seq<char> {
    trimmed(rendered(events).output)
}

// ---------------------------------------------------------------------------------------------
// Laws of rendering

/// How many quotes the steps begin.
pub open spec fn quotes_begun(events: Seq<EventView>) -> nat {
    events.filter(|event: EventView| event == EventView::Start(TagView::BlockQuote)).len()
}

/// How many quotes the steps end.
pub open spec fn quotes_ended(events: Seq<EventView>) -> nat {
    events.filter(|event: EventView| event == EventView::End(MarkdownTagEnd::BlockQuote)).len()
}

/// At no point have more quotes ended than were begun.
pub open spec fn quotes_nest(events: Seq<EventView>) -> bool {
    forall|n: int|
        0 <= n <= events.len() ==> quotes_ended(#[trigger] events.take(n)) <= quotes_begun(
            events.take(n),
        )
}

proof fn lemma_quotes_nest_before(events: Seq<EventView>)
    requires
        quotes_nest(events),
        events.len() > 0,
    ensures
        quotes_nest(events.drop_last()),
        quotes_ended(events.drop_last()) <= quotes_begun(events.drop_last()),
{
    let before = events.drop_last();
    assert forall|n: int| 0 <= n <= before.len() implies quotes_ended(#[trigger] before.take(n))
        <= quotes_begun(before.take(n)) by {
        assert(before.take(n) =~= events.take(n));
    }
    assert(before.take(before.len() as int) =~= before);
}

/// A quote stays open until it ends, and no longer: as many are open as were begun and have not
/// ended.
pub proof fn law_open_quotes_are_those_not_ended(events: Seq<EventView>)
    requires
        quotes_nest(events),
    ensures
        rendered(events).quotes == quotes_begun(events) - quotes_ended(events),
    decreases events.len(),
{
    reveal(Seq::filter);
    if events.len() > 0 {
        lemma_quotes_nest_before(events);
        law_open_quotes_are_those_not_ended(events.drop_last());
        assert(events.take(events.len() as int) =~= events);
    }
}

/// Text is marked as quoted only inside a quote: where each quote that was begun has ended, a text
/// adds itself alone, and a line break adds nothing but a line feed.
pub proof fn law_text_after_a_quote_is_not_quoted(events: Seq<EventView>, text: Seq<char>)
    requires
        quotes_nest(events),
        quotes_begun(events) == quotes_ended(events),
    ensures
        rendered(events).quotes == 0,
        rendered(events.push(EventView::Text(text))).output == rendered(events).output + escaped(
            text,
        ),
        rendered(events.push(EventView::SoftBreak)).output == rendered(events).output.push('\n'),
        rendered(events.push(EventView::HardBreak)).output == rendered(events).output.push('\n'),
{
    law_open_quotes_are_those_not_ended(events);
    reveal_strlit("\n");
    lemma_one_more_step(events, EventView::Text(text));
    lemma_one_more_step(events, EventView::SoftBreak);
    lemma_one_more_step(events, EventView::HardBreak);
    let output = rendered(events).output;
    assert(output + "\n"@ =~= output.push('\n'));
}

/// Inside a quote every line is marked: a line break outside of code begins the next line with the
/// mark, and so does a text that begins a line.
pub proof fn law_text_in_a_quote_is_quoted(events: Seq<EventView>, text: Seq<char>)
    requires
        quotes_nest(events),
        quotes_begun(events) > quotes_ended(events),
    ensures
        !rendered(events).in_code_block ==> rendered(events.push(EventView::SoftBreak)).output
            == rendered(events).output + "\n"@ + "&gt; "@,
        !rendered(events).in_code_block ==> rendered(events.push(EventView::HardBreak)).output
            == rendered(events).output + "\n"@ + "&gt; "@,
        rendered(events).output.len() > 0 && rendered(events).output.last() == '\n' ==> rendered(
            events.push(EventView::Text(text)),
        ).output == rendered(events).output + "&gt; "@ + escaped(text),
        rendered(events).output.len() > 0 && rendered(events).output.last() != '\n' ==> rendered(
            events.push(EventView::Text(text)),
        ).output == rendered(events).output + escaped(text),
{
    law_open_quotes_are_those_not_ended(events);
    lemma_one_more_step(events, EventView::Text(text));
    lemma_one_more_step(events, EventView::SoftBreak);
    lemma_one_more_step(events, EventView::HardBreak);
    let output = rendered(events).output;
    assert(output + ("\n"@ + "&gt; "@) =~= output + "\n"@ + "&gt; "@);
    assert(output + ("&gt; "@ + escaped(text)) =~= output + "&gt; "@ + escaped(text));
}

/// A quote begins on a line of its own, with the mark.
pub proof fn law_quote_begins_on_a_line_of_its_own(events: Seq<EventView>)
    ensures
        ({
            let before = rendered(events).output;
            let after = rendered(events.push(EventView::Start(TagView::BlockQuote))).output;
            if before.len() == 0 || before.last() == '\n' {
                after == before + "&gt; "@
            } else {
                after == before.push('\n') + "&gt; "@
            }
        }),
{
    lemma_one_more_step(events, EventView::Start(TagView::BlockQuote));
}

proof fn lemma_one_more_step(events: Seq<EventView>, event: EventView)
    ensures
        rendered(events.push(event)) == rendered(events).step(event),
{
    assert(events.push(event).drop_last() =~= events);
}

pub open spec fn begins_code(event: EventView) -> bool {
    event == EventView::Start(TagView::IndentedCode) || (event is Start
        && event->Start_0 is FencedCode)
}

/// A code block lasts from its beginning to its end.
pub proof fn law_code_block_lasts_until_it_ends(events: Seq<EventView>)
    ensures
        rendered(events).in_code_block == (exists|i: int|
            0 <= i < events.len() && begins_code(#[trigger] events[i]) && forall|j: int|
                i < j < events.len() ==> #[trigger] events[j] != EventView::End(
                    MarkdownTagEnd::CodeBlock,
                )),
    decreases events.len(),
{
    if events.len() > 0 {
        let before = events.drop_last();
        let last = events.last();
        law_code_block_lasts_until_it_ends(before);
        assert forall|i: int| 0 <= i < before.len() implies before[i] == events[i] by {}
        assert(events[events.len() - 1] == last);
        if rendered(events).in_code_block {
            if begins_code(last) {
                assert(begins_code(events[events.len() - 1]));
            } else {
                let i = choose|i: int|
                    0 <= i < before.len() && begins_code(#[trigger] before[i]) && forall|j: int|
                        i < j < before.len() ==> #[trigger] before[j] != EventView::End(
                            MarkdownTagEnd::CodeBlock,
                        );
                assert(begins_code(events[i]));
                assert forall|j: int| i < j < events.len() implies #[trigger] events[j]
                    != EventView::End(MarkdownTagEnd::CodeBlock) by {
                    if j < before.len() {
                        assert(before[j] == events[j]);
                    }
                }
            }
        } else if exists|i: int|
            0 <= i < events.len() && begins_code(#[trigger] events[i]) && forall|j: int|
                i < j < events.len() ==> #[trigger] events[j] != EventView::End(
                    MarkdownTagEnd::CodeBlock,
                ) {
            let i = choose|i: int|
                0 <= i < events.len() && begins_code(#[trigger] events[i]) && forall|j: int|
                    i < j < events.len() ==> #[trigger] events[j] != EventView::End(
                        MarkdownTagEnd::CodeBlock,
                    );
            assert(i < before.len());
            assert(begins_code(before[i]));
            assert(forall|j: int|
                i < j < before.len() ==> #[trigger] before[j] != EventView::End(
                    MarkdownTagEnd::CodeBlock,
                ));
        }
    }
}

/// How many list items the steps begin.
pub open spec fn items_begun(events: Seq<EventView>) -> nat {
    events.filter(|event: EventView| event == EventView::Start(TagView::Item)).len()
}

proof fn lemma_list_goes_on(events: Seq<EventView>, first: Option<u64>, inner: Seq<EventView>)
    requires
        forall|i: int|
            0 <= i < inner.len() ==> !(#[trigger] inner[i] is Start
                && inner[i]->Start_0 is List),
        first is Some ==> first->0 + items_begun(inner) <= u64::MAX,
    ensures
        ({
            let lists = rendered(events.push(EventView::Start(TagView::List(first))) + inner).lists;
            &&& lists.len() == rendered(events).lists.len() + 1
            &&& lists.last().ordered == (first is Some)
            &&& first is Some ==> lists.last().next_index == first->0 + items_begun(inner)
        }),
    decreases inner.len(),
{
    reveal(Seq::filter);
    let begun = events.push(EventView::Start(TagView::List(first)));
    if inner.len() == 0 {
        lemma_one_more_step(events, EventView::Start(TagView::List(first)));
        assert(begun + inner =~= begun);
    } else {
        let before = inner.drop_last();
        assert forall|i: int| 0 <= i < before.len() implies !(#[trigger] before[i] is Start
            && before[i]->Start_0 is List) by {
            assert(before[i] == inner[i]);
        }
        lemma_list_goes_on(events, first, before);
        assert(inner[inner.len() - 1] == inner.last());
        lemma_one_more_step(begun + before, inner.last());
        assert((begun + before).push(inner.last()) =~= begun + inner);
    }
}

/// The items of an ordered list are numbered in turn from the number of the first; those of another
/// list get a bullet. Each begins on a line of its own, two spaces deeper for each list that was
/// begun before.
pub proof fn law_list_items_are_numbered_in_turn(
    events: Seq<EventView>,
    first: Option<u64>,
    inner: Seq<EventView>,
)
    requires
        forall|i: int|
            0 <= i < inner.len() ==> !(#[trigger] inner[i] is Start
                && inner[i]->Start_0 is List),
        first is Some ==> first->0 + items_begun(inner) <= u64::MAX,
    ensures
        ({
            let so_far = events.push(EventView::Start(TagView::List(first))) + inner;
            let output = rendered(so_far.push(EventView::Start(TagView::Item))).output;
            let mark = match first {
                Some(n) => decimal((n + items_begun(inner)) as nat) + ". "@,
                None => "• "@,
            };
            let shown = rendered(so_far).output;
            let line = if shown.len() == 0 || shown.last() == '\n' {
                shown
            } else {
                shown.push('\n')
            };
            output == line + Seq::new(2 * rendered(events).lists.len(), |i: int| ' ') + mark
        }),
{
    let so_far = events.push(EventView::Start(TagView::List(first))) + inner;
    lemma_list_goes_on(events, first, inner);
    lemma_one_more_step(so_far, EventView::Start(TagView::Item));
    lemma_indentation(rendered(events).lists.len());
}

proof fn lemma_indentation(levels: nat)
    ensures
        indentation(levels) == Seq::new(2 * levels, |i: int| ' '),
    decreases levels,
{
    reveal_strlit("  ");
    if levels > 0 {
        lemma_indentation((levels - 1) as nat);
    }
    assert(indentation(levels) =~= Seq::new(2 * levels, |i: int| ' '));
}

/// What a text becomes between the beginning and the end of an element.
pub open spec fn enclosed(
    events: Seq<EventView>,
    tag: TagView,
    text: Seq<char>,
    end: MarkdownTagEnd,
) -> Seq<char> {
    rendered(
        events.push(EventView::Start(tag)).push(EventView::Text(text)).push(EventView::End(end)),
    ).output
}

proof fn lemma_enclosed(
    events: Seq<EventView>,
    tag: TagView,
    text: Seq<char>,
    end: MarkdownTagEnd,
    opened: Seq<char>,
    closed: Seq<char>,
)
    requires
        rendered(events).opening(tag).output == rendered(events).output + opened,
        opened.len() > 0,
        opened.last() != '\n',
        forall|state: RenderState| (#[trigger] state.closing(end)).output == state.output + closed,
    ensures
        enclosed(events, tag, text, end) == rendered(events).output + opened + escaped(text)
            + closed,
{
    let one = events.push(EventView::Start(tag));
    let two = one.push(EventView::Text(text));
    lemma_one_more_step(events, EventView::Start(tag));
    lemma_one_more_step(one, EventView::Text(text));
    lemma_one_more_step(two, EventView::End(end));
    assert(rendered(one).output.last() == opened.last());
}

/// Each element that the chat knows encloses its text in the tags that mean the same: bold for
/// strong text and headings, italics for emphasis, a strike through for deleted text, and a link to
/// the target.
pub proof fn law_elements_enclose_their_text(
    events: Seq<EventView>,
    text: Seq<char>,
    target: Seq<char>,
)
    ensures
        enclosed(events, TagView::Strong, text, MarkdownTagEnd::Strong) == rendered(events).output
            + "<b>"@ + escaped(text) + "</b>"@,
        enclosed(events, TagView::Emphasis, text, MarkdownTagEnd::Emphasis) == rendered(
            events,
        ).output + "<i>"@ + escaped(text) + "</i>"@,
        enclosed(events, TagView::Strikethrough, text, MarkdownTagEnd::Strikethrough) == rendered(
            events,
        ).output + "<s>"@ + escaped(text) + "</s>"@,
        enclosed(events, TagView::Heading, text, MarkdownTagEnd::Heading) == rendered(events).output
            + "<b>"@ + escaped(text) + "</b>\n\n"@,
        enclosed(events, TagView::Link(target), text, MarkdownTagEnd::Link) == rendered(
            events,
        ).output + ("<a href=\""@ + escaped(target) + "\">"@) + escaped(text) + "</a>"@,
{
    reveal_strlit("<b>");
    reveal_strlit("<i>");
    reveal_strlit("<s>");
    reveal_strlit("\">");
    lemma_enclosed(events, TagView::Strong, text, MarkdownTagEnd::Strong, "<b>"@, "</b>"@);
    lemma_enclosed(events, TagView::Emphasis, text, MarkdownTagEnd::Emphasis, "<i>"@, "</i>"@);
    lemma_enclosed(
        events,
        TagView::Strikethrough,
        text,
        MarkdownTagEnd::Strikethrough,
        "<s>"@,
        "</s>"@,
    );
    lemma_enclosed(events, TagView::Heading, text, MarkdownTagEnd::Heading, "<b>"@, "</b>\n\n"@);
    lemma_enclosed(
        events,
        TagView::Link(target),
        text,
        MarkdownTagEnd::Link,
        "<a href=\""@ + escaped(target) + "\">"@,
        "</a>"@,
    );
}

/// A code block is shown as it was written, in a block of its own; the language of a fenced one
/// stands on its first line.
pub proof fn law_code_is_shown_as_a_block(
    events: Seq<EventView>,
    language: Seq<char>,
    text: Seq<char>,
)
    requires
        language.len() > 0,
        rendered(events).quotes == 0,
    ensures
        ({
            let shown = rendered(events).output;
            let line = if shown.len() == 0 || shown.last() == '\n' {
                shown
            } else {
                shown.push('\n')
            };
            let end = MarkdownTagEnd::CodeBlock;
            &&& enclosed(events, TagView::IndentedCode, text, end) == line + "<pre>"@ + escaped(text)
                + "</pre>\n\n"@
            &&& enclosed(events, TagView::FencedCode(Seq::empty()), text, end) == line + "<pre>"@
                + escaped(text) + "</pre>\n\n"@
            &&& enclosed(events, TagView::FencedCode(language), text, end) == line + "<pre>"@
                + escaped(language) + "\n"@ + escaped(text) + "</pre>\n\n"@
        }),
{
    lemma_entities();
    let line = on_new_line(rendered(events).output);
    lemma_three_steps(events, TagView::IndentedCode, text, MarkdownTagEnd::CodeBlock);
    lemma_three_steps(events, TagView::FencedCode(Seq::empty()), text, MarkdownTagEnd::CodeBlock);
    lemma_three_steps(events, TagView::FencedCode(language), text, MarkdownTagEnd::CodeBlock);
    assert(escaped(Seq::<char>::empty()).len() == 0);
    assert(line + "<pre>"@ + Seq::<char>::empty() =~= line + "<pre>"@);
    assert(escaped(language).len() > 0);
    assert(line + "<pre>"@ + (escaped(language) + "\n"@) =~= line + "<pre>"@ + escaped(language)
        + "\n"@);
}

proof fn lemma_three_steps(
    events: Seq<EventView>,
    tag: TagView,
    text: Seq<char>,
    end: MarkdownTagEnd,
)
    ensures
        enclosed(events, tag, text, end) == rendered(events).opening(tag).step(
            EventView::Text(text),
        ).closing(end).output,
{
    let one = events.push(EventView::Start(tag));
    let two = one.push(EventView::Text(text));
    lemma_one_more_step(events, EventView::Start(tag));
    lemma_one_more_step(one, EventView::Text(text));
    lemma_one_more_step(two, EventView::End(end));
}

proof fn lemma_entities()
    ensures
        forall|c: char| (#[trigger] entity(c)).len() > 0,
{
    reveal_strlit("&amp;");
    reveal_strlit("&lt;");
    reveal_strlit("&gt;");
    reveal_strlit("&quot;");
}

/// What is written is shown: every step that carries a text ends the output with that text,
/// escaped, and inline code stands between its tags. No step takes anything back.
pub proof fn law_every_text_is_shown(events: Seq<EventView>, event: EventView, text: Seq<char>)
    ensures
        rendered(events).output.is_prefix_of(rendered(events.push(event)).output),
        event == EventView::Text(text) || event == EventView::Html(text) || event
            == EventView::InlineHtml(text) || event == EventView::FootnoteReference(text) || event
            == EventView::InlineMath(text) || event == EventView::DisplayMath(text)
            ==> escaped(text).is_suffix_of(rendered(events.push(event)).output),
        event == EventView::Html(text) || event == EventView::InlineHtml(text) ==> rendered(
            events.push(event),
        ).output == rendered(events).output + escaped(text),
        event == EventView::Code(text) ==> rendered(events.push(event)).output == rendered(
            events,
        ).output + "<code>"@ + escaped(text) + "</code>"@,
{
    lemma_one_more_step(events, event);
    let before = rendered(events).output;
    let after = rendered(events.push(event)).output;
    assert(before + ("<code>"@ + escaped(text) + "</code>"@) =~= before + "<code>"@ + escaped(text)
        + "</code>"@);
    assert(after.take(before.len() as int) =~= before);
    assert(before + ("&gt; "@ + escaped(text)) =~= before + "&gt; "@ + escaped(text));
}

/// A paragraph and a quote are followed by an empty line, a list and an item by a line break.
pub proof fn law_blocks_are_set_apart(events: Seq<EventView>)
    ensures
        rendered(events.push(EventView::End(MarkdownTagEnd::Paragraph))).output == rendered(
            events,
        ).output + "\n\n"@,
        rendered(events.push(EventView::End(MarkdownTagEnd::BlockQuote))).output == rendered(
            events,
        ).output + "\n\n"@,
        rendered(events.push(EventView::End(MarkdownTagEnd::Item))).output == rendered(
            events,
        ).output + "\n"@,
        rendered(events.push(EventView::End(MarkdownTagEnd::List))).output == rendered(
            events,
        ).output + "\n"@,
{
    lemma_one_more_step(events, EventView::End(MarkdownTagEnd::Paragraph));
    lemma_one_more_step(events, EventView::End(MarkdownTagEnd::BlockQuote));
    lemma_one_more_step(events, EventView::End(MarkdownTagEnd::Item));
    lemma_one_more_step(events, EventView::End(MarkdownTagEnd::List));
}

/// A text without markup characters is shown letter for letter, and each markup character as the
/// entity that stands for it.
pub proof fn law_escaping_touches_only_markup(before: Seq<char>, after: Seq<char>)
    requires
        forall|i: int|
            0 <= i < before.len() ==> #[trigger] before[i] != '&' && before[i] != '<' && before[i]
                != '>' && before[i] != '"',
    ensures
        escaped(before) == before,
        escaped(before.push('&') + after) == before + "&amp;"@ + escaped(after),
        escaped(before.push('<') + after) == before + "&lt;"@ + escaped(after),
        escaped(before.push('>') + after) == before + "&gt;"@ + escaped(after),
        escaped(before.push('"') + after) == before + "&quot;"@ + escaped(after),
{
    lemma_plain_text_stays(before);
    lemma_escaped_around(before, '&', after);
    lemma_escaped_around(before, '<', after);
    lemma_escaped_around(before, '>', after);
    lemma_escaped_around(before, '"', after);
}

proof fn lemma_escaped_around(before: Seq<char>, c: char, after: Seq<char>)
    ensures
        escaped(before.push(c) + after) == escaped(before) + entity(c) + escaped(after),
{
    law_escaping_distributes(before.push(c), after);
    assert(before.push(c).drop_last() =~= before);
}

proof fn lemma_plain_text_stays(s: Seq<char>)
    requires
        forall|i: int|
            0 <= i < s.len() ==> #[trigger] s[i] != '&' && s[i] != '<' && s[i] != '>' && s[i] != '"',
    ensures
        escaped(s) == s,
    decreases s.len(),
{
    if s.len() > 0 {
        let before = s.drop_last();
        assert forall|i: int| 0 <= i < before.len() implies #[trigger] before[i] != '&' && before[i]
            != '<' && before[i] != '>' && before[i] != '"' by {
            assert(before[i] == s[i]);
        }
        lemma_plain_text_stays(before);
        assert(s[s.len() - 1] == s.last());
        assert(escaped(s) =~= s);
    }
}

#[derive(Debug, Clone, Copy, PartialEq, Eq, Structural)]
struct OpenList {
    ordered: bool,
    next_index: u64,
}

#[derive(Debug)]
struct Renderer {
    output: String,
    lists: Vec<OpenList>,
    quotes: usize,
    in_code_block: bool,
}

impl View for Renderer {
    type V = RenderState;

    closed spec fn view(&self) -> RenderState {
        RenderState {
            output: self.output@,
            lists: Seq::new(
                self.lists@.len(),
                |i: int|
                    ListState {
                        ordered: self.lists@[i].ordered,
                        next_index: self.lists@[i].next_index,
                    },
            ),
            quotes: self.quotes as nat,
            in_code_block: self.in_code_block,
        }
    }
}

impl Renderer {
    fn new() -> (r: Self)
        ensures
            r@ == RenderState::start(),
            r.quotes == 0,
    {
        let r = Renderer {
            output: String::new(),
            lists: Vec::new(),
            quotes: 0,
            in_code_block: false,
        };
        assert(r@.lists =~= RenderState::start().lists);
        r
    }

    fn add_text(&mut self, text: &str)
        ensures
            final(self)@ == old(self)@.adding(text@),
            final(self).quotes == old(self).quotes,
    {
        self.output.append(text);
        assert(self@.lists =~= old(self)@.lists);
    }

    fn start_line(&mut self)
        ensures
            final(self)@ == (RenderState { output: on_new_line(old(self)@.output), ..old(self)@ }),
            final(self).quotes == old(self).quotes,
            final(self).lists == old(self).lists,
            final(self).in_code_block == old(self).in_code_block,
    {
        let begun = ends_with_char(self.output.as_str(), '\n');
        if !begun && !self.output.as_str().is_empty() {
            self.output.push('\n');
        }
        assert(self@.lists =~= old(self)@.lists);
    }

    fn start_item(&mut self)
        ensures
            final(self)@ == old(self)@.opening_item(),
            final(self).quotes == old(self).quotes,
    {
        self.start_line();
        let count = self.lists.len();
        let levels: usize = if count == 0 {
            0
        } else {
            count - 1
        };
        let mut level: usize = 0;
        let ghost line = self.output@;
        assert(line + indentation(0) =~= line);
        while level < levels
            invariant
                level <= levels,
                self.output@ == line + indentation(level as nat),
                self.lists == old(self).lists,
                self.quotes == old(self).quotes,
                self.in_code_block == old(self).in_code_block,
            decreases levels - level,
        {
            self.output.append("  ");
            level += 1;
            assert(self.output@ =~= line + indentation(level as nat));
        }
        if count > 0 && self.lists[count - 1].ordered {
            let n = self.lists[count - 1].next_index;
            let mut number = render_u64(n);
            number.append(". ");
            self.output.append(number.as_str());
            let next: u64 = if n == u64::MAX {
                0
            } else {
                n + 1
            };
            self.lists.set(count - 1, OpenList { ordered: true, next_index: next });
            assert(self@.lists =~= old(self)@.opening_item().lists);
        } else {
            self.output.append("• ");
            assert(self@.lists =~= old(self)@.lists);
        }
    }

    fn start(&mut self, tag: &MarkdownTag)
        requires
            old(self).quotes < usize::MAX,
        ensures
            final(self)@ == old(self)@.opening(tag@),
            final(self).quotes <= old(self).quotes + 1,
    {
        match tag {
            MarkdownTag::Heading => self.add_text("<b>"),
            MarkdownTag::Emphasis => self.add_text("<i>"),
            MarkdownTag::Strong => self.add_text("<b>"),
            MarkdownTag::Strikethrough => self.add_text("<s>"),
            MarkdownTag::BlockQuote => {
                self.start_line();
                self.quotes = self.quotes + 1;
                self.output.append("&gt; ");
                assert(self@.lists =~= old(self)@.lists);
            },
            MarkdownTag::IndentedCode => {
                self.in_code_block = true;
                self.start_line();
                self.output.append("<pre>");
                assert(self@.lists =~= old(self)@.lists);
            },
            MarkdownTag::FencedCode(language) => {
                self.in_code_block = true;
                self.start_line();
                self.output.append("<pre>");
                let mut shown = escape_telegram_html(language.as_str());
                let ghost line = self.output@;
                if !shown.as_str().is_empty() {
                    shown.append("\n");
                    self.output.append(shown.as_str());
                } else {
                    assert(line =~= line + Seq::<char>::empty());
                }
                assert(self@.lists =~= old(self)@.lists);
            },
            MarkdownTag::List(first) => {
                let list = match first {
                    Some(n) => OpenList { ordered: true, next_index: *n },
                    None => OpenList { ordered: false, next_index: 1 },
                };
                self.lists.push(list);
                assert(self@.lists =~= old(self)@.opening(tag@).lists);
            },
            MarkdownTag::Item => self.start_item(),
            MarkdownTag::Link(target) => {
                let mut shown = "<a href=\"".to_owned();
                shown.append(escape_telegram_html(target.as_str()).as_str());
                shown.append("\">");
                self.add_text(shown.as_str());
            },
            MarkdownTag::Paragraph => {},
            _ => {},
        }
    }

    fn end(&mut self, tag: MarkdownTagEnd)
        ensures
            final(self)@ == old(self)@.closing(tag),
            final(self).quotes <= old(self).quotes,
    {
        match tag {
            MarkdownTagEnd::Paragraph => self.add_text("\n\n"),
            MarkdownTagEnd::Heading => self.add_text("</b>\n\n"),
            MarkdownTagEnd::Emphasis => self.add_text("</i>"),
            MarkdownTagEnd::Strong => self.add_text("</b>"),
            MarkdownTagEnd::Strikethrough => self.add_text("</s>"),
            MarkdownTagEnd::BlockQuote => {
                if self.quotes > 0 {
                    self.quotes = self.quotes - 1;
                }
                self.output.append("\n\n");
                assert(self@.lists =~= old(self)@.lists);
            },
            MarkdownTagEnd::CodeBlock => {
                self.in_code_block = false;
                self.output.append("</pre>\n\n");
                assert(self@.lists =~= old(self)@.lists);
            },
            MarkdownTagEnd::List => self.add_text("\n"),
            MarkdownTagEnd::Item => self.add_text("\n"),
            MarkdownTagEnd::Link => self.add_text("</a>"),
            _ => {},
        }
    }

    fn add_escaped(&mut self, text: &str)
        ensures
            final(self)@ == old(self)@.adding(escaped(text@)),
            final(self).quotes == old(self).quotes,
    {
        let shown = escape_telegram_html(text);
        self.add_text(shown.as_str());
    }

    fn take_step(&mut self, event: &MarkdownEvent)
        requires
            old(self).quotes < usize::MAX,
        ensures
            final(self)@ == old(self)@.step(event@),
            final(self).quotes <= old(self).quotes + 1,
    {
        match event {
            MarkdownEvent::Start(tag) => self.start(tag),
            MarkdownEvent::End(tag) => self.end(*tag),
            MarkdownEvent::Text(text) => {
                if self.quotes > 0 && ends_with_char(self.output.as_str(), '\n') {
                    let mut shown = "&gt; ".to_owned();
                    shown.append(escape_telegram_html(text.as_str()).as_str());
                    self.add_text(shown.as_str());
                } else {
                    self.add_escaped(text.as_str());
                }
            },
            MarkdownEvent::Code(text) => {
                let mut shown = "<code>".to_owned();
                shown.append(escape_telegram_html(text.as_str()).as_str());
                shown.append("</code>");
                self.add_text(shown.as_str());
            },
            MarkdownEvent::SoftBreak | MarkdownEvent::HardBreak => {
                let mut shown = "\n".to_owned();
                if self.quotes > 0 && !self.in_code_block {
                    shown.append("&gt; ");
                }
                self.add_text(shown.as_str());
            },
            MarkdownEvent::Rule => self.add_text("\n────\n"),
            MarkdownEvent::Html(text) => self.add_escaped(text.as_str()),
            MarkdownEvent::InlineHtml(text) => self.add_escaped(text.as_str()),
            MarkdownEvent::FootnoteReference(text) => self.add_escaped(text.as_str()),
            MarkdownEvent::InlineMath(text) => self.add_escaped(text.as_str()),
            MarkdownEvent::DisplayMath(text) => self.add_escaped(text.as_str()),
            MarkdownEvent::TaskListMarker(checked) => {
                if *checked {
                    self.add_text("☑ ");
                } else {
                    self.add_text("☐ ");
                }
            },
        }
    }
}

/// The HTML for a document whose steps are known.
pub fn render_markdown_events(events: &Vec<MarkdownEvent>) -> (r: String)
    ensures
        r@ == telegram_html(event_views(events@)),
{
    let ghost all = event_views(events@);
    let mut renderer = Renderer::new();
    let mut i: usize = 0;
    while i < events.len()
        invariant
            i <= events@.len(),
            all == event_views(events@),
            renderer.quotes <= i,
            renderer@ == rendered(all.take(i as int)),
        decreases events@.len() - i,
    {
        assert(all.take(i + 1).drop_last() == all.take(i as int));
        renderer.take_step(&events[i]);
        i += 1;
    }
    assert(all.take(i as int) == all);
    trim(renderer.output.as_str()).to_owned()
}

/// The HTML that a Markdown text is shown as.
pub fn render_markdown_to_telegram_html(markdown: &str) -> (r: String)
    ensures
        r@ == telegram_html(markdown_steps(markdown@)),
{
    let events = markdown_events(markdown);
    render_markdown_events(&events)
}

/// A task shows whether it is done, and a rule is a line of its own.
pub proof fn law_marks_are_shown(events: Seq<EventView>)
    ensures
        rendered(events.push(EventView::TaskListMarker(true))).output == rendered(events).output
            + seq!['☑', ' '],
        rendered(events.push(EventView::TaskListMarker(false))).output == rendered(events).output
            + seq!['☐', ' '],
        rendered(events.push(EventView::Rule)).output == rendered(events).output + seq![
            '\n',
            '─',
            '─',
            '─',
            '─',
            '\n',
        ],
{
    reveal_strlit("☑ ");
    reveal_strlit("☐ ");
    reveal_strlit("\n────\n");
    lemma_one_more_step(events, EventView::TaskListMarker(true));
    lemma_one_more_step(events, EventView::TaskListMarker(false));
    lemma_one_more_step(events, EventView::Rule);
    assert("☑ "@ =~= seq!['☑', ' ']);
    assert("☐ "@ =~= seq!['☐', ' ']);
    assert("\n────\n"@ =~= seq!['\n', '─', '─', '─', '─', '\n']);
}

/// The beginning of a paragraph adds nothing, and neither does an element that the chat does not
/// know; what is shown of a document is what was rendered, without the space around it.
pub proof fn law_unknown_elements_leave_no_trace(events: Seq<EventView>, tag: TagView)
    requires
        !(tag is Heading),
        !(tag is Emphasis),
        !(tag is Strong),
        !(tag is Strikethrough),
        !(tag is BlockQuote),
        !(tag is IndentedCode),
        !(tag is FencedCode),
        !(tag is Item),
        !(tag is Link),
    ensures
        rendered(events.push(EventView::Start(tag))).output == rendered(events).output,
        telegram_html(events) == trimmed(rendered(events).output),
{
    lemma_one_more_step(events, EventView::Start(tag));
}

/// Inside a code block a line break is a line break, in a quote as well.
pub proof fn law_code_keeps_its_lines(events: Seq<EventView>)
    requires
        exists|i: int|
            0 <= i < events.len() && begins_code(#[trigger] events[i]) && forall|j: int|
                i < j < events.len() ==> #[trigger] events[j] != EventView::End(
                    MarkdownTagEnd::CodeBlock,
                ),
    ensures
        rendered(events.push(EventView::SoftBreak)).output == rendered(events).output.push('\n'),
        rendered(events.push(EventView::HardBreak)).output == rendered(events).output.push('\n'),
{
    law_code_block_lasts_until_it_ends(events);
    lemma_one_more_step(events, EventView::SoftBreak);
    lemma_one_more_step(events, EventView::HardBreak);
    reveal_strlit("\n");
    assert(rendered(events).output + "\n"@ =~= rendered(events).output.push('\n'));
}

proof fn lemma_no_list(events: Seq<EventView>)
    requires
        forall|i: int|
            0 <= i < events.len() ==> !(#[trigger] events[i] is Start
                && events[i]->Start_0 is List),
    ensures
        rendered(events).lists.len() == 0,
    decreases events.len(),
{
    if events.len() > 0 {
        let before = events.drop_last();
        assert forall|i: int| 0 <= i < before.len() implies !(#[trigger] before[i] is Start
            && before[i]->Start_0 is List) by {
            assert(before[i] == events[i]);
        }
        lemma_no_list(before);
        assert(events[events.len() - 1] == events.last());
    }
}

/// An item outside of any list gets a bullet at the beginning of its line.
pub proof fn law_item_without_a_list_gets_a_bullet(events: Seq<EventView>)
    requires
        forall|i: int|
            0 <= i < events.len() ==> !(#[trigger] events[i] is Start
                && events[i]->Start_0 is List),
    ensures
        ({
            let shown = rendered(events).output;
            let line = if shown.len() == 0 || shown.last() == '\n' {
                shown
            } else {
                shown.push('\n')
            };
            rendered(events.push(EventView::Start(TagView::Item))).output == line + "• "@
        }),
{
    lemma_no_list(events);
    lemma_one_more_step(events, EventView::Start(TagView::Item));
    let line = on_new_line(rendered(events).output);
    assert(line + indentation(0) =~= line);
}

} // verus!
