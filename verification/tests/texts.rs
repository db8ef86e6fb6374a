use note_embedding::delivery::{
    begin_delivery, continue_delivery, document_content, is_pdf_path, looks_like_markdown,
    looks_like_ordered_list, DeliveryStep,
};
use note_embedding::markdown::{
    escape_telegram_html, render_markdown_events, render_markdown_to_telegram_html, MarkdownEvent,
    MarkdownTag, MarkdownTagEnd,
};
use note_embedding::numbers::{parse_i64, parse_u64, parse_usize, render_i64, render_u64};
use note_embedding::paths::{
    extension, file_name, file_stem, join_path, parent, paths_equal, starts_with_path,
};
use note_embedding::splitting::{slice_text, split_text_for_telegram};
use note_embedding::text::{
    clip, join, shorten, split, split_lines, split_words, to_ascii_lowercase, trim,
};
use note_embedding::ui::{paint, BOLD_GREEN};

fn s(text: &str) -> String {
    text.to_string()
}

#[test]
fn trims_all_white_space() {
    assert_eq!(trim(" \t\u{a0}a b\u{3000}\n"), "a b");
    assert_eq!(trim("   "), "");
}

#[test]
fn splits_lines_like_the_standard_library() {
    for text in ["", "a", "a\n", "a\r\nb", "\n\n", "a\n\nb\r", "x\r\n\r\n"] {
        let expected: Vec<String> = text.lines().map(|line| line.to_string()).collect();
        assert_eq!(split_lines(text), expected, "{text:?}");
    }
}

#[test]
fn splits_words_like_the_standard_library() {
    for text in ["", "  ", "a", " a  b\tc\n", "ü\u{2003}é"] {
        let expected: Vec<String> = text.split_whitespace().map(|word| word.to_string()).collect();
        assert_eq!(split_words(text), expected, "{text:?}");
    }
}

#[test]
fn splits_and_joins_at_a_separator() {
    assert_eq!(split("a:b::c", ':'), vec![s("a"), s("b"), s(""), s("c")]);
    assert_eq!(split("", ':'), vec![s("")]);
    assert_eq!(join(&vec![s("a"), s("b"), s("c")], ", "), "a, b, c");
    assert_eq!(join(&vec![], ", "), "");
}

#[test]
fn shortens_with_an_ellipsis() {
    assert_eq!(shorten("abcdef", 6), "abcdef");
    assert_eq!(shorten("abcdefg", 6), "abcdef...");
    assert_eq!(clip("äöü", 2), "äö");
    assert_eq!(to_ascii_lowercase("ÄBC"), "Äbc");
}

#[test]
fn numbers_read_back() {
    for number in [0, 7, 10, 4096, u64::MAX] {
        assert_eq!(render_u64(number), number.to_string());
        assert_eq!(parse_u64(&render_u64(number)), Some(number));
    }
    for number in [0, -1, 42, i64::MIN, i64::MAX] {
        assert_eq!(render_i64(number), number.to_string());
        assert_eq!(parse_i64(&render_i64(number)), Some(number));
    }
}

#[test]
fn numbers_parse_like_the_standard_library() {
    for text in ["", "+", "-", "+5", "-5", "005", "18446744073709551616", "9223372036854775808", "1 "] {
        assert_eq!(parse_u64(text), text.parse::<u64>().ok(), "{text:?}");
        assert_eq!(parse_i64(text), text.parse::<i64>().ok(), "{text:?}");
        assert_eq!(parse_usize(text), text.parse::<usize>().ok(), "{text:?}");
    }
}

#[test]
fn paths_behave_like_the_standard_library() {
    for text in [
        "", "/", "a", "a/b.txt", "/a/b/", ".hidden", "a/..", "x.tar.gz", "/a//b/./c", "a.", "..a",
    ] {
        let path = std::path::Path::new(text);
        let name = path.file_name().map(|name| name.to_str().unwrap().to_string());
        let stem = path.file_stem().map(|stem| stem.to_str().unwrap().to_string());
        let ending = path.extension().map(|ending| ending.to_str().unwrap().to_string());
        assert_eq!(file_name(text), name, "{text:?}");
        assert_eq!(file_stem(text), stem, "{text:?}");
        assert_eq!(extension(text), ending, "{text:?}");
        assert_eq!(
            parent(text),
            path.parent().map(|dir| dir.to_str().unwrap().to_string()),
            "{text:?}"
        );
    }
    assert!(paths_equal("/a//b/", "/a/b"));
    assert!(starts_with_path("/a/b/c", "/a/b"));
    assert!(!starts_with_path("/a/bc", "/a/b"));
    assert_eq!(join_path("/a", "b"), "/a/b");
    assert_eq!(join_path("/a", "/b"), "/b");
}

#[test]
fn slices_make_up_the_text() {
    let pieces = slice_text("abcdefg", 3);
    assert_eq!(pieces, vec![s("abc"), s("def"), s("g")]);
    assert_eq!(pieces.concat(), "abcdefg");
    assert_eq!(slice_text("", 3), Vec::<String>::new());
}

#[test]
fn splits_between_lines_where_possible() {
    assert_eq!(split_text_for_telegram("ab\ncd\nef", 5), vec![s("ab\ncd"), s("ef")]);
    assert_eq!(
        split_text_for_telegram("a\nbcdefgh\nij", 3),
        vec![s("a"), s("bcd"), s("efg"), s("h"), s("ij")]
    );
    assert_eq!(split_text_for_telegram("a\n\nb", 10), vec![s("a\n\nb")]);
    assert_eq!(split_text_for_telegram("", 10), Vec::<String>::new());
    assert_eq!(split_text_for_telegram("\n\n\n", 2), vec![s("\n\n")]);
}

#[test]
fn escapes_markup() {
    assert_eq!(
        escape_telegram_html("a < b && \"c\" > d"),
        "a &lt; b &amp;&amp; &quot;c&quot; &gt; d"
    );
}

#[test]
fn renders_headings_and_lists() {
    assert_eq!(
        render_markdown_to_telegram_html("# Title\n\n- one\n- two\n"),
        "<b>Title</b>\n\n• one\n• two"
    );
    assert_eq!(
        render_markdown_to_telegram_html("3. a\n4. b\n"),
        "3. a\n4. b"
    );
}

#[test]
fn renders_inline_markup() {
    assert_eq!(
        render_markdown_to_telegram_html("*a* **b** `c<d` [e](https://x.y/?a=\"b\")"),
        "<i>a</i> <b>b</b> <code>c&lt;d</code> <a href=\"https://x.y/?a=&quot;b&quot;\">e</a>"
    );
}

#[test]
fn renders_code_quotes_and_rules() {
    assert_eq!(
        render_markdown_to_telegram_html("```rust\nfn a() {}\n```"),
        "<pre>rust\nfn a() {}\n</pre>"
    );
    assert_eq!(render_markdown_to_telegram_html("> a\n> b"), "&gt; a\n&gt; b");
    assert_eq!(render_markdown_to_telegram_html("a\n\n---\n\nb"), "a\n\n\n────\nb");
}

#[test]
fn renders_given_steps() {
    let steps = vec![
        MarkdownEvent::Start(MarkdownTag::List(Some(9))),
        MarkdownEvent::Start(MarkdownTag::Item),
        MarkdownEvent::TaskListMarker(true),
        MarkdownEvent::Text(s("x")),
        MarkdownEvent::End(MarkdownTagEnd::Item),
        MarkdownEvent::Start(MarkdownTag::List(None)),
        MarkdownEvent::Start(MarkdownTag::Item),
        MarkdownEvent::TaskListMarker(false),
        MarkdownEvent::InlineHtml(s("<b>")),
    ];
    assert_eq!(render_markdown_events(&steps), "9. ☑ x\n  • ☐ &lt;b&gt;");
}

#[test]
fn recognises_markdown() {
    assert!(looks_like_markdown("a.MD", "plain"));
    assert!(looks_like_markdown("a.txt", "x\n  - item"));
    assert!(looks_like_markdown("a.txt", "see [here](there)"));
    assert!(!looks_like_markdown("a.txt", "plain\ntext"));
    let late = "x\n".repeat(20) + "# late";
    assert!(!looks_like_markdown("a.txt", &late));
    assert!(looks_like_ordered_list("12. x"));
    assert!(!looks_like_ordered_list("12.x"));
    assert!(!looks_like_ordered_list(". x"));
    assert!(is_pdf_path("/a/b.PDF"));
    assert!(!is_pdf_path("/a/b.pdf/c"));
}

#[test]
fn shows_documents_in_parts() {
    let empty = document_content("a.txt", " \n ");
    assert_eq!(empty.len(), 1);
    assert_eq!(empty[0].plain, "Document content is empty.");
    assert!(empty[0].html.is_none());

    let plain = document_content("a.txt", &"x".repeat(3800));
    assert_eq!(plain.len(), 2);
    assert_eq!(plain[0].plain, format!("Content:\n\n{}", "x".repeat(3790)));
    assert_eq!(plain[1].plain, "x".repeat(10));

    let markdown = document_content("a.md", "# Hi");
    assert_eq!(markdown.len(), 1);
    assert_eq!(markdown[0].html.as_deref(), Some("<b>Content</b>\n\n<b>Hi</b>"));
    assert_eq!(markdown[0].plain, "Content:\n\n# Hi");
}

#[test]
fn falls_back_to_plain_text() {
    let parts = document_content("a.md", "# Hi");
    let start = begin_delivery(&parts);
    assert_eq!(start.step, DeliveryStep::SendHtml);
    let retry = continue_delivery(&parts, start, false);
    assert_eq!(retry.step, DeliveryStep::SendPlain);
    assert_eq!(retry.index, 0);
    assert_eq!(continue_delivery(&parts, retry, true).step, DeliveryStep::Finished);
    assert_eq!(continue_delivery(&parts, retry, false).step, DeliveryStep::Failed);
}

#[test]
fn paints_only_where_enabled() {
    assert_eq!(paint("[ok]", BOLD_GREEN, true), "\u{1b}[1m\u{1b}[32m[ok]\u{1b}[0m");
    assert_eq!(paint("[ok]", BOLD_GREEN, false), "[ok]");
    assert!(note_embedding::ui::ok_label().contains("[ok]"));
    assert!(note_embedding::ui::warn_label().contains("[warn]"));
    assert!(note_embedding::ui::fail_label().contains("[fail]"));
    assert!(note_embedding::ui::info_label().contains("[info]"));
    assert!(note_embedding::ui::path("/a").contains("/a"));
    assert!(note_embedding::ui::command("x").contains('x'));
    assert!(note_embedding::ui::value("5").contains('5'));
    assert!(note_embedding::ui::heading("h").contains('h'));
    assert!(note_embedding::ui::detail("d").contains('d'));
}
