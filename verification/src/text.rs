//! Text as sequences of characters: trimming, searching, splitting and joining.

use vstd::prelude::*;

verus! {

/// `String::push` appends the given character to the end of the string.
pub assume_specification[ String::push ](text: &mut String, c: char)
    ensures
        final(text)@ == old(text)@.push(c),
;

/// The views of a sequence of strings.
pub open spec fn views(texts: Seq<String>) -> Seq<Seq<char>> {
    Seq::new(texts.len(), |i: int| texts[i]@)
}

/// The Unicode `White_Space` property.
pub open spec fn is_white(c: char) -> bool {
    let code = c as u32;
    ||| 0x9 <= code <= 0xd
    ||| code == 0x20
    ||| code == 0x85
    ||| code == 0xa0
    ||| code == 0x1680
    ||| 0x2000 <= code <= 0x200a
    ||| code == 0x2028
    ||| code == 0x2029
    ||| code == 0x202f
    ||| code == 0x205f
    ||| code == 0x3000
}

pub open spec fn is_digit(c: char) -> bool {
    '0' <= c <= '9'
}

pub open spec fn is_ascii_letter(c: char) -> bool {
    'a' <= c <= 'z' || 'A' <= c <= 'Z'
}

pub open spec fn is_ascii_alnum(c: char) -> bool {
    is_digit(c) || is_ascii_letter(c)
}

/// The ASCII lower case of one character; every other character is itself.
pub open spec fn lower_char(c: char) -> char {
    if 'A' <= c <= 'Z' {
        ((c as u8) + 32) as u8 as char
    } else {
        c
    }
}

/// The text with every ASCII capital replaced by its small letter.
pub open spec fn lowered(s: Seq<char>) -> Seq<char> {
    s.map_values(|c: char| lower_char(c))
}

/// The text without its leading white space.
pub open spec fn trimmed_start(s: Seq<char>) -> Seq<char>
    decreases s.len(),
{
    if s.len() > 0 && is_white(s.first()) {
        trimmed_start(s.drop_first())
    } else {
        s
    }
}

/// The text without its trailing white space.
pub open spec fn trimmed_end(s: Seq<char>) -> Seq<char>
    decreases s.len(),
{
    if s.len() > 0 && is_white(s.last()) {
        trimmed_end(s.drop_last())
    } else {
        s
    }
}

/// The text without white space at either end.
pub open spec fn trimmed(s: Seq<char>) -> Seq<char> {
    trimmed_end(trimmed_start(s))
}

/// The text without its leading occurrences of `c`.
pub open spec fn without_leading(s: Seq<char>, c: char) -> Seq<char>
    decreases s.len(),
{
    if s.len() > 0 && s.first() == c {
        without_leading(s.drop_first(), c)
    } else {
        s
    }
}

/// The text without its trailing occurrences of `c`.
pub open spec fn without_trailing(s: Seq<char>, c: char) -> Seq<char>
    decreases s.len(),
{
    if s.len() > 0 && s.last() == c {
        without_trailing(s.drop_last(), c)
    } else {
        s
    }
}

pub open spec fn has_prefix(s: Seq<char>, prefix: Seq<char>) -> bool {
    prefix.len() <= s.len() && s.take(prefix.len() as int) == prefix
}

/// `needle` stands in `s` at position `at`.
pub open spec fn stands_at(s: Seq<char>, needle: Seq<char>, at: int) -> bool {
    0 <= at && at + needle.len() <= s.len() && s.subrange(at, at + needle.len()) == needle
}

pub open spec fn occurs_in(s: Seq<char>, needle: Seq<char>) -> bool {
    exists|at: int| stands_at(s, needle, at)
}

/// At most the first `limit` characters.
pub open spec fn clipped(s: Seq<char>, limit: int) -> Seq<char> {
    if s.len() <= limit {
        s
    } else {
        s.take(limit)
    }
}

/// At most the first `limit` characters, with dots behind them where something was cut.
pub open spec fn shortened(s: Seq<char>, limit: int) -> Seq<char> {
    if s.len() <= limit {
        s
    } else {
        s.take(limit) + "..."@
    }
}

/// The text with each `c` replaced by `by`.
pub open spec fn replaced(s: Seq<char>, c: char, by: Seq<char>) -> Seq<char>
    decreases s.len(),
{
    if s.len() == 0 {
        Seq::empty()
    } else {
        replaced(s.drop_last(), c, by) + (if s.last() == c {
            by
        } else {
            seq![s.last()]
        })
    }
}

/// The parts, in order, with `separator` between two neighbours.
pub open spec fn joined(parts: Seq<Seq<char>>, separator: Seq<char>) -> Seq<char>
    decreases parts.len(),
{
    if parts.len() == 0 {
        Seq::empty()
    } else if parts.len() == 1 {
        parts[0]
    } else {
        joined(parts.drop_last(), separator) + separator + parts.last()
    }
}

/// The pieces of the text between occurrences of `separator`; one piece at least.
pub open spec fn pieces(s: Seq<char>, separator: char) -> Seq<Seq<char>>
    decreases s.len(),
{
    if s.len() == 0 {
        seq![Seq::empty()]
    } else {
        let before = pieces(s.drop_last(), separator);
        if s.last() == separator {
            before.push(Seq::empty())
        } else {
            before.drop_last().push(before.last().push(s.last()))
        }
    }
}

/// The number of leading characters that are not `c`.
pub open spec fn run_without(s: Seq<char>, c: char) -> nat
    decreases s.len(),
{
    if s.len() == 0 || s.first() == c {
        0
    } else {
        1 + run_without(s.drop_first(), c)
    }
}

/// The number of leading characters that are not white space.
pub open spec fn word_length(s: Seq<char>) -> nat
    decreases s.len(),
{
    if s.len() == 0 || is_white(s.first()) {
        0
    } else {
        1 + word_length(s.drop_first())
    }
}

pub open spec fn without_final_return(line: Seq<char>) -> Seq<char> {
    if line.len() > 0 && line.last() == '\r' {
        line.drop_last()
    } else {
        line
    }
}

/// The lines of the text. A line ends at a line feed, or at a carriage return and a line feed;
/// after the last line the ending may be missing.
pub open spec fn lines(s: Seq<char>) -> Seq<Seq<char>>
    decreases s.len(),
{
    if s.len() == 0 {
        Seq::empty()
    } else {
        let n = run_without(s, '\n') as int;
        if n >= s.len() {
            seq![s]
        } else {
            seq![without_final_return(s.take(n))] + lines(s.skip(n + 1))
        }
    }
}

/// The runs of characters that are not white space.
pub open spec fn words(s: Seq<char>) -> Seq<Seq<char>>
    decreases s.len(),
{
    let start = trimmed_start(s);
    if start.len() == 0 {
        Seq::empty()
    } else {
        proof {
            lemma_trimmed_start(s);
            lemma_word_length(start);
        }
        let n = word_length(start) as int;
        seq![start.take(n)] + words(start.skip(n))
    }
}

pub proof fn lemma_trimmed_start(s: Seq<char>)
    ensures
        trimmed_start(s).len() <= s.len(),
        trimmed_start(s) == s.skip(s.len() - trimmed_start(s).len()),
        trimmed_start(s).len() > 0 ==> !is_white(trimmed_start(s).first()),
    decreases s.len(),
{
    if s.len() > 0 && is_white(s.first()) {
        let rest = s.drop_first();
        lemma_trimmed_start(rest);
        assert(rest.skip(rest.len() - trimmed_start(rest).len()) == s.skip(
            s.len() - trimmed_start(rest).len(),
        ));
    } else {
        assert(s.skip(0) == s);
    }
}

pub proof fn lemma_trimmed_end(s: Seq<char>)
    ensures
        trimmed_end(s).len() <= s.len(),
        trimmed_end(s) == s.take(trimmed_end(s).len() as int),
        trimmed_end(s).len() > 0 ==> !is_white(trimmed_end(s).last()),
    decreases s.len(),
{
    if s.len() > 0 && is_white(s.last()) {
        let rest = s.drop_last();
        lemma_trimmed_end(rest);
        assert(rest.take(trimmed_end(rest).len() as int) == s.take(trimmed_end(rest).len() as int));
    } else {
        assert(s.take(s.len() as int) == s);
    }
}

pub proof fn lemma_word_length(s: Seq<char>)
    ensures
        word_length(s) <= s.len(),
        s.len() > 0 && !is_white(s.first()) ==> word_length(s) > 0,
        forall|i: int| 0 <= i < word_length(s) ==> !is_white(#[trigger] s[i]),
        word_length(s) < s.len() ==> is_white(s[word_length(s) as int]),
    decreases s.len(),
{
    if s.len() > 0 && !is_white(s.first()) {
        let rest = s.drop_first();
        lemma_word_length(rest);
        assert forall|i: int| 0 <= i < word_length(s) implies !is_white(#[trigger] s[i]) by {
            if i > 0 {
                assert(s[i] == rest[i - 1]);
            }
        }
    }
}

pub proof fn lemma_run_without(s: Seq<char>, c: char)
    ensures
        run_without(s, c) <= s.len(),
        forall|i: int| 0 <= i < run_without(s, c) ==> #[trigger] s[i] != c,
        run_without(s, c) < s.len() ==> s[run_without(s, c) as int] == c,
    decreases s.len(),
{
    if s.len() > 0 && s.first() != c {
        let rest = s.drop_first();
        lemma_run_without(rest, c);
        assert forall|i: int| 0 <= i < run_without(s, c) implies #[trigger] s[i] != c by {
            if i > 0 {
                assert(s[i] == rest[i - 1]);
            }
        }
    }
}

/// The characters of `text`, in order.
pub fn chars_of(text: &str) -> (chars: Vec<char>)
    ensures
        chars@ == text@,
{
    let mut chars: Vec<char> = Vec::new();
    for c in iter: text.chars()
        invariant
            chars@ == text@.take(iter.index() as int),
            iter.seq() == text@,
    {
        chars.push(c);
    }
    assert(text@.take(text@.len() as int) == text@);
    chars
}

/// The text made of the characters from `start` up to `end`.
pub fn text_of(chars: &Vec<char>, start: usize, end: usize) -> (text: String)
    requires
        start <= end <= chars@.len(),
    ensures
        text@ == chars@.subrange(start as int, end as int),
{
    let mut text = String::new();
    let mut i: usize = start;
    while i < end
        invariant
            start <= i <= end <= chars@.len(),
            text@ == chars@.subrange(start as int, i as int),
        decreases end - i,
    {
        text.push(chars[i]);
        i += 1;
    }
    text
}

/// Whether two texts hold the same characters.
pub fn same(a: &str, b: &str) -> (r: bool)
    ensures
        r == (a@ == b@),
{
    let left: String = a.to_owned();
    let right: String = b.to_owned();
    left == right
}

pub fn is_white_space(c: char) -> (r: bool)
    ensures
        r == is_white(c),
{
    let code: u32 = c as u32;
    (0x9 <= code && code <= 0xd) || code == 0x20 || code == 0x85 || code == 0xa0 || code == 0x1680
        || (0x2000 <= code && code <= 0x200a) || code == 0x2028 || code == 0x2029 || code == 0x202f
        || code == 0x205f || code == 0x3000
}

pub fn is_decimal_digit(c: char) -> (r: bool)
    ensures
        r == is_digit(c),
{
    let code: u32 = c as u32;
    48 <= code && code <= 57
}

pub fn is_ascii_alphanumeric(c: char) -> (r: bool)
    ensures
        r == is_ascii_alnum(c),
{
    let code: u32 = c as u32;
    (48 <= code && code <= 57) || (97 <= code && code <= 122) || (65 <= code && code <= 90)
}

pub fn to_lower_char(c: char) -> (r: char)
    ensures
        r == lower_char(c),
{
    let code: u32 = c as u32;
    if 65 <= code && code <= 90 {
        ((c as u8) + 32) as char
    } else {
        c
    }
}

pub fn to_ascii_lowercase(text: &str) -> (r: String)
    ensures
        r@ == lowered(text@),
{
    let chars = chars_of(text);
    let mut r = String::new();
    let mut i: usize = 0;
    while i < chars.len()
        invariant
            i <= chars@.len(),
            chars@ == text@,
            r@ == lowered(text@.take(i as int)),
        decreases chars@.len() - i,
    {
        r.push(to_lower_char(chars[i]));
        i += 1;
        assert(lowered(text@.take(i as int)) == lowered(text@.take(i - 1)).push(
            lower_char(text@[i - 1]),
        ));
    }
    assert(text@.take(i as int) == text@);
    r
}

pub fn trim_start(text: &str) -> (r: &str)
    ensures
        r@ == trimmed_start(text@),
{
    let chars = chars_of(text);
    let mut i: usize = 0;
    assert(text@.skip(0) == text@);
    while i < chars.len() && is_white_space(chars[i])
        invariant
            i <= chars@.len(),
            chars@ == text@,
            trimmed_start(text@) == trimmed_start(text@.skip(i as int)),
        decreases chars@.len() - i,
    {
        assert(text@.skip(i as int).drop_first() == text@.skip(i + 1));
        i += 1;
    }
    text.substring_char(i, chars.len())
}

pub fn trim_end(text: &str) -> (r: &str)
    ensures
        r@ == trimmed_end(text@),
{
    let chars = chars_of(text);
    let mut i: usize = chars.len();
    assert(text@.take(text@.len() as int) == text@);
    while i > 0 && is_white_space(chars[i - 1])
        invariant
            i <= chars@.len(),
            chars@ == text@,
            trimmed_end(text@) == trimmed_end(text@.take(i as int)),
        decreases i,
    {
        assert(text@.take(i as int).drop_last() == text@.take(i - 1));
        i -= 1;
    }
    text.substring_char(0, i)
}

pub fn trim(text: &str) -> (r: &str)
    ensures
        r@ == trimmed(text@),
{
    trim_end(trim_start(text))
}

pub fn trim_leading(text: &str, c: char) -> (r: &str)
    ensures
        r@ == without_leading(text@, c),
{
    let chars = chars_of(text);
    let mut i: usize = 0;
    assert(text@.skip(0) == text@);
    while i < chars.len() && chars[i] == c
        invariant
            i <= chars@.len(),
            chars@ == text@,
            without_leading(text@, c) == without_leading(text@.skip(i as int), c),
        decreases chars@.len() - i,
    {
        assert(text@.skip(i as int).drop_first() == text@.skip(i + 1));
        i += 1;
    }
    text.substring_char(i, chars.len())
}

pub fn trim_trailing(text: &str, c: char) -> (r: &str)
    ensures
        r@ == without_trailing(text@, c),
{
    let chars = chars_of(text);
    let mut i: usize = chars.len();
    assert(text@.take(text@.len() as int) == text@);
    while i > 0 && chars[i - 1] == c
        invariant
            i <= chars@.len(),
            chars@ == text@,
            without_trailing(text@, c) == without_trailing(text@.take(i as int), c),
        decreases i,
    {
        assert(text@.take(i as int).drop_last() == text@.take(i - 1));
        i -= 1;
    }
    text.substring_char(0, i)
}

pub fn starts_with(text: &str, prefix: &str) -> (r: bool)
    ensures
        r == has_prefix(text@, prefix@),
{
    let n = prefix.unicode_len();
    if n > text.unicode_len() {
        return false;
    }
    same(text.substring_char(0, n), prefix)
}

/// What follows `prefix` in `text`, where `text` starts with it.
pub fn strip_prefix<'a>(text: &'a str, prefix: &str) -> (r: Option<&'a str>)
    ensures
        r is Some <==> has_prefix(text@, prefix@),
        r matches Some(rest) ==> rest@ == text@.skip(prefix@.len() as int),
{
    if starts_with(text, prefix) {
        Some(text.substring_char(prefix.unicode_len(), text.unicode_len()))
    } else {
        None
    }
}

/// Whether `needle` stands in `chars` at `at`.
fn matches_at(chars: &Vec<char>, needle: &Vec<char>, at: usize) -> (r: bool)
    requires
        at + needle@.len() <= chars@.len(),
    ensures
        r == stands_at(chars@, needle@, at as int),
{
    let total = chars.len();
    let mut i: usize = 0;
    while i < needle.len()
        invariant
            i <= needle@.len(),
            total == chars@.len(),
            at + needle@.len() <= total,
            forall|j: int| 0 <= j < i ==> chars@[at + j] == #[trigger] needle@[j],
        decreases needle@.len() - i,
    {
        if chars[at + i] != needle[i] {
            assert(chars@.subrange(at as int, at + needle@.len())[i as int] != needle@[i as int]);
            return false;
        }
        i += 1;
    }
    assert(chars@.subrange(at as int, at + needle@.len()) == needle@);
    true
}

pub fn contains(text: &str, needle: &str) -> (r: bool)
    ensures
        r == occurs_in(text@, needle@),
{
    let chars = chars_of(text);
    let wanted = chars_of(needle);
    if wanted.len() > chars.len() {
        return false;
    }
    let mut at: usize = 0;
    while at <= chars.len() - wanted.len()
        invariant
            chars@ == text@,
            wanted@ == needle@,
            wanted@.len() <= chars@.len(),
            at <= chars@.len() - wanted@.len() + 1,
            forall|k: int| 0 <= k < at ==> !stands_at(text@, needle@, k),
        decreases chars@.len() - wanted@.len() + 1 - at,
    {
        if matches_at(&chars, &wanted, at) {
            return true;
        }
        if at == chars.len() - wanted.len() {
            return false;
        }
        at += 1;
    }
    false
}

pub fn contains_char(text: &str, c: char) -> (r: bool)
    ensures
        r == text@.contains(c),
{
    let chars = chars_of(text);
    let mut i: usize = 0;
    while i < chars.len()
        invariant
            i <= chars@.len(),
            chars@ == text@,
            forall|j: int| 0 <= j < i ==> text@[j] != c,
        decreases chars@.len() - i,
    {
        if chars[i] == c {
            assert(text@[i as int] == c);
            return true;
        }
        i += 1;
    }
    false
}

/// Whether the first character of `text` is `c`.
pub fn starts_with_char(text: &str, c: char) -> (r: bool)
    ensures
        r == (text@.len() > 0 && text@.first() == c),
{
    text.unicode_len() > 0 && text.get_char(0) == c
}

/// Whether the last character of `text` is `c`.
pub fn ends_with_char(text: &str, c: char) -> (r: bool)
    ensures
        r == (text@.len() > 0 && text@.last() == c),
{
    let n = text.unicode_len();
    n > 0 && text.get_char(n - 1) == c
}

pub fn clip(text: &str, limit: usize) -> (r: String)
    ensures
        r@ == clipped(text@, limit as int),
{
    if text.unicode_len() <= limit {
        text.to_owned()
    } else {
        text.substring_char(0, limit).to_owned()
    }
}

pub fn shorten(text: &str, limit: usize) -> (r: String)
    ensures
        r@ == shortened(text@, limit as int),
{
    if text.unicode_len() <= limit {
        text.to_owned()
    } else {
        let mut r = text.substring_char(0, limit).to_owned();
        r.append("...");
        r
    }
}

pub fn join(parts: &Vec<String>, separator: &str) -> (r: String)
    ensures
        r@ == joined(views(parts@), separator@),
{
    let mut r = String::new();
    let ghost all = views(parts@);
    let mut i: usize = 0;
    while i < parts.len()
        invariant
            i <= parts@.len(),
            all == views(parts@),
            r@ == joined(all.take(i as int), separator@),
        decreases parts@.len() - i,
    {
        assert(all.take(i + 1).drop_last() == all.take(i as int));
        if i > 0 {
            r.append(separator);
        }
        r.append(parts[i].as_str());
        i += 1;
    }
    assert(all.take(i as int) == all);
    r
}

pub proof fn lemma_pieces_nonempty(s: Seq<char>, separator: char)
    ensures
        pieces(s, separator).len() > 0,
    decreases s.len(),
{
    if s.len() > 0 {
        lemma_pieces_nonempty(s.drop_last(), separator);
    }
}

pub proof fn lemma_pieces_append(s: Seq<char>, separator: char, tail: Seq<char>)
    requires
        !tail.contains(separator),
    ensures
        pieces(s.push(separator) + tail, separator) == pieces(s, separator).push(tail),
    decreases tail.len(),
{
    let whole = s.push(separator) + tail;
    if tail.len() == 0 {
        assert(whole.drop_last() =~= s);
        assert(tail =~= Seq::<char>::empty());
    } else {
        assert(tail.contains(tail.last()));
        assert forall|i: int| 0 <= i < tail.drop_last().len() implies tail.drop_last()[i]
            != separator by {
            assert(tail.contains(tail[i]));
        }
        lemma_pieces_append(s, separator, tail.drop_last());
        assert(whole.drop_last() =~= s.push(separator) + tail.drop_last());
        let before = pieces(s, separator).push(tail.drop_last());
        assert(before.drop_last() =~= pieces(s, separator));
        assert(tail.drop_last().push(tail.last()) =~= tail);
    }
}

pub proof fn lemma_one_piece(s: Seq<char>, separator: char)
    requires
        !s.contains(separator),
    ensures
        pieces(s, separator) == seq![s],
    decreases s.len(),
{
    if s.len() > 0 {
        assert(s.contains(s.last()));
        assert forall|i: int| 0 <= i < s.drop_last().len() implies s.drop_last()[i]
            != separator by {
            assert(s.contains(s[i]));
        }
        lemma_one_piece(s.drop_last(), separator);
        assert(s.drop_last().push(s.last()) =~= s);
        assert(seq![s.drop_last()].drop_last() =~= Seq::<Seq<char>>::empty());
        assert(Seq::<Seq<char>>::empty().push(s) =~= seq![s]);
    } else {
        assert(s =~= Seq::<char>::empty());
    }
}

pub fn split(text: &str, separator: char) -> (r: Vec<String>)
    ensures
        views(r@) == pieces(text@, separator),
{
    let chars = chars_of(text);
    let mut done: Vec<String> = Vec::new();
    let mut current = String::new();
    let mut i: usize = 0;
    while i < chars.len()
        invariant
            i <= chars@.len(),
            chars@ == text@,
            views(done@).push(current@) == pieces(text@.take(i as int), separator),
        decreases chars@.len() - i,
    {
        proof {
            assert(text@.take(i + 1).drop_last() == text@.take(i as int));
            assert(views(done@).push(current@).drop_last() == views(done@));
        }
        if chars[i] == separator {
            let ghost before = done@;
            let ghost part = current@;
            done.push(current);
            current = String::new();
            assert(views(done@) == views(before).push(part));
        } else {
            current.push(chars[i]);
        }
        i += 1;
    }
    assert(text@.take(i as int) == text@);
    let ghost before = done@;
    let ghost part = current@;
    done.push(current);
    assert(views(done@) == views(before).push(part));
    done
}

/// The index of the first `c` at or after `start`, or the length where there is none.
fn find_from(chars: &Vec<char>, c: char, start: usize) -> (r: usize)
    requires
        start <= chars@.len(),
    ensures
        start <= r <= chars@.len(),
        r - start == run_without(chars@.skip(start as int), c),
{
    let mut i: usize = start;
    while i < chars.len() && chars[i] != c
        invariant
            start <= i <= chars@.len(),
            run_without(chars@.skip(start as int), c) == (i - start) + run_without(
                chars@.skip(i as int),
                c,
            ),
        decreases chars@.len() - i,
    {
        assert(chars@.skip(i as int).drop_first() == chars@.skip(i + 1));
        i += 1;
    }
    i
}

pub fn split_lines(text: &str) -> (r: Vec<String>)
    ensures
        views(r@) == lines(text@),
{
    let chars = chars_of(text);
    let mut r: Vec<String> = Vec::new();
    let mut start: usize = 0;
    proof {
        assert(text@.skip(0) == text@);
        assert(views(r@) + lines(text@) == lines(text@));
    }
    while start < chars.len()
        invariant
            start <= chars@.len(),
            chars@ == text@,
            lines(text@) == views(r@) + lines(text@.skip(start as int)),
        decreases chars@.len() - start,
    {
        let end = find_from(&chars, '\n', start);
        let ghost before = r@;
        let ghost rest = text@.skip(start as int);
        proof {
            assert(rest.take(end - start) == text@.subrange(start as int, end as int));
        }
        if end == chars.len() {
            let line = text_of(&chars, start, end);
            assert(line@ == rest);
            assert(text@.skip(end as int).len() == 0);
            r.push(line);
            assert(views(r@) == views(before).push(rest));
            assert(lines(text@) == views(r@) + lines(text@.skip(end as int)));
            start = end;
        } else {
            let stop: usize = if end > start && chars[end - 1] == '\r' {
                end - 1
            } else {
                end
            };
            let line = text_of(&chars, start, stop);
            assert(line@ == without_final_return(rest.take(end - start)));
            assert(rest.skip(end - start + 1) == text@.skip(end + 1));
            let ghost shown = line@;
            r.push(line);
            assert(views(r@) == views(before).push(shown));
            assert(lines(rest) == seq![shown] + lines(text@.skip(end + 1)));
            assert(lines(text@) == views(r@) + lines(text@.skip(end + 1)));
            start = end + 1;
        }
    }
    assert(text@.skip(start as int).len() == 0);
    assert(views(r@) + lines(text@.skip(start as int)) == views(r@));
    r
}

pub fn split_words(text: &str) -> (r: Vec<String>)
    ensures
        views(r@) == words(text@),
{
    let chars = chars_of(text);
    let mut r: Vec<String> = Vec::new();
    let mut start: usize = 0;
    proof {
        assert(text@.skip(0) == text@);
        assert(views(r@) + words(text@) == words(text@));
    }
    loop
        invariant
            start <= chars@.len(),
            chars@ == text@,
            words(text@) == views(r@) + words(text@.skip(start as int)),
        decreases chars@.len() - start,
    {
        let ghost rest = text@.skip(start as int);
        let mut begin: usize = start;
        while begin < chars.len() && is_white_space(chars[begin])
            invariant
                start <= begin <= chars@.len(),
                chars@ == text@,
                trimmed_start(text@.skip(start as int)) == trimmed_start(text@.skip(begin as int)),
            decreases chars@.len() - begin,
        {
            assert(text@.skip(begin as int).drop_first() == text@.skip(begin + 1));
            begin += 1;
        }
        let ghost first = text@.skip(begin as int);
        assert(trimmed_start(rest) == first);
        if begin == chars.len() {
            assert(views(r@) + words(rest) == views(r@));
            return r;
        }
        let mut end: usize = begin;
        while end < chars.len() && !is_white_space(chars[end])
            invariant
                begin <= end <= chars@.len(),
                chars@ == text@,
                word_length(text@.skip(begin as int)) == (end - begin) + word_length(
                    text@.skip(end as int),
                ),
            decreases chars@.len() - end,
        {
            assert(text@.skip(end as int).drop_first() == text@.skip(end + 1));
            end += 1;
        }
        proof {
            lemma_word_length(first);
        }
        let word = text_of(&chars, begin, end);
        let ghost before = r@;
        let ghost shown = word@;
        assert(shown == first.take(end - begin));
        assert(first.skip(end - begin) == text@.skip(end as int));
        r.push(word);
        assert(views(r@) == views(before).push(shown));
        assert(words(rest) == seq![shown] + words(text@.skip(end as int)));
        assert(words(text@) == views(r@) + words(text@.skip(end as int)));
        start = end;
    }
}

// ---------------------------------------------------------------------------------------------
// Laws

pub open spec fn all_white(s: Seq<char>) -> bool {
    forall|i: int| 0 <= i < s.len() ==> is_white(#[trigger] s[i])
}

/// Nothing, or a text that neither begins nor ends with white space.
pub open spec fn bare(s: Seq<char>) -> bool {
    s.len() > 0 ==> !is_white(s.first()) && !is_white(s.last())
}

/// Trimming takes the white space off both ends, and nothing else.
pub proof fn law_trimming_takes_the_space_off_the_ends(
    lead: Seq<char>,
    core: Seq<char>,
    trail: Seq<char>,
)
    requires
        all_white(lead),
        bare(core),
        all_white(trail),
    ensures
        trimmed(lead + core + trail) == core,
        core.len() > 0 ==> trimmed_start(lead + core + trail) == core + trail,
{
    lemma_lead_goes(lead, core + trail);
    assert(lead + (core + trail) =~= lead + core + trail);
    if core.len() == 0 {
        lemma_lead_goes(trail, Seq::empty());
        assert(core + trail =~= trail);
        assert(trail + Seq::<char>::empty() =~= trail);
        assert(trimmed(lead + core + trail) =~= core);
    } else {
        assert((core + trail).first() == core.first());
        lemma_trail_goes(core, trail);
    }
}

proof fn lemma_lead_goes(lead: Seq<char>, rest: Seq<char>)
    requires
        all_white(lead),
    ensures
        trimmed_start(lead + rest) == trimmed_start(rest),
    decreases lead.len(),
{
    if lead.len() == 0 {
        assert(lead + rest =~= rest);
    } else {
        assert(is_white(lead[0]));
        assert((lead + rest).drop_first() =~= lead.drop_first() + rest);
        lemma_lead_goes(lead.drop_first(), rest);
    }
}

proof fn lemma_trail_goes(rest: Seq<char>, trail: Seq<char>)
    requires
        all_white(trail),
    ensures
        trimmed_end(rest + trail) == trimmed_end(rest),
    decreases trail.len(),
{
    if trail.len() == 0 {
        assert(rest + trail =~= rest);
    } else {
        assert(is_white(trail[trail.len() - 1]));
        assert((rest + trail).drop_last() =~= rest + trail.drop_last());
        lemma_trail_goes(rest, trail.drop_last());
    }
}

/// What is left after trimming has no white space at its ends, and trimming it again changes
/// nothing.
pub proof fn law_trimmed_text_is_bare(s: Seq<char>)
    ensures
        bare(trimmed(s)),
        trimmed(trimmed(s)) == trimmed(s),
        occurs_in(s, trimmed(s)),
{
    let start = trimmed_start(s);
    lemma_trimmed_start(s);
    lemma_trimmed_end(start);
    let core = trimmed(s);
    law_trimming_takes_the_space_off_the_ends(Seq::empty(), core, Seq::empty());
    assert(Seq::<char>::empty() + core + Seq::<char>::empty() =~= core);
    let at = s.len() - start.len();
    assert(s.subrange(at, at + core.len()) =~= core);
    assert(stands_at(s, core, at));
}

/// Only ASCII capitals change to lower case, each to the letter thirty-two places on; no capital is
/// left.
pub proof fn law_lower_case_changes_capitals_alone(s: Seq<char>, i: int)
    requires
        0 <= i < s.len(),
    ensures
        lowered(s).len() == s.len(),
        'A' <= s[i] <= 'Z' ==> lowered(s)[i] as int == s[i] as int + 32,
        !('A' <= s[i] <= 'Z') ==> lowered(s)[i] == s[i],
        !('A' <= lowered(s)[i] <= 'Z'),
        lowered(lowered(s)) == lowered(s),
{
    assert(lowered(lowered(s)) =~= lowered(s));
}

/// The pieces between separators make up the text again, and none holds a separator.
pub proof fn law_pieces_make_up_the_text(s: Seq<char>, separator: char)
    ensures
        joined(pieces(s, separator), seq![separator]) == s,
        forall|i: int|
            0 <= i < pieces(s, separator).len() ==> !(#[trigger] pieces(s, separator)[i]).contains(
                separator,
            ),
    decreases s.len(),
{
    if s.len() > 0 {
        let rest = s.drop_last();
        law_pieces_make_up_the_text(rest, separator);
        lemma_pieces_nonempty(rest, separator);
        let before = pieces(rest, separator);
        let all = pieces(s, separator);
        if s.last() == separator {
            assert(all.drop_last() =~= before);
            assert(joined(all, seq![separator]) =~= s);
        } else {
            assert(all.drop_last() =~= before.drop_last());
            let grown = before.last().push(s.last());
            assert(all.last() == grown);
            assert forall|k: int| 0 <= k < grown.len() implies grown[k] != separator by {
                if k < before.last().len() {
                    assert(before.last().contains(before.last()[k]));
                }
            }
            if before.len() == 1 {
                assert(joined(all, seq![separator]) =~= s);
            } else {
                assert(joined(all, seq![separator]) =~= joined(
                    before.drop_last(),
                    seq![separator],
                ) + seq![separator] + grown);
                assert(rest == joined(before.drop_last(), seq![separator]) + seq![separator]
                    + before.last());
                assert(rest.push(s.last()) =~= s);
                assert(joined(all, seq![separator]) =~= rest.push(s.last()));
            }
        }
    }
}

/// A line reaches to its line feed, without the carriage return before it, and what follows makes
/// up the other lines. A text without a line feed is one line, and an empty text none.
pub proof fn law_lines_end_at_line_feeds(line: Seq<char>, rest: Seq<char>)
    requires
        !line.contains('\n'),
    ensures
        lines(line.push('\n') + rest) == seq![without_final_return(line)] + lines(rest),
        line.len() > 0 && line.last() == '\r' ==> lines(line.push('\n') + rest)[0]
            == line.drop_last(),
        line.len() == 0 || line.last() != '\r' ==> lines(line.push('\n') + rest)[0] == line,
        line.len() > 0 ==> lines(line) == seq![line],
        lines(Seq::empty()) == Seq::<Seq<char>>::empty(),
{
    let whole = line.push('\n') + rest;
    lemma_run_without(whole, '\n');
    lemma_run_without(line, '\n');
    assert(whole[line.len() as int] == '\n');
    if run_without(whole, '\n') < line.len() {
        assert(line.contains(line[run_without(whole, '\n') as int]));
    }
    if run_without(line, '\n') < line.len() {
        assert(line.contains(line[run_without(line, '\n') as int]));
    }
    assert(whole.take(line.len() as int) =~= line);
    assert(whole.skip(line.len() as int + 1) =~= rest);
}

proof fn lemma_first_word_ends(word: Seq<char>, rest: Seq<char>)
    requires
        forall|i: int| 0 <= i < word.len() ==> !is_white(#[trigger] word[i]),
        rest.len() == 0 || is_white(rest.first()),
    ensures
        word_length(word + rest) == word.len(),
    decreases word.len(),
{
    if word.len() == 0 {
        assert(word + rest =~= rest);
    } else {
        assert(!is_white(word[0]));
        let shorter = word.drop_first();
        assert forall|i: int| 0 <= i < shorter.len() implies !is_white(#[trigger] shorter[i]) by {
            assert(shorter[i] == word[i + 1]);
        }
        lemma_first_word_ends(shorter, rest);
        assert((word + rest).drop_first() =~= shorter + rest);
    }
}

/// A word is a run of characters between white space: what stands before the first space is the
/// first word, and the others follow from the rest. Blank text holds no word.
pub proof fn law_words_stand_between_spaces(lead: Seq<char>, word: Seq<char>, rest: Seq<char>)
    requires
        all_white(lead),
        word.len() > 0,
        forall|i: int| 0 <= i < word.len() ==> !is_white(#[trigger] word[i]),
        rest.len() == 0 || is_white(rest.first()),
    ensures
        words(lead + word + rest) == seq![word] + words(rest),
        words(lead) == Seq::<Seq<char>>::empty(),
{
    assert(!is_white(word[0]));
    lemma_lead_goes(lead, word + rest);
    lemma_lead_goes(lead, Seq::empty());
    assert(lead + Seq::<char>::empty() =~= lead);
    assert(lead + (word + rest) =~= lead + word + rest);
    lemma_first_word_ends(word, rest);
    let start = word + rest;
    assert(start.first() == word.first());
    assert(start.take(word.len() as int) =~= word);
    assert(start.skip(word.len() as int) =~= rest);
}

/// A shortened text is the beginning of the text: all of it where it fits, and otherwise as much as
/// fits, which the dots behind it tell.
pub proof fn law_shortened_text_is_its_beginning(s: Seq<char>, limit: int)
    requires
        limit >= 0,
    ensures
        clipped(s, limit).is_prefix_of(s),
        clipped(s, limit).len() == (if s.len() <= limit {
            s.len() as int
        } else {
            limit
        }),
        shortened(s, limit) == (if clipped(s, limit) == s {
            s
        } else {
            clipped(s, limit) + "..."@
        }),
{
    assert(clipped(s, limit) =~= s.take(clipped(s, limit).len() as int));
}

/// A text occurs wherever something stands before and behind it, and nowhere else.
pub proof fn law_occurring_is_standing_between(s: Seq<char>, needle: Seq<char>)
    ensures
        occurs_in(s, needle) <==> exists|before: Seq<char>, after: Seq<char>|
            s == #[trigger] (before + needle + after),
{
    if occurs_in(s, needle) {
        let at = choose|at: int| stands_at(s, needle, at);
        let before = s.take(at);
        let after = s.skip(at + needle.len());
        assert(before + s.subrange(at, at + needle.len()) + after =~= s);
        assert(s == before + needle + after);
    }
    if exists|before: Seq<char>, after: Seq<char>| s == #[trigger] (before + needle + after) {
        let (before, after) = choose|before: Seq<char>, after: Seq<char>|
            s == #[trigger] (before + needle + after);
        let at = before.len() as int;
        assert(s.subrange(at, at + needle.len()) =~= needle);
        assert(stands_at(s, needle, at));
    }
}

proof fn lemma_white_in_any_case(c: char)
    ensures
        is_white(lower_char(c)) == is_white(c),
{
}

/// It makes no difference whether a text is trimmed or put in lower case first.
pub proof fn law_trimming_and_lower_case_commute(s: Seq<char>)
    ensures
        trimmed(lowered(s)) == lowered(trimmed(s)),
{
    lemma_start_in_any_case(s);
    lemma_end_in_any_case(trimmed_start(s));
}

proof fn lemma_start_in_any_case(s: Seq<char>)
    ensures
        trimmed_start(lowered(s)) == lowered(trimmed_start(s)),
    decreases s.len(),
{
    if s.len() > 0 {
        lemma_white_in_any_case(s.first());
        assert(lowered(s).drop_first() =~= lowered(s.drop_first()));
        lemma_start_in_any_case(s.drop_first());
    }
}

proof fn lemma_end_in_any_case(s: Seq<char>)
    ensures
        trimmed_end(lowered(s)) == lowered(trimmed_end(s)),
    decreases s.len(),
{
    if s.len() > 0 {
        lemma_white_in_any_case(s.last());
        assert(lowered(s).drop_last() =~= lowered(s.drop_last()));
        lemma_end_in_any_case(s.drop_last());
    }
}

pub broadcast proof fn lemma_still_occurs(s: Seq<char>, more: Seq<char>, needle: Seq<char>)
    requires
        occurs_in(s, needle),
    ensures
        #[trigger] occurs_in(s + more, needle),
{
    let at = choose|at: int| stands_at(s, needle, at);
    assert((s + more).subrange(at, at + needle.len()) =~= s.subrange(at, at + needle.len()));
    assert(stands_at(s + more, needle, at));
}

pub broadcast proof fn lemma_occurs_behind(s: Seq<char>, label: Seq<char>, value: Seq<char>)
    ensures
        #[trigger] occurs_in(s + label + value, label + value),
{
    let whole = s + label + value;
    let needle = label + value;
    let at = s.len() as int;
    assert(whole.subrange(at, at + needle.len()) =~= needle);
    assert(stands_at(whole, needle, at));
}

pub broadcast proof fn lemma_occurs_at_the_end(s: Seq<char>, more: Seq<char>, needle: Seq<char>)
    requires
        needle == more,
    ensures
        #[trigger] occurs_in(s + more, needle),
{
    let at = s.len() as int;
    assert((s + more).subrange(at, at + needle.len()) =~= needle);
    assert(stands_at(s + more, needle, at));
}

pub broadcast proof fn lemma_occurs_inside(s: Seq<char>, more: Seq<char>, needle: Seq<char>)
    requires
        occurs_in(more, needle),
    ensures
        #[trigger] occurs_in(s + more, needle),
{
    let at = choose|at: int| stands_at(more, needle, at);
    let there = s.len() + at;
    assert((s + more).subrange(there, there + needle.len()) =~= more.subrange(
        at,
        at + needle.len(),
    ));
    assert(stands_at(s + more, needle, there));
}

/// White space is what Unicode says it is: blanks, tabs and line ends, but also the spaces of other
/// scripts and of typesetting. Nothing that shows is white, and neither is a joint without a width.
pub proof fn law_white_space_is_that_of_unicode(c: char)
    ensures
        c == ' ' || ('\t' <= c <= '\r') ==> is_white(c),
        c == '\u{85}' || c == '\u{a0}' || c == '\u{1680}' || c == '\u{3000}' ==> is_white(c),
        '\u{2000}' <= c <= '\u{200a}' ==> is_white(c),
        c == '\u{2028}' || c == '\u{2029}' || c == '\u{202f}' || c == '\u{205f}' ==> is_white(c),
        '!' <= c <= '~' ==> !is_white(c),
        c == '\u{200b}' || c == '\u{2060}' || c == '\u{feff}' ==> !is_white(c),
        is_ascii_alnum(c) ==> !is_white(c),
{
}

} // verus!
