//! Long texts in pieces that each fit one message.

use vstd::prelude::*;

verus! {

use crate::text::{
    chars_of, clip, clipped, joined, lemma_run_without, lines, occurs_in, replaced, run_without,
    split_lines, stands_at, text_of, views, without_final_return,
};

/// The text cut after every `limit` characters.
pub open spec fn slices(s: Seq<char>, limit: int) -> Seq<Seq<char>>
    decreases s.len(),
{
    if s.len() == 0 || limit <= 0 {
        Seq::empty()
    } else if s.len() <= limit {
        seq![s]
    } else {
        seq![s.take(limit)] + slices(s.skip(limit), limit)
    }
}

/// Cuts the text after every `limit` characters.
pub fn slice_text(text: &str, limit: usize) -> (r: Vec<String>)
    requires
        limit > 0,
    ensures
        views(r@) == slices(text@, limit as int),
{
    let chars = chars_of(text);
    let mut r: Vec<String> = Vec::new();
    let mut start: usize = 0;
    let count = chars.len();
    proof {
        assert(text@.skip(0) == text@);
        assert(views(r@) + slices(text@, limit as int) == slices(text@, limit as int));
    }
    while start < count
        invariant
            limit > 0,
            start <= count,
            count == chars@.len(),
            chars@ == text@,
            slices(text@, limit as int) == views(r@) + slices(
                text@.skip(start as int),
                limit as int,
            ),
        decreases count - start,
    {
        let end: usize = if count - start <= limit {
            count
        } else {
            start + limit
        };
        let ghost before = r@;
        let ghost rest = text@.skip(start as int);
        let piece = text_of(&chars, start, end);
        let ghost shown = piece@;
        r.push(piece);
        proof {
            assert(views(r@) == views(before).push(shown));
            if rest.len() <= limit {
                assert(shown == rest);
                assert(text@.skip(end as int).len() == 0);
                assert(slices(text@.skip(end as int), limit as int) == Seq::<Seq<char>>::empty());
                assert(slices(rest, limit as int) == seq![shown]);
            } else {
                assert(shown == rest.take(limit as int));
                assert(rest.skip(limit as int) == text@.skip(end as int));
            }
            assert(slices(text@, limit as int) == views(r@) + slices(
                text@.skip(end as int),
                limit as int,
            ));
        }
        start = end;
    }
    assert(text@.skip(start as int).len() == 0);
    assert(views(r@) + slices(text@.skip(start as int), limit as int) == views(r@));
    r
}

/// The pieces that are complete, and the lines gathered for the next one.
#[verifier::ext_equal]
pub struct Gathered {
    pub chunks: Seq<Seq<char>>,
    pub current: Seq<char>,
}

impl Gathered {
    pub open spec fn start() -> Gathered {
        Gathered { chunks: Seq::empty(), current: Seq::empty() }
    }

    /// The pieces with the one being gathered, unless it is empty.
    pub open spec fn closed(self) -> Seq<Seq<char>> {
        if self.current.len() == 0 {
            self.chunks
        } else {
            self.chunks.push(self.current)
        }
    }

    /// Takes one more line: into the piece being gathered where it fits, into the next one
    /// otherwise, and cut into pieces of its own where it fits none.
    pub open spec fn taking(self, line: Seq<char>, limit: int) -> Gathered {
        if line.len() > limit {
            Gathered { chunks: self.closed() + slices(line, limit), current: Seq::empty() }
        } else if self.current.len() == 0 {
            Gathered { current: line, ..self }
        } else if self.current.len() + 1 + line.len() > limit {
            Gathered { chunks: self.closed(), current: line }
        } else {
            Gathered { current: self.current.push('\n') + line, ..self }
        }
    }
}

/// What was gathered after all the lines.
pub open spec fn gathered(all: Seq<Seq<char>>, limit: int) -> Gathered
    decreases all.len(),
{
    if all.len() == 0 {
        Gathered::start()
    } else {
        gathered(all.drop_last(), limit).taking(all.last(), limit)
    }
}

/// The text in pieces of at most `limit` characters, broken between lines where possible. A text
/// of nothing but empty lines is one piece, cut off at the limit.
pub open spec fn split_text(s: Seq<char>, limit: int) -> Seq<Seq<char>> {
    let chunks = gathered(lines(s), limit).closed();
    if s.len() == 0 {
        Seq::empty()
    } else if chunks.len() == 0 {
        seq![clipped(s, limit)]
    } else {
        chunks
    }
}

/// Splits the text into pieces of at most `max_chars` characters.
pub fn split_text_for_telegram(text: &str, max_chars: usize) -> (r: Vec<String>)
    requires
        max_chars > 0,
    ensures
        views(r@) == split_text(text@, max_chars as int),
{
    let mut chunks: Vec<String> = Vec::new();
    if text.is_empty() {
        assert(views(chunks@) == Seq::<Seq<char>>::empty());
        return chunks;
    }
    let all = split_lines(text);
    let ghost shown = views(all@);
    let mut current = String::new();
    let mut i: usize = 0;
    assert(views(chunks@) == Seq::<Seq<char>>::empty());
    while i < all.len()
        invariant
            max_chars > 0,
            i <= all@.len(),
            shown == views(all@),
            views(chunks@) == gathered(shown.take(i as int), max_chars as int).chunks,
            current@ == gathered(shown.take(i as int), max_chars as int).current,
        decreases all@.len() - i,
    {
        let ghost before = gathered(shown.take(i as int), max_chars as int);
        let ghost old_chunks = chunks@;
        assert(shown.take(i + 1).drop_last() == shown.take(i as int));
        assert(shown.take(i + 1).last() == all@[i as int]@);
        let line = all[i].as_str();
        let length = line.unicode_len();
        if length > max_chars {
            if !current.as_str().is_empty() {
                let ghost full = current@;
                chunks.push(current);
                assert(views(chunks@) == views(old_chunks).push(full));
            }
            assert(views(chunks@) == before.closed());
            let ghost middle = chunks@;
            let mut parts = slice_text(line, max_chars);
            let ghost added = parts@;
            chunks.append(&mut parts);
            assert(views(chunks@) == views(middle) + views(added));
            current = String::new();
        } else if current.as_str().is_empty() {
            current = line.to_owned();
        } else if current.as_str().unicode_len() >= max_chars - length {
            let ghost full = current@;
            chunks.push(current);
            assert(views(chunks@) == views(old_chunks).push(full));
            current = line.to_owned();
        } else {
            current.push('\n');
            current.append(line);
        }
        i += 1;
    }
    assert(shown.take(i as int) == shown);
    if !current.as_str().is_empty() {
        let ghost old_chunks = chunks@;
        let ghost full = current@;
        chunks.push(current);
        assert(views(chunks@) == views(old_chunks).push(full));
    }
    if chunks.len() == 0 {
        let only = clip(text, max_chars);
        let ghost kept = only@;
        chunks.push(only);
        assert(views(chunks@) == seq![kept]);
    }
    chunks
}

// ---------------------------------------------------------------------------------------------
// Laws

/// All the parts in one text.
pub open spec fn flat(parts: Seq<Seq<char>>) -> Seq<char>
    decreases parts.len(),
{
    if parts.len() == 0 {
        Seq::empty()
    } else {
        flat(parts.drop_last()) + parts.last()
    }
}

pub open spec fn without_breaks(s: Seq<char>) -> Seq<char> {
    replaced(s, '\n', Seq::empty())
}

/// Every piece holds something and fits.
pub open spec fn all_fit(parts: Seq<Seq<char>>, limit: int) -> bool {
    forall|i: int| 0 <= i < parts.len() ==> 0 < (#[trigger] parts[i]).len() <= limit
}

pub proof fn lemma_flat_push(parts: Seq<Seq<char>>, part: Seq<char>)
    ensures
        flat(parts.push(part)) == flat(parts) + part,
{
    assert(parts.push(part).drop_last() == parts);
}

pub proof fn lemma_flat_distributes(a: Seq<Seq<char>>, b: Seq<Seq<char>>)
    ensures
        flat(a + b) == flat(a) + flat(b),
    decreases b.len(),
{
    if b.len() == 0 {
        assert(a + b == a);
        assert(flat(a) + flat(b) == flat(a));
    } else {
        lemma_flat_distributes(a, b.drop_last());
        assert((a + b).drop_last() == a + b.drop_last());
        assert(flat(a + b) == flat(a) + flat(b));
    }
}

pub proof fn lemma_without_breaks_distributes(a: Seq<char>, b: Seq<char>)
    ensures
        without_breaks(a + b) == without_breaks(a) + without_breaks(b),
    decreases b.len(),
{
    if b.len() == 0 {
        assert(a + b == a);
        assert(without_breaks(a) + without_breaks(b) == without_breaks(a));
    } else {
        lemma_without_breaks_distributes(a, b.drop_last());
        assert((a + b).drop_last() == a + b.drop_last());
        assert(without_breaks(a + b) == without_breaks(a) + without_breaks(b));
    }
}

pub proof fn lemma_nothing_to_remove(s: Seq<char>)
    requires
        !s.contains('\n'),
    ensures
        without_breaks(s) == s,
    decreases s.len(),
{
    if s.len() > 0 {
        assert(s.contains(s.last()));
        assert forall|i: int| 0 <= i < s.drop_last().len() implies s.drop_last()[i] != '\n' by {
            assert(s.contains(s[i]));
        }
        lemma_nothing_to_remove(s.drop_last());
        assert(s.drop_last() + seq![s.last()] == s);
    }
}

proof fn lemma_lines_hold_no_break(s: Seq<char>)
    ensures
        forall|i: int| 0 <= i < lines(s).len() ==> !(#[trigger] lines(s)[i]).contains('\n'),
    decreases s.len(),
{
    if s.len() > 0 {
        lemma_run_without(s, '\n');
        let n = run_without(s, '\n') as int;
        if n >= s.len() {
            assert(!s.contains('\n'));
        } else {
            let rest = lines(s.skip(n + 1));
            lemma_lines_hold_no_break(s.skip(n + 1));
            let line = without_final_return(s.take(n));
            assert(!line.contains('\n'));
            assert forall|i: int| 0 <= i < lines(s).len() implies !(#[trigger] lines(
                s,
            )[i]).contains('\n') by {
                if i > 0 {
                    assert(lines(s)[i] == rest[i - 1]);
                }
            }
        }
    }
}

/// Cutting a text loses nothing, and every slice holds something and fits.
pub proof fn law_slices_make_up_the_text(s: Seq<char>, limit: int)
    requires
        limit > 0,
    ensures
        flat(slices(s, limit)) == s,
        all_fit(slices(s, limit), limit),
    decreases s.len(),
{
    if s.len() == 0 {
    } else if s.len() <= limit {
        lemma_flat_push(Seq::empty(), s);
        assert(Seq::<Seq<char>>::empty().push(s) == seq![s]);
        assert(Seq::<char>::empty() + s == s);
    } else {
        let rest = slices(s.skip(limit), limit);
        law_slices_make_up_the_text(s.skip(limit), limit);
        lemma_flat_distributes(seq![s.take(limit)], rest);
        lemma_flat_push(Seq::empty(), s.take(limit));
        assert(Seq::<Seq<char>>::empty().push(s.take(limit)) == seq![s.take(limit)]);
        assert(Seq::<char>::empty() + s.take(limit) == s.take(limit));
        assert(s.take(limit) + s.skip(limit) == s);
        let all = slices(s, limit);
        assert forall|i: int| 0 <= i < all.len() implies 0 < (#[trigger] all[i]).len() <= limit by {
            if i > 0 {
                assert(all[i] == rest[i - 1]);
            }
        }
    }
}

proof fn lemma_gathered_fits(all: Seq<Seq<char>>, limit: int)
    requires
        limit > 0,
    ensures
        all_fit(gathered(all, limit).chunks, limit),
        gathered(all, limit).current.len() <= limit,
        all_fit(gathered(all, limit).closed(), limit),
    decreases all.len(),
{
    if all.len() > 0 {
        lemma_gathered_fits(all.drop_last(), limit);
        let before = gathered(all.drop_last(), limit);
        let line = all.last();
        if line.len() > limit {
            law_slices_make_up_the_text(line, limit);
            let parts = before.closed() + slices(line, limit);
            assert forall|i: int| 0 <= i < parts.len() implies 0 < (#[trigger] parts[i]).len()
                <= limit by {
                if i >= before.closed().len() {
                    assert(parts[i] == slices(line, limit)[i - before.closed().len()]);
                }
            }
        }
    }
}

/// Every piece holds something and fits one message.
pub proof fn law_pieces_fit(s: Seq<char>, limit: int)
    requires
        limit > 0,
    ensures
        all_fit(split_text(s, limit), limit),
{
    lemma_gathered_fits(lines(s), limit);
}

proof fn lemma_gathered_keeps(all: Seq<Seq<char>>, limit: int)
    requires
        limit > 0,
        forall|i: int| 0 <= i < all.len() ==> !(#[trigger] all[i]).contains('\n'),
    ensures
        without_breaks(flat(gathered(all, limit).closed())) == flat(all),
        without_breaks(flat(gathered(all, limit).chunks) + gathered(all, limit).current) == flat(
            all,
        ),
    decreases all.len(),
{
    if all.len() == 0 {
        assert(Seq::<char>::empty() + Seq::<char>::empty() == Seq::<char>::empty());
    } else {
        let short = all.drop_last();
        assert forall|i: int| 0 <= i < short.len() implies !(#[trigger] short[i]).contains(
            '\n',
        ) by {
            assert(short[i] == all[i]);
        }
        lemma_gathered_keeps(short, limit);
        let before = gathered(short, limit);
        let after = gathered(all, limit);
        let line = all.last();
        lemma_nothing_to_remove(line);
        lemma_flat_push(before.chunks, before.current);
        let so_far = flat(before.closed());
        assert(so_far == flat(before.chunks) + before.current) by {
            if before.current.len() == 0 {
                assert(flat(before.chunks) + before.current == flat(before.chunks));
            }
        }
        lemma_without_breaks_distributes(so_far, line);
        if line.len() > limit {
            law_slices_make_up_the_text(line, limit);
            lemma_flat_distributes(before.closed(), slices(line, limit));
            assert(flat(after.chunks) + after.current == so_far + line);
        } else if before.current.len() == 0 {
            assert(flat(after.chunks) + after.current == so_far + line);
        } else if before.current.len() + 1 + line.len() > limit {
            assert(flat(after.chunks) + after.current == so_far + line);
        } else {
            let broken = so_far.push('\n');
            assert(flat(after.chunks) + after.current == broken + line);
            lemma_without_breaks_distributes(broken, line);
            assert(broken.drop_last() == so_far);
            assert(without_breaks(broken) == without_breaks(so_far));
        }
        lemma_flat_push(after.chunks, after.current);
        assert(flat(after.closed()) == flat(after.chunks) + after.current) by {
            if after.current.len() == 0 {
                assert(flat(after.chunks) + after.current == flat(after.chunks));
            }
        }
    }
}

/// The pieces hold all the characters of the lines, in order: only line endings come and go. The
/// exception is a text of nothing but empty lines.
pub proof fn law_pieces_keep_the_lines(s: Seq<char>, limit: int)
    requires
        limit > 0,
        flat(lines(s)).len() > 0,
    ensures
        without_breaks(flat(split_text(s, limit))) == flat(lines(s)),
{
    lemma_lines_hold_no_break(s);
    lemma_gathered_keeps(lines(s), limit);
    let chunks = gathered(lines(s), limit).closed();
    if chunks.len() == 0 {
        assert(without_breaks(flat(chunks)).len() == 0);
    }
    if s.len() == 0 {
        assert(lines(s).len() == 0);
    }
}

/// Every slice but the last is as long as the limit allows.
pub proof fn law_slices_are_full(s: Seq<char>, limit: int, i: int)
    requires
        limit > 0,
        0 <= i < slices(s, limit).len() - 1,
    ensures
        slices(s, limit)[i].len() == limit,
    decreases s.len(),
{
    if s.len() > limit && i > 0 {
        law_slices_are_full(s.skip(limit), limit, i - 1);
    }
}

/// A line joins the piece that is being gathered wherever it fits there; only a line that does not
/// begins another piece.
pub proof fn law_line_joins_the_piece_where_it_fits(
    all: Seq<Seq<char>>,
    line: Seq<char>,
    limit: int,
)
    requires
        gathered(all, limit).current.len() > 0,
        line.len() <= limit,
    ensures
        gathered(all, limit).current.len() + 1 + line.len() <= limit ==> gathered(
            all.push(line),
            limit,
        ) == (Gathered {
            chunks: gathered(all, limit).chunks,
            current: gathered(all, limit).current + seq!['\n'] + line,
        }),
        gathered(all, limit).current.len() + 1 + line.len() > limit ==> gathered(
            all.push(line),
            limit,
        ) == (Gathered {
            chunks: gathered(all, limit).chunks.push(gathered(all, limit).current),
            current: line,
        }),
{
    assert(all.push(line).drop_last() =~= all);
    let current = gathered(all, limit).current;
    assert(current.push('\n') + line =~= current + seq!['\n'] + line);
}

proof fn lemma_gathered_whole(all: Seq<Seq<char>>, limit: int)
    requires
        all.len() > 0,
        all[0].len() > 0,
        joined(all, seq!['\n']).len() <= limit,
    ensures
        gathered(all, limit).chunks == Seq::<Seq<char>>::empty(),
        gathered(all, limit).current == joined(all, seq!['\n']),
        joined(all, seq!['\n']).len() > 0,
    decreases all.len(),
{
    let before = all.drop_last();
    if all.len() == 1 {
        assert(gathered(before, limit) == Gathered::start());
    } else {
        assert(before[0] == all[0]);
        lemma_gathered_whole(before, limit);
        let current = gathered(before, limit).current;
        assert(current.push('\n') + all.last() =~= current + seq!['\n'] + all.last());
    }
}

/// A text whose lines fit one piece together is one piece, with all of its lines.
pub proof fn law_short_text_is_one_piece(s: Seq<char>, limit: int)
    requires
        lines(s).len() > 0,
        lines(s)[0].len() > 0,
        joined(lines(s), seq!['\n']).len() <= limit,
    ensures
        split_text(s, limit) == seq![joined(lines(s), seq!['\n'])],
{
    lemma_gathered_whole(lines(s), limit);
    assert(Seq::<Seq<char>>::empty().push(joined(lines(s), seq!['\n'])) =~= seq![
        joined(lines(s), seq!['\n']),
    ]);
}

spec fn in_some(parts: Seq<Seq<char>>, line: Seq<char>) -> bool {
    exists|j: int| 0 <= j < parts.len() && occurs_in(#[trigger] parts[j], line)
}

proof fn lemma_in_more(a: Seq<Seq<char>>, b: Seq<Seq<char>>, line: Seq<char>)
    requires
        in_some(a, line),
        a.len() <= b.len(),
        forall|j: int| 0 <= j < a.len() ==> #[trigger] a[j] == b[j],
    ensures
        in_some(b, line),
{
    let j = choose|j: int| 0 <= j < a.len() && occurs_in(#[trigger] a[j], line);
    assert(b[j] == a[j]);
}

proof fn lemma_part_of_current(current: Seq<char>, line: Seq<char>, needle: Seq<char>)
    ensures
        occurs_in(current, needle) ==> occurs_in(current.push('\n') + line, needle),
        occurs_in(current.push('\n') + line, line),
        occurs_in(line, line),
{
    let whole = current.push('\n') + line;
    if occurs_in(current, needle) {
        let at = choose|at: int| stands_at(current, needle, at);
        assert(whole.subrange(at, at + needle.len()) =~= current.subrange(at, at + needle.len()));
        assert(stands_at(whole, needle, at));
    }
    let at = current.len() as int + 1;
    assert(whole.subrange(at, at + line.len()) =~= line);
    assert(stands_at(whole, line, at));
    assert(line.subrange(0, line.len() as int) =~= line);
    assert(stands_at(line, line, 0));
}

proof fn lemma_gathered_holds(all: Seq<Seq<char>>, limit: int, i: int)
    requires
        0 <= i < all.len(),
        0 < all[i].len() <= limit,
    ensures
        in_some(gathered(all, limit).chunks, all[i]) || (gathered(all, limit).current.len() > 0
            && occurs_in(gathered(all, limit).current, all[i])),
    decreases all.len(),
{
    let before = gathered(all.drop_last(), limit);
    let after = gathered(all, limit);
    let line = all.last();
    lemma_part_of_current(before.current, line, all[i]);
    if i < all.len() - 1 {
        lemma_gathered_holds(all.drop_last(), limit, i);
        assert(all.drop_last()[i] == all[i]);
        if in_some(before.chunks, all[i]) {
            lemma_in_more(before.chunks, after.chunks, all[i]);
        } else if line.len() > limit || before.current.len() + 1 + line.len() > limit {
            let at = before.chunks.len() as int;
            assert(after.chunks[at] == before.current);
        }
    }
}

/// No line is cut that fits a piece: it stands whole in one of them.
pub proof fn law_fitting_lines_are_not_cut(s: Seq<char>, limit: int, i: int)
    requires
        0 <= i < lines(s).len(),
        0 < lines(s)[i].len() <= limit,
    ensures
        exists|j: int|
            0 <= j < split_text(s, limit).len() && occurs_in(
                #[trigger] split_text(s, limit)[j],
                lines(s)[i],
            ),
{
    let all = gathered(lines(s), limit);
    lemma_gathered_holds(lines(s), limit, i);
    let line = lines(s)[i];
    if in_some(all.chunks, line) {
        lemma_in_more(all.chunks, all.closed(), line);
    } else {
        assert(all.closed()[all.chunks.len() as int] == all.current);
    }
    assert(in_some(all.closed(), line));
    if s.len() == 0 {
        assert(lines(s).len() == 0);
    }
    let pieces = split_text(s, limit);
    assert(pieces == all.closed());
    let j = choose|j: int| 0 <= j < pieces.len() && occurs_in(#[trigger] pieces[j], line);
    assert(occurs_in(split_text(s, limit)[j], lines(s)[i]));
}

} // verus!
