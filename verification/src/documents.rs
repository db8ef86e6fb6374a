//! What happens to the files in the watched directory, and where they end up.

use vstd::prelude::*;

verus! {

use crate::config::{optional_str, AppConfig};
use crate::delivery::{
    has_extension, is_pdf_path, law_extension_is_compared_in_any_case, path_has_extension,
};
use crate::listing::concat;
use crate::messages::{pushes, pushes_notifications};
use crate::numbers::{decimal, law_decimal_injective, lemma_decimal, render_usize};
use crate::paths::{
    dot_index, extension, file_name, file_stem, is_absolute_path, is_file_name, join_path,
    law_extension_follows_the_last_dot, law_joining_adds_the_name, path_extension, path_file_name,
    path_file_stem, path_join, path_under,
};
use crate::text::{
    clip, clipped, has_prefix, law_shortened_text_is_its_beginning, lemma_occurs_behind,
    lemma_still_occurs, lowered, occurs_in, same,
};

/// Whether a file is looked at: a document of a configured type, or a PDF file that is not among
/// the processed ones.
pub open spec fn watched(config: AppConfig, path: Seq<char>) -> bool {
    config.supports(path) || (has_extension(path, "pdf"@) && !config.processed(path))
}

pub fn should_watch_path(config: &AppConfig, path: &str) -> (r: bool)
    ensures
        r == watched(*config, path@),
{
    config.supports_path(path) || (is_pdf_path(path) && !config.is_processed_path(path))
}

/// The beginning of the content.
pub fn summarize(content: &str, max_chars: usize) -> (r: String)
    ensures
        r@ == clipped(content@, max_chars as int),
{
    clip(content, max_chars)
}

/// The length of a summary.
pub const SUMMARY_CHARS: usize = 100;

// ---------------------------------------------------------------------------------------------
// Destinations

/// How many numbered names are tried besides the name of the file itself.
pub const NUMBERED_NAMES: usize = 9_999;

/// The name without its extension, as it is numbered.
pub open spec fn numbered_stem(source: Seq<char>) -> Seq<char> {
    match path_file_stem(source) {
        Some(stem) if stem.len() > 0 => stem,
        _ => "processed"@,
    }
}

/// The name with a number before its extension.
pub open spec fn numbered_name(source: Seq<char>, number: nat) -> Seq<char> {
    let numbered = numbered_stem(source) + "-"@ + decimal(number);
    match path_extension(source) {
        Some(ext) => numbered + "."@ + ext,
        None => numbered,
    }
}

/// The name to try at the given attempt: first the file's own, then the numbered ones.
pub open spec fn attempted_name(source: Seq<char>, attempt: nat) -> Option<Seq<char>> {
    if attempt == 0 {
        path_file_name(source)
    } else if attempt <= NUMBERED_NAMES {
        Some(numbered_name(source, attempt))
    } else {
        None
    }
}

fn number_name(source: &str, number: usize) -> (r: String)
    ensures
        r@ == numbered_name(source@, number as nat),
{
    let mut name = match file_stem(source) {
        Some(stem) => {
            if stem.as_str().is_empty() {
                "processed".to_owned()
            } else {
                stem
            }
        },
        None => "processed".to_owned(),
    };
    name.append("-");
    name.append(render_usize(number).as_str());
    if let Some(ext) = extension(source) {
        name.append(".");
        name.append(ext.as_str());
    }
    name
}

/// What to do about the destination of a processed file.
#[derive(Debug)]
pub enum Destination {
    /// Take this path, unless something is there already.
    Try(String),
    /// The file has no name.
    NoName,
    /// All names are taken.
    Exhausted,
}

/// The destination to try at the given attempt, counted from 0.
pub fn destination_candidate(processed_dir: &str, source: &str, attempt: usize) -> (r: Destination)
    ensures
        r matches Destination::Try(path) ==> attempted_name(source@, attempt as nat) is Some && path@
            == path_join(processed_dir@, attempted_name(source@, attempt as nat)->0),
        r is NoName <==> attempt == 0 && path_file_name(source@) is None,
        r is Exhausted <==> attempt > NUMBERED_NAMES,
{
    if attempt == 0 {
        match file_name(source) {
            Some(name) => Destination::Try(join_path(processed_dir, name.as_str())),
            None => Destination::NoName,
        }
    } else if attempt <= NUMBERED_NAMES {
        let name = number_name(source, attempt);
        Destination::Try(join_path(processed_dir, name.as_str()))
    } else {
        Destination::Exhausted
    }
}

pub fn destination_error(processed_dir: &str, destination: &Destination) -> (r: String)
    ensures
        r@ == (match destination {
            Destination::NoName => "source file does not have a file name"@,
            _ => "failed to generate a unique destination file name in "@ + processed_dir@,
        }),
{
    match destination {
        Destination::NoName => "source file does not have a file name".to_owned(),
        _ => concat("failed to generate a unique destination file name in ", processed_dir),
    }
}

/// Where the search for a free destination stands.
#[derive(Debug)]
pub enum DestinationStep {
    /// See whether something is at the path of this attempt.
    Look { attempt: usize, path: String },
    /// Nothing is there: take this path.
    Take(String),
    /// There is no path to take; the text says why.
    Fail(String),
}

pub enum DestinationStepView {
    Look { attempt: nat, path: Seq<char> },
    Take(Seq<char>),
    Fail(Seq<char>),
}

impl View for DestinationStep {
    type V = DestinationStepView;

    open spec fn view(&self) -> DestinationStepView {
        match self {
            DestinationStep::Look { attempt, path } => DestinationStepView::Look {
                attempt: *attempt as nat,
                path: path@,
            },
            DestinationStep::Take(path) => DestinationStepView::Take(path@),
            DestinationStep::Fail(message) => DestinationStepView::Fail(message@),
        }
    }
}

/// The path of an attempt that has a name.
pub open spec fn attempted_path(dir: Seq<char>, source: Seq<char>, attempt: nat) -> Seq<char> {
    path_join(dir, attempted_name(source, attempt)->0)
}

/// The step that begins an attempt.
pub open spec fn attempt_begun(dir: Seq<char>, source: Seq<char>, attempt: nat) ->
    DestinationStepView {
    if attempted_name(source, attempt) is Some {
        DestinationStepView::Look { attempt, path: attempted_path(dir, source, attempt) }
    } else if attempt == 0 {
        DestinationStepView::Fail("source file does not have a file name"@)
    } else {
        DestinationStepView::Fail("failed to generate a unique destination file name in "@ + dir)
    }
}

/// The step after a look: a free path is taken, and a taken one leads to the next attempt.
pub open spec fn destination_after(
    dir: Seq<char>,
    source: Seq<char>,
    step: DestinationStepView,
    taken: bool,
) -> DestinationStepView {
    match step {
        DestinationStepView::Look { attempt, path } => if taken {
            attempt_begun(dir, source, attempt + 1)
        } else {
            DestinationStepView::Take(path)
        },
        _ => step,
    }
}

fn begin_attempt(processed_dir: &str, source: &str, attempt: usize) -> (r: DestinationStep)
    ensures
        r@ == attempt_begun(processed_dir@, source@, attempt as nat),
{
    let destination = destination_candidate(processed_dir, source, attempt);
    match destination {
        Destination::Try(path) => DestinationStep::Look { attempt, path },
        _ => DestinationStep::Fail(destination_error(processed_dir, &destination)),
    }
}

/// Begins the search for a destination, with the name of the file itself.
pub fn begin_destination(processed_dir: &str, source: &str) -> (r: DestinationStep)
    ensures
        r@ == attempt_begun(processed_dir@, source@, 0),
{
    begin_attempt(processed_dir, source, 0)
}

/// Goes on with the search after a look.
pub fn next_destination(
    processed_dir: &str,
    source: &str,
    step: DestinationStep,
    taken: bool,
) -> (r: DestinationStep)
    ensures
        r@ == destination_after(processed_dir@, source@, step@, taken),
{
    match step {
        DestinationStep::Look { attempt, path } => if taken && attempt > NUMBERED_NAMES {
            DestinationStep::Fail(destination_error(processed_dir, &Destination::Exhausted))
        } else if taken {
            begin_attempt(processed_dir, source, attempt + 1)
        } else {
            DestinationStep::Take(path)
        },
        DestinationStep::Take(path) => DestinationStep::Take(path),
        DestinationStep::Fail(message) => DestinationStep::Fail(message),
    }
}

/// Where the search ends from a step on, when exactly the paths of `taken` are taken.
pub open spec fn search_end(
    dir: Seq<char>,
    source: Seq<char>,
    step: DestinationStepView,
    taken: spec_fn(Seq<char>) -> bool,
    looks: nat,
) -> DestinationStepView
    decreases looks,
{
    match step {
        DestinationStepView::Look { attempt, path } => if looks == 0 {
            step
        } else {
            search_end(
                dir,
                source,
                destination_after(dir, source, step, taken(path)),
                taken,
                (looks - 1) as nat,
            )
        },
        _ => step,
    }
}

/// The path of the attempt is the first that is free.
pub open spec fn is_least_free(
    dir: Seq<char>,
    source: Seq<char>,
    attempt: nat,
    taken: spec_fn(Seq<char>) -> bool,
) -> bool {
    &&& attempted_name(source, attempt) is Some
    &&& !taken(attempted_path(dir, source, attempt))
    &&& forall|earlier: nat|
        earlier < attempt ==> taken(#[trigger] attempted_path(dir, source, earlier))
}

/// Every attempt's path is taken.
pub open spec fn all_taken(
    dir: Seq<char>,
    source: Seq<char>,
    taken: spec_fn(Seq<char>) -> bool,
) -> bool {
    forall|attempt: nat|
        attempt <= NUMBERED_NAMES ==> taken(#[trigger] attempted_path(dir, source, attempt))
}

proof fn lemma_search(
    dir: Seq<char>,
    source: Seq<char>,
    attempt: nat,
    taken: spec_fn(Seq<char>) -> bool,
    looks: nat,
)
    requires
        path_file_name(source) is Some,
        attempt <= NUMBERED_NAMES + 1,
        looks == NUMBERED_NAMES + 1 - attempt,
        forall|earlier: nat|
            earlier < attempt ==> taken(#[trigger] attempted_path(dir, source, earlier)),
    ensures
        match search_end(dir, source, attempt_begun(dir, source, attempt), taken, looks) {
            DestinationStepView::Look { .. } => false,
            DestinationStepView::Take(path) => exists|found: nat|
                path == #[trigger] attempted_path(dir, source, found) && is_least_free(
                    dir,
                    source,
                    found,
                    taken,
                ),
            DestinationStepView::Fail(_) => all_taken(dir, source, taken),
        },
    decreases looks,
{
    if attempt <= NUMBERED_NAMES {
        let path = attempted_path(dir, source, attempt);
        let step = attempt_begun(dir, source, attempt);
        let after = destination_after(dir, source, step, taken(path));
        assert(search_end(dir, source, step, taken, looks) == search_end(
            dir,
            source,
            after,
            taken,
            (looks - 1) as nat,
        ));
        if taken(path) {
            lemma_search(dir, source, attempt + 1, taken, (looks - 1) as nat);
        } else {
            assert(after == DestinationStepView::Take(path));
            assert(is_least_free(dir, source, attempt, taken));
        }
    }
}

/// The search for a destination always ends: it takes the path of the first attempt that is free,
/// and fails exactly where every attempt's path is taken, or the file has no name.
pub proof fn law_first_free_destination_is_taken(
    dir: Seq<char>,
    source: Seq<char>,
    taken: spec_fn(Seq<char>) -> bool,
)
    ensures
        ({
            let end = search_end(
                dir,
                source,
                attempt_begun(dir, source, 0),
                taken,
                (NUMBERED_NAMES + 1) as nat,
            );
            &&& !(end is Look)
            &&& end matches DestinationStepView::Take(path) ==> exists|found: nat|
                path == #[trigger] attempted_path(dir, source, found) && is_least_free(
                    dir,
                    source,
                    found,
                    taken,
                )
            &&& end is Fail <==> path_file_name(source) is None || all_taken(dir, source, taken)
        }),
{
    if path_file_name(source) is Some {
        lemma_search(dir, source, 0, taken, (NUMBERED_NAMES + 1) as nat);
        let end = search_end(
            dir,
            source,
            attempt_begun(dir, source, 0),
            taken,
            (NUMBERED_NAMES + 1) as nat,
        );
        if let DestinationStepView::Take(path) = end {
            let found = choose|found: nat|
                path == #[trigger] attempted_path(dir, source, found) && is_least_free(
                    dir,
                    source,
                    found,
                    taken,
                );
            assert(found <= NUMBERED_NAMES);
            assert(!taken(attempted_path(dir, source, found)));
        }
    }
}

proof fn lemma_dot(name: Seq<char>)
    ensures
        dot_index(name) matches Some(at) ==> 0 < at < name.len() && name[at] == '.',
    decreases name.len(),
{
    if name.len() > 1 && name.last() != '.' {
        lemma_dot(name.drop_last());
    }
}

proof fn lemma_same_middle(
    front: Seq<char>,
    a: Seq<char>,
    b: Seq<char>,
    back: Seq<char>,
)
    requires
        front + a + back == front + b + back,
    ensures
        a == b,
{
    let one = front + a + back;
    let other = front + b + back;
    assert(one.len() == other.len());
    assert(a.len() == b.len());
    assert forall|i: int| 0 <= i < a.len() implies a[i] == b[i] by {
        assert(one[front.len() + i] == a[i]);
        assert(other[front.len() + i] == b[i]);
    }
    assert(a =~= b);
}

/// No name is tried twice.
pub proof fn law_attempted_names_differ(source: Seq<char>, first: nat, second: nat)
    requires
        first < second <= NUMBERED_NAMES,
        path_file_name(source) is Some,
    ensures
        attempted_name(source, first) != attempted_name(source, second),
{
    let front = numbered_stem(source) + "-"@;
    let back = match path_extension(source) {
        Some(ext) => "."@ + ext,
        None => Seq::empty(),
    };
    let late = numbered_name(source, second);
    assert(late =~= front + decimal(second) + back);
    if first == 0 {
        let name = path_file_name(source)->0;
        lemma_dot(name);
        reveal_strlit(".");
        reveal_strlit("-");
        if dot_index(name) is Some {
            assert(numbered_stem(source) == name.take(dot_index(name)->0));
            assert(late.len() > name.len());
        } else {
            if name.len() > 0 {
                assert(numbered_stem(source) == name);
            }
            assert(late.len() > name.len());
        }
    } else {
        let early = numbered_name(source, first);
        assert(early =~= front + decimal(first) + back);
        if early == late {
            lemma_same_middle(front, decimal(first), decimal(second), back);
            law_decimal_injective(first, second);
        }
    }
}

// ---------------------------------------------------------------------------------------------
// Moving a file

/// The steps of moving a file to its destination.
#[derive(Debug, Clone, Copy, PartialEq, Eq, Structural)]
pub enum MoveStep {
    Rename,
    Copy,
    RemoveOriginal,
    Moved,
    /// The copy failed after the renaming had failed.
    CopyFailed,
    /// The original could not be removed after it was copied.
    RemoveFailed,
}

/// A file is renamed, or else copied and then removed.
pub open spec fn move_after(step: MoveStep, succeeded: bool) -> MoveStep {
    match step {
        MoveStep::Rename => if succeeded {
            MoveStep::Moved
        } else {
            MoveStep::Copy
        },
        MoveStep::Copy => if succeeded {
            MoveStep::RemoveOriginal
        } else {
            MoveStep::CopyFailed
        },
        MoveStep::RemoveOriginal => if succeeded {
            MoveStep::Moved
        } else {
            MoveStep::RemoveFailed
        },
        _ => step,
    }
}

pub fn next_move_step(step: MoveStep, succeeded: bool) -> (r: MoveStep)
    ensures
        r == move_after(step, succeeded),
{
    match step {
        MoveStep::Rename => if succeeded {
            MoveStep::Moved
        } else {
            MoveStep::Copy
        },
        MoveStep::Copy => if succeeded {
            MoveStep::RemoveOriginal
        } else {
            MoveStep::CopyFailed
        },
        MoveStep::RemoveOriginal => if succeeded {
            MoveStep::Moved
        } else {
            MoveStep::RemoveFailed
        },
        _ => step,
    }
}

/// The step after the given outcomes.
pub open spec fn move_standing(outcomes: Seq<bool>) -> MoveStep
    decreases outcomes.len(),
{
    if outcomes.len() == 0 {
        MoveStep::Rename
    } else {
        move_after(move_standing(outcomes.drop_last()), outcomes.last())
    }
}

/// The original is removed only after it was copied, and only where renaming failed.
pub proof fn law_original_is_removed_after_the_copy(outcomes: Seq<bool>)
    requires
        move_standing(outcomes) is RemoveOriginal,
    ensures
        outcomes.len() == 2,
        !outcomes[0],
        outcomes[1],
{
    reveal_with_fuel(move_standing, 4);
    lemma_move_is_short(outcomes);
    assert(outcomes.drop_last().last() == outcomes[0]);
}

proof fn lemma_move_is_short(outcomes: Seq<bool>)
    ensures
        move_standing(outcomes) is Rename ==> outcomes.len() == 0,
        move_standing(outcomes) is Copy ==> outcomes.len() == 1,
        move_standing(outcomes) is RemoveOriginal ==> outcomes.len() == 2,
    decreases outcomes.len(),
{
    if outcomes.len() > 0 {
        lemma_move_is_short(outcomes.drop_last());
    }
}

// ---------------------------------------------------------------------------------------------
// Text documents

/// What a new file is.
#[derive(Debug, Clone, Copy, PartialEq, Eq, Structural)]
pub enum FileKind {
    Pdf,
    Document,
    Other,
}

pub open spec fn kind_of(config: AppConfig, path: Seq<char>) -> FileKind {
    if has_extension(path, "pdf"@) {
        FileKind::Pdf
    } else if config.supports(path) {
        FileKind::Document
    } else {
        FileKind::Other
    }
}

pub fn classify_file(config: &AppConfig, path: &str) -> (r: FileKind)
    ensures
        r == kind_of(*config, path@),
{
    if is_pdf_path(path) {
        FileKind::Pdf
    } else if config.supports_path(path) {
        FileKind::Document
    } else {
        FileKind::Other
    }
}

/// The steps of taking in a document.
#[derive(Debug, Clone, Copy, PartialEq, Eq, Structural)]
pub enum DocumentStep {
    Read,
    Embed,
    ChooseDestination,
    /// Write the row in a transaction that is still open.
    WriteRow,
    /// Commit the transaction, so that the row stays.
    Commit,
    MoveFile,
    /// The file could not be moved: put the database back as it was before the row.
    TakeBackRow,
    Done,
    /// The work ends here. A row that was not committed goes with its transaction.
    Failed,
}

/// Each step follows the one before it where that succeeded. Where a step fails the work ends, and
/// a row that was committed is taken back first.
pub open spec fn document_after(step: DocumentStep, succeeded: bool) -> DocumentStep {
    if step is Done || step is Failed {
        step
    } else if step is TakeBackRow {
        DocumentStep::Failed
    } else if !succeeded {
        if step is MoveFile {
            DocumentStep::TakeBackRow
        } else {
            DocumentStep::Failed
        }
    } else {
        match step {
            DocumentStep::Read => DocumentStep::Embed,
            DocumentStep::Embed => DocumentStep::ChooseDestination,
            DocumentStep::ChooseDestination => DocumentStep::WriteRow,
            DocumentStep::WriteRow => DocumentStep::Commit,
            DocumentStep::Commit => DocumentStep::MoveFile,
            _ => DocumentStep::Done,
        }
    }
}

pub fn next_document_step(step: DocumentStep, succeeded: bool) -> (r: DocumentStep)
    ensures
        r == document_after(step, succeeded),
{
    match step {
        DocumentStep::Done => step,
        DocumentStep::Failed => step,
        DocumentStep::TakeBackRow => DocumentStep::Failed,
        DocumentStep::MoveFile => if succeeded {
            DocumentStep::Done
        } else {
            DocumentStep::TakeBackRow
        },
        _ => {
            if !succeeded {
                return DocumentStep::Failed;
            }
            match step {
                DocumentStep::Read => DocumentStep::Embed,
                DocumentStep::Embed => DocumentStep::ChooseDestination,
                DocumentStep::ChooseDestination => DocumentStep::WriteRow,
                DocumentStep::WriteRow => DocumentStep::Commit,
                _ => DocumentStep::MoveFile,
            }
        },
    }
}

/// The step after the given outcomes.
pub open spec fn document_standing(outcomes: Seq<bool>) -> DocumentStep
    decreases outcomes.len(),
{
    if outcomes.len() == 0 {
        DocumentStep::Read
    } else {
        document_after(document_standing(outcomes.drop_last()), outcomes.last())
    }
}

/// The place of a step among the steps.
pub open spec fn step_number(step: DocumentStep) -> nat {
    match step {
        DocumentStep::Read => 0,
        DocumentStep::Embed => 1,
        DocumentStep::ChooseDestination => 2,
        DocumentStep::WriteRow => 3,
        DocumentStep::Commit => 4,
        DocumentStep::MoveFile => 5,
        _ => 6,
    }
}

proof fn lemma_all_before_succeeded(outcomes: Seq<bool>)
    requires
        !(document_standing(outcomes) is Failed),
    ensures
        document_standing(outcomes) is Done ==> outcomes.len() >= 6,
        !(document_standing(outcomes) is Done) ==> outcomes.len() == step_number(
            document_standing(outcomes),
        ),
        forall|i: int|
            0 <= i < outcomes.len() && i < step_number(document_standing(outcomes)) && (i
                < step_number(DocumentStep::MoveFile) || !(document_standing(
                outcomes,
            ) is TakeBackRow)) ==> #[trigger] outcomes[i],
    decreases outcomes.len(),
{
    if outcomes.len() > 0 {
        let short = outcomes.drop_last();
        lemma_all_before_succeeded(short);
        assert forall|i: int|
            0 <= i < outcomes.len() && i < step_number(document_standing(outcomes)) && (i
                < step_number(DocumentStep::MoveFile) || !(document_standing(
                outcomes,
            ) is TakeBackRow)) implies #[trigger] outcomes[i] by {
            if i < short.len() {
                assert(short[i] == outcomes[i]);
            }
        }
    }
}

/// A file is moved only after its embedding was generated, and its row was written and committed.
pub proof fn law_file_moves_after_embedding_and_row(outcomes: Seq<bool>)
    requires
        document_standing(outcomes) is MoveFile,
    ensures
        outcomes.len() == 5,
        outcomes[step_number(DocumentStep::Embed) as int],
        outcomes[step_number(DocumentStep::WriteRow) as int],
        outcomes[step_number(DocumentStep::Commit) as int],
{
    lemma_all_before_succeeded(outcomes);
}

/// Where the embedding or the database fails, the file is never moved, whatever follows.
pub proof fn law_failed_document_stays_where_it_is(outcomes: Seq<bool>, i: int)
    requires
        0 <= i < outcomes.len(),
        i <= step_number(DocumentStep::Commit),
        !outcomes[i],
    ensures
        !(document_standing(outcomes) is MoveFile),
        !(document_standing(outcomes) is TakeBackRow),
        !(document_standing(outcomes) is Done),
{
    if !(document_standing(outcomes) is Failed) {
        lemma_all_before_succeeded(outcomes);
    }
}

/// Whether the row of the document is in the database after the given outcomes.
pub open spec fn row_stands(outcomes: Seq<bool>) -> bool
    decreases outcomes.len(),
{
    if outcomes.len() == 0 {
        false
    } else {
        let step = document_standing(outcomes.drop_last());
        if step is Commit && outcomes.last() {
            true
        } else if step is TakeBackRow && outcomes.last() {
            false
        } else {
            row_stands(outcomes.drop_last())
        }
    }
}

/// Wherever the row was to be taken back, it was.
pub open spec fn rows_go_when_asked(outcomes: Seq<bool>) -> bool {
    forall|n: int|
        0 <= n < outcomes.len() && document_standing(#[trigger] outcomes.take(n)) is TakeBackRow
            ==> outcomes[n]
}

proof fn lemma_row(outcomes: Seq<bool>)
    requires
        rows_go_when_asked(outcomes),
    ensures
        row_stands(outcomes) == (document_standing(outcomes) is MoveFile || document_standing(
            outcomes,
        ) is TakeBackRow || document_standing(outcomes) is Done),
    decreases outcomes.len(),
{
    if outcomes.len() > 0 {
        let short = outcomes.drop_last();
        assert forall|n: int|
            0 <= n < short.len() && document_standing(
                #[trigger] short.take(n),
            ) is TakeBackRow implies short[n] by {
            assert(short.take(n) =~= outcomes.take(n));
        }
        lemma_row(short);
        assert(short =~= outcomes.take(outcomes.len() - 1));
    }
}

/// A document that was taken in has its row, and one that was not leaves none, also where only the
/// file could not be moved. The database must let a row go again.
pub proof fn law_row_stands_only_for_a_moved_file(outcomes: Seq<bool>)
    requires
        rows_go_when_asked(outcomes),
    ensures
        document_standing(outcomes) is Done ==> row_stands(outcomes)
            && outcomes[step_number(DocumentStep::MoveFile) as int],
        document_standing(outcomes) is Failed ==> !row_stands(outcomes),
{
    lemma_row(outcomes);
    if document_standing(outcomes) is Done {
        lemma_all_before_succeeded(outcomes);
    }
}

/// After a failure nothing more is done.
pub proof fn law_failure_is_final(outcomes: Seq<bool>, more: Seq<bool>)
    requires
        document_standing(outcomes) is Failed,
    ensures
        document_standing(outcomes + more) is Failed,
    decreases more.len(),
{
    if more.len() == 0 {
        assert(outcomes + more =~= outcomes);
    } else {
        law_failure_is_final(outcomes, more.drop_last());
        assert((outcomes + more).drop_last() =~= outcomes + more.drop_last());
    }
}

/// A row of the database.
#[derive(Debug)]
pub struct DocumentRecord {
    pub path: String,
    pub summary: String,
    pub provider: String,
    pub dimensions: i64,
    pub vector: String,
    pub status: String,
}

/// What a row keeps of the content.
pub open spec fn summary_of(content: Seq<char>) -> Seq<char> {
    clipped(content, 100)
}

/// The row for a document, with the beginning of its content.
pub fn document_record(
    path: &str,
    content: &str,
    provider: &str,
    dimensions: usize,
    vector: &str,
    status: &str,
) -> (r: DocumentRecord)
    requires
        dimensions <= i64::MAX,
    ensures
        r.path@ == path@,
        r.summary@ == summary_of(content@),
        r.summary@ == clipped(content@, 100),
        r.provider@ == provider@,
        r.dimensions == dimensions,
        r.vector@ == vector@,
        r.status@ == status@,
{
    DocumentRecord {
        path: path.to_owned(),
        summary: summarize(content, SUMMARY_CHARS),
        provider: provider.to_owned(),
        dimensions: dimensions as i64,
        vector: vector.to_owned(),
        status: status.to_owned(),
    }
}

/// What is said of a processed document.
pub open spec fn processed_text(
    path: Seq<char>,
    provider: Seq<char>,
    status: Seq<char>,
    dimensions: nat,
    summary: Seq<char>,
) -> Seq<char> {
    "Processed document:\nFile: "@ + (match path_file_name(path) {
        Some(name) => name,
        None => "<unknown>"@,
    }) + "\nMoved to: "@ + path + "\nEmbedding provider: "@ + provider + "\nEmbedding result: "@
        + status + "\nVector dimensions: "@ + decimal(dimensions) + "\nSummary: "@ + summary
}

pub fn processed_message(
    path: &str,
    provider: &str,
    status: &str,
    dimensions: usize,
    summary: &str,
) -> (r: String)
    ensures
        r@ == processed_text(path@, provider@, status@, dimensions as nat, summary@),
{
    let mut text = "Processed document:\nFile: ".to_owned();
    match file_name(path) {
        Some(name) => text.append(name.as_str()),
        None => text.append("<unknown>"),
    }
    text.append("\nMoved to: ");
    text.append(path);
    text.append("\nEmbedding provider: ");
    text.append(provider);
    text.append("\nEmbedding result: ");
    text.append(status);
    text.append("\nVector dimensions: ");
    text.append(render_usize(dimensions).as_str());
    text.append("\nSummary: ");
    text.append(summary);
    text
}

// ---------------------------------------------------------------------------------------------
// PDF files

pub const PDF_EMPTY: &'static str = "telegram-pdf-empty";

pub const PDF_UPLOADING: &'static str = "telegram-pdf-uploading";

pub const PDF_FORWARDED: &'static str = "telegram-pdf-forwarded";

pub const PDF_FORWARD_FAILED: &'static str = "telegram-pdf-forward-failed";

/// Whether a PDF file with this status needs no more attention.
pub open spec fn is_settled(status: Seq<char>) -> bool {
    status == PDF_FORWARDED@ || status == PDF_UPLOADING@ || status == PDF_EMPTY@
}

/// What to do about a PDF file.
#[derive(Debug, Clone, Copy, PartialEq, Eq, Structural)]
pub enum PdfStep {
    /// Nothing.
    Skip,
    /// Say that there is no chat to forward the file to.
    ReportUnconfigured,
    /// Look at the size of the file.
    Inspect,
    /// Record the file as empty, and say so.
    RecordEmpty,
    /// Record that the file is being forwarded, and forward it.
    Forward,
}

/// Whether a PDF file is forwarded at all.
pub open spec fn is_forwardable(config: AppConfig, path: Seq<char>) -> bool {
    !config.processed(path) && has_extension(path, "pdf"@)
}

pub fn is_forwardable_pdf(config: &AppConfig, path: &str) -> (r: bool)
    ensures
        r == is_forwardable(*config, path@),
{
    !config.is_processed_path(path) && is_pdf_path(path)
}

/// The step for a PDF file with the status that is on record, if any.
pub open spec fn pdf_step(config: AppConfig, path: Seq<char>, status: Option<Seq<char>>) -> PdfStep {
    if !is_forwardable(config, path) || (status is Some && is_settled(status->0)) {
        PdfStep::Skip
    } else if !pushes(config.telegram) {
        PdfStep::ReportUnconfigured
    } else {
        PdfStep::Inspect
    }
}

pub fn plan_pdf(config: &AppConfig, path: &str, status: Option<&str>) -> (r: PdfStep)
    ensures
        r == pdf_step(*config, path@, optional_str(status)),
{
    if !is_forwardable_pdf(config, path) {
        return PdfStep::Skip;
    }
    if let Some(known) = status {
        if same(known, PDF_FORWARDED) || same(known, PDF_UPLOADING) || same(known, PDF_EMPTY) {
            return PdfStep::Skip;
        }
    }
    if !pushes_notifications(&config.telegram) {
        return PdfStep::ReportUnconfigured;
    }
    PdfStep::Inspect
}

/// The step for a PDF file of the given size.
pub open spec fn sized_step(size: u64) -> PdfStep {
    if size == 0 {
        PdfStep::RecordEmpty
    } else {
        PdfStep::Forward
    }
}

/// The status after an attempt to forward a PDF file.
pub open spec fn status_after(succeeded: bool) -> Seq<char> {
    if succeeded {
        PDF_FORWARDED@
    } else {
        PDF_FORWARD_FAILED@
    }
}

/// The step for a PDF file of the given size.
pub fn plan_sized_pdf(size: u64) -> (r: PdfStep)
    ensures
        r == sized_step(size),
        size == 0 ==> r is RecordEmpty,
        size > 0 ==> r is Forward,
{
    if size == 0 {
        PdfStep::RecordEmpty
    } else {
        PdfStep::Forward
    }
}

/// The status to record after an attempt to forward a PDF file.
pub fn forwarded_status(succeeded: bool) -> (r: &'static str)
    ensures
        r@ == status_after(succeeded),
        r@ == (if succeeded {
            PDF_FORWARDED@
        } else {
            PDF_FORWARD_FAILED@
        }),
{
    if succeeded {
        PDF_FORWARDED
    } else {
        PDF_FORWARD_FAILED
    }
}

/// The row that keeps track of a PDF file.
pub fn pdf_record(path: &str, status: &str) -> (r: DocumentRecord)
    ensures
        r.path@ == path@,
        r.summary@ == status@,
        r.provider@ == "telegram"@,
        r.dimensions == 0,
        r.vector@ == ""@,
        r.status@ == status@,
{
    DocumentRecord {
        path: path.to_owned(),
        summary: status.to_owned(),
        provider: "telegram".to_owned(),
        dimensions: 0,
        vector: "".to_owned(),
        status: status.to_owned(),
    }
}

/// The caption of a forwarded PDF file.
pub fn pdf_caption(path: &str) -> (r: String)
    ensures
        r@ == (match path_file_name(path@) {
            Some(name) => "New PDF: "@ + name,
            None => "New PDF"@,
        }),
{
    match file_name(path) {
        Some(name) => concat("New PDF: ", name.as_str()),
        None => "New PDF".to_owned(),
    }
}

/// Why a PDF file is not forwarded.
pub fn pdf_skip_notice(path: &str, is_empty: bool) -> (r: String)
    ensures
        r@ == "Skipping PDF upload for "@ + path@ + (if is_empty {
            " because the file is empty"@
        } else {
            " because Telegram proactive notifications are not configured"@
        }),
{
    let mut text = "Skipping PDF upload for ".to_owned();
    text.append(path);
    text.append(
        if is_empty {
            " because the file is empty"
        } else {
            " because Telegram proactive notifications are not configured"
        },
    );
    text
}

/// A PDF file is not forwarded again while it is being forwarded, after it was, or where it was
/// empty; after a failure it is.
pub proof fn law_pdf_is_forwarded_once(config: AppConfig, path: Seq<char>)
    ensures
        pdf_step(config, path, Some(PDF_FORWARDED@)) is Skip,
        pdf_step(config, path, Some(PDF_UPLOADING@)) is Skip,
        pdf_step(config, path, Some(PDF_EMPTY@)) is Skip,
        is_forwardable(config, path) && pushes(config.telegram) ==> pdf_step(
            config,
            path,
            Some(PDF_FORWARD_FAILED@),
        ) is Inspect,
        is_forwardable(config, path) && pushes(config.telegram) ==> pdf_step(
            config,
            path,
            None,
        ) is Inspect,
{
    reveal_strlit("telegram-pdf-forward-failed");
    reveal_strlit("telegram-pdf-forwarded");
    reveal_strlit("telegram-pdf-uploading");
    reveal_strlit("telegram-pdf-empty");
    assert(PDF_FORWARD_FAILED@.len() == 27);
    assert(PDF_FORWARDED@.len() == 22);
    assert(PDF_UPLOADING@.len() == 22);
    assert(PDF_EMPTY@.len() == 18);
}

// ---------------------------------------------------------------------------------------------
// Submissions

/// Whether a file that came with a message can be stored.
pub open spec fn is_text_file(file_name: Seq<char>) -> bool {
    has_extension(file_name, "txt"@) || has_extension(file_name, "md"@)
}

pub fn accepts_submission(file_name: &str) -> (r: bool)
    ensures
        r == is_text_file(file_name@),
{
    path_has_extension(file_name, "txt") || path_has_extension(file_name, "md")
}

pub const ONLY_TEXT_FILES: &'static str = "only .txt and .md files are supported for /new";

/// Where Telegram keeps a file.
pub fn telegram_file_url(bot_token: &str, file_path: &str) -> (r: String)
    ensures
        r@ == "https://api.telegram.org/file/bot"@ + bot_token@ + "/"@ + file_path@,
{
    let mut url = "https://api.telegram.org/file/bot".to_owned();
    url.append(bot_token);
    url.append("/");
    url.append(file_path);
    url
}

// ---------------------------------------------------------------------------------------------
// Laws

/// Every file that is watched is a document or a PDF file, and none of those lies among the
/// processed ones; a file of neither kind is not watched.
pub proof fn law_watched_files_have_a_kind(config: AppConfig, path: Seq<char>)
    ensures
        watched(config, path) ==> !(kind_of(config, path) is Other) && !config.processed(path),
        kind_of(config, path) is Other ==> !watched(config, path),
        config.processed(path) ==> !watched(config, path) && !is_forwardable(config, path),
        !config.processed(path) && kind_of(config, path) is Pdf ==> watched(config, path),
        kind_of(config, path) is Document ==> watched(config, path) && !has_extension(
            path,
            "pdf"@,
        ),
{
}

/// A file keeps its name where that is free, and otherwise gets a number before its extension; the
/// extension stays, and the place is always in the given directory.
pub proof fn law_destination_keeps_the_name(
    dir: Seq<char>,
    base: Seq<char>,
    stem: Seq<char>,
    ext: Seq<char>,
    attempt: nat,
)
    requires
        stem.len() > 0,
        !stem.contains('/'),
        !ext.contains('/'),
        !ext.contains('.'),
        ext.len() > 0,
        1 <= attempt <= 9_999,
    ensures
        ({
            let source = path_join(base, stem.push('.') + ext);
            let numbered = (stem + seq!['-'] + decimal(attempt)).push('.') + ext;
            &&& attempted_path(dir, source, 0) == path_join(dir, stem.push('.') + ext)
            &&& attempted_path(dir, source, attempt) == path_join(dir, numbered)
            &&& path_extension(attempted_path(dir, source, 0)) == Some(ext)
            &&& path_extension(attempted_path(dir, source, attempt)) == Some(ext)
            &&& path_under(attempted_path(dir, source, 0), dir)
            &&& path_under(attempted_path(dir, source, attempt), dir)
            &&& attempted_name(source, 10_000) is None
        }),
{
    let plain = seq!['a'];
    assert(is_file_name(plain)) by {
        assert(plain[0] == 'a');
    }
    let name = stem.push('.') + ext;
    let longer = stem + seq!['-'] + decimal(attempt);
    let numbered = longer.push('.') + ext;
    lemma_decimal(attempt);
    assert(name != seq!['.', '.']) by {
        if name == seq!['.', '.'] {
            assert(name[1] == ext[0]);
            assert(ext.contains(ext[0]));
        }
    }
    assert(!longer.contains('/')) by {
        assert forall|i: int| 0 <= i < longer.len() implies longer[i] != '/' by {
            if i < stem.len() {
                assert(stem.contains(stem[i]));
            } else if i > stem.len() {
                assert(longer[i] == decimal(attempt)[i - stem.len() - 1]);
            }
        }
    }
    assert(numbered.len() > 2);
    law_extension_follows_the_last_dot(base, stem, ext, plain);
    law_extension_follows_the_last_dot(dir, stem, ext, plain);
    law_extension_follows_the_last_dot(dir, longer, ext, plain);
    lemma_dotted_name(stem, ext);
    lemma_dotted_name(longer, ext);
    law_joining_adds_the_name(base, name);
    law_joining_adds_the_name(dir, name);
    law_joining_adds_the_name(dir, numbered);
    reveal_strlit("-");
    reveal_strlit(".");
    let source = path_join(base, name);
    assert(numbered_name(source, attempt) =~= numbered);
}

proof fn lemma_dotted_name(stem: Seq<char>, ext: Seq<char>)
    requires
        stem.len() > 0,
        !stem.contains('/'),
        !ext.contains('/'),
        stem.push('.') + ext != seq!['.', '.'],
    ensures
        is_file_name(stem.push('.') + ext),
{
    let name = stem.push('.') + ext;
    assert forall|i: int| 0 <= i < name.len() implies name[i] != '/' by {
        if i < stem.len() {
            assert(stem.contains(stem[i]));
        } else if i > stem.len() {
            assert(ext.contains(ext[i - stem.len() - 1]));
        }
    }
    assert(name.len() >= 2);
    assert(name != seq!['.']);
}

/// A file is moved exactly if it was renamed, or else copied and then removed.
pub proof fn law_file_is_moved_by_renaming_or_copying(outcomes: Seq<bool>)
    ensures
        move_standing(outcomes) is Moved <==> (outcomes.len() >= 1 && outcomes[0]) || (
        outcomes.len() >= 3 && !outcomes[0] && outcomes[1] && outcomes[2]),
        move_standing(outcomes) is CopyFailed <==> outcomes.len() >= 2 && !outcomes[0]
            && !outcomes[1],
        move_standing(outcomes) is RemoveFailed <==> outcomes.len() >= 3 && !outcomes[0]
            && outcomes[1] && !outcomes[2],
        move_standing(outcomes) is Copy <==> outcomes.len() == 1 && !outcomes[0],
    decreases outcomes.len(),
{
    if outcomes.len() > 0 {
        let before = outcomes.drop_last();
        law_file_is_moved_by_renaming_or_copying(before);
        lemma_move_is_short(before);
        lemma_move_is_short(outcomes);
        if before.len() > 0 {
            assert(before[0] == outcomes[0]);
        }
        if before.len() > 1 {
            assert(before[1] == outcomes[1]);
        }
        if before.len() > 2 {
            assert(before[2] == outcomes[2]);
        }
        assert(outcomes[outcomes.len() - 1] == outcomes.last());
    }
}

/// A document is done exactly if it was read and embedded, a place was found, its row was written
/// and committed and the file was moved, each at the first try.
pub proof fn law_document_is_done_when_every_step_succeeded(outcomes: Seq<bool>)
    ensures
        document_standing(outcomes) is Done <==> outcomes.len() >= 6 && outcomes[0] && outcomes[1]
            && outcomes[2] && outcomes[3] && outcomes[4] && outcomes[5],
        document_standing(outcomes) is TakeBackRow <==> outcomes.len() == 6 && outcomes[0]
            && outcomes[1] && outcomes[2] && outcomes[3] && outcomes[4] && !outcomes[5],
        outcomes.len() < 6 ==> step_number(document_standing(outcomes)) == outcomes.len()
            || document_standing(outcomes) is Failed,
        outcomes.len() < 6 ==> (document_standing(outcomes) is Failed <==> !(forall|i: int|
            0 <= i < outcomes.len() ==> #[trigger] outcomes[i])),
    decreases outcomes.len(),
{
    if outcomes.len() > 0 {
        let before = outcomes.drop_last();
        law_document_is_done_when_every_step_succeeded(before);
        if !(document_standing(before) is Failed) {
            lemma_all_before_succeeded(before);
        }
        if !(document_standing(outcomes) is Failed) {
            lemma_all_before_succeeded(outcomes);
        }
        assert(forall|i: int| 0 <= i < before.len() ==> before[i] == outcomes[i]);
        assert(outcomes[outcomes.len() - 1] == outcomes.last());
        if outcomes.len() < 6 && !(document_standing(outcomes) is Failed) {
            assert forall|i: int| 0 <= i < outcomes.len() implies #[trigger] outcomes[i] by {
                if i < before.len() {
                    assert(before[i]);
                }
            }
        }
        if forall|i: int| 0 <= i < outcomes.len() ==> #[trigger] outcomes[i] {
            assert forall|i: int| 0 <= i < before.len() implies #[trigger] before[i] by {
                assert(outcomes[i]);
            }
        }
        if before.len() == 5 && outcomes[0] && outcomes[1] && outcomes[2] && outcomes[3]
            && outcomes[4] {
            assert forall|i: int| 0 <= i < before.len() implies #[trigger] before[i] by {
                assert(i == 0 || i == 1 || i == 2 || i == 3 || i == 4);
            }
        }
    }
}

/// A PDF file that waits to be forwarded is reported where there is no chat for it, and one that
/// was forwarded needs no more attention, unlike one whose forwarding failed.
pub proof fn law_pdf_waits_for_a_chat(config: AppConfig, path: Seq<char>, status: Seq<char>)
    ensures
        is_settled("telegram-pdf-forwarded"@),
        is_settled("telegram-pdf-uploading"@),
        is_settled("telegram-pdf-empty"@),
        !is_settled("telegram-pdf-forward-failed"@),
        is_forwardable(config, path) && !pushes(config.telegram) ==> pdf_step(
            config,
            path,
            None,
        ) is ReportUnconfigured,
        is_forwardable(config, path) && !pushes(config.telegram) && !is_settled(status) ==> pdf_step(
            config,
            path,
            Some(status),
        ) is ReportUnconfigured,
        !is_forwardable(config, path) ==> pdf_step(config, path, None) is Skip && pdf_step(
            config,
            path,
            Some(status),
        ) is Skip,
{
    reveal_strlit("telegram-pdf-forward-failed");
    reveal_strlit("telegram-pdf-forwarded");
    reveal_strlit("telegram-pdf-uploading");
    reveal_strlit("telegram-pdf-empty");
    assert("telegram-pdf-forward-failed"@.len() == 27);
}

/// Text and Markdown files are accepted, known by their extension in any case, and no others.
pub proof fn law_only_text_files_are_accepted(stem: Seq<char>, ext: Seq<char>)
    requires
        stem.len() > 0,
        !stem.contains('/'),
        !ext.contains('/'),
        !ext.contains('.'),
        ext.len() > 0,
    ensures
        is_text_file(stem.push('.') + ext) <==> lowered(ext) == "txt"@ || lowered(ext) == "md"@,
{
    let name = stem.push('.') + ext;
    law_extension_is_compared_in_any_case(Seq::empty(), stem, ext, "txt"@);
    law_extension_is_compared_in_any_case(Seq::empty(), stem, ext, "md"@);
    assert(path_join(Seq::empty(), name) =~= name) by {
        if is_absolute_path(name) {
            assert(name[0] == stem[0]);
            assert(stem.contains(stem[0]));
        }
        assert(Seq::<char>::empty() + name =~= name);
    }
}

/// What is said of a processed document names its file, its place, its provider and its size, and
/// ends with its summary.
pub proof fn law_processed_document_is_described(
    dir: Seq<char>,
    name: Seq<char>,
    provider: Seq<char>,
    status: Seq<char>,
    dimensions: nat,
    summary: Seq<char>,
)
    requires
        is_file_name(name),
    ensures
        ({
            let path = path_join(dir, name);
            let text = processed_text(path, provider, status, dimensions, summary);
            &&& has_prefix(text, "Processed document:\nFile: "@ + name)
            &&& occurs_in(text, "\nMoved to: "@ + path)
            &&& occurs_in(text, "\nEmbedding provider: "@ + provider)
            &&& occurs_in(text, "\nEmbedding result: "@ + status)
            &&& occurs_in(text, "\nVector dimensions: "@ + decimal(dimensions))
            &&& occurs_in(text, "\nSummary: "@ + summary)
            &&& summary.is_suffix_of(text)
        }),
{
    broadcast use lemma_still_occurs;
    broadcast use lemma_occurs_behind;

    law_joining_adds_the_name(dir, name);
    let path = path_join(dir, name);
    let text = processed_text(path, provider, status, dimensions, summary);
    let start = "Processed document:\nFile: "@ + name;
    assert(text.take(start.len() as int) =~= start);
    assert(text.skip(text.len() - summary.len()) =~= summary);
}

/// A row keeps the beginning of the content: all of it up to a hundred characters.
pub proof fn law_summary_is_the_beginning(content: Seq<char>)
    ensures
        summary_of(content).is_prefix_of(content),
        content.len() <= 100 ==> summary_of(content) == content,
        content.len() > 100 ==> summary_of(content).len() == 100,
{
    law_shortened_text_is_its_beginning(content, 100);
}

/// A PDF file with something in it is forwarded, and once it was it is left alone; after a failure
/// it is tried again.
pub proof fn law_forwarding_settles_a_pdf(
    config: AppConfig,
    path: Seq<char>,
    size: u64,
    succeeded: bool,
)
    ensures
        sized_step(size) is Forward <==> size > 0,
        sized_step(size) is RecordEmpty <==> size == 0,
        is_settled(status_after(succeeded)) <==> succeeded,
        is_forwardable(config, path) && pushes(config.telegram) ==> (pdf_step(
            config,
            path,
            Some(status_after(succeeded)),
        ) is Skip <==> succeeded),
{
    law_pdf_waits_for_a_chat(config, path, status_after(succeeded));
}

} // verus!
