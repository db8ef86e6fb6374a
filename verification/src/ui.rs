//! Texts for the terminal, painted where the terminal shows colours.

use vstd::prelude::*;

verus! {

pub const RESET: &'static str = "\x1b[0m";

pub const BOLD: &'static str = "\x1b[1m";

pub const DIM: &'static str = "\x1b[2m";

pub const BOLD_BLUE: &'static str = "\x1b[1m\x1b[34m";

pub const BOLD_CYAN: &'static str = "\x1b[1m\x1b[36m";

pub const BOLD_GREEN: &'static str = "\x1b[1m\x1b[32m";

pub const BOLD_MAGENTA: &'static str = "\x1b[1m\x1b[35m";

pub const BOLD_RED: &'static str = "\x1b[1m\x1b[31m";

pub const BOLD_YELLOW: &'static str = "\x1b[1m\x1b[33m";

/// The text between its codes and the reset, or alone where nothing is painted.
pub open spec fn painted(text: Seq<char>, codes: Seq<char>, enabled: bool) -> Seq<char> {
    if enabled {
        codes + text + RESET@
    } else {
        text
    }
}

/// Paints the text, where painting is enabled.
pub fn paint(text: &str, codes: &str, enabled: bool) -> (r: String)
    ensures
        r@ == painted(text@, codes@, enabled),
{
    if !enabled {
        return text.to_owned();
    }
    let mut r = codes.to_owned();
    r.append(text);
    r.append(RESET);
    r
}

/// `std::io::IsTerminal::is_terminal` on the standard output. Nothing is claimed of the answer,
/// which depends on where the process was started.
#[verifier::external_body]
fn stdout_is_terminal() -> bool {
    std::io::IsTerminal::is_terminal(&std::io::stdout())
}

/// Paints the text if the standard output is a terminal.
fn paint_stdout(text: &str, codes: &str) -> (r: String)
    ensures
        exists|enabled: bool| r@ == #[trigger] painted(text@, codes@, enabled),
{
    let enabled = stdout_is_terminal();
    paint(text, codes, enabled)
}

pub fn ok_label() -> (r: String)
    ensures
        exists|enabled: bool| r@ == #[trigger] painted("[ok]"@, BOLD_GREEN@, enabled),
{
    paint_stdout("[ok]", BOLD_GREEN)
}

pub fn warn_label() -> (r: String)
    ensures
        exists|enabled: bool| r@ == #[trigger] painted("[warn]"@, BOLD_YELLOW@, enabled),
{
    paint_stdout("[warn]", BOLD_YELLOW)
}

pub fn fail_label() -> (r: String)
    ensures
        exists|enabled: bool| r@ == #[trigger] painted("[fail]"@, BOLD_RED@, enabled),
{
    paint_stdout("[fail]", BOLD_RED)
}

pub fn info_label() -> (r: String)
    ensures
        exists|enabled: bool| r@ == #[trigger] painted("[info]"@, BOLD_CYAN@, enabled),
{
    paint_stdout("[info]", BOLD_CYAN)
}

/// A file or directory.
pub fn path(location: &str) -> (r: String)
    ensures
        exists|enabled: bool| r@ == #[trigger] painted(location@, BOLD_BLUE@, enabled),
{
    paint_stdout(location, BOLD_BLUE)
}

/// Something to type.
pub fn command(line: &str) -> (r: String)
    ensures
        exists|enabled: bool| r@ == #[trigger] painted(line@, BOLD_CYAN@, enabled),
{
    paint_stdout(line, BOLD_CYAN)
}

/// A setting or a number.
pub fn value(setting: &str) -> (r: String)
    ensures
        exists|enabled: bool| r@ == #[trigger] painted(setting@, BOLD_MAGENTA@, enabled),
{
    paint_stdout(setting, BOLD_MAGENTA)
}

pub fn heading(title: &str) -> (r: String)
    ensures
        exists|enabled: bool| r@ == #[trigger] painted(title@, BOLD@, enabled),
{
    paint_stdout(title, BOLD)
}

pub fn detail(note: &str) -> (r: String)
    ensures
        exists|enabled: bool| r@ == #[trigger] painted(note@, DIM@, enabled),
{
    paint_stdout(note, DIM)
}

/// Painting only adds around a text, and unpainted text is left alone.
pub proof fn law_painting_keeps_the_text(text: Seq<char>, codes: Seq<char>)
    ensures
        painted(text, codes, false) == text,
        painted(text, codes, true).subrange(
            codes.len() as int,
            (codes.len() + text.len()) as int,
        ) == text,
{
    assert(painted(text, codes, true).subrange(
        codes.len() as int,
        (codes.len() + text.len()) as int,
    ) =~= text);
}

/// What is painted begins with its codes and ends with the reset, so that nothing after it is
/// painted too.
pub proof fn law_painting_ends_with_the_reset(text: Seq<char>, codes: Seq<char>)
    ensures
        codes.is_prefix_of(painted(text, codes, true)),
        seq!['\x1b', '[', '0', 'm'].is_suffix_of(painted(text, codes, true)),
{
    reveal_strlit("\x1b[0m");
    let shown = painted(text, codes, true);
    assert(shown.take(codes.len() as int) =~= codes);
    assert(shown.skip(shown.len() - 4) =~= seq!['\x1b', '[', '0', 'm']);
}

} // verus!
