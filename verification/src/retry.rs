//! Which failed requests to Telegram are tried again, and when.

use vstd::prelude::*;

verus! {

use crate::numbers::{decimal, render_u64, render_usize};
use crate::text::{contains, lowered, occurs_in, stands_at, to_ascii_lowercase};

/// The most attempts at one request.
pub const TELEGRAM_API_MAX_ATTEMPTS: usize = 3;

/// Why a request to Telegram failed.
#[derive(Debug)]
pub enum TelegramError {
    /// The request did not get through.
    Http { code: u16, message: String },
    /// Telegram refused the request.
    Api { error_code: u64, description: String },
    /// The reply could not be read.
    Decode(String),
    /// The request could not be written.
    Encode(String),
}

/// Whether the text, in lower case, speaks of a failure of the network that may pass.
pub open spec fn speaks_of_transport(message: Seq<char>) -> bool {
    let text = lowered(message);
    ||| occurs_in(text, "transport"@)
    ||| occurs_in(text, "connectionfailed"@)
    ||| occurs_in(text, "connection failed"@)
    ||| occurs_in(text, "connect error"@)
    ||| occurs_in(text, "unexpectedeof"@)
    ||| occurs_in(text, "unexpected eof"@)
    ||| occurs_in(text, "status line"@)
    ||| occurs_in(text, "tls close_notify"@)
    ||| occurs_in(text, "network is unreachable"@)
    ||| occurs_in(text, "host is unreachable"@)
    ||| occurs_in(text, "connection reset"@)
    ||| occurs_in(text, "broken pipe"@)
    ||| occurs_in(text, "temporarily unavailable"@)
    ||| occurs_in(text, "timed out"@)
    ||| occurs_in(text, "timeout"@)
}

/// Whether another attempt may succeed.
pub open spec fn may_pass(error: TelegramError) -> bool {
    match error {
        TelegramError::Http { code, message } => {
            ||| code == 408
            ||| code == 500
            ||| code == 502
            ||| code == 503
            ||| code == 504
            ||| speaks_of_transport(message@)
        },
        TelegramError::Decode(message) => speaks_of_transport(message@),
        _ => false,
    }
}

pub fn looks_like_transient_telegram_transport_message(message: &str) -> (r: bool)
    ensures
        r == speaks_of_transport(message@),
{
    let lower = to_ascii_lowercase(message);
    let text = lower.as_str();
    contains(text, "transport")
        || contains(text, "connectionfailed")
        || contains(text, "connection failed")
        || contains(text, "connect error")
        || contains(text, "unexpectedeof")
        || contains(text, "unexpected eof")
        || contains(text, "status line")
        || contains(text, "tls close_notify")
        || contains(text, "network is unreachable")
        || contains(text, "host is unreachable")
        || contains(text, "connection reset")
        || contains(text, "broken pipe")
        || contains(text, "temporarily unavailable")
        || contains(text, "timed out")
        || contains(text, "timeout")
}

pub fn is_retryable_telegram_error(error: &TelegramError) -> (r: bool)
    ensures
        r == may_pass(*error),
{
    match error {
        TelegramError::Http { code, message } => {
            let code: u16 = *code;
            code == 408 || code == 500 || code == 502 || code == 503 || code == 504
                || looks_like_transient_telegram_transport_message(message.as_str())
        },
        TelegramError::Decode(message) => looks_like_transient_telegram_transport_message(
            message.as_str(),
        ),
        _ => false,
    }
}

/// How long to wait after a failed attempt, counted from 1, before the next; `None` where there
/// is no next.
pub open spec fn delay_after(attempt: nat, error: TelegramError) -> Option<u64> {
    if !may_pass(error) {
        None
    } else if attempt == 1 {
        Some(250)
    } else if attempt == 2 {
        Some(1000)
    } else {
        None
    }
}

/// The milliseconds to wait after a failed attempt, or `None` where the failure is final.
pub fn retry_delay_ms(attempt: usize, error: &TelegramError) -> (r: Option<u64>)
    requires
        attempt >= 1,
    ensures
        r == delay_after(attempt as nat, *error),
{
    if attempt < TELEGRAM_API_MAX_ATTEMPTS && is_retryable_telegram_error(error) {
        if attempt == 1 {
            Some(250)
        } else {
            Some(1000)
        }
    } else {
        None
    }
}

/// What is printed before another attempt.
pub open spec fn retry_text(
    operation: Seq<char>,
    attempt: nat,
    error: Seq<char>,
    delay: nat,
) -> Seq<char> {
    "Telegram "@ + operation + " attempt "@ + decimal(attempt)
        + " failed with a retryable transport error: "@ + error + ". Retrying in "@ + decimal(delay)
        + " ms."@
}

pub fn retry_notice(operation: &str, attempt: usize, error: &str, delay_ms: u64) -> (r: String)
    ensures
        r@ == retry_text(operation@, attempt as nat, error@, delay_ms as nat),
{
    let mut text = "Telegram ".to_owned();
    text.append(operation);
    text.append(" attempt ");
    text.append(render_usize(attempt).as_str());
    text.append(" failed with a retryable transport error: ");
    text.append(error);
    text.append(". Retrying in ");
    text.append(render_u64(delay_ms).as_str());
    text.append(" ms.");
    text
}

/// How many attempts are made at a request whose attempts fail with these errors in turn, and
/// succeed when there are no more errors.
pub open spec fn attempts_made(errors: Seq<TelegramError>, attempt: nat) -> nat
    decreases errors.len(),
{
    if errors.len() == 0 || delay_after(attempt, errors.first()) is None {
        attempt
    } else {
        attempts_made(errors.drop_first(), attempt + 1)
    }
}

/// A request is tried at least once and at most the given number of times, however often it
/// fails.
pub proof fn law_attempts_are_bounded(errors: Seq<TelegramError>)
    ensures
        1 <= attempts_made(errors, 1) <= TELEGRAM_API_MAX_ATTEMPTS,
{
    reveal_with_fuel(attempts_made, 4);
}

/// A failure that cannot pass is final at once.
pub proof fn law_lasting_failure_is_final(errors: Seq<TelegramError>)
    requires
        errors.len() > 0,
        !may_pass(errors.first()),
    ensures
        attempts_made(errors, 1) == 1,
{
}

/// The phrases by which a failure of the network is known.
pub open spec fn transport_phrases() -> Set<Seq<char>> {
    set![
        "transport"@,
        "connectionfailed"@,
        "connection failed"@,
        "connect error"@,
        "unexpectedeof"@,
        "unexpected eof"@,
        "status line"@,
        "tls close_notify"@,
        "network is unreachable"@,
        "host is unreachable"@,
        "connection reset"@,
        "broken pipe"@,
        "temporarily unavailable"@,
        "timed out"@,
        "timeout"@,
    ]
}

/// A failure of the network is known by any of its phrases, wherever the phrase stands in the
/// message and in whatever case, and by nothing else.
pub proof fn law_transport_failures_are_known(
    before: Seq<char>,
    phrase: Seq<char>,
    after: Seq<char>,
    message: Seq<char>,
)
    requires
        transport_phrases().contains(lowered(phrase)),
    ensures
        speaks_of_transport(before + phrase + after),
        speaks_of_transport(message) ==> exists|known: Seq<char>|
            transport_phrases().contains(known) && #[trigger] occurs_in(lowered(message), known),
{
    let text = lowered(before + phrase + after);
    let at = before.len() as int;
    assert(text.subrange(at, at + phrase.len()) =~= lowered(phrase));
    assert(stands_at(text, lowered(phrase), at));
    assert(occurs_in(text, lowered(phrase)));
}

/// A request that did not get through is tried again after a timeout or an error of the server;
/// what Telegram refused, and what could not be written, is not.
pub proof fn law_only_passing_failures_are_tried_again(error: TelegramError)
    ensures
        error matches TelegramError::Http { code, message } ==> may_pass(error) == (code == 408
            || code == 500 || (502 <= code <= 504) || speaks_of_transport(message@)),
        error matches TelegramError::Decode(message) ==> may_pass(error) == speaks_of_transport(
            message@,
        ),
        error is Api || error is Encode ==> !may_pass(error),
{
}

/// The pause before the third attempt is four times that before the second, and there is no fourth.
pub proof fn law_pauses_grow_and_end(error: TelegramError, attempt: nat)
    ensures
        may_pass(error) ==> delay_after(1, error) is Some && delay_after(2, error) is Some,
        may_pass(error) ==> delay_after(1, error)->0 == 250 && delay_after(2, error)->0 == 4
            * delay_after(1, error)->0,
        attempt >= 3 || !may_pass(error) ==> delay_after(attempt, error) is None,
{
}

/// A request whose first attempts fail in passing is tried until one succeeds or three were made.
pub proof fn law_passing_failures_are_outlasted(errors: Seq<TelegramError>)
    requires
        forall|i: int| 0 <= i < errors.len() ==> may_pass(#[trigger] errors[i]),
    ensures
        attempts_made(errors, 1) == (if errors.len() < 2 {
            errors.len() + 1
        } else {
            3
        }),
{
    reveal_with_fuel(attempts_made, 4);
    if errors.len() > 0 {
        assert(may_pass(errors[0]));
        let rest = errors.drop_first();
        if rest.len() > 0 {
            assert(rest[0] == errors[1]);
            assert(may_pass(errors[1]));
        }
    }
}

} // verus!
