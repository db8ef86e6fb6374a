//! The lines of the activity log, and keeping the log below its size limit.

use vstd::prelude::*;

verus! {

use crate::config::optional_str;
use crate::numbers::{decimal, decimal_int, render_i64, render_u64};
use crate::text::{
    is_white, join, joined, law_words_stand_between_spaces, lemma_occurs_behind, lemma_still_occurs,
    lemma_trimmed_start, lemma_word_length, occurs_in, shorten, shortened, split_words,
    trimmed_start, word_length, words,
};

/// The most bytes that the activity log keeps.
pub const TELEGRAM_AUDIT_LOG_MAX_BYTES: usize = 5_242_880;

/// A value on one line: its words with one space between them, cut after `limit` characters.
pub open spec fn audit_value(value: Seq<char>, limit: int) -> Seq<char> {
    shortened(joined(words(value), " "@), limit)
}

pub fn truncate_audit_value(value: &str, limit: usize) -> (r: String)
    ensures
        r@ == audit_value(value@, limit as int),
{
    let cleaned = join(&split_words(value), " ");
    shorten(cleaned.as_str(), limit)
}

/// The text, or a dash where there is none.
pub open spec fn or_dash(value: Option<Seq<char>>) -> Seq<char> {
    match value {
        Some(text) => text,
        None => "-"@,
    }
}

pub open spec fn id_or_dash(value: Option<int>) -> Seq<char> {
    match value {
        Some(id) => decimal_int(id),
        None => "-"@,
    }
}

pub open spec fn optional_int(value: Option<i64>) -> Option<int> {
    match value {
        Some(id) => Some(id as int),
        None => None,
    }
}

pub open spec fn truth(value: bool) -> Seq<char> {
    if value {
        "true"@
    } else {
        "false"@
    }
}

fn render_id(value: Option<i64>) -> (r: String)
    ensures
        r@ == id_or_dash(optional_int(value)),
{
    match value {
        Some(id) => render_i64(id),
        None => "-".to_owned(),
    }
}

fn text_or_dash<'a>(value: Option<&'a str>) -> (r: &'a str)
    ensures
        r@ == or_dash(optional_str(value)),
{
    match value {
        Some(text) => text,
        None => "-",
    }
}

fn render_bool(value: bool) -> (r: &'static str)
    ensures
        r@ == truth(value),
{
    if value {
        "true"
    } else {
        "false"
    }
}

/// What is logged of a message to Telegram.
pub open spec fn outbound_line(
    timestamp: nat,
    operation: Seq<char>,
    chat_id: Option<int>,
    reply_to_message_id: Option<int>,
    detail: Seq<char>,
    error: Option<Seq<char>>,
) -> Seq<char> {
    "telegram usage ts="@ + decimal(timestamp) + " type=outbound operation="@ + operation
        + " outcome="@ + (if error is Some {
        "failed"@
    } else {
        "success"@
    }) + " chat_id="@ + id_or_dash(chat_id) + " reply_to_message_id="@ + id_or_dash(
        reply_to_message_id,
    ) + " detail="@ + audit_value(detail, 160) + " error="@ + audit_value(or_dash(error), 200)
}

pub fn outbound_audit_line(
    timestamp: u64,
    operation: &str,
    chat_id: Option<i64>,
    reply_to_message_id: Option<i64>,
    detail: &str,
    error: Option<&str>,
) -> (r: String)
    ensures
        r@ == outbound_line(
            timestamp as nat,
            operation@,
            optional_int(chat_id),
            optional_int(reply_to_message_id),
            detail@,
            optional_str(error),
        ),
{
    let mut line = "telegram usage ts=".to_owned();
    line.append(render_u64(timestamp).as_str());
    line.append(" type=outbound operation=");
    line.append(operation);
    line.append(" outcome=");
    line.append(
        if error.is_some() {
            "failed"
        } else {
            "success"
        },
    );
    line.append(" chat_id=");
    line.append(render_id(chat_id).as_str());
    line.append(" reply_to_message_id=");
    line.append(render_id(reply_to_message_id).as_str());
    line.append(" detail=");
    line.append(truncate_audit_value(detail, 160).as_str());
    line.append(" error=");
    line.append(truncate_audit_value(text_or_dash(error), 200).as_str());
    line
}

/// What is logged of a webhook request.
pub open spec fn webhook_line(
    timestamp: nat,
    allowed: bool,
    peer_ip: Seq<char>,
    cf_connecting_ip: Option<Seq<char>>,
    cf_ray: Option<Seq<char>>,
    user_agent: Option<Seq<char>>,
    detail: Seq<char>,
) -> Seq<char> {
    "telegram usage ts="@ + decimal(timestamp) + " type=webhook allowed="@ + truth(allowed)
        + " peer_ip="@ + peer_ip + " cf_connecting_ip="@ + or_dash(cf_connecting_ip) + " cf_ray="@
        + or_dash(cf_ray) + " user_agent="@ + audit_value(or_dash(user_agent), 120) + " detail="@
        + audit_value(detail, 160)
}

pub fn webhook_audit_line(
    timestamp: u64,
    allowed: bool,
    peer_ip: &str,
    cf_connecting_ip: Option<&str>,
    cf_ray: Option<&str>,
    user_agent: Option<&str>,
    detail: &str,
) -> (r: String)
    ensures
        r@ == webhook_line(
            timestamp as nat,
            allowed,
            peer_ip@,
            optional_str(cf_connecting_ip),
            optional_str(cf_ray),
            optional_str(user_agent),
            detail@,
        ),
{
    let mut line = "telegram usage ts=".to_owned();
    line.append(render_u64(timestamp).as_str());
    line.append(" type=webhook allowed=");
    line.append(render_bool(allowed));
    line.append(" peer_ip=");
    line.append(peer_ip);
    line.append(" cf_connecting_ip=");
    line.append(text_or_dash(cf_connecting_ip));
    line.append(" cf_ray=");
    line.append(text_or_dash(cf_ray));
    line.append(" user_agent=");
    line.append(truncate_audit_value(text_or_dash(user_agent), 120).as_str());
    line.append(" detail=");
    line.append(truncate_audit_value(detail, 160).as_str());
    line
}

/// What is logged of a message or button press that reached the bot.
pub open spec fn usage_line(
    timestamp: nat,
    kind: Seq<char>,
    allowed: bool,
    chat_id: Option<int>,
    user_id: nat,
    username: Option<Seq<char>>,
    action: Seq<char>,
    detail: Seq<char>,
) -> Seq<char> {
    "telegram usage ts="@ + decimal(timestamp) + " type="@ + kind + " allowed="@ + truth(allowed)
        + " chat_id="@ + id_or_dash(chat_id) + " user_id="@ + decimal(user_id) + " username="@
        + or_dash(username) + " action="@ + action + " detail="@ + audit_value(detail, 120)
}

fn usage_audit_line(
    timestamp: u64,
    kind: &str,
    allowed: bool,
    chat_id: Option<i64>,
    user_id: u64,
    username: Option<&str>,
    action: &str,
    detail: &str,
) -> (r: String)
    ensures
        r@ == usage_line(
            timestamp as nat,
            kind@,
            allowed,
            optional_int(chat_id),
            user_id as nat,
            optional_str(username),
            action@,
            detail@,
        ),
{
    let mut line = "telegram usage ts=".to_owned();
    line.append(render_u64(timestamp).as_str());
    line.append(" type=");
    line.append(kind);
    line.append(" allowed=");
    line.append(render_bool(allowed));
    line.append(" chat_id=");
    line.append(render_id(chat_id).as_str());
    line.append(" user_id=");
    line.append(render_u64(user_id).as_str());
    line.append(" username=");
    line.append(text_or_dash(username));
    line.append(" action=");
    line.append(action);
    line.append(" detail=");
    line.append(truncate_audit_value(detail, 120).as_str());
    line
}

pub fn message_audit_line(
    timestamp: u64,
    allowed: bool,
    chat_id: i64,
    user_id: u64,
    username: Option<&str>,
    action: &str,
    detail: &str,
) -> (r: String)
    ensures
        r@ == usage_line(
            timestamp as nat,
            "message"@,
            allowed,
            Some(chat_id as int),
            user_id as nat,
            optional_str(username),
            action@,
            detail@,
        ),
{
    usage_audit_line(timestamp, "message", allowed, Some(chat_id), user_id, username, action, detail)
}

pub fn callback_audit_line(
    timestamp: u64,
    allowed: bool,
    chat_id: Option<i64>,
    user_id: u64,
    username: Option<&str>,
    action: &str,
    detail: &str,
) -> (r: String)
    ensures
        r@ == usage_line(
            timestamp as nat,
            "callback"@,
            allowed,
            optional_int(chat_id),
            user_id as nat,
            optional_str(username),
            action@,
            detail@,
        ),
{
    usage_audit_line(timestamp, "callback", allowed, chat_id, user_id, username, action, detail)
}

/// What follows the first line feed, where there is one.
pub open spec fn after_line_feed(bytes: Seq<u8>) -> Option<Seq<u8>>
    decreases bytes.len(),
{
    if bytes.len() == 0 {
        None
    } else if bytes.first() == 10 {
        Some(bytes.drop_first())
    } else {
        after_line_feed(bytes.drop_first())
    }
}

/// The part of the log that is kept: all of it up to the limit; beyond that the last `max_bytes`
/// bytes, from the first line that starts among them.
pub open spec fn kept_log(content: Seq<u8>, max_bytes: int) -> Seq<u8> {
    if content.len() <= max_bytes {
        content
    } else {
        let tail = content.skip(content.len() - max_bytes);
        match after_line_feed(tail) {
            Some(rest) => rest,
            None => tail,
        }
    }
}

/// The index in `content` at which the part that is kept begins.
pub fn trim_telegram_audit_log(content: &Vec<u8>, max_bytes: usize) -> (start: usize)
    ensures
        start <= content@.len(),
        content@.skip(start as int) == kept_log(content@, max_bytes as int),
{
    let n = content.len();
    assert(content@.skip(0) == content@);
    if n <= max_bytes {
        return 0;
    }
    let keep_from: usize = n - max_bytes;
    let ghost tail = content@.skip(keep_from as int);
    let mut i: usize = keep_from;
    while i < n
        invariant
            n == content@.len(),
            n > max_bytes,
            keep_from == n - max_bytes,
            keep_from <= i <= n,
            tail == content@.skip(keep_from as int),
            after_line_feed(tail) == after_line_feed(content@.skip(i as int)),
        decreases n - i,
    {
        assert(content@.skip(i as int).drop_first() == content@.skip(i + 1));
        if content[i] == 10 {
            return i + 1;
        }
        i += 1;
    }
    keep_from
}

/// The log never outgrows its limit, and what is kept is the end of it.
pub proof fn law_kept_log_is_bounded_end(content: Seq<u8>, max_bytes: int)
    requires
        max_bytes >= 0,
    ensures
        kept_log(content, max_bytes).len() <= max_bytes,
        kept_log(content, max_bytes).len() <= content.len(),
        kept_log(content, max_bytes) == content.skip(
            content.len() - kept_log(content, max_bytes).len(),
        ),
{
    if content.len() > max_bytes {
        let tail = content.skip(content.len() - max_bytes);
        lemma_after_line_feed(tail);
        let kept = kept_log(content, max_bytes);
        assert(kept == tail.skip(tail.len() - kept.len())) by {
            if after_line_feed(tail) is None {
                assert(tail.skip(0) == tail);
            }
        }
        assert(tail.skip(tail.len() - kept.len()) =~= content.skip(content.len() - kept.len()));
    } else {
        assert(content.skip(0) == content);
    }
}

/// Where the log is cut, the kept part starts with a whole line, if one starts in it at all.
pub proof fn law_kept_log_starts_a_line(content: Seq<u8>, max_bytes: int)
    requires
        0 <= max_bytes < content.len(),
        content.skip(content.len() - max_bytes).contains(10),
    ensures
        kept_log(content, max_bytes).len() < content.len(),
        content[content.len() - kept_log(content, max_bytes).len() - 1] == 10,
{
    let tail = content.skip(content.len() - max_bytes);
    lemma_after_line_feed(tail);
}

proof fn lemma_after_line_feed(bytes: Seq<u8>)
    ensures
        bytes.contains(10) <==> after_line_feed(bytes) is Some,
        after_line_feed(bytes) matches Some(rest) ==> rest.len() < bytes.len() && rest
            == bytes.skip(bytes.len() - rest.len()) && bytes[bytes.len() - rest.len() - 1] == 10,
    decreases bytes.len(),
{
    if bytes.len() > 0 {
        let rest = bytes.drop_first();
        lemma_after_line_feed(rest);
        if bytes.first() == 10 {
            assert(bytes.contains(bytes[0]));
            assert(bytes.skip(1) == rest);
        } else {
            if bytes.contains(10) {
                let i = choose|i: int| 0 <= i < bytes.len() && bytes[i] == 10;
                assert(rest[i - 1] == 10);
            }
            if rest.contains(10) {
                let i = choose|i: int| 0 <= i < rest.len() && rest[i] == 10;
                assert(bytes[i + 1] == 10);
            }
            if let Some(end) = after_line_feed(rest) {
                assert(rest.skip(rest.len() - end.len()) =~= bytes.skip(bytes.len() - end.len()));
            }
        }
    }
}

proof fn lemma_words_are_words(s: Seq<char>)
    ensures
        forall|i: int, k: int|
            0 <= i < words(s).len() && 0 <= k < words(s)[i].len() ==> !is_white(
                #[trigger] words(s)[i][k],
            ),
        forall|i: int| 0 <= i < words(s).len() ==> (#[trigger] words(s)[i]).len() > 0,
    decreases s.len(),
{
    let start = trimmed_start(s);
    lemma_trimmed_start(s);
    if start.len() > 0 {
        lemma_word_length(start);
        let n = word_length(start) as int;
        let rest = start.skip(n);
        lemma_words_are_words(rest);
        let all = words(s);
        assert forall|i: int, k: int| 0 <= i < all.len() && 0 <= k < all[i].len() implies !is_white(
            #[trigger] all[i][k],
        ) by {
            if i == 0 {
                assert(all[0] == start.take(n));
                assert(all[0][k] == start[k]);
            } else {
                assert(all[i] == words(rest)[i - 1]);
            }
        }
        assert forall|i: int| 0 <= i < all.len() implies (#[trigger] all[i]).len() > 0 by {
            if i > 0 {
                assert(all[i] == words(rest)[i - 1]);
            }
        }
    }
}

proof fn lemma_joined_from_the_front(parts: Seq<Seq<char>>, separator: Seq<char>)
    requires
        parts.len() > 1,
    ensures
        joined(parts, separator) == parts[0] + separator + joined(parts.drop_first(), separator),
    decreases parts.len(),
{
    let rest = parts.drop_first();
    if parts.len() == 2 {
        assert(parts.drop_last() =~= seq![parts[0]]);
        assert(rest =~= seq![parts[1]]);
        assert(joined(parts.drop_last(), separator) == parts[0]);
        assert(joined(rest, separator) == parts[1]);
    } else {
        let shorter = parts.drop_last();
        lemma_joined_from_the_front(shorter, separator);
        let middle = joined(rest.drop_last(), separator);
        assert(shorter.drop_first() =~= rest.drop_last());
        assert(rest.last() == parts.last());
        assert(joined(rest, separator) == middle + separator + parts.last());
        assert(joined(parts, separator) == parts[0] + separator + middle + separator
            + parts.last());
        assert(parts[0] + separator + (middle + separator + parts.last()) =~= parts[0] + separator
            + middle + separator + parts.last());
    }
}

spec fn all_words(parts: Seq<Seq<char>>) -> bool {
    forall|i: int|
        0 <= i < parts.len() ==> (#[trigger] parts[i]).len() > 0 && forall|k: int|
            0 <= k < parts[i].len() ==> !is_white(#[trigger] parts[i][k])
}

proof fn lemma_joined_words_read_back(parts: Seq<Seq<char>>)
    requires
        all_words(parts),
    ensures
        words(joined(parts, " "@)) == parts,
        forall|k: int|
            0 <= k < joined(parts, " "@).len() ==> !is_white(#[trigger] joined(parts, " "@)[k])
                || joined(parts, " "@)[k] == ' ',
    decreases parts.len(),
{
    reveal_strlit(" ");
    if parts.len() == 0 {
        assert(words(Seq::<char>::empty()) =~= Seq::<Seq<char>>::empty());
        assert(parts =~= Seq::<Seq<char>>::empty());
    } else if parts.len() == 1 {
        law_words_stand_between_spaces(Seq::empty(), parts[0], Seq::empty());
        assert(Seq::<char>::empty() + parts[0] + Seq::<char>::empty() =~= parts[0]);
        assert(words(Seq::<char>::empty()) =~= Seq::<Seq<char>>::empty());
        assert(words(parts[0]) =~= parts);
    } else {
        let rest = parts.drop_first();
        assert(all_words(rest)) by {
            assert forall|i: int| 0 <= i < rest.len() implies (#[trigger] rest[i]).len() > 0
                && forall|k: int| 0 <= k < rest[i].len() ==> !is_white(#[trigger] rest[i][k]) by {
                assert(rest[i] == parts[i + 1]);
            }
        }
        lemma_joined_words_read_back(rest);
        lemma_joined_from_the_front(parts, " "@);
        let tail = joined(rest, " "@);
        let behind = " "@ + tail;
        assert(behind.first() == ' ');
        law_words_stand_between_spaces(Seq::empty(), parts[0], behind);
        let whole = joined(parts, " "@);
        assert(Seq::<char>::empty() + parts[0] + behind =~= whole);
        assert(words(behind) == words(tail)) by {
            assert(behind.drop_first() =~= tail);
            assert(trimmed_start(behind) == trimmed_start(tail));
        }
        assert(words(whole) =~= parts);
        assert forall|k: int| 0 <= k < whole.len() implies !is_white(#[trigger] whole[k])
            || whole[k] == ' ' by {
            if k < parts[0].len() {
                assert(whole[k] == parts[0][k]);
            } else if k > parts[0].len() {
                assert(whole[k] == tail[k - parts[0].len() - 1]);
            }
        }
    }
}

/// A logged value keeps its words, in order and with one space between two, as far as there is
/// room; it stays on one line and within its limit, and dots tell where it was cut.
pub proof fn law_logged_value_is_one_line_of_words(value: Seq<char>, limit: int)
    requires
        limit >= 0,
    ensures
        forall|i: int|
            0 <= i < audit_value(value, limit).len() ==> !is_white(
                #[trigger] audit_value(value, limit)[i],
            ) || audit_value(value, limit)[i] == ' ',
        !audit_value(value, limit).contains('\n'),
        audit_value(value, limit).len() <= limit + 3,
        exists|whole: Seq<char>| #[trigger]
            words(whole) == words(value) && audit_value(value, limit) == (if whole.len() <= limit {
                whole
            } else {
                whole.take(limit) + "..."@
            }),
{
    let whole = joined(words(value), " "@);
    lemma_words_are_words(value);
    assert(all_words(words(value))) by {
        assert forall|i: int| 0 <= i < words(value).len() implies (#[trigger] words(value)[i]).len()
            > 0 && forall|k: int|
            0 <= k < words(value)[i].len() ==> !is_white(#[trigger] words(value)[i][k]) by {}
    }
    lemma_joined_words_read_back(words(value));
    reveal_strlit("...");
    let shown = audit_value(value, limit);
    assert forall|i: int| 0 <= i < shown.len() implies !is_white(#[trigger] shown[i]) || shown[i]
        == ' ' by {
        if whole.len() > limit && i < limit {
            assert(shown[i] == whole[i]);
        }
    }
    assert(words(whole) == words(value));
}

/// A line of the log tells first when, what and with what outcome, and last which error; a request
/// without an error is a success.
pub proof fn law_outbound_line_tells_the_outcome(
    timestamp: nat,
    operation: Seq<char>,
    chat_id: Option<int>,
    reply_to: Option<int>,
    detail: Seq<char>,
    error: Seq<char>,
)
    ensures
        ("telegram usage ts="@ + decimal(timestamp) + " type=outbound operation="@ + operation
            + " outcome="@ + "success"@).is_prefix_of(
            outbound_line(timestamp, operation, chat_id, reply_to, detail, None),
        ),
        ("telegram usage ts="@ + decimal(timestamp) + " type=outbound operation="@ + operation
            + " outcome="@ + "failed"@).is_prefix_of(
            outbound_line(timestamp, operation, chat_id, reply_to, detail, Some(error)),
        ),
        (" error="@ + audit_value(error, 200)).is_suffix_of(
            outbound_line(timestamp, operation, chat_id, reply_to, detail, Some(error)),
        ),
{
    let start = "telegram usage ts="@ + decimal(timestamp) + " type=outbound operation="@ + operation
        + " outcome="@;
    let good = outbound_line(timestamp, operation, chat_id, reply_to, detail, None);
    let bad = outbound_line(timestamp, operation, chat_id, reply_to, detail, Some(error));
    assert(good.take((start + "success"@).len() as int) =~= start + "success"@);
    assert(bad.take((start + "failed"@).len() as int) =~= start + "failed"@);
    let end = " error="@ + audit_value(error, 200);
    assert(bad.skip(bad.len() - end.len()) =~= end);
}

/// A line about the use of the bot tells who did what, whether they may, and ends with the details
/// on one line.
pub proof fn law_usage_line_tells_who_did_what(
    timestamp: nat,
    kind: Seq<char>,
    allowed: bool,
    chat_id: Option<int>,
    user_id: nat,
    username: Option<Seq<char>>,
    action: Seq<char>,
    detail: Seq<char>,
)
    ensures
        ({
            let line = usage_line(
                timestamp,
                kind,
                allowed,
                chat_id,
                user_id,
                username,
                action,
                detail,
            );
            &&& occurs_in(line, "telegram usage ts="@ + decimal(timestamp))
            &&& occurs_in(line, " type="@ + kind)
            &&& occurs_in(
                line,
                " allowed="@ + (if allowed {
                    "true"@
                } else {
                    "false"@
                }),
            )
            &&& chat_id matches Some(id) ==> occurs_in(line, " chat_id="@ + decimal_int(id))
            &&& chat_id is None ==> occurs_in(line, " chat_id="@ + "-"@)
            &&& occurs_in(line, " user_id="@ + decimal(user_id))
            &&& username matches Some(name) ==> occurs_in(line, " username="@ + name)
            &&& username is None ==> occurs_in(line, " username="@ + "-"@)
            &&& occurs_in(line, " action="@ + action)
            &&& (" detail="@ + audit_value(detail, 120)).is_suffix_of(line)
        }),
{
    broadcast use lemma_still_occurs;
    broadcast use lemma_occurs_behind;

    let line = usage_line(timestamp, kind, allowed, chat_id, user_id, username, action, detail);
    let end = " detail="@ + audit_value(detail, 120);
    assert(line.skip(line.len() - end.len()) =~= end);
    let first = Seq::<char>::empty() + "telegram usage ts="@ + decimal(timestamp);
    assert(first =~= "telegram usage ts="@ + decimal(timestamp));
    assert(occurs_in(first, "telegram usage ts="@ + decimal(timestamp)));
}

/// A line about a webhook request tells whether it was let in, where it came from and what both
/// headers said, and ends with the details on one line.
pub proof fn law_webhook_line_tells_the_sender(
    timestamp: nat,
    allowed: bool,
    peer_ip: Seq<char>,
    connecting_ip: Option<Seq<char>>,
    ray: Option<Seq<char>>,
    user_agent: Option<Seq<char>>,
    detail: Seq<char>,
)
    ensures
        ({
            let line = webhook_line(
                timestamp,
                allowed,
                peer_ip,
                connecting_ip,
                ray,
                user_agent,
                detail,
            );
            &&& occurs_in(
                line,
                " type=webhook allowed="@ + (if allowed {
                    "true"@
                } else {
                    "false"@
                }),
            )
            &&& occurs_in(line, " peer_ip="@ + peer_ip)
            &&& connecting_ip matches Some(ip) ==> occurs_in(line, " cf_connecting_ip="@ + ip)
            &&& connecting_ip is None ==> occurs_in(line, " cf_connecting_ip="@ + "-"@)
            &&& ray matches Some(id) ==> occurs_in(line, " cf_ray="@ + id)
            &&& ray is None ==> occurs_in(line, " cf_ray="@ + "-"@)
            &&& user_agent matches Some(agent) ==> occurs_in(
                line,
                " user_agent="@ + audit_value(agent, 120),
            )
            &&& (" detail="@ + audit_value(detail, 160)).is_suffix_of(line)
        }),
{
    broadcast use lemma_still_occurs;
    broadcast use lemma_occurs_behind;

    let line = webhook_line(timestamp, allowed, peer_ip, connecting_ip, ray, user_agent, detail);
    let end = " detail="@ + audit_value(detail, 160);
    assert(line.skip(line.len() - end.len()) =~= end);
}

proof fn lemma_first_line_feed(bytes: Seq<u8>, k: int)
    requires
        after_line_feed(bytes) is Some,
        0 <= k < bytes.len() - after_line_feed(bytes)->0.len() - 1,
    ensures
        bytes[k] != 10,
    decreases bytes.len(),
{
    if bytes.first() != 10 {
        let rest = bytes.drop_first();
        if k > 0 {
            lemma_first_line_feed(rest, k - 1);
            assert(rest[k - 1] == bytes[k]);
        }
    }
}

/// A log within its limit is left alone, and a longer one loses no more than it must: from the limit
/// on, only the rest of the line that was cut goes.
pub proof fn law_no_more_of_the_log_goes_than_must(content: Seq<u8>, max_bytes: int, k: int)
    requires
        max_bytes >= 0,
    ensures
        content.len() <= max_bytes ==> kept_log(content, max_bytes) == content,
        content.len() > max_bytes && content.len() - max_bytes <= k < content.len() - kept_log(
            content,
            max_bytes,
        ).len() - 1 ==> content[k] != 10,
        content.len() > max_bytes && !content.skip(content.len() - max_bytes).contains(10)
            ==> kept_log(content, max_bytes).len() == max_bytes,
{
    if content.len() > max_bytes {
        let tail = content.skip(content.len() - max_bytes);
        lemma_after_line_feed(tail);
        let kept = kept_log(content, max_bytes);
        if content.len() - max_bytes <= k < content.len() - kept.len() - 1 {
            lemma_first_line_feed(tail, k - (content.len() - max_bytes));
            assert(tail[k - (content.len() - max_bytes)] == content[k]);
        }
    }
}

} // verus!
