//! Requests: the lines of `pending.jsonl`.
//!
//! The program that answers a request is a separate one, so the format of the line is the whole
//! contract between the two sides.

use crate::duration;
use crate::duration::Duration;
use crate::{json, text};
use serde_json::Value;
use vstd::prelude::*;
use vstd::string::*;

verus! {

/// File name of the queue that requests are appended to.
pub const PENDING_FILE: &'static str = "pending.jsonl";

/// One line of [`PENDING_FILE`]: a guarded action that is held for a decision.
#[derive(Debug, Clone)]
pub struct PendingApproval {
    /// The key that the decision echoes: a version 4 UUID.
    pub id: String,
    /// The policy action id that the approval is for.
    pub action_id: String,
    /// The parameters of the action, verbatim.
    pub params: Value,
    /// When the request was written, in milliseconds since the Unix epoch.
    pub requested_at_ms: u64,
    /// The process that waits for the decision.
    pub pid: u32,
}

/// Whether `c` is a lower-case hexadecimal digit.
pub open spec fn is_lower_hex(c: char) -> bool {
    '0' <= c <= '9' || 'a' <= c <= 'f'
}

/// Whether `s` is a version 4 UUID in lower case with hyphens.
pub open spec fn is_uuid_v4(s: Seq<char>) -> bool {
    &&& s.len() == 36
    &&& forall|i: int|
        0 <= i < 36 ==> if i == 8 || i == 13 || i == 18 || i == 23 {
            #[trigger] s[i] == '-'
        } else {
            is_lower_hex(s[i])
        }
    &&& s[14] == '4'
    &&& s[19] == '8' || s[19] == '9' || s[19] == 'a' || s[19] == 'b'
}

/// A new request id.
///
/// Trusted: `uuid::Uuid::new_v4` makes a random version 4 UUID, which `to_string` writes in lower
/// case with hyphens. Nothing is said of the random digits, so neither is it said that two ids
/// differ. `new_v4` panics if the operating system has no random bytes to give.
#[verifier::external_body]
fn fresh_id() -> (id: String)
    ensures
        is_uuid_v4(id@),
{
    uuid::Uuid::new_v4().to_string()
}

/// Whether `id` came from the source of new ids, and was not made up.
pub closed spec fn is_generated(id: String) -> bool {
    call_ensures(fresh_id, (), id)
}

/// Milliseconds since the Unix epoch in 64 bits, from the span since then; 0 if the clock stands
/// before it.
pub fn epoch_millis(since_epoch: Option<Duration>) -> (millis: u64)
    ensures
        since_epoch is None ==> millis == 0,
        since_epoch matches Some(span) ==> millis == (span@ / duration::NANOS_PER_MILLI as nat)
            % 0x1_0000_0000_0000_0000,
{
    match since_epoch {
        Some(span) => (span.as_millis() % 0x1_0000_0000_0000_0000) as u64,
        None => 0,
    }
}

/// The line that stands for `pending`, with its line ending.
pub open spec fn pending_line(pending: PendingApproval) -> Seq<char> {
    "{\"id\":"@ + json::json_string(pending.id@) + ",\"action_id\":"@ + json::json_string(
        pending.action_id@,
    ) + ",\"params\":"@ + json::value_text(pending.params) + ",\"requested_at_ms\":"@
        + text::decimal(pending.requested_at_ms as nat) + ",\"pid\":"@ + text::decimal(
        pending.pid as nat,
    ) + "}\n"@
}

proof fn lemma_no_line_feed_in_sum(a: Seq<char>, b: Seq<char>)
    requires
        !a.contains('\n'),
        !b.contains('\n'),
    ensures
        !(a + b).contains('\n'),
{
    assert forall|i: int| 0 <= i < (a + b).len() implies (a + b)[i] != '\n' by {
        if i < a.len() {
            assert(a.contains(a[i]));
        } else {
            assert(b.contains(b[i - a.len()]));
        }
    }
}

proof fn lemma_decimal_is_digits(n: nat)
    ensures
        text::decimal(n).len() > 0,
        forall|i: int| 0 <= i < text::decimal(n).len() ==> '0' <= #[trigger] text::decimal(n)[i] <= '9',
    decreases n,
{
    if n >= 10 {
        lemma_decimal_is_digits(n / 10);
    }
}

proof fn lemma_pending_line_is_one_line(pending: PendingApproval)
    requires
        !json::value_text(pending.params).contains('\n'),
    ensures
        pending_line(pending).last() == '\n',
        !pending_line(pending).drop_last().contains('\n'),
{
    reveal_strlit("{\"id\":");
    reveal_strlit(",\"action_id\":");
    reveal_strlit(",\"params\":");
    reveal_strlit(",\"requested_at_ms\":");
    reveal_strlit(",\"pid\":");
    reveal_strlit("}\n");
    json::law_json_string_is_one_line(pending.id@);
    json::law_json_string_is_one_line(pending.action_id@);
    lemma_decimal_is_digits(pending.requested_at_ms as nat);
    lemma_decimal_is_digits(pending.pid as nat);
    let p1 = "{\"id\":"@ + json::json_string(pending.id@);
    lemma_no_line_feed_in_sum("{\"id\":"@, json::json_string(pending.id@));
    let p2 = p1 + ",\"action_id\":"@;
    lemma_no_line_feed_in_sum(p1, ",\"action_id\":"@);
    let p3 = p2 + json::json_string(pending.action_id@);
    lemma_no_line_feed_in_sum(p2, json::json_string(pending.action_id@));
    let p4 = p3 + ",\"params\":"@;
    lemma_no_line_feed_in_sum(p3, ",\"params\":"@);
    let p5 = p4 + json::value_text(pending.params);
    lemma_no_line_feed_in_sum(p4, json::value_text(pending.params));
    let p6 = p5 + ",\"requested_at_ms\":"@;
    lemma_no_line_feed_in_sum(p5, ",\"requested_at_ms\":"@);
    let p7 = p6 + text::decimal(pending.requested_at_ms as nat);
    lemma_no_line_feed_in_sum(p6, text::decimal(pending.requested_at_ms as nat));
    let p8 = p7 + ",\"pid\":"@;
    lemma_no_line_feed_in_sum(p7, ",\"pid\":"@);
    let p9 = p8 + text::decimal(pending.pid as nat);
    lemma_no_line_feed_in_sum(p8, text::decimal(pending.pid as nat));
    lemma_no_line_feed_in_sum(p9, seq!['}']);
    assert(pending_line(pending).drop_last() =~= p9 + seq!['}']);
}

proof fn lemma_decimal_is_injective(m: nat, n: nat)
    requires
        text::decimal(m) == text::decimal(n),
    ensures
        m == n,
    decreases m,
{
    lemma_decimal_is_digits(m / 10);
    lemma_decimal_is_digits(n / 10);
    assert(text::decimal(m).last() == text::digit(m % 10));
    assert(text::decimal(n).last() == text::digit(n % 10));
    if m >= 10 && n >= 10 {
        assert(text::decimal(m).drop_last() =~= text::decimal(m / 10));
        assert(text::decimal(n).drop_last() =~= text::decimal(n / 10));
        lemma_decimal_is_injective(m / 10, n / 10);
    }
}

/// A number at the end of a text, behind a colon, can be read in one way only.
proof fn lemma_number_reads_back(a: Seq<char>, m: nat, b: Seq<char>, n: nat)
    requires
        a.len() > 0,
        b.len() > 0,
        a.last() == ':',
        b.last() == ':',
        a + text::decimal(m) == b + text::decimal(n),
    ensures
        a == b,
        m == n,
{
    let left = a + text::decimal(m);
    let right = b + text::decimal(n);
    lemma_decimal_is_digits(m);
    lemma_decimal_is_digits(n);
    assert(left.len() == a.len() + text::decimal(m).len());
    assert(right.len() == b.len() + text::decimal(n).len());
    if a.len() < b.len() {
        assert(left[b.len() - 1] == text::decimal(m)[b.len() - 1 - a.len()]);
        assert(right[b.len() - 1] == ':');
    }
    if b.len() < a.len() {
        assert(right[a.len() - 1] == text::decimal(n)[a.len() - 1 - b.len()]);
        assert(left[a.len() - 1] == ':');
    }
    assert(left.take(a.len() as int) =~= a);
    assert(right.take(b.len() as int) =~= b);
    assert(left.skip(a.len() as int) =~= text::decimal(m));
    assert(right.skip(b.len() as int) =~= text::decimal(n));
    lemma_decimal_is_injective(m, n);
}

proof fn lemma_same_tail(a: Seq<char>, b: Seq<char>, tail: Seq<char>)
    requires
        a + tail == b + tail,
    ensures
        a == b,
{
    assert((a + tail).len() == (b + tail).len());
    assert((a + tail).take(a.len() as int) =~= a);
    assert((b + tail).take(b.len() as int) =~= b);
}

/// What follows the key of the parameters in the line of `pending`.
spec fn from_params(pending: PendingApproval) -> Seq<char> {
    json::value_text(pending.params) + ",\"requested_at_ms\":"@ + text::decimal(
        pending.requested_at_ms as nat,
    ) + ",\"pid\":"@ + text::decimal(pending.pid as nat) + "}\n"@
}

/// What follows the id in the line of `pending`.
spec fn from_action_id(pending: PendingApproval) -> Seq<char> {
    ",\"action_id\":"@ + (json::json_string(pending.action_id@) + (",\"params\":"@ + from_params(
        pending,
    )))
}

proof fn lemma_line_in_parts(pending: PendingApproval)
    ensures
        pending_line(pending) == "{\"id\":"@ + (json::json_string(pending.id@) + from_action_id(
            pending,
        )),
{
    assert(pending_line(pending) =~= "{\"id\":"@ + (json::json_string(pending.id@)
        + from_action_id(pending)));
}

proof fn lemma_params_read_back(p: PendingApproval, q: PendingApproval)
    requires
        from_params(p) == from_params(q),
    ensures
        json::value_text(p.params) == json::value_text(q.params),
        p.requested_at_ms == q.requested_at_ms,
        p.pid == q.pid,
{
    let ms = ",\"requested_at_ms\":"@;
    let pid = ",\"pid\":"@;
    let p1 = json::value_text(p.params) + ms;
    let q1 = json::value_text(q.params) + ms;
    let p2 = p1 + text::decimal(p.requested_at_ms as nat);
    let q2 = q1 + text::decimal(q.requested_at_ms as nat);
    lemma_same_tail(
        p2 + pid + text::decimal(p.pid as nat),
        q2 + pid + text::decimal(q.pid as nat),
        "}\n"@,
    );
    assert(pid.len() > 0 && (p2 + pid).last() == ':' && (q2 + pid).last() == ':') by {
        reveal_strlit(",\"pid\":");
    }
    lemma_number_reads_back(p2 + pid, p.pid as nat, q2 + pid, q.pid as nat);
    lemma_same_tail(p2, q2, pid);
    assert(ms.len() > 0 && p1.last() == ':' && q1.last() == ':') by {
        reveal_strlit(",\"requested_at_ms\":");
    }
    lemma_number_reads_back(p1, p.requested_at_ms as nat, q1, q.requested_at_ms as nat);
    lemma_same_tail(json::value_text(p.params), json::value_text(q.params), ms);
}

/// What follows `head` in `text`, if `text` begins with `head`.
pub open spec fn behind(head: Seq<char>, text: Seq<char>) -> Option<Seq<char>> {
    if text.len() >= head.len() && text.take(head.len() as int) == head {
        Some(text.skip(head.len() as int))
    } else {
        None
    }
}

/// Reads a JSON string behind `head`: what the string holds, and the text behind it.
pub open spec fn read_field(head: Seq<char>, text: Seq<char>) -> Option<(Seq<char>, Seq<char>)> {
    match behind(head, text) {
        Some(rest) => json::read_string(rest),
        None => None,
    }
}

proof fn lemma_behind(head: Seq<char>, rest: Seq<char>)
    ensures
        behind(head, head + rest) == Some(rest),
{
    assert((head + rest).take(head.len() as int) =~= head);
    assert((head + rest).skip(head.len() as int) =~= rest);
}

/// Reads a line up to its parameters: the id, the action, and the text behind the key of the
/// parameters.
pub open spec fn read_line(line: Seq<char>) -> Option<(Seq<char>, Seq<char>, Seq<char>)> {
    match read_field("{\"id\":"@, line) {
        Some((id, rest)) => match read_field(",\"action_id\":"@, rest) {
            Some((action_id, end)) => match behind(",\"params\":"@, end) {
                Some(params) => Some((id, action_id, params)),
                None => None,
            },
            None => None,
        },
        None => None,
    }
}

/// The reader of a line gets the id and the action back as they were, whatever characters they
/// hold, and behind them the JSON text of the parameters verbatim, the time and the process.
pub proof fn law_pending_line_is_read(pending: PendingApproval)
    ensures
        read_line(pending_line(pending)) == Some(
            (
                pending.id@,
                pending.action_id@,
                json::value_text(pending.params) + ",\"requested_at_ms\":"@ + text::decimal(
                    pending.requested_at_ms as nat,
                ) + ",\"pid\":"@ + text::decimal(pending.pid as nat) + "}\n"@,
            ),
        ),
{
    lemma_line_in_parts(pending);
    let params = ",\"params\":"@ + from_params(pending);
    lemma_behind("{\"id\":"@, json::json_string(pending.id@) + from_action_id(pending));
    json::law_json_string_is_read(pending.id@, from_action_id(pending));
    lemma_behind(",\"action_id\":"@, json::json_string(pending.action_id@) + params);
    json::law_json_string_is_read(pending.action_id@, params);
    lemma_behind(",\"params\":"@, from_params(pending));
}

/// A line fixes the request that it stands for: two requests with the same line have the same id,
/// action, parameters, time and process.
pub proof fn law_pending_line_reads_back(p: PendingApproval, q: PendingApproval)
    requires
        pending_line(p) == pending_line(q),
    ensures
        p.id@ == q.id@,
        p.action_id@ == q.action_id@,
        json::value_text(p.params) == json::value_text(q.params),
        p.requested_at_ms == q.requested_at_ms,
        p.pid == q.pid,
{
    law_pending_line_is_read(p);
    law_pending_line_is_read(q);
    lemma_params_read_back(p, q);
}

/// A request that is appended to complete lines is exactly one more line, and leaves the lines
/// before it as they were. The JSON text of its parameters has no line feed, which
/// [`PendingApproval::to_line`] states of every request.
pub proof fn law_posted_request_is_one_line(done: Seq<char>, pending: PendingApproval)
    requires
        text::ends_a_line(done, '\n'),
        !json::value_text(pending.params).contains('\n'),
    ensures
        text::lines_of(done + pending_line(pending), '\n') == text::lines_of(done, '\n').push(
            pending_line(pending).drop_last(),
        ),
        text::ends_a_line(done + pending_line(pending), '\n'),
{
    let line = pending_line(pending);
    let body = line.drop_last();
    lemma_pending_line_is_one_line(pending);
    assert(line =~= body.push('\n'));
    text::law_appended_line_is_last(done, body, '\n');
}

/// A request that could not be encoded.
#[derive(Debug)]
pub struct EncodeError;

impl PendingApproval {
    /// The request `id` for `action_id` with `params`.
    pub fn with_id(
        id: String,
        action_id: &str,
        params: &Value,
        since_epoch: Option<Duration>,
        pid: u32,
    ) -> (pending: PendingApproval)
        ensures
            pending.id == id,
            pending.action_id@ == action_id@,
            pending.params == *params,
            since_epoch is None ==> pending.requested_at_ms == 0,
            since_epoch matches Some(span) ==> pending.requested_at_ms == (span@
                / duration::NANOS_PER_MILLI as nat) % 0x1_0000_0000_0000_0000,
            pending.pid == pid,
    {
        PendingApproval {
            id,
            action_id: action_id.to_owned(),
            params: params.clone(),
            requested_at_ms: epoch_millis(since_epoch),
            pid,
        }
    }

    /// A new request for `action_id` with `params`, under a fresh id.
    pub fn new(
        action_id: &str,
        params: &Value,
        since_epoch: Option<Duration>,
        pid: u32,
    ) -> (pending: PendingApproval)
        ensures
            is_uuid_v4(pending.id@),
            is_generated(pending.id),
            pending.action_id@ == action_id@,
            pending.params == *params,
            since_epoch is None ==> pending.requested_at_ms == 0,
            since_epoch matches Some(span) ==> pending.requested_at_ms == (span@
                / duration::NANOS_PER_MILLI as nat) % 0x1_0000_0000_0000_0000,
            pending.pid == pid,
    {
        PendingApproval::with_id(fresh_id(), action_id, params, since_epoch, pid)
    }

    /// The line to append to [`PENDING_FILE`], with its line ending.
    pub fn to_line(&self) -> (line: Result<String, EncodeError>)
        ensures
            line is Ok,
            line->Ok_0@ == pending_line(*self),
            !json::value_text(self.params).contains('\n'),
            line->Ok_0@.last() == '\n',
            !line->Ok_0@.drop_last().contains('\n'),
    {
        let id = match json::quoted(self.id.as_str()) {
            Ok(text) => text,
            Err(_) => return Err(EncodeError),
        };
        let action_id = match json::quoted(self.action_id.as_str()) {
            Ok(text) => text,
            Err(_) => return Err(EncodeError),
        };
        let params = json::value_string(&self.params);
        let mut line: String = String::from_str("{\"id\":");
        line.append(id.as_str());
        line.append(",\"action_id\":");
        line.append(action_id.as_str());
        line.append(",\"params\":");
        line.append(params.as_str());
        line.append(",\"requested_at_ms\":");
        line.append(text::decimal_string(self.requested_at_ms).as_str());
        line.append(",\"pid\":");
        line.append(text::decimal_string(self.pid as u64).as_str());
        line.append("}\n");
        proof {
            assert(json::value_text(self.params) == params@);
            lemma_pending_line_is_one_line(*self);
        }
        Ok(line)
    }
}

/// The time of a request is the whole milliseconds since the Unix epoch, counted in 64 bits; 0
/// where the clock stands before it.
pub proof fn law_time_is_whole_milliseconds(since_epoch: Option<Duration>, millis: u64)
    requires
        call_ensures(epoch_millis, (since_epoch,), millis),
    ensures
        since_epoch is None ==> millis == 0,
        since_epoch matches Some(span) ==> span@ < 18_446_744_073_709_551_616_000_000 ==> millis
            * 1_000_000 <= span@ < (millis + 1) * 1_000_000,
        since_epoch matches Some(span) ==> millis == (span@ / 1_000_000) % 0x1_0000_0000_0000_0000,
{
    if let Some(span) = since_epoch {
        if span@ < 18_446_744_073_709_551_616_000_000 {
            assert(span@ / 1_000_000 < 0x1_0000_0000_0000_0000);
        }
    }
}

/// A new request has a version 4 UUID from the source of new ids, and holds the action, the
/// parameters and the process as they were given, and the time that [`epoch_millis`] gives.
pub proof fn law_new_request_holds_what_it_is_for(
    action_id: &str,
    params: &Value,
    since_epoch: Option<Duration>,
    pid: u32,
    pending: PendingApproval,
    millis: u64,
)
    requires
        call_ensures(PendingApproval::new, (action_id, params, since_epoch, pid), pending),
        call_ensures(epoch_millis, (since_epoch,), millis),
    ensures
        is_generated(pending.id),
        pending.id@.len() == 36,
        forall|i: int|
            0 <= i < 36 ==> {
                let c = #[trigger] pending.id@[i];
                if i == 8 || i == 13 || i == 18 || i == 23 {
                    c == '-'
                } else {
                    '0' <= c <= '9' || 'a' <= c <= 'f'
                }
            },
        pending.id@[14] == '4',
        pending.id@[19] == '8' || pending.id@[19] == '9' || pending.id@[19] == 'a'
            || pending.id@[19] == 'b',
        pending.action_id@ == action_id@,
        pending.params == *params,
        pending.requested_at_ms == millis,
        pending.pid == pid,
{
}

/// A request with a given id holds that id, and everything else like a new one.
pub proof fn law_request_with_an_id_holds_it(
    id: String,
    action_id: &str,
    params: &Value,
    since_epoch: Option<Duration>,
    pid: u32,
    pending: PendingApproval,
    millis: u64,
)
    requires
        call_ensures(
            PendingApproval::with_id,
            (id, action_id, params, since_epoch, pid),
            pending,
        ),
        call_ensures(epoch_millis, (since_epoch,), millis),
    ensures
        pending.id@ == id@,
        pending.action_id@ == action_id@,
        pending.params == *params,
        pending.requested_at_ms == millis,
        pending.pid == pid,
{
}

/// Encoding a request succeeds, and gives one complete line: it ends with the only line feed, and
/// its reader gets the id and the action back, and behind them the parameters verbatim, the time
/// and the process in decimal.
pub proof fn law_request_is_one_line_that_reads_back(
    pending: &PendingApproval,
    encoded: Result<String, EncodeError>,
    millis: String,
    pid: String,
)
    requires
        call_ensures(PendingApproval::to_line, (pending,), encoded),
        call_ensures(text::decimal_string, (pending.requested_at_ms,), millis),
        call_ensures(text::decimal_string, (pending.pid as u64,), pid),
    ensures
        encoded is Ok,
        encoded->Ok_0@.len() > 0,
        encoded->Ok_0@.last() == '\n',
        forall|i: int|
            0 <= i < encoded->Ok_0@.len() - 1 ==> #[trigger] encoded->Ok_0@[i] != '\n',
        encoded->Ok_0@ == "{\"id\":"@ + json::json_string(pending.id@) + ",\"action_id\":"@
            + json::json_string(pending.action_id@) + ",\"params\":"@ + json::value_text(
            pending.params,
        ) + ",\"requested_at_ms\":"@ + millis@ + ",\"pid\":"@ + pid@ + "}\n"@,
        read_line(encoded->Ok_0@) == Some(
            (
                pending.id@,
                pending.action_id@,
                json::value_text(pending.params) + ",\"requested_at_ms\":"@ + millis@
                    + ",\"pid\":"@ + pid@ + "}\n"@,
            ),
        ),
{
    law_pending_line_is_read(*pending);
    let line = encoded->Ok_0@;
    reveal_strlit("}\n");
    assert forall|i: int| 0 <= i < line.len() - 1 implies #[trigger] line[i] != '\n' by {
        assert(line.drop_last().contains(line.drop_last()[i]));
    }
}

} // verus!
