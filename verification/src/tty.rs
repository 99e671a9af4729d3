//! Approval on the controlling terminal.

use crate::duration;
use crate::duration::Duration;
use crate::{json, text};
use serde_json::Value;
use vstd::prelude::*;
use vstd::string::*;

verus! {

/// Prompts a human on the controlling terminal and waits for a y/n. The terminal is opened
/// directly, since standard input may carry the agent's traffic. A terminal that cannot be
/// reached or read is a denial, and so is a prompt that nobody answers in time.
pub struct TtyApproval;

/// Seconds after which an unanswered prompt denies.
pub const TTY_APPROVAL_TIMEOUT_SECS: u64 = 300;

/// What came of a prompt.
pub enum TtyReply {
    /// The terminal could not be opened or written to.
    Unavailable,
    /// The terminal could not be read.
    ReadFailed,
    /// The line that was read; empty at the end of input.
    Line(String),
    /// Nothing was read in time.
    TimedOut,
    /// The reader went away without a result.
    Disconnected,
}

/// The text of the prompt.
pub open spec fn tty_prompt(action_id: Seq<char>, params: Seq<char>) -> Seq<char> {
    "\n[kriya] APPROVAL REQUIRED \u{2014} an external agent wants to run a guarded action:\n  action: "@
        + action_id + "\n  params: "@ + params + "\n[kriya] approve? [y/N] (times out after "@
        + text::decimal(TTY_APPROVAL_TIMEOUT_SECS as nat) + "s): "@
}

/// Whether a line says yes: `y` or `yes` in any case, with white space around it or not.
pub open spec fn says_yes(line: Seq<char>) -> bool {
    let answer = text::lowered(text::trimmed(line));
    answer == "y"@ || answer == "yes"@
}

impl TtyApproval {
    /// The prompt that asks for a decision on `action_id` with `params`.
    pub fn prompt(&self, action_id: &str, params: &Value) -> (prompt: String)
        ensures
            prompt@ == tty_prompt(action_id@, json::value_text(*params)),
    {
        let mut prompt: String = String::from_str(
            "\n[kriya] APPROVAL REQUIRED \u{2014} an external agent wants to run a guarded action:\n  action: ",
        );
        prompt.append(action_id);
        prompt.append("\n  params: ");
        prompt.append(json::value_string(params).as_str());
        prompt.append("\n[kriya] approve? [y/N] (times out after ");
        prompt.append(text::decimal_string(TTY_APPROVAL_TIMEOUT_SECS).as_str());
        prompt.append("s): ");
        prompt
    }

    /// How long to wait for a reply.
    pub fn timeout(&self) -> (timeout: Duration)
        ensures
            timeout@ == TTY_APPROVAL_TIMEOUT_SECS * duration::NANOS_PER_SEC,
    {
        Duration::from_secs(TTY_APPROVAL_TIMEOUT_SECS)
    }

    /// Whether the line that was read says yes.
    pub fn approves(&self, line: &str) -> (approved: bool)
        ensures
            approved == says_yes(line@),
    {
        let answer = text::trim(line);
        proof {
            reveal_strlit("y");
            reveal_strlit("yes");
            assert(text::lowered("y"@) =~= "y"@);
            assert(text::lowered("yes"@) =~= "yes"@);
        }
        text::eq_ignore_ascii_case(answer.as_str(), "y") || text::eq_ignore_ascii_case(
            answer.as_str(),
            "yes",
        )
    }

    /// The decision, given what came of the prompt: only a line that says yes approves.
    pub fn decide(&self, reply: &TtyReply) -> (approved: bool)
        ensures
            approved == (reply matches TtyReply::Line(line) && says_yes(line@)),
    {
        match reply {
            TtyReply::Line(line) => self.approves(line.as_str()),
            TtyReply::Unavailable => false,
            TtyReply::ReadFailed => false,
            TtyReply::TimedOut => false,
            TtyReply::Disconnected => false,
        }
    }
}

/// Whether `answer` is `y` or `yes`, with each letter in either case.
spec fn is_yes(answer: Seq<char>) -> bool {
    ||| answer.len() == 1 && (answer[0] == 'y' || answer[0] == 'Y')
    ||| answer.len() == 3 && (answer[0] == 'y' || answer[0] == 'Y') && (answer[1] == 'e'
        || answer[1] == 'E') && (answer[2] == 's' || answer[2] == 'S')
}

proof fn lemma_lower_letter(c: char, l: char)
    requires
        'a' <= l <= 'z',
    ensures
        text::ascii_lower(c) == l <==> c == l || c as int + 32 == l as int,
{
    assert(0 <= c as int <= 0x10ffff);
}

proof fn lemma_yes(answer: Seq<char>)
    ensures
        text::lowered(answer) == "y"@ || text::lowered(answer) == "yes"@ <==> is_yes(answer),
{
    reveal_strlit("y");
    reveal_strlit("yes");
    let low = text::lowered(answer);
    assert(low.len() == answer.len());
    if answer.len() == 1 {
        assert(low[0] == text::ascii_lower(answer[0]));
        lemma_lower_letter(answer[0], 'y');
        assert(low =~= "y"@ <==> low[0] == 'y');
    }
    if answer.len() == 3 {
        assert(low[0] == text::ascii_lower(answer[0]));
        assert(low[1] == text::ascii_lower(answer[1]));
        assert(low[2] == text::ascii_lower(answer[2]));
        lemma_lower_letter(answer[0], 'y');
        lemma_lower_letter(answer[1], 'e');
        lemma_lower_letter(answer[2], 's');
        assert(low =~= "yes"@ <==> low[0] == 'y' && low[1] == 'e' && low[2] == 's');
    }
}

/// A line approves only if it is `y` or `yes`, each letter in either case, with nothing but white
/// space around it. So a line without the letter `y` never approves.
pub proof fn law_only_yes_approves(tty: &TtyApproval, line: &str) -> (parts: (
    Seq<char>,
    Seq<char>,
    Seq<char>,
))
    requires
        call_ensures(TtyApproval::approves, (tty, line), true),
    ensures
        line@ == parts.0 + parts.1 + parts.2,
        forall|i: int| 0 <= i < parts.0.len() ==> text::is_white_space(#[trigger] parts.0[i]),
        forall|i: int| 0 <= i < parts.2.len() ==> text::is_white_space(#[trigger] parts.2[i]),
        ({
            let answer = parts.1;
            ||| answer == seq!['y'] || answer == seq!['Y']
            ||| answer.len() == 3 && (answer[0] == 'y' || answer[0] == 'Y') && (answer[1] == 'e'
                || answer[1] == 'E') && (answer[2] == 's' || answer[2] == 'S')
        }),
        line@.contains('y') || line@.contains('Y'),
{
    let answer = text::trimmed(line@);
    lemma_yes(answer);
    let around = text::lemma_trimmed_splits(line@);
    assert(line@[around.0.len() as int] == answer[0]);
    (around.0, answer, around.1)
}

/// Every line that is `y` or `yes`, each letter in either case, with white space around it or
/// not, approves.
pub proof fn law_every_yes_approves(
    tty: &TtyApproval,
    line: &str,
    approved: bool,
    a: Seq<char>,
    answer: Seq<char>,
    b: Seq<char>,
)
    requires
        call_ensures(TtyApproval::approves, (tty, line), approved),
        line@ == a + answer + b,
        forall|i: int| 0 <= i < a.len() ==> text::is_white_space(#[trigger] a[i]),
        forall|i: int| 0 <= i < b.len() ==> text::is_white_space(#[trigger] b[i]),
        ({
            ||| answer == seq!['y'] || answer == seq!['Y']
            ||| answer.len() == 3 && (answer[0] == 'y' || answer[0] == 'Y') && (answer[1] == 'e'
                || answer[1] == 'E') && (answer[2] == 's' || answer[2] == 'S')
        }),
    ensures
        approved,
{
    text::lemma_trimmed_of(a, answer, b);
    lemma_yes(answer);
}

/// The decision on a line that was read is that of [`TtyApproval::approves`]; whatever else came
/// of the prompt denies.
pub proof fn law_no_line_denies(tty: &TtyApproval, reply: &TtyReply, approved: bool)
    requires
        call_ensures(TtyApproval::decide, (tty, reply), approved),
    ensures
        !(reply is Line) ==> !approved,
        forall|line: &str, says: bool|
            reply is Line && line@ == reply->Line_0@ && #[trigger] call_ensures(
                TtyApproval::approves,
                (tty, line),
                says,
            ) ==> approved == says,
{
}

/// The prompt shows the whole of the action and the whole of the parameters, each on a line of
/// the prompt behind its name, and asks for an answer within 300 seconds.
pub proof fn law_prompt_shows_the_request(
    tty: &TtyApproval,
    action_id: &str,
    params: &Value,
    prompt: String,
)
    requires
        call_ensures(TtyApproval::prompt, (tty, action_id, params), prompt),
    ensures
        prompt@
            == "\n[kriya] APPROVAL REQUIRED \u{2014} an external agent wants to run a guarded action:\n  action: "@
            + action_id@ + "\n  params: "@ + json::value_text(*params)
            + "\n[kriya] approve? [y/N] (times out after 300s): "@,
{
    reveal_strlit("\n[kriya] approve? [y/N] (times out after ");
    reveal_strlit("s): ");
    reveal_strlit("\n[kriya] approve? [y/N] (times out after 300s): ");
    reveal_with_fuel(text::decimal, 3);
    assert(text::decimal(300) =~= seq!['3', '0', '0']);
    let tail = "\n[kriya] approve? [y/N] (times out after "@ + text::decimal(300) + "s): "@;
    assert(tail =~= "\n[kriya] approve? [y/N] (times out after 300s): "@);
    let head = "\n[kriya] APPROVAL REQUIRED \u{2014} an external agent wants to run a guarded action:\n  action: "@
        + action_id@ + "\n  params: "@ + json::value_text(*params);
    assert(prompt@ =~= head + tail);
}

/// A prompt waits for 300 seconds.
pub proof fn law_prompt_waits_300_seconds(tty: &TtyApproval, timeout: Duration)
    requires
        call_ensures(TtyApproval::timeout, (tty,), timeout),
    ensures
        timeout@ == 300_000_000_000,
{
}

} // verus!
