//! Approval through a native macOS dialog, drawn by `osascript`.

use crate::{json, text};
use serde_json::Value;
use vstd::prelude::*;
use vstd::string::*;
use vstd::utf8::*;

verus! {

/// Prompts a human through a native macOS dialog. It works even when the process is a child of a
/// program that owns the controlling terminal, since the window server draws the dialog. A dialog
/// that cannot be shown, is cancelled or gives up is a denial.
pub struct GuiApproval;

/// One character as it stands in an AppleScript string literal.
pub open spec fn applescript_escape(c: char) -> Seq<char> {
    if c == '\\' || c == '"' {
        seq!['\\', c]
    } else if c == '\n' {
        seq!['\\', 'n']
    } else {
        seq![c]
    }
}

/// The characters of `s`, each as it stands in an AppleScript string literal.
pub open spec fn applescript_escaped(s: Seq<char>) -> Seq<char>
    decreases s.len(),
{
    if s.len() == 0 {
        seq![]
    } else {
        applescript_escaped(s.drop_last()) + applescript_escape(s.last())
    }
}

/// `s` as an AppleScript string literal.
pub open spec fn applescript_literal(s: Seq<char>) -> Seq<char> {
    seq!['"'] + applescript_escaped(s) + seq!['"']
}

/// Renders a string as an AppleScript string literal: quoted, with `\`, `"` and line feed
/// escaped. No shell quoting is needed, since the script is passed to `osascript` as one
/// argument.
pub fn applescript_string(s: &str) -> (literal: String)
    ensures
        literal@ == applescript_literal(s@),
{
    let mut out: String = String::new();
    out.push('"');
    for c in it: s.chars()
        invariant
            it.seq() == s@,
            out@ == seq!['"'] + applescript_escaped(s@.take(it.index())),
    {
        let ghost read = s@.take(it.index() + 1);
        proof {
            assert(read.drop_last() =~= s@.take(it.index()));
            assert(read.last() == c);
        }
        match c {
            '\\' => {
                out.push('\\');
                out.push('\\');
            },
            '"' => {
                out.push('\\');
                out.push('"');
            },
            '\n' => {
                out.push('\\');
                out.push('n');
            },
            _ => {
                out.push(c);
            },
        }
        proof {
            assert(out@ =~= seq!['"'] + applescript_escaped(read));
        }
    }
    proof {
        assert(s@.take(s@.len() as int) =~= s@);
    }
    out.push('"');
    assert(out@ =~= applescript_literal(s@));
    out
}

/// What AppleScript reads from the inside of a string literal up to its closing quote, and the
/// source that follows.
pub open spec fn applescript_read_inside(source: Seq<char>) -> Option<(Seq<char>, Seq<char>)>
    decreases source.len(),
{
    if source.len() == 0 {
        None
    } else if source[0] == '"' {
        Some((seq![], source.skip(1)))
    } else if source[0] == '\\' {
        if source.len() == 1 {
            None
        } else {
            let c = match source[1] {
                'n' => '\n',
                'r' => '\r',
                't' => '\t',
                other => other,
            };
            match applescript_read_inside(source.skip(2)) {
                Some((text, rest)) => Some((seq![c] + text, rest)),
                None => None,
            }
        }
    } else {
        match applescript_read_inside(source.skip(1)) {
            Some((text, rest)) => Some((seq![source[0]] + text, rest)),
            None => None,
        }
    }
}

/// What AppleScript reads where a string literal stands: the text of the literal, and the source
/// that follows it.
pub open spec fn applescript_read(source: Seq<char>) -> Option<(Seq<char>, Seq<char>)> {
    if source.len() > 0 && source[0] == '"' {
        applescript_read_inside(source.skip(1))
    } else {
        None
    }
}

proof fn lemma_escaped_from_the_front(s: Seq<char>)
    requires
        s.len() > 0,
    ensures
        applescript_escaped(s) == applescript_escape(s.first()) + applescript_escaped(
            s.drop_first(),
        ),
    decreases s.len(),
{
    let front = s.drop_last();
    if s.len() == 1 {
        assert(front =~= seq![]);
        assert(s.drop_first() =~= seq![]);
        assert(applescript_escaped(s) =~= applescript_escape(s.first()) + applescript_escaped(
            s.drop_first(),
        ));
    } else {
        lemma_escaped_from_the_front(front);
        assert(s.drop_first().drop_last() =~= front.drop_first());
        assert(s.drop_first().last() == s.last());
        assert(applescript_escaped(s) =~= applescript_escape(s.first()) + applescript_escaped(
            s.drop_first(),
        ));
    }
}

proof fn lemma_escaped_reads_back(s: Seq<char>, rest: Seq<char>)
    ensures
        applescript_read_inside(applescript_escaped(s) + (seq!['"'] + rest)) == Some((s, rest)),
    decreases s.len(),
{
    let source = applescript_escaped(s) + (seq!['"'] + rest);
    if s.len() == 0 {
        assert(source.skip(1) =~= rest);
        assert(s =~= seq![]);
    } else {
        lemma_escaped_from_the_front(s);
        lemma_escaped_reads_back(s.drop_first(), rest);
        let head = applescript_escape(s.first());
        let next = applescript_escaped(s.drop_first()) + (seq!['"'] + rest);
        assert(source =~= head + next);
        assert(source.skip(head.len() as int) =~= next);
        assert(s =~= seq![s.first()] + s.drop_first());
    }
}

/// AppleScript reads a rendered literal as the very text it was rendered from, and goes on with
/// what follows it: no text can end its literal early.
pub proof fn law_applescript_literal_reads_back(s: Seq<char>, rest: Seq<char>)
    ensures
        applescript_read(applescript_literal(s) + rest) == Some((s, rest)),
{
    lemma_escaped_reads_back(s, rest);
    assert((applescript_literal(s) + rest).skip(1) =~= applescript_escaped(s) + (seq!['"'] + rest));
}

/// The text of the dialog.
pub open spec fn dialog_body(action_id: Seq<char>, params: Seq<char>) -> Seq<char> {
    "An external agent wants to run a guarded action:\n\naction: "@ + action_id + "\nparams: "@
        + params
}

/// What the script says before the text of the dialog.
pub const DIALOG_COMMAND: &'static str = "display dialog ";

/// What the script says after the text of the dialog. Deny is both the default and the cancel
/// button, so that dismissing the dialog denies, and the dialog gives up after 300 seconds.
pub const DIALOG_OPTIONS: &'static str = " with title \"kriya \u{2014} approval required\" buttons {\"Deny\", \"Approve\"} default button \"Deny\" cancel button \"Deny\" with icon caution giving up after 300";

/// The AppleScript source that shows the dialog.
pub open spec fn dialog_script(action_id: Seq<char>, params: Seq<char>) -> Seq<char> {
    DIALOG_COMMAND@ + applescript_literal(dialog_body(action_id, params)) + DIALOG_OPTIONS@
}

/// Whatever the requested action and its parameters hold, the script shows exactly the dialog
/// text, under the fixed title, buttons and time limit.
pub proof fn law_request_cannot_change_the_dialog(action_id: Seq<char>, params: Seq<char>)
    ensures
        dialog_script(action_id, params).take(DIALOG_COMMAND@.len() as int) == DIALOG_COMMAND@,
        applescript_read(dialog_script(action_id, params).skip(DIALOG_COMMAND@.len() as int))
            == Some((dialog_body(action_id, params), DIALOG_OPTIONS@)),
{
    let body = dialog_body(action_id, params);
    let script = dialog_script(action_id, params);
    let from = DIALOG_COMMAND@.len() as int;
    assert(script.take(from) =~= DIALOG_COMMAND@);
    assert(script.skip(from) =~= applescript_literal(body) + DIALOG_OPTIONS@);
    law_applescript_literal_reads_back(body, DIALOG_OPTIONS@);
}

/// What `osascript` prints when, and only when, Approve was clicked.
pub const APPROVE_CLICKED: &'static str = "button returned:Approve";

/// The text that `String::from_utf8_lossy` makes of bytes.
pub uninterp spec fn lossy_text(bytes: Seq<u8>) -> Seq<char>;

/// The text of `bytes`, with invalid sequences replaced.
///
/// Trusted: `String::from_utf8_lossy` decodes UTF-8; the text of valid UTF-8 is what it encodes.
#[verifier::external_body]
fn decode_lossy(bytes: &[u8]) -> (text: String)
    ensures
        text@ == lossy_text(bytes@),
        valid_utf8(bytes@) ==> text@ == decode_utf8(bytes@),
{
    String::from_utf8_lossy(bytes).into_owned()
}

impl GuiApproval {
    /// The AppleScript source that asks for a decision on `action_id` with `params`.
    pub fn script(&self, action_id: &str, params: &Value) -> (script: String)
        ensures
            script@ == dialog_script(action_id@, json::value_text(*params)),
    {
        let mut body: String = String::from_str(
            "An external agent wants to run a guarded action:\n\naction: ",
        );
        body.append(action_id);
        body.append("\nparams: ");
        body.append(json::value_string(params).as_str());
        let mut script: String = String::from_str(DIALOG_COMMAND);
        script.append(applescript_string(body.as_str()).as_str());
        script.append(DIALOG_OPTIONS);
        script
    }

    /// Whether the printed reply of `osascript` approves. A cancelled dialog prints nothing, and
    /// one that gave up prints no button.
    pub fn approves(&self, reply: &str) -> (approved: bool)
        ensures
            approved == text::occurs_in(reply@, APPROVE_CLICKED@),
    {
        text::contains(reply, APPROVE_CLICKED)
    }

    /// The decision, given the standard output of `osascript`, or `None` if it could not be run.
    pub fn decide(&self, stdout: Option<&[u8]>) -> (approved: bool)
        ensures
            stdout is None ==> !approved,
            stdout matches Some(bytes) ==> approved == text::occurs_in(
                lossy_text(bytes@),
                APPROVE_CLICKED@,
            ),
            stdout matches Some(bytes) ==> valid_utf8(bytes@) ==> approved == text::occurs_in(
                decode_utf8(bytes@),
                APPROVE_CLICKED@,
            ),
    {
        match stdout {
            Some(bytes) => {
                let reply = decode_lossy(bytes);
                self.approves(reply.as_str())
            },
            None => false,
        }
    }
}

/// The dialog shows the whole of the action and the whole of the parameters, whatever they hold:
/// what AppleScript reads from the literal in the script ends with the parameters behind their
/// name, and the action stands behind its name before that. Around the literal stand the fixed
/// command and the fixed title, buttons and time limit.
pub proof fn law_dialog_shows_the_request(
    gui: &GuiApproval,
    action_id: &str,
    params: &Value,
    script: String,
)
    requires
        call_ensures(GuiApproval::script, (gui, action_id, params), script),
    ensures
        script@.len() >= 15,
        script@.take(15) == "display dialog "@,
        applescript_read(script@.skip(15)) == Some(
            (
                "An external agent wants to run a guarded action:\n\naction: "@ + action_id@
                    + "\nparams: "@ + json::value_text(*params),
                " with title \"kriya \u{2014} approval required\" buttons {\"Deny\", \"Approve\"} default button \"Deny\" cancel button \"Deny\" with icon caution giving up after 300"@,
            ),
        ),
        forall|shown: &str, literal: String|
            shown@ == "An external agent wants to run a guarded action:\n\naction: "@ + action_id@
                + "\nparams: "@ + json::value_text(*params) && #[trigger] call_ensures(
                applescript_string,
                (shown,),
                literal,
            ) ==> script@ == "display dialog "@ + literal@
                + " with title \"kriya \u{2014} approval required\" buttons {\"Deny\", \"Approve\"} default button \"Deny\" cancel button \"Deny\" with icon caution giving up after 300"@,
{
    reveal_strlit("display dialog ");
    assert(DIALOG_COMMAND@.len() == 15);
    law_request_cannot_change_the_dialog(action_id@, json::value_text(*params));
}

/// Two requests that are shown the same way have the same parameters, if they are for the same
/// action.
pub proof fn law_dialog_fixes_the_parameters(
    gui: &GuiApproval,
    action_id: &str,
    params: &Value,
    others: &Value,
    script: String,
    other_script: String,
)
    requires
        call_ensures(GuiApproval::script, (gui, action_id, params), script),
        call_ensures(GuiApproval::script, (gui, action_id, others), other_script),
        script@ == other_script@,
    ensures
        json::value_text(*params) == json::value_text(*others),
{
    law_dialog_shows_the_request(gui, action_id, params, script);
    law_dialog_shows_the_request(gui, action_id, others, other_script);
    let head = "An external agent wants to run a guarded action:\n\naction: "@ + action_id@
        + "\nparams: "@;
    let p = json::value_text(*params);
    let q = json::value_text(*others);
    assert((head + p).skip(head.len() as int) =~= p);
    assert((head + q).skip(head.len() as int) =~= q);
}

/// A literal is the text between two quotes, where a backslash stands in front of every backslash
/// and quote, a line feed is a backslash and an `n`, and every other character is as it is: the
/// literal of a text with one more character is that of the text with that much more in front of
/// its closing quote.
pub proof fn law_literal_grows_by_a_character(
    s: &str,
    literal: String,
    longer: &str,
    longer_literal: String,
    c: char,
)
    requires
        call_ensures(applescript_string, (s,), literal),
        call_ensures(applescript_string, (longer,), longer_literal),
        longer@ == s@.push(c),
    ensures
        literal@.len() >= 2,
        literal@[0] == '"',
        literal@.last() == '"',
        c == '\n' ==> longer_literal@ == literal@.drop_last() + seq!['\\', 'n', '"'],
        c == '"' || c == '\\' ==> longer_literal@ == literal@.drop_last() + seq!['\\', c, '"'],
        c != '\n' && c != '"' && c != '\\' ==> longer_literal@ == literal@.drop_last() + seq![
            c,
            '"',
        ],
{
    let inner = applescript_escaped(s@);
    assert(longer@.drop_last() =~= s@);
    assert(longer@.last() == c);
    assert(literal@.drop_last() =~= seq!['"'] + inner);
    assert(longer_literal@ =~= literal@.drop_last() + applescript_escape(c).push('"'));
}

/// The literal of the empty text is two quotes.
pub proof fn law_literal_of_nothing(s: &str, literal: String)
    requires
        call_ensures(applescript_string, (s,), literal),
        s@.len() == 0,
    ensures
        literal@ == seq!['"', '"'],
{
}

/// AppleScript reads from what [`applescript_string`] gives the very text that it was given, and
/// goes on with what follows.
pub proof fn law_string_reads_back(s: &str, literal: String, rest: Seq<char>)
    requires
        call_ensures(applescript_string, (s,), literal),
    ensures
        applescript_read(literal@ + rest) == Some((s@, rest)),
{
    law_applescript_literal_reads_back(s@, rest);
}

/// A reply that approves holds `button returned:Approve`.
pub proof fn law_only_the_approve_button_approves(gui: &GuiApproval, reply: &str) -> (around: (
    Seq<char>,
    Seq<char>,
))
    requires
        call_ensures(GuiApproval::approves, (gui, reply), true),
    ensures
        reply@ == around.0 + "button returned:Approve"@ + around.1,
{
    text::lemma_occurs_splits(reply@, "button returned:Approve"@)
}

/// Every reply that holds `button returned:Approve` approves.
pub proof fn law_the_approve_button_approves(
    gui: &GuiApproval,
    reply: &str,
    approved: bool,
    a: Seq<char>,
    b: Seq<char>,
)
    requires
        call_ensures(GuiApproval::approves, (gui, reply), approved),
        reply@ == a + "button returned:Approve"@ + b,
    ensures
        approved,
{
    text::lemma_occurs_between(a, "button returned:Approve"@, b);
}

/// The decision on what was printed is that of [`GuiApproval::approves`] on its text; a dialog
/// that could not be shown denies.
pub proof fn law_printed_reply_decides(
    gui: &GuiApproval,
    stdout: Option<&[u8]>,
    approved: bool,
)
    requires
        call_ensures(GuiApproval::decide, (gui, stdout), approved),
    ensures
        stdout is None ==> !approved,
        forall|reply: &str, says: bool|
            stdout is Some && stdout->0@ == encode_utf8(reply@) && #[trigger] call_ensures(
                GuiApproval::approves,
                (gui, reply),
                says,
            ) ==> approved == says,
        forall|reply: &str, says: bool|
            stdout is Some && reply@ == lossy_text(stdout->0@) && #[trigger] call_ensures(
                GuiApproval::approves,
                (gui, reply),
                says,
            ) ==> approved == says,
{
    broadcast use encode_utf8_valid_utf8, encode_utf8_decode_utf8;

}

} // verus!
