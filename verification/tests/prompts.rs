use kriya::{
    applescript_string, ApprovalGate, AutoApprove, DenyApproval, Duration, GuiApproval,
    TtyApproval, TtyReply,
};
use serde_json::Value;

fn params() -> Value {
    let mut map = serde_json::Map::new();
    map.insert("cmd".to_string(), Value::from("say \"hi\""));
    Value::Object(map)
}

#[test]
fn deny_and_auto_never_ask() {
    let gates: Vec<(Box<dyn ApprovalGate>, bool)> =
        vec![(Box::new(DenyApproval), false), (Box::new(AutoApprove), true)];
    for (gate, expected) in gates {
        assert_eq!(gate.request("x", &params()), expected);
        assert_eq!(gate.request("", &Value::Null), expected);
    }
}

#[test]
fn tty_prompt_shows_action_and_params() {
    assert_eq!(
        TtyApproval.prompt("agent__bash", &params()),
        "\n[kriya] APPROVAL REQUIRED — an external agent wants to run a guarded action:\n  action: agent__bash\n  params: {\"cmd\":\"say \\\"hi\\\"\"}\n[kriya] approve? [y/N] (times out after 300s): "
    );
    assert_eq!(TtyApproval.timeout(), Duration::from_secs(300));
}

#[test]
fn only_yes_approves_on_the_tty() {
    for yes in ["y\n", "Y", "yes\r\n", "YES", " yEs \n", "\ty\u{a0}"] {
        assert!(TtyApproval.decide(&TtyReply::Line(yes.to_string())), "{:?}", yes);
    }
    for no in ["", "\n", "n\n", "no", "yy", "ye", "yess", "y es", "\u{ff59}", "ok"] {
        assert!(!TtyApproval.decide(&TtyReply::Line(no.to_string())), "{:?}", no);
    }
}

#[test]
fn a_tty_without_a_reply_denies() {
    assert!(!TtyApproval.decide(&TtyReply::Unavailable));
    assert!(!TtyApproval.decide(&TtyReply::ReadFailed));
    assert!(!TtyApproval.decide(&TtyReply::TimedOut));
    assert!(!TtyApproval.decide(&TtyReply::Disconnected));
}

#[test]
fn applescript_literals_are_quoted_and_escaped() {
    assert_eq!(applescript_string(""), "\"\"");
    assert_eq!(applescript_string("plain — text"), "\"plain — text\"");
    assert_eq!(applescript_string("a\"b"), "\"a\\\"b\"");
    assert_eq!(applescript_string("a\\b"), "\"a\\\\b\"");
    assert_eq!(applescript_string("a\nb"), "\"a\\nb\"");
    assert_eq!(applescript_string("\\n"), "\"\\\\n\"");
    assert_eq!(
        applescript_string("\" & (do shell script \"x\") & \""),
        "\"\\\" & (do shell script \\\"x\\\") & \\\"\""
    );
}

#[test]
fn dialog_script_holds_the_request_in_one_literal() {
    assert_eq!(
        GuiApproval.script("act\"ion", &params()),
        "display dialog \"An external agent wants to run a guarded action:\\n\\naction: act\\\"ion\\nparams: {\\\"cmd\\\":\\\"say \\\\\\\"hi\\\\\\\"\\\"}\" with title \"kriya — approval required\" buttons {\"Deny\", \"Approve\"} default button \"Deny\" cancel button \"Deny\" with icon caution giving up after 300"
    );
}

#[test]
fn only_the_approve_button_approves() {
    assert!(GuiApproval.decide(Some(b"button returned:Approve, gave up:false\n")));
    assert!(GuiApproval.decide(Some(b"button returned:Approve")));
    assert!(!GuiApproval.decide(Some(b"button returned:Deny, gave up:false\n")));
    assert!(!GuiApproval.decide(Some(b"button returned:, gave up:true\n")));
    assert!(!GuiApproval.decide(Some(b"")));
    assert!(!GuiApproval.decide(None));
    assert!(GuiApproval.approves("x button returned:Approve y"));
    assert!(!GuiApproval.approves("button returned:approve"));
}

#[test]
fn invalid_bytes_in_the_reply_are_replaced() {
    assert!(GuiApproval.decide(Some(b"\xff\xc3button returned:Approve\xe2\x82")));
    assert!(!GuiApproval.decide(Some(b"button returned\xff:Approve")));
    assert!(GuiApproval.decide(Some("\u{2014}button returned:Approve\u{2014}".as_bytes())));
}
