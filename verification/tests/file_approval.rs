use kriya::{
    default_approvals_dir, scan_decision, Action, ApprovalDecision, Duration, Event, FileApproval,
    PendingApproval, Phase, DECISIONS_FILE, PENDING_FILE,
};
use serde_json::Value;
use std::path::{Path, PathBuf};

const PID: u32 = 4242;

/// The two files of a mailbox, held in memory.
struct Mailbox {
    pending: String,
    decisions: Option<Vec<u8>>,
}

impl Mailbox {
    fn new() -> Mailbox {
        Mailbox { pending: String::new(), decisions: None }
    }

    fn append(&mut self, line: &str) {
        self.append_bytes(line.as_bytes());
    }

    fn append_bytes(&mut self, line: &[u8]) {
        let mut bytes = self.decisions.take().unwrap_or_default();
        bytes.extend_from_slice(line);
        bytes.push(b'\n');
        self.decisions = Some(bytes);
    }

    fn write_decision(&mut self, id: &str, approved: bool) {
        let mut object = serde_json::Map::new();
        object.insert("id".to_string(), Value::from(id));
        object.insert("approved".to_string(), Value::from(approved));
        object.insert("decided_at_ms".to_string(), Value::from(1u64));
        self.append(&Value::Object(object).to_string());
    }

    fn pending_ids(&self) -> Vec<String> {
        let mut ids = Vec::new();
        for line in self.pending.lines() {
            let value: Value = serde_json::from_str(line).unwrap();
            ids.push(value["id"].as_str().unwrap().to_string());
        }
        ids
    }
}

fn parse(line: &str) -> Option<ApprovalDecision> {
    let value: Value = serde_json::from_str(line).ok()?;
    Some(ApprovalDecision {
        id: value.get("id")?.as_str()?.to_string(),
        approved: value.get("approved")?.as_bool()?,
        decided_at_ms: match value.get("decided_at_ms") {
            Some(ms) => ms.as_u64()?,
            None => 0,
        },
    })
}

fn params(key: &str, text: &str) -> Value {
    let mut object = serde_json::Map::new();
    object.insert(key.to_string(), Value::from(text));
    Value::Object(object)
}

fn no_params() -> Value {
    Value::Object(serde_json::Map::new())
}

/// When a request is posted, by the clock of the tests.
fn start() -> Duration {
    Duration::from_millis(7)
}

fn pending(action_id: &str, params: &Value) -> PendingApproval {
    PendingApproval::new(action_id, params, Some(Duration::from_secs(1)), PID)
}

/// Runs one request against `mailbox`. The clock stands still but for the pauses, which end on
/// time; `decider` runs during each pause and is told how long after the posting the pause ends.
/// Returns the decision and when each look at the answers was, counted from the posting.
fn request(
    gate: &FileApproval,
    action_id: &str,
    params: &Value,
    mailbox: &mut Mailbox,
    decider: &mut dyn FnMut(&mut Mailbox, Duration),
) -> (bool, Vec<Duration>) {
    let mut now = start();
    let mut looks = Vec::new();
    let mut phase = gate.begin();
    loop {
        phase = match gate.action(&phase) {
            Action::CreateDirectory => {
                gate.step(phase, Event::DirectoryReady { pending: pending(action_id, params) })
            }
            Action::AppendRequest { line } => {
                mailbox.pending.push_str(&line);
                gate.step(phase, Event::Posted { now })
            }
            Action::ReadDecisions => {
                looks.push(now.saturating_sub(&start()));
                gate.look(phase, mailbox.decisions.as_deref(), now, parse)
            }
            Action::SleepUntil { moment } => {
                assert!(moment.at_least(&now));
                now = moment;
                decider(mailbox, now.saturating_sub(&start()));
                gate.step(phase, Event::Woke)
            }
            Action::Finish { approved } => return (approved, looks),
        }
    }
}

fn millis(moments: &[u64]) -> Vec<Duration> {
    moments.iter().map(|ms| Duration::from_millis(*ms)).collect()
}

fn gate(timeout: Duration, poll: Duration) -> FileApproval {
    FileApproval::new(PathBuf::from("/mailbox")).with_timeout(timeout, poll)
}

#[test]
fn writes_a_pending_line_with_action_and_params() {
    let mut mailbox = Mailbox::new();
    let gate = gate(Duration::from_millis(120), Duration::from_millis(20));
    let (approved, _) = request(
        &gate,
        "agent__bash",
        &params("cmd", "rm -rf /"),
        &mut mailbox,
        &mut |_, _| {},
    );
    assert!(!approved, "no decision within the timeout must deny");

    let lines: Vec<&str> = mailbox.pending.lines().collect();
    assert_eq!(lines.len(), 1);
    let pend: Value = serde_json::from_str(lines[0]).unwrap();
    assert_eq!(pend["action_id"], Value::from("agent__bash"));
    assert_eq!(pend["params"], params("cmd", "rm -rf /"));
    assert_eq!(pend["pid"], Value::from(PID));
    assert!(!pend["id"].as_str().unwrap().is_empty());
}

#[test]
fn timeout_denies() {
    let mut mailbox = Mailbox::new();
    let gate = gate(Duration::from_millis(100), Duration::from_millis(20));
    let (approved, looks) = request(&gate, "x", &no_params(), &mut mailbox, &mut |_, _| {});
    assert!(!approved);
    assert_eq!(looks, millis(&[0, 20, 40, 60, 80, 100]));
}

#[test]
fn matching_approve_decision_allows() {
    let mut mailbox = Mailbox::new();
    let gate = gate(Duration::from_secs(5), Duration::from_millis(20));
    let (approved, looks) = request(
        &gate,
        "agent__bash",
        &params("cmd", "deploy"),
        &mut mailbox,
        &mut |m, _| {
            let ids = m.pending_ids();
            m.write_decision(&ids[0], true);
        },
    );
    assert!(approved, "a matching approve decision must allow");
    assert_eq!(looks, millis(&[0, 20]));
}

#[test]
fn matching_deny_decision_denies() {
    let mut mailbox = Mailbox::new();
    let gate = gate(Duration::from_secs(5), Duration::from_millis(20));
    let (approved, looks) = request(&gate, "x", &no_params(), &mut mailbox, &mut |m, _| {
        let ids = m.pending_ids();
        m.write_decision(&ids[0], false);
    });
    assert!(!approved, "a matching deny decision must deny");
    assert_eq!(looks, millis(&[0, 20]));
}

#[test]
fn ignores_decisions_for_other_ids_then_times_out() {
    let mut mailbox = Mailbox::new();
    mailbox.write_decision("some-other-id", true);
    let gate = gate(Duration::from_millis(120), Duration::from_millis(20));
    let (approved, looks) = request(&gate, "x", &no_params(), &mut mailbox, &mut |_, _| {});
    assert!(!approved, "an unrelated approve must not leak through");
    assert_eq!(looks, millis(&[0, 20, 40, 60, 80, 100, 120]));
}

#[test]
fn malformed_decision_lines_are_skipped() {
    let mut mailbox = Mailbox::new();
    let gate = gate(Duration::from_secs(5), Duration::from_millis(20));
    let (approved, _) = request(&gate, "x", &no_params(), &mut mailbox, &mut |m, _| {
        let ids = m.pending_ids();
        m.append("{not valid json");
        m.append("");
        m.write_decision(&ids[0], true);
    });
    assert!(approved, "a valid decision after malformed lines must still be honored");
}

#[test]
fn last_matching_decision_wins() {
    let mut mailbox = Mailbox::new();
    mailbox.write_decision("fixed-id", false);
    mailbox.write_decision("fixed-id", true);
    assert_eq!(scan_decision(mailbox.decisions.as_deref(), "fixed-id", parse), Some(true));
}

#[test]
fn default_approvals_dir_is_under_console() {
    let temp = PathBuf::from("/var/tmp");
    for home in [Some(PathBuf::from("/home/operator")), None] {
        let d = default_approvals_dir(home, temp.clone());
        assert!(d.ends_with("approvals"));
        assert!(d.to_string_lossy().contains("console") || d.starts_with(&temp));
    }
}

#[test]
fn default_approvals_dir_is_in_the_home_directory() {
    let d = default_approvals_dir(Some(PathBuf::from("/home/operator")), PathBuf::from("/tmp"));
    assert_eq!(d, Path::new("/home/operator/.kriya/console/approvals"));
    let without_home = default_approvals_dir(None, PathBuf::from("/tmp"));
    assert_eq!(without_home, Path::new("/tmp/approvals"));
}

#[test]
fn file_names_are_fixed() {
    assert_eq!(PENDING_FILE, "pending.jsonl");
    assert_eq!(DECISIONS_FILE, "decisions.jsonl");
    let gate = FileApproval::new(PathBuf::from("/mailbox"));
    assert_eq!(gate.dir(), Path::new("/mailbox"));
    assert_eq!(gate.pending_path(), Path::new("/mailbox/pending.jsonl"));
    assert_eq!(gate.decisions_path(), Path::new("/mailbox/decisions.jsonl"));
}

#[test]
fn defaults_are_300_s_and_500_ms() {
    let gate = FileApproval::with_default_dir(Some(PathBuf::from("/h")), PathBuf::from("/t"));
    assert_eq!(gate.dir(), Path::new("/h/.kriya/console/approvals"));
    assert_eq!(gate.timeout(), Duration::from_secs(300));
    assert_eq!(gate.poll(), Duration::from_millis(500));
    let quick = gate.with_timeout(Duration::from_millis(3), Duration::from_millis(2));
    assert_eq!(quick.dir(), Path::new("/h/.kriya/console/approvals"));
    assert_eq!(quick.timeout(), Duration::from_millis(3));
    assert_eq!(quick.poll(), Duration::from_millis(2));
}

#[test]
fn zero_timeout_denies_at_the_first_look() {
    let mut mailbox = Mailbox::new();
    let gate = gate(Duration::from_secs(0), Duration::from_millis(20));
    let (approved, looks) = request(&gate, "x", &no_params(), &mut mailbox, &mut |_, _| {});
    assert!(!approved);
    assert_eq!(looks, millis(&[0]));
}

#[test]
fn two_requests_share_a_mailbox() {
    let mut mailbox = Mailbox::new();
    let gate = gate(Duration::from_secs(5), Duration::from_millis(20));
    let (first, _) = request(&gate, "a", &no_params(), &mut mailbox, &mut |m, _| {
        let ids = m.pending_ids();
        m.write_decision(&ids[0], true);
    });
    assert!(first);
    let (second, _) = request(&gate, "b", &no_params(), &mut mailbox, &mut |m, _| {
        let ids = m.pending_ids();
        assert_eq!(ids.len(), 2);
        assert_ne!(ids[0], ids[1]);
        m.write_decision(&ids[1], false);
    });
    assert!(!second, "the approval of another request must not count");
}

#[test]
fn a_correction_that_denies_takes_the_approval_back() {
    let mut mailbox = Mailbox::new();
    mailbox.write_decision("fixed-id", true);
    mailbox.write_decision("other", true);
    mailbox.write_decision("fixed-id", false);
    mailbox.append("   ");
    mailbox.append("[1, 2]");
    assert_eq!(scan_decision(mailbox.decisions.as_deref(), "fixed-id", parse), Some(false));
    assert_eq!(scan_decision(mailbox.decisions.as_deref(), "other", parse), Some(true));
    assert_eq!(scan_decision(mailbox.decisions.as_deref(), "third", parse), None);
}

#[test]
fn absent_and_empty_files_hold_no_answer() {
    assert_eq!(scan_decision(None, "id", parse), None);
    assert_eq!(scan_decision(Some(b""), "id", parse), None);
    assert_eq!(scan_decision(Some(b"\n \r\n\n"), "id", parse), None);
}

#[test]
fn decision_lines_may_have_white_space_and_no_last_line_ending() {
    let text = "\r\n  {\"id\":\"a\",\"approved\":true}\t\r\n\u{a0}{\"id\":\"a\",\"approved\":false}";
    assert_eq!(scan_decision(Some(text.as_bytes()), "a", parse), Some(false));
}

#[test]
fn lines_that_are_not_utf8_are_skipped() {
    let bytes = b"\xff\xfe\n{\"id\":\"a\",\"approved\":true}\n";
    assert_eq!(scan_decision(Some(bytes), "a", parse), Some(true));
    let cut = b"{\"id\":\"a\",\"approved\":true}\n{\"id\":\"a\xc3\",\"approved\":false}\n\xe2\x82";
    assert_eq!(scan_decision(Some(cut), "a", parse), Some(true));

    let mut mailbox = Mailbox::new();
    mailbox.append_bytes(b"\xff\xfe");
    let gate = gate(Duration::from_secs(5), Duration::from_millis(20));
    let (approved, looks) = request(&gate, "x", &no_params(), &mut mailbox, &mut |m, _| {
        let ids = m.pending_ids();
        m.write_decision(&ids[0], true);
    });
    assert!(approved);
    assert_eq!(looks, millis(&[0, 20]));
}

#[test]
fn each_of_two_waiting_requests_gets_its_own_decision() {
    let (a, b) = (pending("a", &no_params()), pending("b", &no_params()));
    assert_ne!(a.id, b.id);
    for (first, second) in [((&a.id, true), (&b.id, false)), ((&b.id, false), (&a.id, true))] {
        let mut mailbox = Mailbox::new();
        mailbox.write_decision(first.0, first.1);
        mailbox.write_decision(second.0, second.1);
        assert_eq!(scan_decision(mailbox.decisions.as_deref(), &a.id, parse), Some(true));
        assert_eq!(scan_decision(mailbox.decisions.as_deref(), &b.id, parse), Some(false));
    }
}

#[test]
fn a_decision_after_the_timeout_does_not_count() {
    let mut mailbox = Mailbox::new();
    let gate = gate(Duration::from_millis(100), Duration::from_secs(1));
    let (approved, looks) = request(&gate, "x", &no_params(), &mut mailbox, &mut |m, now| {
        if now.at_least(&Duration::from_millis(500)) {
            let ids = m.pending_ids();
            m.write_decision(&ids[0], true);
        }
    });
    assert!(!approved, "a decision written 500 ms after the posting comes too late");
    assert_eq!(looks, millis(&[0, 100]));
}

#[test]
fn a_decision_within_the_timeout_is_found_at_the_deadline() {
    let mut mailbox = Mailbox::new();
    let gate = gate(Duration::from_millis(100), Duration::from_millis(70));
    let (approved, looks) = request(&gate, "x", &no_params(), &mut mailbox, &mut |m, now| {
        if now.at_least(&Duration::from_millis(90)) {
            let ids = m.pending_ids();
            m.write_decision(&ids[0], true);
        }
    });
    assert!(approved, "a decision written within the timeout must still be found");
    assert_eq!(looks, millis(&[0, 70, 100]));
}

#[test]
fn a_look_that_lasts_until_the_deadline_is_the_last() {
    let gate = gate(Duration::from_millis(100), Duration::from_millis(20));
    let request = pending("x", &no_params());
    let mut mailbox = Mailbox::new();
    let id = request.id.clone();
    let phase = gate.step(gate.begin(), Event::DirectoryReady { pending: request });
    let phase = gate.step(phase, Event::Posted { now: start() });
    // The answers are read before the deadline, and the clock after it.
    let now = start().plus(&Duration::from_millis(101));
    let phase = gate.look(phase, mailbox.decisions.as_deref(), now, parse);
    assert!(matches!(gate.action(&phase), Action::Finish { approved: false }));
    mailbox.write_decision(&id, true);
    let late = start().plus(&Duration::from_millis(104));
    let phase = gate.look(phase, mailbox.decisions.as_deref(), late, parse);
    assert!(matches!(gate.action(&phase), Action::Finish { approved: false }));
}

#[test]
fn a_pause_begins_when_the_look_has_ended() {
    let gate = gate(Duration::from_millis(100), Duration::from_millis(20));
    let phase = gate.step(
        gate.begin(),
        Event::DirectoryReady { pending: pending("x", &no_params()) },
    );
    let phase = gate.step(phase, Event::Posted { now: start() });
    let ended = start().plus(&Duration::from_millis(30));
    let phase = gate.look(phase, None, ended, parse);
    match gate.action(&phase) {
        Action::SleepUntil { moment } => {
            assert_eq!(moment, start().plus(&Duration::from_millis(50)));
        }
        _ => panic!("a request without an answer pauses"),
    }
}

#[test]
fn other_lines_do_not_count_wherever_they_stand() {
    let decision = b"{\"id\":\"a\",\"approved\":true}\n";
    let others: [&[u8]; 4] =
        [b"\n", b"{not json\n", b"\xff\n", b"{\"id\":\"b\",\"approved\":false}\n"];
    for other in others {
        let in_front = [other, &decision[..]].concat();
        let behind = [&decision[..], other].concat();
        let between = [&decision[..], other, &decision[..]].concat();
        for bytes in [in_front, behind, between] {
            assert_eq!(scan_decision(Some(&bytes), "a", parse), Some(true));
        }
    }
}

#[test]
fn the_first_look_counts_even_with_no_time_to_wait() {
    let gate = gate(Duration::from_secs(0), Duration::from_secs(1));
    let request = pending("x", &no_params());
    let mut mailbox = Mailbox::new();
    mailbox.write_decision(&request.id, true);
    let phase = gate.step(gate.begin(), Event::DirectoryReady { pending: request });
    let phase = gate.step(phase, Event::Posted { now: start() });
    let phase = gate.look(phase, mailbox.decisions.as_deref(), start(), parse);
    assert!(matches!(phase, Phase::Decided { approved: true }));
}

#[test]
fn the_line_to_append_is_that_of_the_request() {
    let gate = gate(Duration::from_secs(5), Duration::from_millis(20));
    let request = pending("x", &params("cmd", "a\nb"));
    let expected = request.to_line().unwrap();
    let phase = gate.step(gate.begin(), Event::DirectoryReady { pending: request });
    match gate.action(&phase) {
        Action::AppendRequest { line } => assert_eq!(line, expected),
        _ => panic!("a request is to be appended"),
    }
}

#[test]
fn only_a_waiting_request_looks_for_its_answer() {
    let gate = gate(Duration::from_secs(5), Duration::from_millis(20));
    let request = pending("x", &no_params());
    let mut mailbox = Mailbox::new();
    mailbox.write_decision(&request.id, true);
    let phase = Phase::Posting { pending: request };
    let phase = gate.look(phase, mailbox.decisions.as_deref(), start(), parse);
    assert!(matches!(phase, Phase::Decided { approved: false }));
}

#[test]
fn every_failure_denies() {
    let gate = gate(Duration::from_secs(5), Duration::from_millis(20));
    let deadline = Duration::from_secs(9);
    let phases = [
        Phase::Preparing,
        Phase::Posting { pending: pending("x", &no_params()) },
        Phase::Polling { pending: pending("x", &no_params()), deadline },
        Phase::Sleeping { pending: pending("x", &no_params()), deadline, since: start() },
    ];
    for phase in phases {
        let next = gate.step(phase, Event::Failed);
        assert!(matches!(gate.action(&next), Action::Finish { approved: false }));
    }
}

#[test]
fn events_out_of_turn_deny() {
    let gate = gate(Duration::from_secs(5), Duration::from_millis(20));
    let now = Duration::from_secs(1);
    let next = gate.step(Phase::Preparing, Event::Polled { answer: Some(true), now });
    assert!(matches!(next, Phase::Decided { approved: false }));
    let next = gate.step(Phase::Posting { pending: pending("x", &no_params()) }, Event::Woke);
    assert!(matches!(next, Phase::Decided { approved: false }));
    let next = gate.step(
        Phase::Sleeping { pending: pending("x", &no_params()), deadline: now, since: start() },
        Event::Polled { answer: Some(true), now },
    );
    assert!(matches!(next, Phase::Decided { approved: false }));
}

#[test]
fn decisions_are_final() {
    let gate = gate(Duration::from_secs(5), Duration::from_millis(20));
    let now = Duration::from_secs(1);
    let next = gate.step(
        Phase::Decided { approved: false },
        Event::Polled { answer: Some(true), now },
    );
    assert!(matches!(next, Phase::Decided { approved: false }));
    let next = gate.step(Phase::Decided { approved: true }, Event::Failed);
    assert!(matches!(next, Phase::Decided { approved: true }));
}

#[test]
fn deadline_stands_the_timeout_after_the_posting() {
    let gate = gate(Duration::from_secs(5), Duration::from_millis(20));
    let request = pending("x", &no_params());
    let id = request.id.clone();
    let phase = gate.step(
        Phase::Posting { pending: request },
        Event::Posted { now: Duration::from_secs(2) },
    );
    match phase {
        Phase::Polling { pending, deadline } => {
            assert_eq!(pending.id, id);
            assert_eq!(deadline, Duration::from_secs(7));
        }
        _ => panic!("a posted request is to be polled"),
    }
}

#[test]
fn a_look_without_answer_denies_from_the_deadline_on() {
    let gate = gate(Duration::from_secs(5), Duration::from_millis(20));
    let deadline = Duration::from_secs(7);
    for now in [deadline, Duration::from_secs(8)] {
        let next = gate.step(
            Phase::Polling { pending: pending("x", &no_params()), deadline },
            Event::Polled { answer: None, now },
        );
        assert!(matches!(next, Phase::Decided { approved: false }));
    }
    let early = Duration::from_parts(6, 999_999_999);
    let next = gate.step(
        Phase::Polling { pending: pending("x", &no_params()), deadline },
        Event::Polled { answer: None, now: early },
    );
    match gate.action(&next) {
        Action::SleepUntil { moment } => assert_eq!(moment, deadline),
        _ => panic!("a request waits until its deadline"),
    }
}

#[test]
fn pauses_end_after_the_poll_interval_or_at_the_deadline() {
    let gate = gate(Duration::from_secs(5), Duration::from_secs(2));
    let deadline = Duration::from_secs(10);
    for (since, due) in [(3, 5), (8, 10), (9, 10)] {
        let phase = Phase::Sleeping {
            pending: pending("x", &no_params()),
            deadline,
            since: Duration::from_secs(since),
        };
        match gate.action(&phase) {
            Action::SleepUntil { moment } => assert_eq!(moment, Duration::from_secs(due)),
            _ => panic!("a sleeping request pauses"),
        }
    }
}
