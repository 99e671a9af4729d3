use kriya::pending::epoch_millis;
use kriya::{Duration, PendingApproval};
use serde_json::Value;

fn object(key: &str, value: Value) -> Value {
    let mut map = serde_json::Map::new();
    map.insert(key.to_string(), value);
    Value::Object(map)
}

#[test]
fn line_is_the_published_format() {
    let pending = PendingApproval::with_id(
        "b1c2".to_string(),
        "agent__bash",
        &object("cmd", Value::from("deploy --prod")),
        Some(Duration::from_millis(1754870400000)),
        41234,
    );
    assert_eq!(
        pending.to_line().unwrap(),
        "{\"id\":\"b1c2\",\"action_id\":\"agent__bash\",\
         \"params\":{\"cmd\":\"deploy --prod\"},\
         \"requested_at_ms\":1754870400000,\"pid\":41234}\n"
    );
}

#[test]
fn line_stands_on_one_line_and_reads_back() {
    let action_id = "a\nb\r\n\"c\"\\d\u{1}\u{7f}\u{2028}\u{1f600}";
    let params = object("k\n", Value::from(vec!["x\ny", "\u{8}\u{c}\t"]));
    let pending = PendingApproval::new(action_id, &params, None, 0);
    let line = pending.to_line().unwrap();
    assert_eq!(line.matches('\n').count(), 1);
    assert!(line.ends_with("}\n"));
    let back: Value = serde_json::from_str(&line).unwrap();
    assert_eq!(back["id"], Value::from(pending.id.as_str()));
    assert_eq!(back["action_id"], Value::from(action_id));
    assert_eq!(back["params"], params);
    assert_eq!(back["requested_at_ms"], Value::from(0u64));
    assert_eq!(back["pid"], Value::from(0u32));
    assert_eq!(back.as_object().unwrap().len(), 5);
}

#[test]
fn every_character_is_quoted_as_specified() {
    for code in 0u32..0x3000 {
        let c = match char::from_u32(code) {
            Some(c) => c,
            None => continue,
        };
        let expected = match c {
            '"' => "\\\"".to_string(),
            '\\' => "\\\\".to_string(),
            '\u{8}' => "\\b".to_string(),
            '\t' => "\\t".to_string(),
            '\n' => "\\n".to_string(),
            '\u{c}' => "\\f".to_string(),
            '\r' => "\\r".to_string(),
            c if code < 0x20 => format!("\\u00{:02x}", c as u32),
            c => c.to_string(),
        };
        let pending = PendingApproval::with_id(c.to_string(), "", &Value::Null, None, 1);
        assert_eq!(
            pending.to_line().unwrap(),
            format!(
                "{{\"id\":\"{}\",\"action_id\":\"\",\"params\":null,\"requested_at_ms\":0,\"pid\":1}}\n",
                expected
            )
        );
    }
}

#[test]
fn ids_are_version_4_uuids() {
    let mut seen: Vec<String> = Vec::new();
    for _ in 0..64 {
        let id = PendingApproval::new("x", &Value::Null, None, 1).id;
        assert_eq!(id.len(), 36);
        for (i, c) in id.chars().enumerate() {
            match i {
                8 | 13 | 18 | 23 => assert_eq!(c, '-'),
                14 => assert_eq!(c, '4'),
                19 => assert!("89ab".contains(c)),
                _ => assert!(c.is_ascii_digit() || ('a'..='f').contains(&c)),
            }
        }
        assert!(!seen.contains(&id));
        seen.push(id);
    }
}

#[test]
fn request_keeps_what_it_was_made_of() {
    let params = object("n", Value::from(7u64));
    let pending =
        PendingApproval::new("act", &params, Some(Duration::from_parts(2, 3_999_999)), u32::MAX);
    assert_eq!(pending.action_id, "act");
    assert_eq!(pending.params, params);
    assert_eq!(pending.requested_at_ms, 2003);
    assert_eq!(pending.pid, u32::MAX);
    let copy = pending.clone();
    assert_eq!(copy.id, pending.id);
    assert_eq!(copy.params, pending.params);
}

#[test]
fn largest_numbers_are_written_in_full() {
    let pending = PendingApproval {
        id: String::new(),
        action_id: String::new(),
        params: Value::Bool(true),
        requested_at_ms: u64::MAX,
        pid: u32::MAX,
    };
    assert_eq!(
        pending.to_line().unwrap(),
        "{\"id\":\"\",\"action_id\":\"\",\"params\":true,\
         \"requested_at_ms\":18446744073709551615,\"pid\":4294967295}\n"
    );
}

#[test]
fn clock_before_the_epoch_counts_as_zero() {
    assert_eq!(epoch_millis(None), 0);
    assert_eq!(epoch_millis(Some(Duration::from_millis(u64::MAX))), u64::MAX);
    let longest = Duration::from_parts(u64::MAX, 999_999_999);
    let wrapped = (u64::MAX as u128 * 1000 + 999) as u64;
    assert_eq!(epoch_millis(Some(longest)), wrapped);
}
