use taskchat::json::{find_member, read_flag_member, read_text_member};
use taskchat::record::{decode_line, decode_lines, record_from_members, Mode, ResponseRecord};

fn generation(text: &str, is_final: bool) -> ResponseRecord {
    ResponseRecord::Generation { text: text.to_string(), is_final }
}

fn chat(role: Option<&str>, content: &str, is_final: bool) -> ResponseRecord {
    ResponseRecord::Chat {
        role: role.map(|r| r.to_string()),
        content: content.to_string(),
        is_final,
    }
}

fn members(pairs: &[(&str, &str)]) -> Vec<(String, String)> {
    pairs.iter().map(|(k, v)| (k.to_string(), v.to_string())).collect()
}

#[test]
fn generation_line_decodes() {
    assert_eq!(
        decode_line(Mode::OneShot, r#"{"response":"Hi","done":false}"#),
        Some(generation("Hi", false))
    );
    assert_eq!(
        decode_line(Mode::OneShot, r#"{"done":true,"response":""}"#),
        Some(generation("", true))
    );
}

#[test]
fn chat_line_decodes() {
    assert_eq!(
        decode_line(
            Mode::Chat,
            r#"{"message":{"role":"assistant","content":"Hel"},"done":false}"#
        ),
        Some(chat(Some("assistant"), "Hel", false))
    );
}

#[test]
fn chat_line_without_role_decodes() {
    assert_eq!(
        decode_line(Mode::Chat, r#"{"message":{"content":"lo"},"done":false}"#),
        Some(chat(None, "lo", false))
    );
}

#[test]
fn unknown_members_are_ignored() {
    assert_eq!(
        decode_line(
            Mode::OneShot,
            r#"{"model":"llama3.2","created_at":"now","response":"x","done":true,"context":[1,2]}"#
        ),
        Some(generation("x", true))
    );
    assert_eq!(
        decode_line(
            Mode::Chat,
            r#"{"model":"m","message":{"role":"assistant","content":"x","images":null},"done":true,"total_duration":5}"#
        ),
        Some(chat(Some("assistant"), "x", true))
    );
}

#[test]
fn escapes_are_resolved() {
    assert_eq!(
        decode_line(Mode::OneShot, r#"{"response":"a\nb\t\"c\" é","done":false}"#),
        Some(generation("a\nb\t\"c\" é", false))
    );
}

#[test]
fn surrounding_whitespace_is_accepted() {
    assert_eq!(
        decode_line(Mode::OneShot, "  { \"response\" : \"x\" , \"done\" : false }  "),
        Some(generation("x", false))
    );
}

#[test]
fn malformed_json_gives_nothing() {
    for line in [
        "",
        "not json",
        "{",
        r#"{"response":"x","done":false"#,
        r#"{"response":"x","done":false}}"#,
        r#"{"response":"x","done":false} trailing"#,
        r#"{'response':'x','done':false}"#,
    ] {
        assert_eq!(decode_line(Mode::OneShot, line), None, "line {:?}", line);
        assert_eq!(decode_line(Mode::Chat, line), None, "line {:?}", line);
    }
}

#[test]
fn missing_fields_give_nothing() {
    assert_eq!(decode_line(Mode::OneShot, r#"{"response":"x"}"#), None);
    assert_eq!(decode_line(Mode::OneShot, r#"{"done":true}"#), None);
    assert_eq!(decode_line(Mode::OneShot, "{}"), None);
    assert_eq!(decode_line(Mode::Chat, r#"{"done":true}"#), None);
    assert_eq!(decode_line(Mode::Chat, r#"{"message":{"content":"x"}}"#), None);
    assert_eq!(decode_line(Mode::Chat, r#"{"message":{"role":"assistant"},"done":true}"#), None);
    assert_eq!(decode_line(Mode::Chat, r#"{"message":{},"done":true}"#), None);
}

#[test]
fn type_mismatches_give_nothing() {
    assert_eq!(decode_line(Mode::OneShot, r#"{"response":1,"done":false}"#), None);
    assert_eq!(decode_line(Mode::OneShot, r#"{"response":null,"done":false}"#), None);
    assert_eq!(decode_line(Mode::OneShot, r#"{"response":"x","done":"false"}"#), None);
    assert_eq!(decode_line(Mode::OneShot, r#"{"response":"x","done":0}"#), None);
    assert_eq!(decode_line(Mode::OneShot, r#"{"response":"x","done":null}"#), None);
    assert_eq!(decode_line(Mode::Chat, r#"{"message":"x","done":false}"#), None);
    assert_eq!(decode_line(Mode::Chat, r#"{"message":["x"],"done":false}"#), None);
    assert_eq!(decode_line(Mode::Chat, r#"{"message":{"content":7},"done":false}"#), None);
    assert_eq!(
        decode_line(Mode::Chat, r#"{"message":{"role":3,"content":"x"},"done":false}"#),
        None
    );
}

#[test]
fn values_that_are_not_objects_give_nothing() {
    for line in ["[]", r#"["x",true]"#, "true", "null", "42", r#""text""#] {
        assert_eq!(decode_line(Mode::OneShot, line), None, "line {:?}", line);
        assert_eq!(decode_line(Mode::Chat, line), None, "line {:?}", line);
    }
}

#[test]
fn the_shape_of_the_other_mode_gives_nothing() {
    assert_eq!(
        decode_line(Mode::Chat, r#"{"response":"x","done":false}"#),
        None
    );
    assert_eq!(
        decode_line(Mode::OneShot, r#"{"message":{"content":"x"},"done":false}"#),
        None
    );
}

#[test]
fn record_fields_are_readable() {
    let g = generation("abc", true);
    assert_eq!(g.fragment(), "abc");
    assert!(g.is_final());
    let c = chat(None, "xyz", false);
    assert_eq!(c.fragment(), "xyz");
    assert!(!c.is_final());
}

#[test]
fn records_are_built_from_fields_as_read() {
    assert_eq!(
        ResponseRecord::generation(Some("a".to_string()), Some(true)),
        Some(generation("a", true))
    );
    assert_eq!(ResponseRecord::generation(None, Some(true)), None);
    assert_eq!(ResponseRecord::generation(Some("a".to_string()), None), None);
    assert_eq!(
        ResponseRecord::chat(Some(None), Some("a".to_string()), Some(false)),
        Some(chat(None, "a", false))
    );
    assert_eq!(
        ResponseRecord::chat(Some(Some("assistant".to_string())), Some("a".to_string()), Some(true)),
        Some(chat(Some("assistant"), "a", true))
    );
    assert_eq!(ResponseRecord::chat(None, Some("a".to_string()), Some(true)), None);
    assert_eq!(ResponseRecord::chat(Some(None), None, Some(true)), None);
    assert_eq!(ResponseRecord::chat(Some(None), Some("a".to_string()), None), None);
}

#[test]
fn members_are_found_by_key() {
    let ms = members(&[("done", "true"), ("response", "\"x\""), ("done", "false")]);
    assert_eq!(find_member(&ms, "done"), Some(&"true".to_string()));
    assert_eq!(find_member(&ms, "response"), Some(&"\"x\"".to_string()));
    assert_eq!(find_member(&ms, "missing"), None);
    assert_eq!(find_member(&Vec::new(), "done"), None);
}

#[test]
fn members_are_read_by_type() {
    let ms = members(&[("done", "true"), ("response", "\"x\\ny\""), ("n", "1")]);
    assert_eq!(read_flag_member(&ms, "done"), Some(true));
    assert_eq!(read_flag_member(&ms, "response"), None);
    assert_eq!(read_flag_member(&ms, "missing"), None);
    assert_eq!(read_text_member(&ms, "response"), Some("x\ny".to_string()));
    assert_eq!(read_text_member(&ms, "done"), None);
    assert_eq!(read_text_member(&ms, "n"), None);
}

#[test]
fn flags_are_the_two_literals_between_json_whitespace() {
    for (raw, expected) in [
        ("true", Some(true)),
        ("false", Some(false)),
        (" true", Some(true)),
        ("false \n", Some(false)),
        ("\t\r\n true \t", Some(true)),
        ("", None),
        ("True", None),
        ("TRUE", None),
        ("tru", None),
        ("truee", None),
        ("true false", None),
        ("\"true\"", None),
        ("1", None),
        ("0", None),
        ("null", None),
        ("\u{a0}true", None),
    ] {
        let ms = members(&[("done", raw)]);
        assert_eq!(read_flag_member(&ms, "done"), expected, "raw {:?}", raw);
    }
}

#[test]
fn record_is_read_from_members() {
    let ms = members(&[("done", "false"), ("response", "\"Hi\"")]);
    assert_eq!(record_from_members(Mode::OneShot, &ms), Some(generation("Hi", false)));
    assert_eq!(record_from_members(Mode::Chat, &ms), None);
    let ms = members(&[("done", "true"), ("message", r#"{"role":"assistant","content":"ok"}"#)]);
    assert_eq!(
        record_from_members(Mode::Chat, &ms),
        Some(chat(Some("assistant"), "ok", true))
    );
}

#[test]
fn blank_and_malformed_lines_are_skipped() {
    let lines = vec![
        r#"{"response":"a","done":false}"#.to_string(),
        "".to_string(),
        "   ".to_string(),
        "garbage".to_string(),
        r#"{"response":"b","done":true}"#.to_string(),
    ];
    assert_eq!(
        decode_lines(Mode::OneShot, &lines),
        vec![generation("a", false), generation("b", true)]
    );
    assert_eq!(decode_lines(Mode::OneShot, &Vec::new()), Vec::new());
}
