//! JSON documents: reading, writing, and the lines that carry them.

use stryke_app::exports::{input, output, End};
use stryke_app::frame;
use stryke_app::json::Json;

fn again(text: &str) -> String {
    output(End::Returned(Ok(input(Some(text.as_bytes())))))
}

#[test]
fn documents_are_written_compactly_with_sorted_keys() {
    assert_eq!(again(" { \"b\" : [ 1 , true , null ] , \"a\" : \"x\" } "), r#"{"a":"x","b":[1,true,null]}"#);
    assert_eq!(again("[]"), "[]");
    assert_eq!(again("{}"), "{}");
    assert_eq!(again("\"\""), "\"\"");
}

#[test]
fn numbers_keep_their_kind() {
    assert!(matches!(input(Some(b"0")), Json::Unsigned(0)));
    assert!(matches!(input(Some(b"18446744073709551615")), Json::Unsigned(u64::MAX)));
    assert!(matches!(input(Some(b"-1")), Json::Negative(-1)));
    assert!(matches!(input(Some(b"-9223372036854775808")), Json::Negative(i64::MIN)));
    assert!(matches!(input(Some(b"1.5")), Json::Float(_)));
    assert!(matches!(input(Some(b"18446744073709551616")), Json::Float(_)));
    assert!(matches!(input(Some(b"-0")), Json::Float(_)));
    assert_eq!(again("18446744073709551615"), "18446744073709551615");
    assert_eq!(again("-9223372036854775808"), "-9223372036854775808");
    assert_eq!(again("1.5"), "1.5");
    assert_eq!(again("1.0"), "1.0");
    let float = input(Some(b"[2.25]"));
    assert_eq!(output(End::Returned(Ok(float.clone()))), "[2.25]");
}

#[test]
fn the_last_of_two_equal_keys_counts() {
    assert_eq!(again(r#"{"k":1,"k":2}"#), r#"{"k":2}"#);
    let twice = Json::object().with("k", Json::Unsigned(1)).with("k", Json::Unsigned(2));
    assert_eq!(twice.get_u64("k"), Some(2));
    assert!(matches!(&twice, Json::Object(entries) if entries.len() == 1));
    assert_eq!(output(End::Returned(Ok(twice.clone()))), r#"{"k":2}"#);
    assert_eq!(twice.with("k", Json::Null).get_u64("k"), None);
    let twice = Json::Object(vec![
        ("k".to_string(), Json::Unsigned(1)),
        ("j".to_string(), Json::Null),
        ("k".to_string(), Json::Unsigned(2)),
    ]);
    assert_eq!(twice.get_u64("k"), Some(2));
    assert_eq!(output(End::Returned(Ok(twice.clone()))), r#"{"j":null,"k":2}"#);
    let thrice = twice.with("k", Json::Unsigned(3));
    assert_eq!(thrice.get_u64("k"), Some(3));
    assert_eq!(output(End::Returned(Ok(thrice))), r#"{"j":null,"k":3}"#);
}

#[test]
fn what_is_no_document_is_read_as_null() {
    assert!(matches!(input(None), Json::Null));
    for text in ["", "{", "[1,]", "nul", "\"a", "1 2", "{'a':1}"] {
        assert!(matches!(input(Some(text.as_bytes())), Json::Null), "{text}");
    }
    assert!(matches!(input(Some(b"\"\xff\"")), Json::Null));
    assert!(matches!(input(Some(b" true ")), Json::Bool(true)));
}

#[test]
fn nesting_is_read_up_to_a_limit() {
    let nested = |n: usize| format!("{}{}", "[".repeat(n), "]".repeat(n));
    assert_eq!(again(&nested(127)), nested(127));
    assert!(matches!(input(Some(nested(128).as_bytes())), Json::Null));
}

#[test]
fn control_characters_are_escaped() {
    let text = Json::text("a\n\"\\\u{0}\u{1f}\u{7f}é\u{2028}");
    let written = output(End::Returned(Ok(text)));
    assert_eq!(written, "\"a\\n\\\"\\\\\\u0000\\u001f\u{7f}é\u{2028}\"");
    assert!(!written.contains('\0'));
    assert_eq!(again(&written), written);
}

#[test]
fn fields_are_found_by_key_and_kind() {
    let doc = input(Some(br#"{"s":"x","n":3,"m":-3,"b":true,"z":null,"a":[1,2]}"#));
    assert_eq!(doc.get_str("s"), Some("x"));
    assert_eq!(doc.get_str("n"), None);
    assert_eq!(doc.get_u64("n"), Some(3));
    assert_eq!(doc.get_u64("m"), None);
    assert_eq!(doc.get_bool("b"), Some(true));
    assert_eq!(doc.get_bool("z"), None);
    assert!(matches!(doc.get("z"), Some(Json::Null)));
    assert!(doc.get("missing").is_none());
    assert_eq!(doc.get("a").unwrap().as_array().unwrap().len(), 2);
    assert!(doc.as_array().is_none());
    assert!(Json::Null.get("a").is_none());
    assert!(input(Some(b"[1]")).get("0").is_none());
}

#[test]
fn a_frame_is_one_line_and_reads_back() {
    let args = Json::object().with("text", Json::text("one\ntwo\r\n")).with("k\n", Json::Null);
    let request = frame::call_frame("say", args).with("id", Json::Unsigned(1));
    let line = frame::frame_line(&request).unwrap();
    assert_eq!(
        line,
        "{\"args\":{\"k\\n\":null,\"text\":\"one\\ntwo\\r\\n\"},\"id\":1,\"t\":\"call\",\"verb\":\"say\"}\n"
    );
    assert_eq!(line.matches('\n').count(), 1);
    let back = frame::read_frame(&line).unwrap();
    assert_eq!(frame::frame_line(&back).unwrap(), line);
}

#[test]
fn lines_are_trimmed_before_they_are_read() {
    let read = |line: &str| frame::read_frame(line).map(|doc| output(End::Returned(Ok(doc))));
    assert_eq!(read("\u{a0}\u{3000} {\"a\":1}\u{2028}\r\n"), Ok("{\"a\":1}".to_string()));
    assert_eq!(read("7"), Ok("7".to_string()));
    assert_eq!(
        read(" \n"),
        Err("EOF while parsing a value at line 1 column 0".to_string())
    );
    assert_eq!(
        read("{\"a\" 1}"),
        Err("expected `:` at line 1 column 6".to_string())
    );
}

#[test]
fn replies_are_matched_by_id_and_events_by_kind() {
    let doc = |text: &str| input(Some(text.as_bytes()));
    assert!(frame::replies_to(&doc(r#"{"t":"reply","id":3}"#), 3));
    assert!(!frame::replies_to(&doc(r#"{"t":"reply","id":3}"#), 4));
    assert!(!frame::replies_to(&doc(r#"{"t":"reply","id":"3"}"#), 3));
    assert!(!frame::replies_to(&doc(r#"{"t":"event","id":3}"#), 3));
    assert!(!frame::replies_to(&doc(r#"{"id":3}"#), 3));
    assert!(frame::tells_event(&doc(r#"{"t":"event"}"#)));
    assert!(!frame::tells_event(&doc(r#"{"t":"reply"}"#)));
    assert!(!frame::tells_event(&doc(r#"["event"]"#)));
}
