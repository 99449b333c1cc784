use event_tracker::decimal::parse_u64_dec;
use event_tracker::record::{decode_record, encode_record, EventKind, Record};
use event_tracker::rowcodec::{decode_row, encode_field, encode_row};
use event_tracker::sink::{header_line, init_header};
use event_tracker::u64_to_dec;

fn rec(
    timestamp: u64,
    kind: EventKind,
    key: &str,
    button: &str,
    x: &str,
    y: &str,
) -> Record {
    Record {
        timestamp,
        kind,
        key: key.to_string(),
        button: button.to_string(),
        x: x.to_string(),
        y: y.to_string(),
    }
}

#[test]
fn decimal_renders_and_parses_back() {
    assert_eq!(u64_to_dec(0), "0");
    assert_eq!(u64_to_dec(7), "7");
    assert_eq!(u64_to_dec(100), "100");
    assert_eq!(u64_to_dec(18446744073709551615), "18446744073709551615");
    assert_eq!(parse_u64_dec("0"), Some(0));
    assert_eq!(parse_u64_dec("100"), Some(100));
    assert_eq!(parse_u64_dec("18446744073709551615"), Some(18446744073709551615));
    assert_eq!(parse_u64_dec(""), None);
    assert_eq!(parse_u64_dec("12a"), None);
    assert_eq!(parse_u64_dec("99999999999999999999999"), None);
}

#[test]
fn plain_fields_pass_through() {
    assert_eq!(encode_field("hello"), "hello");
    assert_eq!(encode_field(""), "");
    assert_eq!(encode_field("KeyA"), "KeyA");
}

#[test]
fn special_fields_are_quoted() {
    assert_eq!(encode_field("a,b"), "\"a,b\"");
    assert_eq!(encode_field("say \"hi\""), "\"say \"\"hi\"\"\"");
    assert_eq!(encode_field("line\nbreak"), "\"line\nbreak\"");
    assert_eq!(encode_field("cr\rhere"), "\"cr\rhere\"");
}

#[test]
fn rows_join_fields_with_commas() {
    let fields = vec!["100".to_string(), "key_press".to_string(), "A".to_string(),
        String::new(), String::new(), String::new()];
    assert_eq!(encode_row(&fields), "100,key_press,A,,,");
}

#[test]
fn row_round_trip_plain() {
    let fields = vec!["a".to_string(), String::new(), "c".to_string()];
    let line = encode_row(&fields);
    assert_eq!(decode_row(&line), Some(fields));
}

#[test]
fn row_round_trip_quoted() {
    let fields = vec!["a,b".to_string(), "\"q\"".to_string(), "plain".to_string(),
        "multi\nline".to_string()];
    let line = encode_row(&fields);
    assert_eq!(line, "\"a,b\",\"\"\"q\"\"\",plain,\"multi\nline\"");
    assert_eq!(decode_row(&line), Some(fields));
}

#[test]
fn malformed_rows_are_rejected() {
    assert_eq!(decode_row("\"unterminated"), None);
    assert_eq!(decode_row("\"closed\"x,tail"), None);
}

#[test]
fn record_round_trip_key_press() {
    let r = rec(200, EventKind::KeyPress, "A", "", "", "");
    let line = encode_record(&r);
    assert_eq!(line, "200,key_press,A,,,");
    let d = decode_record(&line).expect("a row the sink wrote must decode");
    assert_eq!(d.timestamp, 200);
    assert_eq!(d.kind, EventKind::KeyPress);
    assert_eq!(d.key, "A");
    assert_eq!(d.button, "");
    assert_eq!(d.x, "");
    assert_eq!(d.y, "");
}

#[test]
fn record_round_trip_button_press() {
    let r = rec(150, EventKind::ButtonPress, "", "Left", "10", "20");
    let line = encode_record(&r);
    assert_eq!(line, "150,button_press,,Left,10,20");
    let d = decode_record(&line).expect("a row the sink wrote must decode");
    assert_eq!(d.timestamp, 150);
    assert_eq!(d.kind, EventKind::ButtonPress);
    assert_eq!(d.key, "");
    assert_eq!(d.button, "Left");
    assert_eq!(d.x, "10");
    assert_eq!(d.y, "20");
}

#[test]
fn record_round_trip_mouse_move() {
    let r = rec(100, EventKind::MouseMove, "", "", "10", "20");
    let line = encode_record(&r);
    assert_eq!(line, "100,mouse_move,,,10,20");
    let d = decode_record(&line).expect("a row the sink wrote must decode");
    assert_eq!(d.kind, EventKind::MouseMove);
    assert_eq!(d.x, "10");
    assert_eq!(d.y, "20");
}

#[test]
fn bad_records_are_rejected() {
    // Wrong column count.
    assert!(decode_record("100,key_press,A").is_none());
    // Unknown event type.
    assert!(decode_record("100,key_tap,A,,,").is_none());
    // Timestamp that is not a number.
    assert!(decode_record("abc,key_press,A,,,").is_none());
    // A key event must not carry coordinates.
    assert!(decode_record("100,key_press,A,,10,20").is_none());
    // A button event must not carry a key.
    assert!(decode_record("100,button_press,A,Left,10,20").is_none());
}

#[test]
fn header_is_fixed_and_written_once() {
    assert_eq!(header_line(), "timestamp,event_type,key,button,x,y");
    let first = init_header(false);
    assert_eq!(first, Some("timestamp,event_type,key,button,x,y".to_string()));
    // Against an existing log nothing is written again.
    assert_eq!(init_header(true), None);
}
