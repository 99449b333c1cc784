//! The rows this library writes are exactly what the csv crate would write
//! for the same six fields.

use event_tracker::rowcodec::encode_row;

fn csv_line(fields: &[&str]) -> String {
    let mut writer = csv::WriterBuilder::new()
        .has_headers(false)
        .from_writer(Vec::new());
    writer.write_record(fields).unwrap();
    writer.flush().unwrap();
    let bytes = writer.into_inner().unwrap();
    String::from_utf8(bytes).unwrap()
}

fn ours(fields: &[&str]) -> String {
    let owned: Vec<String> = fields.iter().map(|f| f.to_string()).collect();
    // The csv crate terminates each record with a line break; the library
    // leaves the line break to the caller.
    format!("{}\n", encode_row(&owned))
}

#[test]
fn plain_record_matches_csv_crate() {
    let fields = ["100", "key_press", "A", "", "", ""];
    assert_eq!(ours(&fields), csv_line(&fields));
}

#[test]
fn record_with_delimiter_matches_csv_crate() {
    let fields = ["1", "button_press", "", "Left,ish", "10", "20"];
    assert_eq!(ours(&fields), csv_line(&fields));
}

#[test]
fn record_with_quotes_matches_csv_crate() {
    let fields = ["2", "key_press", "the \"A\" key", "", "", ""];
    assert_eq!(ours(&fields), csv_line(&fields));
}

#[test]
fn record_with_line_breaks_matches_csv_crate() {
    let fields = ["3", "key_press", "multi\nline", "with\rreturn", "", ""];
    assert_eq!(ours(&fields), csv_line(&fields));
}

#[test]
fn fractional_coordinates_match_csv_crate() {
    let fields = ["4", "mouse_move", "", "", "10.5", "-3.25"];
    assert_eq!(ours(&fields), csv_line(&fields));
}
