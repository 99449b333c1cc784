//! The normalized shape of one captured input event, and its six-column
//! encoding.
//!
//! Exactly the fields that belong to an event's kind are populated; every
//! other field is empty, and the row written for the record always has the
//! same six columns: timestamp, event type, key, button, x, y.

use vstd::prelude::*;
use vstd::string::StringExecFns;
use crate::decimal::{dec_spec, u64_to_dec, parse_u64_dec};
use crate::rowcodec::{enc_row, parse_fields_at, encode_row, decode_row, lemma_row_round_trip};

verus! {

#[derive(Clone, Copy, PartialEq, Eq, Structural, Debug)]
pub enum EventKind {
    KeyPress,
    KeyRelease,
    MouseMove,
    ButtonPress,
    ButtonRelease,
}

/// The exact text each kind carries in the second column.
pub open spec fn kind_label(k: EventKind) -> Seq<char> {
    match k {
        EventKind::KeyPress => "key_press"@,
        EventKind::KeyRelease => "key_release"@,
        EventKind::MouseMove => "mouse_move"@,
        EventKind::ButtonPress => "button_press"@,
        EventKind::ButtonRelease => "button_release"@,
    }
}

pub fn kind_label_str(k: &EventKind) -> (s: String)
    ensures
        s@ == kind_label(*k),
{
    match k {
        EventKind::KeyPress => String::from_str("key_press"),
        EventKind::KeyRelease => String::from_str("key_release"),
        EventKind::MouseMove => String::from_str("mouse_move"),
        EventKind::ButtonPress => String::from_str("button_press"),
        EventKind::ButtonRelease => String::from_str("button_release"),
    }
}

/// No two kinds share a label.
pub proof fn lemma_kind_label_injective(a: EventKind, b: EventKind)
    requires
        kind_label(a) == kind_label(b),
    ensures
        a == b,
{
    reveal_strlit("key_press");
    reveal_strlit("key_release");
    reveal_strlit("mouse_move");
    reveal_strlit("button_press");
    reveal_strlit("button_release");
    // The five labels all have different lengths.
    assert(kind_label(EventKind::KeyPress).len() == 9);
    assert(kind_label(EventKind::KeyRelease).len() == 11);
    assert(kind_label(EventKind::MouseMove).len() == 10);
    assert(kind_label(EventKind::ButtonPress).len() == 12);
    assert(kind_label(EventKind::ButtonRelease).len() == 14);
    match a {
        EventKind::KeyPress => {},
        EventKind::KeyRelease => {},
        EventKind::MouseMove => {},
        EventKind::ButtonPress => {},
        EventKind::ButtonRelease => {},
    }
    match b {
        EventKind::KeyPress => {},
        EventKind::KeyRelease => {},
        EventKind::MouseMove => {},
        EventKind::ButtonPress => {},
        EventKind::ButtonRelease => {},
    }
}

pub struct Record {
    pub timestamp: u64,
    pub kind: EventKind,
    pub key: String,
    pub button: String,
    pub x: String,
    pub y: String,
}

/// The mathematical shape of a record.
pub ghost struct RecordModel {
    pub timestamp: u64,
    pub kind: EventKind,
    pub key: Seq<char>,
    pub button: Seq<char>,
    pub x: Seq<char>,
    pub y: Seq<char>,
}

impl View for Record {
    type V = RecordModel;

    open spec fn view(&self) -> RecordModel {
        RecordModel {
            timestamp: self.timestamp,
            kind: self.kind,
            key: self.key@,
            button: self.button@,
            x: self.x@,
            y: self.y@,
        }
    }
}

/// Exactly the fields that belong to the kind are populated; the others are
/// empty.
pub open spec fn wf_record(m: RecordModel) -> bool {
    match m.kind {
        EventKind::KeyPress => m.button == Seq::<char>::empty() && m.x == Seq::<char>::empty()
            && m.y == Seq::<char>::empty(),
        EventKind::KeyRelease => m.button == Seq::<char>::empty() && m.x == Seq::<char>::empty()
            && m.y == Seq::<char>::empty(),
        EventKind::MouseMove => m.key == Seq::<char>::empty() && m.button == Seq::<char>::empty(),
        EventKind::ButtonPress => m.key == Seq::<char>::empty(),
        EventKind::ButtonRelease => m.key == Seq::<char>::empty(),
    }
}

/// The six columns of a record, in order: timestamp, event type, key,
/// button, x, y.
pub open spec fn record_fields(m: RecordModel) -> Seq<Seq<char>> {
    seq![
        dec_spec(m.timestamp as nat),
        kind_label(m.kind),
        m.key,
        m.button,
        m.x,
        m.y,
    ]
}

/// The full row the record is written as.
pub open spec fn encode_record_spec(m: RecordModel) -> Seq<char> {
    enc_row(record_fields(m))
}

/// The six columns of a record as they are written, timestamp first.
pub fn record_to_fields(r: &Record) -> (v: Vec<String>)
    ensures
        v.deep_view() == record_fields(r@),
{
    let mut v: Vec<String> = Vec::new();
    v.push(u64_to_dec(r.timestamp));
    v.push(kind_label_str(&r.kind));
    v.push(r.key.clone());
    v.push(r.button.clone());
    v.push(r.x.clone());
    v.push(r.y.clone());
    proof {
        assert(v.deep_view() =~= record_fields(r@));
    }
    v
}

/// One line of the log for this record.
pub fn encode_record(r: &Record) -> (line: String)
    ensures
        line@ == encode_record_spec(r@),
{
    let fields = record_to_fields(r);
    encode_row(&fields)
}

fn kind_of_label(s: &String) -> (k: Option<EventKind>)
    ensures
        k matches Some(kk) ==> s@ == kind_label(kk),
        k is None ==> (s@ != kind_label(EventKind::KeyPress) && s@ != kind_label(
            EventKind::KeyRelease,
        ) && s@ != kind_label(EventKind::MouseMove) && s@ != kind_label(EventKind::ButtonPress)
            && s@ != kind_label(EventKind::ButtonRelease)),
{
    if s.eq(&String::from_str("key_press")) {
        Some(EventKind::KeyPress)
    } else if s.eq(&String::from_str("key_release")) {
        Some(EventKind::KeyRelease)
    } else if s.eq(&String::from_str("mouse_move")) {
        Some(EventKind::MouseMove)
    } else if s.eq(&String::from_str("button_press")) {
        Some(EventKind::ButtonPress)
    } else if s.eq(&String::from_str("button_release")) {
        Some(EventKind::ButtonRelease)
    } else {
        None
    }
}

/// Reads one line of the log back into a record: on any line that a
/// well-formed record was written as, exactly that record comes back.
pub fn decode_record(line: &str) -> (r: Option<Record>)
    ensures
        forall|m: RecordModel|
            wf_record(m) && line@ == encode_record_spec(m) ==> (r matches Some(d) && d@ == m),
{
    let fields_opt = decode_row(line);
    let fields = match fields_opt {
        None => {
            proof {
                assert forall|m: RecordModel|
                    wf_record(m) && line@ == encode_record_spec(m) implies false by {
                    lemma_row_round_trip(record_fields(m));
                }
            }
            return None;
        },
        Some(v) => v,
    };
    proof {
        assert forall|m: RecordModel|
            wf_record(m) && line@ == encode_record_spec(m) implies fields.deep_view()
            == record_fields(m) by {
            lemma_row_round_trip(record_fields(m));
        }
    }
    if fields.len() != 6 {
        return None;
    }
    let ts = match parse_u64_dec(fields[0].as_str()) {
        None => {
            proof {
                assert forall|m: RecordModel|
                    wf_record(m) && line@ == encode_record_spec(m) implies false by {
                    lemma_row_round_trip(record_fields(m));
                    assert(fields.deep_view()[0] == dec_spec(m.timestamp as nat));
                }
            }
            return None;
        },
        Some(t) => t,
    };
    let kind = match kind_of_label(&fields[1]) {
        None => {
            proof {
                assert forall|m: RecordModel|
                    wf_record(m) && line@ == encode_record_spec(m) implies false by {
                    lemma_row_round_trip(record_fields(m));
                    assert(fields.deep_view()[1] == kind_label(m.kind));
                }
            }
            return None;
        },
        Some(k) => k,
    };
    let ok = match kind {
        EventKind::KeyPress => fields[3].as_str().is_empty() && fields[4].as_str().is_empty()
            && fields[5].as_str().is_empty(),
        EventKind::KeyRelease => fields[3].as_str().is_empty() && fields[4].as_str().is_empty()
            && fields[5].as_str().is_empty(),
        EventKind::MouseMove => fields[2].as_str().is_empty() && fields[3].as_str().is_empty(),
        EventKind::ButtonPress => fields[2].as_str().is_empty(),
        EventKind::ButtonRelease => fields[2].as_str().is_empty(),
    };
    if !ok {
        proof {
            assert forall|m: RecordModel|
                wf_record(m) && line@ == encode_record_spec(m) implies false by {
                lemma_row_round_trip(record_fields(m));
                assert(fields.deep_view()[1] == kind_label(m.kind));
                lemma_kind_label_injective(kind, m.kind);
                assert(fields.deep_view()[2] == m.key);
                assert(fields.deep_view()[3] == m.button);
                assert(fields.deep_view()[4] == m.x);
                assert(fields.deep_view()[5] == m.y);
            }
        }
        return None;
    }
    let rec = Record {
        timestamp: ts,
        kind,
        key: fields[2].clone(),
        button: fields[3].clone(),
        x: fields[4].clone(),
        y: fields[5].clone(),
    };
    proof {
        assert forall|m: RecordModel|
            wf_record(m) && line@ == encode_record_spec(m) implies rec@ == m by {
            lemma_row_round_trip(record_fields(m));
            assert(fields.deep_view()[0] == dec_spec(m.timestamp as nat));
            assert(fields.deep_view()[1] == kind_label(m.kind));
            lemma_kind_label_injective(kind, m.kind);
            assert(fields.deep_view()[2] == m.key);
            assert(fields.deep_view()[3] == m.button);
            assert(fields.deep_view()[4] == m.x);
            assert(fields.deep_view()[5] == m.y);
        }
    }
    Some(rec)
}

/// The row of a well-formed record has its six columns filled exactly as the
/// kind demands: the timestamp and the kind's label always, the key only for
/// key events, the button and the position only for button events, the
/// position only for pointer events — and parsing the row gives those six
/// columns back, never more or fewer.
pub proof fn lemma_columns_match_kind(m: RecordModel)
    requires
        wf_record(m),
    ensures
        record_fields(m).len() == 6,
        parse_fields_at(encode_record_spec(m), 0) == Some(record_fields(m)),
        record_fields(m)[0] == dec_spec(m.timestamp as nat),
        record_fields(m)[1] == kind_label(m.kind),
        m.kind == EventKind::KeyPress || m.kind == EventKind::KeyRelease ==> record_fields(m)[2]
            == m.key && record_fields(m)[3] == Seq::<char>::empty() && record_fields(m)[4]
            == Seq::<char>::empty() && record_fields(m)[5] == Seq::<char>::empty(),
        m.kind == EventKind::MouseMove ==> record_fields(m)[2] == Seq::<char>::empty()
            && record_fields(m)[3] == Seq::<char>::empty() && record_fields(m)[4] == m.x
            && record_fields(m)[5] == m.y,
        m.kind == EventKind::ButtonPress || m.kind == EventKind::ButtonRelease ==> record_fields(
            m,
        )[2] == Seq::<char>::empty() && record_fields(m)[3] == m.button && record_fields(m)[4]
            == m.x && record_fields(m)[5] == m.y,
{
    lemma_row_round_trip(record_fields(m));
}

} // verus!
