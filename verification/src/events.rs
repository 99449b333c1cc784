//! Normalization of raw platform events.
//!
//! Each raw event becomes at most one record to persist and at most one
//! display string to relay. Key and button events always yield both; a
//! pointer move first updates the position tracker and then yields both; a
//! wheel event yields neither and is silently ignored. Nothing is ever
//! dropped for any other reason: normalization always completes.

use vstd::prelude::*;
use vstd::string::StringExecFns;
use crate::decimal::{dec_spec, u64_to_dec};
use crate::record::{EventKind, Record, RecordModel, wf_record};
use crate::tracker::PositionTracker;

verus! {

/// One raw event as the platform hook delivers it, already rendered to plain
/// text: key and button identifiers by their platform name, coordinates by
/// their decimal text.
pub enum RawEvent {
    KeyPress(String),
    KeyRelease(String),
    MouseMove(String, String),
    ButtonPress(String),
    ButtonRelease(String),
    Wheel(i64, i64),
}

/// The mathematical shape of a raw event.
pub ghost enum RawEventModel {
    KeyPress(Seq<char>),
    KeyRelease(Seq<char>),
    MouseMove(Seq<char>, Seq<char>),
    ButtonPress(Seq<char>),
    ButtonRelease(Seq<char>),
    Wheel(i64, i64),
}

impl View for RawEvent {
    type V = RawEventModel;

    open spec fn view(&self) -> RawEventModel {
        match self {
            RawEvent::KeyPress(k) => RawEventModel::KeyPress(k@),
            RawEvent::KeyRelease(k) => RawEventModel::KeyRelease(k@),
            RawEvent::MouseMove(x, y) => RawEventModel::MouseMove(x@, y@),
            RawEvent::ButtonPress(b) => RawEventModel::ButtonPress(b@),
            RawEvent::ButtonRelease(b) => RawEventModel::ButtonRelease(b@),
            RawEvent::Wheel(dx, dy) => RawEventModel::Wheel(*dx, *dy),
        }
    }
}

/// What one raw event does: the position after it, and the record it yields,
/// if any. A button event is stamped with the position handed in; a pointer
/// move replaces that position with its own coordinates.
pub open spec fn norm_spec(pos: (Seq<char>, Seq<char>), t: u64, ev: RawEventModel) -> (
    (Seq<char>, Seq<char>),
    Option<RecordModel>,
) {
    match ev {
        RawEventModel::KeyPress(k) => (
            pos,
            Some(
                RecordModel {
                    timestamp: t,
                    kind: EventKind::KeyPress,
                    key: k,
                    button: Seq::empty(),
                    x: Seq::empty(),
                    y: Seq::empty(),
                },
            ),
        ),
        RawEventModel::KeyRelease(k) => (
            pos,
            Some(
                RecordModel {
                    timestamp: t,
                    kind: EventKind::KeyRelease,
                    key: k,
                    button: Seq::empty(),
                    x: Seq::empty(),
                    y: Seq::empty(),
                },
            ),
        ),
        RawEventModel::MouseMove(x, y) => (
            (x, y),
            Some(
                RecordModel {
                    timestamp: t,
                    kind: EventKind::MouseMove,
                    key: Seq::empty(),
                    button: Seq::empty(),
                    x: x,
                    y: y,
                },
            ),
        ),
        RawEventModel::ButtonPress(b) => (
            pos,
            Some(
                RecordModel {
                    timestamp: t,
                    kind: EventKind::ButtonPress,
                    key: Seq::empty(),
                    button: b,
                    x: pos.0,
                    y: pos.1,
                },
            ),
        ),
        RawEventModel::ButtonRelease(b) => (
            pos,
            Some(
                RecordModel {
                    timestamp: t,
                    kind: EventKind::ButtonRelease,
                    key: Seq::empty(),
                    button: b,
                    x: pos.0,
                    y: pos.1,
                },
            ),
        ),
        RawEventModel::Wheel(_, _) => (pos, None),
    }
}

/// The one-line human-readable rendering of a record.
pub open spec fn display_spec(m: RecordModel) -> Seq<char> {
    match m.kind {
        EventKind::KeyPress => dec_spec(m.timestamp as nat) + ": Key Press: "@ + m.key,
        EventKind::KeyRelease => dec_spec(m.timestamp as nat) + ": Key Release: "@ + m.key,
        EventKind::MouseMove => dec_spec(m.timestamp as nat) + ": Mouse Move: x="@ + m.x + ", y="@
            + m.y,
        EventKind::ButtonPress => dec_spec(m.timestamp as nat) + ": Button Press: "@ + m.button
            + " at x="@ + m.x + ", y="@ + m.y,
        EventKind::ButtonRelease => dec_spec(m.timestamp as nat) + ": Button Release: "@ + m.button
            + " at x="@ + m.x + ", y="@ + m.y,
    }
}

/// Renders a record as its one display line.
pub fn display_record(r: &Record) -> (s: String)
    ensures
        s@ == display_spec(r@),
{
    let mut s = u64_to_dec(r.timestamp);
    match r.kind {
        EventKind::KeyPress => {
            s.append(": Key Press: ");
            s.append(r.key.as_str());
        },
        EventKind::KeyRelease => {
            s.append(": Key Release: ");
            s.append(r.key.as_str());
        },
        EventKind::MouseMove => {
            s.append(": Mouse Move: x=");
            s.append(r.x.as_str());
            s.append(", y=");
            s.append(r.y.as_str());
        },
        EventKind::ButtonPress => {
            s.append(": Button Press: ");
            s.append(r.button.as_str());
            s.append(" at x=");
            s.append(r.x.as_str());
            s.append(", y=");
            s.append(r.y.as_str());
        },
        EventKind::ButtonRelease => {
            s.append(": Button Release: ");
            s.append(r.button.as_str());
            s.append(" at x=");
            s.append(r.x.as_str());
            s.append(", y=");
            s.append(r.y.as_str());
        },
    }
    s
}

/// Turns one raw event into its record and display line. A pointer move
/// updates the tracker before the record is built; a button event reads the
/// tracker without changing it; a wheel event leaves everything untouched and
/// yields nothing.
pub fn normalize(tracker: &mut PositionTracker, timestamp: u64, ev: &RawEvent) -> (out: (
    Option<Record>,
    Option<String>,
))
    ensures
        ({
            let step = norm_spec(old(tracker)@, timestamp, ev@);
            final(tracker)@ == step.0 && (match step.1 {
                Some(m) => (out.0 matches Some(r) && r@ == m && wf_record(m)) && (out.1 matches
                    Some(d) && d@ == display_spec(m)),
                None => out.0 is None && out.1 is None,
            })
        }),
{
    match ev {
        RawEvent::KeyPress(k) => {
            let rec = Record {
                timestamp,
                kind: EventKind::KeyPress,
                key: k.clone(),
                button: String::new(),
                x: String::new(),
                y: String::new(),
            };
            let d = display_record(&rec);
            (Some(rec), Some(d))
        },
        RawEvent::KeyRelease(k) => {
            let rec = Record {
                timestamp,
                kind: EventKind::KeyRelease,
                key: k.clone(),
                button: String::new(),
                x: String::new(),
                y: String::new(),
            };
            let d = display_record(&rec);
            (Some(rec), Some(d))
        },
        RawEvent::MouseMove(x, y) => {
            tracker.update(x.clone(), y.clone());
            let rec = Record {
                timestamp,
                kind: EventKind::MouseMove,
                key: String::new(),
                button: String::new(),
                x: x.clone(),
                y: y.clone(),
            };
            let d = display_record(&rec);
            (Some(rec), Some(d))
        },
        RawEvent::ButtonPress(b) => {
            let pos = tracker.get();
            let rec = Record {
                timestamp,
                kind: EventKind::ButtonPress,
                key: String::new(),
                button: b.clone(),
                x: pos.0,
                y: pos.1,
            };
            let d = display_record(&rec);
            (Some(rec), Some(d))
        },
        RawEvent::ButtonRelease(b) => {
            let pos = tracker.get();
            let rec = Record {
                timestamp,
                kind: EventKind::ButtonRelease,
                key: String::new(),
                button: b.clone(),
                x: pos.0,
                y: pos.1,
            };
            let d = display_record(&rec);
            (Some(rec), Some(d))
        },
        RawEvent::Wheel(_, _) => (None, None),
    }
}

} // verus!
