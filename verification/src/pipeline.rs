//! The capture loop's decisions.
//!
//! The loop owns the position tracker; for every delivered event it
//! normalizes, encodes the record as one row for the sink, and hands the
//! display line to the relay. The surrounding application performs the file
//! append and flush and the real channel send; everything decided here is
//! verified, event by event and over whole sequences.

use vstd::prelude::*;
use crate::events::{RawEvent, RawEventModel, norm_spec, display_spec, normalize};
use crate::record::{RecordModel, encode_record_spec, encode_record};
use crate::relay::Relay;
use crate::tracker::PositionTracker;

verus! {

/// State owned by the capture thread for its whole life.
pub struct CaptureState {
    pub tracker: PositionTracker,
}

impl CaptureState {
    /// Capture starts before any pointer movement has been seen.
    pub fn new() -> (s: Self)
        ensures
            s.tracker@ == ("0"@, "0"@),
    {
        CaptureState { tracker: PositionTracker::new() }
    }
}

/// Everything one event causes: the row to append to the log and the line to
/// relay — either both present or, for an ignored event, both absent.
pub fn capture_step(state: &mut CaptureState, timestamp: u64, ev: &RawEvent) -> (out: (
    Option<String>,
    Option<String>,
))
    ensures
        ({
            let step = norm_spec(old(state).tracker@, timestamp, ev@);
            final(state).tracker@ == step.0 && (match step.1 {
                Some(m) => (out.0 matches Some(row) && row@ == encode_record_spec(m)) && (
                out.1 matches Some(d) && d@ == display_spec(m)),
                None => out.0 is None && out.1 is None,
            })
        }),
{
    let (rec_opt, disp_opt) = normalize(&mut state.tracker, timestamp, ev);
    match rec_opt {
        Some(rec) => {
            let row = encode_record(&rec);
            (Some(row), disp_opt)
        },
        None => (None, None),
    }
}

/// The models of a vector of timed raw events.
pub open spec fn events_model(evs: Seq<(u64, RawEvent)>) -> Seq<(u64, RawEventModel)> {
    evs.map_values(|e: (u64, RawEvent)| (e.0, e.1@))
}

/// The records a sequence of timed events yields, with the final position.
pub open spec fn run_spec(pos: (Seq<char>, Seq<char>), events: Seq<(u64, RawEventModel)>) -> (
    (Seq<char>, Seq<char>),
    Seq<RecordModel>,
)
    decreases events.len(),
{
    if events.len() == 0 {
        (pos, Seq::empty())
    } else {
        let prior = run_spec(pos, events.drop_last());
        let last = events.last();
        let step = norm_spec(prior.0, last.0, last.1);
        (
            step.0,
            match step.1 {
                Some(m) => prior.1.push(m),
                None => prior.1,
            },
        )
    }
}

/// The rows those records are written as, in order.
pub open spec fn rows_of(recs: Seq<RecordModel>) -> Seq<Seq<char>> {
    recs.map_values(|m: RecordModel| encode_record_spec(m))
}

/// The display lines those records are relayed as, in order.
pub open spec fn displays_of(recs: Seq<RecordModel>) -> Seq<Seq<char>> {
    recs.map_values(|m: RecordModel| display_spec(m))
}

/// Feeds a whole sequence of events through the pipeline in order: every
/// record's row is appended to the sink and every display line is sent to the
/// relay, whether or not anything ever drains the relay — capture never
/// blocks and never drops a record on the relay's account.
pub fn run_events(
    state: &mut CaptureState,
    events: &Vec<(u64, RawEvent)>,
    sink_rows: &mut Vec<String>,
    relay: &mut Relay,
)
    ensures
        ({
            let r = run_spec(old(state).tracker@, events_model(events@));
            final(state).tracker@ == r.0 && final(sink_rows).deep_view() == old(
                sink_rows,
            ).deep_view() + rows_of(r.1) && final(relay)@ == old(relay)@ + displays_of(r.1)
        }),
{
    let ghost em = events_model(events@);
    let n = events.len();
    let mut i: usize = 0;
    proof {
        assert(em.take(0) =~= Seq::<(u64, RawEventModel)>::empty());
        assert(sink_rows.deep_view() =~= old(sink_rows).deep_view() + rows_of(
            run_spec(old(state).tracker@, em.take(0)).1,
        ));
        assert(relay@ =~= old(relay)@ + displays_of(run_spec(old(state).tracker@, em.take(0)).1));
    }
    while i < n
        invariant
            0 <= i <= n,
            n == events@.len(),
            em == events_model(events@),
            em.len() == n,
            state.tracker@ == run_spec(old(state).tracker@, em.take(i as int)).0,
            sink_rows.deep_view() == old(sink_rows).deep_view() + rows_of(
                run_spec(old(state).tracker@, em.take(i as int)).1,
            ),
            relay@ == old(relay)@ + displays_of(run_spec(old(state).tracker@, em.take(i as int)).1),
        decreases n - i,
    {
        let e = &events[i];
        proof {
            assert(em[i as int] == (events@[i as int].0, events@[i as int].1@));
            assert(em.take(i as int + 1).drop_last() =~= em.take(i as int));
            assert(em.take(i as int + 1).last() == em[i as int]);
        }
        let ghost recs_before = run_spec(old(state).tracker@, em.take(i as int)).1;
        let out = capture_step(state, e.0, &e.1);
        match out {
            (Some(row), Some(d)) => {
                let ghost rv = row@;
                let ghost dv = d@;
                let ghost sv0 = sink_rows.deep_view();
                let ghost sl0 = sink_rows@;
                sink_rows.push(row);
                relay.send(d);
                proof {
                    let r1 = run_spec(old(state).tracker@, em.take(i as int + 1)).1;
                    assert(r1 == recs_before.push(r1.last()));
                    assert(rows_of(r1) =~= rows_of(recs_before).push(rv));
                    assert(displays_of(r1) =~= displays_of(recs_before).push(dv));
                    assert(sv0.len() == sl0.len());
                    assert(sink_rows.deep_view().len() == sink_rows@.len());
                    assert(sink_rows.deep_view() =~= sv0.push(rv));
                    assert((old(sink_rows).deep_view() + rows_of(recs_before)).push(rv) =~= old(
                        sink_rows,
                    ).deep_view() + rows_of(recs_before).push(rv));
                    assert(sink_rows.deep_view() =~= old(sink_rows).deep_view() + rows_of(r1));
                    assert((old(relay)@ + displays_of(recs_before)).push(dv) =~= old(relay)@
                        + displays_of(recs_before).push(dv));
                    assert(relay@ =~= old(relay)@ + displays_of(r1));
                }
            },
            (None, None) => {
                proof {
                    assert(run_spec(old(state).tracker@, em.take(i as int + 1)).1 == recs_before);
                }
            },
            _ => {
                proof {
                    assert(false);
                }
            },
        }
        i = i + 1;
    }
    proof {
        assert(em.take(n as int) =~= em);
    }
}

/// The position a sequence of events leaves behind: that of its most recent
/// pointer move, or the starting position if it holds none.
pub open spec fn last_move(pos: (Seq<char>, Seq<char>), events: Seq<(u64, RawEventModel)>) -> (
    Seq<char>,
    Seq<char>,
)
    decreases events.len(),
{
    if events.len() == 0 {
        pos
    } else {
        match events.last().1 {
            RawEventModel::MouseMove(x, y) => (x, y),
            _ => last_move(pos, events.drop_last()),
        }
    }
}

/// After any sequence of events the tracker holds exactly the coordinates of
/// the most recent pointer move, or the starting position if none occurred.
pub proof fn lemma_tracker_is_last_move(
    pos: (Seq<char>, Seq<char>),
    events: Seq<(u64, RawEventModel)>,
)
    ensures
        run_spec(pos, events).0 == last_move(pos, events),
    decreases events.len(),
{
    if events.len() > 0 {
        lemma_tracker_is_last_move(pos, events.drop_last());
    }
}

/// A button event's record always carries the coordinates of the most recent
/// pointer move before it in the sequence — the origin if there was none —
/// because every pointer move updates the tracker before any later button
/// event reads it.
pub proof fn lemma_button_reads_latest_position(
    pos: (Seq<char>, Seq<char>),
    events: Seq<(u64, RawEventModel)>,
    i: int,
)
    requires
        0 <= i < events.len(),
        events[i].1 is ButtonPress || events[i].1 is ButtonRelease,
    ensures
        ({
            let recs = run_spec(pos, events.take(i + 1)).1;
            recs.len() >= 1 && recs.last().x == last_move(pos, events.take(i)).0
                && recs.last().y == last_move(pos, events.take(i)).1
        }),
{
    assert(events.take(i + 1).drop_last() =~= events.take(i));
    assert(events.take(i + 1).last() == events[i]);
    lemma_tracker_is_last_move(pos, events.take(i));
}

/// The relay sees the records in exactly the order the sink does: for one
/// input sequence, the i-th display line and the i-th row both come from the
/// i-th record produced, with no reordering between the two.
pub proof fn lemma_relay_order_matches_sink(
    pos: (Seq<char>, Seq<char>),
    events: Seq<(u64, RawEventModel)>,
)
    ensures
        ({
            let recs = run_spec(pos, events).1;
            rows_of(recs).len() == displays_of(recs).len() && (forall|i: int|
                0 <= i < recs.len() ==> rows_of(recs)[i] == encode_record_spec(#[trigger] recs[i])
                    && displays_of(recs)[i] == display_spec(recs[i]))
        }),
{
}

} // verus!
