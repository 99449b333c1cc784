//! The observer's rolling view of recent activity.
//!
//! Display strings drained from the relay accumulate here in arrival order;
//! storage is unbounded, but only the most recent `RENDER_WINDOW` entries are
//! ever rendered, oldest of that window first.

use vstd::prelude::*;

verus! {

/// How many of the newest entries are rendered.
pub const RENDER_WINDOW: usize = 10;

pub struct RollingView {
    entries: Vec<String>,
}

impl View for RollingView {
    type V = Seq<Seq<char>>;

    closed spec fn view(&self) -> Seq<Seq<char>> {
        self.entries.deep_view()
    }
}

/// Index of the first rendered entry: everything before it is kept but not
/// shown.
pub open spec fn window_start(len: nat) -> int {
    if len <= RENDER_WINDOW { 0 } else { len - RENDER_WINDOW }
}

impl RollingView {
    pub fn new() -> (v: Self)
        ensures
            v@ == Seq::<Seq<char>>::empty(),
    {
        let v = RollingView { entries: Vec::new() };
        proof {
            assert(v@ =~= Seq::<Seq<char>>::empty());
        }
        v
    }

    /// Appends one drained batch, keeping arrival order.
    pub fn absorb(&mut self, batch: Vec<String>)
        ensures
            final(self)@ == old(self)@ + batch.deep_view(),
    {
        let ghost b0 = batch.deep_view();
        let mut rest = batch;
        self.entries.append(&mut rest);
        proof {
            assert(self@ =~= old(self)@ + b0);
        }
    }

    /// How many entries have accumulated.
    pub fn len(&self) -> (n: usize)
        ensures
            n == self@.len(),
    {
        self.entries.len()
    }

    /// The entries to render: the last `RENDER_WINDOW` of them (all, if fewer
    /// have accumulated), oldest first.
    pub fn render_window(&self) -> (w: Vec<String>)
        ensures
            w.deep_view() == self@.skip(window_start(self@.len())),
    {
        let len = self.entries.len();
        let start: usize = if len > RENDER_WINDOW { len - RENDER_WINDOW } else { 0 };
        let mut w: Vec<String> = Vec::new();
        let mut i: usize = start;
        proof {
            assert(w.deep_view() =~= self@.subrange(start as int, start as int));
        }
        while i < len
            invariant
                start <= i <= len,
                len == self.entries@.len(),
                w.deep_view() == self@.subrange(start as int, i as int),
            decreases len - i,
        {
            proof {
                assert(w.deep_view().len() == w@.len());
            }
            w.push(self.entries[i].clone());
            i = i + 1;
            proof {
                assert(w.deep_view() =~= self@.subrange(start as int, i as int));
            }
        }
        proof {
            assert(self@.subrange(start as int, len as int) =~= self@.skip(
                window_start(self@.len()),
            ));
        }
        w
    }
}

} // verus!
