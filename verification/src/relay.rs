//! Model of the cross-thread relay of display strings.
//!
//! The real channel hands strings from the capture thread to the observer;
//! this model pins down its contract: first-in-first-out order, unbounded
//! capacity, a send that always succeeds whether or not anyone ever drains,
//! and a drain that takes everything currently queued at once.

use vstd::prelude::*;

verus! {

pub struct Relay {
    entries: Vec<String>,
}

impl View for Relay {
    type V = Seq<Seq<char>>;

    closed spec fn view(&self) -> Seq<Seq<char>> {
        self.entries.deep_view()
    }
}

impl Relay {
    pub fn new() -> (r: Self)
        ensures
            r@ == Seq::<Seq<char>>::empty(),
    {
        let r = Relay { entries: Vec::new() };
        proof {
            assert(r@ =~= Seq::<Seq<char>>::empty());
        }
        r
    }

    /// Enqueues one display string at the back. Never blocks and never fails,
    /// however long the queue has grown.
    pub fn send(&mut self, s: String)
        ensures
            final(self)@ == old(self)@.push(s@),
    {
        self.entries.push(s);
        proof {
            assert(self@ =~= old(self)@.push(s@));
        }
    }

    /// Takes every queued string at once, oldest first, leaving the relay
    /// empty. An empty result only means nothing new yet, not an error.
    pub fn drain_all(&mut self) -> (out: Vec<String>)
        ensures
            out.deep_view() == old(self)@,
            final(self)@ == Seq::<Seq<char>>::empty(),
    {
        let out = self.entries.split_off(0);
        proof {
            assert(out.deep_view() =~= old(self)@);
            assert(self@ =~= Seq::<Seq<char>>::empty());
        }
        out
    }

    /// How many strings are queued right now.
    pub fn queued(&self) -> (n: usize)
        ensures
            n == self@.len(),
    {
        self.entries.len()
    }
}

} // verus!
