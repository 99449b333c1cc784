//! Last known pointer position.
//!
//! Button events arrive without coordinates of their own; they are stamped
//! with the most recent position reported by a pointer move, held here as the
//! decimal text the coordinates are written with. The tracker is owned by the
//! capture loop alone and is never shared across threads.

use vstd::prelude::*;
use vstd::string::StringExecFns;

verus! {

pub struct PositionTracker {
    x: String,
    y: String,
}

impl View for PositionTracker {
    type V = (Seq<char>, Seq<char>);

    closed spec fn view(&self) -> (Seq<char>, Seq<char>) {
        (self.x@, self.y@)
    }
}

impl PositionTracker {
    /// The position before any pointer movement has been observed: the origin.
    pub fn new() -> (t: Self)
        ensures
            t@ == ("0"@, "0"@),
    {
        PositionTracker { x: String::from_str("0"), y: String::from_str("0") }
    }

    /// Records the coordinates of the latest pointer move.
    pub fn update(&mut self, x: String, y: String)
        ensures
            final(self)@ == (x@, y@),
    {
        self.x = x;
        self.y = y;
    }

    /// Reads the current position without changing it.
    pub fn get(&self) -> (p: (String, String))
        ensures
            (p.0@, p.1@) == self@,
    {
        (self.x.clone(), self.y.clone())
    }
}

} // verus!
