//! The append-only log's fixed frame.
//!
//! The log is one text file of comma-separated rows. Its very first row, and
//! only on first creation, is the fixed six-column header; every later row is
//! one encoded record. Initialization is idempotent: against an existing log
//! nothing is written, the file is only opened for appending, so the header
//! is never rewritten or duplicated. Any failure to write or flush a row is
//! fatal to capture by design; the surrounding application aborts on it
//! rather than drop events silently.

use vstd::prelude::*;
use vstd::string::StringExecFns;
use crate::rowcodec::{enc_row, enc_field, needs_quote, quotable};

verus! {

/// The exact header row.
pub open spec fn header_spec() -> Seq<char> {
    "timestamp,event_type,key,button,x,y"@
}

pub fn header_line() -> (s: String)
    ensures
        s@ == header_spec(),
{
    String::from_str("timestamp,event_type,key,button,x,y")
}

/// What initialization writes: the header if and only if the log does not
/// exist yet, and nothing against an existing log.
pub fn init_header(log_exists: bool) -> (r: Option<String>)
    ensures
        (r is Some) == !log_exists,
        r matches Some(h) ==> h@ == header_spec(),
{
    if log_exists {
        None
    } else {
        Some(header_line())
    }
}

/// The header is itself an encoded row of the six column names.
pub proof fn lemma_header_is_column_row()
    ensures
        header_spec() == enc_row(
            seq!["timestamp"@, "event_type"@, "key"@, "button"@, "x"@, "y"@],
        ),
{
    reveal_strlit("timestamp,event_type,key,button,x,y");
    reveal_strlit("timestamp");
    reveal_strlit("event_type");
    reveal_strlit("key");
    reveal_strlit("button");
    reveal_strlit("x");
    reveal_strlit("y");
    let fs = seq!["timestamp"@, "event_type"@, "key"@, "button"@, "x"@, "y"@];
    assert forall|k: int| 0 <= k < fs.len() implies !needs_quote(#[trigger] fs[k]) by {
        assert(forall|j: int| 0 <= j < fs[k].len() ==> !quotable(#[trigger] fs[k][j]));
    }
    assert(fs.skip(5).len() == 1 && fs.skip(5)[0] == fs[5]);
    assert(enc_row(fs.skip(5)) == enc_field(fs[5]));
    assert(fs.skip(4).len() == 2 && fs.skip(4)[0] == fs[4]);
    assert(fs.skip(4).drop_first() =~= fs.skip(5));
    assert(enc_row(fs.skip(4)) == enc_field(fs[4]) + seq![','] + enc_row(fs.skip(5)));
    assert(fs.skip(3).len() == 3 && fs.skip(3)[0] == fs[3]);
    assert(fs.skip(3).drop_first() =~= fs.skip(4));
    assert(enc_row(fs.skip(3)) == enc_field(fs[3]) + seq![','] + enc_row(fs.skip(4)));
    assert(fs.skip(2).len() == 4 && fs.skip(2)[0] == fs[2]);
    assert(fs.skip(2).drop_first() =~= fs.skip(3));
    assert(enc_row(fs.skip(2)) == enc_field(fs[2]) + seq![','] + enc_row(fs.skip(3)));
    assert(fs.skip(1).len() == 5 && fs.skip(1)[0] == fs[1]);
    assert(fs.skip(1).drop_first() =~= fs.skip(2));
    assert(enc_row(fs.skip(1)) == enc_field(fs[1]) + seq![','] + enc_row(fs.skip(2)));
    assert(fs.drop_first() =~= fs.skip(1));
    assert(enc_row(fs) == enc_field(fs[0]) + seq![','] + enc_row(fs.skip(1)));
    assert(enc_field(fs[0]) == fs[0]);
    assert(enc_field(fs[1]) == fs[1]);
    assert(enc_field(fs[2]) == fs[2]);
    assert(enc_field(fs[3]) == fs[3]);
    assert(enc_field(fs[4]) == fs[4]);
    assert(enc_field(fs[5]) == fs[5]);
    assert(enc_row(fs) =~= header_spec());
}

} // verus!
