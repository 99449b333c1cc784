//! Encoding and decoding of one row of the structured log.
//!
//! A row is a fixed number of fields joined by commas. A field containing a
//! delimiter, a quote or a line break is written between quotes, with inner
//! quotes doubled; every other field is written as it is. Decoding inverts
//! encoding exactly: `lemma_row_round_trip` proves that parsing an encoded
//! row gives the original fields back.

use vstd::prelude::*;
use crate::strutil::push_char;
use vstd::string::StrSliceExecFns;
use vstd::string::StringExecFns;

verus! {

/// A character that forces its field to be quoted.
pub open spec fn quotable(c: char) -> bool {
    c == ',' || c == '"' || c == '\n' || c == '\r'
}

pub open spec fn needs_quote(f: Seq<char>) -> bool {
    exists|i: int| 0 <= i < f.len() && quotable(#[trigger] f[i])
}

/// How one character is written inside a quoted field.
pub open spec fn esc_char(c: char) -> Seq<char> {
    if c == '"' {
        seq!['"', '"']
    } else {
        seq![c]
    }
}

/// A field's content with inner quotes doubled.
pub open spec fn esc(f: Seq<char>) -> Seq<char>
    decreases f.len(),
{
    if f.len() == 0 {
        Seq::empty()
    } else {
        esc_char(f.first()) + esc(f.drop_first())
    }
}

/// The encoding of one field.
pub open spec fn enc_field(f: Seq<char>) -> Seq<char> {
    if needs_quote(f) {
        seq!['"'] + esc(f) + seq!['"']
    } else {
        f
    }
}

/// The encoding of a whole row: fields joined by commas.
pub open spec fn enc_row(fs: Seq<Seq<char>>) -> Seq<char>
    decreases fs.len(),
{
    if fs.len() == 0 {
        Seq::empty()
    } else if fs.len() == 1 {
        enc_field(fs[0])
    } else {
        enc_field(fs[0]) + seq![','] + enc_row(fs.drop_first())
    }
}

pub proof fn lemma_esc_push(f: Seq<char>, c: char)
    ensures
        esc(f.push(c)) == esc(f) + esc_char(c),
    decreases f.len(),
{
    if f.len() == 0 {
        assert(f.push(c).drop_first() =~= f);
        assert(f.push(c).first() == c);
        assert(esc(f) == Seq::<char>::empty());
        assert(esc(f.push(c)) == esc_char(c) + esc(f));
        assert(esc_char(c) + esc(f) =~= esc(f) + esc_char(c));
    } else {
        assert(f.push(c).first() == f.first());
        assert(f.push(c).drop_first() =~= f.drop_first().push(c));
        lemma_esc_push(f.drop_first(), c);
        assert(esc(f.push(c)) == esc_char(f.first()) + (esc(f.drop_first()) + esc_char(c)));
        assert(esc_char(f.first()) + (esc(f.drop_first()) + esc_char(c)) =~= (esc_char(f.first())
            + esc(f.drop_first())) + esc_char(c));
    }
}

pub proof fn lemma_enc_row_push(fs: Seq<Seq<char>>, f: Seq<char>)
    requires
        fs.len() >= 1,
    ensures
        enc_row(fs.push(f)) == enc_row(fs) + seq![','] + enc_field(f),
    decreases fs.len(),
{
    if fs.len() == 1 {
        assert(fs.push(f)[0] == fs[0]);
        assert(fs.push(f).drop_first() =~= seq![f]);
        assert(enc_row(seq![f]) == enc_field(f)) by {
            assert(seq![f][0] == f);
        }
    } else {
        assert(fs.push(f)[0] == fs[0]);
        assert(fs.push(f).drop_first() =~= fs.drop_first().push(f));
        lemma_enc_row_push(fs.drop_first(), f);
        assert(enc_row(fs.push(f)) == enc_field(fs[0]) + seq![','] + (enc_row(fs.drop_first())
            + seq![','] + enc_field(f)));
        assert(enc_field(fs[0]) + seq![','] + (enc_row(fs.drop_first()) + seq![','] + enc_field(f))
            =~= (enc_field(fs[0]) + seq![','] + enc_row(fs.drop_first())) + seq![','] + enc_field(
            f,
        ));
    }
}

// ---------------------------------------------------------------------------
// Parsing, by position in the line.
// ---------------------------------------------------------------------------

/// Where an unquoted field that starts at `i` ends: at the next comma or at
/// the end of the line.
pub open spec fn raw_end(s: Seq<char>, i: int) -> int
    decreases s.len() - i,
    when 0 <= i <= s.len()
{
    if i >= s.len() {
        i
    } else if s[i] == ',' {
        i
    } else {
        raw_end(s, i + 1)
    }
}

/// Scans a quoted field whose content starts at `i` (after the opening
/// quote); yields the unescaped content and the position just after the
/// closing quote, or nothing if the quote is never closed.
pub open spec fn quoted_scan(s: Seq<char>, i: int) -> Option<(Seq<char>, int)>
    decreases s.len() - i,
    when 0 <= i <= s.len()
{
    if i >= s.len() {
        None
    } else if s[i] == '"' {
        if i + 1 < s.len() && s[i + 1] == '"' {
            match quoted_scan(s, i + 2) {
                Some(p) => Some((seq!['"'] + p.0, p.1)),
                None => None,
            }
        } else {
            Some((Seq::empty(), i + 1))
        }
    } else {
        match quoted_scan(s, i + 1) {
            Some(p) => Some((seq![s[i]] + p.0, p.1)),
            None => None,
        }
    }
}

pub proof fn lemma_raw_end_bounds(s: Seq<char>, i: int)
    requires
        0 <= i <= s.len(),
    ensures
        i <= raw_end(s, i) <= s.len(),
    decreases s.len() - i,
{
    if i < s.len() && s[i] != ',' {
        lemma_raw_end_bounds(s, i + 1);
    }
}

pub proof fn lemma_quoted_scan_bounds(s: Seq<char>, i: int)
    requires
        0 <= i <= s.len(),
    ensures
        quoted_scan(s, i) matches Some(p) ==> i < p.1 <= s.len(),
    decreases s.len() - i,
{
    if i < s.len() {
        if s[i] == '"' {
            if i + 1 < s.len() && s[i + 1] == '"' {
                lemma_quoted_scan_bounds(s, i + 2);
            }
        } else {
            lemma_quoted_scan_bounds(s, i + 1);
        }
    }
}

/// One field starting at `i`: quoted if it opens with a quote, raw otherwise.
pub open spec fn parse_field_at(s: Seq<char>, i: int) -> Option<(Seq<char>, int)> {
    if i < s.len() && s[i] == '"' {
        quoted_scan(s, i + 1)
    } else {
        Some((s.subrange(i, raw_end(s, i)), raw_end(s, i)))
    }
}

/// All fields from `i` to the end of the line.
pub open spec fn parse_fields_at(s: Seq<char>, i: int) -> Option<Seq<Seq<char>>>
    decreases s.len() - i,
    when 0 <= i <= s.len()
    via parse_fields_at_decreases
{
    match parse_field_at(s, i) {
        None => None,
        Some(p) => {
            if p.1 >= s.len() {
                Some(seq![p.0])
            } else if s[p.1] == ',' {
                match parse_fields_at(s, p.1 + 1) {
                    None => None,
                    Some(fs) => Some(seq![p.0] + fs),
                }
            } else {
                None
            }
        },
    }
}

#[via_fn]
proof fn parse_fields_at_decreases(s: Seq<char>, i: int) {
    lemma_raw_end_bounds(s, i);
    if i < s.len() && s[i] == '"' {
        lemma_quoted_scan_bounds(s, i + 1);
    }
}

// ---------------------------------------------------------------------------
// Round trip: parsing an encoded row gives the fields back.
// ---------------------------------------------------------------------------

proof fn lemma_parse_raw(s: Seq<char>, i: int, f: Seq<char>)
    requires
        0 <= i,
        i + f.len() <= s.len(),
        !needs_quote(f),
        s.subrange(i, i + f.len()) == f,
        i + f.len() == s.len() || s[i + f.len()] == ',',
    ensures
        raw_end(s, i) == i + f.len(),
    decreases f.len(),
{
    if f.len() == 0 {
    } else {
        assert(s[i] == f[0]) by {
            assert(s.subrange(i, i + f.len())[0] == s[i]);
        }
        assert(!quotable(f[0]));
        assert(s.subrange(i + 1, i + 1 + f.drop_first().len()) =~= f.drop_first()) by {
            assert(forall|m: int|
                0 <= m < f.len() ==> #[trigger] s.subrange(i, i + f.len())[m] == s[i + m]);
        }
        lemma_parse_raw(s, i + 1, f.drop_first());
    }
}

/// If the stretch of `s` beginning at `i` spells `e`, an inner stretch spells
/// the matching part of `e`, and each position holds the matching character.
proof fn lemma_inner_subrange(s: Seq<char>, i: int, e: Seq<char>, a: int, b: int)
    requires
        0 <= i,
        i + e.len() <= s.len(),
        s.subrange(i, i + e.len()) == e,
        0 <= a <= b <= e.len(),
    ensures
        s.subrange(i + a, i + b) == e.subrange(a, b),
        forall|m: int| a <= m < b ==> s[i + m] == #[trigger] e[m],
{
    assert forall|m: int| a <= m < b implies s[i + m] == #[trigger] e[m] by {
        assert(s.subrange(i, i + e.len())[m] == e[m]);
    }
    assert forall|m: int| 0 <= m < b - a implies s.subrange(i + a, i + b)[m] == e.subrange(a, b)[m]
        by {
        assert(s.subrange(i, i + e.len())[a + m] == e[a + m]);
    }
    assert(s.subrange(i + a, i + b) =~= e.subrange(a, b));
}

proof fn lemma_parse_quoted(s: Seq<char>, i: int, f: Seq<char>)
    requires
        0 <= i,
        i + esc(f).len() + 1 <= s.len(),
        s.subrange(i, i + esc(f).len()) == esc(f),
        s[i + esc(f).len()] == '"',
        i + esc(f).len() + 1 == s.len() || s[i + esc(f).len() + 1] == ',',
    ensures
        quoted_scan(s, i) == Some((f, i + esc(f).len() + 1)),
    decreases f.len(),
{
    let e = esc(f);
    if f.len() == 0 {
        assert(e.len() == 0);
        assert(s[i] == '"');
        assert(quoted_scan(s, i) == Some((Seq::<char>::empty(), i + 1)));
    } else {
        let c = f.first();
        let e1 = esc_char(c);
        let erest = esc(f.drop_first());
        assert(e == e1 + erest);
        lemma_inner_subrange(s, i, e, 0, e.len() as int);
        if c == '"' {
            assert(e1 == seq!['"', '"']);
            assert(e.len() == 2 + erest.len());
            assert(e[0] == '"' && e[1] == '"') by {
                assert((e1 + erest)[0] == e1[0]);
                assert((e1 + erest)[1] == e1[1]);
            }
            assert(s[i] == '"' && s[i + 1] == '"');
            assert(e.subrange(2, e.len() as int) =~= erest) by {
                assert forall|m: int|
                    0 <= m < erest.len() implies e.subrange(2, e.len() as int)[m] == erest[m] by {
                    assert((e1 + erest)[2 + m] == erest[m]);
                }
            }
            lemma_inner_subrange(s, i, e, 2, e.len() as int);
            assert(s.subrange(i + 2, i + 2 + erest.len()) == erest);
            lemma_parse_quoted(s, i + 2, f.drop_first());
            assert(quoted_scan(s, i + 2) == Some((f.drop_first(), i + 2 + erest.len() + 1)));
            assert(seq!['"'] + f.drop_first() =~= f);
            assert(quoted_scan(s, i) == Some((f, i + e.len() + 1)));
        } else {
            assert(e1 == seq![c]);
            assert(e.len() == 1 + erest.len());
            assert(e[0] == c) by {
                assert((e1 + erest)[0] == e1[0]);
            }
            assert(s[i] == c);
            assert(s[i] != '"');
            assert(e.subrange(1, e.len() as int) =~= erest) by {
                assert forall|m: int|
                    0 <= m < erest.len() implies e.subrange(1, e.len() as int)[m] == erest[m] by {
                    assert((e1 + erest)[1 + m] == erest[m]);
                }
            }
            lemma_inner_subrange(s, i, e, 1, e.len() as int);
            assert(s.subrange(i + 1, i + 1 + erest.len()) == erest);
            lemma_parse_quoted(s, i + 1, f.drop_first());
            assert(quoted_scan(s, i + 1) == Some((f.drop_first(), i + 1 + erest.len() + 1)));
            assert(seq![s[i]] + f.drop_first() =~= f);
            assert(quoted_scan(s, i) == Some((f, i + e.len() + 1)));
        }
    }
}

/// The heart of the round trip: if the rest of the line from `i` on is
/// exactly the encoding of `fs`, parsing from `i` yields `fs`.
proof fn lemma_parse_enc_row(s: Seq<char>, i: int, fs: Seq<Seq<char>>)
    requires
        0 <= i <= s.len(),
        fs.len() >= 1,
        s.subrange(i, s.len() as int) == enc_row(fs),
    ensures
        parse_fields_at(s, i) == Some(fs),
    decreases fs.len(),
{
    let f = fs[0];
    let a = enc_field(f);
    if fs.len() == 1 {
        assert(enc_row(fs) == a);
        assert(s.len() - i == a.len());
        assert(s.subrange(i, i + a.len()) == a);
        lemma_parse_single_field(s, i, f, s.len() as int);
        assert(seq![f] =~= fs);
        assert(parse_fields_at(s, i) == Some(fs));
    } else {
        let b = enc_row(fs.drop_first());
        let row = enc_row(fs);
        assert(row == (a + seq![',']) + b);
        assert(s.len() - i == row.len());
        assert(row.len() == a.len() + 1 + b.len());
        let k = i + a.len();
        lemma_inner_subrange(s, i, row, 0, row.len() as int);
        assert(row[a.len() as int] == ',') by {
            assert(((a + seq![',']) + b)[a.len() as int] == (a + seq![','])[a.len() as int]);
            assert((a + seq![','])[a.len() as int] == seq![','][0]);
        }
        assert(s[k] == ',');
        assert(row.subrange(0, a.len() as int) =~= a) by {
            assert forall|m: int|
                0 <= m < a.len() implies row.subrange(0, a.len() as int)[m] == a[m] by {
                assert(((a + seq![',']) + b)[m] == (a + seq![','])[m]);
                assert((a + seq![','])[m] == a[m]);
            }
        }
        lemma_inner_subrange(s, i, row, 0, a.len() as int);
        assert(s.subrange(i, i + a.len()) == a);
        lemma_parse_single_field(s, i, f, k);
        assert(row.subrange(a.len() as int + 1, row.len() as int) =~= b) by {
            assert forall|m: int|
                0 <= m < b.len() implies row.subrange(a.len() as int + 1, row.len() as int)[m] == b[m]
                by {
                assert(((a + seq![',']) + b)[a.len() as int + 1 + m] == b[m]);
            }
        }
        lemma_inner_subrange(s, i, row, a.len() as int + 1, row.len() as int);
        assert(s.subrange(k + 1, s.len() as int) == b);
        lemma_parse_enc_row(s, k + 1, fs.drop_first());
        assert(seq![f] + fs.drop_first() =~= fs);
        assert(parse_fields_at(s, i) == Some(fs));
    }
}

/// One encoded field sitting at `i` and reaching to `k`, where `k` is the end
/// of the line or holds a comma, parses as that field ending at `k`.
proof fn lemma_parse_single_field(s: Seq<char>, i: int, f: Seq<char>, k: int)
    requires
        0 <= i <= k <= s.len(),
        k - i == enc_field(f).len(),
        s.subrange(i, i + enc_field(f).len()) == enc_field(f),
        k == s.len() || s[k] == ',',
    ensures
        parse_field_at(s, i) == Some((f, k)),
{
    let a = enc_field(f);
    if needs_quote(f) {
        let ef = esc(f);
        assert(a == (seq!['"'] + ef) + seq!['"']);
        assert(a.len() == ef.len() + 2);
        lemma_inner_subrange(s, i, a, 0, a.len() as int);
        assert(a[0] == '"') by {
            assert(((seq!['"'] + ef) + seq!['"'])[0] == (seq!['"'] + ef)[0]);
            assert((seq!['"'] + ef)[0] == seq!['"'][0]);
        }
        assert(s[i] == '"');
        assert(a.subrange(1, 1 + ef.len() as int) =~= ef) by {
            assert forall|m: int|
                0 <= m < ef.len() implies a.subrange(1, 1 + ef.len() as int)[m] == ef[m] by {
                assert(((seq!['"'] + ef) + seq!['"'])[1 + m] == (seq!['"'] + ef)[1 + m]);
                assert((seq!['"'] + ef)[1 + m] == ef[m]);
            }
        }
        lemma_inner_subrange(s, i, a, 1, 1 + ef.len() as int);
        assert(s.subrange(i + 1, i + 1 + ef.len() as int) == ef);
        assert(a[a.len() - 1] == '"') by {
            assert(((seq!['"'] + ef) + seq!['"'])[a.len() - 1] == seq!['"'][0]);
        }
        assert(s[i + 1 + ef.len() as int] == '"');
        lemma_parse_quoted(s, i + 1, f);
        assert(quoted_scan(s, i + 1) == Some((f, k)));
        assert(parse_field_at(s, i) == Some((f, k)));
    } else {
        assert(a == f);
        if f.len() == 0 {
            assert(k == i);
            assert(raw_end(s, i) == i);
            assert(s.subrange(i, i) =~= f);
            assert(parse_field_at(s, i) == Some((f, i)));
        } else {
            lemma_inner_subrange(s, i, a, 0, a.len() as int);
            assert(a.subrange(0, a.len() as int) =~= a);
            assert(s.subrange(i, i + f.len()) == f);
            assert(s[i] == f[0]);
            assert(!quotable(f[0]));
            assert(s[i] != '"');
            lemma_parse_raw(s, i, f);
            assert(raw_end(s, i) == k);
            assert(s.subrange(i, raw_end(s, i)) == f);
            assert(parse_field_at(s, i) == Some((f, k)));
        }
    }
}

/// Parsing an encoded row gives exactly the fields that were encoded.
pub proof fn lemma_row_round_trip(fs: Seq<Seq<char>>)
    requires
        fs.len() >= 1,
    ensures
        parse_fields_at(enc_row(fs), 0) == Some(fs),
{
    let s = enc_row(fs);
    assert(s.subrange(0, s.len() as int) =~= s);
    lemma_parse_enc_row(s, 0, fs);
}

// ---------------------------------------------------------------------------
// Executable encoder and decoder.
// ---------------------------------------------------------------------------

fn field_needs_quote(f: &str) -> (b: bool)
    ensures
        b == needs_quote(f@),
{
    let len = f.unicode_len();
    let mut i: usize = 0;
    while i < len
        invariant
            0 <= i <= len,
            len == f@.len(),
            forall|j: int| 0 <= j < i ==> !quotable(#[trigger] f@[j]),
        decreases len - i,
    {
        let c = f.get_char(i);
        if c == ',' || c == '"' || c == '\n' || c == '\r' {
            return true;
        }
        i = i + 1;
    }
    false
}

/// Writes one field as it appears in a row: quoted, with inner quotes
/// doubled, exactly when it holds a delimiter, a quote or a line break.
pub fn encode_field(f: &str) -> (out: String)
    ensures
        out@ == enc_field(f@),
{
    if !field_needs_quote(f) {
        return f.to_owned();
    }
    let len = f.unicode_len();
    let mut out = String::new();
    push_char(&mut out, '"');
    proof {
        assert(f@.take(0) =~= Seq::<char>::empty());
        assert(out@ =~= seq!['"'] + esc(f@.take(0)));
    }
    let mut i: usize = 0;
    while i < len
        invariant
            0 <= i <= len,
            len == f@.len(),
            out@ == seq!['"'] + esc(f@.take(i as int)),
        decreases len - i,
    {
        let c = f.get_char(i);
        proof {
            assert(f@.take(i as int + 1) =~= f@.take(i as int).push(f@[i as int]));
            lemma_esc_push(f@.take(i as int), f@[i as int]);
        }
        if c == '"' {
            push_char(&mut out, '"');
            push_char(&mut out, '"');
            proof {
                assert(out@ =~= seq!['"'] + esc(f@.take(i as int + 1)));
            }
        } else {
            push_char(&mut out, c);
            proof {
                assert(out@ =~= seq!['"'] + esc(f@.take(i as int + 1)));
            }
        }
        i = i + 1;
    }
    push_char(&mut out, '"');
    proof {
        assert(f@.take(len as int) =~= f@);
        assert(out@ =~= seq!['"'] + esc(f@) + seq!['"']);
    }
    out
}

/// Writes a whole row: the fields' encodings joined by commas.
pub fn encode_row(fields: &Vec<String>) -> (out: String)
    ensures
        out@ == enc_row(fields.deep_view()),
{
    let ghost fsv = fields.deep_view();
    let n = fields.len();
    let mut out = String::new();
    if n == 0 {
        proof {
            assert(fsv.len() == 0);
        }
        return out;
    }
    let mut j: usize = 0;
    while j < n
        invariant
            0 <= j <= n,
            n == fields@.len(),
            fsv == fields.deep_view(),
            out@ == enc_row(fsv.take(j as int)),
        decreases n - j,
    {
        let ef = encode_field(fields[j].as_str());
        proof {
            assert(fsv[j as int] == fields@[j as int]@);
            assert(fsv.take(j as int + 1) =~= fsv.take(j as int).push(fsv[j as int]));
        }
        if j == 0 {
            out.append(ef.as_str());
            proof {
                assert(fsv.take(1)[0] == fsv[0]);
                assert(out@ =~= enc_row(fsv.take(1)));
            }
        } else {
            out.append(",");
            out.append(ef.as_str());
            proof {
                reveal_strlit(",");
                assert(","@ =~= seq![',']);
                lemma_enc_row_push(fsv.take(j as int), fsv[j as int]);
                assert(out@ =~= enc_row(fsv.take(j as int)) + seq![','] + enc_field(
                    fsv[j as int],
                ));
            }
        }
        j = j + 1;
    }
    proof {
        assert(fsv.take(n as int) =~= fsv);
    }
    out
}

fn raw_scan(s: &str, from: usize, len: usize) -> (j: usize)
    requires
        from <= len,
        len == s@.len(),
    ensures
        j == raw_end(s@, from as int),
        from <= j <= len,
{
    let mut i = from;
    while i < len
        invariant
            from <= i <= len,
            len == s@.len(),
            raw_end(s@, from as int) == raw_end(s@, i as int),
        decreases len - i,
    {
        let c = s.get_char(i);
        if c == ',' {
            proof {
                assert(raw_end(s@, i as int) == i as int);
            }
            return i;
        }
        proof {
            assert(raw_end(s@, i as int) == raw_end(s@, i as int + 1));
        }
        i = i + 1;
    }
    proof {
        assert(raw_end(s@, i as int) == i as int);
    }
    i
}

fn quoted_parse(s: &str, from: usize, len: usize) -> (r: Option<(String, usize)>)
    requires
        from <= len,
        len == s@.len(),
    ensures
        match quoted_scan(s@, from as int) {
            None => r is None,
            Some(p) => r matches Some(q) && q.0@ == p.0 && q.1 == p.1 && from <= q.1 <= len,
        },
{
    proof {
        lemma_quoted_scan_bounds(s@, from as int);
    }
    let mut out = String::new();
    let mut i = from;
    proof {
        assert(out@ =~= Seq::<char>::empty());
    }
    while i < len
        invariant
            from <= i <= len,
            len == s@.len(),
            quoted_scan(s@, i as int) is None ==> quoted_scan(s@, from as int) is None,
            quoted_scan(s@, i as int) matches Some(p) ==> (quoted_scan(s@, from as int) matches
                Some(q) && q.0 == out@ + p.0 && q.1 == p.1),
        decreases len - i,
    {
        let c = s.get_char(i);
        proof {
            lemma_quoted_scan_bounds(s@, i as int);
        }
        if c != '"' {
            proof {
                assert(quoted_scan(s@, i as int) matches Some(p) ==> (out@ + (seq![s@[i as int]]
                    + (quoted_scan(s@, i as int + 1)->0).0) =~= (out@ + seq![s@[i as int]])
                    + (quoted_scan(s@, i as int + 1)->0).0));
            }
            let ghost o0 = out@;
            push_char(&mut out, c);
            proof {
                assert(out@ =~= o0 + seq![c]);
            }
            i = i + 1;
        } else if i + 1 < len {
            let c2 = s.get_char(i + 1);
            if c2 == '"' {
                proof {
                    assert(quoted_scan(s@, i as int) matches Some(p) ==> (out@ + (seq!['"']
                        + (quoted_scan(s@, i as int + 2)->0).0) =~= (out@ + seq!['"'])
                        + (quoted_scan(s@, i as int + 2)->0).0));
                }
                let ghost o0 = out@;
                push_char(&mut out, '"');
                proof {
                    assert(out@ =~= o0 + seq!['"']);
                }
                i = i + 2;
            } else {
                proof {
                    assert(quoted_scan(s@, i as int) == Some((Seq::<char>::empty(), i as int + 1)));
                    assert(out@ + Seq::<char>::empty() =~= out@);
                }
                return Some((out, i + 1));
            }
        } else {
            proof {
                assert(quoted_scan(s@, i as int) == Some((Seq::<char>::empty(), i as int + 1)));
                assert(out@ + Seq::<char>::empty() =~= out@);
            }
            return Some((out, i + 1));
        }
    }
    proof {
        assert(quoted_scan(s@, i as int) is None);
    }
    None
}

/// Splits one line into its fields, undoing the quoting; yields nothing when
/// a quoted field is never closed or a field ends before a comma or the end
/// of the line.
pub fn decode_row(s: &str) -> (r: Option<Vec<String>>)
    ensures
        match parse_fields_at(s@, 0) {
            None => r is None,
            Some(fs) => r matches Some(v) && v.deep_view() == fs,
        },
{
    let len = s.unicode_len();
    let mut out: Vec<String> = Vec::new();
    let mut i: usize = 0;
    loop
        invariant
            0 <= i <= len,
            len == s@.len(),
            parse_fields_at(s@, i as int) is None ==> parse_fields_at(s@, 0) is None,
            parse_fields_at(s@, i as int) matches Some(fs) ==> (parse_fields_at(s@, 0) matches
                Some(all) && all == out.deep_view() + fs),
        decreases len - i,
    {
        let ghost fs_here = parse_fields_at(s@, i as int);
        let field: String;
        let j: usize;
        let is_quoted = if i < len {
            let c0 = s.get_char(i);
            c0 == '"'
        } else {
            false
        };
        if is_quoted {
            match quoted_parse(s, i + 1, len) {
                None => {
                    proof {
                        assert(parse_field_at(s@, i as int) is None);
                        assert(fs_here is None);
                    }
                    return None;
                },
                Some(q) => {
                    field = q.0;
                    j = q.1;
                },
            }
        } else {
            j = raw_scan(s, i, len);
            field = substr_copy(s, i, j);
            proof {
                assert(parse_field_at(s@, i as int) == Some(
                    (s@.subrange(i as int, raw_end(s@, i as int)), raw_end(s@, i as int)),
                ));
            }
        }
        proof {
            assert(parse_field_at(s@, i as int) == Some((field@, j as int)));
        }
        let ghost out_before = out.deep_view();
        let ghost fv = field@;
        out.push(field);
        proof {
            assert(out.deep_view() =~= out_before.push(fv));
        }
        if j >= len {
            proof {
                assert(fs_here == Some(seq![fv]));
                assert(out_before + seq![fv] =~= out.deep_view());
            }
            return Some(out);
        }
        let cj = s.get_char(j);
        if cj != ',' {
            proof {
                assert(fs_here is None);
            }
            return None;
        }
        proof {
            assert(parse_fields_at(s@, j as int + 1) is None ==> fs_here is None);
            assert(parse_fields_at(s@, j as int + 1) matches Some(rest) ==> fs_here == Some(
                seq![fv] + rest,
            ));
            assert(parse_fields_at(s@, j as int + 1) matches Some(rest) ==> (out_before + (
            seq![fv] + rest) =~= out.deep_view() + rest));
        }
        i = j + 1;
    }
}

/// A copy of the characters of `s` from `from` to `to`.
fn substr_copy(s: &str, from: usize, to: usize) -> (out: String)
    requires
        from <= to <= s@.len(),
    ensures
        out@ == s@.subrange(from as int, to as int),
{
    let sub = s.substring_char(from, to);
    sub.to_owned()
}

} // verus!
