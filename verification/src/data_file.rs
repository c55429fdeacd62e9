//! The record file's format: one header row, then one comma-separated row
//! per tracked process, `name,time,is_prod`. A name containing a comma,
//! quote, newline or carriage return is written double-quoted, with inner
//! quotes doubled. Encoding and parsing are pure functions between the
//! accumulator and the file's text; reading and writing the file itself is
//! the surrounding process's job.

use crate::recorder::{
    spec_fold_rows, spec_lookup, spec_seconds_of, spec_unique_names, Accumulator, ProcessRecord,
    RecorderError,
};

use vstd::prelude::*;
use vstd::string::StrSliceExecFns;

verus! {

/// Characters that force a name into quotes.
pub open spec fn spec_is_special(c: char) -> bool {
    c == ',' || c == '"' || c == '\n' || c == '\r'
}

pub open spec fn spec_needs_quote(s: Seq<char>) -> bool {
    exists|i: int| 0 <= i < s.len() && spec_is_special(#[trigger] s[i])
}

/// A name with its quotes doubled.
pub open spec fn spec_dq(s: Seq<char>) -> Seq<char>
    decreases s.len(),
{
    if s.len() == 0 {
        Seq::empty()
    } else {
        (if s[0] == '"' {
            seq!['"', '"']
        } else {
            seq![s[0]]
        }) + spec_dq(s.drop_first())
    }
}

/// A name as it stands in the file: bare, or quoted with quotes doubled.
pub open spec fn spec_enc_field(s: Seq<char>) -> Seq<char> {
    if spec_needs_quote(s) {
        seq!['"'] + spec_dq(s) + seq!['"']
    } else {
        s
    }
}

pub open spec fn spec_digit_char(d: int) -> char {
    seq!['0', '1', '2', '3', '4', '5', '6', '7', '8', '9'][d]
}

pub open spec fn spec_is_digit(c: char) -> bool {
    ||| c == '0'
    ||| c == '1'
    ||| c == '2'
    ||| c == '3'
    ||| c == '4'
    ||| c == '5'
    ||| c == '6'
    ||| c == '7'
    ||| c == '8'
    ||| c == '9'
}

pub open spec fn spec_digit_val(c: char) -> int {
    if c == '0' {
        0
    } else if c == '1' {
        1
    } else if c == '2' {
        2
    } else if c == '3' {
        3
    } else if c == '4' {
        4
    } else if c == '5' {
        5
    } else if c == '6' {
        6
    } else if c == '7' {
        7
    } else if c == '8' {
        8
    } else if c == '9' {
        9
    } else {
        0
    }
}

/// A number in decimal, most significant digit first.
pub open spec fn spec_digits(n: nat) -> Seq<char>
    decreases n,
{
    if n < 10 {
        seq![spec_digit_char(n as int)]
    } else {
        spec_digits(n / 10) + seq![spec_digit_char((n % 10) as int)]
    }
}

pub open spec fn spec_bool_chars(b: bool) -> Seq<char> {
    if b {
        seq!['t', 'r', 'u', 'e']
    } else {
        seq!['f', 'a', 'l', 's', 'e']
    }
}

/// One row of the file, newline-terminated.
pub open spec fn spec_encode_row(t: (Seq<char>, u64, bool)) -> Seq<char> {
    spec_enc_field(t.0) + seq![','] + spec_digits(t.1 as nat) + seq![','] + spec_bool_chars(t.2)
        + seq!['\n']
}

pub open spec fn spec_encode_rows(m: Seq<(Seq<char>, u64, bool)>) -> Seq<char>
    decreases m.len(),
{
    if m.len() == 0 {
        Seq::empty()
    } else {
        spec_encode_row(m[0]) + spec_encode_rows(m.drop_first())
    }
}

/// The header row, newline-terminated.
pub open spec fn spec_header() -> Seq<char> {
    seq!['n', 'a', 'm', 'e', ',', 't', 'i', 'm', 'e', ',', 'i', 's', '_', 'p', 'r', 'o', 'd', '\n']
}

/// The whole file: the header, then one row per record, in order.
pub open spec fn spec_encode(m: Seq<(Seq<char>, u64, bool)>) -> Seq<char> {
    spec_header() + spec_encode_rows(m)
}

/// Relies on `String::push`: appends exactly the one character.
#[verifier::external_body]
fn push_char(s: &mut String, c: char)
    ensures
        final(s)@ == old(s)@.push(c),
{
    s.push(c);
}

fn digit_char(d: u64) -> (c: char)
    requires
        d < 10,
    ensures
        c == spec_digit_char(d as int),
{
    if d == 0 {
        '0'
    } else if d == 1 {
        '1'
    } else if d == 2 {
        '2'
    } else if d == 3 {
        '3'
    } else if d == 4 {
        '4'
    } else if d == 5 {
        '5'
    } else if d == 6 {
        '6'
    } else if d == 7 {
        '7'
    } else if d == 8 {
        '8'
    } else {
        '9'
    }
}

fn push_digits(out: &mut String, n: u64)
    ensures
        final(out)@ == old(out)@ + spec_digits(n as nat),
    decreases n,
{
    if n < 10 {
        push_char(out, digit_char(n));
        proof {
            assert(old(out)@.push(spec_digit_char(n as int)) =~= old(out)@ + spec_digits(n as nat));
        }
    } else {
        push_digits(out, n / 10);
        push_char(out, digit_char(n % 10));
        proof {
            assert((old(out)@ + spec_digits((n / 10) as nat)).push(
                spec_digit_char((n % 10) as int),
            ) =~= old(out)@ + spec_digits(n as nat));
        }
    }
}

proof fn lemma_dq_snoc(s: Seq<char>, c: char)
    ensures
        spec_dq(s.push(c)) == spec_dq(s) + (if c == '"' {
            seq!['"', '"']
        } else {
            seq![c]
        }),
    decreases s.len(),
{
    let piece = if c == '"' {
        seq!['"', '"']
    } else {
        seq![c]
    };
    if s.len() == 0 {
        assert(s.push(c).len() == 1);
        assert(s.push(c)[0] == c);
        assert(s.push(c).drop_first() =~= Seq::<char>::empty());
        assert(spec_dq(Seq::<char>::empty()) == Seq::<char>::empty());
        assert(spec_dq(s.push(c)) == (if s.push(c)[0] == '"' {
            seq!['"', '"']
        } else {
            seq![s.push(c)[0]]
        }) + spec_dq(s.push(c).drop_first()));
        assert((if s.push(c)[0] == '"' {
            seq!['"', '"']
        } else {
            seq![s.push(c)[0]]
        }) =~= piece);
        assert(piece + Seq::<char>::empty() =~= piece);
        assert(spec_dq(s) =~= Seq::<char>::empty());
        assert(spec_dq(s) + piece =~= piece);
    } else {
        assert(s.push(c)[0] == s[0]);
        assert(s.push(c).drop_first() =~= s.drop_first().push(c));
        lemma_dq_snoc(s.drop_first(), c);
        let head = if s[0] == '"' {
            seq!['"', '"']
        } else {
            seq![s[0]]
        };
        assert(spec_dq(s.push(c)) == head + (spec_dq(s.drop_first()) + piece));
        assert(head + (spec_dq(s.drop_first()) + piece) =~= (head + spec_dq(s.drop_first()))
            + piece);
    }
}

fn is_special(c: char) -> (r: bool)
    ensures
        r == spec_is_special(c),
{
    c == ',' || c == '"' || c == '\n' || c == '\r'
}

fn field_needs_quote(name: &str) -> (r: bool)
    ensures
        r == spec_needs_quote(name@),
{
    let n = name.unicode_len();
    let mut i: usize = 0;
    while i < n
        invariant
            n == name@.len(),
            i <= n,
            forall|k: int| 0 <= k < i ==> !spec_is_special(#[trigger] name@[k]),
        decreases n - i,
    {
        if is_special(name.get_char(i)) {
            return true;
        }
        i += 1;
    }
    false
}

/// Appends a name as a file field, quoting it when it needs quotes.
fn push_field(out: &mut String, name: &str)
    ensures
        final(out)@ == old(out)@ + spec_enc_field(name@),
{
    let needs = field_needs_quote(name);
    let n = name.unicode_len();
    if needs {
        push_char(out, '"');
        let mut i: usize = 0;
        while i < n
            invariant
                n == name@.len(),
                i <= n,
                out@ == old(out)@ + seq!['"'] + spec_dq(name@.take(i as int)),
            decreases n - i,
        {
            let c = name.get_char(i);
            proof {
                assert(name@.take(i as int).push(c) =~= name@.take(i as int + 1));
                lemma_dq_snoc(name@.take(i as int), c);
            }
            if c == '"' {
                push_char(out, '"');
                push_char(out, '"');
                proof {
                    assert((old(out)@ + seq!['"'] + spec_dq(name@.take(i as int))).push('"').push(
                        '"',
                    ) =~= old(out)@ + seq!['"'] + spec_dq(name@.take(i as int + 1)));
                }
            } else {
                push_char(out, c);
                proof {
                    assert((old(out)@ + seq!['"'] + spec_dq(name@.take(i as int))).push(c) =~= old(
                        out,
                    )@ + seq!['"'] + spec_dq(name@.take(i as int + 1)));
                }
            }
            i += 1;
        }
        push_char(out, '"');
        proof {
            assert(name@.take(n as int) =~= name@);
            assert((old(out)@ + seq!['"'] + spec_dq(name@)).push('"') =~= old(out)@ + (seq!['"']
                + spec_dq(name@) + seq!['"']));
        }
    } else {
        let mut i: usize = 0;
        proof {
            assert(old(out)@ + name@.take(0) =~= old(out)@);
        }
        while i < n
            invariant
                n == name@.len(),
                i <= n,
                out@ == old(out)@ + name@.take(i as int),
            decreases n - i,
        {
            let c = name.get_char(i);
            push_char(out, c);
            proof {
                assert((old(out)@ + name@.take(i as int)).push(c) =~= old(out)@ + name@.take(
                    i as int + 1,
                ));
            }
            i += 1;
        }
        proof {
            assert(name@.take(n as int) =~= name@);
        }
    }
}

proof fn lemma_encode_rows_snoc(m: Seq<(Seq<char>, u64, bool)>, i: int)
    requires
        0 <= i < m.len(),
    ensures
        spec_encode_rows(m.take(i + 1)) == spec_encode_rows(m.take(i)) + spec_encode_row(m[i]),
    decreases i,
{
    if i == 0 {
        assert(m.take(1).len() == 1);
        assert(m.take(1)[0] == m[0]);
        assert(m.take(1).drop_first() =~= m.take(0));
        assert(spec_encode_rows(m.take(0)) =~= Seq::<char>::empty());
        assert(spec_encode_rows(m.take(1)) == spec_encode_row(m[0]) + spec_encode_rows(m.take(0)));
        assert(spec_encode_row(m[0]) + Seq::<char>::empty() =~= spec_encode_row(m[0]));
        assert(Seq::<char>::empty() + spec_encode_row(m[0]) =~= spec_encode_row(m[0]));
    } else {
        assert(m.take(i + 1).len() == i + 1);
        assert(m.take(i + 1)[0] == m[0]);
        assert(m.take(i + 1).drop_first() =~= m.drop_first().take(i));
        assert(m.take(i).len() == i);
        assert(m.take(i)[0] == m[0]);
        assert(m.take(i).drop_first() =~= m.drop_first().take(i - 1));
        lemma_encode_rows_snoc(m.drop_first(), i - 1);
        assert(m.drop_first()[i - 1] == m[i]);
        assert(spec_encode_rows(m.take(i + 1)) == spec_encode_row(m[0]) + (spec_encode_rows(
            m.drop_first().take(i - 1),
        ) + spec_encode_row(m[i])));
        assert(spec_encode_rows(m.take(i)) == spec_encode_row(m[0]) + spec_encode_rows(
            m.drop_first().take(i - 1),
        ));
        assert(spec_encode_row(m[0]) + (spec_encode_rows(m.drop_first().take(i - 1))
            + spec_encode_row(m[i])) =~= (spec_encode_row(m[0]) + spec_encode_rows(
            m.drop_first().take(i - 1),
        )) + spec_encode_row(m[i]));
    }
}

/// The accumulator as the record file's full text.
pub fn encode_data(acc: &Accumulator) -> (out: String)
    ensures
        out@ == spec_encode(acc.model()),
{
    let mut out = String::new();
    out.append("name,time,is_prod\n");
    proof {
        reveal_strlit("name,time,is_prod\n");
        assert(out@ =~= spec_header());
        assert(acc.model().take(0) =~= Seq::<(Seq<char>, u64, bool)>::empty());
        assert(out@ + spec_encode_rows(acc.model().take(0)) =~= out@);
    }
    let ghost m = acc.model();
    let records = acc.records();
    let mut i: usize = 0;
    while i < records.len()
        invariant
            i <= records.len(),
            records@.len() == m.len(),
            forall|k: int| 0 <= k < m.len() ==> #[trigger] m[k] == records@[k].model(),
            out@ == spec_header() + spec_encode_rows(m.take(i as int)),
        decreases records.len() - i,
    {
        let ghost before = out@;
        push_field(&mut out, records[i].name.as_str());
        push_char(&mut out, ',');
        push_digits(&mut out, records[i].focused_seconds);
        push_char(&mut out, ',');
        if records[i].is_productive {
            out.append("true");
            proof {
                reveal_strlit("true");
            }
        } else {
            out.append("false");
            proof {
                reveal_strlit("false");
            }
        }
        push_char(&mut out, '\n');
        proof {
            lemma_encode_rows_snoc(m, i as int);
            assert(out@ =~= before + spec_encode_row(m[i as int]));
            assert(out@ =~= spec_header() + spec_encode_rows(m.take(i as int + 1)));
        }
        i += 1;
    }
    proof {
        assert(m.take(m.len() as int) =~= m);
    }
    out
}

/// A quoted field read from after its opening quote: the field's characters
/// (doubled quotes collapsed) and what follows the closing quote; nothing
/// when the text ends before the field closes.
pub open spec fn spec_parse_quoted(s: Seq<char>) -> Option<(Seq<char>, Seq<char>)>
    decreases s.len(),
{
    if s.len() == 0 {
        None
    } else if s[0] == '"' {
        if s.len() >= 2 && s[1] == '"' {
            match spec_parse_quoted(s.skip(2)) {
                Some(p) => Some((seq!['"'] + p.0, p.1)),
                None => None,
            }
        } else {
            Some((Seq::empty(), s.drop_first()))
        }
    } else {
        match spec_parse_quoted(s.drop_first()) {
            Some(p) => Some((seq![s[0]] + p.0, p.1)),
            None => None,
        }
    }
}

/// A bare field: everything up to the next comma or newline.
pub open spec fn spec_parse_unquoted(s: Seq<char>) -> (Seq<char>, Seq<char>)
    decreases s.len(),
{
    if s.len() == 0 {
        (Seq::empty(), Seq::empty())
    } else if s[0] == ',' || s[0] == '\n' {
        (Seq::empty(), s)
    } else {
        let p = spec_parse_unquoted(s.drop_first());
        (seq![s[0]] + p.0, p.1)
    }
}

/// A name field, quoted or bare.
pub open spec fn spec_parse_field(s: Seq<char>) -> Option<(Seq<char>, Seq<char>)> {
    if s.len() > 0 && s[0] == '"' {
        spec_parse_quoted(s.drop_first())
    } else {
        Some(spec_parse_unquoted(s))
    }
}

/// The longest run of digits at the front, and what follows it.
pub open spec fn spec_parse_digits(s: Seq<char>) -> (Seq<char>, Seq<char>)
    decreases s.len(),
{
    if s.len() == 0 {
        (Seq::empty(), Seq::empty())
    } else if spec_is_digit(s[0]) {
        let p = spec_parse_digits(s.drop_first());
        (seq![s[0]] + p.0, p.1)
    } else {
        (Seq::empty(), s)
    }
}

/// The number a run of digits denotes.
pub open spec fn spec_digits_value(ds: Seq<char>) -> int
    decreases ds.len(),
{
    if ds.len() == 0 {
        0
    } else {
        spec_digits_value(ds.drop_last()) * 10 + spec_digit_val(ds.last())
    }
}

/// Reads the string form of one productivity flag and hands back the rest.
pub open spec fn spec_parse_bool(s: Seq<char>) -> Option<(bool, Seq<char>)> {
    if s.len() >= 4 && s.take(4) == spec_bool_chars(true) {
        Some((true, s.skip(4)))
    } else if s.len() >= 5 && s.take(5) == spec_bool_chars(false) {
        Some((false, s.skip(5)))
    } else {
        None
    }
}

/// One data row: name, seconds and flag, separated by commas and closed by a
/// newline or the end of the text.
pub open spec fn spec_parse_row(s: Seq<char>) -> Option<((Seq<char>, u64, bool), Seq<char>)> {
    match spec_parse_field(s) {
        None => None,
        Some(f) => {
            let name = f.0;
            let r1 = f.1;
            if r1.len() > 0 && r1[0] == ',' {
                let d = spec_parse_digits(r1.drop_first());
                if d.0.len() == 0 || spec_digits_value(d.0) > u64::MAX {
                    None
                } else {
                    let r2 = d.1;
                    if r2.len() > 0 && r2[0] == ',' {
                        match spec_parse_bool(r2.drop_first()) {
                            None => None,
                            Some(b) => {
                                let r3 = b.1;
                                if r3.len() == 0 {
                                    Some(((name, spec_digits_value(d.0) as u64, b.0), r3))
                                } else if r3[0] == '\n' {
                                    Some(
                                        (
                                            (name, spec_digits_value(d.0) as u64, b.0),
                                            r3.drop_first(),
                                        ),
                                    )
                                } else {
                                    None
                                }
                            },
                        }
                    } else {
                        None
                    }
                }
            } else {
                None
            }
        },
    }
}

/// All data rows of the text, in order; nothing when any row is malformed.
pub open spec fn spec_parse_rows(s: Seq<char>) -> Option<Seq<(Seq<char>, u64, bool)>>
    decreases s.len(),
{
    if s.len() == 0 {
        Some(Seq::empty())
    } else {
        match spec_parse_row(s) {
            None => None,
            Some(p) => {
                if p.1.len() < s.len() {
                    match spec_parse_rows(p.1) {
                        None => None,
                        Some(rest) => Some(seq![p.0] + rest),
                    }
                } else {
                    None
                }
            },
        }
    }
}

/// Everything after the first newline: the text with its header row gone.
pub open spec fn spec_skip_header(s: Seq<char>) -> Seq<char>
    decreases s.len(),
{
    if s.len() == 0 {
        Seq::empty()
    } else if s[0] == '\n' {
        s.drop_first()
    } else {
        spec_skip_header(s.drop_first())
    }
}

/// What the record file's text holds: its data rows, after the header row.
pub open spec fn spec_parse_data(s: Seq<char>) -> Option<Seq<(Seq<char>, u64, bool)>> {
    spec_parse_rows(spec_skip_header(s))
}

/// The rows with each productivity flag recomputed against the productive
/// list: the file caches accumulated time, not classification.
pub open spec fn spec_recompute(
    rows: Seq<(Seq<char>, u64, bool)>,
    prods: Seq<Seq<char>>,
) -> Seq<(Seq<char>, u64, bool)> {
    rows.map_values(|t: (Seq<char>, u64, bool)| (t.0, t.1, prods.contains(t.0)))
}

/// A row list as plain triples.
pub open spec fn spec_rows_model(rows: Seq<ProcessRecord>) -> Seq<(Seq<char>, u64, bool)> {
    rows.map_values(|rec: ProcessRecord| rec.model())
}

/// The text as an indexable sequence of characters.
fn str_to_chars(s: &str) -> (v: Vec<char>)
    ensures
        v@ == s@,
{
    let n = s.unicode_len();
    let mut v: Vec<char> = Vec::new();
    while v.len() < n
        invariant
            n == s@.len(),
            v.len() <= n,
            v@ == s@.take(v.len() as int),
        decreases n - v.len(),
    {
        let c = s.get_char(v.len());
        v.push(c);
        proof {
            assert(s@.take(v@.len() as int - 1).push(c) =~= s@.take(v@.len() as int));
        }
    }
    proof {
        assert(s@.take(s@.len() as int) =~= s@);
    }
    v
}

/// Scans a quoted field, the cursor standing after the opening quote.
fn scan_quoted(cs: &Vec<char>, start: usize) -> (r: Option<(String, usize)>)
    requires
        start <= cs@.len(),
    ensures
        match r {
            Some(p) => start <= p.1 <= cs@.len() && spec_parse_quoted(cs@.skip(start as int))
                == Some((p.0@, cs@.skip(p.1 as int))),
            None => spec_parse_quoted(cs@.skip(start as int)) is None,
        },
{
    let mut j: usize = start;
    let mut name = String::new();
    while j < cs.len()
        invariant
            start <= j <= cs@.len(),
            ({
                let o = spec_parse_quoted(cs@.skip(j as int));
                match o {
                    Some(p) => spec_parse_quoted(cs@.skip(start as int)) == Some(
                        (name@ + p.0, p.1),
                    ),
                    None => spec_parse_quoted(cs@.skip(start as int)) is None,
                }
            }),
        decreases cs@.len() - j,
    {
        proof {
            assert(cs@.skip(j as int)[0] == cs@[j as int]);
            assert(cs@.skip(j as int).drop_first() =~= cs@.skip(j as int + 1));
        }
        let c = cs[j];
        if c == '"' {
            if j + 1 < cs.len() && cs[j + 1] == '"' {
                proof {
                    assert(cs@.skip(j as int)[1] == cs@[j as int + 1]);
                    assert(cs@.skip(j as int).skip(2) =~= cs@.skip(j as int + 2));
                }
                let ghost name0 = name@;
                push_char(&mut name, '"');
                proof {
                    assert forall|f: Seq<char>| #[trigger] (name0 + (seq!['"'] + f)) =~= name@
                        + f by {
                        assert(name@ =~= name0.push('"'));
                        assert(name0 + (seq!['"'] + f) =~= name0.push('"') + f);
                    }
                }
                j += 2;
            } else {
                proof {
                    assert(spec_parse_quoted(cs@.skip(j as int)) == Some(
                        (Seq::<char>::empty(), cs@.skip(j as int + 1)),
                    ));
                    assert(name@ + Seq::<char>::empty() =~= name@);
                }
                return Some((name, j + 1));
            }
        } else {
            let ghost name0 = name@;
            push_char(&mut name, c);
            proof {
                assert forall|f: Seq<char>| #[trigger] (name0 + (seq![cs@[j as int]] + f)) =~= name@
                    + f by {
                    assert(name@ =~= name0.push(cs@[j as int]));
                    assert(name0 + (seq![cs@[j as int]] + f) =~= name0.push(cs@[j as int]) + f);
                }
            }
            j += 1;
        }
    }
    proof {
        assert(cs@.skip(j as int).len() == 0);
    }
    None
}

/// Scans a bare field: everything up to the next comma or newline.
fn scan_unquoted(cs: &Vec<char>, start: usize) -> (r: (String, usize))
    requires
        start <= cs@.len(),
    ensures
        start <= r.1 <= cs@.len(),
        spec_parse_unquoted(cs@.skip(start as int)) == (r.0@, cs@.skip(r.1 as int)),
{
    let mut j: usize = start;
    let mut name = String::new();
    while j < cs.len()
        invariant
            start <= j <= cs@.len(),
            ({
                let p = spec_parse_unquoted(cs@.skip(j as int));
                spec_parse_unquoted(cs@.skip(start as int)) == (name@ + p.0, p.1)
            }),
        decreases cs@.len() - j,
    {
        proof {
            assert(cs@.skip(j as int)[0] == cs@[j as int]);
            assert(cs@.skip(j as int).drop_first() =~= cs@.skip(j as int + 1));
        }
        let c = cs[j];
        if c == ',' || c == '\n' {
            proof {
                assert(name@ + Seq::<char>::empty() =~= name@);
            }
            return (name, j);
        }
        let ghost name0 = name@;
        push_char(&mut name, c);
        proof {
            assert forall|f: Seq<char>| #[trigger] (name0 + (seq![cs@[j as int]] + f)) =~= name@
                + f by {
                assert(name@ =~= name0.push(cs@[j as int]));
                assert(name0 + (seq![cs@[j as int]] + f) =~= name0.push(cs@[j as int]) + f);
            }
        }
        j += 1;
    }
    proof {
        assert(cs@.skip(j as int).len() == 0);
        assert(name@ + Seq::<char>::empty() =~= name@);
    }
    (name, j)
}

/// Digit values never push a number down.
proof fn lemma_digits_value_nonneg(ds: Seq<char>)
    ensures
        0 <= spec_digits_value(ds),
    decreases ds.len(),
{
    if ds.len() > 0 {
        lemma_digits_value_nonneg(ds.drop_last());
    }
}

/// Every digit appended multiplies the value; a prefix never exceeds the
/// whole run.
proof fn lemma_digits_value_snoc(ds: Seq<char>, k: int)
    requires
        0 <= k < ds.len(),
    ensures
        spec_digits_value(ds.take(k + 1)) == spec_digits_value(ds.take(k)) * 10 + spec_digit_val(
            ds[k],
        ),
{
    assert(ds.take(k + 1).drop_last() =~= ds.take(k));
    assert(ds.take(k + 1).last() == ds[k]);
}

proof fn lemma_digits_value_prefix(ds: Seq<char>, k: int)
    requires
        0 <= k <= ds.len(),
    ensures
        spec_digits_value(ds.take(k)) <= spec_digits_value(ds),
    decreases ds.len() - k,
{
    if k < ds.len() {
        lemma_digits_value_snoc(ds, k);
        lemma_digits_value_nonneg(ds.take(k));
        assert(spec_digits_value(ds.take(k)) * 10 >= spec_digits_value(ds.take(k))) by (nonlinear_arith)
            requires spec_digits_value(ds.take(k)) >= 0;
        lemma_digits_value_prefix(ds, k + 1);
    } else {
        assert(ds.take(k) =~= ds);
    }
}

/// The digit a character stands for, if it is a digit.
fn digit_val_of(c: char) -> (r: Option<u64>)
    ensures
        r is Some <==> spec_is_digit(c),
        r is Some ==> r == Some(spec_digit_val(c) as u64),
{
    if c == '0' {
        Some(0)
    } else if c == '1' {
        Some(1)
    } else if c == '2' {
        Some(2)
    } else if c == '3' {
        Some(3)
    } else if c == '4' {
        Some(4)
    } else if c == '5' {
        Some(5)
    } else if c == '6' {
        Some(6)
    } else if c == '7' {
        Some(7)
    } else if c == '8' {
        Some(8)
    } else if c == '9' {
        Some(9)
    } else {
        None
    }
}

/// Scans the digit run at the cursor and reads its value: the value when the
/// run is non-empty and fits, nothing otherwise; either way the cursor lands
/// right after the run.
fn scan_number(cs: &Vec<char>, start: usize) -> (r: (Option<u64>, usize))
    requires
        start <= cs@.len(),
    ensures
        start <= r.1 <= cs@.len(),
        ({
            let d = spec_parse_digits(cs@.skip(start as int));
            &&& d.1 == cs@.skip(r.1 as int)
            &&& d.0 == cs@.skip(start as int).take(r.1 - start)
            &&& match r.0 {
                Some(v) => d.0.len() > 0 && spec_digits_value(d.0) == v,
                None => d.0.len() == 0 || spec_digits_value(d.0) > u64::MAX,
            }
        }),
{
    let ghost s0 = cs@.skip(start as int);
    let mut j: usize = start;
    while j < cs.len() && digit_val_of(cs[j]).is_some()
        invariant
            start <= j <= cs@.len(),
            forall|k: int| start <= k < j ==> spec_is_digit(#[trigger] cs@[k]),
            s0 == cs@.skip(start as int),
            ({
                let d = spec_parse_digits(cs@.skip(j as int));
                &&& spec_parse_digits(s0).1 == d.1
                &&& spec_parse_digits(s0).0 == s0.take(j - start) + d.0
            }),
        decreases cs@.len() - j,
    {
        proof {
            assert(cs@.skip(j as int)[0] == cs@[j as int]);
            assert(cs@.skip(j as int).drop_first() =~= cs@.skip(j as int + 1));
            assert(s0.take(j - start as int).push(cs@[j as int]) =~= s0.take(j + 1 - start as int));
            assert forall|f: Seq<char>|
                #[trigger] (s0.take(j - start as int) + (seq![cs@[j as int]] + f)) =~= s0.take(
                j + 1 - start as int,
            ) + f by {
                assert(s0.take(j - start as int) + (seq![cs@[j as int]] + f) =~= s0.take(
                    j - start as int,
                ).push(cs@[j as int]) + f);
            }
        }
        j += 1;
    }
    proof {
        if j < cs@.len() {
            assert(cs@.skip(j as int)[0] == cs@[j as int]);
        } else {
            assert(cs@.skip(j as int).len() == 0);
        }
        assert(spec_parse_digits(cs@.skip(j as int)) == (
            Seq::<char>::empty(),
            cs@.skip(j as int),
        ));
        assert(s0.take(j - start as int) + Seq::<char>::empty() =~= s0.take(j - start as int));
    }
    let ghost run = spec_parse_digits(s0).0;
    if j == start {
        return (None, j);
    }
    let mut v: u64 = 0;
    let mut k: usize = start;
    proof {
        assert(run.take(0) =~= Seq::<char>::empty());
    }
    while k < j
        invariant
            start <= k <= j <= cs@.len(),
            forall|t: int| start <= t < j ==> spec_is_digit(#[trigger] cs@[t]),
            s0 == cs@.skip(start as int),
            run == s0.take(j - start as int),
            run == spec_parse_digits(s0).0,
            spec_parse_digits(s0).1 == cs@.skip(j as int),
            v == spec_digits_value(run.take(k - start as int)),
        decreases j - k,
    {
        proof {
            assert(run[k - start as int] == cs@[k as int]);
            lemma_digits_value_snoc(run, k - start as int);
        }
        let d = match digit_val_of(cs[k]) {
            Some(d) => d,
            None => 0,
        };
        let v10 = match v.checked_mul(10) {
            Some(x) => x,
            None => {
                proof {
                    lemma_digits_value_nonneg(run.take(k - start as int));
                    lemma_digits_value_prefix(run, k + 1 - start as int);
                    assert(spec_digits_value(run.take(k + 1 - start as int)) > u64::MAX);
                }
                return (None, j);
            },
        };
        let v2 = match v10.checked_add(d) {
            Some(x) => x,
            None => {
                proof {
                    lemma_digits_value_prefix(run, k + 1 - start as int);
                }
                return (None, j);
            },
        };
        v = v2;
        k += 1;
    }
    proof {
        assert(run.take(j - start as int) =~= run);
    }
    (Some(v), j)
}

/// Parses one name field at the cursor.
fn parse_field_at(cs: &Vec<char>, start: usize) -> (r: Option<(String, usize)>)
    requires
        start <= cs@.len(),
    ensures
        match r {
            Some(p) => start <= p.1 <= cs@.len() && spec_parse_field(cs@.skip(start as int))
                == Some((p.0@, cs@.skip(p.1 as int))),
            None => spec_parse_field(cs@.skip(start as int)) is None,
        },
{
    if start < cs.len() && cs[start] == '"' {
        proof {
            assert(cs@.skip(start as int)[0] == cs@[start as int]);
            assert(cs@.skip(start as int).drop_first() =~= cs@.skip(start as int + 1));
        }
        scan_quoted(cs, start + 1)
    } else {
        proof {
            if start < cs@.len() {
                assert(cs@.skip(start as int)[0] == cs@[start as int]);
            } else {
                assert(cs@.skip(start as int).len() == 0);
            }
        }
        let p = scan_unquoted(cs, start);
        Some(p)
    }
}

/// Parses one data row at the cursor: the name, the seconds and the stored
/// flag, and the position of the next row.
fn parse_row_at(cs: &Vec<char>, start: usize) -> (r: Option<((String, u64, bool), usize)>)
    requires
        start <= cs@.len(),
    ensures
        match r {
            Some(p) => start < p.1 <= cs@.len() && spec_parse_row(cs@.skip(start as int)) == Some(
                ((p.0.0@, p.0.1, p.0.2), cs@.skip(p.1 as int)),
            ),
            None => spec_parse_row(cs@.skip(start as int)) is None,
        },
{
    let ghost s0 = cs@.skip(start as int);
    let (name, i1) = match parse_field_at(cs, start) {
        Some(p) => p,
        None => {
            return None;
        },
    };
    if !(i1 < cs.len() && cs[i1] == ',') {
        proof {
            if i1 < cs@.len() {
                assert(cs@.skip(i1 as int)[0] == cs@[i1 as int]);
            } else {
                assert(cs@.skip(i1 as int).len() == 0);
            }
        }
        return None;
    }
    proof {
        assert(cs@.skip(i1 as int)[0] == cs@[i1 as int]);
        assert(cs@.skip(i1 as int).drop_first() =~= cs@.skip(i1 as int + 1));
    }
    let (num, i2) = scan_number(cs, i1 + 1);
    let secs = match num {
        Some(v) => v,
        None => {
            return None;
        },
    };
    if !(i2 < cs.len() && cs[i2] == ',') {
        proof {
            if i2 < cs@.len() {
                assert(cs@.skip(i2 as int)[0] == cs@[i2 as int]);
            } else {
                assert(cs@.skip(i2 as int).len() == 0);
            }
        }
        return None;
    }
    proof {
        assert(cs@.skip(i2 as int)[0] == cs@[i2 as int]);
        assert(cs@.skip(i2 as int).drop_first() =~= cs@.skip(i2 as int + 1));
    }
    let i3 = i2 + 1;
    let ghost s3 = cs@.skip(i3 as int);
    let rem = cs.len() - i3;
    let (flag, i4) = if rem >= 4 && cs[i3] == 't' && cs[i3 + 1] == 'r' && cs[i3 + 2] == 'u' && cs[i3
        + 3] == 'e' {
        proof {
            assert(s3.take(4) =~= spec_bool_chars(true));
            assert(s3.skip(4) =~= cs@.skip(i3 as int + 4));
        }
        (true, i3 + 4)
    } else if rem >= 5 && cs[i3] == 'f' && cs[i3 + 1] == 'a' && cs[i3 + 2] == 'l' && cs[i3 + 3]
        == 's' && cs[i3 + 4] == 'e' {
        proof {
            assert(s3.take(5) =~= spec_bool_chars(false));
            assert(s3.skip(5) =~= cs@.skip(i3 as int + 5));
        }
        (false, i3 + 5)
    } else {
        proof {
            assert(spec_parse_bool(s3) is None) by {
                if s3.len() >= 4 && s3.take(4) == spec_bool_chars(true) {
                    assert(s3[0] == cs@[i3 as int] && s3[1] == cs@[i3 as int + 1] && s3[2] == cs@[
                        i3 as int + 2] && s3[3] == cs@[i3 as int + 3]);
                    assert(s3.take(4)[0] == 't' && s3.take(4)[1] == 'r' && s3.take(4)[2] == 'u'
                        && s3.take(4)[3] == 'e');
                    assert(false);
                }
                if s3.len() >= 5 && s3.take(5) == spec_bool_chars(false) {
                    assert(s3[0] == cs@[i3 as int] && s3[1] == cs@[i3 as int + 1] && s3[2] == cs@[
                        i3 as int + 2] && s3[3] == cs@[i3 as int + 3] && s3[4] == cs@[i3 as int
                        + 4]);
                    assert(s3.take(5)[0] == 'f' && s3.take(5)[1] == 'a' && s3.take(5)[2] == 'l'
                        && s3.take(5)[3] == 's' && s3.take(5)[4] == 'e');
                    assert(false);
                }
            }
        }
        return None;
    };
    proof {
        if i4 < cs@.len() {
            assert(cs@.skip(i4 as int)[0] == cs@[i4 as int]);
        } else {
            assert(cs@.skip(i4 as int).len() == 0);
        }
    }
    if i4 == cs.len() {
        Some(((name, secs, flag), i4))
    } else if cs[i4] == '\n' {
        proof {
            assert(cs@.skip(i4 as int).drop_first() =~= cs@.skip(i4 as int + 1));
        }
        Some(((name, secs, flag), i4 + 1))
    } else {
        None
    }
}

/// The record file's text as an accumulator: every row is loaded, its
/// productivity flag recomputed against the current productive list; a
/// malformed file is refused.
pub fn parse_data(text: &str, productive: &Vec<String>) -> (r: Result<Accumulator, RecorderError>)
    ensures
        match spec_parse_data(text@) {
            Some(rows) => match r {
                Ok(a) => a.wf() && a.model() == spec_fold_rows(
                    Seq::<(Seq<char>, u64, bool)>::empty(),
                    spec_recompute(rows, productive.deep_view()),
                ),
                Err(_) => false,
            },
            None => r matches Err(RecorderError::CsvError(_)),
        },
{
    let cs = str_to_chars(text);
    let ghost prods = productive.deep_view();

    let mut i: usize = 0;
    proof {
        assert(cs@.skip(0) =~= cs@);
    }
    while i < cs.len() && cs[i] != '\n'
        invariant
            i <= cs@.len(),
            cs@ == text@,
            spec_skip_header(text@) == spec_skip_header(cs@.skip(i as int)),
        decreases cs@.len() - i,
    {
        proof {
            assert(cs@.skip(i as int)[0] == cs@[i as int]);
            assert(cs@.skip(i as int).drop_first() =~= cs@.skip(i as int + 1));
        }
        i += 1;
    }
    proof {
        if i < cs@.len() {
            assert(cs@.skip(i as int)[0] == cs@[i as int]);
            assert(cs@.skip(i as int).drop_first() =~= cs@.skip(i as int + 1));
        } else {
            assert(cs@.skip(i as int).len() == 0);
        }
    }
    if i < cs.len() {
        i += 1;
    }
    let ghost body = spec_skip_header(text@);
    proof {
        assert(body == cs@.skip(i as int));
    }

    let mut rows: Vec<ProcessRecord> = Vec::new();
    let ghost mut raw = Seq::<(Seq<char>, u64, bool)>::empty();
    proof {
        assert(spec_rows_model(rows@) =~= spec_recompute(raw, prods));
    }
    while i < cs.len()
        invariant
            i <= cs@.len(),
            cs@ == text@,
            prods == productive.deep_view(),
            body == spec_skip_header(text@),
            spec_rows_model(rows@) == spec_recompute(raw, prods),
            ({
                match spec_parse_rows(cs@.skip(i as int)) {
                    Some(rest) => spec_parse_rows(body) == Some(raw + rest),
                    None => spec_parse_rows(body) is None,
                }
            }),
        decreases cs@.len() - i,
    {
        let p = match parse_row_at(&cs, i) {
            Some(p) => p,
            None => {
                return Err(RecorderError::CsvError("malformed data row".to_owned()));
            },
        };
        let ((name, secs, flag), i2) = p;
        proof {
            assert(cs@.skip(i2 as int).len() < cs@.skip(i as int).len());
        }
        let prod = crate::recorder::contains_name(productive, &name);
        let ghost raw0 = raw;
        let ghost rows0 = rows@;
        proof {
            raw = raw.push((name@, secs, flag));
        }
        rows.push(ProcessRecord { name, focused_seconds: secs, is_productive: prod });
        proof {
            assert(raw == raw0.push((name@, secs, flag)));
            assert(spec_rows_model(rows0).len() == rows0.len());
            assert(spec_recompute(raw0, prods).len() == raw0.len());
            assert(rows0.len() == raw0.len());
            assert(rows@ =~= rows0.push(ProcessRecord { name, focused_seconds: secs, is_productive: prod }));
            assert forall|k: int| 0 <= k < rows@.len() implies #[trigger] spec_rows_model(rows@)[k]
                == spec_recompute(raw, prods)[k] by {
                if k < rows0.len() {
                    assert(rows@[k] == rows0[k]);
                    assert(raw[k] == raw0[k]);
                    assert(spec_rows_model(rows0)[k] == spec_recompute(raw0, prods)[k]);
                } else {
                    assert(rows@[k].model() == (name@, secs, prod));
                    assert(raw[k] == (name@, secs, flag));
                }
            }
            assert(spec_rows_model(rows@) =~= spec_recompute(raw, prods));
            assert forall|rest2: Seq<(Seq<char>, u64, bool)>|
                #[trigger] (raw0 + (seq![(name@, secs, flag)] + rest2)) =~= raw + rest2 by {
                assert(raw =~= raw0.push((name@, secs, flag)));
            }
        }
        i = i2;
    }
    proof {
        assert(cs@.skip(i as int).len() == 0);
        assert(raw + Seq::<(Seq<char>, u64, bool)>::empty() =~= raw);
    }
    let acc = Accumulator::from_records(rows);
    Ok(acc)
}

proof fn lemma_parse_quoted_encode(s: Seq<char>, rest: Seq<char>)
    requires
        rest.len() == 0 || rest[0] != '"',
    ensures
        spec_parse_quoted(spec_dq(s) + seq!['"'] + rest) == Some((s, rest)),
    decreases s.len(),
{
    let input = spec_dq(s) + seq!['"'] + rest;
    if s.len() == 0 {
        assert(spec_dq(s) =~= Seq::<char>::empty());
        assert(input =~= seq!['"'] + rest);
        assert(input[0] == '"');
        if input.len() >= 2 {
            assert(input[1] == rest[0]);
        }
        assert(input.drop_first() =~= rest);
        assert(s =~= Seq::<char>::empty());
    } else if s[0] == '"' {
        assert(spec_dq(s) == seq!['"', '"'] + spec_dq(s.drop_first()));
        assert(input =~= seq!['"', '"'] + (spec_dq(s.drop_first()) + seq!['"'] + rest));
        assert(input[0] == '"');
        assert(input.len() >= 2 && input[1] == '"');
        assert(input.skip(2) =~= spec_dq(s.drop_first()) + seq!['"'] + rest);
        lemma_parse_quoted_encode(s.drop_first(), rest);
        assert(spec_parse_quoted(input.skip(2)) == Some((s.drop_first(), rest)));
        assert(seq!['"'] + s.drop_first() =~= s);
    } else {
        assert(spec_dq(s) == seq![s[0]] + spec_dq(s.drop_first()));
        assert(input =~= seq![s[0]] + (spec_dq(s.drop_first()) + seq!['"'] + rest));
        assert(input[0] == s[0]);
        assert(input[0] != '"');
        assert(input.len() > 0);
        assert(input.drop_first() =~= spec_dq(s.drop_first()) + seq!['"'] + rest);
        lemma_parse_quoted_encode(s.drop_first(), rest);
        assert(spec_parse_quoted(input.drop_first()) == Some((s.drop_first(), rest)));
        assert(seq![s[0]] + s.drop_first() =~= s);
    }
}

proof fn lemma_parse_unquoted_plain(s: Seq<char>, rest: Seq<char>)
    requires
        forall|k: int| 0 <= k < s.len() ==> #[trigger] s[k] != ',' && s[k] != '\n',
        rest.len() == 0 || rest[0] == ',' || rest[0] == '\n',
    ensures
        spec_parse_unquoted(s + rest) == (s, rest),
    decreases s.len(),
{
    let input = s + rest;
    if s.len() == 0 {
        assert(input =~= rest);
        if rest.len() > 0 {
            assert(input[0] == rest[0]);
        }
        assert(s =~= Seq::<char>::empty());
    } else {
        assert(input[0] == s[0]);
        assert(input.len() > 0);
        assert(input[0] != ',' && input[0] != '\n');
        assert(input.drop_first() =~= s.drop_first() + rest);
        assert(forall|k: int|
            0 <= k < s.drop_first().len() ==> #[trigger] s.drop_first()[k] != ','
                && s.drop_first()[k] != '\n');
        lemma_parse_unquoted_plain(s.drop_first(), rest);
        assert(seq![s[0]] + s.drop_first() =~= s);
    }
}

proof fn lemma_parse_field_encode(s: Seq<char>, rest: Seq<char>)
    requires
        rest.len() > 0,
        rest[0] == ',',
    ensures
        spec_parse_field(spec_enc_field(s) + rest) == Some((s, rest)),
{
    let input = spec_enc_field(s) + rest;
    if spec_needs_quote(s) {
        assert(spec_enc_field(s) == seq!['"'] + spec_dq(s) + seq!['"']);
        assert(input[0] == '"');
        assert(input.len() > 0);
        assert(input.drop_first() =~= spec_dq(s) + seq!['"'] + rest);
        lemma_parse_quoted_encode(s, rest);
    } else {
        assert(spec_enc_field(s) == s);
        assert(forall|k: int| 0 <= k < s.len() ==> !spec_is_special(#[trigger] s[k]));
        if s.len() > 0 {
            assert(input[0] == s[0]);
            assert(!spec_is_special(s[0]));
            assert(input[0] != '"');
        } else {
            assert(input =~= rest);
            assert(input[0] == ',');
        }
        lemma_parse_unquoted_plain(s, rest);
        assert(input =~= s + rest);
    }
}

proof fn lemma_digit_roundtrip(d: int)
    requires
        0 <= d < 10,
    ensures
        spec_is_digit(spec_digit_char(d)),
        spec_digit_val(spec_digit_char(d)) == d,
{
    if d == 0 {
        assert(spec_digit_char(0) == '0');
    } else if d == 1 {
        assert(spec_digit_char(1) == '1');
    } else if d == 2 {
        assert(spec_digit_char(2) == '2');
    } else if d == 3 {
        assert(spec_digit_char(3) == '3');
    } else if d == 4 {
        assert(spec_digit_char(4) == '4');
    } else if d == 5 {
        assert(spec_digit_char(5) == '5');
    } else if d == 6 {
        assert(spec_digit_char(6) == '6');
    } else if d == 7 {
        assert(spec_digit_char(7) == '7');
    } else if d == 8 {
        assert(spec_digit_char(8) == '8');
    } else {
        assert(spec_digit_char(9) == '9');
    }
}

proof fn lemma_digits_shape(n: nat)
    ensures
        spec_digits(n).len() >= 1,
        forall|k: int|
            0 <= k < spec_digits(n).len() ==> spec_is_digit(#[trigger] spec_digits(n)[k]),
    decreases n,
{
    if n < 10 {
        lemma_digit_roundtrip(n as int);
    } else {
        lemma_digits_shape(n / 10);
        lemma_digit_roundtrip((n % 10) as int);
        assert forall|k: int| 0 <= k < spec_digits(n).len() implies spec_is_digit(
            #[trigger] spec_digits(n)[k],
        ) by {
            if k < spec_digits(n / 10).len() {
                assert(spec_digits(n)[k] == spec_digits(n / 10)[k]);
            } else {
                assert(spec_digits(n)[k] == spec_digit_char((n % 10) as int));
            }
        }
    }
}

proof fn lemma_parse_digits_run(ds: Seq<char>, rest: Seq<char>)
    requires
        forall|k: int| 0 <= k < ds.len() ==> spec_is_digit(#[trigger] ds[k]),
        rest.len() == 0 || !spec_is_digit(rest[0]),
    ensures
        spec_parse_digits(ds + rest) == (ds, rest),
    decreases ds.len(),
{
    let input = ds + rest;
    if ds.len() == 0 {
        assert(input =~= rest);
        if rest.len() > 0 {
            assert(input[0] == rest[0]);
        }
        assert(ds =~= Seq::<char>::empty());
    } else {
        assert(input[0] == ds[0]);
        assert(spec_is_digit(input[0]));
        assert(input.drop_first() =~= ds.drop_first() + rest);
        assert(forall|k: int|
            0 <= k < ds.drop_first().len() ==> spec_is_digit(#[trigger] ds.drop_first()[k]));
        lemma_parse_digits_run(ds.drop_first(), rest);
        assert(seq![ds[0]] + ds.drop_first() =~= ds);
    }
}

proof fn lemma_digits_value_roundtrip(n: nat)
    ensures
        spec_digits_value(spec_digits(n)) == n,
    decreases n,
{
    if n < 10 {
        lemma_digit_roundtrip(n as int);
        assert(spec_digits(n) == seq![spec_digit_char(n as int)]);
        assert(spec_digits(n).drop_last() =~= Seq::<char>::empty());
        assert(spec_digits(n).last() == spec_digit_char(n as int));
        assert(spec_digits_value(Seq::<char>::empty()) == 0);
        assert(spec_digits_value(spec_digits(n).drop_last()) == 0);
        assert(spec_digits_value(spec_digits(n)) == spec_digit_val(spec_digit_char(n as int)));
        assert(spec_digits_value(spec_digits(n)) == n);
    } else {
        lemma_digits_value_roundtrip(n / 10);
        lemma_digit_roundtrip((n % 10) as int);
        let ds = spec_digits(n);
        assert(ds == spec_digits(n / 10) + seq![spec_digit_char((n % 10) as int)]);
        assert(ds.drop_last() =~= spec_digits(n / 10));
        assert(ds.last() == spec_digit_char((n % 10) as int));
        assert(spec_digits_value(ds) == spec_digits_value(spec_digits(n / 10)) * 10 + (
        n % 10) as int);
        vstd::arithmetic::div_mod::lemma_fundamental_div_mod(n as int, 10);
        assert(n == 10 * ((n as int) / 10) + (n as int) % 10);
        assert(spec_digits_value(spec_digits(n / 10)) == n / 10);
        assert(spec_digits_value(ds) == (n / 10) * 10 + (n % 10));
        assert(spec_digits_value(spec_digits(n)) == n);
    }
}

proof fn lemma_parse_bool_encode(b: bool, rest: Seq<char>)
    ensures
        spec_parse_bool(spec_bool_chars(b) + rest) == Some((b, rest)),
{
    let input = spec_bool_chars(b) + rest;
    if b {
        assert(input.take(4) =~= spec_bool_chars(true));
        assert(input.skip(4) =~= rest);
    } else {
        assert(input.len() >= 5);
        assert(input[0] == 'f');
        if input.len() >= 4 && input.take(4) == spec_bool_chars(true) {
            assert(input.take(4)[0] == 't');
            assert(false);
        }
        assert(input.take(5) =~= spec_bool_chars(false));
        assert(input.skip(5) =~= rest);
    }
}

proof fn lemma_parse_row_encode(t: (Seq<char>, u64, bool), rest: Seq<char>)
    ensures
        spec_parse_row(spec_encode_row(t) + rest) == Some((t, rest)),
        spec_encode_row(t).len() > 0,
{
    let a = spec_enc_field(t.0);
    let b = spec_digits(t.1 as nat);
    let c = spec_bool_chars(t.2);
    let input = spec_encode_row(t) + rest;
    let tail1 = b + seq![','] + c + seq!['\n'] + rest;
    let rest1 = seq![','] + tail1;

    assert(input =~= a + rest1);
    assert(rest1[0] == ',');
    lemma_parse_field_encode(t.0, rest1);
    assert(spec_parse_field(input) == Some((t.0, rest1)));

    let tail2 = seq![','] + (c + seq!['\n'] + rest);
    assert(rest1.drop_first() =~= b + tail2);
    lemma_digits_shape(t.1 as nat);
    assert(tail2[0] == ',');
    assert(!spec_is_digit(','));
    lemma_parse_digits_run(b, tail2);
    assert(spec_parse_digits(rest1.drop_first()) == (b, tail2));
    lemma_digits_value_roundtrip(t.1 as nat);
    assert(spec_digits_value(b) == t.1);
    assert(b.len() > 0);

    let tail3 = seq!['\n'] + rest;
    assert(tail2.drop_first() =~= c + tail3);
    lemma_parse_bool_encode(t.2, tail3);
    assert(spec_parse_bool(tail2.drop_first()) == Some((t.2, tail3)));

    assert(tail3[0] == '\n');
    assert(tail3.drop_first() =~= rest);
    assert((t.0, t.1, t.2) == t);
}

proof fn lemma_parse_rows_encode(m: Seq<(Seq<char>, u64, bool)>)
    ensures
        spec_parse_rows(spec_encode_rows(m)) == Some(m),
    decreases m.len(),
{
    if m.len() == 0 {
        assert(spec_encode_rows(m).len() == 0);
        assert(m =~= Seq::<(Seq<char>, u64, bool)>::empty());
    } else {
        let restx = spec_encode_rows(m.drop_first());
        lemma_parse_row_encode(m[0], restx);
        let input = spec_encode_rows(m);
        assert(input == spec_encode_row(m[0]) + restx);
        assert(input.len() == spec_encode_row(m[0]).len() + restx.len());
        assert(input.len() > 0);
        assert(spec_parse_row(input) == Some((m[0], restx)));
        assert(restx.len() < input.len());
        lemma_parse_rows_encode(m.drop_first());
        assert(seq![m[0]] + m.drop_first() =~= m);
    }
}

proof fn lemma_skip_header_no_newline(h: Seq<char>, rest: Seq<char>)
    requires
        forall|k: int| 0 <= k < h.len() ==> #[trigger] h[k] != '\n',
    ensures
        spec_skip_header(h + seq!['\n'] + rest) == rest,
    decreases h.len(),
{
    let input = h + seq!['\n'] + rest;
    if h.len() == 0 {
        assert(input =~= seq!['\n'] + rest);
        assert(input[0] == '\n');
        assert(input.drop_first() =~= rest);
    } else {
        assert(input[0] == h[0]);
        assert(input[0] != '\n');
        assert(input.drop_first() =~= h.drop_first() + seq!['\n'] + rest);
        assert(forall|k: int|
            0 <= k < h.drop_first().len() ==> #[trigger] h.drop_first()[k] != '\n');
        lemma_skip_header_no_newline(h.drop_first(), rest);
    }
}

proof fn lemma_add_absent(m: Seq<(Seq<char>, u64, bool)>, t: (Seq<char>, u64, bool))
    requires
        forall|i: int| 0 <= i < m.len() ==> (#[trigger] m[i]).0 != t.0,
    ensures
        crate::recorder::spec_add(m, t.0, t.1, t.2) == m + seq![t],
    decreases m.len(),
{
    if m.len() == 0 {
        assert(crate::recorder::spec_add(m, t.0, t.1, t.2) =~= m + seq![t]);
    } else {
        assert(m[0].0 != t.0);
        assert(forall|i: int|
            0 <= i < m.drop_first().len() ==> (#[trigger] m.drop_first()[i]).0 != t.0);
        lemma_add_absent(m.drop_first(), t);
        assert(seq![m[0]] + (m.drop_first() + seq![t]) =~= m + seq![t]);
    }
}

/// Folding rows whose names never collide reproduces the rows themselves.
proof fn lemma_fold_unique(m: Seq<(Seq<char>, u64, bool)>, rows: Seq<(Seq<char>, u64, bool)>)
    requires
        spec_unique_names(m + rows),
    ensures
        spec_fold_rows(m, rows) == m + rows,
    decreases rows.len(),
{
    let all = m + rows;
    if rows.len() == 0 {
        assert(m + rows =~= m);
    } else {
        let t = rows[0];
        assert forall|i: int| 0 <= i < m.len() implies (#[trigger] m[i]).0 != t.0 by {
            assert(all[i] == m[i]);
            assert(all[m.len() as int] == t);
        }
        lemma_add_absent(m, (t.0, t.1, t.2));
        assert((t.0, t.1, t.2) == t);
        assert(crate::recorder::spec_add(m, t.0, t.1, t.2) == m + seq![t]);
        assert((m + seq![t]) + rows.drop_first() =~= m + rows);
        lemma_fold_unique(m + seq![t], rows.drop_first());
        assert(spec_fold_rows(m, rows) == spec_fold_rows(m + seq![t], rows.drop_first()));
    }
}

proof fn lemma_lookup_recompute(
    m: Seq<(Seq<char>, u64, bool)>,
    prods: Seq<Seq<char>>,
    name: Seq<char>,
)
    ensures
        match spec_lookup(m, name) {
            Some(p) => spec_lookup(spec_recompute(m, prods), name) == Some(
                (p.0, prods.contains(name)),
            ),
            None => spec_lookup(spec_recompute(m, prods), name) is None,
        },
    decreases m.len(),
{
    let r = spec_recompute(m, prods);
    assert(r.len() == m.len());
    if m.len() > 0 {
        assert(r[0] == (m[0].0, m[0].1, prods.contains(m[0].0)));
        assert(r.drop_first() =~= spec_recompute(m.drop_first(), prods));
        lemma_lookup_recompute(m.drop_first(), prods, name);
    }
}

/// Round trip of the record file: the text encoded for a set of records
/// parses back to exactly those records, and loading them with the same
/// productive list reproduces every process's focused seconds; only the
/// productivity flag is recomputed against the list.
pub proof fn lemma_round_trip(m: Seq<(Seq<char>, u64, bool)>, prods: Seq<Seq<char>>)
    requires
        spec_unique_names(m),
    ensures
        spec_parse_data(spec_encode(m)) == Some(m),
        spec_fold_rows(Seq::<(Seq<char>, u64, bool)>::empty(), spec_recompute(m, prods))
            == spec_recompute(m, prods),
        forall|name: Seq<char>|
            spec_seconds_of(
                #[trigger] spec_recompute(m, prods),
                name,
            ) == spec_seconds_of(m, name),
{
    let h17 = seq![
        'n', 'a', 'm', 'e', ',', 't', 'i', 'm', 'e', ',', 'i', 's', '_', 'p', 'r', 'o', 'd',
    ];
    assert(spec_header() =~= h17 + seq!['\n']);
    assert(spec_encode(m) =~= h17 + seq!['\n'] + spec_encode_rows(m));
    assert(forall|k: int| 0 <= k < h17.len() ==> #[trigger] h17[k] != '\n');
    lemma_skip_header_no_newline(h17, spec_encode_rows(m));
    assert(spec_skip_header(spec_encode(m)) == spec_encode_rows(m));
    lemma_parse_rows_encode(m);

    let rec = spec_recompute(m, prods);
    assert(rec.len() == m.len());
    assert forall|i: int, j: int| 0 <= i < j < rec.len() implies (#[trigger] rec[i]).0 != (
    #[trigger] rec[j]).0 by {
        assert(rec[i].0 == m[i].0);
        assert(rec[j].0 == m[j].0);
    }
    assert(Seq::<(Seq<char>, u64, bool)>::empty() + rec =~= rec);
    lemma_fold_unique(Seq::<(Seq<char>, u64, bool)>::empty(), rec);

    assert forall|name: Seq<char>|
        spec_seconds_of(#[trigger] spec_recompute(m, prods), name) == spec_seconds_of(
            m,
            name,
        ) by {
        lemma_lookup_recompute(m, prods, name);
    }
}

} // verus!
