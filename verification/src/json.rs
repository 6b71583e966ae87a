//! Reading the output: what a reader of JSON makes of the lines.
//!
//! The reader knows strings with their escapes, whole numbers, arrays of
//! strings and flat objects, which is all that a line holds.
use crate::emit::Frame;
use crate::text;
use crate::wire;
use crate::wire::Member;
use vstd::prelude::*;

verus! {

// --- the reader --------------------------------------------------------------

/// A value in a line.
pub enum Datum {
    Number(int),
    Text(Seq<char>),
    List(Seq<Seq<char>>),
}

/// A member of an object.
pub struct Entry {
    pub key: Seq<char>,
    pub value: Datum,
}

/// The character that an escape letter stands for.
pub open spec fn escaped_as(c: char) -> char {
    if c == 'b' {
        '\u{8}'
    } else if c == 't' {
        '\t'
    } else if c == 'n' {
        '\n'
    } else if c == 'f' {
        '\u{c}'
    } else if c == 'r' {
        '\r'
    } else {
        c
    }
}

/// `c` before what was read.
pub open spec fn led_by(
    c: char,
    read: Option<(Seq<char>, Seq<char>)>,
) -> Option<(Seq<char>, Seq<char>)> {
    match read {
        Some((t, rest)) => Some((seq![c] + t, rest)),
        None => None,
    }
}

/// The text of a string up to its closing quote, and what follows it.
pub open spec fn string_body(s: Seq<char>) -> Option<(Seq<char>, Seq<char>)>
    decreases s.len(),
{
    if s.len() == 0 {
        None
    } else if s[0] == '"' {
        Some((seq![], s.skip(1)))
    } else if s[0] != '\\' {
        led_by(s[0], string_body(s.skip(1)))
    } else if s.len() < 2 {
        None
    } else if s[1] != 'u' {
        led_by(escaped_as(s[1]), string_body(s.skip(2)))
    } else if s.len() < 6 {
        None
    } else {
        led_by(text::hex_number(s.subrange(2, 6)) as char, string_body(s.skip(6)))
    }
}

/// How many digits a text begins with.
pub open spec fn digits_ahead(s: Seq<char>) -> nat
    decreases s.len(),
{
    if s.len() == 0 || !text::is_digit(s[0]) {
        0
    } else {
        1 + digits_ahead(s.skip(1))
    }
}

/// The digits at the front, as a number, and what follows them.
pub open spec fn unsigned(s: Seq<char>) -> Option<(int, Seq<char>)> {
    let n = digits_ahead(s) as int;
    if n == 0 {
        None
    } else {
        Some((text::number(s.take(n)) as int, s.skip(n)))
    }
}

/// The number at the front, and what follows it.
pub open spec fn numeral(s: Seq<char>) -> Option<(int, Seq<char>)> {
    if s.len() > 0 && s[0] == '-' {
        match unsigned(s.skip(1)) {
            Some((n, rest)) => Some((-n, rest)),
            None => None,
        }
    } else {
        unsigned(s)
    }
}

/// The strings of an array up to its closing bracket, and what follows it.
pub open spec fn items(s: Seq<char>) -> Option<(Seq<Seq<char>>, Seq<char>)>
    decreases s.len(),
{
    if s.len() == 0 || s[0] != '"' {
        None
    } else {
        match string_body(s.skip(1)) {
            None => None,
            Some((t, r)) => if r.len() == 0 || r.len() >= s.len() {
                None
            } else if r[0] == ']' {
                Some((seq![t], r.skip(1)))
            } else if r[0] == ',' {
                match items(r.skip(1)) {
                    None => None,
                    Some((ts, rest)) => Some((seq![t] + ts, rest)),
                }
            } else {
                None
            },
        }
    }
}

/// The value at the front, and what follows it.
pub open spec fn value(s: Seq<char>) -> Option<(Datum, Seq<char>)> {
    if s.len() == 0 {
        None
    } else if s[0] == '"' {
        match string_body(s.skip(1)) {
            Some((t, rest)) => Some((Datum::Text(t), rest)),
            None => None,
        }
    } else if s[0] == '[' {
        if s.len() > 1 && s[1] == ']' {
            Some((Datum::List(seq![]), s.skip(2)))
        } else {
            match items(s.skip(1)) {
                Some((ts, rest)) => Some((Datum::List(ts), rest)),
                None => None,
            }
        }
    } else {
        match numeral(s) {
            Some((n, rest)) => Some((Datum::Number(n), rest)),
            None => None,
        }
    }
}

/// The members of an object up to its closing brace, and what follows it.
pub open spec fn entries(s: Seq<char>) -> Option<(Seq<Entry>, Seq<char>)>
    decreases s.len(),
{
    if s.len() == 0 || s[0] != '"' {
        None
    } else {
        match string_body(s.skip(1)) {
            None => None,
            Some((key, r)) => if r.len() == 0 || r[0] != ':' {
                None
            } else {
                match value(r.skip(1)) {
                    None => None,
                    Some((v, q)) => if q.len() == 0 || q.len() >= s.len() {
                        None
                    } else if q[0] == '}' {
                        Some((seq![Entry { key, value: v }], q.skip(1)))
                    } else if q[0] == ',' {
                        match entries(q.skip(1)) {
                            None => None,
                            Some((es, rest)) => Some((seq![Entry { key, value: v }] + es, rest)),
                        }
                    } else {
                        None
                    },
                }
            },
        }
    }
}

/// The members of a line that is one object.
pub open spec fn object(line: Seq<char>) -> Option<Seq<Entry>> {
    if line.len() == 0 || line[0] != '{' {
        None
    } else {
        match entries(line.skip(1)) {
            Some((es, rest)) => if rest.len() == 0 {
                Some(es)
            } else {
                None
            },
            None => None,
        }
    }
}

/// The value that a key has among members.
pub open spec fn found(es: Seq<Entry>, key: Seq<char>) -> Option<Datum>
    decreases es.len(),
{
    if es.len() == 0 {
        None
    } else if es[0].key == key {
        Some(es[0].value)
    } else {
        found(es.drop_first(), key)
    }
}

/// The value that a key has in a line.
pub open spec fn member(line: Seq<char>, key: Seq<char>) -> Option<Datum> {
    match object(line) {
        Some(es) => found(es, key),
        None => None,
    }
}

// --- what is written is read -------------------------------------------------

proof fn char_is_read(c: char, y: Seq<char>)
    ensures
        string_body(wire::quoted_char(c) + y) == led_by(c, string_body(y)),
{
    let q = wire::quoted_char(c);
    let s = q + y;
    assert(s.skip(q.len() as int) =~= y);
    if q.len() == 6 {
        let b = c as u8;
        text::hex_reads_back(b);
        let h = s.subrange(2, 6);
        assert(h =~= seq!['0', '0'] + text::hex2(b));
        reveal_with_fuel(text::hex_number, 5);
        assert(h.drop_last().drop_last() =~= seq!['0', '0']);
        assert(seq!['0', '0'].drop_last() =~= seq!['0']);
        assert(seq!['0'].drop_last() =~= seq![]);
        assert(text::hex_number(h) == c as nat);
    }
}

proof fn string_is_read(t: Seq<char>, x: Seq<char>)
    ensures
        string_body(wire::quoted_text(t) + (seq!['"'] + x)) == Some((t, x)),
    decreases t.len(),
{
    let end = seq!['"'] + x;
    let s = wire::quoted_text(t) + end;
    if t.len() == 0 {
        assert(s =~= end);
        assert(end.skip(1) =~= x);
        assert(t =~= seq![]);
    } else {
        let rest = t.drop_first();
        let y = wire::quoted_text(rest) + end;
        assert(s =~= wire::quoted_char(t[0]) + y);
        char_is_read(t[0], y);
        string_is_read(rest, x);
        assert(seq![t[0]] + rest =~= t);
    }
}

proof fn quoted_is_read(t: Seq<char>, x: Seq<char>)
    ensures
        ({
            let s = wire::quoted(t) + x;
            &&& s.len() > x.len() + 1
            &&& s[0] == '"'
            &&& string_body(s.skip(1)) == Some((t, x))
        }),
{
    let s = wire::quoted(t) + x;
    assert(s.skip(1) =~= wire::quoted_text(t) + (seq!['"'] + x));
    string_is_read(t, x);
}

/// Whether a text does not go on with a digit.
spec fn no_digit(x: Seq<char>) -> bool {
    x.len() == 0 || !text::is_digit(x[0])
}

proof fn digits_are_counted(d: Seq<char>, x: Seq<char>)
    requires
        text::all_digits(d),
        no_digit(x),
    ensures
        digits_ahead(d + x) == d.len(),
    decreases d.len(),
{
    if d.len() == 0 {
        assert(d + x =~= x);
    } else {
        let rest = d.drop_first();
        assert(text::is_digit(d[0]));
        assert forall|i: int| 0 <= i < rest.len() implies text::is_digit(#[trigger] rest[i]) by {
            assert(text::is_digit(d[i + 1]));
        }
        assert((d + x).skip(1) =~= rest + x);
        digits_are_counted(rest, x);
    }
}

proof fn number_is_read(n: int, x: Seq<char>)
    requires
        no_digit(x),
    ensures
        numeral(text::decimal_int(n) + x) == Some((n, x)),
        text::decimal_int(n).len() > 0,
        text::decimal_int(n)[0] != '"' && text::decimal_int(n)[0] != '[',
{
    let m = if n < 0 {
        (-n) as nat
    } else {
        n as nat
    };
    let d = text::decimal(m);
    text::decimal_reads_back(m);
    assert(text::is_digit(d[0]));
    digits_are_counted(d, x);
    let s = d + x;
    assert(s.take(d.len() as int) =~= d);
    assert(s.skip(d.len() as int) =~= x);
    if n < 0 {
        assert((text::decimal_int(n) + x).skip(1) =~= s);
    }
}

proof fn list_is_read(ts: Seq<Seq<char>>, x: Seq<char>)
    requires
        ts.len() > 0,
    ensures
        items(wire::listed(ts) + (seq![']'] + x)) == Some((ts, x)),
    decreases ts.len(),
{
    let end = seq![']'] + x;
    let s = wire::listed(ts) + end;
    let rest = ts.drop_first();
    wire::listed_first(ts);
    if ts.len() == 1 {
        quoted_is_read(ts[0], end);
        assert(end.skip(1) =~= x);
        assert(ts =~= seq![ts[0]]);
    } else {
        let tail = seq![','] + (wire::listed(rest) + end);
        assert(s =~= wire::quoted(ts[0]) + tail);
        quoted_is_read(ts[0], tail);
        assert(tail.skip(1) =~= wire::listed(rest) + end);
        list_is_read(rest, x);
        assert(seq![ts[0]] + rest =~= ts);
    }
}

/// How a value is written.
spec fn written(v: Datum) -> Seq<char> {
    match v {
        Datum::Number(n) => text::decimal_int(n),
        Datum::Text(t) => wire::quoted(t),
        Datum::List(ts) => wire::quoted_list(ts),
    }
}

proof fn value_is_read(v: Datum, x: Seq<char>)
    requires
        no_digit(x),
    ensures
        value(written(v) + x) == Some((v, x)),
        written(v).len() > 0,
{
    let s = written(v) + x;
    match v {
        Datum::Number(n) => {
            number_is_read(n, x);
            assert(s[0] == text::decimal_int(n)[0]);
        },
        Datum::Text(t) => {
            quoted_is_read(t, x);
        },
        Datum::List(ts) => {
            let end = seq![']'] + x;
            assert(s =~= seq!['['] + (wire::listed(ts) + end));
            assert(s.skip(1) =~= wire::listed(ts) + end);
            if ts.len() == 0 {
                assert(wire::listed(ts) =~= seq![]);
                assert(s[1] == ']');
                assert(s.skip(2) =~= x);
                assert(ts =~= seq![]);
            } else {
                wire::listed_first(ts);
                assert(s[1] == wire::listed(ts)[0]);
                list_is_read(ts, x);
            }
        },
    }
}

/// `members` are written from `es`.
spec fn written_from(members: Seq<Member>, es: Seq<Entry>) -> bool {
    members.len() == es.len() && forall|i: int|
        0 <= i < es.len() ==> (#[trigger] members[i]).key == es[i].key && members[i].value
            == written(es[i].value)
}

proof fn entries_are_read(members: Seq<Member>, es: Seq<Entry>, x: Seq<char>)
    requires
        written_from(members, es),
        es.len() > 0,
    ensures
        entries(wire::spelled(members) + (seq!['}'] + x)) == Some((es, x)),
    decreases es.len(),
{
    let end = seq!['}'] + x;
    let s = wire::spelled(members) + end;
    let m = members[0];
    let e = es[0];
    let more = members.drop_first();
    let rest = es.drop_first();
    wire::spelled_first(members);
    assert(m.key == e.key && m.value == written(e.value));
    let tail = if es.len() == 1 {
        end
    } else {
        seq![','] + (wire::spelled(more) + end)
    };
    let v = written(e.value) + tail;
    assert(s =~= wire::quoted(e.key) + (seq![':'] + v));
    quoted_is_read(e.key, seq![':'] + v);
    assert((seq![':'] + v).skip(1) =~= v);
    value_is_read(e.value, tail);
    assert(Entry { key: e.key, value: e.value } == e);
    if es.len() == 1 {
        assert(end.skip(1) =~= x);
        assert(es =~= seq![e]);
    } else {
        assert(tail.skip(1) =~= wire::spelled(more) + end);
        assert forall|i: int| 0 <= i < rest.len() implies (#[trigger] more[i]).key == rest[i].key
            && more[i].value == written(rest[i].value) by {
            assert(members[i + 1].key == es[i + 1].key);
        }
        entries_are_read(more, rest, x);
        assert(seq![e] + rest =~= es);
    }
}

proof fn object_is_read(members: Seq<Member>, es: Seq<Entry>)
    requires
        written_from(members, es),
        es.len() > 0,
    ensures
        object(wire::object(members)) == Some(es),
{
    let s = wire::object(members);
    let none = Seq::<char>::empty();
    assert(s.skip(1) =~= wire::spelled(members) + (seq!['}'] + none));
    entries_are_read(members, es, none);
}

// --- the laws ----------------------------------------------------------------

/// A reader of JSON finds a frame in its line: one object, with exactly the
/// members that the kind of frame has, `t` telling the kind, and each of the
/// others standing for what the frame carries.
pub proof fn frames_are_read_back(f: Frame)
    ensures
        ({
            let line = wire::frame_text(f);
            &&& object(line) is Some
            &&& match f {
                Frame::Screen { seqno, cols, rows, html } => {
                    &&& object(line)->0.len() == 5
                    &&& member(line, "t"@) == Some(Datum::Text("screen"@))
                    &&& member(line, "seqno"@) == Some(Datum::Number(seqno as int))
                    &&& member(line, "cols"@) == Some(Datum::Number(cols as int))
                    &&& member(line, "rows"@) == Some(Datum::Number(rows as int))
                    &&& member(line, "html"@) == Some(Datum::Text(html@))
                },
                Frame::Diff { seqno, target, patch, append, trim } => {
                    &&& object(line)->0.len() == 6
                    &&& member(line, "t"@) == Some(Datum::Text("diff"@))
                    &&& member(line, "seqno"@) == Some(Datum::Number(seqno as int))
                    &&& member(line, "target"@) == Some(Datum::Text(target@))
                    &&& member(line, "patch"@) == Some(Datum::Text(patch@))
                    &&& member(line, "append"@) == Some(Datum::Text(append@))
                    &&& member(line, "trim"@) matches Some(Datum::List(ids)) && ids.len()
                        == trim@.len() && forall|i: int|
                        0 <= i < ids.len() ==> #[trigger] ids[i] == trim@[i]@
                },
            }
        }),
{
    match f {
        Frame::Screen { seqno, cols, rows, html } => {
            screen_is_read(seqno as nat, cols as nat, rows as nat, html@);
        },
        Frame::Diff { seqno, target, patch, append, trim } => {
            diff_is_read(seqno as nat, target@, patch@, append@, wire::texts(trim@));
        },
    }
}

proof fn screen_is_read(seqno: nat, cols: nat, rows: nat, html: Seq<char>)
    ensures
        ({
            let line = wire::object(wire::screen_members(seqno, cols, rows, html));
            &&& object(line) is Some
            &&& object(line)->0.len() == 5
            &&& member(line, "t"@) == Some(Datum::Text("screen"@))
            &&& member(line, "seqno"@) == Some(Datum::Number(seqno as int))
            &&& member(line, "cols"@) == Some(Datum::Number(cols as int))
            &&& member(line, "rows"@) == Some(Datum::Number(rows as int))
            &&& member(line, "html"@) == Some(Datum::Text(html))
        }),
{
    let members = wire::screen_members(seqno, cols, rows, html);
    let es = seq![
        Entry { key: "cols"@, value: Datum::Number(cols as int) },
        Entry { key: "html"@, value: Datum::Text(html) },
        Entry { key: "rows"@, value: Datum::Number(rows as int) },
        Entry { key: "seqno"@, value: Datum::Number(seqno as int) },
        Entry { key: "t"@, value: Datum::Text("screen"@) },
    ];
    assert(written_from(members, es));
    object_is_read(members, es);
    wire::keys_differ();
    let e1 = es.drop_first();
    let e2 = e1.drop_first();
    let e3 = e2.drop_first();
    let e4 = e3.drop_first();
    assert(e1[0] == es[1] && e2[0] == es[2] && e3[0] == es[3] && e4[0] == es[4]);
    reveal_with_fuel(found, 6);
}

proof fn diff_is_read(
    seqno: nat,
    target: Seq<char>,
    patch: Seq<char>,
    append: Seq<char>,
    trim: Seq<Seq<char>>,
)
    ensures
        ({
            let line = wire::object(wire::diff_members(seqno, target, patch, append, trim));
            &&& object(line) is Some
            &&& object(line)->0.len() == 6
            &&& member(line, "t"@) == Some(Datum::Text("diff"@))
            &&& member(line, "seqno"@) == Some(Datum::Number(seqno as int))
            &&& member(line, "target"@) == Some(Datum::Text(target))
            &&& member(line, "patch"@) == Some(Datum::Text(patch))
            &&& member(line, "append"@) == Some(Datum::Text(append))
            &&& member(line, "trim"@) == Some(Datum::List(trim))
        }),
{
    let members = wire::diff_members(seqno, target, patch, append, trim);
    let es = seq![
        Entry { key: "append"@, value: Datum::Text(append) },
        Entry { key: "patch"@, value: Datum::Text(patch) },
        Entry { key: "seqno"@, value: Datum::Number(seqno as int) },
        Entry { key: "t"@, value: Datum::Text("diff"@) },
        Entry { key: "target"@, value: Datum::Text(target) },
        Entry { key: "trim"@, value: Datum::List(trim) },
    ];
    assert(written_from(members, es));
    object_is_read(members, es);
    wire::keys_differ();
    let e1 = es.drop_first();
    let e2 = e1.drop_first();
    let e3 = e2.drop_first();
    let e4 = e3.drop_first();
    let e5 = e4.drop_first();
    assert(e1[0] == es[1] && e2[0] == es[2] && e3[0] == es[3] && e4[0] == es[4] && e5[0] == es[5]);
    reveal_with_fuel(found, 7);
}

/// A reader of JSON finds the exit code in the line that ends a session: one
/// object of two members, the kind and the number with its sign.
pub proof fn exit_is_read_back(code: int)
    ensures
        ({
            let line = wire::object(wire::exit_members(code));
            &&& object(line) is Some
            &&& object(line)->0.len() == 2
            &&& member(line, "t"@) == Some(Datum::Text("exit"@))
            &&& member(line, "code"@) == Some(Datum::Number(code))
        }),
{
    let members = wire::exit_members(code);
    let es = seq![
        Entry { key: "code"@, value: Datum::Number(code) },
        Entry { key: "t"@, value: Datum::Text("exit"@) },
    ];
    assert(written_from(members, es));
    object_is_read(members, es);
    wire::keys_differ();
    assert(es.drop_first()[0] == es[1]);
    reveal_with_fuel(found, 3);
}

} // verus!
