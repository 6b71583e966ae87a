//! The output: frames and the end of a session as JSON objects, one per line.
use crate::emit::Frame;
use crate::text;
use vstd::prelude::*;

verus! {

// --- JSON text ---------------------------------------------------------------

/// A character inside a JSON string.
pub open spec fn quoted_char(c: char) -> Seq<char> {
    if c == '"' {
        seq!['\\', '"']
    } else if c == '\\' {
        seq!['\\', '\\']
    } else if c == '\u{8}' {
        seq!['\\', 'b']
    } else if c == '\t' {
        seq!['\\', 't']
    } else if c == '\n' {
        seq!['\\', 'n']
    } else if c == '\u{c}' {
        seq!['\\', 'f']
    } else if c == '\r' {
        seq!['\\', 'r']
    } else if (c as u32) < 0x20 {
        seq!['\\', 'u', '0', '0'] + text::hex2(c as u8)
    } else {
        seq![c]
    }
}

/// Text inside a JSON string.
pub open spec fn quoted_text(s: Seq<char>) -> Seq<char>
    decreases s.len(),
{
    if s.len() == 0 {
        seq![]
    } else {
        quoted_char(s[0]) + quoted_text(s.drop_first())
    }
}

/// A JSON string.
pub open spec fn quoted(s: Seq<char>) -> Seq<char> {
    seq!['"'] + quoted_text(s) + seq!['"']
}

/// Pieces with commas between them.
pub open spec fn comma_joined(pieces: Seq<Seq<char>>) -> Seq<char>
    decreases pieces.len(),
{
    if pieces.len() == 0 {
        seq![]
    } else if pieces.len() == 1 {
        pieces[0]
    } else {
        pieces[0] + seq![','] + comma_joined(pieces.drop_first())
    }
}

/// A JSON array of strings.
pub open spec fn quoted_list(items: Seq<Seq<char>>) -> Seq<char> {
    seq!['['] + comma_joined(Seq::new(items.len(), |i: int| quoted(items[i]))) + seq![']']
}

/// A member of a JSON object: its key, and the JSON text of its value.
pub struct Member {
    pub key: Seq<char>,
    pub value: Seq<char>,
}

/// A JSON object with the given members, in that order.
pub open spec fn object(members: Seq<Member>) -> Seq<char> {
    seq!['{'] + comma_joined(
        Seq::new(
            members.len(),
            |i: int| quoted(members[i].key) + seq![':'] + members[i].value,
        ),
    ) + seq!['}']
}

/// The texts of strings.
pub open spec fn texts(items: Seq<String>) -> Seq<Seq<char>> {
    Seq::new(items.len(), |i: int| items[i]@)
}

/// Whether `a` comes before `b` because they part at position `k`.
pub open spec fn before_at(a: Seq<char>, b: Seq<char>, k: int) -> bool {
    &&& 0 <= k <= a.len()
    &&& k < b.len()
    &&& a.take(k) == b.take(k)
    &&& k < a.len() ==> a[k] < b[k]
}

/// The order of texts by their characters.
pub open spec fn before(a: Seq<char>, b: Seq<char>) -> bool {
    exists|k: int| before_at(a, b, k)
}

/// Whether `members` lists what `contents` holds, by ascending key.
pub open spec fn lists(members: Seq<Member>, contents: Map<Seq<char>, Seq<char>>) -> bool {
    &&& forall|i: int, j: int|
        0 <= i < j < members.len() ==> before(
            (#[trigger] members[i]).key,
            (#[trigger] members[j]).key,
        )
    &&& forall|i: int|
        0 <= i < members.len() ==> contents.contains_pair(
            (#[trigger] members[i]).key,
            members[i].value,
        )
    &&& forall|key: Seq<char>| #[trigger]
        contents.contains_key(key) ==> exists|i: int|
            0 <= i < members.len() && (#[trigger] members[i]).key == key
}

// --- serde_json objects ------------------------------------------------------

/// `serde_json::Value`, a JSON value of any kind.
#[verifier::external_type_specification]
#[verifier::external_body]
pub struct ExValue(serde_json::Value);

/// `serde_json::Map`, the members of a JSON object.
#[verifier::external_type_specification]
#[verifier::external_body]
#[verifier::reject_recursive_types(K)]
#[verifier::reject_recursive_types(V)]
pub struct ExMap<K, V>(serde_json::Map<K, V>);

/// What a map holds: for each key the JSON text of its value.
pub uninterp spec fn contents(
    map: serde_json::Map<String, serde_json::Value>,
) -> Map<Seq<char>, Seq<char>>;

/// `serde_json::Map::new` makes a map without members.
#[verifier::external_body]
fn no_members() -> (res: serde_json::Map<String, serde_json::Value>)
    ensures
        contents(res).dom().is_empty(),
{
    serde_json::Map::new()
}

/// `serde_json::Map::insert` with a number made by `Value::from(u64)`: the
/// key now stands for the number, which is written as its decimal numeral.
#[verifier::external_body]
fn put_number(map: &mut serde_json::Map<String, serde_json::Value>, key: &str, n: u64)
    ensures
        contents(*final(map)) == contents(*old(map)).insert(key@, text::decimal(n as nat)),
{
    map.insert(key.to_string(), serde_json::Value::from(n));
}

/// `serde_json::Map::insert` with a number made by `Value::from(i64)`: the
/// key now stands for the number, which is written as its decimal numeral,
/// with a minus sign where it is negative.
#[verifier::external_body]
fn put_integer(map: &mut serde_json::Map<String, serde_json::Value>, key: &str, n: i64)
    ensures
        contents(*final(map)) == contents(*old(map)).insert(key@, text::decimal_int(n as int)),
{
    map.insert(key.to_string(), serde_json::Value::from(n));
}

/// `serde_json::Map::insert` with a string made by `Value::from(&str)`: the
/// key now stands for the string, which is written between quotes with
/// quotes, backslashes and control characters escaped.
#[verifier::external_body]
fn put_text(map: &mut serde_json::Map<String, serde_json::Value>, key: &str, s: &str)
    ensures
        contents(*final(map)) == contents(*old(map)).insert(key@, quoted(s@)),
{
    map.insert(key.to_string(), serde_json::Value::from(s));
}

/// `serde_json::Map::insert` with an array made by `Value::from(&[String])`:
/// the key now stands for the array, which is written as its strings between
/// brackets.
#[verifier::external_body]
fn put_texts(
    map: &mut serde_json::Map<String, serde_json::Value>,
    key: &str,
    items: &Vec<String>,
)
    ensures
        contents(*final(map)) == contents(*old(map)).insert(key@, quoted_list(texts(items@))),
{
    map.insert(key.to_string(), serde_json::Value::from(items.as_slice()));
}

/// `Display` of a `serde_json::Value::Object`: the members in the order of
/// their keys (the map is a `BTreeMap`, the `preserve_order` feature being
/// off), without any white space between tokens.
#[verifier::external_body]
fn object_text(map: serde_json::Map<String, serde_json::Value>) -> (res: String)
    ensures
        forall|members: Seq<Member>| #[trigger]
            lists(members, contents(map)) ==> res@ == object(members),
{
    serde_json::Value::Object(map).to_string()
}

// --- lines -------------------------------------------------------------------

/// The members of a keyframe.
pub open spec fn screen_members(seqno: nat, cols: nat, rows: nat, html: Seq<char>) -> Seq<Member> {
    seq![
        Member { key: "cols"@, value: text::decimal(cols) },
        Member { key: "html"@, value: quoted(html) },
        Member { key: "rows"@, value: text::decimal(rows) },
        Member { key: "seqno"@, value: text::decimal(seqno) },
        Member { key: "t"@, value: quoted("screen"@) },
    ]
}

/// The members of a diff.
pub open spec fn diff_members(
    seqno: nat,
    target: Seq<char>,
    patch: Seq<char>,
    append: Seq<char>,
    trim: Seq<Seq<char>>,
) -> Seq<Member> {
    seq![
        Member { key: "append"@, value: quoted(append) },
        Member { key: "patch"@, value: quoted(patch) },
        Member { key: "seqno"@, value: text::decimal(seqno) },
        Member { key: "t"@, value: quoted("diff"@) },
        Member { key: "target"@, value: quoted(target) },
        Member { key: "trim"@, value: quoted_list(trim) },
    ]
}

/// The members of the line that ends a session.
pub open spec fn exit_members(code: int) -> Seq<Member> {
    seq![
        Member { key: "code"@, value: text::decimal_int(code) },
        Member { key: "t"@, value: quoted("exit"@) },
    ]
}

/// The line of a frame.
pub open spec fn frame_text(f: Frame) -> Seq<char> {
    match f {
        Frame::Screen { seqno, cols, rows, html } => object(
            screen_members(seqno as nat, cols as nat, rows as nat, html@),
        ),
        Frame::Diff { seqno, target, patch, append, trim } => object(
            diff_members(seqno as nat, target@, patch@, append@, texts(trim@)),
        ),
    }
}

proof fn key_order()
    ensures
        before("cols"@, "html"@),
        before("cols"@, "rows"@),
        before("cols"@, "seqno"@),
        before("cols"@, "t"@),
        before("html"@, "rows"@),
        before("html"@, "seqno"@),
        before("html"@, "t"@),
        before("rows"@, "seqno"@),
        before("rows"@, "t"@),
        before("seqno"@, "t"@),
        before("append"@, "patch"@),
        before("append"@, "seqno"@),
        before("append"@, "t"@),
        before("append"@, "target"@),
        before("append"@, "trim"@),
        before("patch"@, "seqno"@),
        before("patch"@, "t"@),
        before("patch"@, "target"@),
        before("patch"@, "trim"@),
        before("seqno"@, "target"@),
        before("seqno"@, "trim"@),
        before("t"@, "target"@),
        before("t"@, "trim"@),
        before("target"@, "trim"@),
        before("code"@, "t"@),
{
    reveal_strlit("cols");
    reveal_strlit("html");
    reveal_strlit("rows");
    reveal_strlit("seqno");
    reveal_strlit("t");
    reveal_strlit("append");
    reveal_strlit("patch");
    reveal_strlit("target");
    reveal_strlit("trim");
    reveal_strlit("code");
    assert forall|a: Seq<char>, b: Seq<char>|
        a.len() > 0 && b.len() > 0 && a[0] < b[0] implies #[trigger] before(a, b) by {
        assert(a.take(0) =~= b.take(0));
        assert(before_at(a, b, 0));
    }
    assert("t"@.take(1) =~= "target"@.take(1));
    assert(before_at("t"@, "target"@, 1));
    assert("t"@.take(1) =~= "trim"@.take(1));
    assert(before_at("t"@, "trim"@, 1));
    assert("target"@.take(1) =~= "trim"@.take(1));
    assert(before_at("target"@, "trim"@, 1));
}

/// The JSON line of a frame, without the line break.
pub fn frame_line(f: &Frame) -> (res: String)
    ensures
        res@ == frame_text(*f),
{
    let mut map = no_members();
    proof {
        key_order();
    }
    match f {
        Frame::Screen { seqno, cols, rows, html } => {
            put_text(&mut map, "t", "screen");
            put_number(&mut map, "seqno", *seqno as u64);
            put_number(&mut map, "cols", *cols as u64);
            put_number(&mut map, "rows", *rows as u64);
            put_text(&mut map, "html", html.as_str());
            proof {
                let members = screen_members(*seqno as nat, *cols as nat, *rows as nat, html@);
                assert(members[0].key == "cols"@);
                assert(members[1].key == "html"@);
                assert(members[2].key == "rows"@);
                assert(members[3].key == "seqno"@);
                assert(members[4].key == "t"@);
                keys_differ();
                assert(lists(members, contents(map)));
            }
        },
        Frame::Diff { seqno, target, patch, append, trim } => {
            put_text(&mut map, "t", "diff");
            put_number(&mut map, "seqno", *seqno as u64);
            put_text(&mut map, "target", target.as_str());
            put_text(&mut map, "patch", patch.as_str());
            put_text(&mut map, "append", append.as_str());
            put_texts(&mut map, "trim", trim);
            proof {
                let members = diff_members(
                    *seqno as nat,
                    target@,
                    patch@,
                    append@,
                    texts(trim@),
                );
                assert(members[0].key == "append"@);
                assert(members[1].key == "patch"@);
                assert(members[2].key == "seqno"@);
                assert(members[3].key == "t"@);
                assert(members[4].key == "target"@);
                assert(members[5].key == "trim"@);
                keys_differ();
                assert(lists(members, contents(map)));
            }
        },
    }
    object_text(map)
}

/// No two keys of a line are the same.
pub proof fn keys_differ()
    ensures
        "cols"@ != "html"@,
        "cols"@ != "rows"@,
        "cols"@ != "seqno"@,
        "cols"@ != "t"@,
        "html"@ != "rows"@,
        "html"@ != "seqno"@,
        "html"@ != "t"@,
        "rows"@ != "seqno"@,
        "rows"@ != "t"@,
        "seqno"@ != "t"@,
        "append"@ != "patch"@,
        "append"@ != "seqno"@,
        "append"@ != "t"@,
        "append"@ != "target"@,
        "append"@ != "trim"@,
        "patch"@ != "seqno"@,
        "patch"@ != "t"@,
        "patch"@ != "target"@,
        "patch"@ != "trim"@,
        "seqno"@ != "target"@,
        "seqno"@ != "trim"@,
        "t"@ != "target"@,
        "t"@ != "trim"@,
        "target"@ != "trim"@,
        "code"@ != "t"@,
{
    reveal_strlit("cols");
    reveal_strlit("html");
    reveal_strlit("rows");
    reveal_strlit("seqno");
    reveal_strlit("t");
    reveal_strlit("append");
    reveal_strlit("patch");
    reveal_strlit("target");
    reveal_strlit("trim");
    reveal_strlit("code");
    assert("cols"@[0] == 'c' && "html"@[0] == 'h' && "rows"@[0] == 'r' && "seqno"@[0] == 's');
    assert("t"@[0] == 't' && "append"@[0] == 'a' && "patch"@[0] == 'p' && "code"@[0] == 'c');
    assert("t"@.len() == 1 && "target"@.len() == 6 && "trim"@.len() == 4);
    assert("target"@[0] == 't' && "trim"@[0] == 't' && "target"@[1] == 'a' && "trim"@[1] == 'r');
}

/// The JSON line that ends a session, without the line break.
pub fn exit_line(code: i64) -> (res: String)
    ensures
        res@ == object(exit_members(code as int)),
{
    let mut map = no_members();
    put_text(&mut map, "t", "exit");
    put_integer(&mut map, "code", code);
    proof {
        key_order();
        keys_differ();
        let members = exit_members(code as int);
        assert(members[0].key == "code"@);
        assert(members[1].key == "t"@);
        assert(lists(members, contents(map)));
    }
    object_text(map)
}

// --- laws --------------------------------------------------------------------

/// Whether no control character is in `s`.
pub open spec fn printable(s: Seq<char>) -> bool {
    forall|i: int| 0 <= i < s.len() ==> (#[trigger] s[i]) as u32 >= 0x20
}

proof fn printable_join(a: Seq<char>, b: Seq<char>)
    requires
        printable(a),
        printable(b),
    ensures
        printable(a + b),
{
    assert forall|i: int| 0 <= i < (a + b).len() implies (#[trigger] (a + b)[i]) as u32 >= 0x20 by {
        if i < a.len() {
            assert((a + b)[i] == a[i]);
        } else {
            assert((a + b)[i] == b[i - a.len()]);
        }
    }
}

proof fn quoted_is_printable(s: Seq<char>)
    ensures
        printable(quoted_text(s)),
        printable(quoted(s)),
    decreases s.len(),
{
    if s.len() > 0 {
        quoted_is_printable(s.drop_first());
        assert(printable(quoted_char(s[0])));
        printable_join(quoted_char(s[0]), quoted_text(s.drop_first()));
    }
    printable_join(seq!['"'], quoted_text(s));
    printable_join(seq!['"'] + quoted_text(s), seq!['"']);
}

proof fn decimal_is_printable(n: int)
    ensures
        printable(text::decimal_int(n)),
        n >= 0 ==> printable(text::decimal(n as nat)),
{
    let d = text::decimal(
        if n < 0 {
            (-n) as nat
        } else {
            n as nat
        },
    );
    text::decimal_reads_back(
        if n < 0 {
            (-n) as nat
        } else {
            n as nat
        },
    );
    assert forall|i: int| 0 <= i < d.len() implies (#[trigger] d[i]) as u32 >= 0x20 by {
        assert(text::is_digit(d[i]));
    }
    printable_join(seq!['-'], d);
}

proof fn joined_is_printable(pieces: Seq<Seq<char>>)
    requires
        forall|i: int| 0 <= i < pieces.len() ==> printable(#[trigger] pieces[i]),
    ensures
        printable(comma_joined(pieces)),
    decreases pieces.len(),
{
    if pieces.len() > 1 {
        let rest = pieces.drop_first();
        assert forall|i: int| 0 <= i < rest.len() implies printable(#[trigger] rest[i]) by {
            assert(rest[i] == pieces[i + 1]);
        }
        joined_is_printable(rest);
        printable_join(pieces[0], seq![',']);
        printable_join(pieces[0] + seq![','], comma_joined(rest));
    } else if pieces.len() == 1 {
        assert(printable(pieces[0]));
    }
}

proof fn object_is_printable(members: Seq<Member>)
    requires
        forall|i: int| 0 <= i < members.len() ==> printable((#[trigger] members[i]).value),
    ensures
        printable(object(members)),
{
    let pieces = Seq::new(
        members.len(),
        |i: int| quoted(members[i].key) + seq![':'] + members[i].value,
    );
    assert forall|i: int| 0 <= i < pieces.len() implies printable(#[trigger] pieces[i]) by {
        quoted_is_printable(members[i].key);
        printable_join(quoted(members[i].key), seq![':']);
        printable_join(quoted(members[i].key) + seq![':'], members[i].value);
    }
    joined_is_printable(pieces);
    printable_join(seq!['{'], comma_joined(pieces));
    printable_join(seq!['{'] + comma_joined(pieces), seq!['}']);
}

proof fn list_is_printable(items: Seq<Seq<char>>)
    ensures
        printable(quoted_list(items)),
{
    let pieces = Seq::new(items.len(), |i: int| quoted(items[i]));
    assert forall|i: int| 0 <= i < pieces.len() implies printable(#[trigger] pieces[i]) by {
        quoted_is_printable(items[i]);
    }
    joined_is_printable(pieces);
    printable_join(seq!['['], comma_joined(pieces));
    printable_join(seq!['['] + comma_joined(pieces), seq![']']);
}

/// A frame is one line: neither a line break nor any other control character
/// is in it, whatever the rows hold.
pub proof fn frame_is_one_line(f: Frame)
    ensures
        printable(frame_text(f)),
{
    match f {
        Frame::Screen { seqno, cols, rows, html } => {
            decimal_is_printable(seqno as int);
            decimal_is_printable(cols as int);
            decimal_is_printable(rows as int);
            quoted_is_printable(html@);
            quoted_is_printable("screen"@);
            object_is_printable(
                screen_members(seqno as nat, cols as nat, rows as nat, html@),
            );
        },
        Frame::Diff { seqno, target, patch, append, trim } => {
            decimal_is_printable(seqno as int);
            quoted_is_printable(target@);
            quoted_is_printable(patch@);
            quoted_is_printable(append@);
            quoted_is_printable("diff"@);
            list_is_printable(texts(trim@));
            object_is_printable(
                diff_members(seqno as nat, target@, patch@, append@, texts(trim@)),
            );
        },
    }
}

/// The line that ends a session is one line too.
pub proof fn exit_is_one_line(code: int)
    ensures
        printable(object(exit_members(code))),
{
    decimal_is_printable(code);
    quoted_is_printable("exit"@);
    object_is_printable(exit_members(code));
}

proof fn hex_digits_differ(a: nat, b: nat)
    requires
        a < 16,
        b < 16,
        text::hex_digit(a) == text::hex_digit(b),
    ensures
        a == b,
{
}

proof fn quoted_char_tells(a: char, b: char, x: Seq<char>, y: Seq<char>)
    requires
        quoted_char(a) + x == quoted_char(b) + y,
    ensures
        a == b,
        x == y,
{
    let qa = quoted_char(a);
    let qb = quoted_char(b);
    let s = qa + x;
    assert(s[0] == qa[0] && s[0] == qb[0]);
    if s[0] == '\\' {
        assert(s[1] == qa[1] && s[1] == qb[1]);
        if s[1] == 'u' {
            assert(qa.len() == 6 && qb.len() == 6);
            assert(s[4] == qa[4] && s[4] == qb[4]);
            assert(s[5] == qa[5] && s[5] == qb[5]);
            let na = (a as u8) as nat;
            let nb = (b as u8) as nat;
            assert(qa[4] == text::hex_digit(na / 16) && qa[5] == text::hex_digit(na % 16));
            assert(qb[4] == text::hex_digit(nb / 16) && qb[5] == text::hex_digit(nb % 16));
            hex_digits_differ(na / 16, nb / 16);
            hex_digits_differ(na % 16, nb % 16);
        }
    }
    assert(a == b);
    assert(x =~= s.skip(qa.len() as int));
    assert(y =~= s.skip(qb.len() as int));
}

proof fn quoted_text_ends(a: Seq<char>, b: Seq<char>, x: Seq<char>, y: Seq<char>)
    requires
        quoted_text(a) + seq!['"'] + x == quoted_text(b) + seq!['"'] + y,
    ensures
        a == b,
        x == y,
    decreases a.len() + b.len(),
{
    let qx = seq!['"'] + x;
    let qy = seq!['"'] + y;
    assert(quoted_text(a) + seq!['"'] + x =~= quoted_text(a) + qx);
    assert(quoted_text(b) + seq!['"'] + y =~= quoted_text(b) + qy);
    if a.len() == 0 && b.len() == 0 {
        assert(quoted_text(a) + qx =~= qx);
        assert(quoted_text(b) + qy =~= qy);
        assert(x =~= qx.skip(1));
        assert(y =~= qy.skip(1));
        assert(a =~= b);
    } else if a.len() == 0 {
        let rest = quoted_text(b.drop_first()) + qy;
        assert(quoted_text(a) + qx =~= qx);
        assert(quoted_text(b) + qy =~= quoted_char(b[0]) + rest);
        assert(qx[0] == '"' && qx[0] == quoted_char(b[0])[0]);
    } else if b.len() == 0 {
        let rest = quoted_text(a.drop_first()) + qx;
        assert(quoted_text(b) + qy =~= qy);
        assert(quoted_text(a) + qx =~= quoted_char(a[0]) + rest);
        assert(qy[0] == '"' && qy[0] == quoted_char(a[0])[0]);
    } else {
        let ra = quoted_text(a.drop_first()) + qx;
        let rb = quoted_text(b.drop_first()) + qy;
        assert(quoted_text(a) + qx =~= quoted_char(a[0]) + ra);
        assert(quoted_text(b) + qy =~= quoted_char(b[0]) + rb);
        quoted_char_tells(a[0], b[0], ra, rb);
        assert(ra =~= quoted_text(a.drop_first()) + seq!['"'] + x);
        assert(rb =~= quoted_text(b.drop_first()) + seq!['"'] + y);
        quoted_text_ends(a.drop_first(), b.drop_first(), x, y);
        assert(a =~= seq![a[0]] + a.drop_first());
        assert(b =~= seq![b[0]] + b.drop_first());
    }
}

/// A string can be read off the front of a line: it tells both the text and
/// where it ends.
pub proof fn strings_read_back(a: Seq<char>, b: Seq<char>, x: Seq<char>, y: Seq<char>)
    requires
        quoted(a) + x == quoted(b) + y,
    ensures
        a == b,
        x == y,
{
    let s = quoted(a) + x;
    assert(s.skip(1) =~= quoted_text(a) + seq!['"'] + x);
    assert(s.skip(1) =~= quoted_text(b) + seq!['"'] + y);
    quoted_text_ends(a, b, x, y);
}

/// Whether a number ends where `x` begins: something is there, and no digit.
spec fn ends_number(x: Seq<char>) -> bool {
    x.len() > 0 && !text::is_digit(x[0])
}

proof fn numbers_read_back(a: nat, b: nat, x: Seq<char>, y: Seq<char>)
    requires
        text::decimal(a) + x == text::decimal(b) + y,
        ends_number(x),
        ends_number(y),
    ensures
        a == b,
        x == y,
{
    let da = text::decimal(a);
    let db = text::decimal(b);
    let s = da + x;
    text::decimal_reads_back(a);
    text::decimal_reads_back(b);
    if da.len() < db.len() {
        assert(s[da.len() as int] == x[0]);
        assert(s[da.len() as int] == db[da.len() as int]);
        assert(text::is_digit(db[da.len() as int]));
    }
    if db.len() < da.len() {
        assert(s[db.len() as int] == y[0]);
        assert(s[db.len() as int] == da[db.len() as int]);
        assert(text::is_digit(da[db.len() as int]));
    }
    assert(da =~= s.take(da.len() as int));
    assert(db =~= s.take(db.len() as int));
    text::decimal_is_faithful(a, b);
    assert(x =~= s.skip(da.len() as int));
    assert(y =~= s.skip(db.len() as int));
}

/// The strings of a list with commas between them.
pub open spec fn listed(items: Seq<Seq<char>>) -> Seq<char> {
    comma_joined(Seq::new(items.len(), |i: int| quoted(items[i])))
}

/// The first string of a list, and the rest.
pub proof fn listed_first(items: Seq<Seq<char>>)
    requires
        items.len() > 0,
    ensures
        items.len() == 1 ==> listed(items) == quoted(items[0]),
        items.len() > 1 ==> listed(items) == quoted(items[0]) + seq![','] + listed(
            items.drop_first(),
        ),
        listed(items).len() > 0 && listed(items)[0] == '"',
{
    let pieces = Seq::new(items.len(), |i: int| quoted(items[i]));
    let rest = items.drop_first();
    assert(pieces.drop_first() =~= Seq::new(rest.len(), |i: int| quoted(rest[i])));
    assert(quoted(items[0])[0] == '"');
}

proof fn listed_reads_back(
    a: Seq<Seq<char>>,
    b: Seq<Seq<char>>,
    x: Seq<char>,
    y: Seq<char>,
)
    requires
        listed(a) + seq![']'] + x == listed(b) + seq![']'] + y,
    ensures
        a == b,
        x == y,
    decreases a.len(),
{
    let s = listed(a) + seq![']'] + x;
    if a.len() == 0 || b.len() == 0 {
        if a.len() > 0 {
            listed_first(a);
            assert(s[0] == listed(a)[0]);
            assert(s[0] == ']');
        }
        if b.len() > 0 {
            listed_first(b);
            assert(s[0] == listed(b)[0]);
            assert(s[0] == ']');
        }
        assert(a =~= b);
        assert(x =~= s.skip(1));
        assert(y =~= s.skip(1));
    } else {
        listed_first(a);
        listed_first(b);
        let ra = a.drop_first();
        let rb = b.drop_first();
        let ta = if a.len() == 1 {
            seq![']'] + x
        } else {
            seq![','] + listed(ra) + seq![']'] + x
        };
        let tb = if b.len() == 1 {
            seq![']'] + y
        } else {
            seq![','] + listed(rb) + seq![']'] + y
        };
        assert(s =~= quoted(a[0]) + ta);
        assert(s =~= quoted(b[0]) + tb);
        strings_read_back(a[0], b[0], ta, tb);
        assert(ta[0] == tb[0]);
        if a.len() == 1 {
            assert(b.len() == 1);
            assert(x =~= ta.skip(1));
            assert(y =~= tb.skip(1));
            assert(a =~= b);
        } else {
            assert(ta.skip(1) =~= listed(ra) + seq![']'] + x);
            assert(tb.skip(1) =~= listed(rb) + seq![']'] + y);
            listed_reads_back(ra, rb, x, y);
            assert(a =~= seq![a[0]] + ra);
            assert(b =~= seq![b[0]] + rb);
        }
    }
}

/// What the value of a member is.
enum Kind {
    Number(nat),
    Text(Seq<char>),
    List(Seq<Seq<char>>),
}

spec fn kind_text(k: Kind) -> Seq<char> {
    match k {
        Kind::Number(n) => text::decimal(n),
        Kind::Text(s) => quoted(s),
        Kind::List(items) => quoted_list(items),
    }
}

spec fn same_kind(a: Kind, b: Kind) -> bool {
    match a {
        Kind::Number(_) => b is Number,
        Kind::Text(_) => b is Text,
        Kind::List(_) => b is List,
    }
}

proof fn value_reads_back(a: Kind, b: Kind, x: Seq<char>, y: Seq<char>)
    requires
        same_kind(a, b),
        kind_text(a) + x == kind_text(b) + y,
        ends_number(x),
        ends_number(y),
    ensures
        a == b,
        x == y,
{
    match (a, b) {
        (Kind::Number(m), Kind::Number(n)) => {
            numbers_read_back(m, n, x, y);
        },
        (Kind::Text(s), Kind::Text(t)) => {
            strings_read_back(s, t, x, y);
        },
        (Kind::List(s), Kind::List(t)) => {
            let whole = kind_text(a) + x;
            assert(whole.skip(1) =~= listed(s) + seq![']'] + x);
            assert(whole.skip(1) =~= listed(t) + seq![']'] + y);
            listed_reads_back(s, t, x, y);
        },
        _ => {},
    }
}

/// Members from their keys and what their values are.
spec fn members_of(keys: Seq<Seq<char>>, kinds: Seq<Kind>) -> Seq<Member> {
    Seq::new(keys.len(), |i: int| Member { key: keys[i], value: kind_text(kinds[i]) })
}

/// The members with commas between them.
pub open spec fn spelled(members: Seq<Member>) -> Seq<char> {
    comma_joined(
        Seq::new(
            members.len(),
            |i: int| quoted(members[i].key) + seq![':'] + members[i].value,
        ),
    )
}

/// The first of some members, and the rest.
pub proof fn spelled_first(members: Seq<Member>)
    requires
        members.len() > 0,
    ensures
        members.len() == 1 ==> spelled(members) == quoted(members[0].key) + seq![':']
            + members[0].value,
        members.len() > 1 ==> spelled(members) == quoted(members[0].key) + seq![':']
            + members[0].value + seq![','] + spelled(members.drop_first()),
{
    let pieces = Seq::new(
        members.len(),
        |i: int| quoted(members[i].key) + seq![':'] + members[i].value,
    );
    let rest = members.drop_first();
    assert(pieces.drop_first() =~= Seq::new(
        rest.len(),
        |i: int| quoted(rest[i].key) + seq![':'] + rest[i].value,
    ));
}

proof fn members_read_back(keys: Seq<Seq<char>>, a: Seq<Kind>, b: Seq<Kind>)
    requires
        a.len() == keys.len(),
        b.len() == keys.len(),
        forall|i: int| 0 <= i < keys.len() ==> same_kind(#[trigger] a[i], b[i]),
        spelled(members_of(keys, a)) + seq!['}'] == spelled(members_of(keys, b)) + seq!['}'],
    ensures
        a == b,
    decreases keys.len(),
{
    if keys.len() == 0 {
        assert(a =~= b);
    } else {
        let ma = members_of(keys, a);
        let mb = members_of(keys, b);
        let rk = keys.drop_first();
        let ra = a.drop_first();
        let rb = b.drop_first();
        spelled_first(ma);
        spelled_first(mb);
        assert(ma.drop_first() =~= members_of(rk, ra));
        assert(mb.drop_first() =~= members_of(rk, rb));
        let head = quoted(keys[0]) + seq![':'];
        let s = spelled(ma) + seq!['}'];
        let ta = if keys.len() == 1 {
            seq!['}']
        } else {
            seq![','] + spelled(members_of(rk, ra)) + seq!['}']
        };
        let tb = if keys.len() == 1 {
            seq!['}']
        } else {
            seq![','] + spelled(members_of(rk, rb)) + seq!['}']
        };
        assert(s =~= head + kind_text(a[0]) + ta);
        assert(s =~= head + kind_text(b[0]) + tb);
        assert(s.skip(head.len() as int) =~= kind_text(a[0]) + ta);
        assert(s.skip(head.len() as int) =~= kind_text(b[0]) + tb);
        assert(same_kind(a[0], b[0]));
        value_reads_back(a[0], b[0], ta, tb);
        if keys.len() > 1 {
            assert(ta.skip(1) =~= spelled(members_of(rk, ra)) + seq!['}']);
            assert(tb.skip(1) =~= spelled(members_of(rk, rb)) + seq!['}']);
        } else {
            assert(members_of(rk, ra) =~= members_of(rk, rb));
        }
        assert forall|i: int| 0 <= i < rk.len() implies same_kind(#[trigger] ra[i], rb[i]) by {
            assert(same_kind(a[i + 1], b[i + 1]));
        }
        members_read_back(rk, ra, rb);
        assert(a =~= seq![a[0]] + ra);
        assert(b =~= seq![b[0]] + rb);
    }
}

proof fn objects_read_back(keys: Seq<Seq<char>>, a: Seq<Kind>, b: Seq<Kind>)
    requires
        a.len() == keys.len(),
        b.len() == keys.len(),
        forall|i: int| 0 <= i < keys.len() ==> same_kind(#[trigger] a[i], b[i]),
        object(members_of(keys, a)) == object(members_of(keys, b)),
    ensures
        a == b,
{
    let s = object(members_of(keys, a));
    assert(s.skip(1) =~= spelled(members_of(keys, a)) + seq!['}']);
    assert(s.skip(1) =~= spelled(members_of(keys, b)) + seq!['}']);
    members_read_back(keys, a, b);
}

/// A line tells the frame: where two frames have the same line, they are of
/// the same kind and agree in everything they carry.
pub proof fn lines_tell_frames_apart(f: Frame, g: Frame)
    requires
        frame_text(f) == frame_text(g),
    ensures
        match (f, g) {
            (
                Frame::Screen { seqno, cols, rows, html },
                Frame::Screen { seqno: seqno2, cols: cols2, rows: rows2, html: html2 },
            ) => seqno == seqno2 && cols == cols2 && rows == rows2 && html@ == html2@,
            (
                Frame::Diff { seqno, target, patch, append, trim },
                Frame::Diff {
                    seqno: seqno2,
                    target: target2,
                    patch: patch2,
                    append: append2,
                    trim: trim2,
                },
            ) => seqno == seqno2 && target@ == target2@ && patch@ == patch2@ && append@
                == append2@ && texts(trim@) == texts(trim2@),
            _ => false,
        },
{
    match (f, g) {
        (
            Frame::Screen { seqno, cols, rows, html },
            Frame::Screen { seqno: seqno2, cols: cols2, rows: rows2, html: html2 },
        ) => {
            screens_read_back(
                (seqno as nat, cols as nat, rows as nat, html@),
                (seqno2 as nat, cols2 as nat, rows2 as nat, html2@),
            );
        },
        (
            Frame::Diff { seqno, target, patch, append, trim },
            Frame::Diff {
                seqno: seqno2,
                target: target2,
                patch: patch2,
                append: append2,
                trim: trim2,
            },
        ) => {
            diffs_read_back(
                (seqno as nat, target@, patch@, append@, texts(trim@)),
                (seqno2 as nat, target2@, patch2@, append2@, texts(trim2@)),
            );
        },
        (
            Frame::Screen { seqno, cols, rows, html },
            Frame::Diff { seqno: seqno2, target, patch, append, trim },
        ) => {
            screens_are_no_diffs(
                (seqno as nat, cols as nat, rows as nat, html@),
                (seqno2 as nat, target@, patch@, append@, texts(trim@)),
            );
        },
        (
            Frame::Diff { seqno: seqno2, target, patch, append, trim },
            Frame::Screen { seqno, cols, rows, html },
        ) => {
            screens_are_no_diffs(
                (seqno as nat, cols as nat, rows as nat, html@),
                (seqno2 as nat, target@, patch@, append@, texts(trim@)),
            );
        },
    }
}

proof fn screens_are_no_diffs(
    a: (nat, nat, nat, Seq<char>),
    b: (nat, Seq<char>, Seq<char>, Seq<char>, Seq<Seq<char>>),
)
    ensures
        object(screen_members(a.0, a.1, a.2, a.3)) != object(
            diff_members(b.0, b.1, b.2, b.3, b.4),
        ),
{
    reveal_strlit("cols");
    reveal_strlit("append");
    assert("cols"@[0] == 'c' && "append"@[0] == 'a');
    object_starts(screen_members(a.0, a.1, a.2, a.3));
    object_starts(diff_members(b.0, b.1, b.2, b.3, b.4));
}

proof fn object_starts(members: Seq<Member>)
    requires
        members.len() > 1,
        members[0].key.len() > 0,
        quoted_char(members[0].key[0]) == seq![members[0].key[0]],
    ensures
        object(members)[2] == members[0].key[0],
{
    spelled_first(members);
    let key = members[0].key;
    assert(quoted_text(key)[0] == key[0]);
    assert(quoted(key)[1] == key[0]);
    assert(spelled(members)[1] == key[0]);
}

proof fn screens_read_back(
    a: (nat, nat, nat, Seq<char>),
    b: (nat, nat, nat, Seq<char>),
)
    requires
        object(screen_members(a.0, a.1, a.2, a.3)) == object(screen_members(b.0, b.1, b.2, b.3)),
    ensures
        a == b,
{
    let keys = seq!["cols"@, "html"@, "rows"@, "seqno"@, "t"@];
    let ka = seq![
        Kind::Number(a.1),
        Kind::Text(a.3),
        Kind::Number(a.2),
        Kind::Number(a.0),
        Kind::Text("screen"@),
    ];
    let kb = seq![
        Kind::Number(b.1),
        Kind::Text(b.3),
        Kind::Number(b.2),
        Kind::Number(b.0),
        Kind::Text("screen"@),
    ];
    assert(members_of(keys, ka) =~= screen_members(a.0, a.1, a.2, a.3));
    assert(members_of(keys, kb) =~= screen_members(b.0, b.1, b.2, b.3));
    objects_read_back(keys, ka, kb);
    assert(ka[0] == kb[0] && ka[1] == kb[1] && ka[2] == kb[2] && ka[3] == kb[3]);
}

proof fn diffs_read_back(
    a: (nat, Seq<char>, Seq<char>, Seq<char>, Seq<Seq<char>>),
    b: (nat, Seq<char>, Seq<char>, Seq<char>, Seq<Seq<char>>),
)
    requires
        object(diff_members(a.0, a.1, a.2, a.3, a.4)) == object(
            diff_members(b.0, b.1, b.2, b.3, b.4),
        ),
    ensures
        a == b,
{
    let keys = seq!["append"@, "patch"@, "seqno"@, "t"@, "target"@, "trim"@];
    let ka = seq![
        Kind::Text(a.3),
        Kind::Text(a.2),
        Kind::Number(a.0),
        Kind::Text("diff"@),
        Kind::Text(a.1),
        Kind::List(a.4),
    ];
    let kb = seq![
        Kind::Text(b.3),
        Kind::Text(b.2),
        Kind::Number(b.0),
        Kind::Text("diff"@),
        Kind::Text(b.1),
        Kind::List(b.4),
    ];
    assert(members_of(keys, ka) =~= diff_members(a.0, a.1, a.2, a.3, a.4));
    assert(members_of(keys, kb) =~= diff_members(b.0, b.1, b.2, b.3, b.4));
    objects_read_back(keys, ka, kb);
    assert(ka[0] == kb[0] && ka[1] == kb[1] && ka[2] == kb[2] && ka[4] == kb[4] && ka[5] == kb[5]);
}

} // verus!
