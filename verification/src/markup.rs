//! Reading markup: elements and their tags, the attributes of a tag, class
//! names and style declarations.
//!
//! Nothing here knows how the markup is written. The reader goes through the
//! text one character at a time, the way a browser does: a tag goes from `<`
//! to the first `>` that is not between quotes, `</` ends the element that was
//! opened last.
use crate::text;
use vstd::prelude::*;

verus! {

// --- searching ---------------------------------------------------------------

/// The position of the first `c` in `s`, or the length of `s`.
pub open spec fn first_index(s: Seq<char>, c: char) -> nat
    decreases s.len(),
{
    if s.len() == 0 || s[0] == c {
        0
    } else {
        1 + first_index(s.drop_first(), c)
    }
}

/// `s` from position `n` on, nothing where that is past its end.
pub open spec fn from_index(s: Seq<char>, n: nat) -> Seq<char> {
    if n <= s.len() {
        s.skip(n as int)
    } else {
        seq![]
    }
}

/// `s` up to position `n`, all of it where that is past its end.
pub open spec fn to_index(s: Seq<char>, n: nat) -> Seq<char> {
    if n <= s.len() {
        s.take(n as int)
    } else {
        s
    }
}

pub proof fn first_index_bound(s: Seq<char>, c: char)
    ensures
        first_index(s, c) <= s.len(),
    decreases s.len(),
{
    if s.len() > 0 && s[0] != c {
        first_index_bound(s.drop_first(), c);
    }
}

pub proof fn first_index_after(a: Seq<char>, b: Seq<char>, c: char)
    requires
        text::lacks(a, c),
        b.len() == 0 || b[0] == c,
    ensures
        first_index(a + b, c) == a.len(),
    decreases a.len(),
{
    if a.len() == 0 {
        assert(a + b =~= b);
    } else {
        let rest = a.drop_first();
        assert forall|i: int| 0 <= i < rest.len() implies #[trigger] rest[i] != c by {
            assert(rest[i] == a[i + 1]);
        }
        assert((a + b).drop_first() =~= rest + b);
        assert((a + b)[0] == a[0]);
        first_index_after(rest, b, c);
    }
}

// --- attributes --------------------------------------------------------------

/// An attribute of a tag, or a declaration of a style.
pub struct Attr {
    pub name: Seq<char>,
    pub value: Seq<char>,
}

/// The attributes at the start of `s`, each with a space before it.
pub open spec fn attrs_at(s: Seq<char>) -> Seq<Attr>
    decreases s.len(),
{
    if s.len() == 0 || s[0] != ' ' {
        seq![]
    } else {
        let eq = first_index(s, '=');
        let rest = from_index(s, eq + 2);
        let end = first_index(rest, '"');
        seq![Attr { name: to_index(s, eq).drop_first(), value: to_index(rest, end) }] + attrs_at(
            from_index(rest, end + 1),
        )
    }
}

/// The name of the tag that `s` starts with.
pub open spec fn tag_name(s: Seq<char>) -> Seq<char> {
    let inner = from_index(s, 1);
    let space = first_index(inner, ' ');
    let end = first_index(inner, '>');
    to_index(
        inner,
        if space < end {
            space
        } else {
            end
        },
    )
}

/// The attributes of the tag that `s` starts with.
pub open spec fn tag_attrs(s: Seq<char>) -> Seq<Attr> {
    attrs_at(from_index(s, 1 + tag_name(s).len()))
}

/// The value of the attribute `name` among `attrs`.
pub open spec fn value_of(attrs: Seq<Attr>, name: Seq<char>) -> Option<Seq<char>>
    decreases attrs.len(),
{
    if attrs.len() == 0 {
        None
    } else if attrs[0].name == name {
        Some(attrs[0].value)
    } else {
        value_of(attrs.drop_first(), name)
    }
}

/// The value of the attribute `name` of the tag that `s` starts with.
pub open spec fn attribute(s: Seq<char>, name: Seq<char>) -> Option<Seq<char>> {
    value_of(tag_attrs(s), name)
}

/// An attribute as it is written.
pub open spec fn attr_text(a: Attr) -> Seq<char> {
    seq![' '] + a.name + seq!['=', '"'] + a.value + seq!['"']
}

/// Attributes as they are written.
pub open spec fn attrs_text(attrs: Seq<Attr>) -> Seq<char>
    decreases attrs.len(),
{
    if attrs.len() == 0 {
        seq![]
    } else {
        attr_text(attrs[0]) + attrs_text(attrs.drop_first())
    }
}

/// A start tag as it is written.
pub open spec fn tag_text(name: Seq<char>, attrs: Seq<Attr>) -> Seq<char> {
    seq!['<'] + name + attrs_text(attrs) + seq!['>']
}

/// Whether `s` can be a name: it holds no character that ends one.
pub open spec fn is_name(s: Seq<char>) -> bool {
    &&& text::lacks(s, ' ')
    &&& text::lacks(s, '=')
    &&& text::lacks(s, '"')
    &&& text::lacks(s, '>')
    &&& text::lacks(s, '<')
    &&& text::lacks(s, '/')
}

/// Whether attributes can be written as they are: no value holds a quote.
pub open spec fn writable(attrs: Seq<Attr>) -> bool {
    forall|i: int|
        0 <= i < attrs.len() ==> is_name((#[trigger] attrs[i]).name) && text::lacks(
            attrs[i].value,
            '"',
        )
}

pub proof fn writable_rest(attrs: Seq<Attr>)
    requires
        writable(attrs),
        attrs.len() > 0,
    ensures
        writable(attrs.drop_first()),
        is_name(attrs[0].name),
        text::lacks(attrs[0].value, '"'),
{
    let rest = attrs.drop_first();
    assert forall|i: int| 0 <= i < rest.len() implies is_name((#[trigger] rest[i]).name)
        && text::lacks(rest[i].value, '"') by {
        assert(rest[i] == attrs[i + 1]);
    }
}

pub proof fn attrs_parse_back(attrs: Seq<Attr>, rest: Seq<char>)
    requires
        writable(attrs),
        rest.len() == 0 || rest[0] != ' ',
    ensures
        attrs_at(attrs_text(attrs) + rest) == attrs,
    decreases attrs.len(),
{
    let s = attrs_text(attrs) + rest;
    if attrs.len() == 0 {
        assert(s =~= rest);
        assert(attrs_at(s) =~= attrs);
    } else {
        writable_rest(attrs);
        let a = attrs[0];
        let more = attrs_text(attrs.drop_first()) + rest;
        let head = seq![' '] + a.name;
        let tail = seq!['=', '"'] + a.value + seq!['"'] + more;
        text::lacks_join(seq![' '], a.name, '=');
        assert(s =~= head + tail);
        first_index_after(head, tail, '=');
        assert(s.skip(head.len() as int + 2) =~= a.value + (seq!['"'] + more));
        first_index_after(a.value, seq!['"'] + more, '"');
        let after = s.skip(head.len() as int + 2);
        assert(after.take(a.value.len() as int) =~= a.value);
        assert(after.skip(a.value.len() as int + 1) =~= more);
        assert(s.take(head.len() as int).drop_first() =~= a.name);
        attrs_parse_back(attrs.drop_first(), rest);
        assert(seq![a] + attrs.drop_first() =~= attrs);
    }
}

/// A written tag is read back: its name and its attributes, in order,
/// whatever follows the tag.
pub proof fn tags_parse_back(name: Seq<char>, attrs: Seq<Attr>, rest: Seq<char>)
    requires
        is_name(name),
        writable(attrs),
    ensures
        tag_name(tag_text(name, attrs) + rest) == name,
        tag_attrs(tag_text(name, attrs) + rest) == attrs,
{
    let s = tag_text(name, attrs) + rest;
    let tail = attrs_text(attrs) + seq!['>'] + rest;
    let inner = s.skip(1);
    assert(inner =~= name + tail);
    if attrs.len() == 0 {
        assert(tail =~= seq!['>'] + rest);
        first_index_after(name, tail, '>');
        first_index_not_before(name, tail, ' ');
    } else {
        assert(tail[0] == ' ');
        first_index_after(name, tail, ' ');
        first_index_not_before(name, tail, '>');
    }
    assert(inner.take(name.len() as int) =~= name);
    assert(s.skip(1 + name.len() as int) =~= attrs_text(attrs) + (seq!['>'] + rest));
    attrs_parse_back(attrs, seq!['>'] + rest);
}

proof fn first_index_not_before(a: Seq<char>, b: Seq<char>, c: char)
    requires
        text::lacks(a, c),
        b.len() > 0,
    ensures
        first_index(a + b, c) >= a.len(),
        b[0] != c ==> first_index(a + b, c) > a.len(),
    decreases a.len(),
{
    if a.len() == 0 {
        assert(a + b =~= b);
    } else {
        let rest = a.drop_first();
        assert forall|i: int| 0 <= i < rest.len() implies #[trigger] rest[i] != c by {
            assert(rest[i] == a[i + 1]);
        }
        assert((a + b).drop_first() =~= rest + b);
        assert((a + b)[0] == a[0]);
        first_index_not_before(rest, b, c);
    }
}

// --- class names -------------------------------------------------------------

/// The words of `s`, each with a space before it.
pub open spec fn words(s: Seq<char>) -> Seq<Seq<char>>
    decreases s.len(),
{
    if s.len() == 0 {
        seq![]
    } else {
        let rest = s.drop_first();
        let end = first_index(rest, ' ');
        seq![to_index(rest, end)] + words(from_index(rest, end))
    }
}

/// One word more.
pub proof fn words_first(w: Seq<char>, rest: Seq<char>)
    requires
        text::lacks(w, ' '),
        rest.len() == 0 || rest[0] == ' ',
    ensures
        words(seq![' '] + w + rest) == seq![w] + words(rest),
{
    let s = seq![' '] + w + rest;
    assert(s.drop_first() =~= w + rest);
    first_index_after(w, rest, ' ');
    assert((w + rest).take(w.len() as int) =~= w);
    assert((w + rest).skip(w.len() as int) =~= rest);
}

// --- style declarations ------------------------------------------------------

/// The declarations of a style: names and values with a colon between them,
/// and semicolons between the declarations.
pub open spec fn declarations(s: Seq<char>) -> Seq<Attr>
    decreases s.len(),
{
    if s.len() == 0 {
        seq![]
    } else {
        let end = first_index(s, ';');
        let one = to_index(s, end);
        let colon = first_index(one, ':');
        seq![Attr { name: to_index(one, colon), value: from_index(one, colon + 1) }]
            + declarations(from_index(s, end + 1))
    }
}

/// The value of the property `name` in a style.
pub open spec fn property(s: Seq<char>, name: Seq<char>) -> Option<Seq<char>> {
    value_of(declarations(s), name)
}

/// One declaration more. The last one may do without a semicolon.
pub proof fn declarations_first(name: Seq<char>, value: Seq<char>, rest: Seq<char>)
    requires
        text::lacks(name, ':'),
        text::lacks(name, ';'),
        text::lacks(value, ';'),
    ensures
        declarations(name + seq![':'] + value + seq![';'] + rest) == seq![Attr { name, value }]
            + declarations(rest),
        declarations(name + seq![':'] + value) == seq![Attr { name, value }],
{
    let one = name + seq![':'] + value;
    text::lacks_join(name, seq![':'], ';');
    text::lacks_join(name + seq![':'], value, ';');
    let s = one + (seq![';'] + rest);
    assert(s =~= name + seq![':'] + value + seq![';'] + rest);
    first_index_after(one, seq![';'] + rest, ';');
    assert(s.take(one.len() as int) =~= one);
    assert(s.skip(one.len() as int + 1) =~= rest);
    assert(one =~= name + (seq![':'] + value));
    first_index_after(name, seq![':'] + value, ':');
    assert(one.take(name.len() as int) =~= name);
    assert(one.skip(name.len() as int + 1) =~= value);
    assert(one + Seq::<char>::empty() =~= one);
    first_index_after(one, seq![], ';');
    assert(one.take(one.len() as int) =~= one);
    assert(declarations(seq![]) =~= Seq::<Attr>::empty());
    assert(seq![Attr { name, value }] + Seq::<Attr>::empty() =~= seq![Attr { name, value }]);
}

// --- the reader --------------------------------------------------------------

/// A character of text, and the start tags of the elements it stands in, the
/// outermost first.
pub struct Ink {
    pub c: char,
    pub under: Seq<Seq<char>>,
}

/// A reader somewhere in a markup. It collects the elements that stand at one
/// depth, and the text with the tags that are open around it.
pub struct Reader {
    /// how many elements are open around those that are collected
    pub depth: nat,
    /// the start tags of the elements that are open
    pub open: Seq<Seq<char>>,
    pub in_tag: bool,
    pub quoted: bool,
    /// the tag that is being read
    pub tag: Seq<char>,
    /// the elements that are complete
    pub done: Seq<Seq<char>>,
    /// what was read of the element after them
    pub cur: Seq<char>,
    pub ink: Seq<Ink>,
}

/// A reader at the start, for the elements at `depth`.
pub open spec fn start(depth: nat) -> Reader {
    Reader {
        depth,
        open: seq![],
        in_tag: false,
        quoted: false,
        tag: seq![],
        done: seq![],
        cur: seq![],
        ink: seq![],
    }
}

/// The reader after one more character.
pub open spec fn step(r: Reader, c: char) -> Reader {
    let cur = r.cur.push(c);
    let tag = r.tag.push(c);
    if !r.in_tag {
        if c == '<' {
            Reader { in_tag: true, quoted: false, tag: seq![c], cur, ..r }
        } else {
            Reader { cur, ink: r.ink.push(Ink { c, under: r.open }), ..r }
        }
    } else if c == '"' {
        Reader { quoted: !r.quoted, tag, cur, ..r }
    } else if c != '>' || r.quoted {
        Reader { tag, cur, ..r }
    } else if tag[1] == '/' {
        let open = if r.open.len() > 0 {
            r.open.drop_last()
        } else {
            r.open
        };
        if r.open.len() == r.depth + 1 {
            Reader { in_tag: false, tag: seq![], open, done: r.done.push(cur), cur: seq![], ..r }
        } else {
            Reader { in_tag: false, tag: seq![], open, cur, ..r }
        }
    } else {
        let open = r.open.push(tag);
        if open.len() == r.depth {
            Reader { in_tag: false, tag: seq![], open, cur: seq![], ..r }
        } else {
            Reader { in_tag: false, tag: seq![], open, cur, ..r }
        }
    }
}

/// The reader after the text `s`.
pub open spec fn read(s: Seq<char>, r: Reader) -> Reader
    decreases s.len(),
{
    if s.len() == 0 {
        r
    } else {
        step(read(s.drop_last(), r), s.last())
    }
}

/// The elements of a markup, one after the other.
pub open spec fn elements(s: Seq<char>) -> Seq<Seq<char>> {
    read(s, start(0)).done
}

/// The elements inside the first element of a markup.
pub open spec fn children(s: Seq<char>) -> Seq<Seq<char>> {
    read(s, start(1)).done
}

/// The text of a markup, each character with the tags around it.
pub open spec fn inked(s: Seq<char>) -> Seq<Ink> {
    read(s, start(0)).ink
}

/// The reader stands in text.
pub open spec fn at_rest(r: Reader) -> bool {
    !r.in_tag && !r.quoted && r.tag.len() == 0
}

pub proof fn read_join(a: Seq<char>, b: Seq<char>, r: Reader)
    ensures
        read(a + b, r) == read(b, read(a, r)),
    decreases b.len(),
{
    if b.len() == 0 {
        assert(a + b =~= a);
    } else {
        assert((a + b).drop_last() =~= a + b.drop_last());
        assert((a + b).last() == b.last());
        read_join(a, b.drop_last(), r);
    }
}

pub proof fn read_one(c: char, r: Reader)
    ensures
        read(seq![c], r) == step(r, c),
{
    assert(seq![c].drop_last() =~= seq![]);
    assert(read(seq![c].drop_last(), r) == r);
}

/// `s` under the tags `under`.
pub open spec fn ink_of(s: Seq<char>, under: Seq<Seq<char>>) -> Seq<Ink>
    decreases s.len(),
{
    if s.len() == 0 {
        seq![]
    } else {
        ink_of(s.drop_last(), under).push(Ink { c: s.last(), under })
    }
}

proof fn ink_of_last(s: Seq<char>, c: char, under: Seq<Seq<char>>)
    ensures
        ink_of(s.push(c), under) == ink_of(s, under).push(Ink { c, under }),
{
    assert(s.push(c).drop_last() =~= s);
}

proof fn ink_push(a: Seq<Ink>, b: Seq<Ink>, c: char, under: Seq<Seq<char>>)
    ensures
        (a + b).push(Ink { c, under }) == a + b.push(Ink { c, under }),
{
    assert((a + b).push(Ink { c, under }) =~= a + b.push(Ink { c, under }));
}

proof fn read_text_last(s: Seq<char>, c: char, r: Reader)
    requires
        !r.in_tag,
        c != '<',
        read(s, r) == (Reader { cur: r.cur + s, ink: r.ink + ink_of(s, r.open), ..r }),
    ensures
        read(s.push(c), r) == (Reader {
            cur: r.cur + s.push(c),
            ink: r.ink + ink_of(s.push(c), r.open),
            ..r
        }),
{
    assert(s.push(c).drop_last() =~= s);
    ink_of_last(s, c, r.open);
    ink_push(r.ink, ink_of(s, r.open), c, r.open);
    assert((r.cur + s).push(c) =~= r.cur + s.push(c));
}

pub proof fn read_text(s: Seq<char>, r: Reader)
    requires
        !r.in_tag,
        text::lacks(s, '<'),
    ensures
        read(s, r) == (Reader { cur: r.cur + s, ink: r.ink + ink_of(s, r.open), ..r }),
    decreases s.len(),
{
    if s.len() == 0 {
        assert(r.cur + s =~= r.cur);
        assert(r.ink + ink_of(s, r.open) =~= r.ink);
    } else {
        let rest = s.drop_last();
        assert forall|i: int| 0 <= i < rest.len() implies #[trigger] rest[i] != '<' by {
            assert(rest[i] == s[i]);
        }
        read_text(rest, r);
        assert(s[s.len() - 1] != '<');
        read_text_last(rest, s[s.len() - 1], r);
        assert(rest.push(s.last()) =~= s);
    }
}

proof fn read_in_tag(s: Seq<char>, r: Reader)
    requires
        r.in_tag,
        text::lacks(s, '"'),
        r.quoted || text::lacks(s, '>'),
    ensures
        read(s, r) == (Reader { tag: r.tag + s, cur: r.cur + s, ..r }),
    decreases s.len(),
{
    if s.len() == 0 {
        assert(r.cur + s =~= r.cur);
        assert(r.tag + s =~= r.tag);
    } else {
        let rest = s.drop_last();
        let last = s[s.len() - 1];
        assert(last != '"');
        assert(r.quoted || last != '>');
        assert forall|i: int| 0 <= i < rest.len() implies #[trigger] rest[i] != '"' by {
            assert(rest[i] == s[i]);
        }
        if !r.quoted {
            assert forall|i: int| 0 <= i < rest.len() implies #[trigger] rest[i] != '>' by {
                assert(rest[i] == s[i]);
            }
        }
        read_in_tag(rest, r);
        assert((r.cur + rest).push(last) =~= r.cur + s);
        assert((r.tag + rest).push(last) =~= r.tag + s);
    }
}

proof fn read_attr(a: Attr, r: Reader)
    requires
        r.in_tag,
        !r.quoted,
        is_name(a.name),
        text::lacks(a.value, '"'),
    ensures
        read(attr_text(a), r) == (Reader {
            tag: r.tag + attr_text(a),
            cur: r.cur + attr_text(a),
            ..r
        }),
{
    let p1 = seq![' '] + a.name + seq!['='];
    let q = seq!['"'];
    text::lacks_join(seq![' '], a.name, '"');
    text::lacks_join(seq![' '] + a.name, seq!['='], '"');
    text::lacks_join(seq![' '], a.name, '>');
    text::lacks_join(seq![' '] + a.name, seq!['='], '>');
    read_in_tag(p1, r);
    let r1 = read(p1, r);
    read_one('"', r1);
    let r2 = read(q, r1);
    read_in_tag(a.value, r2);
    let r3 = read(a.value, r2);
    read_one('"', r3);
    read_join(p1, q, r);
    read_join(p1 + q, a.value, r);
    read_join(p1 + q + a.value, q, r);
    assert(attr_text(a) =~= p1 + q + a.value + q);
    assert(r.tag + p1 + q + a.value + q =~= r.tag + attr_text(a));
    assert(r.cur + p1 + q + a.value + q =~= r.cur + attr_text(a));
    let r4 = read(attr_text(a), r);
    assert(r4.tag =~= r.tag + attr_text(a));
    assert(r4.cur =~= r.cur + attr_text(a));
}

proof fn read_attrs(attrs: Seq<Attr>, r: Reader)
    requires
        r.in_tag,
        !r.quoted,
        writable(attrs),
    ensures
        read(attrs_text(attrs), r) == (Reader {
            tag: r.tag + attrs_text(attrs),
            cur: r.cur + attrs_text(attrs),
            ..r
        }),
    decreases attrs.len(),
{
    if attrs.len() == 0 {
        assert(r.cur + attrs_text(attrs) =~= r.cur);
        assert(r.tag + attrs_text(attrs) =~= r.tag);
    } else {
        writable_rest(attrs);
        let a = attr_text(attrs[0]);
        let b = attrs_text(attrs.drop_first());
        read_attr(attrs[0], r);
        read_attrs(attrs.drop_first(), read(a, r));
        read_join(a, b, r);
        assert(r.tag + a + b =~= r.tag + attrs_text(attrs));
        assert(r.cur + a + b =~= r.cur + attrs_text(attrs));
    }
}

/// A start tag opens an element.
pub proof fn read_start_tag(name: Seq<char>, attrs: Seq<Attr>, r: Reader)
    requires
        at_rest(r),
        name.len() > 0,
        is_name(name),
        writable(attrs),
    ensures
        read(tag_text(name, attrs), r) == (Reader {
            open: r.open.push(tag_text(name, attrs)),
            cur: if r.open.len() + 1 == r.depth {
                seq![]
            } else {
                r.cur + tag_text(name, attrs)
            },
            ..r
        }),
{
    let lt = seq!['<'];
    let gt = seq!['>'];
    let at = attrs_text(attrs);
    let whole = tag_text(name, attrs);
    read_one('<', r);
    let r1 = read(lt, r);
    read_in_tag(name, r1);
    let r2 = read(name, r1);
    read_attrs(attrs, r2);
    let r3 = read(at, r2);
    read_one('>', r3);
    read_join(lt, name, r);
    read_join(lt + name, at, r);
    read_join(lt + name + at, gt, r);
    assert(r3.tag.push('>') =~= whole);
    assert(r3.cur.push('>') =~= r.cur + whole);
    assert(whole[1] == name[0]);
    assert(name[0] != '/');
    let r4 = read(whole, r);
    assert(r4.tag =~= r.tag);
}

/// An end tag as it is written.
pub open spec fn end_text(name: Seq<char>) -> Seq<char> {
    seq!['<', '/'] + name + seq!['>']
}

/// An end tag closes the element that was opened last.
pub proof fn read_end_tag(name: Seq<char>, r: Reader)
    requires
        at_rest(r),
        is_name(name),
        r.open.len() > 0,
    ensures
        read(end_text(name), r) == (Reader {
            open: r.open.drop_last(),
            done: if r.open.len() == r.depth + 1 {
                r.done.push(r.cur + end_text(name))
            } else {
                r.done
            },
            cur: if r.open.len() == r.depth + 1 {
                seq![]
            } else {
                r.cur + end_text(name)
            },
            ..r
        }),
{
    let lt = seq!['<'];
    let sn = seq!['/'] + name;
    let gt = seq!['>'];
    let whole = end_text(name);
    text::lacks_join(seq!['/'], name, '"');
    text::lacks_join(seq!['/'], name, '>');
    read_one('<', r);
    let r1 = read(lt, r);
    read_in_tag(sn, r1);
    let r2 = read(sn, r1);
    read_one('>', r2);
    read_join(lt, sn, r);
    read_join(lt + sn, gt, r);
    assert(whole =~= lt + sn + gt);
    assert(r2.tag.push('>') =~= whole);
    assert(r2.cur.push('>') =~= r.cur + whole);
    assert(whole[1] == '/');
    let r3 = read(whole, r);
    assert(r3.tag =~= r.tag);
}

} // verus!
