//! What the markup of a row shows, read back from the markup: every character
//! of the cells, and the tags around it.
use crate::links;
use crate::markup;
use crate::markup::{Attr, Ink, Reader};
use crate::row;
use crate::row::{Cell, Line, Token, Wrapper};
use crate::style;
use crate::style::{CellAttributes, Look};
use crate::text;
use vstd::prelude::*;

verus! {

// --- what a cell calls for ---------------------------------------------------

/// The link of a cell, if it has one that may be followed.
pub open spec fn link_of(attrs: CellAttributes) -> Option<Seq<char>> {
    match attrs.hyperlink {
        Some(uri) => links::link_target(uri@),
        None => None,
    }
}

/// Whether nothing about a cell has to be shown but its text.
pub open spec fn unadorned(attrs: CellAttributes) -> bool {
    &&& link_of(attrs) is None
    &&& attrs.intensity is Normal
    &&& !attrs.italic
    &&& attrs.underline is Off
    &&& !attrs.invisible
    &&& !attrs.strikethrough
    &&& !attrs.reverse
    &&& attrs.foreground is Default
    &&& attrs.background is Default
}

/// The columns a cell takes: at least one.
pub open spec fn width_of(cell: Cell) -> nat {
    if cell.width > 1 {
        cell.width as nat
    } else {
        1
    }
}

/// The text of a cell. One without text shows a blank.
pub open spec fn glyph_of(cell: Cell) -> Seq<char> {
    if cell.text@.len() == 0 {
        seq![' ']
    } else {
        cell.text@
    }
}

/// A blank of one column with nothing to show about it.
pub open spec fn empty_cell(cell: Cell) -> bool {
    unadorned(cell.attrs) && width_of(cell) == 1 && glyph_of(cell) == seq![' ']
}

/// The attributes that carry a link and a look: each is there exactly if
/// there is something to carry.
pub open spec fn wrapper_attrs(look: Look, href: Option<Seq<char>>) -> Seq<Attr> {
    (match href {
        Some(h) => seq![
            Attr { name: "href"@, value: row::escaped(h) },
            Attr { name: "target"@, value: "_blank"@ },
            Attr { name: "rel"@, value: "noopener"@ },
        ],
        None => seq![],
    }) + (if style::classes(look).len() == 0 {
        seq![]
    } else {
        seq![Attr { name: "class"@, value: seq!['c'] + style::classes(look) }]
    }) + (if style::inline_style(look).len() == 0 {
        seq![]
    } else {
        seq![Attr { name: "style"@, value: style::inline_style(look) }]
    })
}

/// The element that carries a link, or a look alone.
pub open spec fn wrapper_name(href: Option<Seq<char>>) -> Seq<char> {
    if href is Some {
        "a"@
    } else {
        "span"@
    }
}

/// The start tag that carries a look and a link.
pub open spec fn wrapper_tag(look: Look, href: Option<Seq<char>>) -> Seq<char> {
    markup::tag_text(wrapper_name(href), wrapper_attrs(look, href))
}

/// The start tag of a box of `width` columns.
pub open spec fn box_tag(width: nat) -> Seq<char> {
    markup::tag_text(
        "span"@,
        seq![
            Attr { name: "class"@, value: "wc"@ },
            Attr { name: "style"@, value: "--w:"@ + text::decimal(width) },
        ],
    )
}

/// The attributes of a row.
pub open spec fn row_attrs(target: Seq<char>, stable: int) -> Seq<Attr> {
    seq![
        Attr { name: "class"@, value: "row"@ },
        Attr { name: "id"@, value: target + "-r-"@ + text::decimal_int(stable) },
    ]
}

/// The start tag of a row.
pub open spec fn row_tag(target: Seq<char>, stable: int) -> Seq<char> {
    markup::tag_text("div"@, row_attrs(target, stable))
}

/// The tags around the text of a cell, inside its row.
pub open spec fn tags_around(cell: Cell) -> Seq<Seq<char>> {
    (if unadorned(cell.attrs) {
        seq![]
    } else {
        seq![wrapper_tag(cell.attrs.look(), link_of(cell.attrs))]
    }) + (if width_of(cell) == 1 && glyph_of(cell).len() == 1 {
        seq![]
    } else {
        seq![box_tag(width_of(cell))]
    })
}

/// What a cell shows in a row with the tag `tag`.
pub open spec fn cell_ink(cell: Cell, tag: Seq<char>) -> Seq<Ink> {
    markup::ink_of(row::escaped(glyph_of(cell)), seq![tag] + tags_around(cell))
}

/// How many cells start before column `cols`.
pub open spec fn cells_before(cells: Seq<Cell>, cols: nat) -> nat
    decreases cells.len(),
{
    if cells.len() == 0 || cells[0].index >= cols {
        0
    } else {
        1 + cells_before(cells.drop_first(), cols)
    }
}

/// The column after the last cell that is shown. A cell that starts under an
/// earlier one is not shown.
pub open spec fn reach(cells: Seq<Cell>) -> nat
    decreases cells.len(),
{
    if cells.len() == 0 {
        0
    } else if cells.last().index < reach(cells.drop_last()) {
        reach(cells.drop_last())
    } else {
        cells.last().index as nat + width_of(cells.last())
    }
}

/// What cells show: each one that no earlier one covers, and a space for
/// every column that none covers.
pub open spec fn cells_ink(cells: Seq<Cell>, tag: Seq<char>) -> Seq<Ink>
    decreases cells.len(),
{
    if cells.len() == 0 {
        seq![]
    } else {
        let rest = cells.drop_last();
        if cells.last().index < reach(rest) {
            cells_ink(rest, tag)
        } else {
            cells_ink(rest, tag) + markup::ink_of(
                row::spaces((cells.last().index - reach(rest)) as nat),
                seq![tag],
            ) + cell_ink(cells.last(), tag)
        }
    }
}

/// How many columns at the end are empty.
pub open spec fn empty_end(cells: Seq<Cell>) -> nat
    decreases cells.len(),
{
    if cells.len() == 0 {
        0
    } else {
        let rest = cells.drop_last();
        if cells.last().index < reach(rest) {
            empty_end(rest)
        } else if empty_cell(cells.last()) {
            empty_end(rest) + (cells.last().index - reach(rest)) as nat + 1
        } else {
            0
        }
    }
}

/// What a row shows: the cells that start within its columns, less the empty
/// ones at the end.
pub open spec fn row_ink(target: Seq<char>, line: Line, cols: nat, stable: int) -> Seq<Ink> {
    let cells = line.cells@.take(cells_before(line.cells@, cols) as int);
    let all = cells_ink(cells, row_tag(target, stable));
    all.take(all.len() - empty_end(cells))
}

// --- tags as they are written ------------------------------------------------

proof fn names_are_names()
    ensures
        markup::is_name("a"@) && "a"@.len() > 0,
        markup::is_name("span"@) && "span"@.len() > 0,
        markup::is_name("div"@) && "div"@.len() > 0,
        markup::is_name("href"@),
        markup::is_name("target"@),
        markup::is_name("rel"@),
        markup::is_name("class"@),
        markup::is_name("style"@),
        markup::is_name("id"@),
        text::lacks("_blank"@, '"'),
        text::lacks("noopener"@, '"'),
        text::lacks("wc"@, '"'),
        text::lacks("row"@, '"'),
        text::lacks("--w:"@, '"'),
        text::lacks("-r-"@, '"'),
{
    reveal_strlit("a");
    reveal_strlit("span");
    reveal_strlit("div");
    reveal_strlit("href");
    reveal_strlit("target");
    reveal_strlit("rel");
    reveal_strlit("class");
    reveal_strlit("style");
    reveal_strlit("id");
    reveal_strlit("_blank");
    reveal_strlit("noopener");
    reveal_strlit("wc");
    reveal_strlit("row");
    reveal_strlit("--w:");
    reveal_strlit("-r-");
}

proof fn wrapper_is_writable(look: Look, href: Option<Seq<char>>)
    ensures
        markup::is_name(wrapper_name(href)),
        wrapper_name(href).len() > 0,
        markup::writable(wrapper_attrs(look, href)),
{
    names_are_names();
    style::css_lacks(look, '"');
    text::lacks_join(seq!['c'], style::classes(look), '"');
    if let Some(h) = href {
        row::escaped_is_inert(h);
    }
}

proof fn attrs_text_pair(a: Attr, b: Attr)
    ensures
        markup::attrs_text(seq![a, b]) == markup::attr_text(a) + markup::attr_text(b),
{
    reveal_with_fuel(markup::attrs_text, 3);
    assert(seq![a, b].drop_first() =~= seq![b]);
    assert(seq![b].drop_first() =~= seq![]);
    assert(markup::attrs_text(seq![a, b]) =~= markup::attr_text(a) + markup::attr_text(b));
}

proof fn attrs_text_join(a: Seq<Attr>, b: Seq<Attr>)
    ensures
        markup::attrs_text(a + b) == markup::attrs_text(a) + markup::attrs_text(b),
    decreases a.len(),
{
    if a.len() == 0 {
        assert(a + b =~= b);
        assert(markup::attrs_text(a) + markup::attrs_text(b) =~= markup::attrs_text(b));
    } else {
        assert((a + b).drop_first() =~= a.drop_first() + b);
        attrs_text_join(a.drop_first(), b);
        assert(markup::attrs_text(a + b) =~= markup::attrs_text(a) + markup::attrs_text(b));
    }
}

proof fn attrs_text_one(a: Attr)
    ensures
        markup::attrs_text(seq![a]) == markup::attr_text(a),
{
    assert(seq![a].drop_first() =~= seq![]);
    assert(markup::attrs_text(seq![]) =~= Seq::<char>::empty());
    assert(markup::attrs_text(seq![a]) =~= markup::attr_text(a));
}

proof fn link_head(h: Seq<char>)
    ensures
        "<a href=\""@ + row::escaped(h) + "\" target=\"_blank\" rel=\"noopener\""@ == seq!['<']
            + "a"@ + markup::attrs_text(
            seq![
                Attr { name: "href"@, value: row::escaped(h) },
                Attr { name: "target"@, value: "_blank"@ },
                Attr { name: "rel"@, value: "noopener"@ },
            ],
        ),
{
    reveal_strlit("<a href=\"");
    reveal_strlit("\" target=\"_blank\" rel=\"noopener\"");
    reveal_strlit("a");
    reveal_strlit("href");
    reveal_strlit("target");
    reveal_strlit("rel");
    reveal_strlit("_blank");
    reveal_strlit("noopener");
    let a = Attr { name: "href"@, value: row::escaped(h) };
    let b = Attr { name: "target"@, value: "_blank"@ };
    let c = Attr { name: "rel"@, value: "noopener"@ };
    assert(seq![a, b, c] =~= seq![a] + seq![b, c]);
    attrs_text_join(seq![a], seq![b, c]);
    attrs_text_one(a);
    attrs_text_pair(b, c);
    let tail = markup::attr_text(b) + markup::attr_text(c);
    assert(seq!['"'] + tail =~= "\" target=\"_blank\" rel=\"noopener\""@);
    assert("<a href=\""@ =~= seq!['<'] + "a"@ + seq![' '] + "href"@ + seq!['=', '"']);
    assert(markup::attr_text(a) =~= seq![' '] + "href"@ + seq!['=', '"'] + row::escaped(h) + seq![
        '"',
    ]);
    assert("<a href=\""@ + row::escaped(h) + (seq!['"'] + tail) =~= seq!['<'] + "a"@ + (
    markup::attr_text(a) + tail));
}

proof fn css_attr(lead: Seq<char>, name: Seq<char>, c: Seq<char>, value: Seq<char>)
    requires
        lead == seq![' '] + name + seq!['=', '"'] + c,
    ensures
        lead + value + seq!['"'] == markup::attrs_text(seq![Attr { name, value: c + value }]),
{
    attrs_text_one(Attr { name, value: c + value });
    assert(lead + value + seq!['"'] =~= markup::attr_text(Attr { name, value: c + value }));
}

proof fn join_three(h: Seq<char>, a: Seq<char>, x: Seq<char>, y: Seq<char>, z: Seq<char>)
    ensures
        (h + a) + x + y + z == h + (a + x + y) + z,
{
    assert((h + a) + x + y + z =~= h + (a + x + y) + z);
}

/// The start tag of a run is written as its name and attributes say.
proof fn open_tag_text(w: Wrapper)
    ensures
        row::open_tag(Some(w)) == wrapper_tag(w.look, w.href),
        row::close_tag(Some(w)) == markup::end_text(wrapper_name(w.href)),
{
    reveal_strlit("<span");
    reveal_strlit(" class=\"c");
    reveal_strlit(" style=\"");
    reveal_strlit("\"");
    reveal_strlit("a");
    reveal_strlit("span");
    reveal_strlit("class");
    reveal_strlit("style");
    reveal_strlit("</a>");
    reveal_strlit("</span>");
    let classes = style::classes(w.look);
    let inline_style = style::inline_style(w.look);
    let name = wrapper_name(w.href);
    let la = match w.href {
        Some(h) => seq![
            Attr { name: "href"@, value: row::escaped(h) },
            Attr { name: "target"@, value: "_blank"@ },
            Attr { name: "rel"@, value: "noopener"@ },
        ],
        None => seq![],
    };
    let ca = if classes.len() == 0 {
        seq![]
    } else {
        seq![Attr { name: "class"@, value: seq!['c'] + classes }]
    };
    let sa = if inline_style.len() == 0 {
        seq![]
    } else {
        seq![Attr { name: "style"@, value: inline_style }]
    };
    assert(wrapper_attrs(w.look, w.href) == la + ca + sa);
    attrs_text_join(la, ca);
    attrs_text_join(la + ca, sa);
    assert(markup::attrs_text(seq![]) =~= Seq::<char>::empty());
    assert(" class=\"c"@ =~= seq![' '] + "class"@ + seq!['=', '"'] + seq!['c']);
    assert(" style=\""@ =~= seq![' '] + "style"@ + seq!['=', '"'] + Seq::<char>::empty());
    assert("\""@ =~= seq!['"']);
    css_attr(" class=\"c"@, "class"@, seq!['c'], classes);
    css_attr(" style=\""@, "style"@, seq![], inline_style);
    assert(Seq::<char>::empty() + inline_style =~= inline_style);
    let head = match w.href {
        Some(h) => "<a href=\""@ + row::escaped(h) + "\" target=\"_blank\" rel=\"noopener\""@,
        None => "<span"@,
    };
    match w.href {
        Some(h) => {
            link_head(h);
            assert("</a>"@ =~= markup::end_text("a"@));
        },
        None => {
            assert("<span"@ =~= seq!['<'] + "span"@ + Seq::<char>::empty());
            assert("</span>"@ =~= markup::end_text("span"@));
        },
    }
    assert(head == seq!['<'] + name + markup::attrs_text(la));
    join_three(
        seq!['<'] + name,
        markup::attrs_text(la),
        markup::attrs_text(ca),
        markup::attrs_text(sa),
        seq!['>'],
    );
}

proof fn attr_names_differ()
    ensures
        "href"@ != "target"@ && "href"@ != "rel"@ && "href"@ != "class"@ && "href"@ != "style"@,
        "target"@ != "rel"@ && "target"@ != "class"@ && "target"@ != "style"@,
        "rel"@ != "class"@ && "rel"@ != "style"@ && "class"@ != "style"@,
        "a"@ != "span"@,
        "id"@ != "class"@ && "id"@ != "style"@,
{
    reveal_strlit("href");
    reveal_strlit("target");
    reveal_strlit("rel");
    reveal_strlit("class");
    reveal_strlit("style");
    reveal_strlit("a");
    reveal_strlit("span");
    reveal_strlit("id");
    assert("href"@[0] == 'h' && "target"@[0] == 't' && "rel"@[0] == 'r' && "class"@[0] == 'c'
        && "style"@[0] == 's' && "a"@[0] == 'a' && "span"@[0] == 's' && "id"@[0] == 'i');
}

proof fn value_of_join(a: Seq<Attr>, b: Seq<Attr>, name: Seq<char>)
    ensures
        markup::value_of(a + b, name) == if markup::value_of(a, name) is Some {
            markup::value_of(a, name)
        } else {
            markup::value_of(b, name)
        },
    decreases a.len(),
{
    if a.len() == 0 {
        assert(a + b =~= b);
    } else {
        assert((a + b).drop_first() =~= a.drop_first() + b);
        assert((a + b)[0] == a[0]);
        value_of_join(a.drop_first(), b, name);
    }
}

/// The start tag of a run carries the whole look and link of its cells. Read
/// off the tag: the element is an anchor exactly if there is a link, whose
/// decoded target it carries; the class names and the style of the look are
/// there, each exactly if there is something to carry, whatever the others
/// are; and the end tag closes that element.
pub proof fn start_tag_carries_the_look(w: Wrapper)
    ensures
        ({
            let tag = row::open_tag(Some(w));
            &&& markup::tag_name(tag) == (if w.href is Some {
                "a"@
            } else {
                "span"@
            })
            &&& row::close_tag(Some(w)) == seq!['<', '/'] + markup::tag_name(tag) + seq!['>']
            &&& match markup::attribute(tag, "href"@) {
                Some(h) => w.href == Some(row::decoded(h)),
                None => w.href is None,
            }
            &&& match markup::attribute(tag, "class"@) {
                Some(c) => style::classes(w.look).len() > 0 && c == seq!['c'] + style::classes(
                    w.look,
                ),
                None => style::classes(w.look).len() == 0,
            }
            &&& match markup::attribute(tag, "style"@) {
                Some(s) => style::inline_style(w.look).len() > 0 && s == style::inline_style(
                    w.look,
                ),
                None => style::inline_style(w.look).len() == 0,
            }
            &&& w.href is Some ==> markup::attribute(tag, "target"@) == Some("_blank"@)
                && markup::attribute(tag, "rel"@) == Some("noopener"@)
        }),
{
    let tag = row::open_tag(Some(w));
    let attrs = wrapper_attrs(w.look, w.href);
    open_tag_text(w);
    wrapper_is_writable(w.look, w.href);
    markup::tags_parse_back(wrapper_name(w.href), attrs, seq![]);
    assert(wrapper_tag(w.look, w.href) + Seq::<char>::empty() =~= wrapper_tag(w.look, w.href));
    assert(markup::tag_attrs(tag) == attrs);
    attr_names_differ();
    let la = match w.href {
        Some(h) => seq![
            Attr { name: "href"@, value: row::escaped(h) },
            Attr { name: "target"@, value: "_blank"@ },
            Attr { name: "rel"@, value: "noopener"@ },
        ],
        None => seq![],
    };
    let ca = if style::classes(w.look).len() == 0 {
        seq![]
    } else {
        seq![Attr { name: "class"@, value: seq!['c'] + style::classes(w.look) }]
    };
    let sa = if style::inline_style(w.look).len() == 0 {
        seq![]
    } else {
        seq![Attr { name: "style"@, value: style::inline_style(w.look) }]
    };
    assert(attrs == la + ca + sa);
    if let Some(h) = w.href {
        row::decoded_escaped(h);
    }
    attr_values(la, ca, sa, "href"@);
    attr_values(la, ca, sa, "class"@);
    attr_values(la, ca, sa, "style"@);
    attr_values(la, ca, sa, "target"@);
    attr_values(la, ca, sa, "rel"@);
    reveal_with_fuel(markup::value_of, 5);
    assert(la.len() == 3 ==> la.drop_first()[0] == la[1] && la.drop_first().drop_first()[0]
        == la[2]);
}

proof fn attr_values(la: Seq<Attr>, ca: Seq<Attr>, sa: Seq<Attr>, name: Seq<char>)
    ensures
        markup::value_of(la + ca + sa, name) == if markup::value_of(la, name) is Some {
            markup::value_of(la, name)
        } else if markup::value_of(ca, name) is Some {
            markup::value_of(ca, name)
        } else {
            markup::value_of(sa, name)
        },
{
    value_of_join(la, ca, name);
    value_of_join(la + ca, sa, name);
}

/// Start tags tell runs apart: where two are the same, so are the links, the
/// class names and the styles.
pub proof fn start_tags_tell_runs_apart(a: Wrapper, b: Wrapper)
    requires
        row::open_tag(Some(a)) == row::open_tag(Some(b)),
    ensures
        a.href == b.href,
        style::classes(a.look) == style::classes(b.look),
        style::inline_style(a.look) == style::inline_style(b.look),
{
    start_tag_carries_the_look(a);
    start_tag_carries_the_look(b);
    let ca = seq!['c'] + style::classes(a.look);
    let cb = seq!['c'] + style::classes(b.look);
    assert(ca.skip(1) =~= style::classes(a.look));
    assert(cb.skip(1) =~= style::classes(b.look));
    if style::classes(a.look).len() == 0 {
        assert(style::classes(a.look) =~= style::classes(b.look));
    }
    if style::inline_style(a.look).len() == 0 {
        assert(style::inline_style(a.look) =~= style::inline_style(b.look));
    }
}

proof fn box_tag_text(width: nat)
    ensures
        "<span class=\"wc\" style=\"--w:"@ + text::decimal(width) + "\">"@ == box_tag(width),
        markup::writable(
            seq![
                Attr { name: "class"@, value: "wc"@ },
                Attr { name: "style"@, value: "--w:"@ + text::decimal(width) },
            ],
        ),
{
    reveal_strlit("<span class=\"wc\" style=\"--w:");
    reveal_strlit("\">");
    reveal_strlit("span");
    reveal_strlit("class");
    reveal_strlit("style");
    reveal_strlit("wc");
    reveal_strlit("--w:");
    let d = text::decimal(width);
    let a = Attr { name: "class"@, value: "wc"@ };
    let b = Attr { name: "style"@, value: "--w:"@ + d };
    names_are_names();
    text::numerals_lack(width as int, '"');
    text::lacks_join("--w:"@, d, '"');
    attrs_text_pair(a, b);
    assert("<span class=\"wc\" style=\"--w:"@ =~= seq!['<'] + "span"@ + markup::attr_text(a) + seq![
        ' ',
    ] + "style"@ + seq!['=', '"'] + "--w:"@);
    assert("<span class=\"wc\" style=\"--w:"@ + d + "\">"@ =~= box_tag(width));
}

proof fn row_tag_text(target: Seq<char>, stable: int)
    requires
        text::lacks(target, '"'),
    ensures
        "<div class=\"row\" id=\""@ + row::row_id(target, stable) + "\">"@ == row_tag(
            target,
            stable,
        ),
        markup::writable(row_attrs(target, stable)),
{
    reveal_strlit("<div class=\"row\" id=\"");
    reveal_strlit("\">");
    reveal_strlit("div");
    reveal_strlit("class");
    reveal_strlit("id");
    reveal_strlit("row");
    let id = target + "-r-"@ + text::decimal_int(stable);
    let a = Attr { name: "class"@, value: "row"@ };
    let b = Attr { name: "id"@, value: id };
    names_are_names();
    text::numerals_lack(stable, '"');
    text::lacks_join(target, "-r-"@, '"');
    text::lacks_join(target + "-r-"@, text::decimal_int(stable), '"');
    attrs_text_pair(a, b);
    assert("<div class=\"row\" id=\""@ =~= seq!['<'] + "div"@ + markup::attr_text(a) + seq![' ']
        + "id"@ + seq!['=', '"']);
    assert("<div class=\"row\" id=\""@ + id + "\">"@ =~= row_tag(target, stable));
}

// --- reading tokens ----------------------------------------------------------

/// The tags that a wrapper opens.
spec fn wrapper_tags(w: Option<Wrapper>) -> Seq<Seq<char>> {
    match w {
        Some(w) => seq![wrapper_tag(w.look, w.href)],
        None => seq![],
    }
}

/// What a token shows under the tags `under`.
spec fn token_ink(t: Token, under: Seq<Seq<char>>) -> Seq<Ink> {
    match t {
        Token::Blank => markup::ink_of(seq![' '], under),
        Token::Glyph { text, width, wrapper } => markup::ink_of(
            row::escaped(text),
            under + wrapper_tags(wrapper) + (if width == 1 && text.len() <= 1 {
                seq![]
            } else {
                seq![box_tag(width)]
            }),
        ),
    }
}

spec fn tokens_ink(toks: Seq<Token>, under: Seq<Seq<char>>) -> Seq<Ink>
    decreases toks.len(),
{
    if toks.len() == 0 {
        seq![]
    } else {
        tokens_ink(toks.drop_last(), under) + token_ink(toks.last(), under)
    }
}

/// A reader inside an element that is collected.
pub open spec fn inside_element(r: Reader) -> bool {
    markup::at_rest(r) && r.open.len() > r.depth
}

proof fn read_open_tag(w: Option<Wrapper>, r: Reader)
    requires
        inside_element(r),
    ensures
        markup::read(row::open_tag(w), r) == (Reader {
            open: r.open + wrapper_tags(w),
            cur: r.cur + row::open_tag(w),
            ..r
        }),
{
    match w {
        Some(wr) => {
            open_tag_text(wr);
            wrapper_is_writable(wr.look, wr.href);
            markup::read_start_tag(
                wrapper_name(wr.href),
                wrapper_attrs(wr.look, wr.href),
                r,
            );
            assert(r.open.push(wrapper_tag(wr.look, wr.href)) =~= r.open + wrapper_tags(w));
        },
        None => {
            assert(r.open + wrapper_tags(w) =~= r.open);
            assert(r.cur + row::open_tag(w) =~= r.cur);
        },
    }
}

proof fn read_close_tag(w: Option<Wrapper>, r: Reader, open: Seq<Seq<char>>)
    requires
        markup::at_rest(r),
        open.len() > r.depth,
        r.open == open + wrapper_tags(w),
    ensures
        markup::read(row::close_tag(w), r) == (Reader { open, cur: r.cur + row::close_tag(w), ..r }),
{
    match w {
        Some(wr) => {
            open_tag_text(wr);
            wrapper_is_writable(wr.look, wr.href);
            markup::read_end_tag(wrapper_name(wr.href), r);
            assert(r.open.drop_last() =~= open);
        },
        None => {
            assert(r.open =~= open);
            assert(r.cur + row::close_tag(w) =~= r.cur);
        },
    }
}

/// Reading a token under its wrapper.
proof fn read_token(t: Token, r: Reader, under: Seq<Seq<char>>)
    requires
        inside_element(r),
        r.open == under + wrapper_tags(row::wrapper_of(t)),
    ensures
        markup::read(row::token_html(t), r) == (Reader {
            cur: r.cur + row::token_html(t),
            ink: r.ink + token_ink(t, under),
            ..r
        }),
{
    match t {
        Token::Blank => {
            assert(r.open =~= under);
            markup::read_text(seq![' '], r);
        },
        Token::Glyph { text, width, wrapper } => {
            row::escaped_is_inert(text);
            if row::needs_box(text, width) {
                let b = box_tag(width);
                let e = row::escaped(text);
                let attrs = seq![
                    Attr { name: "class"@, value: "wc"@ },
                    Attr { name: "style"@, value: "--w:"@ + text::decimal(width) },
                ];
                names_are_names();
                box_tag_text(width);
                reveal_strlit("</span>");
                reveal_strlit("span");
                assert("</span>"@ =~= markup::end_text("span"@));
                markup::read_start_tag("span"@, attrs, r);
                let r1 = markup::read(b, r);
                markup::read_text(e, r1);
                let r2 = markup::read(e, r1);
                markup::read_end_tag("span"@, r2);
                markup::read_join(b, e, r);
                markup::read_join(b + e, "</span>"@, r);
                assert(row::token_html(t) == b + e + "</span>"@);
                assert(r1.open.drop_last() =~= r.open);
                assert(r.cur + b + e + "</span>"@ =~= r.cur + row::token_html(t));
                assert(r.open.push(b) =~= under + wrapper_tags(wrapper) + seq![b]);
            } else {
                markup::read_text(row::escaped(text), r);
                assert(under + wrapper_tags(wrapper) + Seq::<Seq<char>>::empty() =~= r.open);
            }
        },
    }
}

proof fn read_open_html(toks: Seq<Token>, r: Reader)
    requires
        inside_element(r),
    ensures
        markup::read(row::open_html(toks), r) == (Reader {
            open: r.open + wrapper_tags(row::last_wrapper(toks)),
            cur: r.cur + row::open_html(toks),
            ink: r.ink + tokens_ink(toks, r.open),
            ..r
        }),
    decreases toks.len(),
{
    if toks.len() == 0 {
        assert(r.open + wrapper_tags(row::last_wrapper(toks)) =~= r.open);
        assert(r.cur + row::open_html(toks) =~= r.cur);
        assert(r.ink + tokens_ink(toks, r.open) =~= r.ink);
    } else {
        let rest = toks.drop_last();
        let t = toks.last();
        let before = row::last_wrapper(rest);
        let after = row::wrapper_of(t);
        let h1 = row::open_html(rest);
        let h2 = row::seam(before, after);
        let h3 = row::token_html(t);
        read_open_html(rest, r);
        let r1 = markup::read(h1, r);
        read_seam(before, after, r1, r.open);
        let r2 = markup::read(h2, r1);
        read_token(t, r2, r.open);
        markup::read_join(h1, h2, r);
        markup::read_join(h1 + h2, h3, r);
        assert(r.cur + h1 + h2 + h3 =~= r.cur + row::open_html(toks));
        assert(r.ink + tokens_ink(rest, r.open) + token_ink(t, r.open) =~= r.ink + tokens_ink(
            toks,
            r.open,
        ));
    }
}

proof fn read_seam(
    before: Option<Wrapper>,
    after: Option<Wrapper>,
    r: Reader,
    open: Seq<Seq<char>>,
)
    requires
        markup::at_rest(r),
        open.len() > r.depth,
        r.open == open + wrapper_tags(before),
    ensures
        markup::read(row::seam(before, after), r) == (Reader {
            open: open + wrapper_tags(after),
            cur: r.cur + row::seam(before, after),
            ..r
        }),
{
    if before == after {
        assert(r.cur + row::seam(before, after) =~= r.cur);
    } else {
        let a = row::close_tag(before);
        let b = row::open_tag(after);
        read_close_tag(before, r, open);
        read_open_tag(after, markup::read(a, r));
        markup::read_join(a, b, r);
        assert(r.cur + a + b =~= r.cur + (a + b));
    }
}

proof fn read_tokens(toks: Seq<Token>, r: Reader)
    requires
        inside_element(r),
    ensures
        markup::read(row::tokens_html(toks), r) == (Reader {
            cur: r.cur + row::tokens_html(toks),
            ink: r.ink + tokens_ink(toks, r.open),
            ..r
        }),
{
    let a = row::open_html(toks);
    let b = row::close_tag(row::last_wrapper(toks));
    read_open_html(toks, r);
    read_close_tag(row::last_wrapper(toks), markup::read(a, r), r.open);
    markup::read_join(a, b, r);
    assert(r.cur + a + b =~= r.cur + (a + b));
}

/// A row is one element.
pub proof fn read_row(target: Seq<char>, line: Line, cols: nat, stable: int, r: Reader)
    requires
        text::lacks(target, '"'),
        markup::at_rest(r),
        r.open.len() == r.depth,
    ensures
        ({
            let html = row::row_html(target, line, cols, stable);
            let after = markup::read(html, r);
            &&& after.done == r.done.push(r.cur + html)
            &&& after.cur == Seq::<char>::empty()
            &&& after.open == r.open
            &&& after.depth == r.depth
            &&& markup::at_rest(after)
        }),
{
    read_row_ink(target, line, cols, stable, r);
}

proof fn read_row_ink(target: Seq<char>, line: Line, cols: nat, stable: int, r: Reader)
    requires
        text::lacks(target, '"'),
        markup::at_rest(r),
        r.open.len() == r.depth,
    ensures
        markup::read(row::row_html(target, line, cols, stable), r) == (Reader {
            done: r.done.push(r.cur + row::row_html(target, line, cols, stable)),
            cur: seq![],
            ink: r.ink + tokens_ink(
                row::row_tokens(line, cols),
                r.open.push(row_tag(target, stable)),
            ),
            ..r
        }),
{
    let toks = row::row_tokens(line, cols);
    let t = row_tag(target, stable);
    let h = row::tokens_html(toks);
    let html = row::row_html(target, line, cols, stable);
    names_are_names();
    row_tag_text(target, stable);
    reveal_strlit("</div>");
    reveal_strlit("div");
    assert("</div>"@ =~= markup::end_text("div"@));
    markup::read_start_tag("div"@, row_attrs(target, stable), r);
    let r1 = markup::read(t, r);
    read_tokens(toks, r1);
    let r2 = markup::read(h, r1);
    markup::read_end_tag("div"@, r2);
    markup::read_join(t, h, r);
    markup::read_join(t + h, "</div>"@, r);
    assert(html == t + h + "</div>"@);
    assert(r.open.push(t).drop_last() =~= r.open);
    assert(r.cur + t + h + "</div>"@ =~= r.cur + html);
}

/// A row inside an element that is collected is only read through.
pub proof fn read_row_through(
    target: Seq<char>,
    line: Line,
    cols: nat,
    stable: int,
    r: Reader,
)
    requires
        text::lacks(target, '"'),
        inside_element(r),
    ensures
        ({
            let html = row::row_html(target, line, cols, stable);
            let after = markup::read(html, r);
            &&& after.done == r.done
            &&& after.cur == r.cur + html
            &&& after.open == r.open
            &&& after.depth == r.depth
            &&& markup::at_rest(after)
        }),
{
    let toks = row::row_tokens(line, cols);
    let t = row_tag(target, stable);
    let h = row::tokens_html(toks);
    let html = row::row_html(target, line, cols, stable);
    names_are_names();
    row_tag_text(target, stable);
    reveal_strlit("</div>");
    reveal_strlit("div");
    assert("</div>"@ =~= markup::end_text("div"@));
    markup::read_start_tag("div"@, row_attrs(target, stable), r);
    let r1 = markup::read(t, r);
    read_tokens(toks, r1);
    let r2 = markup::read(h, r1);
    markup::read_end_tag("div"@, r2);
    markup::read_join(t, h, r);
    markup::read_join(t + h, "</div>"@, r);
    assert(html == t + h + "</div>"@);
    assert(r.open.push(t).drop_last() =~= r.open);
    assert(r.cur + t + h + "</div>"@ =~= r.cur + html);
}

/// The tag of a row: a `div` of the class `row`, whose id is the target's and
/// the numeral of the row.
pub proof fn row_tag_is_read(target: Seq<char>, line: Line, cols: nat, stable: int)
    requires
        text::lacks(target, '"'),
    ensures
        ({
            let html = row::row_html(target, line, cols, stable);
            &&& markup::tag_name(html) == "div"@
            &&& markup::attribute(html, "class"@) == Some("row"@)
            &&& markup::attribute(html, "id"@) == Some(
                target + "-r-"@ + text::decimal_int(stable),
            )
        }),
{
    let toks = row::row_tokens(line, cols);
    let html = row::row_html(target, line, cols, stable);
    let rest = row::tokens_html(toks) + "</div>"@;
    names_are_names();
    attr_names_differ();
    row_tag_text(target, stable);
    markup::tags_parse_back("div"@, row_attrs(target, stable), rest);
    assert(html =~= row_tag(target, stable) + rest);
    reveal_with_fuel(markup::value_of, 3);
}

// --- from cells to tokens ----------------------------------------------------

proof fn cells_within(cells: Seq<Cell>, cols: nat)
    ensures
        cells_before(cells, cols) <= cells.len(),
        cells.take(cells_before(cells, cols) as int) == row::within(cells, cols),
    decreases cells.len(),
{
    if cells.len() == 0 || cells[0].index >= cols {
        assert(cells.take(0) =~= row::within(cells, cols));
    } else {
        cells_within(cells.drop_first(), cols);
        let n = cells_before(cells, cols) as int;
        assert(cells.take(n) =~= seq![cells[0]] + cells.drop_first().take(n - 1));
    }
}

proof fn cell_shows(cell: Cell, tag: Seq<char>)
    ensures
        empty_cell(cell) <==> row::cell_token(cell) is Blank,
        token_ink(row::cell_token(cell), seq![tag]) == cell_ink(cell, tag),
        width_of(cell) == row::cell_width(cell),
{
    style::looks_agree_in_every_attribute(cell.attrs, cell.attrs);
    row::only_plain_cells_are_unwrapped(cell.attrs);
    assert(unadorned(cell.attrs) <==> row::is_plain(cell.attrs));
    assert(glyph_of(cell) =~= row::glyph_text(cell.text@));
    let tags = tags_around(cell);
    let e = Seq::<Seq<char>>::empty();
    assert(row::is_blank_text(cell.text@) <==> glyph_of(cell) == seq![' ']) by {
        if cell.text@.len() == 0 {
            assert(glyph_of(cell) =~= seq![' ']);
        }
    }
    if row::cell_token(cell) is Blank {
        blank_is_itself();
        assert(seq![tag] + tags =~= seq![tag]);
    } else {
        let w = row::cell_wrapper(cell.attrs);
        let bx = if width_of(cell) == 1 && glyph_of(cell).len() <= 1 {
            e
        } else {
            seq![box_tag(width_of(cell))]
        };
        assert(glyph_of(cell).len() > 0);
        assert(seq![tag] + wrapper_tags(w) + bx =~= seq![tag] + tags);
    }
}

proof fn blank_is_itself()
    ensures
        row::escaped(seq![' ']) == seq![' '],
{
    assert(seq![' '].drop_last() =~= seq![]);
    assert(row::escaped(seq![]) =~= Seq::<char>::empty());
    assert(row::escaped(seq![' ']) =~= seq![' ']);
}

proof fn ink_of_spaces(n: nat, under: Seq<Seq<char>>)
    ensures
        n > 0 ==> markup::ink_of(row::spaces(n), under) == markup::ink_of(
            row::spaces((n - 1) as nat),
            under,
        ) + markup::ink_of(seq![' '], under),
        n == 0 ==> markup::ink_of(row::spaces(n), under) == Seq::<Ink>::empty(),
        markup::ink_of(row::spaces(n), under).len() == n,
    decreases n,
{
    if n > 0 {
        let m = (n - 1) as nat;
        ink_of_spaces(m, under);
        assert(row::spaces(n).drop_last() =~= row::spaces(m));
        assert(seq![' '].drop_last() =~= seq![]);
        let a = markup::ink_of(row::spaces(m), under);
        let one = Ink { c: ' ', under };
        assert(markup::ink_of(seq![], under) =~= Seq::<Ink>::empty());
        assert(markup::ink_of(seq![' '], under) =~= seq![one]);
        assert(row::spaces(n).last() == ' ');
        assert(markup::ink_of(row::spaces(n), under) == a.push(one));
        assert(a.push(one) =~= a + seq![one]);
    }
}

proof fn blanks_show(toks: Seq<Token>, n: nat, under: Seq<Seq<char>>)
    ensures
        tokens_ink(toks + row::blanks(n), under) == tokens_ink(toks, under) + markup::ink_of(
            row::spaces(n),
            under,
        ),
    decreases n,
{
    ink_of_spaces(n, under);
    if n == 0 {
        assert(toks + row::blanks(n) =~= toks);
        assert(tokens_ink(toks, under) + Seq::<Ink>::empty() =~= tokens_ink(toks, under));
    } else {
        let m = (n - 1) as nat;
        blanks_show(toks, m, under);
        assert((toks + row::blanks(n)).drop_last() =~= toks + row::blanks(m));
        assert((toks + row::blanks(n)).last() == Token::Blank);
        let a = tokens_ink(toks, under);
        let b = markup::ink_of(row::spaces(m), under);
        let c = markup::ink_of(seq![' '], under);
        assert(a + b + c =~= a + (b + c));
    }
}

proof fn cells_show(cells: Seq<Cell>, tag: Seq<char>)
    ensures
        reach(cells) == row::next_col(cells),
        tokens_ink(row::tokens(cells), seq![tag]) == cells_ink(cells, tag),
        empty_end(cells) == row::trailing_blanks(cells),
    decreases cells.len(),
{
    if cells.len() > 0 {
        let rest = cells.drop_last();
        let last = cells.last();
        cells_show(rest, tag);
        cell_shows(last, tag);
        if last.index >= row::next_col(rest) {
            let gap = (last.index - row::next_col(rest)) as nat;
            let padded = row::tokens(rest) + row::blanks(gap);
            blanks_show(row::tokens(rest), gap, seq![tag]);
            assert(row::tokens(cells).drop_last() =~= padded);
            assert(row::tokens(cells).last() == row::cell_token(last));
        }
    }
}

// --- the law -----------------------------------------------------------------

/// A row shows its cells. Read off the markup, character by character with
/// the tags around it: every cell that starts within the columns and is not
/// covered by an earlier one shows its escaped text, inside the row's own
/// element; around it stand the tag that carries its look and link, unless
/// there is none to carry, and a box of its width, unless it is one character
/// in one column. Columns that no cell covers show a bare space, and only the
/// empty cells at the end are left out. The element id stands in its tag as
/// it is given, so it must not hold a quote.
pub proof fn row_shows_its_cells(target: Seq<char>, line: Line, cols: nat, stable: int)
    requires
        text::lacks(target, '"'),
    ensures
        markup::inked(row::row_html(target, line, cols, stable)) == row_ink(
            target,
            line,
            cols,
            stable,
        ),
        markup::elements(row::row_html(target, line, cols, stable)) == seq![
            row::row_html(target, line, cols, stable),
        ],
{
    let html = row::row_html(target, line, cols, stable);
    let cells = row::within(line.cells@, cols);
    let toks = row::row_tokens(line, cols);
    let tag = row_tag(target, stable);
    let r = markup::start(0);
    read_row_ink(target, line, cols, stable, r);
    assert(r.open.push(tag) =~= seq![tag]);
    assert(r.ink + tokens_ink(toks, seq![tag]) =~= tokens_ink(toks, seq![tag]));
    assert(r.cur + html =~= html);
    assert(r.done.push(html) =~= seq![html]);
    cells_within(line.cells@, cols);
    cells_show(cells, tag);
    row::row_drops_trailing_blanks(line, cols);
    let n = empty_end(cells);
    blanks_show(toks, n, seq![tag]);
    ink_of_spaces(n, seq![tag]);
    let all = cells_ink(cells, tag);
    assert(all == tokens_ink(toks, seq![tag]) + markup::ink_of(row::spaces(n), seq![tag]));
    assert(all.take(all.len() - n) =~= tokens_ink(toks, seq![tag]));
}

} // verus!
