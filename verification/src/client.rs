//! A client that is given nothing but the frames: what its page holds after
//! applying them, read from their bytes.
//!
//! A keyframe replaces the children of the page. Of a diff the elements of
//! `patch` replace the children with the same id, those of `append` are added
//! at the end, and the children whose ids are in `trim` are removed.
use crate::cache;
use crate::cache::RowText;
use crate::emit;
use crate::emit::{Cursor, EmitState, Frame, ScreenView};
use crate::markup;
use crate::markup::{Attr, Reader};
use crate::page;
use crate::page::{Page, Tick};
use crate::pacing;
use crate::row;
use crate::row::Line;
use crate::shown;
use crate::text;
use vstd::prelude::*;

verus! {

// --- the client --------------------------------------------------------------

/// The element a client renders into: its id and the markup of its children.
pub struct Dom {
    pub id: Seq<char>,
    pub kids: Seq<Seq<char>>,
}

/// The id of an element.
pub open spec fn id_of(e: Seq<char>) -> Option<Seq<char>> {
    markup::attribute(e, "id"@)
}

/// The child `kid` after a patch: the last element with the same id.
pub open spec fn patched(kid: Seq<char>, patch: Seq<Seq<char>>) -> Seq<char>
    decreases patch.len(),
{
    if patch.len() == 0 {
        kid
    } else if id_of(patch.last()) == id_of(kid) {
        patch.last()
    } else {
        patched(kid, patch.drop_last())
    }
}

/// Children after a patch.
pub open spec fn all_patched(kids: Seq<Seq<char>>, patch: Seq<Seq<char>>) -> Seq<Seq<char>>
    decreases kids.len(),
{
    if kids.len() == 0 {
        seq![]
    } else {
        all_patched(kids.drop_last(), patch).push(patched(kids.last(), patch))
    }
}

/// Children without those whose ids are in `gone`.
pub open spec fn without_ids(kids: Seq<Seq<char>>, gone: Seq<Seq<char>>) -> Seq<Seq<char>>
    decreases kids.len(),
{
    if kids.len() == 0 {
        seq![]
    } else if id_of(kids.last()) matches Some(id) && gone.contains(id) {
        without_ids(kids.drop_last(), gone)
    } else {
        without_ids(kids.drop_last(), gone).push(kids.last())
    }
}

/// The texts of strings.
pub open spec fn texts_of(items: Seq<String>) -> Seq<Seq<char>> {
    items.map_values(|s: String| s@)
}

/// The page after a frame.
pub open spec fn applied(dom: Dom, f: Frame) -> Dom {
    match f {
        Frame::Screen { html, .. } => match id_of(html@) {
            Some(id) => Dom { id, kids: markup::children(html@) },
            None => dom,
        },
        Frame::Diff { target, patch, append, trim, .. } => if target@ == dom.id {
            Dom {
                id: dom.id,
                kids: without_ids(
                    all_patched(dom.kids, markup::elements(patch@)) + markup::elements(append@),
                    texts_of(trim@),
                ),
            }
        } else {
            dom
        },
    }
}

// --- the cursor --------------------------------------------------------------

/// The start tag of the cursor.
pub open spec fn cursor_tag(target: Seq<char>, style: Seq<char>) -> Seq<char> {
    markup::tag_text("div"@, cursor_attrs(target, style))
}

spec fn cursor_style(row: nat, col: nat, visible: bool) -> Seq<char> {
    "--cursor-row:"@ + text::decimal(row) + ";--cursor-col:"@ + text::decimal(col) + (if visible {
        seq![]
    } else {
        ";display:none"@
    })
}

pub open spec fn cursor_attrs(target: Seq<char>, style: Seq<char>) -> Seq<Attr> {
    seq![
        Attr { name: "class"@, value: "cursor"@ },
        Attr { name: "id"@, value: target + "-cursor"@ },
        Attr { name: "style"@, value: style },
    ]
}

proof fn cursor_names()
    ensures
        markup::is_name("div"@) && "div"@.len() > 0,
        markup::is_name("class"@),
        markup::is_name("id"@),
        markup::is_name("style"@),
        text::lacks("cursor"@, '"'),
        text::lacks("-cursor"@, '"'),
        text::lacks("--cursor-row:"@, '"'),
        text::lacks(";--cursor-col:"@, '"'),
        text::lacks(";display:none"@, '"'),
        "id"@ != "class"@ && "id"@ != "style"@ && "class"@ != "style"@,
{
    reveal_strlit("div");
    reveal_strlit("class");
    reveal_strlit("id");
    reveal_strlit("style");
    reveal_strlit("cursor");
    reveal_strlit("-cursor");
    reveal_strlit("--cursor-row:");
    reveal_strlit(";--cursor-col:");
    reveal_strlit(";display:none");
    assert("id"@[0] == 'i' && "class"@[0] == 'c' && "style"@[0] == 's');
}

proof fn cursor_is_writable(target: Seq<char>, row: nat, col: nat, visible: bool)
    requires
        text::lacks(target, '"'),
    ensures
        markup::writable(cursor_attrs(target, cursor_style(row, col, visible))),
{
    cursor_names();
    text::lacks_join(target, "-cursor"@, '"');
    text::numerals_lack(row as int, '"');
    text::numerals_lack(col as int, '"');
    let a = "--cursor-row:"@ + text::decimal(row);
    let b = a + ";--cursor-col:"@;
    let c = b + text::decimal(col);
    let e = if visible {
        Seq::<char>::empty()
    } else {
        ";display:none"@
    };
    text::lacks_join("--cursor-row:"@, text::decimal(row), '"');
    text::lacks_join(a, ";--cursor-col:"@, '"');
    text::lacks_join(b, text::decimal(col), '"');
    text::lacks_join(c, e, '"');
}

proof fn three_attrs(a: Attr, b: Attr, c: Attr)
    ensures
        markup::attrs_text(seq![a, b, c]) == markup::attr_text(a) + markup::attr_text(b)
            + markup::attr_text(c),
{
    reveal_with_fuel(markup::attrs_text, 4);
    assert(seq![a, b, c].drop_first() =~= seq![b, c]);
    assert(seq![b, c].drop_first() =~= seq![c]);
    assert(seq![c].drop_first() =~= seq![]);
    assert(markup::attrs_text(seq![a, b, c]) =~= markup::attr_text(a) + markup::attr_text(b)
        + markup::attr_text(c));
}

proof fn cursor_html_text(target: Seq<char>, row: nat, col: nat, visible: bool)
    ensures
        row::cursor_html(target, row, col, visible) == cursor_tag(
            target,
            cursor_style(row, col, visible),
        ) + markup::end_text("div"@),
{
    reveal_strlit("<div class=\"cursor\" id=\"");
    reveal_strlit("-cursor\" style=\"--cursor-row:");
    reveal_strlit("\"></div>");
    reveal_strlit("div");
    reveal_strlit("class");
    reveal_strlit("id");
    reveal_strlit("style");
    reveal_strlit("cursor");
    reveal_strlit("-cursor");
    reveal_strlit("--cursor-row:");
    let st = cursor_style(row, col, visible);
    let a = Attr { name: "class"@, value: "cursor"@ };
    let b = Attr { name: "id"@, value: target + "-cursor"@ };
    let c = Attr { name: "style"@, value: st };
    three_attrs(a, b, c);
    let d = text::decimal(row) + ";--cursor-col:"@ + text::decimal(col) + (if visible {
        seq![]
    } else {
        ";display:none"@
    });
    assert(st =~= "--cursor-row:"@ + d);
    assert("<div class=\"cursor\" id=\""@ =~= seq!['<'] + "div"@ + markup::attr_text(a) + seq![' ']
        + "id"@ + seq!['=', '"']);
    assert("-cursor\" style=\"--cursor-row:"@ =~= "-cursor"@ + seq!['"', ' '] + "style"@ + seq![
        '=',
        '"',
    ] + "--cursor-row:"@);
    assert("\"></div>"@ =~= seq!['"', '>'] + markup::end_text("div"@));
    let html = row::cursor_html(target, row, col, visible);
    assert(html =~= "<div class=\"cursor\" id=\""@ + target + "-cursor\" style=\"--cursor-row:"@ + d
        + "\"></div>"@);
    assert(html =~= cursor_tag(target, st) + markup::end_text("div"@));
}

/// The cursor is one element.
proof fn read_cursor(target: Seq<char>, row: nat, col: nat, visible: bool, r: Reader)
    requires
        text::lacks(target, '"'),
        markup::at_rest(r),
        r.open.len() == r.depth,
    ensures
        markup::read(row::cursor_html(target, row, col, visible), r) == (Reader {
            done: r.done.push(r.cur + row::cursor_html(target, row, col, visible)),
            cur: seq![],
            ..r
        }),
{
    let st = cursor_style(row, col, visible);
    let tag = cursor_tag(target, st);
    let end = markup::end_text("div"@);
    cursor_names();
    cursor_is_writable(target, row, col, visible);
    cursor_html_text(target, row, col, visible);
    markup::read_start_tag("div"@, cursor_attrs(target, st), r);
    markup::read_end_tag("div"@, markup::read(tag, r));
    markup::read_join(tag, end, r);
    assert(r.open.push(tag).drop_last() =~= r.open);
    assert(r.cur + tag + end =~= r.cur + row::cursor_html(target, row, col, visible));
}

proof fn cursor_id(target: Seq<char>, row: nat, col: nat, visible: bool)
    requires
        text::lacks(target, '"'),
    ensures
        markup::tag_attrs(row::cursor_html(target, row, col, visible)) == cursor_attrs(
            target,
            cursor_style(row, col, visible),
        ),
        markup::tag_name(row::cursor_html(target, row, col, visible)) == "div"@,
        id_of(row::cursor_html(target, row, col, visible)) == Some(target + "-cursor"@),
{
    let st = cursor_style(row, col, visible);
    cursor_names();
    cursor_is_writable(target, row, col, visible);
    cursor_html_text(target, row, col, visible);
    markup::tags_parse_back("div"@, cursor_attrs(target, st), markup::end_text("div"@));
    reveal_with_fuel(markup::value_of, 3);
}

/// The cursor overlay, read off its markup: one element without content, of
/// the class `cursor` and the id that goes with the target, whose style places
/// it at the row and column by two numerals and takes it off the display
/// exactly if it is hidden.
pub proof fn cursor_shows_its_place(target: Seq<char>, row: nat, col: nat, visible: bool)
    requires
        text::lacks(target, '"'),
    ensures
        ({
            let html = row::cursor_html(target, row, col, visible);
            &&& markup::elements(html) == seq![html]
            &&& markup::inked(html).len() == 0
            &&& markup::tag_name(html) == "div"@
            &&& markup::attribute(html, "class"@) == Some("cursor"@)
            &&& id_of(html) == Some(target + "-cursor"@)
            &&& markup::attribute(html, "style"@) matches Some(s) && {
                &&& markup::property(s, "--cursor-row"@) matches Some(d) && text::all_digits(d)
                    && d.len() > 0 && text::number(d) == row
                &&& markup::property(s, "--cursor-col"@) matches Some(d) && text::all_digits(d)
                    && d.len() > 0 && text::number(d) == col
                &&& markup::property(s, "display"@) == (if visible {
                    None
                } else {
                    Some("none"@)
                })
            }
        }),
{
    let html = row::cursor_html(target, row, col, visible);
    let r = markup::start(0);
    read_cursor(target, row, col, visible, r);
    assert(r.cur + html =~= html);
    assert(r.done.push(html) =~= seq![html]);
    cursor_id(target, row, col, visible);
    cursor_names();
    reveal_with_fuel(markup::value_of, 4);
    cursor_declarations(row, col, visible);
    text::decimal_reads_back(row);
    text::decimal_reads_back(col);
}

proof fn cursor_declarations(row: nat, col: nat, visible: bool)
    ensures
        markup::property(cursor_style(row, col, visible), "--cursor-row"@) == Some(
            text::decimal(row),
        ),
        markup::property(cursor_style(row, col, visible), "--cursor-col"@) == Some(
            text::decimal(col),
        ),
        markup::property(cursor_style(row, col, visible), "display"@) == (if visible {
            None
        } else {
            Some("none"@)
        }),
{
    reveal_strlit("--cursor-row:");
    reveal_strlit(";--cursor-col:");
    reveal_strlit(";display:none");
    reveal_strlit("--cursor-row");
    reveal_strlit("--cursor-col");
    reveal_strlit("display");
    reveal_strlit("none");
    assert("--cursor-row"@[9] == 'r' && "--cursor-col"@[9] == 'c' && "display"@[0] == 'd'
        && "--cursor-row"@[0] == '-' && "--cursor-col"@[0] == '-');
    let s = cursor_style(row, col, visible);
    let dr = text::decimal(row);
    let dc = text::decimal(col);
    text::numerals_lack(row as int, ';');
    text::numerals_lack(col as int, ';');
    let last = if visible {
        Seq::<char>::empty()
    } else {
        ";display:none"@
    };
    let tail = "--cursor-col"@ + seq![':'] + dc + last;
    markup::declarations_first("--cursor-row"@, dr, tail);
    assert(s =~= "--cursor-row"@ + seq![':'] + dr + seq![';'] + tail);
    let d1 = seq![Attr { name: "--cursor-row"@, value: dr }];
    let d2 = seq![Attr { name: "--cursor-col"@, value: dc }];
    let d3 = seq![Attr { name: "display"@, value: "none"@ }];
    if visible {
        assert(tail =~= "--cursor-col"@ + seq![':'] + dc);
        markup::declarations_first("--cursor-col"@, dc, seq![]);
        assert((d1 + d2).drop_first() =~= d2);
        assert(d2.drop_first() =~= seq![]);
    } else {
        let none = "display"@ + seq![':'] + "none"@;
        assert(tail =~= "--cursor-col"@ + seq![':'] + dc + seq![';'] + none);
        markup::declarations_first("--cursor-col"@, dc, none);
        markup::declarations_first("display"@, "none"@, seq![]);
        assert((d1 + (d2 + d3)).drop_first() =~= d2 + d3);
        assert((d2 + d3).drop_first() =~= d3);
        assert(d3.drop_first() =~= seq![]);
    }
    reveal_with_fuel(markup::value_of, 5);
}

// --- rows --------------------------------------------------------------------

/// The markup of rows.
pub open spec fn markups(rows: Seq<RowText>) -> Seq<Seq<char>>
    decreases rows.len(),
{
    if rows.len() == 0 {
        seq![]
    } else {
        markups(rows.drop_last()).push(rows.last().html)
    }
}

/// Whether `r` is a rendered row under its own id.
pub open spec fn is_row(target: Seq<char>, r: RowText) -> bool {
    exists|line: Line, cols: nat| r.html == #[trigger] row::row_html(target, line, cols, r.id)
}

/// Whether all of `rows` are rendered rows.
pub open spec fn are_rows(target: Seq<char>, rows: Seq<RowText>) -> bool {
    forall|i: int| 0 <= i < rows.len() ==> is_row(target, #[trigger] rows[i])
}

/// The element id of row `stable`.
pub open spec fn row_name(target: Seq<char>, stable: int) -> Seq<char> {
    target + "-r-"@ + text::decimal_int(stable)
}

proof fn are_rows_rest(target: Seq<char>, rows: Seq<RowText>)
    requires
        are_rows(target, rows),
        rows.len() > 0,
    ensures
        are_rows(target, rows.drop_last()),
        is_row(target, rows.last()),
{
    let rest = rows.drop_last();
    assert forall|i: int| 0 <= i < rest.len() implies is_row(target, #[trigger] rest[i]) by {
        assert(is_row(target, rows[i]));
    }
    assert(is_row(target, rows[rows.len() - 1]));
}

proof fn signed_numerals_are_faithful(a: int, b: int)
    requires
        text::decimal_int(a) == text::decimal_int(b),
    ensures
        a == b,
{
    let da = text::decimal(
        if a < 0 {
            (-a) as nat
        } else {
            a as nat
        },
    );
    let db = text::decimal(
        if b < 0 {
            (-b) as nat
        } else {
            b as nat
        },
    );
    text::decimal_reads_back((-a) as nat);
    text::decimal_reads_back((-b) as nat);
    text::decimal_reads_back(a as nat);
    text::decimal_reads_back(b as nat);
    if a >= 0 {
        assert(text::is_digit(da[0]));
    } else {
        assert(text::decimal_int(a).skip(1) =~= da);
    }
    if b >= 0 {
        assert(text::is_digit(db[0]));
    } else {
        assert(text::decimal_int(b).skip(1) =~= db);
    }
}

proof fn row_names_differ(target: Seq<char>, a: int, b: int)
    ensures
        row_name(target, a) == row_name(target, b) ==> a == b,
        row_name(target, a) != target + "-cursor"@,
        row_name(target, a) == row::row_id(target, a),
{
    reveal_strlit("-r-");
    reveal_strlit("-cursor");
    let n = target.len() as int;
    if row_name(target, a) == row_name(target, b) {
        assert(row_name(target, a).skip(n + 3) =~= text::decimal_int(a));
        assert(row_name(target, b).skip(n + 3) =~= text::decimal_int(b));
        signed_numerals_are_faithful(a, b);
    }
    assert(row_name(target, a)[n + 1] == 'r');
    assert((target + "-cursor"@)[n + 1] == 'c');
}

proof fn row_id_is_read(target: Seq<char>, r: RowText)
    requires
        text::lacks(target, '"'),
        is_row(target, r),
    ensures
        id_of(r.html) == Some(row_name(target, r.id)),
{
    let (line, cols) = choose|line: Line, cols: nat|
        r.html == #[trigger] row::row_html(target, line, cols, r.id);
    shown::row_tag_is_read(target, line, cols, r.id);
}

proof fn read_rows(target: Seq<char>, rows: Seq<RowText>, r: Reader)
    requires
        text::lacks(target, '"'),
        are_rows(target, rows),
        markup::at_rest(r),
        r.open.len() == r.depth,
        r.cur.len() == 0,
    ensures
        ({
            let after = markup::read(cache::joined(rows), r);
            &&& after.done == r.done + markups(rows)
            &&& after.cur.len() == 0
            &&& after.open == r.open
            &&& after.depth == r.depth
            &&& markup::at_rest(after)
        }),
    decreases rows.len(),
{
    if rows.len() == 0 {
        assert(r.done + markups(rows) =~= r.done);
    } else {
        let rest = rows.drop_last();
        let last = rows.last();
        are_rows_rest(target, rows);
        read_rows(target, rest, r);
        let r1 = markup::read(cache::joined(rest), r);
        let (line, cols) = choose|line: Line, cols: nat|
            last.html == #[trigger] row::row_html(target, line, cols, last.id);
        shown::read_row(target, line, cols, last.id, r1);
        markup::read_join(cache::joined(rest), last.html, r);
        assert(r1.cur + last.html =~= last.html);
        assert(r1.done.push(last.html) =~= r.done + markups(rows));
    }
}

// --- patching ----------------------------------------------------------------

proof fn patched_join(kid: Seq<char>, a: Seq<Seq<char>>, b: Seq<Seq<char>>)
    requires
        forall|i: int| 0 <= i < b.len() ==> id_of(#[trigger] b[i]) != id_of(kid),
    ensures
        patched(kid, a + b) == patched(kid, a),
    decreases b.len(),
{
    if b.len() == 0 {
        assert(a + b =~= a);
    } else {
        assert((a + b).drop_last() =~= a + b.drop_last());
        assert((a + b).last() == b.last());
        assert(id_of(b[b.len() - 1]) != id_of(kid));
        assert forall|i: int| 0 <= i < b.drop_last().len() implies id_of(
            #[trigger] b.drop_last()[i],
        ) != id_of(kid) by {
            assert(id_of(b[i]) != id_of(kid));
        }
        patched_join(kid, a, b.drop_last());
    }
}

proof fn patched_row(target: Seq<char>, kid: RowText, changed: Seq<RowText>)
    requires
        text::lacks(target, '"'),
        is_row(target, kid),
        are_rows(target, changed),
    ensures
        patched(kid.html, markups(changed)) == match cache::lookup(changed, kid.id) {
            Some(html) => html,
            None => kid.html,
        },
    decreases changed.len(),
{
    if changed.len() > 0 {
        let last = changed.last();
        are_rows_rest(target, changed);
        row_id_is_read(target, kid);
        row_id_is_read(target, last);
        row_names_differ(target, kid.id, last.id);
        patched_row(target, kid, changed.drop_last());
        assert(markups(changed).drop_last() =~= markups(changed.drop_last()));
        assert(markups(changed).last() == last.html);
    }
}

proof fn all_patched_join(a: Seq<Seq<char>>, b: Seq<Seq<char>>, p: Seq<Seq<char>>)
    ensures
        all_patched(a + b, p) == all_patched(a, p) + all_patched(b, p),
    decreases b.len(),
{
    if b.len() == 0 {
        assert(a + b =~= a);
        assert(all_patched(a, p) + all_patched(b, p) =~= all_patched(a, p));
    } else {
        assert((a + b).drop_last() =~= a + b.drop_last());
        assert((a + b).last() == b.last());
        all_patched_join(a, b.drop_last(), p);
        assert(all_patched(a + b, p) =~= all_patched(a, p) + all_patched(b, p));
    }
}

proof fn patched_grid(
    target: Seq<char>,
    grid: Seq<RowText>,
    changed: Seq<RowText>,
    extra: Seq<Seq<char>>,
)
    requires
        text::lacks(target, '"'),
        are_rows(target, grid),
        are_rows(target, changed),
        forall|i: int|
            0 <= i < extra.len() ==> id_of(#[trigger] extra[i]) == Some(target + "-cursor"@),
    ensures
        all_patched(markups(grid), markups(changed) + extra) == markups(
            page::morphed(grid, changed),
        ),
    decreases grid.len(),
{
    let p = markups(changed) + extra;
    let m = page::morphed(grid, changed);
    if grid.len() == 0 {
        assert(m =~= seq![]);
        assert(all_patched(markups(grid), p) =~= markups(m));
    } else {
        let rest = grid.drop_last();
        let last = grid.last();
        are_rows_rest(target, grid);
        patched_grid(target, rest, changed, extra);
        assert(m.drop_last() =~= page::morphed(rest, changed));
        assert(markups(grid).drop_last() =~= markups(rest));
        assert(markups(grid).last() == last.html);
        row_id_is_read(target, last);
        row_names_differ(target, last.id, last.id);
        patched_join(last.html, markups(changed), extra);
        patched_row(target, last, changed);
        assert(m.last().html == patched(last.html, p));
    }
}

proof fn patched_cursor(target: Seq<char>, kid: Seq<char>, changed: Seq<RowText>)
    requires
        text::lacks(target, '"'),
        id_of(kid) == Some(target + "-cursor"@),
        are_rows(target, changed),
    ensures
        patched(kid, markups(changed)) == kid,
    decreases changed.len(),
{
    if changed.len() > 0 {
        are_rows_rest(target, changed);
        row_id_is_read(target, changed.last());
        row_names_differ(target, changed.last().id, changed.last().id);
        patched_cursor(target, kid, changed.drop_last());
        assert(markups(changed).drop_last() =~= markups(changed.drop_last()));
        assert(markups(changed).last() == changed.last().html);
    }
}

// --- trimming ----------------------------------------------------------------

proof fn without_ids_join(a: Seq<Seq<char>>, b: Seq<Seq<char>>, gone: Seq<Seq<char>>)
    ensures
        without_ids(a + b, gone) == without_ids(a, gone) + without_ids(b, gone),
    decreases b.len(),
{
    if b.len() == 0 {
        assert(a + b =~= a);
        assert(without_ids(a, gone) + without_ids(b, gone) =~= without_ids(a, gone));
    } else {
        assert((a + b).drop_last() =~= a + b.drop_last());
        assert((a + b).last() == b.last());
        without_ids_join(a, b.drop_last(), gone);
        assert(without_ids(a + b, gone) =~= without_ids(a, gone) + without_ids(b, gone));
    }
}

/// `gone` names the rows `ids`.
spec fn names_rows(target: Seq<char>, gone: Seq<Seq<char>>, ids: Seq<int>) -> bool {
    gone.len() == ids.len() && forall|i: int|
        0 <= i < gone.len() ==> #[trigger] gone[i] == row_name(target, ids[i])
}

proof fn trimmed_grid(
    target: Seq<char>,
    grid: Seq<RowText>,
    gone: Seq<Seq<char>>,
    ids: Seq<int>,
)
    requires
        text::lacks(target, '"'),
        are_rows(target, grid),
        names_rows(target, gone, ids),
    ensures
        without_ids(markups(grid), gone) == markups(page::without(grid, ids)),
    decreases grid.len(),
{
    if grid.len() == 0 {
        assert(without_ids(markups(grid), gone) =~= markups(page::without(grid, ids)));
    } else {
        let rest = grid.drop_last();
        let last = grid.last();
        are_rows_rest(target, grid);
        trimmed_grid(target, rest, gone, ids);
        row_id_is_read(target, last);
        assert(markups(grid).drop_last() =~= markups(rest));
        assert(markups(grid).last() == last.html);
        let name = row_name(target, last.id);
        assert(gone.contains(name) <==> ids.contains(last.id)) by {
            if gone.contains(name) {
                let i = choose|i: int| 0 <= i < gone.len() && gone[i] == name;
                assert(gone[i] == row_name(target, ids[i]));
                row_names_differ(target, ids[i], last.id);
                assert(ids[i] == last.id);
            }
            if ids.contains(last.id) {
                let i = choose|i: int| 0 <= i < ids.len() && ids[i] == last.id;
                assert(gone[i] == row_name(target, ids[i]));
            }
        }
        if !ids.contains(last.id) {
            let w = page::without(rest, ids);
            assert(w.push(last).drop_last() =~= w);
        }
    }
}

proof fn cursor_is_kept(target: Seq<char>, kid: Seq<char>, gone: Seq<Seq<char>>, ids: Seq<int>)
    requires
        id_of(kid) == Some(target + "-cursor"@),
        names_rows(target, gone, ids),
    ensures
        without_ids(seq![kid], gone) == seq![kid],
{
    let name = target + "-cursor"@;
    if gone.contains(name) {
        let i = choose|i: int| 0 <= i < gone.len() && gone[i] == name;
        assert(gone[i] == row_name(target, ids[i]));
        row_names_differ(target, ids[i], ids[i]);
    }
    assert(seq![kid].drop_last() =~= seq![]);
    assert(without_ids(seq![], gone) =~= Seq::<Seq<char>>::empty());
    assert(without_ids(seq![kid], gone) =~= seq![kid]);
}

// --- a frame at the client ---------------------------------------------------

/// The markup of a cursor.
pub open spec fn cursor_markup(target: Seq<char>, c: Cursor) -> Seq<char> {
    row::cursor_html(target, c.row as nat, c.col as nat, c.visible)
}

/// The page as a client holds it.
pub open spec fn dom_of(target: Seq<char>, p: Page) -> Dom {
    Dom { id: target, kids: seq![cursor_markup(target, p.cursor)] + markups(p.grid) }
}

proof fn markups_join(a: Seq<RowText>, b: Seq<RowText>)
    ensures
        markups(a + b) == markups(a) + markups(b),
    decreases b.len(),
{
    if b.len() == 0 {
        assert(a + b =~= a);
        assert(markups(a) + markups(b) =~= markups(a));
    } else {
        assert((a + b).drop_last() =~= a + b.drop_last());
        assert((a + b).last() == b.last());
        markups_join(a, b.drop_last());
        assert(markups(a + b) =~= markups(a) + markups(b));
    }
}

proof fn patch_elements(
    target: Seq<char>,
    changed: Seq<RowText>,
    moved: bool,
    c: Cursor,
    patch: Seq<char>,
)
    requires
        text::lacks(target, '"'),
        are_rows(target, changed),
        patch == cache::joined(changed) + (if moved {
            cursor_markup(target, c)
        } else {
            seq![]
        }),
    ensures
        markup::elements(patch) == markups(changed) + (if moved {
            seq![cursor_markup(target, c)]
        } else {
            seq![]
        }),
{
    let r = markup::start(0);
    let j = cache::joined(changed);
    read_rows(target, changed, r);
    let r1 = markup::read(j, r);
    assert(r.done + markups(changed) =~= markups(changed));
    if moved {
        read_cursor(target, c.row as nat, c.col as nat, c.visible, r1);
        markup::read_join(j, cursor_markup(target, c), r);
        assert(r1.cur + cursor_markup(target, c) =~= cursor_markup(target, c));
        assert(markups(changed).push(cursor_markup(target, c)) =~= markups(changed) + seq![
            cursor_markup(target, c),
        ]);
    } else {
        assert(patch =~= j);
        assert(markups(changed) + Seq::<Seq<char>>::empty() =~= markups(changed));
    }
}

/// Applying the parts of a diff to a page.
proof fn diff_reaches_client(
    target: Seq<char>,
    p: Page,
    changed: Seq<RowText>,
    appended: Seq<RowText>,
    trimmed: Seq<int>,
    c: Cursor,
    patch: Seq<char>,
    append: Seq<char>,
    gone: Seq<Seq<char>>,
)
    requires
        text::lacks(target, '"'),
        are_rows(target, p.grid),
        are_rows(target, changed),
        are_rows(target, appended),
        names_rows(target, gone, trimmed),
        patch == cache::joined(changed) + (if c == p.cursor {
            seq![]
        } else {
            cursor_markup(target, c)
        }),
        append == cache::joined(appended),
    ensures
        without_ids(
            all_patched(dom_of(target, p).kids, markup::elements(patch)) + markup::elements(append),
            gone,
        ) == dom_of(target, page::after_diff(p, changed, appended, trimmed, c)).kids,
{
    let moved = c != p.cursor;
    let old = cursor_markup(target, p.cursor);
    let new = cursor_markup(target, c);
    let extra = if moved {
        seq![new]
    } else {
        seq![]
    };
    let ps = markups(changed) + extra;
    cursor_id(target, p.cursor.row as nat, p.cursor.col as nat, p.cursor.visible);
    cursor_id(target, c.row as nat, c.col as nat, c.visible);
    patch_elements(target, changed, moved, c, patch);
    let r = markup::start(0);
    read_rows(target, appended, r);
    assert(r.done + markups(appended) =~= markups(appended));
    patched_grid(target, p.grid, changed, extra);
    all_patched_join(seq![old], markups(p.grid), ps);
    assert(seq![old].drop_last() =~= seq![]);
    assert(all_patched(seq![], ps) =~= Seq::<Seq<char>>::empty());
    patched_cursor(target, old, changed);
    if moved {
        assert(ps.last() == new);
    } else {
        assert(ps =~= markups(changed));
    }
    assert(patched(old, ps) == new);
    assert(all_patched(seq![old], ps) =~= seq![new]);
    let m = page::morphed(p.grid, changed);
    let grid = m + appended;
    markups_join(m, appended);
    let kids = seq![new] + markups(m) + markups(appended);
    assert(kids =~= seq![new] + markups(grid));
    without_ids_join(seq![new], markups(grid), gone);
    cursor_is_kept(target, new, gone, trimmed);
    morphed_are_rows(target, p.grid, changed);
    assert(are_rows(target, grid)) by {
        assert forall|i: int| 0 <= i < grid.len() implies is_row(target, #[trigger] grid[i]) by {
            if i < m.len() {
                assert(is_row(target, m[i]));
            } else {
                assert(is_row(target, appended[i - m.len()]));
            }
        }
    }
    trimmed_grid(target, grid, gone, trimmed);
}

proof fn lookup_is_row(target: Seq<char>, rows: Seq<RowText>, id: int)
    requires
        are_rows(target, rows),
    ensures
        cache::lookup(rows, id) matches Some(html) ==> is_row(target, RowText { id, html }),
    decreases rows.len(),
{
    if rows.len() > 0 {
        are_rows_rest(target, rows);
        lookup_is_row(target, rows.drop_last(), id);
        assert(rows.last() == RowText { id: rows.last().id, html: rows.last().html });
    }
}

proof fn morphed_are_rows(target: Seq<char>, grid: Seq<RowText>, changed: Seq<RowText>)
    requires
        are_rows(target, grid),
        are_rows(target, changed),
    ensures
        are_rows(target, page::morphed(grid, changed)),
{
    let m = page::morphed(grid, changed);
    assert forall|i: int| 0 <= i < m.len() implies is_row(target, #[trigger] m[i]) by {
        assert(is_row(target, grid[i]));
        lookup_is_row(target, changed, grid[i].id);
    }
}

/// The attributes of the container.
spec fn screen_attrs(target: Seq<char>, cols: nat, rows: nat) -> Seq<Attr> {
    seq![
        Attr { name: "id"@, value: target },
        Attr { name: "data-cols"@, value: text::decimal(cols) },
        Attr { name: "data-rows"@, value: text::decimal(rows) },
    ]
}

proof fn screen_names(target: Seq<char>, cols: nat, rows: nat)
    requires
        text::lacks(target, '"'),
    ensures
        markup::is_name("div"@) && "div"@.len() > 0,
        markup::writable(screen_attrs(target, cols, rows)),
        "id"@ != "data-cols"@ && "id"@ != "data-rows"@ && "data-cols"@ != "data-rows"@,
        "<div id=\""@ + target + "\" data-cols=\""@ + text::decimal(cols) + "\" data-rows=\""@
            + text::decimal(rows) + "\">"@ == markup::tag_text(
            "div"@,
            screen_attrs(target, cols, rows),
        ),
        "</div>"@ == markup::end_text("div"@),
{
    reveal_strlit("div");
    reveal_strlit("id");
    reveal_strlit("data-cols");
    reveal_strlit("data-rows");
    reveal_strlit("<div id=\"");
    reveal_strlit("\" data-cols=\"");
    reveal_strlit("\" data-rows=\"");
    reveal_strlit("\">");
    reveal_strlit("</div>");
    assert("id"@[0] == 'i' && "data-cols"@[0] == 'd' && "data-rows"@[0] == 'd' && "data-cols"@[5]
        == 'c' && "data-rows"@[5] == 'r');
    text::numerals_lack(cols as int, '"');
    text::numerals_lack(rows as int, '"');
    let a = Attr { name: "id"@, value: target };
    let b = Attr { name: "data-cols"@, value: text::decimal(cols) };
    let c = Attr { name: "data-rows"@, value: text::decimal(rows) };
    three_attrs(a, b, c);
    assert("<div id=\""@ =~= seq!['<'] + "div"@ + seq![' '] + "id"@ + seq!['=', '"']);
    assert("\" data-cols=\""@ =~= seq!['"', ' '] + "data-cols"@ + seq!['=', '"']);
    assert("\" data-rows=\""@ =~= seq!['"', ' '] + "data-rows"@ + seq!['=', '"']);
    assert("\">"@ =~= seq!['"', '>']);
    assert("</div>"@ =~= markup::end_text("div"@));
    let tag = markup::tag_text("div"@, screen_attrs(target, cols, rows));
    assert("<div id=\""@ + target + "\" data-cols=\""@ + text::decimal(cols) + "\" data-rows=\""@
        + text::decimal(rows) + "\">"@ =~= tag);
}

/// The keyframe, read off its markup: one container with the target's id and
/// the size in numerals, whose children are the cursor and then exactly the
/// rows of the grid, one for each and in order.
pub proof fn keyframe_holds_the_grid(
    target: Seq<char>,
    cols: nat,
    rows: nat,
    c: Cursor,
    grid: Seq<RowText>,
)
    requires
        text::lacks(target, '"'),
        are_rows(target, grid),
    ensures
        ({
            let html = emit::screen_html(target, cols, rows, c, grid);
            &&& markup::elements(html) == seq![html]
            &&& markup::children(html) == seq![cursor_markup(target, c)] + markups(grid)
            &&& markup::tag_name(html) == "div"@
            &&& id_of(html) == Some(target)
            &&& markup::attribute(html, "data-cols"@) matches Some(d) && text::all_digits(d)
                && text::number(d) == cols
            &&& markup::attribute(html, "data-rows"@) matches Some(d) && text::all_digits(d)
                && text::number(d) == rows
        }),
{
    let html = emit::screen_html(target, cols, rows, c, grid);
    let tag = markup::tag_text("div"@, screen_attrs(target, cols, rows));
    let cm = cursor_markup(target, c);
    let j = cache::joined(grid);
    let end = markup::end_text("div"@);
    screen_names(target, cols, rows);
    assert(html == tag + cm + j + end);
    markup::tags_parse_back("div"@, screen_attrs(target, cols, rows), cm + j + end);
    assert(html =~= tag + (cm + j + end));
    reveal_with_fuel(markup::value_of, 4);
    text::decimal_reads_back(cols);
    text::decimal_reads_back(rows);
    let attrs = screen_attrs(target, cols, rows);
    assert(attrs.drop_first()[0] == attrs[1] && attrs.drop_first().drop_first()[0] == attrs[2]);
    keyframe_parts(target, cols, rows, c, grid);
    keyframe_is_one(target, cols, rows, c, grid);
}

proof fn keyframe_parts(
    target: Seq<char>,
    cols: nat,
    rows: nat,
    c: Cursor,
    grid: Seq<RowText>,
)
    requires
        text::lacks(target, '"'),
        are_rows(target, grid),
    ensures
        markup::children(emit::screen_html(target, cols, rows, c, grid)) == seq![
            cursor_markup(target, c),
        ] + markups(grid),
{
    let tag = markup::tag_text("div"@, screen_attrs(target, cols, rows));
    let cm = cursor_markup(target, c);
    let j = cache::joined(grid);
    let end = markup::end_text("div"@);
    screen_names(target, cols, rows);
    let r = markup::start(1);
    markup::read_start_tag("div"@, screen_attrs(target, cols, rows), r);
    let r1 = markup::read(tag, r);
    read_cursor(target, c.row as nat, c.col as nat, c.visible, r1);
    let r2 = markup::read(cm, r1);
    read_rows(target, grid, r2);
    let r3 = markup::read(j, r2);
    markup::read_end_tag("div"@, r3);
    markup::read_join(tag, cm, r);
    markup::read_join(tag + cm, j, r);
    markup::read_join(tag + cm + j, end, r);
    assert(r1.cur + cm =~= cm);
    assert(r.done.push(cm) + markups(grid) =~= seq![cm] + markups(grid));
}

/// Rows that stand inside another element are only read through.
proof fn read_rows_through(target: Seq<char>, rows: Seq<RowText>, r: Reader)
    requires
        text::lacks(target, '"'),
        are_rows(target, rows),
        markup::at_rest(r),
        r.open.len() > r.depth,
    ensures
        ({
            let after = markup::read(cache::joined(rows), r);
            &&& after.done == r.done
            &&& after.cur == r.cur + cache::joined(rows)
            &&& after.open == r.open
            &&& after.depth == r.depth
            &&& markup::at_rest(after)
        }),
    decreases rows.len(),
{
    if rows.len() == 0 {
        assert(r.cur + cache::joined(rows) =~= r.cur);
    } else {
        let rest = rows.drop_last();
        let last = rows.last();
        are_rows_rest(target, rows);
        read_rows_through(target, rest, r);
        let r1 = markup::read(cache::joined(rest), r);
        let (line, cols) = choose|line: Line, cols: nat|
            last.html == #[trigger] row::row_html(target, line, cols, last.id);
        shown::read_row_through(target, line, cols, last.id, r1);
        markup::read_join(cache::joined(rest), last.html, r);
        assert(r.cur + cache::joined(rest) + last.html =~= r.cur + cache::joined(rows));
    }
}

proof fn keyframe_is_one(
    target: Seq<char>,
    cols: nat,
    rows: nat,
    c: Cursor,
    grid: Seq<RowText>,
)
    requires
        text::lacks(target, '"'),
        are_rows(target, grid),
    ensures
        markup::elements(emit::screen_html(target, cols, rows, c, grid)) == seq![
            emit::screen_html(target, cols, rows, c, grid),
        ],
{
    let html = emit::screen_html(target, cols, rows, c, grid);
    let tag = markup::tag_text("div"@, screen_attrs(target, cols, rows));
    let st = cursor_style(c.row as nat, c.col as nat, c.visible);
    let ct = cursor_tag(target, st);
    let cm = cursor_markup(target, c);
    let j = cache::joined(grid);
    let end = markup::end_text("div"@);
    screen_names(target, cols, rows);
    cursor_is_writable(target, c.row as nat, c.col as nat, c.visible);
    cursor_names();
    cursor_html_text(target, c.row as nat, c.col as nat, c.visible);
    let r = markup::start(0);
    markup::read_start_tag("div"@, screen_attrs(target, cols, rows), r);
    let r1 = markup::read(tag, r);
    markup::read_start_tag("div"@, cursor_attrs(target, st), r1);
    markup::read_end_tag("div"@, markup::read(ct, r1));
    markup::read_join(ct, end, r1);
    let r2 = markup::read(cm, r1);
    assert(r1.open.push(ct).drop_last() =~= r1.open);
    read_rows_through(target, grid, r2);
    let r3 = markup::read(j, r2);
    markup::read_end_tag("div"@, r3);
    markup::read_join(tag, cm, r);
    markup::read_join(tag + cm, j, r);
    markup::read_join(tag + cm + j, end, r);
    assert(r1.cur + ct + end =~= r1.cur + cm);
    assert(r3.cur + end =~= html);
    assert(r.done.push(html) =~= seq![html]);
}

// --- frames at the client ----------------------------------------------------

proof fn rendered_are_rows(target: Seq<char>, cols: nat, which: Seq<int>, lines: Seq<Line>)
    ensures
        are_rows(target, emit::rendered_rows(target, cols, which, lines)),
{
    let rows = emit::rendered_rows(target, cols, which, lines);
    assert forall|i: int| 0 <= i < rows.len() implies is_row(target, #[trigger] rows[i]) by {
        assert(rows[i].html == row::row_html(target, lines[i], cols, rows[i].id));
    }
}

proof fn screen_are_rows(
    target: Seq<char>,
    cols: nat,
    base: int,
    end: int,
    line_of: spec_fn(int) -> Line,
)
    ensures
        are_rows(target, page::screen_rows(target, cols, base, end, line_of)),
{
    let rows = page::screen_rows(target, cols, base, end, line_of);
    assert forall|i: int| 0 <= i < rows.len() implies is_row(target, #[trigger] rows[i]) by {
        assert(rows[i].html == row::row_html(target, line_of(base + i), cols, rows[i].id));
    }
}

proof fn differing_are_rows(target: Seq<char>, rows: Seq<RowText>, fresh: Seq<RowText>)
    requires
        are_rows(target, fresh),
    ensures
        are_rows(target, cache::differing(rows, fresh)),
{
    let d = cache::differing(rows, fresh);
    assert forall|i: int| 0 <= i < d.len() implies is_row(target, #[trigger] d[i]) by {
        cache::differing_are_fresh(rows, fresh, i);
        let j = choose|j: int| 0 <= j < fresh.len() && fresh[j] == d[i];
        assert(is_row(target, fresh[j]));
    }
}

proof fn put_are_rows(target: Seq<char>, rows: Seq<RowText>, id: int, html: Seq<char>)
    requires
        are_rows(target, rows),
        is_row(target, RowText { id, html }),
    ensures
        are_rows(target, cache::put(rows, id, html)),
    decreases rows.len(),
{
    let new = RowText { id, html };
    if rows.len() > 0 {
        are_rows_rest(target, rows);
        put_are_rows(target, rows.drop_last(), id, html);
    }
    let out = cache::put(rows, id, html);
    assert forall|i: int| 0 <= i < out.len() implies is_row(target, #[trigger] out[i]) by {
        if rows.len() > 0 {
            let rest = cache::put(rows.drop_last(), id, html);
            if i < rest.len() {
                assert(is_row(target, rest[i]));
            }
            if i < rows.len() {
                assert(is_row(target, rows[i]));
            }
            if i < rows.len() - 1 {
                assert(is_row(target, rows.drop_last()[i]));
            }
        }
    }
}

proof fn put_all_are_rows(target: Seq<char>, rows: Seq<RowText>, fresh: Seq<RowText>)
    requires
        are_rows(target, rows),
        are_rows(target, fresh),
    ensures
        are_rows(target, cache::put_all(rows, fresh)),
    decreases fresh.len(),
{
    if fresh.len() > 0 {
        are_rows_rest(target, fresh);
        put_all_are_rows(target, rows, fresh.drop_last());
        assert(fresh.last() == RowText { id: fresh.last().id, html: fresh.last().html });
        put_are_rows(
            target,
            cache::put_all(rows, fresh.drop_last()),
            fresh.last().id,
            fresh.last().html,
        );
    }
}

proof fn kept_are_rows(target: Seq<char>, rows: Seq<RowText>, base: int)
    requires
        are_rows(target, rows),
    ensures
        are_rows(target, cache::rows_from(rows, base)),
    decreases rows.len(),
{
    if rows.len() > 0 {
        are_rows_rest(target, rows);
        kept_are_rows(target, rows.drop_last(), base);
        let rest = cache::rows_from(rows.drop_last(), base);
        let out = cache::rows_from(rows, base);
        assert forall|i: int| 0 <= i < out.len() implies is_row(target, #[trigger] out[i]) by {
            if i < rest.len() {
                assert(is_row(target, rest[i]));
            }
        }
    }
}

/// The grid after a tick holds rendered rows, where it did before or is
/// rendered anew.
proof fn next_are_rows(
    s: EmitState,
    v: ScreenView,
    damaged: Seq<int>,
    lines: Seq<Line>,
    keyframe_due: bool,
    now: u64,
)
    requires
        s.forced(v) || are_rows(s.target@, s.cache@),
    ensures
        are_rows(s.target@, s.next_rows(v, damaged, lines, keyframe_due, now)),
{
    let target = s.target@;
    let cols = v.cols as nat;
    rendered_are_rows(target, cols, emit::span(v.base as int, v.end()), lines);
    if !s.forced(v) {
        let kept = s.kept(v);
        let d = s.rendered(v, damaged, lines);
        let a = s.appended_rows(v, damaged, lines);
        kept_are_rows(target, s.cache@, v.base as int);
        rendered_are_rows(target, cols, damaged, lines);
        rendered_are_rows(target, cols, s.appended(v), lines.skip(damaged.len() as int));
        put_all_are_rows(target, kept, d);
        put_all_are_rows(target, cache::put_all(kept, d), a);
    }
}

/// A frame's bytes do to a client's page what the frame stands for.
proof fn frame_reaches_client(
    dom: Dom,
    p: Page,
    s: EmitState,
    v: ScreenView,
    damaged: Seq<int>,
    lines: Seq<Line>,
    keyframe_due: bool,
    now: u64,
    f: Frame,
)
    requires
        text::lacks(s.target@, '"'),
        s.frame_of(v, damaged, lines, keyframe_due, now, f),
        s.forced(v) || are_rows(s.target@, s.cache@),
        s.wants_keyframe(v, damaged, lines, keyframe_due) || {
            &&& page::in_sync(p, s)
            &&& dom == dom_of(s.target@, p)
        },
    ensures
        applied(dom, f) == dom_of(
            s.target@,
            page::after_frame(p, s, v, damaged, lines, keyframe_due, now),
        ),
{
    let target = s.target@;
    let cols = v.cols as nat;
    let c = s.next_cursor(v, now);
    let after = page::after_frame(p, s, v, damaged, lines, keyframe_due, now);
    if s.wants_keyframe(v, damaged, lines, keyframe_due) {
        next_are_rows(s, v, damaged, lines, keyframe_due, now);
        keyframe_holds_the_grid(
            target,
            cols,
            v.rows as nat,
            c,
            s.next_rows(v, damaged, lines, keyframe_due, now),
        );
    } else {
        match f {
            Frame::Screen { .. } => {},
            Frame::Diff { seqno, target: t, patch, append, trim } => {
                let changed = s.changed(v, damaged, lines);
                let gone = texts_of(trim@);
                rendered_are_rows(target, cols, damaged, lines);
                rendered_are_rows(target, cols, s.appended(v), lines.skip(damaged.len() as int));
                differing_are_rows(target, s.kept(v), s.rendered(v, damaged, lines));
                assert forall|i: int| 0 <= i < gone.len() implies #[trigger] gone[i] == row_name(
                    target,
                    s.trimmed(v)[i],
                ) by {
                    assert(trim@[i]@ == row::row_id(target, s.trimmed(v)[i]));
                    row_names_differ(target, s.trimmed(v)[i], 0);
                }
                diff_reaches_client(
                    target,
                    p,
                    changed,
                    s.appended_rows(v, damaged, lines),
                    s.trimmed(v),
                    c,
                    patch@,
                    append@,
                    gone,
                );
            },
        }
    }
}

// --- the laws ----------------------------------------------------------------

/// The page of a client shows what the emitter has: the cursor, and below it
/// each row of the grid, as one child each.
pub open spec fn shows(dom: Dom, s: EmitState) -> bool {
    &&& dom.id == s.target@
    &&& dom.kids.len() == 1 + s.cache@.len()
    &&& dom.kids[0] == row::cursor_html(
        s.target@,
        s.shown_cursor.row as nat,
        s.shown_cursor.col as nat,
        s.shown_cursor.visible,
    )
    &&& forall|i: int| 0 <= i < s.cache@.len() ==> #[trigger] dom.kids[i + 1] == s.cache@[i].html
}

/// `res` is what a tick hands out: nothing where nothing is to be said, else
/// the frame.
pub open spec fn handed_out(s: EmitState, t: Tick, res: Option<Frame>) -> bool {
    &&& res is None <==> s.quiet(t.v, t.damaged, t.lines, t.keyframe_due, t.now)
    &&& res matches Some(f) ==> s.frame_of(t.v, t.damaged, t.lines, t.keyframe_due, t.now, f)
}

/// The page after a tick: without a frame it stays as it is.
pub open spec fn applied_if(dom: Dom, res: Option<Frame>) -> Dom {
    match res {
        Some(f) => applied(dom, f),
        None => dom,
    }
}

proof fn markups_at(rows: Seq<RowText>)
    ensures
        markups(rows).len() == rows.len(),
        forall|i: int| 0 <= i < rows.len() ==> #[trigger] markups(rows)[i] == rows[i].html,
    decreases rows.len(),
{
    if rows.len() > 0 {
        let rest = rows.drop_last();
        markups_at(rest);
        assert forall|i: int| 0 <= i < rows.len() implies #[trigger] markups(rows)[i]
            == rows[i].html by {
            if i < rest.len() {
                assert(markups(rest)[i] == rest[i].html);
            }
        }
    }
}

proof fn shown_is_dom_of(dom: Dom, s: EmitState)
    ensures
        shows(dom, s) <==> dom == dom_of(
            s.target@,
            Page { grid: s.cache@, cursor: s.shown_cursor },
        ),
{
    let want = dom_of(s.target@, Page { grid: s.cache@, cursor: s.shown_cursor });
    let m = markups(s.cache@);
    markups_at(s.cache@);
    assert forall|i: int| 0 <= i < s.cache@.len() implies #[trigger] want.kids[i + 1]
        == s.cache@[i].html by {
        assert(want.kids[i + 1] == m[i]);
    }
    if shows(dom, s) {
        assert forall|i: int| 0 <= i < want.kids.len() implies dom.kids[i] == want.kids[i] by {
            if i > 0 {
                assert(dom.kids[(i - 1) + 1] == s.cache@[i - 1].html);
                assert(want.kids[(i - 1) + 1] == s.cache@[i - 1].html);
            }
        }
        assert(dom.kids =~= want.kids);
    }
}

/// The tick and its answer are such that the emitter keeps track: rows were
/// rendered rows, the grid held the rows of the last frame, and the damaged
/// rows are among them.
pub open spec fn keeps_track(s: EmitState, t: Tick) -> bool {
    &&& s.valid()
    &&& s.damage_answer(t.v, t.damaged)
    &&& page::tracks_screen(s)
    &&& are_rows(s.target@, s.cache@)
    &&& forall|i: int| 0 <= i < t.damaged.len() ==> s.last_base <= #[trigger] t.damaged[i]
}

/// A client that applies the bytes of every frame stays with the emitter:
/// where its page showed what the emitter had before a tick, it shows what
/// the emitter has after it, whether the tick gave a keyframe, a diff or
/// nothing.
pub proof fn frames_keep_page_in_sync(
    dom: Dom,
    before: EmitState,
    after: EmitState,
    t: Tick,
    res: Option<Frame>,
)
    requires
        text::lacks(before.target@, '"'),
        keeps_track(before, t),
        shows(dom, before),
        handed_out(before, t, res),
        page::ticked(before, after, t.v, t.damaged, t.lines, t.keyframe_due, t.now),
    ensures
        shows(applied_if(dom, res), after),
        are_rows(after.target@, after.cache@),
{
    let p = Page { grid: before.cache@, cursor: before.shown_cursor };
    shown_is_dom_of(dom, before);
    shown_is_dom_of(applied_if(dom, res), after);
    next_are_rows(before, t.v, t.damaged, t.lines, t.keyframe_due, t.now);
    match res {
        None => {
            page::quiet_tick_changes_nothing(
                p,
                before,
                after,
                t.v,
                t.damaged,
                t.lines,
                t.keyframe_due,
                t.now,
            );
        },
        Some(f) => {
            page::frames_keep_page_in_sync(
                p,
                before,
                after,
                t.v,
                t.damaged,
                t.lines,
                t.keyframe_due,
                t.now,
            );
            frame_reaches_client(
                dom,
                p,
                before,
                t.v,
                t.damaged,
                t.lines,
                t.keyframe_due,
                t.now,
                f,
            );
        },
    }
}

/// A keyframe heals: whatever a client's page held, and whatever element it
/// was, once it has applied the bytes of a keyframe it shows what the emitter
/// has. The first frame, the first after a change of size and the first after
/// a flip of the screen are keyframes.
pub proof fn keyframe_heals(
    dom: Dom,
    before: EmitState,
    after: EmitState,
    t: Tick,
    f: Frame,
)
    requires
        text::lacks(before.target@, '"'),
        before.forced(t.v) || are_rows(before.target@, before.cache@),
        handed_out(before, t, Some(f)),
        f is Screen || !before.sent_initial || t.keyframe_due || t.v.alt != before.last_alt
            || t.v.cols != before.last_cols || t.v.rows != before.last_rows,
        page::ticked(before, after, t.v, t.damaged, t.lines, t.keyframe_due, t.now),
    ensures
        f is Screen,
        shows(applied(dom, f), after),
        are_rows(after.target@, after.cache@),
{
    let p = Page { grid: before.cache@, cursor: before.shown_cursor };
    shown_is_dom_of(applied(dom, f), after);
    next_are_rows(before, t.v, t.damaged, t.lines, t.keyframe_due, t.now);
    frame_reaches_client(dom, p, before, t.v, t.damaged, t.lines, t.keyframe_due, t.now, f);
}

/// The page of a client that applies what the first `n` ticks hand out.
pub open spec fn follows(dom: Dom, handed: Seq<Option<Frame>>, n: nat) -> Dom
    decreases n,
{
    if n == 0 {
        dom
    } else {
        applied_if(follows(dom, handed, (n - 1) as nat), handed[n - 1])
    }
}

/// Through a whole session, whatever the client's page held at the start:
/// after every tick, a client that was given nothing but the bytes of the
/// frames has the target's element on its page, in it first the cursor and
/// then one row for each row of the terminal, from the oldest to the newest,
/// rendered from the line it holds. Where the terminal shows its cursor, the
/// one on the page is as many rows down as the scrollback is long and the
/// terminal says, in the terminal's column, and shown.
pub proof fn session_shows_the_terminal(
    dom: Dom,
    states: Seq<EmitState>,
    ticks: Seq<Tick>,
    handed: Seq<Option<Frame>>,
    n: nat,
)
    requires
        page::is_session(states, ticks),
        text::lacks(states[0].target@, '"'),
        handed.len() == ticks.len(),
        forall|i: int|
            0 <= i < ticks.len() ==> handed_out(states[i], ticks[i], #[trigger] handed[i]),
        0 < n <= ticks.len(),
        ticks[n - 1].v.valid(),
    ensures
        ({
            let target = states[0].target@;
            let t = ticks[n - 1];
            let kids = follows(dom, handed, n).kids;
            let c = states[n as int].shown_cursor;
            &&& follows(dom, handed, n).id == target
            &&& kids.len() == 1 + t.v.total
            &&& kids[0] == row::cursor_html(target, c.row as nat, c.col as nat, c.visible)
            &&& forall|i: int|
                0 <= i < t.v.total ==> #[trigger] kids[i + 1] == row::row_html(
                    target,
                    (t.line_of)(t.v.base + i),
                    t.v.cols as nat,
                    t.v.base + i,
                )
            &&& t.v.cursor_visible ==> {
                &&& c.visible
                &&& c.col == t.v.cursor_x
                &&& c.row == (if t.v.total > t.v.rows {
                    t.v.total - t.v.rows
                } else {
                    0
                }) + (if t.v.cursor_y > 0 {
                    t.v.cursor_y as int
                } else {
                    0
                })
            }
        }),
{
    let d = follows(dom, handed, n);
    let t = ticks[n - 1];
    let s = states[n as int];
    let p = Page { grid: seq![], cursor: states[0].shown_cursor };
    session_shows_state(dom, states, ticks, handed, n);
    page::session_shows_the_terminal(p, states, ticks, n);
    assert forall|i: int| 0 <= i < t.v.total implies #[trigger] d.kids[i + 1] == row::row_html(
        states[0].target@,
        (t.line_of)(t.v.base + i),
        t.v.cols as nat,
        t.v.base + i,
    ) by {
        assert(d.kids[i + 1] == s.cache@[i].html);
    }
    assert(page::session_step(states, ticks, n - 1));
}

#[verifier::rlimit(60)]
proof fn session_shows_state(
    dom: Dom,
    states: Seq<EmitState>,
    ticks: Seq<Tick>,
    handed: Seq<Option<Frame>>,
    n: nat,
)
    requires
        page::is_session(states, ticks),
        text::lacks(states[0].target@, '"'),
        handed.len() == ticks.len(),
        forall|i: int|
            0 <= i < ticks.len() ==> handed_out(states[i], ticks[i], #[trigger] handed[i]),
        0 < n <= ticks.len(),
    ensures
        shows(follows(dom, handed, n), states[n as int]),
        states[n as int].cache@ == page::screen_rows(
            states[0].target@,
            ticks[n - 1].v.cols as nat,
            ticks[n - 1].v.base as int,
            ticks[n - 1].v.end(),
            ticks[n - 1].line_of,
        ),
    decreases n,
{
    let m = (n - 1) as nat;
    let t = ticks[m as int];
    let s = states[m as int];
    let next = states[n as int];
    let prev = follows(dom, handed, m);
    let p = Page { grid: s.cache@, cursor: s.shown_cursor };
    assert(page::session_step(states, ticks, m as int));
    assert(handed_out(s, t, handed[m as int]));
    page::session_shows_the_terminal(p, states, ticks, n);
    if m > 0 {
        session_shows_state(dom, states, ticks, handed, m);
        page::session_shows_the_terminal(p, states, ticks, m);
        screen_are_rows(
            s.target@,
            ticks[m - 1].v.cols as nat,
            ticks[m - 1].v.base as int,
            ticks[m - 1].v.end(),
            ticks[m - 1].line_of,
        );
        shown_is_dom_of(prev, s);
        assert(page::session_step(states, ticks, m - 1));
    }
    shown_is_dom_of(follows(dom, handed, n), next);
    page::client_shows_the_terminal(
        p,
        s,
        next,
        t.v,
        t.damaged,
        t.lines,
        t.keyframe_due,
        t.now,
        ticks[m - 1].line_of,
        t.line_of,
    );
    match handed[m as int] {
        None => {},
        Some(f) => {
            frame_reaches_client(prev, p, s, t.v, t.damaged, t.lines, t.keyframe_due, t.now, f);
        },
    }
}

/// A missed or misapplied diff heals within an interval, whatever it left of
/// the page: once diffs were sent and the interval since the last keyframe is
/// over, the next tick hands out a keyframe, though nothing else happened, and
/// a client that applies its bytes shows what the emitter has.
pub proof fn misapplied_diffs_heal(
    dom: Dom,
    before: EmitState,
    after: EmitState,
    t: Tick,
    interval: nat,
    res: Option<Frame>,
)
    requires
        text::lacks(before.target@, '"'),
        are_rows(before.target@, before.cache@),
        before.dirty_since_keyframe,
        t.now >= before.last_keyframe + interval,
        t.keyframe_due == pacing::keyframe_is_due(before, interval, t.now),
        handed_out(before, t, res),
        page::ticked(before, after, t.v, t.damaged, t.lines, t.keyframe_due, t.now),
    ensures
        res matches Some(f) && f is Screen,
        shows(applied_if(dom, res), after),
{
    assert(!before.quiet(t.v, t.damaged, t.lines, t.keyframe_due, t.now));
    keyframe_heals(dom, before, after, t, res->0);
}

proof fn cursors_look_different(target: Seq<char>, a: Cursor, b: Cursor)
    requires
        text::lacks(target, '"'),
        cursor_markup(target, a) == cursor_markup(target, b),
    ensures
        a == b,
{
    cursor_shows_its_place(target, a.row as nat, a.col as nat, a.visible);
    cursor_shows_its_place(target, b.row as nat, b.col as nat, b.visible);
}

/// A diff says only what is new: no element of its patch is on the page
/// already, every one of them takes the place of a child with the same id, and
/// no row that it appends has the id of a child.
#[verifier::rlimit(60)]
pub proof fn diffs_say_only_what_is_new(
    dom: Dom,
    s: EmitState,
    t: Tick,
    f: Frame,
)
    requires
        text::lacks(s.target@, '"'),
        keeps_track(s, t),
        shows(dom, s),
        handed_out(s, t, Some(f)),
    ensures
        f matches Frame::Diff { patch, append, .. } ==> {
            let changes = markup::elements(patch@);
            let news = markup::elements(append@);
            &&& forall|i: int|
                0 <= i < changes.len() ==> !dom.kids.contains(#[trigger] changes[i]) && exists|j: int|
                    0 <= j < dom.kids.len() && id_of(#[trigger] dom.kids[j]) == id_of(changes[i])
            &&& forall|i: int, j: int|
                0 <= i < news.len() && 0 <= j < dom.kids.len() ==> id_of(#[trigger] news[i])
                    != id_of(#[trigger] dom.kids[j])
        },
{
    match f {
        Frame::Screen { .. } => {},
        Frame::Diff { seqno, target: tg, patch, append, trim } => {
            let target = s.target@;
            let cols = t.v.cols as nat;
            let changed = s.changed(t.v, t.damaged, t.lines);
            let arows = s.appended_rows(t.v, t.damaged, t.lines);
            let c = s.next_cursor(t.v, t.now);
            let moved = c != s.shown_cursor;
            let g = s.cache@;
            let changes = markup::elements(patch@);
            let news = markup::elements(append@);
            rendered_are_rows(target, cols, t.damaged, t.lines);
            rendered_are_rows(
                target,
                cols,
                s.appended(t.v),
                t.lines.skip(t.damaged.len() as int),
            );
            differing_are_rows(target, s.kept(t.v), s.rendered(t.v, t.damaged, t.lines));
            patch_elements(target, changed, moved, c, patch@);
            let r = markup::start(0);
            read_rows(target, arows, r);
            assert(r.done + markups(arows) =~= markups(arows));
            markups_at(changed);
            markups_at(arows);
            markups_at(g);
            cursor_id(
                target,
                s.shown_cursor.row as nat,
                s.shown_cursor.col as nat,
                s.shown_cursor.visible,
            );
            cursor_id(target, c.row as nat, c.col as nat, c.visible);
            assert forall|j: int| 1 <= j < dom.kids.len() implies #[trigger] dom.kids[j] == g[j
                - 1].html && id_of(dom.kids[j]) == Some(row_name(target, g[j - 1].id)) by {
                assert(dom.kids[(j - 1) + 1] == g[j - 1].html);
                assert(is_row(target, g[j - 1]));
                row_id_is_read(target, g[j - 1]);
            }
            assert(cache::row_ids(g).len() == g.len());
            assert forall|j: int| 0 <= j < g.len() implies (#[trigger] g[j]).id == s.last_base
                + j by {
                assert(cache::row_ids(g)[j] == emit::span(s.last_base as int, s.last_max as int)[j]);
            }
            assert forall|i: int| 0 <= i < changes.len() implies !dom.kids.contains(
                #[trigger] changes[i],
            ) && exists|j: int|
                0 <= j < dom.kids.len() && id_of(#[trigger] dom.kids[j]) == id_of(changes[i]) by {
                if i < changed.len() {
                    assert(changes[i] == changed[i].html);
                    patch_row_is_new(dom, s, t, i);
                } else {
                    assert(changes[i] == cursor_markup(target, c));
                    assert(id_of(dom.kids[0]) == id_of(changes[i]));
                    if dom.kids.contains(changes[i]) {
                        let j = choose|j: int| 0 <= j < dom.kids.len() && dom.kids[j] == changes[i];
                        if j == 0 {
                            cursors_look_different(target, c, s.shown_cursor);
                        } else {
                            assert(dom.kids[j] == g[j - 1].html);
                            row_names_differ(target, g[j - 1].id, 0);
                        }
                    }
                }
            }
            assert forall|i: int, j: int|
                0 <= i < news.len() && 0 <= j < dom.kids.len() implies id_of(#[trigger] news[i])
                != id_of(#[trigger] dom.kids[j]) by {
                assert(news[i] == arows[i].html);
                assert(is_row(target, arows[i]));
                row_id_is_read(target, arows[i]);
                assert(arows[i].id == s.appended(t.v)[i]);
                row_names_differ(target, arows[i].id, 0);
                if j > 0 {
                    assert(dom.kids[j] == g[j - 1].html);
                    row_names_differ(target, arows[i].id, g[j - 1].id);
                }
            }
        },
    }
}

proof fn patch_row_is_new(dom: Dom, s: EmitState, t: Tick, i: int)
    requires
        text::lacks(s.target@, '"'),
        keeps_track(s, t),
        shows(dom, s),
        !s.forced(t.v),
        0 <= i < s.changed(t.v, t.damaged, t.lines).len(),
        forall|j: int|
            1 <= j < dom.kids.len() ==> #[trigger] dom.kids[j] == s.cache@[j - 1].html && id_of(
                dom.kids[j],
            ) == Some(row_name(s.target@, s.cache@[j - 1].id)),
        forall|j: int| 0 <= j < s.cache@.len() ==> (#[trigger] s.cache@[j]).id == s.last_base + j,
        id_of(dom.kids[0]) == Some(s.target@ + "-cursor"@),
        are_rows(s.target@, s.changed(t.v, t.damaged, t.lines)),
    ensures
        ({
            let e = s.changed(t.v, t.damaged, t.lines)[i].html;
            &&& !dom.kids.contains(e)
            &&& exists|j: int| 0 <= j < dom.kids.len() && id_of(#[trigger] dom.kids[j]) == id_of(e)
        }),
{
    let target = s.target@;
    let changed = s.changed(t.v, t.damaged, t.lines);
    let fresh = s.rendered(t.v, t.damaged, t.lines);
    let g = s.cache@;
    let e = changed[i];
    assert(is_row(target, e));
    row_id_is_read(target, e);
    cache::differing_are_fresh(s.kept(t.v), fresh, i);
    let k = choose|k: int| 0 <= k < fresh.len() && fresh[k] == e;
    assert(t.damaged[k] == e.id);
    assert(s.last_base <= t.damaged[k]);
    assert(s.damage_lo(t.v) <= t.damaged[k] < s.damage_hi(t.v));
    emit::only_differences_are_patched(s, t.v, t.damaged, t.lines, k);
    let at = e.id - s.last_base;
    assert(cache::row_ids(g).len() == g.len());
    assert(g[at].id == e.id);
    cache::lookup_at(g, at);
    assert(dom.kids[at + 1] == g[at].html);
    assert(id_of(dom.kids[at + 1]) == id_of(e.html));
    assert forall|a: int, b: int| 0 <= a < b < changed.len() implies (#[trigger] changed[a]).id < (
    #[trigger] changed[b]).id by {
        assert(cache::row_ids(changed)[a] < cache::row_ids(changed)[b]);
    }
    cache::lookup_at(changed, i);
    if dom.kids.contains(e.html) {
        let j = choose|j: int| 0 <= j < dom.kids.len() && dom.kids[j] == e.html;
        row_names_differ(target, e.id, 0);
        if j > 0 {
            assert(dom.kids[j] == g[j - 1].html);
            row_names_differ(target, e.id, g[j - 1].id);
            assert(g[j - 1].id == s.last_base + (j - 1));
        }
    }
}

// --- when keyframes come -----------------------------------------------------

/// What is remembered of a tick for the next keyframe: a keyframe leaves
/// nothing to heal and is the one to count from, a diff leaves something, and
/// a tick without a frame changes neither.
pub open spec fn keeps_books(
    before: EmitState,
    after: EmitState,
    res: Option<Frame>,
    stamp: u64,
) -> bool {
    match res {
        Some(Frame::Screen { .. }) => !after.dirty_since_keyframe && after.last_keyframe == stamp,
        Some(Frame::Diff { .. }) => after.dirty_since_keyframe && after.last_keyframe
            == before.last_keyframe,
        None => after.dirty_since_keyframe == before.dirty_since_keyframe && after.last_keyframe
            == before.last_keyframe,
    }
}

/// Whether a tick handed out a keyframe.
pub open spec fn gave_keyframe(res: Option<Frame>) -> bool {
    res matches Some(f) && f is Screen
}

/// Whether a tick handed out a diff.
pub open spec fn gave_diff(res: Option<Frame>) -> bool {
    res matches Some(f) && f is Diff
}

/// Keyframes follow diffs: after a keyframe, and as long as no other one came,
/// the next is due by the clock exactly if a diff was handed out since and the
/// interval from the stamp of the keyframe is over.
pub proof fn keyframes_follow_diffs(
    states: Seq<EmitState>,
    handed: Seq<Option<Frame>>,
    stamps: Seq<u64>,
    n: nat,
    interval: nat,
    now: u64,
)
    requires
        0 < n < states.len(),
        interval > 0,
        gave_keyframe(handed[0]),
        forall|k: int| 0 < k < n ==> !gave_keyframe(#[trigger] handed[k]),
        forall|k: int|
            0 <= k < n ==> keeps_books(states[k], states[k + 1], #[trigger] handed[k], stamps[k]),
    ensures
        pacing::keyframe_is_due(states[n as int], interval, now) <==> now >= stamps[0] + interval
            && exists|k: int| 0 < k < n && gave_diff(#[trigger] handed[k]),
        states[n as int].last_keyframe == stamps[0],
        states[n as int].dirty_since_keyframe <==> exists|k: int|
            0 < k < n && gave_diff(#[trigger] handed[k]),
    decreases n,
{
    let m = n - 1;
    assert(keeps_books(states[m], states[m + 1], handed[m], stamps[m]));
    if n > 1 {
        keyframes_follow_diffs(states, handed, stamps, m as nat, interval, now);
        assert(!gave_keyframe(handed[m]));
        if gave_diff(handed[m]) {
            assert(0 < m < n && gave_diff(handed[m]));
        } else if exists|k: int| 0 < k < n && gave_diff(#[trigger] handed[k]) {
            let k = choose|k: int| 0 < k < n && gave_diff(#[trigger] handed[k]);
            assert(0 < k < m && gave_diff(handed[k]));
        }
    }
}

} // verus!
