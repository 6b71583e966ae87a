//! Rendering: the cursor overlay and one row of cells as html.
//!
//! A row is one pass over its cells. Adjacent cells that look alike and link
//! alike share one wrapper (`<a>` when linked, `<span>` when only styled).
//! Default blanks at the end of a row are dropped: the page keeps the geometry
//! without them.
use crate::links;
use crate::links::safe_href;
use crate::style;
use crate::style::{attrs_equiv, cell_class_and_style, CellAttributes, Look};
use crate::text;
use crate::text::{push_decimal, push_decimal_int};
use vstd::prelude::*;

verus! {

/// One visible cell of a line: its column, how many columns it takes, its
/// text and its attributes.
#[derive(Debug)]
pub struct Cell {
    pub index: usize,
    pub width: usize,
    pub text: String,
    pub attrs: CellAttributes,
}

/// The visible cells of one line, in column order.
#[derive(Debug)]
pub struct Line {
    pub cells: Vec<Cell>,
}

impl Line {
    /// Every cell ends within the range of column numbers.
    pub open spec fn valid(self) -> bool {
        forall|i: int|
            0 <= i < self.cells@.len() ==> (#[trigger] self.cells@[i]).index + cell_width(
                self.cells@[i],
            ) <= usize::MAX
    }
}

/// The columns a cell takes: at least one.
pub open spec fn cell_width(cell: Cell) -> nat {
    if cell.width == 0 {
        1
    } else {
        cell.width as nat
    }
}

// --- escaping ----------------------------------------------------------------

/// The markup of one character of text.
pub open spec fn escape_char(c: char) -> Seq<char> {
    if c == '&' {
        "&amp;"@
    } else if c == '<' {
        "&lt;"@
    } else if c == '>' {
        "&gt;"@
    } else if c == '"' {
        "&quot;"@
    } else {
        seq![c]
    }
}

/// The markup of a text.
pub open spec fn escaped(s: Seq<char>) -> Seq<char>
    decreases s.len(),
{
    if s.len() == 0 {
        seq![]
    } else {
        escaped(s.drop_last()) + escape_char(s.last())
    }
}

/// Appends `s` with the characters that have a meaning in html replaced by
/// entities.
pub fn html_escape(s: &str, out: &mut String)
    ensures
        final(out)@ == old(out)@ + escaped(s@),
{
    let ghost before = out@;
    assert(before + escaped(s@.take(0)) =~= before);
    for ch in it: s.chars()
        invariant
            it.seq() == s@,
            out@ == before + escaped(s@.take(it.index())),
    {
        match ch {
            '&' => out.push_str("&amp;"),
            '<' => out.push_str("&lt;"),
            '>' => out.push_str("&gt;"),
            '"' => out.push_str("&quot;"),
            _ => out.push(ch),
        }
        proof {
            let i = it.index();
            assert(s@.take(i + 1).drop_last() =~= s@.take(i));
            assert(out@ =~= before + escaped(s@.take(i + 1)));
        }
    }
    assert(s@.take(s@.len() as int) =~= s@);
}

// --- tokens ------------------------------------------------------------------

/// What a run of cells shares: a look and a link.
pub struct Wrapper {
    pub look: Look,
    pub href: Option<Seq<char>>,
}

/// One thing a row shows: a default blank, or a glyph with its width and the
/// wrapper it needs.
pub enum Token {
    Blank,
    Glyph { text: Seq<char>, width: nat, wrapper: Option<Wrapper> },
}

/// The link of a cell, if it has one that may be followed.
pub open spec fn cell_href(attrs: CellAttributes) -> Option<Seq<char>> {
    match attrs.hyperlink {
        Some(uri) => links::link_target(uri@),
        None => None,
    }
}

/// The wrapper of a cell: none where neither a link nor any class or style
/// has to be carried.
pub open spec fn cell_wrapper(attrs: CellAttributes) -> Option<Wrapper> {
    let look = attrs.look();
    let href = cell_href(attrs);
    if href is None && style::classes(look).len() == 0 && style::inline_style(look).len() == 0 {
        None
    } else {
        Some(Wrapper { look, href })
    }
}

/// Whether a cell has the default look and no link.
pub open spec fn is_plain(attrs: CellAttributes) -> bool {
    cell_href(attrs) is None && attrs.look() == style::default_look()
}

/// Whether a text shows as one blank.
pub open spec fn is_blank_text(s: Seq<char>) -> bool {
    s.len() == 0 || s == seq![' ']
}

/// The text that stands for a cell: a cell without text shows a blank.
pub open spec fn glyph_text(s: Seq<char>) -> Seq<char> {
    if s.len() == 0 {
        seq![' ']
    } else {
        s
    }
}

/// The token of a cell.
pub open spec fn cell_token(cell: Cell) -> Token {
    if is_plain(cell.attrs) && cell_width(cell) == 1 && is_blank_text(cell.text@) {
        Token::Blank
    } else {
        Token::Glyph {
            text: glyph_text(cell.text@),
            width: cell_width(cell),
            wrapper: cell_wrapper(cell.attrs),
        }
    }
}

/// `n` blanks.
pub open spec fn blanks(n: nat) -> Seq<Token> {
    Seq::new(n, |i: int| Token::Blank)
}

/// The cells of a line that fall within `cols` columns: those before the
/// first that starts beyond them.
pub open spec fn within(cells: Seq<Cell>, cols: nat) -> Seq<Cell>
    decreases cells.len(),
{
    if cells.len() == 0 || cells[0].index >= cols {
        seq![]
    } else {
        seq![cells[0]] + within(cells.drop_first(), cols)
    }
}

/// The column after the last cell that is shown. A cell that starts under an
/// earlier, wider one is not shown.
pub open spec fn next_col(cells: Seq<Cell>) -> nat
    decreases cells.len(),
{
    if cells.len() == 0 {
        0
    } else {
        let before = next_col(cells.drop_last());
        if cells.last().index < before {
            before
        } else {
            cells.last().index as nat + cell_width(cells.last())
        }
    }
}

/// The tokens of a sequence of cells: columns that no cell covers are blanks.
pub open spec fn tokens(cells: Seq<Cell>) -> Seq<Token>
    decreases cells.len(),
{
    if cells.len() == 0 {
        seq![]
    } else {
        let before = next_col(cells.drop_last());
        if cells.last().index < before {
            tokens(cells.drop_last())
        } else {
            tokens(cells.drop_last()) + blanks((cells.last().index - before) as nat) + seq![
                cell_token(cells.last()),
            ]
        }
    }
}

/// `toks` without the blanks at its end.
pub open spec fn strip(toks: Seq<Token>) -> Seq<Token>
    decreases toks.len(),
{
    if toks.len() > 0 && toks.last() is Blank {
        strip(toks.drop_last())
    } else {
        toks
    }
}

/// The tokens that a row shows.
pub open spec fn row_tokens(line: Line, cols: nat) -> Seq<Token> {
    strip(tokens(within(line.cells@, cols)))
}

// --- markup of tokens --------------------------------------------------------

/// The start tag of a wrapper.
pub open spec fn open_tag(w: Option<Wrapper>) -> Seq<char> {
    match w {
        None => seq![],
        Some(w) => {
            let classes = style::classes(w.look);
            let inline_style = style::inline_style(w.look);
            (match w.href {
                Some(h) => "<a href=\""@ + escaped(h) + "\" target=\"_blank\" rel=\"noopener\""@,
                None => "<span"@,
            }) + (if classes.len() == 0 {
                seq![]
            } else {
                " class=\"c"@ + classes + "\""@
            }) + (if inline_style.len() == 0 {
                seq![]
            } else {
                " style=\""@ + inline_style + "\""@
            }) + seq!['>']
        },
    }
}

/// The end tag of a wrapper.
pub open spec fn close_tag(w: Option<Wrapper>) -> Seq<char> {
    match w {
        None => seq![],
        Some(w) => if w.href is Some {
            "</a>"@
        } else {
            "</span>"@
        },
    }
}

/// The wrapper of a token.
pub open spec fn wrapper_of(t: Token) -> Option<Wrapper> {
    match t {
        Token::Blank => None,
        Token::Glyph { wrapper, .. } => wrapper,
    }
}

/// The wrapper of the last token.
pub open spec fn last_wrapper(toks: Seq<Token>) -> Option<Wrapper> {
    if toks.len() == 0 {
        None
    } else {
        wrapper_of(toks.last())
    }
}

/// Whether a glyph needs a box of its own: it is not one column wide, or is
/// more than one character.
pub open spec fn needs_box(glyph: Seq<char>, width: nat) -> bool {
    width != 1 || glyph.len() > 1
}

/// The markup of a token inside its wrapper.
pub open spec fn token_html(t: Token) -> Seq<char> {
    match t {
        Token::Blank => seq![' '],
        Token::Glyph { text, width, .. } => if needs_box(text, width) {
            "<span class=\"wc\" style=\"--w:"@ + text::decimal(width) + "\">"@ + escaped(text)
                + "</span>"@
        } else {
            escaped(text)
        },
    }
}

/// What stands between two tokens: nothing within a run, else the end of the
/// one wrapper and the start of the other.
pub open spec fn seam(before: Option<Wrapper>, after: Option<Wrapper>) -> Seq<char> {
    if before == after {
        seq![]
    } else {
        close_tag(before) + open_tag(after)
    }
}

/// The markup of tokens, with the wrapper of the last one still open.
pub open spec fn open_html(toks: Seq<Token>) -> Seq<char>
    decreases toks.len(),
{
    if toks.len() == 0 {
        seq![]
    } else {
        open_html(toks.drop_last()) + seam(
            last_wrapper(toks.drop_last()),
            wrapper_of(toks.last()),
        ) + token_html(toks.last())
    }
}

/// The markup of tokens.
pub open spec fn tokens_html(toks: Seq<Token>) -> Seq<char> {
    open_html(toks) + close_tag(last_wrapper(toks))
}

/// The element id of a row.
pub open spec fn row_id(target: Seq<char>, stable: int) -> Seq<char> {
    target + "-r-"@ + text::decimal_int(stable)
}

/// The markup of a row.
pub open spec fn row_html(target: Seq<char>, line: Line, cols: nat, stable: int) -> Seq<char> {
    "<div class=\"row\" id=\""@ + row_id(target, stable) + "\">"@ + tokens_html(
        row_tokens(line, cols),
    ) + "</div>"@
}

/// The markup of the cursor overlay.
pub open spec fn cursor_html(target: Seq<char>, row: nat, col: nat, visible: bool) -> Seq<char> {
    "<div class=\"cursor\" id=\""@ + target + "-cursor\" style=\"--cursor-row:"@ + text::decimal(
        row,
    ) + ";--cursor-col:"@ + text::decimal(col) + (if visible {
        seq![]
    } else {
        ";display:none"@
    }) + "\"></div>"@
}

/// Appends the cursor overlay. It is positioned by css variables alone, so a
/// cursor move patches this element and touches no row. A hidden cursor is
/// not displayed.
pub fn render_cursor_into(out: &mut String, target: &str, row: usize, col: usize, visible: bool)
    ensures
        final(out)@ == old(out)@ + cursor_html(target@, row as nat, col as nat, visible),
{
    out.push_str("<div class=\"cursor\" id=\"");
    out.push_str(target);
    out.push_str("-cursor\" style=\"--cursor-row:");
    push_decimal(out, row as u64);
    out.push_str(";--cursor-col:");
    push_decimal(out, col as u64);
    if !visible {
        out.push_str(";display:none");
    }
    out.push_str("\"></div>");
    assert(out@ =~= old(out)@ + cursor_html(target@, row as nat, col as nat, visible));
}

/// Whether a glyph needs a box of its own.
pub fn cell_needs_box(glyph: &str, width: usize) -> (res: bool)
    ensures
        res == needs_box(glyph@, width as nat),
{
    width != 1 || glyph.unicode_len() > 1
}

// --- rendering a row ---------------------------------------------------------

/// The characters of an optional string.
pub open spec fn text_of(h: Option<&str>) -> Option<Seq<char>> {
    match h {
        Some(t) => Some(t@),
        None => None,
    }
}

/// `n` spaces.
pub open spec fn spaces(n: nat) -> Seq<char> {
    Seq::new(n, |i: int| ' ')
}

/// The wrapper that an open run carries: that of the cell which opened it.
spec fn run_wrapper(cells: Seq<Cell>, run: Option<(usize, Option<&str>)>) -> Option<Wrapper> {
    match run {
        None => None,
        Some((r, h)) => Some(Wrapper { look: cells[r as int].attrs.look(), href: text_of(h) }),
    }
}

spec fn run_valid(cells: Seq<Cell>, run: Option<(usize, Option<&str>)>) -> bool {
    match run {
        None => true,
        Some((r, h)) => r < cells.len() && cell_href(cells[r as int].attrs) == text_of(h)
            && cell_wrapper(cells[r as int].attrs) is Some,
    }
}

proof fn default_look_needs_nothing()
    ensures
        style::classes(style::default_look()).len() == 0,
        style::inline_style(style::default_look()).len() == 0,
{
    reveal(style::classes);
    reveal(style::inline_style);
}

proof fn strip_blanks(toks: Seq<Token>, n: nat)
    ensures
        strip(toks + blanks(n)) == strip(toks),
    decreases n,
{
    if n == 0 {
        assert(toks + blanks(n) =~= toks);
    } else {
        strip_blanks(toks, (n - 1) as nat);
        assert((toks + blanks(n)).drop_last() =~= toks + blanks((n - 1) as nat));
    }
}

proof fn strip_shape(toks: Seq<Token>)
    ensures
        strip(toks).len() <= toks.len(),
        toks == strip(toks) + blanks((toks.len() - strip(toks).len()) as nat),
    decreases toks.len(),
{
    if toks.len() > 0 && toks.last() is Blank {
        strip_shape(toks.drop_last());
        let n = (toks.len() - strip(toks).len()) as nat;
        assert(toks =~= toks.drop_last().push(Token::Blank));
        assert(blanks(n) =~= blanks((n - 1) as nat).push(Token::Blank));
        assert(toks =~= strip(toks) + blanks(n));
    } else {
        assert(toks =~= strip(toks) + blanks(0));
    }
}

proof fn open_html_blanks(toks: Seq<Token>, n: nat)
    requires
        n > 0,
    ensures
        open_html(toks + blanks(n)) == open_html(toks) + close_tag(last_wrapper(toks)) + spaces(n),
        last_wrapper(toks + blanks(n)) is None,
    decreases n,
{
    let all = toks + blanks(n);
    assert(all.drop_last() =~= toks + blanks((n - 1) as nat));
    assert(all.last() is Blank);
    if n == 1 {
        assert(all.drop_last() =~= toks);
        assert(open_html(all) =~= open_html(toks) + close_tag(last_wrapper(toks)) + spaces(1));
    } else {
        open_html_blanks(toks, (n - 1) as nat);
        assert(open_html(all) =~= open_html(toks) + close_tag(last_wrapper(toks)) + spaces(n));
    }
}

/// A blank after `gap` uncovered columns only adds to the blanks at the end.
proof fn blank_step(toks: Seq<Token>, gap: nat)
    ensures
        strip(toks + blanks(gap) + seq![Token::Blank]) == strip(toks),
        strip(toks).len() <= toks.len(),
{
    strip_shape(toks);
    strip_blanks(toks, gap + 1);
    assert(toks + blanks(gap) + seq![Token::Blank] =~= toks + blanks(gap + 1));
}

/// What a glyph adds to a row: the pending blanks, which end the open run,
/// then the glyph in its own wrapper.
spec fn glyph_markup(before: Option<Wrapper>, pending: nat, t: Token) -> Seq<char> {
    if pending == 0 {
        seam(before, wrapper_of(t)) + token_html(t)
    } else {
        close_tag(before) + spaces(pending) + seam(None, wrapper_of(t)) + token_html(t)
    }
}

/// A glyph after `gap` uncovered columns makes all the blanks before it count.
proof fn glyph_step(toks: Seq<Token>, gap: nat, token: Token)
    requires
        !(token is Blank),
    ensures
        strip(toks).len() <= toks.len(),
        strip(toks + blanks(gap) + seq![token]) == toks + blanks(gap) + seq![token],
        last_wrapper(toks + blanks(gap) + seq![token]) == wrapper_of(token),
        open_html(toks + blanks(gap) + seq![token]) == open_html(strip(toks)) + glyph_markup(
            last_wrapper(strip(toks)),
            (toks.len() - strip(toks).len() + gap) as nat,
            token,
        ),
{
    strip_shape(toks);
    let trailing = (toks.len() - strip(toks).len()) as nat;
    let pending = trailing + gap;
    let base = strip(toks) + blanks(pending);
    let now = toks + blanks(gap) + seq![token];
    assert(blanks(pending) =~= blanks(trailing) + blanks(gap));
    assert(base =~= toks + blanks(gap));
    assert(now.drop_last() =~= base);
    assert(now.last() == token);
    if pending > 0 {
        open_html_blanks(strip(toks), pending);
    } else {
        assert(base =~= strip(toks));
    }
    assert(open_html(now) =~= open_html(strip(toks)) + glyph_markup(
        last_wrapper(strip(toks)),
        pending,
        token,
    ));
}

proof fn within_prefix(cells: Seq<Cell>, cols: nat, n: int)
    requires
        0 <= n <= cells.len(),
        forall|j: int| 0 <= j < n ==> (#[trigger] cells[j]).index < cols,
        n == cells.len() || cells[n].index >= cols,
    ensures
        within(cells, cols) == cells.take(n),
    decreases n,
{
    if n == 0 {
        assert(cells.take(0) =~= seq![]);
    } else {
        let rest = cells.drop_first();
        assert forall|j: int| 0 <= j < n - 1 implies (#[trigger] rest[j]).index < cols by {
            assert(rest[j] == cells[j + 1]);
        }
        within_prefix(rest, cols, n - 1);
        assert(cells.take(n) =~= seq![cells[0]] + rest.take(n - 1));
    }
}

fn push_spaces(out: &mut String, n: usize)
    ensures
        final(out)@ == old(out)@ + spaces(n as nat),
{
    let ghost before = out@;
    assert(before + spaces(0) =~= before);
    for i in 0..n
        invariant
            out@ == before + spaces(i as nat),
    {
        out.push(' ');
        assert(out@ =~= before + spaces((i + 1) as nat));
    }
}

fn same_link(a: &Option<&str>, b: &Option<&str>) -> (res: bool)
    ensures
        res == (text_of(*a) == text_of(*b)),
{
    match (a, b) {
        (Some(s), Some(t)) => text::same_text(&text::chars_of(s), t),
        (None, None) => true,
        _ => false,
    }
}

fn link_of(attrs: &CellAttributes) -> (res: Option<&str>)
    ensures
        text_of(res) == cell_href(*attrs),
{
    match &attrs.hyperlink {
        Some(uri) => safe_href(uri.as_str()),
        None => None,
    }
}

fn is_blank(s: &str) -> (res: bool)
    ensures
        res == is_blank_text(s@),
{
    let n: usize = s.unicode_len();
    let res = n == 0 || (n == 1 && s.get_char(0) == ' ');
    assert(res ==> s@.len() == 0 || s@ =~= seq![' ']);
    res
}

fn close_run(out: &mut String, cells: &Vec<Cell>, run: &Option<(usize, Option<&str>)>)
    ensures
        final(out)@ == old(out)@ + close_tag(run_wrapper(cells@, *run)),
{
    if let Some((_, h)) = run {
        if h.is_some() {
            out.push_str("</a>");
        } else {
            out.push_str("</span>");
        }
    }
    assert(out@ =~= old(out)@ + close_tag(run_wrapper(cells@, *run)));
}

fn open_run(out: &mut String, attrs: &CellAttributes, href: &Option<&str>) -> (opened: bool)
    requires
        text_of(*href) == cell_href(*attrs),
    ensures
        final(out)@ == old(out)@ + open_tag(cell_wrapper(*attrs)),
        opened == (cell_wrapper(*attrs) is Some),
{
    let (classes, inline_style) = cell_class_and_style(attrs);
    if href.is_none() && classes.as_str().is_empty() && inline_style.as_str().is_empty() {
        assert(out@ =~= old(out)@ + open_tag(cell_wrapper(*attrs)));
        return false;
    }
    if let Some(h) = href {
        out.push_str("<a href=\"");
        html_escape(h, out);
        out.push_str("\" target=\"_blank\" rel=\"noopener\"");
    } else {
        out.push_str("<span");
    }
    if !classes.as_str().is_empty() {
        out.push_str(" class=\"c");
        out.push_str(classes.as_str());
        out.push_str("\"");
    }
    if !inline_style.as_str().is_empty() {
        out.push_str(" style=\"");
        out.push_str(inline_style.as_str());
        out.push_str("\"");
    }
    out.push('>');
    assert(out@ =~= old(out)@ + open_tag(cell_wrapper(*attrs)));
    true
}

fn push_glyph(out: &mut String, s: &str, width: usize)
    ensures
        final(out)@ == old(out)@ + token_html(
            Token::Glyph { text: glyph_text(s@), width: width as nat, wrapper: None },
        ),
{
    let glyph: &str = if s.is_empty() {
        " "
    } else {
        s
    };
    proof {
        reveal_strlit(" ");
        assert(glyph@ =~= glyph_text(s@));
    }
    if cell_needs_box(glyph, width) {
        out.push_str("<span class=\"wc\" style=\"--w:");
        push_decimal(out, width as u64);
        out.push_str("\">");
        html_escape(glyph, out);
        out.push_str("</span>");
    } else {
        html_escape(glyph, out);
    }
    assert(out@ =~= old(out)@ + token_html(
        Token::Glyph { text: glyph_text(s@), width: width as nat, wrapper: None },
    ));
}

/// Moves from the open run to the run of cell `i`.
fn enter_cell<'a>(
    out: &mut String,
    cells: &'a Vec<Cell>,
    i: usize,
    run: Option<(usize, Option<&'a str>)>,
    href: Option<&'a str>,
    plain: bool,
) -> (res: Option<(usize, Option<&'a str>)>)
    requires
        i < cells@.len(),
        run_valid(cells@, run),
        text_of(href) == cell_href(cells@[i as int].attrs),
        plain == is_plain(cells@[i as int].attrs),
    ensures
        final(out)@ == old(out)@ + seam(
            run_wrapper(cells@, run),
            cell_wrapper(cells@[i as int].attrs),
        ),
        run_valid(cells@, res),
        run_wrapper(cells@, res) == cell_wrapper(cells@[i as int].attrs),
{
    let ghost before = run_wrapper(cells@, run);
    let ghost after = cell_wrapper(cells@[i as int].attrs);
    let attrs = &cells[i].attrs;
    if plain {
        proof {
            default_look_needs_nothing();
        }
        close_run(out, cells, &run);
        assert(out@ =~= old(out)@ + seam(before, after));
        return None;
    }
    if let Some((r, h)) = run {
        if attrs_equiv(&cells[r].attrs, attrs) && same_link(&h, &href) {
            assert(before == after);
            assert(out@ =~= old(out)@ + seam(before, after));
            return run;
        }
    }
    assert(before is Some ==> before != after);
    close_run(out, cells, &run);
    let opened = open_run(out, attrs, &href);
    assert(out@ =~= old(out)@ + seam(before, after));
    if opened {
        Some((i, href))
    } else {
        None
    }
}

/// Appends the blanks that were held back and then cell `i`.
fn emit_glyph<'a>(
    out: &mut String,
    cells: &'a Vec<Cell>,
    i: usize,
    run: Option<(usize, Option<&'a str>)>,
    href: Option<&'a str>,
    plain: bool,
    pending_blanks: usize,
    width: usize,
) -> (res: Option<(usize, Option<&'a str>)>)
    requires
        i < cells@.len(),
        run_valid(cells@, run),
        text_of(href) == cell_href(cells@[i as int].attrs),
        plain == is_plain(cells@[i as int].attrs),
        width == cell_width(cells@[i as int]),
        !(cell_token(cells@[i as int]) is Blank),
    ensures
        final(out)@ == old(out)@ + glyph_markup(
            run_wrapper(cells@, run),
            pending_blanks as nat,
            cell_token(cells@[i as int]),
        ),
        run_valid(cells@, res),
        run_wrapper(cells@, res) == wrapper_of(cell_token(cells@[i as int])),
{
    let mut open_run = run;
    if pending_blanks > 0 {
        close_run(out, cells, &run);
        open_run = None;
        push_spaces(out, pending_blanks);
    }
    let next = enter_cell(out, cells, i, open_run, href, plain);
    push_glyph(out, cells[i].text.as_str(), width);
    assert(out@ =~= old(out)@ + glyph_markup(
        run_wrapper(cells@, run),
        pending_blanks as nat,
        cell_token(cells@[i as int]),
    ));
    next
}

/// Appends one row: the cells within `cols` columns, with its stable row id.
pub fn render_row_into(out: &mut String, target: &str, line: &Line, cols: usize, stable: isize)
    requires
        line.valid(),
    ensures
        final(out)@ == old(out)@ + row_html(target@, *line, cols as nat, stable as int),
{
    out.push_str("<div class=\"row\" id=\"");
    out.push_str(target);
    out.push_str("-r-");
    push_decimal_int(out, stable as i64);
    out.push_str("\">");
    let ghost head = out@;
    let blank = CellAttributes::default();
    let cells = &line.cells;
    let mut expected: usize = 0;
    let mut pending_blanks: usize = 0;
    let mut run: Option<(usize, Option<&str>)> = None;
    let mut i: usize = 0;
    assert(cells@.take(0) =~= seq![]);
    assert(head + open_html(strip(tokens(cells@.take(0)))) =~= head);
    while i < cells.len() && cells[i].index < cols
        invariant
            line.valid(),
            cells == line.cells,
            i <= cells@.len(),
            blank.look() == style::default_look(),
            forall|j: int| 0 <= j < i ==> (#[trigger] cells@[j]).index < cols,
            expected == next_col(cells@.take(i as int)),
            pending_blanks <= expected,
            pending_blanks == tokens(cells@.take(i as int)).len() - strip(
                tokens(cells@.take(i as int)),
            ).len(),
            out@ == head + open_html(strip(tokens(cells@.take(i as int)))),
            run_valid(cells@, run),
            run_wrapper(cells@, run) == last_wrapper(strip(tokens(cells@.take(i as int)))),
        decreases cells@.len() - i,
    {
        let cell = &cells[i];
        let ghost seen = cells@.take(i as int);
        let ghost toks = tokens(seen);
        proof {
            assert(cells@.take(i + 1).drop_last() =~= seen);
            assert(cells@.take(i + 1).last() == cells@[i as int]);
        }
        let col: usize = cell.index;
        if col < expected {
            i = i + 1;
            continue;
        }
        let gap: usize = col - expected;
        let width: usize = if cell.width == 0 {
            1
        } else {
            cell.width
        };
        assert(cells@[i as int].index + cell_width(cells@[i as int]) <= usize::MAX);
        let s = cell.text.as_str();
        let href = link_of(&cell.attrs);
        let plain = href.is_none() && attrs_equiv(&cell.attrs, &blank);
        let ghost token = cell_token(cells@[i as int]);
        let ghost now = tokens(cells@.take(i + 1));
        assert(now == toks + blanks(gap as nat) + seq![token]);
        expected = col + width;
        if plain && width == 1 && is_blank(s) {
            proof {
                blank_step(toks, gap as nat);
            }
            pending_blanks = pending_blanks + gap + 1;
            i = i + 1;
            continue;
        }
        proof {
            glyph_step(toks, gap as nat, token);
        }
        run = emit_glyph(out, cells, i, run, href, plain, pending_blanks + gap, width);
        pending_blanks = 0;
        assert(out@ =~= head + open_html(now));
        i = i + 1;
    }
    proof {
        within_prefix(cells@, cols as nat, i as int);
    }
    close_run(out, cells, &run);
    out.push_str("</div>");
    assert(out@ =~= old(out)@ + row_html(target@, *line, cols as nat, stable as int));
}

// --- laws of escaping --------------------------------------------------------

proof fn entity_text()
    ensures
        "&amp;"@ == seq!['&', 'a', 'm', 'p', ';'],
        "&lt;"@ == seq!['&', 'l', 't', ';'],
        "&gt;"@ == seq!['&', 'g', 't', ';'],
        "&quot;"@ == seq!['&', 'q', 'u', 'o', 't', ';'],
{
    reveal_strlit("&amp;");
    reveal_strlit("&lt;");
    reveal_strlit("&gt;");
    reveal_strlit("&quot;");
    assert("&amp;"@ =~= seq!['&', 'a', 'm', 'p', ';']);
    assert("&lt;"@ =~= seq!['&', 'l', 't', ';']);
    assert("&gt;"@ =~= seq!['&', 'g', 't', ';']);
    assert("&quot;"@ =~= seq!['&', 'q', 'u', 'o', 't', ';']);
}

/// Escaped text can neither open nor close a tag nor end an attribute value.
pub proof fn escaped_is_inert(s: Seq<char>)
    ensures
        forall|i: int|
            0 <= i < escaped(s).len() ==> #[trigger] escaped(s)[i] != '<' && escaped(s)[i] != '>'
                && escaped(s)[i] != '"',
    decreases s.len(),
{
    if s.len() > 0 {
        escaped_is_inert(s.drop_last());
        entity_text();
        let head = escaped(s.drop_last());
        let tail = escape_char(s.last());
        assert forall|i: int| 0 <= i < escaped(s).len() implies #[trigger] escaped(s)[i] != '<'
            && escaped(s)[i] != '>' && escaped(s)[i] != '"' by {
            if i < head.len() {
                assert(escaped(s)[i] == head[i]);
            } else {
                assert(escaped(s)[i] == tail[i - head.len()]);
            }
        }
    }
}

proof fn escaped_first(s: Seq<char>)
    requires
        s.len() > 0,
    ensures
        escaped(s) == escape_char(s[0]) + escaped(s.drop_first()),
    decreases s.len(),
{
    if s.len() == 1 {
        assert(s.drop_last() =~= seq![]);
        assert(s.drop_first() =~= seq![]);
        assert(escaped(s) =~= escape_char(s[0]) + escaped(s.drop_first()));
    } else {
        escaped_first(s.drop_last());
        assert(s.drop_last().drop_first() =~= s.drop_first().drop_last());
        assert(escaped(s) =~= escape_char(s[0]) + escaped(s.drop_first()));
    }
}

/// Escaping loses nothing: different texts have different markup.
pub proof fn escaping_is_faithful(a: Seq<char>, b: Seq<char>)
    requires
        escaped(a) == escaped(b),
    ensures
        a == b,
    decreases a.len(),
{
    entity_text();
    if a.len() == 0 {
        if b.len() > 0 {
            escaped_first(b);
            assert(escaped(b).len() > 0);
        }
        assert(a =~= b);
    } else {
        escaped_first(a);
        if b.len() == 0 {
            assert(escaped(a).len() > 0);
        } else {
            escaped_first(b);
            let ea = escape_char(a[0]);
            let eb = escape_char(b[0]);
            let ra = escaped(a.drop_first());
            let rb = escaped(b.drop_first());
            let all = escaped(a);
            assert(all[0] == ea[0] && all[0] == eb[0]);
            if all[0] == '&' {
                assert(all[1] == ea[1] && all[1] == eb[1]);
            }
            assert(a[0] == b[0]);
            assert(ra =~= all.skip(ea.len() as int));
            assert(rb =~= all.skip(eb.len() as int));
            escaping_is_faithful(a.drop_first(), b.drop_first());
            assert(a =~= seq![a[0]] + a.drop_first());
            assert(b =~= seq![b[0]] + b.drop_first());
        }
    }
}

// --- laws of a row -----------------------------------------------------------

/// Only the blanks at the end of a row are dropped, and all of them are.
pub proof fn only_trailing_blanks_are_dropped(line: Line, cols: nat)
    ensures
        exists|n: nat|
            tokens(within(line.cells@, cols)) == row_tokens(line, cols) + #[trigger] blanks(n),
        row_tokens(line, cols).len() > 0 ==> !(row_tokens(line, cols).last() is Blank),
{
    let toks = tokens(within(line.cells@, cols));
    strip_shape(toks);
    strip_last(toks);
    assert(toks == strip(toks) + blanks((toks.len() - strip(toks).len()) as nat));
}

proof fn strip_last(toks: Seq<Token>)
    ensures
        strip(toks).len() > 0 ==> !(strip(toks).last() is Blank),
    decreases toks.len(),
{
    if toks.len() > 0 && toks.last() is Blank {
        strip_last(toks.drop_last());
    }
}

/// The columns that tokens take.
pub open spec fn columns(toks: Seq<Token>) -> nat
    decreases toks.len(),
{
    if toks.len() == 0 {
        0
    } else {
        columns(toks.drop_last()) + match toks.last() {
            Token::Blank => 1,
            Token::Glyph { width, .. } => width,
        }
    }
}

proof fn columns_of_blanks(toks: Seq<Token>, n: nat)
    ensures
        columns(toks + blanks(n)) == columns(toks) + n,
    decreases n,
{
    if n == 0 {
        assert(toks + blanks(n) =~= toks);
    } else {
        assert((toks + blanks(n)).drop_last() =~= toks + blanks((n - 1) as nat));
        columns_of_blanks(toks, (n - 1) as nat);
    }
}

/// The geometry is kept: what stands before a shown cell fills exactly the
/// columns before it, and the tokens of a line end where its last shown cell
/// ends.
pub proof fn cells_keep_their_columns(cells: Seq<Cell>)
    ensures
        columns(tokens(cells)) == next_col(cells),
        cells.len() > 0 && cells.last().index >= next_col(cells.drop_last()) ==> columns(
            tokens(cells).drop_last(),
        ) == cells.last().index && tokens(cells).last() == cell_token(cells.last()),
    decreases cells.len(),
{
    if cells.len() > 0 {
        let rest = cells.drop_last();
        cells_keep_their_columns(rest);
        if cells.last().index >= next_col(rest) {
            let gap = (cells.last().index - next_col(rest)) as nat;
            columns_of_blanks(tokens(rest), gap);
            assert(tokens(cells).drop_last() =~= tokens(rest) + blanks(gap));
        }
    }
}

/// A cell goes without a wrapper exactly if it is plain: every other look
/// has a class or a style to carry.
pub proof fn only_plain_cells_are_unwrapped(attrs: CellAttributes)
    ensures
        cell_wrapper(attrs) is None <==> is_plain(attrs),
{
    reveal(style::classes);
    reveal(style::inline_style);
    default_look_needs_nothing();
    style::parts_are_not_empty(attrs.look());
}

/// The markup of tokens without any wrapper.
pub open spec fn bare_html(toks: Seq<Token>) -> Seq<char>
    decreases toks.len(),
{
    if toks.len() == 0 {
        seq![]
    } else {
        bare_html(toks.drop_last()) + token_html(toks.last())
    }
}

proof fn run_open_html(toks: Seq<Token>, w: Option<Wrapper>)
    requires
        toks.len() > 0,
        forall|i: int| 0 <= i < toks.len() ==> wrapper_of(#[trigger] toks[i]) == w,
    ensures
        open_html(toks) == open_tag(w) + bare_html(toks),
    decreases toks.len(),
{
    let rest = toks.drop_last();
    assert(wrapper_of(toks[toks.len() - 1]) == w);
    if rest.len() == 0 {
        assert(open_html(rest) =~= seq![] && bare_html(rest) =~= seq![]);
        assert(seam(None, w) =~= open_tag(w));
        assert(open_html(toks) =~= open_tag(w) + bare_html(toks));
    } else {
        assert forall|i: int| 0 <= i < rest.len() implies wrapper_of(#[trigger] rest[i]) == w by {
            assert(wrapper_of(toks[i]) == w);
        }
        run_open_html(rest, w);
        assert(wrapper_of(rest[rest.len() - 1]) == w);
        assert(open_html(toks) =~= open_tag(w) + bare_html(toks));
    }
}

/// A run of tokens that share a wrapper is wrapped once, as a whole.
pub proof fn run_is_wrapped_once(toks: Seq<Token>, w: Option<Wrapper>)
    requires
        toks.len() > 0,
        forall|i: int| 0 <= i < toks.len() ==> wrapper_of(#[trigger] toks[i]) == w,
    ensures
        tokens_html(toks) == open_tag(w) + bare_html(toks) + close_tag(w),
{
    run_open_html(toks, w);
    assert(wrapper_of(toks[toks.len() - 1]) == w);
}

proof fn open_html_splits(a: Seq<Token>, b: Seq<Token>)
    requires
        b.len() > 0,
        last_wrapper(a) != wrapper_of(b[0]) || last_wrapper(a) is None,
    ensures
        open_html(a + b) == tokens_html(a) + open_html(b),
    decreases b.len(),
{
    let rest = b.drop_last();
    assert((a + b).drop_last() =~= a + rest);
    assert((a + b).last() == b.last());
    if rest.len() == 0 {
        assert(a + rest =~= a);
        assert(b.last() == b[0]);
        assert(open_html(rest) =~= seq![]);
        assert(seam(None, wrapper_of(b[0])) =~= open_tag(wrapper_of(b[0])));
        assert(open_html(a + b) =~= tokens_html(a) + open_html(b));
    } else {
        open_html_splits(a, rest);
        assert((a + rest).last() == rest.last());
        assert(open_html(a + b) =~= tokens_html(a) + open_html(b));
    }
}

/// Where one run ends and another begins, the markup of a row falls into the
/// markup of the two parts: no wrapper reaches over the seam.
pub proof fn rows_split_at_runs(a: Seq<Token>, b: Seq<Token>)
    requires
        b.len() > 0,
        last_wrapper(a) != wrapper_of(b[0]) || last_wrapper(a) is None,
    ensures
        tokens_html(a + b) == tokens_html(a) + tokens_html(b),
{
    open_html_splits(a, b);
    assert((a + b).last() == b.last());
    assert(tokens_html(a + b) =~= tokens_html(a) + tokens_html(b));
}

/// Whether the link of a token, where it has one, is of an allowed scheme.
pub open spec fn link_allowed(t: Token) -> bool {
    match wrapper_of(t) {
        Some(w) => match w.href {
            Some(h) => links::allowed_scheme(h),
            None => true,
        },
        None => true,
    }
}

proof fn token_links_allowed(cells: Seq<Cell>, i: int)
    requires
        0 <= i < tokens(cells).len(),
    ensures
        link_allowed(tokens(cells)[i]),
    decreases cells.len(),
{
    let rest = cells.drop_last();
    if i < tokens(rest).len() {
        assert(tokens(cells)[i] == tokens(rest)[i]);
        token_links_allowed(rest, i);
    } else if i < tokens(cells).len() - 1 {
        assert(tokens(cells)[i] is Blank);
    } else {
        assert(tokens(cells)[i] == cell_token(cells.last()));
    }
}

/// No row ever carries a link whose scheme is not allowed.
pub proof fn row_links_are_allowed(line: Line, cols: nat, i: int)
    requires
        0 <= i < row_tokens(line, cols).len(),
    ensures
        link_allowed(row_tokens(line, cols)[i]),
{
    let cells = within(line.cells@, cols);
    strip_shape(tokens(cells));
    assert(row_tokens(line, cols)[i] == tokens(cells)[i]);
    token_links_allowed(cells, i);
}

// --- what a row reads as -----------------------------------------------------

/// `s` without its tags, each from a `<` to the next `>`. `inside` says
/// whether it starts inside one.
pub open spec fn untagged(s: Seq<char>, inside: bool) -> Seq<char>
    decreases s.len(),
{
    if s.len() == 0 {
        seq![]
    } else if inside {
        untagged(s.drop_first(), s[0] != '>')
    } else if s[0] == '<' {
        untagged(s.drop_first(), true)
    } else {
        seq![s[0]] + untagged(s.drop_first(), false)
    }
}

/// Whether `s` ends inside a tag.
pub open spec fn ends_inside(s: Seq<char>, inside: bool) -> bool
    decreases s.len(),
{
    if s.len() == 0 {
        inside
    } else if inside {
        ends_inside(s.drop_first(), s[0] != '>')
    } else {
        ends_inside(s.drop_first(), s[0] == '<')
    }
}

/// Whether `s` starts with `prefix`.
pub open spec fn starts_with(s: Seq<char>, prefix: Seq<char>) -> bool {
    s.len() >= prefix.len() && s.take(prefix.len() as int) == prefix
}

/// `s` with the four entities turned into what they stand for.
pub open spec fn decoded(s: Seq<char>) -> Seq<char>
    decreases s.len(),
{
    if s.len() == 0 {
        seq![]
    } else if starts_with(s, seq!['&', 'a', 'm', 'p', ';']) {
        seq!['&'] + decoded(s.skip(5))
    } else if starts_with(s, seq!['&', 'l', 't', ';']) {
        seq!['<'] + decoded(s.skip(4))
    } else if starts_with(s, seq!['&', 'g', 't', ';']) {
        seq!['>'] + decoded(s.skip(4))
    } else if starts_with(s, seq!['&', 'q', 'u', 'o', 't', ';']) {
        seq!['"'] + decoded(s.skip(6))
    } else {
        seq![s[0]] + decoded(s.skip(1))
    }
}

/// The text that a reader of the markup sees: without tags, entities decoded.
pub open spec fn reading(html: Seq<char>) -> Seq<char> {
    decoded(untagged(html, false))
}

/// The text of cells: the glyph of each cell that no earlier one covers, and
/// a space for every column that no cell covers.
pub open spec fn cells_text(cells: Seq<Cell>) -> Seq<char>
    decreases cells.len(),
{
    if cells.len() == 0 {
        seq![]
    } else {
        let before = next_col(cells.drop_last());
        if cells.last().index < before {
            cells_text(cells.drop_last())
        } else {
            cells_text(cells.drop_last()) + spaces((cells.last().index - before) as nat)
                + glyph_text(cells.last().text@)
        }
    }
}

/// Whether a cell is a blank of one column with the default look and no link.
pub open spec fn is_default_blank(cell: Cell) -> bool {
    is_plain(cell.attrs) && cell_width(cell) == 1 && is_blank_text(cell.text@)
}

/// How many columns at the end hold nothing but default blanks.
pub open spec fn trailing_blanks(cells: Seq<Cell>) -> nat
    decreases cells.len(),
{
    if cells.len() == 0 {
        0
    } else {
        let before = next_col(cells.drop_last());
        if cells.last().index < before {
            trailing_blanks(cells.drop_last())
        } else if is_default_blank(cells.last()) {
            trailing_blanks(cells.drop_last()) + (cells.last().index - before) as nat + 1
        } else {
            0
        }
    }
}

/// The text of a row: that of the cells within its columns, less the default
/// blanks at the end.
pub open spec fn row_text(line: Line, cols: nat) -> Seq<char> {
    let cells = within(line.cells@, cols);
    cells_text(cells).take(cells_text(cells).len() - trailing_blanks(cells))
}

/// The text of tokens.
spec fn tokens_text(toks: Seq<Token>) -> Seq<char>
    decreases toks.len(),
{
    if toks.len() == 0 {
        seq![]
    } else {
        tokens_text(toks.drop_last()) + match toks.last() {
            Token::Blank => seq![' '],
            Token::Glyph { text, .. } => text,
        }
    }
}

/// Whether `s` stands outside of tags at both ends and has the text `t`
/// between them.
spec fn reads(s: Seq<char>, t: Seq<char>) -> bool {
    untagged(s, false) == t && !ends_inside(s, false)
}

proof fn untagged_join(a: Seq<char>, b: Seq<char>, inside: bool)
    ensures
        untagged(a + b, inside) == untagged(a, inside) + untagged(b, ends_inside(a, inside)),
        ends_inside(a + b, inside) == ends_inside(b, ends_inside(a, inside)),
    decreases a.len(),
{
    if a.len() == 0 {
        assert(a + b =~= b);
        assert(untagged(a, inside) + untagged(b, inside) =~= untagged(b, inside));
    } else {
        assert((a + b).drop_first() =~= a.drop_first() + b);
        let next = if inside {
            a[0] != '>'
        } else {
            a[0] == '<'
        };
        untagged_join(a.drop_first(), b, next);
        assert(untagged(a + b, inside) =~= untagged(a, inside) + untagged(
            b,
            ends_inside(a, inside),
        ));
    }
}

proof fn reads_join(a: Seq<char>, ta: Seq<char>, b: Seq<char>, tb: Seq<char>)
    requires
        reads(a, ta),
        reads(b, tb),
    ensures
        reads(a + b, ta + tb),
{
    untagged_join(a, b, false);
}

proof fn text_reads(s: Seq<char>)
    requires
        text::lacks(s, '<'),
    ensures
        reads(s, s),
    decreases s.len(),
{
    if s.len() > 0 {
        let rest = s.drop_first();
        assert forall|i: int| 0 <= i < rest.len() implies #[trigger] rest[i] != '<' by {
            assert(rest[i] == s[i + 1]);
        }
        text_reads(rest);
        assert(s[0] != '<');
        assert(seq![s[0]] + rest =~= s);
    } else {
        assert(untagged(s, false) =~= s);
    }
}

proof fn inside_reads_nothing(s: Seq<char>)
    requires
        text::lacks(s, '>'),
    ensures
        untagged(s, true) == Seq::<char>::empty(),
        ends_inside(s, true),
    decreases s.len(),
{
    if s.len() > 0 {
        let rest = s.drop_first();
        assert forall|i: int| 0 <= i < rest.len() implies #[trigger] rest[i] != '>' by {
            assert(rest[i] == s[i + 1]);
        }
        inside_reads_nothing(rest);
        assert(s[0] != '>');
    }
}

/// A tag: something that starts with `<` and holds no `>`, and then a `>`.
proof fn tag_reads_nothing(s: Seq<char>)
    requires
        s.len() > 0,
        s[0] == '<',
        text::lacks(s, '>'),
    ensures
        reads(s + seq!['>'], seq![]),
{
    let rest = s.drop_first();
    let end = seq!['>'];
    assert forall|i: int| 0 <= i < rest.len() implies #[trigger] rest[i] != '>' by {
        assert(rest[i] == s[i + 1]);
    }
    inside_reads_nothing(rest);
    untagged_join(s, end, false);
    assert(untagged(s, false) == untagged(rest, true));
    assert(ends_inside(s, false) == ends_inside(rest, true));
    assert(end.drop_first() =~= seq![]);
    assert(untagged(seq![], false) =~= Seq::<char>::empty());
    assert(untagged(end, true) == untagged(end.drop_first(), false));
    assert(ends_inside(end, true) == ends_inside(end.drop_first(), false));
}

proof fn escaped_reads(t: Seq<char>)
    ensures
        reads(escaped(t), escaped(t)),
        text::lacks(escaped(t), '>'),
{
    escaped_is_inert(t);
    text_reads(escaped(t));
}

proof fn open_tag_reads(w: Option<Wrapper>)
    ensures
        reads(open_tag(w), seq![]),
{
    if let Some(wr) = w {
        reveal_strlit("<a href=\"");
        reveal_strlit("\" target=\"_blank\" rel=\"noopener\"");
        reveal_strlit("<span");
        reveal_strlit(" class=\"c");
        reveal_strlit(" style=\"");
        reveal_strlit("\"");
        let classes = style::classes(wr.look);
        let inline_style = style::inline_style(wr.look);
        style::css_is_inert(wr.look);
        let head = match wr.href {
            Some(h) => "<a href=\""@ + escaped(h) + "\" target=\"_blank\" rel=\"noopener\""@,
            None => "<span"@,
        };
        if let Some(h) = wr.href {
            escaped_reads(h);
            text::lacks_join("<a href=\""@, escaped(h), '>');
            text::lacks_join(
                "<a href=\""@ + escaped(h),
                "\" target=\"_blank\" rel=\"noopener\""@,
                '>',
            );
        }
        let class_part = if classes.len() == 0 {
            seq![]
        } else {
            " class=\"c"@ + classes + "\""@
        };
        text::lacks_join(" class=\"c"@, classes, '>');
        text::lacks_join(" class=\"c"@ + classes, "\""@, '>');
        let style_part = if inline_style.len() == 0 {
            seq![]
        } else {
            " style=\""@ + inline_style + "\""@
        };
        text::lacks_join(" style=\""@, inline_style, '>');
        text::lacks_join(" style=\""@ + inline_style, "\""@, '>');
        text::lacks_join(head, class_part, '>');
        text::lacks_join(head + class_part, style_part, '>');
        tag_reads_nothing(head + class_part + style_part);
        assert(open_tag(w) == head + class_part + style_part + seq!['>']);
    } else {
        assert(untagged(open_tag(w), false) =~= Seq::<char>::empty());
    }
}

proof fn end_tags_read_nothing()
    ensures
        reads("</a>"@, seq![]),
        reads("</span>"@, seq![]),
        reads("</div>"@, seq![]),
{
    reveal_strlit("</a>");
    reveal_strlit("</span>");
    reveal_strlit("</div>");
    assert("</a>"@ =~= seq!['<', '/', 'a'] + seq!['>']);
    assert("</span>"@ =~= seq!['<', '/', 's', 'p', 'a', 'n'] + seq!['>']);
    assert("</div>"@ =~= seq!['<', '/', 'd', 'i', 'v'] + seq!['>']);
    tag_reads_nothing(seq!['<', '/', 'a']);
    tag_reads_nothing(seq!['<', '/', 's', 'p', 'a', 'n']);
    tag_reads_nothing(seq!['<', '/', 'd', 'i', 'v']);
}

proof fn close_tag_reads(w: Option<Wrapper>)
    ensures
        reads(close_tag(w), seq![]),
{
    end_tags_read_nothing();
    if w is None {
        assert(untagged(close_tag(w), false) =~= Seq::<char>::empty());
    }
}

proof fn token_reads(t: Token)
    ensures
        reads(token_html(t), escaped(tokens_text(seq![t]))),
{
    let own = match t {
        Token::Blank => seq![' '],
        Token::Glyph { text, .. } => text,
    };
    assert(seq![t].drop_last() =~= seq![]);
    assert(tokens_text(seq![]) =~= Seq::<char>::empty());
    assert(tokens_text(seq![t]) =~= own);
    match t {
        Token::Blank => {
            assert(seq![' '].drop_last() =~= seq![]);
            assert(escaped(seq![]) =~= Seq::<char>::empty());
            assert(escaped(seq![' ']) =~= seq![' ']);
            text_reads(seq![' ']);
        },
        Token::Glyph { text, width, .. } => {
            escaped_reads(text);
            if needs_box(text, width) {
                reveal_strlit("<span class=\"wc\" style=\"--w:");
                reveal_strlit("\">");
                let start = "<span class=\"wc\" style=\"--w:"@ + text::decimal(width);
                text::numerals_lack(width as int, '>');
                text::lacks_join(
                    "<span class=\"wc\" style=\"--w:"@,
                    text::decimal(width),
                    '>',
                );
                text::lacks_join(start, seq!['"'], '>');
                tag_reads_nothing(start + seq!['"']);
                assert(start + "\">"@ =~= start + seq!['"'] + seq!['>']);
                end_tags_read_nothing();
                reads_join(start + "\">"@, seq![], escaped(text), escaped(text));
                reads_join(
                    start + "\">"@ + escaped(text),
                    Seq::<char>::empty() + escaped(text),
                    "</span>"@,
                    seq![],
                );
                assert(Seq::<char>::empty() + escaped(text) + Seq::<char>::empty() =~= escaped(
                    text,
                ));
            }
        },
    }
}

proof fn escaped_join(a: Seq<char>, b: Seq<char>)
    ensures
        escaped(a + b) == escaped(a) + escaped(b),
    decreases b.len(),
{
    if b.len() == 0 {
        assert(a + b =~= a);
        assert(escaped(a) + escaped(b) =~= escaped(a));
    } else {
        assert((a + b).drop_last() =~= a + b.drop_last());
        assert((a + b).last() == b.last());
        escaped_join(a, b.drop_last());
        assert(escaped(a + b) =~= escaped(a) + escaped(b));
    }
}

proof fn open_html_reads(toks: Seq<Token>)
    ensures
        reads(open_html(toks), escaped(tokens_text(toks))),
    decreases toks.len(),
{
    if toks.len() == 0 {
        assert(untagged(open_html(toks), false) =~= escaped(tokens_text(toks)));
    } else {
        let rest = toks.drop_last();
        let t = toks.last();
        let before = last_wrapper(rest);
        let after = wrapper_of(t);
        open_html_reads(rest);
        close_tag_reads(before);
        open_tag_reads(after);
        reads_join(close_tag(before), seq![], open_tag(after), seq![]);
        assert(Seq::<char>::empty() + Seq::<char>::empty() =~= Seq::<char>::empty());
        assert(untagged(seq![], false) =~= Seq::<char>::empty());
        assert(reads(seam(before, after), seq![]));
        token_reads(t);
        let own = tokens_text(seq![t]);
        reads_join(open_html(rest), escaped(tokens_text(rest)), seam(before, after), seq![]);
        assert(escaped(tokens_text(rest)) + Seq::<char>::empty() =~= escaped(tokens_text(rest)));
        reads_join(
            open_html(rest) + seam(before, after),
            escaped(tokens_text(rest)),
            token_html(t),
            escaped(own),
        );
        assert(seq![t].drop_last() =~= seq![]);
        assert(tokens_text(seq![]) =~= Seq::<char>::empty());
        assert(tokens_text(toks) =~= tokens_text(rest) + own);
        escaped_join(tokens_text(rest), own);
    }
}

proof fn tokens_read(toks: Seq<Token>)
    ensures
        reads(tokens_html(toks), escaped(tokens_text(toks))),
{
    let t = escaped(tokens_text(toks));
    open_html_reads(toks);
    close_tag_reads(last_wrapper(toks));
    reads_join(open_html(toks), t, close_tag(last_wrapper(toks)), seq![]);
    assert(t + Seq::<char>::empty() =~= t);
}

/// Decoding the entities of escaped text gives the text back.
pub proof fn decoded_escaped(t: Seq<char>)
    ensures
        decoded(escaped(t)) == t,
    decreases t.len(),
{
    entity_text();
    if t.len() == 0 {
        assert(decoded(escaped(t)) =~= t);
    } else {
        escaped_first(t);
        let s = escaped(t);
        let e = escape_char(t[0]);
        let rest = escaped(t.drop_first());
        decoded_escaped(t.drop_first());
        assert(s.skip(e.len() as int) =~= rest);
        assert(s.take(e.len() as int) =~= e);
        assert(s[0] == e[0]);
        if t[0] == '&' || t[0] == '<' || t[0] == '>' || t[0] == '"' {
            assert(s[1] == e[1]);
            if s.len() >= 5 && t[0] != '&' {
                assert(s.take(5)[1] == s[1]);
            }
            if s.len() >= 4 {
                assert(s.take(4)[1] == s[1]);
            }
        } else {
            assert(s[0] == t[0]);
            if s.len() >= 4 {
                assert(s.take(4)[0] == s[0]);
            }
            if s.len() >= 5 {
                assert(s.take(5)[0] == s[0]);
            }
            if s.len() >= 6 {
                assert(s.take(6)[0] == s[0]);
            }
        }
        assert(decoded(s) == seq![t[0]] + t.drop_first());
        assert(seq![t[0]] + t.drop_first() =~= t);
    }
}

proof fn text_of_blanks(toks: Seq<Token>, n: nat)
    ensures
        tokens_text(toks + blanks(n)) == tokens_text(toks) + spaces(n),
    decreases n,
{
    if n == 0 {
        assert(toks + blanks(n) =~= toks);
        assert(tokens_text(toks) + spaces(n) =~= tokens_text(toks));
    } else {
        let m = (n - 1) as nat;
        text_of_blanks(toks, m);
        assert((toks + blanks(n)).drop_last() =~= toks + blanks(m));
        assert(tokens_text(toks + blanks(n)) =~= tokens_text(toks) + spaces(n));
    }
}

proof fn tokens_have_the_text(cells: Seq<Cell>)
    ensures
        tokens_text(tokens(cells)) == cells_text(cells),
        tokens(cells).len() - strip(tokens(cells)).len() == trailing_blanks(cells),
    decreases cells.len(),
{
    if cells.len() > 0 {
        let rest = cells.drop_last();
        let last = cells.last();
        tokens_have_the_text(rest);
        if last.index >= next_col(rest) {
            let gap = (last.index - next_col(rest)) as nat;
            let padded = tokens(rest) + blanks(gap);
            text_of_blanks(tokens(rest), gap);
            strip_blanks(tokens(rest), gap);
            assert(tokens(cells).drop_last() =~= padded);
            assert(tokens(cells).last() == cell_token(last));
            if is_default_blank(last) {
                assert(glyph_text(last.text@) =~= seq![' ']);
            }
        }
    }
}

/// The tokens of the cells are those that the row shows and as many blanks as
/// there are empty columns at the end.
pub proof fn row_drops_trailing_blanks(line: Line, cols: nat)
    ensures
        tokens(within(line.cells@, cols)) == row_tokens(line, cols) + blanks(
            trailing_blanks(within(line.cells@, cols)),
        ),
{
    let cells = within(line.cells@, cols);
    tokens_have_the_text(cells);
    strip_shape(tokens(cells));
}

/// A row reads as its text: the markup without tags and with its entities
/// decoded is the text of the cells, with one blank for every column that
/// none covers, less the default blanks at the end. A blank with a look or a
/// link of its own is never dropped. The element id stands in the start tag
/// as it is given, so it must not end that tag.
pub proof fn row_reads_as_its_text(target: Seq<char>, line: Line, cols: nat, stable: int)
    ensures
        reading(tokens_html(row_tokens(line, cols))) == row_text(line, cols),
        text::lacks(target, '>') ==> reading(row_html(target, line, cols, stable)) == row_text(
            line,
            cols,
        ),
{
    let cells = within(line.cells@, cols);
    let toks = row_tokens(line, cols);
    let t = tokens_text(toks);
    let n = trailing_blanks(cells);
    tokens_have_the_text(cells);
    strip_shape(tokens(cells));
    text_of_blanks(toks, n);
    assert(cells_text(cells) == t + spaces(n));
    assert(row_text(line, cols) =~= t);
    tokens_read(toks);
    decoded_escaped(t);
    if text::lacks(target, '>') {
        reveal_strlit("<div class=\"row\" id=\"");
        reveal_strlit("-r-");
        reveal_strlit("\">");
        let id = row_id(target, stable);
        text::numerals_lack(stable, '>');
        text::lacks_join(target, "-r-"@, '>');
        text::lacks_join(target + "-r-"@, text::decimal_int(stable), '>');
        let start = "<div class=\"row\" id=\""@ + id;
        text::lacks_join("<div class=\"row\" id=\""@, id, '>');
        text::lacks_join(start, seq!['"'], '>');
        tag_reads_nothing(start + seq!['"']);
        assert(start + "\">"@ =~= start + seq!['"'] + seq!['>']);
        end_tags_read_nothing();
        reads_join(start + "\">"@, seq![], tokens_html(toks), escaped(t));
        reads_join(
            start + "\">"@ + tokens_html(toks),
            Seq::<char>::empty() + escaped(t),
            "</div>"@,
            seq![],
        );
        assert(Seq::<char>::empty() + escaped(t) + Seq::<char>::empty() =~= escaped(t));
    }
}

} // verus!
