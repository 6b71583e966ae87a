//! The ghostty engine: what is asked of the terminal library, in what order,
//! and what each of its replies means.
//!
//! Handles are addresses, null being zero. Every fallible call of the library
//! answers with a result code, zero for success; the values it writes are
//! handed in beside the code as they stand after the call.
use vstd::multiset::Multiset;
use vstd::prelude::*;

verus! {

/// The result code of a call that succeeded.
pub const SUCCESS: i32 = 0;

/// Style color tags: a palette index, an rgb value; anything else is unset.
pub const COLOR_PALETTE: u32 = 1;

pub const COLOR_RGB: u32 = 2;

/// Cell content tags.
pub const CONTENT_CODEPOINT: u32 = 0;

pub const CONTENT_BG_PALETTE: u32 = 2;

pub const CONTENT_BG_RGB: u32 = 3;

/// The wide state of a cell of one column.
pub const WIDE_NARROW: u32 = 0;

/// The active screen while the alternate screen shows.
pub const SCREEN_ALTERNATE: u32 = 1;

/// The dirty state of a frame that has to be drawn as a whole.
pub const DIRTY_FULL: u32 = 2;

/// The result code of a call whose buffer was too small.
pub const OUT_OF_SPACE: i32 = -3;

/// The room for a scrollback cell's grapheme cluster that is tried first, in
/// code points.
pub const GRAPHEME_ROOM: usize = 64;

// --- colors and cells --------------------------------------------------------

/// A color as carried by a style attribute: unset, palette index, or rgb.
#[derive(Clone, Copy, Debug, PartialEq, Eq, Structural)]
pub enum Col {
    Unset,
    Palette(u8),
    Rgb(u8, u8, u8),
}

/// A style color as the library reports it: the tag says which of the values
/// counts.
#[derive(Clone, Copy, Debug, PartialEq, Eq, Structural)]
pub struct StyleColor {
    pub tag: u32,
    pub palette: u8,
    pub red: u8,
    pub green: u8,
    pub blue: u8,
}

/// What a style color says.
pub fn style_col(c: &StyleColor) -> (res: Col)
    ensures
        c.tag == COLOR_PALETTE ==> res == Col::Palette(c.palette),
        c.tag == COLOR_RGB ==> res == Col::Rgb(c.red, c.green, c.blue),
        c.tag != COLOR_PALETTE && c.tag != COLOR_RGB ==> res == Col::Unset,
{
    if c.tag == COLOR_PALETTE {
        Col::Palette(c.palette)
    } else if c.tag == COLOR_RGB {
        Col::Rgb(c.red, c.green, c.blue)
    } else {
        Col::Unset
    }
}

/// The style of a cell.
#[derive(Clone, Copy, Debug, PartialEq, Eq, Structural)]
pub struct Style {
    pub fg_color: StyleColor,
    pub bg_color: StyleColor,
    pub underline_color: StyleColor,
    pub bold: bool,
    pub italic: bool,
    pub faint: bool,
    pub blink: bool,
    pub inverse: bool,
    pub invisible: bool,
    pub strikethrough: bool,
    pub overline: bool,
    pub underline: i32,
}

/// The style color that is unset.
pub open spec fn unset_color() -> StyleColor {
    StyleColor { tag: 0, palette: 0, red: 0, green: 0, blue: 0 }
}

/// The style of an unstyled cell: all zero.
pub open spec fn plain_style() -> Style {
    Style {
        fg_color: unset_color(),
        bg_color: unset_color(),
        underline_color: unset_color(),
        bold: false,
        italic: false,
        faint: false,
        blink: false,
        inverse: false,
        invisible: false,
        strikethrough: false,
        overline: false,
        underline: 0,
    }
}

/// The style of an unstyled cell.
pub fn style_default() -> (res: Style)
    ensures
        res == plain_style(),
{
    let unset = StyleColor { tag: 0, palette: 0, red: 0, green: 0, blue: 0 };
    Style {
        fg_color: unset,
        bg_color: unset,
        underline_color: unset,
        bold: false,
        italic: false,
        faint: false,
        blink: false,
        inverse: false,
        invisible: false,
        strikethrough: false,
        overline: false,
        underline: 0,
    }
}

/// Everything a renderer needs to know about one cell, and the raw cell value
/// that further questions are put to.
#[derive(Clone, Copy, Debug, PartialEq, Eq, Structural)]
pub struct CellFacts {
    pub codepoint: u32,
    pub tag: u32,
    pub wide: u32,
    pub style: Style,
    pub raw: u64,
}

impl Default for CellFacts {
    fn default() -> (res: Self)
        ensures
            res.codepoint == 0,
            res.tag == CONTENT_CODEPOINT,
            res.wide == WIDE_NARROW,
            res.style == plain_style(),
            res.raw == 0,
    {
        CellFacts {
            codepoint: 0,
            tag: CONTENT_CODEPOINT,
            wide: WIDE_NARROW,
            style: style_default(),
            raw: 0,
        }
    }
}

/// Which color of a cell's content has to be asked for.
#[derive(Clone, Copy, Debug, PartialEq, Eq, Structural)]
pub enum BgQuery {
    Nothing,
    Palette,
    Rgb,
}

/// The reply to a question for the color in a cell's content.
#[derive(Clone, Copy, Debug)]
pub struct BgReply {
    pub code: i32,
    pub palette: u8,
    pub red: u8,
    pub green: u8,
    pub blue: u8,
}

impl CellFacts {
    /// The question that the background of the content needs.
    pub open spec fn query(self) -> BgQuery {
        if self.tag == CONTENT_BG_PALETTE {
            BgQuery::Palette
        } else if self.tag == CONTENT_BG_RGB {
            BgQuery::Rgb
        } else {
            BgQuery::Nothing
        }
    }

    /// The question that has to be put before `content_bg`.
    pub fn bg_query(&self) -> (res: BgQuery)
        ensures
            res == self.query(),
    {
        if self.tag == CONTENT_BG_PALETTE {
            BgQuery::Palette
        } else if self.tag == CONTENT_BG_RGB {
            BgQuery::Rgb
        } else {
            BgQuery::Nothing
        }
    }

    /// The background color a bg-content cell carries in the cell itself (an
    /// erase with a color set). Unset for text cells, and where the question
    /// failed.
    pub fn content_bg(&self, reply: &BgReply) -> (res: Col)
        ensures
            self.query() is Nothing || reply.code != SUCCESS ==> res == Col::Unset,
            self.query() is Palette && reply.code == SUCCESS ==> res == Col::Palette(reply.palette),
            self.query() is Rgb && reply.code == SUCCESS ==> res == Col::Rgb(
                reply.red,
                reply.green,
                reply.blue,
            ),
    {
        if reply.code != SUCCESS {
            return Col::Unset;
        }
        match self.bg_query() {
            BgQuery::Nothing => Col::Unset,
            BgQuery::Palette => Col::Palette(reply.palette),
            BgQuery::Rgb => Col::Rgb(reply.red, reply.green, reply.blue),
        }
    }
}

// --- graphemes ---------------------------------------------------------------

/// Whether a number is the code point of a character.
pub open spec fn is_scalar(cp: u32) -> bool {
    cp <= 0xd7ff || 0xe000 <= cp <= 0x10ffff
}

/// `char::from_u32` gives the character of a code point, and nothing for a
/// number that is not a Unicode scalar value.
pub assume_specification[ char::from_u32 ](i: u32) -> (res: Option<char>)
    ensures
        res == (if is_scalar(i) {
            Some(i as char)
        } else {
            None
        }),
;

/// The text of a grapheme cluster. Numbers that are no characters are left
/// out.
pub open spec fn cluster(cps: Seq<u32>) -> Seq<char>
    decreases cps.len(),
{
    if cps.len() == 0 {
        seq![]
    } else if is_scalar(cps.last()) {
        cluster(cps.drop_last()).push(cps.last() as char)
    } else {
        cluster(cps.drop_last())
    }
}

fn push_cluster(out: &mut String, cps: &Vec<u32>, len: usize)
    requires
        len <= cps@.len(),
    ensures
        final(out)@ == old(out)@ + cluster(cps@.take(len as int)),
{
    let ghost before = out@;
    assert(before + cluster(cps@.take(0)) =~= before);
    for i in 0..len
        invariant
            len <= cps@.len(),
            out@ == before + cluster(cps@.take(i as int)),
    {
        assert(cps@.take(i + 1).drop_last() =~= cps@.take(i as int));
        if let Some(c) = char::from_u32(cps[i]) {
            out.push(c);
        }
        assert(out@ =~= before + cluster(cps@.take(i + 1)));
    }
}

/// The code points that a viewport cell has to offer: none where the question
/// failed.
pub open spec fn cluster_len(len_code: i32, len: u32) -> nat {
    if len_code == SUCCESS {
        len as nat
    } else {
        0
    }
}

// --- opening a terminal ------------------------------------------------------

/// The calls that open a terminal, in the order they are made.
#[derive(Clone, Copy, Debug, PartialEq, Eq, Structural)]
pub enum SetupStep {
    Terminal,
    Userdata,
    WritePty,
    RenderState,
    RowIterator,
    RowCells,
}

impl SetupStep {
    /// Whether the call yields a handle.
    pub open spec fn yields_handle(self) -> bool {
        !(self is Userdata) && !(self is WritePty)
    }

    /// Whether a reply lets the setup go on.
    pub open spec fn accepts(self, code: i32, handle: usize) -> bool {
        code == SUCCESS && (self.yields_handle() ==> handle != 0)
    }

    /// What is said when the call fails.
    pub fn message(&self) -> (res: &'static str)
        ensures
            res@ == (match *self {
                SetupStep::Terminal => "ghostty_terminal_new"@,
                SetupStep::Userdata => "set USERDATA"@,
                SetupStep::WritePty => "set WRITE_PTY"@,
                SetupStep::RenderState => "render state"@,
                SetupStep::RowIterator => "row iter"@,
                SetupStep::RowCells => "cells iter"@,
            }),
    {
        match *self {
            SetupStep::Terminal => "ghostty_terminal_new",
            SetupStep::Userdata => "set USERDATA",
            SetupStep::WritePty => "set WRITE_PTY",
            SetupStep::RenderState => "render state",
            SetupStep::RowIterator => "row iter",
            SetupStep::RowCells => "cells iter",
        }
    }
}

/// A terminal that is being opened: the call to make next, and the handles so
/// far.
#[derive(Clone, Copy, Debug, PartialEq, Eq, Structural)]
pub struct Setup {
    pub step: SetupStep,
    pub cols: u16,
    pub rows: u16,
    pub max_scrollback: usize,
    pub term: usize,
    pub state: usize,
    pub row_iterator: usize,
}

/// What follows a reply during the setup.
#[derive(Clone, Copy, Debug, PartialEq, Eq, Structural)]
pub enum Opening {
    Next(Setup),
    Open(Vt),
}

impl Setup {
    /// What follows an accepted reply.
    pub open spec fn after(self, handle: usize) -> Opening {
        match self.step {
            SetupStep::Terminal => Opening::Next(
                Setup { step: SetupStep::Userdata, term: handle, ..self },
            ),
            SetupStep::Userdata => Opening::Next(Setup { step: SetupStep::WritePty, ..self }),
            SetupStep::WritePty => Opening::Next(Setup { step: SetupStep::RenderState, ..self }),
            SetupStep::RenderState => Opening::Next(
                Setup { step: SetupStep::RowIterator, state: handle, ..self },
            ),
            SetupStep::RowIterator => Opening::Next(
                Setup { step: SetupStep::RowCells, row_iterator: handle, ..self },
            ),
            SetupStep::RowCells => Opening::Open(
                Vt {
                    term: self.term,
                    state: self.state,
                    rows: self.row_iterator,
                    cells: handle,
                    pin: 0,
                },
            ),
        }
    }

    /// Takes the reply to the call of this step. A refused reply names the
    /// step that failed.
    pub fn reply(self, code: i32, handle: usize) -> (res: Result<Opening, SetupStep>)
        ensures
            match res {
                Ok(opening) => self.step.accepts(code, handle) && opening == self.after(handle),
                Err(step) => !self.step.accepts(code, handle) && step == self.step,
            },
    {
        if code != SUCCESS {
            return Err(self.step);
        }
        match self.step {
            SetupStep::Userdata => Ok(
                Opening::Next(Setup { step: SetupStep::WritePty, ..self }),
            ),
            SetupStep::WritePty => Ok(
                Opening::Next(Setup { step: SetupStep::RenderState, ..self }),
            ),
            _ => {
                if handle == 0 {
                    return Err(self.step);
                }
                match self.step {
                    SetupStep::Terminal => Ok(
                        Opening::Next(Setup { step: SetupStep::Userdata, term: handle, ..self }),
                    ),
                    SetupStep::RenderState => Ok(
                        Opening::Next(
                            Setup { step: SetupStep::RowIterator, state: handle, ..self },
                        ),
                    ),
                    SetupStep::RowIterator => Ok(
                        Opening::Next(
                            Setup { step: SetupStep::RowCells, row_iterator: handle, ..self },
                        ),
                    ),
                    _ => Ok(
                        Opening::Open(
                            Vt {
                                term: self.term,
                                state: self.state,
                                rows: self.row_iterator,
                                cells: handle,
                                pin: 0,
                            },
                        ),
                    ),
                }
            },
        }
    }
}

// --- the terminal ------------------------------------------------------------

/// All per-tick terminal scalars.
#[derive(Clone, Copy, Debug, PartialEq, Eq, Structural)]
pub struct Scalars {
    pub alt: bool,
    pub cols: u16,
    pub rows: u16,
    pub scrollback_rows: u64,
    pub cursor_x: u16,
    pub cursor_y: u16,
}

/// The values that one question for the scalars brings back.
#[derive(Clone, Copy, Debug)]
pub struct ScalarsReply {
    pub screen: u32,
    pub cols: u16,
    pub rows: u16,
    pub scrollback_rows: usize,
    pub cursor_x: u16,
    pub cursor_y: u16,
}

/// What a step to the next cell brings back: whether there was one, and its
/// raw value, style and decoded fields.
#[derive(Clone, Copy, Debug)]
pub struct CellReply {
    pub more: bool,
    pub raw: u64,
    pub style: Style,
    pub codepoint: u32,
    pub tag: u32,
    pub wide: u32,
}

/// The call that puts the pin at the active top-left: a new pin, or a move of
/// the one there is.
#[derive(Clone, Copy, Debug, PartialEq, Eq, Structural)]
pub enum PinCall {
    Track,
    Move(usize),
}

/// A handle to release.
#[derive(Clone, Copy, Debug, PartialEq, Eq, Structural)]
pub enum Release {
    RowCells(usize),
    RowIterator(usize),
    RenderState(usize),
    Pin(usize),
    Terminal(usize),
}

/// A place in a terminal: relative to the active area, or to the whole screen
/// with its scrollback.
#[derive(Clone, Copy, Debug, PartialEq, Eq, Structural)]
pub enum Point {
    Active { x: u16, y: u32 },
    Screen { x: u16, y: u32 },
}

/// The top-left cell of the active area.
pub fn active_origin() -> (res: Point)
    ensures
        res == (Point::Active { x: 0, y: 0 }),
{
    Point::Active { x: 0, y: 0 }
}

/// Whether a write callback carries anything for the pty: a length and an
/// address that are not zero.
pub fn carries_bytes(len: usize, data: usize) -> (res: bool)
    ensures
        res == (len != 0 && data != 0),
{
    len != 0 && data != 0
}

/// One ghostty terminal plus its render-state machinery and the tracked grid
/// ref that serves as a scroll odometer (the pin, null while there is none).
#[derive(Clone, Copy, Debug, PartialEq, Eq, Structural)]
pub struct Vt {
    pub term: usize,
    pub state: usize,
    pub rows: usize,
    pub cells: usize,
    pub pin: usize,
}

impl Vt {
    /// Starts to open a terminal of the given size.
    pub fn new(cols: u16, rows: u16, max_scrollback: usize) -> (res: Setup)
        ensures
            res == (Setup {
                step: SetupStep::Terminal,
                cols,
                rows,
                max_scrollback,
                term: 0,
                state: 0,
                row_iterator: 0,
            }),
    {
        Setup {
            step: SetupStep::Terminal,
            cols,
            rows,
            max_scrollback,
            term: 0,
            state: 0,
            row_iterator: 0,
        }
    }

    /// The scalars that a reply holds.
    pub fn scalars(&self, reply: &ScalarsReply) -> (res: Scalars)
        ensures
            res == (Scalars {
                alt: reply.screen == SCREEN_ALTERNATE,
                cols: reply.cols,
                rows: reply.rows,
                scrollback_rows: reply.scrollback_rows as u64,
                cursor_x: reply.cursor_x,
                cursor_y: reply.cursor_y,
            }),
    {
        Scalars {
            alt: reply.screen == SCREEN_ALTERNATE,
            cols: reply.cols,
            rows: reply.rows,
            scrollback_rows: reply.scrollback_rows as u64,
            cursor_x: reply.cursor_x,
            cursor_y: reply.cursor_y,
        }
    }

    /// Whether there is a pin.
    pub fn has_pin(&self) -> (res: bool)
        ensures
            res == (self.pin != 0),
    {
        self.pin != 0
    }

    /// Screen-space y of the pinned cell, or nothing if there is no pin or it
    /// was lost.
    pub fn pin_screen_y(&self, code: i32, y: u32) -> (res: Option<u64>)
        ensures
            res == (if self.pin != 0 && code == SUCCESS {
                Some(y as u64)
            } else {
                None
            }),
    {
        if self.pin == 0 {
            return None;
        }
        if code == SUCCESS {
            Some(y as u64)
        } else {
            None
        }
    }

    /// The call to make before `repin`.
    pub fn repin_call(&self) -> (res: PinCall)
        ensures
            res == (if self.pin == 0 {
                PinCall::Track
            } else {
                PinCall::Move(self.pin)
            }),
    {
        if self.pin == 0 {
            PinCall::Track
        } else {
            PinCall::Move(self.pin)
        }
    }

    /// The pin after the reply to `repin_call`.
    pub open spec fn repinned(self, code: i32, handle: usize) -> Vt {
        Vt {
            pin: if code != SUCCESS {
                0
            } else if self.pin == 0 {
                handle
            } else {
                self.pin
            },
            ..self
        }
    }

    /// The pin to release after the reply to `repin_call`.
    pub open spec fn unpinned(self, code: i32) -> Option<usize> {
        if self.pin != 0 && code != SUCCESS {
            Some(self.pin)
        } else {
            None
        }
    }

    /// Takes the reply to `repin_call`. On failure the pin is dropped, which
    /// sends the caller down the rebuild path next tick; the result is a pin
    /// to release.
    pub fn repin(&mut self, code: i32, handle: usize) -> (res: Option<usize>)
        ensures
            *final(self) == old(self).repinned(code, handle),
            res == old(self).unpinned(code),
    {
        if self.pin == 0 {
            if code == SUCCESS {
                self.pin = handle;
            }
            None
        } else if code != SUCCESS {
            let lost: usize = self.pin;
            self.pin = 0;
            Some(lost)
        } else {
            None
        }
    }

    /// Takes the row iterator and the dirty state of a frame that begins.
    /// Returns whether the whole frame is dirty.
    pub fn begin_frame(&mut self, rows: usize, dirty: u32) -> (res: bool)
        ensures
            *final(self) == (Vt { rows, ..*old(self) }),
            res == (dirty == DIRTY_FULL),
    {
        self.rows = rows;
        dirty == DIRTY_FULL
    }

    /// Takes the reply to a step to the next viewport row: whether there is
    /// one, its dirty flag and its cell iterator.
    pub fn next_row(&mut self, more: bool, dirty: bool, cells: usize) -> (res: Option<bool>)
        ensures
            !more ==> res is None && *final(self) == *old(self),
            more ==> res == Some(dirty) && *final(self) == (Vt { cells, ..*old(self) }),
    {
        if !more {
            return None;
        }
        self.cells = cells;
        Some(dirty)
    }

    /// Takes the reply to a step to the next cell of the current row and
    /// describes it. Past the last cell nothing is described.
    pub fn next_cell(&self, f: &mut CellFacts, reply: &CellReply) -> (res: bool)
        ensures
            res == reply.more,
            !reply.more ==> *final(f) == *old(f),
            reply.more ==> *final(f) == (CellFacts {
                codepoint: reply.codepoint,
                tag: reply.tag,
                wide: reply.wide,
                style: reply.style,
                raw: reply.raw,
            }),
    {
        if !reply.more {
            return false;
        }
        f.style = reply.style;
        f.codepoint = reply.codepoint;
        f.tag = reply.tag;
        f.wide = reply.wide;
        f.raw = reply.raw;
        true
    }

    /// How many code points of the current cell have to be asked for, if any:
    /// the buffer for them has to be that long.
    pub fn graphemes_wanted(&self, len_code: i32, len: u32) -> (res: Option<usize>)
        ensures
            res == (if cluster_len(len_code, len) == 0 {
                None
            } else {
                Some(cluster_len(len_code, len) as usize)
            }),
    {
        if len_code != SUCCESS || len == 0 {
            return None;
        }
        Some(len as usize)
    }

    /// Appends the current cell's grapheme cluster to `out`: `buf` holds what
    /// the question for the code points brought, if it was put.
    pub fn cell_graphemes(
        &self,
        out: &mut String,
        len_code: i32,
        len: u32,
        buf_code: i32,
        buf: &Vec<u32>,
    )
        requires
            cluster_len(len_code, len) <= buf@.len(),
        ensures
            final(out)@ == old(out)@ + (if buf_code == SUCCESS {
                cluster(buf@.take(cluster_len(len_code, len) as int))
            } else {
                seq![]
            }),
    {
        let ghost before = out@;
        assert(cluster(buf@.take(0)) =~= seq![]);
        assert(before + seq![] =~= before);
        if let Some(n) = self.graphemes_wanted(len_code, len) {
            if buf_code == SUCCESS {
                push_cluster(out, buf, n);
            }
        }
    }

    /// The place to ask for before `history_row`. Rows are counted in 32 bits,
    /// so beyond them there is no row to ask for.
    pub fn history_point(screen_y: u64) -> (res: Option<Point>)
        ensures
            res == (if screen_y <= u32::MAX {
                Some(Point::Screen { x: 0, y: screen_y as u32 })
            } else {
                None
            }),
    {
        if screen_y <= u32::MAX as u64 {
            Some(Point::Screen { x: 0, y: screen_y as u32 })
        } else {
            None
        }
    }

    /// The scrollback row that a reply names: none where the question failed
    /// or brought no page.
    pub fn history_row(&self, code: i32, node: usize, x: u16, y: u16) -> (res: Option<HistRow>)
        ensures
            res == (if code == SUCCESS && node != 0 {
                Some(HistRow { node, x, y })
            } else {
                None
            }),
    {
        if code == SUCCESS && node != 0 {
            Some(HistRow { node, x, y })
        } else {
            None
        }
    }

    /// What closing a terminal releases, in order: what was made last goes
    /// first, and the terminal last.
    pub open spec fn releases(self) -> Seq<Release> {
        seq![
            Release::RowCells(self.cells),
            Release::RowIterator(self.rows),
            Release::RenderState(self.state),
        ] + (if self.pin == 0 {
            seq![]
        } else {
            seq![Release::Pin(self.pin)]
        }) + seq![Release::Terminal(self.term)]
    }

    /// What to release when the terminal is closed.
    pub fn close(&self) -> (res: Vec<Release>)
        ensures
            res@ == self.releases(),
    {
        let mut res: Vec<Release> = Vec::new();
        res.push(Release::RowCells(self.cells));
        res.push(Release::RowIterator(self.rows));
        res.push(Release::RenderState(self.state));
        if self.pin != 0 {
            res.push(Release::Pin(self.pin));
        }
        res.push(Release::Terminal(self.term));
        assert(res@ =~= self.releases());
        res
    }
}

// --- scrollback rows ---------------------------------------------------------

/// A grid ref pinned on one scrollback row. Valid only until the terminal is
/// next mutated.
#[derive(Clone, Copy, Debug, PartialEq, Eq, Structural)]
pub struct HistRow {
    pub node: usize,
    pub x: u16,
    pub y: u16,
}

/// What the questions for a scrollback cell bring back: the lookup, the
/// decoded fields, and the style where the cell has one.
#[derive(Clone, Copy, Debug)]
pub struct HistReply {
    pub lookup_code: i32,
    pub raw: u64,
    pub decode_code: i32,
    pub codepoint: u32,
    pub tag: u32,
    pub wide: u32,
    pub has_styling: bool,
    pub style: Style,
}

impl HistReply {
    /// The facts of a cell after these replies.
    pub open spec fn describe(self, f: CellFacts) -> CellFacts {
        if self.lookup_code != SUCCESS {
            f
        } else if self.decode_code != SUCCESS {
            CellFacts { codepoint: self.codepoint, tag: self.tag, wide: self.wide, ..f }
        } else {
            CellFacts {
                codepoint: self.codepoint,
                tag: self.tag,
                wide: self.wide,
                style: if self.has_styling {
                    self.style
                } else {
                    plain_style()
                },
                raw: self.raw,
            }
        }
    }
}

impl HistRow {
    /// Describes the cell at column `x`; false where a question failed.
    pub fn cell(&mut self, x: u16, f: &mut CellFacts, reply: &HistReply) -> (res: bool)
        ensures
            *final(self) == (HistRow { x, ..*old(self) }),
            res == (reply.lookup_code == SUCCESS && reply.decode_code == SUCCESS),
            *final(f) == reply.describe(*old(f)),
    {
        self.x = x;
        if reply.lookup_code != SUCCESS {
            return false;
        }
        f.codepoint = reply.codepoint;
        f.tag = reply.tag;
        f.wide = reply.wide;
        if reply.decode_code != SUCCESS {
            return false;
        }
        f.style = style_default();
        if reply.has_styling {
            f.style = reply.style;
        }
        f.raw = reply.raw;
        true
    }

    /// The room to ask again with, where the buffer was too small for the
    /// cluster: as much as the reply says it takes.
    pub fn graphemes_room(&self, code: i32, len: usize) -> (res: Option<usize>)
        ensures
            res == (if code == OUT_OF_SPACE {
                Some(len)
            } else {
                None
            }),
    {
        if code == OUT_OF_SPACE {
            Some(len)
        } else {
            None
        }
    }

    /// Appends the current cell's grapheme cluster to `out`: the first `len`
    /// code points of `buf`, where the question for them succeeded.
    pub fn graphemes(&self, out: &mut String, code: i32, buf: &Vec<u32>, len: usize)
        requires
            code == SUCCESS ==> len <= buf@.len(),
        ensures
            final(out)@ == old(out)@ + (if code == SUCCESS {
                cluster(buf@.take(len as int))
            } else {
                seq![]
            }),
    {
        let ghost before = out@;
        assert(before + seq![] =~= before);
        if code == SUCCESS {
            push_cluster(out, buf, len);
        }
    }
}

// --- laws --------------------------------------------------------------------

/// Six accepted replies, in the order of the calls, open a terminal with
/// exactly the handles they brought and without a pin.
pub proof fn accepted_replies_open_a_terminal(
    setup: Setup,
    term: usize,
    state: usize,
    rows: usize,
    cells: usize,
    unused: usize,
)
    requires
        setup.step is Terminal,
    ensures
        setup.after(term) matches Opening::Next(a) && a.after(unused) matches Opening::Next(b)
            && b.after(unused) matches Opening::Next(c) && c.after(state) matches Opening::Next(d)
            && d.after(rows) matches Opening::Next(e) && e.after(cells) == Opening::Open(
            Vt { term, state, rows, cells, pin: 0 },
        ),
{
}

/// After a repin there is a pin exactly if the call succeeded and a handle is
/// there.
pub proof fn repin_keeps_pin_on_success(vt: Vt, code: i32, handle: usize)
    ensures
        (vt.repinned(code, handle).pin != 0) == (code == SUCCESS && (vt.pin != 0 || handle != 0)),
{
}

/// The pins that are alive.
pub open spec fn live_pins(vt: Vt) -> Multiset<usize> {
    if vt.pin == 0 {
        Multiset::empty()
    } else {
        Multiset::singleton(vt.pin)
    }
}

/// The pins that a repin makes.
pub open spec fn made_pins(vt: Vt, code: i32, handle: usize) -> Multiset<usize> {
    if vt.pin == 0 && code == SUCCESS && handle != 0 {
        Multiset::singleton(handle)
    } else {
        Multiset::empty()
    }
}

/// The pins that a repin releases.
pub open spec fn released_pins(vt: Vt, code: i32) -> Multiset<usize> {
    match vt.unpinned(code) {
        Some(pin) => Multiset::singleton(pin),
        None => Multiset::empty(),
    }
}

/// No pin is lost and none is released twice: what was alive and what a repin
/// makes is alive after it or released by it.
pub proof fn pins_are_accounted_for(vt: Vt, code: i32, handle: usize)
    ensures
        live_pins(vt).add(made_pins(vt, code, handle)) == live_pins(
            vt.repinned(code, handle),
        ).add(released_pins(vt, code)),
{
    assert(live_pins(vt).add(made_pins(vt, code, handle)) =~= live_pins(
        vt.repinned(code, handle),
    ).add(released_pins(vt, code)));
}

/// Closing releases a pin exactly if there is one, after everything made from
/// the terminal's render state and before the terminal itself.
pub proof fn close_releases_everything(vt: Vt)
    ensures
        vt.releases().contains(Release::RowCells(vt.cells)),
        vt.releases().contains(Release::RowIterator(vt.rows)),
        vt.releases().contains(Release::RenderState(vt.state)),
        vt.pin != 0 <==> vt.releases().contains(Release::Pin(vt.pin)),
        vt.releases().last() == Release::Terminal(vt.term),
        vt.releases().no_duplicates(),
{
    let all = vt.releases();
    assert(all[0] == Release::RowCells(vt.cells));
    assert(all[1] == Release::RowIterator(vt.rows));
    assert(all[2] == Release::RenderState(vt.state));
    if vt.pin != 0 {
        assert(all[3] == Release::Pin(vt.pin));
    }
}

/// The text of a grapheme cluster is never longer than the cluster, and where
/// every number is a character it is exactly those characters.
pub proof fn cluster_of_characters(cps: Seq<u32>)
    ensures
        cluster(cps).len() <= cps.len(),
        (forall|i: int| 0 <= i < cps.len() ==> is_scalar(#[trigger] cps[i])) ==> cluster(cps)
            == cps.map_values(|cp: u32| cp as char),
    decreases cps.len(),
{
    let chars = cps.map_values(|cp: u32| cp as char);
    if cps.len() > 0 {
        let rest = cps.drop_last();
        cluster_of_characters(rest);
        if forall|i: int| 0 <= i < cps.len() ==> is_scalar(#[trigger] cps[i]) {
            assert forall|i: int| 0 <= i < rest.len() implies is_scalar(#[trigger] rest[i]) by {
                assert(is_scalar(cps[i]));
            }
            assert(is_scalar(cps[cps.len() - 1]));
            assert(cluster(cps) =~= chars);
        }
    } else {
        assert(cluster(cps) =~= chars);
    }
}

/// Which numbers make it into the text of a cluster: all but the surrogates
/// and those past the last plane, each as its own character, in order.
pub proof fn clusters_join(a: Seq<u32>, b: Seq<u32>, cp: u32)
    ensures
        cluster(a + b) == cluster(a) + cluster(b),
        cluster(seq![cp]) == (if (0xd800 <= cp && cp <= 0xdfff) || cp > 0x10ffff {
            seq![]
        } else {
            seq![cp as char]
        }),
    decreases b.len(),
{
    assert(seq![cp].drop_last() =~= seq![]);
    assert(cluster(seq![]) =~= seq![]);
    if b.len() == 0 {
        assert(a + b =~= a);
        assert(cluster(a) + cluster(b) =~= cluster(a));
    } else {
        clusters_join(a, b.drop_last(), cp);
        assert((a + b).drop_last() =~= a + b.drop_last());
        assert((a + b).last() == b.last());
        assert(cluster(a + b) =~= cluster(a) + cluster(b));
    }
}

/// The setup goes on only with a reply of zero, and, where the call makes
/// something, with a handle that is not null. Only the two options that are
/// set on the terminal make nothing.
pub proof fn setup_takes_no_null_handle(step: SetupStep, code: i32, handle: usize)
    ensures
        step.accepts(code, handle) <==> code == 0 && (handle != 0 || step is Userdata || step
            is WritePty),
{
}

/// The color in a cell is asked for where its content tag says that it is one:
/// 2 a palette index, 3 an rgb value.
pub proof fn only_color_cells_are_asked_for_color(f: CellFacts)
    ensures
        f.query() is Palette <==> f.tag == 2,
        f.query() is Rgb <==> f.tag == 3,
        f.query() is Nothing <==> f.tag != 2 && f.tag != 3,
{
}

/// What the replies for a scrollback cell change: nothing where the lookup
/// failed; the decoded fields else; style and raw value only where decoding
/// succeeded too, the style of a cell without one being plain, without any
/// color or attribute.
pub proof fn failed_lookups_leave_the_cell(r: HistReply, f: CellFacts)
    ensures
        ({
            let g = r.describe(f);
            &&& r.lookup_code != 0 ==> g == f
            &&& r.lookup_code == 0 ==> g.codepoint == r.codepoint && g.tag == r.tag && g.wide
                == r.wide
            &&& r.lookup_code == 0 && r.decode_code != 0 ==> g.style == f.style && g.raw == f.raw
            &&& r.lookup_code == 0 && r.decode_code == 0 ==> g.raw == r.raw
            &&& r.lookup_code == 0 && r.decode_code == 0 && r.has_styling ==> g.style == r.style
            &&& r.lookup_code == 0 && r.decode_code == 0 && !r.has_styling ==> {
                let st = g.style;
                &&& !st.bold && !st.italic && !st.faint && !st.blink && !st.inverse
                &&& !st.invisible && !st.strikethrough && !st.overline && st.underline == 0
                &&& st.fg_color.tag == 0 && st.bg_color.tag == 0 && st.underline_color.tag == 0
            }
        }),
{
}

/// A pin outlives a repin exactly if the call succeeded, and is then the same
/// one; without a pin the one that the call made is taken. A pin whose call
/// failed is handed back for release, and nothing else of the terminal
/// changes.
pub proof fn repin_replaces_nothing_else(vt: Vt, code: i32, handle: usize)
    ensures
        ({
            let after = vt.repinned(code, handle);
            &&& after.term == vt.term && after.state == vt.state
            &&& after.rows == vt.rows && after.cells == vt.cells
            &&& code == 0 && vt.pin != 0 ==> after.pin == vt.pin
            &&& code == 0 && vt.pin == 0 ==> after.pin == handle
            &&& code != 0 ==> after.pin == 0
            &&& vt.unpinned(code) is Some <==> code != 0 && vt.pin != 0
            &&& vt.unpinned(code) matches Some(p) ==> p == vt.pin
        }),
{
}

/// Closing goes backwards: cells, rows, render state, then the pin where there
/// is one, and the terminal last.
pub proof fn close_goes_backwards(vt: Vt)
    ensures
        vt.releases().len() == (if vt.pin == 0 {
            4int
        } else {
            5int
        }),
        vt.releases()[0] == Release::RowCells(vt.cells),
        vt.releases()[1] == Release::RowIterator(vt.rows),
        vt.releases()[2] == Release::RenderState(vt.state),
        vt.pin != 0 ==> vt.releases()[3] == Release::Pin(vt.pin),
        vt.releases().last() == Release::Terminal(vt.term),
{
}

/// The setup asks for the calls in order and keeps what it was started with:
/// each accepted reply leads to the next call, and the last one opens the
/// terminal.
pub proof fn setup_steps_follow_in_order(setup: Setup, handle: usize)
    ensures
        match setup.after(handle) {
            Opening::Next(n) => {
                &&& n.cols == setup.cols && n.rows == setup.rows
                &&& n.max_scrollback == setup.max_scrollback
                &&& setup.step is Terminal <==> n.step is Userdata
                &&& setup.step is Userdata <==> n.step is WritePty
                &&& setup.step is WritePty <==> n.step is RenderState
                &&& setup.step is RenderState <==> n.step is RowIterator
                &&& setup.step is RowIterator <==> n.step is RowCells
            },
            Opening::Open(_) => setup.step is RowCells,
        },
{
}

} // verus!
