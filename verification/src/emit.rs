//! Frame production: what changed on the screen since the last frame, and
//! whether it ships as a keyframe or as a diff.
//!
//! A tick goes in three steps. `damage_range` says which rows to ask the
//! emulator about, `rows_to_render` which rows to read back, and `produce`
//! turns them into the next frame, or into nothing when nothing visible
//! changed. Clock readings are nanoseconds from one fixed origin.
use crate::cache;
use crate::cache::{RowCache, RowText};
use crate::client;
use crate::page;
use crate::row;
use crate::row::{render_cursor_into, render_row_into, Line};
use crate::text;
use crate::text::{push_decimal, push_decimal_int};
use vstd::prelude::*;

verus! {

/// How long the cursor must stay hidden before the client is told, in
/// nanoseconds. Long enough to swallow the hide and show of a repaint, short
/// enough that a real hide reads as immediate.
pub const CURSOR_HIDE_GRACE: u64 = 120_000_000;

/// A cursor: its row from the top of the scrollback, its column, and whether
/// it is shown.
#[derive(Clone, Copy, PartialEq, Eq, Debug, Structural)]
pub struct Cursor {
    pub row: usize,
    pub col: usize,
    pub visible: bool,
}

/// What one tick reads off the terminal, its rows aside.
#[derive(Clone, Copy, Debug)]
pub struct ScreenView {
    /// sequence number of the terminal's last change
    pub seqno: usize,
    /// whether the alternate screen is active
    pub alt: bool,
    pub cols: usize,
    pub rows: usize,
    /// rows in scrollback and viewport together
    pub total: usize,
    /// stable row id of the oldest row
    pub base: isize,
    pub cursor_x: usize,
    /// cursor row from the top of the viewport
    pub cursor_y: i64,
    pub cursor_visible: bool,
}

/// One frame of output.
#[derive(Debug)]
pub enum Frame {
    /// a keyframe: the whole grid
    Screen { seqno: usize, cols: usize, rows: usize, html: String },
    /// what changed since the previous frame
    Diff { seqno: usize, target: String, patch: String, append: String, trim: Vec<String> },
}

/// The state of the emitter: what the client has, and what it was made from.
#[derive(Debug)]
pub struct EmitState {
    pub target: String,
    /// the rendered rows
    pub cache: RowCache,
    pub last_seqno: usize,
    pub last_base: isize,
    pub last_max: isize,
    pub last_cols: usize,
    pub last_rows: usize,
    pub last_alt: bool,
    /// the cursor the client has; its position only ever comes from a sample
    /// taken while the cursor was visible, or from the first frame
    pub shown_cursor: Cursor,
    /// when the terminal's cursor went hidden, cleared when it comes back
    pub hidden_since: Option<u64>,
    pub sent_initial: bool,
    pub last_keyframe: u64,
    pub dirty_since_keyframe: bool,
    /// sequence number of the last scan for bare urls
    pub scan_seqno: usize,
}

// --- the model ---------------------------------------------------------------

/// The integers from `lo` up to `hi`, `hi` not among them.
pub open spec fn span(lo: int, hi: int) -> Seq<int> {
    Seq::new(
        if lo < hi {
            (hi - lo) as nat
        } else {
            0
        },
        |i: int| lo + i,
    )
}

/// The greater of two integers.
pub open spec fn max(a: int, b: int) -> int {
    if a < b {
        b
    } else {
        a
    }
}

/// The smaller of two integers.
pub open spec fn min(a: int, b: int) -> int {
    if a < b {
        a
    } else {
        b
    }
}

/// Each number is greater than those before it.
pub open spec fn increasing(s: Seq<int>) -> bool {
    forall|i: int, j: int| 0 <= i < j < s.len() ==> #[trigger] s[i] < #[trigger] s[j]
}

/// The row ids of a vector.
pub open spec fn ids(v: Seq<isize>) -> Seq<int> {
    Seq::new(v.len(), |i: int| v[i] as int)
}

/// The time from `since` to `now`; none where `now` is the earlier.
pub open spec fn elapsed(since: u64, now: u64) -> nat {
    if since <= now {
        (now - since) as nat
    } else {
        0
    }
}

impl ScreenView {
    /// The stable row id after the newest row.
    pub open spec fn end(self) -> int {
        self.base + self.total
    }

    /// The cursor as the terminal has it.
    pub open spec fn raw_cursor(self) -> Cursor {
        Cursor {
            row: (max(self.total - self.rows, 0) + max(self.cursor_y as int, 0)) as usize,
            col: self.cursor_x,
            visible: self.cursor_visible,
        }
    }

    /// The row ids and the cursor row are within the range of their types.
    pub open spec fn valid(self) -> bool {
        &&& self.total <= isize::MAX
        &&& self.end() <= isize::MAX
        &&& self.rows <= isize::MAX
        &&& self.end() - self.rows >= isize::MIN
        &&& max(self.total - self.rows, 0) + max(self.cursor_y as int, 0) <= usize::MAX
    }
}

/// The rows `which`, rendered from `lines`.
pub open spec fn rendered_rows(
    target: Seq<char>,
    cols: nat,
    which: Seq<int>,
    lines: Seq<Line>,
) -> Seq<RowText> {
    Seq::new(
        which.len(),
        |i: int|
            RowText { id: which[i], html: row::row_html(target, lines[i], cols, which[i]) },
    )
}

/// The markup of a keyframe.
pub open spec fn screen_html(
    target: Seq<char>,
    cols: nat,
    rows: nat,
    cursor: Cursor,
    grid: Seq<RowText>,
) -> Seq<char> {
    "<div id=\""@ + target + "\" data-cols=\""@ + text::decimal(cols) + "\" data-rows=\""@
        + text::decimal(rows) + "\">"@ + row::cursor_html(
        target,
        cursor.row as nat,
        cursor.col as nat,
        cursor.visible,
    ) + cache::joined(grid) + "</div>"@
}

impl EmitState {
    /// The rows stand in row order, and the top of the last viewport is
    /// within the range of row ids.
    pub open spec fn valid(self) -> bool {
        &&& self.cache.valid()
        &&& self.last_base <= self.last_max
        &&& self.last_rows <= isize::MAX
        &&& self.last_max - self.last_rows >= isize::MIN
    }

    /// Whether the whole grid has to be rendered again: at the start, and when
    /// a resize or a flip of the screen invalidates what damage is counted
    /// from.
    pub open spec fn forced(self, v: ScreenView) -> bool {
        ||| !self.sent_initial
        ||| v.alt != self.last_alt
        ||| v.cols != self.last_cols
        ||| v.rows != self.last_rows
    }

    /// Since when the cursor is hidden, as of the sample `v`.
    pub open spec fn next_hidden_since(self, v: ScreenView, now: u64) -> Option<u64> {
        if v.cursor_visible {
            None
        } else if self.hidden_since is Some {
            self.hidden_since
        } else {
            Some(now)
        }
    }

    /// The cursor that the client is to have. A hidden sample never moves it,
    /// and hides it only once the grace is over; the first frame takes the
    /// sample as it is.
    pub open spec fn next_cursor(self, v: ScreenView, now: u64) -> Cursor {
        if v.cursor_visible || !self.sent_initial {
            v.raw_cursor()
        } else if elapsed(self.next_hidden_since(v, now)->0, now) >= CURSOR_HIDE_GRACE {
            Cursor { row: self.shown_cursor.row, col: self.shown_cursor.col, visible: false }
        } else {
            self.shown_cursor
        }
    }

    /// First row that may have changed in place: the top of the viewport at
    /// the last frame. Rows above it are frozen.
    pub open spec fn damage_lo(self, v: ScreenView) -> int {
        max(self.last_max - self.last_rows, v.base as int)
    }

    /// The row after the last that may have changed in place.
    pub open spec fn damage_hi(self, v: ScreenView) -> int {
        min(v.end(), self.last_max as int)
    }

    /// Whether there are rows to ask about damage.
    pub open spec fn has_damage_range(self, v: ScreenView) -> bool {
        !self.forced(v) && self.damage_lo(v) < self.damage_hi(v)
    }

    /// The rows that are new since the last frame.
    pub open spec fn appended(self, v: ScreenView) -> Seq<int> {
        if self.forced(v) {
            seq![]
        } else {
            span(max(self.last_max as int, v.base as int), v.end())
        }
    }

    /// The rows that fell off the scrollback since the last frame.
    pub open spec fn trimmed(self, v: ScreenView) -> Seq<int> {
        if self.forced(v) {
            seq![]
        } else {
            span(self.last_base as int, min(v.base as int, self.last_max as int))
        }
    }

    /// `damaged` is an answer to the question that `damage_range` asks: rows
    /// of that range, in row order.
    pub open spec fn damage_answer(self, v: ScreenView, damaged: Seq<int>) -> bool {
        &&& !self.has_damage_range(v) ==> damaged.len() == 0
        &&& forall|i: int|
            0 <= i < damaged.len() ==> self.damage_lo(v) <= #[trigger] damaged[i] < self.damage_hi(v)
        &&& increasing(damaged)
    }

    /// Nothing was touched, nothing is new, gone or due.
    pub open spec fn idle(
        self,
        v: ScreenView,
        damaged: Seq<int>,
        keyframe_due: bool,
        now: u64,
    ) -> bool {
        &&& !self.forced(v)
        &&& !keyframe_due
        &&& damaged.len() == 0
        &&& self.appended(v).len() == 0
        &&& self.trimmed(v).len() == 0
        &&& self.next_cursor(v, now) == self.shown_cursor
    }

    /// The rows whose cells this tick needs.
    pub open spec fn rows_needed(
        self,
        v: ScreenView,
        damaged: Seq<int>,
        keyframe_due: bool,
        now: u64,
    ) -> Seq<int> {
        if self.idle(v, damaged, keyframe_due, now) {
            seq![]
        } else if self.forced(v) {
            span(v.base as int, v.end())
        } else {
            damaged + self.appended(v)
        }
    }

    /// The rows `which`, rendered from `lines`.
    pub open spec fn rendered(
        self,
        v: ScreenView,
        which: Seq<int>,
        lines: Seq<Line>,
    ) -> Seq<RowText> {
        rendered_rows(self.target@, v.cols as nat, which, lines)
    }

    /// The cached rows that are still on the screen.
    pub open spec fn kept(self, v: ScreenView) -> Seq<RowText> {
        cache::rows_from(self.cache@, v.base as int)
    }

    /// The damaged rows that look different now. A row that was touched but
    /// renders to the same bytes is not among them.
    pub open spec fn changed(
        self,
        v: ScreenView,
        damaged: Seq<int>,
        lines: Seq<Line>,
    ) -> Seq<RowText> {
        cache::differing(self.kept(v), self.rendered(v, damaged, lines))
    }

    /// The new rows, rendered. Their lines come after those of the damaged
    /// rows.
    pub open spec fn appended_rows(
        self,
        v: ScreenView,
        damaged: Seq<int>,
        lines: Seq<Line>,
    ) -> Seq<RowText> {
        self.rendered(v, self.appended(v), lines.skip(damaged.len() as int))
    }

    /// Nothing that the client can see has changed, and no keyframe is due.
    pub open spec fn quiet(
        self,
        v: ScreenView,
        damaged: Seq<int>,
        lines: Seq<Line>,
        keyframe_due: bool,
        now: u64,
    ) -> bool {
        &&& !self.forced(v)
        &&& !keyframe_due
        &&& self.changed(v, damaged, lines).len() == 0
        &&& self.appended(v).len() == 0
        &&& self.trimmed(v).len() == 0
        &&& self.next_cursor(v, now) == self.shown_cursor
    }

    /// Whether the frame is a keyframe: one is owed, or it is cheaper than
    /// the patches for more than half the rows.
    pub open spec fn wants_keyframe(
        self,
        v: ScreenView,
        damaged: Seq<int>,
        lines: Seq<Line>,
        keyframe_due: bool,
    ) -> bool {
        ||| self.forced(v)
        ||| keyframe_due
        ||| self.changed(v, damaged, lines).len() + self.appended(v).len() > v.total / 2
    }

    /// The rows of the grid after this tick.
    pub open spec fn next_rows(
        self,
        v: ScreenView,
        damaged: Seq<int>,
        lines: Seq<Line>,
        keyframe_due: bool,
        now: u64,
    ) -> Seq<RowText> {
        if self.idle(v, damaged, keyframe_due, now) {
            self.cache@
        } else if self.forced(v) {
            self.rendered(v, span(v.base as int, v.end()), lines)
        } else {
            cache::put_all(
                cache::put_all(self.kept(v), self.rendered(v, damaged, lines)),
                self.appended_rows(v, damaged, lines),
            )
        }
    }

    /// `f` is the frame of this tick.
    pub open spec fn frame_of(
        self,
        v: ScreenView,
        damaged: Seq<int>,
        lines: Seq<Line>,
        keyframe_due: bool,
        now: u64,
        f: Frame,
    ) -> bool {
        let cursor = self.next_cursor(v, now);
        if self.wants_keyframe(v, damaged, lines, keyframe_due) {
            &&& f matches Frame::Screen { seqno, cols, rows, html }
            &&& seqno == v.seqno
            &&& cols == v.cols
            &&& rows == v.rows
            &&& html@ == screen_html(
                self.target@,
                v.cols as nat,
                v.rows as nat,
                cursor,
                self.next_rows(v, damaged, lines, keyframe_due, now),
            )
        } else {
            &&& f matches Frame::Diff { seqno, target, patch, append, trim }
            &&& seqno == v.seqno
            &&& target@ == self.target@
            &&& patch@ == cache::joined(self.changed(v, damaged, lines)) + (if cursor
                == self.shown_cursor {
                seq![]
            } else {
                row::cursor_html(
                    self.target@,
                    cursor.row as nat,
                    cursor.col as nat,
                    cursor.visible,
                )
            })
            &&& append@ == cache::joined(self.appended_rows(v, damaged, lines))
            &&& trim@.len() == self.trimmed(v).len()
            &&& forall|i: int|
                0 <= i < trim@.len() ==> (#[trigger] trim@[i])@ == row::row_id(
                    self.target@,
                    self.trimmed(v)[i],
                )
        }
    }
}

// --- the emitter -------------------------------------------------------------

fn larger(a: isize, b: isize) -> (res: isize)
    ensures
        res == max(a as int, b as int),
{
    if a < b {
        b
    } else {
        a
    }
}

fn smaller(a: isize, b: isize) -> (res: isize)
    ensures
        res == min(a as int, b as int),
{
    if a < b {
        a
    } else {
        b
    }
}

fn row_span(lo: isize, hi: isize) -> (res: Vec<isize>)
    ensures
        ids(res@) == span(lo as int, hi as int),
{
    let mut res: Vec<isize> = Vec::new();
    let mut at: isize = lo;
    while at < hi
        invariant
            lo <= at,
            at <= hi || at == lo,
            res@.len() == at - lo,
            forall|i: int| 0 <= i < res@.len() ==> res@[i] == lo + i,
        decreases hi - at,
    {
        res.push(at);
        at = at + 1;
    }
    assert(ids(res@) =~= span(lo as int, hi as int));
    res
}

/// Renders the rows `which` from the lines that start at `first` into the
/// cache. Gives back the rows that the cache did not hold just so already.
fn refresh(
    cache: &mut RowCache,
    target: &String,
    cols: usize,
    which: &Vec<isize>,
    lines: &Vec<Line>,
    first: usize,
) -> (fresh: Vec<isize>)
    requires
        old(cache).valid(),
        first + which@.len() <= lines@.len(),
        forall|i: int| 0 <= i < lines@.len() ==> (#[trigger] lines@[i]).valid(),
        increasing(ids(which@)),
    ensures
        final(cache).valid(),
        final(cache)@ == cache::put_all(
            old(cache)@,
            rendered_rows(target@, cols as nat, ids(which@), lines@.skip(first as int)),
        ),
        ids(fresh@) == cache::row_ids(
            cache::differing(
                old(cache)@,
                rendered_rows(target@, cols as nat, ids(which@), lines@.skip(first as int)),
            ),
        ),
{
    let ghost all = rendered_rows(target@, cols as nat, ids(which@), lines@.skip(first as int));
    let ghost before = cache@;
    let mut fresh: Vec<isize> = Vec::new();
    assert(all.take(0) =~= seq![]);
    assert(ids(fresh@) =~= cache::row_ids(cache::differing(before, all.take(0))));
    let available: usize = lines.len();
    for i in 0..which.len()
        invariant
            cache.valid(),
            cache::ascending(before),
            available == lines@.len(),
            first + which@.len() <= available,
            forall|k: int| 0 <= k < lines@.len() ==> (#[trigger] lines@[k]).valid(),
            increasing(ids(which@)),
            all == rendered_rows(target@, cols as nat, ids(which@), lines@.skip(first as int)),
            cache@ == cache::put_all(before, all.take(i as int)),
            ids(fresh@) == cache::row_ids(cache::differing(before, all.take(i as int))),
    {
        let stable: isize = which[i];
        let mut html = String::new();
        let ghost done = all.take(i as int);
        render_row_into(&mut html, target.as_str(), &lines[first + i], cols, stable);
        proof {
            assert(html@ =~= all[i as int].html);
            assert(all.take(i + 1).drop_last() =~= done);
            assert forall|k: int, j: int| 0 <= k < j < done.len() implies (#[trigger] done[k]).id != (
            #[trigger] done[j]).id by {
                assert(ids(which@)[k] < ids(which@)[j]);
            }
            assert forall|k: int| 0 <= k < done.len() implies (#[trigger] done[k]).id != stable by {
                assert(ids(which@)[k] < ids(which@)[i as int]);
            }
            cache::put_all_lookup(before, done, stable as int);
        }
        let known: bool = match cache.get(stable) {
            Some(old_html) => *old_html == html,
            None => false,
        };
        if known {
            proof {
                cache::put_same(cache@, stable as int, html@);
            }
        } else {
            let ghost known_before = fresh@;
            let ghost earlier = cache::differing(before, done);
            proof {
                assert(all.take(i + 1).last() == all[i as int]);
                assert(cache::differing(before, all.take(i + 1)) == earlier.push(all[i as int]));
                assert(ids(known_before).len() == cache::row_ids(earlier).len());
            }
            cache.insert(stable, html);
            fresh.push(stable);
            assert forall|k: int| 0 <= k < fresh@.len() implies ids(fresh@)[k] == cache::row_ids(
                earlier.push(all[i as int]),
            )[k] by {
                if k < known_before.len() {
                    assert(ids(known_before)[k] == cache::row_ids(earlier)[k]);
                }
            }
            assert(ids(fresh@) =~= cache::row_ids(cache::differing(before, all.take(i + 1))));
        }
    }
    assert(all.take(all.len() as int) =~= all);
    fresh
}

/// Appends the cached markup of the rows `which`, which is that of `rows`.
fn push_cached(
    out: &mut String,
    cache: &RowCache,
    which: &Vec<isize>,
    Ghost(rows): Ghost<Seq<RowText>>,
)
    requires
        cache.valid(),
        ids(which@) == cache::row_ids(rows),
        forall|i: int|
            0 <= i < rows.len() ==> cache::lookup(cache@, (#[trigger] rows[i]).id) == Some(
                rows[i].html,
            ),
    ensures
        final(out)@ == old(out)@ + cache::joined(rows),
{
    let ghost before = out@;
    assert(before + cache::joined(rows.take(0)) =~= before);
    assert(which@.len() == ids(which@).len());
    for i in 0..which.len()
        invariant
            cache.valid(),
            which@.len() == rows.len(),
            ids(which@) == cache::row_ids(rows),
            forall|k: int|
                0 <= k < rows.len() ==> cache::lookup(cache@, (#[trigger] rows[k]).id) == Some(
                    rows[k].html,
                ),
            out@ == before + cache::joined(rows.take(i as int)),
    {
        proof {
            assert(ids(which@)[i as int] == cache::row_ids(rows)[i as int]);
            assert(rows.take(i + 1).drop_last() =~= rows.take(i as int));
            assert(rows[i as int].id == which@[i as int]);
        }
        if let Some(html) = cache.get(which[i]) {
            out.push_str(html.as_str());
        }
        assert(out@ =~= before + cache::joined(rows.take(i + 1)));
    }
    assert(rows.take(rows.len() as int) =~= rows);
}

proof fn increasing_len(s: Seq<int>, lo: int, hi: int)
    requires
        increasing(s),
        forall|i: int| 0 <= i < s.len() ==> lo <= #[trigger] s[i] < hi,
    ensures
        s.len() > 0 ==> s.len() <= hi - lo,
    decreases s.len(),
{
    if s.len() > 1 {
        let rest = s.drop_last();
        let last = s[s.len() - 1];
        assert forall|i: int| 0 <= i < rest.len() implies lo <= #[trigger] rest[i] < last by {
            assert(s[i] < s[s.len() - 1]);
        }
        assert forall|i: int, j: int| 0 <= i < j < rest.len() implies #[trigger] rest[i]
            < #[trigger] rest[j] by {
            assert(s[i] < s[j]);
        }
        increasing_len(rest, lo, last);
    } else if s.len() == 1 {
        assert(lo <= s[0] < hi);
    }
}

/// What a tick that is not forced renders: no row twice, no more rows than
/// there are, and each of them found in the cache afterwards.
proof fn tick_facts(was: EmitState, v: ScreenView, damaged: Seq<int>, lines: Seq<Line>)
    requires
        was.valid(),
        !was.forced(v),
        was.damage_answer(v, damaged),
    ensures
        ({
            let drows = was.rendered(v, damaged, lines);
            let arows = was.appended_rows(v, damaged, lines);
            let changed = cache::differing(was.kept(v), drows);
            let grid = cache::put_all(cache::put_all(was.kept(v), drows), arows);
            &&& changed.len() + arows.len() <= v.total
            &&& cache::row_ids(arows) == was.appended(v)
            &&& forall|i: int|
                0 <= i < changed.len() ==> cache::lookup(grid, (#[trigger] changed[i]).id) == Some(
                    changed[i].html,
                )
            &&& forall|i: int|
                0 <= i < arows.len() ==> cache::lookup(grid, (#[trigger] arows[i]).id) == Some(
                    arows[i].html,
                )
        }),
{
    let drows = was.rendered(v, damaged, lines);
    let arows = was.appended_rows(v, damaged, lines);
    let kept = was.kept(v);
    let changed = cache::differing(kept, drows);
    let grid = cache::put_all(cache::put_all(kept, drows), arows);
    let all = drows + arows;
    cache::rows_from_ascending(was.cache@, v.base as int);
    increasing_len(damaged, was.damage_lo(v), was.damage_hi(v));
    cache::differing_len(kept, drows);
    assert(cache::row_ids(arows) =~= was.appended(v));
    cache::put_all_join(kept, drows, arows);
    assert forall|i: int, j: int| 0 <= i < j < all.len() implies (#[trigger] all[i]).id != (
    #[trigger] all[j]).id by {
        if j < drows.len() {
            assert(damaged[i] < damaged[j]);
        } else if i < drows.len() {
            assert(damaged[i] < was.damage_hi(v));
        }
    }
    assert forall|i: int| 0 <= i < changed.len() implies cache::lookup(
        grid,
        (#[trigger] changed[i]).id,
    ) == Some(changed[i].html) by {
        cache::differing_are_fresh(kept, drows, i);
        let j = choose|j: int| 0 <= j < drows.len() && drows[j] == changed[i];
        cache::put_all_lookup(kept, all, changed[i].id);
        assert(all[j].id == changed[i].id);
    }
    assert forall|i: int| 0 <= i < arows.len() implies cache::lookup(
        grid,
        (#[trigger] arows[i]).id,
    ) == Some(arows[i].html) by {
        cache::put_all_lookup(kept, all, arows[i].id);
        assert(all[drows.len() + i].id == arows[i].id);
    }
}

/// The element ids of the rows `which`.
fn row_names(target: &String, which: &Vec<isize>) -> (res: Vec<String>)
    ensures
        res@.len() == which@.len(),
        forall|i: int|
            0 <= i < res@.len() ==> (#[trigger] res@[i])@ == row::row_id(target@, which@[i] as int),
{
    let mut res: Vec<String> = Vec::new();
    for i in 0..which.len()
        invariant
            res@.len() == i,
            forall|k: int|
                0 <= k < i ==> (#[trigger] res@[k])@ == row::row_id(target@, which@[k] as int),
    {
        let mut name = String::new();
        name.push_str(target.as_str());
        name.push_str("-r-");
        push_decimal_int(&mut name, which[i] as i64);
        assert(name@ =~= row::row_id(target@, which@[i as int] as int));
        res.push(name);
    }
    res
}

fn push_screen(out: &mut String, target: &String, cols: usize, rows: usize, cursor: Cursor, cache: &RowCache)
    ensures
        final(out)@ == old(out)@ + screen_html(target@, cols as nat, rows as nat, cursor, cache@),
{
    out.push_str("<div id=\"");
    out.push_str(target.as_str());
    out.push_str("\" data-cols=\"");
    push_decimal(out, cols as u64);
    out.push_str("\" data-rows=\"");
    push_decimal(out, rows as u64);
    out.push_str("\">");
    render_cursor_into(out, target.as_str(), cursor.row, cursor.col, cursor.visible);
    cache.push_rows(out);
    out.push_str("</div>");
    assert(out@ =~= old(out)@ + screen_html(target@, cols as nat, rows as nat, cursor, cache@));
}

impl EmitState {
    /// A state that has sent nothing yet.
    pub fn new(target: String, now: u64) -> (res: Self)
        ensures
            res.valid(),
            res.target@ == target@,
            res.cache@ == Seq::<RowText>::empty(),
            res.last_seqno == 0,
            res.last_base == 0,
            res.last_max == 0,
            res.last_cols == 0,
            res.last_rows == 0,
            !res.last_alt,
            res.shown_cursor == (Cursor { row: usize::MAX, col: usize::MAX, visible: true }),
            res.hidden_since is None,
            !res.sent_initial,
            res.last_keyframe == now,
            !res.dirty_since_keyframe,
            res.scan_seqno == 0,
    {
        EmitState {
            target,
            cache: RowCache::new(),
            last_seqno: 0,
            last_base: 0,
            last_max: 0,
            last_cols: 0,
            last_rows: 0,
            last_alt: false,
            shown_cursor: Cursor { row: usize::MAX, col: usize::MAX, visible: true },
            hidden_since: None,
            sent_initial: false,
            last_keyframe: now,
            dirty_since_keyframe: false,
            scan_seqno: 0,
        }
    }

    /// Time until a pending hide is owed to the client, if one is pending. A
    /// grace can end with no further damage to wake the emitter, so it waits
    /// on this.
    pub fn cursor_hide_due_in(&self, now: u64) -> (res: Option<u64>)
        ensures
            match res {
                None => self.hidden_since is None || !self.shown_cursor.visible,
                Some(due) => self.hidden_since is Some && self.shown_cursor.visible && due == max(
                    CURSOR_HIDE_GRACE - elapsed(self.hidden_since->0, now),
                    0,
                ),
            },
            res matches Some(due) ==> {
                &&& due <= 120_000_000
                &&& self.hidden_since->0 <= now ==> now + due == max(
                    self.hidden_since->0 + 120_000_000,
                    now as int,
                )
            },
    {
        match self.hidden_since {
            None => None,
            Some(since) => {
                if !self.shown_cursor.visible {
                    return None;
                }
                Some(CURSOR_HIDE_GRACE.saturating_sub(now.saturating_sub(since)))
            },
        }
    }

    fn is_forced(&self, v: &ScreenView) -> (res: bool)
        ensures
            res == self.forced(*v),
    {
        !self.sent_initial || v.alt != self.last_alt || v.cols != self.last_cols || v.rows
            != self.last_rows
    }

    fn hidden_since_at(&self, v: &ScreenView, now: u64) -> (res: Option<u64>)
        ensures
            res == self.next_hidden_since(*v, now),
    {
        if v.cursor_visible {
            None
        } else if self.hidden_since.is_some() {
            self.hidden_since
        } else {
            Some(now)
        }
    }

    fn cursor_at(&self, v: &ScreenView, now: u64) -> (res: Cursor)
        requires
            v.valid(),
        ensures
            res == self.next_cursor(*v, now),
    {
        if v.cursor_visible || !self.sent_initial {
            let y: usize = if v.cursor_y > 0 {
                v.cursor_y as usize
            } else {
                0
            };
            return Cursor {
                row: v.total.saturating_sub(v.rows) + y,
                col: v.cursor_x,
                visible: v.cursor_visible,
            };
        }
        let since: u64 = match self.hidden_since {
            Some(t) => t,
            None => now,
        };
        if now.saturating_sub(since) >= CURSOR_HIDE_GRACE {
            Cursor { row: self.shown_cursor.row, col: self.shown_cursor.col, visible: false }
        } else {
            self.shown_cursor
        }
    }

    fn appended_ids(&self, v: &ScreenView) -> (res: Vec<isize>)
        requires
            v.valid(),
        ensures
            ids(res@) == self.appended(*v),
    {
        if self.is_forced(v) {
            let res: Vec<isize> = Vec::new();
            assert(ids(res@) =~= self.appended(*v));
            res
        } else {
            row_span(larger(self.last_max, v.base), v.base + v.total as isize)
        }
    }

    fn trimmed_ids(&self, v: &ScreenView) -> (res: Vec<isize>)
        ensures
            ids(res@) == self.trimmed(*v),
    {
        if self.is_forced(v) {
            let res: Vec<isize> = Vec::new();
            assert(ids(res@) =~= self.trimmed(*v));
            res
        } else {
            row_span(self.last_base, smaller(v.base, self.last_max))
        }
    }

    /// The lowest row that a scan for bare urls has to look at: the top of
    /// the viewport at the last frame, or every row before the first frame.
    pub fn scan_lo(&self) -> (res: Option<isize>)
        requires
            self.valid(),
        ensures
            match res {
                None => !self.sent_initial,
                Some(lo) => self.sent_initial && lo == self.last_max - self.last_rows,
            },
    {
        if self.sent_initial {
            Some(self.last_max - self.last_rows as isize)
        } else {
            None
        }
    }

    /// The range of rows that may have changed in place since the last frame,
    /// if there are any.
    pub fn damage_range(&self, v: &ScreenView) -> (res: Option<(isize, isize)>)
        requires
            self.valid(),
            v.valid(),
        ensures
            match res {
                None => !self.has_damage_range(*v),
                Some((lo, hi)) => self.has_damage_range(*v) && lo == self.damage_lo(*v) && hi
                    == self.damage_hi(*v),
            },
    {
        if self.is_forced(v) {
            return None;
        }
        let lo: isize = larger(self.last_max - self.last_rows as isize, v.base);
        let hi: isize = smaller(v.base + v.total as isize, self.last_max);
        if lo < hi {
            Some((lo, hi))
        } else {
            None
        }
    }

    fn is_idle(
        &self,
        v: &ScreenView,
        damaged: &Vec<isize>,
        appended: &Vec<isize>,
        trimmed: &Vec<isize>,
        keyframe_due: bool,
        now: u64,
    ) -> (res: bool)
        requires
            v.valid(),
            ids(appended@) == self.appended(*v),
            ids(trimmed@) == self.trimmed(*v),
        ensures
            res == self.idle(*v, ids(damaged@), keyframe_due, now),
    {
        assert(appended@.len() == ids(appended@).len());
        assert(trimmed@.len() == ids(trimmed@).len());
        !self.is_forced(v) && !keyframe_due && damaged.len() == 0 && appended.len() == 0
            && trimmed.len() == 0 && self.cursor_at(v, now) == self.shown_cursor
    }

    /// The rows whose cells `produce` needs: all of them when the whole grid
    /// has to be rendered, none when nothing happened, else the damaged rows
    /// and then the new ones.
    pub fn rows_to_render(
        &self,
        v: &ScreenView,
        damaged: &Vec<isize>,
        keyframe_due: bool,
        now: u64,
    ) -> (res: Vec<isize>)
        requires
            v.valid(),
        ensures
            ids(res@) == self.rows_needed(*v, ids(damaged@), keyframe_due, now),
    {
        let appended = self.appended_ids(v);
        let trimmed = self.trimmed_ids(v);
        if self.is_idle(v, damaged, &appended, &trimmed, keyframe_due, now) {
            let res: Vec<isize> = Vec::new();
            assert(ids(res@) =~= Seq::<int>::empty());
            return res;
        }
        if self.is_forced(v) {
            return row_span(v.base, v.base + v.total as isize);
        }
        let mut res: Vec<isize> = Vec::new();
        for i in 0..damaged.len()
            invariant
                res@ == damaged@.take(i as int),
        {
            res.push(damaged[i]);
            assert(res@ =~= damaged@.take(i + 1));
        }
        assert(damaged@.take(damaged@.len() as int) =~= damaged@);
        for i in 0..appended.len()
            invariant
                res@ == damaged@ + appended@.take(i as int),
        {
            res.push(appended[i]);
            assert(res@ =~= damaged@ + appended@.take(i + 1));
        }
        assert(appended@.take(appended@.len() as int) =~= appended@);
        assert(ids(res@) =~= ids(damaged@) + ids(appended@));
        res
    }

    /// The next frame: a keyframe, a diff, or nothing when nothing visible
    /// changed. `damaged` are the rows that the emulator reports as changed
    /// within `damage_range`, `lines` those that `rows_to_render` asks for.
    /// `now` is the clock at the time of the sample, `stamp` the reading to
    /// count the next keyframe from.
    pub fn produce(
        &mut self,
        v: &ScreenView,
        damaged: &Vec<isize>,
        lines: &Vec<Line>,
        keyframe_due: bool,
        now: u64,
        stamp: u64,
    ) -> (res: Option<Frame>)
        requires
            old(self).valid(),
            v.valid(),
            old(self).damage_answer(*v, ids(damaged@)),
            lines@.len() == old(self).rows_needed(*v, ids(damaged@), keyframe_due, now).len(),
            forall|i: int| 0 <= i < lines@.len() ==> (#[trigger] lines@[i]).valid(),
        ensures
            final(self).valid(),
            page::ticked(
                *old(self),
                *final(self),
                *v,
                ids(damaged@),
                lines@,
                keyframe_due,
                now,
            ),
            res is None <==> old(self).quiet(*v, ids(damaged@), lines@, keyframe_due, now),
            res matches Some(f) ==> old(self).frame_of(
                *v,
                ids(damaged@),
                lines@,
                keyframe_due,
                now,
                f,
            ),
            client::keeps_books(*old(self), *final(self), res, stamp),
            final(self).target@ == old(self).target@,
            final(self).cache@ == old(self).next_rows(
                *v,
                ids(damaged@),
                lines@,
                keyframe_due,
                now,
            ),
            final(self).last_seqno == v.seqno,
            final(self).hidden_since == old(self).next_hidden_since(*v, now),
            final(self).scan_seqno == old(self).scan_seqno,
            res is Some ==> {
                &&& final(self).last_base == v.base
                &&& final(self).last_max == v.end()
                &&& final(self).last_cols == v.cols
                &&& final(self).last_rows == v.rows
                &&& final(self).last_alt == v.alt
                &&& final(self).shown_cursor == old(self).next_cursor(*v, now)
                &&& final(self).sent_initial
                &&& final(self).last_keyframe == if res->0 is Screen {
                    stamp
                } else {
                    old(self).last_keyframe
                }
                &&& final(self).dirty_since_keyframe == (res->0 is Diff)
            },
            res is None ==> {
                &&& final(self).last_base == old(self).last_base
                &&& final(self).last_max == old(self).last_max
                &&& final(self).last_cols == old(self).last_cols
                &&& final(self).last_rows == old(self).last_rows
                &&& final(self).last_alt == old(self).last_alt
                &&& final(self).shown_cursor == old(self).shown_cursor
                &&& final(self).sent_initial == old(self).sent_initial
                &&& final(self).last_keyframe == old(self).last_keyframe
                &&& final(self).dirty_since_keyframe == old(self).dirty_since_keyframe
            },
    {
        let ghost was = *self;
        let ghost dam = ids(damaged@);
        let ghost drows = was.rendered(*v, dam, lines@);
        let ghost arows = was.appended_rows(*v, dam, lines@);
        let ghost kept = was.kept(*v);
        let cursor_now = self.cursor_at(v, now);
        let forced = self.is_forced(v);
        let appended = self.appended_ids(v);
        let trimmed = self.trimmed_ids(v);
        let idle = self.is_idle(v, damaged, &appended, &trimmed, keyframe_due, now);
        let cursor_moved = cursor_now != self.shown_cursor;
        let hidden = self.hidden_since_at(v, now);
        let end: isize = v.base + v.total as isize;
        proof {
            assert(damaged@.len() == dam.len());
            assert(appended@.len() == ids(appended@).len());
            assert(trimmed@.len() == ids(trimmed@).len());
        }
        self.hidden_since = hidden;
        if idle {
            self.last_seqno = v.seqno;
            assert(cache::differing(kept, drows) =~= seq![]);
            return None;
        }
        let mut changed: Vec<isize> = Vec::new();
        if forced {
            self.cache.clear();
            let all = row_span(v.base, end);
            let _ = refresh(&mut self.cache, &self.target, v.cols, &all, lines, 0);
            proof {
                let grid = was.rendered(*v, span(v.base as int, v.end()), lines@);
                assert(lines@.skip(0) =~= lines@);
                assert(Seq::<RowText>::empty() + grid =~= grid);
                cache::put_all_append(Seq::<RowText>::empty(), grid);
            }
        } else {
            self.cache.drop_below(v.base);
            changed = refresh(&mut self.cache, &self.target, v.cols, damaged, lines, 0);
            let _ = refresh(
                &mut self.cache,
                &self.target,
                v.cols,
                &appended,
                lines,
                damaged.len(),
            );
            proof {
                assert(lines@.skip(0) =~= lines@);
                tick_facts(was, *v, dam, lines@);
                assert(ids(changed@).len() == cache::row_ids(cache::differing(kept, drows)).len());
            }
        }
        if !forced && !keyframe_due && changed.len() == 0 && appended.len() == 0 && trimmed.len()
            == 0 && !cursor_moved {
            self.last_seqno = v.seqno;
            return None;
        }
        let big = changed.len() + appended.len() > v.total / 2;
        let frame = if forced || big || keyframe_due {
            let mut html = String::new();
            push_screen(&mut html, &self.target, v.cols, v.rows, cursor_now, &self.cache);
            self.last_keyframe = stamp;
            self.dirty_since_keyframe = false;
            Frame::Screen { seqno: v.seqno, cols: v.cols, rows: v.rows, html }
        } else {
            let mut patch = String::new();
            push_cached(&mut patch, &self.cache, &changed, Ghost(cache::differing(kept, drows)));
            if cursor_moved {
                render_cursor_into(
                    &mut patch,
                    self.target.as_str(),
                    cursor_now.row,
                    cursor_now.col,
                    cursor_now.visible,
                );
            }
            let mut append = String::new();
            push_cached(&mut append, &self.cache, &appended, Ghost(arows));
            let trim = row_names(&self.target, &trimmed);
            self.dirty_since_keyframe = true;
            Frame::Diff { seqno: v.seqno, target: self.target.clone(), patch, append, trim }
        };
        self.last_seqno = v.seqno;
        self.last_base = v.base;
        self.last_max = end;
        self.last_cols = v.cols;
        self.last_rows = v.rows;
        self.last_alt = v.alt;
        self.shown_cursor = cursor_now;
        self.sent_initial = true;
        Some(frame)
    }
}

// --- laws of the cursor ------------------------------------------------------

/// Once a frame was sent, a sample taken while the cursor is hidden never
/// moves the cursor that the client has: its coordinates are an artifact of
/// a repaint.
pub proof fn hidden_sample_never_moves_cursor(s: EmitState, v: ScreenView, now: u64)
    requires
        s.sent_initial,
        !v.cursor_visible,
    ensures
        s.next_cursor(v, now).row == s.shown_cursor.row,
        s.next_cursor(v, now).col == s.shown_cursor.col,
{
}

/// A hide reaches the client only if it outlives the grace, and the cursor is
/// shown again the moment a sample has it visible.
pub proof fn hide_outlives_grace(s: EmitState, v: ScreenView, now: u64)
    requires
        s.sent_initial,
        s.shown_cursor.visible,
    ensures
        !s.next_cursor(v, now).visible <==> !v.cursor_visible && s.hidden_since is Some && elapsed(
            s.hidden_since->0,
            now,
        ) >= CURSOR_HIDE_GRACE,
        v.cursor_visible ==> s.next_cursor(v, now) == v.raw_cursor(),
{
}

/// A hide that is owed is delivered: when the wait for it has run out and the
/// cursor is still hidden, the tick emits a frame with a hidden cursor, and
/// nothing is pending afterwards.
pub proof fn owed_hide_is_delivered(
    s: EmitState,
    v: ScreenView,
    damaged: Seq<int>,
    lines: Seq<Line>,
    keyframe_due: bool,
    now: u64,
)
    requires
        s.sent_initial,
        !v.cursor_visible,
        s.hidden_since is Some,
        s.shown_cursor.visible,
        max(CURSOR_HIDE_GRACE - elapsed(s.hidden_since->0, now), 0) == 0,
    ensures
        !s.quiet(v, damaged, lines, keyframe_due, now),
        !s.next_cursor(v, now).visible,
{
}

// --- laws of the frames ------------------------------------------------------

/// The first frame, a resize, a flip of the screen, a due checkpoint and a
/// burst over more than half the rows ship a keyframe; every other frame is a
/// diff.
pub proof fn keyframe_rules(
    s: EmitState,
    v: ScreenView,
    damaged: Seq<int>,
    lines: Seq<Line>,
    keyframe_due: bool,
    now: u64,
    f: Frame,
)
    requires
        s.frame_of(v, damaged, lines, keyframe_due, now, f),
    ensures
        f is Screen <==> {
            ||| !s.sent_initial
            ||| v.cols != s.last_cols || v.rows != s.last_rows
            ||| v.alt != s.last_alt
            ||| keyframe_due
            ||| 2 * (s.changed(v, damaged, lines).len() + s.appended(v).len()) > v.total
        },
{
}

/// An idle terminal emits nothing: where no row is damaged, new or gone, the
/// cursor stands where it was, and no keyframe is owed, there is no frame and
/// no row has to be read.
pub proof fn idle_emits_nothing(
    s: EmitState,
    v: ScreenView,
    damaged: Seq<int>,
    lines: Seq<Line>,
    keyframe_due: bool,
    now: u64,
)
    requires
        s.idle(v, damaged, keyframe_due, now),
    ensures
        s.quiet(v, damaged, lines, keyframe_due, now),
        s.rows_needed(v, damaged, keyframe_due, now).len() == 0,
{
}

/// Touched rows that render to the bytes the client has emit nothing either.
pub proof fn redraw_of_same_bytes_emits_nothing(
    s: EmitState,
    v: ScreenView,
    damaged: Seq<int>,
    lines: Seq<Line>,
    now: u64,
)
    requires
        !s.forced(v),
        s.appended(v).len() == 0,
        s.trimmed(v).len() == 0,
        s.next_cursor(v, now) == s.shown_cursor,
        forall|i: int|
            0 <= i < damaged.len() ==> cache::lookup(s.kept(v), #[trigger] damaged[i]) == Some(
                row::row_html(s.target@, lines[i], v.cols as nat, damaged[i]),
            ),
    ensures
        s.quiet(v, damaged, lines, false, now),
    decreases damaged.len(),
{
    let fresh = s.rendered(v, damaged, lines);
    if damaged.len() == 0 {
        assert(cache::differing(s.kept(v), fresh) =~= seq![]);
    } else {
        let rest = damaged.drop_last();
        assert forall|i: int| 0 <= i < rest.len() implies cache::lookup(
            s.kept(v),
            #[trigger] rest[i],
        ) == Some(row::row_html(s.target@, lines[i], v.cols as nat, rest[i])) by {
            assert(rest[i] == damaged[i]);
        }
        redraw_of_same_bytes_emits_nothing(s, v, rest, lines, now);
        assert(fresh.drop_last() =~= s.rendered(v, rest, lines));
        assert(damaged[damaged.len() - 1] == fresh.last().id);
    }
}

// --- the laws in figures -----------------------------------------------------

/// Where the client's cursor is put. A visible sample, and any sample before
/// the first frame, puts it as many rows down as the scrollback is long and
/// the terminal says, in the terminal's column, shown as the terminal shows
/// it. A hidden sample leaves it in place, and takes it off exactly if the
/// terminal's cursor went hidden 120 ms ago or more.
pub proof fn cursor_obeys_the_terminal(s: EmitState, v: ScreenView, now: u64)
    requires
        v.valid(),
    ensures
        ({
            let c = s.next_cursor(v, now);
            let taken = v.cursor_visible || !s.sent_initial;
            let dark = match s.hidden_since {
                Some(since) => now - since >= 120_000_000,
                None => false,
            };
            &&& taken ==> {
                &&& c.visible == v.cursor_visible
                &&& c.col == v.cursor_x
                &&& c.row == (if v.total > v.rows {
                    v.total - v.rows
                } else {
                    0
                }) + (if v.cursor_y > 0 {
                    v.cursor_y as int
                } else {
                    0
                })
            }
            &&& !taken ==> {
                &&& c.row == s.shown_cursor.row
                &&& c.col == s.shown_cursor.col
                &&& c.visible == (s.shown_cursor.visible && !dark)
            }
        }),
{
}

/// A hide is counted from its first sample: however many hidden samples
/// follow, the time that counts is that of the first one after the cursor was
/// last seen.
pub proof fn hide_is_counted_from_its_first_sample(
    states: Seq<EmitState>,
    views: Seq<ScreenView>,
    times: Seq<u64>,
    n: nat,
)
    requires
        0 < n < states.len(),
        states[0].hidden_since is None,
        forall|i: int|
            0 <= i < n ==> !(#[trigger] views[i]).cursor_visible && states[i + 1].hidden_since
                == states[i].next_hidden_since(views[i], times[i]),
    ensures
        states[n as int].hidden_since == Some(times[0]),
    decreases n,
{
    assert(!views[n - 1].cursor_visible);
    if n > 1 {
        hide_is_counted_from_its_first_sample(states, views, times, (n - 1) as nat);
    }
}

/// A visible sample ends a hide.
pub proof fn visible_sample_ends_a_hide(s: EmitState, v: ScreenView, now: u64)
    ensures
        s.next_hidden_since(v, now) is None <==> v.cursor_visible,
{
}

/// The rows that are asked about damage are those that were in the viewport
/// at the last frame and are still there. None are where the whole grid has to
/// be rendered: at the start, after a change of size, after a flip.
pub proof fn old_viewport_is_asked_about(s: EmitState, v: ScreenView, id: int)
    ensures
        s.has_damage_range(v) && s.damage_lo(v) <= id < s.damage_hi(v) <==> {
            &&& s.sent_initial
            &&& v.alt == s.last_alt
            &&& v.cols == s.last_cols
            &&& v.rows == s.last_rows
            &&& s.last_max - s.last_rows <= id < s.last_max
            &&& v.base <= id < v.base + v.total
        },
        s.has_damage_range(v) ==> s.damage_lo(v) < s.damage_hi(v),
{
}

/// The rows of a diff that are new, and those that are gone: a row is new if
/// the terminal has it and it comes after all that the last frame knew, and
/// gone if the last frame knew it and the terminal has dropped it. They are
/// listed once each, from the oldest on.
pub proof fn new_and_gone_rows(s: EmitState, v: ScreenView, id: int)
    requires
        !s.forced(v),
    ensures
        s.appended(v).contains(id) <==> s.last_max <= id && v.base <= id < v.base + v.total,
        s.trimmed(v).contains(id) <==> s.last_base <= id < s.last_max && id < v.base,
        increasing(s.appended(v)),
        increasing(s.trimmed(v)),
{
    let a = s.appended(v);
    let t = s.trimmed(v);
    if s.last_max <= id && v.base <= id < v.base + v.total {
        assert(a[id - max(s.last_max as int, v.base as int)] == id);
    }
    if s.last_base <= id < s.last_max && id < v.base {
        assert(t[id - s.last_base] == id);
    }
}

/// Which rows a tick reads. Where the whole grid has to be rendered, all that
/// the terminal has, from the oldest on; else, where anything happened, the
/// damaged rows and then the new ones; else none.
pub proof fn rows_read_by_a_tick(
    s: EmitState,
    v: ScreenView,
    damaged: Seq<int>,
    keyframe_due: bool,
    now: u64,
)
    ensures
        ({
            let needed = s.rows_needed(v, damaged, keyframe_due, now);
            let whole = !s.sent_initial || v.alt != s.last_alt || v.cols != s.last_cols || v.rows
                != s.last_rows;
            let news = keyframe_due || damaged.len() > 0 || s.appended(v).len() > 0 || s.trimmed(
                v,
            ).len() > 0 || s.next_cursor(v, now) != s.shown_cursor;
            &&& whole ==> needed.len() == v.total && forall|i: int|
                0 <= i < v.total ==> #[trigger] needed[i] == v.base + i
            &&& !whole && news ==> needed == damaged + s.appended(v)
            &&& !whole && !news ==> needed.len() == 0
        }),
{
}

proof fn differing_lookup_at(rows: Seq<RowText>, fresh: Seq<RowText>, k: int)
    requires
        0 <= k < fresh.len(),
        forall|i: int, j: int|
            0 <= i < j < fresh.len() ==> (#[trigger] fresh[i]).id != (#[trigger] fresh[j]).id,
    ensures
        cache::lookup(cache::differing(rows, fresh), fresh[k].id) == (if cache::lookup(
            rows,
            fresh[k].id,
        ) == Some(fresh[k].html) {
            None
        } else {
            Some(fresh[k].html)
        }),
    decreases fresh.len(),
{
    let rest = fresh.drop_last();
    let last = fresh[fresh.len() - 1];
    let diff = cache::differing(rows, rest);
    assert forall|i: int, j: int| 0 <= i < j < rest.len() implies (#[trigger] rest[i]).id != (
    #[trigger] rest[j]).id by {
        assert(fresh[i].id != fresh[j].id);
    }
    if k < rest.len() {
        assert(fresh[k].id != last.id);
        differing_lookup_at(rows, rest, k);
        if cache::lookup(rows, last.id) != Some(last.html) {
            assert(cache::differing(rows, fresh).drop_last() =~= diff);
        }
    } else {
        assert forall|i: int| 0 <= i < diff.len() implies (#[trigger] diff[i]).id != last.id by {
            cache::differing_are_fresh(rows, rest, i);
            let j = choose|j: int| 0 <= j < rest.len() && rest[j] == diff[i];
            assert(fresh[j].id != fresh[fresh.len() - 1].id);
        }
        cache::lookup_absent(diff, last.id);
    }
}

/// Of the damaged rows exactly those are patched that do not look as they did:
/// row `damaged[k]` is among them, as it renders now, if that is not the markup
/// that the client has. No other row is patched.
pub proof fn only_differences_are_patched(
    s: EmitState,
    v: ScreenView,
    damaged: Seq<int>,
    lines: Seq<Line>,
    k: int,
)
    requires
        s.valid(),
        !s.forced(v),
        s.damage_answer(v, damaged),
        0 <= k < damaged.len(),
    ensures
        ({
            let now = row::row_html(s.target@, lines[k], v.cols as nat, damaged[k]);
            cache::lookup(s.changed(v, damaged, lines), damaged[k]) == (if cache::lookup(
                s.cache@,
                damaged[k],
            ) == Some(now) {
                None
            } else {
                Some(now)
            })
        }),
        forall|i: int|
            0 <= i < s.changed(v, damaged, lines).len() ==> damaged.contains(
                (#[trigger] s.changed(v, damaged, lines)[i]).id,
            ),
        increasing(cache::row_ids(s.changed(v, damaged, lines))),
{
    let fresh = s.rendered(v, damaged, lines);
    let changed = s.changed(v, damaged, lines);
    assert forall|i: int, j: int| 0 <= i < j < fresh.len() implies (#[trigger] fresh[i]).id != (
    #[trigger] fresh[j]).id by {
        assert(damaged[i] < damaged[j]);
    }
    differing_lookup_at(s.kept(v), fresh, k);
    page::rows_from_lookup(s.cache@, v.base as int, damaged[k]);
    assert(s.damage_lo(v) <= damaged[k]);
    assert forall|i: int| 0 <= i < changed.len() implies damaged.contains(
        (#[trigger] changed[i]).id,
    ) by {
        cache::differing_are_fresh(s.kept(v), fresh, i);
        let j = choose|j: int| 0 <= j < fresh.len() && fresh[j] == changed[i];
        assert(damaged[j] == changed[i].id);
    }
    differing_ascends(s.kept(v), fresh);
}

proof fn differing_ascends(rows: Seq<RowText>, fresh: Seq<RowText>)
    requires
        cache::ascending(fresh),
    ensures
        cache::ascending(cache::differing(rows, fresh)),
    decreases fresh.len(),
{
    if fresh.len() > 0 {
        let rest = fresh.drop_last();
        let last = fresh[fresh.len() - 1];
        let diff = cache::differing(rows, rest);
        let out = cache::differing(rows, fresh);
        assert forall|i: int, j: int| 0 <= i < j < rest.len() implies (#[trigger] rest[i]).id < (
        #[trigger] rest[j]).id by {
            assert(fresh[i].id < fresh[j].id);
        }
        differing_ascends(rows, rest);
        assert forall|i: int, j: int| 0 <= i < j < out.len() implies (#[trigger] out[i]).id < (
        #[trigger] out[j]).id by {
            if j < diff.len() {
                assert(diff[i].id < diff[j].id);
            } else {
                cache::differing_are_fresh(rows, rest, i);
                let m = choose|m: int| 0 <= m < rest.len() && rest[m] == diff[i];
                assert(fresh[m].id < fresh[fresh.len() - 1].id);
            }
        }
    }
}

/// When a tick says nothing: a frame was sent, size and screen are as they
/// were, no keyframe is due, every damaged row looks as it did, no row is new
/// or gone, and the cursor stays as the client has it. In every other case
/// there is a frame.
pub proof fn silence_means_nothing_changed(
    s: EmitState,
    v: ScreenView,
    damaged: Seq<int>,
    lines: Seq<Line>,
    keyframe_due: bool,
    now: u64,
)
    requires
        s.valid(),
        s.damage_answer(v, damaged),
    ensures
        s.quiet(v, damaged, lines, keyframe_due, now) <==> {
            &&& s.sent_initial
            &&& v.alt == s.last_alt
            &&& v.cols == s.last_cols
            &&& v.rows == s.last_rows
            &&& !keyframe_due
            &&& v.total == 0 || v.base + v.total <= s.last_max
            &&& v.base <= s.last_base || s.last_max <= s.last_base
            &&& s.next_cursor(v, now) == s.shown_cursor
            &&& forall|i: int|
                0 <= i < damaged.len() ==> cache::lookup(s.cache@, #[trigger] damaged[i]) == Some(
                    row::row_html(s.target@, lines[i], v.cols as nat, damaged[i]),
                )
        },
{
    if !s.forced(v) {
        let changed = s.changed(v, damaged, lines);
        assert forall|i: int| 0 <= i < damaged.len() && changed.len() == 0 implies cache::lookup(
            s.cache@,
            #[trigger] damaged[i],
        ) == Some(row::row_html(s.target@, lines[i], v.cols as nat, damaged[i])) by {
            only_differences_are_patched(s, v, damaged, lines, i);
        }
        if changed.len() > 0 {
            let fresh = s.rendered(v, damaged, lines);
            cache::differing_are_fresh(s.kept(v), fresh, 0);
            let j = choose|j: int| 0 <= j < fresh.len() && fresh[j] == changed[0];
            only_differences_are_patched(s, v, damaged, lines, j);
            if cache::lookup(s.cache@, damaged[j]) == Some(fresh[j].html) {
                assert forall|a: int, b: int| 0 <= a < b < fresh.len() implies (
                #[trigger] fresh[a]).id < (#[trigger] fresh[b]).id by {
                    assert(damaged[a] < damaged[b]);
                }
                differing_ascends(s.kept(v), fresh);
                cache::lookup_at(changed, 0);
            }
        }
    }
}

/// A frame is stamped with the sample it was made from: its sequence number,
/// and in a keyframe the size of the screen.
pub proof fn frames_are_stamped(
    s: EmitState,
    v: ScreenView,
    damaged: Seq<int>,
    lines: Seq<Line>,
    keyframe_due: bool,
    now: u64,
    f: Frame,
)
    requires
        s.frame_of(v, damaged, lines, keyframe_due, now, f),
    ensures
        match f {
            Frame::Screen { seqno, cols, rows, .. } => seqno == v.seqno && cols == v.cols && rows
                == v.rows,
            Frame::Diff { seqno, target, .. } => seqno == v.seqno && target@ == s.target@,
        },
{
}

} // verus!
