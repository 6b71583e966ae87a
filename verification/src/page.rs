//! What a client shows after following the frames, and why it is what the
//! emitter has: a keyframe replaces the page, a diff brings it to exactly the
//! grid that a keyframe would have carried.
use crate::cache;
use crate::cache::RowText;
use crate::emit;
use crate::emit::{Cursor, EmitState, ScreenView};
use crate::row;
use crate::row::Line;
use vstd::prelude::*;

verus! {

/// A client's page: the rows of the grid in document order, and the cursor.
pub struct Page {
    pub grid: Seq<RowText>,
    pub cursor: Cursor,
}

/// `grid` with each row that is among `changed` morphed to its new markup.
pub open spec fn morphed(grid: Seq<RowText>, changed: Seq<RowText>) -> Seq<RowText> {
    Seq::new(
        grid.len(),
        |i: int|
            match cache::lookup(changed, grid[i].id) {
                Some(html) => RowText { id: grid[i].id, html },
                None => grid[i],
            },
    )
}

/// `grid` without the rows whose ids are among `gone`.
pub open spec fn without(grid: Seq<RowText>, gone: Seq<int>) -> Seq<RowText>
    decreases grid.len(),
{
    if grid.len() == 0 {
        grid
    } else if gone.contains(grid.last().id) {
        without(grid.drop_last(), gone)
    } else {
        without(grid.drop_last(), gone).push(grid.last())
    }
}

/// The page after a diff: changed rows and the cursor are morphed, new rows
/// appended, expired rows removed.
pub open spec fn after_diff(
    page: Page,
    changed: Seq<RowText>,
    appended: Seq<RowText>,
    trimmed: Seq<int>,
    cursor: Cursor,
) -> Page {
    Page { grid: without(morphed(page.grid, changed) + appended, trimmed), cursor }
}

/// The page after the frame of a tick. A keyframe carries the whole page.
pub open spec fn after_frame(
    page: Page,
    s: EmitState,
    v: ScreenView,
    damaged: Seq<int>,
    lines: Seq<Line>,
    keyframe_due: bool,
    now: u64,
) -> Page {
    if s.wants_keyframe(v, damaged, lines, keyframe_due) {
        Page {
            grid: s.next_rows(v, damaged, lines, keyframe_due, now),
            cursor: s.next_cursor(v, now),
        }
    } else {
        after_diff(
            page,
            s.changed(v, damaged, lines),
            s.appended_rows(v, damaged, lines),
            s.trimmed(v),
            s.next_cursor(v, now),
        )
    }
}

/// The page shows what the emitter believes it shows.
pub open spec fn in_sync(page: Page, s: EmitState) -> bool {
    page.grid == s.cache@ && page.cursor == s.shown_cursor
}

/// The cache holds exactly the rows of the screen as of the last frame.
pub open spec fn tracks_screen(s: EmitState) -> bool {
    cache::row_ids(s.cache@) == emit::span(s.last_base as int, s.last_max as int)
}

proof fn lookup_index(rows: Seq<RowText>, id: int) -> (i: int)
    requires
        cache::lookup(rows, id) is Some,
    ensures
        0 <= i < rows.len(),
        rows[i].id == id,
    decreases rows.len(),
{
    if rows.last().id == id {
        rows.len() - 1
    } else {
        lookup_index(rows.drop_last(), id)
    }
}

proof fn morphed_lookup(rows: Seq<RowText>, changed: Seq<RowText>, id: int)
    ensures
        cache::lookup(changed, id) is None ==> cache::lookup(morphed(rows, changed), id)
            == cache::lookup(rows, id),
    decreases rows.len(),
{
    if rows.len() > 0 {
        assert(morphed(rows, changed).drop_last() =~= morphed(rows.drop_last(), changed));
        morphed_lookup(rows.drop_last(), changed, id);
    }
}

proof fn differing_lookup(rows: Seq<RowText>, fresh: Seq<RowText>, id: int)
    requires
        forall|i: int| 0 <= i < fresh.len() ==> (#[trigger] fresh[i]).id != id,
    ensures
        cache::lookup(cache::differing(rows, fresh), id) is None,
    decreases fresh.len(),
{
    if fresh.len() > 0 {
        let rest = fresh.drop_last();
        assert forall|i: int| 0 <= i < rest.len() implies (#[trigger] rest[i]).id != id by {
            assert(fresh[i].id != id);
        }
        differing_lookup(rows, rest, id);
        assert(fresh[fresh.len() - 1].id != id);
        if cache::lookup(rows, fresh.last().id) != Some(fresh.last().html) {
            assert(cache::differing(rows, fresh).drop_last() =~= cache::differing(rows, rest));
        }
    }
}

/// Setting rows that are all there is morphing those that differ.
proof fn put_all_is_morph(rows: Seq<RowText>, fresh: Seq<RowText>)
    requires
        cache::ascending(rows),
        cache::distinct(fresh),
        forall|i: int|
            0 <= i < fresh.len() ==> cache::lookup(rows, (#[trigger] fresh[i]).id) is Some,
    ensures
        cache::put_all(rows, fresh) == morphed(rows, cache::differing(rows, fresh)),
    decreases fresh.len(),
{
    if fresh.len() == 0 {
        assert(morphed(rows, cache::differing(rows, fresh)) =~= rows);
    } else {
        let rest = fresh.drop_last();
        let new = fresh.last();
        assert(new == fresh[fresh.len() - 1]);
        assert forall|i: int, j: int| 0 <= i < j < rest.len() implies (#[trigger] rest[i]).id != (
        #[trigger] rest[j]).id by {
            assert(fresh[i].id != fresh[j].id);
        }
        assert forall|i: int| 0 <= i < rest.len() implies cache::lookup(
            rows,
            (#[trigger] rest[i]).id,
        ) is Some by {
            assert(cache::lookup(rows, fresh[i].id) is Some);
        }
        assert forall|i: int| 0 <= i < rest.len() implies (#[trigger] rest[i]).id != new.id by {
            assert(fresh[i].id != fresh[fresh.len() - 1].id);
        }
        put_all_is_morph(rows, rest);
        let diff = cache::differing(rows, rest);
        let mid = morphed(rows, diff);
        differing_lookup(rows, rest, new.id);
        morphed_lookup(rows, diff, new.id);
        assert forall|i: int, j: int| 0 <= i < j < mid.len() implies (#[trigger] mid[i]).id < (
        #[trigger] mid[j]).id by {
            assert(rows[i].id < rows[j].id);
        }
        if cache::lookup(rows, new.id) == Some(new.html) {
            cache::put_same(mid, new.id, new.html);
        } else {
            let p = lookup_index(rows, new.id);
            assert forall|i: int| 0 <= i < p implies (#[trigger] mid[i]).id < new.id by {
                assert(rows[i].id < rows[p].id);
            }
            assert forall|i: int| p <= i < mid.len() implies new.id <= (#[trigger] mid[i]).id by {
                if i > p {
                    assert(rows[p].id < rows[i].id);
                }
            }
            assert(mid[p].id == new.id);
            cache::put_at(mid, new.id, new.html, p);
            let full = diff.push(new);
            assert(full.drop_last() =~= diff);
            let target = morphed(rows, full);
            let got = mid.update(p, RowText { id: new.id, html: new.html });
            assert forall|i: int| 0 <= i < rows.len() implies got[i] == target[i] by {
                if i == p {
                    assert(cache::lookup(full, rows[i].id) == Some(new.html));
                } else {
                    if i < p {
                        assert(rows[i].id < rows[p].id);
                    } else {
                        assert(rows[p].id < rows[i].id);
                    }
                    assert(cache::lookup(full, rows[i].id) == cache::lookup(diff, rows[i].id));
                }
            }
            assert(got =~= target);
        }
    }
}

proof fn rows_from_morphed(rows: Seq<RowText>, changed: Seq<RowText>, base: int)
    ensures
        cache::rows_from(morphed(rows, changed), base) == morphed(
            cache::rows_from(rows, base),
            changed,
        ),
    decreases rows.len(),
{
    let m = morphed(rows, changed);
    if rows.len() == 0 {
        assert(m =~= rows);
        assert(morphed(cache::rows_from(rows, base), changed) =~= rows);
    } else {
        assert(m.drop_last() =~= morphed(rows.drop_last(), changed));
        rows_from_morphed(rows.drop_last(), changed, base);
        assert(cache::rows_from(m, base) =~= morphed(cache::rows_from(rows, base), changed));
    }
}

/// Removing the rows below `hi`, all of which are named, leaves the others.
proof fn without_span(rows: Seq<RowText>, lo: int, hi: int)
    requires
        forall|i: int| 0 <= i < rows.len() ==> lo <= (#[trigger] rows[i]).id,
    ensures
        without(rows, emit::span(lo, hi)) == cache::rows_from(rows, hi),
    decreases rows.len(),
{
    if rows.len() > 0 {
        let rest = rows.drop_last();
        let last = rows[rows.len() - 1];
        assert forall|i: int| 0 <= i < rest.len() implies lo <= (#[trigger] rest[i]).id by {
            assert(lo <= rows[i].id);
        }
        without_span(rest, lo, hi);
        let gone = emit::span(lo, hi);
        if last.id < hi {
            assert(gone[last.id - lo] == last.id);
        } else {
            assert forall|i: int| 0 <= i < gone.len() implies gone[i] != last.id by {}
        }
    }
}

proof fn rows_from_concat(a: Seq<RowText>, b: Seq<RowText>, base: int)
    ensures
        cache::rows_from(a + b, base) == cache::rows_from(a, base) + cache::rows_from(b, base),
    decreases b.len(),
{
    if b.len() == 0 {
        assert(a + b =~= a);
        assert(cache::rows_from(a, base) + cache::rows_from(b, base) =~= cache::rows_from(a, base));
    } else {
        assert((a + b).drop_last() =~= a + b.drop_last());
        assert((a + b).last() == b.last());
        rows_from_concat(a, b.drop_last(), base);
        assert(cache::rows_from(a + b, base) =~= cache::rows_from(a, base) + cache::rows_from(
            b,
            base,
        ));
    }
}

// --- the laws ----------------------------------------------------------------

/// `after` is what a tick makes of the part of `before` that the client sees.
pub open spec fn ticked(
    before: EmitState,
    after: EmitState,
    v: ScreenView,
    damaged: Seq<int>,
    lines: Seq<Line>,
    keyframe_due: bool,
    now: u64,
) -> bool {
    &&& after.valid()
    &&& after.target@ == before.target@
    &&& after.cache@ == before.next_rows(v, damaged, lines, keyframe_due, now)
    &&& if before.quiet(v, damaged, lines, keyframe_due, now) {
        &&& after.shown_cursor == before.shown_cursor
        &&& after.last_cols == before.last_cols
        &&& after.last_base == before.last_base
        &&& after.last_max == before.last_max
    } else {
        &&& after.shown_cursor == before.next_cursor(v, now)
        &&& after.last_cols == v.cols
        &&& after.last_base == v.base
        &&& after.last_max == v.end()
    }
}

/// A keyframe heals: whatever a client showed before, after a keyframe it
/// shows what the emitter has.
pub proof fn keyframe_heals(
    page: Page,
    before: EmitState,
    after: EmitState,
    v: ScreenView,
    damaged: Seq<int>,
    lines: Seq<Line>,
    keyframe_due: bool,
    now: u64,
)
    requires
        before.wants_keyframe(v, damaged, lines, keyframe_due),
        !before.quiet(v, damaged, lines, keyframe_due, now),
        ticked(before, after, v, damaged, lines, keyframe_due, now),
    ensures
        in_sync(after_frame(page, before, v, damaged, lines, keyframe_due, now), after),
{
}

proof fn diff_brings_grid(s: EmitState, v: ScreenView, damaged: Seq<int>, lines: Seq<Line>)
    requires
        s.valid(),
        !s.forced(v),
        s.damage_answer(v, damaged),
        tracks_screen(s),
        forall|i: int| 0 <= i < damaged.len() ==> s.last_base <= #[trigger] damaged[i],
    ensures
        without(
            morphed(s.cache@, s.changed(v, damaged, lines)) + s.appended_rows(v, damaged, lines),
            s.trimmed(v),
        ) == cache::put_all(
            cache::put_all(s.kept(v), s.rendered(v, damaged, lines)),
            s.appended_rows(v, damaged, lines),
        ),
{
    let g = s.cache@;
    let kept = s.kept(v);
    let drows = s.rendered(v, damaged, lines);
    let arows = s.appended_rows(v, damaged, lines);
    let changed = s.changed(v, damaged, lines);
    let lo = s.last_base as int;
    let hi = s.last_max as int;
    let base = v.base as int;
    assert(g.len() == emit::span(lo, hi).len()) by {
        assert(cache::row_ids(g).len() == emit::span(lo, hi).len());
    }
    assert forall|i: int| 0 <= i < g.len() implies (#[trigger] g[i]).id == lo + i && lo + i < hi by {
        assert(cache::row_ids(g)[i] == emit::span(lo, hi)[i]);
    }
    cache::rows_from_ascending(g, base);
    // every damaged row is one that the page has
    assert forall|i: int| 0 <= i < drows.len() implies cache::lookup(
        kept,
        (#[trigger] drows[i]).id,
    ) is Some by {
        let d = damaged[i];
        assert(s.damage_lo(v) <= d < s.damage_hi(v));
        let p = if base <= lo {
            0
        } else {
            base - lo
        };
        cache::rows_from_at(g, base, p);
        assert(kept[d - lo - p] == g[d - lo]);
        cache::lookup_at(kept, d - lo - p);
    }
    assert forall|i: int, j: int| 0 <= i < j < drows.len() implies (#[trigger] drows[i]).id != (
    #[trigger] drows[j]).id by {
        assert(damaged[i] < damaged[j]);
    }
    put_all_is_morph(kept, drows);
    let p = cache::put_all(kept, drows);
    rows_from_morphed(g, changed, base);
    let m = morphed(g, changed);
    assert(p == cache::rows_from(m, base));
    // the new rows come after all the others
    let whole = p + arows;
    assert forall|i: int| 0 <= i < p.len() implies (#[trigger] p[i]).id < hi by {
        assert(p[i].id == kept[i].id);
        let j = choose|j: int| 0 <= j < g.len() && g[j] == kept[i];
        assert(g[j].id < hi);
    }
    assert forall|i: int, j: int| 0 <= i < j < whole.len() implies (#[trigger] whole[i]).id < (
    #[trigger] whole[j]).id by {
        if j < p.len() {
            assert(kept[i].id < kept[j].id);
        } else if i < p.len() {
            assert(p[i].id < hi);
        }
    }
    cache::put_all_append(p, arows);
    // the trimmed rows are those below the new base
    let all = m + arows;
    let cut = emit::min(base, hi);
    assert forall|i: int| 0 <= i < all.len() implies lo <= (#[trigger] all[i]).id by {
        if i < m.len() {
            assert(m[i].id == g[i].id);
        } else {
            assert(arows[i - m.len()].id >= hi);
        }
    }
    without_span(all, lo, cut);
    rows_from_concat(m, arows, cut);
    cache::rows_from_at(arows, cut, 0);
    assert(arows.skip(0) =~= arows);
    if base <= hi {
        assert(cut == base);
    } else {
        assert forall|i: int| 0 <= i < m.len() implies (#[trigger] m[i]).id < hi by {
            assert(m[i].id == g[i].id);
        }
        cache::rows_from_at(m, hi, m.len() as int);
        cache::rows_from_at(m, base, m.len() as int);
    }
}

/// A client that follows every frame shows what the emitter has: the changed
/// rows, the appended rows and the trimmed ids of a diff bring a page that
/// was in sync to exactly the grid and cursor that a keyframe would carry.
/// The rows that the emulator reports as damaged are rows that the page has.
pub proof fn frames_keep_page_in_sync(
    page: Page,
    before: EmitState,
    after: EmitState,
    v: ScreenView,
    damaged: Seq<int>,
    lines: Seq<Line>,
    keyframe_due: bool,
    now: u64,
)
    requires
        before.valid(),
        before.damage_answer(v, damaged),
        tracks_screen(before),
        in_sync(page, before),
        forall|i: int| 0 <= i < damaged.len() ==> before.last_base <= #[trigger] damaged[i],
        !before.quiet(v, damaged, lines, keyframe_due, now),
        ticked(before, after, v, damaged, lines, keyframe_due, now),
    ensures
        in_sync(after_frame(page, before, v, damaged, lines, keyframe_due, now), after),
{
    if !before.wants_keyframe(v, damaged, lines, keyframe_due) {
        diff_brings_grid(before, v, damaged, lines);
        if before.idle(v, damaged, keyframe_due, now) {
            assert(cache::differing(before.kept(v), before.rendered(v, damaged, lines)) =~= seq![]);
        }
    }
}

proof fn put_all_known(rows: Seq<RowText>, fresh: Seq<RowText>)
    requires
        cache::ascending(rows),
        cache::differing(rows, fresh).len() == 0,
    ensures
        cache::put_all(rows, fresh) == rows,
    decreases fresh.len(),
{
    if fresh.len() > 0 {
        put_all_known(rows, fresh.drop_last());
        cache::put_same(rows, fresh.last().id, fresh.last().html);
    }
}

/// A tick without a frame leaves the emitter with the rows and the cursor it
/// had, so a page that was in sync still is.
pub proof fn quiet_tick_changes_nothing(
    page: Page,
    before: EmitState,
    after: EmitState,
    v: ScreenView,
    damaged: Seq<int>,
    lines: Seq<Line>,
    keyframe_due: bool,
    now: u64,
)
    requires
        before.valid(),
        tracks_screen(before),
        in_sync(page, before),
        before.quiet(v, damaged, lines, keyframe_due, now),
        ticked(before, after, v, damaged, lines, keyframe_due, now),
    ensures
        after.cache@ == before.cache@,
        in_sync(page, after),
        tracks_screen(after),
{
    if !before.idle(v, damaged, keyframe_due, now) {
        let g = before.cache@;
        let arows = before.appended_rows(v, damaged, lines);
        cache::rows_from_ascending(g, v.base as int);
        put_all_known(before.kept(v), before.rendered(v, damaged, lines));
        assert(arows.len() == 0);
        assert forall|i: int| 0 <= i < g.len() implies v.base <= (#[trigger] g[i]).id by {
            assert(cache::row_ids(g).len() == emit::span(
                before.last_base as int,
                before.last_max as int,
            ).len());
            assert(cache::row_ids(g)[i] == emit::span(
                before.last_base as int,
                before.last_max as int,
            )[i]);
        }
        cache::rows_from_at(g, v.base as int, 0);
        assert(g.skip(0) =~= g);
    }
}

/// The ids of the grid after a tick, where rows only fell off the top and
/// were added at the bottom, or the whole grid is rendered.
proof fn next_row_ids(
    before: EmitState,
    v: ScreenView,
    damaged: Seq<int>,
    lines: Seq<Line>,
    keyframe_due: bool,
    now: u64,
)
    requires
        before.valid(),
        before.damage_answer(v, damaged),
        before.forced(v) || (tracks_screen(before) && before.last_base <= v.base && before.last_max
            <= v.end()),
    ensures
        cache::row_ids(before.next_rows(v, damaged, lines, keyframe_due, now)) == emit::span(
            v.base as int,
            v.end(),
        ),
        cache::ascending(before.next_rows(v, damaged, lines, keyframe_due, now)),
{
    let next = before.next_rows(v, damaged, lines, keyframe_due, now);
    if before.forced(v) {
        assert(cache::row_ids(next) =~= emit::span(v.base as int, v.end()));
    } else if before.idle(v, damaged, keyframe_due, now) {
        let gone = before.trimmed(v);
        let new = before.appended(v);
        if before.last_base < emit::min(v.base as int, before.last_max as int) {
            assert(gone.len() > 0);
        }
        if emit::max(before.last_max as int, v.base as int) < v.end() {
            assert(new.len() > 0);
        }
        assert(cache::row_ids(next) =~= emit::span(v.base as int, v.end()));
    } else {
        let g = before.cache@;
        let lo = before.last_base as int;
        let hi = before.last_max as int;
        let base = v.base as int;
        let kept = before.kept(v);
        let drows = before.rendered(v, damaged, lines);
        let arows = before.appended_rows(v, damaged, lines);
        assert(cache::row_ids(g).len() == emit::span(lo, hi).len());
        assert forall|i: int| 0 <= i < g.len() implies (#[trigger] g[i]).id == lo + i by {
            assert(cache::row_ids(g)[i] == emit::span(lo, hi)[i]);
        }
        let p = emit::min(base - lo, g.len() as int);
        cache::rows_from_ascending(g, base);
        cache::rows_from_at(g, base, p);
        assert forall|i: int| 0 <= i < drows.len() implies cache::lookup(
            kept,
            (#[trigger] drows[i]).id,
        ) is Some by {
            let d = damaged[i];
            assert(before.damage_lo(v) <= d < before.damage_hi(v));
            assert(kept[d - lo - p] == g[d - lo]);
            cache::lookup_at(kept, d - lo - p);
        }
        assert forall|i: int, j: int| 0 <= i < j < drows.len() implies (#[trigger] drows[i]).id != (
        #[trigger] drows[j]).id by {
            assert(damaged[i] < damaged[j]);
        }
        put_all_is_morph(kept, drows);
        let m = cache::put_all(kept, drows);
        let whole = m + arows;
        assert forall|i: int| 0 <= i < m.len() implies (#[trigger] m[i]).id == base + i by {
            assert(m[i].id == kept[i].id);
            assert(kept[i] == g[p + i]);
        }
        assert forall|i: int, j: int| 0 <= i < j < whole.len() implies (#[trigger] whole[i]).id < (
        #[trigger] whole[j]).id by {
            if i < m.len() {
                assert(m[i].id == base + i);
            }
            if j < m.len() {
                assert(m[j].id == base + j);
            }
        }
        cache::put_all_append(m, arows);
        assert(cache::row_ids(whole) =~= emit::span(base, v.end()));
    }
}

/// As long as rows only fall off the top and are added at the bottom, the
/// cache holds exactly the rows of the screen after every frame. A frame that
/// renders the whole grid establishes it from any state.
pub proof fn tracking_survives(
    before: EmitState,
    after: EmitState,
    v: ScreenView,
    damaged: Seq<int>,
    lines: Seq<Line>,
    keyframe_due: bool,
    now: u64,
)
    requires
        before.valid(),
        before.damage_answer(v, damaged),
        !before.quiet(v, damaged, lines, keyframe_due, now),
        before.forced(v) || (tracks_screen(before) && before.last_base <= v.base && before.last_max
            <= v.end()),
        ticked(before, after, v, damaged, lines, keyframe_due, now),
    ensures
        tracks_screen(after),
{
    next_row_ids(before, v, damaged, lines, keyframe_due, now);
}

/// The rows of a screen from `base` up to `end`, each rendered from its line.
pub open spec fn screen_rows(
    target: Seq<char>,
    cols: nat,
    base: int,
    end: int,
    line_of: spec_fn(int) -> Line,
) -> Seq<RowText> {
    Seq::new(
        emit::span(base, end).len(),
        |i: int|
            RowText {
                id: base + i,
                html: row::row_html(target, line_of(base + i), cols, base + i),
            },
    )
}

/// Every row of the screen that the last grid held or should have held is
/// accounted for: it was reported as damaged, or the grid held it and it
/// looks as it did.
pub open spec fn report_complete(
    s: EmitState,
    v: ScreenView,
    damaged: Seq<int>,
    old_line: spec_fn(int) -> Line,
    new_line: spec_fn(int) -> Line,
) -> bool {
    forall|id: int|
        v.base <= id < s.last_max && !damaged.contains(id) ==> s.last_base <= id && row::row_html(
            s.target@,
            #[trigger] new_line(id),
            v.cols as nat,
            id,
        ) == row::row_html(s.target@, old_line(id), v.cols as nat, id)
}

/// `lines` are the lines of the rows that the tick asks for.
pub open spec fn lines_answer(
    s: EmitState,
    v: ScreenView,
    damaged: Seq<int>,
    lines: Seq<Line>,
    keyframe_due: bool,
    now: u64,
    new_line: spec_fn(int) -> Line,
) -> bool {
    let needed = s.rows_needed(v, damaged, keyframe_due, now);
    lines.len() == needed.len() && forall|i: int|
        0 <= i < lines.len() ==> #[trigger] lines[i] == new_line(needed[i])
}

/// The grid holds the screen of the last frame.
pub open spec fn holds_screen(s: EmitState, cols: nat, line_of: spec_fn(int) -> Line) -> bool {
    s.cache@ == screen_rows(s.target@, cols, s.last_base as int, s.last_max as int, line_of)
}

/// The rows from `base` on are found as they were, the others no more.
pub proof fn rows_from_lookup(rows: Seq<RowText>, base: int, id: int)
    ensures
        cache::lookup(cache::rows_from(rows, base), id) == if id >= base {
            cache::lookup(rows, id)
        } else {
            None
        },
    decreases rows.len(),
{
    if rows.len() > 0 {
        rows_from_lookup(rows.drop_last(), base, id);
        let kept = cache::rows_from(rows.drop_last(), base);
        if rows.last().id >= base {
            assert(cache::rows_from(rows, base).drop_last() =~= kept);
        }
    }
}

proof fn same_lookups(a: Seq<RowText>, b: Seq<RowText>)
    requires
        cache::ascending(a),
        cache::ascending(b),
        forall|id: int| #[trigger] cache::lookup(a, id) == cache::lookup(b, id),
    ensures
        a == b,
    decreases a.len(),
{
    if a.len() == 0 {
        if b.len() > 0 {
            assert(cache::lookup(a, b.last().id) == cache::lookup(b, b.last().id));
        }
        assert(a =~= b);
    } else {
        let last = a[a.len() - 1];
        assert(cache::lookup(a, last.id) == cache::lookup(b, last.id));
        let j = lookup_index(b, last.id);
        let top = b[b.len() - 1];
        assert(cache::lookup(a, top.id) == cache::lookup(b, top.id));
        let i = lookup_index(a, top.id);
        if j < b.len() - 1 {
            assert(b[j].id < b[b.len() - 1].id);
            if i < a.len() - 1 {
                assert(a[i].id < a[a.len() - 1].id);
            }
        }
        assert(top.id == last.id);
        let ra = a.drop_last();
        let rb = b.drop_last();
        assert forall|x: int, y: int| 0 <= x < y < ra.len() implies (#[trigger] ra[x]).id < (
        #[trigger] ra[y]).id by {
            assert(a[x].id < a[y].id);
        }
        assert forall|x: int, y: int| 0 <= x < y < rb.len() implies (#[trigger] rb[x]).id < (
        #[trigger] rb[y]).id by {
            assert(b[x].id < b[y].id);
        }
        assert forall|id: int| #[trigger] cache::lookup(ra, id) == cache::lookup(rb, id) by {
            if id == last.id {
                assert forall|x: int| 0 <= x < ra.len() implies (#[trigger] ra[x]).id != id by {
                    assert(a[x].id < a[a.len() - 1].id);
                }
                assert forall|x: int| 0 <= x < rb.len() implies (#[trigger] rb[x]).id != id by {
                    assert(b[x].id < b[b.len() - 1].id);
                }
                cache::lookup_absent(ra, id);
                cache::lookup_absent(rb, id);
            } else {
                assert(cache::lookup(a, id) == cache::lookup(b, id));
            }
        }
        same_lookups(ra, rb);
        assert(a =~= ra.push(last));
        assert(b =~= rb.push(top));
    }
}

proof fn screen_rows_lookup(
    target: Seq<char>,
    cols: nat,
    base: int,
    end: int,
    line_of: spec_fn(int) -> Line,
    id: int,
)
    ensures
        cache::ascending(screen_rows(target, cols, base, end, line_of)),
        cache::lookup(screen_rows(target, cols, base, end, line_of), id) == if base <= id < end {
            Some(row::row_html(target, line_of(id), cols, id))
        } else {
            None
        },
{
    let rows = screen_rows(target, cols, base, end, line_of);
    if base <= id < end {
        assert(rows[id - base].id == id);
        cache::lookup_at(rows, id - base);
    } else {
        cache::lookup_absent(rows, id);
    }
}

/// The grid is the screen: after every tick it holds each row of the terminal
/// rendered as it is now, and nothing else. Before, it held the screen of the
/// last frame; since then the end of the screen did not move back, and every
/// row that looks different was reported as damaged. A tick that renders the
/// whole grid needs none of this.
pub proof fn grid_is_the_screen(
    before: EmitState,
    v: ScreenView,
    damaged: Seq<int>,
    lines: Seq<Line>,
    keyframe_due: bool,
    now: u64,
    old_line: spec_fn(int) -> Line,
    new_line: spec_fn(int) -> Line,
)
    requires
        before.valid(),
        before.damage_answer(v, damaged),
        lines_answer(before, v, damaged, lines, keyframe_due, now, new_line),
        before.forced(v) || {
            &&& holds_screen(before, v.cols as nat, old_line)
            &&& before.last_max <= v.end()
            &&& report_complete(before, v, damaged, old_line, new_line)
        },
    ensures
        before.next_rows(v, damaged, lines, keyframe_due, now) == screen_rows(
            before.target@,
            v.cols as nat,
            v.base as int,
            v.end(),
            new_line,
        ),
{
    let next = before.next_rows(v, damaged, lines, keyframe_due, now);
    let target = before.target@;
    let cols = v.cols as nat;
    let base = v.base as int;
    let want = screen_rows(target, cols, base, v.end(), new_line);
    let needed = before.rows_needed(v, damaged, keyframe_due, now);
    if before.forced(v) {
        assert forall|i: int| 0 <= i < want.len() implies next[i] == want[i] by {
            assert(needed[i] == base + i);
            assert(lines[i] == new_line(needed[i]));
        }
        assert(next =~= want);
    } else {
        let lo = before.last_base as int;
        let hi = before.last_max as int;
        let kept = before.kept(v);
        let drows = before.rendered(v, damaged, lines);
        let arows = before.appended_rows(v, damaged, lines);
        let all = drows + arows;
        cache::rows_from_ascending(before.cache@, base);
        cache::put_all_join(kept, drows, arows);
        assert forall|i: int, j: int| 0 <= i < j < all.len() implies (#[trigger] all[i]).id != (
        #[trigger] all[j]).id by {
            if j < drows.len() {
                assert(damaged[i] < damaged[j]);
            } else if i < drows.len() {
                assert(damaged[i] < before.damage_hi(v));
            }
        }
        let idle = before.idle(v, damaged, keyframe_due, now);
        if idle {
            if lo < emit::min(base, hi) {
                assert(before.trimmed(v).len() > 0);
            }
            if emit::max(hi, base) < v.end() {
                assert(before.appended(v).len() > 0);
            }
        }
        assert forall|id: int| #[trigger] cache::lookup(next, id) == cache::lookup(want, id) by {
            screen_rows_lookup(target, cols, base, v.end(), new_line, id);
            screen_rows_lookup(target, cols, lo, hi, old_line, id);
            rows_from_lookup(before.cache@, base, id);
            cache::put_all_lookup(kept, all, id);
            assert(new_line(id) == new_line(id));
            if idle {
                assert(new_line(base) == new_line(base));
                assert(!damaged.contains(base));
                assert(!damaged.contains(id));
            } else if damaged.contains(id) {
                let k = choose|k: int| 0 <= k < damaged.len() && damaged[k] == id;
                assert(before.damage_lo(v) <= damaged[k] < before.damage_hi(v));
                assert(all[k].id == id);
                assert(needed[k] == damaged[k]);
                assert(lines[k] == new_line(needed[k]));
            } else if emit::max(hi, base) <= id < v.end() {
                let k = id - emit::max(hi, base);
                assert(before.appended(v)[k] == id);
                assert(all[drows.len() + k].id == id);
                assert(needed[drows.len() + k] == id);
                assert(lines[drows.len() + k] == new_line(needed[drows.len() + k]));
            } else {
                assert forall|k: int| 0 <= k < all.len() implies (#[trigger] all[k]).id != id by {
                    if k < drows.len() {
                        assert(damaged.contains(damaged[k]));
                    } else {
                        assert(before.appended(v)[k - drows.len()] == all[k].id);
                    }
                }
            }
        }
        screen_rows_lookup(target, cols, base, v.end(), new_line, 0);
        cache::put_all_lookup(kept, all, 0);
        same_lookups(next, want);
    }
}

/// The page after a tick: a tick without a frame leaves it as it is.
pub open spec fn after_tick(
    page: Page,
    s: EmitState,
    v: ScreenView,
    damaged: Seq<int>,
    lines: Seq<Line>,
    keyframe_due: bool,
    now: u64,
) -> Page {
    if s.quiet(v, damaged, lines, keyframe_due, now) {
        page
    } else {
        after_frame(page, s, v, damaged, lines, keyframe_due, now)
    }
}

/// A client that follows every frame shows the terminal: its page holds each
/// row of the screen rendered as it is now, in order, and the cursor that the
/// emitter means it to have. A diff never brings rows back above those that
/// the page has: where the oldest row id goes down, it takes a keyframe.
pub proof fn client_shows_the_terminal(
    page: Page,
    before: EmitState,
    after: EmitState,
    v: ScreenView,
    damaged: Seq<int>,
    lines: Seq<Line>,
    keyframe_due: bool,
    now: u64,
    old_line: spec_fn(int) -> Line,
    new_line: spec_fn(int) -> Line,
)
    requires
        before.valid(),
        before.damage_answer(v, damaged),
        lines_answer(before, v, damaged, lines, keyframe_due, now, new_line),
        before.forced(v) || {
            &&& in_sync(page, before)
            &&& holds_screen(before, v.cols as nat, old_line)
            &&& before.last_max <= v.end()
            &&& report_complete(before, v, damaged, old_line, new_line)
            &&& before.last_base <= v.base || before.wants_keyframe(
                v,
                damaged,
                lines,
                keyframe_due,
            )
        },
        ticked(before, after, v, damaged, lines, keyframe_due, now),
    ensures
        after_tick(page, before, v, damaged, lines, keyframe_due, now).grid == screen_rows(
            before.target@,
            v.cols as nat,
            v.base as int,
            v.end(),
            new_line,
        ),
        in_sync(after_tick(page, before, v, damaged, lines, keyframe_due, now), after),
        holds_screen(after, v.cols as nat, new_line),
        after.last_cols == v.cols,
{
    grid_is_the_screen(before, v, damaged, lines, keyframe_due, now, old_line, new_line);
    if !before.forced(v) {
        let target = before.target@;
        let cols = v.cols as nat;
        let lo = before.last_base as int;
        let hi = before.last_max as int;
        let shown = screen_rows(target, cols, lo, hi, old_line);
        let screen = screen_rows(target, cols, v.base as int, v.end(), new_line);
        assert(cache::row_ids(before.cache@) =~= emit::span(lo, hi));
        if before.quiet(v, damaged, lines, keyframe_due, now) {
            quiet_tick_changes_nothing(
                page,
                before,
                after,
                v,
                damaged,
                lines,
                keyframe_due,
                now,
            );
            assert(shown == screen);
            if shown.len() > 0 {
                assert(shown[0].id == screen[0].id);
            }
            assert(screen_rows(target, cols, lo, hi, new_line) =~= screen);
        } else if before.last_base <= v.base {
            assert forall|i: int| 0 <= i < damaged.len() implies before.last_base
                <= #[trigger] damaged[i] by {
                assert(before.damage_lo(v) <= damaged[i]);
            }
            frames_keep_page_in_sync(
                page,
                before,
                after,
                v,
                damaged,
                lines,
                keyframe_due,
                now,
            );
        }
    }
}

// --- a whole session ---------------------------------------------------------

/// One tick of a session: what was read off the terminal, and the line that
/// each of its rows held then.
pub struct Tick {
    pub v: ScreenView,
    pub damaged: Seq<int>,
    pub lines: Seq<Line>,
    pub keyframe_due: bool,
    pub now: u64,
    pub line_of: spec_fn(int) -> Line,
}

/// The emitter states before and after each tick of a session, from one that
/// has sent nothing yet. Between ticks that do not render the whole grid the
/// end of the screen does not move back, what looks different is reported,
/// and where the oldest row id goes down a keyframe is sent.
pub open spec fn is_session(states: Seq<EmitState>, ticks: Seq<Tick>) -> bool {
    &&& states.len() == ticks.len() + 1
    &&& states[0].valid()
    &&& !states[0].sent_initial
    &&& forall|i: int| 0 <= i < ticks.len() ==> #[trigger] session_step(states, ticks, i)
}

/// Tick `i` of a session.
pub open spec fn session_step(states: Seq<EmitState>, ticks: Seq<Tick>, i: int) -> bool {
    let s = states[i];
    let t = ticks[i];
    &&& s.damage_answer(t.v, t.damaged)
    &&& lines_answer(s, t.v, t.damaged, t.lines, t.keyframe_due, t.now, t.line_of)
    &&& s.forced(t.v) || {
        &&& s.last_max <= t.v.end()
        &&& report_complete(s, t.v, t.damaged, ticks[i - 1].line_of, t.line_of)
        &&& s.last_base <= t.v.base || s.wants_keyframe(t.v, t.damaged, t.lines, t.keyframe_due)
    }
    &&& ticked(s, states[i + 1], t.v, t.damaged, t.lines, t.keyframe_due, t.now)
}

/// The page of a client that follows the first `n` ticks of a session.
pub open spec fn followed(
    page: Page,
    states: Seq<EmitState>,
    ticks: Seq<Tick>,
    n: nat,
) -> Page
    decreases n,
{
    if n == 0 {
        page
    } else {
        let t = ticks[n - 1];
        after_tick(
            followed(page, states, ticks, (n - 1) as nat),
            states[n - 1],
            t.v,
            t.damaged,
            t.lines,
            t.keyframe_due,
            t.now,
        )
    }
}

/// Through a whole session, whatever the page was at the start: after every
/// tick a client that follows the frames shows exactly the rows of the
/// terminal, each rendered from its line, and the cursor that the emitter
/// has, just as a keyframe at that moment would.
pub proof fn session_shows_the_terminal(
    page: Page,
    states: Seq<EmitState>,
    ticks: Seq<Tick>,
    n: nat,
)
    requires
        is_session(states, ticks),
        0 < n <= ticks.len(),
    ensures
        followed(page, states, ticks, n).grid == screen_rows(
            states[0].target@,
            ticks[n - 1].v.cols as nat,
            ticks[n - 1].v.base as int,
            ticks[n - 1].v.end(),
            ticks[n - 1].line_of,
        ),
        in_sync(followed(page, states, ticks, n), states[n as int]),
        holds_screen(states[n as int], ticks[n - 1].v.cols as nat, ticks[n - 1].line_of),
        states[n as int].last_cols == ticks[n - 1].v.cols,
        states[n as int].target@ == states[0].target@,
    decreases n,
{
    let m = (n - 1) as nat;
    let t = ticks[m as int];
    assert(session_step(states, ticks, m as int));
    if m > 0 {
        session_shows_the_terminal(page, states, ticks, m);
        assert(session_step(states, ticks, m - 1));
    }
    client_shows_the_terminal(
        followed(page, states, ticks, m),
        states[m as int],
        states[n as int],
        t.v,
        t.damaged,
        t.lines,
        t.keyframe_due,
        t.now,
        ticks[m - 1].line_of,
        t.line_of,
    );
}

} // verus!
