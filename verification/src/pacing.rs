//! Pacing: when the emitter wakes, how long it holds a frame back, when a
//! keyframe is due, and when it stops.
//!
//! Clock readings are nanoseconds from one fixed origin, as for frame
//! production. Production starts on the leading edge: a frame's production
//! may start no sooner than the coalesce time after the previous one started,
//! so after idle the first change is produced at once, and a burst becomes
//! frames on a constant cadence. The time spent producing is not charged
//! against it.
use crate::emit;
use crate::emit::{EmitState, ScreenView};
use crate::page;
use crate::page::Page;
use crate::row::Line;
use vstd::prelude::*;

verus! {

/// The longest time that anything is waited for at once.
pub const LONGEST_WAIT: u64 = 1_000_000_000;

/// How far off a deadline is held to be while there is none.
pub const NEVER: u64 = 3_600_000_000_000;

/// Nanoseconds in a millisecond and in a second.
pub const MILLISECOND: u128 = 1_000_000;

pub const SECOND: u128 = 1_000_000_000;

/// What the emitter does next: produce, or wait for so long (or until it is
/// woken) and look again.
#[derive(Clone, Copy, Debug, PartialEq, Eq, Structural)]
pub enum Wait {
    Produce,
    Sleep(u64),
}

/// What follows a tick.
#[derive(Clone, Copy, Debug, PartialEq, Eq, Structural)]
pub enum Loop {
    Again,
    End,
    /// no one is listening: kill the child, then end
    KillAndEnd,
}

/// The pace of an emitter.
#[derive(Clone, Copy, Debug)]
pub struct Pacer {
    /// least time between the starts of two productions
    pub coalesce: u128,
    /// time between healing keyframes while diffs are flowing
    pub keyframe_interval: u128,
    /// the earliest start of the next production
    pub earliest: u128,
    /// the generation of the terminal that was last produced
    pub last_gen: u64,
}

/// Time until a keyframe is due.
pub open spec fn keyframe_in(s: EmitState, interval: nat, now: u64) -> int {
    if s.dirty_since_keyframe {
        emit::max(interval - emit::elapsed(s.last_keyframe, now), 0)
    } else {
        NEVER as int
    }
}

/// Time until a hidden cursor is due at the client.
pub open spec fn hide_in(s: EmitState, now: u64) -> int {
    if s.hidden_since is Some && s.shown_cursor.visible {
        emit::max(emit::CURSOR_HIDE_GRACE - emit::elapsed(s.hidden_since->0, now), 0)
    } else {
        NEVER as int
    }
}

/// Time until something is due though the terminal is not touched.
pub open spec fn due_in(s: EmitState, interval: nat, now: u64) -> int {
    emit::min(keyframe_in(s, interval, now), hide_in(s, now))
}

/// Whether a healing keyframe is due: diffs were sent since the last one, and
/// the interval is over.
pub open spec fn keyframe_is_due(s: EmitState, interval: nat, now: u64) -> bool {
    s.dirty_since_keyframe && emit::elapsed(s.last_keyframe, now) >= interval
}

impl Pacer {
    /// The coalesce time is one that a number of milliseconds can name.
    pub open spec fn valid(self) -> bool {
        self.coalesce <= u64::MAX * 1_000_000
    }

    /// A pace from the arguments: the coalesce time in milliseconds and the
    /// keyframe interval in seconds, one at least. `ago` says whether the
    /// clock reaches back by the coalesce time; where it does the first
    /// production may start at once.
    pub fn new(coalesce_ms: u64, keyframe_secs: u64, now: u64, ago: bool) -> (res: Self)
        ensures
            res.valid(),
            res.coalesce == coalesce_ms * 1_000_000,
            res.keyframe_interval == emit::max(keyframe_secs as int, 1) * 1_000_000_000,
            res.earliest == if ago {
                now as int
            } else {
                now + res.coalesce
            },
            res.last_gen == u64::MAX,
    {
        let secs: u128 = if keyframe_secs < 1 {
            1
        } else {
            keyframe_secs as u128
        };
        let coalesce: u128 = coalesce_ms as u128 * MILLISECOND;
        Pacer {
            coalesce,
            keyframe_interval: secs * SECOND,
            earliest: if ago {
                now as u128
            } else {
                now as u128 + coalesce
            },
            last_gen: u64::MAX,
        }
    }

    /// Whether to produce now, where the terminal is at generation `gen`:
    /// something was touched, the session is over, or a keyframe or a hidden
    /// cursor is due. Else how long to wait.
    pub fn wait(&self, state: &EmitState, gen: u64, done: bool, now: u64) -> (res: Wait)
        ensures
            res == (if gen != self.last_gen || done || due_in(
                *state,
                self.keyframe_interval as nat,
                now,
            ) == 0 {
                Wait::Produce
            } else {
                Wait::Sleep(
                    emit::min(
                        due_in(*state, self.keyframe_interval as nat, now),
                        LONGEST_WAIT as int,
                    ) as u64,
                )
            }),
            gen != self.last_gen || done ==> res is Produce,
            res matches Wait::Sleep(time) ==> {
                &&& 0 < time <= 1_000_000_000
                &&& state.dirty_since_keyframe && state.last_keyframe <= now ==> now + time
                    <= state.last_keyframe + self.keyframe_interval
                &&& state.shown_cursor.visible ==> (state.hidden_since matches Some(since) ==> since
                    <= now ==> now + time <= since + 120_000_000)
            },
    {
        if gen != self.last_gen || done {
            return Wait::Produce;
        }
        let since: u128 = now.saturating_sub(state.last_keyframe) as u128;
        let keyframe: u128 = if !state.dirty_since_keyframe {
            NEVER as u128
        } else if self.keyframe_interval > since {
            self.keyframe_interval - since
        } else {
            0
        };
        let cursor: u128 = match state.cursor_hide_due_in(now) {
            Some(due) => due as u128,
            None => NEVER as u128,
        };
        let due: u128 = if keyframe < cursor {
            keyframe
        } else {
            cursor
        };
        if due == 0 {
            return Wait::Produce;
        }
        if due < LONGEST_WAIT as u128 {
            Wait::Sleep(due as u64)
        } else {
            Wait::Sleep(LONGEST_WAIT)
        }
    }

    /// How long a production is held back.
    pub open spec fn held(self, now: u64) -> int {
        emit::max(self.earliest - now, 0)
    }

    /// How long to hold the production back. At the end of the session
    /// nothing is.
    pub fn hold(&self, done: bool, now: u64) -> (res: u128)
        ensures
            res == (if done {
                0
            } else {
                self.held(now)
            }),
    {
        if done || self.earliest <= now as u128 {
            0
        } else {
            self.earliest - now as u128
        }
    }

    /// Starts a production of generation `gen`. Returns whether a keyframe is
    /// due.
    pub fn start(&mut self, state: &EmitState, gen: u64, now: u64) -> (res: bool)
        requires
            old(self).valid(),
        ensures
            final(self).valid(),
            *final(self) == (Pacer {
                earliest: (now + old(self).coalesce) as u128,
                last_gen: gen,
                ..*old(self)
            }),
            res == keyframe_is_due(*state, old(self).keyframe_interval as nat, now),
    {
        self.last_gen = gen;
        self.earliest = now as u128 + self.coalesce;
        state.dirty_since_keyframe && now.saturating_sub(state.last_keyframe) as u128
            >= self.keyframe_interval
    }
}

/// What follows a tick whose frame, if there was one, was written or not. A
/// dead output means that no one is listening: the session ends instead of
/// rendering forever.
pub fn after_tick(written: bool, done: bool) -> (res: Loop)
    ensures
        res == (if !written {
            Loop::KillAndEnd
        } else if done {
            Loop::End
        } else {
            Loop::Again
        }),
{
    if !written {
        Loop::KillAndEnd
    } else if done {
        Loop::End
    } else {
        Loop::Again
    }
}

// --- laws --------------------------------------------------------------------

/// Productions start at least the coalesce time apart: a production that
/// starts at `last` sets the time of the next, and whoever waits out the hold starts no
/// sooner than that time after it.
pub proof fn productions_keep_apart(p: Pacer, last: u64, looked: u64, started: u64)
    requires
        p.earliest == last + p.coalesce,
        started >= looked + p.held(looked),
    ensures
        started >= last + p.coalesce,
{
}

/// After idle the first change is produced at once: nothing is held back once
/// the coalesce time is over.
pub proof fn leading_edge_is_immediate(p: Pacer, last: u64, now: u64)
    requires
        p.earliest == last + p.coalesce,
        now >= last + p.coalesce,
    ensures
        p.held(now) == 0,
{
}

/// No wait goes past what is due, and a wait is never empty.
pub proof fn waits_end_in_time(s: EmitState, interval: nat, now: u64)
    requires
        due_in(s, interval, now) != 0,
    ensures
        0 < emit::min(due_in(s, interval, now), LONGEST_WAIT as int) <= due_in(s, interval, now),
{
}

/// An untouched terminal is produced for a reason: either a keyframe is due
/// then, or a hidden cursor is.
pub proof fn untouched_production_has_a_reason(s: EmitState, interval: nat, now: u64)
    requires
        due_in(s, interval, now) == 0,
    ensures
        keyframe_is_due(s, interval, now) || (s.hidden_since is Some && s.shown_cursor.visible
            && emit::elapsed(s.hidden_since->0, now) >= emit::CURSOR_HIDE_GRACE),
{
}

/// While diffs are flowing a keyframe is at most the interval away.
pub proof fn healing_is_at_most_an_interval_away(s: EmitState, interval: nat, now: u64)
    requires
        s.dirty_since_keyframe,
    ensures
        due_in(s, interval, now) <= interval,
        keyframe_is_due(s, interval, now) <==> keyframe_in(s, interval, now) == 0,
{
}

/// A missed or misapplied diff heals within one interval: once the interval
/// since the last keyframe is over, a tick emits a keyframe though nothing
/// else happened, and any page shows what the emitter has after it.
pub proof fn misapplied_diffs_heal(
    page: Page,
    before: EmitState,
    after: EmitState,
    v: ScreenView,
    damaged: Seq<int>,
    lines: Seq<Line>,
    interval: nat,
    now: u64,
)
    requires
        before.dirty_since_keyframe,
        emit::elapsed(before.last_keyframe, now) >= interval,
        page::ticked(
            before,
            after,
            v,
            damaged,
            lines,
            keyframe_is_due(before, interval, now),
            now,
        ),
    ensures
        before.wants_keyframe(v, damaged, lines, keyframe_is_due(before, interval, now)),
        !before.quiet(v, damaged, lines, keyframe_is_due(before, interval, now), now),
        page::in_sync(
            page::after_frame(
                page,
                before,
                v,
                damaged,
                lines,
                keyframe_is_due(before, interval, now),
                now,
            ),
            after,
        ),
{
}

/// What the wait is for, on the clock. With diffs sent since the last keyframe
/// the next one is due an interval after it, and a cursor that is hidden and
/// still shown to the client is due 120 ms after it went; a time that lies
/// ahead of the clock counts as now. The wait goes past neither, and ends at
/// one of them or after an hour.
pub proof fn waits_are_for_the_next_deadline(s: EmitState, interval: nat, now: u64)
    ensures
        ({
            let due = due_in(s, interval, now);
            let hiding = s.hidden_since is Some && s.shown_cursor.visible;
            let keyframe = emit::min(s.last_keyframe as int, now as int) + interval;
            let dark = emit::min(s.hidden_since->0 as int, now as int) + 120_000_000;
            &&& 0 <= due <= 3_600_000_000_000 || s.dirty_since_keyframe
            &&& s.dirty_since_keyframe && now <= keyframe ==> now + due <= keyframe
            &&& s.dirty_since_keyframe && keyframe < now ==> due == 0
            &&& hiding && now <= dark ==> now + due <= dark
            &&& hiding && dark < now ==> due == 0
            &&& {
                ||| due == 3_600_000_000_000
                ||| s.dirty_since_keyframe && now + due == emit::max(keyframe, now as int)
                ||| hiding && now + due == emit::max(dark, now as int)
            }
            &&& !s.dirty_since_keyframe && !hiding ==> due == 3_600_000_000_000
            &&& LONGEST_WAIT == 1_000_000_000
        }),
{
}

/// A keyframe is due exactly if diffs were sent since the last one and the
/// interval since it is over.
pub proof fn keyframes_are_due_by_the_clock(s: EmitState, interval: nat, now: u64)
    requires
        interval > 0,
    ensures
        keyframe_is_due(s, interval, now) <==> s.dirty_since_keyframe && now >= s.last_keyframe
            + interval,
{
}

/// A production that is held back starts at the earliest time for it, or at
/// once where that is past.
pub proof fn holds_end_at_the_earliest_start(p: Pacer, now: u64)
    ensures
        p.earliest >= now ==> now + p.held(now) == p.earliest,
        p.earliest < now ==> p.held(now) == 0,
{
}

} // verus!
