//! The session timer state machine.
//!
//! Time enters the library as plain values: monotonic milliseconds read from
//! a clock by the caller. The timer itself is a pure state machine over
//! those values, so every transition carries an exact contract.

use vstd::prelude::*;

verus! {

/// The timer is `Stopped` between sessions, `Running` with the instant
/// (in monotonic milliseconds) at which the current running interval began,
/// or `Paused` with that interval already folded into the accumulated
/// duration. Keeping the anchor inside the `Running` variant makes a
/// "running without an anchor" state unrepresentable.
#[derive(Debug, Clone, Copy, PartialEq, Eq, Structural)]
pub enum TimerState {
    Stopped,
    Running(u64),
    Paused,
}

/// `a + b`, saturating at `u64::MAX`.
pub open spec fn sat_add64(a: u64, b: u64) -> u64 {
    if a + b > u64::MAX {
        u64::MAX
    } else {
        (a + b) as u64
    }
}

/// `a - b`, saturating at zero.
pub open spec fn sat_sub64(a: u64, b: u64) -> u64 {
    if a >= b {
        (a - b) as u64
    } else {
        0
    }
}

pub fn sat_add_u64(a: u64, b: u64) -> (r: u64)
    ensures
        r == sat_add64(a, b),
{
    if a <= u64::MAX - b {
        a + b
    } else {
        u64::MAX
    }
}

pub fn sat_sub_u64(a: u64, b: u64) -> (r: u64)
    ensures
        r == sat_sub64(a, b),
{
    if a >= b {
        a - b
    } else {
        0
    }
}

/// The in-memory state of one open reading session: the timer, the working
/// copy of the book's page position, and the running aggregates.
pub struct AppState {
    pub timer_state: TimerState,
    pub elapsed_before_pause_ms: u64,
    pub current_page: usize,
    pub total_pages: usize,
    pub book_title: String,
    pub session_start_page: usize,
    pub total_time_secs: u64,
    pub total_sessions: usize,
    pub book_index: usize,
}

/// Reading progress through the book, in thousandths: 0 when the book has
/// no pages, otherwise `current_page / total_pages` capped at one whole.
pub open spec fn progress_permille_spec(current_page: usize, total_pages: usize) -> u64 {
    if total_pages == 0 {
        0
    } else if current_page >= total_pages {
        1000
    } else {
        ((1000 * current_page) / (total_pages as int)) as u64
    }
}

/// `current_page + delta`, clamped into `[0, total_pages]`.
pub open spec fn page_clamp_spec(current_page: usize, delta: i32, total_pages: usize) -> usize {
    let n = current_page + delta;
    if n < 0 {
        0
    } else if n > total_pages {
        total_pages
    } else {
        n as usize
    }
}

impl AppState {
    /// The accumulated duration of the open session at instant `now_ms`:
    /// while running, the accumulated duration plus the time since the
    /// running anchor; otherwise the accumulated duration alone.
    pub open spec fn spec_elapsed_ms(self, now_ms: u64) -> u64 {
        match self.timer_state {
            TimerState::Running(anchor) => sat_add64(
                self.elapsed_before_pause_ms,
                sat_sub64(now_ms, anchor),
            ),
            _ => self.elapsed_before_pause_ms,
        }
    }

    /// The state after `start` at instant `now_ms`: a no-op while already
    /// running, otherwise the timer anchors at `now_ms` and the session's
    /// starting page is captured.
    pub open spec fn spec_start(self, now_ms: u64) -> AppState {
        match self.timer_state {
            TimerState::Running(_) => self,
            _ => AppState {
                timer_state: TimerState::Running(now_ms),
                session_start_page: self.current_page,
                ..self
            },
        }
    }

    /// The state after `pause` at instant `now_ms`: a no-op unless running,
    /// otherwise the running interval is folded into the accumulated
    /// duration and the anchor is cleared.
    pub open spec fn spec_pause(self, now_ms: u64) -> AppState {
        match self.timer_state {
            TimerState::Running(anchor) => AppState {
                timer_state: TimerState::Paused,
                elapsed_before_pause_ms: sat_add64(
                    self.elapsed_before_pause_ms,
                    sat_sub64(now_ms, anchor),
                ),
                ..self
            },
            _ => self,
        }
    }

    /// A fresh session state over the book at `book_index`: timer stopped,
    /// nothing accumulated, pages and aggregates taken from `progress`.
    pub fn new(book_index: usize, progress: &crate::storage::BookProgress) -> (r: AppState)
        ensures
            r.timer_state == TimerState::Stopped,
            r.elapsed_before_pause_ms == 0,
            r.current_page == progress.current_page,
            r.total_pages == progress.total_pages,
            r.book_title@ == progress@.book_title,
            r.session_start_page == progress.current_page,
            r.total_time_secs == crate::storage::total_secs_spec(progress@.sessions),
            r.total_sessions == progress@.sessions.len(),
            r.book_index == book_index,
    {
        let (total_time_secs, total_sessions) = crate::storage::get_statistics(progress);
        AppState {
            timer_state: TimerState::Stopped,
            elapsed_before_pause_ms: 0,
            current_page: progress.current_page,
            total_pages: progress.total_pages,
            book_title: progress.book_title.clone(),
            session_start_page: progress.current_page,
            total_time_secs,
            total_sessions,
            book_index,
        }
    }

    /// Milliseconds elapsed in the open session as of instant `now_ms`.
    pub fn elapsed(&self, now_ms: u64) -> (r: u64)
        ensures
            r == self.spec_elapsed_ms(now_ms),
    {
        match self.timer_state {
            TimerState::Running(anchor) => sat_add_u64(
                self.elapsed_before_pause_ms,
                sat_sub_u64(now_ms, anchor),
            ),
            _ => self.elapsed_before_pause_ms,
        }
    }

    /// Start (or resume) the timer at instant `now_ms`.
    pub fn start(&mut self, now_ms: u64)
        ensures
            *final(self) == old(self).spec_start(now_ms),
    {
        match self.timer_state {
            TimerState::Running(_) => (),
            _ => {
                self.timer_state = TimerState::Running(now_ms);
                self.session_start_page = self.current_page;
            },
        }
    }

    /// Pause the timer at instant `now_ms`.
    pub fn pause(&mut self, now_ms: u64)
        ensures
            *final(self) == old(self).spec_pause(now_ms),
    {
        match self.timer_state {
            TimerState::Running(anchor) => {
                self.elapsed_before_pause_ms = sat_add_u64(
                    self.elapsed_before_pause_ms,
                    sat_sub_u64(now_ms, anchor),
                );
                self.timer_state = TimerState::Paused;
            },
            _ => (),
        }
    }

    /// Move one page forward, saturating at the last page.
    pub fn increment_page(&mut self)
        ensures
            final(self).current_page == if old(self).current_page < old(self).total_pages {
                old(self).current_page + 1
            } else {
                old(self).current_page as int
            },
            (final(self).current_page <= old(self).total_pages || final(self).current_page
                == old(self).current_page),
            (*final(self) == apply_page_event(*old(self), PageEvent::NextPage)),
    {
        if self.current_page < self.total_pages {
            self.current_page = self.current_page + 1;
        }
    }

    /// Move one page back, saturating at page zero.
    pub fn decrement_page(&mut self)
        ensures
            final(self).current_page == if old(self).current_page > 0 {
                old(self).current_page - 1
            } else {
                0
            },
            (*final(self) == apply_page_event(*old(self), PageEvent::PrevPage)),
    {
        if self.current_page > 0 {
            self.current_page = self.current_page - 1;
        }
    }

    /// Jump by `delta` pages, clamped into `[0, total_pages]`.
    pub fn add_pages(&mut self, delta: i32)
        ensures
            final(self).current_page == page_clamp_spec(
                old(self).current_page,
                delta,
                old(self).total_pages,
            ),
            final(self).current_page <= old(self).total_pages,
            (*final(self) == apply_page_event(*old(self), PageEvent::JumpBy(delta))),
    {
        let cur: i128 = self.current_page as i128;
        let tot: i128 = self.total_pages as i128;
        let mut new_page: i128 = cur + delta as i128;
        if new_page < 0 {
            new_page = 0;
        }
        if new_page > tot {
            new_page = tot;
        }
        self.current_page = new_page as usize;
    }

    /// Reading progress in thousandths, capped at 1000.
    pub fn progress_permille(&self) -> (r: u64)
        ensures
            r == progress_permille_spec(self.current_page, self.total_pages),
            r <= 1000,
    {
        if self.total_pages == 0 {
            0
        } else if self.current_page >= self.total_pages {
            1000
        } else {
            let r = ((1000 as u128) * (self.current_page as u128)) / (self.total_pages as u128);
            proof {
                assert((1000 * self.current_page) / (self.total_pages as int) <= 1000) by {
                    vstd::arithmetic::div_mod::lemma_div_is_ordered(
                        1000 * self.current_page,
                        1000 * self.total_pages,
                        self.total_pages as int,
                    );
                    vstd::arithmetic::div_mod::lemma_div_by_multiple(
                        1000,
                        self.total_pages as int,
                    );
                }
            }
            r as u64
        }
    }

    /// Pages read in the open session: the current page minus the page the
    /// session started on; negative when the reader moved backward.
    pub fn pages_read_this_session(&self) -> (r: i128)
        ensures
            r == self.current_page - self.session_start_page,
    {
        self.current_page as i128 - self.session_start_page as i128
    }

    /// Point this state at the book at `book_index`: pages and aggregates
    /// are taken afresh from `progress`, and the timer is reset to
    /// `Stopped` with nothing accumulated, whatever it was doing before —
    /// switching books must never carry time or pages across.
    pub fn load_book(&mut self, book_index: usize, progress: &crate::storage::BookProgress)
        ensures
            final(self).timer_state == TimerState::Stopped,
            final(self).elapsed_before_pause_ms == 0,
            final(self).current_page == progress.current_page,
            final(self).total_pages == progress.total_pages,
            final(self).book_title@ == progress@.book_title,
            final(self).session_start_page == progress.current_page,
            final(self).total_time_secs == crate::storage::total_secs_spec(progress@.sessions),
            final(self).total_sessions == progress@.sessions.len(),
            final(self).book_index == book_index,
    {
        let (total_time_secs, total_sessions) = crate::storage::get_statistics(progress);
        self.book_index = book_index;
        self.book_title = progress.book_title.clone();
        self.total_pages = progress.total_pages;
        self.current_page = progress.current_page;
        self.session_start_page = progress.current_page;
        self.total_time_secs = total_time_secs;
        self.total_sessions = total_sessions;
        self.timer_state = TimerState::Stopped;
        self.elapsed_before_pause_ms = 0;
    }

    /// Record the current page of this state's book in the library,
    /// without a session.
    pub fn save_page(&self, library: &mut crate::storage::Library)
        ensures
            final(library)@ == crate::storage::commit_page_spec(
                old(library)@,
                self.book_index as int,
                self.current_page,
            ),
    {
        crate::storage::save_current_page(library, self.book_index, self.current_page);
    }

    /// Close the open session at instant `now_ms`, with `timestamp` as the
    /// session record's creation time. If any duration accumulated, one
    /// session is committed to the library and the in-memory aggregates
    /// grow by it; otherwise only the current page is committed. Either
    /// way the timer resets to `Stopped` with nothing accumulated.
    pub fn stop_with_timestamp(
        &mut self,
        library: &mut crate::storage::Library,
        now_ms: u64,
        timestamp: String,
    ) -> (recorded: bool)
        ensures
            recorded == (old(self).spec_elapsed_ms(now_ms) > 0),
            recorded ==> final(library)@ == crate::storage::commit_session_spec(
                old(library)@,
                old(self).book_index as int,
                stopped_session_view(*old(self), now_ms, timestamp@),
            ),
            !recorded ==> final(library)@ == crate::storage::commit_page_spec(
                old(library)@,
                old(self).book_index as int,
                old(self).current_page,
            ),
            (*final(self) == stop_reset_state(*old(self), now_ms, recorded)),
    {
        self.pause(now_ms);
        let accumulated = self.elapsed_before_pause_ms;
        let recorded: bool;
        if accumulated > 0 {
            let session = crate::storage::ReadingSession {
                book_title: self.book_title.clone(),
                start_page: self.session_start_page,
                end_page: self.current_page,
                duration_secs: accumulated / 1000,
                timestamp,
            };
            crate::storage::save_session(library, self.book_index, &session);
            self.total_time_secs = sat_add_u64(self.total_time_secs, accumulated / 1000);
            if self.total_sessions < usize::MAX {
                self.total_sessions = self.total_sessions + 1;
            }
            recorded = true;
        } else {
            crate::storage::save_current_page(library, self.book_index, self.current_page);
            recorded = false;
        }
        self.timer_state = TimerState::Stopped;
        self.elapsed_before_pause_ms = 0;
        self.session_start_page = self.current_page;
        recorded
    }

    /// Close the open session at instant `now_ms`, stamping the session
    /// record with the wall-clock time of the call. The record's fields
    /// are exact but for the timestamp, of which nothing is known.
    pub fn stop(&mut self, library: &mut crate::storage::Library, now_ms: u64) -> (recorded:
        bool)
        ensures
            recorded == (old(self).spec_elapsed_ms(now_ms) > 0),
            (recorded ==> exists|ts: Seq<char>|
                final(library)@ == crate::storage::commit_session_spec(
                    old(library)@,
                    old(self).book_index as int,
                    stopped_session_view(*old(self), now_ms, ts),
                )),
            !recorded ==> final(library)@ == crate::storage::commit_page_spec(
                old(library)@,
                old(self).book_index as int,
                old(self).current_page,
            ),
            (*final(self) == stop_reset_state(*old(self), now_ms, recorded)),
    {
        let timestamp = now_rfc3339();
        let ghost ts: Seq<char> = timestamp@;
        let recorded = self.stop_with_timestamp(library, now_ms, timestamp);
        proof {
            if recorded {
                assert(library@ == crate::storage::commit_session_spec(
                    old(library)@,
                    old(self).book_index as int,
                    stopped_session_view(*old(self), now_ms, ts),
                ));
            }
        }
        recorded
    }
}

/// The session record that `stop` commits when state `s` is closed at
/// instant `now_ms`: it spans from the page the session started on to the
/// current page, and its duration is the accumulated milliseconds
/// truncated to whole seconds.
pub open spec fn stopped_session_view(
    s: AppState,
    now_ms: u64,
    timestamp: Seq<char>,
) -> crate::storage::SessionView {
    crate::storage::SessionView {
        book_title: s.book_title@,
        start_page: s.session_start_page,
        end_page: s.current_page,
        duration_secs: (s.spec_elapsed_ms(now_ms) / 1000) as u64,
        timestamp,
    }
}

/// The session state after `stop`: timer stopped, nothing accumulated,
/// the session start page moved up to the current page, and the
/// aggregates grown by the committed session, if one was.
pub open spec fn stop_reset_state(s: AppState, now_ms: u64, recorded: bool) -> AppState {
    AppState {
        timer_state: TimerState::Stopped,
        elapsed_before_pause_ms: 0,
        session_start_page: s.current_page,
        total_time_secs: if recorded {
            sat_add64(s.total_time_secs, (s.spec_elapsed_ms(now_ms) / 1000) as u64)
        } else {
            s.total_time_secs
        },
        total_sessions: if recorded && s.total_sessions < usize::MAX {
            (s.total_sessions + 1) as usize
        } else {
            s.total_sessions
        },
        ..s
    }
}

/// Relies on `chrono::Local::now` for the current wall-clock time, turned
/// to text by `chrono::DateTime::to_rfc3339`; the result depends on the
/// clock and the time zone, so nothing is assumed of it. `Local::now`
/// panics when the system clock reads before the Unix epoch; that lies
/// in the environment, not in any argument, so no `requires` can rule
/// it out.
#[verifier::external_body]
fn now_rfc3339() -> String {
    chrono::Local::now().to_rfc3339()
}


/// One page-navigation action: a single page forward or back, or a
/// clamped jump.
pub enum PageEvent {
    NextPage,
    PrevPage,
    JumpBy(i32),
}

pub open spec fn apply_page_event(s: AppState, e: PageEvent) -> AppState {
    match e {
        PageEvent::NextPage => AppState {
            current_page: if s.current_page < s.total_pages {
                (s.current_page + 1) as usize
            } else {
                s.current_page
            },
            ..s
        },
        PageEvent::PrevPage => AppState {
            current_page: if s.current_page > 0 {
                (s.current_page - 1) as usize
            } else {
                0
            },
            ..s
        },
        PageEvent::JumpBy(d) => AppState { current_page: page_clamp_spec(s.current_page, d, s.total_pages), ..s },
    }
}

/// The state after the navigation actions `es` are applied in order.
pub open spec fn apply_page_events(s: AppState, es: Seq<PageEvent>) -> AppState
    decreases es.len(),
{
    if es.len() == 0 {
        s
    } else {
        apply_page_events(apply_page_event(s, es.first()), es.drop_first())
    }
}

/// No sequence of navigation actions ever takes the current page outside
/// `[0, total_pages]`, overshooting jumps included, and none touches any
/// other part of the state.
pub proof fn lemma_navigation_stays_in_bounds(s: AppState, es: Seq<PageEvent>)
    requires
        s.current_page <= s.total_pages,
    ensures
        apply_page_events(s, es).current_page <= s.total_pages,
        (apply_page_events(s, es) == AppState {
            current_page: apply_page_events(s, es).current_page,
            ..s
        }),
    decreases es.len(),
{
    if es.len() > 0 {
        lemma_navigation_stays_in_bounds(apply_page_event(s, es.first()), es.drop_first());
    }
}

/// One externally driven timer transition short of a stop: a `start` or a
/// `pause`, at a given instant in monotonic milliseconds.
pub enum TimerEvent {
    StartAt(u64),
    PauseAt(u64),
}

pub open spec fn event_time(e: TimerEvent) -> u64 {
    match e {
        TimerEvent::StartAt(t) => t,
        TimerEvent::PauseAt(t) => t,
    }
}

pub open spec fn apply_event(s: AppState, e: TimerEvent) -> AppState {
    match e {
        TimerEvent::StartAt(t) => s.spec_start(t),
        TimerEvent::PauseAt(t) => s.spec_pause(t),
    }
}

/// The state after the events `es` are applied in order.
pub open spec fn apply_events(s: AppState, es: Seq<TimerEvent>) -> AppState
    decreases es.len(),
{
    if es.len() == 0 {
        s
    } else {
        apply_events(apply_event(s, es.first()), es.drop_first())
    }
}

/// Event times are non-decreasing, none before `lo` and none after `now`:
/// what a monotonic clock hands a caller that applies the events in order
/// and then reads `now`.
pub open spec fn times_ordered(lo: u64, es: Seq<TimerEvent>, now: u64) -> bool
    decreases es.len(),
{
    if es.len() == 0 {
        lo <= now
    } else {
        lo <= event_time(es.first()) && times_ordered(event_time(es.first()), es.drop_first(), now)
    }
}

/// The total time the timer spends running when the events `es` are
/// applied in order to state `s` and the clock then reads `now`: each
/// pause closes the interval opened by the matching start, and an
/// interval still open at the end counts up to `now`.
pub open spec fn running_time(s: AppState, es: Seq<TimerEvent>, now: u64) -> int
    decreases es.len(),
{
    if es.len() == 0 {
        match s.timer_state {
            TimerState::Running(a) => now - a,
            _ => 0,
        }
    } else {
        let closed = match (s.timer_state, es.first()) {
            (TimerState::Running(a), TimerEvent::PauseAt(t)) => t - a,
            _ => 0,
        };
        closed + running_time(apply_event(s, es.first()), es.drop_first(), now)
    }
}

/// The earliest instant the events of a session over `s` can bear: the
/// running anchor while the timer runs, otherwise the first event's time
/// (or `now`, with no events left).
pub open spec fn timer_lo(s: AppState, es: Seq<TimerEvent>, now: u64) -> u64 {
    match s.timer_state {
        TimerState::Running(a) => a,
        _ => if es.len() > 0 {
            event_time(es.first())
        } else {
            now
        },
    }
}

/// `elapsed()` never decreases as the clock advances, whatever the state.
pub proof fn lemma_elapsed_monotone(s: AppState, n1: u64, n2: u64)
    requires
        n1 <= n2,
    ensures
        s.spec_elapsed_ms(n1) <= s.spec_elapsed_ms(n2),
{
}

proof fn lemma_elapsed_sum_aux(s: AppState, es: Seq<TimerEvent>, now: u64, lo: u64)
    requires
        (match s.timer_state {
            TimerState::Running(a) => a == lo,
            _ => true,
        }),
        times_ordered(lo, es, now),
        s.elapsed_before_pause_ms + (now - lo) <= u64::MAX,
        lo <= now,
    ensures
        apply_events(s, es).spec_elapsed_ms(now) == s.elapsed_before_pause_ms + running_time(
            s,
            es,
            now,
        ),
        running_time(s, es, now) >= 0,
    decreases es.len(),
{
    if es.len() == 0 {
    } else {
        let e = es.first();
        let t = event_time(e);
        let s2 = apply_event(s, e);
        let rest = es.drop_first();
        match (s.timer_state, e) {
            (TimerState::Running(a), TimerEvent::PauseAt(tp)) => {
                lemma_times_ordered_start(t, rest, now);
                lemma_elapsed_sum_aux(s2, rest, now, t);
            },
            (TimerState::Running(a), TimerEvent::StartAt(_)) => {
                lemma_times_ordered_start(t, rest, now);
                lemma_times_ordered_weaken(lo, t, rest, now);
                lemma_elapsed_sum_aux(s2, rest, now, lo);
            },
            (_, TimerEvent::StartAt(ts)) => {
                lemma_times_ordered_start(t, rest, now);
                lemma_elapsed_sum_aux(s2, rest, now, t);
            },
            (_, TimerEvent::PauseAt(_)) => {
                lemma_times_ordered_start(t, rest, now);
                lemma_times_ordered_weaken(lo, t, rest, now);
                lemma_elapsed_sum_aux(s2, rest, now, lo);
            },
        }
    }
}

proof fn lemma_times_ordered_start(lo: u64, es: Seq<TimerEvent>, now: u64)
    requires
        times_ordered(lo, es, now),
    ensures
        lo <= now,
    decreases es.len(),
{
    if es.len() > 0 {
        lemma_times_ordered_start(event_time(es.first()), es.drop_first(), now);
    }
}

proof fn lemma_times_ordered_weaken(lo1: u64, lo2: u64, es: Seq<TimerEvent>, now: u64)
    requires
        lo1 <= lo2,
        times_ordered(lo2, es, now),
    ensures
        times_ordered(lo1, es, now),
{
}

proof fn lemma_elapsed_bound_aux(s: AppState, es: Seq<TimerEvent>, now: u64, lo: u64)
    requires
        (match s.timer_state {
            TimerState::Running(a) => a == lo,
            _ => true,
        }),
        times_ordered(lo, es, now),
        lo <= now,
    ensures
        apply_events(s, es).spec_elapsed_ms(now) <= s.elapsed_before_pause_ms + running_time(
            s,
            es,
            now,
        ),
        running_time(s, es, now) >= 0,
    decreases es.len(),
{
    if es.len() == 0 {
    } else {
        let e = es.first();
        let t = event_time(e);
        let s2 = apply_event(s, e);
        let rest = es.drop_first();
        match (s.timer_state, e) {
            (TimerState::Running(a), TimerEvent::PauseAt(tp)) => {
                lemma_times_ordered_start(t, rest, now);
                lemma_elapsed_bound_aux(s2, rest, now, t);
            },
            (TimerState::Running(a), TimerEvent::StartAt(_)) => {
                lemma_times_ordered_start(t, rest, now);
                lemma_times_ordered_weaken(lo, t, rest, now);
                lemma_elapsed_bound_aux(s2, rest, now, lo);
            },
            (_, TimerEvent::StartAt(ts)) => {
                lemma_times_ordered_start(t, rest, now);
                lemma_elapsed_bound_aux(s2, rest, now, t);
            },
            (_, TimerEvent::PauseAt(_)) => {
                lemma_times_ordered_start(t, rest, now);
                lemma_times_ordered_weaken(lo, t, rest, now);
                lemma_elapsed_bound_aux(s2, rest, now, lo);
            },
        }
    }
}

/// Over a monotonic clock, with no bound on the machine's range:
/// `elapsed()` never exceeds the accumulated duration already held plus
/// the sum of all running intervals the events delimit. Where that
/// millisecond sum stays within the machine's range,
/// `lemma_elapsed_is_sum_of_intervals` sharpens this to equality; beyond
/// it the arithmetic saturates and only this bound holds.
pub proof fn lemma_elapsed_never_exceeds_intervals(s: AppState, es: Seq<TimerEvent>, now: u64)
    requires
        times_ordered(timer_lo(s, es, now), es, now),
    ensures
        apply_events(s, es).spec_elapsed_ms(now) <= s.elapsed_before_pause_ms + running_time(
            s,
            es,
            now,
        ),
        running_time(s, es, now) >= 0,
{
    lemma_times_ordered_start(timer_lo(s, es, now), es, now);
    lemma_elapsed_bound_aux(s, es, now, timer_lo(s, es, now));
}

/// For any sequence of starts and pauses with no stop, driven by a
/// monotonic clock whose readings stay within the machine's range,
/// `elapsed()` equals the accumulated duration already held plus the sum
/// of all running intervals the events delimit.
pub proof fn lemma_elapsed_is_sum_of_intervals(s: AppState, es: Seq<TimerEvent>, now: u64)
    requires
        times_ordered(timer_lo(s, es, now), es, now),
        s.elapsed_before_pause_ms + (now - timer_lo(s, es, now)) <= u64::MAX,
    ensures
        apply_events(s, es).spec_elapsed_ms(now) == s.elapsed_before_pause_ms + running_time(
            s,
            es,
            now,
        ),
        running_time(s, es, now) >= 0,
{
    lemma_times_ordered_start(timer_lo(s, es, now), es, now);
    lemma_elapsed_sum_aux(s, es, now, timer_lo(s, es, now));
}

} // verus!
