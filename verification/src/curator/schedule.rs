//! # The background loop of the curator
//!
//! What the curator does on each tick and with each signal, and in which order. The loop itself
//! runs outside; it asks here what to do, does it, and reports what came of it.
use vstd::prelude::*;
use crate::curator::extract::CuratorConfig;
use crate::curator::run::{
    curator_tick, flush_due_sessions, hygiene_due, observe_session_boundary, tick_seconds,
    ActivitySignal, ExtractOutcome, Progress,
};
use crate::curator::session::{EndedSession, SessionTracker};
use crate::curator::status::CuratorStatus;
use crate::time::Timestamp;
#[allow(unused_imports)]
use crate::curator::run::{
    due_of, ended_of, progressed, status_after, waiting_of, SignalView,
    MAX_CONSECUTIVE_WINDOW_FAILURES,
};
#[allow(unused_imports)]
use crate::curator::session::{session_after, session_ended, ActiveView, EndedView, MAX_MINUTES};

verus! {

/// One thing to do on a tick.
#[derive(Debug, Clone, Copy, PartialEq, Eq, Structural)]
pub enum TickStep {
    /// Delete what a request asks to be deleted, where there is one.
    DrainWipeRequest,
    /// Retire the notes that have expired.
    SweepExpired,
    /// Drop the events that are older than so many days.
    PruneEvents { keep_days: u32 },
    /// Make a pass over the events above an id.
    Extract { since_id: i64 },
}

/// The background loop.
pub struct CuratorLoop {
    cfg: CuratorConfig,
    events_retention_days: u32,
    distill_lag_minutes: u64,
    progress: Progress,
    tracker: SessionTracker,
    pending: Vec<EndedSession>,
    last_hygiene: Option<i64>,
}

/// Where a `CuratorLoop` stands.
pub struct LoopView {
    pub cfg: CuratorConfig,
    pub events_retention_days: u32,
    /// The minutes after which what happened has reached the timeline.
    pub distill_lag_minutes: int,
    pub progress: Progress,
    /// The session in progress.
    pub session: Option<ActiveView>,
    /// The sessions that wait for their note.
    pub pending: Seq<EndedView>,
    /// The day of the last housekeeping.
    pub last_hygiene: Option<i64>,
}

impl View for CuratorLoop {
    type V = LoopView;

    closed spec fn view(&self) -> LoopView {
        LoopView {
            cfg: self.cfg,
            events_retention_days: self.events_retention_days,
            distill_lag_minutes: self.distill_lag_minutes as int,
            progress: self.progress,
            session: self.tracker.session(),
            pending: ended_of(self.pending@),
            last_hygiene: self.last_hygiene,
        }
    }
}

/// Whether the spans of a configuration are spans of time.
pub open spec fn spans_fit(cfg: CuratorConfig, distill_lag_minutes: int) -> bool {
    &&& cfg.session_min_minutes <= MAX_MINUTES
    &&& cfg.session_summary_idle_minutes <= MAX_MINUTES
    &&& 0 <= distill_lag_minutes <= MAX_MINUTES
    &&& cfg.interval_minutes <= u64::MAX / 60
}

impl LoopView {
    /// A loop at its beginning: nothing is seen, and no session is in progress.
    pub open spec fn at_start(
        cfg: CuratorConfig,
        events_retention_days: u32,
        distill_lag_minutes: int,
    ) -> LoopView {
        LoopView {
            cfg,
            events_retention_days,
            distill_lag_minutes,
            progress: Progress { watermark: 0, window_failures: 0 },
            session: None,
            pending: seq![],
            last_hygiene: None,
        }
    }

    /// What is done on a tick: deletions that were asked for come first, then the housekeeping
    /// where it is due, then a pass.
    pub open spec fn steps_on(self, today: i64) -> Seq<TickStep> {
        let pass = TickStep::Extract { since_id: self.progress.watermark };
        if self.last_hygiene == Some(today) {
            seq![TickStep::DrainWipeRequest, pass]
        } else {
            seq![
                TickStep::DrainWipeRequest,
                TickStep::SweepExpired,
                TickStep::PruneEvents { keep_days: self.events_retention_days },
                TickStep::DrainWipeRequest,
                pass,
            ]
        }
    }

    /// The loop after a signal.
    pub open spec fn signalled(self, sig: SignalView) -> LoopView {
        let idle = self.cfg.session_summary_idle_minutes as int;
        let least = self.cfg.session_min_minutes as int;
        LoopView {
            session: session_after(self.session, sig, idle, least),
            pending: match session_ended(self.session, sig, idle, least) {
                Some(e) => self.pending.push(e),
                None => self.pending,
            },
            ..self
        }
    }

    /// The loop after a pass.
    pub open spec fn passed(self, outcome: Option<ExtractOutcome>) -> LoopView {
        LoopView { progress: progressed(self.progress, outcome), ..self }
    }

    /// The sessions whose note is due.
    pub open spec fn due(self, now: int) -> Seq<EndedView> {
        due_of(self.pending, self.distill_lag_minutes, now)
    }

    /// The loop without the sessions whose note is due.
    pub open spec fn flushed(self, now: int) -> LoopView {
        LoopView { pending: waiting_of(self.pending, self.distill_lag_minutes, now), ..self }
    }
}

impl CuratorLoop {
    /// Whether the loop can go on.
    pub closed spec fn well_formed(self) -> bool {
        &&& spans_fit(self.cfg, self.distill_lag_minutes as int)
        &&& self.progress.window_failures < MAX_CONSECUTIVE_WINDOW_FAILURES
        &&& self.tracker.well_formed()
        &&& self.tracker.least() == self.cfg.session_min_minutes
    }

    /// A loop at its beginning.
    pub fn new(cfg: CuratorConfig, events_retention_days: u32, distill_lag_minutes: u64) -> (r: Self)
        requires
            spans_fit(cfg, distill_lag_minutes as int),
        ensures
            r@ == LoopView::at_start(cfg, events_retention_days, distill_lag_minutes as int),
            r.well_formed(),
    {
        let pending: Vec<EndedSession> = Vec::new();
        assert(ended_of(pending@) =~= seq![]);
        CuratorLoop {
            cfg,
            events_retention_days,
            distill_lag_minutes,
            progress: Progress { watermark: 0, window_failures: 0 },
            tracker: SessionTracker::with_session_min_minutes(cfg.session_min_minutes),
            pending,
            last_hygiene: None,
        }
    }

    /// Whether there are ticks at all. A request to delete is carried out even where there are
    /// none.
    pub fn is_enabled(&self) -> (r: bool)
        ensures
            r == self@.cfg.enabled,
    {
        self.cfg.enabled
    }

    /// The seconds between two ticks.
    pub fn period_seconds(&self) -> (r: u64)
        requires
            self.well_formed(),
        ensures
            r == (if self@.cfg.interval_minutes == 0 {
                60
            } else {
                self@.cfg.interval_minutes * 60
            }),
    {
        tick_seconds(self.cfg.interval_minutes)
    }

    /// What is to be done on a tick, on the day `today`.
    pub fn begin_tick(&mut self, today: i64) -> (r: Vec<TickStep>)
        requires
            old(self).well_formed(),
        ensures
            r@ == old(self)@.steps_on(today),
            final(self)@ == (LoopView { last_hygiene: Some(today), ..old(self)@ }),
            final(self).well_formed(),
    {
        let mut steps: Vec<TickStep> = Vec::new();
        steps.push(TickStep::DrainWipeRequest);
        if hygiene_due(self.last_hygiene, today) {
            steps.push(TickStep::SweepExpired);
            steps.push(TickStep::PruneEvents { keep_days: self.events_retention_days });
            steps.push(TickStep::DrainWipeRequest);
        }
        steps.push(TickStep::Extract { since_id: self.progress.watermark });
        proof {
            assert(steps@ =~= self@.steps_on(today));
        }
        self.last_hygiene = Some(today);
        steps
    }

    /// Takes in what the pass of a tick came to, and the latest signal. Returns the sessions whose
    /// note is due.
    pub fn end_tick(
        &mut self,
        status: &mut CuratorStatus,
        outcome: &Option<ExtractOutcome>,
        pending_count: Option<u64>,
        sig: &ActivitySignal,
        now: Timestamp,
    ) -> (r: Vec<EndedSession>)
        requires
            old(self).well_formed(),
            old(status).consecutive_failures < u32::MAX,
            outcome matches Some(o) ==> old(status).candidates_written_total + o.created_ids@.len()
                <= u64::MAX,
        ensures
            *final(status) == status_after(*old(status), *outcome, pending_count, now),
            final(self)@ == old(self)@.passed(*outcome).signalled(sig@).flushed(now.nanos as int),
            ended_of(r@) == old(self)@.passed(*outcome).signalled(sig@).due(now.nanos as int),
            final(self).well_formed(),
    {
        curator_tick(&mut self.progress, status, outcome, pending_count, now);
        self.on_signal(sig);
        flush_due_sessions(&mut self.pending, self.distill_lag_minutes, now)
    }

    /// Takes in a signal.
    pub fn on_signal(&mut self, sig: &ActivitySignal)
        requires
            old(self).well_formed(),
        ensures
            final(self)@ == old(self)@.signalled(sig@),
            final(self).well_formed(),
    {
        observe_session_boundary(
            &mut self.tracker,
            &mut self.pending,
            sig,
            self.cfg.session_summary_idle_minutes,
        );
    }
}

/// Whatever the day, a tick begins with the deletions that were asked for, and ends with a pass
/// over what was not seen yet.
pub proof fn law_deletions_come_first(s: LoopView, today: i64)
    ensures
        s.steps_on(today).len() >= 2,
        s.steps_on(today)[0] == TickStep::DrainWipeRequest,
        s.steps_on(today).last() == (TickStep::Extract { since_id: s.progress.watermark }),
{
}

/// The housekeeping is done once a day: on a later tick of the same day it does not come up.
pub proof fn law_housekeeping_once_a_day(s: LoopView, today: i64)
    ensures
        !(LoopView { last_hygiene: Some(today), ..s }).steps_on(today).contains(
            TickStep::SweepExpired,
        ),
        s.last_hygiene != Some(today) ==> s.steps_on(today).contains(TickStep::SweepExpired),
{
    if s.last_hygiene != Some(today) {
        assert(s.steps_on(today)[1] == TickStep::SweepExpired);
    }
}

} // verus!
