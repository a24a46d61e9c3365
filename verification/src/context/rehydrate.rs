//! # Starting up again
//!
//! The session state after a restart: what was stored last, trusted the less the older it is, and
//! brought up to date by the events since.
use vstd::prelude::*;
use crate::context::session_state::{
    names_file, push_open_file, EventDigest, SessionState, SessionStateConfig, StampedText,
};
use crate::duplicate::Duplicate;
use crate::ratio::least;
use crate::text::same;
use crate::time::{nanos_between, Timestamp};
#[allow(unused_imports)]
use crate::context::session_state::{
    blank_state, files_after, is_file_event, StampView, StateView,
};
#[allow(unused_imports)]
use crate::ratio::ONE;
#[allow(unused_imports)]
use crate::text::opt_view;

verus! {

/// The minutes for which a stored state is as good as new.
pub const REHYDRATE_FRESH_MINUTES: i64 = 30;

/// The hours after which a stored state is very old.
pub const REHYDRATE_VERY_STALE_HOURS: i64 = 4;

/// What remains of the confidence of a stored state that is not new, in millionths.
pub const REHYDRATE_STALE_DISCOUNT: u32 = 500_000;

/// What remains of the confidence of a stored state that is very old, in millionths.
pub const REHYDRATE_VERY_STALE_DISCOUNT: u32 = 250_000;

/// The minutes of events that a restart looks back on.
pub const REHYDRATE_LOOKBACK_MINUTES: i64 = 60;

/// The nanoseconds of thirty minutes.
pub open spec fn fresh_nanos() -> int {
    REHYDRATE_FRESH_MINUTES * 60 * 1_000_000_000
}

/// The nanoseconds of four hours.
pub open spec fn very_stale_nanos() -> int {
    REHYDRATE_VERY_STALE_HOURS * 3600 * 1_000_000_000
}

/// What remains of a confidence at an age, in millionths: all of it, half of it, a quarter of it.
pub open spec fn discount(age: int) -> int {
    if age <= fresh_nanos() {
        1_000_000
    } else if age <= very_stale_nanos() {
        REHYDRATE_STALE_DISCOUNT as int
    } else {
        REHYDRATE_VERY_STALE_DISCOUNT as int
    }
}

/// What remains of a confidence at an age, in millionths.
pub fn staleness_discount(age_nanos: i128) -> (r: u32)
    ensures
        r == discount(age_nanos as int),
        r <= 1_000_000,
{
    if age_nanos <= 1_800_000_000_000 {
        1_000_000
    } else if age_nanos <= 14_400_000_000_000 {
        REHYDRATE_STALE_DISCOUNT
    } else {
        REHYDRATE_VERY_STALE_DISCOUNT
    }
}

/// The confidence of a stored state at an age: discounted, never above one, and where the state
/// is very old not above the floor either.
pub open spec fn aged_confidence(confidence: int, age: int, floor: int) -> int {
    let d = confidence * discount(age) / 1_000_000;
    let c = if d <= ONE {
        d
    } else {
        ONE as int
    };
    if age > very_stale_nanos() && floor < c {
        floor
    } else {
        c
    }
}

/// The state that a stored state gives at `now`. What window is open is not taken from it.
pub open spec fn restored(prev: StateView, now: int, floor: int) -> StateView {
    let age = now - prev.updated;
    StateView {
        active_app: None,
        window_title: None,
        confidence: aged_confidence(prev.confidence, age, floor),
        since: if age <= fresh_nanos() {
            prev.since
        } else {
            now
        },
        updated: now,
        ..prev
    }
}

/// What came up last: what is known, or what an event says where it is not older.
pub open spec fn later(known: Option<StampView>, text: Seq<char>, at: int) -> Option<StampView> {
    match known {
        Some(k) if k.at > at => known,
        _ => Some(StampView { text, at }),
    }
}

/// The state after an event from before the restart.
pub open spec fn caught_up(s: StateView, e: EventDigest) -> StateView {
    let at = e.ts.nanos as int;
    let t = if e.event_type@ == "error"@ {
        if e.summary@.len() > 0 {
            StateView { last_error: later(s.last_error, e.summary@, at), ..s }
        } else {
            s
        }
    } else if e.event_type@ == "success"@ {
        if e.summary@.len() > 0 {
            StateView { last_success: later(s.last_success, e.summary@, at), ..s }
        } else {
            s
        }
    } else if is_file_event(e.event_type@) {
        StateView { open_files: files_after(s.open_files, e.summary@), ..s }
    } else {
        s
    };
    if t.active_project is None {
        StateView { active_project: opt_view(e.project_id), ..t }
    } else {
        t
    }
}

/// The state after a list of events from before the restart.
pub open spec fn caught_up_all(s: StateView, events: Seq<EventDigest>) -> StateView
    decreases events.len(),
{
    if events.len() == 0 {
        s
    } else {
        caught_up(caught_up_all(s, events.drop_last()), events.last())
    }
}

/// The state after a restart.
pub open spec fn rehydrated(
    persisted: Option<StateView>,
    events: Seq<EventDigest>,
    now: int,
    floor: int,
) -> StateView {
    caught_up_all(
        match persisted {
            Some(prev) => restored(prev, now, floor),
            None => blank_state(now),
        },
        events,
    )
}

/// What came up last.
fn take_later(known: &mut Option<StampedText>, text: &String, at: Timestamp)
    ensures
        crate::context::session_state::opt_stamp(*final(known)) == later(
            crate::context::session_state::opt_stamp(*old(known)),
            text@,
            at.nanos as int,
        ),
{
    let newer: bool = match &*known {
        Some(k) => k.at.nanos <= at.nanos,
        None => true,
    };
    if newer {
        *known = Some(StampedText::new(text.clone(), at));
    }
}

/// Brings a state up to date by one event.
fn catch_up(state: &mut SessionState, e: &EventDigest)
    ensures
        final(state)@ == caught_up(old(state)@, *e),
{
    let kind = e.event_type.as_str();
    if same(kind, "error") {
        if !e.summary.as_str().is_empty() {
            take_later(&mut state.last_error, &e.summary, e.ts);
        }
    } else if same(kind, "success") {
        if !e.summary.as_str().is_empty() {
            take_later(&mut state.last_success, &e.summary, e.ts);
        }
    } else if names_file(kind) {
        push_open_file(&mut state.open_files, e.summary.as_str());
    }
    if state.active_project.is_none() {
        state.active_project = e.project_id.duplicate();
    }
}

/// A part of a confidence, never above one.
fn scale(confidence: u32, keep: u32) -> (r: u32)
    requires
        keep <= 1_000_000,
    ensures
        r == (if confidence * keep / 1_000_000 <= ONE {
            confidence * keep / 1_000_000
        } else {
            ONE as int
        }),
{
    assert(confidence * keep <= 0xffff_ffff * 1_000_000) by (nonlinear_arith)
        requires
            confidence <= 0xffff_ffff,
            keep <= 1_000_000,
    ;
    let scaled: u64 = confidence as u64 * keep as u64 / 1_000_000;
    if scaled <= ONE as u64 {
        scaled as u32
    } else {
        ONE
    }
}

/// Rebuilds the session state from what was stored and the events since, the oldest first.
///
/// Goal and task are kept even where they are no longer sure enough to be shown: they were once,
/// and are merely old.
pub fn rehydrate(
    persisted: Option<SessionState>,
    events: &Vec<EventDigest>,
    now: Timestamp,
    cfg: &SessionStateConfig,
) -> (r: SessionState)
    ensures
        r@ == rehydrated(
            match persisted {
                Some(p) => Some(p@),
                None => None,
            },
            events@,
            now.nanos as int,
            cfg.confidence_floor as int,
        ),
{
    let mut state: SessionState = match persisted {
        Some(prev) => {
            let age: i128 = nanos_between(prev.updated, now);
            let keep: u32 = staleness_discount(age);
            let mut confidence: u32 = scale(prev.confidence, keep);
            if age > 14_400_000_000_000 {
                confidence = least(confidence, cfg.confidence_floor);
            }
            let mut s = prev;
            s.active_app = None;
            s.window_title = None;
            s.confidence = confidence;
            if age > 1_800_000_000_000 {
                s.since = now;
            }
            s.updated = now;
            s
        },
        None => SessionState::blank(now),
    };
    let ghost start = state@;
    let mut i: usize = 0;
    proof {
        assert(events@.take(0) == Seq::<EventDigest>::empty());
    }
    while i < events.len()
        invariant
            i <= events.len(),
            state@ == caught_up_all(start, events@.take(i as int)),
        decreases events.len() - i,
    {
        proof {
            assert(events@.take(i + 1).drop_last() == events@.take(i as int));
        }
        catch_up(&mut state, &events[i]);
        i = i + 1;
    }
    proof {
        assert(events@.take(events@.len() as int) == events@);
    }
    state
}

/// A restart keeps goal and task, what is pinned and confirmed, and the clock of the inference.
pub proof fn law_restart_keeps_what_was_told(
    prev: StateView,
    events: Seq<EventDigest>,
    now: int,
    floor: int,
)
    ensures
        ({
            let s = rehydrated(Some(prev), events, now, floor);
            &&& s.current_goal == prev.current_goal
            &&& s.current_task == prev.current_task
            &&& s.pinned == prev.pinned
            &&& s.user_confirmed == prev.user_confirmed
            &&& s.inferred_at == prev.inferred_at
            &&& s.local_only == prev.local_only
            &&& s.last_user_command == prev.last_user_command
            &&& prev.active_project is Some ==> s.active_project == prev.active_project
        }),
{
    lemma_caught_up_keeps(restored(prev, now, floor), events);
}

proof fn lemma_caught_up_keeps(s: StateView, events: Seq<EventDigest>)
    ensures
        ({
            let t = caught_up_all(s, events);
            &&& t.current_goal == s.current_goal
            &&& t.current_task == s.current_task
            &&& t.pinned == s.pinned
            &&& t.user_confirmed == s.user_confirmed
            &&& t.inferred_at == s.inferred_at
            &&& t.local_only == s.local_only
            &&& t.last_user_command == s.last_user_command
            &&& t.confidence == s.confidence
            &&& s.active_project is Some ==> t.active_project == s.active_project
        }),
    decreases events.len(),
{
    if events.len() > 0 {
        lemma_caught_up_keeps(s, events.drop_last());
    }
}

/// A restart never raises a confidence, and what is very old is not sure enough to outrank what is
/// inferred anew.
pub proof fn law_restart_lowers_confidence(
    prev: StateView,
    events: Seq<EventDigest>,
    now: int,
    floor: int,
)
    requires
        0 <= prev.confidence <= ONE,
        0 <= floor,
    ensures
        0 <= rehydrated(Some(prev), events, now, floor).confidence <= prev.confidence,
        now - prev.updated > very_stale_nanos() ==> rehydrated(
            Some(prev),
            events,
            now,
            floor,
        ).confidence <= floor,
{
    lemma_caught_up_keeps(restored(prev, now, floor), events);
    let c = prev.confidence;
    let d = discount(now - prev.updated);
    assert(0 <= c * d / 1_000_000 <= c) by (nonlinear_arith)
        requires
            0 <= c,
            0 <= d <= 1_000_000,
    ;
}

} // verus!
