//! # Work sessions
//!
//! Tells from the activity of the user where one session ends and the next begins, and makes a
//! note of a session that has ended.
use vstd::prelude::*;
use crate::context::trailer::normalize_open_task_trailer;
use crate::curator::run::{build_events_block, ActivitySignal};
use crate::duplicate::Duplicate;
use crate::note::{Event, NewEvent, NodeStatus, NodeType, NoteDraft, Relation, Sensitivity, Source};
use crate::outside::{minute_stamp, rfc3339};
use crate::text::{replace, same, trim};
use crate::time::{nanos_between, Timestamp};
#[allow(unused_imports)]
use crate::context::trailer::normalized;
#[allow(unused_imports)]
use crate::curator::run::{events_block, SignalView};
#[allow(unused_imports)]
use crate::note::{events_of, DraftView, RelationView};
#[allow(unused_imports)]
use crate::outside::{minute_stamp_of, rfc3339_of};
#[allow(unused_imports)]
use crate::text::{opt_view, replaced, trimmed};

verus! {

/// The minutes that a session lasts at least before another process ends it.
pub const DEFAULT_SESSION_MIN_MINUTES: u64 = 5;

/// The most minutes that a span of time can have.
pub const MAX_MINUTES: u64 = 153_722_867_280_912;

/// The fewest events that a session is summed up for.
pub const MIN_SUMMARY_EVENTS: usize = 3;

/// How many events of a session are fetched at most.
pub const SUMMARY_EVENT_LIMIT: u32 = 300;

/// The session in progress.
#[derive(Debug, Clone, PartialEq, Eq)]
pub struct SessionSnapshot {
    pub started: Timestamp,
    pub last_activity: Timestamp,
    pub project_hint: Option<String>,
    /// The process that the session is named after.
    pub process: String,
}

/// What a `SessionSnapshot` holds.
pub struct ActiveView {
    pub started: int,
    pub last_activity: int,
    pub project_hint: Option<Seq<char>>,
    pub process: Seq<char>,
}

impl View for SessionSnapshot {
    type V = ActiveView;

    open spec fn view(&self) -> ActiveView {
        ActiveView {
            started: self.started.nanos as int,
            last_activity: self.last_activity.nanos as int,
            project_hint: opt_view(self.project_hint),
            process: self.process@,
        }
    }
}

impl Duplicate for SessionSnapshot {
    fn duplicate(&self) -> (r: Self) {
        SessionSnapshot {
            started: self.started,
            last_activity: self.last_activity,
            project_hint: self.project_hint.duplicate(),
            process: self.process.clone(),
        }
    }
}

/// A session that has ended.
#[derive(Debug, Clone, PartialEq, Eq)]
pub struct EndedSession {
    pub started: Timestamp,
    pub ended: Timestamp,
    pub project_hint: Option<String>,
    pub process: String,
}

/// What an `EndedSession` holds.
pub struct EndedView {
    pub started: int,
    pub ended: int,
    pub project_hint: Option<Seq<char>>,
    pub process: Seq<char>,
}

impl View for EndedSession {
    type V = EndedView;

    open spec fn view(&self) -> EndedView {
        EndedView {
            started: self.started.nanos as int,
            ended: self.ended.nanos as int,
            project_hint: opt_view(self.project_hint),
            process: self.process@,
        }
    }
}

impl Duplicate for EndedSession {
    fn duplicate(&self) -> (r: Self) {
        EndedSession {
            started: self.started,
            ended: self.ended,
            project_hint: self.project_hint.duplicate(),
            process: self.process.clone(),
        }
    }
}

// ---------------------------------------------------------------------------
// Where a session ends
// ---------------------------------------------------------------------------

/// The nanoseconds of some minutes.
pub open spec fn minutes(n: int) -> int {
    n * 60_000_000_000
}

/// A session that begins with a signal.
pub open spec fn fresh_session(sig: SignalView, ts: int) -> ActiveView {
    ActiveView {
        started: ts,
        last_activity: ts,
        project_hint: sig.project_hint,
        process: sig.process,
    }
}

/// Whether a signal ends a session: the user was idle for too long, or works on another project,
/// or works with another process after long enough.
pub open spec fn ends_session(s: ActiveView, sig: SignalView, ts: int, idle: int, least: int) -> bool {
    ||| ts - s.last_activity > minutes(idle)
    ||| (s.project_hint matches Some(a) && (sig.project_hint matches Some(b) && a != b))
    ||| (sig.process != s.process && s.last_activity - s.started >= minutes(least))
}

/// The session after a signal. A signal from the past changes nothing. A signal that ends the
/// session begins the next; any other continues it, but does not rename it.
pub open spec fn session_after(
    current: Option<ActiveView>,
    sig: SignalView,
    idle: int,
    least: int,
) -> Option<ActiveView> {
    match sig.ts {
        None => current,
        Some(ts) => match current {
            None => Some(fresh_session(sig, ts)),
            Some(s) => if ts < s.last_activity {
                current
            } else if ends_session(s, sig, ts, idle, least) {
                Some(fresh_session(sig, ts))
            } else {
                Some(ActiveView { last_activity: ts, project_hint: sig.project_hint, ..s })
            },
        },
    }
}

/// The session that a signal ends, if it ends one. It ends with the last activity in it.
pub open spec fn session_ended(
    current: Option<ActiveView>,
    sig: SignalView,
    idle: int,
    least: int,
) -> Option<EndedView> {
    match (sig.ts, current) {
        (Some(ts), Some(s)) => if ts >= s.last_activity && ends_session(s, sig, ts, idle, least) {
            Some(
                EndedView {
                    started: s.started,
                    ended: s.last_activity,
                    project_hint: s.project_hint,
                    process: s.process,
                },
            )
        } else {
            None
        },
        _ => None,
    }
}

/// Tells where sessions end.
#[derive(Debug)]
pub struct SessionTracker {
    current: Option<SessionSnapshot>,
    session_min_minutes: u64,
}

impl SessionTracker {
    /// The session in progress.
    pub closed spec fn session(self) -> Option<ActiveView> {
        match self.current {
            Some(s) => Some(s@),
            None => None,
        }
    }

    /// The minutes that a session lasts at least before another process ends it.
    pub closed spec fn least(self) -> int {
        self.session_min_minutes as int
    }

    /// Whether the minutes are a span of time.
    pub open spec fn well_formed(self) -> bool {
        0 <= self.least() <= MAX_MINUTES
    }

    /// A tracker without a session.
    pub fn new() -> (r: Self)
        ensures
            r.session() is None,
            r.least() == DEFAULT_SESSION_MIN_MINUTES,
            r.well_formed(),
    {
        SessionTracker::with_session_min_minutes(DEFAULT_SESSION_MIN_MINUTES)
    }

    /// A tracker without a session, and with a least length of sessions.
    pub fn with_session_min_minutes(session_min_minutes: u64) -> (r: Self)
        ensures
            r.session() is None,
            r.least() == session_min_minutes,
    {
        SessionTracker { current: None, session_min_minutes }
    }

    /// Takes in a signal. Returns the session that it ends, if it ends one.
    pub fn observe(&mut self, sig: &ActivitySignal, idle_limit_min: u64) -> (r: Option<EndedSession>)
        requires
            old(self).well_formed(),
            idle_limit_min <= MAX_MINUTES,
        ensures
            (match r {
                Some(e) => Some(e@),
                None => None,
            }) == session_ended(
                old(self).session(),
                sig@,
                idle_limit_min as int,
                old(self).least(),
            ),
            final(self).session() == session_after(
                old(self).session(),
                sig@,
                idle_limit_min as int,
                old(self).least(),
            ),
            final(self).least() == old(self).least(),
    {
        let ts = match sig.ts {
            Some(t) => t,
            None => {
                return None;
            },
        };
        let state = match self.current.take() {
            Some(s) => s,
            None => {
                self.start(sig, ts);
                return None;
            },
        };
        if ts.nanos < state.last_activity.nanos {
            self.current = Some(state);
            return None;
        }
        let idle: i128 = idle_limit_min as i128 * 60_000_000_000;
        let least: i128 = self.session_min_minutes as i128 * 60_000_000_000;
        let project_changed = match (&state.project_hint, &sig.project_hint) {
            (Some(a), Some(b)) => !same(a.as_str(), b.as_str()),
            _ => false,
        };
        let handed_over = !same(sig.process.as_str(), state.process.as_str()) && nanos_between(
            state.started,
            state.last_activity,
        ) >= least;
        if nanos_between(state.last_activity, ts) > idle || project_changed || handed_over {
            self.start(sig, ts);
            return Some(
                EndedSession {
                    started: state.started,
                    ended: state.last_activity,
                    project_hint: state.project_hint,
                    process: state.process,
                },
            );
        }
        self.current = Some(
            SessionSnapshot {
                started: state.started,
                last_activity: ts,
                project_hint: sig.project_hint.duplicate(),
                process: state.process,
            },
        );
        None
    }

    /// Begins a session with a signal.
    fn start(&mut self, sig: &ActivitySignal, ts: Timestamp)
        ensures
            final(self).session() == Some(fresh_session(sig@, ts.nanos as int)),
            final(self).least() == old(self).least(),
    {
        self.current = Some(
            SessionSnapshot {
                started: ts,
                last_activity: ts,
                project_hint: sig.project_hint.duplicate(),
                process: sig.process.clone(),
            },
        );
    }

    /// The session in progress.
    pub fn snapshot(&self) -> (r: Option<SessionSnapshot>)
        ensures
            (match r {
                Some(s) => Some(s@),
                None => None,
            }) == self.session(),
    {
        self.current.duplicate()
    }
}

impl Default for SessionTracker {
    fn default() -> (r: Self)
        ensures
            r.session() is None,
            r.least() == DEFAULT_SESSION_MIN_MINUTES,
    {
        SessionTracker::new()
    }
}

// ---------------------------------------------------------------------------
// The note of a session
// ---------------------------------------------------------------------------

/// The prompt that asks for a summary of a session.
pub open spec fn summary_prompt(template: Seq<char>, e: EndedView, block: Seq<char>) -> Seq<char> {
    replaced(
        replaced(
            replaced(
                replaced(
                    replaced(template, "{{START}}"@, rfc3339_of(e.started)),
                    "{{END}}"@,
                    rfc3339_of(e.ended),
                ),
                "{{PROCESS}}"@,
                e.process,
            ),
            "{{PROJECT}}"@,
            match e.project_hint {
                Some(p) => p,
                None => "none"@,
            },
        ),
        "{{EVENTS}}"@,
        block,
    )
}

/// The prompt that asks for a summary of a session; none where too little happened in it.
pub fn session_prompt(template: &str, ended: &EndedSession, events: &Vec<Event>) -> (r: Option<String>)
    ensures
        opt_view(r) == (if events@.len() < MIN_SUMMARY_EVENTS {
            None
        } else {
            Some(summary_prompt(template@, ended@, events_block(events_of(events@))))
        }),
{
    if events.len() < MIN_SUMMARY_EVENTS {
        return None;
    }
    proof {
        reveal_strlit("{{START}}");
        reveal_strlit("{{END}}");
        reveal_strlit("{{PROCESS}}");
        reveal_strlit("{{PROJECT}}");
        reveal_strlit("{{EVENTS}}");
    }
    let block = build_events_block(events);
    let p = replace(template, "{{START}}", rfc3339(ended.started.nanos).as_str());
    let p = replace(p.as_str(), "{{END}}", rfc3339(ended.ended.nanos).as_str());
    let p = replace(p.as_str(), "{{PROCESS}}", ended.process.as_str());
    let project = match &ended.project_hint {
        Some(h) => h.as_str(),
        None => "none",
    };
    let p = replace(p.as_str(), "{{PROJECT}}", project);
    Some(replace(p.as_str(), "{{EVENTS}}", block.as_str()))
}

/// The note of a session. It tells what the timeline shows, so it counts at once. Its last line
/// names what was left open.
pub open spec fn session_draft(e: EndedView, reply: Seq<char>) -> DraftView {
    DraftView {
        node_type: NodeType::Session,
        title: "Session: "@ + e.process + " — "@ + minute_stamp_of(e.ended),
        body: normalized(trimmed(reply)),
        project: e.project_hint,
        status: NodeStatus::Confirmed,
        confidence: 1_000_000,
        importance: 500_000,
        source: Source::Observed,
        source_ref: Some("curator:session"@),
        sensitivity: Sensitivity::Normal,
        expires: None,
        relations: match e.project_hint {
            Some(p) => seq![RelationView { to: p, rel: "belongs_to"@, confidence: 1_000_000 }],
            None => seq![],
        },
        tags: seq![],
    }
}

/// Makes a note of a session from what the model said of it; none where the model found nothing
/// worth it.
pub fn write_session_summary(ended: &EndedSession, reply: &str) -> (r: Option<NoteDraft>)
    ensures
        if trimmed(reply@) == "SKIP"@ {
            r is None
        } else {
            r matches Some(d) && d@ == session_draft(ended@, reply@)
        },
{
    let told = trim(reply);
    if same(told, "SKIP") {
        return None;
    }
    let mut relations: Vec<Relation> = Vec::new();
    if let Some(hint) = &ended.project_hint {
        relations.push(
            Relation { to: hint.clone(), rel: "belongs_to".to_owned(), confidence: 1_000_000 },
        );
    }
    let mut title = "Session: ".to_owned();
    title.append(ended.process.as_str());
    title.append(" — ");
    title.append(minute_stamp(ended.ended.nanos).as_str());
    let d = NoteDraft {
        node_type: NodeType::Session,
        title,
        body: normalize_open_task_trailer(told),
        project: ended.project_hint.duplicate(),
        status: NodeStatus::Confirmed,
        confidence: 1_000_000,
        importance: 500_000,
        source: Source::Observed,
        source_ref: Some("curator:session".to_owned()),
        sensitivity: Sensitivity::Normal,
        expires: None,
        relations,
        tags: Vec::new(),
    };
    assert(d@.relations =~= session_draft(ended@, reply@).relations);
    assert(d@ =~= session_draft(ended@, reply@));
    Some(d)
}

/// The event that the note of a session leaves on the timeline.
pub fn session_event(title: &str, note_id: &str, ended: &EndedSession) -> (r: NewEvent)
    ensures
        r.kind@ == "session"@,
        r.text@ == title@,
        opt_view(r.project) == ended@.project_hint,
        opt_view(r.node_id) == Some(note_id@),
        !r.local_only,
{
    NewEvent {
        kind: "session".to_owned(),
        text: title.to_owned(),
        project: ended.project_hint.duplicate(),
        node_id: Some(note_id.to_owned()),
        local_only: false,
    }
}

// ---------------------------------------------------------------------------
// What holds of every session
// ---------------------------------------------------------------------------

/// Whether a session does not end before it begins.
pub open spec fn in_time(current: Option<ActiveView>) -> bool {
    current matches Some(s) ==> s.started <= s.last_activity
}

/// Sessions do not end before they begin, and the next session does not begin before the last one
/// has ended.
pub proof fn law_sessions_follow_each_other(
    current: Option<ActiveView>,
    sig: SignalView,
    idle: int,
    least: int,
)
    requires
        in_time(current),
    ensures
        in_time(session_after(current, sig, idle, least)),
        session_ended(current, sig, idle, least) matches Some(e) ==> e.started <= e.ended && (
        session_after(current, sig, idle, least) matches Some(n) && e.ended <= n.started),
{
}

/// What a signal does to a session, whatever the limits are. One from the past, or without a time,
/// does nothing. One that ends the session ends it as it stood, at its last activity, and begins the
/// next at its own time, with its own process and project. Any other keeps the session with its
/// beginning and its process, and brings its last activity and its project up to date.
pub proof fn law_signal_on_session(s: ActiveView, sig: SignalView, idle: int, least: int)
    ensures
        ({
            let after = session_after(Some(s), sig, idle, least);
            let ended = session_ended(Some(s), sig, idle, least);
            &&& (sig.ts matches Some(ts) ==> ts < s.last_activity) ==> ended is None && after == Some(
                s,
            )
            &&& sig.ts matches Some(ts) ==> ts >= s.last_activity ==> (match ended {
                Some(e) => ends_session(s, sig, ts, idle, least) && e.started == s.started
                    && e.ended == s.last_activity && e.project_hint == s.project_hint && e.process
                    == s.process && after == Some(fresh_session(sig, ts)),
                None => !ends_session(s, sig, ts, idle, least) && after == Some(
                    ActiveView {
                        started: s.started,
                        last_activity: ts,
                        project_hint: sig.project_hint,
                        process: s.process,
                    },
                ),
            })
        }),
{
}

/// Idleness ends every session, however long it was and whatever the signal is about: a signal that
/// comes more than `idle` minutes after the last activity ends the session at that activity, and the
/// next begins with the signal.
pub proof fn law_idleness_ends_session(
    s: ActiveView,
    sig: SignalView,
    ts: int,
    idle: int,
    least: int,
)
    requires
        sig.ts == Some(ts),
        idle >= 0,
        ts - s.last_activity > idle * 60_000_000_000,
    ensures
        session_ended(Some(s), sig, idle, least) == Some(
            EndedView {
                started: s.started,
                ended: s.last_activity,
                project_hint: s.project_hint,
                process: s.process,
            },
        ),
        session_after(Some(s), sig, idle, least) == Some(
            ActiveView {
                started: ts,
                last_activity: ts,
                project_hint: sig.project_hint,
                process: sig.process,
            },
        ),
{
}

/// Only three things end a session: a break of more than `idle` minutes, another project, or
/// another process once the session has lasted `least` minutes. Each of them does.
pub proof fn law_what_ends_session(
    s: ActiveView,
    sig: SignalView,
    ts: int,
    idle: int,
    least: int,
)
    requires
        sig.ts == Some(ts),
        ts >= s.last_activity,
    ensures
        session_ended(Some(s), sig, idle, least) is Some <==> {
            ||| ts - s.last_activity > idle * 60_000_000_000
            ||| s.project_hint is Some && sig.project_hint is Some && s.project_hint
                != sig.project_hint
            ||| s.process != sig.process && s.last_activity - s.started >= least * 60_000_000_000
        },
        session_ended(Some(s), sig, idle, least) is Some ==> session_ended(
            Some(s),
            sig,
            idle,
            least,
        ) == Some(
            EndedView {
                started: s.started,
                ended: s.last_activity,
                project_hint: s.project_hint,
                process: s.process,
            },
        ) && session_after(Some(s), sig, idle, least) == Some(
            ActiveView {
                started: ts,
                last_activity: ts,
                project_hint: sig.project_hint,
                process: sig.process,
            },
        ),
        session_ended(Some(s), sig, idle, least) is None ==> session_after(
            Some(s),
            sig,
            idle,
            least,
        ) == Some(
            ActiveView {
                started: s.started,
                last_activity: ts,
                project_hint: sig.project_hint,
                process: s.process,
            },
        ),
{
}

/// The first signal with a time begins a session at that time, and ends none.
pub proof fn law_first_signal_begins_session(sig: SignalView, idle: int, least: int)
    ensures
        session_ended(None, sig, idle, least) is None,
        sig.ts is None ==> session_after(None, sig, idle, least) is None,
        sig.ts matches Some(ts) ==> session_after(None, sig, idle, least) == Some(
            ActiveView {
                started: ts,
                last_activity: ts,
                project_hint: sig.project_hint,
                process: sig.process,
            },
        ),
{
}

/// A longer break ends whatever a shorter one ends, and a larger limit ends nothing that a smaller
/// one lets go on.
pub proof fn law_longer_breaks_end_more(
    s: ActiveView,
    sooner: SignalView,
    later: SignalView,
    idle: int,
    wider: int,
    least: int,
)
    requires
        sooner.ts is Some && later.ts is Some && s.last_activity <= sooner.ts->0 <= later.ts->0,
        sooner.project_hint == later.project_hint,
        sooner.process == later.process,
        idle <= wider,
    ensures
        session_ended(Some(s), sooner, idle, least) is Some ==> session_ended(
            Some(s),
            later,
            idle,
            least,
        ) is Some,
        session_ended(Some(s), sooner, wider, least) is Some ==> session_ended(
            Some(s),
            sooner,
            idle,
            least,
        ) is Some,
{
}

/// A signal from the past, or without a time, neither ends nor changes a session.
pub proof fn law_past_signals_are_ignored(s: ActiveView, sig: SignalView, idle: int, least: int)
    requires
        sig.ts matches Some(ts) ==> ts < s.last_activity,
    ensures
        session_after(Some(s), sig, idle, least) == Some(s),
        session_ended(Some(s), sig, idle, least) is None,
{
}

/// A short look at another process, in time and within the project, neither ends a session nor
/// renames it, as long as the session has not lasted long enough.
pub proof fn law_short_looks_keep_session(s: ActiveView, sig: SignalView, idle: int, least: int)
    requires
        sig.ts matches Some(ts) && s.last_activity <= ts <= s.last_activity + minutes(idle),
        s.project_hint is None || sig.project_hint is None || s.project_hint == sig.project_hint,
        s.last_activity - s.started < minutes(least),
    ensures
        session_ended(Some(s), sig, idle, least) is None,
        session_after(Some(s), sig, idle, least) matches Some(n) && n.process == s.process
            && n.started == s.started,
{
}

/// Work on another project ends a session at once, however short it was.
pub proof fn law_project_change_ends_session(
    s: ActiveView,
    sig: SignalView,
    idle: int,
    least: int,
)
    requires
        sig.ts matches Some(ts) && s.last_activity <= ts,
        s.project_hint is Some && sig.project_hint is Some && s.project_hint != sig.project_hint,
    ensures
        session_ended(Some(s), sig, idle, least) matches Some(e) && e.ended == s.last_activity
            && e.project_hint == s.project_hint,
{
}

} // verus!
