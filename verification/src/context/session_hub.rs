//! # The session-state hub
//!
//! Owns the session state and the window of recent events, and applies to them what comes in:
//! frames, events, commands, inferences, and what the user corrects and pins. A version counts the
//! changes of content: it does not move where only time passes.
use std::collections::VecDeque;
use vstd::prelude::*;
use crate::context::intents::SessionField;
use crate::context::package::PRIVATE_PLACEHOLDER;
use crate::context::resolver::CurrentProject;
use crate::context::session_state::{
    digest_from_event, evaluate_trigger, file_from_window_title, names_file, push_open_file, remove_all, ContextEvent, EventDigest,
    InferenceTrigger, SessionState, SessionStateConfig, StampedText, TriggerInputs,
};
use crate::duplicate::Duplicate;
use crate::text::{list_contains, same, same_opt, shorten_chars, trim};
use crate::time::Timestamp;
#[allow(unused_imports)]
use crate::context::intents::field_name;
#[allow(unused_imports)]
use crate::context::session_state::{
    blank_state, digest_of, file_in_title, files_after, is_file_event, triggered, without,
    StampView, StateView,
};
#[allow(unused_imports)]
use crate::ratio::ONE;
#[allow(unused_imports)]
use crate::text::{char_prefix, opt_str_view, opt_view, trimmed, views};

verus! {

/// The name under which a window that must not be observed is reported.
pub const EXCLUDED_PROCESS: &'static str = "[excluded]";

/// How many events the window holds.
pub const EVENT_RING_CAP: usize = 64;

/// The characters of a command or a correction that are kept.
pub const TOLD_TEXT_MAX_CHARS: usize = 400;

/// What the session state needs of a frame.
#[derive(Debug, Clone, PartialEq, Eq)]
pub struct FrameFacts {
    pub ts: Timestamp,
    pub process_name: String,
    pub window_title: String,
    /// Whether what the window shows must stay on the machine.
    pub privacy_restricted: bool,
}

/// What a model inferred.
#[derive(Debug, Clone, Default, PartialEq, Eq)]
pub struct InferenceResult {
    pub goal: Option<String>,
    pub task: Option<String>,
    pub activity: Option<String>,
    pub interpretation: Option<String>,
    pub suggested_help: Option<String>,
    /// In millionths.
    pub confidence: u32,
}

/// The text of an `InferenceResult`.
#[verifier::ext_equal]
pub struct InferenceView {
    pub goal: Option<Seq<char>>,
    pub task: Option<Seq<char>>,
    pub activity: Option<Seq<char>>,
    pub interpretation: Option<Seq<char>>,
    pub suggested_help: Option<Seq<char>>,
    pub confidence: int,
}

impl View for InferenceResult {
    type V = InferenceView;

    open spec fn view(&self) -> InferenceView {
        InferenceView {
            goal: opt_view(self.goal),
            task: opt_view(self.task),
            activity: opt_view(self.activity),
            interpretation: opt_view(self.interpretation),
            suggested_help: opt_view(self.suggested_help),
            confidence: self.confidence as int,
        }
    }
}

// ---------------------------------------------------------------------------
// What becomes of the state
// ---------------------------------------------------------------------------

/// Whether a frame changes the project of the state. It does not where the project is pinned.
pub open spec fn frame_switches(s: StateView, project: Option<Seq<char>>) -> bool {
    !s.pins(SessionField::Project) && s.active_project != project
}

/// The state after a frame. A change of the project drops what was inferred, a window that must
/// not be observed is shown as private, and a window whose content must stay on the machine adds
/// no open file.
pub open spec fn after_frame(s: StateView, f: FrameFacts, project: Option<Seq<char>>) -> StateView {
    let t = if frame_switches(s, project) {
        StateView { active_project: project, since: f.ts.nanos as int, ..s.uninferred() }
    } else {
        s
    };
    if f.process_name@ == EXCLUDED_PROCESS@ {
        StateView {
            active_app: Some(PRIVATE_PLACEHOLDER@),
            window_title: Some(PRIVATE_PLACEHOLDER@),
            ..t
        }
    } else {
        StateView {
            active_app: Some(f.process_name@),
            window_title: Some(f.window_title@),
            open_files: if f.privacy_restricted {
                t.open_files
            } else {
                match file_in_title(f.window_title@) {
                    Some(file) => files_after(t.open_files, file),
                    None => t.open_files,
                }
            },
            ..t
        }
    }
}

/// Whether a file event belongs to what the user is working on: any does where no project is
/// known.
pub open spec fn belongs(active: Option<Seq<char>>, event: Option<Seq<char>>) -> bool {
    active matches Some(a) ==> event == Some(a)
}

/// The state after an event.
pub open spec fn after_event(s: StateView, d: EventDigest) -> StateView {
    let stamp = StampView { text: d.summary@, at: d.ts.nanos as int };
    if d.event_type@ == "error"@ {
        if d.summary@.len() == 0 {
            s
        } else {
            StateView { last_error: Some(stamp), ..s }
        }
    } else if d.event_type@ == "success"@ {
        if d.summary@.len() == 0 {
            s
        } else {
            StateView { last_success: Some(stamp), ..s }
        }
    } else if is_file_event(d.event_type@) && belongs(s.active_project, opt_view(d.project_id)) {
        StateView { open_files: files_after(s.open_files, d.summary@), ..s }
    } else {
        s
    }
}

/// The state after the user asked for something. Nothing but white space is no command.
pub open spec fn after_command(s: StateView, text: Seq<char>, now: int) -> StateView {
    if trimmed(text).len() == 0 {
        s
    } else {
        StateView {
            last_user_command: Some(
                StampView {
                    text: char_prefix(trimmed(text), TOLD_TEXT_MAX_CHARS as int),
                    at: now,
                },
            ),
            ..s
        }
    }
}

/// The state after an inference. A pinned field stays as it is; where goal and task both are, so
/// does what describes them.
pub open spec fn after_inference(s: StateView, r: InferenceView, local_only: bool, now: int) -> StateView {
    let goal = s.pins(SessionField::Goal);
    let task = s.pins(SessionField::Task);
    let both = goal && task;
    StateView {
        current_goal: if goal {
            s.current_goal
        } else {
            r.goal
        },
        current_task: if task {
            s.current_task
        } else {
            r.task
        },
        activity_summary: r.activity,
        interpretation: r.interpretation,
        suggested_help: r.suggested_help,
        confidence: if both {
            s.confidence
        } else {
            r.confidence
        },
        local_only: if both {
            s.local_only
        } else {
            local_only
        },
        inferred_at: if both {
            s.inferred_at
        } else {
            Some(now)
        },
        ..s
    }
}

/// A list that holds `x`: as it is where it did, else with `x` at its end.
pub open spec fn with_token(l: Seq<Seq<char>>, x: Seq<char>) -> Seq<Seq<char>> {
    if l.contains(x) {
        l
    } else {
        l.push(x)
    }
}

/// The state after the user corrected a field. What the user says is certain, and no longer comes
/// from what was observed; a new project drops what was inferred for the old one.
pub open spec fn after_correction(
    s: StateView,
    field: SessionField,
    value: Seq<char>,
    now: int,
) -> StateView {
    let text = char_prefix(trimmed(value), TOLD_TEXT_MAX_CHARS as int);
    if trimmed(value).len() == 0 {
        s
    } else {
        let t = match field {
            SessionField::Project => if s.active_project == Some(text) {
                s
            } else {
                StateView { active_project: Some(text), since: now, ..s.uninferred() }
            },
            SessionField::Goal => StateView {
                current_goal: Some(text),
                confidence: ONE as int,
                local_only: false,
                inferred_at: Some(now),
                ..s
            },
            SessionField::Task => StateView {
                current_task: Some(text),
                confidence: ONE as int,
                local_only: false,
                inferred_at: Some(now),
                ..s
            },
        };
        StateView { user_confirmed: with_token(t.user_confirmed, field_name(field)), ..t }
    }
}

/// The state after a field was pinned (`on`) or released.
pub open spec fn after_pin_mark(s: StateView, field: SessionField, on: bool) -> StateView {
    StateView {
        pinned: if on {
            with_token(s.pinned, field_name(field))
        } else {
            without(s.pinned, field_name(field))
        },
        ..s
    }
}

// ---------------------------------------------------------------------------
// The hub
// ---------------------------------------------------------------------------

/// The session state and the recent events.
#[derive(Debug)]
pub struct SessionStateHub {
    state: SessionState,
    events: VecDeque<EventDigest>,
    significant_since_infer: usize,
    focus_switches_since_infer: usize,
    project_switched_since_infer: bool,
    last_inference_at: Option<Timestamp>,
    version: u64,
}

/// What a `SessionStateHub` holds.
#[verifier::ext_equal]
pub struct HubView {
    pub state: StateView,
    pub events: Seq<EventDigest>,
    pub significant: int,
    pub focus_switches: int,
    pub project_switched: bool,
    pub last_inference_at: Option<Timestamp>,
    pub version: int,
}

impl View for SessionStateHub {
    type V = HubView;

    closed spec fn view(&self) -> HubView {
        HubView {
            state: self.state@,
            events: self.events@,
            significant: self.significant_since_infer as int,
            focus_switches: self.focus_switches_since_infer as int,
            project_switched: self.project_switched_since_infer,
            last_inference_at: self.last_inference_at,
            version: self.version as int,
        }
    }
}

/// The version after a change.
pub open spec fn next_version(v: int) -> int {
    if v == u64::MAX {
        0
    } else {
        v + 1
    }
}

impl HubView {
    /// The hub after an event, which counts as significant from an importance of `threshold` on.
    pub open spec fn eventful(self, d: EventDigest, threshold: int) -> HubView {
        let h = self.settled(after_event(self.state, d), d.ts.nanos as int);
        HubView {
            significant: counted(self.significant, d.importance >= threshold),
            focus_switches: counted(self.focus_switches, d.event_type@ == "focus_switch"@),
            events: ring_after(self.events, d),
            ..h
        }
    }

    /// The hub after a frame. That the project changed is kept in mind until an inference is attempted.
    pub open spec fn framed(self, f: FrameFacts, project: Option<Seq<char>>) -> HubView {
        HubView {
            project_switched: self.project_switched || frame_switches(self.state, project),
            ..self.settled(after_frame(self.state, f, project), f.ts.nanos as int)
        }
    }

    /// The hub after a field was pinned to a value, which is applied as a correction is, or released.
    pub open spec fn pinned_to(self, field: SessionField, value: Option<Seq<char>>, now: int) -> HubView {
        let h = match value {
            Some(v) => self.settled(after_correction(self.state, field, v, now), now),
            None => self,
        };
        h.settled(after_pin_mark(h.state, field, value is Some), now)
    }

    /// Why an inference is to be made now, if it is.
    pub open spec fn due(
        self,
        cfg: SessionStateConfig,
        now: Timestamp,
        idle: bool,
    ) -> Option<InferenceTrigger> {
        triggered(
            TriggerInputs {
                now,
                idle,
                has_content: !self.state.is_blank(),
                last_inference_at: self.last_inference_at,
                project_switched: self.project_switched,
                significant_events: self.significant as usize,
                focus_switches: self.focus_switches as usize,
            },
            cfg,
        )
    }

    /// The hub after an inference was attempted.
    pub open spec fn attempted(self, now: Timestamp) -> HubView {
        HubView {
            last_inference_at: Some(now),
            significant: 0,
            focus_switches: 0,
            project_switched: false,
            ..self
        }
    }

    /// The hub after its state became `next` at `now`. Time stamp and version move exactly where
    /// the content did.
    pub open spec fn settled(self, next: StateView, now: int) -> HubView {
        if next == self.state {
            self
        } else {
            HubView {
                state: StateView { updated: now, ..next },
                version: next_version(self.version),
                ..self
            }
        }
    }
}

/// A count after one more, up to the largest that can be held.
pub open spec fn counted(n: int, one_more: bool) -> int {
    if one_more && n < usize::MAX {
        n + 1
    } else {
        n
    }
}

/// A count after one more, up to the largest that can be held.
fn count_one(n: usize, one_more: bool) -> (r: usize)
    ensures
        r == counted(n as int, one_more),
{
    if one_more && n < usize::MAX {
        n + 1
    } else {
        n
    }
}

/// The window of events after one more came in.
pub open spec fn ring_after(events: Seq<EventDigest>, d: EventDigest) -> Seq<EventDigest> {
    if events.len() >= EVENT_RING_CAP {
        events.drop_first().push(d)
    } else {
        events.push(d)
    }
}

/// The last `n` of a list.
pub open spec fn last_of<A>(l: Seq<A>, n: int) -> Seq<A> {
    if l.len() <= n {
        l
    } else {
        l.skip(l.len() - n)
    }
}

impl Default for SessionStateHub {
    fn default() -> (r: Self)
        ensures
            r@.state == blank_state(r@.state.since),
            r@ == (HubView {
                state: r@.state,
                events: seq![],
                significant: 0,
                focus_switches: 0,
                project_switched: false,
                last_inference_at: None,
                version: 0,
            }),
    {
        SessionStateHub::new()
    }
}

impl SessionStateHub {
    /// A hub in which nothing is known.
    pub fn new() -> (r: Self)
        ensures
            r@.state == blank_state(r@.state.since),
            r@ == (HubView {
                state: r@.state,
                events: seq![],
                significant: 0,
                focus_switches: 0,
                project_switched: false,
                last_inference_at: None,
                version: 0,
            }),
    {
        SessionStateHub::with_state(SessionState::default())
    }

    /// A hub that starts from a given state.
    pub fn with_state(state: SessionState) -> (r: Self)
        ensures
            r@ == (HubView {
                state: state@,
                events: seq![],
                significant: 0,
                focus_switches: 0,
                project_switched: false,
                last_inference_at: None,
                version: 0,
            }),
    {
        SessionStateHub {
            state,
            events: VecDeque::new(),
            significant_since_infer: 0,
            focus_switches_since_infer: 0,
            project_switched_since_infer: false,
            last_inference_at: None,
            version: 0,
        }
    }

    /// The state.
    pub fn snapshot(&self) -> (r: SessionState)
        ensures
            r@ == self@.state,
    {
        self.state.copy()
    }

    /// How often the content changed.
    pub fn version(&self) -> (r: u64)
        ensures
            r == self@.version,
    {
        self.version
    }

    /// Puts another state in place of the present one.
    pub fn replace(&mut self, state: SessionState)
        ensures
            final(self)@ == (HubView {
                state: state@,
                version: next_version(old(self)@.version),
                ..old(self)@
            }),
    {
        self.state = state;
        self.bump();
    }

    fn bump(&mut self)
        ensures
            final(self)@ == (HubView {
                version: next_version(old(self)@.version),
                ..old(self)@
            }),
    {
        self.version = if self.version == u64::MAX {
            0
        } else {
            self.version + 1
        };
    }

    /// Puts the state that came of a change in place, and moves time stamp and version where the
    /// content changed.
    fn mutate(&mut self, next: SessionState, now: Timestamp)
        ensures
            final(self)@ == old(self)@.settled(next@, now.nanos as int),
    {
        if !next.same_content(&self.state) {
            self.state = next;
            self.state.updated = now;
            self.bump();
        }
    }

    /// Applies a frame.
    pub fn apply_frame(&mut self, frame: &FrameFacts, current_project: Option<&CurrentProject>)
        ensures
            ({
                let project = match current_project {
                    Some(p) => Some(p.id@),
                    None => None,
                };
                final(self)@ == old(self)@.framed(*frame, project)
            }),
    {
        let project: Option<String> = match current_project {
            Some(p) => Some(p.id.clone()),
            None => None,
        };
        let mut s = self.state.copy();
        let mut switched: bool = false;
        if !s.is_pinned(SessionField::Project) && !same_opt(&s.active_project, &project) {
            switched = true;
            s.clear_inferred_unpinned();
            s.active_project = project;
            s.since = frame.ts;
        }
        if same(frame.process_name.as_str(), EXCLUDED_PROCESS) {
            s.active_app = Some(PRIVATE_PLACEHOLDER.to_owned());
            s.window_title = Some(PRIVATE_PLACEHOLDER.to_owned());
        } else {
            s.active_app = Some(frame.process_name.clone());
            s.window_title = Some(frame.window_title.clone());
            if !frame.privacy_restricted {
                if let Some(file) = file_from_window_title(frame.window_title.as_str()) {
                    push_open_file(&mut s.open_files, file.as_str());
                }
            }
        }
        self.mutate(s, frame.ts);
        if switched {
            self.project_switched_since_infer = true;
        }
    }

    /// Records what the user asked for. Where it was asked has no bearing on the state.
    pub fn note_user_command(&mut self, text: &str, _source: &str, now: Timestamp)
        ensures
            final(self)@ == old(self)@.settled(
                after_command(old(self)@.state, text@, now.nanos as int),
                now.nanos as int,
            ),
    {
        let told = trim(text);
        if told.is_empty() {
            return;
        }
        let mut s = self.state.copy();
        s.last_user_command = Some(
            StampedText::new(shorten_chars(told, TOLD_TEXT_MAX_CHARS), now),
        );
        self.mutate(s, now);
    }

    /// Applies an event, and takes it into the window.
    pub fn apply_event(&mut self, digest: EventDigest, cfg: &SessionStateConfig)
        ensures
            final(self)@ == old(self)@.eventful(digest, cfg.significant_importance as int),
    {
        let mut s = self.state.copy();
        let kind = digest.event_type.as_str();
        if same(kind, "error") {
            if !digest.summary.as_str().is_empty() {
                s.last_error = Some(StampedText::new(digest.summary.clone(), digest.ts));
            }
        } else if same(kind, "success") {
            if !digest.summary.as_str().is_empty() {
                s.last_success = Some(StampedText::new(digest.summary.clone(), digest.ts));
            }
        } else if names_file(kind) {
            let ours: bool = match (&s.active_project, &digest.project_id) {
                (Some(a), Some(b)) => same(a.as_str(), b.as_str()),
                (None, _) => true,
                _ => false,
            };
            if ours {
                push_open_file(&mut s.open_files, digest.summary.as_str());
            }
        }
        self.mutate(s, digest.ts);
        self.significant_since_infer = count_one(
            self.significant_since_infer,
            digest.importance >= cfg.significant_importance,
        );
        self.focus_switches_since_infer = count_one(
            self.focus_switches_since_infer,
            same(digest.event_type.as_str(), "focus_switch"),
        );
        let ghost before = self.events@;
        if self.events.len() >= EVENT_RING_CAP {
            self.events.pop_front();
            proof {
                assert(self.events@ =~= before.drop_first());
            }
        }
        self.events.push_back(digest);
    }

    /// Applies an event as it was observed.
    pub fn apply_context_event(&mut self, event: &ContextEvent, cfg: &SessionStateConfig)
        ensures
            final(self)@ == old(self)@.eventful(
                digest_of(*event),
                cfg.significant_importance as int,
            ),
    {
        self.apply_event(digest_from_event(event), cfg);
    }

    /// Fills the window with the latest of the given events, the oldest first.
    pub fn seed_events(&mut self, digests: Vec<EventDigest>)
        ensures
            final(self)@ == (HubView {
                events: last_of(digests@, EVENT_RING_CAP as int),
                ..old(self)@
            }),
    {
        self.events = latest_of(&digests, EVENT_RING_CAP);
    }

    /// The last `n` events, the oldest first.
    pub fn recent_events(&self, n: usize) -> (r: Vec<EventDigest>)
        ensures
            r@ == last_of(self@.events, n as int),
    {
        tail_of(&self.events, n)
    }

    /// Decides whether to infer now, and why.
    pub fn trigger(&self, cfg: &SessionStateConfig, now: Timestamp, idle: bool) -> (r: Option<
        InferenceTrigger,
    >)
        ensures
            r == self@.due(*cfg, now, idle),
    {
        evaluate_trigger(
            &TriggerInputs {
                now,
                idle,
                has_content: !self.state.is_empty(),
                last_inference_at: self.last_inference_at,
                project_switched: self.project_switched_since_infer,
                significant_events: self.significant_since_infer,
                focus_switches: self.focus_switches_since_infer,
            },
            cfg,
        )
    }

    /// Notes that an inference is attempted now. What counts towards the next one starts anew.
    pub fn mark_inference_attempt(&mut self, now: Timestamp)
        ensures
            final(self)@ == old(self)@.attempted(now),
    {
        self.last_inference_at = Some(now);
        self.significant_since_infer = 0;
        self.focus_switches_since_infer = 0;
        self.project_switched_since_infer = false;
    }

    /// Applies what a model inferred.
    pub fn apply_inference(&mut self, result: &InferenceResult, local_only: bool, now: Timestamp)
        ensures
            final(self)@ == old(self)@.settled(
                after_inference(old(self)@.state, result@, local_only, now.nanos as int),
                now.nanos as int,
            ),
    {
        let mut s = self.state.copy();
        let goal: bool = s.is_pinned(SessionField::Goal);
        let task: bool = s.is_pinned(SessionField::Task);
        if !goal {
            s.current_goal = result.goal.duplicate();
        }
        if !task {
            s.current_task = result.task.duplicate();
        }
        s.activity_summary = result.activity.duplicate();
        s.interpretation = result.interpretation.duplicate();
        s.suggested_help = result.suggested_help.duplicate();
        if !(goal && task) {
            s.confidence = result.confidence;
            s.local_only = local_only;
            s.inferred_at = Some(now);
        }
        self.mutate(s, now);
    }

    /// Applies a correction of the user.
    pub fn apply_correction(&mut self, field: SessionField, value: &str, now: Timestamp)
        ensures
            final(self)@ == old(self)@.settled(
                after_correction(old(self)@.state, field, value@, now.nanos as int),
                now.nanos as int,
            ),
    {
        let told = trim(value);
        if told.is_empty() {
            return;
        }
        let text = shorten_chars(told, TOLD_TEXT_MAX_CHARS);
        let mut s = self.state.copy();
        match field {
            SessionField::Project => {
                let same_project: bool = match &s.active_project {
                    Some(p) => same(p.as_str(), text.as_str()),
                    None => false,
                };
                if !same_project {
                    s.clear_inferred_unpinned();
                    s.since = now;
                    s.active_project = Some(text);
                }
            },
            SessionField::Goal => {
                s.current_goal = Some(text);
                s.confidence = ONE;
                s.local_only = false;
                s.inferred_at = Some(now);
            },
            SessionField::Task => {
                s.current_task = Some(text);
                s.confidence = ONE;
                s.local_only = false;
                s.inferred_at = Some(now);
            },
        }
        let ghost before = s.user_confirmed@;
        if !list_contains(&s.user_confirmed, field.as_str()) {
            s.user_confirmed.push(field.as_str().to_owned());
            proof {
                assert(views(s.user_confirmed@) =~= views(before).push(field_name(field)));
            }
        }
        self.mutate(s, now);
    }

    /// Pins a field to a value, which is applied as a correction is, or releases it. A released
    /// field keeps its value until something else moves it.
    pub fn set_pin(&mut self, field: SessionField, value: Option<&str>, now: Timestamp)
        ensures
            final(self)@ == old(self)@.pinned_to(field, opt_str_view(value), now.nanos as int),
    {
        if let Some(v) = value {
            self.apply_correction(field, v, now);
        }
        let mut s = self.state.copy();
        match value {
            Some(_) => {
                let ghost before = s.pinned@;
                if !list_contains(&s.pinned, field.as_str()) {
                    s.pinned.push(field.as_str().to_owned());
                    proof {
                        assert(views(s.pinned@) =~= views(before).push(field_name(field)));
                    }
                }
            },
            None => {
                s.pinned = remove_all(&s.pinned, field.as_str());
            },
        }
        self.mutate(s, now);
    }
}

/// A queue of the last `n` of a list.
fn latest_of(l: &Vec<EventDigest>, n: usize) -> (r: VecDeque<EventDigest>)
    ensures
        r@ == last_of(l@, n as int),
{
    let start: usize = if l.len() <= n {
        0
    } else {
        l.len() - n
    };
    let mut r: VecDeque<EventDigest> = VecDeque::new();
    let mut i: usize = start;
    while i < l.len()
        invariant
            start <= i <= l.len(),
            r@ == l@.subrange(start as int, i as int),
        decreases l.len() - i,
    {
        r.push_back(l[i].duplicate());
        i = i + 1;
        proof {
            assert(l@.subrange(start as int, i as int) == l@.subrange(start as int, i - 1).push(
                l@[i - 1],
            ));
        }
    }
    proof {
        assert(r@ =~= last_of(l@, n as int));
    }
    r
}

/// The last `n` of a queue.
fn tail_of(l: &VecDeque<EventDigest>, n: usize) -> (r: Vec<EventDigest>)
    ensures
        r@ == last_of(l@, n as int),
{
    let start: usize = if l.len() <= n {
        0
    } else {
        l.len() - n
    };
    let mut r: Vec<EventDigest> = Vec::new();
    let mut i: usize = start;
    while i < l.len()
        invariant
            start <= i <= l.len(),
            r@ == l@.subrange(start as int, i as int),
        decreases l.len() - i,
    {
        r.push(l[i].duplicate());
        i = i + 1;
        proof {
            assert(l@.subrange(start as int, i as int) == l@.subrange(start as int, i - 1).push(
                l@[i - 1],
            ));
        }
    }
    proof {
        assert(r@ =~= last_of(l@, n as int));
    }
    r
}

// ---------------------------------------------------------------------------
// Laws
// ---------------------------------------------------------------------------

/// The version moves exactly where the content does, and so does the time stamp.
pub proof fn law_version_counts_content(h: HubView, next: StateView, now: int)
    requires
        0 <= h.version <= u64::MAX,
        next.updated == h.state.updated,
    ensures
        (h.settled(next, now).version == h.version) == (next == h.state),
        next == h.state ==> h.settled(next, now) == h,
{
}

/// A pinned field is the same after any frame.
pub proof fn law_pin_survives_frame(
    s: StateView,
    f: FrameFacts,
    project: Option<Seq<char>>,
)
    ensures
        s.pins(SessionField::Project) ==> after_frame(s, f, project).active_project
            == s.active_project && !frame_switches(s, project),
        s.pins(SessionField::Goal) ==> after_frame(s, f, project).current_goal == s.current_goal,
        s.pins(SessionField::Task) ==> after_frame(s, f, project).current_task == s.current_task,
        after_frame(s, f, project).pinned == s.pinned,
{
}

/// A pinned goal or task is the same after any inference; where both are pinned, so are their
/// confidence, their zone and their clock.
pub proof fn law_pin_survives_inference(s: StateView, r: InferenceView, local_only: bool, now: int)
    ensures
        s.pins(SessionField::Goal) ==> after_inference(s, r, local_only, now).current_goal
            == s.current_goal,
        s.pins(SessionField::Task) ==> after_inference(s, r, local_only, now).current_task
            == s.current_task,
        s.pins(SessionField::Goal) && s.pins(SessionField::Task) ==> {
            let t = after_inference(s, r, local_only, now);
            t.confidence == s.confidence && t.local_only == s.local_only && t.inferred_at
                == s.inferred_at
        },
        after_inference(s, r, local_only, now).active_project == s.active_project,
{
}

/// A pinned goal or task survives the correction of the project.
pub proof fn law_pin_survives_project_correction(s: StateView, value: Seq<char>, now: int)
    ensures
        s.pins(SessionField::Goal) ==> after_correction(
            s,
            SessionField::Project,
            value,
            now,
        ).current_goal == s.current_goal,
        s.pins(SessionField::Task) ==> after_correction(
            s,
            SessionField::Project,
            value,
            now,
        ).current_task == s.current_task,
{
}

/// A frame that does not change the project leaves goal, task and their clock alone.
pub proof fn law_frame_keeps_inference_clock(
    s: StateView,
    f: FrameFacts,
    project: Option<Seq<char>>,
)
    requires
        !frame_switches(s, project),
    ensures
        after_frame(s, f, project).inferred_at == s.inferred_at,
        after_frame(s, f, project).current_goal == s.current_goal,
        after_frame(s, f, project).current_task == s.current_task,
        after_frame(s, f, project).confidence == s.confidence,
        after_frame(s, f, project).local_only == s.local_only,
{
}

/// A window that must not be observed, or whose content must stay on the machine, leaves the open
/// files alone.
pub proof fn law_private_window_adds_no_file(
    s: StateView,
    f: FrameFacts,
    project: Option<Seq<char>>,
)
    requires
        f.privacy_restricted || f.process_name@ == EXCLUDED_PROCESS@,
    ensures
        after_frame(s, f, project).open_files == s.open_files,
{
}

/// Pinning a field twice is pinning it once, and a field that is pinned and released is not
/// pinned.
pub proof fn law_pin_marks(s: StateView, field: SessionField)
    ensures
        after_pin_mark(s, field, true).pins(field),
        after_pin_mark(after_pin_mark(s, field, true), field, true) == after_pin_mark(
            s,
            field,
            true,
        ),
        !after_pin_mark(s, field, false).pins(field),
{
    let x = field_name(field);
    let p = with_token(s.pinned, x);
    if !s.pinned.contains(x) {
        assert(p[p.len() - 1] == x);
    }
    lemma_without_has_none(s.pinned, x);
}

proof fn lemma_without_has_none(l: Seq<Seq<char>>, x: Seq<char>)
    ensures
        !without(l, x).contains(x),
    decreases l.len(),
{
    if l.len() > 0 {
        lemma_without_has_none(l.drop_last(), x);
        let w = without(l, x);
        let b = without(l.drop_last(), x);
        if w.contains(x) {
            let i = choose|i: int| 0 <= i < w.len() && w[i] == x;
            if i < b.len() {
                assert(b[i] == x);
            }
        }
    }
}

/// A correction is certain, confirmed by the user, and never from a private window.
pub proof fn law_correction_is_certain(s: StateView, field: SessionField, value: Seq<char>, now: int)
    requires
        trimmed(value).len() > 0,
    ensures
        after_correction(s, field, value, now).user_confirmed.contains(field_name(field)),
        field != SessionField::Project ==> {
            let t = after_correction(s, field, value, now);
            t.confidence == 1_000_000 && !t.local_only && t.inferred_at == Some(now)
        },
{
    let x = field_name(field);
    let l = s.user_confirmed;
    let p = with_token(l, x);
    if !l.contains(x) {
        assert(p[p.len() - 1] == x);
    }
}

/// The window never holds more events than it may, and its last event is the latest.
pub proof fn law_window_is_bounded(events: Seq<EventDigest>, d: EventDigest)
    requires
        events.len() <= EVENT_RING_CAP,
    ensures
        ring_after(events, d).len() <= EVENT_RING_CAP,
        ring_after(events, d).last() == d,
{
}

} // verus!
