//! # Session state
//!
//! What the user is doing: the mechanical facts that frames and events give, and what a language
//! model infers from them. The state knows what the user pinned and confirmed, and how sure the
//! inferred part is; what is not sure enough is shown as unknown.
use vstd::prelude::*;
use crate::context::intents::SessionField;
use crate::context::package::PRIVATE_CONTEXT_PHRASE;
use crate::context::sensitivity::EventSensitivity;
use crate::duplicate::{duplicate_all, Duplicate};
use crate::text::{
    chars_of, cut_before, decimal_string, join, list_contains, same, same_list, same_opt,
    shorten_chars, string_of, trim, trim_start_class, CharClass,
};
use crate::time::{nanos_between, seconds_between, Timestamp};
#[allow(unused_imports)]
use crate::context::intents::field_name;
#[allow(unused_imports)]
use crate::context::slug::is_alnum;
#[allow(unused_imports)]
use crate::context::titles::is_letter;
#[allow(unused_imports)]
use crate::text::{
    before_part, char_prefix, decimal, joined, opt_str_view, opt_view, trim_start_by, trimmed, views,
};
#[allow(unused_imports)]
use crate::time::whole_seconds;

verus! {

/// What is shown for what is not known.
pub const UNKNOWN: &'static str = "unknown";

/// How many open files are kept.
pub const MAX_OPEN_FILES: usize = 8;

/// The characters of the summary for the triage model.
pub const MEMORY_SUMMARY_MAX_CHARS: usize = 600;

/// What the configuration says of the session state.
#[derive(Debug, Clone, Copy, PartialEq, Eq, Structural)]
pub struct SessionStateConfig {
    /// How sure an inferred field must be to be shown, in millionths.
    pub confidence_floor: u32,
    /// The seconds between two attempts to infer.
    pub infer_min_interval_secs: u64,
    /// How many significant events lead to an inference.
    pub infer_min_new_events: usize,
    /// How many changes of the window lead to an inference.
    pub infer_min_focus_switches: usize,
    /// The minutes after which what was inferred is stale.
    pub infer_max_age_minutes: u64,
    /// How important an event must be to be significant, in millionths.
    pub significant_importance: u32,
    /// The tokens that an inference may take.
    pub infer_max_tokens: usize,
}

// ---------------------------------------------------------------------------
// The state
// ---------------------------------------------------------------------------

/// A line of text and when it came up.
#[derive(Debug, Clone, PartialEq, Eq)]
pub struct StampedText {
    pub text: String,
    pub at: Timestamp,
}

/// The text of a `StampedText`.
#[verifier::ext_equal]
pub struct StampView {
    pub text: Seq<char>,
    pub at: int,
}

impl View for StampedText {
    type V = StampView;

    open spec fn view(&self) -> StampView {
        StampView { text: self.text@, at: self.at.nanos as int }
    }
}

/// What an optional stamped text holds.
pub open spec fn opt_stamp(o: Option<StampedText>) -> Option<StampView> {
    match o {
        Some(s) => Some(s@),
        None => None,
    }
}

impl StampedText {
    /// A line of text and when it came up.
    pub fn new(text: String, at: Timestamp) -> (r: Self)
        ensures
            r.text == text,
            r.at == at,
    {
        StampedText { text, at }
    }
}

impl Duplicate for StampedText {
    fn duplicate(&self) -> (r: Self) {
        StampedText { text: self.text.clone(), at: self.at }
    }
}

/// Whether two optional stamped texts are the same.
fn same_stamp(a: &Option<StampedText>, b: &Option<StampedText>) -> (r: bool)
    ensures
        r == (opt_stamp(*a) == opt_stamp(*b)),
{
    match (a, b) {
        (Some(x), Some(y)) => x.text == y.text && x.at.nanos == y.at.nanos,
        (None, None) => true,
        _ => false,
    }
}

/// The session state.
#[derive(Debug, Clone, PartialEq, Eq)]
pub struct SessionState {
    pub active_project: Option<String>,
    /// What the user is after, as inferred or told.
    pub current_goal: Option<String>,
    /// What the user is doing, as inferred or told.
    pub current_task: Option<String>,
    pub activity_summary: Option<String>,
    pub interpretation: Option<String>,
    pub suggested_help: Option<String>,
    pub active_app: Option<String>,
    pub window_title: Option<String>,
    /// The files touched last, the latest first.
    pub open_files: Vec<String>,
    pub last_error: Option<StampedText>,
    pub last_success: Option<StampedText>,
    pub last_user_command: Option<StampedText>,
    /// How sure goal and task are, in millionths.
    pub confidence: u32,
    /// Whether goal and task come from what must stay on the machine.
    pub local_only: bool,
    /// The names of the fields that are to stay as they are.
    pub pinned: Vec<String>,
    /// The names of the fields that the user corrected.
    pub user_confirmed: Vec<String>,
    /// When the state began.
    pub since: Timestamp,
    /// When a field last changed.
    pub updated: Timestamp,
    /// When goal and task were established.
    pub inferred_at: Option<Timestamp>,
}

/// What a `SessionState` holds.
#[verifier::ext_equal]
pub struct StateView {
    pub active_project: Option<Seq<char>>,
    pub current_goal: Option<Seq<char>>,
    pub current_task: Option<Seq<char>>,
    pub activity_summary: Option<Seq<char>>,
    pub interpretation: Option<Seq<char>>,
    pub suggested_help: Option<Seq<char>>,
    pub active_app: Option<Seq<char>>,
    pub window_title: Option<Seq<char>>,
    pub open_files: Seq<Seq<char>>,
    pub last_error: Option<StampView>,
    pub last_success: Option<StampView>,
    pub last_user_command: Option<StampView>,
    pub confidence: int,
    pub local_only: bool,
    pub pinned: Seq<Seq<char>>,
    pub user_confirmed: Seq<Seq<char>>,
    pub since: int,
    pub updated: int,
    pub inferred_at: Option<int>,
}

/// The nanoseconds of an optional point in time.
pub open spec fn opt_nanos(o: Option<Timestamp>) -> Option<int> {
    match o {
        Some(t) => Some(t.nanos as int),
        None => None,
    }
}

impl View for SessionState {
    type V = StateView;

    open spec fn view(&self) -> StateView {
        StateView {
            active_project: opt_view(self.active_project),
            current_goal: opt_view(self.current_goal),
            current_task: opt_view(self.current_task),
            activity_summary: opt_view(self.activity_summary),
            interpretation: opt_view(self.interpretation),
            suggested_help: opt_view(self.suggested_help),
            active_app: opt_view(self.active_app),
            window_title: opt_view(self.window_title),
            open_files: views(self.open_files@),
            last_error: opt_stamp(self.last_error),
            last_success: opt_stamp(self.last_success),
            last_user_command: opt_stamp(self.last_user_command),
            confidence: self.confidence as int,
            local_only: self.local_only,
            pinned: views(self.pinned@),
            user_confirmed: views(self.user_confirmed@),
            since: self.since.nanos as int,
            updated: self.updated.nanos as int,
            inferred_at: opt_nanos(self.inferred_at),
        }
    }
}

/// The state in which nothing is known, as of `now`.
pub open spec fn blank_state(now: int) -> StateView {
    StateView {
        active_project: None,
        current_goal: None,
        current_task: None,
        activity_summary: None,
        interpretation: None,
        suggested_help: None,
        active_app: None,
        window_title: None,
        open_files: seq![],
        last_error: None,
        last_success: None,
        last_user_command: None,
        confidence: 0,
        local_only: false,
        pinned: seq![],
        user_confirmed: seq![],
        since: now,
        updated: now,
        inferred_at: None,
    }
}

impl StateView {
    /// Whether a field is pinned.
    pub open spec fn pins(self, field: SessionField) -> bool {
        self.pinned.contains(field_name(field))
    }

    /// The state without the inferred fields that are not pinned. What describes goal and task
    /// goes with them where neither is pinned.
    pub open spec fn uninferred(self) -> StateView {
        let goal = self.pins(SessionField::Goal);
        let task = self.pins(SessionField::Task);
        let none = !goal && !task;
        StateView {
            current_goal: if goal {
                self.current_goal
            } else {
                None
            },
            current_task: if task {
                self.current_task
            } else {
                None
            },
            confidence: if none {
                0
            } else {
                self.confidence
            },
            local_only: !none && self.local_only,
            inferred_at: if none {
                None
            } else {
                self.inferred_at
            },
            activity_summary: None,
            interpretation: None,
            suggested_help: None,
            ..self
        }
    }

    /// Whether nothing has been observed yet.
    pub open spec fn is_blank(self) -> bool {
        self.active_project is None && self.active_app is None && self.last_error is None
            && self.last_success is None && self.last_user_command is None
            && self.open_files.len() == 0
    }

    /// The goal, where it is sure enough.
    pub open spec fn sure_goal(self, floor: int) -> Option<Seq<char>> {
        if self.confidence >= floor {
            self.current_goal
        } else {
            None
        }
    }

    /// The task, where it is sure enough.
    pub open spec fn sure_task(self, floor: int) -> Option<Seq<char>> {
        if self.confidence >= floor {
            self.current_task
        } else {
            None
        }
    }

    /// The state as a reader in the cloud may see it.
    pub open spec fn for_cloud(self) -> StateView {
        if !self.local_only {
            self
        } else {
            StateView {
                current_goal: phrase_for(self.current_goal),
                current_task: phrase_for(self.current_task),
                activity_summary: phrase_for(self.activity_summary),
                interpretation: phrase_for(self.interpretation),
                suggested_help: phrase_for(self.suggested_help),
                ..self
            }
        }
    }
}

/// The phrase for private contexts, where there is something that it stands for.
pub open spec fn phrase_for(o: Option<Seq<char>>) -> Option<Seq<char>> {
    if o is Some {
        Some(PRIVATE_CONTEXT_PHRASE@)
    } else {
        None
    }
}

/// The phrase for private contexts, where there is something that it stands for.
fn phrase_of(o: &Option<String>) -> (r: Option<String>)
    ensures
        opt_view(r) == phrase_for(opt_view(*o)),
{
    match o {
        Some(_) => Some(PRIVATE_CONTEXT_PHRASE.to_owned()),
        None => None,
    }
}

/// A text, or what is shown where there is none.
pub open spec fn or_unknown(o: Option<Seq<char>>) -> Seq<char> {
    match o {
        Some(s) => s,
        None => UNKNOWN@,
    }
}

/// A text, or what is shown where there is none.
pub fn known<'a>(o: Option<&'a str>) -> (r: &'a str)
    ensures
        r@ == or_unknown(opt_str_view(o)),
{
    match o {
        Some(s) => s,
        None => UNKNOWN,
    }
}

/// An optional string, borrowed.
pub fn borrowed<'a>(o: &'a Option<String>) -> (r: Option<&'a str>)
    ensures
        opt_str_view(r) == opt_view(*o),
{
    match o {
        Some(s) => Some(s.as_str()),
        None => None,
    }
}

impl Default for SessionState {
    /// The state in which nothing is known, as of now.
    fn default() -> (r: Self)
        ensures
            r@ == blank_state(r@.since),
    {
        SessionState::blank(Timestamp::now())
    }
}

impl SessionState {
    /// The state in which nothing is known, as of `now`.
    pub fn blank(now: Timestamp) -> (r: Self)
        ensures
            r@ == blank_state(now.nanos as int),
    {
        let r = SessionState {
            active_project: None,
            current_goal: None,
            current_task: None,
            activity_summary: None,
            interpretation: None,
            suggested_help: None,
            active_app: None,
            window_title: None,
            open_files: Vec::new(),
            last_error: None,
            last_success: None,
            last_user_command: None,
            confidence: 0,
            local_only: false,
            pinned: Vec::new(),
            user_confirmed: Vec::new(),
            since: now,
            updated: now,
            inferred_at: None,
        };
        proof {
            assert(r@ =~= blank_state(now.nanos as int));
        }
        r
    }

    /// A copy of the state.
    pub fn copy(&self) -> (r: Self)
        ensures
            r@ == self@,
    {
        SessionState {
            active_project: self.active_project.duplicate(),
            current_goal: self.current_goal.duplicate(),
            current_task: self.current_task.duplicate(),
            activity_summary: self.activity_summary.duplicate(),
            interpretation: self.interpretation.duplicate(),
            suggested_help: self.suggested_help.duplicate(),
            active_app: self.active_app.duplicate(),
            window_title: self.window_title.duplicate(),
            open_files: duplicate_all(&self.open_files),
            last_error: self.last_error.duplicate(),
            last_success: self.last_success.duplicate(),
            last_user_command: self.last_user_command.duplicate(),
            confidence: self.confidence,
            local_only: self.local_only,
            pinned: duplicate_all(&self.pinned),
            user_confirmed: duplicate_all(&self.user_confirmed),
            since: self.since,
            updated: self.updated,
            inferred_at: self.inferred_at,
        }
    }

    /// Whether two states hold the same.
    pub fn same_content(&self, other: &SessionState) -> (r: bool)
        ensures
            r == (self@ == other@),
    {
        let inferred: bool = match (self.inferred_at, other.inferred_at) {
            (Some(a), Some(b)) => a.nanos == b.nanos,
            (None, None) => true,
            _ => false,
        };
        let r: bool = inferred && same_opt(&self.active_project, &other.active_project) && same_opt(
            &self.current_goal,
            &other.current_goal,
        ) && same_opt(&self.current_task, &other.current_task) && same_opt(
            &self.activity_summary,
            &other.activity_summary,
        ) && same_opt(&self.interpretation, &other.interpretation) && same_opt(
            &self.suggested_help,
            &other.suggested_help,
        ) && same_opt(&self.active_app, &other.active_app) && same_opt(
            &self.window_title,
            &other.window_title,
        ) && same_list(&self.open_files, &other.open_files) && same_stamp(
            &self.last_error,
            &other.last_error,
        ) && same_stamp(&self.last_success, &other.last_success) && same_stamp(
            &self.last_user_command,
            &other.last_user_command,
        ) && self.confidence == other.confidence && self.local_only == other.local_only
            && same_list(&self.pinned, &other.pinned) && same_list(
            &self.user_confirmed,
            &other.user_confirmed,
        ) && self.since.nanos == other.since.nanos && self.updated.nanos == other.updated.nanos;
        proof {
            if r {
                assert(self@ =~= other@);
            }
        }
        r
    }

    /// Whether a field is pinned.
    pub fn is_pinned(&self, field: SessionField) -> (r: bool)
        ensures
            r == self@.pins(field),
    {
        list_contains(&self.pinned, field.as_str())
    }

    /// Whether the user corrected a field.
    pub fn is_user_confirmed(&self, field: SessionField) -> (r: bool)
        ensures
            r == self@.user_confirmed.contains(field_name(field)),
    {
        list_contains(&self.user_confirmed, field.as_str())
    }

    /// Drops what was inferred, but for the fields that are pinned.
    pub fn clear_inferred_unpinned(&mut self)
        ensures
            final(self)@ == old(self)@.uninferred(),
    {
        let goal: bool = self.is_pinned(SessionField::Goal);
        let task: bool = self.is_pinned(SessionField::Task);
        if !goal {
            self.current_goal = None;
        }
        if !task {
            self.current_task = None;
        }
        if !goal && !task {
            self.confidence = 0;
            self.local_only = false;
            self.inferred_at = None;
        }
        self.activity_summary = None;
        self.interpretation = None;
        self.suggested_help = None;
    }

    /// The task, where it is sure enough.
    pub fn task_if_confident(&self, confidence_floor: u32) -> (r: Option<&str>)
        ensures
            opt_str_view(r) == self@.sure_task(confidence_floor as int),
    {
        if self.confidence >= confidence_floor {
            borrowed(&self.current_task)
        } else {
            None
        }
    }

    /// The goal, where it is sure enough.
    pub fn goal_if_confident(&self, confidence_floor: u32) -> (r: Option<&str>)
        ensures
            opt_str_view(r) == self@.sure_goal(confidence_floor as int),
    {
        if self.confidence >= confidence_floor {
            borrowed(&self.current_goal)
        } else {
            None
        }
    }

    /// Whether nothing has been observed yet.
    pub fn is_empty(&self) -> (r: bool)
        ensures
            r == self@.is_blank(),
    {
        proof {
            assert(views(self.open_files@).len() == self.open_files@.len());
        }
        self.active_project.is_none() && self.active_app.is_none() && self.last_error.is_none()
            && self.last_success.is_none() && self.last_user_command.is_none()
            && self.open_files.len() == 0
    }

    /// The state as a reader in the cloud may see it: where it comes from what must stay on the
    /// machine, the inferred fields only say so.
    pub fn cloud_view(&self) -> (r: SessionState)
        ensures
            r@ == self@.for_cloud(),
    {
        let mut out = self.copy();
        if self.local_only {
            out.current_goal = phrase_of(&self.current_goal);
            out.current_task = phrase_of(&self.current_task);
            out.activity_summary = phrase_of(&self.activity_summary);
            out.interpretation = phrase_of(&self.interpretation);
            out.suggested_help = phrase_of(&self.suggested_help);
        }
        out
    }

    /// The state in a few lines, for the model that decides whether to wake the assistant. A line
    /// that does not fit is left out whole.
    pub fn render_memory_summary(
        &self,
        now: Timestamp,
        max_chars: usize,
        confidence_floor: u32,
    ) -> (r: String)
        ensures
            r@ == memory_summary(
                self@,
                now.nanos as int,
                max_chars as int,
                confidence_floor as int,
            ),
    {
        let lines = summary_lines_of(self, now, confidence_floor);
        let mut out: String = String::new();
        let mut i: usize = 0;
        let n: usize = lines.len();
        while i < n
            invariant
                i <= n,
                n == lines.len(),
                out@ == packed(views(lines@).take(i as int), max_chars as int),
                out@.len() <= max_chars,
            decreases n - i,
        {
            proof {
                let t = views(lines@).take(i + 1);
                assert(t.drop_last() == views(lines@).take(i as int));
                assert(t.last() == lines@[i as int]@);
            }
            let used: usize = out.as_str().unicode_len();
            let need: usize = lines[i].as_str().unicode_len();
            let room: usize = max_chars - used;
            if used == 0 {
                if need <= room {
                    out.append(lines[i].as_str());
                    proof {
                        assert(out@ =~= lines@[i as int]@);
                    }
                }
            } else if need < room {
                out.append("\n");
                proof {
                    reveal_strlit("\n");
                }
                out.append(lines[i].as_str());
            }
            i = i + 1;
        }
        proof {
            assert(views(lines@).take(n as int) == views(lines@));
        }
        if out.as_str().is_empty() {
            match borrowed(&self.active_project) {
                Some(first) => shorten_chars(first, max_chars),
                None => match borrowed(&self.active_app) {
                    Some(first) => shorten_chars(first, max_chars),
                    None => {
                        proof {
                            assert(out@ =~= Seq::<char>::empty());
                        }
                        out
                    },
                },
            }
        } else {
            out
        }
    }
}

// ---------------------------------------------------------------------------
// Ages, and the summary
// ---------------------------------------------------------------------------

/// How long ago something was, roughly.
pub open spec fn age_text(secs: int) -> Seq<char> {
    if secs < 60 {
        "just now"@
    } else if secs / 60 < 60 {
        decimal(secs / 60) + "m ago"@
    } else if secs / 3600 < 24 {
        decimal(secs / 3600) + "h ago"@
    } else {
        decimal(secs / 86400) + "d ago"@
    }
}

/// How long ago `then` was at `now`, roughly.
pub open spec fn age_of(now: int, then: int) -> Seq<char> {
    age_text(whole_seconds(now - then))
}

/// How long ago `then` was at `now`, roughly.
pub fn render_age(now: Timestamp, then: Timestamp) -> (r: String)
    ensures
        r@ == age_of(now.nanos as int, then.nanos as int),
{
    let secs: i64 = seconds_between(then, now);
    if secs < 60 {
        return "just now".to_owned();
    }
    let mins: i64 = secs / 60;
    if mins < 60 {
        let mut r = decimal_string(mins as u64);
        r.append("m ago");
        return r;
    }
    let hours: i64 = mins / 60;
    proof {
        assert(secs / 60 / 60 == secs / 3600) by (nonlinear_arith)
            requires
                secs >= 0,
        ;
        assert(secs / 60 / 60 / 24 == secs / 86400) by (nonlinear_arith)
            requires
                secs >= 0,
        ;
    }
    if hours < 24 {
        let mut r = decimal_string(hours as u64);
        r.append("h ago");
        return r;
    }
    let mut r = decimal_string((hours / 24) as u64);
    r.append("d ago");
    r
}

/// A line on something that came up: a label, how long ago it was, and the text.
pub open spec fn stamp_line(label: Seq<char>, s: StampView, now: int) -> Seq<char> {
    label + " ("@ + age_of(now, s.at) + "): "@ + s.text
}

/// The line on something that came up, where it did.
pub open spec fn stamp_lines(label: Seq<char>, s: Option<StampView>, now: int) -> Seq<Seq<char>> {
    match s {
        Some(v) => seq![stamp_line(label, v, now)],
        None => seq![],
    }
}

/// The lines that say what the state is.
pub open spec fn summary_lines(s: StateView, now: int, floor: int) -> Seq<Seq<char>> {
    seq![
        "project: "@ + or_unknown(s.active_project) + " | app: "@ + or_unknown(s.active_app),
        "goal: "@ + or_unknown(s.sure_goal(floor)),
        "task: "@ + or_unknown(s.sure_task(floor)),
    ] + stamp_lines("last command"@, s.last_user_command, now) + stamp_lines(
        "last error"@,
        s.last_error,
        now,
    ) + stamp_lines("last success"@, s.last_success, now) + (if s.open_files.len() == 0 {
        seq![]
    } else {
        seq!["open files: "@ + joined(s.open_files, ", "@)]
    })
}

/// The lines one below the other, each left out where it no longer fits into `max` characters.
pub open spec fn packed(lines: Seq<Seq<char>>, max: int) -> Seq<char>
    decreases lines.len(),
{
    if lines.len() == 0 {
        Seq::empty()
    } else {
        let out = packed(lines.drop_last(), max);
        let line = lines.last();
        if out.len() == 0 {
            if line.len() <= max {
                line
            } else {
                out
            }
        } else if out.len() + 1 + line.len() <= max {
            out + "\n"@ + line
        } else {
            out
        }
    }
}

/// The state in a few lines of at most `max` characters.
pub open spec fn memory_summary(s: StateView, now: int, max: int, floor: int) -> Seq<char> {
    let out = packed(summary_lines(s, now, floor), max);
    if out.len() > 0 {
        out
    } else {
        match s.active_project {
            Some(p) => char_prefix(p, max),
            None => match s.active_app {
                Some(a) => char_prefix(a, max),
                None => out,
            },
        }
    }
}

/// A line on something that came up.
pub fn line_of_stamp(label: &str, s: &StampedText, now: Timestamp) -> (r: String)
    ensures
        r@ == stamp_line(label@, s@, now.nanos as int),
{
    let mut line: String = label.to_owned();
    line.append(" (");
    line.append(render_age(now, s.at).as_str());
    line.append("): ");
    line.append(s.text.as_str());
    line
}

/// The lines that say what the state is.
fn summary_lines_of(s: &SessionState, now: Timestamp, floor: u32) -> (r: Vec<String>)
    ensures
        views(r@) == summary_lines(s@, now.nanos as int, floor as int),
{
    let mut lines: Vec<String> = Vec::new();
    let mut head: String = "project: ".to_owned();
    head.append(known(borrowed(&s.active_project)));
    head.append(" | app: ");
    head.append(known(borrowed(&s.active_app)));
    lines.push(head);
    let mut goal: String = "goal: ".to_owned();
    goal.append(known(s.goal_if_confident(floor)));
    lines.push(goal);
    let mut task: String = "task: ".to_owned();
    task.append(known(s.task_if_confident(floor)));
    lines.push(task);
    if let Some(c) = &s.last_user_command {
        lines.push(line_of_stamp("last command", c, now));
    }
    if let Some(e) = &s.last_error {
        lines.push(line_of_stamp("last error", e, now));
    }
    if let Some(k) = &s.last_success {
        lines.push(line_of_stamp("last success", k, now));
    }
    if s.open_files.len() > 0 {
        let n: usize = s.open_files.len();
        let mut files: String = "open files: ".to_owned();
        files.append(join(&s.open_files, n, ", ").as_str());
        lines.push(files);
        proof {
            assert(views(s.open_files@).take(n as int) == views(s.open_files@));
        }
    }
    proof {
        assert(views(lines@) =~= summary_lines(s@, now.nanos as int, floor as int));
    }
    lines
}

/// The summary never takes more characters than it may.
pub proof fn law_summary_fits(s: StateView, now: int, max: int, floor: int)
    requires
        0 <= max,
    ensures
        memory_summary(s, now, max, floor).len() <= max,
{
    lemma_packed_fits(summary_lines(s, now, floor), max);
}

proof fn lemma_packed_fits(lines: Seq<Seq<char>>, max: int)
    requires
        0 <= max,
    ensures
        packed(lines, max).len() <= max,
    decreases lines.len(),
{
    if lines.len() > 0 {
        lemma_packed_fits(lines.drop_last(), max);
        reveal_strlit("\n");
    }
}

/// Nothing of a goal, a task, an activity, an interpretation or an offer of help that must stay on
/// the machine is in the state that the cloud sees: states that agree on everything else, and on
/// which of these fields are there, look the same.
pub proof fn law_cloud_view_hides_inference(a: StateView, b: StateView)
    requires
        a.local_only,
        b.local_only,
        a.current_goal is Some == b.current_goal is Some,
        a.current_task is Some == b.current_task is Some,
        a.activity_summary is Some == b.activity_summary is Some,
        a.interpretation is Some == b.interpretation is Some,
        a.suggested_help is Some == b.suggested_help is Some,
        a == (StateView {
            current_goal: a.current_goal,
            current_task: a.current_task,
            activity_summary: a.activity_summary,
            interpretation: a.interpretation,
            suggested_help: a.suggested_help,
            ..b
        }),
    ensures
        a.for_cloud() == b.for_cloud(),
{
}

// ---------------------------------------------------------------------------
// Events
// ---------------------------------------------------------------------------

/// What the session state needs of an event.
#[derive(Debug, Clone, PartialEq, Eq)]
pub struct EventDigest {
    pub ts: Timestamp,
    pub source: String,
    pub event_type: String,
    pub application: String,
    pub project_id: Option<String>,
    pub summary: String,
    /// In millionths.
    pub importance: u32,
    pub local_only: bool,
}

impl Duplicate for EventDigest {
    fn duplicate(&self) -> (r: Self) {
        EventDigest {
            ts: self.ts,
            source: self.source.clone(),
            event_type: self.event_type.clone(),
            application: self.application.clone(),
            project_id: self.project_id.duplicate(),
            summary: self.summary.clone(),
            importance: self.importance,
            local_only: self.local_only,
        }
    }
}

/// An event as it was observed.
#[derive(Debug, Clone, PartialEq, Eq)]
pub struct ContextEvent {
    pub ts: Timestamp,
    /// The name of the source.
    pub source: String,
    pub application: String,
    pub window_title: String,
    pub project_id: Option<String>,
    /// The name of the type.
    pub event_type: String,
    pub summary: String,
    /// In millionths.
    pub importance: u32,
    /// In millionths.
    pub confidence: u32,
    pub sensitivity: EventSensitivity,
    pub raw_reference: Option<String>,
}

/// An event as it is stored. The same event that is observed again is stored once, with the last
/// time.
#[derive(Debug, Clone, PartialEq, Eq)]
pub struct ContextEventRow {
    pub ts_last: Timestamp,
    /// The name of the source.
    pub source: String,
    pub application: String,
    pub project_id: Option<String>,
    /// The name of the type.
    pub event_type: String,
    pub summary: String,
    /// In millionths.
    pub importance: u32,
    pub sensitivity: EventSensitivity,
}

/// What the session state needs of an event that was observed.
pub open spec fn digest_of(e: ContextEvent) -> EventDigest {
    EventDigest {
        ts: e.ts,
        source: e.source,
        event_type: e.event_type,
        application: e.application,
        project_id: e.project_id,
        summary: e.summary,
        importance: e.importance,
        local_only: e.sensitivity == EventSensitivity::LocalOnly,
    }
}

/// What the session state needs of an event that was observed.
pub fn digest_from_event(event: &ContextEvent) -> (r: EventDigest)
    ensures
        r == digest_of(*event),
{
    EventDigest {
        ts: event.ts,
        source: event.source.clone(),
        event_type: event.event_type.clone(),
        application: event.application.clone(),
        project_id: event.project_id.duplicate(),
        summary: event.summary.clone(),
        importance: event.importance,
        local_only: event.sensitivity == EventSensitivity::LocalOnly,
    }
}

/// What the session state needs of an event that was stored.
pub fn digest_from_row(row: &ContextEventRow) -> (r: EventDigest)
    ensures
        r == (EventDigest {
            ts: row.ts_last,
            source: row.source,
            event_type: row.event_type,
            application: row.application,
            project_id: row.project_id,
            summary: row.summary,
            importance: row.importance,
            local_only: row.sensitivity == EventSensitivity::LocalOnly,
        }),
{
    EventDigest {
        ts: row.ts_last,
        source: row.source.clone(),
        event_type: row.event_type.clone(),
        application: row.application.clone(),
        project_id: row.project_id.duplicate(),
        summary: row.summary.clone(),
        importance: row.importance,
        local_only: row.sensitivity == EventSensitivity::LocalOnly,
    }
}

/// Whether an event of this type names a file.
pub open spec fn is_file_event(event_type: Seq<char>) -> bool {
    event_type == "file_modified"@ || event_type == "file_created"@ || event_type
        == "file_renamed"@
}

/// Whether an event of this type names a file.
pub fn names_file(event_type: &str) -> (r: bool)
    ensures
        r == is_file_event(event_type@),
{
    same(event_type, "file_modified") || same(event_type, "file_created") || same(
        event_type,
        "file_renamed",
    )
}

/// Whether some event must stay on the machine.
pub open spec fn any_local(events: Seq<EventDigest>) -> bool {
    exists|i: int| 0 <= i < events.len() && (#[trigger] events[i]).local_only
}

/// Whether some event must stay on the machine. What is inferred from the events then must, too.
pub fn window_is_local_only(events: &Vec<EventDigest>) -> (r: bool)
    ensures
        r == any_local(events@),
{
    let mut i: usize = 0;
    while i < events.len()
        invariant
            i <= events.len(),
            forall|j: int| 0 <= j < i ==> !(#[trigger] events@[j]).local_only,
        decreases events.len() - i,
    {
        if events[i].local_only {
            return true;
        }
        i = i + 1;
    }
    false
}

/// The project that skills are matched against: the name of the current project, else the project
/// of the session state.
pub fn match_context_project(
    current_project_name: Option<&str>,
    session: Option<&SessionState>,
) -> (r: Option<String>)
    ensures
        opt_view(r) == (match current_project_name {
            Some(name) => Some(name@),
            None => match session {
                Some(s) => s@.active_project,
                None => None,
            },
        }),
{
    match current_project_name {
        Some(name) => Some(name.to_owned()),
        None => match session {
            Some(s) => s.active_project.duplicate(),
            None => None,
        },
    }
}

// ---------------------------------------------------------------------------
// When to infer
// ---------------------------------------------------------------------------

/// Why an inference is made.
#[derive(Debug, Clone, Copy, PartialEq, Eq, Structural)]
pub enum InferenceTrigger {
    ProjectSwitch,
    EventVolume,
    ActivitySequence,
    Stale,
}

impl InferenceTrigger {
    /// The name of the trigger in logs.
    pub fn label(self) -> (r: &'static str)
        ensures
            r@ == (match self {
                InferenceTrigger::ProjectSwitch => "project_switch"@,
                InferenceTrigger::EventVolume => "event_volume"@,
                InferenceTrigger::ActivitySequence => "activity_sequence"@,
                InferenceTrigger::Stale => "stale"@,
            }),
    {
        match self {
            InferenceTrigger::ProjectSwitch => "project_switch",
            InferenceTrigger::EventVolume => "event_volume",
            InferenceTrigger::ActivitySequence => "activity_sequence",
            InferenceTrigger::Stale => "stale",
        }
    }
}

/// What the decision to infer depends on.
#[derive(Debug, Clone, Copy)]
pub struct TriggerInputs {
    pub now: Timestamp,
    /// Whether the user is away.
    pub idle: bool,
    /// Whether there is anything to infer from.
    pub has_content: bool,
    /// When an inference was last attempted.
    pub last_inference_at: Option<Timestamp>,
    /// Whether the project changed since.
    pub project_switched: bool,
    /// How many significant events there were since.
    pub significant_events: usize,
    /// How many changes of the window there were since.
    pub focus_switches: usize,
}

/// Whether at least `secs` seconds have passed since the last attempt.
pub open spec fn rested(i: TriggerInputs, secs: int) -> bool {
    i.last_inference_at matches Some(t) ==> i.now.nanos - t.nanos >= secs * 1_000_000_000
}

/// Why an inference is to be made now, if it is. Never while the user is away, never without
/// content, and never sooner than the interval after the last attempt.
pub open spec fn triggered(i: TriggerInputs, cfg: SessionStateConfig) -> Option<InferenceTrigger> {
    if i.idle || !i.has_content || !rested(i, cfg.infer_min_interval_secs as int) {
        None
    } else if i.project_switched {
        Some(InferenceTrigger::ProjectSwitch)
    } else if i.significant_events >= cfg.infer_min_new_events {
        Some(InferenceTrigger::EventVolume)
    } else if i.focus_switches >= cfg.infer_min_focus_switches {
        Some(InferenceTrigger::ActivitySequence)
    } else if rested(i, cfg.infer_max_age_minutes * 60) {
        Some(InferenceTrigger::Stale)
    } else {
        None
    }
}

/// Whether at least `secs` seconds have passed since the last attempt.
fn has_rested(i: &TriggerInputs, secs: u128) -> (r: bool)
    requires
        secs <= 0x1_0000_0000_0000_0000 * 60,
    ensures
        r == rested(*i, secs as int),
{
    match i.last_inference_at {
        Some(t) => nanos_between(t, i.now) >= secs as i128 * 1_000_000_000,
        None => true,
    }
}

/// Decides whether to infer now, and why.
pub fn evaluate_trigger(inputs: &TriggerInputs, cfg: &SessionStateConfig) -> (r: Option<
    InferenceTrigger,
>)
    ensures
        r == triggered(*inputs, *cfg),
{
    if inputs.idle || !inputs.has_content {
        return None;
    }
    if !has_rested(inputs, cfg.infer_min_interval_secs as u128) {
        return None;
    }
    if inputs.project_switched {
        return Some(InferenceTrigger::ProjectSwitch);
    }
    if inputs.significant_events >= cfg.infer_min_new_events {
        return Some(InferenceTrigger::EventVolume);
    }
    if inputs.focus_switches >= cfg.infer_min_focus_switches {
        return Some(InferenceTrigger::ActivitySequence);
    }
    if has_rested(inputs, cfg.infer_max_age_minutes as u128 * 60) {
        Some(InferenceTrigger::Stale)
    } else {
        None
    }
}

// ---------------------------------------------------------------------------
// Open files
// ---------------------------------------------------------------------------

/// The part of a title before the first long dash or vertical bar.
pub open spec fn before_bar(s: Seq<char>) -> Seq<char>
    decreases s.len(),
{
    if s.len() == 0 || s[0] == '—' || s[0] == '–' || s[0] == '|' {
        Seq::empty()
    } else {
        seq![s[0]] + before_bar(s.drop_first())
    }
}

/// The first part of a title, without the marks of an unsaved file.
pub open spec fn title_head(title: Seq<char>) -> Seq<char> {
    trimmed(
        trim_start_by(trimmed(before_part(before_bar(title), " - "@)), CharClass::DirtyMark),
    )
}

/// What stands after the last dot of a text.
pub open spec fn extension(s: Seq<char>) -> Option<Seq<char>>
    decreases s.len(),
{
    if s.len() == 0 {
        None
    } else if s.last() == '.' {
        Some(Seq::empty())
    } else {
        match extension(s.drop_last()) {
            Some(e) => Some(e.push(s.last())),
            None => None,
        }
    }
}

/// Whether a text is the extension of a file name: up to eight letters and digits, not only
/// digits.
pub open spec fn is_extension(e: Seq<char>) -> bool {
    &&& 1 <= e.len() <= 8
    &&& forall|i: int| 0 <= i < e.len() ==> is_alnum(#[trigger] e[i])
    &&& exists|i: int| 0 <= i < e.len() && is_letter(#[trigger] e[i])
}

/// The file that the title of an editor window names.
pub open spec fn file_in_title(title: Seq<char>) -> Option<Seq<char>> {
    let head = title_head(title);
    if 1 <= head.len() <= 120 && (extension(head) matches Some(e) && is_extension(e)) {
        Some(head)
    } else {
        None
    }
}

/// The position of the first long dash or vertical bar cuts a title.
pub proof fn lemma_before_bar(s: Seq<char>, i: int)
    requires
        0 <= i <= s.len(),
        i < s.len() ==> s[i] == '—' || s[i] == '–' || s[i] == '|',
        forall|j: int|
            0 <= j < i ==> !(#[trigger] s[j] == '—' || s[j] == '–' || s[j] == '|'),
    ensures
        before_bar(s) == s.take(i),
    decreases s.len(),
{
    if i > 0 {
        let t = s.drop_first();
        assert forall|j: int| 0 <= j < i - 1 implies !(#[trigger] t[j] == '—' || t[j] == '–'
            || t[j] == '|') by {
            assert(t[j] == s[j + 1]);
        }
        if i < s.len() {
            assert(t[i - 1] == s[i]);
        }
        lemma_before_bar(t, i - 1);
        assert(s[0] == s[0]);
        assert(seq![s[0]] + t.take(i - 1) == s.take(i));
    } else {
        assert(s.take(0) == Seq::<char>::empty());
    }
}

/// What follows the last dot.
proof fn lemma_extension(s: Seq<char>, i: int)
    requires
        0 <= i <= s.len(),
        forall|j: int| i <= j < s.len() ==> #[trigger] s[j] != '.',
        i > 0 ==> s[i - 1] == '.',
    ensures
        extension(s) == (if i == 0 {
            None
        } else {
            Some(s.skip(i))
        }),
    decreases s.len(),
{
    if i < s.len() {
        let t = s.drop_last();
        assert(s[s.len() - 1] != '.');
        assert forall|j: int| i <= j < t.len() implies #[trigger] t[j] != '.' by {
            assert(t[j] == s[j]);
        }
        lemma_extension(t, i);
        if i > 0 {
            assert(t.skip(i).push(s.last()) == s.skip(i));
        }
    } else if s.len() > 0 {
        assert(s.skip(i) == Seq::<char>::empty());
    }
}

/// Whether the last part of a text, after its last dot, is the extension of a file name.
fn has_extension(head: &str) -> (r: bool)
    ensures
        r == (extension(head@) matches Some(e) && is_extension(e)),
{
    let cs = chars_of(head);
    let n: usize = cs.len();
    let mut i: usize = n;
    while i > 0 && cs[i - 1] != '.'
        invariant
            i <= n,
            n == cs.len(),
            forall|j: int| i <= j < n ==> #[trigger] cs@[j] != '.',
        decreases i,
    {
        i = i - 1;
    }
    proof {
        lemma_extension(cs@, i as int);
    }
    if i == 0 {
        return false;
    }
    let ghost e = cs@.skip(i as int);
    if n == i || n - i > 8 {
        return false;
    }
    let mut letter: bool = false;
    let mut k: usize = i;
    while k < n
        invariant
            0 < i <= k <= n,
            n == cs.len(),
            e == cs@.skip(i as int),
            extension(head@) == Some(e),
            forall|j: int| 0 <= j < k - i ==> is_alnum(#[trigger] e[j]),
            letter == (exists|j: int| 0 <= j < k - i && is_letter(#[trigger] e[j])),
        decreases n - k,
    {
        let c: char = cs[k];
        proof {
            assert(e[k - i] == c);
        }
        let is_l: bool = ('a' <= c && c <= 'z') || ('A' <= c && c <= 'Z');
        if !(is_l || ('0' <= c && c <= '9')) {
            proof {
                assert(!is_alnum(e[k - i]));
            }
            return false;
        }
        if is_l {
            letter = true;
        }
        k = k + 1;
    }
    letter
}

/// The file that the title of an editor window names, as far as it looks like one.
pub fn file_from_window_title(title: &str) -> (r: Option<String>)
    ensures
        opt_view(r) == file_in_title(title@),
{
    let cs = chars_of(title);
    let mut i: usize = 0;
    while i < cs.len() && !(cs[i] == '—' || cs[i] == '–' || cs[i] == '|')
        invariant
            i <= cs.len(),
            forall|j: int|
                0 <= j < i ==> !(#[trigger] cs@[j] == '—' || cs@[j] == '–' || cs@[j] == '|'),
        decreases cs.len() - i,
    {
        i = i + 1;
    }
    proof {
        lemma_before_bar(cs@, i as int);
        assert(cs@.subrange(0, i as int) == cs@.take(i as int));
    }
    let front = string_of(cs.as_slice(), 0, i);
    let head = trim(
        trim_start_class(trim(cut_before(front.as_str(), " - ")), CharClass::DirtyMark),
    );
    if head.is_empty() || head.unicode_len() > 120 {
        return None;
    }
    if has_extension(head) {
        Some(head.to_owned())
    } else {
        None
    }
}

/// A list without `x`.
pub open spec fn without(l: Seq<Seq<char>>, x: Seq<char>) -> Seq<Seq<char>>
    decreases l.len(),
{
    if l.len() == 0 {
        seq![]
    } else if l.last() == x {
        without(l.drop_last(), x)
    } else {
        without(l.drop_last(), x).push(l.last())
    }
}

/// The open files after `path` was touched: it comes first, stands there once, and only the
/// latest eight stay.
pub open spec fn files_after(files: Seq<Seq<char>>, path: Seq<char>) -> Seq<Seq<char>> {
    if path.len() == 0 || (files.len() > 0 && files[0] == path) {
        files
    } else {
        let all = seq![path] + without(files, path);
        if all.len() <= MAX_OPEN_FILES {
            all
        } else {
            all.take(MAX_OPEN_FILES as int)
        }
    }
}

/// A list without `x`.
pub fn remove_all(l: &Vec<String>, x: &str) -> (r: Vec<String>)
    ensures
        views(r@) == without(views(l@), x@),
{
    let mut r: Vec<String> = Vec::new();
    let mut i: usize = 0;
    while i < l.len()
        invariant
            i <= l.len(),
            views(r@) == without(views(l@).take(i as int), x@),
        decreases l.len() - i,
    {
        proof {
            let t = views(l@).take(i + 1);
            assert(t.drop_last() == views(l@).take(i as int));
            assert(t.last() == l@[i as int]@);
        }
        if !same(l[i].as_str(), x) {
            let ghost before = r@;
            r.push(l[i].clone());
            proof {
                assert(views(r@) =~= views(before).push(l@[i as int]@));
            }
        }
        i = i + 1;
    }
    proof {
        assert(views(l@).take(l@.len() as int) == views(l@));
    }
    r
}

/// Puts a file that was touched first among the open files. Returns whether the list changed.
pub fn push_open_file(files: &mut Vec<String>, path: &str) -> (r: bool)
    ensures
        views(final(files)@) == files_after(views(old(files)@), path@),
        r == !(path@.len() == 0 || (old(files)@.len() > 0 && old(files)@[0]@ == path@)),
{
    if path.is_empty() {
        return false;
    }
    if files.len() > 0 && same(files[0].as_str(), path) {
        return false;
    }
    let ghost before = views(files@);
    let mut rest = remove_all(files, path);
    let ghost rest_view = views(rest@);
    let mut all: Vec<String> = Vec::new();
    all.push(path.to_owned());
    all.append(&mut rest);
    proof {
        assert(views(all@) =~= seq![path@] + rest_view);
    }
    let ghost full = all@;
    all.truncate(MAX_OPEN_FILES);
    proof {
        assert(views(all@) =~= files_after(before, path@));
    }
    *files = all;
    true
}

/// No file stands twice among the open files, and there are at most eight, whatever is touched.
pub proof fn law_open_files_stay_distinct(files: Seq<Seq<char>>, path: Seq<char>)
    requires
        files.no_duplicates(),
        files.len() <= MAX_OPEN_FILES,
    ensures
        files_after(files, path).no_duplicates(),
        files_after(files, path).len() <= MAX_OPEN_FILES,
        path.len() > 0 ==> files_after(files, path)[0] == path && files_after(files, path).len()
            > 0,
{
    lemma_without(files, path);
    let all = seq![path] + without(files, path);
    assert forall|i: int, j: int|
        0 <= i < all.len() && 0 <= j < all.len() && i != j implies all[i] != all[j] by {
        let w = without(files, path);
        if i > 0 {
            assert(all[i] == w[i - 1]);
            assert(w.contains(w[i - 1]));
        }
        if j > 0 {
            assert(all[j] == w[j - 1]);
            assert(w.contains(w[j - 1]));
        }
    }
}

proof fn lemma_without(l: Seq<Seq<char>>, x: Seq<char>)
    requires
        l.no_duplicates(),
    ensures
        without(l, x).no_duplicates(),
        !without(l, x).contains(x),
        forall|y: Seq<char>| #[trigger] without(l, x).contains(y) ==> l.contains(y),
    decreases l.len(),
{
    if l.len() > 0 {
        let b = l.drop_last();
        lemma_without(b, x);
        let wb = without(b, x);
        let w = without(l, x);
        assert forall|y: Seq<char>| b.contains(y) implies l.contains(y) by {
            let i = choose|i: int| 0 <= i < b.len() && b[i] == y;
            assert(l[i] == y);
        }
        if l.last() != x {
            assert forall|y: Seq<char>| #[trigger] w.contains(y) implies l.contains(y) by {
                let i = choose|i: int| 0 <= i < w.len() && w[i] == y;
                if i < wb.len() {
                    assert(wb[i] == y);
                    assert(wb.contains(y));
                } else {
                    assert(l[l.len() - 1] == y);
                }
            }
            assert(!b.contains(l.last())) by {
                if b.contains(l.last()) {
                    let i = choose|i: int| 0 <= i < b.len() && b[i] == l.last();
                    assert(l[i] == l[l.len() - 1]);
                }
            }
            assert forall|i: int, j: int| 0 <= i < w.len() && 0 <= j < w.len() && i != j implies w[i]
                != w[j] by {
                if i < wb.len() {
                    assert(w[i] == wb[i]);
                    assert(wb.contains(wb[i]));
                }
                if j < wb.len() {
                    assert(w[j] == wb[j]);
                    assert(wb.contains(wb[j]));
                }
            }
            if w.contains(x) {
                let i = choose|i: int| 0 <= i < w.len() && w[i] == x;
                assert(wb[i] == x);
                assert(wb.contains(x));
            }
        }
    }
}

} // verus!
