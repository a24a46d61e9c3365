//! # Sessions of the past
//!
//! Groups what was observed in some span of time into sessions, and says of each what it was
//! probably about: with what strength, how sure, and on which observations that rests. Rows that
//! must stay on the machine never get in, malformed rows are refused, and what had to be left out
//! is counted and lowers the confidence.
use vstd::prelude::*;
use crate::context::project::equals_any_case;
use crate::context::sensitivity::EventSensitivity;
use crate::context::session_state::borrowed;
use crate::duplicate::{duplicate_all, Duplicate};
use crate::outside::quote;
use crate::sorted::{to_sorted_list, to_sorted_set};
use crate::text::{char_is_control, contains, join, lower, same, shorten_chars, trim, words};
use crate::time::{nanos_between, Timestamp};
#[allow(unused_imports)]
use crate::outside::quoted_of;
#[allow(unused_imports)]
use crate::sorted::{sorted_list, sorted_set};
#[allow(unused_imports)]
use crate::text::{
    ascii_lower, char_prefix, has_part, is_control, joined, opt_view, trimmed, views, words_of,
};

verus! {

/// The minutes without an observation after which a new session begins.
pub const DEFAULT_SESSION_GAP_MINUTES: i64 = 12;

/// How many observations a session shows.
pub const MAX_SESSION_EVIDENCE: usize = 32;

/// The seconds by which an observation may lie in the future.
pub const MAX_FUTURE_CLOCK_SKEW_SECONDS: i64 = 120;

/// How well a conclusion is founded.
#[derive(Debug, Clone, Copy, PartialEq, Eq, Structural)]
pub enum EvidenceStrength {
    Observed,
    StronglyInferred,
    WeaklyInferred,
    Unknown,
}

/// Whether everything that there is went into an answer.
#[derive(Debug, Clone, Copy, PartialEq, Eq, Structural)]
pub enum ContextCompleteness {
    Complete,
    Partial,
}

/// Why a request is refused.
#[derive(Debug, Clone, PartialEq, Eq)]
pub enum TemporalError {
    NegativeSessionGap,
    InvalidScope,
    EmptySourceReference,
    DuplicateSourceReference(String),
    NonFiniteConfidence(String),
    ConfidenceOutOfRange(String),
    ReversedObservationSpan(String),
    FutureObservation(String),
}

/// One observation.
#[derive(Debug, Clone, PartialEq, Eq)]
pub struct TemporalObservation {
    /// What tells this observation from all others.
    pub source_reference: String,
    pub source: String,
    pub started_at: Timestamp,
    pub ended_at: Timestamp,
    pub project: Option<String>,
    pub application: Option<String>,
    pub event_type: Option<String>,
    pub summary: String,
    /// In millionths. `None` where it is not a finite number.
    pub confidence: Option<i64>,
    pub sensitivity: EventSensitivity,
}

impl Duplicate for TemporalObservation {
    fn duplicate(&self) -> (r: Self) {
        TemporalObservation {
            source_reference: self.source_reference.clone(),
            source: self.source.clone(),
            started_at: self.started_at,
            ended_at: self.ended_at,
            project: self.project.duplicate(),
            application: self.application.duplicate(),
            event_type: self.event_type.duplicate(),
            summary: self.summary.clone(),
            confidence: self.confidence,
            sensitivity: self.sensitivity,
        }
    }
}

/// What is asked for.
#[derive(Debug, Clone, Default, PartialEq, Eq)]
pub struct TemporalScope {
    pub since: Option<Timestamp>,
    pub until: Option<Timestamp>,
    pub project: Option<String>,
}

/// Where the observations come from.
#[derive(Debug, Clone, Default, PartialEq, Eq)]
pub struct TemporalInputProvenance {
    /// Whether the store gave as many rows as it gives at most.
    pub source_limit_reached: bool,
    pub source_high_water: Option<String>,
    /// The time before which the store keeps nothing.
    pub retention_floor: Option<Timestamp>,
    pub privacy_policy_generation: String,
}

/// What a session was about.
#[derive(Debug, Clone, PartialEq, Eq)]
pub struct TemporalConclusion {
    pub text: String,
    pub strength: EvidenceStrength,
    /// In millionths.
    pub confidence: u32,
    /// The observations that the conclusion rests on.
    pub source_references: Vec<String>,
}

/// What a `TemporalConclusion` holds.
#[verifier::ext_equal]
pub struct ConclusionView {
    pub text: Seq<char>,
    pub strength: EvidenceStrength,
    pub confidence: int,
    pub source_references: Seq<Seq<char>>,
}

impl View for TemporalConclusion {
    type V = ConclusionView;

    open spec fn view(&self) -> ConclusionView {
        ConclusionView {
            text: self.text@,
            strength: self.strength,
            confidence: self.confidence as int,
            source_references: views(self.source_references@),
        }
    }
}

/// One session.
#[derive(Debug, Clone, PartialEq, Eq)]
pub struct TemporalSession {
    pub started_at: Timestamp,
    pub updated_at: Timestamp,
    pub project: Option<String>,
    pub applications: Vec<String>,
    pub conclusion: TemporalConclusion,
    pub evidence: Vec<TemporalObservation>,
    pub conflicting_signals: bool,
    /// How many observations are not shown.
    pub dropped_evidence: usize,
    pub completeness: ContextCompleteness,
}

/// What a `TemporalSession` holds.
#[verifier::ext_equal]
pub struct PastSessionView {
    pub started_at: Timestamp,
    pub updated_at: Timestamp,
    pub project: Option<Seq<char>>,
    pub applications: Seq<Seq<char>>,
    pub conclusion: ConclusionView,
    pub evidence: Seq<TemporalObservation>,
    pub conflicting_signals: bool,
    pub dropped_evidence: int,
    pub completeness: ContextCompleteness,
}

impl View for TemporalSession {
    type V = PastSessionView;

    open spec fn view(&self) -> PastSessionView {
        PastSessionView {
            started_at: self.started_at,
            updated_at: self.updated_at,
            project: opt_view(self.project),
            applications: views(self.applications@),
            conclusion: self.conclusion@,
            evidence: self.evidence@,
            conflicting_signals: self.conflicting_signals,
            dropped_evidence: self.dropped_evidence as int,
            completeness: self.completeness,
        }
    }
}

/// What a list of sessions holds.
pub open spec fn past(l: Seq<TemporalSession>) -> Seq<PastSessionView> {
    l.map_values(|s: TemporalSession| s@)
}

/// Where an answer comes from.
#[derive(Debug, Clone, PartialEq, Eq)]
pub struct TemporalQueryProvenance {
    pub requested_since: Option<Timestamp>,
    pub requested_until: Option<Timestamp>,
    pub observed_oldest: Option<Timestamp>,
    pub observed_newest: Option<Timestamp>,
    pub source_high_water: Option<String>,
    pub retention_floor: Option<Timestamp>,
    pub privacy_policy_generation: String,
    pub source_limit_reached: bool,
}

/// An answer.
#[derive(Debug, Clone, PartialEq, Eq)]
pub struct TemporalContext {
    pub sessions: Vec<TemporalSession>,
    /// How many rows must stay on the machine.
    pub omitted_private: usize,
    /// How many rows were not asked for.
    pub omitted_out_of_scope: usize,
    pub completeness: ContextCompleteness,
    pub provenance: TemporalQueryProvenance,
}

/// Groups observations into sessions.
#[derive(Debug, Clone, Copy, PartialEq, Eq, Structural)]
pub struct TemporalSynthesizer {
    /// The time without an observation after which a new session begins, in nanoseconds.
    pub session_gap: i64,
}

// ---------------------------------------------------------------------------
// Which rows get in
// ---------------------------------------------------------------------------

/// What is wrong with a row.
#[derive(Debug, Clone, Copy, PartialEq, Eq, Structural)]
pub enum Flaw {
    EmptyReference,
    DuplicateReference,
    NonFinite,
    OutOfRange,
    Reversed,
    Future,
}

/// What is wrong with the last of the rows, if anything: its reference is blank or was there
/// before, its confidence is not a number between nought and one, it ends before it begins, or it
/// lies in the future.
pub open spec fn last_flaw(rows: Seq<TemporalObservation>, now: int) -> Option<Flaw> {
    let r = rows.last();
    let limit = now + MAX_FUTURE_CLOCK_SKEW_SECONDS * 1_000_000_000;
    if trimmed(r.source_reference@).len() == 0 {
        Some(Flaw::EmptyReference)
    } else if has_reference(rows.drop_last(), r.source_reference@) {
        Some(Flaw::DuplicateReference)
    } else if r.confidence is None {
        Some(Flaw::NonFinite)
    } else if !(0 <= r.confidence->0 <= 1_000_000) {
        Some(Flaw::OutOfRange)
    } else if r.started_at.nanos > r.ended_at.nanos {
        Some(Flaw::Reversed)
    } else if r.started_at.nanos > limit || r.ended_at.nanos > limit {
        Some(Flaw::Future)
    } else {
        None
    }
}

/// Whether a row has the reference `x`.
pub open spec fn has_reference(rows: Seq<TemporalObservation>, x: Seq<char>) -> bool {
    exists|i: int| 0 <= i < rows.len() && (#[trigger] rows[i]).source_reference@ == x
}

/// The number of the first row with a flaw, and the flaw.
pub open spec fn first_flaw(rows: Seq<TemporalObservation>, now: int) -> Option<(int, Flaw)>
    decreases rows.len(),
{
    if rows.len() == 0 {
        None
    } else {
        match first_flaw(rows.drop_last(), now) {
            Some(f) => Some(f),
            None => match last_flaw(rows, now) {
                Some(f) => Some((rows.len() - 1, f)),
                None => None,
            },
        }
    }
}

/// Whether an error reports a flaw of the row with the reference `x`.
pub open spec fn reports(e: TemporalError, f: Flaw, x: Seq<char>) -> bool {
    match f {
        Flaw::EmptyReference => e is EmptySourceReference,
        Flaw::DuplicateReference => e matches TemporalError::DuplicateSourceReference(s) && s@ == x,
        Flaw::NonFinite => e matches TemporalError::NonFiniteConfidence(s) && s@ == x,
        Flaw::OutOfRange => e matches TemporalError::ConfidenceOutOfRange(s) && s@ == x,
        Flaw::Reversed => e matches TemporalError::ReversedObservationSpan(s) && s@ == x,
        Flaw::Future => e matches TemporalError::FutureObservation(s) && s@ == x,
    }
}

/// Whether the two ends of a scope are the wrong way round.
pub open spec fn scope_reversed(scope: TemporalScope) -> bool {
    scope.since matches Some(a) && (scope.until matches Some(b) && a.nanos > b.nanos)
}

/// Whether a row may leave the machine.
pub open spec fn is_public(r: TemporalObservation) -> bool {
    r.sensitivity == EventSensitivity::CloudAllowed
}

/// Whether a row was asked for.
pub open spec fn in_scope(r: TemporalObservation, scope: TemporalScope) -> bool {
    &&& scope.since matches Some(t) ==> r.ended_at.nanos >= t.nanos
    &&& scope.until matches Some(t) ==> r.started_at.nanos <= t.nanos
    &&& scope.project matches Some(p) ==> opt_view(r.project) == Some(p@)
}

/// The rows that get in.
pub open spec fn admitted(rows: Seq<TemporalObservation>, scope: TemporalScope) -> Seq<
    TemporalObservation,
>
    decreases rows.len(),
{
    if rows.len() == 0 {
        seq![]
    } else if is_public(rows.last()) && in_scope(rows.last(), scope) {
        admitted(rows.drop_last(), scope).push(rows.last())
    } else {
        admitted(rows.drop_last(), scope)
    }
}

/// How many rows must stay on the machine.
pub open spec fn private_count(rows: Seq<TemporalObservation>) -> int
    decreases rows.len(),
{
    if rows.len() == 0 {
        0
    } else {
        private_count(rows.drop_last()) + (if is_public(rows.last()) {
            0int
        } else {
            1int
        })
    }
}

/// How many rows may leave the machine, but were not asked for.
pub open spec fn outside_count(rows: Seq<TemporalObservation>, scope: TemporalScope) -> int
    decreases rows.len(),
{
    if rows.len() == 0 {
        0
    } else {
        outside_count(rows.drop_last(), scope) + (if is_public(rows.last()) && !in_scope(
            rows.last(),
            scope,
        ) {
            1int
        } else {
            0int
        })
    }
}

/// Whether `a` comes before `b`: by its beginning, then by its end.
pub open spec fn row_before(a: TemporalObservation, b: TemporalObservation) -> bool {
    a.started_at.nanos < b.started_at.nanos || (a.started_at.nanos == b.started_at.nanos
        && a.ended_at.nanos < b.ended_at.nanos)
}

/// A list of rows in order with one more in its place, behind those of the same time.
pub open spec fn row_placed(l: Seq<TemporalObservation>, r: TemporalObservation) -> Seq<
    TemporalObservation,
>
    decreases l.len(),
{
    if l.len() > 0 && row_before(r, l.last()) {
        row_placed(l.drop_last(), r).push(l.last())
    } else {
        l.push(r)
    }
}

/// The rows in order.
pub open spec fn in_order(rows: Seq<TemporalObservation>) -> Seq<TemporalObservation>
    decreases rows.len(),
{
    if rows.len() == 0 {
        seq![]
    } else {
        row_placed(in_order(rows.drop_last()), rows.last())
    }
}

/// Whether a row has a confidence between nought and one.
pub open spec fn is_sound(r: TemporalObservation) -> bool {
    r.confidence matches Some(c) && 0 <= c <= 1_000_000
}

/// Whether every row has a confidence between nought and one.
pub open spec fn all_sound(rows: Seq<TemporalObservation>) -> bool {
    forall|i: int| 0 <= i < rows.len() ==> is_sound(#[trigger] rows[i])
}

// ---------------------------------------------------------------------------
// Sessions
// ---------------------------------------------------------------------------

/// The projects that the rows name.
pub open spec fn projects_of(rows: Seq<TemporalObservation>) -> Seq<Seq<char>>
    decreases rows.len(),
{
    if rows.len() == 0 {
        seq![]
    } else {
        match rows.last().project {
            Some(p) => projects_of(rows.drop_last()).push(p@),
            None => projects_of(rows.drop_last()),
        }
    }
}

/// How often `x` is in a list.
pub open spec fn occurrences(l: Seq<Seq<char>>, x: Seq<char>) -> int
    decreases l.len(),
{
    if l.len() == 0 {
        0
    } else {
        occurrences(l.drop_last(), x) + (if l.last() == x {
            1int
        } else {
            0int
        })
    }
}

/// The first of the texts `names` that is in `l` more often than those before it and not less
/// often than those behind it.
pub open spec fn most_frequent(names: Seq<Seq<char>>, l: Seq<Seq<char>>) -> Option<Seq<char>>
    decreases names.len(),
{
    if names.len() == 0 {
        None
    } else {
        match most_frequent(names.drop_last(), l) {
            Some(p) => if occurrences(l, names.last()) > occurrences(l, p) {
                Some(names.last())
            } else {
                Some(p)
            },
            None => Some(names.last()),
        }
    }
}

/// The project that most rows name; of several the first in alphabetical order.
pub open spec fn main_project(rows: Seq<TemporalObservation>) -> Option<Seq<char>> {
    most_frequent(sorted_set(projects_of(rows)), projects_of(rows))
}

/// Whether a row continues a session: it begins soon enough after the last row, and does not name
/// another project than the session.
pub open spec fn continues(
    session: Seq<TemporalObservation>,
    r: TemporalObservation,
    gap: int,
) -> bool {
    r.started_at.nanos - session.last().ended_at.nanos <= gap && (main_project(
        session,
    ) matches Some(p) ==> (r.project matches Some(q) ==> q@ == p))
}

/// The rows, in order, divided into sessions.
pub open spec fn grouped(rows: Seq<TemporalObservation>, gap: int) -> Seq<Seq<TemporalObservation>>
    decreases rows.len(),
{
    if rows.len() == 0 {
        seq![]
    } else {
        let g = grouped(rows.drop_last(), gap);
        let r = rows.last();
        if g.len() > 0 && continues(g.last(), r, gap) {
            g.drop_last().push(g.last().push(r))
        } else {
            g.push(seq![r])
        }
    }
}

/// Whether some row is of the event type `t`, in any case.
pub open spec fn has_type(rows: Seq<TemporalObservation>, t: Seq<char>) -> bool {
    exists|i: int|
        0 <= i < rows.len() && ((#[trigger] rows[i]).event_type matches Some(e) && ascii_lower(e@)
            == ascii_lower(t))
}

/// Whether the rows contradict each other: they name more than one project, or show both a
/// success and an error.
pub open spec fn contradictory(rows: Seq<TemporalObservation>) -> bool {
    sorted_set(projects_of(rows)).len() > 1 || (has_type(rows, "success"@) && has_type(
        rows,
        "error"@,
    ))
}

/// The applications that the rows name.
pub open spec fn applications_of(rows: Seq<TemporalObservation>) -> Seq<Seq<char>>
    decreases rows.len(),
{
    if rows.len() == 0 {
        seq![]
    } else {
        match rows.last().application {
            Some(a) if trimmed(a@).len() > 0 => applications_of(rows.drop_last()).push(a@),
            _ => applications_of(rows.drop_last()),
        }
    }
}

// ---------------------------------------------------------------------------
// Conclusions
// ---------------------------------------------------------------------------

/// What a row can be a sign of.
#[derive(Debug, Clone, Copy, PartialEq, Eq, Structural)]
pub enum Signal {
    Testing,
    Debugging,
    Notes,
    Research,
}

/// An optional text, or nothing.
pub open spec fn or_empty(o: Option<String>) -> Seq<char> {
    match o {
        Some(s) => s@,
        None => Seq::empty(),
    }
}

/// What a row says, in lower case.
pub open spec fn said_by(r: TemporalObservation) -> Seq<char> {
    ascii_lower(
        r.source@ + " "@ + or_empty(r.application) + " "@ + or_empty(r.event_type) + " "@
            + r.summary@,
    )
}

/// Whether a row is a sign of something.
pub open spec fn is_sign(r: TemporalObservation, s: Signal) -> bool {
    let h = said_by(r);
    match s {
        Signal::Testing => has_part(h, "cargo test"@) || has_part(h, "pytest"@) || has_part(
            h,
            "test suite"@,
        ) || has_part(h, "tests running"@) || has_part(h, "test failed"@) || has_part(
            h,
            "test passed"@,
        ),
        Signal::Debugging => has_part(h, "bug"@) || has_part(h, "defect"@) || has_part(h, "error"@)
            || has_part(h, "failed"@) || has_part(h, "failure"@) || has_part(h, "diagnostic"@),
        Signal::Notes => ascii_lower(r.source@) == ascii_lower("file"@) || has_part(h, "notes"@)
            || has_part(h, "note file"@) || has_part(h, "markdown"@) || has_part(
            h,
            "document changed"@,
        ),
        Signal::Research => has_part(h, "browser"@) || has_part(h, "pdf"@) || has_part(
            h,
            "research"@,
        ) || has_part(h, "documentation"@) || has_part(h, "article"@),
    }
}

/// What a row counts for, in millionths: its confidence, but at least a fifth.
pub open spec fn weight(r: TemporalObservation) -> int {
    if r.confidence->0 < 200_000 {
        200_000
    } else {
        r.confidence->0 as int
    }
}

/// How much a kind of sign counts, in twentieths.
pub open spec fn factor(s: Signal) -> int {
    match s {
        Signal::Testing => 25,
        Signal::Debugging => 20,
        Signal::Notes => 16,
        Signal::Research => 20,
    }
}

/// What the signs of something come to, in twenty-millionths.
pub open spec fn sign_score(rows: Seq<TemporalObservation>, s: Signal) -> int
    decreases rows.len(),
{
    if rows.len() == 0 {
        0
    } else {
        sign_score(rows.drop_last(), s) + (if is_sign(rows.last(), s) {
            factor(s) * weight(rows.last())
        } else {
            0
        })
    }
}

/// The references of the rows that are a sign of something.
pub open spec fn sign_references(rows: Seq<TemporalObservation>, s: Signal) -> Seq<Seq<char>>
    decreases rows.len(),
{
    if rows.len() == 0 {
        seq![]
    } else if is_sign(rows.last(), s) {
        sign_references(rows.drop_last(), s).push(rows.last().source_reference@)
    } else {
        sign_references(rows.drop_last(), s)
    }
}

/// The sources of the rows that are a sign of something.
pub open spec fn sign_sources(rows: Seq<TemporalObservation>, s: Signal) -> Seq<Seq<char>>
    decreases rows.len(),
{
    if rows.len() == 0 {
        seq![]
    } else if is_sign(rows.last(), s) {
        sign_sources(rows.drop_last(), s).push(ascii_lower(rows.last().source@))
    } else {
        sign_sources(rows.drop_last(), s)
    }
}

/// What a conclusion is about.
#[derive(Debug, Clone, Copy, PartialEq, Eq, Structural)]
pub enum Topic {
    /// Testing, and writing down what is wrong.
    Testing,
    /// Reading up on something, and taking notes.
    Research,
    /// A project, but nothing more.
    Project,
    /// Nothing can be said.
    Nothing,
}

/// What the rows speak for.
pub open spec fn topic_of(rows: Seq<TemporalObservation>) -> Topic {
    if sign_score(rows, Signal::Testing) >= 20_000_000 && sign_score(rows, Signal::Debugging)
        >= 16_000_000 && sign_score(rows, Signal::Notes) >= 12_000_000 {
        Topic::Testing
    } else if sign_score(rows, Signal::Research) >= 24_000_000 && sign_score(rows, Signal::Notes)
        >= 12_000_000 {
        Topic::Research
    } else if main_project(rows) is Some {
        Topic::Project
    } else {
        Topic::Nothing
    }
}

/// A text as it may be shown though nobody vouches for it: on one line, without control
/// characters, and at most eighty characters long.
pub open spec fn label_core(value: Seq<char>) -> Seq<char> {
    char_prefix(joined(words_of(uncontrolled(value)), " "@), 80)
}

/// A text with blanks for its control characters.
pub open spec fn uncontrolled(value: Seq<char>) -> Seq<char> {
    value.map_values(
        |c: char|
            if is_control(c) {
                ' '
            } else {
                c
            },
    )
}

/// How a text is quoted that nobody vouches for.
pub open spec fn label_text(value: Seq<char>) -> Seq<char> {
    quoted_of(
        if label_core(value).len() == 0 {
            "[unavailable]"@
        } else {
            label_core(value)
        },
    )
}

/// What a conclusion says.
pub open spec fn topic_text(topic: Topic, rows: Seq<TemporalObservation>) -> Seq<char> {
    match topic {
        Topic::Testing =>
            "The user appears to be testing the current project and recording defects."@,
        Topic::Research =>
            "The user appears to be researching a topic and consolidating notes."@,
        Topic::Project => "The observed activity is mainly associated with project "@ + label_text(
            main_project(rows)->0,
        ) + "."@,
        Topic::Nothing =>
            "The current activity cannot be summarized confidently from the available evidence."@,
    }
}

/// The sources of rows.
pub open spec fn sources_of(rows: Seq<TemporalObservation>) -> Seq<Seq<char>> {
    rows.map_values(|r: TemporalObservation| ascii_lower(r.source@))
}

/// The references of rows.
pub open spec fn references_of(rows: Seq<TemporalObservation>) -> Seq<Seq<char>> {
    rows.map_values(|r: TemporalObservation| r.source_reference@)
}

/// How many different sources bear a conclusion out: those of its signs, where it rests on signs.
pub open spec fn support(topic: Topic, rows: Seq<TemporalObservation>) -> int {
    sorted_set(
        match topic {
            Topic::Testing => sign_sources(rows, Signal::Testing) + sign_sources(
                rows,
                Signal::Debugging,
            ) + sign_sources(rows, Signal::Notes),
            Topic::Research => sign_sources(rows, Signal::Research) + sign_sources(
                rows,
                Signal::Notes,
            ),
            _ => sources_of(rows),
        },
    ).len() as int
}

/// The first `n` of a list.
pub open spec fn first_n<A>(l: Seq<A>, n: int) -> Seq<A> {
    if l.len() <= n {
        l
    } else {
        l.take(n)
    }
}

/// The observations that a conclusion rests on, in order: up to twelve of its signs, or the first
/// eight rows where it rests on none.
pub open spec fn grounds(topic: Topic, rows: Seq<TemporalObservation>) -> Seq<Seq<char>> {
    match topic {
        Topic::Testing => first_n(
            sorted_set(
                sign_references(rows, Signal::Testing) + sign_references(rows, Signal::Debugging)
                    + sign_references(rows, Signal::Notes),
            ),
            12,
        ),
        Topic::Research => first_n(
            sorted_set(
                sign_references(rows, Signal::Research) + sign_references(rows, Signal::Notes),
            ),
            12,
        ),
        _ => sorted_list(references_of(first_n(rows, 8))),
    }
}

/// The sum of the confidences.
pub open spec fn confidence_sum(rows: Seq<TemporalObservation>) -> int
    decreases rows.len(),
{
    if rows.len() == 0 {
        0
    } else {
        confidence_sum(rows.drop_last()) + rows.last().confidence->0
    }
}

/// What several sources add to a confidence.
pub open spec fn corroboration(support: int) -> int {
    let extra = if support < 1 {
        0
    } else {
        (support - 1) * 80_000
    };
    if extra < 180_000 {
        extra
    } else {
        180_000
    }
}

/// The mean of the confidences of rows, rounded down. Nought where there are none.
pub open spec fn mean_of(rows: Seq<TemporalObservation>) -> int {
    if rows.len() == 0 {
        0
    } else {
        confidence_sum(rows) / rows.len() as int
    }
}

/// How sure a conclusion is: the mean of the rows, more where several sources bear it out, less
/// where they contradict each other, and never quite certain.
pub open spec fn conclusion_confidence(rows: Seq<TemporalObservation>, support: int, conflicting: bool) -> int {
    let c = mean_of(rows) + corroboration(support) - (if conflicting {
        250_000int
    } else {
        0int
    });
    if c < 0 {
        0
    } else if c > 950_000 {
        950_000
    } else {
        c
    }
}

/// How well a topic is founded before its confidence is looked at. Signs from a single source are
/// weak, however many there are.
pub open spec fn topic_strength(topic: Topic, support: int) -> EvidenceStrength {
    match topic {
        Topic::Testing | Topic::Research => if support < 2 {
            EvidenceStrength::WeaklyInferred
        } else {
            EvidenceStrength::StronglyInferred
        },
        Topic::Project => EvidenceStrength::WeaklyInferred,
        Topic::Nothing => EvidenceStrength::Unknown,
    }
}

/// How well a conclusion is founded.
pub open spec fn strength_at(base: EvidenceStrength, confidence: int) -> EvidenceStrength {
    if confidence < 350_000 {
        EvidenceStrength::Unknown
    } else if base == EvidenceStrength::StronglyInferred && confidence < 680_000 {
        EvidenceStrength::WeaklyInferred
    } else {
        base
    }
}

/// What the rows of a session come to.
pub open spec fn concluded(rows: Seq<TemporalObservation>, conflicting: bool) -> ConclusionView {
    let topic = topic_of(rows);
    let n = support(topic, rows);
    let c = conclusion_confidence(rows, n, conflicting);
    ConclusionView {
        text: topic_text(topic, rows),
        strength: strength_at(topic_strength(topic, n), c),
        confidence: c,
        source_references: grounds(topic, rows),
    }
}

/// A conclusion from incomplete evidence: less sure, and less well founded.
pub open spec fn weakened(c: ConclusionView) -> ConclusionView {
    let confidence = if c.confidence < 250_000 {
        0
    } else {
        c.confidence - 250_000
    };
    ConclusionView {
        confidence,
        strength: match c.strength {
            EvidenceStrength::StronglyInferred => EvidenceStrength::WeaklyInferred,
            EvidenceStrength::WeaklyInferred => if confidence < 350_000 {
                EvidenceStrength::Unknown
            } else {
                EvidenceStrength::WeaklyInferred
            },
            other => other,
        },
        ..c
    }
}

/// A session. It spans all its rows and is judged by all of them, but shows only the latest.
pub open spec fn session_of(rows: Seq<TemporalObservation>) -> PastSessionView {
    let conflicting = contradictory(rows);
    let dropped = if rows.len() > MAX_SESSION_EVIDENCE {
        rows.len() - MAX_SESSION_EVIDENCE
    } else {
        0
    };
    let c = concluded(rows, conflicting);
    PastSessionView {
        started_at: rows[0].started_at,
        updated_at: rows.last().ended_at,
        project: main_project(rows),
        applications: sorted_set(applications_of(rows)),
        conclusion: if dropped > 0 {
            weakened(c)
        } else {
            c
        },
        evidence: rows.skip(dropped),
        conflicting_signals: conflicting,
        dropped_evidence: dropped,
        completeness: if dropped > 0 {
            ContextCompleteness::Partial
        } else {
            ContextCompleteness::Complete
        },
    }
}

/// A session of an answer that is known to be incomplete.
pub open spec fn partial(s: PastSessionView) -> PastSessionView {
    PastSessionView {
        completeness: ContextCompleteness::Partial,
        conclusion: weakened(s.conclusion),
        ..s
    }
}

/// Whether an answer is known to be incomplete: the store may hold more, or no longer holds what
/// was asked for.
pub open spec fn known_partial(p: TemporalInputProvenance, scope: TemporalScope) -> bool {
    p.source_limit_reached || (p.retention_floor matches Some(f) && (scope.since matches Some(s)
        && f.nanos > s.nanos))
}

/// The sessions of an answer.
pub open spec fn sessions_of(
    rows: Seq<TemporalObservation>,
    scope: TemporalScope,
    gap: int,
    cut: bool,
) -> Seq<PastSessionView> {
    grouped(in_order(admitted(rows, scope)), gap).map_values(
        |g: Seq<TemporalObservation>|
            if cut {
                partial(session_of(g))
            } else {
                session_of(g)
            },
    )
}

/// Whether some session is incomplete.
pub open spec fn any_partial(l: Seq<PastSessionView>) -> bool {
    exists|i: int|
        0 <= i < l.len() && (#[trigger] l[i]).completeness == ContextCompleteness::Partial
}

/// Whether an answer is what the rows come to.
pub open spec fn is_answer(
    a: TemporalContext,
    rows: Seq<TemporalObservation>,
    scope: TemporalScope,
    p: TemporalInputProvenance,
    gap: int,
) -> bool {
    let cut = known_partial(p, scope);
    let sessions = sessions_of(rows, scope, gap, cut);
    let kept = in_order(admitted(rows, scope));
    &&& past(a.sessions@) == sessions
    &&& a.omitted_private == private_count(rows)
    &&& a.omitted_out_of_scope == outside_count(rows, scope)
    &&& a.completeness == (if cut || any_partial(sessions) {
        ContextCompleteness::Partial
    } else {
        ContextCompleteness::Complete
    })
    &&& a.provenance.requested_since == scope.since
    &&& a.provenance.requested_until == scope.until
    &&& a.provenance.observed_oldest == (if kept.len() == 0 {
        None
    } else {
        Some(kept[0].started_at)
    })
    &&& a.provenance.observed_newest == (if kept.len() == 0 {
        None
    } else {
        Some(kept.last().ended_at)
    })
    &&& opt_view(a.provenance.source_high_water) == opt_view(p.source_high_water)
    &&& a.provenance.retention_floor == p.retention_floor
    &&& a.provenance.privacy_policy_generation@ == p.privacy_policy_generation@
    &&& a.provenance.source_limit_reached == p.source_limit_reached
}


/// What a request comes to: a refusal, or an answer.
pub open spec fn is_outcome(
    r: Result<TemporalContext, TemporalError>,
    rows: Seq<TemporalObservation>,
    scope: TemporalScope,
    p: TemporalInputProvenance,
    gap: int,
    now: int,
) -> bool {
    if gap < 0 {
        r == Err::<TemporalContext, TemporalError>(TemporalError::NegativeSessionGap)
    } else if scope_reversed(scope) {
        r == Err::<TemporalContext, TemporalError>(TemporalError::InvalidScope)
    } else {
        match first_flaw(rows, now) {
            Some((i, f)) => r matches Err(e) && reports(e, f, rows[i].source_reference@),
            None => r matches Ok(a) && is_answer(a, rows, scope, p, gap),
        }
    }
}

// ---------------------------------------------------------------------------
// Checking rows
// ---------------------------------------------------------------------------

/// What is wrong with row `i`, if anything.
fn validate_observation(rows: &Vec<TemporalObservation>, i: usize, now: Timestamp) -> (r: Option<
    TemporalError,
>)
    requires
        i < rows.len(),
    ensures
        match last_flaw(rows@.take(i + 1), now.nanos as int) {
            Some(f) => r matches Some(e) && reports(e, f, rows@[i as int].source_reference@),
            None => r is None,
        },
        r is None ==> is_sound(rows@[i as int]),
{
    let row = &rows[i];
    let ghost t = rows@.take(i + 1);
    assert(t.last() == *row);
    if trim(row.source_reference.as_str()).unicode_len() == 0 {
        return Some(TemporalError::EmptySourceReference);
    }
    let mut j: usize = 0;
    while j < i
        invariant
            j <= i,
            i < rows.len(),
            t == rows@.take(i + 1),
            row == rows@[i as int],
            t.last() == *row,
            trimmed(row.source_reference@).len() != 0,
            forall|k: int|
                0 <= k < j ==> (#[trigger] rows@[k]).source_reference@ != row.source_reference@,
        decreases i - j,
    {
        if same(rows[j].source_reference.as_str(), row.source_reference.as_str()) {
            assert(t.drop_last()[j as int] == rows@[j as int]);
            return Some(
                TemporalError::DuplicateSourceReference(row.source_reference.clone()),
            );
        }
        j = j + 1;
    }
    assert(!has_reference(t.drop_last(), row.source_reference@)) by {
        assert forall|k: int| 0 <= k < t.drop_last().len() implies (
        #[trigger] t.drop_last()[k]).source_reference@ != row.source_reference@ by {
            assert(t.drop_last()[k] == rows@[k]);
        }
    }
    let confidence: i64 = match row.confidence {
        Some(c) => c,
        None => {
            return Some(TemporalError::NonFiniteConfidence(row.source_reference.clone()));
        },
    };
    if confidence < 0 || confidence > 1_000_000 {
        return Some(TemporalError::ConfidenceOutOfRange(row.source_reference.clone()));
    }
    if row.started_at.nanos > row.ended_at.nanos {
        return Some(TemporalError::ReversedObservationSpan(row.source_reference.clone()));
    }
    let limit: i128 = now.nanos as i128 + MAX_FUTURE_CLOCK_SKEW_SECONDS as i128 * 1_000_000_000;
    if row.started_at.nanos as i128 > limit || row.ended_at.nanos as i128 > limit {
        return Some(TemporalError::FutureObservation(row.source_reference.clone()));
    }
    None
}

/// Whether a row was asked for.
fn is_in_scope(row: &TemporalObservation, scope: &TemporalScope) -> (r: bool)
    ensures
        r == in_scope(*row, *scope),
{
    let late_enough = match scope.since {
        Some(t) => row.ended_at.nanos >= t.nanos,
        None => true,
    };
    let early_enough = match scope.until {
        Some(t) => row.started_at.nanos <= t.nanos,
        None => true,
    };
    let of_project = match (&scope.project, &row.project) {
        (Some(p), Some(q)) => same(q.as_str(), p.as_str()),
        (Some(_), None) => false,
        (None, _) => true,
    };
    late_enough && early_enough && of_project
}

/// Puts a row into its place.
fn place_row(l: &mut Vec<TemporalObservation>, row: TemporalObservation)
    ensures
        final(l)@ == row_placed(old(l)@, row),
{
    let ghost all = l@;
    let n: usize = l.len();
    let mut i: usize = n;
    proof {
        assert(all.take(n as int) == all);
        assert(row_placed(all.take(n as int), row) + all.skip(n as int) == row_placed(all, row));
    }
    while i > 0 && (row.started_at.nanos < l[i - 1].started_at.nanos || (row.started_at.nanos
        == l[i - 1].started_at.nanos && row.ended_at.nanos < l[i - 1].ended_at.nanos))
        invariant
            i <= n,
            n == l.len(),
            l@ == all,
            row_placed(all.take(i as int), row) + all.skip(i as int) == row_placed(all, row),
        decreases i,
    {
        proof {
            let t = all.take(i as int);
            assert(t.last() == l@[i - 1]);
            assert(t.drop_last() == all.take(i - 1));
            assert(row_placed(all.take(i - 1), row).push(t.last()) + all.skip(i as int)
                == row_placed(all.take(i - 1), row) + all.skip(i - 1));
        }
        i = i - 1;
    }
    proof {
        if i > 0 {
            assert(all.take(i as int).last() == l@[i - 1]);
        }
    }
    l.insert(i, row);
    proof {
        assert(l@ =~= all.take(i as int).push(row) + all.skip(i as int));
    }
}

proof fn lemma_placed_sound(l: Seq<TemporalObservation>, r: TemporalObservation)
    requires
        all_sound(l),
        is_sound(r),
    ensures
        all_sound(row_placed(l, r)),
        row_placed(l, r).len() == l.len() + 1,
    decreases l.len(),
{
    if l.len() > 0 && row_before(r, l.last()) {
        lemma_placed_sound(l.drop_last(), r);
    }
}

// ---------------------------------------------------------------------------
// Projects and applications
// ---------------------------------------------------------------------------

/// The projects that the rows name.
fn collect_projects(rows: &Vec<TemporalObservation>) -> (r: Vec<String>)
    ensures
        views(r@) == projects_of(rows@),
{
    let mut r: Vec<String> = Vec::new();
    let mut i: usize = 0;
    while i < rows.len()
        invariant
            i <= rows.len(),
            views(r@) == projects_of(rows@.take(i as int)),
        decreases rows.len() - i,
    {
        let ghost before = r@;
        proof {
            let t = rows@.take(i + 1);
            assert(t.drop_last() == rows@.take(i as int));
            assert(t.last() == rows@[i as int]);
        }
        if let Some(p) = &rows[i].project {
            r.push(p.clone());
            assert(views(r@) =~= views(before).push(p@));
        }
        i = i + 1;
    }
    assert(rows@.take(rows@.len() as int) == rows@);
    r
}

/// The applications that the rows name.
fn collect_applications(rows: &Vec<TemporalObservation>) -> (r: Vec<String>)
    ensures
        views(r@) == applications_of(rows@),
{
    let mut r: Vec<String> = Vec::new();
    let mut i: usize = 0;
    while i < rows.len()
        invariant
            i <= rows.len(),
            views(r@) == applications_of(rows@.take(i as int)),
        decreases rows.len() - i,
    {
        let ghost before = r@;
        proof {
            let t = rows@.take(i + 1);
            assert(t.drop_last() == rows@.take(i as int));
            assert(t.last() == rows@[i as int]);
        }
        if let Some(a) = &rows[i].application {
            if trim(a.as_str()).unicode_len() > 0 {
                r.push(a.clone());
                assert(views(r@) =~= views(before).push(a@));
            }
        }
        i = i + 1;
    }
    assert(rows@.take(rows@.len() as int) == rows@);
    r
}

/// How often `x` is in a list.
fn count_in(l: &Vec<String>, x: &str) -> (r: usize)
    ensures
        r == occurrences(views(l@), x@),
{
    let mut n: usize = 0;
    let mut i: usize = 0;
    assert(views(l@).take(0) == Seq::<Seq<char>>::empty());
    while i < l.len()
        invariant
            n <= i <= l.len(),
            n == occurrences(views(l@).take(i as int), x@),
        decreases l.len() - i,
    {
        proof {
            let t = views(l@).take(i + 1);
            assert(t.drop_last() == views(l@).take(i as int));
            assert(t.last() == l@[i as int]@);
        }
        if same(l[i].as_str(), x) {
            n = n + 1;
        }
        i = i + 1;
    }
    assert(views(l@).take(l@.len() as int) == views(l@));
    n
}

/// The project that most rows name; of several the first in alphabetical order.
fn dominant_project(rows: &Vec<TemporalObservation>) -> (r: Option<String>)
    ensures
        opt_view(r) == main_project(rows@),
{
    let all = collect_projects(rows);
    let names = to_sorted_set(&all);
    let mut best: Option<String> = None;
    let mut most: usize = 0;
    let mut i: usize = 0;
    assert(views(names@).take(0) == Seq::<Seq<char>>::empty());
    while i < names.len()
        invariant
            i <= names.len(),
            opt_view(best) == most_frequent(views(names@).take(i as int), views(all@)),
            best matches Some(p) ==> most == occurrences(views(all@), p@),
        decreases names.len() - i,
    {
        proof {
            let t = views(names@).take(i + 1);
            assert(t.drop_last() == views(names@).take(i as int));
            assert(t.last() == names@[i as int]@);
        }
        let n: usize = count_in(&all, names[i].as_str());
        if best.is_none() || n > most {
            best = Some(names[i].clone());
            most = n;
        }
        i = i + 1;
    }
    assert(views(names@).take(names@.len() as int) == views(names@));
    best
}

/// Whether a row continues a session.
fn belongs_to_session(
    current: &Vec<TemporalObservation>,
    next: &TemporalObservation,
    session_gap: i64,
) -> (r: bool)
    requires
        current.len() > 0,
    ensures
        r == continues(current@, *next, session_gap as int),
{
    let last = &current[current.len() - 1];
    if nanos_between(last.ended_at, next.started_at) > session_gap as i128 {
        return false;
    }
    match (dominant_project(current), &next.project) {
        (Some(p), Some(q)) => same(q.as_str(), p.as_str()),
        _ => true,
    }
}

// ---------------------------------------------------------------------------
// Signs
// ---------------------------------------------------------------------------

/// Whether an optional text is `expected`, in any case.
pub fn token_eq(actual: Option<&str>, expected: &str) -> (r: bool)
    ensures
        r == (actual matches Some(a) && ascii_lower(a@) == ascii_lower(expected@)),
{
    match actual {
        Some(a) => equals_any_case(a, expected),
        None => false,
    }
}

/// Whether one of the `needles` is a part of `haystack`.
pub fn contains_any(haystack: &str, needles: &[&str]) -> (r: bool)
    ensures
        r == exists|i: int|
            0 <= i < needles@.len() && has_part(haystack@, #[trigger] needles@[i]@),
{
    let mut i: usize = 0;
    while i < needles.len()
        invariant
            i <= needles@.len(),
            forall|j: int| 0 <= j < i ==> !has_part(haystack@, #[trigger] needles@[j]@),
        decreases needles@.len() - i,
    {
        if contains(haystack, needles[i]) {
            return true;
        }
        i = i + 1;
    }
    false
}

/// Whether some row is of the event type `t`, in any case.
fn any_of_type(rows: &Vec<TemporalObservation>, t: &str) -> (r: bool)
    ensures
        r == has_type(rows@, t@),
{
    let mut i: usize = 0;
    while i < rows.len()
        invariant
            i <= rows.len(),
            forall|j: int|
                0 <= j < i ==> !((#[trigger] rows@[j]).event_type matches Some(e) && ascii_lower(e@)
                    == ascii_lower(t@)),
        decreases rows.len() - i,
    {
        if token_eq(borrowed(&rows[i].event_type), t) {
            return true;
        }
        i = i + 1;
    }
    false
}

/// Whether the rows show both a success and an error.
fn has_signal_conflict(rows: &Vec<TemporalObservation>) -> (r: bool)
    ensures
        r == (has_type(rows@, "success"@) && has_type(rows@, "error"@)),
{
    any_of_type(rows, "success") && any_of_type(rows, "error")
}

/// What a row says, in lower case.
fn haystack_of(row: &TemporalObservation) -> (r: String)
    ensures
        r@ == said_by(*row),
{
    let mut h = row.source.clone();
    h.append(" ");
    if let Some(a) = &row.application {
        h.append(a.as_str());
    }
    let ghost one = h@;
    assert(one =~= row.source@ + " "@ + or_empty(row.application));
    h.append(" ");
    if let Some(e) = &row.event_type {
        h.append(e.as_str());
    }
    let ghost two = h@;
    assert(two =~= one + " "@ + or_empty(row.event_type));
    h.append(" ");
    h.append(row.summary.as_str());
    lower(h.as_str())
}

/// Whether a row is a sign of something.
fn shows(row: &TemporalObservation, s: Signal) -> (r: bool)
    ensures
        r == is_sign(*row, s),
{
    let h = haystack_of(row);
    let h = h.as_str();
    match s {
        Signal::Testing => {
            let words = [
                "cargo test",
                "pytest",
                "test suite",
                "tests running",
                "test failed",
                "test passed",
            ];
            proof {
                assert(has_part(h@, words@[0]@) == has_part(h@, "cargo test"@));
                assert(has_part(h@, words@[1]@) == has_part(h@, "pytest"@));
                assert(has_part(h@, words@[2]@) == has_part(h@, "test suite"@));
                assert(has_part(h@, words@[3]@) == has_part(h@, "tests running"@));
                assert(has_part(h@, words@[4]@) == has_part(h@, "test failed"@));
                assert(has_part(h@, words@[5]@) == has_part(h@, "test passed"@));
            }
            contains_any(h, words.as_slice())
        },
        Signal::Debugging => {
            let words = ["bug", "defect", "error", "failed", "failure", "diagnostic"];
            proof {
                assert(has_part(h@, words@[0]@) == has_part(h@, "bug"@));
                assert(has_part(h@, words@[1]@) == has_part(h@, "defect"@));
                assert(has_part(h@, words@[2]@) == has_part(h@, "error"@));
                assert(has_part(h@, words@[3]@) == has_part(h@, "failed"@));
                assert(has_part(h@, words@[4]@) == has_part(h@, "failure"@));
                assert(has_part(h@, words@[5]@) == has_part(h@, "diagnostic"@));
            }
            contains_any(h, words.as_slice())
        },
        Signal::Notes => {
            let words = ["notes", "note file", "markdown", "document changed"];
            proof {
                assert(has_part(h@, words@[0]@) == has_part(h@, "notes"@));
                assert(has_part(h@, words@[1]@) == has_part(h@, "note file"@));
                assert(has_part(h@, words@[2]@) == has_part(h@, "markdown"@));
                assert(has_part(h@, words@[3]@) == has_part(h@, "document changed"@));
            }
            equals_any_case(row.source.as_str(), "file") || contains_any(h, words.as_slice())
        },
        Signal::Research => {
            let words = ["browser", "pdf", "research", "documentation", "article"];
            proof {
                assert(has_part(h@, words@[0]@) == has_part(h@, "browser"@));
                assert(has_part(h@, words@[1]@) == has_part(h@, "pdf"@));
                assert(has_part(h@, words@[2]@) == has_part(h@, "research"@));
                assert(has_part(h@, words@[3]@) == has_part(h@, "documentation"@));
                assert(has_part(h@, words@[4]@) == has_part(h@, "article"@));
            }
            contains_any(h, words.as_slice())
        },
    }
}

/// What the rows show of one kind of sign.
struct Signs {
    score: u128,
    references: Vec<String>,
    sources: Vec<String>,
}

/// What the rows show of one kind of sign.
fn collect_signs(rows: &Vec<TemporalObservation>, s: Signal) -> (r: Signs)
    requires
        all_sound(rows@),
    ensures
        r.score == sign_score(rows@, s),
        views(r.references@) == sign_references(rows@, s),
        views(r.sources@) == sign_sources(rows@, s),
{
    let mut score: u128 = 0;
    let mut references: Vec<String> = Vec::new();
    let mut sources: Vec<String> = Vec::new();
    let unit: u128 = match s {
        Signal::Testing => 25,
        Signal::Debugging => 20,
        Signal::Notes => 16,
        Signal::Research => 20,
    };
    let mut i: usize = 0;
    while i < rows.len()
        invariant
            i <= rows.len(),
            all_sound(rows@),
            unit == factor(s),
            16 <= unit <= 25,
            score <= i * 25_000_000,
            score == sign_score(rows@.take(i as int), s),
            views(references@) == sign_references(rows@.take(i as int), s),
            views(sources@) == sign_sources(rows@.take(i as int), s),
        decreases rows.len() - i,
    {
        let ghost refs_before = references@;
        let ghost sources_before = sources@;
        let row = &rows[i];
        proof {
            let t = rows@.take(i + 1);
            assert(t.drop_last() == rows@.take(i as int));
            assert(t.last() == *row);
            assert(is_sound(*row));
        }
        if shows(row, s) {
            let confidence: i64 = match row.confidence {
                Some(c) => c,
                None => 0,
            };
            let weight: u128 = if confidence < 200_000 {
                200_000
            } else {
                confidence as u128
            };
            assert(unit * weight <= 25_000_000) by (nonlinear_arith)
                requires
                    unit <= 25,
                    weight <= 1_000_000,
            ;
            score = score + unit * weight;
            references.push(row.source_reference.clone());
            sources.push(lower(row.source.as_str()));
            proof {
                assert(views(references@) =~= views(refs_before).push(row.source_reference@));
                assert(views(sources@) =~= views(sources_before).push(ascii_lower(row.source@)));
            }
        }
        i = i + 1;
    }
    assert(rows@.take(rows@.len() as int) == rows@);
    Signs { score, references, sources }
}

/// Puts a list behind another.
fn extend_with(l: &mut Vec<String>, more: &Vec<String>)
    ensures
        views(final(l)@) == views(old(l)@) + views(more@),
{
    let ghost before = l@;
    let mut copy = duplicate_all(more);
    l.append(&mut copy);
    assert(views(l@) =~= views(before) + views(more@));
}

/// The first `n` of a list.
fn keep_first(l: &mut Vec<String>, n: usize)
    ensures
        views(final(l)@) == first_n(views(old(l)@), n as int),
{
    let ghost before = l@;
    if l.len() > n {
        l.truncate(n);
    }
    assert(views(l@) =~= first_n(views(before), n as int));
}

// ---------------------------------------------------------------------------
// Conclusions
// ---------------------------------------------------------------------------

/// A text with blanks for its control characters.
fn blank_controls(value: &str) -> (r: String)
    ensures
        r@ == uncontrolled(value@),
{
    let mut r = String::new();
    for c in it: value.chars()
        invariant
            it.seq() == value@,
            r@ == uncontrolled(value@).take(it.index() as int),
    {
        let ghost before = r@;
        if char_is_control(c) {
            r.push(' ');
        } else {
            r.push(c);
        }
        proof {
            assert(uncontrolled(value@).take(it.index() + 1) =~= before.push(
                uncontrolled(value@)[it.index() as int],
            ));
        }
    }
    assert(uncontrolled(value@).take(value@.len() as int) == uncontrolled(value@));
    r
}

/// Quotes a text that nobody vouches for: on one line, and not too long.
pub fn render_untrusted_label(value: &str) -> (r: String)
    ensures
        r@ == label_text(value@),
{
    let plain = blank_controls(value);
    let parts = words(plain.as_str());
    let collapsed = join(&parts, parts.len(), " ");
    assert(views(parts@).take(parts@.len() as int) == views(parts@));
    let bounded = shorten_chars(collapsed.as_str(), 80);
    if bounded.as_str().unicode_len() == 0 {
        quote("[unavailable]")
    } else {
        quote(bounded.as_str())
    }
}

/// What a conclusion says.
fn conclusion_text(topic: Topic, rows: &Vec<TemporalObservation>, project: &Option<String>) -> (r:
    String)
    requires
        opt_view(*project) == main_project(rows@),
        topic is Project ==> project is Some,
    ensures
        r@ == topic_text(topic, rows@),
{
    match topic {
        Topic::Testing =>
            "The user appears to be testing the current project and recording defects.".to_owned(),
        Topic::Research =>
            "The user appears to be researching a topic and consolidating notes.".to_owned(),
        Topic::Project => {
            let mut r = "The observed activity is mainly associated with project ".to_owned();
            if let Some(p) = project {
                let label = render_untrusted_label(p.as_str());
                r.append(label.as_str());
            }
            r.append(".");
            r
        },
        Topic::Nothing =>
            "The current activity cannot be summarized confidently from the available evidence.".to_owned(),
    }
}

/// The sources of rows.
fn collect_sources(rows: &Vec<TemporalObservation>) -> (r: Vec<String>)
    ensures
        views(r@) == sources_of(rows@),
{
    let mut r: Vec<String> = Vec::new();
    let mut i: usize = 0;
    while i < rows.len()
        invariant
            i <= rows.len(),
            views(r@) == sources_of(rows@).take(i as int),
        decreases rows.len() - i,
    {
        let ghost before = r@;
        r.push(lower(rows[i].source.as_str()));
        assert(views(r@) =~= views(before).push(ascii_lower(rows@[i as int].source@)));
        i = i + 1;
    }
    r
}

/// The references of the first `n` rows.
fn collect_references(rows: &Vec<TemporalObservation>, n: usize) -> (r: Vec<String>)
    ensures
        views(r@) == references_of(first_n(rows@, n as int)),
{
    let mut r: Vec<String> = Vec::new();
    let mut i: usize = 0;
    while i < rows.len() && i < n
        invariant
            i <= rows.len(),
            i <= n,
            views(r@) == references_of(rows@).take(i as int),
        decreases rows.len() - i,
    {
        let ghost before = r@;
        r.push(rows[i].source_reference.clone());
        assert(views(r@) =~= views(before).push(rows@[i as int].source_reference@));
        i = i + 1;
    }
    assert(views(r@) =~= references_of(first_n(rows@, n as int)));
    r
}

/// The mean of the confidences, rounded down; nought where there are none.
fn mean_confidence(rows: &Vec<TemporalObservation>) -> (r: u32)
    requires
        all_sound(rows@),
    ensures
        r == mean_of(rows@),
        r <= 1_000_000,
{
    if rows.len() == 0 {
        return 0;
    }
    let mut sum: u128 = 0;
    let mut i: usize = 0;
    while i < rows.len()
        invariant
            i <= rows.len(),
            all_sound(rows@),
            sum <= i * 1_000_000,
            sum == confidence_sum(rows@.take(i as int)),
        decreases rows.len() - i,
    {
        proof {
            let t = rows@.take(i + 1);
            assert(t.drop_last() == rows@.take(i as int));
            assert(t.last() == rows@[i as int]);
            assert(is_sound(rows@[i as int]));
        }
        if let Some(c) = rows[i].confidence {
            sum = sum + c as u128;
        }
        i = i + 1;
    }
    assert(rows@.take(rows@.len() as int) == rows@);
    let n: u128 = rows.len() as u128;
    assert(sum / n <= 1_000_000) by (nonlinear_arith)
        requires
            sum <= n * 1_000_000,
            n > 0,
    ;
    (sum / n) as u32
}

/// How sure a conclusion is.
fn weigh(rows: &Vec<TemporalObservation>, support: usize, conflicting: bool) -> (r: u32)
    requires
        all_sound(rows@),
    ensures
        r == conclusion_confidence(rows@, support as int, conflicting),
        r <= 950_000,
{
    let mean: u32 = mean_confidence(rows);
    let extra: u32 = if support <= 1 {
        0
    } else if support == 2 {
        80_000
    } else if support == 3 {
        160_000
    } else {
        180_000
    };
    assert(extra == corroboration(support as int));
    let sum: u32 = mean + extra;
    let c: u32 = if conflicting {
        if sum < 250_000 {
            0
        } else {
            sum - 250_000
        }
    } else {
        sum
    };
    if c > 950_000 {
        950_000
    } else {
        c
    }
}

/// What the rows of a session come to.
fn infer_conclusion(rows: &Vec<TemporalObservation>, conflicting: bool) -> (r: TemporalConclusion)
    requires
        all_sound(rows@),
    ensures
        r@ == concluded(rows@, conflicting),
        r.confidence <= 950_000,
{
    let testing = collect_signs(rows, Signal::Testing);
    let debugging = collect_signs(rows, Signal::Debugging);
    let notes = collect_signs(rows, Signal::Notes);
    let research = collect_signs(rows, Signal::Research);
    let project = dominant_project(rows);
    let topic = if testing.score >= 20_000_000 && debugging.score >= 16_000_000 && notes.score
        >= 12_000_000 {
        Topic::Testing
    } else if research.score >= 24_000_000 && notes.score >= 12_000_000 {
        Topic::Research
    } else if project.is_some() {
        Topic::Project
    } else {
        Topic::Nothing
    };
    assert(topic == topic_of(rows@));
    let text = conclusion_text(topic, rows, &project);
    let (sources, source_references) = match topic {
        Topic::Testing => {
            let mut sources = testing.sources;
            extend_with(&mut sources, &debugging.sources);
            extend_with(&mut sources, &notes.sources);
            let mut refs = testing.references;
            extend_with(&mut refs, &debugging.references);
            extend_with(&mut refs, &notes.references);
            let mut refs = to_sorted_set(&refs);
            keep_first(&mut refs, 12);
            (to_sorted_set(&sources), refs)
        },
        Topic::Research => {
            let mut sources = research.sources;
            extend_with(&mut sources, &notes.sources);
            let mut refs = research.references;
            extend_with(&mut refs, &notes.references);
            let mut refs = to_sorted_set(&refs);
            keep_first(&mut refs, 12);
            (to_sorted_set(&sources), refs)
        },
        _ => {
            let sources = collect_sources(rows);
            let refs = collect_references(rows, 8);
            (to_sorted_set(&sources), to_sorted_list(&refs))
        },
    };
    let support: usize = sources.len();
    assert(views(sources@).len() == support);
    let base = match topic {
        Topic::Testing | Topic::Research => if support < 2 {
            EvidenceStrength::WeaklyInferred
        } else {
            EvidenceStrength::StronglyInferred
        },
        Topic::Project => EvidenceStrength::WeaklyInferred,
        Topic::Nothing => EvidenceStrength::Unknown,
    };
    let confidence: u32 = weigh(rows, support, conflicting);
    let strength = if confidence < 350_000 {
        EvidenceStrength::Unknown
    } else if base == EvidenceStrength::StronglyInferred && confidence < 680_000 {
        EvidenceStrength::WeaklyInferred
    } else {
        base
    };
    TemporalConclusion { text, strength, confidence, source_references }
}

/// Lowers a conclusion that rests on incomplete evidence.
fn downgrade_partial_conclusion(conclusion: &mut TemporalConclusion)
    ensures
        final(conclusion)@ == weakened(old(conclusion)@),
{
    let confidence: u32 = if conclusion.confidence < 250_000 {
        0
    } else {
        conclusion.confidence - 250_000
    };
    conclusion.confidence = confidence;
    match conclusion.strength {
        EvidenceStrength::StronglyInferred => {
            conclusion.strength = EvidenceStrength::WeaklyInferred;
        },
        EvidenceStrength::WeaklyInferred => {
            if confidence < 350_000 {
                conclusion.strength = EvidenceStrength::Unknown;
            }
        },
        _ => {},
    }
}

/// The last rows from `from` on.
fn rows_from(rows: Vec<TemporalObservation>, from: usize) -> (r: Vec<TemporalObservation>)
    requires
        from <= rows.len(),
    ensures
        r@ == rows@.skip(from as int),
{
    let mut rows = rows;
    rows.split_off(from)
}

/// Makes a session of its rows.
fn synthesize_session(rows: Vec<TemporalObservation>) -> (r: TemporalSession)
    requires
        all_sound(rows@),
        rows.len() > 0,
    ensures
        r@ == session_of(rows@),
{
    let started_at = rows[0].started_at;
    let updated_at = rows[rows.len() - 1].ended_at;
    let project = dominant_project(&rows);
    let named = collect_projects(&rows);
    let different = to_sorted_set(&named);
    let conflict = has_signal_conflict(&rows);
    let conflicting_signals = different.len() > 1 || conflict;
    assert(views(different@).len() == different@.len());
    let apps = collect_applications(&rows);
    let applications = to_sorted_set(&apps);
    let mut conclusion = infer_conclusion(&rows, conflicting_signals);
    let dropped_evidence: usize = if rows.len() > MAX_SESSION_EVIDENCE {
        rows.len() - MAX_SESSION_EVIDENCE
    } else {
        0
    };
    let completeness = if dropped_evidence > 0 {
        downgrade_partial_conclusion(&mut conclusion);
        ContextCompleteness::Partial
    } else {
        ContextCompleteness::Complete
    };
    let evidence = rows_from(rows, dropped_evidence);
    TemporalSession {
        started_at,
        updated_at,
        project,
        applications,
        conclusion,
        evidence,
        conflicting_signals,
        dropped_evidence,
        completeness,
    }
}

/// Marks a session of an answer that is known to be incomplete.
fn mark_partial(session: &mut TemporalSession)
    ensures
        final(session)@ == partial(old(session)@),
{
    session.completeness = ContextCompleteness::Partial;
    downgrade_partial_conclusion(&mut session.conclusion);
}


// ---------------------------------------------------------------------------
// Answering
// ---------------------------------------------------------------------------

/// The rows that get in, with the counts of those that do not.
struct Admission {
    rows: Vec<TemporalObservation>,
    omitted_private: usize,
    omitted_out_of_scope: usize,
}

/// Checks the rows, takes in those that may leave the machine and were asked for, and puts them
/// in order.
fn take_in(observations: &Vec<TemporalObservation>, scope: &TemporalScope, now: Timestamp) -> (r:
    Result<Admission, TemporalError>)
    ensures
        match first_flaw(observations@, now.nanos as int) {
            Some((i, f)) => r matches Err(e) && reports(
                e,
                f,
                observations@[i].source_reference@,
            ),
            None => r matches Ok(a) && a.rows@ == in_order(admitted(observations@, *scope))
                && a.omitted_private == private_count(observations@) && a.omitted_out_of_scope
                == outside_count(observations@, *scope) && all_sound(a.rows@),
        },
{
    let mut rows: Vec<TemporalObservation> = Vec::new();
    let mut omitted_private: usize = 0;
    let mut omitted_out_of_scope: usize = 0;
    let mut i: usize = 0;
    while i < observations.len()
        invariant
            i <= observations.len(),
            first_flaw(observations@.take(i as int), now.nanos as int) is None,
            rows@ == in_order(admitted(observations@.take(i as int), *scope)),
            all_sound(rows@),
            omitted_private <= i,
            omitted_out_of_scope <= i,
            omitted_private == private_count(observations@.take(i as int)),
            omitted_out_of_scope == outside_count(observations@.take(i as int), *scope),
        decreases observations.len() - i,
    {
        let row = &observations[i];
        let ghost t = observations@.take(i + 1);
        proof {
            assert(t.drop_last() == observations@.take(i as int));
            assert(t.last() == *row);
        }
        if let Some(e) = validate_observation(observations, i, now) {
            proof {
                lemma_first_flaw(observations@, i as int, now.nanos as int);
            }
            return Err(e);
        }
        let public = match row.sensitivity {
            EventSensitivity::CloudAllowed => true,
            _ => false,
        };
        if !public {
            omitted_private = omitted_private + 1;
        } else if !is_in_scope(row, scope) {
            omitted_out_of_scope = omitted_out_of_scope + 1;
        } else {
            proof {
                let a = admitted(t, *scope);
                assert(a.drop_last() == admitted(t.drop_last(), *scope));
                assert(a.last() == *row);
                lemma_placed_sound(rows@, *row);
            }
            place_row(&mut rows, row.duplicate());
        }
        i = i + 1;
    }
    assert(observations@.take(observations@.len() as int) == observations@);
    Ok(Admission { rows, omitted_private, omitted_out_of_scope })
}

/// The first flaw of the first rows is the first flaw of all.
proof fn lemma_first_flaw(rows: Seq<TemporalObservation>, i: int, now: int)
    requires
        0 <= i < rows.len(),
        first_flaw(rows.take(i), now) is None,
        last_flaw(rows.take(i + 1), now) is Some,
    ensures
        first_flaw(rows, now) == Some((i, last_flaw(rows.take(i + 1), now)->0)),
    decreases rows.len(),
{
    if i + 1 == rows.len() {
        assert(rows.take(i + 1) == rows);
        assert(rows.drop_last() == rows.take(i));
    } else {
        let b = rows.drop_last();
        assert(b.take(i) == rows.take(i));
        assert(b.take(i + 1) == rows.take(i + 1));
        lemma_first_flaw(b, i, now);
    }
}

/// What the groups of rows hold.
spec fn contents(groups: Seq<Vec<TemporalObservation>>) -> Seq<Seq<TemporalObservation>> {
    groups.map_values(|g: Vec<TemporalObservation>| g@)
}

/// Divides the rows, in order, into sessions.
fn divide(rows: &Vec<TemporalObservation>, session_gap: i64) -> (r: Vec<Vec<TemporalObservation>>)
    requires
        all_sound(rows@),
    ensures
        contents(r@) == grouped(rows@, session_gap as int),
        forall|k: int| 0 <= k < r@.len() ==> (#[trigger] r@[k])@.len() > 0 && all_sound(r@[k]@),
{
    let mut groups: Vec<Vec<TemporalObservation>> = Vec::new();
    let mut i: usize = 0;
    assert(contents(groups@) =~= seq![]);
    while i < rows.len()
        invariant
            i <= rows.len(),
            all_sound(rows@),
            contents(groups@) == grouped(rows@.take(i as int), session_gap as int),
            forall|k: int|
                0 <= k < groups@.len() ==> (#[trigger] groups@[k])@.len() > 0 && all_sound(
                    groups@[k]@,
                ),
        decreases rows.len() - i,
    {
        let row = &rows[i];
        let ghost before = groups@;
        proof {
            let t = rows@.take(i + 1);
            assert(t.drop_last() == rows@.take(i as int));
            assert(t.last() == *row);
            assert(is_sound(*row));
            assert(contents(before).len() == before.len());
            if before.len() > 0 {
                assert(contents(before).last() == before.last()@);
                assert(before[before.len() - 1]@.len() > 0);
            }
        }
        let n: usize = groups.len();
        if n > 0 && belongs_to_session(&groups[n - 1], row, session_gap) {
            let last = groups.pop();
            if let Some(mut g) = last {
                g.push(row.duplicate());
                let ghost grown = g@;
                groups.push(g);
                proof {
                    assert(grown == before.last()@.push(*row));
                    assert(contents(groups@) =~= contents(before).drop_last().push(grown));
                    assert forall|k: int| 0 <= k < groups@.len() implies (
                    #[trigger] groups@[k])@.len() > 0 && all_sound(groups@[k]@) by {
                        if k < n - 1 {
                            assert(groups@[k] == before[k]);
                        } else {
                            assert(all_sound(before[n - 1]@));
                        }
                    }
                }
            }
        } else {
            let mut g: Vec<TemporalObservation> = Vec::new();
            g.push(row.duplicate());
            let ghost fresh = g@;
            groups.push(g);
            proof {
                assert(fresh =~= seq![*row]);
                assert(contents(groups@) =~= contents(before).push(fresh));
                assert forall|k: int| 0 <= k < groups@.len() implies (
                #[trigger] groups@[k])@.len() > 0 && all_sound(groups@[k]@) by {
                    if k < n {
                        assert(groups@[k] == before[k]);
                    }
                }
            }
        }
        i = i + 1;
    }
    assert(rows@.take(rows@.len() as int) == rows@);
    groups
}

/// Makes a session of each group.
fn synthesize_sessions(groups: &Vec<Vec<TemporalObservation>>, cut: bool) -> (r: Vec<
    TemporalSession,
>)
    requires
        forall|k: int|
            0 <= k < groups@.len() ==> (#[trigger] groups@[k])@.len() > 0 && all_sound(
                groups@[k]@,
            ),
    ensures
        past(r@) == contents(groups@).map_values(
            |g: Seq<TemporalObservation>|
                if cut {
                    partial(session_of(g))
                } else {
                    session_of(g)
                },
        ),
{
    let mut r: Vec<TemporalSession> = Vec::new();
    let mut i: usize = 0;
    while i < groups.len()
        invariant
            i <= groups.len(),
            r.len() == i,
            forall|k: int|
                0 <= k < groups@.len() ==> (#[trigger] groups@[k])@.len() > 0 && all_sound(
                    groups@[k]@,
                ),
            forall|k: int|
                0 <= k < i ==> (#[trigger] r@[k])@ == (if cut {
                    partial(session_of(groups@[k]@))
                } else {
                    session_of(groups@[k]@)
                }),
        decreases groups.len() - i,
    {
        let mut session = synthesize_session(duplicate_all(&groups[i]));
        if cut {
            mark_partial(&mut session);
        }
        r.push(session);
        i = i + 1;
    }
    proof {
        let f = |g: Seq<TemporalObservation>|
            if cut {
                partial(session_of(g))
            } else {
                session_of(g)
            };
        assert(past(r@) =~= contents(groups@).map_values(f));
    }
    r
}

/// Whether some session is incomplete.
fn some_partial(sessions: &Vec<TemporalSession>) -> (r: bool)
    ensures
        r == any_partial(past(sessions@)),
{
    let mut i: usize = 0;
    while i < sessions.len()
        invariant
            i <= sessions.len(),
            forall|k: int|
                0 <= k < i ==> (#[trigger] past(sessions@)[k]).completeness
                    != ContextCompleteness::Partial,
        decreases sessions.len() - i,
    {
        if sessions[i].completeness == ContextCompleteness::Partial {
            assert(past(sessions@)[i as int].completeness == ContextCompleteness::Partial);
            return true;
        }
        i = i + 1;
    }
    false
}

impl Default for TemporalSynthesizer {
    fn default() -> (r: Self)
        ensures
            r.session_gap == DEFAULT_SESSION_GAP_MINUTES * 60_000_000_000,
    {
        TemporalSynthesizer::new(720_000_000_000)
    }
}

impl TemporalSynthesizer {
    /// A synthesizer that begins a new session after `session_gap` nanoseconds without an
    /// observation.
    pub fn new(session_gap: i64) -> (r: Self)
        ensures
            r.session_gap == session_gap,
    {
        TemporalSynthesizer { session_gap }
    }

    /// Groups the observations into sessions, by the clock of the machine.
    pub fn synthesize(
        &self,
        observations: Vec<TemporalObservation>,
        scope: &TemporalScope,
        provenance: TemporalInputProvenance,
    ) -> (r: Result<TemporalContext, TemporalError>)
        ensures
            exists|now: Timestamp|
                is_outcome(
                    r,
                    observations@,
                    *scope,
                    provenance,
                    self.session_gap as int,
                    #[trigger] now.nanos as int,
                ),
    {
        let now = Timestamp::now();
        self.synthesize_at(observations, scope, provenance, now)
    }

    /// Groups the observations into sessions. Malformed rows are refused, private ones left out.
    pub fn synthesize_at(
        &self,
        observations: Vec<TemporalObservation>,
        scope: &TemporalScope,
        provenance: TemporalInputProvenance,
        now: Timestamp,
    ) -> (r: Result<TemporalContext, TemporalError>)
        ensures
            is_outcome(
                r,
                observations@,
                *scope,
                provenance,
                self.session_gap as int,
                now.nanos as int,
            ),
    {
        if self.session_gap < 0 {
            return Err(TemporalError::NegativeSessionGap);
        }
        if let (Some(since), Some(until)) = (scope.since, scope.until) {
            if since.nanos > until.nanos {
                return Err(TemporalError::InvalidScope);
            }
        }
        let admission = match take_in(&observations, scope, now) {
            Ok(a) => a,
            Err(e) => {
                return Err(e);
            },
        };
        let rows = admission.rows;
        let observed_oldest = if rows.len() == 0 {
            None
        } else {
            Some(rows[0].started_at)
        };
        let observed_newest = if rows.len() == 0 {
            None
        } else {
            Some(rows[rows.len() - 1].ended_at)
        };
        let behind_floor = match (provenance.retention_floor, scope.since) {
            (Some(floor), Some(since)) => floor.nanos > since.nanos,
            _ => false,
        };
        let cut = provenance.source_limit_reached || behind_floor;
        assert(cut == known_partial(provenance, *scope));
        let groups = divide(&rows, self.session_gap);
        let sessions = synthesize_sessions(&groups, cut);
        let completeness = if cut || some_partial(&sessions) {
            ContextCompleteness::Partial
        } else {
            ContextCompleteness::Complete
        };
        Ok(
            TemporalContext {
                sessions,
                omitted_private: admission.omitted_private,
                omitted_out_of_scope: admission.omitted_out_of_scope,
                completeness,
                provenance: TemporalQueryProvenance {
                    requested_since: scope.since,
                    requested_until: scope.until,
                    observed_oldest,
                    observed_newest,
                    source_high_water: provenance.source_high_water,
                    retention_floor: provenance.retention_floor,
                    privacy_policy_generation: provenance.privacy_policy_generation,
                    source_limit_reached: provenance.source_limit_reached,
                },
            },
        )
    }
}

} // verus!
