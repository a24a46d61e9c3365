//! # Continuing
//!
//! What the user means by "continue". The things that might be meant are ranked by how sure each
//! is, what kind of evidence it is and how old; one that is sure enough is recommended, else the
//! user is to be asked a short question that names the best of them.
use vstd::prelude::*;
use crate::context::session_state::{SessionState, StampedText};
use crate::duplicate::Duplicate;
use crate::outside::to_lowercase;
use crate::ratio::ratio_string;
use crate::text::{
    begins, begins_lowered, chars_of, join, lines, same, truncate_on_char_boundary, tail, trim, trim_class,
    words, CharClass,
};
use crate::time::{nanos_between, Timestamp};
#[allow(unused_imports)]
use crate::context::session_state::{opt_nanos, opt_stamp, StampView, StateView};
#[allow(unused_imports)]
use crate::outside::lowered;
#[allow(unused_imports)]
use crate::ratio::{ratio_text, ONE};
#[allow(unused_imports)]
use crate::text::{
    first_of, joined, lemma_first_of, lemma_first_of_is, lines_of, opt_view, shortened_bytes,
    starts_lowered, starts_with, trim_by, trimmed, views, words_of,
};

verus! {

/// The minutes for which evidence keeps its full weight.
pub const DECAY_GRACE_MINUTES: i64 = 30;

/// The least weight that age leaves, in millionths.
pub const DECAY_FLOOR: u32 = 100_000;

/// The age of a task of which it is not known when it was inferred.
pub const UNSTAMPED_SESSION_TASK_AGE_DAYS: i64 = 30;

/// How many candidates a question may name.
pub const MAX_ASK_CANDIDATES: usize = 3;

/// The bytes that are kept of a candidate.
pub const CANDIDATE_TEXT_MAX_CHARS: usize = 200;

/// How sure an open task is, in millionths.
pub const OPEN_TASK_BASE_CONFIDENCE: u32 = 800_000;

/// How sure the next step of a wake-up is, in millionths.
pub const WAKE_NEXT_STEP_BASE_CONFIDENCE: u32 = 800_000;

/// How sure the last command of the user is, in millionths.
pub const LAST_USER_COMMAND_BASE_CONFIDENCE: u32 = 700_000;

/// How sure the last error is, in millionths.
pub const LAST_ERROR_BASE_CONFIDENCE: u32 = 600_000;

/// What the configuration says of continuing.
#[derive(Debug, Clone, PartialEq, Eq)]
pub struct ContinuationConfig {
    /// How sure a candidate must be to be recommended, in millionths.
    pub confidence_floor: u32,
    /// What the user says to continue.
    pub trigger_phrases: Vec<String>,
}

// ---------------------------------------------------------------------------
// Candidates
// ---------------------------------------------------------------------------

/// Where a candidate comes from.
#[derive(Debug, Clone, Copy, PartialEq, Eq, Hash, Structural)]
pub enum CandidateKind {
    SessionTask,
    WakeNextStep,
    OpenTask,
    LastUserCommand,
    LastError,
}

/// The weight of a kind, in millionths.
pub open spec fn prior_of(kind: CandidateKind) -> int {
    match kind {
        CandidateKind::SessionTask => 1_000_000,
        CandidateKind::WakeNextStep => 900_000,
        CandidateKind::OpenTask => 800_000,
        CandidateKind::LastUserCommand => 700_000,
        CandidateKind::LastError => 500_000,
    }
}

/// The place of a kind among the others.
pub open spec fn order_of(kind: CandidateKind) -> int {
    match kind {
        CandidateKind::SessionTask => 0,
        CandidateKind::WakeNextStep => 1,
        CandidateKind::OpenTask => 2,
        CandidateKind::LastUserCommand => 3,
        CandidateKind::LastError => 4,
    }
}

/// The producer of a kind, as it is named in wake reasons.
pub open spec fn source_of(kind: CandidateKind) -> Seq<char> {
    match kind {
        CandidateKind::SessionTask => "session_state.current_task"@,
        CandidateKind::WakeNextStep => "wake_result.next_step"@,
        CandidateKind::OpenTask => "session_summary.open_task"@,
        CandidateKind::LastUserCommand => "session_state.last_user_command"@,
        CandidateKind::LastError => "session_state.last_error"@,
    }
}

/// The name of a kind for the user.
pub open spec fn label_of(kind: CandidateKind) -> Seq<char> {
    match kind {
        CandidateKind::SessionTask => "current task"@,
        CandidateKind::WakeNextStep => "next step from the last wake"@,
        CandidateKind::OpenTask => "open task from the last session"@,
        CandidateKind::LastUserCommand => "your last request"@,
        CandidateKind::LastError => "the last error"@,
    }
}

impl CandidateKind {
    /// The weight of the kind, in millionths.
    pub fn prior(self) -> (r: u32)
        ensures
            r == prior_of(self),
    {
        match self {
            CandidateKind::SessionTask => 1_000_000,
            CandidateKind::WakeNextStep => 900_000,
            CandidateKind::OpenTask => 800_000,
            CandidateKind::LastUserCommand => 700_000,
            CandidateKind::LastError => 500_000,
        }
    }

    /// The producer of the kind, as it is named in wake reasons.
    pub fn source(self) -> (r: &'static str)
        ensures
            r@ == source_of(self),
    {
        match self {
            CandidateKind::SessionTask => "session_state.current_task",
            CandidateKind::WakeNextStep => "wake_result.next_step",
            CandidateKind::OpenTask => "session_summary.open_task",
            CandidateKind::LastUserCommand => "session_state.last_user_command",
            CandidateKind::LastError => "session_state.last_error",
        }
    }

    /// The name of the kind in logs.
    pub fn token(self) -> (r: &'static str)
        ensures
            r@ == (match self {
                CandidateKind::SessionTask => "session_task"@,
                CandidateKind::WakeNextStep => "wake_next_step"@,
                CandidateKind::OpenTask => "open_task"@,
                CandidateKind::LastUserCommand => "last_user_command"@,
                CandidateKind::LastError => "last_error"@,
            }),
    {
        match self {
            CandidateKind::SessionTask => "session_task",
            CandidateKind::WakeNextStep => "wake_next_step",
            CandidateKind::OpenTask => "open_task",
            CandidateKind::LastUserCommand => "last_user_command",
            CandidateKind::LastError => "last_error",
        }
    }

    /// The name of the kind for the user.
    pub fn label(self) -> (r: &'static str)
        ensures
            r@ == label_of(self),
    {
        match self {
            CandidateKind::SessionTask => "current task",
            CandidateKind::WakeNextStep => "next step from the last wake",
            CandidateKind::OpenTask => "open task from the last session",
            CandidateKind::LastUserCommand => "your last request",
            CandidateKind::LastError => "the last error",
        }
    }

    /// The place of the kind among the others.
    pub fn order(self) -> (r: u8)
        ensures
            r == order_of(self),
    {
        match self {
            CandidateKind::SessionTask => 0,
            CandidateKind::WakeNextStep => 1,
            CandidateKind::OpenTask => 2,
            CandidateKind::LastUserCommand => 3,
            CandidateKind::LastError => 4,
        }
    }
}

/// Something that the user might mean.
#[derive(Debug, Clone, PartialEq, Eq)]
pub struct ContinuationCandidate {
    pub kind: CandidateKind,
    pub text: String,
    /// In millionths.
    pub confidence: u32,
    /// How old the evidence is, in nanoseconds.
    pub age: i128,
    pub source: &'static str,
    /// Whether it comes from what must stay on the machine.
    pub local_only: bool,
}

/// What a `ContinuationCandidate` holds.
#[verifier::ext_equal]
pub struct CandidateView {
    pub kind: CandidateKind,
    pub text: Seq<char>,
    pub confidence: int,
    pub age: int,
    pub local_only: bool,
}

impl View for ContinuationCandidate {
    type V = CandidateView;

    open spec fn view(&self) -> CandidateView {
        CandidateView {
            kind: self.kind,
            text: self.text@,
            confidence: self.confidence as int,
            age: self.age as int,
            local_only: self.local_only,
        }
    }
}

impl ContinuationCandidate {
    /// Whether the producer is named as its kind says.
    pub open spec fn well_formed(self) -> bool {
        self.source@ == source_of(self.kind)
    }
}

/// What a list of candidates holds.
pub open spec fn cands(l: Seq<ContinuationCandidate>) -> Seq<CandidateView> {
    l.map_values(|c: ContinuationCandidate| c@)
}

/// Whether every candidate of a list names its producer.
pub open spec fn all_well_formed(l: Seq<ContinuationCandidate>) -> bool {
    forall|i: int| 0 <= i < l.len() ==> (#[trigger] l[i]).well_formed()
}

impl Duplicate for ContinuationCandidate {
    fn duplicate(&self) -> (r: Self) {
        ContinuationCandidate {
            kind: self.kind,
            text: self.text.clone(),
            confidence: self.confidence,
            age: self.age,
            source: self.source,
            local_only: self.local_only,
        }
    }
}

/// What might be meant.
#[derive(Debug, Clone, Default, PartialEq, Eq)]
pub struct ContinuationInputs {
    pub session_task: Option<String>,
    /// How sure the task is, in millionths.
    pub session_confidence: u32,
    /// When the task was established.
    pub session_updated: Option<Timestamp>,
    pub open_task: Option<StampedText>,
    pub wake_next_step: Option<StampedText>,
    pub last_user_command: Option<StampedText>,
    pub last_error: Option<StampedText>,
    /// Whether what the session state gives must stay on the machine.
    pub session_local_only: bool,
}

/// What a `ContinuationInputs` holds.
#[verifier::ext_equal]
pub struct InputsView {
    pub session_task: Option<Seq<char>>,
    pub session_confidence: int,
    pub session_updated: Option<int>,
    pub open_task: Option<StampView>,
    pub wake_next_step: Option<StampView>,
    pub last_user_command: Option<StampView>,
    pub last_error: Option<StampView>,
    pub session_local_only: bool,
}

impl View for ContinuationInputs {
    type V = InputsView;

    open spec fn view(&self) -> InputsView {
        InputsView {
            session_task: opt_view(self.session_task),
            session_confidence: self.session_confidence as int,
            session_updated: opt_nanos(self.session_updated),
            open_task: opt_stamp(self.open_task),
            wake_next_step: opt_stamp(self.wake_next_step),
            last_user_command: opt_stamp(self.last_user_command),
            last_error: opt_stamp(self.last_error),
            session_local_only: self.session_local_only,
        }
    }
}

/// What the session state gives. The task counts as old as it was established.
pub open spec fn session_inputs(s: StateView) -> InputsView {
    InputsView {
        session_task: s.current_task,
        session_confidence: s.confidence,
        session_updated: s.inferred_at,
        open_task: None,
        wake_next_step: None,
        last_user_command: s.last_user_command,
        last_error: s.last_error,
        session_local_only: s.local_only,
    }
}

impl ContinuationInputs {
    /// What the session state gives. The task counts as old as it was established, not as the
    /// state was last touched.
    pub fn from_session(state: &SessionState) -> (r: Self)
        ensures
            r@ == session_inputs(state@),
    {
        ContinuationInputs {
            session_task: state.current_task.duplicate(),
            session_confidence: state.confidence,
            session_updated: state.inferred_at,
            open_task: None,
            wake_next_step: None,
            last_user_command: state.last_user_command.duplicate(),
            last_error: state.last_error.duplicate(),
            session_local_only: state.local_only,
        }
    }

    /// The same with the open task of the last session.
    pub fn with_open_task(self, open_task: Option<StampedText>) -> (r: Self)
        ensures
            r@ == (InputsView { open_task: opt_stamp(open_task), ..self@ }),
    {
        let mut r = self;
        r.open_task = open_task;
        r
    }

    /// The same with the next step of the last wake-up.
    pub fn with_wake_next_step(self, next_step: Option<StampedText>) -> (r: Self)
        ensures
            r@ == (InputsView { wake_next_step: opt_stamp(next_step), ..self@ }),
    {
        let mut r = self;
        r.wake_next_step = next_step;
        r
    }
}

/// What was decided.
#[derive(Debug, Clone, PartialEq, Eq)]
pub enum ContinuationOutcome {
    /// One candidate is sure enough.
    Recommend(ContinuationCandidate),
    /// None is; these are the best.
    Ask(Vec<ContinuationCandidate>),
    /// There is none.
    Nothing,
}

impl ContinuationOutcome {
    /// The best candidate.
    pub fn best(&self) -> (r: Option<&ContinuationCandidate>)
        ensures
            match *self {
                ContinuationOutcome::Recommend(c) => r == Some(&c),
                ContinuationOutcome::Ask(l) => if l@.len() == 0 {
                    r is None
                } else {
                    r == Some(&l@[0])
                },
                ContinuationOutcome::Nothing => r is None,
            },
    {
        match self {
            ContinuationOutcome::Recommend(c) => Some(c),
            ContinuationOutcome::Ask(list) => {
                if list.len() == 0 {
                    None
                } else {
                    Some(&list[0])
                }
            },
            ContinuationOutcome::Nothing => None,
        }
    }

    /// The name of the outcome in logs.
    pub fn variant_name(&self) -> (r: &'static str)
        ensures
            r@ == (match *self {
                ContinuationOutcome::Recommend(_) => "recommend"@,
                ContinuationOutcome::Ask(_) => "ask"@,
                ContinuationOutcome::Nothing => "nothing"@,
            }),
    {
        match self {
            ContinuationOutcome::Recommend(_) => "recommend",
            ContinuationOutcome::Ask(_) => "ask",
            ContinuationOutcome::Nothing => "nothing",
        }
    }
}

// ---------------------------------------------------------------------------
// Scores
// ---------------------------------------------------------------------------

/// The nanoseconds of the time for which evidence keeps its full weight.
pub open spec fn grace_nanos() -> int {
    DECAY_GRACE_MINUTES * 60 * 1_000_000_000
}

/// The whole seconds by which an age exceeds the time of full weight.
pub fn seconds_beyond_grace(age: i128) -> (r: Option<i128>)
    ensures
        r == (if age <= grace_nanos() {
            None
        } else {
            Some(((age - grace_nanos()) / 1_000_000_000) as i128)
        }),
{
    if age <= 1_800_000_000_000 {
        None
    } else {
        Some((age - 1_800_000_000_000) / 1_000_000_000)
    }
}

/// The weight that an age leaves, in millionths, where the weight is halved for every hour beyond
/// the time of full weight and `halved` is what that comes to.
pub open spec fn decay_of(age: int, halved: int) -> int {
    if age <= grace_nanos() {
        ONE as int
    } else if halved < DECAY_FLOOR {
        DECAY_FLOOR as int
    } else {
        halved
    }
}

/// The weight that an age leaves. `halved` is one half to the power of the hours that
/// `seconds_beyond_grace` gives, in millionths; it has no bearing where that gives none.
pub fn recency_decay(age: i128, halved: u32) -> (r: u32)
    ensures
        r == decay_of(age as int, halved as int),
{
    if age <= 1_800_000_000_000 {
        ONE
    } else if halved < DECAY_FLOOR {
        DECAY_FLOOR
    } else {
        halved
    }
}

/// How sure a candidate is: its evidence, the weight of its kind and the weight that its age
/// leaves, and never more than one.
pub open spec fn score(base: int, kind: CandidateKind, decay: int) -> int {
    let s = base * prior_of(kind) * decay / 1_000_000_000_000;
    if s <= ONE {
        s
    } else {
        ONE as int
    }
}

/// What is kept of the text of a candidate, where anything is.
pub open spec fn cleaned(text: Seq<char>) -> Option<Seq<char>> {
    let t = trimmed(text);
    if t.len() == 0 {
        None
    } else {
        Some(shortened_bytes(t, CANDIDATE_TEXT_MAX_CHARS as int))
    }
}

/// What is kept of the text of a candidate, where anything is.
pub fn clean_text(text: &str) -> (r: Option<String>)
    ensures
        opt_view(r) == cleaned(text@),
{
    let t = trim(text);
    if t.is_empty() {
        None
    } else {
        Some(truncate_on_char_boundary(t, CANDIDATE_TEXT_MAX_CHARS))
    }
}

/// What the hours beyond the time of full weight come to for each kind, as `recency_decay` takes
/// it.
#[derive(Debug, Clone, Copy, PartialEq, Eq, Structural)]
pub struct Halvings {
    pub session_task: u32,
    pub wake_next_step: u32,
    pub open_task: u32,
    pub last_user_command: u32,
    pub last_error: u32,
}

/// A candidate, where its text says something.
pub open spec fn candidate(
    kind: CandidateKind,
    text: Seq<char>,
    base: int,
    age: int,
    halved: int,
    local_only: bool,
) -> Seq<CandidateView> {
    match cleaned(text) {
        Some(t) => seq![
            CandidateView {
                kind,
                text: t,
                confidence: score(base, kind, decay_of(age, halved)),
                age,
                local_only,
            },
        ],
        None => seq![],
    }
}

/// The candidate of a stamped text, where there is one.
pub open spec fn stamped_candidate(
    kind: CandidateKind,
    s: Option<StampView>,
    base: int,
    now: int,
    halved: int,
    local_only: bool,
) -> Seq<CandidateView> {
    match s {
        Some(v) => candidate(kind, v.text, base, now - v.at, halved, local_only),
        None => seq![],
    }
}

/// The age of a task of which it is not known when it was inferred, in nanoseconds.
pub open spec fn unstamped_age() -> int {
    UNSTAMPED_SESSION_TASK_AGE_DAYS * 86_400 * 1_000_000_000
}

/// The age of the task of the session.
pub open spec fn task_age(i: InputsView, now: int) -> int {
    match i.session_updated {
        Some(t) => now - t,
        None => unstamped_age(),
    }
}

/// Everything that might be meant. What the session state gives shares its zone; what comes from
/// elsewhere does not.
pub open spec fn all_candidates(i: InputsView, h: Halvings, now: int) -> Seq<CandidateView> {
    (match i.session_task {
        Some(t) => candidate(
            CandidateKind::SessionTask,
            t,
            i.session_confidence,
            task_age(i, now),
            h.session_task as int,
            i.session_local_only,
        ),
        None => seq![],
    }) + stamped_candidate(
        CandidateKind::WakeNextStep,
        i.wake_next_step,
        WAKE_NEXT_STEP_BASE_CONFIDENCE as int,
        now,
        h.wake_next_step as int,
        false,
    ) + stamped_candidate(
        CandidateKind::OpenTask,
        i.open_task,
        OPEN_TASK_BASE_CONFIDENCE as int,
        now,
        h.open_task as int,
        false,
    ) + stamped_candidate(
        CandidateKind::LastUserCommand,
        i.last_user_command,
        LAST_USER_COMMAND_BASE_CONFIDENCE as int,
        now,
        h.last_user_command as int,
        i.session_local_only,
    ) + stamped_candidate(
        CandidateKind::LastError,
        i.last_error,
        LAST_ERROR_BASE_CONFIDENCE as int,
        now,
        h.last_error as int,
        i.session_local_only,
    )
}

/// Adds a candidate, where its text says something.
fn push_candidate(
    out: &mut Vec<ContinuationCandidate>,
    kind: CandidateKind,
    text: &str,
    base: u32,
    age: i128,
    halved: u32,
    local_only: bool,
)
    requires
        all_well_formed(old(out)@),
    ensures
        cands(final(out)@) == cands(old(out)@) + candidate(
            kind,
            text@,
            base as int,
            age as int,
            halved as int,
            local_only,
        ),
        all_well_formed(final(out)@),
{
    let ghost before = out@;
    if let Some(t) = clean_text(text) {
        let decay: u32 = recency_decay(age, halved);
        let prior: u32 = kind.prior();
        proof {
            assert(base * prior <= 0xffff_ffff * 1_000_000) by (nonlinear_arith)
                requires
                    0 <= base <= 0xffff_ffff,
                    0 <= prior <= 1_000_000,
            ;
            assert(base * prior * decay <= 0xffff_ffff * 1_000_000 * 0xffff_ffff)
                by (nonlinear_arith)
                requires
                    0 <= base * prior <= 0xffff_ffff * 1_000_000,
                    0 <= decay <= 0xffff_ffff,
            ;
            assert(0 <= base * prior * decay) by (nonlinear_arith)
                requires
                    0 <= base * prior,
                    0 <= decay,
            ;
        }
        let product: u128 = base as u128 * prior as u128 * decay as u128;
        let scaled: u128 = product / 1_000_000_000_000;
        let confidence: u32 = if scaled <= ONE as u128 {
            scaled as u32
        } else {
            ONE
        };
        out.push(
            ContinuationCandidate {
                kind,
                text: t,
                confidence,
                age,
                source: kind.source(),
                local_only,
            },
        );
        proof {
            assert(cands(out@) =~= cands(before) + candidate(
                kind,
                text@,
                base as int,
                age as int,
                halved as int,
                local_only,
            ));
        }
    } else {
        proof {
            assert(cands(out@) =~= cands(before) + Seq::<CandidateView>::empty());
        }
    }
}

fn push_stamped(
    out: &mut Vec<ContinuationCandidate>,
    kind: CandidateKind,
    s: &Option<StampedText>,
    base: u32,
    now: Timestamp,
    halved: u32,
    local_only: bool,
)
    requires
        all_well_formed(old(out)@),
    ensures
        cands(final(out)@) == cands(old(out)@) + stamped_candidate(
            kind,
            opt_stamp(*s),
            base as int,
            now.nanos as int,
            halved as int,
            local_only,
        ),
        all_well_formed(final(out)@),
{
    match s {
        Some(v) => push_candidate(
            out,
            kind,
            v.text.as_str(),
            base,
            nanos_between(v.at, now),
            halved,
            local_only,
        ),
        None => {
            proof {
                assert(cands(out@) =~= cands(out@) + Seq::<CandidateView>::empty());
            }
        },
    }
}

/// Everything that might be meant.
fn collect(inputs: &ContinuationInputs, h: &Halvings, now: Timestamp) -> (r: Vec<
    ContinuationCandidate,
>)
    ensures
        cands(r@) == all_candidates(inputs@, *h, now.nanos as int),
        all_well_formed(r@),
{
    let mut out: Vec<ContinuationCandidate> = Vec::new();
    proof {
        assert(cands(out@) =~= seq![]);
    }
    match &inputs.session_task {
        Some(task) => {
            let age: i128 = match inputs.session_updated {
                Some(t) => nanos_between(t, now),
                None => 2_592_000_000_000_000,
            };
            push_candidate(
                &mut out,
                CandidateKind::SessionTask,
                task.as_str(),
                inputs.session_confidence,
                age,
                h.session_task,
                inputs.session_local_only,
            );
            proof {
                let c = candidate(
                    CandidateKind::SessionTask,
                    task@,
                    inputs.session_confidence as int,
                    age as int,
                    h.session_task as int,
                    inputs.session_local_only,
                );
                assert(Seq::<CandidateView>::empty() + c =~= c);
            }
        },
        None => {},
    }
    push_stamped(
        &mut out,
        CandidateKind::WakeNextStep,
        &inputs.wake_next_step,
        WAKE_NEXT_STEP_BASE_CONFIDENCE,
        now,
        h.wake_next_step,
        false,
    );
    push_stamped(
        &mut out,
        CandidateKind::OpenTask,
        &inputs.open_task,
        OPEN_TASK_BASE_CONFIDENCE,
        now,
        h.open_task,
        false,
    );
    push_stamped(
        &mut out,
        CandidateKind::LastUserCommand,
        &inputs.last_user_command,
        LAST_USER_COMMAND_BASE_CONFIDENCE,
        now,
        h.last_user_command,
        inputs.session_local_only,
    );
    push_stamped(
        &mut out,
        CandidateKind::LastError,
        &inputs.last_error,
        LAST_ERROR_BASE_CONFIDENCE,
        now,
        h.last_error,
        inputs.session_local_only,
    );
    out
}

// ---------------------------------------------------------------------------
// Ranking
// ---------------------------------------------------------------------------

/// Whether `a` comes before `b`: by confidence, then by the weight of the kind, then the younger,
/// then by the place of the kind.
pub open spec fn outranks(a: CandidateView, b: CandidateView) -> bool {
    if a.confidence != b.confidence {
        a.confidence > b.confidence
    } else if prior_of(a.kind) != prior_of(b.kind) {
        prior_of(a.kind) > prior_of(b.kind)
    } else if a.age != b.age {
        a.age < b.age
    } else {
        order_of(a.kind) < order_of(b.kind)
    }
}

/// A ranked list with one more candidate in its place.
pub open spec fn placed(l: Seq<CandidateView>, c: CandidateView) -> Seq<CandidateView>
    decreases l.len(),
{
    if l.len() > 0 && outranks(c, l.last()) {
        placed(l.drop_last(), c).push(l.last())
    } else {
        l.push(c)
    }
}

/// The candidates, the best first.
pub open spec fn ranked(l: Seq<CandidateView>) -> Seq<CandidateView>
    decreases l.len(),
{
    if l.len() == 0 {
        seq![]
    } else {
        placed(ranked(l.drop_last()), l.last())
    }
}

/// What makes two candidates the same: their text but for case.
pub open spec fn key_of(c: CandidateView) -> Seq<char> {
    lowered(trimmed(c.text))
}

/// The place of the first candidate with the key `key`.
pub open spec fn key_index(l: Seq<CandidateView>, key: Seq<char>) -> Option<int>
    decreases l.len(),
{
    if l.len() == 0 {
        None
    } else {
        match key_index(l.drop_last(), key) {
            Some(i) => Some(i),
            None => if key_of(l.last()) == key {
                Some(l.len() - 1)
            } else {
                None
            },
        }
    }
}

/// The candidates without repetitions: of those with the same key the first stays, and stays on
/// the machine where any of them must.
pub open spec fn collapsed(l: Seq<CandidateView>) -> Seq<CandidateView>
    decreases l.len(),
{
    if l.len() == 0 {
        seq![]
    } else {
        let s = collapsed(l.drop_last());
        match key_index(s, key_of(l.last())) {
            Some(i) => s.update(
                i,
                CandidateView { local_only: s[i].local_only || l.last().local_only, ..s[i] },
            ),
            None => s.push(l.last()),
        }
    }
}

/// Whether an outcome is what a list of candidates, the best first, leads to.
pub open spec fn is_outcome(o: ContinuationOutcome, l: Seq<CandidateView>, floor: int) -> bool {
    if l.len() == 0 {
        o is Nothing
    } else if l[0].confidence >= floor {
        o matches ContinuationOutcome::Recommend(c) && c@ == l[0] && c.well_formed()
    } else {
        o matches ContinuationOutcome::Ask(a) && all_well_formed(a@) && cands(a@) == (if l.len()
            <= MAX_ASK_CANDIDATES {
            l
        } else {
            l.take(MAX_ASK_CANDIDATES as int)
        })
    }
}

/// Whether an outcome is what everything that might be meant leads to: ranked, and without repetitions.
pub open spec fn is_decision(
    o: ContinuationOutcome,
    i: InputsView,
    h: Halvings,
    now: int,
    floor: int,
) -> bool {
    is_outcome(o, collapsed(ranked(all_candidates(i, h, now))), floor)
}

/// `key_index` is the first place, where there is one.
pub proof fn lemma_key_index(l: Seq<CandidateView>, key: Seq<char>)
    ensures
        match key_index(l, key) {
            Some(i) => 0 <= i < l.len() && key_of(l[i]) == key && (forall|j: int|
                0 <= j < i ==> key_of(#[trigger] l[j]) != key),
            None => forall|j: int| 0 <= j < l.len() ==> key_of(#[trigger] l[j]) != key,
        },
    decreases l.len(),
{
    if l.len() > 0 {
        let b = l.drop_last();
        lemma_key_index(b, key);
        match key_index(b, key) {
            Some(i) => {
                assert(l[i] == b[i]);
                assert forall|j: int| 0 <= j < i implies key_of(#[trigger] l[j]) != key by {
                    assert(l[j] == b[j]);
                }
            },
            None => {
                assert forall|j: int| 0 <= j < b.len() implies key_of(#[trigger] l[j])
                    != key by {
                    assert(l[j] == b[j]);
                }
            },
        }
    }
}

/// Whether `a` comes before `b`.
fn comes_before(a: &ContinuationCandidate, b: &ContinuationCandidate) -> (r: bool)
    ensures
        r == outranks(a@, b@),
{
    if a.confidence != b.confidence {
        a.confidence > b.confidence
    } else if a.kind.prior() != b.kind.prior() {
        a.kind.prior() > b.kind.prior()
    } else if a.age != b.age {
        a.age < b.age
    } else {
        a.kind.order() < b.kind.order()
    }
}

/// Puts a candidate in its place in a ranked list.
fn place(l: &mut Vec<ContinuationCandidate>, c: ContinuationCandidate)
    requires
        all_well_formed(old(l)@),
        c.well_formed(),
    ensures
        cands(final(l)@) == placed(cands(old(l)@), c@),
        all_well_formed(final(l)@),
{
    let ghost before = l@;
    let ghost all = cands(before);
    let n: usize = l.len();
    let mut i: usize = n;
    proof {
        assert(all.take(n as int) == all);
        assert(all.skip(n as int) == Seq::<CandidateView>::empty());
        assert(placed(all.take(n as int), c@) + all.skip(n as int) == placed(all, c@));
    }
    while i > 0 && comes_before(&c, &l[i - 1])
        invariant
            i <= n,
            n == l.len(),
            l@ == before,
            all == cands(before),
            placed(all.take(i as int), c@) + all.skip(i as int) == placed(all, c@),
        decreases i,
    {
        proof {
            let t = all.take(i as int);
            assert(t.last() == l@[i - 1]@);
            assert(t.drop_last() == all.take(i - 1));
            assert(placed(t, c@) == placed(all.take(i - 1), c@).push(t.last()));
            assert(placed(all.take(i - 1), c@).push(t.last()) + all.skip(i as int) == placed(
                all.take(i - 1),
                c@,
            ) + all.skip(i - 1));
        }
        i = i - 1;
    }
    proof {
        let t = all.take(i as int);
        if i > 0 {
            assert(t.last() == l@[i - 1]@);
        }
        assert(placed(t, c@) == t.push(c@));
    }
    let ghost cv = c@;
    l.insert(i, c);
    proof {
        assert(cands(l@) =~= all.take(i as int).push(cv) + all.skip(i as int));
        assert forall|k: int| 0 <= k < l@.len() implies (#[trigger] l@[k]).well_formed() by {
            if k < i {
                assert(l@[k] == before[k]);
            } else if k > i {
                assert(l@[k] == before[k - 1]);
            }
        }
    }
}

/// Sorts the candidates, the best first.
fn sort(l: Vec<ContinuationCandidate>) -> (r: Vec<ContinuationCandidate>)
    requires
        all_well_formed(l@),
    ensures
        cands(r@) == ranked(cands(l@)),
        all_well_formed(r@),
{
    let mut r: Vec<ContinuationCandidate> = Vec::new();
    let mut i: usize = 0;
    let ghost all = cands(l@);
    proof {
        assert(all.take(0) == Seq::<CandidateView>::empty());
        assert(cands(r@) =~= seq![]);
    }
    while i < l.len()
        invariant
            i <= l.len(),
            all == cands(l@),
            all_well_formed(l@),
            all_well_formed(r@),
            cands(r@) == ranked(all.take(i as int)),
        decreases l.len() - i,
    {
        proof {
            assert(all.take(i + 1).drop_last() == all.take(i as int));
            assert(all.take(i + 1).last() == l@[i as int]@);
        }
        place(&mut r, l[i].duplicate());
        i = i + 1;
    }
    proof {
        assert(all.take(all.len() as int) == all);
    }
    r
}

/// What makes two candidates the same.
fn key(c: &ContinuationCandidate) -> (r: String)
    ensures
        r@ == key_of(c@),
{
    to_lowercase(trim(c.text.as_str()))
}

/// The place of the first candidate with the key `k`.
fn find_key(l: &Vec<ContinuationCandidate>, k: &str) -> (r: Option<usize>)
    ensures
        (match r {
            Some(i) => Some(i as int),
            None => None,
        }) == key_index(cands(l@), k@),
        r matches Some(i) ==> i < l@.len(),
{
    let ghost all = cands(l@);
    let mut i: usize = 0;
    proof {
        lemma_key_index(all, k@);
    }
    while i < l.len()
        invariant
            i <= l.len(),
            all == cands(l@),
            forall|j: int| 0 <= j < i ==> key_of(#[trigger] all[j]) != k@,
        decreases l.len() - i,
    {
        if same(key(&l[i]).as_str(), k) {
            proof {
                lemma_key_index(all, k@);
                assert(key_of(all[i as int]) == k@);
                let x = key_index(all, k@);
                assert(x is Some);
                assert(x->0 == i) by {
                    if i < x->0 {
                        assert(key_of(all[i as int]) != k@);
                    }
                }
            }
            return Some(i);
        }
        i = i + 1;
    }
    proof {
        lemma_key_index(all, k@);
    }
    None
}

/// Drops repetitions.
fn collapse(l: Vec<ContinuationCandidate>) -> (r: Vec<ContinuationCandidate>)
    requires
        all_well_formed(l@),
    ensures
        cands(r@) == collapsed(cands(l@)),
        all_well_formed(r@),
{
    let mut r: Vec<ContinuationCandidate> = Vec::new();
    let mut i: usize = 0;
    let ghost all = cands(l@);
    proof {
        assert(all.take(0) == Seq::<CandidateView>::empty());
        assert(cands(r@) =~= seq![]);
    }
    while i < l.len()
        invariant
            i <= l.len(),
            all == cands(l@),
            all_well_formed(l@),
            all_well_formed(r@),
            cands(r@) == collapsed(all.take(i as int)),
        decreases l.len() - i,
    {
        proof {
            assert(all.take(i + 1).drop_last() == all.take(i as int));
            assert(all.take(i + 1).last() == l@[i as int]@);
        }
        let ghost before = r@;
        let k = key(&l[i]);
        match find_key(&r, k.as_str()) {
            Some(j) => {
                let mut c = r[j].duplicate();
                c.local_only = c.local_only || l[i].local_only;
                let ghost cv = c@;
                r.set(j, c);
                proof {
                    assert(cands(r@) =~= cands(before).update(j as int, cv));
                }
            },
            None => {
                r.push(l[i].duplicate());
                proof {
                    assert(cands(r@) =~= cands(before).push(l@[i as int]@));
                }
            },
        }
        i = i + 1;
    }
    proof {
        assert(all.take(all.len() as int) == all);
    }
    r
}

/// What a list of candidates, the best first, leads to.
pub fn decide(l: Vec<ContinuationCandidate>, confidence_floor: u32) -> (r: ContinuationOutcome)
    requires
        all_well_formed(l@),
    ensures
        is_outcome(r, cands(l@), confidence_floor as int),
{
    if l.len() == 0 {
        return ContinuationOutcome::Nothing;
    }
    proof {
        assert(cands(l@)[0] == l@[0]@);
    }
    if l[0].confidence >= confidence_floor {
        ContinuationOutcome::Recommend(l[0].duplicate())
    } else {
        let ghost all = l@;
        let mut best = l;
        best.truncate(MAX_ASK_CANDIDATES);
        proof {
            assert(cands(best@) =~= (if all.len() <= MAX_ASK_CANDIDATES {
                cands(all)
            } else {
                cands(all).take(MAX_ASK_CANDIDATES as int)
            }));
        }
        ContinuationOutcome::Ask(best)
    }
}

/// Ranks everything that might be meant, and decides what to do about it.
///
/// `halvings` gives, for each kind, what the hours beyond the time of full weight come to.
pub fn rank(
    inputs: &ContinuationInputs,
    halvings: &Halvings,
    now: Timestamp,
    cfg: &ContinuationConfig,
) -> (r: ContinuationOutcome)
    ensures
        is_decision(r, inputs@, *halvings, now.nanos as int, cfg.confidence_floor as int),
{
    decide(collapse(sort(collect(inputs, halvings, now))), cfg.confidence_floor)
}

// ---------------------------------------------------------------------------
// What the user says
// ---------------------------------------------------------------------------

/// An utterance without the quotes and the punctuation around it.
pub open spec fn bare_utterance(text: Seq<char>) -> Seq<char> {
    trim_by(trimmed(text), CharClass::Utterance)
}

/// An utterance in the form in which utterances are compared.
pub open spec fn utterance_of(text: Seq<char>) -> Seq<char> {
    joined(words_of(lowered(bare_utterance(text))), " "@)
}

/// The words of a text with single blanks between them.
pub fn tidy(text: &str) -> (r: String)
    ensures
        r@ == joined(words_of(text@), " "@),
{
    let parts = words(text);
    let n: usize = parts.len();
    proof {
        assert(views(parts@).take(n as int) == views(parts@));
    }
    join(&parts, n, " ")
}

/// Brings an utterance into the form in which utterances are compared: in lower case, without
/// quotes and punctuation around it, with single blanks.
pub fn normalize_utterance(text: &str) -> (r: String)
    ensures
        r@ == utterance_of(text@),
{
    tidy(to_lowercase(trim_class(trim(text), CharClass::Utterance)).as_str())
}

/// Whether an utterance is a phrase, or begins with it at the end of a word.
pub open spec fn says(utterance: Seq<char>, phrase: Seq<char>) -> bool {
    phrase.len() > 0 && (utterance == phrase || (starts_with(utterance, phrase)
        && utterance.len() > phrase.len() && utterance[phrase.len() as int] == ' '))
}

/// Whether an utterance is a phrase, or begins with it at the end of a word. Both are in the form
/// in which utterances are compared.
pub fn phrase_matches(utterance: &str, phrase: &str) -> (r: bool)
    ensures
        r == says(utterance@, phrase@),
{
    if phrase.is_empty() {
        return false;
    }
    if same(utterance, phrase) {
        return true;
    }
    let n: usize = phrase.unicode_len();
    begins(utterance, phrase) && utterance.unicode_len() > n && utterance.get_char(n) == ' '
}

/// Whether an utterance asks to continue.
pub open spec fn asks_to_continue(text: Seq<char>, phrases: Seq<String>) -> bool {
    utterance_of(text).len() > 0 && exists|i: int|
        0 <= i < phrases.len() && says(utterance_of(text), utterance_of((#[trigger] phrases[i])@))
}

/// Whether an utterance is one of the phrases of the configuration, or begins with one at the end
/// of a word.
pub fn is_continue_trigger(text: &str, cfg: &ContinuationConfig) -> (r: bool)
    ensures
        r == asks_to_continue(text@, cfg.trigger_phrases@),
{
    let utterance = normalize_utterance(text);
    if utterance.as_str().is_empty() {
        return false;
    }
    let mut i: usize = 0;
    while i < cfg.trigger_phrases.len()
        invariant
            i <= cfg.trigger_phrases.len(),
            utterance@ == utterance_of(text@),
            forall|j: int|
                0 <= j < i ==> !says(
                    utterance@,
                    utterance_of((#[trigger] cfg.trigger_phrases@[j])@),
                ),
        decreases cfg.trigger_phrases.len() - i,
    {
        let phrase = normalize_utterance(cfg.trigger_phrases[i].as_str());
        if phrase_matches(utterance.as_str(), phrase.as_str()) {
            return true;
        }
        i = i + 1;
    }
    false
}

/// Whether a wake-up is about continuing: the user asked for it, or asked for nothing at all.
pub fn is_continue_class(ask: Option<&str>, cfg: &ContinuationConfig) -> (r: bool)
    ensures
        r == (match ask {
            Some(text) => trimmed(text@).len() == 0 || asks_to_continue(
                text@,
                cfg.trigger_phrases@,
            ),
            None => true,
        }),
{
    match ask {
        None => true,
        Some(text) => trim(text).is_empty() || is_continue_trigger(text, cfg),
    }
}

/// The first line of a text, without the white space around it.
pub open spec fn first_line(s: Seq<char>) -> Seq<char> {
    let l = lines_of(s);
    if l.len() == 0 {
        Seq::empty()
    } else {
        trimmed(l[0])
    }
}

/// The words of the user in a wake reason.
pub open spec fn spoken_in(reason: Seq<char>) -> Seq<char> {
    let line = first_line(reason);
    let i = first_of(line, ':');
    if starts_lowered(line, "voice command"@) && i < line.len() {
        trimmed(line.skip(i + 1))
    } else {
        line
    }
}

/// The words of the user in a wake reason: what follows the label of a voice command, else the
/// first line.
pub fn utterance_from_wake_reason(reason: &str) -> (r: String)
    ensures
        r@ == spoken_in(reason@),
{
    let rows = lines(reason);
    let line: String = if rows.len() == 0 {
        String::new()
    } else {
        proof {
            assert(views(rows@)[0] == rows@[0]@);
        }
        trim(rows[0].as_str()).to_owned()
    };
    proof {
        assert(views(rows@).len() == rows@.len());
        assert(line@ == first_line(reason@));
    }
    if begins_lowered(line.as_str(), "voice command") {
        let cs = chars_of(line.as_str());
        let mut i: usize = 0;
        while i < cs.len() && cs[i] != ':'
            invariant
                i <= cs.len(),
                forall|j: int| 0 <= j < i ==> #[trigger] cs@[j] != ':',
            decreases cs.len() - i,
        {
            i = i + 1;
        }
        proof {
            lemma_first_of_is(cs@, ':', i as int);
        }
        if i < cs.len() {
            return trim(tail(line.as_str(), i + 1)).to_owned();
        }
    }
    proof {
        lemma_first_of(line@, ':');
    }
    line
}

// ---------------------------------------------------------------------------
// Wake reasons
// ---------------------------------------------------------------------------

/// The wake reason that names what to continue with.
pub open spec fn recommendation(reason: Seq<char>, c: CandidateView, source: Seq<char>) -> Seq<
    char,
> {
    reason + "\nContinue: "@ + c.text + " (from "@ + source + ", confidence "@
        + ratio_text(c.confidence) + ")"@
}

/// The wake reason that names what to continue with.
pub fn recommend_reason(reason: &str, candidate: &ContinuationCandidate) -> (r: String)
    ensures
        r@ == recommendation(reason@, candidate@, candidate.source@),
{
    let mut out: String = reason.to_owned();
    out.append("\nContinue: ");
    out.append(candidate.text.as_str());
    out.append(" (from ");
    out.append(candidate.source);
    out.append(", confidence ");
    out.append(ratio_string(candidate.confidence).as_str());
    out.append(")");
    out
}

/// How a question names a candidate.
pub open spec fn naming(c: CandidateView) -> Seq<char> {
    "\""@ + c.text + "\" ("@ + label_of(c.kind) + ")"@
}

/// The wake reason that has the user asked which of the candidates is meant.
pub open spec fn question(reason: Seq<char>, l: Seq<CandidateView>) -> Seq<char> {
    reason
        + "\nThe user asked to continue but the target is ambiguous; ask one short question naming the candidates: "@
        + joined(l.map_values(|c: CandidateView| naming(c)), ", "@)
        + ". Do not start work until they pick one."@
}

/// The wake reason that has the user asked which of the candidates is meant.
pub fn ask_reason(reason: &str, candidates: &Vec<ContinuationCandidate>) -> (r: String)
    ensures
        r@ == question(reason@, cands(candidates@)),
{
    let mut names: Vec<String> = Vec::new();
    let mut i: usize = 0;
    while i < candidates.len()
        invariant
            i <= candidates.len(),
            names@.len() == i,
            forall|j: int| 0 <= j < i ==> (#[trigger] names@[j])@ == naming(candidates@[j]@),
        decreases candidates.len() - i,
    {
        let mut name: String = "\"".to_owned();
        name.append(candidates[i].text.as_str());
        name.append("\" (");
        name.append(candidates[i].kind.label());
        name.append(")");
        names.push(name);
        i = i + 1;
    }
    let n: usize = names.len();
    proof {
        assert(views(names@).take(n as int) =~= cands(candidates@).map_values(
            |c: CandidateView| naming(c),
        ));
    }
    let mut out: String = reason.to_owned();
    out.append(
        "\nThe user asked to continue but the target is ambiguous; ask one short question naming the candidates: ",
    );
    out.append(join(&names, n, ", ").as_str());
    out.append(". Do not start work until they pick one.");
    out
}

// ---------------------------------------------------------------------------
// Laws
// ---------------------------------------------------------------------------

/// A list in which nothing outranks what comes before it.
pub open spec fn in_rank_order(l: Seq<CandidateView>) -> bool {
    forall|i: int, j: int| 0 <= i < j < l.len() ==> !outranks(#[trigger] l[j], #[trigger] l[i])
}

/// The candidates come out in the order of their rank, and none is lost or invented.
pub proof fn law_ranking_sorts(l: Seq<CandidateView>)
    ensures
        in_rank_order(ranked(l)),
        ranked(l).to_multiset() == l.to_multiset(),
    decreases l.len(),
{
    broadcast use vstd::seq_lib::to_multiset_build;

    if l.len() > 0 {
        law_ranking_sorts(l.drop_last());
        lemma_placed(ranked(l.drop_last()), l.last());
        assert(l.drop_last().push(l.last()) == l);
    } else {
        assert(ranked(l) == l);
    }
}

proof fn lemma_placed(l: Seq<CandidateView>, c: CandidateView)
    requires
        in_rank_order(l),
    ensures
        in_rank_order(placed(l, c)),
        placed(l, c).to_multiset() == l.push(c).to_multiset(),
        placed(l, c).len() == l.len() + 1,
        forall|i: int|
            0 <= i < placed(l, c).len() ==> #[trigger] placed(l, c)[i] == c || l.contains(
                placed(l, c)[i],
            ),
    decreases l.len(),
{
    broadcast use vstd::seq_lib::to_multiset_build;

    let p = placed(l, c);
    if l.len() > 0 && outranks(c, l.last()) {
        let b = l.drop_last();
        let x = l.last();
        assert(in_rank_order(b)) by {
            assert forall|i: int, j: int| 0 <= i < j < b.len() implies !outranks(
                #[trigger] b[j],
                #[trigger] b[i],
            ) by {
                assert(b[i] == l[i] && b[j] == l[j]);
            }
        }
        lemma_placed(b, c);
        let q = placed(b, c);
        assert(p == q.push(x));
        assert(b.push(x) == l);
        assert(p.to_multiset() =~= l.push(c).to_multiset());
        assert forall|i: int, j: int| 0 <= i < j < p.len() implies !outranks(
            #[trigger] p[j],
            #[trigger] p[i],
        ) by {
            assert(p[i] == q[i]);
            if j < q.len() {
                assert(p[j] == q[j]);
            } else if q[i] == c {
                // `x` does not outrank what outranks it.
            } else {
                assert(b.contains(q[i]));
                let k = choose|k: int| 0 <= k < b.len() && b[k] == q[i];
                assert(l[k] == b[k]);
                assert(!outranks(l[l.len() - 1], l[k]));
            }
        }
        assert forall|i: int| 0 <= i < p.len() implies #[trigger] p[i] == c || l.contains(
            p[i],
        ) by {
            if i < q.len() {
                assert(p[i] == q[i]);
                if q[i] != c {
                    assert(b.contains(q[i]));
                    let k = choose|k: int| 0 <= k < b.len() && b[k] == q[i];
                    assert(l[k] == q[i]);
                }
            } else {
                assert(l[l.len() - 1] == x);
            }
        }
    } else {
        assert forall|i: int, j: int| 0 <= i < j < p.len() implies !outranks(
            #[trigger] p[j],
            #[trigger] p[i],
        ) by {
            assert(p[i] == l[i]);
            if j < l.len() {
                assert(p[j] == l[j]);
            } else if i < l.len() - 1 {
                assert(!outranks(l[l.len() - 1], l[i]));
            }
        }
        assert forall|i: int| 0 <= i < p.len() implies #[trigger] p[i] == c || l.contains(
            p[i],
        ) by {
            if i < l.len() {
                assert(p[i] == l[i]);
            }
        }
    }
}

/// After the repetitions are gone no two candidates have the same key; each candidate that was
/// there has one that stands for it; and where it must stay on the machine, so must that one.
pub proof fn law_collapsing_keeps_zone(l: Seq<CandidateView>)
    ensures
        forall|i: int, j: int|
            0 <= i < j < collapsed(l).len() ==> key_of(#[trigger] collapsed(l)[i]) != key_of(
                #[trigger] collapsed(l)[j],
            ),
        forall|i: int|
            0 <= i < l.len() ==> exists|k: int|
                0 <= k < collapsed(l).len() && key_of(#[trigger] collapsed(l)[k]) == key_of(
                    #[trigger] l[i],
                ) && (l[i].local_only ==> collapsed(l)[k].local_only),
    decreases l.len(),
{
    if l.len() > 0 {
        let b = l.drop_last();
        law_collapsing_keeps_zone(b);
        let s = collapsed(b);
        let r = collapsed(l);
        let x = l.last();
        lemma_key_index(s, key_of(x));
        match key_index(s, key_of(x)) {
            Some(p) => {
                assert forall|i: int| 0 <= i < s.len() implies key_of(#[trigger] r[i]) == key_of(
                    s[i],
                ) by {}
                assert forall|i: int, j: int| 0 <= i < j < r.len() implies key_of(#[trigger] r[i])
                    != key_of(#[trigger] r[j]) by {
                    assert(key_of(s[i]) != key_of(s[j]));
                }
                assert forall|i: int| 0 <= i < l.len() implies exists|k: int|
                    0 <= k < r.len() && key_of(#[trigger] r[k]) == key_of(#[trigger] l[i]) && (
                    l[i].local_only ==> r[k].local_only) by {
                    if i < b.len() {
                        assert(l[i] == b[i]);
                        let k = choose|k: int|
                            0 <= k < s.len() && key_of(#[trigger] s[k]) == key_of(b[i]) && (
                            b[i].local_only ==> s[k].local_only);
                        assert(key_of(r[k]) == key_of(s[k]));
                    } else {
                        assert(key_of(r[p]) == key_of(l[i]));
                    }
                }
            },
            None => {
                assert forall|i: int, j: int| 0 <= i < j < r.len() implies key_of(#[trigger] r[i])
                    != key_of(#[trigger] r[j]) by {
                    assert(r[i] == s[i]);
                    if j < s.len() {
                        assert(r[j] == s[j]);
                    }
                }
                assert forall|i: int| 0 <= i < l.len() implies exists|k: int|
                    0 <= k < r.len() && key_of(#[trigger] r[k]) == key_of(#[trigger] l[i]) && (
                    l[i].local_only ==> r[k].local_only) by {
                    if i < b.len() {
                        assert(l[i] == b[i]);
                        let k = choose|k: int|
                            0 <= k < s.len() && key_of(#[trigger] s[k]) == key_of(b[i]) && (
                            b[i].local_only ==> s[k].local_only);
                        assert(r[k] == s[k]);
                    } else {
                        assert(r[s.len() as int] == l[i]);
                    }
                }
            },
        }
    }
}

/// Collapsing keeps the order: the best candidate stays the best.
pub proof fn law_best_stays_best(l: Seq<CandidateView>)
    requires
        l.len() > 0,
    ensures
        collapsed(l).len() > 0,
        collapsed(l)[0].kind == l[0].kind,
        collapsed(l)[0].text == l[0].text,
        collapsed(l)[0].confidence == l[0].confidence,
        collapsed(l)[0].age == l[0].age,
        l[0].local_only ==> collapsed(l)[0].local_only,
    decreases l.len(),
{
    let b = l.drop_last();
    if b.len() > 0 {
        law_best_stays_best(b);
        lemma_key_index(collapsed(b), key_of(l.last()));
    } else {
        assert(collapsed(b) == Seq::<CandidateView>::empty());
    }
}

/// A score is never above one, never above what the evidence alone is worth, and never raised by
/// age.
pub proof fn law_score_bounds(base: int, kind: CandidateKind, decay: int)
    requires
        0 <= base,
        0 <= decay <= ONE,
    ensures
        0 <= score(base, kind, decay) <= ONE,
        score(base, kind, decay) <= base,
        score(base, kind, decay) <= score(base, kind, ONE as int),
{
    let p = prior_of(kind);
    assert(0 <= base * p) by (nonlinear_arith)
        requires
            0 <= base,
            0 <= p,
    ;
    assert(base * p <= base * 1_000_000) by (nonlinear_arith)
        requires
            0 <= base,
            p <= 1_000_000,
    ;
    let bp = base * p;
    assert(0 <= bp * decay <= bp * 1_000_000) by (nonlinear_arith)
        requires
            0 <= bp,
            0 <= decay <= 1_000_000,
    ;
    assert(bp * 1_000_000 <= base * 1_000_000 * 1_000_000);
    assert(bp * decay / 1_000_000_000_000 <= base) by {
        assert(bp * decay <= base * 1_000_000_000_000);
    }
    assert(bp * decay / 1_000_000_000_000 <= bp * 1_000_000 / 1_000_000_000_000) by {
        vstd::arithmetic::div_mod::lemma_div_is_ordered(
            bp * decay,
            bp * 1_000_000,
            1_000_000_000_000,
        );
    }
}

/// Evidence within the time of full weight is worth all of it, and no evidence falls below the
/// floor, however old.
pub proof fn law_decay_bounds(age: int, halved: int)
    requires
        halved <= ONE,
    ensures
        age <= grace_nanos() ==> decay_of(age, halved) == ONE,
        DECAY_FLOOR <= decay_of(age, halved) <= ONE,
{
}

} // verus!
