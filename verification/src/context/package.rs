//! # The context package
//!
//! The bounded block of context that is handed over when the assistant is woken. A package is a
//! fixed list of sections. Rendering applies the per-section caps, hides what may not leave the
//! machine when the reader is in the cloud, and drops detail in a fixed order until the token
//! budget is met. The current moment, the session state, the pending decisions and the wake
//! reason are never dropped.
use vstd::prelude::*;
use crate::text::byte_length;
#[allow(unused_imports)]
use crate::ratio::ratio_text;
#[allow(unused_imports)]
use crate::text::{
    byte_len, decimal, ends_with, joined, opt_view, shortened_bytes, signed_decimal, views,
};

verus! {

/// What stands in a cloud-bound package for a value of a private context.
pub const PRIVATE_PLACEHOLDER: &'static str = "[private]";

/// What stands in a cloud-bound package for the goal or the task of a private context.
pub const PRIVATE_CONTEXT_PHRASE: &'static str = "working in a private context";

/// What stands in a cloud-bound package for a wake reason taken from a private context.
pub const PRIVATE_WAKE_REASON: &'static str = "user activity in a private context";

// ---------------------------------------------------------------------------
// Token estimation
// ---------------------------------------------------------------------------

/// The number of tokens that `bytes` bytes are counted as: three and a half bytes to a token,
/// rounded up.
pub open spec fn tokens_of(bytes: int) -> int {
    (2 * bytes + 6) / 7
}

/// Estimates the tokens of a text. Always rounds up, so a budget test never under-counts.
pub fn estimate_tokens(text: &str) -> (r: usize)
    ensures
        r == tokens_of(byte_len(text@)),
{
    let n: usize = byte_length(text);
    (n / 7) * 2 + ((n % 7) * 2 + 6) / 7
}

// ---------------------------------------------------------------------------
// Budget and caps
// ---------------------------------------------------------------------------

/// How many items each section may show.
#[derive(Debug, Clone, Copy, PartialEq, Eq, Structural)]
pub struct SectionCaps {
    pub just_before: usize,
    pub memories: usize,
    pub facts: usize,
    pub vault_notes: usize,
    pub pending_decisions: usize,
    pub recent_changes: usize,
    pub failed_attempts: usize,
    pub open_files: usize,
    pub tools: usize,
    /// The bytes of the world description.
    pub world_compact_chars: usize,
}

/// The caps that hold unless others are given.
pub open spec fn default_caps() -> SectionCaps {
    SectionCaps {
        just_before: 5,
        memories: 3,
        facts: 8,
        vault_notes: 5,
        pending_decisions: 5,
        recent_changes: 5,
        failed_attempts: 3,
        open_files: 5,
        tools: 12,
        world_compact_chars: 1_200,
    }
}

impl Default for SectionCaps {
    fn default() -> (r: Self)
        ensures
            r == default_caps(),
    {
        SectionCaps {
            just_before: 5,
            memories: 3,
            facts: 8,
            vault_notes: 5,
            pending_decisions: 5,
            recent_changes: 5,
            failed_attempts: 3,
            open_files: 5,
            tools: 12,
            world_compact_chars: 1_200,
        }
    }
}

/// What a rendering has to keep to.
#[derive(Debug, Clone, Copy, PartialEq, Eq, Structural)]
pub struct PackageBudget {
    /// The most tokens the text may take.
    pub token_budget: usize,
    /// Whether the text leaves the machine.
    pub cloud_bound: bool,
    pub caps: SectionCaps,
}

impl Default for PackageBudget {
    fn default() -> (r: Self)
        ensures
            r == (PackageBudget { token_budget: 1_000, cloud_bound: true, caps: default_caps() }),
    {
        PackageBudget { token_budget: 1_000, cloud_bound: true, caps: SectionCaps::default() }
    }
}

impl PackageBudget {
    /// A budget for a text that leaves the machine.
    pub fn cloud(token_budget: usize) -> (r: Self)
        ensures
            r == (PackageBudget { token_budget, cloud_bound: true, caps: default_caps() }),
    {
        PackageBudget { token_budget, cloud_bound: true, caps: SectionCaps::default() }
    }

    /// A budget for a text that stays on the machine.
    pub fn local(token_budget: usize) -> (r: Self)
        ensures
            r == (PackageBudget { token_budget, cloud_bound: false, caps: default_caps() }),
    {
        PackageBudget { token_budget, cloud_bound: false, caps: SectionCaps::default() }
    }

    /// The same budget with other caps.
    pub fn with_caps(self, caps: SectionCaps) -> (r: Self)
        ensures
            r == (PackageBudget { caps, ..self }),
    {
        PackageBudget { token_budget: self.token_budget, cloud_bound: self.cloud_bound, caps }
    }
}

/// One step of dropping detail to meet the budget.
#[derive(Debug, Clone, Copy, PartialEq, Eq, Structural)]
pub enum DropStep {
    OpenFiles,
    RecentChanges,
    JustBeforeTail,
    MemoriesTail,
}

/// The place of a step in the order in which detail is dropped.
pub open spec fn drop_rank(step: DropStep) -> int {
    match step {
        DropStep::OpenFiles => 0,
        DropStep::RecentChanges => 1,
        DropStep::JustBeforeTail => 2,
        DropStep::MemoriesTail => 3,
    }
}

/// The sections, in the order in which they are rendered.
#[derive(Debug, Clone, Copy, PartialEq, Eq, Structural)]
pub enum PackageSection {
    CurrentMoment,
    Session,
    JustBefore,
    Memories,
    Facts,
    VaultNotes,
    RecentChanges,
    FailedAttempts,
    LastSuccess,
    Tools,
    RecommendedNextStep,
    PendingDecisions,
    WhyWoken,
}

/// The place of a section in a rendered package.
pub open spec fn section_rank(section: PackageSection) -> int {
    match section {
        PackageSection::CurrentMoment => 0,
        PackageSection::Session => 1,
        PackageSection::JustBefore => 2,
        PackageSection::Memories => 3,
        PackageSection::Facts => 4,
        PackageSection::VaultNotes => 5,
        PackageSection::RecentChanges => 6,
        PackageSection::FailedAttempts => 7,
        PackageSection::LastSuccess => 8,
        PackageSection::Tools => 9,
        PackageSection::RecommendedNextStep => 10,
        PackageSection::PendingDecisions => 11,
        PackageSection::WhyWoken => 12,
    }
}

/// The name of a section in reports.
pub open spec fn section_token(section: PackageSection) -> Seq<char> {
    match section {
        PackageSection::CurrentMoment => "current_moment"@,
        PackageSection::Session => "session"@,
        PackageSection::JustBefore => "just_before"@,
        PackageSection::Memories => "memories"@,
        PackageSection::Facts => "facts"@,
        PackageSection::VaultNotes => "vault_notes"@,
        PackageSection::RecentChanges => "recent_changes"@,
        PackageSection::FailedAttempts => "failed_attempts"@,
        PackageSection::LastSuccess => "last_success"@,
        PackageSection::Tools => "tools"@,
        PackageSection::RecommendedNextStep => "recommended_next_step"@,
        PackageSection::PendingDecisions => "pending_decisions"@,
        PackageSection::WhyWoken => "why_woken"@,
    }
}

impl PackageSection {
    /// The name of the section in reports.
    pub fn token(self) -> (r: &'static str)
        ensures
            r@ == section_token(self),
    {
        match self {
            PackageSection::CurrentMoment => "current_moment",
            PackageSection::Session => "session",
            PackageSection::JustBefore => "just_before",
            PackageSection::Memories => "memories",
            PackageSection::Facts => "facts",
            PackageSection::VaultNotes => "vault_notes",
            PackageSection::RecentChanges => "recent_changes",
            PackageSection::FailedAttempts => "failed_attempts",
            PackageSection::LastSuccess => "last_success",
            PackageSection::Tools => "tools",
            PackageSection::RecommendedNextStep => "recommended_next_step",
            PackageSection::PendingDecisions => "pending_decisions",
            PackageSection::WhyWoken => "why_woken",
        }
    }
}

// ---------------------------------------------------------------------------
// Section types
// ---------------------------------------------------------------------------

/// What is on the screen right now.
#[derive(Debug, Clone, Default, PartialEq, Eq)]
pub struct CurrentMoment {
    pub caption: String,
    pub window_title: Option<String>,
    pub app: Option<String>,
    pub world_compact: Option<String>,
    pub audio: Option<String>,
    pub local_only: bool,
}

/// The text of a `CurrentMoment`.
#[verifier::ext_equal]
pub struct MomentView {
    pub caption: Seq<char>,
    pub window_title: Option<Seq<char>>,
    pub app: Option<Seq<char>>,
    pub world_compact: Option<Seq<char>>,
    pub audio: Option<Seq<char>>,
    pub local_only: bool,
}

impl View for CurrentMoment {
    type V = MomentView;

    open spec fn view(&self) -> MomentView {
        MomentView {
            caption: self.caption@,
            window_title: opt_view(self.window_title),
            app: opt_view(self.app),
            world_compact: opt_view(self.world_compact),
            audio: opt_view(self.audio),
            local_only: self.local_only,
        }
    }
}

/// What the session is about.
#[derive(Debug, Clone, Default, PartialEq, Eq)]
pub struct SessionSection {
    pub project: Option<String>,
    pub goal: Option<String>,
    pub task: Option<String>,
    /// How sure the task is, in millionths.
    pub confidence: u32,
    pub open_files: Vec<String>,
    pub local_only: bool,
}

/// The text of a `SessionSection`.
#[verifier::ext_equal]
pub struct SessionView {
    pub project: Option<Seq<char>>,
    pub goal: Option<Seq<char>>,
    pub task: Option<Seq<char>>,
    pub confidence: int,
    pub open_files: Seq<Seq<char>>,
    pub local_only: bool,
}

impl View for SessionSection {
    type V = SessionView;

    open spec fn view(&self) -> SessionView {
        SessionView {
            project: opt_view(self.project),
            goal: opt_view(self.goal),
            task: opt_view(self.task),
            confidence: self.confidence as int,
            open_files: views(self.open_files@),
            local_only: self.local_only,
        }
    }
}

impl SessionView {
    /// Whether there is nothing to say of the session.
    pub open spec fn is_blank(self) -> bool {
        self.project is None && self.goal is None && self.task is None && self.open_files.len() == 0
    }
}

impl SessionSection {
    /// Whether there is nothing to say of the session.
    pub fn is_empty(&self) -> (r: bool)
        ensures
            r == self@.is_blank(),
    {
        self.project.is_none() && self.goal.is_none() && self.task.is_none()
            && self.open_files.len() == 0
    }
}

/// One event, possibly repeated.
#[derive(Debug, Clone, Default, PartialEq, Eq)]
pub struct EventLine {
    pub age: String,
    pub text: String,
    /// How often it occurred.
    pub count: i64,
    pub local_only: bool,
}

/// One episodic memory.
#[derive(Debug, Clone, Default, PartialEq, Eq)]
pub struct MemoryLine {
    pub age: String,
    pub text: String,
    pub local_only: bool,
}

/// One fact about the user.
#[derive(Debug, Clone, Default, PartialEq, Eq)]
pub struct FactLine {
    pub label: String,
    pub value: String,
    pub local_only: bool,
}

/// One note of the memory vault.
#[derive(Debug, Clone, Default, PartialEq, Eq)]
pub struct VaultNoteLine {
    pub node_type: String,
    pub title: String,
    pub snippet: Option<String>,
    /// In millionths.
    pub importance: u32,
    pub local_only: bool,
}

/// One memory that waits for a decision.
#[derive(Debug, Clone, Default, PartialEq, Eq)]
pub struct PendingDecisionLine {
    pub id: String,
    pub node_type: String,
    pub title: String,
    /// In millionths.
    pub confidence: u32,
    pub source: String,
    pub local_only: bool,
}

/// The tools that the reader may use.
#[derive(Debug, Clone, Default, PartialEq, Eq)]
pub struct ToolsSection {
    pub names: Vec<String>,
    pub permission_mode: String,
}

/// The text of a `ToolsSection`.
#[verifier::ext_equal]
pub struct ToolsView {
    pub names: Seq<Seq<char>>,
    pub permission_mode: Seq<char>,
}

impl View for ToolsSection {
    type V = ToolsView;

    open spec fn view(&self) -> ToolsView {
        ToolsView { names: views(self.names@), permission_mode: self.permission_mode@ }
    }
}

/// What to continue with.
#[derive(Debug, Clone, Default, PartialEq, Eq)]
pub struct NextStep {
    pub text: String,
    /// In millionths.
    pub confidence: u32,
    pub local_only: bool,
}

// ---------------------------------------------------------------------------
// The package
// ---------------------------------------------------------------------------

/// Everything that a wake-up prompt may show.
#[derive(Debug, Clone, Default, PartialEq, Eq)]
pub struct ContextPackage {
    pub current_moment: Option<CurrentMoment>,
    pub session: Option<SessionSection>,
    pub just_before: Vec<EventLine>,
    pub memories: Vec<MemoryLine>,
    pub facts: Vec<FactLine>,
    pub vault_notes: Vec<VaultNoteLine>,
    pub recent_changes: Vec<EventLine>,
    pub failed_attempts: Vec<EventLine>,
    pub last_success: Option<EventLine>,
    pub tools: Option<ToolsSection>,
    pub recommended_next_step: Option<NextStep>,
    pub pending_decisions: Vec<PendingDecisionLine>,
    pub why_woken: Option<String>,
    pub why_woken_local_only: bool,
}

/// What a `ContextPackage` holds.
#[verifier::ext_equal]
pub struct PackageView {
    pub current_moment: Option<MomentView>,
    pub session: Option<SessionView>,
    pub just_before: Seq<EventLine>,
    pub memories: Seq<MemoryLine>,
    pub facts: Seq<FactLine>,
    pub vault_notes: Seq<VaultNoteLine>,
    pub recent_changes: Seq<EventLine>,
    pub failed_attempts: Seq<EventLine>,
    pub last_success: Option<EventLine>,
    pub tools: Option<ToolsView>,
    pub recommended_next_step: Option<NextStep>,
    pub pending_decisions: Seq<PendingDecisionLine>,
    pub why_woken: Option<Seq<char>>,
    pub why_woken_local_only: bool,
}

impl View for ContextPackage {
    type V = PackageView;

    open spec fn view(&self) -> PackageView {
        PackageView {
            current_moment: match self.current_moment {
                Some(m) => Some(m@),
                None => None,
            },
            session: match self.session {
                Some(s) => Some(s@),
                None => None,
            },
            just_before: self.just_before@,
            memories: self.memories@,
            facts: self.facts@,
            vault_notes: self.vault_notes@,
            recent_changes: self.recent_changes@,
            failed_attempts: self.failed_attempts@,
            last_success: self.last_success,
            tools: match self.tools {
                Some(t) => Some(t@),
                None => None,
            },
            recommended_next_step: self.recommended_next_step,
            pending_decisions: self.pending_decisions@,
            why_woken: opt_view(self.why_woken),
            why_woken_local_only: self.why_woken_local_only,
        }
    }
}

/// A rendering and how it came about.
#[derive(Debug, Clone, PartialEq, Eq)]
pub struct RenderOutcome {
    pub text: String,
    pub tokens: usize,
    /// The steps that were taken to meet the budget.
    pub dropped: Vec<DropStep>,
    /// Whether the budget could not be met.
    pub over_budget: bool,
    /// The sections that the text shows.
    pub sections: Vec<PackageSection>,
}

// ---------------------------------------------------------------------------
// What a package says
// ---------------------------------------------------------------------------

/// A text that is given and not empty.
pub open spec fn shown(o: Option<Seq<char>>) -> bool {
    o matches Some(s) && s.len() > 0
}

/// One line `label` + value + `tail`, where the value is given and not empty.
pub open spec fn labelled(label: Seq<char>, value: Option<Seq<char>>, tail: Seq<char>) -> Seq<char> {
    if shown(value) {
        label + value->0 + tail
    } else {
        Seq::empty()
    }
}

/// The section on the current moment.
pub open spec fn moment_text(m: MomentView, cloud: bool) -> Seq<char> {
    "## Current moment\n"@ + (if cloud && m.local_only {
        "Screen: "@ + PRIVATE_PLACEHOLDER@ + "\n"@
    } else {
        "Screen: "@ + m.caption + "\n"@ + labelled("Window: "@, m.window_title, "\n"@) + labelled(
            "App: "@,
            m.app,
            "\n"@,
        ) + labelled("Audio: \""@, m.audio, "\"\n"@) + (if shown(m.world_compact) {
            "World state:\n"@ + m.world_compact->0 + (if ends_with(m.world_compact->0, "\n"@) {
                Seq::empty()
            } else {
                "\n"@
            })
        } else {
            Seq::empty()
        })
    })
}

/// What a reader sees of a goal or a task: the phrase for private contexts in place of the text
/// where it must not be shown.
pub open spec fn guarded(value: Option<Seq<char>>, hide: bool) -> Option<Seq<char>> {
    if hide && value is Some {
        Some(PRIVATE_CONTEXT_PHRASE@)
    } else {
        value
    }
}

/// The lines under the heading of the session section.
pub open spec fn session_body(s: SessionView, cloud: bool) -> Seq<char> {
    let hide = cloud && s.local_only;
    labelled(
        "Project: "@,
        if hide {
            None
        } else {
            s.project
        },
        "\n"@,
    ) + labelled("Goal: "@, guarded(s.goal, hide), "\n"@) + labelled(
        "Task: "@,
        guarded(s.task, hide),
        " (confidence "@ + ratio_text(s.confidence) + ")\n"@,
    ) + (if !hide && s.open_files.len() > 0 {
        "Open files: "@ + joined(s.open_files, ", "@) + "\n"@
    } else {
        Seq::empty()
    })
}

/// Whether the session section is rendered.
pub open spec fn session_shown(s: Option<SessionView>, cloud: bool) -> bool {
    s matches Some(v) && !v.is_blank() && session_body(v, cloud).len() > 0
}

/// One event, with how often it occurred where that was more than once.
pub open spec fn event_text(l: EventLine) -> Seq<char> {
    "["@ + l.age@ + "] "@ + l.text@ + (if l.count > 1 {
        " (×"@ + signed_decimal(l.count as int) + ")"@
    } else {
        Seq::empty()
    })
}

/// Whether some event may be shown.
pub open spec fn any_event(lines: Seq<EventLine>, cloud: bool) -> bool {
    exists|i: int| 0 <= i < lines.len() && !(cloud && (#[trigger] lines[i]).local_only)
}

/// The list of the events that may be shown.
pub open spec fn event_items(lines: Seq<EventLine>, cloud: bool) -> Seq<char>
    decreases lines.len(),
{
    if lines.len() == 0 {
        Seq::empty()
    } else if cloud && lines.last().local_only {
        event_items(lines.drop_last(), cloud)
    } else {
        event_items(lines.drop_last(), cloud) + "- "@ + event_text(lines.last()) + "\n"@
    }
}

/// A section made of events.
pub open spec fn event_section(heading: Seq<char>, lines: Seq<EventLine>, cloud: bool) -> Seq<char> {
    if any_event(lines, cloud) {
        heading + "\n"@ + event_items(lines, cloud)
    } else {
        Seq::empty()
    }
}

/// Whether some memory may be shown.
pub open spec fn any_memory(lines: Seq<MemoryLine>, cloud: bool) -> bool {
    exists|i: int| 0 <= i < lines.len() && !(cloud && (#[trigger] lines[i]).local_only)
}

/// The list of the memories that may be shown.
pub open spec fn memory_items(lines: Seq<MemoryLine>, cloud: bool) -> Seq<char>
    decreases lines.len(),
{
    if lines.len() == 0 {
        Seq::empty()
    } else if cloud && lines.last().local_only {
        memory_items(lines.drop_last(), cloud)
    } else {
        memory_items(lines.drop_last(), cloud) + "- ["@ + lines.last().age@ + "] "@
            + lines.last().text@ + "\n"@
    }
}

/// Whether some fact may be shown.
pub open spec fn any_fact(lines: Seq<FactLine>, cloud: bool) -> bool {
    exists|i: int| 0 <= i < lines.len() && !(cloud && (#[trigger] lines[i]).local_only)
}

/// The list of the facts that may be shown.
pub open spec fn fact_items(lines: Seq<FactLine>, cloud: bool) -> Seq<char>
    decreases lines.len(),
{
    if lines.len() == 0 {
        Seq::empty()
    } else if cloud && lines.last().local_only {
        fact_items(lines.drop_last(), cloud)
    } else {
        fact_items(lines.drop_last(), cloud) + "- "@ + lines.last().label@ + ": "@
            + lines.last().value@ + "\n"@
    }
}

/// Whether some note may be shown.
pub open spec fn any_note(lines: Seq<VaultNoteLine>, cloud: bool) -> bool {
    exists|i: int| 0 <= i < lines.len() && !(cloud && (#[trigger] lines[i]).local_only)
}

/// The list of the notes that may be shown.
pub open spec fn note_items(lines: Seq<VaultNoteLine>, cloud: bool) -> Seq<char>
    decreases lines.len(),
{
    if lines.len() == 0 {
        Seq::empty()
    } else if cloud && lines.last().local_only {
        note_items(lines.drop_last(), cloud)
    } else {
        note_items(lines.drop_last(), cloud) + "- ["@ + lines.last().node_type@ + "] "@
            + lines.last().title@ + labelled(" — "@, opt_view(lines.last().snippet), Seq::empty())
            + " (importance "@ + ratio_text(lines.last().importance as int) + ")\n"@
    }
}

/// Whether some pending decision may be shown.
pub open spec fn any_pending(lines: Seq<PendingDecisionLine>, cloud: bool) -> bool {
    exists|i: int| 0 <= i < lines.len() && !(cloud && (#[trigger] lines[i]).local_only)
}

/// The list of the pending decisions that may be shown.
pub open spec fn pending_items(lines: Seq<PendingDecisionLine>, cloud: bool) -> Seq<char>
    decreases lines.len(),
{
    if lines.len() == 0 {
        Seq::empty()
    } else if cloud && lines.last().local_only {
        pending_items(lines.drop_last(), cloud)
    } else {
        pending_items(lines.drop_last(), cloud) + "- id: "@ + lines.last().id@ + " — ["@
            + lines.last().node_type@ + "] \""@ + lines.last().title@ + "\" (confidence "@
            + ratio_text(lines.last().confidence as int) + ", source "@ + lines.last().source@
            + ")\n"@
    }
}

/// What the reader is to do with pending decisions.
pub const PENDING_HINT: &'static str =
    "Resolve these with the memory_vault_resolve tool (confirm/reject/supersede) or improve them with memory_vault_save. Skip any you are unsure about.\n";

/// The section on the tools, at most `cap` of them by name.
pub open spec fn tools_text(tools: Option<ToolsView>, cap: int) -> Seq<char> {
    match tools {
        Some(t) if t.names.len() > 0 => {
            let cap = if cap < 1 { 1 } else { cap };
            "\n## Available tools\n"@ + (if t.names.len() > cap {
                joined(t.names.take(cap), ", "@) + ", +"@ + decimal(t.names.len() - cap) + " more"@
            } else {
                joined(t.names, ", "@)
            }) + "\n"@ + labelled("Permission mode: "@, Some(t.permission_mode), "\n"@)
        },
        _ => Seq::empty(),
    }
}

/// Whether the recommended next step may be shown.
pub open spec fn next_shown(next: Option<NextStep>, cloud: bool) -> bool {
    next matches Some(n) && n.text@.len() > 0 && !(cloud && n.local_only)
}

/// Whether the last success may be shown.
pub open spec fn success_shown(success: Option<EventLine>, cloud: bool) -> bool {
    success matches Some(l) && !(cloud && l.local_only)
}

/// The text of one section of a package, empty where the section is not shown.
pub open spec fn section_text(p: PackageView, section: PackageSection, cloud: bool, tools_cap: int) -> Seq<
    char,
> {
    match section {
        PackageSection::CurrentMoment => match p.current_moment {
            Some(m) => moment_text(m, cloud),
            None => Seq::empty(),
        },
        PackageSection::Session => if session_shown(p.session, cloud) {
            "\n## Session state\n"@ + session_body(p.session->0, cloud)
        } else {
            Seq::empty()
        },
        PackageSection::JustBefore => event_section("## Just before"@, p.just_before, cloud),
        PackageSection::Memories => if any_memory(p.memories, cloud) {
            "\n## Relevant memories\n"@ + memory_items(p.memories, cloud)
        } else {
            Seq::empty()
        },
        PackageSection::Facts => if any_fact(p.facts, cloud) {
            "\n## What you know about the user\n"@ + fact_items(p.facts, cloud)
        } else {
            Seq::empty()
        },
        PackageSection::VaultNotes => if any_note(p.vault_notes, cloud) {
            "\n## Long-term memory (vault)\n"@ + note_items(p.vault_notes, cloud)
        } else {
            Seq::empty()
        },
        PackageSection::RecentChanges => event_section(
            "\n## Recent changes"@,
            p.recent_changes,
            cloud,
        ),
        PackageSection::FailedAttempts => event_section(
            "\n## Failed attempts"@,
            p.failed_attempts,
            cloud,
        ),
        PackageSection::LastSuccess => if success_shown(p.last_success, cloud) {
            "\n## Last success\n"@ + "- "@ + event_text(p.last_success->0) + "\n"@
        } else {
            Seq::empty()
        },
        PackageSection::Tools => tools_text(p.tools, tools_cap),
        PackageSection::RecommendedNextStep => if next_shown(p.recommended_next_step, cloud) {
            "\n## Recommended next step\n"@ + p.recommended_next_step->0.text@ + " (confidence "@
                + ratio_text(p.recommended_next_step->0.confidence as int) + ")\n"@
        } else {
            Seq::empty()
        },
        PackageSection::PendingDecisions => if any_pending(p.pending_decisions, cloud) {
            "\n## Pending memory decisions\n"@ + pending_items(p.pending_decisions, cloud)
                + PENDING_HINT@
        } else {
            Seq::empty()
        },
        PackageSection::WhyWoken => if shown(p.why_woken) {
            "\n## Why you were woken\n"@ + (if cloud && p.why_woken_local_only {
                PRIVATE_WAKE_REASON@
            } else {
                p.why_woken->0
            }) + "\n"@
        } else {
            Seq::empty()
        },
    }
}

/// Whether a section of a package is shown.
pub open spec fn section_shown(p: PackageView, section: PackageSection, cloud: bool) -> bool {
    match section {
        PackageSection::CurrentMoment => p.current_moment is Some,
        PackageSection::Session => session_shown(p.session, cloud),
        PackageSection::JustBefore => any_event(p.just_before, cloud),
        PackageSection::Memories => any_memory(p.memories, cloud),
        PackageSection::Facts => any_fact(p.facts, cloud),
        PackageSection::VaultNotes => any_note(p.vault_notes, cloud),
        PackageSection::RecentChanges => any_event(p.recent_changes, cloud),
        PackageSection::FailedAttempts => any_event(p.failed_attempts, cloud),
        PackageSection::LastSuccess => success_shown(p.last_success, cloud),
        PackageSection::Tools => p.tools matches Some(t) && t.names.len() > 0,
        PackageSection::RecommendedNextStep => next_shown(p.recommended_next_step, cloud),
        PackageSection::PendingDecisions => any_pending(p.pending_decisions, cloud),
        PackageSection::WhyWoken => shown(p.why_woken),
    }
}

/// The section at place `rank`.
pub open spec fn section_at(rank: int) -> PackageSection {
    if rank == 0 {
        PackageSection::CurrentMoment
    } else if rank == 1 {
        PackageSection::Session
    } else if rank == 2 {
        PackageSection::JustBefore
    } else if rank == 3 {
        PackageSection::Memories
    } else if rank == 4 {
        PackageSection::Facts
    } else if rank == 5 {
        PackageSection::VaultNotes
    } else if rank == 6 {
        PackageSection::RecentChanges
    } else if rank == 7 {
        PackageSection::FailedAttempts
    } else if rank == 8 {
        PackageSection::LastSuccess
    } else if rank == 9 {
        PackageSection::Tools
    } else if rank == 10 {
        PackageSection::RecommendedNextStep
    } else if rank == 11 {
        PackageSection::PendingDecisions
    } else {
        PackageSection::WhyWoken
    }
}

/// The first `n` sections of a package, one after the other.
pub open spec fn text_upto(p: PackageView, n: int, cloud: bool, tools_cap: int) -> Seq<char>
    decreases n,
{
    if n <= 0 {
        Seq::empty()
    } else {
        text_upto(p, n - 1, cloud, tools_cap) + section_text(p, section_at(n - 1), cloud, tools_cap)
    }
}

/// Those of the first `n` sections that are shown.
pub open spec fn sections_upto(p: PackageView, n: int, cloud: bool) -> Seq<PackageSection>
    decreases n,
{
    if n <= 0 {
        Seq::empty()
    } else if section_shown(p, section_at(n - 1), cloud) {
        sections_upto(p, n - 1, cloud).push(section_at(n - 1))
    } else {
        sections_upto(p, n - 1, cloud)
    }
}

/// The text of a package.
pub open spec fn package_text(p: PackageView, cloud: bool, tools_cap: int) -> Seq<char> {
    text_upto(p, 13, cloud, tools_cap)
}

/// The sections that the text of a package shows.
pub open spec fn package_sections(p: PackageView, cloud: bool) -> Seq<PackageSection> {
    sections_upto(p, 13, cloud)
}

/// A list shortened to at most `n` items.
pub open spec fn capped<A>(s: Seq<A>, n: int) -> Seq<A> {
    if s.len() <= n {
        s
    } else {
        s.take(n)
    }
}

/// A package with its lists shortened to the caps.
pub open spec fn with_caps_applied(p: PackageView, caps: SectionCaps) -> PackageView {
    PackageView {
        current_moment: match p.current_moment {
            Some(m) => Some(
                MomentView {
                    world_compact: match m.world_compact {
                        Some(w) => Some(shortened_bytes(w, caps.world_compact_chars as int)),
                        None => None,
                    },
                    ..m
                },
            ),
            None => None,
        },
        session: match p.session {
            Some(s) => Some(
                SessionView { open_files: capped(s.open_files, caps.open_files as int), ..s },
            ),
            None => None,
        },
        just_before: capped(p.just_before, caps.just_before as int),
        memories: capped(p.memories, caps.memories as int),
        facts: capped(p.facts, caps.facts as int),
        vault_notes: capped(p.vault_notes, caps.vault_notes as int),
        recent_changes: capped(p.recent_changes, caps.recent_changes as int),
        failed_attempts: capped(p.failed_attempts, caps.failed_attempts as int),
        pending_decisions: capped(p.pending_decisions, caps.pending_decisions as int),
        ..p
    }
}

/// The next step by which a package is made smaller: the open files, then the recent changes,
/// then the events just before from the last one, then the memories from the last one.
pub open spec fn next_drop(p: PackageView) -> Option<DropStep> {
    if p.session matches Some(s) && s.open_files.len() > 0 {
        Some(DropStep::OpenFiles)
    } else if p.recent_changes.len() > 0 {
        Some(DropStep::RecentChanges)
    } else if p.just_before.len() > 0 {
        Some(DropStep::JustBeforeTail)
    } else if p.memories.len() > 0 {
        Some(DropStep::MemoriesTail)
    } else {
        None
    }
}

/// A package after one step of dropping.
pub open spec fn after_drop(p: PackageView) -> PackageView {
    match next_drop(p) {
        Some(DropStep::OpenFiles) => PackageView {
            session: Some(SessionView { open_files: Seq::empty(), ..p.session->0 }),
            ..p
        },
        Some(DropStep::RecentChanges) => PackageView { recent_changes: Seq::empty(), ..p },
        Some(DropStep::JustBeforeTail) => PackageView {
            just_before: p.just_before.drop_last(),
            ..p
        },
        Some(DropStep::MemoriesTail) => PackageView { memories: p.memories.drop_last(), ..p },
        None => p,
    }
}

/// A package after `n` steps of dropping.
pub open spec fn after_drops(p: PackageView, n: int) -> PackageView
    decreases n,
{
    if n <= 0 {
        p
    } else {
        after_drop(after_drops(p, n - 1))
    }
}

/// How many items dropping can still take away.
pub open spec fn droppable(p: PackageView) -> int {
    (match p.session {
        Some(s) => s.open_files.len() as int,
        None => 0,
    }) + p.recent_changes.len() + p.just_before.len() + p.memories.len()
}

/// The tokens of a package after `n` steps of dropping.
pub open spec fn tokens_after(p: PackageView, n: int, budget: PackageBudget) -> int {
    tokens_of(
        byte_len(package_text(after_drops(p, n), budget.cloud_bound, budget.caps.tools as int)),
    )
}

} // verus!
