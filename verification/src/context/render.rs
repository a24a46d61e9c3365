//! Rendering a context package, and what holds of every rendering.
use vstd::prelude::*;
use crate::context::package::{
    estimate_tokens, ContextPackage, CurrentMoment, DropStep, EventLine, FactLine, MemoryLine,
    NextStep, PackageBudget, PackageSection, PendingDecisionLine, RenderOutcome, SectionCaps,
    SessionSection, ToolsSection, VaultNoteLine, PENDING_HINT, PRIVATE_CONTEXT_PHRASE,
    PRIVATE_PLACEHOLDER, PRIVATE_WAKE_REASON,
};
#[allow(unused_imports)]
use crate::context::package::{
    after_drop, after_drops, any_event, any_fact, any_memory, any_note, any_pending, capped,
    droppable, event_items, event_section, event_text, fact_items, labelled, memory_items,
    moment_text, next_drop, note_items, package_sections, package_text, pending_items, section_at,
    section_shown, section_text, sections_upto, session_body, session_shown, shown, text_upto,
    tokens_after, tokens_of, tools_text, with_caps_applied, PackageView,
};
use crate::duplicate::{duplicate_all, Duplicate};
use crate::ratio::ratio_string;
use crate::text::{
    byte_length, decimal_string, ends, join, truncate_on_char_boundary, signed_decimal_string,
};
#[allow(unused_imports)]
use crate::text::{byte_len, opt_str_view, opt_view, views};

verus! {

impl Duplicate for CurrentMoment {
    fn duplicate(&self) -> (r: Self) {
        CurrentMoment {
            caption: self.caption.clone(),
            window_title: self.window_title.duplicate(),
            app: self.app.duplicate(),
            world_compact: self.world_compact.duplicate(),
            audio: self.audio.duplicate(),
            local_only: self.local_only,
        }
    }
}

impl Duplicate for EventLine {
    fn duplicate(&self) -> (r: Self) {
        EventLine {
            age: self.age.clone(),
            text: self.text.clone(),
            count: self.count,
            local_only: self.local_only,
        }
    }
}

impl Duplicate for MemoryLine {
    fn duplicate(&self) -> (r: Self) {
        MemoryLine {
            age: self.age.clone(),
            text: self.text.clone(),
            local_only: self.local_only,
        }
    }
}

impl Duplicate for FactLine {
    fn duplicate(&self) -> (r: Self) {
        FactLine {
            label: self.label.clone(),
            value: self.value.clone(),
            local_only: self.local_only,
        }
    }
}

impl Duplicate for VaultNoteLine {
    fn duplicate(&self) -> (r: Self) {
        VaultNoteLine {
            node_type: self.node_type.clone(),
            title: self.title.clone(),
            snippet: self.snippet.duplicate(),
            importance: self.importance,
            local_only: self.local_only,
        }
    }
}

impl Duplicate for PendingDecisionLine {
    fn duplicate(&self) -> (r: Self) {
        PendingDecisionLine {
            id: self.id.clone(),
            node_type: self.node_type.clone(),
            title: self.title.clone(),
            confidence: self.confidence,
            source: self.source.clone(),
            local_only: self.local_only,
        }
    }
}

impl Duplicate for NextStep {
    fn duplicate(&self) -> (r: Self) {
        NextStep {
            text: self.text.clone(),
            confidence: self.confidence,
            local_only: self.local_only,
        }
    }
}

/// The value where it is given and not empty.
pub fn non_empty<'a>(value: &'a Option<String>) -> (r: Option<&'a str>)
    ensures
        opt_str_view(r) == (if shown(opt_view(*value)) {
            opt_view(*value)
        } else {
            None
        }),
{
    match value {
        Some(s) => {
            if s.as_str().is_empty() {
                None
            } else {
                Some(s.as_str())
            }
        },
        None => None,
    }
}

/// Appends `label`, the value and `tail` where the value is not empty.
fn push_labelled(out: &mut String, label: &str, value: Option<&str>, tail: &str)
    ensures
        final(out)@ == old(out)@ + labelled(label@, opt_str_view(value), tail@),
{
    match value {
        Some(s) => {
            if !s.is_empty() {
                out.append(label);
                out.append(s);
                out.append(tail);
            }
        },
        None => {},
    }
    proof {
        assert(out@ =~= old(out)@ + labelled(label@, opt_str_view(value), tail@));
    }
}

/// One event, with how often it occurred where that was more than once.
pub fn render_event_line(line: &EventLine) -> (r: String)
    ensures
        r@ == event_text(*line),
{
    let mut out: String = "[".to_owned();
    out.append(line.age.as_str());
    out.append("] ");
    out.append(line.text.as_str());
    if line.count > 1 {
        out.append(" (×");
        out.append(signed_decimal_string(line.count).as_str());
        out.append(")");
    }
    proof {
        assert(out@ =~= event_text(*line));
    }
    out
}

/// Appends a section made of events. Returns whether there was one to show.
pub fn push_event_section(out: &mut String, heading: &str, lines: &Vec<EventLine>, cloud: bool) -> (r:
    bool)
    ensures
        r == any_event(lines@, cloud),
        final(out)@ == old(out)@ + event_section(heading@, lines@, cloud),
{
    let mut body: String = String::new();
    let mut found: bool = false;
    let mut i: usize = 0;
    proof {
        assert(lines@.take(0) == Seq::<EventLine>::empty());
    }
    while i < lines.len()
        invariant
            i <= lines.len(),
            found == any_event(lines@.take(i as int), cloud),
            body@ == event_items(lines@.take(i as int), cloud),
        decreases lines.len() - i,
    {
        let ghost before = lines@.take(i as int);
        let ghost now = lines@.take(i + 1);
        proof {
            assert(now.drop_last() == before);
            assert(now.last() == lines@[i as int]);
            if any_event(before, cloud) {
                let k = choose|k: int| 0 <= k < before.len() && !(cloud && (#[trigger] before[k]).local_only);
                assert(now[k] == before[k]);
            }
            if any_event(now, cloud) {
                let k = choose|k: int| 0 <= k < now.len() && !(cloud && (#[trigger] now[k]).local_only);
                assert(k < i ==> before[k] == now[k]);
            }
        }
        if !(cloud && lines[i].local_only) {
            proof {
                assert(now[i as int] == lines@[i as int]);
            }
            found = true;
            body.append("- ");
            body.append(render_event_line(&lines[i]).as_str());
            body.append("\n");
        }
        i = i + 1;
    }
    proof {
        assert(lines@.take(lines@.len() as int) == lines@);
    }
    if found {
        out.append(heading);
        out.append("\n");
        out.append(body.as_str());
    }
    proof {
        assert(out@ =~= old(out)@ + event_section(heading@, lines@, cloud));
    }
    found
}

/// The lines of the section on the current moment, for a reader who may see it.
fn moment_lines(m: &CurrentMoment) -> (r: String)
    ensures
        "## Current moment\n"@ + r@ == moment_text(m@, false),
{
    let mut body: String = "Screen: ".to_owned();
    body.append(m.caption.as_str());
    body.append("\n");
    push_labelled(&mut body, "Window: ", non_empty(&m.window_title), "\n");
    push_labelled(&mut body, "App: ", non_empty(&m.app), "\n");
    push_labelled(&mut body, "Audio: \"", non_empty(&m.audio), "\"\n");
    match non_empty(&m.world_compact) {
        Some(compact) => {
            let mut world: String = "World state:\n".to_owned();
            world.append(compact);
            if !ends(compact, "\n") {
                world.append("\n");
            } else {
                proof {
                    assert(world@ + Seq::<char>::empty() =~= world@);
                }
            }
            body.append(world.as_str());
        },
        None => {
            proof {
                assert(body@ + Seq::<char>::empty() =~= body@);
            }
        },
    }
    body
}

/// The section on the current moment.
fn push_moment(out: &mut String, m: &CurrentMoment, cloud: bool)
    ensures
        final(out)@ == old(out)@ + moment_text(m@, cloud),
{
    let mut section: String = "## Current moment\n".to_owned();
    if cloud && m.local_only {
        let mut body: String = "Screen: ".to_owned();
        body.append(PRIVATE_PLACEHOLDER);
        body.append("\n");
        section.append(body.as_str());
    } else {
        section.append(moment_lines(m).as_str());
    }
    out.append(section.as_str());
}

/// The lines under the heading of the session section.
fn session_lines(s: &SessionSection, cloud: bool) -> (r: String)
    ensures
        r@ == session_body(s@, cloud),
{
    let hide: bool = cloud && s.local_only;
    let mut body: String = String::new();
    if !hide {
        push_labelled(&mut body, "Project: ", non_empty(&s.project), "\n");
    }
    let goal: Option<&str> = match &s.goal {
        Some(g) => Some(
            if hide {
                PRIVATE_CONTEXT_PHRASE
            } else {
                g.as_str()
            },
        ),
        None => None,
    };
    push_labelled(&mut body, "Goal: ", goal, "\n");
    let task: Option<&str> = match &s.task {
        Some(t) => Some(
            if hide {
                PRIVATE_CONTEXT_PHRASE
            } else {
                t.as_str()
            },
        ),
        None => None,
    };
    let mut tail: String = " (confidence ".to_owned();
    tail.append(ratio_string(s.confidence).as_str());
    tail.append(")\n");
    push_labelled(&mut body, "Task: ", task, tail.as_str());
    let ghost front = body@;
    if !hide && s.open_files.len() > 0 {
        body.append("Open files: ");
        let n: usize = s.open_files.len();
        body.append(join(&s.open_files, n, ", ").as_str());
        body.append("\n");
        proof {
            assert(views(s.open_files@).take(s.open_files@.len() as int) == views(s.open_files@));
        }
    }
    proof {
        assert(body@ =~= session_body(s@, cloud));
    }
    body
}

/// The memories that may be shown.
fn push_memories(out: &mut String, lines: &Vec<MemoryLine>, cloud: bool) -> (r: bool)
    ensures
        r == any_memory(lines@, cloud),
        final(out)@ == old(out)@ + (if any_memory(lines@, cloud) {
            "\n## Relevant memories\n"@ + memory_items(lines@, cloud)
        } else {
            Seq::empty()
        }),
{
    let mut body: String = String::new();
    let mut found: bool = false;
    let mut i: usize = 0;
    proof {
        assert(lines@.take(0) == Seq::<MemoryLine>::empty());
    }
    while i < lines.len()
        invariant
            i <= lines.len(),
            found == any_memory(lines@.take(i as int), cloud),
            body@ == memory_items(lines@.take(i as int), cloud),
        decreases lines.len() - i,
    {
        let ghost before = lines@.take(i as int);
        let ghost now = lines@.take(i + 1);
        proof {
            assert(now.drop_last() == before);
            assert(now.last() == lines@[i as int]);
            if any_memory(before, cloud) {
                let k = choose|k: int| 0 <= k < before.len() && !(cloud && (#[trigger] before[k]).local_only);
                assert(now[k] == before[k]);
            }
            if any_memory(now, cloud) {
                let k = choose|k: int| 0 <= k < now.len() && !(cloud && (#[trigger] now[k]).local_only);
                assert(k < i ==> before[k] == now[k]);
            }
        }
        if !(cloud && lines[i].local_only) {
            proof {
                assert(now[i as int] == lines@[i as int]);
            }
            found = true;
            body.append("- [");
            body.append(lines[i].age.as_str());
            body.append("] ");
            body.append(lines[i].text.as_str());
            body.append("\n");
        }
        i = i + 1;
    }
    proof {
        assert(lines@.take(lines@.len() as int) == lines@);
    }
    if found {
        out.append("\n## Relevant memories\n");
        out.append(body.as_str());
    }
    proof {
        assert(out@ =~= old(out)@ + (if any_memory(lines@, cloud) {
            "\n## Relevant memories\n"@ + memory_items(lines@, cloud)
        } else {
            Seq::empty()
        }));
    }
    found
}

/// The facts that may be shown.
fn push_facts(out: &mut String, lines: &Vec<FactLine>, cloud: bool) -> (r: bool)
    ensures
        r == any_fact(lines@, cloud),
        final(out)@ == old(out)@ + (if any_fact(lines@, cloud) {
            "\n## What you know about the user\n"@ + fact_items(lines@, cloud)
        } else {
            Seq::empty()
        }),
{
    let mut body: String = String::new();
    let mut found: bool = false;
    let mut i: usize = 0;
    proof {
        assert(lines@.take(0) == Seq::<FactLine>::empty());
    }
    while i < lines.len()
        invariant
            i <= lines.len(),
            found == any_fact(lines@.take(i as int), cloud),
            body@ == fact_items(lines@.take(i as int), cloud),
        decreases lines.len() - i,
    {
        let ghost before = lines@.take(i as int);
        let ghost now = lines@.take(i + 1);
        proof {
            assert(now.drop_last() == before);
            assert(now.last() == lines@[i as int]);
            if any_fact(before, cloud) {
                let k = choose|k: int| 0 <= k < before.len() && !(cloud && (#[trigger] before[k]).local_only);
                assert(now[k] == before[k]);
            }
            if any_fact(now, cloud) {
                let k = choose|k: int| 0 <= k < now.len() && !(cloud && (#[trigger] now[k]).local_only);
                assert(k < i ==> before[k] == now[k]);
            }
        }
        if !(cloud && lines[i].local_only) {
            proof {
                assert(now[i as int] == lines@[i as int]);
            }
            found = true;
            body.append("- ");
            body.append(lines[i].label.as_str());
            body.append(": ");
            body.append(lines[i].value.as_str());
            body.append("\n");
        }
        i = i + 1;
    }
    proof {
        assert(lines@.take(lines@.len() as int) == lines@);
    }
    if found {
        out.append("\n## What you know about the user\n");
        out.append(body.as_str());
    }
    proof {
        assert(out@ =~= old(out)@ + (if any_fact(lines@, cloud) {
            "\n## What you know about the user\n"@ + fact_items(lines@, cloud)
        } else {
            Seq::empty()
        }));
    }
    found
}

/// The notes that may be shown.
fn push_notes(out: &mut String, lines: &Vec<VaultNoteLine>, cloud: bool) -> (r: bool)
    ensures
        r == any_note(lines@, cloud),
        final(out)@ == old(out)@ + (if any_note(lines@, cloud) {
            "\n## Long-term memory (vault)\n"@ + note_items(lines@, cloud)
        } else {
            Seq::empty()
        }),
{
    let mut body: String = String::new();
    let mut found: bool = false;
    let mut i: usize = 0;
    proof {
        assert(lines@.take(0) == Seq::<VaultNoteLine>::empty());
    }
    while i < lines.len()
        invariant
            i <= lines.len(),
            found == any_note(lines@.take(i as int), cloud),
            body@ == note_items(lines@.take(i as int), cloud),
        decreases lines.len() - i,
    {
        let ghost before = lines@.take(i as int);
        let ghost now = lines@.take(i + 1);
        proof {
            assert(now.drop_last() == before);
            assert(now.last() == lines@[i as int]);
            if any_note(before, cloud) {
                let k = choose|k: int| 0 <= k < before.len() && !(cloud && (#[trigger] before[k]).local_only);
                assert(now[k] == before[k]);
            }
            if any_note(now, cloud) {
                let k = choose|k: int| 0 <= k < now.len() && !(cloud && (#[trigger] now[k]).local_only);
                assert(k < i ==> before[k] == now[k]);
            }
        }
        if !(cloud && lines[i].local_only) {
            proof {
                assert(now[i as int] == lines@[i as int]);
            }
            found = true;
            body.append("- [");
            body.append(lines[i].node_type.as_str());
            body.append("] ");
            body.append(lines[i].title.as_str());
            push_labelled(&mut body, " — ", non_empty(&lines[i].snippet), "");
            body.append(" (importance ");
            body.append(ratio_string(lines[i].importance).as_str());
            body.append(")\n");
            proof {
                reveal_strlit("");
                assert(""@ == Seq::<char>::empty());
            }
        }
        i = i + 1;
    }
    proof {
        assert(lines@.take(lines@.len() as int) == lines@);
    }
    if found {
        out.append("\n## Long-term memory (vault)\n");
        out.append(body.as_str());
    }
    proof {
        assert(out@ =~= old(out)@ + (if any_note(lines@, cloud) {
            "\n## Long-term memory (vault)\n"@ + note_items(lines@, cloud)
        } else {
            Seq::empty()
        }));
    }
    found
}

/// The pending decisions that may be shown, and what to do with them.
fn push_pending(out: &mut String, lines: &Vec<PendingDecisionLine>, cloud: bool) -> (r: bool)
    ensures
        r == any_pending(lines@, cloud),
        final(out)@ == old(out)@ + (if any_pending(lines@, cloud) {
            "\n## Pending memory decisions\n"@ + pending_items(lines@, cloud) + PENDING_HINT@
        } else {
            Seq::empty()
        }),
{
    let mut body: String = String::new();
    let mut found: bool = false;
    let mut i: usize = 0;
    proof {
        assert(lines@.take(0) == Seq::<PendingDecisionLine>::empty());
    }
    while i < lines.len()
        invariant
            i <= lines.len(),
            found == any_pending(lines@.take(i as int), cloud),
            body@ == pending_items(lines@.take(i as int), cloud),
        decreases lines.len() - i,
    {
        let ghost before = lines@.take(i as int);
        let ghost now = lines@.take(i + 1);
        proof {
            assert(now.drop_last() == before);
            assert(now.last() == lines@[i as int]);
            if any_pending(before, cloud) {
                let k = choose|k: int| 0 <= k < before.len() && !(cloud && (#[trigger] before[k]).local_only);
                assert(now[k] == before[k]);
            }
            if any_pending(now, cloud) {
                let k = choose|k: int| 0 <= k < now.len() && !(cloud && (#[trigger] now[k]).local_only);
                assert(k < i ==> before[k] == now[k]);
            }
        }
        if !(cloud && lines[i].local_only) {
            proof {
                assert(now[i as int] == lines@[i as int]);
            }
            found = true;
            body.append("- id: ");
            body.append(lines[i].id.as_str());
            body.append(" — [");
            body.append(lines[i].node_type.as_str());
            body.append("] \"");
            body.append(lines[i].title.as_str());
            body.append("\" (confidence ");
            body.append(ratio_string(lines[i].confidence).as_str());
            body.append(", source ");
            body.append(lines[i].source.as_str());
            body.append(")\n");
        }
        i = i + 1;
    }
    proof {
        assert(lines@.take(lines@.len() as int) == lines@);
    }
    if found {
        out.append("\n## Pending memory decisions\n");
        out.append(body.as_str());
        out.append(PENDING_HINT);
    }
    proof {
        assert(out@ =~= old(out)@ + (if any_pending(lines@, cloud) {
            "\n## Pending memory decisions\n"@ + pending_items(lines@, cloud) + PENDING_HINT@
        } else {
            Seq::empty()
        }));
    }
    found
}

/// The tools, at most `cap` of them by name.
fn push_tools(out: &mut String, tools: &Option<ToolsSection>, cap: usize) -> (r: bool)
    ensures
        r == (tools matches Some(t) && t.names@.len() > 0),
        final(out)@ == old(out)@ + tools_text(
            match *tools {
                Some(t) => Some(t@),
                None => None,
            },
            cap as int,
        ),
{
    match tools {
        Some(t) => {
            if t.names.len() == 0 {
                proof {
                    assert(views(t.names@).len() == 0);
                    assert(out@ =~= old(out)@ + Seq::<char>::empty());
                }
                return false;
            }
            let shown_cap: usize = if cap < 1 {
                1
            } else {
                cap
            };
            out.append("\n## Available tools\n");
            if t.names.len() > shown_cap {
                out.append(join(&t.names, shown_cap, ", ").as_str());
                out.append(", +");
                out.append(decimal_string((t.names.len() - shown_cap) as u64).as_str());
                out.append(" more");
            } else {
                let n: usize = t.names.len();
                out.append(join(&t.names, n, ", ").as_str());
                proof {
                    assert(views(t.names@).take(n as int) == views(t.names@));
                }
            }
            out.append("\n");
            push_labelled(out, "Permission mode: ", Some(t.permission_mode.as_str()), "\n");
            proof {
                assert(out@ =~= old(out)@ + tools_text(Some(t@), cap as int));
            }
            true
        },
        None => {
            proof {
                assert(out@ =~= old(out)@ + Seq::<char>::empty());
            }
            false
        },
    }
}

impl ContextPackage {
    /// An equal package.
    fn working_copy(&self) -> (r: Self)
        ensures
            r@ == self@,
    {
        ContextPackage {
            current_moment: self.current_moment.duplicate(),
            session: match &self.session {
                Some(s) => Some(
                    SessionSection {
                        project: s.project.duplicate(),
                        goal: s.goal.duplicate(),
                        task: s.task.duplicate(),
                        confidence: s.confidence,
                        open_files: duplicate_all(&s.open_files),
                        local_only: s.local_only,
                    },
                ),
                None => None,
            },
            just_before: duplicate_all(&self.just_before),
            memories: duplicate_all(&self.memories),
            facts: duplicate_all(&self.facts),
            vault_notes: duplicate_all(&self.vault_notes),
            recent_changes: duplicate_all(&self.recent_changes),
            failed_attempts: duplicate_all(&self.failed_attempts),
            last_success: self.last_success.duplicate(),
            tools: match &self.tools {
                Some(t) => Some(
                    ToolsSection {
                        names: duplicate_all(&t.names),
                        permission_mode: t.permission_mode.clone(),
                    },
                ),
                None => None,
            },
            recommended_next_step: self.recommended_next_step.duplicate(),
            pending_decisions: duplicate_all(&self.pending_decisions),
            why_woken: self.why_woken.duplicate(),
            why_woken_local_only: self.why_woken_local_only,
        }
    }

    /// Shortens the lists and the world description to the caps.
    pub fn apply_caps(&mut self, caps: &SectionCaps)
        ensures
            final(self)@ == with_caps_applied(old(self)@, *caps),
    {
        self.just_before.truncate(caps.just_before);
        self.memories.truncate(caps.memories);
        self.facts.truncate(caps.facts);
        self.vault_notes.truncate(caps.vault_notes);
        self.pending_decisions.truncate(caps.pending_decisions);
        self.recent_changes.truncate(caps.recent_changes);
        self.failed_attempts.truncate(caps.failed_attempts);
        if let Some(session) = &mut self.session {
            let ghost before = session.open_files@;
            session.open_files.truncate(caps.open_files);
            proof {
                assert(views(session.open_files@) =~= capped(views(before), caps.open_files as int));
            }
        }
        if let Some(moment) = &mut self.current_moment {
            if let Some(compact) = &mut moment.world_compact {
                if byte_length(compact.as_str()) > caps.world_compact_chars {
                    *compact = truncate_on_char_boundary(compact.as_str(), caps.world_compact_chars);
                }
            }
        }
        proof {
            assert(self@ =~= with_caps_applied(old(self)@, *caps));
        }
    }

    /// Drops one piece of detail, and says which.
    pub fn drop_next(&mut self) -> (r: Option<DropStep>)
        ensures
            r == next_drop(old(self)@),
            final(self)@ == after_drop(old(self)@),
    {
        if let Some(session) = &mut self.session {
            proof {
                assert(views(session.open_files@).len() == session.open_files@.len());
            }
            if session.open_files.len() > 0 {
                session.open_files.clear();
                proof {
                    assert(views(session.open_files@) =~= Seq::<Seq<char>>::empty());
                }
                return Some(DropStep::OpenFiles);
            }
        }
        if self.recent_changes.len() > 0 {
            self.recent_changes.clear();
            return Some(DropStep::RecentChanges);
        }
        if self.just_before.len() > 0 {
            self.just_before.pop();
            return Some(DropStep::JustBeforeTail);
        }
        if self.memories.len() > 0 {
            self.memories.pop();
            return Some(DropStep::MemoriesTail);
        }
        None
    }

    /// Appends one section. Returns whether there was something to show.
    fn push_section(&self, out: &mut String, section: PackageSection, budget: &PackageBudget) -> (r:
        bool)
        ensures
            r == section_shown(self@, section, budget.cloud_bound),
            final(out)@ == old(out)@ + section_text(
                self@,
                section,
                budget.cloud_bound,
                budget.caps.tools as int,
            ),
    {
        let cloud: bool = budget.cloud_bound;
        proof {
            assert(out@ + Seq::<char>::empty() =~= out@);
        }
        match section {
            PackageSection::CurrentMoment => match &self.current_moment {
                Some(moment) => {
                    push_moment(out, moment, cloud);
                    true
                },
                None => false,
            },
            PackageSection::Session => push_session(out, &self.session, cloud),
            PackageSection::JustBefore => push_event_section(
                out,
                "## Just before",
                &self.just_before,
                cloud,
            ),
            PackageSection::Memories => push_memories(out, &self.memories, cloud),
            PackageSection::Facts => push_facts(out, &self.facts, cloud),
            PackageSection::VaultNotes => push_notes(out, &self.vault_notes, cloud),
            PackageSection::RecentChanges => push_event_section(
                out,
                "\n## Recent changes",
                &self.recent_changes,
                cloud,
            ),
            PackageSection::FailedAttempts => push_event_section(
                out,
                "\n## Failed attempts",
                &self.failed_attempts,
                cloud,
            ),
            PackageSection::LastSuccess => match &self.last_success {
                Some(success) => {
                    if cloud && success.local_only {
                        return false;
                    }
                    let mut section: String = "\n## Last success\n".to_owned();
                    section.append("- ");
                    section.append(render_event_line(success).as_str());
                    section.append("\n");
                    out.append(section.as_str());
                    true
                },
                None => false,
            },
            PackageSection::Tools => push_tools(out, &self.tools, budget.caps.tools),
            PackageSection::RecommendedNextStep => match &self.recommended_next_step {
                Some(next) => {
                    if next.text.as_str().is_empty() || (cloud && next.local_only) {
                        return false;
                    }
                    let mut section: String = "\n## Recommended next step\n".to_owned();
                    section.append(next.text.as_str());
                    section.append(" (confidence ");
                    section.append(ratio_string(next.confidence).as_str());
                    section.append(")\n");
                    out.append(section.as_str());
                    true
                },
                None => false,
            },
            PackageSection::PendingDecisions => push_pending(out, &self.pending_decisions, cloud),
            PackageSection::WhyWoken => match non_empty(&self.why_woken) {
                Some(reason) => {
                    let mut section: String = "\n## Why you were woken\n".to_owned();
                    if cloud && self.why_woken_local_only {
                        section.append(PRIVATE_WAKE_REASON);
                    } else {
                        section.append(reason);
                    }
                    section.append("\n");
                    out.append(section.as_str());
                    true
                },
                None => false,
            },
        }
    }

    /// Renders every section in order, and lists those that are shown.
    pub fn render_sections(&self, budget: &PackageBudget) -> (r: (String, Vec<PackageSection>))
        ensures
            r.0@ == package_text(self@, budget.cloud_bound, budget.caps.tools as int),
            r.1@ == package_sections(self@, budget.cloud_bound),
    {
        let mut out: String = String::new();
        let mut sections: Vec<PackageSection> = Vec::new();
        let mut i: usize = 0;
        while i < 13
            invariant
                i <= 13,
                out@ == text_upto(
                    self@,
                    i as int,
                    budget.cloud_bound,
                    budget.caps.tools as int,
                ),
                sections@ == sections_upto(self@, i as int, budget.cloud_bound),
            decreases 13 - i,
        {
            let section: PackageSection = section_by_rank(i);
            if self.push_section(&mut out, section, budget) {
                sections.push(section);
            }
            i = i + 1;
        }
        (out, sections)
    }

    /// Renders the package within the budget, and reports what that took.
    ///
    /// The caps are applied first. Detail is then dropped one step at a time, and only as long
    /// as the text is over the budget.
    pub fn render_with_report(&self, budget: &PackageBudget) -> (r: RenderOutcome)
        ensures
            is_report(r, self@, *budget),
    {
        let mut working = self.working_copy();
        working.apply_caps(&budget.caps);
        let ghost start = with_caps_applied(self@, budget.caps);
        let mut dropped: Vec<DropStep> = Vec::new();
        let mut rendered = working.render_sections(budget);
        let mut tokens: usize = estimate_tokens(rendered.0.as_str());
        while tokens > budget.token_budget
            invariant
                working@ == after_drops(start, dropped@.len() as int),
                rendered.0@ == package_text(
                    working@,
                    budget.cloud_bound,
                    budget.caps.tools as int,
                ),
                rendered.1@ == package_sections(working@, budget.cloud_bound),
                tokens == tokens_of(byte_len(rendered.0@)),
                over_upto(start, dropped@.len() as int, *budget),
                drops_follow(start, dropped@),
            ensures
                tokens > budget.token_budget ==> next_drop(working@) is None,
            decreases droppable(working@),
        {
            let ghost before = dropped@;
            proof {
                assert(tokens_after(start, before.len() as int, *budget) > budget.token_budget);
            }
            let step: Option<DropStep> = working.drop_next();
            match step {
                Some(step) => {
                    dropped.push(step);
                },
                None => {
                    break;
                },
            }
            proof {
                assert forall|k: int| 0 <= k < dropped@.len() implies Some(#[trigger] dropped@[k])
                    == next_drop(after_drops(start, k)) by {
                    if k < before.len() {
                        assert(before[k] == dropped@[k]);
                    }
                }
            }
            rendered = working.render_sections(budget);
            tokens = estimate_tokens(rendered.0.as_str());
        }
        let over: bool = tokens > budget.token_budget;
        RenderOutcome {
            text: rendered.0,
            tokens,
            dropped,
            over_budget: over,
            sections: rendered.1,
        }
    }

    /// Renders the package within the budget.
    pub fn render(&self, budget: &PackageBudget) -> (r: String)
        ensures
            is_rendering(r@, self@, *budget),
    {
        self.render_with_report(budget).text
    }
}

/// The section at place `rank`.
fn section_by_rank(rank: usize) -> (r: PackageSection)
    requires
        rank < 13,
    ensures
        r == section_at(rank as int),
{
    match rank {
        0 => PackageSection::CurrentMoment,
        1 => PackageSection::Session,
        2 => PackageSection::JustBefore,
        3 => PackageSection::Memories,
        4 => PackageSection::Facts,
        5 => PackageSection::VaultNotes,
        6 => PackageSection::RecentChanges,
        7 => PackageSection::FailedAttempts,
        8 => PackageSection::LastSuccess,
        9 => PackageSection::Tools,
        10 => PackageSection::RecommendedNextStep,
        11 => PackageSection::PendingDecisions,
        _ => PackageSection::WhyWoken,
    }
}

/// The session section. Returns whether there was something to show.
fn push_session(out: &mut String, session: &Option<SessionSection>, cloud: bool) -> (r: bool)
    ensures
        ({
            let s = match *session {
                Some(s) => Some(s@),
                None => None,
            };
            &&& r == session_shown(s, cloud)
            &&& final(out)@ == old(out)@ + (if session_shown(s, cloud) {
                "\n## Session state\n"@ + session_body(s->0, cloud)
            } else {
                Seq::empty()
            })
        }),
{
    proof {
        assert(out@ + Seq::<char>::empty() =~= out@);
    }
    match session {
        Some(s) => {
            if s.is_empty() {
                return false;
            }
            let body = session_lines(s, cloud);
            if body.as_str().is_empty() {
                return false;
            }
            let mut section: String = "\n## Session state\n".to_owned();
            section.append(body.as_str());
            out.append(section.as_str());
            true
        },
        None => false,
    }
}

/// Whether an outcome reports a rendering of a package within a budget: the caps are applied, then as
/// many steps of dropping are taken as meeting the budget takes.
pub open spec fn is_report(r: RenderOutcome, p: PackageView, budget: PackageBudget) -> bool {
    let start = with_caps_applied(p, budget.caps);
    let end = after_drops(start, r.dropped@.len() as int);
    &&& is_drop_count(start, r.dropped@.len() as int, budget)
    &&& drops_follow(start, r.dropped@)
    &&& r.text@ == package_text(end, budget.cloud_bound, budget.caps.tools as int)
    &&& r.sections@ == package_sections(end, budget.cloud_bound)
    &&& r.tokens == tokens_of(byte_len(r.text@))
    &&& r.over_budget == (r.tokens > budget.token_budget)
}

/// Whether a text is a rendering of a package within a budget.
pub open spec fn is_rendering(text: Seq<char>, p: PackageView, budget: PackageBudget) -> bool {
    exists|n: int|
        is_drop_count(with_caps_applied(p, budget.caps), n, budget) && text == package_text(
            #[trigger] after_drops(with_caps_applied(p, budget.caps), n),
            budget.cloud_bound,
            budget.caps.tools as int,
        )
}

/// Whether the text is over the budget before each of the first `n` steps of dropping.
pub open spec fn over_upto(start: PackageView, n: int, budget: PackageBudget) -> bool {
    forall|k: int| 0 <= k < n ==> #[trigger] tokens_after(start, k, budget) > budget.token_budget
}

/// Whether `dropped` lists the steps that dropping takes from `start`.
pub open spec fn drops_follow(start: PackageView, dropped: Seq<DropStep>) -> bool {
    forall|k: int|
        0 <= k < dropped.len() ==> Some(#[trigger] dropped[k]) == next_drop(after_drops(start, k))
}

/// Whether `n` is the number of steps that meeting the budget takes: before each of them the
/// text is over the budget, and after them it fits or nothing can be dropped.
pub open spec fn is_drop_count(start: PackageView, n: int, budget: PackageBudget) -> bool {
    &&& 0 <= n
    &&& over_upto(start, n, budget)
    &&& tokens_after(start, n, budget) <= budget.token_budget || next_drop(
        after_drops(start, n),
    ) is None
}

} // verus!
