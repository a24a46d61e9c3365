//! What a rendered package says: every line that the reader may see is in the text, with all its
//! content, and in the order in which it was given.
use vstd::prelude::*;
#[allow(unused_imports)]
use crate::context::package::{
    any_event, any_fact, any_memory, any_note, any_pending, event_items, fact_items, memory_items,
    note_items, package_text, pending_items, section_at, section_rank, section_text, shown,
    text_upto, EventLine, FactLine, MemoryLine, PackageSection, PackageView, PendingDecisionLine,
    VaultNoteLine,
};
#[allow(unused_imports)]
use crate::ratio::ratio_text;
#[allow(unused_imports)]
use crate::text::signed_decimal;

verus! {

/// Whether `part` stands somewhere in `text`.
pub open spec fn shows(text: Seq<char>, part: Seq<char>) -> bool {
    exists|a: Seq<char>, b: Seq<char>| text == #[trigger] (a + part + b)
}

pub proof fn lemma_shows(a: Seq<char>, part: Seq<char>, b: Seq<char>)
    ensures
        shows(a + part + b, part),
{
}

pub proof fn lemma_shows_within(text: Seq<char>, section: Seq<char>, part: Seq<char>)
    requires
        shows(text, section),
        shows(section, part),
    ensures
        shows(text, part),
{
    let (a, b) = choose|a: Seq<char>, b: Seq<char>| text == #[trigger] (a + section + b);
    let (c, d) = choose|c: Seq<char>, d: Seq<char>| section == #[trigger] (c + part + d);
    assert(text =~= (a + c) + part + (d + b));
}

proof fn lemma_three(a: Seq<char>, b: Seq<char>, c: Seq<char>)
    ensures
        a + (b + c) == (a + b) + c,
{
    assert(a + (b + c) =~= (a + b) + c);
}

/// The sections of a package from number `n` on.
pub open spec fn text_from(p: PackageView, n: int, cloud: bool, tools_cap: int) -> Seq<char>
    decreases 13 - n,
{
    if n >= 13 {
        Seq::empty()
    } else {
        section_text(p, section_at(n), cloud, tools_cap) + text_from(p, n + 1, cloud, tools_cap)
    }
}

proof fn lemma_text_split(p: PackageView, n: int, cloud: bool, tools_cap: int)
    requires
        0 <= n <= 13,
    ensures
        package_text(p, cloud, tools_cap) == text_upto(p, n, cloud, tools_cap) + text_from(
            p,
            n,
            cloud,
            tools_cap,
        ),
    decreases 13 - n,
{
    if n < 13 {
        lemma_text_split(p, n + 1, cloud, tools_cap);
        assert(text_upto(p, n + 1, cloud, tools_cap) == text_upto(p, n, cloud, tools_cap)
            + section_text(p, section_at(n), cloud, tools_cap));
        assert(package_text(p, cloud, tools_cap) =~= text_upto(p, n, cloud, tools_cap)
            + text_from(p, n, cloud, tools_cap));
    } else {
        assert(text_upto(p, n, cloud, tools_cap) + Seq::<char>::empty() =~= text_upto(
            p,
            n,
            cloud,
            tools_cap,
        ));
    }
}

/// The text of a package holds the text of each of its sections.
pub proof fn law_text_holds_sections(
    p: PackageView,
    section: PackageSection,
    cloud: bool,
    tools_cap: int,
)
    ensures
        shows(package_text(p, cloud, tools_cap), section_text(p, section, cloud, tools_cap)),
{
    let n = section_rank(section);
    assert(section_at(n) == section);
    lemma_text_split(p, n, cloud, tools_cap);
    assert(package_text(p, cloud, tools_cap) =~= text_upto(p, n, cloud, tools_cap) + section_text(
        p,
        section,
        cloud,
        tools_cap,
    ) + text_from(p, n + 1, cloud, tools_cap));
}

/// The sections stand in the text one after the other, in the fixed order.
pub proof fn law_sections_follow(p: PackageView, cloud: bool, tools_cap: int)
    ensures
        ({
            let t = |s: PackageSection| section_text(p, s, cloud, tools_cap);
            package_text(p, cloud, tools_cap) == t(PackageSection::CurrentMoment) + t(
                PackageSection::Session,
            ) + t(PackageSection::JustBefore) + t(PackageSection::Memories) + t(
                PackageSection::Facts,
            ) + t(PackageSection::VaultNotes) + t(PackageSection::RecentChanges) + t(
                PackageSection::FailedAttempts,
            ) + t(PackageSection::LastSuccess) + t(PackageSection::Tools) + t(
                PackageSection::RecommendedNextStep,
            ) + t(PackageSection::PendingDecisions) + t(PackageSection::WhyWoken)
        }),
{
    reveal_with_fuel(text_upto, 14);
    let t = |s: PackageSection| section_text(p, s, cloud, tools_cap);
    assert(Seq::<char>::empty() + t(PackageSection::CurrentMoment) =~= t(
        PackageSection::CurrentMoment,
    ));
}

// ---------------------------------------------------------------------------
// Events
// ---------------------------------------------------------------------------

/// The line of an event: its age, its text, and how often it occurred where that was more than once.
pub open spec fn event_line(l: EventLine) -> Seq<char> {
    if l.count > 1 {
        "- "@ + "["@ + l.age@ + "] "@ + l.text@ + " (×"@ + signed_decimal(l.count as int) + ")"@ + "\n"@
    } else {
        "- "@ + "["@ + l.age@ + "] "@ + l.text@ + "\n"@
    }
}

proof fn lemma_event_step(lines: Seq<EventLine>, cloud: bool)
    requires
        lines.len() > 0,
    ensures
        event_items(lines, cloud) == event_items(lines.drop_last(), cloud) + (if cloud
            && lines.last().local_only {
            Seq::empty()
        } else {
            event_line(lines.last())
        }),
{
    let before = event_items(lines.drop_last(), cloud);
    if cloud && lines.last().local_only {
        assert(before + Seq::<char>::empty() =~= before);
    } else {
        assert(event_items(lines, cloud) =~= before + event_line(lines.last()));
    }
}

/// Events are shown line by line, in order: those of two lists one after the other are those of the
/// first and then those of the second, a single one is its line, and one that must stay on the
/// machine is not there for a reader in the cloud.
pub proof fn law_events_are_shown_in_order(a: Seq<EventLine>, b: Seq<EventLine>, l: EventLine, cloud: bool)
    ensures
        event_items(a + b, cloud) == event_items(a, cloud) + event_items(b, cloud),
        event_items(Seq::empty(), cloud) == Seq::<char>::empty(),
        event_items(seq![l], cloud) == (if cloud && l.local_only {
            Seq::empty()
        } else {
            event_line(l)
        }),
    decreases b.len(),
{
    if b.len() == 0 {
        assert(a + b =~= a);
        assert(event_items(a, cloud) + Seq::<char>::empty() =~= event_items(a, cloud));
    } else {
        law_events_are_shown_in_order(a, b.drop_last(), l, cloud);
        assert((a + b).drop_last() =~= a + b.drop_last());
        assert((a + b).last() == b.last());
        lemma_event_step(a + b, cloud);
        lemma_event_step(b, cloud);
        let line = if cloud && b.last().local_only {
            Seq::empty()
        } else {
            event_line(b.last())
        };
        lemma_three(event_items(a, cloud), event_items(b.drop_last(), cloud), line);
    }
    assert(seq![l].drop_last() =~= Seq::<EventLine>::empty());
    assert(seq![l].last() == l);
    assert(event_items(Seq::<EventLine>::empty(), cloud) =~= Seq::<char>::empty());
    lemma_event_step(seq![l], cloud);
    if !(cloud && l.local_only) {
        assert(Seq::<char>::empty() + event_line(l) =~= event_line(l));
    }
}

proof fn lemma_event_shown(lines: Seq<EventLine>, i: int, cloud: bool)
    requires
        0 <= i < lines.len(),
        !(cloud && lines[i].local_only),
    ensures
        shows(event_items(lines, cloud), event_line(lines[i])),
        event_items(lines, cloud) == event_items(lines.take(i), cloud) + event_line(lines[i]) + event_items(
            lines.skip(i + 1),
            cloud,
        ),
        any_event(lines, cloud),
{
    let a = lines.take(i);
    let m = seq![lines[i]];
    let b = lines.skip(i + 1);
    law_events_are_shown_in_order(a, m, lines[i], cloud);
    law_events_are_shown_in_order(a + m, b, lines[i], cloud);
    assert(a + m + b =~= lines);
}

/// Every event just before that the reader may see is in the text.
pub proof fn law_events_before_are_shown(p: PackageView, i: int, cloud: bool, tools_cap: int)
    requires
        0 <= i < p.just_before.len(),
        !(cloud && p.just_before[i].local_only),
    ensures
        shows(package_text(p, cloud, tools_cap), event_line(p.just_before[i])),
{
    let items = event_items(p.just_before, cloud);
    let section = section_text(p, PackageSection::JustBefore, cloud, tools_cap);
    lemma_event_shown(p.just_before, i, cloud);
    law_text_holds_sections(p, PackageSection::JustBefore, cloud, tools_cap);
    assert(shows(section, items)) by {
        assert(section =~= "## Just before"@ + "\n"@ + items + Seq::<char>::empty());
    }
    lemma_shows_within(section, items, event_line(p.just_before[i]));
    lemma_shows_within(package_text(p, cloud, tools_cap), section, event_line(p.just_before[i]));
}

/// Every recent change that the reader may see is in the text.
pub proof fn law_recent_changes_are_shown(p: PackageView, i: int, cloud: bool, tools_cap: int)
    requires
        0 <= i < p.recent_changes.len(),
        !(cloud && p.recent_changes[i].local_only),
    ensures
        shows(package_text(p, cloud, tools_cap), event_line(p.recent_changes[i])),
{
    let items = event_items(p.recent_changes, cloud);
    let section = section_text(p, PackageSection::RecentChanges, cloud, tools_cap);
    lemma_event_shown(p.recent_changes, i, cloud);
    law_text_holds_sections(p, PackageSection::RecentChanges, cloud, tools_cap);
    assert(shows(section, items)) by {
        assert(section =~= "\n## Recent changes"@ + "\n"@ + items + Seq::<char>::empty());
    }
    lemma_shows_within(section, items, event_line(p.recent_changes[i]));
    lemma_shows_within(package_text(p, cloud, tools_cap), section, event_line(p.recent_changes[i]));
}

/// Every failed attempt that the reader may see is in the text.
pub proof fn law_failed_attempts_are_shown(p: PackageView, i: int, cloud: bool, tools_cap: int)
    requires
        0 <= i < p.failed_attempts.len(),
        !(cloud && p.failed_attempts[i].local_only),
    ensures
        shows(package_text(p, cloud, tools_cap), event_line(p.failed_attempts[i])),
{
    let items = event_items(p.failed_attempts, cloud);
    let section = section_text(p, PackageSection::FailedAttempts, cloud, tools_cap);
    lemma_event_shown(p.failed_attempts, i, cloud);
    law_text_holds_sections(p, PackageSection::FailedAttempts, cloud, tools_cap);
    assert(shows(section, items)) by {
        assert(section =~= "\n## Failed attempts"@ + "\n"@ + items + Seq::<char>::empty());
    }
    lemma_shows_within(section, items, event_line(p.failed_attempts[i]));
    lemma_shows_within(package_text(p, cloud, tools_cap), section, event_line(p.failed_attempts[i]));
}

// ---------------------------------------------------------------------------
// Memories
// ---------------------------------------------------------------------------

/// The line of a memory: its age and its text.
pub open spec fn memory_line(l: MemoryLine) -> Seq<char> {
    "- ["@ + l.age@ + "] "@ + l.text@ + "\n"@
}

proof fn lemma_memory_step(lines: Seq<MemoryLine>, cloud: bool)
    requires
        lines.len() > 0,
    ensures
        memory_items(lines, cloud) == memory_items(lines.drop_last(), cloud) + (if cloud
            && lines.last().local_only {
            Seq::empty()
        } else {
            memory_line(lines.last())
        }),
{
    let before = memory_items(lines.drop_last(), cloud);
    if cloud && lines.last().local_only {
        assert(before + Seq::<char>::empty() =~= before);
    } else {
        assert(memory_items(lines, cloud) =~= before + memory_line(lines.last()));
    }
}

/// Memories are shown line by line, in order: those of two lists one after the other are those of the
/// first and then those of the second, a single one is its line, and one that must stay on the
/// machine is not there for a reader in the cloud.
pub proof fn law_memories_are_shown_in_order(a: Seq<MemoryLine>, b: Seq<MemoryLine>, l: MemoryLine, cloud: bool)
    ensures
        memory_items(a + b, cloud) == memory_items(a, cloud) + memory_items(b, cloud),
        memory_items(Seq::empty(), cloud) == Seq::<char>::empty(),
        memory_items(seq![l], cloud) == (if cloud && l.local_only {
            Seq::empty()
        } else {
            memory_line(l)
        }),
    decreases b.len(),
{
    if b.len() == 0 {
        assert(a + b =~= a);
        assert(memory_items(a, cloud) + Seq::<char>::empty() =~= memory_items(a, cloud));
    } else {
        law_memories_are_shown_in_order(a, b.drop_last(), l, cloud);
        assert((a + b).drop_last() =~= a + b.drop_last());
        assert((a + b).last() == b.last());
        lemma_memory_step(a + b, cloud);
        lemma_memory_step(b, cloud);
        let line = if cloud && b.last().local_only {
            Seq::empty()
        } else {
            memory_line(b.last())
        };
        lemma_three(memory_items(a, cloud), memory_items(b.drop_last(), cloud), line);
    }
    assert(seq![l].drop_last() =~= Seq::<MemoryLine>::empty());
    assert(seq![l].last() == l);
    assert(memory_items(Seq::<MemoryLine>::empty(), cloud) =~= Seq::<char>::empty());
    lemma_memory_step(seq![l], cloud);
    if !(cloud && l.local_only) {
        assert(Seq::<char>::empty() + memory_line(l) =~= memory_line(l));
    }
}

proof fn lemma_memory_shown(lines: Seq<MemoryLine>, i: int, cloud: bool)
    requires
        0 <= i < lines.len(),
        !(cloud && lines[i].local_only),
    ensures
        shows(memory_items(lines, cloud), memory_line(lines[i])),
        memory_items(lines, cloud) == memory_items(lines.take(i), cloud) + memory_line(lines[i]) + memory_items(
            lines.skip(i + 1),
            cloud,
        ),
        any_memory(lines, cloud),
{
    let a = lines.take(i);
    let m = seq![lines[i]];
    let b = lines.skip(i + 1);
    law_memories_are_shown_in_order(a, m, lines[i], cloud);
    law_memories_are_shown_in_order(a + m, b, lines[i], cloud);
    assert(a + m + b =~= lines);
}

/// Every memory that the reader may see is in the text.
pub proof fn law_memories_are_shown(p: PackageView, i: int, cloud: bool, tools_cap: int)
    requires
        0 <= i < p.memories.len(),
        !(cloud && p.memories[i].local_only),
    ensures
        shows(package_text(p, cloud, tools_cap), memory_line(p.memories[i])),
{
    let items = memory_items(p.memories, cloud);
    let section = section_text(p, PackageSection::Memories, cloud, tools_cap);
    lemma_memory_shown(p.memories, i, cloud);
    law_text_holds_sections(p, PackageSection::Memories, cloud, tools_cap);
    assert(shows(section, items)) by {
        assert(section =~= "\n## Relevant memories\n"@ + items + Seq::<char>::empty());
    }
    lemma_shows_within(section, items, memory_line(p.memories[i]));
    lemma_shows_within(package_text(p, cloud, tools_cap), section, memory_line(p.memories[i]));
}

// ---------------------------------------------------------------------------
// Facts
// ---------------------------------------------------------------------------

/// The line of a fact: its label and its value.
pub open spec fn fact_line(l: FactLine) -> Seq<char> {
    "- "@ + l.label@ + ": "@ + l.value@ + "\n"@
}

proof fn lemma_fact_step(lines: Seq<FactLine>, cloud: bool)
    requires
        lines.len() > 0,
    ensures
        fact_items(lines, cloud) == fact_items(lines.drop_last(), cloud) + (if cloud
            && lines.last().local_only {
            Seq::empty()
        } else {
            fact_line(lines.last())
        }),
{
    let before = fact_items(lines.drop_last(), cloud);
    if cloud && lines.last().local_only {
        assert(before + Seq::<char>::empty() =~= before);
    } else {
        assert(fact_items(lines, cloud) =~= before + fact_line(lines.last()));
    }
}

/// Facts are shown line by line, in order: those of two lists one after the other are those of the
/// first and then those of the second, a single one is its line, and one that must stay on the
/// machine is not there for a reader in the cloud.
pub proof fn law_facts_are_shown_in_order(a: Seq<FactLine>, b: Seq<FactLine>, l: FactLine, cloud: bool)
    ensures
        fact_items(a + b, cloud) == fact_items(a, cloud) + fact_items(b, cloud),
        fact_items(Seq::empty(), cloud) == Seq::<char>::empty(),
        fact_items(seq![l], cloud) == (if cloud && l.local_only {
            Seq::empty()
        } else {
            fact_line(l)
        }),
    decreases b.len(),
{
    if b.len() == 0 {
        assert(a + b =~= a);
        assert(fact_items(a, cloud) + Seq::<char>::empty() =~= fact_items(a, cloud));
    } else {
        law_facts_are_shown_in_order(a, b.drop_last(), l, cloud);
        assert((a + b).drop_last() =~= a + b.drop_last());
        assert((a + b).last() == b.last());
        lemma_fact_step(a + b, cloud);
        lemma_fact_step(b, cloud);
        let line = if cloud && b.last().local_only {
            Seq::empty()
        } else {
            fact_line(b.last())
        };
        lemma_three(fact_items(a, cloud), fact_items(b.drop_last(), cloud), line);
    }
    assert(seq![l].drop_last() =~= Seq::<FactLine>::empty());
    assert(seq![l].last() == l);
    assert(fact_items(Seq::<FactLine>::empty(), cloud) =~= Seq::<char>::empty());
    lemma_fact_step(seq![l], cloud);
    if !(cloud && l.local_only) {
        assert(Seq::<char>::empty() + fact_line(l) =~= fact_line(l));
    }
}

proof fn lemma_fact_shown(lines: Seq<FactLine>, i: int, cloud: bool)
    requires
        0 <= i < lines.len(),
        !(cloud && lines[i].local_only),
    ensures
        shows(fact_items(lines, cloud), fact_line(lines[i])),
        fact_items(lines, cloud) == fact_items(lines.take(i), cloud) + fact_line(lines[i]) + fact_items(
            lines.skip(i + 1),
            cloud,
        ),
        any_fact(lines, cloud),
{
    let a = lines.take(i);
    let m = seq![lines[i]];
    let b = lines.skip(i + 1);
    law_facts_are_shown_in_order(a, m, lines[i], cloud);
    law_facts_are_shown_in_order(a + m, b, lines[i], cloud);
    assert(a + m + b =~= lines);
}

/// Every fact that the reader may see is in the text, with its label and its value.
pub proof fn law_facts_are_shown(p: PackageView, i: int, cloud: bool, tools_cap: int)
    requires
        0 <= i < p.facts.len(),
        !(cloud && p.facts[i].local_only),
    ensures
        shows(package_text(p, cloud, tools_cap), fact_line(p.facts[i])),
{
    let items = fact_items(p.facts, cloud);
    let section = section_text(p, PackageSection::Facts, cloud, tools_cap);
    lemma_fact_shown(p.facts, i, cloud);
    law_text_holds_sections(p, PackageSection::Facts, cloud, tools_cap);
    assert(shows(section, items)) by {
        assert(section =~= "\n## What you know about the user\n"@ + items + Seq::<char>::empty());
    }
    lemma_shows_within(section, items, fact_line(p.facts[i]));
    lemma_shows_within(package_text(p, cloud, tools_cap), section, fact_line(p.facts[i]));
}

// ---------------------------------------------------------------------------
// Notes
// ---------------------------------------------------------------------------

/// The line of a note: its type, its title, what it says where that is given, and its importance.
pub open spec fn note_line(l: VaultNoteLine) -> Seq<char> {
    "- ["@ + l.node_type@ + "] "@ + l.title@ + (if l.snippet is Some && l.snippet->0@.len() > 0 {
        " — "@ + l.snippet->0@
    } else {
        Seq::empty()
    }) + " (importance "@ + ratio_text(l.importance as int) + ")\n"@
}

proof fn lemma_note_step(lines: Seq<VaultNoteLine>, cloud: bool)
    requires
        lines.len() > 0,
    ensures
        note_items(lines, cloud) == note_items(lines.drop_last(), cloud) + (if cloud
            && lines.last().local_only {
            Seq::empty()
        } else {
            note_line(lines.last())
        }),
{
    let before = note_items(lines.drop_last(), cloud);
    if cloud && lines.last().local_only {
        assert(before + Seq::<char>::empty() =~= before);
    } else {
        assert(note_items(lines, cloud) =~= before + note_line(lines.last()));
    }
}

/// Notes are shown line by line, in order: those of two lists one after the other are those of the
/// first and then those of the second, a single one is its line, and one that must stay on the
/// machine is not there for a reader in the cloud.
pub proof fn law_notes_are_shown_in_order(a: Seq<VaultNoteLine>, b: Seq<VaultNoteLine>, l: VaultNoteLine, cloud: bool)
    ensures
        note_items(a + b, cloud) == note_items(a, cloud) + note_items(b, cloud),
        note_items(Seq::empty(), cloud) == Seq::<char>::empty(),
        note_items(seq![l], cloud) == (if cloud && l.local_only {
            Seq::empty()
        } else {
            note_line(l)
        }),
    decreases b.len(),
{
    if b.len() == 0 {
        assert(a + b =~= a);
        assert(note_items(a, cloud) + Seq::<char>::empty() =~= note_items(a, cloud));
    } else {
        law_notes_are_shown_in_order(a, b.drop_last(), l, cloud);
        assert((a + b).drop_last() =~= a + b.drop_last());
        assert((a + b).last() == b.last());
        lemma_note_step(a + b, cloud);
        lemma_note_step(b, cloud);
        let line = if cloud && b.last().local_only {
            Seq::empty()
        } else {
            note_line(b.last())
        };
        lemma_three(note_items(a, cloud), note_items(b.drop_last(), cloud), line);
    }
    assert(seq![l].drop_last() =~= Seq::<VaultNoteLine>::empty());
    assert(seq![l].last() == l);
    assert(note_items(Seq::<VaultNoteLine>::empty(), cloud) =~= Seq::<char>::empty());
    lemma_note_step(seq![l], cloud);
    if !(cloud && l.local_only) {
        assert(Seq::<char>::empty() + note_line(l) =~= note_line(l));
    }
}

proof fn lemma_note_shown(lines: Seq<VaultNoteLine>, i: int, cloud: bool)
    requires
        0 <= i < lines.len(),
        !(cloud && lines[i].local_only),
    ensures
        shows(note_items(lines, cloud), note_line(lines[i])),
        note_items(lines, cloud) == note_items(lines.take(i), cloud) + note_line(lines[i]) + note_items(
            lines.skip(i + 1),
            cloud,
        ),
        any_note(lines, cloud),
{
    let a = lines.take(i);
    let m = seq![lines[i]];
    let b = lines.skip(i + 1);
    law_notes_are_shown_in_order(a, m, lines[i], cloud);
    law_notes_are_shown_in_order(a + m, b, lines[i], cloud);
    assert(a + m + b =~= lines);
}

/// Every note that the reader may see is in the text.
pub proof fn law_notes_are_shown(p: PackageView, i: int, cloud: bool, tools_cap: int)
    requires
        0 <= i < p.vault_notes.len(),
        !(cloud && p.vault_notes[i].local_only),
    ensures
        shows(package_text(p, cloud, tools_cap), note_line(p.vault_notes[i])),
{
    let items = note_items(p.vault_notes, cloud);
    let section = section_text(p, PackageSection::VaultNotes, cloud, tools_cap);
    lemma_note_shown(p.vault_notes, i, cloud);
    law_text_holds_sections(p, PackageSection::VaultNotes, cloud, tools_cap);
    assert(shows(section, items)) by {
        assert(section =~= "\n## Long-term memory (vault)\n"@ + items + Seq::<char>::empty());
    }
    lemma_shows_within(section, items, note_line(p.vault_notes[i]));
    lemma_shows_within(package_text(p, cloud, tools_cap), section, note_line(p.vault_notes[i]));
}

// ---------------------------------------------------------------------------
// Pending decisions
// ---------------------------------------------------------------------------

/// The line of a pending decision: its id, its type, its title, how sure it is and where it comes from.
pub open spec fn pending_line(l: PendingDecisionLine) -> Seq<char> {
    "- id: "@ + l.id@ + " — ["@ + l.node_type@ + "] \""@ + l.title@ + "\" (confidence "@ + ratio_text(
        l.confidence as int,
    ) + ", source "@ + l.source@ + ")\n"@
}

proof fn lemma_pending_step(lines: Seq<PendingDecisionLine>, cloud: bool)
    requires
        lines.len() > 0,
    ensures
        pending_items(lines, cloud) == pending_items(lines.drop_last(), cloud) + (if cloud
            && lines.last().local_only {
            Seq::empty()
        } else {
            pending_line(lines.last())
        }),
{
    let before = pending_items(lines.drop_last(), cloud);
    if cloud && lines.last().local_only {
        assert(before + Seq::<char>::empty() =~= before);
    } else {
        assert(pending_items(lines, cloud) =~= before + pending_line(lines.last()));
    }
}

/// Pending decisions are shown line by line, in order: those of two lists one after the other are those of the
/// first and then those of the second, a single one is its line, and one that must stay on the
/// machine is not there for a reader in the cloud.
pub proof fn law_pending_decisions_shown_in_order(a: Seq<PendingDecisionLine>, b: Seq<PendingDecisionLine>, l: PendingDecisionLine, cloud: bool)
    ensures
        pending_items(a + b, cloud) == pending_items(a, cloud) + pending_items(b, cloud),
        pending_items(Seq::empty(), cloud) == Seq::<char>::empty(),
        pending_items(seq![l], cloud) == (if cloud && l.local_only {
            Seq::empty()
        } else {
            pending_line(l)
        }),
    decreases b.len(),
{
    if b.len() == 0 {
        assert(a + b =~= a);
        assert(pending_items(a, cloud) + Seq::<char>::empty() =~= pending_items(a, cloud));
    } else {
        law_pending_decisions_shown_in_order(a, b.drop_last(), l, cloud);
        assert((a + b).drop_last() =~= a + b.drop_last());
        assert((a + b).last() == b.last());
        lemma_pending_step(a + b, cloud);
        lemma_pending_step(b, cloud);
        let line = if cloud && b.last().local_only {
            Seq::empty()
        } else {
            pending_line(b.last())
        };
        lemma_three(pending_items(a, cloud), pending_items(b.drop_last(), cloud), line);
    }
    assert(seq![l].drop_last() =~= Seq::<PendingDecisionLine>::empty());
    assert(seq![l].last() == l);
    assert(pending_items(Seq::<PendingDecisionLine>::empty(), cloud) =~= Seq::<char>::empty());
    lemma_pending_step(seq![l], cloud);
    if !(cloud && l.local_only) {
        assert(Seq::<char>::empty() + pending_line(l) =~= pending_line(l));
    }
}

proof fn lemma_pending_shown(lines: Seq<PendingDecisionLine>, i: int, cloud: bool)
    requires
        0 <= i < lines.len(),
        !(cloud && lines[i].local_only),
    ensures
        shows(pending_items(lines, cloud), pending_line(lines[i])),
        pending_items(lines, cloud) == pending_items(lines.take(i), cloud) + pending_line(lines[i]) + pending_items(
            lines.skip(i + 1),
            cloud,
        ),
        any_pending(lines, cloud),
{
    let a = lines.take(i);
    let m = seq![lines[i]];
    let b = lines.skip(i + 1);
    law_pending_decisions_shown_in_order(a, m, lines[i], cloud);
    law_pending_decisions_shown_in_order(a + m, b, lines[i], cloud);
    assert(a + m + b =~= lines);
}

/// Every pending decision that the reader may see is in the text.
pub proof fn law_pending_decisions_are_shown(p: PackageView, i: int, cloud: bool, tools_cap: int)
    requires
        0 <= i < p.pending_decisions.len(),
        !(cloud && p.pending_decisions[i].local_only),
    ensures
        shows(package_text(p, cloud, tools_cap), pending_line(p.pending_decisions[i])),
{
    let items = pending_items(p.pending_decisions, cloud);
    let section = section_text(p, PackageSection::PendingDecisions, cloud, tools_cap);
    lemma_pending_shown(p.pending_decisions, i, cloud);
    law_text_holds_sections(p, PackageSection::PendingDecisions, cloud, tools_cap);
    assert(shows(section, items)) by {
        assert(section =~= "\n## Pending memory decisions\n"@ + items + crate::context::package::PENDING_HINT@);
    }
    lemma_shows_within(section, items, pending_line(p.pending_decisions[i]));
    lemma_shows_within(package_text(p, cloud, tools_cap), section, pending_line(p.pending_decisions[i]));
}

/// Two packages that differ only in one fact that the reader may see have different texts where the
/// lines of the fact differ: nothing of a fact gets lost.
pub proof fn law_facts_tell_packages_apart(
    p: PackageView,
    q: PackageView,
    i: int,
    cloud: bool,
    tools_cap: int,
)
    requires
        0 <= i < p.facts.len(),
        !(cloud && p.facts[i].local_only),
        !(cloud && q.facts[i].local_only),
        q == (PackageView { facts: p.facts.update(i, q.facts[i]), ..p }),
        p.facts[i].label@ == q.facts[i].label@,
        p.facts[i].value@ != q.facts[i].value@,
    ensures
        package_text(p, cloud, tools_cap) != package_text(q, cloud, tools_cap),
{
    lemma_fact_in_text(p, i, cloud, tools_cap);
    lemma_fact_in_text(q, i, cloud, tools_cap);
    lemma_other_sections(p, q, cloud, tools_cap);
    assert(p.facts.take(i) =~= q.facts.take(i));
    assert(p.facts.skip(i + 1) =~= q.facts.skip(i + 1));
    lemma_fact_lines_differ(p.facts[i], q.facts[i]);
    lemma_middle_differs(
        text_upto(p, 4, cloud, tools_cap) + "\n## What you know about the user\n"@ + fact_items(
            p.facts.take(i),
            cloud,
        ),
        fact_line(p.facts[i]),
        fact_line(q.facts[i]),
        fact_items(p.facts.skip(i + 1), cloud) + text_from(p, 5, cloud, tools_cap),
    );
}

/// Where a fact stands in the text.
proof fn lemma_fact_in_text(p: PackageView, i: int, cloud: bool, tools_cap: int)
    requires
        0 <= i < p.facts.len(),
        !(cloud && p.facts[i].local_only),
    ensures
        package_text(p, cloud, tools_cap) == text_upto(p, 4, cloud, tools_cap)
            + "\n## What you know about the user\n"@ + fact_items(p.facts.take(i), cloud) + fact_line(
            p.facts[i],
        ) + (fact_items(p.facts.skip(i + 1), cloud) + text_from(p, 5, cloud, tools_cap)),
{
    lemma_fact_shown(p.facts, i, cloud);
    assert(section_at(4) == PackageSection::Facts);
    lemma_text_split(p, 4, cloud, tools_cap);
    let head = text_upto(p, 4, cloud, tools_cap);
    let title = "\n## What you know about the user\n"@;
    let before = fact_items(p.facts.take(i), cloud);
    let after = fact_items(p.facts.skip(i + 1), cloud);
    let tail = text_from(p, 5, cloud, tools_cap);
    let a = fact_line(p.facts[i]);
    assert(package_text(p, cloud, tools_cap) == head + ((title + (before + a + after)) + tail));
    lemma_regroup(head, title, before, a, after, tail);
}

proof fn lemma_regroup(
    head: Seq<char>,
    title: Seq<char>,
    before: Seq<char>,
    a: Seq<char>,
    after: Seq<char>,
    tail: Seq<char>,
)
    ensures
        head + ((title + (before + a + after)) + tail) == head + title + before + a + (after + tail),
{
    assert(head + ((title + (before + a + after)) + tail) =~= head + title + before + a + (after
        + tail));
}

/// The other sections do not depend on the facts.
proof fn lemma_other_sections(p: PackageView, q: PackageView, cloud: bool, tools_cap: int)
    requires
        q == (PackageView { facts: q.facts, ..p }),
    ensures
        text_upto(p, 4, cloud, tools_cap) == text_upto(q, 4, cloud, tools_cap),
        text_from(p, 5, cloud, tools_cap) == text_from(q, 5, cloud, tools_cap),
{
    assert forall|s: PackageSection| s != PackageSection::Facts implies #[trigger] section_text(
        p,
        s,
        cloud,
        tools_cap,
    ) == section_text(q, s, cloud, tools_cap) by {}
    assert forall|n: int| n != 4 implies #[trigger] section_at(n) != PackageSection::Facts by {}
    lemma_upto_same(p, q, 4, cloud, tools_cap);
    lemma_from_same(p, q, 5, cloud, tools_cap);
}

proof fn lemma_upto_same(p: PackageView, q: PackageView, n: int, cloud: bool, tools_cap: int)
    requires
        forall|k: int|
            0 <= k < n ==> section_text(p, #[trigger] section_at(k), cloud, tools_cap)
                == section_text(q, section_at(k), cloud, tools_cap),
    ensures
        text_upto(p, n, cloud, tools_cap) == text_upto(q, n, cloud, tools_cap),
    decreases n,
{
    if n > 0 {
        lemma_upto_same(p, q, n - 1, cloud, tools_cap);
        assert(section_text(p, section_at(n - 1), cloud, tools_cap) == section_text(
            q,
            section_at(n - 1),
            cloud,
            tools_cap,
        ));
    }
}

proof fn lemma_from_same(p: PackageView, q: PackageView, n: int, cloud: bool, tools_cap: int)
    requires
        forall|k: int|
            n <= k < 13 ==> section_text(p, #[trigger] section_at(k), cloud, tools_cap)
                == section_text(q, section_at(k), cloud, tools_cap),
    ensures
        text_from(p, n, cloud, tools_cap) == text_from(q, n, cloud, tools_cap),
    decreases 13 - n,
{
    if n < 13 {
        lemma_from_same(p, q, n + 1, cloud, tools_cap);
        assert(section_text(p, section_at(n), cloud, tools_cap) == section_text(
            q,
            section_at(n),
            cloud,
            tools_cap,
        ));
    }
}

proof fn lemma_middle_differs(head: Seq<char>, a: Seq<char>, b: Seq<char>, tail: Seq<char>)
    requires
        a != b,
    ensures
        head + a + tail != head + b + tail,
{
    if head + a + tail == head + b + tail {
        assert((head + a + tail).len() == (head + b + tail).len());
        assert(a.len() == b.len());
        assert((head + a + tail).subrange(head.len() as int, (head.len() + a.len()) as int) =~= a);
        assert((head + b + tail).subrange(head.len() as int, (head.len() + b.len()) as int) =~= b);
    }
}

proof fn lemma_fact_lines_differ(x: FactLine, y: FactLine)
    requires
        x.label@ == y.label@,
        x.value@ != y.value@,
    ensures
        fact_line(x) != fact_line(y),
{
    lemma_middle_differs("- "@ + x.label@ + ": "@, x.value@, y.value@, "\n"@);
}

} // verus!
