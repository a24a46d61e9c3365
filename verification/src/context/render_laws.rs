//! What holds of every rendering of a context package.
use vstd::prelude::*;
use crate::context::package::{DropStep, PackageBudget, PackageSection};
#[allow(unused_imports)]
use crate::context::package::{
    after_drop, after_drops, any_event, any_fact, any_memory, any_note, any_pending, drop_rank,
    event_items, fact_items, memory_items, next_drop, note_items, package_sections, package_text,
    pending_items, section_at, section_rank, section_shown, section_text, sections_upto,
    session_body, session_shown, text_upto, tokens_after, EventLine, FactLine, MemoryLine,
    MomentView, PackageView, PendingDecisionLine, SessionView, VaultNoteLine,
};
#[allow(unused_imports)]
use crate::context::render::{drops_follow, is_drop_count, over_upto};

verus! {

/// The sections of a text stand in the fixed order, each at most once. In particular nothing but
/// the wake reason can follow the pending decisions.
pub proof fn law_section_order(p: PackageView, cloud: bool)
    ensures
        forall|i: int, j: int|
            0 <= i < j < package_sections(p, cloud).len() ==> section_rank(
                #[trigger] package_sections(p, cloud)[i],
            ) < section_rank(#[trigger] package_sections(p, cloud)[j]),
        forall|i: int|
            0 <= i < package_sections(p, cloud).len() && #[trigger] package_sections(p, cloud)[i]
                == PackageSection::PendingDecisions ==> i == package_sections(p, cloud).len() - 1
                || (i == package_sections(p, cloud).len() - 2 && package_sections(p, cloud).last()
                == PackageSection::WhyWoken),
{
    lemma_section_order(p, 13, cloud);
    let s = package_sections(p, cloud);
    assert forall|i: int| 0 <= i < s.len() && #[trigger] s[i] == PackageSection::PendingDecisions implies i
        == s.len() - 1 || (i == s.len() - 2 && s.last() == PackageSection::WhyWoken) by {
        if i < s.len() - 1 {
            assert(section_rank(s[i]) < section_rank(s[s.len() - 1]));
            if i < s.len() - 2 {
                assert(section_rank(s[i]) < section_rank(s[s.len() - 2]));
                assert(section_rank(s[s.len() - 2]) < section_rank(s[s.len() - 1]));
            }
        }
    }
}

proof fn lemma_section_order(p: PackageView, n: int, cloud: bool)
    requires
        0 <= n <= 13,
    ensures
        forall|i: int|
            0 <= i < sections_upto(p, n, cloud).len() ==> section_rank(
                #[trigger] sections_upto(p, n, cloud)[i],
            ) < n,
        forall|i: int, j: int|
            0 <= i < j < sections_upto(p, n, cloud).len() ==> section_rank(
                #[trigger] sections_upto(p, n, cloud)[i],
            ) < section_rank(#[trigger] sections_upto(p, n, cloud)[j]),
    decreases n,
{
    if n > 0 {
        lemma_section_order(p, n - 1, cloud);
        assert(section_rank(section_at(n - 1)) == n - 1);
        let before = sections_upto(p, n - 1, cloud);
        let now = sections_upto(p, n, cloud);
        assert forall|i: int| 0 <= i < now.len() implies section_rank(#[trigger] now[i]) < n by {
            if i < before.len() {
                assert(now[i] == before[i]);
            }
        }
        assert forall|i: int, j: int| 0 <= i < j < now.len() implies section_rank(
            #[trigger] now[i],
        ) < section_rank(#[trigger] now[j]) by {
            assert(now[i] == before[i]);
            if j < before.len() {
                assert(now[j] == before[j]);
            }
        }
    }
}

/// A section is listed exactly where it is shown.
pub proof fn law_section_listed(p: PackageView, section: PackageSection, cloud: bool)
    ensures
        package_sections(p, cloud).contains(section) == section_shown(p, section, cloud),
{
    lemma_section_listed(p, 13, section, cloud);
}

proof fn lemma_section_listed(p: PackageView, n: int, section: PackageSection, cloud: bool)
    requires
        0 <= n <= 13,
    ensures
        sections_upto(p, n, cloud).contains(section) == (section_rank(section) < n && section_shown(
            p,
            section,
            cloud,
        )),
    decreases n,
{
    if n > 0 {
        lemma_section_listed(p, n - 1, section, cloud);
        let before = sections_upto(p, n - 1, cloud);
        let now = sections_upto(p, n, cloud);
        assert(section_at(section_rank(section)) == section);
        if before.contains(section) {
            let i = choose|i: int| 0 <= i < before.len() && before[i] == section;
            assert(now[i] == section);
        }
        if now.contains(section) && section != section_at(n - 1) {
            let i = choose|i: int| 0 <= i < now.len() && now[i] == section;
            assert(before[i] == section);
        }
        if section_rank(section) == n - 1 && section_shown(p, section, cloud) {
            assert(now[now.len() - 1] == section);
        }
    }
}

/// Dropping never touches the current moment, the facts, the notes, the failed attempts, the last
/// success, the tools, the next step, the pending decisions or the wake reason, and of the
/// session it only ever takes the open files: project, goal and task are shown as before.
pub proof fn law_never_dropped(
    p: PackageView,
    n: int,
    section: PackageSection,
    cloud: bool,
    tools_cap: int,
)
    requires
        0 <= n,
        section != PackageSection::Session,
        section != PackageSection::JustBefore,
        section != PackageSection::Memories,
        section != PackageSection::RecentChanges,
    ensures
        section_text(after_drops(p, n), section, cloud, tools_cap) == section_text(
            p,
            section,
            cloud,
            tools_cap,
        ),
        section_shown(after_drops(p, n), section, cloud) == section_shown(p, section, cloud),
        after_drops(p, n).session is Some == p.session is Some,
        p.session matches Some(s) ==> ({
            let t = after_drops(p, n).session->0;
            t == s || t == (SessionView { open_files: Seq::empty(), ..s })
        }),
    decreases n,
{
    if n > 0 {
        law_never_dropped(p, n - 1, section, cloud, tools_cap);
    }
}

/// A session with a project, a goal or a task that a reader may see is shown whatever is dropped.
pub proof fn law_session_survives(p: PackageView, n: int, cloud: bool)
    requires
        0 <= n,
        p.session is Some,
        session_body(
            SessionView { open_files: Seq::empty(), ..p.session->0 },
            cloud,
        ).len() > 0,
    ensures
        session_shown(after_drops(p, n).session, cloud),
{
    law_never_dropped(p, n, PackageSection::WhyWoken, cloud, 0);
    let s = p.session->0;
    let bare = SessionView { open_files: Seq::empty(), ..s };
    let t = after_drops(p, n).session->0;
    assert(!bare.is_blank()) by {
        if bare.is_blank() {
            assert(session_body(bare, cloud) =~= Seq::<char>::empty());
        }
    }
    if t == s {
        let hide = cloud && s.local_only;
        if !hide && s.open_files.len() > 0 {
            assert(session_body(s, cloud).len() >= session_body(bare, cloud).len());
        } else {
            assert(session_body(s, cloud) =~= session_body(bare, cloud));
        }
    }
}

/// Detail is dropped in the fixed order: open files, recent changes, the events just before, the
/// memories.
pub proof fn law_drop_order(start: PackageView, dropped: Seq<DropStep>)
    requires
        drops_follow(start, dropped),
    ensures
        forall|i: int, j: int|
            0 <= i <= j < dropped.len() ==> drop_rank(#[trigger] dropped[i]) <= drop_rank(
                #[trigger] dropped[j],
            ),
    decreases dropped.len(),
{
    if dropped.len() > 1 {
        let n = dropped.len();
        let before = dropped.drop_last();
        assert(drops_follow(start, before)) by {
            assert forall|k: int| 0 <= k < before.len() implies Some(#[trigger] before[k])
                == next_drop(after_drops(start, k)) by {
                assert(before[k] == dropped[k]);
            }
        }
        law_drop_order(start, before);
        assert(Some(dropped[n - 1]) == next_drop(after_drops(start, n - 1)));
        assert(Some(dropped[n - 2]) == next_drop(after_drops(start, n - 2)));
        assert(after_drops(start, n - 1) == after_drop(after_drops(start, n - 2)));
        assert(drop_rank(dropped[n - 2]) <= drop_rank(dropped[n - 1]));
        assert forall|i: int, j: int| 0 <= i <= j < dropped.len() implies drop_rank(
            #[trigger] dropped[i],
        ) <= drop_rank(#[trigger] dropped[j]) by {
            if j == n - 1 && i < j {
                assert(dropped[i] == before[i]);
                assert(dropped[n - 2] == before[n - 2]);
                assert(drop_rank(before[i]) <= drop_rank(before[n - 2]));
            } else if i < j {
                assert(dropped[i] == before[i] && dropped[j] == before[j]);
            }
        }
    }
}

/// A package whose text is within the budget is never trimmed.
pub proof fn law_within_budget_untrimmed(start: PackageView, n: int, budget: PackageBudget)
    requires
        is_drop_count(start, n, budget),
        tokens_after(start, 0, budget) <= budget.token_budget,
    ensures
        n == 0,
{
    if n > 0 {
        assert(over_upto(start, n, budget));
        assert(tokens_after(start, 0, budget) > budget.token_budget);
    }
}

// ---------------------------------------------------------------------------
// What a cloud-bound text gives away
// ---------------------------------------------------------------------------

/// A package without anything that must stay on the machine: the private lines are gone, a
/// private moment says nothing, and of a private session it only remains whether there is a goal
/// and a task, and how sure the task is.
pub open spec fn redacted(p: PackageView) -> PackageView {
    PackageView {
        current_moment: match p.current_moment {
            Some(m) => Some(
                if m.local_only {
                    MomentView {
                        caption: Seq::empty(),
                        window_title: None,
                        app: None,
                        world_compact: None,
                        audio: None,
                        local_only: true,
                    }
                } else {
                    m
                },
            ),
            None => None,
        },
        session: match p.session {
            Some(s) => Some(
                if s.local_only {
                    SessionView {
                        project: None,
                        goal: match s.goal {
                            Some(_) => Some(Seq::empty()),
                            None => None,
                        },
                        task: match s.task {
                            Some(_) => Some(Seq::empty()),
                            None => None,
                        },
                        confidence: s.confidence,
                        open_files: Seq::empty(),
                        local_only: true,
                    }
                } else {
                    s
                },
            ),
            None => None,
        },
        just_before: p.just_before.filter(|l: EventLine| !l.local_only),
        memories: p.memories.filter(|l: MemoryLine| !l.local_only),
        facts: p.facts.filter(|l: FactLine| !l.local_only),
        vault_notes: p.vault_notes.filter(|l: VaultNoteLine| !l.local_only),
        recent_changes: p.recent_changes.filter(|l: EventLine| !l.local_only),
        failed_attempts: p.failed_attempts.filter(|l: EventLine| !l.local_only),
        last_success: match p.last_success {
            Some(l) if !l.local_only => Some(l),
            _ => None,
        },
        recommended_next_step: match p.recommended_next_step {
            Some(n) if !n.local_only => Some(n),
            _ => None,
        },
        pending_decisions: p.pending_decisions.filter(|l: PendingDecisionLine| !l.local_only),
        why_woken: match p.why_woken {
            Some(r) if p.why_woken_local_only && r.len() > 0 => Some(seq![' ']),
            other => other,
        },
        ..p
    }
}

/// A cloud-bound text is the text of the redacted package: nothing that must stay on the machine
/// has any bearing on it.
pub proof fn law_cloud_text_is_redacted(p: PackageView, tools_cap: int)
    ensures
        package_text(p, true, tools_cap) == package_text(redacted(p), true, tools_cap),
        package_sections(p, true) == package_sections(redacted(p), true),
{
    lemma_redacted(p, 13, tools_cap);
}

proof fn lemma_redacted(p: PackageView, n: int, tools_cap: int)
    requires
        0 <= n <= 13,
    ensures
        text_upto(p, n, true, tools_cap) == text_upto(redacted(p), n, true, tools_cap),
        sections_upto(p, n, true) == sections_upto(redacted(p), n, true),
    decreases n,
{
    if n > 0 {
        lemma_redacted(p, n - 1, tools_cap);
        lemma_section_redacted(p, section_at(n - 1), tools_cap);
    }
}

proof fn lemma_section_redacted(p: PackageView, section: PackageSection, tools_cap: int)
    ensures
        section_text(p, section, true, tools_cap) == section_text(
            redacted(p),
            section,
            true,
            tools_cap,
        ),
        section_shown(p, section, true) == section_shown(redacted(p), section, true),
{
    match section {
        PackageSection::Session => {
            if let Some(s) = p.session {
                let t = redacted(p).session->0;
                assert(session_body(s, true) =~= session_body(t, true));
                if s.local_only && t.is_blank() {
                    assert(session_body(t, true) =~= Seq::<char>::empty());
                }
            }
        },
        PackageSection::JustBefore => lemma_events_redacted(p.just_before),
        PackageSection::RecentChanges => lemma_events_redacted(p.recent_changes),
        PackageSection::FailedAttempts => lemma_events_redacted(p.failed_attempts),
        PackageSection::Memories => lemma_memories_redacted(p.memories),
        PackageSection::Facts => lemma_facts_redacted(p.facts),
        PackageSection::VaultNotes => lemma_notes_redacted(p.vault_notes),
        PackageSection::PendingDecisions => lemma_pending_redacted(p.pending_decisions),
        _ => {},
    }
}

proof fn lemma_events_redacted(l: Seq<EventLine>)
    ensures
        event_items(l, true) == event_items(l.filter(|l: EventLine| !l.local_only), true),
        any_event(l, true) == any_event(l.filter(|l: EventLine| !l.local_only), true),
    decreases l.len(),
{
    reveal(Seq::filter);
    let f = |l: EventLine| !l.local_only;
    if l.len() > 0 {
        let b = l.drop_last();
        lemma_events_redacted(b);
        assert(l.filter(f) == if f(l.last()) { b.filter(f).push(l.last()) } else { b.filter(f) });
        assert(f(l.last()) ==> l.filter(f).drop_last() =~= b.filter(f));
        if any_event(l, true) {
            let i = choose|i: int| 0 <= i < l.len() && !(true && (#[trigger] l[i]).local_only);
            if i < b.len() {
                assert(b[i] == l[i]);
                let j = choose|j: int| 0 <= j < b.filter(f).len() && !(true && (#[trigger] b.filter(f)[j]).local_only);
                assert(l.filter(f)[j] == b.filter(f)[j]);
            } else {
                assert(l.filter(f)[l.filter(f).len() - 1] == l.last());
            }
        }
        if any_event(l.filter(f), true) {
            let j = choose|j: int| 0 <= j < l.filter(f).len() && !(true && (#[trigger] l.filter(f)[j]).local_only);
            if j < b.filter(f).len() {
                assert(b.filter(f)[j] == l.filter(f)[j]);
                let i = choose|i: int| 0 <= i < b.len() && !(true && (#[trigger] b[i]).local_only);
                assert(l[i] == b[i]);
            } else {
                assert(l[l.len() - 1] == l.last());
            }
        }
    }
}

proof fn lemma_memories_redacted(l: Seq<MemoryLine>)
    ensures
        memory_items(l, true) == memory_items(l.filter(|l: MemoryLine| !l.local_only), true),
        any_memory(l, true) == any_memory(l.filter(|l: MemoryLine| !l.local_only), true),
    decreases l.len(),
{
    reveal(Seq::filter);
    let f = |l: MemoryLine| !l.local_only;
    if l.len() > 0 {
        let b = l.drop_last();
        lemma_memories_redacted(b);
        assert(l.filter(f) == if f(l.last()) { b.filter(f).push(l.last()) } else { b.filter(f) });
        assert(f(l.last()) ==> l.filter(f).drop_last() =~= b.filter(f));
        if any_memory(l, true) {
            let i = choose|i: int| 0 <= i < l.len() && !(true && (#[trigger] l[i]).local_only);
            if i < b.len() {
                assert(b[i] == l[i]);
                let j = choose|j: int| 0 <= j < b.filter(f).len() && !(true && (#[trigger] b.filter(f)[j]).local_only);
                assert(l.filter(f)[j] == b.filter(f)[j]);
            } else {
                assert(l.filter(f)[l.filter(f).len() - 1] == l.last());
            }
        }
        if any_memory(l.filter(f), true) {
            let j = choose|j: int| 0 <= j < l.filter(f).len() && !(true && (#[trigger] l.filter(f)[j]).local_only);
            if j < b.filter(f).len() {
                assert(b.filter(f)[j] == l.filter(f)[j]);
                let i = choose|i: int| 0 <= i < b.len() && !(true && (#[trigger] b[i]).local_only);
                assert(l[i] == b[i]);
            } else {
                assert(l[l.len() - 1] == l.last());
            }
        }
    }
}

proof fn lemma_facts_redacted(l: Seq<FactLine>)
    ensures
        fact_items(l, true) == fact_items(l.filter(|l: FactLine| !l.local_only), true),
        any_fact(l, true) == any_fact(l.filter(|l: FactLine| !l.local_only), true),
    decreases l.len(),
{
    reveal(Seq::filter);
    let f = |l: FactLine| !l.local_only;
    if l.len() > 0 {
        let b = l.drop_last();
        lemma_facts_redacted(b);
        assert(l.filter(f) == if f(l.last()) { b.filter(f).push(l.last()) } else { b.filter(f) });
        assert(f(l.last()) ==> l.filter(f).drop_last() =~= b.filter(f));
        if any_fact(l, true) {
            let i = choose|i: int| 0 <= i < l.len() && !(true && (#[trigger] l[i]).local_only);
            if i < b.len() {
                assert(b[i] == l[i]);
                let j = choose|j: int| 0 <= j < b.filter(f).len() && !(true && (#[trigger] b.filter(f)[j]).local_only);
                assert(l.filter(f)[j] == b.filter(f)[j]);
            } else {
                assert(l.filter(f)[l.filter(f).len() - 1] == l.last());
            }
        }
        if any_fact(l.filter(f), true) {
            let j = choose|j: int| 0 <= j < l.filter(f).len() && !(true && (#[trigger] l.filter(f)[j]).local_only);
            if j < b.filter(f).len() {
                assert(b.filter(f)[j] == l.filter(f)[j]);
                let i = choose|i: int| 0 <= i < b.len() && !(true && (#[trigger] b[i]).local_only);
                assert(l[i] == b[i]);
            } else {
                assert(l[l.len() - 1] == l.last());
            }
        }
    }
}

proof fn lemma_notes_redacted(l: Seq<VaultNoteLine>)
    ensures
        note_items(l, true) == note_items(l.filter(|l: VaultNoteLine| !l.local_only), true),
        any_note(l, true) == any_note(l.filter(|l: VaultNoteLine| !l.local_only), true),
    decreases l.len(),
{
    reveal(Seq::filter);
    let f = |l: VaultNoteLine| !l.local_only;
    if l.len() > 0 {
        let b = l.drop_last();
        lemma_notes_redacted(b);
        assert(l.filter(f) == if f(l.last()) { b.filter(f).push(l.last()) } else { b.filter(f) });
        assert(f(l.last()) ==> l.filter(f).drop_last() =~= b.filter(f));
        if any_note(l, true) {
            let i = choose|i: int| 0 <= i < l.len() && !(true && (#[trigger] l[i]).local_only);
            if i < b.len() {
                assert(b[i] == l[i]);
                let j = choose|j: int| 0 <= j < b.filter(f).len() && !(true && (#[trigger] b.filter(f)[j]).local_only);
                assert(l.filter(f)[j] == b.filter(f)[j]);
            } else {
                assert(l.filter(f)[l.filter(f).len() - 1] == l.last());
            }
        }
        if any_note(l.filter(f), true) {
            let j = choose|j: int| 0 <= j < l.filter(f).len() && !(true && (#[trigger] l.filter(f)[j]).local_only);
            if j < b.filter(f).len() {
                assert(b.filter(f)[j] == l.filter(f)[j]);
                let i = choose|i: int| 0 <= i < b.len() && !(true && (#[trigger] b[i]).local_only);
                assert(l[i] == b[i]);
            } else {
                assert(l[l.len() - 1] == l.last());
            }
        }
    }
}

proof fn lemma_pending_redacted(l: Seq<PendingDecisionLine>)
    ensures
        pending_items(l, true) == pending_items(
            l.filter(|l: PendingDecisionLine| !l.local_only),
            true,
        ),
        any_pending(l, true) == any_pending(
            l.filter(|l: PendingDecisionLine| !l.local_only),
            true,
        ),
    decreases l.len(),
{
    reveal(Seq::filter);
    let f = |l: PendingDecisionLine| !l.local_only;
    if l.len() > 0 {
        let b = l.drop_last();
        lemma_pending_redacted(b);
        assert(l.filter(f) == if f(l.last()) { b.filter(f).push(l.last()) } else { b.filter(f) });
        assert(f(l.last()) ==> l.filter(f).drop_last() =~= b.filter(f));
        if any_pending(l, true) {
            let i = choose|i: int| 0 <= i < l.len() && !(true && (#[trigger] l[i]).local_only);
            if i < b.len() {
                assert(b[i] == l[i]);
                let j = choose|j: int| 0 <= j < b.filter(f).len() && !(true && (#[trigger] b.filter(f)[j]).local_only);
                assert(l.filter(f)[j] == b.filter(f)[j]);
            } else {
                assert(l.filter(f)[l.filter(f).len() - 1] == l.last());
            }
        }
        if any_pending(l.filter(f), true) {
            let j = choose|j: int| 0 <= j < l.filter(f).len() && !(true && (#[trigger] l.filter(f)[j]).local_only);
            if j < b.filter(f).len() {
                assert(b.filter(f)[j] == l.filter(f)[j]);
                let i = choose|i: int| 0 <= i < b.len() && !(true && (#[trigger] b[i]).local_only);
                assert(l[i] == b[i]);
            } else {
                assert(l[l.len() - 1] == l.last());
            }
        }
    }
}

} // verus!
