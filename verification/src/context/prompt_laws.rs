//! What a rendering within a budget keeps of a package: the sections that are not lists, the caps on
//! those that are, what may be dropped and in which order, and what is always there.
use vstd::prelude::*;
#[allow(unused_imports)]
use crate::context::content_laws::{
    fact_line, law_facts_are_shown, law_failed_attempts_are_shown, law_notes_are_shown,
    law_pending_decisions_are_shown, law_text_holds_sections, lemma_shows, lemma_shows_within,
    note_line, pending_line, event_line, shows,
};
#[allow(unused_imports)]
use crate::context::package::{
    after_drop, after_drops, default_caps, labelled, moment_text, next_drop, package_text,
    section_shown, section_text, session_body, session_shown, tokens_after, with_caps_applied,
    DropStep, MomentView, PackageBudget, PackageSection, PackageView, RenderOutcome, SectionCaps,
    SessionView,
};
#[allow(unused_imports)]
use crate::context::render::{is_drop_count, is_rendering, is_report};
#[allow(unused_imports)]
use crate::ratio::ratio_text;
#[allow(unused_imports)]
use crate::text::{byte_len, decimal, ends_with, joined, shortened_bytes};

verus! {

// ---------------------------------------------------------------------------
// Sections that are not lists
// ---------------------------------------------------------------------------

proof fn lemma_in_text(
    p: PackageView,
    section: PackageSection,
    cloud: bool,
    tools_cap: int,
    a: Seq<char>,
    part: Seq<char>,
    b: Seq<char>,
)
    requires
        section_text(p, section, cloud, tools_cap) =~= a + part + b,
    ensures
        shows(package_text(p, cloud, tools_cap), part),
{
    law_text_holds_sections(p, section, cloud, tools_cap);
    lemma_shows(a, part, b);
    lemma_shows_within(
        package_text(p, cloud, tools_cap),
        section_text(p, section, cloud, tools_cap),
        part,
    );
}

/// The current moment is in the text with everything that is known of it, each on a line of its own.
/// Of one that must stay on the machine a reader in the cloud learns nothing but that there is one.
pub proof fn law_moment_is_shown(p: PackageView, cloud: bool, tools_cap: int)
    requires
        p.current_moment is Some,
    ensures
        ({
            let m = p.current_moment->0;
            let text = package_text(p, cloud, tools_cap);
            if cloud && m.local_only {
                section_text(p, PackageSection::CurrentMoment, cloud, tools_cap)
                    == "## Current moment\n"@ + ("Screen: "@ + "[private]"@ + "\n"@)
            } else {
                &&& shows(text, "Screen: "@ + m.caption + "\n"@)
                &&& m.window_title matches Some(s) ==> s.len() > 0 ==> shows(
                    text,
                    "Window: "@ + s + "\n"@,
                )
                &&& m.app matches Some(s) ==> s.len() > 0 ==> shows(text, "App: "@ + s + "\n"@)
                &&& m.audio matches Some(s) ==> s.len() > 0 ==> shows(
                    text,
                    "Audio: \""@ + s + "\"\n"@,
                )
                &&& m.world_compact matches Some(s) ==> s.len() > 0 ==> shows(
                    text,
                    "World state:\n"@ + s,
                )
            }
        }),
{
    let m = p.current_moment->0;
    if !(cloud && m.local_only) {
        let all = section_text(p, PackageSection::CurrentMoment, cloud, tools_cap);
        let text = package_text(p, cloud, tools_cap);
        lemma_moment_parts(m);
        law_text_holds_sections(p, PackageSection::CurrentMoment, cloud, tools_cap);
        lemma_shows_within(text, all, "Screen: "@ + m.caption + "\n"@);
        lemma_shows_within(text, all, labelled("Window: "@, m.window_title, "\n"@));
        lemma_shows_within(text, all, labelled("App: "@, m.app, "\n"@));
        lemma_shows_within(text, all, labelled("Audio: \""@, m.audio, "\"\n"@));
        lemma_shows_within(text, all, labelled("World state:\n"@, m.world_compact, Seq::empty()));
        if m.world_compact is Some {
            let w = "World state:\n"@ + m.world_compact->0;
            assert(w + Seq::<char>::empty() =~= w);
        }
    }
}

/// What the section on the current moment holds for a reader who may see it.
proof fn lemma_moment_parts(m: MomentView)
    ensures
        forall|cloud: bool| #![trigger moment_text(m, cloud)] !(cloud && m.local_only) ==> {
            &&& shows(moment_text(m, cloud), "Screen: "@ + m.caption + "\n"@)
            &&& shows(moment_text(m, cloud), labelled("Window: "@, m.window_title, "\n"@))
            &&& shows(moment_text(m, cloud), labelled("App: "@, m.app, "\n"@))
            &&& shows(moment_text(m, cloud), labelled("Audio: \""@, m.audio, "\"\n"@))
            &&& shows(
                moment_text(m, cloud),
                labelled("World state:\n"@, m.world_compact, Seq::empty()),
            )
        },
{
    let h = "## Current moment\n"@;
    let s = "Screen: "@ + m.caption + "\n"@;
    let w = labelled("Window: "@, m.window_title, "\n"@);
    let a = labelled("App: "@, m.app, "\n"@);
    let u = labelled("Audio: \""@, m.audio, "\"\n"@);
    let d = labelled("World state:\n"@, m.world_compact, Seq::empty());
    let e = if m.world_compact is Some && m.world_compact->0.len() > 0 && !ends_with(
        m.world_compact->0,
        "\n"@,
    ) {
        "\n"@
    } else {
        Seq::<char>::empty()
    };
    lemma_each_shown(h, s, w, a, u, d, e);
    assert forall|cloud: bool| #![trigger moment_text(m, cloud)] !(cloud && m.local_only) implies moment_text(
        m,
        cloud,
    ) == h + s + w + a + u + d + e by {
        assert(moment_text(m, cloud) =~= h + s + w + a + u + d + e);
    }
}

proof fn lemma_each_shown(
    h: Seq<char>,
    s: Seq<char>,
    w: Seq<char>,
    a: Seq<char>,
    u: Seq<char>,
    d: Seq<char>,
    e: Seq<char>,
)
    ensures
        shows(h + s + w + a + u + d + e, s),
        shows(h + s + w + a + u + d + e, w),
        shows(h + s + w + a + u + d + e, a),
        shows(h + s + w + a + u + d + e, u),
        shows(h + s + w + a + u + d + e, d),
{
    let all = h + s + w + a + u + d + e;
    assert(all =~= h + s + (w + a + u + d + e));
    assert(all =~= (h + s) + w + (a + u + d + e));
    assert(all =~= (h + s + w) + a + (u + d + e));
    assert(all =~= (h + s + w + a) + u + (d + e));
}

/// The session is in the text with its project, its goal, its task and how sure that is, and its open
/// files. Of one that must stay on the machine a reader in the cloud only learns that there is a goal
/// or a task.
pub proof fn law_session_is_shown(p: PackageView, cloud: bool, tools_cap: int)
    requires
        p.session is Some,
    ensures
        ({
            let s = p.session->0;
            let text = package_text(p, cloud, tools_cap);
            let sure = " (confidence "@ + ratio_text(s.confidence) + ")\n"@;
            if cloud && s.local_only {
                &&& s.goal is Some ==> shows(text, "Goal: "@ + "working in a private context"@ + "\n"@)
                &&& s.task is Some ==> shows(text, "Task: "@ + "working in a private context"@ + sure)
            } else {
                &&& s.project matches Some(x) ==> x.len() > 0 ==> shows(
                    text,
                    "Project: "@ + x + "\n"@,
                )
                &&& s.goal matches Some(x) ==> x.len() > 0 ==> shows(text, "Goal: "@ + x + "\n"@)
                &&& s.task matches Some(x) ==> x.len() > 0 ==> shows(text, "Task: "@ + x + sure)
                &&& s.open_files.len() > 0 ==> shows(
                    text,
                    "Open files: "@ + joined(s.open_files, ", "@) + "\n"@,
                )
            }
        }),
{
    reveal_strlit("working in a private context");
    reveal_strlit("Project: ");
    reveal_strlit("Goal: ");
    reveal_strlit("Task: ");
    reveal_strlit("Open files: ");
    let s = p.session->0;
    let hide = cloud && s.local_only;
    let phrase = "working in a private context"@;
    let sure = " (confidence "@ + ratio_text(s.confidence) + ")\n"@;
    let h = "\n## Session state\n"@;
    let a = labelled(
        "Project: "@,
        if hide {
            None
        } else {
            s.project
        },
        "\n"@,
    );
    let g = labelled(
        "Goal: "@,
        if hide && s.goal is Some {
            Some(phrase)
        } else {
            s.goal
        },
        "\n"@,
    );
    let t = labelled(
        "Task: "@,
        if hide && s.task is Some {
            Some(phrase)
        } else {
            s.task
        },
        sure,
    );
    let f = if !hide && s.open_files.len() > 0 {
        "Open files: "@ + joined(s.open_files, ", "@) + "\n"@
    } else {
        Seq::empty()
    };
    let body = session_body(s, cloud);
    assert(body =~= a + g + t + f);
    if s.is_blank() {
        assert(body.len() == 0);
    }
    if session_shown(p.session, cloud) {
        let all = section_text(p, PackageSection::Session, cloud, tools_cap);
        assert(all =~= h + a + g + t + f);
        lemma_in_text(p, PackageSection::Session, cloud, tools_cap, h, a, g + t + f);
        lemma_in_text(p, PackageSection::Session, cloud, tools_cap, h + a, g, t + f);
        lemma_in_text(p, PackageSection::Session, cloud, tools_cap, h + a + g, t, f);
        assert(h + a + g + t + f =~= h + a + g + t + f + Seq::<char>::empty());
        lemma_in_text(p, PackageSection::Session, cloud, tools_cap, h + a + g + t, f, Seq::empty());
    } else {
        assert(body.len() == 0);
        assert(a.len() == 0 && g.len() == 0 && t.len() == 0 && f.len() == 0);
    }
}

/// The last success, the recommended next step and the wake reason are in the text with their
/// content where the reader may see them. For a wake reason that must stay on the machine a general
/// one stands.
pub proof fn law_single_lines_are_shown(p: PackageView, cloud: bool, tools_cap: int)
    ensures
        p.last_success matches Some(l) ==> !(cloud && l.local_only) ==> shows(
            package_text(p, cloud, tools_cap),
            "\n## Last success\n"@ + event_line(l),
        ),
        p.recommended_next_step matches Some(n) ==> n.text@.len() > 0 && !(cloud && n.local_only)
            ==> shows(
            package_text(p, cloud, tools_cap),
            "\n## Recommended next step\n"@ + n.text@ + " (confidence "@ + ratio_text(
                n.confidence as int,
            ) + ")\n"@,
        ),
        p.why_woken matches Some(w) ==> w.len() > 0 ==> shows(
            package_text(p, cloud, tools_cap),
            "\n## Why you were woken\n"@ + (if cloud && p.why_woken_local_only {
                "user activity in a private context"@
            } else {
                w
            }) + "\n"@,
        ),
{
    let none = Seq::<char>::empty();
    let l = section_text(p, PackageSection::LastSuccess, cloud, tools_cap);
    let n = section_text(p, PackageSection::RecommendedNextStep, cloud, tools_cap);
    let w = section_text(p, PackageSection::WhyWoken, cloud, tools_cap);
    assert(l =~= none + l + none && n =~= none + n + none && w =~= none + w + none);
    lemma_in_text(p, PackageSection::LastSuccess, cloud, tools_cap, none, l, none);
    lemma_in_text(p, PackageSection::RecommendedNextStep, cloud, tools_cap, none, n, none);
    lemma_in_text(p, PackageSection::WhyWoken, cloud, tools_cap, none, w, none);
    if let Some(e) = p.last_success {
        if !(cloud && e.local_only) {
            assert(l =~= "\n## Last success\n"@ + event_line(e));
        }
    }
}

pub proof fn lemma_joined_shows(parts: Seq<Seq<char>>, sep: Seq<char>, i: int)
    requires
        0 <= i < parts.len(),
    ensures
        shows(joined(parts, sep), parts[i]),
    decreases parts.len(),
{
    let none = Seq::<char>::empty();
    if parts.len() == 1 {
        assert(joined(parts, sep) =~= none + parts[i] + none);
    } else {
        let f = joined(parts.drop_last(), sep);
        if i < parts.len() - 1 {
            lemma_joined_shows(parts.drop_last(), sep, i);
            assert(joined(parts, sep) =~= none + f + (sep + parts.last()));
            lemma_shows(none, f, sep + parts.last());
            lemma_shows_within(joined(parts, sep), f, parts[i]);
        } else {
            assert(joined(parts, sep) =~= (f + sep) + parts[i] + none);
        }
    }
}

/// The tools are in the text by name, up to the cap and at least one; where there are more, it says
/// how many. The permission mode is there where it is given.
pub proof fn law_tools_are_shown(p: PackageView, cloud: bool, tools_cap: int, i: int)
    requires
        p.tools is Some,
        0 <= i < p.tools->0.names.len(),
        i == 0 || i < tools_cap,
    ensures
        shows(package_text(p, cloud, tools_cap), p.tools->0.names[i]),
        p.tools->0.names.len() > tools_cap >= 1 ==> shows(
            package_text(p, cloud, tools_cap),
            ", +"@ + decimal(p.tools->0.names.len() - tools_cap) + " more"@,
        ),
        p.tools->0.permission_mode.len() > 0 ==> shows(
            package_text(p, cloud, tools_cap),
            "Permission mode: "@ + p.tools->0.permission_mode + "\n"@,
        ),
{
    let t = p.tools->0;
    let none = Seq::<char>::empty();
    let cap = if tools_cap < 1 {
        1
    } else {
        tools_cap
    };
    let names = if t.names.len() > cap {
        t.names.take(cap)
    } else {
        t.names
    };
    let h = "\n## Available tools\n"@;
    let list = joined(names, ", "@);
    let more = if t.names.len() > cap {
        ", +"@ + decimal(t.names.len() - cap) + " more"@
    } else {
        none
    };
    let mode = labelled("Permission mode: "@, Some(t.permission_mode), "\n"@);
    let all = section_text(p, PackageSection::Tools, cloud, tools_cap);
    assert(all =~= h + list + more + "\n"@ + mode);
    assert(all =~= h + list + (more + "\n"@ + mode));
    lemma_in_text(p, PackageSection::Tools, cloud, tools_cap, h, list, more + "\n"@ + mode);
    lemma_joined_shows(names, ", "@, i);
    lemma_shows_within(package_text(p, cloud, tools_cap), list, t.names[i]);
    assert(all =~= (h + list) + more + ("\n"@ + mode));
    lemma_in_text(p, PackageSection::Tools, cloud, tools_cap, h + list, more, "\n"@ + mode);
    assert(all =~= (h + list + more + "\n"@) + mode + none);
    lemma_in_text(p, PackageSection::Tools, cloud, tools_cap, h + list + more + "\n"@, mode, none);
}

// ---------------------------------------------------------------------------
// Caps and dropping
// ---------------------------------------------------------------------------

/// Whether `a` is `b`, or what `b` begins with where it has more than `n` items.
pub open spec fn first_of_list<A>(a: Seq<A>, b: Seq<A>, n: int) -> bool {
    &&& a.len() == (if b.len() <= n {
        b.len() as int
    } else {
        n
    })
    &&& forall|i: int| 0 <= i < a.len() ==> #[trigger] a[i] == b[i]
}

/// The caps leave the first items of each list, and everything else as it is; the description of the
/// world is shortened to its cap.
pub proof fn law_caps_keep_the_first(p: PackageView, caps: SectionCaps)
    ensures
        ({
            let c = with_caps_applied(p, caps);
            &&& first_of_list(c.just_before, p.just_before, caps.just_before as int)
            &&& first_of_list(c.memories, p.memories, caps.memories as int)
            &&& first_of_list(c.facts, p.facts, caps.facts as int)
            &&& first_of_list(c.vault_notes, p.vault_notes, caps.vault_notes as int)
            &&& first_of_list(c.recent_changes, p.recent_changes, caps.recent_changes as int)
            &&& first_of_list(c.failed_attempts, p.failed_attempts, caps.failed_attempts as int)
            &&& first_of_list(c.pending_decisions, p.pending_decisions, caps.pending_decisions as int)
            &&& c.last_success == p.last_success
            &&& c.tools == p.tools
            &&& c.recommended_next_step == p.recommended_next_step
            &&& c.why_woken == p.why_woken
            &&& c.why_woken_local_only == p.why_woken_local_only
            &&& c.session is Some == p.session is Some
            &&& p.session matches Some(s) ==> first_of_list(
                c.session->0.open_files,
                s.open_files,
                caps.open_files as int,
            ) && c.session->0.project == s.project && c.session->0.goal == s.goal
                && c.session->0.task == s.task && c.session->0.confidence == s.confidence
                && c.session->0.local_only == s.local_only
            &&& c.current_moment is Some == p.current_moment is Some
            &&& p.current_moment matches Some(m) ==> c.current_moment->0.caption == m.caption
                && c.current_moment->0.window_title == m.window_title && c.current_moment->0.app
                == m.app && c.current_moment->0.audio == m.audio && c.current_moment->0.local_only
                == m.local_only && (m.world_compact is None ==> c.current_moment->0.world_compact
                is None) && (m.world_compact matches Some(w) ==> c.current_moment->0.world_compact
                == Some(shortened_bytes(w, caps.world_compact_chars as int)))
        }),
{
}

/// Whether `a` is what `b` begins with.
pub open spec fn begins_list<A>(a: Seq<A>, b: Seq<A>) -> bool {
    a.len() <= b.len() && forall|i: int| 0 <= i < a.len() ==> #[trigger] a[i] == b[i]
}

/// What dropping can take away, and in which order. The open files go first and at once, then the
/// recent changes at once, then the events just before from the last one, then the memories from the
/// last one. Nothing goes before what comes earlier in that order is gone, and nothing else goes.
pub proof fn law_what_dropping_takes(p: PackageView, n: int)
    requires
        0 <= n,
    ensures
        ({
            let q = after_drops(p, n);
            let files_gone = q.session matches Some(s) ==> s.open_files.len() == 0;
            &&& q.current_moment == p.current_moment
            &&& q.facts == p.facts
            &&& q.vault_notes == p.vault_notes
            &&& q.failed_attempts == p.failed_attempts
            &&& q.last_success == p.last_success
            &&& q.tools == p.tools
            &&& q.recommended_next_step == p.recommended_next_step
            &&& q.pending_decisions == p.pending_decisions
            &&& q.why_woken == p.why_woken
            &&& q.why_woken_local_only == p.why_woken_local_only
            &&& q.session is Some == p.session is Some
            &&& p.session matches Some(s) ==> q.session->0 == s || q.session->0 == (SessionView {
                open_files: Seq::empty(),
                ..s
            })
            &&& q.recent_changes == p.recent_changes || (q.recent_changes.len() == 0 && files_gone)
            &&& begins_list(q.just_before, p.just_before)
            &&& q.just_before.len() < p.just_before.len() ==> q.recent_changes.len() == 0
                && files_gone
            &&& begins_list(q.memories, p.memories)
            &&& q.memories.len() < p.memories.len() ==> q.just_before.len() == 0
                && q.recent_changes.len() == 0 && files_gone
        }),
    decreases n,
{
    if n > 0 {
        law_what_dropping_takes(p, n - 1);
    }
}

/// Each step of dropping takes something, and dropping goes on for as long as there is something to
/// take.
pub proof fn law_dropping_goes_on(p: PackageView)
    ensures
        next_drop(p) is None <==> (p.session matches Some(s) ==> s.open_files.len() == 0)
            && p.recent_changes.len() == 0 && p.just_before.len() == 0 && p.memories.len() == 0,
        next_drop(p) matches Some(d) ==> ({
            let q = after_drop(p);
            match d {
                DropStep::OpenFiles => p.session is Some && p.session->0.open_files.len() > 0
                    && q.session->0.open_files.len() == 0,
                DropStep::RecentChanges => p.recent_changes.len() > 0 && q.recent_changes.len() == 0,
                DropStep::JustBeforeTail => q.just_before.len() == p.just_before.len() - 1,
                DropStep::MemoriesTail => q.memories.len() == p.memories.len() - 1,
            }
        }),
{
}

// ---------------------------------------------------------------------------
// Rendering within a budget
// ---------------------------------------------------------------------------

/// Whatever the budget is, a rendering shows every fact, note, failed attempt and pending decision up
/// to the caps that the reader may see, and the last success, the next step, the wake reason and the
/// caption of the current moment.
pub proof fn law_rendering_keeps_what_matters(text: Seq<char>, p: PackageView, budget: PackageBudget)
    requires
        is_rendering(text, p, budget),
    ensures
        forall|i: int|
            0 <= i < p.facts.len() && i < budget.caps.facts && !(budget.cloud_bound && (
            #[trigger] p.facts[i]).local_only) ==> shows(text, fact_line(p.facts[i])),
        forall|i: int|
            0 <= i < p.vault_notes.len() && i < budget.caps.vault_notes && !(budget.cloud_bound && (
            #[trigger] p.vault_notes[i]).local_only) ==> shows(text, note_line(p.vault_notes[i])),
        forall|i: int|
            0 <= i < p.failed_attempts.len() && i < budget.caps.failed_attempts && !(
            budget.cloud_bound && (#[trigger] p.failed_attempts[i]).local_only) ==> shows(
                text,
                event_line(p.failed_attempts[i]),
            ),
        forall|i: int|
            0 <= i < p.pending_decisions.len() && i < budget.caps.pending_decisions && !(
            budget.cloud_bound && (#[trigger] p.pending_decisions[i]).local_only) ==> shows(
                text,
                pending_line(p.pending_decisions[i]),
            ),
        p.last_success matches Some(l) ==> !(budget.cloud_bound && l.local_only) ==> shows(
            text,
            event_line(l),
        ),
        p.recommended_next_step matches Some(s) ==> s.text@.len() > 0 && !(budget.cloud_bound
            && s.local_only) ==> shows(text, s.text@),
        p.why_woken matches Some(w) ==> w.len() > 0 && !(budget.cloud_bound
            && p.why_woken_local_only) ==> shows(text, w),
        p.current_moment matches Some(m) ==> !(budget.cloud_bound && m.local_only) ==> shows(
            text,
            "Screen: "@ + m.caption + "\n"@,
        ),
{
    let start = with_caps_applied(p, budget.caps);
    let n = choose|n: int|
        is_drop_count(start, n, budget) && text == package_text(
            #[trigger] after_drops(start, n),
            budget.cloud_bound,
            budget.caps.tools as int,
        );
    let q = after_drops(start, n);
    let cloud = budget.cloud_bound;
    let cap = budget.caps.tools as int;
    law_what_dropping_takes(start, n);
    law_caps_keep_the_first(p, budget.caps);
    assert forall|i: int|
        0 <= i < p.facts.len() && i < budget.caps.facts && !(cloud && (
        #[trigger] p.facts[i]).local_only) implies shows(text, fact_line(p.facts[i])) by {
        assert(q.facts[i] == p.facts[i]);
        law_facts_are_shown(q, i, cloud, cap);
    }
    assert forall|i: int|
        0 <= i < p.vault_notes.len() && i < budget.caps.vault_notes && !(cloud && (
        #[trigger] p.vault_notes[i]).local_only) implies shows(text, note_line(p.vault_notes[i])) by {
        assert(q.vault_notes[i] == p.vault_notes[i]);
        law_notes_are_shown(q, i, cloud, cap);
    }
    assert forall|i: int|
        0 <= i < p.failed_attempts.len() && i < budget.caps.failed_attempts && !(cloud && (
        #[trigger] p.failed_attempts[i]).local_only) implies shows(
        text,
        event_line(p.failed_attempts[i]),
    ) by {
        assert(q.failed_attempts[i] == p.failed_attempts[i]);
        law_failed_attempts_are_shown(q, i, cloud, cap);
    }
    assert forall|i: int|
        0 <= i < p.pending_decisions.len() && i < budget.caps.pending_decisions && !(cloud && (
        #[trigger] p.pending_decisions[i]).local_only) implies shows(
        text,
        pending_line(p.pending_decisions[i]),
    ) by {
        assert(q.pending_decisions[i] == p.pending_decisions[i]);
        law_pending_decisions_are_shown(q, i, cloud, cap);
    }
    law_single_lines_are_shown(q, cloud, cap);
    let none = Seq::<char>::empty();
    if let Some(l) = p.last_success {
        if !(cloud && l.local_only) {
            let h = "\n## Last success\n"@;
            assert(h + event_line(l) =~= h + event_line(l) + none);
            lemma_shows(h, event_line(l), none);
            lemma_shows_within(text, h + event_line(l), event_line(l));
        }
    }
    if let Some(s) = p.recommended_next_step {
        if s.text@.len() > 0 && !(cloud && s.local_only) {
            let h = "\n## Recommended next step\n"@;
            let t = " (confidence "@ + ratio_text(s.confidence as int) + ")\n"@;
            let whole = h + s.text@ + " (confidence "@ + ratio_text(s.confidence as int) + ")\n"@;
            assert(whole =~= h + s.text@ + t);
            lemma_shows(h, s.text@, t);
            lemma_shows_within(text, whole, s.text@);
        }
    }
    if let Some(w) = p.why_woken {
        if w.len() > 0 && !(cloud && p.why_woken_local_only) {
            let h = "\n## Why you were woken\n"@;
            lemma_shows(h, w, "\n"@);
            lemma_shows_within(text, h + w + "\n"@, w);
        }
    }
    if p.current_moment is Some {
        law_moment_is_shown(q, cloud, cap);
    }
}

/// A rendering is within the budget, or it holds nothing any more that may be dropped: no open files,
/// no recent changes, no events just before and no memories. Three and a half bytes are a token,
/// rounded up.
pub proof fn law_rendering_meets_the_budget(p: PackageView, n: int, budget: PackageBudget)
    requires
        is_drop_count(p, n, budget),
    ensures
        ({
            let q = after_drops(p, n);
            let bytes = byte_len(package_text(q, budget.cloud_bound, budget.caps.tools as int));
            ||| 2 * bytes <= 7 * budget.token_budget
            ||| (q.session matches Some(s) ==> s.open_files.len() == 0) && q.recent_changes.len() == 0
                && q.just_before.len() == 0 && q.memories.len() == 0
        }),
        forall|k: int|
            #![trigger after_drops(p, k)]
            0 <= k < n ==> 2 * byte_len(
                package_text(after_drops(p, k), budget.cloud_bound, budget.caps.tools as int),
            ) > 7 * budget.token_budget,
{
    assert forall|k: int| #![trigger after_drops(p, k)] 0 <= k < n implies 2 * byte_len(
        package_text(after_drops(p, k), budget.cloud_bound, budget.caps.tools as int),
    ) > 7 * budget.token_budget by {
        assert(tokens_after(p, k, budget) > budget.token_budget);
    }
}

/// A section is reported exactly where the text shows something of it.
pub proof fn law_reported_sections_have_text(
    p: PackageView,
    section: PackageSection,
    cloud: bool,
    tools_cap: int,
)
    ensures
        section_shown(p, section, cloud) <==> section_text(p, section, cloud, tools_cap).len() > 0,
{
    reveal_strlit("## Current moment\n");
    reveal_strlit("\n## Session state\n");
    reveal_strlit("## Just before");
    reveal_strlit("\n## Relevant memories\n");
    reveal_strlit("\n## What you know about the user\n");
    reveal_strlit("\n## Long-term memory (vault)\n");
    reveal_strlit("\n## Recent changes");
    reveal_strlit("\n## Failed attempts");
    reveal_strlit("\n## Last success\n");
    reveal_strlit("\n## Available tools\n");
    reveal_strlit("\n## Recommended next step\n");
    reveal_strlit("\n## Pending memory decisions\n");
    reveal_strlit("\n## Why you were woken\n");
}

/// The caps that hold unless others are given.
pub proof fn law_default_caps()
    ensures
        ({
            let c = default_caps();
            c.just_before == 5 && c.memories == 3 && c.facts == 8 && c.vault_notes == 5
                && c.pending_decisions == 5 && c.recent_changes == 5 && c.failed_attempts == 3
                && c.open_files == 5 && c.tools == 12 && c.world_compact_chars == 1_200
        }),
{
}

/// A report tells the truth about its text: how many tokens it takes, three and a half bytes to each and
/// rounded up, and whether that is over the budget. Where it is, nothing that may be dropped is left;
/// where nothing was dropped, the text is that of the package up to the caps.
pub proof fn law_report_is_true(r: RenderOutcome, p: PackageView, budget: PackageBudget)
    requires
        is_report(r, p, budget),
    ensures
        is_rendering(r.text@, p, budget),
        7 * r.tokens >= 2 * byte_len(r.text@) > 7 * (r.tokens - 1),
        r.over_budget <==> r.tokens > budget.token_budget,
        r.dropped@.len() == 0 ==> r.text@ == package_text(
            with_caps_applied(p, budget.caps),
            budget.cloud_bound,
            budget.caps.tools as int,
        ),
        r.over_budget ==> ({
            let q = after_drops(with_caps_applied(p, budget.caps), r.dropped@.len() as int);
            (q.session matches Some(s) ==> s.open_files.len() == 0) && q.recent_changes.len() == 0
                && q.just_before.len() == 0 && q.memories.len() == 0
        }),
        forall|section: PackageSection| #[trigger]
            r.sections@.contains(section) ==> section_text(
                after_drops(with_caps_applied(p, budget.caps), r.dropped@.len() as int),
                section,
                budget.cloud_bound,
                budget.caps.tools as int,
            ).len() > 0,
{
    let start = with_caps_applied(p, budget.caps);
    let n = r.dropped@.len() as int;
    let q = after_drops(start, n);
    assert(tokens_after(start, n, budget) == r.tokens);
    assert forall|section: PackageSection| #[trigger] r.sections@.contains(section) implies section_text(
        q,
        section,
        budget.cloud_bound,
        budget.caps.tools as int,
    ).len() > 0 by {
        crate::context::render_laws::law_section_listed(q, section, budget.cloud_bound);
        law_reported_sections_have_text(
            q,
            section,
            budget.cloud_bound,
            budget.caps.tools as int,
        );
    }
}

} // verus!
