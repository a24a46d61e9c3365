//! What becomes of what the user asks for: projects, corrections, rules, deletions, and that no
//! request is lost or carried out twice.
use vstd::prelude::*;
#[allow(unused_imports)]
use crate::context::apply::{
    audit_kind_of, correction_error, correction_note, corrected_outcome, excluded_outcome, flag_at,
    is_project_answer, number_at, option_at, pinned_outcome, scope_of, text_at, toggle_outcome,
};
#[allow(unused_imports)]
use crate::context::deletion::{
    after_answer, comes_from, forgotten_outcome, range_outcome, ForgetCascade, RangeAnswer,
    RangeDeletion, RangeRung,
};
#[allow(unused_imports)]
use crate::context::intents::{
    file_name_of, fresh_intents, history, ids_of, lemma_history, names_intent, only_intents,
    seen_after_all, seen_in_order, ContextAction, ContextIntent, SessionField, ToggleName,
};
#[allow(unused_imports)]
use crate::context::project::{OverrideRule, ProjectEntry, ProjectStatus};
#[allow(unused_imports)]
use crate::context::slug::{is_first_free, is_slug, slug_of, slug_try};
#[allow(unused_imports)]
use crate::note::{NodeStatus, NodeType, Sensitivity, Source};
#[allow(unused_imports)]
use crate::text::{opt_view, trimmed, views};

verus! {

// ---------------------------------------------------------------------------
// Requests
// ---------------------------------------------------------------------------

/// Every request that has not been seen is handed on, as it came, and nothing else is.
pub proof fn law_unseen_intents_are_handed_on(
    seen: Seq<Seq<char>>,
    intents: Seq<ContextIntent>,
    i: int,
)
    requires
        seen_in_order(seen),
        0 <= i < intents.len(),
    ensures
        !seen.contains(intents[i].id@) ==> exists|k: int|
            0 <= k < fresh_intents(seen, intents).len() && (#[trigger] fresh_intents(
                seen,
                intents,
            )[k]).id@ == intents[i].id@,
        forall|k: int|
            0 <= k < fresh_intents(seen, intents).len() ==> intents.contains(
                #[trigger] fresh_intents(seen, intents)[k],
            ),
    decreases intents.len(),
{
    let b = intents.drop_last();
    let f = fresh_intents(seen, b);
    let n = fresh_intents(seen, intents);
    let last = intents.last();
    lemma_handed_on_came(seen, intents);
    if !seen.contains(intents[i].id@) {
        if i < b.len() {
            law_unseen_intents_are_handed_on(seen, b, i);
            assert(b[i] == intents[i]);
            let k = choose|k: int| 0 <= k < f.len() && (#[trigger] f[k]).id@ == b[i].id@;
            assert(n[k] == f[k]);
        } else if seen_after_all(seen, b).contains(last.id@) {
            lemma_history(seen, b);
            let h = history(seen, b);
            let s = seen_after_all(seen, b);
            let j = choose|j: int| 0 <= j < s.len() && s[j] == last.id@;
            let m = j + (h.len() - s.len());
            assert(h[m] == last.id@);
            if m < seen.len() {
                assert(seen[m] == last.id@);
            } else {
                let k = m - seen.len();
                assert(ids_of(f)[k] == f[k].id@);
                assert(n[k] == f[k]);
            }
        } else {
            assert(n[n.len() - 1] == last);
        }
    }
}

proof fn lemma_handed_on_came(seen: Seq<Seq<char>>, intents: Seq<ContextIntent>)
    ensures
        forall|k: int|
            0 <= k < fresh_intents(seen, intents).len() ==> intents.contains(
                #[trigger] fresh_intents(seen, intents)[k],
            ),
    decreases intents.len(),
{
    if intents.len() > 0 {
        let b = intents.drop_last();
        lemma_handed_on_came(seen, b);
        let f = fresh_intents(seen, b);
        let n = fresh_intents(seen, intents);
        assert forall|k: int| 0 <= k < n.len() implies intents.contains(#[trigger] n[k]) by {
            if k < f.len() {
                assert(n[k] == f[k]);
                assert(b.contains(f[k]));
                let j = choose|j: int| 0 <= j < b.len() && b[j] == f[k];
                assert(intents[j] == f[k]);
            } else {
                assert(intents[intents.len() - 1] == n[k]);
            }
        }
    }
}

/// A request that has been seen among the last five hundred and twelve is not handed on again.
pub proof fn law_seen_intents_are_not_handed_on(seen: Seq<Seq<char>>, intent: ContextIntent)
    requires
        seen_in_order(seen),
    ensures
        seen.contains(intent.id@) ==> fresh_intents(seen, seq![intent]).len() == 0
            && seen_after_all(seen, seq![intent]) == seen,
        !seen.contains(intent.id@) ==> fresh_intents(seen, seq![intent]) == seq![intent],
        !seen.contains(intent.id@) && seen.len() < 512 ==> seen_after_all(seen, seq![intent])
            == seen.push(intent.id@),
        !seen.contains(intent.id@) && seen.len() == 512 ==> seen_after_all(seen, seq![intent])
            == seen.subrange(1, 512).push(intent.id@),
{
    let one = seq![intent];
    assert(one.drop_last() =~= Seq::<ContextIntent>::empty());
    assert(one.last() == intent);
    assert(fresh_intents(seen, one.drop_last()) =~= Seq::<ContextIntent>::empty());
    assert(seen_after_all(seen, one.drop_last()) == seen);
    if !seen.contains(intent.id@) {
        assert(fresh_intents(seen, one) =~= one);
    }
    if seen.len() == 512 {
        assert(seen.drop_first() =~= seen.subrange(1, 512));
    }
}

/// The files that are read are those whose name ends in `.json` with something before it.
pub proof fn law_which_files_are_read(names: Seq<Seq<char>>)
    ensures
        only_intents(names) == names.filter(
            |n: Seq<char>| n.len() > 5 && n.subrange(n.len() - 5, n.len() as int) == ".json"@,
        ),
    decreases names.len(),
{
    reveal(Seq::filter);
    reveal_strlit(".json");
    if names.len() > 0 {
        law_which_files_are_read(names.drop_last());
        let n = names.last();
        if n.len() > 5 {
            assert(n.skip(n.len() - 5) =~= n.subrange(n.len() - 5, n.len() as int));
        }
    }
}

/// The file of a request is read, and is named after its time, its kind and the first eight
/// characters of its id.
pub proof fn law_file_of_a_request(stamp: Seq<char>, kind: Seq<char>, id: Seq<char>)
    requires
        8 <= id.len(),
    ensures
        file_name_of(stamp, kind, id) == stamp + "-"@ + kind + "-"@ + id.subrange(0, 8) + ".json"@,
        names_intent(file_name_of(stamp, kind, id)),
{
    reveal_strlit(".json");
    reveal_strlit("-");
    assert(id.take(8) =~= id.subrange(0, 8));
    let n = file_name_of(stamp, kind, id);
    assert(n.skip(n.len() - 5) =~= ".json"@);
}

/// Deletions, switches and commands are written down as such; everything else is a correction.
pub proof fn law_audit_kinds(action: ContextAction)
    ensures
        action is SetToggle ==> audit_kind_of(action) == "toggle_change"@,
        action is Forget || action is DeleteRange ==> audit_kind_of(action) == "deletion"@,
        action is RecordUserCommand ==> audit_kind_of(action) == "user_command"@,
        action is AddProject || action is ConfirmProject || action is Correct
            || action is NotThisProject || action is Pin ==> audit_kind_of(action) == "correction"@,
{
}

// ---------------------------------------------------------------------------
// Projects and rules
// ---------------------------------------------------------------------------

/// A project is accepted exactly where it has a name and an absolute path. It then has that name and
/// that path, without white space around them, counts at once, and has an id that is valid: the one
/// that was given where that is one, else one that is not taken.
pub proof fn law_project_is_added(
    r: Result<ProjectEntry, String>,
    name: Seq<char>,
    root: Seq<char>,
    id: Option<Seq<char>>,
    taken: Seq<Seq<char>>,
    absolute: bool,
)
    requires
        is_project_answer(r, name, root, id, taken, absolute),
    ensures
        r is Ok <==> trimmed(name).len() > 0 && trimmed(root).len() > 0 && absolute,
        r matches Ok(p) ==> {
            &&& p.name@ == trimmed(name)
            &&& p.root_paths@.len() == 1 && p.root_paths@[0]@ == trimmed(root)
            &&& p.status == ProjectStatus::Confirmed
            &&& p.keywords@.len() == 0
            &&& id is Some && is_slug(id->0) ==> p.id@ == id->0
            &&& !(id is Some && is_slug(id->0)) ==> !taken.contains(p.id@)
            &&& !(id is Some && is_slug(id->0)) && !taken.contains(
                slug_of(
                    if id is Some {
                        id->0
                    } else {
                        trimmed(name)
                    },
                ),
            ) ==> p.id@ == slug_of(
                if id is Some {
                    id->0
                } else {
                    trimmed(name)
                },
            )
        },
{
    if let Ok(p) = r {
        let v = views(p.root_paths@);
        assert(v.len() == p.root_paths@.len());
        assert(v[0] == trimmed(root));
        assert(v[0] == p.root_paths@[0]@);
        if !(id is Some && is_slug(id->0)) {
            let base = slug_of(
                if id is Some {
                    id->0
                } else {
                    trimmed(name)
                },
            );
            let n = choose|n: int|
                is_first_free(base, n, taken) && p.id@ == #[trigger] slug_try(base, n);
            if n > 1 {
                assert(taken.contains(slug_try(base, 1)));
            }
        }
    }
}

/// What a rule is about: what the user named, without white space around it; else the application in
/// front, unless that must not be observed. There is no rule about nothing.
pub proof fn law_what_a_rule_is_about(
    app: Option<Seq<char>>,
    process: Option<Seq<char>>,
    title: Option<Seq<char>>,
)
    ensures
        ({
            let p = process is Some && trimmed(process->0).len() > 0;
            let t = title is Some && trimmed(title->0).len() > 0;
            let a = app is Some && app->0.len() > 0 && app->0 != "[excluded]"@;
            let r = scope_of(app, process, title);
            &&& r is Some <==> p || t || a
            &&& p ==> r is Some && (r->0).0 == Some(trimmed(process->0))
            &&& t ==> r is Some && (r->0).1 == Some(trimmed(title->0))
            &&& !p && t ==> (r->0).0 is None
            &&& p && !t ==> (r->0).1 is None
            &&& !p && !t && a ==> r == Some((app, None::<Seq<char>>))
        }),
{
}

/// A correction is refused where it says nothing, and where it names a project by something that is
/// no id; otherwise it is accepted.
pub proof fn law_when_a_correction_is_refused(field: SessionField, value: Seq<char>)
    ensures
        correction_error(field, value) is Some <==> trimmed(value).len() == 0 || (field
            == SessionField::Project && !is_slug(trimmed(value))),
{
}

/// The note of a correction says which field was corrected and to what, for the project in which that
/// was done, and counts at once as what the user said.
pub proof fn law_correction_leaves_a_note(
    field: SessionField,
    value: Seq<char>,
    project: Option<Seq<char>>,
    local_only: bool,
)
    ensures
        ({
            let d = correction_note(field, value, project, local_only);
            let name = match field {
                SessionField::Project => "project"@,
                SessionField::Goal => "goal"@,
                SessionField::Task => "task"@,
            };
            &&& d.title == "User corrected "@ + name
            &&& d.body == "The user corrected Continuum's belief about the current "@ + name
                + " to \""@ + value + "\" from the Context page."@
            &&& d.project == project
            &&& d.node_type == NodeType::Preference && d.status == NodeStatus::Confirmed && d.source
                == Source::UserStatement
            &&& d.confidence == 1_000_000 && d.importance == 600_000
            &&& d.source_ref == Some("context-page:correct:"@ + name)
            &&& (d.sensitivity == Sensitivity::Sensitive) == local_only
            &&& (d.sensitivity == Sensitivity::Normal) == !local_only
        }),
{
}

/// What is reported says whether something changed, and of what.
pub proof fn law_reports_say_what_changed(
    name: ToggleName,
    value: bool,
    changed: bool,
    field: SessionField,
    told_value: Seq<char>,
    rule: OverrideRule,
)
    ensures
        toggle_outcome(name, value, changed).applied == changed,
        toggle_outcome(name, value, changed).details[1] == flag_at("value"@, value),
        pinned_outcome(field, told_value).applied,
        pinned_outcome(field, told_value).details[1] == text_at("value"@, told_value),
        corrected_outcome(field, told_value, true, None).details[1] == text_at("value"@, told_value),
        excluded_outcome(rule).applied,
        excluded_outcome(rule).details[0] == text_at("project_id"@, rule.project_id@),
        excluded_outcome(rule).details[1] == option_at(
            "match_process"@,
            opt_view(rule.match_process),
        ),
        excluded_outcome(rule).details[2] == option_at(
            "match_title_substring"@,
            opt_view(rule.match_title_substring),
        ),
{
}

// ---------------------------------------------------------------------------
// Deletions
// ---------------------------------------------------------------------------

/// A note comes from a frame exactly where it refers to it by its id.
pub proof fn law_notes_of_frames(source_ref: Option<Seq<char>>, frames: Seq<Seq<char>>)
    ensures
        comes_from(source_ref, frames) <==> source_ref is Some && exists|i: int|
            0 <= i < frames.len() && source_ref->0 == "triage:frame:"@ + #[trigger] frames[i],
{
    if comes_from(source_ref, frames) {
        let i = choose|i: int|
            0 <= i < frames.len() && source_ref->0 == crate::context::deletion::frame_ref(
                #[trigger] frames[i],
            );
        assert(source_ref->0 == "triage:frame:"@ + frames[i]);
    }
    if source_ref is Some && exists|i: int|
        0 <= i < frames.len() && source_ref->0 == "triage:frame:"@ + #[trigger] frames[i] {
        let i = choose|i: int|
            0 <= i < frames.len() && source_ref->0 == "triage:frame:"@ + #[trigger] frames[i];
        assert(source_ref->0 == crate::context::deletion::frame_ref(frames[i]));
    }
}

/// Deleting a span of time goes through all stores in order, and counts what each of them deleted. The
/// ids of the frames are known before the frames are gone. A store that fails counts for nothing and
/// stops nothing, unless it is the one with the frames.
pub proof fn law_span_is_deleted_everywhere(
    d: RangeDeletion,
    memories: RangeAnswer,
    ids: Vec<String>,
    frames: u64,
    events: u64,
    screenshots: u64,
    candidates: RangeAnswer,
)
    requires
        d.rung == RangeRung::Memories,
    ensures
        ({
            let one = after_answer(d, memories);
            let two = after_answer(one, RangeAnswer::Ids(ids));
            let three = after_answer(two, RangeAnswer::Purged { frames, events, screenshots });
            let end = after_answer(three, candidates);
            &&& one.rung == RangeRung::FrameIds && two.rung == RangeRung::Purge && three.rung
                == RangeRung::Candidates && end.rung == RangeRung::Finished
            &&& two.frame_ids == ids && three.frame_ids == ids
            &&& end.from == d.from && end.to == d.to
            &&& end.frames == frames && end.events == events && end.screenshots == screenshots
            &&& memories matches RangeAnswer::Deleted(n) ==> end.memories == n
            &&& memories is Failed ==> end.memories == 0
            &&& candidates matches RangeAnswer::Deleted(n) ==> end.candidates == n
            &&& candidates is Failed ==> end.candidates == 0
        }),
{
}

/// A deletion of a span stays where it is while the frames cannot be deleted, and no note is looked
/// for where the ids of the frames could not be read.
pub proof fn law_failed_purge_gets_no_further(d: RangeDeletion, e: String)
    ensures
        d.rung == RangeRung::Purge ==> after_answer(d, RangeAnswer::Failed(e)) == d,
        d.rung == RangeRung::FrameIds ==> after_answer(d, RangeAnswer::Failed(e)).frame_ids
            == d.frame_ids && after_answer(d, RangeAnswer::Failed(e)).rung == RangeRung::Purge,
{
}

/// A report of a deletion gives the counts of what was deleted, each under its own name.
pub proof fn law_deletions_are_reported(c: ForgetCascade, d: RangeDeletion)
    ensures
        ({
            let l = forgotten_outcome(c).details;
            &&& l.len() == 6
            &&& l[0] == text_at("raw_reference"@, c.reference@)
            &&& l[1] == number_at("events"@, c.events as int)
            &&& l[2] == number_at("frames"@, c.frames as int)
            &&& l[3] == number_at("screenshots"@, c.screenshots as int)
            &&& l[4] == number_at("episodic"@, c.memories as int)
            &&& l[5] == number_at("candidates"@, c.candidates as int)
        }),
        ({
            let l = range_outcome(d).details;
            &&& l.len() == 7
            &&& l[2] == number_at("frames"@, d.frames as int)
            &&& l[3] == number_at("events"@, d.events as int)
            &&& l[4] == number_at("screenshots"@, d.screenshots as int)
            &&& l[5] == number_at("episodic"@, d.memories as int)
            &&& l[6] == number_at("candidates"@, d.candidates as int)
        }),
{
}

} // verus!
