//! What an answer about the past holds, stated over the rows it was made from.
use vstd::prelude::*;
#[allow(unused_imports)]
use crate::context::sensitivity::EventSensitivity;
#[allow(unused_imports)]
use crate::context::temporal::{
    admitted, applications_of, continues, first_flaw, grouped, has_reference, in_order, is_answer,
    is_outcome, known_partial, last_flaw, main_project, most_frequent, occurrences, outside_count,
    past, private_count, projects_of, row_before, session_of, sessions_of, ContextCompleteness,
    Flaw, TemporalContext, TemporalError, TemporalInputProvenance, TemporalObservation,
    TemporalScope,
};
#[allow(unused_imports)]
use crate::context::temporal_laws::{
    law_nothing_private_is_shown, law_ordering_keeps_rows, law_sessions_divide_rows,
    law_sessions_have_no_gaps, regrouped,
};
#[allow(unused_imports)]
use crate::sorted::{law_sorted_set, sorted_set};
#[allow(unused_imports)]
use crate::text::{opt_view, trimmed};

verus! {

/// A request is refused where the time between sessions is negative, where the span that is asked
/// for is the wrong way round, and otherwise only for a row that is not as it must be. An answer is
/// only given on rows that all have a reference of their own, a confidence between nought and one, an
/// end that is not before the beginning and not more than two minutes ahead of the clock.
pub proof fn law_only_sound_rows_are_answered_on(
    r: Result<TemporalContext, TemporalError>,
    rows: Seq<TemporalObservation>,
    scope: TemporalScope,
    p: TemporalInputProvenance,
    gap: int,
    now: int,
)
    requires
        is_outcome(r, rows, scope, p, gap, now),
    ensures
        r is Ok <==> {
            &&& gap >= 0
            &&& scope.since is Some && scope.until is Some ==> scope.since->0.nanos
                <= scope.until->0.nanos
            &&& forall|i: int|
                0 <= i < rows.len() ==> {
                    let row = #[trigger] rows[i];
                    &&& trimmed(row.source_reference@).len() > 0
                    &&& row.confidence is Some && 0 <= row.confidence->0 <= 1_000_000
                    &&& row.started_at.nanos <= row.ended_at.nanos
                    &&& row.ended_at.nanos <= now + 120_000_000_000
                }
            &&& forall|i: int, j: int|
                0 <= i < j < rows.len() ==> (#[trigger] rows[i]).source_reference@ != (
                #[trigger] rows[j]).source_reference@
        },
        gap < 0 ==> r == Err::<TemporalContext, TemporalError>(TemporalError::NegativeSessionGap),
        gap >= 0 && scope.since is Some && scope.until is Some && scope.since->0.nanos
            > scope.until->0.nanos ==> r == Err::<TemporalContext, TemporalError>(
            TemporalError::InvalidScope,
        ),
{
    lemma_sound_rows(rows, now);
}

/// No row has a flaw exactly where each is as it must be.
proof fn lemma_sound_rows(rows: Seq<TemporalObservation>, now: int)
    ensures
        first_flaw(rows, now) is None <==> {
            &&& forall|i: int|
                0 <= i < rows.len() ==> {
                    let row = #[trigger] rows[i];
                    &&& trimmed(row.source_reference@).len() > 0
                    &&& row.confidence is Some && 0 <= row.confidence->0 <= 1_000_000
                    &&& row.started_at.nanos <= row.ended_at.nanos
                    &&& row.ended_at.nanos <= now + 120_000_000_000
                }
            &&& forall|i: int, j: int|
                0 <= i < j < rows.len() ==> (#[trigger] rows[i]).source_reference@ != (
                #[trigger] rows[j]).source_reference@
        },
    decreases rows.len(),
{
    if rows.len() > 0 {
        let b = rows.drop_last();
        let n = rows.len() - 1;
        lemma_sound_rows(b, now);
        assert(forall|i: int| 0 <= i < b.len() ==> #[trigger] b[i] == rows[i]);
        assert(rows.last() == rows[n]);
        if first_flaw(b, now) is None {
            if last_flaw(rows, now) is None {
                assert forall|i: int, j: int| 0 <= i < j < rows.len() implies (
                #[trigger] rows[i]).source_reference@ != (#[trigger] rows[j]).source_reference@ by {
                    assert(b[i] == rows[i]);
                    if j < n {
                        assert(b[j] == rows[j]);
                    }
                }
                assert forall|i: int| 0 <= i < rows.len() implies ({
                    let row = #[trigger] rows[i];
                    &&& trimmed(row.source_reference@).len() > 0
                    &&& row.confidence is Some && 0 <= row.confidence->0 <= 1_000_000
                    &&& row.started_at.nanos <= row.ended_at.nanos
                    &&& row.ended_at.nanos <= now + 120_000_000_000
                }) by {
                    if i < n {
                        assert(b[i] == rows[i]);
                    }
                }
            } else if last_flaw(rows, now) == Some(Flaw::DuplicateReference) {
                let i = choose|i: int|
                    0 <= i < b.len() && (#[trigger] b[i]).source_reference@
                        == rows[n].source_reference@;
                assert(rows[i].source_reference@ == rows[n].source_reference@);
            }
        } else {
            if forall|i: int, j: int|
                0 <= i < j < rows.len() ==> (#[trigger] rows[i]).source_reference@ != (
                #[trigger] rows[j]).source_reference@ {
                assert forall|i: int, j: int| 0 <= i < j < b.len() implies (
                #[trigger] b[i]).source_reference@ != (#[trigger] b[j]).source_reference@ by {
                    assert(rows[i].source_reference@ != rows[j].source_reference@);
                }
            }
        }
    }
}

/// Nothing is shown or concluded from but what was asked for: every row that an answer shows was
/// among the rows, may leave the machine, does not end before the span that was asked for, does not
/// begin after it, and is of the project that was asked for.
pub proof fn law_answer_keeps_to_the_scope(
    a: TemporalContext,
    rows: Seq<TemporalObservation>,
    scope: TemporalScope,
    p: TemporalInputProvenance,
    gap: int,
    k: int,
    j: int,
)
    requires
        is_answer(a, rows, scope, p, gap),
        0 <= k < a.sessions@.len(),
        0 <= j < a.sessions@[k].evidence@.len(),
    ensures
        rows.contains(a.sessions@[k].evidence@[j]),
        a.sessions@[k].evidence@[j].sensitivity == EventSensitivity::CloudAllowed,
        scope.since matches Some(t) ==> a.sessions@[k].evidence@[j].ended_at.nanos >= t.nanos,
        scope.until matches Some(t) ==> a.sessions@[k].evidence@[j].started_at.nanos <= t.nanos,
        scope.project matches Some(q) ==> (a.sessions@[k].evidence@[j].project matches Some(x) && x@
            == q@),
{
    assert(past(a.sessions@)[k] == a.sessions@[k]@);
    law_nothing_private_is_shown(rows, scope, gap, known_partial(p, scope), k, j);
}

/// A row that may leave the machine and was asked for.
pub open spec fn asked_for(scope: TemporalScope) -> spec_fn(TemporalObservation) -> bool {
    |r: TemporalObservation|
        r.sensitivity == EventSensitivity::CloudAllowed && (scope.since is None
            || scope.since->0.nanos <= r.ended_at.nanos) && (scope.until is None
            || r.started_at.nanos <= scope.until->0.nanos) && (scope.project is None || (
        r.project is Some && r.project->0@ == scope.project->0@))
}

/// The rows that get in are those that were asked for and may leave the machine, and no others.
pub proof fn law_rows_that_get_in(rows: Seq<TemporalObservation>, scope: TemporalScope)
    ensures
        admitted(rows, scope) == rows.filter(asked_for(scope)),
        private_count(rows) == rows.filter(
            |r: TemporalObservation| r.sensitivity != EventSensitivity::CloudAllowed,
        ).len(),
        outside_count(rows, scope) == rows.len() - private_count(rows) - rows.filter(
            asked_for(scope),
        ).len(),
    decreases rows.len(),
{
    reveal(Seq::filter);
    if rows.len() > 0 {
        law_rows_that_get_in(rows.drop_last(), scope);
        let r = rows.last();
        assert(opt_view(r.project) == (match r.project {
            Some(x) => Some(x@),
            None => None,
        }));
    }
}

/// What an answer counts. Of the rows it got it counts those that must stay on the machine and those
/// that were not asked for, and every other row is in a session.
pub proof fn law_answer_counts_rows(
    a: TemporalContext,
    rows: Seq<TemporalObservation>,
    scope: TemporalScope,
    p: TemporalInputProvenance,
    gap: int,
)
    requires
        is_answer(a, rows, scope, p, gap),
    ensures
        a.omitted_private == rows.filter(
            |r: TemporalObservation| r.sensitivity != EventSensitivity::CloudAllowed,
        ).len(),
        a.omitted_out_of_scope == rows.len() - a.omitted_private - rows.filter(
            asked_for(scope),
        ).len(),
        a.sessions@.len() == 0 <==> rows.filter(asked_for(scope)).len() == 0,
        a.provenance.requested_since == scope.since,
        a.provenance.requested_until == scope.until,
{
    law_rows_that_get_in(rows, scope);
    let kept = admitted(rows, scope);
    law_ordering_keeps_rows(kept);
    law_sessions_divide_rows(in_order(kept), gap);
    assert(in_order(kept).len() == kept.len()) by {
        broadcast use vstd::seq_lib::group_to_multiset_ensures;

        assert(in_order(kept).to_multiset().len() == kept.to_multiset().len());
    }
    assert(past(a.sessions@).len() == a.sessions@.len());
    let g = grouped(in_order(kept), gap);
    if g.len() > 0 {
        assert(g[g.len() - 1].len() > 0);
        assert(regrouped(g).len() >= g.last().len());
    }
}

/// An answer is marked incomplete where the store gave as many rows as it gives at most, or keeps
/// nothing of the beginning of what was asked for, or a session shows fewer rows than it has.
pub proof fn law_incomplete_answers_are_marked(
    a: TemporalContext,
    rows: Seq<TemporalObservation>,
    scope: TemporalScope,
    p: TemporalInputProvenance,
    gap: int,
)
    requires
        is_answer(a, rows, scope, p, gap),
    ensures
        p.source_limit_reached ==> a.completeness == ContextCompleteness::Partial,
        p.retention_floor is Some && scope.since is Some && p.retention_floor->0.nanos
            > scope.since->0.nanos ==> a.completeness == ContextCompleteness::Partial,
        forall|k: int|
            0 <= k < a.sessions@.len() && (#[trigger] a.sessions@[k]).dropped_evidence > 0
                ==> a.completeness == ContextCompleteness::Partial && a.sessions@[k].completeness
                == ContextCompleteness::Partial,
        !p.source_limit_reached && !(p.retention_floor is Some && scope.since is Some
            && p.retention_floor->0.nanos > scope.since->0.nanos) && (forall|k: int|
            0 <= k < a.sessions@.len() ==> (#[trigger] a.sessions@[k]).dropped_evidence == 0)
            ==> a.completeness == ContextCompleteness::Complete,
{
    let cut = known_partial(p, scope);
    let l = sessions_of(rows, scope, gap, cut);
    assert(past(a.sessions@).len() == a.sessions@.len());
    assert forall|k: int| 0 <= k < a.sessions@.len() implies l[k] == (#[trigger] a.sessions@[k])@ by {
        assert(past(a.sessions@)[k] == a.sessions@[k]@);
    }
    if !cut && a.completeness == ContextCompleteness::Partial {
        let i = choose|i: int|
            0 <= i < l.len() && (#[trigger] l[i]).completeness == ContextCompleteness::Partial;
        assert(l[i] == a.sessions@[i]@);
        assert(a.sessions@[i].dropped_evidence > 0);
    }
}

// ---------------------------------------------------------------------------
// One session
// ---------------------------------------------------------------------------

/// The projects that rows name are those of the rows that name one.
pub proof fn lemma_projects(rows: Seq<TemporalObservation>, x: Seq<char>)
    ensures
        projects_of(rows).contains(x) <==> exists|i: int|
            0 <= i < rows.len() && (#[trigger] rows[i]).project is Some && rows[i].project->0@ == x,
    decreases rows.len(),
{
    if rows.len() > 0 {
        let b = rows.drop_last();
        let n = rows.len() - 1;
        lemma_projects(b, x);
        let f = projects_of(b);
        let l = projects_of(rows);
        if l.contains(x) {
            let i = choose|i: int| 0 <= i < l.len() && l[i] == x;
            if i < f.len() {
                assert(f[i] == x);
                let j = choose|j: int|
                    0 <= j < b.len() && (#[trigger] b[j]).project is Some && b[j].project->0@ == x;
                assert(rows[j] == b[j]);
            } else {
                assert(rows[n].project->0@ == x);
            }
        }
        if exists|i: int|
            0 <= i < rows.len() && (#[trigger] rows[i]).project is Some && rows[i].project->0@ == x {
            let i = choose|i: int|
                0 <= i < rows.len() && (#[trigger] rows[i]).project is Some && rows[i].project->0@
                    == x;
            if i < n {
                assert(b[i] == rows[i]);
                assert(f.contains(x));
                let j = choose|j: int| 0 <= j < f.len() && f[j] == x;
                assert(l[j] == x);
            } else {
                assert(l[l.len() - 1] == x);
            }
        }
    }
}

proof fn lemma_most_frequent(names: Seq<Seq<char>>, l: Seq<Seq<char>>)
    ensures
        match most_frequent(names, l) {
            Some(p) => names.contains(p) && (forall|i: int|
                0 <= i < names.len() ==> occurrences(l, #[trigger] names[i]) <= occurrences(l, p))
                && (exists|i: int|
                0 <= i < names.len() && #[trigger] names[i] == p && forall|j: int|
                    0 <= j < i ==> occurrences(l, #[trigger] names[j]) < occurrences(l, p)),
            None => names.len() == 0,
        },
    decreases names.len(),
{
    if names.len() > 0 {
        let b = names.drop_last();
        let n = names.len() - 1;
        lemma_most_frequent(b, l);
        assert(forall|i: int| 0 <= i < n ==> #[trigger] b[i] == names[i]);
        assert(names[n] == names.last());
        match most_frequent(b, l) {
            Some(p) => {
                let i = choose|i: int|
                    0 <= i < b.len() && #[trigger] b[i] == p && forall|j: int|
                        0 <= j < i ==> occurrences(l, #[trigger] b[j]) < occurrences(l, p);
                assert(names[i] == p);
                let q = most_frequent(names, l)->0;
                assert forall|i: int| 0 <= i < names.len() implies occurrences(
                    l,
                    #[trigger] names[i],
                ) <= occurrences(l, q) by {
                    if i < n {
                        assert(occurrences(l, b[i]) <= occurrences(l, p));
                    }
                }
                if q == p && occurrences(l, names.last()) <= occurrences(l, p) {
                    assert forall|j: int| 0 <= j < i implies occurrences(l, #[trigger] names[j])
                        < occurrences(l, p) by {
                        assert(occurrences(l, b[j]) < occurrences(l, p));
                    }
                } else {
                    assert forall|j: int| 0 <= j < n implies occurrences(l, #[trigger] names[j])
                        < occurrences(l, q) by {
                        assert(occurrences(l, b[j]) <= occurrences(l, p));
                    }
                }
            },
            None => {},
        }
    }
}

/// The main project of some rows is named by one of them, and none is named more often. There is one
/// as soon as any row names a project.
pub proof fn law_main_project(rows: Seq<TemporalObservation>)
    ensures
        main_project(rows) is Some <==> exists|i: int|
            0 <= i < rows.len() && (#[trigger] rows[i]).project is Some,
        main_project(rows) matches Some(p) ==> exists|i: int|
            0 <= i < rows.len() && (#[trigger] rows[i]).project is Some && rows[i].project->0@ == p,
        main_project(rows) matches Some(p) ==> forall|i: int|
            #![trigger rows[i]]
            0 <= i < rows.len() && rows[i].project is Some ==> named_by(rows, rows[i].project->0@)
                <= named_by(rows, p),
{
    let l = projects_of(rows);
    let names = sorted_set(l);
    law_sorted_set(l);
    lemma_most_frequent(names, l);
    if let Some(p) = main_project(rows) {
        assert(l.contains(p));
        lemma_projects(rows, p);
        lemma_named_by(rows, p);
        assert forall|i: int| #![trigger rows[i]] 0 <= i < rows.len() && rows[i].project is Some implies named_by(
            rows,
            rows[i].project->0@,
        ) <= named_by(rows, p) by {
            let x = rows[i].project->0@;
            lemma_projects(rows, x);
            lemma_named_by(rows, x);
            assert(names.contains(x));
            let j = choose|j: int| 0 <= j < names.len() && names[j] == x;
            assert(occurrences(l, names[j]) <= occurrences(l, p));
        }
    }
    if exists|i: int| 0 <= i < rows.len() && (#[trigger] rows[i]).project is Some {
        let i = choose|i: int| 0 <= i < rows.len() && (#[trigger] rows[i]).project is Some;
        lemma_projects(rows, rows[i].project->0@);
        assert(names.contains(rows[i].project->0@));
    }
}

/// How many rows name the project `x`.
pub open spec fn named_by(rows: Seq<TemporalObservation>, x: Seq<char>) -> nat {
    rows.filter(|r: TemporalObservation| r.project is Some && r.project->0@ == x).len()
}

proof fn lemma_named_by(rows: Seq<TemporalObservation>, x: Seq<char>)
    ensures
        occurrences(projects_of(rows), x) == named_by(rows, x),
    decreases rows.len(),
{
    reveal(Seq::filter);
    if rows.len() > 0 {
        lemma_named_by(rows.drop_last(), x);
        let l = projects_of(rows);
        if rows.last().project is Some {
            assert(l.drop_last() == projects_of(rows.drop_last()));
        }
    }
}

/// Whether the rows of a session name one project at most.
pub open spec fn of_one_project(rows: Seq<TemporalObservation>) -> bool {
    forall|i: int, j: int|
        0 <= i < rows.len() && 0 <= j < rows.len() && (#[trigger] rows[i]).project is Some && (
        #[trigger] rows[j]).project is Some ==> rows[i].project->0@ == rows[j].project->0@
}

/// All rows of a session that name a project name the same, and that is the project of the session.
pub proof fn law_session_has_one_project(rows: Seq<TemporalObservation>, gap: int, k: int)
    requires
        0 <= k < grouped(rows, gap).len(),
    ensures
        of_one_project(grouped(rows, gap)[k]),
        forall|i: int|
            0 <= i < grouped(rows, gap)[k].len() && (#[trigger] grouped(rows, gap)[k][i]).project
                is Some ==> session_of(grouped(rows, gap)[k]).project == Some(
                grouped(rows, gap)[k][i].project->0@,
            ),
        session_of(grouped(rows, gap)[k]).project is Some ==> exists|i: int|
            0 <= i < grouped(rows, gap)[k].len() && (#[trigger] grouped(rows, gap)[k][i]).project
                is Some,
    decreases rows.len(),
{
    let n = grouped(rows, gap);
    if rows.len() > 0 {
        let b = rows.drop_last();
        let g = grouped(b, gap);
        let r = rows.last();
        if k < g.len() && n[k] == g[k] {
            law_session_has_one_project(b, gap, k);
        } else if g.len() > 0 && continues(g.last(), r, gap) {
            law_session_has_one_project(b, gap, k);
            law_main_project(g[k]);
            assert(n[k] == g[k].push(r));
            assert forall|i: int, j: int|
                0 <= i < n[k].len() && 0 <= j < n[k].len() && (#[trigger] n[k][i]).project is Some
                    && (#[trigger] n[k][j]).project is Some implies n[k][i].project->0@
                == n[k][j].project->0@ by {
                if i < g[k].len() {
                    assert(g[k][i] == n[k][i]);
                }
                if j < g[k].len() {
                    assert(g[k][j] == n[k][j]);
                }
            }
        }
    }
    let s = n[k];
    law_main_project(s);
    assert forall|i: int| 0 <= i < s.len() && (#[trigger] s[i]).project is Some implies session_of(
        s,
    ).project == Some(s[i].project->0@) by {
        let p = main_project(s)->0;
        let j = choose|j: int|
            0 <= j < s.len() && (#[trigger] s[j]).project is Some && s[j].project->0@ == p;
        assert(s[i].project->0@ == s[j].project->0@);
    }
}

/// A new session begins only for a reason: its first row begins more than the allowed time after the
/// last row of the session before it has ended, or names another project than that session.
pub proof fn law_sessions_are_apart(rows: Seq<TemporalObservation>, gap: int, k: int)
    requires
        0 < k < grouped(rows, gap).len(),
    ensures
        ({
            let before = grouped(rows, gap)[k - 1];
            let next = grouped(rows, gap)[k];
            &&& before.len() > 0 && next.len() > 0
            &&& {
                ||| next[0].started_at.nanos - before.last().ended_at.nanos > gap
                ||| next[0].project is Some && session_of(before).project is Some
                    && next[0].project->0@ != session_of(before).project->0
            }
        }),
    decreases rows.len(),
{
    let n = grouped(rows, gap);
    law_sessions_divide_rows(rows, gap);
    assert(n[k - 1].len() > 0 && n[k].len() > 0);
    if rows.len() > 0 {
        let b = rows.drop_last();
        let g = grouped(b, gap);
        let r = rows.last();
        if g.len() > 0 && continues(g.last(), r, gap) {
            law_sessions_are_apart(b, gap, k);
            assert(n[k - 1] == g[k - 1]);
            law_sessions_divide_rows(b, gap);
            assert(g[k].len() > 0);
            assert(n[k][0] == g[k][0]);
        } else if k < g.len() {
            law_sessions_are_apart(b, gap, k);
            assert(n[k - 1] == g[k - 1] && n[k] == g[k]);
        } else {
            assert(n[k - 1] == g.last());
        }
    }
}

/// A session spans its rows from the first to the last, shows the last thirty-two of them at most,
/// and says how many it leaves out.
pub proof fn law_session_spans_its_rows(rows: Seq<TemporalObservation>)
    requires
        rows.len() > 0,
    ensures
        session_of(rows).started_at == rows[0].started_at,
        session_of(rows).updated_at == rows[rows.len() - 1].ended_at,
        rows.len() <= 32 ==> session_of(rows).evidence == rows && session_of(rows).dropped_evidence
            == 0,
        rows.len() > 32 ==> session_of(rows).evidence == rows.subrange(
            rows.len() - 32,
            rows.len() as int,
        ) && session_of(rows).dropped_evidence == rows.len() - 32,
        (session_of(rows).completeness == ContextCompleteness::Partial) <==> rows.len() > 32,
{
    assert(rows.skip(0) =~= rows);
    if rows.len() > 32 {
        assert(rows.skip(rows.len() - 32) =~= rows.subrange(rows.len() - 32, rows.len() as int));
    }
}

/// The rows of an answer stand in the order of time: none begins before one that stands ahead of it,
/// and of two that begin together the one that ends first stands first.
pub proof fn law_rows_stand_in_time(rows: Seq<TemporalObservation>, i: int, j: int)
    requires
        0 <= i < j < in_order(rows).len(),
    ensures
        in_order(rows)[i].started_at.nanos <= in_order(rows)[j].started_at.nanos,
        in_order(rows)[i].started_at.nanos == in_order(rows)[j].started_at.nanos ==> in_order(
            rows,
        )[i].ended_at.nanos <= in_order(rows)[j].ended_at.nanos,
{
    law_ordering_keeps_rows(rows);
    assert(!row_before(in_order(rows)[j], in_order(rows)[i]));
}

/// Where an answer comes from: it says what was asked for, what the store said of itself, and when the
/// rows that got in begin; none of them begins earlier.
pub proof fn law_answer_names_its_origin(
    a: TemporalContext,
    rows: Seq<TemporalObservation>,
    scope: TemporalScope,
    p: TemporalInputProvenance,
    gap: int,
)
    requires
        is_answer(a, rows, scope, p, gap),
    ensures
        a.provenance.source_limit_reached == p.source_limit_reached,
        a.provenance.retention_floor == p.retention_floor,
        a.provenance.privacy_policy_generation@ == p.privacy_policy_generation@,
        opt_view(a.provenance.source_high_water) == opt_view(p.source_high_water),
        a.provenance.observed_oldest is Some <==> rows.filter(asked_for(scope)).len() > 0,
        a.provenance.observed_newest is Some <==> rows.filter(asked_for(scope)).len() > 0,
        forall|r: TemporalObservation| #[trigger]
            rows.contains(r) && asked_for(scope)(r) ==> a.provenance.observed_oldest is Some
                && a.provenance.observed_oldest->0.nanos <= r.started_at.nanos,
        a.provenance.observed_oldest is Some ==> exists|i: int|
            0 <= i < rows.len() && asked_for(scope)(#[trigger] rows[i]) && rows[i].started_at
                == a.provenance.observed_oldest->0,
        a.provenance.observed_newest is Some ==> exists|i: int|
            0 <= i < rows.len() && asked_for(scope)(#[trigger] rows[i]) && rows[i].ended_at
                == a.provenance.observed_newest->0,
{
    let kept = admitted(rows, scope);
    let s = in_order(kept);
    let f = asked_for(scope);
    law_rows_that_get_in(rows, scope);
    law_ordering_keeps_rows(kept);
    assert(s.len() == kept.len()) by {
        broadcast use vstd::seq_lib::group_to_multiset_ensures;

        assert(s.to_multiset().len() == kept.to_multiset().len());
    }
    assert forall|r: TemporalObservation| s.contains(r) <==> kept.contains(r) by {
        vstd::seq_lib::to_multiset_contains(s, r);
        vstd::seq_lib::to_multiset_contains(kept, r);
    }
    assert forall|r: TemporalObservation| #[trigger] rows.contains(r) && f(r) implies
        a.provenance.observed_oldest is Some && a.provenance.observed_oldest->0.nanos
        <= r.started_at.nanos by {
        let i = choose|i: int| 0 <= i < rows.len() && rows[i] == r;
        rows.lemma_filter_contains(f, i);
        assert(kept.contains(r));
        assert(s.contains(r));
        let k = choose|k: int| 0 <= k < s.len() && s[k] == r;
        if k > 0 {
            law_rows_stand_in_time(kept, 0, k);
        }
    }
    if s.len() > 0 {
        let first = s[0];
        let last = s[s.len() - 1];
        assert(s.contains(first) && s.contains(last));
        assert(kept.contains(first) && kept.contains(last));
        lemma_got_in(rows, scope, first);
        lemma_got_in(rows, scope, last);
    }
}

proof fn lemma_got_in(rows: Seq<TemporalObservation>, scope: TemporalScope, r: TemporalObservation)
    requires
        rows.filter(asked_for(scope)).contains(r),
    ensures
        exists|i: int| 0 <= i < rows.len() && asked_for(scope)(#[trigger] rows[i]) && rows[i] == r,
{
    let f = asked_for(scope);
    let l = rows.filter(f);
    let k = choose|k: int| 0 <= k < l.len() && l[k] == r;
    rows.lemma_filter_pred(f, k);
    rows.lemma_filter_contains_rev(f, r);
    let i = choose|i: int| 0 <= i < rows.len() && rows[i] == r;
    assert(f(rows[i]));
}

/// The applications of a session are those that its rows name, each once and in alphabetical order.
pub proof fn law_session_names_applications(rows: Seq<TemporalObservation>, x: Seq<char>)
    requires
        rows.len() > 0,
    ensures
        session_of(rows).applications.contains(x) <==> trimmed(x).len() > 0 && exists|i: int|
            0 <= i < rows.len() && (#[trigger] rows[i]).application is Some
                && rows[i].application->0@ == x,
        crate::sorted::ascending(session_of(rows).applications),
{
    law_sorted_set(applications_of(rows));
    lemma_applications(rows, x);
    assert(sorted_set(applications_of(rows)).contains(x) == applications_of(rows).contains(x));
}

proof fn lemma_applications(rows: Seq<TemporalObservation>, x: Seq<char>)
    ensures
        applications_of(rows).contains(x) <==> trimmed(x).len() > 0 && exists|i: int|
            0 <= i < rows.len() && (#[trigger] rows[i]).application is Some
                && rows[i].application->0@ == x,
    decreases rows.len(),
{
    if rows.len() > 0 {
        let b = rows.drop_last();
        let n = rows.len() - 1;
        lemma_applications(b, x);
        let f = applications_of(b);
        let l = applications_of(rows);
        if l.contains(x) {
            let i = choose|i: int| 0 <= i < l.len() && l[i] == x;
            if i < f.len() {
                assert(f[i] == x);
                let j = choose|j: int|
                    0 <= j < b.len() && (#[trigger] b[j]).application is Some
                        && b[j].application->0@ == x;
                assert(rows[j] == b[j]);
            } else {
                assert(rows[n].application->0@ == x);
            }
        }
        if trimmed(x).len() > 0 && exists|i: int|
            0 <= i < rows.len() && (#[trigger] rows[i]).application is Some
                && rows[i].application->0@ == x {
            let i = choose|i: int|
                0 <= i < rows.len() && (#[trigger] rows[i]).application is Some
                    && rows[i].application->0@ == x;
            if i < n {
                assert(b[i] == rows[i]);
                assert(f.contains(x));
                let j = choose|j: int| 0 <= j < f.len() && f[j] == x;
                assert(l[j] == x);
            } else {
                assert(l[l.len() - 1] == x);
            }
        }
    }
}

/// What a request that is answered gets: sessions of rows that were asked for and may leave the
/// machine, in which no row begins later than the allowed time after the one before it has ended, and
/// every session names the project that its rows name.
pub proof fn law_answered_request(
    r: Result<TemporalContext, TemporalError>,
    rows: Seq<TemporalObservation>,
    scope: TemporalScope,
    p: TemporalInputProvenance,
    gap: int,
    now: int,
    k: int,
    j: int,
)
    requires
        is_outcome(r, rows, scope, p, gap, now),
        r is Ok,
        0 <= k < r->Ok_0.sessions@.len(),
        0 <= j < r->Ok_0.sessions@[k].evidence@.len(),
    ensures
        ({
            let s = r->Ok_0.sessions@[k];
            let e = s.evidence@[j];
            &&& rows.contains(e) && asked_for(scope)(e)
            &&& scope.since is Some ==> scope.since->0.nanos <= e.ended_at.nanos
            &&& scope.until is Some ==> e.started_at.nanos <= scope.until->0.nanos
            &&& j > 0 ==> e.started_at.nanos - s.evidence@[j - 1].ended_at.nanos <= gap
            &&& j > 0 ==> s.evidence@[j - 1].started_at.nanos <= e.started_at.nanos
            &&& e.project is Some ==> s.project is Some && s.project->0@ == e.project->0@
            &&& s.started_at.nanos <= e.started_at.nanos
        }),
{
    let a = r->Ok_0;
    law_answer_keeps_to_the_scope(a, rows, scope, p, gap, k, j);
    assert(past(a.sessions@)[k] == a.sessions@[k]@);
    let kept = admitted(rows, scope);
    let sorted = in_order(kept);
    let g = grouped(sorted, gap)[k];
    let s = a.sessions@[k];
    let l = sessions_of(rows, scope, gap, known_partial(p, scope));
    assert(past(a.sessions@).len() == a.sessions@.len());
    assert(l.len() == grouped(sorted, gap).len());
    assert(l[k] == s@);
    assert(s@.evidence == session_of(g).evidence && s@.project == session_of(g).project
        && s@.started_at == session_of(g).started_at);
    law_sessions_divide_rows(sorted, gap);
    assert(grouped(sorted, gap)[k].len() > 0);
    law_session_spans_its_rows(g);
    let d = if g.len() > 32 {
        g.len() - 32
    } else {
        0
    };
    assert(s.evidence@[j] == g[d + j]);
    if j > 0 {
        assert(s.evidence@[j - 1] == g[d + j - 1]);
        law_sessions_have_no_gaps(sorted, gap, k, d + j);
        lemma_group_in_time(kept, gap, k, d + j - 1, d + j);
    }
    if d + j > 0 {
        lemma_group_in_time(kept, gap, k, 0, d + j);
    }
    law_session_has_one_project(sorted, gap, k);
    assert(g[d + j].project is Some ==> session_of(g).project == Some(g[d + j].project->0@));
}

/// The rows of a session stand in the order of time.
proof fn lemma_group_in_time(
    kept: Seq<TemporalObservation>,
    gap: int,
    k: int,
    i: int,
    j: int,
)
    requires
        0 <= k < grouped(in_order(kept), gap).len(),
        0 <= i < j < grouped(in_order(kept), gap)[k].len(),
    ensures
        grouped(in_order(kept), gap)[k][i].started_at.nanos <= grouped(
            in_order(kept),
            gap,
        )[k][j].started_at.nanos,
{
    let s = in_order(kept);
    let at = lemma_group_place(s, gap, k);
    law_rows_stand_in_time(kept, at + i, at + j);
}

/// A session is a stretch of the rows.
proof fn lemma_group_place(rows: Seq<TemporalObservation>, gap: int, k: int) -> (at: int)
    requires
        0 <= k < grouped(rows, gap).len(),
    ensures
        0 <= at,
        at + grouped(rows, gap)[k].len() <= rows.len(),
        k == grouped(rows, gap).len() - 1 ==> at + grouped(rows, gap)[k].len() == rows.len(),
        forall|i: int|
            0 <= i < grouped(rows, gap)[k].len() ==> #[trigger] grouped(rows, gap)[k][i] == rows[at
                + i],
    decreases rows.len(),
{
    let n = grouped(rows, gap);
    let b = rows.drop_last();
    let g = grouped(b, gap);
    let r = rows.last();
    if g.len() > 0 && continues(g.last(), r, gap) {
        let at = lemma_group_place(b, gap, k);
        if k < n.len() - 1 {
            assert(n[k] == g[k]);
            assert forall|i: int| 0 <= i < n[k].len() implies #[trigger] n[k][i] == rows[at + i] by {
                assert(g[k][i] == b[at + i]);
            }
        } else {
            assert(n[k] == g[k].push(r));
            assert forall|i: int| 0 <= i < n[k].len() implies #[trigger] n[k][i] == rows[at + i] by {
                if i < g[k].len() {
                    assert(g[k][i] == b[at + i]);
                }
            }
        }
        at
    } else if k < g.len() {
        let at = lemma_group_place(b, gap, k);
        assert(n[k] == g[k]);
        assert forall|i: int| 0 <= i < n[k].len() implies #[trigger] n[k][i] == rows[at + i] by {
            assert(g[k][i] == b[at + i]);
        }
        at
    } else {
        assert(n[k] == seq![r]);
        rows.len() - 1
    }
}

/// A refusal says what is wrong with the row and which row that is. Of several things that are wrong
/// with a row the first in this order is named: a blank reference, one that was there before, a
/// confidence that is no number or not between nought and one, an end before the beginning, a time more
/// than two minutes ahead of the clock.
pub proof fn law_refusal_names_the_flaw(
    r: Result<TemporalContext, TemporalError>,
    rows: Seq<TemporalObservation>,
    scope: TemporalScope,
    p: TemporalInputProvenance,
    gap: int,
    now: int,
)
    requires
        is_outcome(r, rows, scope, p, gap, now),
        gap >= 0,
        scope.since is None || scope.until is None,
        rows.len() > 0,
        first_flaw(rows.drop_last(), now) is None,
    ensures
        ({
            let row = rows.last();
            let x = row.source_reference@;
            let blank = trimmed(x).len() == 0;
            let again = exists|i: int|
                0 <= i < rows.len() - 1 && (#[trigger] rows[i]).source_reference@ == x;
            let wild = row.confidence is Some && !(0 <= row.confidence->0 <= 1_000_000);
            let reversed = row.started_at.nanos > row.ended_at.nanos;
            let ahead = row.started_at.nanos > now + 120_000_000_000 || row.ended_at.nanos > now
                + 120_000_000_000;
            &&& blank ==> (r matches Err(e) && e is EmptySourceReference)
            &&& !blank && again ==> (r matches Err(TemporalError::DuplicateSourceReference(s)) && s@
                == x)
            &&& !blank && !again && row.confidence is None ==> (r matches Err(
                TemporalError::NonFiniteConfidence(s),
            ) && s@ == x)
            &&& !blank && !again && wild ==> (r matches Err(TemporalError::ConfidenceOutOfRange(s))
                && s@ == x)
            &&& !blank && !again && row.confidence is Some && !wild && reversed ==> (r matches Err(
                TemporalError::ReversedObservationSpan(s),
            ) && s@ == x)
            &&& !blank && !again && row.confidence is Some && !wild && !reversed && ahead ==> (
            r matches Err(TemporalError::FutureObservation(s)) && s@ == x)
        }),
{
    let b = rows.drop_last();
    let x = rows.last().source_reference@;
    assert(forall|i: int| 0 <= i < b.len() ==> #[trigger] b[i] == rows[i]);
    assert(rows[rows.len() - 1] == rows.last());
    if has_reference(b, x) {
        let i = choose|i: int| 0 <= i < b.len() && (#[trigger] b[i]).source_reference@ == x;
        assert(rows[i].source_reference@ == x);
    }
    if exists|i: int| 0 <= i < rows.len() - 1 && (#[trigger] rows[i]).source_reference@ == x {
        let i = choose|i: int| 0 <= i < rows.len() - 1 && (#[trigger] rows[i]).source_reference@ == x;
        assert(b[i].source_reference@ == x);
    }
}

} // verus!
