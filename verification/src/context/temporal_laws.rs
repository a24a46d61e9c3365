//! What holds of every answer about the past: nothing private gets in, nothing is lost on the way,
//! and no conclusion is stronger than what it rests on.
use vstd::prelude::*;
#[allow(unused_imports)]
use crate::context::temporal::{
    admitted, concluded, continues, grouped, in_order, in_scope, is_public, label_core,
    outside_count, private_count, row_before, row_placed, session_of, sessions_of, support,
    topic_of, uncontrolled, weakened, ConclusionView, EvidenceStrength, TemporalObservation,
    TemporalScope, MAX_SESSION_EVIDENCE,
};
#[allow(unused_imports)]
use crate::text::{is_control, is_space, joined, lemma_words_end, words_of};

verus! {

/// Every row is taken in, must stay on the machine, or was not asked for.
pub proof fn law_every_row_is_counted(rows: Seq<TemporalObservation>, scope: TemporalScope)
    ensures
        admitted(rows, scope).len() + private_count(rows) + outside_count(rows, scope)
            == rows.len(),
    decreases rows.len(),
{
    if rows.len() > 0 {
        law_every_row_is_counted(rows.drop_last(), scope);
    }
}

proof fn lemma_admitted(rows: Seq<TemporalObservation>, scope: TemporalScope, x: TemporalObservation)
    requires
        admitted(rows, scope).contains(x),
    ensures
        rows.contains(x),
        is_public(x),
        in_scope(x, scope),
    decreases rows.len(),
{
    if rows.len() > 0 {
        let b = rows.drop_last();
        let a = admitted(rows, scope);
        let i = choose|i: int| 0 <= i < a.len() && a[i] == x;
        if is_public(rows.last()) && in_scope(rows.last(), scope) && i == a.len() - 1 {
            assert(rows[rows.len() - 1] == x);
        } else {
            assert(admitted(b, scope)[i] == x);
            lemma_admitted(b, scope, x);
            let j = choose|j: int| 0 <= j < b.len() && b[j] == x;
            assert(rows[j] == x);
        }
    }
}

proof fn lemma_placed(l: Seq<TemporalObservation>, r: TemporalObservation)
    requires
        is_ordered(l),
    ensures
        row_placed(l, r).to_multiset() == l.to_multiset().insert(r),
        is_ordered(row_placed(l, r)),
    decreases l.len(),
{
    broadcast use vstd::seq_lib::group_to_multiset_ensures;

    let p = row_placed(l, r);
    if l.len() > 0 && row_before(r, l.last()) {
        let b = l.drop_last();
        lemma_placed(b, r);
        assert(b.push(l.last()) == l);
        assert(p.to_multiset() =~= b.to_multiset().insert(r).insert(l.last()));
        assert(l.to_multiset().insert(r) =~= b.to_multiset().insert(l.last()).insert(r));
        assert forall|i: int, j: int| 0 <= i < j < p.len() implies !row_before(
            #[trigger] p[j],
            #[trigger] p[i],
        ) by {
            let q = row_placed(b, r);
            if j < p.len() - 1 {
                assert(p[i] == q[i] && p[j] == q[j]);
            } else {
                assert(q[i] == p[i]);
                assert(q.to_multiset().count(q[i]) > 0);
                assert(b.to_multiset().insert(r).count(p[i]) > 0);
                if p[i] != r {
                    assert(b.contains(p[i]));
                    let k = choose|k: int| 0 <= k < b.len() && b[k] == p[i];
                    assert(l[k] == p[i] && l[l.len() - 1] == p[j]);
                }
            }
        }
    } else {
        assert forall|i: int, j: int| 0 <= i < j < p.len() implies !row_before(
            #[trigger] p[j],
            #[trigger] p[i],
        ) by {
            if j == l.len() {
                if i < l.len() - 1 {
                    assert(!row_before(l[l.len() - 1], l[i]));
                }
            } else {
                assert(!row_before(l[j], l[i]));
            }
        }
    }
}

/// Whether no row comes before one that stands in front of it.
pub open spec fn is_ordered(l: Seq<TemporalObservation>) -> bool {
    forall|i: int, j: int|
        0 <= i < j < l.len() ==> !row_before(#[trigger] l[j], #[trigger] l[i])
}

/// Putting rows in order keeps each of them, and puts none before an earlier one.
pub proof fn law_ordering_keeps_rows(rows: Seq<TemporalObservation>)
    ensures
        in_order(rows).to_multiset() == rows.to_multiset(),
        is_ordered(in_order(rows)),
    decreases rows.len(),
{
    broadcast use vstd::seq_lib::group_to_multiset_ensures;

    if rows.len() > 0 {
        let b = rows.drop_last();
        law_ordering_keeps_rows(b);
        lemma_placed(in_order(b), rows.last());
        assert(b.push(rows.last()) == rows);
    } else {
        assert(in_order(rows) == rows);
    }
}

/// The rows of all groups, one after another.
pub open spec fn regrouped(groups: Seq<Seq<TemporalObservation>>) -> Seq<TemporalObservation>
    decreases groups.len(),
{
    if groups.len() == 0 {
        seq![]
    } else {
        regrouped(groups.drop_last()) + groups.last()
    }
}

/// Each row is in exactly one session, the sessions follow each other in time, and none is empty.
pub proof fn law_sessions_divide_rows(rows: Seq<TemporalObservation>, gap: int)
    ensures
        regrouped(grouped(rows, gap)) == rows,
        forall|k: int| 0 <= k < grouped(rows, gap).len() ==> (#[trigger] grouped(rows, gap)[k]).len() > 0,
    decreases rows.len(),
{
    if rows.len() > 0 {
        let b = rows.drop_last();
        let g = grouped(b, gap);
        let r = rows.last();
        law_sessions_divide_rows(b, gap);
        assert(b.push(r) == rows);
        let n = grouped(rows, gap);
        if g.len() > 0 && continues(g.last(), r, gap) {
            assert(n.drop_last() == g.drop_last());
            assert(regrouped(n) =~= rows);
            assert forall|k: int| 0 <= k < n.len() implies (#[trigger] n[k]).len() > 0 by {
                if k < n.len() - 1 {
                    assert(n[k] == g[k]);
                }
            }
        } else {
            assert(n.drop_last() == g);
            assert(regrouped(n) =~= rows);
            assert forall|k: int| 0 <= k < n.len() implies (#[trigger] n[k]).len() > 0 by {
                if k < n.len() - 1 {
                    assert(n[k] == g[k]);
                }
            }
        }
    }
}

/// Within a session no row begins later than the allowed time after the one before it has ended.
pub proof fn law_sessions_have_no_gaps(rows: Seq<TemporalObservation>, gap: int, k: int, i: int)
    requires
        0 <= k < grouped(rows, gap).len(),
        0 < i < grouped(rows, gap)[k].len(),
    ensures
        grouped(rows, gap)[k][i].started_at.nanos - grouped(rows, gap)[k][i - 1].ended_at.nanos
            <= gap,
    decreases rows.len(),
{
    if rows.len() > 0 {
        let b = rows.drop_last();
        let g = grouped(b, gap);
        let r = rows.last();
        let n = grouped(rows, gap);
        if g.len() > 0 && continues(g.last(), r, gap) {
            if k < n.len() - 1 {
                assert(n[k] == g[k]);
                law_sessions_have_no_gaps(b, gap, k, i);
            } else if i < n[k].len() - 1 {
                assert(n[k][i] == g[k][i] && n[k][i - 1] == g[k][i - 1]);
                law_sessions_have_no_gaps(b, gap, k, i);
            } else {
                assert(n[k][i - 1] == g.last().last());
            }
        } else if k < n.len() - 1 {
            assert(n[k] == g[k]);
            law_sessions_have_no_gaps(b, gap, k, i);
        }
    }
}

pub proof fn lemma_group_member(groups: Seq<Seq<TemporalObservation>>, k: int, x: TemporalObservation)
    requires
        0 <= k < groups.len(),
        groups[k].contains(x),
    ensures
        regrouped(groups).contains(x),
    decreases groups.len(),
{
    let f = regrouped(groups.drop_last());
    let all = regrouped(groups);
    if k < groups.len() - 1 {
        assert(groups.drop_last()[k] == groups[k]);
        lemma_group_member(groups.drop_last(), k, x);
        let j = choose|j: int| 0 <= j < f.len() && f[j] == x;
        assert(all[j] == x);
    } else {
        let j = choose|j: int| 0 <= j < groups[k].len() && groups[k][j] == x;
        assert(all[f.len() + j] == x);
    }
}

/// Whatever an answer shows was among the rows, may leave the machine, and was asked for.
pub proof fn law_nothing_private_is_shown(
    rows: Seq<TemporalObservation>,
    scope: TemporalScope,
    gap: int,
    cut: bool,
    k: int,
    j: int,
)
    requires
        0 <= k < sessions_of(rows, scope, gap, cut).len(),
        0 <= j < sessions_of(rows, scope, gap, cut)[k].evidence.len(),
    ensures
        rows.contains(sessions_of(rows, scope, gap, cut)[k].evidence[j]),
        is_public(sessions_of(rows, scope, gap, cut)[k].evidence[j]),
        in_scope(sessions_of(rows, scope, gap, cut)[k].evidence[j], scope),
{
    broadcast use vstd::seq_lib::group_to_multiset_ensures;

    let kept = admitted(rows, scope);
    let sorted = in_order(kept);
    let groups = grouped(sorted, gap);
    let x = sessions_of(rows, scope, gap, cut)[k].evidence[j];
    let g = groups[k];
    assert(session_of(g).evidence[j] == x);
    let dropped = g.len() - session_of(g).evidence.len();
    assert(g[dropped + j] == x);
    law_sessions_divide_rows(sorted, gap);
    lemma_group_member(groups, k, x);
    law_ordering_keeps_rows(kept);
    assert(sorted.to_multiset().count(x) > 0);
    assert(kept.contains(x));
    lemma_admitted(rows, scope, x);
}

/// A session never shows more rows than allowed, and says how many it leaves out.
pub proof fn law_evidence_is_bounded(rows: Seq<TemporalObservation>)
    ensures
        session_of(rows).evidence.len() <= MAX_SESSION_EVIDENCE,
        session_of(rows).evidence.len() + session_of(rows).dropped_evidence == rows.len(),
        session_of(rows).dropped_evidence > 0 ==> session_of(rows).conclusion.strength
            != EvidenceStrength::StronglyInferred,
{
}

/// A strong conclusion is borne out by at least two different sources of its own signs, and is
/// fairly sure. No conclusion is certain.
pub proof fn law_strength_needs_sources(rows: Seq<TemporalObservation>, conflicting: bool)
    ensures
        concluded(rows, conflicting).strength == EvidenceStrength::StronglyInferred ==> support(
            topic_of(rows),
            rows,
        ) >= 2 && concluded(rows, conflicting).confidence >= 680_000,
        concluded(rows, conflicting).strength != EvidenceStrength::Observed,
        0 <= concluded(rows, conflicting).confidence <= 950_000,
{
}

/// Incomplete evidence never raises a conclusion: it is less sure, and never strong.
pub proof fn law_partial_is_weaker(c: ConclusionView)
    requires
        c.confidence >= 0,
    ensures
        0 <= weakened(c).confidence <= c.confidence,
        weakened(c).strength != EvidenceStrength::StronglyInferred,
        c.strength == EvidenceStrength::Unknown ==> weakened(c).strength
            == EvidenceStrength::Unknown,
{
}

/// Of an answer that is known to be incomplete, every session is marked so, and no conclusion is
/// strong.
pub proof fn law_incomplete_answers_claim_less(
    rows: Seq<TemporalObservation>,
    scope: TemporalScope,
    gap: int,
    k: int,
)
    requires
        0 <= k < sessions_of(rows, scope, gap, true).len(),
    ensures
        sessions_of(rows, scope, gap, true)[k].completeness
            == crate::context::temporal::ContextCompleteness::Partial,
        sessions_of(rows, scope, gap, true)[k].conclusion.strength
            != EvidenceStrength::StronglyInferred,
{
}

/// Whether no character of a text is a control character.
pub open spec fn is_plain(s: Seq<char>) -> bool {
    forall|i: int| 0 <= i < s.len() ==> !is_control(#[trigger] s[i])
}

proof fn lemma_words_plain(s: Seq<char>)
    requires
        is_plain(s),
    ensures
        forall|k: int| 0 <= k < words_of(s).len() ==> is_plain(#[trigger] words_of(s)[k]),
    decreases s.len(),
{
    if s.len() > 0 {
        let f = s.drop_last();
        lemma_words_plain(f);
        lemma_words_end(f);
        let b = words_of(f);
        let w = words_of(s);
        assert forall|k: int| 0 <= k < w.len() implies is_plain(#[trigger] w[k]) by {
            if k < b.len() && (is_space(s.last()) || k < w.len() - 1) {
                assert(w[k] == b[k]);
            } else if f.len() > 0 && !is_space(f.last()) {
                assert(is_plain(b[b.len() - 1]));
            }
        }
    }
}

proof fn lemma_joined_plain(parts: Seq<Seq<char>>, sep: Seq<char>)
    requires
        is_plain(sep),
        forall|k: int| 0 <= k < parts.len() ==> is_plain(#[trigger] parts[k]),
    ensures
        is_plain(joined(parts, sep)),
    decreases parts.len(),
{
    if parts.len() == 1 {
        assert(is_plain(parts[0]));
    } else if parts.len() > 1 {
        lemma_joined_plain(parts.drop_last(), sep);
        assert(is_plain(parts[parts.len() - 1]));
    }
}

/// A text that nobody vouches for is shown without control characters, so on one line, and with
/// at most eighty of its characters.
pub proof fn law_label_is_one_line(value: Seq<char>)
    ensures
        is_plain(label_core(value)),
        label_core(value).len() <= 80,
{
    let u = uncontrolled(value);
    assert(is_plain(u));
    lemma_words_plain(u);
    assert(is_plain(" "@)) by {
        reveal_strlit(" ");
    }
    lemma_joined_plain(words_of(u), " "@);
}

} // verus!
