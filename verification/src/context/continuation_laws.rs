//! What holds of everything that might be meant by "continue", and of what is decided on it.
use vstd::prelude::*;
#[allow(unused_imports)]
use crate::context::continuation::{
    all_candidates, cands, naming, question, recommendation, says, session_inputs, source_of,
    candidate, collapsed, in_rank_order, is_outcome, key_index, is_decision, key_of,
    lemma_key_index, law_collapsing_keeps_zone, law_ranking_sorts, outranks, ranked, CandidateKind,
    CandidateView, ContinuationCandidate, ContinuationOutcome, Halvings, InputsView,
};
#[allow(unused_imports)]
use crate::context::content_laws::{lemma_shows, lemma_shows_within, shows};
#[allow(unused_imports)]
use crate::context::prompt_laws::lemma_joined_shows;
#[allow(unused_imports)]
use crate::context::session_state::{StampView, StateView};
#[allow(unused_imports)]
use crate::ratio::ratio_text;
#[allow(unused_imports)]
use crate::outside::lowered;
#[allow(unused_imports)]
use crate::text::{byte_len, joined, shortened_bytes, starts_with, trimmed};

verus! {

/// How sure a candidate is whose evidence is worth `base` and whose kind is worth `prior`, both in
/// millionths, at an age in nanoseconds: all of it for half an hour, then what halving for every
/// hour leaves, and a tenth at least.
pub open spec fn weighed(base: int, prior: int, age: int, halved: int) -> int {
    let left = if age <= 1_800_000_000_000 {
        1_000_000
    } else if halved <= 100_000 {
        100_000
    } else {
        halved
    };
    let s = base * prior * left / 1_000_000_000_000;
    if s > 1_000_000 {
        1_000_000
    } else {
        s
    }
}

/// What a stamped text that says something gives: a candidate with its text, up to two hundred bytes of
/// it, as old as the text, and weighed by that age.
pub open spec fn stands_for(
    c: CandidateView,
    s: Option<StampView>,
    base: int,
    prior: int,
    now: int,
    halved: int,
) -> bool {
    s matches Some(v) && trimmed(v.text).len() > 0 && c.age == now - v.at && c.confidence == weighed(
        base,
        prior,
        now - v.at,
        halved,
    ) && (byte_len(trimmed(v.text)) <= 200 ==> c.text == trimmed(v.text)) && c.text == shortened_bytes(
        trimmed(v.text),
        200,
    )
}

/// Every candidate, of whatever kind, is what its source says, and is weighed by its age. What comes
/// from the session state stays on the machine where the state must; what comes from elsewhere does
/// not.
pub proof fn law_candidates_are_weighed_by_age(i: InputsView, h: Halvings, now: int)
    ensures
        forall|k: int|
            #![trigger all_candidates(i, h, now)[k]]
            0 <= k < all_candidates(i, h, now).len() ==> ({
                let c = all_candidates(i, h, now)[k];
                match c.kind {
                    CandidateKind::SessionTask => {
                        let age = match i.session_updated {
                            Some(t) => now - t,
                            None => 2_592_000_000_000_000,
                        };
                        i.session_task matches Some(t) && trimmed(t).len() > 0 && c.age == age
                            && c.confidence == weighed(
                            i.session_confidence,
                            1_000_000,
                            age,
                            h.session_task as int,
                        ) && (byte_len(trimmed(t)) <= 200 ==> c.text == trimmed(t)) && c.text
                            == shortened_bytes(trimmed(t), 200) && c.local_only
                            == i.session_local_only
                    },
                    CandidateKind::WakeNextStep => stands_for(
                        c,
                        i.wake_next_step,
                        800_000,
                        900_000,
                        now,
                        h.wake_next_step as int,
                    ) && !c.local_only,
                    CandidateKind::OpenTask => stands_for(
                        c,
                        i.open_task,
                        800_000,
                        800_000,
                        now,
                        h.open_task as int,
                    ) && !c.local_only,
                    CandidateKind::LastUserCommand => stands_for(
                        c,
                        i.last_user_command,
                        700_000,
                        700_000,
                        now,
                        h.last_user_command as int,
                    ) && c.local_only == i.session_local_only,
                    CandidateKind::LastError => stands_for(
                        c,
                        i.last_error,
                        600_000,
                        500_000,
                        now,
                        h.last_error as int,
                    ) && c.local_only == i.session_local_only,
                }
            }),
{
}

/// Nothing that might be meant is left out: each source that says something gives a candidate of its
/// kind, and only one.
pub proof fn law_every_source_is_considered(i: InputsView, h: Halvings, now: int)
    ensures
        all_candidates(i, h, now).len() == (if i.session_task is Some && trimmed(
            i.session_task->0,
        ).len() > 0 {
            1int
        } else {
            0
        }) + (if i.wake_next_step is Some && trimmed(i.wake_next_step->0.text).len() > 0 {
            1int
        } else {
            0
        }) + (if i.open_task is Some && trimmed(i.open_task->0.text).len() > 0 {
            1int
        } else {
            0
        }) + (if i.last_user_command is Some && trimmed(i.last_user_command->0.text).len() > 0 {
            1int
        } else {
            0
        }) + (if i.last_error is Some && trimmed(i.last_error->0.text).len() > 0 {
            1int
        } else {
            0
        }),
        forall|j: int, k: int|
            0 <= j < k < all_candidates(i, h, now).len() ==> (#[trigger] all_candidates(
                i,
                h,
                now,
            )[j]).kind != (#[trigger] all_candidates(i, h, now)[k]).kind,
        i.session_task is Some && trimmed(i.session_task->0).len() > 0 ==> exists|k: int|
            0 <= k < all_candidates(i, h, now).len() && (#[trigger] all_candidates(i, h, now)[k]).kind
                == CandidateKind::SessionTask,
        i.wake_next_step is Some && trimmed(i.wake_next_step->0.text).len() > 0 ==> exists|k: int|
            0 <= k < all_candidates(i, h, now).len() && (#[trigger] all_candidates(i, h, now)[k]).kind
                == CandidateKind::WakeNextStep,
        i.open_task is Some && trimmed(i.open_task->0.text).len() > 0 ==> exists|k: int|
            0 <= k < all_candidates(i, h, now).len() && (#[trigger] all_candidates(i, h, now)[k]).kind
                == CandidateKind::OpenTask,
        i.last_user_command is Some && trimmed(i.last_user_command->0.text).len() > 0
            ==> exists|k: int|
            0 <= k < all_candidates(i, h, now).len() && (#[trigger] all_candidates(i, h, now)[k]).kind
                == CandidateKind::LastUserCommand,
        i.last_error is Some && trimmed(i.last_error->0.text).len() > 0 ==> exists|k: int|
            0 <= k < all_candidates(i, h, now).len() && (#[trigger] all_candidates(i, h, now)[k]).kind
                == CandidateKind::LastError,
{
    let a = match i.session_task {
        Some(t) => candidate(
            CandidateKind::SessionTask,
            t,
            i.session_confidence,
            crate::context::continuation::task_age(i, now),
            h.session_task as int,
            i.session_local_only,
        ),
        None => seq![],
    };
    let all = all_candidates(i, h, now);
    let n1: int = a.len() as int;
    let n2: int = n1 + (if i.wake_next_step is Some && trimmed(i.wake_next_step->0.text).len() > 0 { 1int } else { 0 });
    let n3: int = n2 + (if i.open_task is Some && trimmed(i.open_task->0.text).len() > 0 { 1int } else { 0 });
    let n4: int = n3 + (if i.last_user_command is Some && trimmed(i.last_user_command->0.text).len() > 0 { 1int } else { 0 });
    if i.session_task is Some && trimmed(i.session_task->0).len() > 0 {
        assert(all[0].kind == CandidateKind::SessionTask);
    }
    if i.wake_next_step is Some && trimmed(i.wake_next_step->0.text).len() > 0 {
        assert(all[n1].kind == CandidateKind::WakeNextStep);
    }
    if i.open_task is Some && trimmed(i.open_task->0.text).len() > 0 {
        assert(all[n2].kind == CandidateKind::OpenTask);
    }
    if i.last_user_command is Some && trimmed(i.last_user_command->0.text).len() > 0 {
        assert(all[n3].kind == CandidateKind::LastUserCommand);
    }
    if i.last_error is Some && trimmed(i.last_error->0.text).len() > 0 {
        assert(all[n4].kind == CandidateKind::LastError);
    }
}

/// Age never adds weight, for any kind: evidence beyond half an hour that halving leaves a tenth of
/// or less is worth at most a tenth of what it is worth while fresh.
pub proof fn law_old_evidence_is_worth_a_tenth(base: int, prior: int, age: int, halved: int)
    requires
        0 <= base <= 1_000_000,
        0 <= prior <= 1_000_000,
        age > 1_800_000_000_000,
        halved <= 100_000,
    ensures
        10 * weighed(base, prior, age, halved) <= weighed(base, prior, 0, halved),
        weighed(base, prior, 0, halved) == base * prior / 1_000_000,
{
    let p = base * prior;
    assert(0 <= p <= 1_000_000 * 1_000_000) by (nonlinear_arith)
        requires
            0 <= base <= 1_000_000,
            0 <= prior <= 1_000_000,
            p == base * prior,
    ;
    assert(p * 1_000_000 / 1_000_000_000_000 == p / 1_000_000) by (nonlinear_arith)
        requires
            0 <= p,
    ;
    assert(p * 100_000 / 1_000_000_000_000 == p / 10_000_000) by (nonlinear_arith)
        requires
            0 <= p,
    ;
}

// ---------------------------------------------------------------------------
// What is decided
// ---------------------------------------------------------------------------

/// The place of a kind among candidates that are equally sure: the task of the session, then the
/// next step of the last wake-up, then the open task, then the last command, then the last error.
pub open spec fn kind_place(kind: CandidateKind) -> int {
    match kind {
        CandidateKind::SessionTask => 1,
        CandidateKind::WakeNextStep => 2,
        CandidateKind::OpenTask => 3,
        CandidateKind::LastUserCommand => 4,
        CandidateKind::LastError => 5,
    }
}

/// Whether two candidates are the same but for where they may be seen.
pub open spec fn alike(a: CandidateView, b: CandidateView) -> bool {
    a.kind == b.kind && a.text == b.text && a.confidence == b.confidence && a.age == b.age
}

/// Whether two candidates say the same, but for case and the white space around it.
pub open spec fn says_the_same(a: CandidateView, b: CandidateView) -> bool {
    lowered(trimmed(a.text)) == lowered(trimmed(b.text))
}

/// Whether `c` is one of the candidates `l`, but for where it may be seen.
pub open spec fn has_alike(c: CandidateView, l: Seq<CandidateView>) -> bool {
    exists|k: int| 0 <= k < l.len() && alike(c, #[trigger] l[k])
}

/// Whether a candidate that says the same as `c` must stay on the machine.
pub open spec fn bound_here(c: CandidateView, l: Seq<CandidateView>) -> bool {
    exists|k: int| 0 <= k < l.len() && says_the_same(c, #[trigger] l[k]) && l[k].local_only
}

/// Whether `c` is one of the candidates `l`, and may be seen exactly where all of them that say the
/// same may be.
pub open spec fn taken_from(c: CandidateView, l: Seq<CandidateView>) -> bool {
    has_alike(c, l) && (c.local_only <==> bound_here(c, l))
}

/// Whether `a` is at least as good as `b`: surer, or equally sure and of a kind that does not come
/// later.
pub open spec fn as_good(a: CandidateView, b: CandidateView) -> bool {
    a.confidence > b.confidence || (a.confidence == b.confidence && kind_place(a.kind)
        <= kind_place(b.kind))
}

/// What is decided on some candidates. Nothing only where there is none. The best is recommended
/// where any reaches the floor, and then it is at least as good as every other.
pub proof fn law_decision_on_candidates(o: ContinuationOutcome, l: Seq<CandidateView>, floor: int)
    requires
        is_outcome(o, collapsed(ranked(l)), floor),
    ensures
        o is Nothing <==> l.len() == 0,
        o is Recommend <==> exists|k: int| 0 <= k < l.len() && (#[trigger] l[k]).confidence >= floor,
        o matches ContinuationOutcome::Recommend(c) ==> {
            &&& c@.confidence >= floor
            &&& taken_from(c@, l)
            &&& forall|k: int| 0 <= k < l.len() ==> as_good(c@, #[trigger] l[k])
        },
{
    let s = collapsed(ranked(l));
    if l.len() > 0 {
        let m = lemma_stands(l, 0);
    } else {
        law_ranking_sorts(l);
        assert(ranked(l).len() == 0);
    }
    if s.len() > 0 {
        lemma_decided(l, 0, 0);
        assert forall|k: int| 0 <= k < l.len() implies as_good(s[0], #[trigger] l[k]) by {
            let m = lemma_stands(l, k);
            lemma_decided(l, 0, m);
        }
        assert(has_alike(s[0], l));
        let k0 = choose|k: int| 0 <= k < l.len() && alike(s[0], #[trigger] l[k]);
        if s[0].confidence >= floor {
            assert(l[k0].confidence >= floor);
        }
    }
}

/// What the user is asked where no candidate reaches the floor: the three best at most, the best
/// first, no two that say the same, and none is left out unless three are named that are at least as
/// good.
pub proof fn law_question_names_the_best(
    o: ContinuationOutcome,
    l: Seq<CandidateView>,
    floor: int,
)
    requires
        is_outcome(o, collapsed(ranked(l)), floor),
    ensures
        o matches ContinuationOutcome::Ask(a) ==> {
            &&& 0 < a@.len() <= 3
            &&& forall|m: int|
                0 <= m < a@.len() ==> taken_from((#[trigger] a@[m])@, l) && a@[m]@.confidence < floor
            &&& forall|m: int, n: int|
                0 <= m < n < a@.len() ==> as_good((#[trigger] a@[m])@, (#[trigger] a@[n])@)
                    && !says_the_same(a@[m]@, a@[n]@)
            &&& forall|k: int|
                0 <= k < l.len() ==> names(a@, #[trigger] l[k]) || (a@.len() == 3 && as_good(
                    a@[2]@,
                    l[k],
                ))
        },
{
    let s = collapsed(ranked(l));
    if let ContinuationOutcome::Ask(a) = o {
        assert(cands(a@).len() == a@.len());
        assert forall|m: int| 0 <= m < a@.len() implies (#[trigger] a@[m])@ == s[m] by {
            assert(cands(a@)[m] == a@[m]@);
        }
        assert forall|m: int| 0 <= m < a@.len() implies taken_from((#[trigger] a@[m])@, l)
            && a@[m]@.confidence < floor by {
            lemma_decided(l, 0, m);
        }
        assert forall|m: int, n: int| 0 <= m < n < a@.len() implies as_good(
            (#[trigger] a@[m])@,
            (#[trigger] a@[n])@,
        ) && !says_the_same(a@[m]@, a@[n]@) by {
            lemma_decided(l, m, n);
        }
        assert forall|k: int| 0 <= k < l.len() implies names(a@, #[trigger] l[k]) || (a@.len() == 3
            && as_good(a@[2]@, l[k])) by {
            let m = lemma_stands(l, k);
            if m < a@.len() {
                assert(says_the_same(a@[m]@, l[k]));
            } else {
                lemma_decided(l, 2, m);
            }
        }
    }
}

/// Whether one of the candidates that are named says what `c` says.
pub open spec fn names(a: Seq<ContinuationCandidate>, c: CandidateView) -> bool {
    exists|m: int| 0 <= m < a.len() && says_the_same((#[trigger] a[m])@, c)
}

/// The candidates to decide on come from those that were there, the best first, and no two say the
/// same.
proof fn lemma_decided(l: Seq<CandidateView>, m: int, n: int)
    requires
        0 <= m <= n < collapsed(ranked(l)).len(),
    ensures
        taken_from(collapsed(ranked(l))[n], l),
        as_good(collapsed(ranked(l))[m], collapsed(ranked(l))[n]),
        m < n ==> !says_the_same(collapsed(ranked(l))[m], collapsed(ranked(l))[n]),
{
    let r = ranked(l);
    let s = collapsed(r);
    law_ranking_sorts(l);
    lemma_same_members(r, l);
    lemma_collapsed_order(r);
    law_collapsing_keeps_zone(r);
    lemma_collapsed_origin(r, n);
    lemma_collapsed_bound(r, n);
    lemma_taken(r, l, s[n]);
    if m < n {
        assert(!outranks(s[n], s[m]));
        assert(key_of(s[m]) != key_of(s[n]));
    }
}

proof fn lemma_same_members(r: Seq<CandidateView>, l: Seq<CandidateView>)
    requires
        r.to_multiset() == l.to_multiset(),
    ensures
        forall|x: CandidateView| r.contains(x) <==> #[trigger] l.contains(x),
{
    assert forall|x: CandidateView| r.contains(x) <==> #[trigger] l.contains(x) by {
        vstd::seq_lib::to_multiset_contains(r, x);
        vstd::seq_lib::to_multiset_contains(l, x);
    }
}

/// Each candidate has one among those to decide on that says the same and is at least as good.
proof fn lemma_stands(l: Seq<CandidateView>, k: int) -> (m: int)
    requires
        0 <= k < l.len(),
    ensures
        0 <= m < collapsed(ranked(l)).len(),
        says_the_same(collapsed(ranked(l))[m], l[k]),
        as_good(collapsed(ranked(l))[m], l[k]),
{
    let r = ranked(l);
    law_ranking_sorts(l);
    lemma_same_members(r, l);
    assert(l.contains(l[k]));
    assert(r.contains(l[k]));
    let x = choose|x: int| 0 <= x < r.len() && r[x] == l[k];
    lemma_collapsed_has(r, x)
}

proof fn lemma_taken(r: Seq<CandidateView>, l: Seq<CandidateView>, c: CandidateView)
    requires
        forall|x: CandidateView| r.contains(x) <==> #[trigger] l.contains(x),
        taken_from(c, r),
    ensures
        taken_from(c, l),
{
    let k = choose|k: int| 0 <= k < r.len() && alike(c, #[trigger] r[k]);
    assert(l.contains(r[k]));
    let j = choose|j: int| 0 <= j < l.len() && l[j] == r[k];
    assert(alike(c, l[j]));
    if c.local_only {
        let k = choose|k: int| 0 <= k < r.len() && says_the_same(c, #[trigger] r[k]) && r[k].local_only;
        assert(l.contains(r[k]));
        let j = choose|j: int| 0 <= j < l.len() && l[j] == r[k];
        assert(says_the_same(c, l[j]) && l[j].local_only);
    }
    if bound_here(c, l) {
        let k = choose|k: int| 0 <= k < l.len() && says_the_same(c, #[trigger] l[k]) && l[k].local_only;
        assert(l.contains(l[k]));
        assert(r.contains(l[k]));
        let j = choose|j: int| 0 <= j < r.len() && r[j] == l[k];
        assert(says_the_same(c, r[j]) && r[j].local_only);
    }
}

proof fn lemma_alike_push(c: CandidateView, b: Seq<CandidateView>, x: CandidateView)
    ensures
        has_alike(c, b) ==> has_alike(c, b.push(x)),
        alike(c, x) ==> has_alike(c, b.push(x)),
{
    if has_alike(c, b) {
        let k = choose|k: int| 0 <= k < b.len() && alike(c, #[trigger] b[k]);
        assert(b.push(x)[k] == b[k]);
    }
    assert(b.push(x)[b.len() as int] == x);
}

proof fn lemma_bound_push(c: CandidateView, b: Seq<CandidateView>, x: CandidateView)
    ensures
        bound_here(c, b.push(x)) <==> bound_here(c, b) || (says_the_same(c, x) && x.local_only),
{
    let l = b.push(x);
    if bound_here(c, b) {
        let k = choose|k: int| 0 <= k < b.len() && says_the_same(c, #[trigger] b[k]) && b[k].local_only;
        assert(l[k] == b[k]);
    }
    assert(l[b.len() as int] == x);
    if bound_here(c, l) {
        let k = choose|k: int| 0 <= k < l.len() && says_the_same(c, #[trigger] l[k]) && l[k].local_only;
        if k < b.len() {
            assert(l[k] == b[k]);
        }
    }
}

/// What one more candidate does to a collapsed list.
proof fn lemma_collapsed_step(l: Seq<CandidateView>, m: int)
    requires
        l.len() > 0,
        0 <= m < collapsed(l).len(),
    ensures
        ({
            let s = collapsed(l.drop_last());
            let x = l.last();
            let c = collapsed(l)[m];
            &&& m < s.len() ==> alike(c, s[m]) && key_of(c) == key_of(s[m]) && (key_of(c) == key_of(x)
                ==> c.local_only == (s[m].local_only || x.local_only)) && (key_of(c) != key_of(x)
                ==> c == s[m])
            &&& m >= s.len() ==> c == x && m == s.len() && forall|n: int|
                0 <= n < s.len() ==> key_of(#[trigger] s[n]) != key_of(x)
        }),
{
    let s = collapsed(l.drop_last());
    law_collapsing_keeps_zone(l.drop_last());
    lemma_key_index(s, key_of(l.last()));
    match key_index(s, key_of(l.last())) {
        Some(i) => {
            if m != i && m < s.len() && key_of(s[m]) == key_of(l.last()) {
                if i < m {
                    assert(key_of(s[i]) != key_of(s[m]));
                } else {
                    assert(key_of(s[m]) != key_of(s[i]));
                }
            }
        },
        None => {},
    }
}

/// Everything in a collapsed list was there before.
proof fn lemma_collapsed_origin(l: Seq<CandidateView>, m: int)
    requires
        0 <= m < collapsed(l).len(),
    ensures
        has_alike(collapsed(l)[m], l),
    decreases l.len(),
{
    if l.len() > 0 {
        let b = l.drop_last();
        let s = collapsed(b);
        lemma_collapsed_step(l, m);
        assert(b.push(l.last()) == l);
        lemma_alike_push(collapsed(l)[m], b, l.last());
        if m < s.len() {
            lemma_collapsed_origin(b, m);
            let k = choose|k: int| 0 <= k < b.len() && alike(s[m], #[trigger] b[k]);
            assert(alike(collapsed(l)[m], b[k]));
        }
    }
}

/// Each candidate has one in the collapsed list that says the same.
proof fn lemma_collapsed_has(l: Seq<CandidateView>, k: int) -> (m: int)
    requires
        0 <= k < l.len(),
        in_rank_order(l),
    ensures
        0 <= m < collapsed(l).len(),
        key_of(collapsed(l)[m]) == key_of(l[k]),
        !outranks(l[k], collapsed(l)[m]),
    decreases l.len(),
{
    let b = l.drop_last();
    let s = collapsed(b);
    let x = l.last();
    lemma_key_index(s, key_of(x));
    lemma_rank_order_init(l);
    if k < b.len() {
        let m = lemma_collapsed_has(b, k);
        lemma_collapsed_step(l, m);
        m
    } else {
        match key_index(s, key_of(x)) {
            Some(i) => {
                lemma_collapsed_origin(b, i);
                lemma_collapsed_step(l, i);
                let j = choose|j: int| 0 <= j < b.len() && alike(s[i], #[trigger] b[j]);
                assert(l[j] == b[j]);
                assert(!outranks(l[l.len() - 1], l[j]));
                i
            },
            None => s.len() as int,
        }
    }
}

proof fn lemma_rank_order_init(l: Seq<CandidateView>)
    requires
        l.len() > 0,
        in_rank_order(l),
    ensures
        in_rank_order(l.drop_last()),
{
    let b = l.drop_last();
    assert forall|i: int, j: int| 0 <= i < j < b.len() implies !outranks(
        #[trigger] b[j],
        #[trigger] b[i],
    ) by {
        assert(b[i] == l[i] && b[j] == l[j]);
    }
}

/// A collapsed candidate stays on the machine exactly where one that says the same must.
proof fn lemma_collapsed_bound(l: Seq<CandidateView>, m: int)
    requires
        in_rank_order(l),
        0 <= m < collapsed(l).len(),
    ensures
        collapsed(l)[m].local_only <==> bound_here(collapsed(l)[m], l),
    decreases l.len(),
{
    if l.len() > 0 {
        let b = l.drop_last();
        let s = collapsed(b);
        let x = l.last();
        let c = collapsed(l)[m];
        lemma_rank_order_init(l);
        lemma_collapsed_step(l, m);
        assert(b.push(x) == l);
        lemma_bound_push(c, b, x);
        if m < s.len() {
            lemma_collapsed_bound(b, m);
            assert(bound_here(c, b) <==> bound_here(s[m], b)) by {
                assert(c.text == s[m].text);
            }
        } else if bound_here(c, b) {
            let k = choose|k: int|
                0 <= k < b.len() && says_the_same(c, #[trigger] b[k]) && b[k].local_only;
            let n = lemma_collapsed_has(b, k);
            assert(key_of(s[n]) == key_of(x));
        }
    }
}

/// Collapsing keeps the order of rank.
proof fn lemma_collapsed_order(l: Seq<CandidateView>)
    requires
        in_rank_order(l),
    ensures
        in_rank_order(collapsed(l)),
    decreases l.len(),
{
    if l.len() > 0 {
        let b = l.drop_last();
        let s = collapsed(b);
        let r = collapsed(l);
        lemma_rank_order_init(l);
        lemma_collapsed_order(b);
        assert forall|i: int, j: int| 0 <= i < j < r.len() implies !outranks(
            #[trigger] r[j],
            #[trigger] r[i],
        ) by {
            lemma_collapsed_step(l, i);
            lemma_collapsed_step(l, j);
            assert(i < s.len());
            if j < s.len() {
                assert(!outranks(s[j], s[i]));
            } else {
                lemma_collapsed_origin(b, i);
                let k = choose|k: int| 0 <= k < b.len() && alike(s[i], #[trigger] b[k]);
                assert(l[k] == b[k]);
                assert(!outranks(l[l.len() - 1], l[k]));
            }
        }
    }
}

// ---------------------------------------------------------------------------
// What is said about it
// ---------------------------------------------------------------------------

/// A recommendation is added to the wake reason, on a line of its own: what to continue with, where it
/// comes from and how sure it is.
pub proof fn law_recommendation_says(reason: Seq<char>, c: CandidateView, source: Seq<char>)
    ensures
        recommendation(reason, c, source) == reason + "\nContinue: "@ + c.text + " (from "@ + source
            + ", confidence "@ + ratio_text(c.confidence) + ")"@,
        starts_with(recommendation(reason, c, source), reason),
{
    assert(recommendation(reason, c, source).take(reason.len() as int) =~= reason);
}

/// A question names every candidate, by its text and by the name of its kind.
pub proof fn law_question_names_candidates(reason: Seq<char>, l: Seq<CandidateView>, i: int)
    requires
        0 <= i < l.len(),
    ensures
        starts_with(question(reason, l), reason),
        shows(
            question(reason, l),
            "\""@ + l[i].text + "\" ("@ + (match l[i].kind {
                CandidateKind::SessionTask => "current task"@,
                CandidateKind::WakeNextStep => "next step from the last wake"@,
                CandidateKind::OpenTask => "open task from the last session"@,
                CandidateKind::LastUserCommand => "your last request"@,
                CandidateKind::LastError => "the last error"@,
            }) + ")"@,
        ),
{
    let names = l.map_values(|c: CandidateView| naming(c));
    let list = joined(names, ", "@);
    lemma_joined_shows(names, ", "@, i);
    assert(names[i] == naming(l[i]));
    let q = question(reason, l);
    assert(q.take(reason.len() as int) =~= reason);
    let h = reason
        + "\nThe user asked to continue but the target is ambiguous; ask one short question naming the candidates: "@;
    let t = ". Do not start work until they pick one."@;
    assert(q =~= h + list + t);
    lemma_shows(h, list, t);
    lemma_shows_within(q, list, naming(l[i]));
}

/// The producer of a candidate, as it is named in wake reasons.
pub proof fn law_sources_by_kind(kind: CandidateKind)
    ensures
        source_of(kind) == (match kind {
            CandidateKind::SessionTask => "session_state.current_task"@,
            CandidateKind::WakeNextStep => "wake_result.next_step"@,
            CandidateKind::OpenTask => "session_summary.open_task"@,
            CandidateKind::LastUserCommand => "session_state.last_user_command"@,
            CandidateKind::LastError => "session_state.last_error"@,
        }),
{
}

/// An utterance asks to continue by a phrase where it is that phrase, or the phrase and then a blank
/// and more; never where it only begins with the same letters, and never by an empty phrase.
pub proof fn law_phrase_ends_at_a_word(phrase: Seq<char>, c: char, more: Seq<char>)
    requires
        phrase.len() > 0,
        c != ' ',
    ensures
        says(phrase, phrase),
        says(phrase + seq![' '] + more, phrase),
        !says(phrase + seq![c] + more, phrase),
        !says(phrase, Seq::empty()),
{
    let a = phrase + seq![' '] + more;
    let b = phrase + seq![c] + more;
    assert(a.take(phrase.len() as int) =~= phrase);
    assert(a[phrase.len() as int] == ' ');
    assert(b[phrase.len() as int] == c);
    assert(b.len() > phrase.len());
}

/// What the session state gives: its task, as sure as the state is and as old as its inference, not as
/// the last change of anything; its last command and its last error; and where they may be seen.
pub proof fn law_session_gives_its_task(s: StateView)
    ensures
        ({
            let i = session_inputs(s);
            &&& i.session_task == s.current_task && i.session_confidence == s.confidence
            &&& i.session_updated == s.inferred_at
            &&& i.last_user_command == s.last_user_command && i.last_error == s.last_error
            &&& i.open_task is None && i.wake_next_step is None
            &&& i.session_local_only == s.local_only
        }),
{
}

/// What is decided on what might be meant. Nothing only where no source says anything. A candidate is
/// recommended where one reaches the floor, and it is the best of them; else the user is asked.
pub proof fn law_what_is_decided(
    o: ContinuationOutcome,
    i: InputsView,
    h: Halvings,
    now: int,
    floor: int,
)
    requires
        is_decision(o, i, h, now, floor),
    ensures
        o is Nothing <==> {
            &&& i.session_task is None || trimmed(i.session_task->0).len() == 0
            &&& i.wake_next_step is None || trimmed(i.wake_next_step->0.text).len() == 0
            &&& i.open_task is None || trimmed(i.open_task->0.text).len() == 0
            &&& i.last_user_command is None || trimmed(i.last_user_command->0.text).len() == 0
            &&& i.last_error is None || trimmed(i.last_error->0.text).len() == 0
        },
        o matches ContinuationOutcome::Recommend(c) ==> c@.confidence >= floor && taken_from(
            c@,
            all_candidates(i, h, now),
        ) && forall|k: int|
            0 <= k < all_candidates(i, h, now).len() ==> as_good(
                c@,
                #[trigger] all_candidates(i, h, now)[k],
            ),
        o matches ContinuationOutcome::Ask(a) ==> a@.len() > 0 && forall|k: int|
            0 <= k < all_candidates(i, h, now).len() ==> (#[trigger] all_candidates(
                i,
                h,
                now,
            )[k]).confidence < floor,
{
    let l = all_candidates(i, h, now);
    law_decision_on_candidates(o, l, floor);
    law_question_names_the_best(o, l, floor);
    law_every_source_is_considered(i, h, now);
}

} // verus!
