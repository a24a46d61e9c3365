//! What a conclusion about a session rests on: which words are signs of what, how much each row
//! counts, how sure the conclusion is and which rows it names.
use vstd::prelude::*;
#[allow(unused_imports)]
use crate::context::temporal::{
    concluded, confidence_sum, contradictory, factor, first_n, grounds, has_type, is_sign,
    label_text, main_project, projects_of, references_of, said_by, session_of, sign_references,
    sign_score, sign_sources, sources_of, topic_of, weakened, weight, ConclusionView,
    EvidenceStrength, Signal, TemporalObservation, Topic,
};
#[allow(unused_imports)]
use crate::sorted::{law_sorted_list, law_sorted_set, lemma_lex_order, lex_before, sorted_set};
#[allow(unused_imports)]
use crate::text::{ascii_lower, has_part, occurs_at};

verus! {

/// Whether some text of a row, in any case, holds the word `w`: its source, its application, its
/// event type or its summary.
pub open spec fn speaks_of(r: TemporalObservation, w: Seq<char>) -> bool {
    ||| has_part(ascii_lower(r.source@), w)
    ||| r.application is Some && has_part(ascii_lower(r.application->0@), w)
    ||| r.event_type is Some && has_part(ascii_lower(r.event_type->0@), w)
    ||| has_part(ascii_lower(r.summary@), w)
}

proof fn lemma_part_within(a: Seq<char>, s: Seq<char>, b: Seq<char>, w: Seq<char>)
    requires
        has_part(s, w),
    ensures
        has_part(a + s + b, w),
{
    let i = choose|i: int| occurs_at(s, w, i);
    let t = a + s + b;
    assert(t.subrange(a.len() + i, a.len() + i + w.len()) =~= s.subrange(i, i + w.len()));
    assert(occurs_at(t, w, a.len() + i));
}

/// A row says whatever one of its texts says.
proof fn lemma_said(r: TemporalObservation, w: Seq<char>)
    requires
        speaks_of(r, w),
    ensures
        has_part(said_by(r), w),
{
    let a = match r.application {
        Some(x) => x@,
        None => Seq::empty(),
    };
    let e = match r.event_type {
        Some(x) => x@,
        None => Seq::empty(),
    };
    let s = r.source@;
    let m = r.summary@;
    let g = " "@;
    let none = Seq::<char>::empty();
    let all = said_by(r);
    if has_part(ascii_lower(s), w) {
        lemma_part_within(none, ascii_lower(s), ascii_lower(g + a + g + e + g + m), w);
        assert(none + ascii_lower(s) + ascii_lower(g + a + g + e + g + m) =~= all);
    } else if r.application is Some && has_part(ascii_lower(a), w) {
        lemma_part_within(ascii_lower(s + g), ascii_lower(a), ascii_lower(g + e + g + m), w);
        assert(ascii_lower(s + g) + ascii_lower(a) + ascii_lower(g + e + g + m) =~= all);
    } else if r.event_type is Some && has_part(ascii_lower(e), w) {
        lemma_part_within(ascii_lower(s + g + a + g), ascii_lower(e), ascii_lower(g + m), w);
        assert(ascii_lower(s + g + a + g) + ascii_lower(e) + ascii_lower(g + m) =~= all);
    } else {
        lemma_part_within(ascii_lower(s + g + a + g + e + g), ascii_lower(m), none, w);
        assert(ascii_lower(s + g + a + g + e + g) + ascii_lower(m) + none =~= all);
    }
}

/// The words that make a row a sign of something, wherever in the row they stand and in whatever
/// case. A row from a file is always a sign of taking notes.
pub proof fn law_words_are_signs(r: TemporalObservation, w: Seq<char>)
    requires
        speaks_of(r, w),
    ensures
        seq![
            "cargo test"@,
            "pytest"@,
            "test suite"@,
            "tests running"@,
            "test failed"@,
            "test passed"@,
        ].contains(w) ==> is_sign(r, Signal::Testing),
        seq!["bug"@, "defect"@, "error"@, "failed"@, "failure"@, "diagnostic"@].contains(w)
            ==> is_sign(r, Signal::Debugging),
        seq!["notes"@, "note file"@, "markdown"@, "document changed"@].contains(w) ==> is_sign(
            r,
            Signal::Notes,
        ),
        seq!["browser"@, "pdf"@, "research"@, "documentation"@, "article"@].contains(w) ==> is_sign(
            r,
            Signal::Research,
        ),
{
    lemma_said(r, w);
}

/// A row is a sign of nothing that it does not speak of: without one of the words in its texts, one
/// after the other with blanks between them, it is no sign.
pub proof fn law_signs_need_words(r: TemporalObservation)
    ensures
        ascii_lower(r.source@) == ascii_lower("file"@) ==> is_sign(r, Signal::Notes),
        is_sign(r, Signal::Testing) ==> exists|w: Seq<char>|
            seq![
                "cargo test"@,
                "pytest"@,
                "test suite"@,
                "tests running"@,
                "test failed"@,
                "test passed"@,
            ].contains(w) && #[trigger] has_part(said_by(r), w),
        is_sign(r, Signal::Debugging) ==> exists|w: Seq<char>|
            seq!["bug"@, "defect"@, "error"@, "failed"@, "failure"@, "diagnostic"@].contains(w)
                && #[trigger] has_part(said_by(r), w),
        is_sign(r, Signal::Notes) ==> ascii_lower(r.source@) == ascii_lower("file"@) || exists|
            w: Seq<char>,
        |
            seq!["notes"@, "note file"@, "markdown"@, "document changed"@].contains(w) && #[trigger] has_part(
                said_by(r),
                w,
            ),
        is_sign(r, Signal::Research) ==> exists|w: Seq<char>|
            seq!["browser"@, "pdf"@, "research"@, "documentation"@, "article"@].contains(w)
                && #[trigger] has_part(said_by(r), w),
{
    let t = seq![
        "cargo test"@,
        "pytest"@,
        "test suite"@,
        "tests running"@,
        "test failed"@,
        "test passed"@,
    ];
    assert(t.contains(t[0]) && t.contains(t[1]) && t.contains(t[2]) && t.contains(t[3])
        && t.contains(t[4]) && t.contains(t[5]));
    let d = seq!["bug"@, "defect"@, "error"@, "failed"@, "failure"@, "diagnostic"@];
    assert(d.contains(d[0]) && d.contains(d[1]) && d.contains(d[2]) && d.contains(d[3])
        && d.contains(d[4]) && d.contains(d[5]));
    let n = seq!["notes"@, "note file"@, "markdown"@, "document changed"@];
    assert(n.contains(n[0]) && n.contains(n[1]) && n.contains(n[2]) && n.contains(n[3]));
    let s = seq!["browser"@, "pdf"@, "research"@, "documentation"@, "article"@];
    assert(s.contains(s[0]) && s.contains(s[1]) && s.contains(s[2]) && s.contains(s[3])
        && s.contains(s[4]));
}

/// What one more row adds: nothing where it is no sign, else its confidence, a fifth at least, and
/// five quarters of that for testing, four fifths of it for notes. In twenty-millionths.
pub proof fn law_each_sign_adds(rows: Seq<TemporalObservation>, r: TemporalObservation, s: Signal)
    requires
        r.confidence is Some,
    ensures
        sign_score(Seq::empty(), s) == 0,
        ({
            let more = sign_score(rows.push(r), s) - sign_score(rows, s);
            let c = if r.confidence->0 < 200_000 {
                200_000int
            } else {
                r.confidence->0 as int
            };
            if !is_sign(r, s) {
                more == 0
            } else {
                match s {
                    Signal::Testing => 4 * more == 100 * c,
                    Signal::Notes => 5 * more == 80 * c,
                    Signal::Debugging | Signal::Research => more == 20 * c,
                }
            }
        }),
{
    assert(rows.push(r).drop_last() == rows);
    assert(rows.push(r).last() == r);
    assert(sign_score(rows.push(r), s) == sign_score(rows, s) + (if is_sign(r, s) {
        factor(s) * weight(r)
    } else {
        0
    }));
    let w = weight(r);
    match s {
        Signal::Testing => {
            assert(factor(s) * w == 25 * w);
        },
        Signal::Notes => {
            assert(factor(s) * w == 16 * w);
        },
        Signal::Debugging => {
            assert(factor(s) * w == 20 * w);
        },
        Signal::Research => {
            assert(factor(s) * w == 20 * w);
        },
    }
}

/// What a conclusion says. Testing needs signs of testing worth one, of defects worth four fifths and
/// of notes worth three fifths; research needs signs of it worth six fifths and of notes worth three
/// fifths; else the main project is named, where there is one.
pub proof fn law_conclusion_says(rows: Seq<TemporalObservation>, conflicting: bool)
    ensures
        ({
            let c = concluded(rows, conflicting);
            let testing = sign_score(rows, Signal::Testing) >= 20_000_000 && sign_score(
                rows,
                Signal::Debugging,
            ) >= 16_000_000 && sign_score(rows, Signal::Notes) >= 12_000_000;
            let research = sign_score(rows, Signal::Research) >= 24_000_000 && sign_score(
                rows,
                Signal::Notes,
            ) >= 12_000_000;
            &&& testing ==> c.text
                == "The user appears to be testing the current project and recording defects."@
            &&& !testing && research ==> c.text
                == "The user appears to be researching a topic and consolidating notes."@
            &&& !testing && !research ==> (main_project(rows) matches Some(p) ==> c.text
                == "The observed activity is mainly associated with project "@ + label_text(p) + "."@
                && c.strength != EvidenceStrength::StronglyInferred)
            &&& !testing && !research && main_project(rows) is None ==> c.text
                == "The current activity cannot be summarized confidently from the available evidence."@
                && c.strength == EvidenceStrength::Unknown
        }),
{
}

/// The sum of the confidences.
pub open spec fn total(rows: Seq<TemporalObservation>) -> int {
    rows.fold_left(0int, |sum: int, r: TemporalObservation| sum + r.confidence->0)
}

proof fn lemma_total(rows: Seq<TemporalObservation>)
    ensures
        confidence_sum(rows) == total(rows),
    decreases rows.len(),
{
    if rows.len() > 0 {
        lemma_total(rows.drop_last());
    }
}

/// How many different texts there are in a list.
proof fn lemma_distinct(l: Seq<Seq<char>>)
    ensures
        sorted_set(l).len() == l.to_set().len(),
{
    law_sorted_set(l);
    let s = sorted_set(l);
    assert(s.no_duplicates()) by {
        assert forall|i: int, j: int| 0 <= i < s.len() && 0 <= j < s.len() && i != j implies s[i]
            != s[j] by {
            if i < j {
                lemma_lex_order(s[i], s[j]);
            } else {
                lemma_lex_order(s[j], s[i]);
            }
        }
    }
    s.unique_seq_to_set();
    assert(s.to_set() =~= l.to_set()) by {
        assert forall|x: Seq<char>| s.to_set().contains(x) == l.to_set().contains(x) by {
            assert(s.contains(x) == l.contains(x));
        }
    }
}

/// The sources of the rows that bear a claim out, in lower case.
pub open spec fn bearing(rows: Seq<TemporalObservation>, of: spec_fn(TemporalObservation) -> bool) -> Seq<Seq<char>> {
    rows.filter(of).map_values(|r: TemporalObservation| ascii_lower(r.source@))
}

proof fn lemma_sign_sources(rows: Seq<TemporalObservation>, s: Signal)
    ensures
        sign_sources(rows, s) == bearing(rows, |r: TemporalObservation| is_sign(r, s)),
    decreases rows.len(),
{
    reveal(Seq::filter);
    let f = |r: TemporalObservation| is_sign(r, s);
    if rows.len() > 0 {
        lemma_sign_sources(rows.drop_last(), s);
        if f(rows.last()) {
            assert(rows.filter(f) == rows.drop_last().filter(f).push(rows.last()));
        }
    }
    assert(sign_sources(rows, s) =~= bearing(rows, f));
}

/// How sure a conclusion is: the mean confidence of all rows, and eight hundredths more for each
/// further source that bears it out, eighteen hundredths at most; a quarter less where the rows
/// contradict each other; at most ninety-five hundredths. Rows that are no sign of what is claimed do
/// not bear it out.
pub proof fn law_conclusion_confidence(rows: Seq<TemporalObservation>, conflicting: bool)
    ensures
        ({
            let c = concluded(rows, conflicting);
            let t = bearing(rows, |r: TemporalObservation| is_sign(r, Signal::Testing));
            let d = bearing(rows, |r: TemporalObservation| is_sign(r, Signal::Debugging));
            let n = bearing(rows, |r: TemporalObservation| is_sign(r, Signal::Notes));
            let s = bearing(rows, |r: TemporalObservation| is_sign(r, Signal::Research));
            let all = rows.map_values(|r: TemporalObservation| ascii_lower(r.source@));
            let sources: int = match topic_of(rows) {
                Topic::Testing => (t + d + n).to_set().len() as int,
                Topic::Research => (s + n).to_set().len() as int,
                Topic::Project | Topic::Nothing => all.to_set().len() as int,
            };
            let mean = if rows.len() == 0 {
                0
            } else {
                total(rows) / rows.len() as int
            };
            let more = if sources >= 4 {
                180_000int
            } else if sources == 3 {
                160_000int
            } else if sources == 2 {
                80_000int
            } else {
                0int
            };
            let less = if conflicting {
                250_000int
            } else {
                0int
            };
            let v = mean + more - less;
            &&& c.confidence == (if v < 0 {
                0
            } else if v > 950_000 {
                950_000
            } else {
                v
            })
            &&& c.confidence < 350_000 ==> c.strength == EvidenceStrength::Unknown
            &&& c.strength == EvidenceStrength::StronglyInferred <==> (topic_of(rows)
                == Topic::Testing || topic_of(rows) == Topic::Research) && sources >= 2
                && c.confidence >= 680_000
            &&& topic_of(rows) != Topic::Nothing && c.confidence >= 350_000 && c.strength
                != EvidenceStrength::StronglyInferred ==> c.strength
                == EvidenceStrength::WeaklyInferred
        }),
{
    lemma_total(rows);
    lemma_sign_sources(rows, Signal::Testing);
    lemma_sign_sources(rows, Signal::Debugging);
    lemma_sign_sources(rows, Signal::Notes);
    lemma_sign_sources(rows, Signal::Research);
    let t = sign_sources(rows, Signal::Testing);
    let d = sign_sources(rows, Signal::Debugging);
    let n = sign_sources(rows, Signal::Notes);
    let s = sign_sources(rows, Signal::Research);
    lemma_distinct(t + d + n);
    lemma_distinct(s + n);
    lemma_distinct(sources_of(rows));
}

proof fn lemma_sign_references(rows: Seq<TemporalObservation>, s: Signal, x: Seq<char>)
    ensures
        sign_references(rows, s).contains(x) <==> exists|i: int|
            0 <= i < rows.len() && is_sign(#[trigger] rows[i], s) && rows[i].source_reference@ == x,
    decreases rows.len(),
{
    if rows.len() > 0 {
        let b = rows.drop_last();
        let n = rows.len() - 1;
        lemma_sign_references(b, s, x);
        let f = sign_references(b, s);
        let l = sign_references(rows, s);
        if l.contains(x) {
            let i = choose|i: int| 0 <= i < l.len() && l[i] == x;
            if i < f.len() {
                assert(f[i] == x);
                let j = choose|j: int|
                    0 <= j < b.len() && is_sign(#[trigger] b[j], s) && b[j].source_reference@ == x;
                assert(rows[j] == b[j]);
            } else {
                assert(rows[n].source_reference@ == x);
            }
        }
        if exists|i: int|
            0 <= i < rows.len() && is_sign(#[trigger] rows[i], s) && rows[i].source_reference@ == x {
            let i = choose|i: int|
                0 <= i < rows.len() && is_sign(#[trigger] rows[i], s) && rows[i].source_reference@
                    == x;
            if i < n {
                assert(b[i] == rows[i]);
                assert(f.contains(x));
                let j = choose|j: int| 0 <= j < f.len() && f[j] == x;
                assert(l[j] == x);
            } else {
                assert(l[l.len() - 1] == x);
            }
        }
    }
}

/// Whether a row is a sign of what a topic is about.
pub open spec fn is_ground(r: TemporalObservation, topic: Topic) -> bool {
    match topic {
        Topic::Testing => is_sign(r, Signal::Testing) || is_sign(r, Signal::Debugging) || is_sign(
            r,
            Signal::Notes,
        ),
        Topic::Research => is_sign(r, Signal::Research) || is_sign(r, Signal::Notes),
        Topic::Project | Topic::Nothing => true,
    }
}

/// A conclusion names the rows that it rests on, and no others: each reference is that of a row that
/// is a sign of what is claimed. Twelve are named at most. Where nothing but the project is claimed,
/// the first eight rows are named.
pub proof fn law_conclusion_names_its_grounds(
    rows: Seq<TemporalObservation>,
    conflicting: bool,
    k: int,
)
    requires
        0 <= k < concluded(rows, conflicting).source_references.len(),
    ensures
        concluded(rows, conflicting).source_references.len() <= 12,
        exists|i: int|
            0 <= i < rows.len() && is_ground(#[trigger] rows[i], topic_of(rows))
                && rows[i].source_reference@ == concluded(rows, conflicting).source_references[k],
        topic_of(rows) == Topic::Project || topic_of(rows) == Topic::Nothing ==> concluded(
            rows,
            conflicting,
        ).source_references.to_multiset() == (if rows.len() <= 8 {
            rows
        } else {
            rows.take(8)
        }).map_values(|r: TemporalObservation| r.source_reference@).to_multiset(),
{
    let topic = topic_of(rows);
    let g = grounds(topic, rows);
    let x = g[k];
    match topic {
        Topic::Testing => {
            let a = sign_references(rows, Signal::Testing);
            let b = sign_references(rows, Signal::Debugging);
            let c = sign_references(rows, Signal::Notes);
            law_sorted_set(a + b + c);
            assert(sorted_set(a + b + c)[k] == x);
            assert(sorted_set(a + b + c).contains(x));
            assert((a + b + c).contains(x));
            let i = choose|i: int| 0 <= i < (a + b + c).len() && (a + b + c)[i] == x;
            lemma_sign_references(rows, Signal::Testing, x);
            lemma_sign_references(rows, Signal::Debugging, x);
            lemma_sign_references(rows, Signal::Notes, x);
            if i < a.len() {
                assert(a[i] == x);
            } else if i < a.len() + b.len() {
                assert(b[i - a.len()] == x);
            } else {
                assert(c[i - a.len() - b.len()] == x);
            }
        },
        Topic::Research => {
            let a = sign_references(rows, Signal::Research);
            let c = sign_references(rows, Signal::Notes);
            law_sorted_set(a + c);
            assert(sorted_set(a + c)[k] == x);
            assert(sorted_set(a + c).contains(x));
            assert((a + c).contains(x));
            let i = choose|i: int| 0 <= i < (a + c).len() && (a + c)[i] == x;
            lemma_sign_references(rows, Signal::Research, x);
            lemma_sign_references(rows, Signal::Notes, x);
            if i < a.len() {
                assert(a[i] == x);
            } else {
                assert(c[i - a.len()] == x);
            }
        },
        _ => {
            let f = first_n(rows, 8);
            let l = references_of(f);
            law_sorted_list(l);
            vstd::seq_lib::to_multiset_contains(g, x);
            vstd::seq_lib::to_multiset_contains(l, x);
            assert(l.contains(x));
            let i = choose|i: int| 0 <= i < l.len() && l[i] == x;
            assert(rows[i] == f[i]);
            broadcast use vstd::seq_lib::group_to_multiset_ensures;
            assert(g.to_multiset().len() == l.to_multiset().len());
        },
    }
}

/// A conclusion from incomplete evidence is a quarter less sure, says the same and names the same
/// rows. It is never strong, and nothing is claimed where less than thirty-five hundredths remain.
pub proof fn law_incomplete_evidence_costs_a_quarter(c: ConclusionView)
    ensures
        weakened(c).text == c.text,
        weakened(c).source_references == c.source_references,
        c.confidence >= 250_000 ==> weakened(c).confidence == c.confidence - 250_000,
        c.confidence < 250_000 ==> weakened(c).confidence == 0,
        c.strength == EvidenceStrength::StronglyInferred ==> weakened(c).strength
            == EvidenceStrength::WeaklyInferred,
        c.strength == EvidenceStrength::WeaklyInferred ==> weakened(c).strength == (
        if c.confidence < 600_000 {
            EvidenceStrength::Unknown
        } else {
            EvidenceStrength::WeaklyInferred
        }),
        c.strength == EvidenceStrength::Unknown ==> weakened(c).strength
            == EvidenceStrength::Unknown,
{
}

/// Rows of one project contradict each other exactly where one tells of a success and one of an
/// error, in whatever case.
pub proof fn law_success_and_error_contradict(rows: Seq<TemporalObservation>)
    requires
        crate::context::answer_laws::of_one_project(rows),
    ensures
        session_of(rows).conflicting_signals <==> {
            &&& exists|i: int|
                0 <= i < rows.len() && (#[trigger] rows[i]).event_type is Some && ascii_lower(
                    rows[i].event_type->0@,
                ) == "success"@
            &&& exists|i: int|
                0 <= i < rows.len() && (#[trigger] rows[i]).event_type is Some && ascii_lower(
                    rows[i].event_type->0@,
                ) == "error"@
        },
{
    let l = projects_of(rows);
    law_sorted_set(l);
    let s = sorted_set(l);
    if s.len() > 1 {
        lemma_lex_order(s[0], s[1]);
        assert(lex_before(s[0], s[1]));
        assert(s.contains(s[0]) && s.contains(s[1]));
        crate::context::answer_laws::lemma_projects(rows, s[0]);
        crate::context::answer_laws::lemma_projects(rows, s[1]);
    }
    reveal_strlit("success");
    reveal_strlit("error");
    assert(ascii_lower("success"@) =~= "success"@);
    assert(ascii_lower("error"@) =~= "error"@);
    assert(session_of(rows).conflicting_signals == contradictory(rows));
    if has_type(rows, "success"@) {
        let i = choose|i: int|
            0 <= i < rows.len() && ((#[trigger] rows[i]).event_type matches Some(e) && ascii_lower(e@)
                == ascii_lower("success"@));
        assert(rows[i].event_type is Some);
    }
    if has_type(rows, "error"@) {
        let i = choose|i: int|
            0 <= i < rows.len() && ((#[trigger] rows[i]).event_type matches Some(e) && ascii_lower(e@)
                == ascii_lower("error"@));
        assert(rows[i].event_type is Some);
    }
}

} // verus!
