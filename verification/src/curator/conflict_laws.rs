//! What holds of a whole pass over the new notes, on a vault that does what it is asked.
use vstd::prelude::*;
use crate::curator::conflict::{MAX_PARTNERS, PROPOSES_SUPERSEDE, SUPERSEDE_CONFIDENCE_FLOOR};
use crate::curator::conflict_pass::ConflictAnswer;
#[allow(unused_imports)]
use crate::curator::conflict::{
    is_conflict, law_partners_count, law_proposal_is_made_once, partners_of, proposes, proposing,
    verdict_of,
};
#[allow(unused_imports)]
use crate::curator::conflict_pass::{
    law_settled_is_sound, ConflictView, PhaseView,
};
#[allow(unused_imports)]
use crate::note::{NodeSummary, NoteView, RelationView};

verus! {

/// A pass, and the vault that it works on: the notes by their ids.
pub struct ConflictRun {
    pub pass: ConflictView,
    pub vault: Map<Seq<char>, NoteView>,
}

/// Whether each note of a vault stands under its id.
pub open spec fn keyed(vault: Map<Seq<char>, NoteView>) -> bool {
    forall|k: Seq<char>| vault.dom().contains(k) ==> (#[trigger] vault[k]).id == k
}

/// Whether a vault holds a note under an id.
pub open spec fn holds(vault: Map<Seq<char>, NoteView>, id: Seq<char>, n: NoteView) -> bool {
    vault.dom().contains(id) && vault[id] == n
}

/// Whether an answer is one that the vault gives: a note that is loaded is the one that it holds,
/// and a note that is to be saved is saved. All else may fail, and a model may say what it will.
pub open spec fn honest(r: ConflictRun, a: ConflictAnswer) -> bool {
    &&& r.pass.takes(a)
    &&& match r.pass.phase {
        PhaseView::Note => a matches ConflictAnswer::Loaded(n) ==> holds(
            r.vault,
            r.pass.ids[r.pass.next],
            n@,
        ),
        PhaseView::Partner { note, partners, at } => a matches ConflictAnswer::Loaded(n) ==> holds(
            r.vault,
            partners[at].id@,
            n@,
        ),
        PhaseView::Save { note, partners, at } => a is Saved,
        _ => true,
    }
}

/// The pass and the vault after an answer: a note that was saved is in the vault.
pub open spec fn stepped(r: ConflictRun, a: ConflictAnswer) -> ConflictRun {
    ConflictRun {
        pass: r.pass.settled(a),
        vault: match r.pass.phase {
            PhaseView::Save { note, partners, at } => r.vault.insert(note.id, note),
            _ => r.vault,
        },
    }
}

/// The pass and the vault after a list of answers.
pub open spec fn ran(r: ConflictRun, answers: Seq<ConflictAnswer>) -> ConflictRun
    decreases answers.len(),
{
    if answers.len() == 0 {
        r
    } else {
        stepped(ran(r, answers.drop_last()), answers.last())
    }
}

/// Whether each of a list of answers is one that the vault gives.
pub open spec fn all_honest(r: ConflictRun, answers: Seq<ConflictAnswer>) -> bool
    decreases answers.len(),
{
    answers.len() > 0 ==> all_honest(r, answers.drop_last()) && honest(
        ran(r, answers.drop_last()),
        answers.last(),
    )
}

/// Whether the relation at `j` is a proposal that is sure enough and that was not made before.
pub open spec fn is_new_proposal(relations: Seq<RelationView>, j: int) -> bool {
    &&& relations[j].rel == PROPOSES_SUPERSEDE@
    &&& relations[j].confidence >= SUPERSEDE_CONFIDENCE_FLOOR
    &&& !proposes(relations.take(j), relations[j].to)
}

/// Whether a note is what it was but for new proposals at the end of its relations.
pub open spec fn only_proposes_more(before: NoteView, after: NoteView) -> bool {
    &&& after == (NoteView { relations: after.relations, ..before })
    &&& before.relations.len() <= after.relations.len()
    &&& after.relations.take(before.relations.len() as int) == before.relations
    &&& forall|j: int|
        before.relations.len() <= j < after.relations.len() ==> #[trigger] is_new_proposal(
            after.relations,
            j,
        )
}

/// How many relations were added to a note.
pub open spec fn added_to(
    before: Map<Seq<char>, NoteView>,
    after: Map<Seq<char>, NoteView>,
    id: Seq<char>,
) -> int {
    after[id].relations.len() - before[id].relations.len()
}

/// How many relations were added to the notes of a list.
pub open spec fn added_to_all(
    before: Map<Seq<char>, NoteView>,
    after: Map<Seq<char>, NoteView>,
    ids: Seq<Seq<char>>,
) -> int
    decreases ids.len(),
{
    if ids.len() == 0 {
        0
    } else {
        added_to_all(before, after, ids.drop_last()) + added_to(before, after, ids.last())
    }
}

/// Whether a list names every note of a vault once, and nothing else.
pub open spec fn lists(all: Seq<Seq<char>>, vault: Map<Seq<char>, NoteView>) -> bool {
    all.no_duplicates() && forall|k: Seq<char>| all.contains(k) == #[trigger] vault.dom().contains(k)
}

/// How many proposals the note at the place `k` of the ids may have come by.
pub open spec fn most_added(s: ConflictView, k: int) -> int {
    if k < s.next {
        MAX_PARTNERS as int
    } else if k > s.next {
        0
    } else {
        match s.phase {
            PhaseView::Partner { note, partners, at } => at,
            PhaseView::Verdict { note, partners, at, prompt, asked_again } => at,
            PhaseView::Save { note, partners, at } => at,
            _ => 0,
        }
    }
}

/// What holds between two steps of a pass that began with the vault `before`.
spec fn in_step(
    before: Map<Seq<char>, NoteView>,
    all: Seq<Seq<char>>,
    r: ConflictRun,
) -> bool {
    let s = r.pass;
    &&& s.sound()
    &&& keyed(r.vault)
    &&& r.vault.dom() == before.dom()
    &&& forall|k: Seq<char>| #[trigger]
        before.dom().contains(k) ==> only_proposes_more(before[k], r.vault[k])
    &&& forall|k: Seq<char>| #[trigger]
        before.dom().contains(k) && !s.ids.contains(k) ==> r.vault[k] == before[k]
    &&& added_to_all(before, r.vault, all) == s.created
    &&& s.ids.no_duplicates() ==> forall|k: int|
        0 <= k < s.ids.len() && before.dom().contains(#[trigger] s.ids[k]) ==> added_to(
            before,
            r.vault,
            s.ids[k],
        ) <= most_added(s, k)
    &&& match s.phase {
        PhaseView::Search { note } => holds(r.vault, s.ids[s.next], note),
        PhaseView::Partner { note, partners, at } => holds(r.vault, s.ids[s.next], note),
        PhaseView::Verdict { note, partners, at, prompt, asked_again } => holds(
            r.vault,
            s.ids[s.next],
            note,
        ),
        PhaseView::Save { note, partners, at } => {
            let old_note = r.vault[s.ids[s.next]];
            let confidence = note.relations.last().confidence;
            &&& r.vault.dom().contains(s.ids[s.next])
            &&& note == proposing(old_note, partners[at].id@, confidence)
            &&& confidence >= SUPERSEDE_CONFIDENCE_FLOOR
            &&& !proposes(old_note.relations, partners[at].id@)
        },
        _ => true,
    }
}

/// Where a pass goes on from a pair: with a later pair of the same note, or with the next note.
proof fn lemma_pair(s: ConflictView, note: NoteView, partners: Seq<NodeSummary>, at: int)
    requires
        0 <= at <= partners.len(),
    ensures
        ({
            let t = s.pair_from(note, partners, at);
            &&& t.ids == s.ids && t.created == s.created
            &&& t == s.next_note() || (t.next == s.next && (match t.phase {
                PhaseView::Partner { note: n, partners: p, at: i } => n == note && p == partners
                    && at <= i < partners.len(),
                _ => false,
            }))
        }),
    decreases partners.len() - at,
{
    if at < partners.len() {
        lemma_pair(s, note, partners, at + 1);
    }
}

proof fn lemma_nothing_added(before: Map<Seq<char>, NoteView>, ids: Seq<Seq<char>>)
    ensures
        added_to_all(before, before, ids) == 0,
    decreases ids.len(),
{
    if ids.len() > 0 {
        lemma_nothing_added(before, ids.drop_last());
    }
}

/// What a change of one note adds to the count.
proof fn lemma_one_added(
    before: Map<Seq<char>, NoteView>,
    now: Map<Seq<char>, NoteView>,
    ids: Seq<Seq<char>>,
    id: Seq<char>,
    n: NoteView,
)
    requires
        ids.no_duplicates(),
    ensures
        added_to_all(before, now.insert(id, n), ids) == added_to_all(before, now, ids) + (
        if ids.contains(id) {
            n.relations.len() - now[id].relations.len()
        } else {
            0
        }),
    decreases ids.len(),
{
    if ids.len() > 0 {
        let f = ids.drop_last();
        assert forall|i: int, j: int| 0 <= i < f.len() && 0 <= j < f.len() && i != j implies f[i]
            != f[j] by {
            assert(ids[i] == f[i] && ids[j] == f[j]);
        }
        lemma_one_added(before, now, f, id, n);
        if ids.last() == id {
            assert(ids[ids.len() - 1] == id);
            assert(!f.contains(id)) by {
                if f.contains(id) {
                    let i = choose|i: int| 0 <= i < f.len() && f[i] == id;
                    assert(ids[i] == id);
                }
            }
        } else {
            assert(ids.contains(id) == f.contains(id)) by {
                if ids.contains(id) {
                    let i = choose|i: int| 0 <= i < ids.len() && ids[i] == id;
                    assert(f[i] == id);
                }
                if f.contains(id) {
                    let i = choose|i: int| 0 <= i < f.len() && f[i] == id;
                    assert(ids[i] == id);
                }
            }
        }
    }
}

/// One more new proposal.
proof fn lemma_proposes_one_more(
    before: NoteView,
    now: NoteView,
    id: Seq<char>,
    confidence: int,
)
    requires
        only_proposes_more(before, now),
        confidence >= SUPERSEDE_CONFIDENCE_FLOOR,
        !proposes(now.relations, id),
    ensures
        only_proposes_more(before, proposing(now, id, confidence)),
{
    let after = proposing(now, id, confidence);
    let n = now.relations.len() as int;
    assert(after.relations.take(before.relations.len() as int) == now.relations.take(
        before.relations.len() as int,
    ));
    assert forall|j: int|
        before.relations.len() <= j < after.relations.len() implies #[trigger] is_new_proposal(
        after.relations,
        j,
    ) by {
        if j < n {
            assert(is_new_proposal(now.relations, j));
            assert(after.relations.take(j) == now.relations.take(j));
        } else {
            assert(after.relations.take(j) == now.relations);
        }
    }
}

proof fn lemma_step(
    before: Map<Seq<char>, NoteView>,
    all: Seq<Seq<char>>,
    r: ConflictRun,
    a: ConflictAnswer,
)
    requires
        lists(all, before),
        in_step(before, all, r),
        honest(r, a),
    ensures
        in_step(before, all, stepped(r, a)),
        stepped(r, a).pass.ids == r.pass.ids,
{
    let s = r.pass;
    let q = stepped(r, a);
    law_settled_is_sound(s, a);
    match s.phase {
        PhaseView::Note => {},
        PhaseView::Search { note } => {
            if let ConflictAnswer::Found(hits) = a {
                lemma_pair(s, note, partners_of(hits@, note), 0);
            }
        },
        PhaseView::Partner { note, partners, at } => {
            lemma_pair(s, note, partners, at + 1);
        },
        PhaseView::Verdict { note, partners, at, prompt, asked_again } => {
            lemma_pair(s, note, partners, at + 1);
            if let ConflictAnswer::Replied { raw, readings } = a {
                if let Ok(v) = verdict_of(raw@, readings@) {
                    if is_conflict(v) {
                        let c = v.confidence as int;
                        assert(proposing(note, partners[at].id@, c).relations.last().confidence
                            == c);
                    }
                }
            }
        },
        PhaseView::Save { note, partners, at } => {
            let counted = ConflictView { created: s.created + 1, ..s };
            lemma_pair(counted, note, partners, at + 1);
            let id = s.ids[s.next];
            let old_note = r.vault[id];
            let c = note.relations.last().confidence;
            assert(note.id == id);
            assert(before.dom().contains(id));
            assert(s.ids.contains(id));
            assert(q.vault.dom() =~= before.dom());
            lemma_one_added(before, r.vault, all, id, note);
            assert(all.contains(id));
            lemma_proposes_one_more(before[id], old_note, partners[at].id@, c);
            assert forall|k: Seq<char>| #[trigger] before.dom().contains(k) implies (
            only_proposes_more(before[k], q.vault[k])) by {
                assert(only_proposes_more(before[k], r.vault[k]));
            }
            if s.ids.no_duplicates() {
                assert forall|k: int|
                    0 <= k < s.ids.len() && before.dom().contains(
                        #[trigger] s.ids[k],
                    ) implies added_to(before, q.vault, s.ids[k]) <= most_added(q.pass, k) by {
                    assert(added_to(before, r.vault, s.ids[k]) <= most_added(s, k));
                    if k != s.next {
                        assert(s.ids[k] != id);
                    }
                }
            }
        },
        PhaseView::Finished => {},
    }
}

proof fn lemma_ran(
    before: Map<Seq<char>, NoteView>,
    all: Seq<Seq<char>>,
    r: ConflictRun,
    answers: Seq<ConflictAnswer>,
)
    requires
        lists(all, before),
        in_step(before, all, r),
        all_honest(r, answers),
    ensures
        in_step(before, all, ran(r, answers)),
        ran(r, answers).pass.ids == r.pass.ids,
    decreases answers.len(),
{
    if answers.len() > 0 {
        lemma_ran(before, all, r, answers.drop_last());
        lemma_step(before, all, ran(r, answers.drop_last()), answers.last());
    }
}

/// A pass over new notes, on a vault that saves what it is asked to save: the proposals that the
/// pass counts are the relations that it added to the vault. A note that is not among the new ones
/// stays as it is. A new note changes in nothing but its relations, to which proposals are added;
/// each of them comes from a verdict that is sure enough and names a note that the new note did not
/// propose to supersede before. So where the pass is made again over the same notes, no proposal
/// that is there is added once more. Where no note is given twice, each comes by two at most.
pub proof fn law_conflict_run(
    template: Seq<char>,
    ids: Seq<Seq<char>>,
    vault: Map<Seq<char>, NoteView>,
    all: Seq<Seq<char>>,
    answers: Seq<ConflictAnswer>,
)
    requires
        keyed(vault),
        lists(all, vault),
        all_honest(ConflictRun { pass: ConflictView::at_start(template, ids), vault }, answers),
    ensures
        ({
            let end = ran(
                ConflictRun { pass: ConflictView::at_start(template, ids), vault },
                answers,
            );
            &&& end.pass.created == added_to_all(vault, end.vault, all)
            &&& end.vault.dom() == vault.dom()
            &&& keyed(end.vault)
            &&& forall|k: Seq<char>| #[trigger]
                vault.dom().contains(k) && !ids.contains(k) ==> end.vault[k] == vault[k]
            &&& forall|k: Seq<char>| #[trigger]
                vault.dom().contains(k) ==> only_proposes_more(vault[k], end.vault[k])
            &&& ids.no_duplicates() ==> forall|k: Seq<char>| #[trigger]
                vault.dom().contains(k) ==> added_to(vault, end.vault, k) <= MAX_PARTNERS
        }),
{
    let start = ConflictRun { pass: ConflictView::at_start(template, ids), vault };
    lemma_nothing_added(vault, all);
    assert(in_step(vault, all, start)) by {
        assert forall|k: Seq<char>| #[trigger] vault.dom().contains(k) implies only_proposes_more(
            vault[k],
            vault[k],
        ) by {
            assert(vault[k].relations.take(vault[k].relations.len() as int)
                == vault[k].relations);
        }
    }
    lemma_ran(vault, all, start, answers);
    let end = ran(start, answers);
    if ids.no_duplicates() {
        assert forall|k: Seq<char>| #[trigger] vault.dom().contains(k) implies added_to(
            vault,
            end.vault,
            k,
        ) <= MAX_PARTNERS by {
            if ids.contains(k) {
                let i = choose|i: int| 0 <= i < ids.len() && ids[i] == k;
                assert(vault.dom().contains(end.pass.ids[i]));
            }
        }
    }
}

/// A proposal that a note makes is not made again: however often a pass is made over it, the
/// relations that are added name other notes.
pub proof fn law_second_run_adds_no_proposal_twice(
    before: NoteView,
    after: NoteView,
    id: Seq<char>,
)
    requires
        only_proposes_more(before, after),
        proposes(before.relations, id),
    ensures
        forall|j: int|
            before.relations.len() <= j < after.relations.len() ==> (
            #[trigger] after.relations[j]).to != id,
{
    assert forall|j: int| before.relations.len() <= j < after.relations.len() implies (
    #[trigger] after.relations[j]).to != id by {
        assert(is_new_proposal(after.relations, j));
        let i = choose|i: int|
            0 <= i < before.relations.len() && (#[trigger] before.relations[i]).rel
                == PROPOSES_SUPERSEDE@ && before.relations[i].to == id;
        let n = before.relations.len() as int;
        assert(after.relations.take(n)[i] == before.relations[i]);
        assert(after.relations.take(j)[i] == after.relations[i]);
        assert(proposes(after.relations.take(j), id));
    }
}

} // verus!
