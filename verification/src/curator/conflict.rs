//! # Conflicts
//!
//! A new note may contradict or supersede an older one that counts. A model is asked about each
//! such pair, and where it is sure enough the new note gets a relation that proposes to supersede
//! the old one. The old note is never changed: that is for the user to decide.
use vstd::prelude::*;
use crate::curator::scan::{pick_first, Picked, Shape};
use crate::duplicate::Duplicate;
use crate::note::{NodeStatus, NodeSummary, Note, Relation};
use crate::outside::{quote, rfc3339};
use crate::text::{replace, same};
#[allow(unused_imports)]
use crate::curator::scan::{attempts, closed_count, first_read, outcomes};
#[allow(unused_imports)]
use crate::note::{relations_of, NoteView, RelationView};
#[allow(unused_imports)]
use crate::outside::{quoted_of, rfc3339_of};
#[allow(unused_imports)]
use crate::text::{opt_view, replaced};

verus! {

/// The relation that proposes to supersede a note.
pub const PROPOSES_SUPERSEDE: &'static str = "proposes_supersede";

/// The confidence below which a verdict is not followed, in millionths.
pub const SUPERSEDE_CONFIDENCE_FLOOR: i64 = 500_000;

/// How many notes a new one is held against.
pub const MAX_PARTNERS: usize = 2;

/// What a model says of a pair of notes.
#[derive(Debug, Clone, PartialEq, Eq)]
pub struct Verdict {
    pub verdict: String,
    /// In millionths.
    pub confidence: i64,
    pub reason: String,
}

/// What the objects of a reply hold, given what came of reading each text among them as a verdict.
pub open spec fn verdict_outcomes(
    raw: Seq<char>,
    readings: Seq<Result<Verdict, String>>,
) -> Seq<Result<Verdict, Seq<char>>> {
    outcomes(attempts(raw, Shape::Object), readings, Shape::Object)
}

/// The verdict of a reply, or what is wrong with the reply. The first object that could be read
/// counts.
pub open spec fn verdict_of(raw: Seq<char>, readings: Seq<Result<Verdict, String>>) -> Result<
    Verdict,
    Seq<char>,
> {
    let all = verdict_outcomes(raw, readings);
    match first_read(all) {
        Some(v) => Ok(v),
        None => Err(
            if all.len() == 0 {
                "no JSON object found in curator verdict output: "@ + quoted_of(raw)
            } else {
                "failed to parse curator verdict JSON: "@ + all.last()->Err_0 + " (raw: "@
                    + quoted_of(raw) + ")"@
            },
        ),
    }
}

/// The verdict of a reply. `readings` is what came of reading, as a verdict, each text that
/// `json_attempts` finds in the reply.
pub fn parse_verdict(raw: &str, readings: Vec<Result<Verdict, String>>) -> (r: Result<
    Verdict,
    String,
>)
    requires
        readings@.len() == closed_count(attempts(raw@, Shape::Object)),
    ensures
        match verdict_of(raw@, readings@) {
            Ok(v) => r == Ok::<Verdict, String>(v),
            Err(e) => r matches Err(s) && s@ == e,
        },
{
    match pick_first(raw, Shape::Object, readings) {
        Picked::Read(v) => Ok(v),
        Picked::Failed(e) => {
            let mut s = "failed to parse curator verdict JSON: ".to_owned();
            s.append(e.as_str());
            s.append(" (raw: ");
            s.append(quote(raw).as_str());
            s.append(")");
            Err(s)
        },
        Picked::Nothing => {
            let mut s = "no JSON object found in curator verdict output: ".to_owned();
            s.append(quote(raw).as_str());
            Err(s)
        },
    }
}

/// Whether two notes may be about the same thing: they do not name different projects.
pub open spec fn share_project(a: Option<Seq<char>>, b: Option<Seq<char>>) -> bool {
    a matches Some(x) ==> (b matches Some(y) ==> x == y)
}

/// Whether two notes may be about the same thing.
pub fn same_project(a: &Option<String>, b: &Option<String>) -> (r: bool)
    ensures
        r == share_project(opt_view(*a), opt_view(*b)),
{
    match (a, b) {
        (Some(x), Some(y)) => same(x.as_str(), y.as_str()),
        _ => true,
    }
}

/// Whether a note that a search found is one that the new note is held against: another note that
/// counts, of the same type, and not of another project.
pub open spec fn is_partner(h: NodeSummary, new: NoteView) -> bool {
    &&& h.id@ != new.id
    &&& h.node_type == new.node_type
    &&& h.status == NodeStatus::Confirmed
    &&& share_project(new.project, opt_view(h.project))
}

/// The notes that the new note is held against, in the order of the search.
pub open spec fn partners_of(hits: Seq<NodeSummary>, new: NoteView) -> Seq<NodeSummary>
    decreases hits.len(),
{
    if hits.len() == 0 {
        seq![]
    } else {
        let before = partners_of(hits.drop_last(), new);
        if is_partner(hits.last(), new) && before.len() < MAX_PARTNERS {
            before.push(hits.last())
        } else {
            before
        }
    }
}

/// The notes that the new note is held against, among those that a search found.
pub fn find_partners(hits: &Vec<NodeSummary>, new: &Note) -> (r: Vec<NodeSummary>)
    ensures
        r@ == partners_of(hits@, new@),
{
    let mut r: Vec<NodeSummary> = Vec::new();
    let mut i: usize = 0;
    while i < hits.len()
        invariant
            i <= hits.len(),
            r@ == partners_of(hits@.take(i as int), new@),
        decreases hits.len() - i,
    {
        let h = &hits[i];
        proof {
            assert(hits@.take(i + 1).drop_last() == hits@.take(i as int));
            assert(hits@.take(i + 1).last() == *h);
        }
        if r.len() < MAX_PARTNERS && !same(h.id.as_str(), new.id.as_str()) && h.node_type
            == new.node_type && h.status == NodeStatus::Confirmed && same_project(
            &new.project,
            &h.project,
        ) {
            r.push(h.duplicate());
        }
        i = i + 1;
    }
    assert(hits@.take(hits@.len() as int) == hits@);
    r
}

/// A note as a prompt shows it.
pub open spec fn note_block(n: NoteView) -> Seq<char> {
    "Title: "@ + n.title + "\nCreated: "@ + rfc3339_of(n.created) + "\nBody: "@ + n.body
}

/// A note as a prompt shows it.
pub fn render_note_block(note: &Note) -> (r: String)
    ensures
        r@ == note_block(note@),
{
    let mut r = "Title: ".to_owned();
    r.append(note.title.as_str());
    r.append("\nCreated: ");
    r.append(rfc3339(note.created.nanos).as_str());
    r.append("\nBody: ");
    r.append(note.body.as_str());
    r
}

/// The prompt that asks about a pair of notes.
pub open spec fn conflict_prompt(template: Seq<char>, old_note: NoteView, new: NoteView) -> Seq<
    char,
> {
    replaced(
        replaced(template, "{{OLD}}"@, note_block(old_note)),
        "{{NEW}}"@,
        note_block(new),
    )
}

/// The prompt that asks about a pair of notes.
pub fn build_conflict_prompt(template: &str, old_note: &Note, new: &Note) -> (r: String)
    ensures
        r@ == conflict_prompt(template@, old_note@, new@),
{
    proof {
        reveal_strlit("{{OLD}}");
        reveal_strlit("{{NEW}}");
    }
    let half = replace(template, "{{OLD}}", render_note_block(old_note).as_str());
    replace(half.as_str(), "{{NEW}}", render_note_block(new).as_str())
}

/// The prompt that asks once more, after a reply that could not be read.
pub fn retry_verdict_prompt(prompt: &str, error: &str) -> (r: String)
    ensures
        r@ == prompt@ + "\n\nYour previous reply was invalid: "@ + error@
            + ". Reply with ONLY the JSON object."@,
{
    let mut r = prompt.to_owned();
    r.append("\n\nYour previous reply was invalid: ");
    r.append(error);
    r.append(". Reply with ONLY the JSON object.");
    r
}

/// How the question about a pair goes on after a reply.
#[derive(Debug, Clone, PartialEq, Eq)]
pub enum PairStep {
    /// The model has answered.
    Answered(Verdict),
    /// The model is to be asked once more, with this prompt.
    AskAgain(String),
    /// The pair is passed over.
    GiveUp(String),
}

/// How the question about a pair goes on after a reply: one that could not be read is asked for
/// once more, and only once.
pub fn evaluate_pair(prompt: &str, reply: Result<Verdict, String>, asked_again: bool) -> (r: PairStep)
    ensures
        match reply {
            Ok(v) => r == PairStep::Answered(v),
            Err(e) => if asked_again {
                r == PairStep::GiveUp(e)
            } else {
                r matches PairStep::AskAgain(p) && p@ == prompt@
                    + "\n\nYour previous reply was invalid: "@ + e@
                    + ". Reply with ONLY the JSON object."@
            },
        },
{
    match reply {
        Ok(v) => PairStep::Answered(v),
        Err(e) => if asked_again {
            PairStep::GiveUp(e)
        } else {
            PairStep::AskAgain(retry_verdict_prompt(prompt, e.as_str()))
        },
    }
}

/// Whether a note already proposes to supersede the note `id`.
pub open spec fn proposes(relations: Seq<RelationView>, id: Seq<char>) -> bool {
    exists|i: int|
        0 <= i < relations.len() && (#[trigger] relations[i]).rel == PROPOSES_SUPERSEDE@
            && relations[i].to == id
}

/// Whether a note already proposes to supersede the note `id`: the model is then not asked again.
pub fn already_proposed(note: &Note, id: &str) -> (r: bool)
    ensures
        r == proposes(note@.relations, id@),
{
    let mut i: usize = 0;
    while i < note.relations.len()
        invariant
            i <= note.relations.len(),
            forall|j: int|
                0 <= j < i ==> !((#[trigger] relations_of(note.relations@)[j]).rel
                    == PROPOSES_SUPERSEDE@ && relations_of(note.relations@)[j].to == id@),
        decreases note.relations.len() - i,
    {
        let x = &note.relations[i];
        assert(relations_of(note.relations@)[i as int] == x@);
        if same(x.rel.as_str(), PROPOSES_SUPERSEDE) && same(x.to.as_str(), id) {
            return true;
        }
        i = i + 1;
    }
    false
}

/// Whether a verdict is followed: the new note contradicts or supersedes the old one, and the
/// model is sure enough.
pub open spec fn is_conflict(v: Verdict) -> bool {
    (v.verdict@ == "supersedes"@ || v.verdict@ == "contradicts"@) && v.confidence
        >= SUPERSEDE_CONFIDENCE_FLOOR
}

/// A note that proposes to supersede the note `id`.
pub open spec fn proposing(note: NoteView, id: Seq<char>, confidence: int) -> NoteView {
    NoteView {
        relations: note.relations.push(
            RelationView { to: id, rel: PROPOSES_SUPERSEDE@, confidence },
        ),
        ..note
    }
}

/// Lets the new note propose to supersede the note `id`, where the verdict is followed. Returns
/// whether the note has changed and is to be saved.
pub fn apply_verdict(note: &mut Note, id: &str, verdict: &Verdict) -> (r: bool)
    ensures
        r == is_conflict(*verdict),
        final(note)@ == (if r {
            proposing(old(note)@, id@, verdict.confidence as int)
        } else {
            old(note)@
        }),
{
    let conflict = same(verdict.verdict.as_str(), "supersedes") || same(
        verdict.verdict.as_str(),
        "contradicts",
    );
    if !conflict || verdict.confidence < SUPERSEDE_CONFIDENCE_FLOOR {
        return false;
    }
    let ghost before = note.relations@;
    note.relations.push(
        Relation {
            to: id.to_owned(),
            rel: PROPOSES_SUPERSEDE.to_owned(),
            confidence: verdict.confidence,
        },
    );
    assert(relations_of(note.relations@) =~= relations_of(before).push(
        RelationView { to: id@, rel: PROPOSES_SUPERSEDE@, confidence: verdict.confidence as int },
    ));
    true
}

/// A note that was made to propose something proposes it, so the same pair is not asked about
/// again.
pub proof fn law_proposal_is_made_once(note: NoteView, id: Seq<char>, confidence: int)
    ensures
        proposes(proposing(note, id, confidence).relations, id),
{
    assert(proposing(note, id, confidence).relations[note.relations.len() as int].to == id);
}

/// A new note is held against at most two notes, each of which counts and is of the same type, and
/// none of which is the note itself.
pub proof fn law_partners_count(hits: Seq<NodeSummary>, new: NoteView)
    ensures
        partners_of(hits, new).len() <= MAX_PARTNERS,
        forall|i: int|
            0 <= i < partners_of(hits, new).len() ==> is_partner(
                #[trigger] partners_of(hits, new)[i],
                new,
            ),
    decreases hits.len(),
{
    if hits.len() > 0 {
        law_partners_count(hits.drop_last(), new);
    }
}

} // verus!
