//! # Reading proposals
//!
//! What a model proposes to remember is checked, held against what the vault already has, and
//! becomes a note that counts, a note that waits for the user, or nothing.
use vstd::prelude::*;
use crate::curator::scan::{pick_first, Picked, Shape};
use crate::duplicate::{duplicate_all, Duplicate};
use crate::note::{NodeStatus, NodeSummary, NodeType, NoteDraft, Relation, Sensitivity, Source};
use crate::outside::{char_is_alphanumeric, quote, to_lowercase};
use crate::text::{char_is_space, join, same, trim, words};
#[allow(unused_imports)]
use crate::curator::scan::{attempts, closed_count, first_read, outcomes};
#[allow(unused_imports)]
use crate::note::{relations_of, type_named, DraftView, RelationView};
#[allow(unused_imports)]
use crate::outside::{is_alphanumeric, is_letter_or_number, lowered, quoted_of};
#[allow(unused_imports)]
use crate::text::{is_space, joined, opt_view, trimmed, views, words_of};

verus! {

/// What the configuration says of the curator.
#[derive(Debug, Clone, Copy, PartialEq, Eq, Structural)]
pub struct CuratorConfig {
    pub enabled: bool,
    pub interval_minutes: u64,
    pub max_candidates_per_pass: u32,
    /// The confidence below which a proposal is dropped, in millionths.
    pub discard_floor: i64,
    /// The confidence from which what the user said counts at once, in millionths.
    pub auto_confirm_threshold: i64,
    pub session_min_minutes: u64,
    pub session_summary_idle_minutes: u64,
}

/// A relation that a model proposes.
#[derive(Debug, Clone, PartialEq, Eq)]
pub struct RelationJson {
    pub to: String,
    pub rel: String,
    /// In millionths.
    pub confidence: i64,
}

/// A memory that a model proposes.
#[derive(Debug, Clone, PartialEq, Eq)]
pub struct CandidateJson {
    /// The name of a type of notes.
    pub kind: String,
    pub title: String,
    pub body: String,
    pub project: Option<String>,
    /// In millionths.
    pub confidence: i64,
    /// In millionths.
    pub importance: i64,
    /// Where the memory comes from, in the words of the model.
    pub source: Option<String>,
    pub relations: Vec<RelationJson>,
    pub tags: Vec<String>,
}

/// The importance of a proposal that gives none, in millionths.
pub const DEFAULT_IMPORTANCE: i64 = 500_000;

/// The confidence of a relation that gives none, in millionths.
pub const DEFAULT_RELATION_CONFIDENCE: i64 = 1_000_000;

// ---------------------------------------------------------------------------
// Checking
// ---------------------------------------------------------------------------

/// What is wrong with a proposal, if anything: its type must be one, and its title not blank.
pub open spec fn fault(c: CandidateJson) -> Option<Seq<char>> {
    if type_named(c.kind@) is None {
        Some(
            "candidate "@ + quoted_of(c.title@) + " has unknown node type "@ + quoted_of(c.kind@),
        )
    } else if trimmed(c.title@).len() == 0 {
        Some("candidate of type "@ + quoted_of(c.kind@) + " has a blank title"@)
    } else {
        None
    }
}

/// What is wrong with the first proposal that something is wrong with.
pub open spec fn first_fault(l: Seq<CandidateJson>) -> Option<Seq<char>>
    decreases l.len(),
{
    if l.len() == 0 {
        None
    } else {
        match first_fault(l.drop_last()) {
            Some(e) => Some(e),
            None => fault(l.last()),
        }
    }
}

/// What is wrong with a proposal, if anything.
fn find_fault(c: &CandidateJson) -> (r: Option<String>)
    ensures
        opt_view(r) == fault(*c),
{
    if NodeType::parse(c.kind.as_str()).is_none() {
        let mut e = "candidate ".to_owned();
        e.append(quote(c.title.as_str()).as_str());
        e.append(" has unknown node type ");
        e.append(quote(c.kind.as_str()).as_str());
        return Some(e);
    }
    if trim(c.title.as_str()).unicode_len() == 0 {
        let mut e = "candidate of type ".to_owned();
        e.append(quote(c.kind.as_str()).as_str());
        e.append(" has a blank title");
        return Some(e);
    }
    None
}

/// A fault of the first proposals is one of all.
proof fn lemma_first_fault(l: Seq<CandidateJson>, n: int)
    requires
        0 <= n <= l.len(),
        first_fault(l.take(n)) is Some,
    ensures
        first_fault(l) == first_fault(l.take(n)),
    decreases l.len(),
{
    if n == l.len() {
        assert(l.take(n) == l);
    } else {
        assert(l.drop_last().take(n) == l.take(n));
        lemma_first_fault(l.drop_last(), n);
    }
}

/// What is wrong with the first proposal that something is wrong with.
fn find_first_fault(l: &Vec<CandidateJson>) -> (r: Option<String>)
    ensures
        opt_view(r) == first_fault(l@),
{
    let mut i: usize = 0;
    while i < l.len()
        invariant
            i <= l.len(),
            first_fault(l@.take(i as int)) is None,
        decreases l.len() - i,
    {
        proof {
            assert(l@.take(i + 1).drop_last() == l@.take(i as int));
            assert(l@.take(i + 1).last() == l@[i as int]);
        }
        if let Some(e) = find_fault(&l[i]) {
            proof {
                lemma_first_fault(l@, i + 1);
            }
            return Some(e);
        }
        i = i + 1;
    }
    assert(l@.take(l@.len() as int) == l@);
    None
}

/// What the arrays of a reply hold, given what came of reading each text among them as a list of
/// proposals.
pub open spec fn candidate_outcomes(
    raw: Seq<char>,
    readings: Seq<Result<Vec<CandidateJson>, String>>,
) -> Seq<Result<Vec<CandidateJson>, Seq<char>>> {
    outcomes(attempts(raw, Shape::Array), readings, Shape::Array)
}

/// The proposals of a reply, or what is wrong with the reply. The first array that could be read
/// counts. A proposal in it that something is wrong with is an error: it is not passed over.
pub open spec fn candidates_of(
    raw: Seq<char>,
    readings: Seq<Result<Vec<CandidateJson>, String>>,
) -> Result<Vec<CandidateJson>, Seq<char>> {
    let all = candidate_outcomes(raw, readings);
    match first_read(all) {
        Some(l) => match first_fault(l@) {
            Some(e) => Err(e),
            None => Ok(l),
        },
        None => Err(
            if all.len() == 0 {
                "no JSON array found in curator LLM output: "@ + quoted_of(raw)
            } else {
                "failed to parse curator candidates JSON: "@ + all.last()->Err_0 + " (raw: "@
                    + quoted_of(raw) + ")"@
            },
        ),
    }
}

/// The proposals of a reply. `readings` is what came of reading, as a list of proposals, each text
/// that `json_attempts` finds in the reply.
pub fn parse_candidates(raw: &str, readings: Vec<Result<Vec<CandidateJson>, String>>) -> (r: Result<
    Vec<CandidateJson>,
    String,
>)
    requires
        readings@.len() == closed_count(attempts(raw@, Shape::Array)),
    ensures
        match candidates_of(raw@, readings@) {
            Ok(l) => r == Ok::<Vec<CandidateJson>, String>(l),
            Err(e) => r matches Err(s) && s@ == e,
        },
{
    match pick_first(raw, Shape::Array, readings) {
        Picked::Read(candidates) => match find_first_fault(&candidates) {
            Some(e) => Err(e),
            None => Ok(candidates),
        },
        Picked::Failed(e) => {
            let mut s = "failed to parse curator candidates JSON: ".to_owned();
            s.append(e.as_str());
            s.append(" (raw: ");
            s.append(quote(raw).as_str());
            s.append(")");
            Err(s)
        },
        Picked::Nothing => {
            let mut s = "no JSON array found in curator LLM output: ".to_owned();
            s.append(quote(raw).as_str());
            Err(s)
        },
    }
}

// ---------------------------------------------------------------------------
// What the vault already has
// ---------------------------------------------------------------------------

/// The letters, numbers and spaces of a text.
pub open spec fn plain_of(s: Seq<char>) -> Seq<char>
    decreases s.len(),
{
    if s.len() == 0 {
        seq![]
    } else if is_letter_or_number(s.last()) || is_space(s.last()) {
        plain_of(s.drop_last()).push(s.last())
    } else {
        plain_of(s.drop_last())
    }
}

/// A title by which two notes are held against each other: without punctuation, with single
/// blanks, in lower case.
pub open spec fn title_key(t: Seq<char>) -> Seq<char> {
    lowered(joined(words_of(plain_of(t)), " "@))
}

/// A title by which two notes are held against each other.
pub fn normalize_title(t: &str) -> (r: String)
    ensures
        r@ == title_key(t@),
{
    let mut cleaned = String::new();
    for c in it: t.chars()
        invariant
            it.seq() == t@,
            cleaned@ == plain_of(t@.take(it.index() as int)),
    {
        proof {
            let now = t@.take(it.index() + 1);
            assert(now.drop_last() == t@.take(it.index() as int));
            assert(now.last() == c);
        }
        if char_is_alphanumeric(c) || char_is_space(c) {
            cleaned.push(c);
        }
    }
    assert(t@.take(t@.len() as int) == t@);
    let parts = words(cleaned.as_str());
    let joined = join(&parts, parts.len(), " ");
    assert(views(parts@).take(parts@.len() as int) == views(parts@));
    to_lowercase(joined.as_str())
}

/// Whether one of the notes that a search found has the same title, however it is written. What
/// the user declined counts as well: it is not proposed again.
pub fn is_duplicate(hits: &Vec<NodeSummary>, title: &str) -> (r: bool)
    ensures
        r == exists|i: int|
            0 <= i < hits@.len() && title_key((#[trigger] hits@[i]).title@) == title_key(title@),
{
    let target = normalize_title(title);
    let mut i: usize = 0;
    while i < hits.len()
        invariant
            i <= hits.len(),
            target@ == title_key(title@),
            forall|j: int|
                0 <= j < i ==> title_key((#[trigger] hits@[j]).title@) != title_key(title@),
        decreases hits.len() - i,
    {
        let other = normalize_title(hits[i].title.as_str());
        if same(other.as_str(), target.as_str()) {
            return true;
        }
        i = i + 1;
    }
    false
}

// ---------------------------------------------------------------------------
// What becomes of a proposal
// ---------------------------------------------------------------------------

/// What becomes of a proposal: dropped below the floor; a note that counts at once where the user
/// said it and the model is sure; otherwise a note that waits for the user.
pub open spec fn routed(c: CandidateJson, cfg: CuratorConfig) -> Option<NodeStatus> {
    if c.confidence < cfg.discard_floor {
        None
    } else if c.confidence >= cfg.auto_confirm_threshold && opt_view(c.source) == Some(
        "user_statement"@,
    ) {
        Some(NodeStatus::Confirmed)
    } else {
        Some(NodeStatus::Candidate)
    }
}

/// Decides what becomes of a proposal.
pub fn route_candidate(c: &CandidateJson, cfg: &CuratorConfig) -> (r: Option<NodeStatus>)
    ensures
        r == routed(*c, *cfg),
{
    if c.confidence < cfg.discard_floor {
        return None;
    }
    let told = match &c.source {
        Some(s) => same(s.as_str(), "user_statement"),
        None => false,
    };
    if c.confidence >= cfg.auto_confirm_threshold && told {
        return Some(NodeStatus::Confirmed);
    }
    Some(NodeStatus::Candidate)
}

/// Where a memory comes from. Words that are not known count as observed.
pub open spec fn source_named(s: Option<Seq<char>>) -> Source {
    match s {
        Some(t) => if t == "user_statement"@ {
            Source::UserStatement
        } else if t == "observed"@ {
            Source::Observed
        } else if t == "inferred"@ {
            Source::Inferred
        } else if t == "agent_run"@ {
            Source::AgentRun
        } else if t == "chat"@ {
            Source::Chat
        } else if t == "manual"@ {
            Source::Manual
        } else {
            Source::Observed
        },
        None => Source::Observed,
    }
}

/// Where a memory comes from.
fn parse_source(s: &Option<String>) -> (r: Source)
    ensures
        r == source_named(opt_view(*s)),
{
    match s {
        Some(t) => {
            let t = t.as_str();
            if same(t, "user_statement") {
                Source::UserStatement
            } else if same(t, "observed") {
                Source::Observed
            } else if same(t, "inferred") {
                Source::Inferred
            } else if same(t, "agent_run") {
                Source::AgentRun
            } else if same(t, "chat") {
                Source::Chat
            } else if same(t, "manual") {
                Source::Manual
            } else {
                Source::Observed
            }
        },
        None => Source::Observed,
    }
}

/// The relations of a proposal.
pub open spec fn proposed_relations(l: Seq<RelationJson>) -> Seq<RelationView> {
    l.map_values(
        |x: RelationJson| RelationView { to: x.to@, rel: x.rel@, confidence: x.confidence as int },
    )
}

/// The note that a proposal becomes.
pub open spec fn draft_of(c: CandidateJson, status: NodeStatus) -> DraftView {
    DraftView {
        node_type: type_named(c.kind@)->0,
        title: c.title@,
        body: c.body@,
        project: opt_view(c.project),
        status,
        confidence: c.confidence as int,
        importance: c.importance as int,
        source: source_named(opt_view(c.source)),
        source_ref: Some("curator:extract"@),
        sensitivity: Sensitivity::Normal,
        expires: None,
        relations: proposed_relations(c.relations@),
        tags: views(c.tags@),
    }
}

/// The relations of a proposal.
fn draft_relations(l: &Vec<RelationJson>) -> (r: Vec<Relation>)
    ensures
        relations_of(r@) == proposed_relations(l@),
{
    let mut r: Vec<Relation> = Vec::new();
    let mut i: usize = 0;
    while i < l.len()
        invariant
            i <= l.len(),
            r.len() == i,
            forall|j: int|
                0 <= j < i ==> (#[trigger] r@[j])@ == (RelationView {
                    to: l@[j].to@,
                    rel: l@[j].rel@,
                    confidence: l@[j].confidence as int,
                }),
        decreases l.len() - i,
    {
        r.push(
            Relation {
                to: l[i].to.clone(),
                rel: l[i].rel.clone(),
                confidence: l[i].confidence,
            },
        );
        i = i + 1;
    }
    assert(relations_of(r@) =~= proposed_relations(l@));
    r
}

/// Makes a note of a proposal whose type is one.
pub fn candidate_to_draft(c: &CandidateJson, status: NodeStatus) -> (r: NoteDraft)
    requires
        type_named(c.kind@) is Some,
    ensures
        r@ == draft_of(*c, status),
{
    let node_type = match NodeType::parse(c.kind.as_str()) {
        Some(t) => t,
        None => NodeType::Fact,
    };
    let r = NoteDraft {
        node_type,
        title: c.title.clone(),
        body: c.body.clone(),
        project: c.project.duplicate(),
        status,
        confidence: c.confidence,
        importance: c.importance,
        source: parse_source(&c.source),
        source_ref: Some("curator:extract".to_owned()),
        sensitivity: Sensitivity::Normal,
        expires: None,
        relations: draft_relations(&c.relations),
        tags: duplicate_all(&c.tags),
    };
    assert(r@ =~= draft_of(*c, status));
    r
}

/// What is written of a proposal, given whether the vault already has it. Where that could not be
/// found out, the proposal is passed over.
pub fn write_candidate(c: &CandidateJson, duplicate: Option<bool>, cfg: &CuratorConfig) -> (r: Option<
    NoteDraft,
>)
    requires
        type_named(c.kind@) is Some,
    ensures
        match routed(*c, *cfg) {
            Some(status) => if duplicate == Some(false) {
                r matches Some(d) && d@ == draft_of(*c, status)
            } else {
                r is None
            },
            None => r is None,
        },
{
    match duplicate {
        Some(false) => match route_candidate(c, cfg) {
            Some(status) => Some(candidate_to_draft(c, status)),
            None => None,
        },
        _ => None,
    }
}

/// The proposals of a reply that was accepted all have a type and a title.
pub proof fn law_accepted_proposals_are_sound(l: Seq<CandidateJson>, i: int)
    requires
        first_fault(l) is None,
        0 <= i < l.len(),
    ensures
        type_named(l[i].kind@) is Some,
        trimmed(l[i].title@).len() > 0,
    decreases l.len(),
{
    if i < l.len() - 1 {
        law_accepted_proposals_are_sound(l.drop_last(), i);
    }
}

/// Nothing counts without the user unless the user said it and the model is sure of it; and what
/// is below the floor is never written.
pub proof fn law_only_statements_are_confirmed(c: CandidateJson, cfg: CuratorConfig)
    ensures
        routed(c, cfg) == Some(NodeStatus::Confirmed) ==> opt_view(c.source) == Some(
            "user_statement"@,
        ) && c.confidence >= cfg.auto_confirm_threshold,
        routed(c, cfg) is None <==> c.confidence < cfg.discard_floor,
        routed(c, cfg) != Some(NodeStatus::Rejected),
{
}

} // verus!
