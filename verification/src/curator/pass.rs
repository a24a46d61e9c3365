//! # A pass over the timeline
//!
//! A pass fetches the events that were not seen yet, looks for notes that are related, asks the
//! model what is worth remembering, and writes what becomes of each proposal. The vault and the
//! model are asked from outside: `action` says what is to be asked next, and `settle` takes in the
//! answer.
use vstd::prelude::*;
use crate::curator::extract::{
    is_duplicate, parse_candidates, write_candidate, CandidateJson, CuratorConfig,
};
use crate::curator::run::{
    budget_prompt, build_related_block, extract_pass, max_id, related_query, ExtractOutcome,
    PassStep, Reply,
};
use crate::curator::scan::Shape;
use crate::note::{Event, NodeSummary, NoteDraft};
#[allow(unused_imports)]
use crate::curator::extract::{
    candidates_of, draft_of, law_accepted_proposals_are_sound, routed, title_key,
};
#[allow(unused_imports)]
use crate::curator::run::{
    budgeted_prompt, highest_id, opt_int, related_block_of, related_query_of, retry_text,
    OutcomeView,
};
#[allow(unused_imports)]
use crate::curator::scan::{attempts, closed_count};
#[allow(unused_imports)]
use crate::note::{events_of, type_named, DraftView, EventView};
#[allow(unused_imports)]
use crate::text::views;

verus! {

/// How many events a pass fetches at most.
pub const PASS_EVENT_LIMIT: u32 = 200;

/// How many related notes a pass shows at most.
pub const RELATED_SEARCH_LIMIT: usize = 8;

/// How many notes a search for the same title may find.
pub const DUPLICATE_SEARCH_LIMIT: usize = 5;

/// The tokens that a list of proposals may take.
pub const PROPOSALS_MAX_TOKENS: u32 = 1024;

/// What is to be done next.
#[derive(Debug, Clone, PartialEq, Eq)]
pub enum PassAction {
    /// Fetch the events with an id above this one, in the order of their ids.
    FetchEvents { since_id: i64, limit: u32 },
    /// Search the vault.
    Search { query: String, limit: usize },
    /// Ask the model.
    Ask { prompt: String, max_tokens: u32 },
    /// Write this note.
    Write(NoteDraft),
    /// Nothing: this is what the pass came to; `None` where no events could be fetched.
    Finished(Option<ExtractOutcome>),
}

/// What came of it.
#[derive(Debug, Clone, PartialEq, Eq)]
pub enum PassAnswer {
    Events(Vec<Event>),
    Found(Vec<NodeSummary>),
    /// What the model said, and what came of reading, as a list of proposals, each text that
    /// `json_attempts` finds in it.
    Replied { raw: String, readings: Vec<Result<Vec<CandidateJson>, String>> },
    /// The id of the note that was written.
    Written(String),
    Failed,
}

/// What the pass waits for.
enum Phase {
    Events,
    Related { events: Vec<Event>, query: String },
    Reply { prompt: String, asked_again: bool, seen: Option<i64> },
    Duplicates {
        candidates: Vec<CandidateJson>,
        at: usize,
        created: Vec<String>,
        seen: Option<i64>,
    },
    Written {
        candidates: Vec<CandidateJson>,
        at: usize,
        created: Vec<String>,
        seen: Option<i64>,
        draft: NoteDraft,
    },
    Finished { outcome: Option<ExtractOutcome> },
}

/// What the pass waits for.
pub enum StageView {
    /// The events.
    Events,
    /// The notes that are related to the events.
    Related { events: Seq<EventView>, query: Seq<char> },
    /// What the model proposes.
    Reply { prompt: Seq<char>, asked_again: bool, seen: Option<int> },
    /// The notes that may be the same as a proposal.
    Duplicates {
        candidates: Seq<CandidateJson>,
        at: int,
        created: Seq<Seq<char>>,
        seen: Option<int>,
    },
    /// The note of a proposal to be written.
    Written {
        candidates: Seq<CandidateJson>,
        at: int,
        created: Seq<Seq<char>>,
        seen: Option<int>,
        draft: DraftView,
    },
    /// Nothing more.
    Finished { outcome: Option<OutcomeView> },
}

/// A pass over the events that were not seen yet.
pub struct ExtractPass {
    template: String,
    cfg: CuratorConfig,
    since_id: i64,
    phase: Phase,
}

/// Where an `ExtractPass` stands.
pub struct PassView {
    pub template: Seq<char>,
    pub cfg: CuratorConfig,
    /// The id of the last event that was seen.
    pub since_id: int,
    pub stage: StageView,
}

/// What an optional outcome holds.
pub open spec fn opt_outcome(o: Option<ExtractOutcome>) -> Option<OutcomeView> {
    match o {
        Some(x) => Some(x@),
        None => None,
    }
}

impl View for Phase {
    type V = StageView;

    closed spec fn view(&self) -> StageView {
        match *self {
            Phase::Events => StageView::Events,
            Phase::Related { events, query } => StageView::Related {
                events: events_of(events@),
                query: query@,
            },
            Phase::Reply { prompt, asked_again, seen } => StageView::Reply {
                prompt: prompt@,
                asked_again,
                seen: opt_int(seen),
            },
            Phase::Duplicates { candidates, at, created, seen } => StageView::Duplicates {
                candidates: candidates@,
                at: at as int,
                created: views(created@),
                seen: opt_int(seen),
            },
            Phase::Written { candidates, at, created, seen, draft } => StageView::Written {
                candidates: candidates@,
                at: at as int,
                created: views(created@),
                seen: opt_int(seen),
                draft: draft@,
            },
            Phase::Finished { outcome } => StageView::Finished { outcome: opt_outcome(outcome) },
        }
    }
}

impl View for ExtractPass {
    type V = PassView;

    closed spec fn view(&self) -> PassView {
        PassView {
            template: self.template@,
            cfg: self.cfg,
            since_id: self.since_id as int,
            stage: self.phase@,
        }
    }
}

/// The outcome of a pass that wrote nothing.
pub open spec fn nothing_written(seen: Option<int>, llm_reachable: bool) -> OutcomeView {
    OutcomeView { created_ids: seq![], max_id_seen: seen, llm_reachable }
}

/// Whether one of the notes that a search found has the same title.
pub open spec fn has_title(hits: Seq<NodeSummary>, title: Seq<char>) -> bool {
    exists|i: int| 0 <= i < hits.len() && title_key((#[trigger] hits[i]).title@) == title_key(title)
}

/// The first proposals, as many as a pass looks at.
pub open spec fn considered(l: Seq<CandidateJson>, max: int) -> Seq<CandidateJson> {
    if l.len() <= max {
        l
    } else {
        l.take(max)
    }
}

impl PassView {
    /// A pass at its beginning.
    pub open spec fn at_start(template: Seq<char>, cfg: CuratorConfig, since_id: int) -> PassView {
        PassView { template, cfg, since_id, stage: StageView::Events }
    }

    /// Whether the pass can stand like this: the proposals at hand have a type, are not more than
    /// a pass looks at, and one of them is at hand.
    pub open spec fn sound(self) -> bool {
        match self.stage {
            StageView::Duplicates { candidates, at, created, seen } => 0 <= at < candidates.len()
                <= self.cfg.max_candidates_per_pass && forall|i: int|
                0 <= i < candidates.len() ==> type_named((#[trigger] candidates[i]).kind@) is Some,
            StageView::Written { candidates, at, created, seen, draft } => 0 <= at
                < candidates.len() <= self.cfg.max_candidates_per_pass && forall|i: int|
                0 <= i < candidates.len() ==> type_named((#[trigger] candidates[i]).kind@) is Some,
            _ => true,
        }
    }

    /// The pass at its end.
    pub open spec fn over(self, outcome: Option<OutcomeView>) -> PassView {
        PassView { stage: StageView::Finished { outcome }, ..self }
    }

    /// The pass that asks the model, given the lines of the related notes.
    pub open spec fn asking(self, events: Seq<EventView>, related: Seq<char>) -> PassView {
        PassView {
            stage: StageView::Reply {
                prompt: budgeted_prompt(
                    self.template,
                    self.cfg.max_candidates_per_pass as int,
                    events,
                    related,
                ),
                asked_again: false,
                seen: highest_id(events),
            },
            ..self
        }
    }

    /// The pass with a proposal at hand; at its end where there is no such proposal.
    pub open spec fn proposal_at(
        self,
        candidates: Seq<CandidateJson>,
        at: int,
        created: Seq<Seq<char>>,
        seen: Option<int>,
    ) -> PassView {
        if at < candidates.len() {
            PassView { stage: StageView::Duplicates { candidates, at, created, seen }, ..self }
        } else {
            self.over(
                Some(OutcomeView { created_ids: created, max_id_seen: seen, llm_reachable: true }),
            )
        }
    }

    /// Whether an answer is one to what was asked. Everything can fail.
    pub open spec fn takes(self, answer: PassAnswer) -> bool {
        match answer {
            PassAnswer::Events(_) => self.stage is Events,
            PassAnswer::Found(_) => self.stage is Related || self.stage is Duplicates,
            PassAnswer::Replied { raw, readings } => self.stage is Reply && readings@.len()
                == closed_count(attempts(raw@, Shape::Array)),
            PassAnswer::Written(_) => self.stage is Written,
            PassAnswer::Failed => self.stage !is Finished,
        }
    }

    /// The pass after an answer.
    pub open spec fn settled(self, answer: PassAnswer) -> PassView {
        match self.stage {
            StageView::Events => match answer {
                PassAnswer::Events(l) => {
                    let events = events_of(l@);
                    if events.len() == 0 {
                        self.over(Some(nothing_written(None, true)))
                    } else {
                        match related_query_of(events) {
                            Some(query) => PassView {
                                stage: StageView::Related { events, query },
                                ..self
                            },
                            None => self.asking(events, Seq::empty()),
                        }
                    }
                },
                _ => self.over(None),
            },
            StageView::Related { events, query } => match answer {
                PassAnswer::Found(hits) => self.asking(events, related_block_of(hits@)),
                _ => self.over(Some(nothing_written(highest_id(events), false))),
            },
            StageView::Reply { prompt, asked_again, seen } => match answer {
                PassAnswer::Replied { raw, readings } => match candidates_of(raw@, readings@) {
                    Ok(l) => self.proposal_at(
                        considered(l@, self.cfg.max_candidates_per_pass as int),
                        0,
                        seq![],
                        seen,
                    ),
                    Err(e) => if asked_again {
                        self.over(Some(nothing_written(seen, true)))
                    } else {
                        PassView {
                            stage: StageView::Reply {
                                prompt: retry_text(prompt, e),
                                asked_again: true,
                                seen,
                            },
                            ..self
                        }
                    },
                },
                _ => self.over(Some(nothing_written(seen, false))),
            },
            StageView::Duplicates { candidates, at, created, seen } => match answer {
                PassAnswer::Found(hits) => match routed(candidates[at], self.cfg) {
                    Some(status) => if has_title(hits@, candidates[at].title@) {
                        self.proposal_at(candidates, at + 1, created, seen)
                    } else {
                        PassView {
                            stage: StageView::Written {
                                candidates,
                                at,
                                created,
                                seen,
                                draft: draft_of(candidates[at], status),
                            },
                            ..self
                        }
                    },
                    None => self.proposal_at(candidates, at + 1, created, seen),
                },
                _ => self.proposal_at(candidates, at + 1, created, seen),
            },
            StageView::Written { candidates, at, created, seen, draft } => match answer {
                PassAnswer::Written(id) => self.proposal_at(
                    candidates,
                    at + 1,
                    created.push(id@),
                    seen,
                ),
                _ => self.proposal_at(candidates, at + 1, created, seen),
            },
            StageView::Finished { outcome } => self,
        }
    }

    /// How far the pass is from its end, at most.
    pub open spec fn left(self) -> int {
        let most = 2 * self.cfg.max_candidates_per_pass;
        match self.stage {
            StageView::Events => most + 4,
            StageView::Related { events, query } => most + 3,
            StageView::Reply { prompt, asked_again, seen } => if asked_again {
                most + 1
            } else {
                most + 2
            },
            StageView::Duplicates { candidates, at, created, seen } => 2 * (candidates.len() - at),
            StageView::Written { candidates, at, created, seen, draft } => 2 * (candidates.len()
                - at) - 1,
            StageView::Finished { outcome } => 0,
        }
    }

    /// The highest id among the events of the pass, once they are there.
    pub open spec fn seen(self) -> Option<int> {
        match self.stage {
            StageView::Events => None,
            StageView::Related { events, query } => highest_id(events),
            StageView::Reply { prompt, asked_again, seen } => seen,
            StageView::Duplicates { candidates, at, created, seen } => seen,
            StageView::Written { candidates, at, created, seen, draft } => seen,
            StageView::Finished { outcome } => match outcome {
                Some(o) => o.max_id_seen,
                None => None,
            },
        }
    }

    /// The ids of the notes that were written so far.
    pub open spec fn written(self) -> Seq<Seq<char>> {
        match self.stage {
            StageView::Duplicates { candidates, at, created, seen } => created,
            StageView::Written { candidates, at, created, seen, draft } => created,
            StageView::Finished { outcome } => match outcome {
                Some(o) => o.created_ids,
                None => seq![],
            },
            _ => seq![],
        }
    }
}

impl ExtractPass {
    /// A pass over the events with an id above `since_id`.
    pub fn begin(template: &str, cfg: CuratorConfig, since_id: i64) -> (r: Self)
        ensures
            r@ == PassView::at_start(template@, cfg, since_id as int),
            r@.sound(),
    {
        ExtractPass { template: template.to_owned(), cfg, since_id, phase: Phase::Events }
    }

    /// What is to be done next.
    pub fn action(&self) -> (r: PassAction)
        requires
            self@.sound(),
        ensures
            match self@.stage {
                StageView::Events => r == (PassAction::FetchEvents {
                    since_id: self@.since_id as i64,
                    limit: PASS_EVENT_LIMIT,
                }),
                StageView::Related { events, query } => r matches PassAction::Search {
                    query: q,
                    limit,
                } && q@ == query && limit == RELATED_SEARCH_LIMIT,
                StageView::Reply { prompt, asked_again, seen } => r matches PassAction::Ask {
                    prompt: p,
                    max_tokens,
                } && p@ == prompt && max_tokens == PROPOSALS_MAX_TOKENS,
                StageView::Duplicates { candidates, at, created, seen } => r
                    matches PassAction::Search { query: q, limit } && q@ == candidates[at].title@
                    && limit == DUPLICATE_SEARCH_LIMIT,
                StageView::Written { candidates, at, created, seen, draft } => r
                    matches PassAction::Write(d) && d@ == draft,
                StageView::Finished { outcome } => r matches PassAction::Finished(o)
                    && opt_outcome(o) == outcome,
            },
    {
        match &self.phase {
            Phase::Events => PassAction::FetchEvents {
                since_id: self.since_id,
                limit: PASS_EVENT_LIMIT,
            },
            Phase::Related { events: _, query } => PassAction::Search {
                query: query.clone(),
                limit: RELATED_SEARCH_LIMIT,
            },
            Phase::Reply { prompt, asked_again: _, seen: _ } => PassAction::Ask {
                prompt: prompt.clone(),
                max_tokens: PROPOSALS_MAX_TOKENS,
            },
            Phase::Duplicates { candidates, at, created: _, seen: _ } => PassAction::Search {
                query: candidates[*at].title.clone(),
                limit: DUPLICATE_SEARCH_LIMIT,
            },
            Phase::Written { candidates: _, at: _, created: _, seen: _, draft } =>
                PassAction::Write(draft.copy()),
            Phase::Finished { outcome } => PassAction::Finished(
                match outcome {
                    Some(o) => Some(o.copy()),
                    None => None,
                },
            ),
        }
    }

    /// The pass with a proposal at hand; at its end where there is no such proposal.
    fn to_proposal(
        self,
        candidates: Vec<CandidateJson>,
        at: usize,
        created: Vec<String>,
        seen: Option<i64>,
    ) -> (r: Self)
        ensures
            r@ == self@.proposal_at(candidates@, at as int, views(created@), opt_int(seen)),
    {
        let phase = if at < candidates.len() {
            Phase::Duplicates { candidates, at, created, seen }
        } else {
            Phase::Finished {
                outcome: Some(
                    ExtractOutcome {
                        created_ids: created,
                        max_id_seen: seen,
                        llm_reachable: true,
                    },
                ),
            }
        };
        ExtractPass { phase, ..self }
    }

    /// The pass that asks the model.
    fn to_reply(self, events: &Vec<Event>, related: &str) -> (r: Self)
        ensures
            r@ == self@.asking(events_of(events@), related@),
    {
        let prompt = budget_prompt(
            self.template.as_str(),
            self.cfg.max_candidates_per_pass,
            events,
            related,
        );
        let seen: Option<i64> = max_id(events);
        ExtractPass { phase: Phase::Reply { prompt, asked_again: false, seen }, ..self }
    }

    /// The pass at its end, with nothing written.
    fn to_end(self, seen: Option<i64>, llm_reachable: bool) -> (r: Self)
        ensures
            r@ == self@.over(Some(nothing_written(opt_int(seen), llm_reachable))),
    {
        let outcome = ExtractOutcome::empty(seen, llm_reachable);
        assert(outcome@ =~= nothing_written(opt_int(seen), llm_reachable));
        ExtractPass { phase: Phase::Finished { outcome: Some(outcome) }, ..self }
    }

    /// Takes in the events.
    fn take_events(self, events: Vec<Event>) -> (r: Self)
        requires
            self@.stage is Events,
        ensures
            r@ == self@.settled(PassAnswer::Events(events)),
    {
        assert(events_of(events@).len() == events@.len());
        if events.len() == 0 {
            return self.to_end(None, true);
        }
        match related_query(&events) {
            Some(query) => ExtractPass { phase: Phase::Related { events, query }, ..self },
            None => {
                let none = String::new();
                assert(none@ =~= Seq::empty());
                self.to_reply(&events, none.as_str())
            },
        }
    }

    /// Takes in what the model said.
    fn take_reply(
        self,
        prompt: String,
        asked_again: bool,
        seen: Option<i64>,
        raw: String,
        readings: Vec<Result<Vec<CandidateJson>, String>>,
    ) -> (r: Self)
        requires
            readings@.len() == closed_count(attempts(raw@, Shape::Array)),
        ensures
            r@ == (PassView {
                stage: StageView::Reply { prompt: prompt@, asked_again, seen: opt_int(seen) },
                ..self@
            }).settled(PassAnswer::Replied { raw, readings }),
    {
        let reply = match parse_candidates(raw.as_str(), readings) {
            Ok(l) => Reply::Read(l),
            Err(e) => Reply::Unreadable(e),
        };
        match extract_pass(prompt.as_str(), reply, asked_again, seen, &self.cfg) {
            PassStep::AskAgain(prompt) => ExtractPass {
                phase: Phase::Reply { prompt, asked_again: true, seen },
                ..self
            },
            PassStep::Consider(l) => {
                let none: Vec<String> = Vec::new();
                assert(views(none@) =~= seq![]);
                self.to_proposal(l, 0, none, seen)
            },
            PassStep::Stop(outcome) => {
                assert(outcome@ =~= nothing_written(opt_int(seen), true));
                ExtractPass { phase: Phase::Finished { outcome: Some(outcome) }, ..self }
            },
        }
    }

    /// Takes in an answer.
    pub fn settle(self, answer: PassAnswer) -> (r: Self)
        requires
            self@.sound(),
            self@.takes(answer),
        ensures
            r@ == self@.settled(answer),
            r@.sound(),
    {
        proof {
            lemma_settled_sound(self@, answer);
        }
        let ExtractPass { template, cfg, since_id, phase } = self;
        match phase {
            Phase::Events => {
                let pass = ExtractPass { template, cfg, since_id, phase: Phase::Events };
                match answer {
                    PassAnswer::Events(events) => pass.take_events(events),
                    _ => ExtractPass { phase: Phase::Finished { outcome: None }, ..pass },
                }
            },
            Phase::Related { events, query: _ } => {
                let pass = ExtractPass { template, cfg, since_id, phase: Phase::Events };
                match answer {
                    PassAnswer::Found(hits) => {
                        let related = build_related_block(&hits);
                        pass.to_reply(&events, related.as_str())
                    },
                    _ => {
                        let seen: Option<i64> = max_id(&events);
                        pass.to_end(seen, false)
                    },
                }
            },
            Phase::Reply { prompt, asked_again, seen } => {
                let pass = ExtractPass { template, cfg, since_id, phase: Phase::Events };
                match answer {
                    PassAnswer::Replied { raw, readings } => pass.take_reply(
                        prompt,
                        asked_again,
                        seen,
                        raw,
                        readings,
                    ),
                    _ => pass.to_end(seen, false),
                }
            },
            Phase::Duplicates { candidates, at, created, seen } => {
                let pass = ExtractPass { template, cfg, since_id, phase: Phase::Events };
                match answer {
                    PassAnswer::Found(hits) => {
                        let duplicate = is_duplicate(&hits, candidates[at].title.as_str());
                        match write_candidate(&candidates[at], Some(duplicate), &cfg) {
                            Some(draft) => ExtractPass {
                                phase: Phase::Written { candidates, at, created, seen, draft },
                                ..pass
                            },
                            None => pass.to_proposal(candidates, at + 1, created, seen),
                        }
                    },
                    _ => pass.to_proposal(candidates, at + 1, created, seen),
                }
            },
            Phase::Written { candidates, at, created, seen, draft: _ } => {
                let pass = ExtractPass { template, cfg, since_id, phase: Phase::Events };
                match answer {
                    PassAnswer::Written(id) => {
                        let ghost before = created@;
                        let mut created = created;
                        created.push(id);
                        assert(views(created@) =~= views(before).push(id@));
                        pass.to_proposal(candidates, at + 1, created, seen)
                    },
                    _ => pass.to_proposal(candidates, at + 1, created, seen),
                }
            },
            Phase::Finished { outcome } => ExtractPass {
                template,
                cfg,
                since_id,
                phase: Phase::Finished { outcome },
            },
        }
    }
}

proof fn lemma_settled_sound(s: PassView, answer: PassAnswer)
    requires
        s.sound(),
        s.takes(answer),
    ensures
        s.settled(answer).sound(),
        0 <= s.settled(answer).left() < s.left(),
{
    if let StageView::Reply { prompt, asked_again, seen } = s.stage {
        if let PassAnswer::Replied { raw, readings } = answer {
            if let Ok(l) = candidates_of(raw@, readings@) {
                let k = considered(l@, s.cfg.max_candidates_per_pass as int);
                assert forall|i: int| 0 <= i < k.len() implies type_named(
                    (#[trigger] k[i]).kind@,
                ) is Some by {
                    assert(k[i] == l@[i]);
                    law_accepted_proposals_are_sound(l@, i);
                }
            }
        }
    }
}

/// A pass ends, whatever the answers are: each brings it nearer to its end.
pub proof fn law_pass_ends(s: PassView, answer: PassAnswer)
    requires
        s.sound(),
        s.takes(answer),
    ensures
        0 <= s.settled(answer).left() < s.left(),
        s.settled(answer).left() == 0 <==> s.settled(answer).stage is Finished,
{
    lemma_settled_sound(s, answer);
}

/// What a pass has seen is not lost: once the events are there, every failure leaves the highest
/// of their ids, and the pass comes to an outcome.
pub proof fn law_seen_events_survive(s: PassView, answer: PassAnswer)
    requires
        s.sound(),
        s.takes(answer),
        s.stage !is Events,
    ensures
        s.settled(answer).seen() == s.seen(),
        s.settled(answer).stage matches StageView::Finished { outcome } ==> outcome is Some,
{
}

/// A proposal that fails costs that proposal alone: what was written stays, and the next proposal
/// comes up.
pub proof fn law_failed_proposal_is_contained(s: PassView)
    requires
        s.sound(),
        s.stage is Duplicates || s.stage is Written,
    ensures
        s.settled(PassAnswer::Failed).written() == s.written(),
        s.stage matches StageView::Duplicates { candidates, at, created, seen } ==> s.settled(
            PassAnswer::Failed,
        ) == s.proposal_at(candidates, at + 1, created, seen),
        s.stage matches StageView::Written { candidates, at, created, seen, draft } ==> s.settled(
            PassAnswer::Failed,
        ) == s.proposal_at(candidates, at + 1, created, seen),
{
}

/// The model is asked twice at most: after the second reply the pass is at the proposals, or over.
pub proof fn law_model_is_asked_twice_at_most(s: PassView, answer: PassAnswer)
    requires
        s.takes(answer),
        s.stage matches StageView::Reply { prompt, asked_again, seen } && asked_again,
    ensures
        s.settled(answer).stage !is Reply,
        s.settled(answer).stage !is Related,
        s.settled(answer).stage !is Events,
{
}

/// The ids of a pass are those of the notes that were written, and of no others.
pub proof fn law_only_written_notes_are_reported(s: PassView, answer: PassAnswer)
    requires
        s.sound(),
        s.takes(answer),
    ensures
        s.settled(answer).written() == (match answer {
            PassAnswer::Written(id) => s.written().push(id@),
            _ => s.written(),
        }),
{
}

} // verus!
