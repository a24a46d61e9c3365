//! # Summing up a session
//!
//! The events of a session are fetched, the model is asked for a summary, the note is written, and
//! the timeline gets an event that leads to it. The vault and the model are asked from outside:
//! `action` says what is to be asked next, and `settle` takes in the answer.
use vstd::prelude::*;
use crate::curator::session::{
    session_event, session_prompt, write_session_summary, EndedSession, SUMMARY_EVENT_LIMIT,
};
use crate::duplicate::Duplicate;
use crate::note::{Event, NewEvent, NoteDraft};
use crate::time::Timestamp;
#[allow(unused_imports)]
use crate::curator::run::events_block;
#[allow(unused_imports)]
use crate::curator::session::{session_draft, summary_prompt, EndedView, MIN_SUMMARY_EVENTS};
#[allow(unused_imports)]
use crate::note::{events_of, DraftView, NewEventView};
#[allow(unused_imports)]
use crate::text::trimmed;

verus! {

/// The tokens that a summary of a session may take.
pub const SUMMARY_MAX_TOKENS: u32 = 256;

/// What came of summing up a session.
#[derive(Debug, Clone, PartialEq, Eq)]
pub enum SummaryOutcome {
    /// A note was written; this is its id.
    Written(String),
    /// Too little happened, or the model found nothing worth it.
    Skipped,
    /// The events, the model or the vault failed.
    Failed,
}

/// What a `SummaryOutcome` holds.
pub enum SummaryOutcomeView {
    Written(Seq<char>),
    Skipped,
    Failed,
}

impl View for SummaryOutcome {
    type V = SummaryOutcomeView;

    open spec fn view(&self) -> SummaryOutcomeView {
        match *self {
            SummaryOutcome::Written(id) => SummaryOutcomeView::Written(id@),
            SummaryOutcome::Skipped => SummaryOutcomeView::Skipped,
            SummaryOutcome::Failed => SummaryOutcomeView::Failed,
        }
    }
}

/// What is to be done next.
#[derive(Debug, Clone, PartialEq, Eq)]
pub enum SummaryAction {
    /// Fetch the events of a span of time.
    FetchEvents { since: Timestamp, until: Timestamp, limit: u32 },
    /// Ask the model.
    Ask { prompt: String, max_tokens: u32 },
    /// Write this note.
    Write(NoteDraft),
    /// Put this event on the timeline.
    Append(NewEvent),
    /// Nothing.
    Finished(SummaryOutcome),
}

/// What came of it.
#[derive(Debug, Clone, PartialEq, Eq)]
pub enum SummaryAnswer {
    Events(Vec<Event>),
    Replied(String),
    /// The note that was written.
    Written { id: String, title: String },
    Appended,
    Failed,
}

/// What the summary waits for.
enum Phase {
    Events,
    Reply { prompt: String },
    Note { draft: NoteDraft },
    Event { event: NewEvent, id: String },
    Finished { outcome: SummaryOutcome },
}

/// What the summary waits for.
pub enum SummaryStage {
    Events,
    Reply { prompt: Seq<char> },
    Note { draft: DraftView },
    Event { event: NewEventView, id: Seq<char> },
    Finished { outcome: SummaryOutcomeView },
}

/// The summing up of a session.
pub struct SummaryPass {
    template: String,
    ended: EndedSession,
    phase: Phase,
}

/// Where a `SummaryPass` stands.
pub struct SummaryView {
    pub template: Seq<char>,
    pub ended: EndedView,
    pub stage: SummaryStage,
}

impl View for Phase {
    type V = SummaryStage;

    closed spec fn view(&self) -> SummaryStage {
        match *self {
            Phase::Events => SummaryStage::Events,
            Phase::Reply { prompt } => SummaryStage::Reply { prompt: prompt@ },
            Phase::Note { draft } => SummaryStage::Note { draft: draft@ },
            Phase::Event { event, id } => SummaryStage::Event { event: event@, id: id@ },
            Phase::Finished { outcome } => SummaryStage::Finished { outcome: outcome@ },
        }
    }
}

impl View for SummaryPass {
    type V = SummaryView;

    closed spec fn view(&self) -> SummaryView {
        SummaryView { template: self.template@, ended: self.ended@, stage: self.phase@ }
    }
}

/// The event that the note of a session leaves on the timeline.
pub open spec fn timeline_event(title: Seq<char>, id: Seq<char>, e: EndedView) -> NewEventView {
    NewEventView {
        kind: "session"@,
        text: title,
        project: e.project_hint,
        node_id: Some(id),
        local_only: false,
    }
}

impl SummaryView {
    /// The summing up at its beginning.
    pub open spec fn at_start(template: Seq<char>, ended: EndedView) -> SummaryView {
        SummaryView { template, ended, stage: SummaryStage::Events }
    }

    /// The summing up at its end.
    pub open spec fn over(self, outcome: SummaryOutcomeView) -> SummaryView {
        SummaryView { stage: SummaryStage::Finished { outcome }, ..self }
    }

    /// Whether an answer is one to what was asked. Everything can fail.
    pub open spec fn takes(self, answer: SummaryAnswer) -> bool {
        match answer {
            SummaryAnswer::Events(_) => self.stage is Events,
            SummaryAnswer::Replied(_) => self.stage is Reply,
            SummaryAnswer::Written { id, title } => self.stage is Note,
            SummaryAnswer::Appended => self.stage is Event,
            SummaryAnswer::Failed => self.stage !is Finished,
        }
    }

    /// The summing up after an answer. Once the note is written it counts, whether or not the
    /// timeline gets its event.
    pub open spec fn settled(self, answer: SummaryAnswer) -> SummaryView {
        match self.stage {
            SummaryStage::Events => match answer {
                SummaryAnswer::Events(l) => if l@.len() < MIN_SUMMARY_EVENTS {
                    self.over(SummaryOutcomeView::Skipped)
                } else {
                    SummaryView {
                        stage: SummaryStage::Reply {
                            prompt: summary_prompt(
                                self.template,
                                self.ended,
                                events_block(events_of(l@)),
                            ),
                        },
                        ..self
                    }
                },
                _ => self.over(SummaryOutcomeView::Failed),
            },
            SummaryStage::Reply { prompt } => match answer {
                SummaryAnswer::Replied(raw) => if trimmed(raw@) == "SKIP"@ {
                    self.over(SummaryOutcomeView::Skipped)
                } else {
                    SummaryView {
                        stage: SummaryStage::Note { draft: session_draft(self.ended, raw@) },
                        ..self
                    }
                },
                _ => self.over(SummaryOutcomeView::Failed),
            },
            SummaryStage::Note { draft } => match answer {
                SummaryAnswer::Written { id, title } => SummaryView {
                    stage: SummaryStage::Event {
                        event: timeline_event(title@, id@, self.ended),
                        id: id@,
                    },
                    ..self
                },
                _ => self.over(SummaryOutcomeView::Failed),
            },
            SummaryStage::Event { event, id } => self.over(SummaryOutcomeView::Written(id)),
            SummaryStage::Finished { outcome } => self,
        }
    }

    /// How far the summing up is from its end, at most.
    pub open spec fn left(self) -> int {
        match self.stage {
            SummaryStage::Events => 4,
            SummaryStage::Reply { prompt } => 3,
            SummaryStage::Note { draft } => 2,
            SummaryStage::Event { event, id } => 1,
            SummaryStage::Finished { outcome } => 0,
        }
    }
}

impl SummaryPass {
    /// The summing up of a session.
    pub fn begin(template: &str, ended: EndedSession) -> (r: Self)
        ensures
            r@ == SummaryView::at_start(template@, ended@),
    {
        SummaryPass { template: template.to_owned(), ended, phase: Phase::Events }
    }

    /// What is to be done next.
    pub fn action(&self) -> (r: SummaryAction)
        ensures
            match self@.stage {
                SummaryStage::Events => r matches SummaryAction::FetchEvents { since, until, limit }
                    && since.nanos == self@.ended.started && until.nanos == self@.ended.ended
                    && limit == SUMMARY_EVENT_LIMIT,
                SummaryStage::Reply { prompt } => r matches SummaryAction::Ask {
                    prompt: p,
                    max_tokens,
                } && p@ == prompt && max_tokens == SUMMARY_MAX_TOKENS,
                SummaryStage::Note { draft } => r matches SummaryAction::Write(d) && d@ == draft,
                SummaryStage::Event { event, id } => r matches SummaryAction::Append(e) && e@
                    == event,
                SummaryStage::Finished { outcome } => r matches SummaryAction::Finished(o) && o@
                    == outcome,
            },
    {
        match &self.phase {
            Phase::Events => SummaryAction::FetchEvents {
                since: self.ended.started,
                until: self.ended.ended,
                limit: SUMMARY_EVENT_LIMIT,
            },
            Phase::Reply { prompt } => SummaryAction::Ask {
                prompt: prompt.clone(),
                max_tokens: SUMMARY_MAX_TOKENS,
            },
            Phase::Note { draft } => SummaryAction::Write(draft.copy()),
            Phase::Event { event, id: _ } => SummaryAction::Append(event.duplicate()),
            Phase::Finished { outcome } => SummaryAction::Finished(
                match outcome {
                    SummaryOutcome::Written(id) => SummaryOutcome::Written(id.clone()),
                    SummaryOutcome::Skipped => SummaryOutcome::Skipped,
                    SummaryOutcome::Failed => SummaryOutcome::Failed,
                },
            ),
        }
    }

    /// Takes in an answer.
    pub fn settle(self, answer: SummaryAnswer) -> (r: Self)
        requires
            self@.takes(answer),
        ensures
            r@ == self@.settled(answer),
    {
        let SummaryPass { template, ended, phase } = self;
        let phase = match phase {
            Phase::Events => match answer {
                SummaryAnswer::Events(events) => match session_prompt(
                    template.as_str(),
                    &ended,
                    &events,
                ) {
                    Some(prompt) => Phase::Reply { prompt },
                    None => Phase::Finished { outcome: SummaryOutcome::Skipped },
                },
                _ => Phase::Finished { outcome: SummaryOutcome::Failed },
            },
            Phase::Reply { prompt: _ } => match answer {
                SummaryAnswer::Replied(raw) => match write_session_summary(&ended, raw.as_str()) {
                    Some(draft) => Phase::Note { draft },
                    None => Phase::Finished { outcome: SummaryOutcome::Skipped },
                },
                _ => Phase::Finished { outcome: SummaryOutcome::Failed },
            },
            Phase::Note { draft: _ } => match answer {
                SummaryAnswer::Written { id, title } => {
                    let event = session_event(title.as_str(), id.as_str(), &ended);
                    Phase::Event { event, id }
                },
                _ => Phase::Finished { outcome: SummaryOutcome::Failed },
            },
            Phase::Event { event: _, id } => Phase::Finished {
                outcome: SummaryOutcome::Written(id),
            },
            Phase::Finished { outcome } => Phase::Finished { outcome },
        };
        SummaryPass { template, ended, phase }
    }
}

/// Summing up ends, whatever the answers are: each brings it nearer to its end.
pub proof fn law_summary_ends(s: SummaryView, answer: SummaryAnswer)
    requires
        s.takes(answer),
    ensures
        0 <= s.settled(answer).left() < s.left(),
        s.settled(answer).left() == 0 <==> s.settled(answer).stage is Finished,
{
}

/// A note that was written is reported, even where the timeline does not get its event.
pub proof fn law_written_summary_is_reported(s: SummaryView, answer: SummaryAnswer)
    requires
        s.takes(answer),
        s.stage is Event,
    ensures
        s.settled(answer).stage == (SummaryStage::Finished {
            outcome: SummaryOutcomeView::Written(s.stage->Event_id),
        }),
{
}

} // verus!
