//! # Emptying the stores
//!
//! A request to empty stores is left as a file. It stays until every store that it names is empty:
//! a failure ends the pass with an error and leaves the request for the next one. Only a request
//! that cannot be understood is put aside.
use vstd::prelude::*;
use crate::curator::run::{wipe_plan, WipePlan};
#[allow(unused_imports)]
use crate::text::views;

verus! {

/// Where the handling of a request stands.
#[derive(Debug, Clone, Copy, PartialEq, Eq, Structural)]
pub enum WipeStage {
    /// The request is to be read.
    Read,
    /// The raw log is to be emptied.
    RawLog,
    /// The memories are to be emptied.
    Episodic,
    /// The events of the vault are to be deleted.
    Events,
    /// The request is to be removed.
    Remove,
    /// The request is to be put aside.
    Aside,
    Over,
}

/// What came of a step.
#[derive(Debug, Clone, PartialEq, Eq)]
pub enum WipeAnswer {
    /// There is no request.
    Missing,
    /// There is one that cannot be understood.
    Malformed,
    /// The scopes that the request names.
    Scopes(Vec<String>),
    Done,
    Failed(String),
}

/// A request that is being handled.
#[derive(Debug, PartialEq, Eq)]
pub struct WipePass {
    /// The stores that the request names.
    pub plan: WipePlan,
    /// The stores that have been emptied.
    pub emptied: WipePlan,
    pub stage: WipeStage,
    /// What the handling came to: whether a request was carried out.
    pub outcome: Result<bool, String>,
}

/// No store.
pub open spec fn no_store() -> WipePlan {
    WipePlan { raw_log: false, episodic: false, events: false }
}

/// The next thing to do once the raw log is dealt with.
pub open spec fn past_raw_log(plan: WipePlan) -> WipeStage {
    if plan.episodic {
        WipeStage::Episodic
    } else {
        past_episodic(plan)
    }
}

/// The next thing to do once the memories are dealt with.
pub open spec fn past_episodic(plan: WipePlan) -> WipeStage {
    if plan.events {
        WipeStage::Events
    } else {
        WipeStage::Remove
    }
}

/// What the scopes of a request name. Names that are not known are passed over.
pub open spec fn planned(scopes: Seq<Seq<char>>) -> WipePlan {
    WipePlan {
        raw_log: scopes.contains("raw_log"@),
        episodic: scopes.contains("episodic"@),
        events: scopes.contains("events"@),
    }
}

/// Whether an answer is one to the step at hand.
pub open spec fn answers_to(stage: WipeStage, a: WipeAnswer) -> bool {
    match stage {
        WipeStage::Read => !(a is Done),
        WipeStage::Over => false,
        _ => a is Done || a is Failed,
    }
}

/// The handling of a request, ended.
pub open spec fn ended(p: WipePass, outcome: Result<bool, String>) -> WipePass {
    WipePass { stage: WipeStage::Over, outcome, ..p }
}

/// The handling of a request after an answer.
pub open spec fn after_step(p: WipePass, a: WipeAnswer) -> WipePass {
    match (p.stage, a) {
        (WipeStage::Aside, _) => ended(p, Ok(false)),
        (_, WipeAnswer::Failed(e)) => ended(p, Err(e)),
        (WipeStage::Read, WipeAnswer::Missing) => ended(p, Ok(false)),
        (WipeStage::Read, WipeAnswer::Malformed) => WipePass { stage: WipeStage::Aside, ..p },
        (WipeStage::Read, WipeAnswer::Scopes(scopes)) => {
            let plan = planned(views(scopes@));
            WipePass {
                plan,
                stage: if plan.raw_log {
                    WipeStage::RawLog
                } else {
                    past_raw_log(plan)
                },
                ..p
            }
        },
        (WipeStage::RawLog, _) => WipePass {
            emptied: WipePlan { raw_log: true, ..p.emptied },
            stage: past_raw_log(p.plan),
            ..p
        },
        (WipeStage::Episodic, _) => WipePass {
            emptied: WipePlan { episodic: true, ..p.emptied },
            stage: past_episodic(p.plan),
            ..p
        },
        (WipeStage::Events, _) => WipePass {
            emptied: WipePlan { events: true, ..p.emptied },
            stage: WipeStage::Remove,
            ..p
        },
        (WipeStage::Remove, _) => ended(p, Ok(true)),
        _ => p,
    }
}

/// The handling of a request at its beginning.
pub open spec fn is_begun(p: WipePass) -> bool {
    p.plan == no_store() && p.emptied == no_store() && p.stage == WipeStage::Read && p.outcome
        == Ok::<bool, String>(false)
}

impl WipePass {
    /// Begins to look for a request.
    pub fn begin() -> (r: Self)
        ensures
            is_begun(r),
    {
        let none = WipePlan { raw_log: false, episodic: false, events: false };
        WipePass { plan: none, emptied: none, stage: WipeStage::Read, outcome: Ok(false) }
    }

    /// Takes in what came of the step at hand.
    pub fn settle(&mut self, answer: WipeAnswer)
        requires
            answers_to(old(self).stage, answer),
        ensures
            *final(self) == after_step(*old(self), answer),
    {
        if self.stage == WipeStage::Aside {
            self.stage = WipeStage::Over;
            self.outcome = Ok(false);
            return;
        }
        match answer {
            WipeAnswer::Failed(e) => {
                self.stage = WipeStage::Over;
                self.outcome = Err(e);
            },
            WipeAnswer::Missing => {
                self.stage = WipeStage::Over;
                self.outcome = Ok(false);
            },
            WipeAnswer::Malformed => {
                self.stage = WipeStage::Aside;
            },
            WipeAnswer::Scopes(scopes) => {
                self.plan = wipe_plan(&scopes);
                self.stage = if self.plan.raw_log {
                    WipeStage::RawLog
                } else {
                    behind_raw_log(self.plan)
                };
            },
            WipeAnswer::Done => match self.stage {
                WipeStage::RawLog => {
                    self.emptied.raw_log = true;
                    self.stage = behind_raw_log(self.plan);
                },
                WipeStage::Episodic => {
                    self.emptied.episodic = true;
                    self.stage = behind_episodic(self.plan);
                },
                WipeStage::Events => {
                    self.emptied.events = true;
                    self.stage = WipeStage::Remove;
                },
                _ => {
                    self.stage = WipeStage::Over;
                    self.outcome = Ok(true);
                },
            },
        }
    }
}

/// The next thing to do once the memories are dealt with.
fn behind_episodic(plan: WipePlan) -> (r: WipeStage)
    ensures
        r == past_episodic(plan),
{
    if plan.events {
        WipeStage::Events
    } else {
        WipeStage::Remove
    }
}

/// The next thing to do once the raw log is dealt with.
fn behind_raw_log(plan: WipePlan) -> (r: WipeStage)
    ensures
        r == past_raw_log(plan),
{
    if plan.episodic {
        WipeStage::Episodic
    } else {
        behind_episodic(plan)
    }
}

// ---------------------------------------------------------------------------
// Laws
// ---------------------------------------------------------------------------

/// The handling of a request after a list of answers.
pub open spec fn after_steps(p: WipePass, answers: Seq<WipeAnswer>) -> WipePass
    decreases answers.len(),
{
    if answers.len() == 0 {
        p
    } else {
        after_step(after_steps(p, answers.drop_last()), answers.last())
    }
}

/// Whether each of a list of answers is one to the step at hand.
pub open spec fn all_answer(p: WipePass, answers: Seq<WipeAnswer>) -> bool
    decreases answers.len(),
{
    answers.len() > 0 ==> all_answer(p, answers.drop_last()) && answers_to(
        after_steps(p, answers.drop_last()).stage,
        answers.last(),
    )
}

/// Whether the request has been removed.
pub open spec fn is_removed(p: WipePass, answers: Seq<WipeAnswer>) -> bool
    decreases answers.len(),
{
    answers.len() > 0 && (is_removed(p, answers.drop_last()) || (after_steps(
        p,
        answers.drop_last(),
    ).stage == WipeStage::Remove && answers.last() is Done))
}

/// The stores that a stage finds emptied.
pub open spec fn in_order(p: WipePass) -> bool {
    match p.stage {
        WipeStage::Read => p.plan == no_store() && p.emptied == no_store(),
        WipeStage::RawLog => p.plan.raw_log && p.emptied == no_store(),
        WipeStage::Episodic => p.plan.episodic && p.emptied == (WipePlan {
            raw_log: p.plan.raw_log,
            ..no_store()
        }),
        WipeStage::Events => p.plan.events && p.emptied == (WipePlan { events: false, ..p.plan }),
        WipeStage::Remove => p.emptied == p.plan,
        WipeStage::Aside => p.plan == no_store() && p.emptied == no_store(),
        WipeStage::Over => p.outcome == Ok::<bool, String>(true) ==> p.emptied == p.plan,
    }
}

proof fn lemma_in_order(p: WipePass, answers: Seq<WipeAnswer>)
    requires
        is_begun(p),
        all_answer(p, answers),
    ensures
        in_order(after_steps(p, answers)),
        is_removed(p, answers) == (after_steps(p, answers).stage == WipeStage::Over && after_steps(
            p,
            answers,
        ).outcome == Ok::<bool, String>(true)),
        is_removed(p, answers) ==> answers.last() is Done,
    decreases answers.len(),
{
    if answers.len() > 0 {
        lemma_in_order(p, answers.drop_last());
    }
}

/// A request survives any failure: where a step of carrying it out fails, the handling ends with
/// that error, and the request has not been removed.
pub proof fn law_request_survives_failure(p: WipePass, answers: Seq<WipeAnswer>, e: String)
    requires
        is_begun(p),
        all_answer(p, answers),
        answers.len() > 0,
        answers.last() == WipeAnswer::Failed(e),
        after_steps(p, answers.drop_last()).stage != WipeStage::Aside,
    ensures
        after_steps(p, answers).stage == WipeStage::Over,
        after_steps(p, answers).outcome == Err::<bool, String>(e),
        !is_removed(p, answers),
{
    lemma_in_order(p, answers);
}

/// A request is removed only once every store that it names has been emptied, and no other store
/// is emptied.
pub proof fn law_removed_once_emptied(p: WipePass, answers: Seq<WipeAnswer>)
    requires
        is_begun(p),
        all_answer(p, answers),
    ensures
        is_removed(p, answers) ==> after_steps(p, answers).emptied == after_steps(p, answers).plan,
        ({
            let end = after_steps(p, answers);
            &&& end.emptied.raw_log ==> end.plan.raw_log
            &&& end.emptied.episodic ==> end.plan.episodic
            &&& end.emptied.events ==> end.plan.events
        }),
    decreases answers.len(),
{
    lemma_in_order(p, answers);
    if answers.len() > 0 {
        lemma_in_order(p, answers.drop_last());
        law_removed_once_emptied(p, answers.drop_last());
    }
}

/// The handling of a request ends after five answers at most.
pub proof fn law_wipe_ends(p: WipePass, answers: Seq<WipeAnswer>)
    requires
        is_begun(p),
        all_answer(p, answers),
    ensures
        answers.len() <= 5,
        answers.len() + steps_left(after_steps(p, answers).stage) <= 5,
    decreases answers.len(),
{
    if answers.len() > 0 {
        law_wipe_ends(p, answers.drop_last());
    }
}

/// How many steps may follow at most.
pub open spec fn steps_left(stage: WipeStage) -> int {
    match stage {
        WipeStage::Read => 5,
        WipeStage::RawLog => 4,
        WipeStage::Episodic => 3,
        WipeStage::Events => 2,
        WipeStage::Remove => 1,
        WipeStage::Aside => 1,
        WipeStage::Over => 0,
    }
}

} // verus!
