//! What the procedures of the curator come to, answer by answer: a pass over the events, the search
//! for conflicts, the summary of a session, a tick of the loop and a request to wipe.
use vstd::prelude::*;
#[allow(unused_imports)]
use crate::curator::conflict::{conflict_prompt, proposes, verdict_of, Verdict};
#[allow(unused_imports)]
use crate::curator::conflict_pass::{ConflictAnswer, ConflictView};
#[allow(unused_imports)]
use crate::curator::extract::{candidates_of, CandidateJson};
#[allow(unused_imports)]
use crate::curator::pass::{PassAnswer, PassView};
#[allow(unused_imports)]
use crate::curator::run::{
    budgeted_prompt, events_block, highest_id, related_block_of, related_query_of, SignalView,
};
#[allow(unused_imports)]
use crate::curator::schedule::{LoopView, TickStep};
#[allow(unused_imports)]
use crate::curator::session::{session_draft, summary_prompt, EndedView};
#[allow(unused_imports)]
use crate::curator::summary::{SummaryAnswer, SummaryOutcomeView, SummaryStage, SummaryView};
#[allow(unused_imports)]
use crate::curator::wipe::{after_step, is_begun, WipeAnswer, WipePass, WipeStage};
#[allow(unused_imports)]
use crate::note::{events_of, Event, NodeSummary, Note};
#[allow(unused_imports)]
use crate::text::{trimmed, views};

verus! {

// ---------------------------------------------------------------------------
// A pass over the events
// ---------------------------------------------------------------------------

/// With events at hand the vault is searched for what they are about, where they say anything; else
/// the model is asked at once. It is asked about these events, with the notes that were found.
pub proof fn law_pass_asks_about_its_events(
    p: PassView,
    events: Vec<Event>,
    q: PassView,
    hits: Vec<NodeSummary>,
)
    requires
        p.stage is Events,
        events@.len() > 0,
        q.stage is Related,
    ensures
        ({
            let n = p.settled(PassAnswer::Events(events));
            let l = events_of(events@);
            match related_query_of(l) {
                Some(x) => n.stage is Related && n.stage->Related_events == l
                    && n.stage->Related_query == x,
                None => n.stage is Reply && n.stage->Reply_prompt == budgeted_prompt(
                    p.template,
                    p.cfg.max_candidates_per_pass as int,
                    l,
                    Seq::empty(),
                ) && n.stage->Reply_seen == highest_id(l) && !n.stage->Reply_asked_again,
            }
        }),
        ({
            let n = q.settled(PassAnswer::Found(hits));
            let l = q.stage->Related_events;
            n.stage is Reply && n.stage->Reply_prompt == budgeted_prompt(
                q.template,
                q.cfg.max_candidates_per_pass as int,
                l,
                related_block_of(hits@),
            ) && n.stage->Reply_seen == highest_id(l) && !n.stage->Reply_asked_again
        }),
        ({
            let n = q.settled(PassAnswer::Failed);
            n.stage is Finished && n.stage->Finished_outcome is Some
                && !n.stage->Finished_outcome->0.llm_reachable
                && n.stage->Finished_outcome->0.created_ids.len() == 0
        }),
{
}

/// A reply that can be read leads to its proposals, as many as a pass looks at, from the first on. One
/// that cannot be read is asked for once more, with what was wrong; the second time the pass ends
/// without a note, though the model was there. Where the model is not there the pass says so.
pub proof fn law_pass_reads_the_reply(
    p: PassView,
    raw: String,
    readings: Vec<Result<Vec<CandidateJson>, String>>,
)
    requires
        p.stage is Reply,
    ensures
        ({
            let n = p.settled(PassAnswer::Replied { raw, readings });
            match candidates_of(raw@, readings@) {
                Ok(l) => {
                    let most = p.cfg.max_candidates_per_pass;
                    let k = if l@.len() <= most {
                        l@
                    } else {
                        l@.subrange(0, most as int)
                    };
                    if k.len() == 0 {
                        n.stage is Finished && n.stage->Finished_outcome is Some
                            && n.stage->Finished_outcome->0.llm_reachable
                            && n.stage->Finished_outcome->0.max_id_seen == p.stage->Reply_seen
                    } else {
                        n.stage is Duplicates && n.stage->Duplicates_candidates == k
                            && n.stage->Duplicates_at == 0 && n.stage->Duplicates_created.len() == 0
                            && n.stage->Duplicates_seen == p.stage->Reply_seen
                    }
                },
                Err(e) => if p.stage->Reply_asked_again {
                    n.stage is Finished && n.stage->Finished_outcome is Some
                        && n.stage->Finished_outcome->0.created_ids.len() == 0
                        && n.stage->Finished_outcome->0.llm_reachable
                        && n.stage->Finished_outcome->0.max_id_seen == p.stage->Reply_seen
                } else {
                    n.stage is Reply && n.stage->Reply_asked_again && n.stage->Reply_prompt
                        == p.stage->Reply_prompt + "\n\nYour previous reply was invalid: "@ + e
                        + ". Reply with ONLY the JSON array."@ && n.stage->Reply_seen
                        == p.stage->Reply_seen
                },
            }
        }),
        ({
            let n = p.settled(PassAnswer::Failed);
            n.stage is Finished && n.stage->Finished_outcome is Some
                && !n.stage->Finished_outcome->0.llm_reachable
                && n.stage->Finished_outcome->0.max_id_seen == p.stage->Reply_seen
        }),
{
    if let Ok(l) = candidates_of(raw@, readings@) {
        let most = p.cfg.max_candidates_per_pass;
        if l@.len() > most {
            assert(l@.take(most as int) =~= l@.subrange(0, most as int));
        }
    }
}

/// A note that was written is counted, and the next proposal comes up; the last one ends the pass with
/// all notes that were written.
pub proof fn law_pass_counts_written_notes(p: PassView, id: String)
    requires
        p.stage is Written,
        p.sound(),
    ensures
        ({
            let n = p.settled(PassAnswer::Written(id));
            let f = p.settled(PassAnswer::Failed);
            let at = p.stage->Written_at;
            let made = p.stage->Written_created;
            if at + 1 < p.stage->Written_candidates.len() {
                &&& n.stage is Duplicates && n.stage->Duplicates_at == at + 1
                    && n.stage->Duplicates_created == made.push(id@)
                &&& f.stage is Duplicates && f.stage->Duplicates_at == at + 1
                    && f.stage->Duplicates_created == made
            } else {
                &&& n.stage is Finished && n.stage->Finished_outcome is Some
                    && n.stage->Finished_outcome->0.created_ids == made.push(id@)
                    && n.stage->Finished_outcome->0.max_id_seen == p.stage->Written_seen
                    && n.stage->Finished_outcome->0.llm_reachable
                &&& f.stage is Finished && f.stage->Finished_outcome is Some
                    && f.stage->Finished_outcome->0.created_ids == made
            }
        }),
{
}

// ---------------------------------------------------------------------------
// Conflicts
// ---------------------------------------------------------------------------

/// Each new note is held against its partners one after the other, leaving out those that it proposes
/// to supersede already; then the next note comes up, until there is none.
pub proof fn law_pairs_come_one_by_one(
    s: ConflictView,
    note: crate::note::NoteView,
    partners: Seq<NodeSummary>,
    at: int,
)
    requires
        0 <= at,
    ensures
        ({
            let n = s.pair_from(note, partners, at);
            if exists|i: int|
                at <= i < partners.len() && !proposes(note.relations, (#[trigger] partners[i]).id@) {
                n.phase is Partner && at <= n.phase->Partner_at < partners.len()
                    && n.phase->Partner_note == note && n.phase->Partner_partners == partners
                    && !proposes(note.relations, partners[n.phase->Partner_at].id@) && (forall|i: int|
                    at <= i < n.phase->Partner_at ==> proposes(
                        note.relations,
                        (#[trigger] partners[i]).id@,
                    )) && n.next == s.next
            } else {
                &&& n.next == s.next + 1
                &&& s.next + 1 < s.ids.len() ==> n.phase is Note
                &&& s.next + 1 >= s.ids.len() ==> n.phase is Finished
            }
        }),
        s.pair_from(note, partners, at).created == s.created,
    decreases partners.len() - at,
{
    if at < partners.len() && proposes(note.relations, partners[at].id@) {
        law_pairs_come_one_by_one(s, note, partners, at + 1);
        let rest = exists|i: int|
            at + 1 <= i < partners.len() && !proposes(note.relations, (#[trigger] partners[i]).id@);
        let all = exists|i: int|
            at <= i < partners.len() && !proposes(note.relations, (#[trigger] partners[i]).id@);
        if all {
            let i = choose|i: int|
                at <= i < partners.len() && !proposes(note.relations, (#[trigger] partners[i]).id@);
            assert(i != at);
        }
        assert(all == rest);
    } else if at < partners.len() {
        assert(!proposes(note.relations, partners[at].id@));
    }
}

/// What comes of a pair. The model is asked about the older and the newer note. Where it finds a
/// conflict with enough confidence, the newer note proposes to supersede the older one, and is saved;
/// otherwise the note stays as it is.
pub proof fn law_verdict_on_a_pair(
    s: ConflictView,
    older: Note,
    t: ConflictView,
    raw: String,
    readings: Vec<Result<Verdict, String>>,
)
    requires
        s.phase is Partner,
        t.phase is Verdict,
        t.sound(),
    ensures
        ({
            let n = s.settled(ConflictAnswer::Loaded(older));
            n.phase is Verdict && n.phase->Verdict_prompt == conflict_prompt(
                s.template,
                older@,
                s.phase->Partner_note,
            ) && !n.phase->Verdict_asked_again && n.phase->Verdict_at == s.phase->Partner_at
                && n.phase->Verdict_note == s.phase->Partner_note
        }),
        ({
            let n = t.settled(ConflictAnswer::Replied { raw, readings });
            let v = verdict_of(raw@, readings@);
            let follows = v is Ok && (v->Ok_0.verdict@ == "supersedes"@ || v->Ok_0.verdict@
                == "contradicts"@) && v->Ok_0.confidence >= 500_000;
            &&& n.phase is Save <==> follows
            &&& follows ==> n.phase->Save_note.relations.last().to
                == t.phase->Verdict_partners[t.phase->Verdict_at].id@
                && n.phase->Save_note.relations.last().rel == "proposes_supersede"@
                && n.phase->Save_note.relations.last().confidence == v->Ok_0.confidence
                && n.phase->Save_note.relations.drop_last() == t.phase->Verdict_note.relations
                && n.phase->Save_note.id == t.phase->Verdict_note.id
            &&& v is Err && !t.phase->Verdict_asked_again ==> n.phase is Verdict
                && n.phase->Verdict_asked_again && n.phase->Verdict_at == t.phase->Verdict_at
            &&& n.created == t.created
        }),
{
    let note = t.phase->Verdict_note;
    law_pairs_come_one_by_one(t, note, t.phase->Verdict_partners, t.phase->Verdict_at + 1);
    let v = verdict_of(raw@, readings@);
    if v is Ok {
        let id = t.phase->Verdict_partners[t.phase->Verdict_at].id@;
        let p = crate::curator::conflict::proposing(note, id, v->Ok_0.confidence as int);
        assert(p.relations.drop_last() =~= note.relations);
    }
}

/// Only a note that was saved counts as a proposal.
pub proof fn law_saved_proposals_count(s: ConflictView)
    requires
        s.phase is Save,
        s.sound(),
    ensures
        s.settled(ConflictAnswer::Saved).created == s.created + 1,
        s.settled(ConflictAnswer::Failed).created == s.created,
{
    let note = s.phase->Save_note;
    let partners = s.phase->Save_partners;
    let at = s.phase->Save_at;
    law_pairs_come_one_by_one(s, note, partners, at + 1);
    law_pairs_come_one_by_one(
        ConflictView { created: s.created + 1, ..s },
        note,
        partners,
        at + 1,
    );
}

// ---------------------------------------------------------------------------
// Summaries
// ---------------------------------------------------------------------------

/// A session is summed up from its own events where there are three or more; with fewer, or where the
/// model finds nothing worth it, there is no note; a failure on the way is reported as one.
pub proof fn law_session_is_summed_up(
    s: SummaryView,
    events: Vec<Event>,
    t: SummaryView,
    raw: String,
    u: SummaryView,
    id: String,
    title: String,
)
    requires
        s.stage is Events,
        t.stage is Reply,
        u.stage is Note,
    ensures
        events@.len() < 3 ==> s.settled(SummaryAnswer::Events(events)).stage == (
        SummaryStage::Finished { outcome: SummaryOutcomeView::Skipped }),
        events@.len() >= 3 ==> s.settled(SummaryAnswer::Events(events)).stage == (
        SummaryStage::Reply {
            prompt: summary_prompt(s.template, s.ended, events_block(events_of(events@))),
        }),
        trimmed(raw@) == "SKIP"@ ==> t.settled(SummaryAnswer::Replied(raw)).stage == (
        SummaryStage::Finished { outcome: SummaryOutcomeView::Skipped }),
        trimmed(raw@) != "SKIP"@ ==> t.settled(SummaryAnswer::Replied(raw)).stage == (
        SummaryStage::Note { draft: session_draft(t.ended, raw@) }),
        ({
            let n = u.settled(SummaryAnswer::Written { id, title });
            &&& n.stage is Event && n.stage->Event_id == id@
            &&& n.stage->Event_event.kind == "session"@ && n.stage->Event_event.text == title@
                && n.stage->Event_event.project == u.ended.project_hint
                && n.stage->Event_event.node_id == Some(id@) && !n.stage->Event_event.local_only
        }),
        s.settled(SummaryAnswer::Failed).stage == (SummaryStage::Finished {
            outcome: SummaryOutcomeView::Failed,
        }),
        t.settled(SummaryAnswer::Failed).stage == (SummaryStage::Finished {
            outcome: SummaryOutcomeView::Failed,
        }),
        u.settled(SummaryAnswer::Failed).stage == (SummaryStage::Finished {
            outcome: SummaryOutcomeView::Failed,
        }),
{
}

// ---------------------------------------------------------------------------
// The loop
// ---------------------------------------------------------------------------

/// The housekeeping of a day: what has expired is swept out, and events are pruned to the days that
/// they are kept; then a request to wipe is looked for once more.
pub proof fn law_what_housekeeping_does(s: LoopView, today: i64)
    ensures
        s.last_hygiene != Some(today) ==> s.steps_on(today) == seq![
            TickStep::DrainWipeRequest,
            TickStep::SweepExpired,
            TickStep::PruneEvents { keep_days: s.events_retention_days },
            TickStep::DrainWipeRequest,
            TickStep::Extract { since_id: s.progress.watermark },
        ],
        s.last_hygiene == Some(today) ==> s.steps_on(today) == seq![
            TickStep::DrainWipeRequest,
            TickStep::Extract { since_id: s.progress.watermark },
        ],
{
}

/// A signal after a break of more than the idle minutes has the session that was in progress wait for
/// its note, behind those that wait already, and begins the next one.
pub proof fn law_loop_keeps_ended_sessions(s: LoopView, sig: SignalView, ts: int)
    requires
        s.session is Some,
        sig.ts == Some(ts),
        ts - s.session->0.last_activity > s.cfg.session_summary_idle_minutes * 60_000_000_000,
    ensures
        s.signalled(sig).pending == s.pending.push(
            EndedView {
                started: s.session->0.started,
                ended: s.session->0.last_activity,
                project_hint: s.session->0.project_hint,
                process: s.session->0.process,
            },
        ),
        s.signalled(sig).session is Some && s.signalled(sig).session->0.started == ts,
        s.signalled(sig).progress == s.progress,
{
}

/// Each session that waits is handed out once its time has come, and stays until then.
pub proof fn law_waiting_sessions_are_handed_out(s: LoopView, now: int)
    ensures
        s.due(now) == s.pending.filter(
            |e: EndedView| now - e.ended >= s.distill_lag_minutes * 60_000_000_000,
        ),
        s.flushed(now).pending == s.pending.filter(
            |e: EndedView| now - e.ended < s.distill_lag_minutes * 60_000_000_000,
        ),
        s.flushed(now).session == s.session && s.flushed(now).progress == s.progress,
{
    crate::curator::curation_laws::law_notes_become_due(s.pending, s.distill_lag_minutes, now);
}

// ---------------------------------------------------------------------------
// Wiping
// ---------------------------------------------------------------------------

/// A request is for the stores that it names, in the order raw log, memories, events. Without a
/// request nothing is done, and one that cannot be understood is put aside.
pub proof fn law_request_names_its_stores(p: WipePass, scopes: Vec<String>)
    requires
        is_begun(p),
    ensures
        ({
            let n = after_step(p, WipeAnswer::Scopes(scopes));
            let names = views(scopes@);
            let raw = names.contains("raw_log"@);
            let memories = names.contains("episodic"@);
            let events = names.contains("events"@);
            &&& n.plan.raw_log == raw && n.plan.episodic == memories && n.plan.events == events
            &&& n.stage == (if raw {
                WipeStage::RawLog
            } else if memories {
                WipeStage::Episodic
            } else if events {
                WipeStage::Events
            } else {
                WipeStage::Remove
            })
            &&& n.emptied == p.emptied
        }),
        after_step(p, WipeAnswer::Missing).stage == WipeStage::Over && after_step(
            p,
            WipeAnswer::Missing,
        ).outcome == Ok::<bool, String>(false),
        after_step(p, WipeAnswer::Malformed).stage == WipeStage::Aside,
{
}

/// A store that was emptied is followed by the next that the request names, and the last by the
/// removal of the request.
pub proof fn law_stores_are_emptied_in_turn(p: WipePass)
    ensures
        ({
            let n = after_step(p, WipeAnswer::Done);
            &&& p.stage == WipeStage::RawLog ==> n.emptied.raw_log && n.stage == (
            if p.plan.episodic {
                WipeStage::Episodic
            } else if p.plan.events {
                WipeStage::Events
            } else {
                WipeStage::Remove
            })
            &&& p.stage == WipeStage::Episodic ==> n.emptied.episodic && n.stage == (
            if p.plan.events {
                WipeStage::Events
            } else {
                WipeStage::Remove
            })
            &&& p.stage == WipeStage::Events ==> n.emptied.events && n.stage == WipeStage::Remove
            &&& p.stage == WipeStage::Remove ==> n.stage == WipeStage::Over && n.outcome == Ok::<
                bool,
                String,
            >(true)
            &&& p.stage == WipeStage::Aside ==> n.stage == WipeStage::Over && n.outcome == Ok::<
                bool,
                String,
            >(false)
        }),
{
}

} // verus!
