//! What the curator asks, what it takes from the replies, and what it makes of them.
use vstd::prelude::*;
#[allow(unused_imports)]
use crate::context::content_laws::shows;
#[allow(unused_imports)]
use crate::context::inference::{events_block as told_events, inference_prompt, state_block};
#[allow(unused_imports)]
use crate::context::session_state::{EventDigest, StateView};
#[allow(unused_imports)]
use crate::context::prompt_laws::lemma_joined_shows;
#[allow(unused_imports)]
use crate::context::trailer::normalized;
#[allow(unused_imports)]
use crate::curator::conflict::{
    conflict_prompt, is_conflict, is_partner, note_block, partners_of, proposing, Verdict,
};
#[allow(unused_imports)]
use crate::curator::extract::{
    draft_of, first_fault, plain_of, routed, title_key, CandidateJson, CuratorConfig,
};
#[allow(unused_imports)]
use crate::curator::pass::{PassAnswer, PassView};
#[allow(unused_imports)]
use crate::curator::run::{
    capped_events, due_of, event_line, event_lines, event_time, events_block, extract_prompt,
    fitting, progressed, related_block_of, related_line, related_query_of, status_after, waiting_of,
    ExtractOutcome, Progress,
};
#[allow(unused_imports)]
use crate::curator::session::{session_draft, summary_prompt, EndedView};
#[allow(unused_imports)]
use crate::curator::status::CuratorStatus;
#[allow(unused_imports)]
use crate::note::{EventView, NodeStatus, NodeSummary, NodeType, NoteView, Source};
#[allow(unused_imports)]
use crate::outside::{is_letter_or_number, minute_stamp_of, rfc3339_of};
#[allow(unused_imports)]
use crate::text::{
    byte_len, decimal, has_part, is_space, joined, occurs_at, replaced, trim_end_by, trimmed,
    CharClass,
};
#[allow(unused_imports)]
use crate::text_laws::law_replacing;
#[allow(unused_imports)]
use crate::time::Timestamp;

verus! {

// ---------------------------------------------------------------------------
// Proposals
// ---------------------------------------------------------------------------

/// A reply is only accepted where each proposal names one of the six types of notes and has a title.
pub proof fn law_accepted_replies(l: Seq<CandidateJson>)
    ensures
        first_fault(l) is None <==> forall|i: int|
            0 <= i < l.len() ==> ({
                let k = (#[trigger] l[i]).kind@;
                (k == "fact"@ || k == "preference"@ || k == "decision"@ || k == "goal"@ || k
                    == "error"@ || k == "session"@) && trimmed(l[i].title@).len() > 0
            }),
    decreases l.len(),
{
    if l.len() > 0 {
        let b = l.drop_last();
        let n = l.len() - 1;
        law_accepted_replies(b);
        assert(forall|i: int| 0 <= i < n ==> #[trigger] b[i] == l[i]);
        if first_fault(l) is None {
            assert forall|i: int| 0 <= i < l.len() implies ({
                let k = (#[trigger] l[i]).kind@;
                (k == "fact"@ || k == "preference"@ || k == "decision"@ || k == "goal"@ || k
                    == "error"@ || k == "session"@) && trimmed(l[i].title@).len() > 0
            }) by {
                if i < n {
                    assert(b[i] == l[i]);
                }
            }
        } else if first_fault(b) is Some {
            let i = choose|i: int|
                0 <= i < b.len() && !({
                    let k = (#[trigger] b[i]).kind@;
                    (k == "fact"@ || k == "preference"@ || k == "decision"@ || k == "goal"@ || k
                        == "error"@ || k == "session"@) && trimmed(b[i].title@).len() > 0
                });
            assert(l[i] == b[i]);
        } else {
            assert(l[n] == l.last());
        }
    }
}

/// What becomes of a proposal: nothing below the floor; what the user said counts at once where it is
/// sure enough; everything else waits for the user.
pub proof fn law_proposal_routes(c: CandidateJson, cfg: CuratorConfig)
    ensures
        ({
            let told = c.source is Some && c.source->0@ == "user_statement"@;
            &&& c.confidence < cfg.discard_floor ==> routed(c, cfg) is None
            &&& c.confidence >= cfg.discard_floor && told && c.confidence
                >= cfg.auto_confirm_threshold ==> routed(c, cfg) == Some(NodeStatus::Confirmed)
            &&& c.confidence >= cfg.discard_floor && !(told && c.confidence
                >= cfg.auto_confirm_threshold) ==> routed(c, cfg) == Some(NodeStatus::Candidate)
        }),
{
}

/// The note of a proposal says what the proposal says, field by field, and where it comes from.
pub proof fn law_proposal_becomes_note(c: CandidateJson, status: NodeStatus)
    ensures
        ({
            let d = draft_of(c, status);
            &&& d.title == c.title@ && d.body == c.body@ && d.status == status
            &&& d.confidence == c.confidence && d.importance == c.importance
            &&& c.project is Some ==> d.project == Some(c.project->0@)
            &&& c.project is None ==> d.project is None
            &&& c.kind@ == "fact"@ ==> d.node_type == NodeType::Fact
            &&& c.kind@ == "preference"@ ==> d.node_type == NodeType::Preference
            &&& c.kind@ == "decision"@ ==> d.node_type == NodeType::Decision
            &&& c.kind@ == "goal"@ ==> d.node_type == NodeType::Goal
            &&& c.kind@ == "error"@ ==> d.node_type == NodeType::Error
            &&& c.kind@ == "session"@ ==> d.node_type == NodeType::Session
            &&& c.source is None ==> d.source == Source::Observed
            &&& c.source is Some && c.source->0@ == "user_statement"@ ==> d.source
                == Source::UserStatement
            &&& c.source is Some && c.source->0@ == "inferred"@ ==> d.source == Source::Inferred
            &&& c.source is Some && c.source->0@ == "agent_run"@ ==> d.source == Source::AgentRun
            &&& c.source is Some && c.source->0@ == "chat"@ ==> d.source == Source::Chat
            &&& c.source is Some && c.source->0@ == "manual"@ ==> d.source == Source::Manual
            &&& d.source == Source::UserStatement ==> c.source is Some && c.source->0@
                == "user_statement"@
            &&& d.source_ref == Some("curator:extract"@) && d.expires is None
            &&& d.relations.len() == c.relations@.len()
            &&& forall|i: int|
                0 <= i < d.relations.len() ==> (#[trigger] d.relations[i]).to == c.relations@[i].to@
                    && d.relations[i].rel == c.relations@[i].rel@ && d.relations[i].confidence
                    == c.relations@[i].confidence
            &&& d.tags.len() == c.tags@.len()
            &&& forall|i: int| 0 <= i < d.tags.len() ==> #[trigger] d.tags[i] == c.tags@[i]@
        }),
{
    reveal_strlit("fact");
    reveal_strlit("preference");
    reveal_strlit("decision");
    reveal_strlit("goal");
    reveal_strlit("error");
    reveal_strlit("session");
    reveal_strlit("user_statement");
    reveal_strlit("observed");
    reveal_strlit("inferred");
    reveal_strlit("agent_run");
    reveal_strlit("chat");
    reveal_strlit("manual");
    assert("fact"@[0] != "goal"@[0]);
    assert("observed"@[0] != "inferred"@[0]);
    assert("fact"@.len() == 4 && "preference"@.len() == 10 && "decision"@.len() == 8 && "goal"@.len()
        == 4 && "error"@.len() == 5 && "session"@.len() == 7);
    assert("user_statement"@.len() == 14 && "observed"@.len() == 8 && "inferred"@.len() == 8
        && "agent_run"@.len() == 9 && "chat"@.len() == 4 && "manual"@.len() == 6);
}

/// The punctuation of a title has no bearing on whether two titles are the same: only its letters,
/// its numbers and its white space have.
pub proof fn law_punctuation_is_passed_over(t: Seq<char>)
    ensures
        plain_of(t) == t.filter(|c: char| is_letter_or_number(c) || is_space(c)),
    decreases t.len(),
{
    reveal(Seq::filter);
    if t.len() > 0 {
        law_punctuation_is_passed_over(t.drop_last());
    }
}

/// A proposal that is not dropped and whose title no note has is written; any other is passed over,
/// and nothing is lost of what was written before.
pub proof fn law_new_proposals_are_written(p: PassView, hits: Vec<NodeSummary>)
    requires
        p.stage is Duplicates,
        p.sound(),
    ensures
        ({
            let c = p.stage->Duplicates_candidates[p.stage->Duplicates_at];
            let known = exists|i: int|
                0 <= i < hits@.len() && title_key((#[trigger] hits@[i]).title@) == title_key(c.title@);
            let n = p.settled(PassAnswer::Found(hits));
            &&& n.stage is Written <==> c.confidence >= p.cfg.discard_floor && !known
            &&& n.stage is Written ==> n.stage->Written_draft.title == c.title@
                && n.stage->Written_draft.body == c.body@ && n.stage->Written_draft.confidence
                == c.confidence && n.stage->Written_at == p.stage->Duplicates_at
                && n.stage->Written_created == p.stage->Duplicates_created
            &&& n.stage is Duplicates ==> n.stage->Duplicates_at == p.stage->Duplicates_at + 1
                && n.stage->Duplicates_created == p.stage->Duplicates_created
            &&& n.stage is Finished ==> p.stage->Duplicates_at + 1
                == p.stage->Duplicates_candidates.len() && n.stage->Finished_outcome is Some
                && n.stage->Finished_outcome->0.created_ids == p.stage->Duplicates_created
                && n.stage->Finished_outcome->0.llm_reachable
        }),
{
}

/// A pass without events ends at once, and one whose events cannot be fetched comes to nothing.
pub proof fn law_pass_needs_events(p: PassView, events: Vec<crate::note::Event>)
    requires
        p.stage is Events,
    ensures
        events@.len() == 0 ==> ({
            let n = p.settled(PassAnswer::Events(events));
            n.stage is Finished && n.stage->Finished_outcome is Some
                && n.stage->Finished_outcome->0.created_ids.len() == 0
                && n.stage->Finished_outcome->0.max_id_seen is None
                && n.stage->Finished_outcome->0.llm_reachable
        }),
        p.settled(PassAnswer::Failed).stage is Finished && p.settled(
            PassAnswer::Failed,
        ).stage->Finished_outcome is None,
        events@.len() > 0 ==> !(p.settled(PassAnswer::Events(events)).stage is Finished),
{
}

// ---------------------------------------------------------------------------
// Prompts
// ---------------------------------------------------------------------------

/// Whether a text has no brace that opens a placeholder.
pub open spec fn braceless(s: Seq<char>) -> bool {
    forall|i: int| 0 <= i < s.len() ==> #[trigger] s[i] != '{'
}

/// Whether a text is a placeholder.
pub open spec fn is_placeholder(p: Seq<char>) -> bool {
    p.len() > 2 && p[0] == '{' && p[1] == '{' && forall|i: int|
        2 <= i < p.len() ==> #[trigger] p[i] != '{'
}

proof fn lemma_filled(a: Seq<char>, p: Seq<char>, b: Seq<char>, v: Seq<char>)
    requires
        braceless(a),
        braceless(b),
        is_placeholder(p),
    ensures
        replaced(a + p + b, p, v) == a + v + b,
{
    assert forall|i: int| 0 <= i < a.len() implies !#[trigger] occurs_at(a + p + b, p, i) by {
        if occurs_at(a + p + b, p, i) {
            assert((a + p + b).subrange(i, i + p.len())[0] == a[i]);
        }
    }
    lemma_no_placeholder(b, p, v);
    law_replacing(a, p, b, v);
}

proof fn lemma_no_placeholder(b: Seq<char>, p: Seq<char>, v: Seq<char>)
    requires
        braceless(b),
        is_placeholder(p),
    ensures
        replaced(b, p, v) == b,
{
    if has_part(b, p) {
        let i = choose|i: int| occurs_at(b, p, i);
        assert(b.subrange(i, i + p.len())[0] == b[i]);
    }
    law_replacing(b, p, b, v);
}

/// A text whose only placeholder is another one stays as it is.
proof fn lemma_other_placeholder(
    a: Seq<char>,
    q: Seq<char>,
    b: Seq<char>,
    p: Seq<char>,
    v: Seq<char>,
    j: int,
)
    requires
        braceless(a),
        braceless(b),
        is_placeholder(p),
        is_placeholder(q),
        0 <= j < p.len() && j < q.len() && p[j] != q[j],
    ensures
        replaced(a + q + b, p, v) == a + q + b,
{
    let s = a + q + b;
    if has_part(s, p) {
        let i = choose|i: int| occurs_at(s, p, i);
        let t = s.subrange(i, i + p.len());
        assert(t[0] == s[i] && t[1] == s[i + 1] && t[j] == s[i + j]);
        let n = a.len();
        if i < n {
            assert(s[i] == a[i]);
        } else if i == n {
            assert(s[i + j] == q[j]);
        } else if i == n + 1 {
            assert(s[i + 1] == q[2]);
        } else if i < n + q.len() {
            assert(s[i] == q[i - n]);
        } else {
            assert(s[i] == b[i - n - q.len()]);
        }
    }
    law_replacing(s, p, b, v);
}

proof fn lemma_summary_placeholders()
    ensures
        is_placeholder("{{START}}"@) && "{{START}}"@.len() == 9 && "{{START}}"@[2] == 'S',
        is_placeholder("{{END}}"@) && "{{END}}"@.len() == 7 && "{{END}}"@[2] == 'E' && "{{END}}"@[3]
            == 'N',
        is_placeholder("{{PROCESS}}"@) && "{{PROCESS}}"@.len() == 11 && "{{PROCESS}}"@[2] == 'P'
            && "{{PROCESS}}"@[5] == 'C',
        is_placeholder("{{PROJECT}}"@) && "{{PROJECT}}"@.len() == 11 && "{{PROJECT}}"@[2] == 'P'
            && "{{PROJECT}}"@[5] == 'J',
        is_placeholder("{{EVENTS}}"@) && "{{EVENTS}}"@.len() == 10 && "{{EVENTS}}"@[2] == 'E'
            && "{{EVENTS}}"@[3] == 'V',
{
    reveal_strlit("{{START}}");
    reveal_strlit("{{END}}");
    reveal_strlit("{{PROCESS}}");
    reveal_strlit("{{PROJECT}}");
    reveal_strlit("{{EVENTS}}");
}

/// The prompt for the summary of a session tells when the session began and ended, its process, its
/// project and its events, each in the place that the template has for it.
pub proof fn law_summary_prompt_is_filled(
    a: Seq<char>,
    b: Seq<char>,
    e: EndedView,
    block: Seq<char>,
)
    requires
        braceless(a),
        braceless(b),
        braceless(rfc3339_of(e.started)),
        braceless(rfc3339_of(e.ended)),
        braceless(e.process),
        e.project_hint matches Some(p) ==> braceless(p),
    ensures
        summary_prompt(a + "{{START}}"@ + b, e, block) == a + rfc3339_of(e.started) + b,
        summary_prompt(a + "{{END}}"@ + b, e, block) == a + rfc3339_of(e.ended) + b,
        summary_prompt(a + "{{PROCESS}}"@ + b, e, block) == a + e.process + b,
        summary_prompt(a + "{{PROJECT}}"@ + b, e, block) == a + (match e.project_hint {
            Some(p) => p,
            None => "none"@,
        }) + b,
        summary_prompt(a + "{{EVENTS}}"@ + b, e, block) == a + block + b,
{
    lemma_summary_placeholders();
    reveal_strlit("none");
    let s = "{{START}}"@;
    let n = "{{END}}"@;
    let p = "{{PROCESS}}"@;
    let j = "{{PROJECT}}"@;
    let v = "{{EVENTS}}"@;
    let vs = rfc3339_of(e.started);
    let vn = rfc3339_of(e.ended);
    let vj = match e.project_hint {
        Some(p) => p,
        None => "none"@,
    };
    assert(braceless(vj));
    // The beginning.
    lemma_filled(a, s, b, vs);
    let t = a + vs + b;
    lemma_no_placeholder(t, n, vn);
    lemma_no_placeholder(t, p, e.process);
    lemma_no_placeholder(t, j, vj);
    lemma_no_placeholder(t, v, block);
    // The end.
    lemma_other_placeholder(a, n, b, s, vs, 2);
    lemma_filled(a, n, b, vn);
    let t = a + vn + b;
    lemma_no_placeholder(t, p, e.process);
    lemma_no_placeholder(t, j, vj);
    lemma_no_placeholder(t, v, block);
    // The process.
    lemma_other_placeholder(a, p, b, s, vs, 2);
    lemma_other_placeholder(a, p, b, n, vn, 2);
    lemma_filled(a, p, b, e.process);
    let t = a + e.process + b;
    lemma_no_placeholder(t, j, vj);
    lemma_no_placeholder(t, v, block);
    // The project.
    lemma_other_placeholder(a, j, b, s, vs, 2);
    lemma_other_placeholder(a, j, b, n, vn, 2);
    lemma_other_placeholder(a, j, b, p, e.process, 5);
    lemma_filled(a, j, b, vj);
    let t = a + vj + b;
    lemma_no_placeholder(t, v, block);
    // The events.
    lemma_other_placeholder(a, v, b, s, vs, 2);
    lemma_other_placeholder(a, v, b, n, vn, 3);
    lemma_other_placeholder(a, v, b, p, e.process, 2);
    lemma_other_placeholder(a, v, b, j, vj, 2);
    lemma_filled(a, v, b, block);
}

/// The prompt of a pass tells how many proposals are looked at, the events and the related notes,
/// each in the place that the template has for it.
pub proof fn law_extract_prompt_is_filled(
    a: Seq<char>,
    b: Seq<char>,
    max: int,
    events: Seq<EventView>,
    related: Seq<char>,
)
    requires
        braceless(a),
        braceless(b),
        0 <= max,
        braceless(events_block(events)),
    ensures
        extract_prompt(a + "{{MAX}}"@ + b, max, events, related) == a + decimal(max) + b,
        extract_prompt(a + "{{EVENTS}}"@ + b, max, events, related) == a + events_block(events) + b,
        extract_prompt(a + "{{RELATED}}"@ + b, max, events, related) == a + related + b,
{
    reveal_strlit("{{MAX}}");
    reveal_strlit("{{EVENTS}}");
    reveal_strlit("{{RELATED}}");
    let m = "{{MAX}}"@;
    let v = "{{EVENTS}}"@;
    let r = "{{RELATED}}"@;
    let block = events_block(events);
    assert(m.len() == 7 && m[2] == 'M' && v.len() == 10 && v[2] == 'E' && r.len() == 11 && r[2]
        == 'R');
    assert(is_placeholder(m) && is_placeholder(v) && is_placeholder(r));
    crate::text::lemma_decimal_digits(max);
    assert(braceless(decimal(max)));
    lemma_filled(a, m, b, decimal(max));
    let t = a + decimal(max) + b;
    lemma_no_placeholder(t, v, block);
    lemma_no_placeholder(t, r, related);
    lemma_other_placeholder(a, v, b, m, decimal(max), 2);
    lemma_filled(a, v, b, block);
    lemma_no_placeholder(a + block + b, r, related);
    lemma_other_placeholder(a, r, b, m, decimal(max), 2);
    lemma_other_placeholder(a, r, b, v, block, 2);
    lemma_filled(a, r, b, related);
}

/// The prompt about two notes shows the older one and the newer one, each with its title, the time at
/// which it was made and its text, in the place that the template has for it.
pub proof fn law_conflict_prompt_is_filled(
    a: Seq<char>,
    b: Seq<char>,
    older: NoteView,
    newer: NoteView,
)
    requires
        braceless(a),
        braceless(b),
        braceless(note_block(older)),
    ensures
        conflict_prompt(a + "{{OLD}}"@ + b, older, newer) == a + note_block(older) + b,
        conflict_prompt(a + "{{NEW}}"@ + b, older, newer) == a + note_block(newer) + b,
        note_block(older) == "Title: "@ + older.title + "\nCreated: "@ + rfc3339_of(older.created)
            + "\nBody: "@ + older.body,
{
    reveal_strlit("{{OLD}}");
    reveal_strlit("{{NEW}}");
    let o = "{{OLD}}"@;
    let n = "{{NEW}}"@;
    assert(o.len() == 7 && n.len() == 7 && o[2] == 'O' && n[2] == 'N');
    assert(is_placeholder(o) && is_placeholder(n));
    lemma_filled(a, o, b, note_block(older));
    lemma_no_placeholder(a + note_block(older) + b, n, note_block(newer));
    lemma_other_placeholder(a, n, b, o, note_block(older), 2);
    lemma_filled(a, n, b, note_block(newer));
}

/// Every event is in the block of events, with its time, its kind and its text, and every related
/// note in the block of those, with its title.
pub proof fn law_blocks_show_everything(
    events: Seq<EventView>,
    hits: Seq<NodeSummary>,
    i: int,
    j: int,
)
    requires
        0 <= i < events.len(),
        0 <= j < hits.len(),
    ensures
        shows(
            events_block(events),
            event_time(events[i].ts) + " "@ + events[i].kind + " — "@ + events[i].text,
        ),
        ({
            let said = match hits[j].snippet {
                Some(s) => s@,
                None => Seq::empty(),
            };
            shows(
                related_block_of(hits),
                "- "@ + hits[j].title@ + ": "@ + (if said.len() <= 100 {
                    said
                } else {
                    said.subrange(0, 100).push('…')
                }),
            )
        }),
{
    let l = event_lines(events);
    lemma_joined_shows(l, "\n"@, i);
    assert(l[i] == event_line(events[i]));
    let k = hits.map_values(|h: NodeSummary| related_line(h));
    lemma_joined_shows(k, "\n"@, j);
    assert(k[j] == related_line(hits[j]));
    let said = match hits[j].snippet {
        Some(s) => s@,
        None => Seq::<char>::empty(),
    };
    if said.len() > 100 {
        assert(said.take(100) =~= said.subrange(0, 100));
    }
}

/// The events that a prompt may show: the last forty, with up to a hundred and sixty characters of
/// each.
pub proof fn law_prompt_shows_the_last_events(events: Seq<EventView>, i: int)
    requires
        0 <= i < capped_events(events).len(),
    ensures
        capped_events(events).len() == (if events.len() <= 40 {
            events.len() as int
        } else {
            40
        }),
        ({
            let c = capped_events(events)[i];
            let e = events[events.len() - capped_events(events).len() + i];
            &&& c.id == e.id && c.ts == e.ts && c.kind == e.kind
            &&& e.text.len() <= 160 ==> c.text == e.text
            &&& e.text.len() > 160 ==> c.text == e.text.subrange(0, 160).push('…')
        }),
{
    let e = events[events.len() - capped_events(events).len() + i];
    if e.text.len() > 160 {
        assert(e.text.take(160) =~= e.text.subrange(0, 160));
    }
}

/// The oldest events are left out of a prompt until it fits, and no more of them than that takes.
pub proof fn law_oldest_events_are_left_out(
    template: Seq<char>,
    max: int,
    events: Seq<EventView>,
    related: Seq<char>,
)
    ensures
        ({
            let f = fitting(template, max, events, related);
            &&& f.len() <= events.len()
            &&& f == events.subrange(events.len() - f.len(), events.len() as int)
            &&& f.len() > 0 ==> byte_len(extract_prompt(template, max, f, related)) <= 3500
            &&& f.len() < events.len() ==> byte_len(
                extract_prompt(
                    template,
                    max,
                    events.subrange(events.len() - f.len() - 1, events.len() as int),
                    related,
                ),
            ) > 3500
        }),
    decreases events.len(),
{
    let f = fitting(template, max, events, related);
    if events.len() == 0 || byte_len(extract_prompt(template, max, events, related)) <= 3500 {
        assert(events.subrange(0, events.len() as int) =~= events);
    } else {
        let r = events.drop_first();
        law_oldest_events_are_left_out(template, max, r, related);
        assert(r.subrange(r.len() - f.len(), r.len() as int) =~= events.subrange(
            events.len() - f.len(),
            events.len() as int,
        ));
        if f.len() < r.len() {
            assert(r.subrange(r.len() - f.len() - 1, r.len() as int) =~= events.subrange(
                events.len() - f.len() - 1,
                events.len() as int,
            ));
        } else {
            assert(events.subrange(0, events.len() as int) =~= events);
        }
    }
}

/// The vault is searched for what the last three events say.
pub proof fn law_search_is_for_the_last_events(events: Seq<EventView>)
    ensures
        ({
            let last = if events.len() <= 3 {
                events
            } else {
                events.subrange(events.len() - 3, events.len() as int)
            };
            let q = joined(last.map_values(|e: EventView| e.text), " "@);
            related_query_of(events) == (if trimmed(q).len() == 0 {
                None
            } else {
                Some(q)
            })
        }),
{
    if events.len() > 3 {
        assert(events.skip(events.len() - 3) =~= events.subrange(
            events.len() - 3,
            events.len() as int,
        ));
    }
}

// ---------------------------------------------------------------------------
// Between passes
// ---------------------------------------------------------------------------

/// Where the curator stands after a pass. Events count as seen where the model was reached; where it
/// was not, they are tried again, and given up at the third failure in a row.
pub proof fn law_progress_after_pass(p: Progress, outcome: Option<ExtractOutcome>)
    requires
        p.window_failures < 3,
    ensures
        ({
            let n = progressed(p, outcome);
            let reached = outcome is Some && outcome->0.llm_reachable;
            let seen = if outcome is Some && outcome->0.max_id_seen is Some {
                outcome->0.max_id_seen->0
            } else {
                p.watermark
            };
            &&& reached ==> n.watermark == seen && n.window_failures == 0
            &&& !reached && p.window_failures < 2 ==> n.watermark == p.watermark
                && n.window_failures == p.window_failures + 1
            &&& !reached && p.window_failures == 2 ==> n.watermark == seen && n.window_failures == 0
        }),
{
}

/// How the curator is doing after a pass: the failures in a row and the notes written add up, and the
/// time of the pass is remembered.
pub proof fn law_status_after_pass(
    s: CuratorStatus,
    outcome: Option<ExtractOutcome>,
    pending: Option<u64>,
    now: Timestamp,
)
    requires
        s.consecutive_failures < u32::MAX,
        outcome matches Some(o) ==> s.candidates_written_total + o.created_ids@.len() <= u64::MAX,
    ensures
        ({
            let n = status_after(s, outcome, pending, now);
            let reached = outcome is Some && outcome->0.llm_reachable;
            &&& n.last_pass_at == Some(now)
            &&& pending is Some ==> n.pending_count == pending->0
            &&& pending is None ==> n.pending_count == s.pending_count
            &&& reached ==> n.consecutive_failures == 0 && n.candidates_written_total
                == s.candidates_written_total + outcome->0.created_ids@.len()
            &&& !reached ==> n.consecutive_failures == s.consecutive_failures + 1
                && n.candidates_written_total == s.candidates_written_total
        }),
{
}

/// A session waits for its note until `lag` minutes have passed since it ended, and not longer.
pub proof fn law_notes_become_due(l: Seq<EndedView>, lag: int, now: int)
    ensures
        due_of(l, lag, now) == l.filter(|e: EndedView| now - e.ended >= lag * 60_000_000_000),
        waiting_of(l, lag, now) == l.filter(|e: EndedView| now - e.ended < lag * 60_000_000_000),
    decreases l.len(),
{
    reveal(Seq::filter);
    if l.len() > 0 {
        law_notes_become_due(l.drop_last(), lag, now);
    }
}

/// The note of a session: named after its process and its end, about its project, with the reply of
/// the model as its text, and counting at once.
pub proof fn law_session_becomes_note(e: EndedView, reply: Seq<char>)
    ensures
        ({
            let d = session_draft(e, reply);
            &&& d.node_type == NodeType::Session
            &&& d.title == "Session: "@ + e.process + " — "@ + minute_stamp_of(e.ended)
            &&& d.body == normalized(trimmed(reply))
            &&& d.project == e.project_hint
            &&& d.status == NodeStatus::Confirmed && d.source == Source::Observed
            &&& d.confidence == 1_000_000 && d.importance == 500_000
            &&& d.source_ref == Some("curator:session"@) && d.expires is None
            &&& e.project_hint is None ==> d.relations.len() == 0
            &&& e.project_hint matches Some(p) ==> d.relations.len() == 1 && d.relations[0].to == p
                && d.relations[0].rel == "belongs_to"@ && d.relations[0].confidence == 1_000_000
        }),
{
}

// ---------------------------------------------------------------------------
// Conflicts
// ---------------------------------------------------------------------------

/// Whether a note that was found may contradict a new one: it is another one that counts, of the same
/// type, and the two do not name different projects.
pub open spec fn may_contradict(new: NoteView) -> spec_fn(NodeSummary) -> bool {
    |h: NodeSummary|
        h.id@ != new.id && h.node_type == new.node_type && h.status == NodeStatus::Confirmed && (
        new.project is None || h.project is None || new.project->0 == h.project->0@)
}

/// A new note is held against the first two notes found that may contradict it.
pub proof fn law_partners_are_the_first_two(hits: Seq<NodeSummary>, new: NoteView)
    ensures
        ({
            let f = hits.filter(may_contradict(new));
            partners_of(hits, new) == (if f.len() <= 2 {
                f
            } else {
                f.subrange(0, 2)
            })
        }),
    decreases hits.len(),
{
    reveal(Seq::filter);
    let f = hits.filter(may_contradict(new));
    if hits.len() > 0 {
        law_partners_are_the_first_two(hits.drop_last(), new);
        let h = hits.last();
        let b = hits.drop_last().filter(may_contradict(new));
        assert(may_contradict(new)(h) == is_partner(h, new));
        if may_contradict(new)(h) {
            assert(f == b.push(h));
            if b.len() > 2 {
                assert(f.subrange(0, 2) =~= b.subrange(0, 2));
            } else if b.len() == 2 {
                assert(f.subrange(0, 2) =~= b);
            }
        }
    }
}

/// A verdict is followed where it says that the new note supersedes or contradicts the old one and is
/// sure by one half at least. The new note then proposes to supersede the old one, and is otherwise as
/// it was.
pub proof fn law_verdict_is_followed(v: Verdict, note: NoteView, id: Seq<char>, confidence: int)
    ensures
        is_conflict(v) <==> (v.verdict@ == "supersedes"@ || v.verdict@ == "contradicts"@)
            && v.confidence >= 500_000,
        ({
            let n = proposing(note, id, confidence);
            &&& n == (NoteView { relations: n.relations, ..note })
            &&& n.relations.len() == note.relations.len() + 1
            &&& n.relations.drop_last() == note.relations
            &&& n.relations.last().to == id && n.relations.last().rel == "proposes_supersede"@
                && n.relations.last().confidence == confidence
        }),
{
    assert(proposing(note, id, confidence).relations.drop_last() =~= note.relations);
}

/// The prompt that asks a model about the session tells it the state and the events, each in the place
/// that the template has for it; and says so where there are no events.
pub proof fn law_inference_prompt_is_filled(
    a: Seq<char>,
    b: Seq<char>,
    s: StateView,
    events: Seq<EventDigest>,
    now: int,
)
    requires
        braceless(a),
        braceless(b),
        braceless(state_block(s, now)),
    ensures
        inference_prompt(a + "{{STATE}}"@ + b, s, events, now) == a + trim_end_by(
            state_block(s, now),
            CharClass::Space,
        ) + b,
        inference_prompt(a + "{{EVENTS}}"@ + b, s, events, now) == a + told_events(events, now) + b,
        told_events(Seq::empty(), now) == "(none)"@,
{
    reveal_strlit("{{STATE}}");
    reveal_strlit("{{EVENTS}}");
    let p = "{{STATE}}"@;
    let v = "{{EVENTS}}"@;
    assert(p.len() == 9 && p[2] == 'S' && v.len() == 10 && v[2] == 'E');
    assert(is_placeholder(p) && is_placeholder(v));
    let st = trim_end_by(state_block(s, now), CharClass::Space);
    let block = told_events(events, now);
    crate::text::lemma_trim_end_ends(state_block(s, now), CharClass::Space);
    assert(braceless(st)) by {
        assert forall|i: int| 0 <= i < st.len() implies #[trigger] st[i] != '{' by {
            assert(st[i] == state_block(s, now)[i]);
        }
    }
    lemma_filled(a, p, b, st);
    lemma_no_placeholder(a + st + b, v, block);
    lemma_other_placeholder(a, v, b, p, st, 2);
    lemma_filled(a, v, b, block);
}

/// The limits that the curator works with.
pub proof fn law_limits_of_the_curator()
    ensures
        crate::curator::pass::PASS_EVENT_LIMIT == 200,
        crate::curator::pass::RELATED_SEARCH_LIMIT == 8,
        crate::curator::pass::DUPLICATE_SEARCH_LIMIT == 5,
        crate::curator::pass::PROPOSALS_MAX_TOKENS == 1024,
        crate::curator::conflict_pass::PARTNER_SEARCH_LIMIT == 5,
        crate::curator::conflict_pass::VERDICT_MAX_TOKENS == 256,
        crate::curator::session::SUMMARY_EVENT_LIMIT == 300,
        crate::curator::summary::SUMMARY_MAX_TOKENS == 256,
        crate::curator::session::DEFAULT_SESSION_MIN_MINUTES == 5,
{
}

} // verus!
