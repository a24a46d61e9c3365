//! # Passes
//!
//! A pass shows the model the events since the last one, within a budget, and reads what it
//! proposes to remember. What a pass has seen counts as seen even where the model could not be
//! reached often enough, so that the curator never stands still.
use vstd::prelude::*;
use crate::curator::extract::{CandidateJson, CuratorConfig};
use crate::curator::session::{EndedSession, SessionTracker};
use crate::curator::status::CuratorStatus;
use crate::duplicate::{duplicate_all, Duplicate};
use crate::note::{Event, NodeSummary};
use crate::outside::clock;
use crate::text::{byte_length, decimal_string, digit_char, join, replace, trim};
use crate::time::Timestamp;
#[allow(unused_imports)]
use crate::curator::session::{minutes, session_after, session_ended, EndedView, MAX_MINUTES};
#[allow(unused_imports)]
use crate::note::{events_of, EventView};
#[allow(unused_imports)]
use crate::outside::clock_of;
#[allow(unused_imports)]
use crate::text::{byte_len, decimal, joined, opt_view, replaced, trimmed, two_digits, views};

verus! {

/// The bytes that a prompt may have.
pub const PROMPT_CHAR_BUDGET: usize = 3500;

/// How many events a prompt shows.
pub const MAX_PROMPT_EVENTS: usize = 40;

/// The characters of the text of an event that a prompt shows.
pub const EVENT_TEXT_CHAR_CAP: usize = 160;

/// How many events at the end are searched for.
pub const RELATED_EVENTS: usize = 3;

/// The characters of a related note that a prompt shows.
pub const SNIPPET_CHAR_CAP: usize = 100;

/// After how many failures in a row the events of a pass are given up.
pub const MAX_CONSECUTIVE_WINDOW_FAILURES: u32 = 3;

/// The file that asks for everything to be deleted.
pub const WIPE_REQUEST_FILE: &'static str = "wipe-request.json";

/// What a file that asks for everything to be deleted is renamed to where it cannot be read.
pub const BAD_WIPE_REQUEST_FILE: &'static str = "wipe-request.json.bad";

/// What the user is doing right now.
#[derive(Debug, Clone, PartialEq, Eq)]
pub struct ActivitySignal {
    pub project_hint: Option<String>,
    /// The process in front.
    pub process: String,
    pub idle_seconds: u64,
    /// When it was taken. `None` before the first frame.
    pub ts: Option<Timestamp>,
}

/// What an `ActivitySignal` says of a session.
pub struct SignalView {
    pub project_hint: Option<Seq<char>>,
    pub process: Seq<char>,
    pub ts: Option<int>,
}

impl View for ActivitySignal {
    type V = SignalView;

    open spec fn view(&self) -> SignalView {
        SignalView {
            project_hint: opt_view(self.project_hint),
            process: self.process@,
            ts: match self.ts {
                Some(t) => Some(t.nanos as int),
                None => None,
            },
        }
    }
}

impl Default for ActivitySignal {
    fn default() -> (r: Self)
        ensures
            r@ == (SignalView { project_hint: None, process: Seq::empty(), ts: None }),
            r.idle_seconds == 0,
    {
        let r = ActivitySignal {
            project_hint: None,
            process: String::new(),
            idle_seconds: 0,
            ts: None,
        };
        assert(r@.process =~= Seq::empty());
        r
    }
}

// ---------------------------------------------------------------------------
// What a prompt shows
// ---------------------------------------------------------------------------

/// The time of day of an event: hours and minutes, or what is stored where that is no time.
pub open spec fn event_time(ts: Seq<char>) -> Seq<char> {
    match clock_of(ts) {
        Some((h, m)) => two_digits(h as int) + ":"@ + two_digits(m as int),
        None => ts,
    }
}

/// The line of an event.
pub open spec fn event_line(e: EventView) -> Seq<char> {
    event_time(e.ts) + " "@ + e.kind + " — "@ + e.text
}

/// The lines of some events.
pub open spec fn event_lines(events: Seq<EventView>) -> Seq<Seq<char>> {
    events.map_values(|e: EventView| event_line(e))
}

/// The lines of some events as one text.
pub open spec fn events_block(events: Seq<EventView>) -> Seq<char> {
    joined(event_lines(events), "\n"@)
}

/// Appends a number below one hundred as two digits.
fn append_two_digits(s: &mut String, n: u32)
    requires
        n < 100,
    ensures
        final(s)@ == old(s)@ + two_digits(n as int),
{
    let ghost before = s@;
    s.push(digit_char((n / 10) as u64));
    s.push(digit_char((n % 10) as u64));
    assert(s@ =~= before + two_digits(n as int));
}

/// The line of an event.
fn render_event(e: &Event) -> (r: String)
    ensures
        r@ == event_line(e@),
{
    let mut r = match clock(e.ts.as_str()) {
        Some((h, m)) => {
            let mut t = String::new();
            append_two_digits(&mut t, h);
            t.append(":");
            append_two_digits(&mut t, m);
            assert(t@ =~= two_digits(h as int) + ":"@ + two_digits(m as int));
            t
        },
        None => e.ts.clone(),
    };
    r.append(" ");
    r.append(e.kind.as_str());
    r.append(" — ");
    r.append(e.text.as_str());
    r
}

/// The lines of some events as one text.
pub fn build_events_block(events: &Vec<Event>) -> (r: String)
    ensures
        r@ == events_block(events_of(events@)),
{
    let mut rows: Vec<String> = Vec::new();
    let mut i: usize = 0;
    while i < events.len()
        invariant
            i <= events.len(),
            rows.len() == i,
            forall|j: int| 0 <= j < i ==> (#[trigger] rows@[j])@ == event_line(events@[j]@),
        decreases events.len() - i,
    {
        rows.push(render_event(&events[i]));
        i = i + 1;
    }
    proof {
        assert(views(rows@) =~= event_lines(events_of(events@)));
        assert(views(rows@).take(rows@.len() as int) == views(rows@));
    }
    join(&rows, rows.len(), "\n")
}

/// A text of at most `max` characters, with an ellipsis behind them where it had more.
pub open spec fn ellipsized(s: Seq<char>, max: int) -> Seq<char> {
    if s.len() <= max {
        s
    } else {
        s.take(max).push('…')
    }
}

/// Shortens a text to `max` characters.
pub fn truncate_chars(s: &str, max: usize) -> (r: String)
    ensures
        r@ == ellipsized(s@, max as int),
{
    let n: usize = s.unicode_len();
    if n <= max {
        s.to_owned()
    } else {
        let mut r = s.substring_char(0, max).to_owned();
        assert(s@.subrange(0, max as int) == s@.take(max as int));
        r.push('…');
        r
    }
}

/// The last `n` of a list.
pub open spec fn last_n<A>(l: Seq<A>, n: int) -> Seq<A> {
    if l.len() <= n {
        l
    } else {
        l.skip(l.len() - n)
    }
}

/// What the vault is searched for: the texts of the last events; nothing where they are blank.
pub open spec fn related_query_of(events: Seq<EventView>) -> Option<Seq<char>> {
    let q = joined(
        last_n(events, RELATED_EVENTS as int).map_values(|e: EventView| e.text),
        " "@,
    );
    if trimmed(q).len() == 0 {
        None
    } else {
        Some(q)
    }
}

/// What the vault is searched for; nothing where the last events say nothing.
pub fn related_query(events: &Vec<Event>) -> (r: Option<String>)
    ensures
        opt_view(r) == related_query_of(events_of(events@)),
{
    let start: usize = if events.len() > RELATED_EVENTS {
        events.len() - RELATED_EVENTS
    } else {
        0
    };
    let mut texts: Vec<String> = Vec::new();
    let mut i: usize = start;
    while i < events.len()
        invariant
            start <= i <= events.len(),
            texts.len() == i - start,
            forall|j: int|
                0 <= j < i - start ==> (#[trigger] texts@[j])@ == events@[start + j]@.text,
        decreases events.len() - i,
    {
        texts.push(events[i].text.clone());
        i = i + 1;
    }
    proof {
        let l = last_n(events_of(events@), RELATED_EVENTS as int);
        assert(views(texts@) =~= l.map_values(|e: EventView| e.text));
        assert(views(texts@).take(texts@.len() as int) == views(texts@));
    }
    let q = join(&texts, texts.len(), " ");
    if trim(q.as_str()).unicode_len() == 0 {
        None
    } else {
        Some(q)
    }
}

/// The line of a related note.
pub open spec fn related_line(h: NodeSummary) -> Seq<char> {
    "- "@ + h.title@ + ": "@ + ellipsized(
        match h.snippet {
            Some(s) => s@,
            None => Seq::empty(),
        },
        SNIPPET_CHAR_CAP as int,
    )
}

/// The lines of the related notes as one text.
pub open spec fn related_block_of(hits: Seq<NodeSummary>) -> Seq<char> {
    joined(hits.map_values(|h: NodeSummary| related_line(h)), "\n"@)
}

/// The lines of the related notes as one text.
pub fn build_related_block(hits: &Vec<NodeSummary>) -> (r: String)
    ensures
        r@ == related_block_of(hits@),
{
    let mut rows: Vec<String> = Vec::new();
    let mut i: usize = 0;
    while i < hits.len()
        invariant
            i <= hits.len(),
            rows.len() == i,
            forall|j: int| 0 <= j < i ==> (#[trigger] rows@[j])@ == related_line(hits@[j]),
        decreases hits.len() - i,
    {
        let h = &hits[i];
        let mut row = "- ".to_owned();
        row.append(h.title.as_str());
        row.append(": ");
        let snippet = match &h.snippet {
            Some(s) => truncate_chars(s.as_str(), SNIPPET_CHAR_CAP),
            None => {
                let none = String::new();
                assert(none@ =~= Seq::empty());
                truncate_chars(none.as_str(), SNIPPET_CHAR_CAP)
            },
        };
        row.append(snippet.as_str());
        rows.push(row);
        i = i + 1;
    }
    proof {
        assert(views(rows@) =~= hits@.map_values(|h: NodeSummary| related_line(h)));
        assert(views(rows@).take(rows@.len() as int) == views(rows@));
    }
    join(&rows, rows.len(), "\n")
}

/// The prompt of a pass.
pub open spec fn extract_prompt(
    template: Seq<char>,
    max: int,
    events: Seq<EventView>,
    related: Seq<char>,
) -> Seq<char> {
    replaced(
        replaced(replaced(template, "{{MAX}}"@, decimal(max)), "{{EVENTS}}"@, events_block(events)),
        "{{RELATED}}"@,
        related,
    )
}

/// The events that a prompt shows at most: the last ones, each shortened.
pub open spec fn capped_events(events: Seq<EventView>) -> Seq<EventView> {
    last_n(events, MAX_PROMPT_EVENTS as int).map_values(
        |e: EventView|
            EventView { text: ellipsized(e.text, EVENT_TEXT_CHAR_CAP as int), ..e },
    )
}

/// The events with which the prompt fits into the budget: the oldest are left out until it does.
pub open spec fn fitting(
    template: Seq<char>,
    max: int,
    events: Seq<EventView>,
    related: Seq<char>,
) -> Seq<EventView>
    decreases events.len(),
{
    if events.len() == 0 || byte_len(extract_prompt(template, max, events, related))
        <= PROMPT_CHAR_BUDGET {
        events
    } else {
        fitting(template, max, events.drop_first(), related)
    }
}

/// The prompt of a pass, within the budget.
pub open spec fn budgeted_prompt(
    template: Seq<char>,
    max: int,
    events: Seq<EventView>,
    related: Seq<char>,
) -> Seq<char> {
    extract_prompt(template, max, fitting(template, max, capped_events(events), related), related)
}

/// The prompt of a pass.
fn build_prompt(template: &str, max: u32, events: &Vec<Event>, related: &str) -> (r: String)
    ensures
        r@ == extract_prompt(template@, max as int, events_of(events@), related@),
{
    proof {
        reveal_strlit("{{MAX}}");
        reveal_strlit("{{EVENTS}}");
        reveal_strlit("{{RELATED}}");
    }
    let p = replace(template, "{{MAX}}", decimal_string(max as u64).as_str());
    let block = build_events_block(events);
    let p = replace(p.as_str(), "{{EVENTS}}", block.as_str());
    replace(p.as_str(), "{{RELATED}}", related)
}

/// The events that a prompt shows at most.
fn cap_events(events: &Vec<Event>) -> (r: Vec<Event>)
    ensures
        events_of(r@) == capped_events(events_of(events@)),
{
    let start: usize = if events.len() > MAX_PROMPT_EVENTS {
        events.len() - MAX_PROMPT_EVENTS
    } else {
        0
    };
    let mut r: Vec<Event> = Vec::new();
    let mut i: usize = start;
    while i < events.len()
        invariant
            start <= i <= events.len(),
            r.len() == i - start,
            forall|j: int|
                0 <= j < i - start ==> (#[trigger] r@[j])@ == (EventView {
                    text: ellipsized(events@[start + j]@.text, EVENT_TEXT_CHAR_CAP as int),
                    ..events@[start + j]@
                }),
        decreases events.len() - i,
    {
        let e = &events[i];
        r.push(
            Event {
                id: e.id,
                ts: e.ts.clone(),
                kind: e.kind.clone(),
                text: truncate_chars(e.text.as_str(), EVENT_TEXT_CHAR_CAP),
            },
        );
        i = i + 1;
    }
    assert(events_of(r@) =~= capped_events(events_of(events@)));
    r
}

/// The prompt of a pass, within the budget.
pub fn budget_prompt(template: &str, max: u32, events: &Vec<Event>, related: &str) -> (r: String)
    ensures
        r@ == budgeted_prompt(template@, max as int, events_of(events@), related@),
{
    let mut shown = cap_events(events);
    let ghost all = events_of(shown@);
    let mut prompt = build_prompt(template, max, &shown, related);
    while byte_length(prompt.as_str()) > PROMPT_CHAR_BUDGET && shown.len() > 0
        invariant
            prompt@ == extract_prompt(template@, max as int, events_of(shown@), related@),
            fitting(template@, max as int, events_of(shown@), related@) == fitting(
                template@,
                max as int,
                all,
                related@,
            ),
        decreases shown.len(),
    {
        let ghost before = shown@;
        shown.remove(0);
        assert(events_of(shown@) =~= events_of(before).drop_first());
        prompt = build_prompt(template, max, &shown, related);
    }
    prompt
}

// ---------------------------------------------------------------------------
// How a pass goes on
// ---------------------------------------------------------------------------

/// What a pass came to.
#[derive(Debug, Clone, PartialEq, Eq)]
pub struct ExtractOutcome {
    /// The ids of the notes that were written.
    pub created_ids: Vec<String>,
    /// The highest id among the events of the pass; none where there were none.
    pub max_id_seen: Option<i64>,
    /// Whether the model answered at all.
    pub llm_reachable: bool,
}

/// What an `ExtractOutcome` holds.
#[verifier::ext_equal]
pub struct OutcomeView {
    pub created_ids: Seq<Seq<char>>,
    pub max_id_seen: Option<int>,
    pub llm_reachable: bool,
}

impl View for ExtractOutcome {
    type V = OutcomeView;

    open spec fn view(&self) -> OutcomeView {
        OutcomeView {
            created_ids: views(self.created_ids@),
            max_id_seen: opt_int(self.max_id_seen),
            llm_reachable: self.llm_reachable,
        }
    }
}

impl ExtractOutcome {
    /// A pass that wrote nothing.
    pub fn empty(max_id_seen: Option<i64>, llm_reachable: bool) -> (r: Self)
        ensures
            r.created_ids@.len() == 0,
            r.max_id_seen == max_id_seen,
            r.llm_reachable == llm_reachable,
    {
        ExtractOutcome { created_ids: Vec::new(), max_id_seen, llm_reachable }
    }

    /// A copy of the outcome.
    pub fn copy(&self) -> (r: Self)
        ensures
            r@ == self@,
    {
        ExtractOutcome {
            created_ids: duplicate_all(&self.created_ids),
            max_id_seen: self.max_id_seen,
            llm_reachable: self.llm_reachable,
        }
    }
}

/// The highest id of some events; none where there are none.
pub open spec fn highest_id(events: Seq<EventView>) -> Option<int>
    decreases events.len(),
{
    if events.len() == 0 {
        None
    } else {
        match highest_id(events.drop_last()) {
            Some(m) => if events.last().id > m {
                Some(events.last().id)
            } else {
                Some(m)
            },
            None => Some(events.last().id),
        }
    }
}

/// The highest id of some events; none where there are none.
pub fn max_id(events: &Vec<Event>) -> (r: Option<i64>)
    ensures
        opt_int(r) == highest_id(events_of(events@)),
{
    let ghost v = events_of(events@);
    let mut m: Option<i64> = None;
    let mut i: usize = 0;
    while i < events.len()
        invariant
            i <= events.len(),
            v == events_of(events@),
            opt_int(m) == highest_id(v.take(i as int)),
        decreases events.len() - i,
    {
        proof {
            assert(v.take(i + 1).drop_last() == v.take(i as int));
            assert(v.take(i + 1).last() == events@[i as int]@);
        }
        let id: i64 = events[i].id;
        m = match m {
            Some(k) => if id > k {
                Some(id)
            } else {
                Some(k)
            },
            None => Some(id),
        };
        i = i + 1;
    }
    assert(v.take(v.len() as int) == v);
    m
}

/// An optional number.
pub open spec fn opt_int(o: Option<i64>) -> Option<int> {
    match o {
        Some(n) => Some(n as int),
        None => None,
    }
}

/// What the model answered.
#[derive(Debug, Clone, PartialEq, Eq)]
pub enum Reply {
    /// Nothing.
    Unreachable,
    /// Something that cannot be read, for this reason.
    Unreadable(String),
    Read(Vec<CandidateJson>),
}

/// How a pass goes on.
#[derive(Debug, Clone, PartialEq, Eq)]
pub enum PassStep {
    /// The model is to be asked once more, with this prompt.
    AskAgain(String),
    /// These proposals are to be looked at.
    Consider(Vec<CandidateJson>),
    /// The pass is over.
    Stop(ExtractOutcome),
}

/// The prompt that asks once more: the same, with what was wrong with the reply.
pub open spec fn retry_text(prompt: Seq<char>, error: Seq<char>) -> Seq<char> {
    prompt + "\n\nYour previous reply was invalid: "@ + error
        + ". Reply with ONLY the JSON array."@
}

/// How a pass goes on after a reply. One that cannot be read is asked for once more, and only
/// once; after that the pass is over, but the model was there. Only so many proposals are looked
/// at.
pub fn extract_pass(
    prompt: &str,
    reply: Reply,
    asked_again: bool,
    max_id_seen: Option<i64>,
    cfg: &CuratorConfig,
) -> (r: PassStep)
    ensures
        match reply {
            Reply::Unreachable => r matches PassStep::Stop(o) && o.created_ids@.len() == 0
                && o.max_id_seen == max_id_seen && !o.llm_reachable,
            Reply::Unreadable(e) => if asked_again {
                r matches PassStep::Stop(o) && o.created_ids@.len() == 0 && o.max_id_seen
                    == max_id_seen && o.llm_reachable
            } else {
                r matches PassStep::AskAgain(p) && p@ == retry_text(prompt@, e@)
            },
            Reply::Read(l) => r matches PassStep::Consider(k) && k@ == (if l@.len()
                <= cfg.max_candidates_per_pass {
                l@
            } else {
                l@.take(cfg.max_candidates_per_pass as int)
            }),
        },
{
    match reply {
        Reply::Unreachable => PassStep::Stop(ExtractOutcome::empty(max_id_seen, false)),
        Reply::Unreadable(e) => {
            if asked_again {
                return PassStep::Stop(ExtractOutcome::empty(max_id_seen, true));
            }
            let mut p = prompt.to_owned();
            p.append("\n\nYour previous reply was invalid: ");
            p.append(e.as_str());
            p.append(". Reply with ONLY the JSON array.");
            PassStep::AskAgain(p)
        },
        Reply::Read(l) => {
            let mut l = l;
            if l.len() as u64 > cfg.max_candidates_per_pass as u64 {
                l.truncate(cfg.max_candidates_per_pass as usize);
            }
            PassStep::Consider(l)
        },
    }
}

// ---------------------------------------------------------------------------
// After a pass
// ---------------------------------------------------------------------------

/// Where the curator stands between passes.
#[derive(Debug, Clone, Copy, PartialEq, Eq, Structural)]
pub struct Progress {
    /// The id of the last event that counts as seen.
    pub watermark: i64,
    /// How many passes over the same events have failed in a row.
    pub window_failures: u32,
}

/// Where the curator stands after a pass; `None` is a pass for which no events could be fetched.
/// Where the model could be reached, the events are seen. Where it could not, they are tried again,
/// but given up after some failures.
pub open spec fn progressed(p: Progress, outcome: Option<ExtractOutcome>) -> Progress {
    let seen = match outcome {
        Some(o) => match o.max_id_seen {
            Some(m) => m,
            None => p.watermark,
        },
        None => p.watermark,
    };
    if outcome matches Some(o) && o.llm_reachable {
        Progress { watermark: seen, window_failures: 0 }
    } else if p.window_failures + 1 >= MAX_CONSECUTIVE_WINDOW_FAILURES {
        Progress { watermark: seen, window_failures: 0 }
    } else {
        Progress { window_failures: (p.window_failures + 1) as u32, ..p }
    }
}

/// How the curator is doing after a pass.
pub open spec fn status_after(
    s: CuratorStatus,
    outcome: Option<ExtractOutcome>,
    pending: Option<u64>,
    now: Timestamp,
) -> CuratorStatus {
    let well = outcome matches Some(o) && o.llm_reachable;
    CuratorStatus {
        last_pass_at: Some(now),
        pending_count: match pending {
            Some(n) => n,
            None => s.pending_count,
        },
        consecutive_failures: if well {
            0
        } else {
            (s.consecutive_failures + 1) as u32
        },
        candidates_written_total: if well {
            (s.candidates_written_total + outcome->0.created_ids@.len()) as u64
        } else {
            s.candidates_written_total
        },
    }
}

/// Takes in what a pass came to: where the curator stands, and how it is doing. `pending` is how
/// many notes wait for the user, where that could be found out.
pub fn curator_tick(
    progress: &mut Progress,
    status: &mut CuratorStatus,
    outcome: &Option<ExtractOutcome>,
    pending: Option<u64>,
    now: Timestamp,
)
    requires
        old(progress).window_failures < u32::MAX,
        old(status).consecutive_failures < u32::MAX,
        outcome matches Some(o) ==> old(status).candidates_written_total + o.created_ids@.len()
            <= u64::MAX,
    ensures
        *final(progress) == progressed(*old(progress), *outcome),
        *final(status) == status_after(*old(status), *outcome, pending, now),
        final(progress).window_failures < MAX_CONSECUTIVE_WINDOW_FAILURES,
{
    status.last_pass_at = Some(now);
    if let Some(n) = pending {
        status.pending_count = n;
    }
    let mut seen: i64 = progress.watermark;
    let mut well: bool = false;
    if let Some(o) = outcome {
        if let Some(m) = o.max_id_seen {
            seen = m;
        }
        well = o.llm_reachable;
        if well {
            status.candidates_written_total = status.candidates_written_total
                + o.created_ids.len() as u64;
        }
    }
    if well {
        status.consecutive_failures = 0;
        progress.watermark = seen;
        progress.window_failures = 0;
    } else {
        status.consecutive_failures = status.consecutive_failures + 1;
        if progress.window_failures + 1 >= MAX_CONSECUTIVE_WINDOW_FAILURES {
            progress.watermark = seen;
            progress.window_failures = 0;
        } else {
            progress.window_failures = progress.window_failures + 1;
        }
    }
}

// ---------------------------------------------------------------------------
// Sessions that wait for their note
// ---------------------------------------------------------------------------

/// What a list of sessions holds.
pub open spec fn ended_of(l: Seq<EndedSession>) -> Seq<EndedView> {
    l.map_values(|e: EndedSession| e@)
}

/// Takes in a signal; a session that it ends waits for its note.
pub fn observe_session_boundary(
    tracker: &mut SessionTracker,
    pending: &mut Vec<EndedSession>,
    sig: &ActivitySignal,
    idle_limit_min: u64,
)
    requires
        old(tracker).well_formed(),
        idle_limit_min <= MAX_MINUTES,
    ensures
        final(tracker).session() == session_after(
            old(tracker).session(),
            sig@,
            idle_limit_min as int,
            old(tracker).least(),
        ),
        final(tracker).least() == old(tracker).least(),
        ended_of(final(pending)@) == (match session_ended(
            old(tracker).session(),
            sig@,
            idle_limit_min as int,
            old(tracker).least(),
        ) {
            Some(e) => ended_of(old(pending)@).push(e),
            None => ended_of(old(pending)@),
        }),
        final(tracker).well_formed(),
{
    let ghost before = pending@;
    if let Some(ended) = tracker.observe(sig, idle_limit_min) {
        let ghost v = ended@;
        pending.push(ended);
        assert(ended_of(pending@) =~= ended_of(before).push(v));
    }
}

/// Whether the note of a session is due: what happened in it has reached the timeline.
pub open spec fn is_due(e: EndedView, lag: int, now: int) -> bool {
    e.ended + minutes(lag) <= now
}

/// The sessions whose note is due.
pub open spec fn due_of(l: Seq<EndedView>, lag: int, now: int) -> Seq<EndedView>
    decreases l.len(),
{
    if l.len() == 0 {
        seq![]
    } else if is_due(l.last(), lag, now) {
        due_of(l.drop_last(), lag, now).push(l.last())
    } else {
        due_of(l.drop_last(), lag, now)
    }
}

/// The sessions whose note is not due yet.
pub open spec fn waiting_of(l: Seq<EndedView>, lag: int, now: int) -> Seq<EndedView>
    decreases l.len(),
{
    if l.len() == 0 {
        seq![]
    } else if is_due(l.last(), lag, now) {
        waiting_of(l.drop_last(), lag, now)
    } else {
        waiting_of(l.drop_last(), lag, now).push(l.last())
    }
}

/// Takes the sessions whose note is due out of those that wait.
pub fn flush_due_sessions(pending: &mut Vec<EndedSession>, distill_lag_minutes: u64, now: Timestamp) -> (r:
    Vec<EndedSession>)
    requires
        distill_lag_minutes <= MAX_MINUTES,
    ensures
        ended_of(r@) == due_of(
            ended_of(old(pending)@),
            distill_lag_minutes as int,
            now.nanos as int,
        ),
        ended_of(final(pending)@) == waiting_of(
            ended_of(old(pending)@),
            distill_lag_minutes as int,
            now.nanos as int,
        ),
{
    let ghost all = ended_of(pending@);
    let ghost lag = distill_lag_minutes as int;
    let ghost n = now.nanos as int;
    let span: i128 = distill_lag_minutes as i128 * 60_000_000_000;
    let mut due: Vec<EndedSession> = Vec::new();
    let mut waiting: Vec<EndedSession> = Vec::new();
    let mut i: usize = 0;
    assert(ended_of(due@) =~= seq![]);
    assert(ended_of(waiting@) =~= seq![]);
    while i < pending.len()
        invariant
            i <= pending.len(),
            ended_of(pending@) == all,
            lag == distill_lag_minutes,
            n == now.nanos,
            span == minutes(lag),
            0 <= span <= 0x1_0000_0000_0000_0000_0000_0000,
            ended_of(due@) == due_of(all.take(i as int), lag, n),
            ended_of(waiting@) == waiting_of(all.take(i as int), lag, n),
        decreases pending.len() - i,
    {
        let e = &pending[i];
        let ghost due_before = due@;
        let ghost waiting_before = waiting@;
        proof {
            assert(all.take(i + 1).drop_last() == all.take(i as int));
            assert(all.take(i + 1).last() == e@);
        }
        if e.ended.nanos as i128 + span <= now.nanos as i128 {
            due.push(e.duplicate());
            assert(ended_of(due@) =~= ended_of(due_before).push(e@));
        } else {
            waiting.push(e.duplicate());
            assert(ended_of(waiting@) =~= ended_of(waiting_before).push(e@));
        }
        i = i + 1;
    }
    assert(all.take(all.len() as int) == all);
    *pending = waiting;
    due
}

// ---------------------------------------------------------------------------
// Housekeeping
// ---------------------------------------------------------------------------

/// Which stores are to be emptied.
#[derive(Debug, Clone, Copy, PartialEq, Eq, Structural)]
pub struct WipePlan {
    pub raw_log: bool,
    pub episodic: bool,
    pub events: bool,
}

/// Which stores are to be emptied. Names that are not known are passed over.
pub fn wipe_plan(scopes: &Vec<String>) -> (r: WipePlan)
    ensures
        r == (WipePlan {
            raw_log: views(scopes@).contains("raw_log"@),
            episodic: views(scopes@).contains("episodic"@),
            events: views(scopes@).contains("events"@),
        }),
{
    WipePlan {
        raw_log: crate::text::list_contains(scopes, "raw_log"),
        episodic: crate::text::list_contains(scopes, "episodic"),
        events: crate::text::list_contains(scopes, "events"),
    }
}

/// The seconds between two passes: the minutes of the configuration, but at least one.
pub fn tick_seconds(interval_minutes: u64) -> (r: u64)
    requires
        interval_minutes <= u64::MAX / 60,
    ensures
        r == (if interval_minutes == 0 {
            60
        } else {
            interval_minutes * 60
        }),
{
    if interval_minutes == 0 {
        60
    } else {
        interval_minutes * 60
    }
}

/// Whether the daily housekeeping is due: it has not been done on the day `today`, which counts
/// days in any way.
pub fn hygiene_due(last: Option<i64>, today: i64) -> (r: bool)
    ensures
        r == (last != Some(today)),
{
    match last {
        Some(day) => day != today,
        None => true,
    }
}

// ---------------------------------------------------------------------------
// What holds of every pass
// ---------------------------------------------------------------------------

/// A prompt stays within the budget unless it is over it without any event.
pub proof fn law_prompt_fits(
    template: Seq<char>,
    max: int,
    events: Seq<EventView>,
    related: Seq<char>,
)
    ensures
        byte_len(extract_prompt(template, max, fitting(template, max, events, related), related))
            <= PROMPT_CHAR_BUDGET || fitting(template, max, events, related).len() == 0,
        fitting(template, max, events, related).len() <= events.len(),
        fitting(template, max, events, related) == events.skip(
            events.len() - fitting(template, max, events, related).len(),
        ),
    decreases events.len(),
{
    let f = fitting(template, max, events, related);
    if events.len() == 0 || byte_len(extract_prompt(template, max, events, related))
        <= PROMPT_CHAR_BUDGET {
        assert(events.skip(0) == events);
    } else {
        let rest = events.drop_first();
        law_prompt_fits(template, max, rest, related);
        assert(rest.skip(rest.len() - f.len()) == events.skip(events.len() - f.len()));
    }
}

/// A prompt shows at most so many events.
pub proof fn law_prompt_events_are_capped(events: Seq<EventView>)
    ensures
        capped_events(events).len() <= MAX_PROMPT_EVENTS,
{
}

/// The highest id is one of the ids, and none is higher.
pub proof fn law_highest_id(events: Seq<EventView>)
    ensures
        match highest_id(events) {
            Some(m) => (exists|i: int| 0 <= i < events.len() && (#[trigger] events[i]).id == m)
                && forall|i: int| 0 <= i < events.len() ==> (#[trigger] events[i]).id <= m,
            None => events.len() == 0,
        },
    decreases events.len(),
{
    if events.len() > 0 {
        let before = events.drop_last();
        law_highest_id(before);
        assert(events.last() == events[events.len() - 1]);
        if let Some(m) = highest_id(before) {
            let i = choose|i: int| 0 <= i < before.len() && (#[trigger] before[i]).id == m;
            assert(events[i].id == m);
            assert forall|j: int| 0 <= j < events.len() implies (#[trigger] events[j]).id
                <= highest_id(events)->0 by {
                if j < before.len() {
                    assert(before[j].id <= m);
                }
            }
        }
    }
}

/// The curator never goes back, as long as a pass only sees events that were not seen.
pub proof fn law_watermark_advances(p: Progress, outcome: Option<ExtractOutcome>)
    requires
        outcome matches Some(o) ==> (o.max_id_seen matches Some(m) ==> m >= p.watermark),
        p.window_failures < MAX_CONSECUTIVE_WINDOW_FAILURES,
    ensures
        progressed(p, outcome).watermark >= p.watermark,
        progressed(p, outcome).window_failures < MAX_CONSECUTIVE_WINDOW_FAILURES,
{
}

/// The same events are tried three times at most: after three passes that see them and cannot
/// reach the model they count as seen.
pub proof fn law_failing_window_is_given_up(watermark: i64, outcome: ExtractOutcome, seen: i64)
    requires
        !outcome.llm_reachable,
        outcome.max_id_seen == Some(seen),
    ensures
        ({
            let p = Progress { watermark, window_failures: 0 };
            let one = progressed(p, Some(outcome));
            let two = progressed(one, Some(outcome));
            let three = progressed(two, Some(outcome));
            &&& one.watermark == watermark
            &&& two.watermark == watermark
            &&& three == (Progress { watermark: seen, window_failures: 0 })
        }),
{
}

/// A session that waits for its note is not lost: it is due, or it goes on waiting.
pub proof fn law_no_session_is_lost(l: Seq<EndedView>, lag: int, now: int)
    ensures
        due_of(l, lag, now).len() + waiting_of(l, lag, now).len() == l.len(),
        forall|i: int|
            0 <= i < l.len() ==> due_of(l, lag, now).contains(#[trigger] l[i]) || waiting_of(
                l,
                lag,
                now,
            ).contains(l[i]),
        forall|i: int|
            0 <= i < waiting_of(l, lag, now).len() ==> !is_due(
                #[trigger] waiting_of(l, lag, now)[i],
                lag,
                now,
            ),
    decreases l.len(),
{
    if l.len() > 0 {
        let b = l.drop_last();
        law_no_session_is_lost(b, lag, now);
        let d = due_of(l, lag, now);
        let w = waiting_of(l, lag, now);
        assert forall|i: int| 0 <= i < l.len() implies d.contains(#[trigger] l[i]) || w.contains(
            l[i],
        ) by {
            if i < b.len() {
                assert(b[i] == l[i]);
                let db = due_of(b, lag, now);
                let wb = waiting_of(b, lag, now);
                if db.contains(b[i]) {
                    let j = choose|j: int| 0 <= j < db.len() && db[j] == b[i];
                    assert(d[j] == l[i]);
                } else {
                    let j = choose|j: int| 0 <= j < wb.len() && wb[j] == b[i];
                    assert(w[j] == l[i]);
                }
            } else if is_due(l.last(), lag, now) {
                assert(d[d.len() - 1] == l[i]);
            } else {
                assert(w[w.len() - 1] == l[i]);
            }
        }
    }
}

} // verus!
