//! # Inferring goal and task
//!
//! The prompt that a language model is asked with, and the reading of its answer. The answer is
//! taken leniently: a JSON object anywhere in it will do, what is missing is missing, and what is
//! not sure enough is not taken at all.
use vstd::prelude::*;
use crate::context::session_hub::{InferenceResult, SessionStateHub};
use crate::context::session_state::{
    borrowed, known, line_of_stamp, render_age, window_is_local_only, EventDigest,
    InferenceTrigger, SessionState, SessionStateConfig, UNKNOWN,
};
use crate::curator::model::strip_think_block;
use crate::curator::scan::find_closing;
use crate::outside::{json_decimal, json_is_object, json_text};
use crate::ratio::decimal_to_ratio;
use crate::text::{
    chars_of, join, lower, replace, same, shorten_chars, tail, trim, trim_end_class, CharClass,
};
use crate::time::Timestamp;
#[allow(unused_imports)]
use crate::context::session_hub::{after_inference, last_of, HubView, InferenceView};
#[allow(unused_imports)]
use crate::context::session_state::{
    age_of, any_local, or_unknown, stamp_line, StampView, StateView,
};
#[allow(unused_imports)]
use crate::curator::model::unthought;
#[allow(unused_imports)]
use crate::curator::scan::closing;
#[allow(unused_imports)]
use crate::outside::{is_json_object, json_decimal_at, json_text_at};
#[allow(unused_imports)]
use crate::ratio::ratio_of_decimal;
#[allow(unused_imports)]
use crate::text::{
    ascii_lower, char_prefix, joined, opt_view, replaced, trim_end_by, trimmed, views,
};

verus! {

/// The characters of an inferred goal or task.
pub const MAX_INFERRED_LEN: usize = 120;

/// The characters of the sentence on the activity.
pub const MAX_ACTIVITY_SUMMARY_LEN: usize = 180;

/// The characters of the interpretation.
pub const MAX_INTERPRETATION_LEN: usize = 280;

/// The characters of an offer of help.
pub const MAX_SUGGESTED_HELP_LEN: usize = 180;

/// How many events a prompt may show.
pub const INFERENCE_EVENT_WINDOW: usize = 40;

/// The characters that the events of a prompt may take.
pub const INFERENCE_EVENTS_CHAR_CAP: usize = 2_400;

/// The characters that are shown of an event.
pub const INFERENCE_SUMMARY_LEN: usize = 160;

/// The seconds between two looks at whether to infer.
pub const INFERENCE_TICK_SECS: u64 = 30;

// ---------------------------------------------------------------------------
// The prompt
// ---------------------------------------------------------------------------

/// The line on something that came up, where it did.
pub open spec fn stamp_block(label: Seq<char>, s: Option<StampView>, now: int) -> Seq<char> {
    match s {
        Some(v) => stamp_line(label, v, now) + "\n"@,
        None => Seq::empty(),
    }
}

/// What the prompt says of the state.
pub open spec fn state_block(s: StateView, now: int) -> Seq<char> {
    "project: "@ + or_unknown(s.active_project) + "\n"@ + "app: "@ + or_unknown(s.active_app)
        + "\n"@ + "window: "@ + or_unknown(s.window_title) + "\n"@ + (if s.open_files.len() == 0 {
        Seq::empty()
    } else {
        "open files: "@ + joined(s.open_files, ", "@) + "\n"@
    }) + stamp_block("last user command"@, s.last_user_command, now) + stamp_block(
        "last error"@,
        s.last_error,
        now,
    ) + stamp_block("last success"@, s.last_success, now)
}

/// What the prompt says of an event.
pub open spec fn event_line(e: EventDigest, now: int) -> Seq<char> {
    "- ["@ + age_of(now, e.ts.nanos as int) + "] "@ + char_prefix(
        e.summary@,
        INFERENCE_SUMMARY_LEN as int,
    ) + " ("@ + e.event_type@ + ")"@
}

/// The lines on the latest events, the oldest first: as many as fit, at most `window` of them and
/// in at most `room` characters, each line counted with its end.
pub open spec fn event_lines(events: Seq<EventDigest>, now: int, window: int, room: int) -> Seq<
    Seq<char>,
>
    decreases events.len(),
{
    if events.len() == 0 || window <= 0 {
        seq![]
    } else {
        let line = event_line(events.last(), now);
        if line.len() + 1 > room {
            seq![]
        } else {
            event_lines(events.drop_last(), now, window - 1, room - (line.len() + 1)).push(line)
        }
    }
}

/// What the prompt says of the events.
pub open spec fn events_block(events: Seq<EventDigest>, now: int) -> Seq<char> {
    let lines = event_lines(
        events,
        now,
        INFERENCE_EVENT_WINDOW as int,
        INFERENCE_EVENTS_CHAR_CAP as int,
    );
    if lines.len() == 0 {
        "(none)"@
    } else {
        joined(lines, "\n"@)
    }
}

/// The prompt: the template with the state and the events filled in.
pub open spec fn inference_prompt(
    template: Seq<char>,
    s: StateView,
    events: Seq<EventDigest>,
    now: int,
) -> Seq<char> {
    replaced(
        replaced(template, "{{STATE}}"@, trim_end_by(state_block(s, now), CharClass::Space)),
        "{{EVENTS}}"@,
        events_block(events, now),
    )
}

fn state_text(state: &SessionState, now: Timestamp) -> (r: String)
    ensures
        r@ == state_block(state@, now.nanos as int),
{
    let mut out: String = "project: ".to_owned();
    out.append(known(borrowed(&state.active_project)));
    out.append("\n");
    out.append("app: ");
    out.append(known(borrowed(&state.active_app)));
    out.append("\n");
    out.append("window: ");
    out.append(known(borrowed(&state.window_title)));
    out.append("\n");
    let mut files: String = String::new();
    if state.open_files.len() > 0 {
        let n: usize = state.open_files.len();
        files = "open files: ".to_owned();
        files.append(join(&state.open_files, n, ", ").as_str());
        files.append("\n");
        proof {
            assert(views(state.open_files@).take(n as int) == views(state.open_files@));
        }
    }
    out.append(files.as_str());
    out.append(stamp_text("last user command", &state.last_user_command, now).as_str());
    out.append(stamp_text("last error", &state.last_error, now).as_str());
    out.append(stamp_text("last success", &state.last_success, now).as_str());
    out
}

fn stamp_text(
    label: &str,
    s: &Option<crate::context::session_state::StampedText>,
    now: Timestamp,
) -> (r: String)
    ensures
        r@ == stamp_block(
            label@,
            crate::context::session_state::opt_stamp(*s),
            now.nanos as int,
        ),
{
    match s {
        Some(v) => {
            let mut line = line_of_stamp(label, v, now);
            line.append("\n");
            line
        },
        None => String::new(),
    }
}

fn event_text(e: &EventDigest, now: Timestamp) -> (r: String)
    ensures
        r@ == event_line(*e, now.nanos as int),
{
    let mut line: String = "- [".to_owned();
    line.append(render_age(now, e.ts).as_str());
    line.append("] ");
    line.append(shorten_chars(e.summary.as_str(), INFERENCE_SUMMARY_LEN).as_str());
    line.append(" (");
    line.append(e.event_type.as_str());
    line.append(")");
    line
}

/// The lines on the latest of the first `n` events that fit.
fn pick_lines(events: &Vec<EventDigest>, n: usize, now: Timestamp, window: usize, room: usize) -> (r:
    Vec<String>)
    requires
        n <= events@.len(),
    ensures
        views(r@) == event_lines(
            events@.take(n as int),
            now.nanos as int,
            window as int,
            room as int,
        ),
    decreases n,
{
    if n == 0 || window == 0 {
        let r: Vec<String> = Vec::new();
        proof {
            assert(views(r@) =~= seq![]);
        }
        return r;
    }
    let line = event_text(&events[n - 1], now);
    proof {
        assert(events@.take(n as int).last() == events@[n - 1]);
        assert(events@.take(n as int).drop_last() == events@.take(n - 1));
    }
    let len: usize = line.as_str().unicode_len();
    if len >= room {
        let r: Vec<String> = Vec::new();
        proof {
            assert(views(r@) =~= seq![]);
        }
        return r;
    }
    let mut r = pick_lines(events, n - 1, now, window - 1, room - (len + 1));
    let ghost before = r@;
    let ghost text = line@;
    r.push(line);
    proof {
        assert(views(r@) =~= views(before).push(text));
    }
    r
}

/// Fills in the prompt by which a model is asked for goal and task.
pub fn build_inference_prompt(
    template: &str,
    state: &SessionState,
    events: &Vec<EventDigest>,
    now: Timestamp,
) -> (r: String)
    ensures
        r@ == inference_prompt(template@, state@, events@, now.nanos as int),
{
    let n: usize = events.len();
    proof {
        assert(events@.take(n as int) == events@);
        reveal_strlit("{{STATE}}");
        reveal_strlit("{{EVENTS}}");
    }
    let lines = pick_lines(events, n, now, INFERENCE_EVENT_WINDOW, INFERENCE_EVENTS_CHAR_CAP);
    let block: String = if lines.len() == 0 {
        "(none)".to_owned()
    } else {
        let k: usize = lines.len();
        proof {
            assert(views(lines@).take(k as int) == views(lines@));
        }
        join(&lines, k, "\n")
    };
    let state_lines = state_text(state, now);
    let with_state = replace(
        template,
        "{{STATE}}",
        trim_end_class(state_lines.as_str(), CharClass::Space),
    );
    replace(with_state.as_str(), "{{EVENTS}}", block.as_str())
}

/// The events of a prompt are at most `window` lines and take at most `room` characters, the ends
/// of the lines counted.
pub proof fn law_event_lines_fit(events: Seq<EventDigest>, now: int, window: int, room: int)
    requires
        0 <= window,
        0 <= room,
    ensures
        event_lines(events, now, window, room).len() <= window,
        total_len(event_lines(events, now, window, room)) <= room,
    decreases events.len(),
{
    if events.len() > 0 && window > 0 {
        let line = event_line(events.last(), now);
        if line.len() + 1 <= room {
            let rest = event_lines(events.drop_last(), now, window - 1, room - (line.len() + 1));
            law_event_lines_fit(events.drop_last(), now, window - 1, room - (line.len() + 1));
            assert(rest.push(line).drop_last() == rest);
        }
    }
}

/// The characters of a list of lines, their ends counted.
pub open spec fn total_len(lines: Seq<Seq<char>>) -> int
    decreases lines.len(),
{
    if lines.len() == 0 {
        0
    } else {
        total_len(lines.drop_last()) + lines.last().len() + 1
    }
}

// ---------------------------------------------------------------------------
// The answer
// ---------------------------------------------------------------------------

/// The position of the first opening brace, or the length.
pub open spec fn first_brace(s: Seq<char>) -> int
    decreases s.len(),
{
    if s.len() == 0 || s[0] == '{' {
        0
    } else {
        1 + first_brace(s.drop_first())
    }
}

/// The JSON object in an answer: behind what the model thought aloud, from the first opening brace
/// to the one that closes it, whatever stands around it.
pub open spec fn object_part(raw: Seq<char>) -> Seq<char> {
    let s = unthought(raw);
    let start = first_brace(s);
    if start == s.len() {
        s
    } else {
        match closing(s, start, '{', '}') {
            Some(end) => s.subrange(start, end + 1),
            None => s.skip(start),
        }
    }
}

pub proof fn lemma_first_brace(s: Seq<char>, i: int)
    requires
        0 <= i <= s.len(),
        i < s.len() ==> s[i] == '{',
        forall|j: int| 0 <= j < i ==> #[trigger] s[j] != '{',
    ensures
        first_brace(s) == i,
    decreases s.len(),
{
    if i > 0 {
        let t = s.drop_first();
        assert(s[0] != '{');
        assert forall|j: int| 0 <= j < i - 1 implies #[trigger] t[j] != '{' by {
            assert(t[j] == s[j + 1]);
        }
        lemma_first_brace(t, i - 1);
    }
}

/// Cuts the JSON object out of an answer that has prose or a code fence around it: what stands
/// behind the last thought, from its first brace to the one that closes it. All from the first
/// brace on where nothing closes it, and all of it where there is no brace.
pub fn extract_json_object<'a>(raw: &'a str) -> (r: &'a str)
    ensures
        r@ == object_part(raw@),
{
    let s = strip_think_block(raw);
    let cs = chars_of(s);
    let n: usize = cs.len();
    let mut i: usize = 0;
    while i < n && cs[i] != '{'
        invariant
            i <= n,
            n == cs.len(),
            forall|j: int| 0 <= j < i ==> #[trigger] cs@[j] != '{',
        decreases n - i,
    {
        i = i + 1;
    }
    proof {
        lemma_first_brace(cs@, i as int);
    }
    if i == n {
        return s;
    }
    match find_closing(&cs, i, '{', '}') {
        Some(end) => s.substring_char(i, end + 1),
        None => tail(s, i),
    }
}

/// What a model answered, field by field.
#[derive(Debug, Clone, PartialEq, Eq)]
pub struct InferenceReply {
    pub goal: Option<String>,
    pub task: Option<String>,
    pub activity: Option<String>,
    pub interpretation: Option<String>,
    pub suggested_help: Option<String>,
    /// A decimal number.
    pub confidence: Option<String>,
}

/// What an answered field says: nothing where it is blank or unknown, else its beginning.
pub open spec fn answered(o: Option<Seq<char>>, max: int) -> Option<Seq<char>> {
    match o {
        Some(s) => {
            let t = trimmed(s);
            if t.len() == 0 || ascii_lower(t) == UNKNOWN@ {
                None
            } else {
                Some(char_prefix(t, max))
            }
        },
        None => None,
    }
}

/// The confidence of an answer: nought where there is none.
pub open spec fn answered_confidence(o: Option<Seq<char>>) -> int {
    match o {
        Some(s) => ratio_of_decimal(s),
        None => 0,
    }
}

/// What an answer is taken for. An answer that is not sure enough says nothing.
pub open spec fn taken(
    goal: Option<Seq<char>>,
    task: Option<Seq<char>>,
    activity: Option<Seq<char>>,
    interpretation: Option<Seq<char>>,
    suggested_help: Option<Seq<char>>,
    confidence: int,
    floor: int,
) -> InferenceView {
    if confidence < floor {
        InferenceView {
            goal: None,
            task: None,
            activity: None,
            interpretation: None,
            suggested_help: None,
            confidence,
        }
    } else {
        InferenceView {
            goal: answered(goal, MAX_INFERRED_LEN as int),
            task: answered(task, MAX_INFERRED_LEN as int),
            activity: answered(activity, MAX_ACTIVITY_SUMMARY_LEN as int),
            interpretation: answered(interpretation, MAX_INTERPRETATION_LEN as int),
            suggested_help: answered(suggested_help, MAX_SUGGESTED_HELP_LEN as int),
            confidence,
        }
    }
}

/// What an answered field says.
fn read_field(o: &Option<String>, max: usize) -> (r: Option<String>)
    ensures
        opt_view(r) == answered(opt_view(*o), max as int),
{
    match o {
        Some(s) => {
            let t = trim(s.as_str());
            if t.is_empty() || same(lower(t).as_str(), UNKNOWN) {
                None
            } else {
                Some(shorten_chars(t, max))
            }
        },
        None => None,
    }
}

/// Takes an answer for what it says.
pub fn take_reply(reply: &InferenceReply, cfg: &SessionStateConfig) -> (r: InferenceResult)
    ensures
        r@ == taken(
            opt_view(reply.goal),
            opt_view(reply.task),
            opt_view(reply.activity),
            opt_view(reply.interpretation),
            opt_view(reply.suggested_help),
            answered_confidence(opt_view(reply.confidence)),
            cfg.confidence_floor as int,
        ),
        r.confidence <= 1_000_000,
{
    let confidence: u32 = match &reply.confidence {
        Some(s) => decimal_to_ratio(s.as_str()),
        None => 0,
    };
    if confidence < cfg.confidence_floor {
        InferenceResult {
            goal: None,
            task: None,
            activity: None,
            interpretation: None,
            suggested_help: None,
            confidence,
        }
    } else {
        InferenceResult {
            goal: read_field(&reply.goal, MAX_INFERRED_LEN),
            task: read_field(&reply.task, MAX_INFERRED_LEN),
            activity: read_field(&reply.activity, MAX_ACTIVITY_SUMMARY_LEN),
            interpretation: read_field(&reply.interpretation, MAX_INTERPRETATION_LEN),
            suggested_help: read_field(&reply.suggested_help, MAX_SUGGESTED_HELP_LEN),
            confidence,
        }
    }
}

/// What the answer of a model says. `None` where no JSON object is in it.
pub open spec fn inferred(raw: Seq<char>, floor: int) -> Option<InferenceView> {
    let text = object_part(raw);
    if is_json_object(text) {
        Some(
            taken(
                json_text_at(text, "goal"@),
                json_text_at(text, "task"@),
                json_text_at(text, "activity"@),
                json_text_at(text, "interpretation"@),
                json_text_at(text, "suggested_help"@),
                answered_confidence(json_decimal_at(text, "confidence"@)),
                floor,
            ),
        )
    } else {
        None
    }
}

/// Reads the answer of a model. `None` where no JSON object is in it.
pub fn parse_inference(raw: &str, cfg: &SessionStateConfig) -> (r: Option<InferenceResult>)
    ensures
        (match r {
            Some(x) => Some(x@),
            None => None,
        }) == inferred(raw@, cfg.confidence_floor as int),
{
    let text = extract_json_object(raw);
    if !json_is_object(text) {
        return None;
    }
    let reply = InferenceReply {
        goal: json_text(text, "goal"),
        task: json_text(text, "task"),
        activity: json_text(text, "activity"),
        interpretation: json_text(text, "interpretation"),
        suggested_help: json_text(text, "suggested_help"),
        confidence: json_decimal(text, "confidence"),
    };
    Some(take_reply(&reply, cfg))
}

// ---------------------------------------------------------------------------
// An inference, from outside
// ---------------------------------------------------------------------------

/// What the model is to be asked.
#[derive(Debug, Clone, PartialEq, Eq)]
pub struct InferenceRequest {
    pub trigger: InferenceTrigger,
    pub prompt: String,
    pub max_tokens: usize,
    /// Whether what comes of it must stay on the machine.
    pub local_only: bool,
}

/// Looks whether to infer now. If so, the attempt is noted before the model is asked, so that one
/// that fails rests as long as any other.
pub fn begin_inference(
    hub: &mut SessionStateHub,
    template: &str,
    cfg: &SessionStateConfig,
    now: Timestamp,
    idle: bool,
) -> (r: Option<InferenceRequest>)
    ensures
        match old(hub)@.due(*cfg, now, idle) {
            Some(why) => {
                let events = last_of(old(hub)@.events, INFERENCE_EVENT_WINDOW as int);
                &&& final(hub)@ == old(hub)@.attempted(now)
                &&& r matches Some(q) && q.trigger == why && q.prompt@ == inference_prompt(
                    template@,
                    old(hub)@.state,
                    events,
                    now.nanos as int,
                ) && q.max_tokens == cfg.infer_max_tokens && q.local_only == any_local(events)
            },
            None => r is None && final(hub)@ == old(hub)@,
        },
{
    match hub.trigger(cfg, now, idle) {
        Some(trigger) => {
            hub.mark_inference_attempt(now);
            let state = hub.snapshot();
            let events = hub.recent_events(INFERENCE_EVENT_WINDOW);
            Some(
                InferenceRequest {
                    trigger,
                    prompt: build_inference_prompt(template, &state, &events, now),
                    max_tokens: cfg.infer_max_tokens,
                    local_only: window_is_local_only(&events),
                },
            )
        },
        None => None,
    }
}

/// Takes in what the model said. An answer that is no JSON changes nothing. Returns whether there
/// was an answer.
pub fn finish_inference(
    hub: &mut SessionStateHub,
    raw: &str,
    local_only: bool,
    cfg: &SessionStateConfig,
    now: Timestamp,
) -> (r: bool)
    ensures
        match inferred(raw@, cfg.confidence_floor as int) {
            Some(x) => r && final(hub)@ == old(hub)@.settled(
                after_inference(old(hub)@.state, x, local_only, now.nanos as int),
                now.nanos as int,
            ),
            None => !r && final(hub)@ == old(hub)@,
        },
{
    match parse_inference(raw, cfg) {
        Some(result) => {
            hub.apply_inference(&result, local_only, now);
            true
        },
        None => false,
    }
}

/// An inference is not due again before the interval has passed, whatever happens to its answer.
pub proof fn law_inference_rests(h: HubView, cfg: SessionStateConfig, now: Timestamp, later: Timestamp, idle: bool)
    requires
        later.nanos - now.nanos < cfg.infer_min_interval_secs * 1_000_000_000,
    ensures
        h.attempted(now).due(cfg, later, idle) is None,
{
}

/// An answer that is not sure enough makes no claim, and no claim is longer than it may be.
pub proof fn law_unsure_answer_claims_nothing(
    goal: Option<Seq<char>>,
    task: Option<Seq<char>>,
    activity: Option<Seq<char>>,
    interpretation: Option<Seq<char>>,
    suggested_help: Option<Seq<char>>,
    confidence: int,
    floor: int,
)
    ensures
        ({
            let r = taken(
                goal,
                task,
                activity,
                interpretation,
                suggested_help,
                confidence,
                floor,
            );
            &&& confidence < floor ==> r.goal is None && r.task is None && r.activity is None
                && r.interpretation is None && r.suggested_help is None
            &&& r.goal matches Some(s) ==> 0 < s.len() <= MAX_INFERRED_LEN
            &&& r.task matches Some(s) ==> 0 < s.len() <= MAX_INFERRED_LEN
            &&& r.activity matches Some(s) ==> 0 < s.len() <= MAX_ACTIVITY_SUMMARY_LEN
            &&& r.interpretation matches Some(s) ==> 0 < s.len() <= MAX_INTERPRETATION_LEN
            &&& r.suggested_help matches Some(s) ==> 0 < s.len() <= MAX_SUGGESTED_HELP_LEN
        }),
{
}

} // verus!
