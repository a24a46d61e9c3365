//! # Trailers
//!
//! Two short records that a language model leaves in its prose. After a wake-up the assistant
//! ends its reply with what it did, what came of it and what comes next; the curator ends a
//! session summary with the task that is still open. Both are read leniently, and the second is
//! rewritten to one canonical line.
use vstd::prelude::*;
use crate::text::{
    begins, begins_lowered, join, lines, read_as, truncate_on_char_boundary, tail, trim, trim_class,
    trim_end_class, trim_start_class, CharClass,
};
#[allow(unused_imports)]
use crate::text::{
    joined, lines_of, opt_str_view, opt_view, reads_as, shortened_bytes, starts_lowered,
    starts_with, trim_by, trim_end_by, trim_start_by, trimmed, views,
};

verus! {

/// The bytes that one field of a trailer may take.
pub const TRAILER_FIELD_MAX_CHARS: usize = 200;

/// What opens the line that names the open task.
pub const OPEN_TASK_PREFIX: &'static str = "open_task:";

/// What that line says where no task is open.
pub const OPEN_TASK_NONE: &'static str = "none";

/// What a wake-up led to.
#[derive(Debug, Clone, Default, PartialEq, Eq)]
pub struct WakeTrailer {
    pub action: Option<String>,
    pub result: Option<String>,
    pub next_step: Option<String>,
}

/// The text of a `WakeTrailer`.
#[verifier::ext_equal]
pub struct TrailerView {
    pub action: Option<Seq<char>>,
    pub result: Option<Seq<char>>,
    pub next_step: Option<Seq<char>>,
}

impl View for WakeTrailer {
    type V = TrailerView;

    open spec fn view(&self) -> TrailerView {
        TrailerView {
            action: opt_view(self.action),
            result: opt_view(self.result),
            next_step: opt_view(self.next_step),
        }
    }
}

impl TrailerView {
    /// Whether no field is given.
    pub open spec fn is_blank(self) -> bool {
        self.action is None && self.result is None && self.next_step is None
    }
}

/// The fields that are given, each after its label.
pub open spec fn trailer_parts(t: TrailerView) -> Seq<Seq<char>> {
    (match t.action {
        Some(s) => seq!["action: "@ + s],
        None => seq![],
    }) + (match t.result {
        Some(s) => seq!["result: "@ + s],
        None => seq![],
    }) + (match t.next_step {
        Some(s) => seq!["next step: "@ + s],
        None => seq![],
    })
}

impl WakeTrailer {
    /// Whether no field is given.
    pub fn is_empty(&self) -> (r: bool)
        ensures
            r == self@.is_blank(),
    {
        self.action.is_none() && self.result.is_none() && self.next_step.is_none()
    }

    /// What comes next, where it is given.
    pub fn summary(&self) -> (r: Option<&str>)
        ensures
            opt_str_view(r) == self@.next_step,
    {
        match &self.next_step {
            Some(s) => Some(s.as_str()),
            None => None,
        }
    }

    /// The fields on one line.
    pub fn render_line(&self) -> (r: String)
        ensures
            r@ == joined(trailer_parts(self@), " | "@),
    {
        let mut parts: Vec<String> = Vec::new();
        if let Some(action) = &self.action {
            let mut part: String = "action: ".to_owned();
            part.append(action.as_str());
            parts.push(part);
        }
        if let Some(result) = &self.result {
            let mut part: String = "result: ".to_owned();
            part.append(result.as_str());
            parts.push(part);
        }
        if let Some(next) = &self.next_step {
            let mut part: String = "next step: ".to_owned();
            part.append(next.as_str());
            parts.push(part);
        }
        let n: usize = parts.len();
        proof {
            assert(views(parts@) =~= trailer_parts(self@));
            assert(views(parts@).take(n as int) =~= views(parts@));
        }
        join(&parts, n, " | ")
    }
}

/// A field of a wake trailer.
#[derive(Debug, Clone, Copy, PartialEq, Eq, Structural)]
pub enum TrailerField {
    Action,
    Result,
    NextStep,
}

/// The field that a line gives, and the length of the label that says so. The labels are known in
/// English and in Dutch, in any case.
pub open spec fn label_of(line: Seq<char>) -> Option<(TrailerField, int)> {
    if starts_lowered(line, "next step:"@) {
        Some((TrailerField::NextStep, 10))
    } else if starts_lowered(line, "next_step:"@) {
        Some((TrailerField::NextStep, 10))
    } else if starts_lowered(line, "volgende stap:"@) {
        Some((TrailerField::NextStep, 14))
    } else if starts_lowered(line, "result:"@) {
        Some((TrailerField::Result, 7))
    } else if starts_lowered(line, "resultaat:"@) {
        Some((TrailerField::Result, 10))
    } else if starts_lowered(line, "action:"@) {
        Some((TrailerField::Action, 7))
    } else if starts_lowered(line, "actie:"@) {
        Some((TrailerField::Action, 6))
    } else {
        None
    }
}

/// Finds the label that opens a line.
fn find_label(line: &str) -> (r: Option<(TrailerField, usize)>)
    ensures
        match r {
            Some((field, n)) => label_of(line@) == Some((field, n as int)) && n <= line@.len(),
            None => label_of(line@) is None,
        },
{
    proof {
        reveal_strlit("next step:");
        reveal_strlit("next_step:");
        reveal_strlit("volgende stap:");
        reveal_strlit("result:");
        reveal_strlit("resultaat:");
        reveal_strlit("action:");
        reveal_strlit("actie:");
    }
    if begins_lowered(line, "next step:") {
        Some((TrailerField::NextStep, 10))
    } else if begins_lowered(line, "next_step:") {
        Some((TrailerField::NextStep, 10))
    } else if begins_lowered(line, "volgende stap:") {
        Some((TrailerField::NextStep, 14))
    } else if begins_lowered(line, "result:") {
        Some((TrailerField::Result, 7))
    } else if begins_lowered(line, "resultaat:") {
        Some((TrailerField::Result, 10))
    } else if begins_lowered(line, "action:") {
        Some((TrailerField::Action, 7))
    } else if begins_lowered(line, "actie:") {
        Some((TrailerField::Action, 6))
    } else {
        None
    }
}

/// Whether a value says that there is nothing: one of a few words, in any case, with or without
/// full stops after it.
pub open spec fn is_negative(value: Seq<char>) -> bool {
    let v = trim_end_by(value, CharClass::Dot);
    ||| reads_as(v, "none"@)
    ||| reads_as(v, "geen"@)
    ||| reads_as(v, "n/a"@)
    ||| reads_as(v, "na"@)
    ||| reads_as(v, "-"@)
    ||| reads_as(v, "–"@)
    ||| reads_as(v, "unknown"@)
    ||| reads_as(v, "nvt"@)
    ||| reads_as(v, "n.v.t"@)
}

/// Whether a value says that there is nothing.
pub fn is_negative_value(value: &str) -> (r: bool)
    ensures
        r == is_negative(value@),
{
    let v = trim_end_class(value, CharClass::Dot);
    read_as(v, "none") || read_as(v, "geen") || read_as(v, "n/a") || read_as(v, "na") || read_as(
        v,
        "-",
    ) || read_as(v, "–") || read_as(v, "unknown") || read_as(v, "nvt") || read_as(v, "n.v.t")
}

/// What a value says: nothing, or itself without the emphasis around it.
pub open spec fn said(raw: Seq<char>) -> Option<Seq<char>> {
    let v = trim_by(raw, CharClass::Noise);
    if v.len() == 0 || is_negative(v) {
        None
    } else {
        Some(v)
    }
}

/// A value cut to what a field may hold.
pub open spec fn field_text(v: Seq<char>) -> Seq<char> {
    shortened_bytes(v, TRAILER_FIELD_MAX_CHARS as int)
}

/// A line of a reply without the Markdown around it.
pub open spec fn reply_core(raw: Seq<char>) -> Seq<char> {
    trimmed(trim_start_by(trim_start_by(trimmed(raw), CharClass::Bullet), CharClass::Star))
}

/// A line of a reply, as far as a trailer is concerned: the field it gives, and the value.
pub open spec fn reply_line(raw: Seq<char>) -> Option<(TrailerField, Seq<char>)> {
    let line = reply_core(raw);
    match label_of(line) {
        Some((field, n)) => match said(line.skip(n)) {
            Some(v) => Some((field, field_text(v))),
            None => None,
        },
        None => None,
    }
}

/// The trailer of a reply: for each field the last line that gives it.
pub open spec fn trailer_of(lines: Seq<Seq<char>>) -> TrailerView
    decreases lines.len(),
{
    if lines.len() == 0 {
        TrailerView { action: None, result: None, next_step: None }
    } else {
        let t = trailer_of(lines.drop_last());
        match reply_line(lines.last()) {
            Some((TrailerField::Action, v)) => TrailerView { action: Some(v), ..t },
            Some((TrailerField::Result, v)) => TrailerView { result: Some(v), ..t },
            Some((TrailerField::NextStep, v)) => TrailerView { next_step: Some(v), ..t },
            None => t,
        }
    }
}

/// What a value says.
fn value_said<'a>(raw: &'a str) -> (r: Option<&'a str>)
    ensures
        opt_str_view(r) == said(raw@),
{
    let v = trim_class(raw, CharClass::Noise);
    if v.is_empty() || is_negative_value(v) {
        None
    } else {
        Some(v)
    }
}

/// Reads one line of a reply.
fn read_reply_line(raw: &str) -> (r: Option<(TrailerField, String)>)
    ensures
        match r {
            Some((field, v)) => reply_line(raw@) == Some((field, v@)),
            None => reply_line(raw@) is None,
        },
{
    let line = trim(
        trim_start_class(trim_start_class(trim(raw), CharClass::Bullet), CharClass::Star),
    );
    match find_label(line) {
        Some((field, n)) => {
            match value_said(tail(line, n)) {
                Some(v) => Some((field, truncate_on_char_boundary(v, TRAILER_FIELD_MAX_CHARS))),
                None => None,
            }
        },
        None => None,
    }
}

/// Reads the trailer of a reply. `None` where no line gives a field.
pub fn parse_wake_trailer(text: &str) -> (r: Option<WakeTrailer>)
    ensures
        match r {
            Some(t) => t@ == trailer_of(lines_of(text@)) && !t@.is_blank(),
            None => trailer_of(lines_of(text@)).is_blank(),
        },
{
    let rows = lines(text);
    let mut trailer = WakeTrailer { action: None, result: None, next_step: None };
    let mut i: usize = 0;
    while i < rows.len()
        invariant
            i <= rows.len(),
            trailer@ == trailer_of(views(rows@).take(i as int)),
        decreases rows.len() - i,
    {
        proof {
            let now = views(rows@).take(i + 1);
            assert(now.drop_last() == views(rows@).take(i as int));
            assert(now.last() == rows@[i as int]@);
        }
        match read_reply_line(rows[i].as_str()) {
            Some((TrailerField::Action, v)) => {
                trailer.action = Some(v);
            },
            Some((TrailerField::Result, v)) => {
                trailer.result = Some(v);
            },
            Some((TrailerField::NextStep, v)) => {
                trailer.next_step = Some(v);
            },
            None => {},
        }
        i = i + 1;
    }
    proof {
        assert(views(rows@).take(rows@.len() as int) == views(rows@));
    }
    if trailer.is_empty() {
        None
    } else {
        Some(trailer)
    }
}

// ---------------------------------------------------------------------------
// The open task of a session summary
// ---------------------------------------------------------------------------

/// A line of a summary without the Markdown around it.
pub open spec fn summary_core(raw: Seq<char>) -> Seq<char> {
    trimmed(trim_start_by(trimmed(raw), CharClass::Bullet))
}

/// Whether a line of a summary names the open task.
pub open spec fn names_task(raw: Seq<char>) -> bool {
    starts_lowered(summary_core(raw), OPEN_TASK_PREFIX@)
}

/// The task that such a line names, where it names one.
pub open spec fn task_named(raw: Seq<char>) -> Option<Seq<char>> {
    said(summary_core(raw).skip(10))
}

/// Whether a line of a summary names the open task and gives a value for it.
pub open spec fn gives_task(raw: Seq<char>) -> bool {
    names_task(raw) && trim_by(summary_core(raw).skip(10), CharClass::Noise).len() > 0
}

/// The task that the last line giving a value for it names. A line without a value is passed over;
/// one that says there is none counts.
pub open spec fn last_task(lines: Seq<Seq<char>>) -> Option<Seq<char>>
    decreases lines.len(),
{
    if lines.len() == 0 {
        None
    } else if gives_task(lines.last()) {
        task_named(lines.last())
    } else {
        last_task(lines.drop_last())
    }
}

/// The task that the last line about it names, whether or not that line gives a value.
pub open spec fn task_read(lines: Seq<Seq<char>>) -> Option<Seq<char>>
    decreases lines.len(),
{
    if lines.len() == 0 {
        None
    } else if names_task(lines.last()) {
        task_named(lines.last())
    } else {
        task_read(lines.drop_last())
    }
}

/// The lines that do not name the open task.
pub open spec fn other_lines(lines: Seq<Seq<char>>) -> Seq<Seq<char>>
    decreases lines.len(),
{
    if lines.len() == 0 {
        seq![]
    } else if names_task(lines.last()) {
        other_lines(lines.drop_last())
    } else {
        other_lines(lines.drop_last()).push(lines.last())
    }
}

/// Whether the lines end inside the section on the next step. A second-level heading opens or
/// closes it.
pub open spec fn in_next_step(lines: Seq<Seq<char>>) -> bool
    decreases lines.len(),
{
    if lines.len() == 0 {
        false
    } else if !names_task(lines.last()) && starts_with(trimmed(lines.last()), "## "@) {
        starts_lowered(trimmed(lines.last()), "## next step"@)
    } else {
        in_next_step(lines.drop_last())
    }
}

/// What a line of the section on the next step says.
pub open spec fn step_said(raw: Seq<char>) -> Option<Seq<char>> {
    let v = trimmed(trim_start_by(trimmed(raw), CharClass::ListMark));
    if v.len() == 0 || is_negative(v) {
        None
    } else {
        Some(field_text(v))
    }
}

/// The first step that the sections on the next step name.
pub open spec fn first_step(lines: Seq<Seq<char>>) -> Option<Seq<char>>
    decreases lines.len(),
{
    if lines.len() == 0 {
        None
    } else {
        let before = lines.drop_last();
        let line = lines.last();
        if first_step(before) is Some || names_task(line) || starts_with(trimmed(line), "## "@)
            || !in_next_step(before) {
            first_step(before)
        } else {
            step_said(line)
        }
    }
}

/// The task that a summary leaves open: the one it names, else the first next step, else none.
pub open spec fn open_task_of(task: Option<Seq<char>>, step: Option<Seq<char>>) -> Seq<char> {
    match task {
        Some(v) => field_text(v),
        None => match step {
            Some(v) => v,
            None => OPEN_TASK_NONE@,
        },
    }
}

/// The line that names the open task `value`.
pub open spec fn task_line(value: Seq<char>) -> Seq<char> {
    OPEN_TASK_PREFIX@ + " "@ + value
}

/// The lines of a summary other than those naming the open task, as one text.
pub open spec fn summary_rest(lines: Seq<Seq<char>>) -> Seq<char> {
    trim_end_by(joined(other_lines(lines), "\n"@), CharClass::Space)
}

/// A summary with one line at its end that names the open task.
pub open spec fn normalized(body: Seq<char>) -> Seq<char> {
    let lines = lines_of(body);
    let rest = summary_rest(lines);
    (if rest.len() == 0 {
        rest
    } else {
        rest + "\n\n"@
    }) + task_line(open_task_of(last_task(lines), first_step(lines)))
}

/// A line of a summary without the Markdown around it.
fn core_of_summary_line<'a>(raw: &'a str) -> (r: &'a str)
    ensures
        r@ == summary_core(raw@),
{
    trim(trim_start_class(trim(raw), CharClass::Bullet))
}

/// Rewrites a summary so that it ends with exactly one line naming the open task.
pub fn normalize_open_task_trailer(body: &str) -> (r: String)
    ensures
        r@ == normalized(body@),
{
    let rows = lines(body);
    let mut kept: Vec<String> = Vec::new();
    let mut task: Option<String> = None;
    let mut step: Option<String> = None;
    let mut in_step: bool = false;
    let mut i: usize = 0;
    while i < rows.len()
        invariant
            i <= rows.len(),
            views(kept@) == other_lines(views(rows@).take(i as int)),
            opt_view(task) == (match last_task(views(rows@).take(i as int)) {
                Some(v) => Some(field_text(v)),
                None => None,
            }),
            opt_view(step) == first_step(views(rows@).take(i as int)),
            in_step == in_next_step(views(rows@).take(i as int)),
        decreases rows.len() - i,
    {
        proof {
            let now = views(rows@).take(i + 1);
            assert(now.drop_last() == views(rows@).take(i as int));
            assert(now.last() == rows@[i as int]@);
            reveal_strlit("open_task:");
        }
        let raw = rows[i].as_str();
        let trimmed_line = trim(raw);
        let core = core_of_summary_line(raw);
        if begins_lowered(core, OPEN_TASK_PREFIX) {
            let v = trim_class(tail(core, 10), CharClass::Noise);
            if !v.is_empty() {
                task = if is_negative_value(v) {
                    None
                } else {
                    Some(truncate_on_char_boundary(v, TRAILER_FIELD_MAX_CHARS))
                };
            }
        } else {
            if begins(trimmed_line, "## ") {
                in_step = begins_lowered(trimmed_line, "## next step");
            } else if in_step && step.is_none() {
                let v = trim(trim_start_class(trimmed_line, CharClass::ListMark));
                if !v.is_empty() && !is_negative_value(v) {
                    step = Some(truncate_on_char_boundary(v, TRAILER_FIELD_MAX_CHARS));
                }
            }
            let ghost before = kept@;
            kept.push(rows[i].clone());
            proof {
                assert(views(kept@) =~= views(before).push(rows@[i as int]@));
            }
        }
        i = i + 1;
    }
    proof {
        assert(views(rows@).take(rows@.len() as int) == views(rows@));
        assert(views(kept@).take(kept@.len() as int) == views(kept@));
    }
    let value: String = match task {
        Some(v) => v,
        None => match step {
            Some(v) => v,
            None => OPEN_TASK_NONE.to_owned(),
        },
    };
    let n: usize = kept.len();
    let joined_lines = join(&kept, n, "\n");
    let mut out: String = trim_end_class(joined_lines.as_str(), CharClass::Space).to_owned();
    if !out.as_str().is_empty() {
        out.append("\n\n");
    }
    let mut line: String = OPEN_TASK_PREFIX.to_owned();
    line.append(" ");
    line.append(value.as_str());
    out.append(line.as_str());
    out
}

/// The task that the last line of a summary about it names as open. A normalized summary has one
/// such line.
pub fn read_open_task(body: &str) -> (r: Option<String>)
    ensures
        opt_view(r) == task_read(lines_of(body@)),
{
    let rows = lines(body);
    let mut found: Option<String> = None;
    let mut i: usize = 0;
    while i < rows.len()
        invariant
            i <= rows.len(),
            opt_view(found) == task_read(views(rows@).take(i as int)),
        decreases rows.len() - i,
    {
        proof {
            let now = views(rows@).take(i + 1);
            assert(now.drop_last() == views(rows@).take(i as int));
            assert(now.last() == rows@[i as int]@);
            reveal_strlit("open_task:");
        }
        let core = core_of_summary_line(rows[i].as_str());
        if begins_lowered(core, OPEN_TASK_PREFIX) {
            found = match value_said(tail(core, 10)) {
                Some(v) => Some(v.to_owned()),
                None => None,
            };
        }
        i = i + 1;
    }
    proof {
        assert(views(rows@).take(rows@.len() as int) == views(rows@));
    }
    found
}

} // verus!
