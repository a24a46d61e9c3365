//! What frames, events, commands, inferences and corrections do to the session state, field by field,
//! and when the state is inferred anew.
use vstd::prelude::*;
#[allow(unused_imports)]
use crate::context::intents::{field_name, SessionField};
#[allow(unused_imports)]
use crate::context::sensitivity::EventSensitivity;
#[allow(unused_imports)]
use crate::context::session_hub::{
    after_command, after_correction, after_event, after_frame, after_inference, after_pin_mark,
    counted, last_of, with_token, FrameFacts, HubView, InferenceView,
};
#[allow(unused_imports)]
use crate::context::session_state::{
    age_of, any_local, digest_of, file_in_title, files_after, memory_summary, packed, stamp_line,
    summary_lines, triggered, without, ContextEvent, EventDigest, InferenceTrigger,
    SessionStateConfig, StampView, StateView, TriggerInputs,
};
#[allow(unused_imports)]
use crate::text::{decimal, joined, trimmed};
#[allow(unused_imports)]
use crate::time::Timestamp;

verus! {

/// What a change of the project leaves of the inference: a pinned goal or task, and how sure it is;
/// nothing where neither is pinned.
pub open spec fn inference_dropped(s: StateView, t: StateView) -> bool {
    let goal = s.pinned.contains("goal"@);
    let task = s.pinned.contains("task"@);
    &&& t.current_goal == (if goal {
        s.current_goal
    } else {
        None
    })
    &&& t.current_task == (if task {
        s.current_task
    } else {
        None
    })
    &&& t.activity_summary is None && t.interpretation is None && t.suggested_help is None
    &&& goal || task ==> t.confidence == s.confidence && t.local_only == s.local_only
        && t.inferred_at == s.inferred_at
    &&& !goal && !task ==> t.confidence == 0 && !t.local_only && t.inferred_at is None
}

/// Whether the inference is the same.
pub open spec fn inference_kept(s: StateView, t: StateView) -> bool {
    t.current_goal == s.current_goal && t.current_task == s.current_task && t.activity_summary
        == s.activity_summary && t.interpretation == s.interpretation && t.suggested_help
        == s.suggested_help && t.confidence == s.confidence && t.local_only == s.local_only
        && t.inferred_at == s.inferred_at
}

/// What a frame does to the state. Another project replaces the present one, unless that is pinned,
/// and drops what was inferred for it. The window is shown, unless it must not be observed. The file
/// that its title names comes first among the open files, unless the window is private. Everything
/// else stays.
pub proof fn law_frame_on_state(s: StateView, f: FrameFacts, project: Option<Seq<char>>)
    ensures
        ({
            let t = after_frame(s, f, project);
            let excluded = f.process_name@ == "[excluded]"@;
            &&& if s.pinned.contains("project"@) || s.active_project == project {
                t.active_project == s.active_project && t.since == s.since && inference_kept(s, t)
            } else {
                t.active_project == project && t.since == f.ts.nanos && inference_dropped(s, t)
            }
            &&& excluded ==> t.active_app == Some("[private]"@) && t.window_title == Some(
                "[private]"@,
            )
            &&& !excluded ==> t.active_app == Some(f.process_name@) && t.window_title == Some(
                f.window_title@,
            )
            &&& excluded || f.privacy_restricted || file_in_title(f.window_title@) is None
                ==> t.open_files == s.open_files
            &&& !excluded && !f.privacy_restricted && file_in_title(f.window_title@) is Some
                ==> t.open_files == files_after(s.open_files, file_in_title(f.window_title@)->0)
            &&& t.last_error == s.last_error && t.last_success == s.last_success
            &&& t.last_user_command == s.last_user_command
            &&& t.pinned == s.pinned && t.user_confirmed == s.user_confirmed
        }),
{
}

/// What an event does to the state. An error or a success with a summary is remembered with its time;
/// a file event of the active project puts its file first; nothing else changes anything.
pub proof fn law_event_on_state(s: StateView, d: EventDigest)
    ensures
        ({
            let t = after_event(s, d);
            let kind = d.event_type@;
            let stamp = StampView { text: d.summary@, at: d.ts.nanos as int };
            let file = kind == "file_modified"@ || kind == "file_created"@ || kind == "file_renamed"@;
            let ours = s.active_project is None || (d.project_id is Some && d.project_id->0@
                == s.active_project->0);
            &&& kind == "error"@ && d.summary@.len() > 0 ==> t == (StateView {
                last_error: Some(stamp),
                ..s
            })
            &&& kind == "success"@ && d.summary@.len() > 0 ==> t == (StateView {
                last_success: Some(stamp),
                ..s
            })
            &&& file && ours ==> t == (StateView {
                open_files: files_after(s.open_files, d.summary@),
                ..s
            })
            &&& !file && kind != "error"@ && kind != "success"@ ==> t == s
            &&& file && !ours ==> t == s
            &&& !file && d.summary@.len() == 0 ==> t == s
        }),
{
    reveal_strlit("error");
    reveal_strlit("success");
    reveal_strlit("file_modified");
    reveal_strlit("file_created");
    reveal_strlit("file_renamed");
    assert("error"@.len() == 5 && "success"@.len() == 7);
    assert("file_modified"@.len() == 13 && "file_created"@.len() == 12 && "file_renamed"@.len()
        == 12);
}

/// What the user asks for is remembered with its time, without the white space around it and up to
/// four hundred characters. White space alone is nothing.
pub proof fn law_command_on_state(s: StateView, text: Seq<char>, now: int)
    ensures
        trimmed(text).len() == 0 ==> after_command(s, text, now) == s,
        0 < trimmed(text).len() <= 400 ==> after_command(s, text, now) == (StateView {
            last_user_command: Some(StampView { text: trimmed(text), at: now }),
            ..s
        }),
        trimmed(text).len() > 400 ==> after_command(s, text, now) == (StateView {
            last_user_command: Some(
                StampView { text: trimmed(text).subrange(0, 400), at: now },
            ),
            ..s
        }),
{
    if trimmed(text).len() > 400 {
        assert(trimmed(text).take(400) =~= trimmed(text).subrange(0, 400));
    }
}

/// What an inference does to the state: goal and task become what was inferred, unless they are
/// pinned; so do how sure that is, where it may be seen and when it was inferred, unless both are.
/// What is observed stays.
pub proof fn law_inference_on_state(s: StateView, r: InferenceView, local_only: bool, now: int)
    ensures
        ({
            let t = after_inference(s, r, local_only, now);
            let goal = s.pinned.contains("goal"@);
            let task = s.pinned.contains("task"@);
            &&& t.current_goal == (if goal {
                s.current_goal
            } else {
                r.goal
            })
            &&& t.current_task == (if task {
                s.current_task
            } else {
                r.task
            })
            &&& t.activity_summary == r.activity
            &&& t.interpretation == r.interpretation
            &&& t.suggested_help == r.suggested_help
            &&& !(goal && task) ==> t.confidence == r.confidence && t.local_only == local_only
                && t.inferred_at == Some(now)
            &&& goal && task ==> t.confidence == s.confidence && t.local_only == s.local_only
                && t.inferred_at == s.inferred_at
            &&& t == (StateView {
                current_goal: t.current_goal,
                current_task: t.current_task,
                activity_summary: t.activity_summary,
                interpretation: t.interpretation,
                suggested_help: t.suggested_help,
                confidence: t.confidence,
                local_only: t.local_only,
                inferred_at: t.inferred_at,
                ..s
            })
        }),
{
}

/// What a correction does to the state: the field becomes what the user says, up to four hundred
/// characters, and is marked as confirmed. A goal or a task is then certain, and may be seen
/// everywhere; another project drops what was inferred for the old one. White space alone corrects
/// nothing.
pub proof fn law_correction_on_state(s: StateView, field: SessionField, value: Seq<char>, now: int)
    ensures
        trimmed(value).len() == 0 ==> after_correction(s, field, value, now) == s,
        trimmed(value).len() > 0 ==> ({
            let t = after_correction(s, field, value, now);
            let told = if trimmed(value).len() <= 400 {
                trimmed(value)
            } else {
                trimmed(value).subrange(0, 400)
            };
            &&& match field {
                SessionField::Project => t.active_project == Some(told) && (s.active_project == Some(
                    told,
                ) ==> inference_kept(s, t) && t.since == s.since) && (s.active_project != Some(told)
                    ==> inference_dropped(s, t) && t.since == now),
                SessionField::Goal => t.current_goal == Some(told) && t.current_task
                    == s.current_task && t.active_project == s.active_project && t.confidence
                    == 1_000_000 && !t.local_only && t.inferred_at == Some(now),
                SessionField::Task => t.current_task == Some(told) && t.current_goal
                    == s.current_goal && t.active_project == s.active_project && t.confidence
                    == 1_000_000 && !t.local_only && t.inferred_at == Some(now),
            }
            &&& t.pinned == s.pinned && t.open_files == s.open_files && t.active_app == s.active_app
                && t.window_title == s.window_title && t.last_error == s.last_error
                && t.last_success == s.last_success && t.last_user_command == s.last_user_command
        }),
{
    if trimmed(value).len() > 400 {
        assert(trimmed(value).take(400) =~= trimmed(value).subrange(0, 400));
    }
}

/// Pinning or releasing one field leaves the others as they are, and everything else too.
pub proof fn law_pins_are_apart(s: StateView, field: SessionField, other: SessionField, on: bool)
    ensures
        after_pin_mark(s, field, on).pins(field) == on,
        field != other ==> after_pin_mark(s, field, on).pins(other) == s.pins(other),
        after_pin_mark(s, field, on) == (StateView {
            pinned: after_pin_mark(s, field, on).pinned,
            ..s
        }),
{
    let x = field_name(field);
    let y = field_name(other);
    reveal_strlit("project");
    reveal_strlit("goal");
    reveal_strlit("task");
    assert("goal"@[0] != "task"@[0]);
    assert("project"@.len() == 7 && "goal"@.len() == 4 && "task"@.len() == 4);
    if on {
        let l = s.pinned;
        let p = with_token(l, x);
        if !l.contains(x) {
            assert(p[p.len() - 1] == x);
            if p.contains(y) && x != y {
                let i = choose|i: int| 0 <= i < p.len() && p[i] == y;
                assert(l[i] == y);
            }
            if l.contains(y) {
                let i = choose|i: int| 0 <= i < l.len() && l[i] == y;
                assert(p[i] == y);
            }
        }
    } else {
        lemma_without_is_filter(s.pinned, x);
        let w = without(s.pinned, x);
        let f = |z: Seq<char>| z != x;
        s.pinned.filter_lemma(f);
        if w.contains(x) {
            let i = choose|i: int| 0 <= i < w.len() && w[i] == x;
            assert(f(w[i]));
        }
        if w.contains(y) {
            let i = choose|i: int| 0 <= i < w.len() && w[i] == y;
            s.pinned.lemma_filter_contains_rev(f, w[i]);
        }
        if s.pinned.contains(y) && x != y {
            assert(f(y));
            let i = choose|i: int| 0 <= i < s.pinned.len() && s.pinned[i] == y;
            assert(s.pinned.filter(f).contains(s.pinned[i]));
        }
    }
}

proof fn lemma_without_is_filter(l: Seq<Seq<char>>, x: Seq<char>)
    ensures
        without(l, x) == l.filter(|z: Seq<char>| z != x),
    decreases l.len(),
{
    reveal(Seq::filter);
    if l.len() > 0 {
        lemma_without_is_filter(l.drop_last(), x);
    }
}

/// The open files after one was touched: it first, then the others in their order, eight at most. An
/// empty path, or the file that is first already, changes nothing.
pub proof fn law_touched_file_comes_first(files: Seq<Seq<char>>, path: Seq<char>)
    ensures
        path.len() == 0 ==> files_after(files, path) == files,
        files.len() > 0 && files[0] == path ==> files_after(files, path) == files,
        path.len() > 0 && !(files.len() > 0 && files[0] == path) ==> ({
            let all = seq![path] + files.filter(|z: Seq<char>| z != path);
            files_after(files, path) == (if all.len() <= 8 {
                all
            } else {
                all.subrange(0, 8)
            })
        }),
{
    lemma_without_is_filter(files, path);
    let all = seq![path] + without(files, path);
    if all.len() > 8 {
        assert(all.take(8) =~= all.subrange(0, 8));
    }
}

/// When the state is inferred anew: never while the user is away, never where nothing is known, never
/// before the least time since the last attempt has passed. Then a change of the project is a reason,
/// else enough significant events, else enough changes of the window, else the age of the last
/// inference, or that there was none.
pub proof fn law_when_to_infer(i: TriggerInputs, cfg: SessionStateConfig)
    ensures
        ({
            let since = match i.last_inference_at {
                Some(t) => Some(i.now.nanos - t.nanos),
                None => None,
            };
            let may = !i.idle && i.has_content && (since is None || since->0
                >= cfg.infer_min_interval_secs * 1_000_000_000);
            let many = i.significant_events >= cfg.infer_min_new_events;
            let busy = i.focus_switches >= cfg.infer_min_focus_switches;
            let old = since is None || since->0 >= cfg.infer_max_age_minutes * 60_000_000_000;
            let r = triggered(i, cfg);
            &&& !may ==> r is None
            &&& may && i.project_switched ==> r == Some(InferenceTrigger::ProjectSwitch)
            &&& may && !i.project_switched && many ==> r == Some(InferenceTrigger::EventVolume)
            &&& may && !i.project_switched && !many && busy ==> r == Some(
                InferenceTrigger::ActivitySequence,
            )
            &&& may && !i.project_switched && !many && !busy && old ==> r == Some(
                InferenceTrigger::Stale,
            )
            &&& may && !i.project_switched && !many && !busy && !old ==> r is None
        }),
{
}

/// What an event counts for: one more significant event from the threshold on, one more change of the
/// window where it is one; and it is the last of the events that are kept, sixty-four at most. An
/// attempt to infer sets the counts back.
pub proof fn law_events_count(h: HubView, d: EventDigest, threshold: int, now: Timestamp)
    requires
        0 <= h.significant < usize::MAX,
        0 <= h.focus_switches < usize::MAX,
    ensures
        ({
            let n = h.eventful(d, threshold);
            &&& n.significant == (if d.importance >= threshold {
                h.significant + 1
            } else {
                h.significant
            })
            &&& n.focus_switches == (if d.event_type@ == "focus_switch"@ {
                h.focus_switches + 1
            } else {
                h.focus_switches
            })
            &&& n.events.len() > 0 && n.events.last() == d
            &&& h.events.len() < 64 ==> n.events == h.events.push(d)
            &&& h.events.len() == 64 ==> n.events == h.events.subrange(1, 64).push(d)
            &&& n.project_switched == h.project_switched && n.last_inference_at
                == h.last_inference_at
        }),
        ({
            let n = h.attempted(now);
            &&& n.significant == 0 && n.focus_switches == 0 && !n.project_switched
            &&& n.last_inference_at == Some(now)
            &&& n.state == h.state && n.events == h.events && n.version == h.version
        }),
{
    if h.events.len() == 64 {
        assert(h.events.drop_first() =~= h.events.subrange(1, 64));
    }
}

/// How long ago something was: under a minute, then in whole minutes for an hour, in whole hours for a
/// day, in whole days from then on.
pub proof fn law_age_texts(now: int, then: int)
    ensures
        ({
            let d = now - then;
            &&& d < 60_000_000_000 ==> age_of(now, then) == "just now"@
            &&& 60_000_000_000 <= d < 3_600_000_000_000 ==> age_of(now, then) == decimal(
                d / 60_000_000_000,
            ) + "m ago"@
            &&& 3_600_000_000_000 <= d < 86_400_000_000_000 ==> age_of(now, then) == decimal(
                d / 3_600_000_000_000,
            ) + "h ago"@
            &&& 86_400_000_000_000 <= d ==> age_of(now, then) == decimal(d / 86_400_000_000_000)
                + "d ago"@
        }),
{
}

/// What a summary of the state says where it all fits: project and application, goal and task where
/// they are sure enough, the last command, error and success with their age, and the open files. An
/// unsure goal or task is unknown.
pub proof fn law_summary_says(s: StateView, now: int, max: int, floor: int)
    requires
        joined(summary_lines(s, now, floor), "\n"@).len() <= max,
    ensures
        memory_summary(s, now, max, floor) == joined(summary_lines(s, now, floor), "\n"@),
        ({
            let l = summary_lines(s, now, floor);
            let known = |o: Option<Seq<char>>|
                match o {
                    Some(x) => x,
                    None => "unknown"@,
                };
            let stamped = |label: Seq<char>, v: StampView|
                label + " ("@ + age_of(now, v.at) + "): "@ + v.text;
            &&& l[0] == "project: "@ + known(s.active_project) + " | app: "@ + known(s.active_app)
            &&& l[1] == "goal: "@ + (if s.confidence >= floor {
                known(s.current_goal)
            } else {
                "unknown"@
            })
            &&& l[2] == "task: "@ + (if s.confidence >= floor {
                known(s.current_task)
            } else {
                "unknown"@
            })
            &&& s.last_user_command matches Some(v) ==> l.contains(stamped("last command"@, v))
            &&& s.last_error matches Some(v) ==> l.contains(stamped("last error"@, v))
            &&& s.last_success matches Some(v) ==> l.contains(stamped("last success"@, v))
            &&& s.open_files.len() > 0 ==> l.last() == "open files: "@ + joined(s.open_files, ", "@)
        }),
{
    let l = summary_lines(s, now, floor);
    reveal_strlit("\n");
    reveal_strlit("project: ");
    lemma_packed_all(l, max);
    lemma_lines_nonempty(s, now, floor);
    let a: int = 3;
    let b: int = a + (if s.last_user_command is Some {
        1int
    } else {
        0
    });
    let c: int = b + (if s.last_error is Some {
        1int
    } else {
        0
    });
    if let Some(v) = s.last_user_command {
        assert(l[a] == stamp_line("last command"@, v, now));
    }
    if let Some(v) = s.last_error {
        assert(l[b] == stamp_line("last error"@, v, now));
    }
    if let Some(v) = s.last_success {
        assert(l[c] == stamp_line("last success"@, v, now));
    }
}

proof fn lemma_lines_nonempty(s: StateView, now: int, floor: int)
    ensures
        joined(summary_lines(s, now, floor), "\n"@).len() > 0,
{
    let l = summary_lines(s, now, floor);
    reveal_strlit("\n");
    assert(l.len() >= 3);
}

proof fn lemma_joined_prefix(l: Seq<Seq<char>>, sep: Seq<char>)
    requires
        l.len() > 1,
    ensures
        joined(l.drop_last(), sep).len() + sep.len() + l.last().len() == joined(l, sep).len(),
{
}

proof fn lemma_packed_all(l: Seq<Seq<char>>, max: int)
    requires
        l.len() > 0,
        l[0].len() > 0,
        joined(l, "\n"@).len() <= max,
    ensures
        packed(l, max) == joined(l, "\n"@),
        packed(l, max).len() > 0,
    decreases l.len(),
{
    reveal_strlit("\n");
    let b = l.drop_last();
    if b.len() == 0 {
        assert(packed(b, max) =~= Seq::<char>::empty());
    } else {
        lemma_joined_prefix(l, "\n"@);
        assert(b[0] == l[0]);
        lemma_packed_all(b, max);
    }
}

/// A change of the content is stamped with its time and counted; where nothing changed, nothing is.
pub proof fn law_changes_are_stamped(h: HubView, next: StateView, now: int)
    ensures
        next == h.state ==> h.settled(next, now) == h,
        next != h.state ==> h.settled(next, now).state == (StateView { updated: now, ..next })
            && h.settled(next, now).events == h.events && h.settled(next, now).last_inference_at
            == h.last_inference_at && h.settled(next, now).significant == h.significant
            && h.settled(next, now).focus_switches == h.focus_switches,
        next != h.state && 0 <= h.version < u64::MAX ==> h.settled(next, now).version == h.version
            + 1,
{
}

/// The last events are the last of the list, in their order.
pub proof fn law_last_events(l: Seq<EventDigest>, n: int)
    requires
        0 <= n,
    ensures
        l.len() <= n ==> last_of(l, n) == l,
        l.len() > n ==> last_of(l, n) == l.subrange(l.len() - n, l.len() as int),
{
    if l.len() > n {
        assert(l.skip(l.len() - n) =~= l.subrange(l.len() - n, l.len() as int));
    }
}

/// What is kept of an event says what the event says, and must stay on the machine where the event
/// must. What is inferred from events must, too, as soon as one of them must.
pub proof fn law_events_keep_their_zone(e: ContextEvent, events: Seq<EventDigest>)
    ensures
        ({
            let d = digest_of(e);
            &&& d.local_only == (e.sensitivity == EventSensitivity::LocalOnly)
            &&& d.ts == e.ts && d.summary == e.summary && d.event_type == e.event_type
            &&& d.project_id == e.project_id && d.application == e.application && d.source
                == e.source && d.importance == e.importance
        }),
        any_local(events) <==> events.filter(|d: EventDigest| d.local_only).len() > 0,
{
    let f = |d: EventDigest| d.local_only;
    if any_local(events) {
        let i = choose|i: int| 0 <= i < events.len() && (#[trigger] events[i]).local_only;
        events.lemma_filter_contains(f, i);
    }
    if events.filter(f).len() > 0 {
        let x = events.filter(f)[0];
        events.lemma_filter_pred(f, 0);
        assert(events.filter(f).contains(x));
        events.lemma_filter_contains_rev(f, x);
        let i = choose|i: int| 0 <= i < events.len() && events[i] == x;
        assert(events[i].local_only);
    }
}

/// The lines of a summary stand one below the other. One that no longer fits is left out, and a later
/// one that does may still follow.
pub proof fn law_lines_are_packed(l: Seq<Seq<char>>, line: Seq<char>, max: int)
    ensures
        packed(Seq::empty(), max).len() == 0,
        ({
            let before = packed(l, max);
            let after = packed(l.push(line), max);
            &&& before.len() > 0 && before.len() + 1 + line.len() <= max ==> after == before
                + seq!['\n'] + line
            &&& before.len() > 0 && before.len() + 1 + line.len() > max ==> after == before
            &&& before.len() == 0 && line.len() <= max ==> after == line
            &&& before.len() == 0 && line.len() > max ==> after == before
        }),
{
    reveal_strlit("\n");
    assert("\n"@ =~= seq!['\n']);
    assert(l.push(line).drop_last() =~= l);
}

/// Where no line fits, as much of the project as fits is shown, else of the application.
pub proof fn law_summary_falls_back(s: StateView, now: int, max: int, floor: int)
    requires
        packed(summary_lines(s, now, floor), max).len() == 0,
    ensures
        s.active_project matches Some(p) ==> memory_summary(s, now, max, floor) == (if p.len() <= max {
            p
        } else {
            p.take(max)
        }),
        s.active_project is None ==> (s.active_app matches Some(a) ==> memory_summary(
            s,
            now,
            max,
            floor,
        ) == (if a.len() <= max {
            a
        } else {
            a.take(max)
        })),
{
}

/// A reader in the cloud sees a state that must stay on the machine without anything that was inferred,
/// but for that there is something; any other state is seen as it is.
pub proof fn law_cloud_sees_no_private_inference(s: StateView)
    ensures
        !s.local_only ==> s.for_cloud() == s,
        s.local_only ==> ({
            let t = s.for_cloud();
            let phrase = "working in a private context"@;
            &&& s.current_goal is Some ==> t.current_goal == Some(phrase)
            &&& s.current_task is Some ==> t.current_task == Some(phrase)
            &&& s.activity_summary is Some ==> t.activity_summary == Some(phrase)
            &&& s.interpretation is Some ==> t.interpretation == Some(phrase)
            &&& s.suggested_help is Some ==> t.suggested_help == Some(phrase)
            &&& s.current_goal is None ==> t.current_goal is None
            &&& s.current_task is None ==> t.current_task is None
            &&& t.active_project == s.active_project && t.confidence == s.confidence
        }),
{
}

/// A frame of another project is kept in mind until the state is inferred anew, and then is the reason
/// for that; a frame of the same project is not, nor is any frame while the project is pinned.
pub proof fn law_project_change_is_kept_in_mind(
    h: HubView,
    f: FrameFacts,
    project: Option<Seq<char>>,
)
    ensures
        h.project_switched ==> h.framed(f, project).project_switched,
        !h.project_switched ==> (h.framed(f, project).project_switched <==> !h.state.pinned.contains(
            "project"@,
        ) && h.state.active_project != project),
        h.framed(f, project).state == (if after_frame(h.state, f, project) == h.state {
            h.state
        } else {
            StateView { updated: f.ts.nanos as int, ..after_frame(h.state, f, project) }
        }),
        h.framed(f, project).events == h.events && h.framed(f, project).significant == h.significant
            && h.framed(f, project).last_inference_at == h.last_inference_at,
{
}

/// A field that is pinned to a value has that value and is pinned; one that is released keeps its value
/// and is not.
pub proof fn law_pinning_a_field(h: HubView, field: SessionField, v: Seq<char>, now: int)
    requires
        0 < trimmed(v).len() <= 400,
    ensures
        ({
            let n = h.pinned_to(field, Some(v), now).state;
            &&& n.pins(field)
            &&& match field {
                SessionField::Project => n.active_project == Some(trimmed(v)),
                SessionField::Goal => n.current_goal == Some(trimmed(v)),
                SessionField::Task => n.current_task == Some(trimmed(v)),
            }
        }),
        ({
            let n = h.pinned_to(field, None, now).state;
            &&& !n.pins(field)
            &&& n.active_project == h.state.active_project && n.current_goal == h.state.current_goal
                && n.current_task == h.state.current_task && n.confidence == h.state.confidence
        }),
{
    law_correction_on_state(h.state, field, v, now);
    let one = h.settled(after_correction(h.state, field, v, now), now);
    law_pins_are_apart(one.state, field, field, true);
    law_pins_are_apart(h.state, field, field, false);
}

} // verus!
