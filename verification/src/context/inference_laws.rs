//! What a model is asked about the state, what its answer is taken for, what a restart keeps of it,
//! and when a pin gives way.
use vstd::prelude::*;
#[allow(unused_imports)]
use crate::context::content_laws::shows;
#[allow(unused_imports)]
use crate::context::inference::{
    answered, event_line, event_lines, inferred, object_part, state_block, taken,
};
#[allow(unused_imports)]
use crate::context::pin_guard::{contradicts, diverging_since, guard_after, Divergence, PinFrame};
#[allow(unused_imports)]
use crate::context::rehydrate::{caught_up, caught_up_all, later, rehydrated};
#[allow(unused_imports)]
use crate::context::session_state::{
    age_of, blank_state, files_after, EventDigest, StampView, StateView,
};
#[allow(unused_imports)]
use crate::outside::{is_json_object, json_decimal_at, json_text_at};
#[allow(unused_imports)]
use crate::ratio::{digit_at, digit_value, has_nonzero, ratio_of_decimal};
#[allow(unused_imports)]
use crate::text::{ascii_lower, joined, lemma_first_of_is, trimmed};

verus! {

// ---------------------------------------------------------------------------
// The prompt
// ---------------------------------------------------------------------------

/// What a model is told of the state: the project, the application and the window, the open files,
/// and what came up last, each with its age. What is not known is called unknown.
pub proof fn law_model_is_told_the_state(s: StateView, now: int)
    ensures
        ({
            let text = state_block(s, now);
            let known = |o: Option<Seq<char>>|
                match o {
                    Some(x) => x,
                    None => "unknown"@,
                };
            &&& shows(text, "project: "@ + known(s.active_project) + "\n"@)
            &&& shows(text, "app: "@ + known(s.active_app) + "\n"@)
            &&& shows(text, "window: "@ + known(s.window_title) + "\n"@)
            &&& s.open_files.len() > 0 ==> shows(
                text,
                "open files: "@ + joined(s.open_files, ", "@) + "\n"@,
            )
            &&& s.last_user_command matches Some(v) ==> shows(
                text,
                "last user command"@ + " ("@ + age_of(now, v.at) + "): "@ + v.text + "\n"@,
            )
            &&& s.last_error matches Some(v) ==> shows(
                text,
                "last error"@ + " ("@ + age_of(now, v.at) + "): "@ + v.text + "\n"@,
            )
            &&& s.last_success matches Some(v) ==> shows(
                text,
                "last success"@ + " ("@ + age_of(now, v.at) + "): "@ + v.text + "\n"@,
            )
        }),
{
    let known = |o: Option<Seq<char>>|
        match o {
            Some(x) => x,
            None => "unknown"@,
        };
    let stamped = |label: Seq<char>, o: Option<StampView>|
        match o {
            Some(v) => label + " ("@ + age_of(now, v.at) + "): "@ + v.text + "\n"@,
            None => Seq::<char>::empty(),
        };
    let p = "project: "@ + known(s.active_project) + "\n"@;
    let a = "app: "@ + known(s.active_app) + "\n"@;
    let w = "window: "@ + known(s.window_title) + "\n"@;
    let f = if s.open_files.len() == 0 {
        Seq::<char>::empty()
    } else {
        "open files: "@ + joined(s.open_files, ", "@) + "\n"@
    };
    let c = stamped("last user command"@, s.last_user_command);
    let e = stamped("last error"@, s.last_error);
    let g = stamped("last success"@, s.last_success);
    lemma_seven(p, a, w, f, c, e, g);
    lemma_append(p, "app: "@, known(s.active_app), "\n"@);
    lemma_append(p + a, "window: "@, known(s.window_title), "\n"@);
    assert(state_block(s, now) == p + a + w + f + c + e + g);
}

proof fn lemma_append(x: Seq<char>, a: Seq<char>, b: Seq<char>, c: Seq<char>)
    ensures
        x + a + b + c == x + (a + b + c),
{
    assert(x + a + b + c =~= x + (a + b + c));
}

proof fn lemma_seven(
    a: Seq<char>,
    b: Seq<char>,
    c: Seq<char>,
    d: Seq<char>,
    e: Seq<char>,
    f: Seq<char>,
    g: Seq<char>,
)
    ensures
        shows(a + b + c + d + e + f + g, a),
        shows(a + b + c + d + e + f + g, b),
        shows(a + b + c + d + e + f + g, c),
        shows(a + b + c + d + e + f + g, d),
        shows(a + b + c + d + e + f + g, e),
        shows(a + b + c + d + e + f + g, f),
        shows(a + b + c + d + e + f + g, g),
{
    let all = a + b + c + d + e + f + g;
    let none = Seq::<char>::empty();
    assert(all =~= none + a + (b + c + d + e + f + g));
    assert(all =~= a + b + (c + d + e + f + g));
    assert(all =~= (a + b) + c + (d + e + f + g));
    assert(all =~= (a + b + c) + d + (e + f + g));
    assert(all =~= (a + b + c + d) + e + (f + g));
    assert(all =~= (a + b + c + d + e + f) + g + none);
}

/// What a model is told of the events: the latest, the oldest of them first, each with its age, the
/// beginning of its summary and its type; forty at most.
pub proof fn law_model_is_told_the_latest_events(
    events: Seq<EventDigest>,
    now: int,
    window: int,
    room: int,
    k: int,
)
    requires
        0 <= k < event_lines(events, now, window, room).len(),
    ensures
        event_lines(events, now, window, room).len() <= events.len(),
        ({
            let l = event_lines(events, now, window, room);
            let e = events[events.len() - l.len() + k];
            l[k] == "- ["@ + age_of(now, e.ts.nanos as int) + "] "@ + (if e.summary@.len() <= 160 {
                e.summary@
            } else {
                e.summary@.subrange(0, 160)
            }) + " ("@ + e.event_type@ + ")"@
        }),
    decreases events.len(),
{
    let l = event_lines(events, now, window, room);
    if events.len() > 0 && window > 0 {
        let line = event_line(events.last(), now);
        if line.len() + 1 <= room {
            let b = event_lines(events.drop_last(), now, window - 1, room - (line.len() + 1));
            assert(l == b.push(line));
            if k < b.len() {
                law_model_is_told_the_latest_events(
                    events.drop_last(),
                    now,
                    window - 1,
                    room - (line.len() + 1),
                    k,
                );
            } else if b.len() > 0 {
                law_model_is_told_the_latest_events(
                    events.drop_last(),
                    now,
                    window - 1,
                    room - (line.len() + 1),
                    0,
                );
            }
            let e = events.last();
            if e.summary@.len() > 160 {
                assert(e.summary@.take(160) =~= e.summary@.subrange(0, 160));
            }
        }
    }
}

/// An event is only left out for want of room, or because forty later ones are told.
pub proof fn law_events_are_told_while_they_fit(
    events: Seq<EventDigest>,
    now: int,
    window: int,
    room: int,
)
    requires
        events.len() > 0,
        window > 0,
        event_line(events.last(), now).len() + 1 <= room,
    ensures
        event_lines(events, now, window, room).len() > 0,
        event_lines(events, now, window, room).last() == event_line(events.last(), now),
        event_lines(events, now, window, room).drop_last() == event_lines(
            events.drop_last(),
            now,
            window - 1,
            room - event_line(events.last(), now).len() - 1,
        ),
{
    let line = event_line(events.last(), now);
    let b = event_lines(events.drop_last(), now, window - 1, room - (line.len() + 1));
    assert(b.push(line).drop_last() =~= b);
}

// ---------------------------------------------------------------------------
// The answer
// ---------------------------------------------------------------------------

/// What a field of an answer says: what stands there, without the white space around it and up to its
/// greatest length. Nothing where it is blank, or says that it does not know.
pub proof fn law_answered_field(s: Seq<char>, max: int)
    requires
        0 <= max,
    ensures
        answered(None, max) is None,
        ({
            let t = trimmed(s);
            let r = answered(Some(s), max);
            if t.len() == 0 || ascii_lower(t) == "unknown"@ {
                r is None
            } else if t.len() <= max {
                r == Some(t)
            } else {
                r == Some(t.subrange(0, max))
            }
        }),
{
    let t = trimmed(s);
    if t.len() > max {
        assert(t.take(max) =~= t.subrange(0, max));
    }
}

/// What an answer is taken for: each field from the part of the answer with its name, up to its own
/// greatest length, where the answer is sure enough; nothing else. It is as sure as it says.
pub proof fn law_answer_is_taken(raw: Seq<char>, floor: int)
    ensures
        inferred(raw, floor) is Some <==> is_json_object(object_part(raw)),
        inferred(raw, floor) matches Some(r) ==> ({
            let text = object_part(raw);
            let sure = match json_decimal_at(text, "confidence"@) {
                Some(s) => ratio_of_decimal(s),
                None => 0,
            };
            &&& r.confidence == sure
            &&& sure >= floor ==> r.goal == answered(json_text_at(text, "goal"@), 120) && r.task
                == answered(json_text_at(text, "task"@), 120) && r.activity == answered(
                json_text_at(text, "activity"@),
                180,
            ) && r.interpretation == answered(json_text_at(text, "interpretation"@), 280)
                && r.suggested_help == answered(json_text_at(text, "suggested_help"@), 180)
            &&& sure < floor ==> r.goal is None && r.task is None && r.activity is None
                && r.interpretation is None && r.suggested_help is None
        }),
{
}

/// The digit at a place, nought where there is none.
pub open spec fn place_value(s: Seq<char>, i: int) -> int {
    if i < s.len() && '0' <= s[i] && s[i] <= '9' {
        s[i] as u32 - 0x30
    } else {
        0
    }
}

/// What a decimal fraction is worth in millionths: its first six digits behind the point. A negative
/// number is worth nothing, and one with a digit other than nought before the point is worth one.
pub proof fn law_decimal_fractions(whole: Seq<char>, fraction: Seq<char>)
    requires
        whole.len() > 0,
        forall|i: int| 0 <= i < whole.len() ==> '0' <= #[trigger] whole[i] && whole[i] <= '9',
    ensures
        ({
            let r = ratio_of_decimal(whole + seq!['.'] + fraction);
            if exists|i: int| 0 <= i < whole.len() && #[trigger] whole[i] != '0' {
                r == 1_000_000
            } else {
                r == place_value(fraction, 0) * 100_000 + place_value(fraction, 1) * 10_000
                    + place_value(fraction, 2) * 1_000 + place_value(fraction, 3) * 100
                    + place_value(fraction, 4) * 10 + place_value(fraction, 5)
            }
        }),
        ratio_of_decimal(seq!['-'] + whole + seq!['.'] + fraction) == 0,
{
    let s = whole + seq!['.'] + fraction;
    let n = whole.len() as int;
    assert forall|j: int| 0 <= j < n implies s[j] != '.' by {
        assert(s[j] == whole[j]);
    }
    lemma_first_of_is(s, '.', n);
    assert(s.take(n) =~= whole);
    if has_nonzero(whole) {
        let i = choose|i: int| 0 <= i < whole.len() && digit_value(#[trigger] whole[i]) > 0;
        assert(whole[i] != '0');
    }
    if exists|i: int| 0 <= i < whole.len() && #[trigger] whole[i] != '0' {
        let i = choose|i: int| 0 <= i < whole.len() && #[trigger] whole[i] != '0';
        assert(digit_value(whole[i]) > 0);
    }
    assert(s[0] == whole[0]);
    assert forall|k: int| 0 <= k implies #[trigger] digit_at(s, n + 1 + k) == place_value(
        fraction,
        k,
    ) by {
        if k < fraction.len() {
            assert(s[n + 1 + k] == fraction[k]);
        }
    }
    assert(digit_at(s, n + 1 + 0) == place_value(fraction, 0));
    assert(digit_at(s, n + 1 + 1) == place_value(fraction, 1));
    assert(digit_at(s, n + 1 + 2) == place_value(fraction, 2));
    assert(digit_at(s, n + 1 + 3) == place_value(fraction, 3));
    assert(digit_at(s, n + 1 + 4) == place_value(fraction, 4));
    assert(digit_at(s, n + 1 + 5) == place_value(fraction, 5));
    assert((seq!['-'] + whole + seq!['.'] + fraction)[0] == '-');
}

// ---------------------------------------------------------------------------
// After a restart
// ---------------------------------------------------------------------------

/// What a restart makes of a stored state. For half an hour it is as sure as it was, for four hours
/// half as sure, then a quarter, and then not surer than the floor. The session goes on within the
/// half hour and begins anew after it. Which window is open is not taken over; everything else is.
pub proof fn law_restart_ages_the_state(prev: StateView, now: int, floor: int)
    requires
        0 <= prev.confidence <= 1_000_000,
    ensures
        ({
            let s = rehydrated(Some(prev), Seq::empty(), now, floor);
            let age = now - prev.updated;
            let quarter = prev.confidence / 4;
            &&& age <= 1_800_000_000_000 ==> s.confidence == prev.confidence && s.since == prev.since
            &&& 1_800_000_000_000 < age <= 14_400_000_000_000 ==> s.confidence == prev.confidence / 2
            &&& age > 14_400_000_000_000 ==> s.confidence == (if floor < quarter {
                floor
            } else {
                quarter
            })
            &&& age > 1_800_000_000_000 ==> s.since == now
            &&& s.active_app is None && s.window_title is None && s.updated == now
            &&& s == (StateView {
                active_app: s.active_app,
                window_title: s.window_title,
                confidence: s.confidence,
                since: s.since,
                updated: s.updated,
                ..prev
            })
        }),
        rehydrated(None, Seq::empty(), now, floor) == blank_state(now),
{
    let c = prev.confidence;
    assert(c * 1_000_000 / 1_000_000 == c) by (nonlinear_arith);
    assert(c * 500_000 / 1_000_000 == c / 2) by (nonlinear_arith);
    assert(c * 250_000 / 1_000_000 == c / 4) by (nonlinear_arith);
}

/// What an event from before the restart adds: a later error or success replaces the one that is
/// known, an earlier one does not; a file comes first among the open files; and the project becomes
/// known by it where it was not.
pub proof fn law_restart_catches_up(s: StateView, events: Seq<EventDigest>, e: EventDigest)
    ensures
        caught_up_all(s, events.push(e)) == caught_up(caught_up_all(s, events), e),
        ({
            let t = caught_up(s, e);
            let kind = e.event_type@;
            let stamp = StampView { text: e.summary@, at: e.ts.nanos as int };
            let file = kind == "file_modified"@ || kind == "file_created"@ || kind == "file_renamed"@;
            &&& kind == "error"@ && e.summary@.len() > 0 && !(s.last_error is Some
                && s.last_error->0.at > e.ts.nanos) ==> t.last_error == Some(stamp)
            &&& kind == "error"@ && s.last_error is Some && s.last_error->0.at > e.ts.nanos
                ==> t.last_error == s.last_error
            &&& kind == "success"@ && e.summary@.len() > 0 && !(s.last_success is Some
                && s.last_success->0.at > e.ts.nanos) ==> t.last_success == Some(stamp)
            &&& kind == "success"@ && s.last_success is Some && s.last_success->0.at > e.ts.nanos
                ==> t.last_success == s.last_success
            &&& kind != "error"@ || e.summary@.len() == 0 ==> t.last_error == s.last_error
            &&& kind != "success"@ || e.summary@.len() == 0 ==> t.last_success == s.last_success
            &&& file ==> t.open_files == files_after(s.open_files, e.summary@)
            &&& !file ==> t.open_files == s.open_files
            &&& s.active_project is Some ==> t.active_project == s.active_project
            &&& s.active_project is None ==> t.active_project == (match e.project_id {
                Some(p) => Some(p@),
                None => None,
            })
        }),
{
    assert(events.push(e).drop_last() =~= events);
    reveal_strlit("error");
    reveal_strlit("success");
    reveal_strlit("file_modified");
    reveal_strlit("file_created");
    reveal_strlit("file_renamed");
    assert("error"@.len() == 5 && "success"@.len() == 7);
    assert("file_modified"@.len() == 13 && "file_created"@.len() == 12 && "file_renamed"@.len()
        == 12);
}

// ---------------------------------------------------------------------------
// Pins
// ---------------------------------------------------------------------------

/// A pin is only questioned by another project of which the resolver is sure by seven tenths at
/// least, and the time counts from the first frame of that project.
pub proof fn law_what_questions_a_pin(
    d: Option<Divergence>,
    pinned: Seq<char>,
    id: Seq<char>,
    confidence: int,
    now: int,
)
    ensures
        contradicts(pinned, id, confidence) <==> id != pinned && confidence >= 700_000,
        d is Some && d->0.id == id ==> diverging_since(d, id, now) == d->0.since,
        d is None || d->0.id != id ==> diverging_since(d, id, now) == now,
{
}

/// A frame that does not question the pin, or one after which the pin gives way, ends the count.
pub proof fn law_count_against_a_pin(
    d: Option<Divergence>,
    pinned: Seq<char>,
    f: PinFrame,
    min_nanos: int,
)
    ensures
        f.resolved is None ==> guard_after(d, pinned, f, min_nanos) is None,
        f.resolved matches Some((id, c)) ==> (id == pinned || c < 700_000) ==> guard_after(
            d,
            pinned,
            f,
            min_nanos,
        ) is None,
        f.resolved matches Some((id, c)) ==> id != pinned && c >= 700_000 ==> ({
            let since = if d is Some && d->0.id == id {
                d->0.since
            } else {
                f.ts
            };
            guard_after(d, pinned, f, min_nanos) == (if f.ts - since >= min_nanos {
                None
            } else {
                Some(Divergence { id, since })
            })
        }),
{
}

} // verus!
