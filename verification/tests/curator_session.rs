use continuum_core::context::trailer::read_open_task;
use continuum_core::curator::run::ActivitySignal;
use continuum_core::curator::session::{
    session_event, session_prompt, write_session_summary, EndedSession, SessionTracker,
};
use continuum_core::note::{Event, NodeStatus, NodeType, Source};
use continuum_core::time::Timestamp;

fn seconds(n: i64) -> i64 {
    n * 1_000_000_000
}

fn minutes(n: i64) -> i64 {
    seconds(n * 60)
}

fn plus(t: Timestamp, nanos: i64) -> Timestamp {
    Timestamp { nanos: t.nanos + nanos }
}

fn minus(t: Timestamp, nanos: i64) -> Timestamp {
    Timestamp { nanos: t.nanos - nanos }
}

/// 2026-01-01T09:00:00Z.
fn base_ts() -> Timestamp {
    Timestamp { nanos: seconds(1_767_258_000) }
}

fn mk_sig(ts: Timestamp, process: &str, project_hint: Option<&str>) -> ActivitySignal {
    ActivitySignal {
        project_hint: project_hint.map(|s| s.to_string()),
        process: process.to_string(),
        idle_seconds: 0,
        ts: Some(ts),
    }
}

#[test]
fn observe_starts_a_session_without_emitting() {
    let mut tracker = SessionTracker::new();
    let t0 = base_ts();
    assert_eq!(
        tracker.observe(&mk_sig(t0, "vscode", Some("continuum")), 20),
        None
    );
}

#[test]
fn observe_with_no_timestamp_is_a_no_op() {
    let mut tracker = SessionTracker::new();
    let untimestamped = ActivitySignal::default();
    assert_eq!(tracker.observe(&untimestamped, 20), None);

    let t0 = base_ts();
    assert_eq!(tracker.observe(&mk_sig(t0, "vscode", None), 20), None);
}

#[test]
fn observe_emits_boundary_on_idle_gap_ending_at_last_activity() {
    let mut tracker = SessionTracker::new();
    let t0 = base_ts();
    assert_eq!(
        tracker.observe(&mk_sig(t0, "vscode", Some("continuum")), 20),
        None
    );

    let t1 = plus(t0, minutes(3));
    assert_eq!(
        tracker.observe(&mk_sig(t1, "vscode", Some("continuum")), 20),
        None
    );

    let t2 = plus(t1, minutes(25));
    let ended = tracker
        .observe(&mk_sig(t2, "vscode", Some("continuum")), 20)
        .expect("idle gap should emit a boundary");
    assert_eq!(ended.started, t0);
    assert_eq!(ended.ended, t1);
    assert_eq!(ended.process, "vscode");
    assert_eq!(ended.project_hint.as_deref(), Some("continuum"));
}

#[test]
fn observe_emits_boundary_on_process_change_after_min_session_length() {
    let mut tracker = SessionTracker::new();
    let t0 = base_ts();
    assert_eq!(
        tracker.observe(&mk_sig(t0, "vscode", Some("continuum")), 20),
        None
    );

    let t1 = plus(t0, minutes(6));
    assert_eq!(
        tracker.observe(&mk_sig(t1, "vscode", Some("continuum")), 20),
        None
    );

    let t2 = plus(t1, seconds(10));
    let ended = tracker
        .observe(&mk_sig(t2, "chrome", Some("continuum")), 20)
        .expect("process change after >=5min session should emit a boundary");
    assert_eq!(ended.started, t0);
    assert_eq!(ended.ended, t1);
    assert_eq!(ended.process, "vscode");
    assert_eq!(ended.project_hint.as_deref(), Some("continuum"));

    let t3 = plus(t2, seconds(5));
    assert_eq!(
        tracker.observe(&mk_sig(t3, "chrome", Some("continuum")), 20),
        None
    );
}

#[test]
fn with_session_min_minutes_changes_the_process_change_floor() {
    let mut tracker = SessionTracker::with_session_min_minutes(1);
    let t0 = base_ts();
    assert_eq!(
        tracker.observe(&mk_sig(t0, "vscode", Some("continuum")), 20),
        None
    );

    let t1 = plus(t0, minutes(2));
    assert_eq!(
        tracker.observe(&mk_sig(t1, "vscode", Some("continuum")), 20),
        None
    );

    let t2 = plus(t1, seconds(10));
    let ended = tracker
        .observe(&mk_sig(t2, "chrome", Some("continuum")), 20)
        .expect("process change after >=1min session should emit a boundary");
    assert_eq!(ended.started, t0);
    assert_eq!(ended.process, "vscode");
}

#[test]
fn observe_never_emits_on_a_brief_process_flick() {
    let mut tracker = SessionTracker::new();
    let t0 = base_ts();
    assert_eq!(
        tracker.observe(&mk_sig(t0, "vscode", Some("continuum")), 20),
        None
    );

    let t1 = plus(t0, minutes(1));
    assert_eq!(
        tracker.observe(&mk_sig(t1, "notepad", Some("continuum")), 20),
        None
    );

    let t2 = plus(t1, minutes(1));
    assert_eq!(
        tracker.observe(&mk_sig(t2, "vscode", Some("continuum")), 20),
        None
    );

    let t3 = plus(t2, minutes(30));
    let ended = tracker
        .observe(&mk_sig(t3, "vscode", Some("continuum")), 20)
        .expect("idle gap should still emit");
    assert_eq!(ended.started, t0);
    assert_eq!(ended.ended, t2);
    assert_eq!(ended.process, "vscode");
}

#[test]
fn observe_resets_after_emitting_and_can_emit_again() {
    let mut tracker = SessionTracker::new();
    let t0 = base_ts();
    tracker.observe(&mk_sig(t0, "vscode", Some("continuum")), 20);

    let t1 = plus(t0, minutes(25));
    let ended1 = tracker
        .observe(&mk_sig(t1, "vscode", Some("continuum")), 20)
        .expect("first idle boundary");
    assert_eq!(ended1.started, t0);
    assert_eq!(ended1.ended, t0);

    let t2 = plus(t1, minutes(25));
    let ended2 = tracker
        .observe(&mk_sig(t2, "vscode", Some("continuum")), 20)
        .expect("second idle boundary");
    assert_eq!(ended2.started, t1);
    assert_eq!(ended2.ended, t1);
}

#[test]
fn observe_ignores_non_monotonic_signal_without_rewinding_state() {
    let mut tracker = SessionTracker::new();
    let idle_limit_min = 2;

    let t0 = base_ts();
    assert_eq!(
        tracker.observe(&mk_sig(t0, "vscode", Some("continuum")), idle_limit_min),
        None
    );

    let t1 = plus(t0, minutes(1));
    assert_eq!(
        tracker.observe(&mk_sig(t1, "vscode", Some("continuum")), idle_limit_min),
        None
    );

    let out_of_order = minus(t0, seconds(30));
    assert_eq!(
        tracker.observe(
            &mk_sig(out_of_order, "vscode", Some("continuum")),
            idle_limit_min
        ),
        None
    );

    let t2 = plus(t1, seconds(110));
    assert_eq!(
        tracker.observe(&mk_sig(t2, "vscode", Some("continuum")), idle_limit_min),
        None
    );

    let t3 = plus(t2, minutes(5));
    let ended = tracker
        .observe(&mk_sig(t3, "vscode", Some("continuum")), idle_limit_min)
        .expect("genuine idle gap should still emit a boundary");
    assert_eq!(ended.started, t0);
    assert_eq!(ended.ended, t2);
}

#[test]
fn observe_prefers_idle_boundary_when_both_conditions_coincide() {
    let mut tracker = SessionTracker::new();
    let idle_limit_min = 5;

    let t0 = base_ts();
    tracker.observe(&mk_sig(t0, "vscode", Some("continuum")), idle_limit_min);

    let t1 = plus(t0, minutes(3));
    tracker.observe(&mk_sig(t1, "vscode", Some("continuum")), idle_limit_min);
    let t2 = plus(t1, minutes(3));
    tracker.observe(&mk_sig(t2, "vscode", Some("continuum")), idle_limit_min);

    let t3 = plus(t2, minutes(10));
    let ended = tracker
        .observe(&mk_sig(t3, "chrome", Some("web")), idle_limit_min)
        .expect("a boundary should fire");

    assert_eq!(ended.started, t0);
    assert_eq!(ended.ended, t2);
    assert_eq!(ended.process, "vscode");

    let t4 = plus(t3, seconds(1));
    assert_eq!(
        tracker.observe(&mk_sig(t4, "chrome", Some("web")), idle_limit_min),
        None
    );
}

#[test]
fn observe_emits_boundary_on_project_change_without_dwell_floor() {
    let mut tracker = SessionTracker::new();
    let t0 = base_ts();
    assert_eq!(
        tracker.observe(&mk_sig(t0, "vscode", Some("continuum")), 20),
        None
    );

    let t1 = plus(t0, minutes(1));
    let ended = tracker
        .observe(&mk_sig(t1, "vscode", Some("simcharts")), 20)
        .expect("a project change should emit a boundary regardless of session length");
    assert_eq!(ended.started, t0);
    assert_eq!(ended.ended, t0);
    assert_eq!(ended.project_hint.as_deref(), Some("continuum"));
    assert_eq!(ended.process, "vscode");

    let snap = tracker.snapshot().expect("a session is in progress");
    assert_eq!(snap.project_hint.as_deref(), Some("simcharts"));
    assert_eq!(snap.started, t1);
}

#[test]
fn observe_does_not_emit_on_project_hint_adoption_or_loss() {
    let mut tracker = SessionTracker::new();
    let t0 = base_ts();
    assert_eq!(tracker.observe(&mk_sig(t0, "vscode", None), 20), None);

    let t1 = plus(t0, minutes(1));
    assert_eq!(
        tracker.observe(&mk_sig(t1, "vscode", Some("continuum")), 20),
        None
    );
    assert_eq!(
        tracker.snapshot().unwrap().project_hint.as_deref(),
        Some("continuum")
    );

    let t2 = plus(t1, minutes(1));
    assert_eq!(tracker.observe(&mk_sig(t2, "vscode", None), 20), None);
    assert_eq!(tracker.snapshot().unwrap().project_hint, None);
    assert_eq!(tracker.snapshot().unwrap().started, t0);
}

#[test]
fn observe_prefers_idle_boundary_over_a_coincident_project_change() {
    let mut tracker = SessionTracker::new();
    let t0 = base_ts();
    tracker.observe(&mk_sig(t0, "vscode", Some("continuum")), 5);

    let t1 = plus(t0, minutes(30));
    let ended = tracker
        .observe(&mk_sig(t1, "vscode", Some("simcharts")), 5)
        .expect("a boundary should fire");
    assert_eq!(ended.ended, t0);
    assert_eq!(ended.project_hint.as_deref(), Some("continuum"));
}

#[test]
fn snapshot_is_none_before_the_first_timestamped_signal() {
    let mut tracker = SessionTracker::new();
    assert_eq!(tracker.snapshot(), None);
    tracker.observe(&ActivitySignal::default(), 20);
    assert_eq!(tracker.snapshot(), None);
}

#[test]
fn snapshot_tracks_last_activity_without_a_boundary() {
    let mut tracker = SessionTracker::new();
    let t0 = base_ts();
    tracker.observe(&mk_sig(t0, "vscode", Some("continuum")), 20);
    let t1 = plus(t0, minutes(2));
    assert_eq!(
        tracker.observe(&mk_sig(t1, "vscode", Some("continuum")), 20),
        None
    );
    let snap = tracker.snapshot().unwrap();
    assert_eq!(snap.started, t0);
    assert_eq!(snap.last_activity, t1);
    assert_eq!(snap.process, "vscode");
}

fn ended(project_hint: Option<&str>) -> EndedSession {
    EndedSession {
        started: base_ts(),
        ended: plus(base_ts(), minutes(30)),
        project_hint: project_hint.map(|s| s.to_string()),
        process: "vscode".to_string(),
    }
}

fn event(id: i64, ts: &str, text: &str) -> Event {
    Event {
        id,
        ts: ts.to_string(),
        kind: "distilled".to_string(),
        text: text.to_string(),
    }
}

#[test]
fn a_session_with_few_events_is_not_asked_about() {
    let two = vec![
        event(1, "2026-01-01T09:00:00+00:00", "a"),
        event(2, "2026-01-01T09:01:00+00:00", "b"),
    ];
    assert_eq!(session_prompt("{{EVENTS}}", &ended(None), &two), None);
}

#[test]
fn a_session_prompt_says_when_where_and_what() {
    let events = vec![
        event(1, "2026-01-01T09:00:00+00:00", "a"),
        event(2, "2026-01-01T09:01:00+02:00", "b"),
        event(3, "yesterday", "c"),
    ];
    let template = "{{START}}|{{END}}|{{PROCESS}}|{{PROJECT}}|{{EVENTS}}";
    assert_eq!(
        session_prompt(template, &ended(None), &events).unwrap(),
        "2026-01-01T09:00:00+00:00|2026-01-01T09:30:00+00:00|vscode|none|\
         09:00 distilled — a\n09:01 distilled — b\nyesterday distilled — c"
    );
    assert!(session_prompt(template, &ended(Some("continuum")), &events)
        .unwrap()
        .contains("|vscode|continuum|"));
}

#[test]
fn a_summary_becomes_a_note_that_counts() {
    let reply = "  ## Goal\nship it\n## Next step\nrun the tests  ";
    let note = write_session_summary(&ended(Some("continuum")), reply).unwrap();
    assert_eq!(note.node_type, NodeType::Session);
    assert_eq!(note.status, NodeStatus::Confirmed);
    assert_eq!(note.source, Source::Observed);
    assert_eq!(note.title, "Session: vscode — 2026-01-01 09:30");
    assert_eq!(note.confidence, 1_000_000);
    assert_eq!(note.source_ref.as_deref(), Some("curator:session"));
    assert_eq!(note.project.as_deref(), Some("continuum"));
    assert_eq!(note.relations.len(), 1);
    assert_eq!(note.relations[0].to, "continuum");
    assert_eq!(note.relations[0].rel, "belongs_to");
    assert!(note.body.ends_with("open_task: run the tests"));
    assert_eq!(read_open_task(&note.body).as_deref(), Some("run the tests"));

    let event = session_event(&note.title, "mem_1", &ended(Some("continuum")));
    assert_eq!(event.kind, "session");
    assert_eq!(event.text, note.title);
    assert_eq!(event.node_id.as_deref(), Some("mem_1"));
}

#[test]
fn a_summary_without_a_project_has_no_relation() {
    let note = write_session_summary(&ended(None), "did things").unwrap();
    assert!(note.relations.is_empty());
    assert_eq!(note.project, None);
}

#[test]
fn a_session_that_the_model_skips_leaves_no_note() {
    assert_eq!(write_session_summary(&ended(None), "  SKIP\n"), None);
    assert!(write_session_summary(&ended(None), "SKIP it").is_some());
}
