use continuum_core::context::continuation::ContinuationInputs;
use continuum_core::context::inference::{
    begin_inference, build_inference_prompt, extract_json_object, finish_inference,
    parse_inference, INFERENCE_EVENT_WINDOW, MAX_INFERRED_LEN,
};
use continuum_core::context::intents::SessionField;
use continuum_core::context::package::{PRIVATE_CONTEXT_PHRASE, PRIVATE_PLACEHOLDER};
use continuum_core::context::pin_guard::{ProjectPinGuard, PIN_CLEAR_CONFIDENCE};
use continuum_core::context::project::ProjectStatus;
use continuum_core::context::rehydrate::{
    rehydrate, staleness_discount, REHYDRATE_FRESH_MINUTES, REHYDRATE_STALE_DISCOUNT,
    REHYDRATE_VERY_STALE_DISCOUNT, REHYDRATE_VERY_STALE_HOURS,
};
use continuum_core::context::resolver::CurrentProject;
use continuum_core::context::sensitivity::EventSensitivity;
use continuum_core::context::session_hub::{
    FrameFacts, InferenceResult, SessionStateHub, EVENT_RING_CAP, EXCLUDED_PROCESS,
};
use continuum_core::context::session_state::{
    digest_from_event, evaluate_trigger, file_from_window_title, match_context_project,
    names_file, window_is_local_only, ContextEvent, EventDigest, InferenceTrigger, SessionState,
    SessionStateConfig, StampedText, TriggerInputs, MAX_OPEN_FILES, MEMORY_SUMMARY_MAX_CHARS,
};
use continuum_core::time::Timestamp;

const INFERENCE_PROMPT: &str = "STATE\n{{STATE}}\n\nEVENTS\n{{EVENTS}}\n";

fn cfg() -> SessionStateConfig {
    SessionStateConfig {
        confidence_floor: 400_000,
        infer_min_interval_secs: 120,
        infer_min_new_events: 8,
        infer_min_focus_switches: 2,
        infer_max_age_minutes: 15,
        significant_importance: 600_000,
        infer_max_tokens: 256,
    }
}

fn seconds(n: i64) -> i64 {
    n * 1_000_000_000
}

fn minutes(n: i64) -> i64 {
    seconds(n * 60)
}

fn hours(n: i64) -> i64 {
    minutes(n * 60)
}

fn plus(t: Timestamp, nanos: i64) -> Timestamp {
    Timestamp { nanos: t.nanos + nanos }
}

fn minus(t: Timestamp, nanos: i64) -> Timestamp {
    Timestamp { nanos: t.nanos - nanos }
}

fn t0() -> Timestamp {
    Timestamp { nanos: seconds(1_785_920_400) }
}

fn frame(process: &str, title: &str, ts: Timestamp) -> FrameFacts {
    FrameFacts {
        ts,
        process_name: process.to_string(),
        window_title: title.to_string(),
        privacy_restricted: false,
    }
}

fn project(id: &str) -> CurrentProject {
    pinned_project(id, 900_000)
}

fn digest(event_type: &str, summary: &str, ts: Timestamp) -> EventDigest {
    EventDigest {
        ts,
        source: "screen".to_string(),
        event_type: event_type.to_string(),
        application: "Code.exe".to_string(),
        project_id: Some("continuum".to_string()),
        summary: summary.to_string(),
        importance: 800_000,
        local_only: false,
    }
}

#[test]
fn apply_frame_sets_project_app_and_title() {
    let mut hub = SessionStateHub::new();
    hub.apply_frame(
        &frame("Code.exe", "main.rs — continuum — VS Code", t0()),
        Some(&project("continuum")),
    );
    let s = hub.snapshot();
    assert_eq!(s.active_project.as_deref(), Some("continuum"));
    assert_eq!(s.active_app.as_deref(), Some("Code.exe"));
    assert_eq!(
        s.window_title.as_deref(),
        Some("main.rs — continuum — VS Code")
    );
    assert_eq!(s.open_files, vec!["main.rs".to_string()]);
    assert_eq!(s.updated, t0());
}

#[test]
fn apply_frame_excluded_sentinel_renders_private_and_adds_no_files() {
    let mut hub = SessionStateHub::new();
    hub.apply_frame(&frame(EXCLUDED_PROCESS, "", t0()), None);
    let s = hub.snapshot();
    assert_eq!(s.active_app.as_deref(), Some(PRIVATE_PLACEHOLDER));
    assert_eq!(s.window_title.as_deref(), Some(PRIVATE_PLACEHOLDER));
    assert!(s.open_files.is_empty());
}

#[test]
fn apply_frame_adds_no_open_files_from_a_local_only_window() {
    let mut hub = SessionStateHub::new();
    let mut f = frame("Code.exe", "severance-model.xlsx — Private — Excel", t0());
    f.privacy_restricted = true;
    hub.apply_frame(&f, Some(&project("continuum")));

    let s = hub.snapshot();
    assert!(
        s.open_files.is_empty(),
        "a local_only window title must not seed open_files: {:?}",
        s.open_files
    );
    assert!(!s.local_only, "the frame does not tag the session itself");

    let mut ok = frame("Code.exe", "main.rs — continuum — VS Code", t0());
    ok.privacy_restricted = false;
    hub.apply_frame(&ok, Some(&project("continuum")));
    assert_eq!(hub.snapshot().open_files, vec!["main.rs".to_string()]);
}

#[test]
fn apply_frame_project_change_clears_inferred_fields_and_arms_trigger() {
    let mut hub = SessionStateHub::new();
    hub.apply_frame(
        &frame("Code.exe", "a.rs", t0()),
        Some(&project("continuum")),
    );
    hub.apply_inference(
        &InferenceResult {
            goal: Some("ship B5".to_string()),
            task: Some("write tests".to_string()),
            confidence: 800_000,
            ..InferenceResult::default()
        },
        false,
        t0(),
    );
    hub.mark_inference_attempt(t0());
    assert!(hub.snapshot().current_task.is_some());

    let t1 = plus(t0(), minutes(5));
    hub.apply_frame(&frame("Code.exe", "b.rs", t1), Some(&project("simcharts")));
    let s = hub.snapshot();
    assert_eq!(s.active_project.as_deref(), Some("simcharts"));
    assert_eq!(s.current_goal, None);
    assert_eq!(s.current_task, None);
    assert_eq!(s.confidence, 0);
    assert_eq!(s.since, t1);
    assert_eq!(
        hub.trigger(&cfg(), plus(t1, minutes(3)), false),
        Some(InferenceTrigger::ProjectSwitch)
    );
}

#[test]
fn version_bumps_only_on_content_change() {
    let mut hub = SessionStateHub::new();
    let f = frame("Code.exe", "a.rs — continuum", t0());
    hub.apply_frame(&f, None);
    let v1 = hub.version();
    assert!(v1 > 0);
    let mut f2 = f.clone();
    f2.ts = plus(t0(), seconds(30));
    hub.apply_frame(&f2, None);
    assert_eq!(hub.version(), v1);
    assert_eq!(hub.snapshot().updated, t0());
}

#[test]
fn apply_event_records_last_error_and_success() {
    let mut hub = SessionStateHub::new();
    hub.apply_event(digest("error", "cargo build failed", t0()), &cfg());
    hub.apply_event(
        digest("success", "tests green", plus(t0(), minutes(1))),
        &cfg(),
    );
    let s = hub.snapshot();
    assert_eq!(s.last_error.as_ref().unwrap().text, "cargo build failed");
    assert_eq!(s.last_error.as_ref().unwrap().at, t0());
    assert_eq!(s.last_success.as_ref().unwrap().text, "tests green");
}

#[test]
fn apply_event_ignores_empty_summaries() {
    let mut hub = SessionStateHub::new();
    hub.apply_event(digest("error", "", t0()), &cfg());
    assert!(hub.snapshot().last_error.is_none());
}

#[test]
fn apply_event_file_events_dedupe_and_cap_open_files() {
    let mut hub = SessionStateHub::new();
    hub.apply_frame(
        &frame("Code.exe", "no-file-here", t0()),
        Some(&project("continuum")),
    );
    for i in 0..12 {
        let mut d = digest("file_modified", &format!("src/f{i}.rs"), t0());
        d.importance = 100_000;
        hub.apply_event(d, &cfg());
    }
    hub.apply_event(digest("file_modified", "src/f11.rs", t0()), &cfg());
    let files = hub.snapshot().open_files;
    assert_eq!(files.len(), MAX_OPEN_FILES);
    assert_eq!(files[0], "src/f11.rs");
    let mut sorted = files.clone();
    sorted.sort();
    sorted.dedup();
    assert_eq!(sorted.len(), files.len(), "open_files must be deduped");
}

#[test]
fn apply_event_file_event_from_another_project_is_ignored() {
    let mut hub = SessionStateHub::new();
    hub.apply_frame(&frame("Code.exe", "x", t0()), Some(&project("continuum")));
    let mut d = digest("file_modified", "other/thing.rs", t0());
    d.project_id = Some("simcharts".to_string());
    hub.apply_event(d, &cfg());
    assert!(hub.snapshot().open_files.is_empty());
}

#[test]
fn note_user_command_stores_text_and_ts_and_skips_empty() {
    let mut hub = SessionStateHub::new();
    hub.note_user_command("   ", "voice", t0());
    assert!(hub.snapshot().last_user_command.is_none());
    hub.note_user_command("ga door", "voice", t0());
    let cmd = hub.snapshot().last_user_command.unwrap();
    assert_eq!(cmd.text, "ga door");
    assert_eq!(cmd.at, t0());
}

#[test]
fn file_from_window_title_matrix() {
    assert_eq!(
        file_from_window_title("main.rs — continuum — Visual Studio Code").as_deref(),
        Some("main.rs")
    );
    assert_eq!(
        file_from_window_title("● session_state.rs - Continuum - VS Code").as_deref(),
        Some("session_state.rs")
    );
    assert_eq!(
        file_from_window_title("plan-b.md | Continuum").as_deref(),
        Some("plan-b.md")
    );
    assert_eq!(file_from_window_title("Inbox — Outlook"), None);
    assert_eq!(file_from_window_title("github.com/anthropics"), None);
    assert_eq!(file_from_window_title(""), None);
    assert_eq!(
        file_from_window_title("my-file.rs").as_deref(),
        Some("my-file.rs")
    );
}

fn inputs(now: Timestamp) -> TriggerInputs {
    TriggerInputs {
        now,
        idle: false,
        has_content: true,
        last_inference_at: None,
        project_switched: false,
        significant_events: 0,
        focus_switches: 0,
    }
}

#[test]
fn trigger_fires_stale_when_never_inferred() {
    assert_eq!(
        evaluate_trigger(&inputs(t0()), &cfg()),
        Some(InferenceTrigger::Stale)
    );
}

#[test]
fn trigger_suppressed_while_idle() {
    let mut i = inputs(t0());
    i.idle = true;
    i.project_switched = true;
    assert_eq!(evaluate_trigger(&i, &cfg()), None);
}

#[test]
fn trigger_suppressed_when_state_is_empty() {
    let mut i = inputs(t0());
    i.has_content = false;
    assert_eq!(evaluate_trigger(&i, &cfg()), None);
}

#[test]
fn trigger_suppressed_inside_min_interval() {
    let c = cfg();
    let mut i = inputs(plus(t0(), seconds(c.infer_min_interval_secs as i64 - 1)));
    i.last_inference_at = Some(t0());
    i.project_switched = true;
    i.significant_events = 100;
    assert_eq!(evaluate_trigger(&i, &c), None);
}

#[test]
fn trigger_project_switch_outranks_volume_and_staleness() {
    let c = cfg();
    let mut i = inputs(plus(t0(), hours(1)));
    i.last_inference_at = Some(t0());
    i.project_switched = true;
    i.significant_events = 100;
    assert_eq!(
        evaluate_trigger(&i, &c),
        Some(InferenceTrigger::ProjectSwitch)
    );
}

#[test]
fn trigger_event_volume_at_threshold_only() {
    let c = cfg();
    let mut i = inputs(plus(t0(), seconds(c.infer_min_interval_secs as i64 + 1)));
    i.last_inference_at = Some(t0());
    i.significant_events = c.infer_min_new_events - 1;
    assert_eq!(evaluate_trigger(&i, &c), None);
    i.significant_events = c.infer_min_new_events;
    assert_eq!(
        evaluate_trigger(&i, &c),
        Some(InferenceTrigger::EventVolume)
    );
}

#[test]
fn trigger_activity_sequence_after_short_app_loop() {
    let c = cfg();
    let mut i = inputs(plus(t0(), seconds(c.infer_min_interval_secs as i64 + 1)));
    i.last_inference_at = Some(t0());
    i.focus_switches = c.infer_min_focus_switches - 1;
    assert_eq!(evaluate_trigger(&i, &c), None);
    i.focus_switches = c.infer_min_focus_switches;
    assert_eq!(
        evaluate_trigger(&i, &c),
        Some(InferenceTrigger::ActivitySequence)
    );
}

#[test]
fn trigger_staleness_at_max_age() {
    let c = cfg();
    let mut i = inputs(plus(t0(), minutes(c.infer_max_age_minutes as i64)));
    i.last_inference_at = Some(t0());
    assert_eq!(evaluate_trigger(&i, &c), Some(InferenceTrigger::Stale));
}

#[test]
fn hub_counts_only_significant_events_toward_the_volume_trigger() {
    let c = cfg();
    let mut hub = SessionStateHub::new();
    hub.apply_frame(&frame("Code.exe", "x", t0()), Some(&project("continuum")));
    hub.mark_inference_attempt(t0());
    for _ in 0..20 {
        let mut d = digest("routine", "nothing", t0());
        d.importance = c.significant_importance - 10_000;
        hub.apply_event(d, &c);
    }
    let later = plus(t0(), seconds(c.infer_min_interval_secs as i64 + 1));
    assert_eq!(hub.trigger(&c, later, false), None);
    for _ in 0..c.infer_min_new_events {
        hub.apply_event(digest("error", "boom", t0()), &c);
    }
    assert_eq!(
        hub.trigger(&c, later, false),
        Some(InferenceTrigger::EventVolume)
    );
}

#[test]
fn hub_counts_low_importance_focus_switches_as_an_activity_sequence() {
    let c = cfg();
    let mut hub = SessionStateHub::new();
    hub.apply_frame(
        &frame("Code.exe", "main.rs", t0()),
        Some(&project("continuum")),
    );
    hub.mark_inference_attempt(t0());
    for app in ["Brave", "ChatGPT"] {
        let mut switch = digest("focus_switch", app, t0());
        switch.importance = 0;
        hub.apply_event(switch, &c);
    }
    let later = plus(t0(), seconds(c.infer_min_interval_secs as i64 + 1));
    assert_eq!(
        hub.trigger(&c, later, false),
        Some(InferenceTrigger::ActivitySequence)
    );
}

#[test]
fn mark_inference_attempt_clears_counters() {
    let c = cfg();
    let mut hub = SessionStateHub::new();
    hub.apply_frame(&frame("Code.exe", "x", t0()), Some(&project("continuum")));
    for _ in 0..c.infer_min_new_events {
        hub.apply_event(digest("error", "boom", t0()), &c);
    }
    hub.mark_inference_attempt(t0());
    let later = plus(t0(), seconds(c.infer_min_interval_secs as i64 + 1));
    assert_eq!(hub.trigger(&c, later, false), None);
}

#[test]
fn parse_inference_happy_path() {
    let r = parse_inference(
        r#"{"goal":"ship the context engine","task":"write B5 tests","activity":"Edited session_state.rs, then searched the compiler error in Brave","interpretation":"The user is debugging the new trigger","suggested_help":"Inspect and fix the failing test","confidence":0.8}"#,
        &cfg(),
    )
    .unwrap();
    assert_eq!(r.goal.as_deref(), Some("ship the context engine"));
    assert_eq!(r.task.as_deref(), Some("write B5 tests"));
    assert_eq!(
        r.activity.as_deref(),
        Some("Edited session_state.rs, then searched the compiler error in Brave")
    );
    assert_eq!(
        r.interpretation.as_deref(),
        Some("The user is debugging the new trigger")
    );
    assert_eq!(
        r.suggested_help.as_deref(),
        Some("Inspect and fix the failing test")
    );
    assert!(r.confidence == 800_000);
}

#[test]
fn parse_inference_tolerates_fence_and_prose() {
    let raw = "Sure!\n```json\n{\"goal\":\"g\",\"task\":\"t\",\"confidence\":0.9}\n```";
    let r = parse_inference(raw, &cfg()).unwrap();
    assert_eq!(r.task.as_deref(), Some("t"));
}

#[test]
fn parse_inference_below_floor_drops_all_inferred_claims() {
    let c = cfg();
    let r = parse_inference(
        r#"{"goal":"guessing","task":"guessing","activity":"maybe editing","interpretation":"maybe stuck","suggested_help":"maybe click","confidence":0.1}"#,
        &c,
    )
    .unwrap();
    assert_eq!(r.goal, None);
    assert_eq!(r.task, None);
    assert_eq!(r.activity, None);
    assert_eq!(r.interpretation, None);
    assert_eq!(r.suggested_help, None);
    assert!(r.confidence == 100_000);
}

#[test]
fn parse_inference_clamps_and_truncates() {
    let long = "x".repeat(400);
    let raw = format!(r#"{{"goal":"{long}","task":"t","confidence":5}}"#);
    let r = parse_inference(&raw, &cfg()).unwrap();
    assert_eq!(r.confidence, 1_000_000);
    assert_eq!(r.goal.as_ref().unwrap().chars().count(), MAX_INFERRED_LEN);

    let neg = parse_inference(r#"{"goal":"g","task":"t","confidence":-3}"#, &cfg()).unwrap();
    assert_eq!(neg.confidence, 0);
    assert_eq!(neg.goal, None);
}

#[test]
fn parse_inference_empty_and_unknown_strings_become_none() {
    let r =
        parse_inference(r#"{"goal":"  ","task":"unknown","confidence":0.9}"#, &cfg()).unwrap();
    assert_eq!(r.goal, None);
    assert_eq!(r.task, None);
    assert!(r.confidence == 900_000);
}

#[test]
fn parse_inference_rejects_non_json() {
    assert_eq!(parse_inference("I could not tell.", &cfg()), None);
    assert_eq!(parse_inference("", &cfg()), None);
    assert_eq!(parse_inference("[1,2,3]", &cfg()), None);
}

#[test]
fn parse_inference_missing_confidence_defaults_to_zero_and_drops_fields() {
    let r = parse_inference(r#"{"goal":"g","task":"t"}"#, &cfg()).unwrap();
    assert_eq!(r.confidence, 0);
    assert_eq!(r.task, None);
}

#[test]
fn apply_inference_propagates_local_only_from_the_window() {
    let mut hub = SessionStateHub::new();
    let c = cfg();
    let mut d = digest("error", "secret failed", t0());
    d.local_only = true;
    hub.apply_event(d, &c);
    hub.apply_event(digest("success", "ok", t0()), &c);
    let events = hub.recent_events(INFERENCE_EVENT_WINDOW);
    assert!(window_is_local_only(&events));
    hub.apply_inference(
        &InferenceResult {
            goal: Some("g".to_string()),
            task: Some("t".to_string()),
            activity: Some("edited a private customer record".to_string()),
            interpretation: Some("preparing a private release".to_string()),
            suggested_help: Some("fix the private deployment".to_string()),
            confidence: 900_000,
        },
        window_is_local_only(&events),
        t0(),
    );
    let s = hub.snapshot();
    assert!(s.local_only);
    let cloud = s.cloud_view();
    assert_eq!(cloud.current_goal.as_deref(), Some(PRIVATE_CONTEXT_PHRASE));
    assert_eq!(cloud.current_task.as_deref(), Some(PRIVATE_CONTEXT_PHRASE));
    assert_eq!(
        cloud.activity_summary.as_deref(),
        Some(PRIVATE_CONTEXT_PHRASE)
    );
    assert_eq!(
        cloud.interpretation.as_deref(),
        Some(PRIVATE_CONTEXT_PHRASE)
    );
    assert_eq!(
        cloud.suggested_help.as_deref(),
        Some(PRIVATE_CONTEXT_PHRASE)
    );
    assert_eq!(s.current_task.as_deref(), Some("t"));
}

#[test]
fn cloud_view_is_a_no_op_when_not_local_only() {
    let s = SessionState {
        current_task: Some("t".to_string()),
        ..SessionState::default()
    };
    assert_eq!(s.cloud_view(), s);
}

#[test]
fn recent_events_keeps_the_newest_and_ring_is_bounded() {
    let mut hub = SessionStateHub::new();
    let c = cfg();
    for i in 0..(EVENT_RING_CAP + 10) {
        hub.apply_event(
            digest(
                "routine",
                &format!("e{i}"),
                plus(t0(), seconds(i as i64)),
            ),
            &c,
        );
    }
    let all = hub.recent_events(usize::MAX);
    assert_eq!(all.len(), EVENT_RING_CAP);
    assert_eq!(
        all.last().unwrap().summary,
        format!("e{}", EVENT_RING_CAP + 9)
    );
    let window = hub.recent_events(5);
    assert_eq!(window.len(), 5);
    assert_eq!(window[0].summary, format!("e{}", EVENT_RING_CAP + 5));
}

#[test]
fn build_inference_prompt_substitutes_and_caps_the_event_block() {
    let state = SessionState {
        active_project: Some("continuum".to_string()),
        active_app: Some("Code.exe".to_string()),
        window_title: Some("main.rs".to_string()),
        ..SessionState::default()
    };
    let events: Vec<EventDigest> = (0..80)
        .map(|i| {
            digest(
                "error",
                &"long summary ".repeat(20),
                plus(t0(), seconds(i)),
            )
        })
        .collect();
    let prompt = build_inference_prompt(INFERENCE_PROMPT, &state, &events, plus(t0(), minutes(5)));
    assert!(!prompt.contains("{{STATE}}"));
    assert!(!prompt.contains("{{EVENTS}}"));
    assert!(prompt.contains("project: continuum"));
    assert!(prompt.chars().count() < INFERENCE_PROMPT.chars().count() + 3_000);
}

#[test]
fn build_inference_prompt_with_no_events_says_none() {
    let prompt = build_inference_prompt(INFERENCE_PROMPT, &SessionState::default(), &Vec::new(), t0());
    assert!(prompt.contains("(none)"));
}

#[test]
fn memory_summary_renders_unknown_below_floor() {
    let c = cfg();
    let mut s = SessionState {
        active_project: Some("continuum".to_string()),
        active_app: Some("Code.exe".to_string()),
        current_goal: Some("stale goal".to_string()),
        current_task: Some("stale task".to_string()),
        confidence: c.confidence_floor - 100_000,
        ..SessionState::default()
    };
    let out = s.render_memory_summary(t0(), MEMORY_SUMMARY_MAX_CHARS, c.confidence_floor);
    assert!(out.contains("goal: unknown"), "{out}");
    assert!(out.contains("task: unknown"), "{out}");

    s.confidence = c.confidence_floor;
    let out = s.render_memory_summary(t0(), MEMORY_SUMMARY_MAX_CHARS, c.confidence_floor);
    assert!(out.contains("task: stale task"), "{out}");
}

#[test]
fn memory_summary_respects_the_600_char_cap() {
    let c = cfg();
    let s = SessionState {
        active_project: Some("continuum".to_string()),
        active_app: Some("Code.exe".to_string()),
        current_goal: Some("g".repeat(120)),
        current_task: Some("t".repeat(120)),
        confidence: 1_000_000,
        last_error: Some(StampedText::new("e".repeat(200), t0())),
        last_success: Some(StampedText::new("s".repeat(200), t0())),
        last_user_command: Some(StampedText::new("c".repeat(200), t0())),
        open_files: (0..MAX_OPEN_FILES)
            .map(|i| format!("very/long/path/to/file-{i}.rs"))
            .collect(),
        ..SessionState::default()
    };
    let out = s.render_memory_summary(
        plus(t0(), minutes(5)),
        MEMORY_SUMMARY_MAX_CHARS,
        c.confidence_floor,
    );
    assert!(
        out.chars().count() <= MEMORY_SUMMARY_MAX_CHARS,
        "rendered {} chars",
        out.chars().count()
    );
    assert!(out.starts_with("project: continuum | app: Code.exe"));
}

#[test]
fn memory_summary_is_char_boundary_safe() {
    let s = SessionState {
        active_project: Some("é".repeat(500)),
        ..SessionState::default()
    };
    let out = s.render_memory_summary(t0(), 40, 400_000);
    assert!(out.chars().count() <= 40);
}

#[test]
fn memory_summary_of_an_empty_state_is_all_unknown() {
    let out = SessionState::default().render_memory_summary(t0(), 600, 400_000);
    assert_eq!(
        out,
        "project: unknown | app: unknown\ngoal: unknown\ntask: unknown"
    );
}

fn persisted(confidence: u32, updated: Timestamp) -> SessionState {
    SessionState {
        active_project: Some("continuum".to_string()),
        current_goal: Some("ship the context engine".to_string()),
        current_task: Some("finish B5".to_string()),
        activity_summary: Some("Editing session state tests".to_string()),
        interpretation: Some("Finishing the context engine".to_string()),
        suggested_help: Some("Run the focused test suite".to_string()),
        active_app: Some("Code.exe".to_string()),
        window_title: Some("main.rs".to_string()),
        open_files: vec!["main.rs".to_string()],
        last_error: None,
        last_success: None,
        last_user_command: Some(StampedText::new("ga door".to_string(), updated)),
        pinned: Vec::new(),
        user_confirmed: Vec::new(),
        confidence,
        local_only: false,
        since: minus(updated, hours(1)),
        updated,
        inferred_at: Some(minus(updated, minutes(30))),
    }
}

#[test]
fn rehydrate_keeps_pins_confirmations_and_the_inference_clock() {
    let now = t0();
    let updated = minus(now, minutes(10));
    let mut prev = persisted(800_000, updated);
    prev.pinned = vec!["task".to_string()];
    prev.user_confirmed = vec!["goal".to_string()];
    let s = rehydrate(Some(prev), &Vec::new(), now, &cfg());
    assert!(s.is_pinned(SessionField::Task));
    assert!(s.is_user_confirmed(SessionField::Goal));
    assert_eq!(s.inferred_at, Some(minus(updated, minutes(30))));
}

#[test]
fn rehydrate_fresh_snapshot_keeps_confidence() {
    let now = t0();
    let s = rehydrate(
        Some(persisted(800_000, minus(now, minutes(10)))),
        &Vec::new(),
        now,
        &cfg(),
    );
    assert!(s.confidence == 800_000);
    assert_eq!(s.current_task.as_deref(), Some("finish B5"));
    assert_eq!(s.active_project.as_deref(), Some("continuum"));
    assert_eq!(s.active_app, None);
    assert_eq!(s.window_title, None);
}

#[test]
fn rehydrate_stale_snapshot_halves_confidence() {
    let now = t0();
    let s = rehydrate(
        Some(persisted(800_000, minus(now, hours(2)))),
        &Vec::new(),
        now,
        &cfg(),
    );
    assert!(s.confidence == 400_000);
    assert_eq!(s.current_task.as_deref(), Some("finish B5"));
    assert_eq!(s.since, now);
}

#[test]
fn rehydrate_very_stale_snapshot_quarter_discounts_and_caps_at_floor() {
    let c = cfg();
    let now = t0();
    let s = rehydrate(Some(persisted(1_000_000, minus(now, hours(9)))), &Vec::new(), now, &c);
    assert!(s.confidence == REHYDRATE_VERY_STALE_DISCOUNT);
    assert!(s.confidence <= c.confidence_floor);
    assert_eq!(s.current_task.as_deref(), Some("finish B5"));
    assert_eq!(s.task_if_confident(c.confidence_floor), None);
}

#[test]
fn staleness_discount_boundaries() {
    assert_eq!(staleness_discount(minutes(0) as i128), 1_000_000);
    assert_eq!(
        staleness_discount(minutes(REHYDRATE_FRESH_MINUTES) as i128),
        1_000_000
    );
    assert_eq!(
        staleness_discount(minutes(REHYDRATE_FRESH_MINUTES + 1) as i128),
        REHYDRATE_STALE_DISCOUNT
    );
    assert_eq!(
        staleness_discount(hours(REHYDRATE_VERY_STALE_HOURS) as i128),
        REHYDRATE_STALE_DISCOUNT
    );
    assert_eq!(
        staleness_discount((hours(REHYDRATE_VERY_STALE_HOURS) + seconds(1)) as i128),
        REHYDRATE_VERY_STALE_DISCOUNT
    );
}

#[test]
fn rehydrate_without_snapshot_seeds_from_events_only() {
    let now = t0();
    let events = vec![
        digest("error", "build failed", minus(now, minutes(20))),
        digest("file_modified", "src/lib.rs", minus(now, minutes(10))),
        digest("success", "tests green", minus(now, minutes(5))),
    ];
    let s = rehydrate(None, &events, now, &cfg());
    assert_eq!(s.last_error.as_ref().unwrap().text, "build failed");
    assert_eq!(s.last_success.as_ref().unwrap().text, "tests green");
    assert_eq!(s.open_files, vec!["src/lib.rs".to_string()]);
    assert_eq!(s.active_project.as_deref(), Some("continuum"));
    assert_eq!(s.confidence, 0);
    assert_eq!(s.current_task, None);
}

#[test]
fn rehydrate_events_newer_than_the_snapshot_win() {
    let now = t0();
    let mut prev = persisted(800_000, minus(now, minutes(10)));
    prev.last_error = Some(StampedText::new("old error".to_string(), minus(now, hours(3))));
    let events = vec![digest("error", "new error", minus(now, minutes(2)))];
    let s = rehydrate(Some(prev), &events, now, &cfg());
    assert_eq!(s.last_error.as_ref().unwrap().text, "new error");
}

#[test]
fn rehydrate_with_nothing_at_all_is_empty() {
    let s = rehydrate(None, &Vec::new(), t0(), &cfg());
    assert!(s.is_empty());
    assert_eq!(s.confidence, 0);
}

#[test]
fn match_context_prefers_the_resolver_then_falls_back_to_session_state() {
    let s = SessionState {
        active_project: Some("continuum".to_string()),
        ..SessionState::default()
    };
    assert_eq!(
        match_context_project(Some("Continuum"), Some(&s)).as_deref(),
        Some("Continuum")
    );
    assert_eq!(
        match_context_project(None, Some(&s)).as_deref(),
        Some("continuum")
    );
    assert_eq!(
        match_context_project(None, Some(&SessionState::default())),
        None
    );
    assert_eq!(match_context_project(None, None), None);
}

#[test]
fn match_context_task_is_gated_on_the_confidence_floor() {
    let c = cfg();
    let mut s = SessionState {
        current_task: Some("finish B5".to_string()),
        confidence: c.confidence_floor - 10_000,
        ..SessionState::default()
    };
    assert_eq!(s.task_if_confident(c.confidence_floor), None);
    s.confidence = c.confidence_floor;
    assert_eq!(s.task_if_confident(c.confidence_floor), Some("finish B5"));
    s.current_task = None;
    s.confidence = 1_000_000;
    assert_eq!(s.task_if_confident(c.confidence_floor), None);
}

#[test]
fn seed_events_bounds_and_orders_the_window() {
    let mut hub = SessionStateHub::new();
    let digests: Vec<EventDigest> = (0..(EVENT_RING_CAP + 5))
        .map(|i| {
            digest(
                "routine",
                &format!("e{i}"),
                plus(t0(), seconds(i as i64)),
            )
        })
        .collect();
    hub.seed_events(digests);
    let all = hub.recent_events(usize::MAX);
    assert_eq!(all.len(), EVENT_RING_CAP);
    assert_eq!(
        all.last().unwrap().summary,
        format!("e{}", EVENT_RING_CAP + 4)
    );
}

#[test]
fn digest_from_event_maps_tokens_and_sensitivity() {
    let ev = ContextEvent {
        ts: t0(),
        source: "screen".to_string(),
        application: "Code.exe".to_string(),
        window_title: "main.rs".to_string(),
        project_id: Some("continuum".to_string()),
        event_type: "error".to_string(),
        summary: "build failed".to_string(),
        importance: 900_000,
        confidence: 800_000,
        sensitivity: EventSensitivity::LocalOnly,
        raw_reference: None,
    };
    let d = digest_from_event(&ev);
    assert_eq!(d.source, "screen");
    assert_eq!(d.event_type, "error");
    assert!(d.local_only);
    assert_eq!(d.summary, "build failed");

    let mut cloud = ev.clone();
    cloud.sensitivity = EventSensitivity::CloudAllowed;
    cloud.event_type = "file_modified".to_string();
    let d = digest_from_event(&cloud);
    assert!(!d.local_only);
    assert_eq!(d.event_type, "file_modified");
    assert!(names_file(&d.event_type));
}

#[test]
fn apply_context_event_updates_the_mechanical_fields() {
    let mut hub = SessionStateHub::new();
    hub.apply_context_event(
        &ContextEvent {
            ts: t0(),
            source: "screen".to_string(),
            application: "Code.exe".to_string(),
            window_title: String::new(),
            project_id: None,
            event_type: "success".to_string(),
            summary: "tests green".to_string(),
            importance: 700_000,
            confidence: 1_000_000,
            sensitivity: EventSensitivity::CloudAllowed,
            raw_reference: None,
        },
        &cfg(),
    );
    assert_eq!(hub.snapshot().last_success.unwrap().text, "tests green");
    assert_eq!(hub.recent_events(10).len(), 1);
}

fn pinned_project(id: &str, confidence: u32) -> CurrentProject {
    CurrentProject {
        id: id.to_string(),
        name: id.to_string(),
        root_path: None,
        confidence,
        source_tier: 1,
        zone: None,
        status: ProjectStatus::Configured,
    }
}

#[test]
fn a_pinned_project_survives_a_frame_that_resolves_something_else() {
    let mut hub = SessionStateHub::new();
    let now = Timestamp::now();
    hub.set_pin(SessionField::Project, Some("continuum"), now);
    assert!(hub.snapshot().is_pinned(SessionField::Project));

    hub.apply_frame(
        &frame("Code.exe", "other.rs", now),
        Some(&pinned_project("other", 900_000)),
    );
    let state = hub.snapshot();
    assert_eq!(state.active_project.as_deref(), Some("continuum"));
    assert_eq!(state.active_app.as_deref(), Some("Code.exe"));
    assert_eq!(state.window_title.as_deref(), Some("other.rs"));
}

#[test]
fn a_pinned_task_survives_inference_while_an_unpinned_goal_moves() {
    let mut hub = SessionStateHub::new();
    let now = Timestamp::now();
    hub.set_pin(SessionField::Task, Some("ship C5"), now);
    hub.apply_inference(
        &InferenceResult {
            goal: Some("inferred goal".into()),
            task: Some("inferred task".into()),
            confidence: 900_000,
            ..InferenceResult::default()
        },
        false,
        now,
    );
    let state = hub.snapshot();
    assert_eq!(state.current_task.as_deref(), Some("ship C5"), "pin holds");
    assert_eq!(
        state.current_goal.as_deref(),
        Some("inferred goal"),
        "an unpinned field still moves"
    );
    assert!(state.confidence == 900_000);
}

#[test]
fn clearing_a_pin_lets_the_next_frame_move_the_field() {
    let mut hub = SessionStateHub::new();
    let now = Timestamp::now();
    hub.set_pin(SessionField::Project, Some("continuum"), now);
    hub.set_pin(SessionField::Project, None, now);
    assert!(!hub.snapshot().is_pinned(SessionField::Project));
    hub.apply_frame(
        &frame("Code.exe", "x", now),
        Some(&pinned_project("other", 900_000)),
    );
    assert_eq!(hub.snapshot().active_project.as_deref(), Some("other"));
}

#[test]
fn pinning_is_idempotent_and_never_duplicates_the_token() {
    let mut hub = SessionStateHub::new();
    let now = Timestamp::now();
    hub.set_pin(SessionField::Goal, Some("a"), now);
    hub.set_pin(SessionField::Goal, Some("b"), now);
    assert_eq!(hub.snapshot().pinned, vec!["goal".to_string()]);
    assert_eq!(hub.snapshot().current_goal.as_deref(), Some("b"));
}

#[test]
fn correcting_a_project_clears_the_inferred_fields_like_a_switch() {
    let mut hub = SessionStateHub::new();
    let now = Timestamp::now();
    hub.apply_inference(
        &InferenceResult {
            goal: Some("old goal".into()),
            task: Some("old task".into()),
            confidence: 800_000,
            ..InferenceResult::default()
        },
        true,
        now,
    );
    hub.apply_correction(SessionField::Project, "continuum", now);
    let state = hub.snapshot();
    assert_eq!(state.active_project.as_deref(), Some("continuum"));
    assert!(state.current_goal.is_none());
    assert!(state.current_task.is_none());
    assert_eq!(state.confidence, 0);
    assert!(!state.local_only);
    assert!(state.is_user_confirmed(SessionField::Project));
}

#[test]
fn correcting_a_goal_is_fully_confident_and_never_local_only() {
    let mut hub = SessionStateHub::new();
    let now = Timestamp::now();
    {
        let mut s = hub.snapshot();
        s.local_only = true;
        hub.replace(s);
    }
    hub.apply_correction(SessionField::Goal, "  ship it  ", now);
    let state = hub.snapshot();
    assert_eq!(state.current_goal.as_deref(), Some("ship it"), "trimmed");
    assert_eq!(state.confidence, 1_000_000);
    assert!(!state.local_only);
}

#[test]
fn a_pinned_task_survives_a_project_switch() {
    let mut hub = SessionStateHub::new();
    let now = Timestamp::now();
    hub.set_pin(SessionField::Task, Some("ship C5"), now);
    hub.apply_frame(
        &frame("Code.exe", "x", now),
        Some(&pinned_project("other", 900_000)),
    );
    let state = hub.snapshot();
    assert_eq!(
        state.active_project.as_deref(),
        Some("other"),
        "it did switch"
    );
    assert_eq!(state.current_task.as_deref(), Some("ship C5"), "pin holds");
    assert_eq!(state.confidence, 1_000_000, "the pinned value keeps its tag");
}

#[test]
fn a_pinned_task_survives_a_project_correction() {
    let mut hub = SessionStateHub::new();
    let now = Timestamp::now();
    hub.set_pin(SessionField::Task, Some("ship C5"), now);
    hub.apply_correction(SessionField::Project, "simcharts", now);
    let state = hub.snapshot();
    assert_eq!(state.active_project.as_deref(), Some("simcharts"));
    assert_eq!(state.current_task.as_deref(), Some("ship C5"));
}

#[test]
fn an_unpinned_goal_is_still_cleared_when_the_task_is_pinned() {
    let mut hub = SessionStateHub::new();
    let now = Timestamp::now();
    hub.apply_inference(
        &InferenceResult {
            goal: Some("old goal".into()),
            task: Some("old task".into()),
            confidence: 800_000,
            ..InferenceResult::default()
        },
        false,
        now,
    );
    hub.set_pin(SessionField::Task, Some("ship C5"), now);
    hub.apply_frame(
        &frame("Code.exe", "x", now),
        Some(&pinned_project("other", 900_000)),
    );
    let state = hub.snapshot();
    assert!(state.current_goal.is_none(), "unpinned goal cleared");
    assert_eq!(state.current_task.as_deref(), Some("ship C5"));
}

#[test]
fn inference_does_not_rewrite_the_tags_of_two_pinned_fields() {
    let mut hub = SessionStateHub::new();
    let now = Timestamp::now();
    hub.set_pin(SessionField::Goal, Some("ship the context engine"), now);
    hub.set_pin(SessionField::Task, Some("ship C5"), now);
    hub.apply_inference(
        &InferenceResult {
            goal: Some("something else".into()),
            task: Some("something else".into()),
            confidence: 200_000,
            ..InferenceResult::default()
        },
        true,
        now,
    );
    let state = hub.snapshot();
    assert_eq!(state.current_task.as_deref(), Some("ship C5"));
    assert_eq!(state.confidence, 1_000_000, "a pinned value keeps its confidence");
    assert!(!state.local_only, "and its zone tag");
}

#[test]
fn a_frame_does_not_refresh_the_inference_clock() {
    let mut hub = SessionStateHub::new();
    let inferred = minus(Timestamp::now(), hours(5));
    hub.apply_inference(
        &InferenceResult {
            goal: None,
            task: Some("fix the flaky test".into()),
            confidence: 800_000,
            ..InferenceResult::default()
        },
        false,
        inferred,
    );
    assert_eq!(hub.snapshot().inferred_at, Some(inferred));

    let now = Timestamp::now();
    hub.apply_frame(&frame("Code.exe", "a-new-title.rs", now), None);
    let state = hub.snapshot();
    assert!(state.updated >= now, "`updated` moved with the frame");
    assert_eq!(
        state.inferred_at,
        Some(inferred),
        "but the inference clock did not"
    );

    let inputs = ContinuationInputs::from_session(&state);
    assert_eq!(inputs.session_updated, Some(inferred));
}

#[test]
fn a_correction_restarts_the_inference_clock() {
    let mut hub = SessionStateHub::new();
    let old = minus(Timestamp::now(), hours(5));
    hub.apply_inference(
        &InferenceResult {
            goal: None,
            task: Some("old".into()),
            confidence: 800_000,
            ..InferenceResult::default()
        },
        false,
        old,
    );
    let now = Timestamp::now();
    hub.apply_correction(SessionField::Task, "new", now);
    assert_eq!(hub.snapshot().inferred_at, Some(now));
}

#[test]
fn an_empty_correction_changes_nothing() {
    let mut hub = SessionStateHub::new();
    let before = hub.snapshot();
    hub.apply_correction(SessionField::Task, "   ", Timestamp::now());
    assert_eq!(hub.snapshot(), before);
}

#[test]
fn the_guard_clears_a_pin_after_switch_min_of_confident_disagreement() {
    let mut guard = ProjectPinGuard::new();
    let t0 = Timestamp::now();
    let switch_min: u64 = 20;
    assert!(!guard.observe("continuum", Some(("other", 900_000)), switch_min, t0));
    assert_eq!(guard.divergent_project(), Some("other"));
    assert!(!guard.observe(
        "continuum",
        Some(("other", 900_000)),
        switch_min,
        plus(t0, seconds(19))
    ));
    assert!(guard.observe(
        "continuum",
        Some(("other", 900_000)),
        switch_min,
        plus(t0, seconds(20))
    ));
    assert!(!guard.observe(
        "continuum",
        Some(("other", 900_000)),
        switch_min,
        plus(t0, seconds(21))
    ));
}

#[test]
fn resetting_the_guard_stops_a_stale_divergence_from_clearing_a_new_pin() {
    let mut guard = ProjectPinGuard::new();
    let t0 = Timestamp::now();
    let switch_min: u64 = 20;
    assert!(!guard.observe("continuum", Some(("other", 900_000)), switch_min, t0));
    assert_eq!(guard.divergent_project(), Some("other"));

    guard.reset();
    assert_eq!(guard.divergent_project(), None);

    assert!(!guard.observe(
        "continuum",
        Some(("other", 900_000)),
        switch_min,
        plus(t0, seconds(300))
    ));
    assert_eq!(guard.divergent_project(), Some("other"));
}

#[test]
fn the_guard_ignores_low_confidence_and_agreeing_resolutions() {
    let mut guard = ProjectPinGuard::new();
    let t0 = Timestamp::now();
    let switch_min: u64 = 20;
    for offset in [0, 30, 60] {
        assert!(!guard.observe(
            "continuum",
            Some(("other", 500_000)),
            switch_min,
            plus(t0, seconds(offset))
        ));
    }
    assert_eq!(guard.divergent_project(), None);
    guard.observe("continuum", Some(("other", 900_000)), switch_min, t0);
    assert_eq!(guard.divergent_project(), Some("other"));
    guard.observe("continuum", Some(("continuum", 900_000)), switch_min, t0);
    assert_eq!(guard.divergent_project(), None);
}

#[test]
fn the_guard_restarts_when_a_third_project_appears_and_on_no_resolution() {
    let mut guard = ProjectPinGuard::new();
    let t0 = Timestamp::now();
    let switch_min: u64 = 20;
    guard.observe("continuum", Some(("a", 900_000)), switch_min, t0);
    guard.observe(
        "continuum",
        Some(("b", 900_000)),
        switch_min,
        plus(t0, seconds(19)),
    );
    assert_eq!(guard.divergent_project(), Some("b"));
    assert!(!guard.observe(
        "continuum",
        Some(("b", 900_000)),
        switch_min,
        plus(t0, seconds(30))
    ));
    guard.observe("continuum", None, switch_min, plus(t0, seconds(40)));
    assert_eq!(guard.divergent_project(), None);
}

#[test]
fn the_guard_boundary_is_exactly_the_git_root_tier() {
    let t0 = Timestamp::now();
    let switch_min: u64 = 0;
    let mut guard = ProjectPinGuard::new();
    assert!(guard.observe(
        "continuum",
        Some(("other", PIN_CLEAR_CONFIDENCE)),
        switch_min,
        t0
    ));
    let mut guard = ProjectPinGuard::new();
    assert!(!guard.observe(
        "continuum",
        Some(("other", PIN_CLEAR_CONFIDENCE - 10_000)),
        switch_min,
        t0
    ));
}

#[test]
fn an_inference_goes_out_rests_and_comes_back() {
    let mut hub = SessionStateHub::new();
    let c = cfg();
    assert!(begin_inference(&mut hub, INFERENCE_PROMPT, &c, t0(), false).is_none());
    hub.note_user_command("run the tests", "chat", t0());
    assert!(begin_inference(&mut hub, INFERENCE_PROMPT, &c, t0(), true).is_none());

    let request = begin_inference(&mut hub, INFERENCE_PROMPT, &c, t0(), false).unwrap();
    assert_eq!(request.trigger, InferenceTrigger::Stale);
    assert_eq!(request.max_tokens, 256);
    assert!(!request.local_only);
    assert_eq!(
        request.prompt,
        "STATE\nproject: unknown\napp: unknown\nwindow: unknown\n\
         last user command (just now): run the tests\n\nEVENTS\n(none)\n"
    );
    // The attempt counts even though nothing has come back.
    let soon = plus(t0(), seconds(119));
    assert!(begin_inference(&mut hub, INFERENCE_PROMPT, &c, soon, false).is_none());

    let before = hub.version();
    assert!(!finish_inference(&mut hub, "no idea", false, &c, soon));
    assert_eq!(hub.version(), before);
    let raw = r#"{"goal":"ship","task":"test","confidence":0.8}"#;
    assert!(finish_inference(&mut hub, raw, true, &c, soon));
    let state = hub.snapshot();
    assert_eq!(state.current_task.as_deref(), Some("test"));
    assert_eq!(state.confidence, 800_000);
    assert!(state.local_only);
    assert_eq!(state.inferred_at, Some(soon));
}

#[test]
fn the_first_object_behind_the_thoughts_counts() {
    let raw = "<think>{\"goal\":\"no\",\"confidence\":1}</think>\nSure:\n```json\n\
               {\"goal\":\"a } b\",\"confidence\":0.9}\n```\nor {maybe}";
    let parsed = parse_inference(raw, &cfg()).unwrap();
    assert_eq!(parsed.goal.as_deref(), Some("a } b"));
    assert_eq!(parsed.confidence, 900_000);
    assert_eq!(extract_json_object("x {\"a\":{}} y }"), "{\"a\":{}}");
    assert_eq!(extract_json_object("  none "), "none");
    assert_eq!(extract_json_object("a {b"), "{b");
}

#[test]
fn a_clock_reading_is_taken_as_it_is() {
    assert_eq!(Timestamp::of_clock(Some(1_750_000_000_000_000_001)).nanos, 1_750_000_000_000_000_001);
    assert_eq!(Timestamp::of_clock(Some(-1)).nanos, -1);
    assert_eq!(Timestamp::of_clock(None), Timestamp::epoch());
    assert!(Timestamp::now().nanos > 0);
    assert!(SessionState::default().since.nanos > 0);
}

#[test]
fn a_confidence_just_below_the_floor_is_below_it() {
    let mut c = cfg();
    c.confidence_floor = 600_000;
    let answer = |n: &str| format!(r#"{{"goal":"ship","task":"test","confidence":{n}}}"#);
    for n in ["0.5999996", "0.59999", "5.9e-1", "0", "-0.0", "-7"] {
        let r = parse_inference(&answer(n), &c).unwrap();
        assert_eq!(r.goal, None, "{n}");
    }
    for (n, ratio) in [
        ("0.6", 600_000),
        ("0.6000004", 600_000),
        ("0.7", 700_000),
        ("0.29e1", 1_000_000),
        ("1", 1_000_000),
        ("1e300", 1_000_000),
    ] {
        let r = parse_inference(&answer(n), &c).unwrap();
        assert_eq!(r.goal.as_deref(), Some("ship"), "{n}");
        assert_eq!(r.confidence, ratio, "{n}");
    }
}
