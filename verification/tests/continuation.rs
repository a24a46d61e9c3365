use continuum_core::context::continuation::{
    ask_reason, is_continue_class, is_continue_trigger, rank, recency_decay, recommend_reason,
    seconds_beyond_grace, utterance_from_wake_reason, CandidateKind, ContinuationCandidate,
    ContinuationConfig, ContinuationInputs, ContinuationOutcome, Halvings,
    CANDIDATE_TEXT_MAX_CHARS, DECAY_FLOOR, MAX_ASK_CANDIDATES,
};
use continuum_core::context::session_state::{SessionState, StampedText};
use continuum_core::time::Timestamp;

fn cfg() -> ContinuationConfig {
    ContinuationConfig {
        confidence_floor: 600_000,
        trigger_phrases: ["ga door", "continue", "verder", "waar was ik", "pak weer op"]
            .iter()
            .map(|s| s.to_string())
            .collect(),
    }
}

fn minutes(m: i64) -> i128 {
    m as i128 * 60_000_000_000
}

fn now() -> Timestamp {
    Timestamp { nanos: 1_770_000_000 * 1_000_000_000 }
}

fn minutes_ago(m: i64) -> Timestamp {
    Timestamp { nanos: now().nanos - m * 60_000_000_000 }
}

fn stamped(text: &str, mins: i64) -> Option<StampedText> {
    Some(StampedText::new(text.to_string(), minutes_ago(mins)))
}

/// Half for each hour beyond the time of full weight, in millionths.
fn halved(age: i128) -> u32 {
    match seconds_beyond_grace(age) {
        Some(secs) => (0.5f32.powf(secs as f32 / 3_600.0) * 1_000_000.0).round() as u32,
        None => 1_000_000,
    }
}

fn decay(age: i128) -> f32 {
    recency_decay(age, halved(age)) as f32 / 1_000_000.0
}

fn close(confidence: u32, expected: f64) -> bool {
    (confidence as f64 / 1_000_000.0 - expected).abs() < 1e-4
}

fn rank_now(inputs: &ContinuationInputs, cfg: &ContinuationConfig) -> ContinuationOutcome {
    let age_of = |at: Option<Timestamp>| match at {
        Some(t) => (now().nanos - t.nanos) as i128,
        None => minutes(30 * 24 * 60),
    };
    let stamp = |s: &Option<StampedText>| halved(age_of(s.as_ref().map(|s| s.at)));
    let halvings = Halvings {
        session_task: halved(age_of(inputs.session_updated)),
        wake_next_step: stamp(&inputs.wake_next_step),
        open_task: stamp(&inputs.open_task),
        last_user_command: stamp(&inputs.last_user_command),
        last_error: stamp(&inputs.last_error),
    };
    rank(inputs, &halvings, now(), cfg)
}

#[test]
fn recency_decay_is_flat_inside_the_grace_window() {
    assert_eq!(decay(0), 1.0);
    assert_eq!(decay(minutes(29)), 1.0);
    assert_eq!(decay(minutes(30)), 1.0);
    assert_eq!(decay(minutes(-5)), 1.0);
}

#[test]
fn recency_decay_halves_per_hour_beyond_the_grace_window() {
    let one_hour_past = decay(minutes(90));
    assert!(
        (one_hour_past - 0.5).abs() < 1e-4,
        "expected 0.5, got {one_hour_past}"
    );
    let two_hours_past = decay(minutes(150));
    assert!(
        (two_hours_past - 0.25).abs() < 1e-4,
        "expected 0.25, got {two_hours_past}"
    );
}

#[test]
fn recency_decay_never_falls_below_the_floor() {
    assert_eq!(decay(minutes(30 * 24 * 60)), DECAY_FLOOR as f32 / 1_000_000.0);
}

#[test]
fn nothing_at_all_yields_nothing() {
    assert_eq!(
        rank_now(&ContinuationInputs::default(), &cfg()),
        ContinuationOutcome::Nothing
    );
}

#[test]
fn a_fresh_confident_session_task_is_recommended() {
    let inputs = ContinuationInputs {
        session_task: Some("fix the wake packager".into()),
        session_confidence: 800_000,
        session_updated: Some(minutes_ago(5)),
        ..Default::default()
    };
    let ContinuationOutcome::Recommend(top) = rank_now(&inputs, &cfg()) else {
        panic!("expected Recommend");
    };
    assert_eq!(top.kind, CandidateKind::SessionTask);
    assert_eq!(top.text, "fix the wake packager");
    assert!(close(top.confidence, 0.8), "{}", top.confidence);
    assert_eq!(top.source, "session_state.current_task");
}

#[test]
fn a_fresh_wake_next_step_alone_is_recommended() {
    let inputs = ContinuationInputs::default().with_wake_next_step(stamped("run clippy", 10));
    let ContinuationOutcome::Recommend(top) = rank_now(&inputs, &cfg()) else {
        panic!("expected Recommend");
    };
    assert_eq!(top.kind, CandidateKind::WakeNextStep);
    assert!(close(top.confidence, 0.72), "{}", top.confidence);
}

#[test]
fn a_fresh_open_task_alone_is_recommended() {
    let inputs = ContinuationInputs::default().with_open_task(stamped("ship B8", 20));
    let ContinuationOutcome::Recommend(top) = rank_now(&inputs, &cfg()) else {
        panic!("expected Recommend");
    };
    assert_eq!(top.kind, CandidateKind::OpenTask);
    assert!(close(top.confidence, 0.64), "{}", top.confidence);
}

#[test]
fn a_last_user_command_alone_is_only_enough_to_ask() {
    let inputs = ContinuationInputs {
        last_user_command: stamped("draai de tests", 3),
        ..Default::default()
    };
    let ContinuationOutcome::Ask(list) = rank_now(&inputs, &cfg()) else {
        panic!("expected Ask");
    };
    assert_eq!(list.len(), 1);
    assert_eq!(list[0].kind, CandidateKind::LastUserCommand);
    assert!(close(list[0].confidence, 0.49));
}

#[test]
fn a_last_error_alone_is_only_enough_to_ask() {
    let inputs = ContinuationInputs {
        last_error: stamped("cargo test failed", 2),
        ..Default::default()
    };
    let ContinuationOutcome::Ask(list) = rank_now(&inputs, &cfg()) else {
        panic!("expected Ask");
    };
    assert_eq!(list[0].kind, CandidateKind::LastError);
    assert!(close(list[0].confidence, 0.30));
}

#[test]
fn all_kinds_fresh_rank_in_prior_order() {
    let inputs = ContinuationInputs {
        session_task: Some("fix the packager".into()),
        session_confidence: 800_000,
        session_updated: Some(minutes_ago(1)),
        open_task: stamped("ship B8", 1),
        wake_next_step: stamped("run clippy", 1),
        last_user_command: stamped("draai de tests", 1),
        last_error: stamped("build failed", 1),
        session_local_only: false,
    };
    let forced = ContinuationConfig {
        confidence_floor: 1_100_000,
        ..cfg()
    };
    let ContinuationOutcome::Ask(list) = rank_now(&inputs, &forced) else {
        panic!("expected Ask");
    };
    assert_eq!(list.len(), MAX_ASK_CANDIDATES);
    assert_eq!(
        list.iter().map(|c| c.kind).collect::<Vec<_>>(),
        vec![
            CandidateKind::SessionTask,
            CandidateKind::WakeNextStep,
            CandidateKind::OpenTask
        ]
    );

    let ContinuationOutcome::Recommend(top) = rank_now(&inputs, &cfg()) else {
        panic!("expected Recommend");
    };
    assert_eq!(top.kind, CandidateKind::SessionTask);
}

#[test]
fn a_stale_high_prior_candidate_loses_to_a_fresh_lower_prior_one() {
    let inputs = ContinuationInputs {
        session_task: Some("yesterday's task".into()),
        session_confidence: 800_000,
        session_updated: Some(minutes_ago(270)),
        wake_next_step: stamped("run clippy", 5),
        ..Default::default()
    };
    let ContinuationOutcome::Recommend(top) = rank_now(&inputs, &cfg()) else {
        panic!("expected Recommend");
    };
    assert_eq!(top.kind, CandidateKind::WakeNextStep);
}

#[test]
fn a_frame_does_not_refresh_the_session_task_clock() {
    let inferred = minutes_ago(240);
    let state = SessionState {
        current_task: Some("yesterday's task".into()),
        confidence: 800_000,
        inferred_at: Some(inferred),
        updated: now(),
        ..SessionState::default()
    };

    let inputs = ContinuationInputs::from_session(&state);
    assert_eq!(
        inputs.session_updated,
        Some(inferred),
        "ages on inferred_at"
    );
    assert!(matches!(
        rank_now(&inputs, &cfg()),
        ContinuationOutcome::Ask(_)
    ));
}

#[test]
fn an_unstamped_session_task_scores_at_the_decay_floor() {
    let inputs = ContinuationInputs {
        session_task: Some("from a legacy snapshot".into()),
        session_confidence: 1_000_000,
        session_updated: None,
        ..Default::default()
    };
    let ContinuationOutcome::Ask(list) = rank_now(&inputs, &cfg()) else {
        panic!("expected Ask — an unknown-age task may never be recommended");
    };
    assert_eq!(list.len(), 1);
    assert!(
        close(list[0].confidence, DECAY_FLOOR as f64 / 1_000_000.0),
        "{}",
        list[0].confidence
    );
}

#[test]
fn duplicate_texts_collapse_to_the_best_producer() {
    let inputs = ContinuationInputs {
        session_task: Some("Ship B8".into()),
        session_confidence: 500_000,
        session_updated: Some(minutes_ago(1)),
        ..Default::default()
    }
    .with_open_task(stamped("  ship b8  ", 1));

    let floorless = ContinuationConfig {
        confidence_floor: 1_100_000,
        ..cfg()
    };
    let ContinuationOutcome::Ask(list) = rank_now(&inputs, &floorless) else {
        panic!("expected Ask");
    };
    assert_eq!(list.len(), 1, "duplicate texts must not be offered twice");
    assert_eq!(list[0].kind, CandidateKind::OpenTask);
    assert_eq!(list[0].text, "ship b8");

    assert!(matches!(
        rank_now(&inputs, &cfg()),
        ContinuationOutcome::Recommend(_)
    ));
}

#[test]
fn the_ask_list_is_capped_at_three() {
    let floorless = ContinuationConfig {
        confidence_floor: 1_100_000,
        ..cfg()
    };
    let inputs = ContinuationInputs {
        session_task: Some("a".into()),
        session_confidence: 900_000,
        session_updated: Some(minutes_ago(1)),
        open_task: stamped("b", 1),
        wake_next_step: stamped("c", 1),
        last_user_command: stamped("d", 1),
        last_error: stamped("e", 1),
        session_local_only: false,
    };
    let ContinuationOutcome::Ask(list) = rank_now(&inputs, &floorless) else {
        panic!("expected Ask");
    };
    assert_eq!(list.len(), 3);
}

#[test]
fn empty_and_whitespace_texts_are_not_candidates() {
    let inputs = ContinuationInputs {
        session_task: Some("   ".into()),
        session_confidence: 900_000,
        session_updated: Some(minutes_ago(1)),
        open_task: stamped("", 1),
        last_error: stamped("\n\t ", 1),
        ..Default::default()
    };
    assert_eq!(rank_now(&inputs, &cfg()), ContinuationOutcome::Nothing);
}

#[test]
fn candidate_text_is_capped() {
    let long = "x".repeat(600);
    let inputs = ContinuationInputs::default().with_open_task(stamped(&long, 1));
    let outcome = rank_now(&inputs, &cfg());
    let top = outcome.best().expect("a candidate");
    assert!(
        top.text.len() <= CANDIDATE_TEXT_MAX_CHARS,
        "{}",
        top.text.len()
    );
}

#[test]
fn a_zero_confidence_session_task_still_ranks_below_everything() {
    let inputs = ContinuationInputs {
        session_task: Some("no idea".into()),
        session_confidence: 0,
        session_updated: Some(minutes_ago(1)),
        last_error: stamped("build failed", 1),
        ..Default::default()
    };
    let ContinuationOutcome::Ask(list) = rank_now(&inputs, &cfg()) else {
        panic!("expected Ask");
    };
    assert_eq!(list[0].kind, CandidateKind::LastError);
}

#[test]
fn post_restart_within_the_fresh_window_still_recommends() {
    let inputs = ContinuationInputs {
        session_task: Some("fix the wake packager".into()),
        session_confidence: 800_000,
        session_updated: Some(minutes_ago(10)),
        ..Default::default()
    }
    .with_open_task(stamped("ship the context engine", 200));
    let ContinuationOutcome::Recommend(top) = rank_now(&inputs, &cfg()) else {
        panic!("expected Recommend");
    };
    assert_eq!(top.kind, CandidateKind::SessionTask);
}

#[test]
fn post_restart_after_a_stale_gap_asks_with_both_survivors() {
    let inputs = ContinuationInputs {
        session_task: Some("fix the wake packager".into()),
        session_confidence: 400_000,
        session_updated: Some(minutes_ago(45)),
        ..Default::default()
    }
    .with_open_task(stamped("ship the context engine", 45));
    let ContinuationOutcome::Ask(list) = rank_now(&inputs, &cfg()) else {
        panic!("expected Ask");
    };
    assert_eq!(list.len(), 2);
    assert_eq!(list[0].kind, CandidateKind::OpenTask);
    assert_eq!(list[1].kind, CandidateKind::SessionTask);
    assert!(list[0].confidence < cfg().confidence_floor);
    assert!(list[0].confidence > list[1].confidence);
}

#[test]
fn post_restart_with_only_events_still_offers_something() {
    let inputs = ContinuationInputs {
        last_error: stamped("cargo test failed", 5),
        ..Default::default()
    };
    assert!(matches!(
        rank_now(&inputs, &cfg()),
        ContinuationOutcome::Ask(_)
    ));
}

#[test]
fn the_floor_is_inclusive() {
    let at_floor = ContinuationInputs {
        session_task: Some("exactly at the floor".into()),
        session_confidence: 600_000,
        session_updated: Some(minutes_ago(1)),
        ..Default::default()
    };
    assert!(matches!(
        rank_now(&at_floor, &cfg()),
        ContinuationOutcome::Recommend(_)
    ));

    let below = ContinuationInputs {
        session_confidence: 590_000,
        ..at_floor
    };
    assert!(matches!(
        rank_now(&below, &cfg()),
        ContinuationOutcome::Ask(_)
    ));
}

#[test]
fn a_configured_floor_of_zero_always_recommends() {
    let permissive = ContinuationConfig {
        confidence_floor: 0,
        ..cfg()
    };
    let inputs = ContinuationInputs {
        last_error: stamped("build failed", 600),
        ..Default::default()
    };
    assert!(matches!(
        rank_now(&inputs, &permissive),
        ContinuationOutcome::Recommend(_)
    ));
}

#[test]
fn default_trigger_phrases_match_whole_utterances() {
    for text in [
        "ga door",
        "Ga door",
        "  GA DOOR  ",
        "ga door.",
        "\"ga door\"",
        "continue",
        "Continue!",
        "verder",
        "waar was ik",
        "waar   was   ik",
        "pak weer op",
    ] {
        assert!(is_continue_trigger(text, &cfg()), "should trigger: {text}");
    }
}

#[test]
fn trigger_matches_on_a_word_boundary_prefix_only() {
    assert!(is_continue_trigger("ga door met de tests", &cfg()));
    assert!(is_continue_trigger("continue where we left off", &cfg()));
    assert!(!is_continue_trigger("continued", &cfg()));
    assert!(!is_continue_trigger("verderop staat een fout", &cfg()));
}

#[test]
fn non_triggers_do_not_match() {
    for text in [
        "",
        "   ",
        "wat is de status",
        "please stop",
        "ik ga door de code heen",
        "should I continue?",
    ] {
        assert!(
            !is_continue_trigger(text, &cfg()),
            "should NOT trigger: {text}"
        );
    }
}

#[test]
fn empty_configured_phrases_never_match_everything() {
    let broken = ContinuationConfig {
        trigger_phrases: vec![String::new(), "   ".into()],
        ..cfg()
    };
    assert!(!is_continue_trigger("anything at all", &broken));
}

#[test]
fn custom_trigger_phrases_are_honoured() {
    let custom = ContinuationConfig {
        trigger_phrases: vec!["resume".into()],
        ..cfg()
    };
    assert!(is_continue_trigger("Resume", &custom));
    assert!(!is_continue_trigger("ga door", &custom));
}

#[test]
fn an_empty_ask_is_continue_class_but_a_real_question_is_not() {
    assert!(is_continue_class(None, &cfg()));
    assert!(is_continue_class(Some(""), &cfg()));
    assert!(is_continue_class(Some("   "), &cfg()));
    assert!(is_continue_class(Some("ga door"), &cfg()));
    assert!(!is_continue_class(Some("wat is de status"), &cfg()));
}

#[test]
fn utterance_is_extracted_from_a_voice_wake_reason() {
    assert_eq!(
        utterance_from_wake_reason("Voice command (nl): ga door"),
        "ga door"
    );
    assert_eq!(
        utterance_from_wake_reason("Voice command (en): continue where we left off"),
        "continue where we left off"
    );
    assert_eq!(
        utterance_from_wake_reason("User appears stuck on test failures\nmore context"),
        "User appears stuck on test failures"
    );
    assert_eq!(utterance_from_wake_reason(""), "");
}

#[test]
fn a_voice_continue_reason_is_recognised_end_to_end() {
    let reason = "Voice command (nl): ga door";
    assert!(is_continue_class(
        Some(utterance_from_wake_reason(reason).as_str()),
        &cfg()
    ));
}

#[test]
fn recommend_reason_names_the_target() {
    let candidate = ContinuationCandidate {
        kind: CandidateKind::SessionTask,
        text: "fix the wake packager".into(),
        confidence: 800_000,
        age: minutes(3),
        source: CandidateKind::SessionTask.source(),
        local_only: false,
    };
    let reason = recommend_reason("Voice command (nl): ga door", &candidate);
    assert!(reason.starts_with("Voice command (nl): ga door"));
    assert!(reason.contains("Continue: fix the wake packager"));
    assert!(reason.contains("session_state.current_task"));
}

#[test]
fn ask_reason_names_every_candidate_and_asks_for_one_question() {
    let candidates = vec![
        ContinuationCandidate {
            kind: CandidateKind::OpenTask,
            text: "ship the context engine".into(),
            confidence: 540_000,
            age: minutes(45),
            source: CandidateKind::OpenTask.source(),
            local_only: false,
        },
        ContinuationCandidate {
            kind: CandidateKind::LastError,
            text: "cargo test failed".into(),
            confidence: 300_000,
            age: minutes(5),
            source: CandidateKind::LastError.source(),
            local_only: false,
        },
    ];
    let reason = ask_reason("Voice command (nl): ga door", &candidates);
    assert!(reason.contains("ask one short question"));
    assert!(reason.contains("\"ship the context engine\" (open task from the last session)"));
    assert!(reason.contains("\"cargo test failed\" (the last error)"));
    assert!(reason.contains("Do not start work until they pick one."));
}

#[test]
fn session_derived_candidates_inherit_the_session_zone() {
    let inputs = ContinuationInputs {
        session_task: Some("reviewing the Q3 layoff list".into()),
        session_confidence: 900_000,
        session_updated: Some(minutes_ago(2)),
        last_user_command: stamped("open the spreadsheet", 3),
        last_error: stamped("export failed", 4),
        session_local_only: true,
        ..Default::default()
    };
    let floorless = ContinuationConfig {
        confidence_floor: 1_100_000,
        ..cfg()
    };
    let ContinuationOutcome::Ask(list) = rank_now(&inputs, &floorless) else {
        panic!("expected Ask");
    };
    assert_eq!(list.len(), 3);
    assert!(
        list.iter().all(|c| c.local_only),
        "every session-derived candidate must carry the zone: {list:?}"
    );

    let ContinuationOutcome::Recommend(top) = rank_now(&inputs, &cfg()) else {
        panic!("expected Recommend");
    };
    assert!(top.local_only);
}

#[test]
fn non_session_candidates_are_not_tainted_by_the_session_zone() {
    let inputs = ContinuationInputs {
        session_local_only: true,
        ..Default::default()
    }
    .with_open_task(stamped("ship the context engine", 1))
    .with_wake_next_step(stamped("run the gates", 1));
    let floorless = ContinuationConfig {
        confidence_floor: 1_100_000,
        ..cfg()
    };
    let ContinuationOutcome::Ask(list) = rank_now(&inputs, &floorless) else {
        panic!("expected Ask");
    };
    assert!(list.iter().all(|c| !c.local_only), "{list:?}");
}

#[test]
fn a_collapsed_duplicate_keeps_the_strictest_zone() {
    let inputs = ContinuationInputs {
        session_task: Some("Ship B8".into()),
        session_confidence: 500_000,
        session_updated: Some(minutes_ago(1)),
        session_local_only: true,
        ..Default::default()
    }
    .with_open_task(stamped("ship b8", 1));

    let floorless = ContinuationConfig {
        confidence_floor: 1_100_000,
        ..cfg()
    };
    let ContinuationOutcome::Ask(list) = rank_now(&inputs, &floorless) else {
        panic!("expected Ask");
    };
    assert_eq!(list.len(), 1);
    assert_eq!(list[0].kind, CandidateKind::OpenTask);
    assert!(list[0].local_only);
}

#[test]
fn from_session_carries_the_local_only_flag() {
    let mut state = SessionState {
        current_task: Some("reviewing the Q3 layoff list".into()),
        confidence: 900_000,
        local_only: true,
        ..Default::default()
    };
    assert!(ContinuationInputs::from_session(&state).session_local_only);

    state.local_only = false;
    assert!(!ContinuationInputs::from_session(&state).session_local_only);
}

#[test]
fn a_cloud_safe_session_yields_cloud_safe_candidates() {
    let inputs = ContinuationInputs {
        session_task: Some("fix the wake packager".into()),
        session_confidence: 800_000,
        session_updated: Some(minutes_ago(5)),
        ..Default::default()
    };
    let ContinuationOutcome::Recommend(top) = rank_now(&inputs, &cfg()) else {
        panic!("expected Recommend");
    };
    assert!(!top.local_only);
}

#[test]
fn outcome_accessors_are_stable() {
    assert_eq!(ContinuationOutcome::Nothing.variant_name(), "nothing");
    assert!(ContinuationOutcome::Nothing.best().is_none());
    let c = ContinuationCandidate {
        kind: CandidateKind::OpenTask,
        text: "x".into(),
        confidence: 700_000,
        age: 0,
        source: CandidateKind::OpenTask.source(),
        local_only: false,
    };
    assert_eq!(
        ContinuationOutcome::Recommend(c.clone()).variant_name(),
        "recommend"
    );
    assert_eq!(ContinuationOutcome::Ask(vec![c.clone()]).best(), Some(&c));
}

#[test]
fn case_and_marks_around_an_utterance_do_not_matter() {
    let c = cfg();
    for text in ["ga door", "Continue", "unrelated words", ""] {
        let shouted = format!("  '{}'!  ", text.to_ascii_uppercase());
        assert_eq!(is_continue_trigger(&shouted, &c), is_continue_trigger(text, &c), "{text}");
    }
    let mut blank = cfg();
    blank.trigger_phrases = vec![String::new(), " \t".to_string(), "...".to_string()];
    for text in ["", "continue", "ga door", "..."] {
        assert!(!is_continue_trigger(text, &blank));
    }
}

#[test]
fn a_recommendation_names_the_source_as_it_is_given() {
    let candidate = ContinuationCandidate {
        kind: CandidateKind::OpenTask,
        text: "ship it".to_string(),
        confidence: 800_000,
        age: 0,
        source: "elsewhere",
        local_only: false,
    };
    assert_eq!(
        recommend_reason("Voice", &candidate),
        "Voice\nContinue: ship it (from elsewhere, confidence 0.8)"
    );
}
