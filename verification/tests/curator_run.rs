use continuum_core::curator::extract::{CandidateJson, CuratorConfig};
use continuum_core::curator::run::{
    budget_prompt, build_events_block, build_related_block, curator_tick, extract_pass,
    flush_due_sessions, hygiene_due, max_id, observe_session_boundary, related_query, tick_seconds,
    truncate_chars, wipe_plan, ActivitySignal, ExtractOutcome, PassStep, Progress, Reply, WipePlan,
    MAX_PROMPT_EVENTS, PROMPT_CHAR_BUDGET,
};
use continuum_core::curator::session::{EndedSession, SessionTracker};
use continuum_core::curator::status::CuratorStatus;
use continuum_core::note::{Event, NodeStatus, NodeSummary, NodeType};
use continuum_core::time::Timestamp;

const TEMPLATE: &str = "max {{MAX}}\n{{EVENTS}}\nKNOWN\n{{RELATED}}\n";

fn at(minutes: i64) -> Timestamp {
    Timestamp {
        nanos: 1_767_258_000_000_000_000 + minutes * 60_000_000_000,
    }
}

fn event(id: i64, text: &str) -> Event {
    Event {
        id,
        ts: "2026-01-01T07:05:00+00:00".to_string(),
        kind: "distilled".to_string(),
        text: text.to_string(),
    }
}

fn cfg(max: u32) -> CuratorConfig {
    CuratorConfig {
        enabled: true,
        interval_minutes: 10,
        max_candidates_per_pass: max,
        discard_floor: 400_000,
        auto_confirm_threshold: 850_000,
        session_min_minutes: 5,
        session_summary_idle_minutes: 20,
    }
}

fn proposal(title: &str) -> CandidateJson {
    CandidateJson {
        kind: "fact".into(),
        title: title.into(),
        body: "b".into(),
        project: None,
        confidence: 900_000,
        importance: 500_000,
        source: None,
        relations: vec![],
        tags: vec![],
    }
}

#[test]
fn events_are_shown_with_the_time_of_day() {
    let mut odd = event(2, "b");
    odd.ts = "hand-edited".to_string();
    assert_eq!(
        build_events_block(&vec![event(1, "a"), odd]),
        "07:05 distilled — a\nhand-edited distilled — b"
    );
    assert_eq!(build_events_block(&vec![]), "");
}

#[test]
fn texts_are_shortened_by_characters() {
    assert_eq!(truncate_chars("héllo", 5), "héllo");
    assert_eq!(truncate_chars("héllo!", 5), "héllo…");
    assert_eq!(truncate_chars("x", 0), "…");
}

#[test]
fn the_last_three_events_are_searched_for() {
    let events = vec![event(1, "a"), event(2, "b"), event(3, "c"), event(4, "d")];
    assert_eq!(related_query(&events).as_deref(), Some("b c d"));
    assert_eq!(related_query(&vec![event(1, " ")]), None);
    assert_eq!(related_query(&vec![]), None);
    let hit = NodeSummary {
        id: "n".to_string(),
        node_type: NodeType::Fact,
        title: "T".to_string(),
        project: None,
        status: NodeStatus::Confirmed,
        snippet: Some("s".repeat(101)),
    };
    let bare = NodeSummary {
        snippet: None,
        ..hit.clone()
    };
    assert_eq!(
        build_related_block(&vec![hit, bare]),
        format!("- T: {}…\n- T: ", "s".repeat(100))
    );
}

#[test]
fn two_hundred_long_events_stay_within_the_budget() {
    let events: Vec<Event> = (0..200)
        .map(|i| {
            event(
                i + 1,
                &format!(
                    "Event {i}: {}",
                    "a very long descriptive sentence about what happened ".repeat(5)
                ),
            )
        })
        .collect();
    let prompt = budget_prompt(TEMPLATE, 5, &events, "");
    assert!(prompt.len() <= PROMPT_CHAR_BUDGET);
    assert!(prompt.contains("Event 199:"));
    assert!(!prompt.contains("Event 150:"));
    assert_eq!(max_id(&events), Some(200));

    let short: Vec<Event> = (0..60).map(|i| event(i, &format!("e{i}."))).collect();
    let prompt = budget_prompt(TEMPLATE, 5, &short, "- known");
    assert_eq!(prompt.matches("distilled").count(), MAX_PROMPT_EVENTS);
    assert!(prompt.starts_with("max 5\n07:05 distilled — e20.\n"));
    assert!(prompt.ends_with("— e59.\nKNOWN\n- known\n"));
}

#[test]
fn a_pass_asks_once_more_and_only_once() {
    let c = cfg(2);
    let step = extract_pass("P", Reply::Unreadable("bad".to_string()), false, Some(7), &c);
    assert_eq!(
        step,
        PassStep::AskAgain(
            "P\n\nYour previous reply was invalid: bad. Reply with ONLY the JSON array."
                .to_string()
        )
    );
    let step = extract_pass("P", Reply::Unreadable("bad".to_string()), true, Some(7), &c);
    assert_eq!(step, PassStep::Stop(ExtractOutcome::empty(Some(7), true)));
    let step = extract_pass("P", Reply::Unreachable, false, Some(7), &c);
    assert_eq!(step, PassStep::Stop(ExtractOutcome::empty(Some(7), false)));
    let three = vec![proposal("a"), proposal("b"), proposal("c")];
    let step = extract_pass("P", Reply::Read(three), false, Some(7), &c);
    assert_eq!(step, PassStep::Consider(vec![proposal("a"), proposal("b")]));
}

#[test]
fn a_window_is_given_up_after_three_failures() {
    let failed = Some(ExtractOutcome::empty(Some(12), false));
    let mut progress = Progress {
        watermark: 5,
        window_failures: 0,
    };
    let mut status = CuratorStatus::default();
    for n in 1..3 {
        curator_tick(&mut progress, &mut status, &failed, Some(4), at(0));
        assert_eq!(progress.watermark, 5);
        assert_eq!(status.consecutive_failures, n);
    }
    curator_tick(&mut progress, &mut status, &failed, None, at(1));
    assert_eq!(
        progress,
        Progress {
            watermark: 12,
            window_failures: 0
        }
    );
    assert_eq!(status.consecutive_failures, 3);
    assert_eq!(status.pending_count, 4);
    assert_eq!(status.last_pass_at, Some(at(1)));

    let well = Some(ExtractOutcome {
        created_ids: vec!["a".to_string(), "b".to_string()],
        max_id_seen: Some(20),
        llm_reachable: true,
    });
    curator_tick(&mut progress, &mut status, &well, Some(6), at(2));
    assert_eq!(progress.watermark, 20);
    assert_eq!(status.consecutive_failures, 0);
    assert_eq!(status.candidates_written_total, 2);
}

#[test]
fn without_events_the_watermark_stays() {
    let mut progress = Progress {
        watermark: 5,
        window_failures: 2,
    };
    let mut status = CuratorStatus::default();
    curator_tick(&mut progress, &mut status, &None, None, at(0));
    assert_eq!(progress.watermark, 5);
    assert_eq!(progress.window_failures, 0);
    let idle = Some(ExtractOutcome::empty(None, true));
    curator_tick(&mut progress, &mut status, &idle, None, at(0));
    assert_eq!(progress.watermark, 5);
    assert_eq!(status.consecutive_failures, 0);
}

#[test]
fn a_session_waits_until_the_lag_has_passed() {
    let mut tracker = SessionTracker::new();
    let mut pending: Vec<EndedSession> = Vec::new();
    let sig = |t| ActivitySignal {
        project_hint: None,
        process: "vscode".to_string(),
        idle_seconds: 0,
        ts: Some(t),
    };
    observe_session_boundary(&mut tracker, &mut pending, &sig(at(0)), 20);
    assert!(pending.is_empty());
    observe_session_boundary(&mut tracker, &mut pending, &sig(at(30)), 20);
    assert_eq!(pending.len(), 1);
    assert_eq!(pending[0].ended, at(0));
    assert!(flush_due_sessions(&mut pending, 31, at(30)).is_empty());
    assert_eq!(pending.len(), 1);
    assert_eq!(flush_due_sessions(&mut pending, 31, at(31)).len(), 1);
    assert!(pending.is_empty());
}

#[test]
fn housekeeping_decisions() {
    let scopes = vec!["raw_log".to_string(), "events".to_string(), "moon".to_string()];
    assert_eq!(
        wipe_plan(&scopes),
        WipePlan {
            raw_log: true,
            episodic: false,
            events: true
        }
    );
    assert_eq!(tick_seconds(0), 60);
    assert_eq!(tick_seconds(15), 900);
    assert!(hygiene_due(None, 3));
    assert!(hygiene_due(Some(2), 3));
    assert!(!hygiene_due(Some(3), 3));
    assert_eq!(max_id(&vec![]), None);
}
