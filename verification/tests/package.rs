use continuum_core::context::package::{
    estimate_tokens, ContextPackage, CurrentMoment, DropStep, EventLine, FactLine, MemoryLine,
    NextStep, PackageBudget, PackageSection, PendingDecisionLine, SectionCaps, SessionSection,
    ToolsSection, VaultNoteLine, PRIVATE_CONTEXT_PHRASE, PRIVATE_PLACEHOLDER, PRIVATE_WAKE_REASON,
};
use continuum_core::ratio::ratio_string;
use continuum_core::text::truncate_on_char_boundary;
use continuum_core::context::trailer::{
    normalize_open_task_trailer, parse_wake_trailer, read_open_task, TRAILER_FIELD_MAX_CHARS,
};


fn event(age: &str, text: &str, count: i64) -> EventLine {
    EventLine {
        age: age.to_string(),
        text: text.to_string(),
        count,
        local_only: false,
    }
}

fn full_package() -> ContextPackage {
    ContextPackage {
        current_moment: Some(CurrentMoment {
            caption: "VS Code showing a failing test".to_string(),
            window_title: Some("wake_context.rs - continuum".to_string()),
            app: Some("Code.exe".to_string()),
            world_compact: Some("live-context/v2 seq=7\n[monitor:display-1] main".to_string()),
            audio: Some("waarom faalt dit".to_string()),
            local_only: false,
        }),
        session: Some(SessionSection {
            project: Some("continuum".to_string()),
            goal: Some("ship the context engine".to_string()),
            task: Some("fix the wake packager".to_string()),
            confidence: 800_000,
            open_files: vec!["src/context/package.rs".to_string()],
            local_only: false,
        }),
        just_before: vec![
            event("1m ago", "build failed", 14),
            event("3m ago", "edit", 1),
        ],
        memories: vec![MemoryLine {
            age: "2h ago".to_string(),
            text: "User was debugging triage JSON parsing".to_string(),
            local_only: false,
        }],
        facts: vec![FactLine {
            label: "Name".to_string(),
            value: "\"Toshan\"".to_string(),
            local_only: false,
        }],
        vault_notes: vec![VaultNoteLine {
            node_type: "preference".to_string(),
            title: "Prefers dark mode".to_string(),
            snippet: Some("asked for dark theme".to_string()),
            importance: 900_000,
            local_only: false,
        }],
        recent_changes: vec![event("2m ago", "modified package.rs", 3)],
        failed_attempts: vec![event("1m ago", "cargo test failed", 4)],
        last_success: Some(event("20m ago", "cargo build succeeded", 1)),
        tools: Some(ToolsSection {
            names: vec!["mcp__continuum__*".to_string()],
            permission_mode: "default".to_string(),
        }),
        recommended_next_step: Some(NextStep {
            text: "re-run the failing test".to_string(),
            confidence: 700_000,
            local_only: false,
        }),
        pending_decisions: vec![PendingDecisionLine {
            id: "mem_pending1".to_string(),
            node_type: "decision".to_string(),
            title: "Switching to PostgreSQL".to_string(),
            confidence: 600_000,
            source: "observed".to_string(),
            local_only: false,
        }],
        why_woken: Some("User appears stuck on test failures".to_string()),
        why_woken_local_only: false,
    }
}

#[test]
fn renders_every_section_when_filled() {
    let msg = full_package().render(&PackageBudget::cloud(10_000));
    for heading in [
        "## Current moment",
        "## Session state",
        "## Just before",
        "## Relevant memories",
        "## What you know about the user",
        "## Long-term memory (vault)",
        "## Recent changes",
        "## Failed attempts",
        "## Last success",
        "## Available tools",
        "## Recommended next step",
        "## Pending memory decisions",
        "## Why you were woken",
    ] {
        assert!(msg.contains(heading), "missing section {heading}:\n{msg}");
    }
}

#[test]
fn render_report_lists_only_sections_that_survive_the_cloud_gate() {
    let mut pkg = full_package();
    pkg.vault_notes[0].local_only = true;
    pkg.session = Some(SessionSection {
        project: None,
        goal: None,
        task: None,
        confidence: 800_000,
        open_files: vec!["C:/private/secret.rs".to_string()],
        local_only: true,
    });

    let outcome = pkg.render_with_report(&PackageBudget::cloud(10_000));

    assert!(!outcome.text.contains("## Session state"));
    assert!(!outcome.text.contains("## Long-term memory (vault)"));
    assert!(!outcome.sections.contains(&PackageSection::Session));
    assert!(!outcome.sections.contains(&PackageSection::VaultNotes));
    assert!(outcome.sections.contains(&PackageSection::CurrentMoment));
    assert!(outcome.sections.contains(&PackageSection::Memories));
}

#[test]
fn render_report_removes_sections_dropped_for_budget() {
    let pkg = ContextPackage {
        current_moment: Some(CurrentMoment {
            caption: "terminal".to_string(),
            ..Default::default()
        }),
        recent_changes: vec![event("1m ago", &"changed file ".repeat(200), 1)],
        why_woken: Some("test wake".to_string()),
        ..Default::default()
    };

    let outcome = pkg.render_with_report(&PackageBudget::cloud(40));

    assert!(outcome.dropped.contains(&DropStep::RecentChanges));
    assert!(!outcome.text.contains("## Recent changes"));
    assert!(!outcome.sections.contains(&PackageSection::RecentChanges));
    assert!(outcome.sections.contains(&PackageSection::CurrentMoment));
    assert!(outcome.sections.contains(&PackageSection::WhyWoken));
}

#[test]
fn current_moment_renders_window_title_and_world_compact() {
    let msg = full_package().render(&PackageBudget::cloud(10_000));
    assert!(msg.contains("Screen: VS Code showing a failing test"));
    assert!(msg.contains("Window: wake_context.rs - continuum"));
    assert!(msg.contains("App: Code.exe"));
    assert!(msg.contains("Audio: \"waarom faalt dit\""));
    assert!(msg.contains("World state:\nlive-context/v2 seq=7"));
}

#[test]
fn session_section_renders_fields_and_confidence() {
    let msg = full_package().render(&PackageBudget::cloud(10_000));
    assert!(msg.contains("Project: continuum"));
    assert!(msg.contains("Goal: ship the context engine"));
    assert!(msg.contains("Task: fix the wake packager (confidence 0.8)"));
    assert!(msg.contains("Open files: src/context/package.rs"));
}

#[test]
fn count_aware_event_lines_render_the_multiplier() {
    let msg = full_package().render(&PackageBudget::cloud(10_000));
    assert!(msg.contains("- [1m ago] build failed (×14)"));
    assert!(msg.contains("- [3m ago] edit\n"), "count=1 has no suffix");
    assert!(msg.contains("- [1m ago] cargo test failed (×4)"));
    assert!(msg.contains("- [20m ago] cargo build succeeded"));
}

#[test]
fn tools_section_lists_names_and_permission_mode() {
    let msg = full_package().render(&PackageBudget::cloud(10_000));
    assert!(msg.contains("mcp__continuum__*"));
    assert!(msg.contains("Permission mode: default"));
}

#[test]
fn tools_beyond_the_cap_collapse_into_a_counter() {
    let mut pkg = full_package();
    pkg.tools = Some(ToolsSection {
        names: (0..20).map(|i| format!("tool_{i}")).collect(),
        permission_mode: "default".to_string(),
    });
    let msg = pkg.render(&PackageBudget::cloud(10_000));
    assert!(msg.contains("+8 more"), "{msg}");
}

#[test]
fn empty_sections_render_no_heading() {
    let pkg = ContextPackage {
        current_moment: Some(CurrentMoment {
            caption: "idle desktop".to_string(),
            ..Default::default()
        }),
        why_woken: Some("Test wake".to_string()),
        ..Default::default()
    };
    let msg = pkg.render(&PackageBudget::cloud(10_000));
    assert!(msg.contains("## Current moment"));
    assert!(msg.contains("## Why you were woken"));
    for absent in [
        "## Session state",
        "## Just before",
        "## Relevant memories",
        "## Recent changes",
        "## Failed attempts",
        "## Last success",
        "## Available tools",
        "## Recommended next step",
        "## Pending memory decisions",
    ] {
        assert!(!msg.contains(absent), "unexpected section {absent}");
    }
}

#[test]
fn pending_decisions_are_the_last_section_before_the_reason() {
    let msg = full_package().render(&PackageBudget::cloud(10_000));
    let pending = msg.find("## Pending memory decisions").unwrap();
    let reason = msg.find("## Why you were woken").unwrap();
    assert!(pending < reason);
    assert!(!msg[pending..reason]
        .trim_start_matches("## Pending memory decisions")
        .contains("\n## "));
    for heading in [
        "## Current moment",
        "## Session state",
        "## Just before",
        "## Long-term memory (vault)",
        "## Recent changes",
        "## Failed attempts",
        "## Last success",
        "## Available tools",
        "## Recommended next step",
    ] {
        assert!(
            msg.find(heading).unwrap() < pending,
            "{heading} after pending"
        );
    }
}

#[test]
fn cloud_bound_render_skips_local_only_items() {
    let mut pkg = full_package();
    pkg.just_before[0].local_only = true;
    pkg.memories[0].local_only = true;
    pkg.facts[0].local_only = true;
    pkg.vault_notes[0].local_only = true;
    pkg.recent_changes[0].local_only = true;
    pkg.failed_attempts[0].local_only = true;
    pkg.last_success.as_mut().unwrap().local_only = true;
    pkg.pending_decisions[0].local_only = true;

    let cloud = pkg.render(&PackageBudget::cloud(10_000));
    assert!(!cloud.contains("build failed"));
    assert!(!cloud.contains("## Relevant memories"));
    assert!(!cloud.contains("## What you know about the user"));
    assert!(!cloud.contains("## Long-term memory (vault)"));
    assert!(!cloud.contains("## Recent changes"));
    assert!(!cloud.contains("## Failed attempts"));
    assert!(!cloud.contains("## Last success"));
    assert!(!cloud.contains("## Pending memory decisions"));
    assert!(cloud.contains("- [3m ago] edit"));

    let local = pkg.render(&PackageBudget::local(10_000));
    assert!(local.contains("build failed"));
    assert!(local.contains("## Pending memory decisions"));
}

#[test]
fn cloud_bound_render_generalizes_local_only_moment_and_session() {
    let mut pkg = full_package();
    pkg.current_moment.as_mut().unwrap().local_only = true;
    pkg.session.as_mut().unwrap().local_only = true;

    let cloud = pkg.render(&PackageBudget::cloud(10_000));
    assert!(cloud.contains("## Current moment"));
    assert!(cloud.contains(&format!("Screen: {PRIVATE_PLACEHOLDER}")));
    assert!(!cloud.contains("VS Code showing a failing test"));
    assert!(!cloud.contains("Window: wake_context.rs"));
    assert!(cloud.contains("## Session state"));
    assert!(!cloud.contains("Project: continuum"));
    assert!(cloud.contains(&format!("Goal: {PRIVATE_CONTEXT_PHRASE}")));
    assert!(cloud.contains(&format!("Task: {PRIVATE_CONTEXT_PHRASE}")));
    assert!(!cloud.contains("Open files:"));

    let local = pkg.render(&PackageBudget::local(10_000));
    assert!(local.contains("VS Code showing a failing test"));
    assert!(local.contains("Goal: ship the context engine"));
    assert!(local.contains("Project: continuum"));
}

#[test]
fn a_local_only_next_step_is_dropped_from_a_cloud_render() {
    let mut pkg = full_package();
    pkg.session.as_mut().unwrap().local_only = true;
    pkg.recommended_next_step = Some(NextStep {
        text: "finish reviewing the Q3 layoff list".to_string(),
        confidence: 900_000,
        local_only: true,
    });

    let cloud = pkg.render(&PackageBudget::cloud(10_000));
    assert!(
        !cloud.contains("## Recommended next step"),
        "the heading itself must not render:\n{cloud}"
    );
    assert!(
        !cloud.contains("layoff"),
        "the private task leaked into the cloud package:\n{cloud}"
    );

    let local = pkg.render(&PackageBudget::local(10_000));
    assert!(local.contains("## Recommended next step"));
    assert!(local.contains("finish reviewing the Q3 layoff list"));

    pkg.recommended_next_step.as_mut().unwrap().local_only = false;
    assert!(pkg
        .render(&PackageBudget::cloud(10_000))
        .contains("finish reviewing the Q3 layoff list"));
}

#[test]
fn a_local_only_wake_reason_renders_the_generic_phrase() {
    let mut pkg = full_package();
    pkg.why_woken =
        Some("User is reviewing the Q3 layoff list in the private browser".to_string());
    pkg.why_woken_local_only = true;

    let cloud = pkg.render(&PackageBudget::cloud(10_000));
    assert!(cloud.contains("## Why you were woken"));
    assert!(
        cloud.contains(PRIVATE_WAKE_REASON),
        "expected the generic reason:\n{cloud}"
    );
    assert!(
        !cloud.contains("layoff"),
        "the triage LLM's sentence leaked verbatim:\n{cloud}"
    );

    let local = pkg.render(&PackageBudget::local(10_000));
    assert!(local.contains("Q3 layoff list"));
    assert!(!local.contains(PRIVATE_WAKE_REASON));

    pkg.why_woken_local_only = false;
    assert!(pkg
        .render(&PackageBudget::cloud(10_000))
        .contains("Q3 layoff list"));
}

#[test]
fn the_generic_wake_reason_survives_the_drop_ladder() {
    let mut pkg = full_package();
    pkg.why_woken = Some("something very private and very long".repeat(20));
    pkg.why_woken_local_only = true;
    let out = pkg.render_with_report(&PackageBudget::cloud(50));
    assert!(out.text.contains(PRIVATE_WAKE_REASON));
    assert!(!out.text.contains("something very private"));
}

#[test]
fn per_section_caps_truncate_before_the_budget_check() {
    let mut pkg = full_package();
    pkg.just_before = (0..20)
        .map(|i| event("1m ago", &format!("e{i}"), 1))
        .collect();
    pkg.memories = (0..20)
        .map(|i| MemoryLine {
            age: "1h ago".to_string(),
            text: format!("m{i}"),
            local_only: false,
        })
        .collect();
    let msg = pkg.render(&PackageBudget::cloud(100_000));
    assert!(msg.contains("e4"));
    assert!(!msg.contains("e5"), "just_before cap is 5");
    assert!(msg.contains("m2"));
    assert!(!msg.contains("m3"), "memories cap is 3");
}

#[test]
fn world_compact_is_capped_on_a_char_boundary() {
    let mut pkg = full_package();
    pkg.current_moment.as_mut().unwrap().world_compact = Some("é".repeat(2_000));
    let caps = SectionCaps {
        world_compact_chars: 50,
        ..Default::default()
    };
    let msg = pkg.render(&PackageBudget::cloud(100_000).with_caps(caps));
    assert!(msg.contains("World state:"));
    assert!(msg.contains("..."));
}

#[test]
fn drop_order_is_open_files_then_changes_then_just_before_then_memories() {
    let pkg = full_package();
    let full = pkg.render_with_report(&PackageBudget::cloud(10_000));
    assert!(full.dropped.is_empty());

    let steps: Vec<DropStep> = pkg.render_with_report(&PackageBudget::cloud(1)).dropped;
    assert_eq!(steps[0], DropStep::OpenFiles);
    assert_eq!(steps[1], DropStep::RecentChanges);
    assert!(steps[2..4].iter().all(|s| *s == DropStep::JustBeforeTail));
    assert_eq!(steps[4], DropStep::MemoriesTail);
    assert_eq!(steps.len(), 5);
}

#[test]
fn the_never_drop_set_survives_an_impossible_budget() {
    let msg = full_package().render(&PackageBudget::cloud(1));
    assert!(msg.contains("## Current moment"));
    assert!(msg.contains("## Session state"));
    assert!(msg.contains("## Pending memory decisions"));
    assert!(msg.contains("## Why you were woken"));
    assert!(!msg.contains("## Recent changes"));
    assert!(!msg.contains("## Just before"));
    assert!(!msg.contains("## Relevant memories"));
    assert!(!msg.contains("Open files:"));
}

#[test]
fn a_package_within_budget_is_never_trimmed() {
    let report = full_package().render_with_report(&PackageBudget::cloud(1_000));
    assert!(report.dropped.is_empty(), "{:?}", report.dropped);
    assert!(!report.over_budget);
    assert!(report.tokens <= 1_000, "{} tokens", report.tokens);
}

#[test]
fn estimate_tokens_rounds_up() {
    assert_eq!(estimate_tokens(""), 0);
    assert_eq!(estimate_tokens("abcd"), 2);
}

#[test]
fn trailer_parses_all_three_fields() {
    let text = "Ik heb de test gefixt.\n\nAction: fixed the failing assert\n\
                Result: cargo test is green\nNext step: run clippy";
    let trailer = parse_wake_trailer(text).unwrap();
    assert_eq!(trailer.action.as_deref(), Some("fixed the failing assert"));
    assert_eq!(trailer.result.as_deref(), Some("cargo test is green"));
    assert_eq!(trailer.next_step.as_deref(), Some("run clippy"));
    assert_eq!(trailer.summary(), Some("run clippy"));
}

#[test]
fn trailer_is_case_insensitive_and_survives_markdown() {
    let text = "- **NEXT STEP:** `re-run the bench`\n* result: ok";
    let trailer = parse_wake_trailer(text).unwrap();
    assert_eq!(trailer.next_step.as_deref(), Some("re-run the bench"));
    assert_eq!(trailer.result.as_deref(), Some("ok"));
}

#[test]
fn trailer_accepts_dutch_labels() {
    let trailer = parse_wake_trailer("Volgende stap: draai de tests opnieuw").unwrap();
    assert_eq!(trailer.next_step.as_deref(), Some("draai de tests opnieuw"));
}

#[test]
fn trailer_last_occurrence_wins() {
    let text = "Next step: first guess\n...\nNext step: the real one";
    let trailer = parse_wake_trailer(text).unwrap();
    assert_eq!(trailer.next_step.as_deref(), Some("the real one"));
}

#[test]
fn trailer_absent_yields_none() {
    assert!(parse_wake_trailer("Just a normal answer with no trailer.").is_none());
    assert!(parse_wake_trailer("").is_none());
}

#[test]
fn trailer_garbage_and_empty_values_yield_none() {
    assert!(parse_wake_trailer("Next step:\nResult:   \nAction: none").is_none());
    assert!(parse_wake_trailer("{\"next_step\": 42}").is_none());
    assert!(parse_wake_trailer("nextstep run it").is_none());
}

#[test]
fn trailer_fields_are_capped() {
    let long = "x".repeat(500);
    let trailer = parse_wake_trailer(&format!("Next step: {long}")).unwrap();
    assert!(trailer.next_step.as_deref().unwrap().len() <= TRAILER_FIELD_MAX_CHARS);
}

#[test]
fn trailer_render_line_is_compact() {
    let trailer = parse_wake_trailer("Action: a\nResult: b\nNext step: c").unwrap();
    assert_eq!(
        trailer.render_line(),
        "action: a | result: b | next step: c"
    );
}

#[test]
fn open_task_trailer_is_kept_and_moved_to_the_end() {
    let body = "## Goal\nship B7\nopen_task: wire the packager\n## Result\ndone";
    let normalized = normalize_open_task_trailer(body);
    assert!(normalized.ends_with("open_task: wire the packager"));
    assert_eq!(normalized.matches("open_task:").count(), 1);
    assert_eq!(
        read_open_task(&normalized).as_deref(),
        Some("wire the packager")
    );
}

#[test]
fn open_task_trailer_falls_back_to_the_next_step_section() {
    let body = "## Goal\nship B7\n## Next step\nre-run the gates\n";
    let normalized = normalize_open_task_trailer(body);
    assert!(normalized.ends_with("open_task: re-run the gates"));
}

#[test]
fn open_task_trailer_normalizes_missing_and_negative_values() {
    let normalized = normalize_open_task_trailer("## Goal\nidle\n## Next step\nnone");
    assert!(normalized.ends_with("open_task: none"));
    assert!(read_open_task(&normalized).is_none());

    let normalized = normalize_open_task_trailer("## Goal\nidle\nopen_task:");
    assert!(normalized.ends_with("open_task: none"));
}

#[test]
fn open_task_trailer_collapses_duplicates_keeping_the_last() {
    let body = "open_task: first\nbody line\n- **open_task:** second";
    let normalized = normalize_open_task_trailer(body);
    assert_eq!(normalized.matches("open_task:").count(), 1);
    assert!(normalized.ends_with("open_task: second"));
    assert!(normalized.contains("body line"));
}

#[test]
fn open_task_is_idempotent() {
    let once = normalize_open_task_trailer("## Goal\nship\nopen_task: land B7");
    let twice = normalize_open_task_trailer(&once);
    assert_eq!(once, twice);
}

#[test]
fn an_open_task_line_without_a_value_is_passed_over() {
    assert_eq!(
        normalize_open_task_trailer("open_task: ship it\nopen_task:"),
        "open_task: ship it"
    );
    assert_eq!(
        normalize_open_task_trailer("open_task: ship it\n- **open_task:** ``"),
        "open_task: ship it"
    );
    assert_eq!(
        normalize_open_task_trailer("open_task: ship it\nopen_task: none"),
        "open_task: none"
    );
    assert_eq!(normalize_open_task_trailer("open_task:"), "open_task: none");
    assert_eq!(read_open_task("open_task: ship it\nopen_task:"), None);
}

#[test]
fn a_shortened_text_fits() {
    for max in 0..9 {
        let cut = truncate_on_char_boundary("héé wörld", max);
        assert!(cut.len() <= max, "{cut}");
    }
    assert_eq!(truncate_on_char_boundary("abcd", 2), "..");
    assert_eq!(truncate_on_char_boundary("abcd", 0), "");
    assert_eq!(truncate_on_char_boundary("abcd", 3), "...");
    assert_eq!(truncate_on_char_boundary("abcde", 4), "a...");
    assert_eq!(truncate_on_char_boundary("abcd", 4), "abcd");
}

#[test]
fn ratios_are_shown_like_single_precision_numbers() {
    assert_eq!(ratio_string(1_350_000), "1.4");
    assert_eq!(ratio_string(250_000), "0.2");
    assert_eq!(ratio_string(350_000), "0.3");
    assert_eq!(ratio_string(0), "0.0");
    let shown = |m: u32| {
        let x: f32 = format!("{}.{:06}", m / 1_000_000, m % 1_000_000).parse().unwrap();
        format!("{x:.1}")
    };
    for k in 0..42_949u32 {
        let half = k * 100_000 + 50_000;
        for m in [half - 7, half - 1, half, half + 1, half + 250] {
            assert_eq!(ratio_string(m), shown(m), "{m}");
        }
    }
    for m in (0..1_000_000).step_by(37) {
        assert_eq!(ratio_string(m), shown(m), "{m}");
    }
    assert_eq!(ratio_string(u32::MAX), shown(u32::MAX));
}

#[test]
fn normalizing_a_plain_summary_twice_changes_nothing() {
    for body in [
        "## Goal\nship\n\nopen_task: `land B7`\nrest\n\n",
        "## Next step\n- run the tests\n",
        "open_task: none",
        "",
    ] {
        let once = normalize_open_task_trailer(body);
        assert_eq!(normalize_open_task_trailer(&once), once, "{body}");
    }
}
