use continuum_core::context::project::{
    FrameInput, OverrideRule, ProjectConfigEntry, ProjectEntry, ProjectStatus, ProjectsConfig,
    RuleAction,
};
use continuum_core::context::resolver::{
    DiscoveredCandidate, DiscoveryState, ProjectResolver, DISCOVERY_RESOLVED_CAP,
};
use continuum_core::context::slug::{
    is_valid_project_id, slugify, unique_slug, PROJECT_SLUG_MAX_LEN,
};
use continuum_core::context::titles::{extract_title_paths, legacy_keyword_hint};
use continuum_core::time::Timestamp;

fn ts(secs: i64) -> Timestamp {
    Timestamp { nanos: (1_700_000_000 + secs) * 1_000_000_000 }
}

fn project(id: &str, name: &str, roots: &[&str], keywords: &[&str]) -> ProjectEntry {
    ProjectEntry {
        id: id.to_string(),
        name: name.to_string(),
        root_paths: roots.iter().map(|s| s.to_string()).collect(),
        repo: None,
        keywords: keywords.iter().map(|s| s.to_string()).collect(),
        zone: None,
        status: ProjectStatus::Configured,
    }
}

fn cfg() -> ProjectsConfig {
    ProjectsConfig::default()
}

fn resolver(projects: Vec<ProjectEntry>, rules: Vec<OverrideRule>) -> ProjectResolver {
    ProjectResolver::new(projects, rules, &cfg())
}

fn input<'a>(process: &'a str, title: &'a str, at: Timestamp) -> FrameInput<'a> {
    FrameInput {
        process_name: process,
        window_title: title,
        recent_file_path: None,
        recent_git_root: None,
        ts: at,
    }
}

/// Takes in a frame and proposes the folders in its title that `on_disk` knows.
fn discover(
    r: &mut ProjectResolver,
    frame: &FrameInput,
    on_disk: impl Fn(&str) -> Option<String>,
) -> Vec<DiscoveredCandidate> {
    let mut found = Vec::new();
    for folder in r.observe(frame).folders {
        if let Some(path) = r.sight_folder(&folder, frame.ts) {
            found.extend(r.propose_folder(on_disk(&path).as_deref()));
        }
    }
    found
}

fn test_projects() -> Vec<ProjectEntry> {
    vec![
        project(
            "continuum",
            "Continuum",
            &["D:\\Continuum\\Continuum-main"],
            &["continuum"],
        ),
        project(
            "simcharts",
            "SimCharts",
            &["D:\\Dev\\simcharts"],
            &["simcharts", "chart editor"],
        ),
    ]
}

#[test]
fn slug_validation_enforces_the_spec_format() {
    assert!(is_valid_project_id("continuum"));
    assert!(is_valid_project_id("my-project-2"));
    assert!(is_valid_project_id("a"));
    assert!(!is_valid_project_id(""));
    assert!(!is_valid_project_id("Continuum"));
    assert!(!is_valid_project_id("has.dot"));
    assert!(!is_valid_project_id("has space"));
    assert!(!is_valid_project_id(&"x".repeat(65)));
    assert!(is_valid_project_id(&"x".repeat(64)));
}

#[test]
fn slugify_produces_valid_slugs() {
    assert_eq!(slugify("Continuum-main"), "continuum-main");
    assert_eq!(slugify("My Cool Project!"), "my-cool-project");
    assert_eq!(slugify("v2.0 (beta)"), "v2-0-beta");
    assert_eq!(slugify("---"), "project");
    assert_eq!(slugify(""), "project");
    let long = slugify(&"a".repeat(100));
    assert_eq!(long.len(), 64);
    for name in ["Continuum-main", "über café", "..x..", "AB__cd"] {
        assert!(is_valid_project_id(&slugify(name)), "slugify({name:?})");
    }
}

#[test]
fn unique_slug_appends_collision_suffixes() {
    let mut existing: Vec<String> = Vec::new();
    assert_eq!(unique_slug("Tools", &existing), "tools");
    existing.push("tools".to_string());
    assert_eq!(unique_slug("Tools", &existing), "tools-2");
    existing.push("tools-2".to_string());
    assert_eq!(unique_slug("Tools", &existing), "tools-3");
    let long_name = "a".repeat(100);
    existing.push(slugify(&long_name));
    let suffixed = unique_slug(&long_name, &existing);
    assert!(suffixed.ends_with("-2"));
    assert!(suffixed.len() <= PROJECT_SLUG_MAX_LEN);
    assert!(is_valid_project_id(&suffixed));
}

#[test]
fn tier1_title_path_beats_keywords() {
    let r = resolver(test_projects(), vec![]);
    let res = r
        .resolve_candidate(&input(
            "Code.exe",
            "simcharts notes - D:\\Continuum\\Continuum-main\\notes.md - Code",
            ts(0),
        ))
        .unwrap();
    assert_eq!(res.project_id, "continuum");
    assert_eq!(res.source_tier, 1);
    assert!(res.confidence == 900_000);
    let res = r
        .resolve_candidate(&input(
            "Code.exe",
            "d:/continuum/continuum-main/src/lib.rs",
            ts(0),
        ))
        .unwrap();
    assert_eq!(res.project_id, "continuum");
    assert_eq!(res.source_tier, 1);
}

#[test]
fn tier2_editor_patterns_match_all_separator_variants() {
    let r = resolver(test_projects(), vec![]);
    for title in [
        "main.rs — Continuum-main — Visual Studio Code",
        "main.rs - Continuum-main - Visual Studio Code",
        "● main.rs – Continuum-main – Code",
        "Continuum – wake.rs",
    ] {
        let res = r
            .resolve_candidate(&input("Code.exe", title, ts(0)))
            .unwrap_or_else(|| panic!("no resolution for {title:?}"));
        assert_eq!(res.project_id, "continuum", "title {title:?}");
        assert_eq!(res.source_tier, 2, "title {title:?}");
        assert!(res.confidence == 800_000);
    }
    assert!(r
        .resolve_candidate(&input("Code.exe", "notes.md - other-folder - Code", ts(0)))
        .is_none());
}

#[test]
fn tier4_keyword_match_is_the_weakest_tier() {
    let r = resolver(test_projects(), vec![]);
    let res = r
        .resolve_candidate(&input(
            "chrome.exe",
            "SimCharts docs - Google Chrome",
            ts(0),
        ))
        .unwrap();
    assert_eq!(res.project_id, "simcharts");
    assert_eq!(res.source_tier, 4);
    assert!(res.confidence == 500_000);
    let res = r
        .resolve_candidate(&input("chrome.exe", "the Chart Editor guide", ts(0)))
        .unwrap();
    assert_eq!(res.project_id, "simcharts");
    assert!(r
        .resolve_candidate(&input("chrome.exe", "unrelated page", ts(0)))
        .is_none());
}

#[test]
fn tier0_force_rule_overrides_everything() {
    let rules = vec![OverrideRule {
        match_process: Some("obsidian.exe".to_string()),
        match_title_substring: None,
        action: RuleAction::ForceProject,
        project_id: "simcharts".to_string(),
    }];
    let r = resolver(test_projects(), rules);
    let res = r
        .resolve_candidate(&input(
            "obsidian.exe",
            "D:\\Continuum\\Continuum-main notes",
            ts(0),
        ))
        .unwrap();
    assert_eq!(res.project_id, "simcharts");
    assert_eq!(res.source_tier, 0);
    assert!(res.confidence == 1_000_000);
    let res = r
        .resolve_candidate(&input(
            "Code.exe",
            "D:\\Continuum\\Continuum-main\\x.rs",
            ts(0),
        ))
        .unwrap();
    assert_eq!(res.project_id, "continuum");
}

#[test]
fn exclusion_rules_remove_candidates_before_ranking() {
    let rules = vec![OverrideRule {
        match_process: None,
        match_title_substring: Some("blog draft".to_string()),
        action: RuleAction::ExcludeProject,
        project_id: "continuum".to_string(),
    }];
    let r = resolver(test_projects(), rules);
    assert!(r
        .resolve_candidate(&input("Code.exe", "blog draft about continuum", ts(0)))
        .is_none());
    let res = r
        .resolve_candidate(&input(
            "Code.exe",
            "blog draft about continuum and simcharts",
            ts(0),
        ))
        .unwrap();
    assert_eq!(res.project_id, "simcharts");
    let res = r
        .resolve_candidate(&input("Code.exe", "continuum roadmap", ts(0)))
        .unwrap();
    assert_eq!(res.project_id, "continuum");
}

#[test]
fn exclusion_also_blocks_force_rules_and_empty_rules_never_match() {
    let rules = vec![
        OverrideRule {
            match_process: Some("code.exe".to_string()),
            match_title_substring: None,
            action: RuleAction::ForceProject,
            project_id: "continuum".to_string(),
        },
        OverrideRule {
            match_process: Some("code.exe".to_string()),
            match_title_substring: None,
            action: RuleAction::ExcludeProject,
            project_id: "continuum".to_string(),
        },
    ];
    let r = resolver(test_projects(), rules);
    assert!(r
        .resolve_candidate(&input("Code.exe", "untitled", ts(0)))
        .is_none());
    let empty_rule = OverrideRule {
        match_process: None,
        match_title_substring: None,
        action: RuleAction::ForceProject,
        project_id: "continuum".to_string(),
    };
    assert!(!empty_rule.matches("Code.exe", "anything"));
}

#[test]
fn discovered_candidates_never_participate_in_resolution() {
    let mut discovered = project(
        "sideproject",
        "SideProject",
        &["D:\\Dev\\sideproject"],
        &["sideproject"],
    );
    discovered.status = ProjectStatus::Discovered;
    let mut r = resolver(vec![discovered], vec![]);
    for title in [
        "D:\\Dev\\sideproject\\main.py - Code",
        "main.py - sideproject - Visual Studio Code",
        "sideproject readme",
    ] {
        assert!(
            r.resolve_candidate(&input("Code.exe", title, ts(0)))
                .is_none(),
            "discovered candidate must not resolve for {title:?}"
        );
    }
    assert!(r.confirm_project("sideproject"));
    let res = r
        .resolve_candidate(&input("Code.exe", "sideproject readme", ts(0)))
        .unwrap();
    assert_eq!(res.project_id, "sideproject");
}

#[test]
fn first_resolution_is_adopted_immediately() {
    let mut r = resolver(test_projects(), vec![]);
    let out = r.observe(&input("Code.exe", "continuum roadmap", ts(0)));
    let current = out.current.expect("adopted");
    assert_eq!(current.id, "continuum");
    assert_eq!(current.name, "Continuum");
    assert_eq!(
        current.root_path.as_deref(),
        Some("D:\\Continuum\\Continuum-main")
    );
    let switch = out.switched.expect("first adoption reports a switch");
    assert_eq!(switch.from, None);
    assert_eq!(switch.to, "continuum");
    assert_eq!(r.current().unwrap().id, "continuum");
}

#[test]
fn a_different_project_must_win_for_switch_min_secs() {
    let mut r = resolver(test_projects(), vec![]);
    r.observe(&input("Code.exe", "continuum roadmap", ts(0)));

    let out = r.observe(&input("Code.exe", "simcharts editor", ts(10)));
    assert_eq!(out.current.unwrap().id, "continuum");
    assert!(out.switched.is_none());
    let out = r.observe(&input("Code.exe", "simcharts editor", ts(25)));
    assert_eq!(out.current.unwrap().id, "continuum", "15 s held < 20 s");
    assert!(out.switched.is_none());
    let out = r.observe(&input("Code.exe", "simcharts editor", ts(30)));
    let current = out.current.unwrap();
    assert_eq!(current.id, "simcharts");
    let switch = out.switched.expect("post-hysteresis flip");
    assert_eq!(switch.from.as_deref(), Some("continuum"));
    assert_eq!(switch.to, "simcharts");
    assert_eq!(r.current().unwrap().id, "simcharts");
}

#[test]
fn an_interrupted_challenge_resets_the_clock() {
    let mut r = resolver(test_projects(), vec![]);
    r.observe(&input("Code.exe", "continuum roadmap", ts(0)));
    r.observe(&input("Code.exe", "simcharts editor", ts(10)));
    r.observe(&input("Code.exe", "simcharts editor", ts(15)));
    r.observe(&input("Code.exe", "continuum roadmap", ts(18)));
    let out = r.observe(&input("Code.exe", "simcharts editor", ts(20)));
    assert!(out.switched.is_none());
    let out = r.observe(&input("Code.exe", "simcharts editor", ts(35)));
    assert_eq!(out.current.unwrap().id, "continuum", "held only 15 s");
    let out = r.observe(&input("Code.exe", "simcharts editor", ts(40)));
    assert_eq!(out.current.unwrap().id, "simcharts", "held 20 s → flip");
}

#[test]
fn frames_with_no_winner_keep_the_incumbent_and_reset_challengers() {
    let mut r = resolver(test_projects(), vec![]);
    r.observe(&input("Code.exe", "continuum roadmap", ts(0)));
    r.observe(&input("Code.exe", "simcharts editor", ts(10)));
    let out = r.observe(&input("chrome.exe", "news site", ts(15)));
    assert_eq!(out.current.as_ref().unwrap().id, "continuum");
    assert!(out.switched.is_none());
    r.observe(&input("Code.exe", "simcharts editor", ts(20)));
    let out = r.observe(&input("Code.exe", "simcharts editor", ts(35)));
    assert_eq!(out.current.unwrap().id, "continuum");
    let out = r.observe(&input("Code.exe", "simcharts editor", ts(40)));
    assert_eq!(out.current.unwrap().id, "simcharts");
}

#[test]
fn discovery_accumulation_ages_out_and_restarts_dwell() {
    let ghost = "Z:\\seen\\once\\only";
    let title = format!("notes - {ghost} - Code");
    let mut r = resolver(vec![], vec![]);
    discover(&mut r, &input("Code.exe", &title, ts(0)), |_| None);
    discover(&mut r, &input("Code.exe", &title, ts(5)), |_| None);
    assert_eq!(r.discovery().accum.len(), 1);
    let partial = r.discovery().accum[0].secs;
    assert!(partial > 0 && partial < cfg().discover_min_secs);

    let found = discover(&mut r, &input("Code.exe", "Inbox - Outlook", ts(3600)), |_| None);
    assert!(found.is_empty());
    assert!(
        r.discovery().accum.is_empty(),
        "stale accumulation must be evicted, not kept forever"
    );

    discover(&mut r, &input("Code.exe", &title, ts(3605)), |_| None);
    assert_eq!(r.discovery().accum.len(), 1);
    assert_eq!(
        r.discovery().accum[0].secs,
        0,
        "dwell restarts after the entry aged out"
    );
}

#[test]
fn discovery_resolved_set_is_capped_oldest_first() {
    let mut state = DiscoveryState::new();
    for i in 0..(DISCOVERY_RESOLVED_CAP + 10) {
        state.mark_resolved(format!("path-{i}"));
    }
    assert_eq!(state.resolved.len(), DISCOVERY_RESOLVED_CAP);
    assert_eq!(state.resolved.len(), DISCOVERY_RESOLVED_CAP);
    assert!(!state.resolved.contains(&"path-0".to_string()), "oldest evicted");
    assert!(!state.resolved.contains(&"path-9".to_string()));
    assert!(state.resolved.contains(&"path-10".to_string()), "newest kept");
    assert!(state
        .resolved
        .contains(&format!("path-{}", DISCOVERY_RESOLVED_CAP + 9)));

    state.mark_resolved("path-10".to_string());
    assert_eq!(state.resolved.len(), DISCOVERY_RESOLVED_CAP);
}

#[test]
fn from_config_slugifies_invalid_ids_and_defaults_names() {
    let entry = ProjectConfigEntry {
        id: "My Project!".to_string(),
        name: String::new(),
        root_paths: vec![],
        repo: None,
        keywords: vec![],
        zone: None,
    };
    let project = ProjectEntry::from_config(&entry);
    assert_eq!(project.id, "my-project");
    assert_eq!(project.name, "my-project", "empty name falls back to id");
    assert_eq!(project.status, ProjectStatus::Configured);
}

#[test]
fn status_and_action_roundtrip_their_db_strings() {
    for status in [
        ProjectStatus::Configured,
        ProjectStatus::Discovered,
        ProjectStatus::Confirmed,
    ] {
        assert_eq!(ProjectStatus::parse(status.as_str()), status);
    }
    assert_eq!(ProjectStatus::parse("garbage"), ProjectStatus::Discovered);
    for action in [RuleAction::ForceProject, RuleAction::ExcludeProject] {
        assert_eq!(RuleAction::parse(action.as_str()), Some(action));
    }
    assert_eq!(RuleAction::parse("garbage"), None);
}

#[test]
fn legacy_keyword_hint_matches_the_historic_pairs() {
    assert_eq!(
        legacy_keyword_hint("main.rs - Continuum-main - Code").as_deref(),
        Some("continuum")
    );
    assert_eq!(
        legacy_keyword_hint("SimCharts editor").as_deref(),
        Some("simcharts")
    );
    assert_eq!(legacy_keyword_hint("something else"), None);
}

#[test]
fn extract_title_paths_finds_drive_letter_runs() {
    let paths = extract_title_paths("● main.rs - D:\\Dev\\Thing - Visual Studio Code");
    assert_eq!(paths, vec!["D:\\Dev\\Thing"]);
    let paths = extract_title_paths("Admin: C:/Users/x/proj");
    assert_eq!(paths, vec!["C:/Users/x/proj"]);
    assert!(extract_title_paths("no paths here").is_empty());
    assert!(extract_title_paths("ratio 1:2 in text").is_empty());
}

#[test]
fn tier3_repository_of_a_recent_file() {
    let r = resolver(vec![project("myrepo", "My Repo", &["C:\\work\\myrepo"], &[])], vec![]);
    let frame = FrameInput {
        recent_file_path: Some("C:\\work\\myrepo\\src\\main.rs"),
        recent_git_root: Some("C:\\work\\myrepo"),
        ..input("pwsh.exe", "Windows PowerShell", ts(0))
    };
    let res = r.resolve_candidate(&frame).unwrap();
    assert_eq!(res.project_id, "myrepo");
    assert_eq!(res.source_tier, 3);
    assert_eq!(res.confidence, 700_000);
    assert!(r
        .resolve_candidate(&input("pwsh.exe", "Windows PowerShell", ts(0)))
        .is_none());
}

#[test]
fn a_folder_on_disk_is_proposed_once_after_min_dwell() {
    let root = "C:\\work\\NewThing";
    let title = format!("notes.md - {root} - Code");
    let mut r = resolver(test_projects(), vec![]);
    let mut proposals = Vec::new();
    for i in 0..8 {
        proposals.extend(discover(&mut r, &input("Code.exe", &title, ts(i * 5)), |p| {
            Some(p.to_string())
        }));
    }
    assert_eq!(proposals.len(), 1);
    assert_eq!(proposals[0].id, "newthing");
    assert_eq!(proposals[0].name, "NewThing");
    assert_eq!(proposals[0].root_path, root);
    let entry = r.projects().iter().find(|p| p.id == "newthing").unwrap();
    assert_eq!(entry.status, ProjectStatus::Discovered);
    assert!(r
        .resolve_candidate(&input("Code.exe", &title, ts(100)))
        .is_none());
    assert!(discover(&mut r, &input("Code.exe", &title, ts(100)), |p| Some(p.to_string()))
        .is_empty());
}

#[test]
fn a_folder_that_is_not_on_disk_is_never_proposed() {
    let title = "notes - Z:\\definitely\\not\\a-real-dir-xyz - Code";
    let mut r = resolver(vec![], vec![]);
    for i in 0..10 {
        assert!(discover(&mut r, &input("Code.exe", title, ts(i * 5)), |_| None).is_empty());
    }
}

#[test]
fn known_folders_are_skipped_and_taken_ids_numbered() {
    let clash_title = "x.rs - C:\\work\\Continuum - Code";
    let known_title = "a.rs - D:\\Continuum\\Continuum-main\\src - Code";
    let mut r = resolver(test_projects(), vec![]);
    let mut proposals = Vec::new();
    for i in 0..8 {
        for title in [clash_title, known_title] {
            proposals.extend(discover(&mut r, &input("Code.exe", title, ts(i * 5)), |p| {
                Some(p.to_string())
            }));
        }
    }
    assert_eq!(proposals.len(), 1);
    assert_eq!(proposals[0].id, "continuum-2");
}

#[test]
fn nothing_is_proposed_where_discovery_is_off() {
    let mut config = cfg();
    config.auto_discover = false;
    let mut r = ProjectResolver::new(vec![], vec![], &config);
    for i in 0..10 {
        let found = discover(
            &mut r,
            &input("Code.exe", "x - C:\\work\\OffRepo - Code", ts(i * 5)),
            |p| Some(p.to_string()),
        );
        assert!(found.is_empty());
    }
}
