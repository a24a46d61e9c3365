use continuum_core::context::apply::{
    adopt_exclusion, adopt_project, audit_kind, check_project, confirm_project, correct,
    deferred_error, finish_intent, is_deferred, mirror_project_to_config, not_this_project, persist_rule, pin,
    propose_project, record_user_command, report_correction, report_pin, report_toggle,
    report_unpin, rule_scope, toggle_event_text, Detail, DetailValue, IntentOutcome,
};
use continuum_core::context::deletion::{
    begin_forget, cascade_key, is_candidate_of, ForgetCascade, ForgetRung, ForgetStart,
    RangeAnswer, RangeDeletion, RangeRung, Removed,
};
use continuum_core::context::intents::{ContextAction, ContextIntent, SessionField, ToggleName};
use continuum_core::context::project::{
    FrameInput, ProjectEntry, ProjectStatus, ProjectsConfig, RuleAction,
};
use continuum_core::context::resolver::ProjectResolver;
use continuum_core::context::session_hub::{FrameFacts, SessionStateHub};
use continuum_core::note::{NodeStatus, NodeType, Sensitivity};
use continuum_core::time::Timestamp;

const FRAME: &str = "936da01f-9abd-4d9d-80c7-02af85c822a8";

fn now() -> Timestamp {
    Timestamp { nanos: 1_785_920_400_000_000_000 }
}

fn resolver() -> ProjectResolver {
    ProjectResolver::new(vec![], vec![], &ProjectsConfig::default())
}

fn hub_in(process: &str) -> SessionStateHub {
    let mut hub = SessionStateHub::new();
    hub.apply_frame(
        &FrameFacts {
            ts: now(),
            process_name: process.to_string(),
            window_title: "x".to_string(),
            privacy_restricted: false,
        },
        None,
    );
    hub
}

fn value<'a>(details: &'a [Detail], key: &str) -> Option<&'a DetailValue> {
    details.iter().find(|d| d.key == key).map(|d| &d.value)
}

fn text(s: &str) -> DetailValue {
    DetailValue::Text(s.to_string())
}

#[test]
fn only_deletion_intents_are_deferred() {
    let now = Timestamp::now();
    assert!(is_deferred(&ContextAction::Forget {
        raw_reference: Some("x".into()),
        event_id: None
    }));
    assert!(is_deferred(&ContextAction::DeleteRange {
        from: now,
        to: now
    }));
    for inline in [
        ContextAction::ConfirmProject {
            project_id: "p".into(),
        },
        ContextAction::Pin {
            field: SessionField::Project,
            value: None,
        },
        ContextAction::SetToggle {
            name: ToggleName::Screen,
            value: false,
        },
    ] {
        assert!(!is_deferred(&inline), "{inline:?} must stay inline");
    }
}

#[test]
fn an_added_project_is_confirmed_and_known() {
    let mut r = resolver();
    let entry = check_project(" Sim Charts ", "D:/work/simcharts", None, &vec![], true).unwrap();
    assert_eq!(entry.id, "sim-charts");
    assert_eq!(entry.name, "Sim Charts");
    assert_eq!(entry.root_paths, vec!["D:/work/simcharts".to_string()]);
    assert_eq!(entry.status, ProjectStatus::Confirmed);
    let mirror = mirror_project_to_config(&entry);
    assert_eq!(mirror.id, "sim-charts");
    let out = adopt_project(&mut r, entry, Ok(())).unwrap();
    assert!(out.applied);
    assert_eq!(out.summary, "Added project \"Sim Charts\" (sim-charts)");
    assert_eq!(value(&out.details, "root_path"), Some(&text("D:/work/simcharts")));
    assert!(r.projects().iter().any(|p| p.id == "sim-charts"));
}

#[test]
fn a_project_without_name_or_absolute_root_is_refused() {
    let none: Vec<String> = vec![];
    assert_eq!(
        check_project("  ", "/x", None, &none, true).unwrap_err(),
        "a project needs a name"
    );
    assert_eq!(
        check_project("x", " ", None, &none, true).unwrap_err(),
        "a project needs a root path"
    );
    assert_eq!(
        check_project("x", "relative/path", None, &none, false).unwrap_err(),
        "root path must be absolute: relative/path"
    );
    assert!(propose_project(&resolver(), "x", "relative/path", None).is_err());
}

#[test]
fn an_explicit_id_is_kept_or_made_one() {
    let taken = vec!["tools".to_string()];
    let id = |explicit| check_project("Tools", "/t", explicit, &taken, true).unwrap().id;
    assert_eq!(id(Some("tools")), "tools");
    assert_eq!(id(Some("My Tools!")), "my-tools");
    assert_eq!(id(None), "tools-2");
}

#[test]
fn confirming_promotes_a_discovered_project() {
    let mut r = resolver();
    r.upsert_project(ProjectEntry {
        id: "discovered-one".into(),
        name: "Discovered One".into(),
        root_paths: vec!["D:/work/one".into()],
        repo: None,
        keywords: Vec::new(),
        zone: None,
        status: ProjectStatus::Discovered,
    });
    let (out, mirror) = confirm_project(&mut r, "discovered-one", Ok(false)).unwrap();
    assert_eq!(out.summary, "Confirmed project discovered-one");
    assert_eq!(mirror.unwrap().name, "Discovered One");
    assert!(r.projects()[0].participates());

    assert_eq!(
        confirm_project(&mut r, "ghost", Ok(false)).unwrap_err(),
        "no such project: ghost"
    );
    let (_, mirror) = confirm_project(&mut r, "ghost", Ok(true)).unwrap();
    assert!(mirror.is_none());
}

#[test]
fn what_the_user_says_holds_though_it_could_not_be_stored() {
    let locked = || "locked".to_string();
    let mut r = resolver();
    let mut entry = check_project("Sim Charts", "/work/sim", None, &vec![], true).unwrap();
    entry.status = ProjectStatus::Discovered;
    assert_eq!(adopt_project(&mut r, entry, Err(locked())), Err(locked()));
    assert!(r.projects().iter().any(|p| p.id == "sim-charts" && !p.participates()));
    assert_eq!(
        confirm_project(&mut r, "sim-charts", Err(locked())).unwrap_err(),
        "locked"
    );
    assert!(r.projects().iter().any(|p| p.id == "sim-charts" && p.participates()));
    let seen = FrameInput {
        process_name: "Code.exe",
        window_title: "main.rs - sim-charts - scratch",
        recent_file_path: None,
        recent_git_root: None,
        ts: now(),
    };
    assert!(r.resolve_candidate(&seen).is_some());
    let rule = not_this_project(&None, "sim-charts", None, Some("scratch")).unwrap();
    assert_eq!(adopt_exclusion(&mut r, rule.clone(), Err(locked())), Err(locked()));
    assert_eq!(persist_rule(&mut r, rule, Err(locked())), Err(locked()));
    assert_eq!(r.resolve_candidate(&seen), None);
}

#[test]
fn a_corrected_project_leaves_a_rule_and_a_note() {
    let mut hub = hub_in("Code.exe");
    let plan = correct(&mut hub, SessionField::Project, "continuum", None, None, now()).unwrap();
    let state = hub.snapshot();
    assert_eq!(state.active_project.as_deref(), Some("continuum"));
    assert!(state.is_user_confirmed(SessionField::Project));
    let rule = plan.rule.unwrap();
    assert_eq!(rule.action, RuleAction::ForceProject);
    assert_eq!(rule.project_id, "continuum");
    assert_eq!(rule.match_process.as_deref(), Some("Code.exe"));
    assert_eq!(plan.note.node_type, NodeType::Preference);
    assert_eq!(plan.note.status, NodeStatus::Confirmed);
    assert_eq!(plan.note.sensitivity, Sensitivity::Normal);
    assert_eq!(plan.note.title, "User corrected project");
    assert_eq!(
        plan.note.body,
        "The user corrected Continuum's belief about the current project to \"continuum\" \
         from the Context page."
    );
    let out = report_correction(SessionField::Project, &plan.value, true, &None);
    assert_eq!(out.summary, "Corrected project to \"continuum\"");
    assert_eq!(value(&out.details, "note_id"), Some(&DetailValue::Nothing));
}

#[test]
fn a_corrected_goal_is_sure_and_leaves_no_rule() {
    let mut hub = SessionStateHub::new();
    let plan = correct(
        &mut hub,
        SessionField::Goal,
        " ship the context engine ",
        None,
        None,
        now(),
    )
    .unwrap();
    assert_eq!(plan.value, "ship the context engine");
    assert!(plan.rule.is_none());
    let state = hub.snapshot();
    assert_eq!(state.current_goal.as_deref(), Some("ship the context engine"));
    assert_eq!(state.confidence, 1_000_000);
    assert!(state.is_user_confirmed(SessionField::Goal));
}

#[test]
fn a_private_correction_leaves_a_sensitive_note() {
    let mut hub = SessionStateHub::new();
    let mut state = hub.snapshot();
    state.local_only = true;
    hub.replace(state);
    let plan = correct(&mut hub, SessionField::Task, "private work", None, None, now()).unwrap();
    assert_eq!(plan.note.sensitivity, Sensitivity::Sensitive);
}

#[test]
fn corrections_that_make_no_sense_are_refused() {
    let mut hub = SessionStateHub::new();
    let before = hub.version();
    assert_eq!(
        correct(&mut hub, SessionField::Task, "  ", None, None, now()).unwrap_err(),
        "a correction needs a value"
    );
    assert_eq!(
        correct(&mut hub, SessionField::Project, "Not A Slug", Some("Code.exe"), None, now())
            .unwrap_err(),
        "\"Not A Slug\" is not a project id; add the project first"
    );
    assert_eq!(hub.version(), before);
    assert!(correct(&mut hub, SessionField::Project, "p", None, None, now()).is_err());
    assert_eq!(hub.snapshot().active_project.as_deref(), Some("p"));
}

#[test]
fn an_exclusion_is_scoped_and_taken_in() {
    let none = None;
    let rule = not_this_project(&none, "continuum", None, Some("scratch")).unwrap();
    assert_eq!(rule.action, RuleAction::ExcludeProject);
    assert_eq!(rule.match_title_substring.as_deref(), Some("scratch"));
    assert!(rule.match_process.is_none());
    let mut r = resolver();
    let out = adopt_exclusion(&mut r, rule, Ok(())).unwrap();
    assert_eq!(out.summary, "This is not continuum");
    assert_eq!(value(&out.details, "match_process"), Some(&DetailValue::Nothing));
    assert_eq!(
        not_this_project(&none, "continuum", None, None).unwrap_err(),
        "no scope for the rule: pass match_process or match_title_substring"
    );
    assert_eq!(
        not_this_project(&none, "No Id", None, None).unwrap_err(),
        "\"No Id\" is not a project id"
    );
    let app = Some("Code.exe".to_string());
    assert_eq!(
        rule_scope(&app, Some(" "), None).unwrap().process.as_deref(),
        Some("Code.exe")
    );
    assert!(rule_scope(&Some("[excluded]".to_string()), None, None).is_err());
}

#[test]
fn a_pin_holds_until_it_is_released() {
    let mut hub = hub_in("Code.exe");
    let stored = pin(&mut hub, SessionField::Task, Some("  ship it "), now());
    assert_eq!(stored.as_deref(), Some("ship it"));
    assert!(hub.snapshot().is_pinned(SessionField::Task));
    assert_eq!(report_pin(SessionField::Task, "ship it").summary, "Pinned task to \"ship it\"");
    assert_eq!(pin(&mut hub, SessionField::Task, Some("  "), now()), None);
    assert!(!hub.snapshot().is_pinned(SessionField::Task));
    assert_eq!(hub.snapshot().current_task.as_deref(), Some("ship it"));
    let out = report_unpin(SessionField::Task, true);
    assert_eq!(out.summary, "Cleared the task pin");
    assert_eq!(value(&out.details, "existed"), Some(&DetailValue::Flag(true)));
}

#[test]
fn a_command_is_recorded_but_not_reported() {
    let mut hub = SessionStateHub::new();
    let out = record_user_command(&mut hub, "  run the focused tests ", now());
    assert!(out.applied);
    assert_eq!(value(&out.details, "chars"), Some(&DetailValue::Number(21)));
    assert!(!format!("{out:?}").contains("focused"));
    assert_eq!(hub.snapshot().last_user_command.unwrap().text, "run the focused tests");
    let out = record_user_command(&mut hub, "   ", now());
    assert!(!out.applied);
    assert_eq!(out.summary, "Empty user command ignored");
}

#[test]
fn toggles_are_reported() {
    let out = report_toggle(ToggleName::Mic, false, true);
    assert!(out.applied);
    assert_eq!(out.summary, "mic observation disabled");
    let out = report_toggle(ToggleName::Mic, true, false);
    assert!(!out.applied);
    assert_eq!(out.summary, "mic observation was already on");
    assert_eq!(
        toggle_event_text(ToggleName::Files, true),
        "files observation enabled from the Context page"
    );
}

#[test]
fn every_intent_is_written_down() {
    let intent = ContextIntent::stamped(
        ContextAction::SetToggle {
            name: ToggleName::Git,
            value: true,
        },
        "id-1".to_string(),
        Some(0),
    );
    let (out, line) = finish_intent(&intent, Ok(report_toggle(ToggleName::Git, true, true)));
    assert!(out.applied);
    assert_eq!(line.kind, "toggle_change");
    assert_eq!(line.summary, out.summary);
    assert_eq!(value(&line.details, "intent"), Some(&text("set_toggle")));
    assert_eq!(value(&line.details, "intent_id"), Some(&text("id-1")));
    assert_eq!(value(&line.details, "applied"), Some(&DetailValue::Flag(true)));
    assert_eq!(value(&line.details, "name"), Some(&text("git")));

    let (out, line) = finish_intent(&intent, Err("disk full".to_string()));
    assert!(!out.applied);
    assert_eq!(out.summary, "set_toggle failed: disk full");
    assert_eq!(value(&line.details, "error"), Some(&text("disk full")));
    assert_eq!(value(&line.details, "applied"), Some(&DetailValue::Flag(false)));
}

#[test]
fn details_under_a_reserved_key_are_replaced() {
    let intent = ContextIntent::stamped(
        ContextAction::ConfirmProject {
            project_id: "p".to_string(),
        },
        "id-2".to_string(),
        Some(0),
    );
    let odd = IntentOutcome {
        applied: true,
        summary: "s".to_string(),
        details: vec![Detail {
            key: "intent".to_string(),
            value: DetailValue::Number(1),
        }],
    };
    let (_, line) = finish_intent(&intent, Ok(odd));
    assert_eq!(line.kind, "correction");
    assert_eq!(line.details.len(), 3);
    assert_eq!(value(&line.details, "intent"), Some(&text("confirm_project")));
    assert_eq!(audit_kind(&intent.action), "correction");
    assert_eq!(
        deferred_error(&intent.action),
        "confirm_project is not a deferred intent kind"
    );
}

fn cascade(reference: &str) -> ForgetCascade {
    match begin_forget(Some(reference.to_string()), Ok(1)) {
        Ok(ForgetStart::Cascade(c)) => c,
        other => panic!("{other:?}"),
    }
}

#[test]
fn a_frame_is_forgotten_in_every_store() {
    let mut c = cascade(FRAME);
    assert!(c.is_frame);
    assert_eq!(c.rung, ForgetRung::Events);
    c.settle(Ok(Removed { rows: 2, files: 0 }));
    assert_eq!(c.rung, ForgetRung::Frame);
    c.settle(Ok(Removed { rows: 1, files: 1 }));
    assert_eq!(c.rung, ForgetRung::Memories);
    c.settle(Err("locked".to_string()));
    assert_eq!(c.rung, ForgetRung::Candidates);
    c.settle(Ok(Removed { rows: 1, files: 0 }));
    assert_eq!(c.rung, ForgetRung::Finished);
    let out = c.outcome();
    assert_eq!(
        out.summary,
        "Forgot 3 event(s), 1 frame(s), 0 memory(ies), 1 candidate(s)"
    );
    assert_eq!(value(&out.details, "screenshots"), Some(&DetailValue::Number(1)));
    assert_eq!(value(&out.details, "raw_reference"), Some(&text(FRAME)));
}

#[test]
fn a_reference_that_is_no_frame_only_drops_events() {
    let mut c = cascade("deadbeefcafe");
    assert!(!c.is_frame);
    c.settle(Ok(Removed { rows: 0, files: 0 }));
    assert_eq!(c.rung, ForgetRung::Finished);
    assert_eq!(value(&c.outcome().details, "frames"), Some(&DetailValue::Number(0)));
}

#[test]
fn a_frame_is_deleted_though_its_events_are_not() {
    let mut c = match begin_forget(Some(FRAME.to_string()), Err("locked".to_string())) {
        Ok(ForgetStart::Cascade(c)) => c,
        other => panic!("{other:?}"),
    };
    c.settle(Err("disk".to_string()));
    assert_eq!(c.rung, ForgetRung::Frame);
    c.settle(Ok(Removed { rows: 1, files: 1 }));
    c.settle(Ok(Removed { rows: 2, files: 0 }));
    c.settle(Ok(Removed { rows: 1, files: 0 }));
    assert_eq!(
        c.outcome().summary,
        "Forgot 0 event(s), 1 frame(s), 2 memory(ies), 1 candidate(s)"
    );
}

#[test]
fn frames_are_told_by_their_id_in_every_form() {
    let simple = FRAME.replace('-', "");
    for id in [
        FRAME.to_string(),
        FRAME.to_uppercase(),
        simple.clone(),
        format!("{{{FRAME}}}"),
        format!("urn:uuid:{FRAME}"),
        format!("URN:UUID:{FRAME}"),
    ] {
        assert!(cascade(&id).is_frame, "{id}");
    }
    for id in [
        "",
        "936da01f-9abd-4d9d-80c7-02af85c822a",
        "936da01f-9abd-4d9d-80c7-02af85c822ag",
        "936da01f9-abd-4d9d-80c7-02af85c822a8",
        "{936da01f9abd4d9d80c702af85c822a8}",
    ] {
        assert!(!cascade(id).is_frame, "{id}");
    }
}

#[test]
fn forgetting_needs_a_key() {
    assert_eq!(
        begin_forget(None, Ok(0)).unwrap_err(),
        "forget needs a raw_reference or an event_id"
    );
    assert_eq!(
        begin_forget(None, Err("disk".to_string())).unwrap_err(),
        "disk"
    );
    match begin_forget(None, Ok(1)) {
        Ok(ForgetStart::Done(out)) => {
            assert_eq!(out.summary, "Forgot 1 event (no raw reference to cascade from)");
            assert_eq!(value(&out.details, "events"), Some(&DetailValue::Number(1)));
        }
        other => panic!("{other:?}"),
    }
    let b = || Ok(Some("b".to_string()));
    let failed = || Err("disk".to_string());
    assert_eq!(cascade_key(Some(" a "), b()), Ok(Some("a".to_string())));
    assert_eq!(cascade_key(Some("  "), b()), b());
    assert_eq!(cascade_key(None, Ok(None)), Ok(None));
    assert_eq!(cascade_key(Some("a"), failed()), Ok(Some("a".to_string())));
    assert_eq!(cascade_key(None, failed()), failed());
}

#[test]
fn a_span_of_time_is_deleted_in_order() {
    let from = Timestamp { nanos: 0 };
    let to = Timestamp { nanos: 3_600_000_000_000 };
    assert_eq!(
        RangeDeletion::begin(to, from).unwrap_err(),
        "delete range ends before it starts"
    );
    let mut d = RangeDeletion::begin(from, to).unwrap();
    assert_eq!(d.rung, RangeRung::Memories);
    d.settle(RangeAnswer::Failed("busy".to_string())).unwrap();
    assert_eq!(d.rung, RangeRung::FrameIds);
    d.settle(RangeAnswer::Ids(vec!["f1".to_string()])).unwrap();
    assert_eq!(d.rung, RangeRung::Purge);
    assert_eq!(
        d.settle(RangeAnswer::Failed("disk".to_string())),
        Err("disk".to_string())
    );
    d.settle(RangeAnswer::Purged { frames: 1, events: 2, screenshots: 1 }).unwrap();
    assert_eq!(d.rung, RangeRung::Candidates);
    assert!(is_candidate_of(Some("triage:frame:f1"), &d.frame_ids));
    assert!(!is_candidate_of(Some("triage:frame:f2"), &d.frame_ids));
    assert!(!is_candidate_of(None, &d.frame_ids));
    d.settle(RangeAnswer::Deleted(1)).unwrap();
    assert_eq!(d.rung, RangeRung::Finished);
    assert_eq!(
        d.outcome().summary,
        "Purged 1 frame(s), 2 event(s), 0 memory(ies) and 1 candidate(s) between \
         1970-01-01T00:00:00+00:00 and 1970-01-01T01:00:00+00:00"
    );
}
