use continuum_core::context::apply::{
    adopt_exclusion, adopt_project, confirm_project, correct, deferred_error, finish_intent,
    mirror_project_to_config, not_this_project, pin, propose_project, record_user_command,
    report_correction, report_pin, report_toggle, report_unpin, AuditLine, Detail, DetailValue,
    IntentOutcome,
};
use continuum_core::context::deletion::{
    begin_forget, cascade_key, is_candidate_of, ForgetRung, ForgetStart, RangeAnswer,
    RangeDeletion, RangeRung, Removed,
};
use continuum_core::context::intents::{
    ContextAction, ContextIntent, IntentDrainer, SessionField, ToggleName,
};
use continuum_core::context::project::{
    OverrideRule, ProjectEntry, ProjectStatus, ProjectsConfig, RuleAction,
};
use continuum_core::context::resolver::{CurrentProject, ProjectResolver};
use continuum_core::context::session_hub::{FrameFacts, SessionStateHub};
use continuum_core::note::{NodeStatus, NodeType, NoteDraft, Sensitivity};
use continuum_core::time::Timestamp;

const FRAME: &str = "936da01f-9abd-4d9d-80c7-02af85c822a8";
const OTHER_FRAME: &str = "00000000-0000-4000-8000-000000000001";

fn now() -> Timestamp {
    Timestamp {
        nanos: 1_785_920_400_000_000_000,
    }
}

fn ago(minutes: i64) -> Timestamp {
    Timestamp {
        nanos: now().nanos - minutes * 60_000_000_000,
    }
}

/// The root of a project on this machine.
fn root(path: &str) -> String {
    if std::path::Path::new("D:/work").is_absolute() {
        format!("D:/{path}")
    } else {
        format!("/{path}")
    }
}

struct EventRow {
    id: i64,
    ts: Timestamp,
    raw_reference: Option<String>,
}

struct FrameRow {
    id: String,
    ts: Timestamp,
    screenshot: Option<String>,
}

struct Memory {
    ts: Timestamp,
    source_frame: Option<String>,
}

/// Stores in memory.
struct Harness {
    projects: Vec<ProjectEntry>,
    config: Vec<String>,
    rules: Vec<OverrideRule>,
    pins: Vec<(String, String)>,
    events: Vec<EventRow>,
    frames: Vec<FrameRow>,
    shots: Vec<String>,
    memories: Vec<Memory>,
    candidates: Vec<(String, Option<String>)>,
    notes: Vec<NoteDraft>,
    off: Vec<ToggleName>,
    audit: Vec<AuditLine>,
    session: SessionStateHub,
    resolver: ProjectResolver,
}

impl Harness {
    fn new() -> Self {
        Harness {
            projects: vec![],
            config: vec![],
            rules: vec![],
            pins: vec![],
            events: vec![],
            frames: vec![],
            shots: vec![],
            memories: vec![],
            candidates: vec![],
            notes: vec![],
            off: vec![],
            audit: vec![],
            session: SessionStateHub::new(),
            resolver: ProjectResolver::new(vec![], vec![], &ProjectsConfig::default()),
        }
    }

    fn see_frame(&mut self, project: Option<&CurrentProject>) {
        self.session.apply_frame(
            &FrameFacts {
                ts: now(),
                process_name: "Code.exe".to_string(),
                window_title: "main.rs".to_string(),
                privacy_restricted: false,
            },
            project,
        );
    }

    fn delete_candidates(&mut self, frame_ids: &Vec<String>) -> u64 {
        let before = self.candidates.len();
        self.candidates
            .retain(|(_, r)| !is_candidate_of(r.as_deref(), frame_ids));
        (before - self.candidates.len()) as u64
    }

    /// Deletes frames with their screenshots. Returns rows and files.
    fn delete_frames(&mut self, gone: impl Fn(&FrameRow) -> bool) -> (u64, u64) {
        let mut rows = 0;
        let mut files = 0;
        let (out, kept): (Vec<FrameRow>, Vec<FrameRow>) = self.frames.drain(..).partition(gone);
        self.frames = kept;
        for f in out {
            rows += 1;
            if let Some(shot) = f.screenshot {
                let before = self.shots.len();
                self.shots.retain(|s| *s != shot);
                files += (before - self.shots.len()) as u64;
            }
        }
        (rows, files)
    }

    fn forget(
        &mut self,
        raw_reference: Option<&str>,
        event_id: Option<i64>,
    ) -> Result<IntentOutcome, String> {
        let mut events = 0;
        let mut of_event = None;
        if let Some(id) = event_id {
            of_event = self
                .events
                .iter()
                .find(|e| e.id == id)
                .and_then(|e| e.raw_reference.clone());
            let before = self.events.len();
            self.events.retain(|e| e.id != id);
            events = (before - self.events.len()) as u64;
        }
        let key = cascade_key(raw_reference, Ok(of_event))?;
        let mut c = match begin_forget(key, Ok(events))? {
            ForgetStart::Done(out) => return Ok(out),
            ForgetStart::Cascade(c) => c,
        };
        let reference = c.reference.clone();
        loop {
            let (rows, files) = match c.rung {
                ForgetRung::Events => {
                    let before = self.events.len();
                    self.events
                        .retain(|e| e.raw_reference.as_deref() != Some(reference.as_str()));
                    ((before - self.events.len()) as u64, 0)
                }
                ForgetRung::Frame => self.delete_frames(|f| f.id == reference),
                ForgetRung::Memories => {
                    let before = self.memories.len();
                    self.memories
                        .retain(|m| m.source_frame.as_deref() != Some(reference.as_str()));
                    ((before - self.memories.len()) as u64, 0)
                }
                ForgetRung::Candidates => (self.delete_candidates(&vec![reference.clone()]), 0),
                ForgetRung::Finished => return Ok(c.outcome()),
            };
            c.settle(Ok(Removed { rows, files }));
        }
    }

    fn delete_range(&mut self, from: Timestamp, to: Timestamp) -> Result<IntentOutcome, String> {
        let inside = |t: Timestamp| from.nanos <= t.nanos && t.nanos <= to.nanos;
        let mut d = RangeDeletion::begin(from, to)?;
        loop {
            let answer = match d.rung {
                RangeRung::Memories => {
                    let before = self.memories.len();
                    self.memories.retain(|m| !inside(m.ts));
                    RangeAnswer::Deleted((before - self.memories.len()) as u64)
                }
                RangeRung::FrameIds => RangeAnswer::Ids(
                    self.frames
                        .iter()
                        .filter(|f| inside(f.ts))
                        .map(|f| f.id.clone())
                        .collect(),
                ),
                RangeRung::Purge => {
                    let before = self.events.len();
                    self.events.retain(|e| !inside(e.ts));
                    let events = (before - self.events.len()) as u64;
                    let (frames, screenshots) = self.delete_frames(|f| inside(f.ts));
                    RangeAnswer::Purged {
                        frames,
                        events,
                        screenshots,
                    }
                }
                RangeRung::Candidates => {
                    let ids = d.frame_ids.clone();
                    RangeAnswer::Deleted(self.delete_candidates(&ids))
                }
                RangeRung::Finished => return Ok(d.outcome()),
            };
            d.settle(answer)?;
        }
    }

    fn carry_out(&mut self, action: &ContextAction) -> Result<IntentOutcome, String> {
        match action {
            ContextAction::AddProject {
                name,
                root_path,
                project_id,
            } => {
                let entry =
                    propose_project(&self.resolver, name, root_path, project_id.as_deref())?;
                self.projects.push(entry.clone());
                self.config.push(mirror_project_to_config(&entry).id);
                adopt_project(&mut self.resolver, entry, Ok(()))
            }
            ContextAction::ConfirmProject { project_id } => {
                let row = self.projects.iter_mut().find(|p| p.id == *project_id);
                let stored = row.is_some();
                if let Some(p) = row {
                    p.status = ProjectStatus::Confirmed;
                }
                let (out, mirror) = confirm_project(&mut self.resolver, project_id, Ok(stored))?;
                self.config.extend(mirror.map(|m| m.id));
                Ok(out)
            }
            ContextAction::Correct {
                field,
                value,
                match_process,
                match_title_substring,
            } => {
                let plan = correct(
                    &mut self.session,
                    *field,
                    value,
                    match_process.as_deref(),
                    match_title_substring.as_deref(),
                    now(),
                )?;
                let ruled = plan.rule.is_some();
                self.rules.extend(plan.rule);
                self.notes.push(plan.note);
                let id = Some("note".to_string());
                Ok(report_correction(*field, &plan.value, ruled, &id))
            }
            ContextAction::NotThisProject {
                project_id,
                match_process,
                match_title_substring,
            } => {
                let app = self.session.snapshot().active_app;
                let rule = not_this_project(
                    &app,
                    project_id,
                    match_process.as_deref(),
                    match_title_substring.as_deref(),
                )?;
                self.rules.push(rule.clone());
                adopt_exclusion(&mut self.resolver, rule, Ok(()))
            }
            ContextAction::Pin { field, value } => {
                match pin(&mut self.session, *field, value.as_deref(), now()) {
                    Some(v) => {
                        self.pins.push((field.as_str().to_string(), v.clone()));
                        Ok(report_pin(*field, &v))
                    }
                    None => {
                        let before = self.pins.len();
                        self.pins.retain(|(f, _)| f != field.as_str());
                        Ok(report_unpin(*field, before != self.pins.len()))
                    }
                }
            }
            ContextAction::Forget {
                raw_reference,
                event_id,
            } => self.forget(raw_reference.as_deref(), *event_id),
            ContextAction::DeleteRange { from, to } => self.delete_range(*from, *to),
            ContextAction::SetToggle { name, value } => {
                let was = !self.off.contains(name);
                if was != *value {
                    self.off.retain(|n| n != name);
                    if !*value {
                        self.off.push(*name);
                    }
                }
                Ok(report_toggle(*name, *value, was != *value))
            }
            ContextAction::RecordUserCommand { text } => {
                Ok(record_user_command(&mut self.session, text, now()))
            }
        }
    }

    fn apply(&mut self, action: ContextAction) -> IntentOutcome {
        let intent = ContextIntent::new(action);
        self.apply_intent(&intent)
    }

    fn apply_intent(&mut self, intent: &ContextIntent) -> IntentOutcome {
        let result = self.carry_out(&intent.action);
        let (out, line) = finish_intent(intent, result);
        self.audit.push(line);
        out
    }
}

fn detail<'a>(details: &'a [Detail], key: &str) -> Option<&'a DetailValue> {
    details.iter().find(|d| d.key == key).map(|d| &d.value)
}

// --- projects ---

#[test]
fn add_project_writes_table_resolver_and_config() {
    let mut h = Harness::new();
    let out = h.apply(ContextAction::AddProject {
        name: "Sim Charts".into(),
        root_path: root("work/simcharts"),
        project_id: None,
    });
    assert!(out.applied, "{out:?}");
    assert_eq!(h.projects.len(), 1);
    assert_eq!(h.projects[0].id, "sim-charts");
    assert_eq!(h.projects[0].status, ProjectStatus::Confirmed);
    assert!(h.resolver.projects().iter().any(|p| p.id == "sim-charts"));
    assert_eq!(h.config.len(), 1);
    assert_eq!(h.config[0], "sim-charts");
}

#[test]
fn add_project_rejects_a_relative_root() {
    let mut h = Harness::new();
    let out = h.apply(ContextAction::AddProject {
        name: "x".into(),
        root_path: "relative/path".into(),
        project_id: None,
    });
    assert!(!out.applied);
    assert!(h.projects.is_empty());
}

#[test]
fn confirm_project_promotes_a_discovered_candidate() {
    let mut h = Harness::new();
    let candidate = ProjectEntry {
        id: "discovered-one".into(),
        name: "Discovered One".into(),
        root_paths: vec!["D:/work/one".into()],
        repo: None,
        keywords: Vec::new(),
        zone: None,
        status: ProjectStatus::Discovered,
    };
    h.projects.push(candidate.clone());
    h.resolver.upsert_project(candidate);
    let out = h.apply(ContextAction::ConfirmProject {
        project_id: "discovered-one".into(),
    });
    assert!(out.applied, "{out:?}");
    assert_eq!(h.projects[0].status, ProjectStatus::Confirmed);
    assert!(h
        .resolver
        .projects()
        .iter()
        .find(|p| p.id == "discovered-one")
        .unwrap()
        .participates());
    assert_eq!(h.config.len(), 1);
}

#[test]
fn confirm_unknown_project_fails_without_touching_anything() {
    let mut h = Harness::new();
    let out = h.apply(ContextAction::ConfirmProject {
        project_id: "ghost".into(),
    });
    assert!(!out.applied);
    assert!(h.projects.is_empty());
}

// --- corrections ---

#[test]
fn correcting_the_project_writes_state_rule_and_note() {
    let mut h = Harness::new();
    h.see_frame(None);
    let out = h.apply(ContextAction::Correct {
        field: SessionField::Project,
        value: "continuum".into(),
        match_process: None,
        match_title_substring: None,
    });
    assert!(out.applied, "{out:?}");
    let state = h.session.snapshot();
    assert_eq!(state.active_project.as_deref(), Some("continuum"));
    assert!(state.is_user_confirmed(SessionField::Project));
    assert_eq!(h.rules.len(), 1);
    assert_eq!(h.rules[0].action, RuleAction::ForceProject);
    assert_eq!(h.rules[0].project_id, "continuum");
    assert_eq!(h.rules[0].match_process.as_deref(), Some("Code.exe"));
    assert!(
        h.notes
            .iter()
            .any(|n| n.node_type == NodeType::Preference && n.status == NodeStatus::Confirmed),
        "a Confirmed preference note is written"
    );
}

#[test]
fn correcting_a_goal_marks_it_confident_and_confirmed() {
    let mut h = Harness::new();
    let out = h.apply(ContextAction::Correct {
        field: SessionField::Goal,
        value: "ship the context engine".into(),
        match_process: None,
        match_title_substring: None,
    });
    assert!(out.applied, "{out:?}");
    let state = h.session.snapshot();
    assert_eq!(
        state.current_goal.as_deref(),
        Some("ship the context engine")
    );
    assert_eq!(state.confidence, 1_000_000);
    assert!(state.is_user_confirmed(SessionField::Goal));
    assert!(h.rules.is_empty());
}

#[test]
fn a_local_only_session_produces_a_sensitive_correction_note() {
    let mut h = Harness::new();
    let mut state = h.session.snapshot();
    state.local_only = true;
    h.session.replace(state);
    h.apply(ContextAction::Correct {
        field: SessionField::Task,
        value: "private work".into(),
        match_process: None,
        match_title_substring: None,
    });
    let note = h.notes.first().expect("note written");
    assert_eq!(note.sensitivity, Sensitivity::Sensitive);
}

#[test]
fn correcting_a_project_to_a_non_slug_is_refused() {
    let mut h = Harness::new();
    let out = h.apply(ContextAction::Correct {
        field: SessionField::Project,
        value: "Not A Slug".into(),
        match_process: Some("Code.exe".into()),
        match_title_substring: None,
    });
    assert!(!out.applied);
    assert!(h.rules.is_empty());
}

#[test]
fn not_this_project_persists_an_exclude_rule() {
    let mut h = Harness::new();
    let out = h.apply(ContextAction::NotThisProject {
        project_id: "continuum".into(),
        match_process: None,
        match_title_substring: Some("scratch".into()),
    });
    assert!(out.applied, "{out:?}");
    assert_eq!(h.rules.len(), 1);
    assert_eq!(h.rules[0].action, RuleAction::ExcludeProject);
    assert_eq!(h.rules[0].match_title_substring.as_deref(), Some("scratch"));
    assert!(h.rules[0].match_process.is_none());
}

#[test]
fn a_rule_with_no_derivable_scope_is_refused() {
    let mut h = Harness::new();
    let out = h.apply(ContextAction::NotThisProject {
        project_id: "continuum".into(),
        match_process: None,
        match_title_substring: None,
    });
    assert!(!out.applied);
    assert!(h.rules.is_empty());
}

// --- pins ---

#[test]
fn pin_persists_and_blocks_frame_overwrite_until_cleared() {
    let mut h = Harness::new();
    let out = h.apply(ContextAction::Pin {
        field: SessionField::Project,
        value: Some("continuum".into()),
    });
    assert!(out.applied, "{out:?}");
    assert_eq!(h.pins.len(), 1);
    assert_eq!(h.pins[0].0, "project");
    assert_eq!(h.pins[0].1, "continuum");

    let other = CurrentProject {
        id: "other".into(),
        name: "Other".into(),
        root_path: None,
        confidence: 900_000,
        source_tier: 1,
        zone: None,
        status: ProjectStatus::Configured,
    };
    h.see_frame(Some(&other));
    assert_eq!(
        h.session.snapshot().active_project.as_deref(),
        Some("continuum")
    );
    assert_eq!(h.session.snapshot().active_app.as_deref(), Some("Code.exe"));

    let out = h.apply(ContextAction::Pin {
        field: SessionField::Project,
        value: None,
    });
    assert!(out.applied);
    assert!(h.pins.is_empty());
    h.see_frame(Some(&other));
    assert_eq!(
        h.session.snapshot().active_project.as_deref(),
        Some("other")
    );
}

// --- forget ---

#[test]
fn forget_cascades_across_every_store() {
    let mut h = Harness::new();
    h.shots.push("shot.jpg".to_string());
    h.frames.push(FrameRow {
        id: FRAME.to_string(),
        ts: now(),
        screenshot: Some("shot.jpg".to_string()),
    });
    for (id, frame) in [(1, FRAME), (2, OTHER_FRAME)] {
        h.events.push(EventRow {
            id,
            ts: now(),
            raw_reference: Some(frame.to_string()),
        });
        h.memories.push(Memory {
            ts: now(),
            source_frame: Some(frame.to_string()),
        });
    }
    h.candidates
        .push(("build failed".to_string(), Some(format!("triage:frame:{FRAME}"))));

    let out = h.apply(ContextAction::Forget {
        raw_reference: Some(FRAME.to_string()),
        event_id: None,
    });
    assert!(out.applied, "{out:?}");
    assert_eq!(h.events.len(), 1);
    assert_eq!(h.events[0].raw_reference.as_deref(), Some(OTHER_FRAME));
    assert_eq!(h.frames.len(), 0);
    assert!(h.shots.is_empty());
    assert_eq!(h.memories.len(), 1);
    assert!(h.candidates.is_empty());
}

#[test]
fn forget_by_event_id_uses_the_rows_own_reference() {
    let mut h = Harness::new();
    h.frames.push(FrameRow {
        id: FRAME.to_string(),
        ts: now(),
        screenshot: None,
    });
    h.events.push(EventRow {
        id: 1,
        ts: now(),
        raw_reference: Some(FRAME.to_string()),
    });
    let out = h.apply(ContextAction::Forget {
        raw_reference: None,
        event_id: Some(1),
    });
    assert!(out.applied, "{out:?}");
    assert_eq!(h.events.len(), 0);
    assert_eq!(h.frames.len(), 0);
}

#[test]
fn forget_with_a_non_frame_reference_only_drops_the_event() {
    let mut h = Harness::new();
    h.events.push(EventRow {
        id: 1,
        ts: now(),
        raw_reference: Some("deadbeefcafe".to_string()),
    });
    let out = h.apply(ContextAction::Forget {
        raw_reference: Some("deadbeefcafe".into()),
        event_id: None,
    });
    assert!(out.applied, "{out:?}");
    assert_eq!(h.events.len(), 0);
    assert_eq!(detail(&out.details, "frames"), Some(&DetailValue::Number(0)));
}

#[test]
fn forget_without_any_key_is_refused() {
    let mut h = Harness::new();
    let out = h.apply(ContextAction::Forget {
        raw_reference: None,
        event_id: None,
    });
    assert!(!out.applied);
}

#[test]
fn explicit_deletion_removes_the_screenshot_with_rotation_disabled() {
    let mut h = Harness::new();
    h.shots.push("embarrassing.jpg".to_string());
    h.frames.push(FrameRow {
        id: FRAME.to_string(),
        ts: now(),
        screenshot: Some("embarrassing.jpg".to_string()),
    });
    let out = h.apply(ContextAction::Forget {
        raw_reference: Some(FRAME.to_string()),
        event_id: None,
    });
    assert!(out.applied, "{out:?}");
    assert_eq!(h.frames.len(), 0);
    assert!(
        h.shots.is_empty(),
        "the row went but the JPEG was orphaned on disk"
    );
    assert_eq!(
        detail(&out.details, "screenshots"),
        Some(&DetailValue::Number(1))
    );
}

// --- delete range ---

fn hour_and_days() -> Harness {
    let mut h = Harness::new();
    for (id, ts, name) in [
        (FRAME, ago(30), "in.jpg"),
        (OTHER_FRAME, ago(3 * 24 * 60), "out.jpg"),
    ] {
        h.shots.push(name.to_string());
        h.frames.push(FrameRow {
            id: id.to_string(),
            ts,
            screenshot: Some(name.to_string()),
        });
        h.events.push(EventRow {
            id: h.events.len() as i64,
            ts,
            raw_reference: None,
        });
        h.memories.push(Memory {
            ts,
            source_frame: None,
        });
        h.candidates
            .push((format!("candidate for {id}"), Some(format!("triage:frame:{id}"))));
    }
    h
}

#[test]
fn delete_range_purges_frames_events_screenshots_and_memories() {
    let mut h = hour_and_days();
    let out = h.apply(ContextAction::DeleteRange {
        from: ago(60),
        to: now(),
    });
    assert!(out.applied, "{out:?}");
    assert_eq!(h.frames.len(), 1);
    assert_eq!(h.events.len(), 1);
    assert_eq!(h.memories.len(), 1);
    assert_eq!(h.shots, vec!["out.jpg".to_string()]);
}

#[test]
fn delete_range_removes_screenshots_with_rotation_disabled() {
    let mut h = hour_and_days();
    let out = h.apply(ContextAction::DeleteRange {
        from: ago(60),
        to: now(),
    });
    assert!(out.applied, "{out:?}");
    assert_eq!(
        detail(&out.details, "screenshots"),
        Some(&DetailValue::Number(1))
    );
    assert!(
        !h.shots.contains(&"in.jpg".to_string()),
        "in-window screenshot was orphaned"
    );
    assert!(h.shots.contains(&"out.jpg".to_string()));
}

#[test]
fn delete_range_also_purges_vault_candidates_for_its_frames() {
    let mut h = hour_and_days();
    assert_eq!(h.candidates.len(), 2);
    let out = h.apply(ContextAction::DeleteRange {
        from: ago(60),
        to: now(),
    });
    assert!(out.applied, "{out:?}");
    assert_eq!(
        detail(&out.details, "candidates"),
        Some(&DetailValue::Number(1))
    );
    assert_eq!(
        h.candidates.len(),
        1,
        "only the out-of-window candidate remains"
    );
    assert!(
        h.candidates[0].0.contains(OTHER_FRAME),
        "the wrong candidate survived: {:?}",
        h.candidates[0].0
    );
}

#[test]
fn deferred_application_matches_the_inline_path() {
    let mut h = hour_and_days();
    let out = h.apply(ContextAction::DeleteRange {
        from: ago(60),
        to: now(),
    });
    assert!(out.applied, "{out:?}");
    assert_eq!(h.frames.len(), 1);
    assert!(!h.shots.contains(&"in.jpg".to_string()));
    assert_eq!(h.audit[0].kind, "deletion");
}

#[test]
fn deferred_application_refuses_inline_kinds() {
    let intent = ContextIntent::new(ContextAction::SetToggle {
        name: ToggleName::Screen,
        value: false,
    });
    let (out, _) = finish_intent(&intent, Err(deferred_error(&intent.action)));
    assert!(!out.applied);
    assert!(
        out.summary.contains("not a deferred intent kind"),
        "{out:?}"
    );
}

#[test]
fn an_inverted_delete_range_is_refused() {
    let mut h = hour_and_days();
    let out = h.apply(ContextAction::DeleteRange {
        from: now(),
        to: ago(60),
    });
    assert!(!out.applied);
    assert_eq!(h.frames.len(), 2);
}

// --- toggles and commands ---

#[test]
fn set_toggle_updates_live_state_and_config() {
    let mut h = Harness::new();
    let out = h.apply(ContextAction::SetToggle {
        name: ToggleName::Mic,
        value: false,
    });
    assert!(out.applied, "{out:?}");
    assert_eq!(h.off, vec![ToggleName::Mic], "others keep their defaults");
}

#[test]
fn setting_a_toggle_to_its_current_value_is_a_no_op() {
    let mut h = Harness::new();
    let out = h.apply(ContextAction::SetToggle {
        name: ToggleName::Git,
        value: true,
    });
    assert!(!out.applied);
    assert!(h.off.is_empty());
}

#[test]
fn record_user_command_updates_session_and_audits_without_the_text() {
    let mut h = Harness::new();
    let command = "  deploy the private release  ";
    let out = h.apply(ContextAction::RecordUserCommand {
        text: command.to_string(),
    });
    assert!(out.applied, "{out:?}");
    assert_eq!(
        h.session
            .snapshot()
            .last_user_command
            .as_ref()
            .map(|command| command.text.as_str()),
        Some("deploy the private release")
    );
    assert_eq!(h.audit.len(), 1);
    assert_eq!(h.audit[0].kind, "user_command");
    assert!(!format!("{:?}", h.audit[0]).contains("deploy the private release"));
}

// --- end to end ---

#[test]
fn intent_files_drain_and_apply_end_to_end() {
    let mut h = Harness::new();
    let actions = vec![
        ContextAction::AddProject {
            name: "Continuum".into(),
            root_path: root("code/continuum"),
            project_id: None,
        },
        ContextAction::SetToggle {
            name: ToggleName::Files,
            value: false,
        },
        ContextAction::Pin {
            field: SessionField::Task,
            value: Some("ship C5".into()),
        },
        ContextAction::NotThisProject {
            project_id: "continuum".into(),
            match_process: Some("chrome.exe".into()),
            match_title_substring: None,
        },
        ContextAction::Correct {
            field: SessionField::Goal,
            value: "close Plan C".into(),
            match_process: None,
            match_title_substring: None,
        },
        ContextAction::RecordUserCommand {
            text: "finish the context engine".into(),
        },
    ];
    let intents: Vec<ContextIntent> = actions.iter().cloned().map(ContextIntent::new).collect();
    let mut drainer = IntentDrainer::new();
    let drained = drainer.drain(intents.clone());
    assert_eq!(drained.len(), actions.len(), "every file drained");
    for intent in &drained {
        let outcome = h.apply_intent(intent);
        assert!(outcome.applied, "{outcome:?}");
    }
    assert_eq!(h.projects[0].id, "continuum");
    assert!(h.off.contains(&ToggleName::Files));
    assert_eq!(h.pins.len(), 1);
    assert_eq!(h.rules.len(), 1);
    assert_eq!(
        h.session.snapshot().current_goal.as_deref(),
        Some("close Plan C")
    );
    assert_eq!(
        h.session
            .snapshot()
            .last_user_command
            .as_ref()
            .map(|command| command.text.as_str()),
        Some("finish the context engine")
    );
    assert_eq!(h.config.len(), 1);
    assert_eq!(h.audit.len(), actions.len());
    assert!(drainer.drain(intents).is_empty());
}

#[test]
fn every_applied_intent_writes_one_well_formed_audit_line() {
    let mut h = Harness::new();
    h.apply(ContextAction::SetToggle {
        name: ToggleName::Screen,
        value: false,
    });
    h.apply(ContextAction::Correct {
        field: SessionField::Task,
        value: "ship it".into(),
        match_process: None,
        match_title_substring: None,
    });
    h.apply(ContextAction::Forget {
        raw_reference: None,
        event_id: None,
    });
    assert_eq!(h.audit.len(), 3, "one line per intent, failures too");
    let kinds: Vec<&str> = h.audit.iter().map(|e| e.kind).collect();
    assert_eq!(kinds, vec!["toggle_change", "correction", "deletion"]);
    for entry in &h.audit {
        assert!(!entry.summary.is_empty());
        assert!(detail(&entry.details, "intent").is_some());
        assert!(detail(&entry.details, "intent_id").is_some());
        assert!(detail(&entry.details, "applied").is_some());
    }
    assert_eq!(
        detail(&h.audit[2].details, "applied"),
        Some(&DetailValue::Flag(false))
    );
}
