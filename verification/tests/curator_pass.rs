use continuum_core::curator::conflict::Verdict;
use continuum_core::curator::conflict_pass::{ConflictAction, ConflictAnswer, ConflictPass};
use continuum_core::curator::extract::{
    is_duplicate, CandidateJson, CuratorConfig, DEFAULT_IMPORTANCE,
};
use continuum_core::curator::pass::{ExtractPass, PassAction, PassAnswer};
use continuum_core::curator::run::{
    curator_tick, flush_due_sessions, observe_session_boundary, ActivitySignal, ExtractOutcome,
    Progress, PROMPT_CHAR_BUDGET,
};
use continuum_core::curator::scan::{json_attempts, Shape};
use continuum_core::curator::schedule::{CuratorLoop, TickStep};
use continuum_core::curator::session::{write_session_summary, EndedSession, SessionTracker};
use continuum_core::curator::status::CuratorStatus;
use continuum_core::curator::summary::{
    SummaryAction, SummaryAnswer, SummaryOutcome, SummaryPass,
};
use continuum_core::note::{
    Event, NewEvent, NodeStatus, NodeSummary, NodeType, Note, NoteDraft, Sensitivity, Source,
};
use continuum_core::time::Timestamp;
use serde_json::Value;

const EXTRACT: &str = "max {{MAX}}\n{{EVENTS}}\nKNOWN\n{{RELATED}}\n";
const CONFLICT: &str = "OLD\n{{OLD}}\nNEW\n{{NEW}}\n";
const SESSION: &str = "{{START}} {{END}} {{PROCESS}} {{PROJECT}}\n{{EVENTS}}\n";

fn minutes(n: i64) -> i64 {
    n * 60_000_000_000
}

/// 2026-01-01 09:00 UTC.
fn base_ts() -> Timestamp {
    Timestamp {
        nanos: 1_767_258_000_000_000_000,
    }
}

fn plus(t: Timestamp, nanos: i64) -> Timestamp {
    Timestamp {
        nanos: t.nanos + nanos,
    }
}

fn cfg() -> CuratorConfig {
    CuratorConfig {
        enabled: true,
        interval_minutes: 10,
        max_candidates_per_pass: 5,
        discard_floor: 400_000,
        auto_confirm_threshold: 850_000,
        session_min_minutes: 5,
        session_summary_idle_minutes: 20,
    }
}

/// A vault in memory.
#[derive(Default)]
struct Vault {
    notes: Vec<(Note, NodeStatus)>,
    events: Vec<Event>,
    appended: Vec<NewEvent>,
    broken: Option<NodeType>,
}

impl Vault {
    fn append_event(&mut self, text: &str) {
        let id = self.events.len() as i64 + 1;
        self.events.push(Event {
            id,
            ts: "2026-01-01T09:00:00+00:00".to_string(),
            kind: "distilled".to_string(),
            text: text.to_string(),
        });
    }

    fn events_since(&self, since_id: i64, limit: u32) -> Vec<Event> {
        self.events
            .iter()
            .filter(|e| e.id > since_id)
            .take(limit as usize)
            .cloned()
            .collect()
    }

    fn create(&mut self, d: NoteDraft) -> Option<String> {
        if self.broken == Some(d.node_type) {
            return None;
        }
        let id = format!("note-{}", self.notes.len() + 1);
        let note = Note {
            id: id.clone(),
            node_type: d.node_type,
            title: d.title,
            body: d.body,
            project: d.project,
            created: base_ts(),
            relations: d.relations,
        };
        self.notes.push((note, d.status));
        Some(id)
    }

    fn get(&self, id: &str) -> Option<&Note> {
        self.notes.iter().map(|(n, _)| n).find(|n| n.id == id)
    }

    fn search(&self, query: &str, limit: usize) -> Vec<NodeSummary> {
        let query = query.to_lowercase();
        let words: Vec<&str> = query.split_whitespace().collect();
        self.notes
            .iter()
            .filter(|(n, _)| {
                let text = format!("{} {}", n.title, n.body).to_lowercase();
                words.iter().any(|w| text.contains(w))
            })
            .take(limit)
            .map(|(n, status)| NodeSummary {
                id: n.id.clone(),
                node_type: n.node_type,
                title: n.title.clone(),
                project: n.project.clone(),
                status: *status,
                snippet: None,
            })
            .collect()
    }

    fn pending(&self) -> usize {
        self.notes
            .iter()
            .filter(|(_, s)| *s == NodeStatus::Candidate)
            .count()
    }
}

/// A model that gives the replies of a script, and nothing after them.
struct Model {
    script: Vec<String>,
    prompts: Vec<String>,
}

impl Model {
    fn scripted(replies: &[&str]) -> Self {
        Model {
            script: replies.iter().rev().map(|s| s.to_string()).collect(),
            prompts: Vec::new(),
        }
    }

    fn complete(&mut self, prompt: &str) -> Option<String> {
        self.prompts.push(prompt.to_string());
        self.script.pop()
    }
}

fn millionths(v: &Value) -> Option<i64> {
    Some((v.as_f64()? * 1_000_000.0).round() as i64)
}

fn candidate(v: &Value) -> Result<CandidateJson, String> {
    let text = |key: &str| v.get(key).and_then(Value::as_str).map(str::to_string);
    let need = |key: &str| text(key).ok_or(format!("missing field `{key}`"));
    Ok(CandidateJson {
        kind: need("type")?,
        title: need("title")?,
        body: need("body")?,
        project: text("project"),
        confidence: v
            .get("confidence")
            .and_then(millionths)
            .ok_or("missing field `confidence`")?,
        importance: DEFAULT_IMPORTANCE,
        source: text("source"),
        relations: vec![],
        tags: vec![],
    })
}

fn read_candidates(slice: &str) -> Result<Vec<CandidateJson>, String> {
    let v: Value = serde_json::from_str(slice).map_err(|e| e.to_string())?;
    v.as_array()
        .ok_or("not a list")?
        .iter()
        .map(candidate)
        .collect()
}

fn read_verdict(slice: &str) -> Result<Verdict, String> {
    let v: Value = serde_json::from_str(slice).map_err(|e| e.to_string())?;
    Ok(Verdict {
        verdict: v
            .get("verdict")
            .and_then(Value::as_str)
            .ok_or("missing field `verdict`")?
            .to_string(),
        confidence: v
            .get("confidence")
            .and_then(millionths)
            .ok_or("missing field `confidence`")?,
        reason: String::new(),
    })
}

fn run_pass(
    vault: &mut Vault,
    model: &mut Model,
    cfg: &CuratorConfig,
    since_id: i64,
) -> Option<ExtractOutcome> {
    let mut pass = ExtractPass::begin(EXTRACT, *cfg, since_id);
    loop {
        let answer = match pass.action() {
            PassAction::FetchEvents { since_id, limit } => {
                assert_eq!(limit, 200);
                PassAnswer::Events(vault.events_since(since_id, limit))
            }
            PassAction::Search { query, limit } => PassAnswer::Found(vault.search(&query, limit)),
            PassAction::Ask { prompt, max_tokens } => {
                assert_eq!(max_tokens, 1024);
                match model.complete(&prompt) {
                    Some(raw) => PassAnswer::Replied {
                        readings: json_attempts(&raw, Shape::Array)
                            .iter()
                            .filter_map(|a| a.text.as_deref())
                            .map(read_candidates)
                            .collect(),
                        raw,
                    },
                    None => PassAnswer::Failed,
                }
            }
            PassAction::Write(draft) => match vault.create(draft) {
                Some(id) => PassAnswer::Written(id),
                None => PassAnswer::Failed,
            },
            PassAction::Finished(outcome) => return outcome,
        };
        pass = pass.settle(answer);
    }
}

fn detect_conflicts(vault: &mut Vault, model: &mut Model, ids: &[String]) -> usize {
    let mut pass = ConflictPass::begin(CONFLICT, ids.to_vec());
    loop {
        let answer = match pass.action() {
            ConflictAction::Load(id) => match vault.get(&id) {
                Some(n) => ConflictAnswer::Loaded(n.clone()),
                None => ConflictAnswer::Failed,
            },
            ConflictAction::Search { query, limit } => {
                assert_eq!(limit, 5);
                ConflictAnswer::Found(vault.search(&query, limit))
            }
            ConflictAction::Ask { prompt, max_tokens } => {
                assert_eq!(max_tokens, 256);
                match model.complete(&prompt) {
                    Some(raw) => ConflictAnswer::Replied {
                        readings: json_attempts(&raw, Shape::Object)
                            .iter()
                            .filter_map(|a| a.text.as_deref())
                            .map(read_verdict)
                            .collect(),
                        raw,
                    },
                    None => ConflictAnswer::Failed,
                }
            }
            ConflictAction::Save(note) => {
                let slot = vault.notes.iter_mut().find(|(n, _)| n.id == note.id);
                match slot {
                    Some((n, _)) => {
                        *n = note;
                        ConflictAnswer::Saved
                    }
                    None => ConflictAnswer::Failed,
                }
            }
            ConflictAction::Finished(n) => return n,
        };
        pass = pass.settle(answer);
    }
}

// ---------------------------------------------------------------------------
// Conflicts
// ---------------------------------------------------------------------------

fn decision_draft(title: &str, body: &str, status: NodeStatus) -> NoteDraft {
    NoteDraft {
        node_type: NodeType::Decision,
        title: title.to_string(),
        body: body.to_string(),
        project: None,
        status,
        confidence: 900_000,
        importance: 500_000,
        source: Source::Observed,
        source_ref: None,
        sensitivity: Sensitivity::Normal,
        expires: None,
        relations: vec![],
        tags: vec![],
    }
}

/// A vault with an old decision and a new one; their ids.
fn two_decisions() -> (Vault, String, String) {
    let mut vault = Vault::default();
    let old = vault
        .create(decision_draft(
            "Use MongoDB",
            "We use MongoDB for the primary datastore; PostgreSQL was considered too.",
            NodeStatus::Confirmed,
        ))
        .unwrap();
    let new = vault
        .create(decision_draft(
            "Use PostgreSQL",
            "switching db to PostgreSQL for better relational guarantees",
            NodeStatus::Candidate,
        ))
        .unwrap();
    (vault, old, new)
}

#[test]
fn supersede_verdict_creates_proposal_relation() {
    let (mut vault, old, new) = two_decisions();
    let before = vault.get(&old).unwrap().clone();
    let mut llm = Model::scripted(&[
        r#"{"verdict":"supersedes","confidence":0.9,"reason":"newer db decision"}"#,
    ]);
    let n = detect_conflicts(&mut vault, &mut llm, &[new.clone()]);
    assert_eq!(n, 1);
    let refreshed = vault.get(&new).unwrap();
    assert!(refreshed
        .relations
        .iter()
        .any(|r| r.rel == "proposes_supersede" && r.to == old));
    assert_eq!(vault.get(&old).unwrap(), &before);
    assert_eq!(vault.notes[0].1, NodeStatus::Confirmed);
}

#[test]
fn unrelated_verdict_creates_nothing() {
    let (mut vault, _old, new) = two_decisions();
    let mut llm = Model::scripted(&[
        r#"{"verdict":"unrelated","confidence":0.9,"reason":"different databases, no overlap"}"#,
    ]);
    let n = detect_conflicts(&mut vault, &mut llm, &[new.clone()]);
    assert_eq!(n, 0);
    assert!(vault.get(&new).unwrap().relations.is_empty());
    assert_eq!(vault.notes[0].1, NodeStatus::Confirmed);
}

#[test]
fn parse_error_retries_once_then_still_creates_proposal() {
    let (mut vault, old, new) = two_decisions();
    let mut llm = Model::scripted(&[
        "not json",
        r#"{"verdict":"supersedes","confidence":0.8,"reason":"newer db decision"}"#,
    ]);
    let n = detect_conflicts(&mut vault, &mut llm, &[new.clone()]);
    assert_eq!(n, 1);
    assert_eq!(llm.prompts.len(), 2);
    assert_eq!(
        llm.prompts[1],
        format!(
            "{}\n\nYour previous reply was invalid: no JSON object found in curator verdict \
             output: \"not json\". Reply with ONLY the JSON object.",
            llm.prompts[0]
        )
    );
    let refreshed = vault.get(&new).unwrap();
    assert!(refreshed
        .relations
        .iter()
        .any(|r| r.rel == "proposes_supersede" && r.to == old));
}

#[test]
fn a_second_look_at_the_same_pair_asks_nothing() {
    let (mut vault, _old, new) = two_decisions();
    let verdict = r#"{"verdict":"contradicts","confidence":0.5}"#;
    assert_eq!(
        detect_conflicts(&mut vault, &mut Model::scripted(&[verdict]), &[new.clone()]),
        1
    );
    let mut llm = Model::scripted(&[verdict]);
    assert_eq!(detect_conflicts(&mut vault, &mut llm, &[new.clone()]), 0);
    assert!(llm.prompts.is_empty());
    assert_eq!(vault.get(&new).unwrap().relations.len(), 1);
}

#[test]
fn a_note_that_cannot_be_loaded_does_not_stop_the_others() {
    let (mut vault, _old, new) = two_decisions();
    let mut llm = Model::scripted(&[r#"{"verdict":"supersedes","confidence":0.9}"#]);
    let ids = ["gone".to_string(), new];
    assert_eq!(detect_conflicts(&mut vault, &mut llm, &ids), 1);
    assert_eq!(detect_conflicts(&mut vault, &mut llm, &[]), 0);
}

#[test]
fn a_pair_without_an_answer_is_passed_over() {
    let (mut vault, _old, new) = two_decisions();
    let mut llm = Model::scripted(&[]);
    assert_eq!(detect_conflicts(&mut vault, &mut llm, &[new.clone()]), 0);
    assert_eq!(llm.prompts.len(), 1);
    let mut llm = Model::scripted(&["no", "still no", "never asked for"]);
    assert_eq!(detect_conflicts(&mut vault, &mut llm, &[new]), 0);
    assert_eq!(llm.prompts.len(), 2);
}

// ---------------------------------------------------------------------------
// Passes
// ---------------------------------------------------------------------------

#[test]
fn is_duplicate_matches_rejected_notes_too() {
    let mut vault = Vault::default();
    let mut d = decision_draft("Prefers PNPM", "uses pnpm over npm", NodeStatus::Rejected);
    d.node_type = NodeType::Fact;
    vault.create(d).unwrap();
    assert!(is_duplicate(&vault.search("prefers pnpm", 5), "prefers pnpm"));
    assert!(!is_duplicate(&vault.search("totally new idea", 5), "totally new idea"));
}

#[test]
fn extract_pass_writes_routed_candidates() {
    let mut vault = Vault::default();
    vault.append_event("User said they prefer pnpm over npm");
    let mut llm = Model::scripted(&[
        r#"[{"type":"preference","title":"Prefers pnpm over npm","body":"Stated in terminal.","confidence":0.9,"source":"user_statement"},
            {"type":"fact","title":"Maybe uses Unity","body":"Seen once.","confidence":0.5,"source":"inferred"},
            {"type":"fact","title":"Noise","body":"x","confidence":0.2,"source":"observed"}]"#,
    ]);
    let outcome = run_pass(&mut vault, &mut llm, &cfg(), 0).unwrap();
    assert_eq!(outcome.created_ids.len(), 2);
    assert!(outcome.llm_reachable);
    assert!(outcome.max_id_seen.is_some());
    assert_eq!(vault.pending(), 1);
    assert!(vault
        .search("pnpm", 5)
        .iter()
        .any(|h| h.status == NodeStatus::Confirmed));

    let mut llm2 = Model::scripted(&[
        r#"[{"type":"preference","title":"Prefers pnpm over npm","body":"again","confidence":0.9,"source":"user_statement"}]"#,
    ]);
    let outcome2 = run_pass(&mut vault, &mut llm2, &cfg(), 0).unwrap();
    assert_eq!(outcome2.created_ids.len(), 0);
}

#[test]
fn extract_pass_retries_once_then_skips() {
    let mut vault = Vault::default();
    vault.append_event("Something happened");
    let mut llm = Model::scripted(&["not json", "still not json"]);
    let outcome = run_pass(&mut vault, &mut llm, &cfg(), 0).unwrap();
    assert_eq!(outcome.created_ids.len(), 0);
    assert!(outcome.llm_reachable);
    assert!(outcome.max_id_seen.is_some());
    assert_eq!(llm.prompts.len(), 2);
}

#[test]
fn extract_pass_retry_prompt_is_same_prompt_plus_suffix_once() {
    let mut vault = Vault::default();
    vault.append_event("Something worth remembering happened here");
    let mut llm = Model::scripted(&[
        "not json",
        r#"[{"type":"fact","title":"T","body":"b","confidence":0.9,"source":"observed"}]"#,
    ]);
    let outcome = run_pass(&mut vault, &mut llm, &cfg(), 0).unwrap();
    assert_eq!(outcome.created_ids.len(), 1);
    let prompts = llm.prompts;
    assert_eq!(prompts.len(), 2);
    let suffix = "Your previous reply was invalid:";
    assert!(prompts[1].starts_with(&prompts[0]));
    assert_eq!(prompts[1].matches(suffix).count(), 1);
    assert!(!prompts[0].contains(suffix));
}

#[test]
fn extract_pass_budgets_a_200_event_fixture_under_the_prompt_char_budget() {
    let mut vault = Vault::default();
    for i in 0..200 {
        vault.append_event(&format!(
            "Event {i}: {}",
            "a very long descriptive sentence about what happened ".repeat(5)
        ));
    }
    let mut llm = Model::scripted(&["[]"]);
    let outcome = run_pass(&mut vault, &mut llm, &cfg(), 0).unwrap();
    assert_eq!(outcome.created_ids.len(), 0);
    assert!(outcome.llm_reachable);
    assert_eq!(outcome.max_id_seen, Some(200));
    let prompts = llm.prompts;
    assert_eq!(prompts.len(), 1);
    assert!(
        prompts[0].len() <= PROMPT_CHAR_BUDGET,
        "prompt was {} chars, budget is {PROMPT_CHAR_BUDGET}",
        prompts[0].len()
    );
}

#[test]
fn extract_pass_contains_per_candidate_write_errors() {
    let mut vault = Vault::default();
    vault.append_event("Two candidates, one whose vault write will fail");
    vault.broken = Some(NodeType::Fact);
    let mut llm = Model::scripted(&[
        r#"[{"type":"fact","title":"Will fail to write","body":"b","confidence":0.9,"source":"user_statement"},
            {"type":"preference","title":"Will write fine","body":"b","confidence":0.9,"source":"user_statement"}]"#,
    ]);
    let outcome = run_pass(&mut vault, &mut llm, &cfg(), 0).unwrap();
    assert_eq!(outcome.created_ids.len(), 1);
    let hits = vault.search("write fine", 5);
    assert!(hits.iter().any(|h| h.title == "Will write fine"));
}

#[test]
fn only_so_many_proposals_are_looked_at() {
    let mut vault = Vault::default();
    vault.append_event("much to remember");
    let one = |i: u32| {
        format!(r#"{{"type":"fact","title":"Number {i}","body":"b{i}","confidence":0.9}}"#)
    };
    let all: Vec<String> = (0..7).map(one).collect();
    let mut llm = Model::scripted(&[&format!("[{}]", all.join(","))]);
    let outcome = run_pass(&mut vault, &mut llm, &cfg(), 0).unwrap();
    assert_eq!(
        outcome.created_ids,
        vec!["note-1", "note-2", "note-3", "note-4", "note-5"]
    );
    assert_eq!(vault.notes[4].0.title, "Number 4");
}

#[test]
fn a_pass_without_events_asks_nothing() {
    let mut vault = Vault::default();
    let mut llm = Model::scripted(&["[]"]);
    let outcome = run_pass(&mut vault, &mut llm, &cfg(), 0).unwrap();
    assert_eq!(outcome.max_id_seen, None);
    assert!(outcome.llm_reachable);
    assert!(llm.prompts.is_empty());
}

#[test]
fn failures_of_a_pass_come_to_the_right_outcome() {
    // No events: no outcome at all.
    let pass = ExtractPass::begin(EXTRACT, cfg(), 3);
    assert_eq!(
        pass.action(),
        PassAction::FetchEvents {
            since_id: 3,
            limit: 200
        }
    );
    let pass = pass.settle(PassAnswer::Failed);
    assert_eq!(pass.action(), PassAction::Finished(None));

    // No related notes: what was seen is known.
    let mut vault = Vault::default();
    vault.append_event("one");
    vault.append_event("two");
    let pass = ExtractPass::begin(EXTRACT, cfg(), 0);
    let pass = pass.settle(PassAnswer::Events(vault.events_since(0, 200)));
    assert_eq!(
        pass.action(),
        PassAction::Search {
            query: "one two".to_string(),
            limit: 8
        }
    );
    let pass = pass.settle(PassAnswer::Failed);
    assert_eq!(
        pass.action(),
        PassAction::Finished(Some(ExtractOutcome {
            created_ids: vec![],
            max_id_seen: Some(2),
            llm_reachable: false,
        }))
    );

    // Blank events: nothing is searched for.
    let mut vault = Vault::default();
    vault.append_event("  ");
    let pass = ExtractPass::begin("{{MAX}}|{{EVENTS}}|{{RELATED}}", cfg(), 0);
    let pass = pass.settle(PassAnswer::Events(vault.events_since(0, 200)));
    assert_eq!(
        pass.action(),
        PassAction::Ask {
            prompt: "5|09:00 distilled —   |".to_string(),
            max_tokens: 1024
        }
    );
}

#[test]
fn curator_tick_skips_window_after_three_consecutive_failures() {
    let mut vault = Vault::default();
    vault.append_event("Something happened");
    let mut llm = Model::scripted(&[]);
    let mut status = CuratorStatus::default();
    let mut progress = Progress {
        watermark: 0,
        window_failures: 0,
    };
    let mut tick = |vault: &mut Vault, progress: &mut Progress, status: &mut CuratorStatus| {
        let outcome = run_pass(vault, &mut llm, &cfg(), progress.watermark);
        let pending = Some(vault.pending() as u64);
        curator_tick(progress, status, &outcome, pending, base_ts());
    };

    tick(&mut vault, &mut progress, &mut status);
    assert_eq!(progress.watermark, 0);
    assert_eq!(progress.window_failures, 1);

    tick(&mut vault, &mut progress, &mut status);
    assert_eq!(progress.watermark, 0);
    assert_eq!(progress.window_failures, 2);
    assert_eq!(status.consecutive_failures, 2);

    tick(&mut vault, &mut progress, &mut status);
    assert!(progress.watermark > 0);
    assert_eq!(progress.window_failures, 0);
    assert_eq!(status.consecutive_failures, 3);

    tick(&mut vault, &mut progress, &mut status);
    assert_eq!(progress.window_failures, 0);
    assert_eq!(status.consecutive_failures, 0);
}

// ---------------------------------------------------------------------------
// Sessions
// ---------------------------------------------------------------------------

fn signal(process: &str, ts: Timestamp) -> ActivitySignal {
    ActivitySignal {
        project_hint: None,
        process: process.to_string(),
        idle_seconds: 0,
        ts: Some(ts),
    }
}

/// Sums up a session. Returns the id of its note, if there is one.
fn sum_up(vault: &mut Vault, model: &mut Model, ended: &EndedSession) -> Option<String> {
    let mut pass = SummaryPass::begin(SESSION, ended.clone());
    loop {
        let answer = match pass.action() {
            SummaryAction::FetchEvents {
                since,
                until,
                limit,
            } => {
                assert_eq!((since, until, limit), (ended.started, ended.ended, 300));
                SummaryAnswer::Events(vault.events_since(0, limit))
            }
            SummaryAction::Ask { prompt, .. } => match model.complete(&prompt) {
                Some(raw) => SummaryAnswer::Replied(raw),
                None => SummaryAnswer::Failed,
            },
            SummaryAction::Write(draft) => {
                let title = draft.title.clone();
                match vault.create(draft) {
                    Some(id) => SummaryAnswer::Written { id, title },
                    None => SummaryAnswer::Failed,
                }
            }
            SummaryAction::Append(event) => {
                vault.append_event(&event.text);
                vault.events.last_mut().unwrap().kind = event.kind.clone();
                vault.appended.push(event);
                SummaryAnswer::Appended
            }
            SummaryAction::Finished(SummaryOutcome::Written(id)) => return Some(id),
            SummaryAction::Finished(_) => return None,
        };
        pass = pass.settle(answer);
    }
}

#[test]
fn session_boundary_write_is_delayed_until_lag_elapses() {
    let mut vault = Vault::default();
    let started = base_ts();
    let ended_ts = plus(started, minutes(30));
    for text in ["one", "two", "three"] {
        vault.append_event(text);
    }
    let mut tracker = SessionTracker::new();
    let mut pending_sessions: Vec<EndedSession> = Vec::new();
    let idle_limit_min = 45;

    let sig0 = signal("vscode", started);
    observe_session_boundary(&mut tracker, &mut pending_sessions, &sig0, idle_limit_min);
    assert!(pending_sessions.is_empty());

    let sig1 = signal("vscode", ended_ts);
    observe_session_boundary(&mut tracker, &mut pending_sessions, &sig1, idle_limit_min);
    assert!(pending_sessions.is_empty());

    let sig2 = signal("chrome", plus(ended_ts, 10_000_000_000));
    observe_session_boundary(&mut tracker, &mut pending_sessions, &sig2, idle_limit_min);
    assert_eq!(pending_sessions.len(), 1);
    assert_eq!(pending_sessions[0].ended, ended_ts);
    assert_eq!(vault.notes.len(), 0);

    let due = flush_due_sessions(&mut pending_sessions, 16, ended_ts);
    assert!(due.is_empty());
    assert_eq!(
        pending_sessions.len(),
        1,
        "still queued before the lag elapses"
    );
    assert_eq!(vault.notes.len(), 0);

    let summary_md = "## Goal\nX\n## Changed\n- none\n## Problem\nnone\n## Tried\n\u{2013}\n## Result\nDone\n## Next step\nnone";
    let mut llm = Model::scripted(&[summary_md]);
    for ended in flush_due_sessions(&mut pending_sessions, 16, plus(ended_ts, minutes(16))) {
        sum_up(&mut vault, &mut llm, &ended);
    }
    assert!(pending_sessions.is_empty());
    assert_eq!(vault.notes.len(), 1);
}

#[test]
fn write_session_summary_happy_path_creates_confirmed_session_note() {
    let started = base_ts();
    let ended = EndedSession {
        started,
        ended: plus(started, minutes(30)),
        project_hint: Some("continuum".to_string()),
        process: "Code.exe".to_string(),
    };
    let summary_md = "## Goal\nFix curator bug\n## Changed\n- curator/session.rs\n\
         ## Problem\nnone\n## Tried\n\u{2013}\n## Result\nDone\n## Next step\nShip it";
    let note = write_session_summary(&ended, summary_md).expect("should create a note");
    assert_eq!(note.node_type, NodeType::Session);
    assert_eq!(note.status, NodeStatus::Confirmed);
    assert_eq!(note.source, Source::Observed);
    assert_eq!(note.title, "Session: Code.exe — 2026-01-01 09:30");
    assert!(note.body.starts_with(summary_md), "{}", note.body);
    assert!(note.body.ends_with("open_task: Ship it"), "{}", note.body);
    assert_eq!(note.project.as_deref(), Some("continuum"));
    assert!(note
        .relations
        .iter()
        .any(|r| r.to == "continuum" && r.rel == "belongs_to"));

    let mut vault = Vault::default();
    for text in ["Opened continuum-core", "Fixed a bug in curator", "Ran tests"] {
        vault.append_event(text);
    }
    let mut llm = Model::scripted(&[summary_md]);
    assert!(sum_up(&mut vault, &mut llm, &ended).is_some());
    assert_eq!(llm.prompts.len(), 1);
}

#[test]
fn write_session_summary_appends_timeline_event_with_node_id() {
    let mut vault = Vault::default();
    for text in ["Opened continuum-core", "Fixed a bug", "Ran tests"] {
        vault.append_event(text);
    }
    let started = base_ts();
    let ended = EndedSession {
        started,
        ended: plus(started, minutes(30)),
        project_hint: Some("continuum".to_string()),
        process: "Code.exe".to_string(),
    };
    let summary_md = "## Goal\nX\n## Changed\n- none\n## Problem\nnone\n## Tried\n\u{2013}\n## Result\nDone\n## Next step\nnone";
    let mut llm = Model::scripted(&[summary_md]);
    let id = sum_up(&mut vault, &mut llm, &ended).expect("should create a note");
    let on_timeline = vault
        .events
        .iter()
        .find(|e| e.kind == "session")
        .expect("a session-kind timeline event should have been appended");
    assert_eq!(on_timeline.text, "Session: Code.exe — 2026-01-01 09:30");
    let event = &vault.appended[0];
    assert_eq!(event.node_id.as_deref(), Some(id.as_str()));
    assert_eq!(event.project.as_deref(), Some("continuum"));
}

#[test]
fn write_session_summary_without_project_hint_has_no_relation() {
    let started = base_ts();
    let ended = EndedSession {
        started,
        ended: plus(started, minutes(15)),
        project_hint: None,
        process: "explorer.exe".to_string(),
    };
    let summary_md = "## Goal\nBrowse files\n## Changed\n- none\n## Problem\nnone\n\
         ## Tried\n\u{2013}\n## Result\nDone\n## Next step\nnone";
    let note = write_session_summary(&ended, summary_md).expect("should create a note");
    assert!(note.relations.is_empty());
    assert_eq!(note.project, None);
}

#[test]
fn write_session_summary_skip_reply_returns_none_and_creates_no_note() {
    let mut vault = Vault::default();
    for _ in 0..3 {
        vault.append_event("idle event");
    }
    let started = base_ts();
    let ended = EndedSession {
        started,
        ended: plus(started, minutes(15)),
        project_hint: None,
        process: "explorer.exe".to_string(),
    };
    let mut llm = Model::scripted(&["  SKIP  \n"]);
    assert!(sum_up(&mut vault, &mut llm, &ended).is_none());
    assert_eq!(llm.prompts.len(), 1);
    assert_eq!(vault.notes.len(), 0);
}

#[test]
fn write_session_summary_normalizes_the_open_task_trailer() {
    for (reply, expected_tail) in [
        (
            "## Goal\nX\n## Next step\nrun the gates\n\nopen_task: finish the packager",
            "open_task: finish the packager",
        ),
        (
            "## Goal\nX\n- **open_task:** finish the packager\n## Result\nok",
            "open_task: finish the packager",
        ),
        (
            "## Goal\nX\n## Next step\nrun the gates",
            "open_task: run the gates",
        ),
        ("## Goal\nX\n## Next step\nnone", "open_task: none"),
    ] {
        let started = base_ts();
        let ended = EndedSession {
            started,
            ended: plus(started, minutes(20)),
            project_hint: None,
            process: "Code.exe".to_string(),
        };
        let note = write_session_summary(&ended, reply).expect("should create a note");
        assert!(
            note.body.trim_end().ends_with(expected_tail),
            "reply {reply:?} produced body {:?}",
            note.body
        );
        assert_eq!(
            note.body.matches("open_task:").count(),
            1,
            "exactly one trailer line, body {:?}",
            note.body
        );
    }
}

#[test]
fn write_session_summary_too_few_events_skips_without_calling_llm() {
    let mut vault = Vault::default();
    vault.append_event("one");
    vault.append_event("two");
    let started = base_ts();
    let ended = EndedSession {
        started,
        ended: plus(started, minutes(10)),
        project_hint: None,
        process: "explorer.exe".to_string(),
    };
    let mut llm = Model::scripted(&[]);
    assert!(sum_up(&mut vault, &mut llm, &ended).is_none());
    assert_eq!(llm.prompts.len(), 0);
    assert_eq!(vault.notes.len(), 0);
}

#[test]
fn a_written_summary_counts_without_its_event() {
    let ended = EndedSession {
        started: base_ts(),
        ended: plus(base_ts(), minutes(20)),
        project_hint: None,
        process: "Code.exe".to_string(),
    };
    let mut vault = Vault::default();
    for text in ["one", "two", "three"] {
        vault.append_event(text);
    }
    let pass = SummaryPass::begin(SESSION, ended);
    let pass = pass.settle(SummaryAnswer::Events(vault.events_since(0, 300)));
    assert_eq!(
        pass.action(),
        SummaryAction::Ask {
            prompt: "2026-01-01T09:00:00+00:00 2026-01-01T09:20:00+00:00 Code.exe none\n\
                     09:00 distilled — one\n09:00 distilled — two\n09:00 distilled — three\n"
                .to_string(),
            max_tokens: 256,
        }
    );
    let pass = pass.settle(SummaryAnswer::Replied("## Goal\nX".to_string()));
    let pass = pass.settle(SummaryAnswer::Written {
        id: "n7".to_string(),
        title: "t".to_string(),
    });
    let pass = pass.settle(SummaryAnswer::Failed);
    assert_eq!(
        pass.action(),
        SummaryAction::Finished(SummaryOutcome::Written("n7".to_string()))
    );
}

// ---------------------------------------------------------------------------
// The loop
// ---------------------------------------------------------------------------

#[test]
fn a_tick_deletes_first_and_keeps_house_once_a_day() {
    let mut state = CuratorLoop::new(cfg(), 30, 16);
    assert!(state.is_enabled());
    assert_eq!(state.period_seconds(), 600);
    assert_eq!(
        state.begin_tick(7),
        vec![
            TickStep::DrainWipeRequest,
            TickStep::SweepExpired,
            TickStep::PruneEvents { keep_days: 30 },
            TickStep::DrainWipeRequest,
            TickStep::Extract { since_id: 0 },
        ]
    );
    assert_eq!(
        state.begin_tick(7),
        vec![TickStep::DrainWipeRequest, TickStep::Extract { since_id: 0 }]
    );
    assert_eq!(state.begin_tick(8).len(), 5);
}

#[test]
fn a_tick_moves_on_and_hands_out_sessions_that_are_due() {
    let mut state = CuratorLoop::new(cfg(), 30, 16);
    let mut status = CuratorStatus::default();
    let t0 = base_ts();
    state.on_signal(&signal("vscode", t0));
    state.on_signal(&signal("vscode", plus(t0, minutes(10))));
    state.on_signal(&signal("chrome", plus(t0, minutes(11))));
    let outcome = Some(ExtractOutcome {
        created_ids: vec!["n".to_string()],
        max_id_seen: Some(9),
        llm_reachable: true,
    });
    let late = signal("chrome", plus(t0, minutes(12)));
    let due = state.end_tick(&mut status, &outcome, Some(4), &late, plus(t0, minutes(25)));
    assert!(due.is_empty());
    assert_eq!(status.candidates_written_total, 1);
    assert_eq!(status.pending_count, 4);
    assert_eq!(
        state.begin_tick(1).last(),
        Some(&TickStep::Extract { since_id: 9 })
    );
    let due = state.end_tick(&mut status, &None, None, &late, plus(t0, minutes(26)));
    assert_eq!(due.len(), 1);
    assert_eq!(due[0].process, "vscode");
    assert_eq!(due[0].ended, plus(t0, minutes(10)));
    assert_eq!(status.consecutive_failures, 1);
}
