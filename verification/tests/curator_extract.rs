use continuum_core::curator::extract::{
    candidate_to_draft, is_duplicate, normalize_title, route_candidate, write_candidate,
    CandidateJson, CuratorConfig, RelationJson, DEFAULT_IMPORTANCE, DEFAULT_RELATION_CONFIDENCE,
};
use continuum_core::curator::scan::{
    json_attempts, matching_brace_end, matching_bracket_end, Shape,
};
use continuum_core::note::{NodeStatus, NodeSummary, NodeType, Source};
use serde_json::Value;

fn millionths(v: &Value) -> i64 {
    (v.as_f64().unwrap_or(0.0) * 1_000_000.0).round() as i64
}

fn text(v: &Value, key: &str) -> Result<String, String> {
    match v.get(key).and_then(Value::as_str) {
        Some(s) => Ok(s.to_string()),
        None => Err(format!("missing field `{key}`")),
    }
}

fn relation(v: &Value) -> Result<RelationJson, String> {
    Ok(RelationJson {
        to: text(v, "to")?,
        rel: text(v, "rel")?,
        confidence: v
            .get("confidence")
            .map(millionths)
            .unwrap_or(DEFAULT_RELATION_CONFIDENCE),
    })
}

fn candidate(v: &Value) -> Result<CandidateJson, String> {
    let list = |key: &str| v.get(key).and_then(Value::as_array).cloned().unwrap_or_default();
    Ok(CandidateJson {
        kind: text(v, "type")?,
        title: text(v, "title")?,
        body: text(v, "body")?,
        project: text(v, "project").ok(),
        confidence: v
            .get("confidence")
            .map(millionths)
            .ok_or_else(|| "missing field `confidence`".to_string())?,
        importance: v.get("importance").map(millionths).unwrap_or(DEFAULT_IMPORTANCE),
        source: text(v, "source").ok(),
        relations: list("relations").iter().map(relation).collect::<Result<_, _>>()?,
        tags: list("tags")
            .iter()
            .filter_map(|t| t.as_str().map(str::to_string))
            .collect(),
    })
}

fn read(slice: &str) -> Result<Vec<CandidateJson>, String> {
    let value: Value = serde_json::from_str(slice).map_err(|e| e.to_string())?;
    let items = value.as_array().ok_or_else(|| "not a list".to_string())?;
    items.iter().map(candidate).collect()
}

fn parse_candidates(raw: &str) -> Result<Vec<CandidateJson>, String> {
    let readings = json_attempts(raw, Shape::Array)
        .iter()
        .filter_map(|a| a.text.as_deref())
        .map(read)
        .collect();
    continuum_core::curator::extract::parse_candidates(raw, readings)
}

fn cfg() -> CuratorConfig {
    CuratorConfig {
        enabled: true,
        interval_minutes: 10,
        max_candidates_per_pass: 5,
        discard_floor: 400_000,
        auto_confirm_threshold: 850_000,
        session_min_minutes: 5,
        session_summary_idle_minutes: 20,
    }
}

fn mk(conf: i64, source: &str) -> CandidateJson {
    CandidateJson {
        kind: "fact".into(),
        title: "T".into(),
        body: "b".into(),
        project: None,
        confidence: conf,
        importance: 500_000,
        source: Some(source.into()),
        relations: vec![],
        tags: vec![],
    }
}

#[test]
fn parse_candidates_accepts_wrapped_json() {
    let raw = "Sure! Here are the memories:\n[{\"type\":\"preference\",\"title\":\"Prefers pnpm\",\"body\":\"uses pnpm\",\"confidence\":0.7}]\nDone.";
    let c = parse_candidates(raw).unwrap();
    assert_eq!(c.len(), 1);
    assert_eq!(c[0].title, "Prefers pnpm");
    assert_eq!(c[0].importance, 500_000);
}

#[test]
fn parse_candidates_rejects_garbage() {
    assert!(parse_candidates("no json here").is_err());
    assert!(parse_candidates("[{\"title\":\"missing type\"}]").is_err());
}

#[test]
fn parse_candidates_skips_prose_bracket_before_array() {
    let raw = "Here's a note [1]:\n[{\"type\":\"fact\",\"title\":\"T\",\"body\":\"b\",\"confidence\":0.5}]";
    let c = parse_candidates(raw).unwrap();
    assert_eq!(c.len(), 1);
    assert_eq!(c[0].title, "T");
}

#[test]
fn parse_candidates_skips_prose_bracket_after_array() {
    let raw = "[{\"type\":\"fact\",\"title\":\"T\",\"body\":\"b\",\"confidence\":0.5}]\nSee [Note Two].";
    let c = parse_candidates(raw).unwrap();
    assert_eq!(c.len(), 1);
    assert_eq!(c[0].title, "T");
}

#[test]
fn parse_candidates_rejects_unknown_type() {
    let raw = r#"[{"type":"bogus","title":"T","body":"b","confidence":0.5}]"#;
    let err = parse_candidates(raw).unwrap_err();
    assert!(err.to_string().contains("unknown node type"));
}

#[test]
fn parse_candidates_rejects_blank_title() {
    let raw = r#"[{"type":"fact","title":"   ","body":"b","confidence":0.5}]"#;
    let err = parse_candidates(raw).unwrap_err();
    assert!(err.to_string().contains("blank title"));
}

#[test]
fn route_candidate_threshold_table() {
    let cfg = cfg();
    assert_eq!(
        route_candidate(&mk(900_000, "user_statement"), &cfg),
        Some(NodeStatus::Confirmed)
    );
    assert_eq!(
        route_candidate(&mk(900_000, "observed"), &cfg),
        Some(NodeStatus::Candidate)
    );
    assert_eq!(route_candidate(&mk(300_000, "observed"), &cfg), None);
    assert_eq!(
        route_candidate(&mk(600_000, "inferred"), &cfg),
        Some(NodeStatus::Candidate)
    );
}

#[test]
fn the_thresholds_are_inclusive() {
    let cfg = cfg();
    assert_eq!(
        route_candidate(&mk(850_000, "user_statement"), &cfg),
        Some(NodeStatus::Confirmed)
    );
    assert_eq!(
        route_candidate(&mk(849_999, "user_statement"), &cfg),
        Some(NodeStatus::Candidate)
    );
    assert_eq!(
        route_candidate(&mk(400_000, "observed"), &cfg),
        Some(NodeStatus::Candidate)
    );
    assert_eq!(route_candidate(&mk(399_999, "observed"), &cfg), None);
}

#[test]
fn errors_name_what_is_wrong() {
    assert_eq!(
        parse_candidates("none"),
        Err("no JSON array found in curator LLM output: \"none\"".to_string())
    );
    assert_eq!(
        parse_candidates("é[1"),
        Err("failed to parse curator candidates JSON: no matching ']' for '[' at byte offset 2 \
             (raw: \"é[1\")"
            .to_string())
    );
    assert_eq!(
        parse_candidates(r#"[{"type":"bogus","title":"T","body":"b","confidence":0.5}]"#),
        Err("candidate \"T\" has unknown node type \"bogus\"".to_string())
    );
    assert_eq!(
        parse_candidates(r#"[{"type":"fact","title":" ","body":"b","confidence":0.5}]"#),
        Err("candidate of type \"fact\" has a blank title".to_string())
    );
}

#[test]
fn brackets_in_strings_do_not_count() {
    assert_eq!(matching_bracket_end("[1, \"]\\\"]\", [2]]", 0), Some(15));
    assert_eq!(matching_bracket_end("[[1]", 0), None);
    assert_eq!(matching_bracket_end("[[1]", 1), Some(3));
    assert_eq!(matching_brace_end("x{\"a\":{}}y", 1), Some(8));
    assert_eq!(matching_brace_end("{\"}\"", 0), None);
    assert_eq!(matching_bracket_end("é[]", 2), Some(3));
    assert_eq!(matching_bracket_end("é[\"\\é]\"]", 2), Some(9));
    assert_eq!(matching_bracket_end("[]", 9), None);
    let found = json_attempts("{\"a\":1} and {", Shape::Object);
    assert_eq!(found.len(), 2);
    assert_eq!(found[0].text.as_deref(), Some("{\"a\":1}"));
    assert_eq!(found[1].text, None);
    assert_eq!(found[1].offset, 12);
}

#[test]
fn titles_are_held_against_each_other_without_punctuation_or_case() {
    assert_eq!(normalize_title("  Prefers: PNPM!  (Über) "), "prefers pnpm über");
    let hit = |title: &str, status| NodeSummary {
        id: "n".to_string(),
        node_type: NodeType::Fact,
        title: title.to_string(),
        project: None,
        status,
        snippet: None,
    };
    let hits = vec![
        hit("Other", NodeStatus::Confirmed),
        hit("Prefers PNPM", NodeStatus::Rejected),
    ];
    assert!(is_duplicate(&hits, "prefers pnpm"));
    assert!(!is_duplicate(&hits, "totally new idea"));
}

#[test]
fn a_proposal_becomes_a_note() {
    let mut c = mk(700_000, "chat");
    c.relations = vec![RelationJson {
        to: "x".into(),
        rel: "about".into(),
        confidence: 1_000_000,
    }];
    c.tags = vec!["t".into()];
    let d = candidate_to_draft(&c, NodeStatus::Candidate);
    assert_eq!(d.node_type, NodeType::Fact);
    assert_eq!(d.source, Source::Chat);
    assert_eq!(d.source_ref.as_deref(), Some("curator:extract"));
    assert_eq!(d.relations[0].to, "x");
    assert_eq!(d.tags, vec!["t".to_string()]);
    assert_eq!(
        candidate_to_draft(&mk(700_000, "hearsay"), NodeStatus::Candidate).source,
        Source::Observed
    );
}

#[test]
fn a_proposal_is_written_only_where_it_is_new() {
    let cfg = cfg();
    let c = mk(900_000, "observed");
    assert!(write_candidate(&c, Some(false), &cfg).is_some());
    assert!(write_candidate(&c, Some(true), &cfg).is_none());
    assert!(write_candidate(&c, None, &cfg).is_none());
    assert!(write_candidate(&mk(100_000, "observed"), Some(false), &cfg).is_none());
}

#[test]
fn the_key_of_a_title_is_plain_and_its_own_key() {
    for t in ["  Uses -- Rust 2021!  ", "", "...", "A\tB  c", "don't"] {
        let key = normalize_title(t);
        assert!(key.chars().all(|c| c.is_ascii_lowercase() || c.is_ascii_digit() || c == ' '));
        assert_eq!(key.trim(), key);
        assert!(!key.contains("  "));
        assert_eq!(normalize_title(&key), key);
        assert_eq!(normalize_title(&t.to_ascii_uppercase()), key);
    }
    assert_eq!(normalize_title("  Uses -- Rust 2021!  "), "uses rust 2021");
}
