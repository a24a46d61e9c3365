use continuum_core::curator::conflict::{
    already_proposed, apply_verdict, build_conflict_prompt, evaluate_pair, find_partners,
    same_project, PairStep, Verdict,
};
use continuum_core::curator::scan::{json_attempts, Shape};
use continuum_core::note::{NodeStatus, NodeSummary, NodeType, Note};
use continuum_core::time::Timestamp;
use serde_json::Value;

fn read(slice: &str) -> Result<Verdict, String> {
    let v: Value = serde_json::from_str(slice).map_err(|e| e.to_string())?;
    let verdict = v.get("verdict").and_then(Value::as_str);
    let confidence = v.get("confidence").and_then(Value::as_f64);
    Ok(Verdict {
        verdict: verdict.ok_or("missing field `verdict`")?.to_string(),
        confidence: (confidence.ok_or("missing field `confidence`")? * 1_000_000.0).round() as i64,
        reason: v.get("reason").and_then(Value::as_str).unwrap_or("").to_string(),
    })
}

fn parse_verdict(raw: &str) -> Result<Verdict, String> {
    let readings = json_attempts(raw, Shape::Object)
        .iter()
        .filter_map(|a| a.text.as_deref())
        .map(read)
        .collect();
    continuum_core::curator::conflict::parse_verdict(raw, readings)
}

fn note(id: &str, title: &str, body: &str) -> Note {
    Note {
        id: id.to_string(),
        node_type: NodeType::Decision,
        title: title.to_string(),
        body: body.to_string(),
        project: None,
        created: Timestamp { nanos: 0 },
        relations: vec![],
    }
}

fn hit(id: &str, node_type: NodeType, status: NodeStatus, project: Option<&str>) -> NodeSummary {
    NodeSummary {
        id: id.to_string(),
        node_type,
        title: id.to_string(),
        project: project.map(|s| s.to_string()),
        status,
        snippet: None,
    }
}

fn verdict(v: &str, confidence: i64) -> Verdict {
    Verdict {
        verdict: v.to_string(),
        confidence,
        reason: String::new(),
    }
}

#[test]
fn parse_verdict_accepts_wrapped_json() {
    let raw = r#"Sure, my verdict is: {"verdict":"contradicts","confidence":0.7,"reason":"conflicting facts"} Let me know if you need more."#;
    let v = parse_verdict(raw).unwrap();
    assert_eq!(v.verdict, "contradicts");
    assert_eq!(v.confidence, 700_000);
}

#[test]
fn parse_verdict_rejects_garbage() {
    assert!(parse_verdict("no json here").is_err());
    assert!(parse_verdict(r#"{"confidence": 0.5}"#).is_err());
}

#[test]
fn same_project_rules() {
    assert!(same_project(&None, &None));
    assert!(same_project(&Some("simcharts".into()), &None));
    assert!(same_project(&None, &Some("simcharts".into())));
    assert!(same_project(
        &Some("simcharts".into()),
        &Some("simcharts".into())
    ));
    assert!(!same_project(
        &Some("simcharts".into()),
        &Some("continuum".into())
    ));
}

#[test]
fn verdict_errors_name_what_is_wrong() {
    assert_eq!(
        parse_verdict("nothing").unwrap_err(),
        "no JSON object found in curator verdict output: \"nothing\""
    );
    assert_eq!(
        parse_verdict("a {").unwrap_err(),
        "failed to parse curator verdict JSON: no matching '}' for '{' at byte offset 2 \
         (raw: \"a {\")"
    );
}

#[test]
fn a_followed_verdict_proposes_once() {
    let mut new = note("new", "Use PostgreSQL", "switching db");
    assert!(!already_proposed(&new, "old"));
    assert!(apply_verdict(&mut new, "old", &verdict("supersedes", 900_000)));
    assert!(already_proposed(&new, "old"));
    assert!(!already_proposed(&new, "other"));
    assert_eq!(new.relations.len(), 1);
    assert_eq!(new.relations[0].rel, "proposes_supersede");
    assert_eq!(new.relations[0].to, "old");
    assert_eq!(new.relations[0].confidence, 900_000);
}

#[test]
fn weak_and_other_verdicts_are_not_followed() {
    let mut new = note("new", "t", "b");
    assert!(!apply_verdict(&mut new, "old", &verdict("unrelated", 900_000)));
    assert!(!apply_verdict(&mut new, "old", &verdict("supersedes", 499_999)));
    assert!(new.relations.is_empty());
    assert!(apply_verdict(&mut new, "old", &verdict("contradicts", 500_000)));
}

#[test]
fn only_two_confirmed_notes_of_the_type_are_partners() {
    let mut new = note("new", "t", "b");
    new.project = Some("p".to_string());
    let hits = vec![
        hit("new", NodeType::Decision, NodeStatus::Confirmed, None),
        hit("fact", NodeType::Fact, NodeStatus::Confirmed, None),
        hit("waiting", NodeType::Decision, NodeStatus::Candidate, None),
        hit("elsewhere", NodeType::Decision, NodeStatus::Confirmed, Some("q")),
        hit("a", NodeType::Decision, NodeStatus::Confirmed, Some("p")),
        hit("b", NodeType::Decision, NodeStatus::Confirmed, None),
        hit("c", NodeType::Decision, NodeStatus::Confirmed, None),
    ];
    let ids: Vec<String> = find_partners(&hits, &new).into_iter().map(|h| h.id).collect();
    assert_eq!(ids, vec!["a".to_string(), "b".to_string()]);
}

#[test]
fn a_pair_is_shown_old_then_new() {
    let prompt = build_conflict_prompt(
        "OLD {{OLD}} NEW {{NEW}}",
        &note("o", "Use MongoDB", "We use MongoDB"),
        &note("n", "Use PostgreSQL", "switching"),
    );
    assert_eq!(
        prompt,
        "OLD Title: Use MongoDB\nCreated: 1970-01-01T00:00:00+00:00\nBody: We use MongoDB \
         NEW Title: Use PostgreSQL\nCreated: 1970-01-01T00:00:00+00:00\nBody: switching"
    );
}

#[test]
fn an_unreadable_verdict_is_asked_for_once_more() {
    let first = evaluate_pair("P", Err("bad".to_string()), false);
    assert_eq!(
        first,
        PairStep::AskAgain(
            "P\n\nYour previous reply was invalid: bad. Reply with ONLY the JSON object."
                .to_string()
        )
    );
    assert_eq!(
        evaluate_pair("P", Err("bad".to_string()), true),
        PairStep::GiveUp("bad".to_string())
    );
    let v = verdict("supersedes", 800_000);
    assert_eq!(evaluate_pair("P", Ok(v.clone()), true), PairStep::Answered(v));
}
