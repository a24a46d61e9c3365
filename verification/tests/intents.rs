use continuum_core::context::intents::{
    intent_file_name, is_intent_file, ContextAction, ContextIntent, IntentDrainer, SessionField,
    ToggleName, SEEN_IDS_CAP,
};

fn toggle(name: ToggleName, value: bool) -> ContextIntent {
    ContextIntent::new(ContextAction::SetToggle { name, value })
}

#[test]
fn intents_are_not_dropped_for_age() {
    let mut intent = toggle(ToggleName::Screen, false);
    intent.created = 1;
    let mut drainer = IntentDrainer::new();
    assert_eq!(drainer.drain(vec![intent]).len(), 1);
}

#[test]
fn drainer_applies_an_id_once() {
    let intent = toggle(ToggleName::Mic, false);
    let mut drainer = IntentDrainer::new();
    assert_eq!(drainer.drain(vec![intent.clone()]).len(), 1);
    assert!(drainer.drain(vec![intent]).is_empty());
}

#[test]
fn drainer_seen_set_stays_bounded() {
    let mut drainer = IntentDrainer::new();
    for i in 0..(SEEN_IDS_CAP + 10) {
        drainer.remember(format!("id-{i}"));
    }
    assert_eq!(drainer.seen_count(), SEEN_IDS_CAP);
    assert!(!drainer.has_seen("id-0"));
    assert!(drainer.has_seen(&format!("id-{}", SEEN_IDS_CAP + 9)));
}

#[test]
fn field_and_toggle_tokens_round_trip() {
    for f in [
        SessionField::Project,
        SessionField::Goal,
        SessionField::Task,
    ] {
        assert_eq!(SessionField::parse(f.as_str()), Some(f));
    }
    assert_eq!(SessionField::parse("nope"), None);
    for t in [
        ToggleName::Mic,
        ToggleName::Screen,
        ToggleName::Files,
        ToggleName::Git,
        ToggleName::PauseAll,
    ] {
        assert_eq!(ToggleName::parse(t.as_str()), Some(t));
    }
    assert_eq!(ToggleName::parse("nope"), None);
}

#[test]
fn one_batch_may_hold_an_intent_twice() {
    let a = toggle(ToggleName::Mic, false);
    let b = toggle(ToggleName::Git, true);
    let mut drainer = IntentDrainer::new();
    let fresh = drainer.drain(vec![a.clone(), b.clone(), a.clone()]);
    assert_eq!(fresh, vec![a, b]);
}

#[test]
fn intents_have_ids_of_their_own_and_a_time() {
    let a = toggle(ToggleName::Mic, false);
    let b = toggle(ToggleName::Mic, false);
    assert_eq!(a.id.len(), 36);
    assert_ne!(a.id, b.id);
    assert!(a.created > 1_600_000_000_000);
    let c = ContextIntent::stamped(a.action, "x".to_string(), Some(1_500_000_000_123));
    assert_eq!(c.created, 1_500_000_000_123);
    let early = ContextIntent::stamped(b.action, "x".to_string(), None);
    assert_eq!(early.created, 0);
}

#[test]
fn files_are_named_by_time_kind_and_id() {
    let intent = ContextIntent::stamped(
        ContextAction::SetToggle { name: ToggleName::Mic, value: false },
        "0123456789abcdef".to_string(),
        Some(0),
    );
    assert_eq!(
        intent_file_name("20260805T000000000", &intent),
        "20260805T000000000-set_toggle-01234567.json"
    );
    assert!(is_intent_file("a.json"));
    assert!(!is_intent_file(".json"));
    assert!(!is_intent_file("a.bad"));
}

#[test]
fn files_are_read_in_the_order_of_their_names() {
    let names: Vec<String> = [
        "20260805T000000001-b.json",
        "notes.txt",
        "20260805T000000000-a.json",
        ".json",
        "20260805T000000000-a.json.tmp",
        "20260804T235959999-z.json",
        "old.bad",
    ]
    .iter()
    .map(|s| s.to_string())
    .collect();
    assert_eq!(
        continuum_core::context::intents::intent_files(&names),
        vec![
            "20260804T235959999-z.json",
            "20260805T000000000-a.json",
            "20260805T000000001-b.json",
        ]
    );
}

#[test]
fn an_intent_has_a_random_id_of_version_four() {
    let make = || {
        ContextIntent::new(ContextAction::ConfirmProject {
            project_id: "p".into(),
        })
    };
    let (a, b) = (make(), make());
    assert_ne!(a.id, b.id);
    assert_eq!(a.id.len(), 36);
    assert_eq!(a.id.as_bytes()[14], b'4');
    assert_eq!(a.id.to_lowercase(), a.id);
}
