use std::collections::BTreeMap;

use continuum_core::curator::run::{BAD_WIPE_REQUEST_FILE, WIPE_REQUEST_FILE};
use continuum_core::curator::wipe::{WipeAnswer, WipePass, WipeStage};

/// A directory and the stores, in memory.
#[derive(Default)]
struct World {
    files: BTreeMap<String, String>,
    frames: usize,
    memories: usize,
    events: usize,
    /// The stage at which the disk or a store fails.
    broken: Option<WipeStage>,
    steps: Vec<WipeStage>,
}

impl World {
    fn with_request(raw: &str) -> Self {
        let mut w = World::default();
        w.files.insert(WIPE_REQUEST_FILE.to_string(), raw.to_string());
        w
    }

    fn read(&self) -> WipeAnswer {
        let Some(raw) = self.files.get(WIPE_REQUEST_FILE) else {
            return WipeAnswer::Missing;
        };
        let value: serde_json::Value = match serde_json::from_str(raw) {
            Ok(v) => v,
            Err(_) => return WipeAnswer::Malformed,
        };
        let scopes = value["scopes"].as_array().unwrap();
        WipeAnswer::Scopes(
            scopes
                .iter()
                .map(|s| s.as_str().unwrap().to_string())
                .collect(),
        )
    }

    fn process(&mut self) -> Result<bool, String> {
        let mut pass = WipePass::begin();
        while pass.stage != WipeStage::Over {
            self.steps.push(pass.stage);
            let answer = if self.broken == Some(pass.stage) {
                WipeAnswer::Failed("locked".to_string())
            } else {
                match pass.stage {
                    WipeStage::Read => self.read(),
                    WipeStage::RawLog => {
                        self.frames = 0;
                        WipeAnswer::Done
                    }
                    WipeStage::Episodic => {
                        self.memories = 0;
                        WipeAnswer::Done
                    }
                    WipeStage::Events => {
                        self.events = 0;
                        WipeAnswer::Done
                    }
                    WipeStage::Remove => {
                        self.files.remove(WIPE_REQUEST_FILE);
                        WipeAnswer::Done
                    }
                    WipeStage::Aside => {
                        let raw = self.files.remove(WIPE_REQUEST_FILE).unwrap();
                        self.files.insert(BAD_WIPE_REQUEST_FILE.to_string(), raw);
                        WipeAnswer::Done
                    }
                    WipeStage::Over => unreachable!(),
                }
            };
            pass.settle(answer);
        }
        pass.outcome
    }
}

const ALL: &str = r#"{"requested_at":"2026-01-01T09:00:00+00:00","scopes":["raw_log","episodic","events"]}"#;

#[test]
fn process_wipe_request_wipes_all_scopes_and_deletes_request_file() {
    let mut w = World::with_request(ALL);
    w.frames = 1;
    w.memories = 1;
    w.events = 2;
    assert_eq!(w.process(), Ok(true));
    assert!(!w.files.contains_key("wipe-request.json"));
    assert_eq!(w.frames, 0);
    assert_eq!(w.memories, 0);
    assert_eq!(w.events, 0);
    assert_eq!(
        w.steps,
        vec![
            WipeStage::Read,
            WipeStage::RawLog,
            WipeStage::Episodic,
            WipeStage::Events,
            WipeStage::Remove
        ]
    );
    assert_eq!(w.process(), Ok(false));
}

#[test]
fn process_wipe_request_returns_false_when_no_request_file() {
    assert_eq!(World::default().process(), Ok(false));
}

#[test]
fn process_wipe_request_quarantines_corrupt_json_instead_of_retrying_forever() {
    let mut w = World::with_request("{ this is not valid json");
    assert_eq!(w.process(), Ok(false), "quarantine is Ok(false), not Err");
    assert!(!w.files.contains_key("wipe-request.json"));
    assert!(w.files.contains_key("wipe-request.json.bad"));
    assert_eq!(w.process(), Ok(false));
}

#[test]
fn drain_wipe_request_tick_processes_without_daily_hygiene() {
    let mut w = World {
        events: 1,
        ..World::default()
    };
    assert_eq!(w.process(), Ok(false));
    assert_eq!(w.events, 1);
    w.files.insert(
        "wipe-request.json".to_string(),
        r#"{"requested_at":"2026-01-01T09:00:00+00:00","scopes":["events"]}"#.to_string(),
    );
    assert_eq!(w.process(), Ok(true));
    assert!(!w.files.contains_key("wipe-request.json"));
    assert_eq!(w.events, 0);
}

#[test]
fn a_request_survives_every_failure() {
    for stage in [
        WipeStage::Read,
        WipeStage::RawLog,
        WipeStage::Episodic,
        WipeStage::Events,
        WipeStage::Remove,
    ] {
        let mut w = World::with_request(ALL);
        w.events = 2;
        w.broken = Some(stage);
        assert_eq!(w.process(), Err("locked".to_string()), "{stage:?}");
        assert!(w.files.contains_key("wipe-request.json"), "{stage:?}");
        assert_eq!(w.steps.last(), Some(&stage));
        w.broken = None;
        assert_eq!(w.process(), Ok(true));
        assert_eq!(w.events, 0);
    }
    let mut w = World::with_request("nonsense");
    w.broken = Some(WipeStage::Aside);
    assert_eq!(w.process(), Ok(false));
    assert!(w.files.contains_key("wipe-request.json"));
}

#[test]
fn only_what_is_named_is_emptied() {
    let mut w = World::with_request(r#"{"scopes":["episodic","moon"]}"#);
    w.frames = 3;
    w.memories = 3;
    w.events = 3;
    assert_eq!(w.process(), Ok(true));
    assert_eq!((w.frames, w.memories, w.events), (3, 0, 3));
}
