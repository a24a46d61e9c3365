# continuum_core

The working-context engine of a local assistant, with proofs.

The library answers what the user is doing: which project a frame of the screen speaks for, what
the session state is, what a prompt that wakes the assistant may show of it, what "go on" most
likely means, and what a span of the past was about. In the background a curator reads the
timeline, proposes memories, holds new notes against old ones, and sums up sessions.

Every function of `src/` is verified with Verus. Its `ensures` says what it returns or changes over
mathematical views (`Seq<char>` for texts, integers for times and fractions), and proof functions
named `law_*` state what holds of the library as a whole.

- Times are nanoseconds since the Unix epoch; confidences and importances are millionths.
- Stores, files, locks, tasks and models are outside. Where a procedure asks them in turn, the
  library holds it as a state: one function says what is to be done next, another takes in what
  came of it (`ExtractPass`, `ConflictPass`, `SummaryPass`, `CuratorLoop`, `WipePass`,
  `ForgetCascade`, `RangeDeletion`).
- `src/outside.rs` holds the calls into the standard library and other crates, with what is
  believed of each.

| Path | What is there |
| --- | --- |
| `src/text.rs`, `src/time.rs`, `src/ratio.rs`, `src/sorted.rs` | texts, times, fractions, sorted lists |
| `src/note.rs` | notes and events of the memory vault |
| `src/context/` | projects, session state, intents, prompts, continuation, past sessions |
| `src/curator/` | passes, conflicts, sessions, the background loop |
| `tests/` | tests of the compiled library |
| `app/` | the stores' interfaces, files, JSON, locks and background tasks around the library |
