//! When a pinned project gives way: the resolver must be sure of another project for some time
//! without a break.
use vstd::prelude::*;
use crate::text::same;
use crate::time::{nanos_between, Timestamp};

verus! {

/// How sure the resolver must be of another project, in millionths. That is how sure the
/// repository of the most recent file is; a keyword in a title is not enough.
pub const PIN_CLEAR_CONFIDENCE: u32 = 700_000;

/// Times how long the resolver has been of another opinion than the pin.
#[derive(Debug, Clone, PartialEq, Eq)]
pub struct ProjectPinGuard {
    divergent: Option<(String, Timestamp)>,
}

/// The other project, and since when the resolver has been sure of it.
#[verifier::ext_equal]
pub struct Divergence {
    pub id: Seq<char>,
    pub since: int,
}

impl View for ProjectPinGuard {
    type V = Option<Divergence>;

    closed spec fn view(&self) -> Option<Divergence> {
        match self.divergent {
            Some((id, since)) => Some(Divergence { id: id@, since: since.nanos as int }),
            None => None,
        }
    }
}

/// Whether a resolution contradicts the pin.
pub open spec fn contradicts(pinned: Seq<char>, id: Seq<char>, confidence: int) -> bool {
    id != pinned && confidence >= PIN_CLEAR_CONFIDENCE
}

/// Since when the resolver has been sure of the project `id` at `now`.
pub open spec fn diverging_since(d: Option<Divergence>, id: Seq<char>, now: int) -> int {
    match d {
        Some(x) => if x.id == id {
            x.since
        } else {
            now
        },
        None => now,
    }
}

impl Default for ProjectPinGuard {
    fn default() -> (r: Self)
        ensures
            r@ is None,
    {
        ProjectPinGuard::new()
    }
}

impl ProjectPinGuard {
    /// Nothing is being timed.
    pub fn new() -> (r: Self)
        ensures
            r@ is None,
    {
        ProjectPinGuard { divergent: None }
    }

    /// The other project that is being timed.
    pub fn divergent_project(&self) -> (r: Option<&str>)
        ensures
            match r {
                Some(id) => self@ is Some && self@->0.id == id@,
                None => self@ is None,
            },
    {
        match &self.divergent {
            Some(d) => Some(d.0.as_str()),
            None => None,
        }
    }

    /// Forgets what is being timed. For frames without a pin.
    pub fn reset(&mut self)
        ensures
            final(self)@ is None,
    {
        self.divergent = None;
    }

    /// Takes one frame into account: the project that the resolver reports, and how sure it is.
    /// Returns whether the pin is to be cleared.
    pub fn observe(
        &mut self,
        pinned: &str,
        resolved: Option<(&str, u32)>,
        switch_min_secs: u64,
        now: Timestamp,
    ) -> (r: bool)
        ensures
            match resolved {
                Some((id, confidence)) if contradicts(pinned@, id@, confidence as int) => {
                    let since = diverging_since(old(self)@, id@, now.nanos as int);
                    &&& r == (now.nanos - since >= switch_min_secs * 1_000_000_000)
                    &&& final(self)@ == (if r {
                        None
                    } else {
                        Some(Divergence { id: id@, since })
                    })
                },
                _ => !r && final(self)@ is None,
            },
    {
        match resolved {
            None => {
                self.divergent = None;
                false
            },
            Some((id, confidence)) => {
                if same(id, pinned) || confidence < PIN_CLEAR_CONFIDENCE {
                    self.divergent = None;
                    return false;
                }
                let known: Option<Timestamp> = match &self.divergent {
                    Some(d) => if same(d.0.as_str(), id) {
                        Some(d.1)
                    } else {
                        None
                    },
                    None => None,
                };
                let since: Timestamp = match known {
                    Some(t) => t,
                    None => {
                        self.divergent = Some((id.to_owned(), now));
                        now
                    },
                };
                if nanos_between(since, now) >= switch_min_secs as i128 * 1_000_000_000 {
                    self.divergent = None;
                    true
                } else {
                    false
                }
            },
        }
    }
}

/// One frame, as far as a pin is concerned.
pub struct PinFrame {
    pub resolved: Option<(Seq<char>, int)>,
    pub ts: int,
}

/// What is being timed after a frame.
pub open spec fn guard_after(
    d: Option<Divergence>,
    pinned: Seq<char>,
    f: PinFrame,
    min_nanos: int,
) -> Option<Divergence> {
    match f.resolved {
        Some((id, confidence)) if contradicts(pinned, id, confidence) => {
            let since = diverging_since(d, id, f.ts);
            if f.ts - since >= min_nanos {
                None
            } else {
                Some(Divergence { id, since })
            }
        },
        _ => None,
    }
}

/// What is being timed after a stream of frames.
pub open spec fn guard_after_all(pinned: Seq<char>, frames: Seq<PinFrame>, min_nanos: int) -> Option<
    Divergence,
>
    decreases frames.len(),
{
    if frames.len() == 0 {
        None
    } else {
        guard_after(
            guard_after_all(pinned, frames.drop_last(), min_nanos),
            pinned,
            frames.last(),
            min_nanos,
        )
    }
}

/// Whether the resolver was sure of the project `id`, another than the pinned one, in every frame
/// from number `k` on.
pub open spec fn sure_from(pinned: Seq<char>, frames: Seq<PinFrame>, k: int, id: Seq<char>) -> bool {
    forall|j: int|
        k <= j < frames.len() ==> ((#[trigger] frames[j]).resolved matches Some((x, c)) && x == id
            && contradicts(pinned, x, c))
}

/// What is being timed has held in every frame since the one it is timed from: a pin is only ever
/// cleared after the resolver was sure of one and the same other project without a break.
pub proof fn law_divergence_is_unbroken(pinned: Seq<char>, frames: Seq<PinFrame>, min_nanos: int)
    ensures
        guard_after_all(pinned, frames, min_nanos) matches Some(d) ==> exists|k: int|
            0 <= k < frames.len() && (#[trigger] frames[k]).ts == d.since && sure_from(
                pinned,
                frames,
                k,
                d.id,
            ),
    decreases frames.len(),
{
    if frames.len() > 0 {
        let b = frames.drop_last();
        law_divergence_is_unbroken(pinned, b, min_nanos);
        let before = guard_after_all(pinned, b, min_nanos);
        if let Some(d) = guard_after_all(pinned, frames, min_nanos) {
            if before is Some && before->0.id == d.id {
                let k = choose|k: int|
                    0 <= k < b.len() && (#[trigger] b[k]).ts == before->0.since && sure_from(
                        pinned,
                        b,
                        k,
                        d.id,
                    );
                assert(frames[k] == b[k]);
                assert forall|j: int| k <= j < frames.len() implies ((
                #[trigger] frames[j]).resolved matches Some((x, c)) && x == d.id && contradicts(
                    pinned,
                    x,
                    c,
                )) by {
                    if j < b.len() {
                        assert(frames[j] == b[j]);
                    }
                }
                assert(sure_from(pinned, frames, k, d.id));
            } else {
                let k = frames.len() - 1;
                assert(frames[k].ts == d.since);
                assert(sure_from(pinned, frames, k, d.id));
            }
        }
    }
}

} // verus!
