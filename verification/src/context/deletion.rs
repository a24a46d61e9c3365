//! # Deleting what was observed
//!
//! What the user asks to forget is deleted from several stores, one after another. Each store is a
//! rung. The rungs of an observation are independent: one that fails keeps none of the others from
//! being tried, since half of a deletion is better than none.
use vstd::prelude::*;
use crate::context::apply::{tell, IntentOutcome, Report};
use crate::outside::{names_uuid, rfc3339};
use crate::text::{decimal_string, same};
use crate::time::Timestamp;
#[allow(unused_imports)]
use crate::context::apply::{number_at, text_at, told, OutcomeView};
#[allow(unused_imports)]
use crate::outside::{is_uuid, rfc3339_of};
#[allow(unused_imports)]
use crate::text::{decimal, opt_str_view, opt_view, views};

verus! {

// ---------------------------------------------------------------------------
// Notes that come from a frame
// ---------------------------------------------------------------------------

/// How a note refers to the frame that it comes from.
pub open spec fn frame_ref(id: Seq<char>) -> Seq<char> {
    "triage:frame:"@ + id
}

/// Whether a note comes from one of the frames.
pub open spec fn comes_from(source_ref: Option<Seq<char>>, frames: Seq<Seq<char>>) -> bool {
    source_ref matches Some(s) && exists|i: int|
        0 <= i < frames.len() && s == frame_ref(#[trigger] frames[i])
}

/// Whether a note comes from one of the frames.
pub fn is_candidate_of(source_ref: Option<&str>, frame_ids: &Vec<String>) -> (r: bool)
    ensures
        r == comes_from(opt_str_view(source_ref), views(frame_ids@)),
{
    let reference = match source_ref {
        Some(s) => s,
        None => {
            return false;
        },
    };
    let mut i: usize = 0;
    while i < frame_ids.len()
        invariant
            i <= frame_ids.len(),
            source_ref == Some(reference),
            forall|j: int|
                0 <= j < i ==> reference@ != frame_ref(#[trigger] views(frame_ids@)[j]),
        decreases frame_ids.len() - i,
    {
        let mut needle = "triage:frame:".to_owned();
        needle.append(frame_ids[i].as_str());
        assert(views(frame_ids@)[i as int] == frame_ids@[i as int]@);
        if same(reference, needle.as_str()) {
            return true;
        }
        i = i + 1;
    }
    false
}

// ---------------------------------------------------------------------------
// Forgetting one observation
// ---------------------------------------------------------------------------

/// What a store has deleted.
#[derive(Debug, Clone, Copy, PartialEq, Eq, Structural)]
pub struct Removed {
    pub rows: u64,
    /// The screenshots that went with the rows.
    pub files: u64,
}

/// The stores that an observation is deleted from.
#[derive(Debug, Clone, Copy, PartialEq, Eq, Structural)]
pub enum ForgetRung {
    /// The events that refer to the observation.
    Events,
    /// The frame, with its screenshot.
    Frame,
    /// The memories that were made of the frame.
    Memories,
    /// The notes that come from the frame and that nobody has confirmed.
    Candidates,
    Finished,
}

/// An observation that is being deleted.
#[derive(Debug, Clone, PartialEq, Eq)]
pub struct ForgetCascade {
    pub reference: String,
    /// Whether the reference is that of a frame. Anything else has nothing but events.
    pub is_frame: bool,
    pub rung: ForgetRung,
    pub events: u64,
    pub frames: u64,
    pub screenshots: u64,
    pub memories: u64,
    pub candidates: u64,
}

/// What refers to the observation: what the user named, or else what the event says. `of_event` is
/// what the event was found to say, or why it could not be looked up, which is an error only where
/// the user named nothing.
pub fn cascade_key(raw_reference: Option<&str>, of_event: Result<Option<String>, String>) -> (r:
    Result<Option<String>, String>)
    ensures
        match told(opt_str_view(raw_reference)) {
            Some(s) => r matches Ok(Some(k)) && k@ == s,
            None => r == of_event,
        },
{
    match tell(raw_reference) {
        Some(s) => Ok(Some(s)),
        None => of_event,
    }
}

/// How a deletion goes on.
#[derive(Debug, Clone, PartialEq, Eq)]
pub enum ForgetStart {
    /// There is nothing more to be deleted.
    Done(IntentOutcome),
    Cascade(ForgetCascade),
}

/// What is reported of an event that refers to nothing.
pub open spec fn lone_outcome(events: int) -> OutcomeView {
    OutcomeView {
        applied: true,
        summary: "Forgot 1 event (no raw reference to cascade from)"@,
        details: seq![
            number_at("events"@, events),
            number_at("frames"@, 0),
            number_at("episodic"@, 0),
            number_at("candidates"@, 0),
        ],
    }
}

/// Begins to delete an observation. `named` is how many events were deleted by the id that the
/// user named, or why that failed; where there is something else to delete, a failure counts as
/// nothing.
pub fn begin_forget(reference: Option<String>, named: Result<u64, String>) -> (r: Result<
    ForgetStart,
    String,
>)
    ensures
        match reference {
            Some(s) => r matches Ok(ForgetStart::Cascade(c)) && c.reference == s && c.is_frame
                == is_uuid(s@) && c.rung == ForgetRung::Events && c.events == (match named {
                Ok(n) => n,
                Err(_) => 0,
            }) && c.frames == 0 && c.screenshots == 0 && c.memories == 0 && c.candidates == 0,
            None => match named {
                Ok(n) => if n == 0 {
                    r matches Err(e) && e@ == "forget needs a raw_reference or an event_id"@
                } else {
                    r matches Ok(ForgetStart::Done(o)) && o@ == lone_outcome(n as int)
                },
                Err(e) => r == Err::<ForgetStart, String>(e),
            },
        },
{
    match reference {
        Some(s) => {
            let events: u64 = match named {
                Ok(n) => n,
                Err(_) => 0,
            };
            let is_frame = names_uuid(s.as_str());
            Ok(
                ForgetStart::Cascade(
                    ForgetCascade {
                        reference: s,
                        is_frame,
                        rung: ForgetRung::Events,
                        events,
                        frames: 0,
                        screenshots: 0,
                        memories: 0,
                        candidates: 0,
                    },
                ),
            )
        },
        None => {
            let events: u64 = match named {
                Ok(n) => n,
                Err(e) => {
                    return Err(e);
                },
            };
            if events == 0 {
                return Err("forget needs a raw_reference or an event_id".to_owned());
            }
            let details = Report::new().number("events", events).number("frames", 0).number(
                "episodic",
                0,
            ).number("candidates", 0).details;
            let o = IntentOutcome {
                applied: true,
                summary: "Forgot 1 event (no raw reference to cascade from)".to_owned(),
                details,
            };
            assert(o@ =~= lone_outcome(events as int));
            Ok(ForgetStart::Done(o))
        },
    }
}

/// What a deletion is after its rung: what was deleted counts, as far as can be counted, a failure
/// counts as nothing, and the next rung is tried in either case.
pub open spec fn after_rung(c: ForgetCascade, result: Result<Removed, String>) -> ForgetCascade {
    let n = match result {
        Ok(n) => n,
        Err(_) => Removed { rows: 0, files: 0 },
    };
    match c.rung {
        ForgetRung::Events => ForgetCascade {
            events: if c.events + n.rows > u64::MAX {
                u64::MAX
            } else {
                (c.events + n.rows) as u64
            },
            rung: if c.is_frame {
                ForgetRung::Frame
            } else {
                ForgetRung::Finished
            },
            ..c
        },
        ForgetRung::Frame => ForgetCascade {
            frames: n.rows,
            screenshots: n.files,
            rung: ForgetRung::Memories,
            ..c
        },
        ForgetRung::Memories => ForgetCascade {
            memories: n.rows,
            rung: ForgetRung::Candidates,
            ..c
        },
        ForgetRung::Candidates => ForgetCascade {
            candidates: n.rows,
            rung: ForgetRung::Finished,
            ..c
        },
        ForgetRung::Finished => c,
    }
}

/// What is reported of an observation that was deleted.
pub open spec fn forgotten_outcome(c: ForgetCascade) -> OutcomeView {
    OutcomeView {
        applied: true,
        summary: "Forgot "@ + decimal(c.events as int) + " event(s), "@ + decimal(c.frames as int)
            + " frame(s), "@ + decimal(c.memories as int) + " memory(ies), "@ + decimal(
            c.candidates as int,
        ) + " candidate(s)"@,
        details: seq![
            text_at("raw_reference"@, c.reference@),
            number_at("events"@, c.events as int),
            number_at("frames"@, c.frames as int),
            number_at("screenshots"@, c.screenshots as int),
            number_at("episodic"@, c.memories as int),
            number_at("candidates"@, c.candidates as int),
        ],
    }
}

impl ForgetCascade {
    /// Takes in what the store of the current rung answered.
    pub fn settle(&mut self, result: Result<Removed, String>)
        ensures
            *final(self) == after_rung(*old(self), result),
    {
        let n = match result {
            Ok(n) => n,
            Err(_) => Removed { rows: 0, files: 0 },
        };
        match self.rung {
            ForgetRung::Events => {
                self.events = self.events.saturating_add(n.rows);
                self.rung = if self.is_frame {
                    ForgetRung::Frame
                } else {
                    ForgetRung::Finished
                };
            },
            ForgetRung::Frame => {
                self.frames = n.rows;
                self.screenshots = n.files;
                self.rung = ForgetRung::Memories;
            },
            ForgetRung::Memories => {
                self.memories = n.rows;
                self.rung = ForgetRung::Candidates;
            },
            ForgetRung::Candidates => {
                self.candidates = n.rows;
                self.rung = ForgetRung::Finished;
            },
            ForgetRung::Finished => {},
        }
    }

    /// Reports what was deleted.
    pub fn outcome(&self) -> (r: IntentOutcome)
        ensures
            r@ == forgotten_outcome(*self),
    {
        let mut summary = "Forgot ".to_owned();
        summary.append(decimal_string(self.events).as_str());
        summary.append(" event(s), ");
        summary.append(decimal_string(self.frames).as_str());
        summary.append(" frame(s), ");
        summary.append(decimal_string(self.memories).as_str());
        summary.append(" memory(ies), ");
        summary.append(decimal_string(self.candidates).as_str());
        summary.append(" candidate(s)");
        let details = Report::new().text("raw_reference", self.reference.as_str()).number(
            "events",
            self.events,
        ).number("frames", self.frames).number("screenshots", self.screenshots).number(
            "episodic",
            self.memories,
        ).number("candidates", self.candidates).details;
        let r = IntentOutcome { applied: true, summary, details };
        assert(r@ =~= forgotten_outcome(*self));
        r
    }
}

/// Every rung of a frame is tried, whatever the others answer, and each counts what it deleted, or
/// nothing where it failed.
pub proof fn law_failed_rung_stops_nothing(
    c: ForgetCascade,
    events: Result<Removed, String>,
    frame: Result<Removed, String>,
    memories: Result<Removed, String>,
    candidates: Result<Removed, String>,
)
    requires
        c.rung == ForgetRung::Events,
        c.is_frame,
        events matches Ok(n) ==> c.events + n.rows <= u64::MAX,
    ensures
        ({
            let one = after_rung(c, events);
            let two = after_rung(one, frame);
            let three = after_rung(two, memories);
            let end = after_rung(three, candidates);
            &&& one.rung == ForgetRung::Frame
            &&& two.rung == ForgetRung::Memories
            &&& three.rung == ForgetRung::Candidates
            &&& end.rung == ForgetRung::Finished
            &&& end.reference == c.reference
            &&& end.events == c.events + (if events is Ok {
                events->Ok_0.rows
            } else {
                0
            })
            &&& end.frames == (if frame is Ok {
                frame->Ok_0.rows
            } else {
                0
            })
            &&& end.screenshots == (if frame is Ok {
                frame->Ok_0.files
            } else {
                0
            })
            &&& end.memories == (if memories is Ok {
                memories->Ok_0.rows
            } else {
                0
            })
            &&& end.candidates == (if candidates is Ok {
                candidates->Ok_0.rows
            } else {
                0
            })
        }),
{
}

// ---------------------------------------------------------------------------
// Deleting a span of time
// ---------------------------------------------------------------------------

/// The stores that a span of time is deleted from, in this order: the ids of the frames are read
/// before the frames are gone, since the notes are found by them.
#[derive(Debug, Clone, Copy, PartialEq, Eq, Structural)]
pub enum RangeRung {
    Memories,
    FrameIds,
    /// Frames, events and screenshots.
    Purge,
    Candidates,
    Finished,
}

/// What a store answers when a span of time is deleted.
#[derive(Debug, Clone, PartialEq, Eq)]
pub enum RangeAnswer {
    Deleted(u64),
    Ids(Vec<String>),
    Purged { frames: u64, events: u64, screenshots: u64 },
    Failed(String),
}

/// A span of time that is being deleted.
#[derive(Debug, Clone, PartialEq, Eq)]
pub struct RangeDeletion {
    pub from: Timestamp,
    pub to: Timestamp,
    pub rung: RangeRung,
    pub frame_ids: Vec<String>,
    pub frames: u64,
    pub events: u64,
    pub screenshots: u64,
    pub memories: u64,
    pub candidates: u64,
}

/// What is reported of a span of time that was deleted.
pub open spec fn range_outcome(d: RangeDeletion) -> OutcomeView {
    let from = rfc3339_of(d.from.nanos as int);
    let to = rfc3339_of(d.to.nanos as int);
    OutcomeView {
        applied: true,
        summary: "Purged "@ + decimal(d.frames as int) + " frame(s), "@ + decimal(d.events as int)
            + " event(s), "@ + decimal(d.memories as int) + " memory(ies) and "@ + decimal(
            d.candidates as int,
        ) + " candidate(s) between "@ + from + " and "@ + to,
        details: seq![
            text_at("from"@, from),
            text_at("to"@, to),
            number_at("frames"@, d.frames as int),
            number_at("events"@, d.events as int),
            number_at("screenshots"@, d.screenshots as int),
            number_at("episodic"@, d.memories as int),
            number_at("candidates"@, d.candidates as int),
        ],
    }
}

/// What a deletion of a span of time is after its rung.
pub open spec fn after_answer(d: RangeDeletion, a: RangeAnswer) -> RangeDeletion {
    match d.rung {
        RangeRung::Memories => RangeDeletion {
            memories: match a {
                RangeAnswer::Deleted(n) => n,
                _ => 0,
            },
            rung: RangeRung::FrameIds,
            ..d
        },
        RangeRung::FrameIds => RangeDeletion {
            frame_ids: match a {
                RangeAnswer::Ids(ids) => ids,
                _ => d.frame_ids,
            },
            rung: RangeRung::Purge,
            ..d
        },
        RangeRung::Purge => match a {
            RangeAnswer::Purged { frames, events, screenshots } => RangeDeletion {
                frames,
                events,
                screenshots,
                rung: RangeRung::Candidates,
                ..d
            },
            _ => d,
        },
        RangeRung::Candidates => RangeDeletion {
            candidates: match a {
                RangeAnswer::Deleted(n) => n,
                _ => 0,
            },
            rung: RangeRung::Finished,
            ..d
        },
        RangeRung::Finished => d,
    }
}

impl RangeDeletion {
    /// Begins to delete a span of time.
    pub fn begin(from: Timestamp, to: Timestamp) -> (r: Result<Self, String>)
        ensures
            if to.nanos < from.nanos {
                r matches Err(e) && e@ == "delete range ends before it starts"@
            } else {
                r matches Ok(d) && d.from == from && d.to == to && d.rung == RangeRung::Memories
                    && d.frame_ids@.len() == 0 && d.frames == 0 && d.events == 0 && d.screenshots
                    == 0 && d.memories == 0 && d.candidates == 0
            },
    {
        if to.nanos < from.nanos {
            return Err("delete range ends before it starts".to_owned());
        }
        Ok(
            RangeDeletion {
                from,
                to,
                rung: RangeRung::Memories,
                frame_ids: Vec::new(),
                frames: 0,
                events: 0,
                screenshots: 0,
                memories: 0,
                candidates: 0,
            },
        )
    }

    /// Takes in what the store of the current rung answered. Only where the purge itself fails is
    /// the deletion given up; without ids no note is deleted.
    pub fn settle(&mut self, answer: RangeAnswer) -> (r: Result<(), String>)
        ensures
            *final(self) == after_answer(*old(self), answer),
            match (old(self).rung, answer) {
                (RangeRung::Purge, RangeAnswer::Failed(e)) => r == Err::<(), String>(e),
                _ => r is Ok,
            },
    {
        match self.rung {
            RangeRung::Memories => {
                if let RangeAnswer::Deleted(n) = answer {
                    self.memories = n;
                } else {
                    self.memories = 0;
                }
                self.rung = RangeRung::FrameIds;
            },
            RangeRung::FrameIds => {
                if let RangeAnswer::Ids(ids) = answer {
                    self.frame_ids = ids;
                }
                self.rung = RangeRung::Purge;
            },
            RangeRung::Purge => {
                match answer {
                    RangeAnswer::Purged { frames, events, screenshots } => {
                        self.frames = frames;
                        self.events = events;
                        self.screenshots = screenshots;
                        self.rung = RangeRung::Candidates;
                    },
                    RangeAnswer::Failed(e) => {
                        return Err(e);
                    },
                    _ => {},
                }
            },
            RangeRung::Candidates => {
                if let RangeAnswer::Deleted(n) = answer {
                    self.candidates = n;
                } else {
                    self.candidates = 0;
                }
                self.rung = RangeRung::Finished;
            },
            RangeRung::Finished => {},
        }
        Ok(())
    }

    /// Reports what was deleted.
    pub fn outcome(&self) -> (r: IntentOutcome)
        ensures
            r@ == range_outcome(*self),
    {
        let from = rfc3339(self.from.nanos);
        let to = rfc3339(self.to.nanos);
        let mut summary = "Purged ".to_owned();
        summary.append(decimal_string(self.frames).as_str());
        summary.append(" frame(s), ");
        summary.append(decimal_string(self.events).as_str());
        summary.append(" event(s), ");
        summary.append(decimal_string(self.memories).as_str());
        summary.append(" memory(ies) and ");
        summary.append(decimal_string(self.candidates).as_str());
        summary.append(" candidate(s) between ");
        summary.append(from.as_str());
        summary.append(" and ");
        summary.append(to.as_str());
        let details = Report::new().text("from", from.as_str()).text("to", to.as_str()).number(
            "frames",
            self.frames,
        ).number("events", self.events).number("screenshots", self.screenshots).number(
            "episodic",
            self.memories,
        ).number("candidates", self.candidates).details;
        let r = IntentOutcome { applied: true, summary, details };
        assert(r@ =~= range_outcome(*self));
        r
    }
}

} // verus!
