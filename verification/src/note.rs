//! # Notes
//!
//! What the memory vault keeps: a note has a type, a status, where it comes from, how sure and how
//! important it is, and how it relates to other notes.
use vstd::prelude::*;
use crate::duplicate::{duplicate_all, Duplicate};
use crate::text::same;
use crate::time::Timestamp;
#[allow(unused_imports)]
use crate::text::{opt_view, views};

verus! {

/// What a note is about.
#[derive(Debug, Clone, Copy, PartialEq, Eq, Structural)]
pub enum NodeType {
    Fact,
    Preference,
    Decision,
    Goal,
    Error,
    Session,
}

/// The type with a given name.
pub open spec fn type_named(s: Seq<char>) -> Option<NodeType> {
    if s == "fact"@ {
        Some(NodeType::Fact)
    } else if s == "preference"@ {
        Some(NodeType::Preference)
    } else if s == "decision"@ {
        Some(NodeType::Decision)
    } else if s == "goal"@ {
        Some(NodeType::Goal)
    } else if s == "error"@ {
        Some(NodeType::Error)
    } else if s == "session"@ {
        Some(NodeType::Session)
    } else {
        None
    }
}

impl NodeType {
    /// The type with a given name.
    pub fn parse(s: &str) -> (r: Option<Self>)
        ensures
            r == type_named(s@),
    {
        if same(s, "fact") {
            Some(NodeType::Fact)
        } else if same(s, "preference") {
            Some(NodeType::Preference)
        } else if same(s, "decision") {
            Some(NodeType::Decision)
        } else if same(s, "goal") {
            Some(NodeType::Goal)
        } else if same(s, "error") {
            Some(NodeType::Error)
        } else if same(s, "session") {
            Some(NodeType::Session)
        } else {
            None
        }
    }
}

/// Whether a note counts.
#[derive(Debug, Clone, Copy, PartialEq, Eq, Structural)]
pub enum NodeStatus {
    /// The user has not decided yet.
    Candidate,
    Confirmed,
    Rejected,
}

/// Where a note comes from.
#[derive(Debug, Clone, Copy, PartialEq, Eq, Structural)]
pub enum Source {
    UserStatement,
    Observed,
    Inferred,
    AgentRun,
    Chat,
    Manual,
}

/// Whether a note may leave the machine.
#[derive(Debug, Clone, Copy, PartialEq, Eq, Structural)]
pub enum Sensitivity {
    Normal,
    Sensitive,
}

/// How a note relates to another.
#[derive(Debug, Clone, PartialEq, Eq)]
pub struct Relation {
    /// The id of the other note.
    pub to: String,
    pub rel: String,
    /// In millionths.
    pub confidence: i64,
}

/// What a `Relation` holds.
pub struct RelationView {
    pub to: Seq<char>,
    pub rel: Seq<char>,
    pub confidence: int,
}

impl View for Relation {
    type V = RelationView;

    open spec fn view(&self) -> RelationView {
        RelationView { to: self.to@, rel: self.rel@, confidence: self.confidence as int }
    }
}

impl Duplicate for Relation {
    fn duplicate(&self) -> (r: Self) {
        Relation { to: self.to.clone(), rel: self.rel.clone(), confidence: self.confidence }
    }
}

/// What a list of relations holds.
pub open spec fn relations_of(l: Seq<Relation>) -> Seq<RelationView> {
    l.map_values(|r: Relation| r@)
}

/// A note that is to be written.
#[derive(Debug, Clone, PartialEq, Eq)]
pub struct NoteDraft {
    pub node_type: NodeType,
    pub title: String,
    pub body: String,
    pub project: Option<String>,
    pub status: NodeStatus,
    /// In millionths.
    pub confidence: i64,
    /// In millionths.
    pub importance: i64,
    pub source: Source,
    pub source_ref: Option<String>,
    pub sensitivity: Sensitivity,
    pub expires: Option<Timestamp>,
    pub relations: Vec<Relation>,
    pub tags: Vec<String>,
}

/// What a `NoteDraft` holds.
#[verifier::ext_equal]
pub struct DraftView {
    pub node_type: NodeType,
    pub title: Seq<char>,
    pub body: Seq<char>,
    pub project: Option<Seq<char>>,
    pub status: NodeStatus,
    pub confidence: int,
    pub importance: int,
    pub source: Source,
    pub source_ref: Option<Seq<char>>,
    pub sensitivity: Sensitivity,
    pub expires: Option<Timestamp>,
    pub relations: Seq<RelationView>,
    pub tags: Seq<Seq<char>>,
}

impl View for NoteDraft {
    type V = DraftView;

    open spec fn view(&self) -> DraftView {
        DraftView {
            node_type: self.node_type,
            title: self.title@,
            body: self.body@,
            project: opt_view(self.project),
            status: self.status,
            confidence: self.confidence as int,
            importance: self.importance as int,
            source: self.source,
            source_ref: opt_view(self.source_ref),
            sensitivity: self.sensitivity,
            expires: self.expires,
            relations: relations_of(self.relations@),
            tags: views(self.tags@),
        }
    }
}

impl NoteDraft {
    /// A copy of the draft.
    pub fn copy(&self) -> (r: Self)
        ensures
            r@ == self@,
    {
        NoteDraft {
            node_type: self.node_type,
            title: self.title.clone(),
            body: self.body.clone(),
            project: self.project.duplicate(),
            status: self.status,
            confidence: self.confidence,
            importance: self.importance,
            source: self.source,
            source_ref: self.source_ref.duplicate(),
            sensitivity: self.sensitivity,
            expires: self.expires,
            relations: duplicate_all(&self.relations),
            tags: duplicate_all(&self.tags),
        }
    }
}

/// A note of the vault.
#[derive(Debug, Clone, PartialEq, Eq)]
pub struct Note {
    pub id: String,
    pub node_type: NodeType,
    pub title: String,
    pub body: String,
    pub project: Option<String>,
    pub created: Timestamp,
    pub relations: Vec<Relation>,
}

/// What a `Note` holds.
#[verifier::ext_equal]
pub struct NoteView {
    pub id: Seq<char>,
    pub node_type: NodeType,
    pub title: Seq<char>,
    pub body: Seq<char>,
    pub project: Option<Seq<char>>,
    pub created: int,
    pub relations: Seq<RelationView>,
}

impl View for Note {
    type V = NoteView;

    open spec fn view(&self) -> NoteView {
        NoteView {
            id: self.id@,
            node_type: self.node_type,
            title: self.title@,
            body: self.body@,
            project: opt_view(self.project),
            created: self.created.nanos as int,
            relations: relations_of(self.relations@),
        }
    }
}

impl Note {
    /// A copy of the note.
    pub fn copy(&self) -> (r: Self)
        ensures
            r@ == self@,
    {
        Note {
            id: self.id.clone(),
            node_type: self.node_type,
            title: self.title.clone(),
            body: self.body.clone(),
            project: self.project.duplicate(),
            created: self.created,
            relations: duplicate_all(&self.relations),
        }
    }
}

/// What a search of the vault finds.
#[derive(Debug, Clone, PartialEq, Eq)]
pub struct NodeSummary {
    pub id: String,
    pub node_type: NodeType,
    pub title: String,
    pub project: Option<String>,
    pub status: NodeStatus,
    pub snippet: Option<String>,
}

impl Duplicate for NodeSummary {
    fn duplicate(&self) -> (r: Self) {
        NodeSummary {
            id: self.id.clone(),
            node_type: self.node_type,
            title: self.title.clone(),
            project: self.project.duplicate(),
            status: self.status,
            snippet: self.snippet.duplicate(),
        }
    }
}

/// An event on the timeline of the vault.
#[derive(Debug, Clone, PartialEq, Eq)]
pub struct Event {
    pub id: i64,
    /// When it happened, as it is stored: an RFC 3339 text unless somebody edited it.
    pub ts: String,
    pub kind: String,
    pub text: String,
}

/// What an `Event` holds.
pub struct EventView {
    pub id: int,
    pub ts: Seq<char>,
    pub kind: Seq<char>,
    pub text: Seq<char>,
}

impl View for Event {
    type V = EventView;

    open spec fn view(&self) -> EventView {
        EventView { id: self.id as int, ts: self.ts@, kind: self.kind@, text: self.text@ }
    }
}

/// What a list of events holds.
pub open spec fn events_of(l: Seq<Event>) -> Seq<EventView> {
    l.map_values(|e: Event| e@)
}

/// An event that is to be put on the timeline.
#[derive(Debug, Clone, PartialEq, Eq)]
pub struct NewEvent {
    pub kind: String,
    pub text: String,
    pub project: Option<String>,
    pub node_id: Option<String>,
    pub local_only: bool,
}

/// What a `NewEvent` holds.
#[verifier::ext_equal]
pub struct NewEventView {
    pub kind: Seq<char>,
    pub text: Seq<char>,
    pub project: Option<Seq<char>>,
    pub node_id: Option<Seq<char>>,
    pub local_only: bool,
}

impl View for NewEvent {
    type V = NewEventView;

    open spec fn view(&self) -> NewEventView {
        NewEventView {
            kind: self.kind@,
            text: self.text@,
            project: opt_view(self.project),
            node_id: opt_view(self.node_id),
            local_only: self.local_only,
        }
    }
}

impl Duplicate for NewEvent {
    fn duplicate(&self) -> (r: Self) {
        NewEvent {
            kind: self.kind.clone(),
            text: self.text.clone(),
            project: self.project.duplicate(),
            node_id: self.node_id.duplicate(),
            local_only: self.local_only,
        }
    }
}

} // verus!
