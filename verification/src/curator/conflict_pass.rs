//! # Holding new notes against old ones
//!
//! Each note that a pass has written is held against the older notes that it may contradict. The
//! vault and the model are asked from outside: `action` says what is to be asked next, and `settle`
//! takes in the answer. Whatever fails is passed over at the smallest scope: a pair, or a note.
use vstd::prelude::*;
use crate::curator::conflict::{
    already_proposed, apply_verdict, build_conflict_prompt, evaluate_pair, find_partners,
    parse_verdict, PairStep, Verdict,
};
use crate::curator::scan::Shape;
use crate::note::{NodeSummary, Note};
#[allow(unused_imports)]
use crate::curator::conflict::{
    conflict_prompt, is_conflict, law_partners_count, law_proposal_is_made_once, partners_of,
    proposes, proposing, verdict_of, MAX_PARTNERS,
};
#[allow(unused_imports)]
use crate::curator::scan::{attempts, closed_count};
#[allow(unused_imports)]
use crate::note::NoteView;
#[allow(unused_imports)]
use crate::text::views;

verus! {

/// How many notes a search for partners may find.
pub const PARTNER_SEARCH_LIMIT: usize = 5;

/// The tokens that a verdict may take.
pub const VERDICT_MAX_TOKENS: u32 = 256;

/// What is to be done next.
#[derive(Debug, Clone, PartialEq, Eq)]
pub enum ConflictAction {
    /// Load the note with this id.
    Load(String),
    /// Search the vault.
    Search { query: String, limit: usize },
    /// Ask the model.
    Ask { prompt: String, max_tokens: u32 },
    /// Save this note.
    Save(Note),
    /// Nothing: so many proposals were saved.
    Finished(usize),
}

/// What came of it.
#[derive(Debug, Clone, PartialEq, Eq)]
pub enum ConflictAnswer {
    Loaded(Note),
    Found(Vec<NodeSummary>),
    /// What the model said, and what came of reading, as a verdict, each text that
    /// `json_attempts` finds in it.
    Replied { raw: String, readings: Vec<Result<Verdict, String>> },
    Saved,
    Failed,
}

/// What the pass waits for.
enum Phase {
    Note,
    Search { note: Note },
    Partner { note: Note, partners: Vec<NodeSummary>, at: usize },
    Verdict {
        note: Note,
        partners: Vec<NodeSummary>,
        at: usize,
        prompt: String,
        asked_again: bool,
    },
    Save { note: Note, partners: Vec<NodeSummary>, at: usize },
    Finished,
}

/// What the pass waits for.
pub enum PhaseView {
    /// The new note.
    Note,
    /// The notes that it may be held against.
    Search { note: NoteView },
    /// The old note of a pair.
    Partner { note: NoteView, partners: Seq<NodeSummary>, at: int },
    /// What the model says of a pair.
    Verdict {
        note: NoteView,
        partners: Seq<NodeSummary>,
        at: int,
        prompt: Seq<char>,
        asked_again: bool,
    },
    /// The new note to be saved, with what it proposes.
    Save { note: NoteView, partners: Seq<NodeSummary>, at: int },
    /// Nothing more.
    Finished,
}

/// A pass over the notes that were written last.
pub struct ConflictPass {
    template: String,
    ids: Vec<String>,
    next: usize,
    created: usize,
    phase: Phase,
}

/// Where a `ConflictPass` stands.
pub struct ConflictView {
    pub template: Seq<char>,
    /// The ids of the new notes.
    pub ids: Seq<Seq<char>>,
    /// Which of them is at hand.
    pub next: int,
    /// How many proposals were saved.
    pub created: int,
    pub phase: PhaseView,
}

impl View for Phase {
    type V = PhaseView;

    closed spec fn view(&self) -> PhaseView {
        match *self {
            Phase::Note => PhaseView::Note,
            Phase::Search { note } => PhaseView::Search { note: note@ },
            Phase::Partner { note, partners, at } => PhaseView::Partner {
                note: note@,
                partners: partners@,
                at: at as int,
            },
            Phase::Verdict { note, partners, at, prompt, asked_again } => PhaseView::Verdict {
                note: note@,
                partners: partners@,
                at: at as int,
                prompt: prompt@,
                asked_again,
            },
            Phase::Save { note, partners, at } => PhaseView::Save {
                note: note@,
                partners: partners@,
                at: at as int,
            },
            Phase::Finished => PhaseView::Finished,
        }
    }
}

impl View for ConflictPass {
    type V = ConflictView;

    closed spec fn view(&self) -> ConflictView {
        ConflictView {
            template: self.template@,
            ids: views(self.ids@),
            next: self.next as int,
            created: self.created as int,
            phase: self.phase@,
        }
    }
}

impl ConflictView {
    /// A pass at its beginning.
    pub open spec fn at_start(template: Seq<char>, ids: Seq<Seq<char>>) -> ConflictView {
        ConflictView {
            template,
            ids,
            next: 0,
            created: 0,
            phase: if ids.len() == 0 {
                PhaseView::Finished
            } else {
                PhaseView::Note
            },
        }
    }

    /// Whether the pass can stand like this: the note at hand is one of the new ones, the pair at
    /// hand is one of at most two, and it is not asked about what the note already proposes.
    pub open spec fn sound(self) -> bool {
        &&& 0 <= self.next <= self.ids.len()
        &&& self.phase !is Finished ==> self.next < self.ids.len()
        &&& match self.phase {
            PhaseView::Partner { note, partners, at } => 0 <= at < partners.len()
                && partners.len() <= MAX_PARTNERS && !proposes(note.relations, partners[at].id@),
            PhaseView::Verdict { note, partners, at, prompt, asked_again } => 0 <= at
                < partners.len() && partners.len() <= MAX_PARTNERS && !proposes(
                note.relations,
                partners[at].id@,
            ),
            PhaseView::Save { note, partners, at } => 0 <= at < partners.len() && partners.len()
                <= MAX_PARTNERS && proposes(note.relations, partners[at].id@),
            _ => true,
        }
    }

    /// The pass with the next new note at hand.
    pub open spec fn next_note(self) -> ConflictView {
        ConflictView {
            next: self.next + 1,
            phase: if self.next + 1 < self.ids.len() {
                PhaseView::Note
            } else {
                PhaseView::Finished
            },
            ..self
        }
    }

    /// The pass with the first pair at hand, from `at` on, that the note does not propose yet; with
    /// the next new note where there is no such pair.
    pub open spec fn pair_from(
        self,
        note: NoteView,
        partners: Seq<NodeSummary>,
        at: int,
    ) -> ConflictView
        decreases partners.len() - at,
    {
        if at >= partners.len() {
            self.next_note()
        } else if proposes(note.relations, partners[at].id@) {
            self.pair_from(note, partners, at + 1)
        } else {
            ConflictView { phase: PhaseView::Partner { note, partners, at }, ..self }
        }
    }

    /// Whether an answer is one to what was asked. Everything can fail.
    pub open spec fn takes(self, answer: ConflictAnswer) -> bool {
        match answer {
            ConflictAnswer::Loaded(_) => self.phase is Note || self.phase is Partner,
            ConflictAnswer::Found(_) => self.phase is Search,
            ConflictAnswer::Replied { raw, readings } => self.phase is Verdict && readings@.len()
                == closed_count(attempts(raw@, Shape::Object)),
            ConflictAnswer::Saved => self.phase is Save,
            ConflictAnswer::Failed => self.phase !is Finished,
        }
    }

    /// The pass after an answer. A reply that cannot be read is asked for once more; a verdict that
    /// is followed is written into the new note, which is then saved.
    pub open spec fn settled(self, answer: ConflictAnswer) -> ConflictView {
        match self.phase {
            PhaseView::Note => match answer {
                ConflictAnswer::Loaded(n) => ConflictView {
                    phase: PhaseView::Search { note: n@ },
                    ..self
                },
                _ => self.next_note(),
            },
            PhaseView::Search { note } => match answer {
                ConflictAnswer::Found(hits) => self.pair_from(note, partners_of(hits@, note), 0),
                _ => self.next_note(),
            },
            PhaseView::Partner { note, partners, at } => match answer {
                ConflictAnswer::Loaded(o) => ConflictView {
                    phase: PhaseView::Verdict {
                        note,
                        partners,
                        at,
                        prompt: conflict_prompt(self.template, o@, note),
                        asked_again: false,
                    },
                    ..self
                },
                _ => self.pair_from(note, partners, at + 1),
            },
            PhaseView::Verdict { note, partners, at, prompt, asked_again } => match answer {
                ConflictAnswer::Replied { raw, readings } => match verdict_of(raw@, readings@) {
                    Ok(v) => if is_conflict(v) {
                        ConflictView {
                            phase: PhaseView::Save {
                                note: proposing(note, partners[at].id@, v.confidence as int),
                                partners,
                                at,
                            },
                            ..self
                        }
                    } else {
                        self.pair_from(note, partners, at + 1)
                    },
                    Err(e) => if asked_again {
                        self.pair_from(note, partners, at + 1)
                    } else {
                        ConflictView {
                            phase: PhaseView::Verdict {
                                note,
                                partners,
                                at,
                                prompt: prompt + "\n\nYour previous reply was invalid: "@ + e
                                    + ". Reply with ONLY the JSON object."@,
                                asked_again: true,
                            },
                            ..self
                        }
                    },
                },
                _ => self.pair_from(note, partners, at + 1),
            },
            PhaseView::Save { note, partners, at } => match answer {
                ConflictAnswer::Saved => ConflictView {
                    created: self.created + 1,
                    ..self
                }.pair_from(note, partners, at + 1),
                _ => self.pair_from(note, partners, at + 1),
            },
            PhaseView::Finished => self,
        }
    }

    /// How far the pass is from its end, at most.
    pub open spec fn left(self) -> int {
        let notes = 16 * (self.ids.len() - self.next);
        match self.phase {
            PhaseView::Note => notes + 15,
            PhaseView::Search { note } => notes + 14,
            PhaseView::Partner { note, partners, at } => notes + 5 * (partners.len() - at),
            PhaseView::Verdict { note, partners, at, prompt, asked_again } => notes + 5 * (
            partners.len() - at) - (if asked_again {
                2int
            } else {
                1int
            }),
            PhaseView::Save { note, partners, at } => notes + 5 * (partners.len() - at) - 3,
            PhaseView::Finished => 0,
        }
    }
}

impl ConflictPass {
    /// A pass over the notes with the given ids.
    pub fn begin(template: &str, new_note_ids: Vec<String>) -> (r: Self)
        ensures
            r@ == ConflictView::at_start(template@, views(new_note_ids@)),
            r@.sound(),
    {
        assert(views(new_note_ids@).len() == new_note_ids@.len());
        let phase = if new_note_ids.len() == 0 {
            Phase::Finished
        } else {
            Phase::Note
        };
        ConflictPass { template: template.to_owned(), ids: new_note_ids, next: 0, created: 0, phase }
    }

    /// What is to be done next.
    pub fn action(&self) -> (r: ConflictAction)
        requires
            self@.sound(),
        ensures
            match self@.phase {
                PhaseView::Note => r matches ConflictAction::Load(id) && id@
                    == self@.ids[self@.next],
                PhaseView::Search { note } => r matches ConflictAction::Search { query, limit }
                    && query@ == note.title && limit == PARTNER_SEARCH_LIMIT,
                PhaseView::Partner { note, partners, at } => r matches ConflictAction::Load(id)
                    && id@ == partners[at].id@,
                PhaseView::Verdict { note, partners, at, prompt, asked_again } => r
                    matches ConflictAction::Ask { prompt: p, max_tokens } && p@ == prompt
                    && max_tokens == VERDICT_MAX_TOKENS,
                PhaseView::Save { note, partners, at } => r matches ConflictAction::Save(n) && n@
                    == note,
                PhaseView::Finished => r matches ConflictAction::Finished(n) && n == self@.created,
            },
    {
        match &self.phase {
            Phase::Note => ConflictAction::Load(self.ids[self.next].clone()),
            Phase::Search { note } => ConflictAction::Search {
                query: note.title.clone(),
                limit: PARTNER_SEARCH_LIMIT,
            },
            Phase::Partner { note: _, partners, at } => ConflictAction::Load(
                partners[*at].id.clone(),
            ),
            Phase::Verdict { note: _, partners: _, at: _, prompt, asked_again: _ } =>
                ConflictAction::Ask { prompt: prompt.clone(), max_tokens: VERDICT_MAX_TOKENS },
            Phase::Save { note, partners: _, at: _ } => ConflictAction::Save(note.copy()),
            Phase::Finished => ConflictAction::Finished(self.created),
        }
    }

    /// The pass with the next new note at hand.
    fn to_next_note(self) -> (r: Self)
        requires
            self@.next < self@.ids.len(),
        ensures
            r@ == self@.next_note(),
    {
        assert(views(self.ids@).len() == self.ids@.len());
        assert(self.next < self.ids.len());
        let next: usize = self.next + 1;
        let phase = if next < self.ids.len() {
            Phase::Note
        } else {
            Phase::Finished
        };
        ConflictPass { next, phase, ..self }
    }

    /// The pass with the first pair at hand, from `at` on, that the note does not propose yet.
    fn to_pair(self, note: Note, partners: Vec<NodeSummary>, at: usize) -> (r: Self)
        requires
            self@.next < self@.ids.len(),
            at <= partners@.len(),
        ensures
            r@ == self@.pair_from(note@, partners@, at as int),
    {
        let mut i: usize = at;
        while i < partners.len() && already_proposed(&note, partners[i].id.as_str())
            invariant
                i <= partners@.len(),
                self@.pair_from(note@, partners@, at as int) == self@.pair_from(
                    note@,
                    partners@,
                    i as int,
                ),
            decreases partners@.len() - i,
        {
            i = i + 1;
        }
        if i < partners.len() {
            ConflictPass { phase: Phase::Partner { note, partners, at: i }, ..self }
        } else {
            self.to_next_note()
        }
    }

    /// Takes in an answer.
    pub fn settle(self, answer: ConflictAnswer) -> (r: Self)
        requires
            self@.sound(),
            self@.takes(answer),
            answer is Saved ==> self@.created < usize::MAX,
        ensures
            r@ == self@.settled(answer),
            r@.sound(),
    {
        let ghost before = self@;
        proof {
            law_settled_is_sound(before, answer);
        }
        let ConflictPass { template, ids, next, created, phase } = self;
        match phase {
            Phase::Note => {
                let pass = ConflictPass { template, ids, next, created, phase: Phase::Note };
                match answer {
                    ConflictAnswer::Loaded(note) => ConflictPass {
                        phase: Phase::Search { note },
                        ..pass
                    },
                    _ => pass.to_next_note(),
                }
            },
            Phase::Search { note } => {
                let pass = ConflictPass { template, ids, next, created, phase: Phase::Note };
                match answer {
                    ConflictAnswer::Found(hits) => {
                        let partners = find_partners(&hits, &note);
                        proof {
                            lemma_pair_from(pass@, before, note@, partners@, 0);
                        }
                        pass.to_pair(note, partners, 0)
                    },
                    _ => pass.to_next_note(),
                }
            },
            Phase::Partner { note, partners, at } => {
                let pass = ConflictPass { template, ids, next, created, phase: Phase::Note };
                proof {
                    lemma_pair_from(pass@, before, note@, partners@, at + 1);
                }
                match answer {
                    ConflictAnswer::Loaded(old_note) => {
                        let prompt = build_conflict_prompt(
                            pass.template.as_str(),
                            &old_note,
                            &note,
                        );
                        ConflictPass {
                            phase: Phase::Verdict { note, partners, at, prompt, asked_again: false },
                            ..pass
                        }
                    },
                    _ => pass.to_pair(note, partners, at + 1),
                }
            },
            Phase::Verdict { note, partners, at, prompt, asked_again } => {
                let pass = ConflictPass { template, ids, next, created, phase: Phase::Note };
                proof {
                    lemma_pair_from(pass@, before, note@, partners@, at + 1);
                }
                match answer {
                    ConflictAnswer::Replied { raw, readings } => {
                        let reply = parse_verdict(raw.as_str(), readings);
                        match evaluate_pair(prompt.as_str(), reply, asked_again) {
                            PairStep::Answered(verdict) => {
                                let mut note = note;
                                if apply_verdict(&mut note, partners[at].id.as_str(), &verdict) {
                                    ConflictPass {
                                        phase: Phase::Save { note, partners, at },
                                        ..pass
                                    }
                                } else {
                                    pass.to_pair(note, partners, at + 1)
                                }
                            },
                            PairStep::AskAgain(prompt) => ConflictPass {
                                phase: Phase::Verdict {
                                    note,
                                    partners,
                                    at,
                                    prompt,
                                    asked_again: true,
                                },
                                ..pass
                            },
                            PairStep::GiveUp(_) => pass.to_pair(note, partners, at + 1),
                        }
                    },
                    _ => pass.to_pair(note, partners, at + 1),
                }
            },
            Phase::Save { note, partners, at } => {
                let created: usize = match answer {
                    ConflictAnswer::Saved => created + 1,
                    _ => created,
                };
                let pass = ConflictPass { template, ids, next, created, phase: Phase::Note };
                proof {
                    let counted = ConflictView { created: created as int, ..before };
                    lemma_pair_from(pass@, counted, note@, partners@, at + 1);
                }
                pass.to_pair(note, partners, at + 1)
            },
            Phase::Finished => ConflictPass { template, ids, next, created, phase: Phase::Finished },
        }
    }
}

/// What stands before a pair does not matter to where the pass goes on.
proof fn lemma_pair_from(
    s: ConflictView,
    t: ConflictView,
    note: NoteView,
    partners: Seq<NodeSummary>,
    at: int,
)
    requires
        s == (ConflictView { phase: s.phase, ..t }),
    ensures
        s.pair_from(note, partners, at) == t.pair_from(note, partners, at),
    decreases partners.len() - at,
{
    if at < partners.len() {
        lemma_pair_from(s, t, note, partners, at + 1);
    }
}

/// Where a pass goes on is sound, and nearer to the end than any earlier pair.
proof fn lemma_pair_sound(
    s: ConflictView,
    note: NoteView,
    partners: Seq<NodeSummary>,
    at: int,
)
    requires
        0 <= s.next < s.ids.len(),
        0 <= at <= partners.len(),
        partners.len() <= MAX_PARTNERS,
    ensures
        s.pair_from(note, partners, at).sound(),
        s.pair_from(note, partners, at).created == s.created,
        0 <= s.pair_from(note, partners, at).left() <= 16 * (s.ids.len() - s.next) + 5 * (
        partners.len() - at),
    decreases partners.len() - at,
{
    if at < partners.len() {
        lemma_pair_sound(s, note, partners, at + 1);
    }
}

/// A pass that takes in an answer stays sound, and comes nearer to its end.
pub proof fn law_settled_is_sound(s: ConflictView, answer: ConflictAnswer)
    requires
        s.sound(),
        s.takes(answer),
    ensures
        s.settled(answer).sound(),
        0 <= s.settled(answer).left() < s.left(),
{
    match s.phase {
        PhaseView::Note => {},
        PhaseView::Search { note } => {
            if let ConflictAnswer::Found(hits) = answer {
                law_partners_count(hits@, note);
                lemma_pair_sound(s, note, partners_of(hits@, note), 0);
            }
        },
        PhaseView::Partner { note, partners, at } => {
            lemma_pair_sound(s, note, partners, at + 1);
        },
        PhaseView::Verdict { note, partners, at, prompt, asked_again } => {
            lemma_pair_sound(s, note, partners, at + 1);
            if let ConflictAnswer::Replied { raw, readings } = answer {
                if let Ok(v) = verdict_of(raw@, readings@) {
                    law_proposal_is_made_once(note, partners[at].id@, v.confidence as int);
                }
            }
        },
        PhaseView::Save { note, partners, at } => {
            lemma_pair_sound(s, note, partners, at + 1);
            lemma_pair_sound(
                ConflictView { created: s.created + 1, ..s },
                note,
                partners,
                at + 1,
            );
        },
        PhaseView::Finished => {},
    }
}

/// A pass ends, whatever the answers are: each brings it nearer to its end.
pub proof fn law_conflict_pass_ends(s: ConflictView, answer: ConflictAnswer)
    requires
        s.sound(),
        s.takes(answer),
    ensures
        0 <= s.settled(answer).left() < s.left(),
        s.settled(answer).left() == 0 <==> s.settled(answer).phase is Finished,
{
    law_settled_is_sound(s, answer);
}

/// A failure costs a pair or a note, never the pass: what was counted stays, and the pass is at
/// its end only where no note is left.
pub proof fn law_conflict_failure_is_contained(s: ConflictView)
    requires
        s.sound(),
        s.phase !is Finished,
    ensures
        s.settled(ConflictAnswer::Failed).created == s.created,
        s.next + 1 < s.ids.len() ==> s.settled(ConflictAnswer::Failed).phase !is Finished,
        s.phase is Note || s.phase is Search ==> s.settled(ConflictAnswer::Failed)
            == s.next_note(),
{
    law_settled_is_sound(s, ConflictAnswer::Failed);
    match s.phase {
        PhaseView::Partner { note, partners, at } => {
            lemma_pair_goes_on(s, note, partners, at + 1);
        },
        PhaseView::Verdict { note, partners, at, prompt, asked_again } => {
            lemma_pair_goes_on(s, note, partners, at + 1);
        },
        PhaseView::Save { note, partners, at } => {
            lemma_pair_goes_on(s, note, partners, at + 1);
        },
        _ => {},
    }
}

proof fn lemma_pair_goes_on(
    s: ConflictView,
    note: NoteView,
    partners: Seq<NodeSummary>,
    at: int,
)
    ensures
        s.pair_from(note, partners, at).created == s.created,
        s.next + 1 < s.ids.len() ==> s.pair_from(note, partners, at).phase !is Finished,
    decreases partners.len() - at,
{
    if at < partners.len() {
        lemma_pair_goes_on(s, note, partners, at + 1);
    }
}

/// Only the new note is changed, and only by one relation that it did not have: it is saved as it
/// was loaded, with a proposal against the old note of the pair.
pub proof fn law_only_a_proposal_is_saved(s: ConflictView, answer: ConflictAnswer)
    requires
        s.sound(),
        s.takes(answer),
        s.phase is Verdict,
        s.settled(answer).phase is Save,
    ensures
        s.phase matches PhaseView::Verdict { note, partners, at, prompt, asked_again } && s.settled(
            answer,
        ).phase matches PhaseView::Save { note: changed, partners: _, at: _ } && changed
            == proposing(note, partners[at].id@, changed.relations.last().confidence)
            && !proposes(note.relations, partners[at].id@),
{
    law_settled_is_sound(s, answer);
    if let PhaseView::Verdict { note, partners, at, prompt, asked_again } = s.phase {
        lemma_pair_never_saves(s, note, partners, at + 1);
    }
}

proof fn lemma_pair_never_saves(
    s: ConflictView,
    note: NoteView,
    partners: Seq<NodeSummary>,
    at: int,
)
    ensures
        s.pair_from(note, partners, at).phase !is Save,
    decreases partners.len() - at,
{
    if at < partners.len() {
        lemma_pair_never_saves(s, note, partners, at + 1);
    }
}

} // verus!
