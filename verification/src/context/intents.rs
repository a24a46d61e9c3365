//! # Intents
//!
//! What the user asks for on the context page. An intent is written to a file by one process and
//! applied by another, possibly much later: an intent does not expire, and one that comes twice is
//! applied once.
use std::collections::VecDeque;
use vstd::prelude::*;
use crate::outside::{clock_millis, random_id};
use crate::sorted::add_to_list;
use crate::text::{chars_of, queue_contains, same, string_of};
use crate::time::Timestamp;
#[allow(unused_imports)]
use crate::outside::is_hyphenated;
#[allow(unused_imports)]
use crate::sorted::sorted_list;
#[allow(unused_imports)]
use crate::text::{ascii_lower, char_prefix, ends_with, views};

verus! {

/// The folder that intents are written to.
pub const CONTEXT_INTENTS_SUBDIR: &'static str = "context-intents";

/// How many ids are remembered.
pub const SEEN_IDS_CAP: usize = 512;

/// A field of the session state that the user can correct and pin.
#[derive(Debug, Clone, Copy, PartialEq, Eq, Structural)]
pub enum SessionField {
    Project,
    Goal,
    Task,
}

/// The name of a field.
pub open spec fn field_name(field: SessionField) -> Seq<char> {
    match field {
        SessionField::Project => "project"@,
        SessionField::Goal => "goal"@,
        SessionField::Task => "task"@,
    }
}

/// The field with a given name.
pub open spec fn field_named(s: Seq<char>) -> Option<SessionField> {
    if s == "project"@ {
        Some(SessionField::Project)
    } else if s == "goal"@ {
        Some(SessionField::Goal)
    } else if s == "task"@ {
        Some(SessionField::Task)
    } else {
        None
    }
}

impl SessionField {
    /// The name of the field.
    pub fn as_str(self) -> (r: &'static str)
        ensures
            r@ == field_name(self),
    {
        match self {
            SessionField::Project => "project",
            SessionField::Goal => "goal",
            SessionField::Task => "task",
        }
    }

    /// The field with a given name.
    pub fn parse(s: &str) -> (r: Option<Self>)
        ensures
            r == field_named(s@),
    {
        if same(s, "project") {
            Some(SessionField::Project)
        } else if same(s, "goal") {
            Some(SessionField::Goal)
        } else if same(s, "task") {
            Some(SessionField::Task)
        } else {
            None
        }
    }
}

/// A kind of observation that the user can switch on and off.
#[derive(Debug, Clone, Copy, PartialEq, Eq, Structural)]
pub enum ToggleName {
    Mic,
    Screen,
    Files,
    Git,
    PauseAll,
}

/// The name of a toggle.
pub open spec fn toggle_name(toggle: ToggleName) -> Seq<char> {
    match toggle {
        ToggleName::Mic => "mic"@,
        ToggleName::Screen => "screen"@,
        ToggleName::Files => "files"@,
        ToggleName::Git => "git"@,
        ToggleName::PauseAll => "pause_all"@,
    }
}

/// The toggle with a given name.
pub open spec fn toggle_named(s: Seq<char>) -> Option<ToggleName> {
    if s == "mic"@ {
        Some(ToggleName::Mic)
    } else if s == "screen"@ {
        Some(ToggleName::Screen)
    } else if s == "files"@ {
        Some(ToggleName::Files)
    } else if s == "git"@ {
        Some(ToggleName::Git)
    } else if s == "pause_all"@ {
        Some(ToggleName::PauseAll)
    } else {
        None
    }
}

impl ToggleName {
    /// The name of the toggle.
    pub fn as_str(self) -> (r: &'static str)
        ensures
            r@ == toggle_name(self),
    {
        match self {
            ToggleName::Mic => "mic",
            ToggleName::Screen => "screen",
            ToggleName::Files => "files",
            ToggleName::Git => "git",
            ToggleName::PauseAll => "pause_all",
        }
    }

    /// The toggle with a given name.
    pub fn parse(s: &str) -> (r: Option<Self>)
        ensures
            r == toggle_named(s@),
    {
        if same(s, "mic") {
            Some(ToggleName::Mic)
        } else if same(s, "screen") {
            Some(ToggleName::Screen)
        } else if same(s, "files") {
            Some(ToggleName::Files)
        } else if same(s, "git") {
            Some(ToggleName::Git)
        } else if same(s, "pause_all") {
            Some(ToggleName::PauseAll)
        } else {
            None
        }
    }
}

/// Every field and every toggle is found again by its name.
pub proof fn law_tokens_round_trip(field: SessionField, toggle: ToggleName)
    ensures
        field_named(field_name(field)) == Some(field),
        toggle_named(toggle_name(toggle)) == Some(toggle),
{
    reveal_strlit("project");
    reveal_strlit("goal");
    reveal_strlit("task");
    reveal_strlit("mic");
    reveal_strlit("screen");
    reveal_strlit("files");
    reveal_strlit("git");
    reveal_strlit("pause_all");
    assert("goal"@[0] != "task"@[0]);
    assert("mic"@[0] != "git"@[0]);
    assert("project"@.len() == 7);
    assert("goal"@.len() == 4 && "task"@.len() == 4);
    assert("mic"@.len() == 3 && "git"@.len() == 3);
    assert("screen"@.len() == 6 && "files"@.len() == 5 && "pause_all"@.len() == 9);
}

/// What the user asks for.
#[derive(Debug, Clone, PartialEq, Eq)]
pub enum ContextAction {
    /// A project is to be known.
    AddProject { name: String, root_path: String, project_id: Option<String> },
    /// A project that was discovered is one.
    ConfirmProject { project_id: String },
    /// A field of the session state is wrong.
    Correct {
        field: SessionField,
        value: String,
        match_process: Option<String>,
        match_title_substring: Option<String>,
    },
    /// What is on the screen does not belong to a project.
    NotThisProject {
        project_id: String,
        match_process: Option<String>,
        match_title_substring: Option<String>,
    },
    /// A field of the session state is to stay as it is, or no longer.
    Pin { field: SessionField, value: Option<String> },
    /// Something that was observed is to be deleted.
    Forget { raw_reference: Option<String>, event_id: Option<i64> },
    /// Everything that was observed in a span of time is to be deleted.
    DeleteRange { from: Timestamp, to: Timestamp },
    /// An observation is to be switched on or off.
    SetToggle { name: ToggleName, value: bool },
    /// The user asked for something elsewhere.
    RecordUserCommand { text: String },
}

/// The name of the kind of an action.
pub open spec fn kind_name(action: ContextAction) -> Seq<char> {
    match action {
        ContextAction::AddProject { .. } => "add_project"@,
        ContextAction::ConfirmProject { .. } => "confirm_project"@,
        ContextAction::Correct { .. } => "correct"@,
        ContextAction::NotThisProject { .. } => "not_this_project"@,
        ContextAction::Pin { .. } => "pin"@,
        ContextAction::Forget { .. } => "forget"@,
        ContextAction::DeleteRange { .. } => "delete_range"@,
        ContextAction::SetToggle { .. } => "set_toggle"@,
        ContextAction::RecordUserCommand { .. } => "record_user_command"@,
    }
}

impl ContextAction {
    /// The name of the kind of the action.
    pub fn kind_label(&self) -> (r: &'static str)
        ensures
            r@ == kind_name(*self),
    {
        match self {
            ContextAction::AddProject { .. } => "add_project",
            ContextAction::ConfirmProject { .. } => "confirm_project",
            ContextAction::Correct { .. } => "correct",
            ContextAction::NotThisProject { .. } => "not_this_project",
            ContextAction::Pin { .. } => "pin",
            ContextAction::Forget { .. } => "forget",
            ContextAction::DeleteRange { .. } => "delete_range",
            ContextAction::SetToggle { .. } => "set_toggle",
            ContextAction::RecordUserCommand { .. } => "record_user_command",
        }
    }
}

/// An action, with what tells it from others.
#[derive(Debug, Clone, PartialEq, Eq)]
pub struct ContextIntent {
    pub action: ContextAction,
    pub id: String,
    /// When it was made, in milliseconds since the Unix epoch.
    pub created: u64,
}

impl ContextIntent {
    /// An intent with the given id, made when the clock read `millis`: milliseconds since the Unix
    /// epoch, or nothing where the clock stands before it, which counts as the epoch.
    pub fn stamped(action: ContextAction, id: String, millis: Option<u128>) -> (r: Self)
        ensures
            r.action == action,
            r.id == id,
            r.created == (match millis {
                Some(m) => m as u64,
                None => 0,
            }),
    {
        ContextIntent {
            action,
            id,
            created: match millis {
                Some(m) => #[verifier::truncate] (m as u64),
                None => 0,
            },
        }
    }

    /// An intent that is made now, under an id of its own.
    pub fn new(action: ContextAction) -> (r: Self)
        ensures
            r.action == action,
            is_hyphenated(r.id@),
            ascii_lower(r.id@) == r.id@,
            r.id@[14] == '4',
    {
        ContextIntent::stamped(action, random_id(), clock_millis())
    }
}

/// The name of the file that an intent is written to at the time `stamp`.
pub open spec fn file_name_of(stamp: Seq<char>, kind: Seq<char>, id: Seq<char>) -> Seq<char> {
    stamp + "-"@ + kind + "-"@ + char_prefix(id, 8) + ".json"@
}

/// The name of the file that an intent is written to. The time comes first, so that the names sort
/// in the order in which the intents were made; the start of the id keeps two intents of the same
/// moment apart.
pub fn intent_file_name(stamp: &str, intent: &ContextIntent) -> (r: String)
    ensures
        r@ == file_name_of(stamp@, kind_name(intent.action), intent.id@),
{
    let mut name: String = stamp.to_owned();
    name.append("-");
    name.append(intent.action.kind_label());
    name.append("-");
    let cs = chars_of(intent.id.as_str());
    let n: usize = if cs.len() <= 8 {
        cs.len()
    } else {
        8
    };
    proof {
        assert(cs@.subrange(0, n as int) == char_prefix(intent.id@, 8));
    }
    name.append(string_of(cs.as_slice(), 0, n).as_str());
    name.append(".json");
    name
}

/// Whether a file name is that of an intent: something before a last `.json`.
pub open spec fn names_intent(name: Seq<char>) -> bool {
    name.len() > 5 && ends_with(name, ".json"@)
}

/// Whether a file in the folder of intents is to be read.
pub fn is_intent_file(name: &str) -> (r: bool)
    ensures
        r == names_intent(name@),
{
    name.unicode_len() > 5 && crate::text::ends(name, ".json")
}

/// The file names among some that are those of intents.
pub open spec fn only_intents(names: Seq<Seq<char>>) -> Seq<Seq<char>>
    decreases names.len(),
{
    if names.len() == 0 {
        seq![]
    } else if names_intent(names.last()) {
        only_intents(names.drop_last()).push(names.last())
    } else {
        only_intents(names.drop_last())
    }
}

/// The files of a folder that are to be read, in the order of their names. A name begins with the
/// time at which the intent was made, so the oldest comes first.
pub fn intent_files(names: &Vec<String>) -> (r: Vec<String>)
    ensures
        views(r@) == sorted_list(only_intents(views(names@))),
{
    let mut r: Vec<String> = Vec::new();
    let mut i: usize = 0;
    proof {
        assert(views(r@) =~= seq![]);
        assert(views(names@).take(0) == Seq::<Seq<char>>::empty());
    }
    while i < names.len()
        invariant
            i <= names.len(),
            views(r@) == sorted_list(only_intents(views(names@).take(i as int))),
        decreases names.len() - i,
    {
        proof {
            let now = views(names@).take(i + 1);
            assert(now.drop_last() == views(names@).take(i as int));
            assert(now.last() == names@[i as int]@);
            let kept = only_intents(now.drop_last());
            assert(kept.push(now.last()).drop_last() == kept);
        }
        if is_intent_file(names[i].as_str()) {
            add_to_list(&mut r, names[i].as_str());
        }
        i = i + 1;
    }
    assert(views(names@).take(names@.len() as int) == views(names@));
    r
}

/// Which intents have been seen, so that none is applied twice.
#[derive(Debug)]
pub struct IntentDrainer {
    seen: VecDeque<String>,
}

impl View for IntentDrainer {
    type V = Seq<Seq<char>>;

    /// The ids that are remembered, the oldest first.
    closed spec fn view(&self) -> Seq<Seq<char>> {
        views(self.seen@)
    }
}

/// The ids remembered after `id` was seen.
pub open spec fn seen_after(seen: Seq<Seq<char>>, id: Seq<char>) -> Seq<Seq<char>> {
    if seen.len() < SEEN_IDS_CAP {
        seen.push(id)
    } else {
        seen.drop_first().push(id)
    }
}

/// The ids remembered after a list of intents came in.
pub open spec fn seen_after_all(seen: Seq<Seq<char>>, intents: Seq<ContextIntent>) -> Seq<Seq<char>>
    decreases intents.len(),
{
    if intents.len() == 0 {
        seen
    } else {
        let before = seen_after_all(seen, intents.drop_last());
        if before.contains(intents.last().id@) {
            before
        } else {
            seen_after(before, intents.last().id@)
        }
    }
}

/// Those of a list of intents that have not been seen.
pub open spec fn fresh_intents(seen: Seq<Seq<char>>, intents: Seq<ContextIntent>) -> Seq<
    ContextIntent,
>
    decreases intents.len(),
{
    if intents.len() == 0 {
        seq![]
    } else {
        let before = fresh_intents(seen, intents.drop_last());
        if seen_after_all(seen, intents.drop_last()).contains(intents.last().id@) {
            before
        } else {
            before.push(intents.last())
        }
    }
}

/// Whether ids are remembered once each, and not more than the cap.
pub open spec fn seen_in_order(seen: Seq<Seq<char>>) -> bool {
    seen.no_duplicates() && seen.len() <= SEEN_IDS_CAP
}

impl Default for IntentDrainer {
    fn default() -> (r: Self)
        ensures
            r@ == Seq::<Seq<char>>::empty(),
            seen_in_order(r@),
    {
        IntentDrainer::new()
    }
}

impl IntentDrainer {
    /// Nothing seen yet.
    pub fn new() -> (r: Self)
        ensures
            r@ == Seq::<Seq<char>>::empty(),
            seen_in_order(r@),
    {
        let r = IntentDrainer { seen: VecDeque::new() };
        proof {
            assert(r@ =~= Seq::<Seq<char>>::empty());
        }
        r
    }

    /// Whether an id is remembered.
    pub fn has_seen(&self, id: &str) -> (r: bool)
        ensures
            r == self@.contains(id@),
    {
        queue_contains(&self.seen, id)
    }

    /// How many ids are remembered.
    pub fn seen_count(&self) -> (r: usize)
        ensures
            r == self@.len(),
    {
        self.seen.len()
    }

    /// Remembers an id. The oldest is forgotten where the cap is reached.
    pub fn remember(&mut self, id: String)
        requires
            seen_in_order(old(self)@),
            !old(self)@.contains(id@),
        ensures
            final(self)@ == seen_after(old(self)@, id@),
            seen_in_order(final(self)@),
    {
        let ghost before = self.seen@;
        let ghost k = id@;
        if self.seen.len() >= SEEN_IDS_CAP {
            self.seen.pop_front();
            proof {
                assert(views(self.seen@) =~= views(before).drop_first());
            }
        }
        let ghost cut = self.seen@;
        self.seen.push_back(id);
        proof {
            assert(views(self.seen@) =~= views(cut).push(k));
            assert(!views(cut).contains(k)) by {
                if views(cut).contains(k) {
                    let i = choose|i: int| 0 <= i < views(cut).len() && views(cut)[i] == k;
                    if cut.len() == before.len() {
                        assert(views(before)[i] == k);
                    } else {
                        assert(views(before)[i + 1] == k);
                    }
                }
            }
            let now = views(self.seen@);
            assert forall|i: int, j: int|
                0 <= i < now.len() && 0 <= j < now.len() && i != j implies now[i] != now[j] by {
                if i < cut.len() {
                    assert(now[i] == views(cut)[i]);
                    assert(views(cut).contains(views(cut)[i]));
                }
                if j < cut.len() {
                    assert(now[j] == views(cut)[j]);
                    assert(views(cut).contains(views(cut)[j]));
                }
            }
        }
    }

    /// Those of the intents just read that have not been seen. They are remembered.
    pub fn drain(&mut self, intents: Vec<ContextIntent>) -> (r: Vec<ContextIntent>)
        requires
            seen_in_order(old(self)@),
        ensures
            r@ == fresh_intents(old(self)@, intents@),
            final(self)@ == seen_after_all(old(self)@, intents@),
            seen_in_order(final(self)@),
    {
        let ghost start = self@;
        let ghost all = intents@;
        let mut fresh: Vec<ContextIntent> = Vec::new();
        let mut rest: Vec<ContextIntent> = intents;
        let ghost mut done: int = 0;
        proof {
            assert(all.take(0) == Seq::<ContextIntent>::empty());
            assert(all.skip(0) == all);
        }
        while rest.len() > 0
            invariant
                0 <= done <= all.len(),
                rest@ == all.skip(done),
                self@ == seen_after_all(start, all.take(done)),
                fresh@ == fresh_intents(start, all.take(done)),
                seen_in_order(self@),
            decreases rest.len(),
        {
            let intent = rest.remove(0);
            proof {
                assert(all.skip(done)[0] == all[done]);
                assert(rest@ =~= all.skip(done + 1));
                assert(all.take(done + 1).drop_last() == all.take(done));
                assert(all.take(done + 1).last() == intent);
                done = done + 1;
            }
            if !self.has_seen(intent.id.as_str()) {
                self.remember(intent.id.clone());
                fresh.push(intent);
            }
        }
        proof {
            assert(all.take(done) == all);
        }
        fresh
    }
}

/// The ids of a list of intents.
pub open spec fn ids_of(l: Seq<ContextIntent>) -> Seq<Seq<char>> {
    l.map_values(|x: ContextIntent| x.id@)
}

/// The ids that have been remembered, the oldest first: those of before, and those of the intents
/// that were handed on.
pub open spec fn history(seen: Seq<Seq<char>>, intents: Seq<ContextIntent>) -> Seq<Seq<char>> {
    seen + ids_of(fresh_intents(seen, intents))
}

/// The last of the ids, as many as are remembered.
pub open spec fn latest(ids: Seq<Seq<char>>) -> Seq<Seq<char>> {
    if ids.len() <= SEEN_IDS_CAP {
        ids
    } else {
        ids.skip(ids.len() - SEEN_IDS_CAP)
    }
}

/// An intent that came twice is handed on once: an id is handed on again only after `SEEN_IDS_CAP`
/// others, and what stays remembered are the ids handed on last. So no two intents handed on from
/// a list of at most `SEEN_IDS_CAP` have the same id.
pub proof fn law_no_intent_twice(seen: Seq<Seq<char>>, intents: Seq<ContextIntent>)
    requires
        seen_in_order(seen),
    ensures
        seen_after_all(seen, intents) == latest(history(seen, intents)),
        forall|i: int, j: int|
            0 <= i < j < history(seen, intents).len() && j - i <= SEEN_IDS_CAP ==> (
            #[trigger] history(seen, intents)[i]) != (#[trigger] history(seen, intents)[j]),
        intents.len() <= SEEN_IDS_CAP ==> forall|i: int, j: int|
            0 <= i < j < fresh_intents(seen, intents).len() ==> (#[trigger] fresh_intents(
                seen,
                intents,
            )[i]).id@ != (#[trigger] fresh_intents(seen, intents)[j]).id@,
{
    lemma_history(seen, intents);
    let f = fresh_intents(seen, intents);
    let h = history(seen, intents);
    if intents.len() <= SEEN_IDS_CAP {
        assert forall|i: int, j: int| 0 <= i < j < f.len() implies (#[trigger] f[i]).id@ != (
        #[trigger] f[j]).id@ by {
            assert(h[seen.len() + i] == f[i].id@);
            assert(h[seen.len() + j] == f[j].id@);
        }
    }
}

pub proof fn lemma_history(seen: Seq<Seq<char>>, intents: Seq<ContextIntent>)
    requires
        seen_in_order(seen),
    ensures
        seen_after_all(seen, intents) == latest(history(seen, intents)),
        fresh_intents(seen, intents).len() <= intents.len(),
        forall|i: int, j: int|
            0 <= i < j < history(seen, intents).len() && j - i <= SEEN_IDS_CAP ==> (
            #[trigger] history(seen, intents)[i]) != (#[trigger] history(seen, intents)[j]),
    decreases intents.len(),
{
    let h = history(seen, intents);
    if intents.len() == 0 {
        assert(h == seen);
    } else {
        let b = intents.drop_last();
        lemma_history(seen, b);
        let hb = history(seen, b);
        let sb = seen_after_all(seen, b);
        let id = intents.last().id@;
        if !sb.contains(id) {
            let fb = fresh_intents(seen, b);
            assert(ids_of(fb.push(intents.last())) == ids_of(fb).push(id));
            assert(h == hb.push(id));
            if hb.len() >= SEEN_IDS_CAP {
                assert(sb == hb.skip(hb.len() - SEEN_IDS_CAP));
                assert(sb.drop_first().push(id) == h.skip(h.len() - SEEN_IDS_CAP));
            }
            assert(seen_after_all(seen, intents) == latest(h));
            assert forall|i: int, j: int| 0 <= i < j < h.len() && j - i <= SEEN_IDS_CAP implies (
            #[trigger] h[i]) != (#[trigger] h[j]) by {
                assert(h[i] == hb[i]);
                if j < hb.len() {
                    assert(h[j] == hb[j]);
                } else {
                    let k = i - (hb.len() - sb.len());
                    assert(sb[k] == hb[i]);
                    assert(sb.contains(sb[k]));
                }
            }
        } else {
            assert(h == hb);
        }
    }
}

} // verus!
