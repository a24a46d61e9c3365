//! # Applying intents
//!
//! What becomes of an intent of the user: what is checked, what changes in the running engine, what
//! is deleted in which order, and what is reported and written down about it. The stores themselves
//! are elsewhere: they are told what to do, and what they answer comes back here.
use vstd::prelude::*;
use crate::context::intents::{ContextAction, ContextIntent, SessionField, ToggleName};
use crate::context::project::{OverrideRule, ProjectConfigEntry, ProjectEntry, ProjectStatus, RuleAction};
use crate::context::resolver::ProjectResolver;
use crate::context::session_hub::{SessionStateHub, EXCLUDED_PROCESS};
use crate::context::slug::{is_valid_project_id, unique_slug};
use crate::duplicate::{duplicate_all, Duplicate};
use crate::note::{NodeStatus, NodeType, NoteDraft, Sensitivity, Source};
use crate::outside::path_is_absolute;
use crate::text::{same, trim};
use crate::time::Timestamp;
#[allow(unused_imports)]
use crate::context::intents::{field_name, kind_name, toggle_name};
#[allow(unused_imports)]
use crate::context::resolver::{entry_index, ids_of, lemma_entry_index, ResolverView};
#[allow(unused_imports)]
use crate::context::session_hub::{after_command, after_correction, after_pin_mark};
#[allow(unused_imports)]
use crate::context::slug::{is_first_free, is_slug, slug_of, slug_try};
#[allow(unused_imports)]
use crate::note::{DraftView, RelationView};
#[allow(unused_imports)]
use crate::text::{opt_str_view, opt_view, trimmed, views};

verus! {

// ---------------------------------------------------------------------------
// What is reported
// ---------------------------------------------------------------------------

/// One value of a report.
#[derive(Debug, Clone, PartialEq, Eq)]
pub enum DetailValue {
    Text(String),
    Number(u64),
    Flag(bool),
    Nothing,
}

/// What a `DetailValue` holds.
pub enum ValueView {
    Text(Seq<char>),
    Number(int),
    Flag(bool),
    Nothing,
}

impl View for DetailValue {
    type V = ValueView;

    open spec fn view(&self) -> ValueView {
        match self {
            DetailValue::Text(s) => ValueView::Text(s@),
            DetailValue::Number(n) => ValueView::Number(*n as int),
            DetailValue::Flag(b) => ValueView::Flag(*b),
            DetailValue::Nothing => ValueView::Nothing,
        }
    }
}

impl Duplicate for DetailValue {
    fn duplicate(&self) -> (r: Self) {
        match self {
            DetailValue::Text(s) => DetailValue::Text(s.clone()),
            DetailValue::Number(n) => DetailValue::Number(*n),
            DetailValue::Flag(b) => DetailValue::Flag(*b),
            DetailValue::Nothing => DetailValue::Nothing,
        }
    }
}

/// One line of a report: a key and its value.
#[derive(Debug, Clone, PartialEq, Eq)]
pub struct Detail {
    pub key: String,
    pub value: DetailValue,
}

/// What a `Detail` holds.
pub struct DetailView {
    pub key: Seq<char>,
    pub value: ValueView,
}

impl View for Detail {
    type V = DetailView;

    open spec fn view(&self) -> DetailView {
        DetailView { key: self.key@, value: self.value@ }
    }
}

impl Duplicate for Detail {
    fn duplicate(&self) -> (r: Self) {
        Detail { key: self.key.clone(), value: self.value.duplicate() }
    }
}

/// What a list of details holds.
pub open spec fn details_of(l: Seq<Detail>) -> Seq<DetailView> {
    l.map_values(|d: Detail| d@)
}

/// A text under a key.
pub open spec fn text_at(key: Seq<char>, text: Seq<char>) -> DetailView {
    DetailView { key, value: ValueView::Text(text) }
}

/// A number under a key.
pub open spec fn number_at(key: Seq<char>, n: int) -> DetailView {
    DetailView { key, value: ValueView::Number(n) }
}

/// A truth value under a key.
pub open spec fn flag_at(key: Seq<char>, b: bool) -> DetailView {
    DetailView { key, value: ValueView::Flag(b) }
}

/// A text, or nothing, under a key.
pub open spec fn option_at(key: Seq<char>, o: Option<Seq<char>>) -> DetailView {
    DetailView {
        key,
        value: match o {
            Some(s) => ValueView::Text(s),
            None => ValueView::Nothing,
        },
    }
}

/// What an intent came to.
#[derive(Debug, Clone, PartialEq, Eq)]
pub struct IntentOutcome {
    /// Whether anything changed.
    pub applied: bool,
    pub summary: String,
    pub details: Vec<Detail>,
}

/// What an `IntentOutcome` holds.
#[verifier::ext_equal]
pub struct OutcomeView {
    pub applied: bool,
    pub summary: Seq<char>,
    pub details: Seq<DetailView>,
}

impl View for IntentOutcome {
    type V = OutcomeView;

    open spec fn view(&self) -> OutcomeView {
        OutcomeView {
            applied: self.applied,
            summary: self.summary@,
            details: details_of(self.details@),
        }
    }
}

/// A list of details that is being made.
pub(crate) struct Report {
    pub(crate) details: Vec<Detail>,
}

impl Report {
    pub(crate) fn new() -> (r: Self)
        ensures
            details_of(r.details@) == Seq::<DetailView>::empty(),
    {
        let r = Report { details: Vec::new() };
        assert(details_of(r.details@) =~= seq![]);
        r
    }

    fn put(self, key: &str, value: DetailValue) -> (r: Self)
        ensures
            details_of(r.details@) == details_of(self.details@).push(
                DetailView { key: key@, value: value@ },
            ),
    {
        let mut details = self.details;
        let ghost before = details@;
        details.push(Detail { key: key.to_owned(), value });
        assert(details_of(details@) =~= details_of(before).push(
            DetailView { key: key@, value: value@ },
        ));
        Report { details }
    }

    pub(crate) fn text(self, key: &str, text: &str) -> (r: Self)
        ensures
            details_of(r.details@) == details_of(self.details@).push(text_at(key@, text@)),
    {
        self.put(key, DetailValue::Text(text.to_owned()))
    }

    pub(crate) fn number(self, key: &str, n: u64) -> (r: Self)
        ensures
            details_of(r.details@) == details_of(self.details@).push(number_at(key@, n as int)),
    {
        self.put(key, DetailValue::Number(n))
    }

    fn flag(self, key: &str, b: bool) -> (r: Self)
        ensures
            details_of(r.details@) == details_of(self.details@).push(flag_at(key@, b)),
    {
        self.put(key, DetailValue::Flag(b))
    }

    fn option(self, key: &str, o: &Option<String>) -> (r: Self)
        ensures
            details_of(r.details@) == details_of(self.details@).push(option_at(key@, opt_view(*o))),
    {
        match o {
            Some(s) => self.put(key, DetailValue::Text(s.clone())),
            None => self.put(key, DetailValue::Nothing),
        }
    }
}

/// Whether an intent is applied apart from the others, because deleting takes long.
pub fn is_deferred(action: &ContextAction) -> (r: bool)
    ensures
        r == (action is Forget || action is DeleteRange),
{
    match action {
        ContextAction::Forget { .. } => true,
        ContextAction::DeleteRange { .. } => true,
        _ => false,
    }
}

/// What is said of an intent that was to be applied apart from the others, but is of another kind.
pub fn deferred_error(action: &ContextAction) -> (r: String)
    ensures
        r@ == kind_name(*action) + " is not a deferred intent kind"@,
{
    let mut r = action.kind_label().to_owned();
    r.append(" is not a deferred intent kind");
    r
}

/// Under what an intent is written down.
pub open spec fn audit_kind_of(action: ContextAction) -> Seq<char> {
    match action {
        ContextAction::SetToggle { .. } => "toggle_change"@,
        ContextAction::Forget { .. } | ContextAction::DeleteRange { .. } => "deletion"@,
        ContextAction::RecordUserCommand { .. } => "user_command"@,
        _ => "correction"@,
    }
}

/// Under what an intent is written down.
pub fn audit_kind(action: &ContextAction) -> (r: &'static str)
    ensures
        r@ == audit_kind_of(*action),
{
    match action {
        ContextAction::SetToggle { .. } => "toggle_change",
        ContextAction::Forget { .. } => "deletion",
        ContextAction::DeleteRange { .. } => "deletion",
        ContextAction::RecordUserCommand { .. } => "user_command",
        _ => "correction",
    }
}

/// A report with a value under a key: in place of what is there, or behind the rest.
pub open spec fn with_detail(l: Seq<DetailView>, d: DetailView) -> Seq<DetailView> {
    if exists|i: int| 0 <= i < l.len() && (#[trigger] l[i]).key == d.key {
        l.map_values(
            |x: DetailView|
                if x.key == d.key {
                    d
                } else {
                    x
                },
        )
    } else {
        l.push(d)
    }
}

/// What a failed intent came to.
pub open spec fn failed_outcome(label: Seq<char>, error: Seq<char>) -> OutcomeView {
    OutcomeView {
        applied: false,
        summary: label + " failed: "@ + error,
        details: seq![text_at("error"@, error)],
    }
}

/// What is written down about an intent: what it came to, with its kind and its id.
pub open spec fn audit_details(o: OutcomeView, intent: ContextIntent) -> Seq<DetailView> {
    with_detail(
        with_detail(
            with_detail(o.details, text_at("intent"@, kind_name(intent.action))),
            text_at("intent_id"@, intent.id@),
        ),
        flag_at("applied"@, o.applied),
    )
}

/// One line of the audit log.
#[derive(Debug, Clone, PartialEq, Eq)]
pub struct AuditLine {
    pub kind: &'static str,
    pub summary: String,
    pub details: Vec<Detail>,
}

/// Sets a value of a report.
fn set_detail(details: &Vec<Detail>, key: &str, value: DetailValue) -> (r: Vec<Detail>)
    ensures
        details_of(r@) == with_detail(
            details_of(details@),
            DetailView { key: key@, value: value@ },
        ),
{
    let ghost d = DetailView { key: key@, value: value@ };
    let ghost all = details_of(details@);
    let mut r: Vec<Detail> = Vec::new();
    let mut found: bool = false;
    let mut i: usize = 0;
    while i < details.len()
        invariant
            i <= details.len(),
            all == details_of(details@),
            d == (DetailView { key: key@, value: value@ }),
            r.len() == i,
            found == exists|j: int| 0 <= j < i && (#[trigger] all[j]).key == d.key,
            forall|j: int|
                0 <= j < i ==> (#[trigger] r@[j])@ == (if all[j].key == d.key {
                    d
                } else {
                    all[j]
                }),
        decreases details.len() - i,
    {
        assert(all[i as int] == details@[i as int]@);
        if same(details[i].key.as_str(), key) {
            found = true;
            r.push(Detail { key: key.to_owned(), value: value.duplicate() });
        } else {
            r.push(details[i].duplicate());
        }
        i = i + 1;
    }
    if found {
        assert(details_of(r@) =~= with_detail(all, d));
    } else {
        r.push(Detail { key: key.to_owned(), value });
        assert(details_of(r@) =~= all.push(d));
    }
    r
}

/// Closes an intent: what it came to, and what is written down about it.
pub fn finish_intent(intent: &ContextIntent, result: Result<IntentOutcome, String>) -> (r: (
    IntentOutcome,
    AuditLine,
))
    ensures
        r.0@ == (match result {
            Ok(o) => o@,
            Err(e) => failed_outcome(kind_name(intent.action), e@),
        }),
        r.1.kind@ == audit_kind_of(intent.action),
        r.1.summary@ == r.0@.summary,
        details_of(r.1.details@) == audit_details(r.0@, *intent),
{
    let label = intent.action.kind_label();
    let outcome = match result {
        Ok(o) => o,
        Err(e) => {
            let mut summary = label.to_owned();
            summary.append(" failed: ");
            summary.append(e.as_str());
            let details = Report::new().text("error", e.as_str()).details;
            assert(details_of(details@) =~= seq![text_at("error"@, e@)]);
            IntentOutcome { applied: false, summary, details }
        },
    };
    let details = set_detail(&outcome.details, "intent", DetailValue::Text(label.to_owned()));
    let details = set_detail(&details, "intent_id", DetailValue::Text(intent.id.clone()));
    let details = set_detail(&details, "applied", DetailValue::Flag(outcome.applied));
    let line = AuditLine {
        kind: audit_kind(&intent.action),
        summary: outcome.summary.clone(),
        details,
    };
    (outcome, line)
}


// ---------------------------------------------------------------------------
// Projects
// ---------------------------------------------------------------------------

/// Why a project is not accepted, if so: it needs a name and an absolute root path.
pub open spec fn project_error(name: Seq<char>, root: Seq<char>, absolute: bool) -> Option<
    Seq<char>,
> {
    if trimmed(name).len() == 0 {
        Some("a project needs a name"@)
    } else if trimmed(root).len() == 0 {
        Some("a project needs a root path"@)
    } else if !absolute {
        Some("root path must be absolute: "@ + trimmed(root))
    } else {
        None
    }
}

/// Whether an id is made of a name so that it is not taken.
pub open spec fn is_fresh_id(id: Seq<char>, name: Seq<char>, taken: Seq<Seq<char>>) -> bool {
    exists|n: int|
        is_first_free(slug_of(name), n, taken) && id == #[trigger] slug_try(slug_of(name), n)
}

/// Whether a project is what the user asked for. What the user typed in is confirmed. An id that
/// the user gave is kept where it is one, and otherwise made one.
pub open spec fn is_new_project(
    p: ProjectEntry,
    name: Seq<char>,
    root: Seq<char>,
    id: Option<Seq<char>>,
    taken: Seq<Seq<char>>,
) -> bool {
    &&& p.name@ == trimmed(name)
    &&& views(p.root_paths@) == seq![trimmed(root)]
    &&& p.repo is None
    &&& p.keywords@.len() == 0
    &&& p.zone is None
    &&& p.status == ProjectStatus::Confirmed
    &&& match id {
        Some(i) => if is_slug(i) {
            p.id@ == i
        } else {
            is_fresh_id(p.id@, i, taken)
        },
        None => is_fresh_id(p.id@, trimmed(name), taken),
    }
}

/// Whether a project, or a refusal, is the answer to what the user asked for.
pub open spec fn is_project_answer(
    r: Result<ProjectEntry, String>,
    name: Seq<char>,
    root: Seq<char>,
    id: Option<Seq<char>>,
    taken: Seq<Seq<char>>,
    absolute: bool,
) -> bool {
    match project_error(name, root, absolute) {
        Some(e) => r matches Err(s) && s@ == e,
        None => r matches Ok(p) && is_new_project(p, name, root, id, taken),
    }
}

/// The project that the user asked for, where it is known whether the root path is absolute.
pub fn check_project(
    name: &str,
    root_path: &str,
    explicit_id: Option<&str>,
    taken: &Vec<String>,
    absolute: bool,
) -> (r: Result<ProjectEntry, String>)
    ensures
        is_project_answer(
            r,
            name@,
            root_path@,
            opt_str_view(explicit_id),
            views(taken@),
            absolute,
        ),
{
    let name = trim(name);
    let root = trim(root_path);
    if name.unicode_len() == 0 {
        return Err("a project needs a name".to_owned());
    }
    if root.unicode_len() == 0 {
        return Err("a project needs a root path".to_owned());
    }
    if !absolute {
        let mut e = "root path must be absolute: ".to_owned();
        e.append(root);
        return Err(e);
    }
    let id = match explicit_id {
        Some(id) => if is_valid_project_id(id) {
            id.to_owned()
        } else {
            unique_slug(id, taken)
        },
        None => unique_slug(name, taken),
    };
    let mut root_paths: Vec<String> = Vec::new();
    root_paths.push(root.to_owned());
    assert(views(root_paths@) =~= seq![root@]);
    Ok(
        ProjectEntry {
            id,
            name: name.to_owned(),
            root_paths,
            repo: None,
            keywords: Vec::new(),
            zone: None,
            status: ProjectStatus::Confirmed,
        },
    )
}

/// The project that the user asked for. Whether a path is absolute is for this machine to say.
pub fn propose_project(
    resolver: &ProjectResolver,
    name: &str,
    root_path: &str,
    explicit_id: Option<&str>,
) -> (r: Result<ProjectEntry, String>)
    ensures
        exists|absolute: bool|
            #[trigger] is_project_answer(
                r,
                name@,
                root_path@,
                opt_str_view(explicit_id),
                ids_of(resolver@.projects),
                absolute,
            ),
{
    let taken = resolver.known_ids();
    let absolute = path_is_absolute(trim(root_path));
    check_project(name, root_path, explicit_id, &taken, absolute)
}

/// What is reported of a new project.
pub open spec fn added_outcome(name: Seq<char>, id: Seq<char>, root: Seq<char>) -> OutcomeView {
    OutcomeView {
        applied: true,
        summary: "Added project \""@ + name + "\" ("@ + id + ")"@,
        details: seq![text_at("project_id"@, id), text_at("root_path"@, root)],
    }
}

/// Takes a new project into the running engine. `stored` is what came of storing it: where that
/// failed the intent has failed, but the running engine knows the project all the same.
pub fn adopt_project(
    resolver: &mut ProjectResolver,
    entry: ProjectEntry,
    stored: Result<(), String>,
) -> (r: Result<IntentOutcome, String>)
    requires
        entry.root_paths@.len() > 0,
    ensures
        final(resolver)@ == (ResolverView {
            projects: match entry_index(old(resolver)@.projects, entry.id@) {
                Some(i) => old(resolver)@.projects.update(i, entry),
                None => old(resolver)@.projects.push(entry),
            },
            ..old(resolver)@
        }),
        match stored {
            Ok(_) => r matches Ok(o) && o@ == added_outcome(
                entry.name@,
                entry.id@,
                entry.root_paths@[0]@,
            ),
            Err(e) => r == Err::<IntentOutcome, String>(e),
        },
{
    let mut summary = "Added project \"".to_owned();
    summary.append(entry.name.as_str());
    summary.append("\" (");
    summary.append(entry.id.as_str());
    summary.append(")");
    let details = Report::new().text("project_id", entry.id.as_str()).text(
        "root_path",
        entry.root_paths[0].as_str(),
    ).details;
    assert(details_of(details@) =~= seq![
        text_at("project_id"@, entry.id@),
        text_at("root_path"@, entry.root_paths@[0]@),
    ]);
    resolver.upsert_project(entry);
    match stored {
        Ok(_) => Ok(IntentOutcome { applied: true, summary, details }),
        Err(e) => Err(e),
    }
}

/// Whether a configuration entry says of a project what is known of it.
pub open spec fn mirrors(c: ProjectConfigEntry, p: ProjectEntry) -> bool {
    &&& c.id == p.id
    &&& c.name == p.name
    &&& c.root_paths@ == p.root_paths@
    &&& c.repo == p.repo
    &&& c.keywords@ == p.keywords@
    &&& c.zone == p.zone
}

/// What the configuration is to say of a project.
pub fn mirror_project_to_config(entry: &ProjectEntry) -> (r: ProjectConfigEntry)
    ensures
        mirrors(r, *entry),
{
    ProjectConfigEntry {
        id: entry.id.clone(),
        name: entry.name.clone(),
        root_paths: duplicate_all(&entry.root_paths),
        repo: entry.repo.duplicate(),
        keywords: duplicate_all(&entry.keywords),
        zone: entry.zone,
    }
}

/// What is reported of a project that was confirmed.
pub open spec fn confirmed_outcome(id: Seq<char>) -> OutcomeView {
    OutcomeView {
        applied: true,
        summary: "Confirmed project "@ + id,
        details: seq![text_at("project_id"@, id)],
    }
}

/// Confirms a project in the running engine. `stored` says whether the store knows it, or why it
/// could not be asked: then the intent has failed, but the project is confirmed in the running
/// engine all the same. A project that neither knows is refused. Where the engine knows it, the
/// configuration is to say the same.
pub fn confirm_project(
    resolver: &mut ProjectResolver,
    project_id: &str,
    stored: Result<bool, String>,
) -> (r: Result<(IntentOutcome, Option<ProjectConfigEntry>), String>)
    ensures
        final(resolver)@ == (ResolverView {
            projects: match entry_index(old(resolver)@.projects, project_id@) {
                Some(i) => old(resolver)@.projects.update(
                    i,
                    ProjectEntry {
                        status: ProjectStatus::Confirmed,
                        ..old(resolver)@.projects[i]
                    },
                ),
                None => old(resolver)@.projects,
            },
            ..old(resolver)@
        }),
        match stored {
            Ok(known) => match entry_index(old(resolver)@.projects, project_id@) {
                Some(i) => r matches Ok((o, Some(c))) && o@ == confirmed_outcome(project_id@)
                    && mirrors(c, old(resolver)@.projects[i]),
                None => if known {
                    r matches Ok((o, None)) && o@ == confirmed_outcome(project_id@)
                } else {
                    r matches Err(e) && e@ == "no such project: "@ + project_id@
                },
            },
            Err(e) => r == Err::<(IntentOutcome, Option<ProjectConfigEntry>), String>(e),
        },
{
    let ghost before = resolver@.projects;
    proof {
        lemma_entry_index(before, project_id@);
    }
    let live = resolver.confirm_project(project_id);
    let known = match stored {
        Ok(b) => b,
        Err(e) => {
            return Err(e);
        },
    };
    if !known && !live {
        let mut e = "no such project: ".to_owned();
        e.append(project_id);
        return Err(e);
    }
    let mut summary = "Confirmed project ".to_owned();
    summary.append(project_id);
    let details = Report::new().text("project_id", project_id).details;
    assert(details_of(details@) =~= seq![text_at("project_id"@, project_id@)]);
    let outcome = IntentOutcome { applied: true, summary, details };
    if !live {
        return Ok((outcome, None));
    }
    let projects = resolver.projects();
    let ghost at = entry_index(before, project_id@)->0;
    let mut i: usize = 0;
    while i < projects.len() && !same(projects[i].id.as_str(), project_id)
        invariant
            i <= at < projects.len(),
            projects@.len() == before.len(),
            projects@[at].id@ == project_id@,
            forall|j: int| 0 <= j < at ==> (#[trigger] projects@[j]).id@ != project_id@,
        decreases projects.len() - i,
    {
        i = i + 1;
    }
    assert(i == at);
    let mirror = mirror_project_to_config(&projects[i]);
    Ok((outcome, Some(mirror)))
}

// ---------------------------------------------------------------------------
// Corrections, exclusions and pins
// ---------------------------------------------------------------------------

/// A text without the space around it, where anything is left of it.
pub open spec fn told(o: Option<Seq<char>>) -> Option<Seq<char>> {
    match o {
        Some(s) => if trimmed(s).len() == 0 {
            None
        } else {
            Some(trimmed(s))
        },
        None => None,
    }
}

/// A text without the space around it, where anything is left of it.
pub(crate) fn tell(o: Option<&str>) -> (r: Option<String>)
    ensures
        opt_view(r) == told(opt_str_view(o)),
{
    match o {
        Some(s) => {
            let t = trim(s);
            if t.unicode_len() == 0 {
                None
            } else {
                Some(t.to_owned())
            }
        },
        None => None,
    }
}

/// What a rule is about.
#[derive(Debug, Clone, PartialEq, Eq)]
pub struct RuleScope {
    pub process: Option<String>,
    pub title: Option<String>,
}

/// What a rule is about: the process and the part of the title that the user named, or else the
/// application in front. A rule about nothing would never match, so there is none.
pub open spec fn scope_of(
    app: Option<Seq<char>>,
    process: Option<Seq<char>>,
    title: Option<Seq<char>>,
) -> Option<(Option<Seq<char>>, Option<Seq<char>>)> {
    if told(process) is Some || told(title) is Some {
        Some((told(process), told(title)))
    } else {
        match app {
            Some(a) if a != EXCLUDED_PROCESS@ && a.len() > 0 => Some((Some(a), None)),
            _ => None,
        }
    }
}

/// Why there is no rule.
pub const NO_SCOPE: &'static str =
    "no scope for the rule: pass match_process or match_title_substring";

/// What a rule is about, where the application `app` is in front.
pub fn rule_scope(
    app: &Option<String>,
    match_process: Option<&str>,
    match_title_substring: Option<&str>,
) -> (r: Result<RuleScope, String>)
    ensures
        match scope_of(
            opt_view(*app),
            opt_str_view(match_process),
            opt_str_view(match_title_substring),
        ) {
            Some((p, t)) => r matches Ok(s) && opt_view(s.process) == p && opt_view(s.title) == t,
            None => r matches Err(e) && e@ == NO_SCOPE@,
        },
{
    let process = tell(match_process);
    let title = tell(match_title_substring);
    if process.is_some() || title.is_some() {
        return Ok(RuleScope { process, title });
    }
    if let Some(a) = app {
        if !same(a.as_str(), EXCLUDED_PROCESS) && a.as_str().unicode_len() > 0 {
            return Ok(RuleScope { process: Some(a.clone()), title: None });
        }
    }
    Err(NO_SCOPE.to_owned())
}

/// Why a correction is not accepted, if so: it needs a value, and a project an id.
pub open spec fn correction_error(field: SessionField, value: Seq<char>) -> Option<Seq<char>> {
    if trimmed(value).len() == 0 {
        Some("a correction needs a value"@)
    } else if field == SessionField::Project && !is_slug(trimmed(value)) {
        Some("\""@ + trimmed(value) + "\" is not a project id; add the project first"@)
    } else {
        None
    }
}

/// The note that a correction leaves behind. One that was made while the session had to stay on
/// the machine has to stay there as well.
pub open spec fn correction_note(
    field: SessionField,
    value: Seq<char>,
    project: Option<Seq<char>>,
    local_only: bool,
) -> DraftView {
    DraftView {
        node_type: NodeType::Preference,
        title: "User corrected "@ + field_name(field),
        body: "The user corrected Continuum's belief about the current "@ + field_name(field)
            + " to \""@ + value + "\" from the Context page."@,
        project,
        status: NodeStatus::Confirmed,
        confidence: 1_000_000,
        importance: 600_000,
        source: Source::UserStatement,
        source_ref: Some("context-page:correct:"@ + field_name(field)),
        sensitivity: if local_only {
            Sensitivity::Sensitive
        } else {
            Sensitivity::Normal
        },
        expires: None,
        relations: Seq::<RelationView>::empty(),
        tags: seq!["context-page"@, "correction"@],
    }
}

/// Writes the note that a correction leaves behind.
pub fn draft_correction_note(
    field: SessionField,
    value: &str,
    project: Option<String>,
    local_only: bool,
) -> (r: NoteDraft)
    ensures
        r@ == correction_note(field, value@, opt_view(project), local_only),
{
    let name = field.as_str();
    let mut title = "User corrected ".to_owned();
    title.append(name);
    let mut body = "The user corrected Continuum's belief about the current ".to_owned();
    body.append(name);
    body.append(" to \"");
    body.append(value);
    body.append("\" from the Context page.");
    let mut source_ref = "context-page:correct:".to_owned();
    source_ref.append(name);
    let mut tags: Vec<String> = Vec::new();
    tags.push("context-page".to_owned());
    tags.push("correction".to_owned());
    assert(views(tags@) =~= seq!["context-page"@, "correction"@]);
    let r = NoteDraft {
        node_type: NodeType::Preference,
        title,
        body,
        project,
        status: NodeStatus::Confirmed,
        confidence: 1_000_000,
        importance: 600_000,
        source: Source::UserStatement,
        source_ref: Some(source_ref),
        sensitivity: if local_only {
            Sensitivity::Sensitive
        } else {
            Sensitivity::Normal
        },
        expires: None,
        relations: Vec::new(),
        tags,
    };
    assert(r@ =~= correction_note(field, value@, opt_view(project), local_only));
    r
}

/// What a correction leaves to be done: a rule to be kept, and a note to be written.
#[derive(Debug, Clone, PartialEq, Eq)]
pub struct CorrectionPlan {
    pub value: String,
    pub rule: Option<OverrideRule>,
    pub note: NoteDraft,
}

/// Whether a rule says what the user said about a project.
pub open spec fn is_rule(
    rule: OverrideRule,
    action: RuleAction,
    project: Seq<char>,
    process: Option<Seq<char>>,
    title: Option<Seq<char>>,
) -> bool {
    rule.action == action && rule.project_id@ == project && opt_view(rule.match_process) == process
        && opt_view(rule.match_title_substring) == title
}

/// Applies a correction to the session state. What is left to be done comes back: for a project
/// also a rule that keeps to the correction. Where no rule can be made the correction stands all
/// the same.
pub fn correct(
    hub: &mut SessionStateHub,
    field: SessionField,
    value: &str,
    match_process: Option<&str>,
    match_title_substring: Option<&str>,
    now: Timestamp,
) -> (r: Result<CorrectionPlan, String>)
    ensures
        match correction_error(field, value@) {
            Some(e) => r matches Err(s) && s@ == e && final(hub)@ == old(hub)@,
            None => {
                let v = trimmed(value@);
                let after = old(hub)@.settled(
                    after_correction(old(hub)@.state, field, v, now.nanos as int),
                    now.nanos as int,
                );
                let scope = scope_of(
                    after.state.active_app,
                    opt_str_view(match_process),
                    opt_str_view(match_title_substring),
                );
                &&& final(hub)@ == after
                &&& if field == SessionField::Project && scope is None {
                    r matches Err(s) && s@ == NO_SCOPE@
                } else {
                    &&& r matches Ok(plan)
                    &&& plan.value@ == v
                    &&& plan.rule is Some == (field == SessionField::Project)
                    &&& plan.rule matches Some(rule) ==> is_rule(
                        rule,
                        RuleAction::ForceProject,
                        v,
                        (scope->0).0,
                        (scope->0).1,
                    )
                    &&& plan.note@ == correction_note(
                        field,
                        v,
                        old(hub)@.state.active_project,
                        old(hub)@.state.local_only,
                    )
                }
            },
        },
{
    let value = trim(value);
    if value.unicode_len() == 0 {
        return Err("a correction needs a value".to_owned());
    }
    if field == SessionField::Project && !is_valid_project_id(value) {
        let mut e = "\"".to_owned();
        e.append(value);
        e.append("\" is not a project id; add the project first");
        return Err(e);
    }
    let before = hub.snapshot();
    hub.apply_correction(field, value, now);
    let mut rule: Option<OverrideRule> = None;
    if field == SessionField::Project {
        let state = hub.snapshot();
        match rule_scope(&state.active_app, match_process, match_title_substring) {
            Ok(scope) => {
                rule = Some(
                    OverrideRule {
                        match_process: scope.process,
                        match_title_substring: scope.title,
                        action: RuleAction::ForceProject,
                        project_id: value.to_owned(),
                    },
                );
            },
            Err(e) => {
                return Err(e);
            },
        }
    }
    let note = draft_correction_note(field, value, before.active_project, before.local_only);
    Ok(CorrectionPlan { value: value.to_owned(), rule, note })
}

/// What is reported of a correction.
pub open spec fn corrected_outcome(
    field: SessionField,
    value: Seq<char>,
    rule_written: bool,
    note_id: Option<Seq<char>>,
) -> OutcomeView {
    OutcomeView {
        applied: true,
        summary: "Corrected "@ + field_name(field) + " to \""@ + value + "\""@,
        details: seq![
            text_at("field"@, field_name(field)),
            text_at("value"@, value),
            flag_at("rule_written"@, rule_written),
            option_at("note_id"@, note_id),
        ],
    }
}

/// Reports a correction.
pub fn report_correction(
    field: SessionField,
    value: &str,
    rule_written: bool,
    note_id: &Option<String>,
) -> (r: IntentOutcome)
    ensures
        r@ == corrected_outcome(field, value@, rule_written, opt_view(*note_id)),
{
    let mut summary = "Corrected ".to_owned();
    summary.append(field.as_str());
    summary.append(" to \"");
    summary.append(value);
    summary.append("\"");
    let details = Report::new().text("field", field.as_str()).text("value", value).flag(
        "rule_written",
        rule_written,
    ).option("note_id", note_id).details;
    let r = IntentOutcome { applied: true, summary, details };
    assert(r@ =~= corrected_outcome(field, value@, rule_written, opt_view(*note_id)));
    r
}

/// The rule that keeps a project from what is on the screen. An id that is none is refused.
pub fn not_this_project(
    app: &Option<String>,
    project_id: &str,
    match_process: Option<&str>,
    match_title_substring: Option<&str>,
) -> (r: Result<OverrideRule, String>)
    ensures
        if !is_slug(project_id@) {
            r matches Err(e) && e@ == "\""@ + project_id@ + "\" is not a project id"@
        } else {
            match scope_of(
                opt_view(*app),
                opt_str_view(match_process),
                opt_str_view(match_title_substring),
            ) {
                Some((p, t)) => r matches Ok(rule) && is_rule(
                    rule,
                    RuleAction::ExcludeProject,
                    project_id@,
                    p,
                    t,
                ),
                None => r matches Err(e) && e@ == NO_SCOPE@,
            }
        },
{
    if !is_valid_project_id(project_id) {
        let mut e = "\"".to_owned();
        e.append(project_id);
        e.append("\" is not a project id");
        return Err(e);
    }
    match rule_scope(app, match_process, match_title_substring) {
        Ok(scope) => Ok(
            OverrideRule {
                match_process: scope.process,
                match_title_substring: scope.title,
                action: RuleAction::ExcludeProject,
                project_id: project_id.to_owned(),
            },
        ),
        Err(e) => Err(e),
    }
}

/// What is reported of an exclusion.
pub open spec fn excluded_outcome(rule: OverrideRule) -> OutcomeView {
    OutcomeView {
        applied: true,
        summary: "This is not "@ + rule.project_id@,
        details: seq![
            text_at("project_id"@, rule.project_id@),
            option_at("match_process"@, opt_view(rule.match_process)),
            option_at("match_title_substring"@, opt_view(rule.match_title_substring)),
        ],
    }
}

/// Takes a rule into the running engine. `stored` is what came of storing it: where that failed
/// the intent has failed, but the rule holds in the running engine all the same.
pub fn persist_rule(
    resolver: &mut ProjectResolver,
    rule: OverrideRule,
    stored: Result<(), String>,
) -> (r: Result<(), String>)
    ensures
        final(resolver)@ == (ResolverView {
            rules: old(resolver)@.rules.push(rule),
            ..old(resolver)@
        }),
        r == stored,
{
    resolver.add_rule(rule);
    stored
}

/// Takes an exclusion into the running engine. `stored` is what came of storing it.
pub fn adopt_exclusion(
    resolver: &mut ProjectResolver,
    rule: OverrideRule,
    stored: Result<(), String>,
) -> (r: Result<IntentOutcome, String>)
    ensures
        final(resolver)@ == (ResolverView {
            rules: old(resolver)@.rules.push(rule),
            ..old(resolver)@
        }),
        match stored {
            Ok(_) => r matches Ok(o) && o@ == excluded_outcome(rule),
            Err(e) => r == Err::<IntentOutcome, String>(e),
        },
{
    let mut summary = "This is not ".to_owned();
    summary.append(rule.project_id.as_str());
    let details = Report::new().text("project_id", rule.project_id.as_str()).option(
        "match_process",
        &rule.match_process,
    ).option("match_title_substring", &rule.match_title_substring).details;
    let r = IntentOutcome { applied: true, summary, details };
    assert(r@ =~= excluded_outcome(rule));
    match persist_rule(resolver, rule, stored) {
        Ok(_) => Ok(r),
        Err(e) => Err(e),
    }
}

/// Pins a field of the session state, or releases it. Returns what it is pinned to, which the
/// store is to keep.
pub fn pin(hub: &mut SessionStateHub, field: SessionField, value: Option<&str>, now: Timestamp) -> (r:
    Option<String>)
    ensures
        opt_view(r) == told(opt_str_view(value)),
        final(hub)@ == old(hub)@.pinned_to(field, told(opt_str_view(value)), now.nanos as int),
{
    let value = tell(value);
    match &value {
        Some(v) => hub.set_pin(field, Some(v.as_str()), now),
        None => hub.set_pin(field, None, now),
    }
    value
}

/// What is reported of a pin.
pub open spec fn pinned_outcome(field: SessionField, value: Seq<char>) -> OutcomeView {
    OutcomeView {
        applied: true,
        summary: "Pinned "@ + field_name(field) + " to \""@ + value + "\""@,
        details: seq![text_at("field"@, field_name(field)), text_at("value"@, value)],
    }
}

/// What is reported of a pin that was released. `existed` says whether the store had one.
pub open spec fn unpinned_outcome(field: SessionField, existed: bool) -> OutcomeView {
    OutcomeView {
        applied: true,
        summary: "Cleared the "@ + field_name(field) + " pin"@,
        details: seq![text_at("field"@, field_name(field)), flag_at("existed"@, existed)],
    }
}

/// Reports a pin.
pub fn report_pin(field: SessionField, value: &str) -> (r: IntentOutcome)
    ensures
        r@ == pinned_outcome(field, value@),
{
    let mut summary = "Pinned ".to_owned();
    summary.append(field.as_str());
    summary.append(" to \"");
    summary.append(value);
    summary.append("\"");
    let details = Report::new().text("field", field.as_str()).text("value", value).details;
    let r = IntentOutcome { applied: true, summary, details };
    assert(r@ =~= pinned_outcome(field, value@));
    r
}

/// Reports a pin that was released.
pub fn report_unpin(field: SessionField, existed: bool) -> (r: IntentOutcome)
    ensures
        r@ == unpinned_outcome(field, existed),
{
    let mut summary = "Cleared the ".to_owned();
    summary.append(field.as_str());
    summary.append(" pin");
    let details = Report::new().text("field", field.as_str()).flag("existed", existed).details;
    let r = IntentOutcome { applied: true, summary, details };
    assert(r@ =~= unpinned_outcome(field, existed));
    r
}

/// What is reported of a command. Its text is not: the report is kept as plain text.
pub open spec fn command_outcome(text: Seq<char>) -> OutcomeView {
    if trimmed(text).len() == 0 {
        OutcomeView {
            applied: false,
            summary: "Empty user command ignored"@,
            details: seq![text_at("source"@, "chat"@)],
        }
    } else {
        OutcomeView {
            applied: true,
            summary: "Recorded the last user command from chat"@,
            details: seq![
                text_at("source"@, "chat"@),
                number_at("chars"@, trimmed(text).len() as int),
            ],
        }
    }
}

/// Records what the user asked for in the chat.
pub fn record_user_command(hub: &mut SessionStateHub, text: &str, now: Timestamp) -> (r:
    IntentOutcome)
    ensures
        r@ == command_outcome(text@),
        final(hub)@ == (if trimmed(text@).len() == 0 {
            old(hub)@
        } else {
            old(hub)@.settled(
                after_command(old(hub)@.state, trimmed(text@), now.nanos as int),
                now.nanos as int,
            )
        }),
{
    let told = trim(text);
    let n: usize = told.unicode_len();
    if n == 0 {
        let details = Report::new().text("source", "chat").details;
        let r = IntentOutcome {
            applied: false,
            summary: "Empty user command ignored".to_owned(),
            details,
        };
        assert(r@ =~= command_outcome(text@));
        return r;
    }
    hub.note_user_command(told, "chat", now);
    let details = Report::new().text("source", "chat").number("chars", n as u64).details;
    let r = IntentOutcome {
        applied: true,
        summary: "Recorded the last user command from chat".to_owned(),
        details,
    };
    assert(r@ =~= command_outcome(text@));
    r
}

// ---------------------------------------------------------------------------
// Toggles
// ---------------------------------------------------------------------------

/// What is reported of a toggle. `changed` says whether it was not in that position before.
pub open spec fn toggle_outcome(name: ToggleName, value: bool, changed: bool) -> OutcomeView {
    OutcomeView {
        applied: changed,
        summary: if changed {
            toggle_name(name) + " observation "@ + (if value {
                "enabled"@
            } else {
                "disabled"@
            })
        } else {
            toggle_name(name) + " observation was already "@ + (if value {
                "on"@
            } else {
                "off"@
            })
        },
        details: seq![text_at("name"@, toggle_name(name)), flag_at("value"@, value)],
    }
}

/// Reports a toggle.
pub fn report_toggle(name: ToggleName, value: bool, changed: bool) -> (r: IntentOutcome)
    ensures
        r@ == toggle_outcome(name, value, changed),
{
    let mut summary = name.as_str().to_owned();
    if changed {
        summary.append(" observation ");
        summary.append(
            if value {
                "enabled"
            } else {
                "disabled"
            },
        );
    } else {
        summary.append(" observation was already ");
        summary.append(
            if value {
                "on"
            } else {
                "off"
            },
        );
    }
    let details = Report::new().text("name", name.as_str()).flag("value", value).details;
    let r = IntentOutcome { applied: changed, summary, details };
    assert(r@ =~= toggle_outcome(name, value, changed));
    r
}

/// The text of the event that a change of a toggle leaves on the timeline.
pub fn toggle_event_text(name: ToggleName, value: bool) -> (r: String)
    ensures
        r@ == toggle_name(name) + " observation "@ + (if value {
            "enabled"@
        } else {
            "disabled"@
        }) + " from the Context page"@,
{
    let mut r = name.as_str().to_owned();
    r.append(" observation ");
    r.append(
        if value {
            "enabled"
        } else {
            "disabled"
        },
    );
    r.append(" from the Context page");
    r
}


// ---------------------------------------------------------------------------
// What holds of every intent
// ---------------------------------------------------------------------------

/// Whether a report has exactly one kind of entry under the key of `d`, and that is `d`.
pub open spec fn says(l: Seq<DetailView>, d: DetailView) -> bool {
    &&& exists|i: int| 0 <= i < l.len() && #[trigger] l[i] == d
    &&& forall|i: int| 0 <= i < l.len() && (#[trigger] l[i]).key == d.key ==> l[i] == d
}

proof fn lemma_with_detail(l: Seq<DetailView>, d: DetailView, other: DetailView)
    ensures
        says(with_detail(l, d), d),
        says(l, other) && other.key != d.key ==> says(with_detail(l, d), other),
{
    let w = with_detail(l, d);
    if exists|i: int| 0 <= i < l.len() && (#[trigger] l[i]).key == d.key {
        let i = choose|i: int| 0 <= i < l.len() && (#[trigger] l[i]).key == d.key;
        assert(w[i] == d);
    } else {
        assert(w[l.len() as int] == d);
    }
    if says(l, other) && other.key != d.key {
        let i = choose|i: int| 0 <= i < l.len() && #[trigger] l[i] == other;
        assert(w[i] == other);
        assert forall|j: int| 0 <= j < w.len() && (#[trigger] w[j]).key == other.key implies w[j]
            == other by {
            assert(j < l.len() ==> l[j].key == other.key || l[j].key == d.key);
        }
    }
}

/// Whatever an intent came to, what is written down says of which kind it was, which id it had,
/// and whether it changed anything.
pub proof fn law_audit_names_intent(o: OutcomeView, intent: ContextIntent)
    ensures
        says(audit_details(o, intent), text_at("intent"@, kind_name(intent.action))),
        says(audit_details(o, intent), text_at("intent_id"@, intent.id@)),
        says(audit_details(o, intent), flag_at("applied"@, o.applied)),
{
    let a = text_at("intent"@, kind_name(intent.action));
    let b = text_at("intent_id"@, intent.id@);
    let c = flag_at("applied"@, o.applied);
    reveal_strlit("intent");
    reveal_strlit("intent_id");
    reveal_strlit("applied");
    assert("intent"@.len() == 6 && "intent_id"@.len() == 9 && "applied"@.len() == 7);
    let l1 = with_detail(o.details, a);
    let l2 = with_detail(l1, b);
    lemma_with_detail(o.details, a, a);
    lemma_with_detail(l1, b, a);
    lemma_with_detail(l2, c, a);
    lemma_with_detail(l2, c, b);
}

/// A rule that comes from a correction or an exclusion always names something that it is about.
pub proof fn law_rule_is_about_something(
    app: Option<Seq<char>>,
    process: Option<Seq<char>>,
    title: Option<Seq<char>>,
)
    ensures
        scope_of(app, process, title) matches Some((p, t)) ==> (p matches Some(s) && s.len() > 0)
            || (t matches Some(s) && s.len() > 0),
{
}

/// What a command says never gets into the report, only how long it is.
pub proof fn law_command_text_stays_out(a: Seq<char>, b: Seq<char>)
    requires
        trimmed(a).len() == trimmed(b).len(),
    ensures
        command_outcome(a) == command_outcome(b),
{
}

/// A correction that was made while the session had to stay on the machine leaves a note that has
/// to stay there as well.
pub proof fn law_private_correction_stays_private(
    field: SessionField,
    value: Seq<char>,
    project: Option<Seq<char>>,
)
    ensures
        correction_note(field, value, project, true).sensitivity == Sensitivity::Sensitive,
        correction_note(field, value, project, true).status == NodeStatus::Confirmed,
{
}

} // verus!
