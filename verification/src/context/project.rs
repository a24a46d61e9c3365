//! # Projects
//!
//! The projects that are known, the rules by which the user corrects the engine, and the
//! resolution of a single frame: which project a process name, a window title and the most
//! recent file speak for. Five kinds of evidence are tried in order of strength, and the first
//! that speaks for an eligible project decides.
use vstd::prelude::*;
use crate::context::sensitivity::Zone;
use crate::context::slug::{is_valid_project_id, slugify};
use crate::context::titles::{editor_title_segments, normalize_path_str, path_basename};
use crate::duplicate::{duplicate_all, Duplicate};
use crate::text::{begins, byte_length, contains, lower, same, trim};
use crate::time::Timestamp;
#[allow(unused_imports)]
use crate::context::slug::{is_slug, slug_of};
#[allow(unused_imports)]
use crate::context::titles::{base_name, norm_path, title_segments};
#[allow(unused_imports)]
use crate::text::{
    ascii_lower, byte_len, has_part, opt_str_view, opt_view, starts_with, trimmed, views,
};

verus! {

/// How a project came to be known.
#[derive(Debug, Clone, Copy, PartialEq, Eq, Structural)]
pub enum ProjectStatus {
    /// Given by the configuration.
    Configured,
    /// Proposed by discovery. Takes no part in resolution.
    Discovered,
    /// Proposed by discovery and confirmed by the user.
    Confirmed,
}

/// The name under which a status is stored.
pub open spec fn status_name(status: ProjectStatus) -> Seq<char> {
    match status {
        ProjectStatus::Configured => "configured"@,
        ProjectStatus::Discovered => "discovered"@,
        ProjectStatus::Confirmed => "confirmed"@,
    }
}

impl ProjectStatus {
    /// The name under which the status is stored.
    pub fn as_str(self) -> (r: &'static str)
        ensures
            r@ == status_name(self),
    {
        match self {
            ProjectStatus::Configured => "configured",
            ProjectStatus::Discovered => "discovered",
            ProjectStatus::Confirmed => "confirmed",
        }
    }

    /// The status of a stored name. An unknown name is the status with the fewest rights.
    pub fn parse(s: &str) -> (r: Self)
        ensures
            r == (if s@ == "configured"@ {
                ProjectStatus::Configured
            } else if s@ == "confirmed"@ {
                ProjectStatus::Confirmed
            } else {
                ProjectStatus::Discovered
            }),
    {
        if same(s, "configured") {
            ProjectStatus::Configured
        } else if same(s, "confirmed") {
            ProjectStatus::Confirmed
        } else {
            ProjectStatus::Discovered
        }
    }
}

/// What the configuration says of a project.
#[derive(Debug, Clone, PartialEq, Eq)]
pub struct ProjectConfigEntry {
    pub id: String,
    pub name: String,
    pub root_paths: Vec<String>,
    pub repo: Option<String>,
    pub keywords: Vec<String>,
    pub zone: Option<Zone>,
}

/// What the configuration says of projects in general.
#[derive(Debug, Clone, PartialEq, Eq)]
pub struct ProjectsConfig {
    pub known: Vec<ProjectConfigEntry>,
    /// The seconds for which another project must win before the current one changes.
    pub switch_min_secs: u64,
    /// The seconds for which a folder must be seen before it is proposed.
    pub discover_min_secs: u64,
    /// Whether folders are proposed at all.
    pub auto_discover: bool,
}

impl Default for ProjectsConfig {
    fn default() -> (r: Self)
        ensures
            r.known@ == Seq::<ProjectConfigEntry>::empty(),
            r.switch_min_secs == 20,
            r.discover_min_secs == 30,
            r.auto_discover,
    {
        ProjectsConfig {
            known: Vec::new(),
            switch_min_secs: 20,
            discover_min_secs: 30,
            auto_discover: true,
        }
    }
}

/// One project that is known.
#[derive(Debug, Clone, PartialEq, Eq)]
pub struct ProjectEntry {
    pub id: String,
    pub name: String,
    /// The folders that belong to the project.
    pub root_paths: Vec<String>,
    pub repo: Option<String>,
    /// Words that a window title names the project by.
    pub keywords: Vec<String>,
    pub zone: Option<Zone>,
    pub status: ProjectStatus,
}

impl ProjectEntry {
    /// Whether the project may win resolution.
    pub open spec fn takes_part(self) -> bool {
        self.status != ProjectStatus::Discovered
    }

    /// Whether the project may win resolution.
    pub fn participates(&self) -> (r: bool)
        ensures
            r == self.takes_part(),
    {
        self.status != ProjectStatus::Discovered
    }

    /// The project that a configuration entry describes. An id that is not one is made one, and
    /// a blank name is the id.
    pub fn from_config(entry: &ProjectConfigEntry) -> (r: Self)
        ensures
            r.id@ == (if is_slug(entry.id@) {
                entry.id@
            } else {
                slug_of(entry.id@)
            }),
            r.name@ == (if trimmed(entry.name@).len() == 0 {
                r.id@
            } else {
                entry.name@
            }),
            r.root_paths@ == entry.root_paths@,
            r.repo == entry.repo,
            r.keywords@ == entry.keywords@,
            r.zone == entry.zone,
            r.status == ProjectStatus::Configured,
    {
        let id: String = if is_valid_project_id(entry.id.as_str()) {
            entry.id.clone()
        } else {
            slugify(entry.id.as_str())
        };
        let name: String = if trim(entry.name.as_str()).is_empty() {
            id.clone()
        } else {
            entry.name.clone()
        };
        ProjectEntry {
            id,
            name,
            root_paths: duplicate_all(&entry.root_paths),
            repo: entry.repo.duplicate(),
            keywords: duplicate_all(&entry.keywords),
            zone: entry.zone,
            status: ProjectStatus::Configured,
        }
    }
}

/// What a rule of the user does where it matches.
#[derive(Debug, Clone, Copy, PartialEq, Eq, Structural)]
pub enum RuleAction {
    /// The frame belongs to the project.
    ForceProject,
    /// The frame does not belong to the project.
    ExcludeProject,
}

/// The name under which an action is stored.
pub open spec fn action_name(action: RuleAction) -> Seq<char> {
    match action {
        RuleAction::ForceProject => "force_project"@,
        RuleAction::ExcludeProject => "exclude_project"@,
    }
}

impl RuleAction {
    /// The name under which the action is stored.
    pub fn as_str(self) -> (r: &'static str)
        ensures
            r@ == action_name(self),
    {
        match self {
            RuleAction::ForceProject => "force_project",
            RuleAction::ExcludeProject => "exclude_project",
        }
    }

    /// The action of a stored name.
    pub fn parse(s: &str) -> (r: Option<Self>)
        ensures
            r == (if s@ == "force_project"@ {
                Some(RuleAction::ForceProject)
            } else if s@ == "exclude_project"@ {
                Some(RuleAction::ExcludeProject)
            } else {
                None
            }),
    {
        if same(s, "force_project") {
            Some(RuleAction::ForceProject)
        } else if same(s, "exclude_project") {
            Some(RuleAction::ExcludeProject)
        } else {
            None
        }
    }
}

/// Storing a status and reading it back gives the status; so with an action.
pub proof fn law_names_round_trip(status: ProjectStatus, action: RuleAction)
    ensures
        (if status_name(status) == "configured"@ {
            ProjectStatus::Configured
        } else if status_name(status) == "confirmed"@ {
            ProjectStatus::Confirmed
        } else {
            ProjectStatus::Discovered
        }) == status,
        (if action_name(action) == "force_project"@ {
            Some(RuleAction::ForceProject)
        } else if action_name(action) == "exclude_project"@ {
            Some(RuleAction::ExcludeProject)
        } else {
            None
        }) == Some(action),
{
    reveal_strlit("configured");
    reveal_strlit("discovered");
    reveal_strlit("confirmed");
    reveal_strlit("force_project");
    reveal_strlit("exclude_project");
    assert("configured"@.len() != "confirmed"@.len());
    assert("discovered"@[0] != "configured"@[0]);
    assert("discovered"@.len() != "confirmed"@.len());
    assert("force_project"@.len() != "exclude_project"@.len());
}

/// A correction of the user.
#[derive(Debug, Clone, PartialEq, Eq)]
pub struct OverrideRule {
    /// The process that the rule is about.
    pub match_process: Option<String>,
    /// A part of the window title that the rule is about.
    pub match_title_substring: Option<String>,
    pub action: RuleAction,
    pub project_id: String,
}

/// Whether a rule matches a frame: each criterion that it gives holds, and it gives one.
pub open spec fn rule_matches(rule: OverrideRule, process: Seq<char>, title: Seq<char>) -> bool {
    &&& rule.match_process is Some || rule.match_title_substring is Some
    &&& rule.match_process matches Some(p) ==> ascii_lower(p@) == ascii_lower(process)
    &&& rule.match_title_substring matches Some(t) ==> has_part(
        ascii_lower(title),
        ascii_lower(t@),
    )
}

impl OverrideRule {
    /// Whether the rule matches a frame.
    pub fn matches(&self, process_name: &str, window_title: &str) -> (r: bool)
        ensures
            r == rule_matches(*self, process_name@, window_title@),
    {
        if self.match_process.is_none() && self.match_title_substring.is_none() {
            return false;
        }
        if let Some(process) = &self.match_process {
            if !equals_any_case(process.as_str(), process_name) {
                return false;
            }
        }
        if let Some(fragment) = &self.match_title_substring {
            if !contains(lower(window_title).as_str(), lower(fragment.as_str()).as_str()) {
                return false;
            }
        }
        true
    }
}

/// Whether two texts are equal but for the case of ASCII letters.
pub fn equals_any_case(a: &str, b: &str) -> (r: bool)
    ensures
        r == (ascii_lower(a@) == ascii_lower(b@)),
{
    lower(a) == lower(b)
}

// ---------------------------------------------------------------------------
// Resolving one frame
// ---------------------------------------------------------------------------

/// What a frame says about the project.
#[derive(Debug, Clone, Copy)]
pub struct FrameInput<'a> {
    pub process_name: &'a str,
    pub window_title: &'a str,
    /// The most recent file that was touched.
    pub recent_file_path: Option<&'a str>,
    /// The folder of the repository which that file belongs to.
    pub recent_git_root: Option<&'a str>,
    pub ts: Timestamp,
}

/// The text of a `FrameInput`.
pub struct FrameView {
    pub process: Seq<char>,
    pub title: Seq<char>,
    pub file: Option<Seq<char>>,
    pub git_root: Option<Seq<char>>,
    pub ts: int,
}

impl<'a> View for FrameInput<'a> {
    type V = FrameView;

    open spec fn view(&self) -> FrameView {
        FrameView {
            process: self.process_name@,
            title: self.window_title@,
            file: opt_str_view(self.recent_file_path),
            git_root: opt_str_view(self.recent_git_root),
            ts: self.ts.nanos as int,
        }
    }
}

/// The project that a frame speaks for.
#[derive(Debug, Clone, PartialEq, Eq)]
pub struct Resolution {
    pub project_id: String,
    /// How sure this is, in millionths.
    pub confidence: u32,
    /// The kind of evidence, from 0, the strongest, to 4.
    pub source_tier: u8,
}

/// The text of a `Resolution`.
#[verifier::ext_equal]
pub struct ResolutionView {
    pub project_id: Seq<char>,
    pub confidence: int,
    pub source_tier: int,
}

impl View for Resolution {
    type V = ResolutionView;

    open spec fn view(&self) -> ResolutionView {
        ResolutionView {
            project_id: self.project_id@,
            confidence: self.confidence as int,
            source_tier: self.source_tier as int,
        }
    }
}

impl Duplicate for Resolution {
    fn duplicate(&self) -> (r: Self) {
        Resolution {
            project_id: self.project_id.clone(),
            confidence: self.confidence,
            source_tier: self.source_tier,
        }
    }
}

/// How sure a kind of evidence is, in millionths.
pub open spec fn tier_confidence(tier: int) -> int {
    if tier == 0 {
        1_000_000
    } else if tier == 1 {
        900_000
    } else if tier == 2 {
        800_000
    } else if tier == 3 {
        700_000
    } else {
        500_000
    }
}

/// Whether a rule takes the project `id` out of the running.
pub open spec fn excluded(rules: Seq<OverrideRule>, id: Seq<char>, f: FrameView) -> bool {
    exists|i: int|
        0 <= i < rules.len() && (#[trigger] rules[i]).action == RuleAction::ExcludeProject
            && rule_matches(rules[i], f.process, f.title) && rules[i].project_id@ == id
}

/// Whether a project may win this frame.
pub open spec fn eligible(p: ProjectEntry, rules: Seq<OverrideRule>, f: FrameView) -> bool {
    p.takes_part() && !excluded(rules, p.id@, f)
}

/// Whether the file or the repository of the frame belongs to a folder.
pub open spec fn under_root(f: FrameView, root: Seq<char>) -> bool {
    let r = norm_path(root);
    &&& r.len() > 0
    &&& (f.git_root matches Some(g) && norm_path(g) == r) || norm_path(f.file->0) == r
        || starts_with(norm_path(f.file->0), r + "/"@)
}

/// Whether the frame speaks for a project by the evidence of a tier. That of the second tier is
/// looked for in the part `segment` of the title.
pub open spec fn speaks_for(tier: int, p: ProjectEntry, f: FrameView, segment: Seq<char>) -> bool {
    if tier == 1 {
        exists|i: int|
            0 <= i < p.root_paths@.len() && byte_len(norm_path((#[trigger] p.root_paths@[i])@)) >= 2
                && has_part(norm_path(f.title), norm_path(p.root_paths@[i]@))
    } else if tier == 2 {
        ||| ascii_lower(segment) == ascii_lower(p.name@)
        ||| ascii_lower(segment) == ascii_lower(p.id@)
        ||| exists|i: int|
            0 <= i < p.root_paths@.len() && (base_name((#[trigger] p.root_paths@[i])@) matches Some(
                b,
            ) && ascii_lower(segment) == ascii_lower(b))
    } else if tier == 3 {
        f.file is Some && exists|i: int|
            0 <= i < p.root_paths@.len() && under_root(f, (#[trigger] p.root_paths@[i])@)
    } else {
        exists|i: int|
            0 <= i < p.keywords@.len() && (#[trigger] p.keywords@[i])@.len() > 0 && has_part(
                ascii_lower(f.title),
                ascii_lower(p.keywords@[i]@),
            )
    }
}

/// The first eligible project that the frame speaks for by the kind of evidence `tier`.
pub open spec fn first_project(
    projects: Seq<ProjectEntry>,
    rules: Seq<OverrideRule>,
    tier: int,
    f: FrameView,
    segment: Seq<char>,
) -> Option<Seq<char>>
    decreases projects.len(),
{
    if projects.len() == 0 {
        None
    } else {
        match first_project(projects.drop_last(), rules, tier, f, segment) {
            Some(id) => Some(id),
            None => if eligible(projects.last(), rules, f) && speaks_for(
                tier,
                projects.last(),
                f,
                segment,
            ) {
                Some(projects.last().id@)
            } else {
                None
            },
        }
    }
}

/// The project that the first telling segment of the title names.
pub open spec fn segment_project(
    projects: Seq<ProjectEntry>,
    rules: Seq<OverrideRule>,
    f: FrameView,
    segments: Seq<Seq<char>>,
) -> Option<Seq<char>>
    decreases segments.len(),
{
    if segments.len() == 0 {
        None
    } else {
        match segment_project(projects, rules, f, segments.drop_last()) {
            Some(id) => Some(id),
            None => first_project(projects, rules, 2, f, segments.last()),
        }
    }
}

/// Whether some eligible project has the id `id`.
pub open spec fn eligible_id(
    projects: Seq<ProjectEntry>,
    rules: Seq<OverrideRule>,
    f: FrameView,
    id: Seq<char>,
) -> bool {
    exists|i: int|
        0 <= i < projects.len() && eligible(#[trigger] projects[i], rules, f) && projects[i].id@ == id
}

/// The project that the first of the rules `forcing` forces on the frame.
pub open spec fn forced_project(
    projects: Seq<ProjectEntry>,
    rules: Seq<OverrideRule>,
    f: FrameView,
    forcing: Seq<OverrideRule>,
) -> Option<Seq<char>>
    decreases forcing.len(),
{
    if forcing.len() == 0 {
        None
    } else {
        match forced_project(projects, rules, f, forcing.drop_last()) {
            Some(id) => Some(id),
            None => if forcing.last().action == RuleAction::ForceProject && rule_matches(
                forcing.last(),
                f.process,
                f.title,
            ) && eligible_id(projects, rules, f, forcing.last().project_id@) {
                Some(forcing.last().project_id@)
            } else {
                None
            },
        }
    }
}

/// A resolution by the kind of evidence `tier`.
pub open spec fn by_tier(id: Seq<char>, tier: int) -> Option<ResolutionView> {
    Some(
        ResolutionView {
            project_id: id,
            confidence: tier_confidence(tier),
            source_tier: tier,
        },
    )
}

/// The project that a frame speaks for: by a rule, by a project folder in the title, by a segment
/// of the title, by the most recent file, by a keyword in the title.
pub open spec fn resolved(
    projects: Seq<ProjectEntry>,
    rules: Seq<OverrideRule>,
    f: FrameView,
) -> Option<ResolutionView> {
    let none = Seq::<char>::empty();
    let segments = title_segments(f.title);
    match forced_project(projects, rules, f, rules) {
        Some(id) => by_tier(id, 0),
        None => match first_project(projects, rules, 1, f, none) {
            Some(id) => by_tier(id, 1),
            None => match (if segments.len() >= 2 {
                segment_project(projects, rules, f, segments)
            } else {
                None
            }) {
                Some(id) => by_tier(id, 2),
                None => match first_project(projects, rules, 3, f, none) {
                    Some(id) => by_tier(id, 3),
                    None => match first_project(projects, rules, 4, f, none) {
                        Some(id) => by_tier(id, 4),
                        None => None,
                    },
                },
            },
        },
    }
}

/// What is compared with projects, made once per frame.
struct FrameText {
    title_norm: String,
    title_lower: String,
    file_norm: Option<String>,
    git_norm: Option<String>,
}

impl FrameText {
    spec fn of(self, f: FrameView) -> bool {
        &&& self.title_norm@ == norm_path(f.title)
        &&& self.title_lower@ == ascii_lower(f.title)
        &&& self.file_norm is Some == f.file is Some
        &&& self.file_norm matches Some(s) ==> s@ == norm_path(f.file->0)
        &&& self.git_norm is Some == f.git_root is Some
        &&& self.git_norm matches Some(s) ==> s@ == norm_path(f.git_root->0)
    }
}

fn frame_text(input: &FrameInput<'_>) -> (r: FrameText)
    ensures
        r.of(input@),
{
    FrameText {
        title_norm: normalize_path_str(input.window_title),
        title_lower: lower(input.window_title),
        file_norm: match input.recent_file_path {
            Some(p) => Some(normalize_path_str(p)),
            None => None,
        },
        git_norm: match input.recent_git_root {
            Some(p) => Some(normalize_path_str(p)),
            None => None,
        },
    }
}

/// Whether the title shows a folder of the project.
fn title_shows(p: &ProjectEntry, t: &FrameText, Ghost(f): Ghost<FrameView>) -> (r: bool)
    requires
        t.of(f),
    ensures
        r == speaks_for(1, *p, f, Seq::empty()),
{
    let mut i: usize = 0;
    while i < p.root_paths.len()
        invariant
            i <= p.root_paths.len(),
            t.of(f),
            forall|j: int|
                0 <= j < i ==> !(byte_len(norm_path((#[trigger] p.root_paths@[j])@)) >= 2
                    && has_part(norm_path(f.title), norm_path(p.root_paths@[j]@))),
        decreases p.root_paths.len() - i,
    {
        let root = normalize_path_str(p.root_paths[i].as_str());
        if byte_length(root.as_str()) >= 2 && contains(t.title_norm.as_str(), root.as_str()) {
            return true;
        }
        i = i + 1;
    }
    false
}

/// Whether a segment of the title is the name, the id or a folder name of the project.
fn segment_names(p: &ProjectEntry, segment: &str, Ghost(f): Ghost<FrameView>) -> (r: bool)
    ensures
        r == speaks_for(2, *p, f, segment@),
{
    if equals_any_case(segment, p.name.as_str()) || equals_any_case(segment, p.id.as_str()) {
        return true;
    }
    let mut i: usize = 0;
    while i < p.root_paths.len()
        invariant
            i <= p.root_paths.len(),
            forall|j: int|
                0 <= j < i ==> !(base_name((#[trigger] p.root_paths@[j])@) matches Some(b)
                    && ascii_lower(segment@) == ascii_lower(b)),
        decreases p.root_paths.len() - i,
    {
        if let Some(base) = path_basename(p.root_paths[i].as_str()) {
            if equals_any_case(segment, base) {
                return true;
            }
        }
        i = i + 1;
    }
    false
}

/// Whether the most recent file belongs to a folder of the project.
fn file_belongs(p: &ProjectEntry, t: &FrameText, Ghost(f): Ghost<FrameView>) -> (r: bool)
    requires
        t.of(f),
    ensures
        r == speaks_for(3, *p, f, Seq::empty()),
{
    match &t.file_norm {
        None => false,
        Some(file) => {
            let mut i: usize = 0;
            while i < p.root_paths.len()
                invariant
                    i <= p.root_paths.len(),
                    t.of(f),
                    f.file is Some,
                    file@ == norm_path(f.file->0),
                    forall|j: int| 0 <= j < i ==> !under_root(f, (#[trigger] p.root_paths@[j])@),
                decreases p.root_paths.len() - i,
            {
                let root = normalize_path_str(p.root_paths[i].as_str());
                if !root.as_str().is_empty() {
                    let git: bool = match &t.git_norm {
                        Some(g) => same(g.as_str(), root.as_str()),
                        None => false,
                    };
                    let mut below: String = root.clone();
                    below.append("/");
                    if git || same(file.as_str(), root.as_str()) || begins(
                        file.as_str(),
                        below.as_str(),
                    ) {
                        proof {
                            assert(under_root(f, p.root_paths@[i as int]@));
                        }
                        return true;
                    }
                }
                i = i + 1;
            }
            false
        },
    }
}

/// Whether the title holds a keyword of the project.
fn keyword_in_title(p: &ProjectEntry, t: &FrameText, Ghost(f): Ghost<FrameView>) -> (r: bool)
    requires
        t.of(f),
    ensures
        r == speaks_for(4, *p, f, Seq::empty()),
{
    let mut i: usize = 0;
    while i < p.keywords.len()
        invariant
            i <= p.keywords.len(),
            t.of(f),
            forall|j: int|
                0 <= j < i ==> !((#[trigger] p.keywords@[j])@.len() > 0 && has_part(
                    ascii_lower(f.title),
                    ascii_lower(p.keywords@[j]@),
                )),
        decreases p.keywords.len() - i,
    {
        if !p.keywords[i].as_str().is_empty() && contains(
            t.title_lower.as_str(),
            lower(p.keywords[i].as_str()).as_str(),
        ) {
            return true;
        }
        i = i + 1;
    }
    false
}

/// Whether the frame speaks for a project by the kind of evidence `tier`.
fn evidence_for(
    tier: u8,
    p: &ProjectEntry,
    t: &FrameText,
    segment: &str,
    Ghost(f): Ghost<FrameView>,
) -> (r: bool)
    requires
        t.of(f),
        1 <= tier <= 4,
        tier != 2 ==> segment@.len() == 0,
    ensures
        r == speaks_for(tier as int, *p, f, segment@),
{
    proof {
        if tier != 2 {
            assert(segment@ == Seq::<char>::empty());
        }
    }
    if tier == 1 {
        title_shows(p, t, Ghost(f))
    } else if tier == 2 {
        segment_names(p, segment, Ghost(f))
    } else if tier == 3 {
        file_belongs(p, t, Ghost(f))
    } else {
        keyword_in_title(p, t, Ghost(f))
    }
}

/// Whether a rule takes the project `id` out of the running.
fn is_excluded(rules: &Vec<OverrideRule>, id: &str, input: &FrameInput<'_>) -> (r: bool)
    ensures
        r == excluded(rules@, id@, input@),
{
    let mut i: usize = 0;
    while i < rules.len()
        invariant
            i <= rules.len(),
            forall|j: int|
                0 <= j < i ==> !((#[trigger] rules@[j]).action == RuleAction::ExcludeProject
                    && rule_matches(rules@[j], input@.process, input@.title)
                    && rules@[j].project_id@ == id@),
        decreases rules.len() - i,
    {
        if rules[i].action == RuleAction::ExcludeProject && rules[i].matches(
            input.process_name,
            input.window_title,
        ) && same(rules[i].project_id.as_str(), id) {
            return true;
        }
        i = i + 1;
    }
    false
}

/// Whether a project may win this frame.
fn is_eligible(p: &ProjectEntry, rules: &Vec<OverrideRule>, input: &FrameInput<'_>) -> (r: bool)
    ensures
        r == eligible(*p, rules@, input@),
{
    p.participates() && !is_excluded(rules, p.id.as_str(), input)
}

/// Whether some eligible project has the id `id`.
fn has_eligible(
    projects: &Vec<ProjectEntry>,
    rules: &Vec<OverrideRule>,
    input: &FrameInput<'_>,
    id: &str,
) -> (r: bool)
    ensures
        r == eligible_id(projects@, rules@, input@, id@),
{
    let mut i: usize = 0;
    while i < projects.len()
        invariant
            i <= projects.len(),
            forall|j: int|
                0 <= j < i ==> !(eligible(#[trigger] projects@[j], rules@, input@)
                    && projects@[j].id@ == id@),
        decreases projects.len() - i,
    {
        if same(projects[i].id.as_str(), id) && is_eligible(&projects[i], rules, input) {
            proof {
                assert(eligible(projects@[i as int], rules@, input@));
            }
            return true;
        }
        i = i + 1;
    }
    false
}

/// The project that a rule forces on the frame.
fn find_forced(
    projects: &Vec<ProjectEntry>,
    rules: &Vec<OverrideRule>,
    input: &FrameInput<'_>,
) -> (r: Option<String>)
    ensures
        opt_view(r) == forced_project(projects@, rules@, input@, rules@),
{
    let mut i: usize = 0;
    while i < rules.len()
        invariant
            i <= rules.len(),
            forced_project(projects@, rules@, input@, rules@.take(i as int)) is None,
        decreases rules.len() - i,
    {
        proof {
            assert(rules@.take(i + 1).drop_last() == rules@.take(i as int));
        }
        if rules[i].action == RuleAction::ForceProject && rules[i].matches(
            input.process_name,
            input.window_title,
        ) && has_eligible(projects, rules, input, rules[i].project_id.as_str()) {
            proof {
                lemma_forced_stays(projects@, rules@, input@, rules@, i + 1);
            }
            return Some(rules[i].project_id.clone());
        }
        i = i + 1;
    }
    proof {
        assert(rules@.take(rules@.len() as int) == rules@);
    }
    None
}

/// What an earlier rule forces, later rules do not change.
proof fn lemma_forced_stays(
    projects: Seq<ProjectEntry>,
    rules: Seq<OverrideRule>,
    f: FrameView,
    forcing: Seq<OverrideRule>,
    n: int,
)
    requires
        0 <= n <= forcing.len(),
        forced_project(projects, rules, f, forcing.take(n)) is Some,
    ensures
        forced_project(projects, rules, f, forcing) == forced_project(
            projects,
            rules,
            f,
            forcing.take(n),
        ),
    decreases forcing.len(),
{
    if n == forcing.len() {
        assert(forcing.take(n) == forcing);
    } else {
        assert(forcing.drop_last().take(n) == forcing.take(n));
        lemma_forced_stays(projects, rules, f, forcing.drop_last(), n);
    }
}

/// The first eligible project that the frame speaks for by the kind of evidence `tier`.
fn find_project(
    projects: &Vec<ProjectEntry>,
    rules: &Vec<OverrideRule>,
    tier: u8,
    input: &FrameInput<'_>,
    t: &FrameText,
    segment: &str,
) -> (r: Option<String>)
    requires
        t.of(input@),
        1 <= tier <= 4,
        tier != 2 ==> segment@.len() == 0,
    ensures
        opt_view(r) == first_project(projects@, rules@, tier as int, input@, segment@),
{
    let mut i: usize = 0;
    while i < projects.len()
        invariant
            i <= projects.len(),
            t.of(input@),
            1 <= tier <= 4,
            tier != 2 ==> segment@.len() == 0,
            first_project(
                projects@.take(i as int),
                rules@,
                tier as int,
                input@,
                segment@,
            ) is None,
        decreases projects.len() - i,
    {
        proof {
            assert(projects@.take(i + 1).drop_last() == projects@.take(i as int));
        }
        if is_eligible(&projects[i], rules, input) && evidence_for(
            tier,
            &projects[i],
            t,
            segment,
            Ghost(input@),
        ) {
            proof {
                lemma_first_stays(projects@, rules@, tier as int, input@, segment@, i + 1);
            }
            return Some(projects[i].id.clone());
        }
        i = i + 1;
    }
    proof {
        assert(projects@.take(projects@.len() as int) == projects@);
    }
    None
}

/// What an earlier project wins, later projects do not change.
proof fn lemma_first_stays(
    projects: Seq<ProjectEntry>,
    rules: Seq<OverrideRule>,
    tier: int,
    f: FrameView,
    segment: Seq<char>,
    n: int,
)
    requires
        0 <= n <= projects.len(),
        first_project(projects.take(n), rules, tier, f, segment) is Some,
    ensures
        first_project(projects, rules, tier, f, segment) == first_project(
            projects.take(n),
            rules,
            tier,
            f,
            segment,
        ),
    decreases projects.len(),
{
    if n == projects.len() {
        assert(projects.take(n) == projects);
    } else {
        assert(projects.drop_last().take(n) == projects.take(n));
        lemma_first_stays(projects.drop_last(), rules, tier, f, segment, n);
    }
}

/// The project that the first telling segment of the title names.
fn find_by_segment(
    projects: &Vec<ProjectEntry>,
    rules: &Vec<OverrideRule>,
    input: &FrameInput<'_>,
    t: &FrameText,
    segments: &Vec<String>,
) -> (r: Option<String>)
    requires
        t.of(input@),
    ensures
        opt_view(r) == segment_project(projects@, rules@, input@, views(segments@)),
{
    let mut i: usize = 0;
    while i < segments.len()
        invariant
            i <= segments.len(),
            t.of(input@),
            segment_project(projects@, rules@, input@, views(segments@).take(i as int)) is None,
        decreases segments.len() - i,
    {
        proof {
            let now = views(segments@).take(i + 1);
            assert(now.drop_last() == views(segments@).take(i as int));
            assert(now.last() == segments@[i as int]@);
        }
        if let Some(id) = find_project(projects, rules, 2, input, t, segments[i].as_str()) {
            proof {
                lemma_segment_stays(projects@, rules@, input@, views(segments@), i + 1);
            }
            return Some(id);
        }
        i = i + 1;
    }
    proof {
        assert(views(segments@).take(segments@.len() as int) == views(segments@));
    }
    None
}

/// What an earlier segment names, later segments do not change.
proof fn lemma_segment_stays(
    projects: Seq<ProjectEntry>,
    rules: Seq<OverrideRule>,
    f: FrameView,
    segments: Seq<Seq<char>>,
    n: int,
)
    requires
        0 <= n <= segments.len(),
        segment_project(projects, rules, f, segments.take(n)) is Some,
    ensures
        segment_project(projects, rules, f, segments) == segment_project(
            projects,
            rules,
            f,
            segments.take(n),
        ),
    decreases segments.len(),
{
    if n == segments.len() {
        assert(segments.take(n) == segments);
    } else {
        assert(segments.drop_last().take(n) == segments.take(n));
        lemma_segment_stays(projects, rules, f, segments.drop_last(), n);
    }
}

/// Resolves one frame against the projects and the rules.
pub fn resolve_frame(
    projects: &Vec<ProjectEntry>,
    rules: &Vec<OverrideRule>,
    input: &FrameInput<'_>,
) -> (r: Option<Resolution>)
    ensures
        (match r {
            Some(x) => Some(x@),
            None => None,
        }) == resolved(projects@, rules@, input@),
{
    proof {
        reveal_strlit("");
        assert(""@ == Seq::<char>::empty());
    }
    if let Some(id) = find_forced(projects, rules, input) {
        return Some(Resolution { project_id: id, confidence: 1_000_000, source_tier: 0 });
    }
    let t = frame_text(input);
    if let Some(id) = find_project(projects, rules, 1, input, &t, "") {
        return Some(Resolution { project_id: id, confidence: 900_000, source_tier: 1 });
    }
    let segments = editor_title_segments(input.window_title);
    proof {
        assert(views(segments@).len() == segments@.len());
    }
    if segments.len() >= 2 {
        if let Some(id) = find_by_segment(projects, rules, input, &t, &segments) {
            return Some(Resolution { project_id: id, confidence: 800_000, source_tier: 2 });
        }
    }
    if let Some(id) = find_project(projects, rules, 3, input, &t, "") {
        return Some(Resolution { project_id: id, confidence: 700_000, source_tier: 3 });
    }
    if let Some(id) = find_project(projects, rules, 4, input, &t, "") {
        return Some(Resolution { project_id: id, confidence: 500_000, source_tier: 4 });
    }
    None
}

// ---------------------------------------------------------------------------
// Laws of resolution
// ---------------------------------------------------------------------------

/// Only a project that takes part and that no rule excludes from the frame can win it: not by a
/// forcing rule either, and never a project that was only discovered.
pub proof fn law_winner_is_eligible(
    projects: Seq<ProjectEntry>,
    rules: Seq<OverrideRule>,
    f: FrameView,
)
    ensures
        resolved(projects, rules, f) matches Some(r) ==> eligible_id(
            projects,
            rules,
            f,
            r.project_id,
        ),
{
    let none = Seq::<char>::empty();
    lemma_forced_eligible(projects, rules, f, rules);
    lemma_first_eligible(projects, rules, 1, f, none);
    lemma_segment_eligible(projects, rules, f, title_segments(f.title));
    lemma_first_eligible(projects, rules, 3, f, none);
    lemma_first_eligible(projects, rules, 4, f, none);
}

proof fn lemma_forced_eligible(
    projects: Seq<ProjectEntry>,
    rules: Seq<OverrideRule>,
    f: FrameView,
    forcing: Seq<OverrideRule>,
)
    ensures
        forced_project(projects, rules, f, forcing) matches Some(id) ==> eligible_id(
            projects,
            rules,
            f,
            id,
        ),
    decreases forcing.len(),
{
    if forcing.len() > 0 {
        lemma_forced_eligible(projects, rules, f, forcing.drop_last());
    }
}

proof fn lemma_first_eligible(
    projects: Seq<ProjectEntry>,
    rules: Seq<OverrideRule>,
    tier: int,
    f: FrameView,
    segment: Seq<char>,
)
    ensures
        first_project(projects, rules, tier, f, segment) matches Some(id) ==> eligible_id(
            projects,
            rules,
            f,
            id,
        ),
    decreases projects.len(),
{
    if projects.len() > 0 {
        let before = projects.drop_last();
        lemma_first_eligible(before, rules, tier, f, segment);
        match first_project(before, rules, tier, f, segment) {
            Some(id) => {
                let i = choose|i: int|
                    0 <= i < before.len() && eligible(#[trigger] before[i], rules, f)
                        && before[i].id@ == id;
                assert(projects[i] == before[i]);
            },
            None => {
                assert(projects[projects.len() - 1] == projects.last());
            },
        }
    }
}

proof fn lemma_segment_eligible(
    projects: Seq<ProjectEntry>,
    rules: Seq<OverrideRule>,
    f: FrameView,
    segments: Seq<Seq<char>>,
)
    ensures
        segment_project(projects, rules, f, segments) matches Some(id) ==> eligible_id(
            projects,
            rules,
            f,
            id,
        ),
    decreases segments.len(),
{
    if segments.len() > 0 {
        lemma_segment_eligible(projects, rules, f, segments.drop_last());
        lemma_first_eligible(projects, rules, 2, f, segments.last());
    }
}

/// A rule without a criterion has no effect on any frame.
pub proof fn law_rule_without_criterion(rule: OverrideRule, process: Seq<char>, title: Seq<char>)
    requires
        rule.match_process is None,
        rule.match_title_substring is None,
    ensures
        !rule_matches(rule, process, title),
{
}

/// The confidence of a resolution is that of its kind of evidence, and stronger evidence is
/// surer.
pub proof fn law_confidence_by_tier(
    projects: Seq<ProjectEntry>,
    rules: Seq<OverrideRule>,
    f: FrameView,
)
    ensures
        resolved(projects, rules, f) matches Some(r) ==> 0 <= r.source_tier <= 4 && r.confidence
            == tier_confidence(r.source_tier),
        forall|a: int, b: int|
            0 <= a < b <= 4 ==> #[trigger] tier_confidence(a) > #[trigger] tier_confidence(b),
{
}

} // verus!
