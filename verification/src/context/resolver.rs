//! # The project resolver
//!
//! Keeps the current project over a stream of frames. The project that a frame speaks for becomes
//! the current one at once where there was none; after that, another project must win without a
//! break for some time before the current one changes. Beside that the resolver watches which
//! folders the window titles show, and hands over those that were seen long enough, so that they
//! can be looked at on disk and proposed as projects.
use std::collections::VecDeque;
use vstd::prelude::*;
use crate::context::project::{
    resolve_frame, FrameInput, OverrideRule, ProjectEntry, ProjectStatus, ProjectsConfig,
    Resolution,
};
use crate::context::sensitivity::Zone;
use crate::context::slug::unique_slug;
use crate::context::titles::{extract_title_paths, normalize_path_str, path_basename};
use crate::duplicate::Duplicate;
use crate::text::{begins, queue_contains, same};
use crate::time::{nanos_between, seconds_between, Timestamp};
#[allow(unused_imports)]
use crate::context::project::{resolved, FrameView, ResolutionView};
#[allow(unused_imports)]
use crate::context::slug::{is_first_free, slug_of, slug_try};
#[allow(unused_imports)]
use crate::context::titles::{base_name, norm_path, segment_paths, title_segments};
#[allow(unused_imports)]
use crate::text::{opt_str_view, opt_view, starts_with, views};
#[allow(unused_imports)]
use crate::time::whole_seconds;

verus! {

/// The most seconds that count between two sightings of a folder.
pub const DISCOVERY_MAX_GAP_SECS: i64 = 10;

/// The most folders that are remembered as dealt with.
pub const DISCOVERY_RESOLVED_CAP: usize = 2048;

/// The least time after which a folder that is no longer seen is forgotten.
pub const DISCOVERY_ACCUM_MIN_STALE_SECS: i64 = 60;

/// The current project, as the rest of the engine sees it.
#[derive(Debug, Clone, PartialEq, Eq)]
pub struct CurrentProject {
    pub id: String,
    pub name: String,
    /// The first folder of the project.
    pub root_path: Option<String>,
    /// How sure the last resolution was, in millionths.
    pub confidence: u32,
    /// The kind of evidence of the last resolution.
    pub source_tier: u8,
    pub zone: Option<Zone>,
    pub status: ProjectStatus,
}

impl Duplicate for CurrentProject {
    fn duplicate(&self) -> (r: Self) {
        CurrentProject {
            id: self.id.clone(),
            name: self.name.clone(),
            root_path: self.root_path.duplicate(),
            confidence: self.confidence,
            source_tier: self.source_tier,
            zone: self.zone,
            status: self.status,
        }
    }
}

/// A change of the current project.
#[derive(Debug, Clone, PartialEq, Eq)]
pub struct ProjectSwitch {
    /// The project before, where there was one.
    pub from: Option<String>,
    pub to: String,
    pub ts: Timestamp,
}

/// A folder that is proposed as a project.
#[derive(Debug, Clone, PartialEq, Eq)]
pub struct DiscoveredCandidate {
    pub id: String,
    pub name: String,
    pub root_path: String,
}

/// What came of a frame.
#[derive(Debug, Clone)]
pub struct ObserveOutcome {
    /// The current project after the frame.
    pub current: Option<CurrentProject>,
    /// The change of the current project, where there was one.
    pub switched: Option<ProjectSwitch>,
    /// The folders that the title shows, for `sight_folder`. None where discovery is off.
    pub folders: Vec<String>,
}

// ---------------------------------------------------------------------------
// Discovery
// ---------------------------------------------------------------------------

/// How long a folder has been seen.
#[derive(Debug, Clone, PartialEq, Eq)]
pub struct Dwell {
    /// The path in the form in which paths are compared.
    pub key: String,
    /// The path as it was first seen.
    pub path: String,
    pub secs: u64,
    pub last_seen: Timestamp,
}

/// The text of a `Dwell`.
#[verifier::ext_equal]
pub struct DwellView {
    pub key: Seq<char>,
    pub path: Seq<char>,
    pub secs: int,
    pub last_seen: int,
}

impl View for Dwell {
    type V = DwellView;

    open spec fn view(&self) -> DwellView {
        DwellView {
            key: self.key@,
            path: self.path@,
            secs: self.secs as int,
            last_seen: self.last_seen.nanos as int,
        }
    }
}

/// What discovery remembers.
#[derive(Debug)]
pub struct DiscoveryState {
    /// The folders that have been seen, but not yet long enough.
    pub accum: Vec<Dwell>,
    /// The folders that were proposed or dismissed, the oldest first.
    pub resolved: VecDeque<String>,
}

/// What a `DiscoveryState` holds.
#[verifier::ext_equal]
pub struct DiscoveryView {
    pub accum: Seq<DwellView>,
    pub resolved: Seq<Seq<char>>,
}

/// What a list of dwells holds.
pub open spec fn dwells(l: Seq<Dwell>) -> Seq<DwellView> {
    l.map_values(|d: Dwell| d@)
}

impl View for DiscoveryState {
    type V = DiscoveryView;

    open spec fn view(&self) -> DiscoveryView {
        DiscoveryView { accum: dwells(self.accum@), resolved: views(self.resolved@) }
    }
}

impl DiscoveryView {
    /// Nothing is remembered twice, and not more than the cap is remembered as dealt with.
    pub open spec fn well_formed(self) -> bool {
        &&& self.resolved.no_duplicates()
        &&& self.resolved.len() <= DISCOVERY_RESOLVED_CAP
        &&& forall|i: int, j: int|
            0 <= i < j < self.accum.len() ==> (#[trigger] self.accum[i]).key != (
            #[trigger] self.accum[j]).key
    }
}

/// The folders dealt with after `key` was: the oldest leaves where the cap is reached.
pub open spec fn remembered(resolved: Seq<Seq<char>>, key: Seq<char>) -> Seq<Seq<char>> {
    if resolved.contains(key) {
        resolved
    } else if resolved.len() < DISCOVERY_RESOLVED_CAP {
        resolved.push(key)
    } else {
        resolved.drop_first().push(key)
    }
}

/// The folders that were seen within the last `stale` seconds.
pub open spec fn fresh(accum: Seq<DwellView>, now: int, stale: int) -> Seq<DwellView>
    decreases accum.len(),
{
    if accum.len() == 0 {
        seq![]
    } else if now - accum.last().last_seen <= stale * 1_000_000_000 {
        fresh(accum.drop_last(), now, stale).push(accum.last())
    } else {
        fresh(accum.drop_last(), now, stale)
    }
}

/// The place of the folder `key` among those seen.
pub open spec fn dwell_index(accum: Seq<DwellView>, key: Seq<char>) -> Option<int>
    decreases accum.len(),
{
    if accum.len() == 0 {
        None
    } else {
        match dwell_index(accum.drop_last(), key) {
            Some(i) => Some(i),
            None => if accum.last().key == key {
                Some(accum.len() - 1)
            } else {
                None
            },
        }
    }
}

/// What a gap between two sightings counts for.
pub open spec fn credit(gap: int) -> int {
    if gap < 0 {
        0
    } else if gap > DISCOVERY_MAX_GAP_SECS {
        DISCOVERY_MAX_GAP_SECS as int
    } else {
        gap
    }
}

/// The dwell of a folder after it is seen at `now`.
pub open spec fn dwell_after(
    accum: Seq<DwellView>,
    key: Seq<char>,
    path: Seq<char>,
    now: int,
) -> DwellView {
    match dwell_index(accum, key) {
        Some(i) => DwellView {
            secs: accum[i].secs + credit(whole_seconds(now - accum[i].last_seen)),
            last_seen: now,
            ..accum[i]
        },
        None => DwellView { key, path, secs: 0, last_seen: now },
    }
}

/// The seconds after which a folder that is no longer seen is forgotten: twice the time for which
/// it would have to be seen, but at least a minute.
pub open spec fn stale_secs(discover_min_secs: int) -> int {
    if 2 * discover_min_secs < DISCOVERY_ACCUM_MIN_STALE_SECS {
        DISCOVERY_ACCUM_MIN_STALE_SECS as int
    } else {
        2 * discover_min_secs
    }
}

/// Whether a path lies in a folder of a known project.
pub open spec fn inside_known(projects: Seq<ProjectEntry>, key: Seq<char>) -> bool {
    exists|i: int, j: int|
        0 <= i < projects.len() && 0 <= j < projects[i].root_paths@.len() && lies_in(
            key,
            #[trigger] projects[i].root_paths@[j]@,
        )
}

/// Whether a path is the folder `root` or lies in it.
pub open spec fn lies_in(key: Seq<char>, root: Seq<char>) -> bool {
    let r = norm_path(root);
    r.len() > 0 && (key == r || starts_with(key, r + "/"@))
}

/// The folder that is to be looked at on disk after a path was seen, where there is one: it has been
/// seen long enough, was not dealt with before, and lies in no known project.
pub open spec fn folder_due(
    d: DiscoveryView,
    projects: Seq<ProjectEntry>,
    path: Seq<char>,
    now: int,
    min_secs: int,
) -> Option<Seq<char>> {
    let key = norm_path(path);
    let dwell = dwell_after(d.accum, key, path, now);
    if key.len() == 0 || d.resolved.contains(key) || inside_known(projects, key) || dwell.secs
        < min_secs {
        None
    } else {
        Some(dwell.path)
    }
}

/// What discovery remembers after a path was seen. One that lies in a known project, or that is now to
/// be looked at, is dealt with; any other adds to the time for which it has been seen.
pub open spec fn discovery_after(
    d: DiscoveryView,
    projects: Seq<ProjectEntry>,
    path: Seq<char>,
    now: int,
    min_secs: int,
) -> DiscoveryView {
    let key = norm_path(path);
    let dwell = dwell_after(d.accum, key, path, now);
    if key.len() == 0 || d.resolved.contains(key) {
        d
    } else if inside_known(projects, key) {
        DiscoveryView { resolved: remembered(d.resolved, key), ..d }
    } else if dwell.secs >= min_secs {
        DiscoveryView {
            accum: match dwell_index(d.accum, key) {
                Some(i) => d.accum.remove(i),
                None => d.accum,
            },
            resolved: remembered(d.resolved, key),
        }
    } else {
        DiscoveryView {
            accum: match dwell_index(d.accum, key) {
                Some(i) => d.accum.update(i, dwell),
                None => d.accum.push(dwell),
            },
            ..d
        }
    }
}

impl DiscoveryState {
    /// Nothing seen, nothing dealt with.
    pub fn new() -> (r: Self)
        ensures
            r@ == (DiscoveryView { accum: seq![], resolved: seq![] }),
            r@.well_formed(),
    {
        let r = DiscoveryState { accum: Vec::new(), resolved: VecDeque::new() };
        proof {
            assert(r@.accum =~= seq![]);
            assert(r@.resolved =~= seq![]);
        }
        r
    }

    /// Remembers a folder as dealt with.
    pub fn mark_resolved(&mut self, key: String)
        requires
            old(self)@.well_formed(),
        ensures
            final(self)@ == (DiscoveryView {
                resolved: remembered(old(self)@.resolved, key@),
                ..old(self)@
            }),
            final(self)@.well_formed(),
    {
        let ghost before = self.resolved@;
        if queue_contains(&self.resolved, key.as_str()) {
            return;
        }
        let ghost k = key@;
        proof {
            assert(views(before).len() == before.len());
        }
        if self.resolved.len() >= DISCOVERY_RESOLVED_CAP {
            self.resolved.pop_front();
            proof {
                assert(views(self.resolved@) =~= views(before).drop_first());
            }
        }
        let ghost cut = self.resolved@;
        self.resolved.push_back(key);
        proof {
            assert(views(self.resolved@) =~= views(cut).push(k));
            assert(self@.resolved =~= remembered(views(before), k));
            assert(!views(cut).contains(k)) by {
                if views(cut).contains(k) {
                    let i = choose|i: int| 0 <= i < views(cut).len() && views(cut)[i] == k;
                    if cut.len() == before.len() {
                        assert(views(before)[i] == k);
                    } else {
                        assert(views(before)[i + 1] == k);
                    }
                }
            }
            assert(views(cut).no_duplicates());
            assert forall|i: int, j: int|
                0 <= i < self@.resolved.len() && 0 <= j < self@.resolved.len() && i != j implies self@.resolved[i]
                != self@.resolved[j] by {
                if i < cut.len() && j < cut.len() {
                    assert(self@.resolved[i] == views(cut)[i]);
                    assert(self@.resolved[j] == views(cut)[j]);
                } else if i < cut.len() {
                    assert(self@.resolved[i] == views(cut)[i]);
                    assert(views(cut).contains(views(cut)[i]));
                } else if j < cut.len() {
                    assert(self@.resolved[j] == views(cut)[j]);
                    assert(views(cut).contains(views(cut)[j]));
                }
            }
        }
    }

    /// Forgets the folders that have not been seen for `stale` seconds.
    pub fn evict_stale_accum(&mut self, now: Timestamp, stale: u128)
        requires
            old(self)@.well_formed(),
            stale <= 0x1_ffff_ffff_ffff_ffff,
        ensures
            final(self)@ == (DiscoveryView {
                accum: fresh(old(self)@.accum, now.nanos as int, stale as int),
                ..old(self)@
            }),
            final(self)@.well_formed(),
    {
        let ghost all = self@.accum;
        let mut kept: Vec<Dwell> = Vec::new();
        let mut rest: Vec<Dwell> = Vec::new();
        std::mem::swap(&mut rest, &mut self.accum);
        let n: usize = rest.len();
        let mut i: usize = 0;
        proof {
            assert(all.take(0) == Seq::<DwellView>::empty());
            assert(dwells(kept@) =~= seq![]);
        }
        while i < n
            invariant
                i <= n,
                n == rest.len(),
                all == dwells(rest@),
                stale <= 0x1_ffff_ffff_ffff_ffff,
                dwells(kept@) == fresh(all.take(i as int), now.nanos as int, stale as int),
            decreases n - i,
        {
            proof {
                assert(all.take(i + 1).drop_last() == all.take(i as int));
                assert(all.take(i + 1).last() == rest@[i as int]@);
            }
            if nanos_between(rest[i].last_seen, now) <= stale as i128 * 1_000_000_000 {
                let ghost before = kept@;
                let d = rest[i].duplicate();
                kept.push(d);
                proof {
                    assert(dwells(kept@) =~= dwells(before).push(rest@[i as int]@));
                }
            }
            i = i + 1;
        }
        proof {
            assert(all.take(all.len() as int) == all);
        }
        self.accum = kept;
        proof {
            lemma_fresh_distinct(all, now.nanos as int, stale as int);
        }
    }
}

impl Duplicate for Dwell {
    fn duplicate(&self) -> (r: Self) {
        Dwell {
            key: self.key.clone(),
            path: self.path.clone(),
            secs: self.secs,
            last_seen: self.last_seen,
        }
    }
}

/// What is kept of distinct folders is distinct, and was there before.
proof fn lemma_fresh_distinct(accum: Seq<DwellView>, now: int, stale: int)
    requires
        forall|i: int, j: int|
            0 <= i < j < accum.len() ==> (#[trigger] accum[i]).key != (#[trigger] accum[j]).key,
    ensures
        forall|i: int|
            0 <= i < fresh(accum, now, stale).len() ==> accum.contains(
                #[trigger] fresh(accum, now, stale)[i],
            ),
        forall|i: int, j: int|
            0 <= i < j < fresh(accum, now, stale).len() ==> (#[trigger] fresh(
                accum,
                now,
                stale,
            )[i]).key != (#[trigger] fresh(accum, now, stale)[j]).key,
    decreases accum.len(),
{
    if accum.len() > 0 {
        let b = accum.drop_last();
        assert forall|i: int, j: int| 0 <= i < j < b.len() implies (#[trigger] b[i]).key != (
        #[trigger] b[j]).key by {
            assert(b[i] == accum[i] && b[j] == accum[j]);
        }
        lemma_fresh_distinct(b, now, stale);
        let fb = fresh(b, now, stale);
        let f = fresh(accum, now, stale);
        assert forall|i: int| 0 <= i < f.len() implies accum.contains(#[trigger] f[i]) by {
            if i < fb.len() {
                assert(f[i] == fb[i]);
                let k = choose|k: int| 0 <= k < b.len() && b[k] == fb[i];
                assert(accum[k] == f[i]);
            } else {
                assert(accum[accum.len() - 1] == f[i]);
            }
        }
        assert forall|i: int, j: int| 0 <= i < j < f.len() implies (#[trigger] f[i]).key != (
        #[trigger] f[j]).key by {
            assert(f[i] == fb[i]);
            if j < fb.len() {
                assert(f[j] == fb[j]);
            } else {
                assert(b.contains(fb[i]));
                let k = choose|k: int| 0 <= k < b.len() && b[k] == fb[i];
                assert(accum[k] == f[i]);
                assert(accum[accum.len() - 1] == f[j]);
            }
        }
    }
}

// ---------------------------------------------------------------------------
// Hysteresis
// ---------------------------------------------------------------------------

/// A project that wins against the current one, and since when.
#[verifier::ext_equal]
pub struct PendingView {
    pub id: Seq<char>,
    pub since: int,
}

/// The current project and its challenger.
#[verifier::ext_equal]
pub struct TenureView {
    pub current: Option<ResolutionView>,
    pub pending: Option<PendingView>,
}

/// Whether a frame that `winner` wins changes the current project.
pub open spec fn switches(
    t: TenureView,
    winner: Option<ResolutionView>,
    now: int,
    min_secs: int,
) -> bool {
    winner matches Some(w) && (match t.current {
        None => true,
        Some(c) => c.project_id != w.project_id && (t.pending matches Some(p) && p.id
            == w.project_id && whole_seconds(now - p.since) >= min_secs),
    })
}

/// The current project and its challenger after a frame that `winner` wins.
pub open spec fn tenure_after(
    t: TenureView,
    winner: Option<ResolutionView>,
    now: int,
    min_secs: int,
) -> TenureView {
    match winner {
        None => TenureView { pending: None, ..t },
        Some(w) => if switches(t, winner, now, min_secs) || (t.current matches Some(c)
            && c.project_id == w.project_id) {
            TenureView { current: Some(w), pending: None }
        } else if t.pending matches Some(p) && p.id == w.project_id {
            t
        } else {
            TenureView { pending: Some(PendingView { id: w.project_id, since: now }), ..t }
        },
    }
}

/// The project that is shown as current: the entry of the resolution, where it is still known.
pub open spec fn shows_current(
    shown: Option<CurrentProject>,
    current: Option<ResolutionView>,
    projects: Seq<ProjectEntry>,
) -> bool {
    match current {
        None => shown is None,
        Some(c) => match entry_index(projects, c.project_id) {
            None => shown is None,
            Some(i) => shown matches Some(s) && s.id@ == projects[i].id@ && s.name@
                == projects[i].name@ && opt_view(s.root_path) == (if projects[i].root_paths@.len()
                == 0 {
                None
            } else {
                Some(projects[i].root_paths@[0]@)
            }) && s.confidence == c.confidence && s.source_tier == c.source_tier && s.zone
                == projects[i].zone && s.status == projects[i].status,
        },
    }
}

/// The place of the first project with the id `id`.
pub open spec fn entry_index(projects: Seq<ProjectEntry>, id: Seq<char>) -> Option<int>
    decreases projects.len(),
{
    if projects.len() == 0 {
        None
    } else {
        match entry_index(projects.drop_last(), id) {
            Some(i) => Some(i),
            None => if projects.last().id@ == id {
                Some(projects.len() - 1)
            } else {
                None
            },
        }
    }
}

/// `entry_index` is the first place, where there is one.
pub proof fn lemma_entry_index(projects: Seq<ProjectEntry>, id: Seq<char>)
    ensures
        match entry_index(projects, id) {
            Some(i) => 0 <= i < projects.len() && projects[i].id@ == id && (forall|j: int|
                0 <= j < i ==> (#[trigger] projects[j]).id@ != id),
            None => forall|j: int| 0 <= j < projects.len() ==> (#[trigger] projects[j]).id@ != id,
        },
    decreases projects.len(),
{
    if projects.len() > 0 {
        let b = projects.drop_last();
        lemma_entry_index(b, id);
        match entry_index(b, id) {
            Some(i) => {
                assert(projects[i] == b[i]);
                assert forall|j: int| 0 <= j < i implies (#[trigger] projects[j]).id@ != id by {
                    assert(projects[j] == b[j]);
                }
            },
            None => {
                assert forall|j: int| 0 <= j < b.len() implies (#[trigger] projects[j]).id@
                    != id by {
                    assert(projects[j] == b[j]);
                }
            },
        }
    }
}

/// The first place with a given id is `entry_index`.
proof fn lemma_entry_index_is(projects: Seq<ProjectEntry>, id: Seq<char>, i: int)
    requires
        0 <= i < projects.len(),
        projects[i].id@ == id,
        forall|j: int| 0 <= j < i ==> (#[trigger] projects[j]).id@ != id,
    ensures
        entry_index(projects, id) == Some(i),
{
    lemma_entry_index(projects, id);
    match entry_index(projects, id) {
        Some(k) => {
            assert(k == i) by {
                if i < k {
                    assert(projects[i].id@ != id);
                }
            }
        },
        None => {
            assert(projects[i].id@ != id);
        },
    }
}

// ---------------------------------------------------------------------------
// The resolver
// ---------------------------------------------------------------------------

/// The project resolver.
#[derive(Debug)]
pub struct ProjectResolver {
    projects: Vec<ProjectEntry>,
    rules: Vec<OverrideRule>,
    switch_min_secs: u64,
    discover_min_secs: u64,
    auto_discover: bool,
    current: Option<Resolution>,
    pending: Option<(String, Timestamp)>,
    discovery: DiscoveryState,
    shown: Option<CurrentProject>,
}

/// What a `ProjectResolver` holds.
pub struct ResolverView {
    pub projects: Seq<ProjectEntry>,
    pub rules: Seq<OverrideRule>,
    pub switch_min_secs: int,
    pub discover_min_secs: int,
    pub auto_discover: bool,
    pub tenure: TenureView,
    pub discovery: DiscoveryView,
    pub shown: Option<CurrentProject>,
}

impl View for ProjectResolver {
    type V = ResolverView;

    closed spec fn view(&self) -> ResolverView {
        ResolverView {
            projects: self.projects@,
            rules: self.rules@,
            switch_min_secs: self.switch_min_secs as int,
            discover_min_secs: self.discover_min_secs as int,
            auto_discover: self.auto_discover,
            tenure: TenureView {
                current: match self.current {
                    Some(r) => Some(r@),
                    None => None,
                },
                pending: match self.pending {
                    Some((id, since)) => Some(
                        PendingView { id: id@, since: since.nanos as int },
                    ),
                    None => None,
                },
            },
            discovery: self.discovery@,
            shown: self.shown,
        }
    }
}

/// Whether `after` is the resolver `before` after a frame, and `r` what came of it.
pub open spec fn is_observed(
    before: ResolverView,
    f: FrameView,
    r: ObserveOutcome,
    after: ResolverView,
) -> bool {
    let winner = resolved(before.projects, before.rules, f);
    let tenure = tenure_after(before.tenure, winner, f.ts, before.switch_min_secs);
    &&& after == (ResolverView {
        tenure,
        shown: r.current,
        discovery: if before.auto_discover {
            DiscoveryView {
                accum: fresh(
                    before.discovery.accum,
                    f.ts,
                    stale_secs(before.discover_min_secs),
                ),
                ..before.discovery
            }
        } else {
            before.discovery
        },
        ..before
    })
    &&& shows_current(r.current, tenure.current, before.projects)
    &&& r.switched is Some == switches(before.tenure, winner, f.ts, before.switch_min_secs)
    &&& r.switched matches Some(s) ==> s.ts.nanos == f.ts && s.to@ == winner->0.project_id
        && opt_view(s.from) == (match before.tenure.current {
        Some(c) => Some(c.project_id),
        None => None,
    })
    &&& views(r.folders@) == (if before.auto_discover {
        segment_paths(title_segments(f.title))
    } else {
        seq![]
    })
}

impl ProjectResolver {
    /// Whether what discovery remembers is in order.
    pub open spec fn well_formed(&self) -> bool {
        self@.discovery.well_formed()
    }

    /// A resolver for the given projects and rules.
    pub fn new(
        projects: Vec<ProjectEntry>,
        rules: Vec<OverrideRule>,
        cfg: &ProjectsConfig,
    ) -> (r: Self)
        ensures
            r.well_formed(),
            r@ == (ResolverView {
                projects: projects@,
                rules: rules@,
                switch_min_secs: cfg.switch_min_secs as int,
                discover_min_secs: cfg.discover_min_secs as int,
                auto_discover: cfg.auto_discover,
                tenure: TenureView { current: None, pending: None },
                discovery: DiscoveryView { accum: seq![], resolved: seq![] },
                shown: None,
            }),
    {
        ProjectResolver {
            projects,
            rules,
            switch_min_secs: cfg.switch_min_secs,
            discover_min_secs: cfg.discover_min_secs,
            auto_discover: cfg.auto_discover,
            current: None,
            pending: None,
            discovery: DiscoveryState::new(),
            shown: None,
        }
    }

    /// A resolver for the projects of the configuration, without rules.
    pub fn from_config(cfg: &ProjectsConfig) -> (r: Self)
        ensures
            r.well_formed(),
            r@.projects.len() == cfg.known@.len(),
            forall|i: int|
                0 <= i < cfg.known@.len() ==> from_entry(#[trigger] r@.projects[i], cfg.known@[i]),
            r@.rules == Seq::<OverrideRule>::empty(),
            r@.switch_min_secs == cfg.switch_min_secs,
            r@.discover_min_secs == cfg.discover_min_secs,
            r@.auto_discover == cfg.auto_discover,
            r@.tenure == (TenureView { current: None, pending: None }),
            r@.discovery == (DiscoveryView { accum: seq![], resolved: seq![] }),
            r@.shown is None,
    {
        let mut projects: Vec<ProjectEntry> = Vec::new();
        let mut i: usize = 0;
        while i < cfg.known.len()
            invariant
                i <= cfg.known.len(),
                projects@.len() == i,
                forall|j: int| 0 <= j < i ==> from_entry(#[trigger] projects@[j], cfg.known@[j]),
            decreases cfg.known.len() - i,
        {
            projects.push(ProjectEntry::from_config(&cfg.known[i]));
            i = i + 1;
        }
        ProjectResolver::new(projects, Vec::new(), cfg)
    }

    /// The current project, as of the last frame.
    pub fn current(&self) -> (r: Option<CurrentProject>)
        ensures
            r == self@.shown,
    {
        self.shown.duplicate()
    }

    /// Every project that is known.
    pub fn projects(&self) -> (r: &Vec<ProjectEntry>)
        ensures
            r@ == self@.projects,
    {
        &self.projects
    }

    /// What discovery remembers.
    pub fn discovery(&self) -> (r: &DiscoveryState)
        ensures
            r@ == self@.discovery,
    {
        &self.discovery
    }

    /// The ids of the projects that are known.
    pub fn known_ids(&self) -> (r: Vec<String>)
        ensures
            views(r@) == ids_of(self@.projects),
    {
        let mut r: Vec<String> = Vec::new();
        let mut i: usize = 0;
        while i < self.projects.len()
            invariant
                i <= self.projects.len(),
                r@.len() == i,
                forall|j: int| 0 <= j < i ==> (#[trigger] r@[j])@ == self.projects@[j].id@,
            decreases self.projects.len() - i,
        {
            r.push(self.projects[i].id.clone());
            i = i + 1;
        }
        proof {
            assert(views(r@) =~= ids_of(self.projects@));
        }
        r
    }

    /// The place of the first project with the id `id`.
    fn find_entry(&self, id: &str) -> (r: Option<usize>)
        ensures
            (match r {
                Some(i) => Some(i as int),
                None => None,
            }) == entry_index(self@.projects, id@),
            r matches Some(i) ==> i < self@.projects.len(),
    {
        let mut i: usize = 0;
        proof {
            lemma_entry_index(self.projects@, id@);
        }
        while i < self.projects.len()
            invariant
                i <= self.projects.len(),
                forall|j: int| 0 <= j < i ==> (#[trigger] self.projects@[j]).id@ != id@,
            decreases self.projects.len() - i,
        {
            if same(self.projects[i].id.as_str(), id) {
                proof {
                    lemma_entry_index_is(self.projects@, id@, i as int);
                }
                return Some(i);
            }
            i = i + 1;
        }
        proof {
            lemma_entry_index(self.projects@, id@);
        }
        None
    }

    /// Adds a project, or replaces the one with its id.
    pub fn upsert_project(&mut self, entry: ProjectEntry)
        ensures
            final(self)@ == (ResolverView {
                projects: match entry_index(old(self)@.projects, entry.id@) {
                    Some(i) => old(self)@.projects.update(i, entry),
                    None => old(self)@.projects.push(entry),
                },
                ..old(self)@
            }),
    {
        match self.find_entry(entry.id.as_str()) {
            Some(i) => {
                self.projects.set(i, entry);
            },
            None => {
                self.projects.push(entry);
            },
        }
    }

    /// Marks a project as confirmed. Returns whether there is one with the id.
    pub fn confirm_project(&mut self, id: &str) -> (r: bool)
        ensures
            r == entry_index(old(self)@.projects, id@) is Some,
            final(self)@ == (ResolverView {
                projects: match entry_index(old(self)@.projects, id@) {
                    Some(i) => old(self)@.projects.update(
                        i,
                        ProjectEntry {
                            status: ProjectStatus::Confirmed,
                            ..old(self)@.projects[i]
                        },
                    ),
                    None => old(self)@.projects,
                },
                ..old(self)@
            }),
    {
        match self.find_entry(id) {
            Some(i) => {
                let ghost before = self.projects@;
                self.projects[i].status = ProjectStatus::Confirmed;
                proof {
                    assert(self.projects@ =~= before.update(
                        i as int,
                        ProjectEntry { status: ProjectStatus::Confirmed, ..before[i as int] },
                    ));
                }
                true
            },
            None => false,
        }
    }

    /// Adds a rule of the user.
    pub fn add_rule(&mut self, rule: OverrideRule)
        ensures
            final(self)@ == (ResolverView { rules: old(self)@.rules.push(rule), ..old(self)@ }),
    {
        self.rules.push(rule);
    }

    /// The project that a frame speaks for, whatever the current project is.
    pub fn resolve_candidate(&self, input: &FrameInput<'_>) -> (r: Option<Resolution>)
        ensures
            (match r {
                Some(x) => Some(x@),
                None => None,
            }) == resolved(self@.projects, self@.rules, input@),
    {
        resolve_frame(&self.projects, &self.rules, input)
    }

    /// The current project as the rest of the engine sees it.
    fn current_project(&self) -> (r: Option<CurrentProject>)
        ensures
            shows_current(r, self@.tenure.current, self@.projects),
    {
        match &self.current {
            None => None,
            Some(c) => {
                proof {
                    lemma_entry_index(self.projects@, c.project_id@);
                }
                match self.find_entry(c.project_id.as_str()) {
                    None => None,
                    Some(i) => {
                        let entry = &self.projects[i];
                        let root: Option<String> = if entry.root_paths.len() == 0 {
                            None
                        } else {
                            Some(entry.root_paths[0].clone())
                        };
                        Some(
                            CurrentProject {
                                id: entry.id.clone(),
                                name: entry.name.clone(),
                                root_path: root,
                                confidence: c.confidence,
                                source_tier: c.source_tier,
                                zone: entry.zone,
                                status: entry.status,
                            },
                        )
                    },
                }
            },
        }
    }

    /// Takes one frame into account.
    ///
    /// The first winner becomes the current project at once. After that a different project must
    /// win without a break for the configured time; a frame that it does not win, and a frame
    /// without a winner, end its challenge. A frame without a winner keeps the current project.
    pub fn observe(&mut self, input: &FrameInput<'_>) -> (r: ObserveOutcome)
        requires
            old(self).well_formed(),
        ensures
            final(self).well_formed(),
            is_observed(old(self)@, input@, r, final(self)@),
    {
        let winner = self.resolve_candidate(input);
        let mut switched: Option<ProjectSwitch> = None;
        match winner {
            None => {
                self.pending = None;
            },
            Some(w) => {
                let incumbent: Option<String> = match &self.current {
                    Some(c) => Some(c.project_id.clone()),
                    None => None,
                };
                match incumbent {
                    None => {
                        switched = Some(
                            ProjectSwitch { from: None, to: w.project_id.clone(), ts: input.ts },
                        );
                        self.current = Some(w);
                        self.pending = None;
                    },
                    Some(c) => {
                        if same(c.as_str(), w.project_id.as_str()) {
                            self.current = Some(w);
                            self.pending = None;
                        } else {
                            let held: Option<i64> = match &self.pending {
                                Some((id, since)) => if same(id.as_str(), w.project_id.as_str()) {
                                    Some(seconds_between(*since, input.ts))
                                } else {
                                    None
                                },
                                None => None,
                            };
                            match held {
                                Some(secs) => {
                                    if secs as i128 >= self.switch_min_secs as i128 {
                                        switched = Some(
                                            ProjectSwitch {
                                                from: Some(c),
                                                to: w.project_id.clone(),
                                                ts: input.ts,
                                            },
                                        );
                                        self.current = Some(w);
                                        self.pending = None;
                                    }
                                },
                                None => {
                                    self.pending = Some((w.project_id.clone(), input.ts));
                                },
                            }
                        }
                    },
                }
            },
        }
        let current = self.current_project();
        self.shown = current.duplicate();
        let mut folders: Vec<String> = Vec::new();
        proof {
            assert(views(folders@) =~= seq![]);
        }
        if self.auto_discover {
            let twice: u128 = self.discover_min_secs as u128 * 2;
            let stale: u128 = if twice < DISCOVERY_ACCUM_MIN_STALE_SECS as u128 {
                DISCOVERY_ACCUM_MIN_STALE_SECS as u128
            } else {
                twice
            };
            self.discovery.evict_stale_accum(input.ts, stale);
            folders = extract_title_paths(input.window_title);
        }
        ObserveOutcome { current, switched, folders }
    }

    /// Whether a path lies in a folder of a known project.
    fn is_inside_known(&self, key: &str) -> (r: bool)
        ensures
            r == inside_known(self@.projects, key@),
    {
        let mut i: usize = 0;
        while i < self.projects.len()
            invariant
                i <= self.projects.len(),
                forall|a: int, b: int|
                    0 <= a < i && 0 <= b < self.projects@[a].root_paths@.len() ==> !lies_in(
                        key@,
                        #[trigger] self.projects@[a].root_paths@[b]@,
                    ),
            decreases self.projects.len() - i,
        {
            let roots = &self.projects[i].root_paths;
            let mut j: usize = 0;
            while j < roots.len()
                invariant
                    i < self.projects.len(),
                    roots@ == self.projects@[i as int].root_paths@,
                    j <= roots.len(),
                    forall|a: int, b: int|
                        0 <= a < i && 0 <= b < self.projects@[a].root_paths@.len() ==> !lies_in(
                            key@,
                            #[trigger] self.projects@[a].root_paths@[b]@,
                        ),
                    forall|b: int| 0 <= b < j ==> !lies_in(key@, (#[trigger] roots@[b])@),
                decreases roots.len() - j,
            {
                let root = normalize_path_str(roots[j].as_str());
                if !root.as_str().is_empty() {
                    let mut below: String = root.clone();
                    below.append("/");
                    if same(key, root.as_str()) || begins(key, below.as_str()) {
                        proof {
                            assert(lies_in(
                                key@,
                                self.projects@[i as int].root_paths@[j as int]@,
                            ));
                        }
                        return true;
                    }
                }
                j = j + 1;
            }
            i = i + 1;
        }
        false
    }

    /// Takes one sighting of a folder into account. Gives back the path as it was first seen
    /// where the folder has now been seen long enough and is to be looked at on disk; it then
    /// counts as dealt with, and `propose_folder` says what was found.
    pub fn sight_folder(&mut self, path: &str, ts: Timestamp) -> (r: Option<String>)
        requires
            old(self).well_formed(),
        ensures
            final(self).well_formed(),
            opt_view(r) == folder_due(
                old(self)@.discovery,
                old(self)@.projects,
                path@,
                ts.nanos as int,
                old(self)@.discover_min_secs,
            ),
            final(self)@ == (ResolverView {
                discovery: discovery_after(
                    old(self)@.discovery,
                    old(self)@.projects,
                    path@,
                    ts.nanos as int,
                    old(self)@.discover_min_secs,
                ),
                ..old(self)@
            }),
    {
        let key = normalize_path_str(path);
        if key.as_str().is_empty() || queue_contains(&self.discovery.resolved, key.as_str()) {
            return None;
        }
        if self.is_inside_known(key.as_str()) {
            self.discovery.mark_resolved(key);
            return None;
        }
        let ghost before = self.discovery@;
        let found = find_dwell(&self.discovery.accum, key.as_str());
        proof {
            lemma_dwell_index(before.accum, key@);
        }
        match found {
            Some(i) => {
                let gap: i64 = seconds_between(self.discovery.accum[i].last_seen, ts);
                let add: i64 = if gap < 0 {
                    0
                } else if gap > DISCOVERY_MAX_GAP_SECS {
                    DISCOVERY_MAX_GAP_SECS
                } else {
                    gap
                };
                let secs: u128 = self.discovery.accum[i].secs as u128 + add as u128;
                if secs >= self.discover_min_secs as u128 {
                    let ghost acc = self.discovery.accum@;
                    let gone = self.discovery.accum.remove(i);
                    proof {
                        assert(dwells(self.discovery.accum@) =~= before.accum.remove(i as int));
                        assert(self.discovery@.well_formed());
                    }
                    self.discovery.mark_resolved(key);
                    Some(gone.path)
                } else {
                    let ghost acc = self.discovery.accum@;
                    let now = Dwell {
                        key: self.discovery.accum[i].key.clone(),
                        path: self.discovery.accum[i].path.clone(),
                        secs: secs as u64,
                        last_seen: ts,
                    };
                    self.discovery.accum.set(i, now);
                    proof {
                        assert(dwells(self.discovery.accum@) =~= before.accum.update(
                            i as int,
                            dwell_after(before.accum, key@, path@, ts.nanos as int),
                        ));
                    }
                    None
                }
            },
            None => {
                if self.discover_min_secs == 0 {
                    self.discovery.mark_resolved(key);
                    Some(path.to_owned())
                } else {
                    let ghost k = key@;
                    let ghost acc = self.discovery.accum@;
                    let fresh_dwell = Dwell {
                        key,
                        path: path.to_owned(),
                        secs: 0,
                        last_seen: ts,
                    };
                    self.discovery.accum.push(fresh_dwell);
                    proof {
                        assert(dwells(self.discovery.accum@) =~= before.accum.push(
                            dwell_after(before.accum, k, path@, ts.nanos as int),
                        ));
                    }
                    None
                }
            },
        }
    }

    /// Proposes the folder `root` that was found on disk for a path that had been seen long
    /// enough, and takes it up as a discovered project. Nothing is proposed where nothing was
    /// found, or where the folder has no name.
    pub fn propose_folder(&mut self, root: Option<&str>) -> (r: Option<DiscoveredCandidate>)
        ensures
            ({
                let name = match opt_str_view(root) {
                    Some(p) => base_name(p),
                    None => None,
                };
                &&& r is Some == name is Some
                &&& r is None ==> final(self)@ == old(self)@
                &&& r matches Some(c) ==> {
                    &&& c.name@ == name->0
                    &&& c.root_path@ == root->0@
                    &&& exists|n: int|
                        is_first_free(slug_of(c.name@), n, ids_of(old(self)@.projects)) && c.id@
                            == #[trigger] slug_try(slug_of(c.name@), n)
                    &&& final(self)@ == (ResolverView {
                        projects: final(self)@.projects,
                        ..old(self)@
                    })
                    &&& final(self)@.projects.len() == old(self)@.projects.len() + 1
                    &&& final(self)@.projects.drop_last() == old(self)@.projects
                    &&& is_proposal(final(self)@.projects.last(), c)
                }
            }),
    {
        match root {
            None => None,
            Some(path) => {
                match path_basename(path) {
                    None => None,
                    Some(name) => {
                        let known = self.known_ids();
                        let id = unique_slug(name, &known);
                        let mut roots: Vec<String> = Vec::new();
                        roots.push(path.to_owned());
                        let entry = ProjectEntry {
                            id: id.clone(),
                            name: name.to_owned(),
                            root_paths: roots,
                            repo: None,
                            keywords: Vec::new(),
                            zone: None,
                            status: ProjectStatus::Discovered,
                        };
                        let ghost before = self.projects@;
                        self.projects.push(entry);
                        proof {
                            assert(self.projects@.drop_last() =~= before);
                            assert(views(roots@) =~= seq![path@]);
                        }
                        Some(
                            DiscoveredCandidate {
                                id,
                                name: name.to_owned(),
                                root_path: path.to_owned(),
                            },
                        )
                    },
                }
            },
        }
    }
}

/// Whether `p` is the project that a configuration entry describes.
pub open spec fn from_entry(
    p: ProjectEntry,
    e: crate::context::project::ProjectConfigEntry,
) -> bool {
    &&& p.id@ == (if crate::context::slug::is_slug(e.id@) {
        e.id@
    } else {
        slug_of(e.id@)
    })
    &&& p.name@ == (if crate::text::trimmed(e.name@).len() == 0 {
        p.id@
    } else {
        e.name@
    })
    &&& p.root_paths@ == e.root_paths@
    &&& p.repo == e.repo
    &&& p.keywords@ == e.keywords@
    &&& p.zone == e.zone
    &&& p.status == ProjectStatus::Configured
}

/// The ids of a list of projects.
pub open spec fn ids_of(projects: Seq<ProjectEntry>) -> Seq<Seq<char>> {
    projects.map_values(|p: ProjectEntry| p.id@)
}

/// Whether `p` is the project that a proposal describes.
pub open spec fn is_proposal(p: ProjectEntry, c: DiscoveredCandidate) -> bool {
    &&& p.id@ == c.id@
    &&& p.name@ == c.name@
    &&& views(p.root_paths@) == seq![c.root_path@]
    &&& p.repo is None
    &&& p.keywords@.len() == 0
    &&& p.zone is None
    &&& p.status == ProjectStatus::Discovered
}

/// `dwell_index` is the first place, where there is one.
pub proof fn lemma_dwell_index(accum: Seq<DwellView>, key: Seq<char>)
    ensures
        match dwell_index(accum, key) {
            Some(i) => 0 <= i < accum.len() && accum[i].key == key && (forall|j: int|
                0 <= j < i ==> (#[trigger] accum[j]).key != key),
            None => forall|j: int| 0 <= j < accum.len() ==> (#[trigger] accum[j]).key != key,
        },
    decreases accum.len(),
{
    if accum.len() > 0 {
        let b = accum.drop_last();
        lemma_dwell_index(b, key);
        match dwell_index(b, key) {
            Some(i) => {
                assert(accum[i] == b[i]);
                assert forall|j: int| 0 <= j < i implies (#[trigger] accum[j]).key != key by {
                    assert(accum[j] == b[j]);
                }
            },
            None => {
                assert forall|j: int| 0 <= j < b.len() implies (#[trigger] accum[j]).key
                    != key by {
                    assert(accum[j] == b[j]);
                }
            },
        }
    }
}

/// The place of the folder `key` among those seen.
fn find_dwell(accum: &Vec<Dwell>, key: &str) -> (r: Option<usize>)
    ensures
        (match r {
            Some(i) => Some(i as int),
            None => None,
        }) == dwell_index(dwells(accum@), key@),
        r matches Some(i) ==> i < accum@.len(),
{
    let ghost all = dwells(accum@);
    let mut i: usize = 0;
    while i < accum.len()
        invariant
            i <= accum.len(),
            all == dwells(accum@),
            forall|j: int| 0 <= j < i ==> (#[trigger] all[j]).key != key@,
        decreases accum.len() - i,
    {
        if same(accum[i].key.as_str(), key) {
            proof {
                lemma_dwell_index(all, key@);
                assert(all[i as int].key == key@);
                let k = dwell_index(all, key@);
                assert(k is Some);
                assert(k->0 == i) by {
                    if i < k->0 {
                        assert(all[i as int].key != key@);
                    }
                }
            }
            return Some(i);
        }
        i = i + 1;
    }
    proof {
        lemma_dwell_index(all, key@);
    }
    None
}

} // verus!
