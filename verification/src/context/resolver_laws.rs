//! What holds of the current project over a stream of frames.
use vstd::prelude::*;
#[allow(unused_imports)]
use crate::context::project::{resolved, FrameView, ProjectEntry, ResolutionView};
#[allow(unused_imports)]
use crate::context::project_laws::{lemma_within, within};
#[allow(unused_imports)]
use crate::context::resolver::{
    discovery_after, dwell_after, dwell_index, entry_index, folder_due, fresh, inside_known,
    lemma_dwell_index, lemma_entry_index, lies_in, remembered, shows_current, stale_secs, switches,
    tenure_after, is_observed, CurrentProject, DiscoveryView, DwellView, ObserveOutcome,
    ResolverView, TenureView, DISCOVERY_RESOLVED_CAP,
};
#[allow(unused_imports)]
use crate::context::titles::{norm_path, segment_paths, title_segments};
#[allow(unused_imports)]
use crate::text::views;
#[allow(unused_imports)]
use crate::time::whole_seconds;

verus! {

/// A frame as far as the current project is concerned: who wins it, and when it was.
pub struct Frame {
    pub winner: Option<ResolutionView>,
    pub ts: int,
}

/// The current project and its challenger after a stream of frames.
pub open spec fn tenure_after_all(start: TenureView, frames: Seq<Frame>, min_secs: int) -> TenureView
    decreases frames.len(),
{
    if frames.len() == 0 {
        start
    } else {
        tenure_after(
            tenure_after_all(start, frames.drop_last(), min_secs),
            frames.last().winner,
            frames.last().ts,
            min_secs,
        )
    }
}

/// Whether the project `id` wins every frame from number `k` on.
pub open spec fn wins_from(frames: Seq<Frame>, k: int, id: Seq<char>) -> bool {
    forall|j: int|
        k <= j < frames.len() ==> ((#[trigger] frames[j]).winner matches Some(w) && w.project_id
            == id)
}

/// A challenger has won every frame since the one it is timed from.
pub proof fn law_challenge_is_unbroken(start: TenureView, frames: Seq<Frame>, min_secs: int)
    requires
        start.pending is None,
    ensures
        tenure_after_all(start, frames, min_secs).pending matches Some(p) ==> exists|k: int|
            0 <= k < frames.len() && (#[trigger] frames[k]).ts == p.since && wins_from(
                frames,
                k,
                p.id,
            ),
    decreases frames.len(),
{
    if frames.len() > 0 {
        let b = frames.drop_last();
        law_challenge_is_unbroken(start, b, min_secs);
        let t = tenure_after_all(start, b, min_secs);
        let n = tenure_after_all(start, frames, min_secs);
        if let Some(p) = n.pending {
            if t.pending == n.pending {
                let k = choose|k: int|
                    0 <= k < b.len() && (#[trigger] b[k]).ts == p.since && wins_from(b, k, p.id);
                assert(frames[k] == b[k]);
                assert forall|j: int| k <= j < frames.len() implies ((
                #[trigger] frames[j]).winner matches Some(w) && w.project_id == p.id) by {
                    if j < b.len() {
                        assert(frames[j] == b[j]);
                    }
                }
                assert(wins_from(frames, k, p.id));
            } else {
                let k = frames.len() - 1;
                assert(frames[k].ts == p.since);
                assert(wins_from(frames, k, p.id));
            }
        }
    }
}

/// The current project only gives way to a project that has won every frame for the whole time
/// that is asked for.
pub proof fn law_switch_after_unbroken_wins(
    start: TenureView,
    frames: Seq<Frame>,
    last: Frame,
    min_secs: int,
)
    requires
        start.pending is None,
        tenure_after_all(start, frames, min_secs).current is Some,
        switches(tenure_after_all(start, frames, min_secs), last.winner, last.ts, min_secs),
    ensures
        exists|k: int|
            0 <= k < frames.len() && whole_seconds(last.ts - (#[trigger] frames[k]).ts) >= min_secs
                && wins_from(frames, k, last.winner->0.project_id),
{
    law_challenge_is_unbroken(start, frames, min_secs);
}

/// Without a current project the first winner becomes it at once.
pub proof fn law_first_winner_adopted(t: TenureView, winner: ResolutionView, now: int, min_secs: int)
    requires
        t.current is None,
    ensures
        switches(t, Some(winner), now, min_secs),
        tenure_after(t, Some(winner), now, min_secs) == (TenureView {
            current: Some(winner),
            pending: None,
        }),
{
}

/// A frame without a winner keeps the current project and ends every challenge; so does a frame
/// that the current project wins.
pub proof fn law_detour_keeps_project(t: TenureView, winner: Option<ResolutionView>, now: int, min_secs: int)
    requires
        winner matches Some(w) ==> (t.current matches Some(c) && c.project_id == w.project_id),
    ensures
        !switches(t, winner, now, min_secs),
        tenure_after(t, winner, now, min_secs).pending is None,
        tenure_after(t, winner, now, min_secs).current is Some == t.current is Some,
        t.current matches Some(c) ==> tenure_after(t, winner, now, min_secs).current->0.project_id
            == c.project_id,
{
}

/// A folder that was dealt with is remembered, and the memory stays within its cap: only the
/// oldest entry can leave, and only where the cap is reached.
pub proof fn law_dealt_with_is_remembered(resolved: Seq<Seq<char>>, key: Seq<char>)
    requires
        resolved.len() <= DISCOVERY_RESOLVED_CAP,
    ensures
        remembered(resolved, key).contains(key),
        remembered(resolved, key).len() <= DISCOVERY_RESOLVED_CAP,
        forall|i: int|
            1 <= i < resolved.len() ==> remembered(resolved, key).contains(#[trigger] resolved[i]),
        resolved.len() < DISCOVERY_RESOLVED_CAP && resolved.len() > 0 ==> remembered(
            resolved,
            key,
        ).contains(resolved[0]),
{
    let r = remembered(resolved, key);
    if !resolved.contains(key) {
        assert(r[r.len() - 1] == key);
        assert forall|i: int| 1 <= i < resolved.len() implies r.contains(
            #[trigger] resolved[i],
        ) by {
            if resolved.len() < DISCOVERY_RESOLVED_CAP {
                assert(r[i] == resolved[i]);
            } else {
                assert(r[i - 1] == resolved[i]);
            }
        }
        if resolved.len() < DISCOVERY_RESOLVED_CAP && resolved.len() > 0 {
            assert(r[0] == resolved[0]);
        }
    } else {
        assert forall|i: int| 1 <= i < resolved.len() implies r.contains(
            #[trigger] resolved[i],
        ) by {
            assert(r[i] == resolved[i]);
        }
        if resolved.len() > 0 {
            assert(r[0] == resolved[0]);
        }
    }
}

/// One sighting counts for at most ten seconds, however long the folder was out of sight, and
/// for nothing where time runs backwards.
pub proof fn law_sighting_counts_little(
    accum: Seq<DwellView>,
    key: Seq<char>,
    path: Seq<char>,
    now: int,
)
    ensures
        match dwell_index(accum, key) {
            Some(i) => accum[i].secs <= dwell_after(accum, key, path, now).secs <= accum[i].secs
                + 10,
            None => dwell_after(accum, key, path, now).secs == 0,
        },
{
}

/// When the current project changes: at once where there is none; else only for another project that
/// has been winning for the whole time that is asked for.
pub proof fn law_when_project_changes(
    t: TenureView,
    winner: Option<ResolutionView>,
    now: int,
    min_secs: int,
)
    requires
        1 <= min_secs,
    ensures
        switches(t, winner, now, min_secs) <==> winner is Some && (t.current is None || (
        t.current->0.project_id != winner->0.project_id && t.pending is Some && t.pending->0.id
            == winner->0.project_id && now - t.pending->0.since >= min_secs * 1_000_000_000)),
{
}

/// What a frame leaves. A change, or a frame of the current project, makes its winner the current
/// project and ends every challenge. A frame of another project leaves the current one and lets the
/// challenge go on, or begins it with this frame. A frame without a winner leaves the current one and
/// ends the challenge.
pub proof fn law_what_a_frame_leaves(
    t: TenureView,
    winner: Option<ResolutionView>,
    now: int,
    min_secs: int,
)
    ensures
        ({
            let n = tenure_after(t, winner, now, min_secs);
            match winner {
                None => n.current == t.current && n.pending is None,
                Some(w) => {
                    let own = t.current is Some && t.current->0.project_id == w.project_id;
                    if own || switches(t, winner, now, min_secs) {
                        n.current == Some(w) && n.pending is None
                    } else {
                        &&& n.current == t.current
                        &&& n.pending is Some && n.pending->0.id == w.project_id
                        &&& t.pending is Some && t.pending->0.id == w.project_id
                            ==> n.pending->0.since == t.pending->0.since
                        &&& !(t.pending is Some && t.pending->0.id == w.project_id)
                            ==> n.pending->0.since == now
                    }
                },
            }
        }),
{
}

/// Whether the times of frames do not run backwards.
pub open spec fn in_time(frames: Seq<Frame>) -> bool {
    forall|i: int, j: int|
        0 <= i <= j < frames.len() ==> (#[trigger] frames[i]).ts <= (#[trigger] frames[j]).ts
}

/// A project that wins every frame becomes the current one as soon as it has been winning for the
/// time that is asked for, whatever was current before.
pub proof fn law_steady_winner_becomes_current(
    start: TenureView,
    frames: Seq<Frame>,
    id: Seq<char>,
    min_secs: int,
)
    requires
        1 <= min_secs,
        frames.len() > 0,
        in_time(frames),
        wins_from(frames, 0, id),
        start.pending matches Some(p) ==> p.since <= frames[0].ts,
        frames.last().ts - frames[0].ts >= min_secs * 1_000_000_000,
    ensures
        tenure_after_all(start, frames, min_secs).current matches Some(c) && c.project_id == id,
{
    lemma_steady(start, frames, id, min_secs);
    let t = tenure_after_all(start, frames, min_secs);
    if frames.len() == 1 {
        assert(frames.last().ts == frames[0].ts);
    } else {
        let b = frames.drop_last();
        assert(in_time(b)) by {
            assert forall|i: int, j: int| 0 <= i <= j < b.len() implies (#[trigger] b[i]).ts <= (
            #[trigger] b[j]).ts by {
                assert(b[i] == frames[i] && b[j] == frames[j]);
            }
        }
        assert(wins_from(b, 0, id)) by {
            assert forall|j: int| 0 <= j < b.len() implies ((#[trigger] b[j]).winner matches Some(w)
                && w.project_id == id) by {
                assert(b[j] == frames[j]);
            }
        }
        assert(b[0] == frames[0]);
        lemma_steady(start, b, id, min_secs);
        let u = tenure_after_all(start, b, min_secs);
        assert(frames[frames.len() - 1].winner is Some);
    }
}

/// A project that wins every frame is current, or has been challenging since the first of them at
/// the latest.
proof fn lemma_steady(start: TenureView, frames: Seq<Frame>, id: Seq<char>, min_secs: int)
    requires
        frames.len() > 0,
        in_time(frames),
        wins_from(frames, 0, id),
        start.pending matches Some(p) ==> p.since <= frames[0].ts,
    ensures
        ({
            let t = tenure_after_all(start, frames, min_secs);
            ||| t.current matches Some(c) && c.project_id == id
            ||| t.pending matches Some(p) && p.id == id && p.since <= frames[0].ts
        }),
    decreases frames.len(),
{
    let b = frames.drop_last();
    assert(frames[frames.len() - 1].winner is Some);
    if b.len() > 0 {
        assert(in_time(b)) by {
            assert forall|i: int, j: int| 0 <= i <= j < b.len() implies (#[trigger] b[i]).ts <= (
            #[trigger] b[j]).ts by {
                assert(b[i] == frames[i] && b[j] == frames[j]);
            }
        }
        assert(wins_from(b, 0, id)) by {
            assert forall|j: int| 0 <= j < b.len() implies ((#[trigger] b[j]).winner matches Some(w)
                && w.project_id == id) by {
                assert(b[j] == frames[j]);
            }
        }
        assert(b[0] == frames[0]);
        lemma_steady(start, b, id, min_secs);
    } else {
        assert(tenure_after_all(start, b, min_secs) == start);
        assert(frames.last() == frames[0]);
    }
}

/// The project that is shown as current is the one that the frames speak for, as it is known: nothing
/// is shown for a project that is no longer known.
pub proof fn law_shown_project(
    shown: Option<CurrentProject>,
    current: Option<ResolutionView>,
    projects: Seq<ProjectEntry>,
)
    requires
        shows_current(shown, current, projects),
    ensures
        shown is Some <==> current is Some && exists|i: int|
            0 <= i < projects.len() && (#[trigger] projects[i]).id@ == current->0.project_id,
        shown matches Some(s) ==> s.id@ == current->0.project_id && s.confidence
            == current->0.confidence && s.source_tier == current->0.source_tier && exists|i: int|
            0 <= i < projects.len() && (#[trigger] projects[i]).id@ == s.id@ && projects[i].name@
                == s.name@ && projects[i].zone == s.zone && projects[i].status == s.status && (
            s.root_path is Some <==> projects[i].root_paths@.len() > 0) && (s.root_path is Some
                ==> s.root_path->0@ == projects[i].root_paths@[0]@),
{
    if let Some(c) = current {
        lemma_entry_index(projects, c.project_id);
        match entry_index(projects, c.project_id) {
            Some(i) => {
                assert(projects[i].id@ == c.project_id);
            },
            None => {},
        }
    }
}

// ---------------------------------------------------------------------------
// Discovery
// ---------------------------------------------------------------------------

/// A folder that has not been seen for too long is forgotten, any other is kept: too long is twice the
/// time for which it would have to be seen, but at least a minute.
pub proof fn law_unseen_folders_are_forgotten(
    accum: Seq<DwellView>,
    now: int,
    discover_min_secs: int,
)
    ensures
        fresh(accum, now, stale_secs(discover_min_secs)) == accum.filter(
            |d: DwellView|
                now - d.last_seen <= 60_000_000_000 || now - d.last_seen <= 2 * discover_min_secs
                    * 1_000_000_000,
        ),
    decreases accum.len(),
{
    reveal(Seq::filter);
    if accum.len() > 0 {
        law_unseen_folders_are_forgotten(accum.drop_last(), now, discover_min_secs);
    }
}

/// What a sighting adds: the whole seconds since the last one, ten at most and none where time runs
/// backwards. The first sighting adds nothing. The path stays as it was first seen.
pub proof fn law_sightings_add_up(
    accum: Seq<DwellView>,
    key: Seq<char>,
    path: Seq<char>,
    now: int,
    i: int,
)
    requires
        0 <= i < accum.len(),
        accum[i].key == key,
        forall|j: int| 0 <= j < i ==> (#[trigger] accum[j]).key != key,
    ensures
        ({
            let d = dwell_after(accum, key, path, now);
            let gap = now - accum[i].last_seen;
            &&& d.key == key && d.path == accum[i].path && d.last_seen == now
            &&& gap >= 10_000_000_000 ==> d.secs == accum[i].secs + 10
            &&& 0 <= gap < 10_000_000_000 ==> d.secs == accum[i].secs + gap / 1_000_000_000
            &&& gap < 0 ==> d.secs == accum[i].secs
        }),
{
    lemma_dwell_index(accum, key);
    let x = dwell_index(accum, key);
    if x is None {
        assert(accum[i].key != key);
    } else if x->0 != i {
        if x->0 < i {
            assert(accum[x->0].key != key);
        } else {
            assert(accum[i].key != key);
        }
    }
}

/// A path lies in a known project exactly where it is a folder of the project or below one.
pub proof fn law_known_folders(projects: Seq<ProjectEntry>, key: Seq<char>)
    ensures
        inside_known(projects, key) <==> exists|i: int, j: int|
            0 <= i < projects.len() && 0 <= j < projects[i].root_paths@.len() && norm_path(
                #[trigger] projects[i].root_paths@[j]@,
            ).len() > 0 && within(key, norm_path(projects[i].root_paths@[j]@)),
{
    if inside_known(projects, key) {
        let (i, j) = choose|i: int, j: int|
            0 <= i < projects.len() && 0 <= j < projects[i].root_paths@.len() && lies_in(
                key,
                #[trigger] projects[i].root_paths@[j]@,
            );
        lemma_within(key, norm_path(projects[i].root_paths@[j]@));
        assert(within(key, norm_path(projects[i].root_paths@[j]@)));
    }
    if exists|i: int, j: int|
        0 <= i < projects.len() && 0 <= j < projects[i].root_paths@.len() && norm_path(
            #[trigger] projects[i].root_paths@[j]@,
        ).len() > 0 && within(key, norm_path(projects[i].root_paths@[j]@)) {
        let (i, j) = choose|i: int, j: int|
            0 <= i < projects.len() && 0 <= j < projects[i].root_paths@.len() && norm_path(
                #[trigger] projects[i].root_paths@[j]@,
            ).len() > 0 && within(key, norm_path(projects[i].root_paths@[j]@));
        lemma_within(key, norm_path(projects[i].root_paths@[j]@));
        assert(lies_in(key, projects[i].root_paths@[j]@));
    }
}

/// A folder is only looked at where it is in no known project, was not dealt with, and has been seen
/// for the time that is asked for; a first sighting is no time. It is then dealt with, and not handed
/// out again.
pub proof fn law_folder_is_looked_at_once(
    d: DiscoveryView,
    projects: Seq<ProjectEntry>,
    path: Seq<char>,
    now: int,
    later: int,
    min_secs: int,
)
    requires
        d.well_formed(),
        1 <= min_secs,
    ensures
        folder_due(d, projects, path, now, min_secs) is Some ==> {
            &&& norm_path(path).len() > 0
            &&& !d.resolved.contains(norm_path(path))
            &&& !inside_known(projects, norm_path(path))
            &&& exists|i: int|
                0 <= i < d.accum.len() && (#[trigger] d.accum[i]).key == norm_path(path)
                    && d.accum[i].secs + 10 >= min_secs && folder_due(
                    d,
                    projects,
                    path,
                    now,
                    min_secs,
                ) == Some(d.accum[i].path)
            &&& folder_due(
                discovery_after(d, projects, path, now, min_secs),
                projects,
                path,
                later,
                min_secs,
            ) is None
        },
        folder_due(d, projects, path, now, min_secs) is Some || (inside_known(
            projects,
            norm_path(path),
        ) && norm_path(path).len() > 0) ==> discovery_after(
            d,
            projects,
            path,
            now,
            min_secs,
        ).resolved.contains(norm_path(path)),
{
    let key = norm_path(path);
    lemma_dwell_index(d.accum, key);
    law_dealt_with_is_remembered(d.resolved, key);
    law_sighting_counts_little(d.accum, key, path, now);
    if folder_due(d, projects, path, now, min_secs) is Some {
        let i = dwell_index(d.accum, key)->0;
        assert(d.accum[i].key == key);
    }
}

/// A folder that has been seen for the time that is asked for is looked at: where its last sighting was
/// less than ten seconds ago, its time grows by the seconds since, until it is enough.
pub proof fn law_steady_folder_is_looked_at(
    d: DiscoveryView,
    projects: Seq<ProjectEntry>,
    path: Seq<char>,
    now: int,
    min_secs: int,
    i: int,
)
    requires
        d.well_formed(),
        norm_path(path).len() > 0,
        !d.resolved.contains(norm_path(path)),
        !inside_known(projects, norm_path(path)),
        0 <= i < d.accum.len(),
        d.accum[i].key == norm_path(path),
        0 <= now - d.accum[i].last_seen < 10_000_000_000,
    ensures
        ({
            let secs = d.accum[i].secs + (now - d.accum[i].last_seen) / 1_000_000_000;
            let n = discovery_after(d, projects, path, now, min_secs);
            &&& secs >= min_secs ==> folder_due(d, projects, path, now, min_secs) == Some(
                d.accum[i].path,
            )
            &&& secs < min_secs ==> folder_due(d, projects, path, now, min_secs) is None
                && n.accum.len() == d.accum.len() && n.accum[i].secs == secs && n.accum[i].last_seen
                == now && n.accum[i].key == d.accum[i].key && n.resolved == d.resolved
        }),
{
    let key = norm_path(path);
    assert forall|j: int| 0 <= j < i implies (#[trigger] d.accum[j]).key != key by {
        assert(d.accum[j].key != d.accum[i].key);
    }
    law_sightings_add_up(d.accum, key, path, now, i);
    lemma_dwell_index(d.accum, key);
    let x = dwell_index(d.accum, key)->0;
    if x < i {
        assert(d.accum[x].key != key);
    } else if x > i {
        assert(d.accum[i].key != key);
    }
}

/// A folder that is seen for the first time begins to count.
pub proof fn law_first_sighting_begins_to_count(
    d: DiscoveryView,
    projects: Seq<ProjectEntry>,
    path: Seq<char>,
    now: int,
    min_secs: int,
)
    requires
        1 <= min_secs,
        norm_path(path).len() > 0,
        !d.resolved.contains(norm_path(path)),
        !inside_known(projects, norm_path(path)),
        forall|j: int| 0 <= j < d.accum.len() ==> (#[trigger] d.accum[j]).key != norm_path(path),
    ensures
        folder_due(d, projects, path, now, min_secs) is None,
        discovery_after(d, projects, path, now, min_secs) == (DiscoveryView {
            accum: d.accum.push(
                DwellView { key: norm_path(path), path, secs: 0, last_seen: now },
            ),
            ..d
        }),
{
    lemma_dwell_index(d.accum, norm_path(path));
}

/// What comes of a frame. A change is reported with the project before it, the one after it and the
/// time of the frame; it is reported exactly where the current project becomes another one. Projects
/// and rules stay as they are, and the folders of the title are handed out where folders are looked
/// for.
pub proof fn law_frame_is_observed(
    before: ResolverView,
    f: FrameView,
    r: ObserveOutcome,
    after: ResolverView,
)
    requires
        is_observed(before, f, r, after),
    ensures
        ({
            let winner = resolved(before.projects, before.rules, f);
            let old_id = match before.tenure.current {
                Some(c) => Some(c.project_id),
                None => None,
            };
            let new_id = match after.tenure.current {
                Some(c) => Some(c.project_id),
                None => None,
            };
            &&& after.projects == before.projects && after.rules == before.rules
            &&& after.switch_min_secs == before.switch_min_secs
            &&& r.switched is Some <==> old_id != new_id
            &&& r.switched matches Some(s) ==> Some(s.to@) == new_id && s.ts.nanos == f.ts && (match s.from {
                Some(x) => old_id == Some(x@),
                None => old_id is None,
            }) && winner is Some && winner->0.project_id == s.to@
            &&& winner is None ==> after.tenure.current == before.tenure.current
            &&& before.tenure.current is None && winner is Some ==> r.switched is Some
            &&& after.shown == r.current
            &&& r.current matches Some(c) ==> new_id == Some(c.id@)
            &&& before.auto_discover ==> views(r.folders@) == segment_paths(title_segments(f.title))
            &&& !before.auto_discover ==> r.folders@.len() == 0 && after.discovery
                == before.discovery
            &&& after.discovery.resolved == before.discovery.resolved
        }),
{
    law_shown_project(r.current, after.tenure.current, before.projects);
    assert(views(r.folders@).len() == r.folders@.len());
}

} // verus!
