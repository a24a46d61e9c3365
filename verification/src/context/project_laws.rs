//! Which evidence decides a frame: what each kind of evidence is, that the strongest wins, and that
//! of several projects with the same evidence the first does.
use vstd::prelude::*;
#[allow(unused_imports)]
use crate::context::project::{
    eligible, eligible_id, excluded, first_project, forced_project, resolved, rule_matches,
    segment_project, speaks_for, under_root, FrameView, OverrideRule, ProjectEntry, ProjectStatus,
    RuleAction,
};
#[allow(unused_imports)]
use crate::context::titles::{base_name, norm_path, title_segments};
#[allow(unused_imports)]
use crate::text::{ascii_lower, byte_len, has_part, starts_with};

verus! {

/// Whether a rule is about a frame: it names a process or a part of the title, and what it names is
/// that of the frame, in any case.
pub open spec fn is_about(rule: OverrideRule, f: FrameView) -> bool {
    &&& rule.match_process is None ==> rule.match_title_substring is Some
    &&& rule.match_process is Some ==> ascii_lower(rule.match_process->0@) == ascii_lower(f.process)
    &&& rule.match_title_substring is Some ==> has_part(
        ascii_lower(f.title),
        ascii_lower(rule.match_title_substring->0@),
    )
}

/// Whether a project is in the running for a frame: it is configured or confirmed, and no rule that
/// is about the frame excludes it.
pub open spec fn in_the_running(p: ProjectEntry, rules: Seq<OverrideRule>, f: FrameView) -> bool {
    &&& p.status == ProjectStatus::Configured || p.status == ProjectStatus::Confirmed
    &&& forall|i: int|
        0 <= i < rules.len() && (#[trigger] rules[i]).action == RuleAction::ExcludeProject && is_about(
            rules[i],
            f,
        ) ==> rules[i].project_id@ != p.id@
}

/// The evidence for a project in the title: a folder of the project stands in it.
pub open spec fn folder_in_title(p: ProjectEntry, f: FrameView) -> bool {
    exists|i: int|
        0 <= i < p.root_paths@.len() && byte_len(norm_path((#[trigger] p.root_paths@[i])@)) >= 2
            && has_part(norm_path(f.title), norm_path(p.root_paths@[i]@))
}

/// The evidence for a project in a part of the title: it is the name or the id of the project, or
/// the name of one of its folders, in any case.
pub open spec fn named_in(p: ProjectEntry, segment: Seq<char>) -> bool {
    ||| ascii_lower(segment) == ascii_lower(p.name@)
    ||| ascii_lower(segment) == ascii_lower(p.id@)
    ||| exists|i: int|
        0 <= i < p.root_paths@.len() && base_name((#[trigger] p.root_paths@[i])@) is Some
            && ascii_lower(segment) == ascii_lower(base_name(p.root_paths@[i]@)->0)
}

/// Whether `path` is `folder` or lies below it.
pub open spec fn within(path: Seq<char>, folder: Seq<char>) -> bool {
    path == folder || exists|rest: Seq<char>| path == #[trigger] (folder + "/"@ + rest)
}

/// The evidence for a project in the most recent file: the file lies in a folder of the project, or
/// in a repository that is one.
pub open spec fn file_in_folder(p: ProjectEntry, f: FrameView) -> bool {
    f.file is Some && exists|i: int|
        0 <= i < p.root_paths@.len() && norm_path((#[trigger] p.root_paths@[i])@).len() > 0 && (within(
            norm_path(f.file->0),
            norm_path(p.root_paths@[i]@),
        ) || (f.git_root is Some && norm_path(f.git_root->0) == norm_path(p.root_paths@[i]@)))
}

/// The evidence for a project in the words of the title: one of its keywords, in any case.
pub open spec fn keyword_in_title(p: ProjectEntry, f: FrameView) -> bool {
    exists|i: int|
        0 <= i < p.keywords@.len() && (#[trigger] p.keywords@[i])@.len() > 0 && has_part(
            ascii_lower(f.title),
            ascii_lower(p.keywords@[i]@),
        )
}

/// The projects with a folder in the title.
pub open spec fn by_folder(f: FrameView) -> spec_fn(ProjectEntry) -> bool {
    |p: ProjectEntry| folder_in_title(p, f)
}

/// The projects that a part of the title names.
pub open spec fn by_part(segment: Seq<char>) -> spec_fn(ProjectEntry) -> bool {
    |p: ProjectEntry| named_in(p, segment)
}

/// The projects that the most recent file belongs to.
pub open spec fn by_file(f: FrameView) -> spec_fn(ProjectEntry) -> bool {
    |p: ProjectEntry| file_in_folder(p, f)
}

/// The projects with a keyword in the title.
pub open spec fn by_keyword(f: FrameView) -> spec_fn(ProjectEntry) -> bool {
    |p: ProjectEntry| keyword_in_title(p, f)
}

/// Whether project `k` is the first in the running for which `evidence` speaks.
pub open spec fn is_first(
    projects: Seq<ProjectEntry>,
    rules: Seq<OverrideRule>,
    f: FrameView,
    evidence: spec_fn(ProjectEntry) -> bool,
    k: int,
) -> bool {
    &&& 0 <= k < projects.len()
    &&& in_the_running(projects[k], rules, f) && evidence(projects[k])
    &&& forall|j: int|
        0 <= j < k ==> !(in_the_running(#[trigger] projects[j], rules, f) && evidence(projects[j]))
}

proof fn lemma_in_the_running(p: ProjectEntry, rules: Seq<OverrideRule>, f: FrameView)
    ensures
        eligible(p, rules, f) == in_the_running(p, rules, f),
{
    if !excluded(rules, p.id@, f) {
        assert forall|i: int|
            0 <= i < rules.len() && (#[trigger] rules[i]).action == RuleAction::ExcludeProject
                && is_about(rules[i], f) implies rules[i].project_id@ != p.id@ by {
            assert(rule_matches(rules[i], f.process, f.title));
        }
    } else {
        let i = choose|i: int|
            0 <= i < rules.len() && (#[trigger] rules[i]).action == RuleAction::ExcludeProject
                && rule_matches(rules[i], f.process, f.title) && rules[i].project_id@ == p.id@;
        assert(is_about(rules[i], f));
    }
}

pub proof fn lemma_within(path: Seq<char>, folder: Seq<char>)
    ensures
        within(path, folder) == (path == folder || starts_with(path, folder + "/"@)),
{
    if starts_with(path, folder + "/"@) {
        let n = (folder + "/"@).len() as int;
        assert(path == folder + "/"@ + path.skip(n));
    }
    if path != folder && within(path, folder) {
        let rest = choose|rest: Seq<char>| path == #[trigger] (folder + "/"@ + rest);
        assert(path.take((folder + "/"@).len() as int) =~= folder + "/"@);
    }
}

/// What the evidence of a tier is.
proof fn lemma_evidence(p: ProjectEntry, f: FrameView, segment: Seq<char>)
    ensures
        speaks_for(1, p, f, segment) == folder_in_title(p, f),
        speaks_for(2, p, f, segment) == named_in(p, segment),
        speaks_for(3, p, f, segment) == file_in_folder(p, f),
        speaks_for(4, p, f, segment) == keyword_in_title(p, f),
{
    if speaks_for(2, p, f, segment) && !(ascii_lower(segment) == ascii_lower(p.name@))
        && !(ascii_lower(segment) == ascii_lower(p.id@)) {
        let i = choose|i: int|
            0 <= i < p.root_paths@.len() && (base_name((#[trigger] p.root_paths@[i])@) matches Some(
                b,
            ) && ascii_lower(segment) == ascii_lower(b));
        assert(base_name(p.root_paths@[i]@) is Some);
    }
    if f.file is Some {
        assert forall|i: int| 0 <= i < p.root_paths@.len() implies under_root(
            f,
            (#[trigger] p.root_paths@[i])@,
        ) == (norm_path(p.root_paths@[i]@).len() > 0 && (within(
            norm_path(f.file->0),
            norm_path(p.root_paths@[i]@),
        ) || (f.git_root is Some && norm_path(f.git_root->0) == norm_path(p.root_paths@[i]@)))) by {
            lemma_within(norm_path(f.file->0), norm_path(p.root_paths@[i]@));
        }
        if speaks_for(3, p, f, segment) {
            let i = choose|i: int|
                0 <= i < p.root_paths@.len() && under_root(f, (#[trigger] p.root_paths@[i])@);
            assert(norm_path(p.root_paths@[i]@).len() > 0);
        }
        if file_in_folder(p, f) {
            let i = choose|i: int|
                0 <= i < p.root_paths@.len() && norm_path((#[trigger] p.root_paths@[i])@).len() > 0
                    && (within(norm_path(f.file->0), norm_path(p.root_paths@[i]@)) || (f.git_root
                    is Some && norm_path(f.git_root->0) == norm_path(p.root_paths@[i]@)));
            assert(under_root(f, p.root_paths@[i]@));
        }
    }
}

/// The project that a kind of evidence gives is the first in the running for which it speaks.
proof fn lemma_first(
    projects: Seq<ProjectEntry>,
    rules: Seq<OverrideRule>,
    tier: int,
    f: FrameView,
    segment: Seq<char>,
    evidence: spec_fn(ProjectEntry) -> bool,
)
    requires
        forall|p: ProjectEntry| #[trigger] evidence(p) == speaks_for(tier, p, f, segment),
    ensures
        match first_project(projects, rules, tier, f, segment) {
            Some(id) => exists|k: int| #[trigger]
                is_first(projects, rules, f, evidence, k) && projects[k].id@ == id,
            None => forall|k: int|
                0 <= k < projects.len() ==> !(in_the_running(#[trigger] projects[k], rules, f)
                    && evidence(projects[k])),
        },
    decreases projects.len(),
{
    if projects.len() > 0 {
        let b = projects.drop_last();
        let n = projects.len() - 1;
        lemma_first(b, rules, tier, f, segment, evidence);
        lemma_in_the_running(projects.last(), rules, f);
        assert(forall|k: int| 0 <= k < n ==> #[trigger] b[k] == projects[k]);
        match first_project(b, rules, tier, f, segment) {
            Some(id) => {
                let k = choose|k: int| #[trigger]
                    is_first(b, rules, f, evidence, k) && b[k].id@ == id;
                assert forall|j: int| 0 <= j < k implies !(in_the_running(
                    #[trigger] projects[j],
                    rules,
                    f,
                ) && evidence(projects[j])) by {
                    assert(b[j] == projects[j]);
                }
                assert(is_first(projects, rules, f, evidence, k));
            },
            None => {
                assert forall|j: int| 0 <= j < n implies !(in_the_running(
                    #[trigger] projects[j],
                    rules,
                    f,
                ) && evidence(projects[j])) by {
                    assert(b[j] == projects[j]);
                }
                if eligible(projects.last(), rules, f) && speaks_for(
                    tier,
                    projects.last(),
                    f,
                    segment,
                ) {
                    assert(evidence(projects.last()));
                    assert(is_first(projects, rules, f, evidence, n));
                } else {
                    assert(evidence(projects[n]) == speaks_for(tier, projects[n], f, segment));
                }
            },
        }
    }
}

/// Whether some project in the running has the evidence `evidence`.
pub open spec fn any_with(
    projects: Seq<ProjectEntry>,
    rules: Seq<OverrideRule>,
    f: FrameView,
    evidence: spec_fn(ProjectEntry) -> bool,
) -> bool {
    exists|k: int|
        0 <= k < projects.len() && in_the_running(#[trigger] projects[k], rules, f) && evidence(
            projects[k],
        )
}

/// A folder of a project in the title decides wherever no rule does, with a confidence of nine
/// tenths, for the first project in the running that has one there.
pub proof fn law_folder_in_title_decides(
    projects: Seq<ProjectEntry>,
    rules: Seq<OverrideRule>,
    f: FrameView,
)
    ensures
        any_with(projects, rules, f, by_folder(f)) ==> (resolved(
            projects,
            rules,
            f,
        ) matches Some(r) && r.source_tier <= 1),
        resolved(projects, rules, f) matches Some(r) ==> r.source_tier == 1 ==> r.confidence
            == 900_000 && exists|k: int| #[trigger]
            is_first(projects, rules, f, by_folder(f), k)
                && projects[k].id@ == r.project_id,
{
    let none = Seq::<char>::empty();
    let e = by_folder(f);
    assert forall|p: ProjectEntry| #[trigger] e(p) == speaks_for(1, p, f, none) by {
        lemma_evidence(p, f, none);
    }
    lemma_first(projects, rules, 1, f, none, e);
}

/// The most recent file decides wherever no rule and no title does, whatever the repository: the
/// first project in the running wins in one of whose folders the file lies, with a confidence of
/// seven tenths.
pub proof fn law_recent_file_decides(
    projects: Seq<ProjectEntry>,
    rules: Seq<OverrideRule>,
    f: FrameView,
)
    ensures
        any_with(projects, rules, f, by_file(f)) ==> (resolved(
            projects,
            rules,
            f,
        ) matches Some(r) && r.source_tier <= 3),
        resolved(projects, rules, f) matches Some(r) ==> r.source_tier == 3 ==> r.confidence
            == 700_000 && exists|k: int| #[trigger]
            is_first(projects, rules, f, by_file(f), k)
                && projects[k].id@ == r.project_id,
{
    let none = Seq::<char>::empty();
    let e = by_file(f);
    assert forall|p: ProjectEntry| #[trigger] e(p) == speaks_for(3, p, f, none) by {
        lemma_evidence(p, f, none);
    }
    lemma_first(projects, rules, 3, f, none, e);
}

/// A file below a folder of a project speaks for the project, however deep it lies there.
pub proof fn law_file_below_folder_speaks(
    projects: Seq<ProjectEntry>,
    rules: Seq<OverrideRule>,
    f: FrameView,
    k: int,
    i: int,
    rest: Seq<char>,
)
    requires
        0 <= k < projects.len(),
        in_the_running(projects[k], rules, f),
        0 <= i < projects[k].root_paths@.len(),
        norm_path(projects[k].root_paths@[i]@).len() > 0,
        f.file is Some,
        norm_path(f.file->0) == norm_path(projects[k].root_paths@[i]@) + "/"@ + rest,
    ensures
        resolved(projects, rules, f) matches Some(r) && r.source_tier <= 3 && (r.source_tier == 3
            ==> exists|j: int|
            0 <= j <= k && file_in_folder(#[trigger] projects[j], f) && projects[j].id@
                == r.project_id),
{
    let e = by_file(f);
    assert(within(norm_path(f.file->0), norm_path(projects[k].root_paths@[i]@)));
    assert(file_in_folder(projects[k], f));
    assert(e(projects[k]));
    law_recent_file_decides(projects, rules, f);
    let r = resolved(projects, rules, f)->0;
    if r.source_tier == 3 {
        let j = choose|j: int| #[trigger]
            is_first(projects, rules, f, e, j) && projects[j].id@ == r.project_id;
        assert(e(projects[j]));
        if k < j {
            assert(!(in_the_running(projects[k], rules, f) && e(projects[k])));
        }
        assert(file_in_folder(projects[j], f));
    }
}

/// A keyword in the title decides where nothing else does, with a confidence of one half, for the
/// first project in the running that has it. Without any evidence the frame speaks for no project.
pub proof fn law_keyword_decides_last(
    projects: Seq<ProjectEntry>,
    rules: Seq<OverrideRule>,
    f: FrameView,
)
    ensures
        any_with(projects, rules, f, by_keyword(f)) ==> resolved(
            projects,
            rules,
            f,
        ) is Some,
        resolved(projects, rules, f) matches Some(r) ==> r.source_tier == 4 ==> r.confidence
            == 500_000 && exists|k: int| #[trigger]
            is_first(projects, rules, f, by_keyword(f), k)
                && projects[k].id@ == r.project_id,
        resolved(projects, rules, f) matches Some(r) ==> 0 <= r.source_tier <= 4,
{
    let none = Seq::<char>::empty();
    let e = by_keyword(f);
    assert forall|p: ProjectEntry| #[trigger] e(p) == speaks_for(4, p, f, none) by {
        lemma_evidence(p, f, none);
    }
    lemma_first(projects, rules, 4, f, none, e);
}

/// A part of the title decides wherever no rule and no folder in the title does, with a confidence of
/// eight tenths: the first part that names a project in the running, and of several projects the
/// first that it names. A title of one part names none.
pub proof fn law_title_part_decides(
    projects: Seq<ProjectEntry>,
    rules: Seq<OverrideRule>,
    f: FrameView,
)
    ensures
        forall|m: int|
            title_segments(f.title).len() >= 2 && 0 <= m < title_segments(f.title).len() && any_with(
                projects,
                rules,
                f,
                by_part(#[trigger] title_segments(f.title)[m]),
            ) ==> (resolved(projects, rules, f) matches Some(r) && r.source_tier <= 2),
        resolved(projects, rules, f) matches Some(r) ==> r.source_tier == 2 ==> r.confidence
            == 800_000 && title_segments(f.title).len() >= 2 && exists|m: int, k: int|
            0 <= m < title_segments(f.title).len() && #[trigger] is_first(
                projects,
                rules,
                f,
                by_part(title_segments(f.title)[m]),
                k,
            ) && projects[k].id@ == r.project_id && forall|j: int|
                0 <= j < m ==> !any_with(
                    projects,
                    rules,
                    f,
                    by_part(#[trigger] title_segments(f.title)[j]),
                ),
{
    lemma_segments(projects, rules, f, title_segments(f.title));
}

proof fn lemma_segments(
    projects: Seq<ProjectEntry>,
    rules: Seq<OverrideRule>,
    f: FrameView,
    segments: Seq<Seq<char>>,
)
    ensures
        match segment_project(projects, rules, f, segments) {
            Some(id) => exists|m: int, k: int|
                0 <= m < segments.len() && #[trigger] is_first(
                    projects,
                    rules,
                    f,
                    by_part(segments[m]),
                    k,
                ) && projects[k].id@ == id && forall|j: int|
                    0 <= j < m ==> !any_with(projects, rules, f, by_part(#[trigger] segments[j])),
            None => forall|m: int|
                0 <= m < segments.len() ==> !any_with(
                    projects,
                    rules,
                    f,
                    by_part(#[trigger] segments[m]),
                ),
        },
    decreases segments.len(),
{
    if segments.len() > 0 {
        let b = segments.drop_last();
        let n = segments.len() - 1;
        lemma_segments(projects, rules, f, b);
        match segment_project(projects, rules, f, b) {
            Some(id) => {
                let (m, k) = choose|m: int, k: int|
                    0 <= m < b.len() && #[trigger] is_first(
                        projects,
                        rules,
                        f,
                        by_part(b[m]),
                        k,
                    ) && projects[k].id@ == id && forall|j: int|
                        0 <= j < m ==> !any_with(projects, rules, f, by_part(#[trigger] b[j]));
                assert(b[m] == segments[m]);
                assert forall|j: int| 0 <= j < m implies !any_with(
                    projects,
                    rules,
                    f,
                    by_part(#[trigger] segments[j]),
                ) by {
                    assert(b[j] == segments[j]);
                }
                assert(is_first(
                    projects,
                    rules,
                    f,
                    by_part(segments[m]),
                    k,
                ));
            },
            None => {
                let e = by_part(segments[n]);
                assert forall|p: ProjectEntry| #[trigger] e(p) == speaks_for(2, p, f, segments[n]) by {
                    lemma_evidence(p, f, segments[n]);
                }
                lemma_first(projects, rules, 2, f, segments[n], e);
                match first_project(projects, rules, 2, f, segments[n]) {
                    Some(id) => {
                        let k = choose|k: int| #[trigger]
                            is_first(projects, rules, f, e, k) && projects[k].id@ == id;
                        assert forall|j: int| 0 <= j < n implies !any_with(
                            projects,
                            rules,
                            f,
                            by_part(#[trigger] segments[j]),
                        ) by {
                            assert(b[j] == segments[j]);
                        }
                        assert(is_first(
                            projects,
                            rules,
                            f,
                            by_part(segments[n]),
                            k,
                        ));
                    },
                    None => {
                        assert forall|m: int| 0 <= m < segments.len() implies !any_with(
                            projects,
                            rules,
                            f,
                            by_part(#[trigger] segments[m]),
                        ) by {
                            if m < n {
                                assert(b[m] == segments[m]);
                                assert(!any_with(
                                    projects,
                                    rules,
                                    f,
                                    by_part(b[m]),
                                ));
                            }
                        }
                    },
                }
            },
        }
    }
}

/// Whether a rule forces a project in the running on a frame that it is about.
pub open spec fn forces(
    projects: Seq<ProjectEntry>,
    rules: Seq<OverrideRule>,
    f: FrameView,
    rule: OverrideRule,
) -> bool {
    rule.action == RuleAction::ForceProject && is_about(rule, f) && exists|k: int|
        0 <= k < projects.len() && in_the_running(#[trigger] projects[k], rules, f)
            && projects[k].id@ == rule.project_id@
}

/// A rule that forces a project decides before all other evidence, with certainty; of several the
/// first.
pub proof fn law_rule_decides_first(
    projects: Seq<ProjectEntry>,
    rules: Seq<OverrideRule>,
    f: FrameView,
)
    ensures
        (exists|i: int| 0 <= i < rules.len() && forces(projects, rules, f, #[trigger] rules[i])) <==> (
        resolved(projects, rules, f) matches Some(r) && r.source_tier == 0),
        resolved(projects, rules, f) matches Some(r) ==> r.source_tier == 0 ==> r.confidence
            == 1_000_000 && exists|i: int|
            0 <= i < rules.len() && forces(projects, rules, f, #[trigger] rules[i])
                && rules[i].project_id@ == r.project_id && forall|j: int|
                0 <= j < i ==> !forces(projects, rules, f, #[trigger] rules[j]),
{
    lemma_forced(projects, rules, f, rules);
}

proof fn lemma_forced(
    projects: Seq<ProjectEntry>,
    rules: Seq<OverrideRule>,
    f: FrameView,
    forcing: Seq<OverrideRule>,
)
    ensures
        match forced_project(projects, rules, f, forcing) {
            Some(id) => exists|i: int|
                0 <= i < forcing.len() && forces(projects, rules, f, #[trigger] forcing[i])
                    && forcing[i].project_id@ == id && forall|j: int|
                    0 <= j < i ==> !forces(projects, rules, f, #[trigger] forcing[j]),
            None => forall|i: int|
                0 <= i < forcing.len() ==> !forces(projects, rules, f, #[trigger] forcing[i]),
        },
    decreases forcing.len(),
{
    if forcing.len() > 0 {
        let b = forcing.drop_last();
        let n = forcing.len() - 1;
        let last = forcing[n];
        lemma_forced(projects, rules, f, b);
        assert(forall|i: int| 0 <= i < n ==> #[trigger] b[i] == forcing[i]);
        assert(eligible_id(projects, rules, f, last.project_id@) == exists|k: int|
            0 <= k < projects.len() && in_the_running(#[trigger] projects[k], rules, f)
                && projects[k].id@ == last.project_id@) by {
            assert forall|k: int| 0 <= k < projects.len() implies eligible(
                #[trigger] projects[k],
                rules,
                f,
            ) == in_the_running(projects[k], rules, f) by {
                lemma_in_the_running(projects[k], rules, f);
            }
            if eligible_id(projects, rules, f, last.project_id@) {
                let k = choose|k: int|
                    0 <= k < projects.len() && eligible(#[trigger] projects[k], rules, f)
                        && projects[k].id@ == last.project_id@;
                assert(in_the_running(projects[k], rules, f));
            }
        }
        match forced_project(projects, rules, f, b) {
            Some(id) => {
                let i = choose|i: int|
                    0 <= i < b.len() && forces(projects, rules, f, #[trigger] b[i])
                        && b[i].project_id@ == id && forall|j: int|
                        0 <= j < i ==> !forces(projects, rules, f, #[trigger] b[j]);
                assert(forcing[i] == b[i]);
                assert forall|j: int| 0 <= j < i implies !forces(
                    projects,
                    rules,
                    f,
                    #[trigger] forcing[j],
                ) by {
                    assert(b[j] == forcing[j]);
                }
            },
            None => {
                assert forall|j: int| 0 <= j < n implies !forces(
                    projects,
                    rules,
                    f,
                    #[trigger] forcing[j],
                ) by {
                    assert(b[j] == forcing[j]);
                }
                assert(is_about(last, f) == rule_matches(last, f.process, f.title));
                assert(forces(projects, rules, f, last) ==> forced_project(
                    projects,
                    rules,
                    f,
                    forcing,
                ) is Some);
            },
        }
    }
}

} // verus!
