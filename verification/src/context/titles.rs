//! What window titles and paths say: editor segments, drive-letter paths, names of folders.
use vstd::prelude::*;
use crate::text::{
    byte_length, chars_of, contains, lower, replace, split, string_of, trim, trim_end_class,
    trim_start_class, CharClass,
};
#[allow(unused_imports)]
use crate::text::{
    ascii_lower, byte_len, has_part, in_class, opt_str_view, opt_view, replaced, split_by,
    trim_end_by, trim_start_by, trimmed, views,
};

verus! {

/// A text with forward slashes for its backslashes.
pub open spec fn slashed(s: Seq<char>) -> Seq<char> {
    s.map_values(
        |c: char|
            if c == '\\' {
                '/'
            } else {
                c
            },
    )
}

/// A path without the slashes that end it. A single slash stays.
pub open spec fn unslashed(s: Seq<char>) -> Seq<char>
    decreases s.len(),
{
    if s.len() > 1 && s.last() == '/' {
        unslashed(s.drop_last())
    } else {
        s
    }
}

/// A path in the form in which paths are compared.
pub open spec fn norm_path(s: Seq<char>) -> Seq<char> {
    unslashed(ascii_lower(slashed(trimmed(s))))
}

/// Brings a path into the form in which paths are compared: trimmed, with forward slashes, none
/// at its end, and in lower case.
pub fn normalize_path_str(s: &str) -> (r: String)
    ensures
        r@ == norm_path(s@),
{
    let t = chars_of(trim(s));
    let mut u: String = String::new();
    let mut i: usize = 0;
    while i < t.len()
        invariant
            i <= t.len(),
            u@ == slashed(t@).take(i as int),
        decreases t.len() - i,
    {
        if t[i] == '\\' {
            u.push('/');
        } else {
            u.push(t[i]);
        }
        i = i + 1;
    }
    proof {
        assert(slashed(t@).take(t@.len() as int) == slashed(t@));
    }
    let low = lower(u.as_str());
    let cs = chars_of(low.as_str());
    let mut n: usize = cs.len();
    proof {
        assert(cs@.take(cs@.len() as int) == cs@);
    }
    while n > 1 && cs[n - 1] == '/'
        invariant
            n <= cs.len(),
            unslashed(cs@) == unslashed(cs@.take(n as int)),
        decreases n,
    {
        proof {
            assert(cs@.take(n as int).drop_last() == cs@.take(n - 1));
        }
        n = n - 1;
    }
    proof {
        assert(cs@.take(n as int) == cs@.subrange(0, n as int));
    }
    string_of(cs.as_slice(), 0, n)
}

/// The part of a text after its last path separator.
pub open spec fn after_last_sep(s: Seq<char>) -> Seq<char>
    decreases s.len(),
{
    if s.len() == 0 || in_class(CharClass::PathSep, s.last()) {
        Seq::empty()
    } else {
        after_last_sep(s.drop_last()).push(s.last())
    }
}

/// The name of the last part of a path, where it has one.
pub open spec fn base_name(path: Seq<char>) -> Option<Seq<char>> {
    let s = after_last_sep(trim_end_by(path, CharClass::PathSep));
    if s.len() == 0 {
        None
    } else {
        Some(s)
    }
}

/// What comes after the last path separator is the end of the text from there on.
pub proof fn lemma_after_last_sep(s: Seq<char>, i: int)
    requires
        0 <= i <= s.len(),
        i > 0 ==> in_class(CharClass::PathSep, s[i - 1]),
        forall|j: int| i <= j < s.len() ==> !in_class(CharClass::PathSep, #[trigger] s[j]),
    ensures
        after_last_sep(s) == s.skip(i),
    decreases s.len(),
{
    if i < s.len() {
        let t = s.drop_last();
        assert(!in_class(CharClass::PathSep, s[s.len() - 1]));
        assert forall|j: int| i <= j < t.len() implies !in_class(
            CharClass::PathSep,
            #[trigger] t[j],
        ) by {
            assert(t[j] == s[j]);
        }
        lemma_after_last_sep(t, i);
        assert(t.skip(i).push(s.last()) == s.skip(i));
    } else {
        assert(s.skip(i) == Seq::<char>::empty());
    }
}

/// The name of the last part of a path, where it has one.
pub fn path_basename<'a>(path: &'a str) -> (r: Option<&'a str>)
    ensures
        opt_str_view(r) == base_name(path@),
{
    let t = trim_end_class(path, CharClass::PathSep);
    let cs = chars_of(t);
    let mut i: usize = cs.len();
    while i > 0 && !(cs[i - 1] == '/' || cs[i - 1] == '\\')
        invariant
            i <= cs.len(),
            forall|j: int| i <= j < cs@.len() ==> !in_class(CharClass::PathSep, #[trigger] cs@[j]),
        decreases i,
    {
        i = i - 1;
    }
    proof {
        lemma_after_last_sep(cs@, i as int);
        assert(cs@.skip(i as int) == cs@.subrange(i as int, cs@.len() as int));
    }
    if i == cs.len() {
        None
    } else {
        Some(t.substring_char(i, cs.len()))
    }
}

/// A part of a title without white space and the marks of an unsaved file around it.
pub open spec fn segment_core(s: Seq<char>) -> Seq<char> {
    trimmed(trim_start_by(trimmed(s), CharClass::Unsaved))
}

/// The parts of a title that say something.
pub open spec fn segment_cores(parts: Seq<Seq<char>>) -> Seq<Seq<char>>
    decreases parts.len(),
{
    if parts.len() == 0 {
        seq![]
    } else {
        let before = segment_cores(parts.drop_last());
        let core = segment_core(parts.last());
        if core.len() > 0 {
            before.push(core)
        } else {
            before
        }
    }
}

/// The segments of a window title: what stands between spaced dashes, be they long or short.
pub open spec fn title_segments(title: Seq<char>) -> Seq<Seq<char>> {
    segment_cores(
        split_by(replaced(replaced(title, " — "@, " - "@), " – "@, " - "@), " - "@),
    )
}

/// Splits a window title into its segments. Only a spaced dash separates, so a hyphenated name
/// stays one segment.
pub fn editor_title_segments(title: &str) -> (r: Vec<String>)
    ensures
        views(r@) == title_segments(title@),
{
    proof {
        reveal_strlit(" — ");
        reveal_strlit(" – ");
        reveal_strlit(" - ");
    }
    let a = replace(title, " — ", " - ");
    let b = replace(a.as_str(), " – ", " - ");
    let parts = split(b.as_str(), " - ");
    let mut out: Vec<String> = Vec::new();
    let mut i: usize = 0;
    while i < parts.len()
        invariant
            i <= parts.len(),
            views(out@) == segment_cores(views(parts@).take(i as int)),
        decreases parts.len() - i,
    {
        proof {
            let now = views(parts@).take(i + 1);
            assert(now.drop_last() == views(parts@).take(i as int));
            assert(now.last() == parts@[i as int]@);
        }
        let core = trim(trim_start_class(trim(parts[i].as_str()), CharClass::Unsaved));
        if !core.is_empty() {
            let ghost before = out@;
            out.push(core.to_owned());
            proof {
                assert(views(out@) =~= views(before).push(core@));
            }
        }
        i = i + 1;
    }
    proof {
        assert(views(parts@).take(parts@.len() as int) == views(parts@));
    }
    out
}

/// The ASCII letters.
pub open spec fn is_letter(c: char) -> bool {
    ('a' <= c && c <= 'z') || ('A' <= c && c <= 'Z')
}

/// Whether a path with a drive letter begins at the position `i`.
pub open spec fn drive_at(s: Seq<char>, i: int) -> bool {
    &&& 0 <= i
    &&& i + 2 < s.len()
    &&& is_letter(s[i])
    &&& s[i + 1] == ':'
    &&& s[i + 2] == '\\' || s[i + 2] == '/'
    &&& i == 0 || !(is_letter(s[i - 1]) || ('0' <= s[i - 1] && s[i - 1] <= '9'))
}

/// The first position from `from` on at which a path with a drive letter begins.
pub open spec fn first_drive(s: Seq<char>, from: int) -> Option<int>
    decreases s.len() - from,
{
    if from >= s.len() {
        None
    } else if drive_at(s, from) {
        Some(from)
    } else {
        first_drive(s, from + 1)
    }
}

/// The path that a segment of a title shows: from the first drive letter to its end, without the
/// punctuation that closes it, and longer than the drive alone.
pub open spec fn segment_path(s: Seq<char>) -> Option<Seq<char>> {
    match first_drive(s, 0) {
        Some(i) => {
            let raw = trim_end_by(s.skip(i), CharClass::PathTail);
            if byte_len(raw) > 3 {
                Some(raw)
            } else {
                None
            }
        },
        None => None,
    }
}

/// The paths that the segments of a title show.
pub open spec fn segment_paths(segments: Seq<Seq<char>>) -> Seq<Seq<char>>
    decreases segments.len(),
{
    if segments.len() == 0 {
        seq![]
    } else {
        match segment_path(segments.last()) {
            Some(p) => segment_paths(segments.drop_last()).push(p),
            None => segment_paths(segments.drop_last()),
        }
    }
}

/// The path that a segment of a title shows.
fn path_in_segment(s: &str) -> (r: Option<String>)
    ensures
        opt_view(r) == segment_path(s@),
{
    let cs = chars_of(s);
    let n: usize = cs.len();
    let mut i: usize = 0;
    while i < n
        invariant
            i <= n,
            n == cs.len(),
            cs@ == s@,
            first_drive(s@, 0) == first_drive(s@, i as int),
        decreases n - i,
    {
        if n - i > 2 && (('a' <= cs[i] && cs[i] <= 'z') || ('A' <= cs[i] && cs[i] <= 'Z')) && cs[i
            + 1] == ':' && (cs[i + 2] == '\\' || cs[i + 2] == '/') && (i == 0 || !((('a' <= cs[i - 1]
            && cs[i - 1] <= 'z') || ('A' <= cs[i - 1] && cs[i - 1] <= 'Z')) || ('0' <= cs[i - 1]
            && cs[i - 1] <= '9'))) {
            proof {
                assert(drive_at(s@, i as int));
                assert(s@.skip(i as int) == s@.subrange(i as int, n as int));
            }
            let rest = string_of(cs.as_slice(), i, n);
            let raw = trim_end_class(rest.as_str(), CharClass::PathTail);
            if byte_length(raw) > 3 {
                return Some(raw.to_owned());
            } else {
                return None;
            }
        }
        i = i + 1;
    }
    None
}

/// The absolute paths that a window title shows, one to a segment.
pub fn extract_title_paths(title: &str) -> (r: Vec<String>)
    ensures
        views(r@) == segment_paths(title_segments(title@)),
{
    let segments = editor_title_segments(title);
    let mut out: Vec<String> = Vec::new();
    let mut i: usize = 0;
    while i < segments.len()
        invariant
            i <= segments.len(),
            views(out@) == segment_paths(views(segments@).take(i as int)),
        decreases segments.len() - i,
    {
        proof {
            let now = views(segments@).take(i + 1);
            assert(now.drop_last() == views(segments@).take(i as int));
            assert(now.last() == segments@[i as int]@);
        }
        if let Some(p) = path_in_segment(segments[i].as_str()) {
            let ghost before = out@;
            let ghost text = p@;
            out.push(p);
            proof {
                assert(views(out@) =~= views(before).push(text));
            }
        }
        i = i + 1;
    }
    proof {
        assert(views(segments@).take(segments@.len() as int) == views(segments@));
    }
    out
}

/// The project that a title names by one of the two fixed keywords.
pub open spec fn keyword_hint(title: Seq<char>) -> Option<Seq<char>> {
    if has_part(ascii_lower(title), "continuum"@) {
        Some("continuum"@)
    } else if has_part(ascii_lower(title), "simcharts"@) {
        Some("simcharts"@)
    } else {
        None
    }
}

/// The project that a title names by one of the two fixed keywords, for callers that have nothing
/// but the title.
pub fn legacy_keyword_hint(window_title: &str) -> (r: Option<String>)
    ensures
        opt_view(r) == keyword_hint(window_title@),
{
    let title = lower(window_title);
    if contains(title.as_str(), "continuum") {
        Some("continuum".to_owned())
    } else if contains(title.as_str(), "simcharts") {
        Some("simcharts".to_owned())
    } else {
        None
    }
}

} // verus!
