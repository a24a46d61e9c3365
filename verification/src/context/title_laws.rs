//! What the titles of windows are taken for: the file that an editor shows, the folders that stand in
//! them, and what the user said.
use vstd::prelude::*;
#[allow(unused_imports)]
use crate::context::continuation::spoken_in;
#[allow(unused_imports)]
use crate::context::session_state::{
    before_bar, extension, file_in_title, is_extension, lemma_before_bar, title_head,
};
#[allow(unused_imports)]
use crate::context::slug::is_alnum;
#[allow(unused_imports)]
use crate::context::titles::{
    drive_at, first_drive, is_letter, keyword_hint, segment_path, segment_paths,
};
#[allow(unused_imports)]
use crate::text::{
    ascii_lower, ascii_lower_char, before_part, byte_len, find_part, has_part, in_class, is_space,
    lemma_byte_len_mono, lemma_find_part, lemma_first_of_is, lines_of, occurs_at, starts_lowered,
    trim_end_by, trim_start_by, trimmed, CharClass,
};

verus! {

/// Whether a text can be the name of a file in a title as it is: no dash and no bar in it, nothing
/// around it and no mark of an unsaved file in front of it.
pub open spec fn plain_head(s: Seq<char>) -> bool {
    &&& 0 < s.len() <= 120
    &&& !is_space(s[0]) && !is_space(s.last()) && !in_class(CharClass::DirtyMark, s[0])
    &&& forall|i: int|
        0 <= i < s.len() ==> #[trigger] s[i] != '-' && s[i] != '—' && s[i] != '–' && s[i] != '|'
}

proof fn lemma_extension(a: Seq<char>, e: Seq<char>)
    requires
        forall|i: int| 0 <= i < e.len() ==> #[trigger] e[i] != '.',
    ensures
        extension(a + seq!['.'] + e) == Some(e),
    decreases e.len(),
{
    let s = a + seq!['.'] + e;
    if e.len() == 0 {
        assert(s.last() == '.');
        assert(e =~= Seq::<char>::empty());
    } else {
        let f = e.drop_last();
        assert(e[e.len() - 1] != '.');
        assert(s.last() == e.last());
        assert(s.drop_last() =~= a + seq!['.'] + f);
        assert forall|i: int| 0 <= i < f.len() implies #[trigger] f[i] != '.' by {
            assert(f[i] == e[i]);
        }
        lemma_extension(a, f);
        assert(f.push(e.last()) =~= e);
    }
}

proof fn lemma_no_extension(s: Seq<char>)
    requires
        forall|i: int| 0 <= i < s.len() ==> #[trigger] s[i] != '.',
    ensures
        extension(s) is None,
    decreases s.len(),
{
    if s.len() > 0 {
        let f = s.drop_last();
        assert(s[s.len() - 1] != '.');
        assert forall|i: int| 0 <= i < f.len() implies #[trigger] f[i] != '.' by {
            assert(f[i] == s[i]);
        }
        lemma_no_extension(f);
    }
}

/// What stands before a spaced dash, a long dash or a bar is the head of a title.
proof fn lemma_head(head: Seq<char>, mark: Seq<char>, rest: Seq<char>)
    requires
        plain_head(head),
        mark == seq![' ', '-', ' '] || mark == seq![' ', '—', ' '] || mark == seq![' ', '|', ' '],
        forall|i: int|
            0 <= i < rest.len() ==> #[trigger] rest[i] != '—' && rest[i] != '–' && rest[i] != '|',
    ensures
        title_head(head + mark + rest) == head,
        title_head(head) == head,
{
    lemma_head_alone(head);
    if mark[1] == '-' {
        lemma_head_before_dash(head, rest);
    } else {
        lemma_head_before_bar(head, mark, rest);
    }
}

proof fn lemma_head_alone(head: Seq<char>)
    requires
        plain_head(head),
    ensures
        title_head(head) == head,
        trimmed(trim_start_by(trimmed(head), CharClass::DirtyMark)) == head,
{
    reveal_strlit(" - ");
    let dash = " - "@;
    let n = head.len() as int;
    assert(trim_start_by(head, CharClass::Space) == head);
    assert(trim_end_by(head, CharClass::Space) == head);
    assert(trim_start_by(head, CharClass::DirtyMark) == head);
    lemma_before_bar(head, n);
    assert(head.take(n) =~= head);
    lemma_find_part(head, dash, 0);
    if let Some(j) = find_part(head, dash, 0) {
        assert(head.subrange(j, j + 3)[1] == head[j + 1]);
    }
}

proof fn lemma_head_before_dash(head: Seq<char>, rest: Seq<char>)
    requires
        plain_head(head),
        forall|i: int|
            0 <= i < rest.len() ==> #[trigger] rest[i] != '—' && rest[i] != '–' && rest[i] != '|',
    ensures
        title_head(head + seq![' ', '-', ' '] + rest) == head,
{
    let s = head + seq![' ', '-', ' '] + rest;
    lemma_head_alone(head);
    lemma_barless(head, rest);
    lemma_first_dash(head, rest);
    assert(title_head(s) == trimmed(trim_start_by(trimmed(head), CharClass::DirtyMark)));
}

/// A title without a bar is not cut at one.
proof fn lemma_barless(head: Seq<char>, rest: Seq<char>)
    requires
        plain_head(head),
        forall|i: int|
            0 <= i < rest.len() ==> #[trigger] rest[i] != '—' && rest[i] != '–' && rest[i] != '|',
    ensures
        before_bar(head + seq![' ', '-', ' '] + rest) == head + seq![' ', '-', ' '] + rest,
{
    let mark = seq![' ', '-', ' '];
    let s = head + mark + rest;
    let n = head.len() as int;
    assert forall|j: int| 0 <= j < s.len() implies !(#[trigger] s[j] == '—' || s[j] == '–' || s[j]
        == '|') by {
        if j < n {
            assert(s[j] == head[j]);
        } else if j < n + 3 {
            assert(s[j] == mark[j - n]);
        } else {
            assert(s[j] == rest[j - n - 3]);
        }
    }
    lemma_before_bar(s, s.len() as int);
    assert(s.take(s.len() as int) =~= s);
}

/// The first spaced dash of a title is the one behind its head.
proof fn lemma_first_dash(head: Seq<char>, rest: Seq<char>)
    requires
        plain_head(head),
    ensures
        before_part(head + seq![' ', '-', ' '] + rest, " - "@) == head,
{
    reveal_strlit(" - ");
    let dash = " - "@;
    let s = head + seq![' ', '-', ' '] + rest;
    let n = head.len() as int;
    lemma_find_part(s, dash, 0);
    assert(s.subrange(n, n + 3) =~= dash);
    assert(occurs_at(s, dash, n));
    let i = find_part(s, dash, 0)->0;
    if i < n {
        assert(s.subrange(i, i + 3)[1] == s[i + 1]);
        if i + 1 < n {
            assert(s[i + 1] == head[i + 1]);
        } else {
            assert(s[i + 1] == ' ');
        }
    }
    assert(s.take(n) =~= head);
}

proof fn lemma_head_before_bar(head: Seq<char>, mark: Seq<char>, rest: Seq<char>)
    requires
        plain_head(head),
        mark == seq![' ', '—', ' '] || mark == seq![' ', '|', ' '],
    ensures
        title_head(head + mark + rest) == head,
{
    reveal_strlit(" - ");
    let dash = " - "@;
    let n = head.len() as int;
    let s = head + mark + rest;
    lemma_head_alone(head);
    assert forall|j: int| 0 <= j < n + 1 implies !(#[trigger] s[j] == '—' || s[j] == '–' || s[j]
        == '|') by {
        if j < n {
            assert(s[j] == head[j]);
        } else {
            assert(s[j] == ' ');
        }
    }
    assert(s[n + 1] == mark[1]);
    lemma_before_bar(s, n + 1);
    let t = s.take(n + 1);
    assert(t =~= head.push(' '));
    lemma_find_part(t, dash, 0);
    if let Some(j) = find_part(t, dash, 0) {
        assert(t.subrange(j, j + 3)[1] == t[j + 1]);
        if j + 1 < n {
            assert(t[j + 1] == head[j + 1]);
        }
    }
    assert(before_part(t, dash) == t);
    assert(t[0] == head[0]);
    assert(trim_start_by(t, CharClass::Space) == t);
    assert(t.last() == ' ' && t.drop_last() =~= head);
    assert(trim_end_by(head, CharClass::Space) == head);
    assert(trim_end_by(t, CharClass::Space) == head);
    assert(trim_start_by(head, CharClass::Space) == head);
    assert(trim_start_by(head, CharClass::DirtyMark) == head);
}

/// The file that an editor shows is what stands before the first spaced dash, long dash or bar of the
/// title, where that ends in a dot and up to eight letters.
pub proof fn law_file_in_title(
    name: Seq<char>,
    ext: Seq<char>,
    mark: Seq<char>,
    rest: Seq<char>,
)
    requires
        plain_head(name + seq!['.'] + ext),
        1 <= ext.len() <= 8,
        forall|i: int| 0 <= i < ext.len() ==> is_letter(#[trigger] ext[i]),
        mark == seq![' ', '-', ' '] || mark == seq![' ', '—', ' '] || mark == seq![' ', '|', ' '],
        forall|i: int|
            0 <= i < rest.len() ==> #[trigger] rest[i] != '—' && rest[i] != '–' && rest[i] != '|',
    ensures
        file_in_title(name + seq!['.'] + ext + mark + rest) == Some(name + seq!['.'] + ext),
        file_in_title(name + seq!['.'] + ext) == Some(name + seq!['.'] + ext),
{
    let head = name + seq!['.'] + ext;
    lemma_head(head, mark, rest);
    assert forall|i: int| 0 <= i < ext.len() implies #[trigger] ext[i] != '.' by {
        assert(is_letter(ext[i]));
    }
    lemma_extension(name, ext);
    assert(is_letter(ext[0]));
    assert forall|i: int| 0 <= i < ext.len() implies is_alnum(#[trigger] ext[i]) by {
        assert(is_letter(ext[i]));
    }
    assert(is_extension(ext));
}

/// A title names no file where there is no dot in its first part, or only digits behind the last one.
pub proof fn law_no_file_in_title(
    head: Seq<char>,
    name: Seq<char>,
    digits: Seq<char>,
    mark: Seq<char>,
    rest: Seq<char>,
)
    requires
        plain_head(head),
        forall|i: int| 0 <= i < head.len() ==> #[trigger] head[i] != '.',
        plain_head(name + seq!['.'] + digits),
        forall|i: int| 0 <= i < digits.len() ==> '0' <= #[trigger] digits[i] && digits[i] <= '9',
        mark == seq![' ', '-', ' '] || mark == seq![' ', '—', ' '] || mark == seq![' ', '|', ' '],
        forall|i: int|
            0 <= i < rest.len() ==> #[trigger] rest[i] != '—' && rest[i] != '–' && rest[i] != '|',
    ensures
        file_in_title(head + mark + rest) is None,
        file_in_title(name + seq!['.'] + digits + mark + rest) is None,
{
    lemma_head(head, mark, rest);
    lemma_no_extension(head);
    let other = name + seq!['.'] + digits;
    lemma_head(other, mark, rest);
    assert forall|i: int| 0 <= i < digits.len() implies #[trigger] digits[i] != '.' by {
        assert('0' <= digits[i]);
    }
    lemma_extension(name, digits);
    if is_extension(digits) {
        let i = choose|i: int| 0 <= i < digits.len() && is_letter(#[trigger] digits[i]);
        assert('0' <= digits[i] && digits[i] <= '9');
    }
}

/// A path with a drive letter that stands in a part of a title is found, whatever stands before it.
pub proof fn law_path_in_title_part(before: Seq<char>, drive: char, slash: char, rest: Seq<char>)
    requires
        is_letter(drive),
        slash == '\\' || slash == '/',
        rest.len() > 0,
        !in_class(CharClass::PathTail, rest.last()),
        forall|i: int| 0 <= i < before.len() ==> #[trigger] before[i] != ':',
        before.len() > 0 ==> before.last() == ' ',
    ensures
        segment_path(before + seq![drive, ':', slash] + rest) == Some(
            seq![drive, ':', slash] + rest,
        ),
{
    let path = seq![drive, ':', slash] + rest;
    let s = before + seq![drive, ':', slash] + rest;
    let n = before.len() as int;
    assert(s =~= before + path);
    assert(s[n] == drive && s[n + 1] == ':' && s[n + 2] == slash);
    if n > 0 {
        assert(s[n - 1] == ' ');
    }
    assert(drive_at(s, n));
    assert forall|j: int| 0 <= j < n implies !drive_at(s, j) by {
        if j + 1 < n {
            assert(s[j + 1] == before[j + 1]);
        } else {
            assert(s[j + 1] == drive);
        }
    }
    lemma_first_drive(s, 0, n);
    assert(s.skip(n) =~= path);
    assert(path.last() == rest.last());
    assert(trim_end_by(path, CharClass::PathTail) == path);
    lemma_byte_len_mono(path, 0, path.len() as int);
    assert(path.take(path.len() as int) =~= path);
    assert(path.take(0) =~= Seq::<char>::empty());
    assert(byte_len(path.take(0)) == 0);
}

proof fn lemma_first_drive(s: Seq<char>, from: int, n: int)
    requires
        0 <= from <= n < s.len(),
        drive_at(s, n),
        forall|j: int| from <= j < n ==> !drive_at(s, j),
    ensures
        first_drive(s, from) == Some(n),
    decreases n - from,
{
    if from < n {
        lemma_first_drive(s, from + 1, n);
    }
}

/// A part without a colon shows no path, and the paths of a title are those of its parts in order.
pub proof fn law_paths_of_title_parts(segments: Seq<Seq<char>>, s: Seq<char>)
    ensures
        (forall|i: int| 0 <= i < s.len() ==> #[trigger] s[i] != ':') ==> segment_path(s) is None,
        segment_path(s) is None ==> segment_paths(segments.push(s)) == segment_paths(segments),
        segment_path(s) matches Some(p) ==> segment_paths(segments.push(s)) == segment_paths(
            segments,
        ).push(p),
{
    assert(segments.push(s).drop_last() =~= segments);
    if forall|i: int| 0 <= i < s.len() ==> #[trigger] s[i] != ':' {
        lemma_no_drive(s, 0);
    }
}

proof fn lemma_no_drive(s: Seq<char>, from: int)
    requires
        0 <= from,
        forall|i: int| 0 <= i < s.len() ==> #[trigger] s[i] != ':',
    ensures
        first_drive(s, from) is None,
    decreases s.len() - from,
{
    if from < s.len() {
        if drive_at(s, from) {
            assert(s[from + 1] != ':');
        }
        lemma_no_drive(s, from + 1);
    }
}

/// The two fixed keywords name their project in any title that holds them, in any case.
pub proof fn law_fixed_keywords(title: Seq<char>)
    ensures
        has_part(ascii_lower(title), "continuum"@) ==> keyword_hint(title) == Some("continuum"@),
        !has_part(ascii_lower(title), "continuum"@) && has_part(ascii_lower(title), "simcharts"@)
            ==> keyword_hint(title) == Some("simcharts"@),
        !has_part(ascii_lower(title), "continuum"@) && !has_part(ascii_lower(title), "simcharts"@)
            ==> keyword_hint(title) is None,
{
}

/// What the user said in a voice command is what follows the colon behind its label, in any case and
/// whatever the label adds; of any other wake reason it is the first line.
pub proof fn law_what_the_user_said(label: Seq<char>, text: Seq<char>)
    requires
        text.len() > 0,
        !is_space(text[0]) && !is_space(text.last()),
        forall|i: int| 0 <= i < text.len() ==> #[trigger] text[i] != '\n',
        forall|i: int| 0 <= i < label.len() ==> #[trigger] label[i] != '\n' && label[i] != ':',
        starts_lowered(label, "voice command"@),
    ensures
        spoken_in(label + seq![':', ' '] + text) == text,
        !starts_lowered(text, "voice command"@) ==> spoken_in(text) == text,
{
    reveal_strlit("voice command");
    let s = label + seq![':', ' '] + text;
    let n = label.len() as int;
    assert(ascii_lower(label).take(13)[0] == ascii_lower(label)[0]);
    assert(ascii_lower(label)[0] == ascii_lower_char(label[0]));
    assert(ascii_lower_char(label[0]) == 'v');
    assert(!is_space(label[0]));
    assert(s[0] == label[0] && s.last() == text.last());
    lemma_one_line(s);
    lemma_one_line(text);
    assert(trim_start_by(s, CharClass::Space) == s);
    assert(trim_end_by(s, CharClass::Space) == s);
    assert(trim_start_by(text, CharClass::Space) == text);
    assert(trim_end_by(text, CharClass::Space) == text);
    assert forall|j: int| 0 <= j < n implies s[j] != ':' by {
        assert(s[j] == label[j]);
    }
    lemma_first_of_is(s, ':', n);
    assert(ascii_lower(s).take(13) =~= ascii_lower(label).take(13));
    let t = s.skip(n + 1);
    assert(t =~= seq![' '] + text);
    assert(t[0] == ' ' && t.drop_first() =~= text);
    assert(trim_start_by(t, CharClass::Space) == text);
}

proof fn lemma_one_line(s: Seq<char>)
    requires
        s.len() > 0,
        forall|i: int| 0 <= i < s.len() ==> #[trigger] s[i] != '\n',
    ensures
        lines_of(s) == seq![s],
{
    lemma_first_of_is(s, '\n', s.len() as int);
}

} // verus!
