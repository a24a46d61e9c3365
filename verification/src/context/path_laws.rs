//! What holds of paths and window titles in the form in which they are compared.
use vstd::prelude::*;
#[allow(unused_imports)]
use crate::context::titles::{
    base_name, lemma_after_last_sep, norm_path, segment_core, segment_cores, slashed,
    title_segments, unslashed,
};
#[allow(unused_imports)]
use crate::text::{
    ascii_lower, find_part, has_part, in_class, is_space, lemma_find_part, occurs_at, replaced,
    split_by, trim_end_by, trim_start_by, trimmed, CharClass,
};
#[allow(unused_imports)]
use crate::text_laws::law_replacing;

verus! {

/// A character of a path as paths are compared: in lower case, and a slash for a backslash.
pub open spec fn as_compared(c: char, d: char) -> bool {
    if c == '\\' {
        d == '/'
    } else if 0x41 <= c as u32 <= 0x5a {
        d as u32 == c as u32 + 32
    } else {
        d == c
    }
}

/// The form in which paths are compared: the path without the white space around it, in lower case,
/// with slashes for backslashes, and without the slashes that end it, but for one that is alone.
pub proof fn law_path_form(s: Seq<char>)
    ensures
        ({
            let t = trimmed(s);
            let n = norm_path(s);
            &&& n.len() <= t.len()
            &&& forall|i: int| 0 <= i < n.len() ==> as_compared(t[i], #[trigger] n[i])
            &&& forall|i: int| n.len() <= i < t.len() ==> (#[trigger] t[i]) == '/' || t[i] == '\\'
            &&& n.len() == 0 <==> t.len() == 0
            &&& n.len() > 1 ==> n.last() != '/'
        }),
{
    let u = ascii_lower(slashed(trimmed(s)));
    lemma_unslashed(u);
    assert forall|i: int| norm_path(s).len() <= i < trimmed(s).len() implies (
    #[trigger] trimmed(s)[i]) == '/' || trimmed(s)[i] == '\\' by {
        assert(u[i] == '/');
    }
}

proof fn lemma_unslashed(s: Seq<char>)
    ensures
        unslashed(s).len() <= s.len(),
        unslashed(s) == s.take(unslashed(s).len() as int),
        forall|i: int| unslashed(s).len() <= i < s.len() ==> #[trigger] s[i] == '/',
        unslashed(s).len() == 0 <==> s.len() == 0,
        unslashed(s).len() > 1 ==> unslashed(s).last() != '/',
    decreases s.len(),
{
    if s.len() > 1 && s.last() == '/' {
        let f = s.drop_last();
        lemma_unslashed(f);
        assert(f.take(unslashed(f).len() as int) =~= s.take(unslashed(f).len() as int));
        assert forall|i: int| unslashed(s).len() <= i < s.len() implies #[trigger] s[i] == '/' by {
            if i < f.len() {
                assert(f[i] == s[i]);
            }
        }
    } else {
        assert(s.take(s.len() as int) =~= s);
    }
}

/// The name of a path is what follows its last slash or backslash.
pub proof fn law_base_name(folder: Seq<char>, sep: char, name: Seq<char>)
    requires
        sep == '/' || sep == '\\',
        name.len() > 0,
        forall|i: int| 0 <= i < name.len() ==> (#[trigger] name[i]) != '/' && name[i] != '\\',
    ensures
        base_name(folder + seq![sep] + name) == Some(name),
        base_name(name) == Some(name),
        base_name(folder + seq![sep] + name + seq![sep]) == Some(name),
{
    let s = folder + seq![sep] + name;
    let k = CharClass::PathSep;
    assert(!in_class(k, name[name.len() - 1]));
    assert(s.last() == name[name.len() - 1]);
    assert(name.last() == name[name.len() - 1]);
    assert forall|j: int| folder.len() + 1 <= j < s.len() implies !in_class(k, #[trigger] s[j]) by {
        assert(s[j] == name[j - folder.len() - 1]);
    }
    lemma_after_last_sep(s, (folder.len() + 1) as int);
    assert(s.skip((folder.len() + 1) as int) =~= name);
    lemma_after_last_sep(name, 0);
    assert(name.skip(0) =~= name);
    let t = s + seq![sep];
    assert(t.last() == sep && t.drop_last() =~= s);
    assert(trim_end_by(t, k) == trim_end_by(s, k));
}

/// Whether a text has no dash in it, long or short.
pub open spec fn dashless(s: Seq<char>) -> bool {
    forall|i: int| 0 <= i < s.len() ==> (#[trigger] s[i]) != '-' && s[i] != '—' && s[i] != '–'
}

/// Whether a part of a title says something and stands as it is: nothing around it, and no mark of an
/// unsaved file in front of it.
pub open spec fn plain_part(s: Seq<char>) -> bool {
    s.len() > 0 && !is_space(s[0]) && !is_space(s.last()) && !in_class(CharClass::Unsaved, s[0])
}

proof fn lemma_dash_at(a: Seq<char>, mid: Seq<char>, b: Seq<char>, dash: char, pat: Seq<char>, i: int)
    requires
        dashless(a),
        dashless(b),
        mid == seq![' ', dash, ' '],
        pat.len() == 3,
        pat[1] == '-' || pat[1] == '—' || pat[1] == '–',
        occurs_at(a + mid + b, pat, i),
    ensures
        i == a.len(),
        pat[1] == dash,
{
    let s = a + mid + b;
    assert(s.subrange(i, i + 3)[1] == s[i + 1]);
    if i + 1 < a.len() {
        assert(s[i + 1] == a[i + 1]);
    } else if i + 1 >= a.len() + 3 {
        assert(s[i + 1] == b[i + 1 - a.len() - 3]);
    } else {
        assert(s[i + 1] == mid[i + 1 - a.len()]);
    }
}

proof fn lemma_core(s: Seq<char>)
    requires
        plain_part(s),
    ensures
        segment_core(s) == s,
{
    assert(trim_start_by(s, CharClass::Space) == s);
    assert(trim_end_by(s, CharClass::Space) == s);
    assert(trim_start_by(s, CharClass::Unsaved) == s);
}

/// A spaced dash parts a title, be it long or short; a title without one is one part.
pub proof fn law_dashes_part_titles(a: Seq<char>, dash: char, b: Seq<char>)
    requires
        dashless(a),
        dashless(b),
        plain_part(a),
        plain_part(b),
        dash == '-' || dash == '—' || dash == '–',
    ensures
        title_segments(a + seq![' ', dash, ' '] + b) == seq![a, b],
        title_segments(a) == seq![a],
{
    reveal_strlit(" — ");
    reveal_strlit(" – ");
    reveal_strlit(" - ");
    let long = " — "@;
    let mid = " – "@;
    let short = " - "@;
    lemma_core(a);
    lemma_core(b);
    lemma_cores(a, b);
    lemma_one_part(a, long);
    lemma_one_part(a, mid);
    lemma_one_part(a, short);
    lemma_one_part(b, long);
    lemma_one_part(b, mid);
    lemma_one_part(b, short);
    law_replacing(a, long, b, short);
    law_replacing(a, mid, b, short);
    lemma_find_part(a, short, 0);
    assert(split_by(a, short) =~= seq![a]);
    let m = seq![' ', dash, ' '];
    let s = a + m + b;
    let r1 = replaced(s, long, short);
    let one = a + short + b;
    assert(short =~= seq![' ', '-', ' ']);
    assert(long =~= seq![' ', '—', ' ']);
    assert(mid =~= seq![' ', '–', ' ']);
    law_replacing(b, long, b, short);
    law_replacing(b, mid, b, short);
    law_replacing(s, long, b, short);
    law_replacing(s, mid, b, short);
    law_replacing(one, mid, b, short);
    if dash == '—' {
        assert(s =~= a + long + b);
        assert forall|i: int| 0 <= i < a.len() implies !#[trigger] occurs_at(a + long + b, long, i) by {
            if occurs_at(a + long + b, long, i) {
                lemma_dash_at(a, m, b, dash, long, i);
            }
        }
        assert(r1 == one);
    } else {
        assert(!has_part(s, long)) by {
            if has_part(s, long) {
                let i = choose|i: int| occurs_at(s, long, i);
                lemma_dash_at(a, m, b, dash, long, i);
            }
        }
        assert(r1 == s);
    }
    assert(!has_part(one, mid)) by {
        if has_part(one, mid) {
            let i = choose|i: int| occurs_at(one, mid, i);
            lemma_dash_at(a, short, b, '-', mid, i);
        }
    }
    if dash == '–' {
        assert(s =~= a + mid + b);
        assert forall|i: int| 0 <= i < a.len() implies !#[trigger] occurs_at(a + mid + b, mid, i) by {
            if occurs_at(a + mid + b, mid, i) {
                lemma_dash_at(a, m, b, dash, mid, i);
            }
        }
        assert(replaced(r1, mid, short) == one);
    } else {
        assert(r1 =~= one);
        assert(replaced(r1, mid, short) == one);
    }
    lemma_find_part(one, short, 0);
    assert(one.subrange(a.len() as int, (a.len() + 3) as int) =~= short);
    assert(occurs_at(one, short, a.len() as int));
    let i = find_part(one, short, 0)->0;
    lemma_dash_at(a, short, b, '-', short, i);
    assert(one.take(i) =~= a);
    assert(one.skip(i + 3) =~= b);
    lemma_find_part(b, short, 0);
    assert(split_by(b, short) =~= seq![b]);
    assert(split_by(one, short) =~= seq![a, b]);
}

proof fn lemma_one_part(a: Seq<char>, pat: Seq<char>)
    requires
        dashless(a),
        pat.len() == 3,
        pat[1] == '-' || pat[1] == '—' || pat[1] == '–',
    ensures
        !has_part(a, pat),
{
    if has_part(a, pat) {
        let i = choose|i: int| occurs_at(a, pat, i);
        assert(a.subrange(i, i + 3)[1] == a[i + 1]);
    }
}

proof fn lemma_cores(a: Seq<char>, b: Seq<char>)
    requires
        segment_core(a) == a,
        segment_core(b) == b,
        a.len() > 0,
        b.len() > 0,
    ensures
        segment_cores(seq![a, b]) == seq![a, b],
        segment_cores(seq![a]) == seq![a],
{
    assert(seq![a, b].drop_last() =~= seq![a]);
    assert(seq![a].drop_last() =~= Seq::<Seq<char>>::empty());
    assert(segment_cores(Seq::<Seq<char>>::empty()) =~= Seq::<Seq<char>>::empty());
    assert(segment_cores(seq![a]) =~= seq![a]);
    assert(segment_cores(seq![a, b]) =~= seq![a, b]);
}

/// The mark of an unsaved file in front of a part of a title is no part of it, nor is the white space
/// around it.
pub proof fn law_marks_are_taken_off(a: Seq<char>)
    requires
        dashless(a),
        plain_part(a),
    ensures
        title_segments(seq!['●', ' '] + a) == seq![a],
        title_segments(seq!['*'] + a) == seq![a],
{
    lemma_marked(seq!['●', ' '], a);
    lemma_marked(seq!['*'], a);
}

proof fn lemma_marked(mark: Seq<char>, a: Seq<char>)
    requires
        dashless(a),
        plain_part(a),
        mark == seq!['●', ' '] || mark == seq!['*'],
    ensures
        title_segments(mark + a) == seq![a],
{
    reveal_strlit(" — ");
    reveal_strlit(" – ");
    reveal_strlit(" - ");
    let s = mark + a;
    assert(dashless(s)) by {
        assert forall|i: int| 0 <= i < s.len() implies (#[trigger] s[i]) != '-' && s[i] != '—'
            && s[i] != '–' by {
            if i >= mark.len() {
                assert(s[i] == a[i - mark.len()]);
            } else {
                assert(s[i] == mark[i]);
            }
        }
    }
    lemma_one_part(s, " — "@);
    lemma_one_part(s, " – "@);
    lemma_one_part(s, " - "@);
    law_replacing(s, " — "@, s, " - "@);
    law_replacing(s, " – "@, s, " - "@);
    lemma_find_part(s, " - "@, 0);
    assert(split_by(s, " - "@) =~= seq![s]);
    assert(s[0] == mark[0] && s.last() == a.last());
    assert(trim_start_by(s, CharClass::Space) == s);
    assert(trim_end_by(s, CharClass::Space) == s);
    let t = s.drop_first();
    if mark.len() == 1 {
        assert(t =~= a);
        assert(trim_start_by(a, CharClass::Unsaved) == a);
        assert(trim_start_by(a, CharClass::Space) == a);
        assert(trim_end_by(a, CharClass::Space) == a);
    } else {
        assert(t[0] == ' ' && t.drop_first() =~= a && t.last() == a.last());
        assert(trim_start_by(t, CharClass::Unsaved) == t);
        assert(trim_start_by(a, CharClass::Space) == a);
        assert(trim_start_by(t, CharClass::Space) == a);
        assert(trim_end_by(a, CharClass::Space) == a);
    }
    assert(segment_core(s) == a);
    assert(seq![s].drop_last() =~= Seq::<Seq<char>>::empty());
    assert(segment_cores(Seq::<Seq<char>>::empty()) =~= Seq::<Seq<char>>::empty());
    assert(segment_cores(seq![s]) =~= seq![a]);
}

} // verus!
