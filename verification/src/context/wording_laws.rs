//! How texts are held against each other: what holds of the words of the user, of titles and of
//! candidates, however they are written.
use vstd::prelude::*;
use crate::text::CharClass;
#[allow(unused_imports)]
use crate::context::continuation::{
    asks_to_continue, bare_utterance, key_of, says, utterance_of, CandidateView,
};
#[allow(unused_imports)]
use crate::curator::extract::{plain_of, title_key};
#[allow(unused_imports)]
use crate::outside::{is_letter_or_number, lowered};
#[allow(unused_imports)]
use crate::text::{
    ascii_lower, ascii_lower_char, in_class, is_ascii_text, is_space, joined, lemma_trim_end_add,
    lemma_trim_end_ends, lemma_trim_start_add, lemma_trim_start_starts, trim_by, trim_end_by,
    trim_start_by, trimmed, words_of,
};

verus! {

/// Whether every character of a text belongs to a class.
pub open spec fn all_in(s: Seq<char>, k: CharClass) -> bool {
    forall|i: int| 0 <= i < s.len() ==> in_class(k, #[trigger] s[i])
}

/// Nothing stays of a text of the class.
proof fn lemma_trim_all(s: Seq<char>, k: CharClass)
    requires
        all_in(s, k),
    ensures
        trim_start_by(s, k) == Seq::<char>::empty(),
        trim_end_by(s, k) == Seq::<char>::empty(),
        trim_by(s, k) == Seq::<char>::empty(),
{
    lemma_trim_start_starts(s, k);
    lemma_trim_end_ends(s, k);
    let a = trim_start_by(s, k);
    if a.len() > 0 {
        assert(a[0] == s[s.len() - a.len()]);
    }
    let b = trim_end_by(s, k);
    if b.len() > 0 {
        assert(b.last() == s[b.len() - 1]);
    }
    assert(a == Seq::<char>::empty());
    assert(b == Seq::<char>::empty());
}

/// What belongs to the class makes no difference around a text.
proof fn lemma_trim_around(before: Seq<char>, s: Seq<char>, after: Seq<char>, k: CharClass)
    requires
        all_in(before, k),
        all_in(after, k),
    ensures
        trim_by(before + s + after, k) == trim_by(s, k),
{
    lemma_trim_all(before, k);
    lemma_trim_all(after, k);
    assert(before + s + after == before + (s + after));
    lemma_trim_start_add(before, s + after, k);
    lemma_trim_start_add(s, after, k);
    lemma_trim_end_add(trim_start_by(s, k), after, k);
}

/// An utterance loses the white space around it with the quotes and the punctuation.
proof fn lemma_bare_utterance(s: Seq<char>)
    ensures
        bare_utterance(s) == trim_by(s, CharClass::Utterance),
{
    let k = CharClass::Space;
    let u = CharClass::Utterance;
    lemma_trim_start_starts(s, k);
    let t = trim_start_by(s, k);
    lemma_trim_end_ends(t, k);
    let m = trim_end_by(t, k);
    let before = s.take(s.len() - t.len());
    let after = t.skip(m.len() as int);
    assert(before + m + after == s);
    assert(all_in(before, u)) by {
        lemma_start_is_class(s, k);
        assert forall|i: int| 0 <= i < before.len() implies in_class(u, #[trigger] before[i]) by {
            assert(before[i] == s[i]);
        }
    }
    assert(all_in(after, u)) by {
        assert forall|i: int| 0 <= i < after.len() implies in_class(u, #[trigger] after[i]) by {
            assert(after[i] == t[m.len() + i]);
        }
    }
    lemma_trim_around(before, m, after, u);
}

/// What is cut off at the start belongs to the class.
proof fn lemma_start_is_class(s: Seq<char>, k: CharClass)
    ensures
        forall|i: int| 0 <= i < s.len() - trim_start_by(s, k).len() ==> in_class(k, #[trigger] s[i]),
    decreases s.len(),
{
    if s.len() > 0 && in_class(k, s[0]) {
        let f = s.drop_first();
        lemma_start_is_class(f, k);
        assert forall|i: int| 0 <= i < s.len() - trim_start_by(s, k).len() implies in_class(
            k,
            #[trigger] s[i],
        ) by {
            if i > 0 {
                assert(f[i - 1] == s[i]);
            }
        }
    }
}

/// Lower case and trimming do not meet: no letter belongs to a class.
proof fn lemma_lower_trim(s: Seq<char>, k: CharClass)
    ensures
        ascii_lower(trim_start_by(s, k)) == trim_start_by(ascii_lower(s), k),
        ascii_lower(trim_end_by(s, k)) == trim_end_by(ascii_lower(s), k),
    decreases s.len(),
{
    if s.len() > 0 {
        let f = s.drop_first();
        let l = s.drop_last();
        lemma_lower_trim(f, k);
        lemma_lower_trim(l, k);
        let t = ascii_lower(s);
        assert(t.drop_first() == ascii_lower(f));
        assert(t.drop_last() == ascii_lower(l));
        assert(t[0] == ascii_lower_char(s[0]));
        assert(t.last() == ascii_lower_char(s.last()));
        lemma_class_lower(s[0], k);
        lemma_class_lower(s.last(), k);
    } else {
        assert(ascii_lower(s) == s);
    }
}

proof fn lemma_class_lower(c: char, k: CharClass)
    ensures
        in_class(k, ascii_lower_char(c)) == in_class(k, c),
        is_space(ascii_lower_char(c)) == is_space(c),
        is_letter_or_number(ascii_lower_char(c)) == is_letter_or_number(c),
        (ascii_lower_char(c) as u32 <= 0x7f) == (c as u32 <= 0x7f),
        ascii_lower_char(ascii_lower_char(c)) == ascii_lower_char(c),
{
    let d = ascii_lower_char(c);
    if 'A' as u32 <= c as u32 <= 'Z' as u32 {
        assert(d as u32 == c as u32 + 32);
    }
}

/// A text in another case is ASCII where the text is.
proof fn lemma_ascii_case(a: Seq<char>, b: Seq<char>)
    requires
        is_ascii_text(a),
        ascii_lower(a) == ascii_lower(b),
    ensures
        is_ascii_text(b),
{
    assert(ascii_lower(a).len() == a.len() && ascii_lower(b).len() == b.len());
    assert forall|i: int| 0 <= i < b.len() implies (#[trigger] b[i]) as u32 <= 0x7f by {
        assert(ascii_lower(a)[i] == ascii_lower_char(a[i]));
        assert(ascii_lower(b)[i] == ascii_lower_char(b[i]));
        lemma_class_lower(a[i], CharClass::Space);
        lemma_class_lower(b[i], CharClass::Space);
    }
}

/// What is left of an ASCII text is ASCII.
proof fn lemma_ascii_trim(s: Seq<char>, k: CharClass)
    requires
        is_ascii_text(s),
    ensures
        is_ascii_text(trim_by(s, k)),
{
    lemma_trim_start_starts(s, k);
    let t = trim_start_by(s, k);
    lemma_trim_end_ends(t, k);
    let u = trim_end_by(t, k);
    assert forall|i: int| 0 <= i < u.len() implies (#[trigger] u[i]) as u32 <= 0x7f by {
        assert(u[i] == t[i]);
        assert(t[i] == s[s.len() - t.len() + i]);
    }
}

/// What is left of a text and of the same text in another case differ in case alone.
proof fn lemma_lowered_trim(a: Seq<char>, b: Seq<char>, k: CharClass)
    requires
        is_ascii_text(a),
        ascii_lower(a) == ascii_lower(b),
    ensures
        lowered(trim_by(a, k)) == lowered(trim_by(b, k)),
{
    lemma_ascii_case(a, b);
    lemma_ascii_trim(a, k);
    lemma_ascii_trim(b, k);
    lemma_lower_trim(a, k);
    lemma_lower_trim(b, k);
    lemma_lower_trim(trim_start_by(a, k), k);
    lemma_lower_trim(trim_start_by(b, k), k);
}

/// Whether an ASCII utterance asks to continue does not depend on its case, nor on the white
/// space, the quotes and the punctuation around it.
pub proof fn law_trigger_ignores_case_and_marks(
    text: Seq<char>,
    other: Seq<char>,
    before: Seq<char>,
    after: Seq<char>,
    phrases: Seq<String>,
)
    requires
        is_ascii_text(text),
        ascii_lower(other) == ascii_lower(text),
        all_in(before, CharClass::Utterance),
        all_in(after, CharClass::Utterance),
    ensures
        utterance_of(before + other + after) == utterance_of(text),
        asks_to_continue(before + other + after, phrases) == asks_to_continue(text, phrases),
{
    let u = CharClass::Utterance;
    lemma_bare_utterance(before + other + after);
    lemma_bare_utterance(text);
    lemma_trim_around(before, other, after, u);
    lemma_lowered_trim(text, other, u);
}

/// Phrases without a word ask for nothing: where there are no others, no utterance asks to
/// continue.
pub proof fn law_blank_phrases_ask_nothing(text: Seq<char>, phrases: Seq<String>)
    requires
        forall|i: int|
            0 <= i < phrases.len() ==> all_in((#[trigger] phrases[i])@, CharClass::Utterance),
    ensures
        !asks_to_continue(text, phrases),
{
    assert forall|i: int| 0 <= i < phrases.len() implies !says(
        utterance_of(text),
        utterance_of((#[trigger] phrases[i])@),
    ) by {
        let p = phrases[i]@;
        lemma_bare_utterance(p);
        lemma_trim_all(p, CharClass::Utterance);
        let e = Seq::<char>::empty();
        assert(ascii_lower(e) == e);
        assert(lowered(e) == e);
        assert(words_of(e) == Seq::<Seq<char>>::empty());
        assert(utterance_of(p) == e);
    }
}

/// Two candidates whose ASCII texts differ in case alone are the same.
pub proof fn law_candidates_ignore_case(a: CandidateView, b: CandidateView)
    requires
        is_ascii_text(a.text),
        ascii_lower(a.text) == ascii_lower(b.text),
    ensures
        key_of(a) == key_of(b),
{
    lemma_lowered_trim(a.text, b.text, CharClass::Space);
}

/// Texts in lower case.
pub open spec fn all_lower(l: Seq<Seq<char>>) -> Seq<Seq<char>> {
    l.map_values(|s: Seq<char>| ascii_lower(s))
}

/// Lower case does not meet with leaving out punctuation.
proof fn lemma_lower_plain(s: Seq<char>)
    ensures
        ascii_lower(plain_of(s)) == plain_of(ascii_lower(s)),
        is_ascii_text(s) ==> is_ascii_text(plain_of(s)),
    decreases s.len(),
{
    if s.len() > 0 {
        let f = s.drop_last();
        lemma_lower_plain(f);
        let t = ascii_lower(s);
        assert(t.drop_last() == ascii_lower(f));
        assert(t.last() == ascii_lower_char(s.last()));
        lemma_class_lower(s.last(), CharClass::Space);
        let p = plain_of(f);
        assert(ascii_lower(p.push(s.last())) == ascii_lower(p).push(ascii_lower_char(s.last())));
        if is_ascii_text(s) {
            assert forall|i: int| 0 <= i < f.len() implies (#[trigger] f[i]) as u32 <= 0x7f by {
                assert(f[i] == s[i]);
            }
            assert(s[s.len() - 1] as u32 <= 0x7f);
        }
    } else {
        assert(ascii_lower(s) == s);
        assert(ascii_lower(plain_of(s)) == plain_of(s));
    }
}

/// Whether every text of a list is ASCII.
pub open spec fn all_ascii(l: Seq<Seq<char>>) -> bool {
    forall|i: int| 0 <= i < l.len() ==> is_ascii_text(#[trigger] l[i])
}

/// A text in lower case has the words in lower case.
proof fn lemma_lower_words(s: Seq<char>)
    ensures
        words_of(ascii_lower(s)) == all_lower(words_of(s)),
        is_ascii_text(s) ==> all_ascii(words_of(s)),
        s.len() > 0 && !is_space(s.last()) ==> words_of(s).len() > 0,
    decreases s.len(),
{
    if s.len() > 0 {
        let f = s.drop_last();
        lemma_lower_words(f);
        let t = ascii_lower(s);
        let g = ascii_lower(f);
        let c = s.last();
        let d = ascii_lower_char(c);
        assert(t.drop_last() == g);
        assert(t.last() == d);
        lemma_class_lower(c, CharClass::Space);
        if f.len() > 0 {
            assert(g.last() == ascii_lower_char(f.last()));
            lemma_class_lower(f.last(), CharClass::Space);
        }
        let w = words_of(f);
        let v = words_of(g);
        if !is_space(c) {
            if f.len() > 0 && !is_space(f.last()) {
                assert(ascii_lower(w.last().push(c)) == ascii_lower(w.last()).push(d));
                assert(v.last() == ascii_lower(w.last()));
                assert(v.drop_last().push(v.last().push(d)) == all_lower(
                    w.drop_last().push(w.last().push(c)),
                ));
            } else {
                assert(ascii_lower(seq![c]) == seq![d]);
                assert(v.push(seq![d]) == all_lower(w.push(seq![c])));
            }
        }
        if is_ascii_text(s) {
            assert forall|i: int| 0 <= i < f.len() implies (#[trigger] f[i]) as u32 <= 0x7f by {
                assert(f[i] == s[i]);
            }
            assert(s[s.len() - 1] as u32 <= 0x7f);
            let now = words_of(s);
            assert forall|i: int| 0 <= i < now.len() implies is_ascii_text(#[trigger] now[i]) by {
                if i < now.len() - 1 {
                    assert(now[i] == w[i]);
                } else if is_space(c) {
                    assert(now[i] == w[i]);
                } else if f.len() > 0 && !is_space(f.last()) {
                    assert(is_ascii_text(w[w.len() - 1]));
                    assert(now[i] == w.last().push(c));
                } else {
                    assert(now[i] == seq![c]);
                }
            }
        }
    } else {
        assert(ascii_lower(s) == s);
        assert(words_of(s) == all_lower(words_of(s)));
    }
}

/// Words in lower case make a text in lower case.
proof fn lemma_lower_joined(l: Seq<Seq<char>>)
    ensures
        joined(all_lower(l), " "@) == ascii_lower(joined(l, " "@)),
        all_ascii(l) ==> is_ascii_text(joined(l, " "@)),
    decreases l.len(),
{
    reveal_strlit(" ");
    if l.len() == 0 {
        assert(ascii_lower(Seq::<char>::empty()) == Seq::<char>::empty());
    } else if l.len() > 1 {
        let f = l.drop_last();
        lemma_lower_joined(f);
        assert(all_lower(l).drop_last() == all_lower(f));
        assert(all_lower(l).last() == ascii_lower(l.last()));
        let j = joined(f, " "@);
        assert(ascii_lower(j + " "@ + l.last()) == ascii_lower(j) + " "@ + ascii_lower(l.last()));
        if all_ascii(l) {
            assert(all_ascii(f)) by {
                assert forall|i: int| 0 <= i < f.len() implies is_ascii_text(#[trigger] f[i]) by {
                    assert(f[i] == l[i]);
                }
            }
            assert(is_ascii_text(l[l.len() - 1]));
        }
    } else if all_ascii(l) {
        assert(is_ascii_text(l[0]));
    }
}

/// Two ASCII titles that differ in case alone are the same title.
pub proof fn law_titles_ignore_case(a: Seq<char>, b: Seq<char>)
    requires
        is_ascii_text(a),
        ascii_lower(a) == ascii_lower(b),
    ensures
        title_key(a) == title_key(b),
{
    lemma_ascii_case(a, b);
    lemma_title_key_lower(a);
    lemma_title_key_lower(b);
}

proof fn lemma_title_key_lower(t: Seq<char>)
    requires
        is_ascii_text(t),
    ensures
        title_key(t) == joined(words_of(plain_of(ascii_lower(t))), " "@),
{
    lemma_lower_plain(t);
    lemma_lower_words(plain_of(t));
    lemma_lower_joined(words_of(plain_of(t)));
}

/// Whether a character is one of `a` to `z` and `0` to `9`.
pub open spec fn is_key_char(c: char) -> bool {
    'a' <= c <= 'z' || '0' <= c <= '9'
}

/// Whether a text is made of words of `a` to `z` and `0` to `9` with single blanks between them.
pub open spec fn is_plain_title(s: Seq<char>) -> bool {
    &&& forall|i: int| 0 <= i < s.len() ==> is_key_char(#[trigger] s[i]) || s[i] == ' '
    &&& s.len() > 0 ==> s[0] != ' ' && s.last() != ' '
    &&& forall|i: int, j: int|
        0 <= i && j == i + 1 && j < s.len() ==> #[trigger] s[i] != ' ' || #[trigger] s[j] != ' '
}

/// Whether the texts of a list are words of `a` to `z` and `0` to `9`.
spec fn are_words(l: Seq<Seq<char>>) -> bool {
    forall|i: int| 0 <= i < l.len() ==> is_word(#[trigger] l[i])
}

spec fn is_word(w: Seq<char>) -> bool {
    w.len() > 0 && forall|j: int| 0 <= j < w.len() ==> is_key_char(#[trigger] w[j])
}

/// The words of a text that has no other characters.
proof fn lemma_are_words(s: Seq<char>)
    requires
        forall|i: int| 0 <= i < s.len() ==> is_key_char(#[trigger] s[i]) || is_space(s[i]),
    ensures
        are_words(words_of(s)),
        s.len() > 0 && !is_space(s.last()) ==> words_of(s).len() > 0,
    decreases s.len(),
{
    if s.len() > 0 {
        let f = s.drop_last();
        assert forall|i: int| 0 <= i < f.len() implies is_key_char(#[trigger] f[i]) || is_space(
            f[i],
        ) by {
            assert(f[i] == s[i]);
        }
        lemma_are_words(f);
        let c = s[s.len() - 1];
        let w = words_of(f);
        let now = words_of(s);
        if !is_space(c) {
            assert(is_key_char(c));
            assert forall|i: int| 0 <= i < now.len() implies is_word(#[trigger] now[i]) by {
                if i < now.len() - 1 {
                    assert(now[i] == w[i]);
                } else if f.len() > 0 && !is_space(f.last()) {
                    assert(is_word(w[w.len() - 1]));
                    assert(now[i] == w.last().push(c));
                } else {
                    assert(now[i] == seq![c]);
                }
            }
        }
    }
}

/// What is left of a lowered ASCII text without its punctuation.
proof fn lemma_plain_chars(t: Seq<char>)
    requires
        is_ascii_text(t),
    ensures
        forall|i: int|
            0 <= i < plain_of(ascii_lower(t)).len() ==> is_key_char(
                #[trigger] plain_of(ascii_lower(t))[i],
            ) || is_space(plain_of(ascii_lower(t))[i]),
    decreases t.len(),
{
    if t.len() > 0 {
        let f = t.drop_last();
        assert forall|i: int| 0 <= i < f.len() implies (#[trigger] f[i]) as u32 <= 0x7f by {
            assert(f[i] == t[i]);
        }
        lemma_plain_chars(f);
        assert(ascii_lower(t).drop_last() == ascii_lower(f));
        let c = t[t.len() - 1];
        assert(c as u32 <= 0x7f);
        let d = ascii_lower_char(c);
        assert(ascii_lower(t).last() == d);
        if 'A' as u32 <= c as u32 <= 'Z' as u32 {
            assert(d as u32 == c as u32 + 32);
        }
        lemma_class_lower(c, CharClass::Space);
        if is_letter_or_number(d) {
            assert(is_key_char(d));
        }
        let p = plain_of(ascii_lower(f));
        let q = plain_of(ascii_lower(t));
        assert forall|i: int| 0 <= i < q.len() implies is_key_char(#[trigger] q[i]) || is_space(
            q[i],
        ) by {
            if i < p.len() {
                assert(q[i] == p[i]);
            }
        }
    }
}

/// Words with single blanks between them make a plain title.
proof fn lemma_words_joined(l: Seq<Seq<char>>)
    requires
        are_words(l),
    ensures
        is_plain_title(joined(l, " "@)),
        l.len() > 0 ==> joined(l, " "@).len() > 0,
        words_of(joined(l, " "@)) == l,
    decreases l.len(),
{
    reveal_strlit(" ");
    if l.len() == 0 {
        assert(words_of(joined(l, " "@)) == l);
    } else {
        let w = l.last();
        assert(is_word(l[l.len() - 1]));
        let f = l.drop_last();
        assert forall|i: int| 0 <= i < f.len() implies is_word(#[trigger] f[i]) by {
            assert(f[i] == l[i]);
        }
        lemma_words_joined(f);
        let e = Seq::<char>::empty();
        let k = joined(l, " "@);
        if l.len() == 1 {
            assert(e + w == w);
            assert(l[0] == w);
            lemma_word_added(e, w);
            assert(words_of(e) == Seq::<Seq<char>>::empty());
            assert(words_of(k) == l);
            assert(is_plain_title(k));
        } else {
            let j = joined(f, " "@);
            let a = j.push(' ');
            assert(k == a + w);
            lemma_word_added(a, w);
            assert(a.drop_last() == j);
            assert(words_of(a) == words_of(j));
            assert(f.push(w) == l);
            assert forall|i: int| 0 <= i < k.len() implies is_key_char(#[trigger] k[i]) || k[i]
                == ' ' by {
                if i < j.len() {
                    assert(k[i] == j[i]);
                } else if i > j.len() {
                    assert(k[i] == w[i - a.len()]);
                }
            }
            assert(k[0] == j[0]);
            assert(k.last() == w[w.len() - 1]);
            assert forall|i: int, n: int| 0 <= i && n == i + 1 && n < k.len() implies #[trigger] k[i]
                != ' ' || #[trigger] k[n] != ' ' by {
                if n < j.len() {
                    assert(k[i] == j[i] && k[n] == j[n]);
                } else if n == j.len() {
                    assert(k[i] == j.last());
                } else {
                    assert(k[n] == w[n - a.len()]);
                }
            }
        }
    }
}

/// A word behind white space is one more word.
proof fn lemma_word_added(a: Seq<char>, w: Seq<char>)
    requires
        a.len() == 0 || is_space(a.last()),
        is_word(w),
    ensures
        words_of(a + w) == words_of(a).push(w),
    decreases w.len(),
{
    let s = a + w;
    let f = w.drop_last();
    assert(is_key_char(w[w.len() - 1]));
    assert(s.last() == w.last());
    assert(s.drop_last() == a + f);
    if w.len() == 1 {
        assert(a + f == a);
        assert(w == seq![w.last()]);
    } else {
        assert forall|j: int| 0 <= j < f.len() implies is_key_char(#[trigger] f[j]) by {
            assert(f[j] == w[j]);
        }
        lemma_word_added(a, f);
        assert((a + f).last() == f[f.len() - 1]);
        assert(words_of(a).push(f).drop_last() == words_of(a));
        assert(f.push(w.last()) == w);
    }
}

/// What a plain title is made of is left as it is.
proof fn lemma_plain_of_plain(s: Seq<char>)
    requires
        forall|i: int| 0 <= i < s.len() ==> is_key_char(#[trigger] s[i]) || s[i] == ' ',
    ensures
        plain_of(s) == s,
        is_ascii_text(s),
        ascii_lower(s) == s,
    decreases s.len(),
{
    if s.len() > 0 {
        let f = s.drop_last();
        assert forall|i: int| 0 <= i < f.len() implies is_key_char(#[trigger] f[i]) || f[i]
            == ' ' by {
            assert(f[i] == s[i]);
        }
        lemma_plain_of_plain(f);
        let c = s[s.len() - 1];
        assert(is_key_char(c) || c == ' ');
        assert(f.push(s.last()) == s);
    }
    assert forall|i: int| 0 <= i < s.len() implies (#[trigger] s[i]) as u32 <= 0x7f by {}
    assert(ascii_lower(s) =~= s);
}

/// The key of an ASCII title is made of words of `a` to `z` and `0` to `9` with single blanks
/// between them, and is its own key.
pub proof fn law_title_key_is_plain(t: Seq<char>)
    requires
        is_ascii_text(t),
    ensures
        is_plain_title(title_key(t)),
        title_key(title_key(t)) == title_key(t),
{
    lemma_title_key_lower(t);
    lemma_plain_chars(t);
    let l = words_of(plain_of(ascii_lower(t)));
    lemma_are_words(plain_of(ascii_lower(t)));
    lemma_words_joined(l);
    let k = title_key(t);
    lemma_plain_of_plain(k);
    lemma_title_key_lower(k);
}

} // verus!
