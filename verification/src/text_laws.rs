//! What holds of texts: trimming, lower case, searching, splitting and joining, shortening, numbers.
use vstd::prelude::*;
#[allow(unused_imports)]
use crate::sorted::lex_before;
#[allow(unused_imports)]
use crate::text::{
    ascii_lower, before_part, byte_len, decimal, digit, ends_with, find_part, fitting_chars,
    has_part, is_control, is_space, joined, lemma_byte_len_add, lemma_find_part,
    lemma_trim_end_ends, lemma_trim_start_starts, occurs_at, replaced, shortened_bytes, split_by,
    starts_with, trim_end_by, trim_start_by, trimmed, words_of, CharClass,
};

verus! {

/// White space is no letter, no digit and no mark of ASCII; the blank, the tab and the line ends are.
pub proof fn law_white_space(c: char)
    ensures
        is_space(' ') && is_space('\t') && is_space('\n') && is_space('\r'),
        '!' <= c <= '~' ==> !is_space(c),
        is_control('\n') && is_control('\t') && is_control('\r'),
        ' ' <= c <= '~' ==> !is_control(c),
{
}

/// Trimming cuts off the white space around a text, all of it and nothing else.
pub proof fn law_trimming(s: Seq<char>)
    ensures
        exists|a: int, b: int|
            0 <= a <= b <= s.len() && trimmed(s) == #[trigger] s.subrange(a, b) && (forall|i: int|
                0 <= i < a || b <= i < s.len() ==> is_space(#[trigger] s[i])),
        trimmed(s).len() > 0 ==> !is_space(trimmed(s)[0]) && !is_space(trimmed(s).last()),
{
    let k = CharClass::Space;
    lemma_trim_start_starts(s, k);
    lemma_start_space(s);
    let t = trim_start_by(s, k);
    lemma_trim_end_ends(t, k);
    let u = trim_end_by(t, k);
    let a = s.len() - t.len();
    let b = a + u.len();
    assert(u =~= s.subrange(a, b));
    assert forall|i: int| 0 <= i < a || b <= i < s.len() implies is_space(#[trigger] s[i]) by {
        if b <= i {
            assert(t[i - a] == s[i]);
        }
    }
    if u.len() > 0 {
        assert(u[0] == t[0]);
    }
}

proof fn lemma_start_space(s: Seq<char>)
    ensures
        trim_start_by(s, CharClass::Space).len() <= s.len(),
        forall|i: int|
            0 <= i < s.len() - trim_start_by(s, CharClass::Space).len() ==> is_space(#[trigger] s[i]),
    decreases s.len(),
{
    if s.len() > 0 && is_space(s[0]) {
        let f = s.drop_first();
        lemma_start_space(f);
        assert forall|i: int|
            0 <= i < s.len() - trim_start_by(s, CharClass::Space).len() implies is_space(
            #[trigger] s[i],
        ) by {
            if i > 0 {
                assert(f[i - 1] == s[i]);
            }
        }
    }
}

/// Lowering changes the letters `A` to `Z` and no other character.
pub proof fn law_lowering(s: Seq<char>, i: int)
    requires
        0 <= i < s.len(),
    ensures
        ascii_lower(s).len() == s.len(),
        0x41 <= s[i] as u32 <= 0x5a ==> ascii_lower(s)[i] as u32 == s[i] as u32 + 32,
        !(0x41 <= s[i] as u32 <= 0x5a) ==> ascii_lower(s)[i] == s[i],
{
}

/// A text is part of another where that is it with something before and after; it begins or ends
/// with it where that something is missing.
pub proof fn law_parts(s: Seq<char>, p: Seq<char>)
    ensures
        has_part(s, p) <==> exists|a: Seq<char>, b: Seq<char>| s == #[trigger] (a + p + b),
        starts_with(s, p) <==> exists|b: Seq<char>| s == #[trigger] (p + b),
        ends_with(s, p) <==> exists|a: Seq<char>| s == #[trigger] (a + p),
{
    if has_part(s, p) {
        let i = choose|i: int| occurs_at(s, p, i);
        assert(s =~= s.take(i) + p + s.skip(i + p.len()));
    }
    if exists|a: Seq<char>, b: Seq<char>| s == #[trigger] (a + p + b) {
        let (a, b) = choose|a: Seq<char>, b: Seq<char>| s == #[trigger] (a + p + b);
        assert(s.subrange(a.len() as int, (a.len() + p.len()) as int) =~= p);
        assert(occurs_at(s, p, a.len() as int));
    }
    if starts_with(s, p) {
        assert(s =~= p + s.skip(p.len() as int));
    }
    if exists|b: Seq<char>| s == #[trigger] (p + b) {
        let b = choose|b: Seq<char>| s == #[trigger] (p + b);
        assert(s.take(p.len() as int) =~= p);
    }
    if ends_with(s, p) {
        assert(s =~= s.take(s.len() - p.len()) + p);
    }
    if exists|a: Seq<char>| s == #[trigger] (a + p) {
        let a = choose|a: Seq<char>| s == #[trigger] (a + p);
        assert(s.skip(s.len() - p.len()) =~= p);
    }
}

/// Joining puts the separator between the texts, and nowhere else.
pub proof fn law_joining(parts: Seq<Seq<char>>, sep: Seq<char>, x: Seq<char>)
    ensures
        joined(Seq::empty(), sep) == Seq::<char>::empty(),
        joined(seq![x], sep) == x,
        parts.len() > 0 ==> joined(parts.push(x), sep) == joined(parts, sep) + sep + x,
{
    assert(parts.push(x).drop_last() =~= parts);
}

/// Splitting loses nothing: the parts joined by the separator are the text; and no part holds the
/// separator.
pub proof fn law_splitting(s: Seq<char>, sep: Seq<char>)
    requires
        sep.len() > 0,
    ensures
        joined(split_by(s, sep), sep) == s,
        split_by(s, sep).len() > 0,
        forall|k: int| 0 <= k < split_by(s, sep).len() ==> !has_part(#[trigger] split_by(s, sep)[k], sep),
    decreases s.len(),
{
    lemma_find_part(s, sep, 0);
    let l = split_by(s, sep);
    match find_part(s, sep, 0) {
        Some(i) => {
            let rest = s.skip(i + sep.len());
            law_splitting(rest, sep);
            let r = split_by(rest, sep);
            assert(l == seq![s.take(i)] + r);
            lemma_joined_front(s.take(i), r, sep);
            assert(s =~= s.take(i) + sep + rest);
            assert forall|k: int| 0 <= k < l.len() implies !has_part(#[trigger] l[k], sep) by {
                if k == 0 {
                    if has_part(s.take(i), sep) {
                        let j = choose|j: int| occurs_at(s.take(i), sep, j);
                        assert(s.take(i).subrange(j, j + sep.len()) =~= s.subrange(
                            j,
                            j + sep.len(),
                        ));
                        assert(occurs_at(s, sep, j));
                    }
                } else {
                    assert(l[k] == r[k - 1]);
                }
            }
        },
        None => {
            assert(joined(l, sep) == s);
        },
    }
}

proof fn lemma_joined_front(x: Seq<char>, l: Seq<Seq<char>>, sep: Seq<char>)
    requires
        l.len() > 0,
    ensures
        joined(seq![x] + l, sep) == x + sep + joined(l, sep),
    decreases l.len(),
{
    let a = seq![x] + l;
    if l.len() == 1 {
        assert(a.drop_last() =~= seq![x]);
        assert(joined(a.drop_last(), sep) == x);
        assert(a.last() == l[0]);
        assert(joined(a, sep) =~= x + sep + l[0]);
    } else {
        lemma_joined_front(x, l.drop_last(), sep);
        assert(a.drop_last() =~= seq![x] + l.drop_last());
        assert(joined(a, sep) =~= x + sep + joined(l, sep));
    }
}

/// A text in which the pattern does not stand stays as it is; the first place where it stands takes
/// the replacement, and the same is done with the rest.
pub proof fn law_replacing(a: Seq<char>, pat: Seq<char>, b: Seq<char>, by: Seq<char>)
    requires
        pat.len() > 0,
    ensures
        !has_part(a, pat) ==> replaced(a, pat, by) == a,
        (forall|i: int| 0 <= i < a.len() ==> !#[trigger] occurs_at(a + pat + b, pat, i)) ==> replaced(
            a + pat + b,
            pat,
            by,
        ) == a + by + replaced(b, pat, by),
{
    lemma_find_part(a, pat, 0);
    if !has_part(a, pat) {
        assert(split_by(a, pat) =~= seq![a]);
    }
    let s = a + pat + b;
    if forall|i: int| 0 <= i < a.len() ==> !#[trigger] occurs_at(s, pat, i) {
        lemma_find_part(s, pat, 0);
        assert(s.subrange(a.len() as int, (a.len() + pat.len()) as int) =~= pat);
        assert(occurs_at(s, pat, a.len() as int));
        let i = find_part(s, pat, 0)->0;
        assert(i == a.len());
        assert(s.take(i) =~= a);
        assert(s.skip(i + pat.len()) =~= b);
        law_splitting(b, pat);
        lemma_joined_front(a, split_by(b, pat), by);
    }
}

/// A text cut at a mark is what stands before the first mark.
pub proof fn law_cutting(s: Seq<char>, sep: Seq<char>)
    ensures
        !has_part(s, sep) ==> before_part(s, sep) == s,
        has_part(s, sep) ==> starts_with(s, before_part(s, sep) + sep) && (sep.len() > 0 ==> !has_part(
            before_part(s, sep),
            sep,
        )),
{
    lemma_find_part(s, sep, 0);
    if has_part(s, sep) {
        let j = choose|j: int| occurs_at(s, sep, j);
        let i = find_part(s, sep, 0)->0;
        let f = s.take(i);
        assert(s.take(i + sep.len()) =~= f + s.subrange(i, i + sep.len()));
        assert((f + sep).len() == i + sep.len());
        if sep.len() > 0 && has_part(f, sep) {
            let j = choose|j: int| occurs_at(f, sep, j);
            assert(f.subrange(j, j + sep.len()) =~= s.subrange(j, j + sep.len()));
            assert(occurs_at(s, sep, j));
        }
    }
}

/// A shortened text fits. One that fits is not shortened; of any other as much as possible is kept,
/// and three dots follow.
pub proof fn law_shortening(s: Seq<char>, max: int)
    requires
        3 <= max,
    ensures
        byte_len(shortened_bytes(s, max)) <= max,
        byte_len(s) <= max ==> shortened_bytes(s, max) == s,
        byte_len(s) > max ==> exists|k: int|
            0 <= k < s.len() && shortened_bytes(s, max) == #[trigger] s.take(k) + "..."@ && byte_len(
                s.take(k),
            ) <= max - 3 < byte_len(s.take(k + 1)),
{
    reveal_strlit("...");
    let d = "..."@;
    law_ascii_bytes(d);
    if byte_len(s) > max {
        lemma_fits(s, max - 3);
        let k = fitting_chars(s, max - 3);
        lemma_byte_len_add(s.take(k), d);
        assert(s.take(s.len() as int) =~= s);
    }
}

proof fn lemma_fits(s: Seq<char>, max: int)
    requires
        0 <= max,
    ensures
        ({
            let k = fitting_chars(s, max);
            &&& 0 <= k <= s.len()
            &&& byte_len(s.take(k)) <= max
            &&& k < s.len() ==> byte_len(s.take(k + 1)) > max
        }),
    decreases s.len(),
{
    if s.len() == 0 || byte_len(s) <= max {
        assert(s.take(s.len() as int) =~= s);
    } else {
        let f = s.drop_last();
        lemma_fits(f, max);
        let k = fitting_chars(f, max);
        assert(f.take(k) =~= s.take(k));
        if k < f.len() {
            assert(f.take(k + 1) =~= s.take(k + 1));
        } else {
            assert(s.take(k + 1) =~= s);
        }
    }
}

/// A text of ASCII takes a byte for each character.
pub proof fn law_ascii_bytes(s: Seq<char>)
    requires
        forall|i: int| 0 <= i < s.len() ==> (#[trigger] s[i]) as u32 <= 0x7f,
    ensures
        byte_len(s) == s.len(),
    decreases s.len(),
{
    if s.len() > 0 {
        let f = s.drop_last();
        assert forall|i: int| 0 <= i < f.len() implies (#[trigger] f[i]) as u32 <= 0x7f by {
            assert(f[i] == s[i]);
        }
        law_ascii_bytes(f);
        assert(s[s.len() - 1] as u32 <= 0x7f);
    }
}

/// What a row of digits is worth.
pub open spec fn worth(s: Seq<char>) -> int
    decreases s.len(),
{
    if s.len() == 0 {
        0
    } else {
        10 * worth(s.drop_last()) + (s.last() as u32 - 0x30)
    }
}

/// A number in decimal is digits that are worth the number, without a leading nought.
pub proof fn law_decimal(n: int)
    requires
        0 <= n,
    ensures
        worth(decimal(n)) == n,
        forall|i: int| 0 <= i < decimal(n).len() ==> '0' <= #[trigger] decimal(n)[i] <= '9',
        n > 0 ==> decimal(n)[0] != '0',
    decreases n,
{
    if n >= 10 {
        law_decimal(n / 10);
        assert(decimal(n).drop_last() =~= decimal(n / 10));
        assert(decimal(n)[0] == decimal(n / 10)[0]);
    } else {
        assert(decimal(n).drop_last() =~= Seq::<char>::empty());
        assert(worth(Seq::<char>::empty()) == 0);
    }
}

/// The words of a text hold no white space and are not empty; all other characters of the text are in
/// them, in order.
pub proof fn law_words(s: Seq<char>)
    ensures
        forall|k: int| 0 <= k < words_of(s).len() ==> (#[trigger] words_of(s)[k]).len() > 0,
        forall|k: int, i: int|
            0 <= k < words_of(s).len() && 0 <= i < words_of(s)[k].len() ==> !is_space(
                #[trigger] words_of(s)[k][i],
            ),
        words_of(s).flatten() == s.filter(|c: char| !is_space(c)),
    decreases s.len(),
{
    reveal(Seq::filter);
    let f = |c: char| !is_space(c);
    let w = words_of(s);
    if s.len() == 0 {
        assert(w.flatten() =~= s.filter(f));
    } else {
        let front = s.drop_last();
        let b = words_of(front);
        law_words(front);
        crate::text::lemma_words_end(front);
        if is_space(s.last()) {
            assert(w == b);
        } else if front.len() > 0 && !is_space(front.last()) {
            let last = b.last().push(s.last());
            let init = b.drop_last();
            assert(w =~= init.push(last));
            assert(b =~= init.push(b.last()));
            init.lemma_flatten_push(last);
            init.lemma_flatten_push(b.last());
            assert(w.flatten() =~= b.flatten().push(s.last()));
            assert forall|k: int| 0 <= k < w.len() implies (#[trigger] w[k]).len() > 0 by {
                if k < init.len() {
                    assert(w[k] == b[k]);
                }
            }
            assert forall|k: int, i: int| 0 <= k < w.len() && 0 <= i < w[k].len() implies !is_space(
                #[trigger] w[k][i],
            ) by {
                if k < init.len() {
                    assert(w[k][i] == b[k][i]);
                } else if i < b.last().len() {
                    assert(w[k][i] == b[k][i]);
                }
            }
        } else {
            b.lemma_flatten_push(seq![s.last()]);
            assert(w.flatten() =~= b.flatten().push(s.last()));
            assert forall|k: int, i: int| 0 <= k < w.len() && 0 <= i < w[k].len() implies !is_space(
                #[trigger] w[k][i],
            ) by {
                if k < b.len() {
                    assert(w[k][i] == b[k][i]);
                }
            }
        }
    }
}

/// Texts are ordered by the first character in which they differ, and a text comes before every longer
/// one that begins with it.
pub proof fn law_alphabetical_order(p: Seq<char>, x: char, y: char, a: Seq<char>, b: Seq<char>)
    requires
        x < y,
    ensures
        lex_before(p + seq![x] + a, p + seq![y] + b),
        !lex_before(p + seq![y] + b, p + seq![x] + a),
        lex_before(p, p + seq![x] + a),
        !lex_before(p + seq![x] + a, p),
        !lex_before(p, p),
    decreases p.len(),
{
    let s = p + seq![x] + a;
    let t = p + seq![y] + b;
    if p.len() == 0 {
        assert(s[0] == x && t[0] == y);
    } else {
        let q = p.drop_first();
        law_alphabetical_order(q, x, y, a, b);
        assert(s.drop_first() =~= q + seq![x] + a);
        assert(t.drop_first() =~= q + seq![y] + b);
        assert(s[0] == p[0] && t[0] == p[0]);
    }
}

} // verus!
