//! Project ids: short slugs of lower-case letters, digits and dashes.
use vstd::prelude::*;
use crate::text::{
    chars_of, decimal_string_wide, list_contains, string_of, trim_end_class, CharClass,
};
#[allow(unused_imports)]
use crate::text::{
    ascii_lower, ascii_lower_char, decimal, digit, lemma_decimal_digits, lemma_decimal_len, lower_char,
    trim_end_by, views,
};

verus! {

/// The most characters that a project id may have.
pub const PROJECT_SLUG_MAX_LEN: usize = 64;

/// The letters `a` to `z` and `A` to `Z` and the digits.
pub open spec fn is_alnum(c: char) -> bool {
    ('a' <= c && c <= 'z') || ('A' <= c && c <= 'Z') || ('0' <= c && c <= '9')
}

/// The characters that a project id is made of.
pub open spec fn is_slug_char(c: char) -> bool {
    ('a' <= c && c <= 'z') || ('0' <= c && c <= '9') || c == '-'
}

/// Whether a text is a project id.
pub open spec fn is_slug(s: Seq<char>) -> bool {
    &&& 1 <= s.len() <= 64
    &&& forall|i: int| 0 <= i < s.len() ==> is_slug_char(#[trigger] s[i])
}

/// Whether `id` is a project id: lower-case letters, digits and dashes, one to sixty-four.
pub fn is_valid_project_id(id: &str) -> (r: bool)
    ensures
        r == is_slug(id@),
{
    let cs = chars_of(id);
    if cs.len() == 0 || cs.len() > PROJECT_SLUG_MAX_LEN {
        return false;
    }
    let mut i: usize = 0;
    while i < cs.len()
        invariant
            i <= cs.len(),
            cs@ == id@,
            forall|j: int| 0 <= j < i ==> is_slug_char(#[trigger] id@[j]),
        decreases cs.len() - i,
    {
        let c: char = cs[i];
        if !(('a' <= c && c <= 'z') || ('0' <= c && c <= '9') || c == '-') {
            proof {
                assert(!is_slug_char(id@[i as int]));
            }
            return false;
        }
        i = i + 1;
    }
    true
}

/// A name with its letters in lower case and a single dash for every run of other characters,
/// none at the start.
pub open spec fn dashed(name: Seq<char>) -> Seq<char>
    decreases name.len(),
{
    if name.len() == 0 {
        Seq::empty()
    } else {
        let r = dashed(name.drop_last());
        if is_alnum(name.last()) {
            r.push(ascii_lower_char(name.last()))
        } else if r.len() > 0 && r.last() != '-' {
            r.push('-')
        } else {
            r
        }
    }
}

/// A text without the dashes at its end.
pub open spec fn undashed(s: Seq<char>) -> Seq<char> {
    trim_end_by(s, CharClass::Dash)
}

/// The first `n` characters of a text.
pub open spec fn prefix_of(s: Seq<char>, n: int) -> Seq<char> {
    if s.len() <= n {
        s
    } else {
        s.take(n)
    }
}

/// The project id for a name.
pub open spec fn slug_of(name: Seq<char>) -> Seq<char> {
    let s = undashed(prefix_of(undashed(dashed(name)), 64));
    if s.len() == 0 {
        "project"@
    } else {
        s
    }
}

/// Makes a project id of a name. `"project"` where nothing of the name remains.
pub fn slugify(name: &str) -> (r: String)
    ensures
        r@ == slug_of(name@),
{
    let cs = chars_of(name);
    let mut slug: Vec<char> = Vec::new();
    let mut i: usize = 0;
    proof {
        assert(name@.take(0) == Seq::<char>::empty());
    }
    while i < cs.len()
        invariant
            i <= cs.len(),
            cs@ == name@,
            slug@ == dashed(name@.take(i as int)),
        decreases cs.len() - i,
    {
        proof {
            assert(name@.take(i + 1).drop_last() == name@.take(i as int));
        }
        let c: char = cs[i];
        if ('a' <= c && c <= 'z') || ('A' <= c && c <= 'Z') || ('0' <= c && c <= '9') {
            slug.push(lower_char(c));
        } else if slug.len() > 0 && slug[slug.len() - 1] != '-' {
            slug.push('-');
        }
        i = i + 1;
    }
    proof {
        assert(name@.take(name@.len() as int) == name@);
    }
    let all = string_of(slug.as_slice(), 0, slug.len());
    proof {
        assert(slug@.subrange(0, slug@.len() as int) == slug@);
    }
    let cut = first_chars(trim_end_class(all.as_str(), CharClass::Dash), PROJECT_SLUG_MAX_LEN);
    let out = trim_end_class(cut, CharClass::Dash);
    if out.is_empty() {
        "project".to_owned()
    } else {
        out.to_owned()
    }
}

/// The first `n` characters of a text.
fn first_chars<'a>(s: &'a str, n: usize) -> (r: &'a str)
    ensures
        r@ == prefix_of(s@, n as int),
{
    let len: usize = s.unicode_len();
    if len <= n {
        s
    } else {
        proof {
            assert(s@.subrange(0, n as int) == s@.take(n as int));
        }
        s.substring_char(0, n)
    }
}

/// The id tried as number `n` for a name whose id is `base`: `base` itself, then `base-2`,
/// `base-3` and so on, `base` cut so that the whole fits.
pub open spec fn slug_try(base: Seq<char>, n: int) -> Seq<char> {
    if n <= 1 {
        base
    } else {
        let suffix = "-"@ + decimal(n);
        undashed(prefix_of(base, 64 - suffix.len())) + suffix
    }
}

/// Whether the try number `n` is the first that is not taken.
pub open spec fn is_first_free(base: Seq<char>, n: int, taken: Seq<Seq<char>>) -> bool {
    &&& 1 <= n
    &&& !taken.contains(slug_try(base, n))
    &&& forall|k: int| 1 <= k < n ==> taken.contains(#[trigger] slug_try(base, k))
}

/// Makes a project id of a name that is not among `existing`, by a number at its end where it
/// takes one.
pub fn unique_slug(name: &str, existing: &Vec<String>) -> (r: String)
    ensures
        exists|n: int|
            is_first_free(slug_of(name@), n, views(existing@)) && r@ == #[trigger] slug_try(
                slug_of(name@),
                n,
            ),
{
    let base = slugify(name);
    let ghost taken = views(existing@);
    if !list_contains(existing, base.as_str()) {
        proof {
            assert(slug_try(base@, 1) == base@);
            assert(is_first_free(base@, 1, taken));
        }
        return base;
    }
    let limit: u128 = existing.len() as u128 + 2;
    let mut n: u128 = 2;
    proof {
        assert forall|k: int| 1 <= k < 2 implies taken.contains(#[trigger] slug_try(base@, k)) by {
            assert(k == 1);
        }
    }
    loop
        invariant
            2 <= n <= limit,
            limit == existing@.len() + 2,
            existing@.len() <= usize::MAX,
            taken == views(existing@),
            base@ == slug_of(name@),
            forall|k: int| 1 <= k < n ==> taken.contains(#[trigger] slug_try(base@, k)),
        decreases limit - n,
    {
        let digits = decimal_string_wide(n);
        proof {
            reveal_strlit("-");
            lemma_decimal_len(n as int);
        }
        let mut suffix: String = "-".to_owned();
        suffix.append(digits.as_str());
        let room: usize = PROJECT_SLUG_MAX_LEN - suffix.as_str().unicode_len();
        let mut candidate: String = trim_end_class(
            first_chars(base.as_str(), room),
            CharClass::Dash,
        ).to_owned();
        candidate.append(suffix.as_str());
        proof {
            assert(candidate@ == slug_try(base@, n as int));
        }
        if !list_contains(existing, candidate.as_str()) {
            proof {
                assert(is_first_free(base@, n as int, taken));
            }
            return candidate;
        }
        proof {
            if n == limit {
                lemma_tries_run_out(base@, n as int, taken);
            }
        }
        n = n + 1;
    }
}

// ---------------------------------------------------------------------------
// Laws
// ---------------------------------------------------------------------------

/// Every name gives a valid project id.
pub proof fn law_slug_is_valid(name: Seq<char>)
    ensures
        is_slug(slug_of(name)),
{
    lemma_dashed_chars(name);
    let d = dashed(name);
    let a = undashed(d);
    lemma_undashed(d);
    let b = prefix_of(a, 64);
    lemma_undashed(b);
    reveal_strlit("project");
}

/// The id that is made unique is a valid project id too.
pub proof fn law_unique_slug_is_valid(name: Seq<char>, n: int)
    requires
        1 <= n < 0x1_0000_0000_0000_0000_0,
    ensures
        is_slug(slug_try(slug_of(name), n)),
{
    law_slug_is_valid(name);
    if n > 1 {
        reveal_strlit("-");
        lemma_decimal_len(n);
        lemma_decimal_digits(n);
        let base = slug_of(name);
        let suffix = "-"@ + decimal(n);
        let front = prefix_of(base, 64 - suffix.len());
        lemma_undashed(front);
        let s = slug_try(base, n);
        assert forall|i: int| 0 <= i < s.len() implies is_slug_char(#[trigger] s[i]) by {
            let k = undashed(front).len();
            if i < k {
                assert(s[i] == front[i]);
            } else if i > k {
                assert(s[i] == decimal(n)[i - k - 1]);
            }
        }
    }
}

/// A valid id that has no two dashes in a row and none at an end is its own id.
pub proof fn law_slug_of_slug(id: Seq<char>)
    requires
        is_slug(id),
        id[0] != '-',
        id.last() != '-',
        forall|i: int| 0 < i < id.len() ==> !(id[i - 1] == '-' && #[trigger] id[i] == '-'),
    ensures
        slug_of(id) == id,
{
    lemma_dashed_of_slug(id, id.len() as int);
    assert(id.take(id.len() as int) == id);
}

proof fn lemma_dashed_of_slug(id: Seq<char>, n: int)
    requires
        is_slug(id),
        id[0] != '-',
        forall|i: int| 0 < i < id.len() ==> !(id[i - 1] == '-' && #[trigger] id[i] == '-'),
        0 <= n <= id.len(),
    ensures
        dashed(id.take(n)) == id.take(n),
    decreases n,
{
    if n > 0 {
        lemma_dashed_of_slug(id, n - 1);
        assert(id.take(n).drop_last() == id.take(n - 1));
        assert(is_slug_char(id[n - 1]));
        assert(id.take(n).last() == id[n - 1]);
        if n > 1 {
            assert(id.take(n - 1).last() == id[n - 2]);
        }
        assert(id.take(n - 1).push(id[n - 1]) == id.take(n));
    } else {
        assert(id.take(0) == Seq::<char>::empty());
    }
}

proof fn lemma_dashed_chars(name: Seq<char>)
    ensures
        forall|i: int| 0 <= i < dashed(name).len() ==> is_slug_char(#[trigger] dashed(name)[i]),
    decreases name.len(),
{
    if name.len() > 0 {
        lemma_dashed_chars(name.drop_last());
        let r = dashed(name.drop_last());
        let c = name.last();
        if is_alnum(c) {
            assert(is_slug_char(ascii_lower_char(c)));
        }
        assert forall|i: int| 0 <= i < dashed(name).len() implies is_slug_char(
            #[trigger] dashed(name)[i],
        ) by {
            if i < r.len() {
                assert(dashed(name)[i] == r[i]);
            }
        }
    }
}

proof fn lemma_undashed(s: Seq<char>)
    ensures
        undashed(s).len() <= s.len(),
        undashed(s) == s.take(undashed(s).len() as int),
        undashed(s).len() > 0 ==> undashed(s).last() != '-',
    decreases s.len(),
{
    if s.len() > 0 && s.last() == '-' {
        lemma_undashed(s.drop_last());
        assert(s.drop_last().take(undashed(s.drop_last()).len() as int) == s.take(
            undashed(s.drop_last()).len() as int,
        ));
    } else {
        assert(s.take(s.len() as int) == s);
    }
}

/// Different numbers give different tries.
proof fn lemma_tries_differ(base: Seq<char>, m: int, n: int)
    requires
        2 <= m < n,
    ensures
        slug_try(base, m) != slug_try(base, n),
{
    reveal_strlit("-");
    lemma_decimal_digits(m);
    lemma_decimal_digits(n);
    let a = slug_try(base, m);
    let b = slug_try(base, n);
    if a == b {
        let x = decimal(m);
        let y = decimal(n);
        let i = a.len() - x.len() - 1;
        let j = b.len() - y.len() - 1;
        assert(a[i] == '-');
        assert(b[j] == '-');
        if i < j {
            assert(a[j] == x[j - i - 1]);
        }
        if j < i {
            assert(b[i] == y[i - j - 1]);
        }
        assert(x == a.skip(i + 1));
        assert(y == b.skip(j + 1));
        lemma_decimal_distinct(m, n);
    }
}

proof fn lemma_decimal_distinct(m: int, n: int)
    requires
        0 <= m,
        0 <= n,
        decimal(m) == decimal(n),
    ensures
        m == n,
    decreases m,
{
    let x = decimal(m);
    let y = decimal(n);
    lemma_decimal_digits(m);
    lemma_decimal_digits(n);
    if m >= 10 && n >= 10 {
        assert(x.drop_last() == decimal(m / 10));
        assert(y.drop_last() == decimal(n / 10));
        lemma_decimal_distinct(m / 10, n / 10);
        assert(x.last() == digit(m % 10));
        assert(y.last() == digit(n % 10));
    } else if m >= 10 {
        lemma_decimal_digits(m / 10);
        assert(x.len() > y.len());
    } else if n >= 10 {
        lemma_decimal_digits(n / 10);
        assert(y.len() > x.len());
    } else {
        assert(x[0] == digit(m) && y[0] == digit(n));
    }
}

/// A list cannot hold more tries than it has items.
proof fn lemma_tries_run_out(base: Seq<char>, n: int, taken: Seq<Seq<char>>)
    requires
        n == taken.len() + 2,
        forall|k: int| 1 <= k < n ==> taken.contains(#[trigger] slug_try(base, k)),
    ensures
        !taken.contains(slug_try(base, n)),
{
    if taken.contains(slug_try(base, n)) {
        lemma_too_many_tries(base, n, taken);
    }
}

proof fn lemma_too_many_tries(base: Seq<char>, n: int, taken: Seq<Seq<char>>)
    requires
        2 <= n,
        forall|k: int| 1 <= k <= n ==> taken.contains(#[trigger] slug_try(base, k)),
    ensures
        n <= taken.len() + 1,
{
    let tries = Seq::new((n - 1) as nat, |i: int| slug_try(base, i + 2));
    assert(tries.no_duplicates()) by {
        assert forall|i: int, j: int| 0 <= i < tries.len() && 0 <= j < tries.len() && i != j implies tries[i]
            != tries[j] by {
            if i < j {
                lemma_tries_differ(base, i + 2, j + 2);
            } else {
                lemma_tries_differ(base, j + 2, i + 2);
            }
        }
    }
    tries.unique_seq_to_set();
    assert(tries.to_set().subset_of(taken.to_set())) by {
        assert forall|x: Seq<char>| tries.to_set().contains(x) implies taken.to_set().contains(
            x,
        ) by {
            let i = choose|i: int| 0 <= i < tries.len() && tries[i] == x;
            assert(taken.contains(slug_try(base, i + 2)));
        }
    }
    taken.lemma_cardinality_of_set();
    vstd::set_lib::lemma_len_subset(tries.to_set(), taken.to_set());
}

/// The id of a name of two words is the words in lower case with a dash between them, whatever stands
/// between them in the name.
pub proof fn law_slug_of_words(a: Seq<char>, gap: Seq<char>, b: Seq<char>)
    requires
        a.len() > 0 && b.len() > 0 && gap.len() > 0,
        a.len() + 1 + b.len() <= 64,
        forall|i: int| 0 <= i < a.len() ==> is_alnum(#[trigger] a[i]),
        forall|i: int| 0 <= i < b.len() ==> is_alnum(#[trigger] b[i]),
        forall|i: int| 0 <= i < gap.len() ==> !is_alnum(#[trigger] gap[i]),
    ensures
        slug_of(a + gap + b) == ascii_lower(a) + seq!['-'] + ascii_lower(b),
        slug_of(a) == ascii_lower(a),
{
    lemma_dashed_word(Seq::empty(), a);
    assert(Seq::<char>::empty() + a =~= a);
    assert(dashed(Seq::<char>::empty()) =~= Seq::<char>::empty());
    assert(Seq::<char>::empty() + ascii_lower(a) =~= ascii_lower(a));
    assert(is_alnum(a[a.len() - 1]));
    lemma_lower_no_dash(a);
    lemma_lower_no_dash(b);
    lemma_dashed_gap(a, gap);
    lemma_dashed_word(a + gap, b);
    let s = ascii_lower(a) + seq!['-'] + ascii_lower(b);
    assert(s.last() == ascii_lower(b).last());
    assert(undashed(s) == s);
    assert(undashed(ascii_lower(a)) == ascii_lower(a));
}

proof fn lemma_lower_no_dash(a: Seq<char>)
    requires
        a.len() > 0,
        forall|i: int| 0 <= i < a.len() ==> is_alnum(#[trigger] a[i]),
    ensures
        ascii_lower(a).len() == a.len(),
        ascii_lower(a).last() != '-',
{
    assert(is_alnum(a[a.len() - 1]));
    assert(ascii_lower(a).last() == ascii_lower_char(a[a.len() - 1]));
}

proof fn lemma_dashed_word(before: Seq<char>, a: Seq<char>)
    requires
        forall|i: int| 0 <= i < a.len() ==> is_alnum(#[trigger] a[i]),
    ensures
        dashed(before + a) == dashed(before) + ascii_lower(a),
    decreases a.len(),
{
    if a.len() == 0 {
        assert(before + a =~= before);
        assert(dashed(before) + ascii_lower(a) =~= dashed(before));
    } else {
        let f = a.drop_last();
        assert forall|i: int| 0 <= i < f.len() implies is_alnum(#[trigger] f[i]) by {
            assert(f[i] == a[i]);
        }
        lemma_dashed_word(before, f);
        assert((before + a).drop_last() =~= before + f);
        assert((before + a).last() == a[a.len() - 1]);
        assert(dashed(before + a) =~= dashed(before) + ascii_lower(a));
    }
}

proof fn lemma_dashed_gap(a: Seq<char>, gap: Seq<char>)
    requires
        gap.len() > 0,
        dashed(a).len() > 0 && dashed(a).last() != '-',
        forall|i: int| 0 <= i < gap.len() ==> !is_alnum(#[trigger] gap[i]),
    ensures
        dashed(a + gap) == dashed(a) + seq!['-'],
    decreases gap.len(),
{
    let f = gap.drop_last();
    assert((a + gap).drop_last() =~= a + f);
    assert((a + gap).last() == gap[gap.len() - 1]);
    if f.len() == 0 {
        assert(a + f =~= a);
        assert(dashed(a + gap) =~= dashed(a) + seq!['-']);
    } else {
        assert forall|i: int| 0 <= i < f.len() implies !is_alnum(#[trigger] f[i]) by {
            assert(f[i] == gap[i]);
        }
        lemma_dashed_gap(a, f);
        assert((dashed(a) + seq!['-']).last() == '-');
    }
}

/// Where an id is taken a number is put behind it, from two on.
pub proof fn law_numbered_slugs(base: Seq<char>, n: int)
    requires
        1 <= n,
        base.len() > 0 && base.last() != '-',
        base.len() + 1 + decimal(n).len() <= 64,
    ensures
        n == 1 ==> slug_try(base, n) == base,
        n >= 2 ==> slug_try(base, n) == base + seq!['-'] + decimal(n),
{
    reveal_strlit("-");
    assert("-"@ =~= seq!['-']);
    assert(undashed(base) == base);
    if n >= 2 {
        assert(base + ("-"@ + decimal(n)) =~= base + seq!['-'] + decimal(n));
    }
}

} // verus!
