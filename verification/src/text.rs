//! Characters and strings.
//!
//! Every text operation that the library relies on is stated here over `Seq<char>` and
//! implemented on strings: trimming by a class of characters, lines, joining, searching,
//! decimal numbers, and shortening to a number of bytes or characters.
use std::collections::VecDeque;
use vstd::prelude::*;
use vstd::utf8::encode_utf8;

verus! {


/// `String::push`: appends one character.
pub assume_specification[ String::push ](s: &mut String, c: char)
    ensures
        final(s)@ == old(s)@.push(c),
;

/// What a list of strings holds.
pub open spec fn views(v: Seq<String>) -> Seq<Seq<char>> {
    v.map_values(|s: String| s@)
}

/// What an optional string holds.
pub open spec fn opt_view(o: Option<String>) -> Option<Seq<char>> {
    match o {
        Some(s) => Some(s@),
        None => None,
    }
}

/// What an optional borrowed string holds.
pub open spec fn opt_str_view(o: Option<&str>) -> Option<Seq<char>> {
    match o {
        Some(s) => Some(s@),
        None => None,
    }
}

/// The characters with the Unicode `White_Space` property.
pub open spec fn is_space(c: char) -> bool {
    ||| 0x9 <= c as u32 <= 0xd
    ||| c as u32 == 0x20
    ||| c as u32 == 0x85
    ||| c as u32 == 0xa0
    ||| c as u32 == 0x1680
    ||| 0x2000 <= c as u32 <= 0x200a
    ||| c as u32 == 0x2028
    ||| c as u32 == 0x2029
    ||| c as u32 == 0x202f
    ||| c as u32 == 0x205f
    ||| c as u32 == 0x3000
}

/// Whether `c` is white space.
pub fn char_is_space(c: char) -> (r: bool)
    ensures
        r == is_space(c),
{
    let u: u32 = c as u32;
    (0x9 <= u && u <= 0xd) || u == 0x20 || u == 0x85 || u == 0xa0 || u == 0x1680 || (0x2000 <= u
        && u <= 0x200a) || u == 0x2028 || u == 0x2029 || u == 0x202f || u == 0x205f || u == 0x3000
}

/// The control characters (Unicode category Cc).
pub open spec fn is_control(c: char) -> bool {
    c as u32 <= 0x1f || 0x7f <= c as u32 <= 0x9f
}

/// Whether `c` is a control character.
pub fn char_is_control(c: char) -> (r: bool)
    ensures
        r == is_control(c),
{
    let u: u32 = c as u32;
    u <= 0x1f || (0x7f <= u && u <= 0x9f)
}

/// `c` with the letters `A` to `Z` in lower case.
pub open spec fn ascii_lower_char(c: char) -> char {
    if 'A' as u32 <= c as u32 <= 'Z' as u32 {
        (c as u32 + 32) as char
    } else {
        c
    }
}

/// `s` with the letters `A` to `Z` in lower case.
pub open spec fn ascii_lower(s: Seq<char>) -> Seq<char> {
    s.map_values(|c: char| ascii_lower_char(c))
}

/// Whether a text is ASCII.
pub open spec fn is_ascii_text(s: Seq<char>) -> bool {
    forall|i: int| 0 <= i < s.len() ==> (#[trigger] s[i]) as u32 <= 0x7f
}

/// Lowers one ASCII letter.
pub fn lower_char(c: char) -> (r: char)
    ensures
        r == ascii_lower_char(c),
{
    match c {
        'A' => 'a',
        'B' => 'b',
        'C' => 'c',
        'D' => 'd',
        'E' => 'e',
        'F' => 'f',
        'G' => 'g',
        'H' => 'h',
        'I' => 'i',
        'J' => 'j',
        'K' => 'k',
        'L' => 'l',
        'M' => 'm',
        'N' => 'n',
        'O' => 'o',
        'P' => 'p',
        'Q' => 'q',
        'R' => 'r',
        'S' => 's',
        'T' => 't',
        'U' => 'u',
        'V' => 'v',
        'W' => 'w',
        'X' => 'x',
        'Y' => 'y',
        'Z' => 'z',
        other => other,
    }
}

/// Lowers the ASCII letters of `s`.
pub fn lower(s: &str) -> (r: String)
    ensures
        r@ == ascii_lower(s@),
{
    let mut r: String = String::new();
    for c in it: s.chars()
        invariant
            it.seq() == s@,
            r@ == ascii_lower(s@).take(it.index() as int),
    {
        r.push(lower_char(c));
    }
    proof {
        assert(ascii_lower(s@).take(s@.len() as int) == ascii_lower(s@));
    }
    r
}

/// The characters of a string.
pub fn chars_of(s: &str) -> (r: Vec<char>)
    ensures
        r@ == s@,
{
    let mut r: Vec<char> = Vec::new();
    for c in it: s.chars()
        invariant
            r@ == s@.take(it.index() as int),
            it.seq() == s@,
    {
        r.push(c);
    }
    proof {
        assert(s@.take(s@.len() as int) == s@);
    }
    r
}

/// The string made of the characters `cs[from..to]`.
pub fn string_of(cs: &[char], from: usize, to: usize) -> (r: String)
    requires
        from <= to <= cs@.len(),
    ensures
        r@ == cs@.subrange(from as int, to as int),
{
    let mut r: String = String::new();
    let mut i: usize = from;
    while i < to
        invariant
            from <= i <= to <= cs@.len(),
            r@ == cs@.subrange(from as int, i as int),
        decreases to - i,
    {
        r.push(cs[i]);
        i = i + 1;
        proof {
            assert(cs@.subrange(from as int, i as int) == cs@.subrange(from as int, i - 1).push(
                cs@[i - 1],
            ));
        }
    }
    r
}

/// Whether two strings hold the same characters.
pub fn same(a: &str, b: &str) -> (r: bool)
    ensures
        r == (a@ == b@),
{
    a.to_owned() == b.to_owned()
}

/// Whether two optional strings hold the same characters.
pub fn same_opt(a: &Option<String>, b: &Option<String>) -> (r: bool)
    ensures
        r == (opt_view(*a) == opt_view(*b)),
{
    match (a, b) {
        (Some(x), Some(y)) => *x == *y,
        (None, None) => true,
        _ => false,
    }
}

/// Whether two lists of strings hold the same strings in the same order.
pub fn same_list(a: &Vec<String>, b: &Vec<String>) -> (r: bool)
    ensures
        r == (views(a@) == views(b@)),
{
    if a.len() != b.len() {
        proof {
            assert(views(a@).len() != views(b@).len());
        }
        return false;
    }
    let mut i: usize = 0;
    while i < a.len()
        invariant
            a.len() == b.len(),
            i <= a.len(),
            forall|j: int| 0 <= j < i ==> #[trigger] a@[j]@ == b@[j]@,
        decreases a.len() - i,
    {
        if a[i] != b[i] {
            proof {
                assert(views(a@)[i as int] == a@[i as int]@);
                assert(views(b@)[i as int] == b@[i as int]@);
            }
            return false;
        }
        i = i + 1;
    }
    proof {
        assert(views(a@) =~= views(b@));
    }
    true
}

/// Whether a list of strings holds `s`.
pub fn list_contains(a: &Vec<String>, s: &str) -> (r: bool)
    ensures
        r == views(a@).contains(s@),
{
    let mut i: usize = 0;
    while i < a.len()
        invariant
            i <= a.len(),
            forall|j: int| 0 <= j < i ==> #[trigger] views(a@)[j] != s@,
        decreases a.len() - i,
    {
        if same(a[i].as_str(), s) {
            proof {
                assert(views(a@)[i as int] == s@);
            }
            return true;
        }
        i = i + 1;
    }
    false
}

/// Whether a queue of strings holds `s`.
pub fn queue_contains(a: &VecDeque<String>, s: &str) -> (r: bool)
    ensures
        r == views(a@).contains(s@),
{
    let mut i: usize = 0;
    while i < a.len()
        invariant
            i <= a.len(),
            forall|j: int| 0 <= j < i ==> #[trigger] views(a@)[j] != s@,
        decreases a.len() - i,
    {
        if same(a[i].as_str(), s) {
            proof {
                assert(views(a@)[i as int] == s@);
            }
            return true;
        }
        i = i + 1;
    }
    false
}

// ---------------------------------------------------------------------------
// Classes of characters, and trimming by them
// ---------------------------------------------------------------------------

/// A class of characters that a string is trimmed by.
#[derive(Clone, Copy, PartialEq, Eq, Structural)]
pub enum CharClass {
    /// White space.
    Space,
    /// The marks that open a Markdown line: `-`, `*`, `#`, `>` and the blank.
    Bullet,
    /// The marks that open a list item: `-`, `*` and the blank.
    ListMark,
    /// `*`.
    Star,
    /// `.`.
    Dot,
    /// `-`.
    Dash,
    /// What separates the parts of a path: `/` and the backslash.
    PathSep,
    /// White space and Markdown emphasis: `*`, the backquote and `_`.
    Noise,
    /// The marks an editor puts before the name of an unsaved file: `●` and `*`.
    Unsaved,
    /// The marks an editor puts before a title: `●`, `*` and `•`.
    DirtyMark,
    /// What stands around an utterance: white space, quotes and the punctuation that ends it.
    Utterance,
    /// What closes a path quoted in running text: `"`, `'`, `)`, `]`, `.` and `,`.
    PathTail,
}

/// Whether `c` belongs to the class `k`.
pub open spec fn in_class(k: CharClass, c: char) -> bool {
    match k {
        CharClass::Space => is_space(c),
        CharClass::Bullet => c == '-' || c == '*' || c == '#' || c == '>' || c == ' ',
        CharClass::ListMark => c == '-' || c == '*' || c == ' ',
        CharClass::Star => c == '*',
        CharClass::Dot => c == '.',
        CharClass::Dash => c == '-',
        CharClass::PathSep => c == '/' || c == '\\',
        CharClass::Noise => is_space(c) || c == '*' || c == '`' || c == '_',
        CharClass::Unsaved => c == '●' || c == '*',
        CharClass::DirtyMark => c == '●' || c == '*' || c == '•',
        CharClass::Utterance => is_space(c) || c == '"' || c == '\'' || c == '`' || c == '.' || c
            == '!' || c == '?' || c == ',' || c == '…',
        CharClass::PathTail => c == '"' || c == '\'' || c == ')' || c == ']' || c == '.' || c == ',',
    }
}

/// Whether `c` belongs to the class `k`.
pub fn char_in(k: CharClass, c: char) -> (r: bool)
    ensures
        r == in_class(k, c),
{
    match k {
        CharClass::Space => char_is_space(c),
        CharClass::Bullet => c == '-' || c == '*' || c == '#' || c == '>' || c == ' ',
        CharClass::ListMark => c == '-' || c == '*' || c == ' ',
        CharClass::Star => c == '*',
        CharClass::Dot => c == '.',
        CharClass::Dash => c == '-',
        CharClass::PathSep => c == '/' || c == '\\',
        CharClass::Noise => char_is_space(c) || c == '*' || c == '`' || c == '_',
        CharClass::Unsaved => c == '●' || c == '*',
        CharClass::DirtyMark => c == '●' || c == '*' || c == '•',
        CharClass::Utterance => char_is_space(c) || c == '"' || c == '\'' || c == '`' || c == '.'
            || c == '!' || c == '?' || c == ',' || c == '…',
        CharClass::PathTail => c == '"' || c == '\'' || c == ')' || c == ']' || c == '.' || c == ',',
    }
}

/// `s` without its leading characters of the class `k`.
pub open spec fn trim_start_by(s: Seq<char>, k: CharClass) -> Seq<char>
    decreases s.len(),
{
    if s.len() > 0 && in_class(k, s[0]) {
        trim_start_by(s.drop_first(), k)
    } else {
        s
    }
}

/// `s` without its trailing characters of the class `k`.
pub open spec fn trim_end_by(s: Seq<char>, k: CharClass) -> Seq<char>
    decreases s.len(),
{
    if s.len() > 0 && in_class(k, s.last()) {
        trim_end_by(s.drop_last(), k)
    } else {
        s
    }
}

/// `s` without its leading and trailing characters of the class `k`.
pub open spec fn trim_by(s: Seq<char>, k: CharClass) -> Seq<char> {
    trim_end_by(trim_start_by(s, k), k)
}

/// `s` without its leading and trailing white space.
pub open spec fn trimmed(s: Seq<char>) -> Seq<char> {
    trim_by(s, CharClass::Space)
}

pub proof fn lemma_trim_end_add(a: Seq<char>, b: Seq<char>, k: CharClass)
    ensures
        trim_end_by(a + b, k) == (if trim_end_by(b, k).len() > 0 {
            a + trim_end_by(b, k)
        } else {
            trim_end_by(a, k)
        }),
    decreases b.len(),
{
    if b.len() == 0 {
        assert(a + b == a);
    } else {
        assert((a + b).last() == b.last());
        assert((a + b).drop_last() == a + b.drop_last());
        if in_class(k, b.last()) {
            lemma_trim_end_add(a, b.drop_last(), k);
        }
    }
}

pub proof fn lemma_trim_start_add(a: Seq<char>, b: Seq<char>, k: CharClass)
    ensures
        trim_start_by(a + b, k) == (if trim_start_by(a, k).len() > 0 {
            trim_start_by(a, k) + b
        } else {
            trim_start_by(b, k)
        }),
    decreases a.len(),
{
    if a.len() == 0 {
        assert(a + b == b);
    } else {
        assert((a + b)[0] == a[0]);
        assert((a + b).drop_first() == a.drop_first() + b);
        if in_class(k, a[0]) {
            lemma_trim_start_add(a.drop_first(), b, k);
        }
    }
}

/// Trimming is cutting off: what stays starts and ends outside the class.
pub proof fn lemma_trim_end_ends(s: Seq<char>, k: CharClass)
    ensures
        trim_end_by(s, k).len() <= s.len(),
        trim_end_by(s, k) == s.take(trim_end_by(s, k).len() as int),
        trim_end_by(s, k).len() > 0 ==> !in_class(k, trim_end_by(s, k).last()),
        trim_end_by(trim_end_by(s, k), k) == trim_end_by(s, k),
        (forall|i: int| trim_end_by(s, k).len() <= i < s.len() ==> in_class(k, #[trigger] s[i])),
    decreases s.len(),
{
    if s.len() > 0 && in_class(k, s.last()) {
        let f = s.drop_last();
        lemma_trim_end_ends(f, k);
        assert(f.take(trim_end_by(f, k).len() as int) == s.take(trim_end_by(f, k).len() as int));
        assert forall|i: int| trim_end_by(s, k).len() <= i < s.len() implies in_class(
            k,
            #[trigger] s[i],
        ) by {
            if i < f.len() {
                assert(f[i] == s[i]);
            }
        }
    } else {
        assert(s.take(s.len() as int) == s);
    }
}

pub proof fn lemma_trim_start_starts(s: Seq<char>, k: CharClass)
    ensures
        trim_start_by(s, k).len() <= s.len(),
        trim_start_by(s, k) == s.skip(s.len() - trim_start_by(s, k).len()),
        trim_start_by(s, k).len() > 0 ==> !in_class(k, trim_start_by(s, k)[0]),
        trim_start_by(trim_start_by(s, k), k) == trim_start_by(s, k),
    decreases s.len(),
{
    if s.len() > 0 && in_class(k, s[0]) {
        let f = s.drop_first();
        lemma_trim_start_starts(f, k);
        assert(f.skip(f.len() - trim_start_by(f, k).len()) == s.skip(
            s.len() - trim_start_by(f, k).len(),
        ));
    } else {
        assert(s.skip(0) == s);
    }
}

/// Nothing stays of a single character of the class.
pub proof fn lemma_trim_single(c: char, k: CharClass)
    requires
        in_class(k, c),
    ensures
        trim_start_by(seq![c], k) == Seq::<char>::empty(),
        trim_end_by(seq![c], k) == Seq::<char>::empty(),
{
    let e = Seq::<char>::empty();
    assert(seq![c].drop_first() == e);
    assert(seq![c].drop_last() == e);
    assert(trim_start_by(e, k) == e);
    assert(trim_end_by(e, k) == e);
}

/// Drops the leading characters of the class `k`.
pub fn trim_start_class<'a>(s: &'a str, k: CharClass) -> (r: &'a str)
    ensures
        r@ == trim_start_by(s@, k),
{
    let cs = chars_of(s);
    let mut i: usize = 0;
    proof {
        assert(s@.skip(0) == s@);
    }
    while i < cs.len() && char_in(k, cs[i])
        invariant
            i <= cs.len(),
            cs@ == s@,
            trim_start_by(s@, k) == trim_start_by(s@.skip(i as int), k),
        decreases cs.len() - i,
    {
        proof {
            assert(s@.skip(i as int).drop_first() == s@.skip(i + 1));
        }
        i = i + 1;
    }
    proof {
        assert(s@.skip(i as int) == s@.subrange(i as int, s@.len() as int));
    }
    s.substring_char(i, cs.len())
}

/// Drops the trailing characters of the class `k`.
pub fn trim_end_class<'a>(s: &'a str, k: CharClass) -> (r: &'a str)
    ensures
        r@ == trim_end_by(s@, k),
{
    let cs = chars_of(s);
    let mut i: usize = cs.len();
    proof {
        assert(s@.take(s@.len() as int) == s@);
    }
    while i > 0 && char_in(k, cs[i - 1])
        invariant
            i <= cs.len(),
            cs@ == s@,
            trim_end_by(s@, k) == trim_end_by(s@.take(i as int), k),
        decreases i,
    {
        proof {
            assert(s@.take(i as int).drop_last() == s@.take(i - 1));
        }
        i = i - 1;
    }
    proof {
        assert(s@.take(i as int) == s@.subrange(0, i as int));
    }
    s.substring_char(0, i)
}

/// Drops the leading and trailing characters of the class `k`.
pub fn trim_class<'a>(s: &'a str, k: CharClass) -> (r: &'a str)
    ensures
        r@ == trim_by(s@, k),
{
    trim_end_class(trim_start_class(s, k), k)
}

/// Drops the leading and trailing white space.
pub fn trim<'a>(s: &'a str) -> (r: &'a str)
    ensures
        r@ == trimmed(s@),
{
    trim_class(s, CharClass::Space)
}

// ---------------------------------------------------------------------------
// Prefixes, suffixes, searching
// ---------------------------------------------------------------------------

/// Whether `s` begins with `p`.
pub open spec fn starts_with(s: Seq<char>, p: Seq<char>) -> bool {
    p.len() <= s.len() && s.take(p.len() as int) == p
}

/// Whether `s` ends with `p`.
pub open spec fn ends_with(s: Seq<char>, p: Seq<char>) -> bool {
    p.len() <= s.len() && s.skip(s.len() - p.len()) == p
}

/// Whether `p` stands in `s` at the position `i`.
pub open spec fn occurs_at(s: Seq<char>, p: Seq<char>, i: int) -> bool {
    0 <= i && i + p.len() <= s.len() && s.subrange(i, i + p.len()) == p
}

/// Whether `p` stands in `s` somewhere.
pub open spec fn has_part(s: Seq<char>, p: Seq<char>) -> bool {
    exists|i: int| occurs_at(s, p, i)
}

/// Whether `p` stands in `cs` at `at`.
pub fn occurs(cs: &[char], p: &[char], at: usize) -> (r: bool)
    requires
        at <= cs@.len(),
    ensures
        r == occurs_at(cs@, p@, at as int),
{
    if cs.len() - at < p.len() {
        return false;
    }
    let n: usize = cs.len();
    let mut j: usize = 0;
    while j < p.len()
        invariant
            j <= p@.len(),
            n == cs@.len(),
            at + p@.len() <= n,
            forall|x: int| 0 <= x < j ==> cs@[at + x] == p@[x],
        decreases p@.len() - j,
    {
        if cs[at + j] != p[j] {
            proof {
                assert(cs@.subrange(at as int, at + p@.len())[j as int] == cs@[at + j]);
            }
            return false;
        }
        j = j + 1;
    }
    proof {
        assert(cs@.subrange(at as int, at + p@.len()) =~= p@);
    }
    true
}

/// Whether `s` begins with `p`.
pub fn begins(s: &str, p: &str) -> (r: bool)
    ensures
        r == starts_with(s@, p@),
{
    let cs = chars_of(s);
    let ps = chars_of(p);
    proof {
        if p@.len() <= s@.len() {
            assert(s@.subrange(0, p@.len() as int) == s@.take(p@.len() as int));
        }
    }
    occurs(cs.as_slice(), ps.as_slice(), 0)
}

/// Whether `s` ends with `p`.
pub fn ends(s: &str, p: &str) -> (r: bool)
    ensures
        r == ends_with(s@, p@),
{
    let cs = chars_of(s);
    let ps = chars_of(p);
    if ps.len() > cs.len() {
        return false;
    }
    proof {
        assert(s@.subrange(s@.len() - p@.len(), s@.len() as int) == s@.skip(s@.len() - p@.len()));
    }
    occurs(cs.as_slice(), ps.as_slice(), cs.len() - ps.len())
}

/// The first position from `from` on at which `p` stands in `s`.
pub open spec fn find_part(s: Seq<char>, p: Seq<char>, from: int) -> Option<int>
    decreases s.len() - from,
{
    if occurs_at(s, p, from) {
        Some(from)
    } else if from >= s.len() {
        None
    } else {
        find_part(s, p, from + 1)
    }
}

/// What `find_part` finds is the first place, and it finds one where there is one.
pub proof fn lemma_find_part(s: Seq<char>, p: Seq<char>, from: int)
    requires
        0 <= from,
    ensures
        find_part(s, p, from) matches Some(i) ==> from <= i && occurs_at(s, p, i) && (forall|j: int|
            from <= j < i ==> !occurs_at(s, p, j)),
        find_part(s, p, from) is None ==> (forall|j: int| from <= j ==> !occurs_at(s, p, j)),
    decreases s.len() - from,
{
    if !occurs_at(s, p, from) && from < s.len() {
        lemma_find_part(s, p, from + 1);
    }
}

/// The first position from `from` on at which `p` stands in `cs`.
pub fn find_chars(cs: &[char], p: &[char], from: usize) -> (r: Option<usize>)
    requires
        from <= cs@.len(),
    ensures
        (match r {
            Some(i) => Some(i as int),
            None => None,
        }) == find_part(cs@, p@, from as int),
{
    let n: usize = cs.len();
    let mut i: usize = from;
    while i < n
        invariant
            from <= i <= n,
            n == cs@.len(),
            find_part(cs@, p@, from as int) == find_part(cs@, p@, i as int),
        decreases n - i,
    {
        if occurs(cs, p, i) {
            return Some(i);
        }
        i = i + 1;
    }
    if occurs(cs, p, n) {
        Some(n)
    } else {
        None
    }
}

/// Whether `p` stands in `s`.
pub fn contains(s: &str, p: &str) -> (r: bool)
    ensures
        r == has_part(s@, p@),
{
    let cs = chars_of(s);
    let ps = chars_of(p);
    proof {
        lemma_find_part(s@, p@, 0);
    }
    find_chars(cs.as_slice(), ps.as_slice(), 0).is_some()
}

// ---------------------------------------------------------------------------
// Splitting, lines, joining, replacing
// ---------------------------------------------------------------------------

/// The parts of `s` between the occurrences of the separator `sep`, taken from the left. A text
/// without the separator is one part.
pub open spec fn split_by(s: Seq<char>, sep: Seq<char>) -> Seq<Seq<char>>
    decreases s.len(),
{
    match find_part(s, sep, 0) {
        Some(i) if sep.len() > 0 && 0 <= i && i + sep.len() <= s.len() => seq![s.take(i)]
            + split_by(s.skip(i + sep.len()), sep),
        _ => seq![s],
    }
}

/// Splits `s` at the separator `sep`.
pub fn split(s: &str, sep: &str) -> (r: Vec<String>)
    requires
        sep@.len() > 0,
    ensures
        views(r@) == split_by(s@, sep@),
{
    let cs = chars_of(s);
    let ps = chars_of(sep);
    let mut r: Vec<String> = Vec::new();
    let mut start: usize = 0;
    proof {
        assert(s@.skip(0) == s@);
        assert(views(r@) + split_by(s@, sep@) == split_by(s@, sep@));
    }
    loop
        invariant
            cs@ == s@,
            ps@ == sep@,
            sep@.len() > 0,
            start <= cs.len(),
            views(r@) + split_by(s@.skip(start as int), sep@) == split_by(s@, sep@),
        decreases cs.len() - start,
    {
        let ghost before = r@;
        proof {
            lemma_find_shift(s@, sep@, start as int, 0);
            lemma_find_part(s@, sep@, start as int);
        }
        match find_chars(cs.as_slice(), ps.as_slice(), start) {
            Some(i) => {
                r.push(string_of(cs.as_slice(), start, i));
                proof {
                    let tail = s@.skip(start as int);
                    assert(tail.take(i - start) == s@.subrange(start as int, i as int));
                    assert(tail.skip(i - start + sep@.len()) == s@.skip(i + sep@.len()));
                    assert(views(r@) == views(before).push(s@.subrange(start as int, i as int)));
                    assert(views(before) + (seq![tail.take(i - start)] + split_by(
                        tail.skip(i - start + sep@.len()),
                        sep@,
                    )) == views(r@) + split_by(s@.skip(i + sep@.len()), sep@));
                }
                start = i + ps.len();
            },
            None => {
                r.push(string_of(cs.as_slice(), start, cs.len()));
                proof {
                    let tail = s@.skip(start as int);
                    assert(tail == s@.subrange(start as int, s@.len() as int));
                    assert(views(r@) == views(before) + seq![tail]);
                }
                return r;
            },
        }
    }
}

/// Searching a tail of `s` is searching `s` from further on.
pub proof fn lemma_find_shift(s: Seq<char>, p: Seq<char>, k: int, from: int)
    requires
        0 <= k <= s.len(),
        0 <= from,
    ensures
        find_part(s.skip(k), p, from) == (match find_part(s, p, k + from) {
            Some(i) => Some(i - k),
            None => None,
        }),
    decreases s.len() - k - from,
{
    let t = s.skip(k);
    if from + p.len() <= t.len() {
        assert(t.subrange(from, from + p.len()) == s.subrange(k + from, k + from + p.len()));
    }
    if !occurs_at(t, p, from) && from < t.len() {
        lemma_find_shift(s, p, k, from + 1);
    }
}

/// A line without the carriage return that ends it.
pub open spec fn strip_cr(s: Seq<char>) -> Seq<char> {
    if s.len() > 0 && s.last() == '\r' {
        s.drop_last()
    } else {
        s
    }
}

/// The first position of `c` in `s`, or the length of `s`.
pub open spec fn first_of(s: Seq<char>, c: char) -> int
    decreases s.len(),
{
    if s.len() == 0 || s[0] == c {
        0
    } else {
        1 + first_of(s.drop_first(), c)
    }
}

/// `first_of` is the first position.
pub proof fn lemma_first_of(s: Seq<char>, c: char)
    ensures
        0 <= first_of(s, c) <= s.len(),
        first_of(s, c) < s.len() ==> s[first_of(s, c)] == c,
        forall|j: int| 0 <= j < first_of(s, c) ==> s[j] != c,
    decreases s.len(),
{
    if s.len() > 0 && s[0] != c {
        let t = s.drop_first();
        lemma_first_of(t, c);
        assert forall|j: int| 0 <= j < first_of(s, c) implies s[j] != c by {
            if j > 0 {
                assert(s[j] == t[j - 1]);
            }
        }
    }
}

/// A position before which `c` does not stand and at which it does (or where `s` ends) is the
/// first.
pub proof fn lemma_first_of_is(s: Seq<char>, c: char, i: int)
    requires
        0 <= i <= s.len(),
        i < s.len() ==> s[i] == c,
        forall|j: int| 0 <= j < i ==> s[j] != c,
    ensures
        first_of(s, c) == i,
{
    lemma_first_of(s, c);
}

/// The lines of a text. A line feed ends a line, a carriage return before it belongs to the
/// ending, and a text that ends in a line feed has no empty line after it.
pub open spec fn lines_of(s: Seq<char>) -> Seq<Seq<char>>
    decreases s.len(),
{
    let i = first_of(s, '\n');
    if s.len() == 0 {
        seq![]
    } else if 0 <= i < s.len() {
        seq![strip_cr(s.take(i))] + lines_of(s.skip(i + 1))
    } else {
        seq![s]
    }
}

/// The lines of `s`.
pub fn lines(s: &str) -> (r: Vec<String>)
    ensures
        views(r@) == lines_of(s@),
{
    let cs = chars_of(s);
    let n: usize = cs.len();
    let mut r: Vec<String> = Vec::new();
    let mut start: usize = 0;
    let mut i: usize = 0;
    proof {
        assert(s@.skip(0) == s@);
        assert(views(r@) + lines_of(s@) == lines_of(s@));
    }
    while i < n
        invariant
            cs@ == s@,
            n == cs.len(),
            start <= i <= n,
            forall|j: int| start <= j < i ==> s@[j] != '\n',
            views(r@) + lines_of(s@.skip(start as int)) == lines_of(s@),
        decreases n - i,
    {
        if cs[i] == '\n' {
            let mut end: usize = i;
            if i > start && cs[i - 1] == '\r' {
                end = i - 1;
            }
            let ghost before = r@;
            r.push(string_of(cs.as_slice(), start, end));
            proof {
                let tail = s@.skip(start as int);
                lemma_first_of_is(tail, '\n', i - start);
                assert(tail.take(i - start) == s@.subrange(start as int, i as int));
                assert(strip_cr(tail.take(i - start)) == s@.subrange(start as int, end as int));
                assert(tail.skip(i - start + 1) == s@.skip(i + 1));
                assert(views(r@) == views(before).push(s@.subrange(start as int, end as int)));
                assert(views(before) + (seq![strip_cr(tail.take(i - start))] + lines_of(
                    tail.skip(i - start + 1),
                )) == views(r@) + lines_of(s@.skip(i + 1)));
            }
            start = i + 1;
        }
        i = i + 1;
    }
    if start < n {
        let ghost before = r@;
        r.push(string_of(cs.as_slice(), start, n));
        proof {
            let tail = s@.skip(start as int);
            lemma_first_of_is(tail, '\n', n - start);
            assert(tail == s@.subrange(start as int, n as int));
            assert(views(r@) == views(before) + seq![tail]);
        }
    } else {
        proof {
            assert(s@.skip(start as int) == Seq::<char>::empty());
            assert(views(r@) + lines_of(s@.skip(start as int)) == views(r@));
        }
    }
    r
}

/// The texts `parts` with `sep` between them.
pub open spec fn joined(parts: Seq<Seq<char>>, sep: Seq<char>) -> Seq<char>
    decreases parts.len(),
{
    if parts.len() == 0 {
        Seq::empty()
    } else if parts.len() == 1 {
        parts[0]
    } else {
        joined(parts.drop_last(), sep) + sep + parts.last()
    }
}

/// Joins `parts[..n]` with `sep`.
pub fn join(parts: &Vec<String>, n: usize, sep: &str) -> (r: String)
    requires
        n <= parts@.len(),
    ensures
        r@ == joined(views(parts@).take(n as int), sep@),
{
    let mut r: String = String::new();
    let mut i: usize = 0;
    while i < n
        invariant
            i <= n <= parts@.len(),
            r@ == joined(views(parts@).take(i as int), sep@),
        decreases n - i,
    {
        if i > 0 {
            r.append(sep);
        }
        r.append(parts[i].as_str());
        i = i + 1;
        proof {
            let now = views(parts@).take(i as int);
            assert(now.drop_last() == views(parts@).take(i - 1));
            assert(now.last() == parts@[i - 1]@);
            assert(joined(views(parts@).take(0), sep@) == Seq::<char>::empty());
            if i == 1 {
                assert(Seq::<char>::empty() + now[0] == now[0]);
            }
        }
    }
    r
}

/// `s` with every occurrence of `pat`, taken from the left, replaced by `by`.
pub open spec fn replaced(s: Seq<char>, pat: Seq<char>, by: Seq<char>) -> Seq<char> {
    joined(split_by(s, pat), by)
}

/// Replaces every occurrence of `pat` by `by`.
pub fn replace(s: &str, pat: &str, by: &str) -> (r: String)
    requires
        pat@.len() > 0,
    ensures
        r@ == replaced(s@, pat@, by@),
{
    let parts = split(s, pat);
    proof {
        assert(views(parts@).take(parts@.len() as int) == views(parts@));
    }
    let n: usize = parts.len();
    join(&parts, n, by)
}

// ---------------------------------------------------------------------------
// Numbers
// ---------------------------------------------------------------------------

/// The decimal digit `d`.
pub open spec fn digit(d: int) -> char {
    (0x30 + d) as char
}

/// The decimal digit `d`.
pub fn digit_char(d: u64) -> (r: char)
    requires
        d < 10,
    ensures
        r == digit(d as int),
{
    match d {
        0 => '0',
        1 => '1',
        2 => '2',
        3 => '3',
        4 => '4',
        5 => '5',
        6 => '6',
        7 => '7',
        8 => '8',
        _ => '9',
    }
}

/// A number in decimal, without leading zeros.
pub open spec fn decimal(n: int) -> Seq<char>
    decreases n,
{
    if n < 10 {
        seq![digit(n)]
    } else {
        decimal(n / 10).push(digit(n % 10))
    }
}

/// A signed number in decimal.
pub open spec fn signed_decimal(n: int) -> Seq<char> {
    if n < 0 {
        seq!['-'] + decimal(-n)
    } else {
        decimal(n)
    }
}

/// Writes a number in decimal.
pub fn decimal_string(n: u64) -> (r: String)
    ensures
        r@ == decimal(n as int),
    decreases n,
{
    if n < 10 {
        let mut r: String = String::new();
        r.push(digit_char(n));
        proof {
            assert(r@ == seq![digit(n as int)]);
        }
        r
    } else {
        let mut r = decimal_string(n / 10);
        r.push(digit_char(n % 10));
        r
    }
}

/// Writes a wide number in decimal.
pub fn decimal_string_wide(n: u128) -> (r: String)
    ensures
        r@ == decimal(n as int),
    decreases n,
{
    if n < 10 {
        let mut r: String = String::new();
        r.push(digit_char(n as u64));
        proof {
            assert(r@ == seq![digit(n as int)]);
        }
        r
    } else {
        let mut r = decimal_string_wide(n / 10);
        r.push(digit_char((n % 10) as u64));
        r
    }
}

/// A number in decimal consists of digits, at least one.
pub proof fn lemma_decimal_digits(n: int)
    requires
        0 <= n,
    ensures
        decimal(n).len() >= 1,
        forall|i: int| 0 <= i < decimal(n).len() ==> '0' <= #[trigger] decimal(n)[i] <= '9',
    decreases n,
{
    if n >= 10 {
        lemma_decimal_digits(n / 10);
    }
}

/// Ten to the power `k`.
pub open spec fn ten_to(k: int) -> int
    decreases k,
{
    if k <= 0 {
        1
    } else {
        10 * ten_to(k - 1)
    }
}

/// A number below ten to the power `k` has at most `k` digits.
pub proof fn lemma_decimal_below(n: int, k: int)
    requires
        0 <= n < ten_to(k),
        1 <= k,
    ensures
        decimal(n).len() <= k,
    decreases k,
{
    if n >= 10 {
        if k == 1 {
            assert(ten_to(1) == 10 * ten_to(0));
        }
        lemma_decimal_below(n / 10, k - 1);
    }
}

/// The number of digits of a number of at most seventy bits.
pub proof fn lemma_decimal_len(n: int)
    requires
        0 <= n < 0x1_0000_0000_0000_0000_0,
    ensures
        decimal(n).len() <= 22,
{
    assert(ten_to(22) == 10_000_000_000_000_000_000_000) by {
        reveal_with_fuel(ten_to, 23);
    }
    lemma_decimal_below(n, 22);
}

/// Writes a signed number in decimal.
pub fn signed_decimal_string(n: i64) -> (r: String)
    ensures
        r@ == signed_decimal(n as int),
{
    if n < 0 {
        let mut r: String = String::new();
        r.push('-');
        let size: u64 = if n == i64::MIN {
            0x8000_0000_0000_0000
        } else {
            (-n) as u64
        };
        let digits = decimal_string(size);
        r.append(digits.as_str());
        proof {
            assert(r@ == seq!['-'] + decimal(-(n as int)));
        }
        r
    } else {
        decimal_string(n as u64)
    }
}

/// A number below 100 in two digits.
pub open spec fn two_digits(n: int) -> Seq<char> {
    seq![digit(n / 10), digit(n % 10)]
}

/// A number of tenths as a decimal fraction with one digit after the point.
pub open spec fn tenths_text(n: int) -> Seq<char> {
    decimal(n / 10) + seq!['.', digit(n % 10)]
}

/// Writes a number of tenths with one digit after the point.
pub fn tenths_string(n: u32) -> (r: String)
    ensures
        r@ == tenths_text(n as int),
{
    let mut r = decimal_string((n / 10) as u64);
    r.push('.');
    r.push(digit_char((n % 10) as u64));
    proof {
        assert(r@ == tenths_text(n as int));
    }
    r
}

// ---------------------------------------------------------------------------
// Shortening
// ---------------------------------------------------------------------------

/// The number of bytes that UTF-8 takes for a character.
pub open spec fn utf8_width(c: char) -> int {
    if c as u32 <= 0x7f {
        1
    } else if c as u32 <= 0x7ff {
        2
    } else if c as u32 <= 0xffff {
        3
    } else {
        4
    }
}

/// The number of bytes that UTF-8 takes for a text.
pub open spec fn byte_len(s: Seq<char>) -> int
    decreases s.len(),
{
    if s.len() == 0 {
        0
    } else {
        byte_len(s.drop_last()) + utf8_width(s.last())
    }
}

/// `byte_len` is the length of the encoding, and adds up over concatenation.
pub proof fn lemma_byte_len_add(a: Seq<char>, b: Seq<char>)
    ensures
        byte_len(a + b) == byte_len(a) + byte_len(b),
    decreases b.len(),
{
    if b.len() == 0 {
        assert(a + b == a);
    } else {
        lemma_byte_len_add(a, b.drop_last());
        assert((a + b).drop_last() == a + b.drop_last());
    }
}

/// `byte_len` is the length of the UTF-8 encoding.
pub proof fn lemma_byte_len(s: Seq<char>)
    ensures
        byte_len(s) == encode_utf8(s).len(),
    decreases s.len(),
{
    if s.len() > 0 {
        lemma_byte_len(s.drop_first());
        lemma_byte_len_add(seq![s[0]], s.drop_first());
        assert(seq![s[0]] + s.drop_first() == s);
        assert(byte_len(seq![s[0]]) == utf8_width(s[0])) by {
            assert(seq![s[0]].drop_last() == Seq::<char>::empty());
            assert(byte_len(Seq::<char>::empty()) == 0);
        }
        vstd::utf8::char_is_scalar(s[0]);
    }
}

/// A longer prefix takes at least as many bytes.
pub proof fn lemma_byte_len_mono(s: Seq<char>, i: int, j: int)
    requires
        0 <= i <= j <= s.len(),
    ensures
        byte_len(s.take(i)) + (j - i) <= byte_len(s.take(j)),
    decreases j - i,
{
    if i < j {
        lemma_byte_len_mono(s, i, j - 1);
        assert(s.take(j).drop_last() == s.take(j - 1));
    }
}

/// The number of characters of the longest prefix of `s` that takes at most `max` bytes.
pub open spec fn fitting_chars(s: Seq<char>, max: int) -> int
    decreases s.len(),
{
    if s.len() == 0 || byte_len(s) <= max {
        s.len() as int
    } else {
        fitting_chars(s.drop_last(), max)
    }
}

/// `s`, or where it takes more than `max` bytes, the longest prefix that leaves room for three
/// dots, and the dots. As many dots as fit where `max` is below three.
pub open spec fn shortened_bytes(s: Seq<char>, max: int) -> Seq<char> {
    if byte_len(s) <= max {
        s
    } else if max >= 3 {
        s.take(fitting_chars(s, max - 3)) + "..."@
    } else {
        "..."@.take(max)
    }
}

/// Each dot takes one byte.
proof fn lemma_dots_len(n: int)
    requires
        0 <= n <= 3,
    ensures
        "..."@.len() == 3,
        byte_len("..."@.take(n)) == n,
    decreases n,
{
    reveal_strlit("...");
    if n > 0 {
        lemma_dots_len(n - 1);
        assert("..."@.take(n).drop_last() == "..."@.take(n - 1));
        assert("..."@.take(n).last() == '.');
    }
}

/// `s`, or its first `max` characters.
pub open spec fn char_prefix(s: Seq<char>, max: int) -> Seq<char> {
    if s.len() <= max {
        s
    } else {
        s.take(max)
    }
}


/// `fitting_chars` is the `i` at which the prefix still fits and one more character does not.
pub proof fn lemma_fitting_chars(s: Seq<char>, max: int, i: int)
    requires
        0 <= i <= s.len(),
        byte_len(s.take(i)) <= max || i == 0,
        i < s.len() ==> byte_len(s.take(i + 1)) > max,
    ensures
        fitting_chars(s, max) == i,
    decreases s.len(),
{
    if i == s.len() {
        assert(s.take(i) == s);
    } else {
        lemma_byte_len_mono(s, i + 1, s.len() as int);
        assert(s.take(s.len() as int) == s);
        let t = s.drop_last();
        assert(t.take(i) == s.take(i));
        if i < t.len() {
            assert(t.take(i + 1) == s.take(i + 1));
        }
        lemma_fitting_chars(t, max, i);
    }
}

/// The number of bytes of `s`.
pub fn byte_length(s: &str) -> (r: usize)
    ensures
        r == byte_len(s@),
{
    proof {
        lemma_byte_len(s@);
    }
    s.as_bytes().len()
}

/// The number of bytes that UTF-8 takes for a character.
pub fn char_width(c: char) -> (r: usize)
    ensures
        r == utf8_width(c),
{
    let u: u32 = c as u32;
    if u <= 0x7f {
        1
    } else if u <= 0x7ff {
        2
    } else if u <= 0xffff {
        3
    } else {
        4
    }
}

/// Shortens `s` to `max` bytes, ending in three dots where something was left out.
pub fn truncate_on_char_boundary(s: &str, max: usize) -> (r: String)
    ensures
        r@ == shortened_bytes(s@, max as int),
        byte_len(r@) <= max,
{
    let total: usize = byte_length(s);
    if total <= max {
        return s.to_owned();
    }
    if max < 3 {
        proof {
            lemma_dots_len(max as int);
        }
        let dots = chars_of("...");
        return string_of(dots.as_slice(), 0, max);
    }
    let room: usize = max - 3;
    let cs = chars_of(s);
    let n: usize = cs.len();
    let mut i: usize = 0;
    let mut used: usize = 0;
    proof {
        assert(s@.take(0) == Seq::<char>::empty());
        assert(s@.take(s@.len() as int) == s@);
    }
    while i < n
        invariant_except_break
            byte_len(s@.take(i as int)) <= room,
        invariant
            cs@ == s@,
            n == cs.len(),
            i <= n,
            total == byte_len(s@),
            room < total,
            used == byte_len(s@.take(i as int)),
            used <= room,
        ensures
            i < n ==> byte_len(s@.take(i + 1)) > room,
        decreases n - i,
    {
        let w: usize = char_width(cs[i]);
        proof {
            assert(s@.take(i + 1).drop_last() == s@.take(i as int));
            lemma_byte_len_mono(s@, i + 1, n as int);
            assert(s@.take(n as int) == s@);
        }
        if used + w > room {
            break;
        }
        used = used + w;
        i = i + 1;
    }
    proof {
        lemma_fitting_chars(s@, room as int, i as int);
        lemma_dots_len(3);
        assert("..."@.take(3) == "..."@);
        lemma_byte_len_add(s@.take(i as int), "..."@);
    }
    let mut r = string_of(cs.as_slice(), 0, i);
    r.append("...");
    r
}

// ---------------------------------------------------------------------------
// Comparing without regard to case
// ---------------------------------------------------------------------------

/// Whether `c` is written `low` in lower case, where `low` is an ASCII character other than `i`.
/// Besides the two cases of an ASCII letter this holds of the Kelvin sign, whose lower case is
/// `k`; no other character has a single ASCII character for its lower case.
pub open spec fn lowers_to(c: char, low: char) -> bool {
    ascii_lower_char(c) == low || (c as u32 == 0x212a && low == 'k')
}

/// Whether `s` in lower case is `low`, a text in lower case without the letter `i`.
pub open spec fn reads_as(s: Seq<char>, low: Seq<char>) -> bool {
    s.len() == low.len() && forall|i: int| 0 <= i < s.len() ==> lowers_to(#[trigger] s[i], low[i])
}

/// Whether `s` in lower case is `low`.
pub fn read_as(s: &str, low: &str) -> (r: bool)
    ensures
        r == reads_as(s@, low@),
{
    let a = chars_of(s);
    let b = chars_of(low);
    if a.len() != b.len() {
        return false;
    }
    let mut i: usize = 0;
    while i < a.len()
        invariant
            i <= a.len(),
            a.len() == b.len(),
            a@ == s@,
            b@ == low@,
            forall|j: int| 0 <= j < i ==> lowers_to(#[trigger] s@[j], low@[j]),
        decreases a.len() - i,
    {
        if !(lower_char(a[i]) == b[i] || (a[i] as u32 == 0x212a && b[i] == 'k')) {
            proof {
                assert(!lowers_to(s@[i as int], low@[i as int]));
            }
            return false;
        }
        i = i + 1;
    }
    true
}

/// Whether `s` begins with `low` when the ASCII letters of `s` are lowered.
pub open spec fn starts_lowered(s: Seq<char>, low: Seq<char>) -> bool {
    starts_with(ascii_lower(s), low)
}

/// Whether `s` begins with `low` when its ASCII letters are lowered.
pub fn begins_lowered(s: &str, low: &str) -> (r: bool)
    ensures
        r == starts_lowered(s@, low@),
{
    begins(lower(s).as_str(), low)
}

/// `s` from its character `from` on.
pub fn tail<'a>(s: &'a str, from: usize) -> (r: &'a str)
    requires
        from <= s@.len(),
    ensures
        r@ == s@.skip(from as int),
{
    let n: usize = s.unicode_len();
    proof {
        assert(s@.skip(from as int) == s@.subrange(from as int, s@.len() as int));
    }
    s.substring_char(from, n)
}

/// Shortens `s` to its first `max` characters.
pub fn shorten_chars(s: &str, max: usize) -> (r: String)
    ensures
        r@ == char_prefix(s@, max as int),
{
    let n: usize = s.unicode_len();
    if n <= max {
        s.to_owned()
    } else {
        proof {
            assert(s@.subrange(0, max as int) == s@.take(max as int));
        }
        s.substring_char(0, max).to_owned()
    }
}

/// `s` up to the first place where `sep` stands.
pub open spec fn before_part(s: Seq<char>, sep: Seq<char>) -> Seq<char> {
    match find_part(s, sep, 0) {
        Some(i) => s.take(i),
        None => s,
    }
}

/// Cuts `s` at the first place where `sep` stands.
pub fn cut_before<'a>(s: &'a str, sep: &str) -> (r: &'a str)
    ensures
        r@ == before_part(s@, sep@),
{
    let cs = chars_of(s);
    let ps = chars_of(sep);
    proof {
        lemma_find_part(s@, sep@, 0);
    }
    match find_chars(cs.as_slice(), ps.as_slice(), 0) {
        Some(i) => {
            proof {
                assert(s@.subrange(0, i as int) == s@.take(i as int));
            }
            s.substring_char(0, i)
        },
        None => s,
    }
}

/// The words of a text: its longest parts without white space.
pub open spec fn words_of(s: Seq<char>) -> Seq<Seq<char>>
    decreases s.len(),
{
    if s.len() == 0 {
        seq![]
    } else {
        let front = s.drop_last();
        let before = words_of(front);
        if is_space(s.last()) {
            before
        } else if front.len() > 0 && !is_space(front.last()) {
            before.drop_last().push(before.last().push(s.last()))
        } else {
            before.push(seq![s.last()])
        }
    }
}

/// A text that ends outside white space has a last word.
pub proof fn lemma_words_end(s: Seq<char>)
    ensures
        s.len() > 0 && !is_space(s.last()) ==> words_of(s).len() > 0,
    decreases s.len(),
{
    if s.len() > 0 {
        lemma_words_end(s.drop_last());
    }
}

/// The words of `s`.
pub fn words(s: &str) -> (r: Vec<String>)
    ensures
        views(r@) == words_of(s@),
{
    let cs = chars_of(s);
    let mut r: Vec<String> = Vec::new();
    let mut inside: bool = false;
    let mut i: usize = 0;
    proof {
        assert(s@.take(0) == Seq::<char>::empty());
        assert(views(r@) =~= seq![]);
    }
    while i < cs.len()
        invariant
            i <= cs.len(),
            cs@ == s@,
            views(r@) == words_of(s@.take(i as int)),
            inside == (i > 0 && !is_space(s@[i - 1])),
            inside ==> r@.len() > 0,
        decreases cs.len() - i,
    {
        let c: char = cs[i];
        let ghost before = r@;
        proof {
            let now = s@.take(i + 1);
            assert(now.drop_last() == s@.take(i as int));
            assert(now.last() == c);
            if i > 0 {
                assert(s@.take(i as int).last() == s@[i - 1]);
            }
        }
        if char_is_space(c) {
            inside = false;
        } else if inside {
            let last: Option<String> = r.pop();
            match last {
                Some(mut word) => {
                    let ghost w = word@;
                    word.push(c);
                    r.push(word);
                    proof {
                        assert(views(before).last() == w);
                        assert(views(r@) =~= views(before).drop_last().push(w.push(c)));
                    }
                },
                None => {},
            }
        } else {
            let mut word: String = String::new();
            word.push(c);
            proof {
                assert(word@ =~= seq![c]);
            }
            r.push(word);
            proof {
                assert(views(r@) =~= views(before).push(seq![c]));
            }
            inside = true;
        }
        i = i + 1;
    }
    proof {
        assert(s@.take(s@.len() as int) == s@);
    }
    r
}

} // verus!
