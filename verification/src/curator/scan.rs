//! # Finding JSON in a reply
//!
//! A model wraps the JSON that it was asked for into prose, which may hold brackets of its own. So
//! every opening bracket of the reply is tried, from the left: the text up to the bracket that
//! closes it may be what was asked for.
use vstd::prelude::*;
use crate::text::{byte_length, char_width, chars_of, decimal_string, string_of};
#[allow(unused_imports)]
use crate::text::{
    byte_len, decimal, lemma_byte_len, lemma_byte_len_add, lemma_byte_len_mono, utf8_width,
};
#[allow(unused_imports)]
use vstd::utf8::{encode_scalar, encode_utf8};

verus! {

/// Where a scan of JSON stands.
pub struct Scan {
    /// How many brackets are open.
    pub depth: int,
    /// Whether the scan is inside a string.
    pub in_string: bool,
    /// Whether the character before is a backslash that escapes the next one.
    pub escaped: bool,
}

/// Where a scan stands after one more character. Brackets inside a string do not count.
pub open spec fn scanned(a: Scan, c: char, open: char, close: char) -> Scan {
    if a.in_string {
        if a.escaped {
            Scan { escaped: false, ..a }
        } else if c == '\\' {
            Scan { escaped: true, ..a }
        } else if c == '"' {
            Scan { in_string: false, ..a }
        } else {
            a
        }
    } else if c == '"' {
        Scan { in_string: true, ..a }
    } else if c == open {
        Scan { depth: a.depth + 1, ..a }
    } else if c == close {
        Scan { depth: a.depth - 1, ..a }
    } else {
        a
    }
}

/// Where a scan that begins at `start` stands before the place `i`.
pub open spec fn scan_at(s: Seq<char>, start: int, i: int, open: char, close: char) -> Scan
    decreases i - start,
{
    if i <= start {
        Scan { depth: 0, in_string: false, escaped: false }
    } else {
        scanned(scan_at(s, start, i - 1, open, close), s[i - 1], open, close)
    }
}

/// Whether the bracket at `i` closes the one at `start`: it stands outside of strings, and no
/// other bracket is left open.
pub open spec fn closes(s: Seq<char>, start: int, i: int, open: char, close: char) -> bool {
    let a = scan_at(s, start, i, open, close);
    start <= i < s.len() && s[i] == close && close != open && s[i] != '"' && !a.in_string && a.depth
        == 1
}

/// The place of the first bracket from `i` on that closes the one at `start`.
pub open spec fn closing_from(s: Seq<char>, start: int, i: int, open: char, close: char) -> Option<
    int,
>
    decreases s.len() - i,
{
    if i >= s.len() {
        None
    } else if closes(s, start, i, open, close) {
        Some(i)
    } else {
        closing_from(s, start, i + 1, open, close)
    }
}

/// The place of the bracket that closes the one at `start`.
pub open spec fn closing(s: Seq<char>, start: int, open: char, close: char) -> Option<int> {
    closing_from(s, start, start, open, close)
}

/// The place of the bracket that closes the one at `start`.
pub(crate) fn find_closing(cs: &Vec<char>, start: usize, open: char, close: char) -> (r: Option<usize>)
    requires
        start <= cs.len(),
        open != close,
        close != '"',
        open != '"',
    ensures
        match closing(cs@, start as int, open, close) {
            Some(i) => r == Some(i as usize) && start <= i < cs@.len(),
            None => r is None,
        },
{
    let mut depth: i128 = 0;
    let mut in_string: bool = false;
    let mut escaped: bool = false;
    let mut i: usize = start;
    while i < cs.len()
        invariant
            start <= i <= cs@.len(),
            open != close,
            close != '"',
            open != '"',
            -(i - start) <= depth <= i - start,
            scan_at(cs@, start as int, i as int, open, close) == (Scan {
                depth: depth as int,
                in_string,
                escaped,
            }),
            closing(cs@, start as int, open, close) == closing_from(
                cs@,
                start as int,
                i as int,
                open,
                close,
            ),
        decreases cs@.len() - i,
    {
        let c: char = cs[i];
        if in_string {
            if escaped {
                escaped = false;
            } else if c == '\\' {
                escaped = true;
            } else if c == '"' {
                in_string = false;
            }
        } else if c == '"' {
            in_string = true;
        } else if c == open {
            depth = depth + 1;
        } else if c == close {
            if depth == 1 {
                return Some(i);
            }
            depth = depth - 1;
        }
        i = i + 1;
    }
    None
}

/// The bytes of a text, each as the character of its value.
pub open spec fn byte_chars(s: Seq<char>) -> Seq<char> {
    encode_utf8(s).map_values(|b: u8| b as char)
}

/// The bytes of a text, each as the character of its value.
fn bytes_of(raw: &str) -> (r: Vec<char>)
    ensures
        r@ == byte_chars(raw@),
{
    let bytes = raw.as_bytes();
    let mut r: Vec<char> = Vec::new();
    let mut i: usize = 0;
    while i < bytes.len()
        invariant
            i <= bytes@.len(),
            bytes@ == encode_utf8(raw@),
            r@ == byte_chars(raw@).take(i as int),
        decreases bytes@.len() - i,
    {
        r.push(bytes[i] as char);
        proof {
            assert(r@ =~= byte_chars(raw@).take(i + 1));
        }
        i = i + 1;
    }
    proof {
        assert(byte_chars(raw@).take(bytes@.len() as int) =~= byte_chars(raw@));
    }
    r
}

/// The place of the `]` that closes the `[` at `start`. Both are counted in bytes. Brackets inside
/// JSON strings do not count. `None` where nothing closes it, or `start` is beyond the end.
pub fn matching_bracket_end(raw: &str, start: usize) -> (r: Option<usize>)
    ensures
        match closing(byte_chars(raw@), start as int, '[', ']') {
            Some(i) => r == Some(i as usize) && start <= i < byte_len(raw@),
            None => r is None,
        },
{
    let cs = bytes_of(raw);
    proof {
        lemma_byte_len(raw@);
    }
    if start > cs.len() {
        return None;
    }
    find_closing(&cs, start, '[', ']')
}

/// The place of the `}` that closes the `{` at `start`. Both are counted in bytes. Braces inside
/// JSON strings do not count. `None` where nothing closes it, or `start` is beyond the end.
pub fn matching_brace_end(raw: &str, start: usize) -> (r: Option<usize>)
    ensures
        match closing(byte_chars(raw@), start as int, '{', '}') {
            Some(i) => r == Some(i as usize) && start <= i < byte_len(raw@),
            None => r is None,
        },
{
    let cs = bytes_of(raw);
    proof {
        lemma_byte_len(raw@);
    }
    if start > cs.len() {
        return None;
    }
    find_closing(&cs, start, '{', '}')
}

/// One opening bracket of a reply.
#[derive(Debug, Clone, PartialEq, Eq)]
pub struct Attempt {
    /// Where it stands, in bytes.
    pub offset: usize,
    /// The text up to the bracket that closes it, if one does.
    pub text: Option<String>,
}

/// What an `Attempt` holds.
pub struct AttemptView {
    pub offset: int,
    pub text: Option<Seq<char>>,
}

impl View for Attempt {
    type V = AttemptView;

    open spec fn view(&self) -> AttemptView {
        AttemptView {
            offset: self.offset as int,
            text: match self.text {
                Some(s) => Some(s@),
                None => None,
            },
        }
    }
}

/// What a list of attempts holds.
pub open spec fn attempts_of(l: Seq<Attempt>) -> Seq<AttemptView> {
    l.map_values(|a: Attempt| a@)
}

/// The attempt at the bracket at `i`.
pub open spec fn attempt_at(s: Seq<char>, i: int, open: char, close: char) -> AttemptView {
    AttemptView {
        offset: byte_len(s.take(i)),
        text: match closing(s, i, open, close) {
            Some(end) => Some(s.subrange(i, end + 1)),
            None => None,
        },
    }
}

/// The attempts at the opening brackets among the first `n` characters, from the left.
pub open spec fn attempts_to(s: Seq<char>, n: int, open: char, close: char) -> Seq<AttemptView>
    decreases n,
{
    if n <= 0 {
        seq![]
    } else if s[n - 1] == open {
        attempts_to(s, n - 1, open, close).push(attempt_at(s, n - 1, open, close))
    } else {
        attempts_to(s, n - 1, open, close)
    }
}

/// What a reply is searched for.
#[derive(Debug, Clone, Copy, PartialEq, Eq, Structural)]
pub enum Shape {
    Array,
    Object,
}

/// The attempts at all opening brackets of a reply, from the left.
pub open spec fn attempts(raw: Seq<char>, shape: Shape) -> Seq<AttemptView> {
    match shape {
        Shape::Array => attempts_to(raw, raw.len() as int, '[', ']'),
        Shape::Object => attempts_to(raw, raw.len() as int, '{', '}'),
    }
}

/// The attempts at all opening brackets.
fn list_attempts(raw: &str, open: char, close: char) -> (r: Vec<Attempt>)
    requires
        open != close,
        close != '"',
        open != '"',
    ensures
        attempts_of(r@) == attempts_to(raw@, raw@.len() as int, open, close),
{
    let cs = chars_of(raw);
    let total: usize = byte_length(raw);
    let mut r: Vec<Attempt> = Vec::new();
    let mut offset: usize = 0;
    let mut i: usize = 0;
    assert(attempts_of(r@) =~= seq![]);
    while i < cs.len()
        invariant
            i <= cs@.len(),
            cs@ == raw@,
            open != close,
            close != '"',
            open != '"',
            total == byte_len(raw@),
            offset == byte_len(raw@.take(i as int)),
            attempts_of(r@) == attempts_to(raw@, i as int, open, close),
        decreases cs@.len() - i,
    {
        let c: char = cs[i];
        let ghost before = r@;
        if c == open {
            let text = match find_closing(&cs, i, open, close) {
                Some(end) => Some(string_of(cs.as_slice(), i, end + 1)),
                None => None,
            };
            let a = Attempt { offset, text };
            let ghost v = a@;
            r.push(a);
            proof {
                assert(v == attempt_at(raw@, i as int, open, close));
                assert(attempts_of(r@) =~= attempts_of(before).push(v));
            }
        }
        proof {
            assert(raw@.take(i + 1).drop_last() == raw@.take(i as int));
            lemma_byte_len_mono(raw@, i + 1, raw@.len() as int);
            assert(raw@.take(raw@.len() as int) == raw@);
        }
        offset = offset + char_width(c);
        i = i + 1;
    }
    r
}

/// The JSON arrays or objects that a reply may hold: one attempt for each opening bracket, from the
/// left.
pub fn json_attempts(raw: &str, shape: Shape) -> (r: Vec<Attempt>)
    ensures
        attempts_of(r@) == attempts(raw@, shape),
{
    match shape {
        Shape::Array => list_attempts(raw, '[', ']'),
        Shape::Object => list_attempts(raw, '{', '}'),
    }
}

/// What is said of an opening bracket that nothing closes.
pub open spec fn unclosed_text(shape: Shape, offset: int) -> Seq<char> {
    (match shape {
        Shape::Array => "no matching ']' for '[' at byte offset "@,
        Shape::Object => "no matching '}' for '{' at byte offset "@,
    }) + decimal(offset)
}

/// What is said of an opening bracket that nothing closes.
fn unclosed(shape: Shape, offset: usize) -> (r: String)
    ensures
        r@ == unclosed_text(shape, offset as int),
{
    let mut r = match shape {
        Shape::Array => "no matching ']' for '[' at byte offset ".to_owned(),
        Shape::Object => "no matching '}' for '{' at byte offset ".to_owned(),
    };
    r.append(decimal_string(offset as u64).as_str());
    r
}

/// How many attempts have a text.
pub open spec fn closed_count(l: Seq<AttemptView>) -> nat
    decreases l.len(),
{
    if l.len() == 0 {
        0
    } else if l.last().text is Some {
        closed_count(l.drop_last()) + 1
    } else {
        closed_count(l.drop_last())
    }
}

/// What came of each attempt, given what came of reading the texts that there are. A bracket that
/// nothing closes has failed.
pub open spec fn outcomes<T>(
    l: Seq<AttemptView>,
    readings: Seq<Result<T, String>>,
    shape: Shape,
) -> Seq<Result<T, Seq<char>>>
    decreases l.len(),
{
    if l.len() == 0 {
        seq![]
    } else {
        outcomes(l.drop_last(), readings, shape).push(
            if l.last().text is None {
                Err(unclosed_text(shape, l.last().offset))
            } else {
                match readings[closed_count(l.drop_last()) as int] {
                    Ok(v) => Ok(v),
                    Err(e) => Err(e@),
                }
            },
        )
    }
}

/// The first attempt that succeeded.
pub open spec fn first_read<T>(l: Seq<Result<T, Seq<char>>>) -> Option<T>
    decreases l.len(),
{
    if l.len() == 0 {
        None
    } else {
        match first_read(l.drop_last()) {
            Some(v) => Some(v),
            None => match l.last() {
                Ok(v) => Some(v),
                Err(_) => None,
            },
        }
    }
}

/// What came of reading a reply.
pub enum Picked<T> {
    /// The first that could be read.
    Read(T),
    /// None could be read; this is what is wrong with the last.
    Failed(String),
    /// There were none.
    Nothing,
}

/// Takes the first attempt at a reply that succeeded. `readings` is what came of reading the text
/// of each attempt that has one.
pub fn pick_first<T>(raw: &str, shape: Shape, readings: Vec<Result<T, String>>) -> (r: Picked<T>)
    requires
        readings@.len() == closed_count(attempts(raw@, shape)),
    ensures
        ({
            let all = outcomes(attempts(raw@, shape), readings@, shape);
            match first_read(all) {
                Some(v) => r == Picked::Read(v),
                None => if all.len() == 0 {
                    r is Nothing
                } else {
                    r matches Picked::Failed(e) && e@ == all.last()->Err_0
                },
            }
        }),
{
    let found = json_attempts(raw, shape);
    let ghost views = attempts(raw@, shape);
    let ghost all = readings@;
    let mut rest = readings;
    let mut last: Option<String> = None;
    let mut k: usize = 0;
    let mut i: usize = 0;
    while i < found.len()
        invariant
            i <= found@.len(),
            attempts_of(found@) == views,
            views == attempts(raw@, shape),
            rest@ == all,
            all == readings@,
            all.len() == closed_count(views),
            k == closed_count(views.take(i as int)),
            first_read(outcomes(views.take(i as int), all, shape)) is None,
            last is None <==> i == 0,
            last matches Some(e) ==> outcomes(views.take(i as int), all, shape).last() == Err::<
                T,
                Seq<char>,
            >(e@),
        decreases found@.len() - i,
    {
        let ghost before = views.take(i as int);
        let ghost now = views.take(i + 1);
        proof {
            assert(now.drop_last() == before);
            assert(now.last() == views[i as int]);
            assert(views[i as int] == found@[i as int]@);
            lemma_closed_count(views, i + 1);
            assert(outcomes(now, all, shape).drop_last() == outcomes(before, all, shape));
        }
        if found[i].text.is_none() {
            last = Some(unclosed(shape, found[i].offset));
        } else {
            if rest[k].is_ok() {
                proof {
                    lemma_outcomes_prefix(views, i + 1, all, shape);
                    lemma_outcomes_len(views, all, shape);
                    lemma_first_read(outcomes(views, all, shape), i + 1);
                    lemma_outcomes_len(now, all, shape);
                }
                let read = rest.remove(k);
                if let Ok(v) = read {
                    return Picked::Read(v);
                }
                return Picked::Nothing;
            }
            if let Err(e) = &rest[k] {
                last = Some(e.clone());
            }
            assert(k < rest.len());
            k = k + 1;
        }
        i = i + 1;
    }
    proof {
        assert(views.take(views.len() as int) == views);
        lemma_outcomes_len(views, all, shape);
    }
    match last {
        Some(e) => Picked::Failed(e),
        None => Picked::Nothing,
    }
}

proof fn lemma_closed_count(l: Seq<AttemptView>, n: int)
    requires
        0 <= n <= l.len(),
    ensures
        closed_count(l.take(n)) <= closed_count(l),
    decreases l.len(),
{
    if n == l.len() {
        assert(l.take(n) == l);
    } else {
        assert(l.drop_last().take(n) == l.take(n));
        lemma_closed_count(l.drop_last(), n);
    }
}

proof fn lemma_outcomes_len<T>(
    l: Seq<AttemptView>,
    readings: Seq<Result<T, String>>,
    shape: Shape,
)
    ensures
        outcomes(l, readings, shape).len() == l.len(),
    decreases l.len(),
{
    if l.len() > 0 {
        lemma_outcomes_len(l.drop_last(), readings, shape);
    }
}

proof fn lemma_outcomes_prefix<T>(
    l: Seq<AttemptView>,
    n: int,
    readings: Seq<Result<T, String>>,
    shape: Shape,
)
    requires
        0 <= n <= l.len(),
    ensures
        outcomes(l, readings, shape).take(n) == outcomes(l.take(n), readings, shape),
    decreases l.len(),
{
    lemma_outcomes_len(l, readings, shape);
    if n == l.len() {
        assert(l.take(n) == l);
        assert(outcomes(l, readings, shape).take(n) == outcomes(l, readings, shape));
    } else {
        lemma_outcomes_len(l.drop_last(), readings, shape);
        assert(l.drop_last().take(n) == l.take(n));
        lemma_outcomes_prefix(l.drop_last(), n, readings, shape);
        assert(outcomes(l, readings, shape).take(n) == outcomes(l.drop_last(), readings, shape).take(
            n,
        ));
    }
}

/// A success among the first attempts is one of all.
proof fn lemma_first_read<T>(l: Seq<Result<T, Seq<char>>>, n: int)
    requires
        0 <= n <= l.len(),
        first_read(l.take(n)) is Some,
    ensures
        first_read(l) == first_read(l.take(n)),
    decreases l.len(),
{
    if n == l.len() {
        assert(l.take(n) == l);
    } else {
        assert(l.drop_last().take(n) == l.take(n));
        lemma_first_read(l.drop_last(), n);
    }
}

/// A text that an attempt found begins with the opening bracket and ends with the closing one.
pub proof fn law_attempt_is_bracketed(s: Seq<char>, i: int, open: char, close: char)
    requires
        0 <= i < s.len(),
        s[i] == open,
    ensures
        attempt_at(s, i, open, close).text matches Some(t) ==> t.len() >= 2 && t[0] == open
            && t.last() == close,
{
    lemma_closing(s, i, i, open, close);
    if let Some(end) = closing(s, i, open, close) {
        let t = s.subrange(i, end + 1);
        assert(t[0] == s[i]);
        assert(t.last() == s[end]);
        assert(closes(s, i, end, open, close));
    }
}

proof fn lemma_closing(s: Seq<char>, start: int, i: int, open: char, close: char)
    requires
        start <= i,
    ensures
        match closing_from(s, start, i, open, close) {
            Some(end) => i <= end < s.len() && closes(s, start, end, open, close) && forall|j: int|
                i <= j < end ==> !closes(s, start, j, open, close),
            None => forall|j: int| i <= j < s.len() ==> !closes(s, start, j, open, close),
        },
    decreases s.len() - i,
{
    if i < s.len() && !closes(s, start, i, open, close) {
        lemma_closing(s, start, i + 1, open, close);
    }
}

/// The closing bracket is the first one at which no bracket is left open.
pub proof fn law_closing_is_first(s: Seq<char>, start: int, open: char, close: char)
    ensures
        match closing(s, start, open, close) {
            Some(end) => start <= end < s.len() && closes(s, start, end, open, close) && forall|
                j: int,
            |
                start <= j < end ==> !closes(s, start, j, open, close),
            None => forall|j: int| start <= j < s.len() ==> !closes(s, start, j, open, close),
        },
{
    lemma_closing(s, start, start, open, close);
}

/// Two characters of the same number are the same.
proof fn lemma_same_char(c: char, d: char)
    requires
        c as u32 == d as u32,
    ensures
        c == d,
{
}

/// The bytes of the character at `i`: the character itself where it is ASCII, else nothing that is.
proof fn lemma_bytes_at(s: Seq<char>, i: int)
    requires
        0 <= i < s.len(),
    ensures
        byte_len(s.take(i + 1)) == byte_len(s.take(i)) + utf8_width(s[i]),
        byte_len(s.take(i + 1)) <= byte_chars(s).len(),
        s[i] as u32 <= 0x7f ==> byte_chars(s)[byte_len(s.take(i))] == s[i],
        s[i] as u32 > 0x7f ==> forall|j: int|
            byte_len(s.take(i)) <= j < byte_len(s.take(i + 1)) ==> (
            #[trigger] byte_chars(s)[j]) as u32 >= 0x80,
    decreases s.len(),
{
    lemma_byte_len(s);
    lemma_byte_len_mono(s, i + 1, s.len() as int);
    assert(s.take(s.len() as int) == s);
    assert(s.take(i + 1).drop_last() == s.take(i));
    let t = s.drop_first();
    let c = s[0] as u32;
    let first = encode_scalar(c);
    vstd::utf8::char_is_scalar(s[0]);
    assert(first.len() == utf8_width(s[0]));
    let b = encode_utf8(s);
    assert(b == first + encode_utf8(t));
    if i == 0 {
        assert(s.take(0) == Seq::<char>::empty());
        assert(c <= 0x7f ==> (c & 0x7f) as u8 == c) by (bit_vector);
        assert(0xC0 | ((c >> 6) & 0x1F) as u8 >= 0x80) by (bit_vector);
        assert(0xE0 | ((c >> 12) & 0x0F) as u8 >= 0x80) by (bit_vector);
        assert(0xF0 | ((c >> 18) & 0x7) as u8 >= 0x80) by (bit_vector);
        assert(0x80 | (c & 0x3F) as u8 >= 0x80) by (bit_vector);
        assert(0x80 | ((c >> 6) & 0x3F) as u8 >= 0x80) by (bit_vector);
        assert(0x80 | ((c >> 12) & 0x3F) as u8 >= 0x80) by (bit_vector);
        assert forall|j: int| 0 <= j < first.len() && c > 0x7f implies (
        #[trigger] byte_chars(s)[j]) as u32 >= 0x80 by {
            assert(b[j] == first[j]);
        }
        assert(b[0] == first[0]);
        assert(byte_len(s.take(0)) == 0);
        if c <= 0x7f {
            assert(first[0] == (c & 0x7f) as u8);
            assert(first[0] as u32 == c);
            assert(byte_chars(s)[0] == first[0] as char);
            let d: char = first[0] as char;
            let e: char = s[0];
            lemma_same_char(d, e);
            assert(d == e);
            assert(byte_chars(s)[0] == s[0]);
        }
    } else {
        lemma_bytes_at(t, i - 1);
        assert(seq![s[0]].drop_last() == Seq::<char>::empty());
        assert(byte_len(Seq::<char>::empty()) == 0);
        assert(byte_len(seq![s[0]]) == utf8_width(s[0]));
        assert(s.take(i) == seq![s[0]] + t.take(i - 1));
        assert(s.take(i + 1) == seq![s[0]] + t.take(i));
        lemma_byte_len_add(seq![s[0]], t.take(i - 1));
        lemma_byte_len_add(seq![s[0]], t.take(i));
        lemma_byte_len(t);
        assert(t[i - 1] == s[i]);
        let w = utf8_width(s[0]);
        assert forall|j: int| 0 <= j < byte_chars(t).len() implies #[trigger] byte_chars(t)[j]
            == byte_chars(s)[w + j] by {
            assert(b[w + j] == encode_utf8(t)[j]);
        }
        lemma_byte_len_mono(s, i, i + 1);
        lemma_byte_len_mono(t, 0, i - 1);
        lemma_byte_len_mono(t, i - 1, i);
        assert(byte_chars(t)[byte_len(t.take(i - 1))] == byte_chars(s)[byte_len(s.take(i))]);
        assert(t.take(0) == Seq::<char>::empty());
        assert forall|j: int|
            byte_len(s.take(i)) <= j < byte_len(s.take(i + 1)) && s[i] as u32 > 0x7f implies (
        #[trigger] byte_chars(s)[j]) as u32 >= 0x80 by {
            assert(byte_chars(t)[j - w] as u32 >= 0x80);
        }
    }
}

/// Whether two characters can be searched for as brackets in the bytes of a text.
pub open spec fn are_brackets(open: char, close: char) -> bool {
    &&& open != close
    &&& open as u32 <= 0x7f && close as u32 <= 0x7f
    &&& open != '"' && close != '"'
    &&& open != '\\' && close != '\\'
}

/// A scan of the bytes beyond the first of a character changes nothing.
proof fn lemma_scan_rest(s: Seq<char>, start: int, i: int, j: int, open: char, close: char)
    requires
        are_brackets(open, close),
        0 <= start <= i < s.len(),
        byte_len(s.take(i)) < j <= byte_len(s.take(i + 1)),
        s[i] as u32 > 0x7f,
    ensures
        ({
            let a = scan_at(byte_chars(s), byte_len(s.take(start)), byte_len(s.take(i)), open, close);
            scan_at(byte_chars(s), byte_len(s.take(start)), j, open, close) == scanned(
                a,
                s[i],
                open,
                close,
            )
        }),
    decreases j - byte_len(s.take(i)),
{
    lemma_bytes_at(s, i);
    lemma_byte_len_mono(s, start, i);
    let b = byte_chars(s);
    let at = byte_len(s.take(i));
    let from = byte_len(s.take(start));
    assert(b[j - 1] as u32 >= 0x80);
    if j - 1 > at {
        lemma_scan_rest(s, start, i, j - 1, open, close);
    }
    let before = scan_at(b, from, j - 1, open, close);
    assert(scan_at(b, from, j, open, close) == scanned(before, b[j - 1], open, close));
}

/// A scan of the bytes up to a character stands where a scan of the characters does.
proof fn lemma_scan_bytes(s: Seq<char>, start: int, i: int, open: char, close: char)
    requires
        are_brackets(open, close),
        0 <= start <= i <= s.len(),
    ensures
        scan_at(byte_chars(s), byte_len(s.take(start)), byte_len(s.take(i)), open, close)
            == scan_at(s, start, i, open, close),
    decreases i,
{
    if i > start {
        lemma_scan_bytes(s, start, i - 1, open, close);
        lemma_bytes_at(s, i - 1);
        lemma_byte_len_mono(s, start, i - 1);
        if s[i - 1] as u32 > 0x7f {
            lemma_scan_rest(s, start, i - 1, byte_len(s.take(i)), open, close);
        } else {
            assert(byte_len(s.take(i)) == byte_len(s.take(i - 1)) + 1);
        }
    }
}

/// A search among the bytes of a text finds what a search among its characters finds: the bracket
/// that closes the one at `start` is the same, each place being counted in its own way.
pub proof fn law_bytes_and_characters_agree(s: Seq<char>, start: int, open: char, close: char)
    requires
        are_brackets(open, close),
        0 <= start <= s.len(),
    ensures
        closing(byte_chars(s), byte_len(s.take(start)), open, close) == (match closing(
            s,
            start,
            open,
            close,
        ) {
            Some(i) => Some(byte_len(s.take(i))),
            None => None,
        }),
{
    lemma_agree_from(s, start, start, open, close);
}

proof fn lemma_agree_from(s: Seq<char>, start: int, i: int, open: char, close: char)
    requires
        are_brackets(open, close),
        0 <= start <= i <= s.len(),
    ensures
        closing_from(byte_chars(s), byte_len(s.take(start)), byte_len(s.take(i)), open, close) == (
        match closing_from(s, start, i, open, close) {
            Some(k) => Some(byte_len(s.take(k))),
            None => None,
        }),
    decreases s.len() - i,
{
    lemma_byte_len(s);
    let b = byte_chars(s);
    let from = byte_len(s.take(start));
    let at = byte_len(s.take(i));
    lemma_byte_len_mono(s, start, i);
    if i == s.len() {
        assert(s.take(i) == s);
    } else {
        lemma_bytes_at(s, i);
        lemma_scan_bytes(s, start, i, open, close);
        lemma_agree_from(s, start, i + 1, open, close);
        let next = byte_len(s.take(i + 1));
        if s[i] as u32 > 0x7f {
            lemma_skip_bytes(b, from, at, next, open, close);
        } else {
            assert(next == at + 1);
        }
    }
}

/// Bytes that are not ASCII close nothing.
proof fn lemma_skip_bytes(b: Seq<char>, from: int, i: int, end: int, open: char, close: char)
    requires
        are_brackets(open, close),
        i <= end <= b.len(),
        forall|j: int| i <= j < end ==> (#[trigger] b[j]) as u32 >= 0x80,
    ensures
        closing_from(b, from, i, open, close) == closing_from(b, from, end, open, close),
    decreases end - i,
{
    if i < end {
        assert(b[i] as u32 >= 0x80);
        lemma_skip_bytes(b, from, i + 1, end, open, close);
    }
}

} // verus!
