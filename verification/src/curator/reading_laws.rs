//! How JSON is found in what a model says: which bracket closes which, and which reading counts.
use vstd::prelude::*;
#[allow(unused_imports)]
use crate::context::inference::{lemma_first_brace, object_part};
#[allow(unused_imports)]
use crate::curator::model::{last_place, lemma_last_place, unthought};
#[allow(unused_imports)]
use crate::curator::scan::{closes, closing, first_read, law_closing_is_first, scan_at, Scan};
#[allow(unused_imports)]
use crate::text::{has_part, is_space, occurs_at, trim_end_by, trim_start_by, CharClass};

verus! {

/// Whether a text has no brackets and no quotes in it.
pub open spec fn is_flat(body: Seq<char>, open: char, close: char) -> bool {
    forall|i: int|
        0 <= i < body.len() ==> #[trigger] body[i] != open && body[i] != close && body[i] != '"'
}

/// Whether a text can stand in a string as it is.
pub open spec fn is_string_text(text: Seq<char>) -> bool {
    forall|i: int| 0 <= i < text.len() ==> #[trigger] text[i] != '"' && text[i] != '\\'
}

/// Outside of strings a text without brackets and quotes changes nothing.
proof fn lemma_scan_flat(s: Seq<char>, start: int, i: int, j: int, open: char, close: char)
    requires
        start <= i <= j <= s.len(),
        0 <= start,
        !scan_at(s, start, i, open, close).in_string,
        forall|k: int| i <= k < j ==> #[trigger] s[k] != open && s[k] != close && s[k] != '"',
    ensures
        scan_at(s, start, j, open, close) == scan_at(s, start, i, open, close),
    decreases j - i,
{
    if i < j {
        lemma_scan_flat(s, start, i, j - 1, open, close);
        assert(s[j - 1] != open && s[j - 1] != close && s[j - 1] != '"');
    }
}

/// Inside a string a text without quotes and backslashes changes nothing.
proof fn lemma_scan_string(s: Seq<char>, start: int, i: int, j: int, open: char, close: char)
    requires
        start <= i <= j <= s.len(),
        0 <= start,
        scan_at(s, start, i, open, close).in_string,
        !scan_at(s, start, i, open, close).escaped,
        forall|k: int| i <= k < j ==> #[trigger] s[k] != '"' && s[k] != '\\',
    ensures
        scan_at(s, start, j, open, close) == scan_at(s, start, i, open, close),
    decreases j - i,
{
    if i < j {
        lemma_scan_string(s, start, i, j - 1, open, close);
        assert(s[j - 1] != '"' && s[j - 1] != '\\');
    }
}

/// A bracket is closed by the next one that closes, where no other stands between them.
pub proof fn law_flat_brackets(
    a: Seq<char>,
    body: Seq<char>,
    b: Seq<char>,
    open: char,
    close: char,
)
    requires
        open != close && open != '"' && close != '"',
        is_flat(body, open, close),
    ensures
        closing(a + seq![open] + body + seq![close] + b, a.len() as int, open, close) == Some(
            (a.len() + 1 + body.len()) as int,
        ),
{
    let s = a + seq![open] + body + seq![close] + b;
    let start = a.len() as int;
    let end = start + 1 + body.len();
    assert(s[start] == open && s[end] == close);
    let one = scan_at(s, start, start + 1, open, close);
    assert(scan_at(s, start, start, open, close) == (Scan {
        depth: 0,
        in_string: false,
        escaped: false,
    }));
    assert(one == (Scan { depth: 1, in_string: false, escaped: false }));
    assert forall|k: int| start + 1 <= k < end implies #[trigger] s[k] != open && s[k] != close
        && s[k] != '"' by {
        assert(s[k] == body[k - start - 1]);
    }
    lemma_scan_flat(s, start, start + 1, end, open, close);
    assert(closes(s, start, end, open, close));
    law_closing_is_first(s, start, open, close);
    let x = closing(s, start, open, close)->0;
    if x < end {
        if x == start {
            assert(s[x] == open);
        } else {
            assert(s[x] != close);
        }
    }
}

/// Brackets inside a string do not count.
pub proof fn law_brackets_in_strings(
    a: Seq<char>,
    text: Seq<char>,
    b: Seq<char>,
    open: char,
    close: char,
)
    requires
        open != close && open != '"' && close != '"',
        is_string_text(text),
    ensures
        closing(
            a + seq![open, '"'] + text + seq!['"', close] + b,
            a.len() as int,
            open,
            close,
        ) == Some((a.len() + 3 + text.len()) as int),
{
    let s = a + seq![open, '"'] + text + seq!['"', close] + b;
    let start = a.len() as int;
    let quote = start + 2 + text.len();
    let end = quote + 1;
    assert(s[start] == open && s[start + 1] == '"' && s[quote] == '"' && s[end] == close);
    assert(scan_at(s, start, start, open, close) == (Scan {
        depth: 0,
        in_string: false,
        escaped: false,
    }));
    assert(scan_at(s, start, start + 1, open, close) == (Scan {
        depth: 1,
        in_string: false,
        escaped: false,
    }));
    let inside = Scan { depth: 1, in_string: true, escaped: false };
    assert(scan_at(s, start, start + 2, open, close) == inside);
    assert forall|k: int| start + 2 <= k < quote implies #[trigger] s[k] != '"' && s[k] != '\\' by {
        assert(s[k] == text[k - start - 2]);
    }
    lemma_scan_string(s, start, start + 2, quote, open, close);
    assert(scan_at(s, start, end, open, close) == (Scan {
        depth: 1,
        in_string: false,
        escaped: false,
    }));
    assert(closes(s, start, end, open, close));
    law_closing_is_first(s, start, open, close);
    let x = closing(s, start, open, close)->0;
    if x < end {
        if x == start {
            assert(s[x] == open);
        } else if x == start + 1 || x == quote {
            assert(s[x] == '"');
        } else {
            lemma_scan_string(s, start, start + 2, x, open, close);
        }
    }
}

/// A bracket within another does not close it: it is the outer one that the last closes.
pub proof fn law_nested_brackets(
    a: Seq<char>,
    body: Seq<char>,
    b: Seq<char>,
    open: char,
    close: char,
)
    requires
        open != close && open != '"' && close != '"',
        is_flat(body, open, close),
    ensures
        closing(
            a + seq![open, open] + body + seq![close, close] + b,
            a.len() as int,
            open,
            close,
        ) == Some((a.len() + 3 + body.len()) as int),
{
    let s = a + seq![open, open] + body + seq![close, close] + b;
    let start = a.len() as int;
    let inner = start + 2 + body.len();
    let end = inner + 1;
    assert(s[start] == open && s[start + 1] == open && s[inner] == close && s[end] == close);
    assert(scan_at(s, start, start, open, close) == (Scan {
        depth: 0,
        in_string: false,
        escaped: false,
    }));
    assert(scan_at(s, start, start + 1, open, close) == (Scan {
        depth: 1,
        in_string: false,
        escaped: false,
    }));
    assert(scan_at(s, start, start + 2, open, close) == (Scan {
        depth: 2,
        in_string: false,
        escaped: false,
    }));
    assert forall|k: int| start + 2 <= k < inner implies #[trigger] s[k] != open && s[k] != close
        && s[k] != '"' by {
        assert(s[k] == body[k - start - 2]);
    }
    lemma_scan_flat(s, start, start + 2, inner, open, close);
    assert(scan_at(s, start, end, open, close) == (Scan {
        depth: 1,
        in_string: false,
        escaped: false,
    }));
    assert(closes(s, start, end, open, close));
    law_closing_is_first(s, start, open, close);
    let x = closing(s, start, open, close)->0;
    if x < end {
        if x < start + 2 {
            assert(s[x] == open);
        } else if x < inner {
            assert(s[x] != close);
        }
    }
}

/// The first reading that succeeded counts, whatever came of the others.
pub proof fn law_first_reading_counts<T>(l: Seq<Result<T, Seq<char>>>)
    ensures
        first_read(l) is None <==> forall|i: int| 0 <= i < l.len() ==> (#[trigger] l[i]) is Err,
        first_read(l) matches Some(v) ==> exists|i: int|
            0 <= i < l.len() && #[trigger] l[i] == Ok::<T, Seq<char>>(v) && forall|j: int|
                0 <= j < i ==> (#[trigger] l[j]) is Err,
    decreases l.len(),
{
    if l.len() > 0 {
        let b = l.drop_last();
        let n = l.len() - 1;
        law_first_reading_counts(b);
        assert(forall|i: int| 0 <= i < n ==> #[trigger] b[i] == l[i]);
        match first_read(b) {
            Some(v) => {
                let i = choose|i: int|
                    0 <= i < b.len() && #[trigger] b[i] == Ok::<T, Seq<char>>(v) && forall|j: int|
                        0 <= j < i ==> (#[trigger] b[j]) is Err;
                assert(l[i] == b[i]);
                assert forall|j: int| 0 <= j < i implies (#[trigger] l[j]) is Err by {
                    assert(b[j] == l[j]);
                }
            },
            None => {
                assert forall|j: int| 0 <= j < n implies (#[trigger] l[j]) is Err by {
                    assert(b[j] == l[j]);
                }
                assert(l[n] == l.last());
            },
        }
    }
}

/// The object in an answer is found whatever the model says before and after it.
pub proof fn law_object_is_found(before: Seq<char>, body: Seq<char>, after: Seq<char>)
    requires
        forall|i: int| 0 <= i < before.len() ==> #[trigger] before[i] != '{',
        is_flat(body, '{', '}'),
        ({
            let raw = before + seq!['{'] + body + seq!['}'] + after;
            &&& !is_space(raw[0]) && !is_space(raw.last())
            &&& !has_part(raw, "</think>"@)
        }),
    ensures
        object_part(before + seq!['{'] + body + seq!['}'] + after) == seq!['{'] + body + seq!['}'],
{
    let raw = before + seq!['{'] + body + seq!['}'] + after;
    assert(trim_start_by(raw, CharClass::Space) == raw);
    assert(trim_end_by(raw, CharClass::Space) == raw);
    lemma_last_place(raw, "</think>"@, raw.len() as int);
    if last_place(raw, "</think>"@, raw.len() as int) is Some {
        assert(occurs_at(
            raw,
            "</think>"@,
            last_place(raw, "</think>"@, raw.len() as int)->0,
        ));
    }
    assert(unthought(raw) == raw);
    let n = before.len() as int;
    assert(raw[n] == '{');
    assert forall|j: int| 0 <= j < n implies #[trigger] raw[j] != '{' by {
        assert(raw[j] == before[j]);
    }
    lemma_first_brace(raw, n);
    law_flat_brackets(before, body, after, '{', '}');
    assert(raw.subrange(n, n + 1 + body.len() + 1) =~= seq!['{'] + body + seq!['}']);
}

/// An escaped quote does not end a string.
pub proof fn law_escaped_quotes(
    a: Seq<char>,
    one: Seq<char>,
    two: Seq<char>,
    b: Seq<char>,
    open: char,
    close: char,
)
    requires
        open != close && open != '"' && close != '"' && open != '\\' && close != '\\',
        is_string_text(one),
        is_string_text(two),
    ensures
        closing(
            a + seq![open, '"'] + one + seq!['\\', '"'] + two + seq!['"', close] + b,
            a.len() as int,
            open,
            close,
        ) == Some((a.len() + 5 + one.len() + two.len()) as int),
{
    let s = a + seq![open, '"'] + one + seq!['\\', '"'] + two + seq!['"', close] + b;
    let start = a.len() as int;
    let mark = start + 2 + one.len();
    let quote = mark + 2 + two.len();
    let end = quote + 1;
    assert(s[start] == open && s[start + 1] == '"' && s[mark] == '\\' && s[mark + 1] == '"'
        && s[quote] == '"' && s[end] == close);
    let inside = Scan { depth: 1, in_string: true, escaped: false };
    assert(scan_at(s, start, start, open, close) == (Scan {
        depth: 0,
        in_string: false,
        escaped: false,
    }));
    assert(scan_at(s, start, start + 1, open, close) == (Scan {
        depth: 1,
        in_string: false,
        escaped: false,
    }));
    assert(scan_at(s, start, start + 2, open, close) == inside);
    assert forall|k: int| start + 2 <= k < mark implies #[trigger] s[k] != '"' && s[k] != '\\' by {
        assert(s[k] == one[k - start - 2]);
    }
    assert forall|k: int| mark + 2 <= k < quote implies #[trigger] s[k] != '"' && s[k] != '\\' by {
        assert(s[k] == two[k - mark - 2]);
    }
    lemma_scan_string(s, start, start + 2, mark, open, close);
    assert(scan_at(s, start, mark + 1, open, close) == (Scan { escaped: true, ..inside }));
    assert(scan_at(s, start, mark + 2, open, close) == inside);
    lemma_scan_string(s, start, mark + 2, quote, open, close);
    assert(scan_at(s, start, end, open, close) == (Scan {
        depth: 1,
        in_string: false,
        escaped: false,
    }));
    assert(closes(s, start, end, open, close));
    law_closing_is_first(s, start, open, close);
    let x = closing(s, start, open, close)->0;
    if x < end {
        if x == start {
            assert(s[x] == open);
        } else if x == start + 1 || x == quote || x == mark + 1 {
            assert(s[x] == '"');
        } else if x == mark {
            assert(s[x] == '\\');
        } else if x < mark {
            lemma_scan_string(s, start, start + 2, x, open, close);
        } else {
            lemma_scan_string(s, start, mark + 2, x, open, close);
        }
    }
}

} // verus!
