//! What holds of every normalized session summary.
use vstd::prelude::*;
use crate::text::CharClass;
#[allow(unused_imports)]
use crate::text::{
    ascii_lower, first_of, in_class, is_space, joined, lemma_first_of, lemma_first_of_is, lines_of,
    lemma_trim_end_add, lemma_trim_end_ends, lemma_trim_single, lemma_trim_start_add,
    lemma_trim_start_starts, starts_lowered, strip_cr, trim_by, trim_end_by, trim_start_by, trimmed,
    byte_len,
};
#[allow(unused_imports)]
use crate::context::trailer::{
    field_text, first_step, in_next_step, last_task, names_task, normalized, open_task_of,
    other_lines, said, step_said, summary_core, summary_rest, task_line, task_named, task_read,
    gives_task, OPEN_TASK_NONE, OPEN_TASK_PREFIX,
};

verus! {

/// Whether no line feed stands in `s`.
pub open spec fn one_line(s: Seq<char>) -> bool {
    forall|i: int| 0 <= i < s.len() ==> #[trigger] s[i] != '\n'
}

/// Whether every text of a list is a single line.
pub open spec fn all_one_line(l: Seq<Seq<char>>) -> bool {
    forall|i: int| 0 <= i < l.len() ==> one_line(#[trigger] l[i])
}

/// The lines without the carriage returns that end them.
pub open spec fn without_cr(l: Seq<Seq<char>>) -> Seq<Seq<char>> {
    l.map_values(|s: Seq<char>| strip_cr(s))
}

/// The lines up to the last that is not blank, that one without the white space that ends it.
pub open spec fn end_trimmed(l: Seq<Seq<char>>) -> Seq<Seq<char>>
    decreases l.len(),
{
    if l.len() == 0 {
        seq![]
    } else if trim_end_by(l.last(), CharClass::Space).len() > 0 {
        l.drop_last().push(trim_end_by(l.last(), CharClass::Space))
    } else {
        end_trimmed(l.drop_last())
    }
}

// ---------------------------------------------------------------------------
// Lines
// ---------------------------------------------------------------------------

/// A line feed separates: the lines before it and the lines after it are read apart.
proof fn lemma_lines_append(a: Seq<char>, b: Seq<char>)
    ensures
        lines_of(a.push('\n') + b) == lines_of(a.push('\n')) + lines_of(b),
    decreases a.len(),
{
    let s = a.push('\n') + b;
    let t = a.push('\n');
    let i = first_of(t, '\n');
    lemma_first_of(t, '\n');
    assert(t[a.len() as int] == '\n');
    assert(i <= a.len());
    assert forall|j: int| 0 <= j < i implies s[j] != '\n' by {
        assert(s[j] == t[j]);
    }
    assert(s[i] == t[i]);
    lemma_first_of_is(s, '\n', i);
    assert(s.take(i) == t.take(i));
    if i == a.len() {
        assert(s.skip(i + 1) == b);
        assert(t.skip(i + 1) == Seq::<char>::empty());
        assert(lines_of(t.skip(i + 1)) == Seq::<Seq<char>>::empty());
        assert(lines_of(t) == seq![strip_cr(t.take(i))]);
    } else {
        let a2 = a.skip(i + 1);
        assert(s.skip(i + 1) == a2.push('\n') + b);
        assert(t.skip(i + 1) == a2.push('\n'));
        lemma_lines_append(a2, b);
        assert(seq![strip_cr(t.take(i))] + (lines_of(a2.push('\n')) + lines_of(b)) == seq![
            strip_cr(t.take(i)),
        ] + lines_of(a2.push('\n')) + lines_of(b));
    }
}

/// A text of one line, closed by a line feed, has that one line.
proof fn lemma_lines_single(s: Seq<char>)
    requires
        one_line(s),
    ensures
        lines_of(s.push('\n')) == seq![strip_cr(s)],
        s.len() > 0 ==> lines_of(s) == seq![s],
{
    let t = s.push('\n');
    lemma_first_of_is(t, '\n', s.len() as int);
    assert(t.take(s.len() as int) == s);
    assert(t.skip(s.len() as int + 1) == Seq::<char>::empty());
    assert(lines_of(t.skip(s.len() as int + 1)) == Seq::<Seq<char>>::empty());
    assert(seq![strip_cr(s)] + Seq::<Seq<char>>::empty() == seq![strip_cr(s)]);
    lemma_first_of_is(s, '\n', s.len() as int);
}

/// Lines that are joined and closed are read back, but for the carriage returns that end them.
proof fn lemma_lines_joined(l: Seq<Seq<char>>)
    requires
        l.len() > 0,
        all_one_line(l),
    ensures
        lines_of(joined(l, "\n"@).push('\n')) == without_cr(l),
    decreases l.len(),
{
    reveal_strlit("\n");
    if l.len() == 1 {
        lemma_lines_single(l[0]);
        assert(without_cr(l) == seq![strip_cr(l[0])]);
    } else {
        let f = l.drop_last();
        assert(all_one_line(f)) by {
            assert forall|i: int| 0 <= i < f.len() implies one_line(#[trigger] f[i]) by {
                assert(f[i] == l[i]);
            }
        }
        lemma_lines_joined(f);
        let a = joined(f, "\n"@);
        assert(joined(l, "\n"@).push('\n') == a.push('\n') + l.last().push('\n'));
        lemma_lines_append(a, l.last().push('\n'));
        lemma_lines_single(l.last());
        assert(without_cr(l) == without_cr(f) + seq![strip_cr(l.last())]);
    }
}

/// The lines of a text hold no line feed.
proof fn lemma_lines_are_single(s: Seq<char>)
    ensures
        all_one_line(lines_of(s)),
    decreases s.len(),
{
    lemma_first_of(s, '\n');
    let i = first_of(s, '\n');
    if s.len() > 0 && i < s.len() {
        lemma_lines_are_single(s.skip(i + 1));
        let l = lines_of(s);
        let rest = lines_of(s.skip(i + 1));
        assert forall|k: int| 0 <= k < l.len() implies one_line(#[trigger] l[k]) by {
            if k > 0 {
                assert(l[k] == rest[k - 1]);
            }
        }
    }
}

proof fn lemma_other_lines_single(l: Seq<Seq<char>>)
    requires
        all_one_line(l),
    ensures
        all_one_line(other_lines(l)),
        forall|i: int| 0 <= i < other_lines(l).len() ==> !names_task(#[trigger] other_lines(l)[i]),
    decreases l.len(),
{
    if l.len() > 0 {
        let f = l.drop_last();
        assert(all_one_line(f)) by {
            assert forall|i: int| 0 <= i < f.len() implies one_line(#[trigger] f[i]) by {
                assert(f[i] == l[i]);
            }
        }
        lemma_other_lines_single(f);
        assert(one_line(l[l.len() - 1]));
    }
}

// ---------------------------------------------------------------------------
// Trimming
// ---------------------------------------------------------------------------

/// White space at the end of a line has no bearing on the line trimmed.
proof fn lemma_trimmed_end(s: Seq<char>, w: Seq<char>)
    requires
        forall|i: int| 0 <= i < w.len() ==> is_space(#[trigger] w[i]),
    ensures
        trimmed(s + w) == trimmed(s),
    decreases w.len(),
{
    if w.len() == 0 {
        assert(s + w == s);
    } else {
        let f = w.drop_last();
        assert forall|i: int| 0 <= i < f.len() implies is_space(#[trigger] f[i]) by {
            assert(f[i] == w[i]);
        }
        lemma_trimmed_end(s, f);
        let t = s + f;
        let c = seq![w.last()];
        assert(s + w == t + c);
        assert(is_space(w[w.len() - 1]));
        lemma_trim_start_add(t, c, CharClass::Space);
        lemma_trim_single(w.last(), CharClass::Space);
        let u = trim_start_by(t, CharClass::Space);
        if u.len() > 0 {
            lemma_trim_end_add(u, c, CharClass::Space);
        }
    }
}

proof fn lemma_strip_cr_trimmed(s: Seq<char>)
    ensures
        trimmed(strip_cr(s)) == trimmed(s),
{
    if s.len() > 0 && s.last() == '\r' {
        lemma_trimmed_end(s.drop_last(), seq!['\r']);
        assert(s.drop_last() + seq!['\r'] == s);
    }
}

proof fn lemma_trim_end_trimmed(s: Seq<char>)
    ensures
        trimmed(trim_end_by(s, CharClass::Space)) == trimmed(s),
{
    lemma_trim_end_ends(s, CharClass::Space);
    let t = trim_end_by(s, CharClass::Space);
    let w = s.skip(t.len() as int);
    assert(t + w == s);
    assert forall|i: int| 0 <= i < w.len() implies is_space(#[trigger] w[i]) by {
        assert(w[i] == s[t.len() + i]);
    }
    lemma_trimmed_end(t, w);
}

// ---------------------------------------------------------------------------
// The rest of a summary, line by line
// ---------------------------------------------------------------------------

/// Trimming the end of joined lines is dropping the blank lines at the end and trimming the last
/// of the others.
proof fn lemma_rest_lines(l: Seq<Seq<char>>)
    requires
        all_one_line(l),
    ensures
        trim_end_by(joined(l, "\n"@), CharClass::Space) == joined(end_trimmed(l), "\n"@),
        all_one_line(end_trimmed(l)),
        end_trimmed(l).len() <= l.len(),
        forall|i: int|
            0 <= i < end_trimmed(l).len() ==> trimmed(#[trigger] end_trimmed(l)[i]) == trimmed(
                l[i],
            ),
        forall|i: int| end_trimmed(l).len() <= i < l.len() ==> trimmed(#[trigger] l[i]).len() == 0,
        end_trimmed(l).len() > 0 ==> end_trimmed(l).last().len() > 0 && !is_space(
            end_trimmed(l).last().last(),
        ),
        joined(end_trimmed(l), "\n"@).len() == 0 <==> end_trimmed(l).len() == 0,
    decreases l.len(),
{
    reveal_strlit("\n");
    if l.len() == 0 {
    } else {
        let f = l.drop_last();
        assert(all_one_line(f)) by {
            assert forall|i: int| 0 <= i < f.len() implies one_line(#[trigger] f[i]) by {
                assert(f[i] == l[i]);
            }
        }
        let last = l.last();
        let t = trim_end_by(last, CharClass::Space);
        lemma_trim_end_ends(last, CharClass::Space);
        lemma_trim_end_trimmed(last);
        assert(one_line(l[l.len() - 1]));
        let e = end_trimmed(l);
        if t.len() > 0 {
            assert(e == f.push(t));
            assert(e.drop_last() == f);
            if l.len() > 1 {
                lemma_trim_end_add(joined(f, "\n"@) + "\n"@, last, CharClass::Space);
            }
            assert forall|i: int| 0 <= i < e.len() implies one_line(#[trigger] e[i]) by {
                if i < f.len() {
                    assert(e[i] == f[i]);
                }
            }
            assert forall|i: int| 0 <= i < e.len() implies trimmed(#[trigger] e[i]) == trimmed(
                l[i],
            ) by {
                if i < f.len() {
                    assert(e[i] == f[i]);
                }
            }
        } else {
            lemma_rest_lines(f);
            assert(trimmed(last).len() == 0) by {
                assert(t == Seq::<char>::empty());
                assert(trimmed(t) == Seq::<char>::empty());
            }
            if l.len() > 1 {
                lemma_trim_end_add(joined(f, "\n"@) + "\n"@, last, CharClass::Space);
                lemma_trim_end_add(joined(f, "\n"@), "\n"@, CharClass::Space);
                assert("\n"@ == seq!['\n']);
                lemma_trim_single('\n', CharClass::Space);
            } else {
                assert(joined(f, "\n"@) == Seq::<char>::empty());
                assert(trim_end_by(joined(f, "\n"@), CharClass::Space) == Seq::<char>::empty());
            }
            assert forall|i: int| 0 <= i < e.len() implies trimmed(#[trigger] e[i]) == trimmed(
                l[i],
            ) by {
                assert(l[i] == f[i]);
            }
            assert forall|i: int| e.len() <= i < l.len() implies trimmed(#[trigger] l[i]).len()
                == 0 by {
                if i < f.len() {
                    assert(l[i] == f[i]);
                }
            }
        }
    }
}

/// The value that a normalized summary names.
pub open spec fn value_of(body: Seq<char>) -> Seq<char> {
    open_task_of(last_task(lines_of(body)), first_step(lines_of(body)))
}

/// The lines that a normalized summary keeps.
pub open spec fn kept_of(body: Seq<char>) -> Seq<Seq<char>> {
    end_trimmed(other_lines(lines_of(body)))
}

/// A value that comes out of single lines is a single line.
proof fn lemma_value_one_line(body: Seq<char>)
    ensures
        one_line(value_of(body)),
{
    lemma_lines_are_single(body);
    lemma_last_task_one_line(lines_of(body));
    lemma_first_step_one_line(lines_of(body));
    reveal_strlit("none");
}

proof fn lemma_trim_one_line(s: Seq<char>, k: CharClass)
    requires
        one_line(s),
    ensures
        one_line(trim_start_by(s, k)),
        one_line(trim_end_by(s, k)),
        one_line(trim_by(s, k)),
{
    lemma_trim_start_starts(s, k);
    lemma_trim_end_ends(s, k);
    lemma_trim_end_ends(trim_start_by(s, k), k);
}

proof fn lemma_shortened_one_line(s: Seq<char>)
    requires
        one_line(s),
    ensures
        one_line(field_text(s)),
{
    reveal_strlit("...");
    lemma_fitting_bound(s, 197);
}

proof fn lemma_fitting_bound(s: Seq<char>, max: int)
    ensures
        0 <= crate::text::fitting_chars(s, max) <= s.len(),
    decreases s.len(),
{
    if s.len() > 0 && byte_len(s) > max {
        lemma_fitting_bound(s.drop_last(), max);
    }
}

proof fn lemma_last_task_one_line(l: Seq<Seq<char>>)
    requires
        all_one_line(l),
    ensures
        last_task(l) matches Some(v) ==> one_line(v) && one_line(field_text(v)),
    decreases l.len(),
{
    if l.len() > 0 {
        if gives_task(l.last()) {
            assert(one_line(l[l.len() - 1]));
            lemma_core_one_line(l.last());
            let core = summary_core(l.last());
            reveal_strlit("open_task:");
            assert(one_line(core.skip(10)));
            lemma_trim_one_line(core.skip(10), CharClass::Noise);
            if let Some(v) = last_task(l) {
                lemma_shortened_one_line(v);
            }
        } else {
            let f = l.drop_last();
            assert forall|i: int| 0 <= i < f.len() implies one_line(#[trigger] f[i]) by {
                assert(f[i] == l[i]);
            }
            lemma_last_task_one_line(f);
        }
    }
}

proof fn lemma_core_one_line(raw: Seq<char>)
    requires
        one_line(raw),
    ensures
        one_line(summary_core(raw)),
        one_line(trimmed(raw)),
{
    lemma_trim_one_line(raw, CharClass::Space);
    lemma_trim_one_line(trimmed(raw), CharClass::Bullet);
    lemma_trim_one_line(trim_start_by(trimmed(raw), CharClass::Bullet), CharClass::Space);
}

proof fn lemma_first_step_one_line(l: Seq<Seq<char>>)
    requires
        all_one_line(l),
    ensures
        first_step(l) matches Some(v) ==> one_line(v),
    decreases l.len(),
{
    if l.len() > 0 {
        let f = l.drop_last();
        assert forall|i: int| 0 <= i < f.len() implies one_line(#[trigger] f[i]) by {
            assert(f[i] == l[i]);
        }
        lemma_first_step_one_line(f);
        let raw = l.last();
        assert(one_line(l[l.len() - 1]));
        lemma_core_one_line(raw);
        lemma_trim_one_line(trimmed(raw), CharClass::ListMark);
        let v = trim_start_by(trimmed(raw), CharClass::ListMark);
        lemma_trim_one_line(v, CharClass::Space);
        lemma_shortened_one_line(trimmed(v));
    }
}

/// The line that names a task, without the Markdown around it.
spec fn task_core(value: Seq<char>) -> Seq<char> {
    let v = trim_end_by(value, CharClass::Space);
    if v.len() > 0 {
        OPEN_TASK_PREFIX@ + " "@ + v
    } else {
        OPEN_TASK_PREFIX@
    }
}

/// Only the white space at the end is cut off the line that names a task.
proof fn lemma_task_core(value: Seq<char>)
    ensures
        summary_core(task_line(value)) == task_core(value),
{
    reveal_strlit("open_task:");
    reveal_strlit(" ");
    let line = task_line(value);
    let k = CharClass::Space;
    assert(line[0] == 'o');
    assert(trim_start_by(line, k) == line);
    let p = OPEN_TASK_PREFIX@ + " "@;
    assert(line == p + value);
    lemma_trim_end_add(p, value, k);
    lemma_trim_end_add(OPEN_TASK_PREFIX@, " "@, k);
    assert(" "@ == seq![' ']);
    lemma_trim_single(' ', k);
    assert(OPEN_TASK_PREFIX@.last() == ':');
    assert(trim_end_by(OPEN_TASK_PREFIX@, k) == OPEN_TASK_PREFIX@);
    let t = trimmed(line);
    assert(t == task_core(value));
    assert(t[0] == 'o');
    assert(trim_start_by(t, CharClass::Bullet) == t);
    lemma_trim_end_ends(line, k);
    assert(trim_start_by(t, k) == t);
    assert(trimmed(t) == t);
}

/// The line that names a task is read as such, and names what its value says.
proof fn lemma_task_line(value: Seq<char>)
    ensures
        names_task(task_line(value)),
        task_named(task_line(value)) == said(value),
{
    lemma_task_core(value);
    reveal_strlit("open_task:");
    reveal_strlit(" ");
    let t = task_core(value);
    let v = trim_end_by(value, CharClass::Space);
    assert(starts_lowered(t, OPEN_TASK_PREFIX@)) by {
        assert(ascii_lower(t).take(10) =~= OPEN_TASK_PREFIX@);
    }
    let rest = t.skip(10);
    if v.len() > 0 {
        assert(rest == " "@ + v);
        lemma_noise_blank(v);
    } else {
        assert(rest == Seq::<char>::empty());
        assert(trim_by(rest, CharClass::Noise) == Seq::<char>::empty());
    }
    lemma_noise_of_trimmed(value);
    lemma_noise_blank(value);
}

/// A blank before a value is noise.
proof fn lemma_noise_blank(v: Seq<char>)
    ensures
        trim_by(" "@ + v, CharClass::Noise) == trim_by(v, CharClass::Noise),
{
    reveal_strlit(" ");
    let s = " "@ + v;
    assert(s.drop_first() == v);
    assert(s[0] == ' ');
}

/// White space at the end of a value is noise.
proof fn lemma_noise_of_trimmed(value: Seq<char>)
    ensures
        trim_by(trim_end_by(value, CharClass::Space), CharClass::Noise) == trim_by(
            value,
            CharClass::Noise,
        ),
    decreases value.len(),
{
    if value.len() > 0 && is_space(value.last()) {
        let f = value.drop_last();
        lemma_noise_of_trimmed(f);
        let c = seq![value.last()];
        assert(f + c == value);
        let n = CharClass::Noise;
        lemma_trim_start_add(f, c, n);
        lemma_trim_single(value.last(), n);
        let u = trim_start_by(f, n);
        if u.len() > 0 {
            lemma_trim_end_add(u, c, n);
        }
    }
}

/// The lines of a normalized summary: the lines that are kept, a blank line where there are any,
/// and the line that names the open task.
pub proof fn law_normalized_lines(body: Seq<char>)
    ensures
        lines_of(normalized(body)) == (if kept_of(body).len() > 0 {
            without_cr(kept_of(body)).push(seq![]).push(task_line(value_of(body)))
        } else {
            seq![task_line(value_of(body))]
        }),
{
    reveal_strlit("\n\n");
    reveal_strlit("open_task:");
    reveal_strlit(" ");
    let l = lines_of(body);
    lemma_lines_are_single(body);
    lemma_other_lines_single(l);
    let kept = kept_of(body);
    lemma_rest_lines(other_lines(l));
    lemma_value_one_line(body);
    let line = task_line(value_of(body));
    assert(one_line(line));
    lemma_lines_single(line);
    let rest = summary_rest(l);
    assert(rest == joined(kept, "\n"@));
    if kept.len() > 0 {
        assert(normalized(body) == rest.push('\n') + (Seq::<char>::empty().push('\n') + line));
        lemma_lines_append(rest, Seq::<char>::empty().push('\n') + line);
        lemma_lines_append(Seq::<char>::empty(), line);
        lemma_lines_single(Seq::<char>::empty());
        lemma_lines_joined(kept);
        assert(strip_cr(Seq::<char>::empty()) == Seq::<char>::empty());
        assert(without_cr(kept) + (seq![Seq::<char>::empty()] + seq![line]) == without_cr(
            kept,
        ).push(seq![]).push(line));
    } else {
        assert(normalized(body) == line);
    }
}

/// A normalized summary ends with the one line in it that names the open task.
pub proof fn law_one_task_line(body: Seq<char>)
    ensures
        lines_of(normalized(body)).len() > 0,
        forall|i: int|
            0 <= i < lines_of(normalized(body)).len() ==> names_task(
                #[trigger] lines_of(normalized(body))[i],
            ) == (i == lines_of(normalized(body)).len() - 1),
{
    law_normalized_lines(body);
    let l = lines_of(body);
    lemma_lines_are_single(body);
    lemma_other_lines_single(l);
    lemma_rest_lines(other_lines(l));
    lemma_task_line(value_of(body));
    let kept = kept_of(body);
    let out = lines_of(normalized(body));
    reveal_strlit("open_task:");
    assert forall|i: int| 0 <= i < out.len() implies names_task(#[trigger] out[i]) == (i
        == out.len() - 1) by {
        if i < kept.len() {
            assert(out[i] == strip_cr(kept[i]));
            lemma_strip_cr_trimmed(kept[i]);
            assert(trimmed(kept[i]) == trimmed(other_lines(l)[i]));
        } else if i < out.len() - 1 {
            assert(out[i] == Seq::<char>::empty());
            assert(summary_core(out[i]) == Seq::<char>::empty());
        }
    }
}

/// Reading the open task of a normalized summary gives what the value written there says.
pub proof fn law_read_of_normalized(body: Seq<char>)
    ensures
        task_read(lines_of(normalized(body))) == said(value_of(body)),
        last_task(lines_of(normalized(body))) == said(value_of(body)),
{
    law_one_task_line(body);
    law_normalized_lines(body);
    lemma_task_line(value_of(body));
    let out = lines_of(normalized(body));
    assert(out.last() == task_line(value_of(body)));
    let front = out.drop_last();
    assert forall|i: int| 0 <= i < front.len() implies !names_task(#[trigger] front[i]) by {
        assert(front[i] == out[i]);
    }
    lemma_none_named(front);
}

/// Where no line is about the open task, none is named.
proof fn lemma_none_named(l: Seq<Seq<char>>)
    requires
        forall|i: int| 0 <= i < l.len() ==> !names_task(#[trigger] l[i]),
    ensures
        last_task(l) is None,
    decreases l.len(),
{
    if l.len() > 0 {
        let f = l.drop_last();
        assert forall|i: int| 0 <= i < f.len() implies !names_task(#[trigger] f[i]) by {
            assert(f[i] == l[i]);
        }
        lemma_none_named(f);
        assert(!names_task(l[l.len() - 1]));
    }
}

/// Where a summary names an open task that fits a field, reading the normalized summary gives
/// that task back.
pub proof fn law_task_survives(body: Seq<char>)
    requires
        last_task(lines_of(body)) matches Some(v) && byte_len(v) <= 200,
    ensures
        task_read(lines_of(normalized(body))) == last_task(lines_of(body)),
{
    law_read_of_normalized(body);
    let v = last_task(lines_of(body))->0;
    lemma_said_is_said(lines_of(body));
}

/// A value that is said says itself.
proof fn lemma_said_is_said(l: Seq<Seq<char>>)
    ensures
        last_task(l) matches Some(v) ==> said(v) == Some(v),
    decreases l.len(),
{
    if l.len() > 0 {
        if gives_task(l.last()) {
            let raw = summary_core(l.last()).skip(10);
            let n = CharClass::Noise;
            lemma_trim_start_starts(raw, n);
            let u = trim_start_by(raw, n);
            lemma_trim_end_ends(u, n);
            let v = trim_by(raw, n);
            if v.len() > 0 {
                assert(v[0] == u[0]);
                assert(trim_start_by(v, n) == v);
            }
        } else {
            lemma_said_is_said(l.drop_last());
        }
    }
}

/// Where a summary names no open task and has no next step, the normalized summary says that
/// there is none.
pub proof fn law_nothing_open(body: Seq<char>)
    requires
        last_task(lines_of(body)) is None,
        first_step(lines_of(body)) is None,
    ensures
        value_of(body) == OPEN_TASK_NONE@,
        task_read(lines_of(normalized(body))) is None,
{
    law_read_of_normalized(body);
    reveal_strlit("none");
    let v = OPEN_TASK_NONE@;
    lemma_none_is_negative();
}

proof fn lemma_none_is_negative()
    ensures
        said("none"@) is None,
{
    reveal_strlit("none");
    let v = "none"@;
    assert(v[0] == 'n' && v.last() == 'e');
    assert(trim_start_by(v, CharClass::Noise) == v);
    assert(trim_end_by(v, CharClass::Noise) == v);
    assert(trim_end_by(v, CharClass::Dot) == v);
    assert(crate::text::reads_as(v, "none"@));
}

// ---------------------------------------------------------------------------
// Normalizing twice
// ---------------------------------------------------------------------------

/// Whether lines that are not about the open task read alike.
proof fn lemma_sections_alike(a: Seq<Seq<char>>, b: Seq<Seq<char>>)
    requires
        a.len() == b.len(),
        forall|i: int| 0 <= i < a.len() ==> trimmed(#[trigger] a[i]) == trimmed(b[i]),
    ensures
        in_next_step(a) == in_next_step(b),
        first_step(a) == first_step(b),
    decreases a.len(),
{
    if a.len() > 0 {
        let x = a.drop_last();
        let y = b.drop_last();
        assert forall|i: int| 0 <= i < x.len() implies trimmed(#[trigger] x[i]) == trimmed(
            y[i],
        ) by {
            assert(x[i] == a[i] && y[i] == b[i]);
        }
        lemma_sections_alike(x, y);
        assert(trimmed(a[a.len() - 1]) == trimmed(b[b.len() - 1]));
    }
}

/// The lines that name the open task have no bearing on the next steps.
proof fn lemma_sections_without_tasks(l: Seq<Seq<char>>)
    ensures
        in_next_step(other_lines(l)) == in_next_step(l),
        first_step(other_lines(l)) == first_step(l),
    decreases l.len(),
{
    if l.len() > 0 {
        lemma_sections_without_tasks(l.drop_last());
        if !names_task(l.last()) {
            let o = other_lines(l);
            assert(o.drop_last() == other_lines(l.drop_last()));
            assert(o.last() == l.last());
        }
    }
}

/// Blank lines have no bearing on the next steps.
proof fn lemma_sections_blank(l: Seq<Seq<char>>, n: int)
    requires
        0 <= n <= l.len(),
        forall|i: int| n <= i < l.len() ==> trimmed(#[trigger] l[i]).len() == 0,
    ensures
        in_next_step(l) == in_next_step(l.take(n)),
        first_step(l) == first_step(l.take(n)),
    decreases l.len() - n,
{
    if n == l.len() {
        assert(l.take(n) == l);
    } else {
        let f = l.drop_last();
        assert forall|i: int| n <= i < f.len() implies trimmed(#[trigger] f[i]).len() == 0 by {
            assert(f[i] == l[i]);
        }
        lemma_sections_blank(f, n);
        assert(f.take(n) == l.take(n));
        let e = Seq::<char>::empty();
        assert(trimmed(l[l.len() - 1]).len() == 0);
        assert(trimmed(l.last()) == e);
        reveal_strlit("## ");
        reveal_strlit("open_task:");
        assert(trim_start_by(e, CharClass::Bullet) == e);
        assert(trim_start_by(e, CharClass::ListMark) == e);
        assert(trimmed(e) == e);
        assert(!names_task(l.last()));
        assert(step_said(l.last()) is None);
    }
}

proof fn lemma_other_lines_none_named(l: Seq<Seq<char>>)
    requires
        forall|i: int| 0 <= i < l.len() ==> !names_task(#[trigger] l[i]),
    ensures
        other_lines(l) == l,
    decreases l.len(),
{
    if l.len() > 0 {
        let f = l.drop_last();
        assert forall|i: int| 0 <= i < f.len() implies !names_task(#[trigger] f[i]) by {
            assert(f[i] == l[i]);
        }
        lemma_other_lines_none_named(f);
        assert(!names_task(l[l.len() - 1]));
        assert(f.push(l.last()) == l);
    }
}

/// Whether the value that a normalized summary names would be chosen again.
pub open spec fn value_settles(body: Seq<char>) -> bool {
    open_task_of(said(value_of(body)), first_step(lines_of(body))) == value_of(body)
}

/// Whether no line that is kept ends in a carriage return.
pub open spec fn kept_plain(body: Seq<char>) -> bool {
    without_cr(kept_of(body)) == kept_of(body)
}

/// Normalizing twice is normalizing once, for a summary whose kept lines do not end in a stray
/// carriage return and whose value would be chosen again.
pub proof fn law_normalizing_twice(body: Seq<char>)
    requires
        kept_plain(body),
        value_settles(body),
    ensures
        normalized(normalized(body)) == normalized(body),
{
    let l = lines_of(body);
    let kept = kept_of(body);
    let out = lines_of(normalized(body));
    let line = task_line(value_of(body));
    law_normalized_lines(body);
    law_one_task_line(body);
    law_read_of_normalized(body);
    lemma_lines_are_single(body);
    lemma_other_lines_single(l);
    lemma_rest_lines(other_lines(l));
    let front = out.drop_last();
    assert(out.last() == line);
    assert forall|i: int| 0 <= i < front.len() implies !names_task(#[trigger] front[i]) by {
        assert(front[i] == out[i]);
    }
    lemma_other_lines_none_named(front);
    assert(other_lines(out) == front);
    // The next steps are the same.
    let old_lines = other_lines(l);
    lemma_sections_without_tasks(l);
    lemma_sections_blank(old_lines, kept.len() as int);
    let cut = old_lines.take(kept.len() as int);
    assert forall|i: int| 0 <= i < cut.len() implies trimmed(#[trigger] cut[i]) == trimmed(
        kept[i],
    ) by {
        assert(cut[i] == old_lines[i]);
    }
    lemma_sections_alike(cut, kept);
    lemma_sections_without_tasks(out);
    assert(first_step(out) == first_step(front));
    if kept.len() > 0 {
        assert(front == kept.push(seq![]));
        assert forall|i: int| kept.len() <= i < front.len() implies trimmed(
            #[trigger] front[i],
        ).len() == 0 by {
            assert(front[i] == Seq::<char>::empty());
        }
        lemma_sections_blank(front, kept.len() as int);
        assert(front.take(kept.len() as int) == kept);
    } else {
        assert(front == kept);
    }
    assert(first_step(out) == first_step(l));
    assert(open_task_of(last_task(out), first_step(out)) == value_of(body));
    // The lines that are kept are the same.
    lemma_lines_are_single(normalized(body));
    assert(all_one_line(front)) by {
        assert forall|i: int| 0 <= i < front.len() implies one_line(#[trigger] front[i]) by {
            assert(front[i] == out[i]);
        }
    }
    lemma_rest_lines(front);
    if kept.len() > 0 {
        let e = Seq::<char>::empty();
        assert(front.last() == e);
        assert(trim_end_by(e, CharClass::Space) == e);
        assert(front.drop_last() == kept);
        assert(end_trimmed(front) == end_trimmed(kept));
        let t = kept.last();
        assert(trim_end_by(t, CharClass::Space) == t);
        assert(kept.drop_last().push(t) == kept);
        assert(end_trimmed(kept) == kept);
    }
}

/// Whether no carriage return stands in `s`.
pub open spec fn without_return(s: Seq<char>) -> bool {
    forall|i: int| 0 <= i < s.len() ==> #[trigger] s[i] != '\r'
}

/// The lines of a text without carriage returns have none.
proof fn lemma_lines_without_return(s: Seq<char>)
    requires
        without_return(s),
    ensures
        forall|i: int| 0 <= i < lines_of(s).len() ==> without_return(#[trigger] lines_of(s)[i]),
    decreases s.len(),
{
    if s.len() > 0 {
        let p = first_of(s, '\n');
        lemma_first_of(s, '\n');
        if p < s.len() {
            let rest = s.skip(p + 1);
            assert forall|i: int| 0 <= i < rest.len() implies #[trigger] rest[i] != '\r' by {
                assert(rest[i] == s[p + 1 + i]);
            }
            lemma_lines_without_return(rest);
            let line = strip_cr(s.take(p));
            assert forall|i: int| 0 <= i < line.len() implies #[trigger] line[i] != '\r' by {
                assert(line[i] == s[i]);
            }
            let l = lines_of(s);
            assert forall|i: int| 0 <= i < l.len() implies without_return(#[trigger] l[i]) by {
                if i > 0 {
                    assert(l[i] == lines_of(rest)[i - 1]);
                } else {
                    assert(l[i] == line);
                }
            }
        }
    }
}

/// The lines that are kept of lines without carriage returns have none at their end.
proof fn lemma_kept_without_return(l: Seq<Seq<char>>)
    requires
        forall|i: int| 0 <= i < l.len() ==> without_return(#[trigger] l[i]),
    ensures
        forall|i: int| 0 <= i < other_lines(l).len() ==> without_return(#[trigger] other_lines(l)[i]),
        without_cr(end_trimmed(l)) == end_trimmed(l),
    decreases l.len(),
{
    let k = end_trimmed(l);
    if l.len() > 0 {
        let f = l.drop_last();
        assert forall|i: int| 0 <= i < f.len() implies without_return(#[trigger] f[i]) by {
            assert(f[i] == l[i]);
        }
        lemma_kept_without_return(f);
        assert(without_return(l[l.len() - 1]));
        let o = other_lines(l);
        assert forall|i: int| 0 <= i < o.len() implies without_return(#[trigger] o[i]) by {
            if i < other_lines(f).len() {
                assert(o[i] == other_lines(f)[i]);
            }
        }
        let t = trim_end_by(l.last(), CharClass::Space);
        lemma_trim_end_ends(l.last(), CharClass::Space);
        if t.len() > 0 {
            assert(t.last() == l.last()[t.len() - 1]);
            assert forall|i: int| 0 <= i < k.len() implies strip_cr(#[trigger] k[i]) == k[i] by {
                if i < f.len() {
                    assert(k[i] == f[i]);
                    if f[i].len() > 0 {
                        assert(f[i][f[i].len() - 1] != '\r');
                    }
                } else {
                    assert(k[i] == t);
                    assert(l.last()[t.len() - 1] != '\r');
                }
            }
            assert(without_cr(k) =~= k);
        }
    } else {
        assert(without_cr(k) =~= k);
    }
}

/// Normalizing twice is normalizing once, for every summary without carriage returns that names an
/// open task which fits a field, that leaves nothing open, or whose next step has no marks around
/// it.
pub proof fn law_normalizing_twice_named(body: Seq<char>)
    requires
        without_return(body),
        match last_task(lines_of(body)) {
            Some(v) => byte_len(v) <= 200,
            None => first_step(lines_of(body)) matches Some(v) ==> said(v) == Some(v) && byte_len(v)
                <= 200,
        },
    ensures
        normalized(normalized(body)) == normalized(body),
{
    let l = lines_of(body);
    lemma_lines_without_return(body);
    lemma_kept_without_return(l);
    lemma_kept_without_return(other_lines(l));
    assert(kept_plain(body));
    lemma_said_is_said(l);
    if last_task(l) is None {
        lemma_none_is_negative();
    }
    assert(value_settles(body));
    law_normalizing_twice(body);
}

} // verus!
