//! What is read from the replies of a model: the fields of a wake trailer, the task that a session
//! leaves open, and what comes after what the model thought aloud.
use vstd::prelude::*;
#[allow(unused_imports)]
use crate::context::trailer::{
    first_step, open_task_of, other_lines, task_line, trailer_parts, in_next_step, is_negative,
    label_of, last_task, names_task, reply_core, said, step_said, summary_core, task_read,
    trailer_of, TrailerField, TrailerView,
};
#[allow(unused_imports)]
use crate::curator::model::{last_place, lemma_last_place, no_think_turn, unthought};
#[allow(unused_imports)]
use crate::text::{
    ascii_lower, ascii_lower_char, byte_len, has_part, in_class, is_space, joined, lowers_to,
    occurs_at, reads_as, shortened_bytes, starts_lowered, starts_with, trim_by, trim_end_by,
    trim_start_by, trimmed, CharClass,
};

verus! {

/// Whether a value stands as it is: nothing that marks or emphasis take around it, not a word for
/// nothing, and short enough for a field.
pub open spec fn plain_value(v: Seq<char>) -> bool {
    v.len() > 0 && !in_class(CharClass::Noise, v[0]) && !in_class(CharClass::Noise, v.last())
        && !is_negative(v) && byte_len(v) <= 200
}

/// The words for nothing, in any case, with or without full stops behind them.
pub proof fn law_words_for_nothing(v: Seq<char>, dots: Seq<char>)
    requires
        forall|i: int| 0 <= i < dots.len() ==> #[trigger] dots[i] == '.',
        ascii_lower(v) == "none"@ || ascii_lower(v) == "geen"@ || ascii_lower(v) == "n/a"@
            || ascii_lower(v) == "na"@ || ascii_lower(v) == "-"@ || ascii_lower(v) == "–"@
            || ascii_lower(v) == "unknown"@ || ascii_lower(v) == "nvt"@ || ascii_lower(v)
            == "n.v.t"@,
    ensures
        is_negative(v + dots),
{
    reveal_strlit("none");
    reveal_strlit("geen");
    reveal_strlit("n/a");
    reveal_strlit("na");
    reveal_strlit("-");
    reveal_strlit("–");
    reveal_strlit("unknown");
    reveal_strlit("nvt");
    reveal_strlit("n.v.t");
    lemma_dots_off(v, dots);
    let low = ascii_lower(v);
    assert(v.len() > 0 && v.last() != '.') by {
        assert(low.len() == v.len());
        if v.last() == '.' {
            assert(low.last() == '.');
        }
    }
    assert(trim_end_by(v + dots, CharClass::Dot) == v);
    assert forall|i: int| 0 <= i < v.len() implies lowers_to(#[trigger] v[i], low[i]) by {
        assert(low[i] == ascii_lower_char(v[i]));
    }
    assert(reads_as(v, low));
}

proof fn lemma_dots_off(v: Seq<char>, dots: Seq<char>)
    requires
        forall|i: int| 0 <= i < dots.len() ==> #[trigger] dots[i] == '.',
    ensures
        trim_end_by(v + dots, CharClass::Dot) == trim_end_by(v, CharClass::Dot),
    decreases dots.len(),
{
    if dots.len() == 0 {
        assert(v + dots =~= v);
    } else {
        let d = dots.drop_last();
        assert(dots[dots.len() - 1] == '.');
        assert forall|i: int| 0 <= i < d.len() implies #[trigger] d[i] == '.' by {
            assert(d[i] == dots[i]);
        }
        lemma_dots_off(v, d);
        assert((v + dots).last() == '.');
        assert((v + dots).drop_last() =~= v + d);
    }
}

/// Only the words for nothing say nothing, of what is written in ASCII.
pub proof fn law_other_words_say_something(v: Seq<char>)
    requires
        crate::text::is_ascii_text(v),
        is_negative(v),
    ensures
        ({
            let w = ascii_lower(trim_end_by(v, CharClass::Dot));
            w == "none"@ || w == "geen"@ || w == "n/a"@ || w == "na"@ || w == "-"@ || w == "–"@ || w
                == "unknown"@ || w == "nvt"@ || w == "n.v.t"@
        }),
{
    let t = trim_end_by(v, CharClass::Dot);
    crate::text::lemma_trim_end_ends(v, CharClass::Dot);
    assert forall|low: Seq<char>| #[trigger] reads_as(t, low) implies ascii_lower(t) == low by {
        assert forall|i: int| 0 <= i < t.len() implies ascii_lower(t)[i] == low[i] by {
            assert(lowers_to(t[i], low[i]));
            assert(t[i] == v[i]);
        }
        assert(ascii_lower(t) =~= low);
    }
}

proof fn lemma_value_said(v: Seq<char>)
    requires
        plain_value(v),
    ensures
        said(seq![' '] + v) == Some(v),
        trim_by(seq![' '] + v, CharClass::Noise) == v,
{
    let s = seq![' '] + v;
    assert(s[0] == ' ');
    assert(s.drop_first() =~= v);
    assert(trim_start_by(s, CharClass::Noise) == trim_start_by(v, CharClass::Noise));
    assert(trim_start_by(v, CharClass::Noise) == v);
    assert(trim_end_by(v, CharClass::Noise) == v);
}

/// A line of a reply that begins with the label of a field, in any case and in English or in Dutch,
/// gives that field, and the other fields stay as they were. The last line that gives a field counts.
pub proof fn law_reply_gives_fields(lines: Seq<Seq<char>>, label: Seq<char>, v: Seq<char>)
    requires
        plain_value(v),
    ensures
        ({
            let before = trailer_of(lines);
            let after = trailer_of(lines.push(label + seq![' '] + v));
            let low = ascii_lower(label);
            &&& low == "next step:"@ || low == "next_step:"@ || low == "volgende stap:"@ ==> after
                == (TrailerView { next_step: Some(v), ..before })
            &&& low == "result:"@ || low == "resultaat:"@ ==> after == (TrailerView {
                result: Some(v),
                ..before
            })
            &&& low == "action:"@ || low == "actie:"@ ==> after == (TrailerView {
                action: Some(v),
                ..before
            })
        }),
{
    reveal_strlit("next step:");
    reveal_strlit("next_step:");
    reveal_strlit("volgende stap:");
    reveal_strlit("result:");
    reveal_strlit("resultaat:");
    reveal_strlit("action:");
    reveal_strlit("actie:");
    let low = ascii_lower(label);
    let line = label + seq![' '] + v;
    let all = lines.push(line);
    assert(all.drop_last() =~= lines);
    assert(all.last() == line);
    lemma_value_said(v);
    if low == "next step:"@ || low == "next_step:"@ || low == "volgende stap:"@ || low == "result:"@
        || low == "resultaat:"@ || low == "action:"@ || low == "actie:"@ {
        let n = label.len() as int;
        assert(low.len() == n);
        assert(low[0] == ascii_lower_char(label[0]));
        assert(line[0] == label[0]);
        assert(line.last() == v.last());
        assert(!is_space(line[0]) && !in_class(CharClass::Bullet, line[0]) && line[0] != '*');
        assert(!is_space(line.last()));
        assert(trim_start_by(line, CharClass::Space) == line);
        assert(trim_end_by(line, CharClass::Space) == line);
        assert(trim_start_by(line, CharClass::Bullet) == line);
        assert(trim_start_by(line, CharClass::Star) == line);
        assert(reply_core(line) == line);
        assert(ascii_lower(line).take(n) =~= low);
        assert(line.skip(n) =~= seq![' '] + v);
        lemma_label(line, low, n);
        assert(shortened_bytes(v, 200) == v);
    }
}

/// The label that a line begins with.
proof fn lemma_label(line: Seq<char>, low: Seq<char>, n: int)
    requires
        0 <= n <= line.len(),
        low.len() == n,
        ascii_lower(line).take(n) == low,
    ensures
        low == "next step:"@ || low == "next_step:"@ || low == "volgende stap:"@ ==> label_of(line)
            == Some((TrailerField::NextStep, n)),
        low == "result:"@ || low == "resultaat:"@ ==> label_of(line) == Some(
            (TrailerField::Result, n),
        ),
        low == "action:"@ || low == "actie:"@ ==> label_of(line) == Some((TrailerField::Action, n)),
{
    reveal_strlit("next step:");
    reveal_strlit("next_step:");
    reveal_strlit("volgende stap:");
    reveal_strlit("result:");
    reveal_strlit("resultaat:");
    reveal_strlit("action:");
    reveal_strlit("actie:");
    let a = ascii_lower(line);
    assert forall|p: Seq<char>| #[trigger] starts_with(a, p) implies forall|i: int|
        0 <= i < p.len() && i < n ==> p[i] == low[i] by {
        assert forall|i: int| 0 <= i < p.len() && i < n implies p[i] == low[i] by {
            assert(a.take(p.len() as int)[i] == a[i]);
            assert(a.take(n)[i] == a[i]);
        }
    }
    let p1 = "next step:"@;
    let p2 = "next_step:"@;
    let p3 = "volgende stap:"@;
    let p4 = "result:"@;
    let p5 = "resultaat:"@;
    let p6 = "action:"@;
    let p7 = "actie:"@;
    assert(p1[4] == ' ' && p2[4] == '_');
    assert(p1[0] == 'n' && p2[0] == 'n' && p3[0] == 'v' && p4[0] == 'r' && p5[0] == 'r' && p6[0]
        == 'a' && p7[0] == 'a');
    assert(p4[6] == ':' && p5[6] == 'a');
    assert(p6[4] == 'o' && p7[4] == 'e');
    if low == p1 || low == p2 || low == p3 || low == p4 || low == p5 || low == p6 || low == p7 {
        assert(starts_with(a, low));
        if starts_with(a, p1) {
            assert(p1[0] == low[0]);
            assert(p1[4] == low[4]);
        }
        if starts_with(a, p2) {
            assert(p2[0] == low[0]);
            assert(p2[4] == low[4]);
        }
        if starts_with(a, p3) {
            assert(p3[0] == low[0]);
        }
        if starts_with(a, p4) {
            assert(p4[0] == low[0]);
            if low == p5 {
                assert(p4[6] == low[6]);
            }
        }
        if starts_with(a, p5) {
            assert(p5[0] == low[0]);
            if low == p4 {
                assert(p5[6] == low[6]);
            }
        }
        if starts_with(a, p6) {
            assert(p6[0] == low[0]);
            assert(p6[4] == low[4]);
        }
        if starts_with(a, p7) {
            assert(p7[0] == low[0]);
            assert(p7[4] == low[4]);
        }
    }
}

/// A reply without lines gives nothing, and a line without a label adds nothing.
pub proof fn law_other_lines_give_nothing(lines: Seq<Seq<char>>, line: Seq<char>)
    requires
        label_of(reply_core(line)) is None,
    ensures
        trailer_of(Seq::empty()).is_blank(),
        trailer_of(lines.push(line)) == trailer_of(lines),
{
    assert(lines.push(line).drop_last() =~= lines);
}

/// A summary that ends with a line naming the open task leaves that task open, whatever stands before
/// it.
pub proof fn law_named_task_is_open(lines: Seq<Seq<char>>, label: Seq<char>, v: Seq<char>)
    requires
        plain_value(v),
        ascii_lower(label) == "open_task:"@,
    ensures
        task_read(lines.push(label + seq![' '] + v)) == Some(v),
        last_task(lines.push(label + seq![' '] + v)) == Some(v),
{
    reveal_strlit("open_task:");
    let low = ascii_lower(label);
    let line = label + seq![' '] + v;
    let all = lines.push(line);
    assert(all.drop_last() =~= lines);
    assert(all.last() == line);
    lemma_value_said(v);
    assert(low.len() == label.len());
    assert(low[0] == ascii_lower_char(label[0]));
    assert(line[0] == label[0]);
    assert(line.last() == v.last());
    assert(!is_space(line[0]) && !in_class(CharClass::Bullet, line[0]));
    assert(!is_space(line.last()));
    assert(trim_start_by(line, CharClass::Space) == line);
    assert(trim_end_by(line, CharClass::Space) == line);
    assert(trim_start_by(line, CharClass::Bullet) == line);
    assert(summary_core(line) == line);
    assert(ascii_lower(line).take(10) =~= low);
    assert(line.skip(10) =~= seq![' '] + v);
}

/// Where a summary names no task, the first item under its heading on the next step is the task that
/// it leaves open.
pub proof fn law_next_step_is_open(lines: Seq<Seq<char>>, v: Seq<char>)
    requires
        first_step(lines) is None,
        v.len() > 0,
        !is_space(v[0]) && !is_space(v.last()),
        v[0] != '-' && v[0] != '*',
        !is_negative(v),
        byte_len(v) <= 200,
        !starts_with(v, "## "@),
        !names_task(v),
        !names_task(seq!['-', ' '] + v),
    ensures
        first_step(lines.push("## Next step"@).push(v)) == Some(v),
        first_step(lines.push("## Next step"@).push(seq!['-', ' '] + v)) == Some(v),
        last_task(lines.push("## Next step"@).push(v)) == last_task(lines),
{
    reveal_strlit("## Next step");
    reveal_strlit("## next step");
    reveal_strlit("## ");
    reveal_strlit("open_task:");
    let h = "## Next step"@;
    let one = lines.push(h);
    assert(one.drop_last() =~= lines);
    assert(one.last() == h);
    assert(trim_start_by(h, CharClass::Space) == h);
    assert(trim_end_by(h, CharClass::Space) == h);
    assert(trimmed(h) == h);
    assert(h.take(3) =~= "## "@);
    assert(starts_with(h, "## "@));
    assert(ascii_lower(h) =~= "## next step"@);
    assert(ascii_lower(h).take(12) =~= "## next step"@);
    assert(starts_lowered(h, "## next step"@));
    assert(!names_task(h)) by {
        let b1 = h.drop_first();
        let b2 = b1.drop_first();
        let b3 = b2.drop_first();
        assert(b3 =~= seq!['N', 'e', 'x', 't', ' ', 's', 't', 'e', 'p']);
        assert(trim_start_by(b3, CharClass::Bullet) == b3);
        assert(trim_start_by(b2, CharClass::Bullet) == b3);
        assert(trim_start_by(b1, CharClass::Bullet) == b3);
        assert(trim_start_by(h, CharClass::Bullet) == b3);
        assert(trim_start_by(b3, CharClass::Space) == b3);
        assert(trim_end_by(b3, CharClass::Space) == b3);
        assert(summary_core(h) == b3);
        if starts_with(ascii_lower(b3), "open_task:"@) {
            assert(ascii_lower(b3).len() == 9);
        }
    }
    assert(in_next_step(one));
    assert(first_step(one) is None);
    let a = one.push(v);
    assert(a.drop_last() =~= one);
    assert(a.last() == v);
    assert(trim_start_by(v, CharClass::Space) == v);
    assert(trim_end_by(v, CharClass::Space) == v);
    assert(trim_start_by(v, CharClass::ListMark) == v);
    assert(step_said(v) == Some(v));
    let item = seq!['-', ' '] + v;
    let b = one.push(item);
    assert(b.drop_last() =~= one);
    assert(b.last() == item);
    assert(item[0] == '-' && item.last() == v.last());
    assert(trim_start_by(item, CharClass::Space) == item);
    assert(trim_end_by(item, CharClass::Space) == item);
    assert(item.drop_first().drop_first() =~= v);
    assert(item.drop_first()[0] == ' ');
    assert(trim_start_by(item.drop_first(), CharClass::ListMark) == v);
    assert(trim_start_by(item, CharClass::ListMark) == v);
    assert(step_said(item) == Some(v));
    if starts_with(item, "## "@) {
        assert(item.take(3)[0] == item[0]);
    }
    assert(last_task(one) == last_task(lines));
    assert(last_task(a) == last_task(one));
}

/// What a model thought aloud does not count: of a reply only what comes after the last closing mark
/// does, without white space around it.
pub proof fn law_thoughts_are_taken_off(thoughts: Seq<char>, answer: Seq<char>)
    requires
        !has_part(answer, "</think>"@),
        answer.len() > 0,
        !is_space(answer[0]) && !is_space(answer.last()),
        thoughts.len() > 0,
        !is_space(thoughts[0]),
        forall|i: int|
            thoughts.len() < i ==> !#[trigger] occurs_at(
                thoughts + "</think>"@ + answer,
                "</think>"@,
                i,
            ),
    ensures
        unthought(thoughts + "</think>"@ + answer) == answer,
        unthought(answer) == answer,
{
    reveal_strlit("</think>");
    let p = "</think>"@;
    let s = thoughts + p + answer;
    assert(s[0] == thoughts[0] && s.last() == answer.last());
    assert(trim_start_by(s, CharClass::Space) == s);
    assert(trim_end_by(s, CharClass::Space) == s);
    assert(trim_start_by(answer, CharClass::Space) == answer);
    assert(trim_end_by(answer, CharClass::Space) == answer);
    lemma_last_place(s, p, s.len() as int);
    assert(s.subrange(thoughts.len() as int, (thoughts.len() + p.len()) as int) =~= p);
    assert(occurs_at(s, p, thoughts.len() as int));
    let i = last_place(s, p, s.len() as int)->0;
    assert(i == thoughts.len());
    assert(s.skip(i + p.len()) =~= answer);
    lemma_last_place(answer, p, answer.len() as int);
    if last_place(answer, p, answer.len() as int) is Some {
        assert(occurs_at(answer, p, last_place(answer, p, answer.len() as int)->0));
    }
}

/// A prompt is put to the model as it is, as a turn of the user in which it is not to think aloud.
pub proof fn law_prompt_is_put_as_it_is(prompt: Seq<char>)
    ensures
        no_think_turn(prompt) == "<|im_start|>user\n/no_think\n"@ + prompt
            + "<|im_end|>\n<|im_start|>assistant\n"@,
{
}

/// The lines that a summary keeps are those that do not name the open task.
pub proof fn law_other_lines_are_kept(lines: Seq<Seq<char>>)
    ensures
        other_lines(lines) == lines.filter(|l: Seq<char>| !names_task(l)),
    decreases lines.len(),
{
    reveal(Seq::filter);
    if lines.len() > 0 {
        law_other_lines_are_kept(lines.drop_last());
    }
}

/// The task that a summary leaves open is the one that it names; else its first next step; else there
/// is none.
pub proof fn law_which_task_is_open(v: Seq<char>, step: Option<Seq<char>>)
    requires
        byte_len(v) <= 200,
    ensures
        open_task_of(Some(v), step) == v,
        step matches Some(x) ==> open_task_of(None, step) == x,
        open_task_of(None, None) == "none"@,
        task_line(v) == "open_task:"@ + " "@ + v,
{
}

/// The fields of a trailer on one line, each behind its label, those that are not given left out.
pub proof fn law_trailer_on_one_line(a: Seq<char>, r: Seq<char>, n: Seq<char>)
    ensures
        joined(
            trailer_parts(
                TrailerView { action: Some(a), result: Some(r), next_step: Some(n) },
            ),
            " | "@,
        ) == "action: "@ + a + " | "@ + ("result: "@ + r) + " | "@ + ("next step: "@ + n),
        joined(
            trailer_parts(TrailerView { action: None, result: None, next_step: Some(n) }),
            " | "@,
        ) == "next step: "@ + n,
        joined(
            trailer_parts(TrailerView { action: Some(a), result: None, next_step: None }),
            " | "@,
        ) == "action: "@ + a,
        joined(
            trailer_parts(TrailerView { action: None, result: Some(r), next_step: None }),
            " | "@,
        ) == "result: "@ + r,
{
    let all = trailer_parts(TrailerView { action: Some(a), result: Some(r), next_step: Some(n) });
    assert(all =~= seq!["action: "@ + a, "result: "@ + r, "next step: "@ + n]);
    assert(all.drop_last() =~= seq!["action: "@ + a, "result: "@ + r]);
    assert(all.drop_last().drop_last() =~= seq!["action: "@ + a]);
    assert(joined(all.drop_last().drop_last(), " | "@) == "action: "@ + a);
    assert(joined(all.drop_last(), " | "@) == "action: "@ + a + " | "@ + ("result: "@ + r));
}

/// The emphasis around a value is no part of it.
pub proof fn law_emphasis_is_taken_off(v: Seq<char>)
    requires
        plain_value(v),
    ensures
        said(seq!['*', '*'] + v + seq!['*', '*']) == Some(v),
        said(seq!['`'] + v + seq!['`']) == Some(v),
        said(seq!['_'] + v + seq!['_']) == Some(v),
{
    lemma_around(seq!['*', '*'], v, seq!['*', '*']);
    lemma_around(seq!['`'], v, seq!['`']);
    lemma_around(seq!['_'], v, seq!['_']);
}

proof fn lemma_around(a: Seq<char>, v: Seq<char>, b: Seq<char>)
    requires
        plain_value(v),
        forall|i: int| 0 <= i < a.len() ==> in_class(CharClass::Noise, #[trigger] a[i]),
        forall|i: int| 0 <= i < b.len() ==> in_class(CharClass::Noise, #[trigger] b[i]),
    ensures
        said(a + v + b) == Some(v),
{
    let k = CharClass::Noise;
    let s = a + v + b;
    lemma_noise_before(a, v + b);
    assert(a + (v + b) =~= s);
    assert((v + b)[0] == v[0]);
    assert(trim_start_by(v + b, k) == v + b);
    lemma_noise_behind(v, b);
}

proof fn lemma_noise_before(a: Seq<char>, t: Seq<char>)
    requires
        forall|i: int| 0 <= i < a.len() ==> in_class(CharClass::Noise, #[trigger] a[i]),
    ensures
        trim_start_by(a + t, CharClass::Noise) == trim_start_by(t, CharClass::Noise),
    decreases a.len(),
{
    if a.len() == 0 {
        assert(a + t =~= t);
    } else {
        let f = a.drop_first();
        assert((a + t)[0] == a[0]);
        assert((a + t).drop_first() =~= f + t);
        assert forall|i: int| 0 <= i < f.len() implies in_class(CharClass::Noise, #[trigger] f[i]) by {
            assert(f[i] == a[i + 1]);
        }
        lemma_noise_before(f, t);
    }
}

proof fn lemma_noise_behind(v: Seq<char>, b: Seq<char>)
    requires
        v.len() > 0,
        !in_class(CharClass::Noise, v.last()),
        forall|i: int| 0 <= i < b.len() ==> in_class(CharClass::Noise, #[trigger] b[i]),
    ensures
        trim_end_by(v + b, CharClass::Noise) == v,
    decreases b.len(),
{
    if b.len() == 0 {
        assert(v + b =~= v);
    } else {
        let f = b.drop_last();
        assert((v + b).last() == b[b.len() - 1]);
        assert((v + b).drop_last() =~= v + f);
        assert forall|i: int| 0 <= i < f.len() implies in_class(CharClass::Noise, #[trigger] f[i]) by {
            assert(f[i] == b[i]);
        }
        lemma_noise_behind(v, f);
    }
}

} // verus!
