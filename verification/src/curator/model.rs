//! What is put around a prompt, and taken off a reply, for a model that thinks aloud.
use vstd::prelude::*;
use crate::text::{chars_of, occurs, tail, trim};
#[allow(unused_imports)]
use crate::text::{occurs_at, trimmed};

verus! {

/// A prompt as a turn of a chat in which the model is not to think aloud.
pub open spec fn no_think_turn(prompt: Seq<char>) -> Seq<char> {
    "<|im_start|>user\n/no_think\n"@ + prompt + "<|im_end|>\n<|im_start|>assistant\n"@
}

/// Puts a prompt into a turn of a chat in which the model is not to think aloud.
pub fn wrap_no_think(prompt: &str) -> (r: String)
    ensures
        r@ == no_think_turn(prompt@),
{
    let mut r = "<|im_start|>user\n/no_think\n".to_owned();
    r.append(prompt);
    r.append("<|im_end|>\n<|im_start|>assistant\n");
    r
}

/// The last place at or before `n` at which `p` stands in `s`.
pub open spec fn last_place(s: Seq<char>, p: Seq<char>, n: int) -> Option<int>
    decreases n + 1,
{
    if n < 0 {
        None
    } else if occurs_at(s, p, n) {
        Some(n)
    } else {
        last_place(s, p, n - 1)
    }
}

/// `last_place` is a place, and none behind it is one.
pub proof fn lemma_last_place(s: Seq<char>, p: Seq<char>, n: int)
    ensures
        match last_place(s, p, n) {
            Some(i) => 0 <= i <= n && occurs_at(s, p, i) && forall|j: int|
                i < j <= n ==> !occurs_at(s, p, j),
            None => forall|j: int| 0 <= j <= n ==> !occurs_at(s, p, j),
        },
    decreases n + 1,
{
    if n >= 0 && !occurs_at(s, p, n) {
        lemma_last_place(s, p, n - 1);
    }
}

/// The text behind the last `p` in `s`; all of it where there is none.
pub open spec fn behind_last(s: Seq<char>, p: Seq<char>) -> Seq<char> {
    match last_place(s, p, s.len() as int) {
        Some(i) => s.skip(i + p.len()),
        None => s,
    }
}

/// A reply without what the model thought aloud.
pub open spec fn unthought(raw: Seq<char>) -> Seq<char> {
    trimmed(behind_last(trimmed(raw), "</think>"@))
}

/// Takes off a reply what the model thought aloud.
pub fn strip_think_block<'a>(raw: &'a str) -> (r: &'a str)
    ensures
        r@ == unthought(raw@),
{
    let s = trim(raw);
    let cs = chars_of(s);
    let mark = chars_of("</think>");
    let mut i: usize = cs.len();
    while i > 0 && !occurs(cs.as_slice(), mark.as_slice(), i)
        invariant
            i <= cs@.len(),
            cs@ == s@,
            mark@ == "</think>"@,
            last_place(s@, "</think>"@, i as int) == last_place(s@, "</think>"@, s@.len() as int),
        decreases i,
    {
        i = i - 1;
    }
    let found = occurs(cs.as_slice(), mark.as_slice(), i);
    proof {
        lemma_last_place(s@, "</think>"@, i as int);
    }
    if found {
        trim(tail(s, i + mark.len()))
    } else {
        trim(s)
    }
}

} // verus!
