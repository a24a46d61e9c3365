//! Texts in alphabetical order: lists and sets.
use vstd::prelude::*;
use crate::text::{chars_of, same};
#[allow(unused_imports)]
use crate::text::views;

verus! {

/// Whether `a` comes before `b` in the order of their characters.
pub open spec fn lex_before(a: Seq<char>, b: Seq<char>) -> bool
    decreases a.len(),
{
    if b.len() == 0 {
        false
    } else if a.len() == 0 {
        true
    } else if a[0] != b[0] {
        a[0] < b[0]
    } else {
        lex_before(a.drop_first(), b.drop_first())
    }
}

/// Whether `a` comes before `b` in the order of their characters.
pub fn comes_first(a: &str, b: &str) -> (r: bool)
    ensures
        r == lex_before(a@, b@),
{
    let x = chars_of(a);
    let y = chars_of(b);
    let mut i: usize = 0;
    proof {
        assert(a@.skip(0) == a@);
        assert(b@.skip(0) == b@);
    }
    while i < x.len() && i < y.len()
        invariant
            i <= x.len(),
            i <= y.len(),
            x@ == a@,
            y@ == b@,
            lex_before(a@, b@) == lex_before(a@.skip(i as int), b@.skip(i as int)),
        decreases x.len() - i,
    {
        proof {
            assert(a@.skip(i as int)[0] == x@[i as int]);
            assert(b@.skip(i as int)[0] == y@[i as int]);
            assert(a@.skip(i as int).drop_first() == a@.skip(i + 1));
            assert(b@.skip(i as int).drop_first() == b@.skip(i + 1));
        }
        if x[i] != y[i] {
            return x[i] < y[i];
        }
        i = i + 1;
    }
    i < y.len()
}

/// The order is strict and total.
pub proof fn lemma_lex_order(a: Seq<char>, b: Seq<char>)
    ensures
        !lex_before(a, a),
        !(lex_before(a, b) && lex_before(b, a)),
        a == b || lex_before(a, b) || lex_before(b, a),
    decreases a.len(),
{
    if a.len() > 0 && b.len() > 0 {
        lemma_lex_order(a.drop_first(), b.drop_first());
        lemma_lex_order(a.drop_first(), a.drop_first());
        if a[0] == b[0] && a.drop_first() == b.drop_first() {
            assert(a == seq![a[0]] + a.drop_first());
            assert(b == seq![b[0]] + b.drop_first());
        }
    } else if a.len() > 0 {
        lemma_lex_order(a.drop_first(), a.drop_first());
    } else {
        assert(a.len() == 0 && b.len() == 0 ==> a =~= b);
    }
}

/// The order carries over.
pub proof fn lemma_lex_trans(a: Seq<char>, b: Seq<char>, c: Seq<char>)
    requires
        lex_before(a, b),
        lex_before(b, c),
    ensures
        lex_before(a, c),
    decreases a.len(),
{
    if a.len() > 0 && a[0] == b[0] && b[0] == c[0] {
        lemma_lex_trans(a.drop_first(), b.drop_first(), c.drop_first());
    }
}

/// An ordered set of texts with one more.
pub open spec fn set_with(l: Seq<Seq<char>>, x: Seq<char>) -> Seq<Seq<char>>
    decreases l.len(),
{
    if l.len() > 0 && lex_before(x, l.last()) {
        set_with(l.drop_last(), x).push(l.last())
    } else if l.len() > 0 && l.last() == x {
        l
    } else {
        l.push(x)
    }
}

/// The different texts of a list, in order.
pub open spec fn sorted_set(l: Seq<Seq<char>>) -> Seq<Seq<char>>
    decreases l.len(),
{
    if l.len() == 0 {
        seq![]
    } else {
        set_with(sorted_set(l.drop_last()), l.last())
    }
}

/// An ordered list of texts with one more.
pub open spec fn list_with(l: Seq<Seq<char>>, x: Seq<char>) -> Seq<Seq<char>>
    decreases l.len(),
{
    if l.len() > 0 && lex_before(x, l.last()) {
        list_with(l.drop_last(), x).push(l.last())
    } else {
        l.push(x)
    }
}

/// The texts of a list, in order.
pub open spec fn sorted_list(l: Seq<Seq<char>>) -> Seq<Seq<char>>
    decreases l.len(),
{
    if l.len() == 0 {
        seq![]
    } else {
        list_with(sorted_list(l.drop_last()), l.last())
    }
}

/// Puts a text into an ordered set.
pub fn add_to_set(l: &mut Vec<String>, x: &str)
    ensures
        views(final(l)@) == set_with(views(old(l)@), x@),
{
    let ghost before = l@;
    let ghost all = views(before);
    let n: usize = l.len();
    let mut i: usize = n;
    proof {
        assert(all.take(n as int) == all);
        assert(all.skip(n as int) == Seq::<Seq<char>>::empty());
        assert(set_with(all.take(n as int), x@) + all.skip(n as int) == set_with(all, x@));
    }
    while i > 0 && comes_first(x, l[i - 1].as_str())
        invariant
            i <= n,
            n == l.len(),
            l@ == before,
            all == views(before),
            set_with(all.take(i as int), x@) + all.skip(i as int) == set_with(all, x@),
        decreases i,
    {
        proof {
            let t = all.take(i as int);
            assert(t.last() == l@[i - 1]@);
            assert(t.drop_last() == all.take(i - 1));
            assert(set_with(all.take(i - 1), x@).push(t.last()) + all.skip(i as int) == set_with(
                all.take(i - 1),
                x@,
            ) + all.skip(i - 1));
        }
        i = i - 1;
    }
    proof {
        if i > 0 {
            assert(all.take(i as int).last() == l@[i - 1]@);
        }
    }
    if i > 0 && same(l[i - 1].as_str(), x) {
        proof {
            assert(all.take(i as int) + all.skip(i as int) == all);
        }
    } else {
        l.insert(i, x.to_owned());
        proof {
            assert(views(l@) =~= all.take(i as int).push(x@) + all.skip(i as int));
        }
    }
}

/// Puts a text into an ordered list.
pub fn add_to_list(l: &mut Vec<String>, x: &str)
    ensures
        views(final(l)@) == list_with(views(old(l)@), x@),
{
    let ghost before = l@;
    let ghost all = views(before);
    let n: usize = l.len();
    let mut i: usize = n;
    proof {
        assert(all.take(n as int) == all);
        assert(all.skip(n as int) == Seq::<Seq<char>>::empty());
        assert(list_with(all.take(n as int), x@) + all.skip(n as int) == list_with(all, x@));
    }
    while i > 0 && comes_first(x, l[i - 1].as_str())
        invariant
            i <= n,
            n == l.len(),
            l@ == before,
            all == views(before),
            list_with(all.take(i as int), x@) + all.skip(i as int) == list_with(all, x@),
        decreases i,
    {
        proof {
            let t = all.take(i as int);
            assert(t.last() == l@[i - 1]@);
            assert(t.drop_last() == all.take(i - 1));
            assert(list_with(all.take(i - 1), x@).push(t.last()) + all.skip(i as int)
                == list_with(all.take(i - 1), x@) + all.skip(i - 1));
        }
        i = i - 1;
    }
    proof {
        if i > 0 {
            assert(all.take(i as int).last() == l@[i - 1]@);
        }
    }
    l.insert(i, x.to_owned());
    proof {
        assert(views(l@) =~= all.take(i as int).push(x@) + all.skip(i as int));
    }
}

/// The different texts of a list, in order.
pub fn to_sorted_set(l: &Vec<String>) -> (r: Vec<String>)
    ensures
        views(r@) == sorted_set(views(l@)),
{
    let mut r: Vec<String> = Vec::new();
    let mut i: usize = 0;
    proof {
        assert(views(r@) =~= seq![]);
        assert(views(l@).take(0) == Seq::<Seq<char>>::empty());
    }
    while i < l.len()
        invariant
            i <= l.len(),
            views(r@) == sorted_set(views(l@).take(i as int)),
        decreases l.len() - i,
    {
        proof {
            let t = views(l@).take(i + 1);
            assert(t.drop_last() == views(l@).take(i as int));
            assert(t.last() == l@[i as int]@);
        }
        add_to_set(&mut r, l[i].as_str());
        i = i + 1;
    }
    proof {
        assert(views(l@).take(l@.len() as int) == views(l@));
    }
    r
}

/// The texts of a list, in order.
pub fn to_sorted_list(l: &Vec<String>) -> (r: Vec<String>)
    ensures
        views(r@) == sorted_list(views(l@)),
{
    let mut r: Vec<String> = Vec::new();
    let mut i: usize = 0;
    proof {
        assert(views(r@) =~= seq![]);
        assert(views(l@).take(0) == Seq::<Seq<char>>::empty());
    }
    while i < l.len()
        invariant
            i <= l.len(),
            views(r@) == sorted_list(views(l@).take(i as int)),
        decreases l.len() - i,
    {
        proof {
            let t = views(l@).take(i + 1);
            assert(t.drop_last() == views(l@).take(i as int));
            assert(t.last() == l@[i as int]@);
        }
        add_to_list(&mut r, l[i].as_str());
        i = i + 1;
    }
    proof {
        assert(views(l@).take(l@.len() as int) == views(l@));
    }
    r
}

/// Whether each text of a list comes before the next.
pub open spec fn ascending(l: Seq<Seq<char>>) -> bool {
    forall|i: int, j: int| 0 <= i < j < l.len() ==> lex_before(#[trigger] l[i], #[trigger] l[j])
}

/// The set of the texts of a list is in order, without repetitions, and holds exactly those texts.
pub proof fn law_sorted_set(l: Seq<Seq<char>>)
    ensures
        ascending(sorted_set(l)),
        forall|x: Seq<char>| #[trigger] sorted_set(l).contains(x) == l.contains(x),
    decreases l.len(),
{
    if l.len() > 0 {
        let b = l.drop_last();
        law_sorted_set(b);
        lemma_set_with(sorted_set(b), l.last());
        assert forall|x: Seq<char>| #[trigger] sorted_set(l).contains(x) == l.contains(x) by {
            if l.contains(x) {
                let i = choose|i: int| 0 <= i < l.len() && l[i] == x;
                if i < b.len() {
                    assert(b[i] == x);
                    assert(sorted_set(b).contains(x));
                }
            }
            if b.contains(x) {
                let i = choose|i: int| 0 <= i < b.len() && b[i] == x;
                assert(l[i] == x);
            }
            assert(l[l.len() - 1] == l.last());
            assert(sorted_set(b).contains(x) == b.contains(x));
        }
    } else {
        assert forall|x: Seq<char>| #[trigger] sorted_set(l).contains(x) == l.contains(x) by {}
    }
}

proof fn lemma_set_with(l: Seq<Seq<char>>, x: Seq<char>)
    requires
        ascending(l),
    ensures
        ascending(set_with(l, x)),
        forall|y: Seq<char>|
            #[trigger] set_with(l, x).contains(y) == (l.contains(y) || y == x),
    decreases l.len(),
{
    let r = set_with(l, x);
    if l.len() > 0 && lex_before(x, l.last()) {
        let b = l.drop_last();
        let z = l.last();
        assert(ascending(b)) by {
            assert forall|i: int, j: int| 0 <= i < j < b.len() implies lex_before(
                #[trigger] b[i],
                #[trigger] b[j],
            ) by {
                assert(b[i] == l[i] && b[j] == l[j]);
            }
        }
        lemma_set_with(b, x);
        let q = set_with(b, x);
        assert forall|i: int, j: int| 0 <= i < j < r.len() implies lex_before(
            #[trigger] r[i],
            #[trigger] r[j],
        ) by {
            assert(r[i] == q[i]);
            if j < q.len() {
                assert(r[j] == q[j]);
            } else {
                assert(q.contains(q[i]));
                if q[i] != x {
                    assert(b.contains(q[i]));
                    let k = choose|k: int| 0 <= k < b.len() && b[k] == q[i];
                    assert(l[k] == b[k]);
                    assert(lex_before(l[k], l[l.len() - 1]));
                }
            }
        }
        assert forall|y: Seq<char>| #[trigger] r.contains(y) == (l.contains(y) || y == x) by {
            if r.contains(y) {
                let i = choose|i: int| 0 <= i < r.len() && r[i] == y;
                if i < q.len() {
                    assert(q[i] == y);
                    assert(q.contains(y));
                    if y != x {
                        let k = choose|k: int| 0 <= k < b.len() && b[k] == y;
                        assert(l[k] == y);
                    }
                } else {
                    assert(l[l.len() - 1] == y);
                }
            }
            if l.contains(y) || y == x {
                if y == z {
                    assert(r[r.len() - 1] == y);
                } else {
                    if l.contains(y) {
                        let k = choose|k: int| 0 <= k < l.len() && l[k] == y;
                        assert(b[k] == y);
                    }
                    assert(q.contains(y));
                    let i = choose|i: int| 0 <= i < q.len() && q[i] == y;
                    assert(r[i] == y);
                }
            }
        }
    } else if l.len() > 0 && l.last() == x {
        assert(l[l.len() - 1] == x);
    } else {
        if l.len() > 0 {
            lemma_lex_order(x, l.last());
        }
        assert forall|i: int, j: int| 0 <= i < j < r.len() implies lex_before(
            #[trigger] r[i],
            #[trigger] r[j],
        ) by {
            assert(r[i] == l[i]);
            if j < l.len() {
                assert(r[j] == l[j]);
            } else if i < l.len() - 1 {
                assert(lex_before(l[i], l[l.len() - 1]));
                lemma_lex_trans(l[i], l.last(), x);
            }
        }
        assert forall|y: Seq<char>| #[trigger] r.contains(y) == (l.contains(y) || y == x) by {
            if l.contains(y) {
                let k = choose|k: int| 0 <= k < l.len() && l[k] == y;
                assert(r[k] == y);
            }
            assert(r[r.len() - 1] == x);
            if r.contains(y) && y != x {
                let i = choose|i: int| 0 <= i < r.len() && r[i] == y;
                assert(l[i] == y);
            }
        }
    }
}

/// Whether no text of a list comes before one that stands ahead of it.
pub open spec fn in_text_order(l: Seq<Seq<char>>) -> bool {
    forall|i: int, j: int| 0 <= i < j < l.len() ==> !lex_before(#[trigger] l[j], #[trigger] l[i])
}

/// The texts of a list come out in order, and none is lost or invented, however often it stands
/// there.
pub proof fn law_sorted_list(l: Seq<Seq<char>>)
    ensures
        in_text_order(sorted_list(l)),
        sorted_list(l).to_multiset() == l.to_multiset(),
    decreases l.len(),
{
    broadcast use vstd::seq_lib::to_multiset_build;

    if l.len() > 0 {
        law_sorted_list(l.drop_last());
        lemma_list_with(sorted_list(l.drop_last()), l.last());
        assert(l.drop_last().push(l.last()) == l);
    } else {
        assert(sorted_list(l) == l);
    }
}

proof fn lemma_list_with(l: Seq<Seq<char>>, x: Seq<char>)
    requires
        in_text_order(l),
    ensures
        in_text_order(list_with(l, x)),
        list_with(l, x).to_multiset() == l.push(x).to_multiset(),
        forall|i: int|
            0 <= i < list_with(l, x).len() ==> #[trigger] list_with(l, x)[i] == x || l.contains(
                list_with(l, x)[i],
            ),
    decreases l.len(),
{
    broadcast use vstd::seq_lib::to_multiset_build;

    let p = list_with(l, x);
    if l.len() > 0 && lex_before(x, l.last()) {
        let b = l.drop_last();
        let y = l.last();
        assert forall|i: int, j: int| 0 <= i < j < b.len() implies !lex_before(
            #[trigger] b[j],
            #[trigger] b[i],
        ) by {
            assert(b[i] == l[i] && b[j] == l[j]);
        }
        lemma_list_with(b, x);
        let q = list_with(b, x);
        assert(p == q.push(y));
        assert(b.push(y) == l);
        assert(p.to_multiset() =~= l.push(x).to_multiset());
        lemma_lex_order(x, y);
        assert forall|i: int, j: int| 0 <= i < j < p.len() implies !lex_before(
            #[trigger] p[j],
            #[trigger] p[i],
        ) by {
            assert(p[i] == q[i]);
            if j < q.len() {
                assert(p[j] == q[j]);
            } else if q[i] != x {
                assert(b.contains(q[i]));
                let k = choose|k: int| 0 <= k < b.len() && b[k] == q[i];
                assert(l[k] == b[k]);
                assert(!lex_before(l[l.len() - 1], l[k]));
            }
        }
        assert forall|i: int| 0 <= i < p.len() implies #[trigger] p[i] == x || l.contains(
            p[i],
        ) by {
            if i < q.len() {
                assert(p[i] == q[i]);
                if q[i] != x {
                    assert(b.contains(q[i]));
                    let k = choose|k: int| 0 <= k < b.len() && b[k] == q[i];
                    assert(l[k] == q[i]);
                }
            } else {
                assert(l[l.len() - 1] == y);
            }
        }
    } else {
        assert forall|i: int, j: int| 0 <= i < j < p.len() implies !lex_before(
            #[trigger] p[j],
            #[trigger] p[i],
        ) by {
            assert(p[i] == l[i]);
            if j < l.len() {
                assert(p[j] == l[j]);
            } else if i < l.len() - 1 {
                assert(!lex_before(l[l.len() - 1], l[i]));
                lemma_lex_order(l[l.len() - 1], l[i]);
                lemma_lex_order(x, l[l.len() - 1]);
                if lex_before(x, l[i]) {
                    if l[i] != l[l.len() - 1] {
                        lemma_lex_trans(x, l[i], l[l.len() - 1]);
                    }
                }
            }
        }
        assert forall|i: int| 0 <= i < p.len() implies #[trigger] p[i] == x || l.contains(
            p[i],
        ) by {
            if i < l.len() {
                assert(p[i] == l[i]);
            }
        }
    }
}

} // verus!
