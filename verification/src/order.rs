//! Ordering of texts, and sorting.

use vstd::prelude::*;

use crate::text::chars;

verus! {

/// Order of two texts by their characters, first difference first; a text
/// comes before its own extensions. For UTF-8 strings this is also the order
/// of their bytes.
pub open spec fn text_leq(a: Seq<char>, b: Seq<char>) -> bool
    decreases a.len(),
{
    a.len() == 0 || (b.len() > 0 && (a[0] < b[0] || (a[0] == b[0] && text_leq(
        a.drop_first(),
        b.drop_first(),
    ))))
}

/// Strictly before.
pub open spec fn text_lt(a: Seq<char>, b: Seq<char>) -> bool {
    text_leq(a, b) && a != b
}

/// Any two texts are ordered.
pub proof fn text_leq_total(a: Seq<char>, b: Seq<char>)
    ensures
        text_leq(a, b) || text_leq(b, a),
    decreases a.len(),
{
    if a.len() > 0 && b.len() > 0 && a[0] == b[0] {
        text_leq_total(a.drop_first(), b.drop_first());
    }
}

/// The order of texts is transitive.
pub proof fn text_leq_trans(a: Seq<char>, b: Seq<char>, c: Seq<char>)
    requires
        text_leq(a, b),
        text_leq(b, c),
    ensures
        text_leq(a, c),
    decreases a.len(),
{
    if a.len() > 0 && a[0] == b[0] && b[0] == c[0] {
        text_leq_trans(a.drop_first(), b.drop_first(), c.drop_first());
    }
}

/// Texts ordered both ways are the same text.
pub proof fn text_leq_antisym(a: Seq<char>, b: Seq<char>)
    requires
        text_leq(a, b),
        text_leq(b, a),
    ensures
        a == b,
    decreases a.len(),
{
    if a.len() > 0 {
        text_leq_antisym(a.drop_first(), b.drop_first());
        assert(a =~= seq![a[0]] + a.drop_first());
        assert(b =~= seq![b[0]] + b.drop_first());
    } else {
        assert(a =~= b);
    }
}

/// A text is ordered with itself.
pub proof fn text_leq_refl(a: Seq<char>)
    ensures
        text_leq(a, a),
    decreases a.len(),
{
    if a.len() > 0 {
        text_leq_refl(a.drop_first());
    }
}

/// A common beginning does not decide the order.
pub proof fn text_leq_prefix(p: Seq<char>, a: Seq<char>, b: Seq<char>)
    ensures
        text_leq(p + a, p + b) == text_leq(a, b),
    decreases p.len(),
{
    if p.len() == 0 {
        assert(p + a =~= a);
        assert(p + b =~= b);
    } else {
        assert((p + a).drop_first() =~= p.drop_first() + a);
        assert((p + b).drop_first() =~= p.drop_first() + b);
        text_leq_prefix(p.drop_first(), a, b);
    }
}

/// Is `a` at or before `b`?
pub fn is_text_leq(a: &str, b: &str) -> (yes: bool)
    ensures
        yes == text_leq(a@, b@),
{
    let x = chars(a);
    let y = chars(b);
    let mut i: usize = 0;
    proof {
        assert(x@.skip(0) =~= x@);
        assert(y@.skip(0) =~= y@);
    }
    while i < x.len()
        invariant
            i <= x.len(),
            i <= y.len(),
            x@ == a@,
            y@ == b@,
            text_leq(x@, y@) == text_leq(x@.skip(i as int), y@.skip(i as int)),
        decreases x.len() - i,
    {
        if i == y.len() || x[i] > y[i] {
            return false;
        }
        if x[i] < y[i] {
            return true;
        }
        proof {
            assert(x@.skip(i as int).drop_first() =~= x@.skip(i + 1));
            assert(y@.skip(i as int).drop_first() =~= y@.skip(i + 1));
        }
        i += 1;
    }
    true
}

/// Items that can be sorted: a total order in which different items may rank
/// the same.
pub trait Ranked: Sized {
    /// Does `self` rank at or before `other`?
    spec fn leq(self, other: Self) -> bool;

    /// Any two items are ordered.
    proof fn leq_total(a: Self, b: Self)
        ensures
            a.leq(b) || b.leq(a),
    ;

    /// The order is transitive.
    proof fn leq_trans(a: Self, b: Self, c: Self)
        requires
            a.leq(b),
            b.leq(c),
        ensures
            a.leq(c),
    ;

    /// Does `self` rank at or before `other`?
    fn is_leq(&self, other: &Self) -> (yes: bool)
        ensures
            yes == self.leq(*other),
    ;
}

impl Ranked for String {
    open spec fn leq(self, other: Self) -> bool {
        text_leq(self@, other@)
    }

    proof fn leq_total(a: Self, b: Self) {
        text_leq_total(a@, b@);
    }

    proof fn leq_trans(a: Self, b: Self, c: Self) {
        text_leq_trans(a@, b@, c@);
    }

    fn is_leq(&self, other: &Self) -> (yes: bool) {
        is_text_leq(self.as_str(), other.as_str())
    }
}

/// No item is followed by one that ranks strictly before it.
pub open spec fn is_sorted<T: Ranked>(s: Seq<T>) -> bool {
    forall|i: int, j: int| 0 <= i < j < s.len() ==> #[trigger] s[i].leq(#[trigger] s[j])
}

/// The items of `s` that rank the same as `x`, in their order.
pub open spec fn peers<T: Ranked>(s: Seq<T>, x: T) -> Seq<T> {
    s.filter(|e: T| e.leq(x) && x.leq(e))
}

proof fn peers_after_insert<T: Ranked>(s: Seq<T>, at: int, e: T, x: T)
    requires
        0 <= at <= s.len(),
        forall|k: int| 0 <= k < at ==> !e.leq(#[trigger] s[k]),
    ensures
        peers(s.insert(at, e), x) == peers(seq![e], x) + peers(s, x),
{
    let p = |y: T| y.leq(x) && x.leq(y);
    let head = s.take(at);
    let tail = s.skip(at);
    assert(s.insert(at, e) =~= head + (seq![e] + tail));
    assert(s =~= head + tail);
    Seq::filter_distributes_over_add(head, seq![e] + tail, p);
    Seq::filter_distributes_over_add(seq![e], tail, p);
    Seq::filter_distributes_over_add(head, tail, p);
    if p(e) {
        assert forall|k: int| 0 <= k < head.len() implies !#[trigger] p(head[k]) by {
            assert(head[k] == s[k]);
            if p(s[k]) {
                T::leq_trans(e, x, s[k]);
            }
        }
        assert(head.filter(p) =~= Seq::<T>::empty()) by {
            if head.filter(p).len() > 0 {
                head.lemma_filter_pred(p, 0);
                assert(head.filter(p).contains(head.filter(p)[0]));
                head.lemma_filter_contains_rev(p, head.filter(p)[0]);
            }
        }
        assert(peers(s.insert(at, e), x) =~= peers(seq![e], x) + peers(s, x));
    } else {
        assert(seq![e].filter(p) =~= Seq::<T>::empty()) by {
            reveal_with_fuel(Seq::filter, 2);
            assert(seq![e].drop_last() =~= Seq::<T>::empty());
        }
        assert(peers(s.insert(at, e), x) =~= peers(seq![e], x) + peers(s, x));
    }
}

/// Sorts a list. Items that rank the same keep their order.
pub fn sort<T: Ranked>(list: Vec<T>) -> (out: Vec<T>)
    ensures
        is_sorted(out@),
        out@.to_multiset() == list@.to_multiset(),
        forall|x: T| #[trigger] peers(out@, x) == peers(list@, x),
{
    let mut rest = list;
    let mut out: Vec<T> = Vec::new();
    let ghost whole = list@;
    proof {
        whole.to_multiset_ensures();
        Seq::<T>::empty().to_multiset_ensures();
        assert(whole.to_multiset() =~= whole.to_multiset().add(out@.to_multiset()));
        assert forall|x: T| #[trigger] peers(whole, x) == peers(rest@, x) + peers(out@, x) by {
            assert(peers(out@, x) =~= Seq::<T>::empty());
            assert(peers(whole, x) + Seq::<T>::empty() =~= peers(whole, x));
        }
    }
    while rest.len() > 0
        invariant
            is_sorted(out@),
            whole.to_multiset() == rest@.to_multiset().add(out@.to_multiset()),
            forall|x: T| #[trigger] peers(whole, x) == peers(rest@, x) + peers(out@, x),
        decreases rest.len(),
    {
        let ghost rest_before = rest@;
        let ghost out_before = out@;
        let item = rest.pop().unwrap();
        let mut at: usize = 0;
        while at < out.len() && !item.is_leq(&out[at])
            invariant
                at <= out.len(),
                out@ == out_before,
                forall|k: int| 0 <= k < at ==> !item.leq(#[trigger] out@[k]),
            decreases out.len() - at,
        {
            at += 1;
        }
        let ghost e = item;
        out.insert(at, item);
        proof {
            let s = out_before;
            assert(out@ == s.insert(at as int, e));
            assert(rest_before =~= rest@.push(e));
            vstd::seq_lib::to_multiset_build(rest@, e);
            vstd::seq_lib::to_multiset_insert(s, at as int, e);
            assert(rest@.to_multiset().add(out@.to_multiset()) =~= rest_before.to_multiset().add(
                s.to_multiset(),
            ));
            assert forall|i: int, j: int| 0 <= i < j < out@.len() implies #[trigger] out@[i].leq(
                #[trigger] out@[j],
            ) by {
                let si = if i < at { i } else { i - 1 };
                let sj = if j < at { j } else { j - 1 };
                if i == at {
                    assert(out@[j] == s[sj]);
                    if sj > at {
                        assert(s[at as int].leq(s[sj]));
                        T::leq_trans(e, s[at as int], s[sj]);
                    }
                } else if j == at {
                    assert(out@[i] == s[si]);
                    T::leq_total(e, s[si]);
                } else {
                    assert(out@[i] == s[si] && out@[j] == s[sj]);
                }
            }
            assert forall|x: T| #[trigger] peers(whole, x) == peers(rest@, x) + peers(out@, x) by {
                peers_after_insert(s, at as int, e, x);
                let p = |y: T| y.leq(x) && x.leq(y);
                assert(rest_before =~= rest@ + seq![e]);
                Seq::filter_distributes_over_add(rest@, seq![e], p);
                assert(peers(rest_before, x) + peers(s, x) =~= peers(rest@, x) + (peers(
                    seq![e],
                    x,
                ) + peers(s, x)));
            }
        }
    }
    proof {
        assert(rest@ =~= Seq::<T>::empty());
        rest@.to_multiset_ensures();
        assert(rest@.to_multiset().add(out@.to_multiset()) =~= out@.to_multiset());
        assert forall|x: T| #[trigger] peers(out@, x) == peers(whole, x) by {
            assert(peers(rest@, x) =~= Seq::<T>::empty());
            assert(peers(rest@, x) + peers(out@, x) =~= peers(out@, x));
        }
    }
    out
}

} // verus!
