//! What the order of texts is.

use vstd::prelude::*;

use crate::order::Ranked;

verus! {

/// One text comes before another where, at the first place at which they
/// differ, its character is the smaller one, or where the other goes on from
/// it.
pub proof fn the_first_difference_decides(a: Seq<char>, b: Seq<char>, k: int)
    requires
        0 <= k <= a.len(),
        k <= b.len(),
        forall|i: int| 0 <= i < k ==> a[i] == b[i],
    ensures
        k < a.len() && k < b.len() && a[k] != b[k] ==> (crate::order::text_leq(a, b) <==> a[k]
            < b[k]),
        k == a.len() ==> crate::order::text_leq(a, b),
        k == b.len() && k < a.len() ==> !crate::order::text_leq(a, b),
    decreases k,
{
    if k > 0 {
        let (x, y) = (a.drop_first(), b.drop_first());
        assert(a[0] == b[0]);
        assert forall|i: int| 0 <= i < k - 1 implies x[i] == y[i] by {
            assert(a[i + 1] == b[i + 1]);
        }
        the_first_difference_decides(x, y, k - 1);
    }
}

/// Strings are sorted in the order of their texts.
pub proof fn sorted_strings_are_in_text_order(s: Seq<String>)
    ensures
        crate::order::is_sorted(s) <==> forall|i: int, j: int|
            0 <= i < j < s.len() ==> crate::order::text_leq((#[trigger] s[i])@, (#[trigger] s[j])@),
{
    if crate::order::is_sorted(s) {
        assert forall|i: int, j: int| 0 <= i < j < s.len() implies crate::order::text_leq(
            (#[trigger] s[i])@,
            (#[trigger] s[j])@,
        ) by {
            assert(s[i].leq(s[j]));
        }
    }
}

} // verus!
