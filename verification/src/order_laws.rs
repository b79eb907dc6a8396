//! How the order of paths decides between two of them.

use vstd::prelude::*;
use vstd::relations::sorted_by;
use crate::order::{law_sorted_is_an_ordered_permutation, path_le, path_order, sorted, text_le};

verus! {

/// Law: of two texts, the first character in which they differ decides, by its code point; and where one
/// is the start of the other, it comes first.
pub proof fn law_first_difference_orders_texts(
    common: Seq<char>,
    a: char,
    b: char,
    left: Seq<char>,
    right: Seq<char>,
)
    requires
        a != b,
    ensures
        ({
            let x = a as int;
            let y = b as int;
            text_le(common + seq![a] + left, common + seq![b] + right) <==> x < y
        }),
        text_le(common, common + left),
        text_le(common + left, common) <==> left.len() == 0,
    decreases common.len(),
{
    let one = common + seq![a] + left;
    let other = common + seq![b] + right;
    let longer = common + left;
    if common.len() > 0 {
        let rest = common.drop_first();
        law_first_difference_orders_texts(rest, a, b, left, right);
        assert(one.drop_first() =~= rest + seq![a] + left);
        assert(other.drop_first() =~= rest + seq![b] + right);
        assert(longer.drop_first() =~= rest + left);
        assert(one[0] == common[0] && other[0] == common[0] && longer[0] == common[0]);
    } else {
        assert(one[0] == a);
        assert(other[0] == b);
    }
}

/// Law: of two paths, the first name in which they differ decides; and where one lies below the other, the
/// upper one comes first.
pub proof fn law_first_difference_orders_paths(
    common: Seq<Seq<char>>,
    a: Seq<char>,
    b: Seq<char>,
    left: Seq<Seq<char>>,
    right: Seq<Seq<char>>,
)
    requires
        a != b,
    ensures
        path_le(common + seq![a] + left, common + seq![b] + right) <==> text_le(a, b),
        path_le(common, common + left),
        path_le(common + left, common) <==> left.len() == 0,
    decreases common.len(),
{
    let one = common + seq![a] + left;
    let other = common + seq![b] + right;
    let longer = common + left;
    if common.len() > 0 {
        let rest = common.drop_first();
        law_first_difference_orders_paths(rest, a, b, left, right);
        assert(one.drop_first() =~= rest + seq![a] + left);
        assert(other.drop_first() =~= rest + seq![b] + right);
        assert(longer.drop_first() =~= rest + left);
        assert(one[0] == common[0] && other[0] == common[0] && longer[0] == common[0]);
    } else {
        assert(one[0] == a);
        assert(other[0] == b);
    }
}

/// Law: in a sorted list, no path comes after a later one, and every path is there as often as before.
pub proof fn law_sorted_lists_are_in_order(list: Seq<Seq<Seq<char>>>)
    ensures
        forall|i: int, j: int|
            0 <= i <= j < list.len() ==> path_le(#[trigger] sorted(list)[i], #[trigger] sorted(
                list,
            )[j]),
        sorted(list).len() == list.len(),
        sorted(list).to_multiset() == list.to_multiset(),
{
    law_sorted_is_an_ordered_permutation(list);
    crate::order::law_path_order_is_total();
    let r = path_order();
    assert forall|i: int, j: int| 0 <= i <= j < list.len() implies path_le(
        #[trigger] sorted(list)[i],
        #[trigger] sorted(list)[j],
    ) by {
        if i == j {
            assert(r(sorted(list)[i], sorted(list)[i]));
        } else {
            assert(sorted_by(sorted(list), r));
            assert(r(sorted(list)[i], sorted(list)[j]));
        }
    }
}

} // verus!
