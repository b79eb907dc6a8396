//! The order of relative paths, component by component, and sorting by it.

use vstd::prelude::*;
use vstd::relations::{
    antisymmetric, reflexive, sorted_by, strongly_connected, total_ordering, transitive,
};
use vstd::seq_lib::{group_to_multiset_ensures, lemma_sorted_unique};
use crate::path::{paths, RelativePath};
use crate::text::{same_chars, to_chars};

verus! {

/// Whether one text comes no later than another: character by character, a prefix first.
pub open spec fn text_le(a: Seq<char>, b: Seq<char>) -> bool
    decreases a.len(),
{
    if a.len() == 0 {
        true
    } else if b.len() == 0 {
        false
    } else if a[0] == b[0] {
        text_le(a.drop_first(), b.drop_first())
    } else {
        a[0] < b[0]
    }
}

/// Whether one path comes no later than another: component by component, a prefix first.
pub open spec fn path_le(a: Seq<Seq<char>>, b: Seq<Seq<char>>) -> bool
    decreases a.len(),
{
    if a.len() == 0 {
        true
    } else if b.len() == 0 {
        false
    } else if a[0] == b[0] {
        path_le(a.drop_first(), b.drop_first())
    } else {
        text_le(a[0], b[0])
    }
}

/// The order of paths as a relation.
pub open spec fn path_order() -> spec_fn(Seq<Seq<char>>, Seq<Seq<char>>) -> bool {
    |a: Seq<Seq<char>>, b: Seq<Seq<char>>| path_le(a, b)
}

proof fn lemma_text_le_total(a: Seq<char>, b: Seq<char>)
    ensures
        text_le(a, b) || text_le(b, a),
        text_le(a, b) && text_le(b, a) ==> a == b,
    decreases a.len(),
{
    if a.len() > 0 && b.len() > 0 && a[0] == b[0] {
        lemma_text_le_total(a.drop_first(), b.drop_first());
        if text_le(a, b) && text_le(b, a) {
            assert(a =~= seq![a[0]] + a.drop_first());
            assert(b =~= seq![b[0]] + b.drop_first());
        }
    } else if a.len() == 0 && b.len() == 0 {
        assert(a =~= b);
    }
}

proof fn lemma_text_le_transitive(a: Seq<char>, b: Seq<char>, c: Seq<char>)
    requires
        text_le(a, b),
        text_le(b, c),
    ensures
        text_le(a, c),
    decreases a.len(),
{
    if a.len() > 0 && b.len() > 0 && c.len() > 0 && a[0] == b[0] && b[0] == c[0] {
        lemma_text_le_transitive(a.drop_first(), b.drop_first(), c.drop_first());
    }
}

proof fn lemma_path_le_total(a: Seq<Seq<char>>, b: Seq<Seq<char>>)
    ensures
        path_le(a, b) || path_le(b, a),
        path_le(a, b) && path_le(b, a) ==> a == b,
    decreases a.len(),
{
    if a.len() > 0 && b.len() > 0 {
        if a[0] == b[0] {
            lemma_path_le_total(a.drop_first(), b.drop_first());
            if path_le(a, b) && path_le(b, a) {
                assert(a =~= seq![a[0]] + a.drop_first());
                assert(b =~= seq![b[0]] + b.drop_first());
            }
        } else {
            lemma_text_le_total(a[0], b[0]);
        }
    } else if a.len() == 0 && b.len() == 0 {
        assert(a =~= b);
    }
}

proof fn lemma_path_le_transitive(a: Seq<Seq<char>>, b: Seq<Seq<char>>, c: Seq<Seq<char>>)
    requires
        path_le(a, b),
        path_le(b, c),
    ensures
        path_le(a, c),
    decreases a.len(),
{
    if a.len() > 0 && b.len() > 0 && c.len() > 0 {
        if a[0] == b[0] && b[0] == c[0] {
            lemma_path_le_transitive(a.drop_first(), b.drop_first(), c.drop_first());
        } else if a[0] != b[0] && b[0] != c[0] {
            lemma_text_le_transitive(a[0], b[0], c[0]);
            if a[0] == c[0] {
                lemma_text_le_total(a[0], b[0]);
            }
        }
    }
}

/// Law: the order of paths is total, so a set of paths can be sorted in one way only.
pub proof fn law_path_order_is_total()
    ensures
        total_ordering(path_order()),
{
    let r = path_order();
    assert forall|x: Seq<Seq<char>>| #[trigger] r(x, x) by {
        lemma_path_le_total(x, x);
    }
    assert forall|x: Seq<Seq<char>>, y: Seq<Seq<char>>| #[trigger] r(x, y) && #[trigger] r(
        y,
        x,
    ) implies x == y by {
        lemma_path_le_total(x, y);
    }
    assert forall|x: Seq<Seq<char>>, y: Seq<Seq<char>>, z: Seq<Seq<char>>| #[trigger]
        r(x, y) && #[trigger] r(y, z) implies r(x, z) by {
        lemma_path_le_transitive(x, y, z);
    }
    assert forall|x: Seq<Seq<char>>, y: Seq<Seq<char>>| #[trigger] r(x, y) || #[trigger] r(
        y,
        x,
    ) by {
        lemma_path_le_total(x, y);
    }
    assert(reflexive(r));
    assert(antisymmetric(r));
    assert(transitive(r));
    assert(strongly_connected(r));
}

/// The paths in their order.
pub open spec fn sorted(list: Seq<Seq<Seq<char>>>) -> Seq<Seq<Seq<char>>> {
    list.sort_by(path_order())
}

/// Law: sorting keeps each path as often as it was there, and leaves the paths in order.
pub proof fn law_sorted_is_an_ordered_permutation(list: Seq<Seq<Seq<char>>>)
    ensures
        sorted_by(sorted(list), path_order()),
        sorted(list).to_multiset() == list.to_multiset(),
        sorted(list).len() == list.len(),
        forall|p: Seq<Seq<char>>| #[trigger] sorted(list).contains(p) <==> list.contains(p),
{
    broadcast use group_to_multiset_ensures;

    law_path_order_is_total();
    list.lemma_sort_by_ensures(path_order());
    assert(sorted(list).len() == sorted(list).to_multiset().len());
    assert forall|p: Seq<Seq<char>>| #[trigger] sorted(list).contains(p) <==> list.contains(p) by {
        assert(sorted(list).contains(p) <==> sorted(list).to_multiset().count(p) > 0);
        assert(list.contains(p) <==> list.to_multiset().count(p) > 0);
    }
}

/// Whether one text comes no later than another.
fn text_not_after(a: &Vec<char>, b: &Vec<char>) -> (res: bool)
    ensures
        res == text_le(a@, b@),
{
    let mut i: usize = 0;
    proof {
        assert(a@.skip(0) =~= a@);
        assert(b@.skip(0) =~= b@);
    }
    while i < a.len() && i < b.len() && a[i] == b[i]
        invariant
            i <= a@.len(),
            i <= b@.len(),
            text_le(a@, b@) == text_le(a@.skip(i as int), b@.skip(i as int)),
        decreases a.len() - i,
    {
        proof {
            assert(a@.skip(i as int).drop_first() =~= a@.skip(i + 1));
            assert(b@.skip(i as int).drop_first() =~= b@.skip(i + 1));
        }
        i = i + 1;
    }
    if i == a.len() {
        true
    } else if i == b.len() {
        false
    } else {
        a[i] < b[i]
    }
}

/// Whether one path comes no later than another.
pub fn not_after(a: &RelativePath, b: &RelativePath) -> (res: bool)
    ensures
        res == path_le(a@, b@),
{
    let mut i: usize = 0;
    proof {
        assert(a@.skip(0) =~= a@);
        assert(b@.skip(0) =~= b@);
    }
    while i < a.parts.len() && i < b.parts.len()
        invariant
            i <= a.parts@.len(),
            i <= b.parts@.len(),
            path_le(a@, b@) == path_le(a@.skip(i as int), b@.skip(i as int)),
        decreases a.parts.len() - i,
    {
        let left = to_chars(a.parts[i].as_str());
        let right = to_chars(b.parts[i].as_str());
        proof {
            assert(a@.skip(i as int)[0] == left@);
            assert(b@.skip(i as int)[0] == right@);
            assert(a@.skip(i as int).drop_first() =~= a@.skip(i + 1));
            assert(b@.skip(i as int).drop_first() =~= b@.skip(i + 1));
        }
        if !same_chars(&left, &right) {
            return text_not_after(&left, &right);
        }
        i = i + 1;
    }
    i == a.parts.len()
}

proof fn lemma_insert_into_sorted(
    before: Seq<Seq<Seq<char>>>,
    at: int,
    p: Seq<Seq<char>>,
)
    requires
        0 <= at <= before.len(),
        sorted_by(before, path_order()),
        forall|j: int| at <= j < before.len() ==> path_le(p, #[trigger] before[j]),
        at > 0 ==> path_le(before[at - 1], p),
    ensures
        sorted_by(before.insert(at, p), path_order()),
        before.insert(at, p).to_multiset() == before.to_multiset().insert(p),
{
    assert(before.insert(at, p).to_multiset() == before.to_multiset().insert(p)) by {
        vstd::seq_lib::to_multiset_insert(before, at, p);
    }
    let r = path_order();
    let after = before.insert(at, p);
    assert forall|i: int, j: int| 0 <= i < j < after.len() implies #[trigger] r(
        after[i],
        after[j],
    ) by {
        let bi = if i < at { i } else { i - 1 };
        let bj = if j < at { j } else { j - 1 };
        if i != at && j != at {
            assert(after[i] == before[bi]);
            assert(after[j] == before[bj]);
            assert(r(before[bi], before[bj]));
        } else if i == at {
            assert(after[j] == before[bj]);
            assert(path_le(p, before[bj]));
        } else {
            assert(after[i] == before[bi]);
            assert(r(before[at - 1], p));
            if bi < at - 1 {
                assert(r(before[bi], before[at - 1]));
                lemma_path_le_transitive(before[bi], before[at - 1], p);
            }
        }
    }
}

/// Sorts paths.
pub fn sort_paths(list: &Vec<RelativePath>) -> (res: Vec<RelativePath>)
    ensures
        paths(res@) == sorted(paths(list@)),
{
    let mut res: Vec<RelativePath> = Vec::new();
    let mut i: usize = 0;
    let ghost all = paths(list@);
    proof {
        assert(paths(res@) =~= all.take(0));
    }
    while i < list.len()
        invariant
            i <= list@.len(),
            all == paths(list@),
            sorted_by(paths(res@), path_order()),
            paths(res@).to_multiset() == all.take(i as int).to_multiset(),
        decreases list.len() - i,
    {
        let path = list[i].clone();
        let ghost before = paths(res@);
        let mut at: usize = res.len();
        proof {
            assert(path@ == all[i as int]);
        }
        while at > 0 && !not_after(&res[at - 1], &path)
            invariant
                at <= res@.len(),
                before == paths(res@),
                forall|j: int| at <= j < before.len() ==> path_le(path@, #[trigger] before[j]),
            decreases at,
        {
            proof {
                lemma_path_le_total(before[at - 1], path@);
            }
            at = at - 1;
        }
        let ghost old_res = res@;
        res.insert(at, path);
        proof {
            lemma_insert_into_sorted(before, at as int, path@);
            assert(paths(res@) =~= before.insert(at as int, path@));
            assert(all.take(i + 1) =~= all.take(i as int).push(path@));
            vstd::seq_lib::to_multiset_build(all.take(i as int), path@);
        }
        i = i + 1;
    }
    proof {
        assert(all.take(i as int) =~= all);
        law_path_order_is_total();
        law_sorted_is_an_ordered_permutation(all);
        lemma_sorted_unique(paths(res@), sorted(all), path_order());
    }
    res
}

} // verus!
