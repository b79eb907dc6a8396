//! What holds of every plan: where its paths lie, that they do not nest, and what they come from.

use vstd::prelude::*;
use crate::changes::{
    class_of, has_overlap, keys, labelled, overlap, read_list, ChangesView, Classification,
};
use crate::directory_laws::{above, lemma_marked, marked, none_below, plan_fits_dirs};
use crate::disk::ListedView;
use crate::install_laws::{apart, nothing_below, plan_fits};
use crate::order::{law_sorted_is_an_ordered_permutation, sorted};
use crate::path::{key_of, normalized, reserved_name, PathFault, Platform};
use crate::path_laws::{
    folded, law_accepted_paths_stay_below_the_root, law_nested_paths_have_overlapping_keys,
    stays_below,
};
use crate::plan::{
    among, full_entries, left_out, lemma_first_with_none, read_changes, settled, survey_result,
    Declared, PackageView, SurveyView, UpdatePlanView,
};

verus! {

/// Whether no path of some lies at or below another, as the platform compares names.
pub open spec fn separate(platform: Platform, list: Seq<Seq<Seq<char>>>) -> bool {
    forall|i: int, j: int|
        0 <= i < list.len() && 0 <= j < list.len() && i != j ==> !folded(
            platform,
            #[trigger] list[i],
        ).is_prefix_of(folded(platform, #[trigger] list[j]))
}

/// All paths that a manifest declares.
pub open spec fn all_paths(declared: Declared) -> Seq<Seq<Seq<char>>> {
    declared.added + declared.modified + declared.deleted
}

proof fn lemma_class_of_none_means_absent(
    declared: Seq<(Seq<char>, Classification)>,
    key: Seq<char>,
)
    requires
        class_of(declared, key) is None,
    ensures
        forall|j: int| 0 <= j < declared.len() ==> (#[trigger] declared[j]).0 != key,
    decreases declared.len(),
{
    if declared.len() > 0 {
        let front = declared.drop_last();
        lemma_class_of_none_means_absent(front, key);
        assert forall|j: int| 0 <= j < declared.len() implies (#[trigger] declared[j]).0 != key by {
            if j < front.len() {
                assert(front[j] == declared[j]);
            }
        }
    }
}

proof fn lemma_read_list(
    platform: Platform,
    class: Classification,
    raw: Seq<Seq<char>>,
    earlier: Seq<(Seq<char>, Classification)>,
)
    requires
        read_list(platform, class, raw, earlier) is Ok,
    ensures
        ({
            let list = read_list(platform, class, raw, earlier)->Ok_0;
            &&& list.len() == raw.len()
            &&& forall|i: int|
                0 <= i < list.len() ==> normalized(platform, raw[i]) == Ok::<
                    Seq<Seq<char>>,
                    PathFault,
                >(#[trigger] list[i])
            &&& forall|i: int, j: int|
                0 <= i < j < list.len() ==> key_of(platform, #[trigger] list[i]) != key_of(
                    platform,
                    #[trigger] list[j],
                )
            &&& forall|i: int, j: int|
                0 <= i < list.len() && 0 <= j < earlier.len() ==> (#[trigger] earlier[j]).0
                    != key_of(platform, #[trigger] list[i])
        }),
    decreases raw.len(),
{
    if raw.len() > 0 {
        lemma_read_list(platform, class, raw.drop_last(), earlier);
        let before = read_list(platform, class, raw.drop_last(), earlier)->Ok_0;
        let list = read_list(platform, class, raw, earlier)->Ok_0;
        let path = list.last();
        let key = key_of(platform, path);
        assert(list == before.push(path));
        lemma_class_of_none_means_absent(earlier, key);
        assert forall|i: int| 0 <= i < list.len() implies normalized(platform, raw[i]) == Ok::<
            Seq<Seq<char>>,
            PathFault,
        >(#[trigger] list[i]) by {
            if i < before.len() {
                assert(list[i] == before[i]);
                assert(raw.drop_last()[i] == raw[i]);
            }
        }
        assert forall|i: int, j: int| 0 <= i < j < list.len() implies key_of(
            platform,
            #[trigger] list[i],
        ) != key_of(platform, #[trigger] list[j]) by {
            assert(list[i] == before[i]);
            if j < before.len() {
                assert(list[j] == before[j]);
            } else {
                assert(keys(platform, before)[i] == key_of(platform, before[i]));
                assert(!keys(platform, before).contains(key));
            }
        }
        assert forall|i: int, j: int| 0 <= i < list.len() && 0 <= j < earlier.len() implies (
        #[trigger] earlier[j]).0 != key_of(platform, #[trigger] list[i]) by {
            if i < before.len() {
                assert(list[i] == before[i]);
            }
        }
    }
}

proof fn lemma_classes_name_all_paths(platform: Platform, declared: Declared)
    ensures
        declared.classes(platform).len() == all_paths(declared).len(),
        forall|i: int|
            0 <= i < all_paths(declared).len() ==> (#[trigger] declared.classes(platform)[i]).0
                == key_of(platform, all_paths(declared)[i]),
{
}

proof fn lemma_read_changes(platform: Platform, changes: ChangesView)
    requires
        read_changes(platform, changes) is Ok,
    ensures
        ({
            let all = all_paths(read_changes(platform, changes)->Ok_0);
            &&& forall|i: int| 0 <= i < all.len() ==> stays_below(platform, #[trigger] all[i])
            &&& forall|i: int, j: int|
                0 <= i < j < all.len() ==> key_of(platform, #[trigger] all[i]) != key_of(
                    platform,
                    #[trigger] all[j],
                )
        }),
{
    let d = read_changes(platform, changes)->Ok_0;
    let all = all_paths(d);
    let raw_added = changes.added;
    let raw_modified = changes.modified;
    let raw_deleted = changes.deleted;
    let first = labelled(platform, Classification::Added, d.added);
    let second = first + labelled(platform, Classification::Modified, d.modified);
    lemma_read_list(platform, Classification::Added, raw_added, Seq::empty());
    lemma_read_list(platform, Classification::Modified, raw_modified, first);
    lemma_read_list(platform, Classification::Deleted, raw_deleted, second);
    let a = d.added.len();
    let m = a + d.modified.len();
    assert forall|i: int| 0 <= i < all.len() implies stays_below(platform, #[trigger] all[i]) by {
        if i < a {
            assert(all[i] == d.added[i]);
            law_accepted_paths_stay_below_the_root(platform, raw_added[i]);
        } else if i < m {
            assert(all[i] == d.modified[i - a]);
            law_accepted_paths_stay_below_the_root(platform, raw_modified[i - a]);
        } else {
            assert(all[i] == d.deleted[i - m]);
            law_accepted_paths_stay_below_the_root(platform, raw_deleted[i - m]);
        }
    }
    assert forall|i: int, j: int| 0 <= i < j < all.len() implies key_of(
        platform,
        #[trigger] all[i],
    ) != key_of(platform, #[trigger] all[j]) by {
        if j < a {
            assert(all[i] == d.added[i] && all[j] == d.added[j]);
        } else if j < m {
            assert(all[j] == d.modified[j - a]);
            if i < a {
                assert(all[i] == d.added[i]);
                assert(first[i].0 == key_of(platform, all[i]));
            } else {
                assert(all[i] == d.modified[i - a]);
            }
        } else {
            assert(all[j] == d.deleted[j - m]);
            if i < a {
                assert(all[i] == d.added[i]);
                assert(second[i] == first[i]);
                assert(second[i].0 == key_of(platform, all[i]));
            } else if i < m {
                assert(all[i] == d.modified[i - a]);
                assert(second[i].0 == key_of(platform, all[i]));
            } else {
                assert(all[i] == d.deleted[i - m]);
            }
        }
    }
}

/// Law: the paths of a manifest that is accepted stay below the update root and outside what updates
/// leave alone, and no path lies at or below another.
pub proof fn law_accepted_manifest_is_separate(platform: Platform, changes: ChangesView)
    requires
        read_changes(platform, changes) is Ok,
        !has_overlap(read_changes(platform, changes)->Ok_0.classes(platform)),
    ensures
        separate(platform, all_paths(read_changes(platform, changes)->Ok_0)),
        forall|i: int|
            0 <= i < all_paths(read_changes(platform, changes)->Ok_0).len() ==> stays_below(
                platform,
                #[trigger] all_paths(read_changes(platform, changes)->Ok_0)[i],
            ),
{
    let d = read_changes(platform, changes)->Ok_0;
    let all = all_paths(d);
    let named = d.classes(platform);
    lemma_read_changes(platform, changes);
    lemma_classes_name_all_paths(platform, d);
    assert forall|i: int, j: int| 0 <= i < all.len() && 0 <= j < all.len() && i != j implies !folded(
        platform,
        #[trigger] all[i],
    ).is_prefix_of(folded(platform, #[trigger] all[j])) by {
        if folded(platform, all[i]).is_prefix_of(folded(platform, all[j])) {
            assert(stays_below(platform, all[i]));
            law_nested_paths_have_overlapping_keys(platform, all[i], all[j]);
            assert(overlap(named[i].0, named[j].0));
            assert(overlap(named[j].0, named[i].0));
            if i < j {
                assert(key_of(platform, all[i]) != key_of(platform, all[j]));
            } else {
                assert(key_of(platform, all[j]) != key_of(platform, all[i]));
            }
        }
    }
}

proof fn lemma_part_is_separate(
    platform: Platform,
    all: Seq<Seq<Seq<char>>>,
    part: Seq<Seq<Seq<char>>>,
)
    requires
        separate(platform, all),
        part.no_duplicates(),
        forall|i: int| 0 <= i < part.len() ==> all.contains(#[trigger] part[i]),
    ensures
        separate(platform, part),
{
    assert forall|i: int, j: int| 0 <= i < part.len() && 0 <= j < part.len() && i != j implies !folded(
        platform,
        #[trigger] part[i],
    ).is_prefix_of(folded(platform, #[trigger] part[j])) by {
        assert(all.contains(part[i]) && all.contains(part[j]));
        let a = choose|a: int| 0 <= a < all.len() && all[a] == part[i];
        let b = choose|b: int| 0 <= b < all.len() && all[b] == part[j];
        assert(part[i] != part[j]);
        assert(a != b);
        assert(!folded(platform, all[a]).is_prefix_of(folded(platform, all[b])));
    }
}

proof fn lemma_separate_is_apart(platform: Platform, list: Seq<Seq<Seq<char>>>)
    requires
        separate(platform, list),
    ensures
        apart(list),
        list.no_duplicates(),
{
    assert forall|i: int, j: int| 0 <= i < list.len() && 0 <= j < list.len() && i != j implies !(
    #[trigger] list[i]).is_prefix_of(#[trigger] list[j]) by {
        if list[i].is_prefix_of(list[j]) {
            let p = folded(platform, list[i]);
            let q = folded(platform, list[j]);
            assert(p =~= q.subrange(0, p.len() as int)) by {
                assert forall|k: int| 0 <= k < p.len() implies p[k] == q[k] by {
                    assert(list[i][k] == list[j].subrange(0, list[i].len() as int)[k]);
                }
            }
        }
    }
    assert forall|i: int, j: int| 0 <= i < list.len() && 0 <= j < list.len() && i != j implies list[i]
        != list[j] by {
        if list[i] == list[j] {
            assert(list[i] =~= list[j].subrange(0, list[i].len() as int));
        }
    }
}

proof fn lemma_filter_keeps_no_duplicates(
    list: Seq<Seq<Seq<char>>>,
    kept: spec_fn(Seq<Seq<char>>) -> bool,
)
    requires
        list.no_duplicates(),
    ensures
        list.filter(kept).no_duplicates(),
    decreases list.len(),
{
    reveal(Seq::filter);
    if list.len() > 0 {
        let front = list.drop_last();
        lemma_filter_keeps_no_duplicates(front, kept);
        if kept(list.last()) && front.filter(kept).contains(list.last()) {
            front.lemma_filter_contains_rev(kept, list.last());
            let at = choose|at: int| 0 <= at < front.len() && front[at] == list.last();
            assert(list[at] == list[list.len() - 1]);
        }
    }
}

proof fn lemma_sorted_keeps_no_duplicates(list: Seq<Seq<Seq<char>>>)
    requires
        list.no_duplicates(),
    ensures
        sorted(list).no_duplicates(),
{
    law_sorted_is_an_ordered_permutation(list);
    list.lemma_multiset_has_no_duplicates();
    sorted(list).lemma_multiset_has_no_duplicates_conv();
}

/// What is true of an installed path that was looked up: where it was not found, nothing is there.
pub open spec fn found_all(
    declared: Seq<Seq<Seq<char>>>,
    installed: Seq<Seq<Seq<char>>>,
    target: Map<Seq<Seq<char>>, Seq<u8>>,
) -> bool {
    forall|i: int|
        0 <= i < declared.len() && !installed.contains(#[trigger] declared[i]) ==> nothing_below(
            target,
            declared[i],
        )
}

/// Whether a survey tells the truth about the target and the staging directory: every declared path
/// that is in the target was found there, and a listing names every entry once.
pub open spec fn truthful(
    platform: Platform,
    survey: SurveyView,
    target: Map<Seq<Seq<char>>, Seq<u8>>,
) -> bool {
    match survey.package {
        PackageView::Full { entries } => entries.no_duplicates(),
        PackageView::Incremental { changes, installed, .. } => read_changes(
            platform,
            changes,
        ) matches Ok(declared) ==> !has_overlap(declared.classes(platform)) ==> found_all(
            all_paths(declared),
            installed,
            target,
        ),
        _ => true,
    }
}

/// What a settled plan takes from the manifest.
proof fn lemma_settled(
    platform: Platform,
    staging: Seq<char>,
    target: Seq<char>,
    d: Declared,
    staged: Seq<Seq<Seq<char>>>,
    installed: Seq<Seq<Seq<char>>>,
)
    requires
        settled(platform, staging, target, d, staged, installed) is Ok,
        separate(platform, all_paths(d)),
    ensures
        ({
            let plan = settled(platform, staging, target, d, staged, installed)->Ok_0;
            &&& forall|p: Seq<Seq<char>>| #[trigger]
                plan.backup.contains(p) <==> d.modified.contains(p) || (d.deleted.contains(p)
                    && installed.contains(p))
            &&& forall|p: Seq<Seq<char>>| #[trigger]
                plan.apply.contains(p) <==> d.modified.contains(p) || d.added.contains(p)
            &&& forall|p: Seq<Seq<char>>| #[trigger] plan.apply.contains(p) ==> staged.contains(p)
            &&& forall|p: Seq<Seq<char>>| #[trigger] d.added.contains(p) ==> !installed.contains(p)
            &&& forall|p: Seq<Seq<char>>| #[trigger] d.modified.contains(p) ==> installed.contains(p)
            &&& separate(platform, plan.backup)
            &&& separate(platform, plan.apply)
        }),
{
    let plan = settled(platform, staging, target, d, staged, installed)->Ok_0;
    let all = all_paths(d);
    let added = sorted(d.added);
    let modified = sorted(d.modified);
    let deleted = sorted(d.deleted);
    let kept = |p: Seq<Seq<char>>| installed.contains(p);
    law_sorted_is_an_ordered_permutation(d.added);
    law_sorted_is_an_ordered_permutation(d.modified);
    law_sorted_is_an_ordered_permutation(d.deleted);
    law_sorted_is_an_ordered_permutation(modified + among(deleted, installed));
    law_sorted_is_an_ordered_permutation(modified + added);
    lemma_first_with_none(added + modified, staged, false);
    lemma_first_with_none(added, installed, true);
    lemma_first_with_none(modified, installed, false);
    assert forall|p: Seq<Seq<char>>| #[trigger] among(deleted, installed).contains(p) <==> (
    deleted.contains(p) && installed.contains(p)) by {
        if among(deleted, installed).contains(p) {
            deleted.lemma_filter_contains_rev(kept, p);
            let i = choose|i: int|
                0 <= i < deleted.filter(kept).len() && deleted.filter(kept)[i] == p;
            deleted.lemma_filter_pred(kept, i);
        }
        if deleted.contains(p) && installed.contains(p) {
            let i = choose|i: int| 0 <= i < deleted.len() && deleted[i] == p;
            deleted.lemma_filter_contains(kept, i);
        }
    }
    let moved = modified + among(deleted, installed);
    let copied = modified + added;
    assert forall|p: Seq<Seq<char>>| #[trigger] moved.contains(p) <==> modified.contains(p)
        || among(deleted, installed).contains(p) by {
        lemma_contains_concat(modified, among(deleted, installed), p);
    }
    assert forall|p: Seq<Seq<char>>| #[trigger] copied.contains(p) <==> modified.contains(p)
        || added.contains(p) by {
        lemma_contains_concat(modified, added, p);
    }
    assert forall|p: Seq<Seq<char>>| #[trigger] plan.apply.contains(p) implies staged.contains(
        p,
    ) by {
        lemma_contains_concat(added, modified, p);
        let i = choose|i: int| 0 <= i < (added + modified).len() && (added + modified)[i] == p;
        assert(staged.contains((added + modified)[i]));
    }
    assert forall|p: Seq<Seq<char>>| #[trigger] d.added.contains(p) implies !installed.contains(
        p,
    ) by {
        assert(sorted(d.added).contains(p));
        let i = choose|i: int| 0 <= i < added.len() && added[i] == p;
        assert(!installed.contains(added[i]));
    }
    assert forall|p: Seq<Seq<char>>| #[trigger] d.modified.contains(p) implies installed.contains(
        p,
    ) by {
        assert(sorted(d.modified).contains(p));
        let i = choose|i: int| 0 <= i < modified.len() && modified[i] == p;
        assert(installed.contains(modified[i]));
    }
    assert forall|p: Seq<Seq<char>>| #[trigger] plan.backup.contains(p) <==> d.modified.contains(p)
        || (d.deleted.contains(p) && installed.contains(p)) by {
        assert(sorted(moved).contains(p) <==> moved.contains(p));
        assert(sorted(d.modified).contains(p) <==> d.modified.contains(p));
        assert(sorted(d.deleted).contains(p) <==> d.deleted.contains(p));
    }
    assert forall|p: Seq<Seq<char>>| #[trigger] plan.apply.contains(p) <==> d.modified.contains(p)
        || d.added.contains(p) by {
        assert(sorted(copied).contains(p) <==> copied.contains(p));
        assert(sorted(d.modified).contains(p) <==> d.modified.contains(p));
        assert(sorted(d.added).contains(p) <==> d.added.contains(p));
    }
    lemma_parts_have_no_duplicates(platform, d);
    lemma_sorted_keeps_no_duplicates(d.added);
    lemma_sorted_keeps_no_duplicates(d.modified);
    lemma_sorted_keeps_no_duplicates(d.deleted);
    lemma_filter_keeps_no_duplicates(deleted, kept);
    assert(moved.no_duplicates()) by {
        assert forall|i: int, j: int| 0 <= i < modified.len() && 0 <= j < among(
            deleted,
            installed,
        ).len() implies modified[i] != among(deleted, installed)[j] by {
            let p = modified[i];
            let q = among(deleted, installed)[j];
            assert(sorted(d.modified).contains(p));
            assert(among(deleted, installed).contains(q));
            assert(sorted(d.deleted).contains(q));
            assert(d.modified.contains(p) && d.deleted.contains(q));
        }
    }
    assert(copied.no_duplicates()) by {
        assert forall|i: int, j: int| 0 <= i < modified.len() && 0 <= j < added.len() implies modified[i]
            != added[j] by {
            let p = modified[i];
            let q = added[j];
            assert(sorted(d.modified).contains(p));
            assert(sorted(d.added).contains(q));
            assert(d.modified.contains(p) && d.added.contains(q));
        }
    }
    lemma_sorted_keeps_no_duplicates(moved);
    lemma_sorted_keeps_no_duplicates(copied);
    assert forall|i: int| 0 <= i < plan.backup.len() implies all.contains(
        #[trigger] plan.backup[i],
    ) by {
        assert(plan.backup.contains(plan.backup[i]));
        lemma_contains_concat(d.added, d.modified, plan.backup[i]);
        lemma_contains_concat(d.added + d.modified, d.deleted, plan.backup[i]);
    }
    assert forall|i: int| 0 <= i < plan.apply.len() implies all.contains(
        #[trigger] plan.apply[i],
    ) by {
        assert(plan.apply.contains(plan.apply[i]));
        lemma_contains_concat(d.added, d.modified, plan.apply[i]);
        lemma_contains_concat(d.added + d.modified, d.deleted, plan.apply[i]);
    }
    lemma_part_is_separate(platform, all, plan.backup);
    lemma_part_is_separate(platform, all, plan.apply);
}

pub proof fn lemma_contains_concat(a: Seq<Seq<Seq<char>>>, b: Seq<Seq<Seq<char>>>, p: Seq<Seq<char>>)
    ensures
        (a + b).contains(p) <==> a.contains(p) || b.contains(p),
{
    if a.contains(p) {
        let i = choose|i: int| 0 <= i < a.len() && a[i] == p;
        assert((a + b)[i] == p);
    }
    if b.contains(p) {
        let i = choose|i: int| 0 <= i < b.len() && b[i] == p;
        assert((a + b)[a.len() + i] == p);
    }
    if (a + b).contains(p) {
        let i = choose|i: int| 0 <= i < (a + b).len() && (a + b)[i] == p;
        if i < a.len() {
            assert(a[i] == p);
        } else {
            assert(b[i - a.len()] == p);
        }
    }
}

proof fn lemma_parts_have_no_duplicates(platform: Platform, d: Declared)
    requires
        separate(platform, all_paths(d)),
    ensures
        d.added.no_duplicates(),
        d.modified.no_duplicates(),
        d.deleted.no_duplicates(),
        forall|p: Seq<Seq<char>>| #[trigger]
            d.modified.contains(p) ==> !d.added.contains(p) && !d.deleted.contains(p),
{
    let all = all_paths(d);
    let a = d.added.len() as int;
    let m = a + d.modified.len();
    lemma_separate_is_apart(platform, all);
    assert forall|i: int, j: int| 0 <= i < j < d.added.len() implies d.added[i] != d.added[j] by {
        assert(all[i] != all[j]);
    }
    assert forall|i: int, j: int| 0 <= i < j < d.modified.len() implies d.modified[i]
        != d.modified[j] by {
        assert(all[a + i] != all[a + j]);
    }
    assert forall|i: int, j: int| 0 <= i < j < d.deleted.len() implies d.deleted[i]
        != d.deleted[j] by {
        assert(all[m + i] != all[m + j]);
    }
    assert forall|p: Seq<Seq<char>>| #[trigger] d.modified.contains(p) implies !d.added.contains(p)
        && !d.deleted.contains(p) by {
        let i = choose|i: int| 0 <= i < d.modified.len() && d.modified[i] == p;
        if d.added.contains(p) {
            let j = choose|j: int| 0 <= j < d.added.len() && d.added[j] == p;
            assert(all[j] == all[a + i]);
        }
        if d.deleted.contains(p) {
            let j = choose|j: int| 0 <= j < d.deleted.len() && d.deleted[j] == p;
            assert(all[m + j] == all[a + i]);
        }
    }
}

/// Law: an incremental update moves aside what the manifest declares as modified, and what it
/// declares as deleted and is there; it copies in what the manifest declares as modified or added,
/// all of which is staged. What is added was not there before, and what is modified was. Nothing else
/// is planned.
pub proof fn law_incremental_plan_is_what_was_declared(
    platform: Platform,
    staging: Seq<char>,
    target: Seq<char>,
    survey: SurveyView,
    plan: UpdatePlanView,
)
    requires
        survey_result(platform, staging, target, survey, Ok(plan)),
        survey.package is Incremental,
    ensures
        read_changes(platform, survey.package->changes) matches Ok(d) && {
            let staged = survey.package->staged;
            let installed = survey.package->installed;
            &&& forall|p: Seq<Seq<char>>| #[trigger]
                plan.backup.contains(p) <==> d.modified.contains(p) || (d.deleted.contains(p)
                    && installed.contains(p))
            &&& forall|p: Seq<Seq<char>>| #[trigger]
                plan.apply.contains(p) <==> d.modified.contains(p) || d.added.contains(p)
            &&& forall|p: Seq<Seq<char>>| #[trigger] plan.apply.contains(p) ==> staged.contains(p)
            &&& forall|p: Seq<Seq<char>>| #[trigger] d.added.contains(p) ==> !installed.contains(p)
            &&& forall|p: Seq<Seq<char>>| #[trigger] d.modified.contains(p) ==> installed.contains(p)
        },
{
    let changes = survey.package->changes;
    law_accepted_manifest_is_separate(platform, changes);
    lemma_settled(
        platform,
        staging,
        target,
        read_changes(platform, changes)->Ok_0,
        survey.package->staged,
        survey.package->installed,
    );
}

/// Law: every path of an incremental plan stays below the update root, whatever the root holds, and
/// outside what updates leave alone.
pub proof fn law_incremental_plan_stays_below_the_root(
    platform: Platform,
    staging: Seq<char>,
    target: Seq<char>,
    survey: SurveyView,
    plan: UpdatePlanView,
)
    requires
        survey_result(platform, staging, target, survey, Ok(plan)),
        survey.package is Incremental,
    ensures
        forall|p: Seq<Seq<char>>|
            plan.backup.contains(p) || plan.apply.contains(p) ==> #[trigger] stays_below(platform, p),
{
    law_incremental_plan_is_what_was_declared(platform, staging, target, survey, plan);
    let d = read_changes(platform, survey.package->changes)->Ok_0;
    let all = all_paths(d);
    law_accepted_manifest_is_separate(platform, survey.package->changes);
    assert forall|p: Seq<Seq<char>>|
        plan.backup.contains(p) || plan.apply.contains(p) implies #[trigger] stays_below(
        platform,
        p,
    ) by {
        lemma_contains_concat(d.added, d.modified, p);
        lemma_contains_concat(d.added + d.modified, d.deleted, p);
        let i = choose|i: int| 0 <= i < all.len() && all[i] == p;
        assert(stays_below(platform, all[i]));
    }
}

/// Whether a full update installs a path: the name of an entry that it does not leave out.
pub open spec fn full_entry(
    platform: Platform,
    entries: Seq<ListedView>,
    path: Seq<Seq<char>>,
) -> bool {
    &&& path.len() == 1
    &&& entries.contains(ListedView::Name(path[0]))
    &&& !left_out(platform, path[0])
}

proof fn lemma_full_entries(platform: Platform, entries: Seq<ListedView>)
    requires
        full_entries(platform, entries) is Ok,
    ensures
        forall|p: Seq<Seq<char>>| #[trigger]
            full_entries(platform, entries)->Ok_0.contains(p) <==> full_entry(platform, entries, p),
        entries.no_duplicates() ==> full_entries(platform, entries)->Ok_0.no_duplicates(),
    decreases entries.len(),
{
    let list = full_entries(platform, entries)->Ok_0;
    if entries.len() > 0 {
        let front = entries.drop_last();
        let before = full_entries(platform, front)->Ok_0;
        lemma_full_entries(platform, front);
        let name = entries.last()->Name_0;
        assert forall|p: Seq<Seq<char>>| #[trigger] list.contains(p) <==> full_entry(
            platform,
            entries,
            p,
        ) by {
            if list.contains(p) {
                let i = choose|i: int| 0 <= i < list.len() && list[i] == p;
                if i < before.len() {
                    assert(before[i] == p);
                    assert(before.contains(p));
                    let k = choose|k: int|
                        0 <= k < front.len() && front[k] == ListedView::Name(p[0]);
                    assert(entries[k] == ListedView::Name(p[0]));
                } else {
                    assert(entries[entries.len() - 1] == ListedView::Name(p[0]));
                }
            }
            if full_entry(platform, entries, p) {
                let k = choose|k: int|
                    0 <= k < entries.len() && entries[k] == ListedView::Name(p[0]);
                if k < front.len() {
                    assert(front[k] == ListedView::Name(p[0]));
                    assert(before.contains(p));
                    let i = choose|i: int| 0 <= i < before.len() && before[i] == p;
                    assert(list[i] == p);
                } else {
                    assert(p =~= seq![name]);
                    assert(list[before.len() as int] == p);
                }
            }
        }
        if entries.no_duplicates() && !left_out(platform, name) {
            assert(!before.contains(seq![name])) by {
                if before.contains(seq![name]) {
                    assert(full_entry(platform, front, seq![name]));
                    let k = choose|k: int|
                        0 <= k < front.len() && front[k] == ListedView::Name(name);
                    assert(entries[k] == entries[entries.len() - 1]);
                }
            }
            assert(list.no_duplicates());
        }
    } else {
        assert(list =~= Seq::empty());
    }
}

/// Law: a full update moves aside and copies in the same paths: the entries of the staging directory
/// but for the manifest and what updates leave alone.
pub proof fn law_full_plan_is_what_was_staged(
    platform: Platform,
    staging: Seq<char>,
    target: Seq<char>,
    survey: SurveyView,
    plan: UpdatePlanView,
)
    requires
        survey_result(platform, staging, target, survey, Ok(plan)),
        survey.package is Full,
    ensures
        plan.backup == plan.apply,
        forall|p: Seq<Seq<char>>| #[trigger]
            plan.apply.contains(p) <==> full_entry(
                platform,
                survey.package->entries,
                p,
            ),
{
    let entries = survey.package->entries;
    lemma_full_entries(platform, entries);
    law_sorted_is_an_ordered_permutation(full_entries(platform, entries)->Ok_0);
    assert forall|p: Seq<Seq<char>>| #[trigger] plan.apply.contains(p) <==> full_entry(
        platform,
        entries,
        p,
    ) by {
        assert(sorted(full_entries(platform, entries)->Ok_0).contains(p) <==> full_entries(
            platform,
            entries,
        )->Ok_0.contains(p));
    }
}

/// Whether a path names the root itself, or lies in what updates leave alone.
pub open spec fn left_alone(platform: Platform, path: Seq<Seq<char>>) -> bool {
    path.len() == 0 || reserved_name(platform, path[0])
}

/// Law: no plan touches what updates leave alone: every path that it moves aside or copies in has a
/// name below the root, and that name is not reserved.
pub proof fn law_plans_leave_mutable_data_alone(
    platform: Platform,
    staging: Seq<char>,
    target: Seq<char>,
    survey: SurveyView,
    plan: UpdatePlanView,
)
    requires
        survey_result(platform, staging, target, survey, Ok(plan)),
    ensures
        forall|p: Seq<Seq<char>>|
            plan.backup.contains(p) || plan.apply.contains(p) ==> !#[trigger] left_alone(platform, p),
{
    if survey.package is Full {
        law_full_plan_is_what_was_staged(platform, staging, target, survey, plan);
        assert forall|p: Seq<Seq<char>>|
            plan.backup.contains(p) || plan.apply.contains(p) implies !#[trigger] left_alone(
            platform,
            p,
        ) by {
            assert(plan.apply.contains(p));
        }
    } else {
        law_incremental_plan_stays_below_the_root(platform, staging, target, survey, plan);
        assert forall|p: Seq<Seq<char>>|
            plan.backup.contains(p) || plan.apply.contains(p) implies !#[trigger] left_alone(
            platform,
            p,
        ) by {
            assert(stays_below(platform, p));
        }
    }
}

/// Law: a plan that was made from a truthful survey fits the target.
pub proof fn law_prepared_plan_fits(
    platform: Platform,
    staging: Seq<char>,
    target: Seq<char>,
    survey: SurveyView,
    plan: UpdatePlanView,
    files: Map<Seq<Seq<char>>, Seq<u8>>,
)
    requires
        survey_result(platform, staging, target, survey, Ok(plan)),
        truthful(platform, survey, files),
    ensures
        plan_fits(plan.backup, plan.apply, files),
{
    if survey.package is Full {
        law_full_plan_is_what_was_staged(platform, staging, target, survey, plan);
        let entries = survey.package->entries;
        assert(entries.no_duplicates());
        lemma_full_entries(platform, entries);
        lemma_sorted_keeps_no_duplicates(full_entries(platform, entries)->Ok_0);
        assert forall|i: int, j: int|
            0 <= i < plan.backup.len() && 0 <= j < plan.backup.len() && i != j implies !(
        #[trigger] plan.backup[i]).is_prefix_of(#[trigger] plan.backup[j]) by {
            assert(plan.backup.contains(plan.backup[i]) && plan.backup.contains(plan.backup[j]));
            if plan.backup[i].is_prefix_of(plan.backup[j]) {
                assert(plan.backup[j].subrange(0, 1) =~= plan.backup[j]);
            }
        }
    } else {
        law_incremental_plan_is_what_was_declared(platform, staging, target, survey, plan);
        let d = read_changes(platform, survey.package->changes)->Ok_0;
        let all = all_paths(d);
        law_accepted_manifest_is_separate(platform, survey.package->changes);
        lemma_settled(
            platform,
            staging,
            target,
            d,
            survey.package->staged,
            survey.package->installed,
        );
        lemma_separate_is_apart(platform, plan.backup);
        assert forall|i: int| 0 <= i < plan.apply.len() implies plan.backup.contains(
            #[trigger] plan.apply[i],
        ) || nothing_below(files, plan.apply[i]) by {
            let p = plan.apply[i];
            assert(plan.apply.contains(p));
            if d.modified.contains(p) {
                assert(plan.backup.contains(p));
            } else {
                assert(d.added.contains(p));
                lemma_contains_concat(d.added, d.modified, p);
                lemma_contains_concat(d.added + d.modified, d.deleted, p);
                let k = choose|k: int| 0 <= k < all.len() && all[k] == p;
                assert(nothing_below(files, all[k]));
            }
        }
    }
}

/// Law: a plan that was made from a survey that is truthful about directories too fits them.
pub proof fn law_prepared_plan_fits_directories(
    platform: Platform,
    staging: Seq<char>,
    target: Seq<char>,
    survey: SurveyView,
    plan: UpdatePlanView,
    dirs: Set<Seq<Seq<char>>>,
)
    requires
        survey_result(platform, staging, target, survey, Ok(plan)),
        truthful(platform, survey, marked(dirs)),
    ensures
        plan_fits_dirs(plan.backup, plan.apply, dirs),
{
    law_prepared_plan_fits(platform, staging, target, survey, plan, marked(dirs));
    assert forall|i: int| 0 <= i < plan.apply.len() implies plan.backup.contains(
        #[trigger] plan.apply[i],
    ) || none_below(dirs, plan.apply[i]) by {
        lemma_marked(dirs, plan.apply[i]);
    }
    if survey.package is Full {
        law_full_plan_is_what_was_staged(platform, staging, target, survey, plan);
        assert forall|i: int, j: int|
            0 <= i < plan.backup.len() && 0 <= j < plan.apply.len() implies !above(
            #[trigger] plan.backup[i],
            #[trigger] plan.apply[j],
        ) by {
            assert(plan.apply.contains(plan.backup[i]) && plan.apply.contains(plan.apply[j]));
            if plan.backup[i].is_prefix_of(plan.apply[j]) {
                assert(plan.apply[j].subrange(0, 1) =~= plan.apply[j]);
            }
        }
    } else {
        law_incremental_plan_is_what_was_declared(platform, staging, target, survey, plan);
        let d = read_changes(platform, survey.package->changes)->Ok_0;
        law_accepted_manifest_is_separate(platform, survey.package->changes);
        lemma_settled(
            platform,
            staging,
            target,
            d,
            survey.package->staged,
            survey.package->installed,
        );
        lemma_separate_is_apart(platform, plan.apply);
        assert forall|i: int, j: int|
            0 <= i < plan.backup.len() && 0 <= j < plan.apply.len() implies !above(
            #[trigger] plan.backup[i],
            #[trigger] plan.apply[j],
        ) by {
            assert(plan.backup.contains(plan.backup[i]) && plan.apply.contains(plan.apply[j]));
            lemma_declared_are_not_above(platform, d, plan.backup[i], plan.apply[j]);
        }
    }
}

/// No declared path lies on the way to another.
pub proof fn lemma_declared_are_not_above(
    platform: Platform,
    d: Declared,
    p: Seq<Seq<char>>,
    q: Seq<Seq<char>>,
)
    requires
        separate(platform, all_paths(d)),
        d.added.contains(p) || d.modified.contains(p) || d.deleted.contains(p),
        d.added.contains(q) || d.modified.contains(q) || d.deleted.contains(q),
    ensures
        !above(p, q),
{
    let all = all_paths(d);
    lemma_contains_concat(d.added, d.modified, p);
    lemma_contains_concat(d.added + d.modified, d.deleted, p);
    lemma_contains_concat(d.added, d.modified, q);
    lemma_contains_concat(d.added + d.modified, d.deleted, q);
    lemma_separate_is_apart(platform, all);
    let i = choose|i: int| 0 <= i < all.len() && all[i] == p;
    let j = choose|j: int| 0 <= j < all.len() && all[j] == q;
    if p != q {
        assert(!all[i].is_prefix_of(all[j]));
    }
}

/// No path is declared in two ways.
pub proof fn lemma_declared_once(platform: Platform, d: Declared, p: Seq<Seq<char>>)
    requires
        separate(platform, all_paths(d)),
    ensures
        d.deleted.contains(p) ==> !d.added.contains(p) && !d.modified.contains(p),
{
    let all = all_paths(d);
    lemma_separate_is_apart(platform, all);
    if d.deleted.contains(p) {
        let k = choose|k: int| 0 <= k < d.deleted.len() && d.deleted[k] == p;
        assert(all[d.added.len() + d.modified.len() + k] == p);
        if d.added.contains(p) {
            let i = choose|i: int| 0 <= i < d.added.len() && d.added[i] == p;
            assert(all[i] == p);
        }
        if d.modified.contains(p) {
            let i = choose|i: int| 0 <= i < d.modified.len() && d.modified[i] == p;
            assert(all[d.added.len() + i] == p);
        }
    }
}

} // verus!
