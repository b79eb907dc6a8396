//! Which manifests are accepted, why one is refused, and what is planned for the rest, by what can be seen
//! of the declared paths.

use vstd::prelude::*;
use crate::changes::{
    class_of, has_overlap, keys, labelled, names_overlap, overlap, read_list, ChangesErrorView,
    ChangesView, Classification,
};
use crate::disk::ListedView;
use crate::order::{law_sorted_is_an_ordered_permutation, path_le, sorted};
use crate::order_laws::law_sorted_lists_are_in_order;
use crate::path::{key_of, normalized, placed, under, PathFault, Platform};
use crate::plan::{
    among, first_with, full_entries, left_out, lemma_first_with_none, read_changes, settled,
    survey_result, Declared, PackageView, PlanErrorView, SurveyView, UpdatePlanView,
};
use crate::plan_laws::{full_entry, law_full_plan_is_what_was_staged};
use crate::reading_laws::{
    compared, law_five_names_are_left_alone, law_names_are_compared_as_on_the_platform,
};
use crate::text_laws::law_prefixes_and_suffixes_come_off;

verus! {

/// All that a manifest declares, each with the list that it stands in: the added paths, then the modified
/// and then the deleted ones.
pub open spec fn declarations(changes: ChangesView) -> Seq<(Classification, Seq<char>)> {
    of_class(Classification::Added, changes.added) + of_class(
        Classification::Modified,
        changes.modified,
    ) + of_class(Classification::Deleted, changes.deleted)
}

/// The paths of one list.
pub open spec fn of_class(class: Classification, raw: Seq<Seq<char>>) -> Seq<
    (Classification, Seq<char>),
> {
    raw.map_values(|text: Seq<char>| (class, text))
}

/// The key of a declared path that can be used.
pub open spec fn key_at(
    platform: Platform,
    all: Seq<(Classification, Seq<char>)>,
    k: int,
) -> Seq<char> {
    key_of(platform, normalized(platform, all[k].1)->Ok_0)
}

/// Whether each of the first declared paths can be used, and no two of them have the same key.
pub open spec fn fine(platform: Platform, all: Seq<(Classification, Seq<char>)>, n: int) -> bool {
    &&& forall|k: int| 0 <= k < n ==> normalized(platform, (#[trigger] all[k]).1) is Ok
    &&& forall|j: int, k: int|
        0 <= j < k < n ==> #[trigger] key_at(platform, all, j) != #[trigger] key_at(
            platform,
            all,
            k,
        )
}

/// Whether a declared path is the reason for an error: it cannot be used, or it was declared before, in
/// the same list or in another one.
pub open spec fn blamed(
    platform: Platform,
    all: Seq<(Classification, Seq<char>)>,
    k: int,
    error: ChangesErrorView,
) -> bool {
    let class = all[k].0;
    let raw = all[k].1;
    match normalized(platform, raw) {
        Err(fault) => error == ChangesErrorView::Path { fault, raw },
        Ok(_) => exists|j: int|
            {
                &&& 0 <= j < k
                &&& #[trigger] key_at(platform, all, j) == key_at(platform, all, k)
                &&& error == (if all[j].0 == class {
                    ChangesErrorView::Repeated { class, raw }
                } else {
                    ChangesErrorView::Reclassified { previous: all[j].0, class, raw }
                })
            },
    }
}

/// Whether an error is that of the first declared path that gives a reason for one.
pub open spec fn refused(
    platform: Platform,
    all: Seq<(Classification, Seq<char>)>,
    error: ChangesErrorView,
) -> bool {
    exists|k: int|
        0 <= k < all.len() && fine(platform, all, k) && #[trigger] blamed(platform, all, k, error)
}

proof fn lemma_refused_stays(
    platform: Platform,
    first: Seq<(Classification, Seq<char>)>,
    more: Seq<(Classification, Seq<char>)>,
    error: ChangesErrorView,
)
    requires
        refused(platform, first, error),
    ensures
        refused(platform, first + more, error),
{
    let all = first + more;
    let k = choose|k: int|
        0 <= k < first.len() && fine(platform, first, k) && #[trigger] blamed(
            platform,
            first,
            k,
            error,
        );
    assert forall|i: int| 0 <= i < first.len() implies #[trigger] key_at(platform, all, i) == key_at(
        platform,
        first,
        i,
    ) && all[i] == first[i] by {
    }
    assert(fine(platform, all, k)) by {
        assert forall|i: int| 0 <= i < k implies normalized(platform, (#[trigger] all[i]).1) is Ok by {
            assert(normalized(platform, first[i].1) is Ok);
        }
        assert forall|i: int, j: int| 0 <= i < j < k implies #[trigger] key_at(platform, all, i)
            != #[trigger] key_at(platform, all, j) by {
            assert(key_at(platform, first, i) != key_at(platform, first, j));
        }
    }
    assert(all[k] == first[k]);
    if normalized(platform, first[k].1) is Ok {
        let j = choose|j: int|
            {
                &&& 0 <= j < k
                &&& #[trigger] key_at(platform, first, j) == key_at(platform, first, k)
                &&& error == (if first[j].0 == first[k].0 {
                    ChangesErrorView::Repeated { class: first[k].0, raw: first[k].1 }
                } else {
                    ChangesErrorView::Reclassified {
                        previous: first[j].0,
                        class: first[k].0,
                        raw: first[k].1,
                    }
                })
            };
        assert(key_at(platform, all, j) == key_at(platform, all, k));
    }
    assert(blamed(platform, all, k, error));
}

proof fn lemma_refused_is_not_fine(
    platform: Platform,
    all: Seq<(Classification, Seq<char>)>,
    error: ChangesErrorView,
)
    requires
        refused(platform, all, error),
    ensures
        !fine(platform, all, all.len() as int),
{
    let k = choose|k: int|
        0 <= k < all.len() && fine(platform, all, k) && #[trigger] blamed(platform, all, k, error);
    if fine(platform, all, all.len() as int) {
        assert(normalized(platform, all[k].1) is Ok);
        let j = choose|j: int|
            0 <= j < k && #[trigger] key_at(platform, all, j) == key_at(platform, all, k);
        assert(key_at(platform, all, j) != key_at(platform, all, k));
    }
}

proof fn lemma_class_of_some(declared: Seq<(Seq<char>, Classification)>, key: Seq<char>)
    ensures
        class_of(declared, key) matches Some(class) ==> exists|j: int|
            0 <= j < declared.len() && #[trigger] declared[j] == (key, class),
        class_of(declared, key) is None ==> forall|j: int|
            0 <= j < declared.len() ==> (#[trigger] declared[j]).0 != key,
    decreases declared.len(),
{
    if declared.len() > 0 {
        let front = declared.drop_last();
        lemma_class_of_some(front, key);
        if let Some(class) = class_of(declared, key) {
            if class_of(front, key) is Some {
                let j = choose|j: int| 0 <= j < front.len() && #[trigger] front[j] == (key, class);
                assert(declared[j] == (key, class));
            } else {
                assert(declared[declared.len() - 1] == (key, class));
            }
        } else {
            assert forall|j: int| 0 <= j < declared.len() implies (#[trigger] declared[j]).0
                != key by {
                if j < front.len() {
                    assert(front[j] == declared[j]);
                }
            }
        }
    }
}

/// Whether some keys with their lists are those of declared paths.
pub open spec fn keyed(
    platform: Platform,
    all: Seq<(Classification, Seq<char>)>,
    earlier: Seq<(Seq<char>, Classification)>,
) -> bool {
    &&& earlier.len() == all.len()
    &&& forall|j: int|
        0 <= j < all.len() ==> #[trigger] earlier[j] == (key_at(platform, all, j), all[j].0)
}

/// Whether the paths of a list were read one by one.
pub open spec fn read_as(
    platform: Platform,
    raw: Seq<Seq<char>>,
    list: Seq<Seq<Seq<char>>>,
) -> bool {
    &&& list.len() == raw.len()
    &&& forall|i: int|
        0 <= i < raw.len() ==> normalized(platform, #[trigger] raw[i]) == Ok::<
            Seq<Seq<char>>,
            PathFault,
        >(list[i])
}

proof fn lemma_list_is_read(
    platform: Platform,
    class: Classification,
    raw: Seq<Seq<char>>,
    prior: Seq<(Classification, Seq<char>)>,
    earlier: Seq<(Seq<char>, Classification)>,
)
    requires
        fine(platform, prior, prior.len() as int),
        keyed(platform, prior, earlier),
        forall|j: int| 0 <= j < prior.len() ==> (#[trigger] prior[j]).0 != class,
    ensures
        ({
            let all = prior + of_class(class, raw);
            match read_list(platform, class, raw, earlier) {
                Ok(list) => {
                    &&& read_as(platform, raw, list)
                    &&& fine(platform, all, all.len() as int)
                    &&& keyed(platform, all, earlier + labelled(platform, class, list))
                },
                Err(error) => refused(platform, all, error),
            }
        }),
    decreases raw.len(),
{
    let all = prior + of_class(class, raw);
    if raw.len() == 0 {
        assert(all =~= prior);
        assert(earlier + labelled(platform, class, Seq::empty()) =~= earlier);
    } else {
        let front = raw.drop_last();
        let some = prior + of_class(class, front);
        let n = some.len() as int;
        let text = raw.last();
        lemma_list_is_read(platform, class, front, prior, earlier);
        assert(all =~= some + seq![(class, text)]);
        match read_list(platform, class, front, earlier) {
            Err(error) => {
                lemma_refused_stays(platform, some, seq![(class, text)], error);
            },
            Ok(before) => {
                let known = earlier + labelled(platform, class, before);
                assert forall|i: int| 0 <= i < n implies #[trigger] key_at(platform, all, i)
                    == key_at(platform, some, i) && all[i] == some[i] by {
                }
                assert(fine(platform, all, n)) by {
                    assert forall|i: int| 0 <= i < n implies normalized(
                        platform,
                        (#[trigger] all[i]).1,
                    ) is Ok by {
                        assert(normalized(platform, some[i].1) is Ok);
                    }
                    assert forall|i: int, j: int| 0 <= i < j < n implies #[trigger] key_at(
                        platform,
                        all,
                        i,
                    ) != #[trigger] key_at(platform, all, j) by {
                        assert(key_at(platform, some, i) != key_at(platform, some, j));
                    }
                }
                assert(all[n] == (class, text));
                match normalized(platform, text) {
                    Err(fault) => {
                        assert(blamed(
                            platform,
                            all,
                            n,
                            ChangesErrorView::Path { fault, raw: text },
                        ));
                    },
                    Ok(path) => {
                        let key = key_of(platform, path);
                        assert(key_at(platform, all, n) == key);
                        if keys(platform, before).contains(key) {
                            let i = choose|i: int|
                                0 <= i < before.len() && keys(platform, before)[i] == key;
                            let j = earlier.len() + i;
                            assert(known[j] == (key, class));
                            assert(known[j] == (key_at(platform, some, j), some[j].0));
                            assert(key_at(platform, all, j) == key);
                            assert(blamed(
                                platform,
                                all,
                                n,
                                ChangesErrorView::Repeated { class, raw: text },
                            ));
                        } else {
                            lemma_class_of_some(earlier, key);
                            if let Some(previous) = class_of(earlier, key) {
                                let j = choose|j: int|
                                    0 <= j < earlier.len() && #[trigger] earlier[j] == (
                                        key,
                                        previous,
                                    );
                                assert(prior[j].0 != class);
                                assert(all[j] == prior[j]);
                                assert(key_at(platform, all, j) == key_at(platform, prior, j));
                                assert(blamed(
                                    platform,
                                    all,
                                    n,
                                    ChangesErrorView::Reclassified { previous, class, raw: text },
                                ));
                            } else {
                                let list = before.push(path);
                                assert forall|j: int| 0 <= j < n implies #[trigger] key_at(
                                    platform,
                                    all,
                                    j,
                                ) != key by {
                                    assert(known[j] == (key_at(platform, some, j), some[j].0));
                                    if j < earlier.len() {
                                        assert(earlier[j].0 != key);
                                    } else {
                                        let i = j - earlier.len();
                                        assert(keys(platform, before)[i] == key_of(
                                            platform,
                                            before[i],
                                        ));
                                        assert(known[j].0 == key_of(platform, before[i]));
                                    }
                                }
                                assert(earlier + labelled(platform, class, list) =~= known.push(
                                    (key, class),
                                ));
                                assert forall|j: int| 0 <= j < all.len() implies #[trigger] known.push(
                                    (key, class),
                                )[j] == (key_at(platform, all, j), all[j].0) by {
                                    if j < n {
                                        assert(known[j] == (key_at(platform, some, j), some[j].0));
                                    }
                                }
                                assert(read_as(platform, raw, list)) by {
                                    assert forall|i: int| 0 <= i < raw.len() implies normalized(
                                        platform,
                                        #[trigger] raw[i],
                                    ) == Ok::<Seq<Seq<char>>, PathFault>(list[i]) by {
                                        if i < front.len() {
                                            assert(front[i] == raw[i]);
                                        }
                                    }
                                }
                            }
                        }
                    },
                }
            },
        }
    }
}

/// Law: the lists of a manifest are read path by path. They are accepted just where every path in them can
/// be used and no two have the same key, whichever lists they stand in; each list then holds just what its
/// paths are read as. Otherwise the first path that cannot be used or was declared before is reported.
pub proof fn law_manifests_are_read_path_by_path(platform: Platform, changes: ChangesView)
    ensures
        ({
            let all = declarations(changes);
            match read_changes(platform, changes) {
                Ok(d) => {
                    &&& fine(platform, all, all.len() as int)
                    &&& read_as(platform, changes.added, d.added)
                    &&& read_as(platform, changes.modified, d.modified)
                    &&& read_as(platform, changes.deleted, d.deleted)
                    &&& keyed(platform, all, d.classes(platform))
                },
                Err(error) => {
                    &&& !fine(platform, all, all.len() as int)
                    &&& refused(platform, all, error)
                },
            }
        }),
{
    let none: Seq<(Classification, Seq<char>)> = Seq::empty();
    let added = of_class(Classification::Added, changes.added);
    let modified = of_class(Classification::Modified, changes.modified);
    let deleted = of_class(Classification::Deleted, changes.deleted);
    let all = declarations(changes);
    assert(keyed(platform, none, Seq::empty()));
    lemma_list_is_read(platform, Classification::Added, changes.added, none, Seq::empty());
    assert(none + added =~= added);
    match read_list(platform, Classification::Added, changes.added, Seq::empty()) {
        Err(error) => {
            lemma_refused_stays(platform, added, modified + deleted, error);
            assert(added + (modified + deleted) =~= all);
            lemma_refused_is_not_fine(platform, all, error);
        },
        Ok(first) => {
            let one = labelled(platform, Classification::Added, first);
            assert(Seq::empty() + one =~= one);
            lemma_list_is_read(platform, Classification::Modified, changes.modified, added, one);
            match read_list(platform, Classification::Modified, changes.modified, one) {
                Err(error) => {
                    lemma_refused_stays(platform, added + modified, deleted, error);
                    lemma_refused_is_not_fine(platform, all, error);
                },
                Ok(second) => {
                    let two = one + labelled(platform, Classification::Modified, second);
                    lemma_list_is_read(
                        platform,
                        Classification::Deleted,
                        changes.deleted,
                        added + modified,
                        two,
                    );
                    if let Err(error) = read_list(
                        platform,
                        Classification::Deleted,
                        changes.deleted,
                        two,
                    ) {
                        lemma_refused_is_not_fine(platform, all, error);
                    }
                },
            }
        },
    }
}

/// Whether a key is that of another path with `/` and something behind it.
pub open spec fn lies_below(key: Seq<char>, upper: Seq<char>) -> bool {
    exists|rest: Seq<char>| key == #[trigger] (upper + seq!['/'] + rest)
}

proof fn lemma_overlap(a: Seq<char>, b: Seq<char>)
    ensures
        overlap(a, b) <==> lies_below(a, b) || lies_below(b, a),
        lies_below(a, b) ==> a.len() > b.len(),
{
    assert(a.push('/') =~= a + seq!['/']);
    assert(b.push('/') =~= b + seq!['/']);
    law_prefixes_and_suffixes_come_off(b, a + seq!['/']);
    law_prefixes_and_suffixes_come_off(a, b + seq!['/']);
}

/// Law: declared paths overlap just where the key of one is that of another with `/` and something behind
/// it, wherever the two stand; and such a pair is what is reported, in the order of its declaration.
pub proof fn law_overlap_is_one_key_below_another(
    declared: Seq<(Seq<char>, Classification)>,
    error: ChangesErrorView,
)
    ensures
        has_overlap(declared) <==> exists|i: int, j: int|
            0 <= i < declared.len() && 0 <= j < declared.len() && lies_below(
                (#[trigger] declared[i]).0,
                (#[trigger] declared[j]).0,
            ),
        names_overlap(error, declared) ==> has_overlap(declared) && exists|i: int, j: int|
            {
                &&& 0 <= i < j < declared.len()
                &&& error == ChangesErrorView::Overlapping {
                    left: #[trigger] declared[i],
                    right: #[trigger] declared[j],
                }
                &&& lies_below(declared[i].0, declared[j].0) || lies_below(
                    declared[j].0,
                    declared[i].0,
                )
            },
{
    assert forall|i: int, j: int| 0 <= i < declared.len() && 0 <= j < declared.len() implies overlap(
        (#[trigger] declared[i]).0,
        (#[trigger] declared[j]).0,
    ) == (lies_below(declared[i].0, declared[j].0) || lies_below(declared[j].0, declared[i].0))
        && (i == j ==> !lies_below(declared[i].0, declared[j].0)) by {
        lemma_overlap(declared[i].0, declared[j].0);
    }
    if exists|i: int, j: int|
        0 <= i < declared.len() && 0 <= j < declared.len() && lies_below(
            (#[trigger] declared[i]).0,
            (#[trigger] declared[j]).0,
        ) {
        let (i, j) = choose|i: int, j: int|
            0 <= i < declared.len() && 0 <= j < declared.len() && lies_below(
                (#[trigger] declared[i]).0,
                (#[trigger] declared[j]).0,
            );
        assert(overlap(declared[i].0, declared[j].0));
        assert(overlap(declared[j].0, declared[i].0));
    }
}

/// Whether a result is an error with a text.
pub open spec fn reports(result: Result<UpdatePlanView, PlanErrorView>, text: Seq<char>) -> bool {
    result matches Err(e) && e.text() == text
}

/// Law: both directories must be there, and a listing or a manifest that cannot be read is reported. The
/// staging directory is looked at first.
pub proof fn law_what_cannot_be_read_is_reported(
    platform: Platform,
    staging: Seq<char>,
    target: Seq<char>,
    survey: SurveyView,
    result: Result<UpdatePlanView, PlanErrorView>,
    error: Seq<char>,
)
    requires
        survey_result(platform, staging, target, survey, result),
    ensures
        ({
            let both = survey.staging_is_dir && survey.target_is_dir;
            let manifest = under(platform, staging, "changes.json"@);
            &&& !survey.staging_is_dir ==> reports(
                result,
                "更新暂存目录不存在: ["@ + staging + "]"@,
            )
            &&& survey.staging_is_dir && !survey.target_is_dir ==> reports(
                result,
                "更新目标目录不存在: ["@ + target + "]"@,
            )
            &&& both && survey.package == (PackageView::Unlisted { error }) ==> reports(
                result,
                "无法读取更新暂存目录 ["@ + staging + "]: "@ + error,
            )
            &&& both && survey.package == (PackageView::UnreadableManifest { error }) ==> reports(
                result,
                "无法读取 changes.json ["@ + manifest + "]: "@ + error,
            )
            &&& both && survey.package == (PackageView::InvalidManifest { error }) ==> reports(
                result,
                "无法解析 changes.json ["@ + manifest + "]: "@ + error,
            )
        }),
{
}

/// Whether a name is `changes.json`, `.update-tx`, `cache`, `config`, `debug` or `logs`, up to ASCII case on
/// Windows.
pub open spec fn not_installed(platform: Platform, name: Seq<char>) -> bool {
    let plain = compared(platform, name);
    ||| plain == "changes.json"@
    ||| plain == ".update-tx"@
    ||| plain == "cache"@
    ||| plain == "config"@
    ||| plain == "debug"@
    ||| plain == "logs"@
}

proof fn lemma_full_entries_are_owed(platform: Platform, entries: Seq<ListedView>)
    ensures
        match full_entries(platform, entries) {
            Ok(list) => {
                &&& forall|i: int| 0 <= i < entries.len() ==> #[trigger] entries[i] is Name
                &&& list.len() <= entries.len()
            },
            Err(error) => exists|i: int|
                {
                    &&& 0 <= i < entries.len()
                    &&& #[trigger] entries[i] == ListedView::Failed(error)
                    &&& forall|j: int| 0 <= j < i ==> #[trigger] entries[j] is Name
                },
        },
    decreases entries.len(),
{
    if entries.len() > 0 {
        let front = entries.drop_last();
        lemma_full_entries_are_owed(platform, front);
        match full_entries(platform, front) {
            Err(error) => {
                let i = choose|i: int|
                    {
                        &&& 0 <= i < front.len()
                        &&& #[trigger] front[i] == ListedView::Failed(error)
                        &&& forall|j: int| 0 <= j < i ==> #[trigger] front[j] is Name
                    };
                assert(entries[i] == ListedView::Failed(error));
                assert forall|j: int| 0 <= j < i implies #[trigger] entries[j] is Name by {
                    assert(front[j] is Name);
                }
            },
            Ok(_) => {
                assert forall|j: int| 0 <= j < front.len() implies #[trigger] entries[j] is Name by {
                    assert(front[j] is Name);
                }
                assert(entries[entries.len() - 1] == entries.last());
            },
        }
    }
}

/// Law: a full update is planned just where every entry of the staging directory could be read, and the
/// first that could not is reported. What is moved aside and what is copied in are the same: every entry
/// that was staged is in both lists unless its name is `changes.json`, `.update-tx`, `cache`, `config`,
/// `debug` or `logs`, on Windows in any case; and nothing else is in them.
pub proof fn law_full_updates_install_all_but_six_names(
    platform: Platform,
    staging: Seq<char>,
    target: Seq<char>,
    entries: Seq<ListedView>,
    result: Result<UpdatePlanView, PlanErrorView>,
)
    requires
        survey_result(
            platform,
            staging,
            target,
            SurveyView {
                staging_is_dir: true,
                target_is_dir: true,
                package: PackageView::Full { entries },
            },
            result,
        ),
    ensures
        result is Ok <==> forall|i: int| 0 <= i < entries.len() ==> #[trigger] entries[i] is Name,
        result matches Ok(plan) ==> {
            &&& plan.backup == plan.apply
            &&& forall|name: Seq<char>|
                #![trigger entries.contains(ListedView::Name(name))]
                entries.contains(ListedView::Name(name)) && !not_installed(platform, name)
                    ==> plan.backup.contains(seq![name]) && plan.apply.contains(seq![name])
            &&& forall|p: Seq<Seq<char>>| #[trigger]
                plan.apply.contains(p) ==> p.len() == 1 && entries.contains(ListedView::Name(p[0]))
                    && !not_installed(platform, p[0])
            &&& forall|i: int, j: int|
                0 <= i <= j < plan.apply.len() ==> path_le(
                    #[trigger] plan.apply[i],
                    #[trigger] plan.apply[j],
                )
        },
        result matches Err(e) ==> exists|i: int|
            {
                &&& 0 <= i < entries.len()
                &&& #[trigger] entries[i] is Failed
                &&& forall|j: int| 0 <= j < i ==> #[trigger] entries[j] is Name
                &&& e.text() == "无法读取更新暂存目录条目: "@ + entries[i]->Failed_0
            },
{
    let survey = SurveyView {
        staging_is_dir: true,
        target_is_dir: true,
        package: PackageView::Full { entries },
    };
    lemma_full_entries_are_owed(platform, entries);
    if let Ok(plan) = result {
        law_full_plan_is_what_was_staged(platform, staging, target, survey, plan);
        law_sorted_lists_are_in_order(full_entries(platform, entries)->Ok_0);
        assert forall|name: Seq<char>| #[trigger] left_out(platform, name) == not_installed(
            platform,
            name,
        ) by {
            law_five_names_are_left_alone(platform, name);
            law_names_are_compared_as_on_the_platform(platform, name, "changes.json"@);
        }
        assert forall|name: Seq<char>|
            #![trigger entries.contains(ListedView::Name(name))]
            entries.contains(ListedView::Name(name)) && !not_installed(platform, name) implies
            plan.backup.contains(seq![name]) && plan.apply.contains(seq![name]) by {
            assert(!left_out(platform, name));
            assert(full_entry(platform, entries, seq![name]));
        }
        assert forall|p: Seq<Seq<char>>| #[trigger] plan.apply.contains(p) implies p.len() == 1
            && entries.contains(ListedView::Name(p[0])) && !not_installed(platform, p[0]) by {
            assert(full_entry(platform, entries, p));
            assert(!left_out(platform, p[0]));
        }
    } else {
        let error = full_entries(platform, entries)->Err_0;
        let i = choose|i: int|
            {
                &&& 0 <= i < entries.len()
                &&& #[trigger] entries[i] == ListedView::Failed(error)
                &&& forall|j: int| 0 <= j < i ==> #[trigger] entries[j] is Name
            };
        assert(entries[i] is Failed);
    }
}

/// Whether a path is the first, in order, of those in a list that are found or are missing.
pub open spec fn first_such(
    list: Seq<Seq<Seq<char>>>,
    known: Seq<Seq<Seq<char>>>,
    present: bool,
    path: Seq<Seq<char>>,
) -> bool {
    &&& list.contains(path)
    &&& known.contains(path) == present
    &&& forall|q: Seq<Seq<char>>| #[trigger]
        list.contains(q) && known.contains(q) == present ==> path_le(path, q)
}

proof fn lemma_first_with_index(
    list: Seq<Seq<Seq<char>>>,
    known: Seq<Seq<Seq<char>>>,
    present: bool,
)
    ensures
        first_with(list, known, present) matches Some(path) ==> exists|i: int|
            {
                &&& 0 <= i < list.len()
                &&& #[trigger] list[i] == path
                &&& known.contains(path) == present
                &&& forall|j: int| 0 <= j < i ==> known.contains(#[trigger] list[j]) != present
            },
    decreases list.len(),
{
    if list.len() > 0 {
        let front = list.drop_last();
        lemma_first_with_index(front, known, present);
        lemma_first_with_none(front, known, present);
        if let Some(path) = first_with(front, known, present) {
            let i = choose|i: int|
                {
                    &&& 0 <= i < front.len()
                    &&& #[trigger] front[i] == path
                    &&& known.contains(path) == present
                    &&& forall|j: int| 0 <= j < i ==> known.contains(#[trigger] front[j]) != present
                };
            assert(list[i] == path);
            assert forall|j: int| 0 <= j < i implies known.contains(#[trigger] list[j])
                != present by {
                assert(front[j] == list[j]);
            }
        } else if first_with(list, known, present) is Some {
            let i = list.len() - 1;
            assert(list[i] == list.last());
            assert forall|j: int| 0 <= j < i implies known.contains(#[trigger] list[j])
                != present by {
                assert(front[j] == list[j]);
            }
        }
    }
}

proof fn lemma_first_of_sorted(
    list: Seq<Seq<Seq<char>>>,
    known: Seq<Seq<Seq<char>>>,
    present: bool,
)
    ensures
        match first_with(sorted(list), known, present) {
            Some(path) => first_such(list, known, present, path),
            None => forall|p: Seq<Seq<char>>| #[trigger]
                list.contains(p) ==> known.contains(p) != present,
        },
{
    let all = sorted(list);
    law_sorted_is_an_ordered_permutation(list);
    law_sorted_lists_are_in_order(list);
    lemma_first_with_index(all, known, present);
    lemma_first_with_none(all, known, present);
    match first_with(all, known, present) {
        Some(path) => {
            let i = choose|i: int|
                {
                    &&& 0 <= i < all.len()
                    &&& #[trigger] all[i] == path
                    &&& known.contains(path) == present
                    &&& forall|j: int| 0 <= j < i ==> known.contains(#[trigger] all[j]) != present
                };
            assert(all.contains(path));
            assert forall|q: Seq<Seq<char>>| #[trigger]
                list.contains(q) && known.contains(q) == present implies path_le(path, q) by {
                assert(all.contains(q));
                let j = choose|j: int| 0 <= j < all.len() && all[j] == q;
                assert(known.contains(all[j]) == present);
                assert(j >= i);
            }
        },
        None => {
            assert forall|p: Seq<Seq<char>>| #[trigger] list.contains(p) implies known.contains(p)
                != present by {
                assert(all.contains(p));
                let j = choose|j: int| 0 <= j < all.len() && all[j] == p;
                assert(known.contains(all[j]) != present);
            }
        },
    }
}

proof fn lemma_first_of_two(
    a: Seq<Seq<Seq<char>>>,
    b: Seq<Seq<Seq<char>>>,
    known: Seq<Seq<Seq<char>>>,
    present: bool,
)
    ensures
        first_with(a + b, known, present) == (match first_with(a, known, present) {
            Some(path) => Some(path),
            None => first_with(b, known, present),
        }),
    decreases b.len(),
{
    if b.len() == 0 {
        assert(a + b =~= a);
    } else {
        lemma_first_of_two(a, b.drop_last(), known, present);
        assert((a + b).drop_last() =~= a + b.drop_last());
        assert((a + b).last() == b.last());
    }
}

/// Law: when an accepted manifest without overlaps is planned. Every added and modified path must be staged,
/// no added path may be in the target, and every modified one must be there. Where all of that holds, a plan
/// is owed; otherwise the first path that breaks a rule is reported, the rules taken in that order. The plan
/// moves aside, in order, what is modified and what is deleted and there, and copies in what is modified and
/// what is added, each path once.
#[verifier::rlimit(40)]
pub proof fn law_incremental_updates_are_planned_where_they_fit(
    platform: Platform,
    staging: Seq<char>,
    target: Seq<char>,
    changes: ChangesView,
    staged: Seq<Seq<Seq<char>>>,
    installed: Seq<Seq<Seq<char>>>,
    d: Declared,
    result: Result<UpdatePlanView, PlanErrorView>,
)
    requires
        survey_result(
            platform,
            staging,
            target,
            SurveyView {
                staging_is_dir: true,
                target_is_dir: true,
                package: PackageView::Incremental { changes, staged, installed },
            },
            result,
        ),
        read_changes(platform, changes) == Ok::<Declared, ChangesErrorView>(d),
        !has_overlap(d.classes(platform)),
    ensures
        ({
            let sources = forall|p: Seq<Seq<char>>|
                #![trigger staged.contains(p)]
                d.added.contains(p) || d.modified.contains(p) ==> staged.contains(p);
            let fresh = forall|p: Seq<Seq<char>>| #[trigger]
                d.added.contains(p) ==> !installed.contains(p);
            let there = forall|p: Seq<Seq<char>>| #[trigger]
                d.modified.contains(p) ==> installed.contains(p);
            &&& result is Ok <==> sources && fresh && there
            &&& !sources ==> exists|p: Seq<Seq<char>>|
                {
                    &&& reports(
                        result,
                        "changes.json 声明的新文件不存在: ["@ + #[trigger] placed(
                            platform,
                            staging,
                            p,
                        ) + "]"@,
                    )
                    &&& first_such(d.added, staged, false, p) || (first_such(
                        d.modified,
                        staged,
                        false,
                        p,
                    ) && forall|q: Seq<Seq<char>>| #[trigger]
                        d.added.contains(q) ==> staged.contains(q))
                }
            &&& sources && !fresh ==> exists|p: Seq<Seq<char>>|
                {
                    &&& reports(
                        result,
                        "changes.json 将已存在路径声明为 added: ["@ + #[trigger] placed(
                            platform,
                            target,
                            p,
                        ) + "]"@,
                    )
                    &&& first_such(d.added, installed, true, p)
                }
            &&& sources && fresh && !there ==> exists|p: Seq<Seq<char>>|
                {
                    &&& reports(
                        result,
                        "changes.json 将不存在路径声明为 modified: ["@ + #[trigger] placed(
                            platform,
                            target,
                            p,
                        ) + "]"@,
                    )
                    &&& first_such(d.modified, installed, false, p)
                }
            &&& result matches Ok(plan) ==> {
                &&& plan.apply.to_multiset() == d.modified.to_multiset().add(
                    d.added.to_multiset(),
                )
                &&& forall|i: int, j: int|
                    0 <= i <= j < plan.apply.len() ==> path_le(
                        #[trigger] plan.apply[i],
                        #[trigger] plan.apply[j],
                    )
                &&& forall|i: int, j: int|
                    0 <= i <= j < plan.backup.len() ==> path_le(
                        #[trigger] plan.backup[i],
                        #[trigger] plan.backup[j],
                    )
            }
        }),
{
    let a = sorted(d.added);
    let m = sorted(d.modified);
    lemma_first_of_two(a, m, staged, false);
    lemma_first_of_sorted(d.added, staged, false);
    lemma_first_of_sorted(d.modified, staged, false);
    lemma_first_of_sorted(d.added, installed, true);
    lemma_first_of_sorted(d.modified, installed, false);
    assert(result == settled(platform, staging, target, d, staged, installed));
    match first_with(a + m, staged, false) {
        Some(p) => {
            assert(!staged.contains(p));
            assert(d.added.contains(p) || d.modified.contains(p));
            assert(result->Err_0.text() == "changes.json 声明的新文件不存在: ["@ + placed(
                platform,
                staging,
                p,
            ) + "]"@);
        },
        None => {
            match first_with(a, installed, true) {
                Some(p) => {
                    assert(d.added.contains(p));
                    assert(result->Err_0.text() == "changes.json 将已存在路径声明为 added: ["@
                        + placed(platform, target, p) + "]"@);
                },
                None => {
                    match first_with(m, installed, false) {
                        Some(p) => {
                            assert(d.modified.contains(p));
                            assert(result->Err_0.text()
                                == "changes.json 将不存在路径声明为 modified: ["@ + placed(
                                platform,
                                target,
                                p,
                            ) + "]"@);
                        },
                        None => {
                            let deleted = sorted(d.deleted);
                            law_sorted_lists_are_in_order(m + a);
                            law_sorted_lists_are_in_order(m + among(deleted, installed));
                            law_sorted_is_an_ordered_permutation(d.added);
                            law_sorted_is_an_ordered_permutation(d.modified);
                            vstd::seq_lib::lemma_multiset_commutative(m, a);
                        },
                    }
                },
            }
        },
    }
}

/// Law: a manifest with a path that cannot be used or that is declared twice is refused with that reason,
/// whatever is staged and installed.
pub proof fn law_refused_manifests_are_reported(
    platform: Platform,
    staging: Seq<char>,
    target: Seq<char>,
    changes: ChangesView,
    staged: Seq<Seq<Seq<char>>>,
    installed: Seq<Seq<Seq<char>>>,
    result: Result<UpdatePlanView, PlanErrorView>,
)
    requires
        survey_result(
            platform,
            staging,
            target,
            SurveyView {
                staging_is_dir: true,
                target_is_dir: true,
                package: PackageView::Incremental { changes, staged, installed },
            },
            result,
        ),
        !fine(platform, declarations(changes), declarations(changes).len() as int),
    ensures
        exists|error: ChangesErrorView| #[trigger]
            refused(platform, declarations(changes), error) && reports(result, error.text()),
{
    law_manifests_are_read_path_by_path(platform, changes);
    let error = read_changes(platform, changes)->Err_0;
    assert(refused(platform, declarations(changes), error) && reports(result, error.text()));
}

/// Whether the key of some declared path is that of another with `/` and something behind it.
pub open spec fn nested(platform: Platform, all: Seq<(Classification, Seq<char>)>) -> bool {
    exists|i: int, j: int|
        0 <= i < all.len() && 0 <= j < all.len() && lies_below(
            #[trigger] key_at(platform, all, i),
            #[trigger] key_at(platform, all, j),
        )
}

/// Whether an error names two declared paths of which one lies below the other, as they were declared.
pub open spec fn names_nested(
    platform: Platform,
    all: Seq<(Classification, Seq<char>)>,
    error: ChangesErrorView,
) -> bool {
    exists|i: int, j: int|
        {
            &&& 0 <= i < j < all.len()
            &&& lies_below(key_at(platform, all, i), key_at(platform, all, j)) || lies_below(
                key_at(platform, all, j),
                key_at(platform, all, i),
            )
            &&& error == ChangesErrorView::Overlapping {
                left: (#[trigger] key_at(platform, all, i), all[i].0),
                right: (#[trigger] key_at(platform, all, j), all[j].0),
            }
        }
}

proof fn lemma_nested(
    platform: Platform,
    all: Seq<(Classification, Seq<char>)>,
    named: Seq<(Seq<char>, Classification)>,
    error: ChangesErrorView,
)
    requires
        keyed(platform, all, named),
    ensures
        has_overlap(named) <==> nested(platform, all),
        names_overlap(error, named) ==> names_nested(platform, all, error),
{
    law_overlap_is_one_key_below_another(named, error);
    if has_overlap(named) {
        let (i, j) = choose|i: int, j: int|
            0 <= i < named.len() && 0 <= j < named.len() && lies_below(
                (#[trigger] named[i]).0,
                (#[trigger] named[j]).0,
            );
        assert(lies_below(key_at(platform, all, i), key_at(platform, all, j)));
    }
    if nested(platform, all) {
        let (i, j) = choose|i: int, j: int|
            0 <= i < all.len() && 0 <= j < all.len() && lies_below(
                #[trigger] key_at(platform, all, i),
                #[trigger] key_at(platform, all, j),
            );
        assert(named[i].0 == key_at(platform, all, i));
        assert(named[j].0 == key_at(platform, all, j));
    }
    if names_overlap(error, named) {
        let (i, j) = choose|i: int, j: int|
            {
                &&& 0 <= i < j < named.len()
                &&& error == ChangesErrorView::Overlapping {
                    left: #[trigger] named[i],
                    right: #[trigger] named[j],
                }
                &&& lies_below(named[i].0, named[j].0) || lies_below(named[j].0, named[i].0)
            };
        assert(named[i] == (key_at(platform, all, i), all[i].0));
        assert(named[j] == (key_at(platform, all, j), all[j].0));
    }
}

/// Law: a manifest that declares a path below another is refused with two such paths as the reason, whatever
/// is staged and installed; and no manifest is planned that does.
pub proof fn law_nested_manifests_are_reported(
    platform: Platform,
    staging: Seq<char>,
    target: Seq<char>,
    changes: ChangesView,
    staged: Seq<Seq<Seq<char>>>,
    installed: Seq<Seq<Seq<char>>>,
    result: Result<UpdatePlanView, PlanErrorView>,
)
    requires
        survey_result(
            platform,
            staging,
            target,
            SurveyView {
                staging_is_dir: true,
                target_is_dir: true,
                package: PackageView::Incremental { changes, staged, installed },
            },
            result,
        ),
        fine(platform, declarations(changes), declarations(changes).len() as int),
    ensures
        nested(platform, declarations(changes)) ==> exists|error: ChangesErrorView| #[trigger]
            names_nested(platform, declarations(changes), error) && reports(result, error.text()),
        result is Ok ==> !nested(platform, declarations(changes)),
{
    let all = declarations(changes);
    law_manifests_are_read_path_by_path(platform, changes);
    let named = read_changes(platform, changes)->Ok_0.classes(platform);
    if has_overlap(named) {
        let error = result->Err_0->Changes_0;
        lemma_nested(platform, all, named, error);
        assert(names_nested(platform, all, error) && reports(result, error.text()));
    } else {
        let none = ChangesErrorView::Path { fault: PathFault::Illegal, raw: Seq::empty() };
        lemma_nested(platform, all, named, none);
    }
}

/// Law: how an error in a manifest is reported.
pub proof fn law_manifest_errors_are_named(
    raw: Seq<char>,
    class: Classification,
    previous: Classification,
    left: Seq<char>,
    right: Seq<char>,
)
    ensures
        Classification::Added.name() == "added"@,
        Classification::Modified.name() == "modified"@,
        Classification::Deleted.name() == "deleted"@,
        PlanErrorView::Changes(
            ChangesErrorView::Path { fault: PathFault::Illegal, raw },
        ).text() == "changes.json 包含非法相对路径: ["@ + raw + "]"@,
        PlanErrorView::Changes(
            ChangesErrorView::Path { fault: PathFault::Escapes, raw },
        ).text() == "changes.json 路径越过更新根目录: ["@ + raw + "]"@,
        PlanErrorView::Changes(
            ChangesErrorView::Path { fault: PathFault::Reserved, raw },
        ).text() == "changes.json 包含保留路径: ["@ + raw + "]"@,
        PlanErrorView::Changes(ChangesErrorView::Repeated { class, raw }).text()
            == "changes.json 的 "@ + class.name() + " 包含重复路径: ["@ + raw + "]"@,
        PlanErrorView::Changes(ChangesErrorView::Reclassified { previous, class, raw }).text()
            == "changes.json 路径同时属于 "@ + previous.name() + " 和 "@ + class.name() + ": ["@ + raw
            + "]"@,
        PlanErrorView::Changes(
            ChangesErrorView::Overlapping { left: (left, previous), right: (right, class) },
        ).text() == "changes.json 包含相互重叠的路径: "@ + previous.name() + " ["@ + left + "] 与 "@
            + class.name() + " ["@ + right + "]"@,
{
}

} // verus!
