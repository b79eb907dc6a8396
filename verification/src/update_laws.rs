//! What an update as a whole, from its survey to the end of its installation, does to the files of
//! the target.

use vstd::prelude::*;
use crate::directory_laws::{
    above, above_some, dirs_kept, is_tree_run, law_success_installs_whole_trees, lemma_marked,
    lemma_prefix_chain, lemma_prefix_trans, marked, Directories,
};
use crate::install_laws::{
    covered, is_run, law_failure_restores_the_target, law_success_installs_the_plan,
    law_unplanned_files_are_never_touched, nothing_below, read, same_files, Moment,
};
use crate::path::reserved_name;
use crate::plan::{read_changes, survey_result, PreparedUpdate, SurveyView};
use crate::plan_laws::{
    all_paths, full_entry, law_accepted_manifest_is_separate, law_full_plan_is_what_was_staged,
    law_incremental_plan_is_what_was_declared, law_plans_leave_mutable_data_alone,
    law_prepared_plan_fits, law_prepared_plan_fits_directories, left_alone, lemma_contains_concat,
    lemma_declared_are_not_above, lemma_declared_once, truthful,
};
use crate::transaction::InstallView;

verus! {

/// Whether a run installs an update that was prepared from a survey.
pub open spec fn installs(
    run: Seq<Moment>,
    survey: SurveyView,
    prepared: PreparedUpdate,
    id: Seq<char>,
) -> bool {
    &&& is_run(run)
    &&& run[0].installation == InstallView::start(prepared, id)
    &&& survey_result(
        prepared.platform,
        prepared.staging@,
        prepared.target@,
        survey,
        Ok(prepared.plan@),
    )
}

/// Law: an update whose survey was truthful installs its plan, or, where it fails and goes back
/// without a further error, leaves every file of the target as it was.
pub proof fn law_update_is_all_or_nothing(
    run: Seq<Moment>,
    survey: SurveyView,
    prepared: PreparedUpdate,
    id: Seq<char>,
)
    requires
        installs(run, survey, prepared, id),
        truthful(prepared.platform, survey, run[0].world.target),
    ensures
        run.last().installation.outcome == Some(Ok::<(), Seq<char>>(())) ==> {
            let backup = prepared.plan@.backup;
            let apply = prepared.plan@.apply;
            forall|q: Seq<Seq<char>>| #[trigger]
                read(run.last().world.target, q) == (if covered(apply, q) {
                    read(run[0].world.staging, q)
                } else if covered(backup, q) {
                    None
                } else {
                    read(run[0].world.target, q)
                })
        },
        run.last().installation.outcome matches Some(Err(_)) ==>
            run.last().installation.discard_errors.len() == 0
            && run.last().installation.restore_errors.len() == 0 ==> same_files(
            run.last().world.target,
            run[0].world.target,
        ),
{
    law_prepared_plan_fits(
        prepared.platform,
        prepared.staging@,
        prepared.target@,
        survey,
        prepared.plan@,
        run[0].world.target,
    );
    if run.last().installation.outcome == Some(Ok::<(), Seq<char>>(())) {
        law_success_installs_the_plan(run);
    } else if let Some(Err(_)) = run.last().installation.outcome {
        if run.last().installation.discard_errors.len() == 0
            && run.last().installation.restore_errors.len() == 0 {
            law_failure_restores_the_target(run);
        }
    }
}

/// Law: no update touches mutable data. At every moment of an installation, whatever its operations
/// come to, the files in the directories that updates leave alone are as they were.
pub proof fn law_mutable_data_is_never_touched(
    run: Seq<Moment>,
    survey: SurveyView,
    prepared: PreparedUpdate,
    id: Seq<char>,
    n: int,
)
    requires
        installs(run, survey, prepared, id),
        0 <= n < run.len(),
    ensures
        forall|q: Seq<Seq<char>>|
            q.len() > 0 && reserved_name(prepared.platform, q[0]) ==> #[trigger] read(
                run[n].world.target,
                q,
            ) == read(run[0].world.target, q),
{
    let plan = prepared.plan@;
    law_plans_leave_mutable_data_alone(
        prepared.platform,
        prepared.staging@,
        prepared.target@,
        survey,
        plan,
    );
    law_unplanned_files_are_never_touched(run, n);
    assert forall|q: Seq<Seq<char>>|
        q.len() > 0 && reserved_name(prepared.platform, q[0]) implies #[trigger] read(
        run[n].world.target,
        q,
    ) == read(run[0].world.target, q) by {
        if covered(plan.backup, q) {
            let k = choose|k: int| 0 <= k < plan.backup.len() && (#[trigger] plan.backup[k]).is_prefix_of(q);
            assert(plan.backup.contains(plan.backup[k]));
            assert(!left_alone(prepared.platform, plan.backup[k]));
            assert(plan.backup[k][0] == q[0]);
        }
        if covered(plan.apply, q) {
            let k = choose|k: int| 0 <= k < plan.apply.len() && (#[trigger] plan.apply[k]).is_prefix_of(q);
            assert(plan.apply.contains(plan.apply[k]));
            assert(!left_alone(prepared.platform, plan.apply[k]));
            assert(plan.apply[k][0] == q[0]);
        }
    }
}

/// Whether a run installs an update that was prepared from a survey, with the directories at each moment,
/// and succeeds, where the survey was truthful about files and directories.
pub open spec fn installs_trees(
    run: Seq<Moment>,
    dirs: Seq<Directories>,
    survey: SurveyView,
    prepared: PreparedUpdate,
    id: Seq<char>,
) -> bool {
    &&& installs(run, survey, prepared, id)
    &&& is_tree_run(run, dirs)
    &&& truthful(prepared.platform, survey, run[0].world.target)
    &&& truthful(prepared.platform, survey, marked(dirs[0].target))
    &&& run.last().installation.outcome == Some(Ok::<(), Seq<char>>(()))
}

proof fn lemma_trees_are_installed(
    run: Seq<Moment>,
    dirs: Seq<Directories>,
    survey: SurveyView,
    prepared: PreparedUpdate,
    id: Seq<char>,
)
    requires
        installs_trees(run, dirs, survey, prepared, id),
    ensures
        ({
            let backup = prepared.plan@.backup;
            let apply = prepared.plan@.apply;
            let files = run.last().world;
            let now = dirs.last();
            &&& forall|q: Seq<Seq<char>>|
                covered(apply, q) ==> #[trigger] read(files.target, q) == read(
                    run[0].world.staging,
                    q,
                )
            &&& forall|q: Seq<Seq<char>>|
                covered(apply, q) ==> (#[trigger] now.target.contains(q)
                    <==> dirs[0].staging.contains(q))
            &&& forall|q: Seq<Seq<char>>|
                covered(backup, q) && !covered(apply, q) ==> #[trigger] read(files.target, q) is None
            &&& forall|q: Seq<Seq<char>>|
                covered(backup, q) && !covered(apply, q) ==> !#[trigger] now.target.contains(q)
            &&& forall|q: Seq<Seq<char>>|
                !covered(backup, q) && !covered(apply, q) ==> #[trigger] read(files.target, q)
                    == read(run[0].world.target, q)
            &&& dirs_kept(backup, apply, dirs[0].target, now.target)
            &&& files.staging == run[0].world.staging
            &&& now.staging == dirs[0].staging
        }),
{
    law_prepared_plan_fits(
        prepared.platform,
        prepared.staging@,
        prepared.target@,
        survey,
        prepared.plan@,
        run[0].world.target,
    );
    law_prepared_plan_fits_directories(
        prepared.platform,
        prepared.staging@,
        prepared.target@,
        survey,
        prepared.plan@,
        dirs[0].target,
    );
    law_success_installs_whole_trees(run, dirs);
}

/// Law: a full update that succeeds leaves in the target, at each name that is staged and not left alone,
/// just the tree that is staged there, with its files and its directories. Everything else in the target,
/// outside the directory of the transactions, and everything that is staged is as it was.
pub proof fn law_full_update_installs_the_staged_trees(
    run: Seq<Moment>,
    dirs: Seq<Directories>,
    survey: SurveyView,
    prepared: PreparedUpdate,
    id: Seq<char>,
)
    requires
        installs_trees(run, dirs, survey, prepared, id),
        survey.package is Full,
    ensures
        ({
            let entries = survey.package->entries;
            let platform = prepared.platform;
            let files = run.last().world;
            let now = dirs.last();
            &&& forall|q: Seq<Seq<char>>|
                q.len() > 0 ==> #[trigger] read(files.target, q) == (if full_entry(
                    platform,
                    entries,
                    q.take(1),
                ) {
                    read(run[0].world.staging, q)
                } else {
                    read(run[0].world.target, q)
                })
            &&& forall|q: Seq<Seq<char>>|
                q.len() > 0 ==> (#[trigger] now.target.contains(q) <==> if full_entry(
                    platform,
                    entries,
                    q.take(1),
                ) {
                    dirs[0].staging.contains(q)
                } else {
                    dirs[0].target.contains(q)
                })
            &&& files.staging == run[0].world.staging
            &&& now.staging == dirs[0].staging
        }),
{
    let plan = prepared.plan@;
    let entries = survey.package->entries;
    lemma_trees_are_installed(run, dirs, survey, prepared, id);
    law_full_plan_is_what_was_staged(
        prepared.platform,
        prepared.staging@,
        prepared.target@,
        survey,
        plan,
    );
    assert forall|q: Seq<Seq<char>>| q.len() > 0 implies #[trigger] covered(plan.apply, q)
        == full_entry(prepared.platform, entries, q.take(1)) by {
        if covered(plan.apply, q) {
            let k = choose|k: int| 0 <= k < plan.apply.len() && (#[trigger] plan.apply[k]).is_prefix_of(q);
            assert(plan.apply.contains(plan.apply[k]));
            assert(plan.apply[k] =~= q.take(1));
        }
        if full_entry(prepared.platform, entries, q.take(1)) {
            assert(plan.apply.contains(q.take(1)));
            let k = choose|k: int| 0 <= k < plan.apply.len() && plan.apply[k] == q.take(1);
            assert(q.subrange(0, 1) =~= q.take(1));
            assert(plan.apply[k].is_prefix_of(q));
        }
    }
    assert forall|q: Seq<Seq<char>>| q.len() > 0 implies !#[trigger] above_some(q, plan.apply) by {
        if above_some(q, plan.apply) {
            let k = choose|k: int| 0 <= k < plan.apply.len() && above(q, #[trigger] plan.apply[k]);
            assert(plan.apply.contains(plan.apply[k]));
            assert(q =~= plan.apply[k]);
        }
    }
    let files = run.last().world;
    let now = dirs.last();
    assert forall|q: Seq<Seq<char>>| q.len() > 0 implies #[trigger] read(files.target, q) == (
    if full_entry(prepared.platform, entries, q.take(1)) {
        read(run[0].world.staging, q)
    } else {
        read(run[0].world.target, q)
    }) by {
        assert(covered(plan.apply, q) == full_entry(prepared.platform, entries, q.take(1)));
    }
    assert forall|q: Seq<Seq<char>>| q.len() > 0 implies (#[trigger] now.target.contains(q) <==> if full_entry(
        prepared.platform,
        entries,
        q.take(1),
    ) {
        dirs[0].staging.contains(q)
    } else {
        dirs[0].target.contains(q)
    }) by {
        assert(covered(plan.apply, q) == full_entry(prepared.platform, entries, q.take(1)));
        assert(!above_some(q, plan.apply));
    }
}

/// Law: an incremental update that succeeds leaves in the target, at each path that is declared as added or
/// modified, just the tree that is staged there, with its files and its directories, and nothing at the
/// paths that are declared as deleted. Every other file in the target, outside the directory of the
/// transactions, is as it was, and so is every other directory, beside those on the way to what was added
/// or modified. What is staged is as it was.
pub proof fn law_incremental_update_installs_the_declared_trees(
    run: Seq<Moment>,
    dirs: Seq<Directories>,
    survey: SurveyView,
    prepared: PreparedUpdate,
    id: Seq<char>,
)
    requires
        installs_trees(run, dirs, survey, prepared, id),
        survey.package is Incremental,
    ensures
        read_changes(prepared.platform, survey.package->changes) matches Ok(d) && {
            let files = run.last().world;
            let now = dirs.last();
            let wanted = d.added + d.modified;
            &&& forall|q: Seq<Seq<char>>|
                covered(wanted, q) ==> #[trigger] read(files.target, q) == read(
                    run[0].world.staging,
                    q,
                )
            &&& forall|q: Seq<Seq<char>>|
                covered(wanted, q) ==> (#[trigger] now.target.contains(q)
                    <==> dirs[0].staging.contains(q))
            &&& forall|q: Seq<Seq<char>>|
                covered(d.deleted, q) ==> #[trigger] read(files.target, q) is None
            &&& forall|q: Seq<Seq<char>>|
                covered(d.deleted, q) ==> !#[trigger] now.target.contains(q)
            &&& forall|q: Seq<Seq<char>>|
                !covered(wanted, q) && !covered(d.deleted, q) ==> #[trigger] read(files.target, q)
                    == read(run[0].world.target, q)
            &&& forall|q: Seq<Seq<char>>|
                !covered(wanted, q) && !covered(d.deleted, q) ==> {
                    &&& dirs[0].target.contains(q) ==> #[trigger] now.target.contains(q)
                    &&& now.target.contains(q) ==> dirs[0].target.contains(q) || above_some(q, wanted)
                }
            &&& files.staging == run[0].world.staging
            &&& now.staging == dirs[0].staging
        },
{
    let plan = prepared.plan@;
    let platform = prepared.platform;
    let changes = survey.package->changes;
    lemma_trees_are_installed(run, dirs, survey, prepared, id);
    law_incremental_plan_is_what_was_declared(
        platform,
        prepared.staging@,
        prepared.target@,
        survey,
        plan,
    );
    law_accepted_manifest_is_separate(platform, changes);
    let d = read_changes(platform, changes)->Ok_0;
    let wanted = d.added + d.modified;
    let files = run.last().world;
    let now = dirs.last();
    assert forall|p: Seq<Seq<char>>| #[trigger] wanted.contains(p) <==> plan.apply.contains(p) by {
        lemma_contains_concat(d.added, d.modified, p);
    }
    assert forall|q: Seq<Seq<char>>| #[trigger] covered(wanted, q) == covered(plan.apply, q) by {
        lemma_covered_by_same(wanted, plan.apply, q);
    }
    assert forall|q: Seq<Seq<char>>| covered(plan.backup, q) implies #[trigger] covered(wanted, q)
        || covered(d.deleted, q) by {
        let k = choose|k: int| 0 <= k < plan.backup.len() && (#[trigger] plan.backup[k]).is_prefix_of(q);
        let p = plan.backup[k];
        assert(plan.backup.contains(p));
        if d.modified.contains(p) {
            lemma_contains_concat(d.added, d.modified, p);
            let j = choose|j: int| 0 <= j < wanted.len() && wanted[j] == p;
            assert(wanted[j].is_prefix_of(q));
        } else {
            let j = choose|j: int| 0 <= j < d.deleted.len() && d.deleted[j] == p;
            assert(d.deleted[j].is_prefix_of(q));
        }
    }
    assert forall|q: Seq<Seq<char>>| #[trigger] above_some(q, plan.apply) implies above_some(q, wanted) by {
        let k = choose|k: int| 0 <= k < plan.apply.len() && above(q, #[trigger] plan.apply[k]);
        assert(plan.apply.contains(plan.apply[k]));
        assert(wanted.contains(plan.apply[k]));
        let j = choose|j: int| 0 <= j < wanted.len() && wanted[j] == plan.apply[k];
        assert(above(q, wanted[j]));
    }
    assert forall|q: Seq<Seq<char>>| covered(d.deleted, q) implies #[trigger] read(files.target, q) is None
        && !now.target.contains(q) by {
        lemma_deleted_is_gone(run, dirs, survey, prepared, id, q);
    }
    assert forall|q: Seq<Seq<char>>| covered(d.deleted, q) implies !#[trigger] now.target.contains(q) by {
        assert(read(files.target, q) is None);
    }
    assert forall|q: Seq<Seq<char>>| covered(wanted, q) implies #[trigger] read(files.target, q) == read(
        run[0].world.staging,
        q,
    ) by {
        assert(covered(plan.apply, q));
    }
    assert forall|q: Seq<Seq<char>>| covered(wanted, q) implies (#[trigger] now.target.contains(q)
        <==> dirs[0].staging.contains(q)) by {
        assert(covered(plan.apply, q));
    }
    assert forall|q: Seq<Seq<char>>|
        !covered(wanted, q) && !covered(d.deleted, q) implies #[trigger] read(files.target, q) == read(
        run[0].world.target,
        q,
    ) by {
        assert(!covered(plan.apply, q) && !covered(plan.backup, q));
    }
    assert forall|q: Seq<Seq<char>>| !covered(wanted, q) && !covered(d.deleted, q) implies {
        &&& dirs[0].target.contains(q) ==> #[trigger] now.target.contains(q)
        &&& now.target.contains(q) ==> dirs[0].target.contains(q) || above_some(q, wanted)
    } by {
        assert(!covered(plan.apply, q) && !covered(plan.backup, q));
        assert(above_some(q, plan.apply) ==> above_some(q, wanted));
    }
}

proof fn lemma_covered_by_same(
    a: Seq<Seq<Seq<char>>>,
    b: Seq<Seq<Seq<char>>>,
    q: Seq<Seq<char>>,
)
    requires
        forall|p: Seq<Seq<char>>| #[trigger] a.contains(p) <==> b.contains(p),
    ensures
        covered(a, q) == covered(b, q),
{
    if covered(a, q) {
        let k = choose|k: int| 0 <= k < a.len() && (#[trigger] a[k]).is_prefix_of(q);
        assert(a.contains(a[k]));
        let j = choose|j: int| 0 <= j < b.len() && b[j] == a[k];
        assert(b[j].is_prefix_of(q));
    }
    if covered(b, q) {
        let k = choose|k: int| 0 <= k < b.len() && (#[trigger] b[k]).is_prefix_of(q);
        assert(b.contains(b[k]));
        assert(a.contains(b[k]));
        let j = choose|j: int| 0 <= j < a.len() && a[j] == b[k];
        assert(a[j].is_prefix_of(q));
    }
}

proof fn lemma_deleted_is_gone(
    run: Seq<Moment>,
    dirs: Seq<Directories>,
    survey: SurveyView,
    prepared: PreparedUpdate,
    id: Seq<char>,
    q: Seq<Seq<char>>,
)
    requires
        installs_trees(run, dirs, survey, prepared, id),
        survey.package is Incremental,
        read_changes(prepared.platform, survey.package->changes) matches Ok(d) && covered(
            d.deleted,
            q,
        ),
    ensures
        read(run.last().world.target, q) is None,
        !dirs.last().target.contains(q),
{
    let plan = prepared.plan@;
    let platform = prepared.platform;
    let d = read_changes(platform, survey.package->changes)->Ok_0;
    let installed = survey.package->installed;
    let all = all_paths(d);
    lemma_trees_are_installed(run, dirs, survey, prepared, id);
    law_incremental_plan_is_what_was_declared(
        platform,
        prepared.staging@,
        prepared.target@,
        survey,
        plan,
    );
    law_accepted_manifest_is_separate(platform, survey.package->changes);
    let k = choose|k: int| 0 <= k < d.deleted.len() && (#[trigger] d.deleted[k]).is_prefix_of(q);
    let p = d.deleted[k];
    assert(d.deleted.contains(p));
    lemma_declared_once(platform, d, p);
    assert(!covered(plan.apply, q)) by {
        if covered(plan.apply, q) {
            let j = choose|j: int| 0 <= j < plan.apply.len() && (#[trigger] plan.apply[j]).is_prefix_of(q);
            let r = plan.apply[j];
            assert(plan.apply.contains(r));
            lemma_declared_are_not_above(platform, d, p, r);
            lemma_declared_are_not_above(platform, d, r, p);
            if p.len() <= r.len() {
                lemma_prefix_chain(p, r, q);
            } else {
                lemma_prefix_chain(r, p, q);
            }
        }
    }
    if plan.backup.contains(p) {
        let j = choose|j: int| 0 <= j < plan.backup.len() && plan.backup[j] == p;
        assert(plan.backup[j].is_prefix_of(q));
        assert(covered(plan.backup, q));
    } else if !covered(plan.backup, q) {
        assert(!installed.contains(p));
        let at = d.added.len() + d.modified.len() + k;
        assert(all[at] == p);
        assert(nothing_below(run[0].world.target, all[at]));
        assert(nothing_below(marked(dirs[0].target), all[at]));
        lemma_marked(dirs[0].target, p);
        assert(read(run[0].world.target, q) is None);
        assert(!dirs[0].target.contains(q));
        if dirs.last().target.contains(q) {
            assert(above_some(q, plan.apply));
            let j = choose|j: int| 0 <= j < plan.apply.len() && above(q, #[trigger] plan.apply[j]);
            let r = plan.apply[j];
            assert(plan.apply.contains(r));
            lemma_prefix_trans(p, q, r);
            lemma_declared_are_not_above(platform, d, p, r);
        }
    }
}

} // verus!
