//! What an installation does to directories, beside what it does to files.

use vstd::prelude::*;
use crate::disk::ReplyView;
use crate::install_laws::{
    apart, covered, effect, is_run, law_success_installs_the_plan, nothing_below, plan_fits, read,
    Moment,
};
use crate::transaction::{law_installation_stays_well_formed, InstallOp, InstallView, Stage};

verus! {

/// The directories that an installation works on, by their paths: those staged, and those of the target
/// outside the directory of the transactions.
pub struct Directories {
    pub staging: Set<Seq<Seq<char>>>,
    pub target: Set<Seq<Seq<char>>>,
}

/// Whether there is no directory at a path or below it.
pub open spec fn none_below(dirs: Set<Seq<Seq<char>>>, path: Seq<Seq<char>>) -> bool {
    forall|q: Seq<Seq<char>>| path.is_prefix_of(q) ==> !#[trigger] dirs.contains(q)
}

/// Whether a path lies on the way to another.
pub open spec fn above(path: Seq<Seq<char>>, other: Seq<Seq<char>>) -> bool {
    path.is_prefix_of(other) && path != other
}

/// Whether a path lies on the way to one of some paths.
pub open spec fn above_some(path: Seq<Seq<char>>, list: Seq<Seq<Seq<char>>>) -> bool {
    exists|k: int| 0 <= k < list.len() && above(path, #[trigger] list[k])
}

/// Whether two sets hold the same directories but for those at a path and below it.
pub open spec fn same_outside(
    a: Set<Seq<Seq<char>>>,
    b: Set<Seq<Seq<char>>>,
    path: Seq<Seq<char>>,
) -> bool {
    forall|q: Seq<Seq<char>>| !path.is_prefix_of(q) ==> (#[trigger] b.contains(q) <==> a.contains(q))
}

/// Whether directories were made on the way to a path, and nothing else has changed but at the path and
/// below it.
pub open spec fn made_above(
    a: Set<Seq<Seq<char>>>,
    b: Set<Seq<Seq<char>>>,
    path: Seq<Seq<char>>,
) -> bool {
    forall|q: Seq<Seq<char>>|
        !path.is_prefix_of(q) ==> {
            &&& a.contains(q) ==> #[trigger] b.contains(q)
            &&& b.contains(q) ==> a.contains(q) || above(q, path)
        }
}

/// Whether an operation can turn the directories from `a` into `b` with a given reply. A rename carries a
/// directory with all it holds to its new place, and does nothing where it fails. A copy makes the
/// directories on the way to its path, and where it succeeds, those that are staged at the path and below
/// it. How a copy or a removal that fails affects what lies at its path and below it is open, and so is
/// what is moved back.
pub open spec fn dir_effect(
    op: InstallOp,
    reply: ReplyView,
    a: Directories,
    b: Directories,
) -> bool {
    &&& b.staging == a.staging
    &&& match op {
        InstallOp::Probe(p) => {
            &&& b.target == a.target
            &&& reply == ReplyView::Flag(false) ==> none_below(a.target, p)
        },
        InstallOp::MoveAside(p) => if reply is Failed {
            b.target == a.target
        } else {
            same_outside(a.target, b.target, p) && none_below(b.target, p)
        },
        InstallOp::CopyIn(p) => {
            &&& made_above(a.target, b.target, p)
            &&& reply !is Failed ==> forall|q: Seq<Seq<char>>|
                p.is_prefix_of(q) ==> (#[trigger] b.target.contains(q) <==> a.staging.contains(q)
                    || a.target.contains(q))
        },
        InstallOp::Discard(p) => {
            &&& same_outside(a.target, b.target, p)
            &&& reply !is Failed ==> none_below(b.target, p)
        },
        InstallOp::MoveBack(p) => same_outside(a.target, b.target, p),
        _ => b.target == a.target,
    }
}

/// Whether an operation can lead from one moment of a run to the next, for the files and the directories.
pub open spec fn tree_follows_at(run: Seq<Moment>, dirs: Seq<Directories>, i: int) -> bool {
    exists|reply: ReplyView|
        {
            &&& #[trigger] run[i].installation.accepts(reply)
            &&& run[i + 1].installation == run[i].installation.next(reply)
            &&& effect(run[i].installation.op()->Some_0, reply, run[i].world, run[i + 1].world)
            &&& dir_effect(run[i].installation.op()->Some_0, reply, dirs[i], dirs[i + 1])
        }
}

/// Whether a sequence of moments is a run of an installation, with the directories at each moment.
pub open spec fn is_tree_run(run: Seq<Moment>, dirs: Seq<Directories>) -> bool {
    &&& is_run(run)
    &&& dirs.len() == run.len()
    &&& forall|i: int| 0 <= i < run.len() - 1 ==> #[trigger] tree_follows_at(run, dirs, i)
}

/// Whether a plan copies nothing in where a directory is that it does not move aside, no path that it
/// copies in lies at or below another, and none that it moves aside lies on the way to one.
pub open spec fn plan_fits_dirs(
    backup: Seq<Seq<Seq<char>>>,
    apply: Seq<Seq<Seq<char>>>,
    target: Set<Seq<Seq<char>>>,
) -> bool {
    &&& apart(apply)
    &&& forall|i: int, j: int|
        0 <= i < backup.len() && 0 <= j < apply.len() ==> !above(
            #[trigger] backup[i],
            #[trigger] apply[j],
        )
    &&& forall|i: int|
        0 <= i < apply.len() ==> backup.contains(#[trigger] apply[i]) || none_below(target, apply[i])
}

/// Some directories, as if each were an empty file: so that what is told of files can be told of them.
pub open spec fn marked(dirs: Set<Seq<Seq<char>>>) -> Map<Seq<Seq<char>>, Seq<u8>> {
    Map::new(|q: Seq<Seq<char>>| dirs.contains(q), |q: Seq<Seq<char>>| Seq::empty())
}

/// Nothing is there where no directory is marked.
pub proof fn lemma_marked(dirs: Set<Seq<Seq<char>>>, path: Seq<Seq<char>>)
    ensures
        nothing_below(marked(dirs), path) <==> none_below(dirs, path),
{
    if nothing_below(marked(dirs), path) {
        assert forall|q: Seq<Seq<char>>| path.is_prefix_of(q) implies !#[trigger] dirs.contains(q) by {
            assert(read(marked(dirs), q) is None);
        }
    }
    if none_below(dirs, path) {
        assert forall|q: Seq<Seq<char>>| path.is_prefix_of(q) implies #[trigger] read(
            marked(dirs),
            q,
        ) is None by {
            assert(!dirs.contains(q));
        }
    }
}

/// Whether the directories outside what a plan covers are those that were there, and some on the way to
/// what it copies in.
pub open spec fn dirs_kept(
    backup: Seq<Seq<Seq<char>>>,
    apply: Seq<Seq<Seq<char>>>,
    start: Set<Seq<Seq<char>>>,
    now: Set<Seq<Seq<char>>>,
) -> bool {
    forall|q: Seq<Seq<char>>|
        !covered(backup, q) && !covered(apply, q) ==> {
            &&& start.contains(q) ==> #[trigger] now.contains(q)
            &&& now.contains(q) ==> start.contains(q) || above_some(q, apply)
        }
}

/// Whether the first `n` of the paths that a plan copies in hold just the directories that are staged, and
/// there is none where the plan has cleared the way.
spec fn copied(v: InstallView, dirs: Directories, start: Directories, n: int) -> bool {
    &&& forall|q: Seq<Seq<char>>|
        covered(v.apply.take(n), q) ==> (#[trigger] dirs.target.contains(q)
            <==> start.staging.contains(q))
    &&& forall|q: Seq<Seq<char>>|
        (covered(v.apply, q) || covered(v.backup, q)) && !covered(v.apply.take(n), q)
            ==> !#[trigger] dirs.target.contains(q)
    &&& dirs_kept(v.backup, v.apply, start.target, dirs.target)
}

/// Whether the first `n` of the paths that a plan moves aside hold no directory, and nothing has changed
/// outside what it moves aside.
spec fn cleared(v: InstallView, dirs: Directories, start: Directories, n: int) -> bool {
    &&& forall|j: int| 0 <= j < n ==> none_below(dirs.target, #[trigger] v.backup[j])
    &&& forall|q: Seq<Seq<char>>|
        !covered(v.backup, q) ==> (#[trigger] dirs.target.contains(q) <==> start.target.contains(q))
}

/// What holds of the directories at each stage on the way to success.
spec fn dirs_sound(v: InstallView, dirs: Directories, start: Directories) -> bool {
    &&& v.well_formed()
    &&& dirs.staging == start.staging
    &&& plan_fits_dirs(v.backup, v.apply, start.target)
    &&& match v.stage {
        Stage::Sweep | Stage::CreateRoot | Stage::CreateBackupRoot => dirs.target == start.target,
        Stage::Probe(i) | Stage::MakeParent(i) | Stage::MoveAside(i) => cleared(
            v,
            dirs,
            start,
            i as int,
        ),
        Stage::CopyIn(i) => copied(v, dirs, start, i as int),
        Stage::Commit => copied(v, dirs, start, v.apply.len() as int),
        Stage::Finished => v.outcome == Some(Ok::<(), Seq<char>>(())) ==> copied(
            v,
            dirs,
            start,
            v.apply.len() as int,
        ),
        _ => true,
    }
}

pub proof fn lemma_prefix_chain(a: Seq<Seq<char>>, b: Seq<Seq<char>>, c: Seq<Seq<char>>)
    requires
        a.is_prefix_of(c),
        b.is_prefix_of(c),
        a.len() <= b.len(),
    ensures
        a.is_prefix_of(b),
{
    assert(b.subrange(0, a.len() as int) =~= c.subrange(0, a.len() as int));
}

pub proof fn lemma_prefix_trans(a: Seq<Seq<char>>, b: Seq<Seq<char>>, c: Seq<Seq<char>>)
    requires
        a.is_prefix_of(b),
        b.is_prefix_of(c),
    ensures
        a.is_prefix_of(c),
        b != c ==> a != c,
{
    assert(c.subrange(0, a.len() as int) =~= b.subrange(0, a.len() as int));
    if a == c {
        assert(b.subrange(0, b.len() as int) =~= b);
    }
}

/// Once the first `n` paths are cleared, the installation goes on with the next, or with the copies.
proof fn lemma_clearing_goes_on(v: InstallView, dirs: Directories, start: Directories, n: int)
    requires
        v.well_formed(),
        0 <= n <= v.backup.len(),
        v.stage == v.backup_stage(n),
        dirs.staging == start.staging,
        plan_fits_dirs(v.backup, v.apply, start.target),
        cleared(v, dirs, start, n),
    ensures
        dirs_sound(v, dirs, start),
{
    if n == v.backup.len() {
        let none = v.apply.take(0);
        assert forall|q: Seq<Seq<char>>| !covered(none, q) by {
        }
        assert forall|q: Seq<Seq<char>>|
            covered(v.apply, q) || covered(v.backup, q) implies !#[trigger] dirs.target.contains(q) by {
            if covered(v.backup, q) {
                let j = choose|j: int|
                    0 <= j < v.backup.len() && (#[trigger] v.backup[j]).is_prefix_of(q);
                assert(none_below(dirs.target, v.backup[j]));
            } else {
                let j = choose|j: int|
                    0 <= j < v.apply.len() && (#[trigger] v.apply[j]).is_prefix_of(q);
                if v.backup.contains(v.apply[j]) {
                    let k = choose|k: int| 0 <= k < v.backup.len() && v.backup[k] == v.apply[j];
                    assert(v.backup[k].is_prefix_of(q));
                } else {
                    assert(none_below(start.target, v.apply[j]));
                    assert(!start.target.contains(q));
                }
            }
        }
        if v.apply.len() == 0 {
            assert(v.apply.take(v.apply.len() as int) =~= none);
        }
        assert(copied(v, dirs, start, 0));
    }
}

proof fn lemma_copy_dirs(
    v: InstallView,
    reply: ReplyView,
    a: Directories,
    b: Directories,
    start: Directories,
    i: usize,
)
    requires
        dirs_sound(v, a, start),
        v.stage == Stage::CopyIn(i),
        v.accepts(reply),
        dir_effect(v.op()->Some_0, reply, a, b),
        reply !is Failed,
    ensures
        copied(v, b, start, i + 1),
{
    let p = v.apply[i as int];
    let before = v.apply.take(i as int);
    let after = v.apply.take(i + 1);
    assert(after =~= before.push(p));
    assert forall|q: Seq<Seq<char>>| #[trigger] covered(after, q) == (covered(before, q)
        || p.is_prefix_of(q)) by {
        if covered(before, q) {
            let k = choose|k: int| 0 <= k < before.len() && (#[trigger] before[k]).is_prefix_of(q);
            assert(after[k] == before[k]);
        }
        if p.is_prefix_of(q) {
            assert(after[i as int] == p);
        }
        if covered(after, q) {
            let k = choose|k: int| 0 <= k < after.len() && (#[trigger] after[k]).is_prefix_of(q);
            if k < i {
                assert(before[k] == after[k]);
            }
        }
    }
    assert forall|q: Seq<Seq<char>>| p.is_prefix_of(q) implies !#[trigger] covered(before, q)
        && covered(v.apply, q) by {
        if covered(before, q) {
            let k = choose|k: int| 0 <= k < before.len() && (#[trigger] before[k]).is_prefix_of(q);
            assert(before[k] == v.apply[k]);
            if v.apply[k].len() <= p.len() {
                lemma_prefix_chain(v.apply[k], p, q);
            } else {
                lemma_prefix_chain(p, v.apply[k], q);
            }
            assert(!v.apply[k].is_prefix_of(v.apply[i as int]));
            assert(!v.apply[i as int].is_prefix_of(v.apply[k]));
        }
        assert(v.apply[i as int].is_prefix_of(q));
    }
    assert forall|q: Seq<Seq<char>>| above(q, p) implies !#[trigger] covered(v.apply, q)
        && !covered(v.backup, q) by {
        if covered(v.apply, q) {
            let k = choose|k: int| 0 <= k < v.apply.len() && (#[trigger] v.apply[k]).is_prefix_of(q);
            lemma_prefix_trans(v.apply[k], q, p);
            assert(!v.apply[k].is_prefix_of(v.apply[i as int]));
        }
        if covered(v.backup, q) {
            let k = choose|k: int|
                0 <= k < v.backup.len() && (#[trigger] v.backup[k]).is_prefix_of(q);
            lemma_prefix_trans(v.backup[k], q, p);
            assert(!above(v.backup[k], v.apply[i as int]));
        }
    }
    assert forall|q: Seq<Seq<char>>| covered(after, q) implies (#[trigger] b.target.contains(q)
        <==> start.staging.contains(q)) by {
        if p.is_prefix_of(q) {
            assert(!covered(before, q));
            assert(!a.target.contains(q));
        } else {
            assert(covered(before, q));
            lemma_part(v.apply, i as int, q);
            assert(!above(q, p));
            assert(a.target.contains(q) <==> start.staging.contains(q));
        }
    }
    assert forall|q: Seq<Seq<char>>|
        (covered(v.apply, q) || covered(v.backup, q)) && !covered(after, q) implies !#[trigger] b.target.contains(
        q,
    ) by {
        assert(!above(q, p));
        assert(!a.target.contains(q));
    }
    assert forall|q: Seq<Seq<char>>| !covered(v.backup, q) && !covered(v.apply, q) implies {
        &&& start.target.contains(q) ==> #[trigger] b.target.contains(q)
        &&& b.target.contains(q) ==> start.target.contains(q) || above_some(q, v.apply)
    } by {
        assert(!p.is_prefix_of(q));
        if b.target.contains(q) && !a.target.contains(q) {
            assert(above(q, v.apply[i as int]));
        }
        assert(start.target.contains(q) ==> a.target.contains(q));
    }
}

proof fn lemma_part(list: Seq<Seq<Seq<char>>>, n: int, q: Seq<Seq<char>>)
    requires
        0 <= n <= list.len(),
        covered(list.take(n), q),
    ensures
        covered(list, q),
{
    let k = choose|k: int| 0 <= k < n && (#[trigger] list.take(n)[k]).is_prefix_of(q);
    assert(list[k].is_prefix_of(q));
}

proof fn lemma_dirs_step(
    v: InstallView,
    reply: ReplyView,
    a: Directories,
    b: Directories,
    start: Directories,
)
    requires
        dirs_sound(v, a, start),
        v.accepts(reply),
        dir_effect(v.op()->Some_0, reply, a, b),
    ensures
        dirs_sound(v.next(reply), b, start),
{
    law_installation_stays_well_formed(v, reply);
    let w = v.next(reply);
    match v.stage {
        Stage::CreateBackupRoot => {
            if reply !is Failed {
                lemma_clearing_goes_on(w, b, start, 0);
            }
        },
        Stage::Probe(i) => {
            if reply == ReplyView::Flag(true) {
                assert(cleared(w, b, start, i as int));
            } else {
                assert(reply == ReplyView::Flag(false));
                assert forall|j: int| 0 <= j < i + 1 implies none_below(
                    b.target,
                    #[trigger] v.backup[j],
                ) by {
                }
                lemma_clearing_goes_on(w, b, start, i + 1);
            }
        },
        Stage::MakeParent(i) => {
            if reply !is Failed {
                assert(cleared(w, b, start, i as int));
            }
        },
        Stage::MoveAside(i) => {
            if reply !is Failed {
                let p = v.backup[i as int];
                assert forall|j: int| 0 <= j < i + 1 implies none_below(
                    b.target,
                    #[trigger] v.backup[j],
                ) by {
                    assert forall|q: Seq<Seq<char>>|
                        v.backup[j].is_prefix_of(q) implies !#[trigger] b.target.contains(q) by {
                        if !p.is_prefix_of(q) {
                            assert(none_below(a.target, v.backup[j]));
                            assert(!a.target.contains(q));
                        }
                    }
                }
                assert forall|q: Seq<Seq<char>>| !covered(v.backup, q) implies (
                #[trigger] b.target.contains(q) <==> start.target.contains(q)) by {
                    assert(!v.backup[i as int].is_prefix_of(q));
                    assert(a.target.contains(q) <==> start.target.contains(q));
                }
                lemma_clearing_goes_on(w, b, start, i + 1);
            }
        },
        Stage::CopyIn(i) => {
            if reply !is Failed {
                lemma_copy_dirs(v, reply, a, b, start, i);
            }
        },
        _ => {},
    }
}

proof fn lemma_dirs_run(run: Seq<Moment>, dirs: Seq<Directories>, n: int)
    requires
        is_tree_run(run, dirs),
        plan_fits_dirs(run[0].installation.backup, run[0].installation.apply, dirs[0].target),
        0 <= n < run.len(),
    ensures
        dirs_sound(run[n].installation, dirs[n], dirs[0]),
        run[n].installation.backup == run[0].installation.backup,
        run[n].installation.apply == run[0].installation.apply,
        run[n].world.staging == run[0].world.staging,
    decreases n,
{
    if n > 0 {
        lemma_dirs_run(run, dirs, n - 1);
        assert(tree_follows_at(run, dirs, n - 1));
        let v = run[n - 1].installation;
        let reply = choose|reply: ReplyView|
            {
                &&& #[trigger] v.accepts(reply)
                &&& run[n].installation == v.next(reply)
                &&& effect(v.op()->Some_0, reply, run[n - 1].world, run[n].world)
                &&& dir_effect(v.op()->Some_0, reply, dirs[n - 1], dirs[n])
            };
        lemma_dirs_step(v, reply, dirs[n - 1], dirs[n], dirs[0]);
    }
}

/// Law: an installation that succeeds leaves in the target, at every path that the plan copies in, just
/// the tree that is staged there, with its files and its directories, empty ones too; nothing at the other
/// paths that the plan moves aside; every other file as it was, and every other directory, beside those on
/// the way to what was copied in. What is staged is as it was.
pub proof fn law_success_installs_whole_trees(run: Seq<Moment>, dirs: Seq<Directories>)
    requires
        is_tree_run(run, dirs),
        plan_fits(
            run[0].installation.backup,
            run[0].installation.apply,
            run[0].world.target,
        ),
        plan_fits_dirs(run[0].installation.backup, run[0].installation.apply, dirs[0].target),
        run.last().installation.outcome == Some(Ok::<(), Seq<char>>(())),
    ensures
        ({
            let backup = run[0].installation.backup;
            let apply = run[0].installation.apply;
            let files = run.last().world;
            let now = dirs.last();
            &&& forall|q: Seq<Seq<char>>|
                covered(apply, q) ==> #[trigger] read(files.target, q) == read(
                    run[0].world.staging,
                    q,
                )
            &&& forall|q: Seq<Seq<char>>|
                covered(apply, q) ==> (#[trigger] now.target.contains(q)
                    <==> dirs[0].staging.contains(q))
            &&& forall|q: Seq<Seq<char>>|
                covered(backup, q) && !covered(apply, q) ==> #[trigger] read(files.target, q) is None
            &&& forall|q: Seq<Seq<char>>|
                covered(backup, q) && !covered(apply, q) ==> !#[trigger] now.target.contains(q)
            &&& forall|q: Seq<Seq<char>>|
                !covered(backup, q) && !covered(apply, q) ==> #[trigger] read(files.target, q)
                    == read(run[0].world.target, q)
            &&& dirs_kept(backup, apply, dirs[0].target, now.target)
            &&& files.staging == run[0].world.staging
            &&& now.staging == dirs[0].staging
        }),
{
    law_success_installs_the_plan(run);
    lemma_dirs_run(run, dirs, run.len() - 1);
    let v = run.last().installation;
    assert(v.apply.take(v.apply.len() as int) =~= v.apply);
}

} // verus!
