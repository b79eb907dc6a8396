//! What the copy of a path of an update does to directories, from what single operations on a disk do.

use vstd::prelude::*;
use crate::copy::{queue, CopyStage, CopyView, JobView};
use crate::directory_laws::{
    above, dir_effect, lemma_prefix_chain, lemma_prefix_trans, made_above, none_below, Directories,
};
use crate::disk::{IoFailureView, ListedView, ReplyView, RequestView};
use crate::effect_laws::{
    jobs_located, leads_to, lemma_queue_located, listed_plainly, located, queue_paths, queued, Roots,
};
use crate::path::{descend, parent_of};
use crate::path_laws::plain_path;
use crate::transaction::InstallOp;

verus! {

/// Whether every directory lies in another, up to the root.
pub open spec fn rooted(dirs: Set<Seq<Seq<char>>>) -> bool {
    forall|q: Seq<Seq<char>>| #[trigger] dirs.contains(q) && q.len() > 0 ==> dirs.contains(q.drop_last())
}

/// Whether a path is a directory, or has no directory at it and below it.
pub open spec fn told_dir(dirs: Set<Seq<Seq<char>>>, path: Seq<Seq<char>>, dir: bool) -> bool {
    if dir {
        dirs.contains(path)
    } else {
        none_below(dirs, path)
    }
}

/// Whether a listing names every entry of a directory that directories lie at or below.
pub open spec fn told_entries(
    dirs: Set<Seq<Seq<char>>>,
    path: Seq<Seq<char>>,
    entries: Seq<ListedView>,
) -> bool {
    forall|q: Seq<Seq<char>>|
        path.is_prefix_of(q) && path.len() < q.len() && #[trigger] dirs.contains(q)
            ==> entries.contains(ListedView::Name(q[path.len() as int]))
}

/// Whether the creation of a directory makes nothing but the directory and those on the way to it, and
/// where it succeeds, all of them are there.
pub open spec fn dirs_made(
    a: Set<Seq<Seq<char>>>,
    b: Set<Seq<Seq<char>>>,
    path: Seq<Seq<char>>,
    succeeded: bool,
) -> bool {
    &&& forall|q: Seq<Seq<char>>| a.contains(q) ==> #[trigger] b.contains(q)
    &&& forall|q: Seq<Seq<char>>|
        #[trigger] b.contains(q) ==> a.contains(q) || q.is_prefix_of(path)
    &&& succeeded ==> b.contains(path)
}

/// Whether a single operation of a copy from the staging directory to the target can turn the directories
/// from `a` into `b` with a given reply. It tells the truth about the staging directory, and changes
/// nothing but where it creates directories: the one it names, or the one that a path of the target lies
/// in.
pub open spec fn dir_copy_step(
    roots: Roots,
    request: RequestView,
    reply: ReplyView,
    a: Directories,
    b: Directories,
) -> bool {
    &&& b.staging == a.staging
    &&& request !is CreateDirAll ==> b.target == a.target
    &&& request is ReadDir && reply is Listing ==> listed_plainly(roots.platform, reply->Listing_0)
    &&& forall|text: Seq<char>, n: Seq<Seq<char>>| #[trigger]
        leads_to(roots.platform, roots.staging, text, n) ==> {
            &&& request == RequestView::IsDir(text) ==> told_dir(
                a.staging,
                n,
                reply == ReplyView::Flag(true),
            )
            &&& request == RequestView::ReadDir(text) && reply is Listing ==> told_entries(
                a.staging,
                n,
                reply->Listing_0,
            )
        }
    &&& forall|text: Seq<char>, n: Seq<Seq<char>>| #[trigger]
        leads_to(roots.platform, roots.target, text, n) ==> {
            &&& request == RequestView::CreateDirAll(text) ==> dirs_made(
                a.target,
                b.target,
                n,
                reply !is Failed,
            )
            &&& n.len() > 0 && parent_of(roots.platform, text) is Some && request
                == RequestView::CreateDirAll(parent_of(roots.platform, text)->Some_0) ==> dirs_made(
                a.target,
                b.target,
                n.drop_last(),
                reply !is Failed,
            )
        }
}

/// A copy at some moment, and the directories at that moment.
pub struct DirCopyMoment {
    pub copy: CopyView,
    pub dirs: Directories,
}

/// Whether one moment can follow another.
pub open spec fn dir_copy_follows(roots: Roots, a: DirCopyMoment, b: DirCopyMoment) -> bool {
    exists|reply: ReplyView|
        {
            &&& #[trigger] a.copy.accepts(reply)
            &&& b.copy == a.copy.next(reply)
            &&& dir_copy_step(roots, a.copy.request()->Some_0, reply, a.dirs, b.dirs)
        }
}

/// Whether the moment at `i` of a sequence of moments can be followed by the next one.
pub open spec fn dir_copy_follows_at(roots: Roots, run: Seq<DirCopyMoment>, i: int) -> bool {
    dir_copy_follows(roots, run[i], run[i + 1])
}

/// Whether a sequence of moments is a run of the copy of a path of an update into the target.
pub open spec fn is_dir_copy_run(roots: Roots, run: Seq<DirCopyMoment>, p: Seq<Seq<char>>) -> bool {
    &&& run.len() > 0
    &&& p.len() > 0
    &&& plain_path(roots.platform, p)
    &&& rooted(run[0].dirs.staging)
    &&& run[0].copy == CopyView::of_entry(
        roots.platform,
        descend(roots.platform, roots.staging, p),
        descend(roots.platform, roots.target, p),
    )
    &&& forall|i: int| 0 <= i < run.len() - 1 ==> #[trigger] dir_copy_follows_at(roots, run, i)
}

/// Whether the creation of a directory is what a copy is busy with, by its stage and the path it is at.
spec fn concerns(stage: CopyStage, here: Seq<Seq<char>>, q: Seq<Seq<char>>) -> bool {
    match stage {
        CopyStage::Inspect | CopyStage::MakeDir => here.is_prefix_of(q),
        CopyStage::List => here.is_prefix_of(q) && here != q,
        _ => false,
    }
}

/// Whether the jobs left are those of entries of directories that are staged.
spec fn jobs_in_dirs(
    staging: Set<Seq<Seq<char>>>,
    pending: Seq<JobView>,
    paths: Seq<Seq<Seq<char>>>,
) -> bool {
    forall|i: int|
        0 <= i < pending.len() && pending[i] is Entry ==> (#[trigger] paths[i]).len() > 0
            && staging.contains(paths[i].drop_last())
}

/// Whether the directories at a path and below it are staged or were there, none of those that were there
/// is gone, and only directories on the way to the path were made outside it.
spec fn only_staged(now: Directories, start: Directories, p: Seq<Seq<char>>) -> bool {
    &&& now.staging == start.staging
    &&& made_above(start.target, now.target, p)
    &&& forall|q: Seq<Seq<char>>| start.target.contains(q) ==> #[trigger] now.target.contains(q)
    &&& forall|q: Seq<Seq<char>>|
        p.is_prefix_of(q) && #[trigger] now.target.contains(q) ==> start.staging.contains(q)
            || start.target.contains(q)
}

/// What holds at each moment of a copy: what is staged is made or still to come, and nothing else is made
/// but the way to its path.
spec fn dir_copy_sound(
    roots: Roots,
    m: DirCopyMoment,
    start: Directories,
    p: Seq<Seq<char>>,
    here: Seq<Seq<char>>,
    paths: Seq<Seq<Seq<char>>>,
) -> bool {
    &&& m.copy.well_formed()
    &&& m.copy.platform == roots.platform
    &&& m.copy.skip.len() == 0
    &&& rooted(start.staging)
    &&& only_staged(m.dirs, start, p)
    &&& jobs_located(roots, p, m.copy.pending, paths)
    &&& jobs_in_dirs(start.staging, m.copy.pending, paths)
    &&& m.copy.stage != CopyStage::Finished ==> {
        &&& located(roots, p, m.copy.from, m.copy.to, here)
        &&& here.len() > 0
        &&& here == p || start.staging.contains(here.drop_last())
    }
    &&& m.copy.stage == CopyStage::MakeDir || m.copy.stage == CopyStage::List
        ==> start.staging.contains(here)
    &&& !(m.copy.outcome matches Some(Err(_))) ==> forall|q: Seq<Seq<char>>|
        p.is_prefix_of(q) && start.staging.contains(q) ==> {
            ||| #[trigger] m.dirs.target.contains(q)
            ||| concerns(m.copy.stage, here, q)
            ||| queued(m.copy.pending, paths, q)
        }
}

/// What lies on the way to a directory is a directory.
proof fn lemma_rooted(dirs: Set<Seq<Seq<char>>>, q: Seq<Seq<char>>, path: Seq<Seq<char>>)
    requires
        rooted(dirs),
        dirs.contains(path),
        q.is_prefix_of(path),
    ensures
        dirs.contains(q),
    decreases path.len(),
{
    if q.len() == path.len() {
        assert(path.subrange(0, q.len() as int) =~= path);
    } else {
        assert(dirs.contains(path.drop_last()));
        assert(path.drop_last().subrange(0, q.len() as int) =~= path.subrange(0, q.len() as int));
        lemma_rooted(dirs, q, path.drop_last());
    }
}

/// The creation of a directory that is staged, or lies on the way to the path, makes only what is staged
/// and the way to the path.
proof fn lemma_dirs_made(
    a: Directories,
    b: Directories,
    start: Directories,
    p: Seq<Seq<char>>,
    path: Seq<Seq<char>>,
    succeeded: bool,
)
    requires
        rooted(start.staging),
        only_staged(a, start, p),
        b.staging == a.staging,
        dirs_made(a.target, b.target, path, succeeded),
        above(path, p) || (p.is_prefix_of(path) && start.staging.contains(path)),
    ensures
        only_staged(b, start, p),
{
    assert forall|q: Seq<Seq<char>>| !p.is_prefix_of(q) implies {
        &&& start.target.contains(q) ==> #[trigger] b.target.contains(q)
        &&& b.target.contains(q) ==> start.target.contains(q) || above(q, p)
    } by {
        assert(start.target.contains(q) ==> a.target.contains(q));
        if b.target.contains(q) && !a.target.contains(q) {
            if above(path, p) {
                lemma_prefix_trans(q, path, p);
            } else if q.len() < p.len() {
                lemma_prefix_chain(q, p, path);
            } else {
                lemma_prefix_chain(p, q, path);
            }
        }
    }
    assert forall|q: Seq<Seq<char>>| start.target.contains(q) implies #[trigger] b.target.contains(q) by {
        assert(a.target.contains(q));
    }
    assert forall|q: Seq<Seq<char>>|
        p.is_prefix_of(q) && #[trigger] b.target.contains(q) implies start.staging.contains(q)
        || start.target.contains(q) by {
        if !a.target.contains(q) {
            if above(path, p) {
                lemma_prefix_trans(p, q, path);
                lemma_same_path(p, path);
            } else {
                lemma_rooted(start.staging, q, path);
            }
        }
    }
}

/// Two paths that lie at or below each other are the same.
proof fn lemma_same_path(p: Seq<Seq<char>>, path: Seq<Seq<char>>)
    requires
        p.is_prefix_of(path),
        path.is_prefix_of(p),
    ensures
        p == path,
{
    assert(p.len() == path.len());
    assert(p.subrange(0, p.len() as int) =~= p);
}

/// Going on to the next job keeps everything as it is, and the path of that job is the next one.
proof fn lemma_resumed_sound(
    roots: Roots,
    before: CopyView,
    m: DirCopyMoment,
    start: Directories,
    p: Seq<Seq<char>>,
    paths: Seq<Seq<Seq<char>>>,
) -> (res: (Seq<Seq<char>>, Seq<Seq<Seq<char>>>))
    requires
        m.copy == before.resumed(),
        before.outcome is None,
        before.platform == roots.platform,
        before.skip.len() == 0,
        rooted(start.staging),
        only_staged(m.dirs, start, p),
        jobs_located(roots, p, before.pending, paths),
        jobs_in_dirs(start.staging, before.pending, paths),
        forall|q: Seq<Seq<char>>|
            p.is_prefix_of(q) && start.staging.contains(q) ==> {
                ||| #[trigger] m.dirs.target.contains(q)
                ||| queued(before.pending, paths, q)
            },
    ensures
        dir_copy_sound(roots, m, start, p, res.0, res.1),
{
    if before.pending.len() == 0 {
        assert forall|q: Seq<Seq<char>>| !queued(before.pending, paths, q) by {
        }
        (Seq::empty(), paths)
    } else {
        let last = before.pending.len() - 1;
        let here = paths[last];
        let left = paths.drop_last();
        assert(before.pending[last] == before.pending.last());
        assert forall|i: int|
            0 <= i < m.copy.pending.len() && m.copy.pending[i] is Entry implies located(
            roots,
            p,
            m.copy.pending[i]->from,
            m.copy.pending[i]->to,
            #[trigger] left[i],
        ) && left[i].len() > 0 && start.staging.contains(left[i].drop_last()) by {
            assert(paths[i] == left[i]);
            assert(before.pending[i] == m.copy.pending[i]);
        }
        assert forall|q: Seq<Seq<char>>|
            p.is_prefix_of(q) && start.staging.contains(q) && m.copy.outcome is None implies {
            ||| #[trigger] m.dirs.target.contains(q)
            ||| concerns(m.copy.stage, here, q)
            ||| queued(m.copy.pending, left, q)
        } by {
            if !m.dirs.target.contains(q) {
                let i = choose|i: int|
                    0 <= i < before.pending.len() && before.pending[i] is Entry && (
                    #[trigger] paths[i]).is_prefix_of(q);
                if i < last {
                    assert(m.copy.pending[i] == before.pending[i]);
                    assert(left[i] == paths[i]);
                }
            }
        }
        (here, left)
    }
}

proof fn lemma_queue_in_dirs(
    roots: Roots,
    from: Seq<char>,
    to: Seq<char>,
    here: Seq<Seq<char>>,
    entries: Seq<ListedView>,
    staging: Set<Seq<Seq<char>>>,
)
    requires
        staging.contains(here),
    ensures
        queue(roots.platform, from, to, Seq::empty(), entries).len() == queue_paths(
            here,
            entries,
        ).len(),
        jobs_in_dirs(
            staging,
            queue(roots.platform, from, to, Seq::empty(), entries),
            queue_paths(here, entries),
        ),
    decreases entries.len(),
{
    let none: Seq<Seq<char>> = Seq::empty();
    let all = queue(roots.platform, from, to, none, entries);
    let paths = queue_paths(here, entries);
    if entries.len() > 0 {
        let rest = entries.drop_first();
        let before = queue(roots.platform, from, to, none, rest);
        let before_paths = queue_paths(here, rest);
        lemma_queue_in_dirs(roots, from, to, here, rest, staging);
        if let ListedView::Name(name) = entries.first() {
            assert(!none.contains(name));
            assert(here.push(name).drop_last() =~= here);
        }
        assert forall|i: int| 0 <= i < all.len() && all[i] is Entry implies (
        #[trigger] paths[i]).len() > 0 && staging.contains(paths[i].drop_last()) by {
            if i < before.len() {
                assert(all[i] == before[i]);
                assert(paths[i] == before_paths[i]);
            }
        }
    }
}

/// Listing a directory keeps what holds of a copy.
proof fn lemma_list_step(
    roots: Roots,
    a: DirCopyMoment,
    b: DirCopyMoment,
    start: Directories,
    p: Seq<Seq<char>>,
    here: Seq<Seq<char>>,
    paths: Seq<Seq<Seq<char>>>,
    entries: Seq<ListedView>,
) -> (res: (Seq<Seq<char>>, Seq<Seq<Seq<char>>>))
    requires
        dir_copy_sound(roots, a, start, p, here, paths),
        a.copy.stage == CopyStage::List,
        b.copy == a.copy.next(ReplyView::Listing(entries)),
        b.dirs == a.dirs,
        listed_plainly(roots.platform, entries),
        told_entries(start.staging, here, entries),
    ensures
        dir_copy_sound(roots, b, start, p, res.0, res.1),
{
    let v = a.copy;
    let none: Seq<Seq<char>> = Seq::empty();
    assert(v.skip =~= none);
    let more = queue(roots.platform, v.from, v.to, none, entries);
    let more_paths = queue_paths(here, entries);
    lemma_queue_located(roots, p, v.from, v.to, here, entries);
    lemma_queue_in_dirs(roots, v.from, v.to, here, entries, start.staging);
    let all = v.pending + more;
    let all_paths = paths + more_paths;
    let before = CopyView { skip: none, pending: all, ..v };
    assert forall|i: int| 0 <= i < all.len() && all[i] is Entry implies located(
        roots,
        p,
        all[i]->from,
        all[i]->to,
        #[trigger] all_paths[i],
    ) && all_paths[i].len() > 0 && start.staging.contains(all_paths[i].drop_last()) by {
        if i < paths.len() {
            assert(all_paths[i] == paths[i]);
            assert(all[i] == v.pending[i]);
        } else {
            assert(all_paths[i] == more_paths[i - paths.len()]);
            assert(all[i] == more[i - paths.len()]);
        }
    }
    assert forall|q: Seq<Seq<char>>| p.is_prefix_of(q) && start.staging.contains(q) implies {
        ||| #[trigger] b.dirs.target.contains(q)
        ||| queued(all, all_paths, q)
    } by {
        if queued(v.pending, paths, q) {
            let i = choose|i: int|
                0 <= i < v.pending.len() && v.pending[i] is Entry && (
                #[trigger] paths[i]).is_prefix_of(q);
            assert(all_paths[i] == paths[i]);
            assert(all[i] == v.pending[i]);
        } else if concerns(v.stage, here, q) {
            assert(here.len() < q.len()) by {
                if here.len() == q.len() {
                    assert(q.subrange(0, here.len() as int) =~= q);
                }
            }
            let name = q[here.len() as int];
            assert(entries.contains(ListedView::Name(name)));
            assert(here.push(name).is_prefix_of(q)) by {
                assert(here =~= q.subrange(0, here.len() as int));
                assert(here.push(name) =~= q.subrange(0, here.len() as int + 1));
            }
            assert(queued(more, more_paths, q));
            let i = choose|i: int|
                0 <= i < more.len() && more[i] is Entry && (
                #[trigger] more_paths[i]).is_prefix_of(q);
            assert(all_paths[paths.len() + i] == more_paths[i]);
            assert(all[paths.len() + i] == more[i]);
        } else {
            assert(a.dirs.target.contains(q));
        }
    }
    lemma_resumed_sound(roots, before, b, start, p, all_paths)
}

/// A step of a copy keeps what holds of it.
proof fn lemma_dir_copy_step(
    roots: Roots,
    a: DirCopyMoment,
    b: DirCopyMoment,
    start: Directories,
    p: Seq<Seq<char>>,
    here: Seq<Seq<char>>,
    paths: Seq<Seq<Seq<char>>>,
) -> (res: (Seq<Seq<char>>, Seq<Seq<Seq<char>>>))
    requires
        dir_copy_sound(roots, a, start, p, here, paths),
        dir_copy_follows(roots, a, b),
    ensures
        dir_copy_sound(roots, b, start, p, res.0, res.1),
{
    let reply = choose|reply: ReplyView|
        {
            &&& #[trigger] a.copy.accepts(reply)
            &&& b.copy == a.copy.next(reply)
            &&& dir_copy_step(roots, a.copy.request()->Some_0, reply, a.dirs, b.dirs)
        };
    let v = a.copy;
    assert(v.outcome is None);
    assert(leads_to(roots.platform, roots.staging, v.from, here));
    assert(leads_to(roots.platform, roots.target, v.to, here));
    match v.stage {
        CopyStage::Inspect => {
            assert(v.request() == Some(RequestView::IsDir(v.from)));
            assert(told_dir(a.dirs.staging, here, reply == ReplyView::Flag(true)));
            assert(b.dirs.target == a.dirs.target);
            assert forall|q: Seq<Seq<char>>| p.is_prefix_of(q) && start.staging.contains(q) implies {
                ||| #[trigger] b.dirs.target.contains(q)
                ||| concerns(b.copy.stage, here, q)
                ||| queued(b.copy.pending, paths, q)
            } by {
                assert(a.dirs.target.contains(q) || concerns(v.stage, here, q) || queued(
                    v.pending,
                    paths,
                    q,
                ));
            }
            (here, paths)
        },
        CopyStage::MakeDir => {
            assert(v.request() == Some(RequestView::CreateDirAll(v.to)));
            assert(dirs_made(a.dirs.target, b.dirs.target, here, reply !is Failed));
            lemma_dirs_made(a.dirs, b.dirs, start, p, here, reply !is Failed);
            assert forall|q: Seq<Seq<char>>|
                p.is_prefix_of(q) && start.staging.contains(q) && reply !is Failed implies {
                ||| #[trigger] b.dirs.target.contains(q)
                ||| concerns(b.copy.stage, here, q)
                ||| queued(b.copy.pending, paths, q)
            } by {
                assert(a.dirs.target.contains(q) || concerns(v.stage, here, q) || queued(
                    v.pending,
                    paths,
                    q,
                ));
            }
            (here, paths)
        },
        CopyStage::MakeParent => {
            let parent = here.drop_last();
            assert(v.request() == Some(
                RequestView::CreateDirAll(parent_of(roots.platform, v.to)->Some_0),
            ));
            assert(dirs_made(a.dirs.target, b.dirs.target, parent, reply !is Failed));
            assert(parent.is_prefix_of(here)) by {
                assert(here.subrange(0, parent.len() as int) =~= parent);
            }
            if here == p {
                assert(above(parent, p));
            } else {
                assert(p.len() < here.len()) by {
                    if p.len() == here.len() {
                        assert(here.subrange(0, p.len() as int) =~= here);
                    }
                }
                lemma_prefix_chain(p, parent, here);
            }
            lemma_dirs_made(a.dirs, b.dirs, start, p, parent, reply !is Failed);
            assert forall|q: Seq<Seq<char>>|
                p.is_prefix_of(q) && start.staging.contains(q) && reply !is Failed implies {
                ||| #[trigger] b.dirs.target.contains(q)
                ||| concerns(b.copy.stage, here, q)
                ||| queued(b.copy.pending, paths, q)
            } by {
                assert(a.dirs.target.contains(q) || concerns(v.stage, here, q) || queued(
                    v.pending,
                    paths,
                    q,
                ));
            }
            (here, paths)
        },
        CopyStage::List => {
            assert(b.dirs == a.dirs);
            if let ReplyView::Listing(entries) = reply {
                assert(v.request() == Some(RequestView::ReadDir(v.from)));
                assert(told_entries(a.dirs.staging, here, entries));
                lemma_list_step(roots, a, b, start, p, here, paths, entries)
            } else {
                (here, paths)
            }
        },
        CopyStage::CopyFile => {
            assert(b.dirs == a.dirs);
            if reply is Failed {
                (here, paths)
            } else {
                lemma_resumed_sound(roots, v, b, start, p, paths)
            }
        },
        CopyStage::Finished => (here, paths),
    }
}

proof fn lemma_dir_copy_run(
    roots: Roots,
    run: Seq<DirCopyMoment>,
    p: Seq<Seq<char>>,
    n: int,
) -> (res: (Seq<Seq<char>>, Seq<Seq<Seq<char>>>))
    requires
        is_dir_copy_run(roots, run, p),
        0 <= n < run.len(),
    ensures
        dir_copy_sound(roots, run[n], run[0].dirs, p, res.0, res.1),
        run[n].copy.outcome == Some(Ok::<(), Seq<char>>(())) ==> run[n].copy.pending.len() == 0,
    decreases n,
{
    if n == 0 {
        let paths: Seq<Seq<Seq<char>>> = Seq::empty();
        assert(p.is_prefix_of(p)) by {
            assert(p.subrange(0, p.len() as int) =~= p);
        }
        assert(located(roots, p, run[0].copy.from, run[0].copy.to, p));
        (p, paths)
    } else {
        let (here, paths) = lemma_dir_copy_run(roots, run, p, n - 1);
        assert(dir_copy_follows_at(roots, run, n - 1));
        lemma_dir_copy_step(roots, run[n - 1], run[n], run[0].dirs, p, here, paths)
    }
}

/// Law: the copy of a path of an update does to the directories what an installation counts on. Where it
/// succeeds, every directory that is staged at the path and below it, an empty one too, is in the target;
/// and in any case nothing else is made but the directories on the way to the path.
pub proof fn law_copy_makes_the_staged_directories(
    roots: Roots,
    run: Seq<DirCopyMoment>,
    p: Seq<Seq<char>>,
)
    requires
        is_dir_copy_run(roots, run, p),
    ensures
        run.last().copy.outcome == Some(Ok::<(), Seq<char>>(())) ==> dir_effect(
            InstallOp::CopyIn(p),
            ReplyView::Done,
            run[0].dirs,
            run.last().dirs,
        ),
        forall|f: IoFailureView|
            run.last().copy.outcome matches Some(Err(_)) ==> #[trigger] dir_effect(
                InstallOp::CopyIn(p),
                ReplyView::Failed(f),
                run[0].dirs,
                run.last().dirs,
            ),
{
    let (here, paths) = lemma_dir_copy_run(roots, run, p, run.len() - 1);
    let last = run.last();
    if last.copy.outcome == Some(Ok::<(), Seq<char>>(())) {
        assert forall|q: Seq<Seq<char>>| p.is_prefix_of(q) implies (
        #[trigger] last.dirs.target.contains(q) <==> run[0].dirs.staging.contains(q)
            || run[0].dirs.target.contains(q)) by {
            assert(!queued(last.copy.pending, paths, q));
        }
    }
}

} // verus!
