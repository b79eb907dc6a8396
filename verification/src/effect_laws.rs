//! What the procedures that an installation is made of do to files, from what single operations on a
//! disk do.

use vstd::prelude::*;
use crate::copy::{queue, CopyStage, CopyView, JobView};
use crate::disk::{IoFailureView, ListedView, ReplyView, RequestView};
use crate::install_laws::{effect, nothing_below, read, same_outside, World};
use crate::path::{descend, has_drive, under, Platform};
use crate::path_laws::{law_placing_is_going_down, plain_name, plain_path};
use crate::remove::{RemovalStage, RemovalView};
use crate::rename::{RenameStage, RenameView};
use crate::transaction::{InstallOp, InstallView};

verus! {

/// Where the files that an installation works on lie.
pub struct Roots {
    pub platform: Platform,
    pub staging: Seq<char>,
    pub target: Seq<char>,
    pub aside: Seq<char>,
}

/// Whether a name can be that of an entry of a directory.
pub open spec fn entry_name(platform: Platform, name: Seq<char>) -> bool {
    plain_name(name) && (platform == Platform::Windows ==> !has_drive(name))
}

/// Whether a text is the path of a file or a directory below a root.
pub open spec fn leads_to(
    platform: Platform,
    root: Seq<char>,
    text: Seq<char>,
    path: Seq<Seq<char>>,
) -> bool {
    plain_path(platform, path) && text == descend(platform, root, path)
}

/// Whether a path is a directory, as far as files tell: a directory is no file, and what is no directory
/// has nothing below it.
pub open spec fn told_dir(files: Map<Seq<Seq<char>>, Seq<u8>>, path: Seq<Seq<char>>, dir: bool) -> bool {
    if dir {
        read(files, path) is None
    } else {
        forall|q: Seq<Seq<char>>| path.is_prefix_of(q) && q != path ==> #[trigger] read(files, q) is None
    }
}

/// Whether a listing names every entry of a directory that files lie below.
pub open spec fn told_entries(
    files: Map<Seq<Seq<char>>, Seq<u8>>,
    path: Seq<Seq<char>>,
    entries: Seq<ListedView>,
) -> bool {
    forall|q: Seq<Seq<char>>|
        path.is_prefix_of(q) && path.len() < q.len() && #[trigger] read(files, q) is Some
            ==> entries.contains(ListedView::Name(q[path.len() as int]))
}

/// Whether the names in a listing can be those of entries of a directory.
pub open spec fn listed_plainly(platform: Platform, entries: Seq<ListedView>) -> bool {
    forall|i: int|
        0 <= i < entries.len() ==> match #[trigger] entries[i] {
            ListedView::Name(name) => entry_name(platform, name),
            ListedView::Failed(_) => true,
        }
}

/// Whether the copy of a file affects the one file, and where it succeeds, there was a file to copy and it
/// is there.
pub open spec fn file_copied(
    a: World,
    b: World,
    from: Seq<Seq<char>>,
    to: Seq<Seq<char>>,
    succeeded: bool,
) -> bool {
    &&& forall|q: Seq<Seq<char>>| q != to ==> #[trigger] read(b.target, q) == read(a.target, q)
    &&& succeeded ==> read(a.staging, from) is Some && read(b.target, to) == read(a.staging, from)
}

/// Whether a single operation of a copy from the staging directory to the target can turn the files from
/// `a` into `b` with a given reply. It tells the truth about the staging directory, and changes nothing
/// but where it copies a file.
pub open spec fn copy_step(
    roots: Roots,
    request: RequestView,
    reply: ReplyView,
    a: World,
    b: World,
) -> bool {
    &&& b.staging == a.staging
    &&& b.aside == a.aside
    &&& request !is CopyFile ==> b == a
    &&& request is ReadDir && reply is Listing ==> listed_plainly(roots.platform, reply->Listing_0)
    &&& forall|text: Seq<char>, n: Seq<Seq<char>>| #[trigger]
        leads_to(roots.platform, roots.staging, text, n) ==> {
            &&& request == RequestView::IsDir(text) ==> told_dir(
                a.staging,
                n,
                reply == ReplyView::Flag(true),
            )
            &&& request == RequestView::ReadDir(text) && reply is Listing ==> told_entries(
                a.staging,
                n,
                reply->Listing_0,
            )
        }
    &&& forall|from: Seq<char>, to: Seq<char>, n: Seq<Seq<char>>, m: Seq<Seq<char>>| #[trigger]
        leads_to(roots.platform, roots.staging, from, n) && #[trigger] leads_to(
            roots.platform,
            roots.target,
            to,
            m,
        ) && request == (RequestView::CopyFile { from, to }) ==> file_copied(
            a,
            b,
            n,
            m,
            reply !is Failed,
        )
}

/// A copy at some moment, and the files at that moment.
pub struct CopyMoment {
    pub copy: CopyView,
    pub world: World,
}

/// Whether one moment can follow another.
pub open spec fn copy_follows(roots: Roots, a: CopyMoment, b: CopyMoment) -> bool {
    exists|reply: ReplyView|
        {
            &&& #[trigger] a.copy.accepts(reply)
            &&& b.copy == a.copy.next(reply)
            &&& copy_step(roots, a.copy.request()->Some_0, reply, a.world, b.world)
        }
}

/// Whether the moment at `i` of a sequence of moments can be followed by the next one.
pub open spec fn copy_follows_at(roots: Roots, run: Seq<CopyMoment>, i: int) -> bool {
    copy_follows(roots, run[i], run[i + 1])
}

/// Whether a sequence of moments is a run of the copy of a path of an update into the target.
pub open spec fn is_copy_run(roots: Roots, run: Seq<CopyMoment>, p: Seq<Seq<char>>) -> bool {
    &&& run.len() > 0
    &&& plain_path(roots.platform, p)
    &&& run[0].copy == CopyView::of_entry(
        roots.platform,
        descend(roots.platform, roots.staging, p),
        descend(roots.platform, roots.target, p),
    )
    &&& forall|i: int| 0 <= i < run.len() - 1 ==> #[trigger] copy_follows_at(roots, run, i)
}

/// Whether a source and a destination are those of a path at or below another.
pub open spec fn located(
    roots: Roots,
    p: Seq<Seq<char>>,
    from: Seq<char>,
    to: Seq<char>,
    path: Seq<Seq<char>>,
) -> bool {
    &&& p.is_prefix_of(path)
    &&& leads_to(roots.platform, roots.staging, from, path)
    &&& leads_to(roots.platform, roots.target, to, path)
}

/// Whether the copy of a file is what a copy is busy with, by its stage and the path it is at.
spec fn concerns(stage: CopyStage, here: Seq<Seq<char>>, q: Seq<Seq<char>>) -> bool {
    match stage {
        CopyStage::Inspect => here.is_prefix_of(q),
        CopyStage::MakeDir | CopyStage::List => here.is_prefix_of(q) && here != q,
        CopyStage::MakeParent | CopyStage::CopyFile => here == q,
        CopyStage::Finished => false,
    }
}

/// Whether the copy of a file is still to come with one of the jobs left.
pub open spec fn queued(pending: Seq<JobView>, paths: Seq<Seq<Seq<char>>>, q: Seq<Seq<char>>) -> bool {
    exists|i: int|
        0 <= i < pending.len() && pending[i] is Entry && (#[trigger] paths[i]).is_prefix_of(q)
}

/// Whether the jobs left are those of some paths.
pub open spec fn jobs_located(
    roots: Roots,
    p: Seq<Seq<char>>,
    pending: Seq<JobView>,
    paths: Seq<Seq<Seq<char>>>,
) -> bool {
    &&& paths.len() == pending.len()
    &&& forall|i: int|
        0 <= i < pending.len() && pending[i] is Entry ==> located(
            roots,
            p,
            pending[i]->from,
            pending[i]->to,
            #[trigger] paths[i],
        )
}

/// What holds at each moment of a copy: nothing outside its path has changed, what is not staged is as it
/// was, and what is staged is copied or still to come.
spec fn copy_sound(
    roots: Roots,
    m: CopyMoment,
    start: World,
    p: Seq<Seq<char>>,
    here: Seq<Seq<char>>,
    paths: Seq<Seq<Seq<char>>>,
) -> bool {
    &&& m.copy.well_formed()
    &&& m.copy.platform == roots.platform
    &&& m.copy.skip.len() == 0
    &&& m.world.staging == start.staging
    &&& m.world.aside == start.aside
    &&& same_outside(m.world.target, start.target, p)
    &&& jobs_located(roots, p, m.copy.pending, paths)
    &&& m.copy.stage != CopyStage::Finished ==> located(roots, p, m.copy.from, m.copy.to, here)
    &&& !(m.copy.outcome matches Some(Err(_))) ==> {
        &&& forall|q: Seq<Seq<char>>|
            p.is_prefix_of(q) && read(start.staging, q) is Some ==> {
                ||| #[trigger] read(m.world.target, q) == read(start.staging, q)
                ||| concerns(m.copy.stage, here, q)
                ||| queued(m.copy.pending, paths, q)
            }
        &&& forall|q: Seq<Seq<char>>|
            read(start.staging, q) is None ==> #[trigger] read(m.world.target, q) == read(
                start.target,
                q,
            )
    }
}

/// Going on to the next job keeps everything as it is, and the path of that job is the next one.
proof fn lemma_resumed_sound(
    roots: Roots,
    before: CopyView,
    m: CopyMoment,
    start: World,
    p: Seq<Seq<char>>,
    paths: Seq<Seq<Seq<char>>>,
) -> (res: (Seq<Seq<char>>, Seq<Seq<Seq<char>>>))
    requires
        m.copy == before.resumed(),
        before.outcome is None,
        before.platform == roots.platform,
        before.skip.len() == 0,
        m.world.staging == start.staging,
        m.world.aside == start.aside,
        same_outside(m.world.target, start.target, p),
        jobs_located(roots, p, before.pending, paths),
        forall|q: Seq<Seq<char>>|
            p.is_prefix_of(q) && read(start.staging, q) is Some ==> {
                ||| #[trigger] read(m.world.target, q) == read(start.staging, q)
                ||| queued(before.pending, paths, q)
            },
        forall|q: Seq<Seq<char>>|
            read(start.staging, q) is None ==> #[trigger] read(m.world.target, q) == read(
                start.target,
                q,
            ),
    ensures
        copy_sound(roots, m, start, p, res.0, res.1),
{
    if before.pending.len() == 0 {
        assert forall|q: Seq<Seq<char>>| !queued(before.pending, paths, q) by {
        }
        (Seq::empty(), paths)
    } else {
        let last = before.pending.len() - 1;
        let here = paths[last];
        let left = paths.drop_last();
        assert(before.pending[last] == before.pending.last());
        assert forall|i: int|
            0 <= i < m.copy.pending.len() && m.copy.pending[i] is Entry implies located(
            roots,
            p,
            m.copy.pending[i]->from,
            m.copy.pending[i]->to,
            #[trigger] left[i],
        ) by {
            assert(paths[i] == left[i]);
            assert(before.pending[i] == m.copy.pending[i]);
        }
        assert forall|q: Seq<Seq<char>>|
            p.is_prefix_of(q) && read(start.staging, q) is Some && m.copy.outcome is None implies {
            ||| #[trigger] read(m.world.target, q) == read(start.staging, q)
            ||| concerns(m.copy.stage, here, q)
            ||| queued(m.copy.pending, left, q)
        } by {
            if read(m.world.target, q) != read(start.staging, q) {
                let i = choose|i: int|
                    0 <= i < before.pending.len() && before.pending[i] is Entry && (
                    #[trigger] paths[i]).is_prefix_of(q);
                if i < last {
                    assert(m.copy.pending[i] == before.pending[i]);
                    assert(left[i] == paths[i]);
                }
            }
        }
        (here, left)
    }
}

/// The paths of the jobs that the entries of a directory lead to.
pub open spec fn queue_paths(here: Seq<Seq<char>>, entries: Seq<ListedView>) -> Seq<Seq<Seq<char>>>
    decreases entries.len(),
{
    if entries.len() == 0 {
        Seq::empty()
    } else {
        let rest = queue_paths(here, entries.drop_first());
        match entries.first() {
            ListedView::Failed(_) => rest.push(here),
            ListedView::Name(name) => rest.push(here.push(name)),
        }
    }
}

proof fn lemma_child_located(
    roots: Roots,
    p: Seq<Seq<char>>,
    from: Seq<char>,
    to: Seq<char>,
    here: Seq<Seq<char>>,
    name: Seq<char>,
)
    requires
        located(roots, p, from, to, here),
        entry_name(roots.platform, name),
    ensures
        located(
            roots,
            p,
            under(roots.platform, from, name),
            under(roots.platform, to, name),
            here.push(name),
        ),
{
    let child = here.push(name);
    assert(child.drop_last() =~= here);
    assert(p.is_prefix_of(child)) by {
        assert(child.subrange(0, p.len() as int) =~= here.subrange(0, p.len() as int));
    }
    assert(plain_path(roots.platform, child)) by {
        assert forall|i: int| 0 <= i < child.len() implies plain_name(#[trigger] child[i]) by {
            if i < here.len() {
                assert(child[i] == here[i]);
            }
        }
        if roots.platform == Platform::Windows {
            assert forall|i: int| 0 <= i < child.len() implies !has_drive(#[trigger] child[i]) by {
                if i < here.len() {
                    assert(child[i] == here[i]);
                }
            }
        }
    }
}

pub proof fn lemma_queue_located(
    roots: Roots,
    p: Seq<Seq<char>>,
    from: Seq<char>,
    to: Seq<char>,
    here: Seq<Seq<char>>,
    entries: Seq<ListedView>,
)
    requires
        located(roots, p, from, to, here),
        listed_plainly(roots.platform, entries),
    ensures
        jobs_located(
            roots,
            p,
            queue(roots.platform, from, to, Seq::empty(), entries),
            queue_paths(here, entries),
        ),
        forall|name: Seq<char>, q: Seq<Seq<char>>|
            #![trigger entries.contains(ListedView::Name(name)), here.push(name).is_prefix_of(q)]
            entries.contains(ListedView::Name(name)) && here.push(name).is_prefix_of(q) ==> queued(
                queue(roots.platform, from, to, Seq::empty(), entries),
                queue_paths(here, entries),
                q,
            ),
    decreases entries.len(),
{
    let none: Seq<Seq<char>> = Seq::empty();
    let all = queue(roots.platform, from, to, none, entries);
    let paths = queue_paths(here, entries);
    if entries.len() > 0 {
        let rest = entries.drop_first();
        let before = queue(roots.platform, from, to, none, rest);
        let before_paths = queue_paths(here, rest);
        assert(listed_plainly(roots.platform, rest)) by {
            assert forall|i: int| 0 <= i < rest.len() implies match #[trigger] rest[i] {
                ListedView::Name(name) => entry_name(roots.platform, name),
                ListedView::Failed(_) => true,
            } by {
                assert(rest[i] == entries[i + 1]);
            }
        }
        lemma_queue_located(roots, p, from, to, here, rest);
        assert(entries[0] == entries.first());
        if let ListedView::Name(name) = entries.first() {
            assert(!none.contains(name));
            lemma_child_located(roots, p, from, to, here, name);
        }
        assert(all.len() == before.len() + 1);
        assert forall|i: int| 0 <= i < all.len() && all[i] is Entry implies located(
            roots,
            p,
            all[i]->from,
            all[i]->to,
            #[trigger] paths[i],
        ) by {
            if i < before.len() {
                assert(all[i] == before[i]);
                assert(paths[i] == before_paths[i]);
            }
        }
        assert forall|name: Seq<char>, q: Seq<Seq<char>>|
            #![trigger entries.contains(ListedView::Name(name)), here.push(name).is_prefix_of(q)]
            entries.contains(ListedView::Name(name)) && here.push(name).is_prefix_of(
                q,
            ) implies queued(all, paths, q) by {
            let k = choose|k: int| 0 <= k < entries.len() && entries[k] == ListedView::Name(name);
            if k == 0 {
                assert(paths[before.len() as int] == here.push(name));
                assert(all[before.len() as int] is Entry);
            } else {
                assert(rest[k - 1] == ListedView::Name(name));
                assert(rest.contains(ListedView::Name(name)));
                assert(queued(before, before_paths, q));
                let i = choose|i: int|
                    0 <= i < before.len() && before[i] is Entry && (
                    #[trigger] before_paths[i]).is_prefix_of(q);
                assert(all[i] == before[i]);
                assert(paths[i] == before_paths[i]);
            }
        }
    }
}

/// A step of a copy keeps what holds of it.
proof fn lemma_copy_step(
    roots: Roots,
    a: CopyMoment,
    b: CopyMoment,
    start: World,
    p: Seq<Seq<char>>,
    here: Seq<Seq<char>>,
    paths: Seq<Seq<Seq<char>>>,
) -> (res: (Seq<Seq<char>>, Seq<Seq<Seq<char>>>))
    requires
        copy_sound(roots, a, start, p, here, paths),
        copy_follows(roots, a, b),
    ensures
        copy_sound(roots, b, start, p, res.0, res.1),
{
    let reply = choose|reply: ReplyView|
        {
            &&& #[trigger] a.copy.accepts(reply)
            &&& b.copy == a.copy.next(reply)
            &&& copy_step(roots, a.copy.request()->Some_0, reply, a.world, b.world)
        };
    let v = a.copy;
    assert(v.outcome is None);
    assert(leads_to(roots.platform, roots.staging, v.from, here));
    assert(leads_to(roots.platform, roots.target, v.to, here));
    match v.stage {
        CopyStage::Inspect => {
            assert(v.request() == Some(RequestView::IsDir(v.from)));
            assert(told_dir(a.world.staging, here, reply == ReplyView::Flag(true)));
            assert forall|q: Seq<Seq<char>>|
                p.is_prefix_of(q) && read(start.staging, q) is Some implies {
                ||| #[trigger] read(b.world.target, q) == read(start.staging, q)
                ||| concerns(b.copy.stage, here, q)
                ||| queued(b.copy.pending, paths, q)
            } by {
                assert(read(a.world.target, q) == read(b.world.target, q));
                if here.is_prefix_of(q) && reply == ReplyView::Flag(false) && q != here {
                    assert(read(a.world.staging, q) is None);
                }
            }
            (here, paths)
        },
        CopyStage::MakeDir | CopyStage::MakeParent => {
            (here, paths)
        },
        CopyStage::List => {
            if let ReplyView::Listing(entries) = reply {
                let none: Seq<Seq<char>> = Seq::empty();
                assert(v.skip =~= none);
                assert(v.request() == Some(RequestView::ReadDir(v.from)));
                assert(told_entries(a.world.staging, here, entries));
                let more = queue(roots.platform, v.from, v.to, none, entries);
                let more_paths = queue_paths(here, entries);
                lemma_queue_located(roots, p, v.from, v.to, here, entries);
                let all = v.pending + more;
                let all_paths = paths + more_paths;
                let before = CopyView { skip: none, pending: all, ..v };
                assert(jobs_located(roots, p, all, all_paths)) by {
                    assert forall|i: int| 0 <= i < all.len() && all[i] is Entry implies located(
                        roots,
                        p,
                        all[i]->from,
                        all[i]->to,
                        #[trigger] all_paths[i],
                    ) by {
                        if i < paths.len() {
                            assert(all_paths[i] == paths[i]);
                            assert(all[i] == v.pending[i]);
                        } else {
                            assert(all_paths[i] == more_paths[i - paths.len()]);
                            assert(all[i] == more[i - paths.len()]);
                        }
                    }
                }
                assert forall|q: Seq<Seq<char>>|
                    p.is_prefix_of(q) && read(start.staging, q) is Some implies {
                    ||| #[trigger] read(b.world.target, q) == read(start.staging, q)
                    ||| queued(all, all_paths, q)
                } by {
                    assert(read(a.world.target, q) == read(b.world.target, q));
                    if queued(v.pending, paths, q) {
                        let i = choose|i: int|
                            0 <= i < v.pending.len() && v.pending[i] is Entry && (
                            #[trigger] paths[i]).is_prefix_of(q);
                        assert(all_paths[i] == paths[i]);
                        assert(all[i] == v.pending[i]);
                    } else if concerns(v.stage, here, q) {
                        assert(here.len() < q.len()) by {
                            if here.len() == q.len() {
                                assert(q.subrange(0, here.len() as int) =~= q);
                            }
                        }
                        let name = q[here.len() as int];
                        assert(read(a.world.staging, q) is Some);
                        assert(entries.contains(ListedView::Name(name)));
                        assert(here.push(name).is_prefix_of(q)) by {
                            assert(here =~= q.subrange(0, here.len() as int));
                            assert(here.push(name) =~= q.subrange(0, here.len() as int + 1));
                        }
                        assert(queued(more, more_paths, q));
                        let i = choose|i: int|
                            0 <= i < more.len() && more[i] is Entry && (
                            #[trigger] more_paths[i]).is_prefix_of(q);
                        assert(all_paths[paths.len() + i] == more_paths[i]);
                        assert(all[paths.len() + i] == more[i]);
                    }
                }
                lemma_resumed_sound(roots, before, b, start, p, all_paths)
            } else {
                (here, paths)
            }
        },
        CopyStage::CopyFile => {
            assert(v.request() == Some(RequestView::CopyFile { from: v.from, to: v.to }));
            assert(file_copied(a.world, b.world, here, here, reply !is Failed));
            assert forall|q: Seq<Seq<char>>| !p.is_prefix_of(q) implies #[trigger] read(
                b.world.target,
                q,
            ) == read(start.target, q) by {
                assert(q != here);
                assert(read(a.world.target, q) == read(start.target, q));
            }
            if reply is Failed {
                (here, paths)
            } else {
                assert forall|q: Seq<Seq<char>>|
                    p.is_prefix_of(q) && read(start.staging, q) is Some implies {
                    ||| #[trigger] read(b.world.target, q) == read(start.staging, q)
                    ||| queued(v.pending, paths, q)
                } by {
                    if q != here {
                        assert(read(b.world.target, q) == read(a.world.target, q));
                    }
                }
                assert forall|q: Seq<Seq<char>>| read(start.staging, q) is None implies
                    #[trigger] read(b.world.target, q) == read(start.target, q) by {
                    assert(q != here);
                    assert(read(a.world.target, q) == read(start.target, q));
                }
                lemma_resumed_sound(roots, v, b, start, p, paths)
            }
        },
        CopyStage::Finished => (here, paths),
    }
}

proof fn lemma_copy_run(roots: Roots, run: Seq<CopyMoment>, p: Seq<Seq<char>>, n: int) -> (res: (
    Seq<Seq<char>>,
    Seq<Seq<Seq<char>>>,
))
    requires
        is_copy_run(roots, run, p),
        0 <= n < run.len(),
    ensures
        copy_sound(roots, run[n], run[0].world, p, res.0, res.1),
    decreases n,
{
    if n == 0 {
        let paths: Seq<Seq<Seq<char>>> = Seq::empty();
        assert(p.is_prefix_of(p)) by {
            assert(p.subrange(0, p.len() as int) =~= p);
        }
        assert(located(roots, p, run[0].copy.from, run[0].copy.to, p));
        (p, paths)
    } else {
        let (here, paths) = lemma_copy_run(roots, run, p, n - 1);
        assert(copy_follows_at(roots, run, n - 1));
        lemma_copy_step(roots, run[n - 1], run[n], run[0].world, p, here, paths)
    }
}

/// Law: the copy of a path of an update does to the files what an installation counts on. Where it
/// succeeds, everything that is staged at the path and below it is in the target, and everything else is
/// as it was; where it fails, nothing outside the path has changed.
pub proof fn law_copy_has_its_effect(roots: Roots, run: Seq<CopyMoment>, p: Seq<Seq<char>>)
    requires
        is_copy_run(roots, run, p),
    ensures
        run.last().copy.outcome == Some(Ok::<(), Seq<char>>(())) ==> effect(
            InstallOp::CopyIn(p),
            ReplyView::Done,
            run[0].world,
            run.last().world,
        ),
        forall|f: IoFailureView|
            run.last().copy.outcome matches Some(Err(_)) ==> #[trigger] effect(
                InstallOp::CopyIn(p),
                ReplyView::Failed(f),
                run[0].world,
                run.last().world,
            ),
{
    let (here, paths) = lemma_copy_run(roots, run, p, run.len() - 1);
    let last = run.last();
    if last.copy.outcome == Some(Ok::<(), Seq<char>>(())) {
        assert forall|q: Seq<Seq<char>>| p.is_prefix_of(q) implies #[trigger] read(
            last.world.target,
            q,
        ) == (if read(run[0].world.staging, q) is Some {
            read(run[0].world.staging, q)
        } else {
            read(run[0].world.target, q)
        }) by {
            lemma_copy_ends_with_nothing_left(roots, run, p);
        }
    }
}

/// A copy that has succeeded has no job left.
proof fn lemma_copy_ends_with_nothing_left(
    roots: Roots,
    run: Seq<CopyMoment>,
    p: Seq<Seq<char>>,
)
    requires
        is_copy_run(roots, run, p),
    ensures
        run.last().copy.outcome == Some(Ok::<(), Seq<char>>(())) ==> run.last().copy.pending.len()
            == 0,
    decreases run.len(),
{
    if run.len() > 1 {
        let shorter = run.drop_last();
        let n = run.len() - 2;
        assert forall|i: int| 0 <= i < shorter.len() - 1 implies #[trigger] copy_follows_at(
            roots,
            shorter,
            i,
        ) by {
            assert(copy_follows_at(roots, run, i));
        }
        assert(copy_follows_at(roots, run, n));
        let (here, paths) = lemma_copy_run(roots, run, p, n);
    }
}

/// A rename at some moment, and the files at that moment.
pub struct RenameMoment {
    pub rename: RenameView,
    pub world: World,
}

/// Whether one moment can follow another: a single rename carries out what it is for or does nothing, and
/// waiting does nothing.
pub open spec fn rename_follows(op: InstallOp, a: RenameMoment, b: RenameMoment) -> bool {
    exists|reply: ReplyView|
        {
            &&& #[trigger] a.rename.accepts(reply)
            &&& b.rename == a.rename.next(reply)
            &&& if a.rename.request()->Some_0 is Rename {
                effect(op, reply, a.world, b.world)
            } else {
                b.world == a.world
            }
        }
}

/// Whether the moment at `i` of a sequence of moments can be followed by the next one.
pub open spec fn rename_follows_at(op: InstallOp, run: Seq<RenameMoment>, i: int) -> bool {
    rename_follows(op, run[i], run[i + 1])
}

/// Whether a sequence of moments is a run of a rename that moves something aside or back.
pub open spec fn is_rename_run(op: InstallOp, run: Seq<RenameMoment>) -> bool {
    &&& run.len() > 0
    &&& op is MoveAside || op is MoveBack
    &&& run[0].rename.well_formed()
    &&& run[0].rename.outcome is None
    &&& forall|i: int| 0 <= i < run.len() - 1 ==> #[trigger] rename_follows_at(op, run, i)
}

/// What holds at each moment of a rename: nothing has changed unless it has succeeded.
spec fn rename_sound(op: InstallOp, m: RenameMoment, start: World) -> bool {
    &&& m.rename.well_formed()
    &&& match m.rename.outcome {
        Some(Ok(())) => effect(op, ReplyView::Done, start, m.world),
        _ => m.world == start,
    }
}

proof fn lemma_rename_run(op: InstallOp, run: Seq<RenameMoment>, n: int)
    requires
        is_rename_run(op, run),
        0 <= n < run.len(),
    ensures
        rename_sound(op, run[n], run[0].world),
    decreases n,
{
    if n > 0 {
        lemma_rename_run(op, run, n - 1);
        assert(rename_follows_at(op, run, n - 1));
        let a = run[n - 1];
        let b = run[n];
        let reply = choose|reply: ReplyView|
            {
                &&& #[trigger] a.rename.accepts(reply)
                &&& b.rename == a.rename.next(reply)
                &&& if a.rename.request()->Some_0 is Rename {
                    effect(op, reply, a.world, b.world)
                } else {
                    b.world == a.world
                }
            };
        assert(a.rename.outcome is None);
        if let RenameStage::Attempt(_) = a.rename.stage {
            if reply is Failed {
                assert(b.world == a.world);
            } else {
                assert(reply == ReplyView::Done);
            }
        }
    }
}

/// Law: a rename that waits for locks does to the files what an installation counts on: where it succeeds,
/// what one rename does, and where it fails, nothing.
pub proof fn law_rename_has_its_effect(op: InstallOp, run: Seq<RenameMoment>)
    requires
        is_rename_run(op, run),
    ensures
        run.last().rename.outcome == Some(Ok::<(), IoFailureView>(())) ==> effect(
            op,
            ReplyView::Done,
            run[0].world,
            run.last().world,
        ),
        forall|f: IoFailureView|
            run.last().rename.outcome matches Some(Err(_)) ==> #[trigger] effect(
                op,
                ReplyView::Failed(f),
                run[0].world,
                run.last().world,
            ),
{
    lemma_rename_run(op, run, run.len() - 1);
}

/// A removal at some moment, and the files at that moment.
pub struct RemovalMoment {
    pub removal: RemovalView,
    pub world: World,
}

/// Whether a single operation of a removal of a path from the target can turn the files from `a` into `b`
/// with a given reply. What is not there has no files; a removal affects what lies at the path and below
/// it, and where it succeeds, nothing is left there.
pub open spec fn removal_step(
    p: Seq<Seq<char>>,
    request: RequestView,
    reply: ReplyView,
    a: World,
    b: World,
) -> bool {
    &&& b.staging == a.staging
    &&& b.aside == a.aside
    &&& if request is RemoveDirAll || request is RemoveFile {
        &&& same_outside(b.target, a.target, p)
        &&& reply !is Failed ==> nothing_below(b.target, p)
    } else {
        &&& b == a
        &&& request is Exists && reply == ReplyView::Flag(false) ==> nothing_below(a.target, p)
    }
}

/// Whether one moment can follow another.
pub open spec fn removal_follows(p: Seq<Seq<char>>, a: RemovalMoment, b: RemovalMoment) -> bool {
    exists|reply: ReplyView|
        {
            &&& #[trigger] a.removal.accepts(reply)
            &&& b.removal == a.removal.next(reply)
            &&& removal_step(p, a.removal.request()->Some_0, reply, a.world, b.world)
        }
}

/// Whether the moment at `i` of a sequence of moments can be followed by the next one.
pub open spec fn removal_follows_at(p: Seq<Seq<char>>, run: Seq<RemovalMoment>, i: int) -> bool {
    removal_follows(p, run[i], run[i + 1])
}

/// Whether a sequence of moments is a run of the removal of a path from the target.
pub open spec fn is_removal_run(p: Seq<Seq<char>>, run: Seq<RemovalMoment>) -> bool {
    &&& run.len() > 0
    &&& run[0].removal.stage == RemovalStage::Probe
    &&& run[0].removal.outcome is None
    &&& forall|i: int| 0 <= i < run.len() - 1 ==> #[trigger] removal_follows_at(p, run, i)
}

/// What holds at each moment of a removal: nothing has changed before it is over, and then only at the
/// path and below it.
spec fn removal_sound(p: Seq<Seq<char>>, m: RemovalMoment, start: World) -> bool {
    &&& m.removal.well_formed()
    &&& m.world.staging == start.staging
    &&& m.world.aside == start.aside
    &&& match m.removal.outcome {
        None => m.world == start,
        Some(Ok(())) => same_outside(m.world.target, start.target, p) && nothing_below(
            m.world.target,
            p,
        ),
        Some(Err(_)) => same_outside(m.world.target, start.target, p),
    }
}

proof fn lemma_removal_run(p: Seq<Seq<char>>, run: Seq<RemovalMoment>, n: int)
    requires
        is_removal_run(p, run),
        0 <= n < run.len(),
    ensures
        removal_sound(p, run[n], run[0].world),
    decreases n,
{
    if n > 0 {
        lemma_removal_run(p, run, n - 1);
        assert(removal_follows_at(p, run, n - 1));
        let a = run[n - 1];
        let b = run[n];
        let reply = choose|reply: ReplyView|
            {
                &&& #[trigger] a.removal.accepts(reply)
                &&& b.removal == a.removal.next(reply)
                &&& removal_step(p, a.removal.request()->Some_0, reply, a.world, b.world)
            };
        assert(a.removal.outcome is None);
        assert(a.world == run[0].world);
        if a.removal.stage == RemovalStage::Probe {
            assert(reply == ReplyView::Flag(true) || reply == ReplyView::Flag(false));
        }
    }
}

/// Law: the removal of a path does to the files what an installation counts on: where it succeeds, nothing
/// is left at the path and below it, and in any case nothing outside it has changed.
pub proof fn law_removal_has_its_effect(p: Seq<Seq<char>>, run: Seq<RemovalMoment>)
    requires
        is_removal_run(p, run),
    ensures
        run.last().removal.outcome == Some(Ok::<(), Seq<char>>(())) ==> effect(
            InstallOp::Discard(p),
            ReplyView::Done,
            run[0].world,
            run.last().world,
        ),
        forall|f: IoFailureView|
            run.last().removal.outcome matches Some(Err(_)) ==> #[trigger] effect(
                InstallOp::Discard(p),
                ReplyView::Failed(f),
                run[0].world,
                run.last().world,
            ),
{
    lemma_removal_run(p, run, run.len() - 1);
}

/// Law: an installation asks for its operations by the paths below its directories: what it moves aside
/// goes from the target to the same place among what is moved aside, what it copies in goes from the
/// staging directory to the same place in the target, and what it moves back goes where it was.
pub proof fn law_installation_works_on_its_paths(v: InstallView, p: Seq<Seq<char>>)
    requires
        p.len() > 0,
        plain_path(v.platform, p),
    ensures
        v.request_for(InstallOp::Probe(p)) == RequestView::Exists(
            descend(v.platform, v.target, p),
        ),
        v.request_for(InstallOp::MoveAside(p)) == (RequestView::RenameWithRetry {
            from: descend(v.platform, v.target, p),
            to: descend(v.platform, v.backup_root, p),
        }),
        v.request_for(InstallOp::CopyIn(p)) == (RequestView::CopyEntry {
            from: descend(v.platform, v.staging, p),
            to: descend(v.platform, v.target, p),
        }),
        v.request_for(InstallOp::Discard(p)) == RequestView::RemovePathIfExists(
            descend(v.platform, v.target, p),
        ),
        v.request_for(InstallOp::MoveBack(p)) == (RequestView::RenameWithRetry {
            from: descend(v.platform, v.backup_root, p),
            to: descend(v.platform, v.target, p),
        }),
{
    law_placing_is_going_down(v.platform, v.target, p);
    law_placing_is_going_down(v.platform, v.backup_root, p);
    law_placing_is_going_down(v.platform, v.staging, p);
}

} // verus!
