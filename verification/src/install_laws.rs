//! What an installation does to the files of the target, whatever its operations come to.

use vstd::prelude::*;
use crate::disk::ReplyView;
use crate::transaction::{law_installation_stays_well_formed, InstallOp, InstallView, Stage};

verus! {

/// Files by their paths below a root.
pub open spec fn read(files: Map<Seq<Seq<char>>, Seq<u8>>, path: Seq<Seq<char>>) -> Option<Seq<u8>> {
    if files.dom().contains(path) {
        Some(files[path])
    } else {
        None
    }
}

/// Whether two roots hold the same files.
pub open spec fn same_files(
    a: Map<Seq<Seq<char>>, Seq<u8>>,
    b: Map<Seq<Seq<char>>, Seq<u8>>,
) -> bool {
    forall|q: Seq<Seq<char>>| #[trigger] read(a, q) == read(b, q)
}

/// Whether a path is one of some paths or lies below one.
pub open spec fn covered(list: Seq<Seq<Seq<char>>>, path: Seq<Seq<char>>) -> bool {
    exists|k: int| 0 <= k < list.len() && (#[trigger] list[k]).is_prefix_of(path)
}

/// Whether there is no file at a path or below it.
pub open spec fn nothing_below(
    files: Map<Seq<Seq<char>>, Seq<u8>>,
    path: Seq<Seq<char>>,
) -> bool {
    forall|q: Seq<Seq<char>>| path.is_prefix_of(q) ==> #[trigger] read(files, q) is None
}

/// Whether two roots hold the same files but for those at a path and below it.
pub open spec fn same_outside(
    a: Map<Seq<Seq<char>>, Seq<u8>>,
    b: Map<Seq<Seq<char>>, Seq<u8>>,
    path: Seq<Seq<char>>,
) -> bool {
    forall|q: Seq<Seq<char>>| !path.is_prefix_of(q) ==> #[trigger] read(a, q) == read(b, q)
}

/// The files that an installation works on: those staged, those of the target outside the
/// directory of the transactions, and those that this transaction moved aside.
pub struct World {
    pub staging: Map<Seq<Seq<char>>, Seq<u8>>,
    pub target: Map<Seq<Seq<char>>, Seq<u8>>,
    pub aside: Map<Seq<Seq<char>>, Seq<u8>>,
}

/// Whether an operation can turn the files from `a` into `b` with a given reply. A rename carries a
/// file, or a directory with all it holds, to its new place, and does nothing where it fails. A copy
/// or a removal affects what lies at its path and below it; how, where it fails, is open.
pub open spec fn effect(op: InstallOp, reply: ReplyView, a: World, b: World) -> bool {
    &&& b.staging == a.staging
    &&& match op {
        InstallOp::Probe(p) => {
            &&& b == a
            &&& reply == ReplyView::Flag(false) ==> nothing_below(a.target, p)
        },
        InstallOp::MoveAside(p) => if reply is Failed {
            b == a
        } else {
            &&& same_outside(b.target, a.target, p)
            &&& nothing_below(b.target, p)
            &&& same_outside(b.aside, a.aside, p)
            &&& forall|q: Seq<Seq<char>>|
                p.is_prefix_of(q) ==> #[trigger] read(b.aside, q) == read(a.target, q)
        },
        InstallOp::CopyIn(p) => {
            &&& b.aside == a.aside
            &&& same_outside(b.target, a.target, p)
            &&& reply !is Failed ==> forall|q: Seq<Seq<char>>|
                p.is_prefix_of(q) ==> #[trigger] read(b.target, q) == (if read(a.staging, q) is Some {
                    read(a.staging, q)
                } else {
                    read(a.target, q)
                })
        },
        InstallOp::Discard(p) => {
            &&& b.aside == a.aside
            &&& same_outside(b.target, a.target, p)
            &&& reply !is Failed ==> nothing_below(b.target, p)
        },
        InstallOp::MoveBack(p) => if reply is Failed {
            b == a
        } else {
            &&& same_outside(b.target, a.target, p)
            &&& forall|q: Seq<Seq<char>>|
                p.is_prefix_of(q) ==> #[trigger] read(b.target, q) == read(a.aside, q)
            &&& same_outside(b.aside, a.aside, p)
            &&& nothing_below(b.aside, p)
        },
        _ => b == a,
    }
}

/// An installation at some moment, and the files at that moment.
pub struct Moment {
    pub installation: InstallView,
    pub world: World,
}

/// Whether one moment can follow another.
pub open spec fn follows(a: Moment, b: Moment) -> bool {
    exists|reply: ReplyView|
        {
            &&& #[trigger] a.installation.accepts(reply)
            &&& b.installation == a.installation.next(reply)
            &&& effect(a.installation.op()->Some_0, reply, a.world, b.world)
        }
}

/// Whether the moment at `i` of a sequence of moments can be followed by the next one.
pub open spec fn follows_at(run: Seq<Moment>, i: int) -> bool {
    follows(run[i], run[i + 1])
}

/// Whether a sequence of moments is a run of an installation from its first step on.
pub open spec fn is_run(run: Seq<Moment>) -> bool {
    &&& run.len() > 0
    &&& run[0].installation.well_formed()
    &&& run[0].installation.stage == Stage::Sweep
    &&& run[0].installation.discard_errors.len() == 0
    &&& run[0].installation.restore_errors.len() == 0
    &&& run[0].world.aside.dom().is_empty()
    &&& forall|i: int| 0 <= i < run.len() - 1 ==> #[trigger] follows_at(run, i)
}

/// Whether no path of some lies at or below another.
pub open spec fn apart(list: Seq<Seq<Seq<char>>>) -> bool {
    forall|i: int, j: int|
        0 <= i < list.len() && 0 <= j < list.len() && i != j ==> !(#[trigger] list[i]).is_prefix_of(
            #[trigger] list[j],
        )
}

/// Whether a plan fits the target: what it moves aside does not nest, and where it copies something
/// in that it does not move aside, nothing is there.
pub open spec fn plan_fits(
    backup: Seq<Seq<Seq<char>>>,
    apply: Seq<Seq<Seq<char>>>,
    target: Map<Seq<Seq<char>>, Seq<u8>>,
) -> bool {
    &&& apart(backup)
    &&& forall|i: int|
        0 <= i < apply.len() ==> backup.contains(#[trigger] apply[i]) || nothing_below(
            target,
            apply[i],
        )
}

/// What is left of a file when everything covered by some paths is gone.
pub open spec fn spared(
    files: Map<Seq<Seq<char>>, Seq<u8>>,
    gone: Seq<Seq<Seq<char>>>,
    path: Seq<Seq<char>>,
) -> Option<Seq<u8>> {
    if covered(gone, path) {
        None
    } else {
        read(files, path)
    }
}

/// What is found at a path after an update: what was staged there, if the update copies it in, and
/// else what was there, unless the update took it away.
pub open spec fn updated(
    start: World,
    gone: Seq<Seq<Seq<char>>>,
    copied: Seq<Seq<Seq<char>>>,
    path: Seq<Seq<char>>,
) -> Option<Seq<u8>> {
    if covered(copied, path) && read(start.staging, path) is Some {
        read(start.staging, path)
    } else {
        spared(start.target, gone, path)
    }
}

proof fn lemma_covered_push(
    list: Seq<Seq<Seq<char>>>,
    p: Seq<Seq<char>>,
    q: Seq<Seq<char>>,
)
    ensures
        covered(list.push(p), q) == (covered(list, q) || p.is_prefix_of(q)),
{
    let longer = list.push(p);
    if covered(list, q) {
        let k = choose|k: int| 0 <= k < list.len() && (#[trigger] list[k]).is_prefix_of(q);
        assert(longer[k] == list[k]);
    }
    if p.is_prefix_of(q) {
        assert(longer[list.len() as int] == p);
    }
    if covered(longer, q) {
        let k = choose|k: int| 0 <= k < longer.len() && (#[trigger] longer[k]).is_prefix_of(q);
        if k < list.len() {
            assert(longer[k] == list[k]);
        }
    }
}

proof fn lemma_covered_take(list: Seq<Seq<Seq<char>>>, n: int, q: Seq<Seq<char>>)
    requires
        0 <= n < list.len(),
    ensures
        covered(list.take(n + 1), q) == (covered(list.take(n), q) || list[n].is_prefix_of(q)),
{
    assert(list.take(n + 1) =~= list.take(n).push(list[n]));
    lemma_covered_push(list.take(n), list[n], q);
}

/// Whether what was moved aside is just what the paths moved aside cover.
spec fn aside_holds(m: Moment, start: World, moved: Seq<Seq<Seq<char>>>) -> bool {
    forall|q: Seq<Seq<char>>|
        #[trigger] read(m.world.aside, q) == (if covered(moved, q) {
            read(start.target, q)
        } else {
            None
        })
}

/// Whether the target is as it was but for what some paths cover.
spec fn target_spares(m: Moment, start: World, moved: Seq<Seq<Seq<char>>>) -> bool {
    forall|q: Seq<Seq<char>>|
        #[trigger] read(m.world.target, q) == spared(start.target, moved, q)
}

/// Whether every path moved aside is one of the first `n` of the plan.
spec fn moved_in_order(m: Moment, n: int) -> bool {
    &&& apart(m.installation.backed_up)
    &&& forall|k: int|
        0 <= k < m.installation.backed_up.len() ==> m.installation.backup.take(n).contains(
            #[trigger] m.installation.backed_up[k],
        )
}

/// Whether the first `n` paths of the plan are gone from the target.
spec fn first_gone(m: Moment, n: int) -> bool {
    forall|j: int|
        0 <= j < n ==> nothing_below(m.world.target, #[trigger] m.installation.backup[j])
}

/// Whether what was moved aside leaves nothing where the plan moves aside or copies in.
spec fn cleared(m: Moment, start: World) -> bool {
    let moved = m.installation.backed_up;
    &&& forall|q: Seq<Seq<char>>|
        covered(m.installation.backup, q) ==> #[trigger] spared(start.target, moved, q) is None
    &&& forall|q: Seq<Seq<char>>|
        covered(m.installation.apply, q) ==> #[trigger] spared(start.target, moved, q) is None
    &&& forall|q: Seq<Seq<char>>|
        !covered(m.installation.backup, q) ==> #[trigger] spared(start.target, moved, q) == read(
            start.target,
            q,
        )
}

/// What holds of the files at each stage, as long as going back has not failed.
spec fn sound(m: Moment, start: World) -> bool {
    let v = m.installation;
    let all_moved = v.backed_up;
    &&& v.well_formed()
    &&& m.world.staging == start.staging
    &&& plan_fits(v.backup, v.apply, start.target)
    &&& match v.stage {
        Stage::Sweep | Stage::CreateRoot | Stage::CreateBackupRoot => {
            &&& target_spares(m, start, all_moved)
            &&& aside_holds(m, start, all_moved)
            &&& v.discard_errors.len() == 0
            &&& v.restore_errors.len() == 0
        },
        Stage::Probe(i) | Stage::MakeParent(i) | Stage::MoveAside(i) => {
            &&& target_spares(m, start, all_moved)
            &&& aside_holds(m, start, all_moved)
            &&& moved_in_order(m, i as int)
            &&& first_gone(m, i as int)
            &&& v.discard_errors.len() == 0
            &&& v.restore_errors.len() == 0
        },
        Stage::CopyIn(i) => {
            &&& aside_holds(m, start, all_moved)
            &&& moved_in_order(m, v.backup.len() as int)
            &&& cleared(m, start)
            &&& forall|q: Seq<Seq<char>>|
                #[trigger] read(m.world.target, q) == updated(
                    start,
                    all_moved,
                    v.apply.take(i as int),
                    q,
                )
            &&& v.discard_errors.len() == 0
            &&& v.restore_errors.len() == 0
        },
        Stage::Commit => {
            &&& aside_holds(m, start, all_moved)
            &&& moved_in_order(m, v.backup.len() as int)
            &&& cleared(m, start)
            &&& forall|q: Seq<Seq<char>>|
                #[trigger] read(m.world.target, q) == updated(start, all_moved, v.apply, q)
        },
        Stage::Discard(n) => v.discard_errors.len() == 0 && v.restore_errors.len() == 0 ==> {
            &&& aside_holds(m, start, all_moved)
            &&& moved_in_order(m, v.backup.len() as int)
            &&& cleared(m, start)
            &&& forall|q: Seq<Seq<char>>|
                !covered(v.apply, q) ==> #[trigger] read(m.world.target, q) == spared(
                    start.target,
                    all_moved,
                    q,
                )
            &&& forall|j: int|
                n <= j < v.apply.len() ==> nothing_below(m.world.target, #[trigger] v.apply[j])
        },
        Stage::Restore(n) => v.discard_errors.len() == 0 && v.restore_errors.len() == 0 ==> {
            &&& apart(all_moved)
            &&& target_spares(m, start, all_moved.take(n as int))
            &&& aside_holds(m, start, all_moved.take(n as int))
        },
        Stage::Finished => match v.outcome {
            Some(Ok(())) => {
                &&& aside_holds(m, start, v.backup)
                &&& forall|q: Seq<Seq<char>>|
                    #[trigger] read(m.world.target, q) == updated(start, v.backup, v.apply, q)
            },
            _ => v.discard_errors.len() == 0 && v.restore_errors.len() == 0 ==> {
                &&& same_files(m.world.target, start.target)
                &&& forall|q: Seq<Seq<char>>| #[trigger] read(m.world.aside, q) is None
            },
        },
    }
}

/// What holds when a path of the plan has been dealt with lets the installation go on.
proof fn lemma_backup_goes_on(b: Moment, start: World, n: int)
    requires
        b.installation.well_formed(),
        0 <= n <= b.installation.backup.len(),
        b.installation.stage == b.installation.backup_stage(n),
        b.world.staging == start.staging,
        plan_fits(b.installation.backup, b.installation.apply, start.target),
        target_spares(b, start, b.installation.backed_up),
        aside_holds(b, start, b.installation.backed_up),
        moved_in_order(b, n),
        first_gone(b, n),
        b.installation.discard_errors.len() == 0,
        b.installation.restore_errors.len() == 0,
    ensures
        sound(b, start),
{
    let v = b.installation;
    let moved = v.backed_up;
    if n == v.backup.len() {
        assert forall|q: Seq<Seq<char>>| covered(v.backup, q) implies #[trigger] spared(
            start.target,
            moved,
            q,
        ) is None by {
            let j = choose|j: int| 0 <= j < v.backup.len() && (#[trigger] v.backup[j]).is_prefix_of(
                q,
            );
            assert(nothing_below(b.world.target, v.backup[j]));
            assert(read(b.world.target, q) is None);
        }
        assert forall|q: Seq<Seq<char>>| covered(v.apply, q) implies #[trigger] spared(
            start.target,
            moved,
            q,
        ) is None by {
            let j = choose|j: int| 0 <= j < v.apply.len() && (#[trigger] v.apply[j]).is_prefix_of(
                q,
            );
            if v.backup.contains(v.apply[j]) {
                let k = choose|k: int| 0 <= k < v.backup.len() && v.backup[k] == v.apply[j];
                assert(v.backup[k].is_prefix_of(q));
                assert(covered(v.backup, q));
            } else {
                assert(nothing_below(start.target, v.apply[j]));
                assert(read(start.target, q) is None);
            }
        }
        assert forall|q: Seq<Seq<char>>| !covered(v.backup, q) implies #[trigger] spared(
            start.target,
            moved,
            q,
        ) == read(start.target, q) by {
            if covered(moved, q) {
                let k = choose|k: int| 0 <= k < moved.len() && (#[trigger] moved[k]).is_prefix_of(q);
                assert(v.backup.take(n).contains(moved[k]));
                let j = choose|j: int| 0 <= j < n && v.backup.take(n)[j] == moved[k];
                assert(v.backup[j].is_prefix_of(q));
            }
        }
        assert(cleared(b, start));
        assert forall|q: Seq<Seq<char>>| #[trigger] read(b.world.target, q) == updated(
            start,
            moved,
            v.apply.take(0),
            q,
        ) by {
            assert(!covered(v.apply.take(0), q));
        }
        if v.apply.len() == 0 {
            assert(v.apply.take(0) =~= v.apply);
        }
    }
}

/// Going back can start once the target lacks just what was moved aside.
proof fn lemma_restore_goes_on(b: Moment, start: World)
    requires
        b.installation.well_formed(),
        b.world.staging == start.staging,
        plan_fits(b.installation.backup, b.installation.apply, start.target),
        b.installation.backed_up.len() > 0 ==> b.installation.stage == Stage::Restore(
            b.installation.backed_up.len() as usize,
        ),
        b.installation.backed_up.len() == 0 ==> b.installation.stage == Stage::Finished
            && b.installation.outcome matches Some(Err(_)),
        b.installation.discard_errors.len() == 0 && b.installation.restore_errors.len() == 0 ==> {
            &&& apart(b.installation.backed_up)
            &&& target_spares(b, start, b.installation.backed_up)
            &&& aside_holds(b, start, b.installation.backed_up)
        },
    ensures
        sound(b, start),
{
    let moved = b.installation.backed_up;
    assert(moved.take(moved.len() as int) =~= moved);
    if moved.len() == 0 {
        assert forall|q: Seq<Seq<char>>| !covered(moved, q) by {
        }
        if b.installation.discard_errors.len() == 0 && b.installation.restore_errors.len() == 0 {
            assert forall|q: Seq<Seq<char>>| #[trigger] read(b.world.target, q) == read(
                start.target,
                q,
            ) by {
                assert(read(b.world.target, q) == spared(start.target, moved, q));
            }
        }
    }
}

proof fn lemma_move_aside(a: Moment, b: Moment, start: World, reply: ReplyView, i: usize)
    requires
        sound(a, start),
        a.installation.stage == Stage::MoveAside(i),
        a.installation.accepts(reply),
        b.installation == a.installation.next(reply),
        effect(a.installation.op()->Some_0, reply, a.world, b.world),
    ensures
        sound(b, start),
{
    let v = a.installation;
    let p = v.backup[i as int];
    law_installation_stays_well_formed(v, reply);
    if reply is Failed {
        lemma_restore_goes_on(b, start);
    } else {
        let moved = v.backed_up;
        let now = b.installation.backed_up;
        assert(now == moved.push(p));
        assert forall|q: Seq<Seq<char>>| #[trigger] read(b.world.target, q) == spared(
            start.target,
            now,
            q,
        ) by {
            lemma_covered_push(moved, p, q);
            assert(read(a.world.target, q) == spared(start.target, moved, q));
        }
        assert forall|k: int| 0 <= k < moved.len() implies !p.is_prefix_of(#[trigger] moved[k])
            && !moved[k].is_prefix_of(p) by {
            assert(v.backup.take(i as int).contains(moved[k]));
            let j = choose|j: int| 0 <= j < i && v.backup.take(i as int)[j] == moved[k];
            assert(v.backup[j] == moved[k]);
        }
        assert forall|q: Seq<Seq<char>>| #[trigger] read(b.world.aside, q) == (if covered(now, q) {
            read(start.target, q)
        } else {
            None
        }) by {
            lemma_covered_push(moved, p, q);
            assert(read(a.world.aside, q) == (if covered(moved, q) {
                read(start.target, q)
            } else {
                None
            }));
            if p.is_prefix_of(q) {
                assert(read(b.world.aside, q) == read(a.world.target, q));
                assert(read(a.world.target, q) == spared(start.target, moved, q));
                if covered(moved, q) {
                    let k = choose|k: int| 0 <= k < moved.len() && (#[trigger] moved[k]).is_prefix_of(
                        q,
                    );
                    lemma_prefixes_of_one(moved[k], p, q);
                }
            }
        }
        assert(v.backup.take(i + 1) =~= v.backup.take(i as int).push(p));
        assert forall|k: int| 0 <= k < now.len() implies v.backup.take(i + 1).contains(
            #[trigger] now[k],
        ) by {
            if k < moved.len() {
                assert(now[k] == moved[k]);
                let j = choose|j: int| 0 <= j < i && v.backup.take(i as int)[j] == moved[k];
                assert(v.backup.take(i + 1)[j] == moved[k]);
            } else {
                assert(v.backup.take(i + 1)[i as int] == p);
            }
        }
        assert(apart(now)) by {
            assert forall|x: int, y: int|
                0 <= x < now.len() && 0 <= y < now.len() && x != y implies !(
                #[trigger] now[x]).is_prefix_of(#[trigger] now[y]) by {
                if x < moved.len() && y < moved.len() {
                    assert(now[x] == moved[x] && now[y] == moved[y]);
                } else if x < moved.len() {
                    assert(now[x] == moved[x]);
                } else {
                    assert(now[y] == moved[y]);
                }
            }
        }
        assert forall|j: int| 0 <= j < i + 1 implies nothing_below(
            b.world.target,
            #[trigger] v.backup[j],
        ) by {
            if j < i {
                assert(nothing_below(a.world.target, v.backup[j]));
                assert forall|q: Seq<Seq<char>>| v.backup[j].is_prefix_of(q) implies #[trigger] read(
                    b.world.target,
                    q,
                ) is None by {
                    assert(read(a.world.target, q) is None);
                }
            }
        }
        lemma_backup_goes_on(b, start, i + 1);
    }
}

/// Of two paths above a third, one is above the other.
proof fn lemma_prefixes_of_one(a: Seq<Seq<char>>, b: Seq<Seq<char>>, c: Seq<Seq<char>>)
    requires
        a.is_prefix_of(c),
        b.is_prefix_of(c),
    ensures
        a.is_prefix_of(b) || b.is_prefix_of(a),
{
    if a.len() <= b.len() {
        assert(a =~= b.subrange(0, a.len() as int));
    } else {
        assert(b =~= a.subrange(0, b.len() as int));
    }
}

proof fn lemma_copy_in(a: Moment, b: Moment, start: World, reply: ReplyView, i: usize)
    requires
        sound(a, start),
        a.installation.stage == Stage::CopyIn(i),
        a.installation.accepts(reply),
        b.installation == a.installation.next(reply),
        effect(a.installation.op()->Some_0, reply, a.world, b.world),
    ensures
        sound(b, start),
{
    let v = a.installation;
    let p = v.apply[i as int];
    let moved = v.backed_up;
    law_installation_stays_well_formed(v, reply);
    assert(p.is_prefix_of(p));
    if reply is Failed {
        assert forall|q: Seq<Seq<char>>| !covered(v.apply, q) implies #[trigger] read(
            b.world.target,
            q,
        ) == spared(start.target, moved, q) by {
            assert(!p.is_prefix_of(q));
            assert(read(a.world.target, q) == updated(start, moved, v.apply.take(i as int), q));
            if covered(v.apply.take(i as int), q) {
                lemma_covered_by_part(v.apply, i as int, q);
            }
        }
    } else {
        assert forall|q: Seq<Seq<char>>| #[trigger] read(b.world.target, q) == updated(
            start,
            moved,
            v.apply.take(i + 1),
            q,
        ) by {
            lemma_covered_take(v.apply, i as int, q);
            assert(read(a.world.target, q) == updated(start, moved, v.apply.take(i as int), q));
        }
        if i + 1 == v.apply.len() {
            assert(v.apply.take(i + 1) =~= v.apply);
        }
        assert(cleared(b, start));
        assert(aside_holds(b, start, moved));
    }
}

proof fn lemma_covered_by_part(list: Seq<Seq<Seq<char>>>, n: int, q: Seq<Seq<char>>)
    requires
        0 <= n <= list.len(),
        covered(list.take(n), q),
    ensures
        covered(list, q),
{
    let k = choose|k: int| 0 <= k < n && (#[trigger] list.take(n)[k]).is_prefix_of(q);
    assert(list[k].is_prefix_of(q));
}

proof fn lemma_discard(a: Moment, b: Moment, start: World, reply: ReplyView, n: usize)
    requires
        sound(a, start),
        a.installation.stage == Stage::Discard(n),
        a.installation.accepts(reply),
        b.installation == a.installation.next(reply),
        effect(a.installation.op()->Some_0, reply, a.world, b.world),
    ensures
        sound(b, start),
{
    let v = a.installation;
    let p = v.apply[n - 1];
    let moved = v.backed_up;
    law_installation_stays_well_formed(v, reply);
    if v.discard_errors.len() == 0 && v.restore_errors.len() == 0 && reply !is Failed {
        assert forall|q: Seq<Seq<char>>| !covered(v.apply, q) implies #[trigger] read(
            b.world.target,
            q,
        ) == spared(start.target, moved, q) by {
            assert(!p.is_prefix_of(q));
            assert(read(a.world.target, q) == spared(start.target, moved, q));
        }
        assert forall|j: int| n - 1 <= j < v.apply.len() implies nothing_below(
            b.world.target,
            #[trigger] v.apply[j],
        ) by {
            if j >= n {
                assert(nothing_below(a.world.target, v.apply[j]));
                assert forall|q: Seq<Seq<char>>| v.apply[j].is_prefix_of(q) implies #[trigger] read(
                    b.world.target,
                    q,
                ) is None by {
                    assert(read(a.world.target, q) is None);
                }
            }
        }
        assert(cleared(b, start));
        assert(aside_holds(b, start, moved));
        if n == 1 {
            assert forall|q: Seq<Seq<char>>| #[trigger] read(b.world.target, q) == spared(
                start.target,
                moved,
                q,
            ) by {
                if covered(v.apply, q) {
                    let j = choose|j: int| 0 <= j < v.apply.len() && (
                    #[trigger] v.apply[j]).is_prefix_of(q);
                    assert(nothing_below(b.world.target, v.apply[j]));
                    assert(spared(start.target, moved, q) is None);
                }
            }
            lemma_restore_goes_on(b, start);
        }
    } else if n == 1 {
        lemma_restore_goes_on(b, start);
    }
}

proof fn lemma_restore(a: Moment, b: Moment, start: World, reply: ReplyView, n: usize)
    requires
        sound(a, start),
        a.installation.stage == Stage::Restore(n),
        a.installation.accepts(reply),
        b.installation == a.installation.next(reply),
        effect(a.installation.op()->Some_0, reply, a.world, b.world),
    ensures
        sound(b, start),
{
    let v = a.installation;
    let moved = v.backed_up;
    let p = moved[n - 1];
    law_installation_stays_well_formed(v, reply);
    if v.discard_errors.len() == 0 && v.restore_errors.len() == 0 && reply !is Failed {
        let left = moved.take(n - 1);
        assert forall|q: Seq<Seq<char>>| #[trigger] read(b.world.target, q) == spared(
            start.target,
            left,
            q,
        ) by {
            lemma_covered_take(moved, n - 1, q);
            assert(read(a.world.target, q) == spared(start.target, moved.take(n as int), q));
            if p.is_prefix_of(q) {
                assert(read(b.world.target, q) == read(a.world.aside, q));
                lemma_not_covered_twice(moved, n - 1, q);
            }
        }
        assert forall|q: Seq<Seq<char>>| #[trigger] read(b.world.aside, q) == (if covered(left, q) {
            read(start.target, q)
        } else {
            None
        }) by {
            lemma_covered_take(moved, n - 1, q);
            if p.is_prefix_of(q) {
                lemma_not_covered_twice(moved, n - 1, q);
            } else {
                assert(read(b.world.aside, q) == read(a.world.aside, q));
            }
        }
        if n == 1 {
            assert forall|q: Seq<Seq<char>>| #[trigger] read(b.world.target, q) == read(
                start.target,
                q,
            ) by {
                assert(!covered(left, q));
                assert(read(b.world.target, q) == spared(start.target, left, q));
            }
        }
    }
}

proof fn lemma_not_covered_twice(list: Seq<Seq<Seq<char>>>, n: int, q: Seq<Seq<char>>)
    requires
        0 <= n < list.len(),
        apart(list),
        list[n].is_prefix_of(q),
    ensures
        !covered(list.take(n), q),
{
    if covered(list.take(n), q) {
        let k = choose|k: int| 0 <= k < n && (#[trigger] list.take(n)[k]).is_prefix_of(q);
        assert(list.take(n)[k] == list[k]);
        lemma_prefixes_of_one(list[k], list[n], q);
    }
}

proof fn lemma_probe(a: Moment, b: Moment, start: World, reply: ReplyView, i: usize)
    requires
        sound(a, start),
        a.installation.stage == Stage::Probe(i),
        a.installation.accepts(reply),
        b.installation == a.installation.next(reply),
        effect(a.installation.op()->Some_0, reply, a.world, b.world),
    ensures
        sound(b, start),
{
    let v = a.installation;
    law_installation_stays_well_formed(v, reply);
    if reply == ReplyView::Flag(true) {
        assert(moved_in_order(b, i as int));
        assert(first_gone(b, i as int));
    } else {
        assert(reply == ReplyView::Flag(false));
        assert(v.backup.take(i + 1) =~= v.backup.take(i as int).push(v.backup[i as int]));
        assert forall|k: int| 0 <= k < v.backed_up.len() implies v.backup.take(i + 1).contains(
            #[trigger] v.backed_up[k],
        ) by {
            assert(v.backup.take(i as int).contains(v.backed_up[k]));
            let j = choose|j: int| 0 <= j < i && v.backup.take(i as int)[j] == v.backed_up[k];
            assert(v.backup.take(i + 1)[j] == v.backed_up[k]);
        }
        assert forall|j: int| 0 <= j < i + 1 implies nothing_below(
            b.world.target,
            #[trigger] v.backup[j],
        ) by {
            if j < i {
                assert(nothing_below(a.world.target, v.backup[j]));
            }
        }
        lemma_backup_goes_on(b, start, i + 1);
    }
}

proof fn lemma_step(a: Moment, b: Moment, start: World)
    requires
        sound(a, start),
        follows(a, b),
    ensures
        sound(b, start),
{
    let v = a.installation;
    let reply = choose|reply: ReplyView|
        {
            &&& #[trigger] v.accepts(reply)
            &&& b.installation == v.next(reply)
            &&& effect(v.op()->Some_0, reply, a.world, b.world)
        };
    law_installation_stays_well_formed(v, reply);
    match v.stage {
        Stage::Sweep => {},
        Stage::CreateRoot => {
            if reply is Failed {
                lemma_restore_goes_on(b, start);
            }
        },
        Stage::CreateBackupRoot => {
            if reply is Failed {
                lemma_restore_goes_on(b, start);
            } else {
                lemma_backup_goes_on(b, start, 0);
            }
        },
        Stage::Probe(i) => lemma_probe(a, b, start, reply, i),
        Stage::MakeParent(i) => {
            if reply is Failed {
                lemma_restore_goes_on(b, start);
            } else {
                assert(moved_in_order(b, i as int));
                assert(first_gone(b, i as int));
            }
        },
        Stage::MoveAside(i) => lemma_move_aside(a, b, start, reply, i),
        Stage::CopyIn(i) => lemma_copy_in(a, b, start, reply, i),
        Stage::Commit => {
            assert forall|q: Seq<Seq<char>>| #[trigger] read(b.world.target, q) == updated(
                start,
                v.backup,
                v.apply,
                q,
            ) by {
                assert(read(a.world.target, q) == updated(start, v.backed_up, v.apply, q));
                let _ = spared(start.target, v.backed_up, q);
            }
            assert forall|q: Seq<Seq<char>>| #[trigger] read(b.world.aside, q) == (if covered(
                v.backup,
                q,
            ) {
                read(start.target, q)
            } else {
                None
            }) by {
                assert(read(a.world.aside, q) == (if covered(v.backed_up, q) {
                    read(start.target, q)
                } else {
                    None
                }));
                if covered(v.backed_up, q) {
                    let k = choose|k: int|
                        0 <= k < v.backed_up.len() && (#[trigger] v.backed_up[k]).is_prefix_of(q);
                    assert(v.backup.take(v.backup.len() as int) =~= v.backup);
                    assert(v.backup.contains(v.backed_up[k]));
                    let j = choose|j: int| 0 <= j < v.backup.len() && v.backup[j] == v.backed_up[k];
                    assert(v.backup[j].is_prefix_of(q));
                } else if covered(v.backup, q) {
                    assert(spared(start.target, v.backed_up, q) is None);
                }
            }
        },
        Stage::Discard(n) => lemma_discard(a, b, start, reply, n),
        Stage::Restore(n) => lemma_restore(a, b, start, reply, n),
        Stage::Finished => {},
    }
}

proof fn lemma_run(run: Seq<Moment>, n: int)
    requires
        is_run(run),
        0 <= n < run.len(),
        plan_fits(
            run[0].installation.backup,
            run[0].installation.apply,
            run[0].world.target,
        ),
    ensures
        sound(run[n], run[0].world),
        run[n].installation.backup == run[0].installation.backup,
        run[n].installation.apply == run[0].installation.apply,
    decreases n,
{
    if n == 0 {
        assert forall|q: Seq<Seq<char>>| !covered(run[0].installation.backed_up, q) by {
        }
    } else {
        lemma_run(run, n - 1);
        assert(follows_at(run, n - 1));
        lemma_step(run[n - 1], run[n], run[0].world);
    }
}

/// Law: an installation that succeeds leaves in the target what was staged at every path that the
/// plan copies in, and nothing else there; nothing at the other paths that the plan moves aside; and
/// every other file as it was.
pub proof fn law_success_installs_the_plan(run: Seq<Moment>)
    requires
        is_run(run),
        plan_fits(
            run[0].installation.backup,
            run[0].installation.apply,
            run[0].world.target,
        ),
        run.last().installation.outcome == Some(Ok::<(), Seq<char>>(())),
    ensures
        forall|q: Seq<Seq<char>>|
            covered(run[0].installation.apply, q) ==> #[trigger] read(run.last().world.target, q)
                == read(run[0].world.staging, q),
        forall|q: Seq<Seq<char>>|
            covered(run[0].installation.backup, q) && !covered(run[0].installation.apply, q)
                ==> #[trigger] read(run.last().world.target, q) is None,
        forall|q: Seq<Seq<char>>|
            !covered(run[0].installation.backup, q) && !covered(run[0].installation.apply, q)
                ==> #[trigger] read(run.last().world.target, q) == read(run[0].world.target, q),
{
    lemma_run(run, run.len() - 1);
    let v = run[0].installation;
    let start = run[0].world;
    let end = run.last();
    assert forall|q: Seq<Seq<char>>| covered(v.apply, q) implies #[trigger] read(
        end.world.target,
        q,
    ) == read(start.staging, q) by {
        assert(read(end.world.target, q) == updated(start, v.backup, v.apply, q));
        let j = choose|j: int| 0 <= j < v.apply.len() && (#[trigger] v.apply[j]).is_prefix_of(q);
        if v.backup.contains(v.apply[j]) {
            let k = choose|k: int| 0 <= k < v.backup.len() && v.backup[k] == v.apply[j];
            assert(v.backup[k].is_prefix_of(q));
        } else {
            assert(nothing_below(start.target, v.apply[j]));
            assert(read(start.target, q) is None);
        }
    }
}

/// Law: an installation that succeeds keeps among what it moved aside, at the same paths, every file that
/// it took away or replaced, and nothing else.
pub proof fn law_success_keeps_what_was_replaced(run: Seq<Moment>)
    requires
        is_run(run),
        plan_fits(
            run[0].installation.backup,
            run[0].installation.apply,
            run[0].world.target,
        ),
        run.last().installation.outcome == Some(Ok::<(), Seq<char>>(())),
    ensures
        forall|q: Seq<Seq<char>>|
            covered(run[0].installation.backup, q) ==> #[trigger] read(run.last().world.aside, q)
                == read(run[0].world.target, q),
        forall|q: Seq<Seq<char>>|
            !covered(run[0].installation.backup, q) ==> #[trigger] read(run.last().world.aside, q) is None,
{
    lemma_run(run, run.len() - 1);
}

/// Law: an installation that fails, and goes back without a further error, leaves every file of the
/// target as it was, and nothing moved aside.
pub proof fn law_failure_restores_the_target(run: Seq<Moment>)
    requires
        is_run(run),
        plan_fits(
            run[0].installation.backup,
            run[0].installation.apply,
            run[0].world.target,
        ),
        run.last().installation.outcome matches Some(Err(_)),
        run.last().installation.discard_errors.len() == 0,
        run.last().installation.restore_errors.len() == 0,
    ensures
        same_files(run.last().world.target, run[0].world.target),
        forall|q: Seq<Seq<char>>| #[trigger] read(run.last().world.aside, q) is None,
{
    lemma_run(run, run.len() - 1);
}

/// Whether an installation works on nothing but what its plan covers.
spec fn keeps_to_plan(m: Moment, start: World) -> bool {
    &&& m.installation.well_formed()
    &&& forall|k: int|
        0 <= k < m.installation.backed_up.len() ==> m.installation.backup.contains(
            #[trigger] m.installation.backed_up[k],
        )
    &&& forall|q: Seq<Seq<char>>|
        !covered(m.installation.backup, q) && !covered(m.installation.apply, q)
            ==> #[trigger] read(m.world.target, q) == read(start.target, q)
}

proof fn lemma_step_keeps_to_plan(a: Moment, b: Moment, start: World)
    requires
        keeps_to_plan(a, start),
        follows(a, b),
    ensures
        keeps_to_plan(b, start),
        b.installation.backup == a.installation.backup,
        b.installation.apply == a.installation.apply,
{
    let v = a.installation;
    let reply = choose|reply: ReplyView|
        {
            &&& #[trigger] v.accepts(reply)
            &&& b.installation == v.next(reply)
            &&& effect(v.op()->Some_0, reply, a.world, b.world)
        };
    law_installation_stays_well_formed(v, reply);
    assert forall|k: int| 0 <= k < b.installation.backed_up.len() implies v.backup.contains(
        #[trigger] b.installation.backed_up[k],
    ) by {
        if k < v.backed_up.len() {
            assert(b.installation.backed_up[k] == v.backed_up[k]);
        }
    }
    assert forall|q: Seq<Seq<char>>| !covered(v.backup, q) && !covered(v.apply, q) implies
        #[trigger] read(b.world.target, q) == read(start.target, q) by {
        assert(read(a.world.target, q) == read(start.target, q));
        match v.stage {
            Stage::MoveAside(i) => {
                assert(!v.backup[i as int].is_prefix_of(q));
            },
            Stage::CopyIn(i) => {
                assert(!v.apply[i as int].is_prefix_of(q));
            },
            Stage::Discard(n) => {
                assert(!v.apply[n - 1].is_prefix_of(q));
            },
            Stage::Restore(n) => {
                assert(v.backup.contains(v.backed_up[n - 1]));
                let j = choose|j: int| 0 <= j < v.backup.len() && v.backup[j] == v.backed_up[n - 1];
                assert(!v.backup[j].is_prefix_of(q));
            },
            _ => {},
        }
    }
}

/// Law: at every moment of an installation, even of one that fails to go back, the files that its
/// plan does not cover are as they were.
pub proof fn law_unplanned_files_are_never_touched(run: Seq<Moment>, n: int)
    requires
        is_run(run),
        0 <= n < run.len(),
    ensures
        forall|q: Seq<Seq<char>>|
            !covered(run[0].installation.backup, q) && !covered(run[0].installation.apply, q)
                ==> #[trigger] read(run[n].world.target, q) == read(run[0].world.target, q),
{
    lemma_run_keeps_to_plan(run, n);
}

proof fn lemma_run_keeps_to_plan(run: Seq<Moment>, n: int)
    requires
        is_run(run),
        0 <= n < run.len(),
    ensures
        keeps_to_plan(run[n], run[0].world),
        run[n].installation.backup == run[0].installation.backup,
        run[n].installation.apply == run[0].installation.apply,
    decreases n,
{
    if n > 0 {
        lemma_run_keeps_to_plan(run, n - 1);
        assert(follows_at(run, n - 1));
        lemma_step_keeps_to_plan(run[n - 1], run[n], run[0].world);
    }
}

/// How many steps an installation can still take.
pub open spec fn steps_left(v: InstallView) -> int {
    let a = v.apply.len() as int;
    let b = v.backup.len() as int;
    match v.stage {
        Stage::Sweep => 4 * b + 2 * a + 7,
        Stage::CreateRoot => 4 * b + 2 * a + 6,
        Stage::CreateBackupRoot => 4 * b + 2 * a + 5,
        Stage::Probe(i) => 3 * (b - i) + b + 2 * a + 4,
        Stage::MakeParent(i) => 3 * (b - i) + b + 2 * a + 3,
        Stage::MoveAside(i) => 3 * (b - i) + b + 2 * a + 2,
        Stage::CopyIn(i) => (a - i) + a + b + 2,
        Stage::Commit => 1,
        Stage::Discard(n) => n + b + 1,
        Stage::Restore(n) => n as int,
        Stage::Finished => 0,
    }
}

/// Law: an installation comes to an end: each step leaves fewer steps to take, and none is left just
/// where it is over.
pub proof fn law_installation_ends(v: InstallView, reply: ReplyView)
    requires
        v.well_formed(),
        v.accepts(reply),
    ensures
        0 <= steps_left(v.next(reply)) < steps_left(v),
        steps_left(v.next(reply)) == 0 <==> v.next(reply).outcome is Some,
{
    law_installation_stays_well_formed(v, reply);
}

} // verus!
