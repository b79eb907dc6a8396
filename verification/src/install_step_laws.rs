//! What an installation asks for, step by step, and how it goes back.

use vstd::prelude::*;
use crate::disk::{IoFailureView, ReplyView, RequestView};
use crate::path::{parent_of, placed, under};
use crate::plan::PreparedUpdate;
use crate::run::{after, runs, Procedure};
use crate::transaction::{combined, joined_errors, transaction_error, InstallView, Stage};

verus! {

impl Procedure<RequestView, ReplyView> for InstallView {
    open spec fn asks(self) -> Option<RequestView> {
        self.request()
    }

    open spec fn takes(self, reply: ReplyView) -> bool {
        self.accepts(reply)
    }

    open spec fn told(self, reply: ReplyView) -> InstallView {
        self.next(reply)
    }
}

/// Whether an installation has failed with a report.
pub open spec fn gave_up(v: InstallView, report: Seq<char>) -> bool {
    v.request() is None && v.outcome == Some(Err::<(), Seq<char>>(report))
}

/// Whether an installation works on the same directories and the same plan as before.
pub open spec fn same_update(a: InstallView, b: InstallView) -> bool {
    &&& a.platform == b.platform
    &&& a.staging == b.staging
    &&& a.target == b.target
    &&& a.transaction_root == b.transaction_root
    &&& a.backup_root == b.backup_root
    &&& a.backup == b.backup
    &&& a.apply == b.apply
}

/// Whether an installation asks next for the path at `i` of those to be copied in, or for the marker of
/// success where there is none.
pub open spec fn copies(v: InstallView, i: int) -> bool {
    &&& v.outcome is None
    &&& v.request() == Some(
        if i < v.apply.len() {
            RequestView::CopyEntry {
                from: placed(v.platform, v.staging, v.apply[i]),
                to: placed(v.platform, v.target, v.apply[i]),
            }
        } else {
            RequestView::MarkCommitted {
                path: under(v.platform, v.transaction_root, "COMMITTED"@),
                content: "committed"@,
            }
        },
    )
}

/// Whether an installation looks next for the path at `i` of those to be moved aside, or begins to copy
/// where there is none.
pub open spec fn looks_for(v: InstallView, i: int) -> bool {
    if i < v.backup.len() {
        v.outcome is None && v.request() == Some(
            RequestView::Exists(placed(v.platform, v.target, v.backup[i])),
        )
    } else {
        copies(v, 0)
    }
}

/// Law: an installation first sweeps the directory `.update-tx` of the target. Whatever came of that, it
/// creates the directory of its transaction there, and `backup` in it; what cannot be created is reported.
/// Then it goes on with the first path of its plan.
pub proof fn law_installation_begins_with_its_directories(
    prepared: PreparedUpdate,
    id: Seq<char>,
    swept: ReplyView,
    failure: IoFailureView,
)
    ensures
        ({
            let start = InstallView::start(prepared, id);
            let base = under(prepared.platform, prepared.target@, ".update-tx"@);
            let root = under(prepared.platform, base, id);
            let backup = under(prepared.platform, root, "backup"@);
            let clean = start.next(swept);
            let rooted = clean.next(ReplyView::Done);
            let ready = rooted.next(ReplyView::Done);
            &&& start.request() == Some(RequestView::SweepCommitted(base))
            &&& start.outcome is None
            &&& start.platform == prepared.platform
            &&& start.staging == prepared.staging@
            &&& start.target == prepared.target@
            &&& start.transaction_root == root
            &&& start.backup_root == backup
            &&& start.backup == prepared.plan@.backup
            &&& start.apply == prepared.plan@.apply
            &&& start.backed_up.len() == 0
            &&& clean.request() == Some(RequestView::CreateDirAll(root)) && clean.outcome is None
            &&& gave_up(
                clean.next(ReplyView::Failed(failure)),
                "无法创建更新事务目录 ["@ + root + "]: "@ + failure.message,
            )
            &&& rooted.request() == Some(RequestView::CreateDirAll(backup))
            &&& rooted.outcome is None
            &&& gave_up(
                rooted.next(ReplyView::Failed(failure)),
                "无法创建更新备份目录 ["@ + backup + "]: "@ + failure.message,
            )
            &&& same_update(ready, start)
            &&& ready.backed_up.len() == 0
            &&& ready.discard_errors.len() == 0 && ready.restore_errors.len() == 0
            &&& looks_for(ready, 0)
        }),
{
    reveal_strlit("committed");
}

/// Whether an installation has begun to go back with a reason: by removing what it copied in.
pub open spec fn begins_to_discard(v: InstallView, reason: Seq<char>) -> bool {
    &&& v.outcome is None
    &&& v.failure == reason
    &&& v.stage == Stage::Discard(v.apply.len() as usize)
}

/// Whether an installation has begun to go back with a reason: by moving back what it moved aside, or, where
/// that is nothing, by its report.
pub open spec fn begins_to_restore(v: InstallView, reason: Seq<char>) -> bool {
    if v.backed_up.len() > 0 {
        &&& v.outcome is None
        &&& v.failure == reason
        &&& v.stage == Stage::Restore(v.backed_up.len() as usize)
    } else {
        gave_up(v, reason)
    }
}

/// Law: a path to be moved aside is looked for in the target, and is passed over where it is not there.
/// Otherwise the directory that it goes to is created, and it is renamed to the same place below `backup`;
/// then the next path is looked for.
#[verifier::rlimit(40)]
pub proof fn law_paths_are_moved_aside_in_turn(v: InstallView, i: usize)
    requires
        v.well_formed(),
        v.stage == Stage::Probe(i),
    ensures
        ({
            let path = v.backup[i as int];
            let from = placed(v.platform, v.target, path);
            let to = placed(v.platform, v.backup_root, path);
            let absent = v.next(ReplyView::Flag(false));
            let found = v.next(ReplyView::Flag(true));
            let ready = match parent_of(v.platform, to) {
                Some(_) => found.next(ReplyView::Done),
                None => found,
            };
            let moved = ready.next(ReplyView::Done);
            &&& v.request() == Some(RequestView::Exists(from))
            &&& looks_for(absent, i + 1)
            &&& absent.backed_up == v.backed_up
            &&& parent_of(v.platform, to) matches Some(parent) ==> found.request() == Some(
                RequestView::CreateDirAll(parent),
            ) && found.outcome is None
            &&& ready.request() == Some(RequestView::RenameWithRetry { from, to })
            &&& ready.outcome is None
            &&& looks_for(moved, i + 1)
            &&& moved.backed_up == v.backed_up.push(path)
            &&& same_update(absent, v) && same_update(moved, v)
        }),
{
    reveal_strlit("committed");
}

/// Law: where the directory that a path goes to cannot be created, or the path cannot be moved aside, the
/// installation goes back, with a report.
#[verifier::rlimit(40)]
pub proof fn law_paths_that_are_stuck_make_it_go_back(
    v: InstallView,
    i: usize,
    failure: IoFailureView,
)
    requires
        v.well_formed(),
        v.stage == Stage::MakeParent(i) || v.stage == Stage::MoveAside(i),
        v.discard_errors.len() == 0,
        v.restore_errors.len() == 0,
    ensures
        ({
            let path = v.backup[i as int];
            let from = placed(v.platform, v.target, path);
            let to = placed(v.platform, v.backup_root, path);
            let stuck = v.next(ReplyView::Failed(failure));
            &&& v.request() matches Some(RequestView::CreateDirAll(parent)) ==> parent_of(
                v.platform,
                to,
            ) == Some(parent) && begins_to_restore(
                stuck,
                "无法创建备份父目录 ["@ + parent + "]: "@ + failure.message,
            )
            &&& !(v.request()->Some_0 is CreateDirAll) ==> v.request() == Some(
                RequestView::RenameWithRetry { from, to },
            ) && begins_to_restore(
                stuck,
                "更新备份失败: ["@ + from + "] -> ["@ + to + "], error="@ + failure.detailed(),
            )
            &&& stuck.backed_up == v.backed_up
            &&& same_update(stuck, v)
        }),
{
    assert(joined_errors(v.discard_errors) is None);
    assert(joined_errors(v.restore_errors) is None);
}

/// Law: the paths to be copied in are copied from the staging directory to the same place in the target,
/// one after the other; then the success is marked, and the installation has succeeded, whether the marker
/// could be written or not. A copy that fails makes the installation go back, with a report.
pub proof fn law_paths_are_copied_in_turn(
    v: InstallView,
    i: usize,
    failure: IoFailureView,
    marked: ReplyView,
)
    requires
        v.well_formed(),
        v.stage == Stage::CopyIn(i),
    ensures
        ({
            let copied = v.next(ReplyView::Done);
            let stuck = v.next(ReplyView::Failed(failure));
            &&& copies(v, i as int)
            &&& copies(copied, i + 1)
            &&& same_update(copied, v) && same_update(stuck, v)
            &&& copied.backed_up == v.backed_up && stuck.backed_up == v.backed_up
            &&& i + 1 == v.apply.len() ==> copied.next(marked).outcome == Some(
                Ok::<(), Seq<char>>(()),
            )
            &&& begins_to_discard(stuck, "应用更新失败: "@ + failure.message)
        }),
{
    reveal_strlit("committed");
}

/// The complaints about what could not be undone: for each reply that is a failure, what is said of it.
pub open spec fn complaints(
    of: spec_fn(int, IoFailureView) -> Seq<char>,
    replies: Seq<ReplyView>,
) -> Seq<Seq<char>>
    decreases replies.len(),
{
    if replies.len() == 0 {
        Seq::empty()
    } else {
        let before = complaints(of, replies.drop_last());
        match replies.last() {
            ReplyView::Failed(f) => before.push(of(replies.len() - 1, f)),
            _ => before,
        }
    }
}

/// Some texts with `; ` between them.
pub open spec fn listed(texts: Seq<Seq<char>>) -> Seq<char>
    decreases texts.len(),
{
    if texts.len() == 0 {
        Seq::empty()
    } else if texts.len() == 1 {
        texts[0]
    } else {
        listed(texts.drop_last()) + "; "@ + texts.last()
    }
}

proof fn lemma_listed(texts: Seq<Seq<char>>)
    ensures
        joined_errors(texts) == (if texts.len() == 0 {
            None
        } else {
            Some(listed(texts))
        }),
    decreases texts.len(),
{
    if texts.len() > 0 {
        lemma_listed(texts.drop_last());
    }
}

proof fn lemma_listed_concat(first: Seq<Seq<char>>, second: Seq<Seq<char>>)
    requires
        first.len() > 0,
        second.len() > 0,
    ensures
        listed(first + second) == listed(first) + "; "@ + listed(second),
    decreases second.len(),
{
    let all = first + second;
    assert(all.drop_last() =~= first + second.drop_last());
    if second.len() == 1 {
        assert(first + second.drop_last() =~= first);
    } else {
        lemma_listed_concat(first, second.drop_last());
        assert(listed(first) + "; "@ + listed(second.drop_last()) + "; "@ + second.last()
            =~= listed(first) + "; "@ + (listed(second.drop_last()) + "; "@ + second.last()));
    }
}

/// Law: a failed installation is reported by its reason, and by the complaints about what could not be
/// undone behind it, all with `; ` between them, those about removals first.
pub proof fn law_reports_list_all_complaints(
    reason: Seq<char>,
    removals: Seq<Seq<char>>,
    renames: Seq<Seq<char>>,
)
    ensures
        transaction_error(reason, combined(joined_errors(removals), joined_errors(renames)))
            == (if removals.len() + renames.len() == 0 {
            reason
        } else {
            reason + "; 回滚也失败: "@ + listed(removals + renames)
        }),
{
    lemma_listed(removals);
    lemma_listed(renames);
    if removals.len() == 0 {
        assert(removals + renames =~= renames);
    } else if renames.len() == 0 {
        assert(removals + renames =~= removals);
    } else {
        lemma_listed_concat(removals, renames);
    }
}

/// What is said of a path that was copied in and could not be removed, counted from the last.
pub open spec fn not_removed(v: InstallView) -> spec_fn(int, IoFailureView) -> Seq<char> {
    |k: int, f: IoFailureView|
        "["@ + placed(v.platform, v.target, v.apply[v.apply.len() - 1 - k]) + "]: "@ + f.message
}

/// What is said of a path that was moved aside and could not be moved back, counted from the last.
pub open spec fn not_moved_back(v: InstallView) -> spec_fn(int, IoFailureView) -> Seq<char> {
    |k: int, f: IoFailureView|
        "["@ + placed(v.platform, v.backup_root, v.backed_up[v.backed_up.len() - 1 - k])
            + "] -> ["@ + placed(v.platform, v.target, v.backed_up[v.backed_up.len() - 1 - k])
            + "]: "@ + f.detailed()
}

proof fn lemma_discards(v: InstallView, replies: Seq<ReplyView>)
    requires
        v.well_formed(),
        v.stage == Stage::Discard(v.apply.len() as usize),
        v.discard_errors.len() == 0,
        replies.len() < v.apply.len(),
    ensures
        after(v, replies) == (InstallView {
            stage: Stage::Discard((v.apply.len() - replies.len()) as usize),
            discard_errors: complaints(not_removed(v), replies),
            ..v
        }),
    decreases replies.len(),
{
    if replies.len() > 0 {
        lemma_discards(v, replies.drop_last());
    } else {
        assert(complaints(not_removed(v), replies) =~= v.discard_errors);
    }
}

proof fn lemma_restores(v: InstallView, replies: Seq<ReplyView>)
    requires
        v.well_formed(),
        v.stage == Stage::Restore(v.backed_up.len() as usize),
        v.backed_up.len() <= usize::MAX,
        v.restore_errors.len() == 0,
        replies.len() < v.backed_up.len(),
    ensures
        after(v, replies) == (InstallView {
            stage: Stage::Restore((v.backed_up.len() - replies.len()) as usize),
            restore_errors: complaints(not_moved_back(v), replies),
            ..v
        }),
    decreases replies.len(),
{
    if replies.len() > 0 {
        lemma_restores(v, replies.drop_last());
    } else {
        assert(complaints(not_moved_back(v), replies) =~= v.restore_errors);
    }
}

proof fn lemma_last_discard(v: InstallView, replies: Seq<ReplyView>)
    requires
        v.well_formed(),
        v.apply.len() > 0,
        v.stage == Stage::Discard(v.apply.len() as usize),
        v.discard_errors.len() == 0,
        replies.len() == v.apply.len(),
    ensures
        after(v, replies) == (InstallView {
            discard_errors: complaints(not_removed(v), replies),
            ..v
        }).restoring(v.backed_up.len() as int),
{
    let front = replies.drop_last();
    lemma_discards(v, front);
    let a = after(v, front);
    let now = after(v, replies);
    assert(now == a.next(replies.last()));
    assert(a.stage == Stage::Discard(1));
    assert(a.discard_errors == complaints(not_removed(v), front));
    if let ReplyView::Failed(f) = replies.last() {
        assert(complaints(not_removed(v), replies) == a.discard_errors.push(
            not_removed(v)(replies.len() - 1, f),
        ));
    } else {
        assert(complaints(not_removed(v), replies) == a.discard_errors);
    }
}

proof fn lemma_last_restore(v: InstallView, replies: Seq<ReplyView>)
    requires
        v.well_formed(),
        v.stage == Stage::Restore(v.backed_up.len() as usize),
        v.restore_errors.len() == 0,
        v.backed_up.len() > 0,
        replies.len() == v.backed_up.len(),
    ensures
        ({
            let now = after(v, replies);
            &&& same_update(now, v)
            &&& gave_up(
                now,
                transaction_error(
                    v.failure,
                    combined(
                        joined_errors(v.discard_errors),
                        joined_errors(complaints(not_moved_back(v), replies)),
                    ),
                ),
            )
        }),
{
    let front = replies.drop_last();
    lemma_restores(v, front);
    let a = after(v, front);
    let now = after(v, replies);
    assert(now == a.next(replies.last()));
    assert(a.stage == Stage::Restore(1));
    assert(now.restore_errors == complaints(not_moved_back(v), replies));
}

/// Law: an installation that goes back after a copy has failed removes every path of those to be copied in,
/// from the last to the first, whatever comes of it; and then moves back what it moved aside, or reports
/// where that is nothing.
#[verifier::rlimit(40)]
pub proof fn law_going_back_removes_all_that_was_copied_in(
    v: InstallView,
    replies: Seq<ReplyView>,
)
    requires
        v.well_formed(),
        v.apply.len() > 0,
        v.stage == Stage::Discard(v.apply.len() as usize),
        v.discard_errors.len() == 0,
        v.restore_errors.len() == 0,
        replies.len() <= v.apply.len(),
    ensures
        ({
            let now = after(v, replies);
            let errors = complaints(not_removed(v), replies);
            &&& same_update(now, v)
            &&& now.backed_up == v.backed_up
            &&& replies.len() < v.apply.len() ==> now.outcome is None && now.request() == Some(
                RequestView::RemovePathIfExists(
                    placed(v.platform, v.target, v.apply[v.apply.len() - 1 - replies.len()]),
                ),
            )
            &&& replies.len() == v.apply.len() && v.backed_up.len() > 0 ==> now.outcome is None
                && now.stage == Stage::Restore(v.backed_up.len() as usize) && now.discard_errors
                == errors && now.restore_errors.len() == 0 && now.failure == v.failure
            &&& replies.len() == v.apply.len() && v.backed_up.len() == 0 ==> gave_up(
                now,
                if errors.len() == 0 {
                    v.failure
                } else {
                    v.failure + "; 回滚也失败: "@ + listed(errors)
                },
            )
        }),
{
    let errors = complaints(not_removed(v), replies);
    if replies.len() < v.apply.len() {
        lemma_discards(v, replies);
    } else {
        lemma_last_discard(v, replies);
        law_reports_list_all_complaints(v.failure, errors, v.restore_errors);
        assert(errors + v.restore_errors =~= errors);
    }
}

/// Law: an installation that goes back moves every path that it moved aside to its place again, from the last
/// to the first, whatever comes of it. Then it reports its reason, and everything that could not be undone.
#[verifier::rlimit(40)]
pub proof fn law_going_back_moves_all_back(v: InstallView, replies: Seq<ReplyView>)
    requires
        v.well_formed(),
        v.backed_up.len() > 0,
        v.stage == Stage::Restore(v.backed_up.len() as usize),
        v.restore_errors.len() == 0,
        replies.len() <= v.backed_up.len(),
    ensures
        ({
            let now = after(v, replies);
            let path = v.backed_up[v.backed_up.len() - 1 - replies.len()];
            let errors = v.discard_errors + complaints(not_moved_back(v), replies);
            &&& same_update(now, v)
            &&& replies.len() < v.backed_up.len() ==> now.outcome is None && now.request() == Some(
                RequestView::RenameWithRetry {
                    from: placed(v.platform, v.backup_root, path),
                    to: placed(v.platform, v.target, path),
                },
            )
            &&& replies.len() == v.backed_up.len() ==> gave_up(
                now,
                if errors.len() == 0 {
                    v.failure
                } else {
                    v.failure + "; 回滚也失败: "@ + listed(errors)
                },
            )
        }),
{
    if replies.len() < v.backed_up.len() {
        lemma_restores(v, replies);
    } else {
        lemma_last_restore(v, replies);
        law_reports_list_all_complaints(
            v.failure,
            v.discard_errors,
            complaints(not_moved_back(v), replies),
        );
    }
}

/// Law: an installation complains only of what it could not undo: a complaint comes from a removal or a
/// rename that fails while it goes back, and from nothing else.
pub proof fn law_complaints_come_from_going_back(v: InstallView, reply: ReplyView)
    requires
        v.well_formed(),
        v.accepts(reply),
    ensures
        v.next(reply).discard_errors != v.discard_errors ==> reply is Failed
            && v.request()->Some_0 is RemovePathIfExists,
        v.next(reply).restore_errors != v.restore_errors ==> reply is Failed
            && v.stage is Restore && v.request()->Some_0 is RenameWithRetry,
{
}

/// Law: an installation none of whose operations fails does not fail: it is over only once it has succeeded.
pub proof fn law_nothing_fails_by_itself(
    prepared: PreparedUpdate,
    id: Seq<char>,
    replies: Seq<ReplyView>,
)
    requires
        InstallView::start(prepared, id).well_formed(),
        runs(InstallView::start(prepared, id), replies),
        forall|k: int| 0 <= k < replies.len() ==> !(#[trigger] replies[k] is Failed),
    ensures
        ({
            let now = after(InstallView::start(prepared, id), replies);
            &&& now.request() is None ==> now.outcome == Some(Ok::<(), Seq<char>>(()))
            &&& now.request() is Some ==> now.outcome is None && {
                ||| now.request()->Some_0 is SweepCommitted
                ||| now.request()->Some_0 is CreateDirAll
                ||| now.request()->Some_0 is Exists
                ||| now.request()->Some_0 is RenameWithRetry
                ||| now.request()->Some_0 is CopyEntry
                ||| now.request()->Some_0 is MarkCommitted
            }
        }),
{
    lemma_nothing_fails(InstallView::start(prepared, id), replies);
}

proof fn lemma_nothing_fails(start: InstallView, replies: Seq<ReplyView>)
    requires
        start.well_formed(),
        start.stage == Stage::Sweep,
        runs(start, replies),
        forall|k: int| 0 <= k < replies.len() ==> !(#[trigger] replies[k] is Failed),
    ensures
        ({
            let now = after(start, replies);
            &&& now.well_formed()
            &&& !(now.stage is Discard) && !(now.stage is Restore)
            &&& now.stage == Stage::Finished ==> now.outcome == Some(Ok::<(), Seq<char>>(()))
        }),
    decreases replies.len(),
{
    if replies.len() > 0 {
        let front = replies.drop_last();
        assert forall|k: int| 0 <= k < front.len() implies !(#[trigger] front[k] is Failed) by {
            assert(!(replies[k] is Failed));
        }
        lemma_nothing_fails(start, front);
        assert(!(replies[replies.len() - 1] is Failed));
    }
}

} // verus!
