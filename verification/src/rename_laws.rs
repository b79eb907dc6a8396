//! What renames and removals ask for, from the first step to the last.

use vstd::prelude::*;
use crate::disk::{IoFailureView, ReplyView, RequestView};
use crate::path::Platform;
use crate::remove::RemovalView;
use crate::rename::{RenameStage, RenameView};
use crate::run::{after, Procedure};

verus! {

impl Procedure<RequestView, ReplyView> for RenameView {
    open spec fn asks(self) -> Option<RequestView> {
        self.request()
    }

    open spec fn takes(self, reply: ReplyView) -> bool {
        self.accepts(reply)
    }

    open spec fn told(self, reply: ReplyView) -> RenameView {
        self.next(reply)
    }
}

/// Whether a failure says that the file is in use or that a part of it is locked.
pub open spec fn is_lock(failure: IoFailureView) -> bool {
    failure.raw_os_error == Some(32i32) || failure.raw_os_error == Some(33i32)
}

/// The replies to a rename that fails in turn and waits after each failure.
pub open spec fn waited_for(failures: Seq<IoFailureView>) -> Seq<ReplyView>
    decreases failures.len(),
{
    if failures.len() == 0 {
        Seq::empty()
    } else {
        waited_for(failures.drop_last()).push(ReplyView::Failed(failures.last())).push(
            ReplyView::Done,
        )
    }
}

proof fn lemma_waited_for(start: RenameView, failures: Seq<IoFailureView>)
    requires
        start == RenameView::start(Platform::Windows, start.from, start.to),
        failures.len() <= 4,
        forall|i: int| 0 <= i < failures.len() ==> is_lock(#[trigger] failures[i]),
    ensures
        after(start, waited_for(failures)) == (RenameView {
            stage: RenameStage::Attempt(failures.len() as u32),
            ..start
        }),
    decreases failures.len(),
{
    if failures.len() > 0 {
        let front = failures.drop_last();
        assert forall|i: int| 0 <= i < front.len() implies is_lock(#[trigger] front[i]) by {
            assert(is_lock(failures[i]));
        }
        lemma_waited_for(start, front);
        assert(is_lock(failures[failures.len() - 1]));
        let one = waited_for(front).push(ReplyView::Failed(failures.last()));
        let two = one.push(ReplyView::Done);
        assert(one.drop_last() =~= waited_for(front));
        assert(two.drop_last() =~= one);
        assert(after(start, one) == after(start, waited_for(front)).next(
            ReplyView::Failed(failures.last()),
        ));
        assert(after(start, two) == after(start, one).next(ReplyView::Done));
    }
}

/// Law: on Windows, a rename that fails by a lock is tried again after 50, 100, 200 and then 400
/// milliseconds; the fifth failure is reported. A failure of another kind is reported at once, and an
/// attempt that succeeds ends the rename.
pub proof fn law_locked_renames_are_tried_five_times(
    from: Seq<char>,
    to: Seq<char>,
    failures: Seq<IoFailureView>,
    failure: IoFailureView,
)
    requires
        failures.len() <= 4,
        forall|i: int| 0 <= i < failures.len() ==> is_lock(#[trigger] failures[i]),
    ensures
        ({
            let now = after(
                RenameView::start(Platform::Windows, from, to),
                waited_for(failures),
            );
            let then = now.next(ReplyView::Failed(failure));
            &&& now.request() == Some(RequestView::Rename { from, to }) && now.outcome is None
            &&& now.next(ReplyView::Done).request() is None
            &&& now.next(ReplyView::Done).outcome == Some(Ok::<(), IoFailureView>(()))
            &&& !is_lock(failure) || failures.len() == 4 ==> then.request() is None
                && then.outcome == Some(Err::<(), IoFailureView>(failure))
            &&& is_lock(failure) && failures.len() < 4 ==> then.request() == Some(
                RequestView::Sleep(
                    if failures.len() == 0 {
                        50
                    } else if failures.len() == 1 {
                        100
                    } else if failures.len() == 2 {
                        200
                    } else {
                        400
                    },
                ),
            ) && then.outcome is None
        }),
{
    lemma_waited_for(RenameView::start(Platform::Windows, from, to), failures);
}

/// Law: on other systems a rename is tried once.
pub proof fn law_renames_elsewhere_are_tried_once(
    from: Seq<char>,
    to: Seq<char>,
    failure: IoFailureView,
)
    ensures
        ({
            let start = RenameView::start(Platform::Unix, from, to);
            let failed = start.next(ReplyView::Failed(failure));
            let renamed = start.next(ReplyView::Done);
            &&& start.request() == Some(RequestView::Rename { from, to }) && start.outcome is None
            &&& failed.request() is None
            &&& failed.outcome == Some(Err::<(), IoFailureView>(failure))
            &&& renamed.request() is None
            &&& renamed.outcome == Some(Ok::<(), IoFailureView>(()))
        }),
{
}

/// Law: a path is removed, where it is there, as a directory with all that it holds or as a file; a failure is
/// reported with its code.
pub proof fn law_paths_are_removed_as_what_they_are(
    path: Seq<char>,
    directory: bool,
    failure: IoFailureView,
)
    ensures
        ({
            let start = RemovalView::start(path);
            let absent = start.next(ReplyView::Flag(false));
            let found = start.next(ReplyView::Flag(true));
            let known = found.next(ReplyView::Flag(directory));
            let removed = known.next(ReplyView::Done);
            let failed = known.next(ReplyView::Failed(failure));
            &&& start.request() == Some(RequestView::Exists(path)) && start.outcome is None
            &&& absent.request() is None && absent.outcome == Some(Ok::<(), Seq<char>>(()))
            &&& found.request() == Some(RequestView::IsDir(path)) && found.outcome is None
            &&& known.request() == Some(
                if directory {
                    RequestView::RemoveDirAll(path)
                } else {
                    RequestView::RemoveFile(path)
                },
            ) && known.outcome is None
            &&& removed.request() is None && removed.outcome == Some(Ok::<(), Seq<char>>(()))
            &&& failed.request() is None
            &&& failed.outcome == Some(Err::<(), Seq<char>>(failure.detailed()))
        }),
{
}

} // verus!
