//! What a move to the old files asks for, from its first step to its last.

use vstd::prelude::*;
use crate::disk::{IoFailureView, ReplyView, RequestView};
use crate::old_files::{MoveStage, MoveView};
use crate::path::{last_name, under, Platform};
use crate::run::{after, Procedure};
use crate::text::three_digits;

verus! {

impl Procedure<RequestView, ReplyView> for MoveView {
    open spec fn asks(self) -> Option<RequestView> {
        self.request()
    }

    open spec fn takes(self, reply: ReplyView) -> bool {
        self.accepts(reply)
    }

    open spec fn told(self, reply: ReplyView) -> MoveView {
        self.next(reply)
    }
}

/// The replies to a move that finds so many names taken.
pub open spec fn all_taken(taken: nat) -> Seq<ReplyView> {
    Seq::new(taken, |i: int| ReplyView::Flag(true))
}

proof fn lemma_all_taken(moving: MoveView, taken: nat)
    requires
        moving.stage == MoveStage::ProbeName(0),
        taken <= 999,
    ensures
        after(moving, all_taken(taken)) == moving.at(MoveStage::ProbeName(taken as u32)),
    decreases taken,
{
    if taken > 0 {
        lemma_all_taken(moving, (taken - 1) as nat);
        assert(all_taken(taken).drop_last() =~= all_taken((taken - 1) as nat));
    }
}

/// Law: what is to be moved is looked for first, and where it is not there nothing more is asked. Where the
/// directory of the program is not known, that is reported. Otherwise `cache/old` in that directory is
/// removed where it is there, piece by piece where it cannot be removed as a whole, and created anew;
/// what cannot be created is reported.
pub proof fn law_old_files_are_cleared_first(
    platform: Platform,
    source: Seq<char>,
    exe_dir: Seq<char>,
    error: Seq<char>,
    removed: ReplyView,
    cleaned: ReplyView,
    failure: IoFailureView,
)
    requires
        removed is Failed || removed is Done,
    ensures
        ({
            let lost = MoveView::start(platform, source, Err(error));
            let start = MoveView::start(platform, source, Ok(exe_dir));
            let old = under(platform, under(platform, exe_dir, "cache"@), "old"@);
            let absent = start.next(ReplyView::Flag(false));
            let found = start.next(ReplyView::Flag(true));
            let fresh = found.next(ReplyView::Flag(false));
            let stale = found.next(ReplyView::Flag(true));
            let failed = fresh.next(ReplyView::Failed(failure));
            let nameless = fresh.next(ReplyView::Done);
            &&& lost.request() == Some(RequestView::Exists(source)) && lost.outcome is None
            &&& lost.next(ReplyView::Flag(false)).outcome == Some(Ok::<(), Seq<char>>(()))
            &&& lost.next(ReplyView::Flag(true)).outcome == Some(Err::<(), Seq<char>>(error))
            &&& start.request() == Some(RequestView::Exists(source)) && start.outcome is None
            &&& absent.request() is None && absent.outcome == Some(Ok::<(), Seq<char>>(()))
            &&& found.request() == Some(RequestView::Exists(old)) && found.outcome is None
            &&& stale.request() == Some(RequestView::RemoveDirAll(old)) && stale.outcome is None
            &&& removed is Failed ==> stale.next(removed).request() == Some(
                RequestView::CleanupDirContents(old),
            ) && stale.next(removed).next(cleaned) == fresh
            &&& removed is Done ==> stale.next(removed) == fresh
            &&& fresh.request() == Some(RequestView::CreateDirAll(old)) && fresh.outcome is None
            &&& failed.request() is None
            &&& failed.outcome == Some(
                Err::<(), Seq<char>>("无法创建 old 目录 ["@ + old + "]: "@ + failure.message),
            )
            &&& last_name(platform, source) is None ==> nameless.request() is None
                && nameless.outcome == Some(Err::<(), Seq<char>>("无法获取文件名: "@ + source))
        }),
{
}

/// Law: once `cache/old` is there, the name of the source is looked for in it, and then that name with
/// `.bak001` to `.bak999` behind it. The source is moved under the first of these that is free, or under the
/// last where none is; a move that fails is reported.
pub proof fn law_old_files_get_free_names(
    platform: Platform,
    source: Seq<char>,
    exe_dir: Seq<char>,
    name: Seq<char>,
    taken: nat,
    failure: IoFailureView,
)
    requires
        last_name(platform, source) == Some(name),
        taken <= 999,
    ensures
        ({
            let start = MoveView::start(platform, source, Ok(exe_dir));
            let old = under(platform, under(platform, exe_dir, "cache"@), "old"@);
            let ready = start.next(ReplyView::Flag(true)).next(ReplyView::Flag(false)).next(
                ReplyView::Done,
            );
            let now = after(ready, all_taken(taken));
            let to = under(
                platform,
                old,
                if taken == 0 {
                    name
                } else {
                    name + ".bak"@ + three_digits(taken)
                },
            );
            let free = now.next(ReplyView::Flag(false));
            let moved = free.next(ReplyView::Done);
            let failed = free.next(ReplyView::Failed(failure));
            &&& now.request() == Some(RequestView::Exists(to)) && now.outcome is None
            &&& free.request() == Some(RequestView::Rename { from: source, to })
            &&& free.outcome is None
            &&& taken == 999 ==> now.next(ReplyView::Flag(true)) == free
            &&& taken < 999 ==> now.next(ReplyView::Flag(true)).request() == Some(
                RequestView::Exists(
                    under(platform, old, name + ".bak"@ + three_digits((taken + 1) as nat)),
                ),
            )
            &&& moved.request() is None && moved.outcome == Some(Ok::<(), Seq<char>>(()))
            &&& failed.request() is None
            &&& failed.outcome == Some(
                Err::<(), Seq<char>>(
                    "无法移动 ["@ + source + "] -> ["@ + to + "]: "@ + failure.message,
                ),
            )
        }),
{
    let ready = MoveView::start(platform, source, Ok(exe_dir)).next(ReplyView::Flag(true)).next(
        ReplyView::Flag(false),
    ).next(ReplyView::Done);
    lemma_all_taken(ready, taken);
}

} // verus!
