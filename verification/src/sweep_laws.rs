//! What a sweep asks for, from its first step to its last.

use vstd::prelude::*;
use crate::disk::{named, ListedView, ReplyView, RequestView};
use crate::disk_laws::law_listings_give_their_names;
use crate::path::{under, Platform};
use crate::run::{after, history, holdable, runs, Procedure};
use crate::sweep::{SweepStage, SweepView};

verus! {

impl Procedure<RequestView, ReplyView> for SweepView {
    open spec fn asks(self) -> Option<RequestView> {
        self.request()
    }

    open spec fn takes(self, reply: ReplyView) -> bool {
        self.accepts(reply) && holdable(reply)
    }

    open spec fn told(self, reply: ReplyView) -> SweepView {
        self.next(reply)
    }
}

/// Whether a transaction was looked at, and was removed where it was found to be committed.
pub open spec fn swept(asked: Seq<(RequestView, ReplyView)>, platform: Platform, dir: Seq<char>) -> bool {
    exists|k: int|
        {
            &&& 0 <= k < asked.len()
            &&& (#[trigger] asked[k]).0 == RequestView::IsFile(
                under(platform, dir, "COMMITTED"@),
            )
            &&& asked[k].1 == ReplyView::Flag(true) ==> k + 1 < asked.len() && asked[k + 1].0
                == RequestView::RemoveDirAll(dir)
        }
}

spec fn first_swept(sweep: SweepView, asked: Seq<(RequestView, ReplyView)>, n: int) -> bool {
    forall|j: int|
        0 <= j < n ==> swept(
            asked,
            sweep.platform,
            under(sweep.platform, sweep.base, #[trigger] sweep.names[j]),
        )
}

spec fn sweep_on_the_way(sweep: SweepView, asked: Seq<(RequestView, ReplyView)>) -> bool {
    &&& sweep.stage is List ==> asked.len() == 0
    &&& !(sweep.stage is List) ==> {
        &&& asked.len() > 0
        &&& asked[0].0 == RequestView::ReadDir(sweep.base)
        &&& asked[0].1 matches ReplyView::Listing(entries) ==> sweep.names == named(entries)
    }
    &&& match sweep.stage {
        SweepStage::Check(i) => first_swept(sweep, asked, i as int),
        SweepStage::Remove(i) => {
            &&& first_swept(sweep, asked, i as int)
            &&& asked.last().0 == RequestView::IsFile(
                under(
                    sweep.platform,
                    under(sweep.platform, sweep.base, sweep.names[i as int]),
                    "COMMITTED"@,
                ),
            )
        },
        SweepStage::Finished => asked[0].1 is Listing ==> first_swept(
            sweep,
            asked,
            sweep.names.len() as int,
        ),
        _ => true,
    }
}

proof fn lemma_swept_stays(
    asked: Seq<(RequestView, ReplyView)>,
    more: (RequestView, ReplyView),
    platform: Platform,
    dir: Seq<char>,
)
    requires
        swept(asked, platform, dir),
    ensures
        swept(asked.push(more), platform, dir),
{
    let k = choose|k: int|
        {
            &&& 0 <= k < asked.len()
            &&& (#[trigger] asked[k]).0 == RequestView::IsFile(
                under(platform, dir, "COMMITTED"@),
            )
            &&& asked[k].1 == ReplyView::Flag(true) ==> k + 1 < asked.len() && asked[k + 1].0
                == RequestView::RemoveDirAll(dir)
        };
    assert(asked.push(more)[k] == asked[k]);
    if k + 1 < asked.len() {
        assert(asked.push(more)[k + 1] == asked[k + 1]);
    }
}

proof fn lemma_sweep_run(start: SweepView, replies: Seq<ReplyView>)
    requires
        start == SweepView::start(start.platform, start.base),
        runs(start, replies),
    ensures
        ({
            let now = after(start, replies);
            &&& now.well_formed()
            &&& now.platform == start.platform
            &&& now.base == start.base
            &&& sweep_on_the_way(now, history(start, replies))
        }),
    decreases replies.len(),
{
    if replies.len() > 0 {
        let front = replies.drop_last();
        lemma_sweep_run(start, front);
        let a = after(start, front);
        let b = after(start, replies);
        let before = history(start, front);
        let asked = history(start, replies);
        let reply = replies.last();
        let more = (a.request()->Some_0, reply);
        assert(asked == before.push(more));
        assert(b == a.next(reply));
        assert forall|j: int|
            0 <= j < a.names.len() && swept(
                before,
                a.platform,
                under(a.platform, a.base, #[trigger] a.names[j]),
            ) implies swept(asked, a.platform, under(a.platform, a.base, a.names[j])) by {
            lemma_swept_stays(before, more, a.platform, under(a.platform, a.base, a.names[j]));
        }
        assert(asked[before.len() as int] == more);
        if before.len() > 0 {
            assert(asked[0] == before[0]);
        }
        match a.stage {
            SweepStage::List => {
                if let ReplyView::Listing(entries) = reply {
                    law_listings_give_their_names(entries);
                }
            },
            SweepStage::Check(i) => {
                if reply != ReplyView::Flag(true) {
                    assert(swept(asked, a.platform, under(a.platform, a.base, a.names[i as int])));
                    assert(first_swept(b, asked, i + 1));
                }
            },
            SweepStage::Remove(i) => {
                let k = before.len() - 1;
                assert(asked[k] == before[k]);
                assert(asked[k + 1] == more);
                assert(swept(asked, a.platform, under(a.platform, a.base, a.names[i as int])));
                assert(first_swept(b, asked, i + 1));
            },
            SweepStage::Finished => {},
        }
    }
}

/// Law: a sweep lists the transactions first. When it is over, and they could be listed, it has looked at
/// every one of them for the marker `COMMITTED`, and has asked for the removal of each that has it,
/// whatever came of the removals before.
pub proof fn law_every_committed_transaction_is_swept(
    platform: Platform,
    base: Seq<char>,
    replies: Seq<ReplyView>,
)
    requires
        runs(SweepView::start(platform, base), replies),
        after(SweepView::start(platform, base), replies).request() is None,
    ensures
        ({
            let asked = history(SweepView::start(platform, base), replies);
            &&& asked.len() > 0
            &&& asked[0].0 == RequestView::ReadDir(base)
            &&& asked[0].1 matches ReplyView::Listing(entries) ==> forall|name: Seq<char>|
                #![trigger entries.contains(ListedView::Name(name))]
                entries.contains(ListedView::Name(name)) ==> swept(
                    asked,
                    platform,
                    under(platform, base, name),
                )
            &&& asked[0].1 is Failed ==> asked.len() == 1
        }),
{
    let start = SweepView::start(platform, base);
    let asked = history(start, replies);
    let now = after(start, replies);
    lemma_sweep_run(start, replies);
    if let ReplyView::Listing(entries) = asked[0].1 {
        law_listings_give_their_names(entries);
        assert forall|name: Seq<char>|
            #![trigger entries.contains(ListedView::Name(name))]
            entries.contains(ListedView::Name(name)) implies swept(
            asked,
            platform,
            under(platform, base, name),
        ) by {
            assert(named(entries).contains(name));
            let j = choose|j: int| 0 <= j < named(entries).len() && named(entries)[j] == name;
            assert(now.names[j] == name);
        }
    } else if asked[0].1 is Failed {
        lemma_history_len(start, replies);
        lemma_failed_sweep_ends(start, replies);
    }
}

proof fn lemma_history_len(start: SweepView, replies: Seq<ReplyView>)
    ensures
        history(start, replies).len() == replies.len(),
        forall|k: int|
            0 <= k < replies.len() ==> (#[trigger] history(start, replies)[k]).1 == replies[k],
    decreases replies.len(),
{
    if replies.len() > 0 {
        lemma_history_len(start, replies.drop_last());
    }
}

proof fn lemma_failed_sweep_ends(start: SweepView, replies: Seq<ReplyView>)
    requires
        start == SweepView::start(start.platform, start.base),
        runs(start, replies),
        replies.len() > 0,
        replies[0] is Failed,
    ensures
        replies.len() == 1,
    decreases replies.len(),
{
    if replies.len() > 1 {
        let front = replies.drop_last();
        lemma_failed_sweep_ends(start, front);
        assert(front.drop_last() =~= Seq::empty());
        assert(after(start, front.drop_last()) == start);
        assert(after(start, front).request() is None);
    }
}

} // verus!
