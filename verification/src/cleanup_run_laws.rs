//! What a cleanup asks for from its first step to its last, whatever fails on the way.

use vstd::prelude::*;
use crate::cleanup::{CleanupStage, CleanupView, FrameView};
use crate::cleanup_laws::nested;
use crate::disk::{named, ListedView, ReplyView, RequestView};
use crate::disk_laws::law_listings_give_their_names;
use crate::path::{under, Platform};
use crate::run::{after, history, runs, was_asked, Procedure};

verus! {

impl Procedure<RequestView, ReplyView> for CleanupView {
    open spec fn asks(self) -> Option<RequestView> {
        self.request()
    }

    open spec fn takes(self, reply: ReplyView) -> bool {
        self.accepts(reply)
    }

    open spec fn told(self, reply: ReplyView) -> CleanupView {
        self.next(reply)
    }
}

/// Whether an entry was looked at, and was then listed as a directory or removed as a file.
pub open spec fn tried(asked: Seq<(RequestView, ReplyView)>, path: Seq<char>) -> bool {
    exists|k: int|
        {
            &&& 0 <= k < asked.len() - 1
            &&& (#[trigger] asked[k]).0 == RequestView::IsDir(path)
            &&& asked[k].1 == ReplyView::Flag(true) ==> asked[k + 1].0 == RequestView::ReadDir(path)
            &&& asked[k].1 != ReplyView::Flag(true) ==> asked[k + 1].0 == RequestView::RemoveFile(
                path,
            )
        }
}

spec fn all_tried(
    asked: Seq<(RequestView, ReplyView)>,
    platform: Platform,
    dir: Seq<char>,
    names: Seq<Seq<char>>,
    n: int,
) -> bool {
    forall|j: int| 0 <= j < n ==> tried(asked, under(platform, dir, #[trigger] names[j]))
}

/// Whether a listing of a directory is behind: all its names were tried, and the directory was removed then.
spec fn closed_listing(
    asked: Seq<(RequestView, ReplyView)>,
    platform: Platform,
    k: int,
) -> bool {
    let dir = asked[k].0->ReadDir_0;
    &&& was_asked(asked, RequestView::RemoveDir(dir))
    &&& asked[k].1 matches ReplyView::Listing(entries) ==> all_tried(
        asked,
        platform,
        dir,
        named(entries),
        named(entries).len() as int,
    )
}

/// Whether a directory that is being cleaned is the one of a listing.
spec fn open_listing(
    asked: Seq<(RequestView, ReplyView)>,
    cleanup: CleanupView,
    k: int,
    m: int,
) -> bool {
    let frame = cleanup.frames[m];
    &&& 0 <= m < cleanup.frames.len()
    &&& m == cleanup.frames.len() - 1 ==> cleanup.stage != CleanupStage::List
    &&& frame.dir == asked[k].0->ReadDir_0
    &&& asked[k].1 matches ReplyView::Listing(entries) ==> frame.names == named(entries)
}

spec fn accounted(asked: Seq<(RequestView, ReplyView)>, cleanup: CleanupView, k: int) -> bool {
    closed_listing(asked, cleanup.platform, k) || exists|m: int| open_listing(asked, cleanup, k, m)
}

spec fn frame_tried(
    asked: Seq<(RequestView, ReplyView)>,
    cleanup: CleanupView,
    m: int,
) -> bool {
    let frame = cleanup.frames[m];
    &&& 0 <= frame.next <= frame.names.len()
    &&& all_tried(asked, cleanup.platform, frame.dir, frame.names, frame.next)
}

spec fn on_the_way(asked: Seq<(RequestView, ReplyView)>, cleanup: CleanupView) -> bool {
    let last = cleanup.frames.len() - 1;
    &&& cleanup.well_formed()
    &&& forall|k: int|
        0 <= k < asked.len() && (#[trigger] asked[k]).0 is ReadDir ==> accounted(asked, cleanup, k)
    &&& forall|m: int| 0 <= m <= last ==> #[trigger] frame_tried(asked, cleanup, m)
    &&& forall|m: int|
        0 <= m < last && (m < last - 1 || cleanup.stage != CleanupStage::List) ==> tried(
            asked,
            (#[trigger] cleanup.frames[m]).entry(cleanup.platform),
        )
    &&& match cleanup.stage {
        CleanupStage::List => {
            &&& cleanup.top().next == 0
            &&& cleanup.top().names.len() == 0
            &&& last > 0 ==> {
                &&& asked.len() > 0
                &&& asked.last() == (
                    RequestView::IsDir(cleanup.frames[last - 1].entry(cleanup.platform)),
                    ReplyView::Flag(true),
                )
                &&& cleanup.top().dir == cleanup.frames[last - 1].entry(cleanup.platform)
            }
        },
        CleanupStage::RemoveFile => {
            &&& asked.len() > 0
            &&& asked.last() == (
                RequestView::IsDir(cleanup.top().entry(cleanup.platform)),
                ReplyView::Flag(false),
            )
        },
        CleanupStage::RemoveSelf => !cleanup.top().has_entry(),
        CleanupStage::SelfLeft => {
            &&& !cleanup.top().has_entry()
            &&& was_asked(asked, RequestView::RemoveDir(cleanup.top().dir))
        },
        CleanupStage::RemoveChild | CleanupStage::ChildLeft => tried(
            asked,
            cleanup.top().entry(cleanup.platform),
        ),
        CleanupStage::Inspect => true,
        CleanupStage::Finished => cleanup.frames.len() == 0,
    }
}

proof fn lemma_tried_stays(
    asked: Seq<(RequestView, ReplyView)>,
    more: (RequestView, ReplyView),
)
    ensures
        forall|path: Seq<char>| #[trigger] tried(asked, path) ==> tried(asked.push(more), path),
        forall|question: RequestView| #[trigger]
            was_asked(asked, question) ==> was_asked(asked.push(more), question),
        was_asked(asked.push(more), more.0),
{
    let longer = asked.push(more);
    assert forall|path: Seq<char>| #[trigger] tried(asked, path) implies tried(longer, path) by {
        let k = choose|k: int|
            {
                &&& 0 <= k < asked.len() - 1
                &&& (#[trigger] asked[k]).0 == RequestView::IsDir(path)
                &&& asked[k].1 == ReplyView::Flag(true) ==> asked[k + 1].0 == RequestView::ReadDir(
                    path,
                )
                &&& asked[k].1 != ReplyView::Flag(true) ==> asked[k + 1].0
                    == RequestView::RemoveFile(path)
            };
        assert(longer[k] == asked[k]);
        assert(longer[k + 1] == asked[k + 1]);
    }
    assert forall|question: RequestView| #[trigger] was_asked(asked, question) implies was_asked(
        longer,
        question,
    ) by {
        let k = choose|k: int| 0 <= k < asked.len() && (#[trigger] asked[k]).0 == question;
        assert(longer[k].0 == question);
    }
    assert(longer[asked.len() as int].0 == more.0);
}

proof fn lemma_just_tried(
    asked: Seq<(RequestView, ReplyView)>,
    more: (RequestView, ReplyView),
    path: Seq<char>,
    flag: bool,
)
    requires
        asked.len() > 0,
        asked.last() == (RequestView::IsDir(path), ReplyView::Flag(flag)),
        more.0 == (if flag {
            RequestView::ReadDir(path)
        } else {
            RequestView::RemoveFile(path)
        }),
    ensures
        tried(asked.push(more), path),
{
    let k = asked.len() - 1;
    let longer = asked.push(more);
    assert(longer[k] == asked[k]);
    assert(longer[k + 1] == more);
}

/// What holds of the listings once a step is made that keeps the directories being cleaned, or takes the
/// innermost one away after it was removed.
proof fn lemma_listings_stay(
    asked: Seq<(RequestView, ReplyView)>,
    more: (RequestView, ReplyView),
    a: CleanupView,
    b: CleanupView,
)
    requires
        on_the_way(asked, a),
        a.frames.len() > 0,
        !(more.0 is ReadDir),
        a.stage != CleanupStage::List,
        b.platform == a.platform,
        forall|m: int|
            0 <= m < a.frames.len() - 1 ==> (#[trigger] b.frames[m]).dir == a.frames[m].dir
                && b.frames[m].names == a.frames[m].names,
        b.frames.len() == a.frames.len() + 1 && b.frames[a.frames.len() - 1] == a.top() || {
            &&& b.frames.len() == a.frames.len()
            &&& b.stage != CleanupStage::List
            &&& b.top().dir == a.top().dir
            &&& b.top().names == a.top().names
        } || {
            &&& b.frames.len() == a.frames.len() - 1
            &&& b.stage != CleanupStage::List
            &&& !a.top().has_entry()
            &&& was_asked(asked.push(more), RequestView::RemoveDir(a.top().dir))
        },
    ensures
        forall|k: int|
            0 <= k < asked.push(more).len() && (#[trigger] asked.push(more)[k]).0 is ReadDir
                ==> accounted(asked.push(more), b, k),
{
    let longer = asked.push(more);
    let last = a.frames.len() - 1;
    lemma_tried_stays(asked, more);
    assert forall|k: int| 0 <= k < longer.len() && (#[trigger] longer[k]).0 is ReadDir implies accounted(
        longer,
        b,
        k,
    ) by {
        assert(k < asked.len());
        assert(longer[k] == asked[k]);
        assert(accounted(asked, a, k));
        let dir = asked[k].0->ReadDir_0;
        if closed_listing(asked, a.platform, k) {
            assert(closed_listing(longer, b.platform, k));
        } else {
            let m = choose|m: int| open_listing(asked, a, k, m);
            if m < b.frames.len() {
                assert(open_listing(longer, b, k, m));
            } else {
                assert(m == last);
                assert(frame_tried(asked, a, m));
                assert(closed_listing(longer, b.platform, k));
            }
        }
    }
}

proof fn lemma_frames_stay(
    asked: Seq<(RequestView, ReplyView)>,
    more: (RequestView, ReplyView),
    a: CleanupView,
    b: CleanupView,
    n: int,
)
    requires
        on_the_way(asked, a),
        b.platform == a.platform,
        0 <= n <= a.frames.len(),
        n <= b.frames.len(),
        forall|m: int| 0 <= m < n ==> #[trigger] b.frames[m] == a.frames[m],
    ensures
        forall|m: int| 0 <= m < n ==> #[trigger] frame_tried(asked.push(more), b, m),
        forall|m: int|
            0 <= m < n && m < a.frames.len() - 1 && (m < a.frames.len() - 2 || a.stage
                != CleanupStage::List) ==> tried(
                asked.push(more),
                (#[trigger] b.frames[m]).entry(b.platform),
            ),
{
    lemma_tried_stays(asked, more);
    assert forall|m: int| 0 <= m < n implies #[trigger] frame_tried(asked.push(more), b, m) by {
        assert(frame_tried(asked, a, m));
        assert(b.frames[m] == a.frames[m]);
    }
    assert forall|m: int|
        0 <= m < n && m < a.frames.len() - 1 && (m < a.frames.len() - 2 || a.stage
            != CleanupStage::List) implies tried(
        asked.push(more),
        (#[trigger] b.frames[m]).entry(b.platform),
    ) by {
        assert(b.frames[m] == a.frames[m]);
        assert(tried(asked, a.frames[m].entry(a.platform)));
    }
}

/// Going on behind an entry that was tried.
proof fn lemma_passing(
    asked: Seq<(RequestView, ReplyView)>,
    more: (RequestView, ReplyView),
    a: CleanupView,
    b: CleanupView,
)
    requires
        on_the_way(asked, a),
        a.frames.len() > 0,
        a.top().has_entry(),
        a.stage != CleanupStage::List,
        !(more.0 is ReadDir),
        b.platform == a.platform,
        b.frames == a.frames.drop_last().push(a.top().passed()),
        b.stage == (if a.top().passed().has_entry() {
            CleanupStage::Inspect
        } else {
            CleanupStage::RemoveSelf
        }),
        tried(asked.push(more), a.top().entry(a.platform)),
    ensures
        on_the_way(asked.push(more), b),
{
    let longer = asked.push(more);
    let last = a.frames.len() - 1;
    assert forall|m: int| 0 <= m < last implies #[trigger] b.frames[m] == a.frames[m] by {
    }
    lemma_frames_stay(asked, more, a, b, last);
    lemma_listings_stay(asked, more, a, b);
    lemma_tried_stays(asked, more);
    assert(frame_tried(asked, a, last));
    assert(b.frames[last] == a.top().passed());
    assert(frame_tried(longer, b, last)) by {
        let frame = b.frames[last];
        assert forall|j: int| 0 <= j < frame.next implies tried(
            longer,
            under(b.platform, frame.dir, #[trigger] frame.names[j]),
        ) by {
            if j < a.top().next {
                assert(tried(asked, under(a.platform, a.top().dir, a.top().names[j])));
            }
        }
    }
    assert forall|m: int| 0 <= m < b.frames.len() - 1 implies (
    #[trigger] b.frames[m]).has_entry() by {
        assert(b.frames[m] == a.frames[m]);
    }
}

/// Going back to the directory around one that was removed, or that is left behind.
proof fn lemma_leaving(
    asked: Seq<(RequestView, ReplyView)>,
    more: (RequestView, ReplyView),
    a: CleanupView,
    b: CleanupView,
)
    requires
        on_the_way(asked, a),
        a.stage == CleanupStage::RemoveSelf || a.stage == CleanupStage::SelfLeft,
        !(more.0 is ReadDir),
        was_asked(asked.push(more), RequestView::RemoveDir(a.top().dir)),
        b.platform == a.platform,
        a.frames.len() > 0,
        a.frames.len() == 1 ==> b.frames.len() == 0 && b.stage == CleanupStage::Finished,
        a.frames.len() > 1 ==> b.frames == a.frames.drop_last() && b.stage
            == CleanupStage::RemoveChild,
    ensures
        on_the_way(asked.push(more), b),
{
    let longer = asked.push(more);
    let n = a.frames.len() - 1;
    assert forall|m: int| 0 <= m < n implies #[trigger] b.frames[m] == a.frames[m] by {
    }
    lemma_frames_stay(asked, more, a, b, n);
    lemma_listings_stay(asked, more, a, b);
    if n > 0 {
        assert(a.frames[n - 1].has_entry());
        assert(b.top() == a.frames[n - 1]);
        assert(tried(longer, b.frames[n - 1].entry(b.platform)));
    }
}

proof fn lemma_cleanup_step(
    asked: Seq<(RequestView, ReplyView)>,
    a: CleanupView,
    reply: ReplyView,
)
    requires
        on_the_way(asked, a),
        a.accepts(reply),
    ensures
        on_the_way(asked.push((a.request()->Some_0, reply)), a.next(reply)),
{
    let b = a.next(reply);
    let more = (a.request()->Some_0, reply);
    let longer = asked.push(more);
    let last = a.frames.len() - 1;
    lemma_tried_stays(asked, more);
    assert(longer[asked.len() as int] == more);
    match a.stage {
        CleanupStage::List => {
            assert forall|m: int| 0 <= m < last implies #[trigger] b.frames[m] == a.frames[m] by {
            }
            if let ReplyView::Listing(entries) = reply {
                assert(b.frames[last] == (FrameView { names: named(entries), next: 0, ..a.top() }));
            } else {
                assert(b.frames[last] == a.frames[last]);
            }
            lemma_frames_stay(asked, more, a, b, last);
            assert(frame_tried(asked, a, last));
            assert(frame_tried(longer, b, last));
            if last > 0 {
                lemma_just_tried(
                    asked,
                    more,
                    a.frames[last - 1].entry(a.platform),
                    true,
                );
                assert(b.frames[last - 1] == a.frames[last - 1]);
            }
            assert forall|k: int|
                0 <= k < longer.len() && (#[trigger] longer[k]).0 is ReadDir implies accounted(
                longer,
                b,
                k,
            ) by {
                if k < asked.len() {
                    assert(longer[k] == asked[k]);
                    assert(accounted(asked, a, k));
                    if closed_listing(asked, a.platform, k) {
                        assert(closed_listing(longer, b.platform, k));
                    } else {
                        let m = choose|m: int| open_listing(asked, a, k, m);
                        assert(m < last);
                        assert(b.frames[m] == a.frames[m]);
                        assert(open_listing(longer, b, k, m));
                    }
                } else {
                    assert(open_listing(longer, b, k, last));
                }
            }
            assert forall|m: int| 0 <= m < b.frames.len() - 1 implies (
            #[trigger] b.frames[m]).has_entry() by {
                assert(b.frames[m] == a.frames[m]);
            }
            assert forall|m: int| 0 <= m < last implies tried(
                longer,
                (#[trigger] b.frames[m]).entry(b.platform),
            ) by {
                assert(b.frames[m] == a.frames[m]);
            }
        },
        CleanupStage::Inspect => {
            if reply == ReplyView::Flag(true) {
                let inner = FrameView::of(a.top().entry(a.platform));
                assert(b.frames == a.frames.push(inner));
                assert forall|m: int| 0 <= m <= last implies #[trigger] b.frames[m]
                    == a.frames[m] by {
                }
                lemma_frames_stay(asked, more, a, b, last + 1);
                lemma_listings_stay(asked, more, a, b);
                assert(frame_tried(longer, b, last + 1));
                assert(b.frames[last] == a.top());
                assert forall|m: int| 0 <= m < b.frames.len() - 1 implies (
                #[trigger] b.frames[m]).has_entry() by {
                    if m < last {
                        assert(a.frames[m].has_entry());
                    }
                }
            } else {
                lemma_frames_stay(asked, more, a, b, last + 1);
                lemma_listings_stay(asked, more, a, b);
            }
        },
        CleanupStage::RemoveFile => {
            lemma_just_tried(asked, more, a.top().entry(a.platform), false);
            lemma_passing(asked, more, a, b);
        },
        CleanupStage::RemoveSelf => {
            if reply is Failed {
                lemma_frames_stay(asked, more, a, b, last + 1);
                lemma_listings_stay(asked, more, a, b);
            } else if last == 0 {
                lemma_leaving(asked, more, a, b);
            } else {
                lemma_leaving_and_passing(asked, more, a, b);
            }
        },
        CleanupStage::SelfLeft => {
            if last == 0 || reply == ReplyView::Flag(true) {
                lemma_leaving(asked, more, a, b);
            } else {
                lemma_leaving_and_passing(asked, more, a, b);
            }
        },
        CleanupStage::RemoveChild => {
            if reply is Failed {
                lemma_frames_stay(asked, more, a, b, last + 1);
                lemma_listings_stay(asked, more, a, b);
            } else {
                lemma_passing(asked, more, a, b);
            }
        },
        CleanupStage::ChildLeft => {
            lemma_passing(asked, more, a, b);
        },
        CleanupStage::Finished => {},
    }
}

proof fn lemma_leaving_and_passing(
    asked: Seq<(RequestView, ReplyView)>,
    more: (RequestView, ReplyView),
    a: CleanupView,
    b: CleanupView,
)
    requires
        on_the_way(asked, a),
        a.stage == CleanupStage::RemoveSelf || a.stage == CleanupStage::SelfLeft,
        !(more.0 is ReadDir),
        was_asked(asked.push(more), RequestView::RemoveDir(a.top().dir)),
        b.platform == a.platform,
        a.frames.len() > 1,
        ({
            let around = a.frames.drop_last();
            let top = around.last().passed();
            &&& b.frames == around.drop_last().push(top)
            &&& b.stage == (if top.has_entry() {
                CleanupStage::Inspect
            } else {
                CleanupStage::RemoveSelf
            })
        }),
    ensures
        on_the_way(asked.push(more), b),
{
    let longer = asked.push(more);
    let n = a.frames.len() - 1;
    let mid = CleanupView { frames: a.frames.drop_last(), stage: CleanupStage::RemoveChild, ..a };
    lemma_leaving(asked, more, a, mid);
    let last = n - 1;
    assert(a.frames[last].has_entry());
    assert(mid.top() == a.frames[last]);
    assert forall|m: int| 0 <= m < last implies #[trigger] b.frames[m] == mid.frames[m] by {
    }
    assert(b.frames[last] == mid.top().passed());
    assert forall|m: int| 0 <= m < b.frames.len() implies #[trigger] frame_tried(
        longer,
        b,
        m,
    ) by {
        assert(frame_tried(longer, mid, m));
        if m == last {
            let frame = b.frames[last];
            assert forall|j: int| 0 <= j < frame.next implies tried(
                longer,
                under(b.platform, frame.dir, #[trigger] frame.names[j]),
            ) by {
                if j < mid.top().next {
                    assert(tried(longer, under(mid.platform, mid.top().dir, mid.top().names[j])));
                }
            }
        } else {
            assert(b.frames[m] == mid.frames[m]);
        }
    }
    assert forall|m: int| 0 <= m < last implies tried(
        longer,
        (#[trigger] b.frames[m]).entry(b.platform),
    ) && b.frames[m].has_entry() by {
        assert(b.frames[m] == mid.frames[m]);
        assert(tried(longer, mid.frames[m].entry(mid.platform)));
    }
    assert forall|k: int| 0 <= k < longer.len() && (#[trigger] longer[k]).0 is ReadDir implies accounted(
        longer,
        b,
        k,
    ) by {
        assert(accounted(longer, mid, k));
        if !closed_listing(longer, mid.platform, k) {
            let m = choose|m: int| open_listing(longer, mid, k, m);
            if m < last {
                assert(b.frames[m] == mid.frames[m]);
            }
            assert(open_listing(longer, b, k, m));
        }
    }
}

proof fn lemma_cleanup_run(start: CleanupView, replies: Seq<ReplyView>)
    requires
        start == CleanupView::start(start.platform, start.frames[0].dir),
        runs(start, replies),
    ensures
        after(start, replies).platform == start.platform,
        on_the_way(history(start, replies), after(start, replies)),
    decreases replies.len(),
{
    if replies.len() > 0 {
        let front = replies.drop_last();
        lemma_cleanup_run(start, front);
        lemma_cleanup_step(history(start, front), after(start, front), replies.last());
    } else {
        assert(frame_tried(Seq::empty(), start, 0));
    }
}

/// Law: when a cleanup is over, whatever failed on the way, it has tried everything: it has listed its
/// directory first; it has looked at every name in every listing, has listed it in turn where it is a
/// directory, and has asked for its removal where it is not; and it has asked for the removal of every
/// directory that it has listed, its own among them.
pub proof fn law_cleanup_tries_everything(
    platform: Platform,
    dir: Seq<char>,
    replies: Seq<ReplyView>,
)
    requires
        runs(CleanupView::start(platform, dir), replies),
        after(CleanupView::start(platform, dir), replies).request() is None,
    ensures
        ({
            let asked = history(CleanupView::start(platform, dir), replies);
            &&& asked.len() > 0
            &&& asked[0].0 == RequestView::ReadDir(dir)
            &&& forall|k: int|
                0 <= k < asked.len() ==> ((#[trigger] asked[k]).0 matches RequestView::ReadDir(
                    listed,
                ) ==> was_asked(asked, RequestView::RemoveDir(listed)))
            &&& forall|k: int, name: Seq<char>|
                #![trigger asked[k], asked[k].1->Listing_0.contains(ListedView::Name(name))]
                0 <= k < asked.len() && asked[k].0 is ReadDir && asked[k].1 is Listing
                    && asked[k].1->Listing_0.contains(ListedView::Name(name)) ==> tried(
                    asked,
                    under(platform, asked[k].0->ReadDir_0, name),
                )
        }),
{
    let start = CleanupView::start(platform, dir);
    let asked = history(start, replies);
    let now = after(start, replies);
    lemma_cleanup_run(start, replies);
    lemma_first_asked(start, replies);
    assert forall|k: int| 0 <= k < asked.len() && (#[trigger] asked[k]).0 is ReadDir implies closed_listing(
        asked,
        platform,
        k,
    ) by {
        assert(accounted(asked, now, k));
        if !closed_listing(asked, platform, k) {
            let m = choose|m: int| open_listing(asked, now, k, m);
            assert(0 <= m < now.frames.len());
        }
    }
    assert forall|k: int, name: Seq<char>|
        #![trigger asked[k], asked[k].1->Listing_0.contains(ListedView::Name(name))]
        0 <= k < asked.len() && asked[k].0 is ReadDir && asked[k].1 is Listing
            && asked[k].1->Listing_0.contains(ListedView::Name(name)) implies tried(
        asked,
        under(platform, asked[k].0->ReadDir_0, name),
    ) by {
        let entries = asked[k].1->Listing_0;
        assert(closed_listing(asked, platform, k));
        law_listings_give_their_names(entries);
        assert(named(entries).contains(name));
        let j = choose|j: int| 0 <= j < named(entries).len() && named(entries)[j] == name;
        assert(tried(asked, under(platform, asked[k].0->ReadDir_0, named(entries)[j])));
    }
}

proof fn lemma_first_asked(start: CleanupView, replies: Seq<ReplyView>)
    requires
        replies.len() > 0 || start.request() is None,
    ensures
        replies.len() > 0 ==> history(start, replies).len() > 0 && history(start, replies)[0].0
            == start.request()->Some_0,
    decreases replies.len(),
{
    if replies.len() > 1 {
        lemma_first_asked(start, replies.drop_last());
    } else if replies.len() == 1 {
        assert(replies.drop_last() =~= Seq::empty());
        assert(after(start, replies.drop_last()) == start);
        assert(history(start, replies.drop_last()).len() == 0);
    }
}

/// How many entries of a listing could not be read.
pub open spec fn unreadable(entries: Seq<ListedView>) -> int
    decreases entries.len(),
{
    if entries.len() == 0 {
        0
    } else {
        unreadable(entries.drop_last()) + if entries.last() is Failed {
            1int
        } else {
            0
        }
    }
}

proof fn lemma_unreadable(entries: Seq<ListedView>)
    ensures
        entries.len() - named(entries).len() == unreadable(entries),
    decreases entries.len(),
{
    if entries.len() > 0 {
        lemma_unreadable(entries.drop_last());
    }
}

/// Law: what a cleanup counts. Each file that is removed counts as deleted, and each that is not as failed.
/// Below the outermost directory, a directory that is removed counts as deleted; one that cannot be removed
/// is tried once more where it is still there, and counts as failed where it then stays. The outermost
/// directory is tried once, does not count as deleted, and counts as failed where it stays. A directory that
/// cannot be listed counts as failed, and so does each entry that cannot be read.
pub proof fn law_cleanup_counts_what_comes_of_its_requests(
    cleanup: CleanupView,
    reply: ReplyView,
    root: Seq<char>,
)
    requires
        cleanup.well_formed(),
        nested(cleanup, root),
        cleanup.accepts(reply),
    ensures
        ({
            let then = cleanup.next(reply);
            let deleted = then.deleted - cleanup.deleted;
            let failed = then.failed - cleanup.failed;
            let inner = cleanup.frames.len() > 1;
            match (cleanup.request()->Some_0, reply) {
                (RequestView::RemoveFile(_), ReplyView::Done) => deleted == 1 && failed == 0,
                (RequestView::RemoveFile(_), _) => deleted == 0 && failed == 1,
                (RequestView::IsDir(_), _) => deleted == 0 && failed == 0,
                (RequestView::ReadDir(_), ReplyView::Listing(entries)) => deleted == 0 && failed
                    == unreadable(entries),
                (RequestView::ReadDir(dir), _) => {
                    &&& deleted == 0 && failed == 1
                    &&& then.request() == Some(RequestView::RemoveDir(dir))
                },
                (RequestView::RemoveDir(_), ReplyView::Done) => {
                    &&& failed == 0
                    &&& deleted == (if inner || cleanup.stage == CleanupStage::RemoveChild {
                        1int
                    } else {
                        0
                    })
                    &&& !inner && cleanup.stage == CleanupStage::RemoveSelf ==> then.request() is None
                },
                (RequestView::RemoveDir(dir), _) => {
                    &&& deleted == 0 && failed == 0
                    &&& then.request() == Some(RequestView::Exists(dir))
                },
                (RequestView::Exists(dir), ReplyView::Flag(true)) => {
                    &&& deleted == 0
                    &&& cleanup.stage == CleanupStage::ChildLeft ==> failed == 1
                    &&& cleanup.stage == CleanupStage::SelfLeft && !inner ==> failed == 1
                        && then.request() is None
                    &&& cleanup.stage == CleanupStage::SelfLeft && inner ==> failed == 0
                        && then.request() == Some(RequestView::RemoveDir(dir))
                },
                (RequestView::Exists(_), _) => deleted == 0 && failed == 0,
                _ => false,
            }
        }),
        CleanupView::start(cleanup.platform, Seq::empty()).deleted == 0,
        CleanupView::start(cleanup.platform, Seq::empty()).failed == 0,
{
    if let ReplyView::Listing(entries) = reply {
        lemma_unreadable(entries);
    }
    if cleanup.frames.len() > 1 {
        let last = cleanup.frames.len() - 1;
        assert(cleanup.frames[last].dir == cleanup.frames[last - 1].entry(cleanup.platform));
        assert(cleanup.frames.drop_last().last() == cleanup.frames[last - 1]);
    }
}

} // verus!
