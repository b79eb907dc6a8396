//! What a copy asks for, step by step, and what it reports.

use vstd::prelude::*;
use crate::copy::{queue, CopyStage, CopyStyle, CopyView, JobView};
use crate::disk::{IoFailureView, ListedView, ReplyView, RequestView};
use crate::path::{parent_of, under, Platform};
use crate::run::{after, history, runs, Procedure};

verus! {

impl Procedure<RequestView, ReplyView> for CopyView {
    open spec fn asks(self) -> Option<RequestView> {
        self.request()
    }

    open spec fn takes(self, reply: ReplyView) -> bool {
        self.accepts(reply)
    }

    open spec fn told(self, reply: ReplyView) -> CopyView {
        self.next(reply)
    }
}

/// Whether a copy has failed with a report.
pub open spec fn gave_up(copy: CopyView, report: Seq<char>) -> bool {
    copy.request() is None && copy.outcome == Some(Err::<(), Seq<char>>(report))
}

/// Whether a copy has come to a path: it asks whether that is a directory.
pub open spec fn turns_to(copy: CopyView, from: Seq<char>, to: Seq<char>) -> bool {
    &&& copy.outcome is None
    &&& copy.stage == CopyStage::Inspect
    &&& copy.request() == Some(RequestView::IsDir(from))
    &&& copy.from == from
    &&& copy.to == to
}

/// Law: the copy of an update entry begins with a look at what it copies, and the copy of what a directory
/// holds by creating the directory that it goes to.
pub proof fn law_copies_begin_at_their_paths(
    platform: Platform,
    from: Seq<char>,
    to: Seq<char>,
    skip: Seq<Seq<char>>,
    failure: IoFailureView,
)
    ensures
        ({
            let entry = CopyView::of_entry(platform, from, to);
            let contents = CopyView::of_contents(platform, from, to, skip);
            let created = contents.next(ReplyView::Done);
            &&& turns_to(entry, from, to)
            &&& entry.style == CopyStyle::Update && entry.platform == platform
            &&& contents.style == CopyStyle::Plain && contents.platform == platform
            &&& contents.request() == Some(RequestView::CreateDirAll(to))
            &&& contents.outcome is None
            &&& gave_up(
                contents.next(ReplyView::Failed(failure)),
                "无法创建目录 ["@ + to + "]: "@ + failure.message,
            )
            &&& created.request() == Some(RequestView::ReadDir(from)) && created.outcome is None
            &&& created.skip == skip
            &&& gave_up(
                created.next(ReplyView::Failed(failure)),
                "无法读取目录 ["@ + from + "]: "@ + failure.message,
            )
        }),
{
}

/// Law: a directory is created where it goes to, and then listed; what fails is reported, in the words of the
/// style of the copy.
pub proof fn law_directories_are_created_and_listed(copy: CopyView, failure: IoFailureView)
    requires
        copy.well_formed(),
        copy.stage == CopyStage::Inspect,
    ensures
        ({
            let found = copy.next(ReplyView::Flag(true));
            let created = found.next(ReplyView::Done);
            let update = copy.style == CopyStyle::Update;
            &&& found.request() == Some(RequestView::CreateDirAll(copy.to))
            &&& found.outcome is None
            &&& gave_up(
                found.next(ReplyView::Failed(failure)),
                (if update {
                    "无法创建更新目录 ["@
                } else {
                    "无法创建目录 ["@
                }) + copy.to + "]: "@ + failure.message,
            )
            &&& created.request() == Some(RequestView::ReadDir(copy.from))
            &&& created.outcome is None
            &&& gave_up(
                created.next(ReplyView::Failed(failure)),
                (if update {
                    "无法读取更新目录 ["@
                } else {
                    "无法读取目录 ["@
                }) + copy.from + "]: "@ + failure.message,
            )
        }),
{
}

/// Law: a file is copied where it goes to. In the copy of an update, the directory that it goes to is created
/// first. What fails is reported, in the words of the style of the copy.
pub proof fn law_files_are_copied(copy: CopyView, failure: IoFailureView)
    requires
        copy.well_formed(),
        copy.stage == CopyStage::Inspect,
    ensures
        ({
            let update = copy.style == CopyStyle::Update;
            let parent = parent_of(copy.platform, copy.to);
            let inspected = copy.next(ReplyView::Flag(false));
            let ready = if update && parent is Some {
                inspected.next(ReplyView::Done)
            } else {
                inspected
            };
            &&& update && parent is Some ==> inspected.request() == Some(
                RequestView::CreateDirAll(parent->Some_0),
            ) && inspected.outcome is None && gave_up(
                inspected.next(ReplyView::Failed(failure)),
                "无法创建更新父目录 ["@ + parent->Some_0 + "]: "@ + failure.message,
            )
            &&& ready.request() == Some(RequestView::CopyFile { from: copy.from, to: copy.to })
            &&& ready.outcome is None
            &&& gave_up(
                ready.next(ReplyView::Failed(failure)),
                if update {
                    "无法复制更新文件 ["@ + copy.from + "] -> ["@ + copy.to + "]: "@
                        + failure.detailed()
                } else {
                    "无法复制文件 ["@ + copy.from + "] -> ["@ + copy.to + "]: "@ + failure.message
                },
            )
        }),
{
}

/// Law: once a directory is listed, the copy turns to the first entry in the listing that is not to be
/// skipped, or reports it where it could not be read.
pub proof fn law_first_entry_comes_next(
    copy: CopyView,
    name: Seq<char>,
    error: Seq<char>,
    rest: Seq<ListedView>,
)
    requires
        copy.well_formed(),
        copy.stage == CopyStage::List,
        !copy.skip.contains(name),
    ensures
        turns_to(
            copy.next(ReplyView::Listing(seq![ListedView::Name(name)] + rest)),
            under(copy.platform, copy.from, name),
            under(copy.platform, copy.to, name),
        ),
        gave_up(
            copy.next(ReplyView::Listing(seq![ListedView::Failed(error)] + rest)),
            (if copy.style == CopyStyle::Update {
                "无法读取更新目录条目: "@
            } else {
                "无法读取目录条目: "@
            }) + error,
        ),
        copy.pending.len() == 0 ==> copy.next(ReplyView::Listing(Seq::empty())).outcome == Some(
            Ok::<(), Seq<char>>(()),
        ),
{
    let named = seq![ListedView::Name(name)] + rest;
    let failed = seq![ListedView::Failed(error)] + rest;
    assert(named.first() == ListedView::Name(name));
    assert(failed.first() == ListedView::Failed(error));
    let a = queue(copy.platform, copy.from, copy.to, copy.skip, named);
    let b = queue(copy.platform, copy.from, copy.to, copy.skip, failed);
    let entry = JobView::Entry {
        from: under(copy.platform, copy.from, name),
        to: under(copy.platform, copy.to, name),
    };
    assert(a.last() == entry);
    assert((copy.pending + a).last() == entry);
    assert(b.last() == JobView::Unreadable(error));
    assert((copy.pending + b).last() == JobView::Unreadable(error));
    assert(queue(copy.platform, copy.from, copy.to, copy.skip, Seq::empty()).len() == 0);
}

proof fn lemma_queue_has_unreadable(
    platform: Platform,
    from: Seq<char>,
    to: Seq<char>,
    skip: Seq<Seq<char>>,
    entries: Seq<ListedView>,
    error: Seq<char>,
)
    requires
        entries.contains(ListedView::Failed(error)),
    ensures
        queue(platform, from, to, skip, entries).contains(JobView::Unreadable(error)),
    decreases entries.len(),
{
    let rest = entries.drop_first();
    let later = queue(platform, from, to, skip, rest);
    let all = queue(platform, from, to, skip, entries);
    let i = choose|i: int| 0 <= i < entries.len() && entries[i] == ListedView::Failed(error);
    if i == 0 {
        assert(all[later.len() as int] == JobView::Unreadable(error));
    } else {
        assert(rest[i - 1] == ListedView::Failed(error));
        lemma_queue_has_unreadable(platform, from, to, skip, rest, error);
        let k = choose|k: int| 0 <= k < later.len() && later[k] == JobView::Unreadable(error);
        assert(all[k] == later[k]);
    }
}

proof fn lemma_queue_has_name(
    platform: Platform,
    from: Seq<char>,
    to: Seq<char>,
    skip: Seq<Seq<char>>,
    entries: Seq<ListedView>,
    name: Seq<char>,
)
    requires
        entries.contains(ListedView::Name(name)),
        !skip.contains(name),
    ensures
        queue(platform, from, to, skip, entries).contains(
            JobView::Entry { from: under(platform, from, name), to: under(platform, to, name) },
        ),
    decreases entries.len(),
{
    let job = JobView::Entry { from: under(platform, from, name), to: under(platform, to, name) };
    let rest = entries.drop_first();
    let later = queue(platform, from, to, skip, rest);
    let all = queue(platform, from, to, skip, entries);
    let i = choose|i: int| 0 <= i < entries.len() && entries[i] == ListedView::Name(name);
    if i == 0 {
        assert(all[later.len() as int] == job);
    } else {
        assert(rest[i - 1] == ListedView::Name(name));
        lemma_queue_has_name(platform, from, to, skip, rest, name);
        let k = choose|k: int| 0 <= k < later.len() && later[k] == job;
        assert(all[k] == later[k]);
    }
}

/// Whether a path was looked at, and was then created and listed as a directory or copied as a file.
pub open spec fn carried(
    asked: Seq<(RequestView, ReplyView)>,
    from: Seq<char>,
    to: Seq<char>,
) -> bool {
    exists|k: int|
        {
            &&& 0 <= k < asked.len()
            &&& (#[trigger] asked[k]).0 == RequestView::IsDir(from)
            &&& asked[k].1 == ReplyView::Flag(true) ==> {
                &&& k + 2 < asked.len()
                &&& asked[k + 1] == (RequestView::CreateDirAll(to), ReplyView::Done)
                &&& asked[k + 2].0 == RequestView::ReadDir(from)
                &&& asked[k + 2].1 is Listing
            }
            &&& asked[k].1 == ReplyView::Flag(false) ==> asked.contains(
                (RequestView::CopyFile { from, to }, ReplyView::Done),
            )
        }
}

/// Whether something is still to be done, or was done.
spec fn done_or_pending(
    asked: Seq<(RequestView, ReplyView)>,
    copy: CopyView,
    from: Seq<char>,
    to: Seq<char>,
) -> bool {
    ||| carried(asked, from, to)
    ||| copy.pending.contains(JobView::Entry { from, to })
    ||| copy.stage != CopyStage::Finished && copy.from == from && copy.to == to
    ||| copy.outcome is Some && copy.outcome->Some_0 is Err
}

/// Where the path that a copy has come to stands in what was asked.
spec fn current(asked: Seq<(RequestView, ReplyView)>, copy: CopyView, plain_start: bool) -> bool {
    let n = asked.len() as int;
    match copy.stage {
        CopyStage::Inspect => true,
        CopyStage::MakeDir => plain_start && n == 0 || {
            &&& n > 0
            &&& asked[n - 1] == (RequestView::IsDir(copy.from), ReplyView::Flag(true))
        },
        CopyStage::List => {
            &&& n > 0
            &&& asked[n - 1] == (RequestView::CreateDirAll(copy.to), ReplyView::Done)
            &&& plain_start && n == 1 || {
                &&& n > 1
                &&& asked[n - 2] == (RequestView::IsDir(copy.from), ReplyView::Flag(true))
            }
        },
        CopyStage::MakeParent => {
            &&& n > 0
            &&& asked[n - 1] == (RequestView::IsDir(copy.from), ReplyView::Flag(false))
        },
        CopyStage::CopyFile => exists|k: int|
            0 <= k < n && #[trigger] asked[k] == (
                RequestView::IsDir(copy.from),
                ReplyView::Flag(false),
            ),
        CopyStage::Finished => true,
    }
}

proof fn lemma_carried_stays(
    asked: Seq<(RequestView, ReplyView)>,
    more: (RequestView, ReplyView),
    from: Seq<char>,
    to: Seq<char>,
)
    requires
        carried(asked, from, to),
    ensures
        carried(asked.push(more), from, to),
{
    let longer = asked.push(more);
    let k = choose|k: int|
        {
            &&& 0 <= k < asked.len()
            &&& (#[trigger] asked[k]).0 == RequestView::IsDir(from)
            &&& asked[k].1 == ReplyView::Flag(true) ==> {
                &&& k + 2 < asked.len()
                &&& asked[k + 1] == (RequestView::CreateDirAll(to), ReplyView::Done)
                &&& asked[k + 2].0 == RequestView::ReadDir(from)
                &&& asked[k + 2].1 is Listing
            }
            &&& asked[k].1 == ReplyView::Flag(false) ==> asked.contains(
                (RequestView::CopyFile { from, to }, ReplyView::Done),
            )
        };
    let file = (RequestView::CopyFile { from, to }, ReplyView::Done);
    assert(longer[k] == asked[k]);
    if asked[k].1 == ReplyView::Flag(true) {
        assert(longer[k + 1] == asked[k + 1]);
        assert(longer[k + 2] == asked[k + 2]);
    }
    if asked.contains(file) {
        let j = choose|j: int| 0 <= j < asked.len() && asked[j] == file;
        assert(longer[j] == file);
    }
}

spec fn has_failed(copy: CopyView) -> bool {
    copy.outcome is Some && copy.outcome->Some_0 is Err
}

proof fn lemma_resumed(copy: CopyView, job: JobView)
    requires
        copy.pending.contains(job),
        copy.outcome is None,
    ensures
        ({
            let then = copy.resumed();
            ||| has_failed(then)
            ||| then.pending.contains(job)
            ||| job matches JobView::Entry { from, to } && then.stage == CopyStage::Inspect
                && then.from == from && then.to == to
        }),
{
    let k = choose|k: int| 0 <= k < copy.pending.len() && copy.pending[k] == job;
    if k < copy.pending.len() - 1 {
        assert(copy.pending.drop_last()[k] == job);
    }
}

proof fn lemma_job_step(
    asked: Seq<(RequestView, ReplyView)>,
    a: CopyView,
    reply: ReplyView,
    plain_start: bool,
    from: Seq<char>,
    to: Seq<char>,
)
    requires
        a.well_formed(),
        a.accepts(reply),
        current(asked, a, plain_start),
        plain_start && asked.len() < 2 ==> !(a.from == from && a.to == to) || carried(
            asked,
            from,
            to,
        ),
        done_or_pending(asked, a, from, to),
    ensures
        done_or_pending(asked.push((a.request()->Some_0, reply)), a.next(reply), from, to),
{
    let more = (a.request()->Some_0, reply);
    let longer = asked.push(more);
    let n = asked.len() as int;
    let b = a.next(reply);
    let job = JobView::Entry { from, to };
    assert(longer[n] == more);
    if carried(asked, from, to) {
        lemma_carried_stays(asked, more, from, to);
    } else if a.pending.contains(job) {
        match a.stage {
            CopyStage::List => {
                if let ReplyView::Listing(entries) = reply {
                    let more_jobs = queue(a.platform, a.from, a.to, a.skip, entries);
                    let grown = CopyView {
                        skip: Seq::empty(),
                        pending: a.pending + more_jobs,
                        ..a
                    };
                    let k = choose|k: int| 0 <= k < a.pending.len() && a.pending[k] == job;
                    assert(grown.pending[k] == job);
                    lemma_resumed(grown, job);
                }
            },
            CopyStage::CopyFile => {
                if !(reply is Failed) {
                    lemma_resumed(a, job);
                }
            },
            _ => {},
        }
    } else if !has_failed(a) {
        match a.stage {
            CopyStage::List => {
                if reply is Listing {
                    assert(longer[n - 2] == asked[n - 2]);
                    assert(longer[n - 1] == asked[n - 1]);
                    assert(longer[n - 2].0 == RequestView::IsDir(from));
                    assert(carried(longer, from, to));
                }
            },
            CopyStage::CopyFile => {
                if reply == ReplyView::Done {
                    let k = choose|k: int|
                        0 <= k < n && #[trigger] asked[k] == (
                            RequestView::IsDir(a.from),
                            ReplyView::Flag(false),
                        );
                    assert(longer[k] == asked[k]);
                    assert(longer[k].0 == RequestView::IsDir(from));
                    assert(longer.contains(more));
                    assert(carried(longer, from, to));
                }
            },
            _ => {},
        }
    }
}

/// Whether what a listing names is done or still to be done, and what it could not read is still to be
/// reported.
spec fn listing_kept(
    asked: Seq<(RequestView, ReplyView)>,
    copy: CopyView,
    skip: Seq<Seq<char>>,
    k: int,
) -> bool {
    let from = asked[k].0->ReadDir_0;
    let to = asked[k - 1].0->CreateDirAll_0;
    let entries = asked[k].1->Listing_0;
    &&& k >= 1
    &&& asked[k - 1].0 is CreateDirAll
    &&& forall|name: Seq<char>|
        #![trigger entries.contains(ListedView::Name(name))]
        entries.contains(ListedView::Name(name)) && !(k == 1 && skip.contains(name))
            ==> done_or_pending(
            asked,
            copy,
            under(copy.platform, from, name),
            under(copy.platform, to, name),
        )
    &&& forall|error: Seq<char>|
        #![trigger entries.contains(ListedView::Failed(error))]
        entries.contains(ListedView::Failed(error)) ==> has_failed(copy) || copy.pending.contains(
            JobView::Unreadable(error),
        )
}

spec fn on_the_way(
    asked: Seq<(RequestView, ReplyView)>,
    start: CopyView,
    copy: CopyView,
    plain_start: bool,
) -> bool {
    &&& copy.well_formed()
    &&& copy.platform == start.platform
    &&& has_failed(copy) || {
        &&& copy.stage == CopyStage::Finished ==> copy.pending.len() == 0
        &&& current(asked, copy, plain_start)
        &&& copy.skip == if asked.len() < 2 {
            start.skip
        } else {
            Seq::empty()
        }
        &&& plain_start && asked.len() < 2 ==> copy.from == start.from && copy.to == start.to
            && copy.pending.len() == 0 && (copy.stage == CopyStage::MakeDir || copy.stage
            == CopyStage::List)
        &&& plain_start ==> (asked.len() > 0 ==> asked[0] == (
            RequestView::CreateDirAll(start.to),
            ReplyView::Done,
        )) && (asked.len() > 1 ==> asked[1].0 == RequestView::ReadDir(start.from)
            && asked[1].1 is Listing)
        &&& !plain_start ==> done_or_pending(asked, copy, start.from, start.to)
        &&& forall|k: int|
            0 <= k < asked.len() && (#[trigger] asked[k]).0 is ReadDir ==> asked[k].1 is Listing
                && listing_kept(asked, copy, start.skip, k)
    }
}

proof fn lemma_listing_step(
    asked: Seq<(RequestView, ReplyView)>,
    start: CopyView,
    a: CopyView,
    reply: ReplyView,
    plain_start: bool,
    k: int,
)
    requires
        on_the_way(asked, start, a, plain_start),
        !has_failed(a),
        a.accepts(reply),
        0 <= k < asked.len(),
        asked[k].0 is ReadDir,
    ensures
        listing_kept(
            asked.push((a.request()->Some_0, reply)),
            a.next(reply),
            start.skip,
            k,
        ),
{
    let more = (a.request()->Some_0, reply);
    let longer = asked.push(more);
    let b = a.next(reply);
    assert(listing_kept(asked, a, start.skip, k));
    assert(longer[k] == asked[k]);
    assert(longer[k - 1] == asked[k - 1]);
    let from = asked[k].0->ReadDir_0;
    let to = asked[k - 1].0->CreateDirAll_0;
    let entries = asked[k].1->Listing_0;
    assert forall|name: Seq<char>|
        #![trigger entries.contains(ListedView::Name(name))]
        entries.contains(ListedView::Name(name)) && !(k == 1 && start.skip.contains(name)) implies
        done_or_pending(
        longer,
        b,
        under(b.platform, from, name),
        under(b.platform, to, name),
    ) by {
        if plain_start {
            assert(asked.len() >= 2) by {
                if asked.len() < 2 {
                    assert(k == 0);
                    assert(asked[0].0 is CreateDirAll);
                }
            }
        }
        lemma_job_step(
            asked,
            a,
            reply,
            plain_start,
            under(a.platform, from, name),
            under(a.platform, to, name),
        );
    }
    assert forall|error: Seq<char>|
        #![trigger entries.contains(ListedView::Failed(error))]
        entries.contains(ListedView::Failed(error)) implies has_failed(b) || b.pending.contains(
        JobView::Unreadable(error),
    ) by {
        let job = JobView::Unreadable(error);
        match a.stage {
            CopyStage::List => {
                if let ReplyView::Listing(listed) = reply {
                    let more_jobs = queue(a.platform, a.from, a.to, a.skip, listed);
                    let grown = CopyView {
                        skip: Seq::empty(),
                        pending: a.pending + more_jobs,
                        ..a
                    };
                    let i = choose|i: int| 0 <= i < a.pending.len() && a.pending[i] == job;
                    assert(grown.pending[i] == job);
                    lemma_resumed(grown, job);
                }
            },
            CopyStage::CopyFile => {
                if !(reply is Failed) {
                    lemma_resumed(a, job);
                }
            },
            _ => {},
        }
    }
}

proof fn lemma_new_listing(
    asked: Seq<(RequestView, ReplyView)>,
    start: CopyView,
    a: CopyView,
    entries: Seq<ListedView>,
    plain_start: bool,
)
    requires
        on_the_way(asked, start, a, plain_start),
        !has_failed(a),
        a.stage == CopyStage::List,
        !plain_start ==> start.skip.len() == 0,
    ensures
        listing_kept(
            asked.push((RequestView::ReadDir(a.from), ReplyView::Listing(entries))),
            a.next(ReplyView::Listing(entries)),
            start.skip,
            asked.len() as int,
        ),
{
    let more = (RequestView::ReadDir(a.from), ReplyView::Listing(entries));
    let longer = asked.push(more);
    let b = a.next(ReplyView::Listing(entries));
    let k = asked.len() as int;
    assert(longer[k] == more);
    assert(longer[k - 1] == asked[k - 1]);
    let jobs = queue(a.platform, a.from, a.to, a.skip, entries);
    let grown = CopyView { skip: Seq::empty(), pending: a.pending + jobs, ..a };
    assert forall|name: Seq<char>|
        #![trigger entries.contains(ListedView::Name(name))]
        entries.contains(ListedView::Name(name)) && !(k == 1 && start.skip.contains(name)) implies
        done_or_pending(
        longer,
        b,
        under(b.platform, a.from, name),
        under(b.platform, a.to, name),
    ) by {
        let job = JobView::Entry {
            from: under(a.platform, a.from, name),
            to: under(a.platform, a.to, name),
        };
        assert(!a.skip.contains(name));
        lemma_queue_has_name(a.platform, a.from, a.to, a.skip, entries, name);
        let i = choose|i: int| 0 <= i < jobs.len() && jobs[i] == job;
        assert(grown.pending[a.pending.len() + i] == job);
        lemma_resumed(grown, job);
    }
    assert forall|error: Seq<char>|
        #![trigger entries.contains(ListedView::Failed(error))]
        entries.contains(ListedView::Failed(error)) implies has_failed(b) || b.pending.contains(
        JobView::Unreadable(error),
    ) by {
        let job = JobView::Unreadable(error);
        lemma_queue_has_unreadable(a.platform, a.from, a.to, a.skip, entries, error);
        let i = choose|i: int| 0 <= i < jobs.len() && jobs[i] == job;
        assert(grown.pending[a.pending.len() + i] == job);
        lemma_resumed(grown, job);
    }
}

proof fn lemma_copy_run(start: CopyView, replies: Seq<ReplyView>, plain_start: bool)
    requires
        plain_start ==> start == CopyView::of_contents(
            start.platform,
            start.from,
            start.to,
            start.skip,
        ),
        !plain_start ==> start == CopyView::of_entry(start.platform, start.from, start.to),
        runs(start, replies),
    ensures
        on_the_way(history(start, replies), start, after(start, replies), plain_start),
    decreases replies.len(),
{
    if replies.len() > 0 {
        let front = replies.drop_last();
        lemma_copy_run(start, front, plain_start);
        let a = after(start, front);
        let asked = history(start, front);
        let reply = replies.last();
        let more = (a.request()->Some_0, reply);
        let longer = asked.push(more);
        let b = a.next(reply);
        let n = asked.len() as int;
        assert(history(start, replies) == longer);
        assert(after(start, replies) == b);
        assert(!has_failed(a));
        assert(longer[n] == more);
        if n > 0 {
            assert(longer[0] == asked[0]);
            assert(longer[n - 1] == asked[n - 1]);
        }
        if n > 1 {
            assert(longer[1] == asked[1]);
        }
        if !has_failed(b) {
            if !plain_start {
                lemma_job_step(asked, a, reply, plain_start, start.from, start.to);
            }
            assert forall|k: int|
                0 <= k < longer.len() && (#[trigger] longer[k]).0 is ReadDir implies longer[k].1
                is Listing && listing_kept(longer, b, start.skip, k) by {
                if k < n {
                    assert(longer[k] == asked[k]);
                    lemma_listing_step(asked, start, a, reply, plain_start, k);
                } else {
                    if let ReplyView::Listing(entries) = reply {
                        lemma_new_listing(asked, start, a, entries, plain_start);
                    }
                }
            }
            if a.stage == CopyStage::MakeParent {
                assert(longer[n - 1] == (RequestView::IsDir(b.from), ReplyView::Flag(false)));
            }
            if a.stage == CopyStage::Inspect && reply == ReplyView::Flag(false) {
                assert(longer[n] == (RequestView::IsDir(b.from), ReplyView::Flag(false)));
            }
            assert(current(longer, b, plain_start));
        }
    }
}

/// Whether every name of every listing was dealt with but for what is skipped in the first one, and every
/// entry of every listing could be read.
pub open spec fn nothing_left_out(
    asked: Seq<(RequestView, ReplyView)>,
    platform: Platform,
    skip: Seq<Seq<char>>,
) -> bool {
    forall|k: int|
        #![trigger asked[k]]
        0 <= k < asked.len() && asked[k].0 is ReadDir ==> {
            let from = asked[k].0->ReadDir_0;
            let to = asked[k - 1].0->CreateDirAll_0;
            let entries = asked[k].1->Listing_0;
            &&& k >= 1 && asked[k - 1].0 is CreateDirAll && asked[k].1 is Listing
            &&& forall|error: Seq<char>| !#[trigger] entries.contains(ListedView::Failed(error))
            &&& forall|name: Seq<char>|
                #![trigger entries.contains(ListedView::Name(name))]
                entries.contains(ListedView::Name(name)) && !(k == 1 && skip.contains(name))
                    ==> carried(asked, under(platform, from, name), under(platform, to, name))
        }
}

/// Law: the copy of an update entry that succeeds has carried the entry over, and has carried over every
/// name in every listing that it was given, each to the same place below where its directory goes; and no
/// entry of a listing was unreadable.
pub proof fn law_copied_entries_are_whole(
    platform: Platform,
    from: Seq<char>,
    to: Seq<char>,
    replies: Seq<ReplyView>,
)
    requires
        runs(CopyView::of_entry(platform, from, to), replies),
        after(CopyView::of_entry(platform, from, to), replies).outcome == Some(
            Ok::<(), Seq<char>>(()),
        ),
    ensures
        carried(history(CopyView::of_entry(platform, from, to), replies), from, to),
        nothing_left_out(
            history(CopyView::of_entry(platform, from, to), replies),
            platform,
            Seq::empty(),
        ),
{
    let start = CopyView::of_entry(platform, from, to);
    lemma_copy_run(start, replies, false);
    lemma_all_listings(history(start, replies), start, after(start, replies), false);
}

/// Law: the copy of what a directory holds, where it succeeds, has created the directory that it goes to and
/// listed the one that it comes from, and has carried over every name in every listing, but for the names to
/// be skipped directly in the directory itself; and no entry of a listing was unreadable.
pub proof fn law_copied_contents_are_whole(
    platform: Platform,
    from: Seq<char>,
    to: Seq<char>,
    skip: Seq<Seq<char>>,
    replies: Seq<ReplyView>,
)
    requires
        runs(CopyView::of_contents(platform, from, to, skip), replies),
        after(CopyView::of_contents(platform, from, to, skip), replies).outcome == Some(
            Ok::<(), Seq<char>>(()),
        ),
    ensures
        ({
            let asked = history(CopyView::of_contents(platform, from, to, skip), replies);
            &&& asked.len() >= 2
            &&& asked[0] == (RequestView::CreateDirAll(to), ReplyView::Done)
            &&& asked[1].0 == RequestView::ReadDir(from)
            &&& nothing_left_out(asked, platform, skip)
        }),
{
    let start = CopyView::of_contents(platform, from, to, skip);
    lemma_copy_run(start, replies, true);
    lemma_all_listings(history(start, replies), start, after(start, replies), true);
}

proof fn lemma_all_listings(
    asked: Seq<(RequestView, ReplyView)>,
    start: CopyView,
    copy: CopyView,
    plain_start: bool,
)
    requires
        on_the_way(asked, start, copy, plain_start),
        copy.outcome == Some(Ok::<(), Seq<char>>(())),
    ensures
        nothing_left_out(asked, start.platform, start.skip),
{
    assert(copy.pending.len() == 0);
    assert forall|k: int|
        #![trigger asked[k]]
        0 <= k < asked.len() && asked[k].0 is ReadDir implies {
        let from = asked[k].0->ReadDir_0;
        let to = asked[k - 1].0->CreateDirAll_0;
        let entries = asked[k].1->Listing_0;
        &&& k >= 1 && asked[k - 1].0 is CreateDirAll && asked[k].1 is Listing
        &&& forall|error: Seq<char>| !#[trigger] entries.contains(ListedView::Failed(error))
        &&& forall|name: Seq<char>|
            #![trigger entries.contains(ListedView::Name(name))]
            entries.contains(ListedView::Name(name)) && !(k == 1 && start.skip.contains(name))
                ==> carried(
                asked,
                under(start.platform, from, name),
                under(start.platform, to, name),
            )
    } by {
        assert(listing_kept(asked, copy, start.skip, k));
    }
}

} // verus!
