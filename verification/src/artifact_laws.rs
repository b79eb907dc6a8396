//! What a cleanup after an update asks for, from its first step to its last.

use vstd::prelude::*;
use crate::artifacts::{is_download, ArtifactStage, ArtifactView, ExtractDirView};
use crate::disk::{named, ListedView, ReplyView, RequestView};
use crate::disk_laws::law_listings_give_their_names;
use crate::path::{under, Platform};
use crate::run::{after, history, holdable, runs, Procedure};
use crate::text_laws::law_prefixes_and_suffixes_come_off;

verus! {

impl Procedure<RequestView, ReplyView> for ArtifactView {
    open spec fn asks(self) -> Option<RequestView> {
        self.request()
    }

    open spec fn takes(self, reply: ReplyView) -> bool {
        self.accepts(reply) && holdable(reply)
    }

    open spec fn told(self, reply: ReplyView) -> ArtifactView {
        self.next(reply)
    }
}

/// Law: the cleanup after an update first looks for the manifest in the target and removes it where it is
/// there. Whatever came of that, it looks for the cache next; where that is there, it lists it and inspects
/// the first name; and where the cache is not there, cannot be listed or is empty, nothing more is asked.
pub proof fn law_artifacts_are_looked_for_in_turn(
    platform: Platform,
    target_dir: Seq<char>,
    cache_dir: Seq<char>,
    removed: ReplyView,
    entries: Seq<ListedView>,
    reply: ReplyView,
)
    requires
        !(reply is Listing),
    ensures
        ({
            let start = ArtifactView::start(platform, target_dir, cache_dir);
            let manifest = under(platform, target_dir, "changes.json"@);
            let found = start.next(ReplyView::Flag(true));
            let cleaned = found.next(removed);
            let absent = start.next(ReplyView::Flag(false));
            let cached = cleaned.next(ReplyView::Flag(true));
            let listed = cached.next(ReplyView::Listing(entries));
            &&& start.request() == Some(RequestView::Exists(manifest))
            &&& found.request() == Some(RequestView::RemoveFile(manifest))
            &&& cleaned.request() == Some(RequestView::Exists(cache_dir))
            &&& absent == cleaned
            &&& cleaned.next(ReplyView::Flag(false)).request() is None
            &&& cached.request() == Some(RequestView::ReadDir(cache_dir))
            &&& cached.next(reply).request() is None
            &&& named(entries).len() == 0 ==> listed.request() is None
            &&& named(entries).len() > 0 ==> listed.request() == Some(
                RequestView::IsFile(under(platform, cache_dir, named(entries)[0])),
            )
        }),
{
}

/// Law: once a name of the cache is dealt with, by a look at it or by its removal, and whatever came of
/// that, the next name is inspected; where there is none, nothing more is asked.
pub proof fn law_names_are_inspected_in_turn(cleanup: ArtifactView, i: usize, reply: ReplyView)
    requires
        cleanup.well_formed(),
        i < cleanup.names.len(),
        cleanup.stage == ArtifactStage::Inspect(i) || cleanup.stage
            == ArtifactStage::RemoveDownload(i),
    ensures
        ({
            let path = under(cleanup.platform, cleanup.cache_dir, cleanup.names[i as int]);
            let then = cleanup.next(reply);
            let looking = cleanup.request() == Some(RequestView::IsFile(path));
            let removing = cleanup.request() == Some(RequestView::RemoveFile(path));
            let unfinished = exists|stem: Seq<char>|
                cleanup.names[i as int] == #[trigger] (stem + ".downloading"@);
            &&& looking || removing
            &&& looking && reply == ReplyView::Flag(true) && unfinished ==> then.request() == Some(
                RequestView::RemoveFile(path),
            )
            &&& removing || reply != ReplyView::Flag(true) || !unfinished ==> then.request() == (if i
                + 1 < cleanup.names.len() {
                Some(
                    RequestView::IsFile(
                        under(cleanup.platform, cleanup.cache_dir, cleanup.names[i + 1]),
                    ),
                )
            } else {
                None
            })
        }),
{
    law_prefixes_and_suffixes_come_off(cleanup.names[i as int], ".downloading"@);
}

/// Whether a name was looked at, and the file was removed where it is one and is called an unfinished
/// download.
pub open spec fn dealt_with(
    asked: Seq<(RequestView, ReplyView)>,
    path: Seq<char>,
    name: Seq<char>,
) -> bool {
    exists|k: int|
        {
            &&& 0 <= k < asked.len()
            &&& (#[trigger] asked[k]).0 == RequestView::IsFile(path)
            &&& asked[k].1 == ReplyView::Flag(true) && is_download(name) ==> k + 1 < asked.len()
                && asked[k + 1].0 == RequestView::RemoveFile(path)
        }
}

spec fn first_dealt_with(
    cleanup: ArtifactView,
    asked: Seq<(RequestView, ReplyView)>,
    n: int,
) -> bool {
    forall|j: int|
        0 <= j < n ==> dealt_with(
            asked,
            under(cleanup.platform, cleanup.cache_dir, #[trigger] cleanup.names[j]),
            cleanup.names[j],
        )
}

spec fn from_listing(cleanup: ArtifactView, asked: Seq<(RequestView, ReplyView)>) -> bool {
    forall|k: int|
        0 <= k < asked.len() && (#[trigger] asked[k]).0 is ReadDir && asked[k].1 is Listing
            ==> cleanup.names == named(asked[k].1->Listing_0)
}

spec fn on_the_way(
    cleanup: ArtifactView,
    asked: Seq<(RequestView, ReplyView)>,
) -> bool {
    match cleanup.stage {
        ArtifactStage::Inspect(i) => first_dealt_with(cleanup, asked, i as int) && from_listing(
            cleanup,
            asked,
        ),
        ArtifactStage::RemoveDownload(i) => {
            &&& first_dealt_with(cleanup, asked, i as int)
            &&& from_listing(cleanup, asked)
            &&& asked.len() > 0
            &&& asked.last().0 == RequestView::IsFile(
                under(cleanup.platform, cleanup.cache_dir, cleanup.names[i as int]),
            )
        },
        ArtifactStage::Finished => first_dealt_with(cleanup, asked, cleanup.names.len() as int)
            && from_listing(cleanup, asked),
        _ => {
            &&& forall|k: int| 0 <= k < asked.len() ==> !((#[trigger] asked[k]).0 is ReadDir)
            &&& cleanup.names.len() == 0
        },
    }
}

proof fn lemma_dealt_with_stays(
    asked: Seq<(RequestView, ReplyView)>,
    more: (RequestView, ReplyView),
    path: Seq<char>,
    name: Seq<char>,
)
    requires
        dealt_with(asked, path, name),
    ensures
        dealt_with(asked.push(more), path, name),
{
    let k = choose|k: int|
        {
            &&& 0 <= k < asked.len()
            &&& (#[trigger] asked[k]).0 == RequestView::IsFile(path)
            &&& asked[k].1 == ReplyView::Flag(true) && is_download(name) ==> k + 1 < asked.len()
                && asked[k + 1].0 == RequestView::RemoveFile(path)
        };
    assert(asked.push(more)[k] == asked[k]);
    if k + 1 < asked.len() {
        assert(asked.push(more)[k + 1] == asked[k + 1]);
    }
}

proof fn lemma_cleanup_run(start: ArtifactView, replies: Seq<ReplyView>)
    requires
        start == ArtifactView::start(start.platform, start.target_dir, start.cache_dir),
        runs(start, replies),
    ensures
        ({
            let now = after(start, replies);
            &&& now.well_formed()
            &&& now.platform == start.platform
            &&& now.cache_dir == start.cache_dir
            &&& on_the_way(now, history(start, replies))
        }),
    decreases replies.len(),
{
    if replies.len() > 0 {
        let front = replies.drop_last();
        lemma_cleanup_run(start, front);
        let a = after(start, front);
        let b = after(start, replies);
        let before = history(start, front);
        let asked = history(start, replies);
        let reply = replies.last();
        let more = (a.request()->Some_0, reply);
        assert(asked == before.push(more));
        assert(b == a.next(reply));
        assert forall|j: int|
            0 <= j < a.names.len() && dealt_with(
                before,
                under(a.platform, a.cache_dir, #[trigger] a.names[j]),
                a.names[j],
            ) implies dealt_with(
            asked,
            under(a.platform, a.cache_dir, a.names[j]),
            a.names[j],
        ) by {
            lemma_dealt_with_stays(
                before,
                more,
                under(a.platform, a.cache_dir, a.names[j]),
                a.names[j],
            );
        }
        assert(asked[before.len() as int] == more);
        match a.stage {
            ArtifactStage::ListCache => {
                if let ReplyView::Listing(entries) = reply {
                    law_listings_give_their_names(entries);
                }
                assert(from_listing(b, asked));
            },
            ArtifactStage::Inspect(i) => {
                assert(from_listing(b, asked));
                if !(reply == ReplyView::Flag(true) && is_download(a.names[i as int])) {
                    assert(asked[before.len() as int].0 == RequestView::IsFile(
                        under(a.platform, a.cache_dir, a.names[i as int]),
                    ));
                    assert(first_dealt_with(b, asked, i + 1));
                }
            },
            ArtifactStage::RemoveDownload(i) => {
                assert(from_listing(b, asked));
                let k = before.len() - 1;
                assert(asked[k] == before[k]);
                assert(asked[k + 1] == more);
                assert(dealt_with(
                    asked,
                    under(a.platform, a.cache_dir, a.names[i as int]),
                    a.names[i as int],
                ));
                assert(first_dealt_with(b, asked, i + 1));
            },
            _ => {},
        }
    }
}

/// Law: when a cleanup is over that was given a listing of the cache, it has asked of every name in the
/// listing whether it is a file, and has asked for the removal of each that is one and ends with
/// `.downloading`, whatever came of the removals before.
pub proof fn law_every_listed_download_is_removed(
    platform: Platform,
    target_dir: Seq<char>,
    cache_dir: Seq<char>,
    replies: Seq<ReplyView>,
    entries: Seq<ListedView>,
    name: Seq<char>,
)
    requires
        runs(ArtifactView::start(platform, target_dir, cache_dir), replies),
        after(ArtifactView::start(platform, target_dir, cache_dir), replies).request() is None,
        history(ArtifactView::start(platform, target_dir, cache_dir), replies).contains(
            (RequestView::ReadDir(cache_dir), ReplyView::Listing(entries)),
        ),
        entries.contains(ListedView::Name(name)),
    ensures
        ({
            let asked = history(ArtifactView::start(platform, target_dir, cache_dir), replies);
            let path = under(platform, cache_dir, name);
            exists|k: int|
                {
                    &&& 0 <= k < asked.len()
                    &&& (#[trigger] asked[k]).0 == RequestView::IsFile(path)
                    &&& asked[k].1 == ReplyView::Flag(true) && (exists|stem: Seq<char>|
                        name == #[trigger] (stem + ".downloading"@)) ==> k + 1 < asked.len()
                        && asked[k + 1].0 == RequestView::RemoveFile(path)
                }
        }),
{
    let start = ArtifactView::start(platform, target_dir, cache_dir);
    let asked = history(start, replies);
    let now = after(start, replies);
    let path = under(platform, cache_dir, name);
    lemma_cleanup_run(start, replies);
    law_listings_give_their_names(entries);
    law_prefixes_and_suffixes_come_off(name, ".downloading"@);
    let l = choose|l: int|
        0 <= l < asked.len() && asked[l] == (
            RequestView::ReadDir(cache_dir),
            ReplyView::Listing(entries),
        );
    assert(asked[l].0 is ReadDir);
    assert(named(entries).contains(name));
    let j = choose|j: int| 0 <= j < named(entries).len() && named(entries)[j] == name;
    assert(now.names[j] == name);
    assert(dealt_with(asked, path, name));
    let k = choose|k: int|
        {
            &&& 0 <= k < asked.len()
            &&& (#[trigger] asked[k]).0 == RequestView::IsFile(path)
            &&& asked[k].1 == ReplyView::Flag(true) && is_download(name) ==> k + 1 < asked.len()
                && asked[k + 1].0 == RequestView::RemoveFile(path)
        };
    assert(asked[k].0 == RequestView::IsFile(path));
}

/// Law: an extracted package is removed where its directory is there, and nothing is to be done where it is
/// not; a removal that fails is reported.
pub proof fn law_extracted_package_is_removed(dir: Seq<char>, reply: ReplyView)
    ensures
        ({
            let start = ExtractDirView::start(dir);
            let found = start.next(ReplyView::Flag(true));
            let absent = start.next(ReplyView::Flag(false));
            let end = found.next(reply);
            &&& start.request() == Some(RequestView::Exists(dir)) && start.outcome is None
            &&& absent.request() is None
            &&& absent.outcome == Some(Ok::<(), Seq<char>>(()))
            &&& found.request() == Some(RequestView::RemoveDirAll(dir)) && found.outcome is None
            &&& end.request() is None
            &&& end.outcome == Some(
                match reply {
                    ReplyView::Failed(f) => Err::<(), Seq<char>>(
                        "无法清理目录 ["@ + dir + "]: "@ + f.message,
                    ),
                    _ => Ok(()),
                },
            )
        }),
{
}

} // verus!
