//! What a fallback asks for, from its first step to its last.

use vstd::prelude::*;
use crate::disk::{ReplyView, RequestView};
use crate::fallback::{
    law_fallback_takes_the_first_free_folder, version_folder, FallbackStage, FallbackView,
};
use crate::path::{under, Platform};
use crate::run::{after, history, runs, was_asked, Procedure};
use crate::text::decimal;

verus! {

impl Procedure<RequestView, ReplyView> for FallbackView {
    open spec fn asks(self) -> Option<RequestView> {
        self.request()
    }

    open spec fn takes(self, reply: ReplyView) -> bool {
        self.accepts(reply)
    }

    open spec fn told(self, reply: ReplyView) -> FallbackView {
        self.next(reply)
    }
}

/// Law: the folder of a version is called by the version behind one `v`, however many the version itself
/// starts with.
pub proof fn law_folders_start_with_one_letter(version: Seq<char>, count: nat)
    requires
        version.len() == 0 || version[0] != 'v',
    ensures
        version_folder(Seq::new(count, |i: int| 'v') + version) == "v"@ + version,
    decreases count,
{
    let all = Seq::new(count, |i: int| 'v') + version;
    if count == 0 {
        assert(all =~= version);
    } else {
        let fewer = Seq::new((count - 1) as nat, |i: int| 'v') + version;
        law_folders_start_with_one_letter(version, (count - 1) as nat);
        assert(all.drop_first() =~= fewer);
        assert(all[0] == 'v');
    }
}

/// The folder for a version where so many were found taken: the plain one, or the one with that number
/// behind its name.
pub open spec fn numbered(
    platform: Platform,
    target_dir: Seq<char>,
    version: Seq<char>,
    taken: nat,
) -> Seq<char> {
    if taken == 0 {
        under(platform, target_dir, version_folder(version))
    } else {
        under(platform, target_dir, version_folder(version) + "-"@ + decimal(taken))
    }
}

/// The replies to a fallback that finds so many folders taken.
pub open spec fn all_taken(taken: nat) -> Seq<ReplyView> {
    Seq::new(taken, |i: int| ReplyView::Flag(true))
}

proof fn lemma_all_taken(fallback: FallbackView, taken: nat)
    ensures
        after(fallback, all_taken(taken)) == fallback.after_taken(taken),
    decreases taken,
{
    if taken > 0 {
        lemma_all_taken(fallback, (taken - 1) as nat);
        assert(all_taken(taken).drop_last() =~= all_taken((taken - 1) as nat));
    }
}

/// Law: what a fallback does, whatever number of folders it finds taken. The first free folder is created,
/// what was extracted is copied into it but for the manifest, and the configuration is looked for in the
/// target. Where there is one, it is copied into the folder. Then the fallback returns the folder. A folder
/// that cannot be created and files that cannot be copied are reported; a configuration that cannot be
/// copied is not.
pub proof fn law_fallback_goes_step_by_step(
    platform: Platform,
    extract_dir: Seq<char>,
    target_dir: Seq<char>,
    version: Seq<char>,
    taken: nat,
    failure: ReplyView,
    copied: ReplyView,
)
    requires
        taken <= 2147483647,
        failure is Failed,
    ensures
        ({
            let start = FallbackView::start(platform, extract_dir, target_dir, version);
            let dir = numbered(platform, target_dir, version, taken);
            let config = under(platform, target_dir, "config"@);
            let looking = after(start, all_taken(taken));
            let free = looking.next(ReplyView::Flag(false));
            let created = free.next(ReplyView::Done);
            let filled = created.next(ReplyView::Done);
            let found = filled.next(ReplyView::Flag(true));
            let absent = filled.next(ReplyView::Flag(false));
            let end = found.next(copied);
            let done = Some(Ok::<Seq<char>, Seq<char>>(dir));
            &&& looking.request() == Some(RequestView::Exists(dir)) && looking.outcome is None
            &&& looking.accepts(ReplyView::Flag(true)) <==> taken < 2147483647
            &&& looking.accepts(ReplyView::Flag(false))
            &&& free.request() == Some(RequestView::CreateDirAll(dir)) && free.outcome is None
            &&& free.next(failure).request() is None
            &&& free.next(failure).outcome == Some(
                Err::<Seq<char>, Seq<char>>("无法创建兜底目录: "@ + failure->Failed_0.message),
            )
            &&& created.request() == Some(
                RequestView::CopyDirContents {
                    from: extract_dir,
                    to: dir,
                    skip: seq!["changes.json"@],
                },
            ) && created.outcome is None
            &&& created.next(failure).request() is None
            &&& created.next(failure).outcome == Some(
                Err::<Seq<char>, Seq<char>>(failure->Failed_0.message),
            )
            &&& filled.request() == Some(RequestView::Exists(config)) && filled.outcome is None
            &&& found.request() == Some(
                RequestView::CopyDirRecursive {
                    from: config,
                    to: under(platform, dir, "config"@),
                },
            ) && found.outcome is None
            &&& end.request() is None && end.outcome == done
            &&& absent.request() is None && absent.outcome == done
        }),
{
    let start = FallbackView::start(platform, extract_dir, target_dir, version);
    law_fallback_takes_the_first_free_folder(start, taken);
    lemma_all_taken(start, taken);
}

/// Law: a fallback that finds its folder taken looks at the next one, as often as there is one.
pub proof fn law_taken_folders_are_passed_over(
    platform: Platform,
    extract_dir: Seq<char>,
    target_dir: Seq<char>,
    version: Seq<char>,
    taken: nat,
)
    requires
        taken < 2147483647,
    ensures
        ({
            let start = FallbackView::start(platform, extract_dir, target_dir, version);
            &&& start.request() == Some(
                RequestView::Exists(under(platform, target_dir, version_folder(version))),
            )
            &&& after(start, all_taken(taken)).next(ReplyView::Flag(true)).request() == Some(
                RequestView::Exists(
                    under(
                        platform,
                        target_dir,
                        version_folder(version) + "-"@ + decimal((taken + 1) as nat),
                    ),
                ),
            )
        }),
{
    let start = FallbackView::start(platform, extract_dir, target_dir, version);
    law_fallback_takes_the_first_free_folder(start, taken);
    law_fallback_takes_the_first_free_folder(start, taken + 1);
    lemma_all_taken(start, taken);
}

spec fn on_the_way(
    fallback: FallbackView,
    start: FallbackView,
    asked: Seq<(RequestView, ReplyView)>,
) -> bool {
    let config = under(start.platform, start.target_dir, "config"@);
    let files = RequestView::CopyDirContents {
        from: start.extract_dir,
        to: fallback.dir(),
        skip: seq!["changes.json"@],
    };
    let carried = RequestView::CopyDirRecursive {
        from: config,
        to: under(start.platform, fallback.dir(), "config"@),
    };
    &&& fallback.well_formed()
    &&& fallback.platform == start.platform
    &&& fallback.extract_dir == start.extract_dir
    &&& fallback.target_dir == start.target_dir
    &&& fallback.folder == start.folder
    &&& match fallback.stage {
        FallbackStage::ProbeConfig => asked.contains((files, ReplyView::Done)),
        FallbackStage::CopyConfig => {
            &&& asked.contains((files, ReplyView::Done))
            &&& asked.contains((RequestView::Exists(config), ReplyView::Flag(true)))
        },
        FallbackStage::Finished => fallback.outcome->Some_0 matches Ok(dir) ==> {
            &&& dir == fallback.dir()
            &&& asked.contains((files, ReplyView::Done))
            &&& was_asked(asked, carried) || asked.last() == (
                RequestView::Exists(config),
                ReplyView::Flag(false),
            )
        },
        _ => true,
    }
}

proof fn lemma_fallback_run(start: FallbackView, replies: Seq<ReplyView>)
    requires
        start.well_formed(),
        start.stage == FallbackStage::Probe,
        runs(start, replies),
    ensures
        on_the_way(after(start, replies), start, history(start, replies)),
    decreases replies.len(),
{
    if replies.len() > 0 {
        let front = replies.drop_last();
        lemma_fallback_run(start, front);
        let a = after(start, front);
        let before = history(start, front);
        let asked = history(start, replies);
        let more = (a.request()->Some_0, replies.last());
        assert(asked == before.push(more));
        assert(asked[before.len() as int] == more);
        assert(asked.contains(more));
        let config = under(start.platform, start.target_dir, "config"@);
        let files = (
            RequestView::CopyDirContents {
                from: start.extract_dir,
                to: a.dir(),
                skip: seq!["changes.json"@],
            },
            ReplyView::Done,
        );
        let found = (RequestView::Exists(config), ReplyView::Flag(true));
        if before.contains(files) {
            let k = choose|k: int| 0 <= k < before.len() && before[k] == files;
            assert(asked[k] == files);
        }
        if before.contains(found) {
            let k = choose|k: int| 0 <= k < before.len() && before[k] == found;
            assert(asked[k] == found);
        }
        if a.stage == FallbackStage::CopyFiles {
            if replies.last() == ReplyView::Done {
                assert(more == files);
            }
        }
    }
}

/// Law: a fallback that succeeds has copied its files into the folder that it returns. It has asked to copy
/// the configuration into that folder, or its last question was whether there is one, and there is none.
pub proof fn law_configuration_is_carried_over(
    platform: Platform,
    extract_dir: Seq<char>,
    target_dir: Seq<char>,
    version: Seq<char>,
    replies: Seq<ReplyView>,
    dir: Seq<char>,
)
    requires
        runs(FallbackView::start(platform, extract_dir, target_dir, version), replies),
        after(FallbackView::start(platform, extract_dir, target_dir, version), replies).outcome
            == Some(Ok::<Seq<char>, Seq<char>>(dir)),
    ensures
        ({
            let asked = history(
                FallbackView::start(platform, extract_dir, target_dir, version),
                replies,
            );
            let config = under(platform, target_dir, "config"@);
            &&& asked.contains(
                (
                    RequestView::CopyDirContents {
                        from: extract_dir,
                        to: dir,
                        skip: seq!["changes.json"@],
                    },
                    ReplyView::Done,
                ),
            )
            &&& was_asked(
                asked,
                RequestView::CopyDirRecursive {
                    from: config,
                    to: under(platform, dir, "config"@),
                },
            ) || asked.last() == (RequestView::Exists(config), ReplyView::Flag(false))
        }),
{
    lemma_fallback_run(FallbackView::start(platform, extract_dir, target_dir, version), replies);
}

} // verus!
