//! What a survey asks for from its first step to its last, and what it finds.

use vstd::prelude::*;
use crate::changes::{has_overlap, ChangesView};
use crate::disk::{IoFailureView, ListedView, ReplyView, RequestView};
use crate::order::{law_sorted_is_an_ordered_permutation, sorted};
use crate::path::{placed, under, Platform};
use crate::plan::{read_changes, PackageView};
use crate::run::{after, Procedure};
use crate::survey::{ManifestCheckView, SurveyStage, SurveyingView};

verus! {

impl Procedure<RequestView, ReplyView> for SurveyingView {
    open spec fn asks(self) -> Option<RequestView> {
        self.request()
    }

    open spec fn takes(self, reply: ReplyView) -> bool {
        self.accepts(reply)
    }

    open spec fn told(self, reply: ReplyView) -> SurveyingView {
        self.next(reply)
    }
}

/// Whether a survey has ended with a result.
pub open spec fn found(
    v: SurveyingView,
    staging_is_dir: bool,
    target_is_dir: bool,
    package: PackageView,
) -> bool {
    &&& v.request() is None
    &&& v.survey is Some
    &&& v.survey->Some_0.staging_is_dir == staging_is_dir
    &&& v.survey->Some_0.target_is_dir == target_is_dir
    &&& v.survey->Some_0.package == package
}

/// Whether a survey has ended without a directory that must be there.
pub open spec fn found_no_dir(v: SurveyingView, staging_is_dir: bool) -> bool {
    &&& v.request() is None
    &&& v.survey is Some
    &&& v.survey->Some_0.staging_is_dir == staging_is_dir
    &&& !v.survey->Some_0.target_is_dir
}

/// Law: a survey looks for the staging directory and then for the target, and ends where one is not there.
/// Then it looks for `changes.json` in the staging directory. Without it, the staging directory is listed,
/// and the listing is the result; with it, it is read. What cannot be listed or read is the result too.
pub proof fn law_surveys_begin_with_the_directories(
    platform: Platform,
    staging: Seq<char>,
    target: Seq<char>,
    entries: Seq<ListedView>,
    failure: IoFailureView,
    error: Seq<char>,
)
    ensures
        ({
            let manifest = under(platform, staging, "changes.json"@);
            let start = SurveyingView::start(platform, staging, target);
            let staged = start.next(ReplyView::Flag(true));
            let both = staged.next(ReplyView::Flag(true));
            let full = both.next(ReplyView::Flag(false));
            let partial = both.next(ReplyView::Flag(true));
            &&& start.request() == Some(RequestView::IsDir(staging)) && start.survey is None
            &&& found_no_dir(start.next(ReplyView::Flag(false)), false)
            &&& staged.request() == Some(RequestView::IsDir(target)) && staged.survey is None
            &&& found_no_dir(staged.next(ReplyView::Flag(false)), true)
            &&& both.request() == Some(RequestView::Exists(manifest)) && both.survey is None
            &&& full.request() == Some(RequestView::ReadDir(staging)) && full.survey is None
            &&& found(
                full.next(ReplyView::Listing(entries)),
                true,
                true,
                PackageView::Full { entries },
            )
            &&& found(
                full.next(ReplyView::Failed(failure)),
                true,
                true,
                PackageView::Unlisted { error: failure.message },
            )
            &&& partial.request() == Some(RequestView::ReadManifest(manifest))
            &&& partial.survey is None
            &&& found(
                partial.next(ReplyView::Failed(failure)),
                true,
                true,
                PackageView::UnreadableManifest { error: failure.message },
            )
            &&& found(
                partial.next(ReplyView::Manifest(Err(error))),
                true,
                true,
                PackageView::InvalidManifest { error },
            )
        }),
{
}

/// Law: a look at the manifest of a package looks for `changes.json` in it and reads it where it is there.
/// Its result is what the manifest declares, or nothing where there is none; what cannot be read is reported.
pub proof fn law_manifests_are_looked_for_and_read(
    platform: Platform,
    extract_dir: Seq<char>,
    changes: ChangesView,
    failure: IoFailureView,
    error: Seq<char>,
)
    ensures
        ({
            let manifest = under(platform, extract_dir, "changes.json"@);
            let start = ManifestCheckView::start(platform, extract_dir);
            let absent = start.next(ReplyView::Flag(false));
            let there = start.next(ReplyView::Flag(true));
            let read = there.next(ReplyView::Manifest(Ok(changes)));
            let invalid = there.next(ReplyView::Manifest(Err(error)));
            let unread = there.next(ReplyView::Failed(failure));
            &&& start.request() == Some(RequestView::Exists(manifest)) && start.outcome is None
            &&& absent.request() is None
            &&& absent.outcome == Some(Ok::<Option<ChangesView>, Seq<char>>(None))
            &&& there.request() == Some(RequestView::ReadManifest(manifest))
            &&& there.outcome is None
            &&& read.request() is None
            &&& read.outcome == Some(Ok::<Option<ChangesView>, Seq<char>>(Some(changes)))
            &&& invalid.request() is None
            &&& invalid.outcome == Some(
                Err::<Option<ChangesView>, Seq<char>>("无法解析 changes.json: "@ + error),
            )
            &&& unread.request() is None
            &&& unread.outcome == Some(
                Err::<Option<ChangesView>, Seq<char>>("无法读取 changes.json: "@ + failure.message),
            )
        }),
{
}

/// The replies to some questions.
pub open spec fn flagged(flags: Seq<bool>) -> Seq<ReplyView> {
    flags.map_values(|flag: bool| ReplyView::Flag(flag))
}

/// The paths at whose places the flags are up.
pub open spec fn chosen(list: Seq<Seq<Seq<char>>>, flags: Seq<bool>) -> Seq<Seq<Seq<char>>>
    decreases flags.len(),
{
    if flags.len() == 0 {
        Seq::empty()
    } else {
        let before = chosen(list, flags.drop_last());
        if flags.last() {
            before.push(list[flags.len() - 1])
        } else {
            before
        }
    }
}

/// A survey that reads a manifest.
pub open spec fn reading(platform: Platform, staging: Seq<char>, target: Seq<char>) -> SurveyingView {
    SurveyingView::start(platform, staging, target).next(ReplyView::Flag(true)).next(
        ReplyView::Flag(true),
    ).next(ReplyView::Flag(true))
}

spec fn at_point(base: SurveyingView, flags: Seq<bool>) -> SurveyingView {
    let n = flags.len() as int;
    if n < base.sources {
        SurveyingView {
            stage: SurveyStage::Staged(n as usize),
            staged: chosen(base.declared, flags),
            ..base
        }
    } else {
        SurveyingView {
            staged: chosen(base.declared, flags.take(base.sources)),
            installed: chosen(base.declared, flags.skip(base.sources)),
            ..base
        }.looking_in_target(n - base.sources)
    }
}

proof fn lemma_points(base: SurveyingView, flags: Seq<bool>)
    requires
        base.survey is None,
        base.staged.len() == 0,
        base.installed.len() == 0,
        0 <= base.sources <= base.declared.len() <= usize::MAX,
        flags.len() <= base.sources + base.declared.len(),
    ensures
        after(base.looking_in_staging(0), flagged(flags)) == at_point(base, flags),
    decreases flags.len(),
{
    let start = base.looking_in_staging(0);
    let none: Seq<bool> = Seq::empty();
    if flags.len() == 0 {
        assert(flagged(flags) =~= Seq::empty());
        assert(flags =~= none);
        assert(chosen(base.declared, none) =~= base.staged);
        assert(base.installed =~= base.staged);
        if base.sources == 0 {
            assert(flags.take(0) =~= none);
            assert(flags.skip(0) =~= none);
        }
        assert(after(start, flagged(flags)) =~= at_point(base, flags));
    } else {
        let front = flags.drop_last();
        let n = front.len() as int;
        lemma_points(base, front);
        assert(flagged(flags).drop_last() =~= flagged(front));
        assert(flagged(flags).last() == ReplyView::Flag(flags.last()));
        let a = at_point(base, front);
        assert(after(start, flagged(flags)) == a.next(ReplyView::Flag(flags.last())));
        if n < base.sources {
            if n + 1 == base.sources {
                assert(flags.take(base.sources) =~= flags);
                assert(flags.skip(base.sources) =~= none);
                assert(chosen(base.declared, none) =~= base.installed);
            }
            assert(a.next(ReplyView::Flag(flags.last())) =~= at_point(base, flags));
        } else {
            assert(flags.take(base.sources) =~= front.take(base.sources));
            assert(flags.skip(base.sources).drop_last() =~= front.skip(base.sources));
            assert(flags.skip(base.sources).last() == flags.last());
            assert(a.next(ReplyView::Flag(flags.last())) =~= at_point(base, flags));
        }
    }
}

/// Law: once a manifest is read that is accepted, its added and modified paths are looked for in the staging
/// directory, and then all its paths in the target, each of its lists in order, the added one first and the
/// deleted one last. The result tells what the manifest declares, and which paths were found in the one
/// place and in the other. Of a manifest that is refused, nothing is looked for.
pub proof fn law_surveys_look_for_every_declared_path(
    platform: Platform,
    staging: Seq<char>,
    target: Seq<char>,
    changes: ChangesView,
    flags: Seq<bool>,
)
    ensures
        ({
            let nowhere: Seq<Seq<Seq<char>>> = Seq::empty();
            let read = reading(platform, staging, target).next(ReplyView::Manifest(Ok(changes)));
            match read_changes(platform, changes) {
                Ok(d) if !has_overlap(d.classes(platform)) => {
                    let sources = sorted(d.added) + sorted(d.modified);
                    let all = sources + sorted(d.deleted);
                    let now = after(read, flagged(flags));
                    let n = flags.len();
                    let m = sources.len();
                    all.len() <= usize::MAX ==> {
                        &&& n < m ==> now.request() == Some(
                            RequestView::Exists(placed(platform, staging, sources[n as int])),
                        ) && now.survey is None
                        &&& m <= n < m + all.len() ==> now.request() == Some(
                            RequestView::Exists(placed(platform, target, all[n - m])),
                        ) && now.survey is None
                        &&& n == m + all.len() ==> found(
                            now,
                            true,
                            true,
                            PackageView::Incremental {
                                changes,
                                staged: chosen(sources, flags.take(m as int)),
                                installed: chosen(all, flags.skip(m as int)),
                            },
                        )
                    }
                },
                _ => found(
                    read,
                    true,
                    true,
                    PackageView::Incremental { changes, staged: nowhere, installed: nowhere },
                ),
            }
        }),
{
    let nowhere: Seq<Seq<Seq<char>>> = Seq::empty();
    let before = reading(platform, staging, target);
    let read = before.next(ReplyView::Manifest(Ok(changes)));
    match read_changes(platform, changes) {
        Ok(d) if !has_overlap(d.classes(platform)) => {
            law_sorted_is_an_ordered_permutation(d.added);
            law_sorted_is_an_ordered_permutation(d.modified);
            law_sorted_is_an_ordered_permutation(d.deleted);
            let sources = sorted(d.added) + sorted(d.modified);
            let all = sources + sorted(d.deleted);
            let base = SurveyingView {
                changes,
                declared: all,
                sources: sources.len() as int,
                ..before
            };
            let m = sources.len() as int;
            assert(read == base.looking_in_staging(0));
            if all.len() <= usize::MAX && flags.len() <= m + all.len() {
                lemma_points(base, flags);
                if flags.len() < m {
                    assert(sources[flags.len() as int] == all[flags.len() as int]);
                } else {
                    lemma_chosen_of_part(sources, all, flags.take(m));
                }
            }
        },
        _ => {},
    }
}

proof fn lemma_chosen_of_part(
    part: Seq<Seq<Seq<char>>>,
    all: Seq<Seq<Seq<char>>>,
    flags: Seq<bool>,
)
    requires
        flags.len() <= part.len() <= all.len(),
        forall|i: int| 0 <= i < part.len() ==> #[trigger] part[i] == all[i],
    ensures
        chosen(part, flags) == chosen(all, flags),
    decreases flags.len(),
{
    if flags.len() > 0 {
        lemma_chosen_of_part(part, all, flags.drop_last());
        assert(part[flags.len() - 1] == all[flags.len() - 1]);
    }
}

} // verus!
