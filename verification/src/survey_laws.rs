//! What holds of the result of a survey, where the disk tells the truth.

use vstd::prelude::*;
use crate::changes::{has_overlap, ChangesErrorView};
use crate::disk::{ReplyView, RequestView};
use crate::install_laws::nothing_below;
use crate::order::{law_sorted_is_an_ordered_permutation, sorted};
use crate::plan::{read_changes, Declared};
use crate::plan_laws::{all_paths, truthful};
use crate::survey::{ManifestCheckView, SurveyStage, SurveyingView};

verus! {

/// Whether a request leaves the disk as it is.
pub open spec fn only_reads(request: RequestView) -> bool {
    match request {
        RequestView::Exists(_) | RequestView::IsDir(_) | RequestView::ReadDir(_)
        | RequestView::ReadManifest(_) => true,
        _ => false,
    }
}

/// Law: an update is surveyed without a change to the disk, so that one that is refused leaves no
/// transaction behind; and so is a package looked at for its manifest.
pub proof fn law_surveys_only_read(survey: SurveyingView, check: ManifestCheckView)
    ensures
        survey.request() matches Some(request) ==> only_reads(request),
        check.request() matches Some(request) ==> only_reads(request),
{
}

/// Whether a reply tells the truth about the files of the target and about the staging directory: where a
/// declared path is not there, no file is there, and a listing names every entry once.
pub open spec fn tells_truth(
    survey: SurveyingView,
    reply: ReplyView,
    target: Map<Seq<Seq<char>>, Seq<u8>>,
) -> bool {
    match survey.stage {
        SurveyStage::Installed(i) => reply == ReplyView::Flag(false) ==> nothing_below(
            target,
            survey.declared[i as int],
        ),
        SurveyStage::List => reply matches ReplyView::Listing(entries) ==> entries.no_duplicates(),
        _ => true,
    }
}

/// Whether one moment of a survey can follow another.
pub open spec fn survey_follows(
    a: SurveyingView,
    b: SurveyingView,
    target: Map<Seq<Seq<char>>, Seq<u8>>,
) -> bool {
    exists|reply: ReplyView|
        {
            &&& #[trigger] a.accepts(reply)
            &&& b == a.next(reply)
            &&& tells_truth(a, reply, target)
        }
}

/// Whether the moment at `i` of a sequence of moments can be followed by the next one.
pub open spec fn survey_follows_at(
    run: Seq<SurveyingView>,
    i: int,
    target: Map<Seq<Seq<char>>, Seq<u8>>,
) -> bool {
    survey_follows(run[i], run[i + 1], target)
}

/// Whether a sequence of moments is a run of a survey, over the files of a target.
pub open spec fn is_survey_run(
    run: Seq<SurveyingView>,
    target: Map<Seq<Seq<char>>, Seq<u8>>,
) -> bool {
    &&& run.len() > 0
    &&& run[0] == SurveyingView::start(run[0].platform, run[0].staging, run[0].target)
    &&& forall|i: int| 0 <= i < run.len() - 1 ==> #[trigger] survey_follows_at(run, i, target)
}

/// Whether a survey looks for the paths that its manifest declares.
spec fn looks_for(survey: SurveyingView, declared: Declared) -> bool {
    &&& read_changes(survey.platform, survey.changes) == Ok::<Declared, ChangesErrorView>(declared)
    &&& survey.declared == sorted(declared.added) + sorted(declared.modified) + sorted(
        declared.deleted,
    )
}

/// Whether the first declared paths were found in the target, or are not there.
spec fn first_found(
    survey: SurveyingView,
    n: int,
    target: Map<Seq<Seq<char>>, Seq<u8>>,
) -> bool {
    forall|j: int|
        0 <= j < n ==> survey.installed.contains(#[trigger] survey.declared[j]) || nothing_below(
            target,
            survey.declared[j],
        )
}

/// What holds at each moment of a survey.
spec fn survey_sound(survey: SurveyingView, target: Map<Seq<Seq<char>>, Seq<u8>>) -> bool {
    &&& survey.well_formed()
    &&& match survey.stage {
        SurveyStage::Staged(_) => exists|d: Declared| looks_for(survey, d),
        SurveyStage::Installed(i) => first_found(survey, i as int, target) && exists|d: Declared|
            looks_for(survey, d),
        SurveyStage::Finished => truthful(survey.platform, survey.survey->Some_0, target),
        _ => true,
    }
}

proof fn lemma_sorted_has_all(d: Declared, p: Seq<Seq<char>>)
    requires
        all_paths(d).contains(p),
    ensures
        (sorted(d.added) + sorted(d.modified) + sorted(d.deleted)).contains(p),
{
    let lists = sorted(d.added) + sorted(d.modified) + sorted(d.deleted);
    let a = d.added.len();
    let m = a + d.modified.len();
    law_sorted_is_an_ordered_permutation(d.added);
    law_sorted_is_an_ordered_permutation(d.modified);
    law_sorted_is_an_ordered_permutation(d.deleted);
    let k = choose|k: int| 0 <= k < all_paths(d).len() && all_paths(d)[k] == p;
    if k < a {
        assert(d.added[k] == p);
        assert(sorted(d.added).contains(p));
        let j = choose|j: int| 0 <= j < sorted(d.added).len() && sorted(d.added)[j] == p;
        assert(lists[j] == p);
    } else if k < m {
        assert(d.modified[k - a] == p);
        assert(sorted(d.modified).contains(p));
        let j = choose|j: int| 0 <= j < sorted(d.modified).len() && sorted(d.modified)[j] == p;
        assert(lists[sorted(d.added).len() + j] == p);
    } else {
        assert(d.deleted[k - m] == p);
        assert(sorted(d.deleted).contains(p));
        let j = choose|j: int| 0 <= j < sorted(d.deleted).len() && sorted(d.deleted)[j] == p;
        assert(lists[sorted(d.added).len() + sorted(d.modified).len() + j] == p);
    }
}

proof fn lemma_settled_is_truthful(
    survey: SurveyingView,
    d: Declared,
    target: Map<Seq<Seq<char>>, Seq<u8>>,
)
    requires
        looks_for(survey, d),
        first_found(survey, survey.declared.len() as int, target),
    ensures
        truthful(survey.platform, survey.settled().survey->Some_0, target),
{
    let all = all_paths(d);
    assert forall|i: int|
        0 <= i < all.len() && !survey.installed.contains(#[trigger] all[i]) implies nothing_below(
        target,
        all[i],
    ) by {
        assert(all.contains(all[i]));
        lemma_sorted_has_all(d, all[i]);
        let j = choose|j: int| 0 <= j < survey.declared.len() && survey.declared[j] == all[i];
        assert(survey.installed.contains(survey.declared[j]) || nothing_below(
            target,
            survey.declared[j],
        ));
    }
}

proof fn lemma_looking_in_target(
    survey: SurveyingView,
    n: int,
    d: Declared,
    target: Map<Seq<Seq<char>>, Seq<u8>>,
)
    requires
        survey.declared.len() <= usize::MAX,
        0 <= survey.sources <= survey.declared.len(),
        survey.survey is None,
        0 <= n <= survey.declared.len(),
        looks_for(survey, d),
        first_found(survey, n, target),
    ensures
        survey_sound(survey.looking_in_target(n), target),
{
    let after = survey.looking_in_target(n);
    if n < survey.declared.len() {
        assert(looks_for(after, d));
    } else {
        lemma_settled_is_truthful(survey, d, target);
    }
}

proof fn lemma_survey_step(
    a: SurveyingView,
    reply: ReplyView,
    target: Map<Seq<Seq<char>>, Seq<u8>>,
)
    requires
        survey_sound(a, target),
        a.accepts(reply),
        tells_truth(a, reply, target),
        a.next(reply).well_formed(),
    ensures
        survey_sound(a.next(reply), target),
{
    match a.stage {
        SurveyStage::ReadManifest => {
            if let ReplyView::Manifest(Ok(changes)) = reply {
                if let Ok(d) = read_changes(a.platform, changes) {
                    if !has_overlap(d.classes(a.platform)) {
                        law_sorted_is_an_ordered_permutation(d.added);
                        law_sorted_is_an_ordered_permutation(d.modified);
                        law_sorted_is_an_ordered_permutation(d.deleted);
                        let begun = SurveyingView {
                            changes,
                            declared: sorted(d.added) + sorted(d.modified) + sorted(d.deleted),
                            sources: (d.added.len() + d.modified.len()) as int,
                            ..a
                        };
                        assert(looks_for(begun, d));
                        if begun.sources > 0 {
                            assert(looks_for(begun.looking_in_staging(0), d));
                        } else {
                            lemma_looking_in_target(begun, 0, d, target);
                        }
                    }
                }
            }
        },
        SurveyStage::Staged(i) => {
            let d = choose|d: Declared| looks_for(a, d);
            let now = if reply == ReplyView::Flag(true) {
                SurveyingView { staged: a.staged.push(a.declared[i as int]), ..a }
            } else {
                a
            };
            assert(looks_for(now, d));
            if i + 1 < a.sources {
                assert(looks_for(now.looking_in_staging(i + 1), d));
            } else {
                lemma_looking_in_target(now, 0, d, target);
            }
        },
        SurveyStage::Installed(i) => {
            let d = choose|d: Declared| looks_for(a, d);
            let p = a.declared[i as int];
            let now = if reply == ReplyView::Flag(true) {
                SurveyingView { installed: a.installed.push(p), ..a }
            } else {
                a
            };
            assert(looks_for(now, d));
            assert forall|j: int| 0 <= j < i + 1 implies now.installed.contains(
                #[trigger] now.declared[j],
            ) || nothing_below(target, now.declared[j]) by {
                if j < i {
                    if a.installed.contains(a.declared[j]) {
                        let k = choose|k: int|
                            0 <= k < a.installed.len() && a.installed[k] == a.declared[j];
                        assert(now.installed[k] == a.declared[j]);
                    }
                } else if reply == ReplyView::Flag(true) {
                    assert(now.installed[a.installed.len() as int] == p);
                } else {
                    assert(reply == ReplyView::Flag(false));
                }
            }
            lemma_looking_in_target(now, i + 1, d, target);
        },
        _ => {},
    }
}

/// Law: where the disk tells the truth, so does a survey.
pub proof fn law_survey_is_truthful(
    run: Seq<SurveyingView>,
    target: Map<Seq<Seq<char>>, Seq<u8>>,
)
    requires
        is_survey_run(run, target),
        forall|i: int| 0 <= i < run.len() ==> (#[trigger] run[i]).well_formed(),
        run.last().survey is Some,
    ensures
        truthful(run.last().platform, run.last().survey->Some_0, target),
{
    lemma_survey_run(run, run.len() - 1, target);
}

proof fn lemma_survey_run(
    run: Seq<SurveyingView>,
    n: int,
    target: Map<Seq<Seq<char>>, Seq<u8>>,
)
    requires
        is_survey_run(run, target),
        forall|i: int| 0 <= i < run.len() ==> (#[trigger] run[i]).well_formed(),
        0 <= n < run.len(),
    ensures
        survey_sound(run[n], target),
    decreases n,
{
    assert(run[0].well_formed());
    if n > 0 {
        lemma_survey_run(run, n - 1, target);
        assert(survey_follows_at(run, n - 1, target));
        let a = run[n - 1];
        let reply = choose|reply: ReplyView|
            {
                &&& #[trigger] a.accepts(reply)
                &&& run[n] == a.next(reply)
                &&& tells_truth(a, reply, target)
            };
        assert(run[n].well_formed());
        lemma_survey_step(a, reply, target);
    }
}

} // verus!
