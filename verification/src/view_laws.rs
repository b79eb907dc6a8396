//! What values hold, element by element, and which replies procedures take.

use vstd::prelude::*;
use crate::archive::{
    ArchiveReply, ArchiveReplyView, ArchiveRequest, ArchiveRequestView, ExtractView,
};
use crate::artifacts::{ArtifactView, ExtractDirView};
use crate::changes::{ChangesJson, ChangesView, Classified};
use crate::cleanup::CleanupView;
use crate::copy::CopyView;
use crate::disk::{
    listing, named, IoFailure, IoFailureView, Listed, ListedView, Reply, ReplyView, Request, RequestView,
};
use crate::fallback::{folder_outcome, FallbackView};
use crate::old_files::{text_result, MoveView};
use crate::path::{paths, RelativePath};
use crate::plan::{plan_result, PlanError, PlanErrorView, Survey, UpdatePlan, UpdatePlanView};
use crate::remove::RemovalView;
use crate::rename::{rename_outcome, RenameView};
use crate::session::plain_result;
use crate::survey::{manifest_outcome, ManifestCheckView, SurveyingView};
use crate::sweep::SweepView;
use crate::text::texts;
use crate::transaction::{optional_text, outcome_view, InstallView};

verus! {

/// Law: a list holds what its elements hold, each in its place, and a record what its parts hold.
pub proof fn law_lists_hold_their_elements(
    strings: Seq<String>,
    list: Seq<RelativePath>,
    entries: Seq<Listed>,
    changes: ChangesJson,
    plan: UpdatePlan,
    survey: Survey,
    failure: IoFailure,
    classified: Classified,
    i: int,
)
    ensures
        texts(strings).len() == strings.len(),
        0 <= i < strings.len() ==> texts(strings)[i] == strings[i]@,
        paths(list).len() == list.len(),
        0 <= i < list.len() ==> paths(list)[i] == texts(list[i].parts@),
        listing(entries).len() == entries.len(),
        0 <= i < entries.len() ==> listing(entries)[i] == match entries[i] {
            Listed::Name(name) => ListedView::Name(name@),
            Listed::Failed(error) => ListedView::Failed(error@),
        },
        changes@.added == texts(changes.added@),
        changes@.modified == texts(changes.modified@),
        changes@.deleted == texts(changes.deleted@),
        plan@.backup == paths(plan.backup@),
        plan@.apply == paths(plan.apply@),
        survey@.staging_is_dir == survey.staging_is_dir,
        survey@.target_is_dir == survey.target_is_dir,
        failure@.message == failure.message@,
        failure@.raw_os_error == failure.raw_os_error,
        classified@ == (classified.key@, classified.class),
{
}

/// Law: a result holds its value or its error, and which of the two it is.
pub proof fn law_results_hold_their_values(
    text: String,
    changes: ChangesJson,
    failure: IoFailure,
    plan: UpdatePlan,
    refusal: PlanError,
)
    ensures
        optional_text(None) is None,
        optional_text(Some(text)) == Some(text@),
        outcome_view(None) is None,
        outcome_view(Some(Ok(()))) == Some(Ok::<(), Seq<char>>(())),
        outcome_view(Some(Err(text))) == Some(Err::<(), Seq<char>>(text@)),
        text_result(Ok(text)) == Ok::<Seq<char>, Seq<char>>(text@),
        text_result(Err(text)) == Err::<Seq<char>, Seq<char>>(text@),
        folder_outcome(None) is None,
        folder_outcome(Some(Ok(text))) == Some(Ok::<Seq<char>, Seq<char>>(text@)),
        folder_outcome(Some(Err(text))) == Some(Err::<Seq<char>, Seq<char>>(text@)),
        manifest_outcome(None) is None,
        manifest_outcome(Some(Ok(None))) == Some(
            Ok::<Option<ChangesView>, Seq<char>>(None),
        ),
        manifest_outcome(Some(Ok(Some(changes)))) == Some(
            Ok::<Option<ChangesView>, Seq<char>>(Some(changes@)),
        ),
        manifest_outcome(Some(Err(text))) == Some(
            Err::<Option<ChangesView>, Seq<char>>(text@),
        ),
        rename_outcome(None) is None,
        rename_outcome(Some(Ok(()))) == Some(Ok::<(), IoFailureView>(())),
        rename_outcome(Some(Err(failure))) == Some(Err::<(), IoFailureView>(failure@)),
        plain_result(Ok(())) == Ok::<(), Seq<char>>(()),
        plain_result(Err(text)) == Err::<(), Seq<char>>(text@),
        plan_result(Ok(plan)) == Ok::<UpdatePlanView, PlanErrorView>(plan@),
        plan_result(Err(refusal)) == Err::<UpdatePlanView, PlanErrorView>(refusal@),
{
}

/// Law: requests and replies hold their paths and answers.
pub proof fn law_requests_and_replies_hold_their_parts(
    path: String,
    other: String,
    skip: Vec<String>,
    millis: u64,
    flag: bool,
    entries: Vec<Listed>,
    changes: ChangesJson,
    failure: IoFailure,
)
    ensures
        Request::Exists(path)@ == RequestView::Exists(path@),
        Request::IsDir(path)@ == RequestView::IsDir(path@),
        Request::IsFile(path)@ == RequestView::IsFile(path@),
        Request::CreateDirAll(path)@ == RequestView::CreateDirAll(path@),
        Request::ReadDir(path)@ == RequestView::ReadDir(path@),
        Request::ReadManifest(path)@ == RequestView::ReadManifest(path@),
        Request::RemoveFile(path)@ == RequestView::RemoveFile(path@),
        Request::RemoveDir(path)@ == RequestView::RemoveDir(path@),
        Request::RemoveDirAll(path)@ == RequestView::RemoveDirAll(path@),
        (Request::Rename { from: path, to: other })@ == (RequestView::Rename {
            from: path@,
            to: other@,
        }),
        (Request::CopyFile { from: path, to: other })@ == (RequestView::CopyFile {
            from: path@,
            to: other@,
        }),
        Request::Sleep(millis)@ == RequestView::Sleep(millis),
        (Request::MarkCommitted { path, content: other })@ == (RequestView::MarkCommitted {
            path: path@,
            content: other@,
        }),
        (Request::RenameWithRetry { from: path, to: other })@ == (RequestView::RenameWithRetry {
            from: path@,
            to: other@,
        }),
        (Request::CopyEntry { from: path, to: other })@ == (RequestView::CopyEntry {
            from: path@,
            to: other@,
        }),
        (Request::CopyDirRecursive { from: path, to: other })@ == (RequestView::CopyDirRecursive {
            from: path@,
            to: other@,
        }),
        (Request::CopyDirContents { from: path, to: other, skip })@
            == (RequestView::CopyDirContents { from: path@, to: other@, skip: texts(skip@) }),
        Request::RemovePathIfExists(path)@ == RequestView::RemovePathIfExists(path@),
        Request::SweepCommitted(path)@ == RequestView::SweepCommitted(path@),
        Request::CleanupDirContents(path)@ == RequestView::CleanupDirContents(path@),
        Reply::Flag(flag)@ == ReplyView::Flag(flag),
        Reply::Done@ == ReplyView::Done,
        Reply::Failed(failure)@ == ReplyView::Failed(failure@),
        Reply::Listing(entries)@ == ReplyView::Listing(listing(entries@)),
        Reply::Manifest(Ok(changes))@ == ReplyView::Manifest(Ok(changes@)),
        Reply::Manifest(Err(path))@ == ReplyView::Manifest(Err(path@)),
{
}

/// Law: requests and replies of an extraction hold their paths and answers, and each request is replied to in
/// its kind: the directory of an archive by the number of its entries, the look at an entry by what it is, a
/// question by yes or no, or by a failure; everything else succeeds or fails.
pub proof fn law_archive_requests_and_replies_hold_their_parts(
    path: String,
    index: usize,
    flag: bool,
    enclosed: Option<String>,
    reply: ArchiveReplyView,
)
    ensures
        ArchiveRequest::Open(path)@ == ArchiveRequestView::Open(path@),
        ArchiveRequest::Parse@ == ArchiveRequestView::Parse,
        ArchiveRequest::CreateDirAll(path)@ == ArchiveRequestView::CreateDirAll(path@),
        ArchiveRequest::Unpack(path)@ == ArchiveRequestView::Unpack(path@),
        ArchiveRequest::ReadEntry(index)@ == ArchiveRequestView::ReadEntry(index),
        ArchiveRequest::Exists(path)@ == ArchiveRequestView::Exists(path@),
        ArchiveRequest::CreateFile(path)@ == ArchiveRequestView::CreateFile(path@),
        (ArchiveRequest::WriteEntry { index, path })@ == (ArchiveRequestView::WriteEntry {
            index,
            path: path@,
        }),
        ArchiveReply::Done@ == ArchiveReplyView::Done,
        ArchiveReply::Failed(path)@ == ArchiveReplyView::Failed(path@),
        ArchiveReply::Flag(flag)@ == ArchiveReplyView::Flag(flag),
        ArchiveReply::Entries(index)@ == ArchiveReplyView::Entries(index),
        (ArchiveReply::Entry { name: path, enclosed })@ == (ArchiveReplyView::Entry {
            name: path@,
            enclosed: optional_text(enclosed),
        }),
        ({
            let result = reply is Done || reply is Failed;
            &&& reply.answers(ArchiveRequestView::Open(path@)) == result
            &&& reply.answers(ArchiveRequestView::Parse) == (reply is Entries || reply is Failed)
            &&& reply.answers(ArchiveRequestView::CreateDirAll(path@)) == result
            &&& reply.answers(ArchiveRequestView::Unpack(path@)) == result
            &&& reply.answers(ArchiveRequestView::ReadEntry(index)) == (reply is Entry
                || reply is Failed)
            &&& reply.answers(ArchiveRequestView::Exists(path@)) == reply is Flag
            &&& reply.answers(ArchiveRequestView::CreateFile(path@)) == result
            &&& reply.answers(ArchiveRequestView::WriteEntry { index, path: path@ }) == result
        }),
{
}

/// Law: a procedure takes every reply that answers its request, and none once it is over; but a fallback
/// ends where its last folder is taken, and a cleanup where its counts are full.
pub proof fn law_procedures_take_every_answer(
    reply: ReplyView,
    extracted: ArchiveReplyView,
    extraction: ExtractView,
    artifacts: ArtifactView,
    removal: ExtractDirView,
    cleanup: CleanupView,
    copy: CopyView,
    fallback: FallbackView,
    moving: MoveView,
    removing: RemovalView,
    rename: RenameView,
    survey: SurveyingView,
    check: ManifestCheckView,
    sweep: SweepView,
    installation: InstallView,
)
    ensures
        extraction.accepts(extracted) <==> extraction.request() is Some && extracted.answers(
            extraction.request()->Some_0,
        ),
        artifacts.accepts(reply) <==> answers(reply, artifacts.request()),
        removal.accepts(reply) <==> answers(reply, removal.request()),
        copy.accepts(reply) <==> answers(reply, copy.request()),
        moving.accepts(reply) <==> answers(reply, moving.request()),
        removing.accepts(reply) <==> answers(reply, removing.request()),
        rename.accepts(reply) <==> answers(reply, rename.request()),
        survey.accepts(reply) <==> answers(reply, survey.request()),
        check.accepts(reply) <==> answers(reply, check.request()),
        sweep.accepts(reply) <==> answers(reply, sweep.request()),
        installation.accepts(reply) <==> answers(reply, installation.request()),
        answers(reply, fallback.request()) && fallback.suffix < 2147483647 ==> fallback.accepts(
            reply,
        ),
        fallback.accepts(reply) ==> answers(reply, fallback.request()),
        answers(reply, cleanup.request()) && cleanup.deleted < usize::MAX && cleanup.failed + (
        match reply {
            ReplyView::Listing(entries) => entries.len() - named(entries).len(),
            _ => 1,
        }) <= usize::MAX <==> cleanup.accepts(reply),
{
}

/// Whether a reply answers a request, where there is one.
pub open spec fn answers(reply: ReplyView, request: Option<RequestView>) -> bool {
    request is Some && reply.answers(request->Some_0)
}

} // verus!
