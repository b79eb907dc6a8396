//! What the functions of the library return, whatever they are called with.

use vstd::prelude::*;
use std::sync::Arc;
use crate::archive::{
    extract_archive, extract_zip, kind_of, kind_of_lowered, lowercase, ArchiveKind, ExtractView,
    Extraction,
};
use crate::artifacts::{
    cleanup_extract_dir, cleanup_update_artifacts, ArtifactCleanup, ArtifactView,
    ExtractDirCleanup, ExtractDirView,
};
use crate::changes::{
    classes, has_overlap, names_overlap, validate_non_overlapping_paths, ChangesError, ChangesJson,
    Classified,
};
use crate::cleanup::{cleanup_dir_contents, CleanupView, DirCleanup};
use crate::copy::{copy_dir_contents, copy_dir_recursive, copy_entry, CopyView, TreeCopy};
use crate::disk::{listing, IoFailure, Listed, Reply, Request, RequestView};
use crate::fallback::{
    fallback_update, folder_outcome, version_folder, version_folder_name, FallbackUpdate,
    FallbackView,
};
use crate::old_files::{move_file_to_old, move_to_old_folder, MoveToOld, MoveView};
use crate::order::{not_after, path_le, sort_paths, sorted};
use crate::path::{
    file_name_of, is_preserved_path, is_reserved_name, join_name, key_of, last_name, name_matches,
    normalize_relative_path, normalized, parent_dir, parent_of, path_key, paths, place, placed,
    preserved, under, PathFault, Platform, RelativePath,
};
use crate::plan::{
    build_update_plan, full_update_entries, plan_result, survey_result, Package, PackageView,
    PlanError, PlanErrorView, PreparedUpdate, Survey, SurveyView, UpdatePlan, UpdatePlanView,
};
use crate::reading_laws::{
    compared, law_five_names_are_left_alone, law_names_are_compared_as_on_the_platform,
    of_mutable_data,
};
use crate::remove::{remove_path_if_exists, PathRemoval, RemovalView};
use crate::rename::{
    is_retryable_lock_error, rename_outcome, rename_with_retry, RenameRetry, RenameView,
};
use crate::runtime::{check_open, reopens, FlagStep, UpdateCoordinator, UpdatePermit};
use crate::session::{install_prepared_update, SessionView, UpdateSession};
use crate::survey::{
    check_changes_json, manifest_outcome, survey_update, ManifestCheck, ManifestCheckView,
    Surveying, SurveyingView,
};
use crate::sweep::{cleanup_previous_committed_transactions, CommittedSweep, SweepView};
use crate::text::{decimal, texts};
use crate::transaction::{
    combine_errors, format_transaction_error, join_errors, joined_errors, optional_text,
    outcome_view, InstallView, Installation,
};
use crate::transaction_id::transaction_id;

verus! {

/// Law: an extraction starts with the package and the directory that it is given, in the format that the
/// lower-case name of the package tells.
pub proof fn law_extractions_start_as_asked(
    platform: Platform,
    kind: ArchiveKind,
    archive: String,
    dest_dir: String,
    lowered: &str,
    by_name: Extraction,
    by_kind: Extraction,
    told: ArchiveKind,
)
    requires
        call_ensures(extract_zip, (platform, archive, dest_dir), by_name),
        call_ensures(extract_archive, (platform, kind, archive, dest_dir), by_kind),
        call_ensures(kind_of_lowered, (lowered,), told),
    ensures
        by_name@ == ExtractView::start(
            platform,
            kind_of(lowercase(archive@)),
            archive@,
            dest_dir@,
        ),
        by_kind@ == ExtractView::start(platform, kind, archive@, dest_dir@),
        told == kind_of(lowered@),
{
}

/// Law: copies start with the paths that they are given. The copy of a whole directory skips nothing.
pub proof fn law_copies_start_as_asked(
    platform: Platform,
    from: &str,
    to: &str,
    skip: Vec<String>,
    entry: TreeCopy,
    contents: TreeCopy,
    whole: TreeCopy,
)
    requires
        call_ensures(copy_entry, (platform, from, to), entry),
        call_ensures(copy_dir_contents, (platform, from, to, skip), contents),
        call_ensures(copy_dir_recursive, (platform, from, to), whole),
    ensures
        entry@ == CopyView::of_entry(platform, from@, to@),
        contents@ == CopyView::of_contents(platform, from@, to@, texts(skip@)),
        whole@ == CopyView::of_contents(platform, from@, to@, Seq::empty()),
{
}

/// Law: cleanups and sweeps start with the directories that they are given.
pub proof fn law_cleanups_start_as_asked(
    platform: Platform,
    target_dir: &str,
    dir: &str,
    artifacts: ArtifactCleanup,
    extracted: ExtractDirCleanup,
    cleanup: DirCleanup,
    sweep: CommittedSweep,
    removal: PathRemoval,
)
    requires
        call_ensures(cleanup_update_artifacts, (platform, target_dir, dir), artifacts),
        call_ensures(cleanup_extract_dir, (dir,), extracted),
        call_ensures(cleanup_dir_contents, (platform, dir), cleanup),
        call_ensures(cleanup_previous_committed_transactions, (platform, dir), sweep),
        call_ensures(remove_path_if_exists, (dir,), removal),
    ensures
        artifacts@ == ArtifactView::start(platform, target_dir@, dir@),
        extracted@ == ExtractDirView::start(dir@),
        cleanup@ == CleanupView::start(platform, dir@),
        sweep@ == SweepView::start(platform, dir@),
        removal@ == RemovalView::start(dir@),
{
}

/// Law: renames and moves to the old files start with the paths that they are given.
pub proof fn law_moves_start_as_asked(
    platform: Platform,
    from: &str,
    to: &str,
    path: String,
    exe_dir: String,
    error: String,
    rename: RenameRetry,
    moving: MoveToOld,
    moved: MoveToOld,
    lost: MoveToOld,
)
    requires
        call_ensures(rename_with_retry, (platform, from, to), rename),
        call_ensures(move_to_old_folder, (platform, from, Ok(exe_dir)), moving),
        call_ensures(move_file_to_old, (platform, path, Ok(exe_dir)), moved),
        call_ensures(move_file_to_old, (platform, path, Err(error)), lost),
    ensures
        rename@ == RenameView::start(platform, from@, to@),
        moving@ == MoveView::start(platform, from@, Ok(exe_dir@)),
        moved@ == MoveView::start(platform, path@, Ok(exe_dir@)),
        lost@ == MoveView::start(platform, path@, Err(error@)),
{
}

/// Law: a fallback, a survey, a look at a manifest and an update start with what they are given.
pub proof fn law_updates_start_as_asked(
    platform: Platform,
    extract_dir: String,
    target_dir: String,
    version: String,
    staging: &str,
    target: &str,
    fallback: FallbackUpdate,
    survey: Surveying,
    check: ManifestCheck,
    session: UpdateSession,
    folder: String,
)
    requires
        call_ensures(fallback_update, (platform, extract_dir, target_dir, version), fallback),
        call_ensures(survey_update, (platform, staging, target), survey),
        call_ensures(check_changes_json, (platform, staging), check),
        call_ensures(install_prepared_update, (extract_dir, target_dir), session),
        call_ensures(version_folder_name, (staging,), folder),
    ensures
        fallback@ == FallbackView::start(platform, extract_dir@, target_dir@, version@),
        survey@ == SurveyingView::start(platform, staging@, target@),
        check@ == ManifestCheckView::start(platform, staging@),
        session@ == SessionView::start(extract_dir@, target_dir@),
        folder@ == version_folder(staging@),
{
}

/// Law: names are told apart, and what updates leave alone is told, as the platform compares names.
pub proof fn law_names_are_told_apart(
    platform: Platform,
    name: &str,
    other: &str,
    same: bool,
    reserved: bool,
)
    requires
        call_ensures(name_matches, (platform, name, other), same),
        call_ensures(is_reserved_name, (platform, name), reserved),
    ensures
        same <==> compared(platform, name@) == compared(platform, other@),
        reserved <==> of_mutable_data(platform, name@),
{
    law_names_are_compared_as_on_the_platform(platform, name@, other@);
    law_five_names_are_left_alone(platform, name@);
}

/// Law: declared paths are read, keyed and placed as their texts tell.
pub proof fn law_paths_are_read_as_told(
    platform: Platform,
    raw: &str,
    base: &str,
    path: &RelativePath,
    read: Result<RelativePath, PathFault>,
    key: String,
    preserves: bool,
    there: String,
    below: String,
    parent: Option<String>,
    name: Option<String>,
)
    requires
        call_ensures(normalize_relative_path, (platform, raw), read),
        call_ensures(path_key, (platform, path), key),
        call_ensures(is_preserved_path, (platform, path), preserves),
        call_ensures(place, (platform, base, path), there),
        call_ensures(join_name, (platform, base, raw), below),
        call_ensures(parent_dir, (platform, raw), parent),
        call_ensures(file_name_of, (platform, raw), name),
    ensures
        read matches Ok(found) ==> normalized(platform, raw@) == Ok::<Seq<Seq<char>>, PathFault>(
            found@,
        ),
        read matches Err(fault) ==> normalized(platform, raw@) == Err::<Seq<Seq<char>>, PathFault>(
            fault,
        ),
        key@ == key_of(platform, path@),
        preserves == preserved(platform, path@),
        there@ == placed(platform, base@, path@),
        below@ == under(platform, base@, raw@),
        optional_text(parent) == parent_of(platform, raw@),
        optional_text(name) == last_name(platform, raw@),
{
}

/// Law: what is decided by one value: whether a lock can pass, whether an operation may go on, and whether the
/// runtime is opened again.
pub proof fn law_decisions_are_as_told(
    platform: Platform,
    code: Option<i32>,
    flag: bool,
    retry: bool,
    open: Result<(), String>,
    again: bool,
)
    requires
        call_ensures(is_retryable_lock_error, (platform, code), retry),
        call_ensures(check_open, (flag,), open),
        call_ensures(reopens, (flag,), again),
    ensures
        retry <==> platform == Platform::Windows && (code == Some(32i32) || code == Some(33i32)),
        open is Ok <==> !flag,
        open matches Err(message) ==> message@ == "Update in progress"@,
        again <==> !flag,
{
}

/// Law: errors are joined with `; ` between them, a report of a failure names what could not be undone behind
/// it, and a transaction is called by its moment and its process.
pub proof fn law_texts_are_put_together_as_told(
    errors: &Vec<String>,
    a: String,
    b: String,
    stamp: &str,
    process: u32,
    joined: Option<String>,
    both: Option<String>,
    first: Option<String>,
    second: Option<String>,
    neither: Option<String>,
    report: String,
    plain: String,
    id: String,
)
    requires
        call_ensures(join_errors, (errors,), joined),
        call_ensures(combine_errors, (Some(a), Some(b)), both),
        call_ensures(combine_errors, (Some(a), None), first),
        call_ensures(combine_errors, (None, Some(b)), second),
        call_ensures(combine_errors, (None, None), neither),
        call_ensures(format_transaction_error, (a, Some(b)), report),
        call_ensures(format_transaction_error, (a, None), plain),
        call_ensures(transaction_id, (stamp, process), id),
    ensures
        optional_text(joined) == joined_errors(texts(errors@)),
        optional_text(both) == Some(a@ + "; "@ + b@),
        optional_text(first) == Some(a@),
        optional_text(second) == Some(b@),
        neither is None,
        report@ == a@ + "; 回滚也失败: "@ + b@,
        plain@ == a@,
        id@ == stamp@ + "-"@ + decimal(process as nat),
{
}

/// Whether a request is the one that is expected.
pub open spec fn shown(request: Option<Request>, expected: Option<RequestView>) -> bool {
    match (request, expected) {
        (Some(asked), Some(wanted)) => asked@ == wanted,
        (None, None) => true,
        _ => false,
    }
}

/// Law: what a procedure asks for is its next request, and whether it goes on with a reply is whether it takes
/// that reply.
pub proof fn law_procedures_ask_for_what_is_next(
    reply: &Reply,
    artifacts: &ArtifactCleanup,
    extracted: &ExtractDirCleanup,
    cleanup: &DirCleanup,
    copy: &TreeCopy,
    fallback: &FallbackUpdate,
    moving: &MoveToOld,
    removal: &PathRemoval,
    rename: &RenameRetry,
    survey: &Surveying,
    check: &ManifestCheck,
    sweep: &CommittedSweep,
    installation: &Installation,
    requests: Seq<Option<Request>>,
    taken: Seq<bool>,
)
    requires
        call_ensures(ArtifactCleanup::request, (artifacts,), requests[0]),
        call_ensures(ArtifactCleanup::accepts, (artifacts, reply), taken[0]),
        call_ensures(ExtractDirCleanup::request, (extracted,), requests[1]),
        call_ensures(ExtractDirCleanup::accepts, (extracted, reply), taken[1]),
        call_ensures(DirCleanup::request, (cleanup,), requests[2]),
        call_ensures(DirCleanup::accepts, (cleanup, reply), taken[2]),
        call_ensures(TreeCopy::request, (copy,), requests[3]),
        call_ensures(TreeCopy::accepts, (copy, reply), taken[3]),
        call_ensures(FallbackUpdate::request, (fallback,), requests[4]),
        call_ensures(FallbackUpdate::accepts, (fallback, reply), taken[4]),
        call_ensures(MoveToOld::request, (moving,), requests[5]),
        call_ensures(MoveToOld::accepts, (moving, reply), taken[5]),
        call_ensures(PathRemoval::request, (removal,), requests[6]),
        call_ensures(PathRemoval::accepts, (removal, reply), taken[6]),
        call_ensures(RenameRetry::request, (rename,), requests[7]),
        call_ensures(RenameRetry::accepts, (rename, reply), taken[7]),
        call_ensures(Surveying::request, (survey,), requests[8]),
        call_ensures(Surveying::accepts, (survey, reply), taken[8]),
        call_ensures(ManifestCheck::request, (check,), requests[9]),
        call_ensures(ManifestCheck::accepts, (check, reply), taken[9]),
        call_ensures(CommittedSweep::request, (sweep,), requests[10]),
        call_ensures(CommittedSweep::accepts, (sweep, reply), taken[10]),
        call_ensures(Installation::request, (installation,), requests[11]),
        call_ensures(Installation::accepts, (installation, reply), taken[11]),
    ensures
        shown(requests[0], artifacts@.request()),
        taken[0] == artifacts@.accepts(reply@),
        shown(requests[1], extracted@.request()),
        taken[1] == extracted@.accepts(reply@),
        shown(requests[2], cleanup@.request()),
        taken[2] == cleanup@.accepts(reply@),
        shown(requests[3], copy@.request()),
        taken[3] == copy@.accepts(reply@),
        shown(requests[4], fallback@.request()),
        taken[4] == fallback@.accepts(reply@),
        shown(requests[5], moving@.request()),
        taken[5] == moving@.accepts(reply@),
        shown(requests[6], removal@.request()),
        taken[6] == removal@.accepts(reply@),
        shown(requests[7], rename@.request()),
        taken[7] == rename@.accepts(reply@),
        shown(requests[8], survey@.request()),
        taken[8] == survey@.accepts(reply@),
        shown(requests[9], check@.request()),
        taken[9] == check@.accepts(reply@),
        shown(requests[10], sweep@.request()),
        taken[10] == sweep@.accepts(reply@),
        shown(requests[11], installation@.request()),
        taken[11] == installation@.accepts(reply@),
{
}

/// Law: what a procedure has come to is what it tells.
pub proof fn law_procedures_tell_what_they_have_come_to(
    extraction: Extraction,
    extracted: ExtractDirCleanup,
    cleanup: DirCleanup,
    copy: TreeCopy,
    fallback: FallbackUpdate,
    moving: MoveToOld,
    removal: PathRemoval,
    rename: RenameRetry,
    survey: Surveying,
    check: ManifestCheck,
    installation: Installation,
    plain: Seq<Option<Result<(), String>>>,
    folder: Option<Result<String, String>>,
    renamed: Option<Result<(), IoFailure>>,
    manifest: Option<Result<Option<ChangesJson>, String>>,
    counts: (usize, usize),
    found: Option<Survey>,
)
    requires
        call_ensures(Extraction::outcome, (extraction,), plain[0]),
        call_ensures(ExtractDirCleanup::outcome, (extracted,), plain[1]),
        call_ensures(TreeCopy::outcome, (copy,), plain[2]),
        call_ensures(MoveToOld::outcome, (moving,), plain[3]),
        call_ensures(PathRemoval::outcome, (removal,), plain[4]),
        call_ensures(Installation::outcome, (installation,), plain[5]),
        call_ensures(FallbackUpdate::outcome, (fallback,), folder),
        call_ensures(RenameRetry::outcome, (rename,), renamed),
        call_ensures(ManifestCheck::outcome, (check,), manifest),
        call_ensures(DirCleanup::counts, (&cleanup,), counts),
        call_ensures(Surveying::survey, (survey,), found),
    ensures
        outcome_view(plain[0]) == extraction@.outcome,
        outcome_view(plain[1]) == extracted@.outcome,
        outcome_view(plain[2]) == copy@.outcome,
        outcome_view(plain[3]) == moving@.outcome,
        outcome_view(plain[4]) == removal@.outcome,
        outcome_view(plain[5]) == installation@.outcome,
        folder_outcome(folder) == fallback@.outcome,
        rename_outcome(renamed) == rename@.outcome,
        manifest_outcome(manifest) == check@.outcome,
        counts.0 == cleanup@.deleted && counts.1 == cleanup@.failed,
        found is Some <==> survey@.survey is Some,
        found matches Some(result) ==> survey@.survey == Some(result@),
{
}

/// Law: an update is prepared as its survey has it, and is installed in a transaction of the given name.
pub proof fn law_updates_are_prepared_as_surveyed(
    platform: Platform,
    staging: &str,
    target: &str,
    survey: &Survey,
    prepared: Result<PreparedUpdate, String>,
    update: PreparedUpdate,
    id: &str,
    installation: Installation,
)
    requires
        call_ensures(PreparedUpdate::prepare, (platform, staging, target, survey), prepared),
        call_ensures(PreparedUpdate::install_as, (update, id), installation),
    ensures
        prepared matches Ok(ready) ==> {
            &&& ready.platform == platform
            &&& ready.staging@ == staging@
            &&& ready.target@ == target@
            &&& survey_result(platform, staging@, target@, survey@, Ok(ready.plan@))
        },
        prepared matches Err(message) ==> exists|error: PlanErrorView| #[trigger]
            survey_result(platform, staging@, target@, survey@, Err(error)) && message@
                == error.text(),
        installation@ == InstallView::start(update, id@),
{
}

/// Law: plans are made, and lists are checked and sorted, as what they are made of tells.
pub proof fn law_plans_are_made_as_told(
    platform: Platform,
    staging: &str,
    target: &str,
    package: &Package,
    entries: &Vec<Listed>,
    classified: &Vec<Classified>,
    a: &RelativePath,
    b: &RelativePath,
    list: &Vec<RelativePath>,
    plan: Result<UpdatePlan, PlanError>,
    full: Result<Vec<RelativePath>, String>,
    valid: Result<(), ChangesError>,
    before: bool,
    in_order: Vec<RelativePath>,
)
    requires
        call_ensures(build_update_plan, (platform, staging, target, package), plan),
        call_ensures(full_update_entries, (platform, entries), full),
        call_ensures(validate_non_overlapping_paths, (classified,), valid),
        call_ensures(not_after, (a, b), before),
        call_ensures(sort_paths, (list,), in_order),
    ensures
        survey_result(
            platform,
            staging@,
            target@,
            SurveyView { staging_is_dir: true, target_is_dir: true, package: package@ },
            plan_result(plan),
        ),
        full matches Ok(found) ==> survey_result(
            platform,
            staging@,
            target@,
            SurveyView {
                staging_is_dir: true,
                target_is_dir: true,
                package: PackageView::Full { entries: listing(entries@) },
            },
            Ok(UpdatePlanView { backup: paths(found@), apply: paths(found@) }),
        ),
        valid is Ok <==> !has_overlap(classes(classified@)),
        valid matches Err(error) ==> names_overlap(error@, classes(classified@)),
        before == path_le(a@, b@),
        paths(in_order@) == sorted(paths(list@)),
{
}

/// Law: operations and updates are let in by what they find of the flag. An operation that is let in has the
/// share that it came with, and an update that begins has raised the flag and holds the whole of the lock.
pub proof fn law_flag_is_gone_by(
    coordinator: &Arc<UpdateCoordinator>,
    shared: tokio::sync::OwnedRwLockReadGuard<()>,
    whole: tokio::sync::OwnedRwLockWriteGuard<()>,
    lock: Result<Arc<tokio::sync::RwLock<()>>, String>,
    waited: Result<tokio::sync::OwnedRwLockReadGuard<()>, String>,
    at_once: Result<tokio::sync::OwnedRwLockReadGuard<()>, String>,
    begun: Result<UpdatePermit, String>,
    running: bool,
)
    requires
        call_ensures(UpdateCoordinator::operation_lock, (coordinator,), lock),
        call_ensures(UpdateCoordinator::runtime_operation, (coordinator, shared), waited),
        call_ensures(UpdateCoordinator::try_runtime_operation, (coordinator,), at_once),
        call_ensures(UpdateCoordinator::begin_update, (*coordinator, whole), begun),
        call_ensures(UpdateCoordinator::is_update_in_progress, (&**coordinator,), running),
    ensures
        lock matches Ok(had) ==> had == coordinator.lock() && coordinator.reads(false),
        lock matches Err(message) ==> message@ == "Update in progress"@ && coordinator.reads(true),
        waited matches Ok(had) ==> had == shared && coordinator.reads(false),
        waited matches Err(message) ==> message@ == "Update in progress"@ && coordinator.reads(
            true,
        ),
        at_once matches Ok(had) ==> coordinator.shares(Ok(had)) && coordinator.reads(false),
        at_once matches Err(message) ==> message@ == "Update in progress"@ && (coordinator.reads(
            true,
        ) || exists|error: tokio::sync::TryLockError| coordinator.shares(Err(error))),
        begun matches Ok(permit) ==> {
            &&& permit@.coordinator == *coordinator
            &&& permit@.share == whole
            &&& !permit@.keeps_closed
            &&& exists|held: bool| #[trigger] coordinator.takes(FlagStep::Claim(Ok(held)))
        },
        begun matches Err(message) ==> message@ == "Update already in progress"@ && exists|
            held: bool,
        | #[trigger] coordinator.takes(FlagStep::Claim(Err(held))),
        coordinator.reads(running),
{
}

} // verus!
