//! What an update moves aside and what it puts in place.

use vstd::prelude::*;
use crate::changes::{
    classes, has_overlap, labelled, names_overlap, normalize_paths, read_list,
    validate_non_overlapping_paths, ChangesError, ChangesErrorView, ChangesJson, ChangesView,
    Classification, Classified,
};
use crate::disk::{listing, Listed, ListedView};
use crate::order::{sort_paths, sorted};
use crate::path::{
    is_reserved_name, join_name, lemma_paths_push, name_matches, names_match, paths, place, placed,
    reserved_name, under, Platform, RelativePath,
};
use crate::text::{report_at, same_text, texts};

verus! {

/// The paths that an update moves aside, and those that it then copies in.
#[derive(Debug)]
pub struct UpdatePlan {
    pub backup: Vec<RelativePath>,
    pub apply: Vec<RelativePath>,
}

/// What an [`UpdatePlan`] holds.
pub struct UpdatePlanView {
    pub backup: Seq<Seq<Seq<char>>>,
    pub apply: Seq<Seq<Seq<char>>>,
}

impl View for UpdatePlan {
    type V = UpdatePlanView;

    open spec fn view(&self) -> UpdatePlanView {
        UpdatePlanView { backup: paths(self.backup@), apply: paths(self.apply@) }
    }
}

/// What was found of the package in the staging directory.
#[derive(Debug)]
pub enum Package {
    /// There is no `changes.json`, and the staging directory could not be listed.
    Unlisted { error: String },
    /// There is no `changes.json`; these are the entries of the staging directory.
    Full { entries: Vec<Listed> },
    /// `changes.json` could not be read.
    UnreadableManifest { error: String },
    /// `changes.json` does not hold what it should.
    InvalidManifest { error: String },
    /// What `changes.json` declares, and which of the paths that it declares exist in the staging
    /// directory and in the target.
    Incremental {
        changes: ChangesJson,
        staged: Vec<RelativePath>,
        installed: Vec<RelativePath>,
    },
}

/// What a [`Package`] holds.
pub enum PackageView {
    Unlisted { error: Seq<char> },
    Full { entries: Seq<ListedView> },
    UnreadableManifest { error: Seq<char> },
    InvalidManifest { error: Seq<char> },
    Incremental {
        changes: ChangesView,
        staged: Seq<Seq<Seq<char>>>,
        installed: Seq<Seq<Seq<char>>>,
    },
}

impl View for Package {
    type V = PackageView;

    open spec fn view(&self) -> PackageView {
        match self {
            Package::Unlisted { error } => PackageView::Unlisted { error: error@ },
            Package::Full { entries } => PackageView::Full { entries: listing(entries@) },
            Package::UnreadableManifest { error } => PackageView::UnreadableManifest {
                error: error@,
            },
            Package::InvalidManifest { error } => PackageView::InvalidManifest { error: error@ },
            Package::Incremental { changes, staged, installed } => PackageView::Incremental {
                changes: changes@,
                staged: paths(staged@),
                installed: paths(installed@),
            },
        }
    }
}

/// What was found of an update before it is planned.
#[derive(Debug)]
pub struct Survey {
    pub staging_is_dir: bool,
    pub target_is_dir: bool,
    pub package: Package,
}

/// What a [`Survey`] holds.
pub struct SurveyView {
    pub staging_is_dir: bool,
    pub target_is_dir: bool,
    pub package: PackageView,
}

impl View for Survey {
    type V = SurveyView;

    open spec fn view(&self) -> SurveyView {
        SurveyView {
            staging_is_dir: self.staging_is_dir,
            target_is_dir: self.target_is_dir,
            package: self.package@,
        }
    }
}

/// Why no update is planned.
#[derive(Debug)]
pub enum PlanError {
    StagingMissing { path: String },
    TargetMissing { path: String },
    StagingUnreadable { path: String, error: String },
    EntryUnreadable { error: String },
    ManifestUnreadable { path: String, error: String },
    ManifestInvalid { path: String, error: String },
    Changes(ChangesError),
    SourceMissing { path: String },
    AddedExists { path: String },
    ModifiedMissing { path: String },
}

/// What a [`PlanError`] holds.
pub enum PlanErrorView {
    StagingMissing { path: Seq<char> },
    TargetMissing { path: Seq<char> },
    StagingUnreadable { path: Seq<char>, error: Seq<char> },
    EntryUnreadable { error: Seq<char> },
    ManifestUnreadable { path: Seq<char>, error: Seq<char> },
    ManifestInvalid { path: Seq<char>, error: Seq<char> },
    Changes(ChangesErrorView),
    SourceMissing { path: Seq<char> },
    AddedExists { path: Seq<char> },
    ModifiedMissing { path: Seq<char> },
}

impl View for PlanError {
    type V = PlanErrorView;

    open spec fn view(&self) -> PlanErrorView {
        match self {
            PlanError::StagingMissing { path } => PlanErrorView::StagingMissing { path: path@ },
            PlanError::TargetMissing { path } => PlanErrorView::TargetMissing { path: path@ },
            PlanError::StagingUnreadable { path, error } => PlanErrorView::StagingUnreadable {
                path: path@,
                error: error@,
            },
            PlanError::EntryUnreadable { error } => PlanErrorView::EntryUnreadable {
                error: error@,
            },
            PlanError::ManifestUnreadable { path, error } => PlanErrorView::ManifestUnreadable {
                path: path@,
                error: error@,
            },
            PlanError::ManifestInvalid { path, error } => PlanErrorView::ManifestInvalid {
                path: path@,
                error: error@,
            },
            PlanError::Changes(error) => PlanErrorView::Changes(error@),
            PlanError::SourceMissing { path } => PlanErrorView::SourceMissing { path: path@ },
            PlanError::AddedExists { path } => PlanErrorView::AddedExists { path: path@ },
            PlanError::ModifiedMissing { path } => PlanErrorView::ModifiedMissing { path: path@ },
        }
    }
}

impl PlanErrorView {
    /// The text that reports the error.
    pub open spec fn text(self) -> Seq<char> {
        match self {
            PlanErrorView::StagingMissing { path } => "更新暂存目录不存在: ["@ + path + "]"@,
            PlanErrorView::TargetMissing { path } => "更新目标目录不存在: ["@ + path + "]"@,
            PlanErrorView::StagingUnreadable { path, error } => "无法读取更新暂存目录 ["@ + path + "]: "@
                + error,
            PlanErrorView::EntryUnreadable { error } => "无法读取更新暂存目录条目: "@ + error,
            PlanErrorView::ManifestUnreadable { path, error } => "无法读取 changes.json ["@ + path
                + "]: "@ + error,
            PlanErrorView::ManifestInvalid { path, error } => "无法解析 changes.json ["@ + path + "]: "@
                + error,
            PlanErrorView::Changes(error) => error.text(),
            PlanErrorView::SourceMissing { path } => "changes.json 声明的新文件不存在: ["@ + path + "]"@,
            PlanErrorView::AddedExists { path } => "changes.json 将已存在路径声明为 added: ["@ + path + "]"@,
            PlanErrorView::ModifiedMissing { path } => "changes.json 将不存在路径声明为 modified: ["@ + path
                + "]"@,
        }
    }
}

/// A text with another one in brackets behind it.
fn bracketed(before: &str, inside: &str) -> (res: String)
    ensures
        res@ == before@ + inside@ + "]"@,
{
    let mut res = before.to_owned();
    res.append(inside);
    res.append("]");
    res
}

impl PlanError {
    /// The text that reports the error.
    pub fn message(&self) -> (res: String)
        ensures
            res@ == self@.text(),
    {
        match self {
            PlanError::StagingMissing { path } => bracketed("更新暂存目录不存在: [", path.as_str()),
            PlanError::TargetMissing { path } => bracketed("更新目标目录不存在: [", path.as_str()),
            PlanError::StagingUnreadable { path, error } => report_at(
                "无法读取更新暂存目录 [",
                path.as_str(),
                error.as_str(),
            ),
            PlanError::EntryUnreadable { error } => {
                let mut res = "无法读取更新暂存目录条目: ".to_owned();
                res.append(error.as_str());
                res
            },
            PlanError::ManifestUnreadable { path, error } => report_at(
                "无法读取 changes.json [",
                path.as_str(),
                error.as_str(),
            ),
            PlanError::ManifestInvalid { path, error } => report_at(
                "无法解析 changes.json [",
                path.as_str(),
                error.as_str(),
            ),
            PlanError::Changes(error) => error.message(),
            PlanError::SourceMissing { path } => bracketed(
                "changes.json 声明的新文件不存在: [",
                path.as_str(),
            ),
            PlanError::AddedExists { path } => bracketed(
                "changes.json 将已存在路径声明为 added: [",
                path.as_str(),
            ),
            PlanError::ModifiedMissing { path } => bracketed(
                "changes.json 将不存在路径声明为 modified: [",
                path.as_str(),
            ),
        }
    }
}

/// Whether a full update leaves an entry of the staging directory out.
pub open spec fn left_out(platform: Platform, name: Seq<char>) -> bool {
    names_match(platform, name, "changes.json"@) || reserved_name(platform, name)
}

/// The entries of the staging directory that a full update installs, in the order in which they
/// were listed; or the first error in the listing.
pub open spec fn full_entries(platform: Platform, entries: Seq<ListedView>) -> Result<
    Seq<Seq<Seq<char>>>,
    Seq<char>,
>
    decreases entries.len(),
{
    if entries.len() == 0 {
        Ok(Seq::empty())
    } else {
        match full_entries(platform, entries.drop_last()) {
            Err(error) => Err(error),
            Ok(before) => match entries.last() {
                ListedView::Failed(error) => Err(error),
                ListedView::Name(name) => if left_out(platform, name) {
                    Ok(before)
                } else {
                    Ok(before.push(seq![name]))
                },
            },
        }
    }
}

proof fn lemma_first_listing_error(platform: Platform, entries: Seq<ListedView>, n: int)
    requires
        0 <= n <= entries.len(),
        full_entries(platform, entries.take(n)) is Err,
    ensures
        full_entries(platform, entries) == full_entries(platform, entries.take(n)),
    decreases entries.len() - n,
{
    if n == entries.len() {
        assert(entries.take(n) =~= entries);
    } else {
        assert(entries.take(n + 1).drop_last() =~= entries.take(n));
        lemma_first_listing_error(platform, entries, n + 1);
    }
}

/// The entries of the staging directory that a full update installs: all but the manifest and what
/// updates leave alone.
pub fn full_update_entries(platform: Platform, entries: &Vec<Listed>) -> (res: Result<
    Vec<RelativePath>,
    String,
>)
    ensures
        match (res, full_entries(platform, listing(entries@))) {
            (Ok(list), Ok(expected)) => paths(list@) == sorted(expected),
            (Err(error), Err(expected)) => error@ == expected,
            _ => false,
        },
{
    let mut found: Vec<RelativePath> = Vec::new();
    let ghost all = listing(entries@);
    let mut i: usize = 0;
    proof {
        assert(all.take(0) =~= Seq::<ListedView>::empty());
        assert(paths(found@) =~= Seq::<Seq<Seq<char>>>::empty());
    }
    while i < entries.len()
        invariant
            i <= entries@.len(),
            all == listing(entries@),
            full_entries(platform, all.take(i as int)) == Ok::<Seq<Seq<Seq<char>>>, Seq<char>>(
                paths(found@),
            ),
        decreases entries.len() - i,
    {
        proof {
            assert(all.take(i + 1).drop_last() =~= all.take(i as int));
            assert(all.take(i + 1).last() == entries@[i as int]@);
        }
        match &entries[i] {
            Listed::Failed(error) => {
                proof {
                    lemma_first_listing_error(platform, all, i + 1);
                }
                return Err(error.clone());
            },
            Listed::Name(name) => {
                if !name_matches(platform, name.as_str(), "changes.json") && !is_reserved_name(
                    platform,
                    name.as_str(),
                ) {
                    let mut parts: Vec<String> = Vec::new();
                    parts.push(name.clone());
                    let path = RelativePath { parts };
                    proof {
                        assert(path@ =~= seq![name@]);
                        lemma_paths_push(found@, path);
                    }
                    found.push(path);
                }
            },
        }
        i = i + 1;
    }
    proof {
        assert(all.take(i as int) =~= all);
    }
    Ok(sort_paths(&found))
}

/// The first of some paths whose presence in `known` is as asked.
pub open spec fn first_with(
    list: Seq<Seq<Seq<char>>>,
    known: Seq<Seq<Seq<char>>>,
    present: bool,
) -> Option<Seq<Seq<char>>>
    decreases list.len(),
{
    if list.len() == 0 {
        None
    } else if first_with(list.drop_last(), known, present) is Some {
        first_with(list.drop_last(), known, present)
    } else if known.contains(list.last()) == present {
        Some(list.last())
    } else {
        None
    }
}

/// The paths of some that are among the known ones.
pub open spec fn among(list: Seq<Seq<Seq<char>>>, known: Seq<Seq<Seq<char>>>) -> Seq<
    Seq<Seq<char>>,
> {
    list.filter(|p: Seq<Seq<char>>| known.contains(p))
}

proof fn lemma_first_with(
    list: Seq<Seq<Seq<char>>>,
    known: Seq<Seq<Seq<char>>>,
    present: bool,
    i: int,
)
    requires
        0 <= i < list.len(),
        known.contains(list[i]) == present,
        forall|j: int| 0 <= j < i ==> known.contains(#[trigger] list[j]) != present,
    ensures
        first_with(list, known, present) == Some(list[i]),
    decreases list.len(),
{
    if i == list.len() - 1 {
        lemma_first_with_none(list.drop_last(), known, present);
    } else {
        lemma_first_with(list.drop_last(), known, present, i);
    }
}

/// No path is the first of its kind exactly where none is of that kind.
pub proof fn lemma_first_with_none(
    list: Seq<Seq<Seq<char>>>,
    known: Seq<Seq<Seq<char>>>,
    present: bool,
)
    ensures
        first_with(list, known, present) is None <==> forall|j: int|
            0 <= j < list.len() ==> known.contains(#[trigger] list[j]) != present,
    decreases list.len(),
{
    if list.len() > 0 {
        lemma_first_with_none(list.drop_last(), known, present);
        if first_with(list, known, present) is None {
            assert forall|j: int| 0 <= j < list.len() implies known.contains(#[trigger] list[j])
                != present by {
                if j < list.len() - 1 {
                    assert(list.drop_last()[j] == list[j]);
                }
            }
        } else if first_with(list.drop_last(), known, present) is Some {
            let j = choose|j: int|
                0 <= j < list.drop_last().len() && known.contains(
                    #[trigger] list.drop_last()[j],
                ) == present;
            assert(list[j] == list.drop_last()[j]);
        } else {
            assert(known.contains(list[list.len() - 1]) == present);
        }
    }
}

/// Whether two paths have the same components.
fn same_path(a: &RelativePath, b: &RelativePath) -> (res: bool)
    ensures
        res == (a@ == b@),
{
    if a.parts.len() != b.parts.len() {
        assert(a@.len() != b@.len());
        return false;
    }
    let mut i: usize = 0;
    while i < a.parts.len()
        invariant
            i <= a.parts@.len() == b.parts@.len(),
            forall|j: int| 0 <= j < i ==> a@[j] == b@[j],
        decreases a.parts.len() - i,
    {
        if !same_text(a.parts[i].as_str(), b.parts[i].as_str()) {
            assert(a@[i as int] != b@[i as int]);
            return false;
        }
        i = i + 1;
    }
    assert(a@ =~= b@);
    true
}

/// Whether a path is among the known ones.
fn is_known(known: &Vec<RelativePath>, path: &RelativePath) -> (res: bool)
    ensures
        res == paths(known@).contains(path@),
{
    let mut i: usize = 0;
    while i < known.len()
        invariant
            i <= known@.len(),
            forall|j: int| 0 <= j < i ==> #[trigger] paths(known@)[j] != path@,
        decreases known.len() - i,
    {
        if same_path(&known[i], path) {
            assert(paths(known@)[i as int] == path@);
            return true;
        }
        i = i + 1;
    }
    false
}

/// The first of some paths whose presence among the known ones is as asked.
fn find_first_with(list: &Vec<RelativePath>, known: &Vec<RelativePath>, present: bool) -> (res:
    Option<RelativePath>)
    ensures
        match (res, first_with(paths(list@), paths(known@), present)) {
            (Some(path), Some(expected)) => path@ == expected,
            (None, None) => true,
            _ => false,
        },
{
    let mut i: usize = 0;
    while i < list.len()
        invariant
            i <= list@.len(),
            forall|j: int|
                0 <= j < i ==> paths(known@).contains(#[trigger] paths(list@)[j]) != present,
        decreases list.len() - i,
    {
        if is_known(known, &list[i]) == present {
            proof {
                assert(paths(list@)[i as int] == list@[i as int]@);
                lemma_first_with(paths(list@), paths(known@), present, i as int);
            }
            return Some(list[i].clone());
        }
        i = i + 1;
    }
    proof {
        lemma_first_with_none(paths(list@), paths(known@), present);
    }
    None
}

/// The paths of some that are among the known ones.
fn keep_known(list: &Vec<RelativePath>, known: &Vec<RelativePath>) -> (res: Vec<RelativePath>)
    ensures
        paths(res@) == among(paths(list@), paths(known@)),
{
    let mut res: Vec<RelativePath> = Vec::new();
    let ghost all = paths(list@);
    let ghost kept = |p: Seq<Seq<char>>| paths(known@).contains(p);
    let mut i: usize = 0;
    proof {
        reveal_with_fuel(Seq::filter, 1);
        assert(paths(res@) =~= all.take(0).filter(kept));
    }
    while i < list.len()
        invariant
            i <= list@.len(),
            all == paths(list@),
            kept == (|p: Seq<Seq<char>>| paths(known@).contains(p)),
            paths(res@) == all.take(i as int).filter(kept),
        decreases list.len() - i,
    {
        let path = list[i].clone();
        proof {
            assert(all.take(i + 1) =~= all.take(i as int).push(path@));
            all.take(i as int).lemma_filter_push(path@, kept);
        }
        if is_known(known, &path) {
            proof {
                lemma_paths_push(res@, path);
            }
            res.push(path);
        }
        i = i + 1;
    }
    proof {
        assert(all.take(i as int) =~= all);
    }
    res
}

/// Two lists of paths, one behind the other.
pub fn chain(first: &Vec<RelativePath>, second: &Vec<RelativePath>) -> (res: Vec<RelativePath>)
    ensures
        paths(res@) == paths(first@) + paths(second@),
{
    let mut res: Vec<RelativePath> = Vec::new();
    let mut i: usize = 0;
    while i < first.len()
        invariant
            i <= first@.len(),
            paths(res@) == paths(first@).take(i as int),
        decreases first.len() - i,
    {
        let path = first[i].clone();
        proof {
            lemma_paths_push(res@, path);
            assert(paths(first@).take(i + 1) =~= paths(first@).take(i as int).push(path@));
        }
        res.push(path);
        i = i + 1;
    }
    let mut j: usize = 0;
    proof {
        assert(paths(first@).take(i as int) =~= paths(first@));
        assert(paths(res@) =~= paths(first@) + paths(second@).take(0));
    }
    while j < second.len()
        invariant
            j <= second@.len(),
            paths(res@) == paths(first@) + paths(second@).take(j as int),
        decreases second.len() - j,
    {
        let path = second[j].clone();
        proof {
            lemma_paths_push(res@, path);
            assert(paths(first@) + paths(second@).take(j + 1) =~= (paths(first@) + paths(
                second@,
            ).take(j as int)).push(path@));
        }
        res.push(path);
        j = j + 1;
    }
    proof {
        assert(paths(second@).take(j as int) =~= paths(second@));
    }
    res
}

/// The paths that a manifest declares, each list in its order.
pub struct Declared {
    pub added: Seq<Seq<Seq<char>>>,
    pub modified: Seq<Seq<Seq<char>>>,
    pub deleted: Seq<Seq<Seq<char>>>,
}

impl Declared {
    /// The keys of all declared paths with the lists they stand in.
    pub open spec fn classes(self, platform: Platform) -> Seq<(Seq<char>, Classification)> {
        labelled(platform, Classification::Added, self.added) + labelled(
            platform,
            Classification::Modified,
            self.modified,
        ) + labelled(platform, Classification::Deleted, self.deleted)
    }
}

/// The paths that a manifest declares, or the first error in its lists.
pub open spec fn read_changes(platform: Platform, changes: ChangesView) -> Result<
    Declared,
    ChangesErrorView,
> {
    match read_list(platform, Classification::Added, changes.added, Seq::empty()) {
        Err(error) => Err(error),
        Ok(added) => {
            let first = labelled(platform, Classification::Added, added);
            match read_list(platform, Classification::Modified, changes.modified, first) {
                Err(error) => Err(error),
                Ok(modified) => {
                    let second = first + labelled(platform, Classification::Modified, modified);
                    match read_list(
                        platform,
                        Classification::Deleted,
                        changes.deleted,
                        second,
                    ) {
                        Err(error) => Err(error),
                        Ok(deleted) => Ok(Declared { added, modified, deleted }),
                    }
                },
            }
        },
    }
}

/// The plan for what a manifest declares, where `staged` and `installed` are the declared paths that
/// exist in the staging directory and in the target: every new or changed file must be staged, no
/// new file may be there yet, and every changed file must be there. What changed, and what is to be
/// deleted and is there, is moved aside; what changed and what is new is copied in.
pub open spec fn settled(
    platform: Platform,
    staging: Seq<char>,
    target: Seq<char>,
    declared: Declared,
    staged: Seq<Seq<Seq<char>>>,
    installed: Seq<Seq<Seq<char>>>,
) -> Result<UpdatePlanView, PlanErrorView> {
    let added = sorted(declared.added);
    let modified = sorted(declared.modified);
    let deleted = sorted(declared.deleted);
    match first_with(added + modified, staged, false) {
        Some(path) => Err(
            PlanErrorView::SourceMissing { path: placed(platform, staging, path) },
        ),
        None => match first_with(added, installed, true) {
            Some(path) => Err(PlanErrorView::AddedExists { path: placed(platform, target, path) }),
            None => match first_with(modified, installed, false) {
                Some(path) => Err(
                    PlanErrorView::ModifiedMissing { path: placed(platform, target, path) },
                ),
                None => Ok(
                    UpdatePlanView {
                        backup: sorted(modified + among(deleted, installed)),
                        apply: sorted(modified + added),
                    },
                ),
            },
        },
    }
}

/// Whether a result is the one that a manifest leads to.
pub open spec fn incremental_result(
    platform: Platform,
    staging: Seq<char>,
    target: Seq<char>,
    changes: ChangesView,
    staged: Seq<Seq<Seq<char>>>,
    installed: Seq<Seq<Seq<char>>>,
    result: Result<UpdatePlanView, PlanErrorView>,
) -> bool {
    match read_changes(platform, changes) {
        Err(error) => result == Err::<UpdatePlanView, PlanErrorView>(PlanErrorView::Changes(error)),
        Ok(declared) => if has_overlap(declared.classes(platform)) {
            result matches Err(PlanErrorView::Changes(error)) && names_overlap(
                error,
                declared.classes(platform),
            )
        } else {
            result == settled(platform, staging, target, declared, staged, installed)
        },
    }
}

/// What a result holds.
pub open spec fn plan_result(result: Result<UpdatePlan, PlanError>) -> Result<
    UpdatePlanView,
    PlanErrorView,
> {
    match result {
        Ok(plan) => Ok(plan@),
        Err(error) => Err(error@),
    }
}

/// The paths that a manifest declares: the added, the modified and the deleted ones, each in order.
pub fn declared_paths(platform: Platform, changes: &ChangesJson) -> (res: Result<
    (Vec<RelativePath>, Vec<RelativePath>, Vec<RelativePath>),
    ChangesError,
>)
    ensures
        match (res, read_changes(platform, changes@)) {
            (Err(error), Err(expected)) => error@ == expected,
            (Err(error), Ok(expected)) => has_overlap(expected.classes(platform)) && names_overlap(
                error@,
                expected.classes(platform),
            ),
            (Ok(lists), Ok(expected)) => {
                &&& !has_overlap(expected.classes(platform))
                &&& paths(lists.0@) == sorted(expected.added)
                &&& paths(lists.1@) == sorted(expected.modified)
                &&& paths(lists.2@) == sorted(expected.deleted)
            },
            _ => false,
        },
{
    let mut classifications: Vec<Classified> = Vec::new();
    proof {
        assert(classes(classifications@) =~= Seq::empty());
    }
    let added = match normalize_paths(
        platform,
        Classification::Added,
        &changes.added,
        &mut classifications,
    ) {
        Ok(list) => list,
        Err(error) => return Err(error),
    };
    let ghost first = read_list(
        platform,
        Classification::Added,
        texts(changes.added@),
        Seq::empty(),
    )->Ok_0;
    proof {
        assert(classes(classifications@) =~= labelled(platform, Classification::Added, first));
    }
    let modified = match normalize_paths(
        platform,
        Classification::Modified,
        &changes.modified,
        &mut classifications,
    ) {
        Ok(list) => list,
        Err(error) => return Err(error),
    };
    let deleted = match normalize_paths(
        platform,
        Classification::Deleted,
        &changes.deleted,
        &mut classifications,
    ) {
        Ok(list) => list,
        Err(error) => return Err(error),
    };
    proof {
        assert(classes(classifications@) == read_changes(platform, changes@)->Ok_0.classes(
            platform,
        ));
    }
    match validate_non_overlapping_paths(&classifications) {
        Ok(()) => Ok((added, modified, deleted)),
        Err(error) => Err(error),
    }
}

/// Plans an incremental update, from the declared paths that exist in the staging directory and in
/// the target.
pub fn build_incremental_plan(
    platform: Platform,
    staging: &str,
    target: &str,
    changes: &ChangesJson,
    staged: &Vec<RelativePath>,
    installed: &Vec<RelativePath>,
) -> (res: Result<UpdatePlan, PlanError>)
    ensures
        incremental_result(
            platform,
            staging@,
            target@,
            changes@,
            paths(staged@),
            paths(installed@),
            plan_result(res),
        ),
{
    let (added, modified, deleted) = match declared_paths(platform, changes) {
        Ok(lists) => lists,
        Err(error) => return Err(PlanError::Changes(error)),
    };
    if let Some(path) = find_first_with(&chain(&added, &modified), staged, false) {
        return Err(PlanError::SourceMissing { path: place(platform, staging, &path) });
    }
    if let Some(path) = find_first_with(&added, installed, true) {
        return Err(PlanError::AddedExists { path: place(platform, target, &path) });
    }
    if let Some(path) = find_first_with(&modified, installed, false) {
        return Err(PlanError::ModifiedMissing { path: place(platform, target, &path) });
    }
    let backup = sort_paths(&chain(&modified, &keep_known(&deleted, installed)));
    let apply = sort_paths(&chain(&modified, &added));
    Ok(UpdatePlan { backup, apply })
}

/// Whether a result is the one that a package leads to.
pub open spec fn package_result(
    platform: Platform,
    staging: Seq<char>,
    target: Seq<char>,
    package: PackageView,
    result: Result<UpdatePlanView, PlanErrorView>,
) -> bool {
    match package {
        PackageView::Unlisted { error } => result == Err::<UpdatePlanView, PlanErrorView>(
            PlanErrorView::StagingUnreadable { path: staging, error },
        ),
        PackageView::Full { entries } => match full_entries(platform, entries) {
            Err(error) => result == Err::<UpdatePlanView, PlanErrorView>(
                PlanErrorView::EntryUnreadable { error },
            ),
            Ok(list) => result == Ok::<UpdatePlanView, PlanErrorView>(
                UpdatePlanView { backup: sorted(list), apply: sorted(list) },
            ),
        },
        PackageView::UnreadableManifest { error } => result == Err::<
            UpdatePlanView,
            PlanErrorView,
        >(
            PlanErrorView::ManifestUnreadable {
                path: under(platform, staging, "changes.json"@),
                error,
            },
        ),
        PackageView::InvalidManifest { error } => result == Err::<UpdatePlanView, PlanErrorView>(
            PlanErrorView::ManifestInvalid {
                path: under(platform, staging, "changes.json"@),
                error,
            },
        ),
        PackageView::Incremental { changes, staged, installed } => incremental_result(
            platform,
            staging,
            target,
            changes,
            staged,
            installed,
            result,
        ),
    }
}

/// Plans an update. Without a manifest, the update replaces every entry of the staging directory
/// but what updates leave alone; with one, it does what the manifest declares.
pub fn build_update_plan(platform: Platform, staging: &str, target: &str, package: &Package) -> (res:
    Result<UpdatePlan, PlanError>)
    ensures
        package_result(platform, staging@, target@, package@, plan_result(res)),
{
    match package {
        Package::Unlisted { error } => Err(
            PlanError::StagingUnreadable { path: staging.to_owned(), error: error.clone() },
        ),
        Package::Full { entries } => match full_update_entries(platform, entries) {
            Ok(list) => {
                let backup = chain(&list, &Vec::new());
                proof {
                    assert(paths(backup@) =~= paths(list@));
                }
                Ok(UpdatePlan { backup, apply: list })
            },
            Err(error) => Err(PlanError::EntryUnreadable { error }),
        },
        Package::UnreadableManifest { error } => Err(
            PlanError::ManifestUnreadable {
                path: join_name(platform, staging, "changes.json"),
                error: error.clone(),
            },
        ),
        Package::InvalidManifest { error } => Err(
            PlanError::ManifestInvalid {
                path: join_name(platform, staging, "changes.json"),
                error: error.clone(),
            },
        ),
        Package::Incremental { changes, staged, installed } => build_incremental_plan(
            platform,
            staging,
            target,
            changes,
            staged,
            installed,
        ),
    }
}

/// An update whose paths and manifest have been checked, ready to be installed.
#[derive(Debug)]
pub struct PreparedUpdate {
    pub platform: Platform,
    pub staging: String,
    pub target: String,
    pub plan: UpdatePlan,
}

/// Whether planning an update can come to a result.
pub open spec fn survey_result(
    platform: Platform,
    staging: Seq<char>,
    target: Seq<char>,
    survey: SurveyView,
    result: Result<UpdatePlanView, PlanErrorView>,
) -> bool {
    if !survey.staging_is_dir {
        result == Err::<UpdatePlanView, PlanErrorView>(
            PlanErrorView::StagingMissing { path: staging },
        )
    } else if !survey.target_is_dir {
        result == Err::<UpdatePlanView, PlanErrorView>(
            PlanErrorView::TargetMissing { path: target },
        )
    } else {
        package_result(platform, staging, target, survey.package, result)
    }
}

impl PreparedUpdate {
    /// Checks an update and plans it, from what was found of it. Both directories must be there.
    pub fn prepare(platform: Platform, staging: &str, target: &str, survey: &Survey) -> (res: Result<
        Self,
        String,
    >)
        ensures
            match res {
                Ok(prepared) => {
                    &&& prepared.platform == platform
                    &&& prepared.staging@ == staging@
                    &&& prepared.target@ == target@
                    &&& survey_result(platform, staging@, target@, survey@, Ok(prepared.plan@))
                },
                Err(message) => exists|error: PlanErrorView|
                    {
                        &&& #[trigger] survey_result(platform, staging@, target@, survey@, Err(error))
                        &&& message@ == error.text()
                    },
            },
    {
        if !survey.staging_is_dir {
            let error = PlanError::StagingMissing { path: staging.to_owned() };
            let ghost witness = error@;
            assert(survey_result(platform, staging@, target@, survey@, Err(witness)));
            return Err(error.message());
        }
        if !survey.target_is_dir {
            let error = PlanError::TargetMissing { path: target.to_owned() };
            let ghost witness = error@;
            assert(survey_result(platform, staging@, target@, survey@, Err(witness)));
            return Err(error.message());
        }
        match build_update_plan(platform, staging, target, &survey.package) {
            Ok(plan) => Ok(
                PreparedUpdate {
                    platform,
                    staging: staging.to_owned(),
                    target: target.to_owned(),
                    plan,
                },
            ),
            Err(error) => {
                let ghost witness = error@;
                assert(survey_result(platform, staging@, target@, survey@, Err(witness)));
                Err(error.message())
            },
        }
    }
}

} // verus!
