//! Finding out what an update is made of, before it is planned.

use vstd::prelude::*;
use crate::changes::{has_overlap, ChangesJson, ChangesView};
use crate::disk::{Listed, Reply, ReplyView, Request, RequestView};
use crate::order::sorted;
use crate::path::{join_name, lemma_paths_push, paths, place, placed, under, Platform, RelativePath};
use crate::plan::{
    chain, declared_paths, read_changes, Package, PackageView, Survey, SurveyView,
};

verus! {

/// How far a survey has come.
#[derive(Clone, Copy, Debug, PartialEq, Eq, Structural)]
pub enum SurveyStage {
    /// Looking whether the staging directory is there.
    StagingDir,
    /// Looking whether the target is there.
    TargetDir,
    /// Looking whether there is a manifest.
    ProbeManifest,
    /// Listing the staging directory.
    List,
    /// Reading the manifest.
    ReadManifest,
    /// Looking whether a declared path is staged.
    Staged(usize),
    /// Looking whether a declared path is in the target.
    Installed(usize),
    /// The survey is over.
    Finished,
}

/// A survey under way.
#[derive(Debug)]
pub struct Surveying {
    platform: Platform,
    staging: String,
    target: String,
    stage: SurveyStage,
    /// What the manifest declares, once it is read.
    changes: ChangesJson,
    /// The paths that the manifest declares: the added, the modified and the deleted ones.
    declared: Vec<RelativePath>,
    /// How many of them are to be staged: the added and the modified ones.
    sources: usize,
    staged: Vec<RelativePath>,
    installed: Vec<RelativePath>,
    survey: Option<Survey>,
}

/// What a [`Surveying`] holds.
#[verifier::ext_equal]
pub struct SurveyingView {
    pub platform: Platform,
    pub staging: Seq<char>,
    pub target: Seq<char>,
    pub stage: SurveyStage,
    pub changes: ChangesView,
    pub declared: Seq<Seq<Seq<char>>>,
    pub sources: int,
    pub staged: Seq<Seq<Seq<char>>>,
    pub installed: Seq<Seq<Seq<char>>>,
    pub survey: Option<SurveyView>,
}

impl View for Surveying {
    type V = SurveyingView;

    closed spec fn view(&self) -> SurveyingView {
        SurveyingView {
            platform: self.platform,
            staging: self.staging@,
            target: self.target@,
            stage: self.stage,
            changes: self.changes@,
            declared: paths(self.declared@),
            sources: self.sources as int,
            staged: paths(self.staged@),
            installed: paths(self.installed@),
            survey: match self.survey {
                Some(survey) => Some(survey@),
                None => None,
            },
        }
    }
}

/// A manifest that declares nothing.
pub open spec fn no_changes() -> ChangesView {
    ChangesView { added: Seq::empty(), modified: Seq::empty(), deleted: Seq::empty() }
}

impl SurveyingView {
    /// A survey before its first step.
    pub open spec fn start(
        platform: Platform,
        staging: Seq<char>,
        target: Seq<char>,
    ) -> SurveyingView {
        SurveyingView {
            platform,
            staging,
            target,
            stage: SurveyStage::StagingDir,
            changes: no_changes(),
            declared: Seq::empty(),
            sources: 0,
            staged: Seq::empty(),
            installed: Seq::empty(),
            survey: None,
        }
    }

    /// Whether the stage names a path that there is, and the survey is over just where it has a result.
    pub open spec fn well_formed(self) -> bool {
        &&& self.declared.len() <= usize::MAX
        &&& 0 <= self.sources <= self.declared.len()
        &&& match self.stage {
            SurveyStage::Staged(i) => i < self.sources,
            SurveyStage::Installed(i) => i < self.declared.len(),
            _ => true,
        }
        &&& self.stage == SurveyStage::Finished <==> self.survey is Some
    }

    /// Where the manifest is looked for.
    pub open spec fn manifest(self) -> Seq<char> {
        under(self.platform, self.staging, "changes.json"@)
    }

    /// The next request; none when the survey is over.
    pub open spec fn request(self) -> Option<RequestView> {
        match self.stage {
            SurveyStage::StagingDir => Some(RequestView::IsDir(self.staging)),
            SurveyStage::TargetDir => Some(RequestView::IsDir(self.target)),
            SurveyStage::ProbeManifest => Some(RequestView::Exists(self.manifest())),
            SurveyStage::List => Some(RequestView::ReadDir(self.staging)),
            SurveyStage::ReadManifest => Some(RequestView::ReadManifest(self.manifest())),
            SurveyStage::Staged(i) => Some(
                RequestView::Exists(
                    placed(self.platform, self.staging, self.declared[i as int]),
                ),
            ),
            SurveyStage::Installed(i) => Some(
                RequestView::Exists(placed(self.platform, self.target, self.declared[i as int])),
            ),
            SurveyStage::Finished => None,
        }
    }

    /// Whether a reply is one that the next request can have.
    pub open spec fn accepts(self, reply: ReplyView) -> bool {
        self.request() matches Some(request) && reply.answers(request)
    }

    /// The survey at another stage.
    pub open spec fn at(self, stage: SurveyStage) -> SurveyingView {
        SurveyingView { stage, ..self }
    }

    /// The survey that has ended.
    pub open spec fn ended(
        self,
        staging_is_dir: bool,
        target_is_dir: bool,
        package: PackageView,
    ) -> SurveyingView {
        SurveyingView {
            stage: SurveyStage::Finished,
            survey: Some(SurveyView { staging_is_dir, target_is_dir, package }),
            ..self
        }
    }

    /// The survey that has ended with what was found of the declared paths.
    pub open spec fn settled(self) -> SurveyingView {
        self.ended(
            true,
            true,
            PackageView::Incremental {
                changes: self.changes,
                staged: self.staged,
                installed: self.installed,
            },
        )
    }

    /// Going on to look for a declared path in the target, or ending where none is left.
    pub open spec fn looking_in_target(self, i: int) -> SurveyingView {
        if i < self.declared.len() {
            self.at(SurveyStage::Installed(i as usize))
        } else {
            self.settled()
        }
    }

    /// Going on to look for a declared path in the staging directory, or in the target where none is left.
    pub open spec fn looking_in_staging(self, i: int) -> SurveyingView {
        if i < self.sources {
            self.at(SurveyStage::Staged(i as usize))
        } else {
            self.looking_in_target(0)
        }
    }

    /// Going on with what a manifest declares. Where the manifest is refused, there is nothing to look for.
    pub open spec fn declaring(self, changes: ChangesView) -> SurveyingView {
        match read_changes(self.platform, changes) {
            Ok(declared) => if has_overlap(declared.classes(self.platform)) {
                SurveyingView { changes, ..self }.settled()
            } else {
                SurveyingView {
                    changes,
                    declared: sorted(declared.added) + sorted(declared.modified) + sorted(
                        declared.deleted,
                    ),
                    sources: (declared.added.len() + declared.modified.len()) as int,
                    ..self
                }.looking_in_staging(0)
            },
            Err(_) => SurveyingView { changes, ..self }.settled(),
        }
    }

    /// The survey after a reply to its request.
    pub open spec fn next(self, reply: ReplyView) -> SurveyingView {
        let nothing = PackageView::Full { entries: Seq::empty() };
        match self.stage {
            SurveyStage::StagingDir => match reply {
                ReplyView::Flag(true) => self.at(SurveyStage::TargetDir),
                _ => self.ended(false, false, nothing),
            },
            SurveyStage::TargetDir => match reply {
                ReplyView::Flag(true) => self.at(SurveyStage::ProbeManifest),
                _ => self.ended(true, false, nothing),
            },
            SurveyStage::ProbeManifest => match reply {
                ReplyView::Flag(true) => self.at(SurveyStage::ReadManifest),
                _ => self.at(SurveyStage::List),
            },
            SurveyStage::List => match reply {
                ReplyView::Listing(entries) => self.ended(true, true, PackageView::Full { entries }),
                ReplyView::Failed(f) => self.ended(
                    true,
                    true,
                    PackageView::Unlisted { error: f.message },
                ),
                _ => self,
            },
            SurveyStage::ReadManifest => match reply {
                ReplyView::Manifest(Ok(changes)) => self.declaring(changes),
                ReplyView::Manifest(Err(error)) => self.ended(
                    true,
                    true,
                    PackageView::InvalidManifest { error },
                ),
                ReplyView::Failed(f) => self.ended(
                    true,
                    true,
                    PackageView::UnreadableManifest { error: f.message },
                ),
                _ => self,
            },
            SurveyStage::Staged(i) => match reply {
                ReplyView::Flag(true) => SurveyingView {
                    staged: self.staged.push(self.declared[i as int]),
                    ..self
                }.looking_in_staging(i + 1),
                _ => self.looking_in_staging(i + 1),
            },
            SurveyStage::Installed(i) => match reply {
                ReplyView::Flag(true) => SurveyingView {
                    installed: self.installed.push(self.declared[i as int]),
                    ..self
                }.looking_in_target(i + 1),
                _ => self.looking_in_target(i + 1),
            },
            SurveyStage::Finished => self,
        }
    }
}

proof fn lemma_sorted_lengths(platform: Platform, changes: ChangesView)
    requires
        read_changes(platform, changes) is Ok,
    ensures
        ({
            let d = read_changes(platform, changes)->Ok_0;
            &&& sorted(d.added).len() == d.added.len()
            &&& sorted(d.modified).len() == d.modified.len()
            &&& sorted(d.deleted).len() == d.deleted.len()
        }),
{
    let d = read_changes(platform, changes)->Ok_0;
    crate::order::law_sorted_is_an_ordered_permutation(d.added);
    crate::order::law_sorted_is_an_ordered_permutation(d.modified);
    crate::order::law_sorted_is_an_ordered_permutation(d.deleted);
}

/// Starts the survey of an update.
pub fn survey_update(platform: Platform, staging: &str, target: &str) -> (res: Surveying)
    ensures
        res@ == SurveyingView::start(platform, staging@, target@),
        res@.well_formed(),
{
    let res = Surveying {
        platform,
        staging: staging.to_owned(),
        target: target.to_owned(),
        stage: SurveyStage::StagingDir,
        changes: ChangesJson { added: Vec::new(), modified: Vec::new(), deleted: Vec::new() },
        declared: Vec::new(),
        sources: 0,
        staged: Vec::new(),
        installed: Vec::new(),
        survey: None,
    };
    proof {
        assert(res@.changes =~= no_changes());
        assert(res@ =~= SurveyingView::start(platform, staging@, target@));
    }
    res
}

impl Surveying {
    /// What the survey has come to, once it is over.
    pub fn survey(self) -> (res: Option<Survey>)
        ensures
            match (res, self@.survey) {
                (Some(survey), Some(expected)) => survey@ == expected,
                (None, None) => true,
                _ => false,
            },
    {
        self.survey
    }

    fn manifest(&self) -> (res: String)
        ensures
            res@ == self@.manifest(),
    {
        join_name(self.platform, self.staging.as_str(), "changes.json")
    }

    /// The request that the survey waits for; none when it is over.
    pub fn request(&self) -> (res: Option<Request>)
        requires
            self@.well_formed(),
        ensures
            match (res, self@.request()) {
                (Some(request), Some(expected)) => request@ == expected,
                (None, None) => true,
                _ => false,
            },
    {
        match self.stage {
            SurveyStage::StagingDir => Some(Request::IsDir(self.staging.clone())),
            SurveyStage::TargetDir => Some(Request::IsDir(self.target.clone())),
            SurveyStage::ProbeManifest => Some(Request::Exists(self.manifest())),
            SurveyStage::List => Some(Request::ReadDir(self.staging.clone())),
            SurveyStage::ReadManifest => Some(Request::ReadManifest(self.manifest())),
            SurveyStage::Staged(i) => Some(
                Request::Exists(
                    place(self.platform, self.staging.as_str(), &self.declared[i]),
                ),
            ),
            SurveyStage::Installed(i) => Some(
                Request::Exists(place(self.platform, self.target.as_str(), &self.declared[i])),
            ),
            SurveyStage::Finished => None,
        }
    }

    /// Whether the survey can go on with a reply.
    pub fn accepts(&self, reply: &Reply) -> (res: bool)
        requires
            self@.well_formed(),
        ensures
            res == self@.accepts(reply@),
    {
        match self.request() {
            Some(request) => reply.answers(&request),
            None => false,
        }
    }

    fn end(&mut self, staging_is_dir: bool, target_is_dir: bool, package: Package)
        ensures
            final(self)@ == old(self)@.ended(staging_is_dir, target_is_dir, package@),
    {
        self.stage = SurveyStage::Finished;
        self.survey = Some(Survey { staging_is_dir, target_is_dir, package });
    }

    fn end_without_package(&mut self, staging_is_dir: bool)
        ensures
            final(self)@ == old(self)@.ended(
                staging_is_dir,
                false,
                PackageView::Full { entries: Seq::empty() },
            ),
    {
        let entries: Vec<Listed> = Vec::new();
        proof {
            assert(crate::disk::listing(entries@) =~= Seq::empty());
        }
        self.end(staging_is_dir, false, Package::Full { entries });
    }

    fn settle(&mut self)
        ensures
            final(self)@ == old(self)@.settled(),
    {
        let nothing: Vec<RelativePath> = Vec::new();
        let changes = self.changes.clone();
        let staged = chain(&self.staged, &nothing);
        let installed = chain(&self.installed, &nothing);
        proof {
            assert(paths(staged@) =~= self@.staged);
            assert(paths(installed@) =~= self@.installed);
        }
        self.end(true, true, Package::Incremental { changes, staged, installed });
    }

    fn look_in_target(&mut self, i: usize)
        ensures
            final(self)@ == old(self)@.looking_in_target(i as int),
    {
        if i < self.declared.len() {
            self.stage = SurveyStage::Installed(i);
        } else {
            self.settle();
        }
    }

    fn look_in_staging(&mut self, i: usize)
        ensures
            final(self)@ == old(self)@.looking_in_staging(i as int),
    {
        if i < self.sources {
            self.stage = SurveyStage::Staged(i);
        } else {
            self.look_in_target(0);
        }
    }

    fn declare(&mut self, changes: ChangesJson)
        requires
            old(self)@.well_formed(),
            old(self)@.stage == SurveyStage::ReadManifest,
        ensures
            final(self)@ == old(self)@.declaring(changes@),
            final(self)@.well_formed(),
    {
        let lists = declared_paths(self.platform, &changes);
        let ghost given = changes@;
        self.changes = changes;
        match lists {
            Ok((added, modified, deleted)) => {
                proof {
                    lemma_sorted_lengths(self.platform, given);
                }
                let sources = chain(&added, &modified);
                let count: usize = sources.len();
                let all = chain(&sources, &deleted);
                proof {
                    assert(paths(sources@).len() == sources@.len());
                    assert(paths(all@).len() == all@.len());
                }
                assert(all.len() <= usize::MAX);
                self.declared = all;
                self.sources = count;
                self.look_in_staging(0);
            },
            Err(_) => self.settle(),
        }
    }

    /// Goes on with the reply to the request.
    pub fn advance(&mut self, reply: Reply)
        requires
            old(self)@.well_formed(),
            old(self)@.accepts(reply@),
        ensures
            final(self)@ == old(self)@.next(reply@),
            final(self)@.well_formed(),
    {
        match self.stage {
            SurveyStage::StagingDir => match reply {
                Reply::Flag(true) => {
                    self.stage = SurveyStage::TargetDir;
                },
                _ => self.end_without_package(false),
            },
            SurveyStage::TargetDir => match reply {
                Reply::Flag(true) => {
                    self.stage = SurveyStage::ProbeManifest;
                },
                _ => self.end_without_package(true),
            },
            SurveyStage::ProbeManifest => match reply {
                Reply::Flag(true) => {
                    self.stage = SurveyStage::ReadManifest;
                },
                _ => {
                    self.stage = SurveyStage::List;
                },
            },
            SurveyStage::List => match reply {
                Reply::Listing(entries) => self.end(true, true, Package::Full { entries }),
                Reply::Failed(f) => self.end(true, true, Package::Unlisted { error: f.message }),
                _ => {},
            },
            SurveyStage::ReadManifest => match reply {
                Reply::Manifest(Ok(changes)) => self.declare(changes),
                Reply::Manifest(Err(error)) => self.end(
                    true,
                    true,
                    Package::InvalidManifest { error },
                ),
                Reply::Failed(f) => self.end(
                    true,
                    true,
                    Package::UnreadableManifest { error: f.message },
                ),
                _ => {},
            },
            SurveyStage::Staged(i) => {
                if let Reply::Flag(true) = reply {
                    let path = self.declared[i].clone();
                    proof {
                        lemma_paths_push(self.staged@, path);
                    }
                    self.staged.push(path);
                }
                assert(i < self.declared.len());
                self.look_in_staging(i + 1);
            },
            SurveyStage::Installed(i) => {
                if let Reply::Flag(true) = reply {
                    let path = self.declared[i].clone();
                    proof {
                        lemma_paths_push(self.installed@, path);
                    }
                    self.installed.push(path);
                }
                assert(i < self.declared.len());
                self.look_in_target(i + 1);
            },
            SurveyStage::Finished => {},
        }
    }
}

/// How far the look at a manifest has come.
#[derive(Clone, Copy, Debug, PartialEq, Eq, Structural)]
pub enum ManifestStage {
    /// Looking whether there is a manifest.
    Probe,
    /// Reading it.
    Read,
    /// The look is over.
    Finished,
}

/// A look at the manifest of an extracted package.
#[derive(Debug)]
pub struct ManifestCheck {
    path: String,
    stage: ManifestStage,
    outcome: Option<Result<Option<ChangesJson>, String>>,
}

/// What an outcome holds.
pub open spec fn manifest_outcome(outcome: Option<Result<Option<ChangesJson>, String>>) -> Option<
    Result<Option<ChangesView>, Seq<char>>,
> {
    match outcome {
        None => None,
        Some(Ok(None)) => Some(Ok(None)),
        Some(Ok(Some(changes))) => Some(Ok(Some(changes@))),
        Some(Err(message)) => Some(Err(message@)),
    }
}

/// What a [`ManifestCheck`] holds.
pub struct ManifestCheckView {
    pub path: Seq<char>,
    pub stage: ManifestStage,
    pub outcome: Option<Result<Option<ChangesView>, Seq<char>>>,
}

impl View for ManifestCheck {
    type V = ManifestCheckView;

    closed spec fn view(&self) -> ManifestCheckView {
        ManifestCheckView {
            path: self.path@,
            stage: self.stage,
            outcome: manifest_outcome(self.outcome),
        }
    }
}

impl ManifestCheckView {
    /// A look at the manifest of a package, before its first step.
    pub open spec fn start(platform: Platform, extract_dir: Seq<char>) -> ManifestCheckView {
        ManifestCheckView {
            path: under(platform, extract_dir, "changes.json"@),
            stage: ManifestStage::Probe,
            outcome: None,
        }
    }

    /// Whether the look is over just where it has an outcome.
    pub open spec fn well_formed(self) -> bool {
        self.stage == ManifestStage::Finished <==> self.outcome is Some
    }

    /// The next request; none when the look is over.
    pub open spec fn request(self) -> Option<RequestView> {
        match self.stage {
            ManifestStage::Probe => Some(RequestView::Exists(self.path)),
            ManifestStage::Read => Some(RequestView::ReadManifest(self.path)),
            ManifestStage::Finished => None,
        }
    }

    /// Whether a reply is one that the next request can have.
    pub open spec fn accepts(self, reply: ReplyView) -> bool {
        self.request() matches Some(request) && reply.answers(request)
    }

    /// The look that has ended.
    pub open spec fn ended(
        self,
        outcome: Result<Option<ChangesView>, Seq<char>>,
    ) -> ManifestCheckView {
        ManifestCheckView { stage: ManifestStage::Finished, outcome: Some(outcome), ..self }
    }

    /// The look after a reply to its request.
    pub open spec fn next(self, reply: ReplyView) -> ManifestCheckView {
        match self.stage {
            ManifestStage::Probe => match reply {
                ReplyView::Flag(true) => ManifestCheckView { stage: ManifestStage::Read, ..self },
                _ => self.ended(Ok(None)),
            },
            ManifestStage::Read => match reply {
                ReplyView::Manifest(Ok(changes)) => self.ended(Ok(Some(changes))),
                ReplyView::Manifest(Err(error)) => self.ended(
                    Err("无法解析 changes.json: "@ + error),
                ),
                ReplyView::Failed(f) => self.ended(Err("无法读取 changes.json: "@ + f.message)),
                _ => self,
            },
            ManifestStage::Finished => self,
        }
    }
}

/// Starts a look at the manifest of an extracted package: an incremental package has one, a full package
/// has none.
pub fn check_changes_json(platform: Platform, extract_dir: &str) -> (res: ManifestCheck)
    ensures
        res@ == ManifestCheckView::start(platform, extract_dir@),
        res@.well_formed(),
{
    ManifestCheck {
        path: join_name(platform, extract_dir, "changes.json"),
        stage: ManifestStage::Probe,
        outcome: None,
    }
}

impl ManifestCheck {
    /// What the look has come to, once it is over.
    pub fn outcome(self) -> (res: Option<Result<Option<ChangesJson>, String>>)
        ensures
            manifest_outcome(res) == self@.outcome,
    {
        self.outcome
    }

    /// The request that the look waits for; none when it is over.
    pub fn request(&self) -> (res: Option<Request>)
        ensures
            match (res, self@.request()) {
                (Some(request), Some(expected)) => request@ == expected,
                (None, None) => true,
                _ => false,
            },
    {
        match self.stage {
            ManifestStage::Probe => Some(Request::Exists(self.path.clone())),
            ManifestStage::Read => Some(Request::ReadManifest(self.path.clone())),
            ManifestStage::Finished => None,
        }
    }

    /// Whether the look can go on with a reply.
    pub fn accepts(&self, reply: &Reply) -> (res: bool)
        ensures
            res == self@.accepts(reply@),
    {
        match self.request() {
            Some(request) => reply.answers(&request),
            None => false,
        }
    }

    /// Goes on with the reply to the request.
    pub fn advance(&mut self, reply: Reply)
        requires
            old(self)@.well_formed(),
            old(self)@.accepts(reply@),
        ensures
            final(self)@ == old(self)@.next(reply@),
            final(self)@.well_formed(),
    {
        match self.stage {
            ManifestStage::Probe => match reply {
                Reply::Flag(true) => {
                    self.stage = ManifestStage::Read;
                },
                _ => {
                    self.stage = ManifestStage::Finished;
                    self.outcome = Some(Ok(None));
                },
            },
            ManifestStage::Read => match reply {
                Reply::Manifest(Ok(changes)) => {
                    self.stage = ManifestStage::Finished;
                    self.outcome = Some(Ok(Some(changes)));
                },
                Reply::Manifest(Err(error)) => {
                    let mut message = "无法解析 changes.json: ".to_owned();
                    message.append(error.as_str());
                    self.stage = ManifestStage::Finished;
                    self.outcome = Some(Err(message));
                },
                Reply::Failed(f) => {
                    let mut message = "无法读取 changes.json: ".to_owned();
                    message.append(f.message.as_str());
                    self.stage = ManifestStage::Finished;
                    self.outcome = Some(Err(message));
                },
                _ => {},
            },
            ManifestStage::Finished => {},
        }
    }
}

} // verus!
