//! Removing what an update leaves behind.

use vstd::prelude::*;
use crate::disk::{entry_names, named, Reply, ReplyView, Request, RequestView};
use crate::path::{join_name, under, Platform};
use crate::text::{ends_with, has_suffix, report_at, texts};
use crate::transaction::outcome_view;

verus! {

/// How far the cleanup after an update has come.
#[derive(Clone, Copy, Debug, PartialEq, Eq, Structural)]
pub enum ArtifactStage {
    /// Looking whether the target holds a manifest.
    ProbeManifest,
    /// Removing the manifest.
    RemoveManifest,
    /// Looking whether the cache is there.
    ProbeCache,
    /// Listing the cache.
    ListCache,
    /// Looking whether an entry of the cache is a file.
    Inspect(usize),
    /// Removing an unfinished download.
    RemoveDownload(usize),
    /// The cleanup is over.
    Finished,
}

/// The removal of what an update leaves behind: the manifest in the target, and unfinished downloads
/// in the cache.
#[derive(Debug)]
pub struct ArtifactCleanup {
    platform: Platform,
    target_dir: String,
    cache_dir: String,
    names: Vec<String>,
    stage: ArtifactStage,
}

/// What an [`ArtifactCleanup`] holds.
#[verifier::ext_equal]
pub struct ArtifactView {
    pub platform: Platform,
    pub target_dir: Seq<char>,
    pub cache_dir: Seq<char>,
    pub names: Seq<Seq<char>>,
    pub stage: ArtifactStage,
}

impl View for ArtifactCleanup {
    type V = ArtifactView;

    closed spec fn view(&self) -> ArtifactView {
        ArtifactView {
            platform: self.platform,
            target_dir: self.target_dir@,
            cache_dir: self.cache_dir@,
            names: texts(self.names@),
            stage: self.stage,
        }
    }
}

/// Whether a name is that of an unfinished download.
pub open spec fn is_download(name: Seq<char>) -> bool {
    has_suffix(name, ".downloading"@)
}

impl ArtifactView {
    /// A cleanup before its first step.
    pub open spec fn start(
        platform: Platform,
        target_dir: Seq<char>,
        cache_dir: Seq<char>,
    ) -> ArtifactView {
        ArtifactView {
            platform,
            target_dir,
            cache_dir,
            names: Seq::empty(),
            stage: ArtifactStage::ProbeManifest,
        }
    }

    /// Whether the stage names an entry that there is, and a removal concerns a download.
    pub open spec fn well_formed(self) -> bool {
        &&& self.names.len() <= usize::MAX
        &&& match self.stage {
            ArtifactStage::Inspect(i) => i < self.names.len(),
            ArtifactStage::RemoveDownload(i) => i < self.names.len() && is_download(
                self.names[i as int],
            ),
            _ => true,
        }
    }

    /// The manifest in the target.
    pub open spec fn manifest(self) -> Seq<char> {
        under(self.platform, self.target_dir, "changes.json"@)
    }

    /// The path of an entry of the cache.
    pub open spec fn cached(self, i: int) -> Seq<char> {
        under(self.platform, self.cache_dir, self.names[i])
    }

    /// The next request; none when the cleanup is over.
    pub open spec fn request(self) -> Option<RequestView> {
        match self.stage {
            ArtifactStage::ProbeManifest => Some(RequestView::Exists(self.manifest())),
            ArtifactStage::RemoveManifest => Some(RequestView::RemoveFile(self.manifest())),
            ArtifactStage::ProbeCache => Some(RequestView::Exists(self.cache_dir)),
            ArtifactStage::ListCache => Some(RequestView::ReadDir(self.cache_dir)),
            ArtifactStage::Inspect(i) => Some(RequestView::IsFile(self.cached(i as int))),
            ArtifactStage::RemoveDownload(i) => Some(
                RequestView::RemoveFile(self.cached(i as int)),
            ),
            ArtifactStage::Finished => None,
        }
    }

    /// Whether a reply is one that the next request can have.
    pub open spec fn accepts(self, reply: ReplyView) -> bool {
        self.request() matches Some(request) && reply.answers(request)
    }

    /// The cleanup at another stage.
    pub open spec fn at(self, stage: ArtifactStage) -> ArtifactView {
        ArtifactView { stage, ..self }
    }

    /// Going on to an entry of the cache, or ending where none is left.
    pub open spec fn inspecting(self, i: int) -> ArtifactView {
        self.at(
            if i < self.names.len() {
                ArtifactStage::Inspect(i as usize)
            } else {
                ArtifactStage::Finished
            },
        )
    }

    /// The cleanup after a reply to its request. What cannot be listed or removed is passed over.
    pub open spec fn next(self, reply: ReplyView) -> ArtifactView {
        match self.stage {
            ArtifactStage::ProbeManifest => match reply {
                ReplyView::Flag(true) => self.at(ArtifactStage::RemoveManifest),
                _ => self.at(ArtifactStage::ProbeCache),
            },
            ArtifactStage::RemoveManifest => self.at(ArtifactStage::ProbeCache),
            ArtifactStage::ProbeCache => match reply {
                ReplyView::Flag(true) => self.at(ArtifactStage::ListCache),
                _ => self.at(ArtifactStage::Finished),
            },
            ArtifactStage::ListCache => match reply {
                ReplyView::Listing(entries) => ArtifactView {
                    names: named(entries),
                    ..self
                }.inspecting(0),
                _ => self.at(ArtifactStage::Finished),
            },
            ArtifactStage::Inspect(i) => if reply == ReplyView::Flag(true) && is_download(
                self.names[i as int],
            ) {
                self.at(ArtifactStage::RemoveDownload(i))
            } else {
                self.inspecting(i + 1)
            },
            ArtifactStage::RemoveDownload(i) => self.inspecting(i + 1),
            ArtifactStage::Finished => self,
        }
    }
}

/// Law: the cleanup after an update removes nothing but the manifest of the target, and files
/// directly in the cache that are unfinished downloads, each of which it has just found to be a file.
pub proof fn law_only_artifacts_are_removed(cleanup: ArtifactView, reply: ReplyView)
    requires
        cleanup.well_formed(),
        cleanup.accepts(reply),
        cleanup.next(reply).request() matches Some(RequestView::RemoveFile(_)),
    ensures
        ({
            let removed = cleanup.next(reply).request()->Some_0->RemoveFile_0;
            &&& reply == ReplyView::Flag(true)
            &&& {
                ||| removed == cleanup.manifest() && cleanup.request() == Some(
                    RequestView::Exists(removed),
                )
                ||| cleanup.request() == Some(RequestView::IsFile(removed)) && exists|i: int|
                    0 <= i < cleanup.names.len() && removed == cleanup.cached(i) && is_download(
                        #[trigger] cleanup.names[i],
                    )
            }
        }),
{
    if let ArtifactStage::Inspect(i) = cleanup.stage {
        assert(is_download(cleanup.names[i as int]));
    }
}

/// Law: every unfinished download among the files of the cache is removed: the cleanup asks for its
/// removal next.
pub proof fn law_every_download_is_removed(cleanup: ArtifactView, i: usize)
    requires
        cleanup.well_formed(),
        cleanup.stage == ArtifactStage::Inspect(i),
        is_download(cleanup.names[i as int]),
    ensures
        cleanup.next(ReplyView::Flag(true)).request() == Some(
            RequestView::RemoveFile(cleanup.cached(i as int)),
        ),
{
}

/// Starts the removal of what an update leaves behind.
pub fn cleanup_update_artifacts(platform: Platform, target_dir: &str, cache_dir: &str) -> (res:
    ArtifactCleanup)
    ensures
        res@ == ArtifactView::start(platform, target_dir@, cache_dir@),
        res@.well_formed(),
{
    let res = ArtifactCleanup {
        platform,
        target_dir: target_dir.to_owned(),
        cache_dir: cache_dir.to_owned(),
        names: Vec::new(),
        stage: ArtifactStage::ProbeManifest,
    };
    assert(res@ =~= ArtifactView::start(platform, target_dir@, cache_dir@));
    res
}

impl ArtifactCleanup {
    fn manifest(&self) -> (res: String)
        ensures
            res@ == self@.manifest(),
    {
        join_name(self.platform, self.target_dir.as_str(), "changes.json")
    }

    fn cached(&self, i: usize) -> (res: String)
        requires
            i < self@.names.len(),
        ensures
            res@ == self@.cached(i as int),
    {
        join_name(self.platform, self.cache_dir.as_str(), self.names[i].as_str())
    }

    /// The request that the cleanup waits for; none when it is over.
    pub fn request(&self) -> (res: Option<Request>)
        requires
            self@.well_formed(),
        ensures
            match (res, self@.request()) {
                (Some(request), Some(expected)) => request@ == expected,
                (None, None) => true,
                _ => false,
            },
    {
        match self.stage {
            ArtifactStage::ProbeManifest => Some(Request::Exists(self.manifest())),
            ArtifactStage::RemoveManifest => Some(Request::RemoveFile(self.manifest())),
            ArtifactStage::ProbeCache => Some(Request::Exists(self.cache_dir.clone())),
            ArtifactStage::ListCache => Some(Request::ReadDir(self.cache_dir.clone())),
            ArtifactStage::Inspect(i) => Some(Request::IsFile(self.cached(i))),
            ArtifactStage::RemoveDownload(i) => Some(Request::RemoveFile(self.cached(i))),
            ArtifactStage::Finished => None,
        }
    }

    /// Whether the cleanup can go on with a reply.
    pub fn accepts(&self, reply: &Reply) -> (res: bool)
        requires
            self@.well_formed(),
        ensures
            res == self@.accepts(reply@),
    {
        match self.request() {
            Some(request) => reply.answers(&request),
            None => false,
        }
    }

    fn inspect(&mut self, i: usize)
        ensures
            final(self)@ == old(self)@.inspecting(i as int),
    {
        self.stage =
        if i < self.names.len() {
            ArtifactStage::Inspect(i)
        } else {
            ArtifactStage::Finished
        };
    }

    /// Goes on with the reply to the request.
    pub fn advance(&mut self, reply: Reply)
        requires
            old(self)@.well_formed(),
            old(self)@.accepts(reply@),
        ensures
            final(self)@ == old(self)@.next(reply@),
            final(self)@.well_formed(),
    {
        match self.stage {
            ArtifactStage::ProbeManifest => match reply {
                Reply::Flag(true) => {
                    self.stage = ArtifactStage::RemoveManifest;
                },
                _ => {
                    self.stage = ArtifactStage::ProbeCache;
                },
            },
            ArtifactStage::RemoveManifest => {
                self.stage = ArtifactStage::ProbeCache;
            },
            ArtifactStage::ProbeCache => match reply {
                Reply::Flag(true) => {
                    self.stage = ArtifactStage::ListCache;
                },
                _ => {
                    self.stage = ArtifactStage::Finished;
                },
            },
            ArtifactStage::ListCache => match reply {
                Reply::Listing(entries) => {
                    self.names = entry_names(&entries);
                    assert(self.names.len() <= usize::MAX);
                    self.inspect(0);
                },
                _ => {
                    self.stage = ArtifactStage::Finished;
                },
            },
            ArtifactStage::Inspect(i) => {
                let is_file = match reply {
                    Reply::Flag(answer) => answer,
                    _ => false,
                };
                assert(i < self.names.len());
                if is_file && ends_with(self.names[i].as_str(), ".downloading") {
                    self.stage = ArtifactStage::RemoveDownload(i);
                } else {
                    self.inspect(i + 1);
                }
            },
            ArtifactStage::RemoveDownload(i) => {
                assert(i < self.names.len());
                self.inspect(i + 1);
            },
            ArtifactStage::Finished => {},
        }
    }
}

/// How far the removal of an extracted package has come.
#[derive(Clone, Copy, Debug, PartialEq, Eq, Structural)]
pub enum ExtractDirStage {
    /// Looking whether the directory is there.
    Probe,
    /// Removing it.
    Remove,
    /// The removal is over.
    Finished,
}

/// The removal of the directory that a package was extracted to.
#[derive(Debug)]
pub struct ExtractDirCleanup {
    dir: String,
    stage: ExtractDirStage,
    outcome: Option<Result<(), String>>,
}

/// What an [`ExtractDirCleanup`] holds.
pub struct ExtractDirView {
    pub dir: Seq<char>,
    pub stage: ExtractDirStage,
    pub outcome: Option<Result<(), Seq<char>>>,
}

impl View for ExtractDirCleanup {
    type V = ExtractDirView;

    closed spec fn view(&self) -> ExtractDirView {
        ExtractDirView {
            dir: self.dir@,
            stage: self.stage,
            outcome: outcome_view(self.outcome),
        }
    }
}

impl ExtractDirView {
    /// The removal before its first step.
    pub open spec fn start(dir: Seq<char>) -> ExtractDirView {
        ExtractDirView { dir, stage: ExtractDirStage::Probe, outcome: None }
    }

    /// Whether the removal is over just where it has an outcome.
    pub open spec fn well_formed(self) -> bool {
        self.stage == ExtractDirStage::Finished <==> self.outcome is Some
    }

    /// The next request; none when the removal is over.
    pub open spec fn request(self) -> Option<RequestView> {
        match self.stage {
            ExtractDirStage::Probe => Some(RequestView::Exists(self.dir)),
            ExtractDirStage::Remove => Some(RequestView::RemoveDirAll(self.dir)),
            ExtractDirStage::Finished => None,
        }
    }

    /// Whether a reply is one that the next request can have.
    pub open spec fn accepts(self, reply: ReplyView) -> bool {
        self.request() matches Some(request) && reply.answers(request)
    }

    /// The removal that has ended.
    pub open spec fn ended(self, outcome: Result<(), Seq<char>>) -> ExtractDirView {
        ExtractDirView { stage: ExtractDirStage::Finished, outcome: Some(outcome), ..self }
    }

    /// The removal after a reply to its request.
    pub open spec fn next(self, reply: ReplyView) -> ExtractDirView {
        match self.stage {
            ExtractDirStage::Probe => match reply {
                ReplyView::Flag(true) => ExtractDirView { stage: ExtractDirStage::Remove, ..self },
                _ => self.ended(Ok(())),
            },
            ExtractDirStage::Remove => match reply {
                ReplyView::Failed(f) => self.ended(
                    Err("无法清理目录 ["@ + self.dir + "]: "@ + f.message),
                ),
                _ => self.ended(Ok(())),
            },
            ExtractDirStage::Finished => self,
        }
    }
}

/// Starts the removal of the directory that a package was extracted to.
pub fn cleanup_extract_dir(extract_dir: &str) -> (res: ExtractDirCleanup)
    ensures
        res@ == ExtractDirView::start(extract_dir@),
        res@.well_formed(),
{
    ExtractDirCleanup {
        dir: extract_dir.to_owned(),
        stage: ExtractDirStage::Probe,
        outcome: None,
    }
}

impl ExtractDirCleanup {
    /// What the removal has come to, once it is over.
    pub fn outcome(self) -> (res: Option<Result<(), String>>)
        ensures
            outcome_view(res) == self@.outcome,
    {
        self.outcome
    }

    /// The request that the removal waits for; none when it is over.
    pub fn request(&self) -> (res: Option<Request>)
        ensures
            match (res, self@.request()) {
                (Some(request), Some(expected)) => request@ == expected,
                (None, None) => true,
                _ => false,
            },
    {
        match self.stage {
            ExtractDirStage::Probe => Some(Request::Exists(self.dir.clone())),
            ExtractDirStage::Remove => Some(Request::RemoveDirAll(self.dir.clone())),
            ExtractDirStage::Finished => None,
        }
    }

    /// Whether the removal can go on with a reply.
    pub fn accepts(&self, reply: &Reply) -> (res: bool)
        ensures
            res == self@.accepts(reply@),
    {
        match self.request() {
            Some(request) => reply.answers(&request),
            None => false,
        }
    }

    /// Goes on with the reply to the request.
    pub fn advance(&mut self, reply: Reply)
        requires
            old(self)@.well_formed(),
            old(self)@.accepts(reply@),
        ensures
            final(self)@ == old(self)@.next(reply@),
            final(self)@.well_formed(),
    {
        match self.stage {
            ExtractDirStage::Probe => match reply {
                Reply::Flag(true) => {
                    self.stage = ExtractDirStage::Remove;
                },
                _ => {
                    self.stage = ExtractDirStage::Finished;
                    self.outcome = Some(Ok(()));
                },
            },
            ExtractDirStage::Remove => {
                self.stage = ExtractDirStage::Finished;
                match reply {
                    Reply::Failed(f) => {
                        let message = report_at(
                            "无法清理目录 [",
                            self.dir.as_str(),
                            f.message.as_str(),
                        );
                        self.outcome = Some(Err(message));
                    },
                    _ => {
                        self.outcome = Some(Ok(()));
                    },
                }
            },
            ExtractDirStage::Finished => {},
        }
    }
}

} // verus!
