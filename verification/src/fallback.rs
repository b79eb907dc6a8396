//! The fallback where an update cannot be installed: the new version goes to a folder of its own.

use vstd::prelude::*;
use crate::disk::{Reply, ReplyView, Request, RequestView};
use crate::path::{join_name, under, Platform};
use crate::text::{decimal, decimal_text, text_between, texts, to_chars};

verus! {

/// A version without the letters `v` at its start.
pub open spec fn bare_version(version: Seq<char>) -> Seq<char>
    decreases version.len(),
{
    if version.len() > 0 && version[0] == 'v' {
        bare_version(version.drop_first())
    } else {
        version
    }
}

/// The name of the folder for a version: the version with one `v` at its start.
pub open spec fn version_folder(version: Seq<char>) -> Seq<char> {
    "v"@ + bare_version(version)
}

/// The name of the folder for a version.
pub fn version_folder_name(version: &str) -> (res: String)
    ensures
        res@ == version_folder(version@),
{
    let chars = to_chars(version);
    let mut start: usize = 0;
    proof {
        assert(chars@.skip(0) =~= version@);
    }
    while start < chars.len() && chars[start] == 'v'
        invariant
            start <= chars@.len(),
            bare_version(chars@.skip(start as int)) == bare_version(version@),
        decreases chars.len() - start,
    {
        proof {
            assert(chars@.skip(start as int).drop_first() =~= chars@.skip(start + 1));
        }
        start = start + 1;
    }
    let rest = text_between(&chars, start, chars.len());
    proof {
        assert(rest@ =~= chars@.skip(start as int));
    }
    let mut res = "v".to_owned();
    res.append(rest.as_str());
    res
}

/// How far a fallback has come.
#[derive(Clone, Copy, Debug, PartialEq, Eq, Structural)]
pub enum FallbackStage {
    /// Looking whether a folder is there already.
    Probe,
    /// Creating the folder.
    Create,
    /// Copying the new version into it.
    CopyFiles,
    /// Looking whether there is a configuration to be carried over.
    ProbeConfig,
    /// Copying the configuration.
    CopyConfig,
    /// The fallback is over.
    Finished,
}

/// A fallback under way.
#[derive(Debug)]
pub struct FallbackUpdate {
    platform: Platform,
    extract_dir: String,
    target_dir: String,
    /// The name of the folder for the version.
    folder: String,
    /// The number behind that name; none where it is 0.
    suffix: u32,
    stage: FallbackStage,
    outcome: Option<Result<String, String>>,
}

/// What an outcome holds.
pub open spec fn folder_outcome(outcome: Option<Result<String, String>>) -> Option<
    Result<Seq<char>, Seq<char>>,
> {
    match outcome {
        None => None,
        Some(Ok(path)) => Some(Ok(path@)),
        Some(Err(message)) => Some(Err(message@)),
    }
}

/// What a [`FallbackUpdate`] holds.
pub struct FallbackView {
    pub platform: Platform,
    pub extract_dir: Seq<char>,
    pub target_dir: Seq<char>,
    pub folder: Seq<char>,
    pub suffix: u32,
    pub stage: FallbackStage,
    pub outcome: Option<Result<Seq<char>, Seq<char>>>,
}

impl View for FallbackUpdate {
    type V = FallbackView;

    closed spec fn view(&self) -> FallbackView {
        FallbackView {
            platform: self.platform,
            extract_dir: self.extract_dir@,
            target_dir: self.target_dir@,
            folder: self.folder@,
            suffix: self.suffix,
            stage: self.stage,
            outcome: folder_outcome(self.outcome),
        }
    }
}

/// The largest number that is tried behind the name of a folder.
pub const LAST_SUFFIX: u32 = 2147483647;

impl FallbackView {
    /// A fallback before its first step.
    pub open spec fn start(
        platform: Platform,
        extract_dir: Seq<char>,
        target_dir: Seq<char>,
        version: Seq<char>,
    ) -> FallbackView {
        FallbackView {
            platform,
            extract_dir,
            target_dir,
            folder: version_folder(version),
            suffix: 0,
            stage: FallbackStage::Probe,
            outcome: None,
        }
    }

    /// Whether the fallback is over just where it has an outcome, and keeps within its suffixes.
    pub open spec fn well_formed(self) -> bool {
        &&& self.suffix <= LAST_SUFFIX
        &&& self.stage == FallbackStage::Finished <==> self.outcome is Some
    }

    /// A folder for the version: the plain one, or the one with a number behind its name.
    pub open spec fn folder_at(self, suffix: u32) -> Seq<char> {
        if suffix == 0 {
            under(self.platform, self.target_dir, self.folder)
        } else {
            under(self.platform, self.target_dir, self.folder + "-"@ + decimal(suffix as nat))
        }
    }

    /// The folder that the fallback has come to.
    pub open spec fn dir(self) -> Seq<char> {
        self.folder_at(self.suffix)
    }

    /// The configuration of the target.
    pub open spec fn config(self) -> Seq<char> {
        under(self.platform, self.target_dir, "config"@)
    }

    /// The next request; none when the fallback is over.
    pub open spec fn request(self) -> Option<RequestView> {
        match self.stage {
            FallbackStage::Probe => Some(RequestView::Exists(self.dir())),
            FallbackStage::Create => Some(RequestView::CreateDirAll(self.dir())),
            FallbackStage::CopyFiles => Some(
                RequestView::CopyDirContents {
                    from: self.extract_dir,
                    to: self.dir(),
                    skip: seq!["changes.json"@],
                },
            ),
            FallbackStage::ProbeConfig => Some(RequestView::Exists(self.config())),
            FallbackStage::CopyConfig => Some(
                RequestView::CopyDirRecursive {
                    from: self.config(),
                    to: under(self.platform, self.dir(), "config"@),
                },
            ),
            FallbackStage::Finished => None,
        }
    }

    /// Whether a reply is one that the next request can have, and a next folder is left to try where
    /// the last one is taken.
    pub open spec fn accepts(self, reply: ReplyView) -> bool {
        &&& self.request() matches Some(request)
        &&& reply.answers(request)
        &&& self.stage == FallbackStage::Probe && reply == ReplyView::Flag(true) ==> self.suffix
            < LAST_SUFFIX
    }

    /// The fallback at another stage.
    pub open spec fn at(self, stage: FallbackStage) -> FallbackView {
        FallbackView { stage, ..self }
    }

    /// The fallback that has ended.
    pub open spec fn ended(self, outcome: Result<Seq<char>, Seq<char>>) -> FallbackView {
        FallbackView { stage: FallbackStage::Finished, outcome: Some(outcome), ..self }
    }

    /// The fallback after a reply to its request. A configuration that cannot be copied is passed
    /// over.
    pub open spec fn next(self, reply: ReplyView) -> FallbackView {
        match self.stage {
            FallbackStage::Probe => match reply {
                ReplyView::Flag(true) => FallbackView { suffix: (self.suffix + 1) as u32, ..self },
                _ => self.at(FallbackStage::Create),
            },
            FallbackStage::Create => match reply {
                ReplyView::Failed(f) => self.ended(Err("无法创建兜底目录: "@ + f.message)),
                _ => self.at(FallbackStage::CopyFiles),
            },
            FallbackStage::CopyFiles => match reply {
                ReplyView::Failed(f) => self.ended(Err(f.message)),
                _ => self.at(FallbackStage::ProbeConfig),
            },
            FallbackStage::ProbeConfig => match reply {
                ReplyView::Flag(true) => self.at(FallbackStage::CopyConfig),
                _ => self.ended(Ok(self.dir())),
            },
            FallbackStage::CopyConfig => self.ended(Ok(self.dir())),
            FallbackStage::Finished => self,
        }
    }

    /// The fallback after it has found so many folders taken in turn.
    pub open spec fn after_taken(self, count: nat) -> FallbackView
        decreases count,
    {
        if count == 0 {
            self
        } else {
            self.after_taken((count - 1) as nat).next(ReplyView::Flag(true))
        }
    }
}

/// Law: the new version goes to the first folder that is not there yet: the plain one, or the first
/// free one in the order of the numbers behind the name. The folder is created only then.
pub proof fn law_fallback_takes_the_first_free_folder(fallback: FallbackView, taken: nat)
    requires
        fallback.well_formed(),
        fallback.stage == FallbackStage::Probe,
        fallback.suffix == 0,
        taken <= LAST_SUFFIX,
    ensures
        fallback.after_taken(taken) == (FallbackView { suffix: taken as u32, ..fallback }),
        fallback.after_taken(taken).request() == Some(
            RequestView::Exists(fallback.folder_at(taken as u32)),
        ),
        fallback.after_taken(taken).next(ReplyView::Flag(false)).request() == Some(
            RequestView::CreateDirAll(fallback.folder_at(taken as u32)),
        ),
    decreases taken,
{
    if taken > 0 {
        law_fallback_takes_the_first_free_folder(fallback, (taken - 1) as nat);
    }
}

/// Law: once its files are copied, a fallback succeeds, whatever becomes of the configuration, and
/// its result is the folder that it was given.
pub proof fn law_fallback_succeeds_with_its_files(
    fallback: FallbackView,
    found: bool,
    copied: ReplyView,
)
    requires
        fallback.well_formed(),
        fallback.stage == FallbackStage::ProbeConfig,
    ensures
        ({
            let looked = fallback.next(ReplyView::Flag(found));
            let end = if found {
                looked.next(copied)
            } else {
                looked
            };
            end.outcome == Some(Ok::<Seq<char>, Seq<char>>(fallback.dir()))
        }),
{
}

/// Starts the fallback of an update: what was extracted is copied to a folder named after the new
/// version, and the configuration along with it.
pub fn fallback_update(
    platform: Platform,
    extract_dir: String,
    target_dir: String,
    new_version: String,
) -> (res: FallbackUpdate)
    ensures
        res@ == FallbackView::start(platform, extract_dir@, target_dir@, new_version@),
        res@.well_formed(),
{
    let folder = version_folder_name(new_version.as_str());
    FallbackUpdate {
        platform,
        extract_dir,
        target_dir,
        folder,
        suffix: 0,
        stage: FallbackStage::Probe,
        outcome: None,
    }
}

impl FallbackUpdate {
    /// What the fallback has come to, once it is over.
    pub fn outcome(self) -> (res: Option<Result<String, String>>)
        ensures
            folder_outcome(res) == self@.outcome,
    {
        self.outcome
    }

    fn dir(&self) -> (res: String)
        ensures
            res@ == self@.dir(),
    {
        let mut name = self.folder.clone();
        if self.suffix > 0 {
            name.append("-");
            name.append(decimal_text(self.suffix as u64).as_str());
        }
        join_name(self.platform, self.target_dir.as_str(), name.as_str())
    }

    fn config(&self) -> (res: String)
        ensures
            res@ == self@.config(),
    {
        join_name(self.platform, self.target_dir.as_str(), "config")
    }

    /// The request that the fallback waits for; none when it is over.
    pub fn request(&self) -> (res: Option<Request>)
        ensures
            match (res, self@.request()) {
                (Some(request), Some(expected)) => request@ == expected,
                (None, None) => true,
                _ => false,
            },
    {
        match self.stage {
            FallbackStage::Probe => Some(Request::Exists(self.dir())),
            FallbackStage::Create => Some(Request::CreateDirAll(self.dir())),
            FallbackStage::CopyFiles => {
                let mut skip: Vec<String> = Vec::new();
                skip.push("changes.json".to_owned());
                assert(texts(skip@) =~= seq!["changes.json"@]);
                Some(
                    Request::CopyDirContents {
                        from: self.extract_dir.clone(),
                        to: self.dir(),
                        skip,
                    },
                )
            },
            FallbackStage::ProbeConfig => Some(Request::Exists(self.config())),
            FallbackStage::CopyConfig => Some(
                Request::CopyDirRecursive {
                    from: self.config(),
                    to: join_name(self.platform, self.dir().as_str(), "config"),
                },
            ),
            FallbackStage::Finished => None,
        }
    }

    /// Whether the fallback can go on with a reply.
    pub fn accepts(&self, reply: &Reply) -> (res: bool)
        ensures
            res == self@.accepts(reply@),
    {
        let taken = match reply {
            Reply::Flag(answer) => *answer,
            _ => false,
        };
        match self.request() {
            Some(request) => reply.answers(&request) && (self.stage != FallbackStage::Probe
                || !taken || self.suffix < LAST_SUFFIX),
            None => false,
        }
    }

    fn end(&mut self, outcome: Result<String, String>)
        ensures
            final(self)@ == old(self)@.ended(
                match outcome {
                    Ok(path) => Ok(path@),
                    Err(message) => Err(message@),
                },
            ),
    {
        self.stage = FallbackStage::Finished;
        self.outcome = Some(outcome);
    }

    /// Goes on with the reply to the request.
    pub fn advance(&mut self, reply: Reply)
        requires
            old(self)@.well_formed(),
            old(self)@.accepts(reply@),
        ensures
            final(self)@ == old(self)@.next(reply@),
            final(self)@.well_formed(),
    {
        match self.stage {
            FallbackStage::Probe => match reply {
                Reply::Flag(true) => {
                    self.suffix = self.suffix + 1;
                },
                _ => {
                    self.stage = FallbackStage::Create;
                },
            },
            FallbackStage::Create => match reply {
                Reply::Failed(f) => {
                    let mut message = "无法创建兜底目录: ".to_owned();
                    message.append(f.message.as_str());
                    self.end(Err(message));
                },
                _ => {
                    self.stage = FallbackStage::CopyFiles;
                },
            },
            FallbackStage::CopyFiles => match reply {
                Reply::Failed(f) => self.end(Err(f.message)),
                _ => {
                    self.stage = FallbackStage::ProbeConfig;
                },
            },
            FallbackStage::ProbeConfig => match reply {
                Reply::Flag(true) => {
                    self.stage = FallbackStage::CopyConfig;
                },
                _ => {
                    let dir = self.dir();
                    self.end(Ok(dir));
                },
            },
            FallbackStage::CopyConfig => {
                let dir = self.dir();
                self.end(Ok(dir));
            },
            FallbackStage::Finished => {},
        }
    }
}

} // verus!
