//! Cleaning a directory piece by piece, as far as it can be cleaned.

use vstd::prelude::*;
use crate::disk::{entry_names, named, Reply, ReplyView, Request, RequestView};
use crate::path::{join_name, under, Platform};
use crate::text::texts;

verus! {

/// A directory being cleaned: its entries, and which of them is next.
#[derive(Debug)]
pub struct Frame {
    pub dir: String,
    pub names: Vec<String>,
    pub next: usize,
}

/// What a [`Frame`] holds.
#[verifier::ext_equal]
pub struct FrameView {
    pub dir: Seq<char>,
    pub names: Seq<Seq<char>>,
    pub next: int,
}

impl View for Frame {
    type V = FrameView;

    open spec fn view(&self) -> FrameView {
        FrameView { dir: self.dir@, names: texts(self.names@), next: self.next as int }
    }
}

impl FrameView {
    /// A directory that has not been listed yet.
    pub open spec fn of(dir: Seq<char>) -> FrameView {
        FrameView { dir, names: Seq::empty(), next: 0 }
    }

    /// Whether some entry is left.
    pub open spec fn has_entry(self) -> bool {
        0 <= self.next < self.names.len()
    }

    /// The path of the next entry.
    pub open spec fn entry(self, platform: Platform) -> Seq<char> {
        under(platform, self.dir, self.names[self.next])
    }

    /// The directory with one more entry behind it.
    pub open spec fn passed(self) -> FrameView {
        FrameView { next: self.next + 1, ..self }
    }
}

/// The directories that a sequence of frames holds.
pub open spec fn frames_view(frames: Seq<Frame>) -> Seq<FrameView> {
    frames.map_values(|f: Frame| f@)
}

proof fn lemma_frames_push(frames: Seq<Frame>, frame: Frame)
    ensures
        frames_view(frames.push(frame)) == frames_view(frames).push(frame@),
{
    assert(frames_view(frames.push(frame)) =~= frames_view(frames).push(frame@));
}

proof fn lemma_frames_drop_last(frames: Seq<Frame>)
    requires
        frames.len() > 0,
    ensures
        frames_view(frames.drop_last()) == frames_view(frames).drop_last(),
        frames_view(frames).last() == frames.last()@,
{
    assert(frames_view(frames.drop_last()) =~= frames_view(frames).drop_last());
}

/// What a cleanup is about to do.
#[derive(Clone, Copy, Debug, PartialEq, Eq, Structural)]
pub enum CleanupStage {
    /// Listing the innermost directory.
    List,
    /// Looking whether its next entry is a directory.
    Inspect,
    /// Removing that entry, a file.
    RemoveFile,
    /// Removing the innermost directory, once its entries are behind.
    RemoveSelf,
    /// Looking whether the innermost directory is still there.
    SelfLeft,
    /// Removing the next entry once more, a directory that its own cleanup has left behind.
    RemoveChild,
    /// Looking whether that entry is still there.
    ChildLeft,
    /// The cleanup is over.
    Finished,
}

/// A cleanup of a directory, piece by piece.
#[derive(Debug)]
pub struct DirCleanup {
    platform: Platform,
    /// The directories being cleaned, from the outermost to the innermost.
    frames: Vec<Frame>,
    stage: CleanupStage,
    /// How many files and directories below the outermost directory were removed.
    deleted: usize,
    /// How many times a directory or an entry of it could not be read, and how many files and directories
    /// could not be removed; a directory that stays is counted once.
    failed: usize,
}

/// What a [`DirCleanup`] holds.
#[verifier::ext_equal]
pub struct CleanupView {
    pub platform: Platform,
    pub frames: Seq<FrameView>,
    pub stage: CleanupStage,
    pub deleted: int,
    pub failed: int,
}

impl View for DirCleanup {
    type V = CleanupView;

    closed spec fn view(&self) -> CleanupView {
        CleanupView {
            platform: self.platform,
            frames: frames_view(self.frames@),
            stage: self.stage,
            deleted: self.deleted as int,
            failed: self.failed as int,
        }
    }
}

impl CleanupView {
    /// A cleanup before its first step.
    pub open spec fn start(platform: Platform, dir: Seq<char>) -> CleanupView {
        CleanupView {
            platform,
            frames: seq![FrameView::of(dir)],
            stage: CleanupStage::List,
            deleted: 0,
            failed: 0,
        }
    }

    /// The innermost directory.
    pub open spec fn top(self) -> FrameView {
        self.frames.last()
    }

    /// Whether every directory but the innermost is at an entry, and the innermost is at one where
    /// the stage concerns it.
    pub open spec fn well_formed(self) -> bool {
        &&& self.stage != CleanupStage::Finished ==> self.frames.len() > 0
        &&& forall|k: int|
            0 <= k < self.frames.len() - 1 ==> (#[trigger] self.frames[k]).has_entry()
        &&& match self.stage {
            CleanupStage::Inspect
            | CleanupStage::RemoveFile
            | CleanupStage::RemoveChild
            | CleanupStage::ChildLeft => self.top().has_entry(),
            _ => true,
        }
    }

    /// The next request; none when the cleanup is over.
    pub open spec fn request(self) -> Option<RequestView> {
        match self.stage {
            CleanupStage::List => Some(RequestView::ReadDir(self.top().dir)),
            CleanupStage::Inspect => Some(RequestView::IsDir(self.top().entry(self.platform))),
            CleanupStage::RemoveFile => Some(
                RequestView::RemoveFile(self.top().entry(self.platform)),
            ),
            CleanupStage::RemoveSelf => Some(RequestView::RemoveDir(self.top().dir)),
            CleanupStage::SelfLeft => Some(RequestView::Exists(self.top().dir)),
            CleanupStage::RemoveChild => Some(
                RequestView::RemoveDir(self.top().entry(self.platform)),
            ),
            CleanupStage::ChildLeft => Some(RequestView::Exists(self.top().entry(self.platform))),
            CleanupStage::Finished => None,
        }
    }

    /// By how much a reply can add to the failures.
    pub open spec fn cost(reply: ReplyView) -> int {
        match reply {
            ReplyView::Listing(entries) => entries.len() - named(entries).len(),
            _ => 1,
        }
    }

    /// Whether a reply is one that the next request can have, and the counts have room for it.
    pub open spec fn accepts(self, reply: ReplyView) -> bool {
        &&& self.request() matches Some(request)
        &&& reply.answers(request)
        &&& self.deleted < usize::MAX
        &&& self.failed + CleanupView::cost(reply) <= usize::MAX
    }

    /// The cleanup with another innermost directory.
    pub open spec fn with_top(self, top: FrameView) -> CleanupView {
        CleanupView { frames: self.frames.drop_last().push(top), ..self }
    }

    /// Going on to the next entry, or to the removal of the directory where none is left.
    pub open spec fn proceeding(self) -> CleanupView {
        CleanupView {
            stage: if self.top().has_entry() {
                CleanupStage::Inspect
            } else {
                CleanupStage::RemoveSelf
            },
            ..self
        }
    }

    /// Going on behind the next entry.
    pub open spec fn passing(self) -> CleanupView {
        self.with_top(self.top().passed()).proceeding()
    }

    /// Whether the innermost directory lies in another one that is being cleaned.
    pub open spec fn inner(self) -> bool {
        self.frames.len() > 1
    }

    /// Going back to the directory around the innermost one, at some stage; ending where there is none.
    pub open spec fn leaving(self, stage: CleanupStage) -> CleanupView {
        CleanupView {
            frames: self.frames.drop_last(),
            stage: if self.inner() {
                stage
            } else {
                CleanupStage::Finished
            },
            ..self
        }
    }

    /// One more success.
    pub open spec fn succeeded(self) -> CleanupView {
        CleanupView { deleted: self.deleted + 1, ..self }
    }

    /// More failures.
    pub open spec fn failing(self, count: int) -> CleanupView {
        CleanupView { failed: self.failed + count, ..self }
    }

    /// The cleanup after a reply to its request.
    pub open spec fn next(self, reply: ReplyView) -> CleanupView {
        match self.stage {
            CleanupStage::List => match reply {
                ReplyView::Listing(entries) => self.failing(CleanupView::cost(reply)).with_top(
                    FrameView { names: named(entries), next: 0, ..self.top() },
                ).proceeding(),
                _ => CleanupView { stage: CleanupStage::RemoveSelf, ..self }.failing(1),
            },
            CleanupStage::Inspect => match reply {
                ReplyView::Flag(true) => CleanupView {
                    frames: self.frames.push(FrameView::of(self.top().entry(self.platform))),
                    stage: CleanupStage::List,
                    ..self
                },
                _ => CleanupView { stage: CleanupStage::RemoveFile, ..self },
            },
            CleanupStage::RemoveFile => match reply {
                ReplyView::Failed(_) => self.failing(1).passing(),
                _ => self.succeeded().passing(),
            },
            CleanupStage::RemoveSelf => match reply {
                ReplyView::Failed(_) => CleanupView { stage: CleanupStage::SelfLeft, ..self },
                _ => if self.inner() {
                    self.leaving(CleanupStage::Inspect).succeeded().passing()
                } else {
                    self.leaving(CleanupStage::Finished)
                },
            },
            CleanupStage::SelfLeft => match (reply, self.inner()) {
                (ReplyView::Flag(true), true) => self.leaving(CleanupStage::RemoveChild),
                (ReplyView::Flag(true), false) => self.failing(1).leaving(CleanupStage::Finished),
                (_, true) => self.leaving(CleanupStage::Inspect).passing(),
                (_, false) => self.leaving(CleanupStage::Finished),
            },
            CleanupStage::RemoveChild => match reply {
                ReplyView::Failed(_) => CleanupView { stage: CleanupStage::ChildLeft, ..self },
                _ => self.succeeded().passing(),
            },
            CleanupStage::ChildLeft => match reply {
                ReplyView::Flag(true) => self.failing(1).passing(),
                _ => self.passing(),
            },
            CleanupStage::Finished => self,
        }
    }
}

/// Law: a cleanup that goes on stays well-formed.
pub proof fn law_cleanup_stays_well_formed(cleanup: CleanupView, reply: ReplyView)
    requires
        cleanup.well_formed(),
        cleanup.accepts(reply),
    ensures
        cleanup.next(reply).well_formed(),
{
    let after = cleanup.next(reply);
    assert forall|k: int| 0 <= k < after.frames.len() - 1 implies (
    #[trigger] after.frames[k]).has_entry() by {
        if k < cleanup.frames.len() - 1 {
            assert(after.frames[k] == cleanup.frames[k]);
        } else {
            assert(after.frames[k] == cleanup.top());
        }
    }
    if cleanup.inner() {
        assert(cleanup.frames.drop_last().last() == cleanup.frames[cleanup.frames.len() - 2]);
    }
}

/// Starts the cleanup of a directory: the files in it and the directories that are empty then are removed
/// one by one, and at last the directory itself. What is removed below the directory is counted, and so is
/// what cannot be read or removed.
pub fn cleanup_dir_contents(platform: Platform, dir: &str) -> (res: DirCleanup)
    ensures
        res@ == CleanupView::start(platform, dir@),
        res@.well_formed(),
{
    let frame = Frame { dir: dir.to_owned(), names: Vec::new(), next: 0 };
    assert(frame@ =~= FrameView::of(dir@));
    let mut frames: Vec<Frame> = Vec::new();
    frames.push(frame);
    let res = DirCleanup { platform, frames, stage: CleanupStage::List, deleted: 0, failed: 0 };
    assert(res@ =~= CleanupView::start(platform, dir@));
    res
}

impl DirCleanup {
    /// How many files and directories below the outermost directory were removed, and how many failures
    /// there were: directories and entries that could not be read, and files and directories that could not
    /// be removed. A directory that stays is counted once.
    pub fn counts(&self) -> (res: (usize, usize))
        ensures
            res.0 == self@.deleted,
            res.1 == self@.failed,
    {
        (self.deleted, self.failed)
    }

    fn top_dir(&self) -> (res: String)
        requires
            self@.frames.len() > 0,
        ensures
            res@ == self@.top().dir,
    {
        self.frames[self.frames.len() - 1].dir.clone()
    }

    fn top_entry(&self) -> (res: String)
        requires
            self@.frames.len() > 0,
            self@.top().has_entry(),
        ensures
            res@ == self@.top().entry(self@.platform),
    {
        let top = &self.frames[self.frames.len() - 1];
        assert(top@ == self@.top());
        join_name(self.platform, top.dir.as_str(), top.names[top.next].as_str())
    }

    /// The request that the cleanup waits for; none when it is over.
    pub fn request(&self) -> (res: Option<Request>)
        requires
            self@.well_formed(),
        ensures
            match (res, self@.request()) {
                (Some(request), Some(expected)) => request@ == expected,
                (None, None) => true,
                _ => false,
            },
    {
        match self.stage {
            CleanupStage::List => Some(Request::ReadDir(self.top_dir())),
            CleanupStage::Inspect => Some(Request::IsDir(self.top_entry())),
            CleanupStage::RemoveFile => Some(Request::RemoveFile(self.top_entry())),
            CleanupStage::RemoveSelf => Some(Request::RemoveDir(self.top_dir())),
            CleanupStage::SelfLeft => Some(Request::Exists(self.top_dir())),
            CleanupStage::RemoveChild => Some(Request::RemoveDir(self.top_entry())),
            CleanupStage::ChildLeft => Some(Request::Exists(self.top_entry())),
            CleanupStage::Finished => None,
        }
    }

    /// Whether the cleanup can go on with a reply.
    pub fn accepts(&self, reply: &Reply) -> (res: bool)
        requires
            self@.well_formed(),
        ensures
            res == self@.accepts(reply@),
    {
        match self.request() {
            Some(request) => {
                let cost: usize = match reply {
                    Reply::Listing(entries) => {
                        let names = entry_names(entries);
                        assert(names@.len() == texts(names@).len());
                        entries.len() - names.len()
                    },
                    _ => 1,
                };
                reply.answers(&request) && self.deleted < usize::MAX && self.failed <= usize::MAX
                    - cost
            },
            None => false,
        }
    }

    fn proceed(&mut self)
        requires
            old(self)@.frames.len() > 0,
        ensures
            final(self)@ == old(self)@.proceeding(),
    {
        let top = &self.frames[self.frames.len() - 1];
        assert(top@ == self@.top());
        let more = top.next < top.names.len();
        self.stage =
        if more {
            CleanupStage::Inspect
        } else {
            CleanupStage::RemoveSelf
        };
    }

    fn pass(&mut self)
        requires
            old(self)@.frames.len() > 0,
            old(self)@.top().has_entry(),
        ensures
            final(self)@ == old(self)@.passing(),
    {
        let ghost before = self.frames@;
        if let Some(frame) = self.frames.pop() {
            let mut top = frame;
            proof {
                lemma_frames_drop_last(before);
                assert(before.drop_last() =~= self.frames@);
                assert(top@ == old(self)@.top());
            }
            assert(top.next < top.names.len());
            top.next = top.next + 1;
            proof {
                assert(top@ =~= old(self)@.top().passed());
                lemma_frames_push(self.frames@, top);
            }
            self.frames.push(top);
        }
        assert(self@ =~= old(self)@.with_top(old(self)@.top().passed()));
        self.proceed();
    }

    fn leave(&mut self, stage: CleanupStage)
        requires
            old(self)@.frames.len() > 0,
        ensures
            final(self)@ == old(self)@.leaving(stage),
    {
        let ghost before = self.frames@;
        proof {
            lemma_frames_drop_last(before);
        }
        self.frames.pop();
        assert(self.frames@ =~= before.drop_last());
        self.stage =
        if self.frames.len() > 0 {
            stage
        } else {
            CleanupStage::Finished
        };
    }

    /// Goes on with the reply to the request.
    pub fn advance(&mut self, reply: Reply)
        requires
            old(self)@.well_formed(),
            old(self)@.accepts(reply@),
        ensures
            final(self)@ == old(self)@.next(reply@),
            final(self)@.well_formed(),
    {
        let ghost start = self@;
        let ghost given = reply@;
        proof {
            law_cleanup_stays_well_formed(self@, reply@);
            assert(start.frames.len() > 0);
            assert(start.frames[start.frames.len() - 1] == start.top());
            if start.inner() {
                assert(start.frames.drop_last().last() == start.frames[start.frames.len() - 2]);
            }
        }
        match self.stage {
            CleanupStage::List => match reply {
                Reply::Listing(entries) => {
                    let names = entry_names(&entries);
                    assert(names@.len() == texts(names@).len());
                    self.failed = self.failed + (entries.len() - names.len());
                    let ghost before = self.frames@;
                    if let Some(frame) = self.frames.pop() {
                        proof {
                            lemma_frames_drop_last(before);
                            assert(before.drop_last() =~= self.frames@);
                        }
                        let top = Frame { dir: frame.dir, names, next: 0 };
                        proof {
                            lemma_frames_push(self.frames@, top);
                        }
                        self.frames.push(top);
                    }
                    assert(self@ =~= start.failing(CleanupView::cost(given)).with_top(
                        FrameView { names: named(given->Listing_0), next: 0, ..start.top() },
                    ));
                    self.proceed();
                },
                _ => {
                    self.failed = self.failed + 1;
                    self.stage = CleanupStage::RemoveSelf;
                },
            },
            CleanupStage::Inspect => match reply {
                Reply::Flag(true) => {
                    let frame = Frame { dir: self.top_entry(), names: Vec::new(), next: 0 };
                    proof {
                        assert(frame@ =~= FrameView::of(start.top().entry(start.platform)));
                        lemma_frames_push(self.frames@, frame);
                    }
                    self.frames.push(frame);
                    self.stage = CleanupStage::List;
                },
                _ => {
                    self.stage = CleanupStage::RemoveFile;
                },
            },
            CleanupStage::RemoveFile => match reply {
                Reply::Failed(_) => {
                    self.failed = self.failed + 1;
                    self.pass();
                },
                _ => {
                    self.deleted = self.deleted + 1;
                    self.pass();
                },
            },
            CleanupStage::RemoveSelf => match reply {
                Reply::Failed(_) => {
                    self.stage = CleanupStage::SelfLeft;
                },
                _ => {
                    let inner = self.frames.len() > 1;
                    self.leave(CleanupStage::Inspect);
                    if inner {
                        self.deleted = self.deleted + 1;
                        self.pass();
                    }
                },
            },
            CleanupStage::SelfLeft => match reply {
                Reply::Flag(true) => {
                    if self.frames.len() == 1 {
                        self.failed = self.failed + 1;
                    }
                    self.leave(CleanupStage::RemoveChild);
                },
                _ => {
                    let inner = self.frames.len() > 1;
                    self.leave(CleanupStage::Inspect);
                    if inner {
                        self.pass();
                    }
                },
            },
            CleanupStage::RemoveChild => match reply {
                Reply::Failed(_) => {
                    self.stage = CleanupStage::ChildLeft;
                },
                _ => {
                    self.deleted = self.deleted + 1;
                    self.pass();
                },
            },
            CleanupStage::ChildLeft => match reply {
                Reply::Flag(true) => {
                    self.failed = self.failed + 1;
                    self.pass();
                },
                _ => self.pass(),
            },
            CleanupStage::Finished => {},
        }
    }
}

} // verus!
