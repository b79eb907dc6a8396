//! Removing a file or a directory, whichever is there.

use vstd::prelude::*;
use crate::disk::{Reply, ReplyView, Request, RequestView};
use crate::transaction::outcome_view;

verus! {

/// How far a removal has come.
#[derive(Clone, Copy, Debug, PartialEq, Eq, Structural)]
pub enum RemovalStage {
    /// Looking whether the path is there.
    Probe,
    /// Looking whether it is a directory.
    Inspect,
    /// Removing a directory.
    RemoveDir,
    /// Removing a file.
    RemoveFile,
    /// The removal is over.
    Finished,
}

/// A removal under way.
#[derive(Debug)]
pub struct PathRemoval {
    path: String,
    stage: RemovalStage,
    outcome: Option<Result<(), String>>,
}

/// What a [`PathRemoval`] holds.
pub struct RemovalView {
    pub path: Seq<char>,
    pub stage: RemovalStage,
    pub outcome: Option<Result<(), Seq<char>>>,
}

impl View for PathRemoval {
    type V = RemovalView;

    closed spec fn view(&self) -> RemovalView {
        RemovalView {
            path: self.path@,
            stage: self.stage,
            outcome: outcome_view(self.outcome),
        }
    }
}

impl RemovalView {
    /// A removal before its first step.
    pub open spec fn start(path: Seq<char>) -> RemovalView {
        RemovalView { path, stage: RemovalStage::Probe, outcome: None }
    }

    /// Whether the removal is over just where it has an outcome.
    pub open spec fn well_formed(self) -> bool {
        self.stage == RemovalStage::Finished <==> self.outcome is Some
    }

    /// The next request; none when the removal is over.
    pub open spec fn request(self) -> Option<RequestView> {
        match self.stage {
            RemovalStage::Probe => Some(RequestView::Exists(self.path)),
            RemovalStage::Inspect => Some(RequestView::IsDir(self.path)),
            RemovalStage::RemoveDir => Some(RequestView::RemoveDirAll(self.path)),
            RemovalStage::RemoveFile => Some(RequestView::RemoveFile(self.path)),
            RemovalStage::Finished => None,
        }
    }

    /// Whether a reply is one that the next request can have.
    pub open spec fn accepts(self, reply: ReplyView) -> bool {
        self.request() matches Some(request) && reply.answers(request)
    }

    /// The removal that has ended.
    pub open spec fn ended(self, outcome: Result<(), Seq<char>>) -> RemovalView {
        RemovalView { stage: RemovalStage::Finished, outcome: Some(outcome), ..self }
    }

    /// The removal after a reply to its request.
    pub open spec fn next(self, reply: ReplyView) -> RemovalView {
        match self.stage {
            RemovalStage::Probe => match reply {
                ReplyView::Flag(true) => RemovalView { stage: RemovalStage::Inspect, ..self },
                _ => self.ended(Ok(())),
            },
            RemovalStage::Inspect => match reply {
                ReplyView::Flag(true) => RemovalView { stage: RemovalStage::RemoveDir, ..self },
                _ => RemovalView { stage: RemovalStage::RemoveFile, ..self },
            },
            RemovalStage::RemoveDir | RemovalStage::RemoveFile => match reply {
                ReplyView::Failed(f) => self.ended(Err(f.detailed())),
                _ => self.ended(Ok(())),
            },
            RemovalStage::Finished => self,
        }
    }
}

/// Law: a removal succeeds just where the path was not there or removing it did not fail, and removes
/// nothing where the path was not there.
pub proof fn law_removal_ends_as_the_path_is_gone(removal: RemovalView, reply: ReplyView)
    requires
        removal.well_formed(),
        removal.accepts(reply),
        removal.next(reply).outcome is Some,
    ensures
        removal.next(reply).outcome == Some(Ok::<(), Seq<char>>(())) <==> (removal.request() == Some(
            RequestView::Exists(removal.path),
        ) && reply == ReplyView::Flag(false)) || reply is Done,
        removal.next(reply).outcome matches Some(Err(_)) <==> reply is Failed,
{
}

/// Starts the removal of a file or a directory.
pub fn remove_path_if_exists(path: &str) -> (res: PathRemoval)
    ensures
        res@ == RemovalView::start(path@),
        res@.well_formed(),
{
    PathRemoval { path: path.to_owned(), stage: RemovalStage::Probe, outcome: None }
}

impl PathRemoval {
    /// What the removal has come to, once it is over.
    pub fn outcome(self) -> (res: Option<Result<(), String>>)
        ensures
            outcome_view(res) == self@.outcome,
    {
        self.outcome
    }

    /// The request that the removal waits for; none when it is over.
    pub fn request(&self) -> (res: Option<Request>)
        ensures
            match (res, self@.request()) {
                (Some(request), Some(expected)) => request@ == expected,
                (None, None) => true,
                _ => false,
            },
    {
        match self.stage {
            RemovalStage::Probe => Some(Request::Exists(self.path.clone())),
            RemovalStage::Inspect => Some(Request::IsDir(self.path.clone())),
            RemovalStage::RemoveDir => Some(Request::RemoveDirAll(self.path.clone())),
            RemovalStage::RemoveFile => Some(Request::RemoveFile(self.path.clone())),
            RemovalStage::Finished => None,
        }
    }

    /// Whether the removal can go on with a reply.
    pub fn accepts(&self, reply: &Reply) -> (res: bool)
        ensures
            res == self@.accepts(reply@),
    {
        match self.request() {
            Some(request) => reply.answers(&request),
            None => false,
        }
    }

    fn end(&mut self, outcome: Result<(), String>)
        ensures
            final(self)@ == old(self)@.ended(
                match outcome {
                    Ok(()) => Ok(()),
                    Err(message) => Err(message@),
                },
            ),
    {
        self.stage = RemovalStage::Finished;
        self.outcome = Some(outcome);
    }

    /// Goes on with the reply to the request.
    pub fn advance(&mut self, reply: Reply)
        requires
            old(self)@.well_formed(),
            old(self)@.accepts(reply@),
        ensures
            final(self)@ == old(self)@.next(reply@),
            final(self)@.well_formed(),
    {
        match self.stage {
            RemovalStage::Probe => match reply {
                Reply::Flag(true) => {
                    self.stage = RemovalStage::Inspect;
                },
                _ => self.end(Ok(())),
            },
            RemovalStage::Inspect => match reply {
                Reply::Flag(true) => {
                    self.stage = RemovalStage::RemoveDir;
                },
                _ => {
                    self.stage = RemovalStage::RemoveFile;
                },
            },
            RemovalStage::RemoveDir | RemovalStage::RemoveFile => match reply {
                Reply::Failed(f) => self.end(Err(f.detailed())),
                _ => self.end(Ok(())),
            },
            RemovalStage::Finished => {},
        }
    }
}

} // verus!
