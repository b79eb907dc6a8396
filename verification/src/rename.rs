//! Renaming on a file system where a file may be locked for a moment.

use vstd::prelude::*;
use crate::disk::{IoFailure, IoFailureView, Reply, ReplyView, Request, RequestView};
use crate::path::Platform;

verus! {

/// Whether a failure to rename can pass by itself: on Windows, where the file is in use or a part of
/// it is locked.
pub open spec fn retryable(platform: Platform, raw_os_error: Option<i32>) -> bool {
    platform == Platform::Windows && (raw_os_error == Some(32i32) || raw_os_error == Some(33i32))
}

/// Whether a failure to rename can pass by itself.
pub fn is_retryable_lock_error(platform: Platform, raw_os_error: Option<i32>) -> (res: bool)
    ensures
        res == retryable(platform, raw_os_error),
{
    match raw_os_error {
        Some(code) => platform == Platform::Windows && (code == 32 || code == 33),
        None => false,
    }
}

/// How long to wait after a failed attempt, in milliseconds.
pub open spec fn delay(attempt: u32) -> u64 {
    if attempt == 0 {
        50
    } else if attempt == 1 {
        100
    } else if attempt == 2 {
        200
    } else {
        400
    }
}

fn delay_after(attempt: u32) -> (res: u64)
    ensures
        res == delay(attempt),
{
    match attempt {
        0 => 50,
        1 => 100,
        2 => 200,
        _ => 400,
    }
}

/// How far a rename has come.
#[derive(Clone, Copy, Debug, PartialEq, Eq, Structural)]
pub enum RenameStage {
    /// Trying, after this many failed attempts.
    Attempt(u32),
    /// Waiting after the attempt with this number.
    Pause(u32),
    /// The rename is over.
    Finished,
}

/// A rename under way.
#[derive(Debug)]
pub struct RenameRetry {
    platform: Platform,
    from: String,
    to: String,
    stage: RenameStage,
    outcome: Option<Result<(), IoFailure>>,
}

/// What an outcome holds.
pub open spec fn rename_outcome(outcome: Option<Result<(), IoFailure>>) -> Option<
    Result<(), IoFailureView>,
> {
    match outcome {
        None => None,
        Some(Ok(())) => Some(Ok(())),
        Some(Err(failure)) => Some(Err(failure@)),
    }
}

/// What a [`RenameRetry`] holds.
pub struct RenameView {
    pub platform: Platform,
    pub from: Seq<char>,
    pub to: Seq<char>,
    pub stage: RenameStage,
    pub outcome: Option<Result<(), IoFailureView>>,
}

impl View for RenameRetry {
    type V = RenameView;

    closed spec fn view(&self) -> RenameView {
        RenameView {
            platform: self.platform,
            from: self.from@,
            to: self.to@,
            stage: self.stage,
            outcome: rename_outcome(self.outcome),
        }
    }
}

impl RenameView {
    /// A rename before its first attempt.
    pub open spec fn start(platform: Platform, from: Seq<char>, to: Seq<char>) -> RenameView {
        RenameView { platform, from, to, stage: RenameStage::Attempt(0), outcome: None }
    }

    /// Whether the rename keeps within its five attempts, and is over just where it has an outcome.
    pub open spec fn well_formed(self) -> bool {
        &&& match self.stage {
            RenameStage::Attempt(k) => k <= 4,
            RenameStage::Pause(k) => k < 4,
            RenameStage::Finished => true,
        }
        &&& self.stage == RenameStage::Finished <==> self.outcome is Some
    }

    /// The next request; none when the rename is over.
    pub open spec fn request(self) -> Option<RequestView> {
        match self.stage {
            RenameStage::Attempt(_) => Some(RequestView::Rename { from: self.from, to: self.to }),
            RenameStage::Pause(k) => Some(RequestView::Sleep(delay(k))),
            RenameStage::Finished => None,
        }
    }

    /// Whether a reply is one that the next request can have.
    pub open spec fn accepts(self, reply: ReplyView) -> bool {
        self.request() matches Some(request) && reply.answers(request)
    }

    /// The rename that has ended.
    pub open spec fn ended(self, outcome: Result<(), IoFailureView>) -> RenameView {
        RenameView { stage: RenameStage::Finished, outcome: Some(outcome), ..self }
    }

    /// The rename after a reply to its request.
    pub open spec fn next(self, reply: ReplyView) -> RenameView {
        match self.stage {
            RenameStage::Attempt(k) => match reply {
                ReplyView::Failed(f) => if k < 4 && retryable(self.platform, f.raw_os_error) {
                    RenameView { stage: RenameStage::Pause(k), ..self }
                } else {
                    self.ended(Err(f))
                },
                _ => self.ended(Ok(())),
            },
            RenameStage::Pause(k) => RenameView { stage: RenameStage::Attempt((k + 1) as u32), ..self },
            RenameStage::Finished => self,
        }
    }

    /// How many attempts can still follow.
    pub open spec fn attempts_left(self) -> int {
        match self.stage {
            RenameStage::Attempt(k) => 5 - k,
            RenameStage::Pause(k) => 4 - k,
            RenameStage::Finished => 0,
        }
    }

    /// How many milliseconds the rename can still wait.
    pub open spec fn waiting_left(self) -> int {
        match self.stage {
            RenameStage::Attempt(k) | RenameStage::Pause(k) => if k == 0 {
                750
            } else if k == 1 {
                700
            } else if k == 2 {
                600
            } else if k == 3 {
                400
            } else {
                0
            },
            RenameStage::Finished => 0,
        }
    }
}

/// Law: a rename is tried five times at most, and waits 750 milliseconds at most: each attempt uses
/// one of the attempts left, each pause uses its length of the waiting left, and nothing adds to
/// either.
pub proof fn law_rename_attempts_and_waiting_are_bounded(rename: RenameView, reply: ReplyView)
    requires
        rename.well_formed(),
        rename.accepts(reply),
    ensures
        RenameView::start(rename.platform, rename.from, rename.to).attempts_left() == 5,
        RenameView::start(rename.platform, rename.from, rename.to).waiting_left() == 750,
        rename.next(reply).attempts_left() >= 0,
        rename.next(reply).waiting_left() >= 0,
        rename.request()->Some_0 is Rename ==> rename.next(reply).attempts_left()
            < rename.attempts_left() && rename.next(reply).waiting_left() <= rename.waiting_left(),
        rename.request() matches Some(RequestView::Sleep(millis)) ==> rename.next(
            reply,
        ).attempts_left() == rename.attempts_left() && rename.next(reply).waiting_left() + millis
            == rename.waiting_left(),
{
}

/// Law: a rename succeeds just where its last attempt does, and reports the failure of that attempt
/// otherwise.
pub proof fn law_rename_ends_as_its_last_attempt(rename: RenameView, reply: ReplyView)
    requires
        rename.well_formed(),
        rename.accepts(reply),
        rename.next(reply).outcome is Some,
    ensures
        rename.request()->Some_0 is Rename,
        reply is Done ==> rename.next(reply).outcome == Some(Ok::<(), IoFailureView>(())),
        reply matches ReplyView::Failed(f) ==> rename.next(reply).outcome == Some(
            Err::<(), IoFailureView>(f),
        ),
{
}

/// Law: only a lock that can pass is waited for; off Windows a rename is tried once.
pub proof fn law_only_locks_are_waited_for(rename: RenameView, failure: IoFailureView)
    requires
        rename.well_formed(),
        rename.request() is Some,
        rename.request()->Some_0 is Rename,
        !retryable(rename.platform, failure.raw_os_error),
    ensures
        rename.next(ReplyView::Failed(failure)).outcome == Some(Err::<(), IoFailureView>(failure)),
        rename.platform == Platform::Unix ==> !retryable(rename.platform, failure.raw_os_error),
{
}

/// Starts a rename that waits for locks to pass.
pub fn rename_with_retry(platform: Platform, from: &str, to: &str) -> (res: RenameRetry)
    ensures
        res@ == RenameView::start(platform, from@, to@),
        res@.well_formed(),
{
    RenameRetry {
        platform,
        from: from.to_owned(),
        to: to.to_owned(),
        stage: RenameStage::Attempt(0),
        outcome: None,
    }
}

impl RenameRetry {
    /// What the rename has come to, once it is over.
    pub fn outcome(self) -> (res: Option<Result<(), IoFailure>>)
        ensures
            rename_outcome(res) == self@.outcome,
    {
        self.outcome
    }

    /// The request that the rename waits for; none when it is over.
    pub fn request(&self) -> (res: Option<Request>)
        ensures
            match (res, self@.request()) {
                (Some(request), Some(expected)) => request@ == expected,
                (None, None) => true,
                _ => false,
            },
    {
        match self.stage {
            RenameStage::Attempt(_) => Some(
                Request::Rename { from: self.from.clone(), to: self.to.clone() },
            ),
            RenameStage::Pause(k) => Some(Request::Sleep(delay_after(k))),
            RenameStage::Finished => None,
        }
    }

    /// Whether the rename can go on with a reply.
    pub fn accepts(&self, reply: &Reply) -> (res: bool)
        ensures
            res == self@.accepts(reply@),
    {
        match self.request() {
            Some(request) => reply.answers(&request),
            None => false,
        }
    }

    /// Goes on with the reply to the request.
    pub fn advance(&mut self, reply: Reply)
        requires
            old(self)@.well_formed(),
            old(self)@.accepts(reply@),
        ensures
            final(self)@ == old(self)@.next(reply@),
            final(self)@.well_formed(),
    {
        match self.stage {
            RenameStage::Attempt(k) => match reply {
                Reply::Failed(f) => {
                    if k < 4 && is_retryable_lock_error(self.platform, f.raw_os_error) {
                        self.stage = RenameStage::Pause(k);
                    } else {
                        self.stage = RenameStage::Finished;
                        self.outcome = Some(Err(f));
                    }
                },
                _ => {
                    self.stage = RenameStage::Finished;
                    self.outcome = Some(Ok(()));
                },
            },
            RenameStage::Pause(k) => {
                self.stage = RenameStage::Attempt(k + 1);
            },
            RenameStage::Finished => {},
        }
    }
}

} // verus!
