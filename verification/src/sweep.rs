//! Removing the transactions of earlier updates that were committed.

use vstd::prelude::*;
use crate::disk::{entry_names, named, Reply, ReplyView, Request, RequestView};
use crate::path::{join_name, under, Platform};
use crate::text::texts;

verus! {

/// How far a sweep has come.
#[derive(Clone, Copy, Debug, PartialEq, Eq, Structural)]
pub enum SweepStage {
    /// Listing the transactions.
    List,
    /// Looking whether a transaction was committed.
    Check(usize),
    /// Removing a committed transaction.
    Remove(usize),
    /// The sweep is over.
    Finished,
}

/// A sweep under way.
#[derive(Debug)]
pub struct CommittedSweep {
    platform: Platform,
    base: String,
    names: Vec<String>,
    stage: SweepStage,
}

/// What a [`CommittedSweep`] holds.
#[verifier::ext_equal]
pub struct SweepView {
    pub platform: Platform,
    pub base: Seq<char>,
    pub names: Seq<Seq<char>>,
    pub stage: SweepStage,
}

impl View for CommittedSweep {
    type V = SweepView;

    closed spec fn view(&self) -> SweepView {
        SweepView {
            platform: self.platform,
            base: self.base@,
            names: texts(self.names@),
            stage: self.stage,
        }
    }
}

impl SweepView {
    /// A sweep before its first step.
    pub open spec fn start(platform: Platform, base: Seq<char>) -> SweepView {
        SweepView { platform, base, names: Seq::empty(), stage: SweepStage::List }
    }

    /// Whether the stage names a transaction that there is.
    pub open spec fn well_formed(self) -> bool {
        &&& self.names.len() <= usize::MAX
        &&& match self.stage {
            SweepStage::Check(i) | SweepStage::Remove(i) => i < self.names.len(),
            _ => true,
        }
    }

    /// The directory of a transaction.
    pub open spec fn transaction(self, i: int) -> Seq<char> {
        under(self.platform, self.base, self.names[i])
    }

    /// The next request; none when the sweep is over.
    pub open spec fn request(self) -> Option<RequestView> {
        match self.stage {
            SweepStage::List => Some(RequestView::ReadDir(self.base)),
            SweepStage::Check(i) => Some(
                RequestView::IsFile(
                    under(self.platform, self.transaction(i as int), "COMMITTED"@),
                ),
            ),
            SweepStage::Remove(i) => Some(RequestView::RemoveDirAll(self.transaction(i as int))),
            SweepStage::Finished => None,
        }
    }

    /// Whether a reply is one that the next request can have.
    pub open spec fn accepts(self, reply: ReplyView) -> bool {
        self.request() matches Some(request) && reply.answers(request)
    }

    /// Going on to a transaction, or ending where there is none left.
    pub open spec fn checking(self, i: int) -> SweepView {
        SweepView {
            stage: if i < self.names.len() {
                SweepStage::Check(i as usize)
            } else {
                SweepStage::Finished
            },
            ..self
        }
    }

    /// The sweep after a reply to its request. What cannot be listed or removed is passed over.
    pub open spec fn next(self, reply: ReplyView) -> SweepView {
        match self.stage {
            SweepStage::List => match reply {
                ReplyView::Listing(entries) => SweepView {
                    names: named(entries),
                    ..self
                }.checking(0),
                _ => SweepView { stage: SweepStage::Finished, ..self },
            },
            SweepStage::Check(i) => match reply {
                ReplyView::Flag(true) => SweepView { stage: SweepStage::Remove(i), ..self },
                _ => self.checking(i + 1),
            },
            SweepStage::Remove(i) => self.checking(i + 1),
            SweepStage::Finished => self,
        }
    }

    /// How many of the listed transactions are still to be looked at.
    pub open spec fn left(self) -> int {
        match self.stage {
            SweepStage::Check(i) => self.names.len() - i,
            SweepStage::Remove(i) => self.names.len() - i - 1,
            _ => 0,
        }
    }
}

/// Law: only a transaction that was just found to be committed is removed.
pub proof fn law_only_committed_transactions_are_removed(sweep: SweepView, reply: ReplyView)
    requires
        sweep.well_formed(),
        sweep.accepts(reply),
        sweep.next(reply).request() matches Some(RequestView::RemoveDirAll(_)),
    ensures
        sweep.request() == Some(
            RequestView::IsFile(
                under(
                    sweep.platform,
                    sweep.next(reply).request()->Some_0->RemoveDirAll_0,
                    "COMMITTED"@,
                ),
            ),
        ),
        reply == ReplyView::Flag(true),
{
}

/// Law: every transaction that was found to be committed is removed: the sweep asks for the removal
/// next, and passes each listed transaction once.
pub proof fn law_every_committed_transaction_is_removed(sweep: SweepView, reply: ReplyView)
    requires
        sweep.well_formed(),
        sweep.accepts(reply),
        sweep.stage is Check,
    ensures
        reply == ReplyView::Flag(true) ==> sweep.next(reply).request() == Some(
            RequestView::RemoveDirAll(sweep.transaction(sweep.stage->Check_0 as int)),
        ),
        sweep.next(reply).left() == sweep.left() - 1,
        reply == ReplyView::Flag(true) ==> forall|removed: ReplyView|
            (#[trigger] sweep.next(reply).next(removed)).left() == sweep.left() - 1,
{
}

/// Starts the removal of the committed transactions below a directory.
pub fn cleanup_previous_committed_transactions(platform: Platform, base: &str) -> (res:
    CommittedSweep)
    ensures
        res@ == SweepView::start(platform, base@),
        res@.well_formed(),
{
    let res = CommittedSweep {
        platform,
        base: base.to_owned(),
        names: Vec::new(),
        stage: SweepStage::List,
    };
    assert(res@ =~= SweepView::start(platform, base@));
    res
}

impl CommittedSweep {
    fn transaction(&self, i: usize) -> (res: String)
        requires
            i < self@.names.len(),
        ensures
            res@ == self@.transaction(i as int),
    {
        join_name(self.platform, self.base.as_str(), self.names[i].as_str())
    }

    /// The request that the sweep waits for; none when it is over.
    pub fn request(&self) -> (res: Option<Request>)
        requires
            self@.well_formed(),
        ensures
            match (res, self@.request()) {
                (Some(request), Some(expected)) => request@ == expected,
                (None, None) => true,
                _ => false,
            },
    {
        match self.stage {
            SweepStage::List => Some(Request::ReadDir(self.base.clone())),
            SweepStage::Check(i) => Some(
                Request::IsFile(
                    join_name(self.platform, self.transaction(i).as_str(), "COMMITTED"),
                ),
            ),
            SweepStage::Remove(i) => Some(Request::RemoveDirAll(self.transaction(i))),
            SweepStage::Finished => None,
        }
    }

    /// Whether the sweep can go on with a reply.
    pub fn accepts(&self, reply: &Reply) -> (res: bool)
        requires
            self@.well_formed(),
        ensures
            res == self@.accepts(reply@),
    {
        match self.request() {
            Some(request) => reply.answers(&request),
            None => false,
        }
    }

    fn check(&mut self, i: usize)
        ensures
            final(self)@ == old(self)@.checking(i as int),
    {
        self.stage =
        if i < self.names.len() {
            SweepStage::Check(i)
        } else {
            SweepStage::Finished
        };
    }

    /// Goes on with the reply to the request.
    pub fn advance(&mut self, reply: Reply)
        requires
            old(self)@.well_formed(),
            old(self)@.accepts(reply@),
        ensures
            final(self)@ == old(self)@.next(reply@),
            final(self)@.well_formed(),
    {
        match self.stage {
            SweepStage::List => match reply {
                Reply::Listing(entries) => {
                    self.names = entry_names(&entries);
                    assert(self.names.len() <= usize::MAX);
                    self.check(0);
                },
                _ => {
                    self.stage = SweepStage::Finished;
                },
            },
            SweepStage::Check(i) => match reply {
                Reply::Flag(true) => {
                    self.stage = SweepStage::Remove(i);
                },
                _ => {
                    assert(i < self.names.len());
                    self.check(i + 1);
                },
            },
            SweepStage::Remove(i) => {
                assert(i < self.names.len());
                self.check(i + 1);
            },
            SweepStage::Finished => {},
        }
    }
}

} // verus!
