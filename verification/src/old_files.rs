//! Moving a file or a directory out of the way, into the directory for old files.

use vstd::prelude::*;
use crate::disk::{Reply, ReplyView, Request, RequestView};
use crate::path::{file_name_of, join_name, last_name, under, Platform};
use crate::text::{report_at, report_between, three_digit_text, three_digits};
use crate::transaction::{optional_text, outcome_view};

verus! {

/// How far a move has come.
#[derive(Clone, Copy, Debug, PartialEq, Eq, Structural)]
pub enum MoveStage {
    /// Looking whether there is something to move.
    ProbeSource,
    /// Looking whether the directory for old files is there.
    ProbeOld,
    /// Removing that directory with what earlier moves left in it.
    RemoveOld,
    /// Removing what can be removed of it.
    CleanOld,
    /// Creating that directory.
    CreateOld,
    /// Looking whether a name is taken in it: the plain name, or the one with this suffix.
    ProbeName(u32),
    /// Moving there under that name.
    Rename(u32),
    /// The move is over.
    Finished,
}

/// A move under way.
#[derive(Debug)]
pub struct MoveToOld {
    platform: Platform,
    source: String,
    /// The last component of the source, where it has a name.
    file_name: Option<String>,
    /// The directory of the program, or why it is not known.
    exe_dir: Result<String, String>,
    stage: MoveStage,
    outcome: Option<Result<(), String>>,
}

/// What a result of texts holds.
pub open spec fn text_result(result: Result<String, String>) -> Result<Seq<char>, Seq<char>> {
    match result {
        Ok(text) => Ok(text@),
        Err(error) => Err(error@),
    }
}

/// What a [`MoveToOld`] holds.
pub struct MoveView {
    pub platform: Platform,
    pub source: Seq<char>,
    pub file_name: Option<Seq<char>>,
    pub exe_dir: Result<Seq<char>, Seq<char>>,
    pub stage: MoveStage,
    pub outcome: Option<Result<(), Seq<char>>>,
}

impl View for MoveToOld {
    type V = MoveView;

    closed spec fn view(&self) -> MoveView {
        MoveView {
            platform: self.platform,
            source: self.source@,
            file_name: optional_text(self.file_name),
            exe_dir: text_result(self.exe_dir),
            stage: self.stage,
            outcome: outcome_view(self.outcome),
        }
    }
}

impl MoveView {
    /// A move before its first step.
    pub open spec fn start(
        platform: Platform,
        source: Seq<char>,
        exe_dir: Result<Seq<char>, Seq<char>>,
    ) -> MoveView {
        MoveView {
            platform,
            source,
            file_name: last_name(platform, source),
            exe_dir,
            stage: MoveStage::ProbeSource,
            outcome: None,
        }
    }

    /// Whether what a stage needs is known, and the move is over just where it has an outcome.
    pub open spec fn well_formed(self) -> bool {
        &&& match self.stage {
            MoveStage::ProbeSource | MoveStage::Finished => true,
            MoveStage::ProbeName(n) | MoveStage::Rename(n) => {
                &&& self.exe_dir is Ok
                &&& self.file_name is Some
                &&& n <= 999
            },
            _ => self.exe_dir is Ok,
        }
        &&& self.stage == MoveStage::Finished <==> self.outcome is Some
    }

    /// The directory for old files.
    pub open spec fn old_dir(self) -> Seq<char> {
        under(self.platform, under(self.platform, self.exe_dir->Ok_0, "cache"@), "old"@)
    }

    /// The name that a file is moved under: its own, or with a numbered suffix.
    pub open spec fn name(self, n: u32) -> Seq<char> {
        if n == 0 {
            self.file_name->Some_0
        } else {
            self.file_name->Some_0 + ".bak"@ + three_digits(n as nat)
        }
    }

    /// Where a file is moved to.
    pub open spec fn dest(self, n: u32) -> Seq<char> {
        under(self.platform, self.old_dir(), self.name(n))
    }

    /// The next request; none when the move is over.
    pub open spec fn request(self) -> Option<RequestView> {
        match self.stage {
            MoveStage::ProbeSource => Some(RequestView::Exists(self.source)),
            MoveStage::ProbeOld => Some(RequestView::Exists(self.old_dir())),
            MoveStage::RemoveOld => Some(RequestView::RemoveDirAll(self.old_dir())),
            MoveStage::CleanOld => Some(RequestView::CleanupDirContents(self.old_dir())),
            MoveStage::CreateOld => Some(RequestView::CreateDirAll(self.old_dir())),
            MoveStage::ProbeName(n) => Some(RequestView::Exists(self.dest(n))),
            MoveStage::Rename(n) => Some(
                RequestView::Rename { from: self.source, to: self.dest(n) },
            ),
            MoveStage::Finished => None,
        }
    }

    /// Whether a reply is one that the next request can have.
    pub open spec fn accepts(self, reply: ReplyView) -> bool {
        self.request() matches Some(request) && reply.answers(request)
    }

    /// The move at another stage.
    pub open spec fn at(self, stage: MoveStage) -> MoveView {
        MoveView { stage, ..self }
    }

    /// The move that has ended.
    pub open spec fn ended(self, outcome: Result<(), Seq<char>>) -> MoveView {
        MoveView { stage: MoveStage::Finished, outcome: Some(outcome), ..self }
    }

    /// The move after a reply to its request.
    pub open spec fn next(self, reply: ReplyView) -> MoveView {
        match self.stage {
            MoveStage::ProbeSource => match reply {
                ReplyView::Flag(true) => match self.exe_dir {
                    Ok(_) => self.at(MoveStage::ProbeOld),
                    Err(error) => self.ended(Err(error)),
                },
                _ => self.ended(Ok(())),
            },
            MoveStage::ProbeOld => match reply {
                ReplyView::Flag(true) => self.at(MoveStage::RemoveOld),
                _ => self.at(MoveStage::CreateOld),
            },
            MoveStage::RemoveOld => match reply {
                ReplyView::Failed(_) => self.at(MoveStage::CleanOld),
                _ => self.at(MoveStage::CreateOld),
            },
            MoveStage::CleanOld => self.at(MoveStage::CreateOld),
            MoveStage::CreateOld => match reply {
                ReplyView::Failed(f) => self.ended(
                    Err("无法创建 old 目录 ["@ + self.old_dir() + "]: "@ + f.message),
                ),
                _ => match self.file_name {
                    Some(_) => self.at(MoveStage::ProbeName(0)),
                    None => self.ended(Err("无法获取文件名: "@ + self.source)),
                },
            },
            MoveStage::ProbeName(n) => match reply {
                ReplyView::Flag(true) => if n < 999 {
                    self.at(MoveStage::ProbeName((n + 1) as u32))
                } else {
                    self.at(MoveStage::Rename(n))
                },
                _ => self.at(MoveStage::Rename(n)),
            },
            MoveStage::Rename(n) => match reply {
                ReplyView::Failed(f) => self.ended(
                    Err(
                        "无法移动 ["@ + self.source + "] -> ["@ + self.dest(n) + "]: "@ + f.message,
                    ),
                ),
                _ => self.ended(Ok(())),
            },
            MoveStage::Finished => self,
        }
    }

    /// The move after it has found so many names taken in turn.
    pub open spec fn after_taken(self, count: nat) -> MoveView
        decreases count,
    {
        if count == 0 {
            self
        } else {
            self.after_taken((count - 1) as nat).next(ReplyView::Flag(true))
        }
    }
}

proof fn lemma_after_taken(moving: MoveView, count: nat)
    requires
        moving.stage == MoveStage::ProbeName(0),
        count <= 999,
    ensures
        moving.after_taken(count) == moving.at(MoveStage::ProbeName(count as u32)),
    decreases count,
{
    if count > 0 {
        lemma_after_taken(moving, (count - 1) as nat);
    }
}

/// Law: names are tried in turn, the plain one first and then those with the suffixes from 1 to 999,
/// and the file is moved under the first one that is free. Where all are taken, it is moved under
/// the last.
pub proof fn law_move_takes_the_first_free_name(moving: MoveView, taken: nat)
    requires
        moving.well_formed(),
        moving.stage == MoveStage::ProbeName(0),
        taken <= 999,
    ensures
        moving.after_taken(taken).request() == Some(
            RequestView::Exists(moving.dest(taken as u32)),
        ),
        moving.after_taken(taken).next(ReplyView::Flag(false)).request() == Some(
            RequestView::Rename { from: moving.source, to: moving.dest(taken as u32) },
        ),
        moving.after_taken(1000).request() == Some(
            RequestView::Rename { from: moving.source, to: moving.dest(999) },
        ),
{
    lemma_after_taken(moving, taken);
    lemma_after_taken(moving, 999);
    assert(moving.after_taken(1000) == moving.after_taken(999).next(ReplyView::Flag(true)));
}

/// Law: what is not there needs no move: the move succeeds at once and touches nothing.
pub proof fn law_nothing_to_move_is_no_error(moving: MoveView)
    requires
        moving.stage == MoveStage::ProbeSource,
    ensures
        moving.next(ReplyView::Flag(false)).outcome == Some(Ok::<(), Seq<char>>(())),
{
}

/// Starts the move of a file or a directory to the directory for old files, `cache/old` in the
/// directory of the program.
pub fn move_to_old_folder(
    platform: Platform,
    source: &str,
    exe_dir: Result<String, String>,
) -> (res: MoveToOld)
    ensures
        res@ == MoveView::start(platform, source@, text_result(exe_dir)),
        res@.well_formed(),
{
    MoveToOld {
        platform,
        source: source.to_owned(),
        file_name: file_name_of(platform, source),
        exe_dir,
        stage: MoveStage::ProbeSource,
        outcome: None,
    }
}

/// Starts the move of the file or directory at a path to the directory for old files.
pub fn move_file_to_old(
    platform: Platform,
    file_path: String,
    exe_dir: Result<String, String>,
) -> (res: MoveToOld)
    ensures
        res@ == MoveView::start(platform, file_path@, text_result(exe_dir)),
        res@.well_formed(),
{
    move_to_old_folder(platform, file_path.as_str(), exe_dir)
}

impl MoveToOld {
    /// What the move has come to, once it is over.
    pub fn outcome(self) -> (res: Option<Result<(), String>>)
        ensures
            outcome_view(res) == self@.outcome,
    {
        self.outcome
    }

    fn old_dir(&self) -> (res: String)
        requires
            self@.exe_dir is Ok,
        ensures
            res@ == self@.old_dir(),
    {
        match &self.exe_dir {
            Ok(dir) => {
                let cache = join_name(self.platform, dir.as_str(), "cache");
                join_name(self.platform, cache.as_str(), "old")
            },
            Err(_) => String::new(),
        }
    }

    fn dest(&self, n: u32) -> (res: String)
        requires
            self@.exe_dir is Ok,
            self@.file_name is Some,
            n <= 999,
        ensures
            res@ == self@.dest(n),
    {
        let mut name = match &self.file_name {
            Some(name) => name.clone(),
            None => String::new(),
        };
        if n > 0 {
            name.append(".bak");
            name.append(three_digit_text(n).as_str());
        }
        join_name(self.platform, self.old_dir().as_str(), name.as_str())
    }

    /// The request that the move waits for; none when it is over.
    pub fn request(&self) -> (res: Option<Request>)
        requires
            self@.well_formed(),
        ensures
            match (res, self@.request()) {
                (Some(request), Some(expected)) => request@ == expected,
                (None, None) => true,
                _ => false,
            },
    {
        match self.stage {
            MoveStage::ProbeSource => Some(Request::Exists(self.source.clone())),
            MoveStage::ProbeOld => Some(Request::Exists(self.old_dir())),
            MoveStage::RemoveOld => Some(Request::RemoveDirAll(self.old_dir())),
            MoveStage::CleanOld => Some(Request::CleanupDirContents(self.old_dir())),
            MoveStage::CreateOld => Some(Request::CreateDirAll(self.old_dir())),
            MoveStage::ProbeName(n) => Some(Request::Exists(self.dest(n))),
            MoveStage::Rename(n) => Some(
                Request::Rename { from: self.source.clone(), to: self.dest(n) },
            ),
            MoveStage::Finished => None,
        }
    }

    /// Whether the move can go on with a reply.
    pub fn accepts(&self, reply: &Reply) -> (res: bool)
        requires
            self@.well_formed(),
        ensures
            res == self@.accepts(reply@),
    {
        match self.request() {
            Some(request) => reply.answers(&request),
            None => false,
        }
    }

    fn end(&mut self, outcome: Result<(), String>)
        ensures
            final(self)@ == old(self)@.ended(
                match outcome {
                    Ok(()) => Ok(()),
                    Err(message) => Err(message@),
                },
            ),
    {
        self.stage = MoveStage::Finished;
        self.outcome = Some(outcome);
    }

    /// Goes on with the reply to the request.
    pub fn advance(&mut self, reply: Reply)
        requires
            old(self)@.well_formed(),
            old(self)@.accepts(reply@),
        ensures
            final(self)@ == old(self)@.next(reply@),
            final(self)@.well_formed(),
    {
        match self.stage {
            MoveStage::ProbeSource => match reply {
                Reply::Flag(true) => {
                    let unknown = match &self.exe_dir {
                        Ok(_) => None,
                        Err(error) => Some(error.clone()),
                    };
                    match unknown {
                        None => {
                            self.stage = MoveStage::ProbeOld;
                        },
                        Some(error) => self.end(Err(error)),
                    }
                },
                _ => self.end(Ok(())),
            },
            MoveStage::ProbeOld => match reply {
                Reply::Flag(true) => {
                    self.stage = MoveStage::RemoveOld;
                },
                _ => {
                    self.stage = MoveStage::CreateOld;
                },
            },
            MoveStage::RemoveOld => match reply {
                Reply::Failed(_) => {
                    self.stage = MoveStage::CleanOld;
                },
                _ => {
                    self.stage = MoveStage::CreateOld;
                },
            },
            MoveStage::CleanOld => {
                self.stage = MoveStage::CreateOld;
            },
            MoveStage::CreateOld => match reply {
                Reply::Failed(f) => {
                    let message = report_at(
                        "无法创建 old 目录 [",
                        self.old_dir().as_str(),
                        f.message.as_str(),
                    );
                    self.end(Err(message));
                },
                _ => {
                    if self.file_name.is_some() {
                        self.stage = MoveStage::ProbeName(0);
                    } else {
                        let mut message = "无法获取文件名: ".to_owned();
                        message.append(self.source.as_str());
                        self.end(Err(message));
                    }
                },
            },
            MoveStage::ProbeName(n) => match reply {
                Reply::Flag(true) => {
                    self.stage =
                    if n < 999 {
                        MoveStage::ProbeName(n + 1)
                    } else {
                        MoveStage::Rename(n)
                    };
                },
                _ => {
                    self.stage = MoveStage::Rename(n);
                },
            },
            MoveStage::Rename(n) => match reply {
                Reply::Failed(f) => {
                    let message = report_between(
                        "无法移动 [",
                        self.source.as_str(),
                        self.dest(n).as_str(),
                        f.message.as_str(),
                    );
                    self.end(Err(message));
                },
                _ => self.end(Ok(())),
            },
            MoveStage::Finished => {},
        }
    }
}

} // verus!
