//! Copying files and directory trees.

use vstd::prelude::*;
use crate::disk::{listing, IoFailureView, Listed, ListedView, Reply, ReplyView, Request, RequestView};
use crate::path::{join_name, parent_dir, parent_of, under, Platform};
use crate::text::{report_at, report_between, same_text, texts};
use crate::transaction::outcome_view;

verus! {

/// How a copy treats files and reports errors.
#[derive(Clone, Copy, Debug, PartialEq, Eq, Structural)]
pub enum CopyStyle {
    /// The copy of an update: the directory that a file goes to is created first.
    Update,
    /// A plain copy.
    Plain,
}

/// Something that a copy has still to do.
#[derive(Debug)]
pub enum Job {
    /// Copy what is at one path to another.
    Entry { from: String, to: String },
    /// Report an entry that could not be read.
    Unreadable(String),
}

/// What a [`Job`] holds.
pub enum JobView {
    Entry { from: Seq<char>, to: Seq<char> },
    Unreadable(Seq<char>),
}

impl View for Job {
    type V = JobView;

    open spec fn view(&self) -> JobView {
        match self {
            Job::Entry { from, to } => JobView::Entry { from: from@, to: to@ },
            Job::Unreadable(error) => JobView::Unreadable(error@),
        }
    }
}

/// The jobs that a sequence holds.
pub open spec fn jobs(list: Seq<Job>) -> Seq<JobView> {
    list.map_values(|j: Job| j@)
}

proof fn lemma_jobs_push(list: Seq<Job>, job: Job)
    ensures
        jobs(list.push(job)) == jobs(list).push(job@),
{
    assert(jobs(list.push(job)) =~= jobs(list).push(job@));
}

/// How far the copy of one path has come.
#[derive(Clone, Copy, Debug, PartialEq, Eq, Structural)]
pub enum CopyStage {
    /// Looking whether the path is a directory.
    Inspect,
    /// Creating the directory that it is copied to.
    MakeDir,
    /// Listing the directory.
    List,
    /// Creating the directory that the file goes to.
    MakeParent,
    /// Copying the file.
    CopyFile,
    /// The copy is over.
    Finished,
}

/// A copy under way.
#[derive(Debug)]
pub struct TreeCopy {
    platform: Platform,
    style: CopyStyle,
    /// The names that are left out of the first listing.
    skip: Vec<String>,
    from: String,
    to: String,
    /// What is left to do, the next job last.
    pending: Vec<Job>,
    stage: CopyStage,
    outcome: Option<Result<(), String>>,
}

/// What a [`TreeCopy`] holds.
#[verifier::ext_equal]
pub struct CopyView {
    pub platform: Platform,
    pub style: CopyStyle,
    pub skip: Seq<Seq<char>>,
    pub from: Seq<char>,
    pub to: Seq<char>,
    pub pending: Seq<JobView>,
    pub stage: CopyStage,
    pub outcome: Option<Result<(), Seq<char>>>,
}

impl View for TreeCopy {
    type V = CopyView;

    closed spec fn view(&self) -> CopyView {
        CopyView {
            platform: self.platform,
            style: self.style,
            skip: texts(self.skip@),
            from: self.from@,
            to: self.to@,
            pending: jobs(self.pending@),
            stage: self.stage,
            outcome: outcome_view(self.outcome),
        }
    }
}

/// The jobs that the entries of a directory lead to, the first entry last; the names to be skipped
/// are left out.
pub open spec fn queue(
    platform: Platform,
    from: Seq<char>,
    to: Seq<char>,
    skip: Seq<Seq<char>>,
    entries: Seq<ListedView>,
) -> Seq<JobView>
    decreases entries.len(),
{
    if entries.len() == 0 {
        Seq::empty()
    } else {
        let rest = queue(platform, from, to, skip, entries.drop_first());
        match entries.first() {
            ListedView::Failed(error) => rest.push(JobView::Unreadable(error)),
            ListedView::Name(name) => if skip.contains(name) {
                rest
            } else {
                rest.push(
                    JobView::Entry {
                        from: under(platform, from, name),
                        to: under(platform, to, name),
                    },
                )
            },
        }
    }
}

impl CopyView {
    /// The copy of a file or a directory of an update.
    pub open spec fn of_entry(platform: Platform, from: Seq<char>, to: Seq<char>) -> CopyView {
        CopyView {
            platform,
            style: CopyStyle::Update,
            skip: Seq::empty(),
            from,
            to,
            pending: Seq::empty(),
            stage: CopyStage::Inspect,
            outcome: None,
        }
    }

    /// The plain copy of what a directory holds but for some names directly below it.
    pub open spec fn of_contents(
        platform: Platform,
        from: Seq<char>,
        to: Seq<char>,
        skip: Seq<Seq<char>>,
    ) -> CopyView {
        CopyView {
            platform,
            style: CopyStyle::Plain,
            skip,
            from,
            to,
            pending: Seq::empty(),
            stage: CopyStage::MakeDir,
            outcome: None,
        }
    }

    /// Whether the copy is over just where it has an outcome, and a directory is created for a file
    /// only where there is one to create.
    pub open spec fn well_formed(self) -> bool {
        &&& self.stage == CopyStage::Finished <==> self.outcome is Some
        &&& self.stage == CopyStage::MakeParent ==> parent_of(self.platform, self.to) is Some
    }

    /// The next request; none when the copy is over.
    pub open spec fn request(self) -> Option<RequestView> {
        match self.stage {
            CopyStage::Inspect => Some(RequestView::IsDir(self.from)),
            CopyStage::MakeDir => Some(RequestView::CreateDirAll(self.to)),
            CopyStage::List => Some(RequestView::ReadDir(self.from)),
            CopyStage::MakeParent => Some(
                RequestView::CreateDirAll(parent_of(self.platform, self.to)->Some_0),
            ),
            CopyStage::CopyFile => Some(RequestView::CopyFile { from: self.from, to: self.to }),
            CopyStage::Finished => None,
        }
    }

    /// Whether a reply is one that the next request can have.
    pub open spec fn accepts(self, reply: ReplyView) -> bool {
        self.request() matches Some(request) && reply.answers(request)
    }

    /// The copy that has failed.
    pub open spec fn failed(self, message: Seq<char>) -> CopyView {
        CopyView { stage: CopyStage::Finished, outcome: Some(Err(message)), ..self }
    }

    /// What is reported where a directory cannot be created.
    pub open spec fn make_dir_failure(self, failure: IoFailureView) -> Seq<char> {
        match self.style {
            CopyStyle::Update => "无法创建更新目录 ["@ + self.to + "]: "@ + failure.message,
            CopyStyle::Plain => "无法创建目录 ["@ + self.to + "]: "@ + failure.message,
        }
    }

    /// What is reported where a directory cannot be listed.
    pub open spec fn list_failure(self, failure: IoFailureView) -> Seq<char> {
        match self.style {
            CopyStyle::Update => "无法读取更新目录 ["@ + self.from + "]: "@ + failure.message,
            CopyStyle::Plain => "无法读取目录 ["@ + self.from + "]: "@ + failure.message,
        }
    }

    /// What is reported where an entry of a directory cannot be read.
    pub open spec fn entry_failure(self, error: Seq<char>) -> Seq<char> {
        match self.style {
            CopyStyle::Update => "无法读取更新目录条目: "@ + error,
            CopyStyle::Plain => "无法读取目录条目: "@ + error,
        }
    }

    /// What is reported where the directory that a file goes to cannot be created.
    pub open spec fn make_parent_failure(self, failure: IoFailureView) -> Seq<char> {
        "无法创建更新父目录 ["@ + parent_of(self.platform, self.to)->Some_0 + "]: "@ + failure.message
    }

    /// What is reported where a file cannot be copied.
    pub open spec fn copy_failure(self, failure: IoFailureView) -> Seq<char> {
        match self.style {
            CopyStyle::Update => "无法复制更新文件 ["@ + self.from + "] -> ["@ + self.to + "]: "@
                + failure.detailed(),
            CopyStyle::Plain => "无法复制文件 ["@ + self.from + "] -> ["@ + self.to + "]: "@
                + failure.message,
        }
    }

    /// Going on to the next job, or ending where there is none.
    pub open spec fn resumed(self) -> CopyView {
        if self.pending.len() == 0 {
            CopyView {
                from: Seq::empty(),
                to: Seq::empty(),
                stage: CopyStage::Finished,
                outcome: Some(Ok(())),
                ..self
            }
        } else {
            match self.pending.last() {
                JobView::Entry { from, to } => CopyView {
                    from,
                    to,
                    pending: self.pending.drop_last(),
                    stage: CopyStage::Inspect,
                    ..self
                },
                JobView::Unreadable(error) => CopyView {
                    from: Seq::empty(),
                    to: Seq::empty(),
                    pending: self.pending.drop_last(),
                    ..self
                }.failed(self.entry_failure(error)),
            }
        }
    }

    /// The copy after a reply to its request.
    pub open spec fn next(self, reply: ReplyView) -> CopyView {
        match self.stage {
            CopyStage::Inspect => match reply {
                ReplyView::Flag(true) => CopyView { stage: CopyStage::MakeDir, ..self },
                _ => if self.style == CopyStyle::Update && parent_of(
                    self.platform,
                    self.to,
                ) is Some {
                    CopyView { stage: CopyStage::MakeParent, ..self }
                } else {
                    CopyView { stage: CopyStage::CopyFile, ..self }
                },
            },
            CopyStage::MakeDir => match reply {
                ReplyView::Failed(f) => self.failed(self.make_dir_failure(f)),
                _ => CopyView { stage: CopyStage::List, ..self },
            },
            CopyStage::List => match reply {
                ReplyView::Listing(entries) => CopyView {
                    skip: Seq::empty(),
                    pending: self.pending + queue(
                        self.platform,
                        self.from,
                        self.to,
                        self.skip,
                        entries,
                    ),
                    ..self
                }.resumed(),
                ReplyView::Failed(f) => self.failed(self.list_failure(f)),
                _ => self,
            },
            CopyStage::MakeParent => match reply {
                ReplyView::Failed(f) => self.failed(self.make_parent_failure(f)),
                _ => CopyView { stage: CopyStage::CopyFile, ..self },
            },
            CopyStage::CopyFile => match reply {
                ReplyView::Failed(f) => self.failed(self.copy_failure(f)),
                _ => self.resumed(),
            },
            CopyStage::Finished => self,
        }
    }
}

/// Whether a name is one of those to be skipped.
fn is_skipped(skip: &Vec<String>, name: &str) -> (res: bool)
    ensures
        res == texts(skip@).contains(name@),
{
    let mut i: usize = 0;
    while i < skip.len()
        invariant
            i <= skip@.len(),
            forall|j: int| 0 <= j < i ==> #[trigger] texts(skip@)[j] != name@,
        decreases skip.len() - i,
    {
        if same_text(skip[i].as_str(), name) {
            assert(texts(skip@)[i as int] == name@);
            return true;
        }
        i = i + 1;
    }
    false
}

/// Starts the copy of a file or a directory of an update.
pub fn copy_entry(platform: Platform, from: &str, to: &str) -> (res: TreeCopy)
    ensures
        res@ == CopyView::of_entry(platform, from@, to@),
        res@.well_formed(),
{
    let res = TreeCopy {
        platform,
        style: CopyStyle::Update,
        skip: Vec::new(),
        from: from.to_owned(),
        to: to.to_owned(),
        pending: Vec::new(),
        stage: CopyStage::Inspect,
        outcome: None,
    };
    assert(res@ =~= CopyView::of_entry(platform, from@, to@));
    res
}

/// Starts the plain copy of what a directory holds, but for some names directly below it.
pub fn copy_dir_contents(platform: Platform, from: &str, to: &str, skip: Vec<String>) -> (res:
    TreeCopy)
    ensures
        res@ == CopyView::of_contents(platform, from@, to@, texts(skip@)),
        res@.well_formed(),
{
    let res = TreeCopy {
        platform,
        style: CopyStyle::Plain,
        skip,
        from: from.to_owned(),
        to: to.to_owned(),
        pending: Vec::new(),
        stage: CopyStage::MakeDir,
        outcome: None,
    };
    assert(res@ =~= CopyView::of_contents(platform, from@, to@, texts(skip@)));
    res
}

/// Starts the plain copy of a directory.
pub fn copy_dir_recursive(platform: Platform, from: &str, to: &str) -> (res: TreeCopy)
    ensures
        res@ == CopyView::of_contents(platform, from@, to@, Seq::empty()),
        res@.well_formed(),
{
    let none: Vec<String> = Vec::new();
    assert(texts(none@) =~= Seq::empty());
    copy_dir_contents(platform, from, to, none)
}

impl TreeCopy {
    /// What the copy has come to, once it is over.
    pub fn outcome(self) -> (res: Option<Result<(), String>>)
        ensures
            outcome_view(res) == self@.outcome,
    {
        self.outcome
    }

    /// The request that the copy waits for; none when it is over.
    pub fn request(&self) -> (res: Option<Request>)
        requires
            self@.well_formed(),
        ensures
            match (res, self@.request()) {
                (Some(request), Some(expected)) => request@ == expected,
                (None, None) => true,
                _ => false,
            },
    {
        match self.stage {
            CopyStage::Inspect => Some(Request::IsDir(self.from.clone())),
            CopyStage::MakeDir => Some(Request::CreateDirAll(self.to.clone())),
            CopyStage::List => Some(Request::ReadDir(self.from.clone())),
            CopyStage::MakeParent => match parent_dir(self.platform, self.to.as_str()) {
                Some(parent) => Some(Request::CreateDirAll(parent)),
                None => None,
            },
            CopyStage::CopyFile => Some(
                Request::CopyFile { from: self.from.clone(), to: self.to.clone() },
            ),
            CopyStage::Finished => None,
        }
    }

    /// Whether the copy can go on with a reply.
    pub fn accepts(&self, reply: &Reply) -> (res: bool)
        requires
            self@.well_formed(),
        ensures
            res == self@.accepts(reply@),
    {
        match self.request() {
            Some(request) => reply.answers(&request),
            None => false,
        }
    }

    fn fail(&mut self, message: String)
        ensures
            final(self)@ == old(self)@.failed(message@),
    {
        self.stage = CopyStage::Finished;
        self.outcome = Some(Err(message));
    }

    fn resume(&mut self)
        ensures
            final(self)@ == old(self)@.resumed(),
    {
        let ghost before = self.pending@;
        match self.pending.pop() {
            None => {
                self.from = String::new();
                self.to = String::new();
                self.stage = CopyStage::Finished;
                self.outcome = Some(Ok(()));
                assert(self@ =~= old(self)@.resumed());
            },
            Some(job) => {
                proof {
                    assert(jobs(before).last() == job@);
                    assert(jobs(self.pending@) =~= jobs(before).drop_last());
                }
                match job {
                    Job::Entry { from, to } => {
                        self.from = from;
                        self.to = to;
                        self.stage = CopyStage::Inspect;
                    },
                    Job::Unreadable(error) => {
                        let mut message = match self.style {
                            CopyStyle::Update => "无法读取更新目录条目: ".to_owned(),
                            CopyStyle::Plain => "无法读取目录条目: ".to_owned(),
                        };
                        message.append(error.as_str());
                        self.from = String::new();
                        self.to = String::new();
                        self.fail(message);
                        assert(self@ =~= old(self)@.resumed());
                    },
                }
            },
        }
    }

    fn enqueue(&mut self, entries: &Vec<Listed>)
        ensures
            final(self)@ == (CopyView {
                pending: old(self)@.pending + queue(
                    old(self)@.platform,
                    old(self)@.from,
                    old(self)@.to,
                    old(self)@.skip,
                    listing(entries@),
                ),
                ..old(self)@
            }),
    {
        let ghost all = listing(entries@);
        let ghost before = self@;
        let mut i: usize = entries.len();
        proof {
            assert(all.skip(all.len() as int) =~= Seq::empty());
            assert(self@.pending =~= before.pending + queue(
                before.platform,
                before.from,
                before.to,
                before.skip,
                all.skip(i as int),
            ));
        }
        while i > 0
            invariant
                i <= entries@.len(),
                all == listing(entries@),
                self@ == (CopyView {
                    pending: before.pending + queue(
                        before.platform,
                        before.from,
                        before.to,
                        before.skip,
                        all.skip(i as int),
                    ),
                    ..before
                }),
            decreases i,
        {
            i = i - 1;
            let ghost done = queue(
                before.platform,
                before.from,
                before.to,
                before.skip,
                all.skip(i + 1),
            );
            proof {
                assert(all.skip(i as int).drop_first() =~= all.skip(i + 1));
                assert(all.skip(i as int).first() == entries@[i as int]@);
            }
            match &entries[i] {
                Listed::Failed(error) => {
                    let job = Job::Unreadable(error.clone());
                    proof {
                        lemma_jobs_push(self.pending@, job);
                        assert((before.pending + done).push(job@) =~= before.pending + done.push(
                            job@,
                        ));
                    }
                    self.pending.push(job);
                },
                Listed::Name(name) => {
                    if !is_skipped(&self.skip, name.as_str()) {
                        let job = Job::Entry {
                            from: join_name(self.platform, self.from.as_str(), name.as_str()),
                            to: join_name(self.platform, self.to.as_str(), name.as_str()),
                        };
                        proof {
                            lemma_jobs_push(self.pending@, job);
                            assert((before.pending + done).push(job@) =~= before.pending
                                + done.push(job@));
                        }
                        self.pending.push(job);
                    }
                },
            }
        }
        proof {
            assert(all.skip(0) =~= all);
        }
    }

    /// Goes on with the reply to the request.
    pub fn advance(&mut self, reply: Reply)
        requires
            old(self)@.well_formed(),
            old(self)@.accepts(reply@),
        ensures
            final(self)@ == old(self)@.next(reply@),
            final(self)@.well_formed(),
    {
        match self.stage {
            CopyStage::Inspect => match reply {
                Reply::Flag(true) => {
                    self.stage = CopyStage::MakeDir;
                },
                _ => {
                    let has_parent = parent_dir(self.platform, self.to.as_str()).is_some();
                    self.stage =
                    if self.style == CopyStyle::Update && has_parent {
                        CopyStage::MakeParent
                    } else {
                        CopyStage::CopyFile
                    };
                },
            },
            CopyStage::MakeDir => match reply {
                Reply::Failed(f) => {
                    let before = match self.style {
                        CopyStyle::Update => "无法创建更新目录 [",
                        CopyStyle::Plain => "无法创建目录 [",
                    };
                    let message = report_at(before, self.to.as_str(), f.message.as_str());
                    self.fail(message);
                },
                _ => {
                    self.stage = CopyStage::List;
                },
            },
            CopyStage::List => match reply {
                Reply::Listing(entries) => {
                    self.enqueue(&entries);
                    self.skip = Vec::new();
                    assert(texts(self.skip@) =~= Seq::empty());
                    self.resume();
                },
                Reply::Failed(f) => {
                    let before = match self.style {
                        CopyStyle::Update => "无法读取更新目录 [",
                        CopyStyle::Plain => "无法读取目录 [",
                    };
                    let message = report_at(before, self.from.as_str(), f.message.as_str());
                    self.fail(message);
                },
                _ => {},
            },
            CopyStage::MakeParent => match reply {
                Reply::Failed(f) => {
                    if let Some(parent) = parent_dir(self.platform, self.to.as_str()) {
                        let message = report_at(
                            "无法创建更新父目录 [",
                            parent.as_str(),
                            f.message.as_str(),
                        );
                        self.fail(message);
                    }
                },
                _ => {
                    self.stage = CopyStage::CopyFile;
                },
            },
            CopyStage::CopyFile => match reply {
                Reply::Failed(f) => {
                    let message = match self.style {
                        CopyStyle::Update => report_between(
                            "无法复制更新文件 [",
                            self.from.as_str(),
                            self.to.as_str(),
                            f.detailed().as_str(),
                        ),
                        CopyStyle::Plain => report_between(
                            "无法复制文件 [",
                            self.from.as_str(),
                            self.to.as_str(),
                            f.message.as_str(),
                        ),
                    };
                    self.fail(message);
                },
                _ => {
                    self.resume();
                },
            },
            CopyStage::Finished => {},
        }
    }
}

} // verus!
