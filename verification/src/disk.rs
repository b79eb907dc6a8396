//! What the library asks of a file system, and what comes back.
//!
//! The procedures of the library never touch a disk. Each is a state machine that hands out one
//! [`Request`] at a time and goes on with the [`Reply`] to it.

use vstd::prelude::*;
use crate::changes::{ChangesJson, ChangesView};
use crate::text::{lemma_texts_push, signed_decimal, signed_decimal_text, texts};

verus! {

/// One item of a directory listing: the name of an entry, or why it could not be read.
#[derive(Debug)]
pub enum Listed {
    Name(String),
    Failed(String),
}

/// What a [`Listed`] holds.
pub enum ListedView {
    Name(Seq<char>),
    Failed(Seq<char>),
}

impl View for Listed {
    type V = ListedView;

    open spec fn view(&self) -> ListedView {
        match self {
            Listed::Name(name) => ListedView::Name(name@),
            Listed::Failed(error) => ListedView::Failed(error@),
        }
    }
}

/// The items that a directory listing holds.
pub open spec fn listing(entries: Seq<Listed>) -> Seq<ListedView> {
    entries.map_values(|e: Listed| e@)
}

/// The names in a directory listing, without the entries that could not be read.
pub open spec fn named(entries: Seq<ListedView>) -> Seq<Seq<char>>
    decreases entries.len(),
{
    if entries.len() == 0 {
        Seq::empty()
    } else {
        match entries.last() {
            ListedView::Name(name) => named(entries.drop_last()).push(name),
            ListedView::Failed(_) => named(entries.drop_last()),
        }
    }
}

/// The names in a directory listing, without the entries that could not be read.
pub fn entry_names(entries: &Vec<Listed>) -> (res: Vec<String>)
    ensures
        texts(res@) == named(listing(entries@)),
        res@.len() <= entries@.len(),
{
    let mut res: Vec<String> = Vec::new();
    let ghost all = listing(entries@);
    let mut i: usize = 0;
    proof {
        assert(all.take(0) =~= Seq::empty());
        assert(texts(res@) =~= named(all.take(0)));
    }
    while i < entries.len()
        invariant
            i <= entries@.len(),
            all == listing(entries@),
            texts(res@) == named(all.take(i as int)),
            res@.len() <= i,
        decreases entries.len() - i,
    {
        proof {
            assert(all.take(i + 1).drop_last() =~= all.take(i as int));
            assert(all.take(i + 1).last() == entries@[i as int]@);
        }
        match &entries[i] {
            Listed::Name(name) => {
                let name = name.clone();
                proof {
                    lemma_texts_push(res@, name);
                }
                res.push(name);
            },
            Listed::Failed(_) => {},
        }
        i = i + 1;
    }
    proof {
        assert(all.take(i as int) =~= all);
    }
    res
}

/// Why an operation on files failed: the text of the error, and the code of the operating system
/// where there is one.
#[derive(Debug)]
pub struct IoFailure {
    pub message: String,
    pub raw_os_error: Option<i32>,
}

/// What an [`IoFailure`] holds.
pub struct IoFailureView {
    pub message: Seq<char>,
    pub raw_os_error: Option<i32>,
}

impl View for IoFailure {
    type V = IoFailureView;

    open spec fn view(&self) -> IoFailureView {
        IoFailureView { message: self.message@, raw_os_error: self.raw_os_error }
    }
}

/// The code of the operating system as it is written in error texts.
pub open spec fn os_error_text(code: Option<i32>) -> Seq<char> {
    match code {
        Some(n) => "Some("@ + signed_decimal(n as int) + ")"@,
        None => "None"@,
    }
}

impl IoFailureView {
    /// The error text followed by the code of the operating system.
    pub open spec fn detailed(self) -> Seq<char> {
        self.message + ", raw_os_error="@ + os_error_text(self.raw_os_error)
    }
}

impl IoFailure {
    /// The error text followed by the code of the operating system.
    pub fn detailed(&self) -> (res: String)
        ensures
            res@ == self@.detailed(),
    {
        let mut code = String::new();
        match self.raw_os_error {
            Some(n) => {
                code = "Some(".to_owned();
                code.append(signed_decimal_text(n).as_str());
                code.append(")");
            },
            None => {
                code = "None".to_owned();
            },
        }
        let mut res = self.message.clone();
        res.append(", raw_os_error=");
        res.append(code.as_str());
        res
    }
}

impl Clone for IoFailure {
    fn clone(&self) -> (res: IoFailure)
        ensures
            res@ == self@,
    {
        IoFailure { message: self.message.clone(), raw_os_error: self.raw_os_error }
    }
}

/// An operation that a procedure waits for.
#[derive(Debug)]
pub enum Request {
    /// Whether the path exists.
    Exists(String),
    /// Whether the path is a directory.
    IsDir(String),
    /// Whether the path is a file.
    IsFile(String),
    /// Create the directory and its missing parents.
    CreateDirAll(String),
    /// List the entries of the directory.
    ReadDir(String),
    /// Read the manifest.
    ReadManifest(String),
    /// Remove the file.
    RemoveFile(String),
    /// Remove the empty directory.
    RemoveDir(String),
    /// Remove the directory and all that it holds.
    RemoveDirAll(String),
    /// Rename once.
    Rename { from: String, to: String },
    /// Copy one file.
    CopyFile { from: String, to: String },
    /// Wait for some milliseconds.
    Sleep(u64),
    /// Write the marker of a committed transaction.
    MarkCommitted { path: String, content: String },
    /// Rename, by [`crate::rename::RenameRetry`].
    RenameWithRetry { from: String, to: String },
    /// Copy a file or a directory of an update, by [`crate::copy::TreeCopy`].
    CopyEntry { from: String, to: String },
    /// Copy a directory, by [`crate::copy::TreeCopy`].
    CopyDirRecursive { from: String, to: String },
    /// Copy what a directory holds but for the entries named, by [`crate::copy::TreeCopy`].
    CopyDirContents { from: String, to: String, skip: Vec<String> },
    /// Remove a file or a directory if it is there, by [`crate::remove::PathRemoval`].
    RemovePathIfExists(String),
    /// Remove the committed transactions below a directory, by [`crate::sweep::CommittedSweep`].
    SweepCommitted(String),
    /// Remove a directory piece by piece, by [`crate::cleanup::DirCleanup`].
    CleanupDirContents(String),
}

/// What a [`Request`] holds.
pub enum RequestView {
    Exists(Seq<char>),
    IsDir(Seq<char>),
    IsFile(Seq<char>),
    CreateDirAll(Seq<char>),
    ReadDir(Seq<char>),
    ReadManifest(Seq<char>),
    RemoveFile(Seq<char>),
    RemoveDir(Seq<char>),
    RemoveDirAll(Seq<char>),
    Rename { from: Seq<char>, to: Seq<char> },
    CopyFile { from: Seq<char>, to: Seq<char> },
    Sleep(u64),
    MarkCommitted { path: Seq<char>, content: Seq<char> },
    RenameWithRetry { from: Seq<char>, to: Seq<char> },
    CopyEntry { from: Seq<char>, to: Seq<char> },
    CopyDirRecursive { from: Seq<char>, to: Seq<char> },
    CopyDirContents { from: Seq<char>, to: Seq<char>, skip: Seq<Seq<char>> },
    RemovePathIfExists(Seq<char>),
    SweepCommitted(Seq<char>),
    CleanupDirContents(Seq<char>),
}

impl View for Request {
    type V = RequestView;

    open spec fn view(&self) -> RequestView {
        match self {
            Request::Exists(path) => RequestView::Exists(path@),
            Request::IsDir(path) => RequestView::IsDir(path@),
            Request::IsFile(path) => RequestView::IsFile(path@),
            Request::CreateDirAll(path) => RequestView::CreateDirAll(path@),
            Request::ReadDir(path) => RequestView::ReadDir(path@),
            Request::ReadManifest(path) => RequestView::ReadManifest(path@),
            Request::RemoveFile(path) => RequestView::RemoveFile(path@),
            Request::RemoveDir(path) => RequestView::RemoveDir(path@),
            Request::RemoveDirAll(path) => RequestView::RemoveDirAll(path@),
            Request::Rename { from, to } => RequestView::Rename { from: from@, to: to@ },
            Request::CopyFile { from, to } => RequestView::CopyFile { from: from@, to: to@ },
            Request::Sleep(millis) => RequestView::Sleep(*millis),
            Request::MarkCommitted { path, content } => RequestView::MarkCommitted {
                path: path@,
                content: content@,
            },
            Request::RenameWithRetry { from, to } => RequestView::RenameWithRetry {
                from: from@,
                to: to@,
            },
            Request::CopyEntry { from, to } => RequestView::CopyEntry { from: from@, to: to@ },
            Request::CopyDirRecursive { from, to } => RequestView::CopyDirRecursive {
                from: from@,
                to: to@,
            },
            Request::CopyDirContents { from, to, skip } => RequestView::CopyDirContents {
                from: from@,
                to: to@,
                skip: texts(skip@),
            },
            Request::RemovePathIfExists(path) => RequestView::RemovePathIfExists(path@),
            Request::SweepCommitted(path) => RequestView::SweepCommitted(path@),
            Request::CleanupDirContents(path) => RequestView::CleanupDirContents(path@),
        }
    }
}

/// What came of a [`Request`].
#[derive(Debug)]
pub enum Reply {
    /// The answer to a question.
    Flag(bool),
    /// The operation succeeded.
    Done,
    /// The operation failed.
    Failed(IoFailure),
    /// The entries of a directory.
    Listing(Vec<Listed>),
    /// What a manifest declares, or why it does not hold what it should.
    Manifest(Result<ChangesJson, String>),
}

/// What a [`Reply`] holds.
pub enum ReplyView {
    Flag(bool),
    Done,
    Failed(IoFailureView),
    Listing(Seq<ListedView>),
    Manifest(Result<ChangesView, Seq<char>>),
}

impl View for Reply {
    type V = ReplyView;

    open spec fn view(&self) -> ReplyView {
        match self {
            Reply::Flag(answer) => ReplyView::Flag(*answer),
            Reply::Done => ReplyView::Done,
            Reply::Failed(failure) => ReplyView::Failed(failure@),
            Reply::Listing(entries) => ReplyView::Listing(listing(entries@)),
            Reply::Manifest(Ok(changes)) => ReplyView::Manifest(Ok(changes@)),
            Reply::Manifest(Err(error)) => ReplyView::Manifest(Err(error@)),
        }
    }
}

impl ReplyView {
    /// Whether the reply is of a kind that the request can have.
    pub open spec fn answers(self, request: RequestView) -> bool {
        match request {
            RequestView::Exists(_) | RequestView::IsDir(_) | RequestView::IsFile(_) => self is Flag,
            RequestView::ReadDir(_) => self is Listing || self is Failed,
            RequestView::ReadManifest(_) => self is Manifest || self is Failed,
            RequestView::Sleep(_) | RequestView::SweepCommitted(_)
            | RequestView::CleanupDirContents(_) => self is Done,
            _ => self is Done || self is Failed,
        }
    }
}

impl Reply {
    /// Whether the reply is of a kind that the request can have.
    pub fn answers(&self, request: &Request) -> (res: bool)
        ensures
            res == self@.answers(request@),
    {
        match request {
            Request::Exists(_) | Request::IsDir(_) | Request::IsFile(_) => match self {
                Reply::Flag(_) => true,
                _ => false,
            },
            Request::ReadDir(_) => match self {
                Reply::Listing(_) | Reply::Failed(_) => true,
                _ => false,
            },
            Request::ReadManifest(_) => match self {
                Reply::Manifest(_) | Reply::Failed(_) => true,
                _ => false,
            },
            Request::Sleep(_) | Request::SweepCommitted(_) | Request::CleanupDirContents(_) => match self {
                Reply::Done => true,
                _ => false,
            },
            _ => match self {
                Reply::Done | Reply::Failed(_) => true,
                _ => false,
            },
        }
    }
}

} // verus!
