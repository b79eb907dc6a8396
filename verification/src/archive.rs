//! Extracting a package, a ZIP or a compressed tar archive.

use vstd::prelude::*;
use crate::path::{join_name, parent_dir, parent_of, under, Platform};
use crate::text::{decimal, decimal_text, ends_with, has_suffix, report_at};
use crate::transaction::{optional_text, outcome_view};

verus! {

/// The formats of packages.
#[derive(Clone, Copy, Debug, PartialEq, Eq, Structural)]
pub enum ArchiveKind {
    Zip,
    TarGz,
}

/// What `str::to_lowercase` makes of a text.
pub uninterp spec fn lowercase(text: Seq<char>) -> Seq<char>;

/// `str::to_lowercase`: the text in lower case, by the mapping of Unicode. The result depends on
/// the text alone, and is known here by its name only.
#[verifier::external_body]
fn to_lowercase(text: &str) -> (res: String)
    ensures
        res@ == lowercase(text@),
{
    text.to_lowercase()
}

/// The format of a package, by its file name in lower case.
pub open spec fn kind_of(lowered: Seq<char>) -> ArchiveKind {
    if has_suffix(lowered, ".tar.gz"@) || has_suffix(lowered, ".tgz"@) {
        ArchiveKind::TarGz
    } else {
        ArchiveKind::Zip
    }
}

/// The format of a package, by its file name in lower case: a compressed tar archive where the name
/// ends with `.tar.gz` or `.tgz`, and a ZIP archive otherwise.
pub fn kind_of_lowered(lowered: &str) -> (res: ArchiveKind)
    ensures
        res == kind_of(lowered@),
{
    if ends_with(lowered, ".tar.gz") || ends_with(lowered, ".tgz") {
        ArchiveKind::TarGz
    } else {
        ArchiveKind::Zip
    }
}

/// An operation that an extraction waits for.
#[derive(Debug)]
pub enum ArchiveRequest {
    /// Open the file of the archive.
    Open(String),
    /// Read the directory of the opened ZIP archive.
    Parse,
    /// Create the directory and its missing parents.
    CreateDirAll(String),
    /// Extract the opened tar archive into the directory.
    Unpack(String),
    /// Read what the ZIP archive says of one of its entries.
    ReadEntry(usize),
    /// Whether the path exists.
    Exists(String),
    /// Create the file.
    CreateFile(String),
    /// Write what the entry holds to the file that was just created.
    WriteEntry { index: usize, path: String },
}

/// What an [`ArchiveRequest`] holds.
pub enum ArchiveRequestView {
    Open(Seq<char>),
    Parse,
    CreateDirAll(Seq<char>),
    Unpack(Seq<char>),
    ReadEntry(usize),
    Exists(Seq<char>),
    CreateFile(Seq<char>),
    WriteEntry { index: usize, path: Seq<char> },
}

impl View for ArchiveRequest {
    type V = ArchiveRequestView;

    open spec fn view(&self) -> ArchiveRequestView {
        match self {
            ArchiveRequest::Open(path) => ArchiveRequestView::Open(path@),
            ArchiveRequest::Parse => ArchiveRequestView::Parse,
            ArchiveRequest::CreateDirAll(path) => ArchiveRequestView::CreateDirAll(path@),
            ArchiveRequest::Unpack(path) => ArchiveRequestView::Unpack(path@),
            ArchiveRequest::ReadEntry(index) => ArchiveRequestView::ReadEntry(*index),
            ArchiveRequest::Exists(path) => ArchiveRequestView::Exists(path@),
            ArchiveRequest::CreateFile(path) => ArchiveRequestView::CreateFile(path@),
            ArchiveRequest::WriteEntry { index, path } => ArchiveRequestView::WriteEntry {
                index: *index,
                path: path@,
            },
        }
    }
}

/// What came of an [`ArchiveRequest`].
#[derive(Debug)]
pub enum ArchiveReply {
    /// The operation succeeded.
    Done,
    /// The operation failed.
    Failed(String),
    /// The answer to a question.
    Flag(bool),
    /// How many entries the ZIP archive has.
    Entries(usize),
    /// The name of an entry, and the relative path that it stands for; no path where the name leads
    /// out of the directory that the archive is extracted to.
    Entry { name: String, enclosed: Option<String> },
}

/// What an [`ArchiveReply`] holds.
pub enum ArchiveReplyView {
    Done,
    Failed(Seq<char>),
    Flag(bool),
    Entries(usize),
    Entry { name: Seq<char>, enclosed: Option<Seq<char>> },
}

impl View for ArchiveReply {
    type V = ArchiveReplyView;

    open spec fn view(&self) -> ArchiveReplyView {
        match self {
            ArchiveReply::Done => ArchiveReplyView::Done,
            ArchiveReply::Failed(error) => ArchiveReplyView::Failed(error@),
            ArchiveReply::Flag(answer) => ArchiveReplyView::Flag(*answer),
            ArchiveReply::Entries(count) => ArchiveReplyView::Entries(*count),
            ArchiveReply::Entry { name, enclosed } => ArchiveReplyView::Entry {
                name: name@,
                enclosed: optional_text(*enclosed),
            },
        }
    }
}

impl ArchiveReplyView {
    /// Whether the reply is of a kind that the request can have.
    pub open spec fn answers(self, request: ArchiveRequestView) -> bool {
        match request {
            ArchiveRequestView::Parse => self is Entries || self is Failed,
            ArchiveRequestView::ReadEntry(_) => self is Entry || self is Failed,
            ArchiveRequestView::Exists(_) => self is Flag,
            _ => self is Done || self is Failed,
        }
    }
}

impl ArchiveReply {
    /// Whether the reply is of a kind that the request can have.
    pub fn answers(&self, request: &ArchiveRequest) -> (res: bool)
        ensures
            res == self@.answers(request@),
    {
        match request {
            ArchiveRequest::Parse => match self {
                ArchiveReply::Entries(_) | ArchiveReply::Failed(_) => true,
                _ => false,
            },
            ArchiveRequest::ReadEntry(_) => match self {
                ArchiveReply::Entry { .. } | ArchiveReply::Failed(_) => true,
                _ => false,
            },
            ArchiveRequest::Exists(_) => match self {
                ArchiveReply::Flag(_) => true,
                _ => false,
            },
            _ => match self {
                ArchiveReply::Done | ArchiveReply::Failed(_) => true,
                _ => false,
            },
        }
    }
}

/// How far an extraction has come.
#[derive(Clone, Copy, Debug, PartialEq, Eq, Structural)]
pub enum ExtractStage {
    /// Opening the archive.
    Open,
    /// Reading the directory of a ZIP archive.
    Parse,
    /// Creating the directory that is extracted to.
    CreateDest,
    /// Extracting a tar archive.
    Unpack,
    /// Reading what an entry is.
    ReadEntry(usize),
    /// Creating the directory that an entry stands for.
    MakeDir(usize),
    /// Looking whether the directory that a file goes to is there.
    ProbeParent(usize),
    /// Creating that directory.
    MakeParent(usize),
    /// Creating the file.
    CreateFile(usize),
    /// Writing the file.
    WriteEntry(usize),
    /// The extraction is over.
    Finished,
}

/// An extraction under way.
#[derive(Debug)]
pub struct Extraction {
    platform: Platform,
    kind: ArchiveKind,
    archive: String,
    dest_dir: String,
    /// How many entries the archive has.
    count: usize,
    /// Where the current entry goes.
    outpath: String,
    stage: ExtractStage,
    outcome: Option<Result<(), String>>,
}

/// What an [`Extraction`] holds.
pub struct ExtractView {
    pub platform: Platform,
    pub kind: ArchiveKind,
    pub archive: Seq<char>,
    pub dest_dir: Seq<char>,
    pub count: usize,
    pub outpath: Seq<char>,
    pub stage: ExtractStage,
    pub outcome: Option<Result<(), Seq<char>>>,
}

impl View for Extraction {
    type V = ExtractView;

    closed spec fn view(&self) -> ExtractView {
        ExtractView {
            platform: self.platform,
            kind: self.kind,
            archive: self.archive@,
            dest_dir: self.dest_dir@,
            count: self.count,
            outpath: self.outpath@,
            stage: self.stage,
            outcome: outcome_view(self.outcome),
        }
    }
}

impl ExtractView {
    /// An extraction before its first step.
    pub open spec fn start(
        platform: Platform,
        kind: ArchiveKind,
        archive: Seq<char>,
        dest_dir: Seq<char>,
    ) -> ExtractView {
        ExtractView {
            platform,
            kind,
            archive,
            dest_dir,
            count: 0,
            outpath: Seq::empty(),
            stage: ExtractStage::Open,
            outcome: None,
        }
    }

    /// Whether the stage names an entry that there is, a directory is created for a file only where
    /// there is one to create, and the extraction is over just where it has an outcome.
    pub open spec fn well_formed(self) -> bool {
        &&& match self.stage {
            ExtractStage::ReadEntry(i)
            | ExtractStage::MakeDir(i)
            | ExtractStage::CreateFile(i)
            | ExtractStage::WriteEntry(i) => i < self.count,
            ExtractStage::ProbeParent(i) | ExtractStage::MakeParent(i) => i < self.count
                && self.parent() is Some,
            _ => true,
        }
        &&& self.stage == ExtractStage::Finished <==> self.outcome is Some
    }

    /// The directory that the current file goes to.
    pub open spec fn parent(self) -> Option<Seq<char>> {
        parent_of(self.platform, self.outpath)
    }

    /// The next request; none when the extraction is over.
    pub open spec fn request(self) -> Option<ArchiveRequestView> {
        match self.stage {
            ExtractStage::Open => Some(ArchiveRequestView::Open(self.archive)),
            ExtractStage::Parse => Some(ArchiveRequestView::Parse),
            ExtractStage::CreateDest => Some(ArchiveRequestView::CreateDirAll(self.dest_dir)),
            ExtractStage::Unpack => Some(ArchiveRequestView::Unpack(self.dest_dir)),
            ExtractStage::ReadEntry(i) => Some(ArchiveRequestView::ReadEntry(i)),
            ExtractStage::MakeDir(_) => Some(ArchiveRequestView::CreateDirAll(self.outpath)),
            ExtractStage::ProbeParent(_) => Some(
                ArchiveRequestView::Exists(self.parent()->Some_0),
            ),
            ExtractStage::MakeParent(_) => Some(
                ArchiveRequestView::CreateDirAll(self.parent()->Some_0),
            ),
            ExtractStage::CreateFile(_) => Some(ArchiveRequestView::CreateFile(self.outpath)),
            ExtractStage::WriteEntry(i) => Some(
                ArchiveRequestView::WriteEntry { index: i, path: self.outpath },
            ),
            ExtractStage::Finished => None,
        }
    }

    /// Whether a reply is one that the next request can have.
    pub open spec fn accepts(self, reply: ArchiveReplyView) -> bool {
        self.request() matches Some(request) && reply.answers(request)
    }

    /// The extraction at another stage.
    pub open spec fn at(self, stage: ExtractStage) -> ExtractView {
        ExtractView { stage, ..self }
    }

    /// The extraction that has ended.
    pub open spec fn ended(self, outcome: Result<(), Seq<char>>) -> ExtractView {
        ExtractView { stage: ExtractStage::Finished, outcome: Some(outcome), ..self }
    }

    /// Going on to an entry, or ending where none is left.
    pub open spec fn entry(self, i: int) -> ExtractView {
        if i < self.count {
            self.at(ExtractStage::ReadEntry(i as usize))
        } else {
            self.ended(Ok(()))
        }
    }

    /// Going on with an entry that goes to a path.
    pub open spec fn placing(self, i: usize, name: Seq<char>, outpath: Seq<char>) -> ExtractView {
        let placed = ExtractView { outpath, ..self };
        if name.len() > 0 && name.last() == '/' {
            placed.at(ExtractStage::MakeDir(i))
        } else if placed.parent() is Some {
            placed.at(ExtractStage::ProbeParent(i))
        } else {
            placed.at(ExtractStage::CreateFile(i))
        }
    }

    /// What is reported where the archive cannot be opened.
    pub open spec fn open_failure(self, error: Seq<char>) -> Seq<char> {
        match self.kind {
            ArchiveKind::Zip => "无法打开 ZIP 文件 ["@ + self.archive + "]: "@ + error,
            ArchiveKind::TarGz => "无法打开 tar.gz 文件 ["@ + self.archive + "]: "@ + error,
        }
    }

    /// The extraction after a reply to its request.
    pub open spec fn next(self, reply: ArchiveReplyView) -> ExtractView {
        match self.stage {
            ExtractStage::Open => match reply {
                ArchiveReplyView::Failed(e) => self.ended(Err(self.open_failure(e))),
                _ => match self.kind {
                    ArchiveKind::Zip => self.at(ExtractStage::Parse),
                    ArchiveKind::TarGz => self.at(ExtractStage::CreateDest),
                },
            },
            ExtractStage::Parse => match reply {
                ArchiveReplyView::Failed(e) => self.ended(Err("无法解析 ZIP 文件: "@ + e)),
                ArchiveReplyView::Entries(count) => ExtractView { count, ..self }.at(
                    ExtractStage::CreateDest,
                ),
                _ => self,
            },
            ExtractStage::CreateDest => match reply {
                ArchiveReplyView::Failed(e) => self.ended(
                    Err("无法创建目录 ["@ + self.dest_dir + "]: "@ + e),
                ),
                _ => match self.kind {
                    ArchiveKind::Zip => self.entry(0),
                    ArchiveKind::TarGz => self.at(ExtractStage::Unpack),
                },
            },
            ExtractStage::Unpack => match reply {
                ArchiveReplyView::Failed(e) => self.ended(Err("解压 tar.gz 失败: "@ + e)),
                _ => self.ended(Ok(())),
            },
            ExtractStage::ReadEntry(i) => match reply {
                ArchiveReplyView::Failed(e) => self.ended(
                    Err("无法读取 ZIP 条目 "@ + decimal(i as nat) + ": "@ + e),
                ),
                ArchiveReplyView::Entry { name, enclosed: Some(path) } => self.placing(
                    i,
                    name,
                    under(self.platform, self.dest_dir, path),
                ),
                _ => self.entry(i + 1),
            },
            ExtractStage::MakeDir(i) => match reply {
                ArchiveReplyView::Failed(e) => self.ended(
                    Err("无法创建目录 ["@ + self.outpath + "]: "@ + e),
                ),
                _ => self.entry(i + 1),
            },
            ExtractStage::ProbeParent(i) => match reply {
                ArchiveReplyView::Flag(true) => self.at(ExtractStage::CreateFile(i)),
                _ => self.at(ExtractStage::MakeParent(i)),
            },
            ExtractStage::MakeParent(i) => match reply {
                ArchiveReplyView::Failed(e) => self.ended(
                    Err("无法创建父目录 ["@ + self.parent()->Some_0 + "]: "@ + e),
                ),
                _ => self.at(ExtractStage::CreateFile(i)),
            },
            ExtractStage::CreateFile(i) => match reply {
                ArchiveReplyView::Failed(e) => self.ended(
                    Err("无法创建文件 ["@ + self.outpath + "]: "@ + e),
                ),
                _ => self.at(ExtractStage::WriteEntry(i)),
            },
            ExtractStage::WriteEntry(i) => match reply {
                ArchiveReplyView::Failed(e) => self.ended(
                    Err("无法写入文件 ["@ + self.outpath + "]: "@ + e),
                ),
                _ => self.entry(i + 1),
            },
            ExtractStage::Finished => self,
        }
    }

    /// How many entries are still to be read.
    pub open spec fn entries_left(self) -> int {
        match self.stage {
            ExtractStage::ReadEntry(i) => self.count - i,
            ExtractStage::MakeDir(i)
            | ExtractStage::ProbeParent(i)
            | ExtractStage::MakeParent(i)
            | ExtractStage::CreateFile(i)
            | ExtractStage::WriteEntry(i) => self.count - i - 1,
            ExtractStage::Finished => 0,
            _ => self.count as int,
        }
    }
}

/// Law: an entry of a ZIP archive goes where its enclosed path leads below the directory that is
/// extracted to, and nowhere else: it is asked for as a directory where its name ends with `/`, and as
/// a file otherwise. An entry whose name leads out of that directory is passed over.
pub proof fn law_entries_go_where_they_are_enclosed(
    extraction: ExtractView,
    i: usize,
    name: Seq<char>,
    enclosed: Option<Seq<char>>,
)
    requires
        extraction.well_formed(),
        extraction.stage == ExtractStage::ReadEntry(i),
    ensures
        ({
            let after = extraction.next(ArchiveReplyView::Entry { name, enclosed });
            match enclosed {
                None => after == extraction.entry(i + 1),
                Some(path) => {
                    &&& after.outpath == under(extraction.platform, extraction.dest_dir, path)
                    &&& has_suffix(name, "/"@) ==> after.request() == Some(
                        ArchiveRequestView::CreateDirAll(after.outpath),
                    )
                    &&& !has_suffix(name, "/"@) && after.parent() is None ==> after.request()
                        == Some(ArchiveRequestView::CreateFile(after.outpath))
                    &&& !has_suffix(name, "/"@) && after.parent() is Some ==> after.request()
                        == Some(ArchiveRequestView::Exists(after.parent()->Some_0))
                },
            }
        }),
{
    lemma_ends_with_slash(name);
}

proof fn lemma_ends_with_slash(name: Seq<char>)
    ensures
        has_suffix(name, "/"@) <==> name.len() > 0 && name.last() == '/',
{
    reveal_strlit("/");
    if name.len() > 0 {
        if name.last() == '/' {
            assert(name.skip(name.len() - 1) =~= "/"@);
        }
        if has_suffix(name, "/"@) {
            assert(name.skip(name.len() - 1)[0] == "/"@[0]);
        }
    }
}

/// Law: every file that is created gets what its entry holds, and an extraction succeeds only once
/// each entry has been read and dealt with; the first failure ends it.
pub proof fn law_extraction_deals_with_every_entry(
    extraction: ExtractView,
    reply: ArchiveReplyView,
)
    requires
        extraction.well_formed(),
        extraction.accepts(reply),
    ensures
        reply is Failed ==> extraction.next(reply).outcome matches Some(Err(_)),
        extraction.next(reply).outcome == Some(Ok::<(), Seq<char>>(())) && extraction.stage
            !is Unpack ==> extraction.next(reply).entries_left() == 0 && extraction.entries_left()
            <= 1,
        extraction.request() matches Some(ArchiveRequestView::ReadEntry(_)) ==> reply
            !is Failed ==> extraction.next(reply).entries_left() == extraction.entries_left() - 1,
        extraction.request() matches Some(ArchiveRequestView::CreateFile(path)) ==> reply
            !is Failed ==> extraction.next(reply).request() == Some(
            ArchiveRequestView::WriteEntry { index: extraction.stage->CreateFile_0, path },
        ),
{
}

/// Starts the extraction of a package into a directory, by the format that its file name tells.
pub fn extract_zip(platform: Platform, zip_path: String, dest_dir: String) -> (res: Extraction)
    ensures
        res@ == ExtractView::start(platform, kind_of(lowercase(zip_path@)), zip_path@, dest_dir@),
        res@.well_formed(),
{
    let lowered = to_lowercase(zip_path.as_str());
    let kind = kind_of_lowered(lowered.as_str());
    extract_archive(platform, kind, zip_path, dest_dir)
}

/// Starts the extraction of a package of a given format into a directory.
pub fn extract_archive(
    platform: Platform,
    kind: ArchiveKind,
    archive: String,
    dest_dir: String,
) -> (res: Extraction)
    ensures
        res@ == ExtractView::start(platform, kind, archive@, dest_dir@),
        res@.well_formed(),
{
    Extraction {
        platform,
        kind,
        archive,
        dest_dir,
        count: 0,
        outpath: String::new(),
        stage: ExtractStage::Open,
        outcome: None,
    }
}

impl Extraction {
    /// The format of the archive.
    pub fn kind(&self) -> (res: ArchiveKind)
        ensures
            res == self@.kind,
    {
        self.kind
    }

    /// What the extraction has come to, once it is over.
    pub fn outcome(self) -> (res: Option<Result<(), String>>)
        ensures
            outcome_view(res) == self@.outcome,
    {
        self.outcome
    }

    fn parent(&self) -> (res: Option<String>)
        ensures
            optional_text(res) == self@.parent(),
    {
        parent_dir(self.platform, self.outpath.as_str())
    }

    /// The request that the extraction waits for; none when it is over.
    pub fn request(&self) -> (res: Option<ArchiveRequest>)
        requires
            self@.well_formed(),
        ensures
            match (res, self@.request()) {
                (Some(request), Some(expected)) => request@ == expected,
                (None, None) => true,
                _ => false,
            },
    {
        match self.stage {
            ExtractStage::Open => Some(ArchiveRequest::Open(self.archive.clone())),
            ExtractStage::Parse => Some(ArchiveRequest::Parse),
            ExtractStage::CreateDest => Some(ArchiveRequest::CreateDirAll(self.dest_dir.clone())),
            ExtractStage::Unpack => Some(ArchiveRequest::Unpack(self.dest_dir.clone())),
            ExtractStage::ReadEntry(i) => Some(ArchiveRequest::ReadEntry(i)),
            ExtractStage::MakeDir(_) => Some(ArchiveRequest::CreateDirAll(self.outpath.clone())),
            ExtractStage::ProbeParent(_) => match self.parent() {
                Some(parent) => Some(ArchiveRequest::Exists(parent)),
                None => None,
            },
            ExtractStage::MakeParent(_) => match self.parent() {
                Some(parent) => Some(ArchiveRequest::CreateDirAll(parent)),
                None => None,
            },
            ExtractStage::CreateFile(_) => Some(ArchiveRequest::CreateFile(self.outpath.clone())),
            ExtractStage::WriteEntry(i) => Some(
                ArchiveRequest::WriteEntry { index: i, path: self.outpath.clone() },
            ),
            ExtractStage::Finished => None,
        }
    }

    /// Whether the extraction can go on with a reply.
    pub fn accepts(&self, reply: &ArchiveReply) -> (res: bool)
        requires
            self@.well_formed(),
        ensures
            res == self@.accepts(reply@),
    {
        match self.request() {
            Some(request) => reply.answers(&request),
            None => false,
        }
    }

    fn end(&mut self, outcome: Result<(), String>)
        ensures
            final(self)@ == old(self)@.ended(
                match outcome {
                    Ok(()) => Ok(()),
                    Err(message) => Err(message@),
                },
            ),
    {
        self.stage = ExtractStage::Finished;
        self.outcome = Some(outcome);
    }

    fn enter(&mut self, i: usize)
        ensures
            final(self)@ == old(self)@.entry(i as int),
    {
        if i < self.count {
            self.stage = ExtractStage::ReadEntry(i);
        } else {
            self.end(Ok(()));
        }
    }

    fn put(&mut self, i: usize, name: String, outpath: String)
        ensures
            final(self)@ == old(self)@.placing(i, name@, outpath@),
    {
        self.outpath = outpath;
        proof {
            lemma_ends_with_slash(name@);
        }
        self.stage =
        if ends_with(name.as_str(), "/") {
            ExtractStage::MakeDir(i)
        } else if self.parent().is_some() {
            ExtractStage::ProbeParent(i)
        } else {
            ExtractStage::CreateFile(i)
        };
    }

    /// Goes on with the reply to the request.
    pub fn advance(&mut self, reply: ArchiveReply)
        requires
            old(self)@.well_formed(),
            old(self)@.accepts(reply@),
        ensures
            final(self)@ == old(self)@.next(reply@),
            final(self)@.well_formed(),
    {
        match self.stage {
            ExtractStage::Open => match reply {
                ArchiveReply::Failed(e) => {
                    let before = match self.kind {
                        ArchiveKind::Zip => "无法打开 ZIP 文件 [",
                        ArchiveKind::TarGz => "无法打开 tar.gz 文件 [",
                    };
                    let message = report_at(before, self.archive.as_str(), e.as_str());
                    self.end(Err(message));
                },
                _ => {
                    self.stage =
                    match self.kind {
                        ArchiveKind::Zip => ExtractStage::Parse,
                        ArchiveKind::TarGz => ExtractStage::CreateDest,
                    };
                },
            },
            ExtractStage::Parse => match reply {
                ArchiveReply::Failed(e) => {
                    let mut message = "无法解析 ZIP 文件: ".to_owned();
                    message.append(e.as_str());
                    self.end(Err(message));
                },
                ArchiveReply::Entries(count) => {
                    self.count = count;
                    self.stage = ExtractStage::CreateDest;
                },
                _ => {},
            },
            ExtractStage::CreateDest => match reply {
                ArchiveReply::Failed(e) => {
                    let message = report_at("无法创建目录 [", self.dest_dir.as_str(), e.as_str());
                    self.end(Err(message));
                },
                _ => match self.kind {
                    ArchiveKind::Zip => self.enter(0),
                    ArchiveKind::TarGz => {
                        self.stage = ExtractStage::Unpack;
                    },
                },
            },
            ExtractStage::Unpack => match reply {
                ArchiveReply::Failed(e) => {
                    let mut message = "解压 tar.gz 失败: ".to_owned();
                    message.append(e.as_str());
                    self.end(Err(message));
                },
                _ => self.end(Ok(())),
            },
            ExtractStage::ReadEntry(i) => match reply {
                ArchiveReply::Failed(e) => {
                    let mut message = "无法读取 ZIP 条目 ".to_owned();
                    message.append(decimal_text(i as u64).as_str());
                    message.append(": ");
                    message.append(e.as_str());
                    self.end(Err(message));
                },
                ArchiveReply::Entry { name, enclosed: Some(path) } => {
                    let outpath = join_name(
                        self.platform,
                        self.dest_dir.as_str(),
                        path.as_str(),
                    );
                    self.put(i, name, outpath);
                },
                _ => self.enter(i + 1),
            },
            ExtractStage::MakeDir(i) => match reply {
                ArchiveReply::Failed(e) => {
                    let message = report_at("无法创建目录 [", self.outpath.as_str(), e.as_str());
                    self.end(Err(message));
                },
                _ => self.enter(i + 1),
            },
            ExtractStage::ProbeParent(i) => match reply {
                ArchiveReply::Flag(true) => {
                    self.stage = ExtractStage::CreateFile(i);
                },
                _ => {
                    self.stage = ExtractStage::MakeParent(i);
                },
            },
            ExtractStage::MakeParent(i) => match reply {
                ArchiveReply::Failed(e) => {
                    if let Some(parent) = self.parent() {
                        let message = report_at("无法创建父目录 [", parent.as_str(), e.as_str());
                        self.end(Err(message));
                    }
                },
                _ => {
                    self.stage = ExtractStage::CreateFile(i);
                },
            },
            ExtractStage::CreateFile(i) => match reply {
                ArchiveReply::Failed(e) => {
                    let message = report_at("无法创建文件 [", self.outpath.as_str(), e.as_str());
                    self.end(Err(message));
                },
                _ => {
                    self.stage = ExtractStage::WriteEntry(i);
                },
            },
            ExtractStage::WriteEntry(i) => match reply {
                ArchiveReply::Failed(e) => {
                    let message = report_at("无法写入文件 [", self.outpath.as_str(), e.as_str());
                    self.end(Err(message));
                },
                _ => self.enter(i + 1),
            },
            ExtractStage::Finished => {},
        }
    }
}

} // verus!
