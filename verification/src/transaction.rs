//! Installing a planned update as one transaction: what the update replaces is moved aside first,
//! and moved back where something fails.

use vstd::prelude::*;
use crate::disk::{IoFailureView, Reply, ReplyView, Request, RequestView};
use crate::path::{
    join_name, lemma_paths_push, parent_dir, parent_of, paths, place, placed, under, Platform,
    RelativePath, TRANSACTION_DIR,
};
use crate::plan::{PreparedUpdate, UpdatePlan};
use crate::text::{lemma_texts_push, report_at, report_between, texts};
use crate::transaction_id::{named_now, new_transaction_id};

verus! {

/// What the marker of a committed transaction holds.
pub const COMMITTED_MARK: &'static str = "committed";

/// The errors of a step joined into one text; nothing where there was none.
pub open spec fn joined_errors(errors: Seq<Seq<char>>) -> Option<Seq<char>>
    decreases errors.len(),
{
    if errors.len() == 0 {
        None
    } else {
        match joined_errors(errors.drop_last()) {
            None => Some(errors.last()),
            Some(before) => Some(before + "; "@ + errors.last()),
        }
    }
}

/// What an optional text holds.
pub open spec fn optional_text(text: Option<String>) -> Option<Seq<char>> {
    match text {
        Some(t) => Some(t@),
        None => None,
    }
}

/// Joins the errors of a step into one text.
pub fn join_errors(errors: &Vec<String>) -> (res: Option<String>)
    ensures
        optional_text(res) == joined_errors(texts(errors@)),
{
    let mut res: Option<String> = None;
    let ghost all = texts(errors@);
    let mut i: usize = 0;
    proof {
        assert(all.take(0) =~= Seq::<Seq<char>>::empty());
    }
    while i < errors.len()
        invariant
            i <= errors@.len(),
            all == texts(errors@),
            optional_text(res) == joined_errors(all.take(i as int)),
        decreases errors.len() - i,
    {
        proof {
            assert(all.take(i + 1).drop_last() =~= all.take(i as int));
            assert(all.take(i + 1).last() == errors@[i as int]@);
        }
        res =
        match res {
            None => Some(errors[i].clone()),
            Some(before) => {
                let mut text = before;
                text.append("; ");
                text.append(errors[i].as_str());
                Some(text)
            },
        };
        i = i + 1;
    }
    proof {
        assert(all.take(i as int) =~= all);
    }
    res
}

/// Two optional errors as one.
pub open spec fn combined(first: Option<Seq<char>>, second: Option<Seq<char>>) -> Option<
    Seq<char>,
> {
    match (first, second) {
        (None, None) => None,
        (Some(error), None) => Some(error),
        (None, Some(error)) => Some(error),
        (Some(a), Some(b)) => Some(a + "; "@ + b),
    }
}

/// Joins two optional errors.
pub fn combine_errors(first: Option<String>, second: Option<String>) -> (res: Option<String>)
    ensures
        optional_text(res) == combined(optional_text(first), optional_text(second)),
{
    match (first, second) {
        (None, None) => None,
        (Some(error), None) => Some(error),
        (None, Some(error)) => Some(error),
        (Some(a), Some(b)) => {
            let mut text = a;
            text.append("; ");
            text.append(b.as_str());
            Some(text)
        },
    }
}

/// The report of a failed transaction: what failed, and where going back failed too, how.
pub open spec fn transaction_error(primary: Seq<char>, rollback: Option<Seq<char>>) -> Seq<char> {
    match rollback {
        Some(error) => primary + "; 回滚也失败: "@ + error,
        None => primary,
    }
}

/// Reports a failed transaction.
pub fn format_transaction_error(primary: String, rollback: Option<String>) -> (res: String)
    ensures
        res@ == transaction_error(primary@, optional_text(rollback)),
{
    match rollback {
        Some(error) => {
            let mut text = primary;
            text.append("; 回滚也失败: ");
            text.append(error.as_str());
            text
        },
        None => primary,
    }
}

/// How far an installation has come.
#[derive(Clone, Copy, Debug, PartialEq, Eq, Structural)]
pub enum Stage {
    /// Removing the committed transactions of earlier updates.
    Sweep,
    /// Creating the directory of this transaction.
    CreateRoot,
    /// Creating the directory that holds what is moved aside.
    CreateBackupRoot,
    /// Looking whether a path to be moved aside is there.
    Probe(usize),
    /// Creating the directory that it is moved into.
    MakeParent(usize),
    /// Moving it aside.
    MoveAside(usize),
    /// Copying a path of the update in.
    CopyIn(usize),
    /// Marking the transaction as committed.
    Commit,
    /// Removing what was copied in; this many paths are left.
    Discard(usize),
    /// Moving back what was moved aside; this many paths are left.
    Restore(usize),
    /// The installation is over.
    Finished,
}

/// An installation under way.
#[derive(Debug)]
pub struct Installation {
    platform: Platform,
    staging: String,
    target: String,
    transaction_root: String,
    backup_root: String,
    plan: UpdatePlan,
    stage: Stage,
    backed_up: Vec<RelativePath>,
    failure: String,
    discard_errors: Vec<String>,
    restore_errors: Vec<String>,
    outcome: Option<Result<(), String>>,
}

/// What an [`Installation`] holds.
pub struct InstallView {
    pub platform: Platform,
    pub staging: Seq<char>,
    pub target: Seq<char>,
    pub transaction_root: Seq<char>,
    pub backup_root: Seq<char>,
    pub backup: Seq<Seq<Seq<char>>>,
    pub apply: Seq<Seq<Seq<char>>>,
    pub stage: Stage,
    pub backed_up: Seq<Seq<Seq<char>>>,
    pub failure: Seq<char>,
    pub discard_errors: Seq<Seq<char>>,
    pub restore_errors: Seq<Seq<char>>,
    pub outcome: Option<Result<(), Seq<char>>>,
}

/// What an optional result holds.
pub open spec fn outcome_view(outcome: Option<Result<(), String>>) -> Option<
    Result<(), Seq<char>>,
> {
    match outcome {
        None => None,
        Some(Ok(())) => Some(Ok(())),
        Some(Err(message)) => Some(Err(message@)),
    }
}

impl View for Installation {
    type V = InstallView;

    closed spec fn view(&self) -> InstallView {
        InstallView {
            platform: self.platform,
            staging: self.staging@,
            target: self.target@,
            transaction_root: self.transaction_root@,
            backup_root: self.backup_root@,
            backup: paths(self.plan.backup@),
            apply: paths(self.plan.apply@),
            stage: self.stage,
            backed_up: paths(self.backed_up@),
            failure: self.failure@,
            discard_errors: texts(self.discard_errors@),
            restore_errors: texts(self.restore_errors@),
            outcome: outcome_view(self.outcome),
        }
    }
}

/// What an installation does next, by the relative path that it concerns.
pub enum InstallOp {
    Sweep,
    CreateRoot,
    CreateBackupRoot,
    Probe(Seq<Seq<char>>),
    MakeParent(Seq<Seq<char>>),
    MoveAside(Seq<Seq<char>>),
    CopyIn(Seq<Seq<char>>),
    Commit,
    Discard(Seq<Seq<char>>),
    MoveBack(Seq<Seq<char>>),
}

/// The directory of a transaction below the target.
pub open spec fn transaction_root_of(platform: Platform, target: Seq<char>, id: Seq<char>) -> Seq<
    char,
> {
    under(platform, under(platform, target, TRANSACTION_DIR@), id)
}

impl InstallView {
    /// An installation of a plan, before its first step.
    pub open spec fn start(prepared: PreparedUpdate, id: Seq<char>) -> InstallView {
        let root = transaction_root_of(prepared.platform, prepared.target@, id);
        InstallView {
            platform: prepared.platform,
            staging: prepared.staging@,
            target: prepared.target@,
            transaction_root: root,
            backup_root: under(prepared.platform, root, "backup"@),
            backup: prepared.plan@.backup,
            apply: prepared.plan@.apply,
            stage: Stage::Sweep,
            backed_up: Seq::empty(),
            failure: Seq::empty(),
            discard_errors: Seq::empty(),
            restore_errors: Seq::empty(),
            outcome: None,
        }
    }

    /// Whether the stage names a path that there is, and no more was moved aside than was reached.
    pub open spec fn well_formed(self) -> bool {
        &&& self.backup.len() <= usize::MAX
        &&& self.apply.len() <= usize::MAX
        &&& self.backed_up.len() <= self.backup.len()
        &&& match self.stage {
            Stage::Sweep | Stage::CreateRoot | Stage::CreateBackupRoot => self.backed_up.len() == 0,
            Stage::Probe(i) | Stage::MoveAside(i) => {
                &&& i < self.backup.len()
                &&& self.backed_up.len() <= i
            },
            Stage::MakeParent(i) => {
                &&& i < self.backup.len()
                &&& self.backed_up.len() <= i
                &&& self.backup_parent(self.backup[i as int]) is Some
            },
            Stage::CopyIn(i) => i < self.apply.len(),
            Stage::Discard(n) => 0 < n <= self.apply.len(),
            Stage::Restore(n) => 0 < n <= self.backed_up.len(),
            _ => true,
        }
        &&& self.stage == Stage::Finished <==> self.outcome is Some
    }

    /// The next operation; none when the installation is over.
    pub open spec fn op(self) -> Option<InstallOp> {
        match self.stage {
            Stage::Sweep => Some(InstallOp::Sweep),
            Stage::CreateRoot => Some(InstallOp::CreateRoot),
            Stage::CreateBackupRoot => Some(InstallOp::CreateBackupRoot),
            Stage::Probe(i) => Some(InstallOp::Probe(self.backup[i as int])),
            Stage::MakeParent(i) => Some(InstallOp::MakeParent(self.backup[i as int])),
            Stage::MoveAside(i) => Some(InstallOp::MoveAside(self.backup[i as int])),
            Stage::CopyIn(i) => Some(InstallOp::CopyIn(self.apply[i as int])),
            Stage::Commit => Some(InstallOp::Commit),
            Stage::Discard(n) => Some(InstallOp::Discard(self.apply[n - 1])),
            Stage::Restore(n) => Some(InstallOp::MoveBack(self.backed_up[n - 1])),
            Stage::Finished => None,
        }
    }

    /// The path of a relative path in the target.
    pub open spec fn in_target(self, path: Seq<Seq<char>>) -> Seq<char> {
        placed(self.platform, self.target, path)
    }

    /// The path of a relative path among what is moved aside.
    pub open spec fn in_backup(self, path: Seq<Seq<char>>) -> Seq<char> {
        placed(self.platform, self.backup_root, path)
    }

    /// The directory that a relative path is moved aside into.
    pub open spec fn backup_parent(self, path: Seq<Seq<char>>) -> Option<Seq<char>> {
        parent_of(self.platform, self.in_backup(path))
    }

    /// The request that carries an operation out.
    pub open spec fn request_for(self, op: InstallOp) -> RequestView {
        match op {
            InstallOp::Sweep => RequestView::SweepCommitted(
                under(self.platform, self.target, TRANSACTION_DIR@),
            ),
            InstallOp::CreateRoot => RequestView::CreateDirAll(self.transaction_root),
            InstallOp::CreateBackupRoot => RequestView::CreateDirAll(self.backup_root),
            InstallOp::Probe(path) => RequestView::Exists(self.in_target(path)),
            InstallOp::MakeParent(path) => RequestView::CreateDirAll(
                self.backup_parent(path)->Some_0,
            ),
            InstallOp::MoveAside(path) => RequestView::RenameWithRetry {
                from: self.in_target(path),
                to: self.in_backup(path),
            },
            InstallOp::CopyIn(path) => RequestView::CopyEntry {
                from: placed(self.platform, self.staging, path),
                to: self.in_target(path),
            },
            InstallOp::Commit => RequestView::MarkCommitted {
                path: under(self.platform, self.transaction_root, "COMMITTED"@),
                content: COMMITTED_MARK@,
            },
            InstallOp::Discard(path) => RequestView::RemovePathIfExists(self.in_target(path)),
            InstallOp::MoveBack(path) => RequestView::RenameWithRetry {
                from: self.in_backup(path),
                to: self.in_target(path),
            },
        }
    }

    /// The next request; none when the installation is over.
    pub open spec fn request(self) -> Option<RequestView> {
        match self.op() {
            Some(op) => Some(self.request_for(op)),
            None => None,
        }
    }

    /// Whether a reply is one that the next request can have.
    pub open spec fn accepts(self, reply: ReplyView) -> bool {
        self.request() matches Some(request) && reply.answers(request)
    }

    /// The stage of moving a path aside, or of the first copy where all paths are moved.
    pub open spec fn backup_stage(self, i: int) -> Stage {
        if i < self.backup.len() {
            Stage::Probe(i as usize)
        } else {
            self.copy_stage(0)
        }
    }

    /// The stage of copying a path in, or of committing where all paths are copied.
    pub open spec fn copy_stage(self, i: int) -> Stage {
        if i < self.apply.len() {
            Stage::CopyIn(i as usize)
        } else {
            Stage::Commit
        }
    }

    /// The installation at another stage.
    pub open spec fn at(self, stage: Stage) -> InstallView {
        InstallView { stage, ..self }
    }

    /// The installation that has ended.
    pub open spec fn ended(self, outcome: Result<(), Seq<char>>) -> InstallView {
        InstallView { stage: Stage::Finished, outcome: Some(outcome), ..self }
    }

    /// The report of a failed installation.
    pub open spec fn report(self) -> Seq<char> {
        transaction_error(
            self.failure,
            combined(joined_errors(self.discard_errors), joined_errors(self.restore_errors)),
        )
    }

    /// Going on to move back what was moved aside, of which `n` paths are left.
    pub open spec fn restoring(self, n: int) -> InstallView {
        if n > 0 {
            self.at(Stage::Restore(n as usize))
        } else {
            self.ended(Err(self.report()))
        }
    }

    /// Going on to remove what was copied in, of which `n` paths are left.
    pub open spec fn discarding(self, n: int) -> InstallView {
        if n > 0 {
            self.at(Stage::Discard(n as usize))
        } else {
            self.restoring(self.backed_up.len() as int)
        }
    }

    /// What is reported where a path could not be moved aside.
    pub open spec fn backup_failure(self, path: Seq<Seq<char>>, failure: IoFailureView) -> Seq<
        char,
    > {
        "更新备份失败: ["@ + self.in_target(path) + "] -> ["@ + self.in_backup(path) + "], error="@
            + failure.detailed()
    }

    /// What is reported where a path could not be moved back.
    pub open spec fn restore_failure(self, path: Seq<Seq<char>>, failure: IoFailureView) -> Seq<
        char,
    > {
        "["@ + self.in_backup(path) + "] -> ["@ + self.in_target(path) + "]: "@
            + failure.detailed()
    }

    /// What is reported where what was copied in could not be removed.
    pub open spec fn discard_failure(self, path: Seq<Seq<char>>, failure: IoFailureView) -> Seq<
        char,
    > {
        "["@ + self.in_target(path) + "]: "@ + failure.message
    }

    /// The installation after a reply to its request.
    pub open spec fn next(self, reply: ReplyView) -> InstallView {
        match self.stage {
            Stage::Sweep => self.at(Stage::CreateRoot),
            Stage::CreateRoot => match reply {
                ReplyView::Failed(f) => self.ended(
                    Err("无法创建更新事务目录 ["@ + self.transaction_root + "]: "@ + f.message),
                ),
                _ => self.at(Stage::CreateBackupRoot),
            },
            Stage::CreateBackupRoot => match reply {
                ReplyView::Failed(f) => self.ended(
                    Err("无法创建更新备份目录 ["@ + self.backup_root + "]: "@ + f.message),
                ),
                _ => self.at(self.backup_stage(0)),
            },
            Stage::Probe(i) => match reply {
                ReplyView::Flag(true) => if self.backup_parent(self.backup[i as int]) is Some {
                    self.at(Stage::MakeParent(i))
                } else {
                    self.at(Stage::MoveAside(i))
                },
                _ => self.at(self.backup_stage(i + 1)),
            },
            Stage::MakeParent(i) => match reply {
                ReplyView::Failed(f) => InstallView {
                    failure: "无法创建备份父目录 ["@ + self.backup_parent(
                        self.backup[i as int],
                    )->Some_0 + "]: "@ + f.message,
                    ..self
                }.restoring(self.backed_up.len() as int),
                _ => self.at(Stage::MoveAside(i)),
            },
            Stage::MoveAside(i) => match reply {
                ReplyView::Failed(f) => InstallView {
                    failure: self.backup_failure(self.backup[i as int], f),
                    ..self
                }.restoring(self.backed_up.len() as int),
                _ => InstallView {
                    backed_up: self.backed_up.push(self.backup[i as int]),
                    ..self
                }.at(self.backup_stage(i + 1)),
            },
            Stage::CopyIn(i) => match reply {
                ReplyView::Failed(f) => InstallView {
                    failure: "应用更新失败: "@ + f.message,
                    ..self
                }.discarding(self.apply.len() as int),
                _ => self.at(self.copy_stage(i + 1)),
            },
            Stage::Commit => self.ended(Ok(())),
            Stage::Discard(n) => match reply {
                ReplyView::Failed(f) => InstallView {
                    discard_errors: self.discard_errors.push(
                        self.discard_failure(self.apply[n - 1], f),
                    ),
                    ..self
                }.discarding(n - 1),
                _ => self.discarding(n - 1),
            },
            Stage::Restore(n) => match reply {
                ReplyView::Failed(f) => InstallView {
                    restore_errors: self.restore_errors.push(
                        self.restore_failure(self.backed_up[n - 1], f),
                    ),
                    ..self
                }.restoring(n - 1),
                _ => self.restoring(n - 1),
            },
            Stage::Finished => self,
        }
    }
}

/// Law: an installation that goes on stays well-formed.
pub proof fn law_installation_stays_well_formed(installation: InstallView, reply: ReplyView)
    requires
        installation.well_formed(),
    ensures
        installation.next(reply).well_formed(),
{
}

/// Law: just what succeeds is marked as committed. The marker, with its content, is asked for in the last
/// step of an installation that succeeds, whether it can be written or not, and in no other step.
pub proof fn law_success_is_marked(installation: InstallView, reply: ReplyView)
    requires
        installation.well_formed(),
        installation.accepts(reply),
    ensures
        installation.request()->Some_0 is MarkCommitted <==> installation.next(reply).outcome == Some(
            Ok::<(), Seq<char>>(()),
        ),
        installation.request()->Some_0 is MarkCommitted ==> installation.request() == Some(
            RequestView::MarkCommitted {
                path: under(installation.platform, installation.transaction_root, "COMMITTED"@),
                content: COMMITTED_MARK@,
            },
        ),
{
}

impl PreparedUpdate {
    /// Starts the installation of the update, in a transaction that is named after this moment and the
    /// process that runs it.
    pub fn install(self, process: u32) -> (res: Installation)
        ensures
            exists|id: Seq<char>| #[trigger]
                named_now(id, process) && res@ == InstallView::start(self, id),
            res@.well_formed(),
    {
        let id = new_transaction_id(process);
        self.install_as(id.as_str())
    }

    /// Starts the installation of the update, in a transaction of the given name.
    pub fn install_as(self, id: &str) -> (res: Installation)
        ensures
            res@ == InstallView::start(self, id@),
            res@.well_formed(),
    {
        let base = join_name(self.platform, self.target.as_str(), TRANSACTION_DIR);
        let transaction_root = join_name(self.platform, base.as_str(), id);
        let backup_root = join_name(self.platform, transaction_root.as_str(), "backup");
        let res = Installation {
            platform: self.platform,
            staging: self.staging,
            target: self.target,
            transaction_root,
            backup_root,
            plan: self.plan,
            stage: Stage::Sweep,
            backed_up: Vec::new(),
            failure: String::new(),
            discard_errors: Vec::new(),
            restore_errors: Vec::new(),
            outcome: None,
        };
        proof {
            assert(paths(res.backed_up@) =~= Seq::empty());
            assert(texts(res.discard_errors@) =~= Seq::empty());
            assert(texts(res.restore_errors@) =~= Seq::empty());
            assert(res.plan.backup.len() <= usize::MAX);
            assert(res.plan.apply.len() <= usize::MAX);
        }
        res
    }
}

impl Installation {
    /// What the installation has come to, once it is over.
    pub fn outcome(self) -> (res: Option<Result<(), String>>)
        ensures
            outcome_view(res) == self@.outcome,
    {
        self.outcome
    }

    fn in_target(&self, path: &RelativePath) -> (res: String)
        ensures
            res@ == self@.in_target(path@),
    {
        place(self.platform, self.target.as_str(), path)
    }

    fn in_backup(&self, path: &RelativePath) -> (res: String)
        ensures
            res@ == self@.in_backup(path@),
    {
        place(self.platform, self.backup_root.as_str(), path)
    }

    fn backup_parent(&self, path: &RelativePath) -> (res: Option<String>)
        ensures
            optional_text(res) == self@.backup_parent(path@),
    {
        parent_dir(self.platform, self.in_backup(path).as_str())
    }

    /// The request that the installation waits for; none when it is over.
    pub fn request(&self) -> (res: Option<Request>)
        requires
            self@.well_formed(),
        ensures
            match (res, self@.request()) {
                (Some(request), Some(expected)) => request@ == expected,
                (None, None) => true,
                _ => false,
            },
    {
        match self.stage {
            Stage::Sweep => Some(
                Request::SweepCommitted(
                    join_name(self.platform, self.target.as_str(), TRANSACTION_DIR),
                ),
            ),
            Stage::CreateRoot => Some(Request::CreateDirAll(self.transaction_root.clone())),
            Stage::CreateBackupRoot => Some(Request::CreateDirAll(self.backup_root.clone())),
            Stage::Probe(i) => Some(Request::Exists(self.in_target(&self.plan.backup[i]))),
            Stage::MakeParent(i) => match self.backup_parent(&self.plan.backup[i]) {
                Some(parent) => Some(Request::CreateDirAll(parent)),
                None => None,
            },
            Stage::MoveAside(i) => Some(
                Request::RenameWithRetry {
                    from: self.in_target(&self.plan.backup[i]),
                    to: self.in_backup(&self.plan.backup[i]),
                },
            ),
            Stage::CopyIn(i) => Some(
                Request::CopyEntry {
                    from: place(self.platform, self.staging.as_str(), &self.plan.apply[i]),
                    to: self.in_target(&self.plan.apply[i]),
                },
            ),
            Stage::Commit => Some(
                Request::MarkCommitted {
                    path: join_name(self.platform, self.transaction_root.as_str(), "COMMITTED"),
                    content: COMMITTED_MARK.to_owned(),
                },
            ),
            Stage::Discard(n) => Some(
                Request::RemovePathIfExists(self.in_target(&self.plan.apply[n - 1])),
            ),
            Stage::Restore(n) => Some(
                Request::RenameWithRetry {
                    from: self.in_backup(&self.backed_up[n - 1]),
                    to: self.in_target(&self.backed_up[n - 1]),
                },
            ),
            Stage::Finished => None,
        }
    }

    fn enter_copy(&mut self, i: usize)
        requires
            i <= old(self)@.apply.len(),
        ensures
            final(self)@ == old(self)@.at(old(self)@.copy_stage(i as int)),
    {
        self.stage =
        if i < self.plan.apply.len() {
            Stage::CopyIn(i)
        } else {
            Stage::Commit
        };
    }

    fn enter_backup(&mut self, i: usize)
        requires
            i <= old(self)@.backup.len(),
        ensures
            final(self)@ == old(self)@.at(old(self)@.backup_stage(i as int)),
    {
        if i < self.plan.backup.len() {
            self.stage = Stage::Probe(i);
        } else {
            self.enter_copy(0);
        }
    }

    fn end(&mut self, outcome: Result<(), String>)
        ensures
            final(self)@ == old(self)@.ended(
                match outcome {
                    Ok(()) => Ok(()),
                    Err(message) => Err(message@),
                },
            ),
    {
        self.stage = Stage::Finished;
        self.outcome = Some(outcome);
    }

    fn enter_restore(&mut self, n: usize)
        ensures
            final(self)@ == old(self)@.restoring(n as int),
    {
        if n > 0 {
            self.stage = Stage::Restore(n);
        } else {
            let rollback = combine_errors(
                join_errors(&self.discard_errors),
                join_errors(&self.restore_errors),
            );
            let report = format_transaction_error(self.failure.clone(), rollback);
            self.end(Err(report));
        }
    }

    fn enter_discard(&mut self, n: usize)
        ensures
            final(self)@ == old(self)@.discarding(n as int),
    {
        if n > 0 {
            self.stage = Stage::Discard(n);
        } else {
            let count: usize = self.backed_up.len();
            self.enter_restore(count);
        }
    }

    fn fail_backup(&mut self, failure: String)
        ensures
            final(self)@ == (InstallView { failure: failure@, ..old(self)@ }).restoring(
                old(self)@.backed_up.len() as int,
            ),
    {
        self.failure = failure;
        let count: usize = self.backed_up.len();
        self.enter_restore(count);
    }

    /// Whether the installation can go on with a reply.
    pub fn accepts(&self, reply: &Reply) -> (res: bool)
        requires
            self@.well_formed(),
        ensures
            res == self@.accepts(reply@),
    {
        match self.request() {
            Some(request) => reply.answers(&request),
            None => false,
        }
    }

    /// Goes on with the reply to the request.
    pub fn advance(&mut self, reply: Reply)
        requires
            old(self)@.well_formed(),
            old(self)@.accepts(reply@),
        ensures
            final(self)@ == old(self)@.next(reply@),
            final(self)@.well_formed(),
    {
        proof {
            law_installation_stays_well_formed(self@, reply@);
        }
        match self.stage {
            Stage::Sweep => {
                self.stage = Stage::CreateRoot;
            },
            Stage::CreateRoot => match reply {
                Reply::Failed(f) => {
                    let message = report_at(
                        "无法创建更新事务目录 [",
                        self.transaction_root.as_str(),
                        f.message.as_str(),
                    );
                    self.end(Err(message));
                },
                _ => {
                    self.stage = Stage::CreateBackupRoot;
                },
            },
            Stage::CreateBackupRoot => match reply {
                Reply::Failed(f) => {
                    let message = report_at(
                        "无法创建更新备份目录 [",
                        self.backup_root.as_str(),
                        f.message.as_str(),
                    );
                    self.end(Err(message));
                },
                _ => {
                    self.enter_backup(0);
                },
            },
            Stage::Probe(i) => match reply {
                Reply::Flag(true) => {
                    self.stage =
                    match self.backup_parent(&self.plan.backup[i]) {
                        Some(_) => Stage::MakeParent(i),
                        None => Stage::MoveAside(i),
                    };
                },
                _ => {
                    assert(i < self.plan.backup.len());
                    self.enter_backup(i + 1);
                },
            },
            Stage::MakeParent(i) => match reply {
                Reply::Failed(f) => {
                    if let Some(parent) = self.backup_parent(&self.plan.backup[i]) {
                        let message = report_at(
                            "无法创建备份父目录 [",
                            parent.as_str(),
                            f.message.as_str(),
                        );
                        self.fail_backup(message);
                    }
                },
                _ => {
                    self.stage = Stage::MoveAside(i);
                },
            },
            Stage::MoveAside(i) => match reply {
                Reply::Failed(f) => {
                    let mut message = "更新备份失败: [".to_owned();
                    message.append(self.in_target(&self.plan.backup[i]).as_str());
                    message.append("] -> [");
                    message.append(self.in_backup(&self.plan.backup[i]).as_str());
                    message.append("], error=");
                    message.append(f.detailed().as_str());
                    self.fail_backup(message);
                },
                _ => {
                    let path = self.plan.backup[i].clone();
                    proof {
                        lemma_paths_push(self.backed_up@, path);
                    }
                    self.backed_up.push(path);
                    assert(i < self.plan.backup.len());
                    self.enter_backup(i + 1);
                },
            },
            Stage::CopyIn(i) => match reply {
                Reply::Failed(f) => {
                    let mut message = "应用更新失败: ".to_owned();
                    message.append(f.message.as_str());
                    self.failure = message;
                    let count: usize = self.plan.apply.len();
                    self.enter_discard(count);
                },
                _ => {
                    assert(i < self.plan.apply.len());
                    self.enter_copy(i + 1);
                },
            },
            Stage::Commit => {
                self.end(Ok(()));
            },
            Stage::Discard(n) => match reply {
                Reply::Failed(f) => {
                    let message = report_at(
                        "[",
                        self.in_target(&self.plan.apply[n - 1]).as_str(),
                        f.message.as_str(),
                    );
                    proof {
                        lemma_texts_push(self.discard_errors@, message);
                    }
                    self.discard_errors.push(message);
                    self.enter_discard(n - 1);
                },
                _ => {
                    self.enter_discard(n - 1);
                },
            },
            Stage::Restore(n) => match reply {
                Reply::Failed(f) => {
                    let message = report_between(
                        "[",
                        self.in_backup(&self.backed_up[n - 1]).as_str(),
                        self.in_target(&self.backed_up[n - 1]).as_str(),
                        f.detailed().as_str(),
                    );
                    proof {
                        lemma_texts_push(self.restore_errors@, message);
                    }
                    self.restore_errors.push(message);
                    self.enter_restore(n - 1);
                },
                _ => {
                    self.enter_restore(n - 1);
                },
            },
            Stage::Finished => {},
        }
    }
}

} // verus!
