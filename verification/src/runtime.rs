//! Keeping the operations of the runtime and the critical section of an update apart.

use vstd::prelude::*;
use std::sync::atomic::{AtomicBool, Ordering};
use std::sync::Arc;

verus! {

/// What an operation is told while an update runs.
pub const UPDATE_IN_PROGRESS: &'static str = "Update in progress";

/// What an update is told while another one runs, or has succeeded.
pub const UPDATE_ALREADY_IN_PROGRESS: &'static str = "Update already in progress";

/// `tokio::sync::RwLock`: a lock that many can share for reading and one can hold for writing.
#[verifier::external_type_specification]
#[verifier::external_body]
#[verifier::reject_recursive_types(T)]
pub struct ExRwLock<T: ?Sized>(tokio::sync::RwLock<T>);

/// `tokio::sync::OwnedRwLockReadGuard`: a share of such a lock.
#[verifier::external_type_specification]
#[verifier::external_body]
#[verifier::reject_recursive_types(T)]
#[verifier::reject_recursive_types(U)]
pub struct ExOwnedRwLockReadGuard<T: ?Sized, U: ?Sized>(tokio::sync::OwnedRwLockReadGuard<T, U>);

/// `tokio::sync::OwnedRwLockWriteGuard`: the whole of such a lock.
#[verifier::external_type_specification]
#[verifier::external_body]
#[verifier::reject_recursive_types(T)]
pub struct ExOwnedRwLockWriteGuard<T: ?Sized>(tokio::sync::OwnedRwLockWriteGuard<T>);

/// `tokio::sync::TryLockError`: a lock could not be had at once.
#[verifier::external_type_specification]
#[verifier::external_body]
pub struct ExTryLockError(tokio::sync::TryLockError);

/// `tokio::sync::RwLock::new` makes a lock that nobody holds. A lock is a shared object, of which
/// nothing is said here.
#[verifier::external_body]
fn new_lock() -> (res: tokio::sync::RwLock<()>) {
    tokio::sync::RwLock::new(())
}

/// `tokio::sync::RwLock::try_read_owned` takes a share of the lock at once, or fails where it cannot.
/// Which of the two happens depends on who holds the lock at that moment, and is not said here.
pub assume_specification<T: ?Sized>[ tokio::sync::RwLock::<T>::try_read_owned ](
    lock: Arc<tokio::sync::RwLock<T>>,
) -> (res: Result<tokio::sync::OwnedRwLockReadGuard<T>, tokio::sync::TryLockError>)
;

/// A step on the flag of a coordinator, and what came of it.
pub enum FlagStep {
    /// A look at the flag gives its value.
    Look(bool),
    /// An attempt to raise the flag where it is down gives what it held: it is raised, or was up already.
    Claim(Result<bool, bool>),
    /// The flag is lowered.
    Lower,
}

impl FlagStep {
    /// Whether the step can come to this on a flag that is up or down, as `AtomicBool` documents its
    /// operations.
    pub open spec fn fits(self, up: bool) -> bool {
        match self {
            FlagStep::Look(value) => value == up,
            FlagStep::Claim(Ok(value)) => !up && value == up,
            FlagStep::Claim(Err(value)) => up && value == up,
            FlagStep::Lower => true,
        }
    }

    /// Whether the flag is up after the step.
    pub open spec fn leaves(self, up: bool) -> bool {
        match self {
            FlagStep::Look(_) => up,
            FlagStep::Claim(_) => true,
            FlagStep::Lower => false,
        }
    }
}

/// Coordinates the operations of the runtime with the critical section of an update.
pub struct UpdateCoordinator {
    lock: Arc<tokio::sync::RwLock<()>>,
    in_progress: AtomicBool,
}

impl Default for UpdateCoordinator {
    fn default() -> (res: UpdateCoordinator)
        ensures
            res.starts_with(false),
    {
        UpdateCoordinator {
            lock: Arc::new(new_lock()),
            in_progress: AtomicBool::new(false),
        }
    }
}

/// Whether an operation is let in, by whether an update runs or has succeeded.
pub open spec fn lets_in(in_progress: bool) -> bool {
    !in_progress
}

/// Whether the runtime is opened again when a permit is given up, by whether the update has succeeded.
pub open spec fn opens_again(keep_closed: bool) -> bool {
    !keep_closed
}

/// Whether an attempt to raise the flag makes an update the one that runs.
pub open spec fn claims(result: Result<bool, bool>) -> bool {
    result is Ok
}

/// Whether an operation may go on, by whether an update runs.
pub fn check_open(in_progress: bool) -> (res: Result<(), String>)
    ensures
        match res {
            Ok(()) => lets_in(in_progress),
            Err(message) => !lets_in(in_progress) && message@ == UPDATE_IN_PROGRESS@,
        },
{
    if in_progress {
        Err(UPDATE_IN_PROGRESS.to_owned())
    } else {
        Ok(())
    }
}

/// Lets an operation in that has its share of the lock, unless an update has begun meanwhile.
pub fn let_in(share: tokio::sync::OwnedRwLockReadGuard<()>, in_progress: bool) -> (res: Result<
    tokio::sync::OwnedRwLockReadGuard<()>,
    String,
>)
    ensures
        match res {
            Ok(had) => lets_in(in_progress) && had == share,
            Err(message) => !lets_in(in_progress) && message@ == UPDATE_IN_PROGRESS@,
        },
{
    match check_open(in_progress) {
        Ok(()) => Ok(share),
        Err(message) => Err(message),
    }
}

impl UpdateCoordinator {
    /// The lock that an operation has to wait for its share of, unless an update runs. An operation
    /// that has its share goes on with [`UpdateCoordinator::runtime_operation`]. It is refused just where
    /// the flag is found up.
    pub fn operation_lock(self: &Arc<Self>) -> (res: Result<
        Arc<tokio::sync::RwLock<()>>,
        String,
    >)
        ensures
            match res {
                Ok(lock) => lock == self.lock() && self.reads(false),
                Err(message) => message@ == UPDATE_IN_PROGRESS@ && self.reads(true),
            },
    {
        match check_open(self.in_progress.load(Ordering::SeqCst)) {
            Ok(()) => Ok(self.lock.clone()),
            Err(message) => Err(message),
        }
    }

    /// Lets an operation in that has waited for its share of the lock, unless an update has begun
    /// meanwhile: it is let in with that share just where the flag is found down. An update that waits for
    /// the lock goes first.
    pub fn runtime_operation(
        self: &Arc<Self>,
        permit: tokio::sync::OwnedRwLockReadGuard<()>,
    ) -> (res: Result<tokio::sync::OwnedRwLockReadGuard<()>, String>)
        ensures
            match res {
                Ok(share) => share == permit && self.reads(false),
                Err(message) => message@ == UPDATE_IN_PROGRESS@ && self.reads(true),
            },
    {
        let_in(permit, self.in_progress.load(Ordering::SeqCst))
    }

    /// Lets an operation in that cannot wait: it gets its share of the lock at once or not at all. It is let
    /// in with the share that the lock gives, where [`UpdateCoordinator::runtime_operation`] lets it in with
    /// that share in hand; it is refused where the flag is found up or the lock gives no share.
    pub fn try_runtime_operation(self: &Arc<Self>) -> (res: Result<
        tokio::sync::OwnedRwLockReadGuard<()>,
        String,
    >)
        ensures
            match res {
                Ok(share) => {
                    &&& self.shares(Ok(share))
                    &&& enters(self, share, Ok(share))
                    &&& self.reads(false)
                },
                Err(message) => {
                    &&& message@ == UPDATE_IN_PROGRESS@
                    &&& self.reads(true) || exists|error: tokio::sync::TryLockError|
                        self.shares(Err(error))
                },
            },
    {
        match check_open(self.in_progress.load(Ordering::SeqCst)) {
            Ok(()) => {},
            Err(message) => return Err(message),
        }
        let attempt = self.lock.clone().try_read_owned();
        assert(self.shares(attempt));
        match attempt {
            Ok(share) => {
                let ghost had = share;
                let res = self.runtime_operation(share);
                assert(enters(self, had, res));
                res
            },
            Err(_) => Err(UPDATE_IN_PROGRESS.to_owned()),
        }
    }

    /// The lock that an update has to wait for until it has the whole of it. An update that has it goes
    /// on with [`UpdateCoordinator::begin_update`].
    pub fn update_lock(&self) -> (res: Arc<tokio::sync::RwLock<()>>)
        ensures
            res == self.lock(),
    {
        self.lock.clone()
    }

    /// Begins an update that has the whole of the lock, unless one runs already or has succeeded: just
    /// where it raises the flag, from when on no operation is let in.
    pub fn begin_update(
        self: Arc<Self>,
        permit: tokio::sync::OwnedRwLockWriteGuard<()>,
    ) -> (res: Result<UpdatePermit, String>)
        ensures
            match res {
                Ok(update) => {
                    &&& update@ == (PermitView {
                        coordinator: self,
                        share: permit,
                        keeps_closed: false,
                    })
                    &&& exists|held: bool| #[trigger] self.takes(FlagStep::Claim(Ok(held)))
                },
                Err(message) => {
                    &&& message@ == UPDATE_ALREADY_IN_PROGRESS@
                    &&& exists|held: bool| #[trigger] self.takes(FlagStep::Claim(Err(held)))
                },
            },
    {
        let attempt = self.in_progress.compare_exchange(
            false,
            true,
            Ordering::SeqCst,
            Ordering::SeqCst,
        );
        let claimed = match attempt {
            Ok(held) => {
                assert(self.takes(FlagStep::Claim(Ok(held))));
                true
            },
            Err(held) => {
                assert(self.takes(FlagStep::Claim(Err(held))));
                false
            },
        };
        claim(self, permit, claimed)
    }

    /// Whether an update runs or has succeeded: what a load of the flag gives.
    pub fn is_update_in_progress(&self) -> (res: bool)
        ensures
            self.reads(res),
    {
        self.in_progress.load(Ordering::SeqCst)
    }

    /// Whether the coordinator is made with a flag that holds such a value at first.
    pub closed spec fn starts_with(&self, in_progress: bool) -> bool {
        call_ensures(AtomicBool::new, (in_progress,), self.in_progress)
    }

    /// Whether a step can be taken on the flag of the coordinator: a load of it, a `compare_exchange` of it
    /// from `false` to `true`, or a store of `false` in it. What comes of it rests on the updates that other
    /// threads run.
    pub closed spec fn takes(&self, step: FlagStep) -> bool {
        match step {
            FlagStep::Look(value) => call_ensures(
                AtomicBool::load,
                (&self.in_progress, Ordering::SeqCst),
                value,
            ),
            FlagStep::Claim(result) => call_ensures(
                AtomicBool::compare_exchange,
                (&self.in_progress, false, true, Ordering::SeqCst, Ordering::SeqCst),
                result,
            ),
            FlagStep::Lower => call_ensures(
                AtomicBool::store,
                (&self.in_progress, false, Ordering::SeqCst),
                (),
            ),
        }
    }

    /// Whether a look at the flag that closes the runtime can give such a value.
    pub open spec fn reads(&self, in_progress: bool) -> bool {
        self.takes(FlagStep::Look(in_progress))
    }

    /// Whether the attempt to take a share of the lock at once can come to such a result. Which it comes to
    /// rests on who holds the lock at that moment.
    pub open spec fn shares(
        &self,
        result: Result<tokio::sync::OwnedRwLockReadGuard<()>, tokio::sync::TryLockError>,
    ) -> bool {
        call_ensures(tokio::sync::RwLock::<()>::try_read_owned, (self.lock(),), result)
    }

    /// The lock.
    pub closed spec fn lock(&self) -> Arc<tokio::sync::RwLock<()>> {
        self.lock
    }
}

/// Whether [`UpdateCoordinator::runtime_operation`] can come to a result for an operation that has a share of
/// the lock.
pub open spec fn enters(
    coordinator: &Arc<UpdateCoordinator>,
    share: tokio::sync::OwnedRwLockReadGuard<()>,
    result: Result<tokio::sync::OwnedRwLockReadGuard<()>, String>,
) -> bool {
    call_ensures(UpdateCoordinator::runtime_operation, (coordinator, share), result)
}

/// Gives an update its permit where it has claimed the coordinator.
pub fn claim(
    coordinator: Arc<UpdateCoordinator>,
    permit: tokio::sync::OwnedRwLockWriteGuard<()>,
    claimed: bool,
) -> (res: Result<UpdatePermit, String>)
    ensures
        match res {
            Ok(update) => claimed && update@ == (PermitView {
                coordinator,
                share: permit,
                keeps_closed: false,
            }),
            Err(message) => !claimed && message@ == UPDATE_ALREADY_IN_PROGRESS@,
        },
{
    if claimed {
        Ok(UpdatePermit { coordinator, permit, keep_closed: false })
    } else {
        Err(UPDATE_ALREADY_IN_PROGRESS.to_owned())
    }
}

/// The permit of an update to be in its critical section. When it is given up, the runtime is open
/// again, unless the update has succeeded.
pub struct UpdatePermit {
    coordinator: Arc<UpdateCoordinator>,
    permit: tokio::sync::OwnedRwLockWriteGuard<()>,
    keep_closed: bool,
}

/// What an [`UpdatePermit`] holds.
pub struct PermitView {
    /// The coordinator that gave the permit.
    pub coordinator: Arc<UpdateCoordinator>,
    /// The hold on the lock.
    pub share: tokio::sync::OwnedRwLockWriteGuard<()>,
    /// Whether the runtime stays closed when the permit is given up.
    pub keeps_closed: bool,
}

impl View for UpdatePermit {
    type V = PermitView;

    closed spec fn view(&self) -> PermitView {
        PermitView {
            coordinator: self.coordinator,
            share: self.permit,
            keeps_closed: self.keep_closed,
        }
    }
}

impl UpdatePermit {
    /// Keeps the runtime closed until the process ends, once the update has succeeded.
    pub fn keep_runtime_closed(&mut self)
        ensures
            final(self)@ == (PermitView { keeps_closed: true, ..old(self)@ }),
    {
        self.keep_closed = true;
    }
}

/// Whether the runtime is opened again when a permit is given up.
pub fn reopens(keep_closed: bool) -> (res: bool)
    ensures
        res == opens_again(keep_closed),
    opens_invariants none
    no_unwind
{
    !keep_closed
}

/// `AtomicBool::store` of `false`, with the ordering `SeqCst`, in the flag of the coordinator that gave a
/// permit. With that ordering it does not panic: giving up a permit must not. What is said of it is that it
/// is this store, on this flag. The permit of an update that has succeeded cannot be handed to it.
#[verifier::external_body]
fn lower(permit: &UpdatePermit) -> (res: ())
    requires
        opens_again(permit@.keeps_closed),
    ensures
        call_ensures(
            AtomicBool::store,
            (&permit.coordinator.in_progress, false, Ordering::SeqCst),
            res,
        ),
    opens_invariants none
    no_unwind
{
    permit.coordinator.in_progress.store(false, Ordering::SeqCst)
}

impl Drop for UpdatePermit {
    /// Gives the permit up: the flag of its coordinator is lowered, unless the update has succeeded.
    fn drop(&mut self)
        ensures
            final(self)@ == old(self)@,
            opens_again(old(self)@.keeps_closed) ==> old(self)@.coordinator.takes(FlagStep::Lower),
        opens_invariants none
        no_unwind
    {
        if reopens(self.keep_closed) {
            lower(&*self);
        }
    }
}

} // verus!
