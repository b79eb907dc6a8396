//! An update from its preparation to its end: what happens in which order, and when the runtime stays
//! closed.

use vstd::prelude::*;
use crate::access_laws::{lemma_sound_step, AccessEvent, AccessView};
use crate::plan::PreparedUpdate;
use crate::runtime::{claims, PermitView, UpdatePermit};
use crate::transaction::outcome_view;

verus! {

/// What an update waits for.
#[derive(Clone, Copy, Debug, PartialEq, Eq, Structural)]
pub enum SessionStage {
    /// The update is prepared.
    Prepare,
    /// The critical section is entered.
    Enter,
    /// The runtime is brought to rest.
    Quiesce,
    /// The update is installed.
    Install,
    /// The update is over.
    Finished,
}

/// An update from its preparation to its end.
pub struct UpdateSession {
    pub extract_dir: String,
    pub target_dir: String,
    stage: SessionStage,
    prepared: Option<PreparedUpdate>,
    permit: Option<UpdatePermit>,
    outcome: Option<Result<(), String>>,
}

/// What an [`UpdateSession`] holds.
pub struct SessionView {
    pub extract_dir: Seq<char>,
    pub target_dir: Seq<char>,
    pub stage: SessionStage,
    /// The update, once it is prepared and until it is handed out to be installed.
    pub prepared: Option<PreparedUpdate>,
    /// The permit that the update holds.
    pub permit: Option<PermitView>,
    pub outcome: Option<Result<(), Seq<char>>>,
}

impl View for UpdateSession {
    type V = SessionView;

    closed spec fn view(&self) -> SessionView {
        SessionView {
            extract_dir: self.extract_dir@,
            target_dir: self.target_dir@,
            stage: self.stage,
            prepared: self.prepared,
            permit: match self.permit {
                Some(permit) => Some(permit@),
                None => None,
            },
            outcome: outcome_view(self.outcome),
        }
    }
}

impl SessionView {
    /// An update that nothing has been done for yet.
    pub open spec fn start(extract_dir: Seq<char>, target_dir: Seq<char>) -> SessionView {
        SessionView {
            extract_dir,
            target_dir,
            stage: SessionStage::Prepare,
            prepared: None,
            permit: None,
            outcome: None,
        }
    }

    /// Whether the permit that the update holds keeps the runtime closed; nothing where it holds none.
    pub open spec fn keeps_closed(self) -> Option<bool> {
        match self.permit {
            Some(permit) => Some(permit.keeps_closed),
            None => None,
        }
    }

    /// Whether the permit is held just from when the critical section is entered, and at the end only
    /// where the update has succeeded, and keeps the runtime closed just then.
    pub open spec fn well_formed(self) -> bool {
        match self.stage {
            SessionStage::Prepare => {
                &&& self.prepared is None
                &&& self.permit is None
                &&& self.outcome is None
            },
            SessionStage::Enter => {
                &&& self.prepared is Some
                &&& self.permit is None
                &&& self.outcome is None
            },
            SessionStage::Quiesce => {
                &&& self.prepared is Some
                &&& self.keeps_closed() == Some(false)
                &&& self.outcome is None
            },
            SessionStage::Install => {
                &&& self.prepared is None
                &&& self.keeps_closed() == Some(false)
                &&& self.outcome is None
            },
            SessionStage::Finished => {
                &&& self.prepared is None
                &&& match self.outcome {
                    Some(Ok(())) => self.keeps_closed() == Some(true),
                    Some(Err(_)) => self.permit is None,
                    None => false,
                }
            },
        }
    }

    /// The update that has failed, without a permit.
    pub open spec fn failed(self, message: Seq<char>) -> SessionView {
        SessionView {
            stage: SessionStage::Finished,
            prepared: None,
            permit: None,
            outcome: Some(Err(message)),
            ..self
        }
    }

    /// The update after the attempt to prepare it.
    pub open spec fn after_preparing(self, result: Result<PreparedUpdate, Seq<char>>) -> SessionView {
        match result {
            Ok(update) => SessionView {
                stage: SessionStage::Enter,
                prepared: Some(update),
                ..self
            },
            Err(message) => self.failed(message),
        }
    }

    /// The update after the attempt to enter the critical section.
    pub open spec fn after_entering(self, result: Result<PermitView, Seq<char>>) -> SessionView {
        match result {
            Ok(permit) => SessionView {
                stage: SessionStage::Quiesce,
                permit: Some(permit),
                ..self
            },
            Err(message) => self.failed(message),
        }
    }

    /// The update after the attempt to bring the runtime to rest.
    pub open spec fn after_quiescing(self, result: Result<(), Seq<char>>) -> SessionView {
        match result {
            Ok(()) => SessionView { stage: SessionStage::Install, prepared: None, ..self },
            Err(message) => self.failed(message),
        }
    }

    /// The update after the attempt to install it.
    pub open spec fn after_installing(self, result: Result<(), Seq<char>>) -> SessionView {
        match result {
            Ok(()) => SessionView {
                stage: SessionStage::Finished,
                permit: match self.permit {
                    Some(permit) => Some(PermitView { keeps_closed: true, ..permit }),
                    None => None,
                },
                outcome: Some(Ok(())),
                ..self
            },
            Err(message) => self.failed(message),
        }
    }
}

/// What the steps of an update come to.
pub struct StepResults {
    pub prepared: Result<PreparedUpdate, Seq<char>>,
    /// What came of the attempt to raise the flag of the coordinator, and of entering by it.
    pub claim: Result<bool, bool>,
    pub entered: Result<PermitView, Seq<char>>,
    pub quiesced: Result<(), Seq<char>>,
    pub installed: Result<(), Seq<char>>,
}

impl StepResults {
    /// Whether the critical section is entered as [`crate::runtime::UpdateCoordinator::begin_update`] has it:
    /// just where the flag is raised, and with a permit that does not keep the runtime closed.
    pub open spec fn consistent(self) -> bool {
        &&& self.entered is Ok <==> claims(self.claim)
        &&& self.entered matches Ok(permit) ==> !permit.keeps_closed
    }

    /// The update at its end.
    pub open spec fn end_of(self, session: SessionView) -> SessionView {
        let first = session.after_preparing(self.prepared);
        let second = first.after_entering(self.entered);
        let third = second.after_quiescing(self.quiesced);
        if self.prepared is Err {
            first
        } else if self.entered is Err {
            second
        } else if self.quiesced is Err {
            third
        } else {
            third.after_installing(self.installed)
        }
    }

    /// What happens at the coordinator up to the end of the update: a permit that the update does not hold
    /// at its end has been given up.
    pub open spec fn events(self) -> Seq<AccessEvent> {
        if self.prepared is Err {
            Seq::empty()
        } else if self.entered is Err {
            seq![AccessEvent::Begin(self.claim)]
        } else if self.quiesced is Err || self.installed is Err {
            seq![AccessEvent::Begin(self.claim), AccessEvent::GiveUp]
        } else {
            seq![AccessEvent::Begin(self.claim), AccessEvent::Keep]
        }
    }

    /// Why the update fails; nothing where it succeeds.
    pub open spec fn fault(self) -> Option<Seq<char>> {
        match (self.prepared, self.entered, self.quiesced, self.installed) {
            (Err(error), _, _, _) => Some(error),
            (_, Err(error), _, _) => Some(error),
            (_, _, Err(error), _) => Some(error),
            (_, _, _, Err(error)) => Some(error),
            _ => None,
        }
    }
}

/// Law: where no update runs and none has succeeded, an update that comes to its end leaves the flag of its
/// coordinator up just where it has succeeded. It fails with the error of its first step that fails, and
/// holds a permit at its end just where it has succeeded, one that keeps the runtime closed when it is
/// given up.
pub proof fn law_runtime_stays_closed_just_after_success(
    session: SessionView,
    results: StepResults,
    access: AccessView,
)
    requires
        session.well_formed(),
        session.stage == SessionStage::Prepare,
        results.consistent(),
        access.sound(),
        access.update is None,
        !access.succeeded,
        access.allows_all(results.events()),
    ensures
        ({
            let end = results.end_of(session);
            let after = access.after_all(results.events());
            &&& end.outcome == Some(
                match results.fault() {
                    Some(error) => Err::<(), Seq<char>>(error),
                    None => Ok(()),
                },
            )
            &&& after.sound()
            &&& after.update == end.keeps_closed()
            &&& after.in_progress <==> results.fault() is None
            &&& after.succeeded <==> results.fault() is None
            &&& results.fault() is None ==> {
                &&& after.allows(AccessEvent::GiveUp)
                &&& after.after(AccessEvent::GiveUp).in_progress
            }
        }),
{
    lemma_events(access, results);
}

proof fn lemma_events(access: AccessView, results: StepResults)
    requires
        results.consistent(),
        access.sound(),
        access.update is None,
        !access.succeeded,
        access.allows_all(results.events()),
    ensures
        ({
            let after = access.after_all(results.events());
            let success = results.fault() is None;
            &&& after.sound()
            &&& after.succeeded == success
            &&& after.update == (if success {
                Some(true)
            } else {
                None
            })
            &&& success ==> after.allows(AccessEvent::GiveUp) && after.after(
                AccessEvent::GiveUp,
            ).in_progress
        }),
{
    let events = results.events();
    assert(access.after_all(Seq::empty()) == access);
    if events.len() > 0 {
        let first = seq![AccessEvent::Begin(results.claim)];
        assert(first.drop_last() =~= Seq::empty());
        if events.len() == 1 {
            assert(events =~= first);
        } else {
            assert(events.drop_last() =~= first);
        }
        assert(access.after_all(first) == access.after(AccessEvent::Begin(results.claim)));
        assert(access.allows_all(first));
        lemma_sound_step(access, AccessEvent::Begin(results.claim));
        if events.len() == 2 {
            lemma_sound_step(access.after_all(first), events.last());
            if results.fault() is None {
                lemma_sound_step(access.after_all(events), AccessEvent::GiveUp);
            }
        }
    }
}

/// Law: steps come in their order. The critical section is entered only with an update that is prepared,
/// and nothing is installed before the critical section is entered and the runtime is at rest.
pub proof fn law_update_is_installed_at_rest(session: SessionView)
    requires
        session.well_formed(),
    ensures
        session.stage == SessionStage::Enter ==> session.prepared is Some && session.permit is None,
        session.stage == SessionStage::Quiesce ==> session.keeps_closed() == Some(false),
        forall|r: Result<PreparedUpdate, Seq<char>>|
            (#[trigger] session.after_preparing(r)).stage == SessionStage::Enter ==> r is Ok,
        forall|r: Result<(), Seq<char>>|
            (#[trigger] session.after_quiescing(r)).stage == SessionStage::Install ==> r is Ok,
{
}

/// Law: what each step of an update leads to. An update that is prepared waits for the critical section, one
/// that has entered it for the runtime to rest, and one at rest for its installation; the update and the
/// permit stay as they were given. A step that fails ends the update with its error, without a permit.
pub proof fn law_update_goes_step_by_step(
    extract_dir: Seq<char>,
    target_dir: Seq<char>,
    update: PreparedUpdate,
    permit: PermitView,
    error: Seq<char>,
)
    ensures
        ({
            let start = SessionView::start(extract_dir, target_dir);
            let prepared = start.after_preparing(Ok(update));
            let entered = prepared.after_entering(Ok(permit));
            let resting = entered.after_quiescing(Ok(()));
            let end = resting.after_installing(Ok(()));
            let failed = SessionView {
                extract_dir,
                target_dir,
                stage: SessionStage::Finished,
                prepared: None,
                permit: None,
                outcome: Some(Err(error)),
            };
            &&& start.stage == SessionStage::Prepare && start.prepared is None
            &&& start.permit is None && start.outcome is None
            &&& prepared.stage == SessionStage::Enter && prepared.prepared == Some(update)
            &&& prepared.permit is None && prepared.outcome is None
            &&& entered.stage == SessionStage::Quiesce && entered.prepared == Some(update)
            &&& entered.permit == Some(permit) && entered.outcome is None
            &&& resting.stage == SessionStage::Install && resting.prepared is None
            &&& resting.permit == Some(permit) && resting.outcome is None
            &&& end.stage == SessionStage::Finished && end.prepared is None
            &&& end.permit == Some(PermitView { keeps_closed: true, ..permit })
            &&& end.outcome == Some(Ok::<(), Seq<char>>(()))
            &&& start.after_preparing(Err(error)) == failed
            &&& prepared.after_entering(Err(error)) == failed
            &&& entered.after_quiescing(Err(error)) == failed
            &&& resting.after_installing(Err(error)) == failed
            &&& end.extract_dir == extract_dir && end.target_dir == target_dir
        }),
{
}

/// What a result without a value holds.
pub open spec fn plain_result(result: Result<(), String>) -> Result<(), Seq<char>> {
    match result {
        Ok(()) => Ok(()),
        Err(message) => Err(message@),
    }
}

/// Starts the update of a target with an extracted package.
pub fn install_prepared_update(extract_dir: String, target_dir: String) -> (res: UpdateSession)
    ensures
        res@ == SessionView::start(extract_dir@, target_dir@),
        res@.well_formed(),
{
    UpdateSession {
        extract_dir,
        target_dir,
        stage: SessionStage::Prepare,
        prepared: None,
        permit: None,
        outcome: None,
    }
}

impl UpdateSession {
    /// What the update waits for.
    pub fn stage(&self) -> (res: SessionStage)
        ensures
            res == self@.stage,
    {
        self.stage
    }

    /// What the update has come to, once it is over.
    pub fn outcome(&self) -> (res: Option<Result<(), String>>)
        ensures
            outcome_view(res) == self@.outcome,
    {
        match &self.outcome {
            None => None,
            Some(Ok(())) => Some(Ok(())),
            Some(Err(message)) => Some(Err(message.clone())),
        }
    }

    fn fail(&mut self, message: String)
        ensures
            final(self)@ == old(self)@.failed(message@),
    {
        self.stage = SessionStage::Finished;
        self.prepared = None;
        self.permit = None;
        self.outcome = Some(Err(message));
    }

    /// Goes on after the attempt to prepare the update.
    pub fn prepared(&mut self, result: Result<PreparedUpdate, String>)
        requires
            old(self)@.well_formed(),
            old(self)@.stage == SessionStage::Prepare,
        ensures
            final(self)@ == old(self)@.after_preparing(
                match result {
                    Ok(update) => Ok(update),
                    Err(message) => Err(message@),
                },
            ),
            final(self)@.well_formed(),
    {
        match result {
            Ok(update) => {
                self.stage = SessionStage::Enter;
                self.prepared = Some(update);
            },
            Err(message) => self.fail(message),
        }
    }

    /// Goes on after the attempt to enter the critical section.
    pub fn entered(&mut self, result: Result<UpdatePermit, String>)
        requires
            old(self)@.well_formed(),
            old(self)@.stage == SessionStage::Enter,
            result matches Ok(permit) ==> !permit@.keeps_closed,
        ensures
            final(self)@ == old(self)@.after_entering(
                match result {
                    Ok(permit) => Ok(permit@),
                    Err(message) => Err(message@),
                },
            ),
            final(self)@.well_formed(),
    {
        match result {
            Ok(permit) => {
                self.stage = SessionStage::Quiesce;
                self.permit = Some(permit);
            },
            Err(message) => self.fail(message),
        }
    }

    /// Goes on after the attempt to bring the runtime to rest. Where it is at rest, the update is handed
    /// out to be installed.
    pub fn quiesced(&mut self, result: Result<(), String>) -> (res: Option<PreparedUpdate>)
        requires
            old(self)@.well_formed(),
            old(self)@.stage == SessionStage::Quiesce,
        ensures
            final(self)@ == old(self)@.after_quiescing(plain_result(result)),
            final(self)@.well_formed(),
            res == (if result is Ok {
                old(self)@.prepared
            } else {
                None
            }),
    {
        match result {
            Ok(()) => {
                self.stage = SessionStage::Install;
                self.prepared.take()
            },
            Err(message) => {
                self.fail(message);
                None
            },
        }
    }

    /// Goes on after the attempt to install the update. Where it has succeeded, the runtime stays closed
    /// until the process ends; else the permit is given up.
    pub fn installed(&mut self, result: Result<(), String>)
        requires
            old(self)@.well_formed(),
            old(self)@.stage == SessionStage::Install,
        ensures
            final(self)@ == old(self)@.after_installing(plain_result(result)),
            final(self)@.well_formed(),
    {
        match result {
            Ok(()) => {
                if let Some(held) = self.permit.take() {
                    let mut permit = held;
                    permit.keep_runtime_closed();
                    self.permit = Some(permit);
                }
                self.stage = SessionStage::Finished;
                self.outcome = Some(Ok(()));
            },
            Err(message) => self.fail(message),
        }
    }
}

} // verus!
