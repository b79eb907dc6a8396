//! Who has access to the runtime, as operations and updates come and go.
//!
//! The steps on the flag of a coordinator come in one order, since each is sequentially consistent, and
//! its lock is shared by operations or held by one update.

use vstd::prelude::*;
use crate::runtime::{
    claims, lets_in, opens_again, FlagStep, UPDATE_ALREADY_IN_PROGRESS, UPDATE_IN_PROGRESS,
};

verus! {

/// What happens at a coordinator.
pub enum AccessEvent {
    /// The flag is looked at, by an operation that has no share of the lock yet or to tell whether an
    /// update runs.
    Look(bool),
    /// An operation that has its share of the lock looks at the flag.
    Enter(bool),
    /// An operation that was let in is done and gives its share back.
    Leave,
    /// An update that has the whole of the lock attempts to raise the flag.
    Begin(Result<bool, bool>),
    /// The update that runs has succeeded.
    Keep,
    /// The update that runs gives its permit up.
    GiveUp,
}

/// The state of a coordinator, and what has come of its updates.
#[verifier::ext_equal]
pub struct AccessView {
    /// Whether the flag is up.
    pub in_progress: bool,
    /// How many operations have been let in and are not done.
    pub operations: nat,
    /// For the update that runs, whether the runtime stays closed when its permit is given up.
    pub update: Option<bool>,
    /// Whether an update has succeeded.
    pub succeeded: bool,
}

/// The steps on the flag that giving up a permit takes.
pub open spec fn given_up(keeps_closed: bool) -> Seq<FlagStep> {
    if opens_again(keeps_closed) {
        seq![FlagStep::Lower]
    } else {
        Seq::empty()
    }
}

/// Whether a flag is up after some steps.
pub open spec fn left_up(up: bool, steps: Seq<FlagStep>) -> bool
    decreases steps.len(),
{
    if steps.len() == 0 {
        up
    } else {
        steps.last().leaves(left_up(up, steps.drop_last()))
    }
}

impl AccessView {
    /// A coordinator that has just been made.
    pub open spec fn fresh() -> AccessView {
        AccessView { in_progress: false, operations: 0, update: None, succeeded: false }
    }

    /// The steps on the flag that an event takes.
    pub open spec fn steps(self, event: AccessEvent) -> Seq<FlagStep> {
        match event {
            AccessEvent::Look(value) | AccessEvent::Enter(value) => seq![FlagStep::Look(value)],
            AccessEvent::Begin(result) => seq![FlagStep::Claim(result)],
            AccessEvent::GiveUp => given_up(self.update->Some_0),
            AccessEvent::Leave | AccessEvent::Keep => Seq::empty(),
        }
    }

    /// Whether an event can happen now: the lock is had as its guards are, and the steps on the flag come
    /// to what the flag holds.
    pub open spec fn allows(self, event: AccessEvent) -> bool {
        &&& match event {
            AccessEvent::Look(_) => true,
            AccessEvent::Enter(_) => self.update is None,
            AccessEvent::Leave => self.operations > 0,
            AccessEvent::Begin(_) => self.update is None && self.operations == 0,
            AccessEvent::Keep | AccessEvent::GiveUp => self.update is Some,
        }
        &&& forall|i: int|
            0 <= i < self.steps(event).len() ==> (#[trigger] self.steps(event)[i]).fits(self.in_progress)
    }

    /// The state after an event.
    pub open spec fn after(self, event: AccessEvent) -> AccessView {
        let now = AccessView { in_progress: left_up(self.in_progress, self.steps(event)), ..self };
        match event {
            AccessEvent::Look(_) => now,
            AccessEvent::Enter(value) => if lets_in(value) {
                AccessView { operations: self.operations + 1, ..now }
            } else {
                now
            },
            AccessEvent::Leave => AccessView { operations: (self.operations - 1) as nat, ..now },
            AccessEvent::Begin(result) => if claims(result) {
                AccessView { update: Some(false), ..now }
            } else {
                now
            },
            AccessEvent::Keep => AccessView { update: Some(true), succeeded: true, ..now },
            AccessEvent::GiveUp => AccessView { update: None, ..now },
        }
    }

    /// The state after some events.
    pub open spec fn after_all(self, events: Seq<AccessEvent>) -> AccessView
        decreases events.len(),
    {
        if events.len() == 0 {
            self
        } else {
            self.after_all(events.drop_last()).after(events.last())
        }
    }

    /// Whether some events can happen, one after the other.
    pub open spec fn allows_all(self, events: Seq<AccessEvent>) -> bool
        decreases events.len(),
    {
        events.len() > 0 ==> {
            &&& self.allows_all(events.drop_last())
            &&& self.after_all(events.drop_last()).allows(events.last())
        }
    }

    /// Whether the flag is up just while an update runs and once one has succeeded, no operation is on
    /// while an update runs, and the update that runs keeps the runtime closed just where it has succeeded.
    pub open spec fn sound(self) -> bool {
        &&& self.in_progress <==> self.update is Some || self.succeeded
        &&& self.update is Some ==> self.operations == 0
        &&& self.update matches Some(keeps_closed) ==> keeps_closed == self.succeeded
    }
}

proof fn lemma_one_step(up: bool, step: FlagStep)
    ensures
        left_up(up, seq![step]) == step.leaves(up),
{
    assert(seq![step].drop_last() =~= Seq::empty());
    assert(left_up(up, seq![step].drop_last()) == up);
}

/// Law: an operation is let in just where the flag is found down, an update runs just where it has raised the
/// flag, and a permit that is given up opens the runtime again just where its update has not succeeded. What
/// is refused is told so.
pub proof fn law_flag_decides(found: bool, held: bool)
    ensures
        lets_in(found) <==> !found,
        claims(Ok(held)),
        !claims(Err(held)),
        opens_again(found) <==> !found,
        UPDATE_IN_PROGRESS@ == "Update in progress"@,
        UPDATE_ALREADY_IN_PROGRESS@ == "Update already in progress"@,
        !AccessView::fresh().in_progress,
{
}

/// Law: from when it is made on, the flag of a coordinator is up just while an update runs and once one has
/// succeeded, and no operation is on while an update runs.
pub proof fn law_access_stays_sound(events: Seq<AccessEvent>)
    requires
        AccessView::fresh().allows_all(events),
    ensures
        AccessView::fresh().after_all(events).sound(),
    decreases events.len(),
{
    if events.len() > 0 {
        law_access_stays_sound(events.drop_last());
        lemma_sound_step(AccessView::fresh().after_all(events.drop_last()), events.last());
    }
}

pub proof fn lemma_sound_step(access: AccessView, event: AccessEvent)
    requires
        access.sound(),
        access.allows(event),
    ensures
        access.after(event).sound(),
{
    let steps = access.steps(event);
    if steps.len() > 0 {
        assert(steps =~= seq![steps[0]]);
        assert(steps[0].fits(access.in_progress));
        lemma_one_step(access.in_progress, steps[0]);
    }
}

/// Law: while an update runs, whatever is found of the flag refuses: no operation is let in, no other
/// update can begin, and no operation that was let in before is still on.
pub proof fn law_update_runs_alone(access: AccessView, event: AccessEvent)
    requires
        access.sound(),
        access.update is Some,
        access.allows(event),
    ensures
        access.operations == 0,
        event matches AccessEvent::Look(value) ==> !lets_in(value),
        !(event is Enter),
        !(event is Begin),
{
    if let AccessEvent::Look(value) = event {
        assert(access.steps(event)[0].fits(access.in_progress));
    }
}

/// Law: an update that is given up without success opens the runtime again: operations are let in, and the
/// next update can begin.
pub proof fn law_failed_update_reopens_the_runtime(access: AccessView, event: AccessEvent)
    requires
        access.sound(),
        access.update == Some(false),
        access.after(AccessEvent::GiveUp).allows(event),
    ensures
        access.allows(AccessEvent::GiveUp),
        event matches AccessEvent::Look(value) ==> lets_in(value),
        event matches AccessEvent::Enter(value) ==> lets_in(value),
        event matches AccessEvent::Begin(result) ==> claims(result),
{
    let open = access.after(AccessEvent::GiveUp);
    assert(access.steps(AccessEvent::GiveUp) =~= seq![FlagStep::Lower]);
    lemma_one_step(access.in_progress, FlagStep::Lower);
    assert(!open.in_progress);
    if open.steps(event).len() > 0 {
        assert(open.steps(event)[0].fits(open.in_progress));
    }
}

/// Law: an update that succeeds keeps the runtime closed for good: whatever happens later, no operation is
/// let in, and no update can begin.
pub proof fn law_successful_update_keeps_the_runtime_closed(
    access: AccessView,
    events: Seq<AccessEvent>,
    event: AccessEvent,
)
    requires
        access.sound(),
        access.succeeded,
        access.allows_all(events),
        access.after_all(events).allows(event),
    ensures
        access.after_all(events).succeeded,
        access.after_all(events).in_progress,
        event matches AccessEvent::Look(value) ==> !lets_in(value),
        event matches AccessEvent::Enter(value) ==> !lets_in(value),
        event matches AccessEvent::Begin(result) ==> !claims(result),
{
    let later = access.after_all(events);
    lemma_success_lasts(access, events);
    if later.steps(event).len() > 0 {
        assert(later.steps(event)[0].fits(later.in_progress));
    }
}

proof fn lemma_success_lasts(access: AccessView, events: Seq<AccessEvent>)
    requires
        access.sound(),
        access.succeeded,
        access.allows_all(events),
    ensures
        access.after_all(events).sound(),
        access.after_all(events).succeeded,
    decreases events.len(),
{
    if events.len() > 0 {
        lemma_success_lasts(access, events.drop_last());
        lemma_sound_step(access.after_all(events.drop_last()), events.last());
    }
}

/// Who waits for the lock of a coordinator.
pub enum Waiter {
    /// An operation, for a share of it.
    Operation,
    /// An update, for the whole of it.
    Update,
}

/// What happens at a coordinator whose lock is waited for.
pub enum QueueEvent {
    /// The lock is asked for, behind those that wait for it already.
    Ask(Waiter),
    /// The first of those that wait has the lock, and goes on.
    Turn(AccessEvent),
    /// Something happens for which nothing is waited.
    Other(AccessEvent),
}

/// A coordinator, and those that wait for its lock, in the order in which they have asked. `tokio`
/// documents that its lock is handed out in that order.
pub struct QueueView {
    pub access: AccessView,
    pub waiting: Seq<Waiter>,
}

impl QueueView {
    /// Whether an event can happen now. An operation that does not wait gets a share only where nobody
    /// waits.
    pub open spec fn allows(self, event: QueueEvent) -> bool {
        match event {
            QueueEvent::Ask(_) => true,
            QueueEvent::Turn(turn) => {
                &&& self.waiting.len() > 0
                &&& self.access.allows(turn)
                &&& match self.waiting[0] {
                    Waiter::Operation => turn is Enter,
                    Waiter::Update => turn is Begin,
                }
            },
            QueueEvent::Other(other) => {
                &&& self.access.allows(other)
                &&& other is Enter ==> self.waiting.len() == 0
                &&& !(other is Begin)
            },
        }
    }

    /// The state after an event.
    pub open spec fn after(self, event: QueueEvent) -> QueueView {
        match event {
            QueueEvent::Ask(waiter) => QueueView { waiting: self.waiting.push(waiter), ..self },
            QueueEvent::Turn(turn) => QueueView {
                access: self.access.after(turn),
                waiting: self.waiting.drop_first(),
            },
            QueueEvent::Other(other) => QueueView { access: self.access.after(other), ..self },
        }
    }

    /// The state after some events.
    pub open spec fn after_all(self, events: Seq<QueueEvent>) -> QueueView
        decreases events.len(),
    {
        if events.len() == 0 {
            self
        } else {
            self.after_all(events.drop_last()).after(events.last())
        }
    }

    /// Whether some events can happen, one after the other.
    pub open spec fn allows_all(self, events: Seq<QueueEvent>) -> bool {
        forall|k: int|
            0 <= k < events.len() ==> self.after_all(events.take(k)).allows(#[trigger] events[k])
    }
}

/// How many of those that wait have had their turn in the course of some events.
pub open spec fn turns(events: Seq<QueueEvent>) -> int
    decreases events.len(),
{
    if events.len() == 0 {
        0
    } else {
        turns(events.drop_last()) + if events.last() is Turn {
            1int
        } else {
            0
        }
    }
}

/// The event in which the one at a position of the queue has its turn.
pub open spec fn is_turn_of(events: Seq<QueueEvent>, at: int, position: int) -> bool {
    &&& 0 <= at < events.len()
    &&& events[at] is Turn
    &&& turns(events.take(at)) == position
}

proof fn lemma_take_one(queue: QueueView, events: Seq<QueueEvent>, n: int)
    requires
        0 <= n < events.len(),
    ensures
        turns(events.take(n + 1)) == turns(events.take(n)) + if events[n] is Turn {
            1int
        } else {
            0
        },
        queue.after_all(events.take(n + 1)) == queue.after_all(events.take(n)).after(events[n]),
{
    assert(events.take(n + 1).drop_last() =~= events.take(n));
    assert(events.take(n + 1).last() == events[n]);
}

/// Whether the one at a position of a queue waits behind those that have not had their turn.
spec fn waits_at(queue: QueueView, now: QueueView, past: int, position: int) -> bool {
    &&& position - past < now.waiting.len()
    &&& now.waiting[position - past] == queue.waiting[position]
}

/// Whether those of a queue that are behind the first `past` wait in their order.
spec fn moved_up(queue: QueueView, now: QueueView, past: int) -> bool {
    forall|x: int| past <= x < queue.waiting.len() ==> #[trigger] waits_at(queue, now, past, x)
}

/// What holds of a queue after some events: those that have not had their turn wait in their order.
proof fn lemma_queue_moves_up(queue: QueueView, events: Seq<QueueEvent>, n: int)
    requires
        queue.access.sound(),
        queue.allows_all(events),
        0 <= n <= events.len(),
    ensures
        queue.after_all(events.take(n)).access.sound(),
        turns(events.take(n)) >= 0,
        moved_up(queue, queue.after_all(events.take(n)), turns(events.take(n))),
    decreases n,
{
    if n == 0 {
        assert(events.take(0) =~= Seq::empty());
        assert(queue.after_all(events.take(0)) == queue);
        assert(turns(events.take(0)) == 0);
    } else {
        lemma_queue_moves_up(queue, events, n - 1);
        lemma_take_one(queue, events, n - 1);
        let before = queue.after_all(events.take(n - 1));
        assert(before.allows(events[n - 1]));
        match events[n - 1] {
            QueueEvent::Turn(turn) => lemma_sound_step(before.access, turn),
            QueueEvent::Other(other) => lemma_sound_step(before.access, other),
            QueueEvent::Ask(_) => {},
        }
        let past = turns(events.take(n));
        let earlier = turns(events.take(n - 1));
        let now = queue.after_all(events.take(n));
        assert forall|x: int| past <= x < queue.waiting.len() implies #[trigger] waits_at(
            queue,
            now,
            past,
            x,
        ) by {
            assert(waits_at(queue, before, earlier, x));
        }
    }
}

/// Where more have had their turn than are ahead of a position, the one at the position has had its turn.
proof fn lemma_turn_has_come(events: Seq<QueueEvent>, n: int, position: int) -> (at: int)
    requires
        0 <= n <= events.len(),
        0 <= position < turns(events.take(n)),
    ensures
        at < n,
        is_turn_of(events, at, position),
    decreases n,
{
    if n == 0 {
        assert(events.take(0) =~= Seq::empty());
        0
    } else {
        assert(events.take(n).drop_last() =~= events.take(n - 1));
        assert(events.take(n).last() == events[n - 1]);
        if turns(events.take(n - 1)) > position {
            lemma_turn_has_come(events, n - 1, position)
        } else {
            n - 1
        }
    }
}

/// Only giving its permit up ends an update.
proof fn lemma_only_giving_up_ends(before: QueueView, event: QueueEvent)
    requires
        before.allows(event),
        before.access.update is Some,
        before.after(event).access.update is None,
    ensures
        event == QueueEvent::Other(AccessEvent::GiveUp),
{
}

/// Where an update runs and later none does, its permit has been given up between.
proof fn lemma_permit_was_given_up(
    queue: QueueView,
    events: Seq<QueueEvent>,
    from: int,
    to: int,
) -> (at: int)
    requires
        queue.allows_all(events),
        0 <= from <= to <= events.len(),
        queue.after_all(events.take(from)).access.update is Some,
        queue.after_all(events.take(to)).access.update is None,
    ensures
        from <= at < to,
        events[at] == QueueEvent::Other(AccessEvent::GiveUp),
    decreases to,
{
    if from == to {
        from
    } else {
        lemma_take_one(queue, events, to - 1);
        let before = queue.after_all(events.take(to - 1));
        assert(before.allows(events[to - 1]));
        if before.access.update is None {
            lemma_permit_was_given_up(queue, events, from, to - 1)
        } else {
            lemma_only_giving_up_ends(before, events[to - 1]);
            to - 1
        }
    }
}

/// Law: an update that waits goes before an operation that has asked for the lock later. When the turn of
/// the operation comes, the update has had its turn, and where it has begun, its permit has been given up.
/// The operation is then let in just where no update has succeeded.
pub proof fn law_waiting_update_goes_first(
    queue: QueueView,
    events: Seq<QueueEvent>,
    update: int,
    operation: int,
    at: int,
)
    requires
        queue.access.sound(),
        queue.allows_all(events),
        0 <= update < operation < queue.waiting.len(),
        queue.waiting[update] is Update,
        queue.waiting[operation] is Operation,
        is_turn_of(events, at, operation),
    ensures
        exists|k: int|
            {
                &&& k < at
                &&& #[trigger] is_turn_of(events, k, update)
                &&& events[k] matches QueueEvent::Turn(AccessEvent::Begin(result))
                &&& claims(result) ==> exists|m: int|
                    k < m < at && #[trigger] events[m] == QueueEvent::Other(AccessEvent::GiveUp)
            },
        events[at] matches QueueEvent::Turn(AccessEvent::Enter(value)) && (lets_in(value)
            <==> !queue.after_all(events.take(at)).access.succeeded),
{
    let k = lemma_turn_has_come(events, at, update);
    lemma_queue_moves_up(queue, events, k);
    lemma_queue_moves_up(queue, events, at);
    let early = queue.after_all(events.take(k));
    let late = queue.after_all(events.take(at));
    assert(early.allows(events[k]));
    assert(late.allows(events[at]));
    assert(waits_at(queue, early, update, update));
    assert(waits_at(queue, late, operation, operation));
    let begun = events[k]->Turn_0;
    let result = begun->Begin_0;
    let entered = events[at]->Turn_0;
    assert(late.access.update is None);
    assert(late.access.steps(entered)[0].fits(late.access.in_progress));
    if claims(result) {
        lemma_take_one(queue, events, k);
        assert(queue.after_all(events.take(k + 1)).access.update == Some(false));
        let m = lemma_permit_was_given_up(queue, events, k + 1, at);
        assert(events[m] == QueueEvent::Other(AccessEvent::GiveUp));
    }
}

} // verus!
