//! The task that answers the queries which an isolation backend hands over.

use vstd::prelude::*;

verus! {

/// How many accepts of queries are under way at a time.
pub const MEDIATION_ACCEPT_WINDOW: usize = 32;

/// The transport that a query came by.
#[derive(Debug, Clone, Copy, PartialEq, Eq, Structural)]
pub enum DnsTransport {
    Udp,
    Tcp,
}

/// What the task waits for.
#[derive(Debug, Clone, Copy, PartialEq, Eq, Structural)]
pub enum MediationState {
    /// The policy engine.
    AwaitingEngine,
    /// A query, from one of the accepts under way.
    Serving,
    /// Nothing any more.
    Stopped,
}

/// What the task has waited for.
#[derive(Debug, Clone, Copy, PartialEq, Eq, Structural)]
pub enum MediationEvent {
    /// The policy engine is ready.
    EngineReady,
    /// The policy engine is gone and will never be ready.
    EngineGone,
    /// An accept has ended with a query.
    QueryAccepted(DnsTransport),
    /// No accept is under way.
    AcceptsExhausted,
}

/// What the task does next.
#[derive(Debug, Clone, Copy, PartialEq, Eq, Structural)]
pub enum MediationAction {
    /// Start as many accepts.
    StartAccepts(usize),
    /// Start one accept in place of the one that has ended, and answer its query in the manner of
    /// the transport.
    ReplenishAndServe(DnsTransport),
    /// End the task.
    Stop,
}

impl MediationState {
    /// A task that waits for the policy engine.
    pub fn new() -> (state: Self)
        ensures
            state == MediationState::AwaitingEngine,
    {
        MediationState::AwaitingEngine
    }

    /// The state of a task after the events that it has taken.
    pub open spec fn after(events: Seq<MediationEvent>) -> MediationState
        decreases events.len(),
    {
        if events.len() == 0 {
            MediationState::AwaitingEngine
        } else {
            MediationState::after(events.drop_last()).next(events.last()).0
        }
    }

    /// What a task does upon the event at `i` of those that it takes.
    pub open spec fn action_at(events: Seq<MediationEvent>, i: int) -> MediationAction {
        MediationState::after(events.take(i)).next(events[i]).1
    }

    /// What follows an event. One that the task does not wait for ends it.
    pub open spec fn next(self, event: MediationEvent) -> (MediationState, MediationAction) {
        match (self, event) {
            (MediationState::AwaitingEngine, MediationEvent::EngineReady) => (
                MediationState::Serving,
                MediationAction::StartAccepts(MEDIATION_ACCEPT_WINDOW),
            ),
            (MediationState::Serving, MediationEvent::QueryAccepted(transport)) => (
                MediationState::Serving,
                MediationAction::ReplenishAndServe(transport),
            ),
            _ => (MediationState::Stopped, MediationAction::Stop),
        }
    }

    /// Take an event and say what to do next.
    pub fn step(&mut self, event: MediationEvent) -> (action: MediationAction)
        ensures
            (*final(self), action) == old(self).next(event),
    {
        match (*self, event) {
            (MediationState::AwaitingEngine, MediationEvent::EngineReady) => {
                *self = MediationState::Serving;
                MediationAction::StartAccepts(MEDIATION_ACCEPT_WINDOW)
            },
            (MediationState::Serving, MediationEvent::QueryAccepted(transport)) => {
                MediationAction::ReplenishAndServe(transport)
            },
            _ => {
                *self = MediationState::Stopped;
                MediationAction::Stop
            },
        }
    }

    /// How many accepts are under way in a state, once its last action is done.
    pub open spec fn accepts(self) -> int {
        match self {
            MediationState::Serving => MEDIATION_ACCEPT_WINDOW as int,
            _ => 0,
        }
    }
}

/// How many accepts are under way after an event and the action that it led to, where `before`
/// were before the event.
pub open spec fn accepts_after(
    before: int,
    event: MediationEvent,
    action: MediationAction,
) -> int {
    let left = match event {
        MediationEvent::QueryAccepted(_) => before - 1,
        _ => before,
    };
    match action {
        MediationAction::StartAccepts(count) => left + count,
        MediationAction::ReplenishAndServe(_) => left + 1,
        MediationAction::Stop => 0,
    }
}

/// How many accepts are under way for a task after the events that it has taken.
pub open spec fn accepts_under_way(events: Seq<MediationEvent>) -> int
    decreases events.len(),
{
    if events.len() == 0 {
        0
    } else {
        accepts_after(
            accepts_under_way(events.drop_last()),
            events.last(),
            MediationState::after(events.drop_last()).next(events.last()).1,
        )
    }
}

/// Whatever has happened, as many accepts as the window are under way for as long as the task
/// serves, and none before or after.
pub proof fn law_accept_window_is_kept(events: Seq<MediationEvent>)
    ensures
        accepts_under_way(events) == MediationState::after(events).accepts(),
    decreases events.len(),
{
    if events.len() > 0 {
        law_accept_window_is_kept(events.drop_last());
    }
}

proof fn lemma_serving_began_with_the_engine(events: Seq<MediationEvent>)
    ensures
        MediationState::after(events) == MediationState::AwaitingEngine ==> events.len() == 0,
        MediationState::after(events) == MediationState::Serving ==> events.len() > 0 && events[0]
            == MediationEvent::EngineReady,
    decreases events.len(),
{
    if events.len() > 0 {
        lemma_serving_began_with_the_engine(events.drop_last());
    }
}

/// Whatever happens, nothing is accepted and no query is answered unless the first thing to happen
/// was that the policy engine became ready; so while it has not, every action is to stop.
pub proof fn law_queries_wait_for_the_engine(events: Seq<MediationEvent>, i: int)
    requires
        0 <= i < events.len(),
    ensures
        MediationState::action_at(events, i) != MediationAction::Stop ==> events[0]
            == MediationEvent::EngineReady,
        (forall|j: int| 0 <= j <= i ==> events[j] != MediationEvent::EngineReady)
            ==> MediationState::action_at(events, i) == MediationAction::Stop,
{
    lemma_serving_began_with_the_engine(events.take(i));
    if i > 0 {
        assert(events.take(i)[0] == events[0]);
    }
}

/// A task that has ended does nothing more.
pub proof fn law_mediation_ends_for_good(events: Seq<MediationEvent>, more: Seq<MediationEvent>)
    requires
        MediationState::after(events) == MediationState::Stopped,
    ensures
        MediationState::after(events + more) == MediationState::Stopped,
        forall|event: MediationEvent|
            (#[trigger] MediationState::after(events + more).next(event)).1
                == MediationAction::Stop,
    decreases more.len(),
{
    if more.len() == 0 {
        assert(events + more == events);
    } else {
        assert((events + more).drop_last() == events + more.drop_last());
        law_mediation_ends_for_good(events, more.drop_last());
    }
}

/// Each thing that a task does but stopping follows one event in one state, and no other: it
/// starts a full window of accepts when the policy engine is ready, and from then on serves every
/// query, by the transport that it came by.
pub proof fn law_mediation_actions_have_one_cause(
    state: MediationState,
    event: MediationEvent,
    transport: DnsTransport,
)
    ensures
        ({
            let (next, action) = state.next(event);
            &&& action == MediationAction::ReplenishAndServe(transport) <==> state
                == MediationState::Serving && event == MediationEvent::QueryAccepted(transport)
            &&& action == MediationAction::StartAccepts(32) <==> state
                == MediationState::AwaitingEngine && event == MediationEvent::EngineReady
            &&& action is StartAccepts ==> action == MediationAction::StartAccepts(32)
            &&& next == MediationState::Serving <==> action != MediationAction::Stop
            &&& next == MediationState::Stopped <==> action == MediationAction::Stop
        }),
{
}

/// Queries by whatever transports, however many, are all served by their transports once the
/// policy engine is ready, and leave the task serving.
pub proof fn law_every_query_is_served(transports: Seq<DnsTransport>)
    ensures
        ({
            let events = seq![MediationEvent::EngineReady] + transports.map_values(
                |transport: DnsTransport| MediationEvent::QueryAccepted(transport),
            );
            &&& MediationState::after(events) == MediationState::Serving
            &&& MediationState::action_at(events, 0) == MediationAction::StartAccepts(32)
            &&& forall|i: int|
                0 <= i < transports.len() ==> #[trigger] MediationState::action_at(events, i + 1)
                    == MediationAction::ReplenishAndServe(transports[i])
        }),
    decreases transports.len(),
{
    reveal_with_fuel(MediationState::after, 2);
    let accepted = |transport: DnsTransport| MediationEvent::QueryAccepted(transport);
    let events = seq![MediationEvent::EngineReady] + transports.map_values(accepted);
    assert(events.take(0) == Seq::<MediationEvent>::empty());
    if transports.len() == 0 {
        assert(events == seq![MediationEvent::EngineReady]);
        assert(events.drop_last() == Seq::<MediationEvent>::empty());
    } else {
        let fewer = transports.drop_last();
        let earlier = seq![MediationEvent::EngineReady] + fewer.map_values(accepted);
        law_every_query_is_served(fewer);
        assert(events.drop_last() == earlier);
        assert(events.last() == MediationEvent::QueryAccepted(transports.last()));
        assert forall|i: int| 0 <= i < transports.len() implies
            #[trigger] MediationState::action_at(events, i + 1)
            == MediationAction::ReplenishAndServe(transports[i]) by {
            if i < fewer.len() {
                assert(events.take(i + 1) == earlier.take(i + 1));
                assert(events[i + 1] == earlier[i + 1]);
                assert(MediationState::action_at(earlier, i + 1)
                    == MediationAction::ReplenishAndServe(fewer[i]));
            } else {
                assert(events.take(i + 1) == earlier);
            }
        }
    }
}

/// A step starts a full window of accepts when the policy engine is ready, serves every query that
/// comes from then on by its transport, and ends the task upon whatever it does not wait for.
pub proof fn law_mediation_step(
    state: &mut MediationState,
    event: MediationEvent,
    action: MediationAction,
)
    requires
        call_ensures(MediationState::step, (state, event), action),
    ensures
        *old(state) == MediationState::AwaitingEngine && event == MediationEvent::EngineReady
            ==> action == MediationAction::StartAccepts(32) && *final(state)
            == MediationState::Serving,
        *old(state) == MediationState::Serving && event is QueryAccepted ==> action
            == MediationAction::ReplenishAndServe(event->QueryAccepted_0) && *final(state)
            == MediationState::Serving,
        action == MediationAction::Stop <==> *final(state) == MediationState::Stopped,
        action != MediationAction::Stop ==> {
            ||| *old(state) == MediationState::AwaitingEngine && event
                == MediationEvent::EngineReady
            ||| *old(state) == MediationState::Serving && event is QueryAccepted
        },
{
}

}
