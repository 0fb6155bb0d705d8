//! The UDP listener.

use vstd::prelude::*;
use vstd::slice::slice_subrange;

verus! {

/// How many queries are answered at a time.
pub const MAX_CONCURRENT_UDP_QUERIES: usize = 64;

/// What the listener waits for.
#[derive(Debug, Clone, Copy, PartialEq, Eq, Structural)]
pub enum UdpState {
    /// The policy engine.
    AwaitingEngine,
    /// A permit to answer one more query.
    AwaitingPermit,
    /// A query, with a permit at hand.
    AwaitingDatagram,
    /// Nothing any more.
    Stopped,
}

/// What the listener has waited for.
#[derive(Debug, Clone, Copy, PartialEq, Eq, Structural)]
pub enum UdpEvent {
    /// The policy engine is ready.
    EngineReady,
    /// The policy engine is gone and will never be ready.
    EngineGone,
    /// There is a permit.
    PermitGranted,
    /// There will be no more permits.
    PermitsClosed,
    /// As many bytes of a query have been received.
    DatagramReceived(usize),
    /// The socket cannot receive.
    ReceiveFailed,
}

/// What the listener does next.
#[derive(Debug, Clone, Copy, PartialEq, Eq, Structural)]
pub enum UdpAction {
    /// Wait for a permit.
    AcquirePermit,
    /// Wait for a query.
    Receive,
    /// Answer the query of as many bytes under the permit at hand, and wait for the next permit
    /// meanwhile.
    ServeAndAcquirePermit(usize),
    /// End the listener.
    Stop,
}

impl UdpState {
    /// A listener that waits for the policy engine.
    pub fn new() -> (state: Self)
        ensures
            state == UdpState::AwaitingEngine,
    {
        UdpState::AwaitingEngine
    }

    /// The state of a listener after the events that it has taken.
    pub open spec fn after(events: Seq<UdpEvent>) -> UdpState
        decreases events.len(),
    {
        if events.len() == 0 {
            UdpState::AwaitingEngine
        } else {
            UdpState::after(events.drop_last()).next(events.last()).0
        }
    }

    /// What a listener does upon the event at `i` of those that it takes.
    pub open spec fn action_at(events: Seq<UdpEvent>, i: int) -> UdpAction {
        UdpState::after(events.take(i)).next(events[i]).1
    }

    /// What follows an event. One that the listener does not wait for ends it.
    pub open spec fn next(self, event: UdpEvent) -> (UdpState, UdpAction) {
        match (self, event) {
            (UdpState::AwaitingEngine, UdpEvent::EngineReady) => (
                UdpState::AwaitingPermit,
                UdpAction::AcquirePermit,
            ),
            (UdpState::AwaitingPermit, UdpEvent::PermitGranted) => (
                UdpState::AwaitingDatagram,
                UdpAction::Receive,
            ),
            (UdpState::AwaitingDatagram, UdpEvent::DatagramReceived(length)) => (
                UdpState::AwaitingPermit,
                UdpAction::ServeAndAcquirePermit(length),
            ),
            _ => (UdpState::Stopped, UdpAction::Stop),
        }
    }

    /// Take an event and say what to do next.
    pub fn step(&mut self, event: UdpEvent) -> (action: UdpAction)
        ensures
            (*final(self), action) == old(self).next(event),
    {
        match (*self, event) {
            (UdpState::AwaitingEngine, UdpEvent::EngineReady) => {
                *self = UdpState::AwaitingPermit;
                UdpAction::AcquirePermit
            },
            (UdpState::AwaitingPermit, UdpEvent::PermitGranted) => {
                *self = UdpState::AwaitingDatagram;
                UdpAction::Receive
            },
            (UdpState::AwaitingDatagram, UdpEvent::DatagramReceived(length)) => {
                *self = UdpState::AwaitingPermit;
                UdpAction::ServeAndAcquirePermit(length)
            },
            _ => {
                *self = UdpState::Stopped;
                UdpAction::Stop
            },
        }
    }

    /// How many permits the listener itself holds, apart from those of the queries that are being
    /// answered.
    pub open spec fn permits(self) -> int {
        if self == UdpState::AwaitingDatagram {
            1
        } else {
            0
        }
    }
}

/// A buffer for queries of up to `max_message_bytes`, and one byte more, by which a longer one
/// shows.
pub fn receive_buffer(max_message_bytes: usize) -> (buffer: Vec<u8>)
    requires
        max_message_bytes < usize::MAX,
    ensures
        buffer@.len() == max_message_bytes + 1,
        forall|i: int| 0 <= i < buffer@.len() ==> buffer@[i] == 0,
{
    vec![0u8; max_message_bytes + 1]
}

/// The query whose `length` bytes `buffer` begins with.
pub fn received_query(buffer: &Vec<u8>, length: usize) -> (query: Vec<u8>)
    requires
        length <= buffer@.len(),
    ensures
        query@ == buffer@.take(length as int),
{
    let mut query: Vec<u8> = Vec::new();
    query.extend_from_slice(slice_subrange(buffer.as_slice(), 0, length));
    assert(query@ =~= buffer@.take(length as int));
    query
}

/// What is sent back of an attempt to answer a query: the answer, and nothing where it failed.
pub fn reply<E>(answer: Result<Vec<u8>, E>) -> (reply: Option<Vec<u8>>)
    ensures
        match answer {
            Ok(message) => reply == Some(message),
            Err(_) => reply is None,
        },
{
    answer.ok()
}

/// Every query is answered under a permit of its own: the listener takes one before it receives a
/// query, and hands on the one that it holds with the query.
pub proof fn law_queries_are_answered_under_a_permit(state: UdpState, event: UdpEvent)
    ensures
        ({
            let (next, action) = state.next(event);
            let taken: int = if event == UdpEvent::PermitGranted {
                1
            } else {
                0
            };
            let handed_on: int = if action is ServeAndAcquirePermit {
                1
            } else {
                0
            };
            &&& next != UdpState::Stopped ==> next.permits() == state.permits() + taken - handed_on
            &&& action is ServeAndAcquirePermit ==> state.permits() == 1
            &&& action == UdpAction::Receive ==> next.permits() == 1
        }),
{
}

/// What can happen to a listener and to the queries that it has handed on.
pub enum UdpChange {
    /// The listener takes an event.
    Listener(UdpEvent),
    /// A query that was being answered no longer is, answered or failed, and gives its permit
    /// back.
    AnswerEnded,
}

/// A listener, and how many queries are being answered for it.
pub struct UdpLoad {
    pub state: UdpState,
    pub answering: int,
}

impl UdpLoad {
    /// How many permits are taken: one for each query that is being answered, and the one that the
    /// listener may hold.
    pub open spec fn taken(self) -> int {
        self.answering + self.state.permits()
    }

    /// Whether the change can happen now. A permit is granted only while fewer are taken than
    /// there are, and only an answer that is under way can end.
    pub open spec fn allows(self, change: UdpChange) -> bool {
        match change {
            UdpChange::Listener(event) => event == UdpEvent::PermitGranted ==> self.taken()
                < MAX_CONCURRENT_UDP_QUERIES,
            UdpChange::AnswerEnded => self.answering > 0,
        }
    }

    /// What the listener does upon the change.
    pub open spec fn action(self, change: UdpChange) -> Option<UdpAction> {
        match change {
            UdpChange::Listener(event) => Some(self.state.next(event).1),
            UdpChange::AnswerEnded => None,
        }
    }

    /// What the change leads to.
    pub open spec fn after(self, change: UdpChange) -> UdpLoad {
        match change {
            UdpChange::Listener(event) => {
                let (state, action) = self.state.next(event);
                let started: int = if action is ServeAndAcquirePermit {
                    1
                } else {
                    0
                };
                UdpLoad { state, answering: self.answering + started }
            },
            UdpChange::AnswerEnded => UdpLoad { state: self.state, answering: self.answering - 1 },
        }
    }
}

/// The load after the changes, from a listener that waits for the policy engine.
pub open spec fn load_after(changes: Seq<UdpChange>) -> UdpLoad
    decreases changes.len(),
{
    if changes.len() == 0 {
        UdpLoad { state: UdpState::AwaitingEngine, answering: 0 }
    } else {
        load_after(changes.drop_last()).after(changes.last())
    }
}

/// Whether each of the changes can happen where the ones before it have.
pub open spec fn can_happen(changes: Seq<UdpChange>) -> bool
    decreases changes.len(),
{
    changes.len() > 0 ==> {
        &&& can_happen(changes.drop_last())
        &&& load_after(changes.drop_last()).allows(changes.last())
    }
}

/// Whatever has happened, no more queries are being answered than there are permits, and none
/// more is received or handed on while as many are. An answer that ends makes room for one more,
/// whether it succeeded or not.
pub proof fn law_queries_answered_at_a_time_are_limited(changes: Seq<UdpChange>)
    requires
        can_happen(changes),
    ensures
        ({
            let load = load_after(changes);
            &&& 0 <= load.answering
            &&& load.taken() <= MAX_CONCURRENT_UDP_QUERIES
            &&& load.answering == MAX_CONCURRENT_UDP_QUERIES ==> {
                &&& load.state != UdpState::AwaitingDatagram
                &&& forall|change: UdpChange| #[trigger]
                    load.allows(change) ==> {
                        &&& load.action(change) != Some(UdpAction::Receive)
                        &&& !(load.action(change) matches Some(
                            UdpAction::ServeAndAcquirePermit(_),
                        ))
                    }
            }
            &&& load.answering > 0 ==> {
                let freed = load.after(UdpChange::AnswerEnded);
                &&& freed.state == load.state
                &&& freed.answering == load.answering - 1
                &&& freed.taken() == load.taken() - 1
                &&& freed.allows(UdpChange::Listener(UdpEvent::PermitGranted))
            }
        }),
    decreases changes.len(),
{
    if changes.len() > 0 {
        law_queries_answered_at_a_time_are_limited(changes.drop_last());
    }
}

proof fn lemma_listening_began_with_the_engine(events: Seq<UdpEvent>)
    ensures
        UdpState::after(events) == UdpState::AwaitingEngine ==> events.len() == 0,
        events.len() > 0 && UdpState::after(events) != UdpState::Stopped ==> events[0]
            == UdpEvent::EngineReady,
    decreases events.len(),
{
    if events.len() > 0 {
        lemma_listening_began_with_the_engine(events.drop_last());
    }
}

/// Whatever happens, no permit is taken and no query is received or answered unless the first
/// thing to happen was that the policy engine became ready; so while it has not, every action is
/// to stop.
pub proof fn law_udp_waits_for_the_engine(events: Seq<UdpEvent>, i: int)
    requires
        0 <= i < events.len(),
    ensures
        UdpState::action_at(events, i) != UdpAction::Stop ==> events[0] == UdpEvent::EngineReady,
        (forall|j: int| 0 <= j <= i ==> events[j] != UdpEvent::EngineReady)
            ==> UdpState::action_at(events, i) == UdpAction::Stop,
{
    lemma_listening_began_with_the_engine(events.take(i));
    if i > 0 {
        assert(events.take(i)[0] == events[0]);
    }
}

/// A listener that has ended does nothing more.
pub proof fn law_udp_ends_for_good(events: Seq<UdpEvent>, more: Seq<UdpEvent>)
    requires
        UdpState::after(events) == UdpState::Stopped,
    ensures
        UdpState::after(events + more) == UdpState::Stopped,
        forall|event: UdpEvent|
            (#[trigger] UdpState::after(events + more).next(event)).1 == UdpAction::Stop,
    decreases more.len(),
{
    if more.len() == 0 {
        assert(events + more == events);
    } else {
        assert((events + more).drop_last() == events + more.drop_last());
        law_udp_ends_for_good(events, more.drop_last());
    }
}

/// A listener with a permit hands every datagram on, with its length, whatever that is, and waits
/// for the next permit.
pub proof fn law_every_datagram_is_handed_on(length: usize)
    ensures
        UdpState::AwaitingDatagram.next(UdpEvent::DatagramReceived(length)) == (
            UdpState::AwaitingPermit,
            UdpAction::ServeAndAcquirePermit(length),
        ),
{
}

/// Each thing that a listener does but stopping follows one event in one state, and no other.
pub proof fn law_udp_actions_have_one_cause(state: UdpState, event: UdpEvent, length: usize)
    ensures
        ({
            let (next, action) = state.next(event);
            &&& action == UdpAction::ServeAndAcquirePermit(length) <==> state
                == UdpState::AwaitingDatagram && event == UdpEvent::DatagramReceived(length)
            &&& action == UdpAction::Receive <==> state == UdpState::AwaitingPermit && event
                == UdpEvent::PermitGranted
            &&& action == UdpAction::AcquirePermit <==> state == UdpState::AwaitingEngine && event
                == UdpEvent::EngineReady
            &&& next == UdpState::AwaitingPermit <==> action == UdpAction::AcquirePermit
                || action is ServeAndAcquirePermit
            &&& next == UdpState::AwaitingDatagram <==> action == UdpAction::Receive
            &&& next == UdpState::Stopped <==> action == UdpAction::Stop
        }),
{
}

/// The lengths of the datagrams that are received, in order.
pub open spec fn received_lengths(events: Seq<UdpEvent>) -> Seq<usize>
    decreases events.len(),
{
    if events.len() == 0 {
        seq![]
    } else {
        match events.last() {
            UdpEvent::DatagramReceived(length) => received_lengths(events.drop_last()).push(length),
            _ => received_lengths(events.drop_last()),
        }
    }
}

/// The lengths of the queries that a listener hands on, in order.
pub open spec fn served_lengths(events: Seq<UdpEvent>) -> Seq<usize>
    decreases events.len(),
{
    if events.len() == 0 {
        seq![]
    } else {
        match UdpState::after(events.drop_last()).next(events.last()).1 {
            UdpAction::ServeAndAcquirePermit(length) => served_lengths(events.drop_last()).push(
                length,
            ),
            _ => served_lengths(events.drop_last()),
        }
    }
}

/// As long as a listener has not ended it has handed on what it received, datagram by datagram
/// and in full length; and once it has ended it hands on nothing more.
pub proof fn law_queries_are_the_datagrams(events: Seq<UdpEvent>, event: UdpEvent)
    ensures
        UdpState::after(events) != UdpState::Stopped ==> served_lengths(events)
            == received_lengths(events),
        UdpState::after(events) == UdpState::Stopped ==> served_lengths(events.push(event))
            == served_lengths(events),
    decreases events.len(),
{
    if events.len() > 0 {
        law_queries_are_the_datagrams(events.drop_last(), events.last());
    }
    assert(events.push(event).drop_last() == events);
}

/// What a listener takes of as many datagrams, each after a permit.
pub open spec fn rounds(lengths: Seq<usize>) -> Seq<UdpEvent>
    decreases lengths.len(),
{
    if lengths.len() == 0 {
        seq![UdpEvent::EngineReady]
    } else {
        rounds(lengths.drop_last()).push(UdpEvent::PermitGranted).push(
            UdpEvent::DatagramReceived(lengths.last()),
        )
    }
}

/// Datagrams of whatever lengths, however many, each of which comes after a permit, are all handed
/// on with their lengths, and leave the listener waiting for a permit.
pub proof fn law_listener_goes_on(lengths: Seq<usize>)
    ensures
        UdpState::after(rounds(lengths)) == UdpState::AwaitingPermit,
        served_lengths(rounds(lengths)) == lengths,
    decreases lengths.len(),
{
    reveal_with_fuel(UdpState::after, 2);
    reveal_with_fuel(served_lengths, 2);
    if lengths.len() == 0 {
        let first = seq![UdpEvent::EngineReady];
        assert(first.drop_last() == Seq::<UdpEvent>::empty());
    } else {
        let earlier = rounds(lengths.drop_last());
        law_listener_goes_on(lengths.drop_last());
        let granted = earlier.push(UdpEvent::PermitGranted);
        let received = granted.push(UdpEvent::DatagramReceived(lengths.last()));
        assert(granted.drop_last() == earlier);
        assert(received.drop_last() == granted);
        assert(lengths.drop_last().push(lengths.last()) == lengths);
    }
}

/// What a call of `reply` sends back is the answer, byte for byte, where there is one, and nothing
/// where there is none.
pub proof fn law_answers_are_sent_as_they_are<E>(
    answer: Result<Vec<u8>, E>,
    sent: Option<Vec<u8>>,
)
    requires
        call_ensures(reply::<E>, (answer,), sent),
    ensures
        sent is Some <==> answer is Ok,
        sent is Some ==> sent->0@ == answer->Ok_0@,
{
}

/// A query of any length up to the limit, and one byte more, is found again as it was received in
/// the buffer for that limit.
pub proof fn law_received_bytes_are_the_query(
    max_message_bytes: usize,
    empty: Vec<u8>,
    datagram: Seq<u8>,
    filled: Vec<u8>,
    length: usize,
    query: Vec<u8>,
)
    requires
        call_ensures(receive_buffer, (max_message_bytes,), empty),
        datagram.len() == length <= max_message_bytes + 1,
        filled@ == datagram + empty@.skip(length as int),
        call_ensures(received_query, (&filled, length), query),
    ensures
        query@ == datagram,
        empty@.len() == max_message_bytes + 1,
        forall|i: int| 0 <= i < empty@.len() ==> empty@[i] == 0,
{
    assert(filled@.take(length as int) == datagram);
}

/// A step hands on every datagram that comes while a permit is at hand, with its length, and ends
/// the listener upon whatever it does not wait for.
pub proof fn law_udp_step(state: &mut UdpState, event: UdpEvent, action: UdpAction)
    requires
        call_ensures(UdpState::step, (state, event), action),
    ensures
        *old(state) == UdpState::AwaitingDatagram && event is DatagramReceived ==> action
            == UdpAction::ServeAndAcquirePermit(event->DatagramReceived_0) && *final(state)
            == UdpState::AwaitingPermit,
        *old(state) == UdpState::AwaitingPermit && event == UdpEvent::PermitGranted ==> action
            == UdpAction::Receive && *final(state) == UdpState::AwaitingDatagram,
        *old(state) == UdpState::AwaitingEngine && event == UdpEvent::EngineReady ==> action
            == UdpAction::AcquirePermit && *final(state) == UdpState::AwaitingPermit,
        action == UdpAction::Stop <==> *final(state) == UdpState::Stopped,
        action != UdpAction::Stop ==> {
            ||| *old(state) == UdpState::AwaitingDatagram && event is DatagramReceived
            ||| *old(state) == UdpState::AwaitingPermit && event == UdpEvent::PermitGranted
            ||| *old(state) == UdpState::AwaitingEngine && event == UdpEvent::EngineReady
        },
{
}

}
