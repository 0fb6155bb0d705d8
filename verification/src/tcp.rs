//! The TCP listener, and the connections that it accepts.
//!
//! A connection may carry several messages one after the other, each behind its length. The C
//! library commonly sends its A and AAAA queries over one connection.

use vstd::prelude::*;

verus! {

/// What the listener waits for.
#[derive(Debug, Clone, Copy, PartialEq, Eq, Structural)]
pub enum TcpListenerState {
    /// The policy engine.
    AwaitingEngine,
    /// A connection.
    AwaitingConnection,
    /// Nothing any more.
    Stopped,
}

/// What the listener has waited for.
#[derive(Debug, Clone, Copy, PartialEq, Eq, Structural)]
pub enum TcpListenerEvent {
    /// The policy engine is ready.
    EngineReady,
    /// The policy engine is gone and will never be ready.
    EngineGone,
    /// There is a connection.
    Connected,
    /// The socket cannot accept.
    AcceptFailed,
}

/// What the listener does next.
#[derive(Debug, Clone, Copy, PartialEq, Eq, Structural)]
pub enum TcpListenerAction {
    /// Wait for a connection.
    Accept,
    /// Serve the connection, and wait for the next one meanwhile.
    ServeAndAccept,
    /// End the listener.
    Stop,
}

impl TcpListenerState {
    /// A listener that waits for the policy engine.
    pub fn new() -> (state: Self)
        ensures
            state == TcpListenerState::AwaitingEngine,
    {
        TcpListenerState::AwaitingEngine
    }

    /// The state of a listener after the events that it has taken.
    pub open spec fn after(events: Seq<TcpListenerEvent>) -> TcpListenerState
        decreases events.len(),
    {
        if events.len() == 0 {
            TcpListenerState::AwaitingEngine
        } else {
            TcpListenerState::after(events.drop_last()).next(events.last()).0
        }
    }

    /// What a listener does upon the event at `i` of those that it takes.
    pub open spec fn action_at(events: Seq<TcpListenerEvent>, i: int) -> TcpListenerAction {
        TcpListenerState::after(events.take(i)).next(events[i]).1
    }

    /// What follows an event. One that the listener does not wait for ends it.
    pub open spec fn next(self, event: TcpListenerEvent) -> (TcpListenerState, TcpListenerAction) {
        match (self, event) {
            (TcpListenerState::AwaitingEngine, TcpListenerEvent::EngineReady) => (
                TcpListenerState::AwaitingConnection,
                TcpListenerAction::Accept,
            ),
            (TcpListenerState::AwaitingConnection, TcpListenerEvent::Connected) => (
                TcpListenerState::AwaitingConnection,
                TcpListenerAction::ServeAndAccept,
            ),
            _ => (TcpListenerState::Stopped, TcpListenerAction::Stop),
        }
    }

    /// Take an event and say what to do next.
    pub fn step(&mut self, event: TcpListenerEvent) -> (action: TcpListenerAction)
        ensures
            (*final(self), action) == old(self).next(event),
    {
        match (*self, event) {
            (TcpListenerState::AwaitingEngine, TcpListenerEvent::EngineReady) => {
                *self = TcpListenerState::AwaitingConnection;
                TcpListenerAction::Accept
            },
            (TcpListenerState::AwaitingConnection, TcpListenerEvent::Connected) => {
                TcpListenerAction::ServeAndAccept
            },
            _ => {
                *self = TcpListenerState::Stopped;
                TcpListenerAction::Stop
            },
        }
    }
}

/// What a connection waits for.
#[derive(Debug, Clone, Copy, PartialEq, Eq, Structural)]
pub enum TcpState {
    /// The length of a query.
    AwaitingLength,
    /// The bytes of a query of this length.
    AwaitingBody(u16),
    /// The answer to a query.
    AwaitingAnswer,
    /// The answer to be sent.
    AwaitingSent,
    /// Nothing any more.
    Closed,
}

/// What a connection has waited for.
#[derive(Debug)]
pub enum TcpEvent {
    /// A query of this length follows.
    LengthRead(u16),
    /// The query has been read into its frame.
    BodyRead(Vec<u8>),
    /// The query has been answered with this message.
    Answered(Vec<u8>),
    /// The answer has been sent.
    Sent,
    /// It has failed.
    Failed,
}

/// What to do next with a connection.
#[derive(Debug)]
pub enum TcpAction {
    /// Read the length of a query.
    ReadLength,
    /// Read a query into the frame, behind the two bytes of its length.
    ReadBody(Vec<u8>),
    /// Answer the query in the frame.
    Answer(Vec<u8>),
    /// Send the answer.
    Send(Vec<u8>),
    /// Close the connection.
    Close,
}

/// The frame of a query of `length` bytes before they are read: the length, the more significant
/// byte first, and as many zeros.
pub open spec fn empty_frame(length: u16) -> Seq<u8> {
    seq![(length / 256) as u8, (length % 256) as u8] + Seq::new(length as nat, |i: int| 0u8)
}

/// Whether `frame` is a query of `length` bytes behind its length.
pub open spec fn holds_query(frame: Seq<u8>, length: u16) -> bool {
    frame.len() == length + 2 && frame.take(2) == empty_frame(length).take(2)
}

/// A frame for a query of `length` bytes.
pub fn frame(length: u16) -> (frame: Vec<u8>)
    ensures
        frame@ == empty_frame(length),
{
    let mut frame: Vec<u8> = Vec::with_capacity(length as usize + 2);
    frame.push((length / 256) as u8);
    frame.push((length % 256) as u8);
    frame.resize(length as usize + 2, 0);
    assert(frame@.subrange(0, 2)[0] == frame@[0]);
    assert(frame@.subrange(0, 2)[1] == frame@[1]);
    assert(frame@ =~= empty_frame(length));
    frame
}

fn has_query(frame: &Vec<u8>, length: u16) -> (has: bool)
    ensures
        has == holds_query(frame@, length),
{
    if frame.len() != length as usize + 2 {
        return false;
    }
    let ghost wanted = empty_frame(length).take(2);
    assert(wanted[0] == (length / 256) as u8 && wanted[1] == (length % 256) as u8);
    let has = frame[0] == (length / 256) as u8 && frame[1] == (length % 256) as u8;
    if has {
        assert(frame@.take(2) =~= wanted);
    } else {
        assert(frame@.take(2)[0] == frame@[0] && frame@.take(2)[1] == frame@[1]);
    }
    has
}

impl TcpState {
    /// A connection that has just been accepted, and what to do with it.
    pub fn open() -> (opened: (TcpState, TcpAction))
        ensures
            opened == (TcpState::AwaitingLength, TcpAction::ReadLength),
    {
        (TcpState::AwaitingLength, TcpAction::ReadLength)
    }

    /// Whether `next` and `action` are what follows an event, where queries of more than
    /// `max_message_bytes` are refused. An event that the connection does not wait for closes it.
    pub open spec fn leads_to(
        self,
        event: TcpEvent,
        max_message_bytes: usize,
        next: TcpState,
        action: TcpAction,
    ) -> bool {
        match (self, event) {
            (TcpState::AwaitingLength, TcpEvent::LengthRead(length)) if length
                <= max_message_bytes => {
                &&& next == TcpState::AwaitingBody(length)
                &&& action matches TcpAction::ReadBody(frame) && frame@ == empty_frame(length)
            },
            (TcpState::AwaitingBody(length), TcpEvent::BodyRead(frame)) if holds_query(
                frame@,
                length,
            ) => {
                next == TcpState::AwaitingAnswer && action == TcpAction::Answer(frame)
            },
            (TcpState::AwaitingAnswer, TcpEvent::Answered(message)) => {
                next == TcpState::AwaitingSent && action == TcpAction::Send(message)
            },
            (TcpState::AwaitingSent, TcpEvent::Sent) => {
                next == TcpState::AwaitingLength && action == TcpAction::ReadLength
            },
            _ => next == TcpState::Closed && action == TcpAction::Close,
        }
    }

    /// Take an event and say what to do next.
    pub fn step(&mut self, event: TcpEvent, max_message_bytes: usize) -> (action: TcpAction)
        ensures
            old(self).leads_to(event, max_message_bytes, *final(self), action),
    {
        match (*self, event) {
            (TcpState::AwaitingLength, TcpEvent::LengthRead(length)) => {
                if length as usize > max_message_bytes {
                    *self = TcpState::Closed;
                    TcpAction::Close
                } else {
                    *self = TcpState::AwaitingBody(length);
                    TcpAction::ReadBody(frame(length))
                }
            },
            (TcpState::AwaitingBody(length), TcpEvent::BodyRead(frame)) => {
                if has_query(&frame, length) {
                    *self = TcpState::AwaitingAnswer;
                    TcpAction::Answer(frame)
                } else {
                    *self = TcpState::Closed;
                    TcpAction::Close
                }
            },
            (TcpState::AwaitingAnswer, TcpEvent::Answered(message)) => {
                *self = TcpState::AwaitingSent;
                TcpAction::Send(message)
            },
            (TcpState::AwaitingSent, TcpEvent::Sent) => {
                *self = TcpState::AwaitingLength;
                TcpAction::ReadLength
            },
            _ => {
                *self = TcpState::Closed;
                TcpAction::Close
            },
        }
    }
}

proof fn lemma_accepting_began_with_the_engine(events: Seq<TcpListenerEvent>)
    ensures
        TcpListenerState::after(events) == TcpListenerState::AwaitingEngine ==> events.len() == 0,
        events.len() > 0 && TcpListenerState::after(events) != TcpListenerState::Stopped
            ==> events[0] == TcpListenerEvent::EngineReady,
    decreases events.len(),
{
    if events.len() > 0 {
        lemma_accepting_began_with_the_engine(events.drop_last());
    }
}

/// Whatever happens, no connection is accepted or served unless the first thing to happen was that
/// the policy engine became ready; so while it has not, every action is to stop.
pub proof fn law_tcp_waits_for_the_engine(events: Seq<TcpListenerEvent>, i: int)
    requires
        0 <= i < events.len(),
    ensures
        TcpListenerState::action_at(events, i) != TcpListenerAction::Stop ==> events[0]
            == TcpListenerEvent::EngineReady,
        (forall|j: int| 0 <= j <= i ==> events[j] != TcpListenerEvent::EngineReady)
            ==> TcpListenerState::action_at(events, i) == TcpListenerAction::Stop,
{
    lemma_accepting_began_with_the_engine(events.take(i));
    if i > 0 {
        assert(events.take(i)[0] == events[0]);
    }
}

/// A listener that has ended does nothing more.
pub proof fn law_tcp_ends_for_good(events: Seq<TcpListenerEvent>, more: Seq<TcpListenerEvent>)
    requires
        TcpListenerState::after(events) == TcpListenerState::Stopped,
    ensures
        TcpListenerState::after(events + more) == TcpListenerState::Stopped,
        forall|event: TcpListenerEvent|
            (#[trigger] TcpListenerState::after(events + more).next(event)).1
                == TcpListenerAction::Stop,
    decreases more.len(),
{
    if more.len() == 0 {
        assert(events + more == events);
    } else {
        assert((events + more).drop_last() == events + more.drop_last());
        law_tcp_ends_for_good(events, more.drop_last());
    }
}

/// A frame begins with the length of the bytes behind it.
pub proof fn law_frame_tells_its_length(length: u16)
    ensures
        empty_frame(length).len() == length + 2,
        empty_frame(length)[0] * 256 + empty_frame(length)[1] == length,
{
}

/// After a query has been read, answered and sent, the connection is ready for the next one.
pub proof fn law_connection_carries_one_query_after_another(
    length: u16,
    max_message_bytes: usize,
    query: Vec<u8>,
    message: Vec<u8>,
    states: (TcpState, TcpState, TcpState, TcpState),
    actions: (TcpAction, TcpAction, TcpAction, TcpAction),
)
    requires
        length <= max_message_bytes,
        holds_query(query@, length),
        TcpState::AwaitingLength.leads_to(
            TcpEvent::LengthRead(length),
            max_message_bytes,
            states.0,
            actions.0,
        ),
        states.0.leads_to(TcpEvent::BodyRead(query), max_message_bytes, states.1, actions.1),
        states.1.leads_to(TcpEvent::Answered(message), max_message_bytes, states.2, actions.2),
        states.2.leads_to(TcpEvent::Sent, max_message_bytes, states.3, actions.3),
    ensures
        states.3 == TcpState::AwaitingLength,
        actions.0 matches TcpAction::ReadBody(frame) && frame@ == empty_frame(length),
        actions.1 == TcpAction::Answer(query),
        actions.2 == TcpAction::Send(message),
        actions.3 == TcpAction::ReadLength,
{
}

/// Whatever is answered over a connection is a query behind its length: the two bytes that the
/// frame begins with are the length that was read, and tell how many follow them.
pub proof fn law_answered_frames_tell_their_length(
    state: TcpState,
    event: TcpEvent,
    max_message_bytes: usize,
    next: TcpState,
    action: TcpAction,
)
    requires
        state.leads_to(event, max_message_bytes, next, action),
    ensures
        action matches TcpAction::Answer(frame) ==> {
            &&& state matches TcpState::AwaitingBody(length)
            &&& event == TcpEvent::BodyRead(frame)
            &&& frame@[0] * 256 + frame@[1] == length
            &&& frame@.len() == length + 2
        },
{
    if let TcpAction::Answer(frame) = action {
        if let TcpState::AwaitingBody(length) = state {
            let prefix = empty_frame(length).take(2);
            assert(frame@.take(2)[0] == frame@[0] && frame@.take(2)[1] == frame@[1]);
            assert(prefix[0] == empty_frame(length)[0] && prefix[1] == empty_frame(length)[1]);
            law_frame_tells_its_length(length);
        }
    }
}

/// The frame that is handed out to be read into is a query behind its length once it has been
/// filled, whatever bytes were read.
pub proof fn law_filled_frames_hold_the_query(length: u16, frame: Seq<u8>, body: Seq<u8>)
    requires
        body.len() == length,
        frame == empty_frame(length).take(2) + body,
    ensures
        holds_query(frame, length),
        frame.skip(2) == body,
{
    assert(empty_frame(length).take(2).len() == 2);
    assert(frame.take(2) == empty_frame(length).take(2));
    assert(frame.skip(2) == body);
}

/// A query that is too long closes the connection before a byte of it is read.
pub proof fn law_long_queries_are_refused(
    length: u16,
    max_message_bytes: usize,
    next: TcpState,
    action: TcpAction,
)
    requires
        length > max_message_bytes,
        TcpState::AwaitingLength.leads_to(
            TcpEvent::LengthRead(length),
            max_message_bytes,
            next,
            action,
        ),
    ensures
        next == TcpState::Closed,
        action == TcpAction::Close,
{
}

/// A failure closes the connection, and a closed connection stays closed.
pub proof fn law_failures_close_the_connection(
    state: TcpState,
    event: TcpEvent,
    max_message_bytes: usize,
    next: TcpState,
    action: TcpAction,
)
    requires
        state == TcpState::Closed || event == TcpEvent::Failed,
        state.leads_to(event, max_message_bytes, next, action),
    ensures
        next == TcpState::Closed,
        action == TcpAction::Close,
{
}

/// Each thing that a listener does but stopping follows one event in one state, and no other.
pub proof fn law_tcp_listener_actions_have_one_cause(
    state: TcpListenerState,
    event: TcpListenerEvent,
)
    ensures
        ({
            let (next, action) = state.next(event);
            &&& action == TcpListenerAction::Accept <==> state == TcpListenerState::AwaitingEngine
                && event == TcpListenerEvent::EngineReady
            &&& action == TcpListenerAction::ServeAndAccept <==> state
                == TcpListenerState::AwaitingConnection && event == TcpListenerEvent::Connected
            &&& next == TcpListenerState::AwaitingConnection <==> action != TcpListenerAction::Stop
            &&& next == TcpListenerState::Stopped <==> action == TcpListenerAction::Stop
        }),
{
}

/// Connections, however many, are all served once the policy engine is ready, and leave the
/// listener waiting for the next one.
pub proof fn law_every_connection_is_served(count: nat)
    ensures
        ({
            let events = seq![TcpListenerEvent::EngineReady] + Seq::new(
                count,
                |i: int| TcpListenerEvent::Connected,
            );
            &&& TcpListenerState::after(events) == TcpListenerState::AwaitingConnection
            &&& TcpListenerState::action_at(events, 0) == TcpListenerAction::Accept
            &&& forall|i: int|
                1 <= i <= count ==> #[trigger] TcpListenerState::action_at(events, i)
                    == TcpListenerAction::ServeAndAccept
        }),
    decreases count,
{
    reveal_with_fuel(TcpListenerState::after, 2);
    let connected = |i: int| TcpListenerEvent::Connected;
    let events = seq![TcpListenerEvent::EngineReady] + Seq::new(count, connected);
    assert(events.take(0) == Seq::<TcpListenerEvent>::empty());
    if count == 0 {
        assert(events == seq![TcpListenerEvent::EngineReady]);
        assert(events.drop_last() == Seq::<TcpListenerEvent>::empty());
    } else {
        let fewer = (count - 1) as nat;
        let earlier = seq![TcpListenerEvent::EngineReady] + Seq::new(fewer, connected);
        law_every_connection_is_served(fewer);
        assert(events.drop_last() == earlier);
        assert forall|i: int| 1 <= i <= count implies #[trigger] TcpListenerState::action_at(
            events,
            i,
        ) == TcpListenerAction::ServeAndAccept by {
            if i < count {
                assert(events.take(i) == earlier.take(i));
                assert(events[i] == earlier[i]);
                assert(TcpListenerState::action_at(earlier, i)
                    == TcpListenerAction::ServeAndAccept);
            } else {
                assert(events.take(i) == earlier);
            }
        }
    }
}

/// Behind the length in a new frame there are only zeros.
pub proof fn law_new_frames_are_empty(length: u16, i: int)
    requires
        0 <= i < length,
    ensures
        empty_frame(length)[i + 2] == 0,
{
}

/// Bytes are a query of some length exactly where the first two, the more significant one first,
/// write that length and as many follow.
pub proof fn law_queries_stand_behind_their_length(frame: Seq<u8>, length: u16)
    ensures
        holds_query(frame, length) <==> frame.len() == length + 2 && frame[0] * 256 + frame[1]
            == length,
{
    law_frame_tells_its_length(length);
    let wanted = empty_frame(length);
    assert(wanted.take(2)[0] == wanted[0] && wanted.take(2)[1] == wanted[1]);
    if frame.len() == length + 2 {
        assert(frame.take(2)[0] == frame[0] && frame.take(2)[1] == frame[1]);
        if frame[0] * 256 + frame[1] == length {
            assert(frame[0] == wanted[0] && frame[1] == wanted[1]);
            assert(frame.take(2) == wanted.take(2));
        }
    }
}

/// Each thing that is done with a connection but closing it follows one event in one state, and no
/// other: a length up to the limit is followed by its body, a query behind its length is answered,
/// an answer is sent, whatever it holds, and what has been sent is followed by the next length.
pub proof fn law_tcp_actions_have_one_cause(
    state: TcpState,
    event: TcpEvent,
    max_message_bytes: usize,
    next: TcpState,
    action: TcpAction,
)
    requires
        state.leads_to(event, max_message_bytes, next, action),
    ensures
        action is ReadBody <==> {
            &&& state == TcpState::AwaitingLength
            &&& event matches TcpEvent::LengthRead(length) && length <= max_message_bytes
        },
        action is Answer <==> {
            &&& state matches TcpState::AwaitingBody(length)
            &&& event matches TcpEvent::BodyRead(frame)
            &&& frame@.len() == length + 2
            &&& frame@[0] * 256 + frame@[1] == length
        },
        action is Send <==> state == TcpState::AwaitingAnswer && event is Answered,
        action == TcpAction::ReadLength <==> state == TcpState::AwaitingSent && event
            == TcpEvent::Sent,
        action is ReadBody ==> {
            &&& event == TcpEvent::LengthRead(next->AwaitingBody_0)
            &&& action->ReadBody_0@ == empty_frame(next->AwaitingBody_0)
        },
        action is Answer ==> event == TcpEvent::BodyRead(action->Answer_0),
        action is Send ==> event == TcpEvent::Answered(action->Send_0),
        next is AwaitingBody <==> action is ReadBody,
        next == TcpState::AwaitingAnswer <==> action is Answer,
        next == TcpState::AwaitingSent <==> action is Send,
        next == TcpState::AwaitingLength <==> action == TcpAction::ReadLength,
        next == TcpState::Closed <==> action == TcpAction::Close,
{
    if let TcpState::AwaitingBody(length) = state {
        if let TcpEvent::BodyRead(frame) = event {
            law_queries_stand_behind_their_length(frame@, length);
        }
    }
}

/// The frame for a query of any length begins with the length, the more significant byte first,
/// and has as many zeros behind it.
pub proof fn law_frames_are_laid_out(length: u16, made: Vec<u8>)
    requires
        call_ensures(frame, (length,), made),
    ensures
        made@.len() == length + 2,
        made@[0] * 256 + made@[1] == length,
        forall|i: int| 2 <= i < length + 2 ==> made@[i] == 0,
{
    law_frame_tells_its_length(length);
}

/// A step serves every connection that comes after the policy engine has become ready, and ends the
/// listener upon whatever it does not wait for.
pub proof fn law_tcp_listener_step(
    state: &mut TcpListenerState,
    event: TcpListenerEvent,
    action: TcpListenerAction,
)
    requires
        call_ensures(TcpListenerState::step, (state, event), action),
    ensures
        *old(state) == TcpListenerState::AwaitingEngine && event == TcpListenerEvent::EngineReady
            ==> action == TcpListenerAction::Accept && *final(state)
            == TcpListenerState::AwaitingConnection,
        *old(state) == TcpListenerState::AwaitingConnection && event == TcpListenerEvent::Connected
            ==> action == TcpListenerAction::ServeAndAccept && *final(state)
            == TcpListenerState::AwaitingConnection,
        action == TcpListenerAction::Stop <==> *final(state) == TcpListenerState::Stopped,
        action != TcpListenerAction::Stop ==> {
            ||| *old(state) == TcpListenerState::AwaitingEngine && event
                == TcpListenerEvent::EngineReady
            ||| *old(state) == TcpListenerState::AwaitingConnection && event
                == TcpListenerEvent::Connected
        },
{
}

/// A step reads every query up to the limit behind its length, has every query answered that comes
/// behind its length, and sends every answer as it is.
pub proof fn law_tcp_step(
    state: &mut TcpState,
    event: TcpEvent,
    max_message_bytes: usize,
    action: TcpAction,
)
    requires
        call_ensures(TcpState::step, (state, event, max_message_bytes), action),
    ensures
        *old(state) == TcpState::AwaitingLength && event is LengthRead && event->LengthRead_0
            <= max_message_bytes ==> {
            &&& *final(state) == TcpState::AwaitingBody(event->LengthRead_0)
            &&& action is ReadBody
            &&& action->ReadBody_0@.len() == event->LengthRead_0 + 2
            &&& action->ReadBody_0@[0] * 256 + action->ReadBody_0@[1] == event->LengthRead_0
        },
        *old(state) is AwaitingBody && event is BodyRead && event->BodyRead_0@.len()
            == old(state)->AwaitingBody_0 + 2 && event->BodyRead_0@[0] * 256 + event->BodyRead_0@[1]
            == old(state)->AwaitingBody_0 ==> *final(state) == TcpState::AwaitingAnswer && action
            == TcpAction::Answer(event->BodyRead_0),
        *old(state) == TcpState::AwaitingAnswer && event is Answered ==> *final(state)
            == TcpState::AwaitingSent && action == TcpAction::Send(event->Answered_0),
        *old(state) == TcpState::AwaitingSent && event == TcpEvent::Sent ==> *final(state)
            == TcpState::AwaitingLength && action == TcpAction::ReadLength,
        action == TcpAction::Close <==> *final(state) == TcpState::Closed,
        action is ReadBody ==> event is LengthRead && event->LengthRead_0 <= max_message_bytes,
        action is Answer ==> event == TcpEvent::BodyRead(action->Answer_0),
        action is Send ==> event == TcpEvent::Answered(action->Send_0),
        action == TcpAction::ReadLength ==> event == TcpEvent::Sent,
{
    law_tcp_actions_have_one_cause(*old(state), event, max_message_bytes, *final(state), action);
    if event is LengthRead {
        law_frame_tells_its_length(event->LengthRead_0);
    }
    if event is BodyRead && *old(state) is AwaitingBody {
        law_queries_stand_behind_their_length(event->BodyRead_0@, old(state)->AwaitingBody_0);
    }
}

}
