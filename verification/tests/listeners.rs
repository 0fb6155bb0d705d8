use policy_dns::backoff::{AcceptBackoff, AcceptStep, MEDIATION_RETRY_DELAY_MILLIS};
use policy_dns::mediation::{
    DnsTransport, MediationAction, MediationEvent, MediationState, MEDIATION_ACCEPT_WINDOW,
};
use policy_dns::report::{
    listening_message, mediated_ready_message, mediated_response, response_failure_message,
};
use policy_dns::tcp::{
    frame, TcpAction, TcpEvent, TcpListenerAction, TcpListenerEvent, TcpListenerState, TcpState,
};
use policy_dns::udp::{
    receive_buffer, received_query, reply, UdpAction, UdpEvent, UdpState,
    MAX_CONCURRENT_UDP_QUERIES,
};

/// A source whose first two accepts fail.
struct RecoveringSource {
    accepts: usize,
}

impl RecoveringSource {
    fn accept_dns(&mut self) -> Result<Vec<u8>, &'static str> {
        self.accepts += 1;
        if self.accepts <= 2 {
            return Err("injected disconnect");
        }
        Ok(b"recovered query".to_vec())
    }
}

/// The query that the source comes up with, and the milliseconds that were waited for it.
fn accept(source: &mut RecoveringSource) -> (Vec<u8>, u64) {
    let mut backoff = AcceptBackoff::new();
    let mut elapsed = 0;
    loop {
        match backoff.step(source.accept_dns().ok()) {
            AcceptStep::Deliver(query) => return (query, elapsed),
            AcceptStep::RetryAfter(millis) => elapsed += millis,
        }
    }
}

#[test]
fn mediated_dns_accept_retries_errors_with_backoff() {
    let mut source = RecoveringSource { accepts: 0 };
    let (query, elapsed) = accept(&mut source);
    assert_eq!(query, b"recovered query");
    assert_eq!(source.accepts, 3);
    assert!(elapsed >= MEDIATION_RETRY_DELAY_MILLIS * 3);
    // The same source remains usable when the accept window replenishes.
    assert_eq!(accept(&mut source).0, b"recovered query");
}

#[test]
fn waits_double_up_to_the_longest() {
    let mut backoff = AcceptBackoff::new();
    for expected in [100, 200, 400, 800, 1600, 3200, 5000, 5000, 5000] {
        assert_eq!(backoff.step::<()>(None), AcceptStep::RetryAfter(expected));
    }
    assert_eq!(backoff.step(Some("query")), AcceptStep::Deliver("query"));
}

#[test]
fn waits_add_up() {
    let mut backoff = AcceptBackoff::new();
    let mut elapsed = 0;
    for expected in [100, 300, 700, 1500, 3100, 6300, 11300, 16300] {
        match backoff.step::<()>(None) {
            AcceptStep::RetryAfter(millis) => elapsed += millis,
            AcceptStep::Deliver(()) => unreachable!(),
        }
        assert_eq!(elapsed, expected);
    }
}

#[test]
fn mediation_keeps_its_accept_window() {
    let mut state = MediationState::new();
    assert_eq!(MEDIATION_ACCEPT_WINDOW, 32);
    assert_eq!(state.step(MediationEvent::EngineReady), MediationAction::StartAccepts(32));
    for transport in [DnsTransport::Udp, DnsTransport::Tcp, DnsTransport::Udp] {
        assert_eq!(
            state.step(MediationEvent::QueryAccepted(transport)),
            MediationAction::ReplenishAndServe(transport)
        );
        assert_eq!(state, MediationState::Serving);
    }
    assert_eq!(state.step(MediationEvent::AcceptsExhausted), MediationAction::Stop);
    assert_eq!(state.step(MediationEvent::EngineReady), MediationAction::Stop);
    assert_eq!(state, MediationState::Stopped);
}

#[test]
fn nothing_is_served_without_an_engine() {
    let mut mediation = MediationState::AwaitingEngine;
    assert_eq!(mediation.step(MediationEvent::EngineGone), MediationAction::Stop);
    let mut udp = UdpState::AwaitingEngine;
    assert_eq!(udp.step(UdpEvent::EngineGone), UdpAction::Stop);
    assert_eq!(udp, UdpState::Stopped);
    let mut tcp = TcpListenerState::AwaitingEngine;
    assert_eq!(tcp.step(TcpListenerEvent::EngineGone), TcpListenerAction::Stop);
    assert_eq!(tcp, TcpListenerState::Stopped);
}

#[test]
fn udp_receives_under_a_permit_and_serves_on() {
    let mut state = UdpState::new();
    assert_eq!(MAX_CONCURRENT_UDP_QUERIES, 64);
    assert_eq!(state.step(UdpEvent::EngineReady), UdpAction::AcquirePermit);
    for length in [0, 12, 4097] {
        assert_eq!(state.step(UdpEvent::PermitGranted), UdpAction::Receive);
        assert_eq!(
            state.step(UdpEvent::DatagramReceived(length)),
            UdpAction::ServeAndAcquirePermit(length)
        );
    }
    let mut closed = state;
    assert_eq!(closed.step(UdpEvent::PermitsClosed), UdpAction::Stop);
    assert_eq!(state.step(UdpEvent::PermitGranted), UdpAction::Receive);
    assert_eq!(state.step(UdpEvent::ReceiveFailed), UdpAction::Stop);
    assert_eq!(state.step(UdpEvent::EngineReady), UdpAction::Stop);
}

#[test]
fn udp_answers_no_more_queries_than_there_are_permits() {
    let mut state = UdpState::new();
    let mut free = MAX_CONCURRENT_UDP_QUERIES;
    let mut answering = 0;
    let mut action = state.step(UdpEvent::EngineReady);
    // Take permits for as long as there are any.
    while action != UdpAction::Stop {
        match action {
            UdpAction::Receive => action = state.step(UdpEvent::DatagramReceived(12)),
            UdpAction::AcquirePermit | UdpAction::ServeAndAcquirePermit(_) => {
                if matches!(action, UdpAction::ServeAndAcquirePermit(_)) {
                    answering += 1;
                }
                if free == 0 {
                    break;
                }
                free -= 1;
                action = state.step(UdpEvent::PermitGranted);
            }
            UdpAction::Stop => unreachable!(),
        }
        assert!(answering <= 64);
    }
    assert_eq!(answering, 64);
    assert_eq!(state, UdpState::AwaitingPermit);
    // An answer that ends makes room for one more query.
    assert_eq!(state.step(UdpEvent::PermitGranted), UdpAction::Receive);
}

#[test]
fn udp_queries_are_the_bytes_received() {
    let mut buffer = receive_buffer(4);
    assert_eq!(buffer, [0; 5]);
    buffer[0] = 7;
    buffer[1] = 8;
    assert_eq!(received_query(&buffer, 0), Vec::<u8>::new());
    assert_eq!(received_query(&buffer, 2), [7, 8]);
    assert_eq!(received_query(&buffer, 5), [7, 8, 0, 0, 0]);
    assert_eq!(reply::<()>(Ok(vec![1, 2])), Some(vec![1, 2]));
    assert_eq!(reply(Err("failed")), None);
}

#[test]
fn tcp_listener_serves_one_connection_after_another() {
    let mut state = TcpListenerState::new();
    assert_eq!(state.step(TcpListenerEvent::EngineReady), TcpListenerAction::Accept);
    assert_eq!(state.step(TcpListenerEvent::Connected), TcpListenerAction::ServeAndAccept);
    assert_eq!(state.step(TcpListenerEvent::Connected), TcpListenerAction::ServeAndAccept);
    assert_eq!(state.step(TcpListenerEvent::AcceptFailed), TcpListenerAction::Stop);
    assert_eq!(state.step(TcpListenerEvent::Connected), TcpListenerAction::Stop);
}

#[test]
fn tcp_answers_only_the_query_that_was_announced() {
    for frame in [vec![0, 3, 1, 2], vec![0, 3, 1, 2, 3, 4], vec![0, 4, 1, 2, 3], vec![1, 3, 1, 2, 3], vec![]] {
        let mut state = TcpState::AwaitingBody(3);
        assert!(matches!(state.step(TcpEvent::BodyRead(frame), 512), TcpAction::Close));
        assert_eq!(state, TcpState::Closed);
    }
    let mut state = TcpState::AwaitingBody(3);
    assert!(matches!(
        state.step(TcpEvent::BodyRead(vec![0, 3, 1, 2, 3]), 512),
        TcpAction::Answer(frame) if frame == [0, 3, 1, 2, 3]
    ));
}

#[test]
fn mediated_answers_go_back_as_they_are() {
    assert_eq!(mediated_response(Ok(vec![1, 2, 3])), Ok(vec![1, 2, 3]));
    assert_eq!(mediated_response(Ok(vec![])), Ok(vec![]));
    assert_eq!(
        mediated_response(Err("no upstream".to_string())),
        Err("policy DNS response failed: no upstream".to_string())
    );
}

#[test]
fn tcp_connection_carries_sequential_queries() {
    let (mut state, first) = TcpState::open();
    assert!(matches!(first, TcpAction::ReadLength));
    for length in [3, 0, 512] {
        let mut query = match state.step(TcpEvent::LengthRead(length), 512) {
            TcpAction::ReadBody(frame) => frame,
            other => panic!("{other:?}"),
        };
        assert_eq!(query.len(), usize::from(length) + 2);
        assert_eq!(query[..2], length.to_be_bytes());
        assert!(query[2..].iter().all(|byte| *byte == 0));
        query[2..].fill(9);
        let sent = query.clone();
        assert!(matches!(
            state.step(TcpEvent::BodyRead(query), 512),
            TcpAction::Answer(frame) if frame == sent
        ));
        assert!(matches!(
            state.step(TcpEvent::Answered(vec![0, 1, 5]), 512),
            TcpAction::Send(message) if message == [0, 1, 5]
        ));
        assert!(matches!(state.step(TcpEvent::Sent, 512), TcpAction::ReadLength));
        assert_eq!(state, TcpState::AwaitingLength);
    }
}

#[test]
fn tcp_connection_closes_on_long_queries_and_failures() {
    let mut state = TcpState::AwaitingLength;
    assert!(matches!(state.step(TcpEvent::LengthRead(513), 512), TcpAction::Close));
    assert_eq!(state, TcpState::Closed);
    assert!(matches!(state.step(TcpEvent::LengthRead(1), 512), TcpAction::Close));
    for start in [
        TcpState::AwaitingLength,
        TcpState::AwaitingBody(3),
        TcpState::AwaitingAnswer,
        TcpState::AwaitingSent,
    ] {
        let mut state = start;
        assert!(matches!(state.step(TcpEvent::Failed, 512), TcpAction::Close));
        assert_eq!(state, TcpState::Closed);
    }
    assert_eq!(frame(0x0102)[..3], [1, 2, 0]);
}

#[test]
fn reports_name_what_they_are_about() {
    assert_eq!(
        mediated_ready_message(true),
        "Policy DNS connected to isolation boundary (IPv6 egress enabled)"
    );
    assert_eq!(
        mediated_ready_message(false),
        "Policy DNS connected to isolation boundary (IPv6 egress disabled)"
    );
    assert_eq!(listening_message("127.0.0.1:53"), "Policy DNS listening on 127.0.0.1:53");
    assert_eq!(
        response_failure_message("no upstream"),
        "policy DNS response failed: no upstream"
    );
}
