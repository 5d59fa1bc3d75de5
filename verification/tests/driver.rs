//! Scenarios of a commissioner session, run against a scripted border agent
//! on a clock that the test moves.

use meshcop::commissioner::coap::{
    CoapCode, CoapMessage, CoapType, CODE_CHANGED, CODE_CONTENT, CODE_POST,
};
use meshcop::commissioner::config::{CommissionerConfig, KeepAlive};
use meshcop::commissioner::dataset::Pskc;
use meshcop::commissioner::driver::machine::Driver;
use meshcop::commissioner::driver::parts::{Command, DriverAction, Effect, RelayOutput, Reply};
use meshcop::commissioner::error::Error;
use meshcop::commissioner::events::{Delivery, Events};
use meshcop::commissioner::exchange::{number_of, CoapRetransmitSchedule, COAP_MAX_RETRANSMIT};
use meshcop::commissioner::messages::{
    notification_to_event, relay_tx_request, DEFAULT_MM_PORT, TLV_COMMISSIONER_ID,
    TLV_COMMISSIONER_SESSION_ID, TLV_IPV6_ADDRESS, TLV_JOINER_DTLS_ENCAPSULATION, TLV_JOINER_IID,
    TLV_JOINER_ROUTER_LOCATOR, TLV_JOINER_UDP_PORT, TLV_STATE, TLV_UDP_ENCAPSULATION,
    URI_DATASET_CHANGED, URI_KEEP_ALIVE, URI_PETITION, URI_RELAY_RX, URI_RELAY_TX, URI_UDP_RX,
    URI_UDP_TX,
};
use meshcop::commissioner::requests::{
    direct, mesh_local_prefix_of, proxied, raw_response, PrefixCache,
};
use meshcop::commissioner::tlv::{TlvEntry, TlvSet};
use meshcop::commissioner::types::{CloseReason, CommissionerEvent, ResultCode, SessionStatus};

const SECOND: u128 = 1_000_000_000;
const MILLISECOND: u128 = 1_000_000;
const KEEPALIVE_INTERVAL: u128 = 30 * SECOND;
const SESSION_ID: u16 = 0x1234;
const URI_ACTIVE_GET: &str = "c/ag";
const DEVICE: [u8; 16] = [0xfd, 0, 0, 0, 0, 0, 0, 0, 0, 0, 0, 0, 0, 0, 0, 1];
const OTHER_DEVICE: [u8; 16] = [0xfd, 0, 0x0d, 0xb8, 0, 0, 0, 0, 0, 0, 0, 0, 0, 0, 0xbe, 0xef];

struct Session {
    driver: Driver,
    now: u128,
    random: u32,
    next_token: u32,
    next_id: u64,
    sent: Vec<CoapMessage>,
    events: Vec<CommissionerEvent>,
    replies: Vec<(u64, Reply)>,
    relayed: Vec<[u8; 8]>,
    relay_outputs: Vec<CoapMessage>,
    reopenings: usize,
    closings: usize,
    invalidations: usize,
    send_error: Option<&'static str>,
}

impl Session {
    fn start(keep_alive: KeepAlive) -> Self {
        let config = CommissionerConfig::builder("meshcop")
            .pskc(Pskc::new([0x11; 16]))
            .keepalive_interval(KEEPALIVE_INTERVAL)
            .keep_alive(keep_alive)
            .build()
            .unwrap();
        Session {
            driver: Driver::new(&config),
            now: 1_000 * SECOND,
            random: 0,
            next_token: 0xa0b0_c0d0,
            next_id: 0,
            sent: Vec::new(),
            events: Vec::new(),
            replies: Vec::new(),
            relayed: Vec::new(),
            relay_outputs: Vec::new(),
            reopenings: 0,
            closings: 0,
            invalidations: 0,
            send_error: None,
        }
    }

    /// A session that petitioned and keeps alive only when asked.
    fn petitioned() -> Self {
        let mut session = Session::start(KeepAlive::Manual);
        session.petition();
        session
    }

    fn petition(&mut self) {
        let id = self.command(|id| Command::Petition { id });
        self.answer_last(CODE_CHANGED, petition_accept());
        match self.reply(id) {
            Reply::Petition(Ok(response)) => assert_eq!(response.session_id, SESSION_ID),
            other => panic!("the petition failed: {other:?}"),
        }
    }

    fn command(&mut self, command: impl FnOnce(u64) -> Command) -> u64 {
        let id = self.next_id;
        self.next_id += 1;
        self.driver.command(command(id));
        self.run();
        id
    }

    fn get_active(&mut self) -> u64 {
        let message = CoapMessage::post_request(
            CoapType::Confirmable,
            0,
            Vec::new(),
            URI_ACTIVE_GET,
            Vec::new(),
        );
        self.command(|id| Command::Exchange {
            id,
            request: direct(message, true),
        })
    }

    fn run(&mut self) {
        loop {
            let action = self.driver.next(self.now);
            self.collect();
            match action {
                DriverAction::Rest => return,
                DriverAction::DrawToken => {
                    self.next_token = self.next_token.wrapping_mul(3).wrapping_add(1);
                    self.driver.token(self.next_token.to_be_bytes());
                }
                DriverAction::Send(message) => match self.send_error {
                    Some(text) => {
                        self.driver
                            .sent_with(Err(Error::Io(text.to_string())), self.now, self.random);
                    }
                    None => {
                        self.sent.push(message);
                        self.driver.sent_with(Ok(()), self.now, self.random);
                    }
                },
                DriverAction::Reopen => {
                    self.reopenings += 1;
                    self.driver.reopened(Ok(()));
                }
                DriverAction::Relay { joiner_iid, .. } => {
                    self.relayed.push(joiner_iid);
                    let outputs = self
                        .relay_outputs
                        .drain(..)
                        .map(RelayOutput::Send)
                        .collect();
                    self.driver.relayed(Ok(outputs));
                }
            }
            self.collect();
        }
    }

    fn collect(&mut self) {
        for effect in self.driver.take_effects() {
            match effect {
                Effect::Status(_) | Effect::ClearJoiners => {}
                Effect::Publish(event) => self.events.push(event),
                Effect::Report {
                    notification,
                    source,
                } => {
                    let peer = match source {
                        Some(address) => hex(&address),
                        None => "border agent".to_string(),
                    };
                    self.events.push(notification_to_event(notification, peer));
                }
                Effect::Reply { id, reply } => self.replies.push((id, reply)),
                Effect::CloseLink => self.closings += 1,
                Effect::InvalidatePrefix => self.invalidations += 1,
            }
        }
    }

    fn advance_to(&mut self, instant: u128) {
        while let Some(deadline) = self.driver.next_deadline() {
            if deadline > instant {
                break;
            }
            self.now = self.now.max(deadline);
            self.driver.timer();
            self.run();
        }
        self.now = instant;
    }

    fn advance(&mut self, wait: u128) {
        self.advance_to(self.now + wait);
    }

    fn deliver(&mut self, message: &CoapMessage) {
        self.driver.datagram(&message.encode().unwrap());
        self.run();
    }

    fn answer_last(&mut self, code: u8, payload: Vec<u8>) {
        let request = self.sent.last().unwrap().clone();
        self.deliver(&answer(&request, code, payload));
    }

    fn reply(&mut self, id: u64) -> Reply {
        let at = self
            .replies
            .iter()
            .position(|(of, _)| *of == id)
            .expect("no reply yet");
        self.replies.remove(at).1
    }

    fn is_open(&self, id: u64) -> bool {
        !self.replies.iter().any(|(of, _)| *of == id)
    }

    fn payload(&mut self, id: u64) -> Vec<u8> {
        match self.reply(id) {
            Reply::Exchange(outcome) => raw_response(outcome).unwrap().payload,
            other => panic!("not an exchange: {other:?}"),
        }
    }

    fn error(&mut self, id: u64) -> Error {
        match self.reply(id) {
            Reply::Exchange(Err(error))
            | Reply::Petition(Err(error))
            | Reply::KeepAlive(Err(error))
            | Reply::Resign(Err(error)) => error,
            other => panic!("it succeeded: {other:?}"),
        }
    }

    /// The paths of the requests, retransmissions left out.
    fn paths(&self) -> Vec<String> {
        let mut seen = Vec::new();
        let mut paths = Vec::new();
        for message in &self.sent {
            if message.code == CoapCode(CODE_POST) && !seen.contains(&message.message_id) {
                seen.push(message.message_id);
                paths.push(message.uri_path().unwrap().unwrap());
            }
        }
        paths
    }

    fn copies_of(&self, request: &CoapMessage) -> usize {
        self.sent
            .iter()
            .filter(|sent| sent.message_id == request.message_id)
            .count()
    }

    fn acknowledged(&self) -> Vec<u16> {
        self.sent
            .iter()
            .filter(|sent| sent.ty == CoapType::Acknowledgement)
            .map(|sent| sent.message_id)
            .collect()
    }

    fn proxied_replies(&self) -> Vec<(Vec<u8>, CoapMessage)> {
        self.sent
            .iter()
            .filter(|sent| sent.path_is(URI_UDP_TX).unwrap())
            .map(|sent| {
                (
                    tlv_value(sent, TLV_IPV6_ADDRESS).unwrap(),
                    proxied_inner(sent),
                )
            })
            .collect()
    }
}

fn hex(bytes: &[u8]) -> String {
    bytes.iter().map(|byte| format!("{byte:02x}")).collect()
}

fn tlv_value(message: &CoapMessage, ty: u8) -> Option<Vec<u8>> {
    let set = TlvSet::parse(&message.payload).unwrap();
    set.last_value(ty).map(|value| value.to_vec())
}

fn proxied_inner(message: &CoapMessage) -> CoapMessage {
    CoapMessage::decode(&tlv_value(message, TLV_UDP_ENCAPSULATION).unwrap()[4..]).unwrap()
}

fn petition_accept() -> Vec<u8> {
    vec![
        TLV_STATE,
        1,
        1,
        TLV_COMMISSIONER_SESSION_ID,
        2,
        (SESSION_ID >> 8) as u8,
        SESSION_ID as u8,
    ]
}

fn state(byte: u8) -> Vec<u8> {
    vec![TLV_STATE, 1, byte]
}

fn answer(request: &CoapMessage, code: u8, payload: Vec<u8>) -> CoapMessage {
    CoapMessage {
        ty: CoapType::Acknowledgement,
        code: CoapCode(code),
        message_id: request.message_id,
        token: request.token.clone(),
        options: Vec::new(),
        payload,
    }
}

/// `message` wrapped in UDP_RX, as sent by the Thread device `source`.
fn from_device(source: [u8; 16], message: &CoapMessage) -> CoapMessage {
    let mut encapsulated = DEFAULT_MM_PORT.to_be_bytes().to_vec();
    encapsulated.extend_from_slice(&DEFAULT_MM_PORT.to_be_bytes());
    encapsulated.extend_from_slice(&message.encode().unwrap());
    let mut payload = Vec::new();
    TlvEntry::new(TLV_IPV6_ADDRESS, &source)
        .encode(&mut payload)
        .unwrap();
    TlvEntry::new(TLV_UDP_ENCAPSULATION, &encapsulated)
        .encode(&mut payload)
        .unwrap();
    CoapMessage::post_request(
        CoapType::NonConfirmable,
        0x4040,
        Vec::new(),
        URI_UDP_RX,
        payload,
    )
}

fn dataset_changed(message_id: u16, confirmable: bool) -> CoapMessage {
    let ty = if confirmable {
        CoapType::Confirmable
    } else {
        CoapType::NonConfirmable
    };
    CoapMessage::post_request(ty, message_id, vec![0x55], URI_DATASET_CHANGED, Vec::new())
}

#[test]
fn automatic_keep_alives_run_without_the_application() {
    let mut session = Session::start(KeepAlive::Automatic);
    session.petition();
    let petitioned_at = session.now;
    for expected_at in [KEEPALIVE_INTERVAL, 2 * KEEPALIVE_INTERVAL] {
        session.advance_to(petitioned_at + expected_at - 1);
        let before = session.sent.len();
        session.advance_to(petitioned_at + expected_at);
        assert_eq!(session.sent.len(), before + 1);
        let keep_alive = session.sent.last().unwrap().clone();
        assert!(keep_alive.path_is(URI_KEEP_ALIVE).unwrap());
        assert_eq!(tlv_value(&keep_alive, TLV_STATE), Some(vec![0x01]));
        assert_eq!(
            tlv_value(&keep_alive, TLV_COMMISSIONER_SESSION_ID),
            Some(SESSION_ID.to_be_bytes().to_vec())
        );
        session.answer_last(CODE_CHANGED, state(1));
        assert_eq!(
            session.events,
            [CommissionerEvent::KeepAliveResponse(ResultCode::Accept)]
        );
        session.events.clear();
    }
    assert!(session.driver.status().is_active());
}

#[test]
fn manual_keep_alive_mode_never_sends_one_on_its_own() {
    let mut session = Session::petitioned();
    session.advance(4 * KEEPALIVE_INTERVAL);
    assert_eq!(session.sent.len(), 1);
    assert!(session.driver.status().is_active());
}

#[test]
fn a_keep_alive_is_sent_on_time_while_application_requests_are_stalled() {
    let mut session = Session::start(KeepAlive::Automatic);
    session.petition();
    let started = session.now;
    let requests: Vec<u64> = (0..4).map(|_| session.get_active()).collect();
    session.advance_to(started + KEEPALIVE_INTERVAL);
    session.answer_last(CODE_CHANGED, state(1));
    session.advance_to(started + 50 * SECOND);
    for id in requests {
        assert!(matches!(
            session.error(id),
            Error::Timeout("MeshCoP exchange timed out")
        ));
    }
    assert_eq!(
        session.paths(),
        [
            URI_PETITION,
            URI_ACTIVE_GET,
            URI_ACTIVE_GET,
            URI_ACTIVE_GET,
            URI_KEEP_ALIVE,
            URI_ACTIVE_GET,
        ]
    );
    assert!(session.driver.status().is_active());
}

#[test]
fn an_outstanding_keep_alive_does_not_hold_back_application_requests() {
    let mut session = Session::petitioned();
    let keep_alive = session.command(|id| Command::KeepAlive { id });
    assert_eq!(session.sent.len(), 2);
    let read = session.get_active();
    session.answer_last(CODE_CONTENT, b"prompt".to_vec());
    assert_eq!(session.payload(read), b"prompt");
    assert!(session.is_open(keep_alive));
}

#[test]
fn requests_from_clones_take_turns_and_each_gets_its_own_answer() {
    let mut session = Session::petitioned();
    let first = session.get_active();
    let second = session.get_active();
    assert_eq!(session.sent.len(), 2, "the second request waits its turn");
    session.answer_last(CODE_CONTENT, b"first".to_vec());
    assert_eq!(session.sent.len(), 3);
    session.answer_last(CODE_CONTENT, b"second".to_vec());
    assert_eq!(session.payload(first), b"first");
    assert_eq!(session.payload(second), b"second");
}

#[test]
fn a_rejected_keep_alive_ends_the_session_and_fails_outstanding_requests() {
    let mut session = Session::petitioned();
    let stalled = session.get_active();
    let keep_alive = session.command(|id| Command::KeepAlive { id });
    session.answer_last(CODE_CHANGED, state(0xff));
    assert!(matches!(
        session.reply(keep_alive),
        Reply::KeepAlive(Ok(ResultCode::Reject))
    ));
    assert!(matches!(
        session.error(stalled),
        Error::SessionLost(CloseReason::KeepAliveRejected)
    ));
    assert_eq!(
        session.driver.status(),
        SessionStatus::Closed {
            reason: CloseReason::KeepAliveRejected
        }
    );
    assert_eq!(
        session.events,
        [
            CommissionerEvent::KeepAliveResponse(ResultCode::Reject),
            CommissionerEvent::SessionLost {
                reason: CloseReason::KeepAliveRejected
            }
        ]
    );
    assert!(session.driver.is_closed());
    let late = session.get_active();
    assert!(matches!(session.error(late), Error::SessionClosed));
}

#[test]
fn an_unanswered_automatic_keep_alive_ends_the_session() {
    let mut session = Session::start(KeepAlive::Automatic);
    session.petition();
    session.advance(KEEPALIVE_INTERVAL + 12 * SECOND);
    let lost = CloseReason::KeepAliveFailed {
        error: "timeout: MeshCoP exchange timed out".to_string(),
    };
    assert_eq!(
        session.events,
        [CommissionerEvent::SessionLost {
            reason: lost.clone()
        }]
    );
    assert_eq!(
        session.driver.status(),
        SessionStatus::Closed { reason: lost }
    );
}

#[test]
fn an_unconfirmed_resignation_is_reported_and_still_ends_the_session() {
    let mut session = Session::petitioned();
    let resign = session.command(|id| Command::Resign { id });
    session.answer_last(CODE_CHANGED, state(0));
    assert!(matches!(
        session.error(resign),
        Error::InvalidState("resign response is pending")
    ));
    assert_eq!(
        session.driver.status(),
        SessionStatus::Closed {
            reason: CloseReason::Resigned
        }
    );
}

#[test]
fn dropping_every_handle_resigns_the_session() {
    let mut session = Session::petitioned();
    session.driver.handles_dropped();
    session.run();
    assert_eq!(session.paths(), [URI_PETITION, URI_KEEP_ALIVE]);
    assert_eq!(
        tlv_value(session.sent.last().unwrap(), TLV_STATE),
        Some(vec![0xff])
    );
    session.answer_last(CODE_CHANGED, state(0xff));
    assert!(session.driver.is_closed());
    assert_eq!(session.closings, 1);
}

#[test]
fn a_subscriber_that_falls_behind_is_told_how_many_events_it_missed() {
    let mut events = Events::new();
    assert_eq!(
        events.next(Delivery::Lagged(2)),
        Some(CommissionerEvent::Lagged { missed: 2 })
    );
    for code in [ResultCode::Pending, ResultCode::Reject] {
        assert_eq!(
            events.next(Delivery::Event(CommissionerEvent::KeepAliveResponse(code))),
            Some(CommissionerEvent::KeepAliveResponse(code))
        );
    }
}

#[test]
fn delivers_events_in_order_then_ends_when_the_sender_is_gone() {
    let mut events = Events::new();
    assert_eq!(
        events.next(Delivery::Event(CommissionerEvent::DatasetChanged)),
        Some(CommissionerEvent::DatasetChanged)
    );
    assert_eq!(
        events.next(Delivery::Event(CommissionerEvent::Lagged { missed: 7 })),
        Some(CommissionerEvent::Lagged { missed: 7 })
    );
    assert_eq!(events.next(Delivery::Closed), None);
    assert!(events.ended());
    assert_eq!(
        events.next(Delivery::Event(CommissionerEvent::DatasetChanged)),
        None
    );
}

#[test]
fn debug_output_reports_whether_the_stream_has_ended() {
    let mut events = Events::new();
    assert_eq!(events.debug_text(), "Events { ended: false }");
    events.next(Delivery::Event(CommissionerEvent::DatasetChanged));
    assert_eq!(events.debug_text(), "Events { ended: false }");
    assert_eq!(events.next(Delivery::Closed), None);
    assert_eq!(events.debug_text(), "Events { ended: true }");
}

#[test]
fn reports_missed_events_when_a_subscriber_falls_behind() {
    let mut events = Events::new();
    assert_eq!(
        events.next(Delivery::Lagged(1)),
        Some(CommissionerEvent::Lagged { missed: 1 })
    );
    for _ in 0..2 {
        assert_eq!(
            events.next(Delivery::Event(CommissionerEvent::DatasetChanged)),
            Some(CommissionerEvent::DatasetChanged)
        );
    }
}

fn peer_closed() -> Error {
    Error::Dtls(meshcop::dtls::error::Error::PeerClosed)
}

#[test]
fn a_connect_only_session_closed_by_the_peer_goes_idle_and_reopens_on_demand() {
    let mut session = Session::start(KeepAlive::Manual);
    let before = session.get_active();
    session.answer_last(CODE_CONTENT, b"before".to_vec());
    assert_eq!(session.payload(before), b"before");
    session.driver.receive_failed(peer_closed());
    session.run();
    assert_eq!(session.driver.status(), SessionStatus::Idle);

    let after = session.get_active();
    assert_eq!(session.reopenings, 1);
    session.answer_last(CODE_CONTENT, b"after".to_vec());
    assert_eq!(session.payload(after), b"after");
    assert_eq!(session.driver.status(), SessionStatus::Connected);
    // An expected close of an unpetitioned session is not a lost session.
    assert_eq!(session.events, []);
}

#[test]
fn a_peer_close_ends_an_active_session() {
    let mut session = Session::petitioned();
    session.driver.receive_failed(peer_closed());
    session.run();
    assert_eq!(
        session.events,
        [CommissionerEvent::SessionLost {
            reason: CloseReason::PeerClosed
        }]
    );
    assert_eq!(
        session.driver.status(),
        SessionStatus::Closed {
            reason: CloseReason::PeerClosed
        }
    );
}

#[test]
fn a_transport_failure_ends_the_session_and_fails_outstanding_requests() {
    let mut session = Session::petitioned();
    let read = session.get_active();
    session
        .driver
        .receive_failed(Error::Io("scripted transport failure".to_string()));
    session.run();
    let lost = CloseReason::TransportFailed {
        error: "I/O error: scripted transport failure".to_string(),
    };
    assert!(matches!(
        session.error(read),
        Error::SessionLost(reason) if reason == lost
    ));
    assert_eq!(
        session.events,
        [CommissionerEvent::SessionLost {
            reason: lost.clone()
        }]
    );
    assert_eq!(
        session.driver.status(),
        SessionStatus::Closed { reason: lost }
    );
}

#[test]
fn a_failed_send_ends_the_session() {
    let mut session = Session::petitioned();
    session.send_error = Some("scripted send failure");
    let read = session.get_active();
    assert!(matches!(session.error(read), Error::Io(_)));
    let lost = CloseReason::TransportFailed {
        error: "I/O error: scripted send failure".to_string(),
    };
    assert_eq!(
        session.events,
        [CommissionerEvent::SessionLost {
            reason: lost.clone()
        }]
    );
    assert_eq!(
        session.driver.status(),
        SessionStatus::Closed { reason: lost }
    );
}

#[test]
fn an_unanswered_confirmable_request_backs_off_between_retransmissions() {
    for random in [0, 500, 1_000] {
        let mut session = Session::petitioned();
        session.random = random;
        let started = session.now;
        let read = session.get_active();
        let request = session.sent.last().unwrap().clone();
        for (at_millis, expected) in
            [(1_900, 0), (3_100, 1), (5_900, 1), (9_100, 2), (11_900, 2)]
        {
            session.advance_to(started + at_millis * MILLISECOND);
            assert_eq!(
                session.copies_of(&request) - 1,
                expected,
                "at {at_millis} ms"
            );
        }
        session.advance_to(started + 12 * SECOND);
        assert!(matches!(
            session.error(read),
            Error::Timeout("MeshCoP exchange timed out")
        ));
    }
}

#[test]
fn a_request_that_fails_without_a_transport_error_fails_alone() {
    let mut session = Session::petitioned();
    // A token of nine bytes cannot be encoded; the driver reports it to the
    // caller alone.
    let id = session.next_id;
    session.next_id += 1;
    let message = CoapMessage::post_request(
        CoapType::Confirmable,
        0,
        Vec::new(),
        URI_ACTIVE_GET,
        Vec::new(),
    );
    session.driver.command(Command::Exchange {
        id,
        request: direct(message, true),
    });
    loop {
        match session.driver.next(session.now) {
            DriverAction::Rest => break,
            DriverAction::DrawToken => session.driver.token([1, 2, 3, 4]),
            DriverAction::Send(_) => session.driver.sent_with(
                Err(Error::InvalidState("scripted MeshCoP operation mismatch")),
                session.now,
                0,
            ),
            other => panic!("unexpected {other:?}"),
        }
    }
    session.collect();
    assert!(matches!(
        session.error(id),
        Error::InvalidState("scripted MeshCoP operation mismatch")
    ));
    assert!(session.driver.status().is_active());
    let after = session.get_active();
    session.answer_last(CODE_CONTENT, b"after".to_vec());
    assert_eq!(session.payload(after), b"after");
}

#[test]
fn connect_returns_a_petition_rejection_and_stops_the_session() {
    let mut session = Session::start(KeepAlive::Automatic);
    let id = session.command(|id| Command::Petition { id });
    let mut payload = vec![TLV_STATE, 1, 0xff];
    payload.extend_from_slice(&[TLV_COMMISSIONER_ID, 5]);
    payload.extend_from_slice(b"other");
    session.answer_last(CODE_CHANGED, payload);
    assert!(matches!(
        session.error(id),
        Error::PetitionRejected {
            existing_commissioner_id: Some(id)
        } if id == "other"
    ));
    assert!(!session.driver.status().is_active());
}

#[test]
fn a_retransmitted_response_is_acknowledged_again() {
    const RESPONSE_ID: u16 = 0x5001;
    let mut session = Session::start(KeepAlive::Manual);
    let read = session.get_active();
    let request = session.sent.last().unwrap().clone();
    let separate_response = CoapMessage {
        ty: CoapType::Confirmable,
        code: CoapCode(CODE_CONTENT),
        message_id: RESPONSE_ID,
        token: request.token.clone(),
        options: Vec::new(),
        payload: b"separate".to_vec(),
    };
    session.deliver(&separate_response);
    assert_eq!(session.payload(read), b"separate");
    // The first ACK was lost, so the border agent sends the response again.
    session.deliver(&separate_response);
    assert_eq!(session.acknowledged(), [RESPONSE_ID, RESPONSE_ID]);
}

#[test]
fn a_retransmitted_notification_is_acknowledged_again_but_published_once() {
    let mut session = Session::start(KeepAlive::Manual);
    let notification = dataset_changed(0x6001, true);
    session.deliver(&notification);
    session.deliver(&notification);
    assert_eq!(session.events, [CommissionerEvent::DatasetChanged]);
    assert_eq!(session.acknowledged(), [0x6001, 0x6001]);
    assert_eq!(session.invalidations, 1);
}

#[test]
fn a_retransmitted_device_report_is_answered_again_but_published_once() {
    let mut session = Session::start(KeepAlive::Manual);
    let report = dataset_changed(0x6002, true);
    session.deliver(&from_device(DEVICE, &report));
    session.deliver(&from_device(DEVICE, &report));
    assert_eq!(session.events, [CommissionerEvent::DatasetChanged]);
    let changed = CoapMessage::empty_changed_response(&report);
    assert_eq!(
        session.proxied_replies(),
        [
            (DEVICE.to_vec(), changed.clone()),
            (DEVICE.to_vec(), changed),
        ]
    );

    // Another device's message is a different message, whatever its ID.
    session.deliver(&from_device(OTHER_DEVICE, &report));
    assert_eq!(
        session.events,
        [
            CommissionerEvent::DatasetChanged,
            CommissionerEvent::DatasetChanged
        ]
    );
}

#[test]
fn a_message_id_is_new_again_after_the_exchange_lifetime() {
    let mut session = Session::start(KeepAlive::Manual);
    let notification = dataset_changed(0x6003, true);
    session.deliver(&notification);
    assert_eq!(session.events.len(), 1);
    session.advance(246 * SECOND);
    session.deliver(&notification);
    assert_eq!(session.acknowledged().len(), 2);
    assert_eq!(session.events.len(), 1);
    session.advance(SECOND);
    session.deliver(&notification);
    assert_eq!(session.events.len(), 2);
}

#[test]
fn only_the_most_recent_messages_are_remembered() {
    let mut session = Session::start(KeepAlive::Manual);
    for message_id in 1..=65 {
        session.deliver(&dataset_changed(message_id, true));
        assert_eq!(session.events.len(), message_id as usize);
    }
    // The second message is still remembered; the first was forgotten.
    session.deliver(&dataset_changed(2, true));
    assert_eq!(session.events.len(), 65);
    session.deliver(&dataset_changed(1, true));
    assert_eq!(session.events.len(), 66);
    assert_eq!(session.acknowledged().len(), 67);
}

#[test]
fn a_reopened_session_forgets_the_border_agents_message_ids() {
    let mut session = Session::start(KeepAlive::Manual);
    let notification = dataset_changed(0x6004, true);
    let before = session.get_active();
    session.answer_last(CODE_CONTENT, b"before".to_vec());
    session.payload(before);
    session.deliver(&notification);
    assert_eq!(session.events.len(), 1);
    session.driver.receive_failed(peer_closed());
    session.run();
    assert_eq!(session.driver.status(), SessionStatus::Idle);

    let after = session.get_active();
    session.answer_last(CODE_CONTENT, b"after".to_vec());
    session.payload(after);
    session.deliver(&notification);
    assert_eq!(session.events.len(), 2);
}

#[test]
fn a_proxied_answer_cannot_complete_an_exchange_with_the_border_agent() {
    let mut session = Session::petitioned();
    let keep_alive = session.command(|id| Command::KeepAlive { id });
    let request = session.sent.last().unwrap().clone();
    session.deliver(&from_device(
        DEVICE,
        &answer(&request, CODE_CHANGED, state(0xff)),
    ));
    assert!(session.is_open(keep_alive));
    session.deliver(&answer(&request, CODE_CHANGED, state(1)));
    assert!(matches!(
        session.reply(keep_alive),
        Reply::KeepAlive(Ok(ResultCode::Accept))
    ));
    assert!(session.driver.status().is_active());
}

fn diagnostics(session: &mut Session) -> u64 {
    let message =
        CoapMessage::post_request(CoapType::Confirmable, 0, Vec::new(), "d/dg", vec![18, 1, 0]);
    session.command(|id| Command::Exchange {
        id,
        request: proxied(message, DEVICE),
    })
}

#[test]
fn a_direct_answer_cannot_complete_a_proxied_exchange() {
    let mut session = Session::petitioned();
    let id = diagnostics(&mut session);
    let request = proxied_inner(session.sent.last().unwrap());
    session.deliver(&answer(&request, CODE_CONTENT, vec![1, 2, 0xde, 0xad]));
    assert!(session.is_open(id));
    session.deliver(&from_device(
        DEVICE,
        &answer(&request, CODE_CONTENT, vec![1, 2, 0x80, 0x00]),
    ));
    assert_eq!(session.payload(id), [1, 2, 0x80, 0x00]);
}

#[test]
fn only_an_empty_ack_stops_retransmission() {
    let mut session = Session::petitioned();
    let read = session.get_active();
    let request = session.sent.last().unwrap().clone();
    // An ACK that carries a token is not an empty ACK: the request is still
    // retransmitted after its timeout.
    let mut tokened_ack = CoapMessage::empty_ack(request.message_id);
    tokened_ack.token = request.token.clone();
    session.deliver(&tokened_ack);
    session.advance(4 * SECOND);
    assert_eq!(session.copies_of(&request) - 1, 1);

    // A real empty ACK stops the retransmission due by 9 seconds.
    session.deliver(&CoapMessage::empty_ack(request.message_id));
    session.advance(7 * SECOND);
    assert_eq!(session.copies_of(&request) - 1, 1);

    session.deliver(&answer(&request, CODE_CONTENT, b"separate".to_vec()));
    assert_eq!(session.payload(read), b"separate");
}

#[test]
fn a_reserved_code_class_does_not_answer_a_request() {
    let mut session = Session::petitioned();
    let read = session.get_active();
    let request = session.sent.last().unwrap().clone();
    session.deliver(&answer(&request, 3 << 5, b"reserved".to_vec()));
    assert!(session.is_open(read));
    session.deliver(&answer(&request, CODE_CONTENT, b"content".to_vec()));
    assert_eq!(session.payload(read), b"content");
}

#[test]
fn concurrent_exchanges_are_matched_by_unpredictable_tokens() {
    let mut session = Session::petitioned();
    let keep_alive = session.command(|id| Command::KeepAlive { id });
    let read = session.get_active();
    let keep_alive_request = session.sent[1].clone();
    let read_request = session.sent[2].clone();
    for request in [&keep_alive_request, &read_request] {
        assert_eq!(request.token.len(), 4);
        assert_ne!(request.token, request.message_id.to_be_bytes());
    }
    assert_ne!(keep_alive_request.token, read_request.token);

    // Answered in the opposite order to the requests.
    session.deliver(&answer(&read_request, CODE_CONTENT, b"read".to_vec()));
    session.deliver(&answer(&keep_alive_request, CODE_CHANGED, state(1)));
    assert_eq!(session.payload(read), b"read");
    assert!(matches!(
        session.reply(keep_alive),
        Reply::KeepAlive(Ok(ResultCode::Accept))
    ));
}

#[test]
fn a_token_in_use_is_drawn_again() {
    let mut session = Session::petitioned();
    let keep_alive = session.command(|id| Command::KeepAlive { id });
    let used = session.sent.last().unwrap().token.clone();
    let message = CoapMessage::post_request(
        CoapType::Confirmable,
        0,
        Vec::new(),
        URI_ACTIVE_GET,
        Vec::new(),
    );
    session.driver.command(Command::Exchange {
        id: 99,
        request: direct(message, true),
    });
    assert!(matches!(
        session.driver.next(session.now),
        DriverAction::DrawToken
    ));
    session
        .driver
        .token([used[0], used[1], used[2], used[3]]);
    assert!(matches!(
        session.driver.next(session.now),
        DriverAction::DrawToken
    ));
    session.driver.token([9, 9, 9, 9]);
    match session.driver.next(session.now) {
        DriverAction::Send(message) => assert_eq!(message.token, [9, 9, 9, 9]),
        other => panic!("expected the request, got {other:?}"),
    }
    assert!(session.is_open(keep_alive));
}

#[test]
fn a_request_dropped_while_queued_is_never_sent() {
    let mut session = Session::petitioned();
    let holding_the_slot = session.get_active();
    let waiting = session.get_active();
    let abandoned = session.get_active();
    session.advance(SECOND);
    session.driver.command(Command::Withdraw { id: abandoned });
    session.run();
    session.advance(11 * SECOND);
    assert!(matches!(
        session.error(holding_the_slot),
        Error::Timeout(_)
    ));
    session.answer_last(CODE_CONTENT, b"waited".to_vec());
    assert_eq!(session.payload(waiting), b"waited");
    session.advance(20 * SECOND);
    assert_eq!(
        session.paths(),
        [URI_PETITION, URI_ACTIVE_GET, URI_ACTIVE_GET]
    );
}

#[test]
fn a_request_dropped_in_flight_frees_its_slot_and_is_not_retransmitted() {
    let mut session = Session::petitioned();
    let abandoned = session.get_active();
    session.advance(SECOND);
    session.driver.command(Command::Withdraw { id: abandoned });
    session.run();
    let next = session.get_active();
    session.answer_last(CODE_CONTENT, b"next".to_vec());
    assert_eq!(session.payload(next), b"next");
    session.advance(20 * SECOND);
    assert_eq!(session.sent.len(), 3);
}

#[test]
fn only_one_keep_alive_is_outstanding_at_a_time() {
    let mut session = Session::petitioned();
    let outstanding = session.command(|id| Command::KeepAlive { id });
    assert_eq!(session.sent.len(), 2);
    let refused = session.command(|id| Command::KeepAlive { id });
    assert!(matches!(
        session.error(refused),
        Error::InvalidState("a keep-alive is already outstanding")
    ));
    assert_eq!(session.sent.len(), 2);
    assert!(session.is_open(outstanding));
}

#[test]
fn a_resigning_session_refuses_new_work() {
    let mut session = Session::petitioned();
    session.command(|id| Command::Resign { id });
    assert_eq!(session.sent.len(), 2);
    let read = session.get_active();
    let keep_alive = session.command(|id| Command::KeepAlive { id });
    let resign = session.command(|id| Command::Resign { id });
    for id in [read, keep_alive, resign] {
        assert!(matches!(
            session.error(id),
            Error::InvalidState("commissioner is resigning")
        ));
    }
    assert_eq!(session.sent.len(), 2);
}

#[test]
fn dropping_every_handle_during_a_resignation_does_not_resign_twice() {
    let mut session = Session::petitioned();
    session.command(|id| Command::Resign { id });
    session.driver.handles_dropped();
    session.run();
    session.advance(20 * SECOND);
    assert_eq!(session.paths(), [URI_PETITION, URI_KEEP_ALIVE]);
}

#[test]
fn a_send_failure_fails_queued_requests_with_the_session() {
    let mut session = Session::petitioned();
    let in_flight = session.get_active();
    let next = session.get_active();
    let after_next = session.get_active();
    session.advance(10 * SECOND);
    session.send_error = Some("scripted send failure");
    session.advance(2 * SECOND);
    assert!(matches!(session.error(in_flight), Error::Timeout(_)));
    assert!(matches!(session.error(next), Error::Io(_)));
    let lost = CloseReason::TransportFailed {
        error: "I/O error: scripted send failure".to_string(),
    };
    assert!(matches!(
        session.error(after_next),
        Error::SessionLost(reason) if reason == lost
    ));
}

#[test]
fn status_keeps_why_a_finished_session_ended() {
    let mut session = Session::petitioned();
    let resign = session.command(|id| Command::Resign { id });
    session.answer_last(CODE_CHANGED, state(1));
    assert!(matches!(session.reply(resign), Reply::Resign(Ok(()))));
    assert_eq!(
        session.driver.status().observed(true),
        SessionStatus::Closed {
            reason: CloseReason::Resigned
        }
    );
}

#[test]
fn proxied_retry_preserves_inner_identity_and_refreshes_outer_identity() {
    let mut session = Session::petitioned();
    let id = diagnostics(&mut session);
    session.advance(3 * SECOND);
    let wires: Vec<CoapMessage> = session.sent[1..].to_vec();
    let [first, second] = wires.as_slice() else {
        panic!("expected the request and its retransmission");
    };
    assert_eq!(first.ty, CoapType::NonConfirmable);
    assert_eq!(second.ty, CoapType::NonConfirmable);
    assert_ne!(first.message_id, second.message_id);
    assert_ne!(first.token, second.token);
    assert_eq!(proxied_inner(first), proxied_inner(second));
    let request = proxied_inner(first);
    session.deliver(&from_device(
        DEVICE,
        &answer(&request, CODE_CHANGED, Vec::new()),
    ));
    assert_eq!(session.payload(id), []);
}

#[test]
fn meshcop_exchange_timeout_is_absolute() {
    let mut session = Session::petitioned();
    let started = session.now;
    let read = session.get_active();
    session.advance_to(started + 12 * SECOND - 1);
    assert!(session.is_open(read));
    session.advance_to(started + 12 * SECOND);
    assert!(matches!(
        session.error(read),
        Error::Timeout("MeshCoP exchange timed out")
    ));
}

fn relay_rx(joiner_iid: &[u8; 8], encapsulated: &[u8]) -> CoapMessage {
    let mut payload = Vec::new();
    payload.extend_from_slice(&[TLV_JOINER_UDP_PORT, 2]);
    payload.extend_from_slice(&1000u16.to_be_bytes());
    payload.extend_from_slice(&[TLV_JOINER_ROUTER_LOCATOR, 2]);
    payload.extend_from_slice(&0x6800u16.to_be_bytes());
    payload.extend_from_slice(&[TLV_JOINER_IID, 8]);
    payload.extend_from_slice(joiner_iid);
    TlvEntry::new(TLV_JOINER_DTLS_ENCAPSULATION, encapsulated)
        .encode(&mut payload)
        .unwrap();
    CoapMessage::post_request(
        CoapType::NonConfirmable,
        0x5050,
        Vec::new(),
        URI_RELAY_RX,
        payload,
    )
}

#[test]
fn commissioner_ignores_disabled_joiners_and_keeps_legacy_events() {
    let joiner_iid = [0x11, 0x22, 0x33, 0x44, 0x55, 0x66, 0x77, 0x88];
    // A handler that has nothing to say sends nothing and publishes nothing.
    let mut session = Session::petitioned();
    session
        .driver
        .command(Command::SetJoinerHandler { installed: true });
    session.run();
    session.deliver(&relay_rx(&joiner_iid, b"hello"));
    assert_eq!(session.relayed, [joiner_iid]);
    assert_eq!(session.sent.len(), 1);
    assert_eq!(session.events, []);

    // Without any handler, the raw relay payload surfaces as an event.
    let mut session = Session::petitioned();
    session.deliver(&relay_rx(&joiner_iid, b"hello"));
    assert!(session.relayed.is_empty());
    assert_eq!(
        session.events,
        [CommissionerEvent::JoinerMessage {
            joiner_id: joiner_iid.to_vec(),
            port: 1000,
            payload: b"hello".to_vec(),
        }]
    );
}

#[test]
fn what_a_joiner_is_answered_goes_out_as_relay_messages() {
    let joiner_iid = [0x11, 0x22, 0x33, 0x44, 0x55, 0x66, 0x77, 0x88];
    let mut session = Session::petitioned();
    session
        .driver
        .command(Command::SetJoinerHandler { installed: true });
    session.run();
    session
        .relay_outputs
        .push(relay_tx_request(&joiner_iid, 1000, 0x6800, b"answer", None).unwrap());
    session.deliver(&relay_rx(&joiner_iid, b"hello"));
    let relayed = session.sent.last().unwrap();
    assert!(relayed.path_is(URI_RELAY_TX).unwrap());
    assert_eq!(
        tlv_value(relayed, TLV_JOINER_DTLS_ENCAPSULATION).unwrap(),
        b"answer"
    );
}

#[test]
fn an_undecodable_datagram_is_dropped() {
    let mut session = Session::petitioned();
    session.driver.datagram(&[0xff]);
    session.run();
    assert!(session.driver.status().is_active());
    assert_eq!(session.sent.len(), 1);
}

#[test]
fn a_dataset_change_during_a_prefix_fetch_leaves_the_cache_empty() {
    let mut cache = PrefixCache::new();
    assert_eq!(cache.cached_mesh_local_prefix(), None);
    let generation = cache.generation();
    let prefix = mesh_local_prefix_of(&[7, 8, 0xfd, 2, 3, 4, 5, 6, 7, 8]).unwrap();
    cache.invalidate();
    cache.store(generation, prefix);
    assert_eq!(cache.cached_mesh_local_prefix(), None);

    let generation = cache.generation();
    cache.store(generation, prefix);
    assert_eq!(cache.cached_mesh_local_prefix(), Some(prefix));

    cache.set_cached_mesh_local_prefix(None);
    assert_eq!(cache.cached_mesh_local_prefix(), None);
    cache.set_cached_mesh_local_prefix(Some([0xfd, 1, 1, 1, 1, 1, 1, 1]));
    assert_eq!(
        cache.cached_mesh_local_prefix(),
        Some([0xfd, 1, 1, 1, 1, 1, 1, 1])
    );
}

#[test]
fn exchange_randomized_coap_timeout_spans_the_inclusive_two_to_three_second_window() {
    let minimum = CoapRetransmitSchedule::randomized(0);
    let maximum = CoapRetransmitSchedule::randomized(1_000);
    assert_eq!(minimum.timeout(), Some(2 * SECOND));
    assert_eq!(maximum.timeout(), Some(3 * SECOND));
}

#[test]
fn transport_randomized_coap_timeout_spans_the_inclusive_two_to_three_second_window() {
    let lower = CoapRetransmitSchedule::randomized(0);
    let upper = CoapRetransmitSchedule::randomized(1_000);
    assert_eq!(lower.timeout(), Some(2 * SECOND));
    assert_eq!(upper.timeout(), Some(3 * SECOND));
    assert_eq!(
        CoapRetransmitSchedule::randomized(1_001).timeout(),
        Some(2 * SECOND)
    );
}

#[test]
fn exchange_coap_retransmit_schedule_doubles_and_stops_at_the_exchange_limit() {
    let mut schedule = CoapRetransmitSchedule::new(2 * SECOND);
    schedule.record_retransmission();
    assert_eq!(schedule.timeout(), Some(4 * SECOND));
    schedule.record_retransmission();
    assert_eq!(schedule.timeout(), None);
}

#[test]
fn transport_coap_retransmit_schedule_doubles_and_stops_at_the_exchange_limit() {
    let mut schedule = CoapRetransmitSchedule::new(2 * SECOND);
    for expected in [2, 4] {
        assert_eq!(schedule.timeout(), Some(expected * SECOND));
        schedule.record_retransmission();
    }
    assert_eq!(schedule.timeout(), None);
    assert_eq!(schedule.retransmissions, COAP_MAX_RETRANSMIT);
}

#[test]
fn only_non_empty_non_request_codes_are_responses() {
    let request = CoapMessage::post_request(
        CoapType::Confirmable,
        1,
        vec![0, 1],
        URI_KEEP_ALIVE,
        Vec::new(),
    );
    assert!(!request.is_response());
    assert!(!CoapMessage::empty_ack(1).is_response());
    assert!(CoapMessage::empty_changed_response(&request).is_response());
}

#[test]
fn a_driver_draws_its_own_tokens() {
    let mut session = Session::start(KeepAlive::Manual);
    session.driver.command(Command::Petition { id: 1 });
    assert!(matches!(
        session.driver.next(session.now),
        DriverAction::DrawToken
    ));
    assert!(session.driver.draw_token());
    match session.driver.next(session.now) {
        DriverAction::Send(message) => assert_eq!(message.token.len(), 4),
        other => panic!("expected the petition, got {other:?}"),
    }
    assert!(session.driver.sent(Ok(()), session.now));
    assert!(matches!(
        session.driver.next(session.now),
        DriverAction::Rest
    ));
    let deadline = session.driver.next_deadline().unwrap();
    assert!(session.now + 2 * SECOND <= deadline && deadline <= session.now + 3 * SECOND);
}

#[test]
fn a_driver_that_waits_for_no_token_draws_none() {
    let mut session = Session::start(KeepAlive::Manual);
    assert!(session.driver.draw_token());
    assert!(matches!(
        session.driver.next(session.now),
        DriverAction::Rest
    ));
    assert!(session.driver.take_effects().is_empty());
}

#[test]
fn a_failed_sending_needs_no_random_number() {
    let mut session = Session::start(KeepAlive::Manual);
    session.driver.command(Command::Petition { id: 1 });
    assert!(matches!(
        session.driver.next(session.now),
        DriverAction::DrawToken
    ));
    session.driver.token([1, 2, 3, 4]);
    assert!(matches!(
        session.driver.next(session.now),
        DriverAction::Send(_)
    ));
    assert!(session
        .driver
        .sent(Err(Error::InvalidState("refused")), session.now));
    assert!(matches!(
        session.driver.next(session.now),
        DriverAction::Rest
    ));
    assert!(session.driver.take_effects().iter().any(|effect| matches!(
        effect,
        Effect::Reply {
            id: 1,
            reply: Reply::Petition(Err(Error::InvalidState("refused")))
        }
    )));
}

#[test]
fn four_bytes_stand_for_a_number_lowest_first() {
    assert_eq!(number_of([0x78, 0x56, 0x34, 0x12]), 0x1234_5678);
    assert_eq!(number_of([0xff; 4]), u32::MAX);
}
