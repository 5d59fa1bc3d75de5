//! Whole handshakes between the two ends, with a stand-in for the key
//! agreement: the keys follow from one byte, which both ends have to share.

use meshcop::dtls::client::{
    HelloVerifyAction, HelloVerifyWait, ServerFinishedAction, ServerFinishedWait,
    ServerFlightAction, ServerFlightWait,
};
use meshcop::dtls::error::Error;
use meshcop::dtls::handshake::{
    hello_verify_record, parse_unfragmented_handshake_record, ClientHello, HandshakeMessage,
    HandshakeType,
};
use meshcop::dtls::loopback::{LoopbackAction, LoopbackServer};
use meshcop::dtls::protection::{
    protect_aes_128_ccm_8_record, RecordProtectionKey, ThreadDtlsKeyMaterial,
    Tls12Aes128Ccm8KeyBlock,
};
use meshcop::dtls::record::{ContentType, DtlsRecord};
use meshcop::dtls::retransmit::{DuplicateRetransmitBudget, LoopbackEnd, SECOND};
use meshcop::dtls::server::{
    answer_sequences, ClientFlightAction, ClientFlightWait, HelloAction, HelloWait, ServerSession,
};
use meshcop::dtls::session::{SessionRole, SessionState, ALERT_CLOSE_NOTIFY};

const COOKIE: [u8; 3] = [0xc0, 0x0c, 0x1e];

fn key_material(secret: u8) -> ThreadDtlsKeyMaterial {
    ThreadDtlsKeyMaterial {
        master_secret: [secret; 48],
        key_block: Tls12Aes128Ccm8KeyBlock {
            client_write_key: [secret ^ 0x21; 16],
            server_write_key: [secret ^ 0x32; 16],
            client_write_iv: [0x43; 4],
            server_write_iv: [0x54; 4],
        },
    }
}

fn client_hello(message_seq: u16, cookie: &[u8]) -> DtlsRecord {
    let mut payload = vec![0xfe, 0xfd];
    payload.extend_from_slice(&[0x5a; 32]);
    payload.push(0);
    payload.push(cookie.len() as u8);
    payload.extend_from_slice(cookie);
    payload.extend_from_slice(&[0, 2, 0xc0, 0xff, 1, 0]);
    let message = HandshakeMessage {
        message_type: HandshakeType::ClientHello,
        message_seq,
        payload,
    };
    DtlsRecord::new(ContentType::Handshake, 0, 0, message.encode().unwrap()).unwrap()
}

fn cookie_in(record: &DtlsRecord) -> Vec<u8> {
    let message =
        parse_unfragmented_handshake_record(record, HandshakeType::HelloVerifyRequest).unwrap();
    message.payload[3..3 + message.payload[2] as usize].to_vec()
}

fn encoded(records: &[DtlsRecord]) -> Vec<u8> {
    DtlsRecord::encode_datagram(records).unwrap()
}

fn message(message_type: HandshakeType, message_seq: u16, payload: &[u8]) -> HandshakeMessage {
    HandshakeMessage {
        message_type,
        message_seq,
        payload: payload.to_vec(),
    }
}

fn server_answer(hello_seq: u16) -> Vec<HandshakeMessage> {
    vec![
        message(HandshakeType::ServerHello, hello_seq, &[1]),
        message(HandshakeType::ServerKeyExchange, hello_seq + 1, &[2]),
        message(HandshakeType::ServerHelloDone, hello_seq + 2, &[]),
    ]
}

enum ClientPhase {
    Verify(HelloVerifyWait),
    Flight(ServerFlightWait),
    Finished(ServerFinishedWait),
    Up(SessionState),
    Failed(Error),
}

struct Client {
    secret: u8,
    hello_seq: u16,
    phase: Option<ClientPhase>,
}

impl Client {
    fn start(secret: u8) -> (Self, Vec<u8>) {
        let wait = HelloVerifyWait::start(client_hello(0, &[]));
        let datagram = encoded(wait.flight());
        let client = Client {
            secret,
            hello_seq: 0,
            phase: Some(ClientPhase::Verify(wait)),
        };
        (client, datagram)
    }

    fn receive(&mut self, datagram: &[u8]) -> Vec<Vec<u8>> {
        let mut out = Vec::new();
        let Some(records) = DtlsRecord::accept_datagram(datagram, datagram.len(), true) else {
            return out;
        };
        match self.phase.as_mut().unwrap() {
            ClientPhase::Verify(wait) => wait.on_datagram(records),
            ClientPhase::Flight(wait) => wait.on_datagram(records),
            ClientPhase::Finished(wait) => {
                if wait.on_datagram(records).unwrap() {
                    out.push(encoded(wait.flight()));
                }
            }
            ClientPhase::Up(_) | ClientPhase::Failed(_) => return out,
        }
        self.run(&mut out);
        out
    }

    fn timeout(&mut self) -> Option<Vec<u8>> {
        match self.phase.as_mut().unwrap() {
            ClientPhase::Verify(wait) => {
                wait.on_timeout();
                Some(encoded(wait.flight()))
            }
            ClientPhase::Flight(wait) => {
                wait.on_timeout();
                Some(encoded(wait.flight()))
            }
            ClientPhase::Finished(wait) => {
                wait.on_timeout().unwrap();
                Some(encoded(wait.flight()))
            }
            ClientPhase::Up(_) | ClientPhase::Failed(_) => None,
        }
    }

    fn run(&mut self, out: &mut Vec<Vec<u8>>) {
        loop {
            let (phase, go_on) = match self.phase.take().unwrap() {
                ClientPhase::Verify(mut wait) => match wait.next() {
                    HelloVerifyAction::Receive => (ClientPhase::Verify(wait), false),
                    HelloVerifyAction::TakeCookie(record) => {
                        self.hello_seq += 1;
                        let hello = client_hello(self.hello_seq, &cookie_in(&record));
                        let wait = wait.second_hello(hello).unwrap();
                        out.push(encoded(wait.flight()));
                        (ClientPhase::Flight(wait), true)
                    }
                    HelloVerifyAction::Fail(error) => (ClientPhase::Failed(error), false),
                },
                ClientPhase::Flight(mut wait) => match wait.next() {
                    ServerFlightAction::Receive => (ClientPhase::Flight(wait), false),
                    ServerFlightAction::ServerHello(_, taken)
                    | ServerFlightAction::KeyExchange(taken) => {
                        wait.taken(taken);
                        (ClientPhase::Flight(wait), true)
                    }
                    ServerFlightAction::HelloDone(taken) => {
                        wait.taken(taken);
                        let seq = self.hello_seq + 1;
                        let wait = wait
                            .finish(
                                key_material(self.secret),
                                message(HandshakeType::ClientKeyExchange, seq, &[3]),
                                message(HandshakeType::Finished, seq + 1, &[self.secret, 1]),
                            )
                            .unwrap();
                        out.push(encoded(wait.flight()));
                        (ClientPhase::Finished(wait), true)
                    }
                    ServerFlightAction::HelloVerify(record) => {
                        self.hello_seq += 1;
                        wait.cookie_replaced(client_hello(self.hello_seq, &cookie_in(&record)))
                            .unwrap();
                        out.push(encoded(wait.flight()));
                        (ClientPhase::Flight(wait), true)
                    }
                    ServerFlightAction::Fail(error) => (ClientPhase::Failed(error), false),
                },
                ClientPhase::Finished(mut wait) => match wait.next() {
                    ServerFinishedAction::Receive => (ClientPhase::Finished(wait), false),
                    ServerFinishedAction::Verify(finished) => {
                        assert_eq!(finished.payload, vec![self.secret, 2]);
                        (ClientPhase::Up(wait.established()), false)
                    }
                    ServerFinishedAction::Fail(error) => (ClientPhase::Failed(error), false),
                },
                other => (other, false),
            };
            self.phase = Some(phase);
            if !go_on {
                return;
            }
        }
    }

    fn session(&mut self) -> &mut SessionState {
        match self.phase.as_mut().unwrap() {
            ClientPhase::Up(session) => session,
            ClientPhase::Failed(error) => panic!("the handshake failed: {error:?}"),
            _ => panic!("the handshake did not complete"),
        }
    }

    fn error(&self) -> String {
        match self.phase.as_ref().unwrap() {
            ClientPhase::Failed(error) => error.message(),
            _ => panic!("the handshake did not fail"),
        }
    }
}

enum ServerPhase {
    Hello,
    Flight(ClientFlightWait),
    Up(ServerSession),
    Failed(Error),
}

struct Server {
    secret: u8,
    phase: Option<ServerPhase>,
    budget: DuplicateRetransmitBudget,
    received: Vec<Vec<u8>>,
}

impl Server {
    fn new(secret: u8) -> Self {
        Server {
            secret,
            phase: Some(ServerPhase::Hello),
            budget: DuplicateRetransmitBudget::new(),
            received: Vec::new(),
        }
    }

    fn receive(&mut self, datagram: &[u8]) -> Vec<Vec<u8>> {
        let mut out = Vec::new();
        let Some(records) = DtlsRecord::accept_datagram(datagram, datagram.len(), true) else {
            return out;
        };
        let phase = match self.phase.take().unwrap() {
            ServerPhase::Hello => self.hello(records, &mut out),
            ServerPhase::Flight(mut wait) => {
                if wait.on_datagram(records) {
                    out.push(encoded(wait.flight()));
                }
                self.flight(wait, &mut out)
            }
            ServerPhase::Up(mut session) => {
                match session.retry(&records, &mut self.budget).unwrap() {
                    Some(flight) => {
                        out.push(encoded(&flight));
                        ServerPhase::Up(session)
                    }
                    None => match session.receive(&records) {
                        None => ServerPhase::Up(session),
                        Some(Ok(data)) => {
                            self.received.push(data);
                            ServerPhase::Up(session)
                        }
                        Some(Err(error)) => ServerPhase::Failed(error),
                    },
                }
            }
            failed => failed,
        };
        self.phase = Some(phase);
        out
    }

    fn hello(&mut self, records: Vec<DtlsRecord>, out: &mut Vec<Vec<u8>>) -> ServerPhase {
        let mut wait = HelloWait::new(records);
        loop {
            match wait.next() {
                HelloAction::Receive => return ServerPhase::Hello,
                HelloAction::CheckCookie {
                    message,
                    record_sequence,
                    hello,
                } => {
                    if hello.cookie == COOKIE {
                        let answer = server_answer(message.message_seq);
                        let wait =
                            ClientFlightWait::start(message, record_sequence, &answer).unwrap();
                        out.push(encoded(wait.flight()));
                        return self.flight(wait, out);
                    }
                    let verify =
                        hello_verify_record(message.message_seq, record_sequence, COOKIE.to_vec())
                            .unwrap();
                    out.push(encoded(&[verify]));
                }
            }
        }
    }

    fn flight(&mut self, mut wait: ClientFlightWait, out: &mut Vec<Vec<u8>>) -> ServerPhase {
        loop {
            match wait.next() {
                ClientFlightAction::Receive => return ServerPhase::Flight(wait),
                ClientFlightAction::KeyExchange(taken) => {
                    wait.key_exchange_taken(taken, key_material(self.secret));
                }
                ClientFlightAction::Verify(finished) => {
                    assert_eq!(finished.payload, vec![self.secret, 1]);
                    let answer = message(
                        HandshakeType::Finished,
                        finished.message_seq,
                        &[self.secret, 2],
                    );
                    let (session, flight) = wait.established(answer).unwrap();
                    out.push(encoded(&flight));
                    return ServerPhase::Up(session);
                }
                ClientFlightAction::Reject(error) => {
                    out.push(encoded(&[wait.fatal_alert().unwrap()]));
                    return ServerPhase::Failed(error);
                }
                ClientFlightAction::Fail(error) => return ServerPhase::Failed(error),
            }
        }
    }

    fn timeout(&mut self) -> Option<Vec<u8>> {
        match self.phase.as_mut().unwrap() {
            ServerPhase::Flight(wait) => {
                wait.on_timeout();
                Some(encoded(wait.flight()))
            }
            _ => None,
        }
    }

    fn session(&mut self) -> &mut ServerSession {
        match self.phase.as_mut().unwrap() {
            ServerPhase::Up(session) => session,
            ServerPhase::Failed(error) => panic!("the handshake failed: {error:?}"),
            _ => panic!("the handshake did not complete"),
        }
    }

    fn error(&self) -> String {
        match self.phase.as_ref().unwrap() {
            ServerPhase::Failed(error) => error.message(),
            _ => panic!("the handshake did not fail"),
        }
    }
}

#[derive(Debug, Clone, Copy, PartialEq, Eq)]
enum FlightDirection {
    ClientToServer,
    ServerToClient,
}

#[derive(Debug, Clone, Copy, PartialEq, Eq)]
enum FlightFault {
    Drop,
    ForwardFirstRecord,
}

fn handshake_flight_fingerprint(datagram: &[u8]) -> Vec<(u16, ContentType, Vec<u8>)> {
    DtlsRecord::parse_datagram(datagram)
        .unwrap()
        .into_iter()
        .map(|record| {
            let payload = if record.header.epoch == 0 {
                record.payload
            } else {
                Vec::new()
            };
            (record.header.epoch, record.header.content_type, payload)
        })
        .collect()
}

fn record_sequences_are_fresh(previous: &[u8], retransmission: &[u8]) -> bool {
    let previous = DtlsRecord::parse_datagram(previous).unwrap();
    let retransmission = DtlsRecord::parse_datagram(retransmission).unwrap();
    previous.len() == retransmission.len()
        && previous.iter().zip(&retransmission).all(|(before, after)| {
            before.header.epoch == after.header.epoch
                && before.header.content_type == after.header.content_type
                && before.header.sequence_number != after.header.sequence_number
        })
}

fn run_flight_fault_case(direction: FlightDirection, ordinal: usize, fault: FlightFault) {
    let (mut client, first) = Client::start(0x42);
    let mut server = Server::new(0x42);
    let mut wire = std::collections::VecDeque::new();
    wire.push_back((FlightDirection::ClientToServer, first));
    let mut seen = [0usize; 2];
    let mut dropped: Option<Vec<u8>> = None;
    let mut saw_fresh_semantic_retry = false;

    for _ in 0..40 {
        while let Some((way, datagram)) = wire.pop_front() {
            let count = &mut seen[(way == FlightDirection::ServerToClient) as usize];
            *count += 1;
            let mut delivered = datagram.clone();
            if way == direction && *count == ordinal {
                dropped = Some(datagram);
                if fault == FlightFault::Drop {
                    continue;
                }
                let records = DtlsRecord::parse_datagram(&delivered).unwrap();
                delivered = records[0].encode().unwrap();
            } else if way == direction
                && dropped.as_deref().is_some_and(|dropped| {
                    dropped != datagram
                        && handshake_flight_fingerprint(dropped)
                            == handshake_flight_fingerprint(&datagram)
                        && record_sequences_are_fresh(dropped, &datagram)
                })
            {
                saw_fresh_semantic_retry = true;
            }
            match way {
                FlightDirection::ClientToServer => {
                    for answer in server.receive(&delivered) {
                        wire.push_back((FlightDirection::ServerToClient, answer));
                    }
                }
                FlightDirection::ServerToClient => {
                    for answer in client.receive(&delivered) {
                        wire.push_back((FlightDirection::ClientToServer, answer));
                    }
                }
            }
        }
        if let Some(datagram) = client.timeout() {
            wire.push_back((FlightDirection::ClientToServer, datagram));
        }
        if let Some(datagram) = server.timeout() {
            wire.push_back((FlightDirection::ServerToClient, datagram));
        }
    }

    let request = client.session().protect_application_data(b"lossy echo").unwrap();
    assert!(server.receive(&encoded(&[request])).is_empty());
    let echoed = server.received.pop().unwrap();
    assert_eq!(echoed, b"lossy echo");
    let response = server.session().protect_application_data(&echoed).unwrap();
    let opened = client.session().open_session_datagram(&[response]);
    assert_eq!(opened.unwrap().unwrap(), b"lossy echo");
    assert_eq!(
        server.session().session().key_material().master_secret,
        client.session().key_material().master_secret
    );
    assert!(
        dropped.is_some(),
        "{direction:?} flight {ordinal} was not faulted"
    );
    assert!(
        saw_fresh_semantic_retry,
        "{direction:?} flight {ordinal} was not retransmitted with fresh record sequences"
    );
}

#[test]
fn dtls_handshake_recovers_when_each_flight_is_dropped_once() {
    for (direction, ordinal) in [
        (FlightDirection::ClientToServer, 1),
        (FlightDirection::ServerToClient, 1),
        (FlightDirection::ClientToServer, 2),
        (FlightDirection::ServerToClient, 2),
        (FlightDirection::ClientToServer, 3),
        (FlightDirection::ServerToClient, 3),
    ] {
        run_flight_fault_case(direction, ordinal, FlightFault::Drop);
    }
}

#[test]
fn dtls_handshake_recovers_from_a_partially_delivered_client_flight() {
    run_flight_fault_case(
        FlightDirection::ClientToServer,
        3,
        FlightFault::ForwardFirstRecord,
    );
}

/// Delivers everything until neither end sends; gives what the server said.
fn exchange(client: &mut Client, server: &mut Server, first: Vec<u8>) -> Vec<Vec<u8>> {
    let mut to_server = vec![first];
    let mut said = Vec::new();
    while !to_server.is_empty() {
        let datagram = to_server.remove(0);
        for answer in server.receive(&datagram) {
            to_server.extend(client.receive(&answer));
            said.push(answer);
        }
    }
    said
}

#[test]
fn dtls_server_accepts_cookie_retry_and_echoes_protected_payload() {
    let (mut client, first) = Client::start(0x42);
    let mut server = Server::new(0x42);
    exchange(&mut client, &mut server, first);
    let request = client
        .session()
        .protect_application_data(b"cookie-verified echo")
        .unwrap();
    server.receive(&encoded(&[request]));
    let echoed = server.received.pop().unwrap();
    let response = server.session().protect_application_data(&echoed).unwrap();
    let opened = client.session().open_session_datagram(&[response]);
    assert_eq!(opened.unwrap().unwrap(), b"cookie-verified echo");
    assert_eq!(
        server.session().session().key_material().master_secret,
        client.session().key_material().master_secret
    );
}

#[test]
fn dtls_server_and_client_reject_wrong_pskc() {
    let (mut client, first) = Client::start(0x43);
    let mut server = Server::new(0x42);
    exchange(&mut client, &mut server, first);
    assert!(
        server.error().starts_with("crypto error"),
        "server must reject the client's Finished"
    );
    assert!(
        client.error().contains("alert"),
        "client must reject the server alert"
    );
}

#[test]
fn dtls_server_ignores_invalid_records_before_cookie_exchange() {
    let mut server = Server::new(0x42);
    let ignored = DtlsRecord::new(ContentType::Handshake, 1, 0, vec![0xff]).unwrap();
    assert!(server.receive(&ignored.encode().unwrap()).is_empty());
    let mut wrong_epoch_hello = client_hello(0, &[]);
    wrong_epoch_hello.header.epoch = 1;
    assert!(server
        .receive(&wrong_epoch_hello.encode().unwrap())
        .is_empty());
    let malformed = message(HandshakeType::ClientHello, 0, &[0xff]);
    let malformed_record =
        DtlsRecord::new(ContentType::Handshake, 0, 0, malformed.encode().unwrap()).unwrap();
    assert!(
        server
            .receive(&malformed_record.encode().unwrap())
            .is_empty(),
        "invalid pre-cookie records must not receive a response"
    );

    let (mut client, first) = Client::start(0x42);
    exchange(&mut client, &mut server, first);
    assert_eq!(
        server.session().session().key_material().master_secret,
        client.session().key_material().master_secret
    );
}

#[test]
fn dtls_server_reports_client_alert_after_cookie_validation() {
    let mut server = Server::new(0x42);
    server.receive(&encoded(&[client_hello(0, &[])]));
    server.receive(&encoded(&[client_hello(1, &COOKIE)]));
    let alert = DtlsRecord::new(ContentType::Alert, 0, 2, vec![2, 90]).unwrap();
    server.receive(&alert.encode().unwrap());
    assert!(
        server.error().contains("description=90"),
        "server must surface the selected peer's alert"
    );
}

#[test]
fn established_dtls_server_session_reports_client_alerts() {
    let (mut client, first) = Client::start(0x42);
    let mut server = Server::new(0x42);
    exchange(&mut client, &mut server, first);
    let unauthenticated = DtlsRecord::new(ContentType::Alert, 1, 1, vec![2, 40]).unwrap();
    server.receive(&unauthenticated.encode().unwrap());
    let keys = client.session().key_material().clone();
    let authenticated = protect_aes_128_ccm_8_record(
        ContentType::Alert,
        1,
        1,
        RecordProtectionKey::new(keys.key_block.client_write_key),
        &keys.key_block.client_write_iv,
        &[2, 40],
    )
    .unwrap();
    server.receive(&authenticated.encode().unwrap());
    assert!(
        server.error().contains("description=40"),
        "established session must surface a client alert"
    );
}

#[test]
fn connect_reports_alert_while_waiting_for_hello_verify() {
    let (mut client, _) = Client::start(0x42);
    let alert = DtlsRecord::new(ContentType::Alert, 0, 0, vec![2, 40]).unwrap();
    client.receive(&alert.encode().unwrap());
    assert!(client.error().contains("alert"));
}

#[test]
fn connect_reports_alert_and_repeat_cookie_during_server_flight() {
    // An alert in place of the server flight must surface as an alert error.
    let (mut client, _) = Client::start(0x42);
    let verify = hello_verify_record(0, 0, COOKIE.to_vec()).unwrap();
    client.receive(&encoded(&[verify]));
    let alert = DtlsRecord::new(ContentType::Alert, 0, 1, vec![2, 40]).unwrap();
    client.receive(&alert.encode().unwrap());
    assert!(client.error().contains("alert"));

    // A new HelloVerifyRequest means the server rejected the previous cookie.
    // The client must adopt the replacement instead of replaying a stale one.
    let (mut client, _) = Client::start(0x42);
    let verify = hello_verify_record(0, 0, COOKIE.to_vec()).unwrap();
    let second = client.receive(&encoded(&[verify])).remove(0);
    let replacement_cookie = vec![0xca, 0xfe];
    let verify = hello_verify_record(1, 1, replacement_cookie.clone()).unwrap();
    let repeated = client.receive(&encoded(&[verify])).remove(0);
    assert_ne!(repeated, second);
    let repeated_records = DtlsRecord::parse_datagram(&repeated).unwrap();
    let repeated_message =
        parse_unfragmented_handshake_record(&repeated_records[0], HandshakeType::ClientHello)
            .unwrap();
    assert_eq!(
        ClientHello::decode(&repeated_message.payload).unwrap().cookie,
        replacement_cookie
    );
    let alert = DtlsRecord::new(ContentType::Alert, 0, 2, vec![2, 40]).unwrap();
    client.receive(&alert.encode().unwrap());
    assert!(client.error().contains("alert"));
}

/// Runs a client against the loopback server. Gives the server's keys, `None`
/// where it stopped on purpose, or its error.
fn run_loopback(
    client: &mut Client,
    first: Vec<u8>,
    secret: u8,
    end: LoopbackEnd,
) -> Result<Option<ThreadDtlsKeyMaterial>, Error> {
    let mut server = LoopbackServer::new(end);
    let mut wire = vec![first];
    loop {
        let datagram = wire.remove(0);
        server.receive(DtlsRecord::parse_datagram(&datagram)?);
        loop {
            let mut action = server.next();
            if let LoopbackAction::CheckCookie {
                message,
                record_sequence,
                hello,
            } = action
            {
                let valid = hello.cookie == COOKIE;
                action = server.cookie_checked(message, record_sequence, hello, valid);
            }
            match action {
                LoopbackAction::Receive => break,
                LoopbackAction::CheckCookie { .. } => unreachable!(),
                LoopbackAction::IssueCookie {
                    message,
                    record_sequence,
                    ..
                } => {
                    let refusal = LoopbackServer::refusal(
                        message.message_seq,
                        record_sequence,
                        COOKIE.to_vec(),
                    )?;
                    wire.extend(client.receive(&refusal));
                }
                LoopbackAction::AnswerHello {
                    message,
                    record_sequence,
                } => {
                    let answer = server_answer(message.message_seq);
                    let flight =
                        server.hello_answered(message.message_seq, record_sequence, &answer)?;
                    wire.extend(client.receive(&flight));
                }
                LoopbackAction::KeyExchange(_) => server.key_exchange_taken(key_material(secret)),
                LoopbackAction::VerifyFinished(finished) => {
                    assert_eq!(finished.payload, vec![secret, 1]);
                    let answer = message(
                        HandshakeType::Finished,
                        server.finished_sequence(),
                        &[secret, 2],
                    );
                    let last = server.finished_verified(&answer)?;
                    client.receive(&last);
                    return Ok(server.key_material());
                }
                LoopbackAction::Send(datagram) => wire.extend(client.receive(&datagram)),
                LoopbackAction::SendAndStop(datagram) => {
                    client.receive(&datagram);
                    return Ok(None);
                }
                LoopbackAction::SendAndFail { datagram, error } => {
                    client.receive(&datagram);
                    return Err(error);
                }
                LoopbackAction::Fail(error) => return Err(error),
            }
        }
    }
}

#[test]
fn dtls_session_connect_completes_against_in_process_server() {
    let (mut client, first) = Client::start(0x42);
    let server_keys = run_loopback(&mut client, first, 0x42, LoopbackEnd::Complete)
        .unwrap()
        .expect("keys");
    assert_eq!(
        server_keys.master_secret,
        client.session().key_material().master_secret
    );
    // The negotiated key material is non-trivial.
    assert_ne!(client.session().key_material().master_secret, [0u8; 48]);
}

#[test]
fn dtls_session_connect_fails_against_wrong_pskc_server() {
    let (mut client, first) = Client::start(0x43);
    let server = run_loopback(&mut client, first, 0x42, LoopbackEnd::Complete);
    assert!(
        client.error().contains("alert"),
        "mismatched PSKc must not negotiate"
    );
    // The server side must also refuse the client's Finished.
    assert!(server.is_err());
}

#[test]
fn connect_completes_after_the_server_replaces_its_cookie() {
    let (mut client, first) = Client::start(0x42);
    let server_keys = run_loopback(
        &mut client,
        first,
        0x42,
        LoopbackEnd::ReplaceCookieThenComplete,
    )
    .unwrap()
    .expect("replacement-cookie handshake returns keys");
    assert_eq!(
        client.session().key_material().master_secret,
        server_keys.master_secret
    );
}

#[test]
fn connect_reports_alert_instead_of_server_finished() {
    let (mut client, first) = Client::start(0x42);
    let server = run_loopback(&mut client, first, 0x42, LoopbackEnd::AlertInsteadOfFinished);
    assert!(client.error().contains("alert"));
    assert!(server.unwrap().is_none());
}

#[test]
fn connect_reports_a_protected_alert_instead_of_server_finished() {
    let (mut client, first) = Client::start(0x42);
    let server = run_loopback(
        &mut client,
        first,
        0x42,
        LoopbackEnd::ProtectedAlertInsteadOfFinished,
    );
    assert!(client.error().contains("alert"));
    assert!(server.unwrap().is_none());
}

#[test]
fn the_server_answers_four_repeated_hellos_and_then_waits() {
    let mut server = Server::new(0x42);
    let hello = encoded(&[client_hello(1, &COOKIE)]);
    assert_eq!(server.receive(&hello).len(), 1);
    for _ in 0..4 {
        assert_eq!(server.receive(&hello).len(), 1);
    }
    assert!(server.receive(&hello).is_empty());
}

#[test]
fn the_retransmission_interval_doubles_with_each_timeout() {
    let mut wait = HelloVerifyWait::start(client_hello(0, &[]));
    assert_eq!(wait.timeout(), SECOND);
    wait.on_timeout();
    assert_eq!(wait.timeout(), 2 * SECOND);
    assert_eq!(wait.flight()[0].header.sequence_number, 1);
}

#[test]
fn recv_application_data_ignores_unauthenticated_records_and_reports_protected_alerts() {
    let ignored = DtlsRecord::new(ContentType::Handshake, 0, 0, vec![0xde]).expect("ignored");
    let unauthenticated =
        DtlsRecord::new(ContentType::Alert, 1, 1, vec![2, 40]).expect("unauthenticated");
    let keys = test_key_material();
    let alert = protect_aes_128_ccm_8_record(
        ContentType::Alert,
        1,
        1,
        RecordProtectionKey::new(keys.key_block.server_write_key),
        &keys.key_block.server_write_iv,
        &[2, 40],
    )
    .expect("protected alert");
    let mut state = SessionState::new(keys.clone(), SessionRole::Client);
    let error = state
        .open_session_datagram(&[ignored, unauthenticated, alert])
        .expect("the alert ends the receive")
        .expect_err("a bare alert record must surface as an error");
    match error {
        Error::Crypto(message) => assert!(
            message.contains("description=40"),
            "unexpected error message: {message}"
        ),
        other => panic!("expected a decoded alert error, got {other:?}"),
    }
}

fn test_key_material() -> ThreadDtlsKeyMaterial {
    ThreadDtlsKeyMaterial {
        master_secret: [0x11; 48],
        key_block: Tls12Aes128Ccm8KeyBlock {
            client_write_key: [0x21; 16],
            server_write_key: [0x32; 16],
            client_write_iv: [0x43; 4],
            server_write_iv: [0x54; 4],
        },
    }
}

#[test]
fn recv_application_data_reports_a_protected_close_notify_as_peer_closed() {
    let keys = test_key_material();
    let close_notify = protect_aes_128_ccm_8_record(
        ContentType::Alert,
        1,
        1,
        RecordProtectionKey::new(keys.key_block.server_write_key),
        &keys.key_block.server_write_iv,
        &[1, ALERT_CLOSE_NOTIFY],
    )
    .expect("protected close_notify");
    let mut state = SessionState::new(keys.clone(), SessionRole::Client);
    let error = state
        .open_session_datagram(&[close_notify])
        .expect("close_notify must end the receive")
        .expect_err("close_notify must end the receive");
    assert!(
        matches!(error, Error::PeerClosed),
        "expected PeerClosed, got {error:?}"
    );
}

#[test]
fn recv_application_data_drops_replayed_application_records() {
    let keys = test_key_material();
    let protect = |sequence, text: &[u8]| {
        protect_aes_128_ccm_8_record(
            ContentType::ApplicationData,
            1,
            sequence,
            RecordProtectionKey::new(keys.key_block.server_write_key),
            &keys.key_block.server_write_iv,
            text,
        )
        .expect("protects")
    };
    let replayed = protect(7, b"first");
    let next = protect(8, b"second");
    let mut state = SessionState::new(keys.clone(), SessionRole::Client);
    let first = state
        .open_session_datagram(&[replayed.clone()])
        .unwrap()
        .expect("first record must open");
    assert_eq!(first, b"first");
    let second = state
        .open_session_datagram(&[replayed, next])
        .unwrap()
        .expect("second record must open, skipping the replay");
    assert_eq!(second, b"second");
}

#[test]
fn records_behind_the_first_application_data_are_kept() {
    let keys = test_key_material();
    let protect = |sequence, text: &[u8]| {
        protect_aes_128_ccm_8_record(
            ContentType::ApplicationData,
            1,
            sequence,
            RecordProtectionKey::new(keys.key_block.server_write_key),
            &keys.key_block.server_write_iv,
            text,
        )
        .expect("protects")
    };
    let mut state = SessionState::new(keys.clone(), SessionRole::Client);
    let both = [protect(1, b"one"), protect(2, b"two")];
    assert_eq!(state.open_session_datagram(&both).unwrap().unwrap(), b"one");
    assert_eq!(state.receive_pending().unwrap().unwrap(), b"two");
    assert!(state.receive_pending().is_none());
}

#[test]
fn a_close_behind_application_data_is_reported_next() {
    let keys = test_key_material();
    let protect = |content_type, sequence, text: &[u8]| {
        protect_aes_128_ccm_8_record(
            content_type,
            1,
            sequence,
            RecordProtectionKey::new(keys.key_block.server_write_key),
            &keys.key_block.server_write_iv,
            text,
        )
        .expect("protects")
    };
    let mut state = SessionState::new(keys.clone(), SessionRole::Client);
    let both = [
        protect(ContentType::ApplicationData, 1, b"last words"),
        protect(ContentType::Alert, 2, &[1, ALERT_CLOSE_NOTIFY]),
    ];
    assert_eq!(
        state.open_session_datagram(&both).unwrap().unwrap(),
        b"last words"
    );
    assert!(matches!(
        state.receive_pending(),
        Some(Err(Error::PeerClosed))
    ));
    assert!(state.receive_pending().is_none());
}

#[test]
fn a_forged_record_does_not_block_the_authentic_one() {
    let keys = test_key_material();
    let authentic = protect_aes_128_ccm_8_record(
        ContentType::ApplicationData,
        1,
        100,
        RecordProtectionKey::new(keys.key_block.server_write_key),
        &keys.key_block.server_write_iv,
        b"genuine",
    )
    .expect("protects");
    let mut forged = authentic.clone();
    forged.payload[9] ^= 1;
    let mut state = SessionState::new(keys.clone(), SessionRole::Client);
    assert!(state.open_protected_record(&forged).is_err());
    assert_eq!(
        state.open_protected_record(&authentic).unwrap(),
        Some(b"genuine".to_vec())
    );
    assert_eq!(state.open_protected_record(&authentic).unwrap(), None);

    // 64 below the newest is refused unseen, 63 below is not.
    let at = |sequence| {
        protect_aes_128_ccm_8_record(
            ContentType::ApplicationData,
            1,
            sequence,
            RecordProtectionKey::new(keys.key_block.server_write_key),
            &keys.key_block.server_write_iv,
            b"older",
        )
        .expect("protects")
    };
    assert_eq!(state.open_protected_record(&at(36)).unwrap(), None);
    assert_eq!(
        state.open_protected_record(&at(37)).unwrap(),
        Some(b"older".to_vec())
    );
}

#[test]
fn the_server_numbers_its_messages_from_the_hello_on() {
    let hello = message(HandshakeType::ClientHello, 0xfffe, &[]);
    assert_eq!(answer_sequences(&hello), [0xfffe, 0xffff, 0]);
    let wait = ClientFlightWait::start(hello, 5, &[]).unwrap();
    assert_eq!(wait.finished_sequence(), 1);
}
