//! Sessions with joiners, their finalization and what is relayed for them.

use meshcop::commissioner::coap::{CoapCode, CoapMessage, CoapType, CODE_CHANGED};
use meshcop::commissioner::dataset::Dataset;
use meshcop::commissioner::driver::parts::RelayOutput;
use meshcop::commissioner::error::Error;
use meshcop::commissioner::joiner::{
    parse_join_fin, JoinerAction, JoinerSession, JoinerSessionEvent, JOINER_SESSION_TIMEOUT,
    MAX_DUPLICATE_FLIGHT_RETRANSMISSIONS,
};
use meshcop::commissioner::joiner_handler::{
    compute_joiner_id, joiner_id_from_iid, JoinerHandler, StaticJoinerHandler,
};
use meshcop::commissioner::joiner_sessions::{begin, relay_outputs, Admission, JoinerSessions};
use meshcop::commissioner::messages::{
    TLV_JOINER_DTLS_ENCAPSULATION, TLV_JOINER_IID, TLV_JOINER_ROUTER_KEK,
    TLV_JOINER_ROUTER_LOCATOR, TLV_JOINER_UDP_PORT, TLV_PROVISIONING_URL, TLV_STATE,
    TLV_VENDOR_DATA, TLV_VENDOR_MODEL, TLV_VENDOR_NAME, TLV_VENDOR_STACK_VERSION,
    TLV_VENDOR_SW_VERSION, URI_JOIN_FIN, URI_RELAY_TX,
};
use meshcop::commissioner::tlv::TlvSet;
use meshcop::commissioner::types::{CommissionerEvent, JoinerFinalizeInfo};
use meshcop::dtls::flight::is_client_finished_flight;
use meshcop::dtls::handshake::{
    parse_unfragmented_handshake_record, HandshakeMessage, HandshakeType,
};
use meshcop::dtls::protection::{
    open_aes_128_ccm_8_record, protect_aes_128_ccm_8_record, RecordProtectionKey,
    ThreadDtlsKeyMaterial, Tls12Aes128Ccm8KeyBlock,
};
use meshcop::dtls::record::{ContentType, DtlsRecord};

const JOINER_IID: [u8; 8] = [0x11, 0x22, 0x33, 0x44, 0x55, 0x66, 0x77, 0x88];
const PSKD: &str = "J01NME";
const COOKIE: [u8; 2] = [0xca, 0xfe];
const SECOND: u128 = 1_000_000_000;

fn keys() -> ThreadDtlsKeyMaterial {
    ThreadDtlsKeyMaterial {
        master_secret: [0x11; 48],
        key_block: Tls12Aes128Ccm8KeyBlock {
            client_write_key: [0x21; 16],
            server_write_key: [0x32; 16],
            client_write_iv: [0x43; 4],
            server_write_iv: [0x54; 4],
        },
    }
}

fn handshake_flight_fingerprint(datagram: &[u8]) -> Vec<(u16, ContentType, Vec<u8>)> {
    DtlsRecord::parse_datagram(datagram)
        .unwrap()
        .into_iter()
        .map(|record| {
            let payload = if record.header.epoch == 0 {
                record.payload
            } else {
                Vec::new()
            };
            (record.header.epoch, record.header.content_type, payload)
        })
        .collect()
}

fn assert_fresh_retransmission(previous: &[u8], retransmission: &[u8]) {
    assert_ne!(retransmission, previous);
    assert_eq!(
        handshake_flight_fingerprint(retransmission),
        handshake_flight_fingerprint(previous)
    );
    let previous = DtlsRecord::parse_datagram(previous).unwrap();
    let retransmission = DtlsRecord::parse_datagram(retransmission).unwrap();
    assert_eq!(previous.len(), retransmission.len());
    for (before, after) in previous.iter().zip(retransmission) {
        assert_eq!(before.header.epoch, after.header.epoch);
        assert_ne!(before.header.sequence_number, after.header.sequence_number);
    }
}

#[derive(Debug, Default)]
struct RecordingHandler {
    pskd: Option<String>,
    accept: bool,
    connected: Vec<[u8; 8]>,
    finalized: Vec<([u8; 8], JoinerFinalizeInfo)>,
}

impl JoinerHandler for RecordingHandler {
    fn joiner_pskd(&mut self, _joiner_id: &[u8; 8]) -> Option<String> {
        self.pskd.clone()
    }

    fn on_joiner_connected(&mut self, joiner_id: &[u8; 8]) {
        self.connected.push(*joiner_id);
    }

    fn on_joiner_finalize(&mut self, joiner_id: &[u8; 8], info: &JoinerFinalizeInfo) -> bool {
        self.finalized.push((*joiner_id, info.clone()));
        self.accept
    }
}

fn join_fin_payload() -> Vec<u8> {
    let mut payload = Vec::new();
    payload.extend_from_slice(&[TLV_STATE, 1, 0x01]);
    payload.extend_from_slice(&[TLV_VENDOR_NAME, 4]);
    payload.extend_from_slice(b"Acme");
    payload.extend_from_slice(&[TLV_VENDOR_MODEL, 6]);
    payload.extend_from_slice(b"Widget");
    payload.extend_from_slice(&[TLV_VENDOR_SW_VERSION, 3]);
    payload.extend_from_slice(b"1.0");
    payload.extend_from_slice(&[TLV_VENDOR_STACK_VERSION, 6, 0, 0, 0x2a, 1, 2, 3]);
    payload.extend_from_slice(&[TLV_PROVISIONING_URL, 11]);
    payload.extend_from_slice(b"example.com");
    payload
}

fn client_hello(message_seq: u16, record_sequence: u64, cookie: &[u8]) -> Vec<u8> {
    let mut payload = vec![0xfe, 0xfd];
    payload.extend_from_slice(&[0x5a; 32]);
    payload.push(0);
    payload.push(cookie.len() as u8);
    payload.extend_from_slice(cookie);
    payload.extend_from_slice(&[0, 2, 0xc0, 0xff, 1, 0]);
    handshake(HandshakeType::ClientHello, message_seq, record_sequence, payload)
}

fn handshake(
    message_type: HandshakeType,
    message_seq: u16,
    record_sequence: u64,
    payload: Vec<u8>,
) -> Vec<u8> {
    let message = HandshakeMessage {
        message_type,
        message_seq,
        payload,
    };
    DtlsRecord::new(
        ContentType::Handshake,
        0,
        record_sequence,
        message.encode().unwrap(),
    )
    .unwrap()
    .encode()
    .unwrap()
}

fn server_answer(hello_seq: u16) -> Vec<HandshakeMessage> {
    vec![
        HandshakeMessage {
            message_type: HandshakeType::ServerHello,
            message_seq: hello_seq,
            payload: vec![1],
        },
        HandshakeMessage {
            message_type: HandshakeType::ServerKeyExchange,
            message_seq: hello_seq + 1,
            payload: vec![2],
        },
        HandshakeMessage {
            message_type: HandshakeType::ServerHelloDone,
            message_seq: hello_seq + 2,
            payload: Vec::new(),
        },
    ]
}

/// Hands a datagram to the session and answers for the key agreement.
fn receive(
    session: &mut JoinerSession,
    datagram: &[u8],
    handler: &mut RecordingHandler,
) -> Result<Vec<JoinerSessionEvent>, Error> {
    session.receive(datagram)?;
    loop {
        match session.next() {
            JoinerAction::CheckCookie {
                message,
                record_sequence,
                hello,
            } => {
                if hello.cookie == COOKIE {
                    let answer = server_answer(message.message_seq);
                    session.hello_accepted(message, record_sequence, &answer)?;
                } else {
                    session.hello_refused(
                        message.message_seq,
                        record_sequence,
                        COOKIE.to_vec(),
                    )?;
                }
            }
            JoinerAction::KeyExchange(message) => session.key_exchange_taken(message, keys()),
            JoinerAction::VerifyFinished(message) => {
                assert_eq!(message.payload, b"client finished");
                let message_seq = session.server_finished_sequence()?;
                session.finished_verified(&HandshakeMessage {
                    message_type: HandshakeType::Finished,
                    message_seq,
                    payload: b"server finished".to_vec(),
                })?;
            }
            JoinerAction::Finalize(_) => session.finalize_with(handler)?,
            JoinerAction::Done(events) => return Ok(events),
            JoinerAction::Fail(error) => return Err(error),
        }
    }
}

fn client_record(content_type: ContentType, sequence: u64, plaintext: &[u8]) -> DtlsRecord {
    protect_aes_128_ccm_8_record(
        content_type,
        1,
        sequence,
        RecordProtectionKey::new(keys().key_block.client_write_key),
        &keys().key_block.client_write_iv,
        plaintext,
    )
    .unwrap()
}

fn open_server_record(record: &DtlsRecord) -> Vec<u8> {
    open_aes_128_ccm_8_record(
        record,
        RecordProtectionKey::new(keys().key_block.server_write_key),
        &keys().key_block.server_write_iv,
    )
    .unwrap()
}

struct CommissionedJoiner {
    session: JoinerSession,
    handler: RecordingHandler,
    client_finished_flight: Vec<u8>,
    server_finished_flight: Vec<u8>,
}

impl CommissionedJoiner {
    fn receive(&mut self, datagram: &[u8]) -> Result<Vec<JoinerSessionEvent>, Error> {
        receive(&mut self.session, datagram, &mut self.handler)
    }
}

fn commission_fake_joiner(accept: bool) -> CommissionedJoiner {
    let mut handler = RecordingHandler {
        pskd: Some(PSKD.to_string()),
        accept,
        ..RecordingHandler::default()
    };
    let mut session = JoinerSession::new(JOINER_IID, 1000, 0x6800, 0);

    // First ClientHello: answered by a HelloVerifyRequest.
    let events = receive(&mut session, &client_hello(0, 0, &[]), &mut handler).unwrap();
    let [JoinerSessionEvent::Transmit {
        datagram,
        include_kek: false,
    }] = events.as_slice()
    else {
        panic!("expected one HelloVerifyRequest transmission, got {events:?}");
    };
    let records = DtlsRecord::parse_datagram(datagram).unwrap();
    parse_unfragmented_handshake_record(&records[0], HandshakeType::HelloVerifyRequest).unwrap();

    // Cookie-bearing ClientHello: answered by the server flight.
    let events = receive(&mut session, &client_hello(1, 1, &COOKIE), &mut handler).unwrap();
    let [JoinerSessionEvent::Transmit {
        datagram,
        include_kek: false,
    }] = events.as_slice()
    else {
        panic!("expected the server flight, got {events:?}");
    };
    let types: Vec<HandshakeType> = DtlsRecord::parse_datagram(datagram)
        .unwrap()
        .iter()
        .map(|record| {
            meshcop::dtls::handshake::parse_unfragmented_handshake_messages(record).unwrap()[0]
                .message_type
        })
        .collect();
    assert_eq!(
        types,
        [
            HandshakeType::ServerHello,
            HandshakeType::ServerKeyExchange,
            HandshakeType::ServerHelloDone
        ]
    );

    // Client flight: ClientKeyExchange, ChangeCipherSpec, Finished.
    let mut datagram = handshake(HandshakeType::ClientKeyExchange, 2, 2, vec![3]);
    let key_exchange_only = datagram.clone();
    datagram.extend_from_slice(
        &DtlsRecord::new(ContentType::ChangeCipherSpec, 0, 3, vec![1])
            .unwrap()
            .encode()
            .unwrap(),
    );
    let finished = HandshakeMessage {
        message_type: HandshakeType::Finished,
        message_seq: 3,
        payload: b"client finished".to_vec(),
    };
    datagram.extend_from_slice(
        &client_record(ContentType::Handshake, 0, &finished.encode().unwrap())
            .encode()
            .unwrap(),
    );
    let client_finished_flight = datagram.clone();
    assert!(
        receive(&mut session, &key_exchange_only, &mut handler)
            .unwrap()
            .is_empty(),
        "a partial client flight must wait for ChangeCipherSpec and Finished"
    );
    let events = receive(&mut session, &datagram, &mut handler).unwrap();
    let [JoinerSessionEvent::Transmit {
        datagram,
        include_kek: false,
    }, JoinerSessionEvent::Connected] = events.as_slice()
    else {
        panic!("expected the Finished flight and a Connected event, got {events:?}");
    };
    let server_finished_flight = datagram.clone();
    assert_eq!(handler.connected, Vec::<[u8; 8]>::new());

    // The joiner verifies the server's ChangeCipherSpec + Finished.
    let records = DtlsRecord::parse_datagram(datagram).unwrap();
    assert_eq!(
        records[0].header.content_type,
        ContentType::ChangeCipherSpec
    );
    let plaintext = open_server_record(&records[1]);
    let plain_record = DtlsRecord::new(ContentType::Handshake, 1, 0, plaintext).unwrap();
    let server_finished =
        parse_unfragmented_handshake_record(&plain_record, HandshakeType::Finished).unwrap();
    assert_eq!(server_finished.payload, b"server finished");
    assert_eq!(server_finished.message_seq, 4);

    CommissionedJoiner {
        session,
        handler,
        client_finished_flight,
        server_finished_flight,
    }
}

fn join_fin(message_id: u16) -> CoapMessage {
    CoapMessage::post_request(
        CoapType::Confirmable,
        message_id,
        vec![0x77],
        URI_JOIN_FIN,
        join_fin_payload(),
    )
}

fn encrypted_join_fin(message_id: u16) -> Vec<u8> {
    client_record(
        ContentType::ApplicationData,
        u64::from(message_id),
        &join_fin(message_id).encode().unwrap(),
    )
    .encode()
    .unwrap()
}

fn decrypt_join_fin_response(datagram: &[u8]) -> CoapMessage {
    let records = DtlsRecord::parse_datagram(datagram).unwrap();
    CoapMessage::decode(&open_server_record(&records[0])).unwrap()
}

#[test]
fn joiner_session_commissions_and_entrusts_an_accepted_joiner() {
    let mut joiner = commission_fake_joiner(true);
    let expected_joiner_id = {
        let mut id = JOINER_IID;
        id[0] ^= 0x02;
        id
    };
    assert_eq!(joiner.session.joiner_id(), expected_joiner_id);
    assert_eq!(joiner_id_from_iid(&JOINER_IID), expected_joiner_id);

    let request_datagram = encrypted_join_fin(7);
    let events = joiner.receive(&request_datagram).unwrap();
    let [JoinerSessionEvent::Transmit {
        datagram,
        include_kek: true,
    }, JoinerSessionEvent::Finalized {
        accepted: true,
        info,
    }] = events.as_slice()
    else {
        panic!("expected an entrusting JOIN_FIN.rsp, got {events:?}");
    };
    assert_eq!(info.vendor_name, "Acme");
    assert_eq!(info.vendor_model, "Widget");
    assert_eq!(info.vendor_sw_version, "1.0");
    assert_eq!(info.vendor_stack_version, [0, 0, 0x2a, 1, 2, 3]);
    assert_eq!(info.provisioning_url.as_deref(), Some("example.com"));
    assert_eq!(info.vendor_data, None);
    assert_eq!(joiner.handler.finalized.len(), 1);

    let response = decrypt_join_fin_response(datagram);
    assert_eq!(response.ty, CoapType::Acknowledgement);
    assert_eq!(response.code, CoapCode(CODE_CHANGED));
    assert_eq!(response.message_id, 7);
    assert_eq!(response.token, [0x77]);
    assert_eq!(response.payload, [TLV_STATE, 1, 0x01]);

    // DTLS replay protection discards an identical protected record.
    assert!(joiner.receive(&request_datagram).unwrap().is_empty());

    // A CoAP retransmission arrives in a fresh DTLS record and is answered
    // with the same decision, but does not re-finalize.
    let events = joiner.receive(&encrypted_join_fin(8)).unwrap();
    assert!(matches!(
        events.as_slice(),
        [JoinerSessionEvent::Transmit {
            include_kek: true,
            ..
        }]
    ));
    assert_eq!(joiner.handler.finalized.len(), 1);
}

#[test]
fn joiner_session_rejects_a_denied_joiner_without_the_kek() {
    let mut joiner = commission_fake_joiner(false);
    let events = joiner.receive(&encrypted_join_fin(9)).unwrap();
    let [JoinerSessionEvent::Transmit {
        datagram,
        include_kek: false,
    }, JoinerSessionEvent::Finalized {
        accepted: false, ..
    }] = events.as_slice()
    else {
        panic!("expected a rejecting JOIN_FIN.rsp without the KEK, got {events:?}");
    };
    let response = decrypt_join_fin_response(datagram);
    assert_eq!(response.payload, [TLV_STATE, 1, 0xff]);
}

#[test]
fn joiner_session_timeout_matches_the_reference_deadline() {
    assert_eq!(JOINER_SESSION_TIMEOUT, 80 * SECOND);
}

#[test]
fn retransmitted_client_hello_repeats_the_server_flight() {
    let mut handler = RecordingHandler {
        pskd: Some(PSKD.to_string()),
        accept: true,
        ..RecordingHandler::default()
    };
    let mut session = JoinerSession::new(JOINER_IID, 1000, 0x6800, 0);
    let first_hello = client_hello(0, 0, &[]);
    let events = receive(&mut session, &first_hello, &mut handler).unwrap();
    assert!(matches!(
        events.as_slice(),
        [JoinerSessionEvent::Transmit { .. }]
    ));

    let second_hello = client_hello(1, 1, &COOKIE);
    let events = receive(&mut session, &second_hello, &mut handler).unwrap();
    let [JoinerSessionEvent::Transmit {
        datagram: flight, ..
    }] = events.as_slice()
    else {
        panic!("expected the server flight");
    };
    let mut previous_flight = flight.clone();

    // A different ClientHello is not the preceding flight and must not
    // trigger reflection of the cached server flight.
    assert!(receive(&mut session, &first_hello, &mut handler)
        .unwrap()
        .is_empty());

    // If the flight is lost, the joiner retransmits its hello and receives
    // the same handshake messages in records with fresh sequence numbers,
    // up to the duplicate-response security cap.
    for _ in 0..MAX_DUPLICATE_FLIGHT_RETRANSMISSIONS {
        let events = receive(&mut session, &second_hello, &mut handler).unwrap();
        let [JoinerSessionEvent::Transmit {
            datagram: repeated, ..
        }] = events.as_slice()
        else {
            panic!("expected the repeated server flight");
        };
        assert_fresh_retransmission(&previous_flight, repeated);
        previous_flight = repeated.clone();
    }
    assert!(receive(&mut session, &second_hello, &mut handler)
        .unwrap()
        .is_empty());
}

#[test]
fn retransmitted_client_finished_repeats_the_server_finished_flight() {
    let mut joiner = commission_fake_joiner(true);
    let mut records = DtlsRecord::parse_datagram(&joiner.client_finished_flight).unwrap();
    let plaintext = open_aes_128_ccm_8_record(
        &records[2],
        RecordProtectionKey::new(keys().key_block.client_write_key),
        &keys().key_block.client_write_iv,
    )
    .unwrap();
    records[0].header.sequence_number += 10;
    records[1].header.sequence_number += 10;
    records[2] = client_record(ContentType::Handshake, 1, &plaintext);
    let retransmitted_client_flight = DtlsRecord::encode_datagram(&records).unwrap();
    let events = joiner.receive(&retransmitted_client_flight).unwrap();
    let [JoinerSessionEvent::Transmit {
        datagram,
        include_kek: false,
    }] = events.as_slice()
    else {
        panic!("expected the repeated server Finished flight, got {events:?}");
    };
    assert_fresh_retransmission(&joiner.server_finished_flight, datagram);
}

#[test]
fn coalesced_client_finished_replay_does_not_discard_join_fin() {
    let mut joiner = commission_fake_joiner(true);
    let mut coalesced = joiner.client_finished_flight.clone();
    coalesced.extend_from_slice(&encrypted_join_fin(7));

    let events = joiner.receive(&coalesced).unwrap();
    assert!(matches!(
        events.as_slice(),
        [
            JoinerSessionEvent::Transmit {
                include_kek: false,
                ..
            },
            JoinerSessionEvent::Transmit {
                include_kek: true,
                ..
            },
            JoinerSessionEvent::Finalized { accepted: true, .. }
        ]
    ));
}

#[test]
fn joiner_finished_replay_responses_stop_at_the_security_cap() {
    let mut joiner = commission_fake_joiner(true);
    let flight = joiner.client_finished_flight.clone();
    for _ in 0..MAX_DUPLICATE_FLIGHT_RETRANSMISSIONS {
        let events = joiner.receive(&flight).unwrap();
        assert!(matches!(
            events.as_slice(),
            [JoinerSessionEvent::Transmit { .. }]
        ));
    }
    assert!(joiner.receive(&flight).unwrap().is_empty());
}

#[test]
fn joiner_authenticates_alerts_after_the_handshake() {
    let mut joiner = commission_fake_joiner(true);
    let stale_plaintext = DtlsRecord::new(ContentType::Alert, 0, 99, vec![2, 40])
        .unwrap()
        .encode()
        .unwrap();
    assert!(joiner.receive(&stale_plaintext).unwrap().is_empty());

    let unauthenticated = DtlsRecord::new(ContentType::Alert, 1, 1, vec![2, 40])
        .unwrap()
        .encode()
        .unwrap();
    assert!(joiner.receive(&unauthenticated).unwrap().is_empty());

    let authenticated = client_record(ContentType::Alert, 1, &[2, 40])
        .encode()
        .unwrap();
    let error = joiner.receive(&authenticated).unwrap_err();
    assert!(
        matches!(&error, Error::Crypto(message) if message.contains("description=40")),
        "{error:?}"
    );
}

#[test]
fn recognizes_each_meaningful_joiner_finished_flight_record() {
    let record = |message_type, epoch| {
        let message = HandshakeMessage {
            message_type,
            message_seq: 2,
            payload: Vec::new(),
        };
        DtlsRecord::new(ContentType::Handshake, epoch, 1, message.encode().unwrap()).unwrap()
    };
    assert!(is_client_finished_flight(&[record(
        HandshakeType::ClientKeyExchange,
        0
    )]));
    assert!(!is_client_finished_flight(&[record(
        HandshakeType::ServerHello,
        0
    )]));
    assert!(is_client_finished_flight(&[record(
        HandshakeType::Finished,
        1
    )]));
    let change_cipher_spec = DtlsRecord::new(ContentType::ChangeCipherSpec, 0, 2, vec![1]).unwrap();
    assert!(!is_client_finished_flight(&[change_cipher_spec]));
}

#[test]
fn unrelated_connected_traffic_does_not_replace_the_cached_client_flight() {
    let mut joiner = commission_fake_joiner(true);
    let change_cipher_spec = DtlsRecord::new(ContentType::ChangeCipherSpec, 0, 99, vec![1])
        .unwrap()
        .encode()
        .unwrap();

    for _ in 0..2 {
        let events = joiner.receive(&change_cipher_spec).unwrap();
        assert!(events.is_empty());
    }
}

#[test]
fn joiner_sessions_expire_and_reject_malformed_traffic() {
    let now = 5 * SECOND;
    let mut session = JoinerSession::new(JOINER_IID, 1000, 0x6800, now);
    assert!(!session.expired(now));
    assert!(session.expired(now + JOINER_SESSION_TIMEOUT));
    assert!(session.expired(now + JOINER_SESSION_TIMEOUT + SECOND));

    let mut handler = RecordingHandler {
        pskd: Some(PSKD.to_string()),
        accept: true,
        ..RecordingHandler::default()
    };
    // Garbage bytes are not a DTLS record.
    assert!(receive(&mut session, &[0xff, 0x00], &mut handler).is_err());
    // Application data before the handshake completes is rejected.
    let early = DtlsRecord::new(ContentType::ApplicationData, 1, 0, vec![0; 24])
        .unwrap()
        .encode()
        .unwrap();
    assert!(receive(&mut session, &early, &mut handler).is_err());
    // Alerts tear the session down.
    let alert = DtlsRecord::new(ContentType::Alert, 0, 0, vec![2, 40])
        .unwrap()
        .encode()
        .unwrap();
    assert!(receive(&mut session, &alert, &mut handler).is_err());
}

#[test]
fn join_fin_parser_requires_vendor_identification() {
    let mut request = CoapMessage::post_request(
        CoapType::Confirmable,
        1,
        vec![0x01],
        URI_JOIN_FIN,
        join_fin_payload(),
    );
    let info = parse_join_fin(&request).unwrap();
    assert_eq!(info.vendor_name, "Acme");

    for missing in [
        TLV_STATE,
        TLV_VENDOR_NAME,
        TLV_VENDOR_MODEL,
        TLV_VENDOR_SW_VERSION,
        TLV_VENDOR_STACK_VERSION,
    ] {
        let mut altered = Dataset::from_bytes(&join_fin_payload()).unwrap();
        altered.remove_all(missing);
        request.payload = altered.to_bytes().unwrap();
        assert!(parse_join_fin(&request).is_err(), "missing TLV {missing}");
    }
}

#[test]
fn join_fin_keeps_the_optional_vendor_data() {
    let mut payload = join_fin_payload();
    payload.extend_from_slice(&[TLV_VENDOR_DATA, 2, 0xab, 0xcd]);
    let info = JoinerFinalizeInfo::from_payload(&payload).unwrap();
    assert_eq!(info.vendor_data, Some(vec![0xab, 0xcd]));
}

#[test]
fn static_joiner_handler_matches_ids_and_wildcards() {
    let mut handler = StaticJoinerHandler::new();
    let joiner_id = [1u8, 2, 3, 4, 5, 6, 7, 8];
    assert_eq!(handler.joiner_pskd(&joiner_id), None);

    handler.enable_joiner_id(joiner_id, "ABCDE1");
    assert_eq!(handler.joiner_pskd(&joiner_id).as_deref(), Some("ABCDE1"));
    assert_eq!(handler.joiner_pskd(&[9u8; 8]), None);

    handler.enable_all("WILDCD");
    assert_eq!(handler.joiner_pskd(&joiner_id).as_deref(), Some("ABCDE1"));
    assert_eq!(handler.joiner_pskd(&[9u8; 8]).as_deref(), Some("WILDCD"));

    handler.disable_joiner_id(&joiner_id);
    assert_eq!(handler.joiner_pskd(&joiner_id).as_deref(), Some("WILDCD"));
    handler.disable_all();
    assert_eq!(handler.joiner_pskd(&joiner_id), None);

    // EUI-64 enablement goes through the joiner-ID derivation.
    let mut by_eui = StaticJoinerHandler::new();
    by_eui.enable_eui64(0x0011_2233_4455_6677, "EUIPSK");
    let derived = compute_joiner_id(0x0011_2233_4455_6677);
    assert_eq!(by_eui.joiner_pskd(&derived).as_deref(), Some("EUIPSK"));
}

#[test]
fn a_joiner_id_is_a_hash_of_the_eui64_with_the_local_bit_set() {
    // The SHA-256 digest of the EUI-64 starts with d1 a5 f9 98 fa 6e d8 2d.
    assert_eq!(
        compute_joiner_id(0x0011_2233_4455_6677),
        [0xd3, 0xa5, 0xf9, 0x98, 0xfa, 0x6e, 0xd8, 0x2d]
    );
}

#[test]
fn a_static_handler_shows_no_credentials() {
    let mut handler = StaticJoinerHandler::new();
    handler.enable_all("SECRET1");
    handler.enable_joiner_id([1; 8], "SECRET2");
    let mut copy = handler.duplicate();
    assert_eq!(
        handler.debug_text(),
        "StaticJoinerHandler { wildcard_pskd: Some(\"<redacted>\"), enabled_joiner_count: 1 }"
    );
    handler.disable_joiner_id(&[1; 8]);
    handler.disable_all();
    assert_eq!(handler.joiner_pskd(&[1; 8]), None);
    assert_eq!(copy.joiner_pskd(&[1; 8]).as_deref(), Some("SECRET2"));
    assert_eq!(copy.joiner_pskd(&[2; 8]).as_deref(), Some("SECRET1"));
}

fn tlv_value(message: &CoapMessage, ty: u8) -> Option<Vec<u8>> {
    let set = TlvSet::parse(&message.payload).unwrap();
    set.last_value(ty).map(|value| value.to_vec())
}

#[test]
fn commissioner_routes_relay_rx_into_joiner_sessions() {
    let mut handler = RecordingHandler::default();
    let mut session = JoinerSession::new(JOINER_IID, 1000, 0x6800, 0);
    let events = receive(&mut session, &client_hello(0, 0, &[]), &mut handler).unwrap();
    let outputs = relay_outputs(&session, events, None).unwrap();
    let [RelayOutput::Send(relay_tx)] = outputs.as_slice() else {
        panic!("no RLY_TX was sent for the joiner");
    };
    assert_eq!(
        relay_tx.uri_path().unwrap().as_deref(),
        Some(URI_RELAY_TX)
    );
    assert_eq!(
        tlv_value(relay_tx, TLV_JOINER_IID),
        Some(JOINER_IID.to_vec())
    );
    assert_eq!(
        tlv_value(relay_tx, TLV_JOINER_UDP_PORT),
        Some(1000u16.to_be_bytes().to_vec())
    );
    assert_eq!(
        tlv_value(relay_tx, TLV_JOINER_ROUTER_LOCATOR),
        Some(0x6800u16.to_be_bytes().to_vec())
    );
    assert_eq!(tlv_value(relay_tx, TLV_JOINER_ROUTER_KEK), None);
    let encapsulated = tlv_value(relay_tx, TLV_JOINER_DTLS_ENCAPSULATION).unwrap();
    let records = DtlsRecord::parse_datagram(&encapsulated).unwrap();
    parse_unfragmented_handshake_record(&records[0], HandshakeType::HelloVerifyRequest).unwrap();
}

#[test]
fn an_accepted_joiner_is_sent_the_key_and_a_denied_one_is_not() {
    for accept in [true, false] {
        let mut joiner = commission_fake_joiner(accept);
        let events = joiner.receive(&encrypted_join_fin(7)).unwrap();
        let kek = [0x77; 16];
        let outputs = relay_outputs(&joiner.session, events, Some(kek)).unwrap();
        let [RelayOutput::Send(relay_tx), RelayOutput::Publish(event)] = outputs.as_slice() else {
            panic!("expected the response and the event, got {outputs:?}");
        };
        let expected = if accept { Some(kek.to_vec()) } else { None };
        assert_eq!(tlv_value(relay_tx, TLV_JOINER_ROUTER_KEK), expected);
        assert!(matches!(
            event,
            CommissionerEvent::JoinerFinalized { accepted, .. } if *accepted == accept
        ));
    }
    let mut joiner = commission_fake_joiner(true);
    let events = joiner.receive(&encrypted_join_fin(7)).unwrap();
    assert!(relay_outputs(&joiner.session, events, None).is_err());
}

#[test]
fn joiner_session_survives_the_expiry_sweep_between_relay_messages() {
    let mut handler = RecordingHandler::default();
    let mut sessions = JoinerSessions::new();
    let hello = client_hello(0, 0, &[]);
    let mut answers = Vec::new();
    for now in [0, SECOND] {
        sessions.sweep(now);
        let mut session = match sessions.take(&JOINER_IID) {
            Some(session) => session,
            None => JoinerSession::new(JOINER_IID, 1000, 0x6800, now),
        };
        answers.push(receive(&mut session, &hello, &mut handler).unwrap());
        sessions.keep(session);
    }
    assert_eq!(sessions.len(), 1);
    // Each HelloVerifyRequest record mirrors the sequence number of the
    // ClientHello, and the session keeps its cookie.
    assert_eq!(answers[0], answers[1]);

    sessions.sweep(JOINER_SESSION_TIMEOUT);
    assert_eq!(sessions.len(), 0);
    assert!(sessions.take(&JOINER_IID).is_none());
}

#[test]
fn clearing_ends_every_joiner_session() {
    let mut sessions = JoinerSessions::new();
    sessions.keep(JoinerSession::new([1; 8], 1000, 0x6800, 0));
    sessions.keep(JoinerSession::new([2; 8], 1000, 0x6800, 0));
    assert_eq!(sessions.len(), 2);
    assert!(sessions.take(&[1; 8]).is_some());
    assert_eq!(sessions.len(), 1);
    sessions.clear();
    assert_eq!(sessions.len(), 0);
}

#[test]
fn handler_is_not_asked_without_a_finalization() {
    let mut handler = RecordingHandler::default();
    let mut session = JoinerSession::new(JOINER_IID, 1000, 0x6800, 0);

    session.finalize_with(&mut handler).unwrap();

    assert!(handler.finalized.is_empty());
    session.receive(&client_hello(0, 0, &[])).unwrap();
    assert!(matches!(session.next(), JoinerAction::CheckCookie { .. }));
}

#[test]
fn refused_hello_with_an_oversized_cookie_leaves_the_session_as_it_was() {
    let mut session = JoinerSession::new(JOINER_IID, 1000, 0x6800, 0);
    session.receive(&client_hello(0, 0, &[])).unwrap();
    assert!(matches!(session.next(), JoinerAction::CheckCookie { .. }));

    assert!(session.hello_refused(0, 0, vec![0; 256]).is_err());

    let JoinerAction::Done(events) = session.next() else {
        panic!("the payload is done with");
    };
    assert!(events.is_empty());
}

#[test]
fn an_unverified_hello_gets_the_same_answer_twice() {
    let mut handler = RecordingHandler::default();
    let mut session = JoinerSession::new(JOINER_IID, 1000, 0x6800, 0);
    let hello = client_hello(3, 9, &[]);
    let first = receive(&mut session, &hello, &mut handler).unwrap();
    let second = receive(&mut session, &hello, &mut handler).unwrap();
    assert_eq!(first, second);
    let [JoinerSessionEvent::Transmit {
        datagram,
        include_kek: false,
    }] = first.as_slice()
    else {
        panic!("expected one HelloVerifyRequest, got {first:?}");
    };
    let records = DtlsRecord::parse_datagram(datagram).unwrap();
    assert_eq!(records.len(), 1);
    assert_eq!(records[0].header.sequence_number, 9);
    let verify =
        parse_unfragmented_handshake_record(&records[0], HandshakeType::HelloVerifyRequest)
            .unwrap();
    assert_eq!(verify.message_seq, 3);
}

#[test]
fn a_joiner_has_one_session_at_most() {
    let mut sessions = JoinerSessions::new();
    assert!(!sessions.contains(&[1; 8]));
    sessions.keep(JoinerSession::new([1; 8], 1000, 0x6800, 0));
    sessions.keep(JoinerSession::new([2; 8], 1000, 0x6800, 0));
    sessions.keep(JoinerSession::new([1; 8], 2000, 0x6800, SECOND));
    assert_eq!(sessions.len(), 2);
    assert!(sessions.contains(&[1; 8]));
    assert_eq!(sessions.take(&[1; 8]).unwrap().joiner_udp_port(), 2000);
    assert!(!sessions.contains(&[1; 8]));
}

#[test]
fn a_relayed_payload_goes_to_whoever_may_have_it() {
    let mut sessions = JoinerSessions::new();
    assert!(matches!(
        sessions.assign(&JOINER_IID, false, 0),
        Admission::Ignore
    ));
    let Admission::AskForPskd { joiner_id } = sessions.assign(&JOINER_IID, true, 0) else {
        panic!("a joiner without a session has to be asked about");
    };
    assert_eq!(joiner_id, joiner_id_from_iid(&JOINER_IID));
    assert!(begin(false, JOINER_IID, 1000, 0x6800, 0).is_none());
    let session = begin(true, JOINER_IID, 1000, 0x6800, 0).unwrap();
    sessions.settle(session, false);

    let Admission::Serve(session) = sessions.assign(&JOINER_IID, true, SECOND) else {
        panic!("the session takes the payload");
    };
    sessions.settle(session, true);
    assert_eq!(sessions.len(), 0);

    sessions.settle(JoinerSession::new(JOINER_IID, 1000, 0x6800, 0), false);
    assert!(matches!(
        sessions.assign(&JOINER_IID, true, JOINER_SESSION_TIMEOUT),
        Admission::AskForPskd { .. }
    ));
}
