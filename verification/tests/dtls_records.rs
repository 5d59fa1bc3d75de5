//! Records, flights, replay windows, retransmission timing and error texts.

use meshcop::dtls::error::{DriverCause, DriverError, Error};
use meshcop::dtls::flight::{
    is_client_finished_flight, is_retransmitted_server_flight, renumber_epoch_zero_flight,
    take_record_sequence,
};
use meshcop::dtls::handshake::{
    hello_verify_record, parse_unfragmented_handshake_messages,
    parse_unfragmented_handshake_record, ClientHello, HandshakeHeader, HandshakeMessage,
    HandshakeType, HelloVerifyRequest, MAX_U24,
};
use meshcop::dtls::protection::{
    open_aes_128_ccm_8_record, protect_aes_128_ccm_8_record, RecordProtectionKey,
};
use meshcop::dtls::record::{
    ContentType, DtlsRecord, RecordHeader, DTLS_1_2_VERSION, MAX_DATAGRAM_SIZE,
    MAX_SEQUENCE_NUMBER,
};
use meshcop::dtls::replay::ReplayWindow;
use meshcop::dtls::retransmit::{
    delay_duration, driver_initial_retransmit_timeout, DuplicateRetransmitBudget,
    RetransmitSchedule, INITIAL_RETRANSMIT_TIMEOUT, MAX_DUPLICATE_RETRANSMISSIONS, SECOND,
};
use meshcop::dtls::server::{contains_client_hello, take_server_finished_retry};

fn handshake_record(message: &HandshakeMessage, epoch: u16) -> DtlsRecord {
    DtlsRecord::new(
        ContentType::Handshake,
        epoch,
        1,
        message.encode().expect("encode handshake message"),
    )
    .expect("build handshake record")
}

#[test]
fn identifies_only_the_expected_epoch_zero_server_handshake_flight() {
    let server_hello = HandshakeMessage {
        message_type: HandshakeType::ServerHello,
        message_seq: 1,
        payload: Vec::new(),
    };
    let server_record = DtlsRecord::new(
        ContentType::Handshake,
        0,
        1,
        server_hello.clone().encode().expect("encode server hello"),
    )
    .expect("build server record");
    assert!(is_retransmitted_server_flight(
        core::slice::from_ref(&server_record),
        core::slice::from_ref(&server_hello)
    ));

    let mut wrong_epoch = server_record;
    wrong_epoch.header.epoch = 1;
    assert!(!is_retransmitted_server_flight(
        &[wrong_epoch],
        core::slice::from_ref(&server_hello)
    ));
    let application = DtlsRecord::new(ContentType::ApplicationData, 1, 1, Vec::new())
        .expect("build application record");
    assert!(!is_retransmitted_server_flight(
        &[application],
        core::slice::from_ref(&server_hello)
    ));

    let malformed = DtlsRecord::new(ContentType::Handshake, 0, 2, vec![0xff])
        .expect("build malformed handshake record");
    assert!(!is_retransmitted_server_flight(
        &[malformed],
        core::slice::from_ref(&server_hello)
    ));
}

#[derive(Debug)]
struct MockTransportError;

impl MockTransportError {
    fn text(&self) -> &'static str {
        "mock transport failure"
    }
}

#[test]
fn driver_error_display_matches_each_variant() {
    let protocol = DriverError::<MockTransportError>::Protocol(Error::Crypto("boom".into()));
    assert_eq!(protocol.message(""), "crypto error: boom");

    let transport = DriverError::Transport(MockTransportError);
    assert_eq!(
        transport.message(MockTransportError.text()),
        "datagram transport error: mock transport failure"
    );

    let timeout = DriverError::<MockTransportError>::Timeout;
    assert_eq!(timeout.message(""), "DTLS operation timed out");
}

#[test]
fn driver_error_source_only_wraps_inner_errors() {
    let protocol = DriverError::<MockTransportError>::Protocol(Error::Crypto("boom".into()));
    match protocol.source() {
        DriverCause::Protocol(source) => assert_eq!(source.message(), "crypto error: boom"),
        _ => panic!("Protocol must expose its wrapped error as the source"),
    }

    let transport = DriverError::Transport(MockTransportError);
    match transport.source() {
        DriverCause::Transport(source) => assert_eq!(source.text(), "mock transport failure"),
        _ => panic!("Transport must expose its wrapped error as the source"),
    }

    let timeout = DriverError::<MockTransportError>::Timeout;
    assert!(
        matches!(timeout.source(), DriverCause::Absent),
        "Timeout has no wrapped cause to report"
    );
}

#[test]
fn every_error_has_its_text() {
    assert_eq!(Error::Crypto("bad tag".into()).message(), "crypto error: bad tag");
    assert_eq!(Error::InvalidState("too early").message(), "invalid state: too early");
    assert_eq!(Error::Timeout("no answer").message(), "timeout: no answer");
    assert_eq!(Error::PeerClosed.message(), "peer closed the DTLS session");
    assert_eq!(Error::Io("refused".into()).message(), "I/O error: refused");
}

#[test]
fn recv_records_accepts_a_datagram_at_the_maximum_size() {
    let payload_len = MAX_DATAGRAM_SIZE - RecordHeader::LEN;
    let record = DtlsRecord::new(ContentType::Handshake, 0, 0, vec![0xab; payload_len])
        .expect("test record");
    let encoded = record.encode().expect("test record encodes");
    assert_eq!(encoded.len(), MAX_DATAGRAM_SIZE);

    let records = DtlsRecord::accept_datagram(&encoded, encoded.len(), true)
        .expect("a datagram at exactly MAX_DATAGRAM_SIZE must be accepted");
    assert_eq!(records, vec![record]);
}

#[test]
fn recv_records_drops_a_datagram_longer_than_the_buffer() {
    let buffer = vec![0u8; MAX_DATAGRAM_SIZE];
    assert!(
        DtlsRecord::accept_datagram(&buffer, MAX_DATAGRAM_SIZE + 1, true).is_none(),
        "the oversized datagram must be skipped"
    );
    let record = DtlsRecord::new(ContentType::Handshake, 0, 1, vec![0x0e]).expect("record");
    let encoded = record.encode().expect("record encodes");
    assert_eq!(
        DtlsRecord::accept_datagram(&encoded, encoded.len(), true),
        Some(vec![record])
    );
}

#[test]
fn peer_receive_drops_malformed_and_foreign_datagrams() {
    let record = DtlsRecord::new(ContentType::Handshake, 0, 1, vec![0x0e]).expect("record");
    let encoded = record.encode().expect("record encodes");
    let mut truncated = encoded.clone();
    truncated.pop();

    assert!(DtlsRecord::accept_datagram(&[0x16, 0xfe], 2, true).is_none());
    assert!(DtlsRecord::accept_datagram(&truncated, truncated.len(), true).is_none());
    assert!(DtlsRecord::accept_datagram(&encoded, encoded.len(), false).is_none());
    assert_eq!(
        DtlsRecord::accept_datagram(&encoded, encoded.len(), true),
        Some(vec![record])
    );
}

#[test]
fn any_source_receive_drops_malformed_datagrams() {
    let record = DtlsRecord::new(ContentType::Handshake, 0, 1, vec![0x0e]).expect("record");
    let encoded = record.encode().expect("record encodes");
    assert!(DtlsRecord::accept_datagram(&[0xff; 3], 3, true).is_none());
    assert_eq!(
        DtlsRecord::accept_datagram(&encoded, encoded.len(), true),
        Some(vec![record])
    );
}

#[test]
fn recv_records_parses_every_record_in_a_datagram() {
    let first = DtlsRecord::new(ContentType::Handshake, 0, 3, vec![0x0e]).expect("first");
    let second =
        DtlsRecord::new(ContentType::ApplicationData, 1, 4, vec![0xaa, 0xbb]).expect("second");
    let mut datagram = first.encode().expect("first record encodes");
    datagram.extend_from_slice(&second.encode().expect("second record encodes"));

    let records =
        DtlsRecord::accept_datagram(&datagram, datagram.len(), true).expect("scripted receive");
    assert_eq!(records, vec![first, second]);
}

#[test]
fn scripted_transport_drives_record_io_without_a_socket() {
    let record = DtlsRecord::new(ContentType::Handshake, 0, 4, vec![1, 2, 3]).expect("test record");
    let encoded = record.encode().expect("encoded test record");
    let records =
        DtlsRecord::accept_datagram(&encoded, encoded.len(), true).expect("scripted receive");
    assert_eq!(records, vec![record]);
}

#[test]
fn delay_duration_splits_large_durations_into_bounded_chunks() {
    let requested_nanos = 2 * u64::from(u32::MAX) + 1;
    let (full, last) = delay_duration(u128::from(requested_nanos));
    // Two full delays and one of a single nanosecond: three calls.
    assert_eq!((full, last), (2, 1));
    assert_eq!(
        full * u128::from(u32::MAX) + u128::from(last),
        u128::from(requested_nanos)
    );
}

#[test]
fn a_delay_of_full_chunks_has_no_remainder() {
    assert_eq!(delay_duration(0), (0, 0));
    assert_eq!(delay_duration(u128::from(u32::MAX)), (1, 0));
}

#[test]
fn retransmit_schedule_doubles_and_caps_at_sixty_seconds() {
    assert_eq!(
        RetransmitSchedule::with_initial(100_000_000).timeout(),
        100_000_000
    );
    let mut schedule = RetransmitSchedule::with_initial(INITIAL_RETRANSMIT_TIMEOUT);
    let expected = [1, 2, 4, 8, 16, 32, 60, 60];
    for seconds in expected {
        assert_eq!(schedule.timeout(), seconds * SECOND);
        schedule.back_off();
    }
}

#[test]
fn production_retransmit_interval_is_one_second() {
    assert_eq!(driver_initial_retransmit_timeout(), SECOND);
    assert_eq!(RetransmitSchedule::new().timeout(), SECOND);
}

#[test]
fn duplicate_retransmit_budget_stops_after_four_responses() {
    let mut budget = DuplicateRetransmitBudget::new();
    for _ in 0..MAX_DUPLICATE_RETRANSMISSIONS {
        assert!(budget.take());
    }
    assert!(!budget.take());
}

#[test]
fn renumbers_only_plaintext_records_in_flight_order() {
    let mut flight = vec![
        DtlsRecord::new(ContentType::Handshake, 0, 0, vec![1]).expect("first"),
        DtlsRecord::new(ContentType::Handshake, 1, 9, vec![2]).expect("protected"),
        DtlsRecord::new(ContentType::ChangeCipherSpec, 0, 1, vec![1]).expect("second"),
    ];
    let mut next = 5;
    renumber_epoch_zero_flight(&mut flight, &mut next);
    let sequences = flight
        .iter()
        .map(|record| record.header.sequence_number)
        .collect::<Vec<_>>();
    assert_eq!(sequences, [5, 9, 6]);
    assert_eq!(next, 7);
}

#[test]
fn taking_a_record_sequence_moves_to_the_next() {
    let mut next = 5;
    assert_eq!(take_record_sequence(&mut next), 5);
    assert_eq!(next, 6);
}

#[test]
fn flight_recognizes_each_meaningful_client_finished_flight_record() {
    let key_exchange = HandshakeMessage {
        message_type: HandshakeType::ClientKeyExchange,
        message_seq: 2,
        payload: Vec::new(),
    };
    assert!(is_client_finished_flight(&[handshake_record(
        &key_exchange,
        0
    )]));

    let server_hello = HandshakeMessage {
        message_type: HandshakeType::ServerHello,
        message_seq: 1,
        payload: Vec::new(),
    };
    assert!(!is_client_finished_flight(&[handshake_record(
        &server_hello,
        0
    )]));
    let encrypted_finished =
        DtlsRecord::new(ContentType::Handshake, 1, 1, vec![0xaa]).expect("finished record");
    assert!(is_client_finished_flight(&[encrypted_finished]));
    let change_cipher_spec =
        DtlsRecord::new(ContentType::ChangeCipherSpec, 0, 2, vec![1]).expect("CCS record");
    assert!(!is_client_finished_flight(&[change_cipher_spec]));
}

#[test]
fn server_driver_recognizes_each_meaningful_client_finished_flight_record() {
    let key_exchange = HandshakeMessage {
        message_type: HandshakeType::ClientKeyExchange,
        message_seq: 2,
        payload: Vec::new(),
    };
    assert!(is_client_finished_flight(&[handshake_record(
        &key_exchange,
        0
    )]));

    let server_hello = HandshakeMessage {
        message_type: HandshakeType::ServerHello,
        message_seq: 1,
        payload: Vec::new(),
    };
    assert!(!is_client_finished_flight(&[handshake_record(
        &server_hello,
        0
    )]));
    let encrypted_finished =
        DtlsRecord::new(ContentType::Handshake, 1, 1, vec![0xaa]).expect("finished record");
    assert!(is_client_finished_flight(&[encrypted_finished]));
    let change_cipher_spec =
        DtlsRecord::new(ContentType::ChangeCipherSpec, 0, 2, vec![1]).expect("CCS record");
    assert!(!is_client_finished_flight(&[change_cipher_spec]));
}

#[test]
fn detects_in_window_replays_and_preserves_bits() {
    let mut window = ReplayWindow::new();
    assert!(!window.has_seen(100)); // empty window has seen nothing

    window.mark_seen(10);
    assert!(window.has_seen(10));
    assert!(!window.has_seen(11)); // future sequence
    assert!(!window.has_seen(9)); // older, never marked

    window.mark_seen(12); // newer: window slides left by two, bit 2 holds 10
    assert!(window.has_seen(12));
    assert!(window.has_seen(10));
    assert!(!window.has_seen(11)); // gap stays unseen
    assert!(!window.has_seen(9)); // beyond the marked bits, still unseen
    assert!(!window.has_seen(13)); // future

    window.mark_seen(11); // older within window: fills the gap
    assert!(window.has_seen(11));
    assert!(window.has_seen(10)); // neighbouring bits untouched
    assert!(window.has_seen(12));
}

#[test]
fn handles_window_edges() {
    // An older sequence two positions back must set bit two.
    let mut window = ReplayWindow::default();
    window.mark_seen(20);
    window.mark_seen(18);
    assert!(window.has_seen(18));
    assert!(!window.has_seen(19));
    assert!(window.has_seen(20));

    // A jump of exactly the window width resets the bitmap to the newest
    // sequence only.
    let width = u64::BITS as u64;
    let mut window = ReplayWindow::new();
    window.mark_seen(1);
    window.mark_seen(1 + width); // shift == 64 resets rather than shifting
    assert!(window.has_seen(1 + width));
    assert!(window.has_seen(1)); // offset == 64 is treated as too old to trust
    assert!(!window.has_seen(2)); // within the fresh window but never marked
    window.mark_seen(1); // offset == 64 must be a no-op, not a 1 << 64 shift
    assert!(!window.has_seen(2));
}

#[test]
fn remarking_a_seen_sequence_does_not_clear_its_bit() {
    let mut window = ReplayWindow::new();
    window.mark_seen(10);
    window.mark_seen(12); // seen = 0b101; bit 2 holds sequence 10
    window.mark_seen(10); // re-mark the already-set bit
    assert!(window.has_seen(10));
    assert!(window.has_seen(12));
}

#[test]
fn replay_window_preserves_gaps_and_marks_older_sequences() {
    let mut window = ReplayWindow::default();
    assert!(!window.has_seen(10));
    window.mark_seen(10);
    window.mark_seen(12);
    assert!(window.has_seen(10));
    assert!(!window.has_seen(11));
    assert!(window.has_seen(12));
    assert!(!window.has_seen(13));

    window.mark_seen(11);
    assert!(window.has_seen(10));
    assert!(window.has_seen(11));
    assert!(window.has_seen(12));
    window.mark_seen(10);
    assert!(window.has_seen(10));
    assert!(window.has_seen(12));
}

#[test]
fn replay_window_handles_both_edges_of_its_bitmap() {
    let width = u64::BITS as u64;
    let mut window = ReplayWindow::default();
    window.mark_seen(1);
    window.mark_seen(1 + width);
    assert!(window.has_seen(1 + width));
    assert!(window.has_seen(1));
    assert!(!window.has_seen(2));
    window.mark_seen(1);
    assert!(!window.has_seen(2));

    let mut nearby = ReplayWindow::default();
    nearby.mark_seen(20);
    nearby.mark_seen(18);
    assert!(nearby.has_seen(18));
    assert!(!nearby.has_seen(19));
    assert!(nearby.has_seen(20));
}

#[test]
fn duplicate_client_hello_requires_the_expected_epoch_zero_handshake() {
    let expected = HandshakeMessage {
        message_type: HandshakeType::ClientHello,
        message_seq: 1,
        payload: vec![1, 2, 3],
    };
    let record = handshake_record(&expected, 0);
    assert!(contains_client_hello(
        core::slice::from_ref(&record),
        &expected
    ));

    let wrong_epoch = handshake_record(&expected, 1);
    assert!(!contains_client_hello(&[wrong_epoch], &expected));
    let wrong_content = DtlsRecord::new(
        ContentType::ApplicationData,
        0,
        1,
        expected.encode().expect("encode handshake message"),
    )
    .expect("build wrong-content record");
    assert!(!contains_client_hello(&[wrong_content], &expected));
}

#[test]
fn server_finished_retry_requires_cached_data_client_flight_and_budget() {
    let key_exchange = HandshakeMessage {
        message_type: HandshakeType::ClientKeyExchange,
        message_seq: 2,
        payload: Vec::new(),
    };
    let client_finished = handshake_record(&key_exchange, 0);
    let application = DtlsRecord::new(ContentType::ApplicationData, 1, 1, vec![0xaa])
        .expect("application record");

    let mut budget = DuplicateRetransmitBudget::new();
    assert!(!take_server_finished_retry(
        &[],
        core::slice::from_ref(&client_finished),
        &mut budget,
    ));
    assert!(!take_server_finished_retry(
        b"cached Finished",
        &[application],
        &mut budget,
    ));
    for _ in 0..MAX_DUPLICATE_RETRANSMISSIONS {
        assert!(take_server_finished_retry(
            b"cached Finished",
            core::slice::from_ref(&client_finished),
            &mut budget,
        ));
    }
    assert!(!take_server_finished_retry(
        b"cached Finished",
        &[client_finished],
        &mut budget,
    ));
}

#[test]
fn handshake_header_validate_rejects_oversized_lengths() {
    // A length above the 24-bit field must fail validation even when the
    // fragment bounds are individually small.
    let header = HandshakeHeader {
        message_type: HandshakeType::ClientHello,
        length: MAX_U24 + 1,
        message_seq: 0,
        fragment_offset: 0,
        fragment_length: 0,
    };
    assert!(header.validate().is_err());

    let header = HandshakeHeader {
        message_type: HandshakeType::ClientHello,
        length: 4,
        message_seq: 0,
        fragment_offset: MAX_U24 + 1,
        fragment_length: 0,
    };
    assert!(header.validate().is_err());
}

#[test]
fn a_record_is_thirteen_bytes_and_its_payload() {
    let record =
        DtlsRecord::new(ContentType::Handshake, 1, 0x0102_0304_0506, vec![0xaa]).expect("record");
    assert_eq!(
        record.encode().expect("encodes"),
        vec![22, 0xfe, 0xfd, 0, 1, 1, 2, 3, 4, 5, 6, 0, 1, 0xaa]
    );
    assert_eq!(record.header.version, DTLS_1_2_VERSION);
}

#[test]
fn a_record_sequence_number_has_forty_eight_bits() {
    assert!(DtlsRecord::new(ContentType::Handshake, 0, MAX_SEQUENCE_NUMBER, vec![]).is_ok());
    assert!(DtlsRecord::new(ContentType::Handshake, 0, MAX_SEQUENCE_NUMBER + 1, vec![]).is_err());
    assert!(DtlsRecord::new(ContentType::Handshake, 0, 0, vec![0; 0x1_0000]).is_err());
}

#[test]
fn what_was_encoded_is_parsed_again() {
    let records = vec![
        DtlsRecord::new(ContentType::Alert, 0, 7, vec![2, 40]).expect("alert"),
        DtlsRecord::new(ContentType::ChangeCipherSpec, 0, 8, vec![1]).expect("change"),
    ];
    let datagram = DtlsRecord::encode_datagram(&records).expect("encodes");
    assert_eq!(DtlsRecord::parse_datagram(&datagram).expect("parses"), records);
}

#[test]
fn a_handshake_message_is_twelve_bytes_and_its_payload() {
    let message = HandshakeMessage {
        message_type: HandshakeType::ClientKeyExchange,
        message_seq: 0x0203,
        payload: vec![9, 8],
    };
    let encoded = message.encode().expect("encodes");
    assert_eq!(encoded, vec![16, 0, 0, 2, 2, 3, 0, 0, 0, 0, 0, 2, 9, 8]);
    let record = DtlsRecord::new(ContentType::Handshake, 0, 0, encoded).expect("record");
    assert_eq!(
        parse_unfragmented_handshake_messages(&record).expect("parses"),
        vec![message.clone()]
    );
    assert_eq!(
        parse_unfragmented_handshake_record(&record, HandshakeType::ClientKeyExchange)
            .expect("the type is expected"),
        message
    );
    assert!(parse_unfragmented_handshake_record(&record, HandshakeType::Finished).is_err());
}

#[test]
fn a_hello_verify_request_echoes_the_hello_sequence_numbers() {
    let record = hello_verify_record(3, 17, vec![0xc0, 0x0c]).expect("record");
    assert_eq!(record.header.sequence_number, 17);
    assert_eq!(record.header.epoch, 0);
    let message =
        parse_unfragmented_handshake_record(&record, HandshakeType::HelloVerifyRequest).unwrap();
    assert_eq!(message.message_seq, 3);
    assert_eq!(
        message.payload,
        HelloVerifyRequest {
            server_version: DTLS_1_2_VERSION,
            cookie: vec![0xc0, 0x0c],
        }
        .encode()
        .unwrap()
    );
    assert!(hello_verify_record(3, 17, vec![0; 256]).is_err());
}

#[test]
fn a_client_hello_yields_its_random_and_its_cookie() {
    let mut body = vec![0xfe, 0xfd];
    body.extend_from_slice(&[0x5a; 32]);
    body.push(0); // no session
    body.extend_from_slice(&[2, 0xca, 0xfe]); // cookie
    body.extend_from_slice(&[0, 2, 0xc0, 0xff]); // cipher suites
    body.extend_from_slice(&[1, 0]); // compression
    let hello = ClientHello::decode(&body).expect("decodes");
    assert_eq!(hello.random, vec![0x5a; 32]);
    assert_eq!(hello.cookie, vec![0xca, 0xfe]);
    assert!(ClientHello::decode(&body[..30]).is_err());
}

#[test]
fn a_protected_record_opens_only_with_its_own_key_and_header() {
    let key = RecordProtectionKey::new([0x21; 16]);
    let iv = [0x43; 4];
    let record = protect_aes_128_ccm_8_record(
        ContentType::ApplicationData,
        1,
        5,
        key.clone(),
        &iv,
        b"plain text",
    )
    .expect("protects");
    // Explicit nonce, the text and an eight-byte tag.
    assert_eq!(record.payload.len(), 8 + 10 + 8);
    assert_eq!(&record.payload[..8], &[0, 1, 0, 0, 0, 0, 0, 5]);
    assert_ne!(&record.payload[8..18], b"plain text");
    assert_eq!(
        open_aes_128_ccm_8_record(&record, key.clone(), &iv).expect("opens"),
        b"plain text"
    );

    let other_key = RecordProtectionKey::new([0x22; 16]);
    assert!(open_aes_128_ccm_8_record(&record, other_key, &iv).is_err());
    assert!(open_aes_128_ccm_8_record(&record, key.clone(), &[0x44; 4]).is_err());
    let mut other_type = record.clone();
    other_type.header.content_type = ContentType::Alert;
    assert!(open_aes_128_ccm_8_record(&other_type, key.clone(), &iv).is_err());
    let mut short = record;
    short.payload.truncate(15);
    assert!(open_aes_128_ccm_8_record(&short, key.clone(), &iv).is_err());
}
