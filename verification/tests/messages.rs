//! CoAP, TLV and MeshCoP messages on the wire.

use meshcop::bytes::{copy_range, get_be, put_be, same_bytes};
use meshcop::commissioner::coap::{CoapCode, CoapMessage, CoapOption, CoapType, CODE_CHANGED};
use meshcop::commissioner::error::Error;
use meshcop::commissioner::messages::{
    check_state_response, keep_alive_request, parse_notification, parse_petition_response,
    parse_state_response, parse_udp_rx, petition_request, relay_tx_request,
    require_success_response, udp_tx_request, MeshcopNotification, MeshcopState,
    TLV_CHANNEL_MASK, TLV_COMMISSIONER_SESSION_ID, TLV_ENERGY_LIST, TLV_IPV6_ADDRESS,
    TLV_PAN_ID, TLV_STATE, TLV_UDP_ENCAPSULATION, URI_DATASET_CHANGED, URI_DIAG_GET_ANSWER,
    URI_ENERGY_REPORT, URI_KEEP_ALIVE, URI_PANID_CONFLICT, URI_PETITION, URI_UDP_RX, URI_UDP_TX,
};
use meshcop::commissioner::requests::{
    leader_aloc, mesh_local_prefix_of, primary_bbr_aloc, proxied_command_result, send_to_joiner,
    session_id_required, state_operation_result,
};
use meshcop::commissioner::tlv::{TlvEntry, TlvSet};
use meshcop::commissioner::types::SessionStatus;
use meshcop::text::{append_decimal, utf8_text};

fn post(path: &str, payload: Vec<u8>) -> CoapMessage {
    CoapMessage::post_request(CoapType::Confirmable, 0x1234, vec![0xab], path, payload)
}

fn response(payload: Vec<u8>) -> CoapMessage {
    CoapMessage {
        payload,
        ..CoapMessage::empty_changed_response(&post(URI_KEEP_ALIVE, Vec::new()))
    }
}

#[test]
fn big_endian_numbers_come_back() {
    let mut out = Vec::new();
    put_be(&mut out, 0x0102_03, 4);
    assert_eq!(out, [0, 1, 2, 3]);
    assert_eq!(get_be(&out, 1, 3), 0x0102_03);
    assert_eq!(copy_range(&out, 1, 3), [1, 2]);
    assert!(same_bytes(&out, &[0, 1, 2, 3]));
    assert!(!same_bytes(&out, &[0, 1, 2]));
}

#[test]
fn texts_are_utf8_and_numbers_decimal() {
    assert_eq!(utf8_text(b"Acme").as_deref(), Some("Acme"));
    assert_eq!(utf8_text(&[0xff, 0xfe]), None);
    let mut text = String::from("n=");
    append_decimal(&mut text, 0);
    append_decimal(&mut text, 1207);
    assert_eq!(text, "n=01207");
}

#[test]
fn a_coap_request_is_encoded_byte_by_byte() {
    let message = post("c/cp", vec![1, 2]);
    let bytes = message.encode().unwrap();
    assert_eq!(
        bytes,
        [0x41, 0x02, 0x12, 0x34, 0xab, 0xb1, b'c', 0x02, b'c', b'p', 0xff, 1, 2]
    );
    let decoded = CoapMessage::decode(&bytes).unwrap();
    assert_eq!(decoded, message);
    assert_eq!(decoded.uri_path().unwrap().as_deref(), Some("c/cp"));
    assert!(decoded.path_is("c/cp").unwrap());
    assert!(!decoded.path_is("c/ca").unwrap());
}

#[test]
fn long_options_use_extended_lengths() {
    for length in [12, 13, 268, 269, 300] {
        let message = CoapMessage {
            options: vec![
                CoapOption {
                    number: 11,
                    value: vec![0x61; length],
                },
                CoapOption {
                    number: 1000,
                    value: vec![0x62],
                },
            ],
            ..CoapMessage::empty_ack(7)
        };
        let bytes = message.encode().unwrap();
        assert_eq!(CoapMessage::decode(&bytes).unwrap(), message);
    }
}

#[test]
fn malformed_coap_is_refused() {
    for bytes in [
        &[][..],
        &[0x40, 0x02, 0x12],
        // Version 0.
        &[0x00, 0x02, 0x12, 0x34],
        // A token of nine bytes.
        &[0x49, 0x02, 0x12, 0x34, 1, 2, 3, 4, 5, 6, 7, 8, 9],
        // A payload marker without a payload.
        &[0x40, 0x02, 0x12, 0x34, 0xff],
        // An option behind the end.
        &[0x40, 0x02, 0x12, 0x34, 0xb4, b'c'],
    ] {
        assert!(
            matches!(CoapMessage::decode(bytes), Err(Error::Coap(_))),
            "{bytes:?}"
        );
    }
    let oversized = CoapMessage {
        token: vec![0; 9],
        ..CoapMessage::empty_ack(1)
    };
    assert!(matches!(oversized.encode(), Err(Error::Coap(_))));
}

#[test]
fn acknowledgements_and_resets_are_told_apart() {
    let ack = CoapMessage::empty_ack(7);
    assert!(ack.is_empty_ack_for(7));
    assert!(!ack.is_empty_ack_for(8));
    assert!(!ack.is_reset_for(7));
    let reset = CoapMessage {
        ty: CoapType::Reset,
        ..CoapMessage::empty_ack(7)
    };
    assert!(reset.is_reset_for(7));
    assert!(!reset.is_empty_ack_for(7));
}

#[test]
fn a_changed_response_answers_its_request() {
    let request = post(URI_KEEP_ALIVE, vec![9]);
    let changed = CoapMessage::empty_changed_response(&request);
    assert_eq!(changed.ty, CoapType::Acknowledgement);
    assert_eq!(changed.code, CoapCode(CODE_CHANGED));
    assert_eq!(changed.message_id, request.message_id);
    assert!(changed.same_token(&request));
    assert!(changed.payload.is_empty());
}

#[test]
fn tlv_lengths_grow_to_two_bytes_at_255() {
    let mut out = Vec::new();
    TlvEntry::new(5, &[7; 254]).encode(&mut out).unwrap();
    assert_eq!(&out[..2], &[5, 254]);
    let mut out = Vec::new();
    TlvEntry::new(5, &[7; 255]).encode(&mut out).unwrap();
    assert_eq!(&out[..4], &[5, 0xff, 0, 255]);
    let set = TlvSet::parse(&out).unwrap();
    assert_eq!(set.last_value(5).unwrap().len(), 255);
    let mut out = Vec::new();
    assert!(TlvEntry::new(5, &[0; 0x1_0000]).encode(&mut out).is_err());
}

#[test]
fn the_last_of_equal_tlvs_counts() {
    let set = TlvSet::parse(&[1, 1, 0xaa, 2, 0, 1, 1, 0xbb]).unwrap();
    assert_eq!(set.last_value(1), Some(&[0xbb][..]));
    assert_eq!(set.last_value(2), Some(&[][..]));
    assert_eq!(set.last_value(3), None);
    for malformed in [&[1][..], &[1, 2, 0], &[1, 0xff, 0], &[1, 0xff, 1, 0, 0]] {
        assert!(matches!(TlvSet::parse(malformed), Err(Error::Dataset(_))));
    }
}

#[test]
fn states_are_read_and_judged() {
    for (byte, state) in [
        (1, MeshcopState::Accept),
        (0, MeshcopState::Pending),
        (0xff, MeshcopState::Reject),
    ] {
        let answer = response(vec![TLV_STATE, 1, byte]);
        assert_eq!(parse_state_response(&answer, true).unwrap(), Some(state));
        assert_eq!(state.to_wire(), byte);
        assert_eq!(
            check_state_response(&answer, true).is_ok(),
            state == MeshcopState::Accept
        );
    }
    let absent = response(Vec::new());
    assert!(parse_state_response(&absent, true).is_err());
    assert_eq!(parse_state_response(&absent, false).unwrap(), None);
    assert!(check_state_response(&absent, false).is_ok());
    assert!(parse_state_response(&response(vec![TLV_STATE, 1, 2]), false).is_err());
}

#[test]
fn error_codes_are_no_success() {
    let mut answer = response(Vec::new());
    assert!(require_success_response(answer.clone()).is_ok());
    answer.code = CoapCode(0x84);
    assert!(matches!(
        require_success_response(answer),
        Err(Error::InvalidState(
            "MeshCoP exchange returned a CoAP error response"
        ))
    ));
}

#[test]
fn a_petition_answer_names_the_session_or_the_other_commissioner() {
    let accepted =
        parse_petition_response(&response(vec![TLV_STATE, 1, 1, 11, 2, 0x12, 0x34])).unwrap();
    assert_eq!(accepted.state, MeshcopState::Accept);
    assert_eq!(accepted.session_id, Some(0x1234));
    let rejected =
        parse_petition_response(&response(vec![TLV_STATE, 1, 0xff, 10, 2, b'o', b'k'])).unwrap();
    assert_eq!(rejected.state, MeshcopState::Reject);
    assert_eq!(rejected.existing_commissioner_id.as_deref(), Some("ok"));
    assert!(parse_petition_response(&response(vec![TLV_STATE, 1, 1, 11, 1, 0x12])).is_err());
    assert!(parse_petition_response(&response(vec![TLV_STATE, 1, 0xff, 10, 1, 0xff])).is_err());
}

#[test]
fn requests_carry_their_tlvs() {
    let petition = petition_request("me").unwrap();
    assert!(petition.path_is(URI_PETITION).unwrap());
    assert_eq!(petition.payload, [10, 2, b'm', b'e']);
    let keep_alive = keep_alive_request(0x1234, true);
    assert!(keep_alive.path_is(URI_KEEP_ALIVE).unwrap());
    let set = TlvSet::parse(&keep_alive.payload).unwrap();
    assert_eq!(set.last_value(TLV_STATE), Some(&[1][..]));
    assert_eq!(
        set.last_value(TLV_COMMISSIONER_SESSION_ID),
        Some(&[0x12, 0x34][..])
    );
    let resign = keep_alive_request(0x1234, false);
    let set = TlvSet::parse(&resign.payload).unwrap();
    assert_eq!(set.last_value(TLV_STATE), Some(&[0xff][..]));
}

#[test]
fn what_goes_out_through_the_proxy_comes_in_alike() {
    let address = [0xfd; 16];
    let sent = udp_tx_request(address, 61631, b"inner").unwrap();
    assert!(sent.path_is(URI_UDP_TX).unwrap());
    let set = TlvSet::parse(&sent.payload).unwrap();
    assert_eq!(set.last_value(TLV_IPV6_ADDRESS), Some(&address[..]));
    let encapsulated = set.last_value(TLV_UDP_ENCAPSULATION).unwrap();
    assert_eq!(&encapsulated[..4], &[0xf0, 0xbf, 0xf0, 0xbf]);
    assert_eq!(&encapsulated[4..], b"inner");

    let received = post(URI_UDP_RX, sent.payload.clone());
    let udp = parse_udp_rx(&received).unwrap().unwrap();
    assert_eq!(udp.source_address, address);
    assert_eq!(udp.destination_port, 61631);
    assert_eq!(udp.payload, b"inner");
    assert!(parse_udp_rx(&sent).unwrap().is_none());
    assert!(parse_udp_rx(&post(URI_UDP_RX, Vec::new())).is_err());
}

#[test]
fn notifications_are_recognized_by_their_path() {
    assert!(matches!(
        parse_notification(&post(URI_DATASET_CHANGED, Vec::new())).unwrap(),
        Some(MeshcopNotification::DatasetChanged)
    ));
    assert!(matches!(
        parse_notification(&post(URI_DIAG_GET_ANSWER, vec![1, 2, 0x80, 0])).unwrap(),
        Some(MeshcopNotification::DiagGetAnswer { data }) if data == [1, 2, 0x80, 0]
    ));
    let mask = [0, 4, 0x00, 0x1f, 0xff, 0xe0];
    let mut payload = vec![TLV_CHANNEL_MASK, 6];
    payload.extend_from_slice(&mask);
    let mut conflict = payload.clone();
    conflict.extend_from_slice(&[TLV_PAN_ID, 2, 0xfa, 0xce]);
    assert!(matches!(
        parse_notification(&post(URI_PANID_CONFLICT, conflict)).unwrap(),
        Some(MeshcopNotification::PanIdConflict { pan_id: 0xface, .. })
    ));
    payload.extend_from_slice(&[TLV_ENERGY_LIST, 2, 0xb0, 0xb1]);
    assert!(matches!(
        parse_notification(&post(URI_ENERGY_REPORT, payload)).unwrap(),
        Some(MeshcopNotification::EnergyReport { energy_list, .. }) if energy_list == [0xb0, 0xb1]
    ));
    assert!(parse_notification(&post("c/zz", Vec::new())).unwrap().is_none());
    assert!(parse_notification(&post(URI_PANID_CONFLICT, Vec::new())).is_err());
}

#[test]
fn a_relayed_datagram_names_its_joiner() {
    let relayed = relay_tx_request(&[7; 8], 1000, 0x6800, b"flight", Some(&[9; 16])).unwrap();
    let set = TlvSet::parse(&relayed.payload).unwrap();
    assert_eq!(set.last_value(19), Some(&[7; 8][..]));
    assert_eq!(set.last_value(18), Some(&[0x03, 0xe8][..]));
    assert_eq!(set.last_value(20), Some(&[0x68, 0x00][..]));
    assert_eq!(set.last_value(17), Some(&b"flight"[..]));
    assert_eq!(set.last_value(21), Some(&[9; 16][..]));
    let plain = send_to_joiner(&[7; 8], 1000, b"flight").unwrap();
    assert!(!plain.expect_response);
}

#[test]
fn anycast_addresses_follow_the_mesh_local_prefix() {
    let prefix = [0xfd, 1, 2, 3, 4, 5, 6, 7];
    let mut expected = [0u8; 16];
    expected[..8].copy_from_slice(&prefix);
    expected[11] = 0xff;
    expected[12] = 0xfe;
    expected[14] = 0xfc;
    assert_eq!(leader_aloc(prefix), expected);
    expected[15] = 0x38;
    assert_eq!(primary_bbr_aloc(prefix), expected);
}

#[test]
fn a_mesh_local_prefix_is_unique_local() {
    let raw = [7, 8, 0xfd, 1, 2, 3, 4, 5, 6, 7];
    assert_eq!(
        mesh_local_prefix_of(&raw).unwrap(),
        [0xfd, 1, 2, 3, 4, 5, 6, 7]
    );
    let global = [7, 8, 0x20, 1, 2, 3, 4, 5, 6, 7];
    assert!(mesh_local_prefix_of(&global).is_err());
    assert!(mesh_local_prefix_of(&[]).is_err());
}

#[test]
fn outcomes_become_results() {
    let accepted = response(vec![TLV_STATE, 1, 1]);
    assert!(state_operation_result(Ok(Some(accepted.clone())), true).is_ok());
    assert!(state_operation_result(Ok(None), true).is_err());
    assert!(state_operation_result(Err(Error::SessionClosed), true).is_err());
    assert!(proxied_command_result(Ok(None)).is_ok());
    let rejected = response(vec![TLV_STATE, 1, 0xff]);
    assert!(matches!(
        state_operation_result(Ok(Some(rejected)), true),
        Err(Error::InvalidState("MeshCoP request was rejected"))
    ));
}

#[test]
fn a_session_id_needs_an_active_session() {
    assert_eq!(
        session_id_required(&SessionStatus::Active { session_id: 7 }).unwrap(),
        7
    );
    assert!(matches!(
        session_id_required(&SessionStatus::Connected),
        Err(Error::InvalidState("commissioner session is not active"))
    ));
}
