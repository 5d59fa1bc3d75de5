//! What messages look like on the wire, and what is read from them.

use vstd::prelude::*;
use vstd::utf8::{decode_utf8, encode_utf8, valid_utf8};

use crate::bytes::{
    be_bytes, be_value, high_low, law_the_most_significant_byte_is_first,
};
use crate::commissioner::coap::{
    message_in, options_encoding, CoapType, CoapView, OptionView,
};
use crate::commissioner::driver::parts::RelayOutputView;
use crate::commissioner::error::ErrorView;
use crate::commissioner::joiner::{JoinerEventView, JoinerView};
use crate::commissioner::joiner_laws::{
    after_calls, law_traffic_does_not_extend_a_session, JoinerCall,
};
use crate::commissioner::joiner_sessions::output_of;
use crate::commissioner::messages::{
    event_of, has_path, join_path, keep_alive, law_path_options_give_the_path, notification_in,
    path_segments, petition, petition_answer_in, post, relay_tx_payload, state_in,
    udp_rx_in, udp_tx, MeshcopState, NotificationView,
};
use crate::commissioner::tlv::{
    last_value_of, law_tlvs_round_trip, tlvs_encoding, tlvs_in, TlvView,
};
use crate::commissioner::types::EventView;

verus! {

/// A TLV of the type with the value.
pub open spec fn tlv(ty: u8, value: Seq<u8>) -> TlvView {
    TlvView { ty, value }
}

/// Whether the payload of a message is exactly these TLVs.
pub open spec fn holds(message: CoapView, tlvs: Seq<TlvView>) -> bool {
    tlvs_in(message.payload) == Some(tlvs)
}

/// Whether a message is a POST request with the path and nothing assigned yet.
pub open spec fn is_request(message: CoapView, ty: CoapType, path: Seq<char>) -> bool {
    &&& message.ty == ty
    &&& message.code == 2
    &&& message.message_id == 0
    &&& message.token.len() == 0
    &&& has_path(message, path)
}

/// A TLV is its type, its length and its value: one byte of length, or, for 255
/// bytes and more, 0xff and two bytes.
pub proof fn law_a_tlv_is_type_length_value(tlv: TlvView)
    requires
        tlv.value.len() <= 0xffff,
    ensures
        tlv.value.len() < 255 ==> tlv.encoding() == seq![tlv.ty, tlv.value.len() as u8]
            + tlv.value,
        tlv.value.len() >= 255 ==> tlv.encoding() == seq![tlv.ty, 0xffu8] + high_low(
            tlv.value.len(),
        ) + tlv.value,
{
    law_the_most_significant_byte_is_first(tlv.value.len(), 0, 0, 0, 0);
}

/// Where a type occurs several times its last TLV counts; a type that does not
/// occur has no value.
pub proof fn law_the_last_tlv_of_a_type_counts(before: Seq<TlvView>, one: TlvView, after: Seq<TlvView>)
    requires
        forall|i: int| 0 <= i < after.len() ==> (#[trigger] after[i]).ty != one.ty,
    ensures
        last_value_of(before + seq![one] + after, one.ty) == Some(one.value),
        last_value_of(after, one.ty) is None,
    decreases after.len(),
{
    let all = before + seq![one] + after;
    if after.len() > 0 {
        let shorter = after.drop_last();
        assert forall|i: int| 0 <= i < shorter.len() implies (#[trigger] shorter[i]).ty
            != one.ty by {
            assert(shorter[i] == after[i]);
        }
        law_the_last_tlv_of_a_type_counts(before, one, shorter);
        assert(all.drop_last() =~= before + seq![one] + shorter);
        assert(all.last() == after[after.len() - 1]);
        assert(after.last() == after[after.len() - 1]);
    } else {
        assert(all.last() == one);
    }
}

/// The path of a message is what its Uri-Path options hold, with slashes
/// between them.
pub proof fn law_a_path_is_its_segments(message: CoapView, first: Seq<u8>, second: Seq<u8>)
    requires
        message.options == seq![
            OptionView { number: 11, value: first },
            OptionView { number: 11, value: second },
        ],
        valid_utf8(first + seq![0x2fu8] + second),
    ensures
        has_path(message, decode_utf8(first + seq![0x2fu8] + second)),
{
    reveal_with_fuel(path_segments, 3);
    reveal_with_fuel(join_path, 3);
    let options = message.options;
    assert(options.drop_last() =~= seq![options[0]]);
    assert(seq![options[0]].drop_last() =~= Seq::empty());
    let segments = path_segments(options);
    assert(segments =~= seq![first, second]);
    assert(segments.drop_last() =~= seq![first]);
    assert(join_path(segments) =~= first + seq![0x2fu8] + second);
}

pub(crate) proof fn lemma_u16(n: u16)
    ensures
        be_bytes(n as nat, 2) == high_low(n as nat),
        be_value(high_low(n as nat)) == n,
        high_low(n as nat).len() == 2,
{
    law_the_most_significant_byte_is_first(n as nat, (n / 256) as u8, (n % 256) as u8, 0, 0);
}

/// A payload that a joiner router relayed is read with the joiner's port, the
/// router's locator, the joiner's IID and the payload from the TLVs of these
/// types.
pub proof fn law_a_relayed_payload_is_read(
    message: CoapView,
    tlvs: Seq<TlvView>,
    port: u16,
    locator: u16,
    iid: Seq<u8>,
    payload: Seq<u8>,
)
    requires
        has_path(message, "c/rx"@),
        holds(message, tlvs),
        last_value_of(tlvs, 18) == Some(high_low(port as nat)),
        last_value_of(tlvs, 20) == Some(high_low(locator as nat)),
        last_value_of(tlvs, 19) == Some(iid),
        iid.len() == 8,
        last_value_of(tlvs, 17) == Some(payload),
    ensures
        notification_in(message) == Ok::<Option<NotificationView>, ErrorView>(
            Some(
                NotificationView::RelayRx {
                    joiner_udp_port: port,
                    joiner_router_locator: locator,
                    joiner_iid: iid,
                    payload,
                },
            ),
        ),
        event_of(notification_in(message)->Ok_0->0, Seq::empty()) == (EventView::JoinerMessage {
            joiner_id: iid,
            port,
            payload,
        }),
{
    lemma_paths();
    lemma_u16(port);
    lemma_u16(locator);
}

/// The paths of notifications differ.
pub(crate) proof fn lemma_paths()
    ensures
        "c/dc"@ != "d/da"@,
        "c/dc"@ != "c/pc"@,
        "c/dc"@ != "c/er"@,
        "c/dc"@ != "c/rx"@,
        "c/dc"@ != "c/ur"@,
        "d/da"@ != "c/pc"@,
        "d/da"@ != "c/er"@,
        "d/da"@ != "c/rx"@,
        "d/da"@ != "c/ur"@,
        "c/pc"@ != "c/er"@,
        "c/pc"@ != "c/rx"@,
        "c/pc"@ != "c/ur"@,
        "c/er"@ != "c/rx"@,
        "c/er"@ != "c/ur"@,
        "c/rx"@ != "c/ur"@,
{
    reveal_strlit("c/dc");
    reveal_strlit("d/da");
    reveal_strlit("c/pc");
    reveal_strlit("c/er");
    reveal_strlit("c/rx");
    reveal_strlit("c/ur");
    assert("c/dc"@[0] != "d/da"@[0]);
    assert("d/da"@[0] != "c/pc"@[0]);
    assert("d/da"@[0] != "c/er"@[0]);
    assert("d/da"@[0] != "c/rx"@[0]);
    assert("d/da"@[0] != "c/ur"@[0]);
    assert("c/dc"@[2] != "c/pc"@[2]);
    assert("c/dc"@[2] != "c/er"@[2]);
    assert("c/dc"@[2] != "c/rx"@[2]);
    assert("c/dc"@[2] != "c/ur"@[2]);
    assert("c/pc"@[2] != "c/er"@[2]);
    assert("c/pc"@[2] != "c/rx"@[2]);
    assert("c/pc"@[2] != "c/ur"@[2]);
    assert("c/er"@[2] != "c/rx"@[2]);
    assert("c/er"@[2] != "c/ur"@[2]);
    assert("c/rx"@[2] != "c/ur"@[2]);
}

/// A message from the joiner relay without one of its TLVs, or with one of the
/// wrong length, is malformed.
pub proof fn law_an_incomplete_relayed_payload_is_refused(message: CoapView, tlvs: Seq<TlvView>)
    requires
        has_path(message, "c/rx"@),
        holds(message, tlvs),
        ({
            let port = last_value_of(tlvs, 18);
            let locator = last_value_of(tlvs, 20);
            let iid = last_value_of(tlvs, 19);
            ||| port is None || port->0.len() != 2
            ||| locator is None || locator->0.len() != 2
            ||| iid is None || iid->0.len() != 8
            ||| last_value_of(tlvs, 17) is None
        }),
    ensures
        notification_in(message) == Err::<Option<NotificationView>, ErrorView>(
            ErrorView::Dataset("malformed notification"@),
        ),
{
    lemma_paths();
}

/// A PAN ID conflict and an energy report are read with the mask of channel
/// page 0, and with the PAN ID or the energy list, from the TLVs of these
/// types.
pub proof fn law_scan_reports_are_read(
    message: CoapView,
    tlvs: Seq<TlvView>,
    mask: (u8, u8, u8, u8),
    more: Seq<u8>,
    pan_id: u16,
    energy: Seq<u8>,
    peer: Seq<char>,
)
    requires
        holds(message, tlvs),
        last_value_of(tlvs, 53) == Some(seq![0u8, 4u8, mask.0, mask.1, mask.2, mask.3] + more),
    ensures
        ({
            let channel_mask = (0x100_0000 * mask.0 + 0x1_0000 * mask.1 + 0x100 * mask.2
                + mask.3) as u32;
            &&& has_path(message, "c/pc"@) && last_value_of(tlvs, 1) == Some(
                high_low(pan_id as nat),
            ) ==> notification_in(message) == Ok::<Option<NotificationView>, ErrorView>(
                Some(NotificationView::PanIdConflict { channel_mask, pan_id }),
            ) && event_of(notification_in(message)->Ok_0->0, peer) == (EventView::PanIdConflict {
                peer_addr: peer,
                channel_mask,
                pan_id,
            })
            &&& has_path(message, "c/er"@) && last_value_of(tlvs, 57) == Some(energy)
                ==> notification_in(message) == Ok::<Option<NotificationView>, ErrorView>(
                Some(NotificationView::EnergyReport { channel_mask, energy_list: energy }),
            ) && event_of(notification_in(message)->Ok_0->0, peer) == (EventView::EnergyReport {
                peer_addr: peer,
                channel_mask,
                energy_list: energy,
            })
        }),
{
    lemma_paths();
    lemma_u16(pan_id);
    let value = seq![0u8, 4u8, mask.0, mask.1, mask.2, mask.3] + more;
    assert(value.subrange(2, 6) =~= seq![mask.0, mask.1, mask.2, mask.3]);
    law_the_most_significant_byte_is_first(0, mask.0, mask.1, mask.2, mask.3);
}

/// A scan report without the mask of channel page 0 in its first entry is
/// malformed, and so is one without what the scan found.
pub proof fn law_an_incomplete_scan_report_is_refused(message: CoapView, tlvs: Seq<TlvView>)
    requires
        holds(message, tlvs),
        has_path(message, "c/pc"@) || has_path(message, "c/er"@),
        ({
            let mask = last_value_of(tlvs, 53);
            let pan_id = last_value_of(tlvs, 1);
            ||| mask is None
            ||| mask->0.len() < 6 || mask->0[0] != 0 || mask->0[1] != 4
            ||| has_path(message, "c/pc"@) && (pan_id is None || pan_id->0.len() != 2)
            ||| has_path(message, "c/er"@) && last_value_of(tlvs, 57) is None
        }),
    ensures
        notification_in(message) == Err::<Option<NotificationView>, ErrorView>(
            ErrorView::Dataset("malformed notification"@),
        ),
{
    lemma_paths();
}

/// A dataset change has nothing to read, a diagnostic answer is its whole
/// payload, and a message with any other path is no notification.
pub proof fn law_other_notifications_are_read(message: CoapView, path: Seq<char>, peer: Seq<char>)
    requires
        has_path(message, path),
    ensures
        path == "c/dc"@ ==> notification_in(message) == Ok::<Option<NotificationView>, ErrorView>(
            Some(NotificationView::DatasetChanged),
        ) && event_of(NotificationView::DatasetChanged, peer) == EventView::DatasetChanged,
        path == "d/da"@ ==> notification_in(message) == Ok::<Option<NotificationView>, ErrorView>(
            Some(NotificationView::DiagGetAnswer { data: message.payload }),
        ) && event_of(NotificationView::DiagGetAnswer { data: message.payload }, peer) == (
        EventView::DiagnosticAnswer { peer_addr: peer, data: message.payload }),
        path != "c/dc"@ && path != "d/da"@ && path != "c/pc"@ && path != "c/er"@ && path
            != "c/rx"@ ==> notification_in(message) == Ok::<Option<NotificationView>, ErrorView>(
            None,
        ),
{
    lemma_paths();
}

proof fn lemma_one_tlv(one: TlvView)
    requires
        one.value.len() <= 0xffff,
    ensures
        tlvs_in(one.encoding()) == Some(seq![one]),
{
    lemma_two_encodings(Seq::empty(), one);
    law_tlvs_round_trip(seq![one]);
}

proof fn lemma_two_encodings(before: Seq<TlvView>, one: TlvView)
    ensures
        tlvs_encoding(before.push(one)) == tlvs_encoding(before) + one.encoding(),
        before.len() == 0 ==> tlvs_encoding(before.push(one)) == one.encoding(),
        before.len() == 0 ==> before.push(one) == seq![one],
{
    assert(before.push(one).drop_last() =~= before);
    if before.len() == 0 {
        assert(tlvs_encoding(before) + one.encoding() =~= one.encoding());
        assert(before.push(one) =~= seq![one]);
    }
}

/// A petition is a confirmable request with the commissioner's ID.
pub proof fn law_a_petition_carries_the_id(id: Seq<char>)
    requires
        encode_utf8(id).len() <= 0xffff,
    ensures
        is_request(petition(id), CoapType::Confirmable, "c/cp"@),
        holds(petition(id), seq![tlv(10, encode_utf8(id))]),
{
    law_path_options_give_the_path(petition(id), "c/cp"@);
    lemma_one_tlv(tlv(10, encode_utf8(id)));
}

/// A keep-alive is a confirmable request with the State TLV, Accept to stay and
/// Reject to resign, and the session's ID.
pub proof fn law_a_keep_alive_carries_the_session(session_id: u16, accept: bool)
    ensures
        is_request(keep_alive(session_id, accept), CoapType::Confirmable, "c/ca"@),
        holds(
            keep_alive(session_id, accept),
            seq![
                tlv(
                    16,
                    seq![
                        if accept {
                            0x01u8
                        } else {
                            0xffu8
                        },
                    ],
                ),
                tlv(11, high_low(session_id as nat)),
            ],
        ),
{
    let message = keep_alive(session_id, accept);
    law_path_options_give_the_path(message, "c/ca"@);
    lemma_u16(session_id);
    let state = tlv(
        16,
        seq![
            if accept {
                0x01u8
            } else {
                0xffu8
            },
        ],
    );
    let id = tlv(11, high_low(session_id as nat));
    lemma_two_encodings(Seq::empty(), state);
    lemma_two_encodings(seq![state], id);
    assert(seq![state].push(id) =~= seq![state, id]);
    law_tlvs_round_trip(seq![state, id]);
    assert(message.payload =~= state.encoding() + id.encoding());
}

/// What goes to a mesh device is handed to the border agent in a
/// non-confirmable request with the device's address and, behind the
/// management port and the device's port, the datagram.
pub proof fn law_a_proxied_datagram_names_its_destination(
    address: Seq<u8>,
    port: u16,
    inner: Seq<u8>,
)
    requires
        address.len() == 16,
        inner.len() <= 0xfffb,
    ensures
        is_request(udp_tx(address, port, inner), CoapType::NonConfirmable, "c/ut"@),
        holds(
            udp_tx(address, port, inner),
            seq![
                tlv(49, address),
                tlv(48, high_low(61631) + high_low(port as nat) + inner),
            ],
        ),
{
    let message = udp_tx(address, port, inner);
    law_path_options_give_the_path(message, "c/ut"@);
    lemma_u16(61631);
    lemma_u16(port);
    let one = tlv(49, address);
    let two = tlv(48, high_low(61631) + high_low(port as nat) + inner);
    lemma_two_encodings(Seq::empty(), one);
    lemma_two_encodings(seq![one], two);
    assert(seq![one].push(two) =~= seq![one, two]);
    law_tlvs_round_trip(seq![one, two]);
}

/// What comes from a mesh device is read with the device's address and port,
/// the port that it is meant for, and the datagram.
pub proof fn law_a_proxied_datagram_names_its_source(
    message: CoapView,
    tlvs: Seq<TlvView>,
    address: Seq<u8>,
    source_port: u16,
    destination_port: u16,
    inner: Seq<u8>,
)
    requires
        has_path(message, "c/ur"@),
        holds(message, tlvs),
        last_value_of(tlvs, 49) == Some(address),
        address.len() == 16,
        last_value_of(tlvs, 48) == Some(
            high_low(source_port as nat) + high_low(destination_port as nat) + inner,
        ),
    ensures
        udp_rx_in(message) matches Ok(Some(udp_rx)) && udp_rx.source_address == address
            && udp_rx.source_port == source_port && udp_rx.destination_port == destination_port
            && udp_rx.payload == inner,
{
    lemma_u16(source_port);
    lemma_u16(destination_port);
    let value = high_low(source_port as nat) + high_low(destination_port as nat) + inner;
    assert(value.subrange(0, 2) =~= high_low(source_port as nat));
    assert(value.subrange(2, 4) =~= high_low(destination_port as nat));
    assert(value.skip(4) =~= inner);
}

/// A message from the UDP proxy without an address of 16 bytes or without the
/// two ports is malformed; a message with another path is none.
pub proof fn law_other_messages_are_not_proxied(message: CoapView, path: Seq<char>, tlvs: Seq<TlvView>)
    requires
        has_path(message, path),
        holds(message, tlvs),
    ensures
        path != "c/ur"@ ==> udp_rx_in(message) matches Ok(None),
        path == "c/ur"@ && ({
            let address = last_value_of(tlvs, 49);
            let datagram = last_value_of(tlvs, 48);
            ||| address is None || address->0.len() != 16
            ||| datagram is None || datagram->0.len() < 4
        }) ==> udp_rx_in(message) is Err && udp_rx_in(message)->Err_0 == ErrorView::Dataset(
            "malformed UDP_RX"@,
        ),
{
}

/// What goes to a joiner names its port, its router and its IID, and carries
/// the payload and the KEK where the router is to get it.
pub proof fn law_a_relayed_answer_names_the_joiner(
    iid: Seq<u8>,
    port: u16,
    locator: u16,
    payload: Seq<u8>,
    kek: Option<Seq<u8>>,
)
    requires
        iid.len() <= 0xffff,
        payload.len() <= 0xffff,
        kek matches Some(kek) ==> kek.len() <= 0xffff,
    ensures
        ({
            let tlvs = seq![
                tlv(18, high_low(port as nat)),
                tlv(20, high_low(locator as nat)),
                tlv(19, iid),
                tlv(17, payload),
            ];
            tlvs_in(relay_tx_payload(iid, port, locator, payload, kek)) == Some(
                match kek {
                    Some(kek) => tlvs.push(tlv(21, kek)),
                    None => tlvs,
                },
            )
        }),
{
    lemma_u16(port);
    lemma_u16(locator);
    let one = tlv(18, high_low(port as nat));
    let two = tlv(20, high_low(locator as nat));
    let three = tlv(19, iid);
    let four = tlv(17, payload);
    lemma_two_encodings(Seq::empty(), one);
    lemma_two_encodings(seq![one], two);
    assert(seq![one].push(two) =~= seq![one, two]);
    lemma_two_encodings(seq![one, two], three);
    assert(seq![one, two].push(three) =~= seq![one, two, three]);
    lemma_two_encodings(seq![one, two, three], four);
    let all = seq![one, two, three, four];
    assert(seq![one, two, three].push(four) =~= all);
    law_tlvs_round_trip(all);
    let bytes = relay_tx_payload(iid, port, locator, payload, kek);
    match kek {
        Some(kek) => {
            let five = tlv(21, kek);
            lemma_two_encodings(all, five);
            law_tlvs_round_trip(all.push(five));
            assert(bytes =~= tlvs_encoding(all.push(five)));
        },
        None => {
            assert(bytes =~= tlvs_encoding(all));
        },
    }
}

/// Whatever happened to it, a joiner session asks for messages to the relay
/// that name the port, the router and the IID that it was begun with, with the
/// datagram in them, and with the KEK exactly where the router is to get it.
pub proof fn law_a_session_answers_the_joiner_it_was_begun_for(
    iid: Seq<u8>,
    port: u16,
    locator: u16,
    began: u128,
    calls: Seq<JoinerCall>,
    datagram: Seq<u8>,
    include_kek: bool,
    kek: Option<Seq<u8>>,
)
    requires
        iid.len() == 8,
        datagram.len() <= 0xffff,
        include_kek ==> kek is Some,
        kek matches Some(kek) ==> kek.len() == 16,
    ensures
        ({
            let session = after_calls(JoinerView::fresh(iid, port, locator, began), calls);
            &&& output_of(
                session,
                JoinerEventView::Transmit { datagram, include_kek },
                kek,
            ) matches Ok(RelayOutputView::Send(message))
            &&& is_request(message, CoapType::NonConfirmable, "c/tx"@)
            &&& tlvs_in(message.payload) matches Some(tlvs)
            &&& last_value_of(tlvs, 18) == Some(high_low(port as nat))
            &&& last_value_of(tlvs, 20) == Some(high_low(locator as nat))
            &&& last_value_of(tlvs, 19) == Some(iid)
            &&& last_value_of(tlvs, 17) == Some(datagram)
            &&& last_value_of(tlvs, 21) == if include_kek {
                kek
            } else {
                None
            }
        }),
{
    let fresh = JoinerView::fresh(iid, port, locator, began);
    let session = after_calls(fresh, calls);
    law_traffic_does_not_extend_a_session(fresh, calls);
    let sent = if include_kek {
        kek
    } else {
        None
    };
    let message = post(
        CoapType::NonConfirmable,
        0,
        Seq::empty(),
        "c/tx"@,
        relay_tx_payload(iid, port, locator, datagram, sent),
    );
    law_path_options_give_the_path(message, "c/tx"@);
    law_a_relayed_answer_names_the_joiner(iid, port, locator, datagram, sent);
    let tlvs = tlvs_in(message.payload)->0;
    lemma_values_of_four(tlvs);
}

/// The values of four TLVs of different types, or of five.
proof fn lemma_values_of_four(tlvs: Seq<TlvView>)
    requires
        4 <= tlvs.len() <= 5,
        forall|i: int, j: int|
            0 <= i < j < tlvs.len() ==> (#[trigger] tlvs[i]).ty != (#[trigger] tlvs[j]).ty,
    ensures
        forall|i: int|
            0 <= i < tlvs.len() ==> last_value_of(tlvs, (#[trigger] tlvs[i]).ty) == Some(
                tlvs[i].value,
            ),
        forall|ty: u8|
            (forall|i: int| 0 <= i < tlvs.len() ==> (#[trigger] tlvs[i]).ty != ty)
                ==> last_value_of(tlvs, ty) is None,
{
    assert forall|i: int| 0 <= i < tlvs.len() implies last_value_of(tlvs, (#[trigger] tlvs[i]).ty)
        == Some(tlvs[i].value) by {
        let after = tlvs.skip(i + 1);
        assert forall|j: int| 0 <= j < after.len() implies (#[trigger] after[j]).ty
            != tlvs[i].ty by {
            assert(after[j] == tlvs[i + 1 + j]);
        }
        law_the_last_tlv_of_a_type_counts(tlvs.take(i), tlvs[i], after);
        assert(tlvs.take(i) + seq![tlvs[i]] + after =~= tlvs);
    }
    assert forall|ty: u8|
        (forall|i: int| 0 <= i < tlvs.len() ==> (#[trigger] tlvs[i]).ty != ty) implies
        last_value_of(tlvs, ty) is None by {
        law_the_last_tlv_of_a_type_counts(Seq::empty(), tlv(ty, Seq::empty()), tlvs);
    }
}

/// The state that a response reports is the one byte of its State TLV: 0x01 is
/// Accept, 0x00 Pending and 0xff Reject. Another value is invalid, and a
/// response without the TLV reports none.
pub proof fn law_the_state_is_one_byte(payload: Seq<u8>, tlvs: Seq<TlvView>, mandatory: bool)
    ensures
        tlvs_in(payload) is None ==> state_in(payload, mandatory) == Err::<
            Option<MeshcopState>,
            ErrorView,
        >(ErrorView::Dataset("malformed TLV"@)),
        tlvs_in(payload) == Some(tlvs) ==> match last_value_of(tlvs, 16) {
            None => if mandatory {
                state_in(payload, mandatory) == Err::<Option<MeshcopState>, ErrorView>(
                    ErrorView::Dataset("response is missing the State TLV"@),
                )
            } else {
                state_in(payload, mandatory) == Ok::<Option<MeshcopState>, ErrorView>(None)
            },
            Some(value) => {
                &&& value == seq![0x01u8] ==> state_in(payload, mandatory) == Ok::<
                    Option<MeshcopState>,
                    ErrorView,
                >(Some(MeshcopState::Accept))
                &&& value == seq![0x00u8] ==> state_in(payload, mandatory) == Ok::<
                    Option<MeshcopState>,
                    ErrorView,
                >(Some(MeshcopState::Pending))
                &&& value == seq![0xffu8] ==> state_in(payload, mandatory) == Ok::<
                    Option<MeshcopState>,
                    ErrorView,
                >(Some(MeshcopState::Reject))
                &&& value != seq![0x01u8] && value != seq![0x00u8] && value != seq![0xffu8]
                    ==> state_in(payload, mandatory) == Err::<Option<MeshcopState>, ErrorView>(
                    ErrorView::Dataset("invalid State TLV"@),
                )
            },
        },
{
    if tlvs_in(payload) == Some(tlvs) {
        if let Some(value) = last_value_of(tlvs, 16) {
            if value.len() == 1 {
                assert(value =~= seq![value[0]]);
                assert(seq![0x01u8][0] == 0x01);
                assert(seq![0x00u8][0] == 0x00);
                assert(seq![0xffu8][0] == 0xff);
            }
        }
    }
}

/// The answer to a petition is read with its state, with the session's ID from
/// two bytes, and with the ID of the commissioner there is.
pub proof fn law_the_answer_to_a_petition_is_read(
    payload: Seq<u8>,
    tlvs: Seq<TlvView>,
    session_id: u16,
    other: Seq<char>,
)
    requires
        tlvs_in(payload) == Some(tlvs),
        state_in(payload, true) is Ok,
    ensures
        ({
            let session = last_value_of(tlvs, 11);
            let id = last_value_of(tlvs, 10);
            let answer = petition_answer_in(payload);
            &&& session is Some && session->0.len() != 2 ==> answer is Err
            &&& id is Some && !valid_utf8(id->0) ==> answer is Err
            &&& (session is None || session == Some(high_low(session_id as nat))) && (id is None
                || id == Some(encode_utf8(other))) ==> {
                &&& answer is Ok
                &&& Some(answer->Ok_0.state) == state_in(payload, true)->Ok_0
                &&& answer->Ok_0.session_id == if session is None {
                    None
                } else {
                    Some(session_id)
                }
                &&& answer->Ok_0.existing_commissioner_id == if id is None {
                    None
                } else {
                    Some(other)
                }
            }
        }),
{
    broadcast use {vstd::utf8::encode_utf8_valid_utf8, vstd::utf8::encode_utf8_decode_utf8};

    lemma_u16(session_id);
}

/// Whether the number stands for the message type: 0 for confirmable, 1 for
/// non-confirmable, 2 for acknowledgements and 3 for resets.
pub open spec fn is_type_code(code: u8, ty: CoapType) -> bool {
    ||| code == 0 && ty is Confirmable
    ||| code == 1 && ty is NonConfirmable
    ||| code == 2 && ty is Acknowledgement
    ||| code == 3 && ty is Reset
}

/// What stands in front of a message's options: the version 1, the type and the
/// length of the token in one byte, the code, the message ID and the token.
pub open spec fn header_bytes(type_code: u8, code: u8, message_id: u16, token: Seq<u8>) -> Seq<
    u8,
> {
    seq![(0x40 + 0x10 * type_code + token.len()) as u8, code] + high_low(message_id as nat) + token
}

/// What stands behind a message's options: 0xff and the payload, or nothing.
pub open spec fn payload_bytes(payload: Seq<u8>) -> Seq<u8> {
    if payload.len() == 0 {
        Seq::empty()
    } else {
        seq![0xffu8] + payload
    }
}

/// Every message is written as its header, its options and its payload, and
/// reads back from that.
pub proof fn law_a_message_is_read_from_its_bytes(type_code: u8, message: CoapView)
    requires
        is_type_code(type_code, message.ty),
        message.fits(),
    ensures
        ({
            let bytes = header_bytes(type_code, message.code, message.message_id, message.token)
                + options_encoding(0, message.options) + payload_bytes(message.payload);
            &&& message.encoding() == bytes
            &&& message_in(bytes) == Some(message)
        }),
{
    lemma_u16(message.message_id);
    crate::commissioner::coap::law_message_round_trip(message);
}

/// Options are written in order, each with the distance of its number from the
/// one before and with its length, in four bits each. From 13 on, that number
/// less 13 stands in a byte of its own, and from 269 on, that number less 269
/// in two bytes.
pub proof fn law_an_option_is_written_as_delta_and_length(
    previous: u16,
    option: OptionView,
    more: Seq<OptionView>,
)
    requires
        previous <= option.number,
        option.value.len() <= 65804,
    ensures
        ({
            let delta = option.number - previous;
            let length = option.value.len();
            let all = options_encoding(previous, seq![option] + more);
            let rest = option.value + options_encoding(option.number, more);
            &&& delta < 13 && length < 13 ==> all == seq![(0x10 * delta + length) as u8] + rest
            &&& delta < 13 && 13 <= length < 269 ==> all == seq![
                (0x10 * delta + 13) as u8,
                (length - 13) as u8,
            ] + rest
            &&& delta < 13 && length >= 269 ==> all == seq![(0x10 * delta + 14) as u8] + high_low(
                (length - 269) as nat,
            ) + rest
            &&& 13 <= delta < 269 && length < 13 ==> all == seq![
                (0xd0 + length) as u8,
                (delta - 13) as u8,
            ] + rest
            &&& delta >= 269 && length < 13 ==> all == seq![(0xe0 + length) as u8] + high_low(
                (delta - 269) as nat,
            ) + rest
        }),
        options_encoding(previous, Seq::empty()) == Seq::<u8>::empty(),
{
    let delta = (option.number - previous) as nat;
    let length = option.value.len();
    let options = seq![option] + more;
    assert(options.drop_first() =~= more);
    let all = options_encoding(previous, options);
    let rest = option.value + options_encoding(option.number, more);
    if length >= 269 {
        law_the_most_significant_byte_is_first((length - 269) as nat, 0, 0, 0, 0);
    }
    if delta >= 269 {
        law_the_most_significant_byte_is_first((delta - 269) as nat, 0, 0, 0, 0);
    }
    if delta < 13 && length < 13 {
        assert(all =~= seq![(0x10 * delta + length) as u8] + rest);
    } else if delta < 13 && length < 269 {
        assert(all =~= seq![(0x10 * delta + 13) as u8, (length - 13) as u8] + rest);
    } else if delta < 13 {
        assert(all =~= seq![(0x10 * delta + 14) as u8] + high_low((length - 269) as nat) + rest);
    } else if length < 13 && delta < 269 {
        assert(all =~= seq![(0xd0 + length) as u8, (delta - 13) as u8] + rest);
    } else if length < 13 {
        assert(all =~= seq![(0xe0 + length) as u8] + high_low((delta - 269) as nat) + rest);
    }
}

/// A path of two segments is two Uri-Path options: the first eleven numbers
/// further on, the second none.
pub proof fn law_a_path_is_written_in_two_options(
    type_code: u8,
    message: CoapView,
    first: Seq<u8>,
    second: Seq<u8>,
)
    requires
        is_type_code(type_code, message.ty),
        message.token.len() <= 8,
        message.options == seq![
            OptionView { number: 11, value: first },
            OptionView { number: 11, value: second },
        ],
        first.len() < 13,
        second.len() < 13,
    ensures
        message.encoding() == header_bytes(
            type_code,
            message.code,
            message.message_id,
            message.token,
        ) + (seq![(0xb0 + first.len()) as u8] + first + (seq![second.len() as u8] + second))
            + payload_bytes(message.payload),
{
    let one = OptionView { number: 11, value: first };
    let two = OptionView { number: 11, value: second };
    lemma_u16(message.message_id);
    assert(message.options =~= seq![one] + seq![two]);
    assert(seq![two] =~= seq![two] + Seq::empty());
    law_an_option_is_written_as_delta_and_length(0, one, seq![two]);
    law_an_option_is_written_as_delta_and_length(11, two, Seq::empty());
    assert(options_encoding(0, message.options) =~= seq![(0xb0 + first.len()) as u8] + first + (
    seq![second.len() as u8] + second));
}

/// Bytes of another version, with a token of more than 8 bytes, or too short
/// for their header, are no message; nor is a header with 0xff behind it and no
/// payload.
pub proof fn law_other_bytes_are_no_message(b: Seq<u8>)
    requires
        ({
            ||| b.len() < 4
            ||| b[0] < 0x40 || b[0] > 0x7f
            ||| b[0] % 16 > 8
            ||| b.len() < 4 + b[0] % 16
            ||| b.len() == 5 + b[0] % 16 && b.last() == 0xff
        }),
    ensures
        message_in(b) is None,
{
    if b.len() >= 4 && 0x40 <= b[0] <= 0x7f && b[0] % 16 <= 8 && b.len() >= 4 + b[0] % 16 {
        let body = b.skip(4 + b[0] % 16);
        assert(body.len() == 1);
        assert(body[0] == b.last());
    }
}

/// A message that breaks off within its first option, or whose first option
/// has the reserved distance or length 15, is no message.
pub proof fn law_a_broken_option_is_refused(
    type_code: u8,
    code: u8,
    message_id: u16,
    token: Seq<u8>,
    ty: CoapType,
    first: u8,
    rest: Seq<u8>,
)
    requires
        is_type_code(type_code, ty),
        token.len() <= 8,
        first != 0xff,
        first / 16 == 15 || first % 16 == 15 || first / 16 < 13 && first % 16 < 13 && rest.len()
            < first % 16,
    ensures
        message_in(header_bytes(type_code, code, message_id, token) + seq![first] + rest) is None,
{
    let b = header_bytes(type_code, code, message_id, token) + seq![first] + rest;
    let body = b.skip(4 + token.len() as int);
    assert(b[0] == (0x40 + 0x10 * type_code + token.len()) as u8);
    assert(b[0] % 16 == token.len());
    assert(body =~= seq![first] + rest);
    assert(body[0] == first);
}

} // verus!
