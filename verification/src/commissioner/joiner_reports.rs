//! What a joiner session tells the joiner, its router and the application.

use vstd::prelude::*;
use vstd::utf8::{encode_utf8, valid_utf8};

use crate::bytes::be_value;
use crate::commissioner::coap::{message_in, CoapType, CoapView};
use crate::commissioner::driver::parts::RelayOutputView;
use crate::commissioner::error::ErrorView;
use crate::commissioner::joiner::{
    finalize_info_in, join_fin_response, JoinerActionView, JoinerEventView, JoinerSessionPhase,
    JoinerView, Opening, Step,
};
use crate::commissioner::joiner_handler::{joiner_id_of, sha256_digest};
use crate::commissioner::joiner_laws::{
    after_calls, delivered, law_traffic_does_not_extend_a_session, JoinerCall,
};
use crate::commissioner::joiner_sessions::{output_of, outputs_of};
use crate::commissioner::messages::has_path;
use crate::commissioner::tlv::{last_value_of, tlvs_in, TlvView};
use crate::commissioner::types::{EventView, FinalizeView};
use crate::dtls::flight::renumbered;
use crate::dtls::handshake::{
    law_message_round_trip, lemma_message_encoding_len, HandshakeType, MessageView,
};
use crate::dtls::handshake_laws::{carries, changes_cipher_spec, law_the_servers_first_flight};
use crate::dtls::protection::{opened, protected, ThreadDtlsKeyMaterial};
use crate::dtls::record::{all_fit, datagram_of, records_in, ContentType, RecordView};
use crate::dtls::server::server_flight_error;
use crate::text::decimal;

verus! {

/// A finalization is answered with an acknowledgement 2.04 of its message ID
/// and token that carries the State TLV alone: Accept or Reject.
pub proof fn law_a_finalization_is_answered_with_the_state(request: CoapView, accepted: bool)
    ensures
        ({
            let response = join_fin_response(request, accepted);
            &&& response.ty == CoapType::Acknowledgement
            &&& response.code == 0x44
            &&& response.message_id == request.message_id
            &&& response.token == request.token
            &&& response.options.len() == 0
            &&& response.payload == seq![
                16u8,
                1u8,
                if accepted {
                    0x01u8
                } else {
                    0xffu8
                },
            ]
        }),
{
}

/// A finalization tells of the joiner what its TLVs hold: the vendor's name,
/// model, software version and stack version, and the provisioning URL and the
/// vendor's data where they are there.
pub proof fn law_a_finalization_tells_of_the_joiner(
    payload: Seq<u8>,
    tlvs: Seq<TlvView>,
    name: Seq<char>,
    model: Seq<char>,
    version: Seq<char>,
    stack: Seq<u8>,
    url: Seq<char>,
)
    requires
        tlvs_in(payload) == Some(tlvs),
        last_value_of(tlvs, 16) is Some,
        last_value_of(tlvs, 33) == Some(encode_utf8(name)),
        last_value_of(tlvs, 34) == Some(encode_utf8(model)),
        last_value_of(tlvs, 35) == Some(encode_utf8(version)),
        last_value_of(tlvs, 37) == Some(stack),
        last_value_of(tlvs, 32) is None || last_value_of(tlvs, 32) == Some(encode_utf8(url)),
    ensures
        finalize_info_in(payload) matches Ok(info) && info.vendor_name == name
            && info.vendor_model == model && info.vendor_sw_version == version
            && info.vendor_stack_version == stack && info.provisioning_url == (if last_value_of(
            tlvs,
            32,
        ) is None {
            None
        } else {
            Some(url)
        }) && info.vendor_data == last_value_of(tlvs, 36),
{
    broadcast use {vstd::utf8::encode_utf8_valid_utf8, vstd::utf8::encode_utf8_decode_utf8};

}

/// A finalization without its State TLV, or without one of the vendor's
/// identification, is refused.
pub proof fn law_an_incomplete_finalization_is_refused(payload: Seq<u8>, tlvs: Seq<TlvView>, ty: u8)
    requires
        tlvs_in(payload) == Some(tlvs),
        ty == 16 || ty == 33 || ty == 34 || ty == 35 || ty == 37,
        last_value_of(tlvs, ty) is None,
    ensures
        finalize_info_in(payload) is Err,
{
}

/// What a session reports of its joiner names the joiner by its ID: the IID
/// that it was begun for, with the second bit of the first byte turned.
pub proof fn law_a_joiner_is_reported_by_its_id(
    joiner_iid: Seq<u8>,
    port: u16,
    locator: u16,
    began: u128,
    calls: Seq<JoinerCall>,
    accepted: bool,
    info: FinalizeView,
    kek: Option<Seq<u8>>,
)
    requires
        joiner_iid.len() == 8,
    ensures
        ({
            let session = after_calls(
                JoinerView::fresh(joiner_iid, port, locator, began),
                calls,
            );
            let joiner_id = joiner_iid.update(0, joiner_iid[0] ^ 0x02);
            &&& output_of(session, JoinerEventView::Connected, kek) == Ok::<
                RelayOutputView,
                ErrorView,
            >(RelayOutputView::Publish(EventView::JoinerConnected { joiner_id }))
            &&& output_of(session, JoinerEventView::Finalized { accepted, info }, kek) == Ok::<
                RelayOutputView,
                ErrorView,
            >(
                RelayOutputView::Publish(
                    EventView::JoinerFinalized { joiner_id, accepted, info },
                ),
            )
        }),
{
    law_traffic_does_not_extend_a_session(
        JoinerView::fresh(joiner_iid, port, locator, began),
        calls,
    );
}

/// What a session asks for comes in the order of its results, one for each,
/// unless one of them cannot be asked for.
pub proof fn law_results_are_asked_for_in_order(
    session: JoinerView,
    events: Seq<JoinerEventView>,
    kek: Option<Seq<u8>>,
)
    ensures
        outputs_of(session, events, kek) is Ok <==> forall|i: int|
            0 <= i < events.len() ==> output_of(session, #[trigger] events[i], kek) is Ok,
        outputs_of(session, events, kek) matches Ok(outputs) ==> {
            &&& outputs.len() == events.len()
            &&& forall|i: int|
                0 <= i < events.len() ==> output_of(session, #[trigger] events[i], kek) == Ok::<
                    RelayOutputView,
                    ErrorView,
                >(outputs[i])
        },
    decreases events.len(),
{
    if events.len() > 0 {
        let shorter = events.drop_last();
        law_results_are_asked_for_in_order(session, shorter, kek);
        assert(forall|i: int| 0 <= i < shorter.len() ==> #[trigger] shorter[i] == events[i]);
        assert(events[events.len() - 1] == events.last());
        if outputs_of(session, shorter, kek) is Err {
            let i = choose|i: int|
                0 <= i < shorter.len() && output_of(session, #[trigger] shorter[i], kek) is Err;
            assert(output_of(session, events[i], kek) is Err);
        } else {
            if let Ok(outputs) = outputs_of(session, events, kek) {
                let before = outputs_of(session, shorter, kek)->Ok_0;
                assert forall|i: int| 0 <= i < events.len() implies output_of(
                    session,
                    #[trigger] events[i],
                    kek,
                ) == Ok::<RelayOutputView, ErrorView>(outputs[i]) by {
                    if i < shorter.len() {
                        assert(shorter[i] == events[i]);
                        assert(outputs[i] == before[i]);
                    }
                }
            }
        }
    }
}

/// The joiner writes with the client's keys, and the session answers with the
/// server's.
pub proof fn law_the_session_is_the_server(
    session: JoinerView,
    record: RecordView,
    keys: ThreadDtlsKeyMaterial,
    request: CoapView,
    info: FinalizeView,
    accepted: bool,
)
    requires
        session.key_material == Some(keys),
        !session.seen.contains(record.header.sequence_number),
    ensures
        ({
            let block = keys.key_block;
            let plaintext = opened(record, block.client_write_key@, block.client_write_iv@);
            &&& plaintext is Some ==> session.open(record) == Opening::Opened(plaintext->0)
            &&& plaintext is None ==> session.open(record) is Failed
            &&& session.answered(request, info, accepted).events[session.events.len() as int] == (
            JoinerEventView::Transmit {
                datagram: protected(
                    ContentType::ApplicationData,
                    1,
                    session.epoch1_sequence,
                    block.server_write_key@,
                    block.server_write_iv@,
                    join_fin_response(request, accepted).encoding(),
                ).encoding(),
                include_kek: accepted,
            })
            &&& session.finished_flight()[1] == protected(
                ContentType::Handshake,
                1,
                session.epoch1_sequence,
                block.server_write_key@,
                block.server_write_iv@,
                session.server_finished,
            )
            &&& session.finished_flight()[0].payload == seq![1u8]
            &&& session.finished_flight()[0].header.content_type
                == ContentType::ChangeCipherSpec
            &&& session.finished_flight().len() == 2
        }),
{
}

/// An accepted ClientHello is answered with the server's messages in one
/// datagram, in plaintext records numbered from the ClientHello's own on, and
/// without the KEK. The session then waits for the joiner's flight.
pub proof fn law_an_accepted_hello_is_answered(
    session: JoinerView,
    hello: MessageView,
    record_sequence: u64,
    answer: Seq<MessageView>,
    i: int,
)
    requires
        server_flight_error(answer, record_sequence) is None,
        record_sequence + answer.len() <= u64::MAX,
        0 <= i < answer.len(),
    ensures
        ({
            let after = session.with_hello(hello, record_sequence, answer);
            &&& after.phase == JoinerSessionPhase::AwaitingClientFlight
            &&& after.accepted_client_hello == Some(hello)
            &&& after.events.len() == session.events.len() + 1
            &&& after.events.last() matches JoinerEventView::Transmit { datagram, include_kek }
            &&& !include_kek
            &&& records_in(datagram) matches Some(records)
            &&& records.len() == answer.len()
            &&& carries(records[i], seq![answer[i]])
            &&& records[i].header.sequence_number == record_sequence + i
        }),
{
    law_the_servers_first_flight(answer, record_sequence, i);
}

/// Once the joiner's Finished is verified, the session answers with the
/// ChangeCipherSpec and its own Finished, reports the joiner as connected, and
/// waits for the finalization.
pub proof fn law_a_verified_finished_connects_the_joiner(
    session: JoinerView,
    finished: MessageView,
)
    requires
        session.key_material is Some,
        finished.payload.len() <= 0x1000,
        session.epoch0_sequence < 0xffff_ffff_ffff,
        session.epoch1_sequence < 0xffff_ffff_ffff,
    ensures
        ({
            let after = session.with_finished(finished);
            let keys = session.key_material->0.key_block;
            &&& after.phase == JoinerSessionPhase::Connected
            &&& after.epoch0_sequence == session.epoch0_sequence + 1
            &&& after.epoch1_sequence == session.epoch1_sequence + 1
            &&& after.events.len() == session.events.len() + 2
            &&& after.events.last() is Connected
            &&& after.events[session.events.len() as int] == (JoinerEventView::Transmit {
                datagram: datagram_of(
                    seq![
                        RecordView::dtls12(
                            ContentType::ChangeCipherSpec,
                            0,
                            session.epoch0_sequence,
                            seq![1u8],
                        ),
                        protected(
                            ContentType::Handshake,
                            1,
                            session.epoch1_sequence,
                            keys.server_write_key@,
                            keys.server_write_iv@,
                            finished.encoding(),
                        ),
                    ],
                ),
                include_kek: false,
            })
        }),
{
    lemma_message_encoding_len(finished);
}

/// A key exchange of the joiner that was not taken before is handed out.
pub proof fn law_a_joiners_key_exchange_is_handed_out(
    session: JoinerView,
    payload: Seq<u8>,
    record: RecordView,
    message: MessageView,
)
    requires
        session.phase == JoinerSessionPhase::AwaitingClientFlight,
        records_in(payload) == Some(seq![record]),
        carries(record, seq![message]),
        message.message_type == HandshakeType::ClientKeyExchange,
        session.accepted_client_key_exchange != Some(message),
    ensures
        delivered(session, payload).1 == JoinerActionView::KeyExchange(message),
{
    let given = session.with_payload(payload);
    let records = seq![record];
    assert(given == session.loaded(records));
    let rest = JoinerView { records: given.records.drop_first(), ..given };
    assert(given.records[0] == record);
    let held = JoinerView {
        messages: seq![message],
        record_sequence: record.header.sequence_number,
        ..rest
    };
    assert(rest.record_step(record) == Step::Continue(held));
    assert(given.next() == held.next());
    assert(held.messages[0] == message);
}

/// Behind the ChangeCipherSpec, a Finished of the joiner that its keys open is
/// handed out to be verified; one that they do not open fails the session. So
/// does one without the ChangeCipherSpec before it.
pub proof fn law_a_joiners_finished_is_verified(
    session: JoinerView,
    payload: Seq<u8>,
    records: Seq<RecordView>,
    finished: MessageView,
)
    requires
        session.phase == JoinerSessionPhase::AwaitingClientFlight,
        records_in(payload) == Some(records),
        session.key_material is Some,
        finished.message_type == HandshakeType::Finished,
        finished.fits(),
        records.len() > 0,
        records.last().header.epoch == 1,
        records.last().header.content_type == ContentType::Handshake,
        !session.seen.contains(records.last().header.sequence_number),
    ensures
        ({
            let keys = session.key_material->0.key_block;
            let plaintext = opened(
                records.last(),
                keys.client_write_key@,
                keys.client_write_iv@,
            );
            let action = delivered(session, payload).1;
            &&& records.len() == 2 && changes_cipher_spec(records[0]) && plaintext == Some(
                finished.encoding(),
            ) ==> action == JoinerActionView::VerifyFinished(finished)
            &&& records.len() == 2 && changes_cipher_spec(records[0]) && plaintext is None
                ==> action is Fail
            &&& records.len() == 1 && !session.saw_change_cipher_spec ==> action
                == JoinerActionView::Fail(
                ErrorView::Crypto("joiner Finished arrived before ChangeCipherSpec"@),
            )
        }),
{
    let given = session.with_payload(payload);
    assert(given == session.loaded(records));
    let keys = session.key_material->0.key_block;
    let record = records.last();
    law_message_round_trip(finished);
    let rest = JoinerView { records: given.records.drop_first(), ..given };
    if records.len() == 2 && changes_cipher_spec(records[0]) {
        let switched = JoinerView { saw_change_cipher_spec: true, ..rest };
        assert(rest.record_step(records[0]) == Step::Continue(switched));
        assert(given.next() == switched.next());
        assert(switched.records[0] == record);
        let last = JoinerView { records: switched.records.drop_first(), ..switched };
        assert(last.records =~= Seq::empty());
        if opened(record, keys.client_write_key@, keys.client_write_iv@) == Some(
            finished.encoding(),
        ) {
            let held = JoinerView {
                protected_messages: seq![finished],
                ..last.after_open(record.header.sequence_number)
            };
            assert(last.record_step(record) == Step::Continue(held));
            assert(switched.next() == held.next());
            assert(held.protected_messages[0] == finished);
        }
    } else if records.len() == 1 {
        assert(given.records[0] == record);
    }
}

/// Application data before the handshake is complete, a plaintext alert during
/// it, and a handshake message out of turn, fail the session.
pub proof fn law_a_joiner_out_of_turn_fails(
    session: JoinerView,
    payload: Seq<u8>,
    record: RecordView,
    message: MessageView,
)
    requires
        session.phase == JoinerSessionPhase::AwaitingClientHello || session.phase
            == JoinerSessionPhase::AwaitingClientFlight,
        records_in(payload) == Some(seq![record]),
        ({
            ||| record.header.epoch == 1 && record.header.content_type
                == ContentType::ApplicationData
            ||| record.header.epoch == 0 && record.header.content_type == ContentType::Alert
            ||| carries(record, seq![message]) && message.message_type
                != HandshakeType::ClientHello && message.message_type
                != HandshakeType::ClientKeyExchange
            ||| carries(record, seq![message]) && message.message_type
                == HandshakeType::ClientKeyExchange && session.phase
                == JoinerSessionPhase::AwaitingClientHello
        }),
    ensures
        delivered(session, payload).1 is Fail,
{
    let given = session.with_payload(payload);
    let records = seq![record];
    assert(given == session.loaded(records));
    let rest = JoinerView { records: given.records.drop_first(), ..given };
    assert(given.records[0] == record);
    if carries(record, seq![message]) {
        let held = JoinerView {
            messages: seq![message],
            record_sequence: record.header.sequence_number,
            ..rest
        };
        assert(rest.record_step(record) == Step::Continue(held));
        assert(given.next() == held.next());
        assert(held.messages[0] == message);
    }
}

/// The keys that a key exchange gave are those that the session goes on with,
/// and the key exchange is remembered.
pub proof fn law_taken_keys_are_used(
    session: JoinerView,
    message: MessageView,
    keys: ThreadDtlsKeyMaterial,
)
    ensures
        ({
            let after = session.with_keys(message, keys);
            &&& after.key_material == Some(keys)
            &&& after.accepted_client_key_exchange == Some(message)
            &&& after.phase == session.phase
            &&& after.events == session.events
            &&& after.seen == session.seen
        }),
{
}

/// A protected alert of the joiner fails the session with its number, its level
/// and its description; one that is not authentic is passed over.
pub proof fn law_a_joiners_alert_is_told(
    session: JoinerView,
    record: RecordView,
    level: u8,
    description: u8,
)
    requires
        session.key_material is Some,
        record.header.epoch == 1,
        record.header.content_type == ContentType::Alert,
        !session.seen.contains(record.header.sequence_number),
    ensures
        ({
            let keys = session.key_material->0.key_block;
            let plaintext = opened(record, keys.client_write_key@, keys.client_write_iv@);
            &&& plaintext == Some(seq![level, description]) ==> (session.record_step(
                record,
            ) matches Step::Stop(_, action) && action == JoinerActionView::Fail(
                ErrorView::Crypto(
                    "joiner DTLS alert epoch=1 seq="@ + decimal(
                        record.header.sequence_number as nat,
                    ) + " level="@ + decimal(level as nat) + " description="@ + decimal(
                        description as nat,
                    ),
                ),
            ))
            &&& plaintext is None ==> session.record_step(record) == Step::Continue(session)
        }),
{
}

/// A joiner ID is the first eight bytes of the digest of the EUI-64, its most
/// significant byte first, with the second bit of the first byte set.
pub proof fn law_a_joiner_id_is_the_start_of_the_digest(eui64: u64, bytes: Seq<u8>)
    requires
        bytes.len() == 8,
        be_value(bytes) == eui64,
    ensures
        sha256_digest(bytes).len() == 32 ==> {
            &&& joiner_id_of(eui64).len() == 8
            &&& joiner_id_of(eui64)[0] == sha256_digest(bytes)[0] | 0x02
            &&& forall|i: int|
                1 <= i < 8 ==> #[trigger] joiner_id_of(eui64)[i] == sha256_digest(bytes)[i]
        },
{
    crate::bytes::lemma_be_value(bytes);
}

/// A finalization with a name, a model, a software version or a URL that is not
/// UTF-8 is refused.
pub proof fn law_an_unreadable_finalization_is_refused(
    payload: Seq<u8>,
    tlvs: Seq<TlvView>,
    ty: u8,
    value: Seq<u8>,
)
    requires
        tlvs_in(payload) == Some(tlvs),
        ty == 32 || ty == 33 || ty == 34 || ty == 35,
        last_value_of(tlvs, ty) == Some(value),
        !valid_utf8(value),
    ensures
        finalize_info_in(payload) is Err,
{
}

/// A session is past its deadline 80 seconds after it was begun.
pub proof fn law_a_session_is_given_80_seconds(
    joiner_iid: Seq<u8>,
    port: u16,
    locator: u16,
    began: u128,
    calls: Seq<JoinerCall>,
)
    requires
        began + 80_000_000_000 <= u128::MAX,
    ensures
        after_calls(JoinerView::fresh(joiner_iid, port, locator, began), calls).expires_at == began
            + 80_000_000_000,
{
    law_traffic_does_not_extend_a_session(
        JoinerView::fresh(joiner_iid, port, locator, began),
        calls,
    );
}

/// A repeated ClientHello is answered with the same messages under fresh record
/// numbers, four times and no more; another one is passed over.
pub proof fn law_a_repeated_hello_is_answered(session: JoinerView, message: MessageView)
    requires
        session.phase == JoinerSessionPhase::AwaitingClientFlight,
        message.message_type == HandshakeType::ClientHello,
        all_fit(renumbered(session.server_flight, session.epoch0_sequence)),
    ensures
        ({
            let repeats = session.accepted_client_hello == Some(message);
            let flight = renumbered(session.server_flight, session.epoch0_sequence);
            &&& repeats && session.flight_retransmissions < 4 ==> {
                &&& session.message_step(message) matches Step::Continue(after)
                &&& after.events == session.events.push(
                    JoinerEventView::Transmit { datagram: datagram_of(flight), include_kek: false },
                )
                &&& after.flight_retransmissions == session.flight_retransmissions + 1
                &&& after.server_flight == flight
                &&& after.phase == session.phase
            }
            &&& !repeats || session.flight_retransmissions >= 4 ==> session.message_step(message)
                == Step::Continue(session)
        }),
{
}

/// Once the handshake is complete, plaintext handshake records and plaintext
/// alerts are passed over.
pub proof fn law_plaintext_is_passed_over_after_the_handshake(
    session: JoinerView,
    record: RecordView,
)
    requires
        session.phase == JoinerSessionPhase::Connected || session.phase
            == JoinerSessionPhase::Finalized,
        session.was_established,
        record.header.epoch == 0,
        record.header.content_type == ContentType::Handshake || record.header.content_type
            == ContentType::Alert,
    ensures
        session.record_step(record) == Step::Continue(session),
{
}

/// Application data shows that the joiner has received the Finished: it is not
/// sent again from then on. A request with another path than `c/jf` gets no
/// answer.
pub proof fn law_data_confirms_the_finished(
    session: JoinerView,
    record: RecordView,
    request: CoapView,
    path: Seq<char>,
    repeated: Seq<RecordView>,
)
    requires
        session.phase == JoinerSessionPhase::Connected || session.phase
            == JoinerSessionPhase::Finalized,
        record.header.epoch == 1,
        record.header.content_type == ContentType::ApplicationData,
        session.open(record) matches Opening::Opened(plaintext) && message_in(plaintext) == Some(
            request,
        ),
        has_path(request, path),
        path != "c/jf"@,
    ensures
        session.record_step(record) matches Step::Continue(after) && after.server_finished.len()
            == 0 && !after.repeats_finished(repeated) && after.events == session.events
            && after.seen.contains(record.header.sequence_number) && after.phase == session.phase,
{
}

/// A finalization is a request with the path `c/jf`: where no decision was made,
/// it asks for one with what it tells of the joiner.
pub proof fn law_a_finalization_asks_for_a_decision(
    session: JoinerView,
    record: RecordView,
    request: CoapView,
    info: FinalizeView,
)
    requires
        session.phase == JoinerSessionPhase::Connected,
        session.finalize_decision is None,
        record.header.epoch == 1,
        record.header.content_type == ContentType::ApplicationData,
        session.open(record) matches Opening::Opened(plaintext) && message_in(plaintext) == Some(
            request,
        ),
        has_path(request, "c/jf"@),
        finalize_info_in(request.payload) == Ok::<FinalizeView, ErrorView>(info),
    ensures
        session.record_step(record) matches Step::Stop(after, action) && action
            == JoinerActionView::Finalize(info) && after.request == Some((request, info))
            && after.server_finished.len() == 0,
{
}

} // verus!
