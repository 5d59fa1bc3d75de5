//! What each side of a handshake takes from the other.

use vstd::prelude::*;

use crate::dtls::client::{
    client_finished_flight_of, finished_flight_error, first_finished, HelloVerifyActionView, HelloVerifyWaitView,
    ServerFinishedActionView, ServerFinishedWaitView, ServerFlightActionView,
    ServerFlightWaitView,
};
use crate::dtls::error::ErrorView;
use crate::dtls::flight::{
    client_finished_flight, client_finished_record, plaintext_count, plaintext_messages,
    renumbered, sequence_after,
};
use crate::dtls::handshake::{
    client_hello_body, has_type, law_an_encoded_client_hello_decodes, law_message_round_trip,
    messages_in, single_message, HandshakeType, HelloView, MessageView,
};
use crate::dtls::protection::{opened, protected};
use crate::dtls::record::{
    datagram_of, law_datagram_round_trip, records_in, ContentType, RecordView,
};
use crate::dtls::server::{
    has_client_hello, lemma_flight_fits, repeats_client_hello, server_finished_flight_of,
    server_flight_error, server_flight_of,
    ClientFlightActionView, ClientFlightWaitView, HelloActionView, HelloWaitView,
};
use crate::dtls::session::SessionView;

verus! {

/// Whether a record is plaintext and carries exactly these messages.
pub open spec fn carries(record: RecordView, messages: Seq<MessageView>) -> bool {
    &&& record.header.epoch == 0
    &&& record.header.content_type == ContentType::Handshake
    &&& messages_in(record.payload) == Some(messages)
}

/// Whether a record is a ChangeCipherSpec.
pub open spec fn changes_cipher_spec(record: RecordView) -> bool {
    &&& record.header.epoch == 0
    &&& record.header.content_type == ContentType::ChangeCipherSpec
    &&& record.payload == seq![1u8]
}

/// A ClientHello that opens a record is handed out with the number of the
/// record, its random and its cookie, whatever else the datagram holds.
pub proof fn law_a_client_hello_is_handed_out(
    wait: HelloWaitView,
    message_seq: u16,
    random: Seq<u8>,
    session_id: Seq<u8>,
    cookie: Seq<u8>,
    cipher_suites: Seq<u8>,
    compression_methods: Seq<u8>,
    extensions: Option<Seq<u8>>,
    more: Seq<MessageView>,
)
    requires
        random.len() == 32,
        session_id.len() <= 0xff,
        cookie.len() <= 0xff,
        cipher_suites.len() <= 0xffff,
        compression_methods.len() <= 0xff,
        extensions matches Some(block) ==> block.len() <= 0xffff,
        wait.messages.len() == 0,
        wait.records.len() > 0,
        ({
            let message = MessageView {
                message_type: HandshakeType::ClientHello,
                message_seq,
                payload: client_hello_body(
                    0xfefd,
                    random,
                    session_id,
                    cookie,
                    cipher_suites,
                    compression_methods,
                    extensions,
                ),
            };
            carries(wait.records[0], seq![message] + more)
        }),
    ensures
        ({
            let message = MessageView {
                message_type: HandshakeType::ClientHello,
                message_seq,
                payload: client_hello_body(
                    0xfefd,
                    random,
                    session_id,
                    cookie,
                    cipher_suites,
                    compression_methods,
                    extensions,
                ),
            };
            &&& wait.next().1 == (HelloActionView::CheckCookie {
                message,
                record_sequence: wait.records[0].header.sequence_number,
                hello: HelloView { random, cookie },
            })
            &&& wait.next().0.messages == more
            &&& wait.next().0.records == wait.records.drop_first()
        }),
{
    law_an_encoded_client_hello_decodes(
        0xfefd,
        random,
        session_id,
        cookie,
        cipher_suites,
        compression_methods,
        extensions,
    );
    let record = wait.records[0];
    let messages = messages_in(record.payload)->0;
    let held = HelloWaitView {
        messages,
        record_sequence: record.header.sequence_number,
        records: wait.records.drop_first(),
    };
    assert(wait.next() == held.next());
    assert(messages.drop_first() =~= more);
}

/// While no peer is chosen, records that are not plaintext handshake records
/// are passed over, and so are malformed ones.
pub proof fn law_other_records_are_passed_over(wait: HelloWaitView)
    requires
        wait.messages.len() == 0,
        wait.records.len() > 0,
        ({
            let record = wait.records[0];
            ||| record.header.epoch != 0
            ||| record.header.content_type != ContentType::Handshake
            ||| messages_in(record.payload) is None
        }),
    ensures
        wait.next() == (HelloWaitView { records: wait.records.drop_first(), ..wait }).next(),
{
}

/// A key exchange that was not taken before is handed out.
pub proof fn law_a_key_exchange_is_handed_out(
    wait: ClientFlightWaitView,
    message: MessageView,
    more: Seq<MessageView>,
)
    requires
        wait.messages.len() == 0,
        wait.records.len() > 0,
        carries(wait.records[0], seq![message] + more),
        message.message_type == HandshakeType::ClientKeyExchange,
        wait.client_key_exchange != Some(message),
    ensures
        wait.next().1 == ClientFlightActionView::KeyExchange(message),
        wait.next().0.records == wait.records.drop_first(),
{
    let held = ClientFlightWaitView {
        messages: messages_in(wait.records[0].payload)->0,
        records: wait.records.drop_first(),
        ..wait
    };
    assert(wait.next() == held.next());
}

/// Behind the ChangeCipherSpec, a Finished that the client's keys open is
/// handed out to be verified; a record that they do not open is rejected.
pub proof fn law_a_client_finished_is_verified(
    wait: ClientFlightWaitView,
    finished: MessageView,
)
    requires
        wait.messages.len() == 0,
        wait.records.len() == 2,
        changes_cipher_spec(wait.records[0]),
        wait.records[1].header.epoch == 1,
        wait.records[1].header.content_type == ContentType::Handshake,
        wait.key_material is Some,
        finished.message_type == HandshakeType::Finished,
        finished.fits(),
    ensures
        ({
            let keys = wait.key_material->0.key_block;
            let plaintext = opened(
                wait.records[1],
                keys.client_write_key@,
                keys.client_write_iv@,
            );
            &&& plaintext == Some(finished.encoding()) ==> wait.next().1
                == ClientFlightActionView::Verify(finished)
            &&& plaintext is None ==> wait.next().1 == ClientFlightActionView::Reject(
                ErrorView::Crypto("DTLS record authentication failed"@),
            )
        }),
{
    let switched = ClientFlightWaitView {
        saw_change_cipher_spec: true,
        records: wait.records.drop_first(),
        ..wait
    };
    law_message_round_trip(finished);
    assert(wait.next() == switched.next());
    assert(switched.records[0] == wait.records[1]);
    assert(seq![finished][0] == finished);
}

/// Behind the ChangeCipherSpec, a Finished that the server's keys open is
/// handed out to be verified; a record that they do not open fails the
/// handshake, and so does another ChangeCipherSpec than that of one byte 1.
pub proof fn law_a_server_finished_is_verified(
    wait: ServerFinishedWaitView,
    finished: MessageView,
)
    requires
        wait.session.role is Client,
        wait.records.len() == 2,
        wait.records[0].header.epoch == 0,
        wait.records[0].header.content_type == ContentType::ChangeCipherSpec,
        wait.records[1].header.epoch == 1,
        wait.records[1].header.content_type == ContentType::Handshake,
        finished.message_type == HandshakeType::Finished,
        finished.fits(),
    ensures
        ({
            let keys = wait.session.key_material.key_block;
            let plaintext = opened(
                wait.records[1],
                keys.server_write_key@,
                keys.server_write_iv@,
            );
            let switches = wait.records[0].payload == seq![1u8];
            &&& switches && plaintext == Some(finished.encoding()) ==> wait.next().1
                == ServerFinishedActionView::Verify(finished)
            &&& switches && plaintext is None ==> wait.next().1 == ServerFinishedActionView::Fail(
                ErrorView::Crypto("DTLS record authentication failed"@),
            )
            &&& !switches ==> wait.next().1 is Fail
        }),
{
    let switched = ServerFinishedWaitView {
        saw_change_cipher_spec: true,
        records: wait.records.drop_first(),
        ..wait
    };
    law_message_round_trip(finished);
    if wait.records[0].payload == seq![1u8] {
        assert(wait.next() == switched.next());
        assert(switched.records[0] == wait.records[1]);
        reveal_with_fuel(first_finished, 2);
        assert(seq![finished][0] == finished);
    }
}

/// A HelloVerifyRequest is taken out of the record that carries it.
pub proof fn law_a_hello_verify_request_is_taken(wait: HelloVerifyWaitView, message: MessageView)
    requires
        wait.records.len() > 0,
        wait.records[0].header.content_type == ContentType::Handshake,
        messages_in(wait.records[0].payload) == Some(seq![message]),
        message.message_type == HandshakeType::HelloVerifyRequest,
    ensures
        wait.next().1 == HelloVerifyActionView::TakeCookie(wait.records[0]),
        wait.next().0.records == wait.records.drop_first(),
{
    assert(seq![message][0] == message);
    assert(has_type(seq![message], HandshakeType::HelloVerifyRequest));
}

/// The messages of the server's flight are handed out: a ServerHello, with the
/// ClientHello where that was not recorded yet; then the key exchange; then,
/// behind one, the end of the flight. What was taken before is passed over, and
/// a message that has no place in the flight fails the handshake.
pub proof fn law_the_server_flight_is_handed_out(wait: ServerFlightWaitView, message: MessageView)
    ensures
        wait.server_flight.contains(message) ==> wait.verdict(message) is None,
        !wait.server_flight.contains(message) ==> {
            let verdict = wait.verdict(message);
            &&& message.message_type == HandshakeType::ServerHello ==> verdict == Some(
                ServerFlightActionView::ServerHello(
                    if wait.recorded {
                        None
                    } else {
                        Some(wait.client_hello)
                    },
                    message,
                ),
            )
            &&& message.message_type == HandshakeType::ServerKeyExchange && wait.recorded
                ==> verdict == Some(ServerFlightActionView::KeyExchange(message))
            &&& message.message_type == HandshakeType::ServerHelloDone && wait.recorded && has_type(
                wait.server_flight,
                HandshakeType::ServerKeyExchange,
            ) ==> verdict == Some(ServerFlightActionView::HelloDone(message))
            &&& message.message_type == HandshakeType::Finished || message.message_type
                == HandshakeType::ClientHello || message.message_type
                == HandshakeType::ClientKeyExchange || message.message_type
                == HandshakeType::Certificate ==> verdict is Some && verdict->0 is Fail
        },
{
}

/// A plaintext alert fails a handshake wherever it arrives.
pub proof fn law_an_alert_fails_the_handshake(
    hello_verify: HelloVerifyWaitView,
    server_flight: ServerFlightWaitView,
    server_finished: ServerFinishedWaitView,
    client_flight: ClientFlightWaitView,
    alert: RecordView,
)
    requires
        alert.header.epoch == 0,
        alert.header.content_type == ContentType::Alert,
        hello_verify.records.len() > 0 && hello_verify.records[0] == alert,
        server_flight.messages.len() == 0,
        server_flight.records.len() > 0 && server_flight.records[0] == alert,
        server_finished.records.len() > 0 && server_finished.records[0] == alert,
        client_flight.messages.len() == 0,
        client_flight.records.len() > 0 && client_flight.records[0] == alert,
    ensures
        hello_verify.next().1 is Fail,
        server_flight.next().1 is Fail,
        server_finished.next().1 is Fail,
        client_flight.next().1 is Fail,
{
}

/// The client's last flight is its key exchange and a ChangeCipherSpec in the
/// next two plaintext records, and its Finished in epoch 1 under the client's
/// keys.
pub proof fn law_the_clients_last_flight(
    key_exchange: MessageView,
    finished: MessageView,
    session: SessionView,
    next_record: u64,
)
    requires
        session.role is Client,
        key_exchange.fits(),
        next_record < u64::MAX,
    ensures
        ({
            let flight = client_finished_flight_of(key_exchange, finished, session, next_record);
            let keys = session.key_material.key_block;
            &&& flight.len() == 3
            &&& carries(flight[0], seq![key_exchange])
            &&& flight[0].header.sequence_number == next_record
            &&& changes_cipher_spec(flight[1])
            &&& flight[1].header.sequence_number == next_record + 1
            &&& flight[2] == protected(
                ContentType::Handshake,
                1,
                session.next_sequence,
                keys.client_write_key@,
                keys.client_write_iv@,
                finished.encoding(),
            )
        }),
{
    law_message_round_trip(key_exchange);
}

/// The server's last flight is a ChangeCipherSpec in the next plaintext record
/// and its Finished in epoch 1 under the server's keys.
pub proof fn law_the_servers_last_flight(
    session: SessionView,
    finished: Seq<u8>,
    next_record: u64,
)
    requires
        session.role is Server,
    ensures
        ({
            let flight = server_finished_flight_of(session, finished, next_record);
            let keys = session.key_material.key_block;
            &&& flight.len() == 2
            &&& changes_cipher_spec(flight[0])
            &&& flight[0].header.sequence_number == next_record
            &&& flight[1] == protected(
                ContentType::Handshake,
                1,
                session.next_sequence,
                keys.server_write_key@,
                keys.server_write_iv@,
                finished,
            )
        }),
{
}

proof fn lemma_messages_fit(messages: Seq<MessageView>, next: u64, i: int)
    requires
        server_flight_error(messages, next) is None,
        0 <= i < messages.len(),
    ensures
        messages[i].fits(),
    decreases messages.len(),
{
    let shorter = messages.drop_last();
    if i < shorter.len() {
        lemma_messages_fit(shorter, next, i);
        assert(shorter[i] == messages[i]);
    }
}

/// The server's first flight carries its messages in order, each in a plaintext
/// record of its own, numbered upwards, and reads back from its datagram.
pub proof fn law_the_servers_first_flight(messages: Seq<MessageView>, next: u64, i: int)
    requires
        server_flight_error(messages, next) is None,
        next + messages.len() <= u64::MAX,
        0 <= i < messages.len(),
    ensures
        ({
            let flight = server_flight_of(messages, next);
            &&& flight.len() == messages.len()
            &&& carries(flight[i], seq![messages[i]])
            &&& flight[i].header.sequence_number == next + i
            &&& records_in(datagram_of(flight)) == Some(flight)
        }),
{
    let flight = server_flight_of(messages, next);
    lemma_messages_fit(messages, next, i);
    law_message_round_trip(messages[i]);
    lemma_flight_fits(messages, next);
    assert forall|j: int| 0 <= j < flight.len() implies (#[trigger] flight[j]).fits()
        && flight[j].known_version() by {}
    law_datagram_round_trip(flight);
}

/// A datagram belongs to the client's last flight exactly where it holds a
/// plaintext record with a key exchange, or a handshake record of epoch 1.
pub proof fn law_what_belongs_to_the_clients_last_flight(records: Seq<RecordView>)
    ensures
        client_finished_flight(records) <==> exists|i: int|
            0 <= i < records.len() && (#[trigger] records[i]).header.content_type
                == ContentType::Handshake && (records[i].header.epoch == 1
                || records[i].header.epoch == 0 && messages_in(records[i].payload) is Some
                && exists|j: int|
                0 <= j < messages_in(records[i].payload)->0.len() && (#[trigger] messages_in(
                    records[i].payload,
                )->0[j]).message_type == HandshakeType::ClientKeyExchange),
{
    if client_finished_flight(records) {
        let i = choose|i: int| 0 <= i < records.len() && client_finished_record(#[trigger] records[i]);
        assert(records[i].header.content_type == ContentType::Handshake);
    }
    if exists|i: int|
        0 <= i < records.len() && (#[trigger] records[i]).header.content_type
            == ContentType::Handshake && (records[i].header.epoch == 1 || records[i].header.epoch
            == 0 && messages_in(records[i].payload) is Some && exists|j: int|
            0 <= j < messages_in(records[i].payload)->0.len() && (#[trigger] messages_in(
                records[i].payload,
            )->0[j]).message_type == HandshakeType::ClientKeyExchange) {
        let i = choose|i: int|
            0 <= i < records.len() && (#[trigger] records[i]).header.content_type
                == ContentType::Handshake && (records[i].header.epoch == 1
                || records[i].header.epoch == 0 && messages_in(records[i].payload) is Some
                && exists|j: int|
                0 <= j < messages_in(records[i].payload)->0.len() && (#[trigger] messages_in(
                    records[i].payload,
                )->0[j]).message_type == HandshakeType::ClientKeyExchange);
        assert(client_finished_record(records[i]));
    }
}

/// A datagram repeats the ClientHello exactly where a plaintext handshake
/// record of it holds that message.
pub proof fn law_what_repeats_the_client_hello(records: Seq<RecordView>, hello: MessageView)
    ensures
        has_client_hello(records, hello) <==> exists|i: int|
            0 <= i < records.len() && (#[trigger] records[i]).header.epoch == 0
                && records[i].header.content_type == ContentType::Handshake && messages_in(
                records[i].payload,
            ) is Some && messages_in(records[i].payload)->0.contains(hello),
{
    if has_client_hello(records, hello) {
        let i = choose|i: int|
            0 <= i < records.len() && repeats_client_hello(#[trigger] records[i], hello);
        assert(records[i].header.epoch == 0);
    }
    if exists|i: int|
        0 <= i < records.len() && (#[trigger] records[i]).header.epoch == 0
            && records[i].header.content_type == ContentType::Handshake && messages_in(
            records[i].payload,
        ) is Some && messages_in(records[i].payload)->0.contains(hello) {
        let i = choose|i: int|
            0 <= i < records.len() && (#[trigger] records[i]).header.epoch == 0
                && records[i].header.content_type == ContentType::Handshake && messages_in(
                records[i].payload,
            ) is Some && messages_in(records[i].payload)->0.contains(hello);
        assert(repeats_client_hello(records[i], hello));
    }
}

/// The server's flight, repeated under other record numbers, is recognised as
/// the flight that was taken.
pub proof fn law_a_repeated_server_flight_is_recognised(
    wait: ServerFinishedWaitView,
    messages: Seq<MessageView>,
    next: u64,
)
    requires
        forall|i: int| 0 <= i < messages.len() ==> (#[trigger] messages[i]).fits(),
    ensures
        plaintext_messages(server_flight_of(messages, next)) == Some(messages),
        wait.is_duplicate(server_flight_of(messages, next)) <==> wait.server_flight == messages,
    decreases messages.len(),
{
    let flight = server_flight_of(messages, next);
    if messages.len() > 0 {
        let shorter = messages.drop_last();
        assert forall|i: int| 0 <= i < shorter.len() implies (#[trigger] shorter[i]).fits() by {
            assert(shorter[i] == messages[i]);
        }
        law_a_repeated_server_flight_is_recognised(wait, shorter, next);
        assert(flight.drop_last() =~= server_flight_of(shorter, next));
        assert(messages.last() == messages[messages.len() - 1]);
        law_message_round_trip(messages.last());
        assert(flight.last().payload == messages.last().encoding());
        assert(shorter + seq![messages.last()] =~= messages);
    } else {
        assert(messages =~= Seq::empty());
    }
}

/// A client that repeats its last flight sends it under the next two plaintext
/// numbers and the next protected one, and counts them as used.
pub proof fn law_a_rebuilt_flight_has_fresh_numbers(wait: ServerFinishedWaitView)
    requires
        wait.session.role is Client,
        wait.client_key_exchange.fits(),
        wait.next_record < 0xffff_ffff_ffff,
        wait.session.next_sequence < 0xffff_ffff_ffff,
    ensures
        ({
            let rebuilt = wait.rebuilt();
            &&& rebuilt.next_record == wait.next_record + 2
            &&& rebuilt.session.next_sequence == wait.session.next_sequence + 1
            &&& rebuilt.flight.len() == 3
            &&& carries(rebuilt.flight[0], seq![wait.client_key_exchange])
            &&& rebuilt.flight[0].header.sequence_number == wait.next_record
            &&& rebuilt.flight[1].header.sequence_number == wait.next_record + 1
            &&& rebuilt.flight[2].header.sequence_number == wait.session.next_sequence
            &&& rebuilt.client_finished == wait.client_finished
            &&& rebuilt.server_flight == wait.server_flight
            &&& rebuilt.answered == wait.answered
        }),
{
    law_the_clients_last_flight(
        wait.client_key_exchange,
        wait.client_finished,
        wait.session,
        wait.next_record,
    );
}

/// A flight of the client can be built exactly where its messages and numbers
/// fit the wire.
pub proof fn law_when_the_clients_last_flight_can_be_built(
    key_exchange: MessageView,
    finished: MessageView,
    session: SessionView,
    next_record: u64,
)
    requires
        next_record < u64::MAX,
    ensures
        finished_flight_error(key_exchange, finished, session, next_record) is None <==> {
            &&& key_exchange.payload.len() + 12 <= 0xffff
            &&& next_record + 1 <= 0xffff_ffff_ffff
            &&& finished.payload.len() + 28 <= 0xffff
            &&& session.next_sequence <= 0xffff_ffff_ffff
        },
{
    crate::dtls::handshake::lemma_message_encoding_len(key_exchange);
    crate::dtls::handshake::lemma_message_encoding_len(finished);
}

/// The only message of a record counts where it has the type asked for; two
/// messages, or another type, do not.
pub proof fn law_a_single_message_has_its_type(
    message: MessageView,
    other: MessageView,
    expected: HandshakeType,
)
    requires
        message.fits(),
        other.fits(),
    ensures
        single_message(message.encoding(), expected) == (if message.message_type == expected {
            Some(message)
        } else {
            None
        }),
        single_message(message.encoding() + other.encoding(), expected) is None,
{
    law_message_round_trip(message);
    law_message_round_trip(other);
    let both = message.encoding() + other.encoding();
    crate::dtls::handshake::law_encoded_message_parses(message, other.encoding());
    crate::dtls::handshake::lemma_message_encoding_len(message);
    assert(both.skip(message.encoding().len() as int) =~= other.encoding());
    assert(messages_in(both) == Some(seq![message] + seq![other]));
    assert(seq![message][0] == message);
}

/// The messages of a record follow each other: behind a whole message come
/// those of the rest, and where the rest is not whole messages there are none.
pub proof fn law_messages_follow_each_other(message: MessageView, rest: Seq<u8>)
    requires
        message.fits(),
    ensures
        messages_in(rest) is None ==> messages_in(message.encoding() + rest) is None,
        messages_in(rest) matches Some(more) ==> messages_in(message.encoding() + rest) == Some(
            seq![message] + more,
        ),
        0 < rest.len() < 12 ==> messages_in(rest) is None,
{
    let all = message.encoding() + rest;
    crate::dtls::handshake::law_encoded_message_parses(message, rest);
    crate::dtls::handshake::lemma_message_encoding_len(message);
    assert(all.skip(message.encoding().len() as int) =~= rest);
}

/// A ServerHello that opens a record is handed out, with the ClientHello where
/// that was not recorded yet.
pub proof fn law_a_server_hello_is_handed_out(
    wait: ServerFlightWaitView,
    message: MessageView,
    more: Seq<MessageView>,
)
    requires
        wait.messages.len() == 0,
        wait.records.len() > 0,
        wait.records[0].header.content_type == ContentType::Handshake,
        messages_in(wait.records[0].payload) == Some(seq![message] + more),
        message.message_type == HandshakeType::ServerHello,
        !wait.server_flight.contains(message),
    ensures
        wait.next().1 == ServerFlightActionView::ServerHello(
            if wait.recorded {
                None
            } else {
                Some(wait.client_hello)
            },
            message,
        ),
        wait.next().0.messages == more,
        wait.next().0.records == wait.records.drop_first(),
{
    let record = wait.records[0];
    let messages = messages_in(record.payload)->0;
    let held = ServerFlightWaitView {
        records: wait.records.drop_first(),
        record_in_hand: Some(record),
        messages,
        ..wait
    };
    assert(wait.next() == held.next());
    assert(messages.drop_first() =~= more);
    assert(messages[0] == message);
}

/// A plaintext flight that is repeated is numbered from the next number on
/// without a gap, and the number behind it is the next one then.
pub proof fn law_a_repeated_flight_is_numbered_on(records: Seq<RecordView>, next: u64, i: int)
    requires
        forall|j: int| 0 <= j < records.len() ==> (#[trigger] records[j]).header.epoch == 0,
        next + records.len() <= u64::MAX,
        0 <= i <= records.len(),
    ensures
        plaintext_count(records.take(i)) == i,
        i < records.len() ==> renumbered(records, next)[i].header.sequence_number == next + i,
        i == records.len() ==> sequence_after(records, next) == next + records.len(),
    decreases i,
{
    if i > 0 {
        law_a_repeated_flight_is_numbered_on(records, next, i - 1);
        assert(records.take(i).drop_last() =~= records.take(i - 1));
        assert(records.take(i).last() == records[i - 1]);
    }
    if i == records.len() {
        assert(records.take(i) =~= records);
    }
}

} // verus!
