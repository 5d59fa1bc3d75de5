//! What a joiner session promises over everything that happens to it.

use vstd::prelude::*;

use crate::commissioner::coap::{message_in, CoapView};
use crate::commissioner::error::ErrorView;
use crate::commissioner::joiner::{
    finalize_info_in, join_fin_response, JoinerActionView, JoinerEventView, JoinerSessionPhase,
    JoinerView, Opening, Step, JOINER_SESSION_TIMEOUT, MAX_DUPLICATE_FLIGHT_RETRANSMISSIONS,
    MAX_INSTANT,
};
use crate::commissioner::messages::{path_of, URI_JOIN_FIN};
use crate::commissioner::types::FinalizeView;
use crate::dtls::flight::client_finished_flight;
use crate::dtls::handshake::{
    client_hello_in, hello_verify_record_view, messages_in, HandshakeType, HelloView, MessageView,
};
use crate::dtls::protection::{protected, ThreadDtlsKeyMaterial};
use crate::dtls::record::{
    datagram_of, lemma_parsed_records_fit, records_in, ContentType, RecordView, MAX_PAYLOAD_LEN,
    MAX_SEQUENCE_NUMBER,
};

verus! {

/// What can happen to a session: the calls that its owner makes.
pub enum JoinerCall {
    /// A relay payload arrives.
    Receive(Seq<u8>),
    /// The session is asked what to do next.
    Next,
    /// A ClientHello is accepted.
    HelloAccepted { message: MessageView, record_sequence: u64, answer: Seq<MessageView> },
    /// A ClientHello is refused.
    HelloRefused { message_seq: u16, record_sequence: u64, cookie: Seq<u8> },
    /// A key exchange is taken.
    KeyExchangeTaken { message: MessageView, keys: ThreadDtlsKeyMaterial },
    /// The joiner's Finished is verified.
    FinishedVerified(MessageView),
    /// The joiner is decided on.
    Finalized(bool),
}

/// The session after a call.
pub open spec fn after_call(session: JoinerView, call: JoinerCall) -> JoinerView {
    match call {
        JoinerCall::Receive(payload) => session.with_payload(payload),
        JoinerCall::Next => session.next().0,
        JoinerCall::HelloAccepted { message, record_sequence, answer } => session.with_hello(
            message,
            record_sequence,
            answer,
        ),
        JoinerCall::HelloRefused { message_seq, record_sequence, cookie } => session.with_refusal(
            message_seq,
            record_sequence,
            cookie,
        ),
        JoinerCall::KeyExchangeTaken { message, keys } => session.with_keys(message, keys),
        JoinerCall::FinishedVerified(message) => session.with_finished(message),
        JoinerCall::Finalized(accepted) => session.with_decision(accepted),
    }
}

/// The session after calls, the first of them first.
pub open spec fn after_calls(session: JoinerView, calls: Seq<JoinerCall>) -> JoinerView
    decreases calls.len(),
{
    if calls.len() == 0 {
        session
    } else {
        after_call(after_calls(session, calls.drop_last()), calls.last())
    }
}

/// Whether two states belong to the session of one joiner with one deadline.
pub open spec fn same_session(one: JoinerView, other: JoinerView) -> bool {
    &&& one.joiner_id == other.joiner_id
    &&& one.joiner_iid == other.joiner_iid
    &&& one.joiner_udp_port == other.joiner_udp_port
    &&& one.joiner_router_locator == other.joiner_router_locator
    &&& one.expires_at == other.expires_at
}

proof fn lemma_next_is_same_session(session: JoinerView)
    ensures
        same_session(session.next().0, session),
    decreases session.records.len(), session.messages.len() + session.protected_messages.len(),
{
    if session.request is Some {
    } else if session.messages.len() > 0 {
        let rest = JoinerView { messages: session.messages.drop_first(), ..session };
        if let Step::Continue(after) = rest.message_step(session.messages[0]) {
            lemma_next_is_same_session(after);
        }
    } else if session.protected_messages.len() > 0 {
        lemma_next_is_same_session(
            JoinerView {
                protected_messages: session.protected_messages.drop_first(),
                ..session
            },
        );
    } else if session.records.len() > 0 {
        let rest = JoinerView { records: session.records.drop_first(), ..session };
        if let Step::Continue(after) = rest.record_step(session.records[0]) {
            lemma_next_is_same_session(after);
        }
    }
}

/// Nothing that happens to a session moves its deadline, or makes it another
/// joiner's.
pub proof fn law_traffic_does_not_extend_a_session(session: JoinerView, calls: Seq<JoinerCall>)
    ensures
        same_session(after_calls(session, calls), session),
    decreases calls.len(),
{
    if calls.len() > 0 {
        law_traffic_does_not_extend_a_session(session, calls.drop_last());
        lemma_next_is_same_session(after_calls(session, calls.drop_last()));
    }
}

/// A session is past its deadline from 80 seconds after it began on, whatever
/// happens to it, and not before.
pub proof fn law_a_session_expires_after_its_timeout(
    joiner_iid: Seq<u8>,
    joiner_udp_port: u16,
    joiner_router_locator: u16,
    began: u128,
    calls: Seq<JoinerCall>,
    now: u128,
)
    requires
        began <= MAX_INSTANT,
    ensures
        ({
            let session = JoinerView::fresh(
                joiner_iid,
                joiner_udp_port,
                joiner_router_locator,
                began,
            );
            now >= after_calls(session, calls).expires_at <==> now >= began
                + JOINER_SESSION_TIMEOUT
        }),
{
    law_traffic_does_not_extend_a_session(
        JoinerView::fresh(joiner_iid, joiner_udp_port, joiner_router_locator, began),
        calls,
    );
}

/// What a session does first with a payload that it is given.
pub open spec fn delivered(session: JoinerView, payload: Seq<u8>) -> (
    JoinerView,
    JoinerActionView,
) {
    session.with_payload(payload).next()
}

/// The session with nothing of a payload in hand.
pub open spec fn put_aside(session: JoinerView) -> JoinerView {
    JoinerView {
        records: Seq::empty(),
        messages: Seq::empty(),
        protected_messages: Seq::empty(),
        request: None,
        events: Seq::empty(),
        ..session
    }
}

/// Whether a payload is one plaintext record with the given number that
/// carries one ClientHello.
pub open spec fn carries_hello(
    payload: Seq<u8>,
    record_sequence: u64,
    message: MessageView,
    hello: HelloView,
) -> bool {
    &&& records_in(payload) matches Some(records)
    &&& records.len() == 1
    &&& records[0].header.epoch == 0
    &&& records[0].header.content_type == ContentType::Handshake
    &&& records[0].header.sequence_number == record_sequence
    &&& messages_in(records[0].payload) == Some(seq![message])
    &&& message.message_type == HandshakeType::ClientHello
    &&& client_hello_in(message.payload) == Some(hello)
}

proof fn lemma_hello_asks(
    session: JoinerView,
    payload: Seq<u8>,
    record_sequence: u64,
    message: MessageView,
    hello: HelloView,
)
    requires
        session.phase == JoinerSessionPhase::AwaitingClientHello,
        carries_hello(payload, record_sequence, message, hello),
    ensures
        delivered(session, payload) == (
            JoinerView { was_established: false, record_sequence, ..put_aside(session) },
            JoinerActionView::CheckCookie { message, record_sequence, hello },
        ),
{
    let records = records_in(payload)->0;
    let given = session.with_payload(payload);
    assert(given == session.loaded(records));
    let rest = JoinerView { records: given.records.drop_first(), ..given };
    assert(given.records[0] == records[0]);
    assert(rest.records =~= Seq::empty());
    let opened = JoinerView { messages: seq![message], record_sequence, ..rest };
    assert(rest.record_step(records[0]) == Step::Continue(opened));
    assert(given.next() == opened.next());
    assert(opened.messages[0] == message);
    assert(opened.messages.drop_first() =~= Seq::empty());
}

/// A ClientHello whose cookie is not valid leaves no trace: it is answered
/// with a HelloVerifyRequest of its own numbers, nothing but what keeps track
/// of the payload changes, and delivered a second time it gets the same answer
/// and leaves the same state.
pub proof fn law_an_unverified_hello_leaves_no_trace(
    session: JoinerView,
    payload: Seq<u8>,
    record_sequence: u64,
    message: MessageView,
    hello: HelloView,
    cookie: Seq<u8>,
)
    requires
        session.phase == JoinerSessionPhase::AwaitingClientHello,
        carries_hello(payload, record_sequence, message, hello),
        cookie.len() <= 255,
    ensures
        ({
            let asked = delivered(session, payload);
            let done = asked.0.with_refusal(message.message_seq, record_sequence, cookie).next();
            let asked_again = delivered(done.0, payload);
            let done_again = asked_again.0.with_refusal(
                message.message_seq,
                record_sequence,
                cookie,
            ).next();
            &&& asked.1 == (JoinerActionView::CheckCookie { message, record_sequence, hello })
            &&& done.1 == JoinerActionView::Done(
                seq![
                    JoinerEventView::Transmit {
                        datagram: hello_verify_record_view(
                            message.message_seq,
                            record_sequence,
                            cookie,
                        ).encoding(),
                        include_kek: false,
                    },
                ],
            )
            &&& done.0 == (JoinerView {
                was_established: false,
                record_sequence,
                ..put_aside(session)
            })
            &&& asked_again.1 == asked.1
            &&& done_again == done
        }),
{
    let answer = JoinerEventView::Transmit {
        datagram: hello_verify_record_view(
            message.message_seq,
            record_sequence,
            cookie,
        ).encoding(),
        include_kek: false,
    };
    let quiet = JoinerView { was_established: false, record_sequence, ..put_aside(session) };
    lemma_parsed_records_fit(payload);
    lemma_hello_asks(session, payload, record_sequence, message, hello);
    assert(records_in(payload)->0[0].fits());
    assert(Seq::<JoinerEventView>::empty().push(answer) =~= seq![answer]);
    let refused = quiet.with_refusal(message.message_seq, record_sequence, cookie);
    assert(refused == JoinerView { events: seq![answer], ..quiet });
    assert(refused.next() == (quiet, JoinerActionView::Done(seq![answer])));
    lemma_hello_asks(quiet, payload, record_sequence, message, hello);
}

/// Whether a record can belong to a joiner's key exchange, ChangeCipherSpec
/// and Finished.
pub open spec fn finished_flight_record(record: RecordView) -> bool {
    ||| record.header.content_type == ContentType::Handshake && record.header.epoch <= 1
    ||| record.header.content_type == ContentType::ChangeCipherSpec && record.header.epoch == 0
        && record.payload == seq![1u8]
}

/// Whether a payload is a joiner's last flight of the handshake.
pub open spec fn is_finished_flight(payload: Seq<u8>) -> bool {
    &&& records_in(payload) matches Some(records)
    &&& client_finished_flight(records)
    &&& forall|i: int| 0 <= i < records.len() ==> finished_flight_record(#[trigger] records[i])
}

/// The session after a payload was delivered some times and worked through.
pub open spec fn after_copies(session: JoinerView, payload: Seq<u8>, copies: nat) -> JoinerView
    decreases copies,
{
    if copies == 0 {
        session
    } else {
        delivered(after_copies(session, payload, (copies - 1) as nat), payload).0
    }
}

/// An established session passes over the records of a handshake flight.
proof fn lemma_flight_is_passed_over(session: JoinerView)
    requires
        session.established(),
        session.was_established,
        session.request is None,
        session.messages.len() == 0,
        session.protected_messages.len() == 0,
        forall|i: int|
            0 <= i < session.records.len() ==> finished_flight_record(
                #[trigger] session.records[i],
            ),
    ensures
        session.next().1 == JoinerActionView::Done(session.events),
        session.next().0 == (JoinerView {
            saw_change_cipher_spec: session.next().0.saw_change_cipher_spec,
            records: Seq::empty(),
            events: Seq::empty(),
            ..session
        }),
    decreases session.records.len(),
{
    if session.records.len() == 0 {
        assert(session.records =~= Seq::empty());
    } else {
        let record = session.records[0];
        let rest = JoinerView { records: session.records.drop_first(), ..session };
        assert(finished_flight_record(record));
        assert(forall|i: int|
            0 <= i < rest.records.len() ==> #[trigger] rest.records[i] == session.records[i + 1]);
        lemma_flight_is_passed_over(rest);
        lemma_flight_is_passed_over(JoinerView { saw_change_cipher_spec: true, ..rest });
    }
}

/// How often a flight of the joiner is answered again in `copies` deliveries.
pub open spec fn answered_copies(session: JoinerView, copies: nat) -> nat {
    let left = MAX_DUPLICATE_FLIGHT_RETRANSMISSIONS - session.finished_retransmissions;
    if copies <= left {
        copies
    } else if left > 0 {
        left as nat
    } else {
        0
    }
}

/// What a session with the given numbers ahead of its own sends once more: the
/// same ChangeCipherSpec and Finished.
pub open spec fn repeated_flight(session: JoinerView, ahead: nat) -> JoinerEventView {
    JoinerEventView::Transmit {
        datagram: datagram_of(
            JoinerView {
                epoch0_sequence: (session.epoch0_sequence + ahead) as u64,
                epoch1_sequence: (session.epoch1_sequence + ahead) as u64,
                ..session
            }.finished_flight(),
        ),
        include_kek: false,
    }
}

/// Whether the record numbers suffice for the answers that copies of the
/// joiner's last flight may still get.
pub open spec fn numbers_suffice(session: JoinerView) -> bool {
    let left = MAX_DUPLICATE_FLIGHT_RETRANSMISSIONS - session.finished_retransmissions;
    &&& session.epoch0_sequence + left <= MAX_SEQUENCE_NUMBER + 1
    &&& session.epoch1_sequence + left <= MAX_SEQUENCE_NUMBER + 1
}

/// Whether a session still holds the Finished that a copy of the joiner's last
/// flight asks for, and has room for the records of the answers.
spec fn holds_finished(session: JoinerView) -> bool {
    &&& session.established()
    &&& session.server_finished.len() > 0
    &&& session.server_finished.len() + 16 <= MAX_PAYLOAD_LEN
    &&& session.key_material is Some
    &&& session.finished_retransmissions <= MAX_DUPLICATE_FLIGHT_RETRANSMISSIONS
    &&& numbers_suffice(session)
}

/// Whether `after` differs from the session by as many more answers to copies
/// of the joiner's last flight.
spec fn answered_more(session: JoinerView, after: JoinerView, more: nat) -> bool {
    &&& after.phase == session.phase
    &&& after.server_finished == session.server_finished
    &&& after.key_material == session.key_material
    &&& after.finished_retransmissions == session.finished_retransmissions + more
    &&& after.epoch0_sequence == session.epoch0_sequence + more
    &&& after.epoch1_sequence == session.epoch1_sequence + more
}

proof fn lemma_copy(session: JoinerView, payload: Seq<u8>)
    requires
        holds_finished(session),
        is_finished_flight(payload),
    ensures
        session.payload_error(payload) is None,
        session.finished_retransmissions < MAX_DUPLICATE_FLIGHT_RETRANSMISSIONS ==> delivered(
            session,
            payload,
        ).1 == JoinerActionView::Done(
            seq![
                JoinerEventView::Transmit {
                    datagram: datagram_of(session.finished_flight()),
                    include_kek: false,
                },
            ],
        ) && answered_more(session, delivered(session, payload).0, 1),
        session.finished_retransmissions == MAX_DUPLICATE_FLIGHT_RETRANSMISSIONS ==> delivered(
            session,
            payload,
        ).1 == JoinerActionView::Done(Seq::empty()) && answered_more(
            session,
            delivered(session, payload).0,
            0,
        ),
{
    let records = records_in(payload)->0;
    let given = session.with_payload(payload);
    assert(given == session.received(records));
    lemma_flight_is_passed_over(given);
    if session.finished_retransmissions < MAX_DUPLICATE_FLIGHT_RETRANSMISSIONS {
        let flight = session.finished_flight();
        assert(session.loaded(records).finished_flight() =~= flight);
        assert(given.events =~= seq![
            JoinerEventView::Transmit { datagram: datagram_of(flight), include_kek: false },
        ]);
    } else {
        assert(given.events =~= Seq::empty());
    }
}

proof fn lemma_copies(session: JoinerView, payload: Seq<u8>, copies: nat)
    requires
        holds_finished(session),
        is_finished_flight(payload),
    ensures
        answered_more(
            session,
            after_copies(session, payload, copies),
            answered_copies(session, copies),
        ),
        holds_finished(after_copies(session, payload, copies)),
    decreases copies,
{
    if copies > 0 {
        lemma_copies(session, payload, (copies - 1) as nat);
        lemma_copy(after_copies(session, payload, (copies - 1) as nat), payload);
    }
}

/// The joiner's last flight, delivered again to a session that still holds its
/// Finished, is answered with the same ChangeCipherSpec and Finished in records
/// with numbers that no answer before had, four times in all; further copies
/// are taken and not answered. Nothing else comes of them. Record numbers are
/// left out that have no room on the wire.
pub proof fn law_a_repeated_flight_is_answered_four_times(
    session: JoinerView,
    payload: Seq<u8>,
    copies: nat,
)
    requires
        session.valid(),
        session.established(),
        session.server_finished.len() > 0,
        session.server_finished.len() + 16 <= MAX_PAYLOAD_LEN,
        session.key_material is Some,
        is_finished_flight(payload),
        numbers_suffice(session),
    ensures
        ({
            let before = after_copies(session, payload, copies);
            let answered = answered_copies(session, copies);
            &&& before.payload_error(payload) is None
            &&& before.finished_retransmissions == session.finished_retransmissions + answered
            &&& before.epoch0_sequence == session.epoch0_sequence + answered
            &&& before.epoch1_sequence == session.epoch1_sequence + answered
            &&& delivered(before, payload).1 == JoinerActionView::Done(
                if session.finished_retransmissions + copies
                    < MAX_DUPLICATE_FLIGHT_RETRANSMISSIONS {
                    seq![repeated_flight(session, copies)]
                } else {
                    Seq::empty()
                },
            )
        }),
{
    lemma_copies(session, payload, copies);
    let before = after_copies(session, payload, copies);
    lemma_copy(before, payload);
    if session.finished_retransmissions + copies < MAX_DUPLICATE_FLIGHT_RETRANSMISSIONS {
        let ahead = JoinerView {
            epoch0_sequence: (session.epoch0_sequence + copies) as u64,
            epoch1_sequence: (session.epoch1_sequence + copies) as u64,
            ..session
        };
        assert(before.finished_flight() =~= ahead.finished_flight());
    }
}

/// A finalization as it is relayed: the payload, the request in it, and what
/// the request tells of the joiner.
pub struct Finalization {
    pub payload: Seq<u8>,
    pub request: CoapView,
    pub info: FinalizeView,
}

/// Whether the payload is one record that is authentic and new to the session
/// and carries the finalization.
pub open spec fn carries_finalization(session: JoinerView, finalization: Finalization) -> bool {
    &&& records_in(finalization.payload) matches Some(records)
    &&& records.len() == 1
    &&& records[0].header.epoch == 1
    &&& records[0].header.content_type == ContentType::ApplicationData
    &&& session.open(records[0]) matches Opening::Opened(plaintext)
    &&& message_in(plaintext) == Some(finalization.request)
    &&& path_of(finalization.request) == Ok::<Option<Seq<char>>, ErrorView>(
        Some(URI_JOIN_FIN@),
    )
    &&& finalize_info_in(finalization.request.payload) == Ok::<FinalizeView, ErrorView>(
        finalization.info,
    )
}

/// The answer to a finalization in the session's next record.
pub open spec fn join_fin_answer(session: JoinerView, request: CoapView, accepted: bool)
    -> JoinerEventView {
    let keys = session.key_material->0.key_block;
    JoinerEventView::Transmit {
        datagram: protected(
            ContentType::ApplicationData,
            1,
            session.epoch1_sequence,
            keys.server_write_key@,
            keys.server_write_iv@,
            join_fin_response(request, accepted).encoding(),
        ).encoding(),
        include_kek: accepted,
    }
}

/// What a session makes of a payload where `accepted` is the decision, should
/// it ask for one: the session then, and the results.
pub open spec fn served(session: JoinerView, payload: Seq<u8>, accepted: bool) -> (
    JoinerView,
    JoinerActionView,
) {
    let (asked, action) = delivered(session, payload);
    if action is Finalize {
        asked.with_decision(accepted).next()
    } else {
        (asked, action)
    }
}

/// The session after finalizations were served, the first of them first.
pub open spec fn after_finalizations(
    session: JoinerView,
    finalizations: Seq<Finalization>,
    accepted: bool,
) -> JoinerView
    decreases finalizations.len(),
{
    if finalizations.len() == 0 {
        session
    } else {
        served(
            after_finalizations(session, finalizations.drop_last(), accepted),
            finalizations.last().payload,
            accepted,
        ).0
    }
}

proof fn lemma_answer_fits(session: JoinerView, finalization: Finalization, accepted: bool)
    requires
        carries_finalization(session, finalization),
        session.epoch1_sequence <= MAX_SEQUENCE_NUMBER,
    ensures
        session.answer_error(finalization.request, accepted) is None,
        session.key_material is Some,
{
    let response = join_fin_response(finalization.request, accepted);
    crate::bytes::lemma_be_bytes(response.message_id as nat, 2);
    assert(response.options.len() == 0);
    assert(response.token.len() <= 8);
    assert(response.encoding().len() <= 64);
}

/// One finalization: asked about where no decision was made, answered with the
/// decision either way, and reported where the session was not finalized yet.
proof fn lemma_finalization(session: JoinerView, finalization: Finalization, accepted: bool)
    requires
        session.established(),
        session.finalize_decision is None ==> session.phase == JoinerSessionPhase::Connected,
        session.finalize_decision is Some ==> session.finalize_decision == Some(accepted)
            && session.phase == JoinerSessionPhase::Finalized,
        carries_finalization(session, finalization),
        session.epoch1_sequence <= MAX_SEQUENCE_NUMBER,
    ensures
        ({
            let after = served(session, finalization.payload, accepted);
            let answer = join_fin_answer(session, finalization.request, accepted);
            &&& delivered(session, finalization.payload).1 is Finalize
                <==> session.finalize_decision is None
            &&& session.finalize_decision is None ==> delivered(session, finalization.payload).1
                == JoinerActionView::Finalize(finalization.info)
            &&& after.1 == JoinerActionView::Done(
                if session.finalize_decision is None {
                    seq![
                        answer,
                        JoinerEventView::Finalized { accepted, info: finalization.info },
                    ]
                } else {
                    seq![answer]
                },
            )
            &&& after.0.finalize_decision == Some(accepted)
            &&& after.0.phase == JoinerSessionPhase::Finalized
            &&& after.0.key_material == session.key_material
            &&& after.0.epoch1_sequence == session.epoch1_sequence + 1
        }),
{
    let records = records_in(finalization.payload)->0;
    let record = records[0];
    let request = finalization.request;
    let info = finalization.info;
    let answer = join_fin_answer(session, request, accepted);
    lemma_answer_fits(session, finalization, accepted);
    assert forall|i: int| 0 <= i < records.len() implies !(
    #[trigger] crate::dtls::flight::client_finished_record(records[i])) by {}
    assert(!client_finished_flight(records));
    let given = session.with_payload(finalization.payload);
    assert(given == session.loaded(records));
    let rest = JoinerView { records: given.records.drop_first(), ..given };
    assert(given.records[0] == record);
    assert(rest.records =~= Seq::empty());
    assert(rest.open(record) == session.open(record));
    let opened = JoinerView {
        server_finished: Seq::empty(),
        ..rest.after_open(record.header.sequence_number)
    };
    let plaintext = session.open(record)->Opened_0;
    assert(rest.record_step(record) == opened.request_step(plaintext));
    assert(opened.answer_error(request, accepted) == session.answer_error(request, accepted));
    let done = opened.answered(request, info, accepted);
    if session.finalize_decision is None {
        let asked = JoinerView { request: Some((request, info)), ..opened };
        assert(given.next() == (asked, JoinerActionView::Finalize(info)));
        assert(asked.answer_error(request, accepted) == session.answer_error(request, accepted));
        assert(JoinerView { request: None, ..asked } == opened);
        assert(asked.with_decision(accepted) == done);
        assert(done.events =~= seq![answer, JoinerEventView::Finalized { accepted, info }]);
    } else {
        assert(given.next() == done.next());
        assert(done.events =~= seq![answer]);
    }
    assert(done.next().1 == JoinerActionView::Done(done.events));
}

proof fn lemma_after_finalizations(
    session: JoinerView,
    finalizations: Seq<Finalization>,
    accepted: bool,
    i: int,
)
    requires
        session.valid(),
        session.established(),
        session.finalize_decision is None,
        session.epoch1_sequence + finalizations.len() <= MAX_SEQUENCE_NUMBER + 1,
        forall|j: int|
            0 <= j < finalizations.len() ==> carries_finalization(
                #[trigger] after_finalizations(session, finalizations.take(j), accepted),
                finalizations[j],
            ),
        0 <= i <= finalizations.len(),
    ensures
        ({
            let before = after_finalizations(session, finalizations.take(i), accepted);
            &&& before.established()
            &&& before.epoch1_sequence == session.epoch1_sequence + i
            &&& if i == 0 {
                before == session
            } else {
                before.finalize_decision == Some(accepted) && before.phase
                    == JoinerSessionPhase::Finalized && before.key_material
                    == session.key_material
            }
        }),
    decreases i,
{
    if i == 0 {
        assert(finalizations.take(0).len() == 0);
    } else {
        lemma_after_finalizations(session, finalizations, accepted, i - 1);
        let before = after_finalizations(session, finalizations.take(i - 1), accepted);
        assert(finalizations.take(i).drop_last() =~= finalizations.take(i - 1));
        assert(finalizations.take(i).last() == finalizations[i - 1]);
        lemma_finalization(before, finalizations[i - 1], accepted);
    }
}

/// A joiner is decided on once: the first finalization asks for a decision,
/// with what it tells of the joiner, and every finalization, the first and
/// those repeated or sent anew, is answered with that decision under its own
/// message ID and token, each in a record of its own number. The KEK goes with
/// the answers exactly where the joiner is accepted, and the decision is
/// reported once. Record numbers are left out that have no room on the wire.
pub proof fn law_every_finalization_gets_the_one_decision(
    session: JoinerView,
    finalizations: Seq<Finalization>,
    accepted: bool,
    i: int,
)
    requires
        session.valid(),
        session.established(),
        session.finalize_decision is None,
        session.epoch1_sequence + finalizations.len() <= MAX_SEQUENCE_NUMBER + 1,
        forall|j: int|
            0 <= j < finalizations.len() ==> carries_finalization(
                #[trigger] after_finalizations(session, finalizations.take(j), accepted),
                finalizations[j],
            ),
        0 <= i < finalizations.len(),
    ensures
        ({
            let before = after_finalizations(session, finalizations.take(i), accepted);
            let finalization = finalizations[i];
            let asked = delivered(before, finalization.payload).1;
            let answer = join_fin_answer(before, finalization.request, accepted);
            &&& asked is Finalize <==> i == 0
            &&& i == 0 ==> asked == JoinerActionView::Finalize(finalization.info)
            &&& before.epoch1_sequence == session.epoch1_sequence + i
            &&& served(before, finalization.payload, accepted).1 == JoinerActionView::Done(
                if i == 0 {
                    seq![
                        answer,
                        JoinerEventView::Finalized { accepted, info: finalization.info },
                    ]
                } else {
                    seq![answer]
                },
            )
        }),
{
    lemma_after_finalizations(session, finalizations, accepted, i);
    let before = after_finalizations(session, finalizations.take(i), accepted);
    lemma_finalization(before, finalizations[i], accepted);
}

} // verus!
