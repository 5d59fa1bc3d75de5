//! What a session does with what arrives, and what it puts on the wire.

use vstd::prelude::*;
use vstd::utf8::encode_utf8;

use crate::bytes::high_low;
use crate::commissioner::coap::{message_in, CoapType, CoapView};
use crate::commissioner::config::KeepAlive;
use crate::commissioner::driver::consistency::{
    consistent, going_idle, law_a_step_is_consistent, law_input_is_consistent, lemma_closed_step,
};
use crate::commissioner::driver::model::{
    keep_alive_end, keep_alive_result, lemma_step_is_lighter, petition_result, resign_result,
    DriverView,
};
use crate::commissioner::driver::parts::{
    CommandView, DriverActionView, EffectView, OutcomeView, RelayOutputView, ReplyView,
    WaitingView, WorkView,
};
use crate::commissioner::driver::promises::{lemma_delivery, resting};
use crate::commissioner::duplicates::reply_in;
use crate::commissioner::error::ErrorView;
use crate::commissioner::exchange::{
    application_count, earliest_timer, lemma_no_position, lemma_position, Completion, ExchangesView, OutboundView,
    PendingView,
};
use crate::commissioner::joiner::{JoinerEventView, JoinerView};
use crate::commissioner::joiner_laws::JoinerCall;
use crate::commissioner::joiner_sessions::output_of;
use crate::commissioner::messages::{
    has_path, notification_in, path_of, state_in, udp_rx_in, MeshcopState, NotificationView,
};
use crate::commissioner::tlv::{last_value_of, tlvs_in, TlvView};
use crate::commissioner::types::{
    CloseReasonView, DestinationView, EventView, PetitionView, ResultCode, SessionStatusView,
};
use crate::commissioner::wire_laws::{
    holds, is_request, law_a_keep_alive_carries_the_session, law_a_petition_carries_the_id,
    law_a_proxied_datagram_names_its_destination, law_a_proxied_datagram_names_its_source,
    law_a_relayed_payload_is_read, law_a_session_answers_the_joiner_it_was_begun_for,
    law_other_messages_are_not_proxied, law_the_answer_to_a_petition_is_read,
    law_the_state_is_one_byte, lemma_paths, tlv,
};

verus! {

/// Whether a message is a POST request that was not answered before.
pub open spec fn is_new_request(
    session: DriverView,
    message: CoapView,
    origin: DestinationView,
    now: u128,
) -> bool {
    &&& message.code == 2
    &&& message.ty == CoapType::NonConfirmable || message.ty == CoapType::Confirmable
    &&& message.ty == CoapType::Confirmable ==> reply_in(
        session.answered,
        origin,
        message.message_id,
        now,
    ) is None
}

/// A new notification is taken for what it is: it completes no exchange.
pub(crate) proof fn lemma_new_request(
    session: DriverView,
    message: CoapView,
    origin: DestinationView,
    notification: NotificationView,
    now: u128,
)
    requires
        is_new_request(session, message, origin, now),
        notification_in(message) == Ok::<Option<NotificationView>, ErrorView>(Some(notification)),
    ensures
        session.route(message, origin, now) == (if message.ty == CoapType::Confirmable {
            session.refreshed(now)
        } else {
            session
        }).route_notification(notification, message, origin, now),
{
    let proxied = origin is Mesh;
    lemma_no_position(
        session.exchanges.in_flight,
        |p: PendingView| p.acknowledged_by(message, proxied),
    );
    lemma_no_position(
        session.exchanges.in_flight,
        |p: PendingView| p.answered_by(message, proxied),
    );
    assert(session.refreshed(now).exchanges == session.exchanges);
}

/// A relayed payload goes to its joiner's session with the port, the locator,
/// the IID and the payload in the TLVs of the message, and what that session
/// asks for names the same port, locator and IID, whatever happened to the
/// session meanwhile.
pub proof fn law_a_relayed_payload_reaches_its_joiner(
    session: DriverView,
    message: CoapView,
    tlvs: Seq<TlvView>,
    port: u16,
    locator: u16,
    iid: Seq<u8>,
    payload: Seq<u8>,
    now: u128,
    calls: Seq<JoinerCall>,
    datagram: Seq<u8>,
)
    requires
        resting(session),
        !session.closed(),
        session.handles_joiners,
        is_new_request(session, message, DestinationView::BorderAgent, now),
        has_path(message, "c/rx"@),
        holds(message, tlvs),
        last_value_of(tlvs, 18) == Some(high_low(port as nat)),
        last_value_of(tlvs, 20) == Some(high_low(locator as nat)),
        last_value_of(tlvs, 19) == Some(iid),
        iid.len() == 8,
        last_value_of(tlvs, 17) == Some(payload),
        datagram.len() <= 0xffff,
    ensures
        ({
            let after = session.given(WorkView::Received(message)).run(now);
            &&& after.effects == session.effects
            &&& after.waiting.action() matches DriverActionView::Relay {
                joiner_udp_port,
                joiner_router_locator,
                joiner_iid,
                payload: handed_over,
            }
            &&& joiner_udp_port == port
            &&& joiner_router_locator == locator
            &&& joiner_iid == iid
            &&& handed_over == payload
            &&& output_of(
                crate::commissioner::joiner_laws::after_calls(
                    JoinerView::fresh(joiner_iid, joiner_udp_port, joiner_router_locator, now),
                    calls,
                ),
                JoinerEventView::Transmit { datagram, include_kek: false },
                None,
            ) matches Ok(RelayOutputView::Send(answer))
            &&& is_request(answer, CoapType::NonConfirmable, "c/tx"@)
            &&& tlvs_in(answer.payload) matches Some(sent)
            &&& last_value_of(sent, 18) == last_value_of(tlvs, 18)
            &&& last_value_of(sent, 20) == last_value_of(tlvs, 20)
            &&& last_value_of(sent, 19) == last_value_of(tlvs, 19)
            &&& last_value_of(sent, 17) == Some(datagram)
            &&& last_value_of(sent, 21) is None
        }),
{
    let origin = DestinationView::BorderAgent;
    lemma_paths();
    law_other_messages_are_not_proxied(message, "c/rx"@, tlvs);
    law_a_relayed_payload_is_read(message, tlvs, port, locator, iid, payload);
    lemma_delivery(session, message, message, origin, now);
    lemma_new_request(
        session,
        message,
        origin,
        NotificationView::RelayRx {
            joiner_udp_port: port,
            joiner_router_locator: locator,
            joiner_iid: iid,
            payload,
        },
        now,
    );
    let routed = session.route(message, origin, now);
    assert(routed.run(now) == routed);
    law_a_session_answers_the_joiner_it_was_begun_for(
        iid,
        port,
        locator,
        now,
        calls,
        datagram,
        false,
        None,
    );
}

/// What a session tells the outside of a notification: one report, and before
/// it, where the dataset changed, that the mesh-local prefix is to be forgotten.
pub open spec fn told_of(notification: NotificationView, source: Option<Seq<u8>>) -> Seq<
    EffectView,
> {
    let report = EffectView::Report { notification, source };
    if notification is DatasetChanged {
        seq![EffectView::InvalidatePrefix, report]
    } else {
        seq![report]
    }
}

/// The acknowledgement with nothing in it.
pub open spec fn empty_acknowledgement(message_id: u16) -> CoapView {
    CoapView {
        ty: CoapType::Acknowledgement,
        code: 0x00,
        message_id,
        token: Seq::empty(),
        options: Seq::empty(),
        payload: Seq::empty(),
    }
}

/// The answer 2.04 to a request, with nothing in it.
pub open spec fn changed(message: CoapView) -> CoapView {
    CoapView {
        ty: CoapType::Acknowledgement,
        code: 0x44,
        message_id: message.message_id,
        token: message.token,
        options: Seq::empty(),
        payload: Seq::empty(),
    }
}

/// A new notification of a mesh device, encapsulated for the management port,
/// is reported once, with the address that the encapsulation names as its
/// source. A confirmable one is answered with 2.04 in an encapsulation to that
/// address and port; another one is not answered.
pub proof fn law_a_mesh_notification_is_reported_with_its_source(
    session: DriverView,
    message: CoapView,
    tlvs: Seq<TlvView>,
    address: Seq<u8>,
    port: u16,
    bytes: Seq<u8>,
    inner: CoapView,
    notification: NotificationView,
    now: u128,
)
    requires
        resting(session),
        !session.closed(),
        has_path(message, "c/ur"@),
        holds(message, tlvs),
        last_value_of(tlvs, 49) == Some(address),
        address.len() == 16,
        last_value_of(tlvs, 48) == Some(high_low(port as nat) + high_low(61631) + bytes),
        message_in(bytes) == Some(inner),
        is_new_request(session, inner, DestinationView::Mesh { address, port }, now),
        notification_in(inner) == Ok::<Option<NotificationView>, ErrorView>(Some(notification)),
    ensures
        ({
            let after = session.given(WorkView::Received(message)).run(now);
            &&& after.effects == session.effects + told_of(notification, Some(address))
            &&& inner.ty == CoapType::NonConfirmable ==> resting(after)
            &&& inner.ty == CoapType::Confirmable ==> {
                &&& after.waiting matches WaitingView::WireToken { wire, .. }
                &&& has_path(wire, "c/ut"@)
                &&& wire.ty == CoapType::NonConfirmable
                &&& holds(
                    wire,
                    seq![
                        tlv(49, address),
                        tlv(
                            48,
                            high_low(61631) + high_low(port as nat) + changed(inner).encoding(),
                        ),
                    ],
                )
            }
        }),
{
    let origin = DestinationView::Mesh { address, port };
    law_a_proxied_datagram_names_its_source(message, tlvs, address, port, 61631, bytes);
    lemma_delivery(session, message, inner, origin, now);
    lemma_new_request(session, inner, origin, notification, now);
    let routed = session.route(inner, origin, now);
    assert(routed.run(now) == routed);
    assert(routed.effects =~= session.effects + told_of(notification, Some(address)));
    if inner.ty == CoapType::Confirmable {
        lemma_token_fits(bytes, inner);
        let reply = changed(inner);
        assert(inner.changed_response() == reply);
        assert(reply.encoding().len() == 4 + inner.token.len()) by {
            crate::bytes::lemma_be_bytes(inner.message_id as nat, 2);
        }
        law_a_proxied_datagram_names_its_destination(address, port, reply.encoding());
        crate::commissioner::messages::law_path_options_give_the_path(
            routed.waiting->WireToken_wire,
            "c/ut"@,
        );
    }
}

proof fn lemma_token_fits(bytes: Seq<u8>, message: CoapView)
    requires
        message_in(bytes) == Some(message),
    ensures
        message.token.len() <= 8,
{
}

/// A new notification of the border agent is reported once, without a source,
/// unless it is a relayed payload that a joiner handler gets. A confirmable one
/// is acknowledged.
pub proof fn law_a_direct_notification_is_reported_without_a_source(
    session: DriverView,
    message: CoapView,
    path: Seq<char>,
    notification: NotificationView,
    now: u128,
)
    requires
        resting(session),
        !session.closed(),
        has_path(message, path),
        path != "c/ur"@,
        is_new_request(session, message, DestinationView::BorderAgent, now),
        notification_in(message) == Ok::<Option<NotificationView>, ErrorView>(Some(notification)),
        notification is RelayRx ==> !session.handles_joiners,
    ensures
        ({
            let after = session.given(WorkView::Received(message)).run(now);
            &&& after.effects == session.effects + told_of(notification, None)
            &&& message.ty == CoapType::NonConfirmable ==> resting(after)
            &&& message.ty == CoapType::Confirmable ==> after.waiting.action()
                == DriverActionView::Send(empty_acknowledgement(message.message_id))
        }),
{
    let origin = DestinationView::BorderAgent;
    assert(udp_rx_in(message) matches Ok(None));
    lemma_delivery(session, message, message, origin, now);
    lemma_new_request(session, message, origin, notification, now);
    let routed = session.route(message, origin, now);
    assert(routed.run(now) == routed);
    assert(routed.effects =~= session.effects + told_of(notification, None));
}

/// The value of the State TLV of a response.
pub open spec fn state_value(response: CoapView) -> Option<Seq<u8>> {
    match tlvs_in(response.payload) {
        Some(tlvs) => last_value_of(tlvs, 16),
        None => None,
    }
}

/// Whether an exchange brought a response that is no error, with this State
/// TLV.
pub open spec fn answered_with(outcome: OutcomeView, state: Seq<u8>) -> bool {
    &&& outcome matches Ok(Some(response))
    &&& response.code / 32 != 4
    &&& response.code / 32 != 5
    &&& state_value(response) == Some(state)
}

proof fn lemma_states(outcome: OutcomeView)
    ensures
        outcome matches Ok(Some(response)) ==> {
            let value = state_value(response);
            &&& state_in(response.payload, true) == Ok::<Option<MeshcopState>, ErrorView>(
                Some(MeshcopState::Accept),
            ) <==> value == Some(seq![0x01u8])
            &&& state_in(response.payload, true) == Ok::<Option<MeshcopState>, ErrorView>(
                Some(MeshcopState::Pending),
            ) <==> value == Some(seq![0x00u8])
            &&& state_in(response.payload, true) == Ok::<Option<MeshcopState>, ErrorView>(
                Some(MeshcopState::Reject),
            ) <==> value == Some(seq![0xffu8])
            &&& state_in(response.payload, true) is Ok ==> state_in(response.payload, true)->Ok_0
                is Some
        },
{
    if let Ok(Some(response)) = outcome {
        if let Some(tlvs) = tlvs_in(response.payload) {
            law_the_state_is_one_byte(response.payload, tlvs, true);
        } else {
            law_the_state_is_one_byte(response.payload, Seq::empty(), true);
        }
        assert(seq![0x01u8][0] == 0x01);
        assert(seq![0x00u8][0] == 0x00);
        assert(seq![0xffu8][0] == 0xff);
    }
}

/// A resignation succeeds exactly where it is answered, by no error, with the
/// State Accept or Reject; Pending is an error of its own, and a failed
/// exchange fails it with its error.
pub proof fn law_a_resignation_succeeds_unless_pending(outcome: OutcomeView)
    ensures
        resign_result(outcome) is Ok <==> answered_with(outcome, seq![0x01u8]) || answered_with(
            outcome,
            seq![0xffu8],
        ),
        answered_with(outcome, seq![0x00u8]) ==> resign_result(outcome) == Err::<(), ErrorView>(
            ErrorView::InvalidState("resign response is pending"@),
        ),
        outcome matches Err(error) ==> resign_result(outcome) == Err::<(), ErrorView>(error),
{
    lemma_states(outcome);
}

/// A keep-alive has the result of the State that answers it, by no error; it
/// keeps the session only where that is Accept.
pub proof fn law_a_keep_alive_has_the_result_of_its_state(outcome: OutcomeView)
    ensures
        ({
            let result = keep_alive_result(outcome);
            &&& result == Ok::<ResultCode, ErrorView>(ResultCode::Accept) <==> answered_with(
                outcome,
                seq![0x01u8],
            )
            &&& result == Ok::<ResultCode, ErrorView>(ResultCode::Pending) <==> answered_with(
                outcome,
                seq![0x00u8],
            )
            &&& result == Ok::<ResultCode, ErrorView>(ResultCode::Reject) <==> answered_with(
                outcome,
                seq![0xffu8],
            )
            &&& outcome matches Err(error) ==> result == Err::<ResultCode, ErrorView>(error)
            &&& keep_alive_end(result) is None <==> answered_with(outcome, seq![0x01u8])
            &&& answered_with(outcome, seq![0xffu8]) ==> keep_alive_end(result) == Some(
                CloseReasonView::KeepAliveRejected,
            )
            &&& answered_with(outcome, seq![0x00u8]) ==> keep_alive_end(result) == Some(
                CloseReasonView::KeepAlivePending,
            )
            &&& result matches Err(error) ==> keep_alive_end(result) == Some(
                CloseReasonView::KeepAliveFailed { error: error.text() },
            )
        }),
{
    lemma_states(outcome);
}

/// A petition succeeds exactly where it is answered, by no error, with the
/// State Accept and a session ID, and gives that session ID and the ID of the
/// commissioner that the answer names. Reject names the active commissioner.
pub proof fn law_a_petition_gives_the_session_it_was_answered_with(
    outcome: OutcomeView,
    response: CoapView,
    tlvs: Seq<TlvView>,
    session_id: u16,
    other: Seq<char>,
)
    requires
        outcome == Ok::<Option<CoapView>, ErrorView>(Some(response)),
        tlvs_in(response.payload) == Some(tlvs),
        last_value_of(tlvs, 11) is None || last_value_of(tlvs, 11) == Some(
            high_low(session_id as nat),
        ),
        last_value_of(tlvs, 10) is None || last_value_of(tlvs, 10) == Some(encode_utf8(other)),
    ensures
        ({
            let result = petition_result(outcome);
            let named = if last_value_of(tlvs, 10) is None {
                None
            } else {
                Some(other)
            };
            &&& result is Ok <==> answered_with(outcome, seq![0x01u8]) && last_value_of(tlvs, 11)
                is Some
            &&& result matches Ok(petition) ==> petition.session_id == session_id
                && petition.existing_commissioner_id == named
            &&& answered_with(outcome, seq![0xffu8]) ==> result == Err::<PetitionView, ErrorView>(
                ErrorView::PetitionRejected { existing_commissioner_id: named },
            )
            &&& answered_with(outcome, seq![0x00u8]) ==> result == Err::<PetitionView, ErrorView>(
                ErrorView::InvalidState("petition response is pending"@),
            )
        }),
{
    lemma_states(outcome);
    if state_in(response.payload, true) is Ok {
        law_the_answer_to_a_petition_is_read(response.payload, tlvs, session_id, other);
    }
}

/// A petition that fails in its exchange, or without a well-formed answer,
/// gives no session.
pub proof fn law_a_petition_without_an_answer_fails(outcome: OutcomeView)
    ensures
        outcome matches Err(error) ==> petition_result(outcome) == Err::<PetitionView, ErrorView>(
            error,
        ),
        !answered_with(outcome, seq![0x01u8]) ==> petition_result(outcome) is Err,
{
    lemma_states(outcome);
}

/// An accepted petition makes the session active under the ID that it was
/// given, schedules the first keep-alive an interval later where the session
/// sends them, and is told to whoever asked. A failed one leaves the session
/// connected.
pub proof fn law_a_petition_decides_on_the_session(
    session: DriverView,
    id: u64,
    outcome: OutcomeView,
    now: u128,
)
    requires
        !session.closed(),
    ensures
        ({
            let after = session.complete(Completion::Petition { id }, outcome, now);
            let result = petition_result(outcome);
            &&& after.status == match result {
                Ok(petition) => SessionStatusView::Active { session_id: petition.session_id },
                Err(_) => SessionStatusView::Connected,
            }
            &&& after.effects == session.effects + seq![
                EffectView::Status(after.status),
                EffectView::Reply { id, reply: ReplyView::Petition(result) },
            ]
            &&& after.work == session.work
            &&& result is Ok && session.keep_alive == KeepAlive::Automatic && now
                + session.keepalive_interval <= u128::MAX ==> after.keep_alive_at == Some(
                (now + session.keepalive_interval) as u128,
            )
            &&& result is Err || session.keep_alive == KeepAlive::Manual ==> after.keep_alive_at
                == session.keep_alive_at
        }),
{
    reveal(DriverView::complete);
    let after = session.complete(Completion::Petition { id }, outcome, now);
    let result = petition_result(outcome);
    assert(after.effects =~= session.effects + seq![
        EffectView::Status(after.status),
        EffectView::Reply { id, reply: ReplyView::Petition(result) },
    ]);
}

/// A keep-alive that was answered is published with its result, and whoever
/// asked for it gets the result.
pub proof fn law_a_keep_alive_is_told(
    session: DriverView,
    asked: Option<u64>,
    outcome: OutcomeView,
    now: u128,
)
    ensures
        ({
            let after = session.complete(Completion::KeepAlive { asked }, outcome, now);
            let result = keep_alive_result(outcome);
            after.effects == session.effects + (match result {
                Ok(code) => seq![EffectView::Publish(EventView::KeepAliveResponse(code))],
                Err(_) => Seq::empty(),
            }) + (match asked {
                Some(id) => seq![EffectView::Reply { id, reply: ReplyView::KeepAlive(result) }],
                None => Seq::empty(),
            })
        }),
{
    reveal(DriverView::complete);
    let after = session.complete(Completion::KeepAlive { asked }, outcome, now);
    let result = keep_alive_result(outcome);
    assert(after.effects =~= session.effects + (match result {
        Ok(code) => seq![EffectView::Publish(EventView::KeepAliveResponse(code))],
        Err(_) => Seq::empty(),
    }) + (match asked {
        Some(id) => seq![EffectView::Reply { id, reply: ReplyView::KeepAlive(result) }],
        None => Seq::empty(),
    }));
}

/// Whether the work makes a session tell this effect.
spec fn tells(work: WorkView, effect: EffectView) -> bool {
    match (work, effect) {
        (WorkView::Reply { id, reply }, EffectView::Reply { id: to, reply: told }) => id == to
            && reply == told,
        (WorkView::Publish(event), EffectView::Publish(told)) => event == told,
        _ => false,
    }
}

/// Whether an effect was told or will be.
spec fn owed(session: DriverView, work: WorkView, effect: EffectView) -> bool {
    session.effects.contains(effect) || session.work.contains(work)
}

proof fn lemma_owed_step(session: DriverView, now: u128, owing: WorkView, effect: EffectView)
    requires
        session.closed(),
        session.busy(),
        tells(owing, effect),
        owed(session, owing, effect),
        !(session.work.last() is GoIdle),
    ensures
        owed(session.step(now), owing, effect),
        forall|i: int|
            0 <= i < session.effects.len() ==> session.step(now).effects.len() > i
                && #[trigger] session.step(now).effects[i] == session.effects[i],
{
    let rest = DriverView { work: session.work.drop_last(), ..session };
    let after = session.step(now);
    reveal(DriverView::command);
    reveal(DriverView::drop_handles);
    reveal(DriverView::received);
    reveal(DriverView::receive_failed);
    reveal(DriverView::send_queued);
    reveal(DriverView::complete);
    reveal(DriverView::end_session);
    reveal(DriverView::exchange_timers);
    reveal(DriverView::keep_alive_check);
    reveal(DriverView::relay_outputs);
    assert(forall|i: int|
        0 <= i < session.effects.len() ==> after.effects.len() > i && #[trigger] after.effects[i]
            == session.effects[i]);
    assert(forall|i: int|
        0 <= i < rest.work.len() ==> after.work.len() > i && #[trigger] after.work[i]
            == rest.work[i]);
    if session.effects.contains(effect) {
        let i = choose|i: int| 0 <= i < session.effects.len() && session.effects[i] == effect;
        assert(after.effects[i] == effect);
    } else {
        let i = choose|i: int| 0 <= i < session.work.len() && session.work[i] == owing;
        if i < rest.work.len() {
            assert(after.work[i] == owing);
        } else {
            assert(session.work.last() == owing);
            assert(after.effects[session.effects.len() as int] == effect);
        }
    }
}

/// An ended session tells what it owes, keeps what it told, and stays ended.
proof fn lemma_owed_run(session: DriverView, now: u128, owing: WorkView, effect: EffectView)
    requires
        consistent(session),
        session.closed(),
        tells(owing, effect),
        owed(session, owing, effect),
    ensures
        session.run(now).effects.contains(effect),
        session.run(now).status == session.status,
        forall|told: EffectView|
            session.effects.contains(told) ==> #[trigger] session.run(now).effects.contains(told),
    decreases session.weight(),
{
    if session.busy() {
        lemma_step_is_lighter(session, now);
        law_a_step_is_consistent(session, now);
        assert(session.work[session.work.len() - 1] == session.work.last());
        assert(!going_idle(session.work));
        lemma_owed_step(session, now, owing, effect);
        lemma_closed_step(session, now);
        let after = session.step(now);
        lemma_owed_run(after, now, owing, effect);
        assert forall|told: EffectView| session.effects.contains(told) implies
            #[trigger] session.run(now).effects.contains(told) by {
            let i = choose|i: int| 0 <= i < session.effects.len() && session.effects[i] == told;
            assert(after.effects[i] == told);
            assert(after.effects.contains(told));
        }
    } else {
        assert(session.work.len() == 0);
    }
}

/// Whether a message is the response of the border agent to the exchange at an
/// index and to none before it, and needs no acknowledgement.
pub open spec fn answers(session: DriverView, message: CoapView, index: int) -> bool {
    &&& path_of(message) == Ok::<Option<Seq<char>>, ErrorView>(None)
    &&& message.ty == CoapType::Acknowledgement || message.ty == CoapType::NonConfirmable
    &&& message.code / 32 == 2 || message.code / 32 == 4 || message.code / 32 == 5
    &&& 0 <= index < session.exchanges.in_flight.len()
    &&& session.exchanges.in_flight[index].destination is BorderAgent
    &&& session.exchanges.in_flight[index].request.token == message.token
    &&& forall|i: int|
        0 <= i < index ==> (#[trigger] session.exchanges.in_flight[i]).request.token
            != message.token
}

/// The response to an exchange completes it, and takes it out of flight.
pub proof fn law_a_response_completes_its_exchange(
    session: DriverView,
    message: CoapView,
    index: int,
    now: u128,
)
    requires
        resting(session),
        !session.closed(),
        answers(session, message, index),
    ensures
        ({
            let pending = session.exchanges.in_flight[index];
            let rest = DriverView {
                exchanges: ExchangesView {
                    in_flight: session.exchanges.in_flight.remove(index),
                    ..session.exchanges
                },
                ..session
            };
            session.given(WorkView::Received(message)).run(now) == rest.complete(
                pending.completion,
                Ok(Some(message)),
                now,
            ).run(now)
        }),
{
    let origin = DestinationView::BorderAgent;
    let pending = session.exchanges.in_flight[index];
    let rest = DriverView {
        exchanges: ExchangesView {
            in_flight: session.exchanges.in_flight.remove(index),
            ..session.exchanges
        },
        ..session
    };
    assert(udp_rx_in(message) matches Ok(None));
    lemma_delivery(session, message, message, origin, now);
    lemma_no_position(
        session.exchanges.in_flight,
        |p: PendingView| p.acknowledged_by(message, false),
    );
    lemma_position(
        session.exchanges.in_flight,
        |p: PendingView| p.answered_by(message, false),
        index,
    );
    let routed = session.route(message, origin, now);
    let work = WorkView::Complete { completion: pending.completion, outcome: Ok(Some(message)) };
    assert(routed == rest.push(work));
    lemma_step_is_lighter(routed, now);
    assert(routed.work.drop_last() =~= session.work);
    assert(DriverView { work: routed.work.drop_last(), ..routed } == rest);
    assert(routed.step(now) == rest.complete(pending.completion, Ok(Some(message)), now));
}

proof fn lemma_response_is_consistent(
    session: DriverView,
    message: CoapView,
    index: int,
    now: u128,
)
    requires
        consistent(session),
        resting(session),
        !session.closed(),
        answers(session, message, index),
    ensures
        ({
            let rest = DriverView {
                exchanges: ExchangesView {
                    in_flight: session.exchanges.in_flight.remove(index),
                    ..session.exchanges
                },
                ..session
            };
            consistent(
                rest.complete(
                    session.exchanges.in_flight[index].completion,
                    Ok(Some(message)),
                    now,
                ),
            )
        }),
{
    let pending = session.exchanges.in_flight[index];
    let rest = DriverView {
        exchanges: ExchangesView {
            in_flight: session.exchanges.in_flight.remove(index),
            ..session.exchanges
        },
        ..session
    };
    let work = WorkView::Received(message);
    let given = session.given(work);
    law_input_is_consistent(session, work);
    assert(given.work =~= seq![work]);
    assert(given.work.drop_last() =~= session.work);
    assert(DriverView { work: given.work.drop_last(), ..given } == session);
    law_a_step_is_consistent(given, now);
    reveal(DriverView::received);
    assert(udp_rx_in(message) matches Ok(None));
    lemma_no_position(
        session.exchanges.in_flight,
        |p: PendingView| p.acknowledged_by(message, false),
    );
    lemma_position(
        session.exchanges.in_flight,
        |p: PendingView| p.answered_by(message, false),
        index,
    );
    let routed = given.step(now);
    let next = WorkView::Complete { completion: pending.completion, outcome: Ok(Some(message)) };
    assert(routed == rest.push(next));
    assert(routed.work.drop_last() =~= session.work);
    assert(DriverView { work: routed.work.drop_last(), ..routed } == rest);
    law_a_step_is_consistent(routed, now);
}

/// The response to a resignation ends the session, and whoever asked is told
/// that it succeeded exactly where the response is no error and its State TLV
/// says Accept or Reject; Pending is told as such.
pub proof fn law_an_answered_resignation_is_told(
    session: DriverView,
    message: CoapView,
    index: int,
    id: u64,
    now: u128,
)
    requires
        consistent(session),
        resting(session),
        !session.closed(),
        answers(session, message, index),
        session.exchanges.in_flight[index].completion == (Completion::Resign { asked: Some(id) }),
    ensures
        ({
            let after = session.given(WorkView::Received(message)).run(now);
            let no_error = message.code / 32 == 2;
            let state = state_value(message);
            &&& after.status == (SessionStatusView::Closed { reason: CloseReasonView::Resigned })
            &&& no_error && (state == Some(seq![0x01u8]) || state == Some(seq![0xffu8]))
                ==> after.effects.contains(
                EffectView::Reply { id, reply: ReplyView::Resign(Ok(())) },
            )
            &&& no_error && state == Some(seq![0x00u8]) ==> after.effects.contains(
                EffectView::Reply {
                    id,
                    reply: ReplyView::Resign(
                        Err(ErrorView::InvalidState("resign response is pending"@)),
                    ),
                },
            )
            &&& !(no_error && (state == Some(seq![0x01u8]) || state == Some(seq![0xffu8])))
                ==> exists|error: ErrorView|
                #[trigger] after.effects.contains(
                    EffectView::Reply { id, reply: ReplyView::Resign(Err(error)) },
                )
        }),
{
    let rest = DriverView {
        exchanges: ExchangesView {
            in_flight: session.exchanges.in_flight.remove(index),
            ..session.exchanges
        },
        ..session
    };
    let outcome: OutcomeView = Ok(Some(message));
    let result = resign_result(outcome);
    let completed = rest.complete(Completion::Resign { asked: Some(id) }, outcome, now);
    law_a_response_completes_its_exchange(session, message, index, now);
    law_a_resignation_succeeds_unless_pending(outcome);
    lemma_response_is_consistent(session, message, index, now);
    reveal(DriverView::complete);
    reveal(DriverView::end_session);
    let reply = ReplyView::Resign(result);
    assert(completed.work[0] == (WorkView::Reply { id, reply }));
    lemma_step_is_lighter(completed, now);
    law_a_step_is_consistent(completed, now);
    let ended = completed.step(now);
    assert(ended.work[0] == (WorkView::Reply { id, reply }));
    lemma_owed_run(
        ended,
        now,
        WorkView::Reply { id, reply },
        EffectView::Reply { id, reply },
    );
    if let Err(error) = result {
        assert(reply == ReplyView::Resign(Err(error)));
    }
}

/// A session with nothing else to do performs what it is given.
pub(crate) proof fn lemma_single(session: DriverView, work: WorkView, now: u128)
    requires
        resting(session),
    ensures
        session.given(work).run(now) == session.perform(work, now).run(now),
{
    let given = session.given(work);
    assert(given.work =~= seq![work]);
    assert(given.work.drop_last() =~= session.work);
    assert(DriverView { work: given.work.drop_last(), ..given } == session);
    lemma_step_is_lighter(given, now);
}

/// Whether a session that waits for a token sends, once it has drawn one, a
/// confirmable request to the border agent with this path and these TLVs, with
/// the token and the next message ID.
pub open spec fn sends_with(
    before: DriverView,
    waiting: DriverView,
    token: Seq<u8>,
    path: Seq<char>,
    tlvs: Seq<TlvView>,
) -> bool {
    &&& waiting.waiting.action() is DrawToken
    &&& waiting.with_token(token).waiting.action() matches DriverActionView::Send(wire)
    &&& wire.ty == CoapType::Confirmable
    &&& wire.code == 2
    &&& wire.message_id == (before.next_message_id + 1) % 0x1_0000
    &&& wire.token == token
    &&& has_path(wire, path)
    &&& holds(wire, tlvs)
}

/// A petition is sent to the border agent with the commissioner's ID, where the
/// session is connected or idle and the link is open; the session is then
/// petitioning.
pub proof fn law_a_petition_is_sent(session: DriverView, id: u64, token: Seq<u8>, now: u128)
    requires
        resting(session),
        session.status is Connected || session.status is Idle,
        session.open,
        encode_utf8(session.commissioner_id).len() <= 0xffff,
        !session.exchanges.uses_token(token),
    ensures
        ({
            let after = session.given(WorkView::Command(CommandView::Petition { id })).run(now);
            &&& after.status is Petitioning
            &&& after.effects == session.effects.push(
                EffectView::Status(SessionStatusView::Petitioning),
            )
            &&& sends_with(
                session,
                after,
                token,
                "c/cp"@,
                seq![tlv(10, encode_utf8(session.commissioner_id))],
            )
        }),
{
    reveal(DriverView::command);
    let work = WorkView::Command(CommandView::Petition { id });
    lemma_single(session, work, now);
    let after = session.perform(work, now);
    assert(after.run(now) == after);
    law_a_petition_carries_the_id(session.commissioner_id);
    let wire = after.with_token(token).waiting->Send_wire;
    crate::commissioner::messages::law_path_options_give_the_path(wire, "c/cp"@);
}

/// Where a session is active and neither resigns nor has a keep-alive
/// outstanding, a keep-alive is sent with the State Accept and the session's
/// ID; a resignation is sent with the State Reject and that ID. Either stops
/// the timer of the next keep-alive.
pub proof fn law_keep_alives_and_resignations_are_sent(
    session: DriverView,
    session_id: u16,
    id: u64,
    token: Seq<u8>,
    now: u128,
)
    requires
        resting(session),
        session.status == (SessionStatusView::Active { session_id }),
        !session.exchanges.resigning(),
        !session.exchanges.uses_token(token),
    ensures
        ({
            let after = session.given(WorkView::Command(CommandView::Resign { id })).run(now);
            &&& after.effects == session.effects
            &&& after.keep_alive_at is None
            &&& sends_with(
                session,
                after,
                token,
                "c/ca"@,
                seq![tlv(16, seq![0xffu8]), tlv(11, high_low(session_id as nat))],
            )
        }),
        !session.exchanges.keep_alive_outstanding() ==> {
            let after = session.given(WorkView::Command(CommandView::KeepAlive { id })).run(now);
            &&& after.effects == session.effects
            &&& after.keep_alive_at is None
            &&& sends_with(
                session,
                after,
                token,
                "c/ca"@,
                seq![tlv(16, seq![0x01u8]), tlv(11, high_low(session_id as nat))],
            )
        },
{
    reveal(DriverView::command);
    let resign = WorkView::Command(CommandView::Resign { id });
    lemma_single(session, resign, now);
    let resigning = session.perform(resign, now);
    assert(resigning.run(now) == resigning);
    law_a_keep_alive_carries_the_session(session_id, false);
    law_a_keep_alive_carries_the_session(session_id, true);
    crate::commissioner::messages::law_path_options_give_the_path(
        resigning.with_token(token).waiting->Send_wire,
        "c/ca"@,
    );
    if !session.exchanges.keep_alive_outstanding() {
        let keep = WorkView::Command(CommandView::KeepAlive { id });
        lemma_single(session, keep, now);
        let keeping = session.perform(keep, now);
        assert(keeping.run(now) == keeping);
        crate::commissioner::messages::law_path_options_give_the_path(
            keeping.with_token(token).waiting->Send_wire,
            "c/ca"@,
        );
    }
}

/// The reply to a command that is refused.
pub open spec fn refuses(session: DriverView, command: CommandView, reply: ReplyView, id: u64, now: u128)
    -> bool {
    session.given(WorkView::Command(command)).run(now) == session.reply(id, reply)
}

proof fn lemma_refused(
    session: DriverView,
    command: CommandView,
    reply: ReplyView,
    id: u64,
    now: u128,
)
    requires
        resting(session),
        session.command(command) == session.reply(id, reply),
    ensures
        refuses(session, command, reply, id, now),
{
    lemma_single(session, WorkView::Command(command), now);
    let after = session.reply(id, reply);
    assert(after.run(now) == after);
}

/// A command that the session cannot serve is refused at once with the reason,
/// and changes nothing else: everything once the session has ended, new work
/// while it resigns, a petition during another or while the session is active,
/// and a keep-alive without an active session or beside another one.
pub proof fn law_commands_out_of_place_are_refused(
    session: DriverView,
    id: u64,
    request: OutboundView,
    now: u128,
)
    requires
        resting(session),
    ensures
        ({
            let exchange = CommandView::Exchange { id, request };
            let petition = CommandView::Petition { id };
            let keep_alive = CommandView::KeepAlive { id };
            let resign = CommandView::Resign { id };
            let resigning = ErrorView::InvalidState("commissioner is resigning"@);
            let inactive = ErrorView::InvalidState("commissioner session is not active"@);
            let closed = ErrorView::SessionClosed;
            let active = session.status is Active;
            &&& session.status is Closed ==> {
                &&& refuses(session, exchange, ReplyView::Exchange(Err(closed)), id, now)
                &&& refuses(session, petition, ReplyView::Petition(Err(closed)), id, now)
                &&& refuses(session, keep_alive, ReplyView::KeepAlive(Err(closed)), id, now)
                &&& refuses(session, resign, ReplyView::Resign(Err(closed)), id, now)
            }
            &&& session.status !is Closed && session.exchanges.resigning() ==> {
                &&& refuses(session, exchange, ReplyView::Exchange(Err(resigning)), id, now)
                &&& refuses(session, resign, ReplyView::Resign(Err(resigning)), id, now)
                &&& active ==> refuses(
                    session,
                    keep_alive,
                    ReplyView::KeepAlive(Err(resigning)),
                    id,
                    now,
                )
            }
            &&& session.status is Petitioning ==> refuses(
                session,
                petition,
                ReplyView::Petition(Err(ErrorView::InvalidState("petition is already active"@))),
                id,
                now,
            )
            &&& active ==> refuses(
                session,
                petition,
                ReplyView::Petition(
                    Err(ErrorView::InvalidState("commissioner is already active"@)),
                ),
                id,
                now,
            )
            &&& session.status is Connected || session.status is Idle || session.status
                is Petitioning ==> refuses(
                session,
                keep_alive,
                ReplyView::KeepAlive(Err(inactive)),
                id,
                now,
            )
            &&& active && !session.exchanges.resigning()
                && session.exchanges.keep_alive_outstanding() ==> refuses(
                session,
                keep_alive,
                ReplyView::KeepAlive(
                    Err(ErrorView::InvalidState("a keep-alive is already outstanding"@)),
                ),
                id,
                now,
            )
        }),
{
    reveal(DriverView::command);
    let exchange = CommandView::Exchange { id, request };
    let petition = CommandView::Petition { id };
    let keep_alive = CommandView::KeepAlive { id };
    let resign = CommandView::Resign { id };
    let resigning = ErrorView::InvalidState("commissioner is resigning"@);
    let closed = ErrorView::SessionClosed;
    if session.status is Closed {
        lemma_refused(session, exchange, ReplyView::Exchange(Err(closed)), id, now);
        lemma_refused(session, petition, ReplyView::Petition(Err(closed)), id, now);
        lemma_refused(session, keep_alive, ReplyView::KeepAlive(Err(closed)), id, now);
        lemma_refused(session, resign, ReplyView::Resign(Err(closed)), id, now);
    } else {
        if session.exchanges.resigning() {
            lemma_refused(session, exchange, ReplyView::Exchange(Err(resigning)), id, now);
            lemma_refused(session, resign, ReplyView::Resign(Err(resigning)), id, now);
        }
        if let Some(error) = session.petition_refusal() {
            lemma_refused(session, petition, ReplyView::Petition(Err(error)), id, now);
        }
        if let Some(error) = session.keep_alive_refusal() {
            lemma_refused(session, keep_alive, ReplyView::KeepAlive(Err(error)), id, now);
        }
    }
}

/// A session that is not active has nothing to resign: it ends at once, and
/// whoever asked is told that this succeeded.
pub proof fn law_an_inactive_session_ends_at_once(session: DriverView, id: u64, now: u128)
    requires
        consistent(session),
        resting(session),
        !session.closed(),
        session.status !is Active,
        !session.exchanges.resigning(),
    ensures
        ({
            let after = session.given(WorkView::Command(CommandView::Resign { id })).run(now);
            &&& after.status == (SessionStatusView::Closed { reason: CloseReasonView::Resigned })
            &&& after.effects.contains(
                EffectView::Reply { id, reply: ReplyView::Resign(Ok(())) },
            )
        }),
{
    reveal(DriverView::command);
    reveal(DriverView::end_session);
    let work = WorkView::Command(CommandView::Resign { id });
    lemma_single(session, work, now);
    law_input_is_consistent(session, work);
    let given = session.given(work);
    assert(given.work =~= seq![work]);
    assert(given.work.drop_last() =~= session.work);
    assert(DriverView { work: given.work.drop_last(), ..given } == session);
    law_a_step_is_consistent(given, now);
    let resigned = session.perform(work, now);
    let reply = ReplyView::Resign(Ok(()));
    assert(resigned.work[0] == (WorkView::Reply { id, reply }));
    lemma_step_is_lighter(resigned, now);
    law_a_step_is_consistent(resigned, now);
    let ended = resigned.step(now);
    assert(ended.work[0] == (WorkView::Reply { id, reply }));
    lemma_owed_run(
        ended,
        now,
        WorkView::Reply { id, reply },
        EffectView::Reply { id, reply },
    );
}

/// Installing a joiner handler is remembered; removing it is too, and drops the
/// joiner sessions. An ended session ignores both.
pub proof fn law_a_joiner_handler_is_remembered(session: DriverView, installed: bool, now: u128)
    requires
        resting(session),
    ensures
        ({
            let after = session.given(
                WorkView::Command(CommandView::SetJoinerHandler { installed }),
            ).run(now);
            &&& session.closed() ==> after == session
            &&& !session.closed() ==> after.handles_joiners == installed
            &&& !session.closed() && installed ==> after.effects == session.effects
            &&& !session.closed() && !installed ==> after.effects == session.effects.push(
                EffectView::ClearJoiners,
            )
            &&& after.exchanges == session.exchanges
            &&& after.status == session.status
        }),
{
    reveal(DriverView::command);
    let work = WorkView::Command(CommandView::SetJoinerHandler { installed });
    lemma_single(session, work, now);
    let after = session.perform(work, now);
    assert(after.run(now) == after);
}

/// A request for the border agent goes out as it is, with the next message ID
/// and the token that was drawn; one for a mesh device goes out inside a
/// message to the UDP proxy that names the device's address and port.
pub proof fn law_a_request_goes_to_its_destination(
    session: DriverView,
    id: u64,
    request: OutboundView,
    token: Seq<u8>,
    outer: Seq<u8>,
    now: u128,
)
    requires
        resting(session),
        !session.closed(),
        session.open,
        !session.exchanges.resigning(),
        session.exchanges.in_flight.len() == 0,
        session.exchanges.queued.len() == 0,
        request.message.fits(),
        request.message.encoding().len() + 8 <= 0xfffb,
        request.message.token.len() == 0,
        token.len() <= 8,
        outer.len() <= 8,
    ensures
        ({
            let after = session.given(WorkView::Command(CommandView::Exchange { id, request })).run(
                now,
            );
            let named = CoapView {
                message_id: ((session.next_message_id + 1) % 0x1_0000) as u16,
                token,
                ..request.message
            };
            &&& after.waiting.action() is DrawToken
            &&& after.effects == session.effects
            &&& match request.destination {
                DestinationView::BorderAgent => after.with_token(token).waiting.action()
                    == DriverActionView::Send(named),
                DestinationView::Mesh { address, port } => address.len() == 16 ==> {
                    &&& after.with_token(token).waiting.action() is DrawToken
                    &&& after.with_token(token).with_token(
                        outer,
                    ).waiting.action() matches DriverActionView::Send(wire)
                    &&& wire.ty == CoapType::NonConfirmable
                    &&& wire.code == 2
                    &&& wire.token == outer
                    &&& wire.message_id == (session.next_message_id + 2) % 0x1_0000
                    &&& has_path(wire, "c/ut"@)
                    &&& holds(
                        wire,
                        seq![
                            tlv(49, address),
                            tlv(48, high_low(61631) + high_low(port as nat) + named.encoding()),
                        ],
                    )
                },
            }
        }),
{
    reveal(DriverView::command);
    reveal(DriverView::send_queued);
    let work = WorkView::Command(CommandView::Exchange { id, request });
    lemma_single(session, work, now);
    let submitted = session.perform(work, now);
    lemma_step_is_lighter(submitted, now);
    assert(submitted.work.drop_last() =~= session.work);
    let after = submitted.step(now);
    assert(session.exchanges.queued.push((request, Completion::Caller { id })).drop_first()
        =~= session.exchanges.queued);
    assert(after.run(now) == after);
    let named = CoapView {
        message_id: ((session.next_message_id + 1) % 0x1_0000) as u16,
        token,
        ..request.message
    };
    lemma_no_position(
        after.exchanges.in_flight,
        |p: PendingView| p.request.token == token,
    );
    if let DestinationView::Mesh { address, port } = request.destination {
        crate::bytes::lemma_be_bytes(request.message.message_id as nat, 2);
        crate::bytes::lemma_be_bytes(named.message_id as nat, 2);
        if address.len() == 16 {
            law_a_proxied_datagram_names_its_destination(address, port, named.encoding());
            crate::commissioner::messages::law_path_options_give_the_path(
                after.with_token(token).with_token(outer).waiting->Send_wire,
                "c/ut"@,
            );
        }
    }
}

/// A session that receiving fails for ends, and the loss is told: with the
/// border agent's close where it closed an active session, and as a failure of
/// the transport otherwise.
pub proof fn law_a_failed_link_ends_the_session(session: DriverView, error: ErrorView, now: u128)
    requires
        consistent(session),
        resting(session),
        !session.closed(),
        error == ErrorView::Dtls(crate::dtls::error::ErrorView::PeerClosed) ==> session.status
            is Active,
    ensures
        ({
            let after = session.given(WorkView::ReceiveFailed(error)).run(now);
            let reason = if error == ErrorView::Dtls(crate::dtls::error::ErrorView::PeerClosed) {
                CloseReasonView::PeerClosed
            } else {
                CloseReasonView::TransportFailed { error: error.text() }
            };
            &&& after.status == (SessionStatusView::Closed { reason })
            &&& after.effects.contains(EffectView::Status(SessionStatusView::Closed { reason }))
            &&& after.effects.contains(EffectView::CloseLink)
            &&& after.effects.contains(EffectView::ClearJoiners)
            &&& after.effects.contains(EffectView::Publish(EventView::SessionLost { reason }))
        }),
{
    reveal(DriverView::receive_failed);
    reveal(DriverView::end_session);
    let work = WorkView::ReceiveFailed(error);
    let reason = if error == ErrorView::Dtls(crate::dtls::error::ErrorView::PeerClosed) {
        CloseReasonView::PeerClosed
    } else {
        CloseReasonView::TransportFailed { error: error.text() }
    };
    lemma_single(session, work, now);
    law_input_is_consistent(session, work);
    let given = session.given(work);
    assert(given.work =~= seq![work]);
    assert(given.work.drop_last() =~= session.work);
    assert(DriverView { work: given.work.drop_last(), ..given } == session);
    law_a_step_is_consistent(given, now);
    let failed = session.perform(work, now);
    lemma_step_is_lighter(failed, now);
    law_a_step_is_consistent(failed, now);
    let ended = failed.step(now);
    let told = session.effects.len() as int;
    assert(ended.effects[told] == EffectView::Status(SessionStatusView::Closed { reason }));
    assert(ended.effects[told + 1] == EffectView::ClearJoiners);
    assert(ended.effects[told + 2] == EffectView::CloseLink);
    assert(ended.work[0] == WorkView::Publish(EventView::SessionLost { reason }));
    assert(ended.effects.contains(EffectView::Status(SessionStatusView::Closed { reason })));
    assert(ended.effects.contains(EffectView::ClearJoiners));
    assert(ended.effects.contains(EffectView::CloseLink));
    lemma_owed_run(
        ended,
        now,
        WorkView::Publish(EventView::SessionLost { reason }),
        EffectView::Publish(EventView::SessionLost { reason }),
    );
}

/// When every handle is dropped, an active session sends its resignation, and
/// another one ends at once without a loss being told.
pub proof fn law_dropping_every_handle_resigns(
    session: DriverView,
    session_id: u16,
    token: Seq<u8>,
    now: u128,
)
    requires
        resting(session),
        !session.closed(),
        !session.exchanges.resigning(),
        !session.exchanges.uses_token(token),
    ensures
        session.status == (SessionStatusView::Active { session_id }) ==> sends_with(
            session,
            session.given(WorkView::HandlesDropped).run(now),
            token,
            "c/ca"@,
            seq![tlv(16, seq![0xffu8]), tlv(11, high_low(session_id as nat))],
        ),
        session.status !is Active ==> session.perform(WorkView::HandlesDropped, now).work == seq![
            WorkView::EndSession(CloseReasonView::Resigned),
        ],
        session.perform(WorkView::HandlesDropped, now).handles_dropped,
{
    reveal(DriverView::drop_handles);
    let work = WorkView::HandlesDropped;
    lemma_single(session, work, now);
    let after = session.perform(work, now);
    if session.status is Active {
        assert(after.run(now) == after);
        if session.status == (SessionStatusView::Active { session_id }) {
            law_a_keep_alive_carries_the_session(session_id, false);
            crate::commissioner::messages::law_path_options_give_the_path(
                after.with_token(token).waiting->Send_wire,
                "c/ca"@,
            );
        }
    } else {
        assert(after.work =~= seq![WorkView::EndSession(CloseReasonView::Resigned)]);
    }
}

/// When its timer is looked at, an exchange past its deadline is given up with
/// a timeout, one whose retransmission is due goes out again as it is, and
/// another one is left alone.
pub proof fn law_an_exchange_is_retried_until_its_deadline(
    session: DriverView,
    index: usize,
    at: u128,
)
    requires
        session.waiting is Idle,
        !session.closed(),
        index < session.exchanges.in_flight.len(),
        index + 1 < usize::MAX,
    ensures
        ({
            let pending = session.exchanges.in_flight[index as int];
            let after = session.exchange_timers(index, at);
            &&& pending.deadline <= at ==> {
                &&& after.work.last() == (WorkView::Complete {
                    completion: pending.completion,
                    outcome: Err(ErrorView::Timeout("MeshCoP exchange timed out"@)),
                })
                &&& after.exchanges.in_flight == session.exchanges.in_flight.remove(index as int)
            }
            &&& pending.deadline > at && pending.retry_at is Some && pending.retry_at->0 <= at
                && pending.destination is BorderAgent ==> {
                &&& after.waiting.action() == DriverActionView::Send(pending.request)
                &&& after.exchanges == session.exchanges
            }
            &&& pending.deadline > at && (pending.retry_at is None || pending.retry_at->0 > at)
                ==> {
                &&& after.waiting is Idle
                &&& after.exchanges == session.exchanges
                &&& after.work == session.work.push(
                    WorkView::ExchangeTimers { index: (index + 1) as usize, at },
                )
            }
            &&& after.effects == session.effects
        }),
{
    reveal(DriverView::exchange_timers);
}

/// A keep-alive that is due is sent, and one that is not due is not.
pub proof fn law_a_due_keep_alive_is_sent(
    session: DriverView,
    session_id: u16,
    token: Seq<u8>,
    now: u128,
)
    requires
        resting(session),
        session.status == (SessionStatusView::Active { session_id }),
        session.keep_alive_at is Some,
        !session.exchanges.uses_token(token),
    ensures
        ({
            let after = session.perform(WorkView::KeepAliveCheck, now);
            &&& session.keep_alive_at->0 <= now ==> after.keep_alive_at is None && sends_with(
                session,
                after,
                token,
                "c/ca"@,
                seq![tlv(16, seq![0x01u8]), tlv(11, high_low(session_id as nat))],
            )
            &&& session.keep_alive_at->0 > now ==> after == session
        }),
        session.perform(WorkView::Timer, now).work == seq![
            WorkView::KeepAliveCheck,
            WorkView::ExchangeTimers { index: 0, at: now },
        ],
{
    reveal(DriverView::keep_alive_check);
    let after = session.perform(WorkView::KeepAliveCheck, now);
    assert(session.perform(WorkView::Timer, now).work =~= seq![
        WorkView::KeepAliveCheck,
        WorkView::ExchangeTimers { index: 0, at: now },
    ]);
    if session.keep_alive_at->0 <= now {
        law_a_keep_alive_carries_the_session(session_id, true);
        crate::commissioner::messages::law_path_options_give_the_path(
            after.with_token(token).waiting->Send_wire,
            "c/ca"@,
        );
    }
}

/// The session looks at its timers again no later than the next
/// retransmission, the next deadline and the next keep-alive, and then one of
/// them is due.
pub proof fn law_the_next_deadline_is_the_earliest(session: DriverView, i: int)
    requires
        0 <= i < session.exchanges.in_flight.len(),
    ensures
        ({
            let pending = session.exchanges.in_flight[i];
            &&& session.next_deadline() matches Some(next)
            &&& next <= pending.deadline
            &&& pending.retry_at matches Some(retry_at) ==> next <= retry_at
            &&& session.keep_alive_at matches Some(at) ==> next <= at
            &&& {
                ||| session.keep_alive_at == Some(next)
                ||| exists|j: int|
                    0 <= j < session.exchanges.in_flight.len() && ((
                    #[trigger] session.exchanges.in_flight[j]).deadline == next
                        || session.exchanges.in_flight[j].retry_at == Some(next))
            }
        }),
{
    lemma_earliest(session.exchanges.in_flight, i);
}

proof fn lemma_earliest(in_flight: Seq<PendingView>, i: int)
    requires
        0 <= i < in_flight.len(),
    ensures
        earliest_timer(in_flight) matches Some(next) && next <= in_flight[i].deadline && (
        in_flight[i].retry_at matches Some(retry_at) ==> next <= retry_at),
        exists|j: int|
            0 <= j < in_flight.len() && ((#[trigger] in_flight[j]).deadline
                == earliest_timer(in_flight)->0 || in_flight[j].retry_at == earliest_timer(
                in_flight,
            )),
    decreases in_flight.len(),
{
    let shorter = in_flight.drop_last();
    let last = in_flight.len() - 1;
    assert(in_flight[last] == in_flight.last());
    if shorter.len() > 0 {
        if i < last {
            lemma_earliest(shorter, i);
            assert(shorter[i] == in_flight[i]);
        } else {
            lemma_earliest(shorter, 0);
        }
        let j = choose|j: int|
            0 <= j < shorter.len() && ((#[trigger] shorter[j]).deadline == earliest_timer(
                shorter,
            )->0 || shorter[j].retry_at == earliest_timer(shorter));
        assert(shorter[j] == in_flight[j]);
    }
}

/// A datagram that a mesh device sent to another port than the management port
/// changes nothing, and neither does anything that arrives once the session has
/// ended.
pub proof fn law_what_is_not_meant_for_the_session_is_ignored(
    session: DriverView,
    message: CoapView,
    tlvs: Seq<TlvView>,
    address: Seq<u8>,
    source_port: u16,
    port: u16,
    bytes: Seq<u8>,
    now: u128,
)
    requires
        resting(session),
        session.closed() || port != 61631 && has_path(message, "c/ur"@) && holds(message, tlvs)
            && last_value_of(tlvs, 49) == Some(address) && address.len() == 16 && last_value_of(
            tlvs,
            48,
        ) == Some(high_low(source_port as nat) + high_low(port as nat) + bytes),
    ensures
        session.given(WorkView::Received(message)).run(now) == session,
{
    reveal(DriverView::received);
    lemma_single(session, WorkView::Received(message), now);
    if !session.closed() {
        law_a_proxied_datagram_names_its_source(message, tlvs, address, source_port, port, bytes);
    }
    assert(session.run(now) == session);
}

/// A request of the border agent that is no notification, and a response that
/// carries the token of no request in flight, change nothing but what the
/// session remembers of earlier answers.
pub proof fn law_unknown_messages_are_dropped(
    session: DriverView,
    message: CoapView,
    path: Seq<char>,
    now: u128,
)
    requires
        resting(session),
        !session.closed(),
        ({
            ||| {
                &&& is_new_request(session, message, DestinationView::BorderAgent, now)
                &&& has_path(message, path)
                &&& path != "c/ur"@ && path != "c/dc"@ && path != "d/da"@ && path != "c/pc"@
                    && path != "c/er"@ && path != "c/rx"@
            }
            ||| {
                &&& message.ty == CoapType::NonConfirmable || message.ty
                    == CoapType::Acknowledgement
                &&& message.code / 32 == 2 || message.code / 32 == 4 || message.code / 32 == 5
                &&& path_of(message) == Ok::<Option<Seq<char>>, ErrorView>(None)
                &&& forall|i: int|
                    0 <= i < session.exchanges.in_flight.len() ==> (
                    #[trigger] session.exchanges.in_flight[i]).request.token != message.token
            }
        }),
    ensures
        ({
            let after = session.given(WorkView::Received(message)).run(now);
            &&& after.effects == session.effects
            &&& after.exchanges == session.exchanges
            &&& after.status == session.status
            &&& resting(after)
        }),
{
    let origin = DestinationView::BorderAgent;
    assert(udp_rx_in(message) matches Ok(None));
    lemma_delivery(session, message, message, origin, now);
    lemma_no_position(
        session.exchanges.in_flight,
        |p: PendingView| p.acknowledged_by(message, false),
    );
    lemma_no_position(
        session.exchanges.in_flight,
        |p: PendingView| p.answered_by(message, false),
    );
    assert(session.refreshed(now).exchanges == session.exchanges);
    let routed = session.route(message, origin, now);
    assert(routed.run(now) == routed);
}

proof fn lemma_callers(in_flight: Seq<PendingView>)
    ensures
        application_count(in_flight) > 0 <==> exists|i: int|
            0 <= i < in_flight.len() && (#[trigger] in_flight[i]).completion is Caller,
    decreases in_flight.len(),
{
    if in_flight.len() > 0 {
        let shorter = in_flight.drop_last();
        lemma_callers(shorter);
        assert(in_flight[in_flight.len() - 1] == in_flight.last());
        if exists|i: int| 0 <= i < shorter.len() && (#[trigger] shorter[i]).completion is Caller {
            let i = choose|i: int|
                0 <= i < shorter.len() && (#[trigger] shorter[i]).completion is Caller;
            assert(in_flight[i] == shorter[i]);
        }
        if exists|i: int|
            0 <= i < in_flight.len() && (#[trigger] in_flight[i]).completion is Caller {
            let i = choose|i: int|
                0 <= i < in_flight.len() && (#[trigger] in_flight[i]).completion is Caller;
            if i < shorter.len() {
                assert(shorter[i] == in_flight[i]);
            }
        }
    }
}

/// Requests of the application go out one at a time, the first that was made
/// first: none while another one is in flight, and the first of the queue
/// otherwise, whatever else is in flight.
pub proof fn law_requests_go_out_one_at_a_time(session: DriverView)
    requires
        !session.closed(),
        session.exchanges.queued.len() > 0,
    ensures
        ({
            let after = session.send_queued();
            let busy = exists|i: int|
                0 <= i < session.exchanges.in_flight.len() && (
                #[trigger] session.exchanges.in_flight[i]).completion is Caller;
            let (request, completion) = session.exchanges.queued[0];
            &&& busy ==> after == session
            &&& !busy ==> {
                &&& after.exchanges.queued == session.exchanges.queued.drop_first()
                &&& after.exchanges.in_flight == session.exchanges.in_flight
                &&& after.waiting matches WaitingView::RequestToken {
                    request: next,
                    completion: waiting,
                }
                &&& waiting == completion
                &&& next.destination == request.destination
                &&& next.expect_response == request.expect_response
                &&& next.message == (CoapView {
                    message_id: ((session.next_message_id + 1) % 0x1_0000) as u16,
                    ..request.message
                })
            }
        }),
{
    reveal(DriverView::send_queued);
    lemma_callers(session.exchanges.in_flight);
}

} // verus!
