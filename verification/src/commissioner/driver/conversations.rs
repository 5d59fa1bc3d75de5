//! Whole exchanges: from what a handle asks for to what it is told.

use vstd::prelude::*;
use vstd::utf8::encode_utf8;

use crate::bytes::high_low;
use crate::commissioner::coap::{message_in, CoapType, CoapView};
use crate::commissioner::driver::model::{lemma_step_is_lighter, DriverView};
use crate::commissioner::driver::parts::{
    AfterSendView, CommandView, EffectView, ReplyView, WaitingView, WorkView,
};
use crate::commissioner::driver::promises::{lemma_delivery, resting};
use crate::commissioner::driver::traffic::{
    answers, law_a_petition_gives_the_session_it_was_answered_with,
    law_a_response_completes_its_exchange, lemma_single,
};
use crate::commissioner::error::ErrorView;
use crate::commissioner::exchange::{
    lemma_no_position, lemma_position, Completion, ExchangesView, OutboundView, PendingView,
};
use crate::commissioner::messages::{has_path, path_of};
use crate::commissioner::tlv::{last_value_of, TlvView};
use crate::commissioner::types::{DestinationView, PetitionView, SessionStatusView};
use crate::commissioner::wire_laws::{holds, law_a_proxied_datagram_names_its_source};

verus! {

/// Whether a message is a response that needs no acknowledgement.
pub open spec fn is_plain_response(message: CoapView) -> bool {
    &&& path_of(message) == Ok::<Option<Seq<char>>, ErrorView>(None)
    &&& message.ty == CoapType::Acknowledgement || message.ty == CoapType::NonConfirmable
    &&& message.code / 32 == 2 || message.code / 32 == 4 || message.code / 32 == 5
}

/// The session after a command was given to it, the token was drawn, and the
/// border agent was sent the request.
pub open spec fn asked(
    session: DriverView,
    command: CommandView,
    token: Seq<u8>,
    now: u128,
    random: u32,
) -> DriverView {
    session.given(WorkView::Command(command)).run(now).with_token(token).sent(
        Ok(()),
        now,
        random,
    ).run(now)
}

/// The session after a request of the application that is alone went out.
proof fn lemma_asked(
    session: DriverView,
    id: u64,
    request: OutboundView,
    token: Seq<u8>,
    now: u128,
    random: u32,
)
    requires
        resting(session),
        !session.closed(),
        session.open,
        session.exchanges.in_flight.len() == 0,
        session.exchanges.queued.len() == 0,
        request.destination is BorderAgent,
        request.expect_response,
    ensures
        ({
            let after = asked(session, CommandView::Exchange { id, request }, token, now, random);
            let named = CoapView {
                message_id: ((session.next_message_id + 1) % 0x1_0000) as u16,
                token,
                ..request.message
            };
            &&& resting(after)
            &&& after.status == session.status
            &&& after.effects == session.effects
            &&& after.exchanges.queued.len() == 0
            &&& after.exchanges.in_flight.len() == 1
            &&& after.exchanges.in_flight[0].request == named
            &&& after.exchanges.in_flight[0].destination is BorderAgent
            &&& after.exchanges.in_flight[0].completion == (Completion::Caller { id })
        }),
{
    reveal(DriverView::command);
    reveal(DriverView::send_queued);
    let work = WorkView::Command(CommandView::Exchange { id, request });
    lemma_single(session, work, now);
    let submitted = session.perform(work, now);
    lemma_step_is_lighter(submitted, now);
    assert(submitted.work.drop_last() =~= session.work);
    let waiting = submitted.step(now);
    assert(session.exchanges.queued.push((request, Completion::Caller { id })).drop_first()
        =~= session.exchanges.queued);
    assert(waiting.run(now) == waiting);
    let sent = waiting.with_token(token).sent(Ok(()), now, random);
    assert(sent.work.len() == 1);
    assert(sent.work.last() == WorkView::SendQueued);
    lemma_step_is_lighter(sent, now);
    let after = sent.step(now);
    assert(after.run(now) == after);
    assert(sent.run(now) == after);
}

/// Whoever made a request is told the response of the border agent that carries
/// the token of the request, and the request is then no longer in flight.
pub proof fn law_a_request_gets_its_response(
    session: DriverView,
    id: u64,
    request: OutboundView,
    token: Seq<u8>,
    now: u128,
    random: u32,
    response: CoapView,
    at: u128,
)
    requires
        resting(session),
        !session.closed(),
        session.open,
        session.exchanges.in_flight.len() == 0,
        session.exchanges.queued.len() == 0,
        request.destination is BorderAgent,
        request.expect_response,
        is_plain_response(response),
        response.token == token,
    ensures
        ({
            let after = asked(session, CommandView::Exchange { id, request }, token, now, random);
            let done = after.given(WorkView::Received(response)).run(at);
            &&& done.effects == session.effects.push(
                EffectView::Reply { id, reply: ReplyView::Exchange(Ok(Some(response))) },
            )
            &&& done.exchanges.in_flight.len() == 0
            &&& resting(done)
            &&& done.status == session.status
        }),
{
    lemma_asked(session, id, request, token, now, random);
    let after = asked(session, CommandView::Exchange { id, request }, token, now, random);
    assert(answers(after, response, 0));
    law_a_response_completes_its_exchange(after, response, 0, at);
    let rest = DriverView {
        exchanges: ExchangesView {
            in_flight: after.exchanges.in_flight.remove(0),
            ..after.exchanges
        },
        ..after
    };
    reveal(DriverView::complete);
    reveal(DriverView::send_queued);
    let told = rest.complete(Completion::Caller { id }, Ok(Some(response)), at);
    lemma_step_is_lighter(told, at);
    assert(told.work.len() == 1);
    assert(told.work.drop_last() =~= after.work);
    let done = told.step(at);
    assert(done.run(at) == done);
    assert(told.run(at) == done);
}

/// A petition that the border agent answers with Accept and a session ID makes
/// the session active under that ID, and whoever asked is told the ID.
pub proof fn law_an_accepted_petition_makes_the_session_active(
    session: DriverView,
    id: u64,
    token: Seq<u8>,
    now: u128,
    random: u32,
    response: CoapView,
    tlvs: Seq<TlvView>,
    session_id: u16,
    at: u128,
)
    requires
        resting(session),
        session.status is Connected || session.status is Idle,
        session.open,
        encode_utf8(session.commissioner_id).len() <= 0xffff,
        session.exchanges.in_flight.len() == 0,
        session.exchanges.queued.len() == 0,
        is_plain_response(response),
        response.code / 32 == 2,
        response.token == token,
        holds(response, tlvs),
        last_value_of(tlvs, 16) == Some(seq![0x01u8]),
        last_value_of(tlvs, 11) == Some(high_low(session_id as nat)),
        last_value_of(tlvs, 10) is None,
    ensures
        ({
            let after = asked(session, CommandView::Petition { id }, token, now, random);
            let done = after.given(WorkView::Received(response)).run(at);
            &&& after.status is Petitioning
            &&& done.status == (SessionStatusView::Active { session_id })
            &&& done.effects == session.effects + seq![
                EffectView::Status(SessionStatusView::Petitioning),
                EffectView::Status(SessionStatusView::Active { session_id }),
                EffectView::Reply {
                    id,
                    reply: ReplyView::Petition(
                        Ok(PetitionView { session_id, existing_commissioner_id: None }),
                    ),
                },
            ]
            &&& resting(done)
        }),
{
    reveal(DriverView::command);
    let work = WorkView::Command(CommandView::Petition { id });
    lemma_single(session, work, now);
    let waiting = session.perform(work, now);
    assert(waiting.run(now) == waiting);
    let sent = waiting.with_token(token).sent(Ok(()), now, random);
    assert(sent.run(now) == sent);
    assert(sent.exchanges.in_flight.len() == 1);
    assert(answers(sent, response, 0));
    law_a_response_completes_its_exchange(sent, response, 0, at);
    law_a_petition_gives_the_session_it_was_answered_with(
        Ok(Some(response)),
        response,
        tlvs,
        session_id,
        Seq::empty(),
    );
    let rest = DriverView {
        exchanges: ExchangesView {
            in_flight: sent.exchanges.in_flight.remove(0),
            ..sent.exchanges
        },
        ..sent
    };
    reveal(DriverView::complete);
    let done = rest.complete(Completion::Petition { id }, Ok(Some(response)), at);
    assert(done.run(at) == done);
    assert(done.effects =~= session.effects + seq![
        EffectView::Status(SessionStatusView::Petitioning),
        EffectView::Status(SessionStatusView::Active { session_id }),
        EffectView::Reply {
            id,
            reply: ReplyView::Petition(
                Ok(PetitionView { session_id, existing_commissioner_id: None }),
            ),
        },
    ]);
}

/// Whoever made a request to a mesh device is told the response that the UDP
/// proxy brings for the management port with the token of the request.
pub proof fn law_a_mesh_request_gets_its_response(
    session: DriverView,
    message: CoapView,
    tlvs: Seq<TlvView>,
    address: Seq<u8>,
    port: u16,
    bytes: Seq<u8>,
    response: CoapView,
    id: u64,
    at: u128,
)
    requires
        resting(session),
        !session.closed(),
        session.exchanges.in_flight.len() == 1,
        session.exchanges.in_flight[0].destination is Mesh,
        session.exchanges.in_flight[0].completion == (Completion::Caller { id }),
        session.exchanges.in_flight[0].request.token == response.token,
        session.exchanges.queued.len() == 0,
        has_path(message, "c/ur"@),
        holds(message, tlvs),
        last_value_of(tlvs, 49) == Some(address),
        address.len() == 16,
        last_value_of(tlvs, 48) == Some(high_low(port as nat) + high_low(61631) + bytes),
        message_in(bytes) == Some(response),
        response.ty == CoapType::Acknowledgement || response.ty == CoapType::NonConfirmable,
        response.code / 32 == 2 || response.code / 32 == 4 || response.code / 32 == 5,
    ensures
        ({
            let done = session.given(WorkView::Received(message)).run(at);
            &&& done.effects == session.effects.push(
                EffectView::Reply { id, reply: ReplyView::Exchange(Ok(Some(response))) },
            )
            &&& done.exchanges.in_flight.len() == 0
            &&& resting(done)
        }),
{
    let origin = DestinationView::Mesh { address, port };
    law_a_proxied_datagram_names_its_source(message, tlvs, address, port, 61631, bytes);
    lemma_delivery(session, message, response, origin, at);
    lemma_no_position(
        session.exchanges.in_flight,
        |p: PendingView| p.acknowledged_by(response, true),
    );
    lemma_position(
        session.exchanges.in_flight,
        |p: PendingView| p.answered_by(response, true),
        0,
    );
    let rest = DriverView {
        exchanges: ExchangesView {
            in_flight: session.exchanges.in_flight.remove(0),
            ..session.exchanges
        },
        ..session
    };
    let routed = session.route(response, origin, at);
    let work = WorkView::Complete {
        completion: Completion::Caller { id },
        outcome: Ok(Some(response)),
    };
    assert(routed == rest.push(work));
    lemma_step_is_lighter(routed, at);
    assert(routed.work.drop_last() =~= session.work);
    assert(DriverView { work: routed.work.drop_last(), ..routed } == rest);
    reveal(DriverView::complete);
    reveal(DriverView::send_queued);
    let told = rest.complete(Completion::Caller { id }, Ok(Some(response)), at);
    assert(routed.step(at) == told);
    lemma_step_is_lighter(told, at);
    assert(told.work.drop_last() =~= session.work);
    let done = told.step(at);
    assert(done.run(at) == done);
    assert(told.run(at) == done);
}

/// A request to a mesh device is in flight, once it was sent in its
/// encapsulation, with the token and the message ID that its inner message
/// carries.
pub proof fn law_a_mesh_request_is_in_flight_with_its_inner_token(
    session: DriverView,
    request: OutboundView,
    completion: Completion,
    token: Seq<u8>,
    outer: Seq<u8>,
    now: u128,
    random: u32,
)
    requires
        session.waiting == (WaitingView::RequestToken { request, completion }),
        request.destination is Mesh,
        request.expect_response,
        !session.exchanges.uses_token(token),
        !session.exchanges.uses_token(outer),
        (CoapView { token, ..request.message }).fits(),
        (CoapView { token, ..request.message }).encoding().len() <= 65531,
    ensures
        ({
            let sent = session.with_token(token).with_token(outer).sent(Ok(()), now, random);
            let pending = sent.exchanges.in_flight.last();
            &&& sent.exchanges.in_flight.len() == session.exchanges.in_flight.len() + 1
            &&& pending.request == (CoapView { token, ..request.message })
            &&& pending.destination == request.destination
            &&& pending.completion == completion
        }),
{
    let named = OutboundView { message: CoapView { token, ..request.message }, ..request };
    let wrapped = session.with_token(token);
    assert(wrapped.exchanges == session.exchanges);
    assert(wrapped.waiting is WireToken);
    assert(wrapped.waiting->WireToken_then == (AfterSendView::Track { request: named, completion }));
}

} // verus!
