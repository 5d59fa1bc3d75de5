//! What follows once something that a session waited for has come about.

use vstd::prelude::*;

use crate::commissioner::coap::{CoapType, CoapView};
use crate::commissioner::driver::model::{lemma_step_is_lighter, DriverView};
use crate::commissioner::driver::parts::{
    AfterReopenView, AfterSendView, CommandView, DriverActionView, EffectView, OutcomeView, RelayOutputView,
    ReplyView, WaitingView, WorkView,
};
use crate::commissioner::driver::promises::{
    law_a_copy_is_answered_again, lemma_delivery, resting,
};
use crate::commissioner::driver::traffic::{
    empty_acknowledgement, is_new_request, law_a_direct_notification_is_reported_without_a_source,
    lemma_new_request, told_of,
};
use crate::commissioner::duplicates::{
    law_an_answer_is_repeated, law_only_mesh_messages_outlive_a_reopening, remembered, reply_in,
    unexpired, AnsweredView,
};
use crate::commissioner::error::ErrorView;
use crate::commissioner::exchange::{
    lemma_no_position, lemma_position, Completion, ExchangesView, OutboundView, PendingView,
};
use crate::commissioner::messages::{
    has_path, notification_in, path_of, udp_rx_in, NotificationView,
};
use crate::commissioner::types::{
    CloseReasonView, DestinationView, EventView, SessionStatusView,
};

verus! {

/// Whoever made a request is told its outcome, whatever it is, and the next
/// request that waits for its turn is looked at.
pub proof fn law_a_caller_is_told_the_outcome(
    session: DriverView,
    id: u64,
    outcome: OutcomeView,
    now: u128,
)
    ensures
        ({
            let after = session.complete(Completion::Caller { id }, outcome, now);
            &&& after.effects == session.effects.push(
                EffectView::Reply { id, reply: ReplyView::Exchange(outcome) },
            )
            &&& after.work == session.work.push(WorkView::SendQueued)
            &&& after.status == session.status
            &&& after.exchanges == session.exchanges
        }),
{
    reveal(DriverView::complete);
}

/// A request that was sent is in flight until it is answered, where a response
/// is awaited; otherwise it is complete without one. One that could not be sent
/// fails with the reason, and a failure of the transport ends the session.
pub proof fn law_a_request_is_in_flight_once_it_was_sent(
    session: DriverView,
    wire: CoapView,
    request: OutboundView,
    completion: Completion,
    now: u128,
    random: u32,
    error: ErrorView,
)
    requires
        session.waiting == (WaitingView::Send {
            wire,
            then: AfterSendView::Track { request, completion },
        }),
    ensures
        ({
            let sent = session.sent(Ok(()), now, random);
            let in_flight = sent.exchanges.in_flight;
            &&& sent.waiting is Idle
            &&& request.expect_response ==> {
                &&& in_flight.len() == session.exchanges.in_flight.len() + 1
                &&& in_flight.drop_last() == session.exchanges.in_flight
                &&& in_flight.last().request == request.message
                &&& in_flight.last().destination == request.destination
                &&& in_flight.last().completion == completion
                &&& sent.work == session.work
            }
            &&& !request.expect_response ==> {
                &&& in_flight == session.exchanges.in_flight
                &&& sent.work == session.work.push(
                    WorkView::Complete { completion, outcome: Ok(None) },
                )
            }
        }),
        ({
            let failed = session.sent(Err(error), now, random);
            let told = session.work.push(WorkView::Complete { completion, outcome: Err(error) });
            &&& failed.waiting is Idle
            &&& failed.exchanges == session.exchanges
            &&& error is Io || error is Dtls ==> failed.work.len() == told.len() + 1
                && failed.work.drop_last() == told && failed.work.last() is EndSession
            &&& !(error is Io || error is Dtls) ==> failed.work == told
        }),
{
    let sent = session.sent(Ok(()), now, random);
    if request.expect_response {
        assert(sent.exchanges.in_flight.drop_last() =~= session.exchanges.in_flight);
    }
    let failed = session.sent(Err(error), now, random);
    let told = session.work.push(WorkView::Complete { completion, outcome: Err(error) });
    if error is Io || error is Dtls {
        assert(failed.work.drop_last() =~= told);
    }
}

/// The empty acknowledgement of the border agent stops the repetition of the
/// request that it acknowledges, and does nothing else.
pub proof fn law_an_acknowledgement_stops_the_repetition(
    session: DriverView,
    message: CoapView,
    index: int,
    now: u128,
)
    requires
        resting(session),
        !session.closed(),
        0 <= index < session.exchanges.in_flight.len(),
        session.exchanges.in_flight[index].destination is BorderAgent,
        message == empty_acknowledgement(session.exchanges.in_flight[index].request.message_id),
        forall|i: int|
            0 <= i < index ==> (#[trigger] session.exchanges.in_flight[i]).request.message_id
                != message.message_id || session.exchanges.in_flight[i].destination is Mesh,
    ensures
        ({
            let after = session.given(WorkView::Received(message)).run(now);
            let pending = session.exchanges.in_flight[index];
            &&& after.exchanges.in_flight == session.exchanges.in_flight.update(
                index,
                PendingView { retry_at: None, ..pending },
            )
            &&& after.exchanges.queued == session.exchanges.queued
            &&& after.effects == session.effects
            &&& resting(after)
        }),
{
    let origin = DestinationView::BorderAgent;
    assert(message.options.len() == 0);
    assert(udp_rx_in(message) matches Ok(None));
    lemma_delivery(session, message, message, origin, now);
    assert(message =~= CoapView::empty(CoapType::Acknowledgement, message.message_id));
    lemma_position(
        session.exchanges.in_flight,
        |p: PendingView| p.acknowledged_by(message, false),
        index,
    );
    let routed = session.route(message, origin, now);
    assert(routed.run(now) == routed);
}

/// A Reset fails the request whose message ID it names.
pub proof fn law_a_reset_fails_its_request(
    session: DriverView,
    message: CoapView,
    index: int,
    now: u128,
)
    requires
        resting(session),
        !session.closed(),
        message.ty == CoapType::Reset,
        message.code == 0,
        path_of(message) == Ok::<Option<Seq<char>>, ErrorView>(None),
        0 <= index < session.exchanges.in_flight.len(),
        session.exchanges.in_flight[index].destination is BorderAgent,
        session.exchanges.in_flight[index].request.message_id == message.message_id,
        forall|i: int|
            0 <= i < index ==> (#[trigger] session.exchanges.in_flight[i]).request.message_id
                != message.message_id || session.exchanges.in_flight[i].destination is Mesh,
    ensures
        ({
            let pending = session.exchanges.in_flight[index];
            let rest = DriverView {
                exchanges: ExchangesView {
                    in_flight: session.exchanges.in_flight.remove(index),
                    ..session.exchanges
                },
                ..session
            };
            session.given(WorkView::Received(message)).run(now) == rest.complete(
                pending.completion,
                Err(ErrorView::InvalidState("CoAP request was reset by the peer"@)),
                now,
            ).run(now)
        }),
{
    let origin = DestinationView::BorderAgent;
    let pending = session.exchanges.in_flight[index];
    let rest = DriverView {
        exchanges: ExchangesView {
            in_flight: session.exchanges.in_flight.remove(index),
            ..session.exchanges
        },
        ..session
    };
    assert(udp_rx_in(message) matches Ok(None));
    lemma_delivery(session, message, message, origin, now);
    lemma_no_position(
        session.exchanges.in_flight,
        |p: PendingView| p.acknowledged_by(message, false),
    );
    lemma_position(
        session.exchanges.in_flight,
        |p: PendingView| p.answered_by(message, false),
        index,
    );
    let routed = session.route(message, origin, now);
    let error = ErrorView::InvalidState("CoAP request was reset by the peer"@);
    let work = WorkView::Complete { completion: pending.completion, outcome: Err(error) };
    assert(routed == rest.push(work));
    lemma_step_is_lighter(routed, now);
    assert(routed.work.drop_last() =~= session.work);
    assert(DriverView { work: routed.work.drop_last(), ..routed } == rest);
    assert(routed.step(now) == rest.complete(pending.completion, Err(error), now));
}

/// A link that was opened again leaves the session connected, which is told;
/// what the link was opened for is taken up. One that could not be opened is
/// told to whoever asked, and leaves the session where it was.
pub proof fn law_a_reopened_link_is_told(
    session: DriverView,
    id: u64,
    request: OutboundView,
    error: ErrorView,
)
    ensures
        session.waiting == WaitingView::Reopen(AfterReopenView::Submit { id, request }) ==> {
            let opened = session.reopened(Ok(()));
            &&& opened.open
            &&& opened.status is Connected
            &&& opened.waiting is Idle
            &&& opened.effects == session.effects.push(
                EffectView::Status(SessionStatusView::Connected),
            )
            &&& opened.exchanges.queued == session.exchanges.queued.push(
                (request, Completion::Caller { id }),
            )
            &&& session.reopened(Err(error)) == session.wait(WaitingView::Idle).effect(
                EffectView::Reply { id, reply: ReplyView::Exchange(Err(error)) },
            )
        },
        session.waiting == WaitingView::Reopen(AfterReopenView::Petition { id }) ==> session.reopened(
            Err(error),
        ) == session.wait(WaitingView::Idle).effect(
            EffectView::Reply { id, reply: ReplyView::Petition(Err(error)) },
        ),
{
}

/// What a joiner session asks for is done in order: an event is published, and
/// a message goes out as it is but for the next message ID and the token that
/// is drawn for it. Behind the last the relayed message is acknowledged, where
/// it is confirmable.
pub proof fn law_relay_outputs_are_done_in_order(
    session: DriverView,
    message: CoapView,
    event: EventView,
    answer: CoapView,
    more: Seq<RelayOutputView>,
    token: Seq<u8>,
    now: u128,
)
    requires
        session.waiting is Idle,
        !session.closed(),
        !session.exchanges.uses_token(token),
    ensures
        ({
            let published = session.relay_outputs(
                seq![RelayOutputView::Publish(event)] + more,
                message,
                now,
            );
            &&& published.effects == session.effects.push(EffectView::Publish(event))
            &&& published.work == session.work.push(
                WorkView::RelayOutputs { outputs: more, message },
            )
        }),
        ({
            let sending = session.relay_outputs(
                seq![RelayOutputView::Send(answer)] + more,
                message,
                now,
            );
            &&& sending.waiting.action() is DrawToken
            &&& sending.effects == session.effects
            &&& sending.with_token(token).waiting == (WaitingView::Send {
                wire: CoapView {
                    message_id: ((session.next_message_id + 1) % 0x1_0000) as u16,
                    token,
                    ..answer
                },
                then: AfterSendView::Relay { outputs: more, message },
            })
            &&& sending.with_token(token).sent(Ok(()), now, 0).work == session.work.push(
                WorkView::RelayOutputs { outputs: more, message },
            )
        }),
        ({
            let done = session.relay_outputs(Seq::empty(), message, now);
            &&& message.ty == CoapType::Confirmable ==> done.waiting.action()
                == DriverActionView::Send(empty_acknowledgement(message.message_id))
            &&& message.ty != CoapType::Confirmable ==> done == session
        }),
{
    reveal(DriverView::relay_outputs);
    let publishing = seq![RelayOutputView::Publish(event)] + more;
    let asking = seq![RelayOutputView::Send(answer)] + more;
    assert(publishing.drop_first() =~= more);
    assert(asking.drop_first() =~= more);
    assert(publishing[0] == RelayOutputView::Publish(event));
    assert(asking[0] == RelayOutputView::Send(answer));
    assert(CoapView::empty(CoapType::Acknowledgement, message.message_id)
        == empty_acknowledgement(message.message_id));
}

/// What the joiner's session asked for is taken up with the message that it
/// answers; where the joiner's session failed, only a failure of the transport
/// has a consequence.
pub proof fn law_a_served_payload_is_taken_up(
    session: DriverView,
    joiner_iid: Seq<u8>,
    payload: Seq<u8>,
    port: u16,
    locator: u16,
    message: CoapView,
    outputs: Seq<RelayOutputView>,
    error: ErrorView,
)
    requires
        session.waiting == (WaitingView::Relay {
            joiner_udp_port: port,
            joiner_router_locator: locator,
            joiner_iid,
            payload,
            message,
        }),
    ensures
        session.relayed(Ok(outputs)) == session.wait(WaitingView::Idle).push(
            WorkView::RelayOutputs { outputs, message },
        ),
        !(error is Io || error is Dtls) ==> session.relayed(Err(error)) == session.wait(
            WaitingView::Idle,
        ),
{
}

/// A session asks for a token exactly where it waits for one, and draws a
/// random wait exactly where it tracks the response to a confirmable request
/// that was sent.
pub proof fn law_when_chance_is_asked_for(session: DriverView, result: Result<(), ErrorView>)
    ensures
        session.needs_token() <==> session.waiting.action() is DrawToken,
        session.needs_random(result) <==> result is Ok && (session.waiting matches WaitingView::Send {
            then: AfterSendView::Track { request, .. },
            ..
        } && request.expect_response && request.message.ty == CoapType::Confirmable),
{
}

/// A response whose acknowledgement could not be sent is lost: whoever waits
/// for it is told that the session is closed.
pub proof fn law_an_unacknowledged_response_is_given_up(
    session: DriverView,
    wire: CoapView,
    response: CoapView,
    id: u64,
    error: ErrorView,
    now: u128,
    random: u32,
)
    requires
        session.waiting == (WaitingView::Send {
            wire,
            then: AfterSendView::Answer { completion: Completion::Caller { id }, response },
        }),
    ensures
        session.sent(Err(error), now, random).effects == session.effects.push(
            EffectView::Reply { id, reply: ReplyView::Exchange(Err(ErrorView::SessionClosed)) },
        ),
        session.sent(Ok(()), now, random).work == session.work.push(
            WorkView::Complete {
                completion: Completion::Caller { id },
                outcome: Ok(Some(response)),
            },
        ),
        session.sent(Ok(()), now, random).effects == session.effects,
{
}

/// A token that an exchange in flight uses is not taken: another one has to be
/// drawn.
pub proof fn law_a_token_in_use_is_not_taken(session: DriverView, token: Seq<u8>, i: int)
    requires
        0 <= i < session.exchanges.in_flight.len(),
        session.exchanges.in_flight[i].request.token == token,
    ensures
        session.with_token(token) == session,
{
}

/// A repetition counts for its exchange, whether it went out or failed for a
/// reason that leaves the link usable, and the timers of the next exchange are
/// looked at.
pub proof fn law_a_repetition_counts(
    session: DriverView,
    wire: CoapView,
    index: usize,
    at: u128,
    now: u128,
    random: u32,
    error: ErrorView,
)
    requires
        session.waiting == (WaitingView::Send {
            wire,
            then: AfterSendView::Retransmit { index, at },
        }),
        index < session.exchanges.in_flight.len(),
        index + 1 < usize::MAX,
    ensures
        ({
            let repeated = session.sent(Ok(()), now, random);
            let failed = session.sent(Err(error), now, random);
            let pending = session.exchanges.in_flight[index as int];
            &&& repeated.exchanges.in_flight == session.exchanges.in_flight.update(
                index as int,
                pending.retransmitted(at),
            )
            &&& repeated.work == session.work.push(
                WorkView::ExchangeTimers { index: (index + 1) as usize, at },
            )
            &&& repeated.effects == session.effects
            &&& !(error is Io || error is Dtls) ==> failed == repeated
            &&& error is Io || error is Dtls ==> failed.exchanges == session.exchanges
                && failed.work.len() == session.work.len() + 1 && failed.work.last() is EndSession
        }),
{
}

/// A request that comes while the link is closed, and a petition too, first
/// have the link opened again.
pub proof fn law_a_closed_link_is_opened_first(
    session: DriverView,
    id: u64,
    request: OutboundView,
)
    requires
        session.status is Idle,
        !session.open,
        !session.exchanges.resigning(),
    ensures
        ({
            let asking = session.command(CommandView::Exchange { id, request });
            let petitioning = session.command(CommandView::Petition { id });
            &&& asking.waiting == WaitingView::Reopen(AfterReopenView::Submit { id, request })
            &&& petitioning.waiting == WaitingView::Reopen(AfterReopenView::Petition { id })
            &&& asking.waiting.action() is Reopen
            &&& petitioning.waiting.action() is Reopen
            &&& asking.effects == session.effects
            &&& petitioning.effects == session.effects
        }),
{
    reveal(DriverView::command);
}

/// A reopened link brings a petition on its way, and what the border agent was
/// answered over the old link is forgotten.
pub proof fn law_a_reopened_link_is_a_new_one(session: DriverView, id: u64, message_id: u16, now: u128)
    requires
        session.waiting == WaitingView::Reopen(AfterReopenView::Petition { id }),
        vstd::utf8::encode_utf8(session.commissioner_id).len() <= 0xffff,
    ensures
        ({
            let opened = session.reopened(Ok(()));
            &&& opened.open
            &&& opened.status is Petitioning
            &&& opened.waiting.action() is DrawToken
            &&& reply_in(opened.answered, DestinationView::BorderAgent, message_id, now) is None
        }),
{
    law_only_mesh_messages_outlive_a_reopening(session.answered, message_id, now);
}

/// A request over an open link goes to the end of the queue.
pub proof fn law_requests_queue_up(session: DriverView, id: u64, request: OutboundView)
    requires
        !session.closed(),
        session.open,
        !session.exchanges.resigning(),
    ensures
        ({
            let after = session.command(CommandView::Exchange { id, request });
            &&& after.exchanges.queued == session.exchanges.queued.push(
                (request, Completion::Caller { id }),
            )
            &&& after.exchanges.in_flight == session.exchanges.in_flight
            &&& after.work == session.work.push(WorkView::SendQueued)
            &&& after.effects == session.effects
        }),
{
    reveal(DriverView::command);
}

/// A session that ends, for whatever reason, has its link closed, nothing in
/// flight or queued, and no keep-alive scheduled. An ended session stays as it
/// is.
pub proof fn law_an_ended_session_lets_go(session: DriverView, reason: CloseReasonView)
    ensures
        ({
            let after = session.end_session(reason);
            &&& session.closed() ==> after == session
            &&& !session.closed() ==> {
                &&& after.status == (SessionStatusView::Closed { reason })
                &&& !after.open
                &&& after.keep_alive_at is None
                &&& after.exchanges.in_flight.len() == 0
                &&& after.exchanges.queued.len() == 0
                &&& after.effects == session.effects + seq![
                    EffectView::Status(SessionStatusView::Closed { reason }),
                    EffectView::ClearJoiners,
                    EffectView::CloseLink,
                ]
            }
        }),
{
    reveal(DriverView::end_session);
    if !session.closed() {
        assert(session.end_session(reason).effects =~= session.effects + seq![
            EffectView::Status(SessionStatusView::Closed { reason }),
            EffectView::ClearJoiners,
            EffectView::CloseLink,
        ]);
    }
}

/// A confirmable notification of the border agent is reported once: a copy that
/// arrives within 247 seconds is acknowledged again, and nothing more is told.
pub proof fn law_a_notification_is_reported_once(
    session: DriverView,
    message: CoapView,
    path: Seq<char>,
    notification: NotificationView,
    now: u128,
    sent_at: u128,
    again: u128,
    random: u32,
)
    requires
        resting(session),
        !session.closed(),
        has_path(message, path),
        path != "c/ur"@,
        message.ty == CoapType::Confirmable,
        is_new_request(session, message, DestinationView::BorderAgent, now),
        notification_in(message) == Ok::<Option<NotificationView>, ErrorView>(Some(notification)),
        notification is RelayRx ==> !session.handles_joiners,
        now <= again < now + 247_000_000_000,
    ensures
        ({
            let first = session.given(WorkView::Received(message)).run(now);
            let resumed = first.sent(Ok(()), sent_at, random).run(sent_at);
            let copy = resumed.given(WorkView::Received(message)).run(again);
            let acknowledgement = empty_acknowledgement(message.message_id);
            &&& first.waiting.action() == DriverActionView::Send(acknowledgement)
            &&& first.effects == session.effects + told_of(notification, None)
            &&& resting(resumed)
            &&& resumed.effects == first.effects
            &&& copy.waiting.action() == DriverActionView::Send(acknowledgement)
            &&& copy.effects == first.effects
        }),
{
    let origin = DestinationView::BorderAgent;
    let reply = CoapView::empty(CoapType::Acknowledgement, message.message_id);
    law_a_direct_notification_is_reported_without_a_source(
        session,
        message,
        path,
        notification,
        now,
    );
    assert(udp_rx_in(message) matches Ok(None));
    lemma_delivery(session, message, message, origin, now);
    lemma_new_request(session, message, origin, notification, now);
    let refreshed = session.refreshed(now);
    let routed = session.route(message, origin, now);
    assert(routed.run(now) == routed);
    let entry = AnsweredView { origin, message_id: message.message_id, reply, at: now };
    assert(routed.answered == remembered(refreshed.answered, entry));
    let resumed = routed.sent(Ok(()), sent_at, random);
    assert(resumed.run(sent_at) == resumed);
    lemma_unexpired_twice(session.answered, now);
    law_an_answer_is_repeated(refreshed.answered, entry);
    assert(reply_in(resumed.answered, origin, message.message_id, again) == Some(reply));
    law_a_copy_is_answered_again(
        resumed,
        message,
        message,
        origin,
        reply,
        again,
        again,
        random,
    );
}

/// What has not outlived the lifetime at an instant does not do so again.
proof fn lemma_unexpired_twice(entries: Seq<AnsweredView>, now: u128)
    ensures
        unexpired(unexpired(entries, now), now) == unexpired(entries, now),
    decreases entries.len(),
{
    if entries.len() > 0 {
        lemma_unexpired_twice(entries.drop_first(), now);
    }
}

/// A request for a mesh device that cannot be encoded, or is too long for the
/// UDP proxy, fails with that reason once its token is drawn.
pub proof fn law_an_unencodable_request_fails(
    session: DriverView,
    request: OutboundView,
    completion: Completion,
    token: Seq<u8>,
)
    requires
        session.waiting == (WaitingView::RequestToken { request, completion }),
        request.destination is Mesh,
        !session.exchanges.uses_token(token),
    ensures
        ({
            let named = CoapView { token, ..request.message };
            let after = session.with_token(token);
            &&& !named.fits() ==> after.waiting is Idle && after.work == session.work.push(
                WorkView::Complete {
                    completion,
                    outcome: Err(ErrorView::Coap("CoAP message cannot be encoded"@)),
                },
            )
            &&& named.fits() && named.encoding().len() > 65531 ==> after.waiting is Idle
                && after.work == session.work.push(
                WorkView::Complete {
                    completion,
                    outcome: Err(ErrorView::Dataset("TLV value is too long"@)),
                },
            )
            &&& named.fits() && named.encoding().len() <= 65531 ==> after.waiting is WireToken
                && after.work == session.work
        }),
{
}

/// A petition with an ID that is too long for its TLV is refused, and the
/// session stays where it is.
pub proof fn law_an_oversized_id_cannot_petition(session: DriverView, id: u64)
    requires
        session.status is Connected || session.status is Idle,
        session.open,
        vstd::utf8::encode_utf8(session.commissioner_id).len() > 0xffff,
    ensures
        session.command(CommandView::Petition { id }) == session.effect(
            EffectView::Reply {
                id,
                reply: ReplyView::Petition(Err(ErrorView::Dataset("TLV value is too long"@))),
            },
        ),
{
    reveal(DriverView::command);
}

} // verus!
