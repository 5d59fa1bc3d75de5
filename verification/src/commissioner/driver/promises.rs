//! What a session promises to whoever uses it.

use vstd::prelude::*;

use crate::commissioner::coap::{message_in, CoapType, CoapView};
use crate::commissioner::config::KeepAlive;
use crate::commissioner::driver::consistency::{
    consistent, going_idle, is_quiet, law_a_step_is_consistent, lemma_closed_step,
};
use crate::commissioner::driver::laws::{held, lemma_count_zero, tagged, Tag};
use crate::commissioner::driver::model::{
    failures, keep_alive_end, keep_alive_result, lemma_step_is_lighter, resign_result, DriverView,
};
use crate::commissioner::driver::parts::{
    AfterSendView, EffectView, OutcomeView, RelayOutputView, ReplyView, WaitingView, WorkView,
};
use crate::commissioner::duplicates::reply_in;
use crate::commissioner::error::ErrorView;
use crate::commissioner::exchange::{later, lemma_no_position, Completion, PendingView};
use crate::commissioner::messages::{udp_rx_in, udp_tx, DEFAULT_MM_PORT};
use crate::commissioner::types::{
    CloseReasonView, DestinationView, EventView, ResultCode, SessionStatusView,
};

verus! {

/// Whether a caller has been given the outcome, or will be.
pub open spec fn told(session: DriverView, id: u64, outcome: OutcomeView) -> bool {
    ||| session.effects.contains(EffectView::Reply { id, reply: ReplyView::Exchange(outcome) })
    ||| session.work.contains(
        WorkView::Complete { completion: Completion::Caller { id }, outcome },
    )
}

proof fn lemma_failures_contain(completions: Seq<Completion>, error: ErrorView, completion: Completion)
    requires
        completions.contains(completion),
    ensures
        failures(completions, error).contains(
            WorkView::Complete { completion, outcome: Err(error) },
        ),
    decreases completions.len(),
{
    let all = failures(completions, error);
    let rest = failures(completions.drop_first(), error);
    let i = choose|i: int| 0 <= i < completions.len() && completions[i] == completion;
    if i == 0 {
        assert(all[rest.len() as int] == (WorkView::Complete { completion, outcome: Err(error) }));
    } else {
        assert(completions.drop_first()[i - 1] == completion);
        lemma_failures_contain(completions.drop_first(), error, completion);
        let j = choose|j: int|
            0 <= j < rest.len() && rest[j] == (WorkView::Complete {
                completion,
                outcome: Err(error),
            });
        assert(all[j] == rest[j]);
    }
}

/// In an ended session a step keeps what a caller was told or will be told.
proof fn lemma_told_step(session: DriverView, now: u128, id: u64, outcome: OutcomeView)
    requires
        session.closed(),
        session.busy(),
        told(session, id, outcome),
        !(session.work.last() is GoIdle),
    ensures
        told(session.step(now), id, outcome),
{
    let rest = DriverView { work: session.work.drop_last(), ..session };
    let work = session.work.last();
    let after = session.step(now);
    let effect = EffectView::Reply { id, reply: ReplyView::Exchange(outcome) };
    let owed = WorkView::Complete { completion: Completion::Caller { id }, outcome };
    reveal(DriverView::command);
    reveal(DriverView::drop_handles);
    reveal(DriverView::received);
    reveal(DriverView::receive_failed);
    reveal(DriverView::send_queued);
    reveal(DriverView::complete);
    reveal(DriverView::end_session);
    reveal(DriverView::exchange_timers);
    reveal(DriverView::keep_alive_check);
    reveal(DriverView::relay_outputs);
    assert(forall|i: int|
        0 <= i < session.effects.len() ==> after.effects.len() > i && #[trigger] after.effects[i]
            == session.effects[i]);
    assert(forall|i: int|
        0 <= i < rest.work.len() ==> after.work.len() > i && #[trigger] after.work[i]
            == rest.work[i]);
    if session.effects.contains(effect) {
        let i = choose|i: int| 0 <= i < session.effects.len() && session.effects[i] == effect;
        assert(after.effects[i] == effect);
    } else {
        let i = choose|i: int| 0 <= i < session.work.len() && session.work[i] == owed;
        if i < rest.work.len() {
            assert(after.work[i] == owed);
        } else {
            assert(work == owed);
            assert(after.effects[session.effects.len() as int] == effect);
        }
    }
}

proof fn lemma_told_run(session: DriverView, now: u128, id: u64, outcome: OutcomeView)
    requires
        consistent(session),
        session.closed(),
        told(session, id, outcome),
    ensures
        session.run(now).effects.contains(
            EffectView::Reply { id, reply: ReplyView::Exchange(outcome) },
        ),
    decreases session.weight(),
{
    if session.busy() {
        lemma_step_is_lighter(session, now);
        law_a_step_is_consistent(session, now);
        assert(session.work[session.work.len() - 1] == session.work.last());
        assert(!going_idle(session.work));
        lemma_told_step(session, now, id, outcome);
        lemma_closed_step(session, now);
        lemma_told_run(session.step(now), now, id, outcome);
    } else {
        assert(session.work.len() == 0);
    }
}

/// When a session is lost, every request that is outstanding then, in flight
/// or queued, fails with the reason.
pub proof fn law_a_lost_session_fails_its_requests(
    session: DriverView,
    reason: CloseReasonView,
    now: u128,
    id: u64,
)
    requires
        consistent(session),
        !session.closed(),
        session.busy(),
        session.work.last() == WorkView::EndSession(reason),
        !(reason is Resigned),
        session.exchanges.everyone().contains(Completion::Caller { id }),
    ensures
        session.run(now).effects.contains(
            EffectView::Reply {
                id,
                reply: ReplyView::Exchange(Err(ErrorView::SessionLost(reason))),
            },
        ),
{
    let after = session.step(now);
    let error = ErrorView::SessionLost(reason);
    reveal(DriverView::end_session);
    lemma_step_is_lighter(session, now);
    law_a_step_is_consistent(session, now);
    lemma_failures_contain(session.exchanges.everyone(), error, Completion::Caller { id });
    let owed = WorkView::Complete { completion: Completion::Caller { id }, outcome: Err(error) };
    let failing = failures(session.exchanges.everyone(), error);
    let i = choose|i: int| 0 <= i < failing.len() && failing[i] == owed;
    let below = session.work.drop_last().push(
        WorkView::Publish(EventView::SessionLost { reason }),
    );
    assert(after.work == below + failing);
    assert(after.work[below.len() + i] == owed);
    lemma_told_run(after, now, id, Err(error));
}

/// Only an accepted keep-alive keeps the session: it stays as it is, with the
/// next one an interval away where the session schedules them. Any other
/// answer, and a failed exchange, end it.
pub proof fn law_only_an_accepted_keep_alive_keeps_the_session(
    session: DriverView,
    asked: Option<u64>,
    outcome: OutcomeView,
    now: u128,
)
    requires
        session.status is Active,
        session.waiting is Idle,
    ensures
        ({
            let after = session.complete(Completion::KeepAlive { asked }, outcome, now);
            match keep_alive_end(keep_alive_result(outcome)) {
                None => {
                    &&& keep_alive_result(outcome) == Ok::<ResultCode, ErrorView>(
                        ResultCode::Accept,
                    )
                    &&& after.status == session.status
                    &&& after.work == session.work
                    &&& session.keep_alive == KeepAlive::Automatic ==> after.keep_alive_at == Some(
                        later(now, session.keepalive_interval),
                    )
                },
                Some(reason) => {
                    &&& keep_alive_result(outcome) != Ok::<ResultCode, ErrorView>(
                        ResultCode::Accept,
                    )
                    &&& after.busy()
                    &&& after.step(now).status == (SessionStatusView::Closed { reason })
                },
            }
        }),
{
    reveal(DriverView::complete);
    reveal(DriverView::end_session);
}

/// A resignation ends the session whatever comes of it, and whoever asked for
/// it learns whether it was confirmed.
pub proof fn law_a_resignation_ends_the_session(
    session: DriverView,
    asked: Option<u64>,
    outcome: OutcomeView,
    now: u128,
)
    requires
        !session.closed(),
        session.waiting is Idle,
    ensures
        ({
            let after = session.complete(Completion::Resign { asked }, outcome, now);
            &&& after.busy()
            &&& after.step(now).status == (SessionStatusView::Closed {
                reason: CloseReasonView::Resigned,
            })
            &&& asked matches Some(id) ==> after.work.contains(
                WorkView::Reply { id, reply: ReplyView::Resign(resign_result(outcome)) },
            )
        }),
{
    reveal(DriverView::complete);
    reveal(DriverView::end_session);
    let after = session.complete(Completion::Resign { asked }, outcome, now);
    if let Some(id) = asked {
        assert(after.work[session.work.len() as int] == (WorkView::Reply {
            id,
            reply: ReplyView::Resign(resign_result(outcome)),
        }));
    }
}

/// Whether a session never sends a keep-alive on its own.
pub open spec fn left_to_the_application(session: DriverView) -> bool {
    session.keep_alive == KeepAlive::Manual && session.keep_alive_at is None
}

proof fn lemma_manual_step(session: DriverView, now: u128)
    requires
        left_to_the_application(session),
        session.busy(),
    ensures
        left_to_the_application(session.step(now)),
{
    reveal(DriverView::command);
    reveal(DriverView::drop_handles);
    reveal(DriverView::received);
    reveal(DriverView::receive_failed);
    reveal(DriverView::send_queued);
    reveal(DriverView::complete);
    reveal(DriverView::end_session);
    reveal(DriverView::exchange_timers);
    reveal(DriverView::keep_alive_check);
    reveal(DriverView::relay_outputs);
}

/// Where keep-alives are left to the application, the session never schedules
/// one, whatever it does and whatever it is told.
pub proof fn law_manual_keep_alives_are_never_scheduled(
    session: DriverView,
    now: u128,
    input: WorkView,
    token: Seq<u8>,
    random: u32,
    ended: Result<(), ErrorView>,
    relayed: Result<Seq<RelayOutputView>, ErrorView>,
)
    requires
        left_to_the_application(session),
    ensures
        left_to_the_application(session.run(now)),
        left_to_the_application(session.given(input)),
        left_to_the_application(session.with_token(token)),
        left_to_the_application(session.sent(ended, now, random)),
        left_to_the_application(session.reopened(ended)),
        left_to_the_application(session.relayed(relayed)),
    decreases session.weight(),
{
    if session.busy() {
        lemma_step_is_lighter(session, now);
        lemma_manual_step(session, now);
        law_manual_keep_alives_are_never_scheduled(
            session.step(now),
            now,
            input,
            token,
            random,
            ended,
            relayed,
        );
    }
}

/// A request to a mesh device goes out again with the same inner message, in
/// an encapsulation with another message ID.
pub proof fn law_a_proxied_retransmission_keeps_the_request(
    session: DriverView,
    message: CoapView,
    address: Seq<u8>,
    port: u16,
    first: AfterSendView,
    second: AfterSendView,
)
    requires
        session.transmit(message, DestinationView::Mesh { address, port }, first) is Ok,
    ensures
        ({
            let destination = DestinationView::Mesh { address, port };
            let once = session.transmit(message, destination, first)->Ok_0;
            let again = once.transmit(message, destination, second);
            &&& again is Ok
            &&& once.waiting matches WaitingView::WireToken { wire: one, .. }
                && again->Ok_0.waiting matches WaitingView::WireToken { wire: other, .. }
                && one.payload == udp_tx(address, port, message.encoding()).payload
                && other.payload == one.payload && other.message_id != one.message_id
        }),
{
}

/// Whether a session that goes idle has only failures to deliver before.
spec fn winding_down(session: DriverView) -> bool {
    &&& session.waiting is Idle
    &&& session.exchanges.in_flight.len() == 0
    &&& session.exchanges.queued.len() == 0
    &&& session.work.len() > 0
    &&& session.work[0] is GoIdle
    &&& forall|i: int| 0 < i < session.work.len() ==> is_quiet(#[trigger] session.work[i])
    &&& !session.closed()
    &&& !session.open
}

/// Whether nothing among the effects tells of a lost session.
pub open spec fn no_loss_published(effects: Seq<EffectView>) -> bool {
    forall|i: int| 0 <= i < effects.len() ==> !(#[trigger] effects[i] is Publish)
}

proof fn lemma_winding_down(session: DriverView, now: u128)
    requires
        winding_down(session),
        no_loss_published(session.effects),
    ensures
        session.run(now).status is Idle,
        session.run(now).work.len() == 0,
        session.run(now).waiting is Idle,
        !session.run(now).open,
        no_loss_published(session.run(now).effects),
    decreases session.weight(),
{
    lemma_step_is_lighter(session, now);
    let after = session.step(now);
    let work = session.work.last();
    let rest = session.work.drop_last();
    reveal(DriverView::send_queued);
    reveal(DriverView::complete);
    if session.work.len() == 1 {
        assert(work == session.work[0]);
        assert(after.work =~= Seq::<WorkView>::empty());
        assert(after.run(now) == after);
    } else {
        assert(work == session.work[session.work.len() - 1]);
        assert(is_quiet(work));
        assert(forall|i: int| 0 <= i < rest.len() ==> #[trigger] rest[i] == session.work[i]);
        assert(after.work[0] == session.work[0]);
        assert forall|i: int| 0 < i < after.work.len() implies is_quiet(
            #[trigger] after.work[i],
        ) by {
            if i < rest.len() {
                assert(after.work[i] == session.work[i]);
            }
        }
        lemma_winding_down(after, now);
    }
}

proof fn lemma_failures_are_quiet(completions: Seq<Completion>, error: ErrorView)
    requires
        forall|i: int|
            0 <= i < completions.len() ==> (#[trigger] completions[i] is Caller || completions[i] is Petition),
    ensures
        forall|i: int|
            0 <= i < failures(completions, error).len() ==> is_quiet(
                #[trigger] failures(completions, error)[i],
            ),
    decreases completions.len(),
{
    if completions.len() > 0 {
        let rest = completions.drop_first();
        assert forall|i: int| 0 <= i < rest.len() implies (#[trigger] rest[i] is Caller
            || rest[i] is Petition) by {
            assert(rest[i] == completions[i + 1]);
        }
        lemma_failures_are_quiet(rest, error);
        assert(completions[0] is Caller || completions[0] is Petition);
        let failing = failures(rest, error);
        assert forall|i: int| 0 <= i < failures(completions, error).len() implies is_quiet(
            #[trigger] failures(completions, error)[i],
        ) by {
            if i < failing.len() {
                assert(failures(completions, error)[i] == failing[i]);
            }
        }
    }
}

/// A border agent that closes a session without a petition does not end it:
/// what is outstanding fails, the session goes idle, and no loss is published.
/// The link is closed until a request needs it.
pub proof fn law_a_peer_close_without_a_petition_is_no_loss(session: DriverView, now: u128)
    requires
        consistent(session),
        session.waiting is Idle,
        session.work.len() == 0,
        session.effects.len() == 0,
        session.status is Connected || session.status is Petitioning,
        !session.handles_dropped,
    ensures
        ({
            let error = ErrorView::Dtls(crate::dtls::error::ErrorView::PeerClosed);
            let after = session.given(WorkView::ReceiveFailed(error)).run(now);
            &&& after.status is Idle
            &&& !after.open
            &&& after.work.len() == 0
            &&& no_loss_published(after.effects)
        }),
{
    let error = ErrorView::Dtls(crate::dtls::error::ErrorView::PeerClosed);
    let given = session.given(WorkView::ReceiveFailed(error));
    let after = given.step(now);
    let everyone = session.exchanges.everyone();
    let lost = ErrorView::SessionLost(CloseReasonView::PeerClosed);
    reveal(DriverView::receive_failed);
    lemma_step_is_lighter(given, now);
    assert(given.work.last() == WorkView::ReceiveFailed(error));
    assert(given.work.drop_last() =~= Seq::<WorkView>::empty());
    assert(after.work == seq![WorkView::GoIdle] + failures(everyone, lost));
    lemma_only_requests_and_petitions(session);
    lemma_failures_are_quiet(everyone, lost);
    assert forall|i: int| 0 < i < after.work.len() implies is_quiet(#[trigger] after.work[i]) by {
        assert(after.work[i] == failures(everyone, lost)[i - 1]);
    }
    lemma_winding_down(after, now);
}

/// Without a petition only requests and a petition are outstanding.
proof fn lemma_only_requests_and_petitions(session: DriverView)
    requires
        consistent(session),
        session.status is Connected || session.status is Petitioning,
    ensures
        ({
            let everyone = session.exchanges.everyone();
            forall|i: int|
                0 <= i < everyone.len() ==> (#[trigger] everyone[i] is Caller
                    || everyone[i] is Petition)
        }),
{
    let everyone = session.exchanges.everyone();
    assert(held(session, Tag::KeepAlive) == 0);
    assert(held(session, Tag::Resign) == 0);
    lemma_count_zero(everyone, Tag::KeepAlive);
    lemma_count_zero(everyone, Tag::Resign);
    assert forall|i: int| 0 <= i < everyone.len() implies (#[trigger] everyone[i] is Caller
        || everyone[i] is Petition) by {
        assert(tagged(everyone[i], Tag::KeepAlive) == 0);
        assert(tagged(everyone[i], Tag::Resign) == 0);
    }
}

/// The message that a received one carries, with where it came from: itself
/// from the border agent, or what the UDP proxy encapsulated for the
/// management port.
pub open spec fn carried(message: CoapView) -> Option<(CoapView, DestinationView)> {
    match udp_rx_in(message) {
        Err(_) => None,
        Ok(None) => Some((message, DestinationView::BorderAgent)),
        Ok(Some(udp_rx)) => if udp_rx.destination_port != DEFAULT_MM_PORT {
            None
        } else {
            match message_in(udp_rx.payload) {
                None => None,
                Some(inner) => Some(
                    (
                        inner,
                        DestinationView::Mesh {
                            address: udp_rx.source_address,
                            port: udp_rx.source_port,
                        },
                    ),
                ),
            }
        },
    }
}

/// Whether a session has nothing to do and waits for nothing.
pub open spec fn resting(session: DriverView) -> bool {
    session.waiting is Idle && session.work.len() == 0
}

pub(crate) proof fn lemma_delivery(
    session: DriverView,
    message: CoapView,
    inner: CoapView,
    origin: DestinationView,
    now: u128,
)
    requires
        resting(session),
        !session.closed(),
        carried(message) == Some((inner, origin)),
    ensures
        session.given(WorkView::Received(message)).run(now) == session.route(
            inner,
            origin,
            now,
        ).run(now),
{
    reveal(DriverView::received);
    let given = session.given(WorkView::Received(message));
    assert(given.work =~= seq![WorkView::Received(message)]);
    assert(given.work.drop_last() =~= session.work);
    assert(DriverView { work: given.work.drop_last(), ..given } == session);
    lemma_step_is_lighter(given, now);
}

pub(crate) proof fn lemma_no_acknowledgement(session: DriverView, message: CoapView, proxied: bool)
    requires
        message.ty == CoapType::Confirmable,
    ensures
        session.exchanges.acknowledged_by(message, proxied) is None,
{
    let matching = |p: PendingView| p.acknowledged_by(message, proxied);
    lemma_no_position(session.exchanges.in_flight, matching);
}

/// A copy of a confirmable message that was answered gets its reply again and
/// nothing else: no exchange is completed, nothing is published, and the
/// session rests where it did once the reply is sent. A device on the mesh
/// gets it in an encapsulation that takes a message ID.
pub proof fn law_a_copy_is_answered_again(
    session: DriverView,
    message: CoapView,
    inner: CoapView,
    origin: DestinationView,
    reply: CoapView,
    now: u128,
    sent_at: u128,
    random: u32,
)
    requires
        resting(session),
        !session.closed(),
        carried(message) == Some((inner, origin)),
        inner.ty == CoapType::Confirmable,
        reply_in(session.answered, origin, inner.message_id, now) == Some(reply),
    ensures
        ({
            let after = session.given(WorkView::Received(message)).run(now);
            let same = session.refreshed(now);
            match origin {
                DestinationView::BorderAgent => {
                    &&& after == same.wait(
                        WaitingView::Send { wire: reply, then: AfterSendView::Routed },
                    )
                    &&& after.sent(Ok(()), sent_at, random).run(sent_at) == same
                },
                DestinationView::Mesh { address, port } => if reply.fits()
                    && reply.encoding().len() <= 0xfffb {
                    after == same.identified().wait(
                        WaitingView::WireToken {
                            wire: CoapView {
                                message_id: same.identified().next_message_id,
                                ..udp_tx(address, port, reply.encoding())
                            },
                            then: AfterSendView::Routed,
                        },
                    )
                } else {
                    after == same
                },
            }
        }),
{
    lemma_delivery(session, message, inner, origin, now);
    lemma_no_acknowledgement(session, inner, origin is Mesh);
    let after = session.route(inner, origin, now);
    assert(after.run(now) == after);
    if origin is BorderAgent {
        let sent = after.sent(Ok(()), sent_at, random);
        assert(sent =~= session.refreshed(now));
        assert(sent.run(sent_at) == sent);
    }
}

/// When a session ends because the application resigned, every request that is
/// outstanding then fails because the session is closed, and no loss is told.
pub proof fn law_a_resigned_session_fails_its_requests(session: DriverView, now: u128, id: u64)
    requires
        consistent(session),
        !session.closed(),
        session.busy(),
        session.work.last() == WorkView::EndSession(CloseReasonView::Resigned),
        session.exchanges.everyone().contains(Completion::Caller { id }),
    ensures
        session.run(now).effects.contains(
            EffectView::Reply { id, reply: ReplyView::Exchange(Err(ErrorView::SessionClosed)) },
        ),
        session.step(now).work == session.work.drop_last() + failures(
            session.exchanges.everyone(),
            ErrorView::SessionClosed,
        ),
{
    let after = session.step(now);
    let error = ErrorView::SessionClosed;
    reveal(DriverView::end_session);
    lemma_step_is_lighter(session, now);
    law_a_step_is_consistent(session, now);
    lemma_failures_contain(session.exchanges.everyone(), error, Completion::Caller { id });
    let owed = WorkView::Complete { completion: Completion::Caller { id }, outcome: Err(error) };
    let failing = failures(session.exchanges.everyone(), error);
    let i = choose|i: int| 0 <= i < failing.len() && failing[i] == owed;
    let below = session.work.drop_last();
    assert(after.work == below + failing);
    assert(after.work[below.len() + i] == owed);
    lemma_told_run(after, now, id, Err(error));
}

} // verus!
