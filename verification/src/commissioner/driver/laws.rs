//! What holds of every commissioner session.

use vstd::prelude::*;

use crate::commissioner::coap::{message_in, CoapType, CoapView};
use crate::commissioner::driver::model::{failures, DriverView};
use crate::commissioner::driver::parts::{
    AfterReopenView, AfterSendView, CommandView, EffectView, OutcomeView, RelayOutputView,
    WaitingView, WorkView,
};
use crate::commissioner::error::ErrorView;
use crate::commissioner::exchange::{
    lemma_position_bounds, waiting_for, waiting_in, Completion, ExchangesView, OutboundView,
    PendingView,
};
use crate::commissioner::messages::{notification_in, udp_rx_in, NotificationView};
use crate::commissioner::types::{CloseReasonView, DestinationView, SessionStatusView};

verus! {

/// What is counted.
pub enum Tag {
    /// What owes a reply to whoever waits under the number.
    Request(u64),
    /// Application exchanges.
    Application,
    /// Petitions.
    Petition,
    /// Keep-alives.
    KeepAlive,
    /// Resignations.
    Resign,
}

/// Whether the exchange counts, as a number.
pub open spec fn tagged(completion: Completion, tag: Tag) -> nat {
    let counts = match tag {
        Tag::Request(id) => match completion {
            Completion::Caller { id: caller } => caller == id,
            Completion::Petition { id: caller } => caller == id,
            Completion::KeepAlive { asked } => asked == Some(id),
            Completion::Resign { asked } => asked == Some(id),
        },
        Tag::Application => completion is Caller,
        Tag::Petition => completion is Petition,
        Tag::KeepAlive => completion is KeepAlive,
        Tag::Resign => completion is Resign,
    };
    if counts {
        1
    } else {
        0
    }
}

/// How many of the exchanges count.
pub open spec fn count(completions: Seq<Completion>, tag: Tag) -> nat
    decreases completions.len(),
{
    if completions.len() == 0 {
        0
    } else {
        count(completions.drop_last(), tag) + tagged(completions.last(), tag)
    }
}

/// One where a command owes a reply to whoever waits under the number.
pub open spec fn owes(id: u64, tag: Tag) -> nat {
    if tag == Tag::Request(id) {
        1
    } else {
        0
    }
}

/// How much a piece of work counts.
pub open spec fn work_tag(work: WorkView, tag: Tag) -> nat {
    match work {
        WorkView::Command(CommandView::Exchange { id, .. }) => owes(id, tag),
        WorkView::Command(CommandView::Petition { id }) => owes(id, tag),
        WorkView::Command(CommandView::KeepAlive { id }) => owes(id, tag),
        WorkView::Command(CommandView::Resign { id }) => owes(id, tag),
        WorkView::Complete { completion, .. } => tagged(completion, tag),
        WorkView::Reply { id, .. } => owes(id, tag),
        _ => 0,
    }
}

/// How much work counts together.
pub open spec fn work_held(work: Seq<WorkView>, tag: Tag) -> nat
    decreases work.len(),
{
    if work.len() == 0 {
        0
    } else {
        work_held(work.drop_last(), tag) + work_tag(work.last(), tag)
    }
}

/// How much that counts which happens once a message was sent.
pub open spec fn then_held(then: AfterSendView, tag: Tag) -> nat {
    match then {
        AfterSendView::Track { completion, .. } => tagged(completion, tag),
        AfterSendView::Answer { completion, .. } => tagged(completion, tag),
        _ => 0,
    }
}

/// How much that counts which the session waits for.
pub open spec fn waiting_held(waiting: WaitingView, tag: Tag) -> nat {
    match waiting {
        WaitingView::RequestToken { completion, .. } => tagged(completion, tag),
        WaitingView::WireToken { then, .. } => then_held(then, tag),
        WaitingView::Send { then, .. } => then_held(then, tag),
        WaitingView::Reopen(AfterReopenView::Submit { id, .. }) => owes(id, tag),
        WaitingView::Reopen(AfterReopenView::Petition { id }) => owes(id, tag),
        _ => 0,
    }
}

/// How much in a session counts: exchanges in flight and queued, work, and
/// what the session waits for.
pub open spec fn held(session: DriverView, tag: Tag) -> nat {
    count(session.exchanges.everyone(), tag) + work_held(session.work, tag) + waiting_held(
        session.waiting,
        tag,
    )
}

/// One where the effect is a reply under the number.
pub open spec fn reply_tag(effect: EffectView, id: u64) -> nat {
    match effect {
        EffectView::Reply { id: replied, .. } => if replied == id {
            1
        } else {
            0
        },
        _ => 0,
    }
}

/// How many of the effects are replies under the number.
pub open spec fn replies(effects: Seq<EffectView>, id: u64) -> nat
    decreases effects.len(),
{
    if effects.len() == 0 {
        0
    } else {
        replies(effects.drop_last(), id) + reply_tag(effects.last(), id)
    }
}

/// Replies that a session owes or has given under the number and the outside
/// has not been told yet.
pub open spec fn accounted(session: DriverView, id: u64) -> nat {
    held(session, Tag::Request(id)) + replies(session.effects, id)
}

pub(crate) proof fn lemma_count_push(completions: Seq<Completion>, more: Completion, tag: Tag)
    ensures
        count(completions.push(more), tag) == count(completions, tag) + tagged(more, tag),
{
    assert(completions.push(more).drop_last() =~= completions);
}

pub(crate) proof fn lemma_count_add(a: Seq<Completion>, b: Seq<Completion>, tag: Tag)
    ensures
        count(a + b, tag) == count(a, tag) + count(b, tag),
    decreases b.len(),
{
    if b.len() == 0 {
        assert(a + b =~= a);
    } else {
        assert((a + b).drop_last() =~= a + b.drop_last());
        lemma_count_add(a, b.drop_last(), tag);
    }
}

pub(crate) proof fn lemma_count_remove(completions: Seq<Completion>, i: int, tag: Tag)
    requires
        0 <= i < completions.len(),
    ensures
        count(completions.remove(i), tag) + tagged(completions[i], tag) == count(
            completions,
            tag,
        ),
    decreases completions.len(),
{
    if i == completions.len() - 1 {
        assert(completions.remove(i) =~= completions.drop_last());
    } else {
        let shorter = completions.drop_last();
        lemma_count_remove(shorter, i, tag);
        assert(completions.remove(i).drop_last() =~= shorter.remove(i));
        assert(completions.remove(i).last() == completions.last());
    }
}

proof fn lemma_work_push(work: Seq<WorkView>, more: WorkView, tag: Tag)
    ensures
        work_held(work.push(more), tag) == work_held(work, tag) + work_tag(more, tag),
{
    assert(work.push(more).drop_last() =~= work);
}

/// Where nothing counts, no exchange does.
pub(crate) proof fn lemma_count_zero(completions: Seq<Completion>, tag: Tag)
    ensures
        count(completions, tag) == 0 <==> forall|i: int|
            0 <= i < completions.len() ==> tagged(#[trigger] completions[i], tag) == 0,
    decreases completions.len(),
{
    if completions.len() > 0 {
        let shorter = completions.drop_last();
        lemma_count_zero(shorter, tag);
        if count(completions, tag) == 0 {
            assert forall|i: int| 0 <= i < completions.len() implies tagged(
                #[trigger] completions[i],
                tag,
            ) == 0 by {
                if i < shorter.len() {
                    assert(shorter[i] == completions[i]);
                }
            }
        }
        if forall|i: int|
            0 <= i < completions.len() ==> tagged(#[trigger] completions[i], tag) == 0 {
            assert forall|i: int| 0 <= i < shorter.len() implies tagged(
                #[trigger] shorter[i],
                tag,
            ) == 0 by {
                assert(shorter[i] == completions[i]);
            }
            assert(tagged(completions[completions.len() - 1], tag) == 0);
        }
    }
}

pub(crate) proof fn lemma_work_failures(
    work: Seq<WorkView>,
    completions: Seq<Completion>,
    error: ErrorView,
    tag: Tag,
)
    ensures
        work_held(work + failures(completions, error), tag) == work_held(work, tag) + count(
            completions,
            tag,
        ),
    decreases completions.len(),
{
    if completions.len() == 0 {
        assert(work + failures(completions, error) =~= work);
    } else {
        let rest = failures(completions.drop_first(), error);
        let first = WorkView::Complete { completion: completions[0], outcome: Err(error) };
        lemma_work_failures(work, completions.drop_first(), error, tag);
        assert(work + failures(completions, error) =~= (work + rest).push(first));
        lemma_work_push(work + rest, first, tag);
        assert(completions =~= seq![completions[0]] + completions.drop_first());
        lemma_count_add(seq![completions[0]], completions.drop_first(), tag);
        assert(count(seq![completions[0]], tag) == tagged(completions[0], tag)) by {
            assert(seq![completions[0]] =~= Seq::<Completion>::empty().push(completions[0]));
            lemma_count_push(Seq::empty(), completions[0], tag);
        }
    }
}

pub(crate) proof fn lemma_work_given(work: Seq<WorkView>, more: WorkView, tag: Tag)
    ensures
        work_held(seq![more] + work, tag) == work_held(work, tag) + work_tag(more, tag),
    decreases work.len(),
{
    if work.len() == 0 {
        assert(seq![more] + work =~= Seq::<WorkView>::empty().push(more));
        lemma_work_push(Seq::empty(), more, tag);
    } else {
        assert((seq![more] + work).drop_last() =~= seq![more] + work.drop_last());
        lemma_work_given(work.drop_last(), more, tag);
    }
}

proof fn lemma_replies_push(effects: Seq<EffectView>, more: EffectView, id: u64)
    ensures
        replies(effects.push(more), id) == replies(effects, id) + reply_tag(more, id),
{
    assert(effects.push(more).drop_last() =~= effects);
}

/// How counts change with one more at the end.
pub(crate) proof fn lemma_counts()
    ensures
        forall|work: Seq<WorkView>, more: WorkView, tag: Tag| #[trigger]
            work_held(work.push(more), tag) == work_held(work, tag) + work_tag(more, tag),
        forall|effects: Seq<EffectView>, more: EffectView, id: u64| #[trigger]
            replies(effects.push(more), id) == replies(effects, id) + reply_tag(more, id),
{
    assert forall|work: Seq<WorkView>, more: WorkView, tag: Tag| #[trigger]
        work_held(work.push(more), tag) == work_held(work, tag) + work_tag(more, tag) by {
        lemma_work_push(work, more, tag);
    }
    assert forall|effects: Seq<EffectView>, more: EffectView, id: u64| #[trigger]
        replies(effects.push(more), id) == replies(effects, id) + reply_tag(more, id) by {
        lemma_replies_push(effects, more, id);
    }
}

/// An exchange that leaves.
pub(crate) proof fn lemma_everyone_remove(exchanges: ExchangesView, i: int, tag: Tag)
    requires
        0 <= i < exchanges.in_flight.len(),
    ensures
        count(
            (ExchangesView { in_flight: exchanges.in_flight.remove(i), ..exchanges }).everyone(),
            tag,
        ) + tagged(exchanges.in_flight[i].completion, tag) == count(exchanges.everyone(), tag),
{
    let less = ExchangesView { in_flight: exchanges.in_flight.remove(i), ..exchanges };
    assert(exchanges.everyone()[i] == exchanges.in_flight[i].completion);
    assert(less.everyone() =~= exchanges.everyone().remove(i));
    lemma_count_remove(exchanges.everyone(), i, tag);
}

/// A queued request that leaves.
pub(crate) proof fn lemma_everyone_unqueue(exchanges: ExchangesView, i: int, tag: Tag)
    requires
        0 <= i < exchanges.queued.len(),
    ensures
        count(
            (ExchangesView { queued: exchanges.queued.remove(i), ..exchanges }).everyone(),
            tag,
        ) + tagged(exchanges.queued[i].1, tag) == count(exchanges.everyone(), tag),
{
    let less = ExchangesView { queued: exchanges.queued.remove(i), ..exchanges };
    let k = exchanges.in_flight.len() + i;
    assert(exchanges.everyone()[k] == exchanges.queued[i].1);
    assert(less.everyone() =~= exchanges.everyone().remove(k));
    lemma_count_remove(exchanges.everyone(), k, tag);
}

/// A request that joins the queue.
pub(crate) proof fn lemma_everyone_queue(
    exchanges: ExchangesView,
    request: OutboundView,
    completion: Completion,
    tag: Tag,
)
    ensures
        count(
            (ExchangesView {
                queued: exchanges.queued.push((request, completion)),
                ..exchanges
            }).everyone(),
            tag,
        ) == count(exchanges.everyone(), tag) + tagged(completion, tag),
{
    let more = ExchangesView { queued: exchanges.queued.push((request, completion)), ..exchanges };
    assert(more.everyone() =~= exchanges.everyone().push(completion));
    lemma_count_push(exchanges.everyone(), completion, tag);
}

/// A request that was sent.
pub(crate) proof fn lemma_everyone_track(exchanges: ExchangesView, pending: PendingView, tag: Tag)
    ensures
        count(
            (ExchangesView { in_flight: exchanges.in_flight.push(pending), ..exchanges }).everyone(),
            tag,
        ) == count(exchanges.everyone(), tag) + tagged(pending.completion, tag),
{
    let more = ExchangesView { in_flight: exchanges.in_flight.push(pending), ..exchanges };
    assert(waiting_for(more.in_flight) =~= waiting_for(exchanges.in_flight).push(
        pending.completion,
    ));
    lemma_count_add(waiting_for(more.in_flight), waiting_in(exchanges.queued), tag);
    lemma_count_add(waiting_for(exchanges.in_flight), waiting_in(exchanges.queued), tag);
    lemma_count_push(waiting_for(exchanges.in_flight), pending.completion, tag);
}

/// What changes nothing about who waits.
pub(crate) proof fn lemma_everyone_same(exchanges: ExchangesView, changed: ExchangesView)
    requires
        changed.queued == exchanges.queued,
        changed.in_flight.len() == exchanges.in_flight.len(),
        forall|i: int|
            0 <= i < exchanges.in_flight.len() ==> (#[trigger] changed.in_flight[i]).completion
                == exchanges.in_flight[i].completion,
    ensures
        changed.everyone() == exchanges.everyone(),
{
    assert(changed.everyone() =~= exchanges.everyone());
}

/// Nobody waits.
pub(crate) proof fn lemma_everyone_gone(tag: Tag)
    ensures
        count(
            (ExchangesView { in_flight: Seq::empty(), queued: Seq::empty() }).everyone(),
            tag,
        ) == 0,
{
    let none = ExchangesView { in_flight: Seq::empty(), queued: Seq::empty() };
    assert(none.everyone() =~= Seq::<Completion>::empty());
}

proof fn lemma_answered_bounds(exchanges: ExchangesView, message: CoapView, proxied: bool)
    ensures
        exchanges.answered_by(message, proxied) matches Some(i) ==> 0 <= i
            < exchanges.in_flight.len(),
        exchanges.acknowledged_by(message, proxied) matches Some(i) ==> 0 <= i
            < exchanges.in_flight.len(),
{
    crate::commissioner::exchange::law_answers_stay_on_their_route(exchanges, message, proxied);
}

proof fn lemma_fail_all_accounted(session: DriverView, error: ErrorView, id: u64)
    requires
        session.waiting is Idle,
    ensures
        accounted(session.fail_all(error), id) == accounted(session, id),
{
    let tag = Tag::Request(id);
    lemma_everyone_gone(tag);
    lemma_work_failures(session.work, session.exchanges.everyone(), error, tag);
}

proof fn lemma_command_accounted(rest: DriverView, command: CommandView, id: u64)
    requires
        rest.waiting is Idle,
        command != (CommandView::Withdraw { id }),
    ensures
        accounted(rest.command(command), id) == accounted(rest, id) + work_tag(
            WorkView::Command(command),
            Tag::Request(id),
        ),
{
    reveal(DriverView::command);
    let tag = Tag::Request(id);
    lemma_counts();
    match command {
        CommandView::Exchange { id: caller, request } => {
            lemma_everyone_queue(
                rest.exchanges,
                request,
                Completion::Caller { id: caller },
                tag,
            );
        },
        CommandView::Withdraw { id: other } => {
            let exchanges = rest.exchanges;
            lemma_position_bounds(
                exchanges.queued,
                |q: (OutboundView, Completion)| q.1 == Completion::Caller { id: other },
            );
            lemma_position_bounds(
                exchanges.in_flight,
                |p: PendingView| p.completion == Completion::Caller { id: other },
            );
            if let Some(i) = exchanges.queue_position(other) {
                lemma_everyone_unqueue(exchanges, i, tag);
            } else if let Some(i) = exchanges.flight_position(other) {
                lemma_everyone_remove(exchanges, i, tag);
            }
        },
        _ => {},
    }
}

proof fn lemma_complete_accounted(
    rest: DriverView,
    completion: Completion,
    outcome: OutcomeView,
    now: u128,
    id: u64,
)
    requires
        rest.waiting is Idle,
    ensures
        accounted(rest.complete(completion, outcome, now), id) == accounted(rest, id) + tagged(
            completion,
            Tag::Request(id),
        ),
{
    reveal(DriverView::complete);
    lemma_counts();
}

proof fn lemma_route_failed_accounted(session: DriverView, error: ErrorView, id: u64)
    ensures
        accounted(session.route_failed(error), id) == accounted(session, id),
{
    lemma_counts();
}

proof fn lemma_give_up_accounted(session: DriverView, completion: Completion, id: u64)
    ensures
        accounted(session.give_up(completion), id) == accounted(session, id) + tagged(
            completion,
            Tag::Request(id),
        ),
{
    lemma_counts();
}

proof fn lemma_transmit_accounted(
    session: DriverView,
    message: CoapView,
    destination: DestinationView,
    then: AfterSendView,
    id: u64,
)
    requires
        session.waiting is Idle,
    ensures
        session.transmit(message, destination, then) matches Ok(after) ==> accounted(after, id)
            == accounted(session, id) + then_held(then, Tag::Request(id)),
{
}

proof fn lemma_answer_notification_accounted(
    rest: DriverView,
    message: CoapView,
    origin: DestinationView,
    reply: CoapView,
    now: u128,
    id: u64,
)
    requires
        rest.waiting is Idle,
    ensures
        accounted(rest.answer_notification(message, origin, reply, now), id) == accounted(rest, id),
{
    let kept = rest.remembering(origin, message.message_id, reply, now);
    lemma_transmit_accounted(kept, reply, origin, AfterSendView::Routed, id);
    if let Err(error) = kept.transmit(reply, origin, AfterSendView::Routed) {
        lemma_route_failed_accounted(kept, error, id);
    }
}

proof fn lemma_complete_answered_accounted(
    rest: DriverView,
    completion: Completion,
    response: CoapView,
    origin: DestinationView,
    now: u128,
    id: u64,
)
    requires
        rest.waiting is Idle,
    ensures
        accounted(rest.complete_answered(completion, response, origin, now), id) == accounted(
            rest,
            id,
        ) + tagged(completion, Tag::Request(id)),
{
    lemma_counts();
    let ack = CoapView::empty(CoapType::Acknowledgement, response.message_id);
    let then = AfterSendView::Answer { completion, response };
    let kept = rest.remembering(origin, response.message_id, ack, now);
    lemma_transmit_accounted(kept, ack, origin, then, id);
    if let Err(error) = kept.transmit(ack, origin, then) {
        lemma_give_up_accounted(kept, completion, id);
        lemma_route_failed_accounted(kept.give_up(completion), error, id);
    }
}

proof fn lemma_notification_accounted(
    rest: DriverView,
    notification: NotificationView,
    message: CoapView,
    origin: DestinationView,
    now: u128,
    id: u64,
)
    requires
        rest.waiting is Idle,
    ensures
        accounted(rest.route_notification(notification, message, origin, now), id) == accounted(
            rest,
            id,
        ),
{
    lemma_counts();
    let ack = CoapView::empty(CoapType::Acknowledgement, message.message_id);
    match origin {
        DestinationView::BorderAgent => {
            let told = rest.report(notification, None);
            lemma_answer_notification_accounted(told, message, origin, ack, now, id);
        },
        DestinationView::Mesh { address, .. } => {
            let told = rest.report(notification, Some(address));
            let changed = message.changed_response();
            lemma_answer_notification_accounted(told, message, origin, changed, now, id);
        },
    }
}

proof fn lemma_fresh_accounted(
    rest: DriverView,
    message: CoapView,
    origin: DestinationView,
    now: u128,
    id: u64,
)
    requires
        rest.waiting is Idle,
    ensures
        accounted(rest.route_fresh(message, origin, now), id) == accounted(rest, id),
{
    lemma_answered_bounds(rest.exchanges, message, origin is Mesh);
    match rest.exchanges.answered_by(message, origin is Mesh) {
        Some(i) => {
            let left = DriverView {
                exchanges: ExchangesView {
                    in_flight: rest.exchanges.in_flight.remove(i),
                    ..rest.exchanges
                },
                ..rest
            };
            lemma_everyone_remove(rest.exchanges, i, Tag::Request(id));
            lemma_complete_answered_accounted(
                left,
                rest.exchanges.in_flight[i].completion,
                message,
                origin,
                now,
                id,
            );
        },
        None => {
            if let Ok(Some(notification)) = notification_in(message) {
                lemma_notification_accounted(rest, notification, message, origin, now, id);
            }
        },
    }
}

proof fn lemma_route_accounted(
    rest: DriverView,
    message: CoapView,
    origin: DestinationView,
    now: u128,
    id: u64,
)
    requires
        rest.waiting is Idle,
    ensures
        accounted(rest.route(message, origin, now), id) == accounted(rest, id),
{
    lemma_answered_bounds(rest.exchanges, message, origin is Mesh);
    if let Some(i) = rest.exchanges.acknowledged_by(message, origin is Mesh) {
        lemma_everyone_same(rest.exchanges, rest.exchanges.silenced(i));
    }
    let recent = rest.refreshed(now);
    lemma_fresh_accounted(rest, message, origin, now, id);
    lemma_fresh_accounted(recent, message, origin, now, id);
    if let Some(reply) = crate::commissioner::duplicates::reply_in(
        rest.answered,
        origin,
        message.message_id,
        now,
    ) {
        lemma_transmit_accounted(recent, reply, origin, AfterSendView::Routed, id);
        if let Err(error) = recent.transmit(reply, origin, AfterSendView::Routed) {
            lemma_route_failed_accounted(recent, error, id);
        }
    }
}

proof fn lemma_received_accounted(rest: DriverView, message: CoapView, now: u128, id: u64)
    requires
        rest.waiting is Idle,
    ensures
        accounted(rest.received(message, now), id) == accounted(rest, id),
{
    reveal(DriverView::received);
    match udp_rx_in(message) {
        Ok(None) => {
            lemma_route_accounted(rest, message, DestinationView::BorderAgent, now, id);
        },
        Ok(Some(udp_rx)) => {
            if let Some(inner) = message_in(udp_rx.payload) {
                let origin = DestinationView::Mesh {
                    address: udp_rx.source_address,
                    port: udp_rx.source_port,
                };
                lemma_route_accounted(rest, inner, origin, now, id);
            }
        },
        _ => {},
    }
}

pub(crate) proof fn lemma_retransmitted_same(exchanges: ExchangesView, index: usize, at: u128)
    ensures
        exchanges.retransmitted(index as int, at).everyone() == exchanges.everyone(),
{
    lemma_everyone_same(exchanges, exchanges.retransmitted(index as int, at));
}

proof fn lemma_timers_accounted(rest: DriverView, index: usize, at: u128, id: u64)
    requires
        rest.waiting is Idle,
    ensures
        accounted(rest.exchange_timers(index, at), id) == accounted(rest, id),
{
    reveal(DriverView::exchange_timers);
    lemma_counts();
    if index < rest.exchanges.in_flight.len() {
        let pending = rest.exchanges.in_flight[index as int];
        lemma_everyone_remove(rest.exchanges, index as int, Tag::Request(id));
        lemma_retransmitted_same(rest.exchanges, index, at);
        lemma_transmit_accounted(
            rest,
            pending.request,
            pending.destination,
            AfterSendView::Retransmit { index, at },
            id,
        );
    }
}

proof fn lemma_perform_accounted(rest: DriverView, work: WorkView, now: u128, id: u64)
    requires
        rest.waiting is Idle,
        work != WorkView::Command(CommandView::Withdraw { id }),
    ensures
        accounted(rest.perform(work, now), id) == accounted(rest, id) + work_tag(
            work,
            Tag::Request(id),
        ),
{
    let tag = Tag::Request(id);
    match work {
        WorkView::Command(command) => {
            lemma_command_accounted(rest, command, id);
        },
        WorkView::HandlesDropped => {
            reveal(DriverView::drop_handles);
            lemma_counts();
        },
        WorkView::Received(message) => {
            lemma_received_accounted(rest, message, now, id);
        },
        WorkView::ReceiveFailed(error) => {
            reveal(DriverView::receive_failed);
            lemma_counts();
            let closing = DriverView { open: false, ..rest }.effect(EffectView::CloseLink).push(
                WorkView::GoIdle,
            );
            lemma_fail_all_accounted(
                closing,
                ErrorView::SessionLost(CloseReasonView::PeerClosed),
                id,
            );
        },
        WorkView::Complete { completion, outcome } => {
            lemma_complete_accounted(rest, completion, outcome, now, id);
        },
        WorkView::EndSession(reason) => {
            reveal(DriverView::end_session);
            lemma_counts();
            let closed = DriverView {
                keep_alive_at: None,
                open: false,
                ..rest.set_status(SessionStatusView::Closed { reason })
            }.effect(EffectView::ClearJoiners).effect(EffectView::CloseLink);
            let lost = WorkView::Publish(
                crate::commissioner::types::EventView::SessionLost { reason },
            );
            lemma_fail_all_accounted(closed, ErrorView::SessionClosed, id);
            lemma_fail_all_accounted(closed.push(lost), ErrorView::SessionLost(reason), id);
        },
        WorkView::SendQueued => {
            reveal(DriverView::send_queued);
            lemma_counts();
            if rest.exchanges.queued.len() > 0 {
                lemma_everyone_unqueue(rest.exchanges, 0, tag);
                assert(rest.exchanges.queued.remove(0) =~= rest.exchanges.queued.drop_first());
            }
        },
        WorkView::ExchangeTimers { index, at } => {
            lemma_timers_accounted(rest, index, at, id);
        },
        WorkView::KeepAliveCheck => {
            reveal(DriverView::keep_alive_check);
            lemma_counts();
        },
        WorkView::RelayOutputs { outputs, message } => {
            reveal(DriverView::relay_outputs);
            lemma_counts();
            lemma_answer_notification_accounted(
                rest,
                message,
                DestinationView::BorderAgent,
                CoapView::empty(CoapType::Acknowledgement, message.message_id),
                now,
                id,
            );
        },
        _ => {
            lemma_counts();
        },
    }
}

/// Whether the work holds no withdrawal of the request.
pub open spec fn not_withdrawn(work: Seq<WorkView>, id: u64) -> bool {
    forall|i: int|
        0 <= i < work.len() ==> #[trigger] work[i] != WorkView::Command(
            CommandView::Withdraw { id },
        )
}

/// A step answers a request or keeps owing the answer, never both and never
/// neither, unless the request is withdrawn.
pub proof fn law_a_step_answers_or_owes(session: DriverView, now: u128, id: u64)
    requires
        session.busy(),
        session.work.last() != WorkView::Command(CommandView::Withdraw { id }),
    ensures
        accounted(session.step(now), id) == accounted(session, id),
{
    let rest = DriverView { work: session.work.drop_last(), ..session };
    lemma_perform_accounted(rest, session.work.last(), now, id);
}

/// Whether work comes from outside rather than from other work.
pub open spec fn is_input(work: WorkView) -> bool {
    work is Command || work is HandlesDropped || work is Received || work is ReceiveFailed
        || work is Timer
}

/// Whether the work is what `before` was, with more on top that does not come
/// from outside.
pub open spec fn grown(before: Seq<WorkView>, work: Seq<WorkView>) -> bool {
    &&& before.len() <= work.len()
    &&& before == work.take(before.len() as int)
    &&& forall|i: int| before.len() <= i < work.len() ==> !is_input(#[trigger] work[i])
}

proof fn lemma_grown_push(before: Seq<WorkView>, work: Seq<WorkView>, more: WorkView)
    requires
        grown(before, work),
        !is_input(more),
    ensures
        grown(before, work.push(more)),
{
    assert(work.push(more).take(before.len() as int) =~= work.take(before.len() as int));
}

proof fn lemma_grown()
    ensures
        forall|before: Seq<WorkView>| #[trigger] grown(before, before),
        forall|before: Seq<WorkView>, work: Seq<WorkView>, more: WorkView|
            grown(before, work) && !is_input(more) ==> #[trigger] grown(before, work.push(more)),
{
    assert forall|before: Seq<WorkView>| #[trigger] grown(before, before) by {
        assert(before.take(before.len() as int) =~= before);
    }
    assert forall|before: Seq<WorkView>, work: Seq<WorkView>, more: WorkView|
        grown(before, work) && !is_input(more) implies #[trigger] grown(
        before,
        work.push(more),
    ) by {
        lemma_grown_push(before, work, more);
    }
}

pub(crate) proof fn lemma_failures(completions: Seq<Completion>, error: ErrorView)
    ensures
        failures(completions, error).len() == completions.len(),
        forall|i: int|
            0 <= i < failures(completions, error).len() ==> #[trigger] failures(
                completions,
                error,
            )[i] == (WorkView::Complete {
                completion: completions[completions.len() - 1 - i],
                outcome: Err(error),
            }),
    decreases completions.len(),
{
    if completions.len() > 0 {
        lemma_failures(completions.drop_first(), error);
    }
}

proof fn lemma_grown_failures(
    before: Seq<WorkView>,
    work: Seq<WorkView>,
    completions: Seq<Completion>,
    error: ErrorView,
)
    requires
        grown(before, work),
    ensures
        grown(before, work + failures(completions, error)),
{
    lemma_failures(completions, error);
    let all = work + failures(completions, error);
    assert(all.take(before.len() as int) =~= work.take(before.len() as int));
    assert forall|i: int| before.len() <= i < all.len() implies !is_input(#[trigger] all[i]) by {
        if i < work.len() {
            assert(all[i] == work[i]);
        } else {
            assert(all[i] == failures(completions, error)[i - work.len()]);
        }
    }
}

proof fn lemma_route_grown(
    rest: DriverView,
    message: CoapView,
    origin: DestinationView,
    now: u128,
)
    ensures
        grown(rest.work, rest.route(message, origin, now).work),
{
    lemma_grown();
}

/// No work makes work that comes from outside.
proof fn lemma_perform_grown(rest: DriverView, work: WorkView, now: u128)
    ensures
        grown(rest.work, rest.perform(work, now).work),
{
    lemma_grown();
    match work {
        WorkView::Command(command) => {
            reveal(DriverView::command);
        },
        WorkView::HandlesDropped => {
            reveal(DriverView::drop_handles);
        },
        WorkView::Received(message) => {
            reveal(DriverView::received);
            if let Ok(Some(udp_rx)) = udp_rx_in(message) {
                if let Some(inner) = message_in(udp_rx.payload) {
                    let origin = DestinationView::Mesh {
                        address: udp_rx.source_address,
                        port: udp_rx.source_port,
                    };
                    lemma_route_grown(rest, inner, origin, now);
                }
            }
            lemma_route_grown(rest, message, DestinationView::BorderAgent, now);
        },
        WorkView::ReceiveFailed(error) => {
            reveal(DriverView::receive_failed);
            lemma_grown_failures(
                rest.work,
                rest.work.push(WorkView::GoIdle),
                rest.exchanges.everyone(),
                ErrorView::SessionLost(CloseReasonView::PeerClosed),
            );
        },
        WorkView::Complete { completion, outcome } => {
            reveal(DriverView::complete);
        },
        WorkView::EndSession(reason) => {
            reveal(DriverView::end_session);
            let lost = WorkView::Publish(
                crate::commissioner::types::EventView::SessionLost { reason },
            );
            lemma_grown_failures(
                rest.work,
                rest.work,
                rest.exchanges.everyone(),
                ErrorView::SessionClosed,
            );
            lemma_grown_failures(
                rest.work,
                rest.work.push(lost),
                rest.exchanges.everyone(),
                ErrorView::SessionLost(reason),
            );
        },
        WorkView::SendQueued => {
            reveal(DriverView::send_queued);
        },
        WorkView::ExchangeTimers { index, at } => {
            reveal(DriverView::exchange_timers);
        },
        WorkView::KeepAliveCheck => {
            reveal(DriverView::keep_alive_check);
        },
        WorkView::RelayOutputs { outputs, message } => {
            reveal(DriverView::relay_outputs);
        },
        _ => {},
    }
}

proof fn lemma_step_not_withdrawn(session: DriverView, now: u128, id: u64)
    requires
        session.busy(),
        not_withdrawn(session.work, id),
    ensures
        not_withdrawn(session.step(now).work, id),
{
    let rest = DriverView { work: session.work.drop_last(), ..session };
    lemma_perform_grown(rest, session.work.last(), now);
    let work = session.step(now).work;
    assert forall|i: int| 0 <= i < work.len() implies #[trigger] work[i] != WorkView::Command(
        CommandView::Withdraw { id },
    ) by {
        if i < rest.work.len() {
            assert(work[i] == work.take(rest.work.len() as int)[i]);
            assert(work[i] == session.work[i]);
        } else {
            assert(!is_input(work[i]));
        }
    }
}

/// Everything that a session does answers a request or keeps owing the
/// answer, never both and never neither, unless the request is withdrawn.
pub proof fn law_a_session_answers_or_owes(session: DriverView, now: u128, id: u64)
    requires
        not_withdrawn(session.work, id),
    ensures
        accounted(session.run(now), id) == accounted(session, id),
    decreases session.weight(),
{
    if session.busy() {
        crate::commissioner::driver::model::lemma_step_is_lighter(session, now);
        law_a_step_answers_or_owes(session, now, id);
        lemma_step_not_withdrawn(session, now, id);
        law_a_session_answers_or_owes(session.step(now), now, id);
    }
}

/// A command adds the reply that it asks for to what the session owes; other
/// input adds none.
pub proof fn law_input_owes_its_reply(session: DriverView, work: WorkView, id: u64)
    ensures
        accounted(session.given(work), id) == accounted(session, id) + work_tag(
            work,
            Tag::Request(id),
        ),
{
    lemma_work_given(session.work, work, Tag::Request(id));
}

/// How an action of the caller ends changes nothing about the replies that are
/// owed or given.
pub proof fn law_reports_keep_the_account(
    session: DriverView,
    token: Seq<u8>,
    sent: Result<(), ErrorView>,
    reopened: Result<(), ErrorView>,
    relayed: Result<Seq<RelayOutputView>, ErrorView>,
    now: u128,
    random: u32,
    id: u64,
)
    ensures
        accounted(session.with_token(token), id) == accounted(session, id),
        accounted(session.sent(sent, now, random), id) == accounted(session, id),
        accounted(session.reopened(reopened), id) == accounted(session, id),
        accounted(session.relayed(relayed), id) == accounted(session, id),
{
    lemma_token_accounted(session, token, id);
    lemma_sent_accounted(session, sent, now, random, id);
    lemma_reopened_accounted(session, reopened, id);
    lemma_counts();
}

proof fn lemma_token_accounted(session: DriverView, token: Seq<u8>, id: u64)
    ensures
        accounted(session.with_token(token), id) == accounted(session, id),
{
    lemma_counts();
}

proof fn lemma_sent_accounted(
    session: DriverView,
    result: Result<(), ErrorView>,
    now: u128,
    random: u32,
    id: u64,
)
    ensures
        accounted(session.sent(result, now, random), id) == accounted(session, id),
{
    lemma_counts();
    if let WaitingView::Send { then, .. } = session.waiting {
        match then {
            AfterSendView::Track { request, completion } => {
                lemma_everyone_track(
                    session.exchanges,
                    PendingView::sent(request, completion, now, random),
                    Tag::Request(id),
                );
            },
            AfterSendView::Retransmit { index, at } => {
                lemma_retransmitted_same(session.exchanges, index, at);
            },
            _ => {},
        }
    }
}

proof fn lemma_reopened_accounted(
    session: DriverView,
    result: Result<(), ErrorView>,
    id: u64,
)
    ensures
        accounted(session.reopened(result), id) == accounted(session, id),
{
    lemma_counts();
    if let WaitingView::Reopen(AfterReopenView::Submit { id: caller, request }) = session.waiting {
        lemma_everyone_queue(
            session.exchanges,
            request,
            Completion::Caller { id: caller },
            Tag::Request(id),
        );
    }
}

} // verus!
