//! What a session keeps of answered messages over everything that happens to
//! it.

use vstd::prelude::*;

use crate::commissioner::coap::{CoapType, CoapView};
use crate::commissioner::driver::laws::is_input;
use crate::commissioner::driver::model::{failures, lemma_step_is_lighter, DriverView};
use crate::commissioner::driver::parts::{
    AfterSendView, OutcomeView, RelayOutputView, WaitingView, WorkView,
};
use crate::commissioner::driver::promises::{
    carried, law_a_copy_is_answered_again, lemma_delivery, lemma_no_acknowledgement, resting,
};
use crate::commissioner::duplicates::{
    lemma_entry_outlasts_an_answer, lemma_entry_outlasts_expiry, lemma_first_answer,
    lemma_mesh_is_orderly, lemma_remembered_is_orderly, lemma_unexpired_is_orderly, orderly,
    remembered, remembered_before, reply_in, unexpired, AnsweredView, EXCHANGE_LIFETIME,
};
use crate::commissioner::error::ErrorView;
use crate::commissioner::exchange::{lemma_position_bounds, Completion, PendingView};
use crate::commissioner::types::DestinationView;

verus! {

/// What can happen to a session: the calls that its owner makes.
pub enum DriverCall {
    /// A command, a message, a failure to receive, a timer, or the last handle
    /// dropped.
    Give(WorkView),
    /// The session is asked what to do next.
    Next(u128),
    /// A token is drawn.
    Token(Seq<u8>),
    /// A message was sent, or was not.
    Sent { result: Result<(), ErrorView>, now: u128, random: u32 },
    /// The link was opened again, or was not.
    Reopened(Result<(), ErrorView>),
    /// A relayed payload was served.
    Relayed(Result<Seq<RelayOutputView>, ErrorView>),
    /// The effects are taken.
    TakeEffects,
}

/// The session after a call.
pub open spec fn after_call(session: DriverView, call: DriverCall) -> DriverView {
    match call {
        DriverCall::Give(work) => session.given(work),
        DriverCall::Next(now) => session.run(now),
        DriverCall::Token(token) => session.with_token(token),
        DriverCall::Sent { result, now, random } => session.sent(result, now, random),
        DriverCall::Reopened(result) => session.reopened(result),
        DriverCall::Relayed(result) => session.relayed(result),
        DriverCall::TakeEffects => DriverView { effects: Seq::empty(), ..session },
    }
}

/// The session after calls, the first of them first.
pub open spec fn after_calls(session: DriverView, calls: Seq<DriverCall>) -> DriverView
    decreases calls.len(),
{
    if calls.len() == 0 {
        session
    } else {
        after_call(after_calls(session, calls.drop_last()), calls.last())
    }
}

/// The time after a call, where it was `now` before.
pub open spec fn clock_after(now: u128, call: DriverCall) -> u128 {
    match call {
        DriverCall::Next(at) => at,
        _ => now,
    }
}

/// The time after calls, where it was `now` before them.
pub open spec fn clock(now: u128, calls: Seq<DriverCall>) -> u128
    decreases calls.len(),
{
    if calls.len() == 0 {
        now
    } else {
        clock_after(clock(now, calls.drop_last()), calls.last())
    }
}

/// Whether calls are in order of time from `now` on, and what is given comes
/// from outside.
pub open spec fn in_order(now: u128, calls: Seq<DriverCall>) -> bool
    decreases calls.len(),
{
    calls.len() > 0 ==> {
        &&& in_order(now, calls.drop_last())
        &&& clock(now, calls.drop_last()) <= clock_after(
            clock(now, calls.drop_last()),
            calls.last(),
        )
        &&& calls.last() matches DriverCall::Give(work) ==> is_input(work)
    }
}

/// Whether calls leave the association with the border agent as it is.
pub open spec fn without_reopening(calls: Seq<DriverCall>) -> bool {
    forall|i: int|
        0 <= i < calls.len() ==> !(#[trigger] calls[i] matches DriverCall::Reopened(result)
            && result is Ok)
}

/// How many messages calls bring.
pub open spec fn messages_given(calls: Seq<DriverCall>) -> nat
    decreases calls.len(),
{
    if calls.len() == 0 {
        0
    } else {
        messages_given(calls.drop_last()) + match calls.last() {
            DriverCall::Give(WorkView::Received(_)) => 1nat,
            _ => 0,
        }
    }
}

/// Whether work holds a message that may still be answered.
spec fn weight(work: WorkView) -> nat {
    if work is Received || work is RelayOutputs {
        1
    } else {
        0
    }
}

spec fn weights(work: Seq<WorkView>) -> nat
    decreases work.len(),
{
    if work.len() == 0 {
        0
    } else {
        weights(work.drop_last()) + weight(work.last())
    }
}

spec fn waiting_weight(waiting: WaitingView) -> nat {
    match waiting {
        WaitingView::Relay { .. } => 1,
        WaitingView::Send { then, .. } => if then is Relay {
            1
        } else {
            0
        },
        WaitingView::WireToken { then, .. } => if then is Relay {
            1
        } else {
            0
        },
        _ => 0,
    }
}

/// How many messages a session has in hand that may still be answered.
spec fn in_hand(session: DriverView) -> nat {
    weights(session.work) + waiting_weight(session.waiting)
}

/// Whether a relayed message is not the one with the ID.
spec fn apart(message: CoapView, message_id: u16) -> bool {
    message.ty == CoapType::Confirmable ==> message.message_id != message_id
}

spec fn work_apart(work: WorkView, message_id: u16) -> bool {
    work matches WorkView::RelayOutputs { message, .. } ==> apart(message, message_id)
}

spec fn then_apart(then: AfterSendView, message_id: u16) -> bool {
    then matches AfterSendView::Relay { message, .. } ==> apart(message, message_id)
}

spec fn waiting_apart(waiting: WaitingView, message_id: u16) -> bool {
    match waiting {
        WaitingView::Relay { message, .. } => apart(message, message_id),
        WaitingView::Send { then, .. } => then_apart(then, message_id),
        WaitingView::WireToken { then, .. } => then_apart(then, message_id),
        _ => true,
    }
}

spec fn all_apart(work: Seq<WorkView>, message_id: u16) -> bool {
    forall|i: int| 0 <= i < work.len() ==> work_apart(#[trigger] work[i], message_id)
}

/// Whether a session remembers that it answered, and will still with `budget`
/// messages answered behind that.
spec fn keeps(session: DriverView, entry: AnsweredView, now: u128, budget: int) -> bool {
    &&& orderly(session.answered, now)
    &&& all_apart(session.work, entry.message_id)
    &&& waiting_apart(session.waiting, entry.message_id)
    &&& exists|behind: nat| #[trigger]
        remembered_before(session.answered, entry, behind) && behind + in_hand(session) <= budget
}

/// Whether `after` has no more messages in hand than `session`, and the same
/// memory.
spec fn no_more(session: DriverView, after: DriverView, message_id: u16) -> bool {
    &&& after.answered == session.answered
    &&& in_hand(after) <= in_hand(session)
    &&& all_apart(session.work, message_id) && waiting_apart(session.waiting, message_id)
        ==> all_apart(after.work, message_id) && waiting_apart(after.waiting, message_id)
}

proof fn lemma_no_more_keeps(
    session: DriverView,
    after: DriverView,
    entry: AnsweredView,
    now: u128,
    budget: int,
)
    requires
        keeps(session, entry, now, budget),
        no_more(session, after, entry.message_id),
    ensures
        keeps(after, entry, now, budget),
{
    let behind = choose|behind: nat| #[trigger]
        remembered_before(session.answered, entry, behind) && behind + in_hand(session) <= budget;
    assert(remembered_before(after.answered, entry, behind));
}

proof fn lemma_weights_push(work: Seq<WorkView>, more: WorkView)
    ensures
        weights(work.push(more)) == weights(work) + weight(more),
{
    assert(work.push(more).drop_last() =~= work);
}

/// Up to two pieces of work on top add their weights.
proof fn lemma_weights_grown(work: Seq<WorkView>, grown: Seq<WorkView>)
    ensures
        work.len() == grown.len() && work.is_prefix_of(grown) ==> weights(grown) == weights(work),
        grown.len() == work.len() + 1 && work.is_prefix_of(grown) ==> weights(grown) == weights(
            work,
        ) + weight(grown.last()),
        grown.len() == work.len() + 2 && work.is_prefix_of(grown) ==> weights(grown) == weights(
            work,
        ) + weight(grown[grown.len() - 2]) + weight(grown.last()),
{
    if work.is_prefix_of(grown) {
        if grown.len() == work.len() {
            assert(grown =~= work);
        } else if grown.len() == work.len() + 1 {
            assert(grown.drop_last() =~= work);
        } else if grown.len() == work.len() + 2 {
            let shorter = grown.drop_last();
            assert(shorter.drop_last() =~= work);
            assert(weights(shorter) == weights(work) + weight(shorter.last()));
        }
    }
}

proof fn lemma_weights_given(first: WorkView, work: Seq<WorkView>)
    ensures
        weights(seq![first] + work) == weights(work) + weight(first),
    decreases work.len(),
{
    let all = seq![first] + work;
    if work.len() == 0 {
        assert(all.drop_last() =~= Seq::<WorkView>::empty());
        assert(weights(Seq::<WorkView>::empty()) == 0);
    } else {
        assert(all.drop_last() =~= seq![first] + work.drop_last());
        lemma_weights_given(first, work.drop_last());
    }
}

proof fn lemma_weights_failures(
    work: Seq<WorkView>,
    completions: Seq<Completion>,
    error: ErrorView,
    message_id: u16,
)
    ensures
        weights(work + failures(completions, error)) == weights(work),
        all_apart(work, message_id) ==> all_apart(
            work + failures(completions, error),
            message_id,
        ),
    decreases completions.len(),
{
    if completions.len() == 0 {
        assert(work + failures(completions, error) =~= work);
    } else {
        let rest = failures(completions.drop_first(), error);
        let first = WorkView::Complete { completion: completions[0], outcome: Err(error) };
        lemma_weights_failures(work, completions.drop_first(), error, message_id);
        assert(work + failures(completions, error) =~= (work + rest).push(first));
        lemma_weights_push(work + rest, first);
    }
}

proof fn lemma_complete(
    rest: DriverView,
    completion: Completion,
    outcome: OutcomeView,
    now: u128,
    message_id: u16,
)
    requires
        rest.waiting is Idle,
    ensures
        no_more(rest, rest.complete(completion, outcome, now), message_id),
{
    reveal(DriverView::complete);
    let after = rest.complete(completion, outcome, now);
    lemma_weights_grown(rest.work, after.work);
}

proof fn lemma_closing(rest: DriverView, work: WorkView, message_id: u16)
    requires
        rest.waiting is Idle,
        work is EndSession || work is ReceiveFailed,
    ensures
        no_more(rest, rest.perform(work, 0), message_id),
{
    reveal(DriverView::end_session);
    reveal(DriverView::receive_failed);
    let everyone = rest.exchanges.everyone();
    match work {
        WorkView::EndSession(reason) => {
            let lost = WorkView::Publish(
                crate::commissioner::types::EventView::SessionLost { reason },
            );
            lemma_weights_push(rest.work, lost);
            lemma_weights_failures(rest.work, everyone, ErrorView::SessionClosed, message_id);
            lemma_weights_failures(
                rest.work.push(lost),
                everyone,
                ErrorView::SessionLost(reason),
                message_id,
            );
        },
        WorkView::ReceiveFailed(error) => {
            let after = rest.receive_failed(error);
            lemma_weights_push(rest.work, WorkView::GoIdle);
            lemma_weights_failures(
                rest.work.push(WorkView::GoIdle),
                everyone,
                ErrorView::SessionLost(
                    crate::commissioner::types::CloseReasonView::PeerClosed,
                ),
                message_id,
            );
            lemma_weights_push(
                rest.work,
                WorkView::EndSession(crate::commissioner::types::CloseReasonView::PeerClosed),
            );
            lemma_weights_push(
                rest.work,
                WorkView::EndSession(
                    crate::commissioner::driver::model::transport_reason(error),
                ),
            );
        },
        _ => {},
    }
}

/// Work without a message leaves the memory as it is, and brings none.
proof fn lemma_other_work(rest: DriverView, work: WorkView, now: u128, message_id: u16)
    requires
        rest.waiting is Idle,
        !(work is Received),
        !(work is RelayOutputs),
    ensures
        no_more(rest, rest.perform(work, now), message_id),
{
    let after = rest.perform(work, now);
    match work {
        WorkView::Complete { completion, outcome } => {
            lemma_complete(rest, completion, outcome, now, message_id);
        },
        WorkView::EndSession(_) => {
            lemma_closing(rest, work, message_id);
        },
        WorkView::ReceiveFailed(_) => {
            lemma_closing(rest, work, message_id);
        },
        _ => {
            reveal(DriverView::command);
            reveal(DriverView::drop_handles);
            reveal(DriverView::send_queued);
            reveal(DriverView::exchange_timers);
            reveal(DriverView::keep_alive_check);
            lemma_weights_grown(rest.work, after.work);
        },
    }
}

/// A fresh answer to another message moves the memory by one.
proof fn lemma_answered(
    session: DriverView,
    entry: AnsweredView,
    origin: DestinationView,
    message_id: u16,
    reply: CoapView,
    now: u128,
    budget: int,
)
    requires
        keeps(session, entry, now, budget - 1),
        session.waiting is Idle,
        budget <= 63,
        now < entry.at + EXCHANGE_LIFETIME,
        origin != entry.origin || message_id != entry.message_id,
    ensures
        keeps(session.remembering(origin, message_id, reply, now), entry, now, budget),
{
    let other = AnsweredView { origin, message_id, reply, at: now };
    let behind = choose|behind: nat| #[trigger]
        remembered_before(session.answered, entry, behind) && behind + in_hand(session) <= budget
            - 1;
    lemma_entry_outlasts_an_answer(session.answered, entry, behind, other);
    assert(remembered_before(
        session.remembering(origin, message_id, reply, now).answered,
        entry,
        behind + 1,
    ));
}

proof fn lemma_refreshed_keeps(
    session: DriverView,
    entry: AnsweredView,
    now: u128,
    budget: int,
)
    requires
        keeps(session, entry, now, budget),
        now < entry.at + EXCHANGE_LIFETIME,
    ensures
        keeps(session.refreshed(now), entry, now, budget),
        reply_in(session.answered, entry.origin, entry.message_id, now) == Some(entry.reply),
{
    let behind = choose|behind: nat| #[trigger]
        remembered_before(session.answered, entry, behind) && behind + in_hand(session) <= budget;
    lemma_entry_outlasts_expiry(session.answered, entry, behind, now);
    assert(remembered_before(session.refreshed(now).answered, entry, behind));
}

/// A message that is not the remembered one is answered at most once.
proof fn lemma_fresh_message(
    session: DriverView,
    message: CoapView,
    origin: DestinationView,
    entry: AnsweredView,
    now: u128,
    budget: int,
)
    requires
        keeps(session, entry, now, budget - 1),
        session.waiting is Idle,
        budget <= 63,
        now < entry.at + EXCHANGE_LIFETIME,
        message.ty == CoapType::Confirmable ==> origin != entry.origin || message.message_id
            != entry.message_id,
        entry.origin is BorderAgent,
    ensures
        keeps(session.route_fresh(message, origin, now), entry, now, budget),
{
    let id = entry.message_id;
    let after = session.route_fresh(message, origin, now);
    let left = match session.exchanges.answered_by(message, origin is Mesh) {
        Some(i) => DriverView {
            exchanges: crate::commissioner::exchange::ExchangesView {
                in_flight: session.exchanges.in_flight.remove(i),
                ..session.exchanges
            },
            ..session
        },
        None => session,
    };
    lemma_no_more_keeps(session, left, entry, now, budget - 1);
    assert(keeps(session, entry, now, budget)) by {
        let behind = choose|behind: nat| #[trigger]
            remembered_before(session.answered, entry, behind) && behind + in_hand(session)
                <= budget - 1;
        assert(remembered_before(session.answered, entry, behind));
    }
    let ack = CoapView::empty(CoapType::Acknowledgement, message.message_id);
    let changed = message.changed_response();
    if message.ty == CoapType::Confirmable {
        lemma_answered(left, entry, origin, message.message_id, ack, now, budget);
        lemma_answered(left, entry, origin, message.message_id, changed, now, budget);
    }
    if after.answered == session.answered {
        let behind = choose|behind: nat| #[trigger]
            remembered_before(session.answered, entry, behind) && behind + in_hand(session)
                <= budget - 1;
        lemma_weights_grown(session.work, after.work);
        assert(remembered_before(after.answered, entry, behind));
    } else {
        let reply = if origin is Mesh && session.exchanges.answered_by(message, true) is None {
            changed
        } else {
            ack
        };
        let noted = left.remembering(origin, message.message_id, reply, now);
        assert(after.answered == noted.answered);
        lemma_weights_grown(session.work, after.work);
        assert(no_more(noted, after, id));
        lemma_no_more_keeps(noted, after, entry, now, budget);
    }
}

proof fn lemma_routed(
    session: DriverView,
    message: CoapView,
    origin: DestinationView,
    entry: AnsweredView,
    now: u128,
    budget: int,
)
    requires
        keeps(session, entry, now, budget - 1),
        session.waiting is Idle,
        budget <= 63,
        now < entry.at + EXCHANGE_LIFETIME,
        entry.origin is BorderAgent,
    ensures
        keeps(session.route(message, origin, now), entry, now, budget),
{
    let refreshed = session.refreshed(now);
    let after = session.route(message, origin, now);
    lemma_refreshed_keeps(session, entry, now, budget - 1);
    assert(keeps(session, entry, now, budget) && keeps(refreshed, entry, now, budget)) by {
        let one = choose|behind: nat| #[trigger]
            remembered_before(session.answered, entry, behind) && behind + in_hand(session)
                <= budget - 1;
        assert(remembered_before(session.answered, entry, one));
        let two = choose|behind: nat| #[trigger]
            remembered_before(refreshed.answered, entry, behind) && behind + in_hand(refreshed)
                <= budget - 1;
        assert(remembered_before(refreshed.answered, entry, two));
    }
    if session.exchanges.acknowledged_by(message, origin is Mesh) is Some {
        lemma_no_more_keeps(session, after, entry, now, budget);
    } else if message.ty == CoapType::Confirmable {
        if reply_in(session.answered, origin, message.message_id, now) is Some {
            lemma_weights_grown(session.work, after.work);
            lemma_no_more_keeps(refreshed, after, entry, now, budget);
        } else {
            lemma_fresh_message(refreshed, message, origin, entry, now, budget);
        }
    } else {
        lemma_fresh_message(session, message, origin, entry, now, budget);
    }
}

proof fn lemma_relay_outputs(
    session: DriverView,
    outputs: Seq<RelayOutputView>,
    message: CoapView,
    entry: AnsweredView,
    now: u128,
    budget: int,
)
    requires
        keeps(session, entry, now, budget - 1),
        session.waiting is Idle,
        budget <= 63,
        now < entry.at + EXCHANGE_LIFETIME,
        apart(message, entry.message_id),
    ensures
        keeps(session.relay_outputs(outputs, message, now), entry, now, budget),
{
    reveal(DriverView::relay_outputs);
    let origin = DestinationView::BorderAgent;
    let after = session.relay_outputs(outputs, message, now);
    let ack = CoapView::empty(CoapType::Acknowledgement, message.message_id);
    let behind = choose|behind: nat| #[trigger]
        remembered_before(session.answered, entry, behind) && behind + in_hand(session) <= budget
            - 1;
    if !session.closed() && outputs.len() == 0 && message.ty == CoapType::Confirmable {
        lemma_answered(session, entry, origin, message.message_id, ack, now, budget);
        let noted = session.remembering(origin, message.message_id, ack, now);
        lemma_no_more_keeps(noted, after, entry, now, budget);
    } else {
        lemma_weights_grown(session.work, after.work);
        assert(remembered_before(after.answered, entry, behind));
    }
}

proof fn lemma_step_keeps(
    session: DriverView,
    entry: AnsweredView,
    before: u128,
    now: u128,
    budget: int,
)
    requires
        session.busy(),
        keeps(session, entry, before, budget),
        before <= now < entry.at + EXCHANGE_LIFETIME,
        entry.origin is BorderAgent,
        budget <= 63,
    ensures
        keeps(session.step(now), entry, now, budget),
{
    let work = session.work.last();
    let rest = DriverView { work: session.work.drop_last(), ..session };
    let behind = choose|behind: nat| #[trigger]
        remembered_before(session.answered, entry, behind) && behind + in_hand(session) <= budget;
    assert(session.work[session.work.len() - 1] == work);
    assert(work_apart(work, entry.message_id));
    assert(forall|i: int|
        0 <= i < rest.work.len() ==> #[trigger] rest.work[i] == session.work[i]);
    assert(remembered_before(rest.answered, entry, behind));
    assert(in_hand(session) == in_hand(rest) + weight(work));
    assert(keeps(rest, entry, now, budget - weight(work)));
    match work {
        WorkView::Received(message) => {
            reveal(DriverView::received);
            assert(keeps(rest, entry, now, budget));
            if let Some((inner, origin)) = carried(message) {
                lemma_routed(rest, inner, origin, entry, now, budget);
            }
        },
        WorkView::RelayOutputs { outputs, message } => {
            lemma_relay_outputs(rest, outputs, message, entry, now, budget);
        },
        _ => {
            lemma_other_work(rest, work, now, entry.message_id);
            lemma_no_more_keeps(rest, session.step(now), entry, now, budget);
        },
    }
}

proof fn lemma_run_keeps(
    session: DriverView,
    entry: AnsweredView,
    before: u128,
    now: u128,
    budget: int,
)
    requires
        keeps(session, entry, before, budget),
        before <= now < entry.at + EXCHANGE_LIFETIME,
        entry.origin is BorderAgent,
        budget <= 63,
    ensures
        keeps(session.run(now), entry, now, budget),
    decreases session.weight(),
{
    if session.busy() {
        lemma_step_is_lighter(session, now);
        lemma_step_keeps(session, entry, before, now, budget);
        lemma_run_keeps(session.step(now), entry, now, now, budget);
    } else {
        let behind = choose|behind: nat| #[trigger]
            remembered_before(session.answered, entry, behind) && behind + in_hand(session)
                <= budget;
        assert(remembered_before(session.answered, entry, behind));
    }
}

proof fn lemma_answer_to_a_wait(session: DriverView, call: DriverCall, message_id: u16)
    requires
        call is Token || call is Sent || call is Relayed || call is Reopened,
        !(call matches DriverCall::Reopened(result) && result is Ok),
    ensures
        no_more(session, after_call(session, call), message_id),
{
    let after = after_call(session, call);
    lemma_weights_grown(session.work, after.work);
}

proof fn lemma_calls_keep(
    session: DriverView,
    entry: AnsweredView,
    now: u128,
    calls: Seq<DriverCall>,
    budget: int,
)
    requires
        keeps(session, entry, now, budget),
        in_order(now, calls),
        without_reopening(calls),
        clock(now, calls) < entry.at + EXCHANGE_LIFETIME,
        entry.origin is BorderAgent,
        budget + messages_given(calls) <= 63,
    ensures
        keeps(
            after_calls(session, calls),
            entry,
            clock(now, calls),
            budget + messages_given(calls),
        ),
        now <= clock(now, calls),
    decreases calls.len(),
{
    if calls.len() > 0 {
        let earlier = calls.drop_last();
        let call = calls.last();
        assert(calls[calls.len() - 1] == call);
        assert(forall|i: int| 0 <= i < earlier.len() ==> #[trigger] earlier[i] == calls[i]);
        lemma_calls_keep(session, entry, now, earlier, budget);
        let before = after_calls(session, earlier);
        let after = after_call(before, call);
        let at = clock(now, earlier);
        let so_far = budget + messages_given(earlier);
        let behind = choose|behind: nat| #[trigger]
            remembered_before(before.answered, entry, behind) && behind + in_hand(before)
                <= so_far;
        match call {
            DriverCall::Give(work) => {
                lemma_weights_given(work, before.work);
                assert forall|i: int| 0 <= i < after.work.len() implies work_apart(
                    #[trigger] after.work[i],
                    entry.message_id,
                ) by {
                    if i > 0 {
                        assert(after.work[i] == before.work[i - 1]);
                    }
                }
                assert(remembered_before(after.answered, entry, behind));
            },
            DriverCall::Next(later) => {
                lemma_run_keeps(before, entry, at, later, so_far);
            },
            DriverCall::TakeEffects => {
                lemma_no_more_keeps(before, after, entry, at, so_far);
            },
            _ => {
                lemma_answer_to_a_wait(before, call, entry.message_id);
                lemma_no_more_keeps(before, after, entry, at, so_far);
            },
        }
    }
}

proof fn lemma_route_is_orderly(
    session: DriverView,
    message: CoapView,
    origin: DestinationView,
    now: u128,
)
    requires
        orderly(session.answered, now),
    ensures
        orderly(session.route(message, origin, now).answered, now),
{
    let recent = unexpired(session.answered, now);
    let ack = CoapView::empty(CoapType::Acknowledgement, message.message_id);
    let acked = AnsweredView { origin, message_id: message.message_id, reply: ack, at: now };
    let changed = AnsweredView { reply: message.changed_response(), ..acked };
    lemma_unexpired_is_orderly(session.answered, now);
    lemma_remembered_is_orderly(session.answered, acked);
    lemma_remembered_is_orderly(session.answered, changed);
    lemma_remembered_is_orderly(recent, acked);
    lemma_remembered_is_orderly(recent, changed);
}

proof fn lemma_run_is_orderly(session: DriverView, before: u128, now: u128)
    requires
        orderly(session.answered, before),
        before <= now,
    ensures
        orderly(session.run(now).answered, now),
    decreases session.weight(),
{
    if session.busy() {
        let work = session.work.last();
        let rest = DriverView { work: session.work.drop_last(), ..session };
        assert(orderly(rest.answered, now));
        match work {
            WorkView::Received(message) => {
                reveal(DriverView::received);
                if let Some((inner, origin)) = carried(message) {
                    lemma_route_is_orderly(rest, inner, origin, now);
                }
            },
            WorkView::RelayOutputs { outputs, message } => {
                reveal(DriverView::relay_outputs);
                let ack = CoapView::empty(CoapType::Acknowledgement, message.message_id);
                lemma_remembered_is_orderly(
                    rest.answered,
                    AnsweredView {
                        origin: DestinationView::BorderAgent,
                        message_id: message.message_id,
                        reply: ack,
                        at: now,
                    },
                );
            },
            _ => {
                lemma_other_work(rest, work, now, 0);
            },
        }
        lemma_step_is_lighter(session, now);
        lemma_run_is_orderly(session.step(now), now, now);
    }
}

/// Whatever happens to a session in order of time, its memory of answered
/// messages stays in that order and within its bounds. A new session has none.
pub proof fn law_the_memory_of_a_session_stays_orderly(
    session: DriverView,
    now: u128,
    calls: Seq<DriverCall>,
)
    requires
        orderly(session.answered, now),
        in_order(now, calls),
    ensures
        orderly(after_calls(session, calls).answered, clock(now, calls)),
    decreases calls.len(),
{
    if calls.len() > 0 {
        let before = after_calls(session, calls.drop_last());
        let at = clock(now, calls.drop_last());
        law_the_memory_of_a_session_stays_orderly(session, now, calls.drop_last());
        match calls.last() {
            DriverCall::Next(later) => {
                lemma_run_is_orderly(before, at, later);
            },
            DriverCall::Reopened(_) => {
                lemma_mesh_is_orderly(before.answered, at);
            },
            _ => {},
        }
    }
}

/// A confirmable response that the border agent delivers twice completes one
/// exchange.
///
/// The first delivery is acknowledged, and once that is sent, whoever waits
/// gets the outcome. Whatever happens then, with requests queued or not, a
/// copy that comes while the session rests is acknowledged again and leaves
/// the session as it is: nothing is completed and nothing is published. That
/// holds within the exchange lifetime and until 64 more messages have come,
/// as long as the session has not ended and its association is the same.
pub proof fn law_a_response_is_acknowledged_twice_and_taken_once(
    session: DriverView,
    response: CoapView,
    i: int,
    now: u128,
    calls: Seq<DriverCall>,
    later: u128,
    again_at: u128,
    random: u32,
)
    requires
        resting(session),
        !session.closed(),
        orderly(session.answered, now),
        carried(response) == Some((response, DestinationView::BorderAgent)),
        response.ty == CoapType::Confirmable,
        session.exchanges.answered_by(response, false) == Some(i),
        reply_in(
            session.answered,
            DestinationView::BorderAgent,
            response.message_id,
            now,
        ) is None,
        in_order(now, calls),
        without_reopening(calls),
        messages_given(calls) <= 63,
        clock(now, calls) <= later < now + EXCHANGE_LIFETIME,
    ensures
        ({
            let ack = CoapView::empty(CoapType::Acknowledgement, response.message_id);
            let completion = session.exchanges.in_flight[i].completion;
            let first = session.given(WorkView::Received(response)).run(now);
            let rested = after_calls(first, calls);
            let second = rested.given(WorkView::Received(response)).run(later);
            &&& first.waiting == (WaitingView::Send {
                wire: ack,
                then: AfterSendView::Answer { completion, response },
            })
            &&& first.effects == session.effects
            &&& first.exchanges.in_flight == session.exchanges.in_flight.remove(i)
            &&& first.sent(Ok(()), again_at, random) == first.wait(WaitingView::Idle).push(
                WorkView::Complete { completion, outcome: Ok(Some(response)) },
            )
            &&& resting(rested) && !rested.closed() ==> {
                &&& second == rested.refreshed(later).wait(
                    WaitingView::Send { wire: ack, then: AfterSendView::Routed },
                )
                &&& second.effects == rested.effects
                &&& second.exchanges == rested.exchanges
                &&& second.sent(Ok(()), again_at, random).run(again_at) == rested.refreshed(later)
            }
        }),
{
    let origin = DestinationView::BorderAgent;
    let ack = CoapView::empty(CoapType::Acknowledgement, response.message_id);
    let entry = AnsweredView { origin, message_id: response.message_id, reply: ack, at: now };
    lemma_delivery(session, response, response, origin, now);
    lemma_no_acknowledgement(session, response, false);
    lemma_position_bounds(
        session.exchanges.in_flight,
        |p: PendingView| p.answered_by(response, false),
    );
    let first = session.route(response, origin, now);
    assert(first.run(now) == first);
    lemma_first_answer(session.answered, entry);
    let recent = unexpired(session.answered, now);
    assert(first.answered == remembered(recent, entry));
    assert(remembered(recent, entry) == remembered(session.answered, entry));
    assert(remembered_before(first.answered, entry, 0));
    assert(first.work =~= session.work);
    assert(keeps(first, entry, now, 0));
    lemma_calls_keep(first, entry, now, calls, 0);
    let rested = after_calls(first, calls);
    let given = messages_given(calls);
    assert(orderly(rested.answered, later));
    assert(keeps(rested, entry, later, given as int));
    lemma_refreshed_keeps(rested, entry, later, given as int);
    if resting(rested) && !rested.closed() {
        law_a_copy_is_answered_again(
            rested,
            response,
            response,
            origin,
            ack,
            later,
            again_at,
            random,
        );
    }
}

} // verus!
