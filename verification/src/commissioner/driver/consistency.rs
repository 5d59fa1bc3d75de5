//! The invariant of a commissioner session, and what it says of the session's
//! exchanges.

use vstd::prelude::*;

use crate::commissioner::coap::{message_in, CoapType, CoapView};
use crate::commissioner::config::KeepAlive;
use crate::commissioner::driver::laws::{
    count, held, is_input, lemma_count_zero, lemma_counts, lemma_everyone_gone,
    lemma_everyone_queue, lemma_everyone_remove, lemma_everyone_same, lemma_everyone_track,
    lemma_everyone_unqueue, lemma_work_failures, lemma_work_given, tagged, waiting_held,
    work_held, work_tag, Tag,
};
use crate::commissioner::driver::model::{failures, DriverView};
use crate::commissioner::driver::parts::{
    AfterReopenView, AfterSendView, CommandView, EffectView, OutcomeView, RelayOutputView,
    WaitingView, WorkView,
};
use crate::commissioner::duplicates::reply_in;
use crate::commissioner::error::ErrorView;
use crate::commissioner::exchange::{
    application_count, lemma_position_bounds, waiting_for, waiting_in, Completion, ExchangesView,
    OutboundView, PendingView,
};
use crate::commissioner::messages::{notification_in, udp_rx_in, NotificationView};
use crate::commissioner::types::{CloseReasonView, DestinationView, EventView, SessionStatusView};

verus! {

/// Whether all of the work comes from outside.
pub open spec fn all_inputs(work: Seq<WorkView>) -> bool {
    forall|i: int| 0 <= i < work.len() ==> is_input(#[trigger] work[i])
}

/// Whether work stands directly on work that comes from outside.
pub open spec fn is_low(work: WorkView) -> bool {
    is_input(work) || work is KeepAliveCheck || work is GoIdle
}

/// Whether work can be done while the session is going idle: it fails a
/// request or a petition, or finds no request to send.
pub open spec fn is_quiet(work: WorkView) -> bool {
    work is SendQueued || (work matches WorkView::Complete { completion, outcome } && outcome is Err
        && (completion is Caller || completion is Petition))
}

/// Whether the session is going idle.
pub open spec fn going_idle(work: Seq<WorkView>) -> bool {
    exists|i: int| 0 <= i < work.len() && #[trigger] work[i] is GoIdle
}

/// Input stands below all other work, as do the keep-alive check and going
/// idle; only quiet work stands on the latter.
pub open spec fn shaped(work: Seq<WorkView>) -> bool {
    &&& forall|i: int, j: int|
        0 <= i < j < work.len() && is_low(#[trigger] work[j]) ==> is_input(#[trigger] work[i])
    &&& forall|i: int, j: int|
        0 <= i < j < work.len() && #[trigger] work[i] is GoIdle ==> is_quiet(#[trigger] work[j])
}

/// A session that has ended has nothing outstanding and starts nothing.
pub open spec fn ended(session: DriverView) -> bool {
    session.closed() ==> {
        &&& session.exchanges.in_flight.len() == 0
        &&& session.exchanges.queued.len() == 0
        &&& session.keep_alive_at is None
        &&& !session.open
        &&& session.waiting is Idle
        &&& !going_idle(session.work)
    }
}

/// A session that is going idle has nothing outstanding and starts nothing.
pub open spec fn idling(session: DriverView) -> bool {
    going_idle(session.work) ==> {
        &&& session.exchanges.in_flight.len() == 0
        &&& session.exchanges.queued.len() == 0
        &&& session.waiting is Idle
        &&& !(session.status is Active)
        &&& !session.closed()
    }
}

/// The link is open unless the session is idle, going idle or ended; only a
/// closed link is opened again.
pub open spec fn linked(session: DriverView) -> bool {
    &&& session.open || session.status is Idle || session.closed() || going_idle(session.work)
    &&& session.waiting is Reopen ==> !session.open
}

/// At most one petition, one keep-alive and one resignation are outstanding: a
/// petition while the session petitions, the others while it is active. A
/// keep-alive is scheduled only while the session is active and none is
/// outstanding.
pub open spec fn controlled(session: DriverView) -> bool {
    &&& held(session, Tag::Petition) <= 1
    &&& held(session, Tag::KeepAlive) <= 1
    &&& held(session, Tag::Resign) <= 1
    &&& held(session, Tag::Petition) == 1 ==> session.status is Petitioning || session.closed()
    &&& held(session, Tag::KeepAlive) == 1 ==> session.keep_alive_at is None && (
    session.status is Active || session.closed())
    &&& held(session, Tag::Resign) == 1 ==> session.status is Active || session.closed()
    &&& session.keep_alive_at is Some ==> session.status is Active
}

/// At most one application exchange is outstanding with the border agent, and
/// only application requests are queued.
pub open spec fn limited(session: DriverView) -> bool {
    &&& count(waiting_for(session.exchanges.in_flight), Tag::Application) + waiting_held(
        session.waiting,
        Tag::Application,
    ) <= 1
    &&& forall|i: int|
        0 <= i < session.exchanges.queued.len() ==> (
        #[trigger] session.exchanges.queued[i]).1 is Caller
}

/// Whether no two exchanges use the same token.
pub open spec fn tokens_differ(in_flight: Seq<PendingView>) -> bool {
    forall|i: int, j: int|
        0 <= i < j < in_flight.len() ==> (#[trigger] in_flight[i]).request.token != (
        #[trigger] in_flight[j]).request.token
}

/// Whether what happens once a message was sent tracks no token that is in
/// use.
pub open spec fn then_fresh(exchanges: ExchangesView, then: AfterSendView) -> bool {
    then matches AfterSendView::Track { request, .. } ==> !exchanges.uses_token(
        request.message.token,
    )
}

/// The tokens of the exchanges in flight differ, and a request that is being
/// sent has another.
pub open spec fn matched(session: DriverView) -> bool {
    &&& tokens_differ(session.exchanges.in_flight)
    &&& match session.waiting {
        WaitingView::WireToken { then, .. } => then_fresh(session.exchanges, then),
        WaitingView::Send { then, .. } => then_fresh(session.exchanges, then),
        _ => true,
    }
}

/// What holds of every session.
pub open spec fn consistent(session: DriverView) -> bool {
    &&& shaped(session.work)
    &&& ended(session)
    &&& idling(session)
    &&& linked(session)
    &&& controlled(session)
    &&& limited(session)
    &&& matched(session)
}

/// A session in which nothing has happened is consistent.
pub proof fn lemma_new_is_consistent(session: DriverView)
    requires
        session.status is Connected,
        session.open,
        session.exchanges.in_flight.len() == 0,
        session.exchanges.queued.len() == 0,
        session.keep_alive_at is None,
        session.work.len() == 0,
        session.waiting is Idle,
    ensures
        consistent(session),
{
    assert(session.exchanges.everyone() =~= Seq::<Completion>::empty());
    assert(waiting_for(session.exchanges.in_flight) =~= Seq::<Completion>::empty());
}

proof fn lemma_shaped_push(work: Seq<WorkView>, more: WorkView)
    requires
        shaped(work),
        is_low(more) ==> all_inputs(work),
        going_idle(work) ==> is_quiet(more),
    ensures
        shaped(work.push(more)),
        going_idle(work.push(more)) == (going_idle(work) || more is GoIdle),
{
    let all = work.push(more);
    assert forall|i: int, j: int|
        0 <= i < j < all.len() && is_low(#[trigger] all[j]) implies is_input(#[trigger] all[i]) by {
        assert(all[i] == work[i]);
        if j < work.len() {
            assert(all[j] == work[j]);
        }
    }
    assert forall|i: int, j: int|
        0 <= i < j < all.len() && #[trigger] all[i] is GoIdle implies is_quiet(
        #[trigger] all[j],
    ) by {
        assert(all[i] == work[i]);
        if j < work.len() {
            assert(all[j] == work[j]);
        }
    }
    if going_idle(work) {
        let i = choose|i: int| 0 <= i < work.len() && #[trigger] work[i] is GoIdle;
        assert(all[i] is GoIdle);
    }
    if more is GoIdle {
        assert(all[work.len() as int] is GoIdle);
    }
    if going_idle(all) {
        let i = choose|i: int| 0 <= i < all.len() && #[trigger] all[i] is GoIdle;
        if i < work.len() {
            assert(work[i] is GoIdle);
        }
    }
}

/// What is known of a session and the piece of work that was taken from it.
spec fn ready(rest: DriverView, work: WorkView) -> bool {
    &&& consistent(rest.push(work))
    &&& rest.waiting is Idle
}

/// What follows for the session without the piece of work.
proof fn lemma_ready(rest: DriverView, work: WorkView)
    requires
        ready(rest, work),
    ensures
        shaped(rest.work),
        is_low(work) ==> all_inputs(rest.work),
        going_idle(rest.work) ==> is_quiet(work),
        going_idle(rest.work) ==> going_idle(rest.push(work).work),
        !(work is GoIdle) && going_idle(rest.push(work).work) ==> going_idle(rest.work),
        forall|tag: Tag| #[trigger]
            held(rest.push(work), tag) == held(rest, tag) + work_tag(work, tag),
        held(rest, Tag::Petition) <= 1,
        held(rest, Tag::KeepAlive) <= 1,
        held(rest, Tag::Resign) <= 1,
{
    let all = rest.work.push(work);
    assert forall|i: int| 0 <= i < rest.work.len() implies #[trigger] rest.work[i] == all[i] by {}
    assert(all[rest.work.len() as int] == work);
    assert forall|i: int, j: int|
        0 <= i < j < rest.work.len() && is_low(#[trigger] rest.work[j]) implies is_input(
        #[trigger] rest.work[i],
    ) by {
        assert(is_low(all[j]));
        assert(is_input(all[i]));
    }
    assert forall|i: int, j: int|
        0 <= i < j < rest.work.len() && #[trigger] rest.work[i] is GoIdle implies is_quiet(
        #[trigger] rest.work[j],
    ) by {
        assert(all[i] is GoIdle);
        assert(is_quiet(all[j]));
    }
    if is_low(work) {
        assert forall|i: int| 0 <= i < rest.work.len() implies is_input(
            #[trigger] rest.work[i],
        ) by {
            assert(is_input(all[i]));
        }
    }
    if going_idle(rest.work) {
        let i = choose|i: int| 0 <= i < rest.work.len() && #[trigger] rest.work[i] is GoIdle;
        assert(all[i] is GoIdle);
        assert(is_quiet(all[rest.work.len() as int]));
    }
    if !(work is GoIdle) && going_idle(all) {
        let i = choose|i: int| 0 <= i < all.len() && #[trigger] all[i] is GoIdle;
        assert(rest.work[i] is GoIdle);
    }
    lemma_counts();
}

proof fn lemma_inputs_hold_no_exchange(work: Seq<WorkView>, tag: Tag)
    requires
        all_inputs(work),
        !(tag is Request),
    ensures
        work_held(work, tag) == 0,
        !going_idle(work),
    decreases work.len(),
{
    if work.len() > 0 {
        let shorter = work.drop_last();
        assert forall|i: int| 0 <= i < shorter.len() implies is_input(#[trigger] shorter[i]) by {
            assert(is_input(work[i]));
        }
        lemma_inputs_hold_no_exchange(shorter, tag);
        assert(is_input(work[work.len() - 1]));
        if going_idle(work) {
            let i = choose|i: int| 0 <= i < work.len() && #[trigger] work[i] is GoIdle;
            assert(is_input(work[i]));
        }
    }
}

/// Taking work that is not going idle keeps the session consistent.
proof fn lemma_rest_is_consistent(rest: DriverView, work: WorkView)
    requires
        ready(rest, work),
        !(work is GoIdle),
    ensures
        consistent(rest),
{
    lemma_ready(rest, work);
    assert(held(rest.push(work), Tag::Petition) <= 1);
    assert(held(rest.push(work), Tag::KeepAlive) <= 1);
    assert(held(rest.push(work), Tag::Resign) <= 1);
}

/// What holds of every session but the counts of control exchanges.
spec fn sound(session: DriverView) -> bool {
    &&& shaped(session.work)
    &&& ended(session)
    &&& idling(session)
    &&& linked(session)
    &&& limited(session)
    &&& matched(session)
}

proof fn lemma_push(session: DriverView, work: WorkView)
    requires
        sound(session),
        !is_low(work),
        going_idle(session.work) ==> is_quiet(work),
    ensures
        sound(session.push(work)),
        controlled(session.push(work)) ==> consistent(session.push(work)),
{
    lemma_shaped_push(session.work, work);
}

/// Pushing work that holds no control exchange.
proof fn lemma_push_plain(session: DriverView, work: WorkView)
    requires
        consistent(session),
        !is_low(work),
        going_idle(session.work) ==> is_quiet(work),
        forall|tag: Tag| !(tag is Request) && !(tag is Application) ==> #[trigger] work_tag(
            work,
            tag,
        ) == 0,
    ensures
        consistent(session.push(work)),
{
    lemma_push(session, work);
    lemma_counts();
    assert(work_tag(work, Tag::Petition) == 0);
    assert(work_tag(work, Tag::KeepAlive) == 0);
    assert(work_tag(work, Tag::Resign) == 0);
}

/// Whether a session that starts an exchange can wait for something.
spec fn can_start(session: DriverView) -> bool {
    &&& session.waiting is Idle
    &&& !session.closed()
    &&& !going_idle(session.work)
}

proof fn lemma_start(session: DriverView, request: OutboundView, completion: Completion)
    requires
        sound(session),
        can_start(session),
        completion is Caller ==> count(
            waiting_for(session.exchanges.in_flight),
            Tag::Application,
        ) == 0,
    ensures
        sound(session.start(request, completion)),
        forall|tag: Tag| #[trigger]
            held(session.start(request, completion), tag) == held(session, tag) + tagged(
                completion,
                tag,
            ),
{
}

proof fn lemma_transmit(
    session: DriverView,
    message: CoapView,
    destination: DestinationView,
    then: AfterSendView,
)
    requires
        sound(session),
        can_start(session),
        then_fresh(session.exchanges, then),
        count(waiting_for(session.exchanges.in_flight), Tag::Application)
            + crate::commissioner::driver::laws::then_held(then, Tag::Application) <= 1,
    ensures
        session.transmit(message, destination, then) matches Ok(after) ==> sound(after) && forall|
            tag: Tag,
        | #[trigger]
            held(after, tag) == held(session, tag) + crate::commissioner::driver::laws::then_held(
                then,
                tag,
            ),
{
}

proof fn lemma_route_failed(session: DriverView, error: ErrorView)
    requires
        consistent(session),
        !going_idle(session.work),
    ensures
        consistent(session.route_failed(error)),
{
    if error.is_transport() {
        lemma_push_plain(
            session,
            WorkView::EndSession(crate::commissioner::driver::model::transport_reason(error)),
        );
    }
}

/// Removing an exchange keeps the session sound.
proof fn lemma_remove(session: DriverView, i: int)
    requires
        sound(session),
        session.waiting is Idle,
        0 <= i < session.exchanges.in_flight.len(),
    ensures
        ({
            let left = DriverView {
                exchanges: ExchangesView {
                    in_flight: session.exchanges.in_flight.remove(i),
                    ..session.exchanges
                },
                ..session
            };
            &&& sound(left)
            &&& count(waiting_for(left.exchanges.in_flight), Tag::Application) + tagged(
                session.exchanges.in_flight[i].completion,
                Tag::Application,
            ) == count(waiting_for(session.exchanges.in_flight), Tag::Application)
            &&& forall|tag: Tag| #[trigger]
                held(left, tag) + tagged(session.exchanges.in_flight[i].completion, tag) == held(
                    session,
                    tag,
                )
        }),
{
    let left = DriverView {
        exchanges: ExchangesView {
            in_flight: session.exchanges.in_flight.remove(i),
            ..session.exchanges
        },
        ..session
    };
    assert forall|tag: Tag| #[trigger]
        held(left, tag) + tagged(session.exchanges.in_flight[i].completion, tag) == held(
            session,
            tag,
        ) by {
        lemma_everyone_remove(session.exchanges, i, tag);
    }
    let all = waiting_for(session.exchanges.in_flight);
    assert(waiting_for(left.exchanges.in_flight) =~= all.remove(i));
    crate::commissioner::driver::laws::lemma_count_remove(all, i, Tag::Application);
    let fewer = left.exchanges.in_flight;
    assert forall|a: int, b: int| 0 <= a < b < fewer.len() implies (
    #[trigger] fewer[a]).request.token != (#[trigger] fewer[b]).request.token by {
        let x = if a < i {
            a
        } else {
            a + 1
        };
        let y = if b < i {
            b
        } else {
            b + 1
        };
        assert(fewer[a] == session.exchanges.in_flight[x]);
        assert(fewer[b] == session.exchanges.in_flight[y]);
    }
}

/// Changing the timers of exchanges keeps the session sound.
proof fn lemma_retime(session: DriverView, exchanges: ExchangesView)
    requires
        sound(session),
        exchanges.queued == session.exchanges.queued,
        exchanges.in_flight.len() == session.exchanges.in_flight.len(),
        forall|i: int|
            0 <= i < exchanges.in_flight.len() ==> (#[trigger] exchanges.in_flight[i]).completion
                == session.exchanges.in_flight[i].completion && exchanges.in_flight[i].request
                == session.exchanges.in_flight[i].request,
    ensures
        sound(DriverView { exchanges, ..session }),
        forall|tag: Tag| #[trigger]
            held(DriverView { exchanges, ..session }, tag) == held(session, tag),
{
    let changed = DriverView { exchanges, ..session };
    lemma_everyone_same(session.exchanges, exchanges);
    assert(waiting_for(exchanges.in_flight) =~= waiting_for(session.exchanges.in_flight));
    assert forall|a: int, b: int| 0 <= a < b < exchanges.in_flight.len() implies (
    #[trigger] exchanges.in_flight[a]).request.token != (
    #[trigger] exchanges.in_flight[b]).request.token by {
        assert(session.exchanges.in_flight[a].request.token
            != session.exchanges.in_flight[b].request.token);
    }
    assert forall|token: Seq<u8>| #[trigger] exchanges.uses_token(token) implies session.exchanges.uses_token(token) by {
        let i = choose|i: int|
            0 <= i < exchanges.in_flight.len() && #[trigger] exchanges.in_flight[i].request.token
                == token;
        assert(session.exchanges.in_flight[i].request.token == token);
    }
}

proof fn lemma_answer_notification(
    rest: DriverView,
    message: CoapView,
    origin: DestinationView,
    reply: CoapView,
    now: u128,
)
    requires
        consistent(rest),
        can_start(rest),
    ensures
        consistent(rest.answer_notification(message, origin, reply, now)),
{
    let kept = rest.remembering(origin, message.message_id, reply, now);
    lemma_transmit(kept, reply, origin, AfterSendView::Routed);
    if let Ok(after) = kept.transmit(reply, origin, AfterSendView::Routed) {
        assert(held(after, Tag::Petition) == held(rest, Tag::Petition));
        assert(held(after, Tag::KeepAlive) == held(rest, Tag::KeepAlive));
        assert(held(after, Tag::Resign) == held(rest, Tag::Resign));
    }
    if let Err(error) = kept.transmit(reply, origin, AfterSendView::Routed) {
        lemma_route_failed(kept, error);
    }
}

/// Completing a control exchange that was held: the counts come out as they
/// were.
proof fn lemma_complete_answered(
    rest: DriverView,
    completion: Completion,
    response: CoapView,
    origin: DestinationView,
    now: u128,
)
    requires
        sound(rest),
        can_start(rest),
        count(waiting_for(rest.exchanges.in_flight), Tag::Application) + tagged(
            completion,
            Tag::Application,
        ) <= 1,
        controlled(
            rest.push(WorkView::Complete { completion, outcome: Err(ErrorView::SessionClosed) }),
        ),
    ensures
        consistent(rest.complete_answered(completion, response, origin, now)),
{
    lemma_counts();
    let marker = WorkView::Complete { completion, outcome: Err(ErrorView::SessionClosed) };
    assert forall|outcome: OutcomeView| consistent(
        #[trigger] rest.push(WorkView::Complete { completion, outcome }),
    ) by {
        let work = WorkView::Complete { completion, outcome };
        lemma_push(rest, work);
        assert(held(rest.push(work), Tag::Petition) == held(rest.push(marker), Tag::Petition));
        assert(held(rest.push(work), Tag::KeepAlive) == held(rest.push(marker), Tag::KeepAlive));
        assert(held(rest.push(work), Tag::Resign) == held(rest.push(marker), Tag::Resign));
    }
    let ack = CoapView::empty(CoapType::Acknowledgement, response.message_id);
    let then = AfterSendView::Answer { completion, response };
    let kept = rest.remembering(origin, response.message_id, ack, now);
    lemma_transmit(kept, ack, origin, then);
    if let Ok(after) = kept.transmit(ack, origin, then) {
        assert(held(after, Tag::Petition) == held(rest.push(marker), Tag::Petition));
        assert(held(after, Tag::KeepAlive) == held(rest.push(marker), Tag::KeepAlive));
        assert(held(after, Tag::Resign) == held(rest.push(marker), Tag::Resign));
    }
    if let Err(error) = kept.transmit(ack, origin, then) {
        let dropped = kept.give_up(completion);
        assert(held(dropped, Tag::Petition) <= held(rest.push(marker), Tag::Petition));
        assert(held(dropped, Tag::KeepAlive) <= held(rest.push(marker), Tag::KeepAlive));
        assert(held(dropped, Tag::Resign) <= held(rest.push(marker), Tag::Resign));
        lemma_route_failed(dropped, error);
    }
}

proof fn lemma_notification(
    rest: DriverView,
    notification: NotificationView,
    message: CoapView,
    origin: DestinationView,
    now: u128,
)
    requires
        consistent(rest),
        can_start(rest),
    ensures
        consistent(rest.route_notification(notification, message, origin, now)),
{
    let ack = CoapView::empty(CoapType::Acknowledgement, message.message_id);
    match origin {
        DestinationView::BorderAgent => {
            lemma_answer_notification(
                rest.report(notification, None),
                message,
                origin,
                ack,
                now,
            );
        },
        DestinationView::Mesh { address, .. } => {
            lemma_answer_notification(
                rest.report(notification, Some(address)),
                message,
                origin,
                message.changed_response(),
                now,
            );
        },
    }
}

/// Where work takes over what an exchange held, the session holds what it
/// held before.
proof fn lemma_moved(session: DriverView, left: DriverView, work: WorkView)
    requires
        controlled(session),
        left.status == session.status,
        left.keep_alive_at == session.keep_alive_at,
        forall|tag: Tag| #[trigger] held(left, tag) + work_tag(work, tag) == held(session, tag),
    ensures
        controlled(left.push(work)),
{
    lemma_counts();
    assert(held(left, Tag::Petition) + work_tag(work, Tag::Petition) == held(
        session,
        Tag::Petition,
    ));
    assert(held(left, Tag::KeepAlive) + work_tag(work, Tag::KeepAlive) == held(
        session,
        Tag::KeepAlive,
    ));
    assert(held(left, Tag::Resign) + work_tag(work, Tag::Resign) == held(session, Tag::Resign));
}

proof fn lemma_fresh(rest: DriverView, message: CoapView, origin: DestinationView, now: u128)
    requires
        consistent(rest),
        can_start(rest),
    ensures
        consistent(rest.route_fresh(message, origin, now)),
{
    crate::commissioner::exchange::law_answers_stay_on_their_route(
        rest.exchanges,
        message,
        origin is Mesh,
    );
    match rest.exchanges.answered_by(message, origin is Mesh) {
        Some(i) => {
            let completion = rest.exchanges.in_flight[i].completion;
            let left = DriverView {
                exchanges: ExchangesView {
                    in_flight: rest.exchanges.in_flight.remove(i),
                    ..rest.exchanges
                },
                ..rest
            };
            lemma_remove(rest, i);
            lemma_counts();
            let marker = WorkView::Complete { completion, outcome: Err(ErrorView::SessionClosed) };
            lemma_moved(rest, left, marker);
            lemma_complete_answered(left, completion, message, origin, now);
        },
        None => {
            if let Ok(Some(notification)) = notification_in(message) {
                lemma_notification(rest, notification, message, origin, now);
            }
        },
    }
}

proof fn lemma_route(rest: DriverView, message: CoapView, origin: DestinationView, now: u128)
    requires
        consistent(rest),
        can_start(rest),
    ensures
        consistent(rest.route(message, origin, now)),
{
    crate::commissioner::exchange::law_answers_stay_on_their_route(
        rest.exchanges,
        message,
        origin is Mesh,
    );
    if let Some(i) = rest.exchanges.acknowledged_by(message, origin is Mesh) {
        let quiet = rest.exchanges.silenced(i);
        lemma_retime(rest, quiet);
        let after = DriverView { exchanges: quiet, ..rest };
        assert(held(after, Tag::Petition) == held(rest, Tag::Petition));
        assert(held(after, Tag::KeepAlive) == held(rest, Tag::KeepAlive));
        assert(held(after, Tag::Resign) == held(rest, Tag::Resign));
    }
    let recent = rest.refreshed(now);
    lemma_fresh(rest, message, origin, now);
    lemma_fresh(recent, message, origin, now);
    if let Some(reply) = reply_in(rest.answered, origin, message.message_id, now) {
        lemma_transmit(recent, reply, origin, AfterSendView::Routed);
        if let Ok(after) = recent.transmit(reply, origin, AfterSendView::Routed) {
            assert(held(after, Tag::Petition) == held(rest, Tag::Petition));
            assert(held(after, Tag::KeepAlive) == held(rest, Tag::KeepAlive));
            assert(held(after, Tag::Resign) == held(rest, Tag::Resign));
        }
        if let Err(error) = recent.transmit(reply, origin, AfterSendView::Routed) {
            lemma_route_failed(recent, error);
        }
    }
}

proof fn lemma_received(rest: DriverView, message: CoapView, now: u128)
    requires
        consistent(rest),
        rest.waiting is Idle,
        !going_idle(rest.work),
    ensures
        consistent(rest.received(message, now)),
{
    reveal(DriverView::received);
    if !rest.closed() {
        match udp_rx_in(message) {
            Ok(None) => {
                lemma_route(rest, message, DestinationView::BorderAgent, now);
            },
            Ok(Some(udp_rx)) => {
                if let Some(inner) = message_in(udp_rx.payload) {
                    let origin = DestinationView::Mesh {
                        address: udp_rx.source_address,
                        port: udp_rx.source_port,
                    };
                    lemma_route(rest, inner, origin, now);
                }
            },
            _ => {},
        }
    }
}

proof fn lemma_start_control(session: DriverView, request: OutboundView, completion: Completion)
    requires
        consistent(session),
        can_start(session),
        completion is Petition ==> session.status is Petitioning && held(session, Tag::Petition)
            == 0,
        completion is KeepAlive ==> session.status is Active && session.keep_alive_at is None
            && held(session, Tag::KeepAlive) == 0,
        completion is Resign ==> session.status is Active && held(session, Tag::Resign) == 0,
        completion is Caller ==> count(
            waiting_for(session.exchanges.in_flight),
            Tag::Application,
        ) == 0,
    ensures
        consistent(session.start(request, completion)),
{
    lemma_start(session, request, completion);
    let after = session.start(request, completion);
    assert(held(after, Tag::Petition) == held(session, Tag::Petition) + tagged(
        completion,
        Tag::Petition,
    ));
    assert(held(after, Tag::KeepAlive) == held(session, Tag::KeepAlive) + tagged(
        completion,
        Tag::KeepAlive,
    ));
    assert(held(after, Tag::Resign) == held(session, Tag::Resign) + tagged(
        completion,
        Tag::Resign,
    ));
}

/// In a session with nothing but input to work on, what is held is in flight.
proof fn lemma_only_in_flight(session: DriverView)
    requires
        consistent(session),
        session.waiting is Idle,
        all_inputs(session.work),
    ensures
        !session.exchanges.resigning() ==> held(session, Tag::Resign) == 0,
        !session.exchanges.keep_alive_outstanding() ==> held(session, Tag::KeepAlive) == 0,
        !going_idle(session.work),
{
    let in_flight = waiting_for(session.exchanges.in_flight);
    let queued = waiting_in(session.exchanges.queued);
    lemma_inputs_hold_no_exchange(session.work, Tag::Resign);
    lemma_inputs_hold_no_exchange(session.work, Tag::KeepAlive);
    assert forall|tag: Tag| (tag is Resign || tag is KeepAlive) implies #[trigger] count(
        queued,
        tag,
    ) == 0 by {
        assert forall|i: int| 0 <= i < queued.len() implies tagged(#[trigger] queued[i], tag)
            == 0 by {
            assert(session.exchanges.queued[i].1 is Caller);
        }
        lemma_count_zero(queued, tag);
    }
    crate::commissioner::driver::laws::lemma_count_add(in_flight, queued, Tag::Resign);
    crate::commissioner::driver::laws::lemma_count_add(in_flight, queued, Tag::KeepAlive);
    assert(count(queued, Tag::Resign) == 0);
    assert(count(queued, Tag::KeepAlive) == 0);
    if !session.exchanges.resigning() {
        assert forall|i: int| 0 <= i < in_flight.len() implies tagged(
            #[trigger] in_flight[i],
            Tag::Resign,
        ) == 0 by {
            assert(!(session.exchanges.in_flight[i].completion is Resign));
        }
        lemma_count_zero(in_flight, Tag::Resign);
    }
    if !session.exchanges.keep_alive_outstanding() {
        assert forall|i: int| 0 <= i < in_flight.len() implies tagged(
            #[trigger] in_flight[i],
            Tag::KeepAlive,
        ) == 0 by {
            assert(!(session.exchanges.in_flight[i].completion is KeepAlive));
        }
        lemma_count_zero(in_flight, Tag::KeepAlive);
    }
}

proof fn lemma_submit(session: DriverView, id: u64, request: OutboundView)
    requires
        consistent(session),
        !session.closed(),
        !going_idle(session.work),
    ensures
        consistent(session.submit(id, request)),
{
    let completion = Completion::Caller { id };
    let queued = DriverView {
        exchanges: ExchangesView {
            queued: session.exchanges.queued.push((request, completion)),
            ..session.exchanges
        },
        ..session
    };
    lemma_everyone_queue(session.exchanges, request, completion, Tag::Petition);
    lemma_everyone_queue(session.exchanges, request, completion, Tag::KeepAlive);
    lemma_everyone_queue(session.exchanges, request, completion, Tag::Resign);
    assert(consistent(queued));
    lemma_push_plain(queued, WorkView::SendQueued);
}

proof fn lemma_start_petition(session: DriverView, id: u64)
    requires
        consistent(session),
        can_start(session),
        session.status is Connected || session.status is Idle,
        session.open,
    ensures
        consistent(session.start_petition(id)),
{
    let petitioning = session.set_status(SessionStatusView::Petitioning);
    assert(held(petitioning, Tag::Petition) == held(session, Tag::Petition));
    assert(held(petitioning, Tag::KeepAlive) == held(session, Tag::KeepAlive));
    assert(held(petitioning, Tag::Resign) == held(session, Tag::Resign));
    assert(consistent(petitioning));
    lemma_start_control(
        petitioning,
        crate::commissioner::driver::model::control_request(
            crate::commissioner::messages::petition(session.commissioner_id),
        ),
        Completion::Petition { id },
    );
}

proof fn lemma_send_keep_alive(session: DriverView, completion: Completion)
    requires
        consistent(session),
        can_start(session),
        completion is KeepAlive,
        session.status is Active,
        held(session, Tag::KeepAlive) == 0,
    ensures
        consistent(session.send_keep_alive(completion)),
{
    let cleared = DriverView { keep_alive_at: None, ..session };
    assert(held(cleared, Tag::Petition) == held(session, Tag::Petition));
    assert(held(cleared, Tag::KeepAlive) == held(session, Tag::KeepAlive));
    assert(held(cleared, Tag::Resign) == held(session, Tag::Resign));
    if let SessionStatusView::Active { session_id } = session.status {
        lemma_start_control(
            cleared,
            crate::commissioner::driver::model::control_request(
                crate::commissioner::messages::keep_alive(session_id, true),
            ),
            completion,
        );
    }
}

proof fn lemma_resign(session: DriverView, asked: Option<u64>)
    requires
        consistent(session),
        can_start(session),
        held(session, Tag::Resign) == 0,
    ensures
        consistent(session.resign(asked)),
{
    match session.status {
        SessionStatusView::Active { session_id } => {
            let cleared = DriverView { keep_alive_at: None, ..session };
            assert(held(cleared, Tag::Petition) == held(session, Tag::Petition));
            assert(held(cleared, Tag::KeepAlive) == held(session, Tag::KeepAlive));
            assert(held(cleared, Tag::Resign) == held(session, Tag::Resign));
            lemma_start_control(
                cleared,
                crate::commissioner::driver::model::control_request(
                    crate::commissioner::messages::keep_alive(session_id, false),
                ),
                Completion::Resign { asked },
            );
        },
        _ => {
            let end = WorkView::EndSession(CloseReasonView::Resigned);
            match asked {
                Some(id) => {
                    let reply = WorkView::Reply {
                        id,
                        reply: crate::commissioner::driver::parts::ReplyView::Resign(Ok(())),
                    };
                    lemma_push_plain(session, reply);
                    lemma_shaped_push(session.work, reply);
                    lemma_push_plain(session.push(reply), end);
                },
                None => {
                    lemma_push_plain(session, end);
                },
            }
        },
    }
}

proof fn lemma_command(rest: DriverView, command: CommandView)
    requires
        ready(rest, WorkView::Command(command)),
    ensures
        consistent(rest.command(command)),
{
    reveal(DriverView::command);
    lemma_ready(rest, WorkView::Command(command));
    lemma_rest_is_consistent(rest, WorkView::Command(command));
    lemma_only_in_flight(rest);
    match command {
        CommandView::Exchange { id, request } => {
            if !rest.closed() && rest.open {
                lemma_submit(rest, id, request);
            }
        },
        CommandView::Withdraw { id } => {
            lemma_withdraw(rest, id);
        },
        CommandView::Petition { id } => {
            if rest.petition_refusal() is None && rest.open {
                lemma_start_petition(rest, id);
            }
        },
        CommandView::KeepAlive { id } => {
            if rest.keep_alive_refusal() is None {
                lemma_send_keep_alive(rest, Completion::KeepAlive { asked: Some(id) });
            }
        },
        CommandView::Resign { id } => {
            if !rest.closed() && !rest.exchanges.resigning() {
                lemma_resign(rest, Some(id));
            }
        },
        _ => {},
    }
}

proof fn lemma_withdraw(rest: DriverView, id: u64)
    requires
        consistent(rest),
        rest.waiting is Idle,
        !going_idle(rest.work),
    ensures
        rest.exchanges.without(id) matches Some(exchanges) ==> consistent(
            (DriverView { exchanges, ..rest }).push(WorkView::SendQueued),
        ),
{
    let exchanges = rest.exchanges;
    lemma_position_bounds(
        exchanges.queued,
        |q: (OutboundView, Completion)| q.1 == Completion::Caller { id },
    );
    lemma_position_bounds(
        exchanges.in_flight,
        |p: PendingView| p.completion == Completion::Caller { id },
    );
    if let Some(i) = exchanges.queue_position(id) {
        let fewer = ExchangesView { queued: exchanges.queued.remove(i), ..exchanges };
        let left = DriverView { exchanges: fewer, ..rest };
        lemma_everyone_unqueue(exchanges, i, Tag::Petition);
        lemma_everyone_unqueue(exchanges, i, Tag::KeepAlive);
        lemma_everyone_unqueue(exchanges, i, Tag::Resign);
        assert forall|k: int| 0 <= k < fewer.queued.len() implies (
        #[trigger] fewer.queued[k]).1 is Caller by {
            if k < i {
                assert(fewer.queued[k] == exchanges.queued[k]);
            } else {
                assert(fewer.queued[k] == exchanges.queued[k + 1]);
            }
        }
        assert(consistent(left));
        lemma_push_plain(left, WorkView::SendQueued);
    } else if let Some(i) = exchanges.flight_position(id) {
        let left = DriverView {
            exchanges: ExchangesView { in_flight: exchanges.in_flight.remove(i), ..exchanges },
            ..rest
        };
        lemma_remove(rest, i);
        assert(held(left, Tag::Petition) == held(rest, Tag::Petition)) by {
            assert(held(left, Tag::Petition) + tagged(
                exchanges.in_flight[i].completion,
                Tag::Petition,
            ) == held(rest, Tag::Petition));
        }
        assert(held(left, Tag::KeepAlive) == held(rest, Tag::KeepAlive)) by {
            assert(held(left, Tag::KeepAlive) + tagged(
                exchanges.in_flight[i].completion,
                Tag::KeepAlive,
            ) == held(rest, Tag::KeepAlive));
        }
        assert(held(left, Tag::Resign) == held(rest, Tag::Resign)) by {
            assert(held(left, Tag::Resign) + tagged(
                exchanges.in_flight[i].completion,
                Tag::Resign,
            ) == held(rest, Tag::Resign));
        }
        assert(consistent(left));
        lemma_push_plain(left, WorkView::SendQueued);
    }
}

proof fn lemma_complete(
    rest: DriverView,
    completion: Completion,
    outcome: OutcomeView,
    now: u128,
)
    requires
        ready(rest, WorkView::Complete { completion, outcome }),
    ensures
        consistent(rest.complete(completion, outcome, now)),
{
    reveal(DriverView::complete);
    let work = WorkView::Complete { completion, outcome };
    lemma_ready(rest, work);
    lemma_rest_is_consistent(rest, work);
    assert(held(rest.push(work), Tag::Petition) == held(rest, Tag::Petition) + tagged(
        completion,
        Tag::Petition,
    ));
    assert(held(rest.push(work), Tag::KeepAlive) == held(rest, Tag::KeepAlive) + tagged(
        completion,
        Tag::KeepAlive,
    ));
    assert(held(rest.push(work), Tag::Resign) == held(rest, Tag::Resign) + tagged(
        completion,
        Tag::Resign,
    ));
    match completion {
        Completion::Caller { id } => {
            lemma_push_plain(
                rest.reply(id, crate::commissioner::driver::parts::ReplyView::Exchange(outcome)),
                WorkView::SendQueued,
            );
        },
        Completion::Petition { id } => {
            if !rest.closed() {
                let after = rest.complete(completion, outcome, now);
                assert(held(after, Tag::Petition) == held(rest, Tag::Petition));
                assert(held(after, Tag::KeepAlive) == held(rest, Tag::KeepAlive));
                assert(held(after, Tag::Resign) == held(rest, Tag::Resign));
            }
        },
        Completion::KeepAlive { asked } => {
            let result = crate::commissioner::driver::model::keep_alive_result(outcome);
            let published = match result {
                Ok(code) => rest.effect(EffectView::Publish(EventView::KeepAliveResponse(code))),
                Err(_) => rest,
            };
            let replied = match asked {
                Some(id) => published.reply(
                    id,
                    crate::commissioner::driver::parts::ReplyView::KeepAlive(result),
                ),
                None => published,
            };
            assert(held(replied, Tag::Petition) == held(rest, Tag::Petition));
            assert(held(replied, Tag::KeepAlive) == held(rest, Tag::KeepAlive));
            assert(held(replied, Tag::Resign) == held(rest, Tag::Resign));
            assert(consistent(replied));
            if let Some(reason) = crate::commissioner::driver::model::keep_alive_end(result) {
                lemma_push_plain(replied, WorkView::EndSession(reason));
            } else {
                let after = replied.schedule_keep_alive(now);
                assert(held(after, Tag::Petition) == held(rest, Tag::Petition));
                assert(held(after, Tag::KeepAlive) == held(rest, Tag::KeepAlive));
                assert(held(after, Tag::Resign) == held(rest, Tag::Resign));
            }
        },
        Completion::Resign { asked } => {
            let end = WorkView::EndSession(CloseReasonView::Resigned);
            match asked {
                Some(id) => {
                    let reply = WorkView::Reply {
                        id,
                        reply: crate::commissioner::driver::parts::ReplyView::Resign(
                            crate::commissioner::driver::model::resign_result(outcome),
                        ),
                    };
                    lemma_push_plain(rest, reply);
                    lemma_shaped_push(rest.work, reply);
                    lemma_push_plain(rest.push(reply), end);
                },
                None => {
                    lemma_push_plain(rest, end);
                },
            }
        },
    }
}

/// Work that fails everyone who waits, on top of other work.
proof fn lemma_shaped_failures(
    work: Seq<WorkView>,
    completions: Seq<Completion>,
    error: ErrorView,
)
    requires
        shaped(work),
        going_idle(work) ==> forall|i: int|
            0 <= i < completions.len() ==> #[trigger] completions[i] is Caller
                || completions[i] is Petition,
    ensures
        shaped(work + failures(completions, error)),
        going_idle(work + failures(completions, error)) == going_idle(work),
    decreases completions.len(),
{
    if completions.len() == 0 {
        assert(work + failures(completions, error) =~= work);
    } else {
        let shorter = completions.drop_first();
        assert forall|i: int| 0 <= i < shorter.len() implies #[trigger] shorter[i]
            == completions[i + 1] by {}
        lemma_shaped_failures(work, shorter, error);
        let first = WorkView::Complete { completion: completions[0], outcome: Err(error) };
        assert(work + failures(completions, error) =~= (work + failures(shorter, error)).push(
            first,
        ));
        assert(completions[0] == completions[0]);
        lemma_shaped_push(work + failures(shorter, error), first);
    }
}

proof fn lemma_fail_all(session: DriverView, error: ErrorView)
    requires
        shaped(session.work),
        session.waiting is Idle,
        going_idle(session.work) ==> forall|i: int|
            0 <= i < session.exchanges.everyone().len() ==> (
            #[trigger] session.exchanges.everyone()[i]) is Caller
                || session.exchanges.everyone()[i] is Petition,
    ensures
        shaped(session.fail_all(error).work),
        going_idle(session.fail_all(error).work) == going_idle(session.work),
        forall|tag: Tag| #[trigger] held(session.fail_all(error), tag) == held(session, tag),
        matched(session.fail_all(error)),
        limited(session.fail_all(error)),
{
    lemma_shaped_failures(session.work, session.exchanges.everyone(), error);
    assert forall|tag: Tag| #[trigger] held(session.fail_all(error), tag) == held(
        session,
        tag,
    ) by {
        lemma_everyone_gone(tag);
        lemma_work_failures(session.work, session.exchanges.everyone(), error, tag);
    }
    assert(waiting_for(Seq::<PendingView>::empty()) =~= Seq::<Completion>::empty());
}

proof fn lemma_end_session(rest: DriverView, reason: CloseReasonView)
    requires
        ready(rest, WorkView::EndSession(reason)),
    ensures
        consistent(rest.end_session(reason)),
{
    reveal(DriverView::end_session);
    lemma_ready(rest, WorkView::EndSession(reason));
    lemma_rest_is_consistent(rest, WorkView::EndSession(reason));
    if !rest.closed() {
        let closed = DriverView {
            keep_alive_at: None,
            open: false,
            ..rest.set_status(SessionStatusView::Closed { reason })
        }.effect(EffectView::ClearJoiners).effect(EffectView::CloseLink);
        let lost = WorkView::Publish(EventView::SessionLost { reason });
        let (base, error) = if reason is Resigned {
            (closed, ErrorView::SessionClosed)
        } else {
            (closed.push(lost), ErrorView::SessionLost(reason))
        };
        lemma_shaped_push(closed.work, lost);
        lemma_counts();
        lemma_fail_all(base, error);
        let after = base.fail_all(error);
        assert(held(after, Tag::Petition) == held(base, Tag::Petition));
        assert(held(after, Tag::KeepAlive) == held(base, Tag::KeepAlive));
        assert(held(after, Tag::Resign) == held(base, Tag::Resign));
        assert(held(base, Tag::Petition) == held(rest, Tag::Petition));
        assert(held(base, Tag::KeepAlive) == held(rest, Tag::KeepAlive));
        assert(held(base, Tag::Resign) == held(rest, Tag::Resign));
    }
}

proof fn lemma_receive_failed(rest: DriverView, error: ErrorView)
    requires
        ready(rest, WorkView::ReceiveFailed(error)),
    ensures
        consistent(rest.receive_failed(error)),
{
    reveal(DriverView::receive_failed);
    lemma_ready(rest, WorkView::ReceiveFailed(error));
    lemma_rest_is_consistent(rest, WorkView::ReceiveFailed(error));
    lemma_only_in_flight(rest);
    if !rest.closed() {
        lemma_push_plain(rest, WorkView::EndSession(CloseReasonView::PeerClosed));
        lemma_push_plain(
            rest,
            WorkView::EndSession(crate::commissioner::driver::model::transport_reason(error)),
        );
        if rest.status.session_id() is None {
            let base = DriverView { open: false, ..rest }.effect(EffectView::CloseLink).push(
                WorkView::GoIdle,
            );
            let loss = ErrorView::SessionLost(CloseReasonView::PeerClosed);
            lemma_shaped_push(rest.work, WorkView::GoIdle);
            lemma_counts();
            let everyone = rest.exchanges.everyone();
            assert(held(rest, Tag::KeepAlive) == 0);
            assert(held(rest, Tag::Resign) == 0);
            lemma_count_zero(everyone, Tag::KeepAlive);
            lemma_count_zero(everyone, Tag::Resign);
            assert forall|i: int| 0 <= i < everyone.len() implies #[trigger] everyone[i] is Caller
                || everyone[i] is Petition by {
                assert(tagged(everyone[i], Tag::KeepAlive) == 0);
                assert(tagged(everyone[i], Tag::Resign) == 0);
            }
            lemma_fail_all(base, loss);
            let after = base.fail_all(loss);
            assert(held(after, Tag::Petition) == held(base, Tag::Petition));
            assert(held(after, Tag::KeepAlive) == held(base, Tag::KeepAlive));
            assert(held(after, Tag::Resign) == held(base, Tag::Resign));
            assert(held(base, Tag::Petition) == held(rest, Tag::Petition));
            assert(held(base, Tag::KeepAlive) == held(rest, Tag::KeepAlive));
            assert(held(base, Tag::Resign) == held(rest, Tag::Resign));
        }
    }
}

proof fn lemma_push_timers(session: DriverView, index: int, at: u128)
    requires
        consistent(session),
        !going_idle(session.work),
        0 <= index,
    ensures
        consistent(session.push_timers(index, at)),
{
    lemma_push_plain(session, WorkView::SendQueued);
    if index < usize::MAX {
        lemma_push_plain(session, WorkView::ExchangeTimers { index: index as usize, at });
    }
}

proof fn lemma_retransmitted(
    session: DriverView,
    index: usize,
    at: u128,
    result: Result<(), ErrorView>,
)
    requires
        consistent(session),
        !going_idle(session.work),
    ensures
        consistent(session.retransmitted(index, at, result)),
{
    if result is Err {
        lemma_push_plain(
            session,
            WorkView::EndSession(
                crate::commissioner::driver::model::transport_reason(result->Err_0),
            ),
        );
    }
    let exchanges = session.exchanges.retransmitted(index as int, at);
    lemma_retime(session, exchanges);
    let after = DriverView { exchanges, ..session };
    assert(held(after, Tag::Petition) == held(session, Tag::Petition));
    assert(held(after, Tag::KeepAlive) == held(session, Tag::KeepAlive));
    assert(held(after, Tag::Resign) == held(session, Tag::Resign));
    lemma_push_timers(after, index + 1, at);
}

proof fn lemma_exchange_timers(rest: DriverView, index: usize, at: u128)
    requires
        ready(rest, WorkView::ExchangeTimers { index, at }),
    ensures
        consistent(rest.exchange_timers(index, at)),
{
    reveal(DriverView::exchange_timers);
    let work = WorkView::ExchangeTimers { index, at };
    lemma_ready(rest, work);
    lemma_rest_is_consistent(rest, work);
    if !rest.closed() {
        lemma_push_plain(rest, WorkView::SendQueued);
        lemma_push_timers(rest, index + 1, at);
        if index < rest.exchanges.in_flight.len() {
            let pending = rest.exchanges.in_flight[index as int];
            let left = DriverView {
                exchanges: ExchangesView {
                    in_flight: rest.exchanges.in_flight.remove(index as int),
                    ..rest.exchanges
                },
                ..rest
            };
            let expired = WorkView::Complete {
                completion: pending.completion,
                outcome: Err(crate::commissioner::driver::model::timeout_error()),
            };
            lemma_remove(rest, index as int);
            lemma_counts();
            lemma_shaped_push(left.work, work);
            lemma_push(left, work);
            lemma_push(left.push(work), expired);
            assert forall|tag: Tag| #[trigger]
                held(left.push(work), tag) + work_tag(expired, tag) == held(rest, tag) by {
                assert(held(left, tag) + tagged(pending.completion, tag) == held(rest, tag));
            }
            lemma_moved(rest, left.push(work), expired);
            let then = AfterSendView::Retransmit { index, at };
            lemma_transmit(rest, pending.request, pending.destination, then);
            match rest.transmit(pending.request, pending.destination, then) {
                Ok(after) => {
                    assert(held(after, Tag::Petition) == held(rest, Tag::Petition));
                    assert(held(after, Tag::KeepAlive) == held(rest, Tag::KeepAlive));
                    assert(held(after, Tag::Resign) == held(rest, Tag::Resign));
                },
                Err(error) => {
                    lemma_retransmitted(rest, index, at, Err(error));
                },
            }
        }
    }
}

proof fn lemma_application_count(in_flight: Seq<PendingView>)
    ensures
        application_count(in_flight) == count(waiting_for(in_flight), Tag::Application),
    decreases in_flight.len(),
{
    if in_flight.len() > 0 {
        lemma_application_count(in_flight.drop_last());
        assert(waiting_for(in_flight).drop_last() =~= waiting_for(in_flight.drop_last()));
    }
}

proof fn lemma_send_queued(rest: DriverView)
    requires
        ready(rest, WorkView::SendQueued),
    ensures
        consistent(rest.send_queued()),
{
    reveal(DriverView::send_queued);
    lemma_ready(rest, WorkView::SendQueued);
    lemma_rest_is_consistent(rest, WorkView::SendQueued);
    lemma_application_count(rest.exchanges.in_flight);
    if !rest.closed() && rest.exchanges.queued.len() > 0 && application_count(
        rest.exchanges.in_flight,
    ) < 1 {
        let (request, completion) = rest.exchanges.queued[0];
        let fewer = ExchangesView {
            queued: rest.exchanges.queued.drop_first(),
            ..rest.exchanges
        };
        let left = DriverView { exchanges: fewer, ..rest };
        assert(rest.exchanges.queued.remove(0) =~= rest.exchanges.queued.drop_first());
        lemma_everyone_unqueue(rest.exchanges, 0, Tag::Petition);
        lemma_everyone_unqueue(rest.exchanges, 0, Tag::KeepAlive);
        lemma_everyone_unqueue(rest.exchanges, 0, Tag::Resign);
        assert(rest.exchanges.queued[0].1 is Caller);
        assert forall|k: int| 0 <= k < fewer.queued.len() implies (
        #[trigger] fewer.queued[k]).1 is Caller by {
            assert(fewer.queued[k] == rest.exchanges.queued[k + 1]);
        }
        assert(consistent(left));
        lemma_push_plain(left, WorkView::SendQueued);
        lemma_shaped_push(left.work, WorkView::SendQueued);
        lemma_start_control(left.push(WorkView::SendQueued), request, completion);
    }
}

proof fn lemma_relay_outputs(
    rest: DriverView,
    outputs: Seq<RelayOutputView>,
    message: CoapView,
    now: u128,
)
    requires
        ready(rest, WorkView::RelayOutputs { outputs, message }),
    ensures
        consistent(rest.relay_outputs(outputs, message, now)),
{
    reveal(DriverView::relay_outputs);
    let work = WorkView::RelayOutputs { outputs, message };
    lemma_ready(rest, work);
    lemma_rest_is_consistent(rest, work);
    if !rest.closed() {
        if outputs.len() == 0 {
            lemma_answer_notification(
                rest,
                message,
                DestinationView::BorderAgent,
                CoapView::empty(CoapType::Acknowledgement, message.message_id),
                now,
            );
        } else {
            match outputs[0] {
                RelayOutputView::Publish(event) => {
                    lemma_push_plain(
                        rest.effect(EffectView::Publish(event)),
                        WorkView::RelayOutputs { outputs: outputs.drop_first(), message },
                    );
                },
                RelayOutputView::Send(_) => {
                    let after = rest.relay_outputs(outputs, message, now);
                    assert(held(after, Tag::Petition) == held(rest, Tag::Petition));
                    assert(held(after, Tag::KeepAlive) == held(rest, Tag::KeepAlive));
                    assert(held(after, Tag::Resign) == held(rest, Tag::Resign));
                },
            }
        }
    }
}

proof fn lemma_go_idle(rest: DriverView)
    requires
        ready(rest, WorkView::GoIdle),
    ensures
        consistent(rest.set_status(SessionStatusView::Idle)),
{
    lemma_ready(rest, WorkView::GoIdle);
    assert(rest.push(WorkView::GoIdle).work[rest.work.len() as int] is GoIdle);
    lemma_inputs_hold_no_exchange(rest.work, Tag::Petition);
    lemma_inputs_hold_no_exchange(rest.work, Tag::KeepAlive);
    lemma_inputs_hold_no_exchange(rest.work, Tag::Resign);
    assert(rest.exchanges.everyone() =~= Seq::<Completion>::empty());
    let idle = rest.set_status(SessionStatusView::Idle);
    assert(held(idle, Tag::Petition) == 0);
    assert(held(idle, Tag::KeepAlive) == 0);
    assert(held(idle, Tag::Resign) == 0);
}

proof fn lemma_keep_alive_check(rest: DriverView, now: u128)
    requires
        ready(rest, WorkView::KeepAliveCheck),
    ensures
        consistent(rest.keep_alive_check(now)),
{
    reveal(DriverView::keep_alive_check);
    lemma_ready(rest, WorkView::KeepAliveCheck);
    lemma_rest_is_consistent(rest, WorkView::KeepAliveCheck);
    lemma_inputs_hold_no_exchange(rest.work, Tag::KeepAlive);
    if !rest.closed() && rest.keep_alive_at is Some {
        let completion = Completion::KeepAlive { asked: None };
        lemma_send_keep_alive(rest, completion);
    }
}

proof fn lemma_timer(rest: DriverView, now: u128)
    requires
        ready(rest, WorkView::Timer),
    ensures
        consistent(
            rest.push(WorkView::KeepAliveCheck).push(
                WorkView::ExchangeTimers { index: 0, at: now },
            ),
        ),
{
    lemma_ready(rest, WorkView::Timer);
    lemma_rest_is_consistent(rest, WorkView::Timer);
    lemma_inputs_hold_no_exchange(rest.work, Tag::KeepAlive);
    lemma_shaped_push(rest.work, WorkView::KeepAliveCheck);
    lemma_counts();
    let checking = rest.push(WorkView::KeepAliveCheck);
    assert(held(checking, Tag::Petition) == held(rest, Tag::Petition));
    assert(held(checking, Tag::KeepAlive) == held(rest, Tag::KeepAlive));
    assert(held(checking, Tag::Resign) == held(rest, Tag::Resign));
    assert(consistent(checking));
    lemma_push_plain(checking, WorkView::ExchangeTimers { index: 0, at: now });
}

proof fn lemma_perform(rest: DriverView, work: WorkView, now: u128)
    requires
        ready(rest, work),
    ensures
        consistent(rest.perform(work, now)),
{
    match work {
        WorkView::Command(command) => {
            lemma_command(rest, command);
        },
        WorkView::HandlesDropped => {
            reveal(DriverView::drop_handles);
            lemma_ready(rest, work);
            lemma_rest_is_consistent(rest, work);
            lemma_only_in_flight(rest);
            let dropped = DriverView { handles_dropped: true, ..rest };
            assert(held(dropped, Tag::Petition) == held(rest, Tag::Petition));
            assert(held(dropped, Tag::KeepAlive) == held(rest, Tag::KeepAlive));
            assert(held(dropped, Tag::Resign) == held(rest, Tag::Resign));
            assert(consistent(dropped));
            if !rest.closed() && !rest.exchanges.resigning() {
                lemma_resign(dropped, None);
            }
        },
        WorkView::Received(message) => {
            lemma_ready(rest, work);
            lemma_rest_is_consistent(rest, work);
            lemma_only_in_flight(rest);
            lemma_received(rest, message, now);
        },
        WorkView::ReceiveFailed(error) => {
            lemma_receive_failed(rest, error);
        },
        WorkView::Timer => {
            lemma_timer(rest, now);
        },
        WorkView::SendQueued => {
            lemma_send_queued(rest);
        },
        WorkView::Complete { completion, outcome } => {
            lemma_complete(rest, completion, outcome, now);
        },
        WorkView::EndSession(reason) => {
            lemma_end_session(rest, reason);
        },
        WorkView::GoIdle => {
            lemma_go_idle(rest);
        },
        WorkView::Publish(event) => {
            lemma_rest_is_consistent(rest, work);
            lemma_effect(rest, EffectView::Publish(event));
        },
        WorkView::Reply { id, reply } => {
            lemma_rest_is_consistent(rest, work);
            lemma_effect(rest, EffectView::Reply { id, reply });
        },
        WorkView::ExchangeTimers { index, at } => {
            lemma_exchange_timers(rest, index, at);
        },
        WorkView::KeepAliveCheck => {
            lemma_keep_alive_check(rest, now);
        },
        WorkView::RelayOutputs { outputs, message } => {
            lemma_relay_outputs(rest, outputs, message, now);
        },
    }
}

proof fn lemma_effect(session: DriverView, effect: EffectView)
    requires
        consistent(session),
    ensures
        consistent(session.effect(effect)),
{
    let after = session.effect(effect);
    assert(held(after, Tag::Petition) == held(session, Tag::Petition));
    assert(held(after, Tag::KeepAlive) == held(session, Tag::KeepAlive));
    assert(held(after, Tag::Resign) == held(session, Tag::Resign));
}

/// Every step keeps a session consistent.
pub proof fn law_a_step_is_consistent(session: DriverView, now: u128)
    requires
        consistent(session),
        session.busy(),
    ensures
        consistent(session.step(now)),
{
    let rest = DriverView { work: session.work.drop_last(), ..session };
    let work = session.work.last();
    assert(rest.work.push(work) =~= session.work);
    lemma_perform(rest, work, now);
}

/// Whatever a session does keeps it consistent.
pub proof fn law_a_session_is_consistent(session: DriverView, now: u128)
    requires
        consistent(session),
    ensures
        consistent(session.run(now)),
    decreases session.weight(),
{
    if session.busy() {
        crate::commissioner::driver::model::lemma_step_is_lighter(session, now);
        law_a_step_is_consistent(session, now);
        law_a_session_is_consistent(session.step(now), now);
    }
}

/// Input keeps a session consistent.
pub proof fn law_input_is_consistent(session: DriverView, work: WorkView)
    requires
        consistent(session),
        is_input(work),
    ensures
        consistent(session.given(work)),
{
    let all = seq![work] + session.work;
    assert forall|i: int| 0 < i < all.len() implies #[trigger] all[i] == session.work[i - 1] by {}
    assert(all[0] == work);
    assert forall|i: int, j: int|
        0 <= i < j < all.len() && is_low(#[trigger] all[j]) implies is_input(#[trigger] all[i]) by {
        if i > 0 {
            assert(is_low(session.work[j - 1]));
            assert(is_input(session.work[i - 1]));
        }
    }
    assert forall|i: int, j: int|
        0 <= i < j < all.len() && #[trigger] all[i] is GoIdle implies is_quiet(
        #[trigger] all[j],
    ) by {
        assert(i > 0);
        assert(session.work[i - 1] is GoIdle);
        assert(is_quiet(session.work[j - 1]));
    }
    if going_idle(all) {
        let i = choose|i: int| 0 <= i < all.len() && #[trigger] all[i] is GoIdle;
        assert(i > 0);
        assert(session.work[i - 1] is GoIdle);
    }
    if going_idle(session.work) {
        let i = choose|i: int| 0 <= i < session.work.len() && #[trigger] session.work[i] is GoIdle;
        assert(all[i + 1] is GoIdle);
    }
    lemma_work_given(session.work, work, Tag::Petition);
    lemma_work_given(session.work, work, Tag::KeepAlive);
    lemma_work_given(session.work, work, Tag::Resign);
}

proof fn lemma_waiting_stopped(session: DriverView)
    requires
        consistent(session),
        session.waiting !is Idle,
    ensures
        can_start(session.wait(WaitingView::Idle)),
        sound(session.wait(WaitingView::Idle)),
        forall|tag: Tag| #[trigger]
            held(session.wait(WaitingView::Idle), tag) + waiting_held(session.waiting, tag) == held(
                session,
                tag,
            ),
        controlled(session.wait(WaitingView::Idle)),
{
    let stopped = session.wait(WaitingView::Idle);
    assert(held(stopped, Tag::Petition) + waiting_held(session.waiting, Tag::Petition) == held(
        session,
        Tag::Petition,
    ));
    assert(held(stopped, Tag::KeepAlive) + waiting_held(session.waiting, Tag::KeepAlive) == held(
        session,
        Tag::KeepAlive,
    ));
    assert(held(stopped, Tag::Resign) + waiting_held(session.waiting, Tag::Resign) == held(
        session,
        Tag::Resign,
    ));
}

/// A token keeps a session consistent.
pub proof fn law_a_token_is_consistent(session: DriverView, token: Seq<u8>)
    requires
        consistent(session),
    ensures
        consistent(session.with_token(token)),
{
    if !session.exchanges.uses_token(token) {
        match session.waiting {
            WaitingView::RequestToken { request, completion } => {
                let stopped = session.wait(WaitingView::Idle);
                let named = OutboundView {
                    message: CoapView { token, ..request.message },
                    ..request
                };
                let then = AfterSendView::Track { request: named, completion };
                lemma_waiting_stopped(session);
                lemma_transmit(stopped, named.message, named.destination, then);
                match stopped.transmit(named.message, named.destination, then) {
                    Ok(after) => {
                        assert(session.transmit(named.message, named.destination, then) == Ok::<
                            DriverView,
                            ErrorView,
                        >(after));
                        assert(held(after, Tag::Petition) == held(session, Tag::Petition)) by {
                            assert(held(stopped, Tag::Petition) + waiting_held(
                                session.waiting,
                                Tag::Petition,
                            ) == held(session, Tag::Petition));
                        }
                        assert(held(after, Tag::KeepAlive) == held(session, Tag::KeepAlive)) by {
                            assert(held(stopped, Tag::KeepAlive) + waiting_held(
                                session.waiting,
                                Tag::KeepAlive,
                            ) == held(session, Tag::KeepAlive));
                        }
                        assert(held(after, Tag::Resign) == held(session, Tag::Resign)) by {
                            assert(held(stopped, Tag::Resign) + waiting_held(
                                session.waiting,
                                Tag::Resign,
                            ) == held(session, Tag::Resign));
                        }
                    },
                    Err(error) => {
                        let work = WorkView::Complete { completion, outcome: Err(error) };
                        lemma_push(stopped, work);
                        lemma_moved(session, stopped, work);
                    },
                }
            },
            WaitingView::WireToken { wire, then } => {
                let after = session.with_token(token);
                assert(held(after, Tag::Petition) == held(session, Tag::Petition));
                assert(held(after, Tag::KeepAlive) == held(session, Tag::KeepAlive));
                assert(held(after, Tag::Resign) == held(session, Tag::Resign));
            },
            _ => {},
        }
    }
}

/// How a sending ended keeps a session consistent.
pub proof fn law_a_sending_is_consistent(
    session: DriverView,
    result: Result<(), ErrorView>,
    now: u128,
    random: u32,
)
    requires
        consistent(session),
    ensures
        consistent(session.sent(result, now, random)),
{
    if let WaitingView::Send { then, .. } = session.waiting {
        let stopped = session.wait(WaitingView::Idle);
        lemma_waiting_stopped(session);
        assert(consistent(stopped));
        match (then, result) {
            (AfterSendView::Track { request, completion }, Err(error)) => {
                let work = WorkView::Complete { completion, outcome: Err(error) };
                lemma_push(stopped, work);
                lemma_moved(session, stopped, work);
                lemma_shaped_push(stopped.work, work);
                lemma_route_failed(stopped.push(work), error);
            },
            (AfterSendView::Track { request, completion }, Ok(_)) => {
                let work = WorkView::Complete { completion, outcome: Ok(None) };
                lemma_push(stopped, work);
                lemma_moved(session, stopped, work);
                lemma_track(session, stopped, PendingView::sent(request, completion, now, random));
            },
            (AfterSendView::Retransmit { index, at }, result) => {
                lemma_retransmitted(stopped, index, at, result);
            },
            (AfterSendView::Answer { completion, response }, Ok(_)) => {
                let work = WorkView::Complete { completion, outcome: Ok(Some(response)) };
                lemma_push(stopped, work);
                lemma_moved(session, stopped, work);
            },
            (AfterSendView::Answer { completion, .. }, Err(error)) => {
                if let Some(effect) = crate::commissioner::driver::model::given_up(completion) {
                    lemma_effect(stopped, effect);
                }
                lemma_route_failed(stopped.give_up(completion), error);
            },
            (AfterSendView::Relay { outputs, message }, Ok(_)) => {
                lemma_push_plain(stopped, WorkView::RelayOutputs { outputs, message });
            },
            (AfterSendView::Routed, Ok(_)) => {},
            (_, Err(error)) => {
                lemma_route_failed(stopped, error);
            },
        }
    }
}

proof fn lemma_track(session: DriverView, stopped: DriverView, pending: PendingView)
    requires
        consistent(session),
        stopped == session.wait(WaitingView::Idle),
        consistent(stopped),
        session.waiting matches WaitingView::Send {
            then: AfterSendView::Track { request, completion },
            ..
        } && completion == pending.completion && request.message == pending.request,
    ensures
        consistent(
            DriverView {
                exchanges: ExchangesView {
                    in_flight: session.exchanges.in_flight.push(pending),
                    ..session.exchanges
                },
                ..stopped
            },
        ),
{
    let more = ExchangesView {
        in_flight: session.exchanges.in_flight.push(pending),
        ..session.exchanges
    };
    let after = DriverView { exchanges: more, ..stopped };
    lemma_waiting_stopped(session);
    lemma_everyone_track(session.exchanges, pending, Tag::Petition);
    lemma_everyone_track(session.exchanges, pending, Tag::KeepAlive);
    lemma_everyone_track(session.exchanges, pending, Tag::Resign);
    assert(held(after, Tag::Petition) == held(session, Tag::Petition));
    assert(held(after, Tag::KeepAlive) == held(session, Tag::KeepAlive));
    assert(held(after, Tag::Resign) == held(session, Tag::Resign));
    let before = waiting_for(session.exchanges.in_flight);
    assert(waiting_for(more.in_flight) =~= before.push(pending.completion));
    crate::commissioner::driver::laws::lemma_count_push(
        before,
        pending.completion,
        Tag::Application,
    );
    assert forall|a: int, b: int| 0 <= a < b < more.in_flight.len() implies (
    #[trigger] more.in_flight[a]).request.token != (
    #[trigger] more.in_flight[b]).request.token by {
        assert(more.in_flight[a] == session.exchanges.in_flight[a]);
        if b < session.exchanges.in_flight.len() {
            assert(more.in_flight[b] == session.exchanges.in_flight[b]);
        } else {
            assert(!session.exchanges.uses_token(pending.request.token));
            assert(session.exchanges.in_flight[a].request.token != pending.request.token);
        }
    }
}

/// How a reopening ended keeps a session consistent.
pub proof fn law_a_reopening_is_consistent(session: DriverView, result: Result<(), ErrorView>)
    requires
        consistent(session),
    ensures
        consistent(session.reopened(result)),
{
    if let WaitingView::Reopen(then) = session.waiting {
        let stopped = session.wait(WaitingView::Idle);
        lemma_waiting_stopped(session);
        assert(consistent(stopped));
        match (then, result) {
            (AfterReopenView::Submit { id, .. }, Err(error)) => {
                lemma_effect(
                    stopped,
                    EffectView::Reply {
                        id,
                        reply: crate::commissioner::driver::parts::ReplyView::Exchange(
                            Err(error),
                        ),
                    },
                );
            },
            (AfterReopenView::Petition { id }, Err(error)) => {
                lemma_effect(
                    stopped,
                    EffectView::Reply {
                        id,
                        reply: crate::commissioner::driver::parts::ReplyView::Petition(
                            Err(error),
                        ),
                    },
                );
            },
            (then, Ok(_)) => {
                let connected = DriverView {
                    open: true,
                    answered: crate::commissioner::duplicates::from_the_mesh(session.answered),
                    ..stopped
                }.set_status(SessionStatusView::Connected);
                assert(held(connected, Tag::Petition) == held(stopped, Tag::Petition));
                assert(held(connected, Tag::KeepAlive) == held(stopped, Tag::KeepAlive));
                assert(held(connected, Tag::Resign) == held(stopped, Tag::Resign));
                assert(consistent(connected));
                match then {
                    AfterReopenView::Submit { id, request } => {
                        lemma_submit(connected, id, request);
                    },
                    AfterReopenView::Petition { id } => {
                        lemma_start_petition(connected, id);
                    },
                }
            },
        }
    }
}

/// What a joiner session asks for keeps a session consistent.
pub proof fn law_a_relay_is_consistent(
    session: DriverView,
    result: Result<Seq<RelayOutputView>, ErrorView>,
)
    requires
        consistent(session),
    ensures
        consistent(session.relayed(result)),
{
    if let WaitingView::Relay { message, .. } = session.waiting {
        let stopped = session.wait(WaitingView::Idle);
        lemma_waiting_stopped(session);
        assert(consistent(stopped));
        match result {
            Ok(outputs) => {
                lemma_push_plain(stopped, WorkView::RelayOutputs { outputs, message });
            },
            Err(error) => {
                lemma_route_failed(stopped, error);
            },
        }
    }
}

/// Telling the outside what happened keeps a session consistent.
pub proof fn law_telling_is_consistent(session: DriverView)
    requires
        consistent(session),
    ensures
        consistent(DriverView { effects: Seq::empty(), ..session }),
{
    let told = DriverView { effects: Seq::empty(), ..session };
    assert(held(told, Tag::Petition) == held(session, Tag::Petition));
    assert(held(told, Tag::KeepAlive) == held(session, Tag::KeepAlive));
    assert(held(told, Tag::Resign) == held(session, Tag::Resign));
}

/// At most one application exchange is in flight, and at most one petition,
/// one keep-alive and one resignation.
pub proof fn law_in_flight_limits(session: DriverView)
    requires
        consistent(session),
    ensures
        application_count(session.exchanges.in_flight) <= 1,
        count(waiting_for(session.exchanges.in_flight), Tag::Petition) <= 1,
        count(waiting_for(session.exchanges.in_flight), Tag::KeepAlive) <= 1,
        count(waiting_for(session.exchanges.in_flight), Tag::Resign) <= 1,
{
    let in_flight = waiting_for(session.exchanges.in_flight);
    let queued = waiting_in(session.exchanges.queued);
    lemma_application_count(session.exchanges.in_flight);
    crate::commissioner::driver::laws::lemma_count_add(in_flight, queued, Tag::Petition);
    crate::commissioner::driver::laws::lemma_count_add(in_flight, queued, Tag::KeepAlive);
    crate::commissioner::driver::laws::lemma_count_add(in_flight, queued, Tag::Resign);
}

/// A response answers one exchange at most: no two exchanges on its route
/// carry its token.
pub proof fn law_a_response_answers_one_exchange(
    session: DriverView,
    response: CoapView,
    i: int,
    j: int,
)
    requires
        consistent(session),
        response.ty != CoapType::Reset,
        0 <= i < session.exchanges.in_flight.len(),
        0 <= j < session.exchanges.in_flight.len(),
        session.exchanges.in_flight[i].answered_by(response, false)
            || session.exchanges.in_flight[i].answered_by(response, true),
        session.exchanges.in_flight[j].answered_by(response, false)
            || session.exchanges.in_flight[j].answered_by(response, true),
    ensures
        i == j,
{
    let in_flight = session.exchanges.in_flight;
    if i < j {
        assert(in_flight[i].request.token != in_flight[j].request.token);
    } else if j < i {
        assert(in_flight[j].request.token != in_flight[i].request.token);
    }
}

/// Once a session has ended, every request is answered: none is left in
/// flight, queued or to be worked on, and whatever was owed was given.
pub proof fn law_an_ended_session_has_answered_everyone(session: DriverView, now: u128, id: u64)
    requires
        consistent(session),
        session.run(now).closed(),
        crate::commissioner::driver::laws::not_withdrawn(session.work, id),
    ensures
        held(session.run(now), Tag::Request(id)) == 0,
        crate::commissioner::driver::laws::replies(session.run(now).effects, id)
            == crate::commissioner::driver::laws::accounted(session, id),
{
    let after = session.run(now);
    law_a_session_is_consistent(session, now);
    crate::commissioner::driver::laws::law_a_session_answers_or_owes(session, now, id);
    lemma_run_is_done(session, now);
    assert(after.exchanges.everyone() =~= Seq::<Completion>::empty());
    assert(after.work =~= Seq::<WorkView>::empty());
}

/// A session that has done everything it can is not busy.
pub proof fn lemma_run_is_done(session: DriverView, now: u128)
    ensures
        !session.run(now).busy(),
    decreases session.weight(),
{
    if session.busy() {
        crate::commissioner::driver::model::lemma_step_is_lighter(session, now);
        lemma_run_is_done(session.step(now), now);
    }
}

/// An ended session stays ended: nothing changes its status.
pub proof fn law_an_ended_session_stays_ended(session: DriverView, now: u128)
    requires
        consistent(session),
        session.closed(),
    ensures
        session.run(now).status == session.status,
    decreases session.weight(),
{
    if session.busy() {
        crate::commissioner::driver::model::lemma_step_is_lighter(session, now);
        law_a_step_is_consistent(session, now);
        let rest = DriverView { work: session.work.drop_last(), ..session };
        let work = session.work.last();
        lemma_closed_step(session, now);
        law_an_ended_session_stays_ended(session.step(now), now);
    }
}

pub(crate) proof fn lemma_closed_step(session: DriverView, now: u128)
    requires
        consistent(session),
        session.closed(),
        session.busy(),
    ensures
        session.step(now).status == session.status,
{
    let rest = DriverView { work: session.work.drop_last(), ..session };
    let work = session.work.last();
    assert(session.work[session.work.len() - 1] == work);
    match work {
        WorkView::Command(command) => {
            reveal(DriverView::command);
        },
        WorkView::HandlesDropped => {
            reveal(DriverView::drop_handles);
        },
        WorkView::Received(_) => {
            reveal(DriverView::received);
        },
        WorkView::ReceiveFailed(_) => {
            reveal(DriverView::receive_failed);
        },
        WorkView::SendQueued => {
            reveal(DriverView::send_queued);
        },
        WorkView::Complete { .. } => {
            reveal(DriverView::complete);
        },
        WorkView::EndSession(_) => {
            reveal(DriverView::end_session);
        },
        WorkView::ExchangeTimers { .. } => {
            reveal(DriverView::exchange_timers);
        },
        WorkView::KeepAliveCheck => {
            reveal(DriverView::keep_alive_check);
        },
        WorkView::RelayOutputs { .. } => {
            reveal(DriverView::relay_outputs);
        },
        _ => {},
    }
}

/// Once a resignation is outstanding, new requests, keep-alives and
/// resignations are refused, and nothing else happens.
pub proof fn law_nothing_new_while_resigning(session: DriverView, id: u64, request: OutboundView)
    requires
        session.exchanges.resigning(),
        session.status is Active,
    ensures
        session.command(CommandView::Exchange { id, request }) == session.reply(
            id,
            crate::commissioner::driver::parts::ReplyView::Exchange(
                Err(crate::commissioner::driver::model::resigning_error()),
            ),
        ),
        session.command(CommandView::KeepAlive { id }) == session.reply(
            id,
            crate::commissioner::driver::parts::ReplyView::KeepAlive(
                Err(crate::commissioner::driver::model::resigning_error()),
            ),
        ),
        session.command(CommandView::Resign { id }) == session.reply(
            id,
            crate::commissioner::driver::parts::ReplyView::Resign(
                Err(crate::commissioner::driver::model::resigning_error()),
            ),
        ),
{
    reveal(DriverView::command);
}

/// A second keep-alive is refused while one is outstanding.
pub proof fn law_one_keep_alive_at_a_time(session: DriverView, id: u64)
    requires
        session.status is Active,
        session.exchanges.keep_alive_outstanding(),
        !session.exchanges.resigning(),
    ensures
        session.command(CommandView::KeepAlive { id }) == session.reply(
            id,
            crate::commissioner::driver::parts::ReplyView::KeepAlive(
                Err(ErrorView::InvalidState("a keep-alive is already outstanding"@)),
            ),
        ),
{
    reveal(DriverView::command);
}

/// A keep-alive that is due is sent at once, whatever is in flight or queued.
pub proof fn law_a_due_keep_alive_is_not_delayed(session: DriverView, session_id: u16, now: u128)
    requires
        session.status == (SessionStatusView::Active { session_id }),
        session.keep_alive_at is Some,
        session.keep_alive_at->0 <= now,
    ensures
        session.keep_alive_check(now).waiting matches WaitingView::RequestToken {
            request,
            completion,
        } && completion == (Completion::KeepAlive { asked: None }) && request.message == (CoapView {
            message_id: session.identified().next_message_id,
            ..crate::commissioner::messages::keep_alive(session_id, true)
        }),
        session.keep_alive_check(now).exchanges == session.exchanges,
{
    reveal(DriverView::keep_alive_check);
}

/// Application requests are sent in the order in which they were queued, one
/// as soon as none is in flight.
pub proof fn law_requests_take_turns(session: DriverView)
    requires
        !session.closed(),
        session.exchanges.queued.len() > 0,
    ensures
        application_count(session.exchanges.in_flight) >= 1 ==> session.send_queued() == session,
        application_count(session.exchanges.in_flight) == 0 ==> {
            &&& session.send_queued().exchanges.queued == session.exchanges.queued.drop_first()
            &&& session.send_queued().waiting matches WaitingView::RequestToken {
                request,
                completion,
            } && completion == session.exchanges.queued[0].1 && request == (OutboundView {
                message: CoapView {
                    message_id: session.identified().next_message_id,
                    ..session.exchanges.queued[0].0.message
                },
                ..session.exchanges.queued[0].0
            })
        },
{
    reveal(DriverView::send_queued);
}

/// A request that was withdrawn while queued or in flight is gone: it is never
/// sent, or sent again, and its place is free.
pub proof fn law_a_withdrawn_request_is_gone(session: DriverView, id: u64)
    requires
        count(session.exchanges.everyone(), Tag::Request(id)) == 1,
        session.exchanges.without(id) is Some,
    ensures
        count(
            session.command(CommandView::Withdraw { id }).exchanges.everyone(),
            Tag::Request(id),
        ) == 0,
{
    reveal(DriverView::command);
    let exchanges = session.exchanges;
    lemma_position_bounds(
        exchanges.queued,
        |q: (OutboundView, Completion)| q.1 == Completion::Caller { id },
    );
    lemma_position_bounds(
        exchanges.in_flight,
        |p: PendingView| p.completion == Completion::Caller { id },
    );
    if let Some(i) = exchanges.queue_position(id) {
        lemma_everyone_unqueue(exchanges, i, Tag::Request(id));
    } else if let Some(i) = exchanges.flight_position(id) {
        lemma_everyone_remove(exchanges, i, Tag::Request(id));
    }
}

/// A token that an exchange in flight uses is not taken.
pub proof fn law_a_used_token_is_not_taken(session: DriverView, token: Seq<u8>)
    requires
        session.exchanges.uses_token(token),
    ensures
        session.with_token(token) == session,
{
}

} // verus!
