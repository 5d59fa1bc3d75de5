//! The session driver.

use vstd::prelude::*;

use crate::bytes::views;
use crate::commissioner::coap::{CoapMessage, CoapType};
use crate::commissioner::config::{CommissionerConfig, KeepAlive};
use crate::commissioner::driver::consistency::{
    consistent, law_a_relay_is_consistent, law_a_reopening_is_consistent,
    law_a_sending_is_consistent, law_a_session_is_consistent, law_a_token_is_consistent,
    law_input_is_consistent, law_telling_is_consistent, lemma_new_is_consistent,
};
use crate::commissioner::driver::laws::is_input;
use crate::commissioner::driver::model::{
    failures, keep_alive_end, keep_alive_result, petition_result, resign_result, transport_reason,
    DriverView,
};
use crate::commissioner::driver::parts::{
    petition_view, relay_view, result_view, AfterReopen, AfterSend, Command, DriverAction, Effect,
    EffectView, Outcome, RelayOutput, Reply, Waiting, WaitingView, Work, WorkView,
};
use crate::commissioner::duplicates::AnsweredMessages;
use crate::commissioner::error::{Error, ErrorView};
use crate::commissioner::exchange::{
    after, earlier_of, random_number, random_token, Completion, Exchanges, ExchangesView,
    Outbound, Pending, MAX_APPLICATION_IN_FLIGHT,
};
use crate::commissioner::messages::{
    keep_alive_request, outcome_view, parse_notification, parse_petition_response,
    parse_state_response, parse_udp_rx, petition_request, response_required,
    result_code_from_meshcop_state, udp_tx_request, MeshcopNotification, MeshcopState,
    DEFAULT_MM_PORT,
};
use crate::commissioner::types::{
    CloseReason, CommissionerEvent, Destination, PetitionResponse, ResultCode, SessionStatus,
    SessionStatusView,
};

verus! {

/// A commissioner session.
///
/// Commands, datagrams and timers go in with the methods that take them;
/// [`Driver::next`] then says what to do, until it says that the session
/// rests. What the outside has to be told is taken with
/// [`Driver::take_effects`] before each action is carried out.
#[derive(Debug)]
pub struct Driver {
    commissioner_id: String,
    keep_alive: KeepAlive,
    keepalive_interval: u128,
    status: SessionStatus,
    open: bool,
    next_message_id: u16,
    exchanges: Exchanges,
    keep_alive_at: Option<u128>,
    handles_joiners: bool,
    handles_dropped: bool,
    answered: AnsweredMessages,
    work: Vec<Work>,
    waiting: Waiting,
    effects: Vec<Effect>,
}

impl View for Driver {
    type V = DriverView;

    closed spec fn view(&self) -> DriverView {
        DriverView {
            commissioner_id: self.commissioner_id@,
            keep_alive: self.keep_alive,
            keepalive_interval: self.keepalive_interval,
            status: self.status@,
            open: self.open,
            next_message_id: self.next_message_id,
            exchanges: self.exchanges@,
            keep_alive_at: self.keep_alive_at,
            handles_joiners: self.handles_joiners,
            handles_dropped: self.handles_dropped,
            answered: self.answered@,
            work: views(self.work@),
            waiting: self.waiting@,
            effects: views(self.effects@),
        }
    }
}

/// The result of a petition; its response is taken from the outcome.
fn petition_of(outcome: Outcome) -> (result: Result<PetitionResponse, Error>)
    ensures
        petition_view(result) == petition_result(outcome_view(outcome)),
{
    match response_required(outcome) {
        Err(error) => Err(error),
        Ok(response) => match parse_petition_response(&response) {
            Err(error) => Err(error),
            Ok(answer) => match answer.state {
                MeshcopState::Accept => match answer.session_id {
                    Some(session_id) => Ok(
                        PetitionResponse {
                            session_id,
                            existing_commissioner_id: answer.existing_commissioner_id,
                        },
                    ),
                    None => Err(Error::InvalidState("petition accepted without a session ID")),
                },
                MeshcopState::Pending => Err(Error::InvalidState("petition response is pending")),
                MeshcopState::Reject => Err(
                    Error::PetitionRejected {
                        existing_commissioner_id: answer.existing_commissioner_id,
                    },
                ),
            },
        },
    }
}

/// The result of a keep-alive.
fn keep_alive_of(outcome: Outcome) -> (result: Result<ResultCode, Error>)
    ensures
        result_view(result) == keep_alive_result(outcome_view(outcome)),
{
    match response_required(outcome) {
        Err(error) => Err(error),
        Ok(response) => match parse_state_response(&response, true) {
            Err(error) => Err(error),
            Ok(Some(state)) => Ok(result_code_from_meshcop_state(state)),
            Ok(None) => Err(Error::InvalidState("keepalive response did not include state")),
        },
    }
}

/// Why a keep-alive with this result ends the session, if it does.
fn keep_alive_end_of(result: &Result<ResultCode, Error>) -> (end: Option<CloseReason>)
    ensures
        match (end, keep_alive_end(result_view(*result))) {
            (Some(reason), Some(expected)) => reason@ == expected,
            (None, None) => true,
            _ => false,
        },
{
    match result {
        Ok(ResultCode::Accept) => None,
        Ok(ResultCode::Reject) => Some(CloseReason::KeepAliveRejected),
        Ok(ResultCode::Pending) => Some(CloseReason::KeepAlivePending),
        Err(error) => Some(CloseReason::KeepAliveFailed { error: error.message() }),
    }
}

/// The result of a resignation.
fn resignation_of(outcome: Outcome) -> (result: Result<(), Error>)
    ensures
        result_view(result) == resign_result(outcome_view(outcome)),
{
    match response_required(outcome) {
        Err(error) => Err(error),
        Ok(response) => match parse_state_response(&response, true) {
            Err(error) => Err(error),
            Ok(Some(MeshcopState::Pending)) => Err(
                Error::InvalidState("resign response is pending"),
            ),
            Ok(_) => Ok(()),
        },
    }
}

/// Why the session ends where the transport failed.
fn transport_reason_of(error: &Error) -> (reason: CloseReason)
    ensures
        reason@ == transport_reason(error@),
{
    CloseReason::TransportFailed { error: error.message() }
}

/// A session-control request.
fn control_request(message: CoapMessage) -> (request: Outbound)
    ensures
        request@ == crate::commissioner::driver::model::control_request(message@),
{
    Outbound { message, destination: Destination::BorderAgent, expect_response: true }
}

/// The error of requests that end with the session.
spec fn loss(lost: Option<CloseReason>) -> ErrorView {
    match lost {
        Some(reason) => ErrorView::SessionLost(reason@),
        None => ErrorView::SessionClosed,
    }
}

impl Driver {
    /// A session over an open link that has not petitioned.
    pub fn new(config: &CommissionerConfig) -> (driver: Self)
        ensures
            driver@ == (DriverView {
                commissioner_id: config@.commissioner_id,
                keep_alive: config@.keep_alive,
                keepalive_interval: config@.keepalive_interval,
                status: SessionStatusView::Connected,
                open: true,
                next_message_id: 0,
                exchanges: ExchangesView { in_flight: Seq::empty(), queued: Seq::empty() },
                keep_alive_at: None,
                handles_joiners: false,
                handles_dropped: false,
                answered: Seq::empty(),
                work: Seq::empty(),
                waiting: WaitingView::Idle,
                effects: Seq::empty(),
            }),
            consistent(driver@),
    {
        let driver = Driver {
            commissioner_id: config.commissioner_id.clone(),
            keep_alive: config.keep_alive,
            keepalive_interval: config.keepalive_interval,
            status: SessionStatus::Connected,
            open: true,
            next_message_id: 0,
            exchanges: Exchanges::new(),
            keep_alive_at: None,
            handles_joiners: false,
            handles_dropped: false,
            answered: AnsweredMessages::new(),
            work: Vec::new(),
            waiting: Waiting::Idle,
            effects: Vec::new(),
        };
        proof {
            assert(driver@.work =~= Seq::<WorkView>::empty());
            assert(driver@.effects =~= Seq::<EffectView>::empty());
            lemma_new_is_consistent(driver@);
        }
        driver
    }

    /// Where the session stands.
    pub fn status(&self) -> (status: SessionStatus)
        ensures
            status@ == self@.status,
    {
        self.status.clone()
    }

    /// The commissioner session ID while the session is active.
    pub fn session_id(&self) -> (id: Option<u16>)
        ensures
            id == self@.status.session_id(),
    {
        self.status.session_id()
    }

    /// Whether the session has ended.
    pub fn is_closed(&self) -> (closed: bool)
        ensures
            closed == self@.closed(),
    {
        match self.status {
            SessionStatus::Closed { .. } => true,
            _ => false,
        }
    }

    /// Whether there are still handles that may send commands.
    pub fn accepts_commands(&self) -> (accepts: bool)
        ensures
            accepts == !self@.handles_dropped,
    {
        !self.handles_dropped
    }

    /// When the session has to look at its timers next.
    pub fn next_deadline(&self) -> (deadline: Option<u128>)
        ensures
            deadline == self@.next_deadline(),
    {
        earlier_of(self.exchanges.next_deadline(), self.keep_alive_at)
    }

    /// Takes what the outside has to be told, in order.
    pub fn take_effects(&mut self) -> (effects: Vec<Effect>)
        ensures
            views(effects@) == old(self)@.effects,
            final(self)@ == (DriverView { effects: Seq::empty(), ..old(self)@ }),
            consistent(old(self)@) ==> consistent(final(self)@),
    {
        proof {
            if consistent(self@) {
                law_telling_is_consistent(self@);
            }
        }
        let mut effects: Vec<Effect> = Vec::new();
        core::mem::swap(&mut effects, &mut self.effects);
        assert(self@.effects =~= Seq::<EffectView>::empty());
        effects
    }

    /// Puts new work behind all the work there is.
    fn give(&mut self, work: Work)
        requires
            is_input(work@),
        ensures
            final(self)@ == old(self)@.given(work@),
            consistent(old(self)@) ==> consistent(final(self)@),
    {
        proof {
            if consistent(self@) {
                law_input_is_consistent(self@, work@);
            }
        }
        self.work.insert(0, work);
        assert(self@.work =~= old(self)@.given(work@).work);
    }

    /// Takes a command of a handle.
    pub fn command(&mut self, command: Command)
        ensures
            final(self)@ == old(self)@.given(WorkView::Command(command@)),
            consistent(old(self)@) ==> consistent(final(self)@),
    {
        self.give(Work::Command(command));
    }

    /// Every handle has been dropped.
    pub fn handles_dropped(&mut self)
        ensures
            final(self)@ == old(self)@.given(WorkView::HandlesDropped),
            consistent(old(self)@) ==> consistent(final(self)@),
    {
        self.give(Work::HandlesDropped);
    }

    /// Takes the plaintext of a datagram. One that is not a message is
    /// dropped.
    pub fn datagram(&mut self, plaintext: &[u8])
        ensures
            final(self)@ == match crate::commissioner::coap::message_in(plaintext@) {
                Some(message) => old(self)@.given(WorkView::Received(message)),
                None => old(self)@,
            },
            consistent(old(self)@) ==> consistent(final(self)@),
    {
        if let Ok(message) = CoapMessage::decode(plaintext) {
            self.give(Work::Received(message));
        }
    }

    /// Receiving failed.
    pub fn receive_failed(&mut self, error: Error)
        ensures
            final(self)@ == old(self)@.given(WorkView::ReceiveFailed(error@)),
            consistent(old(self)@) ==> consistent(final(self)@),
    {
        self.give(Work::ReceiveFailed(error));
    }

    /// A timer is due.
    pub fn timer(&mut self)
        ensures
            final(self)@ == old(self)@.given(WorkView::Timer),
            consistent(old(self)@) ==> consistent(final(self)@),
    {
        self.give(Work::Timer);
    }

    fn effect(&mut self, effect: Effect)
        ensures
            final(self)@ == old(self)@.effect(effect@),
    {
        proof {
            assert(views(self.effects@.push(effect)) =~= views(self.effects@).push(effect@));
        }
        self.effects.push(effect);
    }

    fn reply(&mut self, id: u64, reply: Reply)
        ensures
            final(self)@ == old(self)@.reply(id, reply@),
    {
        self.effect(Effect::Reply { id, reply });
    }

    fn push(&mut self, work: Work)
        ensures
            final(self)@ == old(self)@.push(work@),
    {
        proof {
            assert(views(self.work@.push(work)) =~= views(self.work@).push(work@));
        }
        self.work.push(work);
    }

    fn set_status(&mut self, status: SessionStatus)
        ensures
            final(self)@ == old(self)@.set_status(status@),
    {
        self.status = status.clone();
        self.effect(Effect::Status(status));
    }

    fn identify(&mut self)
        ensures
            final(self)@ == old(self)@.identified(),
    {
        self.next_message_id = self.next_message_id.wrapping_add(1);
    }

    /// Takes a message ID for the request and asks for a token.
    fn start(&mut self, request: Outbound, completion: Completion)
        ensures
            final(self)@ == old(self)@.start(request@, completion),
    {
        self.identify();
        let mut named = request;
        named.message.message_id = self.next_message_id;
        self.waiting = Waiting::RequestToken { request: named, completion };
    }

    /// Puts a message on the wire: the message itself, or a UDP_TX
    /// encapsulation with a fresh outer identity.
    fn transmit(&mut self, message: CoapMessage, destination: Destination, then: AfterSend)
        -> (result: Result<(), Error>)
        ensures
            match (result, old(self)@.transmit(message@, destination@, then@)) {
                (Ok(_), Ok(expected)) => final(self)@ == expected,
                (Err(error), Err(expected)) => error@ == expected && final(self)@ == old(self)@,
                _ => false,
            },
    {
        match destination {
            Destination::BorderAgent => {
                self.waiting = Waiting::Send { wire: message, then };
                Ok(())
            },
            Destination::Mesh { address, port } => {
                let inner = match message.encode() {
                    Err(error) => {
                        return Err(error);
                    },
                    Ok(inner) => inner,
                };
                match udp_tx_request(address, port, inner.as_slice()) {
                    Err(error) => Err(error),
                    Ok(outer) => {
                        self.identify();
                        let mut wire = outer;
                        wire.message_id = self.next_message_id;
                        self.waiting = Waiting::WireToken { wire, then };
                        Ok(())
                    },
                }
            },
        }
    }

    /// Takes what the driver waits for.
    fn take_waiting(&mut self) -> (waiting: Waiting)
        ensures
            waiting@ == old(self)@.waiting,
            final(self)@ == old(self)@.wait(WaitingView::Idle),
    {
        let mut waiting = Waiting::Idle;
        core::mem::swap(&mut waiting, &mut self.waiting);
        waiting
    }

    /// Uses a token for what waits for one. A token that an exchange in
    /// flight uses is not taken: another has to be drawn.
    pub fn token(&mut self, token: [u8; 4])
        ensures
            final(self)@ == old(self)@.with_token(token@),
            consistent(old(self)@) ==> consistent(final(self)@),
    {
        proof {
            if consistent(self@) {
                law_a_token_is_consistent(self@, token@);
            }
        }
        if self.exchanges.uses_token(token.as_slice()) {
            return ;
        }
        match self.take_waiting() {
            Waiting::RequestToken { request, completion } => {
                let mut named = request;
                named.message.token = crate::bytes::copy_all(token.as_slice());
                let message = named.message.clone();
                let destination = named.destination;
                let then = AfterSend::Track { request: named, completion };
                match self.transmit(message, destination, then) {
                    Ok(_) => {},
                    Err(error) => {
                        self.push(Work::Complete { completion, outcome: Err(error) });
                    },
                }
            },
            Waiting::WireToken { wire, then } => {
                let mut named = wire;
                named.token = crate::bytes::copy_all(token.as_slice());
                self.waiting = Waiting::Send { wire: named, then };
            },
            other => {
                self.waiting = other;
            },
        }
    }

    /// Whether a token is waited for.
    fn needs_token(&self) -> (needed: bool)
        ensures
            needed == self@.needs_token(),
    {
        match self.waiting {
            Waiting::RequestToken { .. } => true,
            Waiting::WireToken { .. } => true,
            _ => false,
        }
    }

    /// Draws a token from the operating system for what waits for one, and
    /// uses it. Where an exchange in flight uses it, [`Self::next`] asks for
    /// another.
    ///
    /// Says `false` only where a token is waited for and the operating system
    /// gave none; nothing is done then. Where none is waited for, none is
    /// drawn and nothing changes.
    pub fn draw_token(&mut self) -> (drawn: bool)
        ensures
            !old(self)@.needs_token() ==> drawn && final(self)@ == old(self)@,
            !drawn ==> final(self)@ == old(self)@,
            drawn && old(self)@.needs_token() ==> exists|token: Seq<u8>|
                token.len() == 4 && final(self)@ == #[trigger] old(self)@.with_token(token),
            consistent(old(self)@) ==> consistent(final(self)@),
    {
        if !self.needs_token() {
            return true;
        }
        match random_token() {
            None => false,
            Some(token) => {
                self.token(token);
                true
            },
        }
    }

    /// The message was not routed: a transport failure ends the session,
    /// another error drops the message.
    fn route_failed(&mut self, error: Error)
        ensures
            final(self)@ == old(self)@.route_failed(error@),
    {
        if error.is_transport_error() {
            self.push(Work::EndSession(transport_reason_of(&error)));
        }
    }

    /// The exchange is given up without an outcome.
    fn give_up(&mut self, completion: Completion)
        ensures
            final(self)@ == old(self)@.give_up(completion),
    {
        match completion {
            Completion::Caller { id } => {
                self.reply(id, Reply::Exchange(Err(Error::SessionClosed)));
            },
            Completion::Petition { id } => {
                self.reply(id, Reply::Petition(Err(Error::SessionClosed)));
            },
            Completion::KeepAlive { asked: Some(id) } => {
                self.reply(id, Reply::KeepAlive(Err(Error::SessionClosed)));
            },
            Completion::Resign { asked: Some(id) } => {
                self.reply(id, Reply::Resign(Err(Error::SessionClosed)));
            },
            _ => {},
        }
    }

    /// The wire took the message, or did not, at `now`; `random` decides on
    /// the wait before a retransmission.
    pub fn sent_with(&mut self, result: Result<(), Error>, now: u128, random: u32)
        ensures
            final(self)@ == old(self)@.sent(result_view(result), now, random),
            consistent(old(self)@) ==> consistent(final(self)@),
    {
        proof {
            if consistent(self@) {
                law_a_sending_is_consistent(self@, result_view(result), now, random);
            }
        }
        match self.take_waiting() {
            Waiting::Send { wire, then } => match (then, result) {
                (AfterSend::Track { request, completion }, Err(error)) => {
                    let transport = error.is_transport_error();
                    let reason = transport_reason_of(&error);
                    self.push(Work::Complete { completion, outcome: Err(error) });
                    if transport {
                        self.push(Work::EndSession(reason));
                    }
                },
                (AfterSend::Track { request, completion }, Ok(_)) => {
                    if request.expect_response {
                        self.exchanges.track(Pending::sent(request, completion, now, random));
                    } else {
                        self.push(Work::Complete { completion, outcome: Ok(None) });
                    }
                },
                (AfterSend::Retransmit { index, at }, result) => {
                    self.retransmitted(index, at, result);
                },
                (AfterSend::Answer { completion, response }, Ok(_)) => {
                    self.push(Work::Complete { completion, outcome: Ok(Some(response)) });
                },
                (AfterSend::Answer { completion, .. }, Err(error)) => {
                    self.give_up(completion);
                    self.route_failed(error);
                },
                (AfterSend::Relay { outputs, message }, Ok(_)) => {
                    self.push(Work::RelayOutputs { outputs, message });
                },
                (AfterSend::Routed, Ok(_)) => {},
                (_, Err(error)) => {
                    self.route_failed(error);
                },
            },
            other => {
                self.waiting = other;
            },
        }
    }

    /// Whether what follows the sending depends on a random number.
    fn needs_random(&self, result: &Result<(), Error>) -> (needed: bool)
        ensures
            needed == self@.needs_random(result_view(*result)),
    {
        match (&self.waiting, result) {
            (Waiting::Send { then: AfterSend::Track { request, .. }, .. }, Ok(_)) =>
                request.expect_response && request.message.ty == CoapType::Confirmable,
            _ => false,
        }
    }

    /// The wire took the message, or did not, at `now`.
    ///
    /// A random number is drawn where the wait before a retransmission depends
    /// on it. Says `false` only where the operating system gave none; nothing
    /// is done then.
    pub fn sent(&mut self, result: Result<(), Error>, now: u128) -> (drawn: bool)
        ensures
            !old(self)@.needs_random(result_view(result)) ==> drawn && forall|random: u32|
                final(self)@ == #[trigger] old(self)@.sent(result_view(result), now, random),
            !drawn ==> final(self)@ == old(self)@,
            drawn ==> exists|random: u32|
                final(self)@ == #[trigger] old(self)@.sent(result_view(result), now, random),
            consistent(old(self)@) ==> consistent(final(self)@),
    {
        if !self.needs_random(&result) {
            self.sent_with(result, now, 0);
            return true;
        }
        match random_number() {
            None => false,
            Some(random) => {
                self.sent_with(result, now, random);
                true
            },
        }
    }

    /// The request was sent again, or could not be.
    fn retransmitted(&mut self, index: usize, at: u128, result: Result<(), Error>)
        ensures
            final(self)@ == old(self)@.retransmitted(index, at, result_view(result)),
    {
        if let Err(error) = result {
            if error.is_transport_error() {
                self.push(Work::EndSession(transport_reason_of(&error)));
                return ;
            }
        }
        self.exchanges.record_retransmission(index, at);
        self.push_timers(index, at);
    }

    /// Goes on with the exchange timers behind an index.
    fn push_timers(&mut self, index: usize, at: u128)
        ensures
            final(self)@ == old(self)@.push_timers(index + 1, at),
    {
        if index < usize::MAX - 1 {
            self.push(Work::ExchangeTimers { index: index + 1, at });
        } else {
            self.push(Work::SendQueued);
        }
    }

    /// The link was opened again, or could not be.
    pub fn reopened(&mut self, result: Result<(), Error>)
        ensures
            final(self)@ == old(self)@.reopened(result_view(result)),
            consistent(old(self)@) ==> consistent(final(self)@),
    {
        proof {
            if consistent(self@) {
                law_a_reopening_is_consistent(self@, result_view(result));
            }
        }
        match self.take_waiting() {
            Waiting::Reopen(then) => match (then, result) {
                (AfterReopen::Submit { id, .. }, Err(error)) => {
                    self.reply(id, Reply::Exchange(Err(error)));
                },
                (AfterReopen::Petition { id }, Err(error)) => {
                    self.reply(id, Reply::Petition(Err(error)));
                },
                (then, Ok(_)) => {
                    self.open = true;
                    self.answered.forget_border_agent();
                    self.set_status(SessionStatus::Connected);
                    match then {
                        AfterReopen::Submit { id, request } => {
                            self.submit(id, request);
                        },
                        AfterReopen::Petition { id } => {
                            self.start_petition(id);
                        },
                    }
                },
            },
            other => {
                self.waiting = other;
            },
        }
    }

    /// The joiner session of the relayed payload was served.
    pub fn relayed(&mut self, result: Result<Vec<RelayOutput>, Error>)
        ensures
            final(self)@ == old(self)@.relayed(relay_view(result)),
            consistent(old(self)@) ==> consistent(final(self)@),
    {
        proof {
            if consistent(self@) {
                law_a_relay_is_consistent(self@, relay_view(result));
            }
        }
        match self.take_waiting() {
            Waiting::Relay { message, .. } => match result {
                Ok(outputs) => {
                    self.push(Work::RelayOutputs { outputs, message });
                },
                Err(error) => {
                    self.route_failed(error);
                },
            },
            other => {
                self.waiting = other;
            },
        }
    }

    /// Queues an application request, to be sent when a slot is free.
    fn submit(&mut self, id: u64, request: Outbound)
        ensures
            final(self)@ == old(self)@.submit(id, request@),
    {
        self.exchanges.queue(request, Completion::Caller { id });
        self.push(Work::SendQueued);
    }

    /// Petitions.
    fn start_petition(&mut self, id: u64)
        ensures
            final(self)@ == old(self)@.start_petition(id),
    {
        match petition_request(self.commissioner_id.as_str()) {
            Err(error) => {
                self.reply(id, Reply::Petition(Err(error)));
            },
            Ok(request) => {
                self.set_status(SessionStatus::Petitioning);
                self.start(control_request(request), Completion::Petition { id });
            },
        }
    }

    /// Sends a keep-alive.
    fn send_keep_alive(&mut self, completion: Completion)
        ensures
            final(self)@ == old(self)@.send_keep_alive(completion),
    {
        match self.status.session_id() {
            None => {
                self.push(
                    Work::Complete {
                        completion,
                        outcome: Err(Error::InvalidState("commissioner session is not active")),
                    },
                );
            },
            Some(session_id) => {
                self.keep_alive_at = None;
                self.start(control_request(keep_alive_request(session_id, true)), completion);
            },
        }
    }

    /// Resigns an active session, or closes an unpetitioned one at once.
    fn resign(&mut self, asked: Option<u64>)
        ensures
            final(self)@ == old(self)@.resign(asked),
    {
        match self.status.session_id() {
            None => {
                if let Some(id) = asked {
                    self.push(Work::Reply { id, reply: Reply::Resign(Ok(())) });
                }
                self.push(Work::EndSession(CloseReason::Resigned));
            },
            Some(session_id) => {
                self.keep_alive_at = None;
                self.start(
                    control_request(keep_alive_request(session_id, false)),
                    Completion::Resign { asked },
                );
            },
        }
    }

    /// Why a petition is refused, if it is.
    fn petition_refusal(&self) -> (refusal: Option<&'static str>)
        ensures
            match (refusal, self@.petition_refusal()) {
                (Some(text), Some(error)) => error == ErrorView::InvalidState(text@),
                (None, None) => true,
                _ => false,
            },
    {
        match self.status {
            SessionStatus::Connected => None,
            SessionStatus::Idle => None,
            SessionStatus::Petitioning => Some("petition is already active"),
            SessionStatus::Active { .. } => Some("commissioner is already active"),
            SessionStatus::Closed { .. } => Some("commissioner is disconnected"),
        }
    }

    /// Why a keep-alive is refused, if it is.
    fn keep_alive_refusal(&self) -> (refusal: Option<&'static str>)
        ensures
            match (refusal, self@.keep_alive_refusal()) {
                (Some(text), Some(error)) => error == ErrorView::InvalidState(text@),
                (None, None) => true,
                _ => false,
            },
    {
        if self.status.session_id().is_none() {
            Some("commissioner session is not active")
        } else if self.exchanges.resigning() {
            Some("commissioner is resigning")
        } else if self.exchanges.keep_alive_outstanding() {
            Some("a keep-alive is already outstanding")
        } else {
            None
        }
    }

    fn handle_command(&mut self, command: Command)
        ensures
            final(self)@ == old(self)@.command(command@),
    {
        proof {
            reveal(DriverView::command);
        }
        let closed = self.is_closed();
        match command {
            Command::Exchange { id, request } => {
                if closed {
                    self.reply(id, Reply::Exchange(Err(Error::SessionClosed)));
                } else if self.exchanges.resigning() {
                    self.reply(
                        id,
                        Reply::Exchange(Err(Error::InvalidState("commissioner is resigning"))),
                    );
                } else if self.open {
                    self.submit(id, request);
                } else {
                    self.waiting = Waiting::Reopen(AfterReopen::Submit { id, request });
                }
            },
            Command::Withdraw { id } => {
                if self.exchanges.withdraw(id) {
                    self.push(Work::SendQueued);
                }
            },
            Command::Petition { id } => {
                if closed {
                    self.reply(id, Reply::Petition(Err(Error::SessionClosed)));
                } else if let Some(refusal) = self.petition_refusal() {
                    self.reply(id, Reply::Petition(Err(Error::InvalidState(refusal))));
                } else if self.open {
                    self.start_petition(id);
                } else {
                    self.waiting = Waiting::Reopen(AfterReopen::Petition { id });
                }
            },
            Command::KeepAlive { id } => {
                if closed {
                    self.reply(id, Reply::KeepAlive(Err(Error::SessionClosed)));
                } else if let Some(refusal) = self.keep_alive_refusal() {
                    self.reply(id, Reply::KeepAlive(Err(Error::InvalidState(refusal))));
                } else {
                    self.send_keep_alive(Completion::KeepAlive { asked: Some(id) });
                }
            },
            Command::Resign { id } => {
                if closed {
                    self.reply(id, Reply::Resign(Err(Error::SessionClosed)));
                } else if self.exchanges.resigning() {
                    self.reply(
                        id,
                        Reply::Resign(Err(Error::InvalidState("commissioner is resigning"))),
                    );
                } else {
                    self.resign(Some(id));
                }
            },
            Command::SetJoinerHandler { installed } => {
                if !closed {
                    self.handles_joiners = installed;
                    if !installed {
                        self.effect(Effect::ClearJoiners);
                    }
                }
            },
        }
    }

    fn drop_handles(&mut self)
        ensures
            final(self)@ == old(self)@.drop_handles(),
    {
        proof {
            reveal(DriverView::drop_handles);
        }
        self.handles_dropped = true;
        if !self.is_closed() && !self.exchanges.resigning() {
            self.resign(None);
        }
    }

    /// Fails every in-flight and queued exchange: with the loss of the session
    /// for the reason, or, without one, with its end.
    fn fail_all(&mut self, lost: Option<CloseReason>)
        ensures
            final(self)@ == old(self)@.fail_all(loss(lost)),
    {
        let ghost error = loss(lost);
        let completions = self.exchanges.drain();
        let ghost before = self@;
        let mut i: usize = completions.len();
        proof {
            assert(completions@.skip(i as int) =~= Seq::<Completion>::empty());
            assert(self@.work =~= before.work + failures(completions@.skip(i as int), error));
        }
        while i > 0
            invariant
                i <= completions@.len(),
                error == loss(lost),
                self@ == (DriverView {
                    work: before.work + failures(completions@.skip(i as int), error),
                    ..before
                }),
            decreases i,
        {
            i = i - 1;
            let outcome = match &lost {
                Some(reason) => Err(Error::SessionLost(reason.clone())),
                None => Err(Error::SessionClosed),
            };
            let completion = completions[i];
            self.push(Work::Complete { completion, outcome });
            proof {
                let rest = completions@.skip(i + 1);
                assert(completions@.skip(i as int).drop_first() =~= rest);
                assert(self@.work =~= before.work + failures(completions@.skip(i as int), error));
            }
        }
        assert(completions@.skip(0) =~= completions@);
    }

    fn end_session(&mut self, reason: CloseReason)
        ensures
            final(self)@ == old(self)@.end_session(reason@),
    {
        proof {
            reveal(DriverView::end_session);
        }
        if self.is_closed() {
            return ;
        }
        self.set_status(SessionStatus::Closed { reason: reason.clone() });
        self.keep_alive_at = None;
        self.open = false;
        self.effect(Effect::ClearJoiners);
        self.effect(Effect::CloseLink);
        match reason {
            CloseReason::Resigned => {
                self.fail_all(None);
            },
            _ => {
                self.push(
                    Work::Publish(CommissionerEvent::SessionLost { reason: reason.clone() }),
                );
                self.fail_all(Some(reason));
            },
        }
    }

    fn handle_receive_failure(&mut self, error: Error)
        ensures
            final(self)@ == old(self)@.receive_failed(error@),
    {
        proof {
            reveal(DriverView::receive_failed);
        }
        if self.is_closed() {
            return ;
        }
        let peer_closed = match &error {
            Error::Dtls(crate::dtls::error::Error::PeerClosed) => true,
            _ => false,
        };
        if peer_closed && self.status.session_id().is_none() && !self.handles_dropped {
            self.open = false;
            self.effect(Effect::CloseLink);
            self.push(Work::GoIdle);
            self.fail_all(Some(CloseReason::PeerClosed));
        } else if peer_closed {
            self.push(Work::EndSession(CloseReason::PeerClosed));
        } else {
            self.push(Work::EndSession(transport_reason_of(&error)));
        }
    }

    fn schedule_keep_alive(&mut self, now: u128)
        ensures
            final(self)@ == old(self)@.schedule_keep_alive(now),
    {
        if self.keep_alive == KeepAlive::Automatic && self.status.session_id().is_some() {
            self.keep_alive_at = Some(after(now, self.keepalive_interval));
        }
    }

    /// Delivers an exchange outcome to whoever is waiting for it, applying
    /// session-control outcomes to the session first.
    fn complete(&mut self, completion: Completion, outcome: Outcome, now: u128)
        ensures
            final(self)@ == old(self)@.complete(completion, outcome_view(outcome), now),
    {
        proof {
            reveal(DriverView::complete);
        }
        match completion {
            Completion::Caller { id } => {
                self.reply(id, Reply::Exchange(outcome));
                self.push(Work::SendQueued);
            },
            Completion::Petition { id } => {
                let result = petition_of(outcome);
                if !self.is_closed() {
                    match &result {
                        Ok(petition) => {
                            let session_id: u16 = petition.session_id;
                            self.set_status(SessionStatus::Active { session_id });
                            self.schedule_keep_alive(now);
                        },
                        Err(_) => {
                            self.set_status(SessionStatus::Connected);
                        },
                    }
                }
                self.reply(id, Reply::Petition(result));
            },
            Completion::KeepAlive { asked } => {
                let result = keep_alive_of(outcome);
                let end = keep_alive_end_of(&result);
                if let Ok(code) = result {
                    self.effect(Effect::Publish(CommissionerEvent::KeepAliveResponse(code)));
                }
                if let Some(id) = asked {
                    self.reply(id, Reply::KeepAlive(result));
                }
                match end {
                    None => {
                        self.schedule_keep_alive(now);
                    },
                    Some(reason) => {
                        self.push(Work::EndSession(reason));
                    },
                }
            },
            Completion::Resign { asked } => {
                let result = resignation_of(outcome);
                if let Some(id) = asked {
                    self.push(Work::Reply { id, reply: Reply::Resign(result) });
                }
                self.push(Work::EndSession(CloseReason::Resigned));
            },
        }
    }

    /// Sends a queued application request where the in-flight limit allows.
    fn send_queued(&mut self)
        ensures
            final(self)@ == old(self)@.send_queued(),
    {
        proof {
            reveal(DriverView::send_queued);
        }
        if self.is_closed() || self.exchanges.application_in_flight()
            >= MAX_APPLICATION_IN_FLIGHT {
            return ;
        }
        if let Some((request, completion)) = self.exchanges.take_queued() {
            self.push(Work::SendQueued);
            self.start(request, completion);
        }
    }

    /// Retransmits or expires the exchange at an index where it is due.
    fn exchange_timers(&mut self, index: usize, at: u128)
        ensures
            final(self)@ == old(self)@.exchange_timers(index, at),
    {
        proof {
            reveal(DriverView::exchange_timers);
        }
        if self.is_closed() {
            return ;
        }
        if index >= self.exchanges.len() {
            self.push(Work::SendQueued);
            return ;
        }
        let pending = self.exchanges.pending(index);
        if pending.deadline <= at {
            let expired = self.exchanges.remove(index);
            self.push(Work::ExchangeTimers { index, at });
            self.push(
                Work::Complete {
                    completion: expired.completion,
                    outcome: Err(Error::Timeout("MeshCoP exchange timed out")),
                },
            );
        } else if pending.retry_due(at) {
            let request = pending.request.clone();
            let destination = pending.destination;
            if let Err(error) = self.transmit(
                request,
                destination,
                AfterSend::Retransmit { index, at },
            ) {
                self.retransmitted(index, at, Err(error));
            }
        } else {
            self.push_timers(index, at);
        }
    }

    fn keep_alive_check(&mut self, now: u128)
        ensures
            final(self)@ == old(self)@.keep_alive_check(now),
    {
        proof {
            reveal(DriverView::keep_alive_check);
        }
        let due = match self.keep_alive_at {
            Some(keep_alive_at) => keep_alive_at <= now,
            None => false,
        };
        if !self.is_closed() && due {
            self.send_keep_alive(Completion::KeepAlive { asked: None });
        }
    }

    /// Answers a confirmable message of `origin` and remembers that.
    fn answer(
        &mut self,
        origin: Destination,
        message_id: u16,
        reply: CoapMessage,
        now: u128,
        then: AfterSend,
    ) -> (result: Result<(), Error>)
        ensures
            match (result, old(self)@.answer(origin@, message_id, reply@, now, then@)) {
                (Ok(_), Ok(expected)) => final(self)@ == expected,
                (Err(error), Err(expected)) => error@ == expected && final(self)@ == old(
                    self,
                )@.remembering(origin@, message_id, reply@, now),
                _ => false,
            },
    {
        self.answered.remember(origin, message_id, reply.clone(), now);
        self.transmit(reply, origin, then)
    }

    fn complete_answered(
        &mut self,
        completion: Completion,
        response: CoapMessage,
        origin: Destination,
        now: u128,
    )
        ensures
            final(self)@ == old(self)@.complete_answered(completion, response@, origin@, now),
    {
        if response.ty == CoapType::Reset {
            self.push(
                Work::Complete {
                    completion,
                    outcome: Err(Error::InvalidState("CoAP request was reset by the peer")),
                },
            );
        } else if response.ty == CoapType::Confirmable {
            let message_id: u16 = response.message_id;
            let ack = CoapMessage::empty_ack(message_id);
            if let Err(error) = self.answer(
                origin,
                message_id,
                ack,
                now,
                AfterSend::Answer { completion, response },
            ) {
                self.give_up(completion);
                self.route_failed(error);
            }
        } else {
            self.push(Work::Complete { completion, outcome: Ok(Some(response)) });
        }
    }

    fn answer_notification(
        &mut self,
        message: &CoapMessage,
        origin: Destination,
        reply: CoapMessage,
        now: u128,
    )
        ensures
            final(self)@ == old(self)@.answer_notification(message@, origin@, reply@, now),
    {
        if message.ty == CoapType::Confirmable {
            if let Err(error) = self.answer(
                origin,
                message.message_id,
                reply,
                now,
                AfterSend::Routed,
            ) {
                self.route_failed(error);
            }
        }
    }

    fn report(&mut self, notification: MeshcopNotification, source: Option<[u8; 16]>)
        ensures
            final(self)@ == old(self)@.report(
                notification@,
                crate::commissioner::driver::parts::source_view(source),
            ),
    {
        if let MeshcopNotification::DatasetChanged = notification {
            self.effect(Effect::InvalidatePrefix);
        }
        self.effect(Effect::Report { notification, source });
    }

    fn route_notification(
        &mut self,
        notification: MeshcopNotification,
        message: CoapMessage,
        origin: Destination,
        now: u128,
    )
        ensures
            final(self)@ == old(self)@.route_notification(
                notification@,
                message@,
                origin@,
                now,
            ),
    {
        match origin {
            Destination::BorderAgent => {
                let ack = CoapMessage::empty_ack(message.message_id);
                match notification {
                    MeshcopNotification::RelayRx {
                        joiner_udp_port,
                        joiner_router_locator,
                        joiner_iid,
                        payload,
                    } => {
                        if self.handles_joiners {
                            self.waiting =
                            Waiting::Relay {
                                joiner_udp_port,
                                joiner_router_locator,
                                joiner_iid,
                                payload,
                                message,
                            };
                        } else {
                            self.report(
                                MeshcopNotification::RelayRx {
                                    joiner_udp_port,
                                    joiner_router_locator,
                                    joiner_iid,
                                    payload,
                                },
                                None,
                            );
                            self.answer_notification(&message, origin, ack, now);
                        }
                    },
                    other => {
                        self.report(other, None);
                        self.answer_notification(&message, origin, ack, now);
                    },
                }
            },
            Destination::Mesh { address, .. } => {
                let changed = CoapMessage::empty_changed_response(&message);
                self.report(notification, Some(address));
                self.answer_notification(&message, origin, changed, now);
            },
        }
    }

    fn route_fresh(&mut self, message: CoapMessage, origin: Destination, now: u128)
        ensures
            final(self)@ == old(self)@.route_fresh(message@, origin@, now),
    {
        match self.exchanges.take_answered(&message, origin.is_mesh()) {
            Some(pending) => {
                self.complete_answered(pending.completion, message, origin, now);
            },
            None => match parse_notification(&message) {
                Err(_) => {},
                Ok(None) => {},
                Ok(Some(notification)) => {
                    self.route_notification(notification, message, origin, now);
                },
            },
        }
    }

    fn route(&mut self, message: CoapMessage, origin: Destination, now: u128)
        ensures
            final(self)@ == old(self)@.route(message@, origin@, now),
    {
        if self.exchanges.acknowledge(&message, origin.is_mesh()) {
            return ;
        }
        if message.ty == CoapType::Confirmable {
            if let Some(reply) = self.answered.reply_to(origin, message.message_id, now) {
                if let Err(error) = self.transmit(reply, origin, AfterSend::Routed) {
                    self.route_failed(error);
                }
                return ;
            }
        }
        self.route_fresh(message, origin, now);
    }

    /// Routes one received message.
    fn route_incoming(&mut self, message: CoapMessage, now: u128)
        ensures
            final(self)@ == old(self)@.received(message@, now),
    {
        proof {
            reveal(DriverView::received);
        }
        if self.is_closed() {
            return ;
        }
        match parse_udp_rx(&message) {
            Err(_) => {},
            Ok(None) => {
                self.route(message, Destination::BorderAgent, now);
            },
            Ok(Some(udp_rx)) => {
                if udp_rx.destination_port == DEFAULT_MM_PORT {
                    if let Ok(inner) = CoapMessage::decode(udp_rx.payload.as_slice()) {
                        let origin = Destination::Mesh {
                            address: udp_rx.source_address,
                            port: udp_rx.source_port,
                        };
                        self.route(inner, origin, now);
                    }
                }
            },
        }
    }

    /// Does the first thing that a joiner session asks for.
    fn relay_outputs(&mut self, outputs: Vec<RelayOutput>, message: CoapMessage, now: u128)
        ensures
            final(self)@ == old(self)@.relay_outputs(views(outputs@), message@, now),
    {
        proof {
            reveal(DriverView::relay_outputs);
        }
        if self.is_closed() {
            return ;
        }
        assert(views(outputs@).len() == outputs@.len());
        if outputs.len() == 0 {
            let ack = CoapMessage::empty_ack(message.message_id);
            self.answer_notification(&message, Destination::BorderAgent, ack, now);
            return ;
        }
        let mut rest = outputs;
        let ghost all = views(rest@);
        let first = rest.remove(0);
        proof {
            assert(all[0] == first@);
            assert(views(rest@) =~= all.drop_first());
        }
        match first {
            RelayOutput::Publish(event) => {
                self.effect(Effect::Publish(event));
                self.push(Work::RelayOutputs { outputs: rest, message });
            },
            RelayOutput::Send(relayed) => {
                self.identify();
                let mut wire = relayed;
                wire.message_id = self.next_message_id;
                self.waiting =
                Waiting::WireToken {
                    wire,
                    then: AfterSend::Relay { outputs: rest, message },
                };
            },
        }
    }

    fn perform(&mut self, work: Work, now: u128)
        ensures
            final(self)@ == old(self)@.perform(work@, now),
    {
        match work {
            Work::Command(command) => {
                self.handle_command(command);
            },
            Work::HandlesDropped => {
                self.drop_handles();
            },
            Work::Received(message) => {
                self.route_incoming(message, now);
            },
            Work::ReceiveFailed(error) => {
                self.handle_receive_failure(error);
            },
            Work::Timer => {
                self.push(Work::KeepAliveCheck);
                self.push(Work::ExchangeTimers { index: 0, at: now });
            },
            Work::SendQueued => {
                self.send_queued();
            },
            Work::Complete { completion, outcome } => {
                self.complete(completion, outcome, now);
            },
            Work::EndSession(reason) => {
                self.end_session(reason);
            },
            Work::GoIdle => {
                self.set_status(SessionStatus::Idle);
            },
            Work::Publish(event) => {
                self.effect(Effect::Publish(event));
            },
            Work::Reply { id, reply } => {
                self.reply(id, reply);
            },
            Work::ExchangeTimers { index, at } => {
                self.exchange_timers(index, at);
            },
            Work::KeepAliveCheck => {
                self.keep_alive_check(now);
            },
            Work::RelayOutputs { outputs, message } => {
                self.relay_outputs(outputs, message, now);
            },
        }
    }

    fn is_waiting(&self) -> (waiting: bool)
        ensures
            waiting == self@.waiting !is Idle,
    {
        match self.waiting {
            Waiting::Idle => false,
            _ => true,
        }
    }

    /// Does everything that can be done at `now`, and says what the caller has
    /// to do next.
    pub fn next(&mut self, now: u128) -> (action: DriverAction)
        ensures
            final(self)@ == old(self)@.run(now),
            action@ == final(self)@.waiting.action(),
            consistent(old(self)@) ==> consistent(final(self)@),
    {
        proof {
            if consistent(self@) {
                law_a_session_is_consistent(self@, now);
            }
        }
        while !self.is_waiting() && self.work.len() > 0
            invariant
                self@.run(now) == old(self)@.run(now),
            decreases self@.weight(),
        {
            let ghost before = self@;
            assert(before.work.len() == self.work@.len());
            proof {
                crate::commissioner::driver::model::lemma_step_is_lighter(before, now);
            }
            if let Some(work) = self.work.pop() {
                proof {
                    assert(before.work.last() == work@);
                    assert(self@ =~= DriverView { work: before.work.drop_last(), ..before });
                }
                self.perform(work, now);
            }
        }
        assert(self@.work.len() == self.work@.len());
        match &self.waiting {
            Waiting::Idle => DriverAction::Rest,
            Waiting::RequestToken { .. } => DriverAction::DrawToken,
            Waiting::WireToken { .. } => DriverAction::DrawToken,
            Waiting::Send { wire, .. } => DriverAction::Send(wire.clone()),
            Waiting::Reopen(_) => DriverAction::Reopen,
            Waiting::Relay {
                joiner_udp_port,
                joiner_router_locator,
                joiner_iid,
                payload,
                ..
            } => DriverAction::Relay {
                joiner_udp_port: *joiner_udp_port,
                joiner_router_locator: *joiner_router_locator,
                joiner_iid: *joiner_iid,
                payload: crate::bytes::copy_all(payload.as_slice()),
            },
        }
    }
}

} // verus!
