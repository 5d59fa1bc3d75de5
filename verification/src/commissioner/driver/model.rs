//! What each step of the session driver leads to.

use vstd::prelude::*;

use crate::commissioner::coap::{message_in, unencodable_message, CoapType, CoapView};
use crate::commissioner::config::KeepAlive;
use crate::commissioner::duplicates::{
    from_the_mesh, remembered, reply_in, unexpired, AnsweredView,
};
use crate::commissioner::error::ErrorView;
use crate::commissioner::exchange::{
    application_count, earlier, earliest_timer, later, Completion, ExchangesView, OutboundView,
    PendingView, MAX_APPLICATION_IN_FLIGHT,
};
use crate::commissioner::driver::parts::{
    AfterReopenView, AfterSendView, CommandView, EffectView, OutcomeView, RelayOutputView,
    ReplyView, WaitingView, WorkView,
};
use crate::commissioner::messages::{
    keep_alive, notification_in, petition, petition_answer_in, required_response, state_in,
    udp_rx_in, udp_tx, MeshcopState, NotificationView, DEFAULT_MM_PORT,
};
use crate::commissioner::tlv::oversized_tlv;
use crate::commissioner::types::{
    CloseReasonView, DestinationView, EventView, PetitionView, ResultCode, SessionStatusView,
};

verus! {

/// A commissioner session.
#[verifier::ext_equal]
pub struct DriverView {
    pub commissioner_id: Seq<char>,
    pub keep_alive: KeepAlive,
    /// The wait between keep-alives, in nanoseconds.
    pub keepalive_interval: u128,
    pub status: SessionStatusView,
    /// Whether a DTLS session is open.
    pub open: bool,
    pub next_message_id: u16,
    pub exchanges: ExchangesView,
    /// When the next keep-alive is due.
    pub keep_alive_at: Option<u128>,
    /// Whether a joiner handler is installed.
    pub handles_joiners: bool,
    /// Every handle has been dropped; the driver is resigning.
    pub handles_dropped: bool,
    /// Confirmable messages that were answered.
    pub answered: Seq<AnsweredView>,
    /// What is still to be done; what is done first stands last.
    pub work: Seq<WorkView>,
    pub waiting: WaitingView,
    /// What the outside has not been told yet.
    pub effects: Seq<EffectView>,
}

/// Why new work is refused once the session has started resigning.
pub open spec fn resigning_error() -> ErrorView {
    ErrorView::InvalidState("commissioner is resigning"@)
}

/// Why work that needs an active session is refused.
pub open spec fn not_active_error() -> ErrorView {
    ErrorView::InvalidState("commissioner session is not active"@)
}

/// The outcome of an exchange that the peer reset.
pub open spec fn reset_error() -> ErrorView {
    ErrorView::InvalidState("CoAP request was reset by the peer"@)
}

/// The outcome of an exchange that was not answered in time.
pub open spec fn timeout_error() -> ErrorView {
    ErrorView::Timeout("MeshCoP exchange timed out"@)
}

/// Why the session ends where the transport failed.
pub open spec fn transport_reason(error: ErrorView) -> CloseReasonView {
    CloseReasonView::TransportFailed { error: error.text() }
}

/// The result of a petition.
pub open spec fn petition_result(outcome: OutcomeView) -> Result<PetitionView, ErrorView> {
    match required_response(outcome) {
        Err(error) => Err(error),
        Ok(response) => match petition_answer_in(response.payload) {
            Err(error) => Err(error),
            Ok(answer) => match answer.state {
                MeshcopState::Accept => match answer.session_id {
                    Some(session_id) => Ok(
                        PetitionView {
                            session_id,
                            existing_commissioner_id: answer.existing_commissioner_id,
                        },
                    ),
                    None => Err(
                        ErrorView::InvalidState("petition accepted without a session ID"@),
                    ),
                },
                MeshcopState::Pending => Err(
                    ErrorView::InvalidState("petition response is pending"@),
                ),
                MeshcopState::Reject => Err(
                    ErrorView::PetitionRejected {
                        existing_commissioner_id: answer.existing_commissioner_id,
                    },
                ),
            },
        },
    }
}

/// The result of a keep-alive.
pub open spec fn keep_alive_result(outcome: OutcomeView) -> Result<ResultCode, ErrorView> {
    match required_response(outcome) {
        Err(error) => Err(error),
        Ok(response) => match state_in(response.payload, true) {
            Err(error) => Err(error),
            Ok(Some(state)) => Ok(state.spec_result_code()),
            Ok(None) => Err(ErrorView::InvalidState("keepalive response did not include state"@)),
        },
    }
}

/// Why a keep-alive with this result ends the session, if it does.
pub open spec fn keep_alive_end(result: Result<ResultCode, ErrorView>) -> Option<CloseReasonView> {
    match result {
        Ok(ResultCode::Accept) => None,
        Ok(ResultCode::Reject) => Some(CloseReasonView::KeepAliveRejected),
        Ok(ResultCode::Pending) => Some(CloseReasonView::KeepAlivePending),
        Err(error) => Some(CloseReasonView::KeepAliveFailed { error: error.text() }),
    }
}

/// The result of a resignation.
pub open spec fn resign_result(outcome: OutcomeView) -> Result<(), ErrorView> {
    match required_response(outcome) {
        Err(error) => Err(error),
        Ok(response) => match state_in(response.payload, true) {
            Err(error) => Err(error),
            Ok(Some(MeshcopState::Pending)) => Err(
                ErrorView::InvalidState("resign response is pending"@),
            ),
            Ok(_) => Ok(()),
        },
    }
}

/// A session-control request.
pub open spec fn control_request(message: CoapView) -> OutboundView {
    OutboundView { message, destination: DestinationView::BorderAgent, expect_response: true }
}

/// What whoever waits for an exchange learns where it was given up without an
/// outcome.
pub open spec fn given_up(completion: Completion) -> Option<EffectView> {
    match completion {
        Completion::Caller { id } => Some(
            EffectView::Reply { id, reply: ReplyView::Exchange(Err(ErrorView::SessionClosed)) },
        ),
        Completion::Petition { id } => Some(
            EffectView::Reply { id, reply: ReplyView::Petition(Err(ErrorView::SessionClosed)) },
        ),
        Completion::KeepAlive { asked: Some(id) } => Some(
            EffectView::Reply { id, reply: ReplyView::KeepAlive(Err(ErrorView::SessionClosed)) },
        ),
        Completion::Resign { asked: Some(id) } => Some(
            EffectView::Reply { id, reply: ReplyView::Resign(Err(ErrorView::SessionClosed)) },
        ),
        _ => None,
    }
}

/// The work that gives each of those who wait the error, the first on top.
pub open spec fn failures(completions: Seq<Completion>, error: ErrorView) -> Seq<WorkView>
    decreases completions.len(),
{
    if completions.len() == 0 {
        Seq::empty()
    } else {
        failures(completions.drop_first(), error).push(
            WorkView::Complete { completion: completions[0], outcome: Err(error) },
        )
    }
}

impl DriverView {
    /// Whether the session has ended.
    pub open spec fn closed(self) -> bool {
        self.status is Closed
    }

    /// The session with an effect more.
    pub open spec fn effect(self, effect: EffectView) -> DriverView {
        DriverView { effects: self.effects.push(effect), ..self }
    }

    /// The session with a reply more.
    pub open spec fn reply(self, id: u64, reply: ReplyView) -> DriverView {
        self.effect(EffectView::Reply { id, reply })
    }

    /// The session with work to be done next.
    pub open spec fn push(self, work: WorkView) -> DriverView {
        DriverView { work: self.work.push(work), ..self }
    }

    /// The session that waits for something.
    pub open spec fn wait(self, waiting: WaitingView) -> DriverView {
        DriverView { waiting, ..self }
    }

    /// The session that stands somewhere else.
    pub open spec fn set_status(self, status: SessionStatusView) -> DriverView {
        DriverView { status, ..self }.effect(EffectView::Status(status))
    }

    /// The session with the next message ID taken.
    pub open spec fn identified(self) -> DriverView {
        DriverView { next_message_id: ((self.next_message_id + 1) % 0x1_0000) as u16, ..self }
    }

    /// The session that sends a request: it takes a message ID and waits for a
    /// token.
    pub open spec fn start(self, request: OutboundView, completion: Completion) -> DriverView {
        let session = self.identified();
        session.wait(
            WaitingView::RequestToken {
                request: OutboundView {
                    message: CoapView { message_id: session.next_message_id, ..request.message },
                    ..request
                },
                completion,
            },
        )
    }

    /// The session that puts a message on the wire: the message itself, or a
    /// UDP_TX encapsulation with a fresh outer identity.
    pub open spec fn transmit(
        self,
        message: CoapView,
        destination: DestinationView,
        then: AfterSendView,
    ) -> Result<DriverView, ErrorView> {
        match destination {
            DestinationView::BorderAgent => Ok(
                self.wait(WaitingView::Send { wire: message, then }),
            ),
            DestinationView::Mesh { address, port } => if !message.fits() {
                Err(unencodable_message())
            } else if message.encoding().len() > 0xfffb {
                Err(oversized_tlv())
            } else {
                let session = self.identified();
                Ok(
                    session.wait(
                        WaitingView::WireToken {
                            wire: CoapView {
                                message_id: session.next_message_id,
                                ..udp_tx(address, port, message.encoding())
                            },
                            then,
                        },
                    ),
                )
            },
        }
    }

    /// The session after a token was drawn. One that an exchange in flight
    /// uses is not taken.
    pub open spec fn with_token(self, token: Seq<u8>) -> DriverView {
        if self.exchanges.uses_token(token) {
            self
        } else {
            match self.waiting {
                WaitingView::RequestToken { request, completion } => {
                    let named = OutboundView {
                        message: CoapView { token, ..request.message },
                        ..request
                    };
                    match self.transmit(
                        named.message,
                        named.destination,
                        AfterSendView::Track { request: named, completion },
                    ) {
                        Ok(session) => session,
                        Err(error) => self.wait(WaitingView::Idle).push(
                            WorkView::Complete { completion, outcome: Err(error) },
                        ),
                    }
                },
                WaitingView::WireToken { wire, then } => self.wait(
                    WaitingView::Send { wire: CoapView { token, ..wire }, then },
                ),
                _ => self,
            }
        }
    }

    /// The session after a message could not be routed: a transport failure
    /// ends the session, another error drops the message.
    pub open spec fn route_failed(self, error: ErrorView) -> DriverView {
        if error.is_transport() {
            self.push(WorkView::EndSession(transport_reason(error)))
        } else {
            self
        }
    }

    /// The session after an exchange was given up without an outcome.
    pub open spec fn give_up(self, completion: Completion) -> DriverView {
        match given_up(completion) {
            Some(effect) => self.effect(effect),
            None => self,
        }
    }

    /// Whether a token is waited for.
    pub open spec fn needs_token(self) -> bool {
        self.waiting is RequestToken || self.waiting is WireToken
    }

    /// Whether what follows a sending depends on chance: the wire took a
    /// confirmable request whose response is waited for, so that the wait
    /// before its retransmission is drawn.
    pub open spec fn needs_random(self, result: Result<(), ErrorView>) -> bool {
        &&& result is Ok
        &&& self.waiting matches WaitingView::Send { then, .. }
        &&& then matches AfterSendView::Track { request, .. }
        &&& request.expect_response
        &&& request.message.ty == CoapType::Confirmable
    }

    /// The session after the wire took a message, or did not, at `now`;
    /// `random` decides on the wait before a retransmission.
    pub open spec fn sent(self, result: Result<(), ErrorView>, now: u128, random: u32)
        -> DriverView {
        let session = self.wait(WaitingView::Idle);
        match self.waiting {
            WaitingView::Send { then, .. } => match (then, result) {
                (AfterSendView::Track { request, completion }, Err(error)) => session.push(
                    WorkView::Complete { completion, outcome: Err(error) },
                ).route_failed(error),
                (AfterSendView::Track { request, completion }, Ok(_)) =>
                    if request.expect_response {
                        DriverView {
                            exchanges: ExchangesView {
                                in_flight: self.exchanges.in_flight.push(
                                    PendingView::sent(request, completion, now, random),
                                ),
                                ..self.exchanges
                            },
                            ..session
                        }
                    } else {
                        session.push(WorkView::Complete { completion, outcome: Ok(None) })
                    },
                (AfterSendView::Retransmit { index, at }, result) => session.retransmitted(
                    index,
                    at,
                    result,
                ),
                (AfterSendView::Answer { completion, response }, Ok(_)) => session.push(
                    WorkView::Complete { completion, outcome: Ok(Some(response)) },
                ),
                (AfterSendView::Answer { completion, .. }, Err(error)) => session.give_up(
                    completion,
                ).route_failed(error),
                (AfterSendView::Relay { outputs, message }, Ok(_)) => session.push(
                    WorkView::RelayOutputs { outputs, message },
                ),
                (AfterSendView::Routed, Ok(_)) => session,
                (_, Err(error)) => session.route_failed(error),
            },
            _ => self,
        }
    }

    /// The session after a request was sent again, or could not be.
    pub open spec fn retransmitted(self, index: usize, at: u128, result: Result<(), ErrorView>)
        -> DriverView {
        if result is Err && result->Err_0.is_transport() {
            self.push(WorkView::EndSession(transport_reason(result->Err_0)))
        } else {
            DriverView {
                exchanges: self.exchanges.retransmitted(index as int, at),
                ..self
            }.push_timers(index + 1, at)
        }
    }

    /// The session with the exchange timers to be looked at from an index on.
    pub open spec fn push_timers(self, index: int, at: u128) -> DriverView {
        if index < usize::MAX {
            self.push(WorkView::ExchangeTimers { index: index as usize, at })
        } else {
            self.push(WorkView::SendQueued)
        }
    }

    /// The session after the link was opened again, or could not be.
    pub open spec fn reopened(self, result: Result<(), ErrorView>) -> DriverView {
        let session = self.wait(WaitingView::Idle);
        match self.waiting {
            WaitingView::Reopen(then) => match (then, result) {
                (AfterReopenView::Submit { id, .. }, Err(error)) => session.reply(
                    id,
                    ReplyView::Exchange(Err(error)),
                ),
                (AfterReopenView::Petition { id }, Err(error)) => session.reply(
                    id,
                    ReplyView::Petition(Err(error)),
                ),
                (then, Ok(_)) => {
                    let connected = DriverView {
                        open: true,
                        answered: from_the_mesh(self.answered),
                        ..session
                    }.set_status(SessionStatusView::Connected);
                    match then {
                        AfterReopenView::Submit { id, request } => connected.submit(id, request),
                        AfterReopenView::Petition { id } => connected.start_petition(id),
                    }
                },
            },
            _ => self,
        }
    }

    /// The session after the joiner session of a relayed payload was served.
    pub open spec fn relayed(self, result: Result<Seq<RelayOutputView>, ErrorView>) -> DriverView {
        let session = self.wait(WaitingView::Idle);
        match self.waiting {
            WaitingView::Relay { message, .. } => match result {
                Ok(outputs) => session.push(WorkView::RelayOutputs { outputs, message }),
                Err(error) => session.route_failed(error),
            },
            _ => self,
        }
    }

    /// The session with an application request queued, to be sent when a slot
    /// is free.
    pub open spec fn submit(self, id: u64, request: OutboundView) -> DriverView {
        DriverView {
            exchanges: ExchangesView {
                queued: self.exchanges.queued.push((request, Completion::Caller { id })),
                ..self.exchanges
            },
            ..self
        }.push(WorkView::SendQueued)
    }

    /// The session that petitions.
    pub open spec fn start_petition(self, id: u64) -> DriverView {
        if vstd::utf8::encode_utf8(self.commissioner_id).len() > 0xffff {
            self.reply(id, ReplyView::Petition(Err(oversized_tlv())))
        } else {
            self.set_status(SessionStatusView::Petitioning).start(
                control_request(petition(self.commissioner_id)),
                Completion::Petition { id },
            )
        }
    }

    /// The session that sends a keep-alive.
    pub open spec fn send_keep_alive(self, completion: Completion) -> DriverView {
        match self.status.session_id() {
            None => self.push(
                WorkView::Complete { completion, outcome: Err(not_active_error()) },
            ),
            Some(session_id) => DriverView { keep_alive_at: None, ..self }.start(
                control_request(keep_alive(session_id, true)),
                completion,
            ),
        }
    }

    /// The session that resigns, or ends at once where there is nothing to
    /// resign.
    pub open spec fn resign(self, asked: Option<u64>) -> DriverView {
        match self.status.session_id() {
            None => match asked {
                Some(id) => self.push(
                    WorkView::Reply { id, reply: ReplyView::Resign(Ok(())) },
                ),
                None => self,
            }.push(WorkView::EndSession(CloseReasonView::Resigned)),
            Some(session_id) => DriverView { keep_alive_at: None, ..self }.start(
                control_request(keep_alive(session_id, false)),
                Completion::Resign { asked },
            ),
        }
    }

    /// Why a petition is refused, if it is.
    pub open spec fn petition_refusal(self) -> Option<ErrorView> {
        match self.status {
            SessionStatusView::Connected => None,
            SessionStatusView::Idle => None,
            SessionStatusView::Petitioning => Some(
                ErrorView::InvalidState("petition is already active"@),
            ),
            SessionStatusView::Active { .. } => Some(
                ErrorView::InvalidState("commissioner is already active"@),
            ),
            SessionStatusView::Closed { .. } => Some(
                ErrorView::InvalidState("commissioner is disconnected"@),
            ),
        }
    }

    /// Why a keep-alive is refused, if it is.
    pub open spec fn keep_alive_refusal(self) -> Option<ErrorView> {
        if self.status.session_id() is None {
            Some(not_active_error())
        } else if self.exchanges.resigning() {
            Some(resigning_error())
        } else if self.exchanges.keep_alive_outstanding() {
            Some(ErrorView::InvalidState("a keep-alive is already outstanding"@))
        } else {
            None
        }
    }

    /// The session after a command of a handle. Once the session has ended,
    /// every command is refused.
    #[verifier::opaque]
    pub open spec fn command(self, command: CommandView) -> DriverView {
        match command {
            CommandView::Exchange { id, request } => if self.closed() {
                self.reply(id, ReplyView::Exchange(Err(ErrorView::SessionClosed)))
            } else if self.exchanges.resigning() {
                self.reply(id, ReplyView::Exchange(Err(resigning_error())))
            } else if self.open {
                self.submit(id, request)
            } else {
                self.wait(WaitingView::Reopen(AfterReopenView::Submit { id, request }))
            },
            CommandView::Withdraw { id } => match self.exchanges.without(id) {
                Some(exchanges) => DriverView { exchanges, ..self }.push(WorkView::SendQueued),
                None => self,
            },
            CommandView::Petition { id } => if self.closed() {
                self.reply(id, ReplyView::Petition(Err(ErrorView::SessionClosed)))
            } else {
                match self.petition_refusal() {
                    Some(error) => self.reply(id, ReplyView::Petition(Err(error))),
                    None => if self.open {
                        self.start_petition(id)
                    } else {
                        self.wait(WaitingView::Reopen(AfterReopenView::Petition { id }))
                    },
                }
            },
            CommandView::KeepAlive { id } => if self.closed() {
                self.reply(id, ReplyView::KeepAlive(Err(ErrorView::SessionClosed)))
            } else {
                match self.keep_alive_refusal() {
                    Some(error) => self.reply(id, ReplyView::KeepAlive(Err(error))),
                    None => self.send_keep_alive(Completion::KeepAlive { asked: Some(id) }),
                }
            },
            CommandView::Resign { id } => if self.closed() {
                self.reply(id, ReplyView::Resign(Err(ErrorView::SessionClosed)))
            } else if self.exchanges.resigning() {
                self.reply(id, ReplyView::Resign(Err(resigning_error())))
            } else {
                self.resign(Some(id))
            },
            CommandView::SetJoinerHandler { installed } => if self.closed() {
                self
            } else if installed {
                DriverView { handles_joiners: true, ..self }
            } else {
                DriverView { handles_joiners: false, ..self }.effect(EffectView::ClearJoiners)
            },
        }
    }

    /// The session after every handle was dropped.
    #[verifier::opaque]
    pub open spec fn drop_handles(self) -> DriverView {
        let session = DriverView { handles_dropped: true, ..self };
        if self.closed() || self.exchanges.resigning() {
            session
        } else {
            session.resign(None)
        }
    }

    /// The session after it was decided to fail every in-flight and queued
    /// exchange.
    pub open spec fn fail_all(self, error: ErrorView) -> DriverView {
        DriverView {
            work: self.work + failures(self.exchanges.everyone(), error),
            exchanges: ExchangesView { in_flight: Seq::empty(), queued: Seq::empty() },
            ..self
        }
    }

    /// The session after it ended: every outstanding request fails, the loss is
    /// published unless the application ended the session, and the link is
    /// closed.
    #[verifier::opaque]
    pub open spec fn end_session(self, reason: CloseReasonView) -> DriverView {
        if self.closed() {
            self
        } else {
            let closed = DriverView {
                keep_alive_at: None,
                open: false,
                ..self.set_status(SessionStatusView::Closed { reason })
            }.effect(EffectView::ClearJoiners).effect(EffectView::CloseLink);
            if reason is Resigned {
                closed.fail_all(ErrorView::SessionClosed)
            } else {
                closed.push(WorkView::Publish(EventView::SessionLost { reason })).fail_all(
                    ErrorView::SessionLost(reason),
                )
            }
        }
    }

    /// The session after receiving failed.
    #[verifier::opaque]
    pub open spec fn receive_failed(self, error: ErrorView) -> DriverView {
        let peer_closed = error == ErrorView::Dtls(crate::dtls::error::ErrorView::PeerClosed);
        if self.closed() {
            self
        } else if peer_closed && self.status.session_id() is None && !self.handles_dropped {
            DriverView { open: false, ..self }.effect(EffectView::CloseLink).push(
                WorkView::GoIdle,
            ).fail_all(ErrorView::SessionLost(CloseReasonView::PeerClosed))
        } else if peer_closed {
            self.push(WorkView::EndSession(CloseReasonView::PeerClosed))
        } else {
            self.push(WorkView::EndSession(transport_reason(error)))
        }
    }

    /// The session with the next keep-alive scheduled at `now`.
    pub open spec fn schedule_keep_alive(self, now: u128) -> DriverView {
        if self.keep_alive == KeepAlive::Automatic && self.status.session_id() is Some {
            DriverView { keep_alive_at: Some(later(now, self.keepalive_interval)), ..self }
        } else {
            self
        }
    }

    /// The session after an exchange outcome reached whoever waits for it,
    /// session-control outcomes applied to the session first.
    #[verifier::opaque]
    pub open spec fn complete(self, completion: Completion, outcome: OutcomeView, now: u128)
        -> DriverView {
        match completion {
            Completion::Caller { id } => self.reply(id, ReplyView::Exchange(outcome)).push(
                WorkView::SendQueued,
            ),
            Completion::Petition { id } => {
                let result = petition_result(outcome);
                let session = if self.closed() {
                    self
                } else {
                    match result {
                        Ok(petition) => self.set_status(
                            SessionStatusView::Active { session_id: petition.session_id },
                        ).schedule_keep_alive(now),
                        Err(_) => self.set_status(SessionStatusView::Connected),
                    }
                };
                session.reply(id, ReplyView::Petition(result))
            },
            Completion::KeepAlive { asked } => {
                let result = keep_alive_result(outcome);
                let published = match result {
                    Ok(code) => self.effect(
                        EffectView::Publish(EventView::KeepAliveResponse(code)),
                    ),
                    Err(_) => self,
                };
                let replied = match asked {
                    Some(id) => published.reply(id, ReplyView::KeepAlive(result)),
                    None => published,
                };
                match keep_alive_end(result) {
                    None => replied.schedule_keep_alive(now),
                    Some(reason) => replied.push(WorkView::EndSession(reason)),
                }
            },
            Completion::Resign { asked } => match asked {
                Some(id) => self.push(
                    WorkView::Reply { id, reply: ReplyView::Resign(resign_result(outcome)) },
                ),
                None => self,
            }.push(WorkView::EndSession(CloseReasonView::Resigned)),
        }
    }

    /// The session after it was tried to send a queued application request.
    #[verifier::opaque]
    pub open spec fn send_queued(self) -> DriverView {
        if self.closed() || self.exchanges.queued.len() == 0 || application_count(
            self.exchanges.in_flight,
        ) >= MAX_APPLICATION_IN_FLIGHT {
            self
        } else {
            let (request, completion) = self.exchanges.queued[0];
            DriverView {
                exchanges: ExchangesView {
                    queued: self.exchanges.queued.drop_first(),
                    ..self.exchanges
                },
                ..self
            }.push(WorkView::SendQueued).start(request, completion)
        }
    }

    /// The session after the timers of the exchange at an index were looked at.
    #[verifier::opaque]
    pub open spec fn exchange_timers(self, index: usize, at: u128) -> DriverView {
        if self.closed() {
            self
        } else if index >= self.exchanges.in_flight.len() {
            self.push(WorkView::SendQueued)
        } else {
            let pending = self.exchanges.in_flight[index as int];
            if pending.deadline <= at {
                DriverView {
                    exchanges: ExchangesView {
                        in_flight: self.exchanges.in_flight.remove(index as int),
                        ..self.exchanges
                    },
                    ..self
                }.push(WorkView::ExchangeTimers { index, at }).push(
                    WorkView::Complete {
                        completion: pending.completion,
                        outcome: Err(timeout_error()),
                    },
                )
            } else if pending.retry_due(at) {
                match self.transmit(
                    pending.request,
                    pending.destination,
                    AfterSendView::Retransmit { index, at },
                ) {
                    Ok(session) => session,
                    Err(error) => self.retransmitted(index, at, Err(error)),
                }
            } else {
                self.push_timers(index + 1, at)
            }
        }
    }

    /// The session after it was looked whether a keep-alive is due.
    ///
    /// The timer is cleared while a keep-alive is outstanding, so a due timer
    /// never duplicates one.
    #[verifier::opaque]
    pub open spec fn keep_alive_check(self, now: u128) -> DriverView {
        if !self.closed() && self.keep_alive_at is Some && self.keep_alive_at->0 <= now {
            self.send_keep_alive(Completion::KeepAlive { asked: None })
        } else {
            self
        }
    }

    /// The session that answers a confirmable message of `origin` with `reply`
    /// and remembers that.
    pub open spec fn answer(
        self,
        origin: DestinationView,
        message_id: u16,
        reply: CoapView,
        now: u128,
        then: AfterSendView,
    ) -> Result<DriverView, ErrorView> {
        DriverView {
            answered: remembered(
                self.answered,
                AnsweredView { origin, message_id, reply, at: now },
            ),
            ..self
        }.transmit(reply, origin, then)
    }

    /// The session that completes the exchange which `response` answers, after
    /// acknowledging a confirmable one.
    pub open spec fn complete_answered(
        self,
        completion: Completion,
        response: CoapView,
        origin: DestinationView,
        now: u128,
    ) -> DriverView {
        if response.ty == CoapType::Reset {
            self.push(WorkView::Complete { completion, outcome: Err(reset_error()) })
        } else if response.ty == CoapType::Confirmable {
            match self.answer(
                origin,
                response.message_id,
                CoapView::empty(CoapType::Acknowledgement, response.message_id),
                now,
                AfterSendView::Answer { completion, response },
            ) {
                Ok(session) => session,
                Err(error) => self.remembering(
                    origin,
                    response.message_id,
                    CoapView::empty(CoapType::Acknowledgement, response.message_id),
                    now,
                ).give_up(completion).route_failed(error),
            }
        } else {
            self.push(WorkView::Complete { completion, outcome: Ok(Some(response)) })
        }
    }

    /// The session that remembers that it answered.
    pub open spec fn remembering(
        self,
        origin: DestinationView,
        message_id: u16,
        reply: CoapView,
        now: u128,
    ) -> DriverView {
        DriverView {
            answered: remembered(
                self.answered,
                AnsweredView { origin, message_id, reply, at: now },
            ),
            ..self
        }
    }

    /// The session that answers a confirmable notification; one that is not
    /// confirmable gets no answer.
    pub open spec fn answer_notification(
        self,
        message: CoapView,
        origin: DestinationView,
        reply: CoapView,
        now: u128,
    ) -> DriverView {
        if message.ty == CoapType::Confirmable {
            match self.answer(origin, message.message_id, reply, now, AfterSendView::Routed) {
                Ok(session) => session,
                Err(error) => self.remembering(origin, message.message_id, reply, now).route_failed(
                    error,
                ),
            }
        } else {
            self
        }
    }

    /// The session after a notification was published.
    pub open spec fn report(self, notification: NotificationView, source: Option<Seq<u8>>)
        -> DriverView {
        if notification is DatasetChanged {
            self.effect(EffectView::InvalidatePrefix)
        } else {
            self
        }.effect(EffectView::Report { notification, source })
    }

    /// The session with the answers forgotten that have outlived the exchange
    /// lifetime.
    pub open spec fn refreshed(self, now: u128) -> DriverView {
        DriverView { answered: unexpired(self.answered, now), ..self }
    }

    /// The session after a message on one route arrived that is neither an
    /// acknowledgement nor a copy of an answered one.
    pub open spec fn route_fresh(self, message: CoapView, origin: DestinationView, now: u128)
        -> DriverView {
        match self.exchanges.answered_by(message, origin is Mesh) {
            Some(i) => DriverView {
                exchanges: ExchangesView {
                    in_flight: self.exchanges.in_flight.remove(i),
                    ..self.exchanges
                },
                ..self
            }.complete_answered(self.exchanges.in_flight[i].completion, message, origin, now),
            None => match notification_in(message) {
                Err(_) => self,
                Ok(None) => self,
                Ok(Some(notification)) => self.route_notification(
                    notification,
                    message,
                    origin,
                    now,
                ),
            },
        }
    }

    /// The session after a notification arrived.
    pub open spec fn route_notification(
        self,
        notification: NotificationView,
        message: CoapView,
        origin: DestinationView,
        now: u128,
    ) -> DriverView {
        match (origin, notification) {
            (
                DestinationView::BorderAgent,
                NotificationView::RelayRx {
                    joiner_udp_port,
                    joiner_router_locator,
                    joiner_iid,
                    payload,
                },
            ) => if self.handles_joiners {
                self.wait(
                    WaitingView::Relay {
                        joiner_udp_port,
                        joiner_router_locator,
                        joiner_iid,
                        payload,
                        message,
                    },
                )
            } else {
                self.report(notification, None).answer_notification(
                    message,
                    origin,
                    CoapView::empty(CoapType::Acknowledgement, message.message_id),
                    now,
                )
            },
            (DestinationView::BorderAgent, _) => self.report(
                notification,
                None,
            ).answer_notification(
                message,
                origin,
                CoapView::empty(CoapType::Acknowledgement, message.message_id),
                now,
            ),
            (DestinationView::Mesh { address, .. }, _) => self.report(
                notification,
                Some(address),
            ).answer_notification(message, origin, message.changed_response(), now),
        }
    }

    /// The session after a message on one route arrived.
    ///
    /// A response completes the exchange it answers, a Reset fails it, and an
    /// empty ACK stops its retransmission. A copy of a confirmable message that
    /// was answered gets the same reply again. Unsolicited notifications become
    /// events. Malformed and unmatched messages are dropped.
    pub open spec fn route(self, message: CoapView, origin: DestinationView, now: u128)
        -> DriverView {
        match self.exchanges.acknowledged_by(message, origin is Mesh) {
            Some(i) => DriverView { exchanges: self.exchanges.silenced(i), ..self },
            None => if message.ty == CoapType::Confirmable {
                match reply_in(self.answered, origin, message.message_id, now) {
                    Some(reply) => match self.refreshed(now).transmit(
                        reply,
                        origin,
                        AfterSendView::Routed,
                    ) {
                        Ok(session) => session,
                        Err(error) => self.refreshed(now).route_failed(error),
                    },
                    None => self.refreshed(now).route_fresh(message, origin, now),
                }
            } else {
                self.route_fresh(message, origin, now)
            },
        }
    }

    /// The session after a message arrived: directly, or through the UDP
    /// proxy for the management port.
    #[verifier::opaque]
    pub open spec fn received(self, message: CoapView, now: u128) -> DriverView {
        if self.closed() {
            self
        } else {
            match udp_rx_in(message) {
                Err(_) => self,
                Ok(None) => self.route(message, DestinationView::BorderAgent, now),
                Ok(Some(udp_rx)) => if udp_rx.destination_port != DEFAULT_MM_PORT {
                    self
                } else {
                    match message_in(udp_rx.payload) {
                        None => self,
                        Some(inner) => self.route(
                            inner,
                            DestinationView::Mesh {
                                address: udp_rx.source_address,
                                port: udp_rx.source_port,
                            },
                            now,
                        ),
                    }
                },
            }
        }
    }

    /// The session after the first thing that a joiner session asks for; the
    /// relayed message is acknowledged after the last.
    #[verifier::opaque]
    pub open spec fn relay_outputs(
        self,
        outputs: Seq<RelayOutputView>,
        message: CoapView,
        now: u128,
    ) -> DriverView {
        if self.closed() {
            self
        } else if outputs.len() == 0 {
            self.answer_notification(
                message,
                DestinationView::BorderAgent,
                CoapView::empty(CoapType::Acknowledgement, message.message_id),
                now,
            )
        } else {
            match outputs[0] {
                RelayOutputView::Publish(event) => self.effect(EffectView::Publish(event)).push(
                    WorkView::RelayOutputs { outputs: outputs.drop_first(), message },
                ),
                RelayOutputView::Send(relayed) => {
                    let session = self.identified();
                    session.wait(
                        WaitingView::WireToken {
                            wire: CoapView { message_id: session.next_message_id, ..relayed },
                            then: AfterSendView::Relay { outputs: outputs.drop_first(), message },
                        },
                    )
                },
            }
        }
    }

    /// The session after one piece of work, with the rest of the work as it is.
    pub open spec fn perform(self, work: WorkView, now: u128) -> DriverView {
        match work {
            WorkView::Command(command) => self.command(command),
            WorkView::HandlesDropped => self.drop_handles(),
            WorkView::Received(message) => self.received(message, now),
            WorkView::ReceiveFailed(error) => self.receive_failed(error),
            WorkView::Timer => self.push(WorkView::KeepAliveCheck).push(
                WorkView::ExchangeTimers { index: 0, at: now },
            ),
            WorkView::SendQueued => self.send_queued(),
            WorkView::Complete { completion, outcome } => self.complete(completion, outcome, now),
            WorkView::EndSession(reason) => self.end_session(reason),
            WorkView::GoIdle => self.set_status(SessionStatusView::Idle),
            WorkView::Publish(event) => self.effect(EffectView::Publish(event)),
            WorkView::Reply { id, reply } => self.reply(id, reply),
            WorkView::ExchangeTimers { index, at } => self.exchange_timers(index, at),
            WorkView::KeepAliveCheck => self.keep_alive_check(now),
            WorkView::RelayOutputs { outputs, message } => self.relay_outputs(
                outputs,
                message,
                now,
            ),
        }
    }

    /// The session after the piece of work that is to be done next.
    pub open spec fn step(self, now: u128) -> DriverView {
        DriverView { work: self.work.drop_last(), ..self }.perform(self.work.last(), now)
    }

    /// Whether there is work that can be done now.
    pub open spec fn busy(self) -> bool {
        self.waiting is Idle && self.work.len() > 0
    }

    /// The session after everything that can be done now: it has nothing left
    /// to do, or waits for something.
    pub open spec fn run(self, now: u128) -> DriverView
        decreases self.weight(),
    {
        if self.busy() {
            proof {
                lemma_step_is_lighter(self, now);
            }
            self.step(now).run(now)
        } else {
            self
        }
    }

    /// The session with new work behind all the work there is.
    pub open spec fn given(self, work: WorkView) -> DriverView {
        DriverView { work: seq![work] + self.work, ..self }
    }

    /// When the session has to look at its timers next.
    pub open spec fn next_deadline(self) -> Option<u128> {
        earlier(earliest_timer(self.exchanges.in_flight), self.keep_alive_at)
    }

    /// An upper bound on the steps before the session rests or waits.
    pub open spec fn weight(self) -> nat {
        work_weight(self.work, self.exchanges.in_flight.len()) + 6 * self.exchanges.in_flight.len()
            + 8 * self.exchanges.queued.len()
    }
}

/// How much a piece of work weighs beside `in_flight` exchanges.
pub open spec fn weight_of(work: WorkView, in_flight: nat) -> nat {
    match work {
        WorkView::Command(_) => 12,
        WorkView::HandlesDropped => 12,
        WorkView::Received(_) => 12,
        WorkView::ReceiveFailed(_) => 12,
        WorkView::Timer => 20 + in_flight,
        WorkView::SendQueued => 1,
        WorkView::Complete { .. } => 5,
        WorkView::EndSession(_) => 2,
        WorkView::GoIdle => 1,
        WorkView::Publish(_) => 1,
        WorkView::Reply { .. } => 1,
        WorkView::ExchangeTimers { index, .. } => 4 + if index < in_flight {
            (in_flight - index) as nat
        } else {
            0
        },
        WorkView::KeepAliveCheck => 6,
        WorkView::RelayOutputs { outputs, .. } => 3 + outputs.len(),
    }
}

/// How much work weighs together.
pub open spec fn work_weight(work: Seq<WorkView>, in_flight: nat) -> nat
    decreases work.len(),
{
    if work.len() == 0 {
        0
    } else {
        work_weight(work.drop_last(), in_flight) + weight_of(work.last(), in_flight)
    }
}

proof fn lemma_weight_push(work: Seq<WorkView>, more: WorkView, in_flight: nat)
    ensures
        work_weight(work.push(more), in_flight) == work_weight(work, in_flight) + weight_of(
            more,
            in_flight,
        ),
{
    assert(work.push(more).drop_last() =~= work);
}

proof fn lemma_weight_shrinks(work: Seq<WorkView>, fewer: nat, in_flight: nat)
    requires
        fewer <= in_flight,
    ensures
        work_weight(work, fewer) <= work_weight(work, in_flight),
    decreases work.len(),
{
    if work.len() > 0 {
        lemma_weight_shrinks(work.drop_last(), fewer, in_flight);
    }
}

proof fn lemma_weight_failures(
    work: Seq<WorkView>,
    completions: Seq<Completion>,
    error: ErrorView,
    in_flight: nat,
)
    ensures
        work_weight(work + failures(completions, error), in_flight) == work_weight(work, in_flight)
            + 5 * completions.len(),
        failures(completions, error).len() == completions.len(),
    decreases completions.len(),
{
    if completions.len() == 0 {
        assert(work + failures(completions, error) =~= work);
    } else {
        let rest = failures(completions.drop_first(), error);
        lemma_weight_failures(work, completions.drop_first(), error, in_flight);
        let first = WorkView::Complete { completion: completions[0], outcome: Err(error) };
        assert(work + failures(completions, error) =~= (work + rest).push(first));
        lemma_weight_push(work + rest, first, in_flight);
    }
}

/// Every step leaves less to do.
pub proof fn lemma_step_is_lighter(session: DriverView, now: u128)
    requires
        session.busy(),
    ensures
        session.step(now).weight() < session.weight(),
{
    let rest = DriverView { work: session.work.drop_last(), ..session };
    lemma_perform_is_light(rest, session.work.last(), now);
}

proof fn lemma_perform_is_light(rest: DriverView, work: WorkView, now: u128)
    ensures
        rest.perform(work, now).weight() < rest.weight() + weight_of(
            work,
            rest.exchanges.in_flight.len(),
        ),
{
    match work {
        WorkView::Command(command) => {
            lemma_command_is_light(rest, command);
        },
        WorkView::Received(message) => {
            lemma_received_is_light(rest, message, now);
        },
        WorkView::ReceiveFailed(error) => {
            lemma_receive_failed_is_light(rest, error);
        },
        WorkView::Complete { completion, outcome } => {
            lemma_complete_is_light(rest, completion, outcome, now);
        },
        WorkView::EndSession(reason) => {
            lemma_end_is_light(rest, reason);
        },
        WorkView::ExchangeTimers { index, at } => {
            lemma_timers_are_light(rest, index, at);
        },
        WorkView::HandlesDropped => {
            reveal(DriverView::drop_handles);
            lemma_resign_is_light(DriverView { handles_dropped: true, ..rest }, None);
        },
        WorkView::Timer => {
            let n = rest.exchanges.in_flight.len();
            lemma_weight_push(rest.work, WorkView::KeepAliveCheck, n);
            lemma_weight_push(
                rest.work.push(WorkView::KeepAliveCheck),
                WorkView::ExchangeTimers { index: 0, at: now },
                n,
            );
        },
        WorkView::SendQueued => {
            reveal(DriverView::send_queued);
            let n = rest.exchanges.in_flight.len();
            lemma_weight_push(rest.work, WorkView::SendQueued, n);
        },
        WorkView::KeepAliveCheck => {
            reveal(DriverView::keep_alive_check);
            let n = rest.exchanges.in_flight.len();
            lemma_weight_push(
                rest.work,
                WorkView::Complete {
                    completion: Completion::KeepAlive { asked: None },
                    outcome: Err(not_active_error()),
                },
                n,
            );
        },
        WorkView::RelayOutputs { outputs, message } => {
            reveal(DriverView::relay_outputs);
            let n = rest.exchanges.in_flight.len();
            lemma_answer_notification_is_light(
                rest,
                message,
                DestinationView::BorderAgent,
                CoapView::empty(CoapType::Acknowledgement, message.message_id),
                now,
            );
            lemma_weight_push(
                rest.work,
                WorkView::RelayOutputs { outputs: outputs.drop_first(), message },
                n,
            );
        },
        _ => {},
    }
}

proof fn lemma_resign_is_light(rest: DriverView, asked: Option<u64>)
    ensures
        rest.resign(asked).weight() < rest.weight() + 12,
{
    let n = rest.exchanges.in_flight.len();
    let end = WorkView::EndSession(CloseReasonView::Resigned);
    match asked {
        Some(id) => {
            let reply = WorkView::Reply { id, reply: ReplyView::Resign(Ok(())) };
            lemma_weight_push(rest.work, reply, n);
            lemma_weight_push(rest.work.push(reply), end, n);
        },
        None => {
            lemma_weight_push(rest.work, end, n);
        },
    }
}

proof fn lemma_command_is_light(rest: DriverView, command: CommandView)
    ensures
        rest.command(command).weight() < rest.weight() + 12,
{
    reveal(DriverView::command);
    let n = rest.exchanges.in_flight.len();
    lemma_weight_push(rest.work, WorkView::SendQueued, n);
    match command {
        CommandView::Withdraw { id } => {
            crate::commissioner::exchange::law_withdrawing_takes_one_request(rest.exchanges, id);
            if let Some(left) = rest.exchanges.without(id) {
                lemma_weight_shrinks(rest.work, left.in_flight.len(), n);
                lemma_weight_push(rest.work, WorkView::SendQueued, left.in_flight.len());
            }
        },
        CommandView::KeepAlive { id } => {
            lemma_weight_push(
                rest.work,
                WorkView::Complete {
                    completion: Completion::KeepAlive { asked: Some(id) },
                    outcome: Err(not_active_error()),
                },
                n,
            );
        },
        CommandView::Resign { id } => {
            lemma_resign_is_light(rest, Some(id));
        },
        _ => {},
    }
}

proof fn lemma_complete_is_light(
    rest: DriverView,
    completion: Completion,
    outcome: OutcomeView,
    now: u128,
)
    ensures
        rest.complete(completion, outcome, now).weight() < rest.weight() + 5,
{
    reveal(DriverView::complete);
    let n = rest.exchanges.in_flight.len();
    match completion {
        Completion::Caller { .. } => {
            lemma_weight_push(rest.work, WorkView::SendQueued, n);
        },
        Completion::Petition { .. } => {},
        Completion::KeepAlive { .. } => {
            if let Some(reason) = keep_alive_end(keep_alive_result(outcome)) {
                lemma_weight_push(rest.work, WorkView::EndSession(reason), n);
            }
        },
        Completion::Resign { asked } => {
            let end = WorkView::EndSession(CloseReasonView::Resigned);
            lemma_weight_push(rest.work, end, n);
            if let Some(id) = asked {
                let reply = WorkView::Reply { id, reply: ReplyView::Resign(resign_result(outcome)) };
                lemma_weight_push(rest.work, reply, n);
                lemma_weight_push(rest.work.push(reply), end, n);
            }
        },
    }
}

proof fn lemma_end_is_light(rest: DriverView, reason: CloseReasonView)
    ensures
        rest.end_session(reason).weight() < rest.weight() + 2,
{
    reveal(DriverView::end_session);
    let n = rest.exchanges.in_flight.len();
    let lost = WorkView::Publish(EventView::SessionLost { reason });
    lemma_weight_shrinks(rest.work, 0, n);
    lemma_weight_push(rest.work, lost, 0);
    lemma_weight_failures(
        rest.work,
        rest.exchanges.everyone(),
        ErrorView::SessionClosed,
        0,
    );
    lemma_weight_failures(
        rest.work.push(lost),
        rest.exchanges.everyone(),
        ErrorView::SessionLost(reason),
        0,
    );
}

proof fn lemma_receive_failed_is_light(rest: DriverView, error: ErrorView)
    ensures
        rest.receive_failed(error).weight() < rest.weight() + 12,
{
    reveal(DriverView::receive_failed);
    let n = rest.exchanges.in_flight.len();
    lemma_weight_shrinks(rest.work, 0, n);
    lemma_weight_push(rest.work, WorkView::GoIdle, 0);
    lemma_weight_failures(
        rest.work.push(WorkView::GoIdle),
        rest.exchanges.everyone(),
        ErrorView::SessionLost(CloseReasonView::PeerClosed),
        0,
    );
    lemma_weight_push(rest.work, WorkView::EndSession(CloseReasonView::PeerClosed), n);
    lemma_weight_push(rest.work, WorkView::EndSession(transport_reason(error)), n);
}

proof fn lemma_timers_are_light(rest: DriverView, index: usize, at: u128)
    ensures
        rest.exchange_timers(index, at).weight() < rest.weight() + weight_of(
            WorkView::ExchangeTimers { index, at },
            rest.exchanges.in_flight.len(),
        ),
{
    reveal(DriverView::exchange_timers);
    let n = rest.exchanges.in_flight.len();
    lemma_weight_push(rest.work, WorkView::SendQueued, n);
    if index < n {
        let pending = rest.exchanges.in_flight[index as int];
        let fewer = (n - 1) as nat;
        let same = WorkView::ExchangeTimers { index, at };
        let expired = WorkView::Complete {
            completion: pending.completion,
            outcome: Err(timeout_error()),
        };
        lemma_weight_shrinks(rest.work, fewer, n);
        lemma_weight_push(rest.work, same, fewer);
        lemma_weight_push(rest.work.push(same), expired, fewer);
        if index + 1 < usize::MAX {
            lemma_weight_push(
                rest.work,
                WorkView::ExchangeTimers { index: (index + 1) as usize, at },
                n,
            );
        }
        if let Err(error) = rest.transmit(
            pending.request,
            pending.destination,
            AfterSendView::Retransmit { index, at },
        ) {
            lemma_weight_push(rest.work, WorkView::EndSession(transport_reason(error)), n);
        }
    }
}

proof fn lemma_received_is_light(rest: DriverView, message: CoapView, now: u128)
    ensures
        rest.received(message, now).weight() < rest.weight() + 12,
{
    reveal(DriverView::received);
    match udp_rx_in(message) {
        Ok(None) => {
            lemma_route_is_light(rest, message, DestinationView::BorderAgent, now);
        },
        Ok(Some(udp_rx)) => {
            if let Some(inner) = message_in(udp_rx.payload) {
                let origin = DestinationView::Mesh {
                    address: udp_rx.source_address,
                    port: udp_rx.source_port,
                };
                lemma_route_is_light(rest, inner, origin, now);
            }
        },
        _ => {},
    }
}

proof fn lemma_route_failed_is_light(rest: DriverView, error: ErrorView)
    ensures
        rest.route_failed(error).weight() <= rest.weight() + 2,
{
    lemma_weight_push(
        rest.work,
        WorkView::EndSession(transport_reason(error)),
        rest.exchanges.in_flight.len(),
    );
}

proof fn lemma_answer_notification_is_light(
    rest: DriverView,
    message: CoapView,
    origin: DestinationView,
    reply: CoapView,
    now: u128,
)
    ensures
        rest.answer_notification(message, origin, reply, now).weight() <= rest.weight() + 2,
{
    let then = AfterSendView::Routed;
    if let Err(error) = rest.answer(origin, message.message_id, reply, now, then) {
        lemma_route_failed_is_light(
            rest.remembering(origin, message.message_id, reply, now),
            error,
        );
    }
}

proof fn lemma_complete_answered_is_light(
    rest: DriverView,
    completion: Completion,
    response: CoapView,
    origin: DestinationView,
    now: u128,
)
    ensures
        rest.complete_answered(completion, response, origin, now).weight() <= rest.weight() + 5,
{
    let n = rest.exchanges.in_flight.len();
    let ack = CoapView::empty(CoapType::Acknowledgement, response.message_id);
    lemma_weight_push(
        rest.work,
        WorkView::Complete { completion, outcome: Err(reset_error()) },
        n,
    );
    lemma_weight_push(
        rest.work,
        WorkView::Complete { completion, outcome: Ok(Some(response)) },
        n,
    );
    if let Err(error) = rest.answer(
        origin,
        response.message_id,
        ack,
        now,
        AfterSendView::Answer { completion, response },
    ) {
        lemma_route_failed_is_light(
            rest.remembering(origin, response.message_id, ack, now).give_up(completion),
            error,
        );
    }
}

proof fn lemma_notification_is_light(
    rest: DriverView,
    notification: NotificationView,
    message: CoapView,
    origin: DestinationView,
    now: u128,
)
    ensures
        rest.route_notification(notification, message, origin, now).weight() <= rest.weight() + 2,
{
    let ack = CoapView::empty(CoapType::Acknowledgement, message.message_id);
    match origin {
        DestinationView::BorderAgent => {
            lemma_answer_notification_is_light(
                rest.report(notification, None),
                message,
                origin,
                ack,
                now,
            );
        },
        DestinationView::Mesh { address, .. } => {
            lemma_answer_notification_is_light(
                rest.report(notification, Some(address)),
                message,
                origin,
                message.changed_response(),
                now,
            );
        },
    }
}

proof fn lemma_fresh_is_light(
    rest: DriverView,
    message: CoapView,
    origin: DestinationView,
    now: u128,
)
    ensures
        rest.route_fresh(message, origin, now).weight() <= rest.weight() + 5,
{
    let n = rest.exchanges.in_flight.len();
    crate::commissioner::exchange::law_answers_stay_on_their_route(
        rest.exchanges,
        message,
        origin is Mesh,
    );
    match rest.exchanges.answered_by(message, origin is Mesh) {
        Some(i) => {
            let left = DriverView {
                exchanges: ExchangesView {
                    in_flight: rest.exchanges.in_flight.remove(i),
                    ..rest.exchanges
                },
                ..rest
            };
            lemma_weight_shrinks(rest.work, (n - 1) as nat, n);
            lemma_complete_answered_is_light(
                left,
                rest.exchanges.in_flight[i].completion,
                message,
                origin,
                now,
            );
        },
        None => {
            if let Ok(Some(notification)) = notification_in(message) {
                lemma_notification_is_light(rest, notification, message, origin, now);
            }
        },
    }
}

proof fn lemma_route_is_light(
    rest: DriverView,
    message: CoapView,
    origin: DestinationView,
    now: u128,
)
    ensures
        rest.route(message, origin, now).weight() < rest.weight() + 12,
{
    crate::commissioner::exchange::law_answers_stay_on_their_route(
        rest.exchanges,
        message,
        origin is Mesh,
    );
    lemma_fresh_is_light(rest, message, origin, now);
    lemma_fresh_is_light(rest.refreshed(now), message, origin, now);
    if let Some(reply) = reply_in(rest.answered, origin, message.message_id, now) {
        if let Err(error) = rest.refreshed(now).transmit(reply, origin, AfterSendView::Routed) {
            lemma_route_failed_is_light(rest.refreshed(now), error);
        }
    }
}

} // verus!
