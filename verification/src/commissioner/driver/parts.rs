//! What goes into the session driver and what comes out of it.

use vstd::prelude::*;

use crate::bytes::views;
use crate::commissioner::coap::{CoapMessage, CoapView};
use crate::commissioner::error::{Error, ErrorView};
use crate::commissioner::exchange::{Completion, Outbound, OutboundView};
use crate::commissioner::messages::{outcome_view, MeshcopNotification, NotificationView};
use crate::commissioner::types::{
    CloseReason, CloseReasonView, CommissionerEvent, EventView, PetitionResponse, PetitionView,
    ResultCode, SessionStatus, SessionStatusView,
};

verus! {

/// The outcome of an exchange.
pub type Outcome = Result<Option<CoapMessage>, Error>;

/// The outcome of an exchange over views.
pub type OutcomeView = Result<Option<CoapView>, ErrorView>;

/// A request from a handle to the driver. The number identifies who waits for
/// its reply.
#[derive(Debug)]
pub enum Command {
    /// Send a request and return its response.
    Exchange { id: u64, request: Outbound },
    /// The caller of the identified request stopped waiting for it.
    Withdraw { id: u64 },
    /// Petition to become the active commissioner.
    Petition { id: u64 },
    /// Send a keep-alive.
    KeepAlive { id: u64 },
    /// End the session.
    Resign { id: u64 },
    /// A joiner handler was installed or removed.
    SetJoinerHandler { installed: bool },
}

/// [`Command`] over views.
pub enum CommandView {
    Exchange { id: u64, request: OutboundView },
    Withdraw { id: u64 },
    Petition { id: u64 },
    KeepAlive { id: u64 },
    Resign { id: u64 },
    SetJoinerHandler { installed: bool },
}

impl View for Command {
    type V = CommandView;

    open spec fn view(&self) -> CommandView {
        match self {
            Command::Exchange { id, request } => CommandView::Exchange {
                id: *id,
                request: request@,
            },
            Command::Withdraw { id } => CommandView::Withdraw { id: *id },
            Command::Petition { id } => CommandView::Petition { id: *id },
            Command::KeepAlive { id } => CommandView::KeepAlive { id: *id },
            Command::Resign { id } => CommandView::Resign { id: *id },
            Command::SetJoinerHandler { installed } => CommandView::SetJoinerHandler {
                installed: *installed,
            },
        }
    }
}

/// The answer to a command.
#[derive(Debug)]
pub enum Reply {
    Exchange(Outcome),
    Petition(Result<PetitionResponse, Error>),
    KeepAlive(Result<ResultCode, Error>),
    Resign(Result<(), Error>),
}

/// [`Reply`] over views.
pub enum ReplyView {
    Exchange(OutcomeView),
    Petition(Result<PetitionView, ErrorView>),
    KeepAlive(Result<ResultCode, ErrorView>),
    Resign(Result<(), ErrorView>),
}

/// The result of a petition over views.
pub open spec fn petition_view(result: Result<PetitionResponse, Error>) -> Result<
    PetitionView,
    ErrorView,
> {
    match result {
        Ok(petition) => Ok(petition@),
        Err(error) => Err(error@),
    }
}

/// A result with a plain value over views.
pub open spec fn result_view<T>(result: Result<T, Error>) -> Result<T, ErrorView> {
    match result {
        Ok(value) => Ok(value),
        Err(error) => Err(error@),
    }
}

impl View for Reply {
    type V = ReplyView;

    open spec fn view(&self) -> ReplyView {
        match self {
            Reply::Exchange(outcome) => ReplyView::Exchange(outcome_view(*outcome)),
            Reply::Petition(result) => ReplyView::Petition(petition_view(*result)),
            Reply::KeepAlive(result) => ReplyView::KeepAlive(result_view(*result)),
            Reply::Resign(result) => ReplyView::Resign(result_view(*result)),
        }
    }
}

/// What the driver tells the outside. Effects are carried out in order.
#[derive(Debug)]
pub enum Effect {
    /// The session stands somewhere else.
    Status(SessionStatus),
    /// Publish an event to every subscriber.
    Publish(CommissionerEvent),
    /// Publish a notification of the device at the address, or of the border
    /// agent where there is none.
    Report { notification: MeshcopNotification, source: Option<[u8; 16]> },
    /// Answer whoever waits under the number.
    Reply { id: u64, reply: Reply },
    /// Drop the DTLS session.
    CloseLink,
    /// Drop the joiner sessions.
    ClearJoiners,
    /// Forget the cached mesh-local prefix.
    InvalidatePrefix,
}

/// [`Effect`] over views.
pub enum EffectView {
    Status(SessionStatusView),
    Publish(EventView),
    Report { notification: NotificationView, source: Option<Seq<u8>> },
    Reply { id: u64, reply: ReplyView },
    CloseLink,
    ClearJoiners,
    InvalidatePrefix,
}

/// An optional address over views.
pub open spec fn source_view(source: Option<[u8; 16]>) -> Option<Seq<u8>> {
    match source {
        Some(address) => Some(address@),
        None => None,
    }
}

impl View for Effect {
    type V = EffectView;

    open spec fn view(&self) -> EffectView {
        match self {
            Effect::Status(status) => EffectView::Status(status@),
            Effect::Publish(event) => EffectView::Publish(event@),
            Effect::Report { notification, source } => EffectView::Report {
                notification: notification@,
                source: source_view(*source),
            },
            Effect::Reply { id, reply } => EffectView::Reply { id: *id, reply: reply@ },
            Effect::CloseLink => EffectView::CloseLink,
            Effect::ClearJoiners => EffectView::ClearJoiners,
            Effect::InvalidatePrefix => EffectView::InvalidatePrefix,
        }
    }
}

/// What a joiner session asks for.
#[derive(Debug)]
pub enum RelayOutput {
    /// Send a message to the border agent; its identity is assigned then.
    Send(CoapMessage),
    /// Publish an event to every subscriber.
    Publish(CommissionerEvent),
}

/// [`RelayOutput`] over views.
pub enum RelayOutputView {
    Send(CoapView),
    Publish(EventView),
}

impl View for RelayOutput {
    type V = RelayOutputView;

    open spec fn view(&self) -> RelayOutputView {
        match self {
            RelayOutput::Send(message) => RelayOutputView::Send(message@),
            RelayOutput::Publish(event) => RelayOutputView::Publish(event@),
        }
    }
}

/// What a joiner session asks for, over views.
pub open spec fn relay_view(result: Result<Vec<RelayOutput>, Error>) -> Result<
    Seq<RelayOutputView>,
    ErrorView,
> {
    match result {
        Ok(outputs) => Ok(views(outputs@)),
        Err(error) => Err(error@),
    }
}

/// What happens once a message was sent.
#[derive(Debug)]
pub enum AfterSend {
    /// Track the response to the request.
    Track { request: Outbound, completion: Completion },
    /// Count the retransmission and go on with the timers.
    Retransmit { index: usize, at: u128 },
    /// Complete the exchange that the response answers.
    Answer { completion: Completion, response: CoapMessage },
    /// Go on with what a joiner session asks for.
    Relay { outputs: Vec<RelayOutput>, message: CoapMessage },
    /// Nothing.
    Routed,
}

/// [`AfterSend`] over views.
pub enum AfterSendView {
    Track { request: OutboundView, completion: Completion },
    Retransmit { index: usize, at: u128 },
    Answer { completion: Completion, response: CoapView },
    Relay { outputs: Seq<RelayOutputView>, message: CoapView },
    Routed,
}

impl View for AfterSend {
    type V = AfterSendView;

    open spec fn view(&self) -> AfterSendView {
        match self {
            AfterSend::Track { request, completion } => AfterSendView::Track {
                request: request@,
                completion: *completion,
            },
            AfterSend::Retransmit { index, at } => AfterSendView::Retransmit {
                index: *index,
                at: *at,
            },
            AfterSend::Answer { completion, response } => AfterSendView::Answer {
                completion: *completion,
                response: response@,
            },
            AfterSend::Relay { outputs, message } => AfterSendView::Relay {
                outputs: views(outputs@),
                message: message@,
            },
            AfterSend::Routed => AfterSendView::Routed,
        }
    }
}

/// What happens once the link is open again.
#[derive(Debug)]
pub enum AfterReopen {
    /// Queue a request.
    Submit { id: u64, request: Outbound },
    /// Petition.
    Petition { id: u64 },
}

/// [`AfterReopen`] over views.
pub enum AfterReopenView {
    Submit { id: u64, request: OutboundView },
    Petition { id: u64 },
}

impl View for AfterReopen {
    type V = AfterReopenView;

    open spec fn view(&self) -> AfterReopenView {
        match self {
            AfterReopen::Submit { id, request } => AfterReopenView::Submit {
                id: *id,
                request: request@,
            },
            AfterReopen::Petition { id } => AfterReopenView::Petition { id: *id },
        }
    }
}

/// What the driver waits for.
#[derive(Debug)]
pub enum Waiting {
    /// Nothing.
    Idle,
    /// A token for a request.
    RequestToken { request: Outbound, completion: Completion },
    /// A token for a message that is ready otherwise.
    WireToken { wire: CoapMessage, then: AfterSend },
    /// A message to be sent.
    Send { wire: CoapMessage, then: AfterSend },
    /// The link to be open again.
    Reopen(AfterReopen),
    /// The joiner session of a relayed payload.
    Relay {
        joiner_udp_port: u16,
        joiner_router_locator: u16,
        joiner_iid: [u8; 8],
        payload: Vec<u8>,
        message: CoapMessage,
    },
}

/// [`Waiting`] over views.
pub enum WaitingView {
    Idle,
    RequestToken { request: OutboundView, completion: Completion },
    WireToken { wire: CoapView, then: AfterSendView },
    Send { wire: CoapView, then: AfterSendView },
    Reopen(AfterReopenView),
    Relay {
        joiner_udp_port: u16,
        joiner_router_locator: u16,
        joiner_iid: Seq<u8>,
        payload: Seq<u8>,
        message: CoapView,
    },
}

impl View for Waiting {
    type V = WaitingView;

    open spec fn view(&self) -> WaitingView {
        match self {
            Waiting::Idle => WaitingView::Idle,
            Waiting::RequestToken { request, completion } => WaitingView::RequestToken {
                request: request@,
                completion: *completion,
            },
            Waiting::WireToken { wire, then } => WaitingView::WireToken {
                wire: wire@,
                then: then@,
            },
            Waiting::Send { wire, then } => WaitingView::Send { wire: wire@, then: then@ },
            Waiting::Reopen(then) => WaitingView::Reopen(then@),
            Waiting::Relay {
                joiner_udp_port,
                joiner_router_locator,
                joiner_iid,
                payload,
                message,
            } => WaitingView::Relay {
                joiner_udp_port: *joiner_udp_port,
                joiner_router_locator: *joiner_router_locator,
                joiner_iid: joiner_iid@,
                payload: payload@,
                message: message@,
            },
        }
    }
}

/// A piece of work. What is done first stands last.
#[derive(Debug)]
pub enum Work {
    /// A handle asks for something.
    Command(Command),
    /// Every handle has been dropped.
    HandlesDropped,
    /// A message arrived.
    Received(CoapMessage),
    /// Receiving failed.
    ReceiveFailed(Error),
    /// A timer is due.
    Timer,
    /// Send queued application requests while the in-flight limit allows.
    SendQueued,
    /// Deliver an outcome to whoever waits for it.
    Complete { completion: Completion, outcome: Outcome },
    /// End the session.
    EndSession(CloseReason),
    /// The session goes idle.
    GoIdle,
    /// Publish an event.
    Publish(CommissionerEvent),
    /// Answer a command.
    Reply { id: u64, reply: Reply },
    /// Retransmit and expire exchanges from the index on.
    ExchangeTimers { index: usize, at: u128 },
    /// Send a keep-alive where one is due.
    KeepAliveCheck,
    /// What a joiner session asks for, and the message that it answers.
    RelayOutputs { outputs: Vec<RelayOutput>, message: CoapMessage },
}

/// [`Work`] over views.
pub enum WorkView {
    Command(CommandView),
    HandlesDropped,
    Received(CoapView),
    ReceiveFailed(ErrorView),
    Timer,
    SendQueued,
    Complete { completion: Completion, outcome: OutcomeView },
    EndSession(CloseReasonView),
    GoIdle,
    Publish(EventView),
    Reply { id: u64, reply: ReplyView },
    ExchangeTimers { index: usize, at: u128 },
    KeepAliveCheck,
    RelayOutputs { outputs: Seq<RelayOutputView>, message: CoapView },
}

impl View for Work {
    type V = WorkView;

    open spec fn view(&self) -> WorkView {
        match self {
            Work::Command(command) => WorkView::Command(command@),
            Work::HandlesDropped => WorkView::HandlesDropped,
            Work::Received(message) => WorkView::Received(message@),
            Work::ReceiveFailed(error) => WorkView::ReceiveFailed(error@),
            Work::Timer => WorkView::Timer,
            Work::SendQueued => WorkView::SendQueued,
            Work::Complete { completion, outcome } => WorkView::Complete {
                completion: *completion,
                outcome: outcome_view(*outcome),
            },
            Work::EndSession(reason) => WorkView::EndSession(reason@),
            Work::GoIdle => WorkView::GoIdle,
            Work::Publish(event) => WorkView::Publish(event@),
            Work::Reply { id, reply } => WorkView::Reply { id: *id, reply: reply@ },
            Work::ExchangeTimers { index, at } => WorkView::ExchangeTimers {
                index: *index,
                at: *at,
            },
            Work::KeepAliveCheck => WorkView::KeepAliveCheck,
            Work::RelayOutputs { outputs, message } => WorkView::RelayOutputs {
                outputs: views(outputs@),
                message: message@,
            },
        }
    }
}

/// What the driver's caller has to do next.
#[derive(Debug)]
pub enum DriverAction {
    /// Wait for a command, a datagram or the next deadline.
    Rest,
    /// Draw a token.
    DrawToken,
    /// Send the message, and report how that ended.
    Send(CoapMessage),
    /// Open the link again, and report how that ended.
    Reopen,
    /// Hand the payload to the joiner's session, and report what it asks for.
    Relay {
        joiner_udp_port: u16,
        joiner_router_locator: u16,
        joiner_iid: [u8; 8],
        payload: Vec<u8>,
    },
}

/// [`DriverAction`] over views.
pub enum DriverActionView {
    Rest,
    DrawToken,
    Send(CoapView),
    Reopen,
    Relay {
        joiner_udp_port: u16,
        joiner_router_locator: u16,
        joiner_iid: Seq<u8>,
        payload: Seq<u8>,
    },
}

impl View for DriverAction {
    type V = DriverActionView;

    open spec fn view(&self) -> DriverActionView {
        match self {
            DriverAction::Rest => DriverActionView::Rest,
            DriverAction::DrawToken => DriverActionView::DrawToken,
            DriverAction::Send(message) => DriverActionView::Send(message@),
            DriverAction::Reopen => DriverActionView::Reopen,
            DriverAction::Relay { joiner_udp_port, joiner_router_locator, joiner_iid, payload } =>
                DriverActionView::Relay {
                joiner_udp_port: *joiner_udp_port,
                joiner_router_locator: *joiner_router_locator,
                joiner_iid: joiner_iid@,
                payload: payload@,
            },
        }
    }
}

impl WaitingView {
    /// What the caller has to do meanwhile.
    pub open spec fn action(self) -> DriverActionView {
        match self {
            WaitingView::Idle => DriverActionView::Rest,
            WaitingView::RequestToken { .. } => DriverActionView::DrawToken,
            WaitingView::WireToken { .. } => DriverActionView::DrawToken,
            WaitingView::Send { wire, .. } => DriverActionView::Send(wire),
            WaitingView::Reopen(_) => DriverActionView::Reopen,
            WaitingView::Relay {
                joiner_udp_port,
                joiner_router_locator,
                joiner_iid,
                payload,
                ..
            } => DriverActionView::Relay {
                joiner_udp_port,
                joiner_router_locator,
                joiner_iid,
                payload,
            },
        }
    }
}

} // verus!
