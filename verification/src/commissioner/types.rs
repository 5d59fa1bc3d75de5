//! Public value types of a commissioner session.

use vstd::prelude::*;

use crate::bytes::copy_all;
use crate::commissioner::error::optional_text;

verus! {

/// Where a commissioner session stands.
#[derive(Debug, PartialEq, Eq)]
#[non_exhaustive]
pub enum SessionStatus {
    /// The DTLS session is up and the commissioner has not petitioned.
    Connected,
    /// A connect-only session was closed by the border agent. It is opened
    /// again, with a new DTLS handshake, when a request needs it.
    Idle,
    /// A petition is in flight.
    Petitioning,
    /// The petition was accepted.
    Active {
        /// Commissioner session ID allocated by the Leader.
        session_id: u16,
    },
    /// The session has ended; the handle can no longer be used.
    Closed {
        /// Why the session ended.
        reason: CloseReason,
    },
}

/// [`SessionStatus`] over views.
pub enum SessionStatusView {
    Connected,
    Idle,
    Petitioning,
    Active { session_id: u16 },
    Closed { reason: CloseReasonView },
}

impl View for SessionStatus {
    type V = SessionStatusView;

    open spec fn view(&self) -> SessionStatusView {
        match self {
            SessionStatus::Connected => SessionStatusView::Connected,
            SessionStatus::Idle => SessionStatusView::Idle,
            SessionStatus::Petitioning => SessionStatusView::Petitioning,
            SessionStatus::Active { session_id } => SessionStatusView::Active {
                session_id: *session_id,
            },
            SessionStatus::Closed { reason } => SessionStatusView::Closed { reason: reason@ },
        }
    }
}

impl SessionStatusView {
    /// The commissioner session ID while the session is active.
    pub open spec fn session_id(self) -> Option<u16> {
        match self {
            SessionStatusView::Active { session_id } => Some(session_id),
            _ => None,
        }
    }
}

impl Clone for SessionStatus {
    fn clone(&self) -> (status: Self)
        ensures
            status@ == self@,
    {
        match self {
            SessionStatus::Connected => SessionStatus::Connected,
            SessionStatus::Idle => SessionStatus::Idle,
            SessionStatus::Petitioning => SessionStatus::Petitioning,
            SessionStatus::Active { session_id } => SessionStatus::Active {
                session_id: *session_id,
            },
            SessionStatus::Closed { reason } => SessionStatus::Closed { reason: reason.clone() },
        }
    }
}

impl SessionStatus {
    /// Returns the commissioner session ID while the session is active.
    pub fn session_id(&self) -> (id: Option<u16>)
        ensures
            id == self@.session_id(),
    {
        match self {
            SessionStatus::Active { session_id } => Some(*session_id),
            _ => None,
        }
    }

    /// Returns whether the petition has been accepted and the session has not
    /// ended.
    pub fn is_active(&self) -> (active: bool)
        ensures
            active == self@ is Active,
    {
        match self {
            SessionStatus::Active { .. } => true,
            _ => false,
        }
    }

    /// The status that a handle reports: what the session task said last,
    /// unless the task stopped without ending the session.
    pub fn observed(&self, task_stopped: bool) -> (status: SessionStatus)
        ensures
            status@ == (if task_stopped && self@ !is Closed {
                SessionStatusView::Closed { reason: CloseReasonView::TaskStopped }
            } else {
                self@
            }),
    {
        match self {
            SessionStatus::Closed { .. } => self.clone(),
            _ => if task_stopped {
                SessionStatus::Closed { reason: CloseReason::TaskStopped }
            } else {
                self.clone()
            },
        }
    }
}

/// Why a commissioner session ended.
#[derive(Debug, PartialEq, Eq)]
#[non_exhaustive]
pub enum CloseReason {
    /// The application ended the session, by resigning or by dropping every
    /// handle.
    Resigned,
    /// The border agent answered a keep-alive with Reject.
    KeepAliveRejected,
    /// The border agent answered a keep-alive with Pending.
    KeepAlivePending,
    /// A keep-alive exchange failed, for example by timing out.
    KeepAliveFailed {
        /// Description of the failure.
        error: String,
    },
    /// The border agent closed the DTLS session with `close_notify`.
    PeerClosed,
    /// Sending or receiving on the session failed.
    TransportFailed {
        /// Description of the failure.
        error: String,
    },
    /// The session's background task stopped without ending the session. No
    /// [`CommissionerEvent::SessionLost`] is published for this reason.
    TaskStopped,
}

/// [`CloseReason`] over views.
pub enum CloseReasonView {
    Resigned,
    KeepAliveRejected,
    KeepAlivePending,
    KeepAliveFailed { error: Seq<char> },
    PeerClosed,
    TransportFailed { error: Seq<char> },
    TaskStopped,
}

impl View for CloseReason {
    type V = CloseReasonView;

    open spec fn view(&self) -> CloseReasonView {
        match self {
            CloseReason::Resigned => CloseReasonView::Resigned,
            CloseReason::KeepAliveRejected => CloseReasonView::KeepAliveRejected,
            CloseReason::KeepAlivePending => CloseReasonView::KeepAlivePending,
            CloseReason::KeepAliveFailed { error } => CloseReasonView::KeepAliveFailed {
                error: error@,
            },
            CloseReason::PeerClosed => CloseReasonView::PeerClosed,
            CloseReason::TransportFailed { error } => CloseReasonView::TransportFailed {
                error: error@,
            },
            CloseReason::TaskStopped => CloseReasonView::TaskStopped,
        }
    }
}

impl CloseReasonView {
    /// The text shown to users.
    pub open spec fn text(self) -> Seq<char> {
        match self {
            CloseReasonView::Resigned => "the application ended the session"@,
            CloseReasonView::KeepAliveRejected => "a keep-alive was rejected"@,
            CloseReasonView::KeepAlivePending => "a keep-alive was answered with Pending"@,
            CloseReasonView::KeepAliveFailed { error } => "a keep-alive failed: "@ + error,
            CloseReasonView::PeerClosed => "the border agent closed the DTLS session"@,
            CloseReasonView::TransportFailed { error } => "the transport failed: "@ + error,
            CloseReasonView::TaskStopped => "the session task stopped unexpectedly"@,
        }
    }
}

impl Clone for CloseReason {
    fn clone(&self) -> (reason: Self)
        ensures
            reason@ == self@,
    {
        match self {
            CloseReason::Resigned => CloseReason::Resigned,
            CloseReason::KeepAliveRejected => CloseReason::KeepAliveRejected,
            CloseReason::KeepAlivePending => CloseReason::KeepAlivePending,
            CloseReason::KeepAliveFailed { error } => CloseReason::KeepAliveFailed {
                error: error.clone(),
            },
            CloseReason::PeerClosed => CloseReason::PeerClosed,
            CloseReason::TransportFailed { error } => CloseReason::TransportFailed {
                error: error.clone(),
            },
            CloseReason::TaskStopped => CloseReason::TaskStopped,
        }
    }
}

impl CloseReason {
    /// The text shown to users.
    pub fn message(&self) -> (message: String)
        ensures
            message@ == self@.text(),
    {
        match self {
            CloseReason::Resigned => String::from_str("the application ended the session"),
            CloseReason::KeepAliveRejected => String::from_str("a keep-alive was rejected"),
            CloseReason::KeepAlivePending => String::from_str(
                "a keep-alive was answered with Pending",
            ),
            CloseReason::KeepAliveFailed { error } => String::from_str(
                "a keep-alive failed: ",
            ).concat(error.as_str()),
            CloseReason::PeerClosed => String::from_str("the border agent closed the DTLS session"),
            CloseReason::TransportFailed { error } => String::from_str(
                "the transport failed: ",
            ).concat(error.as_str()),
            CloseReason::TaskStopped => String::from_str("the session task stopped unexpectedly"),
        }
    }
}

/// Where a raw MeshCoP request is sent.
#[derive(Debug, Clone, Copy, PartialEq, Eq)]
pub enum Destination {
    /// The border agent, directly over the commissioner DTLS session.
    BorderAgent,
    /// A mesh address, through the border agent's UDP_TX/UDP_RX proxy.
    Mesh {
        /// Destination IPv6 address on the Thread mesh.
        address: [u8; 16],
        /// Destination UDP port.
        port: u16,
    },
}

/// [`Destination`] with its address as a sequence.
pub enum DestinationView {
    BorderAgent,
    Mesh { address: Seq<u8>, port: u16 },
}

impl View for Destination {
    type V = DestinationView;

    open spec fn view(&self) -> DestinationView {
        match self {
            Destination::BorderAgent => DestinationView::BorderAgent,
            Destination::Mesh { address, port } => DestinationView::Mesh {
                address: address@,
                port: *port,
            },
        }
    }
}

impl Destination {
    /// Whether both are the same place.
    pub fn same(&self, other: &Destination) -> (same: bool)
        ensures
            same == (self@ == other@),
    {
        match (self, other) {
            (Destination::BorderAgent, Destination::BorderAgent) => true,
            (
                Destination::Mesh { address, port },
                Destination::Mesh { address: other_address, port: other_port },
            ) => *port == *other_port && crate::bytes::same_bytes(
                address.as_slice(),
                other_address.as_slice(),
            ),
            _ => false,
        }
    }

    /// Whether the place is reached through the UDP proxy.
    pub fn is_mesh(&self) -> (mesh: bool)
        ensures
            mesh == self@ is Mesh,
    {
        match self {
            Destination::BorderAgent => false,
            Destination::Mesh { .. } => true,
        }
    }
}

/// Network diagnostic TLVs as they were received.
#[derive(Debug, PartialEq, Eq)]
pub struct NetDiagData {
    pub tlvs: Vec<u8>,
}

impl Clone for NetDiagData {
    fn clone(&self) -> (data: Self)
        ensures
            data.tlvs@ == self.tlvs@,
    {
        NetDiagData { tlvs: copy_all(self.tlvs.as_slice()) }
    }
}

/// Vendor and provisioning information carried by a JOIN_FIN.req.
#[derive(Debug, PartialEq, Eq)]
pub struct JoinerFinalizeInfo {
    /// Vendor Name TLV.
    pub vendor_name: String,
    /// Vendor Model TLV.
    pub vendor_model: String,
    /// Vendor SW Version TLV.
    pub vendor_sw_version: String,
    /// Vendor Stack Version TLV bytes.
    pub vendor_stack_version: Vec<u8>,
    /// Provisioning URL TLV, when present.
    pub provisioning_url: Option<String>,
    /// Vendor Data TLV, when present.
    pub vendor_data: Option<Vec<u8>>,
}

/// [`JoinerFinalizeInfo`] over sequences.
#[verifier::ext_equal]
pub struct FinalizeView {
    pub vendor_name: Seq<char>,
    pub vendor_model: Seq<char>,
    pub vendor_sw_version: Seq<char>,
    pub vendor_stack_version: Seq<u8>,
    pub provisioning_url: Option<Seq<char>>,
    pub vendor_data: Option<Seq<u8>>,
}

impl View for JoinerFinalizeInfo {
    type V = FinalizeView;

    open spec fn view(&self) -> FinalizeView {
        FinalizeView {
            vendor_name: self.vendor_name@,
            vendor_model: self.vendor_model@,
            vendor_sw_version: self.vendor_sw_version@,
            vendor_stack_version: self.vendor_stack_version@,
            provisioning_url: optional_text(self.provisioning_url),
            vendor_data: match self.vendor_data {
                Some(data) => Some(data@),
                None => None,
            },
        }
    }
}

impl Clone for JoinerFinalizeInfo {
    fn clone(&self) -> (info: Self)
        ensures
            info@ == self@,
    {
        JoinerFinalizeInfo {
            vendor_name: self.vendor_name.clone(),
            vendor_model: self.vendor_model.clone(),
            vendor_sw_version: self.vendor_sw_version.clone(),
            vendor_stack_version: copy_all(self.vendor_stack_version.as_slice()),
            provisioning_url: match &self.provisioning_url {
                Some(url) => Some(url.clone()),
                None => None,
            },
            vendor_data: match &self.vendor_data {
                Some(data) => Some(copy_all(data.as_slice())),
                None => None,
            },
        }
    }
}

/// Events emitted by a commissioner session.
#[allow(inconsistent_fields)]
#[derive(Debug, PartialEq, Eq)]
#[non_exhaustive]
pub enum CommissionerEvent {
    /// The session ended for a reason other than the application ending it.
    SessionLost {
        /// Why the session ended.
        reason: CloseReason,
    },
    /// This subscriber fell behind and missed events.
    Lagged {
        /// Number of events that were dropped for this subscriber.
        missed: u64,
    },
    /// Keepalive response status.
    KeepAliveResponse(ResultCode),
    /// Dataset changed notification.
    DatasetChanged,
    /// PAN ID conflict report.
    PanIdConflict {
        /// Reporting peer address.
        peer_addr: String,
        /// Channel mask used for the scan.
        channel_mask: u32,
        /// Conflicting PAN ID.
        pan_id: u16,
    },
    /// Energy scan report.
    EnergyReport {
        /// Reporting peer address.
        peer_addr: String,
        /// Channel mask used for the scan.
        channel_mask: u32,
        /// Energy list in dBm.
        energy_list: Vec<u8>,
    },
    /// Raw joiner proxy payload.
    JoinerMessage {
        /// Joiner ID.
        joiner_id: Vec<u8>,
        /// Joiner UDP port.
        port: u16,
        /// Payload bytes.
        payload: Vec<u8>,
    },
    /// DIAG_GET.ans network diagnostic answer.
    DiagnosticAnswer {
        /// Reporting peer address.
        peer_addr: String,
        /// Network diagnostic TLVs.
        data: NetDiagData,
    },
    /// A joiner completed its DTLS handshake with the commissioner.
    JoinerConnected {
        /// Joiner ID.
        joiner_id: [u8; 8],
    },
    /// A joiner's JOIN_FIN.req was answered.
    JoinerFinalized {
        /// Joiner ID.
        joiner_id: [u8; 8],
        /// Whether the joiner was accepted.
        accepted: bool,
        /// Vendor information from the request.
        info: JoinerFinalizeInfo,
    },
}

/// [`CommissionerEvent`] over views.
pub enum EventView {
    SessionLost { reason: CloseReasonView },
    Lagged { missed: u64 },
    KeepAliveResponse(ResultCode),
    DatasetChanged,
    PanIdConflict { peer_addr: Seq<char>, channel_mask: u32, pan_id: u16 },
    EnergyReport { peer_addr: Seq<char>, channel_mask: u32, energy_list: Seq<u8> },
    JoinerMessage { joiner_id: Seq<u8>, port: u16, payload: Seq<u8> },
    DiagnosticAnswer { peer_addr: Seq<char>, data: Seq<u8> },
    JoinerConnected { joiner_id: Seq<u8> },
    JoinerFinalized { joiner_id: Seq<u8>, accepted: bool, info: FinalizeView },
}

impl View for CommissionerEvent {
    type V = EventView;

    open spec fn view(&self) -> EventView {
        match self {
            CommissionerEvent::SessionLost { reason } => EventView::SessionLost {
                reason: reason@,
            },
            CommissionerEvent::Lagged { missed } => EventView::Lagged { missed: *missed },
            CommissionerEvent::KeepAliveResponse(code) => EventView::KeepAliveResponse(*code),
            CommissionerEvent::DatasetChanged => EventView::DatasetChanged,
            CommissionerEvent::PanIdConflict { peer_addr, channel_mask, pan_id } =>
                EventView::PanIdConflict {
                peer_addr: peer_addr@,
                channel_mask: *channel_mask,
                pan_id: *pan_id,
            },
            CommissionerEvent::EnergyReport { peer_addr, channel_mask, energy_list } =>
                EventView::EnergyReport {
                peer_addr: peer_addr@,
                channel_mask: *channel_mask,
                energy_list: energy_list@,
            },
            CommissionerEvent::JoinerMessage { joiner_id, port, payload } =>
                EventView::JoinerMessage {
                joiner_id: joiner_id@,
                port: *port,
                payload: payload@,
            },
            CommissionerEvent::DiagnosticAnswer { peer_addr, data } =>
                EventView::DiagnosticAnswer { peer_addr: peer_addr@, data: data.tlvs@ },
            CommissionerEvent::JoinerConnected { joiner_id } => EventView::JoinerConnected {
                joiner_id: joiner_id@,
            },
            CommissionerEvent::JoinerFinalized { joiner_id, accepted, info } =>
                EventView::JoinerFinalized {
                joiner_id: joiner_id@,
                accepted: *accepted,
                info: info@,
            },
        }
    }
}

impl Clone for CommissionerEvent {
    fn clone(&self) -> (event: Self)
        ensures
            event@ == self@,
    {
        match self {
            CommissionerEvent::SessionLost { reason } => CommissionerEvent::SessionLost {
                reason: reason.clone(),
            },
            CommissionerEvent::Lagged { missed } => CommissionerEvent::Lagged { missed: *missed },
            CommissionerEvent::KeepAliveResponse(code) => CommissionerEvent::KeepAliveResponse(
                *code,
            ),
            CommissionerEvent::DatasetChanged => CommissionerEvent::DatasetChanged,
            CommissionerEvent::PanIdConflict { peer_addr, channel_mask, pan_id } =>
                CommissionerEvent::PanIdConflict {
                peer_addr: peer_addr.clone(),
                channel_mask: *channel_mask,
                pan_id: *pan_id,
            },
            CommissionerEvent::EnergyReport { peer_addr, channel_mask, energy_list } =>
                CommissionerEvent::EnergyReport {
                peer_addr: peer_addr.clone(),
                channel_mask: *channel_mask,
                energy_list: copy_all(energy_list.as_slice()),
            },
            CommissionerEvent::JoinerMessage { joiner_id, port, payload } =>
                CommissionerEvent::JoinerMessage {
                joiner_id: copy_all(joiner_id.as_slice()),
                port: *port,
                payload: copy_all(payload.as_slice()),
            },
            CommissionerEvent::DiagnosticAnswer { peer_addr, data } =>
                CommissionerEvent::DiagnosticAnswer {
                peer_addr: peer_addr.clone(),
                data: data.clone(),
            },
            CommissionerEvent::JoinerConnected { joiner_id } =>
                CommissionerEvent::JoinerConnected { joiner_id: *joiner_id },
            CommissionerEvent::JoinerFinalized { joiner_id, accepted, info } =>
                CommissionerEvent::JoinerFinalized {
                joiner_id: *joiner_id,
                accepted: *accepted,
                info: info.clone(),
            },
        }
    }
}

/// MeshCoP result status.
#[derive(Debug, Clone, Copy, PartialEq, Eq, Structural)]
pub enum ResultCode {
    /// Accepted.
    Accept,
    /// Rejected.
    Reject,
    /// Pending.
    Pending,
}

/// Petition response.
#[derive(Debug, PartialEq, Eq)]
pub struct PetitionResponse {
    /// Allocated commissioner session ID.
    pub session_id: u16,
    /// Existing commissioner ID when the petition is rejected by an active
    /// commissioner.
    pub existing_commissioner_id: Option<String>,
}

/// [`PetitionResponse`] over views.
#[verifier::ext_equal]
pub struct PetitionView {
    pub session_id: u16,
    pub existing_commissioner_id: Option<Seq<char>>,
}

impl View for PetitionResponse {
    type V = PetitionView;

    open spec fn view(&self) -> PetitionView {
        PetitionView {
            session_id: self.session_id,
            existing_commissioner_id: optional_text(self.existing_commissioner_id),
        }
    }
}

impl Clone for PetitionResponse {
    fn clone(&self) -> (response: Self)
        ensures
            response@ == self@,
    {
        PetitionResponse {
            session_id: self.session_id,
            existing_commissioner_id: match &self.existing_commissioner_id {
                Some(id) => Some(id.clone()),
                None => None,
            },
        }
    }
}

/// The text of the reason for which a session ended.
pub proof fn law_a_close_reason_is_told(error: Seq<char>)
    ensures
        CloseReasonView::Resigned.text() == "the application ended the session"@,
        CloseReasonView::KeepAliveRejected.text() == "a keep-alive was rejected"@,
        CloseReasonView::KeepAlivePending.text() == "a keep-alive was answered with Pending"@,
        (CloseReasonView::KeepAliveFailed { error }).text() == "a keep-alive failed: "@ + error,
        CloseReasonView::PeerClosed.text() == "the border agent closed the DTLS session"@,
        (CloseReasonView::TransportFailed { error }).text() == "the transport failed: "@ + error,
        CloseReasonView::TaskStopped.text() == "the session task stopped unexpectedly"@,
{
}

/// Only an active session has an ID: the one that it was given.
pub proof fn law_only_an_active_session_has_an_id(status: SessionStatusView, session_id: u16)
    ensures
        status.session_id() == Some(session_id) <==> status == (SessionStatusView::Active {
            session_id,
        }),
        status.session_id() is Some <==> status is Active,
{
}

} // verus!
