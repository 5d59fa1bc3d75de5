//! Joiner commissioning sessions over the border-agent relay.
//!
//! When a joiner attaches through a joiner router, its DTLS records reach the
//! commissioner encapsulated in RLY_RX.ntf messages. The commissioner acts as
//! a DTLS 1.2 server authenticated with EC J-PAKE over the joiner PSKd,
//! receives the JOIN_FIN.req over the established session, and answers with a
//! JOIN_FIN.rsp. Accepting the finalization attaches the Joiner Router KEK to
//! the relayed response, which signals the joiner router to entrust the
//! joiner with the network credentials.
//!
//! [`JoinerSession`] takes the decapsulated relay payloads and says, action by
//! action, what its caller has to find out: whether a cookie is valid, what
//! the key agreement makes of a message, whether a joiner is accepted. What is
//! to be relayed back comes with the last action of a payload.

use vstd::prelude::*;
use vstd::utf8::{decode_utf8, valid_utf8};

use crate::bytes::{copy_all, same_bytes, views};
use crate::commissioner::coap::{
    malformed_message, message_in, unencodable_message, CoapCode, CoapMessage, CoapOption,
    CoapType, CoapView, OptionView, CODE_CHANGED,
};
use crate::commissioner::error::{Error, ErrorView};
use crate::commissioner::joiner_handler::{joiner_id_from_iid, restored_id, JoinerHandler};
use crate::commissioner::messages::{
    path_of, MeshcopState, TLV_PROVISIONING_URL, TLV_STATE, TLV_VENDOR_DATA, TLV_VENDOR_MODEL,
    TLV_VENDOR_NAME, TLV_VENDOR_STACK_VERSION, TLV_VENDOR_SW_VERSION, URI_JOIN_FIN,
};
use crate::commissioner::tlv::{last_value_of, malformed_tlvs, tlvs_in, TlvSet, TlvView};
use crate::commissioner::types::{FinalizeView, JoinerFinalizeInfo};
use crate::dtls::flight::{
    client_finished_flight, is_client_finished_flight, renumber_epoch_zero_flight, renumbered,
    sequence_after, wrapped,
};
use crate::dtls::handshake::{
    client_hello_in, hello_verify_record, hello_verify_record_view, malformed_client_hello,
    malformed_handshake, messages_in, oversized_cookie, oversized_handshake,
    parse_unfragmented_handshake_messages, ClientHello, HandshakeMessage, HandshakeType,
    HelloView, MessageView,
};
use crate::dtls::protection::{
    open_aes_128_ccm_8_record, opened, protect_aes_128_ccm_8_record, protectable, protected,
    unauthentic_record, RecordProtectionKey, ThreadDtlsKeyMaterial,
};
use crate::dtls::record::{
    all_fit, datagram_of, malformed_record, oversized_record, records_in, ContentType, DtlsRecord,
    RecordView, MAX_SEQUENCE_NUMBER,
};
use crate::dtls::replay::{too_old_for, ReplayWindow};
use crate::dtls::server::{
    build_server_flight, lemma_flight_fits, server_flight_error, server_flight_of,
    server_flight_reach,
};
use crate::text::{append_decimal, decimal, utf8_text};

verus! {

/// How many duplicates of one flight of the joiner are answered.
pub const MAX_DUPLICATE_FLIGHT_RETRANSMISSIONS: u8 = 4;

/// How long a joiner session may live before it is swept, in nanoseconds: the
/// maximum DTLS handshake time plus the JOIN_FIN.req wait.
pub const JOINER_SESSION_TIMEOUT: u128 = 80_000_000_000;

/// The latest instant that timers can be set from, in nanoseconds since the
/// caller's origin of time.
pub const MAX_INSTANT: u128 = 0xffff_ffff_ffff_ffff_ffff_ffff_ffff;

/// Output produced while feeding relayed joiner records into a session.
#[derive(Debug, PartialEq, Eq)]
pub enum JoinerSessionEvent {
    /// DTLS records to relay back through RLY_TX.ntf.
    Transmit {
        /// Encoded DTLS records forming one datagram.
        datagram: Vec<u8>,
        /// Whether the RLY_TX must carry the Joiner Router KEK TLV.
        include_kek: bool,
    },
    /// The joiner completed its DTLS handshake.
    Connected,
    /// The joiner sent JOIN_FIN.req and a decision was made.
    Finalized {
        /// Whether the joiner was accepted.
        accepted: bool,
        /// Vendor information from the request.
        info: JoinerFinalizeInfo,
    },
}

/// [`JoinerSessionEvent`] over sequences.
pub enum JoinerEventView {
    Transmit { datagram: Seq<u8>, include_kek: bool },
    Connected,
    Finalized { accepted: bool, info: FinalizeView },
}

impl View for JoinerSessionEvent {
    type V = JoinerEventView;

    open spec fn view(&self) -> JoinerEventView {
        match self {
            JoinerSessionEvent::Transmit { datagram, include_kek } => JoinerEventView::Transmit {
                datagram: datagram@,
                include_kek: *include_kek,
            },
            JoinerSessionEvent::Connected => JoinerEventView::Connected,
            JoinerSessionEvent::Finalized { accepted, info } => JoinerEventView::Finalized {
                accepted: *accepted,
                info: info@,
            },
        }
    }
}

/// How far a session has come.
#[derive(Debug, Clone, Copy, PartialEq, Eq, Structural)]
pub enum JoinerSessionPhase {
    /// Waiting for a ClientHello carrying a valid cookie.
    AwaitingClientHello,
    /// Server flight sent; waiting for the client key exchange and Finished.
    AwaitingClientFlight,
    /// Handshake complete; waiting for JOIN_FIN.req.
    Connected,
    /// JOIN_FIN was answered.
    Finalized,
}

/// What the caller has to do before the session can go on.
pub enum JoinerAction {
    /// Check the cookie of this ClientHello: answer with
    /// [`JoinerSession::hello_accepted`] or [`JoinerSession::hello_refused`].
    CheckCookie { message: HandshakeMessage, record_sequence: u64, hello: ClientHello },
    /// Let the key agreement take this ClientKeyExchange: answer with
    /// [`JoinerSession::key_exchange_taken`].
    KeyExchange(HandshakeMessage),
    /// Let the key agreement verify this Finished: answer with
    /// [`JoinerSession::finished_verified`].
    VerifyFinished(HandshakeMessage),
    /// Decide on the joiner: answer with [`JoinerSession::finalized`].
    Finalize(JoinerFinalizeInfo),
    /// The payload is done with; these are its results, in order.
    Done(Vec<JoinerSessionEvent>),
    /// The session failed; the results of the payload are lost.
    Fail(Error),
}

/// [`JoinerAction`] over views.
pub enum JoinerActionView {
    CheckCookie { message: MessageView, record_sequence: u64, hello: HelloView },
    KeyExchange(MessageView),
    VerifyFinished(MessageView),
    Finalize(FinalizeView),
    Done(Seq<JoinerEventView>),
    Fail(ErrorView),
}

impl View for JoinerAction {
    type V = JoinerActionView;

    open spec fn view(&self) -> JoinerActionView {
        match self {
            JoinerAction::CheckCookie { message, record_sequence, hello } =>
                JoinerActionView::CheckCookie {
                message: message@,
                record_sequence: *record_sequence,
                hello: hello@,
            },
            JoinerAction::KeyExchange(message) => JoinerActionView::KeyExchange(message@),
            JoinerAction::VerifyFinished(message) => JoinerActionView::VerifyFinished(message@),
            JoinerAction::Finalize(info) => JoinerActionView::Finalize(info@),
            JoinerAction::Done(events) => JoinerActionView::Done(views(events@)),
            JoinerAction::Fail(error) => JoinerActionView::Fail(error@),
        }
    }
}

/// One in-progress joiner commissioning session.
pub struct JoinerSession {
    joiner_id: [u8; 8],
    joiner_iid: [u8; 8],
    joiner_udp_port: u16,
    joiner_router_locator: u16,
    phase: JoinerSessionPhase,
    key_material: Option<ThreadDtlsKeyMaterial>,
    accepted_client_hello: Option<HandshakeMessage>,
    accepted_client_key_exchange: Option<HandshakeMessage>,
    server_flight: Vec<DtlsRecord>,
    server_finished: Vec<u8>,
    server_flight_retransmissions: u8,
    server_finished_retransmissions: u8,
    replay_window: ReplayWindow,
    epoch0_sequence: u64,
    epoch1_sequence: u64,
    saw_client_change_cipher_spec: bool,
    finalize_decision: Option<bool>,
    expires_at: u128,
    was_established: bool,
    records: Vec<DtlsRecord>,
    record_sequence: u64,
    messages: Vec<HandshakeMessage>,
    protected_messages: Vec<HandshakeMessage>,
    request: Option<(CoapMessage, JoinerFinalizeInfo)>,
    events: Vec<JoinerSessionEvent>,
}

/// [`JoinerSession`] over views.
#[verifier::ext_equal]
pub struct JoinerView {
    pub joiner_id: Seq<u8>,
    pub joiner_iid: Seq<u8>,
    pub joiner_udp_port: u16,
    pub joiner_router_locator: u16,
    pub phase: JoinerSessionPhase,
    pub key_material: Option<ThreadDtlsKeyMaterial>,
    /// The ClientHello that the server flight answers.
    pub accepted_client_hello: Option<MessageView>,
    /// The key exchange that was taken last.
    pub accepted_client_key_exchange: Option<MessageView>,
    /// The server flight, for retransmission.
    pub server_flight: Seq<RecordView>,
    /// The encoded Finished, until the joiner shows that it has received it.
    pub server_finished: Seq<u8>,
    pub flight_retransmissions: u8,
    pub finished_retransmissions: u8,
    /// The protected sequence numbers that count as received.
    pub seen: Set<u64>,
    pub epoch0_sequence: u64,
    pub epoch1_sequence: u64,
    pub saw_change_cipher_spec: bool,
    pub finalize_decision: Option<bool>,
    pub expires_at: u128,
    /// Whether the handshake was complete when the payload in hand arrived.
    pub was_established: bool,
    /// Records of the payload in hand.
    pub records: Seq<RecordView>,
    /// The number of the record whose messages are in hand.
    pub record_sequence: u64,
    /// Plaintext messages in hand.
    pub messages: Seq<MessageView>,
    /// Messages of an opened record in hand.
    pub protected_messages: Seq<MessageView>,
    /// The finalization that waits for a decision.
    pub request: Option<(CoapView, FinalizeView)>,
    /// Results of the payload in hand.
    pub events: Seq<JoinerEventView>,
}

/// An optional message over views.
pub open spec fn optional_message(message: Option<HandshakeMessage>) -> Option<MessageView> {
    match message {
        Some(message) => Some(message@),
        None => None,
    }
}

impl View for JoinerSession {
    type V = JoinerView;

    closed spec fn view(&self) -> JoinerView {
        JoinerView {
            joiner_id: self.joiner_id@,
            joiner_iid: self.joiner_iid@,
            joiner_udp_port: self.joiner_udp_port,
            joiner_router_locator: self.joiner_router_locator,
            phase: self.phase,
            key_material: self.key_material,
            accepted_client_hello: optional_message(self.accepted_client_hello),
            accepted_client_key_exchange: optional_message(self.accepted_client_key_exchange),
            server_flight: views(self.server_flight@),
            server_finished: self.server_finished@,
            flight_retransmissions: self.server_flight_retransmissions,
            finished_retransmissions: self.server_finished_retransmissions,
            seen: self.replay_window@,
            epoch0_sequence: self.epoch0_sequence,
            epoch1_sequence: self.epoch1_sequence,
            saw_change_cipher_spec: self.saw_client_change_cipher_spec,
            finalize_decision: self.finalize_decision,
            expires_at: self.expires_at,
            was_established: self.was_established,
            records: views(self.records@),
            record_sequence: self.record_sequence,
            messages: views(self.messages@),
            protected_messages: views(self.protected_messages@),
            request: match self.request {
                Some((request, info)) => Some((request@, info@)),
                None => None,
            },
            events: views(self.events@),
        }
    }
}

/// What opening a protected record gives.
pub enum Opening {
    /// It was received before.
    Replayed,
    /// It cannot be opened.
    Failed(ErrorView),
    /// Its plaintext.
    Opened(Seq<u8>),
}

/// Where one record or message leads to.
pub enum Step {
    /// On to the next one.
    Continue(JoinerView),
    /// To the caller.
    Stop(JoinerView, JoinerActionView),
}

/// The error for a session without keys.
pub open spec fn no_joiner_keys() -> ErrorView {
    ErrorView::InvalidState("joiner key material is not derived"@)
}

/// The response to a finalization.
pub open spec fn join_fin_response(request: CoapView, accepted: bool) -> CoapView {
    CoapView {
        ty: CoapType::Acknowledgement,
        code: CODE_CHANGED,
        message_id: request.message_id,
        token: request.token,
        options: Seq::empty(),
        payload: seq![
            TLV_STATE,
            1u8,
            if accepted {
                1u8
            } else {
                0xffu8
            },
        ],
    }
}

impl JoinerView {
    /// The session of a joiner that begins at `now`.
    pub open spec fn fresh(
        joiner_iid: Seq<u8>,
        joiner_udp_port: u16,
        joiner_router_locator: u16,
        now: u128,
    ) -> JoinerView {
        JoinerView {
            joiner_id: restored_id(joiner_iid),
            joiner_iid,
            joiner_udp_port,
            joiner_router_locator,
            phase: JoinerSessionPhase::AwaitingClientHello,
            key_material: None,
            accepted_client_hello: None,
            accepted_client_key_exchange: None,
            server_flight: Seq::empty(),
            server_finished: Seq::empty(),
            flight_retransmissions: 0,
            finished_retransmissions: 0,
            seen: Set::empty(),
            epoch0_sequence: 0,
            epoch1_sequence: 0,
            saw_change_cipher_spec: false,
            finalize_decision: None,
            expires_at: (now + JOINER_SESSION_TIMEOUT) as u128,
            was_established: false,
            records: Seq::empty(),
            record_sequence: 0,
            messages: Seq::empty(),
            protected_messages: Seq::empty(),
            request: None,
            events: Seq::empty(),
        }
    }

    /// Whether the handshake is complete.
    pub open spec fn established(self) -> bool {
        self.phase == JoinerSessionPhase::Connected || self.phase == JoinerSessionPhase::Finalized
    }

    /// What opening a record of the joiner gives.
    pub open spec fn open(self, record: RecordView) -> Opening {
        if self.seen.contains(record.header.sequence_number) {
            Opening::Replayed
        } else {
            match self.key_material {
                None => Opening::Failed(no_joiner_keys()),
                Some(keys) => match opened(
                    record,
                    keys.key_block.client_write_key@,
                    keys.key_block.client_write_iv@,
                ) {
                    None => Opening::Failed(ErrorView::Dtls(unauthentic_record())),
                    Some(plaintext) => Opening::Opened(plaintext),
                },
            }
        }
    }

    /// The session after a record was opened.
    pub open spec fn after_open(self, sequence_number: u64) -> JoinerView {
        JoinerView {
            seen: self.seen.insert(sequence_number).union(too_old_for(sequence_number)),
            ..self
        }
    }

    /// The ChangeCipherSpec and Finished records that go out next.
    pub open spec fn finished_flight(self) -> Seq<RecordView> {
        let keys = self.key_material->0.key_block;
        seq![
            RecordView::dtls12(ContentType::ChangeCipherSpec, 0, self.epoch0_sequence, seq![1u8]),
            protected(
                ContentType::Handshake,
                1,
                self.epoch1_sequence,
                keys.server_write_key@,
                keys.server_write_iv@,
                self.server_finished,
            ),
        ]
    }

    /// Why that flight cannot be built, if it cannot.
    pub open spec fn finished_flight_error(self) -> Option<ErrorView> {
        if self.key_material is None {
            Some(no_joiner_keys())
        } else if self.epoch0_sequence > MAX_SEQUENCE_NUMBER || !protectable(
            self.epoch1_sequence,
            self.server_finished.len(),
        ) {
            Some(ErrorView::Dtls(oversized_record()))
        } else {
            None
        }
    }

    /// The session after that flight was built, with its transmission among
    /// the results.
    pub open spec fn with_finished_flight(self) -> JoinerView {
        JoinerView {
            epoch0_sequence: wrapped(self.epoch0_sequence + 1),
            epoch1_sequence: wrapped(self.epoch1_sequence + 1),
            events: self.events.push(
                JoinerEventView::Transmit {
                    datagram: datagram_of(self.finished_flight()),
                    include_kek: false,
                },
            ),
            ..self
        }
    }

    /// The session after that flight could not be built: the number of the
    /// ChangeCipherSpec is used up once its record was built.
    pub open spec fn without_finished_flight(self) -> JoinerView {
        if self.key_material is None || self.epoch0_sequence > MAX_SEQUENCE_NUMBER {
            self
        } else {
            JoinerView { epoch0_sequence: wrapped(self.epoch0_sequence + 1), ..self }
        }
    }

    /// Whether a payload asks for the Finished flight once more.
    pub open spec fn repeats_finished(self, records: Seq<RecordView>) -> bool {
        &&& self.established()
        &&& self.server_finished.len() > 0
        &&& client_finished_flight(records)
        &&& self.finished_retransmissions < MAX_DUPLICATE_FLIGHT_RETRANSMISSIONS
    }

    /// The session with the records of a new payload in hand; an answer to a
    /// repeated client flight is counted.
    pub open spec fn loaded(self, records: Seq<RecordView>) -> JoinerView {
        JoinerView {
            was_established: self.established(),
            records,
            messages: Seq::empty(),
            protected_messages: Seq::empty(),
            request: None,
            events: Seq::empty(),
            finished_retransmissions: if self.repeats_finished(records) {
                (self.finished_retransmissions + 1) as u8
            } else {
                self.finished_retransmissions
            },
            ..self
        }
    }

    /// The session with the records of a new payload in hand, and the answer
    /// to a repeated client flight among its results.
    pub open spec fn received(self, records: Seq<RecordView>) -> JoinerView {
        if self.repeats_finished(records) {
            self.loaded(records).with_finished_flight()
        } else {
            self.loaded(records)
        }
    }

    /// Why a finalization cannot be answered, if it cannot.
    pub open spec fn answer_error(self, request: CoapView, accepted: bool) -> Option<ErrorView> {
        let response = join_fin_response(request, accepted);
        if self.key_material is None {
            Some(no_joiner_keys())
        } else if !response.fits() {
            Some(unencodable_message())
        } else if !protectable(self.epoch1_sequence, response.encoding().len()) {
            Some(ErrorView::Dtls(oversized_record()))
        } else {
            None
        }
    }

    /// The session after a finalization was answered.
    ///
    /// The KEK signals entrustment, so it accompanies accepting responses
    /// only. The decision is reported once.
    pub open spec fn answered(self, request: CoapView, info: FinalizeView, accepted: bool)
        -> JoinerView {
        let keys = self.key_material->0.key_block;
        let record = protected(
            ContentType::ApplicationData,
            1,
            self.epoch1_sequence,
            keys.server_write_key@,
            keys.server_write_iv@,
            join_fin_response(request, accepted).encoding(),
        );
        let sent = self.events.push(
            JoinerEventView::Transmit { datagram: record.encoding(), include_kek: accepted },
        );
        JoinerView {
            phase: JoinerSessionPhase::Finalized,
            epoch1_sequence: wrapped(self.epoch1_sequence + 1),
            finalize_decision: Some(accepted),
            request: None,
            events: if self.phase == JoinerSessionPhase::Finalized {
                sent
            } else {
                sent.push(JoinerEventView::Finalized { accepted, info })
            },
            ..self
        }
    }

    /// Why the finalization that waits for a decision cannot be answered with
    /// it, if it cannot.
    pub open spec fn decision_error(self, accepted: bool) -> Option<ErrorView> {
        match self.request {
            None => None,
            Some((request, _)) => self.answer_error(request, accepted),
        }
    }

    /// The session after the decision on the finalization that waits for one,
    /// which stands even where the answer cannot be sent. Without such a
    /// finalization nothing happens.
    pub open spec fn with_decision(self, accepted: bool) -> JoinerView {
        match self.request {
            None => self,
            Some((request, info)) => {
                let session = JoinerView { request: None, ..self };
                if self.answer_error(request, accepted) is None {
                    session.answered(request, info, accepted)
                } else {
                    JoinerView { finalize_decision: Some(accepted), ..session }
                }
            },
        }
    }

    /// Why a payload cannot be taken, if it cannot.
    pub open spec fn payload_error(self, encapsulated: Seq<u8>) -> Option<ErrorView> {
        match records_in(encapsulated) {
            None => Some(ErrorView::Dtls(malformed_record())),
            Some(records) => if self.repeats_finished(records) {
                self.finished_flight_error()
            } else {
                None
            },
        }
    }

    /// The session after it was given a payload.
    pub open spec fn with_payload(self, encapsulated: Seq<u8>) -> JoinerView {
        match records_in(encapsulated) {
            None => self,
            Some(records) => if self.payload_error(encapsulated) is Some {
                self.loaded(records).without_finished_flight()
            } else {
                self.received(records)
            },
        }
    }

    /// The session after the ClientHello of a record with the given number was
    /// accepted and the key agreement gave the answer to it.
    pub open spec fn with_hello(
        self,
        message: MessageView,
        record_sequence: u64,
        answer: Seq<MessageView>,
    ) -> JoinerView {
        let flight = server_flight_of(answer, record_sequence);
        let noted = JoinerView {
            accepted_client_hello: Some(message),
            epoch0_sequence: wrapped(
                record_sequence + server_flight_reach(answer, record_sequence),
            ),
            ..self
        };
        if server_flight_error(answer, record_sequence) is Some {
            noted
        } else {
            JoinerView {
                phase: JoinerSessionPhase::AwaitingClientFlight,
                server_flight: flight,
                events: self.events.push(
                    JoinerEventView::Transmit {
                        datagram: datagram_of(flight),
                        include_kek: false,
                    },
                ),
                ..noted
            }
        }
    }

    /// The session after a ClientHello was refused: only its results change.
    pub open spec fn with_refusal(
        self,
        message_seq: u16,
        record_sequence: u64,
        cookie: Seq<u8>,
    ) -> JoinerView {
        if cookie.len() > 255 || record_sequence > MAX_SEQUENCE_NUMBER {
            self
        } else {
            JoinerView {
                events: self.events.push(
                    JoinerEventView::Transmit {
                        datagram: hello_verify_record_view(
                            message_seq,
                            record_sequence,
                            cookie,
                        ).encoding(),
                        include_kek: false,
                    },
                ),
                ..self
            }
        }
    }

    /// The session after the key agreement took a key exchange.
    pub open spec fn with_keys(self, message: MessageView, keys: ThreadDtlsKeyMaterial)
        -> JoinerView {
        JoinerView {
            key_material: Some(keys),
            accepted_client_key_exchange: Some(message),
            ..self
        }
    }

    /// The session after the joiner's Finished was verified.
    pub open spec fn with_finished(self, server_finished: MessageView) -> JoinerView {
        let cached = JoinerView { server_finished: server_finished.encoding(), ..self };
        if !server_finished.fits() {
            self
        } else if cached.finished_flight_error() is Some {
            cached.without_finished_flight()
        } else {
            JoinerView {
                phase: JoinerSessionPhase::Connected,
                events: cached.with_finished_flight().events.push(JoinerEventView::Connected),
                ..cached.with_finished_flight()
            }
        }
    }

    /// Where a plaintext handshake message leads to.
    pub open spec fn message_step(self, message: MessageView) -> Step {
        match (message.message_type, self.phase) {
            (HandshakeType::ClientHello, JoinerSessionPhase::AwaitingClientHello) =>
                match client_hello_in(message.payload) {
                None => Step::Stop(
                    self,
                    JoinerActionView::Fail(ErrorView::Dtls(malformed_client_hello())),
                ),
                Some(hello) => Step::Stop(
                    self,
                    JoinerActionView::CheckCookie {
                        message,
                        record_sequence: self.record_sequence,
                        hello,
                    },
                ),
            },
            (HandshakeType::ClientHello, JoinerSessionPhase::AwaitingClientFlight) =>
                if self.accepted_client_hello == Some(message) && self.flight_retransmissions
                    < MAX_DUPLICATE_FLIGHT_RETRANSMISSIONS {
                    let flight = renumbered(self.server_flight, self.epoch0_sequence);
                    let renumbered_session = JoinerView {
                        server_flight: flight,
                        epoch0_sequence: sequence_after(self.server_flight, self.epoch0_sequence),
                        flight_retransmissions: (self.flight_retransmissions + 1) as u8,
                        ..self
                    };
                    if all_fit(flight) {
                        Step::Continue(
                            JoinerView {
                                events: self.events.push(
                                    JoinerEventView::Transmit {
                                        datagram: datagram_of(flight),
                                        include_kek: false,
                                    },
                                ),
                                ..renumbered_session
                            },
                        )
                    } else {
                        Step::Stop(
                            renumbered_session,
                            JoinerActionView::Fail(ErrorView::Dtls(oversized_record())),
                        )
                    }
                } else {
                    Step::Continue(self)
                },
            (HandshakeType::ClientKeyExchange, JoinerSessionPhase::AwaitingClientFlight) =>
                if self.accepted_client_key_exchange == Some(message) {
                    Step::Continue(self)
                } else {
                    Step::Stop(self, JoinerActionView::KeyExchange(message))
                },
            _ => Step::Stop(
                self,
                JoinerActionView::Fail(
                    ErrorView::Crypto(
                        "unexpected joiner handshake message "@ + message.message_type.spec_name(),
                    ),
                ),
            ),
        }
    }

    /// Where a protected handshake record leads to.
    pub open spec fn protected_step(self, record: RecordView) -> Step {
        if self.phase != JoinerSessionPhase::AwaitingClientFlight {
            Step::Continue(self)
        } else if !self.saw_change_cipher_spec {
            Step::Stop(
                self,
                JoinerActionView::Fail(
                    ErrorView::Crypto("joiner Finished arrived before ChangeCipherSpec"@),
                ),
            )
        } else {
            match self.open(record) {
                Opening::Replayed => Step::Continue(self),
                Opening::Failed(error) => Step::Stop(self, JoinerActionView::Fail(error)),
                Opening::Opened(plaintext) => {
                    let session = self.after_open(record.header.sequence_number);
                    match messages_in(plaintext) {
                        None => Step::Stop(
                            session,
                            JoinerActionView::Fail(ErrorView::Dtls(malformed_handshake())),
                        ),
                        Some(messages) => Step::Continue(
                            JoinerView { protected_messages: messages, ..session },
                        ),
                    }
                },
            }
        }
    }

    /// Where the plaintext of an application-data record leads to: anything
    /// but a finalization is ignored, and a decision that was made before is
    /// repeated.
    pub open spec fn request_step(self, plaintext: Seq<u8>) -> Step {
        match message_in(plaintext) {
            None => Step::Stop(self, JoinerActionView::Fail(malformed_message())),
            Some(request) => match path_of(request) {
                Err(error) => Step::Stop(self, JoinerActionView::Fail(error)),
                Ok(path) => if path != Some(URI_JOIN_FIN@) {
                    Step::Continue(self)
                } else {
                    match finalize_info_in(request.payload) {
                        Err(error) => Step::Stop(self, JoinerActionView::Fail(error)),
                        Ok(info) => match self.finalize_decision {
                            None => Step::Stop(
                                JoinerView { request: Some((request, info)), ..self },
                                JoinerActionView::Finalize(info),
                            ),
                            Some(accepted) => match self.answer_error(request, accepted) {
                                Some(error) => Step::Stop(self, JoinerActionView::Fail(error)),
                                None => Step::Continue(self.answered(request, info, accepted)),
                            },
                        },
                    }
                },
            },
        }
    }

    /// Where an application-data record leads to.
    pub open spec fn data_step(self, record: RecordView) -> Step {
        if !self.established() {
            Step::Stop(
                self,
                JoinerActionView::Fail(
                    ErrorView::Crypto("joiner application data before handshake completion"@),
                ),
            )
        } else {
            match self.open(record) {
                Opening::Replayed => Step::Continue(self),
                Opening::Failed(error) => Step::Stop(self, JoinerActionView::Fail(error)),
                Opening::Opened(plaintext) => JoinerView {
                    server_finished: Seq::empty(),
                    ..self.after_open(record.header.sequence_number)
                }.request_step(plaintext),
            }
        }
    }

    /// Where a record leads to.
    pub open spec fn record_step(self, record: RecordView) -> Step {
        let sequence = decimal(record.header.sequence_number as nat);
        match (record.header.epoch, record.header.content_type) {
            (0u16, ContentType::Handshake) => if self.was_established {
                Step::Continue(self)
            } else {
                match messages_in(record.payload) {
                    None => Step::Stop(
                        self,
                        JoinerActionView::Fail(ErrorView::Dtls(malformed_handshake())),
                    ),
                    Some(messages) => Step::Continue(
                        JoinerView {
                            messages,
                            record_sequence: record.header.sequence_number,
                            ..self
                        },
                    ),
                }
            },
            (0u16, ContentType::ChangeCipherSpec) => if record.payload == seq![1u8] {
                Step::Continue(JoinerView { saw_change_cipher_spec: true, ..self })
            } else {
                Step::Stop(
                    self,
                    JoinerActionView::Fail(
                        ErrorView::Crypto("invalid ChangeCipherSpec payload"@),
                    ),
                )
            },
            (1u16, ContentType::Handshake) => self.protected_step(record),
            (1u16, ContentType::ApplicationData) => self.data_step(record),
            (0u16, ContentType::Alert) => if self.established() {
                Step::Continue(self)
            } else {
                Step::Stop(
                    self,
                    JoinerActionView::Fail(
                        ErrorView::Crypto("joiner DTLS alert epoch=0 seq="@ + sequence),
                    ),
                )
            },
            (1u16, ContentType::Alert) => match self.open(record) {
                Opening::Opened(plaintext) => Step::Stop(
                    self.after_open(record.header.sequence_number),
                    JoinerActionView::Fail(
                        ErrorView::Crypto(
                            "joiner DTLS alert epoch=1 seq="@ + sequence + " level="@ + decimal(
                                byte_at(plaintext, 0) as nat,
                            ) + " description="@ + decimal(byte_at(plaintext, 1) as nat),
                        ),
                    ),
                ),
                _ => Step::Continue(self),
            },
            _ => Step::Continue(self),
        }
    }

    /// What the caller has to do next, and the session until then.
    pub open spec fn next(self) -> (JoinerView, JoinerActionView)
        decreases
            self.records.len(),
            self.messages.len() + self.protected_messages.len(),
    {
        if let Some((_, info)) = self.request {
            (self, JoinerActionView::Finalize(info))
        } else if self.messages.len() > 0 {
            let rest = JoinerView { messages: self.messages.drop_first(), ..self };
            match rest.message_step(self.messages[0]) {
                Step::Continue(session) => session.next(),
                Step::Stop(session, action) => (session, action),
            }
        } else if self.protected_messages.len() > 0 {
            let message = self.protected_messages[0];
            let rest = JoinerView {
                protected_messages: self.protected_messages.drop_first(),
                ..self
            };
            if message.message_type == HandshakeType::Finished {
                (rest, JoinerActionView::VerifyFinished(message))
            } else {
                rest.next()
            }
        } else if self.records.len() > 0 {
            let rest = JoinerView { records: self.records.drop_first(), ..self };
            match rest.record_step(self.records[0]) {
                Step::Continue(session) => session.next(),
                Step::Stop(session, action) => (session, action),
            }
        } else {
            (
                JoinerView { events: Seq::empty(), ..self },
                JoinerActionView::Done(self.events),
            )
        }
    }

    /// What holds of every session.
    ///
    /// Duplicates of a flight are answered at most four times, the KEK goes
    /// out only once the joiner was accepted, a finalized session has a
    /// decision, and the flights that may be repeated answer a ClientHello.
    pub open spec fn valid(self) -> bool {
        &&& self.flight_retransmissions <= MAX_DUPLICATE_FLIGHT_RETRANSMISSIONS
        &&& self.finished_retransmissions <= MAX_DUPLICATE_FLIGHT_RETRANSMISSIONS
        &&& self.phase == JoinerSessionPhase::Finalized ==> self.finalize_decision is Some
        &&& self.phase != JoinerSessionPhase::AwaitingClientHello
            ==> self.accepted_client_hello is Some
        &&& self.request is Some ==> self.established() && self.finalize_decision is None
        &&& forall|i: int|
            0 <= i < self.events.len() ==> kek_only_if_accepted(
                #[trigger] self.events[i],
                self.finalize_decision,
            )
    }
}

/// Whether the event attaches the KEK only where the decision accepts.
pub open spec fn kek_only_if_accepted(event: JoinerEventView, decision: Option<bool>) -> bool {
    event matches JoinerEventView::Transmit { include_kek, .. } ==> (include_kek ==> decision
        == Some(true))
}

/// The byte at a position, or 0 behind the end.
pub open spec fn byte_at(bytes: Seq<u8>, i: int) -> u8 {
    if i < bytes.len() {
        bytes[i]
    } else {
        0
    }
}

/// The error for a finalization without a mandatory TLV.
pub open spec fn join_fin_missing(name: Seq<char>) -> ErrorView {
    ErrorView::Dataset("JOIN_FIN.req missing "@ + name + " TLV"@)
}

/// The error for a finalization with a TLV that is not UTF-8.
pub open spec fn join_fin_not_utf8(name: Seq<char>) -> ErrorView {
    ErrorView::Dataset("JOIN_FIN.req "@ + name + " TLV is not UTF-8"@)
}

/// The text of a mandatory TLV.
pub open spec fn mandatory_text(tlvs: Seq<TlvView>, ty: u8, name: Seq<char>) -> Result<
    Seq<char>,
    ErrorView,
> {
    match last_value_of(tlvs, ty) {
        None => Err(join_fin_missing(name)),
        Some(value) => if valid_utf8(value) {
            Ok(decode_utf8(value))
        } else {
            Err(join_fin_not_utf8(name))
        },
    }
}

/// The vendor information of a finalization: the State and vendor
/// identification TLVs are mandatory; the provisioning URL and vendor data
/// TLVs are optional.
pub open spec fn finalize_info_in(payload: Seq<u8>) -> Result<FinalizeView, ErrorView> {
    match tlvs_in(payload) {
        None => Err(malformed_tlvs()),
        Some(tlvs) => if last_value_of(tlvs, TLV_STATE) is None {
            Err(join_fin_missing("State"@))
        } else {
            match mandatory_text(tlvs, TLV_VENDOR_NAME, "Vendor Name"@) {
                Err(error) => Err(error),
                Ok(vendor_name) => match mandatory_text(
                    tlvs,
                    TLV_VENDOR_MODEL,
                    "Vendor Model"@,
                ) {
                    Err(error) => Err(error),
                    Ok(vendor_model) => match mandatory_text(
                        tlvs,
                        TLV_VENDOR_SW_VERSION,
                        "Vendor SW Version"@,
                    ) {
                        Err(error) => Err(error),
                        Ok(vendor_sw_version) => match last_value_of(
                            tlvs,
                            TLV_VENDOR_STACK_VERSION,
                        ) {
                            None => Err(join_fin_missing("Vendor Stack Version"@)),
                            Some(vendor_stack_version) => {
                                let url = last_value_of(tlvs, TLV_PROVISIONING_URL);
                                if url is Some && !valid_utf8(url->0) {
                                    Err(join_fin_not_utf8("Provisioning URL"@))
                                } else {
                                    Ok(
                                        FinalizeView {
                                            vendor_name,
                                            vendor_model,
                                            vendor_sw_version,
                                            vendor_stack_version,
                                            provisioning_url: match url {
                                                Some(url) => Some(decode_utf8(url)),
                                                None => None,
                                            },
                                            vendor_data: last_value_of(tlvs, TLV_VENDOR_DATA),
                                        },
                                    )
                                }
                            },
                        },
                    },
                },
            }
        },
    }
}

fn missing_tlv(name: &str) -> (error: Error)
    ensures
        error@ == join_fin_missing(name@),
{
    Error::Dataset(String::from_str("JOIN_FIN.req missing ").concat(name).concat(" TLV"))
}

fn not_utf8_tlv(name: &str) -> (error: Error)
    ensures
        error@ == join_fin_not_utf8(name@),
{
    Error::Dataset(String::from_str("JOIN_FIN.req ").concat(name).concat(" TLV is not UTF-8"))
}

fn required_text(tlvs: &TlvSet, ty: u8, name: &str) -> (result: Result<String, Error>)
    ensures
        match (result, mandatory_text(tlvs@, ty, name@)) {
            (Ok(text), Ok(expected)) => text@ == expected,
            (Err(error), Err(expected)) => error@ == expected,
            _ => false,
        },
{
    match tlvs.last_value(ty) {
        None => Err(missing_tlv(name)),
        Some(value) => match utf8_text(value) {
            Some(text) => Ok(text),
            None => Err(not_utf8_tlv(name)),
        },
    }
}

impl JoinerFinalizeInfo {
    /// Parses the TLV payload of a JOIN_FIN.req.
    ///
    /// The State and vendor identification TLVs are mandatory; the
    /// provisioning URL and vendor data TLVs are optional.
    pub fn from_payload(payload: &[u8]) -> (result: Result<JoinerFinalizeInfo, Error>)
        ensures
            match (result, finalize_info_in(payload@)) {
                (Ok(info), Ok(expected)) => info@ == expected,
                (Err(error), Err(expected)) => error@ == expected,
                _ => false,
            },
    {
        let tlvs = match TlvSet::parse(payload) {
            Err(error) => {
                return Err(error);
            },
            Ok(tlvs) => tlvs,
        };
        if tlvs.last_value(TLV_STATE).is_none() {
            return Err(missing_tlv("State"));
        }
        let vendor_name = match required_text(&tlvs, TLV_VENDOR_NAME, "Vendor Name") {
            Err(error) => {
                return Err(error);
            },
            Ok(text) => text,
        };
        let vendor_model = match required_text(&tlvs, TLV_VENDOR_MODEL, "Vendor Model") {
            Err(error) => {
                return Err(error);
            },
            Ok(text) => text,
        };
        let vendor_sw_version = match required_text(
            &tlvs,
            TLV_VENDOR_SW_VERSION,
            "Vendor SW Version",
        ) {
            Err(error) => {
                return Err(error);
            },
            Ok(text) => text,
        };
        let vendor_stack_version = match tlvs.last_value(TLV_VENDOR_STACK_VERSION) {
            None => {
                return Err(missing_tlv("Vendor Stack Version"));
            },
            Some(value) => copy_all(value),
        };
        let provisioning_url = match tlvs.last_value(TLV_PROVISIONING_URL) {
            None => None,
            Some(value) => match utf8_text(value) {
                None => {
                    return Err(not_utf8_tlv("Provisioning URL"));
                },
                Some(text) => Some(text),
            },
        };
        let vendor_data = match tlvs.last_value(TLV_VENDOR_DATA) {
            None => None,
            Some(value) => Some(copy_all(value)),
        };
        Ok(
            JoinerFinalizeInfo {
                vendor_name,
                vendor_model,
                vendor_sw_version,
                vendor_stack_version,
                provisioning_url,
                vendor_data,
            },
        )
    }
}

/// Parses a JOIN_FIN.req message.
pub fn parse_join_fin(request: &CoapMessage) -> (result: Result<JoinerFinalizeInfo, Error>)
    ensures
        match (result, finalize_info_in(request@.payload)) {
            (Ok(info), Ok(expected)) => info@ == expected,
            (Err(error), Err(expected)) => error@ == expected,
            _ => false,
        },
{
    JoinerFinalizeInfo::from_payload(request.payload.as_slice())
}

/// Where one record or message led to.
enum Progress {
    Continue,
    Stop(JoinerAction),
}

/// Whether `progress` and the session after it are what `step` says.
spec fn follows(session: JoinerView, progress: Progress, step: Step) -> bool {
    match (progress, step) {
        (Progress::Continue, Step::Continue(expected)) => session == expected,
        (Progress::Stop(action), Step::Stop(expected, expected_action)) => session == expected
            && action@ == expected_action,
        _ => false,
    }
}

fn byte_or_zero(bytes: &[u8], i: usize) -> (byte: u8)
    ensures
        byte == byte_at(bytes@, i as int),
{
    if i < bytes.len() {
        bytes[i]
    } else {
        0
    }
}

impl JoinerSession {
    /// Creates a session for one relayed joiner.
    pub fn new(
        joiner_iid: [u8; 8],
        joiner_udp_port: u16,
        joiner_router_locator: u16,
        now: u128,
    ) -> (session: Self)
        requires
            now <= MAX_INSTANT,
        ensures
            session@ == JoinerView::fresh(
                joiner_iid@,
                joiner_udp_port,
                joiner_router_locator,
                now,
            ),
            session@.valid(),
    {
        let session = JoinerSession {
            joiner_id: joiner_id_from_iid(&joiner_iid),
            joiner_iid,
            joiner_udp_port,
            joiner_router_locator,
            phase: JoinerSessionPhase::AwaitingClientHello,
            key_material: None,
            accepted_client_hello: None,
            accepted_client_key_exchange: None,
            server_flight: Vec::new(),
            server_finished: Vec::new(),
            server_flight_retransmissions: 0,
            server_finished_retransmissions: 0,
            replay_window: ReplayWindow::new(),
            epoch0_sequence: 0,
            epoch1_sequence: 0,
            saw_client_change_cipher_spec: false,
            finalize_decision: None,
            expires_at: now + JOINER_SESSION_TIMEOUT,
            was_established: false,
            records: Vec::new(),
            record_sequence: 0,
            messages: Vec::new(),
            protected_messages: Vec::new(),
            request: None,
            events: Vec::new(),
        };
        proof {
            assert(views(session.server_flight@) =~= Seq::<RecordView>::empty());
            assert(views(session.records@) =~= Seq::<RecordView>::empty());
            assert(views(session.messages@) =~= Seq::<MessageView>::empty());
            assert(views(session.protected_messages@) =~= Seq::<MessageView>::empty());
            assert(views(session.events@) =~= Seq::<JoinerEventView>::empty());
        }
        session
    }

    /// Returns the joiner ID this session commissions.
    pub fn joiner_id(&self) -> (id: [u8; 8])
        ensures
            id@ == self@.joiner_id,
    {
        self.joiner_id
    }

    /// Returns the joiner IID used on the relay.
    pub fn joiner_iid(&self) -> (iid: [u8; 8])
        ensures
            iid@ == self@.joiner_iid,
    {
        self.joiner_iid
    }

    /// Returns the joiner UDP port used on the relay.
    pub fn joiner_udp_port(&self) -> (port: u16)
        ensures
            port == self@.joiner_udp_port,
    {
        self.joiner_udp_port
    }

    /// Returns the joiner router locator used on the relay.
    pub fn joiner_router_locator(&self) -> (locator: u16)
        ensures
            locator == self@.joiner_router_locator,
    {
        self.joiner_router_locator
    }

    /// Returns whether this session is past its deadline.
    pub fn expired(&self, now: u128) -> (expired: bool)
        ensures
            expired == (now >= self@.expires_at),
    {
        now >= self.expires_at
    }

    /// The keys of the session, once the key exchange was taken.
    pub fn key_material_required(&self) -> (result: Result<ThreadDtlsKeyMaterial, Error>)
        ensures
            match result {
                Ok(keys) => self@.key_material == Some(keys),
                Err(error) => self@.key_material is None && error@ == no_joiner_keys(),
            },
    {
        match &self.key_material {
            Some(keys) => Ok(keys.clone()),
            None => Err(Error::InvalidState("joiner key material is not derived")),
        }
    }

    /// The sequence number of the server's Finished: three behind the
    /// ClientHello that the handshake answers.
    pub fn server_finished_sequence(&self) -> (result: Result<u16, Error>)
        ensures
            match (result, self@.accepted_client_hello) {
                (Ok(sequence), Some(hello)) => sequence == (hello.message_seq + 3) % 0x1_0000,
                (Err(error), None) => error@ == ErrorView::InvalidState(
                    "accepted ClientHello is missing"@,
                ),
                _ => false,
            },
    {
        match &self.accepted_client_hello {
            None => Err(Error::InvalidState("accepted ClientHello is missing")),
            Some(hello) => Ok(hello.message_seq.wrapping_add(3)),
        }
    }

    fn is_established(&self) -> (established: bool)
        ensures
            established == self@.established(),
    {
        match self.phase {
            JoinerSessionPhase::Connected => true,
            JoinerSessionPhase::Finalized => true,
            _ => false,
        }
    }

    fn push_event(&mut self, event: JoinerSessionEvent)
        ensures
            final(self)@ == (JoinerView { events: old(self)@.events.push(event@), ..old(self)@ }),
    {
        proof {
            assert(views(self.events@.push(event)) =~= views(self.events@).push(event@));
        }
        self.events.push(event);
    }

    /// Opens a protected record of the joiner.
    fn open_record(&mut self, record: &DtlsRecord) -> (result: Result<Option<Vec<u8>>, Error>)
        ensures
            match (result, old(self)@.open(record@)) {
                (Ok(None), Opening::Replayed) => final(self)@ == old(self)@,
                (Err(error), Opening::Failed(expected)) => error@ == expected && final(self)@
                    == old(self)@,
                (Ok(Some(plaintext)), Opening::Opened(expected)) => plaintext@ == expected
                    && final(self)@ == old(self)@.after_open(record@.header.sequence_number),
                _ => false,
            },
    {
        if self.replay_window.has_seen(record.header.sequence_number) {
            return Ok(None);
        }
        let keys = match self.key_material_required() {
            Err(error) => {
                return Err(error);
            },
            Ok(keys) => keys,
        };
        match open_aes_128_ccm_8_record(
            record,
            RecordProtectionKey::new(keys.key_block.client_write_key),
            &keys.key_block.client_write_iv,
        ) {
            Err(error) => Err(Error::Dtls(error)),
            Ok(plaintext) => {
                self.replay_window.mark_seen(record.header.sequence_number);
                Ok(Some(plaintext))
            },
        }
    }

    /// Builds the ChangeCipherSpec and Finished flight and puts its
    /// transmission among the results.
    fn transmit_server_finished(&mut self) -> (result: Result<(), Error>)
        ensures
            match result {
                Ok(_) => old(self)@.finished_flight_error() is None && final(self)@
                    == old(self)@.with_finished_flight(),
                Err(error) => old(self)@.finished_flight_error() == Some(error@) && final(self)@
                    == old(self)@.without_finished_flight(),
            },
    {
        let keys = match self.key_material_required() {
            Err(error) => {
                return Err(error);
            },
            Ok(keys) => keys,
        };
        let one: Vec<u8> = vec![1u8];
        assert(one@ =~= seq![1u8]);
        let change_cipher_spec = match DtlsRecord::new(
            ContentType::ChangeCipherSpec,
            0,
            self.epoch0_sequence,
            one,
        ) {
            Err(error) => {
                return Err(Error::Dtls(error));
            },
            Ok(record) => record,
        };
        self.epoch0_sequence = self.epoch0_sequence.wrapping_add(1);
        let finished = match protect_aes_128_ccm_8_record(
            ContentType::Handshake,
            1,
            self.epoch1_sequence,
            RecordProtectionKey::new(keys.key_block.server_write_key),
            &keys.key_block.server_write_iv,
            self.server_finished.as_slice(),
        ) {
            Err(error) => {
                return Err(Error::Dtls(error));
            },
            Ok(record) => record,
        };
        self.epoch1_sequence = self.epoch1_sequence.wrapping_add(1);
        let mut flight: Vec<DtlsRecord> = Vec::new();
        flight.push(change_cipher_spec);
        flight.push(finished);
        proof {
            assert(views(flight@) =~= old(self)@.finished_flight());
            assert forall|i: int| 0 <= i < views(flight@).len() implies (#[trigger] views(
                flight@,
            )[i]).fits() by {}
        }
        match DtlsRecord::encode_datagram(flight.as_slice()) {
            Err(error) => Err(Error::Dtls(error)),
            Ok(datagram) => {
                self.push_event(JoinerSessionEvent::Transmit { datagram, include_kek: false });
                assert(self@ =~= old(self)@.with_finished_flight());
                Ok(())
            },
        }
    }

    /// Takes one decapsulated relay payload; [`Self::next`] then says what to
    /// do with it.
    pub fn receive(&mut self, encapsulated: &[u8]) -> (result: Result<(), Error>)
        ensures
            final(self)@ == old(self)@.with_payload(encapsulated@),
            match result {
                Ok(_) => old(self)@.payload_error(encapsulated@) is None,
                Err(error) => old(self)@.payload_error(encapsulated@) == Some(error@),
            },
    {
        let records = match DtlsRecord::parse_datagram(encapsulated) {
            Err(error) => {
                return Err(Error::Dtls(error));
            },
            Ok(records) => records,
        };
        let repeated = self.is_established() && self.server_finished.len() > 0
            && is_client_finished_flight(records.as_slice())
            && self.server_finished_retransmissions < MAX_DUPLICATE_FLIGHT_RETRANSMISSIONS;
        self.was_established = self.is_established();
        self.records = records;
        self.messages = Vec::new();
        self.protected_messages = Vec::new();
        self.request = None;
        self.events = Vec::new();
        proof {
            assert(views(self.messages@) =~= Seq::<MessageView>::empty());
            assert(views(self.protected_messages@) =~= Seq::<MessageView>::empty());
            assert(views(self.events@) =~= Seq::<JoinerEventView>::empty());
        }
        if repeated {
            self.server_finished_retransmissions = self.server_finished_retransmissions + 1;
            return self.transmit_server_finished();
        }
        Ok(())
    }

    fn unexpected(message_type: HandshakeType) -> (error: Error)
        ensures
            error@ == ErrorView::Crypto(
                "unexpected joiner handshake message "@ + message_type.spec_name(),
            ),
    {
        Error::Crypto(
            String::from_str("unexpected joiner handshake message ").concat(message_type.name()),
        )
    }

    fn same_as(taken: &Option<HandshakeMessage>, message: &HandshakeMessage) -> (same: bool)
        ensures
            same == (optional_message(*taken) == Some(message@)),
    {
        match taken {
            None => false,
            Some(taken) => taken.same(message),
        }
    }

    fn handle_plaintext_handshake(&mut self, message: HandshakeMessage) -> (progress: Progress)
        ensures
            follows(final(self)@, progress, old(self)@.message_step(message@)),
    {
        match (message.message_type, self.phase) {
            (HandshakeType::ClientHello, JoinerSessionPhase::AwaitingClientHello) => {
                match ClientHello::decode(message.payload.as_slice()) {
                    Err(error) => Progress::Stop(JoinerAction::Fail(Error::Dtls(error))),
                    Ok(hello) => Progress::Stop(
                        JoinerAction::CheckCookie {
                            message,
                            record_sequence: self.record_sequence,
                            hello,
                        },
                    ),
                }
            },
            (HandshakeType::ClientHello, JoinerSessionPhase::AwaitingClientFlight) => {
                if JoinerSession::same_as(&self.accepted_client_hello, &message)
                    && self.server_flight_retransmissions < MAX_DUPLICATE_FLIGHT_RETRANSMISSIONS {
                    self.server_flight_retransmissions = self.server_flight_retransmissions + 1;
                    renumber_epoch_zero_flight(&mut self.server_flight, &mut self.epoch0_sequence);
                    match DtlsRecord::encode_datagram(self.server_flight.as_slice()) {
                        Err(error) => {
                            return Progress::Stop(JoinerAction::Fail(Error::Dtls(error)));
                        },
                        Ok(datagram) => {
                            self.push_event(
                                JoinerSessionEvent::Transmit { datagram, include_kek: false },
                            );
                        },
                    }
                }
                Progress::Continue
            },
            (HandshakeType::ClientKeyExchange, JoinerSessionPhase::AwaitingClientFlight) => {
                if JoinerSession::same_as(&self.accepted_client_key_exchange, &message) {
                    Progress::Continue
                } else {
                    Progress::Stop(JoinerAction::KeyExchange(message))
                }
            },
            _ => Progress::Stop(
                JoinerAction::Fail(JoinerSession::unexpected(message.message_type)),
            ),
        }
    }

    fn handle_encrypted_handshake(&mut self, record: &DtlsRecord) -> (progress: Progress)
        requires
            old(self)@.protected_messages.len() == 0,
        ensures
            follows(final(self)@, progress, old(self)@.protected_step(record@)),
    {
        match self.phase {
            JoinerSessionPhase::AwaitingClientFlight => {},
            _ => {
                return Progress::Continue;
            },
        }
        if !self.saw_client_change_cipher_spec {
            return Progress::Stop(
                JoinerAction::Fail(
                    Error::Crypto(
                        String::from_str("joiner Finished arrived before ChangeCipherSpec"),
                    ),
                ),
            );
        }
        match self.open_record(record) {
            Err(error) => Progress::Stop(JoinerAction::Fail(error)),
            Ok(None) => Progress::Continue,
            Ok(Some(plaintext)) => {
                let plain_record = DtlsRecord { header: record.header, payload: plaintext };
                match parse_unfragmented_handshake_messages(&plain_record) {
                    Err(error) => Progress::Stop(JoinerAction::Fail(Error::Dtls(error))),
                    Ok(messages) => {
                        self.protected_messages = messages;
                        Progress::Continue
                    },
                }
            },
        }
    }

    fn handle_request(&mut self, plaintext: &[u8]) -> (progress: Progress)
        requires
            old(self)@.request is None,
        ensures
            follows(final(self)@, progress, old(self)@.request_step(plaintext@)),
    {
        let request = match CoapMessage::decode(plaintext) {
            Err(error) => {
                return Progress::Stop(JoinerAction::Fail(error));
            },
            Ok(request) => request,
        };
        match request.path_is(URI_JOIN_FIN) {
            Err(error) => Progress::Stop(JoinerAction::Fail(error)),
            Ok(false) => Progress::Continue,
            Ok(true) => match parse_join_fin(&request) {
                Err(error) => Progress::Stop(JoinerAction::Fail(error)),
                Ok(info) => match self.finalize_decision {
                    None => {
                        let asked = info.clone();
                        self.request = Some((request, info));
                        Progress::Stop(JoinerAction::Finalize(asked))
                    },
                    Some(accepted) => match self.answer_join_fin(&request, info, accepted) {
                        Err(error) => Progress::Stop(JoinerAction::Fail(error)),
                        Ok(_) => Progress::Continue,
                    },
                },
            },
        }
    }

    fn answer_join_fin(
        &mut self,
        request: &CoapMessage,
        info: JoinerFinalizeInfo,
        accepted: bool,
    ) -> (result: Result<(), Error>)
        requires
            old(self)@.request is None,
        ensures
            match result {
                Ok(_) => old(self)@.answer_error(request@, accepted) is None && final(self)@
                    == old(self)@.answered(request@, info@, accepted),
                Err(error) => old(self)@.answer_error(request@, accepted) == Some(error@)
                    && final(self)@ == old(self)@,
            },
    {
        let state = if accepted {
            MeshcopState::Accept
        } else {
            MeshcopState::Reject
        };
        let payload: Vec<u8> = vec![TLV_STATE, 1, state.to_wire()];
        let options: Vec<CoapOption> = Vec::new();
        let response = CoapMessage {
            ty: CoapType::Acknowledgement,
            code: CoapCode(CODE_CHANGED),
            message_id: request.message_id,
            token: copy_all(request.token.as_slice()),
            options,
            payload,
        };
        proof {
            assert(views(options@) =~= Seq::<OptionView>::empty());
            assert(response@ =~= join_fin_response(request@, accepted));
        }
        let keys = match self.key_material_required() {
            Err(error) => {
                return Err(error);
            },
            Ok(keys) => keys,
        };
        let bytes = match response.encode() {
            Err(error) => {
                return Err(error);
            },
            Ok(bytes) => bytes,
        };
        let record = match protect_aes_128_ccm_8_record(
            ContentType::ApplicationData,
            1,
            self.epoch1_sequence,
            RecordProtectionKey::new(keys.key_block.server_write_key),
            &keys.key_block.server_write_iv,
            bytes.as_slice(),
        ) {
            Err(error) => {
                return Err(Error::Dtls(error));
            },
            Ok(record) => record,
        };
        let datagram = match record.encode() {
            Err(error) => {
                return Err(Error::Dtls(error));
            },
            Ok(datagram) => datagram,
        };
        self.epoch1_sequence = self.epoch1_sequence.wrapping_add(1);
        let first_decision = match self.phase {
            JoinerSessionPhase::Finalized => false,
            _ => true,
        };
        self.phase = JoinerSessionPhase::Finalized;
        self.finalize_decision = Some(accepted);
        self.push_event(JoinerSessionEvent::Transmit { datagram, include_kek: accepted });
        if first_decision {
            self.push_event(JoinerSessionEvent::Finalized { accepted, info });
        }
        assert(self@ =~= old(self)@.answered(request@, info@, accepted));
        Ok(())
    }

    fn handle_application_data(&mut self, record: &DtlsRecord) -> (progress: Progress)
        requires
            old(self)@.request is None,
        ensures
            follows(final(self)@, progress, old(self)@.data_step(record@)),
    {
        if !self.is_established() {
            return Progress::Stop(
                JoinerAction::Fail(
                    Error::Crypto(
                        String::from_str("joiner application data before handshake completion"),
                    ),
                ),
            );
        }
        match self.open_record(record) {
            Err(error) => Progress::Stop(JoinerAction::Fail(error)),
            Ok(None) => Progress::Continue,
            Ok(Some(plaintext)) => {
                self.server_finished.clear();
                self.handle_request(plaintext.as_slice())
            },
        }
    }

    fn handle_record(&mut self, record: DtlsRecord) -> (progress: Progress)
        requires
            old(self)@.request is None,
            old(self)@.messages.len() == 0,
            old(self)@.protected_messages.len() == 0,
        ensures
            follows(final(self)@, progress, old(self)@.record_step(record@)),
    {
        match (record.header.epoch, record.header.content_type) {
            (0, ContentType::Handshake) => {
                if self.was_established {
                    return Progress::Continue;
                }
                match parse_unfragmented_handshake_messages(&record) {
                    Err(error) => Progress::Stop(JoinerAction::Fail(Error::Dtls(error))),
                    Ok(messages) => {
                        self.messages = messages;
                        self.record_sequence = record.header.sequence_number;
                        Progress::Continue
                    },
                }
            },
            (0, ContentType::ChangeCipherSpec) => {
                let one: [u8; 1] = [1];
                assert(one@ =~= seq![1u8]);
                if !same_bytes(record.payload.as_slice(), one.as_slice()) {
                    return Progress::Stop(
                        JoinerAction::Fail(
                            Error::Crypto(String::from_str("invalid ChangeCipherSpec payload")),
                        ),
                    );
                }
                self.saw_client_change_cipher_spec = true;
                Progress::Continue
            },
            (1, ContentType::Handshake) => self.handle_encrypted_handshake(&record),
            (1, ContentType::ApplicationData) => self.handle_application_data(&record),
            (0, ContentType::Alert) => {
                if self.is_established() {
                    return Progress::Continue;
                }
                let mut text = String::from_str("joiner DTLS alert epoch=0 seq=");
                append_decimal(&mut text, record.header.sequence_number);
                Progress::Stop(JoinerAction::Fail(Error::Crypto(text)))
            },
            (1, ContentType::Alert) => {
                if let Ok(Some(plaintext)) = self.open_record(&record) {
                    let mut text = String::from_str("joiner DTLS alert epoch=1 seq=");
                    append_decimal(&mut text, record.header.sequence_number);
                    text.append(" level=");
                    append_decimal(&mut text, byte_or_zero(plaintext.as_slice(), 0) as u64);
                    text.append(" description=");
                    append_decimal(&mut text, byte_or_zero(plaintext.as_slice(), 1) as u64);
                    return Progress::Stop(JoinerAction::Fail(Error::Crypto(text)));
                }
                Progress::Continue
            },
            _ => Progress::Continue,
        }
    }

    /// What to do next with the payload in hand.
    pub fn next(&mut self) -> (action: JoinerAction)
        ensures
            (final(self)@, action@) == old(self)@.next(),
    {
        if let Some((_, info)) = &self.request {
            return JoinerAction::Finalize(info.clone());
        }
        loop
            invariant
                self@.next() == old(self)@.next(),
                self@.request is None,
            decreases self.records@.len(), self.messages@.len() + self.protected_messages@.len(),
        {
            let ghost before = self@;
            if self.messages.len() > 0 {
                let message = self.messages.remove(0);
                proof {
                    assert(before.messages[0] == message@);
                    assert(self@ =~= JoinerView {
                        messages: before.messages.drop_first(),
                        ..before
                    });
                }
                if let Progress::Stop(action) = self.handle_plaintext_handshake(message) {
                    return action;
                }
                proof {
                    assert(self@.messages.len() == self.messages@.len());
                    assert(self@.protected_messages.len() == self.protected_messages@.len());
                    assert(self@.records.len() == self.records@.len());
                }
            } else if self.protected_messages.len() > 0 {
                let message = self.protected_messages.remove(0);
                proof {
                    assert(before.messages.len() == 0);
                    assert(before.protected_messages[0] == message@);
                    assert(self@ =~= JoinerView {
                        protected_messages: before.protected_messages.drop_first(),
                        ..before
                    });
                }
                if message.message_type == HandshakeType::Finished {
                    return JoinerAction::VerifyFinished(message);
                }
            } else if self.records.len() > 0 {
                let record = self.records.remove(0);
                proof {
                    assert(before.messages.len() == 0);
                    assert(before.protected_messages.len() == 0);
                    assert(before.records[0] == record@);
                    assert(self@ =~= JoinerView {
                        records: before.records.drop_first(),
                        ..before
                    });
                }
                if let Progress::Stop(action) = self.handle_record(record) {
                    return action;
                }
                assert(self@.records.len() == self.records@.len());
            } else {
                proof {
                    assert(before.messages.len() == 0);
                    assert(before.protected_messages.len() == 0);
                    assert(before.records.len() == 0);
                }
                let mut events: Vec<JoinerSessionEvent> = Vec::new();
                events.append(&mut self.events);
                proof {
                    assert(views(events@) =~= before.events);
                    assert(self@ =~= JoinerView { events: Seq::empty(), ..before });
                }
                return JoinerAction::Done(events);
            }
        }
    }

    /// The cookie of the ClientHello is valid and the key agreement gave the
    /// server's answer to it: the server flight goes out.
    pub fn hello_accepted(
        &mut self,
        message: HandshakeMessage,
        record_sequence: u64,
        answer: &[HandshakeMessage],
    ) -> (result: Result<(), Error>)
        ensures
            final(self)@ == old(self)@.with_hello(message@, record_sequence, views(answer@)),
            match (result, server_flight_error(views(answer@), record_sequence)) {
                (Ok(_), None) => true,
                (Err(error), Some(expected)) => error@ == ErrorView::Dtls(expected),
                _ => false,
            },
            old(self)@.valid() && old(self)@.request is None ==> final(self)@.valid(),
    {
        self.accepted_client_hello = Some(message);
        self.epoch0_sequence = record_sequence;
        match build_server_flight(answer, &mut self.epoch0_sequence) {
            Err(error) => Err(Error::Dtls(error)),
            Ok(flight) => {
                proof {
                    lemma_flight_fits(views(answer@), record_sequence);
                }
                match DtlsRecord::encode_datagram(flight.as_slice()) {
                    Err(error) => Err(Error::Dtls(error)),
                    Ok(datagram) => {
                        self.server_flight = flight;
                        self.phase = JoinerSessionPhase::AwaitingClientFlight;
                        self.push_event(
                            JoinerSessionEvent::Transmit { datagram, include_kek: false },
                        );
                        Ok(())
                    },
                }
            },
        }
    }

    /// The cookie of the ClientHello is not valid: the joiner is asked to
    /// return `cookie`.
    pub fn hello_refused(
        &mut self,
        message_seq: u16,
        record_sequence: u64,
        cookie: Vec<u8>,
    ) -> (result: Result<(), Error>)
        ensures
            final(self)@ == old(self)@.with_refusal(message_seq, record_sequence, cookie@),
            match result {
                Ok(_) => cookie@.len() <= 255 && record_sequence <= MAX_SEQUENCE_NUMBER,
                Err(error) => if cookie@.len() > 255 {
                    error@ == ErrorView::Dtls(oversized_cookie())
                } else {
                    record_sequence > MAX_SEQUENCE_NUMBER && error@ == ErrorView::Dtls(
                        oversized_record(),
                    )
                },
            },
            old(self)@.valid() ==> final(self)@.valid(),
    {
        match hello_verify_record(message_seq, record_sequence, cookie) {
            Err(error) => Err(Error::Dtls(error)),
            Ok(record) => match record.encode() {
                Err(error) => Err(Error::Dtls(error)),
                Ok(datagram) => {
                    self.push_event(JoinerSessionEvent::Transmit { datagram, include_kek: false });
                    Ok(())
                },
            },
        }
    }

    /// The key agreement took the key exchange and gave the keys.
    pub fn key_exchange_taken(&mut self, message: HandshakeMessage, keys: ThreadDtlsKeyMaterial)
        ensures
            final(self)@ == old(self)@.with_keys(message@, keys),
            old(self)@.valid() ==> final(self)@.valid(),
    {
        self.key_material = Some(keys);
        self.accepted_client_key_exchange = Some(message);
    }

    /// The key agreement verified the joiner's Finished and gave the server's:
    /// the handshake is complete.
    pub fn finished_verified(&mut self, server_finished: &HandshakeMessage) -> (result: Result<
        (),
        Error,
    >)
        ensures
            final(self)@ == old(self)@.with_finished(server_finished@),
            ({
                let cached = JoinerView {
                    server_finished: server_finished@.encoding(),
                    ..old(self)@
                };
                match result {
                    Ok(_) => server_finished@.fits() && cached.finished_flight_error() is None,
                    Err(error) => if !server_finished@.fits() {
                        error@ == ErrorView::Dtls(oversized_handshake())
                    } else {
                        cached.finished_flight_error() == Some(error@)
                    },
                }
            }),
            old(self)@.valid() && old(self)@.phase
                == JoinerSessionPhase::AwaitingClientFlight ==> final(self)@.valid(),
    {
        match server_finished.encode() {
            Err(error) => Err(Error::Dtls(error)),
            Ok(bytes) => {
                self.server_finished = bytes;
                match self.transmit_server_finished() {
                    Err(error) => Err(error),
                    Ok(_) => {
                        self.phase = JoinerSessionPhase::Connected;
                        self.push_event(JoinerSessionEvent::Connected);
                        Ok(())
                    },
                }
            },
        }
    }

    /// The application decided on the joiner: its finalization is answered.
    /// Without one that waits for a decision, nothing happens.
    pub fn finalized(&mut self, accepted: bool) -> (result: Result<(), Error>)
        ensures
            final(self)@ == old(self)@.with_decision(accepted),
            match result {
                Ok(_) => old(self)@.decision_error(accepted) is None,
                Err(error) => old(self)@.decision_error(accepted) == Some(error@),
            },
            old(self)@.valid() ==> final(self)@.valid(),
    {
        proof {
            if old(self)@.valid() && old(self)@.request is Some {
                let (request, info) = old(self)@.request->0;
                law_kek_goes_to_accepted_joiners_only(
                    JoinerView { request: None, ..old(self)@ },
                    request,
                    info,
                    accepted,
                );
            }
        }
        match self.request.take() {
            None => Ok(()),
            Some((request, info)) => {
                self.finalize_decision = Some(accepted);
                self.answer_join_fin(&request, info, accepted)
            },
        }
    }

    /// Lets `handler` decide on the finalization that waits for a decision:
    /// it is asked once, about this joiner and that finalization, and its
    /// answer is the decision. Without a finalization it is not asked.
    pub fn finalize_with<H: JoinerHandler>(&mut self, handler: &mut H) -> (result: Result<
        (),
        Error,
    >)
        ensures
            match old(self)@.request {
                None => result is Ok && final(self)@ == old(self)@ && *final(handler) == *old(
                    handler,
                ),
                Some((_, info)) => exists|
                    accepted: bool,
                    asked: &mut H,
                    id: [u8; 8],
                    about: JoinerFinalizeInfo,
                |
                    *asked == *old(handler) && *final(asked) == *final(handler) && id@ == old(
                        self,
                    )@.joiner_id && about@ == info && #[trigger] call_ensures(
                        H::on_joiner_finalize,
                        (asked, &id, &about),
                        accepted,
                    ) && final(self)@ == old(self)@.with_decision(accepted) && match result {
                        Ok(_) => old(self)@.decision_error(accepted) is None,
                        Err(error) => old(self)@.decision_error(accepted) == Some(error@),
                    },
            },
    {
        let accepted = match &self.request {
            None => {
                return Ok(());
            },
            Some((_, info)) => handler.on_joiner_finalize(&self.joiner_id, info),
        };
        self.finalized(accepted)
    }
}

/// Taking a payload keeps the session valid.
pub proof fn law_receiving_keeps_valid(session: JoinerView, records: Seq<RecordView>)
    requires
        session.valid(),
    ensures
        session.received(records).valid(),
        session.received(records).finalize_decision == session.finalize_decision,
{
}

proof fn lemma_step_keeps_valid(session: JoinerView, record: RecordView)
    requires
        session.valid(),
    ensures
        match session.record_step(record) {
            Step::Continue(after) => after.valid() && (session.finalize_decision is Some
                ==> after.finalize_decision == session.finalize_decision) && (
            session.finalize_decision is None ==> after.finalize_decision is None),
            Step::Stop(after, action) => after.valid() && after.finalize_decision
                == session.finalize_decision && (action is Finalize
                ==> session.finalize_decision is None),
        },
{
    match session.open(record) {
        Opening::Opened(plaintext) => {
            let opened_session = JoinerView {
                server_finished: Seq::empty(),
                ..session.after_open(record.header.sequence_number)
            };
            assert(opened_session.valid());
            if session.established() && session.finalize_decision is Some {
                let accepted = session.finalize_decision->0;
                assert forall|request: CoapView, info: FinalizeView|
                    (#[trigger] opened_session.answered(request, info, accepted)).valid() by {
                    let after = opened_session.answered(request, info, accepted);
                    assert forall|i: int| 0 <= i < after.events.len() implies kek_only_if_accepted(
                        #[trigger] after.events[i],
                        after.finalize_decision,
                    ) by {
                        if i < opened_session.events.len() {
                            assert(after.events[i] == opened_session.events[i]);
                        }
                    }
                }
            }
        },
        _ => {},
    }
}

/// Working through a payload keeps the session valid, never asks for a second
/// decision, and never changes the one that was made.
pub proof fn law_decision_is_made_once(session: JoinerView)
    requires
        session.valid(),
    ensures
        session.next().0.valid(),
        session.next().0.finalize_decision == session.finalize_decision,
        session.next().1 is Finalize ==> session.finalize_decision is None,
        session.next().1 matches JoinerActionView::Done(events) ==> forall|i: int|
            0 <= i < events.len() ==> kek_only_if_accepted(
                #[trigger] events[i],
                session.finalize_decision,
            ),
    decreases session.records.len(), session.messages.len() + session.protected_messages.len(),
{
    if session.request is Some {
    } else if session.messages.len() > 0 {
        let rest = JoinerView { messages: session.messages.drop_first(), ..session };
        assert(rest.valid());
        if let Step::Continue(after) = rest.message_step(session.messages[0]) {
            assert(after.valid());
            law_decision_is_made_once(after);
        }
    } else if session.protected_messages.len() > 0 {
        let rest = JoinerView {
            protected_messages: session.protected_messages.drop_first(),
            ..session
        };
        assert(rest.valid());
        law_decision_is_made_once(rest);
    } else if session.records.len() > 0 {
        let rest = JoinerView { records: session.records.drop_first(), ..session };
        assert(rest.valid());
        lemma_step_keeps_valid(rest, session.records[0]);
        if let Step::Continue(after) = rest.record_step(session.records[0]) {
            law_decision_is_made_once(after);
        }
    }
}

/// Answering a finalization keeps the session valid, fixes the decision, and
/// attaches the KEK exactly where the joiner is accepted.
pub proof fn law_kek_goes_to_accepted_joiners_only(
    session: JoinerView,
    request: CoapView,
    info: FinalizeView,
    accepted: bool,
)
    requires
        session.valid(),
        session.established(),
        session.finalize_decision is None || session.finalize_decision == Some(accepted),
    ensures
        session.answered(request, info, accepted).valid(),
        session.answered(request, info, accepted).finalize_decision == Some(accepted),
        session.answered(request, info, accepted).events.len() > session.events.len(),
        session.answered(request, info, accepted).events[session.events.len() as int] matches JoinerEventView::Transmit { include_kek, .. }
            && include_kek == accepted,
{
    let after = session.answered(request, info, accepted);
    assert forall|i: int| 0 <= i < after.events.len() implies kek_only_if_accepted(
        #[trigger] after.events[i],
        after.finalize_decision,
    ) by {
        if i < session.events.len() {
            assert(after.events[i] == session.events[i]);
        }
    }
}

/// What the joiner sends twice is answered at most four times: once the count
/// is used up, a repeated ClientHello or Finished flight produces nothing.
pub proof fn law_duplicates_stop_at_the_cap(
    session: JoinerView,
    message: MessageView,
    records: Seq<RecordView>,
)
    ensures
        session.flight_retransmissions >= MAX_DUPLICATE_FLIGHT_RETRANSMISSIONS
            && message.message_type == HandshakeType::ClientHello && session.phase
            == JoinerSessionPhase::AwaitingClientFlight ==> session.message_step(message)
            == Step::Continue(session),
        session.finished_retransmissions >= MAX_DUPLICATE_FLIGHT_RETRANSMISSIONS
            ==> session.received(records).events.len() == 0,
{
}

} // verus!
