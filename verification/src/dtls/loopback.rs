//! A server that serves one handshake in the same process, for tests of
//! clients.
//!
//! It neither retransmits nor recovers. How it ends is chosen by the caller:
//! it completes the handshake, makes the client start over with another
//! cookie first, or sends an alert in place of its Finished. Cookies and key
//! agreement are the caller's.

use vstd::prelude::*;

use crate::bytes::{same_bytes, views};
use crate::dtls::error::{Error, ErrorView};
use crate::dtls::flight::wrapped;
use crate::dtls::handshake::{
    client_hello_in, hello_verify_record, hello_verify_record_view, malformed_client_hello,
    malformed_handshake, messages_in, oversized_cookie, oversized_handshake,
    parse_unfragmented_handshake_messages, parse_unfragmented_handshake_record, single_message,
    unexpected_message, ClientHello, HandshakeMessage, HandshakeType, HelloView, MessageView,
};
use crate::dtls::protection::{
    open_aes_128_ccm_8_record, opened, protect_aes_128_ccm_8_record, protectable, protected,
    unauthentic_record, RecordProtectionKey, ThreadDtlsKeyMaterial,
};
use crate::dtls::record::{
    datagram_of, oversized_record, ContentType, DtlsRecord, RecordView, MAX_SEQUENCE_NUMBER,
};
use crate::dtls::retransmit::LoopbackEnd;
use crate::dtls::server::{
    build_server_flight, lemma_flight_fits, server_flight_error, server_flight_of,
    server_flight_reach, ALERT_HANDSHAKE_FAILURE, ALERT_LEVEL_FATAL,
};

verus! {


/// The cookie that takes the place of the first one.
pub open spec fn replacement_cookie() -> Seq<u8> {
    seq![0xcau8, 0xfeu8, 0xbau8, 0xbeu8]
}

/// The alert that tells the client that the handshake failed.
pub open spec fn alert_payload() -> Seq<u8> {
    seq![ALERT_LEVEL_FATAL, ALERT_HANDSHAKE_FAILURE]
}

/// What the caller has to do next.
pub enum LoopbackAction {
    /// Receive the next datagram.
    Receive,
    /// Check the cookie: answer with [`LoopbackServer::cookie_checked`].
    CheckCookie { message: HandshakeMessage, record_sequence: u64, hello: ClientHello },
    /// Make a cookie: answer with [`LoopbackServer::refusal`].
    IssueCookie { message: HandshakeMessage, record_sequence: u64, hello: ClientHello },
    /// Let the key agreement answer the ClientHello: answer with
    /// [`LoopbackServer::hello_answered`].
    AnswerHello { message: HandshakeMessage, record_sequence: u64 },
    /// Let the key agreement take the key exchange: answer with
    /// [`LoopbackServer::key_exchange_taken`].
    KeyExchange(HandshakeMessage),
    /// Let the key agreement verify the Finished: answer with
    /// [`LoopbackServer::finished_verified`] or
    /// [`LoopbackServer::finished_refused`].
    VerifyFinished(HandshakeMessage),
    /// Send the datagram and go on.
    Send(Vec<u8>),
    /// Send the datagram; the handshake ends without keys.
    SendAndStop(Vec<u8>),
    /// Send the datagram; the handshake failed.
    SendAndFail { datagram: Vec<u8>, error: Error },
    /// The handshake failed.
    Fail(Error),
}

/// [`LoopbackAction`] over views.
pub enum LoopbackActionView {
    Receive,
    CheckCookie { message: MessageView, record_sequence: u64, hello: HelloView },
    IssueCookie { message: MessageView, record_sequence: u64, hello: HelloView },
    AnswerHello { message: MessageView, record_sequence: u64 },
    KeyExchange(MessageView),
    VerifyFinished(MessageView),
    Send(Seq<u8>),
    SendAndStop(Seq<u8>),
    SendAndFail { datagram: Seq<u8>, error: ErrorView },
    Fail(ErrorView),
}

impl View for LoopbackAction {
    type V = LoopbackActionView;

    open spec fn view(&self) -> LoopbackActionView {
        match self {
            LoopbackAction::Receive => LoopbackActionView::Receive,
            LoopbackAction::CheckCookie { message, record_sequence, hello } =>
                LoopbackActionView::CheckCookie {
                message: message@,
                record_sequence: *record_sequence,
                hello: hello@,
            },
            LoopbackAction::IssueCookie { message, record_sequence, hello } =>
                LoopbackActionView::IssueCookie {
                message: message@,
                record_sequence: *record_sequence,
                hello: hello@,
            },
            LoopbackAction::AnswerHello { message, record_sequence } =>
                LoopbackActionView::AnswerHello {
                message: message@,
                record_sequence: *record_sequence,
            },
            LoopbackAction::KeyExchange(message) => LoopbackActionView::KeyExchange(message@),
            LoopbackAction::VerifyFinished(message) => LoopbackActionView::VerifyFinished(
                message@,
            ),
            LoopbackAction::Send(datagram) => LoopbackActionView::Send(datagram@),
            LoopbackAction::SendAndStop(datagram) => LoopbackActionView::SendAndStop(datagram@),
            LoopbackAction::SendAndFail { datagram, error } => LoopbackActionView::SendAndFail {
                datagram: datagram@,
                error: error@,
            },
            LoopbackAction::Fail(error) => LoopbackActionView::Fail(error@),
        }
    }
}

/// The server of one handshake.
pub struct LoopbackServer {
    end: LoopbackEnd,
    replacement_sent: bool,
    epoch0_sequence: u64,
    message_sequence: u16,
    saw_change_cipher_spec: bool,
    key_material: Option<ThreadDtlsKeyMaterial>,
    records: Vec<DtlsRecord>,
    record_sequence: u64,
    messages: Vec<HandshakeMessage>,
}

/// [`LoopbackServer`] over views.
#[verifier::ext_equal]
pub struct LoopbackView {
    pub end: LoopbackEnd,
    /// Whether the client was given the other cookie.
    pub replacement_sent: bool,
    pub epoch0_sequence: u64,
    /// The number of the ClientHello that was answered.
    pub message_sequence: u16,
    pub saw_change_cipher_spec: bool,
    pub key_material: Option<ThreadDtlsKeyMaterial>,
    /// Records of the datagram in hand.
    pub records: Seq<RecordView>,
    /// The number of the record whose messages are in hand.
    pub record_sequence: u64,
    /// Messages in hand.
    pub messages: Seq<MessageView>,
}

impl View for LoopbackServer {
    type V = LoopbackView;

    closed spec fn view(&self) -> LoopbackView {
        LoopbackView {
            end: self.end,
            replacement_sent: self.replacement_sent,
            epoch0_sequence: self.epoch0_sequence,
            message_sequence: self.message_sequence,
            saw_change_cipher_spec: self.saw_change_cipher_spec,
            key_material: self.key_material,
            records: views(self.records@),
            record_sequence: self.record_sequence,
            messages: views(self.messages@),
        }
    }
}

/// The action that sends a record, or fails where it does not fit.
pub open spec fn alert_action(sequence: u64, error: ErrorView) -> LoopbackActionView {
    let alert = RecordView::dtls12(ContentType::Alert, 0, sequence, alert_payload());
    if alert.fits() {
        LoopbackActionView::SendAndFail { datagram: alert.encoding(), error }
    } else {
        LoopbackActionView::Fail(oversized_record())
    }
}

impl LoopbackView {
    /// What a plaintext handshake message leads to.
    pub open spec fn message_action(self, message: MessageView) -> LoopbackActionView {
        match message.message_type {
            HandshakeType::ClientHello => match client_hello_in(message.payload) {
                None => LoopbackActionView::Fail(malformed_client_hello()),
                Some(hello) => if !self.replacement_sent {
                    LoopbackActionView::CheckCookie {
                        message,
                        record_sequence: self.record_sequence,
                        hello,
                    }
                } else if hello.cookie == replacement_cookie() {
                    LoopbackActionView::AnswerHello {
                        message,
                        record_sequence: self.record_sequence,
                    }
                } else {
                    LoopbackActionView::IssueCookie {
                        message,
                        record_sequence: self.record_sequence,
                        hello,
                    }
                },
            },
            HandshakeType::ClientKeyExchange => LoopbackActionView::KeyExchange(message),
            other => LoopbackActionView::Fail(
                ErrorView::Crypto("loopback server got "@ + other.spec_name()),
            ),
        }
    }

    /// What a protected handshake record leads to.
    pub open spec fn finished_action(self, record: RecordView) -> LoopbackActionView {
        match self.key_material {
            None => LoopbackActionView::Fail(ErrorView::InvalidState("no key material"@)),
            Some(keys) => if !self.saw_change_cipher_spec {
                LoopbackActionView::Fail(
                    ErrorView::Crypto("client Finished before ChangeCipherSpec"@),
                )
            } else {
                match self.end {
                    LoopbackEnd::AlertInsteadOfFinished => {
                        let alert = RecordView::dtls12(
                            ContentType::Alert,
                            0,
                            self.epoch0_sequence,
                            alert_payload(),
                        );
                        if alert.fits() {
                            LoopbackActionView::SendAndStop(alert.encoding())
                        } else {
                            LoopbackActionView::Fail(oversized_record())
                        }
                    },
                    LoopbackEnd::ProtectedAlertInsteadOfFinished =>
                        LoopbackActionView::SendAndStop(
                        protected(
                            ContentType::Alert,
                            1,
                            0,
                            keys.key_block.server_write_key@,
                            keys.key_block.server_write_iv@,
                            alert_payload(),
                        ).encoding(),
                    ),
                    _ => match opened(
                        record,
                        keys.key_block.client_write_key@,
                        keys.key_block.client_write_iv@,
                    ) {
                        None => alert_action(self.epoch0_sequence, unauthentic_record()),
                        Some(plaintext) => match single_message(
                            plaintext,
                            HandshakeType::Finished,
                        ) {
                            Some(message) => LoopbackActionView::VerifyFinished(message),
                            None => LoopbackActionView::Fail(
                                if messages_in(plaintext) is None {
                                    malformed_handshake()
                                } else {
                                    unexpected_message()
                                },
                            ),
                        },
                    },
                }
            },
        }
    }

    /// What the caller has to do next, and the server until then.
    pub open spec fn next(self) -> (LoopbackView, LoopbackActionView)
        decreases self.records.len(), self.messages.len(),
    {
        if self.messages.len() > 0 {
            let rest = LoopbackView { messages: self.messages.drop_first(), ..self };
            (rest, rest.message_action(self.messages[0]))
        } else if self.records.len() > 0 {
            let record = self.records[0];
            let rest = LoopbackView { records: self.records.drop_first(), ..self };
            match (record.header.epoch, record.header.content_type) {
                (0u16, ContentType::Handshake) => match messages_in(record.payload) {
                    None => (rest, LoopbackActionView::Fail(malformed_handshake())),
                    Some(messages) => LoopbackView {
                        messages,
                        record_sequence: record.header.sequence_number,
                        ..rest
                    }.next(),
                },
                (0u16, ContentType::ChangeCipherSpec) => LoopbackView {
                    saw_change_cipher_spec: true,
                    ..rest
                }.next(),
                (1u16, ContentType::Handshake) => (rest, rest.finished_action(record)),
                _ => rest.next(),
            }
        } else {
            (self, LoopbackActionView::Receive)
        }
    }

    /// Whether the client is given the other cookie now.
    pub open spec fn replaces(self, hello: HelloView) -> bool {
        self.end == LoopbackEnd::ReplaceCookieThenComplete && hello.cookie.len() > 0
            && !self.replacement_sent
    }
}

fn alert_bytes() -> (payload: Vec<u8>)
    ensures
        payload@ == alert_payload(),
{
    let payload: Vec<u8> = vec![ALERT_LEVEL_FATAL, ALERT_HANDSHAKE_FAILURE];
    assert(payload@ =~= alert_payload());
    payload
}

fn replacement_bytes() -> (cookie: Vec<u8>)
    ensures
        cookie@ == replacement_cookie(),
{
    let cookie: Vec<u8> = vec![0xca, 0xfe, 0xba, 0xbe];
    assert(cookie@ =~= replacement_cookie());
    cookie
}

/// The datagram of the alert that tells the client that the handshake failed.
fn fatal_handshake_alert(sequence: u64) -> (result: Result<Vec<u8>, Error>)
    ensures
        ({
            let alert = RecordView::dtls12(ContentType::Alert, 0, sequence, alert_payload());
            match result {
                Ok(datagram) => alert.fits() && datagram@ == alert.encoding(),
                Err(error) => !alert.fits() && error@ == oversized_record(),
            }
        }),
{
    match DtlsRecord::new(ContentType::Alert, 0, sequence, alert_bytes()) {
        Err(error) => Err(error),
        Ok(record) => record.encode(),
    }
}

fn failed_with_alert(sequence: u64, error: Error) -> (action: LoopbackAction)
    ensures
        action@ == alert_action(sequence, error@),
{
    match fatal_handshake_alert(sequence) {
        Err(oversized) => LoopbackAction::Fail(oversized),
        Ok(datagram) => LoopbackAction::SendAndFail { datagram, error },
    }
}

impl LoopbackServer {
    /// A server that ends the handshake as asked.
    pub fn new(end: LoopbackEnd) -> (server: Self)
        ensures
            server@ == (LoopbackView {
                end,
                replacement_sent: false,
                epoch0_sequence: 0,
                message_sequence: 1,
                saw_change_cipher_spec: false,
                key_material: None,
                records: Seq::empty(),
                record_sequence: 0,
                messages: Seq::empty(),
            }),
    {
        let server = LoopbackServer {
            end,
            replacement_sent: false,
            epoch0_sequence: 0,
            message_sequence: 1,
            saw_change_cipher_spec: false,
            key_material: None,
            records: Vec::new(),
            record_sequence: 0,
            messages: Vec::new(),
        };
        proof {
            assert(server@.records =~= Seq::<RecordView>::empty());
            assert(server@.messages =~= Seq::<MessageView>::empty());
        }
        server
    }

    /// The keys, once the key exchange was taken.
    pub fn key_material(&self) -> (keys: Option<ThreadDtlsKeyMaterial>)
        ensures
            keys == self@.key_material,
    {
        match &self.key_material {
            Some(keys) => Some(keys.clone()),
            None => None,
        }
    }

    /// The number of the server's Finished: three behind the ClientHello that
    /// was answered.
    pub fn finished_sequence(&self) -> (sequence: u16)
        ensures
            sequence == (self@.message_sequence + 3) % 0x1_0000,
    {
        self.message_sequence.wrapping_add(3)
    }

    /// Takes the records of a datagram.
    pub fn receive(&mut self, records: Vec<DtlsRecord>)
        ensures
            final(self)@ == (LoopbackView {
                records: views(records@),
                messages: Seq::empty(),
                ..old(self)@
            }),
    {
        self.records = records;
        self.messages = Vec::new();
        assert(self@.messages =~= Seq::<MessageView>::empty());
    }

    fn message_action(&self, message: HandshakeMessage) -> (action: LoopbackAction)
        ensures
            action@ == self@.message_action(message@),
    {
        match message.message_type {
            HandshakeType::ClientHello => match ClientHello::decode(message.payload.as_slice()) {
                Err(error) => LoopbackAction::Fail(error),
                Ok(hello) => {
                    let record_sequence: u64 = self.record_sequence;
                    if !self.replacement_sent {
                        LoopbackAction::CheckCookie { message, record_sequence, hello }
                    } else if same_bytes(
                        hello.cookie.as_slice(),
                        replacement_bytes().as_slice(),
                    ) {
                        LoopbackAction::AnswerHello { message, record_sequence }
                    } else {
                        LoopbackAction::IssueCookie { message, record_sequence, hello }
                    }
                },
            },
            HandshakeType::ClientKeyExchange => LoopbackAction::KeyExchange(message),
            other => LoopbackAction::Fail(
                Error::Crypto(String::from_str("loopback server got ").concat(other.name())),
            ),
        }
    }

    fn finished_action(&self, record: &DtlsRecord) -> (action: LoopbackAction)
        ensures
            action@ == self@.finished_action(record@),
    {
        let keys = match &self.key_material {
            None => {
                return LoopbackAction::Fail(Error::InvalidState("no key material"));
            },
            Some(keys) => keys,
        };
        if !self.saw_change_cipher_spec {
            return LoopbackAction::Fail(
                Error::crypto("client Finished before ChangeCipherSpec"),
            );
        }
        match self.end {
            LoopbackEnd::AlertInsteadOfFinished => match fatal_handshake_alert(
                self.epoch0_sequence,
            ) {
                Err(error) => LoopbackAction::Fail(error),
                Ok(datagram) => LoopbackAction::SendAndStop(datagram),
            },
            LoopbackEnd::ProtectedAlertInsteadOfFinished => match protect_aes_128_ccm_8_record(
                ContentType::Alert,
                1,
                0,
                RecordProtectionKey::new(keys.key_block.server_write_key),
                &keys.key_block.server_write_iv,
                alert_bytes().as_slice(),
            ) {
                Err(error) => LoopbackAction::Fail(error),
                Ok(alert) => match alert.encode() {
                    Err(error) => LoopbackAction::Fail(error),
                    Ok(datagram) => LoopbackAction::SendAndStop(datagram),
                },
            },
            _ => match open_aes_128_ccm_8_record(
                record,
                RecordProtectionKey::new(keys.key_block.client_write_key),
                &keys.key_block.client_write_iv,
            ) {
                Err(error) => failed_with_alert(self.epoch0_sequence, error),
                Ok(plaintext) => {
                    let plain = DtlsRecord { header: record.header, payload: plaintext };
                    match parse_unfragmented_handshake_record(&plain, HandshakeType::Finished) {
                        Err(error) => LoopbackAction::Fail(error),
                        Ok(message) => LoopbackAction::VerifyFinished(message),
                    }
                },
            },
        }
    }

    /// What to do next with the datagram in hand.
    pub fn next(&mut self) -> (action: LoopbackAction)
        ensures
            (final(self)@, action@) == old(self)@.next(),
    {
        loop
            invariant
                self@.next() == old(self)@.next(),
            decreases self.records@.len(), self.messages@.len(),
        {
            let ghost before = self@;
            if self.messages.len() > 0 {
                let message = self.messages.remove(0);
                proof {
                    assert(before.messages[0] == message@);
                    assert(self@ =~= LoopbackView {
                        messages: before.messages.drop_first(),
                        ..before
                    });
                }
                return self.message_action(message);
            }
            assert(before.messages.len() == 0);
            if self.records.len() == 0 {
                assert(before.records.len() == 0);
                return LoopbackAction::Receive;
            }
            let record = self.records.remove(0);
            proof {
                assert(before.records[0] == record@);
                assert(self@ =~= LoopbackView { records: before.records.drop_first(), ..before });
            }
            match (record.header.epoch, record.header.content_type) {
                (0, ContentType::Handshake) => match parse_unfragmented_handshake_messages(
                    &record,
                ) {
                    Err(error) => {
                        return LoopbackAction::Fail(error);
                    },
                    Ok(messages) => {
                        let ghost held = self@;
                        self.messages = messages;
                        self.record_sequence = record.header.sequence_number;
                        assert(self@ =~= LoopbackView {
                            messages: views(messages@),
                            record_sequence: record.header.sequence_number,
                            ..held
                        });
                    },
                },
                (0, ContentType::ChangeCipherSpec) => {
                    self.saw_change_cipher_spec = true;
                },
                (1, ContentType::Handshake) => {
                    return self.finished_action(&record);
                },
                _ => {},
            }
        }
    }

    /// The caller checked the cookie of a ClientHello. The client may be given
    /// the other cookie all the same.
    pub fn cookie_checked(
        &mut self,
        message: HandshakeMessage,
        record_sequence: u64,
        hello: ClientHello,
        valid: bool,
    ) -> (action: LoopbackAction)
        ensures
            final(self)@ == (LoopbackView {
                replacement_sent: old(self)@.replacement_sent || old(self)@.replaces(hello@),
                ..old(self)@
            }),
            action@ == (if old(self)@.replaces(hello@) {
                if record_sequence <= MAX_SEQUENCE_NUMBER {
                    LoopbackActionView::Send(
                        hello_verify_record_view(
                            message@.message_seq,
                            record_sequence,
                            replacement_cookie(),
                        ).encoding(),
                    )
                } else {
                    LoopbackActionView::Fail(oversized_record())
                }
            } else if valid {
                LoopbackActionView::AnswerHello { message: message@, record_sequence }
            } else {
                LoopbackActionView::IssueCookie {
                    message: message@,
                    record_sequence,
                    hello: hello@,
                }
            }),
    {
        let replaces = self.end == LoopbackEnd::ReplaceCookieThenComplete && hello.cookie.len() > 0
            && !self.replacement_sent;
        if replaces {
            self.replacement_sent = true;
            return match LoopbackServer::refusal(
                message.message_seq,
                record_sequence,
                replacement_bytes(),
            ) {
                Err(error) => LoopbackAction::Fail(error),
                Ok(datagram) => LoopbackAction::Send(datagram),
            };
        }
        if valid {
            LoopbackAction::AnswerHello { message, record_sequence }
        } else {
            LoopbackAction::IssueCookie { message, record_sequence, hello }
        }
    }

    /// The datagram that asks the client to return `cookie`.
    pub fn refusal(message_seq: u16, record_sequence: u64, cookie: Vec<u8>) -> (result: Result<
        Vec<u8>,
        Error,
    >)
        ensures
            match result {
                Ok(datagram) => cookie@.len() <= 255 && record_sequence <= MAX_SEQUENCE_NUMBER
                    && datagram@ == hello_verify_record_view(
                    message_seq,
                    record_sequence,
                    cookie@,
                ).encoding(),
                Err(error) => if cookie@.len() > 255 {
                    error@ == oversized_cookie()
                } else {
                    record_sequence > MAX_SEQUENCE_NUMBER && error@ == oversized_record()
                },
            },
    {
        match hello_verify_record(message_seq, record_sequence, cookie) {
            Err(error) => Err(error),
            Ok(record) => record.encode(),
        }
    }

    /// The key agreement gave the server's answer to a ClientHello: the
    /// datagram that carries it.
    pub fn hello_answered(
        &mut self,
        message_seq: u16,
        record_sequence: u64,
        answer: &[HandshakeMessage],
    ) -> (result: Result<Vec<u8>, Error>)
        ensures
            ({
                let flight = server_flight_of(views(answer@), record_sequence);
                match result {
                    Ok(datagram) => server_flight_error(views(answer@), record_sequence) is None
                        && datagram@ == datagram_of(flight),
                    Err(error) => server_flight_error(views(answer@), record_sequence) == Some(
                        error@,
                    ),
                }
            }),
            final(self)@ == (LoopbackView {
                epoch0_sequence: wrapped(
                    record_sequence + server_flight_reach(views(answer@), record_sequence),
                ),
                message_sequence: message_seq,
                ..old(self)@
            }),
    {
        self.epoch0_sequence = record_sequence;
        self.message_sequence = message_seq;
        match build_server_flight(answer, &mut self.epoch0_sequence) {
            Err(error) => Err(error),
            Ok(flight) => {
                proof {
                    lemma_flight_fits(views(answer@), record_sequence);
                }
                DtlsRecord::encode_datagram(flight.as_slice())
            },
        }
    }

    /// The key agreement took the key exchange and gave the keys.
    pub fn key_exchange_taken(&mut self, keys: ThreadDtlsKeyMaterial)
        ensures
            final(self)@ == (LoopbackView { key_material: Some(keys), ..old(self)@ }),
    {
        self.key_material = Some(keys);
    }

    /// The client's Finished did not verify.
    pub fn finished_refused(&self, error: Error) -> (action: LoopbackAction)
        ensures
            action@ == alert_action(self@.epoch0_sequence, error@),
    {
        failed_with_alert(self.epoch0_sequence, error)
    }

    /// The client's Finished verified and `server_finished` answers it: the
    /// datagram that ends the handshake.
    pub fn finished_verified(&self, server_finished: &HandshakeMessage) -> (result: Result<
        Vec<u8>,
        Error,
    >)
        ensures
            ({
                let keys = self@.key_material->0.key_block;
                let finished = server_finished@.encoding();
                let change_cipher_spec = RecordView::dtls12(
                    ContentType::ChangeCipherSpec,
                    0,
                    self@.epoch0_sequence,
                    seq![1u8],
                );
                let flight = seq![
                    change_cipher_spec,
                    protected(
                        ContentType::Handshake,
                        1,
                        0,
                        keys.server_write_key@,
                        keys.server_write_iv@,
                        finished,
                    ),
                ];
                match result {
                    Ok(datagram) => self@.key_material is Some && server_finished@.fits()
                        && self@.epoch0_sequence <= MAX_SEQUENCE_NUMBER && protectable(0, finished.len()) && datagram@
                        == datagram_of(flight),
                    Err(error) => if self@.key_material is None {
                        error@ == ErrorView::InvalidState("no key material"@)
                    } else if self@.epoch0_sequence > MAX_SEQUENCE_NUMBER {
                        error@ == oversized_record()
                    } else if !server_finished@.fits() {
                        error@ == oversized_handshake()
                    } else {
                        !protectable(0, finished.len()) && error@ == oversized_record()
                    },
                }
            }),
    {
        let keys = match &self.key_material {
            None => {
                return Err(Error::InvalidState("no key material"));
            },
            Some(keys) => keys,
        };
        let one: Vec<u8> = vec![1u8];
        assert(one@ =~= seq![1u8]);
        let change_cipher_spec = match DtlsRecord::new(
            ContentType::ChangeCipherSpec,
            0,
            self.epoch0_sequence,
            one,
        ) {
            Err(error) => {
                return Err(error);
            },
            Ok(record) => record,
        };
        let bytes = match server_finished.encode() {
            Err(error) => {
                return Err(error);
            },
            Ok(bytes) => bytes,
        };
        let finished = match protect_aes_128_ccm_8_record(
            ContentType::Handshake,
            1,
            0,
            RecordProtectionKey::new(keys.key_block.server_write_key),
            &keys.key_block.server_write_iv,
            bytes.as_slice(),
        ) {
            Err(error) => {
                return Err(error);
            },
            Ok(record) => record,
        };
        let mut flight: Vec<DtlsRecord> = Vec::new();
        flight.push(change_cipher_spec);
        flight.push(finished);
        proof {
            assert(views(flight@) =~= seq![change_cipher_spec@, finished@]);
            assert forall|i: int| 0 <= i < views(flight@).len() implies (#[trigger] views(
                flight@,
            )[i]).fits() by {}
        }
        DtlsRecord::encode_datagram(flight.as_slice())
    }
}

/// The other cookie is given at most once, and only to a client that returned
/// a cookie.
pub proof fn law_the_cookie_is_replaced_once(server: LoopbackView, hello: HelloView)
    ensures
        server.replacement_sent ==> !server.replaces(hello),
        hello.cookie.len() == 0 ==> !server.replaces(hello),
        server.end != LoopbackEnd::ReplaceCookieThenComplete ==> !server.replaces(hello),
{
}

/// A ClientHello is handed out to have its cookie checked; after the cookie was
/// replaced, the replacement alone is answered and every other cookie gets
/// another one. A key exchange is handed out, and every other message fails.
pub proof fn law_what_the_loopback_server_does_with_messages(
    server: LoopbackView,
    message: MessageView,
    hello: HelloView,
)
    ensures
        message.message_type == HandshakeType::ClientHello && client_hello_in(message.payload)
            == Some(hello) ==> server.message_action(message) == (if !server.replacement_sent {
            LoopbackActionView::CheckCookie {
                message,
                record_sequence: server.record_sequence,
                hello,
            }
        } else if hello.cookie == seq![0xcau8, 0xfeu8, 0xbau8, 0xbeu8] {
            LoopbackActionView::AnswerHello { message, record_sequence: server.record_sequence }
        } else {
            LoopbackActionView::IssueCookie {
                message,
                record_sequence: server.record_sequence,
                hello,
            }
        }),
        message.message_type == HandshakeType::ClientKeyExchange ==> server.message_action(message)
            == LoopbackActionView::KeyExchange(message),
        message.message_type != HandshakeType::ClientHello && message.message_type
            != HandshakeType::ClientKeyExchange ==> server.message_action(message) is Fail,
{
}

/// The loopback server verifies a Finished that the client's keys open, behind
/// the ChangeCipherSpec; where it is to send an alert instead, that is the
/// fatal handshake failure.
pub proof fn law_what_the_loopback_server_does_with_a_finished(
    server: LoopbackView,
    record: RecordView,
    keys: ThreadDtlsKeyMaterial,
    finished: MessageView,
)
    requires
        server.key_material == Some(keys),
        server.saw_change_cipher_spec,
        finished.message_type == HandshakeType::Finished,
        finished.fits(),
        server.epoch0_sequence <= 0xffff_ffff_ffff,
    ensures
        ({
            let completes = server.end == LoopbackEnd::Complete || server.end
                == LoopbackEnd::ReplaceCookieThenComplete;
            let plaintext = opened(
                record,
                keys.key_block.client_write_key@,
                keys.key_block.client_write_iv@,
            );
            &&& completes && plaintext == Some(finished.encoding()) ==> server.finished_action(
                record,
            ) == LoopbackActionView::VerifyFinished(finished)
            &&& completes && plaintext is None ==> server.finished_action(record) is SendAndFail
            &&& server.end == LoopbackEnd::AlertInsteadOfFinished ==> server.finished_action(record)
                == LoopbackActionView::SendAndStop(
                RecordView::dtls12(
                    ContentType::Alert,
                    0,
                    server.epoch0_sequence,
                    seq![2u8, 40u8],
                ).encoding(),
            )
            &&& server.end == LoopbackEnd::ProtectedAlertInsteadOfFinished
                ==> server.finished_action(record) == LoopbackActionView::SendAndStop(
                protected(
                    ContentType::Alert,
                    1,
                    0,
                    keys.key_block.server_write_key@,
                    keys.key_block.server_write_iv@,
                    seq![2u8, 40u8],
                ).encoding(),
            )
        }),
{
    crate::dtls::handshake::law_message_round_trip(finished);
    assert(seq![finished][0] == finished);
}

} // verus!
