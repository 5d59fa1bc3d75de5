//! The server's side of the handshake: what to do with each record and when
//! to transmit again.
//!
//! The server answers initial ClientHellos without keeping state, commits to
//! the first peer that returns a valid cookie, and then waits for the client's
//! flight. Cookies and key agreement are the caller's.

use vstd::prelude::*;

use crate::bytes::{same_bytes, views};
use crate::dtls::client::{invalid_change_cipher_spec, not_one_message};
use crate::dtls::error::{Error, ErrorView};
use crate::dtls::flight::{
    client_finished_flight, is_client_finished_flight, renumber_epoch_zero_flight, renumbered,
    sequence_after, take_record_sequence, wrapped,
};
use crate::dtls::handshake::{
    client_hello_in, contains_message, messages_in, oversized_handshake,
    parse_unfragmented_handshake_messages, parse_unfragmented_handshake_record, single_message,
    ClientHello, HandshakeMessage, HandshakeType, HelloView, MessageView,
};
use crate::dtls::protection::{
    open_aes_128_ccm_8_record, opened, protectable, unauthentic_record, RecordProtectionKey,
    ThreadDtlsKeyMaterial,
};
use crate::dtls::record::{all_fit, oversized_record, ContentType, DtlsRecord, RecordView};
use crate::dtls::retransmit::{
    backed_off, DuplicateRetransmitBudget, RetransmitSchedule, INITIAL_RETRANSMIT_TIMEOUT,
    MAX_DUPLICATE_RETRANSMISSIONS,
};
use crate::dtls::session::{
    alert_error, decode_alert_error, write_iv, write_key, SessionRole, SessionState, SessionView,
};

verus! {

/// Alert level of fatal alerts.
pub const ALERT_LEVEL_FATAL: u8 = 2;

/// Alert description of a failed handshake.
pub const ALERT_HANDSHAKE_FAILURE: u8 = 40;

/// What to do next while waiting for a ClientHello with a valid cookie.
pub enum HelloAction {
    /// Receive the next datagram.
    Receive,
    /// Check the cookie of this ClientHello. Where it is valid, commit to the
    /// peer; otherwise send the record that
    /// [`crate::dtls::handshake::hello_verify_record`] builds and go on.
    CheckCookie { message: HandshakeMessage, record_sequence: u64, hello: ClientHello },
}

/// [`HelloAction`] over views.
pub enum HelloActionView {
    Receive,
    CheckCookie { message: MessageView, record_sequence: u64, hello: HelloView },
}

impl View for HelloAction {
    type V = HelloActionView;

    open spec fn view(&self) -> HelloActionView {
        match self {
            HelloAction::Receive => HelloActionView::Receive,
            HelloAction::CheckCookie { message, record_sequence, hello } =>
                HelloActionView::CheckCookie {
                message: message@,
                record_sequence: *record_sequence,
                hello: hello@,
            },
        }
    }
}

/// The records of one datagram while no peer is chosen.
pub struct HelloWait {
    records: Vec<DtlsRecord>,
    record_sequence: u64,
    messages: Vec<HandshakeMessage>,
}

/// [`HelloWait`] over views.
#[verifier::ext_equal]
pub struct HelloWaitView {
    pub records: Seq<RecordView>,
    /// The number of the record whose messages are in hand.
    pub record_sequence: u64,
    pub messages: Seq<MessageView>,
}

impl View for HelloWait {
    type V = HelloWaitView;

    closed spec fn view(&self) -> HelloWaitView {
        HelloWaitView {
            records: views(self.records@),
            record_sequence: self.record_sequence,
            messages: views(self.messages@),
        }
    }
}

impl HelloWaitView {
    /// The first ClientHello of the records in hand, and the wait after it.
    /// Everything else is skipped.
    pub open spec fn next(self) -> (HelloWaitView, HelloActionView)
        decreases self.records.len(), self.messages.len(),
    {
        if self.messages.len() > 0 {
            let message = self.messages[0];
            let rest = HelloWaitView { messages: self.messages.drop_first(), ..self };
            match (message.message_type, client_hello_in(message.payload)) {
                (HandshakeType::ClientHello, Some(hello)) => (
                    rest,
                    HelloActionView::CheckCookie {
                        message,
                        record_sequence: self.record_sequence,
                        hello,
                    },
                ),
                _ => rest.next(),
            }
        } else if self.records.len() > 0 {
            let record = self.records[0];
            let rest = HelloWaitView { records: self.records.drop_first(), ..self };
            match messages_in(record.payload) {
                Some(messages) => if record.header.epoch == 0 && record.header.content_type
                    == ContentType::Handshake {
                    HelloWaitView {
                        messages,
                        record_sequence: record.header.sequence_number,
                        ..rest
                    }.next()
                } else {
                    rest.next()
                },
                None => rest.next(),
            }
        } else {
            (self, HelloActionView::Receive)
        }
    }
}

impl HelloWait {
    /// Takes the records of a datagram.
    pub fn new(records: Vec<DtlsRecord>) -> (wait: Self)
        ensures
            wait@ == (HelloWaitView {
                records: views(records@),
                record_sequence: 0,
                messages: Seq::empty(),
            }),
    {
        let messages: Vec<HandshakeMessage> = Vec::new();
        assert(views(messages@) =~= Seq::<MessageView>::empty());
        HelloWait { records, record_sequence: 0, messages }
    }

    /// What to do next.
    pub fn next(&mut self) -> (action: HelloAction)
        ensures
            (final(self)@, action@) == old(self)@.next(),
    {
        loop
            invariant
                self@.next() == old(self)@.next(),
            decreases self.records@.len(), self.messages@.len(),
        {
            let ghost before = self@;
            if self.messages.len() > 0 {
                let message = self.messages.remove(0);
                proof {
                    assert(before.messages[0] == message@);
                    assert(self@ =~= HelloWaitView {
                        messages: before.messages.drop_first(),
                        ..before
                    });
                }
                if message.message_type == HandshakeType::ClientHello {
                    if let Ok(hello) = ClientHello::decode(message.payload.as_slice()) {
                        return HelloAction::CheckCookie {
                            message,
                            record_sequence: self.record_sequence,
                            hello,
                        };
                    }
                }
            } else if self.records.len() > 0 {
                let record = self.records.remove(0);
                proof {
                    assert(before.records[0] == record@);
                    assert(self@ =~= HelloWaitView {
                        records: before.records.drop_first(),
                        ..before
                    });
                }
                if record.header.epoch == 0 && record.header.content_type
                    == ContentType::Handshake {
                    if let Ok(messages) = parse_unfragmented_handshake_messages(&record) {
                        let ghost held = self@;
                        self.messages = messages;
                        self.record_sequence = record.header.sequence_number;
                        assert(self@ =~= HelloWaitView {
                            messages: views(messages@),
                            record_sequence: record.header.sequence_number,
                            ..held
                        });
                    }
                }
            } else {
                assert(self@.records.len() == 0 && self@.messages.len() == 0);
                return HelloAction::Receive;
            }
        }
    }
}

/// What to do next while waiting for the client's last flight.
pub enum ClientFlightAction {
    /// Receive the next datagram.
    Receive,
    /// Let the key agreement take this ClientKeyExchange.
    KeyExchange(HandshakeMessage),
    /// Let the key agreement verify this Finished.
    Verify(HandshakeMessage),
    /// The handshake failed: send the fatal alert, then report the error.
    Reject(Error),
    /// The handshake failed.
    Fail(Error),
}

/// [`ClientFlightAction`] over views.
pub enum ClientFlightActionView {
    Receive,
    KeyExchange(MessageView),
    Verify(MessageView),
    Reject(ErrorView),
    Fail(ErrorView),
}

impl View for ClientFlightAction {
    type V = ClientFlightActionView;

    open spec fn view(&self) -> ClientFlightActionView {
        match self {
            ClientFlightAction::Receive => ClientFlightActionView::Receive,
            ClientFlightAction::KeyExchange(message) => ClientFlightActionView::KeyExchange(
                message@,
            ),
            ClientFlightAction::Verify(message) => ClientFlightActionView::Verify(message@),
            ClientFlightAction::Reject(error) => ClientFlightActionView::Reject(error@),
            ClientFlightAction::Fail(error) => ClientFlightActionView::Fail(error@),
        }
    }
}

/// The wait for the client's key exchange, ChangeCipherSpec and Finished.
pub struct ClientFlightWait {
    flight: Vec<DtlsRecord>,
    next_record: u64,
    schedule: RetransmitSchedule,
    budget: DuplicateRetransmitBudget,
    client_hello: HandshakeMessage,
    client_key_exchange: Option<HandshakeMessage>,
    key_material: Option<ThreadDtlsKeyMaterial>,
    saw_change_cipher_spec: bool,
    records: Vec<DtlsRecord>,
    messages: Vec<HandshakeMessage>,
}

/// [`ClientFlightWait`] over views.
#[verifier::ext_equal]
pub struct ClientFlightWaitView {
    /// The flight that was transmitted last.
    pub flight: Seq<RecordView>,
    /// The number of the next plaintext record.
    pub next_record: u64,
    /// The retransmission interval.
    pub timeout: u128,
    /// How many duplicates were answered.
    pub answered: u8,
    /// The ClientHello, which a duplicate repeats.
    pub client_hello: MessageView,
    /// The key exchange that was taken last.
    pub client_key_exchange: Option<MessageView>,
    /// The keys that came of it.
    pub key_material: Option<ThreadDtlsKeyMaterial>,
    /// Whether the client has switched to the new keys.
    pub saw_change_cipher_spec: bool,
    /// Records of the datagram in hand.
    pub records: Seq<RecordView>,
    /// Messages of the record in hand.
    pub messages: Seq<MessageView>,
}

impl View for ClientFlightWait {
    type V = ClientFlightWaitView;

    closed spec fn view(&self) -> ClientFlightWaitView {
        ClientFlightWaitView {
            flight: views(self.flight@),
            next_record: self.next_record,
            timeout: self.schedule@,
            answered: self.budget@,
            client_hello: self.client_hello@,
            client_key_exchange: match self.client_key_exchange {
                Some(message) => Some(message@),
                None => None,
            },
            key_material: self.key_material,
            saw_change_cipher_spec: self.saw_change_cipher_spec,
            records: views(self.records@),
            messages: views(self.messages@),
        }
    }
}

/// The error for a protected Finished without a key exchange before it.
pub open spec fn missing_keys() -> ErrorView {
    ErrorView::InvalidState("client key material is missing"@)
}

/// Whether a record of the datagram repeats the ClientHello.
pub open spec fn repeats_client_hello(record: RecordView, expected: MessageView) -> bool {
    &&& record.header.epoch == 0
    &&& record.header.content_type == ContentType::Handshake
    &&& messages_in(record.payload) matches Some(messages) && messages.contains(expected)
}

/// Whether the datagram repeats the ClientHello.
pub open spec fn has_client_hello(records: Seq<RecordView>, expected: MessageView) -> bool {
    exists|i: int| 0 <= i < records.len() && repeats_client_hello(#[trigger] records[i], expected)
}

/// Whether the datagram repeats the ClientHello.
pub fn contains_client_hello(records: &[DtlsRecord], expected: &HandshakeMessage) -> (found: bool)
    ensures
        found == has_client_hello(views(records@), expected@),
{
    let mut i: usize = 0;
    while i < records.len()
        invariant
            i <= records@.len(),
            forall|j: int|
                0 <= j < i ==> !repeats_client_hello(#[trigger] views(records@)[j], expected@),
        decreases records@.len() - i,
    {
        let record = &records[i];
        assert(views(records@)[i as int] == record@);
        if record.header.epoch == 0 && record.header.content_type == ContentType::Handshake {
            if let Ok(messages) = parse_unfragmented_handshake_messages(record) {
                if contains_message(messages.as_slice(), expected) {
                    return true;
                }
            }
        }
        i = i + 1;
    }
    false
}

/// The server's flight: one plaintext record for each message, numbered from
/// `next` on.
pub open spec fn server_flight_of(messages: Seq<MessageView>, next: u64) -> Seq<RecordView> {
    Seq::new(
        messages.len(),
        |i: int|
            RecordView::dtls12(
                ContentType::Handshake,
                0,
                wrapped(next + i),
                messages[i].encoding(),
            ),
    )
}

/// Why the server's flight cannot be built, if it cannot: the first message
/// or record that has outgrown its field.
pub open spec fn server_flight_error(messages: Seq<MessageView>, next: u64) -> Option<ErrorView>
    decreases messages.len(),
{
    if messages.len() == 0 {
        None
    } else {
        match server_flight_error(messages.drop_last(), next) {
            Some(error) => Some(error),
            None => if !messages.last().fits() {
                Some(oversized_handshake())
            } else if !server_flight_of(messages, next).last().fits() {
                Some(oversized_record())
            } else {
                None
            },
        }
    }
}

/// The numbers of the three messages that answer a ClientHello: its own and
/// the two behind it.
pub fn answer_sequences(client_hello: &HandshakeMessage) -> (sequences: [u16; 3])
    ensures
        forall|i: int|
            0 <= i < 3 ==> #[trigger] sequences@[i] == (client_hello@.message_seq + i) % 0x1_0000,
{
    let first: u16 = client_hello.message_seq;
    [first, first.wrapping_add(1), first.wrapping_add(2)]
}

/// How many records of the server's flight can be built.
pub open spec fn server_flight_reach(messages: Seq<MessageView>, next: u64) -> nat
    decreases messages.len(),
{
    if server_flight_error(messages, next) is None {
        messages.len()
    } else if messages.len() == 0 {
        0
    } else {
        server_flight_reach(messages.drop_last(), next)
    }
}

/// A flight that can be built can be encoded.
pub(crate) proof fn lemma_flight_fits(messages: Seq<MessageView>, next: u64)
    requires
        server_flight_error(messages, next) is None,
    ensures
        all_fit(server_flight_of(messages, next)),
    decreases messages.len(),
{
    let flight = server_flight_of(messages, next);
    if messages.len() > 0 {
        lemma_flight_fits(messages.drop_last(), next);
        let shorter = server_flight_of(messages.drop_last(), next);
        assert forall|i: int| 0 <= i < flight.len() implies (#[trigger] flight[i]).fits() by {
            if i < messages.len() - 1 {
                assert(shorter[i] == flight[i]);
            }
        }
    }
}

proof fn lemma_flight_error_stays(messages: Seq<MessageView>, next: u64, i: int)
    requires
        0 <= i <= messages.len(),
        server_flight_error(messages.take(i), next) is Some,
    ensures
        server_flight_error(messages, next) == server_flight_error(messages.take(i), next),
        server_flight_reach(messages, next) == server_flight_reach(messages.take(i), next),
    decreases messages.len() - i,
{
    if i < messages.len() {
        assert(messages.take(i + 1).drop_last() =~= messages.take(i));
        lemma_flight_error_stays(messages, next, i + 1);
    } else {
        assert(messages.take(i) =~= messages);
    }
}

/// The first message that cannot be built ends the flight.
proof fn lemma_flight_stops(messages: Seq<MessageView>, next: u64, i: int)
    requires
        0 <= i < messages.len(),
        server_flight_error(messages.take(i), next) is None,
        server_flight_error(messages.take(i + 1), next) is Some,
    ensures
        server_flight_error(messages, next) == server_flight_error(messages.take(i + 1), next),
        server_flight_reach(messages, next) == i,
{
    assert(messages.take(i + 1).drop_last() =~= messages.take(i));
    assert(server_flight_reach(messages.take(i), next) == i);
    lemma_flight_error_stays(messages, next, i + 1);
}

/// Builds the server's flight and advances the record counter.
pub(crate) fn build_server_flight(messages: &[HandshakeMessage], next_record: &mut u64) -> (result: Result<
    Vec<DtlsRecord>,
    Error,
>)
    ensures
        match result {
            Ok(flight) => server_flight_error(views(messages@), *old(next_record)) is None && views(
                flight@,
            ) == server_flight_of(views(messages@), *old(next_record)),
            Err(error) => server_flight_error(views(messages@), *old(next_record)) == Some(error@),
        },
        *final(next_record) == wrapped(
            *old(next_record) + server_flight_reach(views(messages@), *old(next_record)),
        ),
{
    let ghost all = views(messages@);
    let ghost first = *next_record;
    let mut flight: Vec<DtlsRecord> = Vec::new();
    let mut i: usize = 0;
    assert(all.take(0) =~= Seq::<MessageView>::empty());
    while i < messages.len()
        invariant
            i <= messages@.len(),
            all == views(messages@),
            first == *old(next_record),
            *next_record == wrapped(first + i),
            server_flight_error(all.take(i as int), first) is None,
            views(flight@) == server_flight_of(all.take(i as int), first),
        decreases messages@.len() - i,
    {
        let ghost more = all.take(i + 1);
        let ghost before = flight@;
        proof {
            assert(more.drop_last() =~= all.take(i as int));
            assert(more.last() == messages@[i as int]@);
        }
        match messages[i].encode() {
            Err(error) => {
                proof {
                    lemma_flight_stops(all, first, i as int);
                }
                return Err(error);
            },
            Ok(bytes) => {
                match DtlsRecord::new(ContentType::Handshake, 0, *next_record, bytes) {
                    Err(error) => {
                        proof {
                            lemma_flight_stops(all, first, i as int);
                        }
                        return Err(error);
                    },
                    Ok(record) => {
                        proof {
                            let shorter = server_flight_of(all.take(i as int), first);
                            assert forall|j: int| 0 <= j <= i implies views(before.push(record))[j]
                                == server_flight_of(more, first)[j] by {
                                if j < i {
                                    assert(views(before)[j] == shorter[j]);
                                    assert(more[j] == all.take(i as int)[j]);
                                }
                            }
                            assert(views(before).len() == i);
                            assert(views(before.push(record)) =~= server_flight_of(more, first));
                        }
                        flight.push(record);
                    },
                }
            },
        }
        let _ = take_record_sequence(next_record);
        i = i + 1;
    }
    assert(all.take(i as int) =~= all);
    Ok(flight)
}

impl ClientFlightWaitView {
    /// What the client's record holds under the keys that were agreed on.
    pub open spec fn open(self, record: RecordView) -> Option<Seq<u8>> {
        let keys = self.key_material->0.key_block;
        opened(record, write_key(keys, SessionRole::Client), write_iv(keys, SessionRole::Client))
    }

    /// The first action that the records in hand call for, and the wait after
    /// it.
    ///
    /// A Finished counts only after the ChangeCipherSpec; it has to be
    /// authentic under the agreed keys. A repeated key exchange and malformed
    /// records are skipped.
    pub open spec fn next(self) -> (ClientFlightWaitView, ClientFlightActionView)
        decreases self.records.len(), self.messages.len(),
    {
        if self.messages.len() > 0 {
            let message = self.messages[0];
            let rest = ClientFlightWaitView { messages: self.messages.drop_first(), ..self };
            if message.message_type == HandshakeType::ClientKeyExchange && self.client_key_exchange
                != Some(message) {
                (rest, ClientFlightActionView::KeyExchange(message))
            } else {
                rest.next()
            }
        } else if self.records.len() > 0 {
            let record = self.records[0];
            let rest = ClientFlightWaitView { records: self.records.drop_first(), ..self };
            match (record.header.epoch, record.header.content_type) {
                (0u16, ContentType::Handshake) => match messages_in(record.payload) {
                    None => rest.next(),
                    Some(messages) => (ClientFlightWaitView { messages, ..rest }).next(),
                },
                (0u16, ContentType::ChangeCipherSpec) => if record.payload == seq![1u8] {
                    (ClientFlightWaitView { saw_change_cipher_spec: true, ..rest }).next()
                } else {
                    (rest, ClientFlightActionView::Fail(invalid_change_cipher_spec()))
                },
                (1u16, ContentType::Handshake) => if !self.saw_change_cipher_spec {
                    rest.next()
                } else if self.key_material is None {
                    (rest, ClientFlightActionView::Fail(missing_keys()))
                } else {
                    match self.open(record) {
                        None => (rest, ClientFlightActionView::Reject(unauthentic_record())),
                        Some(plaintext) => match single_message(
                            plaintext,
                            HandshakeType::Finished,
                        ) {
                            None => (
                                rest,
                                ClientFlightActionView::Fail(not_one_message(plaintext)),
                            ),
                            Some(message) => (rest, ClientFlightActionView::Verify(message)),
                        },
                    }
                },
                (0u16, ContentType::Alert) => (
                    rest,
                    ClientFlightActionView::Fail(alert_error(record.header, record.payload)),
                ),
                _ => rest.next(),
            }
        } else {
            (self, ClientFlightActionView::Receive)
        }
    }
}

impl ClientFlightWait {
    /// Starts with the ClientHello that returned a valid cookie in a record
    /// with the given number, and the server's answer to it, whose records
    /// are numbered from there on.
    pub fn start(
        client_hello: HandshakeMessage,
        record_sequence: u64,
        answer: &[HandshakeMessage],
    ) -> (result: Result<ClientFlightWait, Error>)
        ensures
            match result {
                Ok(wait) => server_flight_error(views(answer@), record_sequence) is None && wait@
                    == (ClientFlightWaitView {
                    flight: server_flight_of(views(answer@), record_sequence),
                    next_record: wrapped(record_sequence + answer@.len()),
                    timeout: INITIAL_RETRANSMIT_TIMEOUT,
                    answered: 0,
                    client_hello: client_hello@,
                    client_key_exchange: None,
                    key_material: None,
                    saw_change_cipher_spec: false,
                    records: Seq::empty(),
                    messages: Seq::empty(),
                }),
                Err(error) => server_flight_error(views(answer@), record_sequence) == Some(error@),
            },
    {
        let mut next_record: u64 = record_sequence;
        match build_server_flight(answer, &mut next_record) {
            Err(error) => Err(error),
            Ok(flight) => {
                let records: Vec<DtlsRecord> = Vec::new();
                let messages: Vec<HandshakeMessage> = Vec::new();
                assert(views(records@) =~= Seq::<RecordView>::empty());
                assert(views(messages@) =~= Seq::<MessageView>::empty());
                Ok(
                    ClientFlightWait {
                        flight,
                        next_record,
                        schedule: RetransmitSchedule::new(),
                        budget: DuplicateRetransmitBudget::new(),
                        client_hello,
                        client_key_exchange: None,
                        key_material: None,
                        saw_change_cipher_spec: false,
                        records,
                        messages,
                    },
                )
            },
        }
    }

    /// The flight to transmit.
    pub fn flight(&self) -> (flight: &Vec<DtlsRecord>)
        ensures
            views(flight@) == self@.flight,
    {
        &self.flight
    }

    /// The number of the server's Finished: three behind the ClientHello that
    /// the handshake answers.
    pub fn finished_sequence(&self) -> (sequence: u16)
        ensures
            sequence == (self@.client_hello.message_seq + 3) % 0x1_0000,
    {
        self.client_hello.message_seq.wrapping_add(3)
    }

    /// The retransmission interval, in nanoseconds.
    pub fn timeout(&self) -> (timeout: u128)
        ensures
            timeout == self@.timeout,
    {
        self.schedule.timeout()
    }

    /// The timer ran out: the flight gets fresh record numbers for another
    /// transmission, and the interval doubles.
    pub fn on_timeout(&mut self)
        ensures
            final(self)@ == (ClientFlightWaitView {
                flight: renumbered(old(self)@.flight, old(self)@.next_record),
                next_record: sequence_after(old(self)@.flight, old(self)@.next_record),
                timeout: backed_off(old(self)@.timeout),
                ..old(self)@
            }),
    {
        renumber_epoch_zero_flight(&mut self.flight, &mut self.next_record);
        self.schedule.back_off();
    }

    /// Takes the records of a datagram; returns whether the flight is to be
    /// transmitted now.
    ///
    /// A repeated ClientHello is answered by transmitting again, at most four
    /// times in this wait, and the datagram is not looked at further.
    pub fn on_datagram(&mut self, records: Vec<DtlsRecord>) -> (resend: bool)
        ensures
            ({
                let duplicate = has_client_hello(views(records@), old(self)@.client_hello);
                &&& resend == (duplicate && old(self)@.answered < MAX_DUPLICATE_RETRANSMISSIONS)
                &&& final(self)@ == if resend {
                    ClientFlightWaitView {
                        flight: renumbered(old(self)@.flight, old(self)@.next_record),
                        next_record: sequence_after(old(self)@.flight, old(self)@.next_record),
                        answered: (old(self)@.answered + 1) as u8,
                        records: Seq::empty(),
                        messages: Seq::empty(),
                        ..old(self)@
                    }
                } else {
                    ClientFlightWaitView {
                        records: if duplicate {
                            Seq::empty()
                        } else {
                            views(records@)
                        },
                        messages: Seq::empty(),
                        ..old(self)@
                    }
                }
            }),
    {
        self.messages = Vec::new();
        assert(views(self.messages@) =~= Seq::<MessageView>::empty());
        if contains_client_hello(records.as_slice(), &self.client_hello) {
            self.records = Vec::new();
            assert(views(self.records@) =~= Seq::<RecordView>::empty());
            if self.budget.take() {
                renumber_epoch_zero_flight(&mut self.flight, &mut self.next_record);
                return true;
            }
            return false;
        }
        self.records = records;
        false
    }

    fn is_repeated_key_exchange(&self, message: &HandshakeMessage) -> (repeated: bool)
        ensures
            repeated == (self@.client_key_exchange == Some(message@)),
    {
        match &self.client_key_exchange {
            None => false,
            Some(taken) => taken.same(message),
        }
    }

    /// What a protected handshake record means once the client has switched
    /// to the new keys.
    fn judge_finished(&self, record: &DtlsRecord) -> (action: ClientFlightAction)
        ensures
            action@ == (if self@.key_material is None {
                ClientFlightActionView::Fail(missing_keys())
            } else {
                match self@.open(record@) {
                    None => ClientFlightActionView::Reject(unauthentic_record()),
                    Some(plaintext) => match single_message(plaintext, HandshakeType::Finished) {
                        None => ClientFlightActionView::Fail(not_one_message(plaintext)),
                        Some(message) => ClientFlightActionView::Verify(message),
                    },
                }
            }),
    {
        match &self.key_material {
            None => ClientFlightAction::Fail(
                Error::InvalidState("client key material is missing"),
            ),
            Some(keys) => {
                match open_aes_128_ccm_8_record(
                    record,
                    RecordProtectionKey::new(keys.key_block.client_write_key),
                    &keys.key_block.client_write_iv,
                ) {
                    Err(error) => ClientFlightAction::Reject(error),
                    Ok(plaintext) => {
                        let plain_record = DtlsRecord {
                            header: record.header,
                            payload: plaintext,
                        };
                        match parse_unfragmented_handshake_record(
                            &plain_record,
                            HandshakeType::Finished,
                        ) {
                            Err(error) => ClientFlightAction::Fail(error),
                            Ok(message) => ClientFlightAction::Verify(message),
                        }
                    },
                }
            },
        }
    }

    /// What to do next.
    pub fn next(&mut self) -> (action: ClientFlightAction)
        ensures
            (final(self)@, action@) == old(self)@.next(),
    {
        loop
            invariant
                self@.next() == old(self)@.next(),
            decreases self.records@.len(), self.messages@.len(),
        {
            let ghost before = self@;
            if self.messages.len() > 0 {
                let message = self.messages.remove(0);
                proof {
                    assert(before.messages[0] == message@);
                    assert(self@ =~= ClientFlightWaitView {
                        messages: before.messages.drop_first(),
                        ..before
                    });
                }
                if message.message_type == HandshakeType::ClientKeyExchange
                    && !self.is_repeated_key_exchange(&message) {
                    return ClientFlightAction::KeyExchange(message);
                }
            } else if self.records.len() > 0 {
                let record = self.records.remove(0);
                proof {
                    assert(before.records[0] == record@);
                    assert(self@ =~= ClientFlightWaitView {
                        records: before.records.drop_first(),
                        ..before
                    });
                }
                let ghost held = self@;
                match (record.header.epoch, record.header.content_type) {
                    (0, ContentType::Handshake) => {
                        if let Ok(messages) = parse_unfragmented_handshake_messages(&record) {
                            self.messages = messages;
                            assert(self@ =~= ClientFlightWaitView {
                                messages: views(messages@),
                                ..held
                            });
                        }
                    },
                    (0, ContentType::ChangeCipherSpec) => {
                        let one: [u8; 1] = [1];
                        assert(one@ =~= seq![1u8]);
                        if !same_bytes(record.payload.as_slice(), one.as_slice()) {
                            return ClientFlightAction::Fail(
                                Error::crypto("invalid ChangeCipherSpec payload"),
                            );
                        }
                        self.saw_change_cipher_spec = true;
                    },
                    (1, ContentType::Handshake) => {
                        if self.saw_change_cipher_spec {
                            return self.judge_finished(&record);
                        }
                    },
                    (0, ContentType::Alert) => {
                        return ClientFlightAction::Fail(
                            decode_alert_error(&record.header, record.payload.as_slice()),
                        );
                    },
                    _ => {},
                }
            } else {
                assert(self@.records.len() == 0 && self@.messages.len() == 0);
                return ClientFlightAction::Receive;
            }
        }
    }

    /// The key agreement took the key exchange and gave the keys.
    pub fn key_exchange_taken(&mut self, message: HandshakeMessage, keys: ThreadDtlsKeyMaterial)
        ensures
            final(self)@ == (ClientFlightWaitView {
                client_key_exchange: Some(message@),
                key_material: Some(keys),
                ..old(self)@
            }),
    {
        self.client_key_exchange = Some(message);
        self.key_material = Some(keys);
    }

    /// The alert that tells the client that the handshake failed.
    pub fn fatal_alert(&self) -> (result: Result<DtlsRecord, Error>)
        ensures
            ({
                let alert = RecordView::dtls12(
                    ContentType::Alert,
                    0,
                    self@.next_record,
                    seq![ALERT_LEVEL_FATAL, ALERT_HANDSHAKE_FAILURE],
                );
                match result {
                    Ok(record) => alert.fits() && record@ == alert,
                    Err(error) => !alert.fits() && error@ == oversized_record(),
                }
            }),
    {
        let payload: Vec<u8> = vec![ALERT_LEVEL_FATAL, ALERT_HANDSHAKE_FAILURE];
        assert(payload@ =~= seq![ALERT_LEVEL_FATAL, ALERT_HANDSHAKE_FAILURE]);
        DtlsRecord::new(ContentType::Alert, 0, self.next_record, payload)
    }

    /// The client's Finished verified and `server_finished` answers it: the
    /// association is established. Gives it with the flight to transmit.
    pub fn established(self, server_finished: HandshakeMessage) -> (result: Result<
        (ServerSession, Vec<DtlsRecord>),
        Error,
    >)
        ensures
            ({
                let session = SessionView::fresh(
                    self@.key_material->0,
                    SessionRole::Server,
                    0,
                );
                match result {
                    Ok((server, flight)) => self@.key_material is Some && server_finished@.fits()
                        && server_finished_error(
                        session,
                        server_finished@.encoding(),
                        self@.next_record,
                    ) is None && views(flight@) == server_finished_flight_of(
                        session,
                        server_finished@.encoding(),
                        self@.next_record,
                    ) && server@ == (ServerSessionView {
                        session: session.after_protect(),
                        server_finished: server_finished@.encoding(),
                        next_record: wrapped(self@.next_record + 1),
                    }),
                    Err(error) => if !server_finished@.fits() {
                        error@ == oversized_handshake()
                    } else if self@.key_material is None {
                        error@ == missing_keys()
                    } else {
                        server_finished_error(
                            session,
                            server_finished@.encoding(),
                            self@.next_record,
                        ) == Some(error@)
                    },
                }
            }),
    {
        match server_finished.encode() {
            Err(error) => Err(error),
            Ok(server_finished) => {
                match self.key_material {
                    None => Err(Error::InvalidState("client key material is missing")),
                    Some(keys) => {
                        let mut session = SessionState::during_handshake(keys, SessionRole::Server);
                        let mut next_record: u64 = self.next_record;
                        match build_server_finished_flight(
                            &mut session,
                            server_finished.as_slice(),
                            &mut next_record,
                        ) {
                            Err(error) => Err(error),
                            Ok(flight) => Ok(
                                (ServerSession { session, server_finished, next_record }, flight),
                            ),
                        }
                    },
                }
            },
        }
    }
}

/// A Finished is verified only after the ChangeCipherSpec and with keys that a
/// key exchange gave.
pub proof fn law_finished_needs_keys_and_change_cipher_spec(wait: ClientFlightWaitView)
    ensures
        wait.next().1 is Verify ==> wait.key_material is Some
            && wait.next().0.saw_change_cipher_spec,
        wait.next().0.key_material == wait.key_material,
        wait.next().0.client_key_exchange == wait.client_key_exchange,
        wait.next().0.client_hello == wait.client_hello,
    decreases wait.records.len(), wait.messages.len(),
{
    if wait.messages.len() > 0 {
        law_finished_needs_keys_and_change_cipher_spec(
            ClientFlightWaitView { messages: wait.messages.drop_first(), ..wait },
        );
    } else if wait.records.len() > 0 {
        let record = wait.records[0];
        let rest = ClientFlightWaitView { records: wait.records.drop_first(), ..wait };
        law_finished_needs_keys_and_change_cipher_spec(rest);
        law_finished_needs_keys_and_change_cipher_spec(
            ClientFlightWaitView { saw_change_cipher_spec: true, ..rest },
        );
        if messages_in(record.payload) is Some {
            law_finished_needs_keys_and_change_cipher_spec(
                ClientFlightWaitView { messages: messages_in(record.payload)->0, ..rest },
            );
        }
    }
}

/// The server's last flight: ChangeCipherSpec in the next plaintext record,
/// then the protected Finished.
pub open spec fn server_finished_flight_of(
    session: SessionView,
    server_finished: Seq<u8>,
    next_record: u64,
) -> Seq<RecordView> {
    seq![
        RecordView::dtls12(ContentType::ChangeCipherSpec, 0, next_record, seq![1u8]),
        session.next_record(ContentType::Handshake, server_finished),
    ]
}

/// Why the server's last flight cannot be built, if it cannot.
pub open spec fn server_finished_error(
    session: SessionView,
    server_finished: Seq<u8>,
    next_record: u64,
) -> Option<ErrorView> {
    if !server_finished_flight_of(session, server_finished, next_record)[0].fits()
        || !protectable(session.next_sequence, server_finished.len()) {
        Some(oversized_record())
    } else {
        None
    }
}

/// Builds the server's last flight, under fresh record numbers each time.
pub fn build_server_finished_flight(
    state: &mut SessionState,
    server_finished: &[u8],
    next_epoch_zero_record: &mut u64,
) -> (result: Result<Vec<DtlsRecord>, Error>)
    ensures
        match result {
            Ok(flight) => server_finished_error(
                old(state)@,
                server_finished@,
                *old(next_epoch_zero_record),
            ) is None && views(flight@) == server_finished_flight_of(
                old(state)@,
                server_finished@,
                *old(next_epoch_zero_record),
            ) && final(state)@ == old(state)@.after_protect(),
            Err(error) => server_finished_error(
                old(state)@,
                server_finished@,
                *old(next_epoch_zero_record),
            ) == Some(error@) && final(state)@ == old(state)@,
        },
        *final(next_epoch_zero_record) == wrapped(*old(next_epoch_zero_record) + 1),
{
    let sequence: u64 = take_record_sequence(next_epoch_zero_record);
    let one: Vec<u8> = vec![1u8];
    assert(one@ =~= seq![1u8]);
    match DtlsRecord::new(ContentType::ChangeCipherSpec, 0, sequence, one) {
        Err(error) => Err(error),
        Ok(change_cipher_spec) => {
            match state.protect_record(ContentType::Handshake, server_finished) {
                Err(error) => Err(error),
                Ok(finished) => {
                    let mut flight: Vec<DtlsRecord> = Vec::new();
                    flight.push(change_cipher_spec);
                    flight.push(finished);
                    assert(views(flight@) =~= server_finished_flight_of(
                        old(state)@,
                        server_finished@,
                        *old(next_epoch_zero_record),
                    ));
                    Ok(flight)
                },
            }
        },
    }
}

/// Whether a datagram asks for the server's last flight once more: the flight
/// is cached, the datagram repeats the client's, and the budget, of which one
/// response is then used, allows it.
pub fn take_server_finished_retry(
    server_finished: &[u8],
    records: &[DtlsRecord],
    budget: &mut DuplicateRetransmitBudget,
) -> (retry: bool)
    ensures
        retry == (server_finished@.len() > 0 && client_finished_flight(views(records@))
            && old(budget)@ < MAX_DUPLICATE_RETRANSMISSIONS),
        final(budget)@ == if retry {
            (old(budget)@ + 1) as u8
        } else {
            old(budget)@
        },
{
    server_finished.len() > 0 && is_client_finished_flight(records) && budget.take()
}

/// An established association on the server's side.
pub struct ServerSession {
    session: SessionState,
    server_finished: Vec<u8>,
    next_record: u64,
}

/// [`ServerSession`] over views.
#[verifier::ext_equal]
pub struct ServerSessionView {
    pub session: SessionView,
    /// The encoded Finished, until application data shows that the client has
    /// received it.
    pub server_finished: Seq<u8>,
    /// The number of the next plaintext record.
    pub next_record: u64,
}

impl View for ServerSession {
    type V = ServerSessionView;

    closed spec fn view(&self) -> ServerSessionView {
        ServerSessionView {
            session: self.session@,
            server_finished: self.server_finished@,
            next_record: self.next_record,
        }
    }
}

impl ServerSession {
    /// The association itself.
    pub fn session(&self) -> (session: &SessionState)
        ensures
            session@ == self@.session,
    {
        &self.session
    }

    /// Protects one piece of application data.
    pub fn protect_application_data(&mut self, plaintext: &[u8]) -> (result: Result<
        DtlsRecord,
        Error,
    >)
        ensures
            match result {
                Ok(record) => protectable(old(self)@.session.next_sequence, plaintext@.len())
                    && record@ == old(self)@.session.next_record(
                    ContentType::ApplicationData,
                    plaintext@,
                ) && final(self)@ == (ServerSessionView {
                    session: old(self)@.session.after_protect(),
                    ..old(self)@
                }),
                Err(error) => !protectable(old(self)@.session.next_sequence, plaintext@.len())
                    && error@ == oversized_record() && final(self)@ == old(self)@,
            },
    {
        self.session.protect_application_data(plaintext)
    }

    /// The flight to transmit once more where the datagram repeats the
    /// client's last flight; `None` where it does not.
    pub fn retry(
        &mut self,
        records: &[DtlsRecord],
        budget: &mut DuplicateRetransmitBudget,
    ) -> (result: Result<Option<Vec<DtlsRecord>>, Error>)
        ensures
            ({
                let wanted = old(self)@.server_finished.len() > 0 && client_finished_flight(
                    views(records@),
                ) && old(budget)@ < MAX_DUPLICATE_RETRANSMISSIONS;
                let error = server_finished_error(
                    old(self)@.session,
                    old(self)@.server_finished,
                    old(self)@.next_record,
                );
                &&& final(budget)@ == if wanted {
                    (old(budget)@ + 1) as u8
                } else {
                    old(budget)@
                }
                &&& match result {
                    Ok(None) => !wanted && final(self)@ == old(self)@,
                    Ok(Some(flight)) => wanted && error is None && views(flight@)
                        == server_finished_flight_of(
                        old(self)@.session,
                        old(self)@.server_finished,
                        old(self)@.next_record,
                    ) && final(self)@ == (ServerSessionView {
                        session: old(self)@.session.after_protect(),
                        next_record: wrapped(old(self)@.next_record + 1),
                        ..old(self)@
                    }),
                    Err(reported) => wanted && error == Some(reported@) && final(self)@ == (
                    ServerSessionView {
                        next_record: wrapped(old(self)@.next_record + 1),
                        ..old(self)@
                    }),
                }
            }),
    {
        if !take_server_finished_retry(self.server_finished.as_slice(), records, budget) {
            return Ok(None);
        }
        match build_server_finished_flight(
            &mut self.session,
            self.server_finished.as_slice(),
            &mut self.next_record,
        ) {
            Err(error) => Err(error),
            Ok(flight) => Ok(Some(flight)),
        }
    }

    /// Opens the records of a datagram, behind those still pending; the first
    /// application data ends the retransmission of the server's Finished.
    pub fn receive(&mut self, records: &[DtlsRecord]) -> (received: Option<Result<Vec<u8>, Error>>)
        ensures
            ({
                let queued = SessionView {
                    pending: old(self)@.session.pending + views(records@),
                    ..old(self)@.session
                };
                &&& match (received, queued.receive().1) {
                    (None, None) => true,
                    (Some(Ok(plaintext)), Some(Ok(expected))) => plaintext@ == expected,
                    (Some(Err(error)), Some(Err(expected))) => error@ == expected,
                    _ => false,
                }
                &&& final(self)@ == (ServerSessionView {
                    session: queued.receive().0,
                    server_finished: if queued.receive().1 matches Some(Ok(_)) {
                        Seq::empty()
                    } else {
                        old(self)@.server_finished
                    },
                    ..old(self)@
                })
            }),
    {
        let received = self.session.open_session_datagram(records);
        if let Some(Ok(_)) = &received {
            self.server_finished.clear();
        }
        received
    }
}

} // verus!
