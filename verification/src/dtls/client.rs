//! The client's side of the handshake: what to do with each record and when
//! to transmit again.
//!
//! Three waits follow each other: for the HelloVerifyRequest, for the server's
//! flight, and for the server's Finished. Each holds the flight that it
//! transmitted last and the records of the datagram in hand. The caller sends
//! the flight, arms a timer for the wait's interval, and hands in datagrams
//! and expiries; key agreement is the caller's.

use vstd::prelude::*;

use crate::bytes::{same_bytes, views};
use crate::dtls::error::{Error, ErrorView};
use crate::dtls::flight::{
    is_retransmitted_server_flight, plaintext_messages, renumber_epoch_zero_flight, renumbered,
    sequence_after, take_record_sequence, wrapped,
};
use crate::dtls::handshake::{
    any_of_type, contains_message, has_type, malformed_handshake, messages_in, oversized_handshake,
    parse_unfragmented_handshake_messages, parse_unfragmented_handshake_record, single_message,
    unexpected_message, HandshakeMessage, HandshakeType, MessageView,
};
use crate::dtls::protection::{protectable, unauthentic_record, ThreadDtlsKeyMaterial};
use crate::dtls::record::{oversized_record, ContentType, DtlsRecord, RecordView};
use crate::dtls::retransmit::{
    backed_off, DuplicateRetransmitBudget, RetransmitSchedule, INITIAL_RETRANSMIT_TIMEOUT,
    MAX_DUPLICATE_RETRANSMISSIONS,
};
use crate::dtls::session::{
    alert_error, decode_alert_error, SessionRole, SessionState, SessionView,
};

verus! {

/// What to do next while waiting for the HelloVerifyRequest.
pub enum HelloVerifyAction {
    /// Receive the next datagram.
    Receive,
    /// Take the cookie out of this record.
    TakeCookie(DtlsRecord),
    /// The handshake failed.
    Fail(Error),
}

/// [`HelloVerifyAction`] over views.
pub enum HelloVerifyActionView {
    Receive,
    TakeCookie(RecordView),
    Fail(ErrorView),
}

impl View for HelloVerifyAction {
    type V = HelloVerifyActionView;

    open spec fn view(&self) -> HelloVerifyActionView {
        match self {
            HelloVerifyAction::Receive => HelloVerifyActionView::Receive,
            HelloVerifyAction::TakeCookie(record) => HelloVerifyActionView::TakeCookie(record@),
            HelloVerifyAction::Fail(error) => HelloVerifyActionView::Fail(error@),
        }
    }
}

/// The wait for the HelloVerifyRequest.
pub struct HelloVerifyWait {
    flight: Vec<DtlsRecord>,
    next_record: u64,
    schedule: RetransmitSchedule,
    records: Vec<DtlsRecord>,
}

/// [`HelloVerifyWait`] over views.
#[verifier::ext_equal]
pub struct HelloVerifyWaitView {
    /// The flight that was transmitted last.
    pub flight: Seq<RecordView>,
    /// The number of the next plaintext record.
    pub next_record: u64,
    /// The retransmission interval.
    pub timeout: u128,
    /// Records of the datagram in hand.
    pub records: Seq<RecordView>,
}

impl View for HelloVerifyWait {
    type V = HelloVerifyWaitView;

    closed spec fn view(&self) -> HelloVerifyWaitView {
        HelloVerifyWaitView {
            flight: views(self.flight@),
            next_record: self.next_record,
            timeout: self.schedule@,
            records: views(self.records@),
        }
    }
}

/// What a record means to a client that waits for the HelloVerifyRequest:
/// `None` where it is skipped.
pub open spec fn hello_verify_verdict(record: RecordView) -> Option<HelloVerifyActionView> {
    match record.header.content_type {
        ContentType::Handshake => match messages_in(record.payload) {
            None => Some(HelloVerifyActionView::Fail(malformed_handshake())),
            Some(messages) => if has_type(messages, HandshakeType::HelloVerifyRequest) {
                Some(HelloVerifyActionView::TakeCookie(record))
            } else {
                None
            },
        },
        ContentType::Alert => Some(
            HelloVerifyActionView::Fail(alert_error(record.header, record.payload)),
        ),
        _ => None,
    }
}

impl HelloVerifyWaitView {
    /// The first action that the records in hand call for, and the wait after
    /// it.
    pub open spec fn next(self) -> (HelloVerifyWaitView, HelloVerifyActionView)
        decreases self.records.len(),
    {
        if self.records.len() == 0 {
            (self, HelloVerifyActionView::Receive)
        } else {
            let rest = HelloVerifyWaitView { records: self.records.drop_first(), ..self };
            match hello_verify_verdict(self.records[0]) {
                Some(action) => (rest, action),
                None => rest.next(),
            }
        }
    }
}

impl HelloVerifyWait {
    /// Starts with the first ClientHello, numbered 0.
    pub fn start(hello: DtlsRecord) -> (wait: Self)
        ensures
            wait@.flight == renumbered(seq![hello@], 0),
            wait@.next_record == sequence_after(seq![hello@], 0),
            wait@.timeout == INITIAL_RETRANSMIT_TIMEOUT,
            wait@.records == Seq::<RecordView>::empty(),
    {
        let mut flight: Vec<DtlsRecord> = Vec::new();
        flight.push(hello);
        assert(views(flight@) =~= seq![hello@]);
        let mut next_record: u64 = 0;
        renumber_epoch_zero_flight(&mut flight, &mut next_record);
        let records: Vec<DtlsRecord> = Vec::new();
        assert(views(records@) =~= Seq::<RecordView>::empty());
        HelloVerifyWait { flight, next_record, schedule: RetransmitSchedule::new(), records }
    }

    /// The flight to transmit.
    pub fn flight(&self) -> (flight: &Vec<DtlsRecord>)
        ensures
            views(flight@) == self@.flight,
    {
        &self.flight
    }

    /// The retransmission interval, in nanoseconds.
    pub fn timeout(&self) -> (timeout: u128)
        ensures
            timeout == self@.timeout,
    {
        self.schedule.timeout()
    }

    /// The timer ran out: the flight gets fresh record numbers for another
    /// transmission, and the interval doubles.
    pub fn on_timeout(&mut self)
        ensures
            final(self)@ == (HelloVerifyWaitView {
                flight: renumbered(old(self)@.flight, old(self)@.next_record),
                next_record: sequence_after(old(self)@.flight, old(self)@.next_record),
                timeout: backed_off(old(self)@.timeout),
                ..old(self)@
            }),
    {
        renumber_epoch_zero_flight(&mut self.flight, &mut self.next_record);
        self.schedule.back_off();
    }

    /// Takes the records of a datagram.
    pub fn on_datagram(&mut self, records: Vec<DtlsRecord>)
        ensures
            final(self)@ == (HelloVerifyWaitView { records: views(records@), ..old(self)@ }),
    {
        self.records = records;
    }

    /// What to do next.
    pub fn next(&mut self) -> (action: HelloVerifyAction)
        ensures
            (final(self)@, action@) == old(self)@.next(),
    {
        while self.records.len() > 0
            invariant
                self@.next() == old(self)@.next(),
            decreases self.records@.len(),
        {
            let ghost before = self@;
            let record = self.records.remove(0);
            proof {
                assert(before.records[0] == record@);
                assert(self@ =~= HelloVerifyWaitView {
                    records: before.records.drop_first(),
                    ..before
                });
            }
            match record.header.content_type {
                ContentType::Handshake => {
                    match parse_unfragmented_handshake_messages(&record) {
                        Err(error) => {
                            return HelloVerifyAction::Fail(error);
                        },
                        Ok(messages) => {
                            if any_of_type(messages.as_slice(), HandshakeType::HelloVerifyRequest) {
                                return HelloVerifyAction::TakeCookie(record);
                            }
                        },
                    }
                },
                ContentType::Alert => {
                    return HelloVerifyAction::Fail(
                        decode_alert_error(&record.header, record.payload.as_slice()),
                    );
                },
                _ => {},
            }
        }
        assert(self@.records.len() == 0);
        HelloVerifyAction::Receive
    }

    /// Goes on with the ClientHello that returns the cookie.
    pub fn second_hello(self, hello: DtlsRecord) -> (result: Result<ServerFlightWait, Error>)
        ensures
            ServerFlightWaitView::started(hello@, self@.next_record, result),
    {
        ServerFlightWait::start(hello, self.next_record)
    }
}

/// What to do next while waiting for the server's flight.
pub enum ServerFlightAction {
    /// Receive the next datagram.
    Receive,
    /// Let the key agreement take this ServerHello, after the ClientHello
    /// where one is given.
    ServerHello(Option<HandshakeMessage>, HandshakeMessage),
    /// Let the key agreement take this ServerKeyExchange.
    KeyExchange(HandshakeMessage),
    /// Let the key agreement take this ServerHelloDone: the flight is whole.
    HelloDone(HandshakeMessage),
    /// Take the cookie out of this record, where it holds one.
    HelloVerify(DtlsRecord),
    /// The handshake failed.
    Fail(Error),
}

/// [`ServerFlightAction`] over views.
pub enum ServerFlightActionView {
    Receive,
    ServerHello(Option<MessageView>, MessageView),
    KeyExchange(MessageView),
    HelloDone(MessageView),
    HelloVerify(RecordView),
    Fail(ErrorView),
}

impl View for ServerFlightAction {
    type V = ServerFlightActionView;

    open spec fn view(&self) -> ServerFlightActionView {
        match self {
            ServerFlightAction::Receive => ServerFlightActionView::Receive,
            ServerFlightAction::ServerHello(None, message) => ServerFlightActionView::ServerHello(
                None,
                message@,
            ),
            ServerFlightAction::ServerHello(Some(hello), message) =>
                ServerFlightActionView::ServerHello(Some(hello@), message@),
            ServerFlightAction::KeyExchange(message) => ServerFlightActionView::KeyExchange(
                message@,
            ),
            ServerFlightAction::HelloDone(message) => ServerFlightActionView::HelloDone(message@),
            ServerFlightAction::HelloVerify(record) => ServerFlightActionView::HelloVerify(record@),
            ServerFlightAction::Fail(error) => ServerFlightActionView::Fail(error@),
        }
    }
}

/// The wait for ServerHello, ServerKeyExchange and ServerHelloDone.
pub struct ServerFlightWait {
    flight: Vec<DtlsRecord>,
    next_record: u64,
    schedule: RetransmitSchedule,
    budget: DuplicateRetransmitBudget,
    client_hello: HandshakeMessage,
    recorded_client_hello: bool,
    server_flight: Vec<HandshakeMessage>,
    records: Vec<DtlsRecord>,
    record_in_hand: Option<DtlsRecord>,
    messages: Vec<HandshakeMessage>,
}

/// [`ServerFlightWait`] over views.
#[verifier::ext_equal]
pub struct ServerFlightWaitView {
    /// The flight that was transmitted last.
    pub flight: Seq<RecordView>,
    /// The number of the next plaintext record.
    pub next_record: u64,
    /// The retransmission interval.
    pub timeout: u128,
    /// How many duplicates were answered.
    pub answered: u8,
    /// The ClientHello of the flight.
    pub client_hello: MessageView,
    /// Whether the ClientHello went into the transcript.
    pub recorded: bool,
    /// The messages of the server's flight that were taken.
    pub server_flight: Seq<MessageView>,
    /// Records of the datagram in hand.
    pub records: Seq<RecordView>,
    /// The record whose messages are in hand.
    pub record_in_hand: Option<RecordView>,
    /// Messages of the record in hand.
    pub messages: Seq<MessageView>,
}

impl View for ServerFlightWait {
    type V = ServerFlightWaitView;

    closed spec fn view(&self) -> ServerFlightWaitView {
        ServerFlightWaitView {
            flight: views(self.flight@),
            next_record: self.next_record,
            timeout: self.schedule@,
            answered: self.budget@,
            client_hello: self.client_hello@,
            recorded: self.recorded_client_hello,
            server_flight: views(self.server_flight@),
            records: views(self.records@),
            record_in_hand: match self.record_in_hand {
                Some(record) => Some(record@),
                None => None,
            },
            messages: views(self.messages@),
        }
    }
}

/// The error for a handshake message that does not belong in the flight.
pub open spec fn out_of_place(message_type: HandshakeType) -> ErrorView {
    ErrorView::Crypto("unexpected DTLS handshake message "@ + message_type.spec_name())
}

impl ServerFlightWaitView {
    /// How the wait starts with the ClientHello that returns the cookie.
    pub open spec fn started(
        hello: RecordView,
        next_record: u64,
        result: Result<ServerFlightWait, Error>,
    ) -> bool {
        let flight = renumbered(seq![hello], next_record);
        match result {
            Ok(wait) => single_message(hello.payload, HandshakeType::ClientHello) == Some(
                wait@.client_hello,
            ) && wait@ == (ServerFlightWaitView {
                flight,
                next_record: sequence_after(seq![hello], next_record),
                timeout: INITIAL_RETRANSMIT_TIMEOUT,
                answered: 0,
                client_hello: wait@.client_hello,
                recorded: false,
                server_flight: Seq::empty(),
                records: Seq::empty(),
                record_in_hand: None,
                messages: Seq::empty(),
            }),
            Err(error) => single_message(hello.payload, HandshakeType::ClientHello) is None
                && error@ == not_one_message(hello.payload),
        }
    }

    /// What a message means: `None` where it is skipped.
    ///
    /// Messages that were taken before are skipped, and so are those that
    /// come before the ServerHello or, for the ServerHelloDone, before the
    /// ServerKeyExchange. Once the ServerHello has committed the peer to this
    /// cookie exchange, a reordered HelloVerifyRequest is stale.
    pub open spec fn verdict(self, message: MessageView) -> Option<ServerFlightActionView> {
        if self.server_flight.contains(message) {
            None
        } else {
            match message.message_type {
                HandshakeType::ServerHello => Some(
                    ServerFlightActionView::ServerHello(
                        if self.recorded {
                            None
                        } else {
                            Some(self.client_hello)
                        },
                        message,
                    ),
                ),
                HandshakeType::ServerKeyExchange => if self.recorded {
                    Some(ServerFlightActionView::KeyExchange(message))
                } else {
                    None
                },
                HandshakeType::ServerHelloDone => if self.recorded && has_type(
                    self.server_flight,
                    HandshakeType::ServerKeyExchange,
                ) {
                    Some(ServerFlightActionView::HelloDone(message))
                } else {
                    None
                },
                HandshakeType::HelloVerifyRequest => if !self.recorded && self.answered
                    < MAX_DUPLICATE_RETRANSMISSIONS && self.record_in_hand is Some {
                    Some(ServerFlightActionView::HelloVerify(self.record_in_hand->0))
                } else {
                    None
                },
                _ => Some(ServerFlightActionView::Fail(out_of_place(message.message_type))),
            }
        }
    }

    /// The first action that the records in hand call for, and the wait after
    /// it.
    pub open spec fn next(self) -> (ServerFlightWaitView, ServerFlightActionView)
        decreases self.records.len(), self.messages.len(),
    {
        if self.messages.len() > 0 {
            let rest = ServerFlightWaitView { messages: self.messages.drop_first(), ..self };
            match rest.verdict(self.messages[0]) {
                None => rest.next(),
                Some(ServerFlightActionView::HelloVerify(record)) => (
                    ServerFlightWaitView { answered: (rest.answered + 1) as u8, ..rest },
                    ServerFlightActionView::HelloVerify(record),
                ),
                Some(action) => (rest, action),
            }
        } else if self.records.len() > 0 {
            let record = self.records[0];
            let rest = ServerFlightWaitView {
                records: self.records.drop_first(),
                record_in_hand: Some(record),
                ..self
            };
            match record.header.content_type {
                ContentType::Handshake => match messages_in(record.payload) {
                    None => (rest, ServerFlightActionView::Fail(malformed_handshake())),
                    Some(messages) => (ServerFlightWaitView { messages, ..rest }).next(),
                },
                ContentType::Alert => (
                    rest,
                    ServerFlightActionView::Fail(alert_error(record.header, record.payload)),
                ),
                _ => rest.next(),
            }
        } else {
            (self, ServerFlightActionView::Receive)
        }
    }

    /// Nothing of the datagram in hand is left.
    pub open spec fn emptied(self) -> ServerFlightWaitView {
        ServerFlightWaitView { records: Seq::empty(), messages: Seq::empty(), ..self }
    }
}

/// The error for a payload that is not one message of the expected type.
pub open spec fn not_one_message(payload: Seq<u8>) -> ErrorView {
    if messages_in(payload) is None {
        malformed_handshake()
    } else {
        unexpected_message()
    }
}

impl ServerFlightWait {
    fn start(hello: DtlsRecord, next_record: u64) -> (result: Result<ServerFlightWait, Error>)
        ensures
            ServerFlightWaitView::started(hello@, next_record, result),
    {
        let ghost payload = hello@.payload;
        let mut next: u64 = next_record;
        let mut flight: Vec<DtlsRecord> = Vec::new();
        flight.push(hello);
        assert(views(flight@) =~= seq![hello@]);
        renumber_epoch_zero_flight(&mut flight, &mut next);
        proof {
            assert(views(flight@).len() == 1);
            assert(views(flight@)[0] == flight@[0]@);
            assert(flight@[0]@.payload == payload);
        }
        match parse_unfragmented_handshake_record(&flight[0], HandshakeType::ClientHello) {
            Err(error) => Err(error),
            Ok(client_hello) => {
                let records: Vec<DtlsRecord> = Vec::new();
                let messages: Vec<HandshakeMessage> = Vec::new();
                let server_flight: Vec<HandshakeMessage> = Vec::new();
                assert(views(records@) =~= Seq::<RecordView>::empty());
                assert(views(messages@) =~= Seq::<MessageView>::empty());
                assert(views(server_flight@) =~= Seq::<MessageView>::empty());
                Ok(
                    ServerFlightWait {
                        flight,
                        next_record: next,
                        schedule: RetransmitSchedule::new(),
                        budget: DuplicateRetransmitBudget::new(),
                        client_hello,
                        recorded_client_hello: false,
                        server_flight,
                        records,
                        record_in_hand: None,
                        messages,
                    },
                )
            },
        }
    }

    /// The flight to transmit.
    pub fn flight(&self) -> (flight: &Vec<DtlsRecord>)
        ensures
            views(flight@) == self@.flight,
    {
        &self.flight
    }

    /// The retransmission interval, in nanoseconds.
    pub fn timeout(&self) -> (timeout: u128)
        ensures
            timeout == self@.timeout,
    {
        self.schedule.timeout()
    }

    /// The timer ran out: the flight gets fresh record numbers for another
    /// transmission, and the interval doubles.
    pub fn on_timeout(&mut self)
        ensures
            final(self)@ == (ServerFlightWaitView {
                flight: renumbered(old(self)@.flight, old(self)@.next_record),
                next_record: sequence_after(old(self)@.flight, old(self)@.next_record),
                timeout: backed_off(old(self)@.timeout),
                ..old(self)@
            }),
    {
        renumber_epoch_zero_flight(&mut self.flight, &mut self.next_record);
        self.schedule.back_off();
    }

    /// Takes the records of a datagram.
    pub fn on_datagram(&mut self, records: Vec<DtlsRecord>)
        ensures
            final(self)@ == (ServerFlightWaitView {
                records: views(records@),
                messages: Seq::empty(),
                ..old(self)@
            }),
    {
        self.records = records;
        self.messages = Vec::new();
        assert(views(self.messages@) =~= Seq::<MessageView>::empty());
    }

    /// What one message means; `None` where it is skipped.
    fn judge(&mut self, message: HandshakeMessage) -> (action: Option<ServerFlightAction>)
        ensures
            match (action, old(self)@.verdict(message@)) {
                (None, None) => final(self)@ == old(self)@,
                (Some(action), Some(expected)) => action@ == expected && final(self)@ == (
                if expected is HelloVerify {
                    ServerFlightWaitView { answered: (old(self)@.answered + 1) as u8, ..old(self)@ }
                } else {
                    old(self)@
                }),
                _ => false,
            },
    {
        if contains_message(self.server_flight.as_slice(), &message) {
            return None;
        }
        match message.message_type {
            HandshakeType::ServerHello => {
                let hello = if self.recorded_client_hello {
                    None
                } else {
                    Some(self.client_hello.clone())
                };
                Some(ServerFlightAction::ServerHello(hello, message))
            },
            HandshakeType::ServerKeyExchange => {
                if self.recorded_client_hello {
                    Some(ServerFlightAction::KeyExchange(message))
                } else {
                    None
                }
            },
            HandshakeType::ServerHelloDone => {
                if self.recorded_client_hello && any_of_type(
                    self.server_flight.as_slice(),
                    HandshakeType::ServerKeyExchange,
                ) {
                    Some(ServerFlightAction::HelloDone(message))
                } else {
                    None
                }
            },
            HandshakeType::HelloVerifyRequest => {
                if self.recorded_client_hello {
                    return None;
                }
                match &self.record_in_hand {
                    None => None,
                    Some(record) => {
                        let record = record.clone();
                        if self.budget.take() {
                            Some(ServerFlightAction::HelloVerify(record))
                        } else {
                            None
                        }
                    },
                }
            },
            _ => {
                let text = String::from_str("unexpected DTLS handshake message ").concat(
                    message.message_type.name(),
                );
                Some(ServerFlightAction::Fail(Error::Crypto(text)))
            },
        }
    }

    /// What to do next.
    pub fn next(&mut self) -> (action: ServerFlightAction)
        ensures
            (final(self)@, action@) == old(self)@.next(),
    {
        loop
            invariant
                self@.next() == old(self)@.next(),
            decreases self.records@.len(), self.messages@.len(),
        {
            let ghost before = self@;
            if self.messages.len() > 0 {
                let message = self.messages.remove(0);
                proof {
                    assert(before.messages[0] == message@);
                    assert(self@ =~= ServerFlightWaitView {
                        messages: before.messages.drop_first(),
                        ..before
                    });
                }
                if let Some(action) = self.judge(message) {
                    return action;
                }
            } else if self.records.len() > 0 {
                let record = self.records.remove(0);
                let copy = record.clone();
                self.record_in_hand = Some(copy);
                proof {
                    assert(before.records[0] == record@);
                    assert(self@ =~= ServerFlightWaitView {
                        records: before.records.drop_first(),
                        record_in_hand: Some(record@),
                        ..before
                    });
                }
                match record.header.content_type {
                    ContentType::Handshake => {
                        match parse_unfragmented_handshake_messages(&record) {
                            Err(error) => {
                                return ServerFlightAction::Fail(error);
                            },
                            Ok(messages) => {
                                let ghost held = self@;
                                self.messages = messages;
                                assert(self@ =~= ServerFlightWaitView {
                                    messages: views(messages@),
                                    ..held
                                });
                            },
                        }
                    },
                    ContentType::Alert => {
                        return ServerFlightAction::Fail(
                            decode_alert_error(&record.header, record.payload.as_slice()),
                        );
                    },
                    _ => {},
                }
            } else {
                assert(self@.records.len() == 0 && self@.messages.len() == 0);
                return ServerFlightAction::Receive;
            }
        }
    }

    /// The key agreement took the message that the last action named.
    pub fn taken(&mut self, message: HandshakeMessage)
        ensures
            final(self)@ == (ServerFlightWaitView {
                recorded: old(self)@.recorded || message@.message_type
                    == HandshakeType::ServerHello,
                server_flight: old(self)@.server_flight.push(message@),
                ..old(self)@
            }),
    {
        if message.message_type == HandshakeType::ServerHello {
            self.recorded_client_hello = true;
        }
        proof {
            assert(views(self.server_flight@.push(message)) =~= views(self.server_flight@).push(
                message@,
            ));
        }
        self.server_flight.push(message);
    }

    /// A replaced cookie was taken and `hello` returns it: it becomes the
    /// flight, the interval starts over, and the rest of the datagram is
    /// dropped.
    pub fn cookie_replaced(&mut self, hello: DtlsRecord) -> (result: Result<(), Error>)
        ensures
            match (result, single_message(hello@.payload, HandshakeType::ClientHello)) {
                (Ok(_), Some(message)) => final(self)@ == (ServerFlightWaitView {
                    flight: renumbered(seq![hello@], old(self)@.next_record),
                    next_record: sequence_after(seq![hello@], old(self)@.next_record),
                    timeout: INITIAL_RETRANSMIT_TIMEOUT,
                    client_hello: message,
                    ..old(self)@
                }).emptied(),
                (Err(error), None) => error@ == not_one_message(hello@.payload) && final(self)@ == (
                ServerFlightWaitView {
                    flight: renumbered(seq![hello@], old(self)@.next_record),
                    next_record: sequence_after(seq![hello@], old(self)@.next_record),
                    ..old(self)@
                }).emptied(),
                _ => false,
            },
    {
        self.drop_datagram();
        let ghost before = self@;
        let ghost payload = hello@.payload;
        self.flight = Vec::new();
        self.flight.push(hello);
        assert(views(self.flight@) =~= seq![hello@]);
        renumber_epoch_zero_flight(&mut self.flight, &mut self.next_record);
        proof {
            assert(views(self.flight@).len() == 1);
            assert(views(self.flight@)[0] == self.flight@[0]@);
            assert(self.flight@[0]@.payload == payload);
        }
        match parse_unfragmented_handshake_record(&self.flight[0], HandshakeType::ClientHello) {
            Err(error) => Err(error),
            Ok(message) => {
                self.client_hello = message;
                self.schedule = RetransmitSchedule::new();
                Ok(())
            },
        }
    }

    /// The HelloVerifyRequest held no usable cookie: the flight goes out once
    /// more, and the rest of the datagram is dropped.
    pub fn cookie_refused(&mut self)
        ensures
            final(self)@ == (ServerFlightWaitView {
                flight: renumbered(old(self)@.flight, old(self)@.next_record),
                next_record: sequence_after(old(self)@.flight, old(self)@.next_record),
                ..old(self)@
            }).emptied(),
    {
        self.drop_datagram();
        renumber_epoch_zero_flight(&mut self.flight, &mut self.next_record);
    }

    fn drop_datagram(&mut self)
        ensures
            final(self)@ == old(self)@.emptied(),
    {
        self.records = Vec::new();
        self.messages = Vec::new();
        assert(views(self.records@) =~= Seq::<RecordView>::empty());
        assert(views(self.messages@) =~= Seq::<MessageView>::empty());
    }

    /// Goes on once the flight is whole: transmits key exchange and Finished,
    /// and waits for the server's Finished.
    pub fn finish(
        self,
        key_material: ThreadDtlsKeyMaterial,
        client_key_exchange: HandshakeMessage,
        client_finished: HandshakeMessage,
    ) -> (result: Result<ServerFinishedWait, Error>)
        ensures
            ({
                let session = SessionView::fresh(key_material, SessionRole::Client, 0);
                match result {
                    Ok(wait) => finished_flight_error(
                        client_key_exchange@,
                        client_finished@,
                        session,
                        self@.next_record,
                    ) is None && wait@ == (ServerFinishedWaitView {
                        flight: client_finished_flight_of(
                            client_key_exchange@,
                            client_finished@,
                            session,
                            self@.next_record,
                        ),
                        next_record: wrapped(self@.next_record + 2),
                        timeout: INITIAL_RETRANSMIT_TIMEOUT,
                        answered: 0,
                        client_key_exchange: client_key_exchange@,
                        client_finished: client_finished@,
                        server_flight: self@.server_flight,
                        session: session.after_protect(),
                        saw_change_cipher_spec: false,
                        records: Seq::empty(),
                    }),
                    Err(error) => finished_flight_error(
                        client_key_exchange@,
                        client_finished@,
                        session,
                        self@.next_record,
                    ) == Some(error@),
                }
            }),
    {
        let mut session = SessionState::during_handshake(key_material, SessionRole::Client);
        let mut next_record: u64 = self.next_record;
        match build_client_finished_flight(
            &client_key_exchange,
            &client_finished,
            &mut session,
            &mut next_record,
        ) {
            Err(error) => Err(error),
            Ok(flight) => {
                let records: Vec<DtlsRecord> = Vec::new();
                assert(views(records@) =~= Seq::<RecordView>::empty());
                Ok(
                    ServerFinishedWait {
                        flight,
                        next_record,
                        schedule: RetransmitSchedule::new(),
                        budget: DuplicateRetransmitBudget::new(),
                        client_key_exchange,
                        client_finished,
                        server_flight: self.server_flight,
                        session,
                        saw_change_cipher_spec: false,
                        records,
                    },
                )
            },
        }
    }
}

/// A stale HelloVerifyRequest cannot rewrite the transcript: once the
/// ClientHello is recorded, none is acted on.
pub proof fn law_recorded_hello_is_kept(wait: ServerFlightWaitView)
    requires
        wait.recorded,
    ensures
        wait.next().1 !is HelloVerify,
        wait.next().0.recorded,
        wait.next().0.client_hello == wait.client_hello,
        wait.next().0.answered == wait.answered,
    decreases wait.records.len(), wait.messages.len(),
{
    if wait.messages.len() > 0 {
        law_recorded_hello_is_kept(
            ServerFlightWaitView { messages: wait.messages.drop_first(), ..wait },
        );
    } else if wait.records.len() > 0 {
        let record = wait.records[0];
        let rest = ServerFlightWaitView {
            records: wait.records.drop_first(),
            record_in_hand: Some(record),
            ..wait
        };
        law_recorded_hello_is_kept(rest);
        if record.header.content_type == ContentType::Handshake && messages_in(
            record.payload,
        ) is Some {
            law_recorded_hello_is_kept(
                ServerFlightWaitView { messages: messages_in(record.payload)->0, ..rest },
            );
        }
    }
}

/// The server's flight is taken in order: no ServerKeyExchange before the
/// ServerHello, no ServerHelloDone before the ServerKeyExchange, and nothing
/// twice.
pub proof fn law_server_flight_is_taken_in_order(wait: ServerFlightWaitView)
    ensures
        wait.next().1 is KeyExchange ==> wait.recorded,
        wait.next().1 is HelloDone ==> wait.recorded && has_type(
            wait.server_flight,
            HandshakeType::ServerKeyExchange,
        ),
        match wait.next().1 {
            ServerFlightActionView::ServerHello(_, message) => !wait.server_flight.contains(
                message,
            ),
            ServerFlightActionView::KeyExchange(message) => !wait.server_flight.contains(message),
            ServerFlightActionView::HelloDone(message) => !wait.server_flight.contains(message),
            _ => true,
        },
        wait.next().0.server_flight == wait.server_flight,
    decreases wait.records.len(), wait.messages.len(),
{
    if wait.messages.len() > 0 {
        law_server_flight_is_taken_in_order(
            ServerFlightWaitView { messages: wait.messages.drop_first(), ..wait },
        );
    } else if wait.records.len() > 0 {
        let record = wait.records[0];
        let rest = ServerFlightWaitView {
            records: wait.records.drop_first(),
            record_in_hand: Some(record),
            ..wait
        };
        law_server_flight_is_taken_in_order(rest);
        if record.header.content_type == ContentType::Handshake && messages_in(
            record.payload,
        ) is Some {
            law_server_flight_is_taken_in_order(
                ServerFlightWaitView { messages: messages_in(record.payload)->0, ..rest },
            );
        }
    }
}

/// What to do next while waiting for the server's Finished.
pub enum ServerFinishedAction {
    /// Receive the next datagram.
    Receive,
    /// Let the key agreement verify this Finished: where it does, the session
    /// is established.
    Verify(HandshakeMessage),
    /// The handshake failed.
    Fail(Error),
}

/// [`ServerFinishedAction`] over views.
pub enum ServerFinishedActionView {
    Receive,
    Verify(MessageView),
    Fail(ErrorView),
}

impl View for ServerFinishedAction {
    type V = ServerFinishedActionView;

    open spec fn view(&self) -> ServerFinishedActionView {
        match self {
            ServerFinishedAction::Receive => ServerFinishedActionView::Receive,
            ServerFinishedAction::Verify(message) => ServerFinishedActionView::Verify(message@),
            ServerFinishedAction::Fail(error) => ServerFinishedActionView::Fail(error@),
        }
    }
}

/// The wait for the server's ChangeCipherSpec and Finished.
pub struct ServerFinishedWait {
    flight: Vec<DtlsRecord>,
    next_record: u64,
    schedule: RetransmitSchedule,
    budget: DuplicateRetransmitBudget,
    client_key_exchange: HandshakeMessage,
    client_finished: HandshakeMessage,
    server_flight: Vec<HandshakeMessage>,
    session: SessionState,
    saw_change_cipher_spec: bool,
    records: Vec<DtlsRecord>,
}

/// [`ServerFinishedWait`] over views.
#[verifier::ext_equal]
pub struct ServerFinishedWaitView {
    /// The flight that was transmitted last.
    pub flight: Seq<RecordView>,
    /// The number of the next plaintext record.
    pub next_record: u64,
    /// The retransmission interval.
    pub timeout: u128,
    /// How many duplicates were answered.
    pub answered: u8,
    pub client_key_exchange: MessageView,
    pub client_finished: MessageView,
    /// The server's flight, which a duplicate repeats.
    pub server_flight: Seq<MessageView>,
    pub session: SessionView,
    /// Whether the server has switched to the new keys.
    pub saw_change_cipher_spec: bool,
    /// Records of the datagram in hand.
    pub records: Seq<RecordView>,
}

impl View for ServerFinishedWait {
    type V = ServerFinishedWaitView;

    closed spec fn view(&self) -> ServerFinishedWaitView {
        ServerFinishedWaitView {
            flight: views(self.flight@),
            next_record: self.next_record,
            timeout: self.schedule@,
            answered: self.budget@,
            client_key_exchange: self.client_key_exchange@,
            client_finished: self.client_finished@,
            server_flight: views(self.server_flight@),
            session: self.session@,
            saw_change_cipher_spec: self.saw_change_cipher_spec,
            records: views(self.records@),
        }
    }
}

/// The error for a ChangeCipherSpec other than a single 1.
pub open spec fn invalid_change_cipher_spec() -> ErrorView {
    ErrorView::Crypto("invalid ChangeCipherSpec payload"@)
}

/// The first Finished among the messages.
pub open spec fn first_finished(messages: Seq<MessageView>) -> Option<MessageView>
    decreases messages.len(),
{
    if messages.len() == 0 {
        None
    } else if messages[0].message_type == HandshakeType::Finished {
        Some(messages[0])
    } else {
        first_finished(messages.drop_first())
    }
}

/// The client's last flight: key exchange and ChangeCipherSpec in the next two
/// plaintext records, then the protected Finished.
pub open spec fn client_finished_flight_of(
    client_key_exchange: MessageView,
    client_finished: MessageView,
    session: SessionView,
    next_record: u64,
) -> Seq<RecordView> {
    seq![
        RecordView::dtls12(
            ContentType::Handshake,
            0,
            next_record,
            client_key_exchange.encoding(),
        ),
        RecordView::dtls12(
            ContentType::ChangeCipherSpec,
            0,
            wrapped(next_record + 1),
            seq![1u8],
        ),
        session.next_record(ContentType::Handshake, client_finished.encoding()),
    ]
}

/// Why the client's last flight cannot be built, if it cannot: a message or a
/// record number has outgrown its field.
pub open spec fn finished_flight_error(
    client_key_exchange: MessageView,
    client_finished: MessageView,
    session: SessionView,
    next_record: u64,
) -> Option<ErrorView> {
    let flight = client_finished_flight_of(
        client_key_exchange,
        client_finished,
        session,
        next_record,
    );
    if !client_key_exchange.fits() {
        Some(oversized_handshake())
    } else if !flight[0].fits() || !flight[1].fits() {
        Some(oversized_record())
    } else if !client_finished.fits() {
        Some(oversized_handshake())
    } else if !protectable(session.next_sequence, client_finished.encoding().len()) {
        Some(oversized_record())
    } else {
        None
    }
}

/// The number of the next plaintext record after an attempt at the client's
/// last flight: numbers are used up as far as the attempt came.
pub open spec fn record_after_finished_flight(
    client_key_exchange: MessageView,
    next_record: u64,
) -> u64 {
    let record = RecordView::dtls12(
        ContentType::Handshake,
        0,
        next_record,
        client_key_exchange.encoding(),
    );
    if !client_key_exchange.fits() || !record.fits() {
        wrapped(next_record + 1)
    } else {
        wrapped(next_record + 2)
    }
}

/// Builds the client's last flight, under fresh record numbers each time.
pub fn build_client_finished_flight(
    client_key_exchange: &HandshakeMessage,
    client_finished: &HandshakeMessage,
    state: &mut SessionState,
    next_epoch_zero_record: &mut u64,
) -> (result: Result<Vec<DtlsRecord>, Error>)
    ensures
        match result {
            Ok(flight) => finished_flight_error(
                client_key_exchange@,
                client_finished@,
                old(state)@,
                *old(next_epoch_zero_record),
            ) is None && views(flight@) == client_finished_flight_of(
                client_key_exchange@,
                client_finished@,
                old(state)@,
                *old(next_epoch_zero_record),
            ) && final(state)@ == old(state)@.after_protect(),
            Err(error) => finished_flight_error(
                client_key_exchange@,
                client_finished@,
                old(state)@,
                *old(next_epoch_zero_record),
            ) == Some(error@) && final(state)@ == old(state)@,
        },
        *final(next_epoch_zero_record) == record_after_finished_flight(
            client_key_exchange@,
            *old(next_epoch_zero_record),
        ),
{
    let mut flight: Vec<DtlsRecord> = Vec::new();
    let key_exchange_sequence: u64 = take_record_sequence(next_epoch_zero_record);
    match client_key_exchange.encode() {
        Err(error) => {
            return Err(error);
        },
        Ok(bytes) => {
            match DtlsRecord::new(ContentType::Handshake, 0, key_exchange_sequence, bytes) {
                Err(error) => {
                    return Err(error);
                },
                Ok(record) => {
                    flight.push(record);
                },
            }
        },
    }
    let change_cipher_spec_sequence: u64 = take_record_sequence(next_epoch_zero_record);
    let one: Vec<u8> = vec![1u8];
    assert(one@ =~= seq![1u8]);
    match DtlsRecord::new(ContentType::ChangeCipherSpec, 0, change_cipher_spec_sequence, one) {
        Err(error) => {
            return Err(error);
        },
        Ok(record) => {
            flight.push(record);
        },
    }
    match client_finished.encode() {
        Err(error) => {
            return Err(error);
        },
        Ok(bytes) => {
            match state.protect_record(ContentType::Handshake, bytes.as_slice()) {
                Err(error) => {
                    return Err(error);
                },
                Ok(record) => {
                    flight.push(record);
                },
            }
        },
    }
    assert(views(flight@) =~= client_finished_flight_of(
        client_key_exchange@,
        client_finished@,
        old(state)@,
        *old(next_epoch_zero_record),
    ));
    Ok(flight)
}

impl ServerFinishedWaitView {
    /// The first action that the records in hand call for, and the wait after
    /// it.
    ///
    /// A Finished counts only after the ChangeCipherSpec, and then has to be
    /// authentic; other protected records that are not authentic are skipped.
    pub open spec fn next(self) -> (ServerFinishedWaitView, ServerFinishedActionView)
        decreases self.records.len(),
    {
        if self.records.len() == 0 {
            (self, ServerFinishedActionView::Receive)
        } else {
            let record = self.records[0];
            let rest = ServerFinishedWaitView { records: self.records.drop_first(), ..self };
            match (record.header.epoch, record.header.content_type) {
                (0u16, ContentType::ChangeCipherSpec) => if record.payload == seq![1u8] {
                    (ServerFinishedWaitView { saw_change_cipher_spec: true, ..rest }).next()
                } else {
                    (rest, ServerFinishedActionView::Fail(invalid_change_cipher_spec()))
                },
                (1u16, ContentType::Handshake) => if !self.saw_change_cipher_spec {
                    rest.next()
                } else {
                    match self.session.open(record) {
                        None => (rest, ServerFinishedActionView::Fail(unauthentic_record())),
                        Some(plaintext) => match messages_in(plaintext) {
                            None => (rest, ServerFinishedActionView::Fail(malformed_handshake())),
                            Some(messages) => match first_finished(messages) {
                                Some(message) => (rest, ServerFinishedActionView::Verify(message)),
                                None => rest.next(),
                            },
                        },
                    }
                },
                (0u16, ContentType::Alert) => (
                    rest,
                    ServerFinishedActionView::Fail(alert_error(record.header, record.payload)),
                ),
                (1u16, ContentType::Alert) => match self.session.open(record) {
                    None => rest.next(),
                    Some(plaintext) => (
                        rest,
                        ServerFinishedActionView::Fail(alert_error(record.header, plaintext)),
                    ),
                },
                _ => rest.next(),
            }
        }
    }

    /// Why the flight cannot be built again, if it cannot.
    pub open spec fn rebuild_error(self) -> Option<ErrorView> {
        finished_flight_error(
            self.client_key_exchange,
            self.client_finished,
            self.session,
            self.next_record,
        )
    }

    /// The wait after an attempt to build the flight again that failed.
    pub open spec fn not_rebuilt(self) -> ServerFinishedWaitView {
        ServerFinishedWaitView {
            next_record: record_after_finished_flight(self.client_key_exchange, self.next_record),
            ..self
        }
    }

    /// The wait with its flight built again, in new records.
    pub open spec fn rebuilt(self) -> ServerFinishedWaitView {
        ServerFinishedWaitView {
            flight: client_finished_flight_of(
                self.client_key_exchange,
                self.client_finished,
                self.session,
                self.next_record,
            ),
            next_record: wrapped(self.next_record + 2),
            session: self.session.after_protect(),
            ..self
        }
    }

    /// Whether the records repeat the server's flight.
    pub open spec fn is_duplicate(self, records: Seq<RecordView>) -> bool {
        plaintext_messages(records) == Some(self.server_flight)
    }
}

/// Takes the first Finished out of `messages`.
fn take_finished(messages: Vec<HandshakeMessage>) -> (finished: Option<HandshakeMessage>)
    ensures
        match (finished, first_finished(views(messages@))) {
            (Some(message), Some(expected)) => message@ == expected,
            (None, None) => true,
            _ => false,
        },
{
    let mut queue = messages;
    while queue.len() > 0
        invariant
            first_finished(views(queue@)) == first_finished(views(messages@)),
        decreases queue@.len(),
    {
        let ghost before = views(queue@);
        let message = queue.remove(0);
        proof {
            assert(before[0] == message@);
            assert(views(queue@) =~= before.drop_first());
        }
        if message.message_type == HandshakeType::Finished {
            return Some(message);
        }
    }
    assert(views(queue@).len() == 0);
    None
}

impl ServerFinishedWait {
    /// The flight to transmit.
    pub fn flight(&self) -> (flight: &Vec<DtlsRecord>)
        ensures
            views(flight@) == self@.flight,
    {
        &self.flight
    }

    /// The retransmission interval, in nanoseconds.
    pub fn timeout(&self) -> (timeout: u128)
        ensures
            timeout == self@.timeout,
    {
        self.schedule.timeout()
    }

    fn rebuild(&mut self) -> (result: Result<(), Error>)
        ensures
            match result {
                Ok(_) => old(self)@.rebuild_error() is None && final(self)@
                    == old(self)@.rebuilt(),
                Err(error) => old(self)@.rebuild_error() == Some(error@) && final(self)@
                    == old(self)@.not_rebuilt(),
            },
    {
        match build_client_finished_flight(
            &self.client_key_exchange,
            &self.client_finished,
            &mut self.session,
            &mut self.next_record,
        ) {
            Err(error) => Err(error),
            Ok(flight) => {
                self.flight = flight;
                Ok(())
            },
        }
    }

    /// The timer ran out: the flight is built again for another transmission,
    /// and the interval doubles.
    pub fn on_timeout(&mut self) -> (result: Result<(), Error>)
        ensures
            match result {
                Ok(_) => old(self)@.rebuild_error() is None && final(self)@ == (
                ServerFinishedWaitView {
                    timeout: backed_off(old(self)@.timeout),
                    ..old(self)@.rebuilt()
                }),
                Err(error) => old(self)@.rebuild_error() == Some(error@) && final(self)@
                    == old(self)@.not_rebuilt(),
            },
    {
        match self.rebuild() {
            Err(error) => Err(error),
            Ok(_) => {
                self.schedule.back_off();
                Ok(())
            },
        }
    }

    /// Takes the records of a datagram; returns whether the flight is to be
    /// transmitted now.
    ///
    /// A repetition of the server's flight is answered by transmitting again,
    /// at most four times in this wait, and is not looked at further.
    pub fn on_datagram(&mut self, records: Vec<DtlsRecord>) -> (result: Result<bool, Error>)
        ensures
            ({
                let duplicate = old(self)@.is_duplicate(views(records@));
                let spent = ServerFinishedWaitView {
                    answered: (old(self)@.answered + 1) as u8,
                    records: Seq::empty(),
                    ..old(self)@
                };
                let answer = duplicate && old(self)@.answered < MAX_DUPLICATE_RETRANSMISSIONS;
                match result {
                    Ok(true) => answer && spent.rebuild_error() is None && final(self)@
                        == spent.rebuilt(),
                    Ok(false) => !answer && final(self)@ == (ServerFinishedWaitView {
                        records: if duplicate {
                            Seq::empty()
                        } else {
                            views(records@)
                        },
                        ..old(self)@
                    }),
                    Err(error) => answer && spent.rebuild_error() == Some(error@) && final(self)@
                        == spent.not_rebuilt(),
                }
            }),
    {
        if is_retransmitted_server_flight(records.as_slice(), self.server_flight.as_slice()) {
            self.records = Vec::new();
            assert(views(self.records@) =~= Seq::<RecordView>::empty());
            if self.budget.take() {
                return match self.rebuild() {
                    Err(error) => Err(error),
                    Ok(_) => Ok(true),
                };
            }
            return Ok(false);
        }
        self.records = records;
        Ok(false)
    }

    /// What to do next.
    pub fn next(&mut self) -> (action: ServerFinishedAction)
        ensures
            (final(self)@, action@) == old(self)@.next(),
    {
        while self.records.len() > 0
            invariant
                self@.next() == old(self)@.next(),
            decreases self.records@.len(),
        {
            let ghost before = self@;
            let record = self.records.remove(0);
            proof {
                assert(before.records[0] == record@);
                assert(self@ =~= ServerFinishedWaitView {
                    records: before.records.drop_first(),
                    ..before
                });
            }
            match (record.header.epoch, record.header.content_type) {
                (0, ContentType::ChangeCipherSpec) => {
                    let one: [u8; 1] = [1];
                    assert(one@ =~= seq![1u8]);
                    if !same_bytes(record.payload.as_slice(), one.as_slice()) {
                        return ServerFinishedAction::Fail(
                            Error::crypto("invalid ChangeCipherSpec payload"),
                        );
                    }
                    self.saw_change_cipher_spec = true;
                },
                (1, ContentType::Handshake) => {
                    if self.saw_change_cipher_spec {
                        match self.session.open_unmarked(&record) {
                            Err(error) => {
                                return ServerFinishedAction::Fail(error);
                            },
                            Ok(plaintext) => {
                                let plain_record = DtlsRecord {
                                    header: record.header,
                                    payload: plaintext,
                                };
                                match parse_unfragmented_handshake_messages(&plain_record) {
                                    Err(error) => {
                                        return ServerFinishedAction::Fail(error);
                                    },
                                    Ok(messages) => {
                                        if let Some(message) = take_finished(messages) {
                                            return ServerFinishedAction::Verify(message);
                                        }
                                    },
                                }
                            },
                        }
                    }
                },
                (0, ContentType::Alert) => {
                    return ServerFinishedAction::Fail(
                        decode_alert_error(&record.header, record.payload.as_slice()),
                    );
                },
                (1, ContentType::Alert) => {
                    if let Ok(plaintext) = self.session.open_unmarked(&record) {
                        return ServerFinishedAction::Fail(
                            decode_alert_error(&record.header, plaintext.as_slice()),
                        );
                    }
                },
                _ => {},
            }
        }
        assert(self@.records.len() == 0);
        ServerFinishedAction::Receive
    }

    /// The server's Finished verified: the association is established.
    pub fn established(self) -> (session: SessionState)
        ensures
            session@ == self@.session,
    {
        self.session
    }
}

/// A Finished is looked at only once the server has switched to the new keys,
/// and then only out of an authentic record.
pub proof fn law_finished_needs_change_cipher_spec(wait: ServerFinishedWaitView)
    ensures
        wait.next().1 is Verify ==> wait.next().0.saw_change_cipher_spec,
        wait.next().0.session == wait.session,
        wait.next().0.answered == wait.answered,
        wait.next().1 matches ServerFinishedActionView::Verify(message) ==> exists|i: int|
            0 <= i < wait.records.len() && (wait.session.open(#[trigger] wait.records[i]) matches Some(
                plaintext,
            ) && (messages_in(plaintext) matches Some(messages) && first_finished(messages) == Some(
                message,
            ))),
    decreases wait.records.len(),
{
    if wait.records.len() > 0 {
        let record = wait.records[0];
        let rest = ServerFinishedWaitView { records: wait.records.drop_first(), ..wait };
        let switched = ServerFinishedWaitView { saw_change_cipher_spec: true, ..rest };
        law_finished_needs_change_cipher_spec(rest);
        law_finished_needs_change_cipher_spec(switched);
        assert forall|i: int| 0 <= i < rest.records.len() implies #[trigger] rest.records[i]
            == wait.records[i + 1] by {}
        if let ServerFinishedActionView::Verify(message) = wait.next().1 {
            if wait.next() == rest.next() || wait.next() == switched.next() {
                let i = choose|i: int|
                    0 <= i < rest.records.len() && (wait.session.open(
                        #[trigger] rest.records[i],
                    ) matches Some(plaintext) && (messages_in(plaintext) matches Some(messages)
                        && first_finished(messages) == Some(message)));
                assert(rest.records[i] == wait.records[i + 1]);
            }
        }
    }
}

} // verus!
