//! Handshake messages (RFC 6347 section 4.2) that fit in one record.

use vstd::prelude::*;

use crate::bytes::{
    be_bytes, be_value, copy_range, get_be, high_low, law_the_most_significant_byte_is_first,
    put_all, put_be, same_bytes, views,
};
use crate::dtls::error::{Error, ErrorView};
use crate::dtls::record::{ContentType, DtlsRecord, RecordView};

verus! {

/// The largest number in a 24-bit field.
pub const MAX_U24: u32 = 0xff_ffff;

/// Types of handshake messages.
#[derive(Debug, Clone, Copy, PartialEq, Eq, Structural)]
pub enum HandshakeType {
    HelloRequest,
    ClientHello,
    ServerHello,
    HelloVerifyRequest,
    Certificate,
    ServerKeyExchange,
    CertificateRequest,
    ServerHelloDone,
    CertificateVerify,
    ClientKeyExchange,
    Finished,
}

impl HandshakeType {
    /// The number of the type on the wire.
    pub open spec fn spec_code(self) -> u8 {
        match self {
            HandshakeType::HelloRequest => 0,
            HandshakeType::ClientHello => 1,
            HandshakeType::ServerHello => 2,
            HandshakeType::HelloVerifyRequest => 3,
            HandshakeType::Certificate => 11,
            HandshakeType::ServerKeyExchange => 12,
            HandshakeType::CertificateRequest => 13,
            HandshakeType::ServerHelloDone => 14,
            HandshakeType::CertificateVerify => 15,
            HandshakeType::ClientKeyExchange => 16,
            HandshakeType::Finished => 20,
        }
    }

    /// The type with the given number.
    pub open spec fn spec_from_code(code: u8) -> Option<HandshakeType> {
        match code {
            0 => Some(HandshakeType::HelloRequest),
            1 => Some(HandshakeType::ClientHello),
            2 => Some(HandshakeType::ServerHello),
            3 => Some(HandshakeType::HelloVerifyRequest),
            11 => Some(HandshakeType::Certificate),
            12 => Some(HandshakeType::ServerKeyExchange),
            13 => Some(HandshakeType::CertificateRequest),
            14 => Some(HandshakeType::ServerHelloDone),
            15 => Some(HandshakeType::CertificateVerify),
            16 => Some(HandshakeType::ClientKeyExchange),
            20 => Some(HandshakeType::Finished),
            _ => None,
        }
    }

    /// The name of the type.
    pub open spec fn spec_name(self) -> Seq<char> {
        match self {
            HandshakeType::HelloRequest => "HelloRequest"@,
            HandshakeType::ClientHello => "ClientHello"@,
            HandshakeType::ServerHello => "ServerHello"@,
            HandshakeType::HelloVerifyRequest => "HelloVerifyRequest"@,
            HandshakeType::Certificate => "Certificate"@,
            HandshakeType::ServerKeyExchange => "ServerKeyExchange"@,
            HandshakeType::CertificateRequest => "CertificateRequest"@,
            HandshakeType::ServerHelloDone => "ServerHelloDone"@,
            HandshakeType::CertificateVerify => "CertificateVerify"@,
            HandshakeType::ClientKeyExchange => "ClientKeyExchange"@,
            HandshakeType::Finished => "Finished"@,
        }
    }

    /// The number of the type on the wire.
    pub fn code(self) -> (code: u8)
        ensures
            code == self.spec_code(),
    {
        match self {
            HandshakeType::HelloRequest => 0,
            HandshakeType::ClientHello => 1,
            HandshakeType::ServerHello => 2,
            HandshakeType::HelloVerifyRequest => 3,
            HandshakeType::Certificate => 11,
            HandshakeType::ServerKeyExchange => 12,
            HandshakeType::CertificateRequest => 13,
            HandshakeType::ServerHelloDone => 14,
            HandshakeType::CertificateVerify => 15,
            HandshakeType::ClientKeyExchange => 16,
            HandshakeType::Finished => 20,
        }
    }

    /// The type with the given number.
    pub fn from_code(code: u8) -> (message_type: Option<HandshakeType>)
        ensures
            message_type == HandshakeType::spec_from_code(code),
    {
        match code {
            0 => Some(HandshakeType::HelloRequest),
            1 => Some(HandshakeType::ClientHello),
            2 => Some(HandshakeType::ServerHello),
            3 => Some(HandshakeType::HelloVerifyRequest),
            11 => Some(HandshakeType::Certificate),
            12 => Some(HandshakeType::ServerKeyExchange),
            13 => Some(HandshakeType::CertificateRequest),
            14 => Some(HandshakeType::ServerHelloDone),
            15 => Some(HandshakeType::CertificateVerify),
            16 => Some(HandshakeType::ClientKeyExchange),
            20 => Some(HandshakeType::Finished),
            _ => None,
        }
    }

    /// The name of the type.
    pub fn name(self) -> (name: &'static str)
        ensures
            name@ == self.spec_name(),
    {
        match self {
            HandshakeType::HelloRequest => "HelloRequest",
            HandshakeType::ClientHello => "ClientHello",
            HandshakeType::ServerHello => "ServerHello",
            HandshakeType::HelloVerifyRequest => "HelloVerifyRequest",
            HandshakeType::Certificate => "Certificate",
            HandshakeType::ServerKeyExchange => "ServerKeyExchange",
            HandshakeType::CertificateRequest => "CertificateRequest",
            HandshakeType::ServerHelloDone => "ServerHelloDone",
            HandshakeType::CertificateVerify => "CertificateVerify",
            HandshakeType::ClientKeyExchange => "ClientKeyExchange",
            HandshakeType::Finished => "Finished",
        }
    }
}

/// The fields in front of a handshake message or fragment.
#[derive(Debug, Clone, Copy, PartialEq, Eq, Structural)]
pub struct HandshakeHeader {
    pub message_type: HandshakeType,
    pub length: u32,
    pub message_seq: u16,
    pub fragment_offset: u32,
    pub fragment_length: u32,
}

impl HandshakeHeader {
    /// Length of an encoded header.
    pub const LEN: usize = 12;

    /// Whether the lengths fit their fields and the fragment lies inside the
    /// message.
    pub open spec fn valid(self) -> bool {
        &&& self.length <= MAX_U24
        &&& self.fragment_offset <= MAX_U24
        &&& self.fragment_length <= MAX_U24
        &&& self.fragment_offset + self.fragment_length <= self.length
    }

    /// Fails where a length does not fit its field or the fragment does not
    /// lie inside the message.
    pub fn validate(&self) -> (result: Result<(), Error>)
        ensures
            match result {
                Ok(_) => self.valid(),
                Err(error) => !self.valid() && error@ == malformed_handshake(),
            },
    {
        if self.length > MAX_U24 || self.fragment_offset > MAX_U24 || self.fragment_length
            > MAX_U24 || self.fragment_offset + self.fragment_length > self.length {
            return Err(Error::crypto("malformed DTLS handshake message"));
        }
        Ok(())
    }
}

/// One whole handshake message.
#[derive(Debug, PartialEq, Eq)]
pub struct HandshakeMessage {
    pub message_type: HandshakeType,
    pub message_seq: u16,
    pub payload: Vec<u8>,
}

/// [`HandshakeMessage`] with its payload as a sequence.
#[verifier::ext_equal]
pub struct MessageView {
    pub message_type: HandshakeType,
    pub message_seq: u16,
    pub payload: Seq<u8>,
}

impl View for HandshakeMessage {
    type V = MessageView;

    open spec fn view(&self) -> MessageView {
        MessageView {
            message_type: self.message_type,
            message_seq: self.message_seq,
            payload: self.payload@,
        }
    }
}

impl MessageView {
    /// Whether the payload's length fits its field.
    pub open spec fn fits(self) -> bool {
        self.payload.len() <= MAX_U24
    }

    /// The message on the wire, in one fragment.
    pub open spec fn encoding(self) -> Seq<u8> {
        seq![self.message_type.spec_code()] + be_bytes(self.payload.len(), 3) + be_bytes(
            self.message_seq as nat,
            2,
        ) + be_bytes(0, 3) + be_bytes(self.payload.len(), 3) + self.payload
    }
}

/// The error for bytes that are not whole handshake messages.
pub open spec fn malformed_handshake() -> ErrorView {
    ErrorView::Crypto("malformed DTLS handshake message"@)
}

/// The error for a handshake message whose payload is too long.
pub open spec fn oversized_handshake() -> ErrorView {
    ErrorView::Crypto("DTLS handshake message is too large"@)
}

/// The whole message that `b` starts with, and its length on the wire.
pub open spec fn message_at(b: Seq<u8>) -> Option<(MessageView, nat)> {
    if b.len() < 12 {
        None
    } else {
        let length = be_value(b.subrange(1, 4));
        match HandshakeType::spec_from_code(b[0]) {
            None => None,
            Some(message_type) => if be_value(b.subrange(6, 9)) != 0 || be_value(b.subrange(9, 12))
                != length || b.len() < 12 + length {
                None
            } else {
                Some(
                    (
                        MessageView {
                            message_type,
                            message_seq: be_value(b.subrange(4, 6)) as u16,
                            payload: b.subrange(12, 12 + length as int),
                        },
                        12 + length,
                    ),
                )
            },
        }
    }
}

/// The messages that fill `b`, or `None` where `b` is no sequence of whole
/// messages.
pub open spec fn messages_in(b: Seq<u8>) -> Option<Seq<MessageView>>
    decreases b.len(),
{
    if b.len() == 0 {
        Some(Seq::empty())
    } else {
        match message_at(b) {
            None => None,
            Some((message, length)) => match messages_in(b.skip(length as int)) {
                None => None,
                Some(rest) => Some(seq![message] + rest),
            },
        }
    }
}

/// Whether one of the messages has the type.
pub open spec fn has_type(messages: Seq<MessageView>, message_type: HandshakeType) -> bool {
    exists|i: int|
        0 <= i < messages.len() && (#[trigger] messages[i]).message_type == message_type
}

/// The header of an encoded message takes 12 bytes.
pub proof fn lemma_message_encoding_len(message: MessageView)
    ensures
        message.encoding().len() == 12 + message.payload.len(),
{
    crate::bytes::lemma_be_bytes(message.payload.len(), 3);
    crate::bytes::lemma_be_bytes(message.message_seq as nat, 2);
    crate::bytes::lemma_be_bytes(0, 3);
}

/// Parsing an encoded message gives the message back, whatever follows it.
pub proof fn law_encoded_message_parses(message: MessageView, rest: Seq<u8>)
    requires
        message.fits(),
    ensures
        message_at(message.encoding() + rest) == Some((message, message.encoding().len())),
{
    let b = message.encoding() + rest;
    let n = message.payload.len();
    lemma_message_encoding_len(message);
    crate::bytes::lemma_be_bytes(n, 3);
    crate::bytes::lemma_be_bytes(message.message_seq as nat, 2);
    crate::bytes::lemma_be_bytes(0, 3);
    reveal_with_fuel(crate::bytes::be_limit, 7);
    assert(b[0] == message.message_type.spec_code());
    assert(b.subrange(1, 4) =~= be_bytes(n, 3));
    assert(b.subrange(4, 6) =~= be_bytes(message.message_seq as nat, 2));
    assert(b.subrange(6, 9) =~= be_bytes(0, 3));
    assert(b.subrange(9, 12) =~= be_bytes(n, 3));
    assert(b.subrange(12, 12 + n as int) =~= message.payload);
}

/// A record that carries one encoded message parses as that message alone.
pub proof fn law_message_round_trip(message: MessageView)
    requires
        message.fits(),
    ensures
        messages_in(message.encoding()) == Some(seq![message]),
{
    let b = message.encoding();
    lemma_message_encoding_len(message);
    law_encoded_message_parses(message, Seq::empty());
    assert(b + Seq::<u8>::empty() =~= b);
    assert(b.skip(b.len() as int) =~= Seq::<u8>::empty());
    assert(messages_in(Seq::<u8>::empty()) == Some(Seq::<MessageView>::empty()));
    assert(seq![message] + Seq::<MessageView>::empty() =~= seq![message]);
}

impl Clone for HandshakeMessage {
    fn clone(&self) -> (message: Self)
        ensures
            message@ == self@,
    {
        let payload = crate::bytes::copy_all(self.payload.as_slice());
        HandshakeMessage {
            message_type: self.message_type,
            message_seq: self.message_seq,
            payload,
        }
    }
}

impl HandshakeMessage {
    /// The message on the wire; fails where the payload is too long.
    pub fn encode(&self) -> (result: Result<Vec<u8>, Error>)
        ensures
            match result {
                Ok(bytes) => self@.fits() && bytes@ == self@.encoding(),
                Err(error) => !self@.fits() && error@ == oversized_handshake(),
            },
    {
        let n: usize = self.payload.len();
        if n > MAX_U24 as usize {
            return Err(Error::crypto("DTLS handshake message is too large"));
        }
        let mut out: Vec<u8> = Vec::new();
        out.push(self.message_type.code());
        put_be(&mut out, n as u64, 3);
        put_be(&mut out, self.message_seq as u64, 2);
        put_be(&mut out, 0, 3);
        put_be(&mut out, n as u64, 3);
        put_all(&mut out, self.payload.as_slice());
        assert(out@ =~= self@.encoding());
        Ok(out)
    }

    /// Whether both are the same message.
    pub fn same(&self, other: &HandshakeMessage) -> (same: bool)
        ensures
            same == (self@ == other@),
    {
        self.message_type == other.message_type && self.message_seq == other.message_seq
            && same_bytes(self.payload.as_slice(), other.payload.as_slice())
    }
}

/// Whether `message` is one of `messages`.
pub fn contains_message(messages: &[HandshakeMessage], message: &HandshakeMessage) -> (found: bool)
    ensures
        found == views(messages@).contains(message@),
{
    let mut i: usize = 0;
    while i < messages.len()
        invariant
            i <= messages@.len(),
            forall|j: int| 0 <= j < i ==> views(messages@)[j] != message@,
        decreases messages@.len() - i,
    {
        if messages[i].same(message) {
            assert(views(messages@)[i as int] == message@);
            return true;
        }
        i = i + 1;
    }
    false
}

/// Whether both lists hold the same messages in the same order.
pub fn same_messages(a: &[HandshakeMessage], b: &[HandshakeMessage]) -> (same: bool)
    ensures
        same == (views(a@) == views(b@)),
{
    if a.len() != b.len() {
        assert(views(a@).len() != views(b@).len());
        return false;
    }
    let mut i: usize = 0;
    while i < a.len()
        invariant
            i <= a@.len(),
            a@.len() == b@.len(),
            forall|j: int| 0 <= j < i ==> views(a@)[j] == views(b@)[j],
        decreases a@.len() - i,
    {
        if !a[i].same(&b[i]) {
            assert(views(a@)[i as int] != views(b@)[i as int]);
            return false;
        }
        i = i + 1;
    }
    assert(views(a@) =~= views(b@));
    true
}

/// Whether one of the messages has the type.
pub fn any_of_type(messages: &[HandshakeMessage], message_type: HandshakeType) -> (found: bool)
    ensures
        found == has_type(views(messages@), message_type),
{
    let mut i: usize = 0;
    while i < messages.len()
        invariant
            i <= messages@.len(),
            forall|j: int| 0 <= j < i ==> (#[trigger] views(messages@)[j]).message_type
                != message_type,
        decreases messages@.len() - i,
    {
        if messages[i].message_type == message_type {
            assert(views(messages@)[i as int].message_type == message_type);
            return true;
        }
        i = i + 1;
    }
    false
}

fn message_from(b: &[u8], from: usize) -> (result: Option<(HandshakeMessage, usize)>)
    requires
        from <= b@.len(),
    ensures
        match (result, message_at(b@.skip(from as int))) {
            (Some((message, end)), Some((view, length))) => message@ == view && end == from + length
                && end <= b@.len(),
            (None, None) => true,
            _ => false,
        },
{
    let ghost rest = b@.skip(from as int);
    if b.len() - from < 12 {
        return None;
    }
    proof {
        reveal_with_fuel(crate::bytes::be_limit, 7);
        assert(b@.subrange(from + 1, from + 4) =~= rest.subrange(1, 4));
        assert(b@.subrange(from + 4, from + 6) =~= rest.subrange(4, 6));
        assert(b@.subrange(from + 6, from + 9) =~= rest.subrange(6, 9));
        assert(b@.subrange(from + 9, from + 12) =~= rest.subrange(9, 12));
    }
    let length: u64 = get_be(b, from + 1, 3);
    let message_seq = get_be(b, from + 4, 2) as u16;
    let fragment_offset: u64 = get_be(b, from + 6, 3);
    let fragment_length: u64 = get_be(b, from + 9, 3);
    match HandshakeType::from_code(b[from]) {
        None => None,
        Some(message_type) => {
            let header = HandshakeHeader {
                message_type,
                length: length as u32,
                message_seq,
                fragment_offset: fragment_offset as u32,
                fragment_length: fragment_length as u32,
            };
            if header.validate().is_err() || fragment_offset != 0 || fragment_length != length
                || ((b.len() - from - 12) as u64) < length {
                return None;
            }
            let end: usize = from + 12 + length as usize;
            let payload = copy_range(b, from + 12, end);
            assert(payload@ =~= rest.subrange(12, 12 + length as int));
            Some((HandshakeMessage { message_type, message_seq, payload }, end))
        },
    }
}

/// The messages of a plaintext handshake record; fails where its payload is
/// not made of whole messages.
pub fn parse_unfragmented_handshake_messages(record: &DtlsRecord) -> (result: Result<
    Vec<HandshakeMessage>,
    Error,
>)
    ensures
        match result {
            Ok(messages) => messages_in(record@.payload) == Some(views(messages@)),
            Err(error) => messages_in(record@.payload) is None && error@ == malformed_handshake(),
        },
{
    let b: &[u8] = record.payload.as_slice();
    let mut messages: Vec<HandshakeMessage> = Vec::new();
    let mut at: usize = 0;
    proof {
        assert(b@.skip(0) =~= b@);
        assert(forall|more: Seq<MessageView>| views(messages@) + more =~= more);
    }
    while at < b.len()
        invariant
            at <= b@.len(),
            messages_in(b@) == (match messages_in(b@.skip(at as int)) {
                None => None,
                Some(more) => Some(views(messages@) + more),
            }),
            b@ == record@.payload,
        decreases b@.len() - at,
    {
        let ghost before = messages@;
        let ghost rest = b@.skip(at as int);
        match message_from(b, at) {
            None => {
                return Err(Error::crypto("malformed DTLS handshake message"));
            },
            Some((message, end)) => {
                proof {
                    assert(rest.skip(end - at) =~= b@.skip(end as int));
                    assert(views(before.push(message)) =~= views(before) + seq![message@]);
                    assert(forall|more: Seq<MessageView>|
                        views(before) + (seq![message@] + more) =~= views(before.push(message))
                            + more);
                }
                messages.push(message);
                at = end;
            },
        }
    }
    proof {
        assert(b@.skip(at as int).len() == 0);
        assert(views(messages@) + Seq::<MessageView>::empty() =~= views(messages@));
    }
    Ok(messages)
}

/// The only message of `payload`, where it has the expected type.
pub open spec fn single_message(payload: Seq<u8>, expected: HandshakeType) -> Option<MessageView> {
    match messages_in(payload) {
        Some(messages) => if messages.len() == 1 && messages[0].message_type == expected {
            Some(messages[0])
        } else {
            None
        },
        None => None,
    }
}

/// The error for a record that does not hold the one expected message.
pub open spec fn unexpected_message() -> ErrorView {
    ErrorView::Crypto("unexpected DTLS handshake message"@)
}

/// The one message of a record; fails where the record is malformed, or holds
/// another number of messages or another type.
pub fn parse_unfragmented_handshake_record(
    record: &DtlsRecord,
    expected: HandshakeType,
) -> (result: Result<HandshakeMessage, Error>)
    ensures
        match result {
            Ok(message) => single_message(record@.payload, expected) == Some(message@),
            Err(error) => single_message(record@.payload, expected) is None && error@ == (
            if messages_in(record@.payload) is None {
                malformed_handshake()
            } else {
                unexpected_message()
            }),
        },
{
    match parse_unfragmented_handshake_messages(record) {
        Err(error) => Err(error),
        Ok(mut messages) => {
            assert(views(messages@).len() == messages@.len());
            if messages.len() == 1 && messages[0].message_type == expected {
                assert(views(messages@)[0] == messages@[0]@);
                let message = messages.remove(0);
                Ok(message)
            } else {
                Err(Error::crypto("unexpected DTLS handshake message"))
            }
        },
    }
}

/// The parts of a ClientHello that the cookie exchange reads.
#[derive(Debug)]
pub struct ClientHello {
    pub random: Vec<u8>,
    pub cookie: Vec<u8>,
}

/// [`ClientHello`] with its fields as sequences.
#[verifier::ext_equal]
pub struct HelloView {
    pub random: Seq<u8>,
    pub cookie: Seq<u8>,
}

impl View for ClientHello {
    type V = HelloView;

    open spec fn view(&self) -> HelloView {
        HelloView { random: self.random@, cookie: self.cookie@ }
    }
}

/// The position behind a field of bytes whose length stands in front of it in
/// `width` bytes, or `None` where `b` is too short.
pub open spec fn field_end(b: Seq<u8>, at: nat, width: nat) -> Option<nat> {
    if b.len() < at + width {
        None
    } else {
        let end = at + width + be_value(b.subrange(at as int, (at + width) as int));
        if b.len() < end {
            None
        } else {
            Some(end)
        }
    }
}

/// The random and the cookie of a ClientHello body: version, random, session
/// id, cookie, cipher suites, compression methods and, optionally, extensions.
pub open spec fn client_hello_in(b: Seq<u8>) -> Option<HelloView> {
    match field_end(b, 34, 1) {
        None => None,
        Some(cookie_at) => match field_end(b, cookie_at, 1) {
            None => None,
            Some(suites_at) => match field_end(b, suites_at, 2) {
                None => None,
                Some(methods_at) => match field_end(b, methods_at, 1) {
                    None => None,
                    Some(end) => if end == b.len() || field_end(b, end, 2) == Some(b.len()) {
                        Some(
                            HelloView {
                                random: b.subrange(2, 34),
                                cookie: b.subrange(cookie_at as int + 1, suites_at as int),
                            },
                        )
                    } else {
                        None
                    },
                },
            },
        },
    }
}

/// The error for a malformed ClientHello.
pub open spec fn malformed_client_hello() -> ErrorView {
    ErrorView::Crypto("malformed ClientHello"@)
}

fn end_of_field(b: &[u8], at: usize, width: usize) -> (end: Option<usize>)
    requires
        at <= b@.len(),
        1 <= width <= 2,
    ensures
        match (end, field_end(b@, at as nat, width as nat)) {
            (Some(end), Some(expected)) => end == expected && at + width <= end <= b@.len(),
            (None, None) => true,
            _ => false,
        },
{
    if b.len() - at < width {
        return None;
    }
    proof {
        reveal_with_fuel(crate::bytes::be_limit, 4);
    }
    let length: usize = get_be(b, at, width) as usize;
    if b.len() - at - width < length {
        return None;
    }
    Some(at + width + length)
}

impl ClientHello {
    /// Reads a ClientHello body.
    pub fn decode(b: &[u8]) -> (result: Result<ClientHello, Error>)
        ensures
            match result {
                Ok(hello) => client_hello_in(b@) == Some(hello@),
                Err(error) => client_hello_in(b@) is None && error@ == malformed_client_hello(),
            },
    {
        if b.len() >= 34 {
            if let Some(cookie_at) = end_of_field(b, 34, 1) {
                if let Some(suites_at) = end_of_field(b, cookie_at, 1) {
                    if let Some(methods_at) = end_of_field(b, suites_at, 2) {
                        if let Some(end) = end_of_field(b, methods_at, 1) {
                            let complete = end == b.len() || (match end_of_field(b, end, 2) {
                                Some(last) => last == b.len(),
                                None => false,
                            });
                            if complete {
                                return Ok(
                                    ClientHello {
                                        random: copy_range(b, 2, 34),
                                        cookie: copy_range(b, cookie_at + 1, suites_at),
                                    },
                                );
                            }
                        }
                    }
                }
            }
        }
        Err(Error::crypto("malformed ClientHello"))
    }
}

/// The body of a ClientHello: the version, the random and the fields behind it,
/// each with its length in front, and the extensions where there are any.
pub open spec fn client_hello_body(
    version: u16,
    random: Seq<u8>,
    session_id: Seq<u8>,
    cookie: Seq<u8>,
    cipher_suites: Seq<u8>,
    compression_methods: Seq<u8>,
    extensions: Option<Seq<u8>>,
) -> Seq<u8> {
    high_low(version as nat) + random + seq![session_id.len() as u8] + session_id + seq![
        cookie.len() as u8,
    ] + cookie + high_low(cipher_suites.len()) + cipher_suites + seq![
        compression_methods.len() as u8,
    ] + compression_methods + match extensions {
        Some(block) => high_low(block.len()) + block,
        None => Seq::empty(),
    }
}

/// A field that stands at `at` ends behind its bytes.
proof fn lemma_field_end(b: Seq<u8>, at: nat, width: nat, field: Seq<u8>)
    requires
        width == 1 && field.len() <= 0xff || width == 2 && field.len() <= 0xffff,
        at + width + field.len() <= b.len(),
        width == 1 ==> b[at as int] == field.len(),
        width == 2 ==> b.subrange(at as int, at as int + 2) == high_low(field.len()),
    ensures
        field_end(b, at, width) == Some((at + width + field.len()) as nat),
{
    let n = field.len();
    if width == 1 {
        assert(b.subrange(at as int, at as int + 1) =~= seq![b[at as int]]);
        law_the_most_significant_byte_is_first(0, b[at as int], 0, 0, 0);
    } else {
        law_the_most_significant_byte_is_first(0, (n / 256) as u8, (n % 256) as u8, 0, 0);
    }
}

/// Decoding inverts encoding: a ClientHello of any version, session id, cookie,
/// cipher suites and compression methods that fit their length fields, with any
/// extensions or without, gives its random and its cookie.
pub proof fn law_an_encoded_client_hello_decodes(
    version: u16,
    random: Seq<u8>,
    session_id: Seq<u8>,
    cookie: Seq<u8>,
    cipher_suites: Seq<u8>,
    compression_methods: Seq<u8>,
    extensions: Option<Seq<u8>>,
)
    requires
        random.len() == 32,
        session_id.len() <= 0xff,
        cookie.len() <= 0xff,
        cipher_suites.len() <= 0xffff,
        compression_methods.len() <= 0xff,
        extensions matches Some(block) ==> block.len() <= 0xffff,
    ensures
        client_hello_in(
            client_hello_body(
                version,
                random,
                session_id,
                cookie,
                cipher_suites,
                compression_methods,
                extensions,
            ),
        ) == Some(HelloView { random, cookie }),
{
    let b = client_hello_body(
        version,
        random,
        session_id,
        cookie,
        cipher_suites,
        compression_methods,
        extensions,
    );
    let cookie_at: nat = 35 + session_id.len();
    let suites_at: nat = cookie_at + 1 + cookie.len();
    let methods_at: nat = suites_at + 2 + cipher_suites.len();
    let end: nat = methods_at + 1 + compression_methods.len();
    assert(b.subrange(2, 34) =~= random);
    lemma_field_end(b, 34, 1, session_id);
    lemma_field_end(b, cookie_at, 1, cookie);
    assert(b.subrange(cookie_at as int + 1, suites_at as int) =~= cookie);
    assert(b.subrange(suites_at as int, suites_at as int + 2) =~= high_low(cipher_suites.len()));
    lemma_field_end(b, suites_at, 2, cipher_suites);
    lemma_field_end(b, methods_at, 1, compression_methods);
    if let Some(block) = extensions {
        assert(b.subrange(end as int, end as int + 2) =~= high_low(block.len()));
        lemma_field_end(b, end, 2, block);
    }
}

/// The bytes of a field that ends at `end` follow its length.
proof fn lemma_field(b: Seq<u8>, at: nat, width: nat, end: nat) -> (field: Seq<u8>)
    requires
        1 <= width <= 2,
        field_end(b, at, width) == Some(end),
    ensures
        at + width <= end <= b.len(),
        field == b.subrange((at + width) as int, end as int),
        width == 1 ==> field.len() <= 0xff && b[at as int] == field.len(),
        width == 2 ==> field.len() <= 0xffff && b.subrange(at as int, at as int + 2) == high_low(
            field.len(),
        ),
{
    let length = b.subrange(at as int, (at + width) as int);
    if width == 1 {
        assert(length =~= seq![b[at as int]]);
        law_the_most_significant_byte_is_first(0, b[at as int], 0, 0, 0);
    } else {
        let high = b[at as int];
        let low = b[at as int + 1];
        assert(length =~= seq![high, low]);
        law_the_most_significant_byte_is_first(0, high, low, 0, 0);
        law_the_most_significant_byte_is_first((0x100 * high + low) as nat, high, low, 0, 0);
    }
    b.subrange((at + width) as int, end as int)
}

/// Only a ClientHello decodes: what gives a random and a cookie is the encoding
/// of them, with some version and other fields.
pub proof fn law_only_a_client_hello_decodes(b: Seq<u8>)
    requires
        client_hello_in(b) is Some,
    ensures
        ({
            let hello = client_hello_in(b)->0;
            exists|
                version: u16,
                session_id: Seq<u8>,
                cipher_suites: Seq<u8>,
                compression_methods: Seq<u8>,
                extensions: Option<Seq<u8>>,
            |
                b == #[trigger] client_hello_body(
                    version,
                    hello.random,
                    session_id,
                    hello.cookie,
                    cipher_suites,
                    compression_methods,
                    extensions,
                )
        }),
        client_hello_in(b)->0.random.len() == 32,
        client_hello_in(b)->0.cookie.len() <= 0xff,
{
    let hello = client_hello_in(b)->0;
    let version = (0x100 * b[0] + b[1]) as u16;
    law_the_most_significant_byte_is_first(version as nat, b[0], b[1], 0, 0);
    let cookie_at = field_end(b, 34, 1)->0;
    let session_id = lemma_field(b, 34, 1, cookie_at);
    let suites_at = field_end(b, cookie_at, 1)->0;
    let cookie = lemma_field(b, cookie_at, 1, suites_at);
    assert(cookie == hello.cookie);
    let methods_at = field_end(b, suites_at, 2)->0;
    let cipher_suites = lemma_field(b, suites_at, 2, methods_at);
    let end = field_end(b, methods_at, 1)->0;
    let compression_methods = lemma_field(b, methods_at, 1, end);
    assert(b.subrange(0, 2) =~= high_low(version as nat));
    let front = b.subrange(0, end as int);
    assert(front =~= client_hello_body(
        version,
        hello.random,
        session_id,
        hello.cookie,
        cipher_suites,
        compression_methods,
        None,
    ));
    if end == b.len() {
        assert(b =~= front);
        assert(b == client_hello_body(
            version,
            hello.random,
            session_id,
            hello.cookie,
            cipher_suites,
            compression_methods,
            None,
        ));
    } else {
        let block = lemma_field(b, end, 2, b.len());
        assert(b =~= front + (high_low(block.len()) + block));
        assert(b =~= client_hello_body(
            version,
            hello.random,
            session_id,
            hello.cookie,
            cipher_suites,
            compression_methods,
            Some(block),
        ));
    }
}

/// A HelloVerifyRequest body.
#[derive(Debug)]
pub struct HelloVerifyRequest {
    pub server_version: u16,
    pub cookie: Vec<u8>,
}

/// The body of a HelloVerifyRequest.
pub open spec fn hello_verify_body(server_version: u16, cookie: Seq<u8>) -> Seq<u8> {
    be_bytes(server_version as nat, 2) + seq![cookie.len() as u8] + cookie
}

/// The error for a cookie of more than 255 bytes.
pub open spec fn oversized_cookie() -> ErrorView {
    ErrorView::Crypto("DTLS cookie is too long"@)
}

impl HelloVerifyRequest {
    /// The body on the wire; fails where the cookie has more than 255 bytes.
    pub fn encode(&self) -> (result: Result<Vec<u8>, Error>)
        ensures
            match result {
                Ok(bytes) => self.cookie@.len() <= 255 && bytes@ == hello_verify_body(
                    self.server_version,
                    self.cookie@,
                ),
                Err(error) => self.cookie@.len() > 255 && error@ == oversized_cookie(),
            },
    {
        if self.cookie.len() > 255 {
            return Err(Error::crypto("DTLS cookie is too long"));
        }
        let mut out: Vec<u8> = Vec::new();
        put_be(&mut out, self.server_version as u64, 2);
        out.push(self.cookie.len() as u8);
        put_all(&mut out, self.cookie.as_slice());
        assert(out@ =~= hello_verify_body(self.server_version, self.cookie@));
        Ok(out)
    }
}

/// The record that asks a client to return `cookie`: it repeats the message
/// and record sequence numbers of the ClientHello that it answers.
pub open spec fn hello_verify_record_view(
    message_seq: u16,
    record_sequence: u64,
    cookie: Seq<u8>,
) -> RecordView {
    RecordView::dtls12(
        ContentType::Handshake,
        0,
        record_sequence,
        MessageView {
            message_type: HandshakeType::HelloVerifyRequest,
            message_seq,
            payload: hello_verify_body(crate::dtls::record::DTLS_1_2_VERSION, cookie),
        }.encoding(),
    )
}

/// Builds the record that asks a client to return `cookie`.
pub fn hello_verify_record(
    message_seq: u16,
    record_sequence: u64,
    cookie: Vec<u8>,
) -> (result: Result<DtlsRecord, Error>)
    ensures
        match result {
            Ok(record) => cookie@.len() <= 255 && record_sequence
                <= crate::dtls::record::MAX_SEQUENCE_NUMBER && record@ == hello_verify_record_view(
                message_seq,
                record_sequence,
                cookie@,
            ) && record@.fits(),
            Err(error) => if cookie@.len() > 255 {
                error@ == oversized_cookie()
            } else {
                record_sequence > crate::dtls::record::MAX_SEQUENCE_NUMBER && error@
                    == crate::dtls::record::oversized_record()
            },
        },
{
    let request = HelloVerifyRequest {
        server_version: crate::dtls::record::DTLS_1_2_VERSION,
        cookie,
    };
    match request.encode() {
        Err(error) => Err(error),
        Ok(payload) => {
            proof {
                crate::bytes::lemma_be_bytes(crate::dtls::record::DTLS_1_2_VERSION as nat, 2);
            }
            let verify = HandshakeMessage {
                message_type: HandshakeType::HelloVerifyRequest,
                message_seq,
                payload,
            };
            proof {
                lemma_message_encoding_len(verify@);
            }
            match verify.encode() {
                Err(error) => Err(error),
                Ok(bytes) => DtlsRecord::new(ContentType::Handshake, 0, record_sequence, bytes),
            }
        },
    }
}

} // verus!
