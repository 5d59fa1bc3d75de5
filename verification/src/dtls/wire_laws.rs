//! What records and handshake messages look like on the wire, and which keys
//! protect them.

use vstd::prelude::*;

use crate::bytes::{
    be_bytes, high_low, law_six_bytes_are_read_in_order, law_the_most_significant_byte_is_first,
    six_bytes_value,
};
use crate::dtls::error::ErrorView;
use crate::dtls::handshake::{
    hello_verify_body, hello_verify_record_view, lemma_message_encoding_len, message_at,
    HandshakeType, MessageView,
};
use crate::dtls::protection::{
    ccm8_opened, ccm8_sealed, opened, protectable, protected,
};
use crate::dtls::record::{record_at, ContentType, RecordHeader, RecordView};
use crate::dtls::replay::too_old_for;
use crate::dtls::retransmit::{backed_off_times, INITIAL_RETRANSMIT_TIMEOUT};
use crate::dtls::session::{authenticated_alert, SessionView};
use crate::text::decimal;

verus! {

/// Whether the number stands for the content type: 20 for ChangeCipherSpec, 21
/// for alerts, 22 for the handshake and 23 for application data.
pub open spec fn is_content_code(code: u8, content_type: ContentType) -> bool {
    ||| code == 20 && content_type is ChangeCipherSpec
    ||| code == 21 && content_type is Alert
    ||| code == 22 && content_type is Handshake
    ||| code == 23 && content_type is ApplicationData
}

/// A record byte by byte: the content type, the version, the epoch, the
/// sequence number in six bytes, the length and the payload.
pub open spec fn record_bytes(
    code: u8,
    version: Seq<u8>,
    epoch: u16,
    sequence: Seq<u8>,
    payload: Seq<u8>,
) -> Seq<u8> {
    seq![code] + version + high_low(epoch as nat) + sequence + high_low(payload.len()) + payload
}

/// The bytes of a record of DTLS 1.2 or 1.0 read as that record, whatever
/// follows them, and are what the record is written as.
pub proof fn law_a_record_is_read_from_its_bytes(
    code: u8,
    content_type: ContentType,
    minor: u8,
    epoch: u16,
    sequence: Seq<u8>,
    payload: Seq<u8>,
    rest: Seq<u8>,
)
    requires
        is_content_code(code, content_type),
        minor == 0xfd || minor == 0xff,
        sequence.len() == 6,
        payload.len() <= 0xffff,
    ensures
        ({
            let record = RecordView {
                header: RecordHeader {
                    content_type,
                    version: (0xfe00 + minor) as u16,
                    epoch,
                    sequence_number: six_bytes_value(sequence) as u64,
                },
                payload,
            };
            let bytes = record_bytes(code, seq![0xfeu8, minor], epoch, sequence, payload);
            &&& record_at(bytes + rest) == Some((record, bytes.len()))
            &&& record.encoding() == bytes
            &&& record.fits()
        }),
{
    let version = seq![0xfeu8, minor];
    let bytes = record_bytes(code, version, epoch, sequence, payload);
    let b = bytes + rest;
    law_six_bytes_are_read_in_order(sequence);
    law_the_most_significant_byte_is_first(0xfe00 + minor as nat, 0xfe, minor, 0, 0);
    law_the_most_significant_byte_is_first(
        epoch as nat,
        (epoch / 256) as u8,
        (epoch % 256) as u8,
        0,
        0,
    );
    law_the_most_significant_byte_is_first(
        payload.len(),
        (payload.len() / 256) as u8,
        (payload.len() % 256) as u8,
        0,
        0,
    );
    assert(b[0] == code);
    assert(b.subrange(1, 3) =~= version);
    assert(b.subrange(3, 5) =~= high_low(epoch as nat));
    assert(b.subrange(5, 11) =~= sequence);
    assert(b.subrange(11, 13) =~= high_low(payload.len()));
    assert(b.subrange(13, 13 + payload.len() as int) =~= payload);
    let record = RecordView {
        header: RecordHeader {
            content_type,
            version: (0xfe00 + minor) as u16,
            epoch,
            sequence_number: six_bytes_value(sequence) as u64,
        },
        payload,
    };
    assert(record.encoding() =~= bytes);
}

/// Bytes with another content type or version, or fewer than they announce,
/// are no record.
pub proof fn law_other_bytes_are_no_record(b: Seq<u8>)
    requires
        ({
            ||| b.len() < 13
            ||| b[0] < 20 || b[0] > 23
            ||| b[1] != 0xfe
            ||| b[2] != 0xfd && b[2] != 0xff
            ||| b.len() < 13 + 0x100 * b[11] + b[12]
        }),
    ensures
        record_at(b) is None,
{
    if b.len() >= 13 {
        assert(b.subrange(1, 3) =~= seq![b[1], b[2]]);
        assert(b.subrange(11, 13) =~= seq![b[11], b[12]]);
        law_the_most_significant_byte_is_first(0, b[1], b[2], 0, 0);
        law_the_most_significant_byte_is_first(0, b[11], b[12], 0, 0);
    }
}

/// The number of a handshake message type.
pub open spec fn handshake_code(message_type: HandshakeType) -> u8 {
    match message_type {
        HandshakeType::HelloRequest => 0,
        HandshakeType::ClientHello => 1,
        HandshakeType::ServerHello => 2,
        HandshakeType::HelloVerifyRequest => 3,
        HandshakeType::Certificate => 11,
        HandshakeType::ServerKeyExchange => 12,
        HandshakeType::CertificateRequest => 13,
        HandshakeType::ServerHelloDone => 14,
        HandshakeType::CertificateVerify => 15,
        HandshakeType::ClientKeyExchange => 16,
        HandshakeType::Finished => 20,
    }
}

/// A number below 2^24 in three bytes.
pub open spec fn three_bytes(n: nat) -> Seq<u8> {
    seq![(n / 0x1_0000) as u8, (n / 0x100 % 0x100) as u8, (n % 0x100) as u8]
}

/// A whole handshake message byte by byte: the type, the length, the message
/// number, a fragment that starts at 0 and has the whole length, and the
/// payload.
pub open spec fn message_bytes(code: u8, message_seq: u16, payload: Seq<u8>) -> Seq<u8> {
    seq![code] + three_bytes(payload.len()) + high_low(message_seq as nat) + seq![
        0x00u8,
        0x00u8,
        0x00u8,
    ] + three_bytes(payload.len()) + payload
}

proof fn lemma_three(n: nat)
    requires
        n <= 0xff_ffff,
    ensures
        be_bytes(n, 3) == three_bytes(n),
        crate::bytes::be_value(three_bytes(n)) == n,
{
    law_the_most_significant_byte_is_first(
        0,
        (n / 0x1_0000) as u8,
        (n / 0x100 % 0x100) as u8,
        (n % 0x100) as u8,
        0,
    );
    assert(0x1_0000 * (n / 0x1_0000) + 0x100 * (n / 0x100 % 0x100) + n % 0x100 == n);
}

/// The bytes of a whole handshake message read as that message, whatever
/// follows them, and are what the message is written as.
pub proof fn law_a_handshake_message_is_read_from_its_bytes(
    message_type: HandshakeType,
    message_seq: u16,
    payload: Seq<u8>,
    rest: Seq<u8>,
)
    requires
        payload.len() <= 0xff_ffff,
    ensures
        ({
            let message = MessageView { message_type, message_seq, payload };
            let bytes = message_bytes(handshake_code(message_type), message_seq, payload);
            &&& message_at(bytes + rest) == Some((message, bytes.len()))
            &&& message.encoding() == bytes
            &&& message.fits()
        }),
{
    let message = MessageView { message_type, message_seq, payload };
    let bytes = message_bytes(handshake_code(message_type), message_seq, payload);
    lemma_three(payload.len());
    lemma_three(0);
    law_the_most_significant_byte_is_first(message_seq as nat, 0, 0, 0, 0);
    assert(three_bytes(0) =~= seq![0x00u8, 0x00u8, 0x00u8]);
    assert(message.encoding() =~= bytes);
    crate::dtls::handshake::law_encoded_message_parses(message, rest);
}

/// Bytes with an unknown type, a fragment of a message, or fewer bytes than
/// they announce, are no whole message.
pub proof fn law_fragments_are_no_messages(b: Seq<u8>)
    requires
        ({
            ||| b.len() < 12
            ||| 4 <= b[0] <= 10 || 17 <= b[0] <= 19 || b[0] > 20
            ||| b[6] != 0 || b[7] != 0 || b[8] != 0
            ||| b[9] != b[1] || b[10] != b[2] || b[11] != b[3]
            ||| b.len() < 12 + 0x1_0000 * b[1] + 0x100 * b[2] + b[3]
        }),
    ensures
        message_at(b) is None,
{
    if b.len() >= 12 {
        assert(b.subrange(1, 4) =~= seq![b[1], b[2], b[3]]);
        assert(b.subrange(6, 9) =~= seq![b[6], b[7], b[8]]);
        assert(b.subrange(9, 12) =~= seq![b[9], b[10], b[11]]);
        law_the_most_significant_byte_is_first(0, b[1], b[2], b[3], 0);
        law_the_most_significant_byte_is_first(0, b[6], b[7], b[8], 0);
        law_the_most_significant_byte_is_first(0, b[9], b[10], b[11], 0);
    }
}

/// A HelloVerifyRequest is the version and the cookie with its length; the
/// record that carries it is plaintext and has the numbers of the ClientHello
/// that it answers.
pub proof fn law_a_cookie_is_asked_for_under_the_numbers_of_the_hello(
    message_seq: u16,
    sequence: Seq<u8>,
    cookie: Seq<u8>,
)
    requires
        cookie.len() <= 255,
        sequence.len() == 6,
    ensures
        hello_verify_record_view(
            message_seq,
            six_bytes_value(sequence) as u64,
            cookie,
        ).encoding() == record_bytes(
            22,
            seq![0xfeu8, 0xfdu8],
            0,
            sequence,
            message_bytes(3, message_seq, seq![0xfeu8, 0xfdu8, cookie.len() as u8] + cookie),
        ),
{
    let body = seq![0xfeu8, 0xfdu8, cookie.len() as u8] + cookie;
    let message = MessageView {
        message_type: HandshakeType::HelloVerifyRequest,
        message_seq,
        payload: body,
    };
    law_the_most_significant_byte_is_first(0xfefd, 0xfe, 0xfd, 0, 0);
    assert(hello_verify_body(0xfefd, cookie) =~= body);
    law_a_handshake_message_is_read_from_its_bytes(
        HandshakeType::HelloVerifyRequest,
        message_seq,
        body,
        Seq::empty(),
    );
    lemma_message_encoding_len(message);
    law_a_record_is_read_from_its_bytes(
        22,
        ContentType::Handshake,
        0xfd,
        0,
        sequence,
        message.encoding(),
        Seq::empty(),
    );
}

/// A protected record of DTLS 1.2 starts with its epoch and sequence number.
/// They are the nonce behind the implicit part, and stand with the content
/// type, the version and the length of the plaintext in the authenticated
/// header.
pub proof fn law_a_record_is_protected_under_its_numbers(
    code: u8,
    content_type: ContentType,
    epoch: u16,
    sequence: Seq<u8>,
    key: Seq<u8>,
    iv: Seq<u8>,
    plaintext: Seq<u8>,
)
    requires
        is_content_code(code, content_type),
        sequence.len() == 6,
        plaintext.len() <= 0xffff,
    ensures
        ({
            let nonce = high_low(epoch as nat) + sequence;
            let record = protected(
                content_type,
                epoch,
                six_bytes_value(sequence) as u64,
                key,
                iv,
                plaintext,
            );
            &&& record.header.content_type == content_type
            &&& record.header.version == 0xfefd
            &&& record.header.epoch == epoch
            &&& record.header.sequence_number == six_bytes_value(sequence)
            &&& record.payload == nonce + ccm8_sealed(
                key,
                iv + nonce,
                nonce + seq![code, 0xfeu8, 0xfdu8] + high_low(plaintext.len()),
                plaintext,
            )
        }),
{
    let nonce = high_low(epoch as nat) + sequence;
    law_six_bytes_are_read_in_order(sequence);
    law_the_most_significant_byte_is_first(epoch as nat, 0xfe, 0xfd, 0, 0);
    law_the_most_significant_byte_is_first(plaintext.len(), 0, 0, 0, 0);
    assert(nonce + seq![code] + be_bytes(0xfefd, 2) + high_low(plaintext.len()) =~= nonce + seq![
        code,
        0xfeu8,
        0xfdu8,
    ] + high_low(plaintext.len()));
}

/// A protected record opens under the nonce that it starts with and the header
/// that it came with; one too short for nonce and tag does not open.
pub proof fn law_a_record_is_opened_under_its_numbers(
    code: u8,
    minor: u8,
    record: RecordView,
    sequence: Seq<u8>,
    key: Seq<u8>,
    iv: Seq<u8>,
)
    requires
        is_content_code(code, record.header.content_type),
        record.header.version == 0xfe00 + minor,
        sequence.len() == 6,
        record.header.sequence_number == six_bytes_value(sequence),
        record.payload.len() <= 0xffff,
    ensures
        record.payload.len() < 16 ==> opened(record, key, iv) is None,
        record.payload.len() >= 16 ==> opened(record, key, iv) == ccm8_opened(
            key,
            iv + record.payload.take(8),
            high_low(record.header.epoch as nat) + sequence + seq![code, 0xfeu8, minor] + high_low(
                (record.payload.len() - 16) as nat,
            ),
            record.payload.skip(8),
        ),
{
    let numbers = high_low(record.header.epoch as nat) + sequence;
    law_six_bytes_are_read_in_order(sequence);
    law_the_most_significant_byte_is_first(record.header.epoch as nat, 0xfe, minor, 0, 0);
    if record.payload.len() >= 16 {
        let length = (record.payload.len() - 16) as nat;
        law_the_most_significant_byte_is_first(length, 0, 0, 0, 0);
        assert(numbers + seq![code] + seq![0xfeu8, minor] + high_low(length) =~= numbers + seq![
            code,
            0xfeu8,
            minor,
        ] + high_low(length));
    }
}

/// Each end writes with its own keys in epoch 1 and reads with the other's.
pub proof fn law_each_end_writes_with_its_own_keys(
    session: SessionView,
    content_type: ContentType,
    plaintext: Seq<u8>,
    record: RecordView,
)
    ensures
        ({
            let keys = session.key_material.key_block;
            &&& session.role is Client ==> {
                &&& session.next_record(content_type, plaintext) == protected(
                    content_type,
                    1,
                    session.next_sequence,
                    keys.client_write_key@,
                    keys.client_write_iv@,
                    plaintext,
                )
                &&& session.open(record) == opened(
                    record,
                    keys.server_write_key@,
                    keys.server_write_iv@,
                )
            }
            &&& session.role is Server ==> {
                &&& session.next_record(content_type, plaintext) == protected(
                    content_type,
                    1,
                    session.next_sequence,
                    keys.server_write_key@,
                    keys.server_write_iv@,
                    plaintext,
                )
                &&& session.open(record) == opened(
                    record,
                    keys.client_write_key@,
                    keys.client_write_iv@,
                )
            }
            &&& session.next_sequence < u64::MAX ==> session.after_protect().next_sequence
                == session.next_sequence + 1
        }),
{
}

/// An authenticated alert is the peer's close exactly where its description is
/// close_notify; another one is an error that tells its numbers, its level and
/// its description.
pub proof fn law_close_notify_is_the_peers_close(header: RecordHeader, payload: Seq<u8>)
    ensures
        authenticated_alert(header, payload) is PeerClosed <==> payload.len() >= 2 && payload[1]
            == 0,
        payload.len() >= 2 && payload[1] != 0 ==> authenticated_alert(header, payload)
            == ErrorView::Crypto(
            "DTLS alert epoch="@ + decimal(header.epoch as nat) + " seq="@ + decimal(
                header.sequence_number as nat,
            ) + " level="@ + decimal(payload[0] as nat) + " description="@ + decimal(
                payload[1] as nat,
            ),
        ),
{
}

/// A flight is repeated after 1 second, then after 2, 4, 8, 16 and 32 seconds,
/// and after 60 seconds from then on.
pub proof fn law_the_waits_of_a_flight(n: nat)
    ensures
        backed_off_times(INITIAL_RETRANSMIT_TIMEOUT, n) == 1_000_000_000 * (if n == 0 {
            1int
        } else if n == 1 {
            2
        } else if n == 2 {
            4
        } else if n == 3 {
            8
        } else if n == 4 {
            16
        } else if n == 5 {
            32
        } else {
            60
        }),
    decreases n,
{
    if n > 0 {
        law_the_waits_of_a_flight((n - 1) as nat);
    }
}

/// A sequence number is too old exactly where it lies 64 or more below the
/// newest.
pub proof fn law_the_window_is_64_wide(newest: u64, other: u64)
    ensures
        too_old_for(newest).contains(other) <==> other + 64 <= newest,
{
}

/// A plaintext can be protected exactly where its number has at most 48 bits
/// and nonce, plaintext and tag fit a record.
pub proof fn law_what_can_be_protected(sequence_number: u64, length: nat)
    ensures
        protectable(sequence_number, length) <==> sequence_number < 0x1_0000_0000_0000 && length
            + 16 <= 65535,
{
}

/// Every type of handshake message has the name that errors give it.
pub proof fn law_handshake_messages_have_names()
    ensures
        HandshakeType::HelloRequest.spec_name() == "HelloRequest"@,
        HandshakeType::ClientHello.spec_name() == "ClientHello"@,
        HandshakeType::ServerHello.spec_name() == "ServerHello"@,
        HandshakeType::HelloVerifyRequest.spec_name() == "HelloVerifyRequest"@,
        HandshakeType::Certificate.spec_name() == "Certificate"@,
        HandshakeType::ServerKeyExchange.spec_name() == "ServerKeyExchange"@,
        HandshakeType::CertificateRequest.spec_name() == "CertificateRequest"@,
        HandshakeType::ServerHelloDone.spec_name() == "ServerHelloDone"@,
        HandshakeType::CertificateVerify.spec_name() == "CertificateVerify"@,
        HandshakeType::ClientKeyExchange.spec_name() == "ClientKeyExchange"@,
        HandshakeType::Finished.spec_name() == "Finished"@,
{
}

} // verus!
