//! CoAP messages (RFC 7252) as far as MeshCoP uses them.

use vstd::prelude::*;

use crate::bytes::{
    be_bytes, be_value, copy_all, copy_range, get_be, put_all, put_be, same_bytes, views,
};
use crate::commissioner::error::{Error, ErrorView};

verus! {

/// Option number of Uri-Path.
pub const OPTION_URI_PATH: u16 = 11;

/// Byte in front of a payload.
pub const PAYLOAD_MARKER: u8 = 0xff;

/// The longest option value that the length field can express.
pub const MAX_OPTION_LEN: usize = 65804;

/// Message types.
#[derive(Debug, Clone, Copy, PartialEq, Eq, Structural)]
pub enum CoapType {
    Confirmable,
    NonConfirmable,
    Acknowledgement,
    Reset,
}

impl CoapType {
    /// The number of the type on the wire.
    pub open spec fn spec_code(self) -> u8 {
        match self {
            CoapType::Confirmable => 0,
            CoapType::NonConfirmable => 1,
            CoapType::Acknowledgement => 2,
            CoapType::Reset => 3,
        }
    }

    /// The type with the given number, of which the last two bits count.
    pub open spec fn spec_from_code(code: u8) -> CoapType {
        if code % 4 == 0 {
            CoapType::Confirmable
        } else if code % 4 == 1 {
            CoapType::NonConfirmable
        } else if code % 4 == 2 {
            CoapType::Acknowledgement
        } else {
            CoapType::Reset
        }
    }

    fn code(self) -> (code: u8)
        ensures
            code == self.spec_code(),
    {
        match self {
            CoapType::Confirmable => 0,
            CoapType::NonConfirmable => 1,
            CoapType::Acknowledgement => 2,
            CoapType::Reset => 3,
        }
    }

    fn from_code(code: u8) -> (ty: CoapType)
        ensures
            ty == CoapType::spec_from_code(code),
    {
        match code % 4 {
            0 => CoapType::Confirmable,
            1 => CoapType::NonConfirmable,
            2 => CoapType::Acknowledgement,
            _ => CoapType::Reset,
        }
    }
}

/// A request method or response code: the class in the upper three bits.
#[derive(Debug, Clone, Copy, PartialEq, Eq, Structural)]
pub struct CoapCode(pub u8);

/// Code of empty messages.
pub const CODE_EMPTY: u8 = 0x00;

/// Code of POST requests.
pub const CODE_POST: u8 = 0x02;

/// Code 2.04 Changed.
pub const CODE_CHANGED: u8 = 0x44;

/// Code 2.05 Content.
pub const CODE_CONTENT: u8 = 0x45;

/// The class of a code.
pub open spec fn class_of(code: u8) -> u8 {
    code / 32
}

/// One option.
#[derive(Debug, PartialEq, Eq)]
pub struct CoapOption {
    pub number: u16,
    pub value: Vec<u8>,
}

/// [`CoapOption`] with its value as a sequence.
#[verifier::ext_equal]
pub struct OptionView {
    pub number: u16,
    pub value: Seq<u8>,
}

impl View for CoapOption {
    type V = OptionView;

    open spec fn view(&self) -> OptionView {
        OptionView { number: self.number, value: self.value@ }
    }
}

impl Clone for CoapOption {
    fn clone(&self) -> (option: Self)
        ensures
            option@ == self@,
    {
        let value = copy_all(self.value.as_slice());
        CoapOption { number: self.number, value }
    }
}

/// One message.
#[derive(Debug, PartialEq, Eq)]
pub struct CoapMessage {
    pub ty: CoapType,
    pub code: CoapCode,
    pub message_id: u16,
    pub token: Vec<u8>,
    pub options: Vec<CoapOption>,
    pub payload: Vec<u8>,
}

/// [`CoapMessage`] over sequences.
#[verifier::ext_equal]
pub struct CoapView {
    pub ty: CoapType,
    pub code: u8,
    pub message_id: u16,
    pub token: Seq<u8>,
    pub options: Seq<OptionView>,
    pub payload: Seq<u8>,
}

impl View for CoapMessage {
    type V = CoapView;

    open spec fn view(&self) -> CoapView {
        CoapView {
            ty: self.ty,
            code: self.code.0,
            message_id: self.message_id,
            token: self.token@,
            options: views(self.options@),
            payload: self.payload@,
        }
    }
}

/// The four bits that stand for a delta or a length.
pub open spec fn nibble(n: nat) -> nat {
    if n < 13 {
        n
    } else if n < 269 {
        13
    } else {
        14
    }
}

/// The bytes that follow the four bits.
pub open spec fn extension(n: nat) -> Seq<u8> {
    if n < 13 {
        Seq::empty()
    } else if n < 269 {
        seq![(n - 13) as u8]
    } else {
        be_bytes((n - 269) as nat, 2)
    }
}

/// An option behind one with the number `previous`.
pub open spec fn option_encoding(previous: u16, option: OptionView) -> Seq<u8> {
    let delta = (option.number - previous) as nat;
    let length = option.value.len();
    seq![(16 * nibble(delta) + nibble(length)) as u8] + extension(delta) + extension(length)
        + option.value
}

/// The options in order, the first behind one with the number `previous`.
pub open spec fn options_encoding(previous: u16, options: Seq<OptionView>) -> Seq<u8>
    decreases options.len(),
{
    if options.len() == 0 {
        Seq::empty()
    } else {
        option_encoding(previous, options[0]) + options_encoding(
            options[0].number,
            options.drop_first(),
        )
    }
}

/// Whether the options can be encoded behind one with the number `previous`:
/// their numbers do not decrease, and no value is too long.
pub open spec fn options_fit(previous: u16, options: Seq<OptionView>) -> bool
    decreases options.len(),
{
    options.len() > 0 ==> {
        &&& previous <= options[0].number
        &&& options[0].value.len() <= MAX_OPTION_LEN
        &&& options_fit(options[0].number, options.drop_first())
    }
}

/// The payload with its marker; nothing where it is empty.
pub open spec fn payload_encoding(payload: Seq<u8>) -> Seq<u8> {
    if payload.len() == 0 {
        Seq::empty()
    } else {
        seq![PAYLOAD_MARKER] + payload
    }
}

impl CoapView {
    /// Whether the message can be encoded.
    pub open spec fn fits(self) -> bool {
        self.token.len() <= 8 && options_fit(0, self.options)
    }

    /// The message on the wire.
    pub open spec fn encoding(self) -> Seq<u8> {
        seq![(64 + 16 * self.ty.spec_code() + self.token.len()) as u8, self.code] + be_bytes(
            self.message_id as nat,
            2,
        ) + self.token + options_encoding(0, self.options) + payload_encoding(self.payload)
    }

    /// An empty message of the type.
    pub open spec fn empty(ty: CoapType, message_id: u16) -> CoapView {
        CoapView {
            ty,
            code: CODE_EMPTY,
            message_id,
            token: Seq::empty(),
            options: Seq::empty(),
            payload: Seq::empty(),
        }
    }

    /// Whether the message is the strictly empty acknowledgement of the ID.
    pub open spec fn is_empty_ack_for(self, message_id: u16) -> bool {
        self == CoapView::empty(CoapType::Acknowledgement, message_id)
    }

    /// Whether the message resets the ID.
    pub open spec fn is_reset_for(self, message_id: u16) -> bool {
        self.ty == CoapType::Reset && self.message_id == message_id
    }

    /// Whether the message is a response (2.xx, 4.xx, or 5.xx) rather than a
    /// request, an empty message, or a reserved code class.
    pub open spec fn is_response(self) -> bool {
        class_of(self.code) == 2 || class_of(self.code) == 4 || class_of(self.code) == 5
    }

    /// The empty 2.04 answer to this request.
    pub open spec fn changed_response(self) -> CoapView {
        CoapView {
            ty: CoapType::Acknowledgement,
            code: CODE_CHANGED,
            message_id: self.message_id,
            token: self.token,
            options: Seq::empty(),
            payload: Seq::empty(),
        }
    }
}

/// The delta or length that four bits and the bytes at `at` stand for, and the
/// position behind these bytes.
pub open spec fn extended_at(b: Seq<u8>, at: nat, four_bits: nat) -> Option<(nat, nat)> {
    if four_bits < 13 {
        Some((four_bits, at))
    } else if four_bits == 13 {
        if b.len() < at + 1 {
            None
        } else {
            Some(((b[at as int] + 13) as nat, at + 1))
        }
    } else if four_bits == 14 {
        if b.len() < at + 2 {
            None
        } else {
            Some((be_value(b.subrange(at as int, at as int + 2)) + 269, at + 2))
        }
    } else {
        None
    }
}

/// The option that `b` starts with, behind one with the number `previous`, and
/// its length on the wire.
pub open spec fn option_at(b: Seq<u8>, previous: u16) -> Option<(OptionView, nat)> {
    if b.len() == 0 {
        None
    } else {
        match extended_at(b, 1, (b[0] / 16) as nat) {
            None => None,
            Some((delta, behind_delta)) => match extended_at(b, behind_delta, (b[0] % 16) as nat) {
                None => None,
                Some((length, start)) => if previous + delta > 0xffff || b.len() < start + length {
                    None
                } else {
                    Some(
                        (
                            OptionView {
                                number: (previous + delta) as u16,
                                value: b.subrange(start as int, (start + length) as int),
                            },
                            start + length,
                        ),
                    )
                },
            },
        }
    }
}

/// The options and the payload that `b` holds, the first option behind one
/// with the number `previous`.
pub open spec fn body_in(b: Seq<u8>, previous: u16) -> Option<(Seq<OptionView>, Seq<u8>)>
    decreases b.len(),
{
    if b.len() == 0 {
        Some((Seq::empty(), Seq::empty()))
    } else if b[0] == PAYLOAD_MARKER {
        if b.len() == 1 {
            None
        } else {
            Some((Seq::empty(), b.skip(1)))
        }
    } else {
        match option_at(b, previous) {
            None => None,
            Some((option, length)) => match body_in(b.skip(length as int), option.number) {
                None => None,
                Some((options, payload)) => Some((seq![option] + options, payload)),
            },
        }
    }
}

/// The message that `b` holds, or `None` where it holds none.
pub open spec fn message_in(b: Seq<u8>) -> Option<CoapView> {
    if b.len() < 4 || b[0] / 64 != 1 || b[0] % 16 > 8 || b.len() < 4 + b[0] % 16 {
        None
    } else {
        let behind_token = 4 + b[0] % 16;
        match body_in(b.skip(behind_token), 0) {
            None => None,
            Some((options, payload)) => Some(
                CoapView {
                    ty: CoapType::spec_from_code(b[0] / 16),
                    code: b[1],
                    message_id: be_value(b.subrange(2, 4)) as u16,
                    token: b.subrange(4, behind_token),
                    options,
                    payload,
                },
            ),
        }
    }
}

/// The error for bytes that are no message.
pub open spec fn malformed_message() -> ErrorView {
    ErrorView::Coap("malformed CoAP message"@)
}

/// The error for a message that cannot be encoded.
pub open spec fn unencodable_message() -> ErrorView {
    ErrorView::Coap("CoAP message cannot be encoded"@)
}

proof fn lemma_extended(b: Seq<u8>, at: nat, n: nat)
    requires
        n <= 65804,
        at + extension(n).len() <= b.len(),
        b.subrange(at as int, (at + extension(n).len()) as int) == extension(n),
    ensures
        extended_at(b, at, nibble(n)) == Some((n, at + extension(n).len())),
{
    if n >= 13 && n < 269 {
        assert(b.subrange(at as int, at as int + 1)[0] == (n - 13) as u8);
    } else if n >= 269 {
        crate::bytes::lemma_be_bytes((n - 269) as nat, 2);
        reveal_with_fuel(crate::bytes::be_limit, 3);
    }
}

proof fn lemma_extension_len(n: nat)
    ensures
        extension(n).len() <= 2,
{
    crate::bytes::lemma_be_bytes((n - 269) as nat, 2);
}

proof fn lemma_option_parses(previous: u16, option: OptionView, rest: Seq<u8>)
    requires
        previous <= option.number,
        option.value.len() <= MAX_OPTION_LEN,
    ensures
        option_at(option_encoding(previous, option) + rest, previous) == Some(
            (option, option_encoding(previous, option).len()),
        ),
        option_encoding(previous, option).len() > 0,
        option_encoding(previous, option)[0] != PAYLOAD_MARKER,
{
    let delta = (option.number - previous) as nat;
    let length = option.value.len();
    let b = option_encoding(previous, option) + rest;
    let d = extension(delta);
    let l = extension(length);
    lemma_extension_len(delta);
    lemma_extension_len(length);
    assert(b[0] == (16 * nibble(delta) + nibble(length)) as u8);
    assert(b.subrange(1, 1 + d.len() as int) =~= d);
    assert(b.subrange(1 + d.len() as int, 1 + d.len() as int + l.len() as int) =~= l);
    lemma_extended(b, 1, delta);
    lemma_extended(b, 1 + d.len(), length);
    let start = 1 + d.len() + l.len();
    assert(b.subrange(start as int, (start + length) as int) =~= option.value);
}

proof fn lemma_body_parses(previous: u16, options: Seq<OptionView>, payload: Seq<u8>)
    requires
        options_fit(previous, options),
    ensures
        body_in(options_encoding(previous, options) + payload_encoding(payload), previous) == Some(
            (options, payload),
        ),
    decreases options.len(),
{
    let b = options_encoding(previous, options) + payload_encoding(payload);
    if options.len() == 0 {
        assert(b =~= payload_encoding(payload));
        if payload.len() > 0 {
            assert(b.skip(1) =~= payload);
        } else {
            assert(payload =~= Seq::<u8>::empty());
        }
        assert(options =~= Seq::<OptionView>::empty());
    } else {
        let first = options[0];
        let later = options.drop_first();
        let rest = options_encoding(first.number, later) + payload_encoding(payload);
        assert(b =~= option_encoding(previous, first) + rest);
        lemma_option_parses(previous, first, rest);
        assert(b.skip(option_encoding(previous, first).len() as int) =~= rest);
        lemma_body_parses(first.number, later, payload);
        assert(seq![first] + later =~= options);
    }
}

proof fn lemma_first_byte(ty: CoapType, n: nat)
    requires
        n <= 8,
    ensures
        ({
            let first = (64 + 16 * ty.spec_code() + n) as u8;
            &&& first / 64 == 1
            &&& first % 16 == n
            &&& CoapType::spec_from_code(first / 16) == ty
        }),
{
    match ty {
        CoapType::Confirmable => {},
        CoapType::NonConfirmable => {},
        CoapType::Acknowledgement => {},
        CoapType::Reset => {},
    }
}

/// Decoding an encoded message gives the message back.
pub proof fn law_message_round_trip(message: CoapView)
    requires
        message.fits(),
    ensures
        message_in(message.encoding()) == Some(message),
{
    let b = message.encoding();
    let n = message.token.len();
    let id = be_bytes(message.message_id as nat, 2);
    let head = seq![(64 + 16 * message.ty.spec_code() + n) as u8, message.code];
    let start = head + id + message.token;
    let body = options_encoding(0, message.options) + payload_encoding(message.payload);
    crate::bytes::lemma_be_bytes(message.message_id as nat, 2);
    lemma_first_byte(message.ty, n);
    lemma_body_parses(0, message.options, message.payload);
    assert(crate::bytes::be_limit(2) == 0x10000) by {
        reveal_with_fuel(crate::bytes::be_limit, 3);
    }
    assert(b =~= start + body);
    assert(start.len() == 4 + n);
    assert(b[0] == head[0] && b[1] == head[1]);
    assert(b.subrange(2, 4) =~= id);
    assert(b.subrange(4, 4 + n as int) =~= message.token);
    assert(b.skip(4 + n as int) =~= body);
}

fn put_extension(out: &mut Vec<u8>, n: usize)
    requires
        n <= MAX_OPTION_LEN,
    ensures
        final(out)@ == old(out)@ + extension(n as nat),
{
    if n >= 269 {
        put_be(out, (n - 269) as u64, 2);
    } else if n >= 13 {
        out.push((n - 13) as u8);
    }
    assert(out@ =~= old(out)@ + extension(n as nat));
}

fn nibble_of(n: usize) -> (bits: u8)
    ensures
        bits == nibble(n as nat),
{
    if n < 13 {
        n as u8
    } else if n < 269 {
        13
    } else {
        14
    }
}

fn extended_from(b: &[u8], at: usize, four_bits: u8) -> (result: Option<(usize, usize)>)
    requires
        at <= b@.len(),
        four_bits < 16,
    ensures
        match (result, extended_at(b@, at as nat, four_bits as nat)) {
            (Some((value, behind)), Some((expected, position))) => value == expected && behind
                == position && behind <= b@.len() && value <= MAX_OPTION_LEN,
            (None, None) => true,
            _ => false,
        },
{
    if four_bits < 13 {
        Some((four_bits as usize, at))
    } else if four_bits == 13 {
        if b.len() - at < 1 {
            None
        } else {
            Some((b[at] as usize + 13, at + 1))
        }
    } else if four_bits == 14 {
        if b.len() - at < 2 {
            None
        } else {
            proof {
                reveal_with_fuel(crate::bytes::be_limit, 3);
            }
            let value: u64 = get_be(b, at, 2);
            Some((value as usize + 269, at + 2))
        }
    } else {
        None
    }
}

fn option_from(b: &[u8], from: usize, previous: u16) -> (result: Option<(CoapOption, usize)>)
    requires
        from < b@.len(),
    ensures
        match (result, option_at(b@.skip(from as int), previous)) {
            (Some((option, end)), Some((view, length))) => option@ == view && end == from + length
                && from < end <= b@.len(),
            (None, None) => true,
            _ => false,
        },
{
    let ghost rest = b@.skip(from as int);
    let tail = vstd::slice::slice_subrange(b, from, b.len());
    assert(tail@ =~= rest);
    let first: u8 = tail[0];
    let high: u8 = first / 16;
    let low: u8 = first % 16;
    match extended_from(tail, 1, high) {
        None => None,
        Some((delta, behind_delta)) => {
            match extended_from(tail, behind_delta, low) {
                None => None,
                Some((length, start)) => {
                    if delta > 0xffff - (previous as usize) || tail.len() - start < length {
                        return None;
                    }
                    let value = copy_range(tail, start, start + length);
                    Some(
                        (
                            CoapOption { number: previous + delta as u16, value },
                            from + start + length,
                        ),
                    )
                },
            }
        },
    }
}

impl Clone for CoapMessage {
    fn clone(&self) -> (message: Self)
        ensures
            message@ == self@,
    {
        let mut options: Vec<CoapOption> = Vec::new();
        let mut i: usize = 0;
        while i < self.options.len()
            invariant
                i <= self.options@.len(),
                views(options@) == views(self.options@).take(i as int),
            decreases self.options@.len() - i,
        {
            let ghost before = options@;
            let option = self.options[i].clone();
            proof {
                assert(views(before.push(option)) =~= views(before).push(option@));
                assert(views(self.options@).take(i + 1) =~= views(self.options@).take(
                    i as int,
                ).push(self.options@[i as int]@));
            }
            options.push(option);
            i = i + 1;
        }
        assert(views(self.options@).take(i as int) =~= views(self.options@));
        CoapMessage {
            ty: self.ty,
            code: self.code,
            message_id: self.message_id,
            token: copy_all(self.token.as_slice()),
            options,
            payload: copy_all(self.payload.as_slice()),
        }
    }
}

impl CoapMessage {
    /// Reads a message; fails where the bytes are none.
    pub fn decode(b: &[u8]) -> (result: Result<CoapMessage, Error>)
        ensures
            match result {
                Ok(message) => message_in(b@) == Some(message@),
                Err(error) => message_in(b@) is None && error@ == malformed_message(),
            },
    {
        if b.len() < 4 || b[0] / 64 != 1 || b[0] % 16 > 8 || b.len() - 4 < (b[0] % 16) as usize {
            return Err(Error::Coap("malformed CoAP message"));
        }
        let behind_token: usize = 4 + (b[0] % 16) as usize;
        proof {
            reveal_with_fuel(crate::bytes::be_limit, 3);
        }
        let message_id = get_be(b, 2, 2) as u16;
        let token = copy_range(b, 4, behind_token);
        let mut options: Vec<CoapOption> = Vec::new();
        let mut at: usize = behind_token;
        let mut previous: u16 = 0;
        let ghost body = b@.skip(behind_token as int);
        proof {
            assert(forall|more: Seq<OptionView>| views(options@) + more =~= more);
        }
        while at < b.len() && b[at] != PAYLOAD_MARKER
            invariant
                behind_token <= at <= b@.len(),
                body == b@.skip(behind_token as int),
                b@.len() >= 4,
                behind_token == 4 + b@[0] % 16,
                b@[0] / 64 == 1,
                b@[0] % 16 <= 8,
                body_in(body, 0) == (match body_in(b@.skip(at as int), previous) {
                    None => None,
                    Some((more, payload)) => Some((views(options@) + more, payload)),
                }),
            decreases b@.len() - at,
        {
            let ghost before = options@;
            let ghost rest = b@.skip(at as int);
            assert(rest[0] == b@[at as int]);
            match option_from(b, at, previous) {
                None => {
                    return Err(Error::Coap("malformed CoAP message"));
                },
                Some((option, end)) => {
                    proof {
                        assert(rest.skip(end - at) =~= b@.skip(end as int));
                        assert(views(before.push(option)) =~= views(before) + seq![option@]);
                        assert(forall|more: Seq<OptionView>|
                            views(before) + (seq![option@] + more) =~= views(before.push(option))
                                + more);
                    }
                    previous = option.number;
                    options.push(option);
                    at = end;
                },
            }
        }
        let ghost rest = b@.skip(at as int);
        proof {
            assert(views(options@) + Seq::<OptionView>::empty() =~= views(options@));
        }
        let payload = if at < b.len() {
            assert(rest[0] == b@[at as int]);
            if b.len() - at == 1 {
                return Err(Error::Coap("malformed CoAP message"));
            }
            let payload = copy_range(b, at + 1, b.len());
            assert(payload@ =~= rest.skip(1));
            payload
        } else {
            assert(rest.len() == 0);
            Vec::new()
        };
        Ok(
            CoapMessage {
                ty: CoapType::from_code(b[0] / 16),
                code: CoapCode(b[1]),
                message_id,
                token,
                options,
                payload,
            },
        )
    }

    /// The message on the wire; fails where the token has more than 8 bytes,
    /// the option numbers decrease, or an option value is too long.
    pub fn encode(&self) -> (result: Result<Vec<u8>, Error>)
        ensures
            match result {
                Ok(bytes) => self@.fits() && bytes@ == self@.encoding(),
                Err(error) => !self@.fits() && error@ == unencodable_message(),
            },
    {
        if self.token.len() > 8 {
            return Err(Error::Coap("CoAP message cannot be encoded"));
        }
        let mut out: Vec<u8> = Vec::new();
        out.push(64 + 16 * self.ty.code() + self.token.len() as u8);
        out.push(self.code.0);
        put_be(&mut out, self.message_id as u64, 2);
        put_all(&mut out, self.token.as_slice());
        let ghost head = out@;
        let ghost all = views(self.options@);
        let mut i: usize = 0;
        let mut previous: u16 = 0;
        proof {
            assert(all.skip(0) =~= all);
        }
        while i < self.options.len()
            invariant
                i <= self.options@.len(),
                self.token@.len() <= 8,
                all == views(self.options@),
                options_fit(0, all) == options_fit(previous, all.skip(i as int)),
                head + options_encoding(0, all) == out@ + options_encoding(
                    previous,
                    all.skip(i as int),
                ),
            decreases self.options@.len() - i,
        {
            let option = &self.options[i];
            proof {
                assert(all.skip(i as int)[0] == option@);
                assert(all.skip(i as int).drop_first() =~= all.skip(i + 1));
            }
            if option.number < previous || option.value.len() > MAX_OPTION_LEN {
                return Err(Error::Coap("CoAP message cannot be encoded"));
            }
            let ghost before = out@;
            let delta: usize = (option.number - previous) as usize;
            let length: usize = option.value.len();
            out.push(16 * nibble_of(delta) + nibble_of(length));
            put_extension(&mut out, delta);
            put_extension(&mut out, length);
            put_all(&mut out, option.value.as_slice());
            proof {
                assert(out@ =~= before + option_encoding(previous, option@));
                assert(before + (option_encoding(previous, option@) + options_encoding(
                    option@.number,
                    all.skip(i + 1),
                )) =~= out@ + options_encoding(option@.number, all.skip(i + 1)));
            }
            previous = option.number;
            i = i + 1;
        }
        proof {
            assert(all.skip(i as int).len() == 0);
            assert(out@ =~= head + options_encoding(0, all));
        }
        if self.payload.len() > 0 {
            out.push(PAYLOAD_MARKER);
            put_all(&mut out, self.payload.as_slice());
        }
        assert(out@ =~= self@.encoding());
        Ok(out)
    }

    /// The empty acknowledgement of the ID.
    pub fn empty_ack(message_id: u16) -> (message: CoapMessage)
        ensures
            message@ == CoapView::empty(CoapType::Acknowledgement, message_id),
    {
        let options: Vec<CoapOption> = Vec::new();
        assert(views(options@) =~= Seq::<OptionView>::empty());
        CoapMessage {
            ty: CoapType::Acknowledgement,
            code: CoapCode(CODE_EMPTY),
            message_id,
            token: Vec::new(),
            options,
            payload: Vec::new(),
        }
    }

    /// The empty 2.04 answer to `request`.
    pub fn empty_changed_response(request: &CoapMessage) -> (message: CoapMessage)
        ensures
            message@ == request@.changed_response(),
    {
        let options: Vec<CoapOption> = Vec::new();
        assert(views(options@) =~= Seq::<OptionView>::empty());
        CoapMessage {
            ty: CoapType::Acknowledgement,
            code: CoapCode(CODE_CHANGED),
            message_id: request.message_id,
            token: copy_all(request.token.as_slice()),
            options,
            payload: Vec::new(),
        }
    }

    /// Whether this is the strictly empty acknowledgement of the ID.
    pub fn is_empty_ack_for(&self, message_id: u16) -> (empty_ack: bool)
        ensures
            empty_ack == self@.is_empty_ack_for(message_id),
    {
        let same = self.ty == CoapType::Acknowledgement && self.code.0 == CODE_EMPTY
            && self.message_id == message_id && self.token.len() == 0 && self.options.len() == 0
            && self.payload.len() == 0;
        proof {
            assert(views(self.options@).len() == self.options@.len());
            if same {
                assert(self@ =~= CoapView::empty(CoapType::Acknowledgement, message_id));
            }
        }
        same
    }

    /// Whether this resets the ID.
    pub fn is_reset_for(&self, message_id: u16) -> (reset: bool)
        ensures
            reset == self@.is_reset_for(message_id),
    {
        self.ty == CoapType::Reset && self.message_id == message_id
    }

    /// Whether this is a response (2.xx, 4.xx, or 5.xx) rather than a request,
    /// an empty message, or a reserved code class.
    pub fn is_response(&self) -> (response: bool)
        ensures
            response == self@.is_response(),
    {
        let class: u8 = self.code.0 / 32;
        class == 2 || class == 4 || class == 5
    }

    /// Whether both carry the same token.
    pub fn same_token(&self, other: &CoapMessage) -> (same: bool)
        ensures
            same == (self@.token == other@.token),
    {
        same_bytes(self.token.as_slice(), other.token.as_slice())
    }
}

} // verus!
