//! MeshCoP requests, responses and notifications.

use vstd::prelude::*;
use vstd::utf8::{decode_utf8, encode_utf8, valid_utf8};

use crate::bytes::{be_bytes, be_value, copy_all, copy_range, get_be, put_all, put_be, views};
use crate::commissioner::coap::{
    CoapCode, CoapMessage, CoapOption, CoapType, CoapView, OptionView, CODE_POST, OPTION_URI_PATH,
};
use crate::commissioner::dataset::{array16, array8};
use crate::commissioner::error::{optional_text, Error, ErrorView};
use crate::commissioner::tlv::{
    last_value_of, malformed_tlvs, oversized_tlv, tlvs_in, TlvEntry, TlvSet, TlvView,
};
use crate::commissioner::types::{CommissionerEvent, EventView, NetDiagData, ResultCode};
use crate::text::utf8_text;

verus! {

/// The Thread management port.
pub const DEFAULT_MM_PORT: u16 = 61631;

/// Locator of the Leader's anycast address.
pub const LEADER_ALOC16: u16 = 0xfc00;

/// Locator of the Primary Backbone Router's anycast address.
pub const PRIMARY_BBR_ALOC16: u16 = 0xfc38;

/// Type of the PAN ID TLV.
pub const TLV_PAN_ID: u8 = 1;

/// Type of the Commissioner ID TLV.
pub const TLV_COMMISSIONER_ID: u8 = 10;

/// Type of the Commissioner Session ID TLV.
pub const TLV_COMMISSIONER_SESSION_ID: u8 = 11;

/// Type of the State TLV.
pub const TLV_STATE: u8 = 16;

/// Type of the Joiner DTLS Encapsulation TLV.
pub const TLV_JOINER_DTLS_ENCAPSULATION: u8 = 17;

/// Type of the Joiner UDP Port TLV.
pub const TLV_JOINER_UDP_PORT: u8 = 18;

/// Type of the Joiner IID TLV.
pub const TLV_JOINER_IID: u8 = 19;

/// Type of the Joiner Router Locator TLV.
pub const TLV_JOINER_ROUTER_LOCATOR: u8 = 20;

/// Type of the Joiner Router KEK TLV.
pub const TLV_JOINER_ROUTER_KEK: u8 = 21;

/// Type of the Provisioning URL TLV.
pub const TLV_PROVISIONING_URL: u8 = 32;

/// Type of the Vendor Name TLV.
pub const TLV_VENDOR_NAME: u8 = 33;

/// Type of the Vendor Model TLV.
pub const TLV_VENDOR_MODEL: u8 = 34;

/// Type of the Vendor SW Version TLV.
pub const TLV_VENDOR_SW_VERSION: u8 = 35;

/// Type of the Vendor Data TLV.
pub const TLV_VENDOR_DATA: u8 = 36;

/// Type of the Vendor Stack Version TLV.
pub const TLV_VENDOR_STACK_VERSION: u8 = 37;

/// Type of the UDP Encapsulation TLV.
pub const TLV_UDP_ENCAPSULATION: u8 = 48;

/// Type of the IPv6 Address TLV.
pub const TLV_IPV6_ADDRESS: u8 = 49;

/// Type of the Channel Mask TLV.
pub const TLV_CHANNEL_MASK: u8 = 53;

/// Type of the Energy List TLV.
pub const TLV_ENERGY_LIST: u8 = 57;

/// Path of petitions.
pub const URI_PETITION: &'static str = "c/cp";

/// Path of keep-alives.
pub const URI_KEEP_ALIVE: &'static str = "c/ca";

/// Path of messages to the UDP proxy.
pub const URI_UDP_TX: &'static str = "c/ut";

/// Path of messages from the UDP proxy.
pub const URI_UDP_RX: &'static str = "c/ur";

/// Path of messages to the joiner relay.
pub const URI_RELAY_TX: &'static str = "c/tx";

/// Path of messages from the joiner relay.
pub const URI_RELAY_RX: &'static str = "c/rx";

/// Path of a joiner's finalization.
pub const URI_JOIN_FIN: &'static str = "c/jf";

/// Path of dataset change notifications.
pub const URI_DATASET_CHANGED: &'static str = "c/dc";

/// Path of PAN ID conflict reports.
pub const URI_PANID_CONFLICT: &'static str = "c/pc";

/// Path of energy reports.
pub const URI_ENERGY_REPORT: &'static str = "c/er";

/// Path of network diagnostic answers.
pub const URI_DIAG_GET_ANSWER: &'static str = "d/da";

/// The byte between path segments.
pub const SLASH: u8 = 0x2f;

/// The segments of a path: the bytes between the slashes.
pub open spec fn split_path(path: Seq<u8>) -> Seq<Seq<u8>>
    decreases path.len(),
{
    if path.len() == 0 {
        seq![Seq::empty()]
    } else {
        let before = split_path(path.drop_last());
        if path.last() == SLASH {
            before.push(Seq::empty())
        } else {
            before.drop_last().push(before.last().push(path.last()))
        }
    }
}

/// The segments with slashes between them.
pub open spec fn join_path(segments: Seq<Seq<u8>>) -> Seq<u8>
    decreases segments.len(),
{
    if segments.len() == 0 {
        Seq::empty()
    } else if segments.len() == 1 {
        segments[0]
    } else {
        join_path(segments.drop_last()).push(SLASH) + segments.last()
    }
}

/// Joining the segments of a path gives the path back.
pub proof fn law_path_round_trip(path: Seq<u8>)
    ensures
        join_path(split_path(path)) == path,
        split_path(path).len() >= 1,
    decreases path.len(),
{
    if path.len() > 0 {
        let init = path.drop_last();
        let before = split_path(init);
        law_path_round_trip(init);
        assert(path =~= init.push(path.last()));
        let after = split_path(path);
        if path.last() == SLASH {
            assert(after.drop_last() =~= before);
            assert(join_path(after) =~= join_path(before).push(SLASH));
        } else {
            assert(after.drop_last() =~= before.drop_last());
            assert(after.last() == before.last().push(path.last()));
            assert(join_path(after) =~= join_path(before).push(path.last()));
        }
    } else {
        assert(path =~= Seq::<u8>::empty());
    }
}

/// The Uri-Path options of a path.
pub open spec fn path_options(path: Seq<u8>) -> Seq<OptionView> {
    split_path(path).map_values(|s: Seq<u8>| OptionView { number: OPTION_URI_PATH, value: s })
}

/// The values of the Uri-Path options.
pub open spec fn path_segments(options: Seq<OptionView>) -> Seq<Seq<u8>>
    decreases options.len(),
{
    if options.len() == 0 {
        Seq::empty()
    } else if options.last().number == OPTION_URI_PATH {
        path_segments(options.drop_last()).push(options.last().value)
    } else {
        path_segments(options.drop_last())
    }
}

/// The path of a message: `Ok(None)` where it has none, an error where it is
/// not UTF-8.
pub open spec fn path_of(message: CoapView) -> Result<Option<Seq<char>>, ErrorView> {
    let segments = path_segments(message.options);
    if segments.len() == 0 {
        Ok(None)
    } else if valid_utf8(join_path(segments)) {
        Ok(Some(decode_utf8(join_path(segments))))
    } else {
        Err(ErrorView::Coap("Uri-Path is not UTF-8"@))
    }
}

/// Whether the message's path is the given one.
pub open spec fn has_path(message: CoapView, path: Seq<char>) -> bool {
    path_of(message) == Ok::<Option<Seq<char>>, ErrorView>(Some(path))
}

proof fn lemma_path_segments(segments: Seq<Seq<u8>>)
    ensures
        path_segments(
            segments.map_values(|s: Seq<u8>| OptionView { number: OPTION_URI_PATH, value: s }),
        ) == segments,
    decreases segments.len(),
{
    let options = segments.map_values(
        |s: Seq<u8>| OptionView { number: OPTION_URI_PATH, value: s },
    );
    if segments.len() > 0 {
        lemma_path_segments(segments.drop_last());
        assert(options.drop_last() =~= segments.drop_last().map_values(
            |s: Seq<u8>| OptionView { number: OPTION_URI_PATH, value: s },
        ));
        assert(segments =~= segments.drop_last().push(segments.last()));
    } else {
        assert(segments =~= Seq::<Seq<u8>>::empty());
    }
}

/// A message with the options of a path has that path.
pub proof fn law_path_options_give_the_path(message: CoapView, path: Seq<char>)
    requires
        message.options == path_options(encode_utf8(path)),
    ensures
        has_path(message, path),
{
    broadcast use {vstd::utf8::encode_utf8_valid_utf8, vstd::utf8::encode_utf8_decode_utf8};

    law_path_round_trip(encode_utf8(path));
    lemma_path_segments(split_path(encode_utf8(path)));
}

fn split_into_options(path: &[u8]) -> (options: Vec<CoapOption>)
    ensures
        views(options@) == path_options(path@),
{
    let mut options: Vec<CoapOption> = Vec::new();
    let mut segment: Vec<u8> = Vec::new();
    let mut i: usize = 0;
    let ghost mut done: Seq<Seq<u8>> = Seq::empty();
    proof {
        assert(path@.take(0) =~= Seq::<u8>::empty());
        assert(split_path(path@.take(0)) =~= done.push(segment@));
    }
    while i < path.len()
        invariant
            i <= path@.len(),
            split_path(path@.take(i as int)) == done.push(segment@),
            views(options@) == done.map_values(
                |s: Seq<u8>| OptionView { number: OPTION_URI_PATH, value: s },
            ),
        decreases path@.len() - i,
    {
        proof {
            assert(path@.take(i + 1).drop_last() =~= path@.take(i as int));
            assert(done.push(segment@).drop_last() =~= done);
        }
        if path[i] == SLASH {
            let ghost before = options@;
            let ghost ended = segment@;
            options.push(CoapOption { number: OPTION_URI_PATH, value: segment });
            segment = Vec::new();
            proof {
                assert(views(options@) =~= views(before).push(
                    OptionView { number: OPTION_URI_PATH, value: ended },
                ));
                assert(views(options@) =~= done.push(ended).map_values(
                    |s: Seq<u8>| OptionView { number: OPTION_URI_PATH, value: s },
                ));
                done = done.push(ended);
                assert(segment@ =~= Seq::<u8>::empty());
            }
        } else {
            segment.push(path[i]);
        }
        i = i + 1;
    }
    let ghost before = options@;
    let ghost last = segment@;
    options.push(CoapOption { number: OPTION_URI_PATH, value: segment });
    proof {
        assert(path@.take(i as int) =~= path@);
        assert(views(options@) =~= views(before).push(
            OptionView { number: OPTION_URI_PATH, value: last },
        ));
        assert(views(options@) =~= path_options(path@));
    }
    options
}

/// A POST request.
pub open spec fn post(
    ty: CoapType,
    message_id: u16,
    token: Seq<u8>,
    path: Seq<char>,
    payload: Seq<u8>,
) -> CoapView {
    CoapView {
        ty,
        code: CODE_POST,
        message_id,
        token,
        options: path_options(encode_utf8(path)),
        payload,
    }
}

impl CoapMessage {
    /// A POST request.
    pub fn post_request(
        ty: CoapType,
        message_id: u16,
        token: Vec<u8>,
        path: &str,
        payload: Vec<u8>,
    ) -> (message: CoapMessage)
        ensures
            message@ == post(ty, message_id, token@, path@, payload@),
            has_path(message@, path@),
    {
        let options = split_into_options(path.as_bytes());
        let message = CoapMessage {
            ty,
            code: CoapCode(CODE_POST),
            message_id,
            token,
            options,
            payload,
        };
        proof {
            law_path_options_give_the_path(message@, path@);
        }
        message
    }

    /// The path: `Ok(None)` where the message has none; fails where it is not
    /// UTF-8.
    pub fn uri_path(&self) -> (result: Result<Option<String>, Error>)
        ensures
            match (result, path_of(self@)) {
                (Ok(None), Ok(None)) => true,
                (Ok(Some(path)), Ok(Some(expected))) => path@ == expected,
                (Err(error), Err(expected)) => error@ == expected,
                _ => false,
            },
    {
        let ghost all = views(self.options@);
        let mut joined: Vec<u8> = Vec::new();
        let mut found = false;
        let mut i: usize = 0;
        assert(all.take(0) =~= Seq::<OptionView>::empty());
        while i < self.options.len()
            invariant
                i <= self.options@.len(),
                all == views(self.options@),
                found == (path_segments(all.take(i as int)).len() > 0),
                joined@ == join_path(path_segments(all.take(i as int))),
            decreases self.options@.len() - i,
        {
            let option = &self.options[i];
            proof {
                assert(all.take(i + 1).drop_last() =~= all.take(i as int));
                assert(all.take(i + 1).last() == option@);
            }
            if option.number == OPTION_URI_PATH {
                let ghost before = path_segments(all.take(i as int));
                let ghost after = path_segments(all.take(i + 1));
                if found {
                    joined.push(SLASH);
                }
                put_all(&mut joined, option.value.as_slice());
                found = true;
                proof {
                    assert(after.drop_last() =~= before);
                    if before.len() == 0 {
                        assert(joined@ =~= option@.value);
                    }
                    assert(joined@ =~= join_path(after));
                }
            }
            i = i + 1;
        }
        assert(all.take(i as int) =~= all);
        if !found {
            return Ok(None);
        }
        match utf8_text(joined.as_slice()) {
            Some(text) => Ok(Some(text)),
            None => Err(Error::Coap("Uri-Path is not UTF-8")),
        }
    }

    /// Whether the message's path is the given one; fails where its path is
    /// not UTF-8.
    pub fn path_is(&self, path: &str) -> (result: Result<bool, Error>)
        ensures
            match (result, path_of(self@)) {
                (Ok(same), Ok(own)) => same == (own == Some(path@)),
                (Err(error), Err(expected)) => error@ == expected,
                _ => false,
            },
    {
        match self.uri_path() {
            Err(error) => Err(error),
            Ok(None) => Ok(false),
            Ok(Some(own)) => {
                let expected = String::from_str(path);
                Ok(own == expected)
            },
        }
    }
}

/// States of a request or session.
#[derive(Debug, Clone, Copy, PartialEq, Eq, Structural)]
pub enum MeshcopState {
    Accept,
    Pending,
    Reject,
}

impl MeshcopState {
    /// The state on the wire.
    pub open spec fn spec_to_wire(self) -> u8 {
        match self {
            MeshcopState::Accept => 1,
            MeshcopState::Pending => 0,
            MeshcopState::Reject => 0xff,
        }
    }

    /// The state that a byte stands for.
    pub open spec fn spec_from_wire(byte: u8) -> Option<MeshcopState> {
        if byte == 1 {
            Some(MeshcopState::Accept)
        } else if byte == 0 {
            Some(MeshcopState::Pending)
        } else if byte == 0xff {
            Some(MeshcopState::Reject)
        } else {
            None
        }
    }

    /// The state on the wire.
    pub fn to_wire(self) -> (byte: u8)
        ensures
            byte == self.spec_to_wire(),
    {
        match self {
            MeshcopState::Accept => 1,
            MeshcopState::Pending => 0,
            MeshcopState::Reject => 0xff,
        }
    }

    /// The result that the state stands for.
    pub open spec fn spec_result_code(self) -> ResultCode {
        match self {
            MeshcopState::Accept => ResultCode::Accept,
            MeshcopState::Pending => ResultCode::Pending,
            MeshcopState::Reject => ResultCode::Reject,
        }
    }
}

/// The result that a state stands for.
pub fn result_code_from_meshcop_state(state: MeshcopState) -> (code: ResultCode)
    ensures
        code == state.spec_result_code(),
{
    match state {
        MeshcopState::Accept => ResultCode::Accept,
        MeshcopState::Pending => ResultCode::Pending,
        MeshcopState::Reject => ResultCode::Reject,
    }
}

/// The State TLV of a payload: an error where the payload is malformed, the
/// TLV is invalid, or it is absent though it is mandatory.
pub open spec fn state_in(payload: Seq<u8>, mandatory: bool) -> Result<
    Option<MeshcopState>,
    ErrorView,
> {
    match tlvs_in(payload) {
        None => Err(malformed_tlvs()),
        Some(tlvs) => match last_value_of(tlvs, TLV_STATE) {
            None => if mandatory {
                Err(ErrorView::Dataset("response is missing the State TLV"@))
            } else {
                Ok(None)
            },
            Some(value) => if value.len() == 1 && MeshcopState::spec_from_wire(
                value[0],
            ) is Some {
                Ok(MeshcopState::spec_from_wire(value[0]))
            } else {
                Err(ErrorView::Dataset("invalid State TLV"@))
            },
        },
    }
}

/// Reads the State TLV of a response.
pub fn parse_state_response(response: &CoapMessage, mandatory: bool) -> (result: Result<
    Option<MeshcopState>,
    Error,
>)
    ensures
        match (result, state_in(response@.payload, mandatory)) {
            (Ok(state), Ok(expected)) => state == expected,
            (Err(error), Err(expected)) => error@ == expected,
            _ => false,
        },
{
    match TlvSet::parse(response.payload.as_slice()) {
        Err(error) => Err(error),
        Ok(tlvs) => match tlvs.last_value(TLV_STATE) {
            None => {
                if mandatory {
                    Err(Error::Dataset(String::from_str("response is missing the State TLV")))
                } else {
                    Ok(None)
                }
            },
            Some(value) => {
                if value.len() == 1 {
                    match value[0] {
                        1 => return Ok(Some(MeshcopState::Accept)),
                        0 => return Ok(Some(MeshcopState::Pending)),
                        0xff => return Ok(Some(MeshcopState::Reject)),
                        _ => {},
                    }
                }
                Err(Error::Dataset(String::from_str("invalid State TLV")))
            },
        },
    }
}

/// Treats an `Accept`/absent State TLV as success and a `Pending`/`Reject`
/// State TLV as an error.
pub fn check_state_response(response: &CoapMessage, state_mandatory: bool) -> (result: Result<
    (),
    Error,
>)
    ensures
        match (result, state_in(response@.payload, state_mandatory)) {
            (Ok(_), Ok(state)) => state is None || state == Some(MeshcopState::Accept),
            (Err(error), Ok(state)) => {
                ||| state == Some(MeshcopState::Pending) && error@ == ErrorView::InvalidState(
                    "MeshCoP response is pending"@,
                )
                ||| state == Some(MeshcopState::Reject) && error@ == ErrorView::InvalidState(
                    "MeshCoP request was rejected"@,
                )
            },
            (Err(error), Err(expected)) => error@ == expected,
            _ => false,
        },
{
    match parse_state_response(response, state_mandatory) {
        Err(error) => Err(error),
        Ok(None) => Ok(()),
        Ok(Some(MeshcopState::Accept)) => Ok(()),
        Ok(Some(MeshcopState::Pending)) => Err(Error::InvalidState("MeshCoP response is pending")),
        Ok(Some(MeshcopState::Reject)) => Err(Error::InvalidState("MeshCoP request was rejected")),
    }
}

/// The error for a CoAP error response.
pub open spec fn error_response() -> ErrorView {
    ErrorView::InvalidState("MeshCoP exchange returned a CoAP error response"@)
}

/// Rejects CoAP client-error (4.xx) and server-error (5.xx) responses so a
/// peer's failure surfaces as an error instead of being decoded as an empty
/// payload. Any other response passes through to the tolerant per-operation
/// decoders.
pub fn require_success_response(response: CoapMessage) -> (result: Result<CoapMessage, Error>)
    ensures
        match result {
            Ok(passed) => passed@ == response@ && crate::commissioner::coap::class_of(
                response@.code,
            ) != 4 && crate::commissioner::coap::class_of(response@.code) != 5,
            Err(error) => (crate::commissioner::coap::class_of(response@.code) == 4
                || crate::commissioner::coap::class_of(response@.code) == 5) && error@
                == error_response(),
        },
{
    let class: u8 = response.code.0 / 32;
    if class == 4 || class == 5 {
        return Err(Error::InvalidState("MeshCoP exchange returned a CoAP error response"));
    }
    Ok(response)
}

/// The successful response that an outcome holds.
pub open spec fn required_response(
    outcome: Result<Option<CoapView>, ErrorView>,
) -> Result<CoapView, ErrorView> {
    match outcome {
        Err(error) => Err(error),
        Ok(None) => Err(ErrorView::InvalidState("MeshCoP exchange produced no response"@)),
        Ok(Some(response)) => if crate::commissioner::coap::class_of(response.code) == 4
            || crate::commissioner::coap::class_of(response.code) == 5 {
            Err(error_response())
        } else {
            Ok(response)
        },
    }
}

/// The outcome of an exchange over views.
pub open spec fn outcome_view(outcome: Result<Option<CoapMessage>, Error>) -> Result<
    Option<CoapView>,
    ErrorView,
> {
    match outcome {
        Ok(Some(message)) => Ok(Some(message@)),
        Ok(None) => Ok(None),
        Err(error) => Err(error@),
    }
}

/// Returns the successful response of a session-control exchange.
pub fn response_required(outcome: Result<Option<CoapMessage>, Error>) -> (result: Result<
    CoapMessage,
    Error,
>)
    ensures
        match (result, required_response(outcome_view(outcome))) {
            (Ok(response), Ok(expected)) => response@ == expected,
            (Err(error), Err(expected)) => error@ == expected,
            _ => false,
        },
{
    match outcome {
        Err(error) => Err(error),
        Ok(None) => Err(Error::InvalidState("MeshCoP exchange produced no response")),
        Ok(Some(response)) => require_success_response(response),
    }
}

/// What a petition was answered with.
#[derive(Debug)]
pub struct PetitionAnswer {
    pub state: MeshcopState,
    pub session_id: Option<u16>,
    pub existing_commissioner_id: Option<String>,
}

/// [`PetitionAnswer`] over sequences.
#[verifier::ext_equal]
pub struct PetitionAnswerView {
    pub state: MeshcopState,
    pub session_id: Option<u16>,
    pub existing_commissioner_id: Option<Seq<char>>,
}

impl View for PetitionAnswer {
    type V = PetitionAnswerView;

    open spec fn view(&self) -> PetitionAnswerView {
        PetitionAnswerView {
            state: self.state,
            session_id: self.session_id,
            existing_commissioner_id: optional_text(self.existing_commissioner_id),
        }
    }
}

/// The answer to a petition that a payload holds.
pub open spec fn petition_answer_in(payload: Seq<u8>) -> Result<PetitionAnswerView, ErrorView> {
    match state_in(payload, true) {
        Err(error) => Err(error),
        Ok(state) => {
            let tlvs = tlvs_in(payload)->0;
            let session = last_value_of(tlvs, TLV_COMMISSIONER_SESSION_ID);
            let id = last_value_of(tlvs, TLV_COMMISSIONER_ID);
            if session is Some && session->0.len() != 2 {
                Err(ErrorView::Dataset("invalid Commissioner Session ID TLV"@))
            } else if id is Some && !valid_utf8(id->0) {
                Err(ErrorView::Dataset("Commissioner ID TLV is not UTF-8"@))
            } else {
                Ok(
                    PetitionAnswerView {
                        state: state->0,
                        session_id: match session {
                            Some(value) => Some(be_value(value) as u16),
                            None => None,
                        },
                        existing_commissioner_id: match id {
                            Some(value) => Some(decode_utf8(value)),
                            None => None,
                        },
                    },
                )
            }
        },
    }
}

/// Reads the two bytes of a slice as a big-endian number.
fn u16_of(value: &[u8]) -> (n: u16)
    requires
        value@.len() == 2,
    ensures
        n == be_value(value@) as u16,
        n == be_value(value@),
{
    proof {
        reveal_with_fuel(crate::bytes::be_limit, 3);
        assert(value@.subrange(0, 2) =~= value@);
    }
    get_be(value, 0, 2) as u16
}

/// Reads the answer to a petition.
pub fn parse_petition_response(response: &CoapMessage) -> (result: Result<PetitionAnswer, Error>)
    ensures
        match (result, petition_answer_in(response@.payload)) {
            (Ok(answer), Ok(expected)) => answer@ == expected,
            (Err(error), Err(expected)) => error@ == expected,
            _ => false,
        },
{
    match parse_state_response(response, true) {
        Err(error) => Err(error),
        Ok(None) => Err(Error::Dataset(String::from_str("response is missing the State TLV"))),
        Ok(Some(state)) => match TlvSet::parse(response.payload.as_slice()) {
            Err(error) => Err(error),
            Ok(tlvs) => {
                let session_id = match tlvs.last_value(TLV_COMMISSIONER_SESSION_ID) {
                    None => None,
                    Some(value) => {
                        if value.len() != 2 {
                            return Err(
                                Error::Dataset(
                                    String::from_str("invalid Commissioner Session ID TLV"),
                                ),
                            );
                        }
                        Some(u16_of(value))
                    },
                };
                let existing_commissioner_id = match tlvs.last_value(TLV_COMMISSIONER_ID) {
                    None => None,
                    Some(value) => match utf8_text(value) {
                        None => {
                            return Err(
                                Error::Dataset(
                                    String::from_str("Commissioner ID TLV is not UTF-8"),
                                ),
                            );
                        },
                        Some(text) => Some(text),
                    },
                };
                Ok(PetitionAnswer { state, session_id, existing_commissioner_id })
            },
        },
    }
}

/// A petition for the role of the commissioner; its identity is assigned when
/// it is sent.
pub open spec fn petition(commissioner_id: Seq<char>) -> CoapView {
    post(
        CoapType::Confirmable,
        0,
        Seq::empty(),
        URI_PETITION@,
        TlvView { ty: TLV_COMMISSIONER_ID, value: encode_utf8(commissioner_id) }.encoding(),
    )
}

/// Builds a petition; fails where the commissioner ID is too long.
pub fn petition_request(commissioner_id: &str) -> (result: Result<CoapMessage, Error>)
    ensures
        match result {
            Ok(request) => encode_utf8(commissioner_id@).len() <= 0xffff && request@ == petition(
                commissioner_id@,
            ),
            Err(error) => encode_utf8(commissioner_id@).len() > 0xffff && error@
                == oversized_tlv(),
        },
{
    let entry = TlvEntry::new(TLV_COMMISSIONER_ID, commissioner_id.as_bytes());
    let mut payload: Vec<u8> = Vec::new();
    match entry.encode(&mut payload) {
        Err(error) => Err(error),
        Ok(_) => {
            assert(payload@ =~= entry@.encoding());
            Ok(
                CoapMessage::post_request(
                    CoapType::Confirmable,
                    0,
                    Vec::new(),
                    URI_PETITION,
                    payload,
                ),
            )
        },
    }
}

/// A keep-alive: State Accept keeps the session, State Reject resigns.
pub open spec fn keep_alive(session_id: u16, accept: bool) -> CoapView {
    post(
        CoapType::Confirmable,
        0,
        Seq::empty(),
        URI_KEEP_ALIVE@,
        seq![
            TLV_STATE,
            1u8,
            if accept {
                1u8
            } else {
                0xffu8
            },
            TLV_COMMISSIONER_SESSION_ID,
            2u8,
        ] + be_bytes(session_id as nat, 2),
    )
}

/// Builds a keep-alive, or the message that resigns.
pub fn keep_alive_request(session_id: u16, accept: bool) -> (request: CoapMessage)
    ensures
        request@ == keep_alive(session_id, accept),
{
    let state = if accept {
        MeshcopState::Accept
    } else {
        MeshcopState::Reject
    };
    let mut payload: Vec<u8> = vec![TLV_STATE, 1, state.to_wire(), TLV_COMMISSIONER_SESSION_ID, 2];
    put_be(&mut payload, session_id as u64, 2);
    assert(payload@ =~= keep_alive(session_id, accept).payload);
    CoapMessage::post_request(CoapType::Confirmable, 0, Vec::new(), URI_KEEP_ALIVE, payload)
}

/// A datagram for the UDP proxy: destination address, then source port,
/// destination port and the datagram itself.
pub open spec fn udp_tx(address: Seq<u8>, port: u16, inner: Seq<u8>) -> CoapView {
    post(
        CoapType::NonConfirmable,
        0,
        Seq::empty(),
        URI_UDP_TX@,
        TlvView { ty: TLV_IPV6_ADDRESS, value: address }.encoding() + TlvView {
            ty: TLV_UDP_ENCAPSULATION,
            value: be_bytes(DEFAULT_MM_PORT as nat, 2) + be_bytes(port as nat, 2) + inner,
        }.encoding(),
    )
}

/// Builds a datagram for the UDP proxy; fails where it is too long.
pub fn udp_tx_request(address: [u8; 16], port: u16, inner: &[u8]) -> (result: Result<
    CoapMessage,
    Error,
>)
    ensures
        match result {
            Ok(request) => inner@.len() <= 0xfffb && request@ == udp_tx(address@, port, inner@),
            Err(error) => inner@.len() > 0xfffb && error@ == oversized_tlv(),
        },
{
    let mut value: Vec<u8> = Vec::new();
    put_be(&mut value, DEFAULT_MM_PORT as u64, 2);
    put_be(&mut value, port as u64, 2);
    proof {
        crate::bytes::lemma_be_bytes(DEFAULT_MM_PORT as nat, 2);
        crate::bytes::lemma_be_bytes(port as nat, 2);
    }
    put_all(&mut value, inner);
    assert(value@ =~= be_bytes(DEFAULT_MM_PORT as nat, 2) + be_bytes(port as nat, 2) + inner@);
    let destination = TlvEntry::new(TLV_IPV6_ADDRESS, address.as_slice());
    let encapsulation = TlvEntry { ty: TLV_UDP_ENCAPSULATION, value };
    let mut payload: Vec<u8> = Vec::new();
    match destination.encode(&mut payload) {
        Err(error) => Err(error),
        Ok(_) => match encapsulation.encode(&mut payload) {
            Err(error) => Err(error),
            Ok(_) => {
                assert(payload@ =~= udp_tx(address@, port, inner@).payload);
                Ok(
                    CoapMessage::post_request(
                        CoapType::NonConfirmable,
                        0,
                        Vec::new(),
                        URI_UDP_TX,
                        payload,
                    ),
                )
            },
        },
    }
}

/// A datagram from the UDP proxy.
#[derive(Debug)]
pub struct UdpRx {
    pub source_address: [u8; 16],
    pub source_port: u16,
    pub destination_port: u16,
    pub payload: Vec<u8>,
}

/// [`UdpRx`] over sequences.
#[verifier::ext_equal]
pub struct UdpRxView {
    pub source_address: Seq<u8>,
    pub source_port: u16,
    pub destination_port: u16,
    pub payload: Seq<u8>,
}

impl View for UdpRx {
    type V = UdpRxView;

    open spec fn view(&self) -> UdpRxView {
        UdpRxView {
            source_address: self.source_address@,
            source_port: self.source_port,
            destination_port: self.destination_port,
            payload: self.payload@,
        }
    }
}

/// The error for a malformed message from the UDP proxy.
pub open spec fn malformed_udp_rx() -> ErrorView {
    ErrorView::Dataset("malformed UDP_RX"@)
}

/// The datagram that a message from the UDP proxy carries; `Ok(None)` where it
/// is another message.
pub open spec fn udp_rx_in(message: CoapView) -> Result<Option<UdpRxView>, ErrorView> {
    match path_of(message) {
        Err(error) => Err(error),
        Ok(path) => if path != Some(URI_UDP_RX@) {
            Ok(None)
        } else {
            match tlvs_in(message.payload) {
                None => Err(malformed_tlvs()),
                Some(tlvs) => match (
                    last_value_of(tlvs, TLV_IPV6_ADDRESS),
                    last_value_of(tlvs, TLV_UDP_ENCAPSULATION),
                ) {
                    (Some(address), Some(datagram)) => if address.len() == 16 && datagram.len()
                        >= 4 {
                        Ok(
                            Some(
                                UdpRxView {
                                    source_address: address,
                                    source_port: be_value(datagram.subrange(0, 2)) as u16,
                                    destination_port: be_value(datagram.subrange(2, 4)) as u16,
                                    payload: datagram.skip(4),
                                },
                            ),
                        )
                    } else {
                        Err(malformed_udp_rx())
                    },
                    _ => Err(malformed_udp_rx()),
                },
            }
        },
    }
}

/// Reads a message from the UDP proxy.
pub fn parse_udp_rx(message: &CoapMessage) -> (result: Result<Option<UdpRx>, Error>)
    ensures
        match (result, udp_rx_in(message@)) {
            (Ok(None), Ok(None)) => true,
            (Ok(Some(udp_rx)), Ok(Some(expected))) => udp_rx@ == expected,
            (Err(error), Err(expected)) => error@ == expected,
            _ => false,
        },
{
    match message.path_is(URI_UDP_RX) {
        Err(error) => Err(error),
        Ok(false) => Ok(None),
        Ok(true) => match TlvSet::parse(message.payload.as_slice()) {
            Err(error) => Err(error),
            Ok(tlvs) => {
                if let (Some(address), Some(datagram)) = (
                    tlvs.last_value(TLV_IPV6_ADDRESS),
                    tlvs.last_value(TLV_UDP_ENCAPSULATION),
                ) {
                    if address.len() == 16 && datagram.len() >= 4 {
                        proof {
                            reveal_with_fuel(crate::bytes::be_limit, 3);
                            assert(datagram@.skip(4) =~= datagram@.subrange(
                                4,
                                datagram@.len() as int,
                            ));
                        }
                        return Ok(
                            Some(
                                UdpRx {
                                    source_address: array16(address),
                                    source_port: get_be(datagram, 0, 2) as u16,
                                    destination_port: get_be(datagram, 2, 2) as u16,
                                    payload: copy_range(datagram, 4, datagram.len()),
                                },
                            ),
                        );
                    }
                }
                Err(Error::Dataset(String::from_str("malformed UDP_RX")))
            },
        },
    }
}

/// A payload for a joiner behind the relay, with the KEK where the joiner
/// router is to entrust it.
pub open spec fn relay_tx_payload(
    joiner_iid: Seq<u8>,
    port: u16,
    locator: u16,
    payload: Seq<u8>,
    kek: Option<Seq<u8>>,
) -> Seq<u8> {
    TlvView { ty: TLV_JOINER_UDP_PORT, value: be_bytes(port as nat, 2) }.encoding() + TlvView {
        ty: TLV_JOINER_ROUTER_LOCATOR,
        value: be_bytes(locator as nat, 2),
    }.encoding() + TlvView { ty: TLV_JOINER_IID, value: joiner_iid }.encoding() + TlvView {
        ty: TLV_JOINER_DTLS_ENCAPSULATION,
        value: payload,
    }.encoding() + match kek {
        Some(kek) => TlvView { ty: TLV_JOINER_ROUTER_KEK, value: kek }.encoding(),
        None => Seq::empty(),
    }
}

/// Builds a message for the joiner relay; fails where a part is too long.
pub fn relay_tx_request(
    joiner_iid: &[u8],
    port: u16,
    locator: u16,
    payload: &[u8],
    kek: Option<&[u8]>,
) -> (result: Result<CoapMessage, Error>)
    ensures
        ({
            let fits = joiner_iid@.len() <= 0xffff && payload@.len() <= 0xffff && (
            kek matches Some(kek) ==> kek@.len() <= 0xffff);
            match result {
                Ok(request) => fits && request@ == post(
                    CoapType::NonConfirmable,
                    0,
                    Seq::empty(),
                    URI_RELAY_TX@,
                    relay_tx_payload(
                        joiner_iid@,
                        port,
                        locator,
                        payload@,
                        match kek {
                            Some(kek) => Some(kek@),
                            None => None,
                        },
                    ),
                ),
                Err(error) => !fits && error@ == oversized_tlv(),
            }
        }),
{
    let mut port_value: Vec<u8> = Vec::new();
    put_be(&mut port_value, port as u64, 2);
    let mut locator_value: Vec<u8> = Vec::new();
    put_be(&mut locator_value, locator as u64, 2);
    proof {
        crate::bytes::lemma_be_bytes(port as nat, 2);
        crate::bytes::lemma_be_bytes(locator as nat, 2);
        assert(port_value@ =~= be_bytes(port as nat, 2));
        assert(locator_value@ =~= be_bytes(locator as nat, 2));
    }
    let port_entry = TlvEntry { ty: TLV_JOINER_UDP_PORT, value: port_value };
    let locator_entry = TlvEntry { ty: TLV_JOINER_ROUTER_LOCATOR, value: locator_value };
    let iid_entry = TlvEntry::new(TLV_JOINER_IID, joiner_iid);
    let payload_entry = TlvEntry::new(TLV_JOINER_DTLS_ENCAPSULATION, payload);
    let mut out: Vec<u8> = Vec::new();
    if let Err(error) = port_entry.encode(&mut out) {
        return Err(error);
    }
    if let Err(error) = locator_entry.encode(&mut out) {
        return Err(error);
    }
    if let Err(error) = iid_entry.encode(&mut out) {
        return Err(error);
    }
    if let Err(error) = payload_entry.encode(&mut out) {
        return Err(error);
    }
    if let Some(kek) = kek {
        let kek_entry = TlvEntry::new(TLV_JOINER_ROUTER_KEK, kek);
        if let Err(error) = kek_entry.encode(&mut out) {
            return Err(error);
        }
    }
    assert(out@ =~= relay_tx_payload(
        joiner_iid@,
        port,
        locator,
        payload@,
        match kek {
            Some(kek) => Some(kek@),
            None => None,
        },
    ));
    Ok(CoapMessage::post_request(CoapType::NonConfirmable, 0, Vec::new(), URI_RELAY_TX, out))
}

/// What a border agent or a device reports on its own.
#[derive(Debug)]
pub enum MeshcopNotification {
    DatasetChanged,
    DiagGetAnswer { data: Vec<u8> },
    PanIdConflict { channel_mask: u32, pan_id: u16 },
    EnergyReport { channel_mask: u32, energy_list: Vec<u8> },
    RelayRx {
        joiner_udp_port: u16,
        joiner_router_locator: u16,
        joiner_iid: [u8; 8],
        payload: Vec<u8>,
    },
}

/// [`MeshcopNotification`] over sequences.
pub enum NotificationView {
    DatasetChanged,
    DiagGetAnswer { data: Seq<u8> },
    PanIdConflict { channel_mask: u32, pan_id: u16 },
    EnergyReport { channel_mask: u32, energy_list: Seq<u8> },
    RelayRx {
        joiner_udp_port: u16,
        joiner_router_locator: u16,
        joiner_iid: Seq<u8>,
        payload: Seq<u8>,
    },
}

impl View for MeshcopNotification {
    type V = NotificationView;

    open spec fn view(&self) -> NotificationView {
        match self {
            MeshcopNotification::DatasetChanged => NotificationView::DatasetChanged,
            MeshcopNotification::DiagGetAnswer { data } => NotificationView::DiagGetAnswer {
                data: data@,
            },
            MeshcopNotification::PanIdConflict { channel_mask, pan_id } =>
                NotificationView::PanIdConflict { channel_mask: *channel_mask, pan_id: *pan_id },
            MeshcopNotification::EnergyReport { channel_mask, energy_list } =>
                NotificationView::EnergyReport {
                channel_mask: *channel_mask,
                energy_list: energy_list@,
            },
            MeshcopNotification::RelayRx {
                joiner_udp_port,
                joiner_router_locator,
                joiner_iid,
                payload,
            } => NotificationView::RelayRx {
                joiner_udp_port: *joiner_udp_port,
                joiner_router_locator: *joiner_router_locator,
                joiner_iid: joiner_iid@,
                payload: payload@,
            },
        }
    }
}

/// The error for a notification without its TLVs.
pub open spec fn malformed_notification() -> ErrorView {
    ErrorView::Dataset("malformed notification"@)
}

/// The mask of the first channel page that a Channel Mask TLV lists: page 0,
/// in four bytes.
pub open spec fn channel_mask_in(value: Option<Seq<u8>>) -> Option<u32> {
    match value {
        Some(v) => if v.len() >= 6 && v[0] == 0 && v[1] == 4 {
            Some(be_value(v.subrange(2, 6)) as u32)
        } else {
            None
        },
        None => None,
    }
}

/// The two bytes of a TLV as a number.
pub open spec fn u16_in(value: Option<Seq<u8>>) -> Option<u16> {
    match value {
        Some(v) => if v.len() == 2 {
            Some(be_value(v) as u16)
        } else {
            None
        },
        None => None,
    }
}

/// The notification that a message is; `Ok(None)` where it is another message.
pub open spec fn notification_in(message: CoapView) -> Result<
    Option<NotificationView>,
    ErrorView,
> {
    match path_of(message) {
        Err(error) => Err(error),
        Ok(path) => if path == Some(URI_DATASET_CHANGED@) {
            Ok(Some(NotificationView::DatasetChanged))
        } else if path == Some(URI_DIAG_GET_ANSWER@) {
            Ok(Some(NotificationView::DiagGetAnswer { data: message.payload }))
        } else if path == Some(URI_PANID_CONFLICT@) || path == Some(URI_ENERGY_REPORT@) || path
            == Some(URI_RELAY_RX@) {
            match tlvs_in(message.payload) {
                None => Err(malformed_tlvs()),
                Some(tlvs) => match report_in(path->0, tlvs) {
                    Some(notification) => Ok(Some(notification)),
                    None => Err(malformed_notification()),
                },
            }
        } else {
            Ok(None)
        },
    }
}

/// The report with the given path that TLVs hold.
pub open spec fn report_in(path: Seq<char>, tlvs: Seq<TlvView>) -> Option<NotificationView> {
    if path == URI_PANID_CONFLICT@ {
        match (
            channel_mask_in(last_value_of(tlvs, TLV_CHANNEL_MASK)),
            u16_in(last_value_of(tlvs, TLV_PAN_ID)),
        ) {
            (Some(channel_mask), Some(pan_id)) => Some(
                NotificationView::PanIdConflict { channel_mask, pan_id },
            ),
            _ => None,
        }
    } else if path == URI_ENERGY_REPORT@ {
        match (
            channel_mask_in(last_value_of(tlvs, TLV_CHANNEL_MASK)),
            last_value_of(tlvs, TLV_ENERGY_LIST),
        ) {
            (Some(channel_mask), Some(energy_list)) => Some(
                NotificationView::EnergyReport { channel_mask, energy_list },
            ),
            _ => None,
        }
    } else {
        match (
            u16_in(last_value_of(tlvs, TLV_JOINER_UDP_PORT)),
            u16_in(last_value_of(tlvs, TLV_JOINER_ROUTER_LOCATOR)),
            last_value_of(tlvs, TLV_JOINER_IID),
            last_value_of(tlvs, TLV_JOINER_DTLS_ENCAPSULATION),
        ) {
            (
                Some(joiner_udp_port),
                Some(joiner_router_locator),
                Some(joiner_iid),
                Some(payload),
            ) => if joiner_iid.len() == 8 {
                Some(
                    NotificationView::RelayRx {
                        joiner_udp_port,
                        joiner_router_locator,
                        joiner_iid,
                        payload,
                    },
                )
            } else {
                None
            },
            _ => None,
        }
    }
}

fn tlv_u16(tlvs: &TlvSet, ty: u8) -> (value: Option<u16>)
    ensures
        value == u16_in(last_value_of(tlvs@, ty)),
{
    match tlvs.last_value(ty) {
        None => None,
        Some(value) => {
            if value.len() == 2 {
                Some(u16_of(value))
            } else {
                None
            }
        },
    }
}

fn tlv_channel_mask(tlvs: &TlvSet) -> (mask: Option<u32>)
    ensures
        mask == channel_mask_in(last_value_of(tlvs@, TLV_CHANNEL_MASK)),
{
    match tlvs.last_value(TLV_CHANNEL_MASK) {
        None => None,
        Some(value) => {
            if value.len() >= 6 && value[0] == 0 && value[1] == 4 {
                proof {
                    reveal_with_fuel(crate::bytes::be_limit, 5);
                }
                Some(get_be(value, 2, 4) as u32)
            } else {
                None
            }
        },
    }
}

fn pan_id_conflict(tlvs: &TlvSet) -> (report: Option<MeshcopNotification>)
    ensures
        match (report, report_in(URI_PANID_CONFLICT@, tlvs@)) {
            (Some(report), Some(expected)) => report@ == expected,
            (None, None) => true,
            _ => false,
        },
{
    match (tlv_channel_mask(tlvs), tlv_u16(tlvs, TLV_PAN_ID)) {
        (Some(channel_mask), Some(pan_id)) => Some(
            MeshcopNotification::PanIdConflict { channel_mask, pan_id },
        ),
        _ => None,
    }
}

fn energy_report(tlvs: &TlvSet) -> (report: Option<MeshcopNotification>)
    ensures
        match (report, report_in(URI_ENERGY_REPORT@, tlvs@)) {
            (Some(report), Some(expected)) => report@ == expected,
            (None, None) => true,
            _ => false,
        },
{
    proof {
        reveal_strlit("c/pc");
        reveal_strlit("c/er");
        assert(URI_PANID_CONFLICT@[2] != URI_ENERGY_REPORT@[2]);
    }
    match (tlv_channel_mask(tlvs), tlvs.last_value(TLV_ENERGY_LIST)) {
        (Some(channel_mask), Some(energy_list)) => Some(
            MeshcopNotification::EnergyReport { channel_mask, energy_list: copy_all(energy_list) },
        ),
        _ => None,
    }
}

fn relay_rx(tlvs: &TlvSet) -> (report: Option<MeshcopNotification>)
    ensures
        match (report, report_in(URI_RELAY_RX@, tlvs@)) {
            (Some(report), Some(expected)) => report@ == expected,
            (None, None) => true,
            _ => false,
        },
{
    proof {
        reveal_strlit("c/pc");
        reveal_strlit("c/er");
        reveal_strlit("c/rx");
        assert(URI_PANID_CONFLICT@[2] != URI_RELAY_RX@[2]);
        assert(URI_ENERGY_REPORT@[2] != URI_RELAY_RX@[2]);
    }
    match (
        tlv_u16(tlvs, TLV_JOINER_UDP_PORT),
        tlv_u16(tlvs, TLV_JOINER_ROUTER_LOCATOR),
        tlvs.last_value(TLV_JOINER_IID),
        tlvs.last_value(TLV_JOINER_DTLS_ENCAPSULATION),
    ) {
        (Some(joiner_udp_port), Some(joiner_router_locator), Some(joiner_iid), Some(payload)) => {
            if joiner_iid.len() == 8 {
                Some(
                    MeshcopNotification::RelayRx {
                        joiner_udp_port,
                        joiner_router_locator,
                        joiner_iid: array8(joiner_iid),
                        payload: copy_all(payload),
                    },
                )
            } else {
                None
            }
        },
        _ => None,
    }
}

/// Reads a notification; `Ok(None)` where the message is another one.
pub fn parse_notification(message: &CoapMessage) -> (result: Result<
    Option<MeshcopNotification>,
    Error,
>)
    ensures
        match (result, notification_in(message@)) {
            (Ok(None), Ok(None)) => true,
            (Ok(Some(notification)), Ok(Some(expected))) => notification@ == expected,
            (Err(error), Err(expected)) => error@ == expected,
            _ => false,
        },
{
    match message.uri_path() {
        Err(error) => Err(error),
        Ok(None) => Ok(None),
        Ok(Some(path)) => {
            if path == String::from_str(URI_DATASET_CHANGED) {
                return Ok(Some(MeshcopNotification::DatasetChanged));
            }
            if path == String::from_str(URI_DIAG_GET_ANSWER) {
                return Ok(
                    Some(
                        MeshcopNotification::DiagGetAnswer {
                            data: copy_all(message.payload.as_slice()),
                        },
                    ),
                );
            }
            let conflict = path == String::from_str(URI_PANID_CONFLICT);
            let energy = path == String::from_str(URI_ENERGY_REPORT);
            let relay = path == String::from_str(URI_RELAY_RX);
            if !conflict && !energy && !relay {
                return Ok(None);
            }
            match TlvSet::parse(message.payload.as_slice()) {
                Err(error) => Err(error),
                Ok(tlvs) => {
                    let report = if conflict {
                        pan_id_conflict(&tlvs)
                    } else if energy {
                        energy_report(&tlvs)
                    } else {
                        relay_rx(&tlvs)
                    };
                    match report {
                        Some(report) => Ok(Some(report)),
                        None => Err(Error::Dataset(String::from_str("malformed notification"))),
                    }
                },
            }
        },
    }
}

/// The event that a notification becomes.
pub open spec fn event_of(notification: NotificationView, peer_addr: Seq<char>) -> EventView {
    match notification {
        NotificationView::DatasetChanged => EventView::DatasetChanged,
        NotificationView::DiagGetAnswer { data } => EventView::DiagnosticAnswer { peer_addr, data },
        NotificationView::PanIdConflict { channel_mask, pan_id } => EventView::PanIdConflict {
            peer_addr,
            channel_mask,
            pan_id,
        },
        NotificationView::EnergyReport { channel_mask, energy_list } => EventView::EnergyReport {
            peer_addr,
            channel_mask,
            energy_list,
        },
        NotificationView::RelayRx { joiner_udp_port, joiner_iid, payload, .. } =>
            EventView::JoinerMessage { joiner_id: joiner_iid, port: joiner_udp_port, payload },
    }
}

/// The event that a notification becomes.
pub fn notification_to_event(notification: MeshcopNotification, peer_addr: String) -> (event:
    CommissionerEvent)
    ensures
        event@ == event_of(notification@, peer_addr@),
{
    match notification {
        MeshcopNotification::DatasetChanged => CommissionerEvent::DatasetChanged,
        MeshcopNotification::DiagGetAnswer { data } => CommissionerEvent::DiagnosticAnswer {
            peer_addr,
            data: NetDiagData { tlvs: data },
        },
        MeshcopNotification::PanIdConflict { channel_mask, pan_id } =>
            CommissionerEvent::PanIdConflict { peer_addr, channel_mask, pan_id },
        MeshcopNotification::EnergyReport { channel_mask, energy_list } =>
            CommissionerEvent::EnergyReport { peer_addr, channel_mask, energy_list },
        MeshcopNotification::RelayRx { joiner_udp_port, joiner_iid, payload, .. } =>
            CommissionerEvent::JoinerMessage {
            joiner_id: copy_all(joiner_iid.as_slice()),
            port: joiner_udp_port,
            payload,
        },
    }
}

} // verus!
