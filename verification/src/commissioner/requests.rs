//! Requests of the handles to the session driver, and the mesh-local prefix
//! cache used for ALOC routing.

use vstd::prelude::*;

use crate::bytes::{be_bytes, law_the_most_significant_byte_is_first};
use crate::commissioner::coap::{CoapMessage, CoapType};
use crate::commissioner::dataset::{bad_mesh_local_prefix, Dataset, TLV_MESH_LOCAL_PREFIX};
use crate::commissioner::driver::parts::Outcome;
use crate::commissioner::error::{Error, ErrorView};
use crate::commissioner::exchange::{Outbound, OutboundView};
use crate::commissioner::messages::{
    check_state_response, outcome_view, relay_tx_payload, relay_tx_request, required_response,
    response_required, state_in, MeshcopState, DEFAULT_MM_PORT, LEADER_ALOC16, PRIMARY_BBR_ALOC16,
    URI_RELAY_TX,
};
use crate::commissioner::tlv::{last_value_of, malformed_tlvs, tlvs_in, TlvView};
use crate::commissioner::types::{Destination, DestinationView, SessionStatus};
use crate::commissioner::wire_laws::law_the_state_is_one_byte;

verus! {

/// The interface identifier of an anycast locator without its last two bytes.
pub open spec fn locator_base() -> Seq<u8> {
    seq![0x00u8, 0x00u8, 0x00u8, 0xffu8, 0xfeu8, 0x00u8]
}

/// A Thread anycast locator address.
pub open spec fn aloc(mesh_local_prefix: Seq<u8>, aloc16: u16) -> Seq<u8> {
    mesh_local_prefix + locator_base() + be_bytes(aloc16 as nat, 2)
}

/// Computes a Thread anycast locator address from a mesh-local prefix.
pub fn aloc_address(mesh_local_prefix: [u8; 8], aloc16: u16) -> (address: [u8; 16])
    ensures
        address@ == aloc(mesh_local_prefix@, aloc16),
{
    let p: [u8; 8] = mesh_local_prefix;
    let high: u8 = (aloc16 / 0x100) as u8;
    let low: u8 = (aloc16 % 0x100) as u8;
    let address: [u8; 16] = [
        p[0],
        p[1],
        p[2],
        p[3],
        p[4],
        p[5],
        p[6],
        p[7],
        0x00,
        0x00,
        0x00,
        0xff,
        0xfe,
        0x00,
        high,
        low,
    ];
    proof {
        reveal_with_fuel(be_bytes, 3);
        assert(be_bytes(aloc16 as nat, 2) =~= seq![high, low]);
        assert(address@ =~= aloc(mesh_local_prefix@, aloc16));
    }
    address
}

/// The anycast address of the Thread leader.
pub fn leader_aloc(mesh_local_prefix: [u8; 8]) -> (address: [u8; 16])
    ensures
        address@ == aloc(mesh_local_prefix@, LEADER_ALOC16),
{
    aloc_address(mesh_local_prefix, LEADER_ALOC16)
}

/// The anycast address of the Primary Backbone Router.
pub fn primary_bbr_aloc(mesh_local_prefix: [u8; 8]) -> (address: [u8; 16])
    ensures
        address@ == aloc(mesh_local_prefix@, PRIMARY_BBR_ALOC16),
{
    aloc_address(mesh_local_prefix, PRIMARY_BBR_ALOC16)
}

/// The mesh-local prefix, as long as nothing has called it into question.
#[derive(Debug)]
pub struct PrefixCache {
    generation: u64,
    prefix: Option<[u8; 8]>,
}

/// [`PrefixCache`] over views.
#[verifier::ext_equal]
pub struct PrefixCacheView {
    /// Changes whenever the prefix may have moved.
    pub generation: u64,
    pub prefix: Option<Seq<u8>>,
}

/// An optional prefix over views.
pub open spec fn optional_prefix(prefix: Option<[u8; 8]>) -> Option<Seq<u8>> {
    match prefix {
        Some(prefix) => Some(prefix@),
        None => None,
    }
}

impl View for PrefixCache {
    type V = PrefixCacheView;

    closed spec fn view(&self) -> PrefixCacheView {
        PrefixCacheView { generation: self.generation, prefix: optional_prefix(self.prefix) }
    }
}

impl PrefixCacheView {
    /// The cache after the prefix may have moved.
    pub open spec fn invalidated(self) -> PrefixCacheView {
        PrefixCacheView {
            generation: ((self.generation + 1) % 0x1_0000_0000_0000_0000) as u64,
            prefix: None,
        }
    }

    /// The cache after a prefix was fetched that was asked for in a generation.
    pub open spec fn stored(self, generation: u64, prefix: Seq<u8>) -> PrefixCacheView {
        if self.generation == generation {
            PrefixCacheView { prefix: Some(prefix), ..self }
        } else {
            self
        }
    }
}

impl PrefixCache {
    /// An empty cache.
    pub fn new() -> (cache: Self)
        ensures
            cache@ == (PrefixCacheView { generation: 0, prefix: None }),
    {
        PrefixCache { generation: 0, prefix: None }
    }

    /// Returns the currently cached mesh-local prefix.
    pub fn cached_mesh_local_prefix(&self) -> (prefix: Option<[u8; 8]>)
        ensures
            optional_prefix(prefix) == self@.prefix,
    {
        self.prefix
    }

    /// Overrides the cached mesh-local prefix.
    pub fn set_cached_mesh_local_prefix(&mut self, prefix: Option<[u8; 8]>)
        ensures
            final(self)@ == (PrefixCacheView { prefix: optional_prefix(prefix), ..old(self)@ }),
    {
        self.prefix = prefix;
    }

    /// The generation that a fetch belongs to which starts now.
    pub fn generation(&self) -> (generation: u64)
        ensures
            generation == self@.generation,
    {
        self.generation
    }

    /// Forgets the prefix: the dataset changed.
    pub fn invalidate(&mut self)
        ensures
            final(self)@ == old(self)@.invalidated(),
    {
        self.generation = self.generation.wrapping_add(1);
        self.prefix = None;
    }

    /// Keeps a fetched prefix, unless a dataset change during the fetch may
    /// have moved it.
    pub fn store(&mut self, generation: u64, prefix: [u8; 8])
        ensures
            final(self)@ == old(self)@.stored(generation, prefix@),
    {
        if self.generation == generation {
            self.prefix = Some(prefix);
        }
    }
}

/// A prefix that was fetched while the dataset changed is not kept.
pub proof fn law_a_change_during_a_fetch_empties_the_cache(
    cache: PrefixCacheView,
    prefix: Seq<u8>,
)
    ensures
        cache.invalidated().stored(cache.generation, prefix).prefix is None,
        cache.stored(cache.generation, prefix).prefix == Some(prefix),
{
}

/// The mesh-local prefix that an active dataset holds.
pub open spec fn prefix_in(raw: Seq<u8>) -> Result<Seq<u8>, ErrorView> {
    match tlvs_in(raw) {
        None => Err(malformed_tlvs()),
        Some(tlvs) => match last_value_of(tlvs, TLV_MESH_LOCAL_PREFIX) {
            None => Err(
                ErrorView::InvalidState("active dataset does not include the mesh-local prefix"@),
            ),
            Some(prefix) => if prefix.len() != 8 {
                Err(bad_mesh_local_prefix())
            } else if prefix[0] != 0xfd {
                Err(ErrorView::Dataset("mesh-local prefix must be within fd00::/8"@))
            } else {
                Ok(prefix)
            },
        },
    }
}

/// The mesh-local prefix that an active dataset holds; fails where it has none
/// within `fd00::/8`.
pub fn mesh_local_prefix_of(raw: &[u8]) -> (result: Result<[u8; 8], Error>)
    ensures
        match (result, prefix_in(raw@)) {
            (Ok(prefix), Ok(expected)) => prefix@ == expected,
            (Err(error), Err(expected)) => error@ == expected,
            _ => false,
        },
{
    let dataset = match Dataset::from_bytes(raw) {
        Err(error) => {
            return Err(error);
        },
        Ok(dataset) => dataset,
    };
    match dataset.mesh_local_prefix() {
        Err(error) => Err(error),
        Ok(None) => Err(
            Error::InvalidState("active dataset does not include the mesh-local prefix"),
        ),
        Ok(Some(prefix)) => {
            if prefix[0] != 0xfd {
                Err(
                    Error::Dataset(
                        String::from_str("mesh-local prefix must be within fd00::/8"),
                    ),
                )
            } else {
                Ok(prefix)
            }
        },
    }
}

/// Routes to the Thread management port of a mesh destination.
pub fn mesh_management(address: [u8; 16]) -> (destination: Destination)
    ensures
        destination@ == (DestinationView::Mesh { address: address@, port: DEFAULT_MM_PORT }),
{
    Destination::Mesh { address, port: DEFAULT_MM_PORT }
}

/// A request to the border agent itself.
pub fn direct(message: CoapMessage, expect_response: bool) -> (request: Outbound)
    ensures
        request@ == (OutboundView {
            message: message@,
            destination: DestinationView::BorderAgent,
            expect_response,
        }),
{
    Outbound { message, destination: Destination::BorderAgent, expect_response }
}

/// A request to a mesh destination, through the UDP proxy.
pub fn proxied(message: CoapMessage, address: [u8; 16]) -> (request: Outbound)
    ensures
        request@ == (OutboundView {
            message: message@,
            destination: DestinationView::Mesh { address: address@, port: DEFAULT_MM_PORT },
            expect_response: true,
        }),
{
    Outbound { message, destination: mesh_management(address), expect_response: true }
}

/// A command to a mesh destination. A response is awaited only when the inner
/// request is confirmable.
pub fn proxied_command(message: CoapMessage, address: [u8; 16]) -> (request: Outbound)
    ensures
        request@ == (OutboundView {
            message: message@,
            destination: DestinationView::Mesh { address: address@, port: DEFAULT_MM_PORT },
            expect_response: message@.ty == CoapType::Confirmable,
        }),
{
    let expect_response = message.ty == CoapType::Confirmable;
    Outbound { message, destination: mesh_management(address), expect_response }
}

/// A UDP payload for a proxied joiner, to be sent without waiting for any
/// response; fails where a part is too long.
pub fn send_to_joiner(joiner_id: &[u8], port: u16, payload: &[u8]) -> (result: Result<
    Outbound,
    Error,
>)
    ensures
        match result {
            Ok(request) => joiner_id@.len() <= 0xffff && payload@.len() <= 0xffff && request@ == (
            OutboundView {
                message: crate::commissioner::messages::post(
                    CoapType::NonConfirmable,
                    0,
                    Seq::empty(),
                    URI_RELAY_TX@,
                    relay_tx_payload(joiner_id@, port, 0, payload@, None),
                ),
                destination: DestinationView::BorderAgent,
                expect_response: false,
            }),
            Err(error) => (joiner_id@.len() > 0xffff || payload@.len() > 0xffff) && error@
                == crate::commissioner::tlv::oversized_tlv(),
        },
{
    match relay_tx_request(joiner_id, port, 0, payload, None) {
        Err(error) => Err(error),
        Ok(message) => Ok(direct(message, false)),
    }
}

/// The error where an exchange ended without a response.
pub open spec fn no_response() -> ErrorView {
    ErrorView::InvalidState("MeshCoP exchange produced no response"@)
}

/// The response to a raw request, whatever its code.
pub fn raw_response(outcome: Outcome) -> (result: Result<CoapMessage, Error>)
    ensures
        match (result, outcome_view(outcome)) {
            (Ok(response), Ok(Some(expected))) => response@ == expected,
            (Err(error), Ok(None)) => error@ == no_response(),
            (Err(error), Err(expected)) => error@ == expected,
            _ => false,
        },
{
    match outcome {
        Err(error) => Err(error),
        Ok(None) => Err(Error::InvalidState("MeshCoP exchange produced no response")),
        Ok(Some(response)) => Ok(response),
    }
}

/// What a State TLV says of a request.
pub open spec fn state_result(payload: Seq<u8>, mandatory: bool) -> Result<(), ErrorView> {
    match state_in(payload, mandatory) {
        Err(error) => Err(error),
        Ok(None) => Ok(()),
        Ok(Some(MeshcopState::Accept)) => Ok(()),
        Ok(Some(MeshcopState::Pending)) => Err(
            ErrorView::InvalidState("MeshCoP response is pending"@),
        ),
        Ok(Some(MeshcopState::Reject)) => Err(
            ErrorView::InvalidState("MeshCoP request was rejected"@),
        ),
    }
}

/// The result of an operation that is answered with a State TLV.
pub fn state_operation_result(outcome: Outcome, state_mandatory: bool) -> (result: Result<
    (),
    Error,
>)
    ensures
        crate::commissioner::driver::parts::result_view(result) == match required_response(
            outcome_view(outcome),
        ) {
            Err(error) => Err(error),
            Ok(response) => state_result(response.payload, state_mandatory),
        },
{
    match response_required(outcome) {
        Err(error) => Err(error),
        Ok(response) => check_state_response(&response, state_mandatory),
    }
}

/// The result of a command: what its response says, where one was awaited.
pub fn proxied_command_result(outcome: Outcome) -> (result: Result<(), Error>)
    ensures
        crate::commissioner::driver::parts::result_view(result) == match outcome_view(outcome) {
            Err(error) => Err(error),
            Ok(None) => Ok(()),
            Ok(Some(response)) => state_result(response.payload, false),
        },
{
    match outcome {
        Err(error) => Err(error),
        Ok(None) => Ok(()),
        Ok(Some(response)) => check_state_response(&response, false),
    }
}

/// The commissioner session ID, which an operation needs.
pub fn session_id_required(status: &SessionStatus) -> (result: Result<u16, Error>)
    ensures
        match (result, status@.session_id()) {
            (Ok(id), Some(expected)) => id == expected,
            (Err(error), None) => error@ == ErrorView::InvalidState(
                "commissioner session is not active"@,
            ),
            _ => false,
        },
{
    match status.session_id() {
        Some(id) => Ok(id),
        None => Err(Error::InvalidState("commissioner session is not active")),
    }
}

/// An anycast locator is the mesh-local prefix, then 0000:00ff:fe00 and the
/// locator: fc00 for the leader and fc38 for the primary backbone router.
pub proof fn law_anycast_locators_stand_behind_the_prefix(prefix: Seq<u8>, high: u8, low: u8)
    requires
        prefix.len() == 8,
    ensures
        aloc(prefix, (0x100 * high + low) as u16) == prefix + seq![
            0x00u8,
            0x00u8,
            0x00u8,
            0xffu8,
            0xfeu8,
            0x00u8,
            high,
            low,
        ],
        LEADER_ALOC16 == 0xfc00,
        PRIMARY_BBR_ALOC16 == 0xfc38,
{
    law_the_most_significant_byte_is_first(0, high, low, 0, 0);
    assert(aloc(prefix, (0x100 * high + low) as u16) =~= prefix + seq![
        0x00u8,
        0x00u8,
        0x00u8,
        0xffu8,
        0xfeu8,
        0x00u8,
        high,
        low,
    ]);
}

/// A dataset gives its mesh-local prefix exactly where the last TLV of type 7
/// has 8 bytes, the first of them 0xfd.
pub proof fn law_a_mesh_local_prefix_starts_with_fd(raw: Seq<u8>)
    ensures
        prefix_in(raw) is Ok <==> (tlvs_in(raw) matches Some(tlvs) && last_value_of(
            tlvs,
            7,
        ) matches Some(prefix) && prefix.len() == 8 && prefix[0] == 0xfd),
        prefix_in(raw) matches Ok(prefix) ==> last_value_of(tlvs_in(raw)->0, 7) == Some(prefix),
{
}

/// An operation succeeds exactly where its response says Accept, or says
/// nothing where it need not; Pending and Reject are errors of their own.
pub proof fn law_only_accept_is_success(payload: Seq<u8>, tlvs: Seq<TlvView>, mandatory: bool)
    requires
        tlvs_in(payload) == Some(tlvs),
    ensures
        ({
            let state = last_value_of(tlvs, 16);
            let result = state_result(payload, mandatory);
            &&& result is Ok <==> state == Some(seq![0x01u8]) || state is None && !mandatory
            &&& state == Some(seq![0x00u8]) ==> result == Err::<(), ErrorView>(
                ErrorView::InvalidState("MeshCoP response is pending"@),
            )
            &&& state == Some(seq![0xffu8]) ==> result == Err::<(), ErrorView>(
                ErrorView::InvalidState("MeshCoP request was rejected"@),
            )
        }),
{
    law_the_state_is_one_byte(payload, tlvs, mandatory);
    assert(seq![0x01u8][0] == 0x01);
    assert(seq![0x00u8][0] == 0x00);
    assert(seq![0xffu8][0] == 0xff);
}

} // verus!
