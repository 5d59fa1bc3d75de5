//! Flags that say which TLVs of a dataset are asked for.

use vstd::prelude::*;
use vstd::std_specs::ops::BitOrSpec;

verus! {

/// Active and pending operational dataset TLV flags of get requests.
#[derive(Debug, Clone, Copy, PartialEq, Eq, Structural)]
pub struct DatasetFlags {
    bits: u64,
}

impl View for DatasetFlags {
    type V = u64;

    closed spec fn view(&self) -> u64 {
        self.bits
    }
}

impl DatasetFlags {
    /// Bits of the empty flag set.
    pub const EMPTY: u64 = 0;

    /// Bits of all flags.
    pub const ALL: u64 = 0xffff_ffff_ffff_ffff;

    /// Active dataset: Active Timestamp.
    pub const ACTIVE_TIMESTAMP: u64 = 0x8000;

    /// Active dataset: Channel.
    pub const CHANNEL: u64 = 0x4000;

    /// Active dataset: Channel Mask.
    pub const CHANNEL_MASK: u64 = 0x2000;

    /// Active dataset: Extended PAN ID.
    pub const EXTENDED_PAN_ID: u64 = 0x1000;

    /// Active dataset: Mesh-Local Prefix.
    pub const MESH_LOCAL_PREFIX: u64 = 0x800;

    /// Active dataset: Network Key.
    pub const NETWORK_KEY: u64 = 0x400;

    /// Active dataset: Network Name.
    pub const NETWORK_NAME: u64 = 0x200;

    /// Active dataset: PAN ID.
    pub const PAN_ID: u64 = 0x100;

    /// Active dataset: PSKc.
    pub const PSKC: u64 = 0x80;

    /// Active dataset: Security Policy.
    pub const SECURITY_POLICY: u64 = 0x40;

    /// Pending dataset: Delay Timer.
    pub const DELAY_TIMER: u64 = 0x20;

    /// Pending dataset: Pending Timestamp.
    pub const PENDING_TIMESTAMP: u64 = 0x10;

    /// Creates flags from raw bits.
    pub fn from_bits(bits: u64) -> (flags: Self)
        ensures
            flags@ == bits,
    {
        DatasetFlags { bits }
    }

    /// Returns raw bits.
    pub fn bits(self) -> (bits: u64)
        ensures
            bits == self@,
    {
        self.bits
    }

    /// Returns whether every bit in `other` is set.
    pub fn contains(self, other: Self) -> (contained: bool)
        ensures
            contained == (self@ & other@ == other@),
    {
        self.bits & other.bits == other.bits
    }
}

impl Default for DatasetFlags {
    fn default() -> (flags: Self)
        ensures
            flags@ == 0,
    {
        DatasetFlags { bits: 0 }
    }
}

impl core::ops::BitOr for DatasetFlags {
    type Output = DatasetFlags;

    fn bitor(self, other: Self) -> (flags: Self) {
        DatasetFlags { bits: self.bits | other.bits }
    }
}

impl vstd::std_specs::ops::BitOrSpecImpl for DatasetFlags {
    open spec fn obeys_bitor_spec() -> bool {
        true
    }

    open spec fn bitor_req(self, other: Self) -> bool {
        true
    }

    closed spec fn bitor_spec(self, other: Self) -> DatasetFlags {
        DatasetFlags { bits: self.bits | other.bits }
    }
}

/// Commissioner dataset TLV flags of commissioner and BBR get requests.
#[derive(Debug, Clone, Copy, PartialEq, Eq, Structural)]
pub struct CommissionerDatasetFlags {
    bits: u64,
}

impl View for CommissionerDatasetFlags {
    type V = u64;

    closed spec fn view(&self) -> u64 {
        self.bits
    }
}

impl CommissionerDatasetFlags {
    /// Bits of the empty flag set.
    pub const EMPTY: u64 = 0;

    /// Bits of all flags.
    pub const ALL: u64 = 0xffff_ffff_ffff_ffff;

    /// Border Agent Locator.
    pub const BORDER_AGENT_LOCATOR: u64 = 0x8000;

    /// Commissioner Session ID.
    pub const COMMISSIONER_SESSION_ID: u64 = 0x4000;

    /// Steering Data.
    pub const STEERING_DATA: u64 = 0x2000;

    /// AE Steering Data.
    pub const AE_STEERING_DATA: u64 = 0x1000;

    /// NMKP Steering Data.
    pub const NMKP_STEERING_DATA: u64 = 0x800;

    /// Joiner UDP Port.
    pub const JOINER_UDP_PORT: u64 = 0x400;

    /// AE UDP Port.
    pub const AE_UDP_PORT: u64 = 0x200;

    /// NMKP UDP Port.
    pub const NMKP_UDP_PORT: u64 = 0x100;

    /// Creates flags from raw bits.
    pub fn from_bits(bits: u64) -> (flags: Self)
        ensures
            flags@ == bits,
    {
        CommissionerDatasetFlags { bits }
    }

    /// Returns raw bits.
    pub fn bits(self) -> (bits: u64)
        ensures
            bits == self@,
    {
        self.bits
    }

    /// Returns whether every bit in `other` is set.
    pub fn contains(self, other: Self) -> (contained: bool)
        ensures
            contained == (self@ & other@ == other@),
    {
        self.bits & other.bits == other.bits
    }
}

impl Default for CommissionerDatasetFlags {
    fn default() -> (flags: Self)
        ensures
            flags@ == 0,
    {
        CommissionerDatasetFlags { bits: 0 }
    }
}

impl core::ops::BitOr for CommissionerDatasetFlags {
    type Output = CommissionerDatasetFlags;

    fn bitor(self, other: Self) -> (flags: Self) {
        CommissionerDatasetFlags { bits: self.bits | other.bits }
    }
}

impl vstd::std_specs::ops::BitOrSpecImpl for CommissionerDatasetFlags {
    open spec fn obeys_bitor_spec() -> bool {
        true
    }

    open spec fn bitor_req(self, other: Self) -> bool {
        true
    }

    closed spec fn bitor_spec(self, other: Self) -> CommissionerDatasetFlags {
        CommissionerDatasetFlags { bits: self.bits | other.bits }
    }
}

proof fn lemma_joined(one: u64, other: u64)
    ensures
        (one | other) & one == one,
        (one | other) & other == other,
{
    assert((one | other) & one == one && (one | other) & other == other) by (bit_vector);
}

/// Joined flags are the bits of both, so that each is contained.
pub proof fn law_joined_flags_hold_both(one: DatasetFlags, other: DatasetFlags)
    ensures
        one.bitor_spec(other)@ == one@ | other@,
        one.bitor_spec(other)@ & one@ == one@,
        one.bitor_spec(other)@ & other@ == other@,
{
    lemma_joined(one@, other@);
}

/// Joined flags are the bits of both, so that each is contained.
pub proof fn law_joined_commissioner_flags_hold_both(one: CommissionerDatasetFlags, other: CommissionerDatasetFlags)
    ensures
        one.bitor_spec(other)@ == one@ | other@,
        one.bitor_spec(other)@ & one@ == one@,
        one.bitor_spec(other)@ & other@ == other@,
{
    lemma_joined(one@, other@);
}

/// Each flag is a bit of its own, from bit 15 downwards in the order in which
/// the TLVs are listed.
pub proof fn law_each_flag_is_a_bit()
    ensures
        DatasetFlags::ACTIVE_TIMESTAMP == 0x8000,
        DatasetFlags::CHANNEL == 0x4000,
        DatasetFlags::CHANNEL_MASK == 0x2000,
        DatasetFlags::EXTENDED_PAN_ID == 0x1000,
        DatasetFlags::MESH_LOCAL_PREFIX == 0x0800,
        DatasetFlags::NETWORK_KEY == 0x0400,
        DatasetFlags::NETWORK_NAME == 0x0200,
        DatasetFlags::PAN_ID == 0x0100,
        DatasetFlags::PSKC == 0x0080,
        DatasetFlags::SECURITY_POLICY == 0x0040,
        DatasetFlags::DELAY_TIMER == 0x0020,
        DatasetFlags::PENDING_TIMESTAMP == 0x0010,
        CommissionerDatasetFlags::BORDER_AGENT_LOCATOR == 0x8000,
        CommissionerDatasetFlags::COMMISSIONER_SESSION_ID == 0x4000,
        CommissionerDatasetFlags::STEERING_DATA == 0x2000,
        CommissionerDatasetFlags::AE_STEERING_DATA == 0x1000,
        CommissionerDatasetFlags::NMKP_STEERING_DATA == 0x0800,
        CommissionerDatasetFlags::JOINER_UDP_PORT == 0x0400,
        CommissionerDatasetFlags::AE_UDP_PORT == 0x0200,
        CommissionerDatasetFlags::NMKP_UDP_PORT == 0x0100,
{
}

} // verus!
