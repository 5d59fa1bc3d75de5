//! Operational and commissioner datasets, and the PSKc.

use vstd::prelude::*;

use crate::bytes::views;
use crate::commissioner::error::{Error, ErrorView};
use crate::secret::{wipe_bytes, zeros};
use crate::commissioner::tlv::{
    last_value_of, malformed_tlvs, oversized_tlv, tlvs_encoding, tlvs_in, TlvEntry, TlvSet,
    TlvView,
};

verus! {

/// Length of a PSKc.
pub const MAX_PSKC_LEN: usize = 16;

/// Type of the PSKc TLV.
pub const TLV_PSKC: u8 = 4;

/// Type of the Mesh-Local Prefix TLV.
pub const TLV_MESH_LOCAL_PREFIX: u8 = 7;

/// Type of the Border Agent Locator TLV.
pub const TLV_BORDER_AGENT_LOCATOR: u8 = 9;

/// Type of the Commissioner Session ID TLV.
pub const TLV_COMMISSIONER_SESSION_ID: u8 = 11;

/// The key that authenticates a commissioner. It is wiped when it is dropped.
pub struct Pskc {
    bytes: [u8; 16],
}

impl View for Pskc {
    type V = Seq<u8>;

    closed spec fn view(&self) -> Seq<u8> {
        self.bytes@
    }
}

impl Pskc {
    /// A PSKc with the given bytes.
    pub fn new(bytes: [u8; 16]) -> (pskc: Pskc)
        ensures
            pskc@ == bytes@,
    {
        Pskc { bytes }
    }

    /// The bytes of the key.
    pub fn as_bytes(&self) -> (bytes: &[u8; 16])
        ensures
            bytes@ == self@,
    {
        &self.bytes
    }

    /// Overwrites the key with zeros.
    pub fn zeroize(&mut self)
        ensures
            final(self)@ == zeros(MAX_PSKC_LEN as nat),
        opens_invariants none
        no_unwind
    {
        wipe_bytes(&mut self.bytes);
    }
}

impl Clone for Pskc {
    fn clone(&self) -> (pskc: Self)
        ensures
            pskc@ == self@,
    {
        Pskc { bytes: self.bytes }
    }
}

impl Drop for Pskc {
    fn drop(&mut self)
        opens_invariants none
        no_unwind
    {
        self.zeroize();
    }
}

/// The 16 bytes of a slice.
pub fn array16(s: &[u8]) -> (a: [u8; 16])
    requires
        s@.len() == 16,
    ensures
        a@ == s@,
{
    let a: [u8; 16] = [
        s[0],
        s[1],
        s[2],
        s[3],
        s[4],
        s[5],
        s[6],
        s[7],
        s[8],
        s[9],
        s[10],
        s[11],
        s[12],
        s[13],
        s[14],
        s[15],
    ];
    assert(a@ =~= s@);
    a
}

/// The 8 bytes of a slice.
pub fn array8(s: &[u8]) -> (a: [u8; 8])
    requires
        s@.len() == 8,
    ensures
        a@ == s@,
{
    let a: [u8; 8] = [s[0], s[1], s[2], s[3], s[4], s[5], s[6], s[7]];
    assert(a@ =~= s@);
    a
}

/// The TLVs that are not of the type.
pub open spec fn without(tlvs: Seq<TlvView>, ty: u8) -> Seq<TlvView>
    decreases tlvs.len(),
{
    if tlvs.len() == 0 {
        Seq::empty()
    } else if tlvs.last().ty == ty {
        without(tlvs.drop_last(), ty)
    } else {
        without(tlvs.drop_last(), ty).push(tlvs.last())
    }
}

/// Removing a type leaves no value of it and every value of the others.
pub proof fn law_without_removes_only_the_type(tlvs: Seq<TlvView>, ty: u8, other: u8)
    ensures
        last_value_of(without(tlvs, ty), ty) is None,
        other != ty ==> last_value_of(without(tlvs, ty), other) == last_value_of(tlvs, other),
    decreases tlvs.len(),
{
    if tlvs.len() > 0 {
        law_without_removes_only_the_type(tlvs.drop_last(), ty, other);
        if tlvs.last().ty != ty {
            assert(without(tlvs, ty).drop_last() =~= without(tlvs.drop_last(), ty));
        }
    }
}

/// The error for a PSKc TLV that is absent or has another length.
pub open spec fn no_pskc() -> ErrorView {
    ErrorView::Dataset("active dataset does not include a PSKc"@)
}

/// The error for a mesh-local prefix of another length.
pub open spec fn bad_mesh_local_prefix() -> ErrorView {
    ErrorView::Dataset("invalid mesh-local prefix"@)
}

/// A list of dataset TLVs.
pub struct Dataset {
    tlvs: TlvSet,
}

impl View for Dataset {
    type V = Seq<TlvView>;

    closed spec fn view(&self) -> Seq<TlvView> {
        self.tlvs@
    }
}

impl Clone for Dataset {
    fn clone(&self) -> (dataset: Self)
        ensures
            dataset@ == self@,
    {
        let mut entries: Vec<TlvEntry> = Vec::new();
        let mut i: usize = 0;
        while i < self.tlvs.entries.len()
            invariant
                i <= self.tlvs.entries@.len(),
                views(entries@) == self@.take(i as int),
            decreases self.tlvs.entries@.len() - i,
        {
            let ghost before = entries@;
            let entry = self.tlvs.entries[i].clone();
            proof {
                assert(views(before.push(entry)) =~= views(before).push(entry@));
                assert(self@.take(i + 1) =~= self@.take(i as int).push(entry@));
            }
            entries.push(entry);
            i = i + 1;
        }
        assert(self@.take(i as int) =~= self@);
        Dataset { tlvs: TlvSet { entries } }
    }
}

impl Dataset {
    /// Reads a dataset; fails where the bytes are no TLVs.
    pub fn from_bytes(bytes: &[u8]) -> (result: Result<Dataset, Error>)
        ensures
            match result {
                Ok(dataset) => tlvs_in(bytes@) == Some(dataset@),
                Err(error) => tlvs_in(bytes@) is None && error@ == malformed_tlvs(),
            },
    {
        match TlvSet::parse(bytes) {
            Ok(tlvs) => Ok(Dataset { tlvs }),
            Err(error) => Err(error),
        }
    }

    /// The dataset on the wire; fails where a value is too long.
    pub fn to_bytes(&self) -> (result: Result<Vec<u8>, Error>)
        ensures
            match result {
                Ok(bytes) => bytes@ == tlvs_encoding(self@) && forall|i: int|
                    0 <= i < self@.len() ==> (#[trigger] self@[i]).value.len() <= 0xffff,
                Err(error) => error@ == oversized_tlv() && exists|i: int|
                    0 <= i < self@.len() && (#[trigger] self@[i]).value.len() > 0xffff,
            },
    {
        let mut out: Vec<u8> = Vec::new();
        let mut i: usize = 0;
        while i < self.tlvs.entries.len()
            invariant
                i <= self.tlvs.entries@.len(),
                out@ == tlvs_encoding(self@.take(i as int)),
                forall|j: int| 0 <= j < i ==> (#[trigger] self@[j]).value.len() <= 0xffff,
            decreases self.tlvs.entries@.len() - i,
        {
            proof {
                assert(self@.take(i + 1).drop_last() =~= self@.take(i as int));
            }
            match self.tlvs.entries[i].encode(&mut out) {
                Err(error) => {
                    assert(self@[i as int].value.len() > 0xffff);
                    return Err(error);
                },
                Ok(_) => {},
            }
            i = i + 1;
        }
        assert(self@.take(i as int) =~= self@);
        Ok(out)
    }

    /// The value of the last TLV of the type.
    pub fn raw(&self, ty: u8) -> (value: Option<&[u8]>)
        ensures
            match (value, last_value_of(self@, ty)) {
                (Some(value), Some(expected)) => value@ == expected,
                (None, None) => true,
                _ => false,
            },
    {
        self.tlvs.last_value(ty)
    }

    /// Removes every TLV of the type.
    pub fn remove_all(&mut self, ty: u8)
        ensures
            final(self)@ == without(old(self)@, ty),
    {
        let mut kept: Vec<TlvEntry> = Vec::new();
        let mut i: usize = 0;
        assert(self@.take(0) =~= Seq::<TlvView>::empty());
        assert(views(kept@) =~= Seq::<TlvView>::empty());
        while i < self.tlvs.entries.len()
            invariant
                i <= self.tlvs.entries@.len(),
                views(kept@) == without(self@.take(i as int), ty),
            decreases self.tlvs.entries@.len() - i,
        {
            proof {
                assert(self@.take(i + 1).drop_last() =~= self@.take(i as int));
            }
            if self.tlvs.entries[i].ty != ty {
                let ghost before = kept@;
                let entry = self.tlvs.entries[i].clone();
                assert(views(before.push(entry)) =~= views(before).push(entry@));
                kept.push(entry);
            }
            i = i + 1;
        }
        assert(self@.take(i as int) =~= self@);
        self.tlvs.entries = kept;
    }

    /// The mesh-local prefix, where the dataset has one.
    pub fn mesh_local_prefix(&self) -> (result: Result<Option<[u8; 8]>, Error>)
        ensures
            match (result, last_value_of(self@, TLV_MESH_LOCAL_PREFIX)) {
                (Ok(None), None) => true,
                (Ok(Some(prefix)), Some(value)) => prefix@ == value,
                (Err(error), Some(value)) => value.len() != 8 && error@
                    == bad_mesh_local_prefix(),
                _ => false,
            },
    {
        match self.raw(TLV_MESH_LOCAL_PREFIX) {
            None => Ok(None),
            Some(value) => {
                if value.len() == 8 {
                    Ok(Some(array8(value)))
                } else {
                    Err(Error::Dataset(String::from_str("invalid mesh-local prefix")))
                }
            },
        }
    }
}

/// The PSKc of an active dataset; fails where it has none.
pub fn pskc_from_active_dataset(dataset: &Dataset) -> (result: Result<Pskc, Error>)
    ensures
        match result {
            Ok(pskc) => last_value_of(dataset@, TLV_PSKC) == Some(pskc@) && pskc@.len() == 16,
            Err(error) => (last_value_of(dataset@, TLV_PSKC) matches Some(value) ==> value.len()
                != 16) && error@ == no_pskc(),
        },
{
    if let Some(value) = dataset.raw(TLV_PSKC) {
        if value.len() == 16 {
            return Ok(Pskc::new(array16(value)));
        }
    }
    Err(Error::Dataset(String::from_str("active dataset does not include a PSKc")))
}

/// The error for a mandatory TLV that is absent.
pub open spec fn mandatory_tlv(name: Seq<char>) -> ErrorView {
    ErrorView::Dataset(name + " TLV is mandatory"@)
}

/// Validates that every listed TLV is present in `dataset`: the error names
/// the first that is not.
pub fn require_dataset_tlvs(dataset: &Dataset, required: &[(u8, &str)]) -> (result: Result<
    (),
    Error,
>)
    ensures
        match result {
            Ok(_) => forall|i: int|
                0 <= i < required@.len() ==> last_value_of(
                    dataset@,
                    (#[trigger] required@[i]).0,
                ) is Some,
            Err(error) => exists|i: int|
                0 <= i < required@.len() && last_value_of(
                    dataset@,
                    (#[trigger] required@[i]).0,
                ) is None && error@ == mandatory_tlv(required@[i].1@) && forall|j: int|
                    0 <= j < i ==> last_value_of(dataset@, (#[trigger] required@[j]).0) is Some,
        },
{
    let mut i: usize = 0;
    while i < required.len()
        invariant
            i <= required@.len(),
            forall|j: int|
                0 <= j < i ==> last_value_of(dataset@, (#[trigger] required@[j]).0) is Some,
        decreases required@.len() - i,
    {
        let entry: &(u8, &str) = &required[i];
        if dataset.raw(entry.0).is_none() {
            let text = String::from_str(entry.1).concat(" TLV is mandatory");
            assert(last_value_of(dataset@, required@[i as int].0) is None);
            return Err(Error::Dataset(text));
        }
        i = i + 1;
    }
    Ok(())
}

/// Returns `dataset` without the protocol-managed commissioner TLVs.
pub fn strip_managed_commissioner_tlvs(dataset: &Dataset) -> (stripped: Dataset)
    ensures
        stripped@ == without(
            without(dataset@, TLV_COMMISSIONER_SESSION_ID),
            TLV_BORDER_AGENT_LOCATOR,
        ),
{
    let mut out = dataset.clone();
    out.remove_all(TLV_COMMISSIONER_SESSION_ID);
    out.remove_all(TLV_BORDER_AGENT_LOCATOR);
    out
}

/// A dataset without the TLVs that the protocol manages has neither a session
/// ID (type 11) nor a border agent locator (type 9), and the same value of
/// every other type.
pub proof fn law_only_managed_tlvs_are_stripped(tlvs: Seq<TlvView>, ty: u8)
    ensures
        ({
            let stripped = without(
                without(tlvs, TLV_COMMISSIONER_SESSION_ID),
                TLV_BORDER_AGENT_LOCATOR,
            );
            last_value_of(stripped, ty) == if ty == 9 || ty == 11 {
                None
            } else {
                last_value_of(tlvs, ty)
            }
        }),
{
    let once = without(tlvs, TLV_COMMISSIONER_SESSION_ID);
    law_without_removes_only_the_type(tlvs, TLV_COMMISSIONER_SESSION_ID, ty);
    law_without_removes_only_the_type(once, TLV_BORDER_AGENT_LOCATOR, ty);
}

} // verus!
