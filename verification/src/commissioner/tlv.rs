//! MeshCoP type-length-value lists.

use vstd::prelude::*;

use crate::bytes::{be_bytes, be_value, copy_range, get_be, put_all, put_be, views};
use crate::commissioner::error::{Error, ErrorView};
use crate::secret::wipe_vec;

verus! {

/// Length byte that announces a length in the two bytes behind it.
pub const EXTENDED_LENGTH: u8 = 0xff;

/// One TLV. Its value may be a secret, so it is wiped when it is dropped.
#[derive(Debug, PartialEq, Eq)]
pub struct TlvEntry {
    pub ty: u8,
    pub value: Vec<u8>,
}

/// [`TlvEntry`] with its value as a sequence.
#[verifier::ext_equal]
pub struct TlvView {
    pub ty: u8,
    pub value: Seq<u8>,
}

impl View for TlvEntry {
    type V = TlvView;

    open spec fn view(&self) -> TlvView {
        TlvView { ty: self.ty, value: self.value@ }
    }
}

impl TlvView {
    /// The TLV on the wire: values of up to 254 bytes have a one-byte length,
    /// longer ones the extended form.
    pub open spec fn encoding(self) -> Seq<u8> {
        if self.value.len() < 255 {
            seq![self.ty, self.value.len() as u8] + self.value
        } else {
            seq![self.ty, EXTENDED_LENGTH] + be_bytes(self.value.len(), 2) + self.value
        }
    }
}

/// The TLV that `b` starts with, and its length on the wire.
pub open spec fn tlv_at(b: Seq<u8>) -> Option<(TlvView, nat)> {
    if b.len() < 2 {
        None
    } else if b[1] != EXTENDED_LENGTH {
        if b.len() < 2 + b[1] {
            None
        } else {
            Some((TlvView { ty: b[0], value: b.subrange(2, 2 + b[1]) }, (2 + b[1]) as nat))
        }
    } else if b.len() < 4 {
        None
    } else {
        let length = be_value(b.subrange(2, 4));
        if b.len() < 4 + length {
            None
        } else {
            Some((TlvView { ty: b[0], value: b.subrange(4, 4 + length as int) }, 4 + length))
        }
    }
}

/// The TLVs that fill `b`, or `None` where `b` is no sequence of TLVs.
pub open spec fn tlvs_in(b: Seq<u8>) -> Option<Seq<TlvView>>
    decreases b.len(),
{
    if b.len() == 0 {
        Some(Seq::empty())
    } else {
        match tlv_at(b) {
            None => None,
            Some((tlv, length)) => match tlvs_in(b.skip(length as int)) {
                None => None,
                Some(rest) => Some(seq![tlv] + rest),
            },
        }
    }
}

/// The encodings of the TLVs, one after the other.
pub open spec fn tlvs_encoding(tlvs: Seq<TlvView>) -> Seq<u8>
    decreases tlvs.len(),
{
    if tlvs.len() == 0 {
        Seq::empty()
    } else {
        tlvs_encoding(tlvs.drop_last()) + tlvs.last().encoding()
    }
}

/// The value of the last TLV of the type.
pub open spec fn last_value_of(tlvs: Seq<TlvView>, ty: u8) -> Option<Seq<u8>>
    decreases tlvs.len(),
{
    if tlvs.len() == 0 {
        None
    } else if tlvs.last().ty == ty {
        Some(tlvs.last().value)
    } else {
        last_value_of(tlvs.drop_last(), ty)
    }
}

/// The error for a payload that is no sequence of TLVs.
pub open spec fn malformed_tlvs() -> ErrorView {
    ErrorView::Dataset("malformed TLV"@)
}

/// The error for a value of more than 65535 bytes.
pub open spec fn oversized_tlv() -> ErrorView {
    ErrorView::Dataset("TLV value is too long"@)
}

/// Parsing an encoded TLV gives the TLV back, whatever follows it.
pub proof fn law_encoded_tlv_parses(tlv: TlvView, rest: Seq<u8>)
    requires
        tlv.value.len() <= 0xffff,
    ensures
        tlv_at(tlv.encoding() + rest) == Some((tlv, tlv.encoding().len())),
        tlv.encoding().len() >= 2,
{
    let b = tlv.encoding() + rest;
    let n = tlv.value.len();
    if n < 255 {
        assert(b[1] == n as u8);
        assert(b.subrange(2, 2 + n as int) =~= tlv.value);
    } else {
        crate::bytes::lemma_be_bytes(n, 2);
        reveal_with_fuel(crate::bytes::be_limit, 3);
        assert(b[1] == EXTENDED_LENGTH);
        assert(b.subrange(2, 4) =~= be_bytes(n, 2));
        assert(b.subrange(4, 4 + n as int) =~= tlv.value);
    }
}

proof fn lemma_tlvs_prefix(tlvs: Seq<TlvView>, rest: Seq<u8>)
    requires
        forall|i: int| 0 <= i < tlvs.len() ==> (#[trigger] tlvs[i]).value.len() <= 0xffff,
    ensures
        tlvs_in(tlvs_encoding(tlvs) + rest) == (match tlvs_in(rest) {
            None => None,
            Some(more) => Some(tlvs + more),
        }),
    decreases tlvs.len(),
{
    if tlvs.len() == 0 {
        assert(tlvs_encoding(tlvs) + rest =~= rest);
        assert(forall|more: Seq<TlvView>| tlvs + more =~= more);
    } else {
        let init = tlvs.drop_last();
        let last = tlvs.last();
        assert(last == tlvs[tlvs.len() - 1]);
        assert forall|i: int| 0 <= i < init.len() implies (#[trigger] init[i]).value.len()
            <= 0xffff by {
            assert(init[i] == tlvs[i]);
        }
        law_encoded_tlv_parses(last, rest);
        assert((last.encoding() + rest).skip(last.encoding().len() as int) =~= rest);
        lemma_tlvs_prefix(init, last.encoding() + rest);
        assert(tlvs_encoding(tlvs) + rest =~= tlvs_encoding(init) + (last.encoding() + rest));
        assert(forall|more: Seq<TlvView>| init + (seq![last] + more) =~= tlvs + more);
    }
}

/// Parsing an encoded TLV list gives the list back.
pub proof fn law_tlvs_round_trip(tlvs: Seq<TlvView>)
    requires
        forall|i: int| 0 <= i < tlvs.len() ==> (#[trigger] tlvs[i]).value.len() <= 0xffff,
    ensures
        tlvs_in(tlvs_encoding(tlvs)) == Some(tlvs),
{
    lemma_tlvs_prefix(tlvs, Seq::empty());
    assert(tlvs_encoding(tlvs) + Seq::<u8>::empty() =~= tlvs_encoding(tlvs));
    assert(tlvs + Seq::<TlvView>::empty() =~= tlvs);
}

impl Clone for TlvEntry {
    fn clone(&self) -> (entry: Self)
        ensures
            entry@ == self@,
    {
        let value = crate::bytes::copy_all(self.value.as_slice());
        TlvEntry { ty: self.ty, value }
    }
}

impl Drop for TlvEntry {
    fn drop(&mut self)
        opens_invariants none
        no_unwind
    {
        wipe_vec(&mut self.value);
    }
}

impl TlvEntry {
    /// A TLV with a copy of the value.
    pub fn new(ty: u8, value: &[u8]) -> (entry: TlvEntry)
        ensures
            entry@ == (TlvView { ty, value: value@ }),
    {
        TlvEntry { ty, value: crate::bytes::copy_all(value) }
    }

    /// Appends the TLV on the wire; fails where the value is too long.
    pub fn encode(&self, out: &mut Vec<u8>) -> (result: Result<(), Error>)
        ensures
            match result {
                Ok(_) => self@.value.len() <= 0xffff && final(out)@ == old(out)@
                    + self@.encoding(),
                Err(error) => self@.value.len() > 0xffff && error@ == oversized_tlv()
                    && final(out)@ == old(out)@,
            },
    {
        let n: usize = self.value.len();
        if n > 0xffff {
            return Err(Error::Dataset(String::from_str("TLV value is too long")));
        }
        out.push(self.ty);
        if n < 255 {
            out.push(n as u8);
        } else {
            out.push(EXTENDED_LENGTH);
            put_be(out, n as u64, 2);
        }
        put_all(out, self.value.as_slice());
        assert(out@ =~= old(out)@ + self@.encoding());
        Ok(())
    }

    fn parse_at(b: &[u8], from: usize) -> (result: Option<(TlvEntry, usize)>)
        requires
            from <= b@.len(),
        ensures
            match (result, tlv_at(b@.skip(from as int))) {
                (Some((entry, end)), Some((view, length))) => entry@ == view && end == from
                    + length && from < end <= b@.len(),
                (None, None) => true,
                _ => false,
            },
    {
        let ghost rest = b@.skip(from as int);
        if b.len() - from < 2 {
            return None;
        }
        let mut start: usize = from + 2;
        let mut length: usize = b[from + 1] as usize;
        if b[from + 1] == EXTENDED_LENGTH {
            if b.len() - from < 4 {
                return None;
            }
            proof {
                reveal_with_fuel(crate::bytes::be_limit, 3);
                assert(b@.subrange(from + 2, from + 4) =~= rest.subrange(2, 4));
            }
            length = get_be(b, from + 2, 2) as usize;
            start = from + 4;
        }
        if b.len() - start < length {
            return None;
        }
        let end: usize = start + length;
        let value = copy_range(b, start, end);
        assert(value@ =~= rest.subrange(start - from, end - from));
        Some((TlvEntry { ty: b[from], value }, end))
    }
}

/// A list of TLVs in the order of the wire.
#[derive(Debug, PartialEq, Eq)]
pub struct TlvSet {
    pub entries: Vec<TlvEntry>,
}

impl View for TlvSet {
    type V = Seq<TlvView>;

    open spec fn view(&self) -> Seq<TlvView> {
        views(self.entries@)
    }
}

impl TlvSet {
    /// The TLVs of a payload; fails where it is not made of whole TLVs.
    pub fn parse(payload: &[u8]) -> (result: Result<TlvSet, Error>)
        ensures
            match result {
                Ok(set) => tlvs_in(payload@) == Some(set@),
                Err(error) => tlvs_in(payload@) is None && error@ == malformed_tlvs(),
            },
    {
        let mut entries: Vec<TlvEntry> = Vec::new();
        let mut at: usize = 0;
        proof {
            assert(payload@.skip(0) =~= payload@);
            assert(forall|more: Seq<TlvView>| views(entries@) + more =~= more);
        }
        while at < payload.len()
            invariant
                at <= payload@.len(),
                tlvs_in(payload@) == (match tlvs_in(payload@.skip(at as int)) {
                    None => None,
                    Some(more) => Some(views(entries@) + more),
                }),
            decreases payload@.len() - at,
        {
            let ghost before = entries@;
            let ghost rest = payload@.skip(at as int);
            match TlvEntry::parse_at(payload, at) {
                None => {
                    return Err(Error::Dataset(String::from_str("malformed TLV")));
                },
                Some((entry, end)) => {
                    proof {
                        assert(rest.skip(end - at) =~= payload@.skip(end as int));
                        assert(views(before.push(entry)) =~= views(before) + seq![entry@]);
                        assert(forall|more: Seq<TlvView>|
                            views(before) + (seq![entry@] + more) =~= views(before.push(entry))
                                + more);
                    }
                    entries.push(entry);
                    at = end;
                },
            }
        }
        proof {
            assert(payload@.skip(at as int).len() == 0);
            assert(views(entries@) + Seq::<TlvView>::empty() =~= views(entries@));
        }
        Ok(TlvSet { entries })
    }

    /// The value of the last TLV of the type.
    pub fn last_value(&self, ty: u8) -> (value: Option<&[u8]>)
        ensures
            match (value, last_value_of(self@, ty)) {
                (Some(value), Some(expected)) => value@ == expected,
                (None, None) => true,
                _ => false,
            },
    {
        let mut i: usize = self.entries.len();
        proof {
            assert(self@.take(i as int) =~= self@);
        }
        while i > 0
            invariant
                i <= self.entries@.len(),
                last_value_of(self@.take(i as int), ty) == last_value_of(self@, ty),
            decreases i,
        {
            proof {
                assert(self@.take(i as int).drop_last() =~= self@.take(i - 1));
                assert(self@.take(i as int).last() == self.entries@[i - 1]@);
            }
            i = i - 1;
            if self.entries[i].ty == ty {
                return Some(self.entries[i].value.as_slice());
            }
        }
        None
    }
}

/// Whether bytes break off within a TLV.
pub open spec fn breaks_off(b: Seq<u8>) -> bool {
    ||| b.len() == 1
    ||| b.len() >= 2 && b[1] < 0xff && b.len() < 2 + b[1]
    ||| 2 <= b.len() < 4 && b[1] == 0xff
    ||| b.len() >= 4 && b[1] == 0xff && b.len() < 4 + 0x100 * b[2] + b[3]
}

/// A list that breaks off within a TLV is no list, whatever stands before.
pub proof fn law_a_broken_list_is_refused(before: Seq<TlvView>, broken: Seq<u8>)
    requires
        forall|i: int| 0 <= i < before.len() ==> (#[trigger] before[i]).value.len() <= 0xffff,
        breaks_off(broken),
    ensures
        tlvs_in(tlvs_encoding(before) + broken) is None,
        tlvs_in(broken) is None,
{
    lemma_tlvs_prefix(before, broken);
    if broken.len() >= 4 {
        assert(broken.subrange(2, 4) =~= seq![broken[2], broken[3]]);
        crate::bytes::law_the_most_significant_byte_is_first(0, broken[2], broken[3], 0, 0);
    }
}

/// A length of two bytes is read for short values too.
pub proof fn law_an_extended_length_may_be_short(ty: u8, value: Seq<u8>, rest: Seq<u8>)
    requires
        value.len() <= 0xffff,
    ensures
        tlv_at(seq![ty, 0xffu8] + crate::bytes::high_low(value.len()) + value + rest) == Some(
            (TlvView { ty, value }, (4 + value.len()) as nat),
        ),
{
    let b = seq![ty, 0xffu8] + crate::bytes::high_low(value.len()) + value + rest;
    let n = value.len();
    assert(b.subrange(2, 4) =~= crate::bytes::high_low(n));
    crate::bytes::law_the_most_significant_byte_is_first(
        n,
        (n / 256) as u8,
        (n % 256) as u8,
        0,
        0,
    );
    assert(b.subrange(4, 4 + n as int) =~= value);
}

} // verus!
