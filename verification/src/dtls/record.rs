//! DTLS records (RFC 6347 section 4.1).

use vstd::prelude::*;

use crate::bytes::{be_bytes, be_value, copy_range, get_be, put_all, put_be, views};
use crate::dtls::error::{Error, ErrorView};

verus! {

/// The version number of DTLS 1.2.
pub const DTLS_1_2_VERSION: u16 = 0xfefd;

/// The version number of DTLS 1.0, which a peer may put in its first records.
pub const DTLS_1_0_VERSION: u16 = 0xfeff;

/// The largest record sequence number: it has 48 bits.
pub const MAX_SEQUENCE_NUMBER: u64 = 0xffff_ffff_ffff;

/// The largest record payload: its length has 16 bits.
pub const MAX_PAYLOAD_LEN: usize = 0xffff;

/// Maximum UDP datagram accepted by the drivers.
pub const MAX_DATAGRAM_SIZE: usize = 4096;

/// What a record carries.
#[derive(Debug, Clone, Copy, PartialEq, Eq, Structural)]
pub enum ContentType {
    ChangeCipherSpec,
    Alert,
    Handshake,
    ApplicationData,
}

impl ContentType {
    /// The number of the content type on the wire.
    pub open spec fn spec_code(self) -> u8 {
        match self {
            ContentType::ChangeCipherSpec => 20,
            ContentType::Alert => 21,
            ContentType::Handshake => 22,
            ContentType::ApplicationData => 23,
        }
    }

    /// The content type with the given number.
    pub open spec fn spec_from_code(code: u8) -> Option<ContentType> {
        if code == 20 {
            Some(ContentType::ChangeCipherSpec)
        } else if code == 21 {
            Some(ContentType::Alert)
        } else if code == 22 {
            Some(ContentType::Handshake)
        } else if code == 23 {
            Some(ContentType::ApplicationData)
        } else {
            None
        }
    }

    /// The number of the content type on the wire.
    pub fn code(self) -> (code: u8)
        ensures
            code == self.spec_code(),
    {
        match self {
            ContentType::ChangeCipherSpec => 20,
            ContentType::Alert => 21,
            ContentType::Handshake => 22,
            ContentType::ApplicationData => 23,
        }
    }

    /// The content type with the given number.
    pub fn from_code(code: u8) -> (content_type: Option<ContentType>)
        ensures
            content_type == ContentType::spec_from_code(code),
    {
        match code {
            20 => Some(ContentType::ChangeCipherSpec),
            21 => Some(ContentType::Alert),
            22 => Some(ContentType::Handshake),
            23 => Some(ContentType::ApplicationData),
            _ => None,
        }
    }
}

/// The fields in front of a record's payload; the length is the payload's.
#[derive(Debug, Clone, Copy, PartialEq, Eq, Structural)]
pub struct RecordHeader {
    pub content_type: ContentType,
    pub version: u16,
    pub epoch: u16,
    pub sequence_number: u64,
}

impl RecordHeader {
    /// Length of an encoded header.
    pub const LEN: usize = 13;
}

/// One DTLS record.
#[derive(Debug, PartialEq, Eq)]
pub struct DtlsRecord {
    pub header: RecordHeader,
    pub payload: Vec<u8>,
}

/// [`DtlsRecord`] with its payload as a sequence.
#[verifier::ext_equal]
pub struct RecordView {
    pub header: RecordHeader,
    pub payload: Seq<u8>,
}

impl View for DtlsRecord {
    type V = RecordView;

    open spec fn view(&self) -> RecordView {
        RecordView { header: self.header, payload: self.payload@ }
    }
}

impl RecordView {
    /// A DTLS 1.2 record.
    pub open spec fn dtls12(
        content_type: ContentType,
        epoch: u16,
        sequence_number: u64,
        payload: Seq<u8>,
    ) -> RecordView {
        RecordView {
            header: RecordHeader { content_type, version: DTLS_1_2_VERSION, epoch, sequence_number },
            payload,
        }
    }

    /// Whether the fields fit their places on the wire.
    pub open spec fn fits(self) -> bool {
        &&& self.header.sequence_number <= MAX_SEQUENCE_NUMBER
        &&& self.payload.len() <= MAX_PAYLOAD_LEN
    }

    /// Whether the version is one that is understood.
    pub open spec fn known_version(self) -> bool {
        self.header.version == DTLS_1_2_VERSION || self.header.version == DTLS_1_0_VERSION
    }

    /// The record on the wire.
    pub open spec fn encoding(self) -> Seq<u8> {
        seq![self.header.content_type.spec_code()] + be_bytes(self.header.version as nat, 2)
            + be_bytes(self.header.epoch as nat, 2) + be_bytes(
            self.header.sequence_number as nat,
            6,
        ) + be_bytes(self.payload.len(), 2) + self.payload
    }
}

/// The record that `b` starts with, and its length on the wire.
pub open spec fn record_at(b: Seq<u8>) -> Option<(RecordView, nat)> {
    if b.len() < 13 {
        None
    } else {
        let version = be_value(b.subrange(1, 3)) as u16;
        let length = be_value(b.subrange(11, 13));
        match ContentType::spec_from_code(b[0]) {
            None => None,
            Some(content_type) => if (version != DTLS_1_2_VERSION && version != DTLS_1_0_VERSION)
                || b.len() < 13 + length {
                None
            } else {
                Some(
                    (
                        RecordView {
                            header: RecordHeader {
                                content_type,
                                version,
                                epoch: be_value(b.subrange(3, 5)) as u16,
                                sequence_number: be_value(b.subrange(5, 11)) as u64,
                            },
                            payload: b.subrange(13, 13 + length as int),
                        },
                        13 + length,
                    ),
                )
            },
        }
    }
}

/// The records that fill `b`, or `None` where `b` is no sequence of records.
pub open spec fn records_in(b: Seq<u8>) -> Option<Seq<RecordView>>
    decreases b.len(),
{
    if b.len() == 0 {
        Some(Seq::empty())
    } else {
        match record_at(b) {
            None => None,
            Some((record, length)) => match records_in(b.skip(length as int)) {
                None => None,
                Some(rest) => Some(seq![record] + rest),
            },
        }
    }
}

/// The encodings of `records`, one after the other.
pub open spec fn datagram_of(records: Seq<RecordView>) -> Seq<u8>
    decreases records.len(),
{
    if records.len() == 0 {
        Seq::empty()
    } else {
        datagram_of(records.drop_last()) + records.last().encoding()
    }
}

/// Whether every record fits its place on the wire.
pub open spec fn all_fit(records: Seq<RecordView>) -> bool {
    forall|i: int| 0 <= i < records.len() ==> (#[trigger] records[i]).fits()
}

/// The error for bytes that are not records.
pub open spec fn malformed_record() -> ErrorView {
    ErrorView::Crypto("malformed DTLS record"@)
}

/// The error for a record whose fields do not fit the wire format.
pub open spec fn oversized_record() -> ErrorView {
    ErrorView::Crypto("DTLS record is too large"@)
}

/// The header of an encoded record takes 13 bytes.
pub proof fn lemma_encoding_len(record: RecordView)
    ensures
        record.encoding().len() == 13 + record.payload.len(),
{
    crate::bytes::lemma_be_bytes(record.header.version as nat, 2);
    crate::bytes::lemma_be_bytes(record.header.epoch as nat, 2);
    crate::bytes::lemma_be_bytes(record.header.sequence_number as nat, 6);
    crate::bytes::lemma_be_bytes(record.payload.len(), 2);
}

/// Parsing an encoded record gives the record back, whatever follows it.
pub proof fn law_encoded_record_parses(record: RecordView, rest: Seq<u8>)
    requires
        record.fits(),
        record.known_version(),
    ensures
        record_at(record.encoding() + rest) == Some((record, record.encoding().len())),
{
    let h = record.header;
    let b = record.encoding() + rest;
    lemma_encoding_len(record);
    crate::bytes::lemma_be_bytes(h.version as nat, 2);
    crate::bytes::lemma_be_bytes(h.epoch as nat, 2);
    crate::bytes::lemma_be_bytes(h.sequence_number as nat, 6);
    crate::bytes::lemma_be_bytes(record.payload.len(), 2);
    reveal_with_fuel(crate::bytes::be_limit, 7);
    assert(b[0] == h.content_type.spec_code());
    assert(b.subrange(1, 3) =~= be_bytes(h.version as nat, 2));
    assert(b.subrange(3, 5) =~= be_bytes(h.epoch as nat, 2));
    assert(b.subrange(5, 11) =~= be_bytes(h.sequence_number as nat, 6));
    assert(b.subrange(11, 13) =~= be_bytes(record.payload.len(), 2));
    assert(b.subrange(13, 13 + record.payload.len() as int) =~= record.payload);
}

/// Records that came off the wire fit their place on it.
pub(crate) proof fn lemma_parsed_records_fit(b: Seq<u8>)
    requires
        records_in(b) is Some,
    ensures
        all_fit(records_in(b)->0),
    decreases b.len(),
{
    if b.len() > 0 {
        let (record, length) = record_at(b)->0;
        let rest = b.skip(length as int);
        lemma_parsed_records_fit(rest);
        crate::bytes::lemma_be_value(b.subrange(5, 11));
        crate::bytes::lemma_be_value(b.subrange(11, 13));
        reveal_with_fuel(crate::bytes::be_limit, 7);
        let tail = records_in(rest)->0;
        let all = seq![record] + tail;
        assert forall|i: int| 0 <= i < all.len() implies (#[trigger] all[i]).fits() by {
            if i > 0 {
                assert(all[i] == tail[i - 1]);
            }
        }
    }
}

proof fn lemma_records_prepend(record: RecordView, rest: Seq<u8>)
    requires
        record.fits(),
        record.known_version(),
    ensures
        records_in(record.encoding() + rest) == (match records_in(rest) {
            None => None,
            Some(records) => Some(seq![record] + records),
        }),
{
    lemma_encoding_len(record);
    law_encoded_record_parses(record, rest);
    assert((record.encoding() + rest).skip(record.encoding().len() as int) =~= rest);
}

proof fn lemma_datagram_prefix(records: Seq<RecordView>, rest: Seq<u8>)
    requires
        forall|i: int|
            0 <= i < records.len() ==> (#[trigger] records[i]).fits()
                && records[i].known_version(),
    ensures
        records_in(datagram_of(records) + rest) == (match records_in(rest) {
            None => None,
            Some(more) => Some(records + more),
        }),
    decreases records.len(),
{
    if records.len() == 0 {
        assert(datagram_of(records) + rest =~= rest);
        assert(forall|more: Seq<RecordView>| records + more =~= more);
    } else {
        let init = records.drop_last();
        let last = records.last();
        assert(last == records[records.len() - 1]);
        assert forall|i: int| 0 <= i < init.len() implies (#[trigger] init[i]).fits()
            && init[i].known_version() by {
            assert(init[i] == records[i]);
        }
        lemma_records_prepend(last, rest);
        lemma_datagram_prefix(init, last.encoding() + rest);
        assert(datagram_of(records) + rest =~= datagram_of(init) + (last.encoding() + rest));
        assert(forall|more: Seq<RecordView>| init + (seq![last] + more) =~= records + more);
    }
}

/// Parsing a datagram gives back the records that it was encoded from.
pub proof fn law_datagram_round_trip(records: Seq<RecordView>)
    requires
        forall|i: int|
            0 <= i < records.len() ==> (#[trigger] records[i]).fits()
                && records[i].known_version(),
    ensures
        records_in(datagram_of(records)) == Some(records),
{
    lemma_datagram_prefix(records, Seq::empty());
    assert(datagram_of(records) + Seq::<u8>::empty() =~= datagram_of(records));
    assert(records + Seq::<RecordView>::empty() =~= records);
}

impl Clone for DtlsRecord {
    fn clone(&self) -> (record: Self)
        ensures
            record@ == self@,
    {
        let payload = crate::bytes::copy_all(self.payload.as_slice());
        DtlsRecord { header: self.header, payload }
    }
}

impl DtlsRecord {
    /// Builds a DTLS 1.2 record; fails where a field does not fit the wire
    /// format.
    pub fn new(
        content_type: ContentType,
        epoch: u16,
        sequence_number: u64,
        payload: Vec<u8>,
    ) -> (result: Result<DtlsRecord, Error>)
        ensures
            ({
                let record = RecordView::dtls12(content_type, epoch, sequence_number, payload@);
                match result {
                    Ok(built) => record.fits() && built@ == record,
                    Err(error) => !record.fits() && error@ == oversized_record(),
                }
            }),
    {
        if sequence_number > MAX_SEQUENCE_NUMBER || payload.len() > MAX_PAYLOAD_LEN {
            return Err(Error::crypto("DTLS record is too large"));
        }
        Ok(
            DtlsRecord {
                header: RecordHeader {
                    content_type,
                    version: DTLS_1_2_VERSION,
                    epoch,
                    sequence_number,
                },
                payload,
            },
        )
    }

    /// The record on the wire; fails where a field does not fit.
    pub fn encode(&self) -> (result: Result<Vec<u8>, Error>)
        ensures
            match result {
                Ok(bytes) => self@.fits() && bytes@ == self@.encoding(),
                Err(error) => !self@.fits() && error@ == oversized_record(),
            },
    {
        if self.header.sequence_number > MAX_SEQUENCE_NUMBER || self.payload.len()
            > MAX_PAYLOAD_LEN {
            return Err(Error::crypto("DTLS record is too large"));
        }
        let mut out: Vec<u8> = Vec::new();
        out.push(self.header.content_type.code());
        put_be(&mut out, self.header.version as u64, 2);
        put_be(&mut out, self.header.epoch as u64, 2);
        put_be(&mut out, self.header.sequence_number, 6);
        put_be(&mut out, self.payload.len() as u64, 2);
        put_all(&mut out, self.payload.as_slice());
        assert(out@ =~= self@.encoding());
        Ok(out)
    }

    /// The datagram that carries `records`; fails where a record does not fit.
    pub fn encode_datagram(records: &[DtlsRecord]) -> (result: Result<Vec<u8>, Error>)
        ensures
            match result {
                Ok(bytes) => all_fit(views(records@)) && bytes@ == datagram_of(views(records@)),
                Err(error) => !all_fit(views(records@)) && error@ == oversized_record(),
            },
    {
        let mut out: Vec<u8> = Vec::new();
        let mut i: usize = 0;
        while i < records.len()
            invariant
                i <= records@.len(),
                all_fit(views(records@).take(i as int)),
                out@ == datagram_of(views(records@).take(i as int)),
            decreases records@.len() - i,
        {
            match records[i].encode() {
                Err(error) => {
                    proof {
                        assert(!views(records@)[i as int].fits());
                    }
                    return Err(error);
                },
                Ok(bytes) => {
                    put_all(&mut out, bytes.as_slice());
                },
            }
            proof {
                let done = views(records@).take(i as int);
                let more = views(records@).take(i + 1);
                assert(more.drop_last() =~= done);
                assert forall|j: int| 0 <= j < more.len() implies (#[trigger] more[j]).fits() by {
                    if j < i {
                        assert(done[j].fits());
                    }
                }
            }
            i = i + 1;
        }
        proof {
            assert(views(records@).take(i as int) =~= views(records@));
        }
        Ok(out)
    }

    /// Reads the record at `from`; gives it with the position behind it.
    fn parse_at(b: &[u8], from: usize) -> (result: Option<(DtlsRecord, usize)>)
        requires
            from <= b@.len(),
        ensures
            match (result, record_at(b@.skip(from as int))) {
                (Some((record, end)), Some((view, length))) => record@ == view && end == from
                    + length && end <= b@.len(),
                (None, None) => true,
                _ => false,
            },
    {
        let ghost rest = b@.skip(from as int);
        if b.len() - from < 13 {
            return None;
        }
        proof {
            reveal_with_fuel(crate::bytes::be_limit, 7);
            assert(b@.subrange(from + 1, from + 3) =~= rest.subrange(1, 3));
            assert(b@.subrange(from + 3, from + 5) =~= rest.subrange(3, 5));
            assert(b@.subrange(from + 5, from + 11) =~= rest.subrange(5, 11));
            assert(b@.subrange(from + 11, from + 13) =~= rest.subrange(11, 13));
        }
        let version = get_be(b, from + 1, 2) as u16;
        let epoch = get_be(b, from + 3, 2) as u16;
        let sequence_number: u64 = get_be(b, from + 5, 6);
        let length: usize = get_be(b, from + 11, 2) as usize;
        match ContentType::from_code(b[from]) {
            None => None,
            Some(content_type) => {
                if (version != DTLS_1_2_VERSION && version != DTLS_1_0_VERSION) || b.len() - from
                    - 13 < length {
                    return None;
                }
                let end: usize = from + 13 + length;
                let payload = copy_range(b, from + 13, end);
                assert(payload@ =~= rest.subrange(13, 13 + length as int));
                Some(
                    (
                        DtlsRecord {
                            header: RecordHeader { content_type, version, epoch, sequence_number },
                            payload,
                        },
                        end,
                    ),
                )
            },
        }
    }

    /// The records of a datagram; fails where it is not made of whole records.
    pub fn parse_datagram(datagram: &[u8]) -> (result: Result<Vec<DtlsRecord>, Error>)
        ensures
            match result {
                Ok(records) => records_in(datagram@) == Some(views(records@)),
                Err(error) => records_in(datagram@) is None && error@ == malformed_record(),
            },
    {
        let mut records: Vec<DtlsRecord> = Vec::new();
        let mut at: usize = 0;
        proof {
            assert(datagram@.skip(0) =~= datagram@);
            assert(forall|more: Seq<RecordView>| views(records@) + more =~= more);
        }
        while at < datagram.len()
            invariant
                at <= datagram@.len(),
                records_in(datagram@) == (match records_in(datagram@.skip(at as int)) {
                    None => None,
                    Some(more) => Some(views(records@) + more),
                }),
            decreases datagram@.len() - at,
        {
            let ghost before = records@;
            let ghost rest = datagram@.skip(at as int);
            match DtlsRecord::parse_at(datagram, at) {
                None => {
                    return Err(Error::crypto("malformed DTLS record"));
                },
                Some((record, end)) => {
                    proof {
                        assert(rest.skip(end - at) =~= datagram@.skip(end as int));
                        assert(views(before.push(record)) =~= views(before) + seq![record@]);
                        assert(forall|more: Seq<RecordView>|
                            views(before) + (seq![record@] + more) =~= views(before.push(record))
                                + more);
                    }
                    records.push(record);
                    at = end;
                },
            }
        }
        proof {
            assert(datagram@.skip(at as int).len() == 0);
            assert(views(records@) + Seq::<RecordView>::empty() =~= views(records@));
        }
        Ok(records)
    }

    /// Takes one received datagram: `length` is what the transport reports,
    /// which exceeds the buffer where the datagram was truncated, and
    /// `expected_peer` is false where it came from somebody else.
    ///
    /// Gives the records, or `None` where the datagram is to be dropped.
    pub fn accept_datagram(buffer: &[u8], length: usize, expected_peer: bool) -> (records: Option<
        Vec<DtlsRecord>,
    >)
        ensures
            match records {
                Some(records) => expected_peer && length <= buffer@.len() && records_in(
                    buffer@.take(length as int),
                ) == Some(views(records@)),
                None => !expected_peer || length > buffer@.len() || records_in(
                    buffer@.take(length as int),
                ) is None,
            },
    {
        if !expected_peer || length > buffer.len() {
            return None;
        }
        match DtlsRecord::parse_datagram(vstd::slice::slice_subrange(buffer, 0, length)) {
            Ok(records) => Some(records),
            Err(_) => None,
        }
    }
}

/// Copies a flight.
pub fn copy_records(records: &[DtlsRecord]) -> (out: Vec<DtlsRecord>)
    ensures
        views(out@) == views(records@),
{
    let mut out: Vec<DtlsRecord> = Vec::new();
    let mut i: usize = 0;
    while i < records.len()
        invariant
            i <= records@.len(),
            views(out@) == views(records@).take(i as int),
        decreases records@.len() - i,
    {
        let ghost before = out@;
        let record = records[i].clone();
        proof {
            assert(views(before.push(record)) =~= views(before).push(record@));
            assert(views(records@).take(i + 1) =~= views(records@).take(i as int).push(
                records@[i as int]@,
            ));
        }
        out.push(record);
        i = i + 1;
    }
    assert(views(records@).take(i as int) =~= views(records@));
    out
}

/// A datagram is records from its first byte to its last: one that ends in
/// bytes that are no record is refused, whatever stands before them.
pub proof fn law_a_broken_datagram_is_refused(before: Seq<RecordView>, broken: Seq<u8>)
    requires
        forall|i: int|
            0 <= i < before.len() ==> (#[trigger] before[i]).fits() && before[i].known_version(),
        0 < broken.len() < 13 || broken.len() >= 13 && broken.len() < 13 + 0x100 * broken[11]
            + broken[12],
    ensures
        records_in(datagram_of(before) + broken) is None,
        records_in(broken) is None,
{
    lemma_datagram_prefix(before, broken);
    if broken.len() >= 13 {
        assert(broken.subrange(11, 13) =~= seq![broken[11], broken[12]]);
        crate::bytes::law_the_most_significant_byte_is_first(0, broken[11], broken[12], 0, 0);
    }
}

} // verus!
