//! Handshake flight helpers shared by everything that retransmits flights.

use vstd::prelude::*;

use crate::bytes::views;
use crate::dtls::handshake::{
    any_of_type, has_type, messages_in, parse_unfragmented_handshake_messages, same_messages,
    HandshakeMessage, HandshakeType, MessageView,
};
use crate::dtls::record::{ContentType, DtlsRecord, RecordHeader, RecordView};

verus! {

/// `n` reduced to 64 bits.
pub open spec fn wrapped(n: int) -> u64 {
    (n % 0x1_0000_0000_0000_0000) as u64
}

/// Returns the next record sequence number and advances the counter.
pub fn take_record_sequence(next_sequence: &mut u64) -> (sequence: u64)
    ensures
        sequence == *old(next_sequence),
        *final(next_sequence) == wrapped(*old(next_sequence) + 1),
{
    let sequence: u64 = *next_sequence;
    *next_sequence = next_sequence.wrapping_add(1);
    sequence
}

/// How many of the records are plaintext records of epoch 0.
pub open spec fn plaintext_count(records: Seq<RecordView>) -> nat
    decreases records.len(),
{
    if records.len() == 0 {
        0
    } else {
        plaintext_count(records.drop_last()) + if records.last().header.epoch == 0 {
            1nat
        } else {
            0nat
        }
    }
}

/// `record` under another sequence number.
pub open spec fn with_sequence(record: RecordView, sequence_number: u64) -> RecordView {
    RecordView { header: RecordHeader { sequence_number, ..record.header }, ..record }
}

/// `records` with fresh sequence numbers from `next` on for the plaintext
/// records, in order.
pub open spec fn renumbered(records: Seq<RecordView>, next: u64) -> Seq<RecordView> {
    Seq::new(
        records.len(),
        |i: int|
            if records[i].header.epoch == 0 {
                with_sequence(records[i], wrapped(next + plaintext_count(records.take(i))))
            } else {
                records[i]
            },
    )
}

/// The sequence number that follows a renumbered flight.
pub open spec fn sequence_after(records: Seq<RecordView>, next: u64) -> u64 {
    wrapped(next + plaintext_count(records))
}

/// Assigns fresh epoch-0 sequence numbers to a flight before retransmission.
///
/// DTLS retransmits the same handshake messages in new records, so each
/// plaintext record takes the next number from `next_sequence`. Protected
/// epoch-1 records are left untouched; callers rebuild them instead.
pub fn renumber_epoch_zero_flight(records: &mut Vec<DtlsRecord>, next_sequence: &mut u64)
    ensures
        views(final(records)@) == renumbered(views(old(records)@), *old(next_sequence)),
        *final(next_sequence) == sequence_after(views(old(records)@), *old(next_sequence)),
{
    let ghost before = views(records@);
    let ghost first = *next_sequence;
    let mut i: usize = 0;
    while i < records.len()
        invariant
            i <= records@.len(),
            before == views(old(records)@),
            first == *old(next_sequence),
            before.len() == records@.len(),
            *next_sequence == wrapped(first + plaintext_count(before.take(i as int))),
            forall|j: int| i <= j < records@.len() ==> views(records@)[j] == before[j],
            forall|j: int|
                0 <= j < i ==> views(records@)[j] == renumbered(before, first)[j],
        decreases records@.len() - i,
    {
        proof {
            assert(before.take(i + 1).drop_last() =~= before.take(i as int));
            assert(views(records@)[i as int] == before[i as int]);
        }
        let mut header: RecordHeader = records[i].header;
        if header.epoch == 0 {
            header.sequence_number = take_record_sequence(next_sequence);
            let payload = crate::bytes::copy_all(records[i].payload.as_slice());
            let ghost held = records@;
            let renumbered_record = DtlsRecord { header, payload };
            records.set(i, renumbered_record);
            proof {
                assert(renumbered_record@ =~= renumbered(before, first)[i as int]);
                assert forall|j: int| 0 <= j < records@.len() && j != i implies views(records@)[j]
                    == views(held)[j] by {}
            }
        }
        i = i + 1;
    }
    assert(before.take(i as int) =~= before);
    assert(views(records@) =~= renumbered(before, first));
}

/// Renumbering changes nothing but the sequence numbers of plaintext records:
/// a retransmitted flight carries the same messages, and its plaintext records
/// are numbered upwards without a gap.
pub proof fn law_retransmission_keeps_messages(records: Seq<RecordView>, next: u64, i: int)
    requires
        0 <= i < records.len(),
    ensures
        renumbered(records, next).len() == records.len(),
        renumbered(records, next)[i].payload == records[i].payload,
        renumbered(records, next)[i].header.content_type == records[i].header.content_type,
        renumbered(records, next)[i].header.epoch == records[i].header.epoch,
        records[i].header.epoch != 0 ==> renumbered(records, next)[i] == records[i],
{
}

proof fn lemma_plaintext_count_grows(records: Seq<RecordView>, i: int, j: int)
    requires
        0 <= i < j <= records.len(),
        records[i].header.epoch == 0,
    ensures
        plaintext_count(records.take(i)) < plaintext_count(records.take(j)) <= j,
        plaintext_count(records.take(i)) <= i,
    decreases j,
{
    assert(records.take(j).drop_last() =~= records.take(j - 1));
    lemma_plaintext_count_bound(records, i);
    lemma_plaintext_count_bound(records, j);
    if i < j - 1 {
        lemma_plaintext_count_grows(records, i, j - 1);
    }
}

proof fn lemma_plaintext_count_bound(records: Seq<RecordView>, i: int)
    requires
        0 <= i <= records.len(),
    ensures
        plaintext_count(records.take(i)) <= i,
    decreases i,
{
    if i > 0 {
        assert(records.take(i).drop_last() =~= records.take(i - 1));
        lemma_plaintext_count_bound(records, i - 1);
    }
}

/// Two plaintext records of a retransmitted flight never share a sequence
/// number, as long as the counter does not run over within the flight.
pub proof fn law_retransmission_numbers_are_fresh(
    records: Seq<RecordView>,
    next: u64,
    i: int,
    j: int,
)
    requires
        0 <= i < j < records.len(),
        records[i].header.epoch == 0,
        records[j].header.epoch == 0,
        next + records.len() <= u64::MAX,
    ensures
        next <= renumbered(records, next)[i].header.sequence_number,
        renumbered(records, next)[i].header.sequence_number < renumbered(
            records,
            next,
        )[j].header.sequence_number,
        renumbered(records, next)[j].header.sequence_number < sequence_after(records, next),
{
    lemma_plaintext_count_grows(records, i, j);
    lemma_plaintext_count_grows(records, j, records.len() as int);
    assert(records.take(records.len() as int) =~= records);
}

/// Whether the record belongs to a client's ClientKeyExchange,
/// ChangeCipherSpec and Finished flight.
pub open spec fn client_finished_record(record: RecordView) -> bool {
    &&& record.header.content_type == ContentType::Handshake
    &&& {
        ||| record.header.epoch == 0 && (messages_in(record.payload) matches Some(messages)
            && has_type(messages, HandshakeType::ClientKeyExchange))
        ||| record.header.epoch == 1
    }
}

/// Whether one of the records belongs to a client's Finished flight.
pub open spec fn client_finished_flight(records: Seq<RecordView>) -> bool {
    exists|i: int| 0 <= i < records.len() && client_finished_record(#[trigger] records[i])
}

/// Returns whether a datagram carries part of a client's
/// ClientKeyExchange/ChangeCipherSpec/Finished flight.
///
/// A server that has already sent its Finished treats this as a
/// retransmission from a client that did not receive it.
pub fn is_client_finished_flight(records: &[DtlsRecord]) -> (found: bool)
    ensures
        found == client_finished_flight(views(records@)),
{
    let mut i: usize = 0;
    while i < records.len()
        invariant
            i <= records@.len(),
            forall|j: int| 0 <= j < i ==> !client_finished_record(#[trigger] views(records@)[j]),
        decreases records@.len() - i,
    {
        let record = &records[i];
        assert(views(records@)[i as int] == record@);
        if record.header.content_type == ContentType::Handshake {
            if record.header.epoch == 1 {
                return true;
            }
            if record.header.epoch == 0 {
                if let Ok(messages) = parse_unfragmented_handshake_messages(record) {
                    if any_of_type(messages.as_slice(), HandshakeType::ClientKeyExchange) {
                        return true;
                    }
                }
            }
        }
        i = i + 1;
    }
    false
}

/// The messages of the plaintext handshake records, or `None` where one of
/// these records is malformed.
pub open spec fn plaintext_messages(records: Seq<RecordView>) -> Option<Seq<MessageView>>
    decreases records.len(),
{
    if records.len() == 0 {
        Some(Seq::empty())
    } else {
        let record = records.last();
        match plaintext_messages(records.drop_last()) {
            None => None,
            Some(before) => if record.header.epoch != 0 || record.header.content_type
                != ContentType::Handshake {
                Some(before)
            } else {
                match messages_in(record.payload) {
                    None => None,
                    Some(messages) => Some(before + messages),
                }
            },
        }
    }
}

proof fn lemma_malformed_stays(records: Seq<RecordView>, i: int)
    requires
        0 <= i <= records.len(),
        plaintext_messages(records.take(i)) is None,
    ensures
        plaintext_messages(records) is None,
    decreases records.len() - i,
{
    if i < records.len() {
        assert(records.take(i + 1).drop_last() =~= records.take(i));
        lemma_malformed_stays(records, i + 1);
    } else {
        assert(records.take(i) =~= records);
    }
}

/// Whether the plaintext handshake messages of a datagram are exactly the
/// server flight that was already taken.
pub fn is_retransmitted_server_flight(
    records: &[DtlsRecord],
    expected: &[HandshakeMessage],
) -> (same: bool)
    ensures
        same == (plaintext_messages(views(records@)) == Some(views(expected@))),
{
    let ghost all = views(records@);
    let mut messages: Vec<HandshakeMessage> = Vec::new();
    let mut i: usize = 0;
    assert(all.take(0) =~= Seq::<RecordView>::empty());
    assert(views(messages@) =~= Seq::<MessageView>::empty());
    while i < records.len()
        invariant
            i <= records@.len(),
            all == views(records@),
            plaintext_messages(all.take(i as int)) == Some(views(messages@)),
        decreases records@.len() - i,
    {
        let record = &records[i];
        proof {
            assert(all.take(i + 1).drop_last() =~= all.take(i as int));
            assert(all.take(i + 1).last() == record@);
        }
        if record.header.epoch == 0 && record.header.content_type == ContentType::Handshake {
            match parse_unfragmented_handshake_messages(record) {
                Err(_) => {
                    proof {
                        lemma_malformed_stays(all, i + 1);
                    }
                    return false;
                },
                Ok(mut parsed) => {
                    proof {
                        assert(views(messages@ + parsed@) =~= views(messages@) + views(parsed@));
                    }
                    messages.append(&mut parsed);
                },
            }
        }
        i = i + 1;
    }
    assert(all.take(i as int) =~= all);
    same_messages(messages.as_slice(), expected)
}

} // verus!
