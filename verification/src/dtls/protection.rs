//! AES-128-CCM-8 protection of records (RFC 6655).

use aes::Aes128;
use ccm::aead::generic_array::GenericArray;
use ccm::aead::{Aead, KeyInit, Payload};
use ccm::consts::{U12, U8};
use ccm::Ccm;
use vstd::prelude::*;

use crate::bytes::{be_bytes, copy_range, put_all, put_be};
use crate::secret::wipe_bytes;
use crate::dtls::error::{Error, ErrorView};
use crate::dtls::record::{
    oversized_record, ContentType, DtlsRecord, RecordHeader, RecordView, DTLS_1_2_VERSION,
    MAX_PAYLOAD_LEN, MAX_SEQUENCE_NUMBER,
};

verus! {

/// What AES-128-CCM with an 8-byte tag makes of a plaintext under a key, a
/// nonce and associated data: the ciphertext with the tag behind it.
pub uninterp spec fn ccm8_sealed(
    key: Seq<u8>,
    nonce: Seq<u8>,
    associated_data: Seq<u8>,
    plaintext: Seq<u8>,
) -> Seq<u8>;

/// What AES-128-CCM with an 8-byte tag opens a ciphertext to, or `None` where
/// the tag does not authenticate it.
pub uninterp spec fn ccm8_opened(
    key: Seq<u8>,
    nonce: Seq<u8>,
    associated_data: Seq<u8>,
    ciphertext: Seq<u8>,
) -> Option<Seq<u8>>;

/// `ccm::Ccm::encrypt` with AES-128, an 8-byte tag and a 12-byte nonce.
///
/// Claimed: it fails exactly for plaintexts of 2^24 bytes or more; otherwise
/// the result is determined by the arguments, is 8 bytes longer than the
/// plaintext, and `decrypt` under the same key, nonce and associated data
/// gives the plaintext back.
#[verifier::external_body]
fn ccm8_encrypt(
    key: &[u8; 16],
    nonce: &[u8],
    associated_data: &[u8],
    plaintext: &[u8],
) -> (sealed: Option<Vec<u8>>)
    requires
        nonce@.len() == 12,
    ensures
        sealed is Some <==> plaintext@.len() <= 0xff_ffff,
        sealed matches Some(bytes) ==> bytes@ == ccm8_sealed(
            key@,
            nonce@,
            associated_data@,
            plaintext@,
        ) && bytes@.len() == plaintext@.len() + 8 && ccm8_opened(
            key@,
            nonce@,
            associated_data@,
            bytes@,
        ) == Some(plaintext@),
{
    Ccm::<Aes128, U8, U12>::new(GenericArray::from_slice(key)).encrypt(
        GenericArray::from_slice(nonce),
        Payload { msg: plaintext, aad: associated_data },
    ).ok()
}

/// `ccm::Ccm::decrypt` with AES-128, an 8-byte tag and a 12-byte nonce.
///
/// Claimed: the result is determined by the arguments, and a plaintext that
/// comes out is 8 bytes shorter than the ciphertext. Asked for: a ciphertext
/// no longer than encryption can give, since the keystream ends somewhere
/// behind that.
#[verifier::external_body]
fn ccm8_decrypt(
    key: &[u8; 16],
    nonce: &[u8],
    associated_data: &[u8],
    ciphertext: &[u8],
) -> (opened: Option<Vec<u8>>)
    requires
        nonce@.len() == 12,
        ciphertext@.len() <= 0x100_0007,
    ensures
        match opened {
            Some(plaintext) => ccm8_opened(key@, nonce@, associated_data@, ciphertext@) == Some(
                plaintext@,
            ) && plaintext@.len() + 8 == ciphertext@.len(),
            None => ccm8_opened(key@, nonce@, associated_data@, ciphertext@) is None,
        },
{
    Ccm::<Aes128, U8, U12>::new(GenericArray::from_slice(key)).decrypt(
        GenericArray::from_slice(nonce),
        Payload { msg: ciphertext, aad: associated_data },
    ).ok()
}

/// A key that protects the records of one direction. It is wiped when it is
/// dropped.
pub struct RecordProtectionKey {
    pub bytes: [u8; 16],
}

impl Clone for RecordProtectionKey {
    fn clone(&self) -> (key: Self)
        ensures
            key == *self,
    {
        RecordProtectionKey { bytes: self.bytes }
    }
}

impl Drop for RecordProtectionKey {
    fn drop(&mut self)
        opens_invariants none
        no_unwind
    {
        wipe_bytes(&mut self.bytes);
    }
}

impl RecordProtectionKey {
    pub fn new(bytes: [u8; 16]) -> (key: Self)
        ensures
            key.bytes == bytes,
    {
        RecordProtectionKey { bytes }
    }
}

/// The keys of both directions. They are wiped when they are dropped.
pub struct Tls12Aes128Ccm8KeyBlock {
    pub client_write_key: [u8; 16],
    pub server_write_key: [u8; 16],
    pub client_write_iv: [u8; 4],
    pub server_write_iv: [u8; 4],
}

impl Clone for Tls12Aes128Ccm8KeyBlock {
    fn clone(&self) -> (keys: Self)
        ensures
            keys == *self,
    {
        Tls12Aes128Ccm8KeyBlock {
            client_write_key: self.client_write_key,
            server_write_key: self.server_write_key,
            client_write_iv: self.client_write_iv,
            server_write_iv: self.server_write_iv,
        }
    }
}

impl Drop for Tls12Aes128Ccm8KeyBlock {
    fn drop(&mut self)
        opens_invariants none
        no_unwind
    {
        wipe_bytes(&mut self.client_write_key);
        wipe_bytes(&mut self.server_write_key);
        wipe_bytes(&mut self.client_write_iv);
        wipe_bytes(&mut self.server_write_iv);
    }
}

/// The outcome of a handshake's key derivation. It is wiped when it is
/// dropped.
pub struct ThreadDtlsKeyMaterial {
    pub master_secret: [u8; 48],
    pub key_block: Tls12Aes128Ccm8KeyBlock,
}

impl Clone for ThreadDtlsKeyMaterial {
    fn clone(&self) -> (keys: Self)
        ensures
            keys == *self,
    {
        ThreadDtlsKeyMaterial {
            master_secret: self.master_secret,
            key_block: self.key_block.clone(),
        }
    }
}

impl Drop for ThreadDtlsKeyMaterial {
    fn drop(&mut self)
        opens_invariants none
        no_unwind
    {
        wipe_bytes(&mut self.master_secret);
    }
}

/// The part of the nonce that travels with the record: epoch and sequence
/// number.
pub open spec fn explicit_nonce(epoch: u16, sequence_number: u64) -> Seq<u8> {
    be_bytes(epoch as nat, 2) + be_bytes(sequence_number as nat, 6)
}

/// The authenticated header of a record with `length` bytes of plaintext.
pub open spec fn associated_data(header: RecordHeader, length: nat) -> Seq<u8> {
    explicit_nonce(header.epoch, header.sequence_number) + seq![header.content_type.spec_code()]
        + be_bytes(header.version as nat, 2) + be_bytes(length, 2)
}

/// The plaintext of a protected record under a key and an implicit nonce, or
/// `None` where the record is not authentic.
pub open spec fn opened(record: RecordView, key: Seq<u8>, iv: Seq<u8>) -> Option<Seq<u8>> {
    if record.payload.len() < 16 || record.payload.len() > MAX_PAYLOAD_LEN {
        None
    } else {
        ccm8_opened(
            key,
            iv + record.payload.take(8),
            associated_data(record.header, (record.payload.len() - 16) as nat),
            record.payload.skip(8),
        )
    }
}

/// The protected record with the given plaintext.
pub open spec fn protected(
    content_type: ContentType,
    epoch: u16,
    sequence_number: u64,
    key: Seq<u8>,
    iv: Seq<u8>,
    plaintext: Seq<u8>,
) -> RecordView {
    let header = RecordHeader { content_type, version: DTLS_1_2_VERSION, epoch, sequence_number };
    let nonce = explicit_nonce(epoch, sequence_number);
    RecordView {
        header,
        payload: nonce + ccm8_sealed(
            key,
            iv + nonce,
            associated_data(header, plaintext.len()),
            plaintext,
        ),
    }
}

/// Whether a plaintext can be protected under a sequence number: the sequence
/// number has 48 bits, and nonce, plaintext and tag fill at most 65535 bytes.
pub open spec fn protectable(sequence_number: u64, length: nat) -> bool {
    sequence_number <= MAX_SEQUENCE_NUMBER && length + 16 <= MAX_PAYLOAD_LEN
}

/// The error for a record that is not authentic.
pub open spec fn unauthentic_record() -> ErrorView {
    ErrorView::Crypto("DTLS record authentication failed"@)
}

fn put_associated_data(out: &mut Vec<u8>, header: RecordHeader, length: usize)
    ensures
        final(out)@ == old(out)@ + associated_data(header, length as nat),
{
    put_be(out, header.epoch as u64, 2);
    put_be(out, header.sequence_number, 6);
    out.push(header.content_type.code());
    put_be(out, header.version as u64, 2);
    put_be(out, length as u64, 2);
    assert(out@ =~= old(out)@ + associated_data(header, length as nat));
}

/// Protects a plaintext; what comes out opens to it again under the same key.
pub fn protect_aes_128_ccm_8_record(
    content_type: ContentType,
    epoch: u16,
    sequence_number: u64,
    key: RecordProtectionKey,
    iv: &[u8; 4],
    plaintext: &[u8],
) -> (result: Result<DtlsRecord, Error>)
    ensures
        match result {
            Ok(record) => protectable(sequence_number, plaintext@.len()) && record@ == protected(
                content_type,
                epoch,
                sequence_number,
                key.bytes@,
                iv@,
                plaintext@,
            ) && record@.fits() && opened(record@, key.bytes@, iv@) == Some(plaintext@),
            Err(error) => !protectable(sequence_number, plaintext@.len()) && error@
                == oversized_record(),
        },
{
    if sequence_number > MAX_SEQUENCE_NUMBER || plaintext.len() > MAX_PAYLOAD_LEN - 16 {
        return Err(Error::crypto("DTLS record is too large"));
    }
    let header = RecordHeader { content_type, version: DTLS_1_2_VERSION, epoch, sequence_number };
    let mut payload: Vec<u8> = Vec::new();
    put_be(&mut payload, epoch as u64, 2);
    put_be(&mut payload, sequence_number, 6);
    proof {
        crate::bytes::lemma_be_bytes(epoch as nat, 2);
        crate::bytes::lemma_be_bytes(sequence_number as nat, 6);
        assert(payload@ =~= explicit_nonce(epoch, sequence_number));
    }
    let ghost explicit = payload@;
    let mut nonce: Vec<u8> = Vec::new();
    put_all(&mut nonce, iv.as_slice());
    put_all(&mut nonce, payload.as_slice());
    assert(nonce@ =~= iv@ + explicit);
    let mut aad: Vec<u8> = Vec::new();
    put_associated_data(&mut aad, header, plaintext.len());
    assert(aad@ =~= associated_data(header, plaintext@.len()));
    match ccm8_encrypt(&key.bytes, nonce.as_slice(), aad.as_slice(), plaintext) {
        None => Err(Error::crypto("DTLS record is too large")),
        Some(sealed) => {
            put_all(&mut payload, sealed.as_slice());
            proof {
                assert(payload@.take(8) =~= explicit);
                assert(payload@.skip(8) =~= sealed@);
            }
            Ok(DtlsRecord { header, payload })
        },
    }
}

/// Opens a protected record; fails where it is not authentic.
pub fn open_aes_128_ccm_8_record(
    record: &DtlsRecord,
    key: RecordProtectionKey,
    iv: &[u8; 4],
) -> (result: Result<Vec<u8>, Error>)
    ensures
        match result {
            Ok(plaintext) => opened(record@, key.bytes@, iv@) == Some(plaintext@)
                && plaintext@.len() + 16 == record@.payload.len() <= MAX_PAYLOAD_LEN,
            Err(error) => opened(record@, key.bytes@, iv@) is None && error@
                == unauthentic_record(),
        },
{
    let length: usize = record.payload.len();
    if length < 16 || length > MAX_PAYLOAD_LEN {
        return Err(Error::crypto("DTLS record authentication failed"));
    }
    let explicit = copy_range(record.payload.as_slice(), 0, 8);
    let mut nonce: Vec<u8> = Vec::new();
    put_all(&mut nonce, iv.as_slice());
    put_all(&mut nonce, explicit.as_slice());
    assert(nonce@ =~= iv@ + record.payload@.take(8));
    let mut aad: Vec<u8> = Vec::new();
    put_associated_data(&mut aad, record.header, length - 16);
    assert(aad@ =~= associated_data(record.header, (length - 16) as nat));
    let ciphertext = copy_range(record.payload.as_slice(), 8, length);
    assert(ciphertext@ =~= record.payload@.skip(8));
    match ccm8_decrypt(&key.bytes, nonce.as_slice(), aad.as_slice(), ciphertext.as_slice()) {
        Some(plaintext) => Ok(plaintext),
        None => Err(Error::crypto("DTLS record authentication failed")),
    }
}

} // verus!
