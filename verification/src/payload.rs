//! Payload buffers of a fixed capacity, and their decryption in place.

use vstd::prelude::*;

use ccm::aead::{AeadInPlace, KeyInit};

verus! {

/// How much a payload buffer holds.
pub const PAYLOAD_CAPACITY: usize = 127;

/// A payload buffer.
pub type PayloadBuffer = heapless::Vec<u8, 127>;

/// The fixed-capacity vector of `heapless`.
#[verifier::external_type_specification]
#[verifier::external_body]
#[verifier::reject_recursive_types(T)]
pub struct ExVec<T, const N: usize>(heapless::Vec<T, N>);

/// The error of an AEAD cipher, which tells nothing but that it failed.
#[verifier::external_type_specification]
#[verifier::external_body]
pub struct ExAeadError(ccm::aead::Error);

/// What a payload buffer holds.
pub uninterp spec fn buffer_bytes(buffer: heapless::Vec<u8, 127>) -> Seq<u8>;

/// The plaintext of `ciphertext` under AES-128-CCM with a tag of four bytes, if
/// `tag` is the right one for it and for the associated data `aad`.
pub uninterp spec fn aes128_ccm_open(
    key: Seq<u8>,
    nonce: Seq<u8>,
    aad: Seq<u8>,
    ciphertext: Seq<u8>,
    tag: Seq<u8>,
) -> Option<Seq<u8>>;

/// Calls `heapless::Vec::new`.
///
/// Claimed of it: the buffer is empty.
#[verifier::external_body]
fn buffer_new() -> (buffer: PayloadBuffer)
    ensures
        buffer_bytes(buffer) == Seq::<u8>::empty(),
{
    heapless::Vec::new()
}

/// Calls `heapless::Vec::extend_from_slice`.
///
/// Claimed of it: `data` is appended if the whole of it fits, and otherwise
/// the buffer stays as it is.
#[verifier::external_body]
fn buffer_extend(buffer: &mut PayloadBuffer, data: &[u8]) -> (fits: Result<(), ()>)
    ensures
        fits is Ok <==> buffer_bytes(*old(buffer)).len() + data@.len() <= PAYLOAD_CAPACITY,
        fits is Ok ==> buffer_bytes(*final(buffer)) == buffer_bytes(*old(buffer)) + data@,
        fits is Err ==> buffer_bytes(*final(buffer)) == buffer_bytes(*old(buffer)),
{
    buffer.extend_from_slice(data)
}

/// Calls `heapless::Vec::as_slice`.
///
/// Claimed of it: the slice is what the buffer holds, which is no more than
/// its capacity.
#[verifier::external_body]
pub(crate) fn buffer_slice(buffer: &PayloadBuffer) -> (bytes: &[u8])
    ensures
        bytes@ == buffer_bytes(*buffer),
        bytes@.len() <= PAYLOAD_CAPACITY,
{
    buffer.as_slice()
}

/// Calls `decrypt_in_place_detached` of `ccm::Ccm<aes::Aes128, U4, U13>`.
///
/// Claimed of it: whether it succeeds, and the plaintext that then replaces
/// the ciphertext, depend on the key, the nonce, the associated data, the
/// ciphertext and the tag alone. The plaintext is as long as the ciphertext.
/// Where it fails, it leaves zeros.
#[verifier::external_body]
fn ccm_decrypt(
    key: &[u8; 16],
    nonce: &[u8; 13],
    aad: &[u8],
    buffer: &mut PayloadBuffer,
    tag: &[u8; 4],
) -> (opened: Result<(), ccm::aead::Error>)
    ensures
        opened is Ok <==> aes128_ccm_open(
            key@,
            nonce@,
            aad@,
            buffer_bytes(*old(buffer)),
            tag@,
        ) is Some,
        opened is Ok ==> aes128_ccm_open(key@, nonce@, aad@, buffer_bytes(*old(buffer)), tag@)
            == Some(buffer_bytes(*final(buffer))),
        buffer_bytes(*final(buffer)).len() == buffer_bytes(*old(buffer)).len(),
        opened is Err ==> buffer_bytes(*final(buffer)) == Seq::new(
            buffer_bytes(*old(buffer)).len(),
            |i: int| 0u8,
        ),
{
    let cipher = ccm::Ccm::<aes::Aes128, ccm::consts::U4, ccm::consts::U13>::new(key.into());
    cipher.decrypt_in_place_detached(nonce.into(), aad, buffer, tag.into())
}

/// A buffer that holds `data`, or `None` if that is too much for one.
pub fn buffer_from(data: &[u8]) -> (buffer: Option<PayloadBuffer>)
    ensures
        buffer is Some <==> data@.len() <= PAYLOAD_CAPACITY,
        buffer matches Some(b) ==> buffer_bytes(b) == data@,
{
    let mut buffer = buffer_new();
    match buffer_extend(&mut buffer, data) {
        Ok(_) => {
            assert(Seq::<u8>::empty() + data@ =~= data@);
            Some(buffer)
        },
        Err(_) => None,
    }
}

/// The buffer after a decryption, if that succeeded.
pub fn after_decryption(buffer: PayloadBuffer, opened: Result<(), ccm::aead::Error>) -> (plaintext:
    Option<PayloadBuffer>)
    ensures
        plaintext == (if opened is Ok {
            Some(buffer)
        } else {
            None
        }),
{
    match opened {
        Ok(_) => Some(buffer),
        Err(_) => None,
    }
}

/// Decrypts the contents of `buffer`, or gives `None` if `tag` is not the right
/// one for them and for `aad` under `key` and `nonce`. The plaintext is as long
/// as the ciphertext.
pub fn decrypt_buffer(
    key: &[u8; 16],
    nonce: &[u8; 13],
    aad: &[u8],
    buffer: PayloadBuffer,
    tag: &[u8; 4],
) -> (plaintext: Option<PayloadBuffer>)
    ensures
        plaintext is Some <==> aes128_ccm_open(
            key@,
            nonce@,
            aad@,
            buffer_bytes(buffer),
            tag@,
        ) is Some,
        plaintext matches Some(p) ==> aes128_ccm_open(
            key@,
            nonce@,
            aad@,
            buffer_bytes(buffer),
            tag@,
        ) == Some(buffer_bytes(p)),
        plaintext matches Some(p) ==> buffer_bytes(p).len() == buffer_bytes(buffer).len(),
{
    let mut buffer = buffer;
    let opened = ccm_decrypt(key, nonce, aad, &mut buffer, tag);
    after_decryption(buffer, opened)
}

} // verus!
