//! Keys, proofs and ciphers.
//!
//! The primitives are those of the crates that implement them; each is reached
//! through one function here, whose contract says what is relied on.
use aes_gcm::aead::generic_array::GenericArray;
use aes_gcm::{AeadInPlace, Aes128Gcm, Aes256Gcm, KeyInit};
use base64::engine::general_purpose::STANDARD;
use base64::Engine;
use chacha20poly1305::ChaCha20Poly1305;
use hmac::{Hmac, Mac};
use sha2::Sha256;
use vstd::prelude::*;
use x25519_dalek::{PublicKey, StaticSecret};

use crate::bytes;
use crate::error::{EdgeError, KeyLabel};
use crate::proto::Uuid;
use crate::text;

verus! {

/// The longest text that every cipher takes, far longer than a packet can be: AES-GCM
/// counts its blocks of sixteen bytes in 32 bits, two of which are set aside.
pub const MAX_TEXT_LEN: u64 = 0xf_ffff_ffe0;

pub const AEAD_TAG_SIZE: usize = 16;

pub const AEAD_NONCE_SIZE: usize = 12;

/// What `encrypt_in_place_detached` of AES-128-GCM makes of a key, a nonce and a
/// text, without associated data: the ciphertext and the tag.
pub uninterp spec fn aes128_sealed(key: Seq<u8>, nonce: Seq<u8>, plaintext: Seq<u8>) -> (Seq<u8>, Seq<u8>);

/// What `decrypt_in_place_detached` of AES-128-GCM makes of a ciphertext and a tag:
/// the text, or nothing if the tag is not the right one.
pub uninterp spec fn aes128_opened(key: Seq<u8>, nonce: Seq<u8>, ciphertext: Seq<u8>, tag: Seq<u8>) -> Option<Seq<u8>>;

/// The same as `aes128_sealed` for AES-256-GCM.
pub uninterp spec fn aes256_sealed(key: Seq<u8>, nonce: Seq<u8>, plaintext: Seq<u8>) -> (Seq<u8>, Seq<u8>);

/// The same as `aes128_opened` for AES-256-GCM.
pub uninterp spec fn aes256_opened(key: Seq<u8>, nonce: Seq<u8>, ciphertext: Seq<u8>, tag: Seq<u8>) -> Option<Seq<u8>>;

/// The same as `aes128_sealed` for ChaCha20-Poly1305.
pub uninterp spec fn chacha_sealed(key: Seq<u8>, nonce: Seq<u8>, plaintext: Seq<u8>) -> (Seq<u8>, Seq<u8>);

/// The same as `aes128_opened` for ChaCha20-Poly1305.
pub uninterp spec fn chacha_opened(key: Seq<u8>, nonce: Seq<u8>, ciphertext: Seq<u8>, tag: Seq<u8>) -> Option<Seq<u8>>;

/// HMAC-SHA-256 of `data` under `key`.
pub uninterp spec fn hmac_of(key: Seq<u8>, data: Seq<u8>) -> Seq<u8>;

/// The bytes that `text` stands for in the standard Base64 alphabet with padding,
/// if it is well formed.
pub uninterp spec fn base64_decoded(text: Seq<char>) -> Option<Seq<u8>>;

/// `data` in the standard Base64 alphabet with padding.
pub uninterp spec fn base64_encoded(data: Seq<u8>) -> Seq<char>;

/// The X25519 public key of a private key.
pub uninterp spec fn x25519_public(private: Seq<u8>) -> Seq<u8>;

/// `Aes128Gcm::encrypt_in_place_detached`, without associated data. It gives a
/// ciphertext as long as the text, and a tag of sixteen bytes; decryption gives
/// the text back. Longer texts are not encrypted.
#[verifier::external_body]
fn aes128_seal(key: &[u8], nonce: &[u8; 12], plaintext: &[u8]) -> (r: (Vec<u8>, [u8; 16]))
    requires
        key@.len() == 16,
        plaintext@.len() <= MAX_TEXT_LEN,
    ensures
        (r.0@, r.1@) == aes128_sealed(key@, nonce@, plaintext@),
        r.0@.len() == plaintext@.len(),
        aes128_opened(key@, nonce@, r.0@, r.1@) == Some(plaintext@),
{
    let mut output = plaintext.to_vec();
    let tag = Aes128Gcm::new(GenericArray::from_slice(key))
        .encrypt_in_place_detached(GenericArray::from_slice(nonce), &[], &mut output)
        .unwrap();
    (output, tag.into())
}

/// `Aes128Gcm::decrypt_in_place_detached`, without associated data. The text is as
/// long as the ciphertext.
#[verifier::external_body]
fn aes128_open(key: &[u8], nonce: &[u8; 12], ciphertext: &[u8], tag: &[u8; 16]) -> (r: Option<Vec<u8>>)
    requires
        key@.len() == 16,
        ciphertext@.len() <= MAX_TEXT_LEN,
    ensures
        crate::collections::option_view(r) == aes128_opened(key@, nonce@, ciphertext@, tag@),
        r matches Some(plaintext) ==> plaintext@.len() == ciphertext@.len(),
{
    let mut output = ciphertext.to_vec();
    Aes128Gcm::new(GenericArray::from_slice(key))
        .decrypt_in_place_detached(
            GenericArray::from_slice(nonce),
            &[],
            &mut output,
            GenericArray::from_slice(tag),
        )
        .ok()?;
    Some(output)
}

/// `Aes256Gcm::encrypt_in_place_detached`, without associated data; otherwise as
/// for AES-128-GCM.
#[verifier::external_body]
fn aes256_seal(key: &[u8; 32], nonce: &[u8; 12], plaintext: &[u8]) -> (r: (Vec<u8>, [u8; 16]))
    requires
        plaintext@.len() <= MAX_TEXT_LEN,
    ensures
        (r.0@, r.1@) == aes256_sealed(key@, nonce@, plaintext@),
        r.0@.len() == plaintext@.len(),
        aes256_opened(key@, nonce@, r.0@, r.1@) == Some(plaintext@),
{
    let mut output = plaintext.to_vec();
    let tag = Aes256Gcm::new(GenericArray::from_slice(key))
        .encrypt_in_place_detached(GenericArray::from_slice(nonce), &[], &mut output)
        .unwrap();
    (output, tag.into())
}

/// `Aes256Gcm::decrypt_in_place_detached`, without associated data; otherwise as
/// for AES-128-GCM.
#[verifier::external_body]
fn aes256_open(key: &[u8; 32], nonce: &[u8; 12], ciphertext: &[u8], tag: &[u8; 16]) -> (r: Option<Vec<u8>>)
    requires
        ciphertext@.len() <= MAX_TEXT_LEN,
    ensures
        crate::collections::option_view(r) == aes256_opened(key@, nonce@, ciphertext@, tag@),
        r matches Some(plaintext) ==> plaintext@.len() == ciphertext@.len(),
{
    let mut output = ciphertext.to_vec();
    Aes256Gcm::new(GenericArray::from_slice(key))
        .decrypt_in_place_detached(
            GenericArray::from_slice(nonce),
            &[],
            &mut output,
            GenericArray::from_slice(tag),
        )
        .ok()?;
    Some(output)
}

/// `ChaCha20Poly1305::encrypt_in_place_detached`, without associated data;
/// otherwise as for AES-128-GCM.
#[verifier::external_body]
fn chacha_seal(key: &[u8; 32], nonce: &[u8; 12], plaintext: &[u8]) -> (r: (Vec<u8>, [u8; 16]))
    requires
        plaintext@.len() <= MAX_TEXT_LEN,
    ensures
        (r.0@, r.1@) == chacha_sealed(key@, nonce@, plaintext@),
        r.0@.len() == plaintext@.len(),
        chacha_opened(key@, nonce@, r.0@, r.1@) == Some(plaintext@),
{
    let mut output = plaintext.to_vec();
    let tag = ChaCha20Poly1305::new(GenericArray::from_slice(key))
        .encrypt_in_place_detached(GenericArray::from_slice(nonce), &[], &mut output)
        .unwrap();
    (output, tag.into())
}

/// `ChaCha20Poly1305::decrypt_in_place_detached`, without associated data;
/// otherwise as for AES-128-GCM.
#[verifier::external_body]
fn chacha_open(key: &[u8; 32], nonce: &[u8; 12], ciphertext: &[u8], tag: &[u8; 16]) -> (r: Option<Vec<u8>>)
    requires
        ciphertext@.len() <= MAX_TEXT_LEN,
    ensures
        crate::collections::option_view(r) == chacha_opened(key@, nonce@, ciphertext@, tag@),
        r matches Some(plaintext) ==> plaintext@.len() == ciphertext@.len(),
{
    let mut output = ciphertext.to_vec();
    ChaCha20Poly1305::new(GenericArray::from_slice(key))
        .decrypt_in_place_detached(
            GenericArray::from_slice(nonce),
            &[],
            &mut output,
            GenericArray::from_slice(tag),
        )
        .ok()?;
    Some(output)
}

/// `Hmac<Sha256>`, keyed with `key` and fed with `data`. A key of any length is
/// accepted, and the code has 32 bytes.
#[verifier::external_body]
fn hmac_sha256(key: &[u8], data: &[u8]) -> (r: [u8; 32])
    ensures
        r@ == hmac_of(key@, data@),
{
    let mut mac = <Hmac<Sha256> as Mac>::new_from_slice(key).unwrap();
    mac.update(data);
    mac.finalize().into_bytes().into()
}

/// `Mac::verify_slice` of `Hmac<Sha256>`, keyed with `key` and fed with `data`: it
/// accepts the whole code and nothing else.
#[verifier::external_body]
fn hmac_verify(key: &[u8], data: &[u8], code: &[u8]) -> (r: bool)
    ensures
        r == (code@ == hmac_of(key@, data@)),
{
    let mut mac = <Hmac<Sha256> as Mac>::new_from_slice(key).unwrap();
    mac.update(data);
    mac.verify_slice(code).is_ok()
}

/// `Engine::decode` of the standard Base64 engine.
#[verifier::external_body]
fn base64_decode(value: &str) -> (r: Option<Vec<u8>>)
    ensures
        crate::collections::option_view(r) == base64_decoded(value@),
{
    STANDARD.decode(value).ok()
}

/// `Engine::encode` of the standard Base64 engine.
#[verifier::external_body]
pub(crate) fn base64_encode(data: &[u8]) -> (r: String)
    requires
        data@.len() <= 0x1000_0000,
    ensures
        r@ == base64_encoded(data@),
{
    STANDARD.encode(data)
}

/// `PublicKey::from` of a `StaticSecret`.
#[verifier::external_body]
pub(crate) fn public_key_of(private: &[u8; 32]) -> (r: [u8; 32])
    ensures
        r@ == x25519_public(private@),
{
    PublicKey::from(&StaticSecret::from(*private)).to_bytes()
}

/// `getrandom::fill` on `N` bytes. Nothing is known of the bytes.
#[verifier::external_body]
fn fill_random<const N: usize>() -> (r: Result<[u8; N], getrandom::Error>) {
    let mut bytes = [0_u8; N];
    getrandom::fill(&mut bytes)?;
    Ok(bytes)
}

/// `N` random bytes: what `drawn_bytes` makes of what the random source gives.
/// Neither the bytes nor whether there are any is known beforehand.
pub fn random_bytes<const N: usize>() -> (r: Result<[u8; N], EdgeError>)
    ensures
        r matches Err(error) ==> error is Random,
{
    drawn_bytes(fill_random())
}

/// The identifier whose four words are the big-endian words of sixteen bytes.
pub open spec fn uuid_of(words: Seq<u8>) -> Uuid {
    Uuid {
        part1: bytes::u32_of_be(words.subrange(0, 4)),
        part2: bytes::u32_of_be(words.subrange(4, 8)),
        part3: bytes::u32_of_be(words.subrange(8, 12)),
        part4: bytes::u32_of_be(words.subrange(12, 16)),
    }
}

/// The identifier made of sixteen bytes.
pub fn uuid_from_bytes(words: &[u8; 16]) -> (r: Uuid)
    ensures
        r == uuid_of(words@),
{
    let words: &[u8] = words;
    Uuid {
        part1: bytes::get_u32_be(words, 0),
        part2: bytes::get_u32_be(words, 4),
        part3: bytes::get_u32_be(words, 8),
        part4: bytes::get_u32_be(words, 12),
    }
}

/// A random identifier: what `drawn_uuid` makes of sixteen random bytes.
pub fn random_uuid() -> (r: Result<Uuid, EdgeError>)
    ensures
        r matches Err(error) ==> error is Random,
{
    drawn_uuid(random_bytes::<16>())
}

/// The bytes that the random source gave, or its error.
pub fn drawn_bytes<const N: usize>(filled: Result<[u8; N], getrandom::Error>) -> (r: Result<[u8; N], EdgeError>)
    ensures
        r == match filled {
            Ok(bytes) => Ok::<[u8; N], EdgeError>(bytes),
            Err(error) => Err(EdgeError::Random(error)),
        },
{
    match filled {
        Ok(bytes) => Ok(bytes),
        Err(error) => Err(EdgeError::Random(error)),
    }
}

/// The identifier made of the bytes that were drawn, or why there are none.
pub fn drawn_uuid(drawn: Result<[u8; 16], EdgeError>) -> (r: Result<Uuid, EdgeError>)
    ensures
        r == match drawn {
            Ok(words) => Ok::<Uuid, EdgeError>(uuid_of(words@)),
            Err(error) => Err(error),
        },
{
    match drawn {
        Ok(words) => Ok(uuid_from_bytes(&words)),
        Err(error) => Err(error),
    }
}

/// The ciphers of a session.
#[derive(Debug, Clone, Copy, PartialEq, Eq, Structural)]
pub enum Algorithm {
    Aes128Gcm,
    Aes256Gcm,
    ChaCha20,
}

/// The cipher that a name stands for; the case of its letters does not matter.
pub open spec fn algorithm_of(name: Seq<char>) -> Option<Algorithm> {
    if text::same_ignoring_case(name, "aes-gcm"@) {
        Some(Algorithm::Aes128Gcm)
    } else if text::same_ignoring_case(name, "aes-256-gcm"@) {
        Some(Algorithm::Aes256Gcm)
    } else if text::same_ignoring_case(name, "chacha20"@) || text::same_ignoring_case(name, "chacha20-poly1305"@) {
        Some(Algorithm::ChaCha20)
    } else {
        None
    }
}

pub fn normalized_algorithm(value: &str) -> (r: Result<Algorithm, EdgeError>)
    ensures
        r == match algorithm_of(value@) {
            Some(algorithm) => Ok::<Algorithm, EdgeError>(algorithm),
            None => Err(EdgeError::UnsupportedAlgorithm),
        },
{
    if text::equal_ignoring_case(value, "aes-gcm") {
        Ok(Algorithm::Aes128Gcm)
    } else if text::equal_ignoring_case(value, "aes-256-gcm") {
        Ok(Algorithm::Aes256Gcm)
    } else if text::equal_ignoring_case(value, "chacha20") || text::equal_ignoring_case(value, "chacha20-poly1305") {
        Ok(Algorithm::ChaCha20)
    } else {
        Err(EdgeError::UnsupportedAlgorithm)
    }
}

/// The ciphertext and the tag of a text. AES-128-GCM uses the first half of the
/// key.
pub open spec fn sealed(algorithm: Algorithm, key: Seq<u8>, nonce: Seq<u8>, plaintext: Seq<u8>) -> (Seq<u8>, Seq<u8>) {
    match algorithm {
        Algorithm::Aes128Gcm => aes128_sealed(key.take(16), nonce, plaintext),
        Algorithm::Aes256Gcm => aes256_sealed(key, nonce, plaintext),
        Algorithm::ChaCha20 => chacha_sealed(key, nonce, plaintext),
    }
}

/// The text of a ciphertext, if the tag is the right one.
pub open spec fn opened(
    algorithm: Algorithm,
    key: Seq<u8>,
    nonce: Seq<u8>,
    ciphertext: Seq<u8>,
    tag: Seq<u8>,
) -> Option<Seq<u8>> {
    match algorithm {
        Algorithm::Aes128Gcm => aes128_opened(key.take(16), nonce, ciphertext, tag),
        Algorithm::Aes256Gcm => aes256_opened(key, nonce, ciphertext, tag),
        Algorithm::ChaCha20 => chacha_opened(key, nonce, ciphertext, tag),
    }
}

/// The ciphertext and the tag of a text under a cipher's name.
pub open spec fn sealed_as(name: Seq<char>, key: Seq<u8>, nonce: Seq<u8>, plaintext: Seq<u8>) -> Result<
    (Seq<u8>, Seq<u8>),
    EdgeError,
> {
    match algorithm_of(name) {
        Some(algorithm) => Ok(sealed(algorithm, key, nonce, plaintext)),
        None => Err(EdgeError::UnsupportedAlgorithm),
    }
}

/// The text of a ciphertext under a cipher's name.
pub open spec fn opened_as(
    name: Seq<char>,
    key: Seq<u8>,
    nonce: Seq<u8>,
    ciphertext: Seq<u8>,
    tag: Seq<u8>,
) -> Result<Seq<u8>, EdgeError> {
    match algorithm_of(name) {
        Some(algorithm) => match opened(algorithm, key, nonce, ciphertext, tag) {
            Some(plaintext) => Ok(plaintext),
            None => Err(EdgeError::DecryptionFailed),
        },
        None => Err(EdgeError::UnsupportedAlgorithm),
    }
}

/// Encrypts a text. What is encrypted can be decrypted again.
pub fn seal(algorithm: &str, key: &[u8; 32], nonce: &[u8; 12], plaintext: &[u8]) -> (r: Result<
    (Vec<u8>, [u8; 16]),
    EdgeError,
>)
    requires
        plaintext@.len() <= MAX_TEXT_LEN,
    ensures
        match (sealed_as(algorithm@, key@, nonce@, plaintext@), r) {
            (Ok(expected), Ok(result)) => {
                &&& (result.0@, result.1@) == expected
                &&& result.0@.len() == plaintext@.len()
                &&& opened_as(algorithm@, key@, nonce@, result.0@, result.1@) == Ok::<Seq<u8>, EdgeError>(plaintext@)
            },
            (Err(expected), Err(error)) => error == expected,
            _ => false,
        },
{
    match normalized_algorithm(algorithm) {
        Ok(Algorithm::Aes128Gcm) => {
            let half = vstd::slice::slice_subrange(key, 0, 16);
            assert(half@ =~= key@.take(16));
            Ok(aes128_seal(half, nonce, plaintext))
        },
        Ok(Algorithm::Aes256Gcm) => Ok(aes256_seal(key, nonce, plaintext)),
        Ok(Algorithm::ChaCha20) => Ok(chacha_seal(key, nonce, plaintext)),
        Err(error) => Err(error),
    }
}

/// Decrypts a ciphertext whose tag is the right one.
pub fn open(algorithm: &str, key: &[u8; 32], nonce: &[u8; 12], ciphertext: &[u8], tag: &[u8; 16]) -> (r: Result<
    Vec<u8>,
    EdgeError,
>)
    requires
        ciphertext@.len() <= MAX_TEXT_LEN,
    ensures
        match (opened_as(algorithm@, key@, nonce@, ciphertext@, tag@), r) {
            (Ok(expected), Ok(plaintext)) => plaintext@ == expected && plaintext@.len() == ciphertext@.len(),
            (Err(expected), Err(error)) => error == expected,
            _ => false,
        },
{
    let opened = match normalized_algorithm(algorithm) {
        Ok(Algorithm::Aes128Gcm) => {
            let half = vstd::slice::slice_subrange(key, 0, 16);
            assert(half@ =~= key@.take(16));
            aes128_open(half, nonce, ciphertext, tag)
        },
        Ok(Algorithm::Aes256Gcm) => aes256_open(key, nonce, ciphertext, tag),
        Ok(Algorithm::ChaCha20) => chacha_open(key, nonce, ciphertext, tag),
        Err(error) => {
            return Err(error);
        },
    };
    match opened {
        Some(plaintext) => Ok(plaintext),
        None => Err(EdgeError::DecryptionFailed),
    }
}

/// The direction of the packets between two peers, which both ends agree on.
pub open spec fn direction_of(sender: u32, receiver: u32) -> int {
    if sender >= receiver {
        1
    } else {
        0
    }
}

pub fn direction_index(sender: u32, receiver: u32) -> (r: usize)
    ensures
        r == direction_of(sender, receiver),
{
    if sender >= receiver {
        1
    } else {
        0
    }
}

/// The text that is hashed to a traffic key.
pub open spec fn traffic_label(epoch: u32, direction: u8) -> Seq<u8> {
    vstd::utf8::encode_utf8("et-traffic"@) + bytes::u32_be(epoch) + seq![direction, 1u8]
}

/// The key of one epoch and direction of a session: an extraction with a key of
/// zeros and one expansion with the label "et-traffic".
pub open spec fn traffic_key_of(root_key: Seq<u8>, epoch: u32, direction: u8) -> Seq<u8> {
    hmac_of(hmac_of(Seq::new(32, |i: int| 0u8), root_key), traffic_label(epoch, direction))
}

pub fn traffic_key(root_key: &[u8; 32], epoch: u32, direction: usize) -> (r: [u8; 32])
    requires
        direction < 2,
    ensures
        r@ == traffic_key_of(root_key@, epoch, direction as u8),
{
    let salt: [u8; 32] = [0u8; 32];
    assert(salt@ =~= Seq::new(32, |i: int| 0u8));
    let prk = hmac_sha256(&salt, root_key);
    let mut label: Vec<u8> = Vec::new();
    bytes::put_bytes(&mut label, "et-traffic".as_bytes());
    bytes::put_u32_be(&mut label, epoch);
    label.push(direction as u8);
    label.push(1);
    assert(label@ =~= traffic_label(epoch, direction as u8));
    hmac_sha256(&prk, &label)
}

/// The text that a proof of the network secret is made of: "easytier secret proof"
/// and the challenge.
pub open spec fn proof_text(challenge: Seq<u8>) -> Seq<u8> {
    vstd::utf8::encode_utf8("easytier secret proof"@) + challenge
}

/// The proof that its maker knows a network secret.
pub open spec fn secret_proof_of(secret: Seq<u8>, challenge: Seq<u8>) -> Seq<u8> {
    hmac_of(secret, proof_text(challenge))
}

fn proof_message(challenge: &[u8]) -> (r: Vec<u8>)
    ensures
        r@ == proof_text(challenge@),
{
    let mut message: Vec<u8> = Vec::new();
    bytes::put_bytes(&mut message, "easytier secret proof".as_bytes());
    bytes::put_bytes(&mut message, challenge);
    assert(message@ =~= proof_text(challenge@));
    message
}

pub fn secret_proof(secret: &[u8], challenge: &[u8]) -> (r: Vec<u8>)
    ensures
        r@ == secret_proof_of(secret@, challenge@),
        r@.len() == 32,
{
    let proof = hmac_sha256(secret, &proof_message(challenge));
    vstd::slice::slice_to_vec(&proof)
}

/// Whether `proof` is the proof for a secret and a challenge.
pub fn verify_secret_proof(secret: &[u8], challenge: &[u8], proof: &[u8]) -> (r: bool)
    ensures
        r == (proof@ == secret_proof_of(secret@, challenge@)),
{
    hmac_verify(secret, &proof_message(challenge), proof)
}

/// The key that a configured text stands for, given what its Base64 decoding gave.
pub open spec fn key_of_decoded(decoded: Option<Seq<u8>>, label: KeyLabel) -> Result<Seq<u8>, EdgeError> {
    match decoded {
        Some(bytes) => if bytes.len() == 32 {
            Ok(bytes)
        } else {
            Err(EdgeError::KeyWrongLength { label, len: bytes.len() as usize })
        },
        None => Err(EdgeError::KeyNotBase64 { label }),
    }
}

/// The view of a key, or why there is none.
pub open spec fn key_view(r: Result<[u8; 32], EdgeError>) -> Result<Seq<u8>, EdgeError> {
    match r {
        Ok(key) => Ok(key@),
        Err(error) => Err(error),
    }
}

/// The key that decoding gave.
pub fn key_from_decoded(decoded: Option<Vec<u8>>, label: KeyLabel) -> (r: Result<[u8; 32], EdgeError>)
    ensures
        key_view(r) == key_of_decoded(crate::collections::option_view(decoded), label),
{
    match decoded {
        Some(decoded) => match bytes::to_key(&decoded) {
            Some(key) => Ok(key),
            None => Err(EdgeError::KeyWrongLength { label, len: decoded.len() }),
        },
        None => Err(EdgeError::KeyNotBase64 { label }),
    }
}

/// The key that a configured text stands for.
pub fn decode_key(value: &str, label: KeyLabel) -> (r: Result<[u8; 32], EdgeError>)
    ensures
        key_view(r) == key_of_decoded(base64_decoded(value@), label),
{
    key_from_decoded(base64_decode(value), label)
}

/// Each of two different peers sends in a direction of its own, and both ends
/// agree on which.
pub proof fn law_directions_are_opposite(a: u32, b: u32)
    requires
        a != b,
    ensures
        direction_of(a, b) + direction_of(b, a) == 1,
{
}

/// The cipher does not depend on the case of its name's letters.
pub proof fn law_algorithm_ignores_case(a: Seq<char>, b: Seq<char>)
    requires
        text::same_ignoring_case(a, b),
    ensures
        algorithm_of(a) == algorithm_of(b),
{
    text::lemma_same_ignoring_case(a, b, "aes-gcm"@);
    text::lemma_same_ignoring_case(a, b, "aes-256-gcm"@);
    text::lemma_same_ignoring_case(a, b, "chacha20"@);
    text::lemma_same_ignoring_case(a, b, "chacha20-poly1305"@);
}

} // verus!
