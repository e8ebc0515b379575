//! The keys that are derived from the one key that both sides share.
use vstd::prelude::*;
use vstd::utf8::encode_utf8;

verus! {

/// Number of bytes in a derived key.
pub const KEY_LENGTH: usize = 32;

/// The first `length` bytes that HKDF with SHA-256 and no salt gives for the key material
/// `key` and the context `info`.
pub uninterp spec fn hkdf_sha256(key: Seq<u8>, info: Seq<u8>, length: nat) -> Seq<u8>;

/// Calls `hkdf::Hkdf::<sha2::Sha256>::new` without a salt, and `expand` on what it returns.
///
/// Claimed of them: the result is a function of the key material, the context and the
/// length, and has the length that was asked for. `expand` refuses more than 255 blocks of
/// 32 bytes; such a length is left out.
#[verifier::external_body]
fn hkdf_sha256_expand(key: &[u8], info: &[u8], length: usize) -> (okm: Vec<u8>)
    requires
        length <= 255 * 32,
    ensures
        okm@ == hkdf_sha256(key@, info@, length as nat),
        okm@.len() == length,
{
    let mut okm = vec![0u8; length];
    hkdf::Hkdf::<sha2::Sha256>::new(None, key).expand(info, &mut okm).unwrap();
    okm
}

/// The key for one `purpose` that follows from `key`.
pub open spec fn derived_key(key: Seq<u8>, purpose: Seq<char>) -> Seq<u8> {
    hkdf_sha256(key, encode_utf8(purpose), KEY_LENGTH as nat)
}

/// Derives from `key` the key for one `purpose`.
pub fn derive_key_from_purpose(key: &[u8], purpose: &str) -> (sub_key: Vec<u8>)
    ensures
        sub_key@ == derived_key(key@, purpose@),
        sub_key@.len() == KEY_LENGTH,
{
    hkdf_sha256_expand(key, purpose.as_bytes(), KEY_LENGTH)
}

/// The key under which the sending side seals its records.
pub open spec fn sender_record_key(key: Seq<u8>) -> Seq<u8> {
    derived_key(key, "transit_record_sender_key"@)
}

/// The key under which the receiving side seals its records.
pub open spec fn receiver_record_key(key: Seq<u8>) -> Seq<u8> {
    derived_key(key, "transit_record_receiver_key"@)
}

/// Derives the keys for records: that of the sending side, then that of the receiving side.
pub fn make_record_keys(key: &[u8]) -> (keys: (Vec<u8>, Vec<u8>))
    ensures
        keys.0@ == sender_record_key(key@),
        keys.1@ == receiver_record_key(key@),
        keys.0@.len() == KEY_LENGTH,
        keys.1@.len() == KEY_LENGTH,
{
    let sender = derive_key_from_purpose(key, "transit_record_sender_key");
    let receiver = derive_key_from_purpose(key, "transit_record_receiver_key");
    (sender, receiver)
}

} // verus!
