//! Authenticated encryption with a key that both sides hold.
use vstd::prelude::*;

verus! {

/// Number of bytes in a key.
pub const KEYBYTES: usize = 32;

/// Number of bytes in a nonce.
pub const NONCEBYTES: usize = 24;

/// Number of bytes by which a sealed message is longer than the message.
pub const MACBYTES: usize = 16;

/// `message`, sealed under `key` with `nonce`.
pub uninterp spec fn secretbox_seal(message: Seq<u8>, nonce: Seq<u8>, key: Seq<u8>) -> Seq<u8>;

/// The message that was sealed as `ciphertext` under `key` with `nonce`, if there is one.
pub uninterp spec fn secretbox_open(ciphertext: Seq<u8>, nonce: Seq<u8>, key: Seq<u8>) -> Option<
    Seq<u8>,
>;

/// Calls `sodiumoxide::crypto::secretbox::seal`.
///
/// Claimed of it: the result is a function of the message, the nonce and the key; it is 16
/// bytes longer than the message; and `open` gives the message back from it, under the same
/// key and with the same nonce. A key or a nonce of another length does not exist in
/// `sodiumoxide`, and a result that would be longer than a `Vec` can be makes it panic: both
/// are left out.
#[verifier::external_body]
pub(crate) fn seal(message: &[u8], nonce: &[u8], key: &[u8]) -> (ciphertext: Vec<u8>)
    requires
        nonce@.len() == NONCEBYTES,
        key@.len() == KEYBYTES,
        message@.len() + MACBYTES <= isize::MAX,
    ensures
        ciphertext@ == secretbox_seal(message@, nonce@, key@),
        ciphertext@.len() == message@.len() + MACBYTES,
        secretbox_open(ciphertext@, nonce@, key@) == Some(message@),
{
    let nonce = sodiumoxide::crypto::secretbox::Nonce::from_slice(nonce).unwrap();
    let key = sodiumoxide::crypto::secretbox::Key::from_slice(key).unwrap();
    sodiumoxide::crypto::secretbox::seal(message, &nonce, &key)
}

/// Calls `sodiumoxide::crypto::secretbox::open`.
///
/// Claimed of it: the result is a function of the ciphertext, the nonce and the key; where
/// there is a message, the ciphertext is what `seal` makes of it under the same key and with
/// the same nonce, and so is 16 bytes longer. A key or a nonce of another length does not
/// exist in `sodiumoxide`, and is left out.
#[verifier::external_body]
pub(crate) fn open(ciphertext: &[u8], nonce: &[u8], key: &[u8]) -> (message: Option<Vec<u8>>)
    requires
        nonce@.len() == NONCEBYTES,
        key@.len() == KEYBYTES,
    ensures
        message is Some <==> secretbox_open(ciphertext@, nonce@, key@) is Some,
        message matches Some(m) ==> {
            &&& secretbox_open(ciphertext@, nonce@, key@) == Some(m@)
            &&& secretbox_seal(m@, nonce@, key@) == ciphertext@
            &&& m@.len() + MACBYTES == ciphertext@.len()
        },
{
    let nonce = sodiumoxide::crypto::secretbox::Nonce::from_slice(nonce).unwrap();
    let key = sodiumoxide::crypto::secretbox::Key::from_slice(key).unwrap();
    sodiumoxide::crypto::secretbox::open(ciphertext, &nonce, &key).ok()
}

} // verus!
