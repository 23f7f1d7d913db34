//! Symmetric encryption for the gateway's collaborators: AES-256 in CBC
//! mode with PKCS#7 padding. With a fixed key and initialization vector
//! both directions are pure functions of their input, named by
//! `aes_cbc_encrypt` and `aes_cbc_decrypt`.

use vstd::prelude::*;
use aes::cipher::block_padding::Pkcs7;
use aes::cipher::{BlockModeDecrypt, BlockModeEncrypt, KeyIvInit};

verus! {

/// The AES-256-CBC/PKCS#7 ciphertext of a message under a key and an
/// initialization vector: a pure function of the three.
pub uninterp spec fn aes_cbc_encrypt(key: Seq<u8>, iv: Seq<u8>, msg: Seq<u8>) -> Seq<u8>;

/// The AES-256-CBC/PKCS#7 decryption of a buffer under a key and an
/// initialization vector: the plaintext, or nothing when the buffer is
/// no whole number of blocks or its padding is malformed.
pub uninterp spec fn aes_cbc_decrypt(key: Seq<u8>, iv: Seq<u8>, buf: Seq<u8>) -> Option<Seq<u8>>;

/// A fixed AES-256-CBC cipher: a 32-byte key and a 16-byte
/// initialization vector.
pub struct Aes {
    pub key: Vec<u8>,
    pub iv: Vec<u8>,
}

impl Aes {
    pub open spec fn wf(self) -> bool {
        self.key@.len() == 32 && self.iv@.len() == 16
    }

    pub fn new(key: Vec<u8>, iv: Vec<u8>) -> (r: Aes)
        requires
            key@.len() == 32,
            iv@.len() == 16,
        ensures
            r.wf(),
            r.key@ == key@,
            r.iv@ == iv@,
    {
        Aes { key, iv }
    }
}

/// Relies on cbc::Encryptor over aes::Aes256 with Pkcs7 padding: a pure
/// function of key, iv and message; the output is the message padded up
/// to the next whole block, and decrypting it under the same key and
/// initialization vector restores the message (CBC inverts block by
/// block and the padding always unpads).
#[verifier::external_body]
fn aes_encrypt_call(key: &[u8], iv: &[u8], msg: &[u8]) -> (r: Vec<u8>)
    requires
        key@.len() == 32,
        iv@.len() == 16,
    ensures
        r@ == aes_cbc_encrypt(key@, iv@, msg@),
        r@.len() == 16 * (msg@.len() / 16 + 1),
        aes_cbc_decrypt(key@, iv@, r@) == Some(msg@),
{
    let enc = cbc::Encryptor::<aes::Aes256>::new_from_slices(key, iv).unwrap();
    enc.encrypt_padded_vec::<Pkcs7>(msg)
}

/// Relies on cbc::Decryptor over aes::Aes256 with Pkcs7 padding: a pure
/// function of key, iv and buffer, failing exactly on buffers that are
/// no whole number of blocks or unpad wrongly.
#[verifier::external_body]
fn aes_decrypt_call(key: &[u8], iv: &[u8], buf: &[u8]) -> (r: Option<Vec<u8>>)
    requires
        key@.len() == 32,
        iv@.len() == 16,
    ensures
        r is Some <==> aes_cbc_decrypt(key@, iv@, buf@) is Some,
        r matches Some(p) ==> aes_cbc_decrypt(key@, iv@, buf@) == Some(p@),
{
    let dec = cbc::Decryptor::<aes::Aes256>::new_from_slices(key, iv).unwrap();
    dec.decrypt_padded_vec::<Pkcs7>(buf).ok()
}

/// Encrypt a message under the cipher; decrypting the result under the
/// same cipher restores the message.
pub fn encode(cipher: &Aes, text: &[u8]) -> (r: Vec<u8>)
    requires
        cipher.wf(),
    ensures
        r@ == aes_cbc_encrypt(cipher.key@, cipher.iv@, text@),
        r@.len() == 16 * (text@.len() / 16 + 1),
        aes_cbc_decrypt(cipher.key@, cipher.iv@, r@) == Some(text@),
{
    aes_encrypt_call(cipher.key.as_slice(), cipher.iv.as_slice(), text)
}

/// Decrypt a buffer under the cipher: the plaintext, or nothing when
/// the buffer is no valid ciphertext shape.
pub fn decode(cipher: &Aes, buf: &[u8]) -> (r: Option<Vec<u8>>)
    requires
        cipher.wf(),
    ensures
        r is Some <==> aes_cbc_decrypt(cipher.key@, cipher.iv@, buf@) is Some,
        r matches Some(p) ==> aes_cbc_decrypt(cipher.key@, cipher.iv@, buf@) == Some(p@),
{
    aes_decrypt_call(cipher.key.as_slice(), cipher.iv.as_slice(), buf)
}

} // verus!
