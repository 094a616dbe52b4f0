//! The abstract crypto provider ("vault").
//!
//! Key material lives behind this trait and is reached only through handles.
//! Of its operations, this layer consumes exactly the two AEAD ones; the
//! handshake-internal primitives (random, hashing, key agreement, key
//! derivation) are the key-exchange strategy's business, not the manager's.

use vstd::prelude::*;

use crate::kex::SecretKeyContext;

verus! {

/// A failure inside the crypto provider.
#[derive(Clone, Copy, Debug, PartialEq, Eq, Structural)]
pub struct VaultFailError;

/// The methods the channel layer calls on a vault.
///
/// The two spec functions make each vault value a deterministic function
/// from key handle, input, nonce and associated data to its output; the
/// executable methods follow them whenever they succeed.
pub trait DynVault {
    /// The ciphertext-and-tag this vault yields for an AEAD encryption.
    /// The default leaves it unspecified; a verified vault overrides it.
    open spec fn aead_encrypt_spec(
        &self,
        context: SecretKeyContext,
        plaintext: Seq<u8>,
        nonce: Seq<u8>,
        aad: Seq<u8>,
    ) -> Seq<u8> {
        vstd::pervasive::arbitrary()
    }

    /// The plaintext this vault yields for an AEAD decryption, where the
    /// ciphertext authenticates at all. The default leaves it unspecified; a
    /// verified vault overrides it.
    open spec fn aead_decrypt_spec(
        &self,
        context: SecretKeyContext,
        cipher_text: Seq<u8>,
        nonce: Seq<u8>,
        aad: Seq<u8>,
    ) -> Option<Seq<u8>> {
        vstd::pervasive::arbitrary()
    }

    /// Encrypts a payload under the keyed AEAD scheme.
    fn aead_aes_gcm_encrypt(
        &mut self,
        context: SecretKeyContext,
        plaintext: &[u8],
        nonce: &[u8],
        aad: &[u8],
    ) -> (r: Result<Vec<u8>, VaultFailError>)
        ensures
            r matches Ok(ct) ==> ct@ == old(self).aead_encrypt_spec(
                context,
                plaintext@,
                nonce@,
                aad@,
            ),
    ;

    /// Decrypts and authenticates a payload under the keyed AEAD scheme.
    fn aead_aes_gcm_decrypt(
        &mut self,
        context: SecretKeyContext,
        cipher_text: &[u8],
        nonce: &[u8],
        aad: &[u8],
    ) -> (r: Result<Vec<u8>, VaultFailError>)
        ensures
            r matches Ok(pt) ==> old(self).aead_decrypt_spec(context, cipher_text@, nonce@, aad@)
                == Some(pt@),
    ;
}

} // verus!
