//! Primitive NEAR values that actions carry: integers, bytes, keys, signatures
//! and account ids.

use vstd::prelude::*;

verus! {

/// The length of an ed25519 public key in bytes.
pub const ED25519_PUBLIC_KEY_LENGTH: usize = 32;

/// The length of a secp256k1 public key in bytes, without its prefix byte.
pub const SECP256K1_PUBLIC_KEY_LENGTH: usize = 64;

/// The length of an ed25519 signature in bytes.
pub const ED25519_SIGNATURE_LENGTH: usize = 64;

/// The length of a recoverable secp256k1 signature in bytes.
pub const SECP256K1_SIGNATURE_LENGTH: usize = 65;

/// A 64-bit unsigned integer that the text form writes as a decimal string.
#[derive(Debug, Clone, Copy, PartialEq, Eq, Structural)]
pub struct U64(pub u64);

/// A 128-bit unsigned integer that the text form writes as a decimal string.
#[derive(Debug, Clone, Copy, PartialEq, Eq, Structural)]
pub struct U128(pub u128);

/// Raw bytes that the text form writes in base64.
#[derive(Debug, Clone, PartialEq, Eq)]
pub struct Base64VecU8(pub Vec<u8>);

/// A 32-byte hash.
#[derive(Debug, Clone, Copy, PartialEq, Eq)]
pub struct BlockHash(pub [u8; 32]);

/// An ed25519 public key.
#[derive(Debug, Clone, Copy, PartialEq, Eq)]
pub struct ED25519PublicKey(pub [u8; ED25519_PUBLIC_KEY_LENGTH]);

/// A secp256k1 public key, uncompressed and without its prefix byte.
#[derive(Debug, Clone, Copy, PartialEq, Eq)]
pub struct Secp256K1PublicKey(pub [u8; SECP256K1_PUBLIC_KEY_LENGTH]);

/// A public key of one of the supported curves.
#[derive(Debug, Clone, Copy, PartialEq, Eq)]
pub enum PublicKey {
    ED25519(ED25519PublicKey),
    SECP256K1(Secp256K1PublicKey),
}

/// An ed25519 signature.
#[derive(Debug, Clone, Copy, PartialEq, Eq)]
pub struct ED25519Signature(pub [u8; ED25519_SIGNATURE_LENGTH]);

/// A recoverable secp256k1 signature.
#[derive(Debug, Clone, Copy, PartialEq, Eq)]
pub struct Secp256K1Signature(pub [u8; SECP256K1_SIGNATURE_LENGTH]);

/// A signature of one of the supported curves, opaque to this library.
#[derive(Debug, Clone, Copy, PartialEq, Eq)]
pub enum Signature {
    ED25519(ED25519Signature),
    SECP256K1(Secp256K1Signature),
}

/// Whether a text is a valid NEAR account id.
pub uninterp spec fn account_id_valid(s: Seq<char>) -> bool;

/// Relies on near_account_id::AccountId::validate, which returns `Ok` exactly
/// for the valid account ids: 2 to 64 bytes of lowercase letters and digits,
/// separated by single `-`, `_` or `.`.
#[verifier::external_body]
fn validate_account_id(s: &str) -> (r: bool)
    ensures
        r == account_id_valid(s@),
{
    near_account_id::AccountId::validate(s).is_ok()
}

/// A text that is not a valid account id.
#[derive(Debug, Clone, Copy, PartialEq, Eq, Structural)]
pub struct InvalidAccountId;

/// A valid NEAR account id.
#[derive(Debug, PartialEq, Eq)]
pub struct AccountId {
    id: String,
}

impl View for AccountId {
    type V = Seq<char>;

    closed spec fn view(&self) -> Seq<char> {
        self.id@
    }
}

impl Clone for AccountId {
    fn clone(&self) -> (r: Self)
        ensures
            r@ == self@,
    {
        proof {
            use_type_invariant(self);
        }
        AccountId { id: self.id.clone() }
    }
}

impl AccountId {
    #[verifier::type_invariant]
    spec fn wf(self) -> bool {
        account_id_valid(self.id@)
    }

    /// The account id with the given text; fails unless the text is valid.
    pub fn new(id: String) -> (r: Result<AccountId, InvalidAccountId>)
        ensures
            r is Ok <==> account_id_valid(id@),
            r matches Ok(a) ==> a@ == id@,
    {
        if validate_account_id(id.as_str()) {
            Ok(AccountId { id })
        } else {
            Err(InvalidAccountId)
        }
    }

    /// The text of the account id.
    pub fn as_str(&self) -> (r: &str)
        ensures
            r@ == self@,
            account_id_valid(r@),
    {
        proof {
            use_type_invariant(self);
        }
        self.id.as_str()
    }
}

} // verus!
