//! Board owner keys as people type them: base58 text.
use vstd::prelude::*;

use crate::text::{concat, decimal, int_to_string};

verus! {

/// The bytes that base58 text decodes to (Bitcoin alphabet); `None` where
/// the text is not base58.
pub uninterp spec fn spec_bs58_decode(s: Seq<char>) -> Option<Seq<u8>>;

/// Whether 32 bytes are a valid Ed25519 verifying key (a compressed point
/// that decompresses).
pub uninterp spec fn spec_valid_verifying_key(b: Seq<u8>) -> bool;

/// `bs58::decode(s).into_vec()`, its error mapped to `None`. The decoding
/// is a function of the text alone, named above; nothing more is stated of
/// it.
#[verifier::external_body]
pub(crate) fn bs58_decode(s: &str) -> (r: Option<Vec<u8>>)
    ensures
        match r {
            Some(v) => spec_bs58_decode(s@) == Some(v@),
            None => spec_bs58_decode(s@) is None,
        },
{
    bs58::decode(s).into_vec().ok()
}

/// `VerifyingKey::from_bytes(b).is_ok()`.
#[verifier::external_body]
pub(crate) fn verifying_key_is_valid(b: &[u8; 32]) -> (r: bool)
    ensures
        r == spec_valid_verifying_key(b@),
{
    ed25519_dalek::VerifyingKey::from_bytes(b).is_ok()
}

/// Why owner key text is refused.
#[derive(Clone, Copy, PartialEq, Eq, Structural, Debug)]
pub enum OwnerKeyError {
    /// The text is not base58.
    Decode,
    /// The text decodes to other than 32 bytes.
    Length(usize),
    /// The 32 bytes are not a valid verifying key.
    InvalidKey,
}

pub open spec fn owner_key_error_text(e: OwnerKeyError) -> Seq<char> {
    match e {
        OwnerKeyError::Decode => "Failed to decode board owner key"@,
        OwnerKeyError::Length(n) => "Invalid board owner key length: expected 32 bytes, got "@
            + decimal(n as int),
        OwnerKeyError::InvalidKey => "Invalid verifying key"@,
    }
}

impl OwnerKeyError {
    /// The text of the error.
    pub fn message(&self) -> (r: String)
        ensures
            r@ == owner_key_error_text(*self),
    {
        match self {
            OwnerKeyError::Decode => "Failed to decode board owner key".to_owned(),
            OwnerKeyError::Length(n) => {
                let s = int_to_string(*n as i128);
                concat("Invalid board owner key length: expected 32 bytes, got ", s.as_str())
            },
            OwnerKeyError::InvalidKey => "Invalid verifying key".to_owned(),
        }
    }
}

/// What owner key text parses to: refused where it is not base58, where it
/// decodes to other than 32 bytes, or where those bytes are not a valid
/// key.
pub open spec fn owner_key_of(s: Seq<char>) -> Result<Seq<u8>, OwnerKeyError> {
    match spec_bs58_decode(s) {
        None => Err(OwnerKeyError::Decode),
        Some(b) => if b.len() != 32 {
            Err(OwnerKeyError::Length(b.len() as usize))
        } else if !spec_valid_verifying_key(b) {
            Err(OwnerKeyError::InvalidKey)
        } else {
            Ok(b)
        },
    }
}

/// Parses base58 owner key text into the key's 32 bytes.
pub fn parse_owner_key(board_owner_key: &str) -> (r: Result<[u8; 32], OwnerKeyError>)
    ensures
        match owner_key_of(board_owner_key@) {
            Ok(b) => r matches Ok(k) && k@ == b,
            Err(e) => r == Err::<[u8; 32], OwnerKeyError>(e),
        },
{
    let decoded = match bs58_decode(board_owner_key) {
        Some(d) => d,
        None => {
            return Err(OwnerKeyError::Decode);
        },
    };
    let bytes = match check_key_length(decoded) {
        Ok(b) => b,
        Err(e) => {
            return Err(e);
        },
    };
    if !verifying_key_is_valid(&bytes) {
        return Err(OwnerKeyError::InvalidKey);
    }
    Ok(bytes)
}

/// The 32 bytes of a key decoded from text, or their number where it is not
/// 32.
pub fn check_key_length(decoded: Vec<u8>) -> (r: Result<[u8; 32], OwnerKeyError>)
    ensures
        decoded@.len() == 32 ==> (r matches Ok(k) && k@ == decoded@),
        decoded@.len() != 32 ==> r == Err::<[u8; 32], OwnerKeyError>(
            OwnerKeyError::Length(decoded@.len() as usize),
        ),
{
    if decoded.len() != 32 {
        return Err(OwnerKeyError::Length(decoded.len()));
    }
    let mut key_bytes = [0u8; 32];
    let mut i: usize = 0;
    while i < 32
        invariant
            decoded@.len() == 32,
            i <= 32,
            key_bytes@.len() == 32,
            forall|j: int| 0 <= j < i ==> key_bytes@[j] == decoded@[j],
        decreases 32 - i,
    {
        key_bytes.set(i, decoded[i]);
        i = i + 1;
    }
    assert(key_bytes@ =~= decoded@);
    Ok(key_bytes)
}

} // verus!
