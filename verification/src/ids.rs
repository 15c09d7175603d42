//! Identifiers of members and messages: 64-bit rolling hashes of key and
//! signature bytes.
use vstd::prelude::*;

use crate::hash::{fast_hash, spec_fast_hash};
use crate::text::{decimal, int_to_string};

verus! {

/// A 64-bit hash value.
#[derive(Clone, Copy, PartialEq, Eq, Structural, Debug, Hash, PartialOrd, Ord)]
pub struct FastHash(pub i64);

/// Identifies a member by the hash of their 32-byte verifying key.
#[derive(Clone, Copy, PartialEq, Eq, Structural, Debug, Hash, PartialOrd, Ord)]
pub struct MemberId(pub FastHash);

/// Identifies a message by the hash of its 64-byte signature.
#[derive(Clone, Copy, PartialEq, Eq, Structural, Debug, Hash, PartialOrd, Ord)]
pub struct MessageId(pub FastHash);

/// The member id that belongs to a verifying key.
pub open spec fn member_id_of_key(vk: Seq<u8>) -> MemberId {
    MemberId(FastHash(spec_fast_hash(vk)))
}

/// The message id that belongs to a signature.
pub open spec fn message_id_of_signature(sig: Seq<u8>) -> MessageId {
    MessageId(FastHash(spec_fast_hash(sig)))
}

impl MemberId {
    /// The member id of the verifying key `vk`.
    pub fn from_verifying_key(vk: &[u8; 32]) -> (r: MemberId)
        ensures
            r == member_id_of_key(vk@),
    {
        MemberId(FastHash(fast_hash(vk.as_slice())))
    }

    /// The raw hash value.
    pub fn value(&self) -> (r: i64)
        ensures
            r == self.0.0,
    {
        self.0.0
    }

    /// The member id as text: its hash value in decimal.
    pub fn to_display_string(&self) -> (r: String)
        ensures
            r@ == decimal(self.0.0 as int),
    {
        int_to_string(self.0.0 as i128)
    }
}

impl MessageId {
    /// The message id of the signature bytes `sig`.
    pub fn from_signature(sig: &[u8; 64]) -> (r: MessageId)
        ensures
            r == message_id_of_signature(sig@),
    {
        MessageId(FastHash(fast_hash(sig.as_slice())))
    }

    /// The raw hash value.
    pub fn value(&self) -> (r: i64)
        ensures
            r == self.0.0,
    {
        self.0.0
    }
}

} // verus!
