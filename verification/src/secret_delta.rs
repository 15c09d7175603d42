//! The secrets deltas that the owner of a private board sends: a rotation
//! to a new secret version, sealed for every member who is not banned, and
//! the current secret sealed for the members who lack it. Sealing a secret
//! for a member (ECIES over X25519 and AES-GCM) is done by the caller, who
//! hands in one sealed blob per recipient, in the order of the plan.
use vstd::prelude::*;

use crate::board::{
    keeps_all_but_secrets, members_lacking, rotation_allowed, rotation_plan, BoardData,
    RotateSecretError,
};
use crate::crypto::{ed25519_public, keys_equal};
use crate::ids::{member_id_of_key, MemberId};
use crate::message::Timestamp;
use crate::state::{PrivacyMode, SecretVersionRecord};
use crate::wire::copy_bytes;

verus! {

/// A board secret sealed for one member.
pub struct EncryptedSecretBlob {
    pub ciphertext: Vec<u8>,
    pub nonce: [u8; 12],
    pub sender_ephemeral_public_key: [u8; 32],
}

/// The board secret of a version, sealed for one member, as a delta
/// carries it.
pub struct SecretForMember {
    pub member_id: MemberId,
    pub secret_version: u32,
    pub ciphertext: Vec<u8>,
    pub nonce: [u8; 12],
    pub sender_ephemeral_public_key: [u8; 32],
    /// Who sealed it: the owner.
    pub provider: MemberId,
}

/// A change to a board's secrets: a new current version, new version
/// records, and new sealed secrets.
pub struct SecretsDelta {
    pub current_version: Option<u32>,
    pub new_versions: Vec<SecretVersionRecord>,
    pub new_encrypted_secrets: Vec<SecretForMember>,
}

/// Whether `e` is `blob`, the secret of `version` sealed for `id` by
/// `provider`.
pub open spec fn sealed_for(
    e: SecretForMember,
    id: MemberId,
    version: u32,
    blob: EncryptedSecretBlob,
    provider: MemberId,
) -> bool {
    &&& e.member_id == id
    &&& e.secret_version == version
    &&& e.ciphertext@ == blob.ciphertext@
    &&& e.nonce == blob.nonce
    &&& e.sender_ephemeral_public_key == blob.sender_ephemeral_public_key
    &&& e.provider == provider
}

/// Whether `es` holds, for each recipient in order, their blob.
pub open spec fn seals_each(
    es: Seq<SecretForMember>,
    to: Seq<(MemberId, [u8; 32])>,
    version: u32,
    blobs: Seq<EncryptedSecretBlob>,
    provider: MemberId,
) -> bool {
    &&& es.len() == to.len()
    &&& forall|i: int| 0 <= i < es.len() ==> sealed_for(#[trigger] es[i], to[i].0, version, blobs[i], provider)
}

/// What a rotation does: refused as its plan is, with nothing changed;
/// otherwise the delta makes the planned version current, records it as
/// made at `now`, and carries the new secret sealed for each recipient; the
/// user keeps the new secret as current, rotated at `now`.
pub open spec fn rotation_outcome(
    old: BoardData,
    new: BoardData,
    r: Result<SecretsDelta, RotateSecretError>,
    secret: [u8; 32],
    blobs: Seq<EncryptedSecretBlob>,
    now: Timestamp,
) -> bool {
    &&& keeps_all_but_secrets(old, new)
    &&& match rotation_plan(old) {
        Err(e) => {
            &&& r == Err::<SecretsDelta, RotateSecretError>(e)
            &&& new.secrets@ == old.secrets@
            &&& new.current_secret_version == old.current_secret_version
            &&& new.last_secret_rotation == old.last_secret_rotation
        },
        Ok((v, to)) => {
            &&& r is Ok
            &&& r->Ok_0.current_version == Some(v)
            &&& r->Ok_0.new_versions@ == seq![SecretVersionRecord { version: v, created_at: now }]
            &&& seals_each(r->Ok_0.new_encrypted_secrets@, to, v, blobs, member_id_of_key(old.owner_vk@))
            &&& new.secrets@ == old.secrets@.insert(v, secret)
            &&& new.current_secret_version == Some(v)
            &&& new.last_secret_rotation == Some(now)
        },
    }
}

/// The members who lack the current secret, where the owner can seal it
/// for them: on a private board whose current secret the user holds, the
/// current version and, for each member whose id holds no sealed secret of
/// it, the id and key; `None` where there is no such member.
pub open spec fn missing_secret_plan(b: BoardData) -> Option<(u32, Seq<(MemberId, [u8; 32])>)> {
    match b.current_secret_version {
        Some(v) => if b.board_state.configuration.privacy_mode == PrivacyMode::Private
            && b.secrets@.contains_key(v) && members_lacking(b.board_state, v).len() > 0 {
            Some((v, members_lacking(b.board_state, v)))
        } else {
            None
        },
        None => None,
    }
}

fn seal_all(
    to: &Vec<(MemberId, [u8; 32])>,
    version: u32,
    blobs: &Vec<EncryptedSecretBlob>,
    provider: MemberId,
) -> (r: Vec<SecretForMember>)
    requires
        blobs@.len() == to@.len(),
    ensures
        seals_each(r@, to@, version, blobs@, provider),
{
    let mut out: Vec<SecretForMember> = Vec::new();
    let mut i: usize = 0;
    while i < to.len()
        invariant
            i <= to@.len(),
            blobs@.len() == to@.len(),
            out@.len() == i,
            forall|j: int| 0 <= j < i ==> sealed_for(#[trigger] out@[j], to@[j].0, version, blobs@[j], provider),
        decreases to.len() - i,
    {
        let blob = &blobs[i];
        out.push(
            SecretForMember {
                member_id: to[i].0,
                secret_version: version,
                ciphertext: copy_bytes(blob.ciphertext.as_slice()),
                nonce: blob.nonce,
                sender_ephemeral_public_key: blob.sender_ephemeral_public_key,
                provider,
            },
        );
        i = i + 1;
    }
    out
}

impl BoardData {
    /// Rotates the board secret to `new_secret`, given the blobs that seal
    /// it for the recipients of the rotation plan, in order. Refused, with
    /// nothing changed, as the plan is (a public board, a user who is not
    /// the owner, no member who is not banned). Otherwise the delta makes
    /// the next version current, records it as made at `now`, and carries
    /// one sealed secret per member who is not banned; the user keeps the
    /// new secret as current, rotated at `now`.
    pub fn rotate_secret(
        &mut self,
        new_secret: [u8; 32],
        blobs: &Vec<EncryptedSecretBlob>,
        now: Timestamp,
    ) -> (r: Result<SecretsDelta, RotateSecretError>)
        requires
            rotation_allowed(*old(self)) ==> old(self).board_state.secrets.current_version < u32::MAX,
            rotation_plan(*old(self)) matches Ok((_, to)) ==> blobs@.len() == to.len(),
        ensures
            rotation_outcome(*old(self), *final(self), r, new_secret, blobs@, now),
    {
        let provider = self.owner_id();
        let plan = self.plan_secret_rotation();
        match plan {
            Err(e) => {
                assert(rotation_plan(*old(self)) == Err::<(u32, Seq<(MemberId, [u8; 32])>), RotateSecretError>(e));
                Err(e)
            },
            Ok((v, to)) => {
                assert(rotation_plan(*old(self)) == Ok::<(u32, Seq<(MemberId, [u8; 32])>), RotateSecretError>((v, to@)));
                let entries = seal_all(&to, v, blobs, provider);
                self.record_secret_rotation(new_secret, v, now);
                let mut versions: Vec<SecretVersionRecord> = Vec::new();
                versions.push(SecretVersionRecord { version: v, created_at: now });
                assert(versions@ == seq![SecretVersionRecord { version: v, created_at: now }]);
                Ok(
                    SecretsDelta {
                        current_version: Some(v),
                        new_versions: versions,
                        new_encrypted_secrets: entries,
                    },
                )
            },
        }
    }

    /// Rotates the board secret as `rotate_secret` does, where that can be
    /// done: `None`, with nothing changed, where the user may rotate but
    /// the board's version is the largest there is, or where the number of
    /// blobs is not that of the plan's recipients.
    pub fn try_rotate_secret(
        &mut self,
        new_secret: [u8; 32],
        blobs: &Vec<EncryptedSecretBlob>,
        now: Timestamp,
    ) -> (r: Option<Result<SecretsDelta, RotateSecretError>>)
        ensures
            ({
                let refused = (rotation_allowed(*old(self)) && old(self).board_state.secrets.current_version
                    == u32::MAX) || (rotation_plan(*old(self)) matches Ok((_, to)) && blobs@.len()
                    != to.len());
                match r {
                    None => refused && *final(self) == *old(self),
                    Some(x) => !refused && rotation_outcome(*old(self), *final(self), x, new_secret, blobs@, now),
                }
            }),
    {
        if self.is_private() && keys_equal(&self.owner_vk, &ed25519_public(&self.self_sk))
            && self.board_state.secrets.current_version == u32::MAX {
            return None;
        }
        match self.plan_secret_rotation() {
            Ok((_, to)) => {
                if to.len() != blobs.len() {
                    return None;
                }
            },
            Err(_) => {},
        }
        Some(self.rotate_secret(new_secret, blobs, now))
    }

    /// The delta that seals the current secret for the members who lack
    /// it, given one blob per such member in the order of
    /// `members_missing_secret`: no new current version, no new version
    /// records, and one sealed secret of the current version per member
    /// who lacks it, sealed by the owner. `None` where nobody lacks it, the
    /// board is public, or the user holds no current secret.
    pub fn generate_missing_member_secrets(&self, blobs: &Vec<EncryptedSecretBlob>) -> (r: Option<SecretsDelta>)
        requires
            missing_secret_plan(*self) matches Some((_, to)) ==> blobs@.len() == to.len(),
        ensures
            match missing_secret_plan(*self) {
                None => r is None,
                Some((v, to)) => {
                    &&& r is Some
                    &&& r->Some_0.current_version is None
                    &&& r->Some_0.new_versions@.len() == 0
                    &&& seals_each(r->Some_0.new_encrypted_secrets@, to, v, blobs@, member_id_of_key(self.owner_vk@))
                },
            },
    {
        match self.members_missing_secret() {
            None => None,
            Some((v, to)) => {
                let entries = seal_all(&to, v, blobs, self.owner_id());
                Some(
                    SecretsDelta {
                        current_version: None,
                        new_versions: Vec::new(),
                        new_encrypted_secrets: entries,
                    },
                )
            },
        }
    }
}

} // verus!
