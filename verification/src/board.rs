//! One user's view of one board: the user's key, the board's state, the
//! board secrets the user holds, and what the user may do.
use vstd::prelude::*;

use crate::admin::admin_id;
use crate::crypto::{ed25519_public, keys_equal, spec_ed25519_public};
use crate::ids::{member_id_of_key, MemberId, MessageId};
use crate::message::Timestamp;
use crate::state::{
    first_member_with_id, holds_secret, invite_chain_from, is_banned, AuthorizedMember,
    AuthorizedMemberInfo, AuthorizedMemberInfoView, ChatBoardParametersV1, ChatBoardStateV1,
    PrivacyMode,
};

verus! {

broadcast use vstd::std_specs::hash::group_hash_axioms;

/// How long a board secret is used before it is rotated: a week, in
/// seconds.
pub const SECRET_ROTATION_SECS: u64 = 7 * 24 * 60 * 60;

/// Why the user may not post.
#[derive(Clone, Copy, PartialEq, Eq, Structural, Debug)]
pub enum SendMessageError {
    UserNotMember,
    UserBanned,
}

/// A user's copy of a board.
pub struct BoardData {
    /// The owner's verifying key.
    pub owner_vk: [u8; 32],
    pub board_state: ChatBoardStateV1,
    /// The user's secret key.
    pub self_sk: [u8; 32],
    /// The last message the user has read.
    pub last_read_message_id: Option<MessageId>,
    /// The board secrets the user holds, by version.
    pub secrets: std::collections::HashMap<u32, [u8; 32]>,
    /// The latest secret version the user holds.
    pub current_secret_version: Option<u32>,
    /// When the secret was last rotated.
    pub last_secret_rotation: Option<Timestamp>,
    /// Whether the signing key has moved to the delegate.
    pub key_migrated_to_delegate: bool,
    /// The user's own membership, kept to rejoin after being pruned.
    pub self_authorized_member: Option<AuthorizedMember>,
    /// The inviters of the user, nearest first, up to the owner.
    pub invite_chain: Vec<AuthorizedMember>,
    /// The user's own member information, kept across pruning.
    pub self_member_info: Option<AuthorizedMemberInfo>,
}

/// Whether some member has the verifying key `vk`.
pub open spec fn has_member_key(members: Seq<AuthorizedMember>, vk: Seq<u8>) -> bool {
    exists|i: int| 0 <= i < members.len() && #[trigger] members[i].member.member_vk@ == vk
}

/// The position of the first member whose verifying key is `vk`.
pub open spec fn first_member_with_key(members: Seq<AuthorizedMember>, vk: Seq<u8>) -> Option<int>
    decreases members.len(),
{
    if members.len() == 0 {
        None
    } else {
        match first_member_with_key(members.drop_last(), vk) {
            Some(i) => Some(i),
            None => if members.last().member.member_vk@ == vk {
                Some(members.len() - 1)
            } else {
                None
            },
        }
    }
}

/// The total number of nanoseconds since the epoch.
pub open spec fn nanos_of(t: Timestamp) -> int {
    t.secs_since_epoch * 1_000_000_000 + t.nanos_since_epoch
}

/// Whether more than a week (in whole seconds) has passed from `since` to
/// `now`; false where `since` is later than `now`.
pub open spec fn over_a_week(since: Timestamp, now: Timestamp) -> bool {
    nanos_of(since) <= nanos_of(now) && (nanos_of(now) - nanos_of(since)) / 1_000_000_000
        > SECRET_ROTATION_SECS
}

/// The user's permission to post: refused where the user's id is banned;
/// granted to the owner, to a member with the user's key, and to a user
/// who keeps an invitation; refused to anyone else.
pub open spec fn posting_permission(
    owner_vk: Seq<u8>,
    user_vk: Seq<u8>,
    st: ChatBoardStateV1,
    has_invitation: bool,
) -> Result<(), SendMessageError> {
    if is_banned(st.bans.0@, member_id_of_key(user_vk)) {
        Err(SendMessageError::UserBanned)
    } else if user_vk == owner_vk || has_member_key(st.members.members@, user_vk)
        || has_invitation {
        Ok(())
    } else {
        Err(SendMessageError::UserNotMember)
    }
}

/// The position of the entry with the latest version among the member
/// information of `id`; of several with that version, the last.
pub open spec fn latest_info(infos: Seq<AuthorizedMemberInfo>, id: MemberId) -> Option<int>
    decreases infos.len(),
{
    if infos.len() == 0 {
        None
    } else {
        let best = latest_info(infos.drop_last(), id);
        let last = infos.last();
        if last.member_info.member_id == id && (match best {
            Some(b) => last.member_info.version >= infos[b].member_info.version,
            None => true,
        }) {
            Some(infos.len() - 1)
        } else {
            best
        }
    }
}

pub open spec fn opt_info_view(i: Option<AuthorizedMemberInfo>) -> Option<AuthorizedMemberInfoView> {
    match i {
        Some(x) => Some(x@),
        None => None,
    }
}

/// Whether the clock has run past the rotation period of the user's board
/// secret.
pub open spec fn rotation_due(b: BoardData, now: Timestamp) -> bool {
    &&& b.board_state.configuration.privacy_mode == PrivacyMode::Private
    &&& b.owner_vk@ == spec_ed25519_public(b.self_sk@)
    &&& match b.last_secret_rotation {
        Some(last) => over_a_week(last, now),
        None => b.board_state.secrets.versions@.len() > 0 && over_a_week(
            b.board_state.secrets.versions@[0].created_at,
            now,
        ),
    }
}

/// Whether `b` keeps, from `a`, everything but the secrets the user holds:
/// the keys, the board's state and the user's own membership data.
pub open spec fn keeps_all_but_secrets(a: BoardData, b: BoardData) -> bool {
    &&& b.owner_vk == a.owner_vk
    &&& b.self_sk == a.self_sk
    &&& b.board_state == a.board_state
    &&& b.last_read_message_id == a.last_read_message_id
    &&& b.key_migrated_to_delegate == a.key_migrated_to_delegate
    &&& b.self_authorized_member == a.self_authorized_member
    &&& b.invite_chain@ == a.invite_chain@
    &&& b.self_member_info == a.self_member_info
}

/// The current time: `SystemTime::now()` as a duration since the Unix
/// epoch (the epoch itself where the clock reads earlier). Nothing is
/// stated of it: it is the clock's reading.
#[verifier::external_body]
fn current_time() -> (r: Timestamp) {
    let d = std::time::SystemTime::now().duration_since(std::time::UNIX_EPOCH).unwrap_or_default();
    Timestamp { secs_since_epoch: d.as_secs(), nanos_since_epoch: d.subsec_nanos() }
}

fn more_than_a_week(since: Timestamp, now: Timestamp) -> (r: bool)
    ensures
        r == over_a_week(since, now),
{
    let a: u128 = since.secs_since_epoch as u128 * 1_000_000_000 + since.nanos_since_epoch as u128;
    let b: u128 = now.secs_since_epoch as u128 * 1_000_000_000 + now.nanos_since_epoch as u128;
    if a <= b {
        (b - a) / 1_000_000_000 > SECRET_ROTATION_SECS as u128
    } else {
        false
    }
}

impl BoardData {
    /// The key that the board is known by: the owner's verifying key.
    pub fn board_key(&self) -> (r: [u8; 32])
        ensures
            r == self.owner_vk,
    {
        self.owner_vk
    }

    /// Whether the board is private.
    pub fn is_private(&self) -> (r: bool)
        ensures
            r == (self.board_state.configuration.privacy_mode == PrivacyMode::Private),
    {
        self.board_state.configuration.privacy_mode == PrivacyMode::Private
    }

    /// The current secret and its version, where the user holds it.
    pub fn get_secret(&self) -> (r: Option<(&[u8; 32], u32)>)
        ensures
            r == (match self.current_secret_version {
                Some(v) => if self.secrets@.contains_key(v) {
                    Some((&self.secrets@[v], v))
                } else {
                    None
                },
                None => None,
            }),
    {
        match self.current_secret_version {
            Some(v) => match self.secrets.get(&v) {
                Some(s) => Some((s, v)),
                None => None,
            },
            None => None,
        }
    }

    /// The secret of `version`, where the user holds it.
    pub fn get_secret_for_version(&self, version: u32) -> (r: Option<&[u8; 32]>)
        ensures
            r == (if self.secrets@.contains_key(version) {
                Some(&self.secrets@[version])
            } else {
                None
            }),
    {
        self.secrets.get(&version)
    }

    /// The current secret, where the user holds it.
    pub fn current_secret(&self) -> (r: Option<&[u8; 32]>)
        ensures
            r == (match self.current_secret_version {
                Some(v) => if self.secrets@.contains_key(v) {
                    Some(&self.secrets@[v])
                } else {
                    None
                },
                None => None,
            }),
    {
        match self.current_secret_version {
            Some(v) => self.secrets.get(&v),
            None => None,
        }
    }

    /// Stores the secret of `version`; where no version is current yet or
    /// `version` is not older than the current one, it becomes current and
    /// `now` is recorded as the time of the last rotation.
    pub fn set_secret_at(&mut self, secret: [u8; 32], version: u32, now: Timestamp)
        ensures
            final(self).secrets@ == old(self).secrets@.insert(version, secret),
            (match old(self).current_secret_version {
                Some(v) => version >= v,
                None => true,
            }) ==> final(self).current_secret_version == Some(version)
                && final(self).last_secret_rotation == Some(now),
            !(match old(self).current_secret_version {
                Some(v) => version >= v,
                None => true,
            }) ==> final(self).current_secret_version == old(self).current_secret_version
                && final(self).last_secret_rotation == old(self).last_secret_rotation,
            keeps_all_but_secrets(*old(self), *final(self)),
    {
        self.secrets.insert(version, secret);
        let newer = match self.current_secret_version {
            Some(v) => version >= v,
            None => true,
        };
        if newer {
            self.current_secret_version = Some(version);
            self.last_secret_rotation = Some(now);
        }
    }

    /// Stores the secret of `version` as `set_secret_at` does, with the
    /// current time.
    pub fn set_secret(&mut self, secret: [u8; 32], version: u32)
        ensures
            final(self).secrets@ == old(self).secrets@.insert(version, secret),
            (match old(self).current_secret_version {
                Some(v) => version >= v,
                None => true,
            }) ==> final(self).current_secret_version == Some(version)
                && final(self).last_secret_rotation is Some,
            !(match old(self).current_secret_version {
                Some(v) => version >= v,
                None => true,
            }) ==> final(self).current_secret_version == old(self).current_secret_version
                && final(self).last_secret_rotation == old(self).last_secret_rotation,
            keeps_all_but_secrets(*old(self), *final(self)),
    {
        let now = current_time();
        self.set_secret_at(secret, version, now);
    }

    /// Whether the secret is due for rotation at time `now`: only on a
    /// private board whose owner is the user, where more than a week has
    /// passed since the last rotation or, where there was none, since the
    /// first secret version was made.
    pub fn needs_secret_rotation_at(&self, now: Timestamp) -> (r: bool)
        ensures
            r == rotation_due(*self, now),
    {
        if !self.is_private() {
            return false;
        }
        if !keys_equal(&self.owner_vk, &ed25519_public(&self.self_sk)) {
            return false;
        }
        match self.last_secret_rotation {
            None => {
                if self.board_state.secrets.versions.len() > 0 {
                    more_than_a_week(self.board_state.secrets.versions[0].created_at, now)
                } else {
                    false
                }
            },
            Some(last) => more_than_a_week(last, now),
        }
    }

    /// Whether the secret is due for rotation now: `needs_secret_rotation_at`
    /// at the clock's reading. Nothing is known of that reading, so either
    /// answer may come wherever the board is private and its owner is the
    /// user; elsewhere the answer is false.
    pub fn needs_secret_rotation(&self) -> (r: bool)
        ensures
            exists|now: Timestamp| r == #[trigger] rotation_due(*self, now),
            r ==> self.board_state.configuration.privacy_mode == PrivacyMode::Private
                && self.owner_vk@ == spec_ed25519_public(self.self_sk@),
    {
        let now = current_time();
        let r = self.needs_secret_rotation_at(now);
        assert(r == rotation_due(*self, now));
        r
    }
}

pub(crate) fn has_member_key_exec(members: &Vec<AuthorizedMember>, vk: &[u8; 32]) -> (r: bool)
    ensures
        r == has_member_key(members@, vk@),
{
    let mut i: usize = 0;
    while i < members.len()
        invariant
            i <= members@.len(),
            forall|j: int| 0 <= j < i ==> members@[j].member.member_vk@ != vk@,
        decreases members.len() - i,
    {
        if keys_equal(&members[i].member.member_vk, vk) {
            assert(members@[i as int].member.member_vk@ == vk@);
            return true;
        }
        i = i + 1;
    }
    false
}

proof fn lemma_first_member_with_key_bounds(members: Seq<AuthorizedMember>, vk: Seq<u8>)
    ensures
        first_member_with_key(members, vk) matches Some(i) ==> 0 <= i < members.len()
            && members[i].member.member_vk@ == vk,
    decreases members.len(),
{
    if members.len() > 0 {
        lemma_first_member_with_key_bounds(members.drop_last(), vk);
    }
}

fn find_member_with_key(members: &Vec<AuthorizedMember>, vk: &[u8; 32]) -> (r: Option<usize>)
    ensures
        match r {
            Some(i) => first_member_with_key(members@, vk@) == Some(i as int),
            None => first_member_with_key(members@, vk@) is None,
        },
{
    let mut i: usize = 0;
    while i < members.len()
        invariant
            i <= members@.len(),
            first_member_with_key(members@.subrange(0, i as int), vk@) is None,
        decreases members.len() - i,
    {
        let ghost pre = members@.subrange(0, i + 1);
        assert(pre.drop_last() =~= members@.subrange(0, i as int));
        if keys_equal(&members[i].member.member_vk, vk) {
            proof {
                lemma_first_member_with_key_prefix(members@, vk@, i + 1, i as int);
            }
            return Some(i);
        }
        proof {
            assert(first_member_with_key(pre, vk@) is None);
        }
        i = i + 1;
    }
    assert(members@.subrange(0, i as int) =~= members@);
    None
}

proof fn lemma_first_member_with_key_prefix(members: Seq<AuthorizedMember>, vk: Seq<u8>, k: int, i: int)
    requires
        0 < k <= members.len(),
        first_member_with_key(members.subrange(0, k), vk) == Some(i),
    ensures
        first_member_with_key(members, vk) == Some(i),
    decreases members.len() - k,
{
    if k < members.len() {
        let next = members.subrange(0, k + 1);
        assert(next.drop_last() =~= members.subrange(0, k));
        lemma_first_member_with_key_prefix(members, vk, k + 1, i);
    } else {
        assert(members.subrange(0, k) =~= members);
    }
}

fn is_banned_exec(st: &ChatBoardStateV1, id: MemberId) -> (r: bool)
    ensures
        r == is_banned(st.bans.0@, id),
{
    st.bans.bans(id)
}

impl BoardData {
    fn posting_check(&self) -> (r: Result<(), SendMessageError>)
        ensures
            r == posting_permission(
                self.owner_vk@,
                spec_ed25519_public(self.self_sk@),
                self.board_state,
                self.self_authorized_member is Some,
            ),
    {
        let verifying_key = ed25519_public(&self.self_sk);
        let member_id = MemberId::from_verifying_key(&verifying_key);
        if is_banned_exec(&self.board_state, member_id) {
            return Err(SendMessageError::UserBanned);
        }
        if keys_equal(&verifying_key, &self.owner_vk) {
            return Ok(());
        }
        if has_member_key_exec(&self.board_state.members.members, &verifying_key) {
            return Ok(());
        }
        if self.self_authorized_member.is_some() {
            return Ok(());
        }
        Err(SendMessageError::UserNotMember)
    }

    /// Whether the user may post: not where the user's id is banned; yes
    /// for the owner, for a member with the user's key and for a user who
    /// keeps an invitation; otherwise not.
    pub fn can_send_message(&self) -> (r: Result<(), SendMessageError>)
        ensures
            r == posting_permission(
                self.owner_vk@,
                spec_ed25519_public(self.self_sk@),
                self.board_state,
                self.self_authorized_member is Some,
            ),
    {
        self.posting_check()
    }

    /// Whether the user may take part (post, edit their profile); the same
    /// rule as for posting.
    pub fn can_participate(&self) -> (r: Result<(), SendMessageError>)
        ensures
            r == posting_permission(
                self.owner_vk@,
                spec_ed25519_public(self.self_sk@),
                self.board_state,
                self.self_authorized_member is Some,
            ),
    {
        self.posting_check()
    }

    /// Whether the user may create categories: the owner (by id) and the
    /// admins.
    pub fn can_create_categories(&self) -> (r: bool)
        ensures
            r == (member_id_of_key(spec_ed25519_public(self.self_sk@)) == member_id_of_key(
                self.owner_vk@,
            ) || exists|i: int|
                0 <= i < self.board_state.admin.admins@.len() && admin_id(
                    #[trigger] self.board_state.admin.admins@[i],
                ) == member_id_of_key(spec_ed25519_public(self.self_sk@))),
    {
        let self_id = MemberId::from_verifying_key(&ed25519_public(&self.self_sk));
        let owner_id = MemberId::from_verifying_key(&self.owner_vk);
        if self_id == owner_id {
            return true;
        }
        let admins = &self.board_state.admin.admins;
        let mut i: usize = 0;
        while i < admins.len()
            invariant
                i <= admins@.len(),
                self_id == member_id_of_key(spec_ed25519_public(self.self_sk@)),
                admins == &self.board_state.admin.admins,
                forall|j: int| 0 <= j < i ==> admin_id(#[trigger] admins@[j]) != self_id,
            decreases admins.len() - i,
        {
            if admins[i].admin.id() == self_id {
                assert(admin_id(admins@[i as int]) == self_id);
                return true;
            }
            i = i + 1;
        }
        false
    }

    /// The owner's member id.
    pub fn owner_id(&self) -> (r: MemberId)
        ensures
            r == member_id_of_key(self.owner_vk@),
    {
        MemberId::from_verifying_key(&self.owner_vk)
    }

    /// The board's parameters.
    pub fn parameters(&self) -> (r: ChatBoardParametersV1)
        ensures
            r.owner == self.owner_vk,
    {
        ChatBoardParametersV1 { owner: self.owner_vk }
    }

    /// Replaces the first member whose key is `old_member_vk` by
    /// `new_authorized_member`; false, and no change, where there is none.
    pub fn restore_member_access(
        &mut self,
        old_member_vk: [u8; 32],
        new_authorized_member: AuthorizedMember,
    ) -> (r: bool)
        ensures
            match first_member_with_key(old(self).board_state.members.members@, old_member_vk@) {
                Some(i) => r && final(self).board_state.members.members@ == old(
                    self,
                ).board_state.members.members@.update(i, new_authorized_member),
                None => !r && final(self).board_state.members.members@ == old(
                    self,
                ).board_state.members.members@,
            },
            final(self).owner_vk == old(self).owner_vk,
            final(self).self_sk == old(self).self_sk,
            final(self).board_state.bans == old(self).board_state.bans,
            final(self).board_state.admin == old(self).board_state.admin,
            final(self).board_state.configuration == old(self).board_state.configuration,
            final(self).board_state.member_info == old(self).board_state.member_info,
            final(self).board_state.secrets == old(self).board_state.secrets,
            final(self).board_state.recent_messages == old(self).board_state.recent_messages,
            final(self).secrets@ == old(self).secrets@,
            final(self).current_secret_version == old(self).current_secret_version,
            final(self).last_secret_rotation == old(self).last_secret_rotation,
            final(self).last_read_message_id == old(self).last_read_message_id,
            final(self).key_migrated_to_delegate == old(self).key_migrated_to_delegate,
            final(self).self_authorized_member == old(self).self_authorized_member,
            final(self).invite_chain@ == old(self).invite_chain@,
            final(self).self_member_info == old(self).self_member_info,
    {
        match find_member_with_key(&self.board_state.members.members, &old_member_vk) {
            Some(i) => {
                proof {
                    lemma_first_member_with_key_bounds(
                        self.board_state.members.members@,
                        old_member_vk@,
                    );
                }
                self.board_state.members.members.set(i, new_authorized_member);
                true
            },
            None => false,
        }
    }
}

fn latest_info_index(infos: &Vec<AuthorizedMemberInfo>, id: MemberId) -> (r: Option<usize>)
    ensures
        match r {
            Some(i) => i < infos@.len() && latest_info(infos@, id) == Some(i as int),
            None => latest_info(infos@, id) is None,
        },
{
    let mut best: Option<usize> = None;
    let mut i: usize = 0;
    while i < infos.len()
        invariant
            i <= infos@.len(),
            match best {
                Some(b) => b < i && latest_info(infos@.subrange(0, i as int), id) == Some(b as int),
                None => latest_info(infos@.subrange(0, i as int), id) is None,
            },
        decreases infos.len() - i,
    {
        let ghost pre = infos@.subrange(0, i + 1);
        assert(pre.drop_last() =~= infos@.subrange(0, i as int));
        let info = &infos[i];
        let better = info.member_info.member_id == id && match best {
            Some(b) => info.member_info.version >= infos[b].member_info.version,
            None => true,
        };
        if better {
            best = Some(i);
        }
        i = i + 1;
    }
    assert(infos@.subrange(0, i as int) =~= infos@);
    best
}

impl BoardData {
    /// Keeps the user's own membership data from the board's state. The
    /// owner keeps nothing. Anyone else keeps their latest member
    /// information (the entry of their id with the highest version, the
    /// last of several); and, once only, the first member entry with their
    /// key together with its invite chain where that chain can be walked.
    pub fn capture_self_membership_data(&mut self, parameters: &ChatBoardParametersV1)
        ensures
            ({
                let vk = spec_ed25519_public(old(self).self_sk@);
                let id = member_id_of_key(vk);
                let infos = old(self).board_state.member_info.member_info@;
                let members = old(self).board_state.members.members@;
                if vk == old(self).owner_vk@ {
                    &&& opt_info_view(final(self).self_member_info) == opt_info_view(
                        old(self).self_member_info,
                    )
                    &&& final(self).self_authorized_member == old(self).self_authorized_member
                    &&& final(self).invite_chain@ == old(self).invite_chain@
                } else {
                    &&& opt_info_view(final(self).self_member_info) == match latest_info(infos, id) {
                        Some(i) => Some(infos[i]@),
                        None => opt_info_view(old(self).self_member_info),
                    }
                    &&& if old(self).self_authorized_member is Some {
                        &&& final(self).self_authorized_member == old(self).self_authorized_member
                        &&& final(self).invite_chain@ == old(self).invite_chain@
                    } else {
                        match first_member_with_key(members, vk) {
                            Some(i) => {
                                &&& final(self).self_authorized_member == Some(members[i])
                                &&& final(self).invite_chain@ == match invite_chain_from(
                                    members,
                                    members[i].member,
                                    member_id_of_key(parameters.owner@),
                                    members.len(),
                                ) {
                                    Ok(c) => c,
                                    Err(_) => old(self).invite_chain@,
                                }
                            },
                            None => {
                                &&& final(self).self_authorized_member == old(
                                    self,
                                ).self_authorized_member
                                &&& final(self).invite_chain@ == old(self).invite_chain@
                            },
                        }
                    }
                }
            }),
            final(self).owner_vk == old(self).owner_vk,
            final(self).self_sk == old(self).self_sk,
            final(self).board_state == old(self).board_state,
            final(self).secrets@ == old(self).secrets@,
            final(self).current_secret_version == old(self).current_secret_version,
            final(self).last_secret_rotation == old(self).last_secret_rotation,
            final(self).last_read_message_id == old(self).last_read_message_id,
    {
        let verifying_key = ed25519_public(&self.self_sk);
        if keys_equal(&verifying_key, &self.owner_vk) {
            return;
        }
        let member_id = MemberId::from_verifying_key(&verifying_key);
        match latest_info_index(&self.board_state.member_info.member_info, member_id) {
            Some(i) => {
                let info = self.board_state.member_info.member_info[i].clone();
                self.self_member_info = Some(info);
            },
            None => {},
        }
        if self.self_authorized_member.is_some() {
            return;
        }
        match find_member_with_key(&self.board_state.members.members, &verifying_key) {
            Some(i) => {
                proof {
                    lemma_first_member_with_key_bounds(
                        self.board_state.members.members@,
                        verifying_key@,
                    );
                }
                let member = self.board_state.members.members[i];
                self.self_authorized_member = Some(member);
                match self.board_state.members.get_invite_chain(&member, parameters) {
                    Ok(chain) => {
                        self.invite_chain = chain;
                    },
                    Err(_) => {},
                }
            },
            None => {},
        }
    }
}

/// Why a secret rotation is refused.
#[derive(Clone, Copy, PartialEq, Eq, Structural, Debug)]
pub enum RotateSecretError {
    /// The board is public.
    PublicBoard,
    /// The user is not the owner.
    NotOwner,
    /// No member who is not banned would receive the new secret.
    NoMembers,
}

pub open spec fn rotate_error_text(e: RotateSecretError) -> Seq<char> {
    match e {
        RotateSecretError::PublicBoard => "Cannot rotate secret for public board"@,
        RotateSecretError::NotOwner => "Only board owner can rotate secrets"@,
        RotateSecretError::NoMembers => "No members to encrypt secret for"@,
    }
}

impl RotateSecretError {
    /// The text of the error.
    pub fn message(&self) -> (r: String)
        ensures
            r@ == rotate_error_text(*self),
    {
        match self {
            RotateSecretError::PublicBoard => "Cannot rotate secret for public board".to_owned(),
            RotateSecretError::NotOwner => "Only board owner can rotate secrets".to_owned(),
            RotateSecretError::NoMembers => "No members to encrypt secret for".to_owned(),
        }
    }
}

/// For each member of `part` whose id `skip` refuses, in order: the id
/// and the key of the first member of `all` with that id.
pub open spec fn recipients(
    all: Seq<AuthorizedMember>,
    part: Seq<AuthorizedMember>,
    skip: spec_fn(MemberId) -> bool,
) -> Seq<(MemberId, [u8; 32])>
    decreases part.len(),
{
    if part.len() == 0 {
        Seq::empty()
    } else {
        let prev = recipients(all, part.drop_last(), skip);
        let id = member_id_of_key(part.last().member.member_vk@);
        if skip(id) {
            prev
        } else {
            match first_member_with_id(all, id) {
                Some(j) => prev.push((id, all[j].member.member_vk)),
                None => prev,
            }
        }
    }
}

/// Who receives a new secret: the members whose ids are not banned.
pub open spec fn rotation_recipients(st: ChatBoardStateV1) -> Seq<(MemberId, [u8; 32])> {
    recipients(
        st.members.members@,
        st.members.members@,
        |id: MemberId| is_banned(st.bans.0@, id),
    )
}

/// Who lacks the secret of `version`: the members whose ids do not hold
/// it.
pub open spec fn members_lacking(st: ChatBoardStateV1, version: u32) -> Seq<(MemberId, [u8; 32])> {
    recipients(
        st.members.members@,
        st.members.members@,
        |id: MemberId| holds_secret(st.secrets.encrypted_secrets@, id, version),
    )
}

/// Whether the user may rotate the secret: the board is private and the
/// user is its owner.
pub open spec fn rotation_allowed(b: BoardData) -> bool {
    b.board_state.configuration.privacy_mode == PrivacyMode::Private && b.owner_vk@
        == spec_ed25519_public(b.self_sk@)
}

/// The plan of a secret rotation: refused on a public board, for anyone
/// but the owner, and where no member would receive the secret; otherwise
/// the next version and the recipients.
pub open spec fn rotation_plan(b: BoardData) -> Result<(u32, Seq<(MemberId, [u8; 32])>), RotateSecretError> {
    if b.board_state.configuration.privacy_mode != PrivacyMode::Private {
        Err(RotateSecretError::PublicBoard)
    } else if b.owner_vk@ != spec_ed25519_public(b.self_sk@) {
        Err(RotateSecretError::NotOwner)
    } else if rotation_recipients(b.board_state).len() == 0 {
        Err(RotateSecretError::NoMembers)
    } else {
        Ok(((b.board_state.secrets.current_version + 1) as u32, rotation_recipients(b.board_state)))
    }
}

pub open spec fn plan_view(r: Result<(u32, Vec<(MemberId, [u8; 32])>), RotateSecretError>) -> Result<
    (u32, Seq<(MemberId, [u8; 32])>),
    RotateSecretError,
> {
    match r {
        Ok((v, l)) => Ok((v, l@)),
        Err(e) => Err(e),
    }
}

impl BoardData {
    /// Plans a rotation of the board secret where the next version number
    /// fits in 32 bits; `None` where the board's version is the largest
    /// there is and the user may rotate.
    pub fn try_plan_secret_rotation(&self) -> (r: Option<
        Result<(u32, Vec<(MemberId, [u8; 32])>), RotateSecretError>,
    >)
        ensures
            match r {
                Some(p) => !(rotation_allowed(*self) && self.board_state.secrets.current_version
                    == u32::MAX) && plan_view(p) == rotation_plan(*self),
                None => rotation_allowed(*self) && self.board_state.secrets.current_version
                    == u32::MAX,
            },
    {
        if self.is_private() && keys_equal(&self.owner_vk, &ed25519_public(&self.self_sk))
            && self.board_state.secrets.current_version == u32::MAX {
            return None;
        }
        Some(self.plan_secret_rotation())
    }

    /// Plans a rotation of the board secret: refused on a public board and
    /// for anyone but the owner; otherwise the new version is the board's
    /// current one plus one, and the new secret is for every member whose
    /// id is not banned (refused where there is none), each with their
    /// key.
    pub fn plan_secret_rotation(&self) -> (r: Result<(u32, Vec<(MemberId, [u8; 32])>), RotateSecretError>)
        requires
            rotation_allowed(*self) ==> self.board_state.secrets.current_version < u32::MAX,
        ensures
            plan_view(r) == rotation_plan(*self),
    {
        if !self.is_private() {
            return Err(RotateSecretError::PublicBoard);
        }
        if !keys_equal(&self.owner_vk, &ed25519_public(&self.self_sk)) {
            return Err(RotateSecretError::NotOwner);
        }
        let new_version = self.board_state.secrets.current_version + 1;
        let members = &self.board_state.members;
        let ghost all = members.members@;
        let ghost skip = |id: MemberId| is_banned(self.board_state.bans.0@, id);
        let mut out: Vec<(MemberId, [u8; 32])> = Vec::new();
        let mut i: usize = 0;
        while i < members.members.len()
            invariant
                i <= all.len(),
                all == members.members@,
                members == &self.board_state.members,
                skip == (|id: MemberId| is_banned(self.board_state.bans.0@, id)),
                out@ == recipients(all, all.subrange(0, i as int), skip),
            decreases members.members.len() - i,
        {
            let ghost pre = all.subrange(0, i + 1);
            assert(pre.drop_last() =~= all.subrange(0, i as int));
            let id = members.members[i].member.id();
            if !self.board_state.bans.bans(id) {
                match members.find_by_id(id) {
                    Some(j) => {
                        out.push((id, members.members[j].member.member_vk));
                    },
                    None => {},
                }
            }
            i = i + 1;
        }
        assert(all.subrange(0, i as int) =~= all);
        if out.len() == 0 {
            return Err(RotateSecretError::NoMembers);
        }
        Ok((new_version, out))
    }

    /// Records a rotation that the user made: the secret of `version` is
    /// stored and becomes current, and `now` is the time of the rotation.
    pub fn record_secret_rotation(&mut self, secret: [u8; 32], version: u32, now: Timestamp)
        ensures
            final(self).secrets@ == old(self).secrets@.insert(version, secret),
            final(self).current_secret_version == Some(version),
            final(self).last_secret_rotation == Some(now),
            keeps_all_but_secrets(*old(self), *final(self)),
    {
        self.secrets.insert(version, secret);
        self.current_secret_version = Some(version);
        self.last_secret_rotation = Some(now);
    }

    /// The members who lack the current secret: on a private board where
    /// the user holds the current secret, the version and, for each member
    /// whose id holds no encrypted secret of that version, the id and key;
    /// `None` where there is no such member or the board is public or the
    /// user holds no current secret.
    pub fn members_missing_secret(&self) -> (r: Option<(u32, Vec<(MemberId, [u8; 32])>)>)
        ensures
            match self.current_secret_version {
                Some(v) => if self.board_state.configuration.privacy_mode == PrivacyMode::Private
                    && self.secrets@.contains_key(v) && members_lacking(self.board_state, v).len()
                    > 0 {
                    &&& r is Some
                    &&& r->Some_0.0 == v
                    &&& r->Some_0.1@ == members_lacking(self.board_state, v)
                } else {
                    r is None
                },
                None => r is None,
            },
    {
        if !self.is_private() {
            return None;
        }
        let v = match self.get_secret() {
            Some((_, v)) => v,
            None => {
                return None;
            },
        };
        let members = &self.board_state.members;
        let ghost all = members.members@;
        let ghost skip = |id: MemberId| holds_secret(self.board_state.secrets.encrypted_secrets@, id, v);
        let mut out: Vec<(MemberId, [u8; 32])> = Vec::new();
        let mut i: usize = 0;
        while i < members.members.len()
            invariant
                i <= all.len(),
                all == members.members@,
                members == &self.board_state.members,
                skip == (|id: MemberId| holds_secret(self.board_state.secrets.encrypted_secrets@, id, v)),
                out@ == recipients(all, all.subrange(0, i as int), skip),
            decreases members.members.len() - i,
        {
            let ghost pre = all.subrange(0, i + 1);
            assert(pre.drop_last() =~= all.subrange(0, i as int));
            let id = members.members[i].member.id();
            if !self.board_state.secrets.member_holds(id, v) {
                match members.find_by_id(id) {
                    Some(j) => {
                        out.push((id, members.members[j].member.member_vk));
                    },
                    None => {},
                }
            }
            i = i + 1;
        }
        assert(all.subrange(0, i as int) =~= all);
        if out.len() == 0 {
            return None;
        }
        Some((v, out))
    }
}

/// The board the user is looking at, by its owner's key.
#[derive(Clone, Copy, PartialEq, Eq, Debug)]
pub struct CurrentBoard {
    pub owner_key: Option<[u8; 32]>,
}

impl CurrentBoard {
    /// The owner's member id, where a board is chosen.
    pub fn owner_id(&self) -> (r: Option<MemberId>)
        ensures
            r == (match self.owner_key {
                Some(k) => Some(member_id_of_key(k@)),
                None => None,
            }),
    {
        match &self.owner_key {
            Some(k) => Some(MemberId::from_verifying_key(k)),
            None => None,
        }
    }

    /// The owner's key, where a board is chosen.
    pub fn owner_key(&self) -> (r: Option<&[u8; 32]>)
        ensures
            r == (match self.owner_key {
                Some(k) => Some(&k),
                None => None,
            }),
    {
        match &self.owner_key {
            Some(k) => Some(k),
            None => None,
        }
    }
}

/// What handling a response from the node calls for.
#[derive(Clone, Copy, PartialEq, Eq, Structural, Debug)]
pub struct ResponseFlags {
    /// A board should be put again: its subscription failed while a local
    /// state exists.
    pub needs_reput: bool,
    /// Subscriptions were started and need watching for a timeout.
    pub subscriptions_initiated: bool,
}

impl Default for ResponseFlags {
    /// Nothing called for.
    fn default() -> (r: Self)
        ensures
            !r.needs_reput,
            !r.subscriptions_initiated,
    {
        ResponseFlags { needs_reput: false, subscriptions_initiated: false }
    }
}

} // verus!
