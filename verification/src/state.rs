//! The parts of a board's state that the message and admin rules read:
//! configuration, members, bans, member information and secret
//! distribution, and the board's parameters (its owner's key).
use vstd::prelude::*;

use crate::admin::AdminsV1;
use crate::ids::{member_id_of_key, MemberId};
use crate::message::Timestamp;
use crate::messages::MessagesV1;

verus! {

/// Whether a board's content is public or encrypted.
#[derive(Clone, Copy, PartialEq, Eq, Structural, Debug)]
pub enum PrivacyMode {
    Public,
    Private,
}

/// The limits and mode of a board.
#[derive(Clone, Copy, PartialEq, Eq, Structural, Debug)]
pub struct Configuration {
    pub owner_member_id: MemberId,
    pub privacy_mode: PrivacyMode,
    pub max_message_size: usize,
    pub max_title_size: usize,
    pub max_admins: usize,
}

/// A member: who they are (their verifying key) and who invited them.
#[derive(Clone, Copy, PartialEq, Eq, Debug)]
pub struct Member {
    pub owner_member_id: MemberId,
    pub invited_by: MemberId,
    pub member_vk: [u8; 32],
}

impl Member {
    /// The member's id: the hash of their verifying key.
    pub fn id(&self) -> (r: MemberId)
        ensures
            r == member_id_of_key(self.member_vk@),
    {
        MemberId::from_verifying_key(&self.member_vk)
    }
}

/// A member with the signature of their inviter.
#[derive(Clone, Copy, PartialEq, Eq, Debug)]
pub struct AuthorizedMember {
    pub member: Member,
    pub signature: [u8; 64],
}

/// The member of a board.
pub struct MembersV1 {
    pub members: Vec<AuthorizedMember>,
}

/// The verifying key of the member with id `id`; where several members
/// share the id, the last of them.
pub open spec fn member_key(members: Seq<AuthorizedMember>, id: MemberId) -> Option<Seq<u8>>
    decreases members.len(),
{
    if members.len() == 0 {
        None
    } else if member_id_of_key(members.last().member.member_vk@) == id {
        Some(members.last().member.member_vk@)
    } else {
        member_key(members.drop_last(), id)
    }
}

/// Whether some member has the id `id`.
pub open spec fn has_member(members: Seq<AuthorizedMember>, id: MemberId) -> bool {
    exists|i: int| 0 <= i < members.len() && member_id_of_key(members[i].member.member_vk@) == id
}

proof fn lemma_member_key_some(members: Seq<AuthorizedMember>, id: MemberId)
    ensures
        member_key(members, id) is Some <==> has_member(members, id),
    decreases members.len(),
{
    if members.len() > 0 {
        let init = members.drop_last();
        lemma_member_key_some(init, id);
        if has_member(init, id) {
            let i = choose|i: int|
                0 <= i < init.len() && member_id_of_key(init[i].member.member_vk@) == id;
            assert(members[i] == init[i]);
        }
        if has_member(members, id) && member_id_of_key(members.last().member.member_vk@) != id {
            let i = choose|i: int|
                0 <= i < members.len() && member_id_of_key(members[i].member.member_vk@) == id;
            assert(init[i] == members[i]);
        }
        if member_id_of_key(members.last().member.member_vk@) == id {
            assert(member_id_of_key(members[members.len() - 1].member.member_vk@) == id);
        }
    }
}

impl MembersV1 {
    /// The verifying key of the member with id `id` (the last such member).
    pub fn key_of(&self, id: MemberId) -> (r: Option<[u8; 32]>)
        ensures
            match r {
                Some(k) => member_key(self.members@, id) == Some(k@),
                None => member_key(self.members@, id) is None,
            },
    {
        let mut i = self.members.len();
        assert(self.members@.subrange(0, i as int) =~= self.members@);
        while i > 0
            invariant
                i <= self.members@.len(),
                member_key(self.members@, id) == member_key(self.members@.subrange(0, i as int), id),
            decreases i,
        {
            let ghost pre = self.members@.subrange(0, i as int);
            assert(pre.drop_last() =~= self.members@.subrange(0, i - 1));
            if self.members[i - 1].member.id() == id {
                return Some(self.members[i - 1].member.member_vk);
            }
            i = i - 1;
        }
        None
    }

    /// Whether some member has the id `id`.
    pub fn contains_id(&self, id: MemberId) -> (r: bool)
        ensures
            r == has_member(self.members@, id),
    {
        proof {
            lemma_member_key_some(self.members@, id);
        }
        self.key_of(id).is_some()
    }
}

/// The position of the first member whose id is `id`.
pub open spec fn first_member_with_id(members: Seq<AuthorizedMember>, id: MemberId) -> Option<int>
    decreases members.len(),
{
    if members.len() == 0 {
        None
    } else {
        match first_member_with_id(members.drop_last(), id) {
            Some(i) => Some(i),
            None => if member_id_of_key(members.last().member.member_vk@) == id {
                Some(members.len() - 1)
            } else {
                None
            },
        }
    }
}

/// Why an invite chain cannot be walked.
#[derive(Clone, Copy, PartialEq, Eq, Structural, Debug)]
pub enum InviteChainError {
    /// No member has the id of the inviter of `member`.
    InviterNotFound { inviter: MemberId, member: MemberId },
    /// The chain runs longer than the member list: it returns to a member
    /// it has passed.
    InvitationCycle,
}

/// The inviters of `m`, nearest first, up to but not including the owner,
/// walking at most `steps` inviters; each inviter is the first member with
/// the inviting id.
pub open spec fn invite_chain_from(
    members: Seq<AuthorizedMember>,
    m: Member,
    owner_id: MemberId,
    steps: nat,
) -> Result<Seq<AuthorizedMember>, InviteChainError>
    decreases steps,
{
    if m.invited_by == owner_id {
        Ok(Seq::empty())
    } else if steps == 0 {
        Err(InviteChainError::InvitationCycle)
    } else {
        match first_member_with_id(members, m.invited_by) {
            None => Err(
                InviteChainError::InviterNotFound {
                    inviter: m.invited_by,
                    member: member_id_of_key(m.member_vk@),
                },
            ),
            Some(i) => match invite_chain_from(members, members[i].member, owner_id, (steps - 1) as nat) {
                Ok(c) => Ok(seq![members[i]] + c),
                Err(e) => Err(e),
            },
        }
    }
}

proof fn lemma_first_member_with_id_bounds(members: Seq<AuthorizedMember>, id: MemberId)
    ensures
        first_member_with_id(members, id) matches Some(i) ==> 0 <= i < members.len()
            && member_id_of_key(members[i].member.member_vk@) == id,
        first_member_with_id(members, id) is None ==> !has_member(members, id),
    decreases members.len(),
{
    if members.len() > 0 {
        let init = members.drop_last();
        lemma_first_member_with_id_bounds(init, id);
        if first_member_with_id(members, id) is None && has_member(members, id) {
            let k = choose|k: int|
                0 <= k < members.len() && member_id_of_key(members[k].member.member_vk@) == id;
            if k < init.len() {
                assert(init[k] == members[k]);
            }
        }
    }
}

impl MembersV1 {
    /// The position of the first member whose id is `id`.
    pub fn find_by_id(&self, id: MemberId) -> (r: Option<usize>)
        ensures
            match r {
                Some(i) => i < self.members@.len() && first_member_with_id(self.members@, id) == Some(
                    i as int,
                ),
                None => first_member_with_id(self.members@, id) is None,
            },
    {
        let mut i: usize = 0;
        while i < self.members.len()
            invariant
                i <= self.members@.len(),
                first_member_with_id(self.members@.subrange(0, i as int), id) is None,
            decreases self.members.len() - i,
        {
            let ghost pre = self.members@.subrange(0, i + 1);
            assert(pre.drop_last() =~= self.members@.subrange(0, i as int));
            if self.members[i].member.id() == id {
                proof {
                    lemma_first_member_with_id_prefix(self.members@, id, i + 1);
                }
                return Some(i);
            }
            i = i + 1;
        }
        assert(self.members@.subrange(0, i as int) =~= self.members@);
        None
    }

    /// The inviters of `member`, nearest first, up to but not including the
    /// owner. Each inviter is the first member with the inviting id. A
    /// missing inviter is an error, and so is a chain longer than the
    /// member list, which must return to a member it has passed.
    pub fn get_invite_chain(&self, member: &AuthorizedMember, parameters: &ChatBoardParametersV1) -> (r:
        Result<Vec<AuthorizedMember>, InviteChainError>)
        ensures
            match invite_chain_from(
                self.members@,
                member.member,
                member_id_of_key(parameters.owner@),
                self.members@.len(),
            ) {
                Ok(c) => r == Ok::<Vec<AuthorizedMember>, InviteChainError>(r->Ok_0) && r->Ok_0@ == c,
                Err(e) => r == Err::<Vec<AuthorizedMember>, InviteChainError>(e),
            },
    {
        let owner_id = parameters.owner_id();
        let mut chain: Vec<AuthorizedMember> = Vec::new();
        let mut current = member.member;
        let mut steps = self.members.len();
        let ghost whole = invite_chain_from(self.members@, member.member, owner_id, self.members@.len() as nat);
        loop
            invariant
                owner_id == member_id_of_key(parameters.owner@),
                steps <= self.members@.len(),
                whole == invite_chain_from(self.members@, member.member, owner_id, self.members@.len() as nat),
                whole == match invite_chain_from(self.members@, current, owner_id, steps as nat) {
                    Ok(c) => Ok(chain@ + c),
                    Err(e) => Err(e),
                },
            decreases steps,
        {
            if current.invited_by == owner_id {
                assert(chain@ + Seq::<AuthorizedMember>::empty() =~= chain@);
                return Ok(chain);
            }
            if steps == 0 {
                return Err(InviteChainError::InvitationCycle);
            }
            match self.find_by_id(current.invited_by) {
                None => {
                    return Err(
                        InviteChainError::InviterNotFound {
                            inviter: current.invited_by,
                            member: current.id(),
                        },
                    );
                },
                Some(i) => {
                    proof {
                        lemma_first_member_with_id_bounds(self.members@, current.invited_by);
                    }
                    let next = self.members[i];
                    assert(first_member_with_id(self.members@, current.invited_by) == Some(i as int));
                    assert(invite_chain_from(self.members@, current, owner_id, steps as nat) == match invite_chain_from(
                        self.members@,
                        next.member,
                        owner_id,
                        (steps - 1) as nat,
                    ) {
                        Ok(c) => Ok(seq![next] + c),
                        Err(e) => Err(e),
                    });
                    let ghost before = chain@;
                    chain.push(next);
                    proof {
                        match invite_chain_from(self.members@, next.member, owner_id, (steps - 1) as nat) {
                            Ok(c) => {
                                assert(before + (seq![next] + c) =~= chain@ + c);
                            },
                            Err(e) => {},
                        }
                    }
                    current = next.member;
                    steps = steps - 1;
                },
            }
        }
    }
}

proof fn lemma_first_member_with_id_prefix(members: Seq<AuthorizedMember>, id: MemberId, k: int)
    requires
        0 < k <= members.len(),
        first_member_with_id(members.subrange(0, k - 1), id) is None,
        member_id_of_key(members[k - 1].member.member_vk@) == id,
    ensures
        first_member_with_id(members, id) == Some(k - 1),
{
    let pre = members.subrange(0, k);
    assert(pre.drop_last() =~= members.subrange(0, k - 1));
    assert(pre.last() == members[k - 1]);
    lemma_first_member_with_id_prefix_some(members, id, k, k - 1);
}

proof fn lemma_first_member_with_id_prefix_some(members: Seq<AuthorizedMember>, id: MemberId, k: int, i: int)
    requires
        0 < k <= members.len(),
        first_member_with_id(members.subrange(0, k), id) == Some(i),
    ensures
        first_member_with_id(members, id) == Some(i),
    decreases members.len() - k,
{
    if k < members.len() {
        let next = members.subrange(0, k + 1);
        assert(next.drop_last() =~= members.subrange(0, k));
        lemma_first_member_with_id_prefix_some(members, id, k + 1, i);
    } else {
        assert(members.subrange(0, k) =~= members);
    }
}

/// A ban of a member.
#[derive(Clone, Copy, PartialEq, Eq, Structural, Debug)]
pub struct UserBan {
    pub banned_user: MemberId,
    pub banned_by: MemberId,
}

/// The bans of a board.
pub struct BansV1(pub Vec<UserBan>);

/// Whether `id` is banned.
pub open spec fn is_banned(bans: Seq<UserBan>, id: MemberId) -> bool {
    exists|i: int| 0 <= i < bans.len() && bans[i].banned_user == id
}

impl BansV1 {
    /// Whether `id` is banned.
    pub fn bans(&self, id: MemberId) -> (r: bool)
        ensures
            r == is_banned(self.0@, id),
    {
        let mut i: usize = 0;
        while i < self.0.len()
            invariant
                i <= self.0@.len(),
                forall|j: int| 0 <= j < i ==> self.0@[j].banned_user != id,
            decreases self.0.len() - i,
        {
            if self.0[i].banned_user == id {
                return true;
            }
            i = i + 1;
        }
        false
    }
}

/// What a member tells about themselves: a nickname, versioned. The
/// nickname is held as the text that is shown: on a private board, where it
/// is sealed with the board secret, the text it unseals to (or, where the
/// user cannot unseal it, the sealed form's text), which the code that
/// loads a board puts here; the rules in this library only compare, show
/// and keep it.
pub struct MemberInfo {
    pub member_id: MemberId,
    pub version: u32,
    pub preferred_nickname: String,
}

/// Member information with the member's signature.
pub struct AuthorizedMemberInfo {
    pub member_info: MemberInfo,
    pub signature: [u8; 64],
}

pub struct AuthorizedMemberInfoView {
    pub member_id: MemberId,
    pub version: u32,
    pub preferred_nickname: Seq<char>,
    pub signature: Seq<u8>,
}

impl View for AuthorizedMemberInfo {
    type V = AuthorizedMemberInfoView;

    open spec fn view(&self) -> AuthorizedMemberInfoView {
        AuthorizedMemberInfoView {
            member_id: self.member_info.member_id,
            version: self.member_info.version,
            preferred_nickname: self.member_info.preferred_nickname@,
            signature: self.signature@,
        }
    }
}

impl Clone for AuthorizedMemberInfo {
    fn clone(&self) -> (r: Self)
        ensures
            r@ == self@,
    {
        AuthorizedMemberInfo {
            member_info: MemberInfo {
                member_id: self.member_info.member_id,
                version: self.member_info.version,
                preferred_nickname: self.member_info.preferred_nickname.clone(),
            },
            signature: self.signature,
        }
    }
}

/// The member information of a board.
pub struct MemberInfoV1 {
    pub member_info: Vec<AuthorizedMemberInfo>,
}

/// A version of the board secret and when it was made.
#[derive(Clone, Copy, PartialEq, Eq, Structural, Debug)]
pub struct SecretVersionRecord {
    pub version: u32,
    pub created_at: Timestamp,
}

/// The board secret of a version, encrypted for one member.
#[derive(Clone, Copy, PartialEq, Eq, Structural, Debug)]
pub struct EncryptedSecretForMember {
    pub member_id: MemberId,
    pub secret_version: u32,
}

/// The secret versions of a board and who holds each.
pub struct SecretsV1 {
    pub current_version: u32,
    pub versions: Vec<SecretVersionRecord>,
    pub encrypted_secrets: Vec<EncryptedSecretForMember>,
}

/// Whether `id` holds the secret of `version`.
pub open spec fn holds_secret(secrets: Seq<EncryptedSecretForMember>, id: MemberId, version: u32) -> bool {
    exists|i: int|
        0 <= i < secrets.len() && secrets[i].member_id == id && secrets[i].secret_version == version
}

/// Whether every member holds the current secret.
pub open spec fn complete_distribution(
    secrets: Seq<EncryptedSecretForMember>,
    version: u32,
    members: Seq<AuthorizedMember>,
) -> bool {
    forall|i: int|
        0 <= i < members.len() ==> holds_secret(
            secrets,
            member_id_of_key(#[trigger] members[i].member.member_vk@),
            version,
        )
}

impl SecretsV1 {
    /// Whether `id` holds the secret of `version`.
    pub fn member_holds(&self, id: MemberId, version: u32) -> (r: bool)
        ensures
            r == holds_secret(self.encrypted_secrets@, id, version),
    {
        let mut i: usize = 0;
        while i < self.encrypted_secrets.len()
            invariant
                i <= self.encrypted_secrets@.len(),
                forall|j: int|
                    0 <= j < i ==> !(self.encrypted_secrets@[j].member_id == id
                        && self.encrypted_secrets@[j].secret_version == version),
            decreases self.encrypted_secrets.len() - i,
        {
            let e = self.encrypted_secrets[i];
            if e.member_id == id && e.secret_version == version {
                return true;
            }
            i = i + 1;
        }
        false
    }

    /// Whether every member holds the current secret.
    pub fn has_complete_distribution(&self, members: &MembersV1) -> (r: bool)
        ensures
            r == complete_distribution(
                self.encrypted_secrets@,
                self.current_version,
                members.members@,
            ),
    {
        let mut i: usize = 0;
        while i < members.members.len()
            invariant
                i <= members.members@.len(),
                forall|j: int|
                    0 <= j < i ==> holds_secret(
                        self.encrypted_secrets@,
                        member_id_of_key(#[trigger] members.members@[j].member.member_vk@),
                        self.current_version,
                    ),
            decreases members.members.len() - i,
        {
            let id = members.members[i].member.id();
            if !self.member_holds(id, self.current_version) {
                return false;
            }
            i = i + 1;
        }
        true
    }
}

/// The state of a board.
pub struct ChatBoardStateV1 {
    pub configuration: Configuration,
    pub members: MembersV1,
    pub bans: BansV1,
    pub admin: AdminsV1,
    pub member_info: MemberInfoV1,
    pub secrets: SecretsV1,
    pub recent_messages: MessagesV1,
}

/// The parameters of a board: its owner's verifying key.
#[derive(Clone, Copy, PartialEq, Eq, Debug)]
pub struct ChatBoardParametersV1 {
    pub owner: [u8; 32],
}

impl ChatBoardParametersV1 {
    /// The owner's member id.
    pub fn owner_id(&self) -> (r: MemberId)
        ensures
            r == member_id_of_key(self.owner@),
    {
        MemberId::from_verifying_key(&self.owner)
    }
}

} // verus!
