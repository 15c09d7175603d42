//! Joining a board from an invitation, and rejoining it after the user was
//! pruned from its members: what the user already is on the board, the
//! nickname they join under, and the member entries they publish again.
use vstd::prelude::*;

use crate::board::{has_member_key, has_member_key_exec, BoardData};
use crate::crypto::{ed25519_public, keys_equal, spec_ed25519_public};
use crate::ids::{member_id_of_key, MemberId};
use crate::invitation::{bs58_encode, spec_bs58_encode, Invitation};
use crate::state::{has_member, AuthorizedMember, AuthorizedMemberInfo, ChatBoardStateV1, MemberInfo};
use crate::text::{concat, trim, trim_str};

verus! {

/// Whether the user's key (the public half of the invitation's secret key)
/// is the board's owner or one of its members, and whether the key that
/// the invitation admits is one of its members. Neither where the user
/// holds no copy of the board.
pub fn check_membership_status(inv: &Invitation, board: Option<&BoardData>) -> (r: (bool, bool))
    ensures
        r == match board {
            Some(b) => {
                let user_vk = spec_ed25519_public(inv.invitee_signing_key@);
                let members = b.board_state.members.members@;
                (
                    user_vk == b.owner_vk@ || has_member_key(members, user_vk),
                    has_member_key(members, inv.invitee.member.member_vk@),
                )
            },
            None => (false, false),
        },
{
    match board {
        Some(b) => {
            let user_vk = ed25519_public(&inv.invitee_signing_key);
            let members = &b.board_state.members.members;
            let current_key_is_member = keys_equal(&user_vk, &b.owner_vk) || has_member_key_exec(
                members,
                &user_vk,
            );
            let invited_member_exists = has_member_key_exec(members, &inv.invitee.member.member_vk);
            (current_key_is_member, invited_member_exists)
        },
        None => (false, false),
    }
}

/// The first `n` characters of `s`, or all of it where it is shorter.
pub open spec fn first_chars(s: Seq<char>, n: nat) -> Seq<char> {
    if s.len() <= n {
        s
    } else {
        s.take(n as int)
    }
}

/// The nickname a user joins under: the one they gave, or, where that is
/// blank, "User-" followed by the first six characters of the base58 text
/// of the key the invitation admits.
pub fn invitation_nickname(nickname: String, member_vk: &[u8; 32]) -> (r: String)
    ensures
        r@ == if trim(nickname@).len() == 0 {
            "User-"@ + first_chars(spec_bs58_encode(member_vk@), 6)
        } else {
            nickname@
        },
{
    let trimmed = trim_str(nickname.as_str());
    if trimmed.unicode_len() == 0 {
        let encoded = bs58_encode(member_vk);
        let len = encoded.as_str().unicode_len();
        let end: usize = if len <= 6 {
            len
        } else {
            6
        };
        let shortened = encoded.as_str().substring_char(0, end);
        assert(shortened@ =~= first_chars(spec_bs58_encode(member_vk@), 6));
        concat("User-", shortened)
    } else {
        nickname
    }
}

/// The entries of `chain`, in order, whose ids are no member's id.
pub open spec fn missing_members(chain: Seq<AuthorizedMember>, members: Seq<AuthorizedMember>) -> Seq<
    AuthorizedMember,
>
    decreases chain.len(),
{
    if chain.len() == 0 {
        chain
    } else {
        let rest = missing_members(chain.drop_last(), members);
        if has_member(members, member_id_of_key(chain.last().member.member_vk@)) {
            rest
        } else {
            rest.push(chain.last())
        }
    }
}

/// The version of the first member information entry of `id`; 0 where
/// there is none.
pub open spec fn first_info_version(infos: Seq<AuthorizedMemberInfo>, id: MemberId) -> u32
    decreases infos.len(),
{
    if infos.len() == 0 {
        0
    } else if infos[0].member_info.member_id == id {
        infos[0].member_info.version
    } else {
        first_info_version(infos.drop_first(), id)
    }
}

fn first_info_version_exec(infos: &Vec<AuthorizedMemberInfo>, id: MemberId) -> (r: u32)
    ensures
        r == first_info_version(infos@, id),
{
    let mut i: usize = 0;
    assert(infos@.subrange(0, infos@.len() as int) =~= infos@);
    while i < infos.len()
        invariant
            i <= infos@.len(),
            first_info_version(infos@, id) == first_info_version(
                infos@.subrange(i as int, infos@.len() as int),
                id,
            ),
        decreases infos.len() - i,
    {
        let ghost rest = infos@.subrange(i as int, infos@.len() as int);
        assert(rest[0] == infos@[i as int]);
        if infos[i].member_info.member_id == id {
            return infos[i].member_info.version;
        }
        assert(rest.drop_first() =~= infos@.subrange(i + 1, infos@.len() as int));
        i = i + 1;
    }
    0
}

fn missing_members_exec(chain: &Vec<AuthorizedMember>, members: &Vec<AuthorizedMember>) -> (r: Vec<
    AuthorizedMember,
>)
    ensures
        r@ == missing_members(chain@, members@),
{
    let holder = crate::state::MembersV1 { members: members.clone() };
    let mut out: Vec<AuthorizedMember> = Vec::new();
    let mut i: usize = 0;
    assert(chain@.subrange(0, 0) =~= Seq::<AuthorizedMember>::empty());
    while i < chain.len()
        invariant
            i <= chain@.len(),
            holder.members@ == members@,
            out@ == missing_members(chain@.subrange(0, i as int), members@),
        decreases chain.len() - i,
    {
        let ghost next = chain@.subrange(0, i + 1);
        assert(next.drop_last() =~= chain@.subrange(0, i as int));
        assert(next.last() == chain@[i as int]);
        let entry = chain[i];
        if !holder.contains_id(entry.member.id()) {
            out.push(entry);
        }
        i = i + 1;
    }
    assert(chain@.subrange(0, i as int) =~= chain@);
    out
}

/// What a user publishes to rejoin a board after being pruned from its
/// members: nothing where their key is the owner's or still a member's, or
/// where they kept no membership of their own; else that kept membership
/// followed by each entry of their invite chain whose id is no member's,
/// and their member information to sign: their id, the nickname "Member",
/// and the version of their first information entry on the board (0 where
/// there is none).
pub fn build_rejoin_delta(
    board_state: &ChatBoardStateV1,
    board_owner_key: &[u8; 32],
    signing_key: &[u8; 32],
    self_authorized_member: Option<&AuthorizedMember>,
    invite_chain: &Vec<AuthorizedMember>,
) -> (r: Option<(Vec<AuthorizedMember>, MemberInfo)>)
    ensures
        ({
            let vk = spec_ed25519_public(signing_key@);
            let members = board_state.members.members@;
            if vk == board_owner_key@ || has_member_key(members, vk) || self_authorized_member is None {
                r is None
            } else {
                &&& r matches Some((added, info))
                &&& added@ == seq![*self_authorized_member->0] + missing_members(invite_chain@, members)
                &&& info.member_id == member_id_of_key(vk)
                &&& info.version == first_info_version(
                    board_state.member_info.member_info@,
                    member_id_of_key(vk),
                )
                &&& info.preferred_nickname@ == "Member"@
            }
        }),
{
    let self_vk = ed25519_public(signing_key);
    if keys_equal(&self_vk, board_owner_key) {
        return None;
    }
    if has_member_key_exec(&board_state.members.members, &self_vk) {
        return None;
    }
    let authorized_member = match self_authorized_member {
        Some(m) => *m,
        None => {
            return None;
        },
    };
    let mut members_to_add: Vec<AuthorizedMember> = Vec::new();
    members_to_add.push(authorized_member);
    let mut missing = missing_members_exec(invite_chain, &board_state.members.members);
    members_to_add.append(&mut missing);
    let self_id = MemberId::from_verifying_key(&self_vk);
    let version = first_info_version_exec(&board_state.member_info.member_info, self_id);
    let info = MemberInfo {
        member_id: self_id,
        version,
        preferred_nickname: "Member".to_owned(),
    };
    Some((members_to_add, info))
}

} // verus!
