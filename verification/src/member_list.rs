//! The member list of a board as one user sees it: every member reachable
//! in the invite tree, in its order, with their nickname and their
//! relation to the user.
use vstd::prelude::*;

use crate::admin::{admin_ids, is_appointed};
use crate::board::BoardData;
use crate::crypto::{ed25519_public, spec_ed25519_public};
use crate::ids::{member_id_of_key, MemberId};
use crate::roster::{
    did_you_invite_member, in_network, invite_tree_order, invited_by, is_in_your_network,
    is_member_sponsor, sponsors, tree_order, MemberDisplay,
};
use crate::state::{AuthorizedMemberInfo, ChatBoardStateV1};

verus! {

/// The nickname of the first information entry of `id`; "Unknown" where
/// there is none.
pub open spec fn nickname_or_unknown(infos: Seq<AuthorizedMemberInfo>, id: MemberId) -> Seq<char>
    decreases infos.len(),
{
    if infos.len() == 0 {
        "Unknown"@
    } else if infos[0].member_info.member_id == id {
        infos[0].member_info.preferred_nickname@
    } else {
        nickname_or_unknown(infos.drop_first(), id)
    }
}

/// Whether `d` is how the user `self_id` sees the member `id` of a board
/// whose owner has the key `owner_vk`. Of the owner, neither who invited
/// them nor whom they invited is shown.
pub open spec fn shows_member(
    d: MemberDisplay,
    st: ChatBoardStateV1,
    owner_vk: Seq<u8>,
    self_id: MemberId,
    id: MemberId,
) -> bool {
    let owner_id = member_id_of_key(owner_vk);
    let members = st.members.members@;
    &&& d.member_id == id
    &&& d.nickname@ == nickname_or_unknown(st.member_info.member_info@, id)
    &&& d.is_owner == (id == owner_id)
    &&& d.is_admin == admin_ids(st.admin.admins@).contains(id)
    &&& d.is_self == (id == self_id)
    &&& d.invited_you == invited_by(members, self_id, id)
    &&& d.sponsored_you == (id != owner_id && sponsors(members, id, self_id, owner_vk))
    &&& d.invited_by_you == (id != owner_id && invited_by(members, id, self_id))
    &&& d.in_your_network == (id != owner_id && in_network(members, id, self_id))
}

fn nickname_or_unknown_exec(infos: &Vec<AuthorizedMemberInfo>, id: MemberId) -> (r: String)
    ensures
        r@ == nickname_or_unknown(infos@, id),
{
    let mut i: usize = 0;
    assert(infos@.subrange(0, infos@.len() as int) =~= infos@);
    while i < infos.len()
        invariant
            i <= infos@.len(),
            nickname_or_unknown(infos@, id) == nickname_or_unknown(
                infos@.subrange(i as int, infos@.len() as int),
                id,
            ),
        decreases infos.len() - i,
    {
        let ghost rest = infos@.subrange(i as int, infos@.len() as int);
        assert(rest[0] == infos@[i as int]);
        if infos[i].member_info.member_id == id {
            return infos[i].member_info.preferred_nickname.clone();
        }
        assert(rest.drop_first() =~= infos@.subrange(i + 1, infos@.len() as int));
        i = i + 1;
    }
    assert(infos@.subrange(i as int, infos@.len() as int) =~= Seq::<AuthorizedMemberInfo>::empty());
    "Unknown".to_owned()
}

/// The member list of `board` as its user sees it: the members in the
/// order of the invite tree from the owner, each with their nickname
/// ("Unknown" where they gave none) and tags.
pub fn member_list(board: &BoardData) -> (r: Vec<MemberDisplay>)
    ensures
        ({
            let owner_id = member_id_of_key(board.owner_vk@);
            let self_id = member_id_of_key(spec_ed25519_public(board.self_sk@));
            let order = tree_order(owner_id, board.board_state.members.members@);
            &&& r@.len() == order.len()
            &&& forall|k: int|
                0 <= k < r@.len() ==> shows_member(
                    #[trigger] r@[k],
                    board.board_state,
                    board.owner_vk@,
                    self_id,
                    order[k],
                )
        }),
{
    let st = &board.board_state;
    let owner_id = board.owner_id();
    let self_id = MemberId::from_verifying_key(&ed25519_public(&board.self_sk));
    let params = board.parameters();
    let members = &st.members;
    let ordered = invite_tree_order(owner_id, members);
    let mut out: Vec<MemberDisplay> = Vec::new();
    let mut k: usize = 0;
    while k < ordered.len()
        invariant
            k <= ordered@.len(),
            ordered@ == tree_order(owner_id, members.members@),
            owner_id == member_id_of_key(board.owner_vk@),
            self_id == member_id_of_key(spec_ed25519_public(board.self_sk@)),
            params.owner == board.owner_vk,
            st == &board.board_state,
            members == &st.members,
            out@.len() == k,
            forall|j: int| 0 <= j < k ==> shows_member(#[trigger] out@[j], *st, board.owner_vk@, self_id, ordered@[j]),
        decreases ordered.len() - k,
    {
        let id = ordered[k];
        let is_owner = id == owner_id;
        let display = MemberDisplay {
            nickname: nickname_or_unknown_exec(&st.member_info.member_info, id),
            member_id: id,
            is_owner,
            is_admin: is_appointed(&st.admin, id),
            is_self: id == self_id,
            invited_you: did_you_invite_member(self_id, members, id),
            sponsored_you: if is_owner {
                false
            } else {
                is_member_sponsor(id, members, self_id, &params)
            },
            invited_by_you: if is_owner {
                false
            } else {
                did_you_invite_member(id, members, self_id)
            },
            in_your_network: if is_owner {
                false
            } else {
                is_in_your_network(id, members, self_id)
            },
        };
        out.push(display);
        k = k + 1;
    }
    out
}

} // verus!
