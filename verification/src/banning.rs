//! Who may ban whom. The owner may ban any member but themselves; any other
//! member may ban only members they invited, directly or through members
//! they invited in turn.
use vstd::prelude::*;

use crate::crypto::{ed25519_public, spec_ed25519_public};
use crate::ids::{member_id_of_key, MemberId};
use crate::joining::first_chars;
use crate::state::{AuthorizedMember, AuthorizedMemberInfo, ChatBoardStateV1};
use crate::text::decimal;

verus! {

/// Why a ban is refused.
#[derive(Clone, Copy, PartialEq, Eq, Structural, Debug)]
pub enum BanError {
    /// No member information entry has an id that the short id names.
    MemberNotFound,
    /// The member to ban is the banning member.
    CannotBanSelf,
    /// The member to ban is the owner.
    CannotBanOwner,
    /// The member to ban is not in the member list.
    NotAMember,
    /// The walk up the inviters passes more inviters than there are
    /// members, so it has come back to one it passed.
    CircularInviteChain,
    /// An inviter on the way up is not in the member list.
    InviterNotFound,
    /// The walk up the inviters reaches the owner without passing the
    /// banning member.
    NotAuthorized,
}

/// Whether `c` is an ASCII capital letter.
pub open spec fn is_ascii_upper(c: char) -> bool {
    'A' <= c && c <= 'Z'
}

/// Whether two characters are the same once ASCII capitals are made small.
pub open spec fn same_ignoring_ascii_case(a: char, b: char) -> bool {
    ||| a == b
    ||| is_ascii_upper(a) && b as u32 == a as u32 + 32
    ||| is_ascii_upper(b) && a as u32 == b as u32 + 32
}

/// Whether two texts are the same once ASCII capitals are made small.
pub open spec fn eq_ignoring_ascii_case(a: Seq<char>, b: Seq<char>) -> bool {
    &&& a.len() == b.len()
    &&& forall|i: int| 0 <= i < a.len() ==> same_ignoring_ascii_case(#[trigger] a[i], b[i])
}

/// Whether the short id `short` names the member id `id`: it begins the
/// id's text, or it is the id's first eight characters up to ASCII case.
pub open spec fn names_member(short: Seq<char>, id: MemberId) -> bool {
    let text = decimal(id.0.0 as int);
    short.is_prefix_of(text) || eq_ignoring_ascii_case(first_chars(text, 8), short)
}

/// The position of the first information entry whose id `short` names.
pub open spec fn first_named(infos: Seq<AuthorizedMemberInfo>, short: Seq<char>) -> Option<int>
    decreases infos.len(),
{
    if infos.len() == 0 {
        None
    } else {
        match first_named(infos.drop_last(), short) {
            Some(i) => Some(i),
            None => if names_member(short, infos.last().member_info.member_id) {
                Some(infos.len() - 1)
            } else {
                None
            },
        }
    }
}

/// The position of the last member whose id is `id`.
pub open spec fn last_member_with_id(members: Seq<AuthorizedMember>, id: MemberId) -> Option<int>
    decreases members.len(),
{
    if members.len() == 0 {
        None
    } else if member_id_of_key(members.last().member.member_vk@) == id {
        Some(members.len() - 1)
    } else {
        last_member_with_id(members.drop_last(), id)
    }
}

/// Walks up from the inviter `current`: reaching the owner refuses the
/// ban, reaching `me` allows it; each further inviter is that of the last
/// member with the current id, for at most `steps` steps.
pub open spec fn ban_walk(
    members: Seq<AuthorizedMember>,
    current: MemberId,
    me: MemberId,
    owner: MemberId,
    steps: nat,
) -> Result<(), BanError>
    decreases steps,
{
    if current == owner {
        Err(BanError::NotAuthorized)
    } else if current == me {
        Ok(())
    } else if steps == 0 {
        Err(BanError::CircularInviteChain)
    } else {
        match last_member_with_id(members, current) {
            None => Err(BanError::InviterNotFound),
            Some(i) => ban_walk(members, members[i].member.invited_by, me, owner, (steps - 1) as nat),
        }
    }
}

/// Whether `me`, not the owner, may ban the member with id `banned`: the
/// walk up from that member's inviter passes `me` before the owner.
pub open spec fn may_ban(members: Seq<AuthorizedMember>, me: MemberId, owner: MemberId, banned: MemberId) -> bool {
    match last_member_with_id(members, banned) {
        Some(b) => ban_walk(members, members[b].member.invited_by, me, owner, members.len() + 1) is Ok,
        None => false,
    }
}

/// The outcome of a ban of the member that `short` names, asked by `me`.
pub open spec fn ban_decision(
    members: Seq<AuthorizedMember>,
    infos: Seq<AuthorizedMemberInfo>,
    me: MemberId,
    owner: MemberId,
    short: Seq<char>,
) -> Result<MemberId, BanError> {
    match first_named(infos, short) {
        None => Err(BanError::MemberNotFound),
        Some(t) => {
            let banned = infos[t].member_info.member_id;
            if banned == me {
                Err(BanError::CannotBanSelf)
            } else if banned == owner {
                Err(BanError::CannotBanOwner)
            } else if me == owner {
                Ok(banned)
            } else {
                match last_member_with_id(members, banned) {
                    None => Err(BanError::NotAMember),
                    Some(b) => match ban_walk(
                        members,
                        members[b].member.invited_by,
                        me,
                        owner,
                        members.len() + 1,
                    ) {
                        Ok(()) => Ok(banned),
                        Err(e) => Err(e),
                    },
                }
            }
        },
    }
}

/// The inviter of the last member with id `id`.
pub open spec fn inviter_of(members: Seq<AuthorizedMember>, id: MemberId) -> Option<MemberId> {
    match last_member_with_id(members, id) {
        Some(b) => Some(members[b].member.invited_by),
        None => None,
    }
}

proof fn lemma_ban_walk_more_steps(
    members: Seq<AuthorizedMember>,
    current: MemberId,
    me: MemberId,
    owner: MemberId,
    steps: nat,
)
    requires
        ban_walk(members, current, me, owner, steps) is Ok,
    ensures
        ban_walk(members, current, me, owner, steps + 1) is Ok,
    decreases steps,
{
    if current != owner && current != me && steps > 0 {
        let i = last_member_with_id(members, current)->0;
        lemma_ban_walk_more_steps(members, members[i].member.invited_by, me, owner, (steps - 1) as nat);
    }
}

/// A ban that is granted names neither the banning member nor the owner,
/// and, unless the owner asks, the banning member is among the inviters of
/// the banned member.
pub proof fn lemma_ban_needs_authority(
    members: Seq<AuthorizedMember>,
    infos: Seq<AuthorizedMemberInfo>,
    me: MemberId,
    owner: MemberId,
    short: Seq<char>,
    banned: MemberId,
)
    requires
        ban_decision(members, infos, me, owner, short) == Ok::<MemberId, BanError>(banned),
    ensures
        banned != me,
        banned != owner,
        me == owner || may_ban(members, me, owner, banned),
        first_named(infos, short) matches Some(t) && infos[t].member_info.member_id == banned,
{
}

/// Whoever may ban a member may also ban that member's inviter, unless the
/// inviter is themselves.
pub proof fn lemma_may_ban_inviter(members: Seq<AuthorizedMember>, me: MemberId, owner: MemberId, banned: MemberId)
    requires
        may_ban(members, me, owner, banned),
        inviter_of(members, banned) != Some(me),
    ensures
        inviter_of(members, banned) matches Some(p) && may_ban(members, me, owner, p),
{
    let b = last_member_with_id(members, banned)->0;
    let p = members[b].member.invited_by;
    let c = last_member_with_id(members, p)->0;
    lemma_ban_walk_more_steps(members, members[c].member.invited_by, me, owner, members.len());
}

fn same_ignoring_ascii_case_exec(a: char, b: char) -> (r: bool)
    ensures
        r == same_ignoring_ascii_case(a, b),
{
    let a_upper = 'A' <= a && a <= 'Z';
    let b_upper = 'A' <= b && b <= 'Z';
    a == b || (a_upper && b as u32 == a as u32 + 32) || (b_upper && a as u32 == b as u32 + 32)
}

fn names_member_exec(short: &str, id: MemberId) -> (r: bool)
    ensures
        r == names_member(short@, id),
{
    let text = id.to_display_string();
    let text = text.as_str();
    let short_len = short.unicode_len();
    let text_len = text.unicode_len();
    let mut is_prefix = short_len <= text_len;
    let mut i: usize = 0;
    while is_prefix && i < short_len
        invariant
            short_len == short@.len(),
            text_len == text@.len(),
            i <= short_len,
            is_prefix ==> short_len <= text_len,
            is_prefix ==> forall|j: int| 0 <= j < i ==> short@[j] == text@[j],
            !is_prefix ==> !short@.is_prefix_of(text@),
        decreases short_len - i,
    {
        if short.get_char(i) != text.get_char(i) {
            is_prefix = false;
        }
        i = i + 1;
    }
    if is_prefix {
        assert(short@ =~= text@.take(short@.len() as int));
        return true;
    }
    let first_len: usize = if text_len <= 8 {
        text_len
    } else {
        8
    };
    assert(first_chars(text@, 8).len() == first_len);
    if first_len != short_len {
        return false;
    }
    let mut j: usize = 0;
    while j < first_len
        invariant
            short_len == short@.len(),
            text_len == text@.len(),
            first_len == short_len,
            first_len <= text_len,
            text@ == decimal(id.0.0 as int),
            !short@.is_prefix_of(text@),
            first_chars(text@, 8).len() == first_len,
            j <= first_len,
            forall|k: int| 0 <= k < j ==> same_ignoring_ascii_case(#[trigger] first_chars(text@, 8)[k], short@[k]),
        decreases first_len - j,
    {
        assert(first_chars(text@, 8)[j as int] == text@[j as int]);
        if !same_ignoring_ascii_case_exec(text.get_char(j), short.get_char(j)) {
            assert(!same_ignoring_ascii_case(first_chars(text@, 8)[j as int], short@[j as int]));
            return false;
        }
        j = j + 1;
    }
    true
}

proof fn lemma_first_named_prefix(infos: Seq<AuthorizedMemberInfo>, short: Seq<char>, k: int, i: int)
    requires
        0 < k <= infos.len(),
        first_named(infos.subrange(0, k), short) == Some(i),
    ensures
        first_named(infos, short) == Some(i),
    decreases infos.len() - k,
{
    if k < infos.len() {
        let next = infos.subrange(0, k + 1);
        assert(next.drop_last() =~= infos.subrange(0, k));
        lemma_first_named_prefix(infos, short, k + 1, i);
    } else {
        assert(infos.subrange(0, k) =~= infos);
    }
}

fn find_named(infos: &Vec<AuthorizedMemberInfo>, short: &str) -> (r: Option<usize>)
    ensures
        match r {
            Some(i) => i < infos@.len() && first_named(infos@, short@) == Some(i as int),
            None => first_named(infos@, short@) is None,
        },
{
    let mut i: usize = 0;
    while i < infos.len()
        invariant
            i <= infos@.len(),
            first_named(infos@.subrange(0, i as int), short@) is None,
        decreases infos.len() - i,
    {
        let ghost pre = infos@.subrange(0, i + 1);
        assert(pre.drop_last() =~= infos@.subrange(0, i as int));
        assert(pre.last() == infos@[i as int]);
        if names_member_exec(short, infos[i].member_info.member_id) {
            proof {
                lemma_first_named_prefix(infos@, short@, i + 1, i as int);
            }
            return Some(i);
        }
        i = i + 1;
    }
    assert(infos@.subrange(0, i as int) =~= infos@);
    None
}

proof fn lemma_last_member_with_id_bounds(members: Seq<AuthorizedMember>, id: MemberId)
    ensures
        last_member_with_id(members, id) matches Some(i) ==> 0 <= i < members.len(),
    decreases members.len(),
{
    if members.len() > 0 {
        lemma_last_member_with_id_bounds(members.drop_last(), id);
    }
}

fn find_last_with_id(members: &Vec<AuthorizedMember>, id: MemberId) -> (r: Option<usize>)
    ensures
        match r {
            Some(i) => i < members@.len() && last_member_with_id(members@, id) == Some(i as int),
            None => last_member_with_id(members@, id) is None,
        },
{
    let mut i = members.len();
    assert(members@.subrange(0, i as int) =~= members@);
    while i > 0
        invariant
            i <= members@.len(),
            last_member_with_id(members@, id) == last_member_with_id(members@.subrange(0, i as int), id),
        decreases i,
    {
        let ghost pre = members@.subrange(0, i as int);
        assert(pre.drop_last() =~= members@.subrange(0, i - 1));
        if members[i - 1].member.id() == id {
            return Some(i - 1);
        }
        i = i - 1;
    }
    None
}

fn walk_inviters(members: &Vec<AuthorizedMember>, start: MemberId, me: MemberId, owner: MemberId) -> (r:
    Result<(), BanError>)
    requires
        members@.len() < usize::MAX,
    ensures
        r == ban_walk(members@, start, me, owner, members@.len() + 1),
{
    let mut current = start;
    let mut steps: usize = members.len() + 1;
    let ghost whole = ban_walk(members@, start, me, owner, members@.len() + 1);
    loop
        invariant
            whole == ban_walk(members@, start, me, owner, members@.len() + 1),
            whole == ban_walk(members@, current, me, owner, steps as nat),
        decreases steps,
    {
        if current == owner {
            return Err(BanError::NotAuthorized);
        }
        if current == me {
            return Ok(());
        }
        if steps == 0 {
            return Err(BanError::CircularInviteChain);
        }
        match find_last_with_id(members, current) {
            None => {
                return Err(BanError::InviterNotFound);
            },
            Some(i) => {
                current = members[i].member.invited_by;
                steps = steps - 1;
            },
        }
    }
}

/// Decides a ban of the member that `member_id_short` names (the first
/// member information entry whose id it names), asked by the holder of
/// `signing_key` on the board of `board_owner_key`. Nobody may ban
/// themselves or the owner. The owner may ban anyone else; any other
/// member only a member whose inviters, walked up from the last member
/// entry with the banned id, pass them before reaching the owner.
pub fn authorize_ban(
    board_state: &ChatBoardStateV1,
    board_owner_key: &[u8; 32],
    signing_key: &[u8; 32],
    member_id_short: &str,
) -> (r: Result<MemberId, BanError>)
    requires
        board_state.members.members@.len() < usize::MAX,
    ensures
        r == ban_decision(
            board_state.members.members@,
            board_state.member_info.member_info@,
            member_id_of_key(spec_ed25519_public(signing_key@)),
            member_id_of_key(board_owner_key@),
            member_id_short@,
        ),
{
    let my_id = MemberId::from_verifying_key(&ed25519_public(signing_key));
    let owner_id = MemberId::from_verifying_key(board_owner_key);
    let infos = &board_state.member_info.member_info;
    let target = match find_named(infos, member_id_short) {
        Some(t) => t,
        None => {
            return Err(BanError::MemberNotFound);
        },
    };
    let banned = infos[target].member_info.member_id;
    if banned == my_id {
        return Err(BanError::CannotBanSelf);
    }
    if banned == owner_id {
        return Err(BanError::CannotBanOwner);
    }
    if my_id == owner_id {
        return Ok(banned);
    }
    let members = &board_state.members.members;
    match find_last_with_id(members, banned) {
        None => Err(BanError::NotAMember),
        Some(b) => match walk_inviters(members, members[b].member.invited_by, my_id, owner_id) {
            Ok(()) => Ok(banned),
            Err(e) => Err(e),
        },
    }
}

} // verus!
