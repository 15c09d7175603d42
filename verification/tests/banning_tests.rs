use freetalk::admin::AdminsV1;
use freetalk::banning::{authorize_ban, BanError};
use freetalk::ids::MemberId;
use freetalk::messages::MessagesV1;
use freetalk::state::{
    AuthorizedMember, AuthorizedMemberInfo, BansV1, ChatBoardStateV1, Configuration, Member,
    MemberInfo, MemberInfoV1, MembersV1, PrivacyMode, SecretsV1,
};

fn verifying_key(sk: &[u8; 32]) -> [u8; 32] {
    ed25519_dalek::SigningKey::from_bytes(sk).verifying_key().to_bytes()
}

fn id_of_sk(sk: &[u8; 32]) -> MemberId {
    MemberId::from_verifying_key(&verifying_key(sk))
}

fn member(owner_id: MemberId, inviter: MemberId, sk: &[u8; 32]) -> AuthorizedMember {
    AuthorizedMember {
        member: Member { owner_member_id: owner_id, invited_by: inviter, member_vk: verifying_key(sk) },
        signature: [0; 64],
    }
}

fn info(id: MemberId) -> AuthorizedMemberInfo {
    AuthorizedMemberInfo {
        member_info: MemberInfo { member_id: id, version: 0, preferred_nickname: "n".to_string() },
        signature: [0; 64],
    }
}

fn state(owner_id: MemberId, members: Vec<AuthorizedMember>, infos: Vec<AuthorizedMemberInfo>) -> ChatBoardStateV1 {
    ChatBoardStateV1 {
        configuration: Configuration {
            owner_member_id: owner_id,
            privacy_mode: PrivacyMode::Public,
            max_message_size: 1000,
            max_title_size: 100,
            max_admins: 5,
        },
        members: MembersV1 { members },
        bans: BansV1(vec![]),
        admin: AdminsV1::default(),
        member_info: MemberInfoV1 { member_info: infos },
        secrets: SecretsV1 { current_version: 0, versions: vec![], encrypted_secrets: vec![] },
        recent_messages: MessagesV1::default(),
    }
}

fn short(id: MemberId) -> String {
    id.to_display_string().chars().take(8).collect()
}

const OWNER: [u8; 32] = [1; 32];
const A: [u8; 32] = [2; 32];
const B: [u8; 32] = [3; 32];
const C: [u8; 32] = [4; 32];
const D: [u8; 32] = [5; 32];

/// The owner invited A and D; A invited B; B invited C.
fn board() -> ChatBoardStateV1 {
    let o = id_of_sk(&OWNER);
    let members = vec![
        member(o, o, &A),
        member(o, id_of_sk(&A), &B),
        member(o, id_of_sk(&B), &C),
        member(o, o, &D),
    ];
    let infos = vec![info(o), info(id_of_sk(&A)), info(id_of_sk(&B)), info(id_of_sk(&C)), info(id_of_sk(&D))];
    state(o, members, infos)
}

#[test]
fn the_owner_may_ban_any_member_but_not_themselves() {
    let st = board();
    let owner_vk = verifying_key(&OWNER);
    let c = id_of_sk(&C);
    assert_eq!(authorize_ban(&st, &owner_vk, &OWNER, &short(c)), Ok(c));
    let full = c.to_display_string();
    assert_eq!(authorize_ban(&st, &owner_vk, &OWNER, &full), Ok(c));
    assert_eq!(
        authorize_ban(&st, &owner_vk, &OWNER, &short(id_of_sk(&OWNER))),
        Err(BanError::CannotBanSelf)
    );
}

#[test]
fn members_may_ban_only_those_they_invited() {
    let st = board();
    let owner_vk = verifying_key(&OWNER);
    let c = id_of_sk(&C);
    let b = id_of_sk(&B);
    assert_eq!(authorize_ban(&st, &owner_vk, &A, &short(c)), Ok(c));
    assert_eq!(authorize_ban(&st, &owner_vk, &A, &short(b)), Ok(b));
    assert_eq!(authorize_ban(&st, &owner_vk, &B, &short(c)), Ok(c));
    assert_eq!(authorize_ban(&st, &owner_vk, &C, &short(id_of_sk(&A))), Err(BanError::NotAuthorized));
    assert_eq!(authorize_ban(&st, &owner_vk, &D, &short(c)), Err(BanError::NotAuthorized));
    assert_eq!(
        authorize_ban(&st, &owner_vk, &A, &short(id_of_sk(&OWNER))),
        Err(BanError::CannotBanOwner)
    );
    assert_eq!(authorize_ban(&st, &owner_vk, &C, &short(c)), Err(BanError::CannotBanSelf));
}

#[test]
fn unknown_and_vanished_members() {
    let owner_vk = verifying_key(&OWNER);
    let o = id_of_sk(&OWNER);
    let st = board();
    assert_eq!(authorize_ban(&st, &owner_vk, &A, "x"), Err(BanError::MemberNotFound));

    // C still has member information but no member entry.
    let c = id_of_sk(&C);
    let st = state(o, vec![member(o, o, &A)], vec![info(c)]);
    assert_eq!(authorize_ban(&st, &owner_vk, &A, &short(c)), Err(BanError::NotAMember));

    // C's inviter B has left the member list.
    let st = state(o, vec![member(o, id_of_sk(&B), &C)], vec![info(c)]);
    assert_eq!(authorize_ban(&st, &owner_vk, &A, &short(c)), Err(BanError::InviterNotFound));
}

#[test]
fn a_circular_chain_is_refused() {
    let owner_vk = verifying_key(&OWNER);
    let o = id_of_sk(&OWNER);
    let b = id_of_sk(&B);
    let c = id_of_sk(&C);
    // B and C invited each other.
    let st = state(o, vec![member(o, c, &B), member(o, b, &C)], vec![info(c)]);
    assert_eq!(authorize_ban(&st, &owner_vk, &A, &short(c)), Err(BanError::CircularInviteChain));
}
