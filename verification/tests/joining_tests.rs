use freetalk::admin::AdminsV1;
use freetalk::board::BoardData;
use freetalk::ids::MemberId;
use freetalk::invitation::Invitation;
use freetalk::joining::{build_rejoin_delta, check_membership_status, invitation_nickname};
use freetalk::messages::MessagesV1;
use freetalk::state::{
    AuthorizedMember, AuthorizedMemberInfo, BansV1, ChatBoardStateV1, Configuration, Member,
    MemberInfo, MemberInfoV1, MembersV1, PrivacyMode, SecretsV1,
};

fn verifying_key(sk: &[u8; 32]) -> [u8; 32] {
    ed25519_dalek::SigningKey::from_bytes(sk).verifying_key().to_bytes()
}

fn id_of(vk: &[u8; 32]) -> MemberId {
    MemberId::from_verifying_key(vk)
}

fn member(owner_id: MemberId, inviter: MemberId, vk: [u8; 32]) -> AuthorizedMember {
    AuthorizedMember {
        member: Member { owner_member_id: owner_id, invited_by: inviter, member_vk: vk },
        signature: [7; 64],
    }
}

fn board_state(owner_id: MemberId, members: Vec<AuthorizedMember>) -> ChatBoardStateV1 {
    ChatBoardStateV1 {
        configuration: Configuration {
            owner_member_id: owner_id,
            privacy_mode: PrivacyMode::Public,
            max_message_size: 1000,
            max_title_size: 100,
            max_admins: 5,
        },
        members: MembersV1 { members },
        bans: BansV1(vec![]),
        admin: AdminsV1::default(),
        member_info: MemberInfoV1 { member_info: vec![] },
        secrets: SecretsV1 { current_version: 0, versions: vec![], encrypted_secrets: vec![] },
        recent_messages: MessagesV1::default(),
    }
}

fn board_data(owner_vk: [u8; 32], board_state: ChatBoardStateV1, self_sk: [u8; 32]) -> BoardData {
    BoardData {
        owner_vk,
        board_state,
        self_sk,
        last_read_message_id: None,
        secrets: std::collections::HashMap::new(),
        current_secret_version: None,
        last_secret_rotation: None,
        key_migrated_to_delegate: false,
        self_authorized_member: None,
        invite_chain: vec![],
        self_member_info: None,
    }
}

fn invitation(owner_vk: [u8; 32], invitee_sk: [u8; 32], admitted_vk: [u8; 32]) -> Invitation {
    let owner_id = id_of(&owner_vk);
    Invitation {
        board: owner_vk,
        invitee_signing_key: invitee_sk,
        invitee: member(owner_id, owner_id, admitted_vk),
    }
}

#[test]
fn membership_status_without_a_copy_of_the_board() {
    let owner_vk = verifying_key(&[1; 32]);
    let inv = invitation(owner_vk, [2; 32], verifying_key(&[2; 32]));
    assert_eq!(check_membership_status(&inv, None), (false, false));
}

#[test]
fn membership_status_of_the_owner_and_of_members() {
    let owner_sk = [1; 32];
    let owner_vk = verifying_key(&owner_sk);
    let owner_id = id_of(&owner_vk);
    let member_vk = verifying_key(&[2; 32]);
    let other_vk = verifying_key(&[3; 32]);
    let state = || board_state(owner_id, vec![member(owner_id, owner_id, member_vk)]);

    // The user's key is the owner's; the admitted key is a member.
    let board = board_data(owner_vk, state(), owner_sk);
    let inv = invitation(owner_vk, owner_sk, member_vk);
    assert_eq!(check_membership_status(&inv, Some(&board)), (true, true));

    // The user's key is a member's; the admitted key is not.
    let inv = invitation(owner_vk, [2; 32], other_vk);
    assert_eq!(check_membership_status(&inv, Some(&board)), (true, false));

    // Neither key is on the board.
    let inv = invitation(owner_vk, [4; 32], other_vk);
    assert_eq!(check_membership_status(&inv, Some(&board)), (false, false));
}

#[test]
fn blank_nicknames_fall_back_to_the_admitted_key() {
    let vk = verifying_key(&[9; 32]);
    let encoded = bs58::encode(vk).into_string();
    let expected = format!("User-{}", encoded.chars().take(6).collect::<String>());
    assert_eq!(invitation_nickname("   ".to_string(), &vk), expected);
    assert_eq!(invitation_nickname(String::new(), &vk), expected);
    assert_eq!(invitation_nickname(" Alice ".to_string(), &vk), " Alice ");
}

#[test]
fn no_rejoin_for_the_owner_or_a_present_member() {
    let owner_sk = [1; 32];
    let owner_vk = verifying_key(&owner_sk);
    let owner_id = id_of(&owner_vk);
    let self_sk = [2; 32];
    let self_vk = verifying_key(&self_sk);
    let kept = member(owner_id, owner_id, self_vk);

    let state = board_state(owner_id, vec![]);
    assert!(build_rejoin_delta(&state, &owner_vk, &owner_sk, Some(&kept), &vec![]).is_none());

    let state = board_state(owner_id, vec![kept]);
    assert!(build_rejoin_delta(&state, &owner_vk, &self_sk, Some(&kept), &vec![]).is_none());

    let state = board_state(owner_id, vec![]);
    assert!(build_rejoin_delta(&state, &owner_vk, &self_sk, None, &vec![]).is_none());
}

#[test]
fn rejoin_adds_self_and_the_pruned_part_of_the_chain() {
    let owner_vk = verifying_key(&[1; 32]);
    let owner_id = id_of(&owner_vk);
    let a_vk = verifying_key(&[3; 32]);
    let b_vk = verifying_key(&[4; 32]);
    let self_sk = [2; 32];
    let self_vk = verifying_key(&self_sk);
    let self_id = id_of(&self_vk);

    let a = member(owner_id, owner_id, a_vk);
    let b = member(owner_id, id_of(&a_vk), b_vk);
    let kept = member(owner_id, id_of(&b_vk), self_vk);

    let mut state = board_state(owner_id, vec![a]);
    let info = |id: MemberId, version: u32| AuthorizedMemberInfo {
        member_info: MemberInfo { member_id: id, version, preferred_nickname: "x".to_string() },
        signature: [0; 64],
    };
    state.member_info.member_info = vec![info(owner_id, 9), info(self_id, 4), info(self_id, 6)];

    let (added, member_info) =
        build_rejoin_delta(&state, &owner_vk, &self_sk, Some(&kept), &vec![b, a]).unwrap();
    assert_eq!(added, vec![kept, b]);
    assert_eq!(member_info.member_id, self_id);
    assert_eq!(member_info.version, 4);
    assert_eq!(member_info.preferred_nickname, "Member");

    state.member_info.member_info = vec![];
    let (_, member_info) =
        build_rejoin_delta(&state, &owner_vk, &self_sk, Some(&kept), &vec![]).unwrap();
    assert_eq!(member_info.version, 0);
}
