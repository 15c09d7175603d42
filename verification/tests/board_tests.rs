use freetalk::admin::{Admin, AdminsV1, AuthorizedAdmin};
use freetalk::board::{BoardData, CurrentBoard, RotateSecretError, SendMessageError};
use freetalk::ids::MemberId;
use freetalk::message::Timestamp;
use freetalk::messages::MessagesV1;
use freetalk::state::{
    AuthorizedMember, AuthorizedMemberInfo, BansV1, ChatBoardParametersV1, ChatBoardStateV1,
    Configuration, EncryptedSecretForMember, Member, MemberInfo, MemberInfoV1, MembersV1,
    PrivacyMode, SecretVersionRecord, SecretsV1, UserBan,
};

fn verifying_key(sk: &[u8; 32]) -> [u8; 32] {
    ed25519_dalek::SigningKey::from_bytes(sk).verifying_key().to_bytes()
}

fn board_state(owner_id: MemberId) -> ChatBoardStateV1 {
    ChatBoardStateV1 {
        configuration: Configuration {
            owner_member_id: owner_id,
            privacy_mode: PrivacyMode::Public,
            max_message_size: 1000,
            max_title_size: 100,
            max_admins: 5,
        },
        members: MembersV1 { members: vec![] },
        bans: BansV1(vec![]),
        admin: AdminsV1::default(),
        member_info: MemberInfoV1 { member_info: vec![] },
        secrets: SecretsV1 { current_version: 0, versions: vec![], encrypted_secrets: vec![] },
        recent_messages: MessagesV1::default(),
    }
}

fn member(owner_id: MemberId, inviter: MemberId, vk: [u8; 32]) -> AuthorizedMember {
    AuthorizedMember {
        member: Member { owner_member_id: owner_id, invited_by: inviter, member_vk: vk },
        signature: [0; 64],
    }
}

fn board_data(owner_vk: [u8; 32], board_state: ChatBoardStateV1, self_sk: [u8; 32]) -> BoardData {
    BoardData {
        owner_vk,
        board_state,
        self_sk,
        last_read_message_id: None,
        secrets: std::collections::HashMap::new(),
        current_secret_version: None,
        last_secret_rotation: None,
        key_migrated_to_delegate: false,
        self_authorized_member: None,
        invite_chain: vec![],
        self_member_info: None,
    }
}

fn info(member_id: MemberId, version: u32, nickname: &str) -> AuthorizedMemberInfo {
    AuthorizedMemberInfo {
        member_info: MemberInfo { member_id, version, preferred_nickname: nickname.to_string() },
        signature: [0; 64],
    }
}

#[test]
fn test_can_send_message_after_self_sk_update() {
    let owner_sk = [1u8; 32];
    let owner_vk = verifying_key(&owner_sk);
    let owner_id = MemberId::from_verifying_key(&owner_vk);

    let mut board_state = board_state(owner_id);
    let invitee_sk = [2u8; 32];
    let invitee_vk = verifying_key(&invitee_sk);
    board_state.members.members.push(member(owner_id, owner_id, invitee_vk));

    let stale_sk = [3u8; 32];
    let mut board_data = board_data(owner_vk, board_state, stale_sk);

    assert_eq!(board_data.can_send_message(), Err(SendMessageError::UserNotMember));

    board_data.self_sk = invitee_sk;
    assert_eq!(board_data.can_send_message(), Ok(()));
}

#[test]
fn test_capture_self_membership_data_preserves_nickname() {
    let owner_sk = [1u8; 32];
    let owner_vk = verifying_key(&owner_sk);
    let owner_id = MemberId::from_verifying_key(&owner_vk);
    let invitee_sk = [2u8; 32];
    let invitee_vk = verifying_key(&invitee_sk);
    let member_id = MemberId::from_verifying_key(&invitee_vk);

    let mut board_state = board_state(owner_id);
    board_state.members.members.push(member(owner_id, owner_id, invitee_vk));
    board_state.member_info.member_info.push(info(member_id, 0, "Alice"));

    let params = ChatBoardParametersV1 { owner: owner_vk };
    let mut board_data = board_data(owner_vk, board_state, invitee_sk);

    assert!(board_data.self_member_info.is_none());

    board_data.capture_self_membership_data(&params);
    assert!(board_data.self_member_info.is_some());
    let stored = board_data.self_member_info.as_ref().unwrap();
    assert_eq!(stored.member_info.member_id, member_id);
    assert_eq!(stored.member_info.version, 0);

    board_data.board_state.member_info.member_info[0] = info(member_id, 1, "Bob");

    board_data.capture_self_membership_data(&params);
    let stored = board_data.self_member_info.as_ref().unwrap();
    assert_eq!(stored.member_info.version, 1);
}

// ----- further cases -----

#[test]
fn banned_users_may_not_post() {
    let owner_vk = verifying_key(&[1u8; 32]);
    let owner_id = MemberId::from_verifying_key(&owner_vk);
    let user_sk = [2u8; 32];
    let user_id = MemberId::from_verifying_key(&verifying_key(&user_sk));
    let mut st = board_state(owner_id);
    st.members.members.push(member(owner_id, owner_id, verifying_key(&user_sk)));
    st.bans = BansV1(vec![UserBan { banned_user: user_id, banned_by: owner_id }]);
    let bd = board_data(owner_vk, st, user_sk);
    assert_eq!(bd.can_send_message(), Err(SendMessageError::UserBanned));
    assert_eq!(bd.can_participate(), Err(SendMessageError::UserBanned));
}

#[test]
fn owner_and_invited_users_may_post() {
    let owner_sk = [1u8; 32];
    let owner_vk = verifying_key(&owner_sk);
    let owner_id = MemberId::from_verifying_key(&owner_vk);
    let bd = board_data(owner_vk, board_state(owner_id), owner_sk);
    assert_eq!(bd.can_send_message(), Ok(()));
    assert!(bd.can_create_categories());

    let user_sk = [5u8; 32];
    let mut bd = board_data(owner_vk, board_state(owner_id), user_sk);
    assert_eq!(bd.can_participate(), Err(SendMessageError::UserNotMember));
    assert!(!bd.can_create_categories());
    bd.self_authorized_member = Some(member(owner_id, owner_id, verifying_key(&user_sk)));
    assert_eq!(bd.can_participate(), Ok(()));
}

#[test]
fn admins_may_create_categories() {
    let owner_sk = [1u8; 32];
    let owner_vk = verifying_key(&owner_sk);
    let owner_id = MemberId::from_verifying_key(&owner_vk);
    let user_sk = [6u8; 32];
    let user_id = MemberId::from_verifying_key(&verifying_key(&user_sk));
    let mut st = board_state(owner_id);
    st.admin = AdminsV1 { admins: vec![AuthorizedAdmin::new(Admin { member_id: user_id }, &owner_sk)] };
    let bd = board_data(owner_vk, st, user_sk);
    assert!(bd.can_create_categories());
}

#[test]
fn secrets_by_version() {
    let owner_sk = [1u8; 32];
    let owner_vk = verifying_key(&owner_sk);
    let owner_id = MemberId::from_verifying_key(&owner_vk);
    let mut bd = board_data(owner_vk, board_state(owner_id), owner_sk);
    assert!(bd.get_secret().is_none());

    let t = Timestamp { secs_since_epoch: 100, nanos_since_epoch: 0 };
    bd.set_secret_at([7; 32], 2, t);
    assert_eq!(bd.get_secret(), Some((&[7u8; 32], 2)));
    assert_eq!(bd.last_secret_rotation, Some(t));

    // An older version is stored but does not become current.
    bd.set_secret_at([8; 32], 1, Timestamp { secs_since_epoch: 200, nanos_since_epoch: 0 });
    assert_eq!(bd.current_secret(), Some(&[7u8; 32]));
    assert_eq!(bd.get_secret_for_version(1), Some(&[8u8; 32]));
    assert_eq!(bd.last_secret_rotation, Some(t));

    bd.set_secret([9; 32], 3);
    assert_eq!(bd.current_secret_version, Some(3));
    assert!(bd.last_secret_rotation.is_some());
}

#[test]
fn rotation_is_due_after_a_week() {
    let owner_sk = [1u8; 32];
    let owner_vk = verifying_key(&owner_sk);
    let owner_id = MemberId::from_verifying_key(&owner_vk);
    let mut st = board_state(owner_id);
    st.configuration.privacy_mode = PrivacyMode::Private;
    let start = Timestamp { secs_since_epoch: 1_000, nanos_since_epoch: 0 };
    st.secrets.versions.push(SecretVersionRecord { version: 0, created_at: start });
    let mut bd = board_data(owner_vk, st, owner_sk);

    let week = 7 * 24 * 60 * 60;
    assert!(!bd.needs_secret_rotation_at(Timestamp { secs_since_epoch: 1_000 + week, nanos_since_epoch: 999_999_999 }));
    assert!(bd.needs_secret_rotation_at(Timestamp { secs_since_epoch: 1_000 + week + 1, nanos_since_epoch: 0 }));
    // A clock that reads earlier than the creation time does not call for rotation.
    assert!(!bd.needs_secret_rotation_at(Timestamp { secs_since_epoch: 10, nanos_since_epoch: 0 }));

    bd.last_secret_rotation = Some(Timestamp { secs_since_epoch: 5_000_000, nanos_since_epoch: 0 });
    assert!(!bd.needs_secret_rotation_at(Timestamp { secs_since_epoch: 5_000_000 + week, nanos_since_epoch: 0 }));

    // Only the owner rotates.
    let other = board_data(owner_vk, {
        let mut st = board_state(owner_id);
        st.configuration.privacy_mode = PrivacyMode::Private;
        st.secrets.versions.push(SecretVersionRecord { version: 0, created_at: start });
        st
    }, [2u8; 32]);
    assert!(!other.needs_secret_rotation_at(Timestamp { secs_since_epoch: 1_000 + 2 * week, nanos_since_epoch: 0 }));
}

#[test]
fn rotation_plan() {
    let owner_sk = [1u8; 32];
    let owner_vk = verifying_key(&owner_sk);
    let owner_id = MemberId::from_verifying_key(&owner_vk);
    let a_vk = verifying_key(&[2u8; 32]);
    let b_vk = verifying_key(&[3u8; 32]);
    let a_id = MemberId::from_verifying_key(&a_vk);
    let b_id = MemberId::from_verifying_key(&b_vk);

    let public = board_data(owner_vk, board_state(owner_id), owner_sk);
    assert_eq!(public.plan_secret_rotation(), Err(RotateSecretError::PublicBoard));
    assert_eq!(
        RotateSecretError::PublicBoard.message(),
        "Cannot rotate secret for public board"
    );

    let mut st = board_state(owner_id);
    st.configuration.privacy_mode = PrivacyMode::Private;
    st.secrets.current_version = 4;
    let empty = board_data(owner_vk, st, owner_sk);
    assert_eq!(empty.plan_secret_rotation(), Err(RotateSecretError::NoMembers));

    let mut st = board_state(owner_id);
    st.configuration.privacy_mode = PrivacyMode::Private;
    st.secrets.current_version = 4;
    st.members.members = vec![member(owner_id, owner_id, a_vk), member(owner_id, owner_id, b_vk)];
    st.bans = BansV1(vec![UserBan { banned_user: a_id, banned_by: owner_id }]);
    let bd = board_data(owner_vk, st, owner_sk);
    assert_eq!(bd.plan_secret_rotation(), Ok((5, vec![(b_id, b_vk)])));

    let not_owner = board_data(owner_vk, {
        let mut st = board_state(owner_id);
        st.configuration.privacy_mode = PrivacyMode::Private;
        st
    }, [2u8; 32]);
    assert_eq!(not_owner.plan_secret_rotation(), Err(RotateSecretError::NotOwner));
}

#[test]
fn members_missing_the_current_secret() {
    let owner_sk = [1u8; 32];
    let owner_vk = verifying_key(&owner_sk);
    let owner_id = MemberId::from_verifying_key(&owner_vk);
    let a_vk = verifying_key(&[2u8; 32]);
    let b_vk = verifying_key(&[3u8; 32]);
    let a_id = MemberId::from_verifying_key(&a_vk);
    let b_id = MemberId::from_verifying_key(&b_vk);

    let mut st = board_state(owner_id);
    st.configuration.privacy_mode = PrivacyMode::Private;
    st.members.members = vec![member(owner_id, owner_id, a_vk), member(owner_id, owner_id, b_vk)];
    st.secrets.encrypted_secrets = vec![EncryptedSecretForMember { member_id: a_id, secret_version: 1 }];
    let mut bd = board_data(owner_vk, st, owner_sk);
    assert_eq!(bd.members_missing_secret(), None);
    bd.set_secret_at([7; 32], 1, Timestamp { secs_since_epoch: 0, nanos_since_epoch: 0 });
    assert_eq!(bd.members_missing_secret(), Some((1, vec![(b_id, b_vk)])));
}

#[test]
fn restore_member_access_replaces_the_first_entry() {
    let owner_sk = [1u8; 32];
    let owner_vk = verifying_key(&owner_sk);
    let owner_id = MemberId::from_verifying_key(&owner_vk);
    let a_vk = verifying_key(&[2u8; 32]);
    let new_vk = verifying_key(&[4u8; 32]);
    let mut st = board_state(owner_id);
    st.members.members = vec![member(owner_id, owner_id, a_vk)];
    let mut bd = board_data(owner_vk, st, owner_sk);
    assert!(bd.restore_member_access(a_vk, member(owner_id, owner_id, new_vk)));
    assert_eq!(bd.board_state.members.members[0].member.member_vk, new_vk);
    assert!(!bd.restore_member_access(a_vk, member(owner_id, owner_id, new_vk)));
    assert_eq!(bd.owner_id(), owner_id);
    assert_eq!(bd.parameters(), ChatBoardParametersV1 { owner: owner_vk });
    assert_eq!(bd.board_key(), owner_vk);
}

#[test]
fn capture_keeps_the_invite_chain() {
    let owner_sk = [1u8; 32];
    let owner_vk = verifying_key(&owner_sk);
    let owner_id = MemberId::from_verifying_key(&owner_vk);
    let a_vk = verifying_key(&[2u8; 32]);
    let a_id = MemberId::from_verifying_key(&a_vk);
    let self_sk = [3u8; 32];
    let self_vk = verifying_key(&self_sk);
    let mut st = board_state(owner_id);
    let a = member(owner_id, owner_id, a_vk);
    let me = member(owner_id, a_id, self_vk);
    st.members.members = vec![a, me];
    let params = ChatBoardParametersV1 { owner: owner_vk };
    let mut bd = board_data(owner_vk, st, self_sk);
    bd.capture_self_membership_data(&params);
    assert_eq!(bd.self_authorized_member, Some(me));
    assert_eq!(bd.invite_chain, vec![a]);
}

#[test]
fn current_board() {
    let owner_vk = verifying_key(&[1u8; 32]);
    let cb = CurrentBoard { owner_key: Some(owner_vk) };
    assert_eq!(cb.owner_id(), Some(MemberId::from_verifying_key(&owner_vk)));
    assert_eq!(cb.owner_key(), Some(&owner_vk));
    assert_eq!(CurrentBoard { owner_key: None }.owner_id(), None);
}

fn blob(seed: u8) -> freetalk::secret_delta::EncryptedSecretBlob {
    freetalk::secret_delta::EncryptedSecretBlob {
        ciphertext: vec![seed; 3],
        nonce: [seed; 12],
        sender_ephemeral_public_key: [seed; 32],
    }
}

#[test]
fn a_rotation_seals_the_new_secret_for_every_member_not_banned() {
    let owner_sk = [1u8; 32];
    let owner_vk = verifying_key(&owner_sk);
    let owner_id = MemberId::from_verifying_key(&owner_vk);
    let a_vk = verifying_key(&[2u8; 32]);
    let b_vk = verifying_key(&[3u8; 32]);
    let c_vk = verifying_key(&[4u8; 32]);
    let a_id = MemberId::from_verifying_key(&a_vk);
    let b_id = MemberId::from_verifying_key(&b_vk);
    let c_id = MemberId::from_verifying_key(&c_vk);
    let mut st = board_state(owner_id);
    st.configuration.privacy_mode = PrivacyMode::Private;
    st.secrets.current_version = 4;
    st.members.members = vec![
        member(owner_id, owner_id, a_vk),
        member(owner_id, owner_id, b_vk),
        member(owner_id, owner_id, c_vk),
    ];
    st.bans = BansV1(vec![UserBan { banned_user: b_id, banned_by: owner_id }]);
    let mut bd = board_data(owner_vk, st, owner_sk);
    let now = Timestamp { secs_since_epoch: 100, nanos_since_epoch: 0 };
    let delta = bd.rotate_secret([9; 32], &vec![blob(1), blob(2)], now).unwrap();
    assert_eq!(delta.current_version, Some(5));
    assert_eq!(delta.new_versions, vec![SecretVersionRecord { version: 5, created_at: now }]);
    let sealed: Vec<_> = delta
        .new_encrypted_secrets
        .iter()
        .map(|e| (e.member_id, e.secret_version, e.ciphertext.clone(), e.provider))
        .collect();
    assert_eq!(sealed, vec![(a_id, 5, vec![1, 1, 1], owner_id), (c_id, 5, vec![2, 2, 2], owner_id)]);
    assert_eq!(bd.current_secret_version, Some(5));
    assert_eq!(bd.last_secret_rotation, Some(now));
    assert_eq!(bd.secrets.get(&5), Some(&[9; 32]));

    // A public board refuses, and nothing changes.
    let mut public = board_data(owner_vk, board_state(owner_id), owner_sk);
    assert_eq!(
        public.rotate_secret([9; 32], &vec![], now).err(),
        Some(RotateSecretError::PublicBoard)
    );
    assert_eq!(public.current_secret_version, None);
    // The wrong number of blobs is refused before anything is done.
    assert!(bd.try_rotate_secret([8; 32], &vec![blob(1)], now).is_none());
    assert_eq!(bd.current_secret_version, Some(5));
}

#[test]
fn the_current_secret_is_sealed_for_the_members_who_lack_it() {
    let owner_sk = [1u8; 32];
    let owner_vk = verifying_key(&owner_sk);
    let owner_id = MemberId::from_verifying_key(&owner_vk);
    let a_vk = verifying_key(&[2u8; 32]);
    let b_vk = verifying_key(&[3u8; 32]);
    let a_id = MemberId::from_verifying_key(&a_vk);
    let b_id = MemberId::from_verifying_key(&b_vk);
    let mut st = board_state(owner_id);
    st.configuration.privacy_mode = PrivacyMode::Private;
    st.members.members = vec![member(owner_id, owner_id, a_vk), member(owner_id, owner_id, b_vk)];
    st.secrets.encrypted_secrets = vec![EncryptedSecretForMember { member_id: a_id, secret_version: 1 }];
    let mut bd = board_data(owner_vk, st, owner_sk);
    assert!(bd.generate_missing_member_secrets(&vec![]).is_none());
    bd.set_secret_at([7; 32], 1, Timestamp { secs_since_epoch: 0, nanos_since_epoch: 0 });
    let delta = bd.generate_missing_member_secrets(&vec![blob(5)]).unwrap();
    assert_eq!(delta.current_version, None);
    assert!(delta.new_versions.is_empty());
    assert_eq!(delta.new_encrypted_secrets.len(), 1);
    let e = &delta.new_encrypted_secrets[0];
    assert_eq!((e.member_id, e.secret_version, e.provider), (b_id, 1, owner_id));
    assert_eq!(e.nonce, [5; 12]);
}
