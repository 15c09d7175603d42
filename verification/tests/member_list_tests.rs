use freetalk::admin::{Admin, AdminsV1, AuthorizedAdmin};
use freetalk::board::BoardData;
use freetalk::ids::MemberId;
use freetalk::member_list::member_list;
use freetalk::messages::MessagesV1;
use freetalk::roster::format_member_display;
use freetalk::state::{
    AuthorizedMember, AuthorizedMemberInfo, BansV1, ChatBoardStateV1, Configuration, Member,
    MemberInfo, MemberInfoV1, MembersV1, PrivacyMode, SecretsV1,
};

fn vk(seed: u8) -> [u8; 32] {
    ed25519_dalek::SigningKey::from_bytes(&[seed; 32]).verifying_key().to_bytes()
}

fn id(seed: u8) -> MemberId {
    MemberId::from_verifying_key(&vk(seed))
}

fn entry(inviter: MemberId, seed: u8) -> AuthorizedMember {
    AuthorizedMember {
        member: Member { owner_member_id: id(1), invited_by: inviter, member_vk: vk(seed) },
        signature: [0; 64],
    }
}

/// Owner 1 invited 2 and 4; 2 invited 3. The user is 2; 4 is an admin.
fn board() -> BoardData {
    let mut admin = AdminsV1::default();
    admin.admins.push(AuthorizedAdmin::new(Admin { member_id: id(4) }, &[1; 32]));
    let state = ChatBoardStateV1 {
        configuration: Configuration {
            owner_member_id: id(1),
            privacy_mode: PrivacyMode::Public,
            max_message_size: 1000,
            max_title_size: 100,
            max_admins: 5,
        },
        members: MembersV1 { members: vec![entry(id(1), 2), entry(id(2), 3), entry(id(1), 4)] },
        bans: BansV1(vec![]),
        admin,
        member_info: MemberInfoV1 {
            member_info: vec![
                AuthorizedMemberInfo {
                    member_info: MemberInfo { member_id: id(1), version: 0, preferred_nickname: "Olga".to_string() },
                    signature: [0; 64],
                },
                AuthorizedMemberInfo {
                    member_info: MemberInfo { member_id: id(2), version: 0, preferred_nickname: "Bo".to_string() },
                    signature: [0; 64],
                },
            ],
        },
        secrets: SecretsV1 { current_version: 0, versions: vec![], encrypted_secrets: vec![] },
        recent_messages: MessagesV1::default(),
    };
    BoardData {
        owner_vk: vk(1),
        board_state: state,
        self_sk: [2; 32],
        last_read_message_id: None,
        secrets: std::collections::HashMap::new(),
        current_secret_version: None,
        last_secret_rotation: None,
        key_migrated_to_delegate: false,
        self_authorized_member: None,
        invite_chain: vec![],
        self_member_info: None,
    }
}

#[test]
fn the_member_list_in_tree_order_with_tags() {
    let list = member_list(&board());
    let ids: Vec<MemberId> = list.iter().map(|d| d.member_id).collect();
    assert_eq!(ids.len(), 4);
    assert_eq!(ids[0], id(1));
    assert!(ids.contains(&id(2)) && ids.contains(&id(3)) && ids.contains(&id(4)));

    let of = |seed: u8| list.iter().find(|d| d.member_id == id(seed)).unwrap();
    let owner = of(1);
    assert_eq!(owner.nickname, "Olga");
    assert!(owner.is_owner && !owner.is_self);
    assert!(owner.invited_you);
    assert!(!owner.sponsored_you && !owner.invited_by_you && !owner.in_your_network);

    let me = of(2);
    assert_eq!(me.nickname, "Bo");
    assert!(me.is_self && !me.is_owner && !me.is_admin);

    let mine = of(3);
    assert_eq!(mine.nickname, "Unknown");
    assert!(mine.invited_by_you && !mine.invited_you);

    let admin = of(4);
    assert!(admin.is_admin && !admin.invited_by_you && !admin.in_your_network);

    assert_eq!(
        format_member_display(owner),
        "Olga <span class=\"member-icon\" title=\"Board Owner\">👑</span> <span class=\"member-icon\" title=\"Invited You\">🎪</span> "
    );
}
