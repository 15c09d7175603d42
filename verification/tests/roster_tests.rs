use freetalk::ids::MemberId;
use freetalk::roster::{
    did_you_invite_member, format_member_display, invite_tree_order, is_in_your_network,
    is_member_sponsor, MemberDisplay,
};
use freetalk::state::{AuthorizedMember, ChatBoardParametersV1, Member, MembersV1};

fn vk(seed: u8) -> [u8; 32] {
    ed25519_dalek::SigningKey::from_bytes(&[seed; 32]).verifying_key().to_bytes()
}

fn id(seed: u8) -> MemberId {
    MemberId::from_verifying_key(&vk(seed))
}

fn member(seed: u8, inviter: MemberId) -> AuthorizedMember {
    AuthorizedMember {
        member: Member { owner_member_id: id(1), invited_by: inviter, member_vk: vk(seed) },
        signature: [0; 64],
    }
}

/// Owner 1 invited 2 and 3; 2 invited 4; 4 invited 5; 7 was invited by 6,
/// who is not a member.
fn members() -> MembersV1 {
    MembersV1 {
        members: vec![
            member(2, id(1)),
            member(3, id(1)),
            member(4, id(2)),
            member(5, id(4)),
            member(7, id(6)),
        ],
    }
}

#[test]
fn invite_tree_order_walks_depth_first() {
    let order = invite_tree_order(id(1), &members());
    assert_eq!(order, vec![id(1), id(2), id(4), id(5), id(3), id(7)]);
}

#[test]
fn who_invited_whom() {
    let ms = members();
    assert!(did_you_invite_member(id(4), &ms, id(2)));
    assert!(!did_you_invite_member(id(4), &ms, id(3)));
    assert!(!did_you_invite_member(id(9), &ms, id(2)));
    assert!(is_in_your_network(id(5), &ms, id(2)));
    assert!(!is_in_your_network(id(4), &ms, id(2)));
    let params = ChatBoardParametersV1 { owner: vk(1) };
    assert!(is_member_sponsor(id(2), &ms, id(5), &params));
    assert!(is_member_sponsor(id(4), &ms, id(5), &params));
    assert!(!is_member_sponsor(id(3), &ms, id(5), &params));
    // 7's chain cannot be walked: its inviter is not a member.
    assert!(!is_member_sponsor(id(6), &ms, id(7), &params));
}

fn display(nickname: &str) -> MemberDisplay {
    MemberDisplay {
        nickname: nickname.to_string(),
        member_id: id(2),
        is_owner: false,
        is_admin: false,
        is_self: false,
        invited_you: false,
        sponsored_you: false,
        invited_by_you: false,
        in_your_network: false,
    }
}

#[test]
fn member_display_tags() {
    assert_eq!(format_member_display(&display("Alice")), "Alice");
    let mut d = display("Bob");
    d.is_owner = true;
    d.is_admin = true;
    d.is_self = true;
    assert_eq!(
        format_member_display(&d),
        "Bob <span class=\"member-icon\" title=\"Board Owner\">👑</span> <span class=\"member-icon\" title=\"You\">⭐</span> "
    );
    let mut d = display("Eve");
    d.in_your_network = true;
    d.sponsored_you = true;
    assert_eq!(
        format_member_display(&d),
        "Eve <span class=\"member-icon\" title=\"In Your Network\">🌐</span> <span class=\"member-icon\" title=\"In Your Invite Chain\">🔭</span> "
    );
}
