use freetalk::admin::{available_admin_candidates, Admin, AdminsDelta, AdminsError, AdminsV1, AuthorizedAdmin};
use freetalk::ids::{FastHash, MemberId};
use freetalk::messages::MessagesV1;
use freetalk::state::{
    AuthorizedMember, BansV1, Member, ChatBoardParametersV1, ChatBoardStateV1, Configuration, MemberInfoV1, MembersV1,
    PrivacyMode, SecretsV1,
};

fn verifying_key(sk: &[u8; 32]) -> [u8; 32] {
    ed25519_dalek::SigningKey::from_bytes(sk).verifying_key().to_bytes()
}

fn board_state(max_admins: usize) -> ChatBoardStateV1 {
    ChatBoardStateV1 {
        configuration: Configuration {
            owner_member_id: MemberId(FastHash(0)),
            privacy_mode: PrivacyMode::Public,
            max_message_size: 1000,
            max_title_size: 100,
            max_admins,
        },
        members: MembersV1 { members: vec![] },
        bans: BansV1(vec![]),
        admin: AdminsV1::default(),
        member_info: MemberInfoV1 { member_info: vec![] },
        secrets: SecretsV1 { current_version: 0, versions: vec![], encrypted_secrets: vec![] },
        recent_messages: MessagesV1::default(),
    }
}

fn appoint(owner_sk: &[u8; 32], id: i64) -> AuthorizedAdmin {
    AuthorizedAdmin::new(Admin { member_id: MemberId(FastHash(id)) }, owner_sk)
}

fn ids(a: &AdminsV1) -> Vec<i64> {
    a.admins.iter().map(|x| x.admin.id().0 .0).collect()
}

#[test]
fn appointment_signature_verifies_under_the_owner_key() {
    let owner_sk = [1u8; 32];
    let owner_vk = verifying_key(&owner_sk);
    let a = appoint(&owner_sk, 5);
    assert_eq!(a.verify_signature(&owner_vk), Ok(()));
    assert_eq!(a.verify_signature(&verifying_key(&[2u8; 32])), Err(AdminsError::InvalidSignature));
    let forged = AuthorizedAdmin::with_signature(Admin { member_id: MemberId(FastHash(6)) }, a.signature);
    assert!(forged.verify_signature(&owner_vk).is_err());
}

#[test]
fn verify_checks_count_owner_and_signatures() {
    let owner_sk = [1u8; 32];
    let owner_vk = verifying_key(&owner_sk);
    let params = ChatBoardParametersV1 { owner: owner_vk };

    assert_eq!(AdminsV1::default().verify(&board_state(0), &params), Ok(()));

    let two = AdminsV1 { admins: vec![appoint(&owner_sk, 1), appoint(&owner_sk, 2)] };
    assert_eq!(two.verify(&board_state(2), &params), Ok(()));
    let r = two.verify(&board_state(1), &params);
    assert_eq!(r, Err(AdminsError::TooManyAdmins { count: 2, max: 1 }));
    assert_eq!(r.unwrap_err().message(), "Too many admins: 2 > 1");

    let owner_id = MemberId::from_verifying_key(&owner_vk);
    let with_owner = AdminsV1 {
        admins: vec![AuthorizedAdmin::new(Admin { member_id: owner_id }, &owner_sk)],
    };
    assert_eq!(with_owner.verify(&board_state(3), &params), Err(AdminsError::OwnerIsAdmin));

    let bad = AdminsV1 { admins: vec![appoint(&[9u8; 32], 3)] };
    assert_eq!(bad.verify(&board_state(3), &params), Err(AdminsError::InvalidSignature));
}

#[test]
fn summarize_and_delta() {
    let owner_sk = [1u8; 32];
    let admins = AdminsV1 { admins: vec![appoint(&owner_sk, 1), appoint(&owner_sk, 2)] };
    let summary = admins.summarize();
    assert_eq!(summary, vec![MemberId(FastHash(1)), MemberId(FastHash(2))]);
    assert!(admins.delta(&summary).is_none());
    assert!(admins.delta(&vec![MemberId(FastHash(1))]).is_some());
}

#[test]
fn apply_delta_adds_new_ids_sorted() {
    let owner_sk = [1u8; 32];
    let params = ChatBoardParametersV1 { owner: verifying_key(&owner_sk) };
    let mut admins = AdminsV1 { admins: vec![appoint(&owner_sk, 5)] };
    let delta = AdminsDelta::new(vec![appoint(&owner_sk, 9), appoint(&owner_sk, 2), appoint(&owner_sk, 5)]);
    assert_eq!(admins.apply_delta(&board_state(10), &params, &Some(delta)), Ok(()));
    assert_eq!(ids(&admins), vec![2, 5, 9]);
}

#[test]
fn apply_delta_refusals_leave_the_list() {
    let owner_sk = [1u8; 32];
    let params = ChatBoardParametersV1 { owner: verifying_key(&owner_sk) };
    let mut admins = AdminsV1 { admins: vec![appoint(&owner_sk, 5)] };

    let too_many = AdminsDelta::new(vec![appoint(&owner_sk, 1), appoint(&owner_sk, 2)]);
    let r = admins.apply_delta(&board_state(2), &params, &Some(too_many));
    assert_eq!(r, Err(AdminsError::TooManyAdminsAfterDelta { count: 3, max: 2 }));
    assert_eq!(r.unwrap_err().message(), "Too many admins after delta: 3 > 2");
    assert_eq!(ids(&admins), vec![5]);

    let unsigned = AdminsDelta::new(vec![appoint(&[7u8; 32], 1)]);
    assert_eq!(
        admins.apply_delta(&board_state(5), &params, &Some(unsigned)),
        Err(AdminsError::InvalidSignature)
    );
    assert_eq!(ids(&admins), vec![5]);
}

#[test]
fn deltas_commute_and_repeat_harmlessly() {
    let owner_sk = [1u8; 32];
    let params = ChatBoardParametersV1 { owner: verifying_key(&owner_sk) };
    let d1 = || AdminsDelta::new(vec![appoint(&owner_sk, 7), appoint(&owner_sk, 3)]);
    let d2 = || AdminsDelta::new(vec![appoint(&owner_sk, 4), appoint(&owner_sk, 7)]);

    let mut a = AdminsV1 { admins: vec![appoint(&owner_sk, 5)] };
    a.apply_delta(&board_state(10), &params, &Some(d1())).unwrap();
    a.apply_delta(&board_state(10), &params, &Some(d2())).unwrap();
    let mut b = AdminsV1 { admins: vec![appoint(&owner_sk, 5)] };
    b.apply_delta(&board_state(10), &params, &Some(d2())).unwrap();
    b.apply_delta(&board_state(10), &params, &Some(d1())).unwrap();
    assert_eq!(ids(&a), vec![3, 4, 5, 7]);
    assert_eq!(ids(&a), ids(&b));

    let before = ids(&a);
    a.apply_delta(&board_state(10), &params, &Some(d1())).unwrap();
    assert_eq!(ids(&a), before);
}

#[test]
fn merge_takes_the_other_lists_new_admins() {
    let owner_sk = [1u8; 32];
    let params = ChatBoardParametersV1 { owner: verifying_key(&owner_sk) };
    let mut a = AdminsV1 { admins: vec![appoint(&owner_sk, 8)] };
    let b = AdminsV1 { admins: vec![appoint(&owner_sk, 1), appoint(&owner_sk, 8)] };
    assert_eq!(a.merge(&board_state(10), &params, &b), Ok(()));
    assert_eq!(ids(&a), vec![1, 8]);
    let by_id = a.admins_by_member_id();
    assert_eq!(by_id.len(), 2);
    assert!(by_id.contains_key(&1));
}

#[test]
fn admin_candidates_leave_out_the_owner_and_the_appointed() {
    let owner_sk = [1u8; 32];
    let owner_vk = verifying_key(&owner_sk);
    let owner_id = MemberId::from_verifying_key(&owner_vk);
    let entry = |seed: u8| AuthorizedMember {
        member: Member { owner_member_id: owner_id, invited_by: owner_id, member_vk: verifying_key(&[seed; 32]) },
        signature: [0; 64],
    };
    let id = |seed: u8| MemberId::from_verifying_key(&verifying_key(&[seed; 32]));
    let members = MembersV1 { members: vec![entry(1), entry(2), entry(3), entry(4)] };
    let mut admins = AdminsV1::default();
    admins.admins.push(AuthorizedAdmin::new(Admin { member_id: id(3) }, &owner_sk));
    assert_eq!(available_admin_candidates(&members, &admins, owner_id), vec![id(2), id(4)]);
    assert_eq!(
        available_admin_candidates(&members, &AdminsV1::default(), owner_id),
        vec![id(2), id(3), id(4)]
    );
}
