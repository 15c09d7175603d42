use freetalk::admin::AdminsV1;
use freetalk::ids::MemberId;
use freetalk::listing::output_message_text;
use freetalk::message::{AuthorizedMessageV1, BoardMessageBody, MessageV1, Timestamp};
use freetalk::messages::MessagesV1;
use freetalk::state::{
    AuthorizedMemberInfo, BansV1, ChatBoardStateV1, Configuration, MemberInfo, MemberInfoV1,
    MembersV1, PrivacyMode, SecretsV1,
};

fn member_id(sk: &[u8; 32]) -> MemberId {
    MemberId::from_verifying_key(&ed25519_dalek::SigningKey::from_bytes(sk).verifying_key().to_bytes())
}

fn at(secs: u64) -> Timestamp {
    Timestamp { secs_since_epoch: 1_700_000_000 + secs, nanos_since_epoch: 0 }
}

fn signed(sk: &[u8; 32], owner: MemberId, secs: u64, content: BoardMessageBody) -> AuthorizedMessageV1 {
    AuthorizedMessageV1::new(MessageV1 { board_owner: owner, author: member_id(sk), time: at(secs), content }, sk)
}

fn state(messages: Vec<AuthorizedMessageV1>, infos: Vec<AuthorizedMemberInfo>, owner: MemberId) -> ChatBoardStateV1 {
    let mut recent = MessagesV1::default();
    recent.messages = messages;
    recent.rebuild_actions_state();
    ChatBoardStateV1 {
        configuration: Configuration {
            owner_member_id: owner,
            privacy_mode: PrivacyMode::Public,
            max_message_size: 1000,
            max_title_size: 100,
            max_admins: 5,
        },
        members: MembersV1 { members: vec![] },
        bans: BansV1(vec![]),
        admin: AdminsV1::default(),
        member_info: MemberInfoV1 { member_info: infos },
        secrets: SecretsV1 { current_version: 0, versions: vec![], encrypted_secrets: vec![] },
        recent_messages: recent,
    }
}

fn info(id: MemberId, nickname: &str) -> AuthorizedMemberInfo {
    AuthorizedMemberInfo {
        member_info: MemberInfo { member_id: id, version: 0, preferred_nickname: nickname.to_string() },
        signature: [0; 64],
    }
}

#[test]
fn an_edited_message_with_reactions() {
    let a = [1u8; 32];
    let b = [2u8; 32];
    let owner = member_id(&a);
    let original = signed(&a, owner, 0, BoardMessageBody::public(String::new(), "Hello".to_string()));
    let id = original.id();
    let messages = vec![
        original.clone(),
        signed(&a, owner, 1, BoardMessageBody::edit(id, String::new(), "Hello there".to_string())),
        signed(&a, owner, 2, BoardMessageBody::reaction(id, "👍".to_string())),
        signed(&b, owner, 3, BoardMessageBody::reaction(id, "👍".to_string())),
        signed(&b, owner, 4, BoardMessageBody::reaction(id, "❤".to_string())),
    ];
    let st = state(messages, vec![info(owner, "Alice")], owner);
    let (label, body) = output_message_text(&st, &original);
    assert_eq!(label, "Alice");
    assert_eq!(body, "Hello there (edited) [👍×2 ❤×1]");
}

#[test]
fn a_plain_message_of_an_unnamed_author() {
    let a = [1u8; 32];
    let b = [2u8; 32];
    let owner = member_id(&a);
    let message = signed(&b, owner, 0, BoardMessageBody::public(String::new(), "Hi".to_string()));
    let st = state(vec![message.clone()], vec![info(owner, "Alice")], owner);
    let (label, body) = output_message_text(&st, &message);
    let expected: String = member_id(&b).to_display_string().chars().take(8).collect();
    assert_eq!(label, expected);
    assert_eq!(body, "Hi");
}

#[test]
fn an_encrypted_message_reads_as_encrypted() {
    let a = [1u8; 32];
    let owner = member_id(&a);
    let message = signed(&a, owner, 0, BoardMessageBody::private_text(vec![1, 2, 3], [0; 12], 1));
    let st = state(vec![message.clone()], vec![], owner);
    let (_, body) = output_message_text(&st, &message);
    assert_eq!(body, "<encrypted>");
}
