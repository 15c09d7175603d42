use freetalk::admin::AdminsV1;
use freetalk::ids::{FastHash, MemberId, MessageId};
use freetalk::message::{AuthorizedMessageV1, BoardMessageBody, MessageV1, Timestamp};
use freetalk::messages::{MessagesError, MessagesV1};
use freetalk::state::{
    AuthorizedMember, BansV1, ChatBoardParametersV1, ChatBoardStateV1, Configuration, Member,
    MemberInfoV1, MembersV1, PrivacyMode, SecretsV1,
};

fn signing_key(seed: u8) -> [u8; 32] {
    [seed; 32]
}

fn verifying_key(sk: &[u8; 32]) -> [u8; 32] {
    ed25519_dalek::SigningKey::from_bytes(sk).verifying_key().to_bytes()
}

fn member_id(sk: &[u8; 32]) -> MemberId {
    MemberId::from_verifying_key(&verifying_key(sk))
}

fn at(secs: u64) -> Timestamp {
    Timestamp { secs_since_epoch: 1_700_000_000 + secs, nanos_since_epoch: 0 }
}

fn create_test_message(owner_id: MemberId, author_id: MemberId, time: Timestamp) -> MessageV1 {
    MessageV1 {
        board_owner: owner_id,
        author: author_id,
        time,
        content: BoardMessageBody::public(String::new(), "Test message".to_string()),
    }
}

fn board_state(owner_id: MemberId, members: Vec<AuthorizedMember>, max_message_size: usize) -> ChatBoardStateV1 {
    ChatBoardStateV1 {
        configuration: Configuration {
            owner_member_id: owner_id,
            privacy_mode: PrivacyMode::Public,
            max_message_size,
            max_title_size: 100,
            max_admins: 5,
        },
        members: MembersV1 { members },
        bans: BansV1(vec![]),
        admin: AdminsV1::default(),
        member_info: MemberInfoV1 { member_info: vec![] },
        secrets: SecretsV1 { current_version: 0, versions: vec![], encrypted_secrets: vec![] },
        recent_messages: MessagesV1::default(),
    }
}

fn member_entry(owner_id: MemberId, vk: [u8; 32]) -> AuthorizedMember {
    AuthorizedMember {
        member: Member { owner_member_id: owner_id, invited_by: owner_id, member_vk: vk },
        signature: [0; 64],
    }
}

fn messages_of(messages: Vec<AuthorizedMessageV1>) -> MessagesV1 {
    let mut m = MessagesV1::default();
    m.messages = messages;
    m
}

#[test]
fn test_messages_v1_default() {
    let default_messages = MessagesV1::default();
    assert!(default_messages.messages.is_empty());
}

#[test]
fn test_authorized_message_v1_debug() {
    let sk = signing_key(1);
    let owner_id = MemberId(FastHash(0));
    let author_id = MemberId(FastHash(1));

    let message = create_test_message(owner_id, author_id, at(0));
    let authorized_message = AuthorizedMessageV1::new(message, &sk);

    let debug_output = format!("{:?}", authorized_message);
    assert!(debug_output.contains("AuthorizedMessage"));
    assert!(debug_output.contains("message"));
    assert!(debug_output.contains("signature"));
}

#[test]
fn test_authorized_message_new_and_validate() {
    let sk = signing_key(1);
    let vk = verifying_key(&sk);
    let owner_id = MemberId(FastHash(0));
    let author_id = MemberId(FastHash(1));

    let message = create_test_message(owner_id, author_id, at(0));
    let authorized_message = AuthorizedMessageV1::new(message.clone(), &sk);

    assert_eq!(authorized_message.message, message);
    assert!(authorized_message.validate(&vk).is_ok());

    // Test with wrong key
    let wrong_key = verifying_key(&signing_key(2));
    assert!(authorized_message.validate(&wrong_key).is_err());

    // Test with tampered message
    let mut tampered_message = authorized_message.clone();
    tampered_message.message.content =
        BoardMessageBody::public(String::new(), "Tampered content".to_string());
    assert!(tampered_message.validate(&vk).is_err());
}

#[test]
fn test_message_id() {
    let sk = signing_key(1);
    let owner_id = MemberId(FastHash(0));
    let author_id = MemberId(FastHash(1));

    let message = create_test_message(owner_id, author_id, at(0));
    let authorized_message = AuthorizedMessageV1::new(message, &sk);

    let id1 = authorized_message.id();
    let id2 = authorized_message.id();

    assert_eq!(id1, id2);

    // Different messages have different ids
    let message2 = create_test_message(owner_id, author_id, at(1));
    let authorized_message2 = AuthorizedMessageV1::new(message2, &sk);
    assert_ne!(authorized_message.id(), authorized_message2.id());
}

#[test]
fn test_messages_verify() {
    let owner_sk = signing_key(1);
    let owner_vk = verifying_key(&owner_sk);
    let owner_id = MemberId::from_verifying_key(&owner_vk);

    let author_sk = signing_key(2);
    let author_vk = verifying_key(&author_sk);
    let author_id = MemberId::from_verifying_key(&author_vk);

    let message = create_test_message(owner_id, author_id, at(0));
    let authorized_message = AuthorizedMessageV1::new(message, &author_sk);
    let messages = messages_of(vec![authorized_message.clone()]);

    let parent_state = board_state(owner_id, vec![member_entry(owner_id, author_vk)], 1000);
    let parameters = ChatBoardParametersV1 { owner: owner_vk };

    assert!(
        messages.verify(&parent_state, &parameters).is_ok(),
        "Valid messages should pass verification: {:?}",
        messages.verify(&parent_state, &parameters)
    );

    // Test with invalid signature
    let mut invalid = authorized_message.clone();
    invalid.signature = [0; 64];
    let invalid_messages = messages_of(vec![invalid]);
    assert!(
        invalid_messages.verify(&parent_state, &parameters).is_err(),
        "Messages with invalid signature should fail verification"
    );

    // Test with non-existent author
    let non_existent_author_id = member_id(&signing_key(3));
    let invalid_message = create_test_message(owner_id, non_existent_author_id, at(0));
    let invalid_authorized_message = AuthorizedMessageV1::new(invalid_message, &author_sk);
    let invalid_messages = messages_of(vec![invalid_authorized_message]);
    assert!(
        invalid_messages.verify(&parent_state, &parameters).is_err(),
        "Messages with non-existent author should fail verification"
    );
}

#[test]
fn test_messages_summarize() {
    let sk = signing_key(1);
    let owner_id = MemberId(FastHash(0));
    let author_id = MemberId(FastHash(1));

    let authorized_message1 = AuthorizedMessageV1::new(create_test_message(owner_id, author_id, at(0)), &sk);
    let authorized_message2 = AuthorizedMessageV1::new(create_test_message(owner_id, author_id, at(1)), &sk);

    let messages = messages_of(vec![authorized_message1.clone(), authorized_message2.clone()]);

    let summary = messages.summarize();
    assert_eq!(summary.len(), 2);
    assert_eq!(summary[0], authorized_message1.id());
    assert_eq!(summary[1], authorized_message2.id());

    let empty_messages = MessagesV1::default();
    let empty_summary = empty_messages.summarize();
    assert!(empty_summary.is_empty());
}

#[test]
fn test_messages_delta() {
    let sk = signing_key(1);
    let owner_id = MemberId(FastHash(0));
    let author_id = MemberId(FastHash(1));

    let authorized_message1 = AuthorizedMessageV1::new(create_test_message(owner_id, author_id, at(0)), &sk);
    let authorized_message2 = AuthorizedMessageV1::new(create_test_message(owner_id, author_id, at(1)), &sk);
    let authorized_message3 = AuthorizedMessageV1::new(create_test_message(owner_id, author_id, at(2)), &sk);

    let messages = messages_of(vec![
        authorized_message1.clone(),
        authorized_message2.clone(),
        authorized_message3.clone(),
    ]);

    let old_summary = vec![authorized_message1.id(), authorized_message2.id()];
    let delta = messages.delta(&old_summary).unwrap();
    assert_eq!(delta.len(), 1);
    assert_eq!(delta[0], authorized_message3);

    let empty_summary: Vec<MessageId> = vec![];
    let full_delta = messages.delta(&empty_summary).unwrap();
    assert_eq!(full_delta.len(), 3);
    assert_eq!(full_delta, messages.messages);

    let full_summary = vec![
        authorized_message1.id(),
        authorized_message2.id(),
        authorized_message3.id(),
    ];
    let no_delta = messages.delta(&full_summary);
    assert!(no_delta.is_none());
}

#[test]
fn test_messages_apply_delta() {
    let owner_sk = signing_key(1);
    let owner_vk = verifying_key(&owner_sk);
    let owner_id = MemberId::from_verifying_key(&owner_vk);

    let author_sk = signing_key(2);
    let author_vk = verifying_key(&author_sk);
    let author_id = MemberId::from_verifying_key(&author_vk);

    let parent_state = board_state(owner_id, vec![member_entry(owner_id, author_vk)], 100);
    let parameters = ChatBoardParametersV1 { owner: owner_vk };

    let create_message = |time: Timestamp| {
        let message = MessageV1 {
            board_owner: owner_id,
            author: author_id,
            time,
            content: BoardMessageBody::public(String::new(), "Test message".to_string()),
        };
        AuthorizedMessageV1::new(message, &author_sk)
    };

    let message1 = create_message(at(7));
    let message2 = create_message(at(8));
    let message3 = create_message(at(9));
    let message4 = create_message(at(10));

    let mut messages = messages_of(vec![message1.clone(), message2.clone()]);

    let delta = vec![message3.clone(), message4.clone()];
    assert!(messages.apply_delta(&parent_state, &parameters, &Some(delta)).is_ok());

    assert_eq!(messages.messages.len(), 4, "Should have 4 messages after applying delta");
    assert!(messages.messages.contains(&message1), "Message1 should be retained");
    assert!(messages.messages.contains(&message2), "Message2 should be retained");
    assert!(messages.messages.contains(&message3), "New message should be added");
    assert!(messages.messages.contains(&message4), "Newest message should be added");

    let old_message = create_message(at(6));
    let delta = vec![old_message.clone()];
    assert!(messages.apply_delta(&parent_state, &parameters, &Some(delta)).is_ok());

    assert_eq!(messages.messages.len(), 5, "Should have 5 messages");
    assert!(messages.messages.contains(&old_message), "Older message should be added");
    assert!(messages.messages.contains(&message1), "Message1 should be retained");
    assert!(messages.messages.contains(&message2), "Message2 should be retained");
    assert!(messages.messages.contains(&message3), "Message3 should be retained");
    assert!(messages.messages.contains(&message4), "Newest message should be retained");
}

#[test]
fn test_oversized_message_filtered_by_apply_delta() {
    let owner_sk = signing_key(1);
    let owner_vk = verifying_key(&owner_sk);
    let owner_id = MemberId::from_verifying_key(&owner_vk);

    let author_sk = signing_key(2);
    let author_vk = verifying_key(&author_sk);
    let author_id = MemberId::from_verifying_key(&author_vk);

    let parent_state = board_state(owner_id, vec![member_entry(owner_id, author_vk)], 50);
    let parameters = ChatBoardParametersV1 { owner: owner_vk };

    let small_msg = AuthorizedMessageV1::new(
        MessageV1 {
            board_owner: owner_id,
            author: author_id,
            time: at(0),
            content: BoardMessageBody::public(String::new(), "short".to_string()),
        },
        &author_sk,
    );
    let big_msg = AuthorizedMessageV1::new(
        MessageV1 {
            board_owner: owner_id,
            author: author_id,
            time: at(0),
            content: BoardMessageBody::public(String::new(), "x".repeat(100)),
        },
        &author_sk,
    );

    assert!(small_msg.message.content.content_len() <= 50);
    assert!(big_msg.message.content.content_len() > 50);

    let mut messages = MessagesV1::default();
    let delta = vec![small_msg.clone(), big_msg.clone()];
    assert!(messages.apply_delta(&parent_state, &parameters, &Some(delta)).is_ok());

    assert_eq!(messages.messages.len(), 1, "Only small message should survive");
    assert!(messages.messages.contains(&small_msg));
    assert!(!messages.messages.contains(&big_msg), "Oversized message should be filtered");
}

#[test]
fn test_message_author_preservation_across_users() {
    let user1_sk = signing_key(1);
    let user1_id = member_id(&user1_sk);
    let user2_sk = signing_key(2);
    let user2_id = member_id(&user2_sk);
    let owner_sk = signing_key(3);
    let owner_id = member_id(&owner_sk);

    println!("User1 ID: {}", user1_id.to_display_string());
    println!("User2 ID: {}", user2_id.to_display_string());
    println!("Owner ID: {}", owner_id.to_display_string());

    let msg1 = MessageV1 {
        board_owner: owner_id,
        author: user1_id,
        content: BoardMessageBody::public(String::new(), "Message from user1".to_string()),
        time: at(0),
    };
    let msg2 = MessageV1 {
        board_owner: owner_id,
        author: user2_id,
        content: BoardMessageBody::public(String::new(), "Message from user2".to_string()),
        time: at(1),
    };

    let auth_msg1 = AuthorizedMessageV1::new(msg1.clone(), &user1_sk);
    let auth_msg2 = AuthorizedMessageV1::new(msg2.clone(), &user2_sk);

    let messages = messages_of(vec![auth_msg1.clone(), auth_msg2.clone()]);

    assert_eq!(messages.messages.len(), 2);
    let stored_msg1 = &messages.messages[0];
    let stored_msg2 = &messages.messages[1];
    assert_eq!(
        stored_msg1.message.author, user1_id,
        "Message 1 author should be user1, but got {}",
        stored_msg1.message.author.to_display_string()
    );
    assert_eq!(
        stored_msg2.message.author, user2_id,
        "Message 2 author should be user2, but got {}",
        stored_msg2.message.author.to_display_string()
    );
    assert_ne!(user1_id, user2_id, "User IDs should be different");

    let user1_id_str = user1_id.to_display_string();
    let user2_id_str = user2_id.to_display_string();
    println!("User1 ID string: {}", user1_id_str);
    println!("User2 ID string: {}", user2_id_str);
    assert_ne!(user1_id_str, user2_id_str, "User ID strings should be different");
}

#[test]
fn test_edit_action() {
    let sk = signing_key(1);
    let owner_id = member_id(&sk);
    let author_id = owner_id;

    let original_msg = MessageV1 {
        board_owner: owner_id,
        author: author_id,
        time: at(0),
        content: BoardMessageBody::public(String::new(), "Original content".to_string()),
    };
    let auth_original = AuthorizedMessageV1::new(original_msg, &sk);
    let original_id = auth_original.id();

    let edit_msg = MessageV1 {
        board_owner: owner_id,
        author: author_id,
        time: at(1),
        content: BoardMessageBody::edit(original_id.clone(), String::new(), "Edited content".to_string()),
    };
    let auth_edit = AuthorizedMessageV1::new(edit_msg, &sk);

    let mut messages = messages_of(vec![auth_original.clone(), auth_edit]);
    messages.rebuild_actions_state();

    assert!(messages.is_edited(&original_id));
    let effective = messages.effective_text(&auth_original);
    assert_eq!(effective, Some("Edited content".to_string()));

    let display = messages.display_messages();
    assert_eq!(display.len(), 1);
}

#[test]
fn test_edit_by_non_author_ignored() {
    let owner_sk = signing_key(1);
    let owner_id = member_id(&owner_sk);
    let other_sk = signing_key(2);
    let other_id = member_id(&other_sk);

    let original_msg = MessageV1 {
        board_owner: owner_id,
        author: owner_id,
        time: at(0),
        content: BoardMessageBody::public(String::new(), "Original content".to_string()),
    };
    let auth_original = AuthorizedMessageV1::new(original_msg, &owner_sk);
    let original_id = auth_original.id();

    let edit_msg = MessageV1 {
        board_owner: owner_id,
        author: other_id,
        time: at(1),
        content: BoardMessageBody::edit(original_id.clone(), String::new(), "Hacked content".to_string()),
    };
    let auth_edit = AuthorizedMessageV1::new(edit_msg, &other_sk);

    let mut messages = messages_of(vec![auth_original.clone(), auth_edit]);
    messages.rebuild_actions_state();

    assert!(!messages.is_edited(&original_id));
    let effective = messages.effective_text(&auth_original);
    assert_eq!(effective, Some("Original content".to_string()));
}

#[test]
fn test_delete_action() {
    let sk = signing_key(1);
    let owner_id = member_id(&sk);

    let original_msg = MessageV1 {
        board_owner: owner_id,
        author: owner_id,
        time: at(0),
        content: BoardMessageBody::public(String::new(), "Will be deleted".to_string()),
    };
    let auth_original = AuthorizedMessageV1::new(original_msg, &sk);
    let original_id = auth_original.id();

    let delete_msg = MessageV1 {
        board_owner: owner_id,
        author: owner_id,
        time: at(1),
        content: BoardMessageBody::delete(original_id.clone()),
    };
    let auth_delete = AuthorizedMessageV1::new(delete_msg, &sk);

    let mut messages = messages_of(vec![auth_original, auth_delete]);
    messages.rebuild_actions_state();

    assert!(messages.is_deleted(&original_id));
    let display = messages.display_messages();
    assert_eq!(display.len(), 0);
}

#[test]
fn test_reaction_action() {
    let user1_sk = signing_key(1);
    let user1_id = member_id(&user1_sk);
    let user2_sk = signing_key(2);
    let user2_id = member_id(&user2_sk);
    let owner_id = user1_id;

    let original_msg = MessageV1 {
        board_owner: owner_id,
        author: user1_id,
        time: at(0),
        content: BoardMessageBody::public(String::new(), "React to me!".to_string()),
    };
    let auth_original = AuthorizedMessageV1::new(original_msg, &user1_sk);
    let original_id = auth_original.id();

    let reaction_msg = MessageV1 {
        board_owner: owner_id,
        author: user2_id,
        time: at(1),
        content: BoardMessageBody::reaction(original_id.clone(), "👍".to_string()),
    };
    let auth_reaction = AuthorizedMessageV1::new(reaction_msg, &user2_sk);

    let reaction_msg2 = MessageV1 {
        board_owner: owner_id,
        author: user1_id,
        time: at(2),
        content: BoardMessageBody::reaction(original_id.clone(), "👍".to_string()),
    };
    let auth_reaction2 = AuthorizedMessageV1::new(reaction_msg2, &user1_sk);

    let mut messages = messages_of(vec![auth_original, auth_reaction, auth_reaction2]);
    messages.rebuild_actions_state();

    let reactions = messages.reactions(&original_id).unwrap();
    let thumbs_up = &reactions.iter().find(|(e, _)| e == "👍").unwrap().1;
    assert_eq!(thumbs_up.len(), 2);
    assert!(thumbs_up.contains(&user1_id));
    assert!(thumbs_up.contains(&user2_id));
}

#[test]
fn test_remove_reaction_action() {
    let user_sk = signing_key(1);
    let user_id = member_id(&user_sk);
    let owner_id = user_id;

    let original_msg = MessageV1 {
        board_owner: owner_id,
        author: user_id,
        time: at(0),
        content: BoardMessageBody::public(String::new(), "Test message".to_string()),
    };
    let auth_original = AuthorizedMessageV1::new(original_msg, &user_sk);
    let original_id = auth_original.id();

    let reaction_msg = MessageV1 {
        board_owner: owner_id,
        author: user_id,
        time: at(1),
        content: BoardMessageBody::reaction(original_id.clone(), "❤️".to_string()),
    };
    let auth_reaction = AuthorizedMessageV1::new(reaction_msg, &user_sk);

    let remove_msg = MessageV1 {
        board_owner: owner_id,
        author: user_id,
        time: at(2),
        content: BoardMessageBody::remove_reaction(original_id.clone(), "❤️".to_string()),
    };
    let auth_remove = AuthorizedMessageV1::new(remove_msg, &user_sk);

    let mut messages = messages_of(vec![auth_original, auth_reaction, auth_remove]);
    messages.rebuild_actions_state();

    assert!(messages.reactions(&original_id).is_none());
}

#[test]
fn test_action_on_deleted_message_ignored() {
    let sk = signing_key(1);
    let owner_id = member_id(&sk);

    let original_msg = MessageV1 {
        board_owner: owner_id,
        author: owner_id,
        time: at(0),
        content: BoardMessageBody::public(String::new(), "Will be deleted".to_string()),
    };
    let auth_original = AuthorizedMessageV1::new(original_msg, &sk);
    let original_id = auth_original.id();

    let delete_msg = MessageV1 {
        board_owner: owner_id,
        author: owner_id,
        time: at(1),
        content: BoardMessageBody::delete(original_id.clone()),
    };
    let auth_delete = AuthorizedMessageV1::new(delete_msg, &sk);

    let edit_msg = MessageV1 {
        board_owner: owner_id,
        author: owner_id,
        time: at(2),
        content: BoardMessageBody::edit(original_id.clone(), String::new(), "Too late!".to_string()),
    };
    let auth_edit = AuthorizedMessageV1::new(edit_msg, &sk);

    let mut messages = messages_of(vec![auth_original, auth_delete, auth_edit]);
    messages.rebuild_actions_state();

    assert!(messages.is_deleted(&original_id));
    assert!(!messages.is_edited(&original_id));
}

#[test]
fn test_display_messages_filters_actions() {
    let sk = signing_key(1);
    let owner_id = member_id(&sk);

    let msg1 = MessageV1 {
        board_owner: owner_id,
        author: owner_id,
        time: at(0),
        content: BoardMessageBody::public(String::new(), "Hello".to_string()),
    };
    let auth_msg1 = AuthorizedMessageV1::new(msg1, &sk);
    let msg1_id = auth_msg1.id();

    let reaction_msg = MessageV1 {
        board_owner: owner_id,
        author: owner_id,
        time: at(1),
        content: BoardMessageBody::reaction(msg1_id, "👍".to_string()),
    };
    let auth_reaction = AuthorizedMessageV1::new(reaction_msg, &sk);

    let msg2 = MessageV1 {
        board_owner: owner_id,
        author: owner_id,
        time: at(2),
        content: BoardMessageBody::public(String::new(), "World".to_string()),
    };
    let auth_msg2 = AuthorizedMessageV1::new(msg2, &sk);

    let mut messages = messages_of(vec![auth_msg1, auth_reaction, auth_msg2]);
    messages.rebuild_actions_state();

    let display = messages.display_messages();
    assert_eq!(display.len(), 2);
    assert_eq!(display[0].message.content.as_public_string(), Some("Hello".to_string()));
    assert_eq!(display[1].message.content.as_public_string(), Some("World".to_string()));
}

#[test]
fn test_edit_action_on_category_ignored() {
    let sk = signing_key(1);
    let owner_id = member_id(&sk);

    let category_msg = MessageV1 {
        board_owner: owner_id,
        author: owner_id,
        time: at(0),
        content: BoardMessageBody::category(
            "Test Category".to_string(),
            Some("Description".to_string()),
            None,
            "#ff0000".to_string(),
            None,
        ),
    };
    let auth_category = AuthorizedMessageV1::new(category_msg, &sk);
    let category_id = auth_category.id();

    let edit_msg = MessageV1 {
        board_owner: owner_id,
        author: owner_id,
        time: at(1),
        content: BoardMessageBody::edit(category_id.clone(), String::new(), "Hacked content".to_string()),
    };
    let auth_edit = AuthorizedMessageV1::new(edit_msg, &sk);

    let mut messages = messages_of(vec![auth_category, auth_edit]);
    messages.rebuild_actions_state();

    assert!(!messages.is_edited(&category_id));
}

#[test]
fn test_edit_category_action_on_regular_message_ignored() {
    let sk = signing_key(1);
    let owner_id = member_id(&sk);

    let text_msg = MessageV1 {
        board_owner: owner_id,
        author: owner_id,
        time: at(0),
        content: BoardMessageBody::public(String::new(), "Regular message".to_string()),
    };
    let auth_text = AuthorizedMessageV1::new(text_msg, &sk);
    let text_id = auth_text.id();

    let edit_msg = MessageV1 {
        board_owner: owner_id,
        author: owner_id,
        time: at(1),
        content: BoardMessageBody::edit_category(
            text_id.clone(),
            "Hacked name".to_string(),
            None,
            None,
            "#ff0000".to_string(),
        ),
    };
    let auth_edit = AuthorizedMessageV1::new(edit_msg, &sk);

    let mut messages = messages_of(vec![auth_text, auth_edit]);
    messages.rebuild_actions_state();

    assert!(!messages.is_category_edited(&text_id));
}

// ----- further cases -----

#[test]
fn apply_delta_orders_by_time() {
    let owner_sk = signing_key(1);
    let owner_vk = verifying_key(&owner_sk);
    let owner_id = MemberId::from_verifying_key(&owner_vk);
    let parent_state = board_state(owner_id, vec![], 1000);
    let parameters = ChatBoardParametersV1 { owner: owner_vk };

    let late = AuthorizedMessageV1::new(create_test_message(owner_id, owner_id, at(5)), &owner_sk);
    let early = AuthorizedMessageV1::new(create_test_message(owner_id, owner_id, at(1)), &owner_sk);
    let mut messages = MessagesV1::default();
    assert!(messages.apply_delta(&parent_state, &parameters, &Some(vec![late.clone(), early.clone()])).is_ok());
    assert_eq!(messages.messages, vec![early.clone(), late.clone()]);

    // The same delta again changes nothing.
    assert!(messages.apply_delta(&parent_state, &parameters, &Some(vec![late.clone(), early.clone()])).is_ok());
    assert_eq!(messages.messages, vec![early, late]);
}

#[test]
fn apply_delta_drops_messages_of_strangers() {
    let owner_sk = signing_key(1);
    let owner_vk = verifying_key(&owner_sk);
    let owner_id = MemberId::from_verifying_key(&owner_vk);
    let stranger_sk = signing_key(9);
    let stranger_id = member_id(&stranger_sk);
    let parent_state = board_state(owner_id, vec![], 1000);
    let parameters = ChatBoardParametersV1 { owner: owner_vk };

    let m = AuthorizedMessageV1::new(create_test_message(owner_id, stranger_id, at(1)), &stranger_sk);
    let mut messages = MessagesV1::default();
    assert!(messages.apply_delta(&parent_state, &parameters, &Some(vec![m])).is_ok());
    assert!(messages.messages.is_empty());
}

#[test]
fn apply_delta_refuses_long_titles_and_newlines() {
    let owner_sk = signing_key(1);
    let owner_vk = verifying_key(&owner_sk);
    let owner_id = MemberId::from_verifying_key(&owner_vk);
    let mut parent_state = board_state(owner_id, vec![], 1000);
    parent_state.configuration.max_title_size = 5;
    let parameters = ChatBoardParametersV1 { owner: owner_vk };

    let long_title = MessageV1 {
        board_owner: owner_id,
        author: owner_id,
        time: at(0),
        content: BoardMessageBody::public("Too long a title".to_string(), "x".to_string()),
    };
    let m = AuthorizedMessageV1::new(long_title, &owner_sk);
    let mut messages = MessagesV1::default();
    let r = messages.apply_delta(&parent_state, &parameters, &Some(vec![m]));
    assert_eq!(r, Err(MessagesError::TitleTooLong { len: 16, max: 5 }));
    assert_eq!(r.unwrap_err().message(), "Title length 16 exceeds maximum 5");
    assert!(messages.messages.is_empty());

    let newline = MessageV1 {
        board_owner: owner_id,
        author: owner_id,
        time: at(0),
        content: BoardMessageBody::public("a\nb".to_string(), "x".to_string()),
    };
    let m = AuthorizedMessageV1::new(newline, &owner_sk);
    assert_eq!(
        messages.apply_delta(&parent_state, &parameters, &Some(vec![m])),
        Err(MessagesError::TitleHasNewline)
    );
}

#[test]
fn apply_delta_refuses_public_messages_on_private_boards() {
    let owner_sk = signing_key(1);
    let owner_vk = verifying_key(&owner_sk);
    let owner_id = MemberId::from_verifying_key(&owner_vk);
    let mut parent_state = board_state(owner_id, vec![], 1000);
    parent_state.configuration.privacy_mode = PrivacyMode::Private;
    let parameters = ChatBoardParametersV1 { owner: owner_vk };

    let m = AuthorizedMessageV1::new(create_test_message(owner_id, owner_id, at(0)), &owner_sk);
    let mut messages = MessagesV1::default();
    let r = messages.apply_delta(&parent_state, &parameters, &Some(vec![m]));
    assert_eq!(r, Err(MessagesError::PublicMessageInPrivateBoard));
    assert_eq!(r.unwrap_err().message(), "Cannot send public messages in private board");

    let private = MessageV1 {
        board_owner: owner_id,
        author: owner_id,
        time: at(0),
        content: BoardMessageBody::private_text(vec![1, 2, 3], [0; 12], 4),
    };
    let m = AuthorizedMessageV1::new(private, &owner_sk);
    let r = messages.apply_delta(&parent_state, &parameters, &Some(vec![m]));
    assert_eq!(r, Err(MessagesError::SecretVersionMismatch { got: 4, current: 0 }));
}

#[test]
fn verify_errors_name_their_cause() {
    let owner_sk = signing_key(1);
    let owner_vk = verifying_key(&owner_sk);
    let owner_id = MemberId::from_verifying_key(&owner_vk);
    let parent_state = board_state(owner_id, vec![], 1000);
    let parameters = ChatBoardParametersV1 { owner: owner_vk };

    let unknown = MemberId(FastHash(77));
    let m = AuthorizedMessageV1::new(create_test_message(owner_id, unknown, at(0)), &owner_sk);
    let r = messages_of(vec![m]).verify(&parent_state, &parameters);
    assert_eq!(r, Err(MessagesError::AuthorNotFound(unknown)));
    assert_eq!(
        r.unwrap_err().message(),
        "Message author not found: MemberId(FastHash(77))"
    );

    // The owner's own messages verify under the owner's key.
    let m = AuthorizedMessageV1::new(create_test_message(owner_id, owner_id, at(0)), &owner_sk);
    assert!(messages_of(vec![m]).verify(&parent_state, &parameters).is_ok());
}

#[test]
fn signature_depends_on_every_field() {
    let sk = signing_key(4);
    let vk = verifying_key(&sk);
    let a = AuthorizedMessageV1::new(create_test_message(MemberId(FastHash(0)), MemberId(FastHash(1)), at(0)), &sk);
    let b = AuthorizedMessageV1::new(create_test_message(MemberId(FastHash(0)), MemberId(FastHash(2)), at(0)), &sk);
    assert_ne!(a.signature, b.signature);
    let forged = AuthorizedMessageV1::with_signature(b.message.clone(), a.signature);
    assert!(forged.validate(&vk).is_err());
}

#[test]
fn withdrawing_a_reaction_keeps_the_others() {
    let a_sk = signing_key(1);
    let a_id = member_id(&a_sk);
    let b_sk = signing_key(2);
    let b_id = member_id(&b_sk);

    let original = AuthorizedMessageV1::new(
        MessageV1 {
            board_owner: a_id,
            author: a_id,
            time: at(0),
            content: BoardMessageBody::public(String::new(), "Hello".to_string()),
        },
        &a_sk,
    );
    let id = original.id();
    let react = |sk: &[u8; 32], author: MemberId, secs: u64, body: BoardMessageBody| {
        AuthorizedMessageV1::new(
            MessageV1 { board_owner: a_id, author, time: at(secs), content: body },
            sk,
        )
    };
    let m1 = react(&a_sk, a_id, 1, BoardMessageBody::reaction(id, "👍".to_string()));
    let m2 = react(&b_sk, b_id, 2, BoardMessageBody::reaction(id, "👍".to_string()));
    let m3 = react(&b_sk, b_id, 3, BoardMessageBody::reaction(id, "👍".to_string()));
    let m4 = react(&a_sk, a_id, 4, BoardMessageBody::remove_reaction(id, "👍".to_string()));
    let mut messages = messages_of(vec![original, m1, m2, m3, m4]);
    messages.rebuild_actions_state();
    let reactions = messages.reactions(&id).unwrap();
    assert_eq!(reactions.len(), 1);
    assert_eq!(reactions[0].0, "👍");
    assert_eq!(reactions[0].1, vec![b_id]);
}

#[test]
fn merging_two_replicas_either_way_gives_the_same_messages() {
    let owner_sk = signing_key(1);
    let owner_vk = verifying_key(&owner_sk);
    let owner_id = MemberId::from_verifying_key(&owner_vk);
    let author_sk = signing_key(2);
    let author_vk = verifying_key(&author_sk);
    let author_id = MemberId::from_verifying_key(&author_vk);

    let parent_state = board_state(owner_id, vec![member_entry(owner_id, author_vk)], 100);
    let parameters = ChatBoardParametersV1 { owner: owner_vk };
    let message = |secs: u64| {
        AuthorizedMessageV1::new(create_test_message(owner_id, author_id, at(secs)), &author_sk)
    };
    let shared = message(1);
    let only_a = message(3);
    let only_b = message(2);

    let replica_a = || messages_of(vec![shared.clone(), only_a.clone()]);
    let replica_b = || messages_of(vec![shared.clone(), only_b.clone()]);

    let mut a_then_b = replica_a();
    assert!(a_then_b.merge(&parent_state, &parameters, &replica_b()).is_ok());
    let mut b_then_a = replica_b();
    assert!(b_then_a.merge(&parent_state, &parameters, &replica_a()).is_ok());

    assert_eq!(a_then_b.messages, b_then_a.messages);
    assert_eq!(a_then_b.messages, vec![shared, only_b, only_a]);
}

#[test]
fn actions_only_speak_of_messages_that_are_there() {
    let sk = signing_key(1);
    let id = member_id(&sk);
    let original = AuthorizedMessageV1::new(
        MessageV1 { board_owner: id, author: id, time: at(0), content: BoardMessageBody::public(String::new(), "Hi".to_string()) },
        &sk,
    );
    let missing = MessageId(FastHash(12345));
    let act = |secs: u64, body: BoardMessageBody| {
        AuthorizedMessageV1::new(MessageV1 { board_owner: id, author: id, time: at(secs), content: body }, &sk)
    };
    let target = original.id();
    let mut messages = messages_of(vec![
        original,
        act(1, BoardMessageBody::reaction(missing, "👍".to_string())),
        act(2, BoardMessageBody::delete(missing)),
        act(3, BoardMessageBody::reaction(target, "👍".to_string())),
        act(4, BoardMessageBody::remove_reaction(target, "👍".to_string())),
    ]);
    messages.rebuild_actions_state();
    assert!(messages.reactions(&missing).is_none());
    assert!(!messages.is_deleted(&missing));
    // The last reactor withdrew, so no empty list is left behind.
    assert!(messages.reactions(&target).is_none());
}

#[test]
fn a_delta_applied_twice_changes_nothing_more_even_over_stale_messages() {
    let owner_sk = signing_key(1);
    let owner_vk = verifying_key(&owner_sk);
    let owner_id = MemberId::from_verifying_key(&owner_vk);
    let removed_sk = signing_key(9);
    let removed_id = member_id(&removed_sk);
    let parent_state = board_state(owner_id, vec![], 1000);
    let parameters = ChatBoardParametersV1 { owner: owner_vk };

    // A stored message of a member who has since been removed.
    let stale = AuthorizedMessageV1::new(create_test_message(owner_id, removed_id, at(1)), &removed_sk);
    let fresh = AuthorizedMessageV1::new(create_test_message(owner_id, owner_id, at(2)), &owner_sk);
    let mut messages = messages_of(vec![stale]);
    assert!(messages.apply_delta(&parent_state, &parameters, &Some(vec![fresh.clone()])).is_ok());
    let once = messages.messages.clone();
    assert_eq!(once, vec![fresh.clone()]);
    assert!(messages.apply_delta(&parent_state, &parameters, &Some(vec![fresh])).is_ok());
    assert_eq!(messages.messages, once);
}
