use freetalk::content::{
    normalize_icon, validate_icon, ActionContentV1, CategoryContentV1, DecodedContent,
    ReplyContentV1, TextContentV1, ACTION_TYPE_DELETE,
};
use ciborium::value::Value;
use freetalk::ids::{FastHash, MessageId};

fn test_message_id() -> MessageId {
    MessageId(FastHash(freenet_scaffold::util::fast_hash(&[1, 2, 3, 4]).0))
}

#[test]
fn test_text_content_roundtrip() {
    let content = TextContentV1::new("Title".to_string(), "Hello, world!".to_string());
    let encoded = content.encode();
    let decoded = TextContentV1::decode(&encoded).unwrap();
    assert_eq!(content, decoded);
}

#[test]
fn test_edit_action_roundtrip() {
    let action = ActionContentV1::edit(test_message_id(), String::new(), "New text".to_string());
    let encoded = action.encode();
    let decoded = ActionContentV1::decode(&encoded).unwrap();
    assert_eq!(action, decoded);

    let payload = decoded.edit_payload().unwrap();
    assert_eq!(payload.new_text, "New text");
}

#[test]
fn test_delete_action_roundtrip() {
    let action = ActionContentV1::delete(test_message_id());
    let encoded = action.encode();
    let decoded = ActionContentV1::decode(&encoded).unwrap();
    assert_eq!(action, decoded);
    assert_eq!(decoded.action_type, ACTION_TYPE_DELETE);
}

#[test]
fn test_reaction_action_roundtrip() {
    let action = ActionContentV1::reaction(test_message_id(), "👍".to_string());
    let encoded = action.encode();
    let decoded = ActionContentV1::decode(&encoded).unwrap();
    assert_eq!(action, decoded);

    let payload = decoded.reaction_payload().unwrap();
    assert_eq!(payload.emoji, "👍");
}

#[test]
fn test_remove_reaction_action_roundtrip() {
    let action = ActionContentV1::remove_reaction(test_message_id(), "❤️".to_string());
    let encoded = action.encode();
    let decoded = ActionContentV1::decode(&encoded).unwrap();
    assert_eq!(action, decoded);

    let payload = decoded.reaction_payload().unwrap();
    assert_eq!(payload.emoji, "❤️");
}

#[test]
fn test_reply_content_roundtrip() {
    let reply = ReplyContentV1::new(
        "Re: Hello".to_string(),
        "I agree!".to_string(),
        test_message_id(),
        "Alice".to_string(),
        "The original message text here...".to_string(),
    );
    let encoded = reply.encode();
    let decoded = ReplyContentV1::decode(&encoded).unwrap();
    assert_eq!(reply, decoded);

    let dc = DecodedContent::Reply(reply.clone());
    assert_eq!(dc.as_text(), Some("I agree!"));
    assert_eq!(dc.to_display_string(), "I agree!");
    assert!(!dc.is_action());
}

#[test]
fn test_decoded_content_display() {
    let text = DecodedContent::Text(TextContentV1::new(String::new(), "Hello".to_string()));
    assert_eq!(text.to_display_string(), "Hello");

    let unknown = DecodedContent::Unknown {
        content_type: 99,
        content_version: 1,
    };
    assert!(unknown.to_display_string().contains("Unsupported"));
}

#[test]
fn test_category_content_roundtrip() {
    let category = CategoryContentV1::new(
        "General".to_string(),
        Some("General discussion".to_string()),
        "#6366f1".to_string(),
    )
    .with_icon("💬".to_string());
    let encoded = category.encode();
    let decoded = CategoryContentV1::decode(&encoded).unwrap();
    assert_eq!(category, decoded);
    assert_eq!(decoded.name, "General");
    assert_eq!(decoded.icon, Some("💬".to_string()));
    assert_eq!(decoded.color, "#6366f1".to_string());
}

#[test]
fn test_category_with_parent() {
    let parent_id = test_message_id();
    let category = CategoryContentV1::new("Subcategory".to_string(), None, "#ef4444".to_string())
        .with_parent(parent_id.clone());
    let encoded = category.encode();
    let decoded = CategoryContentV1::decode(&encoded).unwrap();
    assert_eq!(decoded.parent_category_id, Some(parent_id));
}

#[test]
fn test_decoded_content_category() {
    let cat = CategoryContentV1::new(
        "Test".to_string(),
        Some("Description".to_string()),
        "#22c55e".to_string(),
    )
    .with_icon("🎯".to_string());
    let dc = DecodedContent::Category(cat.clone());
    assert!(dc.is_category());
    assert_eq!(dc.as_category(), Some(&cat));
    assert_eq!(dc.to_display_string(), "🎯 Test");
}

// ----- further cases -----

#[test]
fn text_content_encoding_is_the_cbor_of_a_map() {
    // {"title": "T", "content": "Hi"}
    let content = TextContentV1::new("T".to_string(), "Hi".to_string());
    let expected: Vec<u8> = vec![
        0xa2, 0x65, b't', b'i', b't', b'l', b'e', 0x61, b'T', 0x67, b'c', b'o', b'n', b't', b'e',
        b'n', b't', 0x62, b'H', b'i',
    ];
    assert_eq!(content.encode(), expected);
}

#[test]
fn text_content_encoding_agrees_with_ciborium() {
    let content = TextContentV1::new("Title".to_string(), "Hello, world!".to_string());
    let value = Value::Map(vec![
        (Value::Text("title".to_string()), Value::Text("Title".to_string())),
        (Value::Text("content".to_string()), Value::Text("Hello, world!".to_string())),
    ]);
    let mut bytes = Vec::new();
    ciborium::ser::into_writer(&value, &mut bytes).unwrap();
    assert_eq!(content.encode(), bytes);
}

#[test]
fn text_content_decodes_ciborium_bytes() {
    let value = Value::Map(vec![
        (Value::Text("title".to_string()), Value::Text("A".to_string())),
        (Value::Text("content".to_string()), Value::Text("long enough to need more than twenty-three bytes of text".to_string())),
    ]);
    let mut bytes = Vec::new();
    ciborium::ser::into_writer(&value, &mut bytes).unwrap();
    let decoded = TextContentV1::decode(&bytes).unwrap();
    assert_eq!(decoded.title, "A");
    assert_eq!(
        decoded.content,
        "long enough to need more than twenty-three bytes of text"
    );
}

#[test]
fn text_content_decode_rejects_garbage() {
    assert!(TextContentV1::decode(&[0xff, 0x00, 0x13]).is_err());
    assert!(TextContentV1::decode(&[]).is_err());
    // A map without the "content" field.
    let only_title: Vec<u8> = vec![0xa1, 0x65, b't', b'i', b't', b'l', b'e', 0x61, b'T'];
    assert!(TextContentV1::decode(&only_title).is_err());
}

#[test]
fn action_with_negative_target_roundtrips() {
    let action = ActionContentV1::delete(MessageId(FastHash(-42)));
    let decoded = ActionContentV1::decode(&action.encode()).unwrap();
    assert_eq!(decoded.target, MessageId(FastHash(-42)));
}

#[test]
fn payload_accessors_reject_other_action_types() {
    let delete = ActionContentV1::delete(test_message_id());
    assert!(delete.edit_payload().is_none());
    assert!(delete.reaction_payload().is_none());
    assert!(delete.category_edit_payload().is_none());
}

#[test]
fn category_edit_roundtrip() {
    let action = ActionContentV1::edit_category(
        test_message_id(),
        "Renamed".to_string(),
        None,
        Some("🎯".to_string()),
        "#000000".to_string(),
    );
    let decoded = ActionContentV1::decode(&action.encode()).unwrap();
    let payload = decoded.category_edit_payload().unwrap();
    assert_eq!(payload.new_name, "Renamed");
    assert_eq!(payload.new_icon, Some("🎯".to_string()));
}

#[test]
fn icon_normalization() {
    assert_eq!(normalize_icon("  💬  "), Some("💬".to_string()));
    assert_eq!(normalize_icon("   "), None);
    assert_eq!(normalize_icon("ab"), Some("a".to_string()));
    assert!(validate_icon("👍").is_ok());
    assert!(validate_icon("ab").is_err());
}

#[test]
fn message_id_display() {
    assert_eq!(MessageId(FastHash(7)).to_display_string(), "FastHash(7)");
    assert_eq!(MessageId(FastHash(-3)).to_display_string(), "FastHash(-3)");
}

#[test]
fn message_ids_hash_the_signature() {
    // A message id is the rolling hash of the signature bytes.
    let sig = [3u8; 64];
    let mut expected: i64 = 0;
    for b in sig.iter() {
        expected = expected.wrapping_mul(31).wrapping_add(*b as i64);
    }
    assert_eq!(MessageId::from_signature(&sig), MessageId(FastHash(expected)));
    assert_eq!(freenet_scaffold::util::fast_hash(&sig).0, expected);
}

#[test]
fn text_content_decodes_indefinite_lengths_and_tags() {
    // {_ "title": (_ "He", "llo"), "content": 0("x"), break}
    let mut bytes = vec![0xbf, 0x65];
    bytes.extend_from_slice(b"title");
    bytes.extend_from_slice(&[0x7f, 0x62]);
    bytes.extend_from_slice(b"He");
    bytes.push(0x63);
    bytes.extend_from_slice(b"llo");
    bytes.extend_from_slice(&[0xff, 0x67]);
    bytes.extend_from_slice(b"content");
    bytes.extend_from_slice(&[0xc0, 0x61]);
    bytes.extend_from_slice(b"x");
    bytes.push(0xff);
    let decoded = TextContentV1::decode(&bytes).unwrap();
    assert_eq!(decoded, TextContentV1::new("Hello".to_string(), "x".to_string()));
}

#[test]
fn action_payload_may_be_a_byte_string() {
    let value = Value::Map(vec![
        (Value::Text("action_type".to_string()), Value::Integer(2.into())),
        (Value::Text("target".to_string()), Value::Integer((-7).into())),
        (Value::Text("payload".to_string()), Value::Bytes(vec![1, 2, 3])),
    ]);
    let mut bytes = Vec::new();
    ciborium::ser::into_writer(&value, &mut bytes).unwrap();
    let decoded = ActionContentV1::decode(&bytes).unwrap();
    assert_eq!(decoded.action_type, 2);
    assert_eq!(decoded.target, MessageId(FastHash(-7)));
    assert_eq!(decoded.payload, vec![1, 2, 3]);
}
