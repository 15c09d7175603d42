use freetalk::content::{ReplyContentV1, TextContentV1, CONTENT_TYPE_REPLY, CONTENT_TYPE_TEXT};
use freetalk::ids::{FastHash, MessageId};
use freetalk::message::BoardMessageBody;
use freetalk::reading::{
    decrypt_message_content, decrypt_message_title, extract_reply_context, Decryption,
};

fn reply() -> ReplyContentV1 {
    ReplyContentV1::new(
        "Re: hi".to_string(),
        "Agreed".to_string(),
        MessageId(FastHash(9)),
        "Alice".to_string(),
        "hi there".to_string(),
    )
}

#[test]
fn public_bodies_read_directly() {
    let body = BoardMessageBody::public("Hello".to_string(), "World".to_string());
    assert_eq!(decrypt_message_title(&body, &Decryption::NoSecret), "Hello");
    assert_eq!(decrypt_message_content(&body, &Decryption::NoSecret, &[]), "World");
    assert_eq!(extract_reply_context(&body, &Decryption::NoSecret), (None, None, None));

    let r = reply();
    let body = BoardMessageBody::reply(
        r.title.clone(),
        r.content.clone(),
        r.target_message_id,
        r.target_author_name.clone(),
        r.target_content_preview.clone(),
    );
    assert_eq!(decrypt_message_title(&body, &Decryption::NoSecret), "Re: hi");
    assert_eq!(decrypt_message_content(&body, &Decryption::NoSecret, &[]), "Agreed");
    assert_eq!(
        extract_reply_context(&body, &Decryption::NoSecret),
        (Some("Alice".to_string()), Some("hi there".to_string()), Some(MessageId(FastHash(9))))
    );

    let action = BoardMessageBody::delete(MessageId(FastHash(3)));
    assert_eq!(decrypt_message_title(&action, &Decryption::NoSecret), "");
    assert_eq!(
        decrypt_message_content(&action, &Decryption::NoSecret, &[]),
        "[Delete of message FastHash(3)]"
    );
}

#[test]
fn private_bodies_read_through_decryption() {
    let text = TextContentV1::new("T".to_string(), "secret text".to_string()).encode();
    let body = BoardMessageBody::private_text(vec![0; 40], [0; 12], 2);
    let plain = Decryption::Plain(text);
    assert_eq!(decrypt_message_title(&body, &plain), "T");
    assert_eq!(decrypt_message_content(&body, &plain, &[2]), "secret text");

    let raw = Decryption::Plain("not cbor".as_bytes().to_vec());
    assert_eq!(decrypt_message_content(&body, &raw, &[2]), "not cbor");

    assert_eq!(
        decrypt_message_content(&body, &Decryption::Failed, &[2]),
        "[Encrypted message: 40 bytes, v2]"
    );
    assert_eq!(
        decrypt_message_content(&body, &Decryption::NoSecret, &[0, 1]),
        "[Encrypted message - secret v2 not available (have: [0, 1])]"
    );
    assert_eq!(
        decrypt_message_content(&body, &Decryption::NoSecret, &[]),
        "[Encrypted message - secret v2 not available (have: [])]"
    );
    assert_eq!(decrypt_message_title(&body, &Decryption::NoSecret), "");
}

#[test]
fn private_replies_give_their_context() {
    let body = BoardMessageBody::private(CONTENT_TYPE_REPLY, 1, vec![1, 2], [0; 12], 0);
    let plain = Decryption::Plain(reply().encode());
    assert_eq!(
        extract_reply_context(&body, &plain),
        (Some("Alice".to_string()), Some("hi there".to_string()), Some(MessageId(FastHash(9))))
    );
    assert_eq!(extract_reply_context(&body, &Decryption::Failed), (None, None, None));
    let text_body = BoardMessageBody::private(CONTENT_TYPE_TEXT, 1, vec![1, 2], [0; 12], 0);
    assert_eq!(extract_reply_context(&text_body, &plain), (None, None, None));
}
