use freetalk::ids::{FastHash, MemberId, MessageId};
use freetalk::message::Timestamp;
use freetalk::threads::{build_reply_tree, get_top_level_posts, replies_end_under, MessageData};

fn msg(id: i64, secs: u64, reply_to: Option<i64>) -> MessageData {
    MessageData {
        message_id: MessageId(FastHash(id)),
        author_id: MemberId(FastHash(1)),
        author_name: "Alice".to_string(),
        is_self: false,
        title_text: String::new(),
        content_text: format!("message {}", id),
        content_html: String::new(),
        time: Timestamp { secs_since_epoch: secs, nanos_since_epoch: 0 },
        time_clamped: false,
        edited: false,
        reactions: vec![],
        reply_to_message_id: reply_to.map(|r| MessageId(FastHash(r))),
        reply_to_author: None,
        reply_to_preview: None,
        receive_delay_secs: None,
    }
}

#[test]
fn top_level_posts_newest_first() {
    let all = vec![msg(1, 10, None), msg(2, 30, None), msg(3, 20, Some(1)), msg(4, 30, None)];
    let posts = get_top_level_posts(&all);
    let ids: Vec<i64> = posts.iter().map(|m| m.message_id.0 .0).collect();
    assert_eq!(ids, vec![2, 4, 1]);
    assert!(posts.iter().all(|m| m.is_top_level_post()));
    assert!(!all[2].is_top_level_post());
}

#[test]
fn reply_tree_nests_replies_earliest_first() {
    let all = vec![
        msg(1, 10, None),
        msg(2, 40, Some(1)),
        msg(3, 20, Some(1)),
        msg(4, 50, Some(3)),
        msg(5, 5, None),
    ];
    assert!(replies_end_under(&all, None));
    let tree = build_reply_tree(&all, None);
    let roots: Vec<i64> = tree.iter().map(|t| t.message.message_id.0 .0).collect();
    assert_eq!(roots, vec![5, 1]);
    let under_1: Vec<i64> = tree[1].replies.iter().map(|t| t.message.message_id.0 .0).collect();
    assert_eq!(under_1, vec![3, 2]);
    assert_eq!(tree[1].replies[0].replies.len(), 1);
    assert_eq!(tree[1].replies[0].replies[0].message.message_id, MessageId(FastHash(4)));
    assert_eq!(tree[1].replies[0].replies[0].message.content_text, "message 4");

    let parent = MessageId(FastHash(3));
    let sub = build_reply_tree(&all, Some(&parent));
    assert_eq!(sub.len(), 1);
    assert_eq!(sub[0].message.message_id, MessageId(FastHash(4)));
}

#[test]
fn reply_cycles_are_detected() {
    let all = vec![msg(1, 10, Some(2)), msg(2, 20, Some(1))];
    let one = MessageId(FastHash(1));
    assert!(!replies_end_under(&all, Some(&one)));
    assert!(replies_end_under(&all, None));
    assert!(build_reply_tree(&all, None).is_empty());
}

#[test]
fn id_string_shows_the_hash() {
    assert_eq!(msg(12, 0, None).id_string(), "FastHash(12)");
}
