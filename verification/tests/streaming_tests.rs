use freetalk::ids::MemberId;
use freetalk::message::{AuthorizedMessageV1, BoardMessageBody, MessageV1, Timestamp};
use freetalk::streaming::MessageStream;

fn message(seed: u8, secs: u64, text: &str) -> AuthorizedMessageV1 {
    let sk = [seed; 32];
    let vk = ed25519_dalek::SigningKey::from_bytes(&sk).verifying_key().to_bytes();
    let id = MemberId::from_verifying_key(&vk);
    AuthorizedMessageV1::new(
        MessageV1 {
            board_owner: id,
            author: id,
            time: Timestamp { secs_since_epoch: secs, nanos_since_epoch: 0 },
            content: BoardMessageBody::public(String::new(), text.to_string()),
        },
        &sk,
    )
}

#[test]
fn polls_show_each_message_once() {
    let mut stream = MessageStream::new(0);
    let first = vec![message(1, 10, "a"), message(2, 10, "b")];
    assert_eq!(stream.poll(&first), (vec![0, 1], false));
    let second = vec![message(1, 10, "a"), message(2, 10, "b"), message(1, 11, "c")];
    assert_eq!(stream.poll(&second), (vec![2], false));
    assert_eq!(stream.poll(&second), (vec![], false));
    assert_eq!(stream.new_count, 3);
    assert!(!stream.is_done());
}

#[test]
fn same_author_and_time_count_as_one_message() {
    let mut stream = MessageStream::new(0);
    let msgs = vec![message(1, 10, "a"), message(1, 10, "a again")];
    assert_eq!(stream.poll(&msgs), (vec![0], false));
}

#[test]
fn the_stream_ends_after_its_maximum() {
    let mut stream = MessageStream::new(2);
    let msgs = vec![message(1, 1, "a"), message(1, 2, "b"), message(1, 3, "c")];
    assert_eq!(stream.poll(&msgs), (vec![0, 1], true));
    assert!(stream.is_done());
    assert_eq!(stream.seen.len(), 2);
}

#[test]
fn initial_messages_are_the_last_ones_and_do_not_count() {
    let mut stream = MessageStream::new(1);
    let msgs = vec![message(1, 1, "a"), message(1, 2, "b"), message(1, 3, "c")];
    assert_eq!(stream.show_initial(&msgs, 2), vec![1, 2]);
    assert_eq!(stream.new_count, 0);
    assert_eq!(stream.poll(&msgs), (vec![0], true));

    let mut stream = MessageStream::new(0);
    assert_eq!(stream.show_initial(&msgs, 5), vec![0, 1, 2]);
    assert_eq!(stream.show_initial(&msgs, 0), Vec::<usize>::new());
}
