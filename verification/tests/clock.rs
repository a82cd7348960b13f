use kvs::clock::{gen_msg, message_from_millis, Message};

#[test]
fn gen_msg_gives_a_timestamp() {
    match gen_msg() {
        Ok(Message::Micro(ms)) => assert!(ms > 1_600_000_000_000),
        other => panic!("unexpected {other:?}"),
    }
}

#[test]
fn millis_are_truncated_to_64_bits() {
    assert_eq!(message_from_millis(5), Message::Micro(5));
    assert_eq!(message_from_millis((1u128 << 64) + 7), Message::Micro(7));
}
