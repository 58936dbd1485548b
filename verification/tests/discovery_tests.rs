use p2p_chat::discovery::{reply_delay_from, reply_delay_millis, DiscoveryMessage};

#[test]
fn reply_delay_is_below_two_and_a_half_seconds() {
    for _ in 0..1000 {
        assert!(reply_delay_millis() < 2500);
    }
}

#[test]
fn discovery_message_constructors() {
    let m = DiscoveryMessage::with_timestamp(3, 4, "n".to_string(), 5);
    assert_eq!((m.uuid, m.port, m.name.as_str(), m.timestamp), (3, 4, "n", 5));
    let n = DiscoveryMessage::new(6, 7, "m".to_string()).expect("clock after the epoch");
    assert_eq!((n.uuid, n.port, n.name.as_str()), (6, 7, "m"));
    assert!(n.timestamp > 1_600_000_000);
}

#[test]
fn reply_delay_is_the_draw_modulo_2500() {
    assert_eq!(reply_delay_from(0), 0);
    assert_eq!(reply_delay_from(2499), 2499);
    assert_eq!(reply_delay_from(2500), 0);
    assert_eq!(reply_delay_from(7503), 3);
    assert_eq!(reply_delay_from(u64::MAX), u64::MAX % 2500);
}
