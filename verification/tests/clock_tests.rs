use p2p_chat::clock::{format_clock, get_timestamp, unix_seconds};

#[test]
fn clock_stamps() {
    assert_eq!(format_clock(0), "[00:00]");
    assert_eq!(format_clock(3661), "[01:01]");
    assert_eq!(format_clock(86399), "[23:59]");
    assert_eq!(format_clock(90000), "[01:00]");
    assert_eq!(format_clock(1_700_000_000), "[22:13]");
}

#[test]
fn current_stamp_has_the_clock_shape() {
    let t = get_timestamp().expect("clock after the epoch");
    let b = t.as_bytes();
    assert_eq!(b.len(), 7);
    assert_eq!(b[0], b'[');
    assert_eq!(b[3], b':');
    assert_eq!(b[6], b']');
    let hours: u32 = t[1..3].parse().unwrap();
    let minutes: u32 = t[4..6].parse().unwrap();
    assert!(hours < 24 && minutes < 60);
    assert!(unix_seconds().unwrap() > 1_600_000_000);
}
