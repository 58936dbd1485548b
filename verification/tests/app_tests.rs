use p2p_chat::addr::PeerAddr;
use p2p_chat::app::{ascii_lowercase, default_name, peer_row_text, App, Peer};
use p2p_chat::discovery::DiscoveryMessage;

const TOKEN: [u8; 32] = [
    137, 124, 225, 235, 118, 229, 96, 18, 114, 17, 4, 43, 103, 105, 153, 43, 92, 25, 159, 92, 171,
    53, 34, 233, 20, 32, 111, 161, 160, 237, 104, 210,
];

const NAMES: [&str; 20] = [
    "Captain Crunch",
    "Sir Laughs-a-Lot",
    "Pixel Pirate",
    "Chatty McChatterson",
    "GigaChad",
    "Meme Dream",
    "Emoji Overlord",
    "Data Whisperer",
    "Hacker Man",
    "LolzMaster",
    "Mr. Giggles",
    "Techie Wookie",
    "The Mighty Ping",
    "Lord of Bytes",
    "Ninja Byte",
    "404_NotFound",
    "Banter Wizard",
    "The Ping King",
    "Chat Crusader",
    "Cyber Sprite",
];

fn local(port: u16) -> PeerAddr {
    PeerAddr { a: 127, b: 0, c: 0, d: 1, port }
}

#[test]
fn new_app_has_random_identity_and_shared_token() {
    let a = App::new(local(8000), "ann".to_string());
    let b = App::new(local(8001), "bob".to_string());
    assert_eq!(a.token, TOKEN.to_vec());
    assert_eq!(a.token, b.token);
    assert_ne!(a.uuid, b.uuid);
    for u in [a.uuid, b.uuid] {
        assert_eq!((u >> 76) & 0xf, 4);
        assert_eq!((u >> 62) & 0x3, 2);
    }
    assert!(a.peers.is_empty());
    assert_eq!(a.name, "ann");
    assert_eq!(a.addr, local(8000));
}

#[test]
fn with_uuid_keeps_the_identity() {
    let a = App::with_uuid(local(8000), "ann".to_string(), 42);
    assert_eq!(a.uuid, 42);
    assert_eq!(a.token, TOKEN.to_vec());
    assert!(!a.has_peers());
}

#[test]
fn ascii_lowercase_lowers_only_letters() {
    assert_eq!(ascii_lowercase(b"AbZ@[`az09\xc3\x89"), b"abz@[`az09\xc3\x89".to_vec());
    assert_eq!(ascii_lowercase(&[82, 71, 79, 72, 200]), vec![114, 103, 111, 104, 200]);
}

#[test]
fn add_peer_replaces_by_identity() {
    let mut a = App::with_uuid(local(8000), "ann".to_string(), 1);
    a.add_peer(5, Peer { addr: local(9000), name: "x".to_string() });
    a.add_peer(5, Peer { addr: local(9001), name: "y".to_string() });
    assert_eq!(a.peers.len(), 1);
    assert_eq!(a.peers[&5].name, "y");
    assert_eq!(a.peers[&5].addr, local(9001));
}

#[test]
fn own_announcement_is_ignored() {
    let mut a = App::with_uuid(local(8000), "ann".to_string(), 1);
    let m = DiscoveryMessage::with_timestamp(1, 8000, "ann".to_string(), 0);
    assert!(!a.handle_discovery(m, local(50000)));
    assert!(a.peers.is_empty());
}

#[test]
fn other_announcement_records_the_sender() {
    let mut a = App::with_uuid(local(8000), "ann".to_string(), 1);
    let sender = PeerAddr { a: 192, b: 168, c: 1, d: 20, port: 52345 };
    let m = DiscoveryMessage::with_timestamp(2, 9000, "bob".to_string(), 17);
    assert!(a.handle_discovery(m, sender));
    assert_eq!(a.peers.len(), 1);
    assert_eq!(a.peers[&2].name, "bob");
    assert_eq!(a.peers[&2].addr, PeerAddr { a: 192, b: 168, c: 1, d: 20, port: 9000 });
    assert!(a.has_peers());
    let m2 = DiscoveryMessage::with_timestamp(2, 9100, "bobby".to_string(), 18);
    assert!(a.handle_discovery(m2, sender));
    assert_eq!(a.peers.len(), 1);
    assert_eq!(a.peers[&2].name, "bobby");
    assert_eq!(a.peers[&2].addr.port, 9100);
}

#[test]
fn peer_table_lines() {
    let mut a = App::with_uuid(local(8000), "ann".to_string(), 1);
    let empty = a.list_peers();
    assert_eq!(
        empty,
        vec![
            "-------------- PEER LIST ---------------".to_string(),
            "----------------------------------------".to_string()
        ]
    );
    a.add_peer(2, Peer { addr: local(9000), name: "alice".to_string() });
    a.add_peer(3, Peer { addr: local(9001), name: "bob".to_string() });
    let rows = a.list_peers();
    assert_eq!(rows.len(), 4);
    assert_eq!(rows[0], "-------------- PEER LIST ---------------");
    assert_eq!(rows[3], "----------------------------------------");
    let mut middle = vec![rows[1].clone(), rows[2].clone()];
    middle.sort();
    assert_eq!(
        middle,
        vec![
            "|    bob     |     127.0.0.1:9001      |".to_string(),
            "|   alice    |     127.0.0.1:9000      |".to_string()
        ]
    );
    for r in &rows {
        assert_eq!(r.chars().count(), 40);
    }
}

#[test]
fn long_names_are_not_cut() {
    let p = Peer {
        addr: PeerAddr { a: 255, b: 255, c: 255, d: 255, port: 65535 },
        name: "Chatty McChatterson".to_string(),
    };
    assert_eq!(peer_row_text(&p), "| Chatty McChatterson |  255.255.255.255:65535  |");
    let q = Peer { addr: local(1), name: "żółw".to_string() };
    assert_eq!(peer_row_text(&q), format!("| {:^10} | {:^23} |", "żółw", "127.0.0.1:1"));
}

#[test]
fn default_name_is_a_funny_name() {
    for _ in 0..50 {
        let n = default_name();
        assert!(NAMES.contains(&n.as_str()), "{}", n);
    }
}

#[test]
fn announcement_describes_the_app() {
    let a = App::with_uuid(local(8123), "ann".to_string(), 77);
    let m = a.announcement().expect("clock after the epoch");
    assert_eq!(m.uuid, 77);
    assert_eq!(m.port, 8123);
    assert_eq!(m.name, "ann");
    assert!(m.timestamp > 1_600_000_000);
}
