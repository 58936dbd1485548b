use p2p_chat::addr::{parse_socket_addr, PeerAddr};

fn addr(a: u8, b: u8, c: u8, d: u8, port: u16) -> PeerAddr {
    PeerAddr { a, b, c, d, port }
}

#[test]
fn parses_valid_addresses() {
    assert_eq!(parse_socket_addr("127.0.0.1:8080"), Some(addr(127, 0, 0, 1, 8080)));
    assert_eq!(parse_socket_addr("0.0.0.0:0"), Some(addr(0, 0, 0, 0, 0)));
    assert_eq!(parse_socket_addr("255.255.255.255:65535"), Some(addr(255, 255, 255, 255, 65535)));
    assert_eq!(parse_socket_addr("10.20.30.40:080"), Some(addr(10, 20, 30, 40, 80)));
    assert_eq!(parse_socket_addr("1.2.3.4:00000000000000000080"), Some(addr(1, 2, 3, 4, 80)));
}

#[test]
fn rejects_invalid_addresses() {
    for s in [
        "256.0.0.1:80",
        "01.2.3.4:80",
        "1.2.3:80",
        "1.2.3.4",
        "1.2.3.4:",
        "1.2.3.4:65536",
        " 1.2.3.4:80",
        "1.2.3.4:80 ",
        "1234.1.1.1:1",
        "1.2.3.4.5:80",
        "a.b.c.d:80",
        "localhost:80",
        "1.2.3.4:99999999999999999999",
        "",
    ] {
        assert_eq!(parse_socket_addr(s), None, "{:?}", s);
    }
}

#[test]
fn text_form_of_an_address() {
    assert_eq!(addr(127, 0, 0, 1, 9000).to_text(), "127.0.0.1:9000");
    assert_eq!(addr(255, 255, 255, 255, 65535).to_text(), "255.255.255.255:65535");
    assert_eq!(addr(0, 0, 0, 0, 0).to_text(), "0.0.0.0:0");
}

#[test]
fn parsing_the_text_gives_the_address_back() {
    for x in [addr(127, 0, 0, 1, 9000), addr(0, 10, 100, 255, 1), addr(9, 99, 199, 250, 65535)] {
        assert_eq!(parse_socket_addr(&x.to_text()), Some(x));
    }
}

#[test]
fn with_port_keeps_the_ip() {
    assert_eq!(addr(10, 0, 0, 7, 40000).with_port(9000), addr(10, 0, 0, 7, 9000));
}
