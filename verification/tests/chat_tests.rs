use p2p_chat::addr::PeerAddr;
use p2p_chat::chat::{
    incoming_action, interpret_input, listening_message, outgoing_action, prepare_input,
    IncomingAction, InputAction, OutgoingAction,
};
use p2p_chat::text::decode_text;

#[test]
fn prepare_input_splits_command_and_argument() {
    assert_eq!(prepare_input("/connect 127.0.0.1:8080\n"), ("/connect", Some("127.0.0.1:8080")));
    assert_eq!(prepare_input("/peers\n"), ("/peers", None));
    assert_eq!(prepare_input("  /x   a  b \n"), ("/x", Some("a")));
    assert_eq!(prepare_input("word"), ("word", None));
}

#[test]
fn plain_lines_are_forwarded() {
    assert_eq!(interpret_input("hello\n"), InputAction::Forward);
    assert_eq!(interpret_input(" /peers\n"), InputAction::Forward);
    assert_eq!(interpret_input(""), InputAction::Forward);
}

#[test]
fn commands_are_recognised() {
    assert_eq!(interpret_input("/exit\n"), InputAction::Forward);
    assert_eq!(interpret_input("/peers\n"), InputAction::ListPeers);
    assert_eq!(interpret_input("/connect\n"), InputAction::ConnectUsage);
    assert_eq!(interpret_input("/connect localhost:80\n"), InputAction::ConnectBadAddress);
    assert_eq!(
        interpret_input("/connect 127.0.0.1:8080\n"),
        InputAction::Connect(PeerAddr { a: 127, b: 0, c: 0, d: 1, port: 8080 })
    );
    assert_eq!(interpret_input("/quit now\n"), InputAction::Unknown("/quit".to_string()));
    assert_eq!(interpret_input("/\n"), InputAction::Unknown("/".to_string()));
}

#[test]
fn exit_line_ends_the_chat() {
    assert_eq!(outgoing_action("/exit\n", false), OutgoingAction::Exit { shutdown: true });
    assert_eq!(outgoing_action("/exit\n", true), OutgoingAction::Exit { shutdown: false });
}

#[test]
fn other_lines_are_shown_trimmed_and_sent() {
    assert_eq!(
        outgoing_action("  hi there \n", false),
        OutgoingAction::Send { shown: "hi there".to_string(), transmit: true }
    );
    assert_eq!(
        outgoing_action("/exit", false),
        OutgoingAction::Send { shown: "/exit".to_string(), transmit: true }
    );
    assert_eq!(
        outgoing_action("late\n", true),
        OutgoingAction::Send { shown: "late".to_string(), transmit: false }
    );
}

#[test]
fn listening_message_names_the_port() {
    assert_eq!(listening_message("8080"), "Server listening on 0.0.0.0:8080");
}

#[test]
fn command_with_argument_reads_back() {
    for (cmd, arg) in [("/connect", "10.0.0.1:80"), ("/x", "ü"), ("go", "/peers")] {
        let line = format!("{} {}\n", cmd, arg);
        assert_eq!(prepare_input(&line), (cmd, Some(arg)));
    }
}

#[test]
fn decode_text_trims_the_end() {
    assert_eq!(decode_text(b"{\"a\":1}\n\r "), Some("{\"a\":1}".to_string()));
    assert_eq!(decode_text("  héllo  ".as_bytes()), Some("  héllo".to_string()));
    assert_eq!(decode_text(b""), Some(String::new()));
}

#[test]
fn decode_text_rejects_invalid_utf8() {
    assert_eq!(decode_text(&[0xff, 0x41]), None);
    assert_eq!(decode_text(&[0xc3]), None);
    assert_eq!(decode_text(&[0xed, 0xa0, 0x80]), None);
}

#[test]
fn incoming_actions() {
    assert_eq!(incoming_action(b""), IncomingAction::Closed);
    assert_eq!(incoming_action(b"hi there\n"), IncomingAction::Show("hi there".to_string()));
    assert_eq!(incoming_action(&[0x80]), IncomingAction::NotText);
}
