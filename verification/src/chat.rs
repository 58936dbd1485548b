//! The chat: the lines that the user types and the bytes that a peer
//! sends.

use vstd::prelude::*;
use vstd::string::*;
use crate::addr::{parse_addr, parse_socket_addr, PeerAddr};
use vstd::utf8::{decode_utf8, valid_utf8};
use crate::text::{
    chars_of, decode_text, find_word_end, is_blank, is_ws, lemma_skip_ws, lemma_word_end,
    skip_whitespace, skip_ws, str_eq, trim, trimmed, trimmed_end, word_end,
};

verus! {

/// The first white-space-separated word of `s`.
pub open spec fn command_word(s: Seq<char>) -> Seq<char> {
    let a = skip_ws(s, 0);
    s.subrange(a, word_end(s, a))
}

/// The second white-space-separated word of `s`, if there is one.
pub open spec fn argument_word(s: Seq<char>) -> Option<Seq<char>> {
    let c = skip_ws(s, word_end(s, skip_ws(s, 0)));
    if c < s.len() {
        Some(s.subrange(c, word_end(s, c)))
    } else {
        None
    }
}

/// Splits a typed line into its command (the first word) and the optional
/// argument that follows it (the second word); any further words are
/// ignored. The line must hold at least one word.
pub fn prepare_input(input: &str) -> (r: (&str, Option<&str>))
    requires
        !is_blank(input@),
    ensures
        r.0@ == command_word(input@),
        r.1 is Some <==> argument_word(input@) is Some,
        r.1 matches Some(arg) ==> argument_word(input@) == Some(arg@),
{
    let v = chars_of(input);
    proof {
        lemma_skip_ws(v@, 0);
    }
    let a = skip_whitespace(&v, 0);
    proof {
        lemma_word_end(v@, a as int);
    }
    let b = find_word_end(&v, a);
    let command = input.substring_char(a, b);
    proof {
        lemma_skip_ws(v@, b as int);
    }
    let c = skip_whitespace(&v, b);
    if c < v.len() {
        proof {
            lemma_word_end(v@, c as int);
        }
        let d = find_word_end(&v, c);
        (command, Some(input.substring_char(c, d)))
    } else {
        (command, None)
    }
}

/// The command that connects to a peer.
pub open spec fn connect_command() -> Seq<char> {
    seq!['/', 'c', 'o', 'n', 'n', 'e', 'c', 't']
}

/// The command that lists the known peers.
pub open spec fn peers_command() -> Seq<char> {
    seq!['/', 'p', 'e', 'e', 'r', 's']
}

/// The command that leaves the current chat.
pub open spec fn exit_command() -> Seq<char> {
    seq!['/', 'e', 'x', 'i', 't']
}

/// A line that starts with `/` is a command; any other is a chat message.
pub open spec fn is_command_line(s: Seq<char>) -> bool {
    s.len() > 0 && s[0] == '/'
}

/// What the program does with a line that the user typed.
#[derive(Debug, PartialEq, Eq)]
pub enum InputAction {
    /// Hand the line, as typed, to the chat: a chat message or `/exit`.
    Forward,
    /// `/connect` without an address: show how to use it.
    ConnectUsage,
    /// `/connect` with an address that is not `IP:PORT`.
    ConnectBadAddress,
    /// `/connect` to this address.
    Connect(PeerAddr),
    /// `/peers`: show the peer table.
    ListPeers,
    /// Any other command; it holds the command word.
    Unknown(String),
}

/// Decides what to do with a typed line. A line that does not start with
/// `/` is a chat message and goes to the chat as it is. Otherwise its first
/// word is the command: `/connect IP:PORT` connects to a peer, `/peers`
/// lists the known peers, `/exit` goes to the chat (which ends there), and
/// any other command is unknown.
pub fn interpret_input(input: &str) -> (r: InputAction)
    ensures
        !is_command_line(input@) ==> r == InputAction::Forward,
        is_command_line(input@) ==> {
            let cmd = command_word(input@);
            match r {
                InputAction::Forward => cmd == exit_command(),
                InputAction::ListPeers => cmd == peers_command(),
                InputAction::ConnectUsage => cmd == connect_command() && argument_word(input@) is None,
                InputAction::ConnectBadAddress => {
                    &&& cmd == connect_command()
                    &&& argument_word(input@) matches Some(a)
                    &&& parse_addr(a) is None
                },
                InputAction::Connect(x) => {
                    &&& cmd == connect_command()
                    &&& argument_word(input@) matches Some(a)
                    &&& parse_addr(a) == Some(x)
                },
                InputAction::Unknown(c) => {
                    &&& c@ == cmd
                    &&& cmd != connect_command()
                    &&& cmd != peers_command()
                    &&& cmd != exit_command()
                },
            }
        },
{
    let v = chars_of(input);
    if v.len() == 0 || v[0] != '/' {
        return InputAction::Forward;
    }
    assert(!is_blank(input@)) by {
        assert(!is_ws(input@[0]));
    }
    let (command, argument) = prepare_input(input);
    proof {
        reveal_strlit("/connect");
        reveal_strlit("/peers");
        reveal_strlit("/exit");
    }
    if str_eq(command, "/connect") {
        assert(command@ =~= connect_command());
        match argument {
            None => InputAction::ConnectUsage,
            Some(arg) => match parse_socket_addr(arg) {
                Some(x) => InputAction::Connect(x),
                None => InputAction::ConnectBadAddress,
            },
        }
    } else if str_eq(command, "/peers") {
        assert(command@ =~= peers_command());
        InputAction::ListPeers
    } else if str_eq(command, "/exit") {
        assert(command@ =~= exit_command());
        InputAction::Forward
    } else {
        assert(command@ != connect_command()) by {
            if command@ == connect_command() {
                assert(command@ =~= "/connect"@);
            }
        }
        assert(command@ != peers_command()) by {
            if command@ == peers_command() {
                assert(command@ =~= "/peers"@);
            }
        }
        assert(command@ != exit_command()) by {
            if command@ == exit_command() {
                assert(command@ =~= "/exit"@);
            }
        }
        InputAction::Unknown(command.to_owned())
    }
}

/// The line that ends a chat, as the terminal hands it over.
pub open spec fn exit_line() -> Seq<char> {
    seq!['/', 'e', 'x', 'i', 't', '\n']
}

/// What the chat does with a line that the user sends to the peer.
#[derive(Debug, PartialEq, Eq)]
pub enum OutgoingAction {
    /// Leave the chat; shut the connection down first when it is still
    /// open.
    Exit { shutdown: bool },
    /// Show `shown` as the user's message and, when the connection is still
    /// open, send the line as typed.
    Send { shown: String, transmit: bool },
}

/// Decides what the chat does with the line `message`: exactly `/exit`
/// and a newline ends the chat; any other line is shown without the white
/// space around it and sent unchanged while the connection is open.
pub fn outgoing_action(message: &str, connection_closed: bool) -> (r: OutgoingAction)
    ensures
        message@ == exit_line() ==> r == (OutgoingAction::Exit { shutdown: !connection_closed }),
        message@ != exit_line() ==> (r matches OutgoingAction::Send { shown, transmit } && shown@
            == trimmed(message@) && transmit == !connection_closed),
{
    proof {
        reveal_strlit("/exit\n");
    }
    if str_eq(message, "/exit\n") {
        assert(message@ =~= exit_line());
        OutgoingAction::Exit { shutdown: !connection_closed }
    } else {
        assert(message@ != exit_line()) by {
            if message@ == exit_line() {
                assert(message@ =~= "/exit\n"@);
            }
        }
        OutgoingAction::Send { shown: trim(message).to_owned(), transmit: !connection_closed }
    }
}

/// What the chat does with what one read from the peer's connection gave.
#[derive(Debug, PartialEq, Eq)]
pub enum IncomingAction {
    /// Nothing came: the peer closed the connection.
    Closed,
    /// Show this message from the peer.
    Show(String),
    /// The bytes were not UTF-8 text.
    NotText,
}

/// Decides what to do with the bytes of one read from the peer: none means
/// that the peer closed the connection; otherwise the text they carry is
/// shown without trailing white space, or, when they are not valid UTF-8,
/// that is reported instead.
pub fn incoming_action(bytes: &[u8]) -> (r: IncomingAction)
    ensures
        bytes@.len() == 0 ==> r == IncomingAction::Closed,
        bytes@.len() > 0 && !valid_utf8(bytes@) ==> r == IncomingAction::NotText,
        bytes@.len() > 0 && valid_utf8(bytes@) ==> (r matches IncomingAction::Show(t) && t@
            == trimmed_end(decode_utf8(bytes@))),
{
    if bytes.len() == 0 {
        return IncomingAction::Closed;
    }
    match decode_text(bytes) {
        Some(t) => IncomingAction::Show(t),
        None => IncomingAction::NotText,
    }
}

/// The line that tells where the chat server listens.
pub fn listening_message(port: &str) -> (r: String)
    ensures
        r@ == "Server listening on 0.0.0.0:"@ + port@,
{
    let mut r = String::from_str("Server listening on 0.0.0.0:");
    r.append(port);
    r
}

/// `skip_ws` from `i` stops at `j` when only white space lies between and
/// `j` holds none (or is the end).
proof fn lemma_skip_ws_at(s: Seq<char>, i: int, j: int)
    requires
        0 <= i <= j <= s.len(),
        forall|k: int| i <= k < j ==> is_ws(#[trigger] s[k]),
        j < s.len() ==> !is_ws(s[j]),
    ensures
        skip_ws(s, i) == j,
    decreases j - i,
{
    if i < j {
        lemma_skip_ws_at(s, i + 1, j);
    }
}

/// `word_end` from `i` stops at `j` when no white space lies between and
/// `j` holds some (or is the end).
proof fn lemma_word_end_at(s: Seq<char>, i: int, j: int)
    requires
        0 <= i <= j <= s.len(),
        forall|k: int| i <= k < j ==> !is_ws(#[trigger] s[k]),
        j < s.len() ==> is_ws(s[j]),
    ensures
        word_end(s, i) == j,
    decreases j - i,
{
    if i < j {
        lemma_word_end_at(s, i + 1, j);
    }
}

/// The command word of a line that holds one is a non-empty run without
/// white space.
pub proof fn lemma_command_word(s: Seq<char>)
    requires
        !is_blank(s),
    ensures
        command_word(s).len() > 0,
        forall|i: int| 0 <= i < command_word(s).len() ==> !is_ws(#[trigger] command_word(s)[i]),
{
    lemma_skip_ws(s, 0);
    let a = skip_ws(s, 0);
    lemma_word_end(s, a);
    if a == s.len() {
        assert(forall|i: int| 0 <= i < s.len() ==> is_ws(#[trigger] s[i]));
    }
    assert forall|i: int| 0 <= i < command_word(s).len() implies !is_ws(
        #[trigger] command_word(s)[i],
    ) by {
        assert(command_word(s)[i] == s[a + i]);
    }
}

/// A line made of a command, a space, an argument and a newline reads as
/// that command with that argument, whatever words they are.
pub proof fn lemma_command_with_argument(cmd: Seq<char>, arg: Seq<char>)
    requires
        cmd.len() > 0,
        arg.len() > 0,
        forall|i: int| 0 <= i < cmd.len() ==> !is_ws(#[trigger] cmd[i]),
        forall|i: int| 0 <= i < arg.len() ==> !is_ws(#[trigger] arg[i]),
    ensures
        command_word(cmd + seq![' '] + arg + seq!['\n']) == cmd,
        argument_word(cmd + seq![' '] + arg + seq!['\n']) == Some(arg),
{
    let s = cmd + seq![' '] + arg + seq!['\n'];
    let n = cmd.len() as int;
    let m = arg.len() as int;
    assert(!is_ws(s[0]));
    lemma_skip_ws_at(s, 0, 0);
    assert forall|k: int| 0 <= k < n implies !is_ws(#[trigger] s[k]) by {
        assert(s[k] == cmd[k]);
    }
    assert(is_ws(s[n]));
    lemma_word_end_at(s, 0, n);
    assert(!is_ws(s[n + 1]) && s[n + 1] == arg[0]);
    lemma_skip_ws_at(s, n, n + 1);
    assert forall|k: int| n + 1 <= k < n + 1 + m implies !is_ws(#[trigger] s[k]) by {
        assert(s[k] == arg[k - n - 1]);
    }
    assert(is_ws(s[n + 1 + m]));
    lemma_word_end_at(s, n + 1, n + 1 + m);
    assert(s.subrange(0, n) =~= cmd);
    assert(s.subrange(n + 1, n + 1 + m) =~= arg);
}

} // verus!
