# p2p_chat

A peer-to-peer terminal chat. Peers find each other with UDP broadcasts of a
JSON discovery message and chat over TCP.

- `src/` is the verified library (Verus): parsing typed lines and IPv4
  socket addresses, the peer table and how discovery messages change it,
  the peer table's text, clock stamps, and what the chat does with each line
  sent or received.
- `app/` is the program around it: sockets, the terminal, tokio tasks and
  the JSON form of the discovery message.
- `tests/` runs the library on concrete values.
