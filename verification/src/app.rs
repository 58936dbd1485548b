//! The state of a running peer: who it is, the peers it knows and the
//! token that peers share.

use std::collections::HashMap;
use vstd::prelude::*;
use vstd::std_specs::iter::IteratorSpec;
use crate::addr::{addr_text, push_addr, PeerAddr};
use crate::discovery::DiscoveryMessage;
use crate::text::{
    centered, chars_of, lemma_decimal, push_all, push_centered, push_repeat, repeat_char,
    string_of,
};

verus! {

broadcast use vstd::std_specs::hash::group_hash_axioms;

/// A peer that announced itself: where its chat server listens and its
/// display name.
#[derive(Debug, Clone)]
pub struct Peer {
    pub addr: PeerAddr,
    pub name: String,
}

/// A running peer.
#[derive(Debug)]
pub struct App {
    /// The address of this peer's chat server.
    pub addr: PeerAddr,
    /// This peer's identity.
    pub uuid: u128,
    /// The peers discovered so far, by identity.
    pub peers: HashMap<u128, Peer>,
    /// This peer's display name.
    pub name: String,
    /// The token that all peers share.
    pub token: Vec<u8>,
}

/// The name of the SHA-256 digest of `data`, which `sha256` computes.
pub uninterp spec fn sha256_digest(data: Seq<u8>) -> Seq<u8>;

/// SHA-256 of `data`: `sha2::Sha256` through `Digest::digest`. Claimed: the
/// result is the digest of exactly these bytes (a function of them alone),
/// 32 bytes long.
#[verifier::external_body]
fn sha256(data: &[u8]) -> (r: Vec<u8>)
    ensures
        r@ == sha256_digest(data@),
        r@.len() == 32,
{
    <sha2::Sha256 as sha2::Digest>::digest(data).to_vec()
}

/// A version 4 (random) UUID in its 128-bit big-endian form: the version
/// field holds 4 and the variant field the bits `10`.
pub open spec fn is_random_uuid(u: u128) -> bool {
    &&& (u >> 76u128) & 0xfu128 == 4
    &&& (u >> 62u128) & 0x3u128 == 2
}

/// A fresh random identity: `uuid::Uuid::new_v4`, read with `as_u128`.
/// Claimed: the version and variant bits that `new_v4` sets; the other bits
/// are random and nothing is stated of them.
#[verifier::external_body]
fn new_uuid() -> (u: u128)
    ensures
        is_random_uuid(u),
{
    uuid::Uuid::new_v4().as_u128()
}

/// `b` with an ASCII upper-case letter made lower-case.
pub open spec fn ascii_lower_byte(b: u8) -> u8 {
    if 65 <= b <= 90 {
        (b + 32) as u8
    } else {
        b
    }
}

/// `s` with every ASCII upper-case letter made lower-case, as
/// `<[u8]>::to_ascii_lowercase` gives it.
pub open spec fn ascii_lowercase_of(s: Seq<u8>) -> Seq<u8> {
    s.map_values(|b: u8| ascii_lower_byte(b))
}

/// A copy of `bytes` with ASCII upper-case letters made lower-case.
pub fn ascii_lowercase(bytes: &[u8]) -> (r: Vec<u8>)
    ensures
        r@ == ascii_lowercase_of(bytes@),
{
    let mut r: Vec<u8> = Vec::new();
    for i in 0..bytes.len()
        invariant
            r@ == ascii_lowercase_of(bytes@.take(i as int)),
    {
        let b = bytes[i];
        let l = if 65 <= b && b <= 90 {
            b + 32
        } else {
            b
        };
        r.push(l);
        assert(ascii_lowercase_of(bytes@.take(i + 1)) =~= ascii_lowercase_of(
            bytes@.take(i as int),
        ).push(l));
    }
    assert(bytes@.take(bytes@.len() as int) =~= bytes@);
    r
}

/// The key that all peers share, `p2p_app` in bytes.
pub open spec fn shared_key() -> Seq<u8> {
    seq![112u8, 50u8, 112u8, 95u8, 97u8, 112u8, 112u8]
}

/// The token of every peer: the SHA-256 digest of the shared key, with its
/// bytes that fall in `A..=Z` lowered.
pub open spec fn shared_token() -> Seq<u8> {
    ascii_lowercase_of(sha256_digest(shared_key()))
}

/// The peer table after a discovery message from `uuid`, named `name`,
/// came from `sender` with chat port `port`, at a peer whose own identity
/// is `me`: a message of its own changes nothing; any other adds the sender
/// or replaces its earlier entry.
pub open spec fn after_discovery(
    peers: Map<u128, Peer>,
    me: u128,
    uuid: u128,
    name: String,
    sender: PeerAddr,
    port: u16,
) -> Map<u128, Peer> {
    if uuid == me {
        peers
    } else {
        peers.insert(uuid, Peer { addr: PeerAddr { port, ..sender }, name })
    }
}

/// One item of `items` picked at random: `rand::seq::SliceRandom::choose`
/// with the thread-local generator, the picked reference copied out.
/// Claimed: `None` exactly when `items` is empty, and otherwise one of the
/// items; which one is left to chance.
#[verifier::external_body]
fn choose_one<T: Copy>(items: &[T]) -> (r: Option<T>)
    ensures
        r is None <==> items@.len() == 0,
        r matches Some(x) ==> items@.contains(x),
{
    rand::seq::SliceRandom::choose(items, &mut rand::thread_rng()).copied()
}

/// The names that a peer started without one may get.
pub open spec fn is_default_name(s: Seq<char>) -> bool {
    ||| s == "Captain Crunch"@
    ||| s == "Sir Laughs-a-Lot"@
    ||| s == "Pixel Pirate"@
    ||| s == "Chatty McChatterson"@
    ||| s == "GigaChad"@
    ||| s == "Meme Dream"@
    ||| s == "Emoji Overlord"@
    ||| s == "Data Whisperer"@
    ||| s == "Hacker Man"@
    ||| s == "LolzMaster"@
    ||| s == "Mr. Giggles"@
    ||| s == "Techie Wookie"@
    ||| s == "The Mighty Ping"@
    ||| s == "Lord of Bytes"@
    ||| s == "Ninja Byte"@
    ||| s == "404_NotFound"@
    ||| s == "Banter Wizard"@
    ||| s == "The Ping King"@
    ||| s == "Chat Crusader"@
    ||| s == "Cyber Sprite"@
}

/// A name picked at random from the funny names, for a peer started
/// without one.
pub fn default_name() -> (r: String)
    ensures
        is_default_name(r@),
{
    let funny_names: [&str; 20] = [
        "Captain Crunch",
        "Sir Laughs-a-Lot",
        "Pixel Pirate",
        "Chatty McChatterson",
        "GigaChad",
        "Meme Dream",
        "Emoji Overlord",
        "Data Whisperer",
        "Hacker Man",
        "LolzMaster",
        "Mr. Giggles",
        "Techie Wookie",
        "The Mighty Ping",
        "Lord of Bytes",
        "Ninja Byte",
        "404_NotFound",
        "Banter Wizard",
        "The Ping King",
        "Chat Crusader",
        "Cyber Sprite",
    ];
    let picked = choose_one(funny_names.as_slice());
    let name = picked.unwrap();
    assert(is_default_name(name@));
    name.to_owned()
}

/// The width of the peer table, in characters.
pub const LINE_LENGTH: usize = 40;

/// The title in the top border of the peer table.
pub open spec fn peer_list_title() -> Seq<char> {
    seq![' ', 'P', 'E', 'E', 'R', ' ', 'L', 'I', 'S', 'T', ' ']
}

/// The top border of the peer table: the title centred in dashes, the odd
/// dash after it.
pub open spec fn peer_list_header() -> Seq<char> {
    repeat_char('-', 14) + peer_list_title() + repeat_char('-', 15)
}

/// The bottom border of the peer table.
pub open spec fn peer_list_footer() -> Seq<char> {
    repeat_char('-', 40)
}

/// The row of the peer table for `p`: its name centred in ten characters
/// and its address in twenty-three, between bars.
pub open spec fn peer_row(p: Peer) -> Seq<char> {
    seq!['|', ' '] + centered(p.name@, 10) + seq![' ', '|', ' '] + centered(addr_text(p.addr), 23)
        + seq![' ', '|']
}

/// The top border of the peer table.
fn header_line() -> (r: String)
    ensures
        r@ == peer_list_header(),
{
    let title: Vec<char> = vec![' ', 'P', 'E', 'E', 'R', ' ', 'L', 'I', 'S', 'T', ' '];
    let padding = (LINE_LENGTH - title.len()) / 2;
    let mut v: Vec<char> = Vec::new();
    push_repeat(&mut v, '-', padding);
    push_all(&mut v, &title);
    push_repeat(&mut v, '-', LINE_LENGTH - padding - title.len());
    assert(title@ =~= peer_list_title());
    assert(v@ =~= peer_list_header());
    string_of(&v)
}

/// The bottom border of the peer table.
fn footer_line() -> (r: String)
    ensures
        r@ == peer_list_footer(),
{
    let mut v: Vec<char> = Vec::new();
    push_repeat(&mut v, '-', LINE_LENGTH);
    assert(v@ =~= peer_list_footer());
    string_of(&v)
}

/// The row of the peer table for `p`.
pub fn peer_row_text(p: &Peer) -> (r: String)
    ensures
        r@ == peer_row(*p),
{
    let name = chars_of(p.name.as_str());
    let mut addr: Vec<char> = Vec::new();
    push_addr(&mut addr, p.addr);
    assert(addr@ =~= addr_text(p.addr));
    let mut v: Vec<char> = Vec::new();
    v.push('|');
    v.push(' ');
    push_centered(&mut v, &name, 10);
    v.push(' ');
    v.push('|');
    v.push(' ');
    push_centered(&mut v, &addr, 23);
    v.push(' ');
    v.push('|');
    assert(v@ =~= peer_row(*p));
    string_of(&v)
}

impl App {
    /// A peer with a fresh random identity, listening at `addr`, named
    /// `name`, with no known peers.
    pub fn new(addr: PeerAddr, name: String) -> (app: App)
        ensures
            app.addr == addr,
            app.name == name,
            is_random_uuid(app.uuid),
            app.peers@ == Map::<u128, Peer>::empty(),
            app.token@ == shared_token(),
            app.token@.len() == 32,
    {
        let uuid = new_uuid();
        App::with_uuid(addr, name, uuid)
    }

    /// A peer with the identity `uuid`, listening at `addr`, named `name`,
    /// with no known peers.
    pub fn with_uuid(addr: PeerAddr, name: String, uuid: u128) -> (app: App)
        ensures
            app.addr == addr,
            app.name == name,
            app.uuid == uuid,
            app.peers@ == Map::<u128, Peer>::empty(),
            app.token@ == shared_token(),
            app.token@.len() == 32,
    {
        let shared = "p2p_app";
        proof {
            reveal_strlit("p2p_app");
            vstd::string::is_ascii_spec_bytes(shared);
        }
        let key = shared.as_bytes();
        assert(key@ =~= shared_key());
        let digest = sha256(key);
        let token = ascii_lowercase(digest.as_slice());
        App { addr, uuid, peers: HashMap::new(), name, token }
    }

    /// Records `peer` under `uuid`, replacing any earlier entry for it.
    pub fn add_peer(&mut self, uuid: u128, peer: Peer)
        ensures
            final(self).peers@ == old(self).peers@.insert(uuid, peer),
            final(self).addr == old(self).addr,
            final(self).uuid == old(self).uuid,
            final(self).name == old(self).name,
            final(self).token == old(self).token,
    {
        self.peers.insert(uuid, peer);
    }

    /// Handles a discovery message that came from `sender`. A message that
    /// carries this peer's own identity is ignored; any other records its
    /// sender under the sender's identity, at the sender's IP address and
    /// the chat port that the message names. Returns whether the message
    /// came from another peer (which the discovery server answers).
    pub fn handle_discovery(&mut self, message: DiscoveryMessage, sender: PeerAddr) -> (from_other:
        bool)
        ensures
            from_other == (message.uuid != old(self).uuid),
            final(self).peers@ == after_discovery(
                old(self).peers@,
                old(self).uuid,
                message.uuid,
                message.name,
                sender,
                message.port,
            ),
            forall|k: u128|
                k != message.uuid ==> (#[trigger] final(self).peers@.contains_key(k)
                    == old(self).peers@.contains_key(k) && (old(self).peers@.contains_key(k)
                    ==> final(self).peers@[k] == old(self).peers@[k])),
            from_other ==> final(self).peers@.contains_key(message.uuid),
            from_other ==> final(self).peers@[message.uuid].name == message.name,
            from_other ==> final(self).peers@[message.uuid].addr == (PeerAddr {
                port: message.port,
                ..sender
            }),
            !from_other ==> final(self).peers@ == old(self).peers@,
            final(self).addr == old(self).addr,
            final(self).uuid == old(self).uuid,
            final(self).name == old(self).name,
            final(self).token == old(self).token,
    {
        if message.uuid != self.uuid {
            let peer = Peer { addr: sender.with_port(message.port), name: message.name };
            self.add_peer(message.uuid, peer);
            true
        } else {
            false
        }
    }

    /// The lines of the peer table: the top border, one row for each known
    /// peer and the bottom border. The rows come in the order in which the
    /// table is walked, which is unspecified; each known peer has exactly
    /// one row.
    pub fn list_peers(&self) -> (rows: Vec<String>)
        ensures
            rows@.len() == self.peers@.len() + 2,
            rows@[0]@ == peer_list_header(),
            rows@.last()@ == peer_list_footer(),
            exists|order: Seq<u128>|
                {
                    &&& order.len() == self.peers@.len()
                    &&& order.no_duplicates()
                    &&& forall|k: u128| #[trigger]
                        self.peers@.contains_key(k) ==> order.contains(k)
                    &&& forall|i: int|
                        0 <= i < order.len() ==> self.peers@.contains_key(#[trigger] order[i])
                            && rows@[i + 1]@ == peer_row(self.peers@[order[i]])
                },
    {
        let mut rows: Vec<String> = Vec::new();
        rows.push(header_line());
        let ghost entries = self.peers.iter().remaining();
        for kv in it: self.peers.iter()
            invariant
                it.seq() == entries,
                entries.no_duplicates(),
                rows@.len() == it.index() + 1,
                rows@[0]@ == peer_list_header(),
                forall|i: int| 0 <= i < it.index() ==> rows@[i + 1]@ == peer_row(*entries[i].1),
        {
            let (_uuid, peer) = kv;
            rows.push(peer_row_text(peer));
        }
        rows.push(footer_line());
        proof {
            let m = self.peers@;
            let order = entries.map_values(|e: (&u128, &Peer)| *e.0);
            assert(entries.len() == m.dom().len());
            assert forall|i: int| 0 <= i < order.len() implies m.contains_key(#[trigger] order[i])
                && rows@[i + 1]@ == peer_row(m[order[i]]) by {
                assert(m.contains_key(*entries[i].0) && m[*entries[i].0] == *entries[i].1);
            }
            assert forall|i: int, j: int| 0 <= i < order.len() && 0 <= j < order.len() && i != j
                implies #[trigger] order[i] != #[trigger] order[j] by {
                assert(m.contains_key(*entries[i].0) && m[*entries[i].0] == *entries[i].1);
                assert(m.contains_key(*entries[j].0) && m[*entries[j].0] == *entries[j].1);
                if order[i] == order[j] {
                    assert(entries[i] == entries[j]);
                }
            }
            assert forall|k: u128| #[trigger] m.contains_key(k) implies order.contains(k) by {
                assert(entries.contains((&k, &m[k])));
                let idx = choose|idx: int| 0 <= idx < entries.len() && entries[idx] == (&k, &m[k]);
                assert(order[idx] == k);
            }
            assert(rows@.last() == rows@[order.len() as int + 1]);
        }
        rows
    }

    /// Whether any peer is known.
    pub fn has_peers(&self) -> (r: bool)
        ensures
            r == (self.peers@.len() > 0),
    {
        !self.peers.is_empty()
    }

    /// The message that announces this peer, stamped with the current time;
    /// `None` when the system clock is set before the Unix epoch.
    pub fn announcement(&self) -> (r: Option<DiscoveryMessage>)
        ensures
            r matches Some(m) ==> m.uuid == self.uuid && m.port == self.addr.port && m.name@
                == self.name@,
    {
        DiscoveryMessage::new(self.uuid, self.addr.port, self.name.clone())
    }
}

/// The text of an address is at most twenty-one characters long, so it
/// always fits the address column of the peer table.
pub proof fn lemma_addr_text_len(x: PeerAddr)
    ensures
        addr_text(x).len() <= 21,
{
    lemma_decimal(x.a as nat);
    lemma_decimal(x.b as nat);
    lemma_decimal(x.c as nat);
    lemma_decimal(x.d as nat);
    lemma_decimal(x.port as nat);
}

/// Both borders of the peer table are forty characters wide, and so is the
/// row of every peer whose name has at most ten characters.
pub proof fn lemma_peer_table_width(p: Peer)
    ensures
        peer_list_header().len() == 40,
        peer_list_footer().len() == 40,
        p.name@.len() <= 10 ==> peer_row(p).len() == 40,
{
    lemma_addr_text_len(p.addr);
}

/// A peer never records itself: if its table does not hold its own
/// identity, no discovery message puts it there.
pub proof fn lemma_discovery_never_lists_self(
    peers: Map<u128, Peer>,
    me: u128,
    uuid: u128,
    name: String,
    sender: PeerAddr,
    port: u16,
)
    requires
        !peers.contains_key(me),
    ensures
        !after_discovery(peers, me, uuid, name, sender, port).contains_key(me),
{
}

/// A peer's own announcement, heard back, leaves its table as it was.
pub proof fn lemma_own_announcement_ignored(
    peers: Map<u128, Peer>,
    me: u128,
    name: String,
    sender: PeerAddr,
    port: u16,
)
    ensures
        after_discovery(peers, me, me, name, sender, port) == peers,
{
}

/// A peer that announces itself again replaces its earlier entry: hearing
/// from the same identity twice leaves what hearing only the second
/// message would, with one entry for it.
pub proof fn lemma_rediscovery_replaces(
    peers: Map<u128, Peer>,
    me: u128,
    uuid: u128,
    name1: String,
    sender1: PeerAddr,
    port1: u16,
    name2: String,
    sender2: PeerAddr,
    port2: u16,
)
    ensures
        after_discovery(
            after_discovery(peers, me, uuid, name1, sender1, port1),
            me,
            uuid,
            name2,
            sender2,
            port2,
        ) == after_discovery(peers, me, uuid, name2, sender2, port2),
{
    if uuid != me {
        assert(after_discovery(
            after_discovery(peers, me, uuid, name1, sender1, port1),
            me,
            uuid,
            name2,
            sender2,
            port2,
        ) =~= after_discovery(peers, me, uuid, name2, sender2, port2));
    }
}

/// After a message from another peer, the table holds that peer under its
/// identity, at the IP address the message came from and the chat port
/// that the message names, with the name that it gives.
pub proof fn lemma_discovered_peer_recorded(
    peers: Map<u128, Peer>,
    me: u128,
    uuid: u128,
    name: String,
    sender: PeerAddr,
    port: u16,
)
    requires
        uuid != me,
    ensures
        after_discovery(peers, me, uuid, name, sender, port).contains_key(uuid),
        after_discovery(peers, me, uuid, name, sender, port)[uuid].name == name,
        after_discovery(peers, me, uuid, name, sender, port)[uuid].addr == (PeerAddr {
            port,
            ..sender
        }),
{
}


/// A discovery message changes the table only under the sender's identity:
/// every other entry stays, and no entry appears or goes under another
/// identity.
pub proof fn lemma_discovery_keeps_other_peers(
    peers: Map<u128, Peer>,
    me: u128,
    uuid: u128,
    name: String,
    sender: PeerAddr,
    port: u16,
    k: u128,
)
    requires
        k != uuid,
    ensures
        after_discovery(peers, me, uuid, name, sender, port).contains_key(k)
            == peers.contains_key(k),
        peers.contains_key(k) ==> after_discovery(peers, me, uuid, name, sender, port)[k]
            == peers[k],
{
}

/// Two other peers heard in turn are both in the table, each at the IP
/// address its message came from with the chat port and name it gave; the
/// first is not forgotten when the second arrives.
pub proof fn lemma_two_discoveries(
    peers: Map<u128, Peer>,
    me: u128,
    uuid1: u128,
    name1: String,
    sender1: PeerAddr,
    port1: u16,
    uuid2: u128,
    name2: String,
    sender2: PeerAddr,
    port2: u16,
)
    requires
        uuid1 != me,
        uuid2 != me,
        uuid1 != uuid2,
    ensures
        ({
            let t = after_discovery(
                after_discovery(peers, me, uuid1, name1, sender1, port1),
                me,
                uuid2,
                name2,
                sender2,
                port2,
            );
            &&& t.contains_key(uuid1)
            &&& t[uuid1].name == name1
            &&& t[uuid1].addr == (PeerAddr { port: port1, ..sender1 })
            &&& t.contains_key(uuid2)
            &&& t[uuid2].name == name2
            &&& t[uuid2].addr == (PeerAddr { port: port2, ..sender2 })
            &&& forall|k: u128|
                k != uuid1 && k != uuid2 ==> (#[trigger] t.contains_key(k) == peers.contains_key(k)
                    && (peers.contains_key(k) ==> t[k] == peers[k]))
        }),
{
}

} // verus!
