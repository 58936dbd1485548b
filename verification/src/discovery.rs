//! Peer discovery: the message that peers broadcast to announce themselves
//! and the pause before a peer answers one.

use vstd::prelude::*;
use crate::clock::unix_seconds;

verus! {

/// What a peer announces of itself: its identity, the port of its chat
/// server, its display name and when the message was made (seconds since
/// the Unix epoch).
#[derive(Debug, Clone)]
pub struct DiscoveryMessage {
    pub uuid: u128,
    pub port: u16,
    pub name: String,
    pub timestamp: u64,
}

impl DiscoveryMessage {
    /// A message stamped with the current time; `None` when the system clock
    /// is set before the Unix epoch.
    pub fn new(uuid: u128, port: u16, name: String) -> (r: Option<DiscoveryMessage>)
        ensures
            r matches Some(m) ==> m.uuid == uuid && m.port == port && m.name == name,
    {
        match unix_seconds() {
            Some(timestamp) => Some(DiscoveryMessage::with_timestamp(uuid, port, name, timestamp)),
            None => None,
        }
    }

    /// A message with the given stamp.
    pub fn with_timestamp(uuid: u128, port: u16, name: String, timestamp: u64) -> (r:
        DiscoveryMessage)
        ensures
            r.uuid == uuid,
            r.port == port,
            r.name == name,
            r.timestamp == timestamp,
    {
        DiscoveryMessage { uuid, port, name, timestamp }
    }
}

/// A random `u64`: `rand::random`. Nothing is stated of it: every value
/// may come.
#[verifier::external_body]
fn random_u64() -> u64 {
    rand::random::<u64>()
}

/// How long a peer waits before it answers an announcement, in
/// milliseconds: a random time below two and a half seconds.
pub fn reply_delay_millis() -> (r: u64)
    ensures
        r < 2500,
{
    reply_delay_from(random_u64())
}

/// The reply delay, in milliseconds, that a random draw `random` gives: its
/// remainder modulo 2500.
pub fn reply_delay_from(random: u64) -> (r: u64)
    ensures
        r == random % 2500,
{
    random % 2500
}

} // verus!
