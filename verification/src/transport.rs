//! The decisions taken on a connection once TLS is up: whose greeting is
//! accepted, and which of two simultaneous connections survives.

use vstd::prelude::*;

use crate::frame::Frame;
use crate::secrets::PeerIdentity;
use crate::text::{lemma_lex_trichotomy, lex_lt, str_eq, str_less};
use crate::PROTOCOL_VERSION;

verus! {

/// Which end opened a connection, seen from this device.
#[derive(Debug, Clone, Copy, PartialEq, Eq, Structural)]
pub enum ConnectionSide {
    Incoming,
    Outgoing,
}

/// The connection that survives when both devices connect to each other:
/// the one opened by the device whose id comes first.
pub open spec fn keeps_connection(local: Seq<char>, peer: Seq<char>, side: ConnectionSide) -> bool {
    if lex_lt(local, peer) {
        side == ConnectionSide::Outgoing
    } else if lex_lt(peer, local) {
        side == ConnectionSide::Incoming
    } else {
        false
    }
}

/// Whether to keep a connection on the given side: the device whose id comes
/// first keeps its outgoing one, the other its incoming one.
pub fn should_keep_connection(local_device_id: &str, peer_device_id: &str, side: ConnectionSide) -> (r:
    bool)
    ensures
        r == keeps_connection(local_device_id@, peer_device_id@, side),
{
    if str_less(local_device_id, peer_device_id) {
        side == ConnectionSide::Outgoing
    } else if str_less(peer_device_id, local_device_id) {
        side == ConnectionSide::Incoming
    } else {
        false
    }
}

/// The other end's view of a connection.
pub open spec fn opposite(side: ConnectionSide) -> ConnectionSide {
    match side {
        ConnectionSide::Incoming => ConnectionSide::Outgoing,
        ConnectionSide::Outgoing => ConnectionSide::Incoming,
    }
}

/// Two devices with different ids agree on the one connection to keep: each
/// keeps exactly one side, and what one keeps as outgoing the other keeps as
/// incoming. A device never keeps a connection to its own id.
pub proof fn lemma_one_connection_survives(local: Seq<char>, peer: Seq<char>, side: ConnectionSide)
    ensures
        local != peer ==> keeps_connection(local, peer, side) != keeps_connection(
            local,
            peer,
            opposite(side),
        ),
        keeps_connection(local, peer, side) == keeps_connection(peer, local, opposite(side)),
        local == peer ==> !keeps_connection(local, peer, side),
{
    lemma_lex_trichotomy(local, peer);
    lemma_lex_trichotomy(peer, local);
}

pub const PEER_MISMATCH: &'static str = "peer device id mismatch";

/// Accepts a greeting only from the pinned peer's device id.
pub fn verify_expected_peer(actual: &str, expected: &PeerIdentity) -> (r: Result<(), String>)
    ensures
        actual@ == expected.device_id@ ==> r is Ok,
        actual@ != expected.device_id@ ==> (r matches Err(m) && m@ == PEER_MISMATCH@),
{
    if !str_eq(actual, expected.device_id.as_str()) {
        return Err(PEER_MISMATCH.to_owned());
    }
    Ok(())
}

/// Why a peer's greeting was refused.
#[derive(Debug, Clone, Copy, PartialEq, Eq, Structural)]
pub enum HelloError {
    /// The peer speaks another protocol version.
    UnsupportedVersion(u16),
    /// The first frame was not a greeting.
    NotHello,
}

/// The device id in the peer's greeting, if it is a greeting in this protocol version.
pub fn peer_hello_device_id(frame: Frame) -> (r: Result<String, HelloError>)
    ensures
        match frame {
            Frame::Hello { protocol_version, device_id } => if protocol_version
                == PROTOCOL_VERSION {
                r matches Ok(id) && id@ == device_id@
            } else {
                r == Err::<String, HelloError>(HelloError::UnsupportedVersion(protocol_version))
            },
            _ => r == Err::<String, HelloError>(HelloError::NotHello),
        },
{
    match frame {
        Frame::Hello { protocol_version, device_id } => {
            if protocol_version != PROTOCOL_VERSION {
                return Err(HelloError::UnsupportedVersion(protocol_version));
            }
            Ok(device_id)
        },
        _ => Err(HelloError::NotHello),
    }
}

} // verus!
