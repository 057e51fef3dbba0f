//! Clipboard sharing between two paired devices: the wire format, the pairing
//! handshake, the secret vault, the echo suppression of the sync loop and the
//! configuration rules, each with its contract.

use vstd::prelude::*;

pub mod addr;
pub mod clipboard;
pub mod config;
pub mod crypto;
pub mod frame;
pub mod icons;
pub mod installer;
pub mod json;
pub mod json_read;
pub mod pairing;
pub mod secrets;
pub mod sync;
pub mod text;
pub mod transport;
pub mod tray;
pub mod vault_json;
pub mod wire;

verus! {

/// The application's name, as used for the keychain service and config directory.
pub const APP_NAME: &'static str = "rclippy";

/// The version of the peer-to-peer protocol spoken after the TLS handshake.
pub const PROTOCOL_VERSION: u16 = 1;

} // verus!
