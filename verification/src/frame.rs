//! Messages exchanged between peers, and the length-prefixed framing that
//! carries their encoded bytes over a stream.

use vstd::prelude::*;

use crate::crypto::{sha256, sha256_digest};
use crate::text::{byte_len, hex_encode, hex_lower, utf8_len};
use crate::PROTOCOL_VERSION;

verus! {

/// The largest payload a sync frame may carry.
pub const MAX_FRAME_BYTES: usize = 2 * 1024 * 1024;

/// A message of the sync protocol. Its JSON form is tagged by a `type` field
/// in snake case.
#[derive(Debug, Clone, PartialEq, Eq)]
pub enum Frame {
    Hello { protocol_version: u16, device_id: String },
    ClipboardText { seq: u64, sha256: String, text: String },
    Ping,
    Pong,
    Error { message: String },
}

/// The hex SHA-256 digest of the UTF-8 bytes of a text.
pub open spec fn text_digest(text: Seq<char>) -> Seq<char> {
    hex_lower(sha256(vstd::utf8::encode_utf8(text)))
}

/// Lower-case hex of the SHA-256 digest of the text's UTF-8 bytes.
pub fn sha256_text(text: &str) -> (r: String)
    ensures
        r@ == text_digest(text@),
{
    let digest = sha256_digest(text.as_bytes());
    hex_encode(digest.as_slice())
}

impl Frame {
    /// The greeting that opens a session, carrying the protocol version.
    pub fn hello(device_id: &str) -> (f: Frame)
        ensures
            f matches Frame::Hello { protocol_version, device_id: id } && protocol_version
                == PROTOCOL_VERSION && id@ == device_id@,
    {
        Frame::Hello { protocol_version: PROTOCOL_VERSION, device_id: device_id.to_owned() }
    }

    /// A clipboard update carrying the text and its digest.
    pub fn clipboard_text(seq: u64, text: String) -> (f: Frame)
        ensures
            f matches Frame::ClipboardText { seq: s, sha256: h, text: t } && s == seq && h@
                == text_digest(text@) && t@ == text@,
    {
        let sha256 = sha256_text(text.as_str());
        Frame::ClipboardText { seq, sha256, text }
    }
}

/// The outcome of `validate_clipboard_frame`: clipboard frames must hold at
/// most `max_text_bytes` bytes of text and carry that text's digest; other
/// frames pass.
pub open spec fn clipboard_frame_check(frame: Frame, max_text_bytes: usize) -> Result<(), Seq<char>> {
    match frame {
        Frame::ClipboardText { sha256, text, .. } => {
            if utf8_len(text@) > max_text_bytes {
                Err(TEXT_TOO_LONG@)
            } else if text_digest(text@) != sha256@ {
                Err(HASH_MISMATCH@)
            } else {
                Ok(())
            }
        },
        _ => Ok(()),
    }
}

pub const TEXT_TOO_LONG: &'static str = "clipboard text exceeds configured limit";

pub const HASH_MISMATCH: &'static str = "clipboard text hash mismatch";

/// Checks a received clipboard frame against the size limit and its digest.
pub fn validate_clipboard_frame(frame: &Frame, max_text_bytes: usize) -> (r: Result<(), String>)
    ensures
        match (r, clipboard_frame_check(*frame, max_text_bytes)) {
            (Ok(()), Ok(())) => true,
            (Err(m), Err(e)) => m@ == e,
            _ => false,
        },
{
    match frame {
        Frame::ClipboardText { sha256, text, .. } => {
            if byte_len(text.as_str()) > max_text_bytes {
                return Err(TEXT_TOO_LONG.to_owned());
            }
            let actual = sha256_text(text.as_str());
            if actual != *sha256 {
                return Err(HASH_MISMATCH.to_owned());
            }
            Ok(())
        },
        _ => Ok(()),
    }
}

} // verus!
