//! The decisions of the sync loop: which local clipboard changes are sent,
//! which received ones are applied, and the status shown to the user.

use vstd::prelude::*;

use crate::frame::{
    clipboard_frame_check, sha256_text, text_digest, validate_clipboard_frame, Frame,
};
use crate::config::Config;
use crate::secrets::{fingerprint, PeerIdentity};
use crate::text::{byte_len, is_blank, utf8_len};
use crate::transport::{
    keeps_connection, should_keep_connection, verify_expected_peer, ConnectionSide, PEER_MISMATCH,
};
use vstd::string::*;

verus! {

/// The view of an optional string.
pub open spec fn opt_view(o: Option<String>) -> Option<Seq<char>> {
    match o {
        Some(s) => Some(s@),
        None => None,
    }
}

fn opt_holds(o: &Option<String>, s: &String) -> (r: bool)
    ensures
        r == (opt_view(*o) == Some(s@)),
{
    match o {
        Some(x) => *x == *s,
        None => false,
    }
}

/// Remembers the digests of the last text sent and the last text received,
/// so that a text is neither sent twice in a row nor sent back to the peer
/// it came from.
#[derive(Debug)]
pub struct EchoSuppressor {
    last_local_hash: Option<String>,
    last_remote_hash: Option<String>,
    next_seq: u64,
}

/// The state of an `EchoSuppressor`.
pub struct EchoModel {
    pub last_local: Option<Seq<char>>,
    pub last_remote: Option<Seq<char>>,
    pub next_seq: u64,
}

impl View for EchoSuppressor {
    type V = EchoModel;

    closed spec fn view(&self) -> EchoModel {
        EchoModel {
            last_local: opt_view(self.last_local_hash),
            last_remote: opt_view(self.last_remote_hash),
            next_seq: self.next_seq,
        }
    }
}

/// Whether a local text leads to a frame being sent: it fits the limit, it
/// is not the text last received, and it is not the text last sent.
pub open spec fn local_emits(s: EchoModel, text: Seq<char>, max_text_bytes: usize) -> bool {
    let h = text_digest(text);
    utf8_len(text) <= max_text_bytes && s.last_remote != Some(h) && s.last_local != Some(h)
}

/// What `local_frame_for_text` does to the state, and the sequence number and
/// digest of the frame it sends, if any.
pub open spec fn local_step(s: EchoModel, text: Seq<char>, max_text_bytes: usize) -> (
    EchoModel,
    Option<(u64, Seq<char>)>,
) {
    let h = text_digest(text);
    if utf8_len(text) > max_text_bytes {
        (s, None)
    } else if s.last_remote == Some(h) {
        (EchoModel { last_local: Some(h), ..s }, None)
    } else if s.last_local == Some(h) {
        (s, None)
    } else {
        let seq = (s.next_seq + 1) as u64;
        (EchoModel { last_local: Some(h), next_seq: seq, ..s }, Some((seq, h)))
    }
}

/// What `remote_text_to_apply` does to the state, and its outcome: the text to
/// put on the local clipboard, none, or the reason the frame was refused.
pub open spec fn remote_step(s: EchoModel, frame: Frame, max_text_bytes: usize) -> (
    EchoModel,
    Result<Option<Seq<char>>, Seq<char>>,
) {
    match clipboard_frame_check(frame, max_text_bytes) {
        Err(e) => (s, Err(e)),
        Ok(()) => match frame {
            Frame::ClipboardText { sha256, text, .. } => {
                let h = sha256@;
                if s.last_remote == Some(h) {
                    (s, Ok(None))
                } else if s.last_local == Some(h) {
                    (EchoModel { last_remote: Some(h), ..s }, Ok(None))
                } else {
                    (EchoModel { last_remote: Some(h), last_local: Some(h), ..s }, Ok(Some(text@)))
                }
            },
            _ => (s, Ok(None)),
        },
    }
}

/// A text handled twice in a row is sent at most once: after any local
/// text, the same text again sends nothing.
pub proof fn lemma_local_duplicate_not_sent(s: EchoModel, text: Seq<char>, max_text_bytes: usize)
    ensures
        local_step(local_step(s, text, max_text_bytes).0, text, max_text_bytes).1 is None,
{
}

/// A text received from the peer and applied is not sent back when the
/// local clipboard then reports it.
pub proof fn lemma_applied_text_not_echoed(s: EchoModel, frame: Frame, max_text_bytes: usize)
    requires
        remote_step(s, frame, max_text_bytes).1 matches Ok(Some(_)),
    ensures
        local_step(
            remote_step(s, frame, max_text_bytes).0,
            remote_step(s, frame, max_text_bytes).1->Ok_0->Some_0,
            max_text_bytes,
        ).1 is None,
{
}

/// A text that was sent and comes back from the peer is not applied.
pub proof fn lemma_sent_text_not_applied(
    s: EchoModel,
    text: Seq<char>,
    max_text_bytes: usize,
    frame: Frame,
)
    requires
        local_step(s, text, max_text_bytes).1 is Some,
        frame matches Frame::ClipboardText { sha256, .. } && sha256@ == text_digest(text),
    ensures
        !(remote_step(local_step(s, text, max_text_bytes).0, frame, max_text_bytes).1 matches Ok(
            Some(_),
        )),
{
}

/// The same received frame is applied at most once in a row.
pub proof fn lemma_remote_duplicate_not_applied(s: EchoModel, frame: Frame, max_text_bytes: usize)
    ensures
        !(remote_step(remote_step(s, frame, max_text_bytes).0, frame, max_text_bytes).1 matches Ok(
            Some(_),
        )),
{
}

/// A frame sent for a local text passes the peer's check, and a peer that
/// has seen nothing yet applies its text.
pub proof fn lemma_sent_frame_applied_by_fresh_peer(
    s: EchoModel,
    text: Seq<char>,
    max_text_bytes: usize,
    frame: Frame,
)
    requires
        local_step(s, text, max_text_bytes).1 matches Some((seq, h)) && frame matches Frame::ClipboardText {
            seq: fs,
            sha256,
            text: t,
        } && fs == seq && sha256@ == h && t@ == text,
    ensures
        clipboard_frame_check(frame, max_text_bytes) == Ok::<(), Seq<char>>(()),
        remote_step(
            EchoModel { last_local: None, last_remote: None, next_seq: 0 },
            frame,
            max_text_bytes,
        ).1 == Ok::<Option<Seq<char>>, Seq<char>>(Some(text)),
{
}

/// Sent frames are numbered 1, 2, 3, ...: a sent frame takes the number after
/// the counter and becomes the counter, nothing else changes the counter.
pub proof fn lemma_sequence_numbers_increase(
    s: EchoModel,
    text: Seq<char>,
    frame: Frame,
    max_text_bytes: usize,
)
    requires
        local_emits(s, text, max_text_bytes) ==> s.next_seq < u64::MAX,
    ensures
        match local_step(s, text, max_text_bytes).1 {
            Some((seq, _)) => seq == s.next_seq + 1 && local_step(s, text, max_text_bytes).0.next_seq
                == seq,
            None => local_step(s, text, max_text_bytes).0.next_seq == s.next_seq,
        },
        remote_step(s, frame, max_text_bytes).0.next_seq == s.next_seq,
{
}

/// A local text is sent exactly when it fits the limit and its digest is
/// neither that of the text last received nor that of the text last sent;
/// the frame sent carries the next number, the text and its digest, and
/// the text becomes the last one sent.
pub proof fn lemma_local_sends_exactly_new_text(s: EchoModel, text: Seq<char>, max_text_bytes: usize)
    ensures
        (local_step(s, text, max_text_bytes).1 is Some) <==> (utf8_len(text) <= max_text_bytes
            && s.last_remote != Some(text_digest(text)) && s.last_local != Some(text_digest(text))),
        local_step(s, text, max_text_bytes).1 matches Some((seq, h)) ==> (s.next_seq < u64::MAX
            ==> seq == s.next_seq + 1) && h == text_digest(text) && local_step(s, text, max_text_bytes).0.last_local == Some(
            text_digest(text),
        ) && local_step(s, text, max_text_bytes).0.last_remote == s.last_remote,
{
}

/// A received clipboard frame that passes its check is applied exactly
/// when its digest is neither that of the text last received nor that of
/// the text last sent, whatever else the state holds; once applied, its
/// digest is both the last received and the last sent.
pub proof fn lemma_remote_applies_exactly_new_text(s: EchoModel, frame: Frame, max_text_bytes: usize)
    ensures
        (clipboard_frame_check(frame, max_text_bytes) is Err) <==> (remote_step(
            s,
            frame,
            max_text_bytes,
        ).1 is Err),
        frame matches Frame::ClipboardText { sha256, text, .. } ==> clipboard_frame_check(
            frame,
            max_text_bytes,
        ) is Ok ==> {
            &&& (remote_step(s, frame, max_text_bytes).1 == Ok::<Option<Seq<char>>, Seq<char>>(
                Some(text@),
            )) <==> (s.last_remote != Some(sha256@) && s.last_local != Some(sha256@))
            &&& (s.last_remote == Some(sha256@) || s.last_local == Some(sha256@)) ==> remote_step(
                s,
                frame,
                max_text_bytes,
            ).1 == Ok::<Option<Seq<char>>, Seq<char>>(None)
            &&& remote_step(s, frame, max_text_bytes).0.last_remote == Some(sha256@)
            &&& remote_step(s, frame, max_text_bytes).1 == Ok::<Option<Seq<char>>, Seq<char>>(
                Some(text@),
            ) ==> remote_step(s, frame, max_text_bytes).0.last_local == Some(sha256@)
        },
{
}

/// After a text from the peer is applied, a local text with another digest
/// that fits the limit is still sent.
pub proof fn lemma_local_sent_after_applied(
    s: EchoModel,
    frame: Frame,
    text: Seq<char>,
    max_text_bytes: usize,
)
    requires
        remote_step(s, frame, max_text_bytes).1 matches Ok(Some(_)),
        frame matches Frame::ClipboardText { sha256, .. } && sha256@ != text_digest(text),
        utf8_len(text) <= max_text_bytes,
    ensures
        local_step(remote_step(s, frame, max_text_bytes).0, text, max_text_bytes).1 is Some,
{
}

/// After a local text is sent, a valid frame from the peer with another
/// digest, not the one last received, is applied.
pub proof fn lemma_remote_applied_after_sent(
    s: EchoModel,
    text: Seq<char>,
    frame: Frame,
    max_text_bytes: usize,
)
    requires
        local_step(s, text, max_text_bytes).1 is Some,
        clipboard_frame_check(frame, max_text_bytes) is Ok,
        frame matches Frame::ClipboardText { sha256, .. } && sha256@ != text_digest(text)
            && s.last_remote != Some(sha256@),
    ensures
        remote_step(local_step(s, text, max_text_bytes).0, frame, max_text_bytes).1
            == Ok::<Option<Seq<char>>, Seq<char>>(Some(frame->text@)),
{
}

impl EchoSuppressor {
    /// The sequence number of the last frame sent; 0 before the first.
    pub fn next_seq(&self) -> (r: u64)
        ensures
            r == self@.next_seq,
    {
        self.next_seq
    }

    /// The frame to send for a text read from the local clipboard, if any.
    pub fn local_frame_for_text(&mut self, text: String, max_text_bytes: usize) -> (r: Option<
        Frame,
    >)
        requires
            local_emits(old(self)@, text@, max_text_bytes) ==> old(self)@.next_seq < u64::MAX,
        ensures
            final(self)@ == local_step(old(self)@, text@, max_text_bytes).0,
            match local_step(old(self)@, text@, max_text_bytes).1 {
                None => r is None,
                Some((seq, h)) => r matches Some(Frame::ClipboardText { seq: s, sha256, text: t })
                    && s == seq && sha256@ == h && t@ == text@,
            },
            (r is Some) <==> (utf8_len(text@) <= max_text_bytes && old(self)@.last_remote != Some(
                text_digest(text@),
            ) && old(self)@.last_local != Some(text_digest(text@))),
            r matches Some(Frame::ClipboardText { seq, sha256, text: t }) ==> seq == old(self)@.next_seq
                + 1 && sha256@ == text_digest(text@) && t@ == text@,
    {
        if byte_len(text.as_str()) > max_text_bytes {
            return None;
        }
        let hash = sha256_text(text.as_str());
        if opt_holds(&self.last_remote_hash, &hash) {
            self.last_local_hash = Some(hash);
            return None;
        }
        if opt_holds(&self.last_local_hash, &hash) {
            return None;
        }
        self.next_seq = self.next_seq + 1;
        self.last_local_hash = Some(hash.clone());
        Some(Frame::ClipboardText { seq: self.next_seq, sha256: hash, text })
    }

    /// The text to put on the local clipboard for a frame received from the
    /// peer, if any; a clipboard frame that fails validation is refused.
    pub fn remote_text_to_apply(&mut self, frame: &Frame, max_text_bytes: usize) -> (r: Result<
        Option<String>,
        String,
    >)
        ensures
            final(self)@ == remote_step(old(self)@, *frame, max_text_bytes).0,
            match (r, remote_step(old(self)@, *frame, max_text_bytes).1) {
                (Ok(None), Ok(None)) => true,
                (Ok(Some(t)), Ok(Some(u))) => t@ == u,
                (Err(m), Err(e)) => m@ == e,
                _ => false,
            },
            (r is Err) <==> (clipboard_frame_check(*frame, max_text_bytes) is Err),
            *frame matches Frame::ClipboardText { sha256, text, .. } ==> clipboard_frame_check(
                *frame,
                max_text_bytes,
            ) is Ok ==> {
                &&& (old(self)@.last_remote != Some(sha256@) && old(self)@.last_local != Some(sha256@))
                    ==> (r matches Ok(Some(t)) && t@ == text@)
                &&& (old(self)@.last_remote == Some(sha256@) || old(self)@.last_local == Some(sha256@))
                    ==> r matches Ok(None)
            },
            !(*frame is ClipboardText) ==> r matches Ok(None),
    {
        match validate_clipboard_frame(frame, max_text_bytes) {
            Err(e) => return Err(e),
            Ok(()) => {},
        }
        match frame {
            Frame::ClipboardText { sha256, text, .. } => {
                if opt_holds(&self.last_remote_hash, sha256) {
                    return Ok(None);
                }
                if opt_holds(&self.last_local_hash, sha256) {
                    self.last_remote_hash = Some(sha256.clone());
                    return Ok(None);
                }
                self.last_remote_hash = Some(sha256.clone());
                self.last_local_hash = Some(sha256.clone());
                Ok(Some(text.clone()))
            },
            _ => Ok(None),
        }
    }
}


impl Default for EchoSuppressor {
    fn default() -> (e: Self)
        ensures
            e@ == (EchoModel { last_local: None, last_remote: None, next_seq: 0 }),
    {
        EchoSuppressor { last_local_hash: None, last_remote_hash: None, next_seq: 0 }
    }
}

fn copy_opt(o: &Option<String>) -> (r: Option<String>)
    ensures
        opt_view(r) == opt_view(*o),
{
    match o {
        Some(s) => Some(s.clone()),
        None => None,
    }
}

/// What the user is shown about the sync.
#[derive(Debug, Clone)]
pub struct SyncStatusSnapshot {
    pub paired: bool,
    pub connected: bool,
    pub message: String,
    pub last_error: Option<String>,
    pub peer_device_id: Option<String>,
    pub peer_fingerprint: Option<String>,
}

/// What a status snapshot holds.
pub struct StatusModel {
    pub paired: bool,
    pub connected: bool,
    pub message: Seq<char>,
    pub last_error: Option<Seq<char>>,
    pub peer_device_id: Option<Seq<char>>,
    pub peer_fingerprint: Option<Seq<char>>,
}

impl SyncStatusSnapshot {
    pub open spec fn model(&self) -> StatusModel {
        StatusModel {
            paired: self.paired,
            connected: self.connected,
            message: self.message@,
            last_error: opt_view(self.last_error),
            peer_device_id: opt_view(self.peer_device_id),
            peer_fingerprint: opt_view(self.peer_fingerprint),
        }
    }

    /// A copy of the snapshot.
    pub fn copy(&self) -> (r: Self)
        ensures
            r.model() == self.model(),
    {
        SyncStatusSnapshot {
            paired: self.paired,
            connected: self.connected,
            message: self.message.clone(),
            last_error: copy_opt(&self.last_error),
            peer_device_id: copy_opt(&self.peer_device_id),
            peer_fingerprint: copy_opt(&self.peer_fingerprint),
        }
    }
}

pub const NOT_PAIRED: &'static str = "Not paired";

impl Default for SyncStatusSnapshot {
    fn default() -> (s: Self)
        ensures
            s.model() == (StatusModel {
                paired: false,
                connected: false,
                message: NOT_PAIRED@,
                last_error: None,
                peer_device_id: None,
                peer_fingerprint: None,
            }),
    {
        SyncStatusSnapshot {
            paired: false,
            connected: false,
            message: NOT_PAIRED.to_owned(),
            last_error: None,
            peer_device_id: None,
            peer_fingerprint: None,
        }
    }
}

/// The sync status, updated by the sync tasks and read by the window.
#[derive(Debug)]
pub struct SyncStatus {
    inner: SyncStatusSnapshot,
}

impl View for SyncStatus {
    type V = StatusModel;

    closed spec fn view(&self) -> StatusModel {
        self.inner.model()
    }
}

impl Default for SyncStatus {
    fn default() -> (s: Self)
        ensures
            s@ == (StatusModel {
                paired: false,
                connected: false,
                message: NOT_PAIRED@,
                last_error: None,
                peer_device_id: None,
                peer_fingerprint: None,
            }),
    {
        SyncStatus { inner: SyncStatusSnapshot::default() }
    }
}

impl SyncStatus {
    /// The current status.
    pub fn snapshot(&self) -> (r: SyncStatusSnapshot)
        ensures
            r.model() == self@,
    {
        self.inner.copy()
    }

    /// Records the pinned peer: paired, with its id and fingerprint.
    pub fn set_paired(&mut self, peer: &PeerIdentity)
        ensures
            final(self)@ == (StatusModel {
                paired: true,
                peer_device_id: Some(peer.device_id@),
                peer_fingerprint: Some(fingerprint(peer.cert_der@)),
                ..old(self)@
            }),
    {
        self.inner.paired = true;
        self.inner.peer_device_id = Some(peer.device_id.clone());
        self.inner.peer_fingerprint = Some(peer.cert_fingerprint());
    }

    /// Records whether a connection is up, with a message; a connection
    /// coming up clears the last error.
    pub fn set_connected(&mut self, connected: bool, message: &str)
        ensures
            final(self)@ == (StatusModel {
                connected,
                message: message@,
                last_error: if connected {
                    None
                } else {
                    old(self)@.last_error
                },
                ..old(self)@
            }),
    {
        self.inner.connected = connected;
        self.inner.message = message.to_owned();
        if connected {
            self.inner.last_error = None;
        }
    }

    /// Records an error: disconnected, with the error as message and last error.
    pub fn set_error(&mut self, message: &str)
        ensures
            final(self)@ == (StatusModel {
                connected: false,
                message: message@,
                last_error: Some(message@),
                ..old(self)@
            }),
    {
        self.inner.connected = false;
        self.inner.message = message.to_owned();
        self.inner.last_error = Some(message.to_owned());
    }
}


/// A status after an error: disconnected, with the error as message and last error.
pub open spec fn error_status(s: StatusModel, message: Seq<char>) -> StatusModel {
    StatusModel { connected: false, message, last_error: Some(message), ..s }
}

pub const PEER_ADDR_MISSING: &'static str = "Peer address not configured";

/// Sets up the status for a sync with the pinned peer and says whether the
/// sync tasks start: not without a pinned peer, and not without a peer
/// address to connect to.
pub fn begin_sync(status: &mut SyncStatus, config: &Config, peer: Option<&PeerIdentity>) -> (r: bool)
    ensures
        match peer {
            None => !r && final(status)@ == (StatusModel {
                connected: false,
                message: NOT_PAIRED@,
                ..old(status)@
            }),
            Some(p) => {
                let paired = StatusModel {
                    paired: true,
                    peer_device_id: Some(p.device_id@),
                    peer_fingerprint: Some(fingerprint(p.cert_der@)),
                    ..old(status)@
                };
                if is_blank(config.peer_addr@) {
                    !r && final(status)@ == (StatusModel {
                        connected: false,
                        message: PEER_ADDR_MISSING@,
                        ..paired
                    })
                } else {
                    r && final(status)@ == paired
                }
            },
        },
{
    match peer {
        None => {
            status.set_connected(false, NOT_PAIRED);
            false
        },
        Some(p) => {
            status.set_paired(p);
            if !config.has_peer_addr() {
                status.set_connected(false, PEER_ADDR_MISSING);
                return false;
            }
            true
        },
    }
}

/// The first wait before reconnecting, and the longest, in seconds.
pub const INITIAL_BACKOFF_SECS: u64 = 1;

pub const MAX_BACKOFF_SECS: u64 = 30;

/// The wait after another failed connection attempt: twice the last one, at
/// most thirty seconds.
pub fn next_backoff(secs: u64) -> (r: u64)
    ensures
        r == backoff_after(secs),
        r == if 2 * secs < MAX_BACKOFF_SECS {
            2 * secs
        } else {
            MAX_BACKOFF_SECS as int
        },
{
    if secs < MAX_BACKOFF_SECS / 2 {
        secs * 2
    } else {
        MAX_BACKOFF_SECS
    }
}

/// The wait after another failed attempt, when the last one was `secs`.
pub open spec fn backoff_after(secs: u64) -> int {
    if 2 * secs < MAX_BACKOFF_SECS {
        2 * secs
    } else {
        MAX_BACKOFF_SECS as int
    }
}

/// From a wait between one and thirty seconds, the next wait is twice as
/// long, or thirty seconds where twice would reach thirty; it never shrinks
/// and stays between one and thirty seconds; from one second it takes five
/// failures to reach thirty.
pub proof fn lemma_backoff_doubles_to_cap(secs: u64)
    requires
        1 <= secs <= 30,
    ensures
        backoff_after(secs) == 2 * secs || (backoff_after(secs) == 30 && 2 * secs >= 30),
        2 * secs < 30 ==> backoff_after(secs) == 2 * secs,
        secs <= backoff_after(secs) <= 30,
        backoff_after(1) == 2 && backoff_after(2) == 4 && backoff_after(4) == 8 && backoff_after(8)
            == 16 && backoff_after(16) == 30 && backoff_after(30) == 30,
{
}

/// However many attempts fail, the wait stays between one and thirty seconds.
pub proof fn lemma_backoff_bounded(secs: u64)
    requires
        INITIAL_BACKOFF_SECS <= secs <= MAX_BACKOFF_SECS,
    ensures
        INITIAL_BACKOFF_SECS <= (if 2 * secs < MAX_BACKOFF_SECS {
            2 * secs
        } else {
            MAX_BACKOFF_SECS as int
        }) <= MAX_BACKOFF_SECS,
{
}

/// What becomes of a connection once the peer has said hello.
#[derive(Debug)]
pub enum ConnectionVerdict {
    /// The connection is used.
    Keep,
    /// The connection is the duplicate that the other side keeps.
    Drop,
    /// The peer is not the pinned one.
    Reject(String),
}

/// Judges a connection whose peer said hello with `peer_id`: a peer other
/// than the pinned one is rejected; of the two connections between the same
/// two devices, only the one that `should_keep_connection` picks is kept.
pub fn judge_connection(
    local_device_id: &str,
    expected: &PeerIdentity,
    peer_id: &str,
    side: ConnectionSide,
) -> (r: ConnectionVerdict)
    ensures
        peer_id@ != expected.device_id@ ==> (r matches ConnectionVerdict::Reject(m) && m@
            == PEER_MISMATCH@),
        peer_id@ == expected.device_id@ ==> if keeps_connection(
            local_device_id@,
            expected.device_id@,
            side,
        ) {
            r is Keep
        } else {
            r is Drop
        },
{
    match verify_expected_peer(peer_id, expected) {
        Err(e) => ConnectionVerdict::Reject(e),
        Ok(()) => if should_keep_connection(local_device_id, expected.device_id.as_str(), side) {
            ConnectionVerdict::Keep
        } else {
            ConnectionVerdict::Drop
        },
    }
}

pub const REMOTE_REJECTED: &'static str = "Remote clipboard rejected: ";

pub const PEER_ERROR: &'static str = "Peer error: ";

pub const UNEXPECTED_HELLO: &'static str = "Unexpected hello";

/// What a connection does with a frame from the peer: a clipboard update
/// goes through the echo suppressor and yields the text to write to the
/// local clipboard, if any; a refused update, an error frame and a stray
/// hello are recorded as errors; pings and pongs change nothing.
pub fn handle_peer_frame(
    echo: &mut EchoSuppressor,
    status: &mut SyncStatus,
    frame: &Frame,
    max_text_bytes: usize,
) -> (r: Option<String>)
    ensures
        match *frame {
            Frame::ClipboardText { .. } => {
                let (s1, out) = remote_step(old(echo)@, *frame, max_text_bytes);
                &&& final(echo)@ == s1
                &&& match out {
                    Ok(Some(t)) => r is Some && r->Some_0@ == t && final(status)@ == old(status)@,
                    Ok(None) => r is None && final(status)@ == old(status)@,
                    Err(e) => r is None && final(status)@ == error_status(
                        old(status)@,
                        REMOTE_REJECTED@ + e,
                    ),
                }
            },
            Frame::Error { message } => r is None && final(echo)@ == old(echo)@ && final(status)@
                == error_status(old(status)@, PEER_ERROR@ + message@),
            Frame::Hello { .. } => r is None && final(echo)@ == old(echo)@ && final(status)@
                == error_status(old(status)@, UNEXPECTED_HELLO@),
            _ => r is None && final(echo)@ == old(echo)@ && final(status)@ == old(status)@,
        },
{
    match frame {
        Frame::ClipboardText { .. } => match echo.remote_text_to_apply(frame, max_text_bytes) {
            Ok(text) => text,
            Err(e) => {
                let mut message = String::from_str(REMOTE_REJECTED);
                message.append(e.as_str());
                status.set_error(message.as_str());
                None
            },
        },
        Frame::Error { message } => {
            let mut text = String::from_str(PEER_ERROR);
            text.append(message.as_str());
            status.set_error(text.as_str());
            None
        },
        Frame::Hello { .. } => {
            status.set_error(UNEXPECTED_HELLO);
            None
        },
        _ => None,
    }
}


/// The one-line summary of the status shown at the top of the window.
pub fn status_headline(s: &SyncStatusSnapshot) -> (r: &'static str)
    ensures
        r@ == if s.connected {
            "Connected"@
        } else if s.paired {
            "Paired (Disconnected)"@
        } else {
            "Not paired"@
        },
{
    if s.connected {
        "Connected"
    } else if s.paired {
        "Paired (Disconnected)"
    } else {
        "Not paired"
    }
}

} // verus!
