//! Pairing two devices with a short code: each side sends a hello with its
//! identity and an ephemeral X25519 public key, both derive a key from the
//! code, the shared secret and the transcript of the two hellos, and each
//! proves with an HMAC over the transcript that it holds the same code.
//!
//! That two sides holding the same code pair, each learning the other's id,
//! name and certificate, is shown step by step: `lemma_host_answers_hello`,
//! `lemma_client_sends_honest_proof`, the check that `on_frame` makes of an
//! honest proof (`honest_proof_is_accepted`), `lemma_host_finishes` and
//! `lemma_client_finishes`.

use vstd::prelude::*;

use crate::crypto::{
    host_name, random_32, random_below_1000, base64_decode, base64_encode, base64_no_pad, base64_no_pad_decode, hkdf_sha256_32,
    hkdf_sha256_okm32, hmac_sha256, hmac_sha256_tag, x25519, x25519_base, x25519_public_key,
    x25519_shared_secret,
};
use crate::json::{json_str, push_lit, write_json_string};
use crate::wire::{encode_frame, frame_length, framed, header_length};
use crate::secrets::{Identity, PeerIdentity, PeerModel};
use crate::text::{hex_digit, hex_digit_char, is_blank, is_trim_of, is_white_space, push_char, trimmed};
use vstd::utf8::encode_utf8;

verus! {

/// How long a pairing attempt may take, in seconds.
pub const PAIRING_TIMEOUT_SECS: u64 = 120;

/// The largest pairing frame accepted, in bytes.
pub const MAX_PAIR_FRAME_BYTES: usize = 65536;

/// What each proof's HMAC starts with.
pub const PROOF_LABEL: &'static str = "rclippy pairing proof v1";

/// The role names that follow the label in the client's and the host's proofs.
pub const CLIENT_ROLE: &'static str = "client";

pub const HOST_ROLE: &'static str = "host";

/// One side's opening message: its device id and name, its certificate, its
/// ephemeral public key and a nonce, the last three in base64 without padding.
#[derive(Debug, Clone, PartialEq, Eq)]
pub struct PairHello {
    pub device_id: String,
    pub device_name: String,
    pub cert_der: String,
    pub eph_pub: String,
    pub nonce: String,
}

/// What a hello holds.
pub struct HelloModel {
    pub device_id: Seq<char>,
    pub device_name: Seq<char>,
    pub cert_der: Seq<char>,
    pub eph_pub: Seq<char>,
    pub nonce: Seq<char>,
}

impl PairHello {
    pub open spec fn model(&self) -> HelloModel {
        HelloModel {
            device_id: self.device_id@,
            device_name: self.device_name@,
            cert_der: self.cert_der@,
            eph_pub: self.eph_pub@,
            nonce: self.nonce@,
        }
    }

    /// A copy of the hello.
    pub fn copy(&self) -> (r: PairHello)
        ensures
            r.model() == self.model(),
    {
        PairHello {
            device_id: self.device_id.clone(),
            device_name: self.device_name.clone(),
            cert_der: self.cert_der.clone(),
            eph_pub: self.eph_pub.clone(),
            nonce: self.nonce.clone(),
        }
    }
}

/// A message of the pairing exchange.
#[derive(Debug, Clone, PartialEq, Eq)]
pub enum PairFrame {
    Hello(PairHello),
    Proof { proof: String },
}

/// What a pairing message holds.
pub enum FrameModel {
    Hello(HelloModel),
    Proof(Seq<char>),
}

impl PairFrame {
    pub open spec fn model(&self) -> FrameModel {
        match self {
            PairFrame::Hello(h) => FrameModel::Hello(h.model()),
            PairFrame::Proof { proof } => FrameModel::Proof(proof@),
        }
    }
}

/// Why pairing failed.
#[derive(Debug, Clone, Copy, PartialEq, Eq, Structural)]
pub enum PairingError {
    ExpectedClientHello,
    ExpectedClientProof,
    ExpectedHostHello,
    ExpectedHostProof,
    ProofMismatch,
    BadBase64,
    BadPublicKeyLength,
    KeyDerivation,
    FrameTooLarge,
    Finished,
    TimedOut,
}

pub open spec fn pairing_error_message(e: PairingError) -> Seq<char> {
    match e {
        PairingError::ExpectedClientHello => "expected client pairing hello"@,
        PairingError::ExpectedClientProof => "expected client pairing proof"@,
        PairingError::ExpectedHostHello => "expected host pairing hello"@,
        PairingError::ExpectedHostProof => "expected host pairing proof"@,
        PairingError::ProofMismatch => "pairing code proof failed"@,
        PairingError::BadBase64 => "decode base64"@,
        PairingError::BadPublicKeyLength => "invalid pairing public key length"@,
        PairingError::KeyDerivation => "derive pairing key"@,
        PairingError::FrameTooLarge => "pair frame too large"@,
        PairingError::Finished => "pairing already finished"@,
        PairingError::TimedOut => "pairing timed out"@,
    }
}

impl PairingError {
    /// The message shown to the user.
    pub fn message(&self) -> (m: &'static str)
        ensures
            m@ == pairing_error_message(*self),
    {
        match self {
            PairingError::ExpectedClientHello => "expected client pairing hello",
            PairingError::ExpectedClientProof => "expected client pairing proof",
            PairingError::ExpectedHostHello => "expected host pairing hello",
            PairingError::ExpectedHostProof => "expected host pairing proof",
            PairingError::ProofMismatch => "pairing code proof failed",
            PairingError::BadBase64 => "decode base64",
            PairingError::BadPublicKeyLength => "invalid pairing public key length",
            PairingError::KeyDerivation => "derive pairing key",
            PairingError::FrameTooLarge => "pair frame too large",
            PairingError::Finished => "pairing already finished",
            PairingError::TimedOut => "pairing timed out",
        }
    }
}

/// Whether a failed attempt was a stray connection, such as a TLS client
/// probing the pairing port, whose first four bytes announce a frame longer
/// than any pairing frame: the host then waits for the next connection.
pub fn is_ignorable_pairing_probe(err: &PairingError) -> (r: bool)
    ensures
        r == (*err == PairingError::FrameTooLarge),
{
    match err {
        PairingError::FrameTooLarge => true,
        _ => false,
    }
}

// The transcript: the two hellos as the compact JSON array
// `[{"device_id":…,"device_name":…,"cert_der":…,"eph_pub":…,"nonce":…},{…}]`.
pub const HELLO_DEVICE_ID: &'static str = "{\"device_id\":";

pub const HELLO_DEVICE_NAME: &'static str = ",\"device_name\":";

pub const HELLO_CERT_DER: &'static str = ",\"cert_der\":";

pub const HELLO_EPH_PUB: &'static str = ",\"eph_pub\":";

pub const HELLO_NONCE: &'static str = ",\"nonce\":";

pub const HELLO_END: &'static str = "}";

pub const LIST_START: &'static str = "[";

pub const LIST_SEP: &'static str = ",";

pub const LIST_END: &'static str = "]";

/// A hello as compact JSON, its fields in declaration order.
pub open spec fn hello_json(h: HelloModel) -> Seq<u8> {
    encode_utf8(HELLO_DEVICE_ID@) + json_str(encode_utf8(h.device_id)) + encode_utf8(
        HELLO_DEVICE_NAME@,
    ) + json_str(encode_utf8(h.device_name)) + encode_utf8(HELLO_CERT_DER@) + json_str(
        encode_utf8(h.cert_der),
    ) + encode_utf8(HELLO_EPH_PUB@) + json_str(encode_utf8(h.eph_pub)) + encode_utf8(
        HELLO_NONCE@,
    ) + json_str(encode_utf8(h.nonce)) + encode_utf8(HELLO_END@)
}

/// The pair of hellos, client first, as a compact JSON array: what both
/// sides derive the key from and prove over.
pub open spec fn transcript(client: HelloModel, host: HelloModel) -> Seq<u8> {
    encode_utf8(LIST_START@) + hello_json(client) + encode_utf8(LIST_SEP@) + hello_json(host)
        + encode_utf8(LIST_END@)
}

fn write_hello(out: &mut Vec<u8>, h: &PairHello)
    ensures
        final(out)@ == old(out)@ + hello_json(h.model()),
{
    push_lit(out, HELLO_DEVICE_ID.as_bytes());
    write_json_string(out, h.device_id.as_str());
    push_lit(out, HELLO_DEVICE_NAME.as_bytes());
    write_json_string(out, h.device_name.as_str());
    push_lit(out, HELLO_CERT_DER.as_bytes());
    write_json_string(out, h.cert_der.as_str());
    push_lit(out, HELLO_EPH_PUB.as_bytes());
    write_json_string(out, h.eph_pub.as_str());
    push_lit(out, HELLO_NONCE.as_bytes());
    write_json_string(out, h.nonce.as_str());
    push_lit(out, HELLO_END.as_bytes());
    assert(final(out)@ =~= old(out)@ + hello_json(h.model()));
}

/// The transcript of the two hellos.
pub fn transcript_bytes(client: &PairHello, host: &PairHello) -> (r: Vec<u8>)
    ensures
        r@ == transcript(client.model(), host.model()),
{
    let mut out: Vec<u8> = Vec::new();
    push_lit(&mut out, LIST_START.as_bytes());
    write_hello(&mut out, client);
    push_lit(&mut out, LIST_SEP.as_bytes());
    write_hello(&mut out, host);
    push_lit(&mut out, LIST_END.as_bytes());
    assert(out@ =~= transcript(client.model(), host.model()));
    out
}

/// The public key that a hello's base64 field holds: it must decode, to
/// thirty-two bytes.
pub open spec fn public_key_of(text: Seq<char>) -> Result<Seq<u8>, PairingError> {
    match base64_no_pad_decode(text) {
        None => Err(PairingError::BadBase64),
        Some(b) => if b.len() == 32 {
            Ok(b)
        } else {
            Err(PairingError::BadPublicKeyLength)
        },
    }
}

/// The other side's public key, seen from the side holding `own_secret`:
/// the host's where the client's hello carries this side's own public key,
/// the client's otherwise.
pub open spec fn peer_public(own_secret: Seq<u8>, client: HelloModel, host: HelloModel) -> Result<
    Seq<u8>,
    PairingError,
> {
    match base64_no_pad_decode(client.eph_pub) {
        None => Err(PairingError::BadBase64),
        Some(c) => if x25519_base(own_secret) == c {
            public_key_of(host.eph_pub)
        } else {
            public_key_of(client.eph_pub)
        },
    }
}

/// The key derived from the code, the shared secret and the transcript:
/// HKDF-SHA256 with the code as salt.
pub open spec fn code_key(code: Seq<char>, shared: Seq<u8>, transcript: Seq<u8>) -> Seq<u8> {
    hkdf_sha256_okm32(encode_utf8(code), shared, transcript)
}

/// The key that the side holding `own_secret` derives.
pub open spec fn pair_key(
    code: Seq<char>,
    own_secret: Seq<u8>,
    client: HelloModel,
    host: HelloModel,
) -> Result<Seq<u8>, PairingError> {
    match peer_public(own_secret, client, host) {
        Err(e) => Err(e),
        Ok(p) => Ok(code_key(code, x25519(own_secret, p), transcript(client, host))),
    }
}

/// A side's proof: HMAC-SHA256 under the key of the label, the role and the transcript.
pub open spec fn proof_tag(key: Seq<u8>, role: Seq<char>, transcript: Seq<u8>) -> Seq<u8> {
    hmac_sha256(key, encode_utf8(PROOF_LABEL@) + encode_utf8(role) + transcript)
}

/// The peer that a hello describes: its certificate field must decode.
pub open spec fn peer_of_hello(h: HelloModel) -> Result<PeerModel, PairingError> {
    match base64_no_pad_decode(h.cert_der) {
        None => Err(PairingError::BadBase64),
        Some(c) => Ok(PeerModel { device_id: h.device_id, device_name: h.device_name, cert_der: c }),
    }
}

/// Decodes a base64 field.
pub fn decode_b64(text: &str) -> (r: Result<Vec<u8>, PairingError>)
    ensures
        match base64_no_pad_decode(text@) {
            Some(b) => r is Ok && r->Ok_0@ == b,
            None => r == Err::<Vec<u8>, PairingError>(PairingError::BadBase64),
        },
        forall|b: Seq<u8>| #[trigger] base64_no_pad(b) == text@ ==> r is Ok && r->Ok_0@ == b,
{
    match base64_decode(text) {
        Some(v) => Ok(v),
        None => Err(PairingError::BadBase64),
    }
}

/// Decodes a public key field.
pub fn decode_public_key(text: &str) -> (r: Result<[u8; 32], PairingError>)
    ensures
        match public_key_of(text@) {
            Ok(k) => r is Ok && r->Ok_0@ == k,
            Err(e) => r == Err::<[u8; 32], PairingError>(e),
        },
{
    let bytes = decode_b64(text)?;
    if bytes.len() != 32 {
        return Err(PairingError::BadPublicKeyLength);
    }
    let mut key = [0u8; 32];
    let mut i: usize = 0;
    while i < 32
        invariant
            bytes@.len() == 32,
            i <= 32,
            forall|j: int| 0 <= j < i ==> key@[j] == bytes@[j],
        decreases 32 - i,
    {
        key[i] = bytes[i];
        i = i + 1;
    }
    assert(key@ =~= bytes@);
    Ok(key)
}

fn bytes_equal(a: &[u8], b: &[u8]) -> (r: bool)
    ensures
        r == (a@ == b@),
{
    if a.len() != b.len() {
        return false;
    }
    let n = a.len();
    let mut i: usize = 0;
    while i < n
        invariant
            n == a@.len(),
            n == b@.len(),
            i <= n,
            forall|j: int| 0 <= j < i ==> a@[j] == b@[j],
        decreases n - i,
    {
        if a[i] != b[i] {
            return false;
        }
        i = i + 1;
    }
    assert(a@ =~= b@);
    true
}

/// Whether the client's hello carries the public key of `secret`.
fn own_public_matches(secret: &[u8; 32], hello: &PairHello) -> (r: Result<bool, PairingError>)
    ensures
        match base64_no_pad_decode(hello.eph_pub@) {
            Some(c) => r == Ok::<bool, PairingError>(x25519_base(secret@) == c),
            None => r == Err::<bool, PairingError>(PairingError::BadBase64),
        },
{
    let own_public = x25519_public_key(secret);
    let decoded = decode_b64(hello.eph_pub.as_str())?;
    Ok(bytes_equal(own_public.as_slice(), decoded.as_slice()))
}

/// HKDF-SHA256 of the shared secret, salted with the code, with the
/// transcript as info, to thirty-two bytes.
pub fn derive_pair_key_bytes(code: &str, shared: &[u8], transcript: &[u8]) -> (r: Result<
    [u8; 32],
    PairingError,
>)
    ensures
        r is Ok,
        r->Ok_0@ == code_key(code@, shared@, transcript@),
{
    match hkdf_sha256_32(code.as_bytes(), shared, transcript) {
        Some(key) => Ok(key),
        None => Err(PairingError::KeyDerivation),
    }
}

/// The key that the side holding `own_secret` derives from the code and the two hellos.
pub fn derive_pair_key(
    code: &str,
    own_secret: &[u8; 32],
    client_hello: &PairHello,
    host_hello: &PairHello,
) -> (r: Result<[u8; 32], PairingError>)
    ensures
        match pair_key(code@, own_secret@, client_hello.model(), host_hello.model()) {
            Ok(k) => r is Ok && r->Ok_0@ == k,
            Err(e) => r == Err::<[u8; 32], PairingError>(e),
        },
{
    let peer_pub = if own_public_matches(own_secret, client_hello)? {
        decode_public_key(host_hello.eph_pub.as_str())?
    } else {
        decode_public_key(client_hello.eph_pub.as_str())?
    };
    let shared = x25519_shared_secret(own_secret, &peer_pub);
    let transcript = transcript_bytes(client_hello, host_hello);
    derive_pair_key_bytes(code, shared.as_slice(), transcript.as_slice())
}

/// A side's proof that it holds the key.
pub fn pairing_proof(key: &[u8], role: &str, transcript: &[u8]) -> (r: Vec<u8>)
    ensures
        r@ == proof_tag(key@, role@, transcript@),
{
    let mut data: Vec<u8> = Vec::new();
    push_lit(&mut data, PROOF_LABEL.as_bytes());
    push_lit(&mut data, role.as_bytes());
    push_lit(&mut data, transcript);
    match hmac_sha256_tag(key, data.as_slice()) {
        Some(tag) => tag,
        None => Vec::new(),
    }
}

/// The peer that a hello describes.
pub fn peer_from_hello(hello: PairHello) -> (r: Result<PeerIdentity, PairingError>)
    ensures
        match peer_of_hello(hello.model()) {
            Ok(p) => r is Ok && r->Ok_0.model() == p,
            Err(e) => r == Err::<PeerIdentity, PairingError>(e),
        },
{
    let cert_der = decode_b64(hello.cert_der.as_str())?;
    Ok(PeerIdentity { device_id: hello.device_id, device_name: hello.device_name, cert_der })
}


/// Which end of the exchange a session is: the host waits for the client's hello.
#[derive(Debug, Clone, Copy, PartialEq, Eq, Structural)]
pub enum PairRole {
    Host,
    Client,
}

/// Where a session stands.
#[derive(Debug, Clone, Copy, PartialEq, Eq, Structural)]
pub enum PairStage {
    AwaitHello,
    AwaitProof,
    Done,
    Failed,
}

/// What the caller does after a session has taken a frame: send a frame and
/// wait for the next, send a frame and then fail or finish with the peer,
/// or finish with the peer.
#[derive(Debug)]
pub enum PairAction {
    Send(PairFrame),
    SendThenFail(PairFrame, PairingError),
    SendThenFinish(PairFrame, PeerIdentity),
    Finish(PeerIdentity),
}

pub enum ActionModel {
    Send(FrameModel),
    SendThenFail(FrameModel, PairingError),
    SendThenFinish(FrameModel, PeerModel),
    Finish(PeerModel),
}

impl PairAction {
    pub open spec fn model(&self) -> ActionModel {
        match self {
            PairAction::Send(f) => ActionModel::Send(f.model()),
            PairAction::SendThenFail(f, e) => ActionModel::SendThenFail(f.model(), *e),
            PairAction::SendThenFinish(f, p) => ActionModel::SendThenFinish(f.model(), p.model()),
            PairAction::Finish(p) => ActionModel::Finish(p.model()),
        }
    }
}

pub open spec fn outcome_model(r: Result<PairAction, PairingError>) -> Result<ActionModel, PairingError> {
    match r {
        Ok(a) => Ok(a.model()),
        Err(e) => Err(e),
    }
}

/// One side of a pairing exchange.
#[derive(Debug)]
pub struct PairingSession {
    role: PairRole,
    code: String,
    secret: [u8; 32],
    own: PairHello,
    peer: Option<PairHello>,
    stage: PairStage,
}

/// What a session holds: its role, the code, its ephemeral secret, its own
/// hello, the other side's hello once received, and its stage.
pub struct SessionModel {
    pub role: PairRole,
    pub code: Seq<char>,
    pub secret: Seq<u8>,
    pub own: HelloModel,
    pub peer: Option<HelloModel>,
    pub stage: PairStage,
}

/// A well-formed session: its hello carries, in base64, the public key of
/// its secret; that text and the certificate text decode; the secret's
/// public key agrees with any other secret on the shared secret; and a
/// session waiting for a proof has the other side's hello.
pub open spec fn session_wf(m: SessionModel) -> bool {
    let pk = x25519_base(m.secret);
    &&& m.secret.len() == 32
    &&& pk.len() == 32
    &&& m.own.eph_pub == base64_no_pad(pk)
    &&& base64_no_pad_decode(m.own.eph_pub) == Some(pk)
    &&& base64_no_pad_decode(m.own.cert_der) is Some
    &&& forall|o: Seq<u8>| o.len() == 32 ==> #[trigger] x25519(o, pk) == x25519(m.secret, x25519_base(o))
    &&& (m.stage == PairStage::AwaitProof ==> m.peer is Some)
}

/// The client's hello and the host's hello, once the other side's has come.
pub open spec fn hellos(m: SessionModel) -> (HelloModel, HelloModel) {
    if m.role == PairRole::Host {
        (m.peer->0, m.own)
    } else {
        (m.own, m.peer->0)
    }
}

/// The role name of the proof that a session checks.
pub open spec fn peer_role(r: PairRole) -> Seq<char> {
    if r == PairRole::Host {
        CLIENT_ROLE@
    } else {
        HOST_ROLE@
    }
}

pub open spec fn with_stage(m: SessionModel, stage: PairStage) -> SessionModel {
    SessionModel { stage, ..m }
}

/// A session waiting for a hello takes one: the host answers with its own
/// hello (and fails right after it, where no key can be derived); the
/// client sends its proof.
pub open spec fn step_hello(m: SessionModel, h: HelloModel) -> (SessionModel, Result<ActionModel, PairingError>) {
    let m1 = SessionModel { peer: Some(h), ..m };
    let (c, hh) = hellos(m1);
    match pair_key(m.code, m.secret, c, hh) {
        Err(e) => if m.role == PairRole::Host {
            (with_stage(m1, PairStage::Failed), Ok(ActionModel::SendThenFail(FrameModel::Hello(m.own), e)))
        } else {
            (with_stage(m1, PairStage::Failed), Err(e))
        },
        Ok(k) => if m.role == PairRole::Host {
            (with_stage(m1, PairStage::AwaitProof), Ok(ActionModel::Send(FrameModel::Hello(m.own))))
        } else {
            (
                with_stage(m1, PairStage::AwaitProof),
                Ok(ActionModel::Send(FrameModel::Proof(base64_no_pad(proof_tag(k, CLIENT_ROLE@, transcript(c, hh)))))),
            )
        },
    }
}

/// A session waiting for a proof takes one: the proof must decode to the
/// other side's tag under the derived key. The host then sends its own proof
/// and finishes with the client; the client finishes with the host.
pub open spec fn step_proof(m: SessionModel, p: Seq<char>) -> (SessionModel, Result<ActionModel, PairingError>) {
    let (c, hh) = hellos(m);
    let t = transcript(c, hh);
    let failed = with_stage(m, PairStage::Failed);
    match pair_key(m.code, m.secret, c, hh) {
        Err(e) => (failed, Err(e)),
        Ok(k) => match base64_no_pad_decode(p) {
            None => (failed, Err(PairingError::BadBase64)),
            Some(b) => if b != proof_tag(k, peer_role(m.role), t) {
                (failed, Err(PairingError::ProofMismatch))
            } else if m.role == PairRole::Host {
                let reply = FrameModel::Proof(base64_no_pad(proof_tag(k, HOST_ROLE@, t)));
                match peer_of_hello(m.peer->0) {
                    Ok(peer) => (with_stage(m, PairStage::Done), Ok(ActionModel::SendThenFinish(reply, peer))),
                    Err(e) => (failed, Ok(ActionModel::SendThenFail(reply, e))),
                }
            } else {
                match peer_of_hello(m.peer->0) {
                    Ok(peer) => (with_stage(m, PairStage::Done), Ok(ActionModel::Finish(peer))),
                    Err(e) => (failed, Err(e)),
                }
            },
        },
    }
}

/// What a session does with a frame: a hello when it waits for one, a proof
/// when it waits for one; any other frame fails the exchange.
pub open spec fn session_step(m: SessionModel, f: FrameModel) -> (SessionModel, Result<ActionModel, PairingError>) {
    match m.stage {
        PairStage::AwaitHello => match f {
            FrameModel::Hello(h) => step_hello(m, h),
            FrameModel::Proof(_) => (
                with_stage(m, PairStage::Failed),
                Err(
                    if m.role == PairRole::Host {
                        PairingError::ExpectedClientHello
                    } else {
                        PairingError::ExpectedHostHello
                    },
                ),
            ),
        },
        PairStage::AwaitProof => match f {
            FrameModel::Proof(p) => step_proof(m, p),
            FrameModel::Hello(_) => (
                with_stage(m, PairStage::Failed),
                Err(
                    if m.role == PairRole::Host {
                        PairingError::ExpectedClientProof
                    } else {
                        PairingError::ExpectedHostProof
                    },
                ),
            ),
        },
        _ => (m, Err(PairingError::Finished)),
    }
}

/// The proof that the other side computes when it holds the same code and
/// a secret `other` whose public key its hello carries.
pub open spec fn honest_proof(m: SessionModel, other: Seq<u8>) -> Seq<char> {
    let (c, hh) = hellos(m);
    let t = transcript(c, hh);
    base64_no_pad(
        proof_tag(code_key(m.code, x25519(other, x25519_base(m.secret)), t), peer_role(m.role), t),
    )
}

/// Whether a proof text is the one an honest other side sends: a side whose
/// hello carries the public key of its secret, and which holds the same code.
pub open spec fn is_honest_proof(m: SessionModel, p: Seq<char>) -> bool {
    exists|other: Seq<u8>|
        {
            &&& other.len() == 32
            &&& x25519_base(other).len() == 32
            &&& m.peer is Some
            &&& base64_no_pad_decode(m.peer->0.eph_pub) == Some(x25519_base(other))
            &&& p == #[trigger] honest_proof(m, other)
        }
}

/// The tag that a session expects the other side's proof to decode to.
pub open spec fn expected_tag(m: SessionModel) -> Seq<u8> {
    let (c, hh) = hellos(m);
    proof_tag(pair_key(m.code, m.secret, c, hh)->Ok_0, peer_role(m.role), transcript(c, hh))
}

/// Whether a proof passes the session's check: the key derives and the text
/// decodes to the expected tag.
pub open spec fn proof_checks_out(m: SessionModel, p: Seq<char>) -> bool {
    let (c, hh) = hellos(m);
    &&& pair_key(m.code, m.secret, c, hh) is Ok
    &&& base64_no_pad_decode(p) == Some(expected_tag(m))
}

/// A session waiting for a proof accepts the one that an honest other side
/// holding the same code sends.
pub open spec fn honest_proof_is_accepted(m: SessionModel, f: FrameModel) -> bool {
    match f {
        FrameModel::Proof(p) => m.stage == PairStage::AwaitProof && is_honest_proof(m, p)
            ==> proof_checks_out(m, p),
        FrameModel::Hello(_) => true,
    }
}

impl PairingSession {
    pub closed spec fn model(&self) -> SessionModel {
        SessionModel {
            role: self.role,
            code: self.code@,
            secret: self.secret@,
            own: self.own.model(),
            peer: match self.peer {
                Some(h) => Some(h.model()),
                None => None,
            },
            stage: self.stage,
        }
    }

    pub open spec fn wf(&self) -> bool {
        session_wf(self.model())
    }

    /// The hello this side sends: the client sends it first, the host in
    /// answer to the client's.
    pub fn hello_frame(&self) -> (f: PairFrame)
        ensures
            f.model() == FrameModel::Hello(self.model().own),
    {
        PairFrame::Hello(self.own.copy())
    }

    /// Which end of the exchange the session is.
    pub fn role(&self) -> (r: PairRole)
        ensures
            r == self.model().role,
    {
        self.role
    }

    /// Where the session stands.
    pub fn stage(&self) -> (s: PairStage)
        ensures
            s == self.model().stage,
    {
        self.stage
    }

    /// Takes the next frame from the other side and says what to do.
    pub fn on_frame(&mut self, frame: PairFrame) -> (r: Result<PairAction, PairingError>)
        requires
            old(self).wf(),
        ensures
            final(self).wf(),
            (final(self).model(), outcome_model(r)) == session_step(old(self).model(), frame.model()),
            honest_proof_is_accepted(old(self).model(), frame.model()),
    {
        match self.stage {
            PairStage::AwaitHello => match frame {
                PairFrame::Hello(h) => self.take_hello(h),
                PairFrame::Proof { .. } => {
                    self.stage = PairStage::Failed;
                    Err(
                        match self.role {
                            PairRole::Host => PairingError::ExpectedClientHello,
                            PairRole::Client => PairingError::ExpectedHostHello,
                        },
                    )
                },
            },
            PairStage::AwaitProof => match frame {
                PairFrame::Proof { proof } => self.take_proof(proof),
                PairFrame::Hello(_) => {
                    self.stage = PairStage::Failed;
                    Err(
                        match self.role {
                            PairRole::Host => PairingError::ExpectedClientProof,
                            PairRole::Client => PairingError::ExpectedHostProof,
                        },
                    )
                },
            },
            _ => Err(PairingError::Finished),
        }
    }

    fn take_hello(&mut self, h: PairHello) -> (r: Result<PairAction, PairingError>)
        requires
            old(self).wf(),
            old(self).model().stage == PairStage::AwaitHello,
        ensures
            final(self).wf(),
            (final(self).model(), outcome_model(r)) == step_hello(old(self).model(), h.model()),
    {
        let key = match self.role {
            PairRole::Host => derive_pair_key(self.code.as_str(), &self.secret, &h, &self.own),
            PairRole::Client => derive_pair_key(self.code.as_str(), &self.secret, &self.own, &h),
        };
        let transcript = match self.role {
            PairRole::Host => transcript_bytes(&h, &self.own),
            PairRole::Client => transcript_bytes(&self.own, &h),
        };
        self.peer = Some(h);
        match key {
            Err(e) => {
                self.stage = PairStage::Failed;
                match self.role {
                    PairRole::Host => Ok(PairAction::SendThenFail(PairFrame::Hello(self.own.copy()), e)),
                    PairRole::Client => Err(e),
                }
            },
            Ok(k) => {
                self.stage = PairStage::AwaitProof;
                match self.role {
                    PairRole::Host => Ok(PairAction::Send(PairFrame::Hello(self.own.copy()))),
                    PairRole::Client => {
                        let tag = pairing_proof(k.as_slice(), CLIENT_ROLE, transcript.as_slice());
                        Ok(PairAction::Send(PairFrame::Proof { proof: base64_encode(tag.as_slice()) }))
                    },
                }
            },
        }
    }

    fn take_proof(&mut self, p: String) -> (r: Result<PairAction, PairingError>)
        requires
            old(self).wf(),
            old(self).model().stage == PairStage::AwaitProof,
        ensures
            final(self).wf(),
            (final(self).model(), outcome_model(r)) == step_proof(old(self).model(), p@),
            is_honest_proof(old(self).model(), p@) ==> proof_checks_out(old(self).model(), p@),
    {
        let peer = match &self.peer {
            Some(h) => h.copy(),
            None => {
                return Err(PairingError::Finished);
            },
        };
        let (key, transcript) = match self.role {
            PairRole::Host => (
                derive_pair_key(self.code.as_str(), &self.secret, &peer, &self.own),
                transcript_bytes(&peer, &self.own),
            ),
            PairRole::Client => (
                derive_pair_key(self.code.as_str(), &self.secret, &self.own, &peer),
                transcript_bytes(&self.own, &peer),
            ),
        };
        let k = match key {
            Ok(k) => k,
            Err(e) => {
                self.stage = PairStage::Failed;
                return Err(e);
            },
        };
        let expected = match self.role {
            PairRole::Host => pairing_proof(k.as_slice(), CLIENT_ROLE, transcript.as_slice()),
            PairRole::Client => pairing_proof(k.as_slice(), HOST_ROLE, transcript.as_slice()),
        };
        let received = decode_b64(p.as_str());
        proof {
            let m = old(self).model();
            if is_honest_proof(m, p@) {
                let other = choose|other: Seq<u8>|
                    {
                        &&& other.len() == 32
                        &&& x25519_base(other).len() == 32
                        &&& m.peer is Some
                        &&& base64_no_pad_decode(m.peer->0.eph_pub) == Some(x25519_base(other))
                        &&& p@ == #[trigger] honest_proof(m, other)
                    };
                let pk = x25519_base(m.secret);
                assert(x25519(other, pk) == x25519(m.secret, x25519_base(other)));
            }
        }
        let received = match received {
            Ok(b) => b,
            Err(e) => {
                self.stage = PairStage::Failed;
                return Err(e);
            },
        };
        if !bytes_equal(received.as_slice(), expected.as_slice()) {
            self.stage = PairStage::Failed;
            return Err(PairingError::ProofMismatch);
        }
        match self.role {
            PairRole::Host => {
                let tag = pairing_proof(k.as_slice(), HOST_ROLE, transcript.as_slice());
                let reply = PairFrame::Proof { proof: base64_encode(tag.as_slice()) };
                match peer_from_hello(peer) {
                    Ok(identity) => {
                        self.stage = PairStage::Done;
                        Ok(PairAction::SendThenFinish(reply, identity))
                    },
                    Err(e) => {
                        self.stage = PairStage::Failed;
                        Ok(PairAction::SendThenFail(reply, e))
                    },
                }
            },
            PairRole::Client => match peer_from_hello(peer) {
                Ok(identity) => {
                    self.stage = PairStage::Done;
                    Ok(PairAction::Finish(identity))
                },
                Err(e) => {
                    self.stage = PairStage::Failed;
                    Err(e)
                },
            },
        }
    }
}

/// The hello of a device with the given id, name and certificate, carrying
/// an ephemeral public key and a nonce.
pub open spec fn hello_of(
    device_id: Seq<char>,
    device_name: Seq<char>,
    cert_der: Seq<u8>,
    eph_pub: Seq<u8>,
    nonce: Seq<u8>,
) -> HelloModel {
    HelloModel {
        device_id,
        device_name,
        cert_der: base64_no_pad(cert_der),
        eph_pub: base64_no_pad(eph_pub),
        nonce: base64_no_pad(nonce),
    }
}

/// This device's hello.
pub fn build_hello(identity: &Identity, device_name: String, eph_pub: &[u8], nonce: &[u8]) -> (r:
    PairHello)
    ensures
        r.model() == hello_of(identity.device_id@, device_name@, identity.cert_der@, eph_pub@, nonce@),
        base64_no_pad_decode(r.cert_der@) == Some(identity.cert_der@),
        base64_no_pad_decode(r.eph_pub@) == Some(eph_pub@),
{
    PairHello {
        device_id: identity.device_id.clone(),
        device_name,
        cert_der: base64_encode(identity.cert_der.as_slice()),
        eph_pub: base64_encode(eph_pub),
        nonce: base64_encode(nonce),
    }
}

impl PairingSession {
    /// A session for one side, with the given ephemeral secret and nonce.
    pub fn new(
        role: PairRole,
        code: &str,
        identity: &Identity,
        device_name: String,
        secret: [u8; 32],
        nonce: [u8; 32],
    ) -> (s: PairingSession)
        ensures
            s.wf(),
            s.model() == (SessionModel {
                role,
                code: code@,
                secret: secret@,
                own: hello_of(
                    identity.device_id@,
                    device_name@,
                    identity.cert_der@,
                    x25519_base(secret@),
                    nonce@,
                ),
                peer: None,
                stage: PairStage::AwaitHello,
            }),
            base64_no_pad_decode(s.model().own.cert_der) == Some(identity.cert_der@),
    {
        let public = x25519_public_key(&secret);
        let own = build_hello(identity, device_name, public.as_slice(), nonce.as_slice());
        PairingSession {
            role,
            code: String::from_str(code),
            secret,
            own,
            peer: None,
            stage: PairStage::AwaitHello,
        }
    }

    /// A session for one side, with a fresh ephemeral secret and nonce from
    /// the operating system's random source and this machine's name.
    pub fn start(role: PairRole, code: &str, identity: &Identity) -> (s: PairingSession)
        ensures
            s.wf(),
            s.model().role == role,
            s.model().code == code@,
            s.model().own.device_id == identity.device_id@,
            s.model().own.cert_der == base64_no_pad(identity.cert_der@),
            base64_no_pad_decode(s.model().own.cert_der) == Some(identity.cert_der@),
            s.model().peer is None,
            s.model().stage == PairStage::AwaitHello,
    {
        let secret = random_32();
        let nonce = random_32();
        PairingSession::new(role, code, identity, local_device_name(), secret, nonce)
    }
}

/// Pairing, first step: a host and a client that hold the same code, both
/// waiting for a hello, the host given the client's hello answers with its own.
pub proof fn lemma_host_answers_hello(host: SessionModel, client: SessionModel)
    requires
        session_wf(host),
        session_wf(client),
        host.role == PairRole::Host,
        client.role == PairRole::Client,
        host.stage == PairStage::AwaitHello,
        client.stage == PairStage::AwaitHello,
        host.code == client.code,
    ensures
        session_step(host, FrameModel::Hello(client.own)) == (
        SessionModel { peer: Some(client.own), stage: PairStage::AwaitProof, ..host },
        Ok::<ActionModel, PairingError>(ActionModel::Send(FrameModel::Hello(host.own))),
        ),
{
    let m1 = SessionModel { peer: Some(client.own), ..host };
    assert(hellos(m1) == (client.own, host.own));
}

/// Pairing, second step: the client, given the host's hello, sends the proof
/// that an honest client holding the same code sends, by the host's measure.
pub proof fn lemma_client_sends_honest_proof(host: SessionModel, client: SessionModel)
    requires
        session_wf(host),
        session_wf(client),
        host.role == PairRole::Host,
        client.role == PairRole::Client,
        host.stage == PairStage::AwaitProof,
        host.peer == Some(client.own),
        client.stage == PairStage::AwaitHello,
        host.code == client.code,
    ensures
        ({
            let (c1, a) = session_step(client, FrameModel::Hello(host.own));
            &&& c1 == SessionModel { peer: Some(host.own), stage: PairStage::AwaitProof, ..client }
            &&& a == Ok::<ActionModel, PairingError>(
                ActionModel::Send(FrameModel::Proof(honest_proof(host, client.secret))),
            )
            &&& is_honest_proof(host, honest_proof(host, client.secret))
        }),
{
    let m1 = SessionModel { peer: Some(host.own), ..client };
    assert(hellos(m1) == (client.own, host.own));
    assert(hellos(host) == (client.own, host.own));
    let other = client.secret;
    assert(base64_no_pad_decode(host.peer->0.eph_pub) == Some(x25519_base(other)));
}

/// Pairing, third step: the host, whose check the client's proof passes,
/// sends the proof that an honest host sends, by the client's measure, and
/// finishes with the client's id, name and certificate.
pub proof fn lemma_host_finishes(host: SessionModel, client: SessionModel, p: Seq<char>)
    requires
        session_wf(host),
        session_wf(client),
        host.role == PairRole::Host,
        client.role == PairRole::Client,
        host.stage == PairStage::AwaitProof,
        host.peer == Some(client.own),
        client.stage == PairStage::AwaitProof,
        client.peer == Some(host.own),
        host.code == client.code,
        proof_checks_out(host, p),
    ensures
        session_step(host, FrameModel::Proof(p)) == (
        SessionModel { stage: PairStage::Done, ..host },
        Ok::<ActionModel, PairingError>(
            ActionModel::SendThenFinish(
                FrameModel::Proof(honest_proof(client, host.secret)),
                PeerModel {
                    device_id: client.own.device_id,
                    device_name: client.own.device_name,
                    cert_der: base64_no_pad_decode(client.own.cert_der)->Some_0,
                },
            ),
        ),
        ),
        is_honest_proof(client, honest_proof(client, host.secret)),
{
    assert(hellos(host) == (client.own, host.own));
    assert(hellos(client) == (client.own, host.own));
    let hs = host.secret;
    let cs = client.secret;
    assert(base64_no_pad_decode(client.own.eph_pub) == Some(x25519_base(cs)));
    assert(base64_no_pad_decode(client.peer->0.eph_pub) == Some(x25519_base(hs)));
}

/// Pairing, last step: the client, whose check the host's proof passes,
/// finishes with the host's id, name and certificate.
pub proof fn lemma_client_finishes(host: SessionModel, client: SessionModel, q: Seq<char>)
    requires
        session_wf(host),
        session_wf(client),
        client.role == PairRole::Client,
        client.stage == PairStage::AwaitProof,
        client.peer == Some(host.own),
        proof_checks_out(client, q),
    ensures
        session_step(client, FrameModel::Proof(q)) == (
        SessionModel { stage: PairStage::Done, ..client },
        Ok::<ActionModel, PairingError>(
            ActionModel::Finish(
                PeerModel {
                    device_id: host.own.device_id,
                    device_name: host.own.device_name,
                    cert_der: base64_no_pad_decode(host.own.cert_der)->Some_0,
                },
            ),
        ),
        ),
{
    assert(hellos(client) == (client.own, host.own));
}


/// A proof that does not pass the session's check ends the exchange with an
/// error, whatever else it holds; an exchange that has ended takes no more
/// frames and stays as it is.
pub proof fn lemma_unchecked_proof_refused(m: SessionModel, f: FrameModel)
    requires
        session_wf(m),
    ensures
        m.stage == PairStage::AwaitProof && (f matches FrameModel::Proof(p) && !proof_checks_out(m, p))
            ==> session_step(m, f).1 is Err && session_step(m, f).0.stage == PairStage::Failed,
        (m.stage == PairStage::Done || m.stage == PairStage::Failed) ==> session_step(m, f) == (
        m,
        Err::<ActionModel, PairingError>(PairingError::Finished),
        ),
        (session_step(m, f).1 matches Ok(ActionModel::Finish(_)) || session_step(m, f).1 matches Ok(
            ActionModel::SendThenFinish(_, _),
        )) ==> (m.stage == PairStage::AwaitProof && (f matches FrameModel::Proof(p) && proof_checks_out(
            m,
            p,
        )) && session_step(m, f).0.stage == PairStage::Done),
{
}

/// The name used where the machine's name is unknown or blank.
pub const UNKNOWN_DEVICE: &'static str = "Unknown device";

/// The device name sent in a hello: the host name, trimmed, or
/// `Unknown device` where there is none or it is blank.
pub fn device_name_from(host_name: Option<String>) -> (r: String)
    ensures
        match host_name {
            Some(h) => if is_blank(h@) {
                r@ == UNKNOWN_DEVICE@
            } else {
                is_trim_of(r@, h@)
            },
            None => r@ == UNKNOWN_DEVICE@,
        },
        !is_blank(r@),
{
    proof {
        reveal_strlit("Unknown device");
        assert(!is_white_space(UNKNOWN_DEVICE@[0]));
    }
    match host_name {
        Some(h) => {
            let name = trimmed(h.as_str());
            if name.unicode_len() == 0 {
                String::from_str(UNKNOWN_DEVICE)
            } else {
                name
            }
        },
        None => String::from_str(UNKNOWN_DEVICE),
    }
}

/// This machine's name, as sent in a hello. It is never blank.
pub fn local_device_name() -> (r: String)
    ensures
        !is_blank(r@),
{
    device_name_from(host_name())
}

/// The three decimal digits of a number below 1000, zero-padded.
pub open spec fn three_digits(n: int) -> Seq<char> {
    seq![hex_digit(n / 100), hex_digit(n / 10 % 10), hex_digit(n % 10)]
}

/// A pairing code: two zero-padded three-digit numbers joined by a dash.
pub open spec fn pairing_code_text(a: int, b: int) -> Seq<char> {
    three_digits(a) + seq!['-'] + three_digits(b)
}

fn push_three_digits(out: &mut String, n: u32)
    requires
        n < 1000,
    ensures
        final(out)@ == old(out)@ + three_digits(n as int),
{
    push_char(out, hex_digit_char((n / 100) as u8));
    push_char(out, hex_digit_char((n / 10 % 10) as u8));
    push_char(out, hex_digit_char((n % 10) as u8));
    assert(final(out)@ =~= old(out)@ + three_digits(n as int));
}

/// The pairing code of two numbers below 1000, as `{:03}-{:03}` formats them.
pub fn format_pairing_code(a: u32, b: u32) -> (r: String)
    requires
        a < 1000,
        b < 1000,
    ensures
        r@ == pairing_code_text(a as int, b as int),
{
    let mut out = String::new();
    push_three_digits(&mut out, a);
    push_char(&mut out, '-');
    push_three_digits(&mut out, b);
    assert(out@ =~= pairing_code_text(a as int, b as int));
    out
}

/// A fresh pairing code of two random numbers below 1000.
pub fn generate_pairing_code() -> (r: String)
    ensures
        exists|a: int, b: int| 0 <= a < 1000 && 0 <= b < 1000 && r@ == #[trigger] pairing_code_text(a, b),
{
    let a = random_below_1000();
    let b = random_below_1000();
    format_pairing_code(a, b)
}


/// The payload length that a pairing frame's header announces; above the
/// pairing limit the frame is too large, which is how a stray connection,
/// such as a TLS probe, shows itself.
pub fn pair_frame_length(header: &[u8]) -> (r: Result<usize, PairingError>)
    requires
        header@.len() == 4,
    ensures
        match header_length(header@, MAX_PAIR_FRAME_BYTES) {
            Ok(n) => r == Ok::<usize, PairingError>(n as usize),
            Err(_) => r == Err::<usize, PairingError>(PairingError::FrameTooLarge),
        },
{
    match frame_length(header, MAX_PAIR_FRAME_BYTES) {
        Ok(n) => Ok(n),
        Err(_) => Err(PairingError::FrameTooLarge),
    }
}

/// Frames the encoded bytes of a pairing message, refusing more than the
/// pairing limit.
pub fn frame_pair_payload(payload: &[u8]) -> (r: Result<Vec<u8>, PairingError>)
    ensures
        payload@.len() > MAX_PAIR_FRAME_BYTES ==> r == Err::<Vec<u8>, PairingError>(
            PairingError::FrameTooLarge,
        ),
        payload@.len() <= MAX_PAIR_FRAME_BYTES ==> (r matches Ok(bytes) && bytes@ == framed(
            payload@,
        )),
{
    match encode_frame(payload, MAX_PAIR_FRAME_BYTES) {
        Ok(bytes) => Ok(bytes),
        Err(_) => Err(PairingError::FrameTooLarge),
    }
}

} // verus!
