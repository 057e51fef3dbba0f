//! The local identity, the pinned peer, and the vault in the secret store
//! that keeps them.

use vstd::prelude::*;

use crate::crypto::{
    generate_key_pair, key_pair_der, random_16, rcgen_error_message, self_signed_der, sha256,
    sha256_digest, CertRequest, ExtendedKeyUsage, KeyUsage,
};
use crate::json::{json_bytes, json_str, push_lit, write_json_bytes, write_json_string};
use crate::vault_json::{lemma_vault_read_back, read_vault_json, vault_read};
use crate::text::{hex_encode, hex_lower, is_blank, str_eq, str_is_blank};
use vstd::utf8::encode_utf8;

verus! {

/// This device: its id, its self-signed certificate and the certificate's
/// private key, both DER encoded.
#[derive(Debug, Clone, PartialEq, Eq)]
pub struct Identity {
    pub device_id: String,
    pub cert_der: Vec<u8>,
    pub key_der: Vec<u8>,
}

/// The paired device: its id, its name and its pinned certificate.
#[derive(Debug, Clone, PartialEq, Eq)]
pub struct PeerIdentity {
    pub device_id: String,
    pub device_name: String,
    pub cert_der: Vec<u8>,
}

/// The fingerprint of a certificate: the lower-case hex SHA-256 of its DER bytes.
pub open spec fn fingerprint(cert_der: Seq<u8>) -> Seq<char> {
    hex_lower(sha256(cert_der))
}

/// Lower-case hex SHA-256 of a DER certificate.
pub fn cert_fingerprint(cert_der: &[u8]) -> (r: String)
    ensures
        r@ == fingerprint(cert_der@),
{
    let digest = sha256_digest(cert_der);
    hex_encode(digest.as_slice())
}

impl Identity {
    /// A copy of the identity.
    pub fn copy(&self) -> (r: Identity)
        ensures
            r.model() == self.model(),
    {
        Identity {
            device_id: self.device_id.clone(),
            cert_der: copy_bytes(&self.cert_der),
            key_der: copy_bytes(&self.key_der),
        }
    }

    /// The fingerprint of this device's certificate.
    pub fn cert_fingerprint(&self) -> (r: String)
        ensures
            r@ == fingerprint(self.cert_der@),
    {
        cert_fingerprint(self.cert_der.as_slice())
    }
}

impl PeerIdentity {
    /// A copy of the peer identity.
    pub fn copy(&self) -> (r: PeerIdentity)
        ensures
            r.model() == self.model(),
    {
        PeerIdentity {
            device_id: self.device_id.clone(),
            device_name: self.device_name.clone(),
            cert_der: copy_bytes(&self.cert_der),
        }
    }

    /// The peer's name, or its id where the name is blank.
    pub fn display_name(&self) -> (r: &str)
        ensures
            r@ == if is_blank(self.device_name@) {
                self.device_id@
            } else {
                self.device_name@
            },
    {
        if str_is_blank(self.device_name.as_str()) {
            self.device_id.as_str()
        } else {
            self.device_name.as_str()
        }
    }

    /// The fingerprint of the peer's pinned certificate.
    pub fn cert_fingerprint(&self) -> (r: String)
        ensures
            r@ == fingerprint(self.cert_der@),
    {
        cert_fingerprint(self.cert_der.as_slice())
    }
}


/// What an identity holds.
pub struct IdentityModel {
    pub device_id: Seq<char>,
    pub cert_der: Seq<u8>,
    pub key_der: Seq<u8>,
}

/// What a peer identity holds.
pub struct PeerModel {
    pub device_id: Seq<char>,
    pub device_name: Seq<char>,
    pub cert_der: Seq<u8>,
}

impl Identity {
    pub open spec fn model(&self) -> IdentityModel {
        IdentityModel {
            device_id: self.device_id@,
            cert_der: self.cert_der@,
            key_der: self.key_der@,
        }
    }
}

impl PeerIdentity {
    pub open spec fn model(&self) -> PeerModel {
        PeerModel {
            device_id: self.device_id@,
            device_name: self.device_name@,
            cert_der: self.cert_der@,
        }
    }
}

/// Everything kept in the secret store, under one key.
#[derive(Debug, Clone, Default)]
pub struct StoredVault {
    pub identity: Option<Identity>,
    pub peer: Option<PeerIdentity>,
}

/// What the vault holds.
pub struct VaultModel {
    pub identity: Option<IdentityModel>,
    pub peer: Option<PeerModel>,
}

impl StoredVault {
    pub open spec fn model(&self) -> VaultModel {
        VaultModel {
            identity: match self.identity {
                Some(i) => Some(i.model()),
                None => None,
            },
            peer: match self.peer {
                Some(p) => Some(p.model()),
                None => None,
            },
        }
    }
}

pub const TOK_IDENTITY: [u8; 12] = [0x7b, 0x22, 0x69, 0x64, 0x65, 0x6e, 0x74, 0x69, 0x74, 0x79, 0x22, 0x3a];

pub const TOK_DEVICE_ID: [u8; 13] = [
    0x7b,
    0x22,
    0x64,
    0x65,
    0x76,
    0x69,
    0x63,
    0x65,
    0x5f,
    0x69,
    0x64,
    0x22,
    0x3a,
];

pub const TOK_CERT_DER: [u8; 12] = [0x2c, 0x22, 0x63, 0x65, 0x72, 0x74, 0x5f, 0x64, 0x65, 0x72, 0x22, 0x3a];

pub const TOK_KEY_DER: [u8; 11] = [0x2c, 0x22, 0x6b, 0x65, 0x79, 0x5f, 0x64, 0x65, 0x72, 0x22, 0x3a];

pub const TOK_DEVICE_NAME: [u8; 15] = [
    0x2c,
    0x22,
    0x64,
    0x65,
    0x76,
    0x69,
    0x63,
    0x65,
    0x5f,
    0x6e,
    0x61,
    0x6d,
    0x65,
    0x22,
    0x3a,
];

pub const TOK_PEER: [u8; 8] = [0x2c, 0x22, 0x70, 0x65, 0x65, 0x72, 0x22, 0x3a];

pub const TOK_NULL: [u8; 4] = [0x6e, 0x75, 0x6c, 0x6c];

pub const TOK_CLOSE: [u8; 1] = [0x7d];

/// `{"device_id":"…","cert_der":[…],"key_der":[…]}`
pub open spec fn identity_json(m: IdentityModel) -> Seq<u8> {
    TOK_DEVICE_ID@ + json_str(encode_utf8(m.device_id)) + TOK_CERT_DER@ + json_bytes(m.cert_der)
        + TOK_KEY_DER@ + json_bytes(m.key_der) + TOK_CLOSE@
}

/// `{"device_id":"…","device_name":"…","cert_der":[…]}`
pub open spec fn peer_json(m: PeerModel) -> Seq<u8> {
    TOK_DEVICE_ID@ + json_str(encode_utf8(m.device_id)) + TOK_DEVICE_NAME@ + json_str(
        encode_utf8(m.device_name),
    ) + TOK_CERT_DER@ + json_bytes(m.cert_der) + TOK_CLOSE@
}

/// `{"identity":…,"peer":…}`, each part `null` when absent: the compact JSON
/// that `serde_json` writes for the vault.
pub open spec fn vault_json(v: VaultModel) -> Seq<u8> {
    TOK_IDENTITY@ + match v.identity {
        Some(i) => identity_json(i),
        None => TOK_NULL@,
    } + TOK_PEER@ + match v.peer {
        Some(p) => peer_json(p),
        None => TOK_NULL@,
    } + TOK_CLOSE@
}

fn write_identity(out: &mut Vec<u8>, i: &Identity)
    ensures
        final(out)@ == old(out)@ + identity_json(i.model()),
{
    push_lit(out, &TOK_DEVICE_ID);
    write_json_string(out, i.device_id.as_str());
    push_lit(out, &TOK_CERT_DER);
    write_json_bytes(out, i.cert_der.as_slice());
    push_lit(out, &TOK_KEY_DER);
    write_json_bytes(out, i.key_der.as_slice());
    push_lit(out, &TOK_CLOSE);
    assert(final(out)@ =~= old(out)@ + identity_json(i.model()));
}

fn write_peer(out: &mut Vec<u8>, p: &PeerIdentity)
    ensures
        final(out)@ == old(out)@ + peer_json(p.model()),
{
    push_lit(out, &TOK_DEVICE_ID);
    write_json_string(out, p.device_id.as_str());
    push_lit(out, &TOK_DEVICE_NAME);
    write_json_string(out, p.device_name.as_str());
    push_lit(out, &TOK_CERT_DER);
    write_json_bytes(out, p.cert_der.as_slice());
    push_lit(out, &TOK_CLOSE);
    assert(final(out)@ =~= old(out)@ + peer_json(p.model()));
}

/// The bytes the vault is stored as.
pub fn encode_vault(v: &StoredVault) -> (r: Vec<u8>)
    ensures
        r@ == vault_json(v.model()),
{
    let mut out: Vec<u8> = Vec::new();
    push_lit(&mut out, &TOK_IDENTITY);
    match &v.identity {
        Some(i) => write_identity(&mut out, i),
        None => push_lit(&mut out, &TOK_NULL),
    }
    push_lit(&mut out, &TOK_PEER);
    match &v.peer {
        Some(p) => write_peer(&mut out, p),
        None => push_lit(&mut out, &TOK_NULL),
    }
    push_lit(&mut out, &TOK_CLOSE);
    assert(out@ =~= vault_json(v.model()));
    out
}

/// Reads the vault from its stored bytes: every JSON text that `serde_json`
/// reads as a vault gives that vault, whatever its whitespace, the order of
/// its members or the escapes in its strings.
pub fn decode_vault(bytes: &[u8]) -> (r: Option<StoredVault>)
    ensures
        match vault_read(bytes@) {
            Some(m) => r matches Some(v) && v.model() == m,
            None => r is None,
        },
{
    read_vault_json(bytes)
}

/// Reading back a stored vault gives the vault.
pub proof fn lemma_vault_round_trip(v: VaultModel)
    ensures
        vault_read(vault_json(v)) == Some(v),
{
    lemma_vault_read_back(v);
}


/// A store of named secrets, such as the operating
/// system's keychain or `MemorySecretStore`.
pub trait SecretStore {
    /// The secrets held, by name. A store whose contents live outside this
    /// program, such as the operating system's keychain, has no definition
    /// of them here, and nothing is proved of it.
    closed spec fn entries(&self) -> Map<Seq<char>, Seq<u8>> {
        vstd::pervasive::arbitrary()
    }

    /// The error that `get` on `key` gives, as a message, or `None` where
    /// it succeeds. A store held in memory never fails; one such as the
    /// operating system's keychain, which may be locked or unreachable, has
    /// no definition of it here.
    closed spec fn get_error(&self, key: Seq<char>) -> Option<Seq<char>> {
        vstd::pervasive::arbitrary()
    }

    /// The error that `set` of `value` under `key` gives, or `None`.
    closed spec fn set_error(&self, key: Seq<char>, value: Seq<u8>) -> Option<Seq<char>> {
        vstd::pervasive::arbitrary()
    }

    /// The error that `delete` of `key` gives, or `None`.
    closed spec fn delete_error(&self, key: Seq<char>) -> Option<Seq<char>> {
        vstd::pervasive::arbitrary()
    }

    /// The secret stored under `key`, if any.
    fn get(&self, key: &str) -> (r: Result<Option<Vec<u8>>, String>)
        ensures
            match self.get_error(key@) {
                Some(m) => r matches Err(e) && e@ == m,
                None => r matches Ok(v) && match v {
                    Some(bytes) => self.entries().contains_key(key@) && self.entries()[key@]
                        == bytes@,
                    None => !self.entries().contains_key(key@),
                },
            },
    ;

    /// Stores `value` under `key`; on failure nothing changes.
    fn set(&mut self, key: &str, value: &[u8]) -> (r: Result<(), String>)
        ensures
            match old(self).set_error(key@, value@) {
                Some(m) => (r matches Err(e) && e@ == m) && final(self).entries() == old(
                    self,
                ).entries(),
                None => r is Ok && final(self).entries() == old(self).entries().insert(
                    key@,
                    value@,
                ),
            },
    ;

    /// Removes the secret under `key`, if any; on failure nothing changes.
    fn delete(&mut self, key: &str) -> (r: Result<(), String>)
        ensures
            match old(self).delete_error(key@) {
                Some(m) => (r matches Err(e) && e@ == m) && final(self).entries() == old(
                    self,
                ).entries(),
                None => r is Ok && final(self).entries() == old(self).entries().remove(key@),
            },
    ;
}

/// The map that a list of entries holds: a later entry for a name wins.
pub open spec fn entries_map(s: Seq<(String, Vec<u8>)>) -> Map<Seq<char>, Seq<u8>>
    decreases s.len(),
{
    if s.len() == 0 {
        Map::empty()
    } else {
        entries_map(s.drop_last()).insert(s.last().0@, s.last().1@)
    }
}

/// Secrets held in memory, for tests and for running without a keychain.
#[derive(Debug)]
pub struct MemorySecretStore {
    entries: Vec<(String, Vec<u8>)>,
}

impl Default for MemorySecretStore {
    fn default() -> (s: Self)
        ensures
            s.entries() == Map::<Seq<char>, Seq<u8>>::empty(),
    {
        MemorySecretStore { entries: Vec::new() }
    }
}

fn copy_bytes(v: &Vec<u8>) -> (r: Vec<u8>)
    ensures
        r@ == v@,
{
    let mut out: Vec<u8> = Vec::new();
    let n = v.len();
    let mut i: usize = 0;
    while i < n
        invariant
            n == v@.len(),
            i <= n,
            out@ =~= v@.subrange(0, i as int),
        decreases n - i,
    {
        out.push(v[i]);
        i = i + 1;
    }
    out
}

fn slice_to_vec(v: &[u8]) -> (r: Vec<u8>)
    ensures
        r@ == v@,
{
    let mut out: Vec<u8> = Vec::new();
    let n = v.len();
    let mut i: usize = 0;
    while i < n
        invariant
            n == v@.len(),
            i <= n,
            out@ =~= v@.subrange(0, i as int),
        decreases n - i,
    {
        out.push(v[i]);
        i = i + 1;
    }
    out
}

impl MemorySecretStore {
    /// The entries with every one under `key` left out.
    fn without(&self, key: &str) -> (r: Vec<(String, Vec<u8>)>)
        ensures
            entries_map(r@) == entries_map(self.entries@).remove(key@),
    {
        let mut kept: Vec<(String, Vec<u8>)> = Vec::new();
        let n = self.entries.len();
        let mut i: usize = 0;
        while i < n
            invariant
                n == self.entries@.len(),
                i <= n,
                entries_map(kept@) == entries_map(self.entries@.subrange(0, i as int)).remove(key@),
            decreases n - i,
        {
            let ghost prefix = self.entries@.subrange(0, i + 1);
            assert(prefix.drop_last() =~= self.entries@.subrange(0, i as int));
            let entry = &self.entries[i];
            if !str_eq(entry.0.as_str(), key) {
                let ghost before = kept@;
                kept.push((entry.0.clone(), copy_bytes(&entry.1)));
                assert(kept@.drop_last() =~= before);
                assert(entries_map(kept@) =~= entries_map(prefix).remove(key@));
            } else {
                assert(entries_map(kept@) =~= entries_map(prefix).remove(key@));
            }
            i = i + 1;
        }
        assert(self.entries@.subrange(0, n as int) =~= self.entries@);
        kept
    }
}

impl SecretStore for MemorySecretStore {
    closed spec fn entries(&self) -> Map<Seq<char>, Seq<u8>> {
        entries_map(self.entries@)
    }

    /// A store in memory never fails.
    open spec fn get_error(&self, key: Seq<char>) -> Option<Seq<char>> {
        None
    }

    open spec fn set_error(&self, key: Seq<char>, value: Seq<u8>) -> Option<Seq<char>> {
        None
    }

    open spec fn delete_error(&self, key: Seq<char>) -> Option<Seq<char>> {
        None
    }

    fn get(&self, key: &str) -> (r: Result<Option<Vec<u8>>, String>) {
        let mut i: usize = self.entries.len();
        assert(self.entries@.subrange(0, i as int) =~= self.entries@);
        while i > 0
            invariant
                i <= self.entries@.len(),
                entries_map(self.entries@).contains_key(key@) == entries_map(
                    self.entries@.subrange(0, i as int),
                ).contains_key(key@),
                entries_map(self.entries@).contains_key(key@) ==> entries_map(self.entries@)[key@]
                    == entries_map(self.entries@.subrange(0, i as int))[key@],
            decreases i,
        {
            let ghost prefix = self.entries@.subrange(0, i as int);
            assert(prefix.drop_last() =~= self.entries@.subrange(0, i - 1));
            let entry = &self.entries[i - 1];
            if str_eq(entry.0.as_str(), key) {
                return Ok(Some(copy_bytes(&entry.1)));
            }
            i = i - 1;
        }
        assert(entries_map(self.entries@.subrange(0, 0)) =~= Map::<Seq<char>, Seq<u8>>::empty());
        Ok(None)
    }

    fn set(&mut self, key: &str, value: &[u8]) -> (r: Result<(), String>) {
        let mut kept = self.without(key);
        let ghost before = kept@;
        kept.push((key.to_owned(), slice_to_vec(value)));
        assert(kept@.drop_last() =~= before);
        assert(entries_map(kept@) =~= entries_map(old(self).entries@).insert(key@, value@));
        self.entries = kept;
        Ok(())
    }

    fn delete(&mut self, key: &str) -> (r: Result<(), String>) {
        self.entries = self.without(key);
        Ok(())
    }
}

/// The name that the vault is stored under.
pub const VAULT_KEY: &'static str = "vault-v1";

pub const INVALID_VAULT: &'static str = "stored secret vault is invalid";

/// The vault that a store holds: an empty one when nothing is stored under
/// `VAULT_KEY`, none when what is stored there is not a vault.
pub open spec fn stored_vault(entries: Map<Seq<char>, Seq<u8>>) -> Option<VaultModel> {
    if !entries.contains_key(VAULT_KEY@) {
        Some(VaultModel { identity: None, peer: None })
    } else {
        vault_read(entries[VAULT_KEY@])
    }
}

/// What is written to a store under `VAULT_KEY` as a vault is the vault
/// that the store then holds.
pub proof fn lemma_vault_write_read(entries: Map<Seq<char>, Seq<u8>>, m: VaultModel)
    ensures
        stored_vault(entries.insert(VAULT_KEY@, vault_json(m))) == Some(m),
{
    lemma_vault_read_back(m);
}

/// What reading the vault from a store gives: the store's error, the
/// invalid-vault error, or the vault.
pub open spec fn read_vault(get_error: Option<Seq<char>>, entries: Map<Seq<char>, Seq<u8>>) -> Result<
    VaultModel,
    Seq<char>,
> {
    match get_error {
        Some(m) => Err(m),
        None => match stored_vault(entries) {
            None => Err(INVALID_VAULT@),
            Some(v) => Ok(v),
        },
    }
}

/// What writing a vault to a store does, given the error its `set` gives:
/// on success the vault's JSON is stored under `VAULT_KEY` and nothing else
/// changes; on failure nothing changes and the store's error is returned.
pub open spec fn wrote_vault(
    set_error: Option<Seq<char>>,
    before: Map<Seq<char>, Seq<u8>>,
    after: Map<Seq<char>, Seq<u8>>,
    vault: VaultModel,
    r: Result<(), String>,
) -> bool {
    match set_error {
        Some(m) => (r matches Err(e) && e@ == m) && after == before,
        None => r is Ok && after == before.insert(VAULT_KEY@, vault_json(vault)),
    }
}

/// Pinning a peer, or forgetting it, keeps the identity, and where the
/// store's `get` then succeeds the vault reads back with that peer (or none).
pub proof fn lemma_peer_write_reads_back(
    entries: Map<Seq<char>, Seq<u8>>,
    v: VaultModel,
    peer: Option<PeerModel>,
)
    ensures
        read_vault(
            None,
            entries.insert(VAULT_KEY@, vault_json(VaultModel { identity: v.identity, peer })),
        ) == Ok::<VaultModel, Seq<char>>(VaultModel { identity: v.identity, peer }),
{
    lemma_vault_write_read(entries, VaultModel { identity: v.identity, peer });
}

/// Forgetting the peer a second time writes the same bytes again, so the
/// store is as after the first time.
pub proof fn lemma_forget_twice(entries: Map<Seq<char>, Seq<u8>>, identity: Option<IdentityModel>)
    ensures
        ({
            let once = entries.insert(VAULT_KEY@, vault_json(VaultModel { identity, peer: None }));
            &&& read_vault(None, once) == Ok::<VaultModel, Seq<char>>(
                VaultModel { identity, peer: None },
            )
            &&& once.insert(VAULT_KEY@, vault_json(VaultModel { identity, peer: None })) == once
        }),
{
    let j = vault_json(VaultModel { identity, peer: None });
    lemma_vault_write_read(entries, VaultModel { identity, peer: None });
    assert(entries.insert(VAULT_KEY@, j).insert(VAULT_KEY@, j) =~= entries.insert(VAULT_KEY@, j));
}

fn load_vault<S: SecretStore>(store: &S) -> (r: Result<StoredVault, String>)
    ensures
        match read_vault(store.get_error(VAULT_KEY@), store.entries()) {
            Err(m) => r matches Err(e) && e@ == m,
            Ok(v) => r matches Ok(x) && x.model() == v,
        },
{
    let bytes = match store.get(VAULT_KEY) {
        Ok(Some(b)) => b,
        Ok(None) => return Ok(StoredVault { identity: None, peer: None }),
        Err(e) => return Err(e),
    };
    match decode_vault(bytes.as_slice()) {
        Some(v) => Ok(v),
        None => Err(INVALID_VAULT.to_owned()),
    }
}

fn store_vault<S: SecretStore>(store: &mut S, vault: &StoredVault) -> (r: Result<(), String>)
    ensures
        wrote_vault(
            old(store).set_error(VAULT_KEY@, vault_json(vault.model())),
            old(store).entries(),
            final(store).entries(),
            vault.model(),
            r,
        ),
        r is Ok ==> stored_vault(final(store).entries()) == Some(vault.model()),
{
    let bytes = encode_vault(vault);
    let r = store.set(VAULT_KEY, bytes.as_slice());
    proof {
        lemma_vault_write_read(old(store).entries(), vault.model());
    }
    r
}

/// This device's identity from the store; when the store holds none, a new
/// one is generated and stored, next to the peer already there.
pub fn ensure_identity<S: SecretStore>(store: &mut S) -> (r: Result<Identity, String>)
    ensures
        match read_vault(old(store).get_error(VAULT_KEY@), old(store).entries()) {
            Err(m) => (r matches Err(e) && e@ == m) && final(store).entries() == old(store).entries(),
            Ok(v) => match v.identity {
                Some(i) => (r matches Ok(id) && id.model() == i) && final(store).entries() == old(
                    store,
                ).entries(),
                None => {
                    &&& r is Err ==> final(store).entries() == old(store).entries()
                    &&& r matches Ok(id) ==> {
                        let nv = VaultModel { identity: Some(id.model()), peer: v.peer };
                        &&& exists|b: Seq<u8>| b.len() == 16 && id.device_id@ == hex_lower(b)
                        &&& old(store).set_error(VAULT_KEY@, vault_json(nv)) is None
                        &&& final(store).entries() == old(store).entries().insert(
                            VAULT_KEY@,
                            vault_json(nv),
                        )
                        &&& stored_vault(final(store).entries()) == Some(nv)
                    }
                },
            },
        },
{
    let vault = match load_vault(store) {
        Ok(v) => v,
        Err(e) => return Err(e),
    };
    if let Some(identity) = &vault.identity {
        return Ok(identity.copy());
    }
    let generated = generate_identity();
    install_identity(store, vault.peer, generated)
}

/// Stores a newly generated identity in the vault, next to `peer`, and
/// hands it back; where generating it failed, the failure is handed back
/// and the store is left as it was.
pub fn install_identity<S: SecretStore>(
    store: &mut S,
    peer: Option<PeerIdentity>,
    generated: Result<Identity, String>,
) -> (r: Result<Identity, String>)
    ensures
        match generated {
            Err(m) => (r matches Err(e) && e@ == m@) && final(store).entries() == old(store).entries(),
            Ok(id) => {
                let nv = VaultModel {
                    identity: Some(id.model()),
                    peer: match peer {
                        Some(x) => Some(x.model()),
                        None => None,
                    },
                };
                match old(store).set_error(VAULT_KEY@, vault_json(nv)) {
                    Some(m) => (r matches Err(e) && e@ == m) && final(store).entries() == old(
                        store,
                    ).entries(),
                    None => {
                        &&& r matches Ok(x) && x.model() == id.model()
                        &&& final(store).entries() == old(store).entries().insert(
                            VAULT_KEY@,
                            vault_json(nv),
                        )
                        &&& stored_vault(final(store).entries()) == Some(nv)
                    },
                }
            },
        },
{
    let identity = match generated {
        Ok(i) => i,
        Err(e) => return Err(e),
    };
    let vault = StoredVault { identity: Some(identity.copy()), peer };
    match store_vault(store, &vault) {
        Ok(()) => Ok(identity),
        Err(e) => Err(e),
    }
}

/// The pinned peer, if the store holds one.
pub fn load_peer<S: SecretStore>(store: &S) -> (r: Result<Option<PeerIdentity>, String>)
    ensures
        match read_vault(store.get_error(VAULT_KEY@), store.entries()) {
            Err(m) => r matches Err(e) && e@ == m,
            Ok(v) => r matches Ok(p) && v.peer == match p {
                Some(x) => Some(x.model()),
                None => None,
            },
        },
{
    match load_vault(store) {
        Ok(v) => Ok(v.peer),
        Err(e) => Err(e),
    }
}

/// Pins `peer`, keeping the identity already stored.
pub fn store_peer<S: SecretStore>(store: &mut S, peer: &PeerIdentity) -> (r: Result<(), String>)
    ensures
        match read_vault(old(store).get_error(VAULT_KEY@), old(store).entries()) {
            Err(m) => (r matches Err(e) && e@ == m) && final(store).entries() == old(store).entries(),
            Ok(v) => {
                let nv = VaultModel { identity: v.identity, peer: Some(peer.model()) };
                &&& wrote_vault(
                    old(store).set_error(VAULT_KEY@, vault_json(nv)),
                    old(store).entries(),
                    final(store).entries(),
                    nv,
                    r,
                )
                &&& r is Ok ==> stored_vault(final(store).entries()) == Some(nv)
            },
        },
{
    let mut vault = match load_vault(store) {
        Ok(v) => v,
        Err(e) => return Err(e),
    };
    vault.peer = Some(peer.copy());
    store_vault(store, &vault)
}

/// Forgets the pinned peer, keeping the identity already stored.
pub fn delete_peer<S: SecretStore>(store: &mut S) -> (r: Result<(), String>)
    ensures
        match read_vault(old(store).get_error(VAULT_KEY@), old(store).entries()) {
            Err(m) => (r matches Err(e) && e@ == m) && final(store).entries() == old(store).entries(),
            Ok(v) => {
                let nv = VaultModel { identity: v.identity, peer: None };
                &&& wrote_vault(
                    old(store).set_error(VAULT_KEY@, vault_json(nv)),
                    old(store).entries(),
                    final(store).entries(),
                    nv,
                    r,
                )
                &&& r is Ok ==> stored_vault(final(store).entries()) == Some(nv)
            },
        },
{
    let mut vault = match load_vault(store) {
        Ok(v) => v,
        Err(e) => return Err(e),
    };
    vault.peer = None;
    store_vault(store, &vault)
}


/// The name that device certificates are issued for.
pub const CERT_NAME: &'static str = "rclippy.local";

/// The request that device certificates are made from: issued to
/// `rclippy.local`, for digital signature and key encipherment, for server
/// and client authentication, so that either device can take either side of
/// a mutually authenticated connection.
pub fn identity_cert_request() -> (r: CertRequest)
    ensures
        r.subject_alt_names@.len() == 1,
        r.subject_alt_names@[0]@ == CERT_NAME@,
        r.key_usages@ == seq![KeyUsage::DigitalSignature, KeyUsage::KeyEncipherment],
        r.extended_key_usages@ == seq![ExtendedKeyUsage::ServerAuth, ExtendedKeyUsage::ClientAuth],
{
    let mut subject_alt_names: Vec<String> = Vec::new();
    subject_alt_names.push(CERT_NAME.to_owned());
    let mut key_usages: Vec<KeyUsage> = Vec::new();
    key_usages.push(KeyUsage::DigitalSignature);
    key_usages.push(KeyUsage::KeyEncipherment);
    let mut extended_key_usages: Vec<ExtendedKeyUsage> = Vec::new();
    extended_key_usages.push(ExtendedKeyUsage::ServerAuth);
    extended_key_usages.push(ExtendedKeyUsage::ClientAuth);
    assert(key_usages@ =~= seq![KeyUsage::DigitalSignature, KeyUsage::KeyEncipherment]);
    assert(extended_key_usages@ =~= seq![ExtendedKeyUsage::ServerAuth, ExtendedKeyUsage::ClientAuth]);
    CertRequest { subject_alt_names, key_usages, extended_key_usages }
}

/// A new identity: a random 128-bit device id in lower-case hex, a fresh
/// key pair, and a certificate for that key signed with it, made from
/// `identity_cert_request()`.
pub fn generate_identity() -> (r: Result<Identity, String>)
    ensures
        r matches Ok(id) ==> exists|b: Seq<u8>| b.len() == 16 && id.device_id@ == hex_lower(b),
{
    let random = random_16();
    let device_id = hex_encode(&random);
    let key = match generate_key_pair() {
        Ok(k) => k,
        Err(e) => return Err(rcgen_error_message(&e)),
    };
    let request = identity_cert_request();
    let cert_der = match self_signed_der(&request, &key) {
        Ok(c) => c,
        Err(e) => return Err(rcgen_error_message(&e)),
    };
    let key_der = key_pair_der(&key);
    Ok(Identity { device_id, cert_der, key_der })
}

} // verus!
