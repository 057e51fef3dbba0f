//! Reading the vault from any JSON text that `serde_json` reads as one:
//! whitespace between tokens, members in any order, members of other names
//! stepped over, absent optional members read as absent, every escape JSON
//! has in strings, and the vault or its parts also written as arrays of
//! their fields in order. A field given twice, a missing required field, a
//! byte outside 0..=255 and text that is not UTF-8 are refused.

use vstd::prelude::*;

use crate::json::{
    bytes_eq, dec, escape, escape_byte, expect_lit, hex_nibble, join, json_bytes, json_str, lemma_join_first,
    lemma_num_dec, lit_at, num, num_at, string_from_utf8,
};
use crate::json_read::{
    escape_at, hex4, hex_digit, is_ws, prefixed, read_str_body, skip_value, skip_ws, str_body,
    utf8_bytes, value_end, ws_end, LIT_NULL,
};
use crate::secrets::{
    identity_json, peer_json, vault_json, Identity, IdentityModel, PeerIdentity, PeerModel, StoredVault,
    VaultModel, TOK_CERT_DER, TOK_CLOSE, TOK_DEVICE_ID, TOK_DEVICE_NAME, TOK_IDENTITY, TOK_KEY_DER, TOK_NULL,
    TOK_PEER,
};
use vstd::utf8::{
    decode_utf8, encode_utf8, encode_utf8_decode_utf8, encode_utf8_valid_utf8, valid_utf8,
};

verus! {

pub const KEY_IDENTITY: [u8; 8] = [0x69, 0x64, 0x65, 0x6e, 0x74, 0x69, 0x74, 0x79];

pub const KEY_PEER: [u8; 4] = [0x70, 0x65, 0x65, 0x72];

pub const KEY_DEVICE_ID: [u8; 9] = [0x64, 0x65, 0x76, 0x69, 0x63, 0x65, 0x5f, 0x69, 0x64];

pub const KEY_DEVICE_NAME: [u8; 11] = [0x64, 0x65, 0x76, 0x69, 0x63, 0x65, 0x5f, 0x6e, 0x61, 0x6d, 0x65];

pub const KEY_CERT_DER: [u8; 8] = [0x63, 0x65, 0x72, 0x74, 0x5f, 0x64, 0x65, 0x72];

pub const KEY_KEY_DER: [u8; 7] = [0x6b, 0x65, 0x79, 0x5f, 0x64, 0x65, 0x72];

/// The text of the string literal at `p`, where its decoded bytes are UTF-8,
/// and the position after it.
pub open spec fn text_at(buf: Seq<u8>, p: int) -> Option<(Seq<char>, int)> {
    if 0 <= p < buf.len() && buf[p] == 0x22 {
        match str_body(buf, p + 1) {
            Some((v, e)) => if valid_utf8(v) {
                Some((decode_utf8(v), e))
            } else {
                None
            },
            None => None,
        }
    } else {
        None
    }
}

fn read_text(buf: &[u8], p: usize) -> (r: Option<(String, usize)>)
    requires
        p <= buf@.len(),
    ensures
        match text_at(buf@, p as int) {
            Some((v, e)) => r matches Some((w, f)) && w@ == v && f == e,
            None => r is None,
        },
        r matches Some((_, f)) ==> p < f <= buf@.len(),
{
    if p >= buf.len() || buf[p] != 0x22 {
        return None;
    }
    match read_str_body(buf, p + 1) {
        Some((bytes, e)) => match string_from_utf8(bytes) {
            Some(s) => Some((s, e)),
            None => None,
        },
        None => None,
    }
}

/// A byte written as a JSON number at `p`: an integer of at most 255
/// without a leading zero, a fraction or an exponent; and the position after it.
pub open spec fn byte_at(buf: Seq<u8>, p: int) -> Option<(u8, int)> {
    if 0 <= p <= buf.len() {
        match num(buf.skip(p)) {
            Some((b, k)) => {
                let e = p + k;
                if e < buf.len() && (buf[e] == 0x2e || buf[e] == 0x65 || buf[e] == 0x45) {
                    None
                } else {
                    Some((b, e))
                }
            },
            None => None,
        }
    } else {
        None
    }
}

/// The bytes of an array from `p`, where an element is due, up to and
/// including its closing bracket.
pub open spec fn byte_items(buf: Seq<u8>, p: int) -> Option<(Seq<u8>, int)>
    decreases buf.len() - p,
{
    let q = skip_ws(buf, p);
    match byte_at(buf, q) {
        None => None,
        Some((b, e)) => {
            let r = skip_ws(buf, e);
            if !(p < r < buf.len()) {
                None
            } else if buf[r] == 0x2c {
                prefixed(seq![b], byte_items(buf, r + 1))
            } else if buf[r] == 0x5d {
                Some((seq![b], r + 1))
            } else {
                None
            }
        },
    }
}

/// The byte array at `p`, as `serde_json` reads a `Vec<u8>`: the bytes and
/// the position after its closing bracket.
pub open spec fn byte_array_at(buf: Seq<u8>, p: int) -> Option<(Seq<u8>, int)> {
    if 0 <= p < buf.len() && buf[p] == 0x5b {
        let q = skip_ws(buf, p + 1);
        if q < buf.len() && buf[q] == 0x5d {
            Some((Seq::<u8>::empty(), q + 1))
        } else {
            byte_items(buf, p + 1)
        }
    } else {
        None
    }
}

fn read_byte(buf: &[u8], p: usize) -> (r: Option<(u8, usize)>)
    requires
        p <= buf@.len(),
    ensures
        match byte_at(buf@, p as int) {
            Some((b, e)) => r == Some((b, e as usize)) && p < e <= buf@.len(),
            None => r is None,
        },
{
    match num_at(buf, p) {
        Some((b, k)) => {
            let n = buf.len();
            assert(buf@.skip(p as int).len() == n - p);
            assert(k as int <= buf@.skip(p as int).len());
            assert(k <= n - p);
            let e = p + k;
            if e < buf.len() && (buf[e] == 0x2e || buf[e] == 0x65 || buf[e] == 0x45) {
                None
            } else {
                Some((b, e))
            }
        },
        None => None,
    }
}

fn read_byte_array(buf: &[u8], p: usize) -> (r: Option<(Vec<u8>, usize)>)
    requires
        p <= buf@.len(),
    ensures
        match byte_array_at(buf@, p as int) {
            Some((v, e)) => r matches Some((w, f)) && w@ == v && f == e,
            None => r is None,
        },
        r matches Some((_, f)) ==> p < f <= buf@.len(),
{
    let n = buf.len();
    if p >= n || buf[p] != 0x5b {
        return None;
    }
    let q = ws_end(buf, p + 1);
    let mut out: Vec<u8> = Vec::new();
    if q < n && buf[q] == 0x5d {
        return Some((out, q + 1));
    }
    let mut i = p + 1;
    assert(byte_items(buf@, (p + 1) as int) == prefixed(out@, byte_items(buf@, i as int))) by {
        match byte_items(buf@, i as int) {
            Some((v, e)) => assert(out@ + v =~= v),
            None => {},
        }
    }
    loop
        invariant
            n == buf@.len(),
            p + 1 <= i <= n,
            byte_array_at(buf@, p as int) == byte_items(buf@, (p + 1) as int),
            byte_items(buf@, (p + 1) as int) == prefixed(out@, byte_items(buf@, i as int)),
        decreases n - i,
    {
        let q = ws_end(buf, i);
        let (b, e) = match read_byte(buf, q) {
            Some(x) => x,
            None => return None,
        };
        let r = ws_end(buf, e);
        if r >= n {
            return None;
        }
        let ghost before = out@;
        if buf[r] == 0x2c {
            proof {
                match byte_items(buf@, r + 1) {
                    Some((v, f)) => assert(before + (seq![b] + v) =~= before.push(b) + v),
                    None => {},
                }
            }
            out.push(b);
            i = r + 1;
        } else if buf[r] == 0x5d {
            out.push(b);
            assert(out@ =~= before + seq![b]);
            return Some((out, r + 1));
        } else {
            return None;
        }
    }
}

/// The key of the member at `p`, with escapes decoded, and where its value
/// starts, after the colon and any whitespace.
pub open spec fn key_at(buf: Seq<u8>, p: int) -> Option<(Seq<u8>, int)> {
    if 0 <= p < buf.len() && buf[p] == 0x22 {
        match str_body(buf, p + 1) {
            Some((k, e)) => {
                let c = skip_ws(buf, e);
                if c < buf.len() && buf[c] == 0x3a {
                    Some((k, skip_ws(buf, c + 1)))
                } else {
                    None
                }
            },
            None => None,
        }
    } else {
        None
    }
}

fn read_key(buf: &[u8], p: usize) -> (r: Option<(Vec<u8>, usize)>)
    requires
        p <= buf@.len(),
    ensures
        match key_at(buf@, p as int) {
            Some((k, v)) => r matches Some((w, f)) && w@ == k && f == v,
            None => r is None,
        },
        r matches Some((_, f)) ==> p < f <= buf@.len(),
{
    if p >= buf.len() || buf[p] != 0x22 {
        return None;
    }
    let (k, e) = match read_str_body(buf, p + 1) {
        Some(x) => x,
        None => return None,
    };
    let c = ws_end(buf, e);
    if c >= buf.len() || buf[c] != 0x3a {
        return None;
    }
    Some((k, ws_end(buf, c + 1)))
}

/// After the member whose value ends at `e`, in an object whose members
/// started at `p`: `(true, s)` where a comma says that the next member
/// starts at `s`, `(false, q)` where the closing brace ends the object
/// before `q`.
pub open spec fn after_member(buf: Seq<u8>, p: int, e: int) -> Option<(bool, int)> {
    let r = skip_ws(buf, e);
    if !(p < r < buf.len()) {
        None
    } else if buf[r] == 0x2c {
        let s = skip_ws(buf, r + 1);
        if p < s <= buf.len() {
            Some((true, s))
        } else {
            None
        }
    } else if buf[r] == 0x7d {
        Some((false, r + 1))
    } else {
        None
    }
}

fn next_member(buf: &[u8], p: usize, e: usize) -> (r: Option<(bool, usize)>)
    requires
        p < e <= buf@.len(),
    ensures
        match after_member(buf@, p as int, e as int) {
            Some((more, s)) => r == Some((more, s as usize)) && p < s <= buf@.len(),
            None => r is None,
        },
{
    let r = ws_end(buf, e);
    if r >= buf.len() {
        return None;
    }
    if buf[r] == 0x2c {
        Some((true, ws_end(buf, r + 1)))
    } else if buf[r] == 0x7d {
        Some((false, r + 1))
    } else {
        None
    }
}

/// Where the next element of an array starts, after the element that ends
/// at `e`: past a comma and whitespace.
pub open spec fn seq_next(buf: Seq<u8>, e: int) -> Option<int> {
    let r = skip_ws(buf, e);
    if 0 <= r < buf.len() && buf[r] == 0x2c {
        Some(skip_ws(buf, r + 1))
    } else {
        None
    }
}

/// The position after the closing bracket that follows the element that
/// ends at `e`.
pub open spec fn seq_close(buf: Seq<u8>, e: int) -> Option<int> {
    let r = skip_ws(buf, e);
    if 0 <= r < buf.len() && buf[r] == 0x5d {
        Some(r + 1)
    } else {
        None
    }
}

fn next_element(buf: &[u8], e: usize) -> (r: Option<usize>)
    requires
        e <= buf@.len(),
    ensures
        match seq_next(buf@, e as int) {
            Some(q) => r == Some(q as usize) && e < q <= buf@.len(),
            None => r is None,
        },
{
    let r = ws_end(buf, e);
    if r < buf.len() && buf[r] == 0x2c {
        Some(ws_end(buf, r + 1))
    } else {
        None
    }
}

fn close_elements(buf: &[u8], e: usize) -> (r: Option<usize>)
    requires
        e <= buf@.len(),
    ensures
        match seq_close(buf@, e as int) {
            Some(q) => r == Some(q as usize) && e < q <= buf@.len(),
            None => r is None,
        },
{
    let r = ws_end(buf, e);
    if r < buf.len() && buf[r] == 0x5d {
        Some(r + 1)
    } else {
        None
    }
}

/// Whether a key names the given field.
fn key_is(k: &Vec<u8>, name: &[u8]) -> (r: bool)
    ensures
        r == (k@ == name@),
{
    bytes_eq(k.as_slice(), name)
}

/// The identity's fields read so far.
pub struct IdentityFields {
    pub device_id: Option<Seq<char>>,
    pub cert_der: Option<Seq<u8>>,
    pub key_der: Option<Seq<u8>>,
}

/// The member of an identity object at `p`: the fields with it added, and
/// the end of its value. A field given twice, or a key that is not UTF-8,
/// is refused; a member of another name is stepped over.
pub open spec fn identity_member(buf: Seq<u8>, p: int, f: IdentityFields) -> Option<(IdentityFields, int)> {
    match key_at(buf, p) {
        None => None,
        Some((k, v)) => if k == KEY_DEVICE_ID@ {
            if f.device_id is Some {
                None
            } else {
                match text_at(buf, v) {
                    Some((x, e)) => Some((IdentityFields { device_id: Some(x), ..f }, e)),
                    None => None,
                }
            }
        } else if k == KEY_CERT_DER@ {
            if f.cert_der is Some {
                None
            } else {
                match byte_array_at(buf, v) {
                    Some((x, e)) => Some((IdentityFields { cert_der: Some(x), ..f }, e)),
                    None => None,
                }
            }
        } else if k == KEY_KEY_DER@ {
            if f.key_der is Some {
                None
            } else {
                match byte_array_at(buf, v) {
                    Some((x, e)) => Some((IdentityFields { key_der: Some(x), ..f }, e)),
                    None => None,
                }
            }
        } else if valid_utf8(k) {
            match value_end(buf, v) {
                Some(e) => Some((f, e)),
                None => None,
            }
        } else {
            None
        },
    }
}

/// The members of an identity object from `p` on, up to its closing brace:
/// the fields and the position after the brace.
pub open spec fn identity_members(buf: Seq<u8>, p: int, f: IdentityFields) -> Option<(IdentityFields, int)>
    decreases buf.len() - p,
{
    match identity_member(buf, p, f) {
        None => None,
        Some((g, e)) => match after_member(buf, p, e) {
            None => None,
            Some((more, s)) => if !more {
                Some((g, s))
            } else if p < s <= buf.len() {
                identity_members(buf, s, g)
            } else {
                None
            },
        },
    }
}

/// The identity object at `p`: each of its fields present, in any order.
pub open spec fn identity_at(buf: Seq<u8>, p: int) -> Option<(IdentityModel, int)> {
    if 0 <= p < buf.len() && buf[p] == 0x7b {
        let q = skip_ws(buf, p + 1);
        let none = IdentityFields { device_id: None, cert_der: None, key_der: None };
        let read = if q < buf.len() && buf[q] == 0x7d {
            Some((none, q + 1))
        } else {
            identity_members(buf, q, none)
        };
        match read {
            Some((f, e)) => match (f.device_id, f.cert_der, f.key_der) {
                (Some(a), Some(b), Some(c)) => Some(
                    (IdentityModel { device_id: a, cert_der: b, key_der: c }, e),
                ),
                _ => None,
            },
            None => None,
        }
    } else if 0 <= p < buf.len() && buf[p] == 0x5b {
        identity_seq_at(buf, p)
    } else {
        None
    }
}

/// The identity written as an array of its fields, in their order.
pub open spec fn identity_seq_at(buf: Seq<u8>, p: int) -> Option<(IdentityModel, int)> {
    match text_at(buf, skip_ws(buf, p + 1)) {
        None => None,
        Some((a, e1)) => match seq_next(buf, e1) {
            None => None,
            Some(q2) => match byte_array_at(buf, q2) {
                None => None,
                Some((b, e2)) => match seq_next(buf, e2) {
                    None => None,
                    Some(q3) => match byte_array_at(buf, q3) {
                        None => None,
                        Some((c, e3)) => match seq_close(buf, e3) {
                            Some(e) => Some((IdentityModel { device_id: a, cert_der: b, key_der: c }, e)),
                            None => None,
                        },
                    },
                },
            },
        },
    }
}

struct IdentityParts {
    device_id: Option<String>,
    cert_der: Option<Vec<u8>>,
    key_der: Option<Vec<u8>>,
}

impl IdentityParts {
    spec fn fields(&self) -> IdentityFields {
        IdentityFields {
            device_id: match self.device_id {
                Some(s) => Some(s@),
                None => None,
            },
            cert_der: match self.cert_der {
                Some(v) => Some(v@),
                None => None,
            },
            key_der: match self.key_der {
                Some(v) => Some(v@),
                None => None,
            },
        }
    }
}

fn read_identity_member(buf: &[u8], p: usize, f: IdentityParts) -> (r: Option<(IdentityParts, usize)>)
    requires
        p <= buf@.len(),
    ensures
        match identity_member(buf@, p as int, f.fields()) {
            Some((g, e)) => r matches Some((h, x)) && h.fields() == g && x == e,
            None => r is None,
        },
        r matches Some((_, x)) ==> p < x <= buf@.len(),
{
    let (k, v) = match read_key(buf, p) {
        Some(x) => x,
        None => return None,
    };
    let mut f = f;
    if key_is(&k, &KEY_DEVICE_ID) {
        if f.device_id.is_some() {
            return None;
        }
        match read_text(buf, v) {
            Some((x, e)) => {
                f.device_id = Some(x);
                Some((f, e))
            },
            None => None,
        }
    } else if key_is(&k, &KEY_CERT_DER) {
        if f.cert_der.is_some() {
            return None;
        }
        match read_byte_array(buf, v) {
            Some((x, e)) => {
                f.cert_der = Some(x);
                Some((f, e))
            },
            None => None,
        }
    } else if key_is(&k, &KEY_KEY_DER) {
        if f.key_der.is_some() {
            return None;
        }
        match read_byte_array(buf, v) {
            Some((x, e)) => {
                f.key_der = Some(x);
                Some((f, e))
            },
            None => None,
        }
    } else {
        if string_from_utf8(k).is_none() {
            return None;
        }
        match skip_value(buf, v) {
            Some(e) => Some((f, e)),
            None => None,
        }
    }
}

fn read_identity_seq(buf: &[u8], p: usize) -> (r: Option<(Identity, usize)>)
    requires
        p < buf@.len(),
    ensures
        match identity_seq_at(buf@, p as int) {
            Some((m, e)) => r matches Some((i, x)) && i.model() == m && x == e,
            None => r is None,
        },
        r matches Some((_, x)) ==> p < x <= buf@.len(),
{
    let _n = buf.len();
    let q1 = ws_end(buf, p + 1);
    let (device_id, e1) = match read_text(buf, q1) {
        Some(x) => x,
        None => return None,
    };
    assert(text_at(buf@, q1 as int) == Some((device_id@, e1 as int)));
    let q2 = match next_element(buf, e1) {
        Some(q) => q,
        None => return None,
    };
    let (cert_der, e2) = match read_byte_array(buf, q2) {
        Some(x) => x,
        None => return None,
    };
    assert(byte_array_at(buf@, q2 as int) == Some((cert_der@, e2 as int)));
    let q3 = match next_element(buf, e2) {
        Some(q) => q,
        None => return None,
    };
    let (key_der, e3) = match read_byte_array(buf, q3) {
        Some(x) => x,
        None => return None,
    };
    assert(byte_array_at(buf@, q3 as int) == Some((key_der@, e3 as int)));
    match close_elements(buf, e3) {
        Some(e) => Some((Identity { device_id, cert_der, key_der }, e)),
        None => None,
    }
}

fn read_peer_seq(buf: &[u8], p: usize) -> (r: Option<(PeerIdentity, usize)>)
    requires
        p < buf@.len(),
    ensures
        match peer_seq_at(buf@, p as int) {
            Some((m, e)) => r matches Some((i, x)) && i.model() == m && x == e,
            None => r is None,
        },
        r matches Some((_, x)) ==> p < x <= buf@.len(),
{
    let _n = buf.len();
    let q1 = ws_end(buf, p + 1);
    let (device_id, e1) = match read_text(buf, q1) {
        Some(x) => x,
        None => return None,
    };
    assert(text_at(buf@, q1 as int) == Some((device_id@, e1 as int)));
    let q2 = match next_element(buf, e1) {
        Some(q) => q,
        None => return None,
    };
    let (device_name, e2) = match read_text(buf, q2) {
        Some(x) => x,
        None => return None,
    };
    assert(text_at(buf@, q2 as int) == Some((device_name@, e2 as int)));
    let q3 = match next_element(buf, e2) {
        Some(q) => q,
        None => return None,
    };
    let (cert_der, e3) = match read_byte_array(buf, q3) {
        Some(x) => x,
        None => return None,
    };
    assert(byte_array_at(buf@, q3 as int) == Some((cert_der@, e3 as int)));
    match close_elements(buf, e3) {
        Some(e) => Some((PeerIdentity { device_id, device_name, cert_der }, e)),
        None => None,
    }
}

fn read_identity_members(buf: &[u8], q: usize) -> (r: Option<(IdentityParts, usize)>)
    requires
        q <= buf@.len(),
    ensures
        match identity_members(
            buf@,
            q as int,
            IdentityFields { device_id: None, cert_der: None, key_der: None },
        ) {
            Some((g, e)) => r matches Some((h, x)) && h.fields() == g && x == e,
            None => r is None,
        },
        r matches Some((_, x)) ==> q < x <= buf@.len(),
{
    let n = buf.len();
    let mut f = IdentityParts { device_id: None, cert_der: None, key_der: None };
    let ghost first = f.fields();
    assert(first == IdentityFields { device_id: None, cert_der: None, key_der: None });
    let mut i = q;
    loop
        invariant
            n == buf@.len(),
            q <= i <= n,
            identity_members(buf@, q as int, first) == identity_members(buf@, i as int, f.fields()),
            first == (IdentityFields { device_id: None, cert_der: None, key_der: None }),
        decreases n - i,
    {
        let ghost fi = f.fields();
        let (g, e) = match read_identity_member(buf, i, f) {
            Some(x) => x,
            None => {
                assert(identity_members(buf@, i as int, fi) is None);
                return None;
            },
        };
        assert(identity_member(buf@, i as int, fi) == Some((g.fields(), e as int)));
        match next_member(buf, i, e) {
            None => {
                assert(identity_members(buf@, i as int, fi) is None);
                return None;
            },
            Some((more, s)) => {
                if more {
                    assert(identity_members(buf@, i as int, fi) == identity_members(
                        buf@,
                        s as int,
                        g.fields(),
                    ));
                    f = g;
                    i = s;
                } else {
                    assert(identity_members(buf@, i as int, fi) == Some((g.fields(), s as int)));
                    return Some((g, s));
                }
            },
        }
    }
}

fn read_identity(buf: &[u8], p: usize) -> (r: Option<(Identity, usize)>)
    requires
        p <= buf@.len(),
    ensures
        match identity_at(buf@, p as int) {
            Some((m, e)) => r matches Some((i, x)) && i.model() == m && x == e,
            None => r is None,
        },
        r matches Some((_, x)) ==> p < x <= buf@.len(),
{
    let n = buf.len();
    if p < n && buf[p] == 0x5b {
        return read_identity_seq(buf, p);
    }
    if p >= n || buf[p] != 0x7b {
        return None;
    }
    let q = ws_end(buf, p + 1);
    let (f, end) = if q < n && buf[q] == 0x7d {
        (IdentityParts { device_id: None, cert_der: None, key_der: None }, q + 1)
    } else {
        match read_identity_members(buf, q) {
            Some(x) => x,
            None => return None,
        }
    };
    match (f.device_id, f.cert_der, f.key_der) {
        (Some(device_id), Some(cert_der), Some(key_der)) => Some(
            (Identity { device_id, cert_der, key_der }, end),
        ),
        _ => None,
    }
}

/// The peer's fields read so far.
pub struct PeerFields {
    pub device_id: Option<Seq<char>>,
    pub device_name: Option<Seq<char>>,
    pub cert_der: Option<Seq<u8>>,
}

/// The member of a peer object at `p`: the fields with it added, and
/// the end of its value. A field given twice, or a key that is not UTF-8,
/// is refused; a member of another name is stepped over.
pub open spec fn peer_member(buf: Seq<u8>, p: int, f: PeerFields) -> Option<(PeerFields, int)> {
    match key_at(buf, p) {
        None => None,
        Some((k, v)) => if k == KEY_DEVICE_ID@ {
            if f.device_id is Some {
                None
            } else {
                match text_at(buf, v) {
                    Some((x, e)) => Some((PeerFields { device_id: Some(x), ..f }, e)),
                    None => None,
                }
            }
        } else if k == KEY_DEVICE_NAME@ {
            if f.device_name is Some {
                None
            } else {
                match text_at(buf, v) {
                    Some((x, e)) => Some((PeerFields { device_name: Some(x), ..f }, e)),
                    None => None,
                }
            }
        } else if k == KEY_CERT_DER@ {
            if f.cert_der is Some {
                None
            } else {
                match byte_array_at(buf, v) {
                    Some((x, e)) => Some((PeerFields { cert_der: Some(x), ..f }, e)),
                    None => None,
                }
            }
        } else if valid_utf8(k) {
            match value_end(buf, v) {
                Some(e) => Some((f, e)),
                None => None,
            }
        } else {
            None
        },
    }
}

/// The members of a peer object from `p` on, up to its closing brace:
/// the fields and the position after the brace.
pub open spec fn peer_members(buf: Seq<u8>, p: int, f: PeerFields) -> Option<(PeerFields, int)>
    decreases buf.len() - p,
{
    match peer_member(buf, p, f) {
        None => None,
        Some((g, e)) => match after_member(buf, p, e) {
            None => None,
            Some((more, s)) => if !more {
                Some((g, s))
            } else if p < s <= buf.len() {
                peer_members(buf, s, g)
            } else {
                None
            },
        },
    }
}

/// The peer object at `p`: each of its fields present, in any order.
pub open spec fn peer_at(buf: Seq<u8>, p: int) -> Option<(PeerModel, int)> {
    if 0 <= p < buf.len() && buf[p] == 0x7b {
        let q = skip_ws(buf, p + 1);
        let none = PeerFields { device_id: None, device_name: None, cert_der: None };
        let read = if q < buf.len() && buf[q] == 0x7d {
            Some((none, q + 1))
        } else {
            peer_members(buf, q, none)
        };
        match read {
            Some((f, e)) => match (f.device_id, f.device_name, f.cert_der) {
                (Some(a), Some(b), Some(c)) => Some(
                    (PeerModel { device_id: a, device_name: b, cert_der: c }, e),
                ),
                _ => None,
            },
            None => None,
        }
    } else if 0 <= p < buf.len() && buf[p] == 0x5b {
        peer_seq_at(buf, p)
    } else {
        None
    }
}

/// The peer written as an array of its fields, in their order.
pub open spec fn peer_seq_at(buf: Seq<u8>, p: int) -> Option<(PeerModel, int)> {
    match text_at(buf, skip_ws(buf, p + 1)) {
        None => None,
        Some((a, e1)) => match seq_next(buf, e1) {
            None => None,
            Some(q2) => match text_at(buf, q2) {
                None => None,
                Some((b, e2)) => match seq_next(buf, e2) {
                    None => None,
                    Some(q3) => match byte_array_at(buf, q3) {
                        None => None,
                        Some((c, e3)) => match seq_close(buf, e3) {
                            Some(e) => Some((PeerModel { device_id: a, device_name: b, cert_der: c }, e)),
                            None => None,
                        },
                    },
                },
            },
        },
    }
}

struct PeerParts {
    device_id: Option<String>,
    device_name: Option<String>,
    cert_der: Option<Vec<u8>>,
}

impl PeerParts {
    spec fn fields(&self) -> PeerFields {
        PeerFields {
            device_id: match self.device_id {
                Some(s) => Some(s@),
                None => None,
            },
            device_name: match self.device_name {
                Some(s) => Some(s@),
                None => None,
            },
            cert_der: match self.cert_der {
                Some(v) => Some(v@),
                None => None,
            },
        }
    }
}

fn read_peer_member(buf: &[u8], p: usize, f: PeerParts) -> (r: Option<(PeerParts, usize)>)
    requires
        p <= buf@.len(),
    ensures
        match peer_member(buf@, p as int, f.fields()) {
            Some((g, e)) => r matches Some((h, x)) && h.fields() == g && x == e,
            None => r is None,
        },
        r matches Some((_, x)) ==> p < x <= buf@.len(),
{
    let (k, v) = match read_key(buf, p) {
        Some(x) => x,
        None => return None,
    };
    let mut f = f;
    if key_is(&k, &KEY_DEVICE_ID) {
        if f.device_id.is_some() {
            return None;
        }
        match read_text(buf, v) {
            Some((x, e)) => {
                f.device_id = Some(x);
                Some((f, e))
            },
            None => None,
        }
    } else if key_is(&k, &KEY_DEVICE_NAME) {
        if f.device_name.is_some() {
            return None;
        }
        match read_text(buf, v) {
            Some((x, e)) => {
                f.device_name = Some(x);
                Some((f, e))
            },
            None => None,
        }
    } else if key_is(&k, &KEY_CERT_DER) {
        if f.cert_der.is_some() {
            return None;
        }
        match read_byte_array(buf, v) {
            Some((x, e)) => {
                f.cert_der = Some(x);
                Some((f, e))
            },
            None => None,
        }
    } else {
        if string_from_utf8(k).is_none() {
            return None;
        }
        match skip_value(buf, v) {
            Some(e) => Some((f, e)),
            None => None,
        }
    }
}

fn read_peer_members(buf: &[u8], q: usize) -> (r: Option<(PeerParts, usize)>)
    requires
        q <= buf@.len(),
    ensures
        match peer_members(
            buf@,
            q as int,
            PeerFields { device_id: None, device_name: None, cert_der: None },
        ) {
            Some((g, e)) => r matches Some((h, x)) && h.fields() == g && x == e,
            None => r is None,
        },
        r matches Some((_, x)) ==> q < x <= buf@.len(),
{
    let n = buf.len();
    let mut f = PeerParts { device_id: None, device_name: None, cert_der: None };
    let ghost first = f.fields();
    assert(first == PeerFields { device_id: None, device_name: None, cert_der: None });
    let mut i = q;
    loop
        invariant
            n == buf@.len(),
            q <= i <= n,
            peer_members(buf@, q as int, first) == peer_members(buf@, i as int, f.fields()),
            first == (PeerFields { device_id: None, device_name: None, cert_der: None }),
        decreases n - i,
    {
        let ghost fi = f.fields();
        let (g, e) = match read_peer_member(buf, i, f) {
            Some(x) => x,
            None => {
                assert(peer_members(buf@, i as int, fi) is None);
                return None;
            },
        };
        assert(peer_member(buf@, i as int, fi) == Some((g.fields(), e as int)));
        match next_member(buf, i, e) {
            None => {
                assert(peer_members(buf@, i as int, fi) is None);
                return None;
            },
            Some((more, s)) => {
                if more {
                    assert(peer_members(buf@, i as int, fi) == peer_members(
                        buf@,
                        s as int,
                        g.fields(),
                    ));
                    f = g;
                    i = s;
                } else {
                    assert(peer_members(buf@, i as int, fi) == Some((g.fields(), s as int)));
                    return Some((g, s));
                }
            },
        }
    }
}

fn read_peer(buf: &[u8], p: usize) -> (r: Option<(PeerIdentity, usize)>)
    requires
        p <= buf@.len(),
    ensures
        match peer_at(buf@, p as int) {
            Some((m, e)) => r matches Some((i, x)) && i.model() == m && x == e,
            None => r is None,
        },
        r matches Some((_, x)) ==> p < x <= buf@.len(),
{
    let n = buf.len();
    if p < n && buf[p] == 0x5b {
        return read_peer_seq(buf, p);
    }
    if p >= n || buf[p] != 0x7b {
        return None;
    }
    let q = ws_end(buf, p + 1);
    let (f, end) = if q < n && buf[q] == 0x7d {
        (PeerParts { device_id: None, device_name: None, cert_der: None }, q + 1)
    } else {
        match read_peer_members(buf, q) {
            Some(x) => x,
            None => return None,
        }
    };
    match (f.device_id, f.device_name, f.cert_der) {
        (Some(device_id), Some(device_name), Some(cert_der)) => Some(
            (PeerIdentity { device_id, device_name, cert_der }, end),
        ),
        _ => None,
    }
}


/// `null`, or the identity object, at `p`.
pub open spec fn identity_or_null_at(buf: Seq<u8>, p: int) -> Option<(Option<IdentityModel>, int)> {
    if 0 <= p < buf.len() && buf[p] == 0x6e {
        if lit_at(buf, p, LIT_NULL@) {
            Some((None, p + 4))
        } else {
            None
        }
    } else {
        match identity_at(buf, p) {
            Some((m, e)) => Some((Some(m), e)),
            None => None,
        }
    }
}

/// `null`, or the peer object, at `p`.
pub open spec fn peer_or_null_at(buf: Seq<u8>, p: int) -> Option<(Option<PeerModel>, int)> {
    if 0 <= p < buf.len() && buf[p] == 0x6e {
        if lit_at(buf, p, LIT_NULL@) {
            Some((None, p + 4))
        } else {
            None
        }
    } else {
        match peer_at(buf, p) {
            Some((m, e)) => Some((Some(m), e)),
            None => None,
        }
    }
}

/// The vault's fields read so far.
pub struct VaultFields {
    pub identity: Option<Option<IdentityModel>>,
    pub peer: Option<Option<PeerModel>>,
}

/// The member of the vault object at `p`: the fields with it added, and the
/// end of its value.
pub open spec fn vault_member(buf: Seq<u8>, p: int, f: VaultFields) -> Option<(VaultFields, int)> {
    match key_at(buf, p) {
        None => None,
        Some((k, v)) => if k == KEY_IDENTITY@ {
            if f.identity is Some {
                None
            } else {
                match identity_or_null_at(buf, v) {
                    Some((x, e)) => Some((VaultFields { identity: Some(x), ..f }, e)),
                    None => None,
                }
            }
        } else if k == KEY_PEER@ {
            if f.peer is Some {
                None
            } else {
                match peer_or_null_at(buf, v) {
                    Some((x, e)) => Some((VaultFields { peer: Some(x), ..f }, e)),
                    None => None,
                }
            }
        } else if valid_utf8(k) {
            match value_end(buf, v) {
                Some(e) => Some((f, e)),
                None => None,
            }
        } else {
            None
        },
    }
}

/// The members of the vault object from `p` on, up to its closing brace.
pub open spec fn vault_members(buf: Seq<u8>, p: int, f: VaultFields) -> Option<(VaultFields, int)>
    decreases buf.len() - p,
{
    match vault_member(buf, p, f) {
        None => None,
        Some((g, e)) => match after_member(buf, p, e) {
            None => None,
            Some((more, s)) => if !more {
                Some((g, s))
            } else if p < s <= buf.len() {
                vault_members(buf, s, g)
            } else {
                None
            },
        },
    }
}

/// The vault object at `p`; an absent member is an absent part.
pub open spec fn vault_at(buf: Seq<u8>, p: int) -> Option<(VaultModel, int)> {
    if 0 <= p < buf.len() && buf[p] == 0x7b {
        let q = skip_ws(buf, p + 1);
        let none = VaultFields { identity: None, peer: None };
        let read = if q < buf.len() && buf[q] == 0x7d {
            Some((none, q + 1))
        } else {
            vault_members(buf, q, none)
        };
        match read {
            Some((f, e)) => Some(
                (
                    VaultModel {
                        identity: match f.identity {
                            Some(x) => x,
                            None => None,
                        },
                        peer: match f.peer {
                            Some(x) => x,
                            None => None,
                        },
                    },
                    e,
                ),
            ),
            None => None,
        }
    } else if 0 <= p < buf.len() && buf[p] == 0x5b {
        match identity_or_null_at(buf, skip_ws(buf, p + 1)) {
            None => None,
            Some((i, e1)) => match seq_next(buf, e1) {
                None => None,
                Some(q2) => match peer_or_null_at(buf, q2) {
                    None => None,
                    Some((x, e2)) => match seq_close(buf, e2) {
                        Some(e) => Some((VaultModel { identity: i, peer: x }, e)),
                        None => None,
                    },
                },
            },
        }
    } else {
        None
    }
}

/// The vault that stored bytes spell, read as `serde_json` reads it: the
/// vault's value with whitespace around it and nothing else.
pub open spec fn vault_read(buf: Seq<u8>) -> Option<VaultModel> {
    match vault_at(buf, skip_ws(buf, 0)) {
        Some((v, e)) => if skip_ws(buf, e) == buf.len() {
            Some(v)
        } else {
            None
        },
        None => None,
    }
}

fn read_identity_or_null(buf: &[u8], p: usize) -> (r: Option<(Option<Identity>, usize)>)
    requires
        p <= buf@.len(),
    ensures
        match identity_or_null_at(buf@, p as int) {
            Some((m, e)) => r matches Some((i, x)) && x == e && match i {
                Some(i) => m == Some(i.model()),
                None => m is None,
            },
            None => r is None,
        },
        r matches Some((_, x)) ==> p < x <= buf@.len(),
{
    if p < buf.len() && buf[p] == 0x6e {
        if expect_lit(buf, p, &LIT_NULL) {
            Some((None, p + 4))
        } else {
            None
        }
    } else {
        match read_identity(buf, p) {
            Some((i, e)) => Some((Some(i), e)),
            None => None,
        }
    }
}

fn read_peer_or_null(buf: &[u8], p: usize) -> (r: Option<(Option<PeerIdentity>, usize)>)
    requires
        p <= buf@.len(),
    ensures
        match peer_or_null_at(buf@, p as int) {
            Some((m, e)) => r matches Some((i, x)) && x == e && match i {
                Some(i) => m == Some(i.model()),
                None => m is None,
            },
            None => r is None,
        },
        r matches Some((_, x)) ==> p < x <= buf@.len(),
{
    if p < buf.len() && buf[p] == 0x6e {
        if expect_lit(buf, p, &LIT_NULL) {
            Some((None, p + 4))
        } else {
            None
        }
    } else {
        match read_peer(buf, p) {
            Some((i, e)) => Some((Some(i), e)),
            None => None,
        }
    }
}

struct VaultParts {
    identity: Option<Option<Identity>>,
    peer: Option<Option<PeerIdentity>>,
}

impl VaultParts {
    spec fn fields(&self) -> VaultFields {
        VaultFields {
            identity: match self.identity {
                Some(Some(i)) => Some(Some(i.model())),
                Some(None) => Some(None),
                None => None,
            },
            peer: match self.peer {
                Some(Some(x)) => Some(Some(x.model())),
                Some(None) => Some(None),
                None => None,
            },
        }
    }
}

fn read_vault_member(buf: &[u8], p: usize, f: VaultParts) -> (r: Option<(VaultParts, usize)>)
    requires
        p <= buf@.len(),
    ensures
        match vault_member(buf@, p as int, f.fields()) {
            Some((g, e)) => r matches Some((h, x)) && h.fields() == g && x == e,
            None => r is None,
        },
        r matches Some((_, x)) ==> p < x <= buf@.len(),
{
    let (k, v) = match read_key(buf, p) {
        Some(x) => x,
        None => return None,
    };
    let mut f = f;
    if key_is(&k, &KEY_IDENTITY) {
        if f.identity.is_some() {
            return None;
        }
        match read_identity_or_null(buf, v) {
            Some((x, e)) => {
                f.identity = Some(x);
                Some((f, e))
            },
            None => None,
        }
    } else if key_is(&k, &KEY_PEER) {
        if f.peer.is_some() {
            return None;
        }
        match read_peer_or_null(buf, v) {
            Some((x, e)) => {
                f.peer = Some(x);
                Some((f, e))
            },
            None => None,
        }
    } else {
        if string_from_utf8(k).is_none() {
            return None;
        }
        match skip_value(buf, v) {
            Some(e) => Some((f, e)),
            None => None,
        }
    }
}

fn read_vault_members(buf: &[u8], q: usize) -> (r: Option<(VaultParts, usize)>)
    requires
        q <= buf@.len(),
    ensures
        match vault_members(buf@, q as int, VaultFields { identity: None, peer: None }) {
            Some((g, e)) => r matches Some((h, x)) && h.fields() == g && x == e,
            None => r is None,
        },
        r matches Some((_, x)) ==> q < x <= buf@.len(),
{
    let n = buf.len();
    let mut f = VaultParts { identity: None, peer: None };
    let ghost first = f.fields();
    assert(first == VaultFields { identity: None, peer: None });
    let mut i = q;
    loop
        invariant
            n == buf@.len(),
            q <= i <= n,
            vault_members(buf@, q as int, first) == vault_members(buf@, i as int, f.fields()),
            first == (VaultFields { identity: None, peer: None }),
        decreases n - i,
    {
        let ghost fi = f.fields();
        let (g, e) = match read_vault_member(buf, i, f) {
            Some(x) => x,
            None => {
                assert(vault_members(buf@, i as int, fi) is None);
                return None;
            },
        };
        assert(vault_member(buf@, i as int, fi) == Some((g.fields(), e as int)));
        match next_member(buf, i, e) {
            None => {
                assert(vault_members(buf@, i as int, fi) is None);
                return None;
            },
            Some((more, s)) => {
                if more {
                    assert(vault_members(buf@, i as int, fi) == vault_members(
                        buf@,
                        s as int,
                        g.fields(),
                    ));
                    f = g;
                    i = s;
                } else {
                    assert(vault_members(buf@, i as int, fi) == Some((g.fields(), s as int)));
                    return Some((g, s));
                }
            },
        }
    }
}

fn read_vault_at(buf: &[u8], p: usize) -> (r: Option<(StoredVault, usize)>)
    requires
        p <= buf@.len(),
    ensures
        match vault_at(buf@, p as int) {
            Some((m, e)) => r matches Some((v, x)) && v.model() == m && x == e,
            None => r is None,
        },
        r matches Some((_, x)) ==> p < x <= buf@.len(),
{
    let n = buf.len();
    if p < n && buf[p] == 0x5b {
        let (identity, e1) = match read_identity_or_null(buf, ws_end(buf, p + 1)) {
            Some(x) => x,
            None => return None,
        };
        let q2 = match next_element(buf, e1) {
            Some(q) => q,
            None => return None,
        };
        let (peer, e2) = match read_peer_or_null(buf, q2) {
            Some(x) => x,
            None => return None,
        };
        return match close_elements(buf, e2) {
            Some(e) => Some((StoredVault { identity, peer }, e)),
            None => None,
        };
    }
    if p >= n || buf[p] != 0x7b {
        return None;
    }
    let q = ws_end(buf, p + 1);
    let (f, end) = if q < n && buf[q] == 0x7d {
        (VaultParts { identity: None, peer: None }, q + 1)
    } else {
        match read_vault_members(buf, q) {
            Some(x) => x,
            None => return None,
        }
    };
    let identity = match f.identity {
        Some(x) => x,
        None => None,
    };
    let peer = match f.peer {
        Some(x) => x,
        None => None,
    };
    Some((StoredVault { identity, peer }, end))
}

/// Reads the vault from stored bytes, accepting every JSON text that
/// `serde_json` reads as a vault.
pub fn read_vault_json(buf: &[u8]) -> (r: Option<StoredVault>)
    ensures
        match vault_read(buf@) {
            Some(m) => r matches Some(v) && v.model() == m,
            None => r is None,
        },
{
    let p = ws_end(buf, 0);
    match read_vault_at(buf, p) {
        Some((v, e)) => if ws_end(buf, e) == buf.len() {
            Some(v)
        } else {
            None
        },
        None => None,
    }
}

/// What `escape_byte` writes for a byte that needs an escape reads back as
/// that byte.
proof fn lemma_escape_at_escape_byte(b: u8, pre: Seq<u8>, rest: Seq<u8>)
    requires
        b == 0x22 || b == 0x5c || b < 0x20,
    ensures
        ({
            let buf = pre + escape_byte(b) + rest;
            &&& buf[pre.len() as int] == 0x5c
            &&& escape_at(buf, pre.len() as int + 1) == Some(
                (seq![b], pre.len() + escape_byte(b).len() as int),
            )
        }),
{
    let buf = pre + escape_byte(b) + rest;
    let p = pre.len() as int;
    assert(buf[p] == escape_byte(b)[0]);
    assert(buf[p + 1] == escape_byte(b)[1]);
    if b < 0x20 && b != 0x08 && b != 0x0c && b != 0x0a && b != 0x0d && b != 0x09 {
        assert(buf[p + 2] == 0x30);
        assert(buf[p + 3] == 0x30);
        assert(buf[p + 4] == hex_nibble(b as int / 16));
        assert(buf[p + 5] == hex_nibble(b as int % 16));
        assert(hex_digit(hex_nibble(b as int / 16)) == Some(b as int / 16));
        assert(hex_digit(hex_nibble(b as int % 16)) == Some(b as int % 16));
        assert(hex4(buf, p + 2) == Some(b as int));
        assert(utf8_bytes(b as int) =~= seq![b]);
    }
}

/// An escaped byte string followed by a closing quote reads back as the
/// bytes, whatever comes after the quote.
pub proof fn lemma_str_body_escape(s: Seq<u8>, pre: Seq<u8>, rest: Seq<u8>)
    ensures
        str_body(pre + escape(s) + seq![0x22u8] + rest, pre.len() as int) == Some(
            (s, pre.len() + escape(s).len() + 1int),
        ),
    decreases s.len(),
{
    let buf = pre + escape(s) + seq![0x22u8] + rest;
    let p = pre.len() as int;
    if s.len() == 0 {
        assert(escape(s) =~= Seq::<u8>::empty());
        assert(buf[p] == 0x22);
        assert(s =~= Seq::<u8>::empty());
    } else {
        let b = s[0];
        let e = escape_byte(b);
        let pre2 = pre + e;
        let tail = escape(s.drop_first()) + seq![0x22u8] + rest;
        assert(buf =~= pre2 + escape(s.drop_first()) + seq![0x22u8] + rest);
        assert(buf =~= pre + e + tail);
        lemma_str_body_escape(s.drop_first(), pre2, rest);
        let q = p + e.len();
        if b == 0x22 || b == 0x5c || b < 0x20 {
            lemma_escape_at_escape_byte(b, pre, tail);
            assert(q <= buf.len());
        } else {
            assert(e =~= seq![b]);
            assert(buf[p] == b);
        }
        assert(seq![b] + s.drop_first() =~= s);
    }
}

/// A written text reads back as the text, whatever follows it.
pub proof fn lemma_text_round_trip(s: Seq<char>, pre: Seq<u8>, rest: Seq<u8>)
    ensures
        text_at(pre + json_str(encode_utf8(s)) + rest, pre.len() as int) == Some(
            (s, pre.len() + json_str(encode_utf8(s)).len() as int),
        ),
{
    let b = encode_utf8(s);
    let buf = pre + json_str(b) + rest;
    let p = pre.len() as int;
    assert(buf =~= (pre + seq![0x22u8]) + escape(b) + seq![0x22u8] + rest);
    assert(buf[p] == 0x22);
    lemma_str_body_escape(b, pre + seq![0x22u8], rest);
    encode_utf8_valid_utf8(s);
    encode_utf8_decode_utf8(s);
}

/// Bytes that need no escape are written as they are.
pub proof fn lemma_escape_plain(s: Seq<u8>)
    requires
        forall|i: int| 0 <= i < s.len() ==> #[trigger] s[i] >= 0x20 && s[i] != 0x22 && s[i] != 0x5c,
    ensures
        escape(s) == s,
    decreases s.len(),
{
    if s.len() > 0 {
        assert forall|i: int| 0 <= i < s.drop_first().len() implies #[trigger] s.drop_first()[i] >= 0x20
            && s.drop_first()[i] != 0x22 && s.drop_first()[i] != 0x5c by {
            assert(s.drop_first()[i] == s[i + 1]);
        }
        lemma_escape_plain(s.drop_first());
        assert(escape_byte(s[0]) =~= seq![s[0]]);
        assert(seq![s[0]] + s.drop_first() =~= s);
    }
}

/// A key written as a string literal and a colon, followed by a value that
/// starts at once, reads back as the key, with its value after the colon.
pub proof fn lemma_key_round_trip(key: Seq<u8>, pre: Seq<u8>, rest: Seq<u8>)
    requires
        rest.len() > 0,
        !is_ws(rest[0]),
    ensures
        key_at(pre + json_str(key) + seq![0x3au8] + rest, pre.len() as int) == Some(
            (key, pre.len() + json_str(key).len() + 1int),
        ),
{
    let buf = pre + json_str(key) + seq![0x3au8] + rest;
    let p = pre.len() as int;
    assert(buf =~= (pre + seq![0x22u8]) + escape(key) + seq![0x22u8] + (seq![0x3au8] + rest));
    assert(buf[p] == 0x22);
    lemma_str_body_escape(key, pre + seq![0x22u8], seq![0x3au8] + rest);
    let e = p + json_str(key).len();
    assert(buf[e] == 0x3a);
    assert(skip_ws(buf, e) == e);
    assert(buf[e + 1] == rest[0]);
    assert(skip_ws(buf, e + 1) == e + 1);
}

proof fn lemma_dec_digit(b: u8)
    ensures
        dec(b).len() >= 1,
        crate::json::is_digit(dec(b)[0]),
        !is_ws(dec(b)[0]),
{
}

proof fn lemma_byte_items_join(v: Seq<u8>, pre: Seq<u8>, rest: Seq<u8>)
    requires
        v.len() >= 1,
    ensures
        byte_items(pre + join(v) + seq![0x5du8] + rest, pre.len() as int) == Some(
            (v, pre.len() + join(v).len() + 1int),
        ),
    decreases v.len(),
{
    let buf = pre + join(v) + seq![0x5du8] + rest;
    let p = pre.len() as int;
    let b = v[0];
    let d = dec(b);
    lemma_dec_digit(b);
    let e = p + d.len();
    if v.len() == 1 {
        assert(join(v) == d);
        assert(buf =~= pre + d + (seq![0x5du8] + rest));
        assert(buf[p] == d[0]);
        assert(skip_ws(buf, p) == p);
        assert(buf.skip(p) =~= d + (seq![0x5du8] + rest));
        lemma_num_dec(b, seq![0x5du8] + rest);
        assert(buf[e] == 0x5d);
        assert(skip_ws(buf, e) == e);
        assert(seq![b] =~= v);
    } else {
        lemma_join_first(v);
        let tail = join(v.drop_first()) + seq![0x5du8] + rest;
        assert(buf =~= pre + d + (seq![0x2cu8] + tail));
        assert(buf[p] == d[0]);
        assert(skip_ws(buf, p) == p);
        assert(buf.skip(p) =~= d + (seq![0x2cu8] + tail));
        lemma_num_dec(b, seq![0x2cu8] + tail);
        assert(buf[e] == 0x2c);
        assert(skip_ws(buf, e) == e);
        let pre2 = pre + d + seq![0x2cu8];
        assert(buf =~= pre2 + join(v.drop_first()) + seq![0x5du8] + rest);
        lemma_byte_items_join(v.drop_first(), pre2, rest);
        assert(seq![b] + v.drop_first() =~= v);
    }
}

/// A written byte vector reads back as the vector, whatever follows it.
pub proof fn lemma_byte_array_round_trip(v: Seq<u8>, pre: Seq<u8>, rest: Seq<u8>)
    ensures
        byte_array_at(pre + json_bytes(v) + rest, pre.len() as int) == Some(
            (v, pre.len() + json_bytes(v).len() as int),
        ),
{
    let buf = pre + json_bytes(v) + rest;
    let p = pre.len() as int;
    assert(buf[p] == 0x5b);
    if v.len() == 0 {
        assert(join(v) =~= Seq::<u8>::empty());
        assert(buf[p + 1] == 0x5d);
        assert(skip_ws(buf, p + 1) == p + 1);
        assert(v =~= Seq::<u8>::empty());
    } else {
        lemma_dec_digit(v[0]);
        if v.len() == 1 {
            assert(join(v) == dec(v[0]));
        } else {
            lemma_join_first(v);
        }
        assert(buf[p + 1] == dec(v[0])[0]);
        assert(skip_ws(buf, p + 1) == p + 1);
        assert(buf =~= (pre + seq![0x5bu8]) + join(v) + seq![0x5du8] + rest);
        lemma_byte_items_join(v, pre + seq![0x5bu8], rest);
    }
}

/// The fixed parts of the stored form: each key, between its punctuation.
proof fn lemma_tokens()
    ensures
        TOK_IDENTITY@ == seq![0x7bu8] + json_str(KEY_IDENTITY@) + seq![0x3au8],
        TOK_PEER@ == seq![0x2cu8] + json_str(KEY_PEER@) + seq![0x3au8],
        TOK_DEVICE_ID@ == seq![0x7bu8] + json_str(KEY_DEVICE_ID@) + seq![0x3au8],
        TOK_DEVICE_NAME@ == seq![0x2cu8] + json_str(KEY_DEVICE_NAME@) + seq![0x3au8],
        TOK_CERT_DER@ == seq![0x2cu8] + json_str(KEY_CERT_DER@) + seq![0x3au8],
        TOK_KEY_DER@ == seq![0x2cu8] + json_str(KEY_KEY_DER@) + seq![0x3au8],
        KEY_IDENTITY@.len() == 8,
        KEY_PEER@.len() == 4,
        KEY_DEVICE_ID@.len() == 9,
        KEY_DEVICE_NAME@.len() == 11,
        KEY_CERT_DER@.len() == 8,
        KEY_KEY_DER@.len() == 7,
        KEY_IDENTITY@ != KEY_PEER@,
        KEY_DEVICE_ID@ != KEY_CERT_DER@,
        KEY_DEVICE_ID@ != KEY_KEY_DER@,
        KEY_CERT_DER@ != KEY_KEY_DER@,
        KEY_DEVICE_ID@ != KEY_DEVICE_NAME@,
        KEY_DEVICE_NAME@ != KEY_CERT_DER@,
{
    lemma_escape_plain(KEY_IDENTITY@);
    lemma_escape_plain(KEY_PEER@);
    lemma_escape_plain(KEY_DEVICE_ID@);
    lemma_escape_plain(KEY_DEVICE_NAME@);
    lemma_escape_plain(KEY_CERT_DER@);
    lemma_escape_plain(KEY_KEY_DER@);
    assert(TOK_IDENTITY@ =~= seq![0x7bu8] + json_str(KEY_IDENTITY@) + seq![0x3au8]);
    assert(TOK_PEER@ =~= seq![0x2cu8] + json_str(KEY_PEER@) + seq![0x3au8]);
    assert(TOK_DEVICE_ID@ =~= seq![0x7bu8] + json_str(KEY_DEVICE_ID@) + seq![0x3au8]);
    assert(TOK_DEVICE_NAME@ =~= seq![0x2cu8] + json_str(KEY_DEVICE_NAME@) + seq![0x3au8]);
    assert(TOK_CERT_DER@ =~= seq![0x2cu8] + json_str(KEY_CERT_DER@) + seq![0x3au8]);
    assert(TOK_KEY_DER@ =~= seq![0x2cu8] + json_str(KEY_KEY_DER@) + seq![0x3au8]);
}

/// A member whose value is a text reads back as its key and the text.
proof fn lemma_text_member(buf: Seq<u8>, pre: Seq<u8>, key: Seq<u8>, x: Seq<char>, tail: Seq<u8>)
    requires
        buf == pre + json_str(key) + seq![0x3au8] + (json_str(encode_utf8(x)) + tail),
    ensures
        ({
            let v = pre.len() + json_str(key).len() + 1int;
            &&& key_at(buf, pre.len() as int) == Some((key, v))
            &&& text_at(buf, v) == Some((x, v + json_str(encode_utf8(x)).len()))
        }),
{
    let r = json_str(encode_utf8(x)) + tail;
    assert(r[0] == 0x22);
    lemma_key_round_trip(key, pre, r);
    assert(buf =~= (pre + json_str(key) + seq![0x3au8]) + json_str(encode_utf8(x)) + tail);
    lemma_text_round_trip(x, pre + json_str(key) + seq![0x3au8], tail);
}

/// A member whose value is a byte vector reads back as its key and the bytes.
proof fn lemma_bytes_member(buf: Seq<u8>, pre: Seq<u8>, key: Seq<u8>, x: Seq<u8>, tail: Seq<u8>)
    requires
        buf == pre + json_str(key) + seq![0x3au8] + (json_bytes(x) + tail),
    ensures
        ({
            let v = pre.len() + json_str(key).len() + 1int;
            &&& key_at(buf, pre.len() as int) == Some((key, v))
            &&& byte_array_at(buf, v) == Some((x, v + json_bytes(x).len()))
        }),
{
    let r = json_bytes(x) + tail;
    assert(r[0] == 0x5b);
    lemma_key_round_trip(key, pre, r);
    assert(buf =~= (pre + json_str(key) + seq![0x3au8]) + json_bytes(x) + tail);
    lemma_byte_array_round_trip(x, pre + json_str(key) + seq![0x3au8], tail);
}

/// A comma followed at once by the next member, or a closing brace.
proof fn lemma_after_member_at(buf: Seq<u8>, p: int, e: int)
    requires
        p < e,
        0 <= e < buf.len(),
        buf[e] == 0x2c || buf[e] == 0x7d,
        buf[e] == 0x2c ==> e + 1 < buf.len() && !is_ws(buf[e + 1]),
    ensures
        after_member(buf, p, e) == if buf[e] == 0x2c {
            Some((true, e + 1))
        } else {
            Some((false, e + 1))
        },
{
    assert(skip_ws(buf, e) == e);
    if buf[e] == 0x2c {
        assert(skip_ws(buf, e + 1) == e + 1);
    }
}

#[verifier::rlimit(60)]
#[verifier::spinoff_prover]
proof fn lemma_identity_layout(m: IdentityModel, pre: Seq<u8>, rest: Seq<u8>)
    ensures
        ({
            let a = TOK_DEVICE_ID@;
            let sj = json_str(encode_utf8(m.device_id));
            let b = TOK_CERT_DER@;
            let c = json_bytes(m.cert_der);
            let d = TOK_KEY_DER@;
            let e = json_bytes(m.key_der);
            let f = TOK_CLOSE@;
            let buf = pre + identity_json(m) + rest;
            let p = pre.len() as int;
            let e1 = p + 13 + sj.len();
            let e2 = e1 + 12 + c.len();
            let e3 = e2 + 11 + e.len();
            &&& buf == (pre + seq![0x7bu8]) + json_str(KEY_DEVICE_ID@) + seq![0x3au8] + (sj + (b + c + d
                + e + f + rest))
            &&& buf == (pre + a + sj + seq![0x2cu8]) + json_str(KEY_CERT_DER@) + seq![0x3au8] + (c + (d
                + e + f + rest))
            &&& buf == (pre + a + sj + b + c + seq![0x2cu8]) + json_str(KEY_KEY_DER@) + seq![0x3au8] + (e
                + (f + rest))
            &&& buf[p] == 0x7b && buf[p + 1] == 0x22
            &&& buf[e1] == 0x2c && buf[e1 + 1] == 0x22
            &&& buf[e2] == 0x2c && buf[e2 + 1] == 0x22
            &&& buf[e3] == 0x7d
            &&& e3 + 1 == p + identity_json(m).len()
            &&& e3 < buf.len()
        }),
{
    lemma_tokens();
    let a = TOK_DEVICE_ID@;
    let sj = json_str(encode_utf8(m.device_id));
    let b = TOK_CERT_DER@;
    let c = json_bytes(m.cert_der);
    let d = TOK_KEY_DER@;
    let e = json_bytes(m.key_der);
    let f = TOK_CLOSE@;
    let buf = pre + identity_json(m) + rest;
    assert(buf =~= pre + a + sj + b + c + d + e + f + rest);
    assert(buf =~= (pre + seq![0x7bu8]) + json_str(KEY_DEVICE_ID@) + seq![0x3au8] + (sj + (b + c + d
        + e + f + rest)));
    assert(buf =~= (pre + a + sj + seq![0x2cu8]) + json_str(KEY_CERT_DER@) + seq![0x3au8] + (c + (d + e
        + f + rest)));
    assert(buf =~= (pre + a + sj + b + c + seq![0x2cu8]) + json_str(KEY_KEY_DER@) + seq![0x3au8] + (e
        + (f + rest)));
}

/// A written identity reads back as the identity, whatever follows it.
#[verifier::rlimit(100)]
#[verifier::spinoff_prover]
pub proof fn lemma_identity_read_back(m: IdentityModel, pre: Seq<u8>, rest: Seq<u8>)
    ensures
        identity_at(pre + identity_json(m) + rest, pre.len() as int) == Some(
            (m, pre.len() + identity_json(m).len() as int),
        ),
{
    lemma_tokens();
    lemma_identity_layout(m, pre, rest);
    let a = TOK_DEVICE_ID@;
    let sj = json_str(encode_utf8(m.device_id));
    let b = TOK_CERT_DER@;
    let c = json_bytes(m.cert_der);
    let d = TOK_KEY_DER@;
    let e = json_bytes(m.key_der);
    let f = TOK_CLOSE@;
    let buf = pre + identity_json(m) + rest;
    let p = pre.len() as int;
    let e1 = p + 13 + sj.len();
    let e2 = e1 + 12 + c.len();
    let e3 = e2 + 11 + e.len();
    let none = IdentityFields { device_id: None, cert_der: None, key_der: None };
    let f1 = IdentityFields { device_id: Some(m.device_id), cert_der: None, key_der: None };
    let f2 = IdentityFields { device_id: Some(m.device_id), cert_der: Some(m.cert_der), key_der: None };
    let f3 = IdentityFields {
        device_id: Some(m.device_id),
        cert_der: Some(m.cert_der),
        key_der: Some(m.key_der),
    };
    assert(identity_member(buf, p + 1, none) == Some((f1, e1))) by {
        lemma_text_member(buf, pre + seq![0x7bu8], KEY_DEVICE_ID@, m.device_id, b + c + d + e + f + rest);
    }
    assert(identity_member(buf, e1 + 1, f1) == Some((f2, e2))) by {
        lemma_bytes_member(buf, pre + a + sj + seq![0x2cu8], KEY_CERT_DER@, m.cert_der, d + e + f + rest);
    }
    assert(identity_member(buf, e2 + 1, f2) == Some((f3, e3))) by {
        lemma_bytes_member(buf, pre + a + sj + b + c + seq![0x2cu8], KEY_KEY_DER@, m.key_der, f + rest);
    }
    lemma_after_member_at(buf, p + 1, e1);
    lemma_after_member_at(buf, e1 + 1, e2);
    lemma_after_member_at(buf, e2 + 1, e3);
    assert(identity_members(buf, e2 + 1, f2) == Some((f3, e3 + 1)));
    assert(identity_members(buf, e1 + 1, f1) == Some((f3, e3 + 1)));
    assert(identity_members(buf, p + 1, none) == Some((f3, e3 + 1)));
    assert(skip_ws(buf, p + 1) == p + 1);
}

#[verifier::rlimit(60)]
#[verifier::spinoff_prover]
proof fn lemma_peer_layout(m: PeerModel, pre: Seq<u8>, rest: Seq<u8>)
    ensures
        ({
            let a = TOK_DEVICE_ID@;
            let sj = json_str(encode_utf8(m.device_id));
            let b = TOK_DEVICE_NAME@;
            let nj = json_str(encode_utf8(m.device_name));
            let d = TOK_CERT_DER@;
            let e = json_bytes(m.cert_der);
            let f = TOK_CLOSE@;
            let buf = pre + peer_json(m) + rest;
            let p = pre.len() as int;
            let e1 = p + 13 + sj.len();
            let e2 = e1 + 15 + nj.len();
            let e3 = e2 + 12 + e.len();
            &&& buf == (pre + seq![0x7bu8]) + json_str(KEY_DEVICE_ID@) + seq![0x3au8] + (sj + (b + nj + d
                + e + f + rest))
            &&& buf == (pre + a + sj + seq![0x2cu8]) + json_str(KEY_DEVICE_NAME@) + seq![0x3au8] + (nj + (d
                + e + f + rest))
            &&& buf == (pre + a + sj + b + nj + seq![0x2cu8]) + json_str(KEY_CERT_DER@) + seq![0x3au8] + (e
                + (f + rest))
            &&& buf[p] == 0x7b && buf[p + 1] == 0x22
            &&& buf[e1] == 0x2c && buf[e1 + 1] == 0x22
            &&& buf[e2] == 0x2c && buf[e2 + 1] == 0x22
            &&& buf[e3] == 0x7d
            &&& e3 + 1 == p + peer_json(m).len()
            &&& e3 < buf.len()
        }),
{
    lemma_tokens();
    let a = TOK_DEVICE_ID@;
    let sj = json_str(encode_utf8(m.device_id));
    let b = TOK_DEVICE_NAME@;
    let nj = json_str(encode_utf8(m.device_name));
    let d = TOK_CERT_DER@;
    let e = json_bytes(m.cert_der);
    let f = TOK_CLOSE@;
    let buf = pre + peer_json(m) + rest;
    assert(buf =~= pre + a + sj + b + nj + d + e + f + rest);
    assert(buf =~= (pre + seq![0x7bu8]) + json_str(KEY_DEVICE_ID@) + seq![0x3au8] + (sj + (b + nj + d
        + e + f + rest)));
    assert(buf =~= (pre + a + sj + seq![0x2cu8]) + json_str(KEY_DEVICE_NAME@) + seq![0x3au8] + (nj + (d
        + e + f + rest)));
    assert(buf =~= (pre + a + sj + b + nj + seq![0x2cu8]) + json_str(KEY_CERT_DER@) + seq![0x3au8] + (e
        + (f + rest)));
}

/// A written peer reads back as the peer, whatever follows it.
#[verifier::rlimit(100)]
#[verifier::spinoff_prover]
pub proof fn lemma_peer_read_back(m: PeerModel, pre: Seq<u8>, rest: Seq<u8>)
    ensures
        peer_at(pre + peer_json(m) + rest, pre.len() as int) == Some(
            (m, pre.len() + peer_json(m).len() as int),
        ),
{
    lemma_tokens();
    lemma_peer_layout(m, pre, rest);
    let a = TOK_DEVICE_ID@;
    let sj = json_str(encode_utf8(m.device_id));
    let b = TOK_DEVICE_NAME@;
    let nj = json_str(encode_utf8(m.device_name));
    let d = TOK_CERT_DER@;
    let e = json_bytes(m.cert_der);
    let f = TOK_CLOSE@;
    let buf = pre + peer_json(m) + rest;
    let p = pre.len() as int;
    let e1 = p + 13 + sj.len();
    let e2 = e1 + 15 + nj.len();
    let e3 = e2 + 12 + e.len();
    let none = PeerFields { device_id: None, device_name: None, cert_der: None };
    let f1 = PeerFields { device_id: Some(m.device_id), device_name: None, cert_der: None };
    let f2 = PeerFields {
        device_id: Some(m.device_id),
        device_name: Some(m.device_name),
        cert_der: None,
    };
    let f3 = PeerFields {
        device_id: Some(m.device_id),
        device_name: Some(m.device_name),
        cert_der: Some(m.cert_der),
    };
    assert(peer_member(buf, p + 1, none) == Some((f1, e1))) by {
        lemma_text_member(buf, pre + seq![0x7bu8], KEY_DEVICE_ID@, m.device_id, b + nj + d + e + f + rest);
    }
    assert(peer_member(buf, e1 + 1, f1) == Some((f2, e2))) by {
        lemma_text_member(buf, pre + a + sj + seq![0x2cu8], KEY_DEVICE_NAME@, m.device_name, d + e + f + rest);
    }
    assert(peer_member(buf, e2 + 1, f2) == Some((f3, e3))) by {
        lemma_bytes_member(buf, pre + a + sj + b + nj + seq![0x2cu8], KEY_CERT_DER@, m.cert_der, f + rest);
    }
    lemma_after_member_at(buf, p + 1, e1);
    lemma_after_member_at(buf, e1 + 1, e2);
    lemma_after_member_at(buf, e2 + 1, e3);
    assert(peer_members(buf, e2 + 1, f2) == Some((f3, e3 + 1)));
    assert(peer_members(buf, e1 + 1, f1) == Some((f3, e3 + 1)));
    assert(peer_members(buf, p + 1, none) == Some((f3, e3 + 1)));
    assert(skip_ws(buf, p + 1) == p + 1);
}

/// The stored form of an optional identity: its object, or `null`.
pub open spec fn identity_part(i: Option<IdentityModel>) -> Seq<u8> {
    match i {
        Some(i) => identity_json(i),
        None => TOK_NULL@,
    }
}

/// The stored form of an optional peer: its object, or `null`.
pub open spec fn peer_part(p: Option<PeerModel>) -> Seq<u8> {
    match p {
        Some(p) => peer_json(p),
        None => TOK_NULL@,
    }
}

proof fn lemma_identity_part_read_back(i: Option<IdentityModel>, pre: Seq<u8>, rest: Seq<u8>)
    ensures
        identity_or_null_at(pre + identity_part(i) + rest, pre.len() as int) == Some(
            (i, pre.len() + identity_part(i).len() as int),
        ),
        identity_part(i).len() > 0,
        !is_ws(identity_part(i)[0]),
{
    let buf = pre + identity_part(i) + rest;
    let p = pre.len() as int;
    lemma_tokens();
    match i {
        Some(m) => {
            assert(identity_json(m)[0] == 0x7b);
            assert(buf[p] == 0x7b);
            lemma_identity_read_back(m, pre, rest);
        },
        None => {
            assert(buf[p] == 0x6e);
            assert(buf.subrange(p, p + 4) =~= LIT_NULL@);
        },
    }
}

proof fn lemma_peer_part_read_back(x: Option<PeerModel>, pre: Seq<u8>, rest: Seq<u8>)
    ensures
        peer_or_null_at(pre + peer_part(x) + rest, pre.len() as int) == Some(
            (x, pre.len() + peer_part(x).len() as int),
        ),
        peer_part(x).len() > 0,
        !is_ws(peer_part(x)[0]),
{
    let buf = pre + peer_part(x) + rest;
    let p = pre.len() as int;
    lemma_tokens();
    match x {
        Some(m) => {
            assert(peer_json(m)[0] == 0x7b);
            assert(buf[p] == 0x7b);
            lemma_peer_read_back(m, pre, rest);
        },
        None => {
            assert(buf[p] == 0x6e);
            assert(buf.subrange(p, p + 4) =~= LIT_NULL@);
        },
    }
}

#[verifier::rlimit(60)]
#[verifier::spinoff_prover]
proof fn lemma_vault_layout(v: VaultModel)
    ensures
        ({
            let a = TOK_IDENTITY@;
            let ij = identity_part(v.identity);
            let b = TOK_PEER@;
            let pj = peer_part(v.peer);
            let f = TOK_CLOSE@;
            let buf = vault_json(v);
            let e1 = 12 + ij.len() as int;
            let e2 = e1 + 8 + pj.len() as int;
            &&& buf == seq![0x7bu8] + json_str(KEY_IDENTITY@) + seq![0x3au8] + (ij + (b + pj + f))
            &&& buf == a + ij + (b + pj + f)
            &&& buf == (a + ij + seq![0x2cu8]) + json_str(KEY_PEER@) + seq![0x3au8] + (pj + f)
            &&& buf == (a + ij + b) + pj + f
            &&& buf[0] == 0x7b && buf[1] == 0x22
            &&& buf[e1] == 0x2c && buf[e1 + 1] == 0x22
            &&& buf[e2] == 0x7d
            &&& e2 + 1 == buf.len()
        }),
{
    lemma_tokens();
    let a = TOK_IDENTITY@;
    let ij = identity_part(v.identity);
    let b = TOK_PEER@;
    let pj = peer_part(v.peer);
    let f = TOK_CLOSE@;
    let buf = vault_json(v);
    assert(buf =~= a + ij + b + pj + f);
    assert(buf =~= seq![0x7bu8] + json_str(KEY_IDENTITY@) + seq![0x3au8] + (ij + (b + pj + f)));
    assert(buf =~= a + ij + (b + pj + f));
    assert(buf =~= (a + ij + seq![0x2cu8]) + json_str(KEY_PEER@) + seq![0x3au8] + (pj + f));
    assert(buf =~= (a + ij + b) + pj + f);
}

/// The stored form of a vault reads back as the vault.
#[verifier::rlimit(100)]
#[verifier::spinoff_prover]
pub proof fn lemma_vault_read_back(v: VaultModel)
    ensures
        vault_read(vault_json(v)) == Some(v),
{
    lemma_tokens();
    lemma_vault_layout(v);
    let a = TOK_IDENTITY@;
    let ij = identity_part(v.identity);
    let b = TOK_PEER@;
    let pj = peer_part(v.peer);
    let f = TOK_CLOSE@;
    let buf = vault_json(v);
    let e1 = 12 + ij.len() as int;
    let e2 = e1 + 8 + pj.len() as int;
    let none = VaultFields { identity: None, peer: None };
    let f1 = VaultFields { identity: Some(v.identity), peer: None };
    let f2 = VaultFields { identity: Some(v.identity), peer: Some(v.peer) };
    lemma_identity_part_read_back(v.identity, a, b + pj + f);
    lemma_key_round_trip(KEY_IDENTITY@, seq![0x7bu8], ij + (b + pj + f));
    assert(vault_member(buf, 1, none) == Some((f1, e1)));
    lemma_peer_part_read_back(v.peer, a + ij + b, f);
    lemma_key_round_trip(KEY_PEER@, a + ij + seq![0x2cu8], pj + f);
    assert(vault_member(buf, e1 + 1, f1) == Some((f2, e2)));
    lemma_after_member_at(buf, 1, e1);
    lemma_after_member_at(buf, e1 + 1, e2);
    assert(vault_members(buf, e1 + 1, f1) == Some((f2, e2 + 1)));
    assert(vault_members(buf, 1, none) == Some((f2, e2 + 1)));
    assert(skip_ws(buf, 0) == 0);
    assert(skip_ws(buf, 1) == 1);
    assert(skip_ws(buf, e2 + 1) == e2 + 1);
}

} // verus!
