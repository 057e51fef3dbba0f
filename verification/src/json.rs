//! The compact JSON forms that the vault and the pairing transcript are
//! stored and hashed in: strings escaped as `serde_json` escapes them, byte
//! vectors as arrays of decimal numbers.

use vstd::prelude::*;

verus! {

pub open spec fn hex_nibble(v: int) -> u8 {
    if v < 10 {
        (0x30 + v) as u8
    } else {
        (0x61 + (v - 10)) as u8
    }
}

/// How one byte of a string is written inside a JSON string literal: the
/// quote, the backslash and the control characters are escaped, the short
/// forms where JSON has them, `\u00XX` with lower-case hex otherwise.
pub open spec fn escape_byte(b: u8) -> Seq<u8> {
    if b == 0x22 {
        seq![0x5c, 0x22]
    } else if b == 0x5c {
        seq![0x5c, 0x5c]
    } else if b == 0x08 {
        seq![0x5c, 0x62]
    } else if b == 0x0c {
        seq![0x5c, 0x66]
    } else if b == 0x0a {
        seq![0x5c, 0x6e]
    } else if b == 0x0d {
        seq![0x5c, 0x72]
    } else if b == 0x09 {
        seq![0x5c, 0x74]
    } else if b < 0x20 {
        seq![0x5c, 0x75, 0x30, 0x30, hex_nibble(b as int / 16), hex_nibble(b as int % 16)]
    } else {
        seq![b]
    }
}

/// The escaped form of a byte string.
pub open spec fn escape(s: Seq<u8>) -> Seq<u8>
    decreases s.len(),
{
    if s.len() == 0 {
        seq![]
    } else {
        escape_byte(s[0]) + escape(s.drop_first())
    }
}

/// A JSON string literal holding the given UTF-8 bytes.
pub open spec fn json_str(s: Seq<u8>) -> Seq<u8> {
    seq![0x22u8] + escape(s) + seq![0x22u8]
}

pub proof fn lemma_escape_append(a: Seq<u8>, b: Seq<u8>)
    ensures
        escape(a + b) == escape(a) + escape(b),
    decreases a.len(),
{
    if a.len() == 0 {
        assert(a + b =~= b);
    } else {
        assert((a + b).drop_first() =~= a.drop_first() + b);
        lemma_escape_append(a.drop_first(), b);
    }
}

proof fn lemma_escape_push(a: Seq<u8>, b: u8)
    ensures
        escape(a.push(b)) == escape(a) + escape_byte(b),
{
    lemma_escape_append(a, seq![b]);
    assert(a.push(b) =~= a + seq![b]);
    assert(escape(seq![b]) =~= escape_byte(b)) by {
        assert(seq![b].drop_first() =~= Seq::<u8>::empty());
        assert(escape(Seq::<u8>::empty()) =~= Seq::<u8>::empty());
        assert(escape_byte(b) + Seq::<u8>::empty() =~= escape_byte(b));
    }
}

/// Appends the JSON string literal for `s` to `out`.
pub fn write_json_str(out: &mut Vec<u8>, s: &[u8])
    ensures
        final(out)@ == old(out)@ + json_str(s@),
{
    out.push(0x22);
    let n = s.len();
    let mut i: usize = 0;
    while i < n
        invariant
            n == s@.len(),
            i <= n,
            out@ == old(out)@ + seq![0x22u8] + escape(s@.subrange(0, i as int)),
        decreases n - i,
    {
        let b = s[i];
        proof {
            lemma_escape_push(s@.subrange(0, i as int), b);
            assert(s@.subrange(0, i as int).push(b) =~= s@.subrange(0, i + 1));
        }
        if b == 0x22 {
            out.push(0x5c);
            out.push(0x22);
        } else if b == 0x5c {
            out.push(0x5c);
            out.push(0x5c);
        } else if b == 0x08 {
            out.push(0x5c);
            out.push(0x62);
        } else if b == 0x0c {
            out.push(0x5c);
            out.push(0x66);
        } else if b == 0x0a {
            out.push(0x5c);
            out.push(0x6e);
        } else if b == 0x0d {
            out.push(0x5c);
            out.push(0x72);
        } else if b == 0x09 {
            out.push(0x5c);
            out.push(0x74);
        } else if b < 0x20 {
            out.push(0x5c);
            out.push(0x75);
            out.push(0x30);
            out.push(0x30);
            out.push(nibble(b / 16));
            out.push(nibble(b % 16));
        } else {
            out.push(b);
        }
        assert(out@ =~= old(out)@ + seq![0x22u8] + escape(s@.subrange(0, i + 1)));
        i = i + 1;
    }
    out.push(0x22);
    assert(s@.subrange(0, n as int) =~= s@);
    assert(out@ =~= old(out)@ + json_str(s@));
}

fn nibble(v: u8) -> (r: u8)
    requires
        v < 16,
    ensures
        r == hex_nibble(v as int),
{
    if v < 10 {
        0x30 + v
    } else {
        0x61 + (v - 10)
    }
}


pub open spec fn is_digit(c: u8) -> bool {
    0x30 <= c && c <= 0x39
}

/// The decimal digits of a byte, without leading zeros.
pub open spec fn dec(b: u8) -> Seq<u8> {
    if b < 10 {
        seq![(0x30 + b) as u8]
    } else if b < 100 {
        seq![(0x30 + b / 10) as u8, (0x30 + b % 10) as u8]
    } else {
        seq![(0x30 + b / 100) as u8, (0x30 + (b / 10) % 10) as u8, (0x30 + b % 10) as u8]
    }
}

/// The numbers of a byte vector separated by commas.
pub open spec fn join(v: Seq<u8>) -> Seq<u8>
    decreases v.len(),
{
    if v.len() == 0 {
        seq![]
    } else if v.len() == 1 {
        dec(v[0])
    } else {
        join(v.drop_last()) + seq![0x2cu8] + dec(v.last())
    }
}

/// A byte vector as `serde_json` writes it: a JSON array of decimal numbers.
pub open spec fn json_bytes(v: Seq<u8>) -> Seq<u8> {
    seq![0x5bu8] + join(v) + seq![0x5du8]
}

pub proof fn lemma_join_first(v: Seq<u8>)
    requires
        v.len() >= 2,
    ensures
        join(v) == dec(v[0]) + seq![0x2cu8] + join(v.drop_first()),
    decreases v.len(),
{
    if v.len() == 2 {
        assert(v.drop_last().len() == 1);
        assert(v.drop_first().len() == 1);
        assert(join(v.drop_last()) == dec(v[0]));
        assert(join(v.drop_first()) == dec(v[1]));
    } else {
        lemma_join_first(v.drop_last());
        assert(v.drop_last().drop_first() =~= v.drop_first().drop_last());
        assert(v.drop_first().last() == v.last());
    }
}

/// Reads the number at the start of `x`: up to three digits, no leading
/// zero, at most 255, and no digit after it.
pub open spec fn num(x: Seq<u8>) -> Option<(u8, int)> {
    if x.len() >= 1 && is_digit(x[0]) {
        let d0 = x[0] - 0x30;
        if x.len() >= 2 && is_digit(x[1]) {
            let d1 = x[1] - 0x30;
            if x.len() >= 3 && is_digit(x[2]) {
                let d2 = x[2] - 0x30;
                if x.len() >= 4 && is_digit(x[3]) {
                    None
                } else if d0 != 0 && 100 * d0 + 10 * d1 + d2 <= 255 {
                    Some(((100 * d0 + 10 * d1 + d2) as u8, 3))
                } else {
                    None
                }
            } else if d0 != 0 {
                Some(((10 * d0 + d1) as u8, 2))
            } else {
                None
            }
        } else {
            Some((d0 as u8, 1))
        }
    } else {
        None
    }
}

pub proof fn lemma_num_dec(b: u8, rest: Seq<u8>)
    requires
        rest.len() > 0 && !is_digit(rest[0]),
    ensures
        num(dec(b) + rest) == Some((b, dec(b).len() as int)),
{
    let x = dec(b) + rest;
    assert(x[dec(b).len() as int] == rest[0]);
}




fn push_dec(out: &mut Vec<u8>, b: u8)
    ensures
        final(out)@ == old(out)@ + dec(b),
{
    if b < 10 {
        out.push(0x30 + b);
    } else if b < 100 {
        out.push(0x30 + b / 10);
        out.push(0x30 + b % 10);
    } else {
        out.push(0x30 + b / 100);
        out.push(0x30 + (b / 10) % 10);
        out.push(0x30 + b % 10);
    }
    assert(final(out)@ =~= old(out)@ + dec(b));
}

/// Appends the JSON array for the byte vector `v` to `out`.
pub fn write_json_bytes(out: &mut Vec<u8>, v: &[u8])
    ensures
        final(out)@ == old(out)@ + json_bytes(v@),
{
    out.push(0x5b);
    let n = v.len();
    let mut i: usize = 0;
    while i < n
        invariant
            n == v@.len(),
            i <= n,
            out@ == old(out)@ + seq![0x5bu8] + join(v@.subrange(0, i as int)),
        decreases n - i,
    {
        let ghost before = v@.subrange(0, i as int);
        let ghost after = v@.subrange(0, i + 1);
        assert(after.drop_last() =~= before);
        if i > 0 {
            out.push(0x2c);
        }
        push_dec(out, v[i]);
        proof {
            if i == 0 {
                assert(join(before) =~= Seq::<u8>::empty());
                assert(join(after) == dec(v@[0]));
            }
        }
        assert(out@ =~= old(out)@ + seq![0x5bu8] + join(after));
        i = i + 1;
    }
    out.push(0x5d);
    assert(v@.subrange(0, n as int) =~= v@);
    assert(out@ =~= old(out)@ + json_bytes(v@));
}

pub fn num_at(buf: &[u8], p: usize) -> (r: Option<(u8, usize)>)
    requires
        p <= buf@.len(),
    ensures
        match num(buf@.skip(p as int)) {
            Some((b, k)) => r == Some((b, k as usize)),
            None => r is None,
        },
{
    let ghost x = buf@.skip(p as int);
    let n = buf.len();
    if p < n && 0x30 <= buf[p] && buf[p] <= 0x39 {
        let d0 = buf[p] - 0x30;
        if n - p >= 2 && 0x30 <= buf[p + 1] && buf[p + 1] <= 0x39 {
            let d1 = buf[p + 1] - 0x30;
            if n - p >= 3 && 0x30 <= buf[p + 2] && buf[p + 2] <= 0x39 {
                let d2 = buf[p + 2] - 0x30;
                if n - p >= 4 && 0x30 <= buf[p + 3] && buf[p + 3] <= 0x39 {
                    None
                } else if d0 != 0 && (d0 as u32) * 100 + (d1 as u32) * 10 + (d2 as u32) <= 255 {
                    Some((d0 * 100 + d1 * 10 + d2, 3))
                } else {
                    None
                }
            } else if d0 != 0 {
                Some((d0 * 10 + d1, 2))
            } else {
                None
            }
        } else {
            Some((d0, 1))
        }
    } else {
        None
    }
}

/// Whether `lit` is written at position `p` of `buf`.
pub open spec fn lit_at(buf: Seq<u8>, p: int, lit: Seq<u8>) -> bool {
    0 <= p && p + lit.len() <= buf.len() && buf.subrange(p, p + lit.len()) == lit
}

/// Whether `lit` is written at position `p` of `buf`.
pub fn expect_lit(buf: &[u8], p: usize, lit: &[u8]) -> (r: bool)
    requires
        p <= buf@.len(),
    ensures
        r == lit_at(buf@, p as int, lit@),
{
    let n = buf.len();
    let m = lit.len();
    if m > n - p {
        return false;
    }
    let mut i: usize = 0;
    while i < m
        invariant
            n == buf@.len(),
            m == lit@.len(),
            p + m <= n,
            i <= m,
            forall|j: int| 0 <= j < i ==> buf@[p + j] == lit@[j],
        decreases m - i,
    {
        if buf[p + i] != lit[i] {
            assert(buf@.subrange(p as int, p + m)[i as int] != lit@[i as int]);
            return false;
        }
        i = i + 1;
    }
    assert(buf@.subrange(p as int, p + m) =~= lit@);
    true
}

/// Appends `lit` to `out`.
pub fn push_lit(out: &mut Vec<u8>, lit: &[u8])
    ensures
        final(out)@ == old(out)@ + lit@,
{
    let m = lit.len();
    let mut i: usize = 0;
    while i < m
        invariant
            m == lit@.len(),
            i <= m,
            out@ == old(out)@ + lit@.subrange(0, i as int),
        decreases m - i,
    {
        out.push(lit[i]);
        assert(out@ =~= old(out)@ + lit@.subrange(0, i + 1));
        i = i + 1;
    }
    assert(lit@.subrange(0, m as int) =~= lit@);
}

/// Calls `String::from_utf8`: it succeeds exactly on valid UTF-8, with the
/// text those bytes encode.
#[verifier::external_body]
pub(crate) fn string_from_utf8(bytes: Vec<u8>) -> (r: Option<String>)
    ensures
        r is Some == vstd::utf8::valid_utf8(bytes@),
        r matches Some(s) ==> s@ == vstd::utf8::decode_utf8(bytes@),
{
    String::from_utf8(bytes).ok()
}

/// Appends the JSON string literal holding `s` to `out`.
pub fn write_json_string(out: &mut Vec<u8>, s: &str)
    ensures
        final(out)@ == old(out)@ + json_str(vstd::utf8::encode_utf8(s@)),
{
    write_json_str(out, s.as_bytes());
}

/// Whether two byte strings are equal.
pub fn bytes_eq(a: &[u8], b: &[u8]) -> (r: bool)
    ensures
        r == (a@ == b@),
{
    if a.len() != b.len() {
        return false;
    }
    let n = a.len();
    let mut i: usize = 0;
    while i < n
        invariant
            n == a@.len(),
            n == b@.len(),
            i <= n,
            forall|j: int| 0 <= j < i ==> a@[j] == b@[j],
        decreases n - i,
    {
        if a[i] != b[i] {
            return false;
        }
        i = i + 1;
    }
    assert(a@ =~= b@);
    true
}

} // verus!
